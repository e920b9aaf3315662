//! What the host sends to the viewer: startup options, the sources to show, the panel
//! overrides and the playback options, and when the viewer must be restarted.
use vstd::prelude::*;
use vstd::std_specs::cmp::PartialEqSpecImpl;
use vstd::string::StringExecFns;

use crate::text::{lemma_trimmed_idempotent, trim, trimmed};
use crate::types::{
    lemma_same_origin_iff_same_module,
    opt_string_eq, opt_view, panel_entry, panel_listing, same_origin, string_views, AssetOrigin,
    Panel, PanelState, PanelStateOverrides, RenderBackend, Theme, VideoDecoder,
};

verus! {

/// The options a viewer is started with.
#[derive(Clone, Debug)]
pub struct StartupOptions {
    pub manifest_url: Option<String>,
    pub render_backend: Option<RenderBackend>,
    pub video_decoder: Option<VideoDecoder>,
    pub theme: Option<Theme>,
    pub hide_welcome_screen: bool,
    pub allow_fullscreen: bool,
}

/// Two sets of startup options are the same.
pub open spec fn same_startup(a: StartupOptions, b: StartupOptions) -> bool {
    &&& opt_view(a.manifest_url) == opt_view(b.manifest_url)
    &&& a.render_backend == b.render_backend
    &&& a.video_decoder == b.video_decoder
    &&& a.theme == b.theme
    &&& a.hide_welcome_screen == b.hide_welcome_screen
    &&& a.allow_fullscreen == b.allow_fullscreen
}

fn same_render_backend(a: Option<RenderBackend>, b: Option<RenderBackend>) -> (same: bool)
    ensures
        same == (a == b),
{
    match (a, b) {
        (Some(RenderBackend::Webgpu), Some(RenderBackend::Webgpu)) => true,
        (Some(RenderBackend::Webgl), Some(RenderBackend::Webgl)) => true,
        (None, None) => true,
        _ => false,
    }
}

fn same_video_decoder(a: Option<VideoDecoder>, b: Option<VideoDecoder>) -> (same: bool)
    ensures
        same == (a == b),
{
    match (a, b) {
        (Some(VideoDecoder::Auto), Some(VideoDecoder::Auto)) => true,
        (Some(VideoDecoder::PreferSoftware), Some(VideoDecoder::PreferSoftware)) => true,
        (Some(VideoDecoder::PreferHardware), Some(VideoDecoder::PreferHardware)) => true,
        (None, None) => true,
        _ => false,
    }
}

fn same_theme(a: Option<Theme>, b: Option<Theme>) -> (same: bool)
    ensures
        same == (a == b),
{
    match (a, b) {
        (Some(Theme::Dark), Some(Theme::Dark)) => true,
        (Some(Theme::Light), Some(Theme::Light)) => true,
        (Some(Theme::System), Some(Theme::System)) => true,
        (None, None) => true,
        _ => false,
    }
}

impl PartialEq for StartupOptions {
    fn eq(&self, other: &Self) -> (same: bool)
        ensures
            same == (opt_view(self.manifest_url) == opt_view(other.manifest_url)
                && self.render_backend == other.render_backend && self.video_decoder
                == other.video_decoder && self.theme == other.theme && self.hide_welcome_screen
                == other.hide_welcome_screen && self.allow_fullscreen == other.allow_fullscreen),
    {
        opt_string_eq(&self.manifest_url, &other.manifest_url) && same_render_backend(
            self.render_backend,
            other.render_backend,
        ) && same_video_decoder(self.video_decoder, other.video_decoder) && same_theme(
            self.theme,
            other.theme,
        ) && self.hide_welcome_screen == other.hide_welcome_screen && self.allow_fullscreen
            == other.allow_fullscreen
    }
}

impl PartialEqSpecImpl for StartupOptions {
    open spec fn obeys_eq_spec() -> bool {
        true
    }

    open spec fn eq_spec(&self, other: &StartupOptions) -> bool {
        same_startup(*self, *other)
    }
}

impl Eq for StartupOptions {
}

/// Whether a viewer must be (re)started: it must unless it was last started with the same
/// asset origin and the same startup options.
pub fn startup_changed(
    previous: &Option<(AssetOrigin, StartupOptions)>,
    origin: &AssetOrigin,
    options: &StartupOptions,
) -> (restart: bool)
    ensures
        restart == !(previous matches Some(p) && same_origin(p.0, *origin) && same_startup(
            p.1,
            *options,
        )),
        !restart ==> (previous matches Some(p) && (p.0 is JsDelivr) == (*origin is JsDelivr)
            && p.0.module_url_spec() == origin.module_url_spec() && opt_view(p.1.manifest_url)
            == opt_view(options.manifest_url) && p.1.render_backend == options.render_backend
            && p.1.video_decoder == options.video_decoder && p.1.theme == options.theme
            && p.1.hide_welcome_screen == options.hide_welcome_screen && p.1.allow_fullscreen
            == options.allow_fullscreen),
{
    proof {
        if let Some(p) = previous {
            lemma_same_origin_iff_same_module(p.0, *origin);
        }
    }
    match previous {
        Some(p) => !(p.0 == *origin && p.1 == *options),
        None => true,
    }
}

/// Two sets of startup options are the same exactly when every option agrees: the manifest URL
/// by its characters, and the backend, decoder, theme and both flags by value.
pub proof fn lemma_same_startup_iff_every_option_agrees(a: StartupOptions, b: StartupOptions)
    ensures
        same_startup(a, b) <==> (opt_view(a.manifest_url) == opt_view(b.manifest_url)
            && a.render_backend == b.render_backend && a.video_decoder == b.video_decoder
            && a.theme == b.theme && a.hide_welcome_screen == b.hide_welcome_screen
            && a.allow_fullscreen == b.allow_fullscreen),
{
}

/// The viewer is restarted whenever no previous start is known, or the asset origin loads
/// another module, or any startup option differs from the previous one.
pub proof fn lemma_restart_on_any_change(
    previous: Option<(AssetOrigin, StartupOptions)>,
    origin: AssetOrigin,
    options: StartupOptions,
)
    ensures
        ({
            let restart = !(previous matches Some(p) && same_origin(p.0, origin) && same_startup(
                p.1,
                options,
            ));
            let p = previous->0;
            &&& previous is None ==> restart
            &&& previous is Some && ((p.0 is JsDelivr) != (origin is JsDelivr)
                || p.0.module_url_spec() != origin.module_url_spec()) ==> restart
            &&& previous is Some && (opt_view(p.1.manifest_url) != opt_view(
                options.manifest_url,
            ) || p.1.render_backend != options.render_backend || p.1.video_decoder
                != options.video_decoder || p.1.theme != options.theme
                || p.1.hide_welcome_screen != options.hide_welcome_screen
                || p.1.allow_fullscreen != options.allow_fullscreen) ==> restart
        }),
{
    if let Some(p) = previous {
        lemma_same_origin_iff_same_module(p.0, origin);
    }
}

/// A source for the viewer to open.
#[derive(Clone, Debug)]
pub struct SourceRegistration {
    pub url: String,
    pub follow_if_http: bool,
}

/// A source as plain values.
pub open spec fn registration_view(r: SourceRegistration) -> (Seq<char>, bool) {
    (r.url@, r.follow_if_http)
}

/// Sources as plain values.
pub open spec fn registration_views(s: Seq<SourceRegistration>) -> Seq<(Seq<char>, bool)> {
    s.map_values(|r: SourceRegistration| registration_view(r))
}

/// The sources registered for `urls`: each URL with its surrounding whitespace removed, in
/// order, leaving out the URLs that are blank.
pub open spec fn source_entries(urls: Seq<Seq<char>>, follow_if_http: bool) -> Seq<(Seq<char>, bool)>
    decreases urls.len(),
{
    if urls.len() == 0 {
        Seq::empty()
    } else {
        let earlier = source_entries(urls.drop_last(), follow_if_http);
        let url = trimmed(urls.last());
        if url.len() == 0 {
            earlier
        } else {
            earlier.push((url, follow_if_http))
        }
    }
}

/// The sources to register for the given recording URLs.
pub fn source_registrations(urls: &[String], follow_if_http: bool) -> (sources: Vec<SourceRegistration>)
    ensures
        registration_views(sources@) == source_entries(string_views(urls@), follow_if_http),
{
    let mut sources: Vec<SourceRegistration> = Vec::new();
    for i in 0..urls.len()
        invariant
            registration_views(sources@) == source_entries(
                string_views(urls@.take(i as int)),
                follow_if_http,
            ),
    {
        let ghost before = sources@;
        let url = trim(urls[i].as_str());
        assert(string_views(urls@.take(i + 1)).drop_last() =~= string_views(urls@.take(i as int)));
        assert(string_views(urls@.take(i + 1)).last() == urls@[i as int]@);
        if !url.is_empty() {
            sources.push(SourceRegistration { url: String::from_str(url), follow_if_http });
            assert(registration_views(sources@) =~= registration_views(before).push(
                (url@, follow_if_http),
            ));
        }
    }
    assert(urls@.take(urls@.len() as int) =~= urls@);
    sources
}

/// Every registered source is a URL that is not blank and has no surrounding whitespace, and
/// every URL that is not blank gives a source.
pub proof fn lemma_registered_sources_are_trimmed(urls: Seq<Seq<char>>, follow_if_http: bool)
    ensures
        forall|i: int|
            0 <= i < source_entries(urls, follow_if_http).len() ==> {
                let entry = #[trigger] source_entries(urls, follow_if_http)[i];
                &&& entry.0.len() > 0
                &&& trimmed(entry.0) == entry.0
                &&& entry.1 == follow_if_http
            },
        source_entries(urls, follow_if_http).len() <= urls.len(),
        (forall|i: int| 0 <= i < urls.len() ==> trimmed(#[trigger] urls[i]).len() > 0) ==> source_entries(
            urls,
            follow_if_http,
        ).len() == urls.len(),
    decreases urls.len(),
{
    if urls.len() > 0 {
        let init = urls.drop_last();
        lemma_registered_sources_are_trimmed(init, follow_if_http);
        lemma_trimmed_idempotent(urls.last());
        if forall|i: int| 0 <= i < urls.len() ==> trimmed(#[trigger] urls[i]).len() > 0 {
            assert forall|i: int| 0 <= i < init.len() implies trimmed(#[trigger] init[i]).len() > 0 by {
                assert(init[i] == urls[i]);
            }
            assert(trimmed(urls[urls.len() - 1]).len() > 0);
        }
    }
}

/// A panel override to send to the viewer.
#[derive(Clone, Copy, Debug, PartialEq, Eq, Structural)]
pub struct PanelRegistration {
    pub panel: Panel,
    pub state: PanelState,
}

/// Panel overrides as pairs.
pub open spec fn panel_pairs(s: Seq<PanelRegistration>) -> Seq<(Panel, PanelState)> {
    s.map_values(|r: PanelRegistration| (r.panel, r.state))
}

/// The panel overrides to send to the viewer, in panel order.
pub fn panel_registrations(overrides: &PanelStateOverrides) -> (registrations: Vec<PanelRegistration>)
    ensures
        panel_pairs(registrations@) == panel_listing(overrides@),
{
    let entries = overrides.iter();
    let mut registrations: Vec<PanelRegistration> = Vec::new();
    for i in 0..entries.len()
        invariant
            entries@ == panel_listing(overrides@),
            registrations@.len() == i,
            panel_pairs(registrations@) == entries@.take(i as int),
    {
        let ghost before = registrations@;
        let (panel, state) = entries[i];
        registrations.push(PanelRegistration { panel, state });
        proof {
            let got = panel_pairs(registrations@);
            let want = entries@.take(i + 1);
            assert forall|j: int| 0 <= j < got.len() implies got[j] == want[j] by {
                if j < i {
                    assert(got[j] == panel_pairs(before)[j]);
                    assert(want[j] == entries@.take(i as int)[j]);
                }
            }
            assert(got =~= want);
        }
    }
    assert(entries@.take(entries@.len() as int) =~= entries@);
    registrations
}

/// Whether panel overrides are switched on: exactly when there is at least one.
pub fn overrides_enabled(registrations: &[PanelRegistration]) -> (enabled: bool)
    ensures
        enabled == (registrations@.len() > 0),
{
    !registrations.is_empty()
}

/// Panel overrides are switched on exactly when some panel is overridden.
pub proof fn lemma_overrides_enabled_iff_some_panel(m: Map<Panel, PanelState>)
    ensures
        (panel_listing(m).len() > 0) <==> (m.dom() != Set::<Panel>::empty()),
{
    if m.dom() != Set::<Panel>::empty() {
        let p = choose|p: Panel| m.dom().contains(p);
        if !m.dom().contains(p) {
            assert(m.dom() =~= Set::<Panel>::empty());
        }
        match p {
            Panel::Top => assert(panel_entry(m, Panel::Top).len() == 1),
            Panel::Blueprint => assert(panel_entry(m, Panel::Blueprint).len() == 1),
            Panel::Selection => assert(panel_entry(m, Panel::Selection).len() == 1),
            Panel::Time => assert(panel_entry(m, Panel::Time).len() == 1),
        }
    } else {
        assert(!m.contains_key(Panel::Top));
        assert(!m.contains_key(Panel::Blueprint));
        assert(!m.contains_key(Panel::Selection));
        assert(!m.contains_key(Panel::Time));
    }
}

/// How the viewer plays recordings once they open.
#[derive(Clone, Debug)]
pub struct PlaybackOptions {
    pub autoplay: bool,
    pub loop_playback: bool,
    pub timeline: Option<String>,
}

} // verus!
