use leptos_rerun::options::{
    overrides_enabled, panel_registrations, source_registrations, startup_changed,
    PanelRegistration, StartupOptions,
};
use leptos_rerun::types::{AssetOrigin, Panel, PanelState, PanelStateOverrides, RenderBackend, Theme, VideoDecoder};

fn options() -> StartupOptions {
    StartupOptions {
        manifest_url: None,
        render_backend: Some(RenderBackend::Webgpu),
        video_decoder: None,
        theme: Some(Theme::Dark),
        hide_welcome_screen: true,
        allow_fullscreen: false,
    }
}

#[test]
fn sources_are_trimmed_and_blank_ones_dropped() {
    let urls = vec![
        "  https://a/one.rrd ".to_string(),
        "   ".to_string(),
        "".to_string(),
        "https://b/two.rrd".to_string(),
        "\thttps://c/three.rrd\n".to_string(),
    ];
    let sources = source_registrations(&urls, true);
    let got: Vec<(String, bool)> = sources.iter().map(|s| (s.url.clone(), s.follow_if_http)).collect();
    assert_eq!(
        got,
        vec![
            ("https://a/one.rrd".to_string(), true),
            ("https://b/two.rrd".to_string(), true),
            ("https://c/three.rrd".to_string(), true),
        ]
    );
    assert!(source_registrations(&[], false).is_empty());
    let kept = source_registrations(&["x".to_string()], false);
    assert_eq!(kept[0].url, "x");
    assert!(!kept[0].follow_if_http);
}

#[test]
fn panel_registrations_follow_panel_order() {
    let overrides = PanelStateOverrides::from([
        (Panel::Time, PanelState::Hidden),
        (Panel::Top, PanelState::Expanded),
    ]);
    let registrations = panel_registrations(&overrides);
    assert_eq!(
        registrations,
        vec![
            PanelRegistration { panel: Panel::Top, state: PanelState::Expanded },
            PanelRegistration { panel: Panel::Time, state: PanelState::Hidden },
        ]
    );
    assert!(overrides_enabled(&registrations));
    let none = panel_registrations(&PanelStateOverrides::default());
    assert!(none.is_empty());
    assert!(!overrides_enabled(&none));
}

#[test]
fn restart_only_when_origin_or_options_change() {
    let origin = AssetOrigin::default();
    assert!(startup_changed(&None, &origin, &options()));
    let previous = Some((origin.clone(), options()));
    assert!(!startup_changed(&previous, &origin, &options()));
    assert!(startup_changed(&previous, &AssetOrigin::custom_module("m.js"), &options()));
    let mut themed = options();
    themed.theme = Some(Theme::Light);
    assert!(startup_changed(&previous, &origin, &themed));
    let mut manifest = options();
    manifest.manifest_url = Some("https://m".to_string());
    assert!(startup_changed(&previous, &origin, &manifest));
    let mut decoder = options();
    decoder.video_decoder = Some(VideoDecoder::Auto);
    assert!(startup_changed(&previous, &origin, &decoder));
    let mut full = options();
    full.allow_fullscreen = true;
    assert!(startup_changed(&previous, &origin, &full));
}

#[test]
fn startup_options_equality() {
    assert!(options() == options());
    let mut other = options();
    other.render_backend = Some(RenderBackend::Webgl);
    assert!(options() != other);
}
