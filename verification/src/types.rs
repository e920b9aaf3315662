//! Plain data types that describe how the Rerun web viewer is configured.
use std::collections::BTreeMap;

use vstd::prelude::*;
use vstd::std_specs::cmp::PartialEqSpecImpl;
use vstd::std_specs::convert::FromSpecImpl;
use vstd::string::StringExecFns;

verus! {

/// The web-viewer release that the default asset origin pins.
pub const DEFAULT_RERUN_CDN_VERSION: &'static str = "0.31.3";

/// Where the viewer's ES module is loaded from.
#[derive(Clone, Debug)]
pub enum AssetOrigin {
    JsDelivr { version: String },
    CustomModule { url: String },
}

/// The jsDelivr URL of the web-viewer module for a given release.
pub open spec fn jsdelivr_module_url(version: Seq<char>) -> Seq<char> {
    "https://cdn.jsdelivr.net/npm/@rerun-io/web-viewer@"@ + version + "/+esm"@
}

impl AssetOrigin {
    /// The URL that the viewer module is imported from.
    pub open spec fn module_url_spec(&self) -> Seq<char> {
        match self {
            AssetOrigin::JsDelivr { version } => jsdelivr_module_url(version@),
            AssetOrigin::CustomModule { url } => url@,
        }
    }

    pub fn jsdelivr(version: &str) -> (origin: Self)
        ensures
            origin matches AssetOrigin::JsDelivr { version: v } && v@ == version@,
    {
        AssetOrigin::JsDelivr { version: String::from_str(version) }
    }

    pub fn custom_module(url: &str) -> (origin: Self)
        ensures
            origin matches AssetOrigin::CustomModule { url: u } && u@ == url@,
    {
        AssetOrigin::CustomModule { url: String::from_str(url) }
    }

    pub fn module_url(&self) -> (url: String)
        ensures
            url@ == self.module_url_spec(),
    {
        match self {
            AssetOrigin::JsDelivr { version } => {
                let mut url = String::from_str("https://cdn.jsdelivr.net/npm/@rerun-io/web-viewer@");
                url.append(version.as_str());
                url.append("/+esm");
                url
            },
            AssetOrigin::CustomModule { url } => url.clone(),
        }
    }
}

impl Default for AssetOrigin {
    fn default() -> (origin: Self)
        ensures
            origin matches AssetOrigin::JsDelivr { version: v } && v@ == DEFAULT_RERUN_CDN_VERSION@,
    {
        AssetOrigin::jsdelivr(DEFAULT_RERUN_CDN_VERSION)
    }
}

/// Two origins name the same module source.
pub open spec fn same_origin(a: AssetOrigin, b: AssetOrigin) -> bool {
    match (a, b) {
        (AssetOrigin::JsDelivr { version: x }, AssetOrigin::JsDelivr { version: y }) => x@ == y@,
        (AssetOrigin::CustomModule { url: x }, AssetOrigin::CustomModule { url: y }) => x@ == y@,
        _ => false,
    }
}

proof fn lemma_jsdelivr_url_injective(x: Seq<char>, y: Seq<char>)
    requires
        jsdelivr_module_url(x) == jsdelivr_module_url(y),
    ensures
        x == y,
{
    let prefix = "https://cdn.jsdelivr.net/npm/@rerun-io/web-viewer@"@;
    let suffix = "/+esm"@;
    let a = jsdelivr_module_url(x);
    assert(a.len() == prefix.len() + x.len() + suffix.len());
    assert(jsdelivr_module_url(y).len() == prefix.len() + y.len() + suffix.len());
    assert forall|i: int| 0 <= i < x.len() implies x[i] == y[i] by {
        assert(a[prefix.len() + i] == x[i]);
        assert(jsdelivr_module_url(y)[prefix.len() + i] == y[i]);
    }
    assert(x =~= y);
}

/// Two asset origins are equal exactly when they are of the same kind and load the viewer
/// module from the same URL.
pub proof fn lemma_same_origin_iff_same_module(a: AssetOrigin, b: AssetOrigin)
    ensures
        same_origin(a, b) <==> ((a is JsDelivr) == (b is JsDelivr) && a.module_url_spec()
            == b.module_url_spec()),
{
    if let (AssetOrigin::JsDelivr { version: x }, AssetOrigin::JsDelivr { version: y }) = (a, b) {
        if a.module_url_spec() == b.module_url_spec() {
            lemma_jsdelivr_url_injective(x@, y@);
        }
    }
}

/// Two event bases are equal exactly when their application, recording and partition ids have
/// the same characters.
pub proof fn lemma_event_bases_equal_iff_same_ids(a: ViewerEventBase, b: ViewerEventBase)
    ensures
        vstd::std_specs::cmp::PartialEqSpec::eq_spec(&a, &b) <==> (a.application_id@ == b.application_id@ && a.recording_id@
            == b.recording_id@ && opt_view(a.partition_id) == opt_view(b.partition_id)),
{
}

impl PartialEq for AssetOrigin {
    fn eq(&self, other: &Self) -> (same: bool)
        ensures
            same == ((self is JsDelivr) == (other is JsDelivr) && self.module_url_spec()
                == other.module_url_spec()),
    {
        proof {
            lemma_same_origin_iff_same_module(*self, *other);
        }
        match (self, other) {
            (AssetOrigin::JsDelivr { version: x }, AssetOrigin::JsDelivr { version: y }) => { let same = String::eq(x, y); same },
            (AssetOrigin::CustomModule { url: x }, AssetOrigin::CustomModule { url: y }) => { let same = String::eq(x, y); same },
            _ => false,
        }
    }
}

impl PartialEqSpecImpl for AssetOrigin {
    open spec fn obeys_eq_spec() -> bool {
        true
    }

    open spec fn eq_spec(&self, other: &AssetOrigin) -> bool {
        same_origin(*self, *other)
    }
}

impl Eq for AssetOrigin {
}

#[derive(Clone, Copy, Debug, PartialEq, Eq, Structural)]
pub enum Theme {
    Dark,
    Light,
    System,
}

#[derive(Clone, Copy, Debug, PartialEq, Eq, Structural)]
pub enum RenderBackend {
    Webgpu,
    Webgl,
}

#[derive(Clone, Copy, Debug, PartialEq, Eq, Structural)]
pub enum VideoDecoder {
    Auto,
    PreferSoftware,
    PreferHardware,
}

/// The recordings (`.rrd` URLs) that the viewer should show.
#[derive(Clone, Debug)]
pub struct Rrds(Vec<String>);

impl View for Rrds {
    type V = Seq<Seq<char>>;

    closed spec fn view(&self) -> Seq<Seq<char>> {
        string_views(self.0@)
    }
}

impl Rrds {
    pub fn as_slice(&self) -> (urls: &[String])
        ensures
            string_views(urls@) == self@,
    {
        self.0.as_slice()
    }

    pub fn is_empty(&self) -> (empty: bool)
        ensures
            empty == (self@.len() == 0),
    {
        self.0.is_empty()
    }
}

impl PartialEq for Rrds {
    fn eq(&self, other: &Self) -> (same: bool) {
        if self.0.len() != other.0.len() {
            assert(self@.len() != other@.len());
            return false;
        }
        for i in 0..self.0.len()
            invariant
                self.0@.len() == other.0@.len(),
                forall|j: int| 0 <= j < i ==> (#[trigger] self.0@[j])@ == other.0@[j]@,
        {
            if !String::eq(&self.0[i], &other.0[i]) {
                assert(self@[i as int] != other@[i as int]);
                return false;
            }
        }
        assert(self@ =~= other@);
        true
    }
}

impl PartialEqSpecImpl for Rrds {
    open spec fn obeys_eq_spec() -> bool {
        true
    }

    open spec fn eq_spec(&self, other: &Rrds) -> bool {
        self@ == other@
    }
}

impl Eq for Rrds {
}

impl Default for Rrds {
    fn default() -> (rrds: Self)
        ensures
            rrds@ == Seq::<Seq<char>>::empty(),
    {
        Rrds(Vec::new())
    }
}

impl From<&str> for Rrds {
    fn from(value: &str) -> (rrds: Self)
        ensures
            rrds@ == seq![value@],
    {
        let mut urls: Vec<String> = Vec::new();
        urls.push(String::from_str(value));
        let rrds = Rrds(urls);
        assert(rrds@ =~= seq![value@]);
        rrds
    }
}

// `Rrds` owns `String`s, whose equality as values is not determined by their characters, so
// no spec function can name the exact result of a conversion; each `from` below states its
// result through its own `ensures` instead, over the view.
impl FromSpecImpl<&str> for Rrds {
    open spec fn obeys_from_spec() -> bool {
        false
    }

    open spec fn from_spec(v: &str) -> Rrds {
        arbitrary()
    }
}

/// The character sequences of a sequence of owned strings.
pub open spec fn string_views(s: Seq<String>) -> Seq<Seq<char>> {
    s.map_values(|x: String| x@)
}

/// The character sequences of a sequence of string slices.
pub open spec fn str_views(s: Seq<&str>) -> Seq<Seq<char>> {
    s.map_values(|x: &str| x@)
}

/// Copies each string slice into an owned `String`, keeping the order.
fn owned_urls(values: &[&str]) -> (urls: Vec<String>)
    ensures
        string_views(urls@) == str_views(values@),
{
    let mut urls: Vec<String> = Vec::new();
    for i in 0..values.len()
        invariant
            urls@.len() == i,
            string_views(urls@) == str_views(values@.take(i as int)),
    {
        let ghost before = urls@;
        let url = String::from_str(values[i]);
        urls.push(url);
        proof {
            let owned = string_views(urls@);
            let wanted = str_views(values@.take(i + 1));
            assert(owned.len() == wanted.len());
            assert forall|j: int| 0 <= j < owned.len() implies owned[j] == wanted[j] by {
                if j < i {
                    assert(owned[j] == string_views(before)[j]);
                    assert(wanted[j] == str_views(values@.take(i as int))[j]);
                }
            }
            assert(owned =~= wanted);
        }
    }
    assert(values@.take(values@.len() as int) =~= values@);
    urls
}

impl From<String> for Rrds {
    fn from(value: String) -> (rrds: Self)
        ensures
            rrds@ == seq![value@],
    {
        let ghost v = value@;
        let mut urls: Vec<String> = Vec::new();
        urls.push(value);
        let rrds = Rrds(urls);
        assert(rrds@ =~= seq![v]);
        rrds
    }
}

impl FromSpecImpl<String> for Rrds {
    open spec fn obeys_from_spec() -> bool {
        false
    }

    open spec fn from_spec(v: String) -> Rrds {
        arbitrary()
    }
}

impl From<Vec<String>> for Rrds {
    fn from(value: Vec<String>) -> (rrds: Self)
        ensures
            rrds@ == string_views(value@),
    {
        Rrds(value)
    }
}

impl FromSpecImpl<Vec<String>> for Rrds {
    open spec fn obeys_from_spec() -> bool {
        false
    }

    open spec fn from_spec(v: Vec<String>) -> Rrds {
        arbitrary()
    }
}

impl<'a> From<Vec<&'a str>> for Rrds {
    fn from(value: Vec<&'a str>) -> (rrds: Self)
        ensures
            rrds@ == str_views(value@),
    {
        Rrds(owned_urls(value.as_slice()))
    }
}

impl<'a> FromSpecImpl<Vec<&'a str>> for Rrds {
    open spec fn obeys_from_spec() -> bool {
        false
    }

    open spec fn from_spec(v: Vec<&'a str>) -> Rrds {
        arbitrary()
    }
}

impl<'a, const N: usize> From<[&'a str; N]> for Rrds {
    fn from(value: [&'a str; N]) -> (rrds: Self)
        ensures
            rrds@ == str_views(value@),
    {
        Rrds(owned_urls(value.as_slice()))
    }
}

impl<'a, const N: usize> FromSpecImpl<[&'a str; N]> for Rrds {
    open spec fn obeys_from_spec() -> bool {
        false
    }

    open spec fn from_spec(v: [&'a str; N]) -> Rrds {
        arbitrary()
    }
}

/// Copies each owned string, keeping the order.
fn cloned_urls(values: &[String]) -> (urls: Vec<String>)
    ensures
        string_views(urls@) == string_views(values@),
{
    let mut urls: Vec<String> = Vec::new();
    for i in 0..values.len()
        invariant
            urls@.len() == i,
            string_views(urls@) == string_views(values@.take(i as int)),
    {
        let ghost before = urls@;
        let url = values[i].clone();
        urls.push(url);
        proof {
            let owned = string_views(urls@);
            let wanted = string_views(values@.take(i + 1));
            assert(owned.len() == wanted.len());
            assert forall|j: int| 0 <= j < owned.len() implies owned[j] == wanted[j] by {
                if j < i {
                    assert(owned[j] == string_views(before)[j]);
                    assert(wanted[j] == string_views(values@.take(i as int))[j]);
                }
            }
            assert(owned =~= wanted);
        }
    }
    assert(values@.take(values@.len() as int) =~= values@);
    urls
}

impl<const N: usize> From<[String; N]> for Rrds {
    fn from(value: [String; N]) -> (rrds: Self)
        ensures
            rrds@ == string_views(value@),
    {
        Rrds(cloned_urls(value.as_slice()))
    }
}

impl<const N: usize> FromSpecImpl<[String; N]> for Rrds {
    open spec fn obeys_from_spec() -> bool {
        false
    }

    open spec fn from_spec(v: [String; N]) -> Rrds {
        arbitrary()
    }
}

/// The recording that a viewer event refers to.
#[derive(Clone, Debug)]
pub struct ViewerEventBase {
    pub application_id: String,
    pub recording_id: String,
    pub partition_id: Option<String>,
}

/// The character sequence of an optional string.
pub open spec fn opt_view(s: Option<String>) -> Option<Seq<char>> {
    match s {
        Some(x) => Some(x@),
        None => None,
    }
}

/// Compares two optional strings by their characters.
pub fn opt_string_eq(a: &Option<String>, b: &Option<String>) -> (same: bool)
    ensures
        same == (opt_view(*a) == opt_view(*b)),
{
    match (a, b) {
        (Some(x), Some(y)) => String::eq(x, y),
        (None, None) => true,
        _ => false,
    }
}

impl PartialEq for ViewerEventBase {
    fn eq(&self, other: &Self) -> (same: bool)
        ensures
            same == (self.application_id@ == other.application_id@ && self.recording_id@
                == other.recording_id@ && opt_view(self.partition_id) == opt_view(
                other.partition_id,
            )),
    {
        String::eq(&self.application_id, &other.application_id) && String::eq(
            &self.recording_id,
            &other.recording_id,
        ) && opt_string_eq(&self.partition_id, &other.partition_id)
    }
}

impl PartialEqSpecImpl for ViewerEventBase {
    open spec fn obeys_eq_spec() -> bool {
        true
    }

    open spec fn eq_spec(&self, other: &ViewerEventBase) -> bool {
        &&& self.application_id@ == other.application_id@
        &&& self.recording_id@ == other.recording_id@
        &&& opt_view(self.partition_id) == opt_view(other.partition_id)
    }
}

impl Eq for ViewerEventBase {
}

/// A panel of the viewer's chrome whose state can be overridden.
#[derive(Clone, Copy, Debug, PartialEq, Eq, Structural, PartialOrd, Ord, Hash)]
pub enum Panel {
    Top,
    Blueprint,
    Selection,
    Time,
}

#[derive(Clone, Copy, Debug, PartialEq, Eq, Structural)]
pub enum PanelState {
    Hidden,
    Collapsed,
    Expanded,
}

/// Position of a panel in the panel order (the order in which `Panel` lists them).
pub open spec fn panel_rank(panel: Panel) -> nat {
    match panel {
        Panel::Top => 0,
        Panel::Blueprint => 1,
        Panel::Selection => 2,
        Panel::Time => 3,
    }
}

/// The overrides made by applying `pairs` in order: a later pair for a panel replaces an earlier one.
pub open spec fn overrides_from(pairs: Seq<(Panel, PanelState)>) -> Map<Panel, PanelState>
    decreases pairs.len(),
{
    if pairs.len() == 0 {
        Map::empty()
    } else {
        overrides_from(pairs.drop_last()).insert(pairs.last().0, pairs.last().1)
    }
}

/// The entry of one panel, as a sequence of at most one pair.
pub open spec fn panel_entry(m: Map<Panel, PanelState>, panel: Panel) -> Seq<(Panel, PanelState)> {
    if m.contains_key(panel) {
        seq![(panel, m[panel])]
    } else {
        Seq::empty()
    }
}

/// The entries of an override map in panel order.
pub open spec fn panel_listing(m: Map<Panel, PanelState>) -> Seq<(Panel, PanelState)> {
    panel_entry(m, Panel::Top) + panel_entry(m, Panel::Blueprint) + panel_entry(m, Panel::Selection)
        + panel_entry(m, Panel::Time)
}

/// Calls `BTreeMap::get` on a map keyed by panels. `Panel`'s derived `Ord` is a total order that
/// agrees with its equality (the declaration order of the variants), so `get` returns the state
/// stored for `panel`, or `None` if the map holds none.
#[verifier::external_body]
fn panel_map_get(map: &BTreeMap<Panel, PanelState>, panel: Panel) -> (state: Option<PanelState>)
    ensures
        state == (if map@.contains_key(panel) {
            Some(map@[panel])
        } else {
            None
        }),
{
    map.get(&panel).copied()
}

/// Calls `BTreeMap::insert` on a map keyed by panels. As `Panel`'s derived `Ord` is a total order
/// that agrees with its equality, the map afterwards holds `state` for `panel` and is otherwise
/// unchanged. The previous state that `insert` returns is not used.
#[verifier::external_body]
fn panel_map_insert(map: &mut BTreeMap<Panel, PanelState>, panel: Panel, state: PanelState)
    ensures
        final(map)@ == old(map)@.insert(panel, state),
{
    map.insert(panel, state);
}

/// At most one state per panel, held in a map keyed by panel.
#[derive(Clone, Debug, PartialEq, Eq)]
pub struct PanelStateOverrides(BTreeMap<Panel, PanelState>);

impl View for PanelStateOverrides {
    type V = Map<Panel, PanelState>;

    closed spec fn view(&self) -> Map<Panel, PanelState> {
        self.0@
    }
}

impl PanelStateOverrides {
    fn from_slice(pairs: &[(Panel, PanelState)]) -> (overrides: Self)
        ensures
            overrides@ == overrides_from(pairs@),
    {
        let mut map: BTreeMap<Panel, PanelState> = BTreeMap::new();
        for i in 0..pairs.len()
            invariant
                map@ == overrides_from(pairs@.take(i as int)),
        {
            let (panel, state) = pairs[i];
            panel_map_insert(&mut map, panel, state);
            assert(pairs@.take(i + 1).drop_last() =~= pairs@.take(i as int));
        }
        assert(pairs@.take(pairs@.len() as int) =~= pairs@);
        PanelStateOverrides(map)
    }

    /// The overrides in panel order, one entry per overridden panel.
    pub fn iter(&self) -> (entries: Vec<(Panel, PanelState)>)
        ensures
            entries@ == panel_listing(self@),
    {
        let mut entries: Vec<(Panel, PanelState)> = Vec::new();
        if let Some(state) = panel_map_get(&self.0, Panel::Top) {
            entries.push((Panel::Top, state));
        }
        if let Some(state) = panel_map_get(&self.0, Panel::Blueprint) {
            entries.push((Panel::Blueprint, state));
        }
        if let Some(state) = panel_map_get(&self.0, Panel::Selection) {
            entries.push((Panel::Selection, state));
        }
        if let Some(state) = panel_map_get(&self.0, Panel::Time) {
            entries.push((Panel::Time, state));
        }
        assert(entries@ =~= panel_listing(self@));
        entries
    }

    pub fn is_empty(&self) -> (empty: bool)
        ensures
            empty == (self@.dom() == Set::<Panel>::empty()),
    {
        let top = panel_map_get(&self.0, Panel::Top);
        let blueprint = panel_map_get(&self.0, Panel::Blueprint);
        let selection = panel_map_get(&self.0, Panel::Selection);
        let time = panel_map_get(&self.0, Panel::Time);
        let empty = top.is_none() && blueprint.is_none() && selection.is_none() && time.is_none();
        if !empty {
            if top.is_some() {
                assert(self@.dom().contains(Panel::Top));
            } else if blueprint.is_some() {
                assert(self@.dom().contains(Panel::Blueprint));
            } else if selection.is_some() {
                assert(self@.dom().contains(Panel::Selection));
            } else {
                assert(self@.dom().contains(Panel::Time));
            }
        } else {
            assert forall|p: Panel| !self@.dom().contains(p) by {
                match p {
                    Panel::Top => {},
                    Panel::Blueprint => {},
                    Panel::Selection => {},
                    Panel::Time => {},
                }
            }
            assert(self@.dom() =~= Set::<Panel>::empty());
        }
        empty
    }
}

impl Default for PanelStateOverrides {
    fn default() -> (overrides: Self)
        ensures
            overrides@ == Map::<Panel, PanelState>::empty(),
    {
        PanelStateOverrides(BTreeMap::new())
    }
}

// A map's equality as a value is not determined by its view alone, so no spec function names the
// exact result of a conversion; each `from` below states its result through its own `ensures`.
impl From<Vec<(Panel, PanelState)>> for PanelStateOverrides {
    fn from(value: Vec<(Panel, PanelState)>) -> (overrides: Self)
        ensures
            overrides@ == overrides_from(value@),
    {
        Self::from_slice(value.as_slice())
    }
}

impl FromSpecImpl<Vec<(Panel, PanelState)>> for PanelStateOverrides {
    open spec fn obeys_from_spec() -> bool {
        false
    }

    open spec fn from_spec(v: Vec<(Panel, PanelState)>) -> PanelStateOverrides {
        arbitrary()
    }
}

impl<const N: usize> From<[(Panel, PanelState); N]> for PanelStateOverrides {
    fn from(value: [(Panel, PanelState); N]) -> (overrides: Self)
        ensures
            overrides@ == overrides_from(value@),
    {
        Self::from_slice(value.as_slice())
    }
}

impl<const N: usize> FromSpecImpl<[(Panel, PanelState); N]> for PanelStateOverrides {
    open spec fn obeys_from_spec() -> bool {
        false
    }

    open spec fn from_spec(v: [(Panel, PanelState); N]) -> PanelStateOverrides {
        arbitrary()
    }
}

impl From<BTreeMap<Panel, PanelState>> for PanelStateOverrides {
    fn from(value: BTreeMap<Panel, PanelState>) -> (overrides: Self)
        ensures
            overrides@ == value@,
    {
        PanelStateOverrides(value)
    }
}

impl FromSpecImpl<BTreeMap<Panel, PanelState>> for PanelStateOverrides {
    open spec fn obeys_from_spec() -> bool {
        false
    }

    open spec fn from_spec(v: BTreeMap<Panel, PanelState>) -> PanelStateOverrides {
        arbitrary()
    }
}

proof fn lemma_last_pair_wins(pairs: Seq<(Panel, PanelState)>, panel: Panel, i: int)
    requires
        0 <= i < pairs.len(),
        pairs[i].0 == panel,
        forall|j: int| i < j < pairs.len() ==> (#[trigger] pairs[j]).0 != panel,
    ensures
        overrides_from(pairs).contains_key(panel),
        overrides_from(pairs)[panel] == pairs[i].1,
    decreases pairs.len(),
{
    if i < pairs.len() - 1 {
        let init = pairs.drop_last();
        assert(pairs[pairs.len() - 1].0 != panel);
        assert forall|j: int| i < j < init.len() implies (#[trigger] init[j]).0 != panel by {
            assert(init[j] == pairs[j]);
        }
        lemma_last_pair_wins(init, panel, i);
    }
}

proof fn lemma_named_panel_present(pairs: Seq<(Panel, PanelState)>, panel: Panel, i: int)
    requires
        0 <= i < pairs.len(),
        pairs[i].0 == panel,
    ensures
        overrides_from(pairs).contains_key(panel),
    decreases pairs.len(),
{
    if i < pairs.len() - 1 {
        let init = pairs.drop_last();
        assert(init[i] == pairs[i]);
        lemma_named_panel_present(init, panel, i);
    }
}

proof fn lemma_unnamed_panel_absent(pairs: Seq<(Panel, PanelState)>, panel: Panel)
    requires
        forall|i: int| 0 <= i < pairs.len() ==> (#[trigger] pairs[i]).0 != panel,
    ensures
        !overrides_from(pairs).contains_key(panel),
    decreases pairs.len(),
{
    if pairs.len() > 0 {
        let init = pairs.drop_last();
        assert(pairs[pairs.len() - 1].0 != panel);
        assert forall|i: int| 0 <= i < init.len() implies (#[trigger] init[i]).0 != panel by {
            assert(init[i] == pairs[i]);
        }
        lemma_unnamed_panel_absent(init, panel);
    }
}

/// Building overrides from a list of pairs keeps exactly one state per panel: a panel is
/// overridden exactly when some pair names it, and its state is the one of the last such pair.
pub proof fn lemma_overrides_keep_last_state(pairs: Seq<(Panel, PanelState)>, panel: Panel)
    ensures
        overrides_from(pairs).contains_key(panel) <==> exists|i: int|
            0 <= i < pairs.len() && (#[trigger] pairs[i]).0 == panel,
        forall|i: int|
            0 <= i < pairs.len() && (#[trigger] pairs[i]).0 == panel && (forall|j: int|
                i < j < pairs.len() ==> (#[trigger] pairs[j]).0 != panel) ==> overrides_from(pairs)[panel]
                == pairs[i].1,
{
    if exists|i: int| 0 <= i < pairs.len() && (#[trigger] pairs[i]).0 == panel {
        let i = choose|i: int| 0 <= i < pairs.len() && (#[trigger] pairs[i]).0 == panel;
        lemma_named_panel_present(pairs, panel, i);
    } else {
        lemma_unnamed_panel_absent(pairs, panel);
    }
    assert forall|i: int|
        0 <= i < pairs.len() && (#[trigger] pairs[i]).0 == panel && (forall|j: int|
            i < j < pairs.len() ==> (#[trigger] pairs[j]).0 != panel) implies overrides_from(pairs)[panel]
        == pairs[i].1 by {
        lemma_last_pair_wins(pairs, panel, i);
    }
}

/// Listing the overrides yields each overridden panel exactly once with its state, in panel order.
pub proof fn lemma_listing_in_panel_order(m: Map<Panel, PanelState>)
    ensures
        forall|i: int, j: int|
            0 <= i < j < panel_listing(m).len() ==> panel_rank((#[trigger] panel_listing(m)[i]).0)
                < panel_rank((#[trigger] panel_listing(m)[j]).0),
        forall|panel: Panel, state: PanelState|
            panel_listing(m).contains((panel, state)) <==> (m.contains_key(panel) && m[panel]
                == state),
{
    let l = panel_listing(m);
    let a = panel_entry(m, Panel::Top);
    let b = panel_entry(m, Panel::Blueprint);
    let c = panel_entry(m, Panel::Selection);
    let d = panel_entry(m, Panel::Time);
    assert(l =~= a + b + c + d);
    assert forall|k: int| 0 <= k < l.len() implies l[k] == (l[k].0, m[l[k].0]) && m.contains_key(
        l[k].0,
    ) && panel_rank(l[k].0) >= k && panel_rank(l[k].0) + l.len() - k <= 4 by {
        if k < a.len() {
            assert(l[k] == a[k]);
        } else if k < a.len() + b.len() {
            assert(l[k] == b[k - a.len()]);
        } else if k < a.len() + b.len() + c.len() {
            assert(l[k] == c[k - a.len() - b.len()]);
        } else {
            assert(l[k] == d[k - a.len() - b.len() - c.len()]);
        }
    }
    assert forall|i: int, j: int|
        0 <= i < j < l.len() implies panel_rank((#[trigger] l[i]).0) < panel_rank(
        (#[trigger] l[j]).0,
    ) by {
        if i < a.len() {
            assert(l[i] == a[i]);
        } else if i < a.len() + b.len() {
            assert(l[i] == b[i - a.len()]);
        } else if i < a.len() + b.len() + c.len() {
            assert(l[i] == c[i - a.len() - b.len()]);
        } else {
            assert(l[i] == d[i - a.len() - b.len() - c.len()]);
        }
        if j < a.len() {
            assert(l[j] == a[j]);
        } else if j < a.len() + b.len() {
            assert(l[j] == b[j - a.len()]);
        } else if j < a.len() + b.len() + c.len() {
            assert(l[j] == c[j - a.len() - b.len()]);
        } else {
            assert(l[j] == d[j - a.len() - b.len() - c.len()]);
        }
    }
    assert forall|panel: Panel, state: PanelState|
        l.contains((panel, state)) <==> (m.contains_key(panel) && m[panel] == state) by {
        if l.contains((panel, state)) {
            let k = choose|k: int| 0 <= k < l.len() && l[k] == (panel, state);
            assert(l[k] == (l[k].0, m[l[k].0]));
        }
        if m.contains_key(panel) && m[panel] == state {
            match panel {
                Panel::Top => {
                    assert(l[0] == (panel, state));
                },
                Panel::Blueprint => {
                    assert(l[a.len() as int] == (panel, state));
                },
                Panel::Selection => {
                    assert(l[(a.len() + b.len()) as int] == (panel, state));
                },
                Panel::Time => {
                    assert(l[(a.len() + b.len() + c.len()) as int] == (panel, state));
                },
            }
        }
    }
}

proof fn lemma_overrides_append_entry(
    x: Seq<(Panel, PanelState)>,
    m: Map<Panel, PanelState>,
    panel: Panel,
)
    ensures
        overrides_from(x + panel_entry(m, panel)) == if m.contains_key(panel) {
            overrides_from(x).insert(panel, m[panel])
        } else {
            overrides_from(x)
        },
{
    let y = x + panel_entry(m, panel);
    if m.contains_key(panel) {
        assert(y.drop_last() =~= x);
        assert(y.last() == (panel, m[panel]));
    } else {
        assert(y =~= x);
    }
}

/// Listing a map of overrides in panel order and building overrides from that list gives the
/// map back.
pub proof fn lemma_listing_round_trip(m: Map<Panel, PanelState>)
    ensures
        overrides_from(panel_listing(m)) == m,
{
    let e = Seq::<(Panel, PanelState)>::empty();
    let a = panel_entry(m, Panel::Top);
    let b = panel_entry(m, Panel::Blueprint);
    let c = panel_entry(m, Panel::Selection);
    assert(e + a =~= a);
    lemma_overrides_append_entry(e, m, Panel::Top);
    lemma_overrides_append_entry(a, m, Panel::Blueprint);
    lemma_overrides_append_entry(a + b, m, Panel::Selection);
    lemma_overrides_append_entry(a + b + c, m, Panel::Time);
    let r = overrides_from(panel_listing(m));
    assert forall|p: Panel| #[trigger] r.contains_key(p) == m.contains_key(p) && (m.contains_key(p)
        ==> r[p] == m[p]) by {
        match p {
            Panel::Top => {},
            Panel::Blueprint => {},
            Panel::Selection => {},
            Panel::Time => {},
        }
    }
    assert(r =~= m);
}

} // verus!
