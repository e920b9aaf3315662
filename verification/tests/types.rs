use std::collections::BTreeMap;

use leptos_rerun::types::{
    AssetOrigin, Panel, PanelState, PanelStateOverrides, Rrds, ViewerEventBase,
};
use leptos_rerun::DEFAULT_RERUN_CDN_VERSION;

#[test]
fn asset_origin_default_uses_pinned_jsdelivr_version() {
    assert_eq!(
        AssetOrigin::default().module_url(),
        format!("https://cdn.jsdelivr.net/npm/@rerun-io/web-viewer@{DEFAULT_RERUN_CDN_VERSION}/+esm")
    );
}

#[test]
fn custom_module_origin_preserves_url() {
    let url = "https://example.com/rerun/viewer.js";
    assert_eq!(AssetOrigin::custom_module(url).module_url(), url);
}

#[test]
fn rrds_accept_single_or_multiple_urls() {
    assert_eq!(
        Rrds::from("https://example.com/one.rrd").as_slice(),
        ["https://example.com/one.rrd".to_string()]
    );
    assert_eq!(
        Rrds::from(["https://example.com/one.rrd", "https://example.com/two.rrd",]).as_slice(),
        [
            "https://example.com/one.rrd".to_string(),
            "https://example.com/two.rrd".to_string(),
        ]
    );
}

#[test]
fn panel_state_overrides_keep_one_value_per_panel() {
    let overrides = PanelStateOverrides::from([
        (Panel::Top, PanelState::Hidden),
        (Panel::Time, PanelState::Collapsed),
        (Panel::Top, PanelState::Expanded),
    ]);

    assert_eq!(
        overrides.iter().into_iter().collect::<Vec<_>>(),
        vec![
            (Panel::Top, PanelState::Expanded),
            (Panel::Time, PanelState::Collapsed),
        ]
    );
}

#[test]
fn jsdelivr_origin_builds_cdn_url() {
    assert_eq!(
        AssetOrigin::jsdelivr("1.2.3").module_url(),
        "https://cdn.jsdelivr.net/npm/@rerun-io/web-viewer@1.2.3/+esm"
    );
    assert_eq!(DEFAULT_RERUN_CDN_VERSION, "0.31.3");
}

#[test]
fn asset_origins_compare_by_kind_and_text() {
    assert!(AssetOrigin::jsdelivr("1") == AssetOrigin::jsdelivr("1"));
    assert!(AssetOrigin::jsdelivr("1") != AssetOrigin::jsdelivr("2"));
    assert!(AssetOrigin::jsdelivr("x") != AssetOrigin::custom_module("x"));
    assert!(AssetOrigin::custom_module("u") == AssetOrigin::custom_module("u"));
}

#[test]
fn rrds_from_owned_and_vectors_keep_order() {
    let single = Rrds::from("a.rrd".to_string());
    assert_eq!(single.as_slice(), ["a.rrd".to_string()]);
    let many = Rrds::from(vec!["b.rrd", "a.rrd"]);
    assert_eq!(many.as_slice(), ["b.rrd".to_string(), "a.rrd".to_string()]);
    let owned = Rrds::from(vec!["c.rrd".to_string()]);
    assert_eq!(owned.as_slice(), ["c.rrd".to_string()]);
    assert!(!many.is_empty());
    assert!(Rrds::default().is_empty());
    assert!(Rrds::from(Vec::<&str>::new()).is_empty());
}

#[test]
fn rrds_compare_elementwise() {
    assert!(Rrds::from(["a", "b"]) == Rrds::from(vec!["a", "b"]));
    assert!(Rrds::from(["a", "b"]) != Rrds::from(["b", "a"]));
    assert!(Rrds::from(["a"]) != Rrds::from(["a", "a"]));
}

#[test]
fn panel_overrides_list_in_panel_order() {
    let overrides = PanelStateOverrides::from(vec![
        (Panel::Time, PanelState::Expanded),
        (Panel::Selection, PanelState::Hidden),
        (Panel::Blueprint, PanelState::Collapsed),
        (Panel::Top, PanelState::Collapsed),
        (Panel::Selection, PanelState::Collapsed),
    ]);
    assert_eq!(
        overrides.iter(),
        vec![
            (Panel::Top, PanelState::Collapsed),
            (Panel::Blueprint, PanelState::Collapsed),
            (Panel::Selection, PanelState::Collapsed),
            (Panel::Time, PanelState::Expanded),
        ]
    );
    assert!(!overrides.is_empty());
}

#[test]
fn empty_panel_overrides() {
    assert!(PanelStateOverrides::default().is_empty());
    assert!(PanelStateOverrides::from(Vec::new()).is_empty());
    assert_eq!(PanelStateOverrides::default().iter(), Vec::new());
    assert_eq!(
        PanelStateOverrides::from([(Panel::Blueprint, PanelState::Hidden)]),
        PanelStateOverrides::from(vec![(Panel::Blueprint, PanelState::Hidden)])
    );
}

#[test]
fn viewer_event_bases_compare_all_fields() {
    let base = ViewerEventBase {
        application_id: "app".to_string(),
        recording_id: "rec".to_string(),
        partition_id: None,
    };
    assert!(base == base.clone());
    let other = ViewerEventBase { partition_id: Some("p".to_string()), ..base.clone() };
    assert!(base != other);
    let renamed = ViewerEventBase { recording_id: "rec-2".to_string(), ..base.clone() };
    assert!(base != renamed);
}

#[test]
fn panel_overrides_round_trip_through_a_map() {
    let mut map = BTreeMap::new();
    map.insert(Panel::Time, PanelState::Collapsed);
    map.insert(Panel::Blueprint, PanelState::Hidden);
    let overrides = PanelStateOverrides::from(map.clone());
    assert_eq!(
        overrides.iter(),
        vec![(Panel::Blueprint, PanelState::Hidden), (Panel::Time, PanelState::Collapsed)]
    );
    assert_eq!(overrides.iter().into_iter().collect::<BTreeMap<_, _>>(), map);
    assert!(PanelStateOverrides::from(BTreeMap::new()).is_empty());
}

#[test]
fn rrds_from_array_of_owned_strings() {
    let rrds = Rrds::from(["x.rrd".to_string(), "y.rrd".to_string()]);
    assert_eq!(rrds.as_slice(), ["x.rrd".to_string(), "y.rrd".to_string()]);
}

#[test]
fn panel_overrides_debug_shows_the_map() {
    let overrides = PanelStateOverrides::from([
        (Panel::Time, PanelState::Collapsed),
        (Panel::Top, PanelState::Hidden),
    ]);
    assert_eq!(
        format!("{overrides:?}"),
        "PanelStateOverrides({Top: Hidden, Time: Collapsed})"
    );
}
