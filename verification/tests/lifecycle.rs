use leptos_rerun::lifecycle::{error_text, sync_allowed, ViewerEventKind, ViewerLifecycle};

#[test]
fn start_is_refused_while_starting_or_attached() {
    let mut lifecycle = ViewerLifecycle::new();
    assert_eq!(lifecycle.begin_start(), Some(1));
    assert!(lifecycle.starting);
    assert_eq!(lifecycle.begin_start(), None);
    assert!(lifecycle.on_viewer_created(1));
    assert!(lifecycle.attached);
    assert_eq!(lifecycle.viewer_revision, 1);
    assert!(!lifecycle.starting);
    assert_eq!(lifecycle.begin_start(), None);
    assert!(lifecycle.bridge_available());
}

#[test]
fn destroy_resets_and_allows_a_new_start() {
    let mut lifecycle = ViewerLifecycle::new();
    let nonce = lifecycle.begin_start().unwrap();
    assert!(lifecycle.on_viewer_created(nonce));
    lifecycle.on_event(ViewerEventKind::Ready);
    assert!(lifecycle.ready);
    assert!(lifecycle.destroy());
    assert!(!lifecycle.ready);
    assert!(!lifecycle.attached);
    assert_eq!(lifecycle.viewer_revision, 0);
    assert!(!lifecycle.bridge_available());
    assert!(!lifecycle.destroy());
    assert_eq!(lifecycle.begin_start(), Some(4));
}

#[test]
fn stale_creation_is_discarded() {
    let mut lifecycle = ViewerLifecycle::new();
    let first = lifecycle.begin_start().unwrap();
    assert!(!lifecycle.destroy());
    let second = lifecycle.begin_start().unwrap();
    assert_ne!(first, second);
    assert!(!lifecycle.on_viewer_created(first));
    assert!(!lifecycle.attached);
    assert_eq!(lifecycle.viewer_revision, 0);
    assert!(lifecycle.on_viewer_created(second));
    assert!(lifecycle.attached);
    assert_eq!(lifecycle.viewer_revision, 1);
}

#[test]
fn nonce_wraps_around() {
    let mut lifecycle = ViewerLifecycle::new();
    lifecycle.lifecycle_nonce = u64::MAX;
    assert_eq!(lifecycle.begin_start(), Some(0));
    assert!(!lifecycle.destroy());
    assert_eq!(lifecycle.lifecycle_nonce, 1);
}

#[test]
fn failures_are_recorded_and_cleared_by_the_next_start() {
    let mut lifecycle = ViewerLifecycle::new();
    lifecycle.begin_start();
    lifecycle.on_start_failed("boom".to_string());
    assert!(!lifecycle.starting);
    assert_eq!(lifecycle.last_error.as_deref(), Some("boom"));
    lifecycle.on_event_decode_failed("bad type");
    assert_eq!(
        lifecycle.last_error.as_deref(),
        Some("failed to deserialize viewer event: bad type")
    );
    lifecycle.begin_start();
    assert_eq!(lifecycle.last_error, None);
    lifecycle.on_startup_options_failed("no");
    assert_eq!(
        lifecycle.last_error.as_deref(),
        Some("failed to serialize startup options: no")
    );
    lifecycle.record_error("later".to_string());
    assert_eq!(lifecycle.last_error.as_deref(), Some("later"));
}

#[test]
fn only_ready_events_change_readiness() {
    let mut lifecycle = ViewerLifecycle::new();
    for kind in [
        ViewerEventKind::Fullscreen,
        ViewerEventKind::Play,
        ViewerEventKind::Pause,
        ViewerEventKind::TimeUpdate,
        ViewerEventKind::TimelineChange,
        ViewerEventKind::SelectionChange,
        ViewerEventKind::RecordingOpen,
    ] {
        lifecycle.on_event(kind);
        assert!(!lifecycle.ready);
    }
    lifecycle.on_event(ViewerEventKind::Ready);
    assert!(lifecycle.ready);
}

#[test]
fn error_text_prefers_string_then_json_then_debug() {
    assert_eq!(
        error_text(Some("s".to_string()), Some("j".to_string()), "d".to_string()),
        "s"
    );
    assert_eq!(error_text(None, Some("j".to_string()), "d".to_string()), "j");
    assert_eq!(error_text(None, None, "d".to_string()), "d");
}

#[test]
fn sync_waits_for_an_attached_viewer() {
    assert!(!sync_allowed(0));
    assert!(sync_allowed(1));
    assert!(sync_allowed(7));
}

#[test]
fn last_error_is_latest_since_accepted_start() {
    let mut lifecycle = ViewerLifecycle::new();
    lifecycle.record_error("first".to_string());
    let nonce = lifecycle.begin_start().unwrap();
    assert_eq!(lifecycle.last_error, None);
    lifecycle.record_error("second".to_string());
    assert_eq!(lifecycle.begin_start(), None);
    assert_eq!(lifecycle.last_error.as_deref(), Some("second"));
    assert!(lifecycle.on_viewer_created(nonce));
    lifecycle.on_event(ViewerEventKind::Play);
    assert!(lifecycle.destroy());
    assert_eq!(lifecycle.last_error.as_deref(), Some("second"));
    lifecycle.begin_start();
    assert_eq!(lifecycle.last_error, None);
}
