use leptos_rerun::container::normalize_container_style;

#[test]
fn blank_style_gets_default_container_style() {
    assert_eq!(
        normalize_container_style(""),
        "position: relative; width: 100%; min-height: 360px;"
    );
    assert_eq!(
        normalize_container_style(" \t\n "),
        "position: relative; width: 100%; min-height: 360px;"
    );
}

#[test]
fn positioned_style_is_kept() {
    assert_eq!(
        normalize_container_style("top: 0; position: absolute;"),
        "top: 0; position: absolute;"
    );
    assert_eq!(normalize_container_style("  position:fixed "), "  position:fixed ");
}

#[test]
fn unpositioned_style_gets_relative_position() {
    assert_eq!(
        normalize_container_style("width: 100%; height: 100%;"),
        "position: relative; width: 100%; height: 100%;"
    );
    assert_eq!(
        normalize_container_style("position : absolute"),
        "position: relative; position : absolute"
    );
}

#[test]
fn normalizing_twice_changes_nothing() {
    for style in ["", "  ", "width: 1px;", "position: fixed;", " height: 2px "] {
        let once = normalize_container_style(style);
        assert_eq!(normalize_container_style(&once), once);
        assert!(once.contains("position:"));
    }
}
