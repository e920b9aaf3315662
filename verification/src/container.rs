//! The inline style of the element that hosts the viewer.
use vstd::prelude::*;
use vstd::string::StringExecFns;

use crate::text::{contains, has_substring, is_whitespace, lemma_not_blank, lemma_trimmed_empty_iff_blank, trim, trimmed};

verus! {

/// The style a container gets when none is given.
pub open spec fn default_container_style() -> Seq<char> {
    "position: relative; width: 100%; min-height: 360px;"@
}

/// The container style the viewer uses for the style a caller gave: a default for a blank
/// style, the style itself where it already sets a position, and otherwise the style after a
/// relative position.
pub open spec fn normalized_style(style: Seq<char>) -> Seq<char> {
    if trimmed(style).len() == 0 {
        default_container_style()
    } else if has_substring(style, "position:"@) {
        style
    } else {
        "position: relative; "@ + style
    }
}

pub fn normalize_container_style(style: &str) -> (normalized: String)
    ensures
        normalized@ == normalized_style(style@),
{
    if trim(style).is_empty() {
        String::from_str("position: relative; width: 100%; min-height: 360px;")
    } else if contains(style, "position:") {
        String::from_str(style)
    } else {
        let mut normalized = String::from_str("position: relative; ");
        normalized.append(style);
        normalized
    }
}

/// The normalized style always sets a position.
pub proof fn lemma_normalized_style_sets_position(style: Seq<char>)
    ensures
        has_substring(normalized_style(style), "position:"@),
{
    reveal_strlit("position:");
    reveal_strlit("position: relative; ");
    reveal_strlit("position: relative; width: 100%; min-height: 360px;");
    let pattern = "position:"@;
    let out = normalized_style(style);
    if trimmed(style).len() == 0 {
        assert(out.subrange(0, 0 + pattern.len() as int) =~= pattern);
    } else if !has_substring(style, pattern) {
        assert(out.subrange(0, 0 + pattern.len() as int) =~= pattern);
    }
}

/// The normalized style is not blank.
pub proof fn lemma_normalized_style_not_blank(style: Seq<char>)
    ensures
        trimmed(normalized_style(style)).len() > 0,
{
    reveal_strlit("position: relative; ");
    reveal_strlit("position: relative; width: 100%; min-height: 360px;");
    let out = normalized_style(style);
    if trimmed(style).len() == 0 || !has_substring(style, "position:"@) {
        assert(!is_whitespace(out[0]));
        lemma_not_blank(out, 0);
    } else {
        lemma_trimmed_empty_iff_blank(style);
    }
}

/// Normalizing a normalized style changes nothing.
pub proof fn lemma_normalize_idempotent(style: Seq<char>)
    ensures
        normalized_style(normalized_style(style)) == normalized_style(style),
{
    lemma_normalized_style_not_blank(style);
    lemma_normalized_style_sets_position(style);
}

} // verus!
