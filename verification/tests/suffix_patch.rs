use kaniran_core::suffix_rules::apply_patch;

/// `"なさ"` patched with `("い", "さ")` becomes `"ない"`.
#[test]
fn replaces_trailing_sa_with_i() {
    assert_eq!(apply_patch("なさ", ("い", "さ")), "ない");
}

/// An empty removed tail appends the replacement.
#[test]
fn empty_removed_appends_replacement() {
    assert_eq!(apply_patch("そ", ("う", "")), "そう");
}

/// Removal counts characters, across multi-byte text.
#[test]
fn multi_char_removal_multi_byte() {
    assert_eq!(apply_patch("あいうえお", ("XX", "えお")), "あいうXX");
}

/// Removing the whole root with an empty replacement leaves nothing.
#[test]
fn full_removal_empty_replacement_yields_empty() {
    assert_eq!(apply_patch("abc", ("", "abc")), "");
}

/// An empty patch returns the root unchanged.
#[test]
fn empty_patch_returns_root_unchanged() {
    assert_eq!(apply_patch("abc", ("", "")), "abc");
}

/// The output has the root's character length under an empty patch.
#[test]
fn output_char_length_matches_upstream() {
    let out = apply_patch("abc", ("", ""));
    assert_eq!(out.chars().count(), 3);
}
