//! Behavior of the selector scoper on concrete inputs.

use css_scoper::scoper::scope;

fn bindings_of(r: &[(String, String)]) -> Vec<(&str, &str)> {
    r.iter().map(|p| (p.0.as_str(), p.1.as_str())).collect()
}

fn scope_ok(key: &str, css: &str) -> (Vec<(String, String)>, String) {
    let (binds, out) = scope(key, css).expect("scoping should succeed");
    (
        binds.into_iter().map(|b| (b.original, b.scoped)).collect(),
        out,
    )
}

#[test]
fn single_rule_is_scoped() {
    let (binds, out) = scope_ok("pages_home", ".btn{color:blue}");
    assert_eq!(bindings_of(&binds), vec![("btn", "pages_home-btn")]);
    assert_eq!(out, ".pages_home-btn{color:blue}");
}

#[test]
fn two_rules_are_scoped_in_order() {
    let (binds, out) = scope_ok("K", ".a{x:1}.b{y:2}");
    assert_eq!(bindings_of(&binds), vec![("a", "K-a"), ("b", "K-b")]);
    assert_eq!(out, ".K-a{x:1}.K-b{y:2}");
}

#[test]
fn block_content_is_preserved() {
    let (_, out) = scope_ok("K", ".a{color:red}");
    assert_eq!(out, ".K-a{color:red}");
    assert!(out.contains("{color:red}"));
}

#[test]
fn unterminated_block_is_an_error() {
    let err = scope("K", ".a{x:1").expect_err("unterminated block must fail");
    assert!(!err.message.is_empty());
}

#[test]
fn empty_input_yields_nothing() {
    let (binds, out) = scope_ok("K", "");
    assert!(binds.is_empty());
    assert_eq!(out, "");
}

#[test]
fn bare_identifiers_pass_verbatim() {
    let (binds, out) = scope_ok("K", "body{margin:0}");
    assert!(binds.is_empty());
    assert_eq!(out, "body{margin:0}");
}

#[test]
fn duplicate_class_is_recorded_each_occurrence() {
    let (binds, out) = scope_ok("K", ".a{x:1}.a{y:2}");
    assert_eq!(bindings_of(&binds), vec![("a", "K-a"), ("a", "K-a")]);
    assert_eq!(out, ".K-a{x:1}.K-a{y:2}");
}

#[test]
fn class_context_persists_until_block() {
    // After one dot, every identifier up to the next block is treated as a
    // class name; the flag is cleared only when a block closes.
    let (binds, out) = scope_ok("K", ".a b{x:1}");
    assert_eq!(bindings_of(&binds), vec![("a", "K-a"), ("b", "K-b")]);
    assert_eq!(out, ".K-a .K-b{x:1}");
}

#[test]
fn nested_blocks_are_copied_verbatim() {
    let (binds, out) = scope_ok("K", ".a{b{c:1}d:2}");
    assert_eq!(bindings_of(&binds), vec![("a", "K-a")]);
    assert_eq!(out, ".K-a{b{c:1}d:2}");
}

#[test]
fn stray_close_brace_is_copied() {
    let (binds, out) = scope_ok("K", ".a{}}");
    assert_eq!(bindings_of(&binds), vec![("a", "K-a")]);
    assert_eq!(out, ".K-a{}}");
}

#[test]
fn distinct_keys_give_distinct_scoped_names() {
    let (b1, _) = scope_ok("pages_home", ".btn{x:1}");
    let (b2, _) = scope_ok("widgets_nav", ".btn{x:1}");
    assert_eq!(b1[0].0, b2[0].0);
    assert_ne!(b1[0].1, b2[0].1);
}

#[test]
fn hyphen_and_digits_stay_in_one_identifier() {
    let (binds, out) = scope_ok("K", ".btn-2{x:1}");
    assert_eq!(bindings_of(&binds), vec![("btn-2", "K-btn-2")]);
    assert_eq!(out, ".K-btn-2{x:1}");
}
