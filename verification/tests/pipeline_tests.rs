//! The dialect-compiler stage, scope-key derivation, and the end-to-end
//! pipeline, including the extended dialect through the real compiler.

use css_scoper::compile::compile;
use css_scoper::pipeline::{process, PipelineError, SourceUnit};
use css_scoper::scope_key::{derive_scope_key, get_base_name, is_extended};

fn unit(path: &str, bytes: &[u8]) -> SourceUnit {
    SourceUnit {
        path: path.to_string(),
        bytes: bytes.to_vec(),
    }
}

#[test]
fn plain_compile_is_identity() {
    let src = b".a{color:red}".to_vec();
    let out = compile(&src, false).expect("plain compile cannot fail");
    assert_eq!(out, src);
    let empty = Vec::new();
    assert_eq!(compile(&empty, false).unwrap(), empty);
}

#[test]
fn extended_compile_flattens_nesting() {
    let src = b".a{.b{color:red}}".to_vec();
    let out = compile(&src, true).expect("well-formed extended source compiles");
    let text = String::from_utf8(out).unwrap();
    assert!(text.contains(".a .b{color:red}"));
    assert!(!text.contains("{.b"));
}

#[test]
fn extended_compile_reports_syntax_errors() {
    let src = b".a{color:".to_vec();
    let err = compile(&src, true).expect_err("malformed extended source fails");
    assert!(!err.message.is_empty());
}

#[test]
fn scope_key_strips_extension_and_joins_directories() {
    assert_eq!(get_base_name("pages/home.css", true).unwrap(), "pages_home");
    assert_eq!(get_base_name("pages/home.css", false).unwrap(), "home");
    assert_eq!(get_base_name("a/b/c.scss", true).unwrap(), "a_b_c");
    assert_eq!(get_base_name("home.css", true).unwrap(), "home");
    assert_eq!(get_base_name("home", false).unwrap(), "home");
    assert_eq!(get_base_name(".hidden", false).unwrap(), ".hidden");
    assert_eq!(get_base_name("a.tar.gz", false).unwrap(), "a.tar");
}

#[test]
fn scope_key_needs_a_final_component() {
    assert!(get_base_name("", true).is_err());
    assert!(get_base_name("dir/", true).is_err());
}

#[test]
fn scope_key_derivation_is_idempotent() {
    let k1 = derive_scope_key("pages/home.css").unwrap();
    let k2 = derive_scope_key("pages/home.css").unwrap();
    assert_eq!(k1, k2);
    assert_eq!(k1, "pages_home");
}

#[test]
fn extension_selects_the_dialect() {
    assert_eq!(is_extended("a/b.scss").unwrap(), true);
    assert_eq!(is_extended("a/b.css").unwrap(), false);
    assert_eq!(is_extended("b.SCSS").unwrap(), false);
    assert!(is_extended("noext").is_err());
    assert!(is_extended(".hidden").is_err());
}

#[test]
fn pipeline_scopes_plain_source() {
    let r = process(&unit("pages/home.css", b".btn{color:blue}")).unwrap();
    assert_eq!(r.0.len(), 1);
    assert_eq!(r.0[0].original, "btn");
    assert_eq!(r.0[0].scoped, "pages_home-btn");
    assert_eq!(r.1, ".pages_home-btn{color:blue}");
}

#[test]
fn pipeline_compiles_extended_source_before_scoping() {
    // The scoper never sees the nesting: the dialect compiler flattens it
    // first, and both flattened selectors are then scoped.
    let r = process(&unit("pages/home.scss", b".a{.b{color:red}}")).unwrap();
    let names: Vec<(&str, &str)> = r
        .0
        .iter()
        .map(|b| (b.original.as_str(), b.scoped.as_str()))
        .collect();
    assert_eq!(names, vec![("a", "pages_home-a"), ("b", "pages_home-b")]);
    assert!(r.1.starts_with(".pages_home-a .pages_home-b{color:red}"));
    assert!(!r.1.contains("{."));
}

#[test]
fn pipeline_rejects_unterminated_block() {
    let e = process(&unit("k.css", b".a{x:1")).expect_err("must fail");
    assert!(matches!(e, PipelineError::Scope(_)));
}

#[test]
fn pipeline_rejects_invalid_utf8() {
    let e = process(&unit("k.css", &[0x2e, 0xff, 0xfe])).expect_err("must fail");
    assert!(matches!(e, PipelineError::Scope(_)));
}

#[test]
fn pipeline_rejects_missing_extension() {
    let e = process(&unit("stylesheet", b".a{x:1}")).expect_err("must fail");
    assert!(matches!(e, PipelineError::Resolution(_)));
}

#[test]
fn pipeline_reports_dialect_errors() {
    let e = process(&unit("k.scss", b".a{color:")).expect_err("must fail");
    assert!(matches!(e, PipelineError::Compile(_)));
}

#[test]
fn pipeline_units_with_distinct_identities_scope_apart() {
    let r1 = process(&unit("pages/home.css", b".btn{x:1}")).unwrap();
    let r2 = process(&unit("widgets/nav.css", b".btn{x:1}")).unwrap();
    assert_eq!(r1.0[0].original, r2.0[0].original);
    assert_ne!(r1.0[0].scoped, r2.0[0].scoped);
}
