use bindgen_plugin::options::{BindgenOptions, LinkType};
use bindgen_plugin::visitor::{parse_link, BindgenArgsVisitor, TypedLiteral};

fn link(name: &str, kind: LinkType) -> (String, LinkType) {
    (name.to_string(), kind)
}

#[test]
fn link_without_kind_is_dynamic() {
    assert_eq!(parse_link("mylib"), Some(link("mylib", LinkType::Dynamic)));
    assert_eq!(parse_link(""), Some(link("", LinkType::Dynamic)));
}

#[test]
fn link_with_each_kind() {
    assert_eq!(parse_link("static=mylib"), Some(link("mylib", LinkType::Static)));
    assert_eq!(parse_link("dynamic=mylib"), Some(link("mylib", LinkType::Dynamic)));
    assert_eq!(parse_link("framework=Cocoa"), Some(link("Cocoa", LinkType::Framework)));
    assert_eq!(parse_link("static="), Some(link("", LinkType::Static)));
}

#[test]
fn link_malformed_is_none() {
    assert_eq!(parse_link("bogus=mylib"), None);
    assert_eq!(parse_link("=mylib"), None);
    assert_eq!(parse_link("Static=mylib"), None);
    assert_eq!(parse_link("static=my=lib"), None);
    assert_eq!(parse_link("static=mylib="), None);
    assert_eq!(parse_link("=="), None);
}

#[test]
fn visit_str_link() {
    let mut options = BindgenOptions::default();
    let mut visit = BindgenArgsVisitor { options: &mut options, seen_named: false };
    assert!(visit.visit_str(Some("link"), "mylib"));
    assert!(visit.visit_str(Some("link"), "static=mylib"));
    assert!(!visit.visit_str(Some("link"), "bogus=mylib"));
    assert!(visit.visit_str(Some("link"), "framework=Cocoa"));
    assert!(visit.seen_named);
    assert_eq!(
        options.links,
        vec![
            link("mylib", LinkType::Dynamic),
            link("mylib", LinkType::Static),
            link("Cocoa", LinkType::Framework)
        ]
    );
}

#[test]
fn visit_str_link_rejected_appends_nothing() {
    let mut options = BindgenOptions::default();
    let mut visit = BindgenArgsVisitor { options: &mut options, seen_named: false };
    assert!(!visit.visit_str(Some("link"), "bogus=mylib"));
    assert!(visit.seen_named);
    assert_eq!(options, BindgenOptions::default());
}

#[test]
fn visit_str_match_keeps_order() {
    let mut options = BindgenOptions::default();
    let mut visit = BindgenArgsVisitor { options: &mut options, seen_named: false };
    assert!(visit.visit_str(Some("match"), "a.h"));
    assert!(visit.visit_str(Some("match"), "b.h"));
    assert_eq!(options.match_pat, vec!["a.h", "b.h"]);
}

#[test]
fn visit_str_clang_args_are_split() {
    let mut options = BindgenOptions::default();
    let mut visit = BindgenArgsVisitor { options: &mut options, seen_named: false };
    assert!(visit.visit_str(Some("clang_args"), "-I /usr/include"));
    assert!(visit.visit_str(Some("clang_args"), "-D\"A B\""));
    assert!(visit.visit_str(Some("clang_args"), ""));
    assert_eq!(options.clang_args, vec!["-I", "/usr/include", "-DA B"]);
}

#[test]
fn visit_str_enum_type_overwrites() {
    let mut options = BindgenOptions::default();
    let mut visit = BindgenArgsVisitor { options: &mut options, seen_named: false };
    assert!(visit.visit_str(Some("enum_type"), "u32"));
    assert!(visit.visit_str(Some("enum_type"), "i8"));
    assert_eq!(options.override_enum_ty, "i8");
}

#[test]
fn visit_str_positional_before_any_name() {
    let mut options = BindgenOptions::default();
    let mut visit = BindgenArgsVisitor { options: &mut options, seen_named: false };
    assert!(visit.visit_str(None, "-I /usr/include"));
    assert!(!visit.seen_named);
    assert!(visit.visit_str(None, "-DX"));
    assert!(!visit.seen_named);
    let mut expected = BindgenOptions::default();
    expected.clang_args = vec!["-I".to_string(), "/usr/include".to_string(), "-DX".to_string()];
    assert_eq!(options, expected);
}

#[test]
fn visit_str_positional_after_a_name_is_rejected() {
    let mut options = BindgenOptions::default();
    let mut visit = BindgenArgsVisitor { options: &mut options, seen_named: true };
    assert!(!visit.visit_str(None, "extra"));
    assert!(visit.seen_named);
    assert_eq!(options, BindgenOptions::default());
}

#[test]
fn visit_str_unknown_option() {
    let mut options = BindgenOptions::default();
    let mut visit = BindgenArgsVisitor { options: &mut options, seen_named: false };
    assert!(!visit.visit_str(Some("bogus"), "x"));
    assert!(!visit.visit_str(Some("builtins"), "true"));
    assert!(!visit.visit_str(Some("Link"), "x"));
    assert!(!visit.visit_str(Some(""), "x"));
    assert!(visit.seen_named);
    assert_eq!(options, BindgenOptions::default());
}

#[test]
fn visit_bool_inverts_allow_unknown_types() {
    let mut options = BindgenOptions::default();
    let mut visit = BindgenArgsVisitor { options: &mut options, seen_named: false };
    assert!(visit.visit_bool(Some("allow_unknown_types"), false));
    assert!(visit.options.fail_on_unknown_type);
    assert!(visit.visit_bool(Some("allow_unknown_types"), true));
    assert!(!visit.options.fail_on_unknown_type);
    assert!(visit.seen_named);
}

#[test]
fn visit_bool_builtins() {
    let mut options = BindgenOptions::default();
    let mut visit = BindgenArgsVisitor { options: &mut options, seen_named: false };
    assert!(visit.visit_bool(Some("builtins"), false));
    assert!(!visit.options.builtins);
    assert!(visit.visit_bool(Some("builtins"), true));
    assert!(visit.options.builtins);
}

#[test]
fn visit_bool_rejects_other_names_and_none() {
    let mut options = BindgenOptions::default();
    let mut visit = BindgenArgsVisitor { options: &mut options, seen_named: false };
    assert!(!visit.visit_bool(None, true));
    assert!(!visit.seen_named);
    assert!(!visit.visit_bool(Some("link"), true));
    assert!(visit.seen_named);
    assert_eq!(options, BindgenOptions::default());
}

#[test]
fn visit_int_uint_ident_always_reject() {
    let mut options = BindgenOptions::default();
    let mut visit = BindgenArgsVisitor { options: &mut options, seen_named: false };
    assert!(!visit.visit_int(None, -1));
    assert!(!visit.visit_uint(None, 1));
    assert!(!visit.visit_ident(None, "word"));
    assert!(!visit.seen_named);
    assert!(!visit.visit_int(Some("builtins"), 0));
    assert!(visit.seen_named);
    visit.seen_named = false;
    assert!(!visit.visit_uint(Some("builtins"), 1));
    assert!(visit.seen_named);
    visit.seen_named = false;
    assert!(!visit.visit_ident(Some("builtins"), "yes"));
    assert!(visit.seen_named);
    assert_eq!(options, BindgenOptions::default());
}

#[test]
fn rejected_name_still_ends_positional_arguments() {
    let mut options = BindgenOptions::default();
    let mut visit = BindgenArgsVisitor { options: &mut options, seen_named: false };
    assert!(!visit.visit_uint(Some("bogus"), 1));
    assert!(!visit.visit_str(None, "-DX"));
    assert_eq!(options, BindgenOptions::default());
}

#[test]
fn seen_named_never_goes_back() {
    let mut options = BindgenOptions::default();
    let mut visit = BindgenArgsVisitor { options: &mut options, seen_named: false };
    assert!(visit.visit_bool(Some("builtins"), false));
    assert!(visit.seen_named);
    visit.visit_str(None, "x");
    assert!(visit.seen_named);
    visit.visit_bool(None, true);
    assert!(visit.seen_named);
    visit.visit_int(None, 3);
    visit.visit_uint(None, 3);
    visit.visit_ident(None, "x");
    assert!(visit.seen_named);
}

#[test]
fn visit_goes_by_the_kind_of_value() {
    let mut options = BindgenOptions::default();
    let mut visit = BindgenArgsVisitor { options: &mut options, seen_named: false };
    assert!(visit.visit(None, TypedLiteral::Str("-DX -DY")));
    assert!(visit.visit(Some("builtins"), TypedLiteral::Bool(false)));
    assert!(visit.visit(Some("match"), TypedLiteral::Str("a.h")));
    assert!(!visit.visit(Some("match"), TypedLiteral::Ident("a")));
    assert!(!visit.visit(Some("match"), TypedLiteral::Int(-3)));
    assert!(!visit.visit(Some("match"), TypedLiteral::UInt(3)));
    assert!(!visit.visit(Some("match"), TypedLiteral::Bool(true)));
    assert!(!visit.visit(None, TypedLiteral::Str("late")));
    assert_eq!(options.clang_args, vec!["-DX", "-DY"]);
    assert_eq!(options.match_pat, vec!["a.h"]);
    assert!(!options.builtins);
}
