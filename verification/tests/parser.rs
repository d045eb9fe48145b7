use bindgen_plugin::options::{BindgenOptions, LinkType};
use bindgen_plugin::parser::{
    as_str, parse_macro_opts, typed_literal, Diagnostic, ErrorKind, Lit, LitIntType, Token,
};
use bindgen_plugin::visitor::TypedLiteral;

fn ident(s: &str) -> Token {
    Token::Ident(s.to_string())
}

fn string(s: &str) -> Token {
    Token::Literal(Lit::Str(s.to_string()))
}

fn uint(i: u64) -> Token {
    Token::Literal(Lit::Int(i, LitIntType::Unsuffixed))
}

fn syntax(lo: usize, hi: usize) -> Diagnostic {
    Diagnostic { kind: ErrorKind::Syntax, lo, hi }
}

fn semantic(lo: usize, hi: usize) -> Diagnostic {
    Diagnostic { kind: ErrorKind::Semantic, lo, hi }
}

fn parse(tts: Vec<Token>) -> (bool, BindgenOptions, Vec<Diagnostic>) {
    let mut cx = Vec::new();
    let mut options = BindgenOptions::default();
    let good = parse_macro_opts(&mut cx, &tts, &mut options);
    (good, options, cx)
}

#[test]
fn as_str_borrows() {
    assert_eq!(as_str(&None), None);
    assert_eq!(as_str(&Some("name".to_string())), Some("name"));
    assert_eq!(as_str(&Some(String::new())), Some(""));
}

#[test]
fn typed_literal_of_words() {
    assert_eq!(typed_literal(&ident("true")), Some(TypedLiteral::Bool(true)));
    assert_eq!(typed_literal(&ident("false")), Some(TypedLiteral::Bool(false)));
    assert_eq!(typed_literal(&ident("True")), Some(TypedLiteral::Ident("True")));
    assert_eq!(typed_literal(&ident("x")), Some(TypedLiteral::Ident("x")));
}

#[test]
fn typed_literal_of_literals() {
    assert_eq!(typed_literal(&string("a b")), Some(TypedLiteral::Str("a b")));
    assert_eq!(typed_literal(&Token::Literal(Lit::Bool(true))), Some(TypedLiteral::Bool(true)));
    assert_eq!(typed_literal(&uint(7)), Some(TypedLiteral::UInt(7)));
    assert_eq!(
        typed_literal(&Token::Literal(Lit::Int(7, LitIntType::Unsigned))),
        Some(TypedLiteral::UInt(7))
    );
    assert_eq!(
        typed_literal(&Token::Literal(Lit::Int(7, LitIntType::Signed))),
        Some(TypedLiteral::Int(7))
    );
    assert_eq!(
        typed_literal(&Token::Literal(Lit::Int(u64::MAX, LitIntType::Signed))),
        Some(TypedLiteral::Int(-1))
    );
    assert_eq!(
        typed_literal(&Token::Literal(Lit::Int(u64::MAX, LitIntType::Unsuffixed))),
        Some(TypedLiteral::UInt(u64::MAX))
    );
}

#[test]
fn typed_literal_of_what_is_no_value() {
    assert_eq!(typed_literal(&Token::Literal(Lit::Other)), None);
    assert_eq!(typed_literal(&Token::Other), None);
    assert_eq!(typed_literal(&Token::Eq), None);
    assert_eq!(typed_literal(&Token::Comma), None);
}

#[test]
fn messages() {
    assert_eq!(syntax(0, 0).message(), "invalid argument format");
    assert_eq!(semantic(0, 0).message(), "invalid argument");
}

#[test]
fn positional_shorthand() {
    let (good, options, cx) = parse(vec![string("-I /usr/include")]);
    assert!(good);
    assert!(cx.is_empty());
    let mut expected = BindgenOptions::default();
    expected.clang_args = vec!["-I".to_string(), "/usr/include".to_string()];
    assert_eq!(options, expected);
}

#[test]
fn positional_after_named_is_rejected() {
    let (good, options, cx) =
        parse(vec![ident("builtins"), Token::Eq, ident("false"), Token::Comma, string("extra")]);
    assert!(!good);
    assert!(options.clang_args.is_empty());
    assert!(!options.builtins);
    assert_eq!(cx, vec![semantic(4, 4)]);
}

#[test]
fn link_specifiers() {
    let (good, options, _) = parse(vec![ident("link"), Token::Eq, string("mylib")]);
    assert!(good);
    assert_eq!(options.links, vec![("mylib".to_string(), LinkType::Dynamic)]);

    let (good, options, _) = parse(vec![ident("link"), Token::Eq, string("static=mylib")]);
    assert!(good);
    assert_eq!(options.links, vec![("mylib".to_string(), LinkType::Static)]);

    let (good, options, cx) = parse(vec![ident("link"), Token::Eq, string("bogus=mylib")]);
    assert!(!good);
    assert!(options.links.is_empty());
    assert_eq!(cx, vec![semantic(0, 2)]);
}

#[test]
fn boolean_inversion() {
    let (good, options, _) = parse(vec![ident("allow_unknown_types"), Token::Eq, ident("true")]);
    assert!(good);
    assert!(!options.fail_on_unknown_type);

    let (good, options, _) = parse(vec![ident("allow_unknown_types"), Token::Eq, ident("false")]);
    assert!(good);
    assert!(options.fail_on_unknown_type);

    let (good, options, _) = parse(vec![
        ident("allow_unknown_types"),
        Token::Eq,
        Token::Literal(Lit::Bool(false)),
    ]);
    assert!(good);
    assert!(options.fail_on_unknown_type);
}

#[test]
fn unknown_option_does_not_stop_the_parse() {
    let (good, options, cx) = parse(vec![
        ident("bogus"),
        Token::Eq,
        uint(1),
        Token::Comma,
        ident("builtins"),
        Token::Eq,
        ident("false"),
    ]);
    assert!(!good);
    assert!(!options.builtins);
    assert_eq!(cx, vec![semantic(0, 2)]);
}

#[test]
fn every_semantic_error_is_reported() {
    let (good, options, cx) = parse(vec![
        ident("bogus"),
        Token::Eq,
        uint(1),
        Token::Comma,
        ident("match"),
        Token::Eq,
        string("a.h"),
        Token::Comma,
        ident("word"),
        Token::Comma,
        ident("link"),
        Token::Eq,
        string("a=b=c"),
    ]);
    assert!(!good);
    assert_eq!(options.match_pat, vec!["a.h"]);
    assert_eq!(cx, vec![semantic(0, 2), semantic(8, 8), semantic(10, 12)]);
}

#[test]
fn list_order_is_kept() {
    let (good, options, _) = parse(vec![
        ident("match"),
        Token::Eq,
        string("a.h"),
        Token::Comma,
        ident("match"),
        Token::Eq,
        string("b.h"),
    ]);
    assert!(good);
    assert_eq!(options.match_pat, vec!["a.h", "b.h"]);
}

#[test]
fn several_positional_strings() {
    let (good, options, cx) = parse(vec![string("-DX"), Token::Comma, string("-I \"a b\"")]);
    assert!(good);
    assert!(cx.is_empty());
    assert_eq!(options.clang_args, vec!["-DX", "-I", "a b"]);
}

#[test]
fn all_options_together() {
    let (good, options, cx) = parse(vec![
        string("-I /usr/include"),
        Token::Comma,
        ident("builtins"),
        Token::Eq,
        ident("false"),
        Token::Comma,
        ident("link"),
        Token::Eq,
        string("framework=Cocoa"),
        Token::Comma,
        ident("match"),
        Token::Eq,
        string("cocoa.h"),
        Token::Comma,
        ident("clang_args"),
        Token::Eq,
        string("-x objective-c"),
        Token::Comma,
        ident("enum_type"),
        Token::Eq,
        string("u32"),
        Token::Comma,
        ident("allow_unknown_types"),
        Token::Eq,
        ident("false"),
    ]);
    assert!(good);
    assert!(cx.is_empty());
    let expected = BindgenOptions {
        match_pat: vec!["cocoa.h".to_string()],
        builtins: false,
        links: vec![("Cocoa".to_string(), LinkType::Framework)],
        fail_on_unknown_type: true,
        override_enum_ty: "u32".to_string(),
        clang_args: vec![
            "-I".to_string(),
            "/usr/include".to_string(),
            "-x".to_string(),
            "objective-c".to_string(),
        ],
    };
    assert_eq!(options, expected);
}

#[test]
fn trailing_comma_is_accepted() {
    let (good, options, cx) =
        parse(vec![ident("builtins"), Token::Eq, ident("false"), Token::Comma]);
    assert!(good);
    assert!(cx.is_empty());
    assert!(!options.builtins);
}

#[test]
fn trailing_comma_after_a_rejected_argument() {
    let (good, _, cx) = parse(vec![ident("word"), Token::Comma]);
    assert!(!good);
    assert_eq!(cx, vec![semantic(0, 0)]);
}

#[test]
fn empty_list_is_a_syntax_error() {
    let (good, options, cx) = parse(Vec::new());
    assert!(!good);
    assert_eq!(cx, vec![syntax(0, 0)]);
    assert_eq!(options, BindgenOptions::default());
}

#[test]
fn name_that_is_no_word_is_a_syntax_error() {
    let (good, options, cx) = parse(vec![
        string("builtins"),
        Token::Eq,
        ident("false"),
        Token::Comma,
        ident("builtins"),
        Token::Eq,
        ident("false"),
    ]);
    assert!(!good);
    assert_eq!(cx, vec![syntax(0, 0)]);
    assert_eq!(options, BindgenOptions::default());
}

#[test]
fn missing_value_is_a_syntax_error() {
    let (good, _, cx) = parse(vec![ident("builtins"), Token::Eq]);
    assert!(!good);
    assert_eq!(cx, vec![syntax(0, 2)]);

    let (good, _, cx) = parse(vec![ident("builtins"), Token::Eq, Token::Comma]);
    assert!(!good);
    assert_eq!(cx, vec![syntax(0, 2)]);

    let (good, _, cx) = parse(vec![Token::Comma]);
    assert!(!good);
    assert_eq!(cx, vec![syntax(0, 0)]);

    let (good, _, cx) = parse(vec![string("-DX"), Token::Comma, Token::Comma]);
    assert!(!good);
    assert_eq!(cx, vec![syntax(2, 2)]);
}

#[test]
fn value_that_is_no_literal_is_a_syntax_error() {
    let (good, options, cx) = parse(vec![
        ident("match"),
        Token::Eq,
        string("a.h"),
        Token::Comma,
        ident("match"),
        Token::Eq,
        Token::Other,
        Token::Comma,
        ident("match"),
        Token::Eq,
        string("c.h"),
    ]);
    assert!(!good);
    assert_eq!(cx, vec![syntax(4, 6)]);
    assert_eq!(options.match_pat, vec!["a.h"]);

    let (good, _, cx) = parse(vec![Token::Literal(Lit::Other)]);
    assert!(!good);
    assert_eq!(cx, vec![syntax(0, 0)]);
}

#[test]
fn missing_comma_is_a_syntax_error() {
    let (good, options, cx) = parse(vec![string("-DX"), string("-DY")]);
    assert!(!good);
    assert_eq!(cx, vec![syntax(1, 1)]);
    assert_eq!(options.clang_args, vec!["-DX"]);

    let (good, _, cx) = parse(vec![ident("a"), Token::Eq, ident("b"), Token::Eq, ident("c")]);
    assert!(!good);
    assert_eq!(cx, vec![semantic(0, 2), syntax(3, 3)]);
}

#[test]
fn syntax_error_after_semantic_errors_keeps_them() {
    let (good, options, cx) = parse(vec![
        ident("bogus"),
        Token::Eq,
        uint(1),
        Token::Comma,
        ident("builtins"),
        Token::Eq,
        ident("false"),
        Token::Other,
    ]);
    assert!(!good);
    assert_eq!(cx, vec![semantic(0, 2), syntax(7, 7)]);
    assert!(!options.builtins);
}

#[test]
fn errors_are_appended_to_those_already_there() {
    let mut cx = vec![semantic(9, 9)];
    let mut options = BindgenOptions::default();
    options.match_pat.push("first.h".to_string());
    let tts = vec![ident("match"), Token::Eq, string("second.h"), Token::Comma, uint(2)];
    assert!(!parse_macro_opts(&mut cx, &tts, &mut options));
    assert_eq!(cx, vec![semantic(9, 9), semantic(4, 4)]);
    assert_eq!(options.match_pat, vec!["first.h", "second.h"]);
}

#[test]
fn word_with_a_name_is_rejected() {
    let (good, _, cx) = parse(vec![ident("builtins"), Token::Eq, ident("yes")]);
    assert!(!good);
    assert_eq!(cx, vec![semantic(0, 2)]);
}
