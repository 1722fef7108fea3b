//! End-to-end tests of the pipeline: exact generated text, the dispatch
//! example, error positions, and separator handling.

use enum_group_macros::ast::EnumGroupInput;
use enum_group_macros::ast::MatchInput;
use enum_group_macros::define_enum_group;
use enum_group_macros::match_enum_group;
use enum_group_macros::model::eval_dispatch;
use enum_group_macros::model::WireValue;
use enum_group_macros::parser::Expected;
use enum_group_macros::token::lex;
use enum_group_macros::token::Tok;
use enum_group_macros::Error;

fn gen(src: &str) -> String {
    define_enum_group(src).expect("generation failed").into_iter().collect()
}

fn parse_decl(src: &str) -> EnumGroupInput {
    let chars: Vec<char> = src.chars().collect();
    let toks = lex(&chars).expect("lex failed");
    EnumGroupInput::parse(&toks).expect("parse failed")
}

fn parse_match_input(src: &str) -> MatchInput {
    let chars: Vec<char> = src.chars().collect();
    let toks = lex(&chars).expect("lex failed");
    MatchInput::parse(&toks).expect("parse failed")
}

fn render(toks: &[Tok]) -> String {
    let mut out: Vec<char> = Vec::new();
    for t in toks {
        let mut v = Vec::new();
        enum_group_macros::token::render_tok_into(&mut v, t);
        out.extend(v);
    }
    out.into_iter().collect()
}

/// The exact text generated for a minimal declaration, character for
/// character: group enum, wire enum, dispatch enum, conversion, trait
/// implementation, in that order.
#[test]
fn exact_output_minimal_declaration() {
    let out = gen("enum W { G { V(u32) } }");
    let expected = "enum G {\nV(u32 ),\n}\n\
enum W {\nV(u32 ),\n}\n\
#[derive(Debug, Clone)]\nenum WGroup {\nG(G),\n}\n\
impl W {\nfn into_group(self) -> WGroup {\nmatch self {\n\
Self::V(v) => WGroup::G(G::V(v)),\n}\n}\n}\n\
impl ::enum_group_macros::EnumGroup for W {\ntype Group = WGroup;\n\
fn into_group(self) -> Self::Group {\nW::into_group(self)\n}\n}\n";
    assert_eq!(out, expected);
}

/// The exact expansion of a minimal dispatch expression.
#[test]
fn exact_output_minimal_dispatch() {
    let out: String = match_enum_group("v, W, { G(x) => 1 }")
        .expect("generation failed")
        .into_iter()
        .collect();
    let expected = "{\n#[allow(non_camel_case_types)]\n\
type __EnumGroup__ = <W as ::enum_group_macros::EnumGroup>::Group;\n\
match <W as ::enum_group_macros::EnumGroup>::into_group(v ) {\n\
__EnumGroup__::G(x ) => 1 ,\n}\n}\n";
    assert_eq!(out, expected);
}

/// The dispatch example: wire type `WireMsg` with groups
/// `Protocol{A(MsgA),B(MsgB)}` and `Business{C(MsgC)}`; a value built
/// from `B` selects the `Protocol` arm with body `1`, a value built from
/// `C` the `Business` arm with body `2`.
#[test]
fn dispatch_example_selects_by_group() {
    let d = parse_decl(
        "#[derive(Debug, Clone)] pub enum WireMsg { Protocol { A(MsgA), B(MsgB), }, Business { C(MsgC), } }",
    );
    let m = parse_match_input("msg, WireMsg, { Protocol(p) => 1, Business(b) => 2, }");
    let from_b = eval_dispatch(&d, &m.arms, 1).expect("no arm matched");
    assert_eq!(render(&m.arms[from_b].body).trim(), "1");
    let from_c = eval_dispatch(&d, &m.arms, 2).expect("no arm matched");
    assert_eq!(render(&m.arms[from_c].body).trim(), "2");
}

/// A dispatch whose arms do not cover the value's group selects nothing:
/// the very case the host compiler later rejects as non-exhaustive.
#[test]
fn dispatch_without_matching_arm_is_none() {
    let d = parse_decl("enum WireMsg { Protocol { A(MsgA), }, Business { C(MsgC), } }");
    let m = parse_match_input("msg, WireMsg, { Protocol(p) => 1 }");
    assert_eq!(eval_dispatch(&d, &m.arms, 1), None);
}

/// The conversion keeps the payload and recovers the flat position from
/// the group and in-group position.
#[test]
fn conversion_round_trip_concrete() {
    let d = parse_decl("enum W { G1 { A(u8), B(u16) }, G2 { C(u32) } }");
    let chars: Vec<char> = "42".chars().collect();
    let payload = lex(&chars).expect("lex failed");
    let before = render(&payload);
    let v = d.into_group_value(WireValue { idx: 1, payload });
    assert_eq!(
        (v.group, v.variant, render(&v.payload)),
        (0, 1, before),
    );
}

/// Trailing separators change nothing: with and without them, the
/// generated text is identical.
#[test]
fn trailing_commas_generate_identically() {
    let with_commas = gen("enum W { G1 { A(u8), B(u16), }, G2 { C(u32), }, }");
    let without_commas = gen("enum W { G1 { A(u8), B(u16) } G2 { C(u32) } }");
    assert_eq!(with_commas, without_commas);
}

/// Any number of trailing commas is accepted in the declaration's lists,
/// and they change nothing.
#[test]
fn repeated_trailing_commas_accepted() {
    let plain = gen("enum W { G1 { A(u8), B(u16) } G2 { C(u32) } }");
    let many = gen("enum W { G1 { A(u8),, B(u16),,, },, G2 { C(u32), },,, }");
    assert_eq!(plain, many);
}

/// A declaration with no groups at all is valid and generates an empty
/// wire enum with an empty dispatch enum.
#[test]
fn empty_declaration_body() {
    let d = parse_decl("enum W {}");
    assert_eq!(d.groups.len(), 0);
    let out = gen("enum W {}");
    assert!(out.contains("enum W {\n}\n") && out.contains("enum WGroup {\n}\n"));
}

#[test]
fn error_empty_input() {
    match define_enum_group("") {
        Err(Error::Parse(e)) => assert_eq!((e.at, e.expected), (0, Expected::EnumKeyword)),
        r => panic!("expected a syntax error, got {:?}", r),
    }
}

#[test]
fn error_missing_name() {
    match define_enum_group("enum") {
        Err(Error::Parse(e)) => assert_eq!((e.at, e.expected), (1, Expected::Ident)),
        r => panic!("expected a syntax error, got {:?}", r),
    }
}

#[test]
fn error_missing_body() {
    match define_enum_group("enum W") {
        Err(Error::Parse(e)) => assert_eq!((e.at, e.expected), (2, Expected::OpenBrace)),
        r => panic!("expected a syntax error, got {:?}", r),
    }
}

#[test]
fn error_empty_payload_type() {
    match define_enum_group("enum W { G { V() } }") {
        Err(Error::Parse(e)) => assert_eq!(e.expected, Expected::Type),
        r => panic!("expected a syntax error, got {:?}", r),
    }
}

#[test]
fn error_unclosed_brace() {
    match define_enum_group("enum W { G { V(u32) }") {
        Err(Error::Parse(e)) => assert_eq!(e.expected, Expected::CloseDelim),
        r => panic!("expected a syntax error, got {:?}", r),
    }
}

#[test]
fn error_extra_tokens_after_declaration() {
    match define_enum_group("enum W { G { V(u32) } } extra") {
        Err(Error::Parse(e)) => assert_eq!(e.expected, Expected::End),
        r => panic!("expected a syntax error, got {:?}", r),
    }
}

#[test]
fn error_empty_attribute() {
    match define_enum_group("#[] enum W { G { V(u32) } }") {
        Err(Error::Parse(e)) => assert_eq!(e.expected, Expected::AttrBody),
        r => panic!("expected a syntax error, got {:?}", r),
    }
}

#[test]
fn error_unterminated_string() {
    match define_enum_group("enum W { \"x") {
        Err(Error::Lex(e)) => assert_eq!(e.pos, 9),
        r => panic!("expected a lexing error, got {:?}", r),
    }
}

#[test]
fn error_match_missing_comma() {
    match match_enum_group("value") {
        Err(Error::Parse(e)) => assert_eq!(e.expected, Expected::Comma),
        r => panic!("expected a syntax error, got {:?}", r),
    }
}

#[test]
fn error_match_missing_fat_arrow() {
    match match_enum_group("v, W, { G(x) 1 }") {
        Err(Error::Parse(e)) => assert_eq!(e.expected, Expected::FatArrow),
        r => panic!("expected a syntax error, got {:?}", r),
    }
}

#[test]
fn error_match_empty_body() {
    match match_enum_group("v, W, { G(x) => , G2(y) => 2 }") {
        Err(Error::Parse(e)) => assert_eq!(e.expected, Expected::Expr),
        r => panic!("expected a syntax error, got {:?}", r),
    }
}

/// Multi-character operators survive the round trip through tokens:
/// `::`, `=>` and string literals re-print without being torn apart.
#[test]
fn renderer_keeps_joint_operators() {
    let m = parse_match_input(
        "std::mem::take(&mut x), W, { G(v) => \"a, b{}\" }",
    );
    let v = render(&m.value);
    assert!(v.contains("::mem ::take") && v.contains("(&mut x )"));
    assert!(render(&m.arms[0].body).contains("\"a, b{}\""));
}

/// Line comments disappear during lexing and never reach the output.
#[test]
fn comments_are_discarded() {
    let a = gen("enum W { // comment\n G { V(u32) } }");
    let b = gen("enum W { G { V(u32) } }");
    assert_eq!(a, b);
    assert!(!a.contains("comment"));
}
