//! Tests for the dispatch-expression compiler: parsing, expansion, and
//! the dispatch semantics over the grouped declaration.

use enum_group_macros::ast::EnumGroupInput;
use enum_group_macros::ast::MatchInput;
use enum_group_macros::model::eval_dispatch;
use enum_group_macros::token::lex;
use enum_group_macros::token::Tok;

/// The shared wire declaration used by these tests.  Flat positions:
/// `AlphaOne` = 0, `AlphaTwo` = 1, `BetaOne` = 2.
const WIRE: &str = "#[derive(Debug, Clone)]
  pub enum TestWireMsg {
    GroupAlpha {
      AlphaOne(MsgA),
      AlphaTwo(MsgB),
    },
    GroupBeta {
      BetaOne(MsgC),
    }
  }";

fn parse_decl(src: &str) -> EnumGroupInput {
    let chars: Vec<char> = src.chars().collect();
    let toks = lex(&chars).expect("lex failed");
    EnumGroupInput::parse(&toks).expect("parse failed")
}

fn parse_match_input(src: &str) -> MatchInput {
    let chars: Vec<char> = src.chars().collect();
    let toks = lex(&chars).expect("lex failed");
    MatchInput::parse(&toks).expect("parse failed")
}

fn render(toks: &[Tok]) -> String {
    let mut out: Vec<char> = Vec::new();
    for t in toks {
        let mut v = Vec::new();
        enum_group_macros::token::render_tok_into(&mut v, t);
        out.extend(v);
    }
    out.into_iter().collect()
}

/// The body text of the arm a dispatch of flat position `idx` selects.
fn dispatched_body(d: &EnumGroupInput, m: &MatchInput, idx: usize) -> String {
    let a = eval_dispatch(d, &m.arms, idx).expect("no arm matched");
    render(&m.arms[a].body)
}

#[test]
fn test_match_all_groups() {
    let d = parse_decl(WIRE);
    let m = parse_match_input(
        "msg, TestWireMsg, {
        GroupAlpha(g) => format!(\"alpha: {:?}\", g),
        GroupBeta(g) => format!(\"beta: {:?}\", g),
      }",
    );
    // A value built from AlphaOne (flat position 0, value 42 in spirit)
    // dispatches to the alpha arm; one from BetaOne to the beta arm.
    let result_alpha = dispatched_body(&d, &m, 0);
    assert!(result_alpha.contains("alpha:"));
    let result_beta = dispatched_body(&d, &m, 2);
    assert!(result_beta.contains("beta:"));
}

#[test]
fn test_match_single_group() {
    let d = parse_decl(WIRE);
    let m = parse_match_input(
        "TestWireMsg::AlphaTwo(MsgB { text: \"hello\".to_string() }), TestWireMsg, {
        GroupAlpha(inner) => {
          match inner {
            GroupAlpha::AlphaOne(a) => format!(\"AlphaOne: {}\", a.value),
            GroupAlpha::AlphaTwo(b) => format!(\"AlphaTwo: {}\", b.text),
          }
        },
        GroupBeta(_) => \"beta\".to_string(),
      }",
    );
    // AlphaTwo is flat position 1: the alpha arm is selected, and the
    // subject value carries "hello" through unchanged.
    let body = dispatched_body(&d, &m, 1);
    assert!(body.contains("AlphaTwo: {}") && render(&m.value).contains("hello"));
}

#[test]
fn test_binding_variable() {
    let d = parse_decl(WIRE);
    let m = parse_match_input(
        "TestWireMsg::AlphaOne(MsgA { value: 100 }), TestWireMsg, {
        GroupAlpha(captured_group) => {
          match captured_group {
            GroupAlpha::AlphaOne(a) => a.value,
            GroupAlpha::AlphaTwo(_) => -1,
          }
        },
        GroupBeta(_unused) => -999,
      }",
    );
    let a = eval_dispatch(&d, &m.arms, 0).expect("no arm matched");
    assert!(a == 0 && render(&m.arms[a].binding).trim() == "captured_group");
}

#[test]
fn test_binding_underscore() {
    let d = parse_decl(WIRE);
    let m = parse_match_input(
        "TestWireMsg::BetaOne(MsgC { flag: false }), TestWireMsg, {
        GroupAlpha(_) => \"was alpha\",
        GroupBeta(_) => \"was beta\",
      }",
    );
    let body = dispatched_body(&d, &m, 2);
    assert!(body.contains("was beta"));
}

#[test]
fn test_body_expression() {
    let d = parse_decl(WIRE);
    let m = parse_match_input(
        "TestWireMsg::AlphaOne(MsgA { value: 5 }), TestWireMsg, {
        GroupAlpha(_) => 42,
        GroupBeta(_) => 0,
      }",
    );
    let body = dispatched_body(&d, &m, 0);
    assert_eq!(body.trim(), "42");
}

#[test]
fn test_body_block() {
    let d = parse_decl(WIRE);
    let m = parse_match_input(
        "TestWireMsg::AlphaTwo(MsgB { text: \"world\".to_string() }), TestWireMsg, {
        GroupAlpha(inner) => {
          let prefix = \"Hello, \";
          match inner {
            GroupAlpha::AlphaOne(_) => format!(\"{}number\", prefix),
            GroupAlpha::AlphaTwo(b) => format!(\"{}{}\", prefix, b.text),
          }
        },
        GroupBeta(_) => {
          let msg = \"beta group\";
          msg.to_string()
        },
      }",
    );
    let body = dispatched_body(&d, &m, 1);
    assert!(body.contains("Hello, ") && render(&m.value).contains("world"));
}

#[test]
fn test_trailing_comma_in_arms() {
    let d = parse_decl(WIRE);
    let with_comma = parse_match_input(
        "TestWireMsg::BetaOne(MsgC { flag: true }), TestWireMsg, {
        GroupAlpha(_) => false,
        GroupBeta(inner) => match inner {
          GroupBeta::BetaOne(c) => c.flag,
        }, // trailing comma
      }",
    );
    let without_comma = parse_match_input(
        "TestWireMsg::BetaOne(MsgC { flag: true }), TestWireMsg, {
        GroupAlpha(_) => false,
        GroupBeta(inner) => match inner {
          GroupBeta::BetaOne(c) => c.flag,
        }
      }",
    );
    let ga: String = enum_group_macros::dispatch::generate_match(&with_comma).into_iter().collect();
    let gb: String =
        enum_group_macros::dispatch::generate_match(&without_comma).into_iter().collect();
    assert!(ga == gb && dispatched_body(&d, &with_comma, 2).contains("c .flag"));
}

#[test]
fn test_match_returns_value() {
    let d = parse_decl(WIRE);
    let m = parse_match_input(
        "TestWireMsg::AlphaOne(MsgA { value: 7 }), TestWireMsg, {
        GroupAlpha(inner) => match inner {
          GroupAlpha::AlphaOne(a) => a.value * 2,
          GroupAlpha::AlphaTwo(_) => 0,
        },
        GroupBeta(_) => -1,
      }",
    );
    let body = dispatched_body(&d, &m, 0);
    assert!(body.contains("a .value * 2"));

    let m2 = parse_match_input(
        "TestWireMsg::AlphaOne(MsgA { value: 3 }), TestWireMsg, {
        GroupAlpha(inner) => match inner {
          GroupAlpha::AlphaOne(a) => a.value,
          GroupAlpha::AlphaTwo(_) => 0,
        },
        GroupBeta(_) => 0,
      }",
    );
    assert_eq!(eval_dispatch(&d, &m2.arms, 0), Some(0));
}

#[test]
fn test_match_in_function() {
    fn process_message(d: &EnumGroupInput, idx: usize) -> String {
        let m = parse_match_input(
            "msg, TestWireMsg, {
            GroupAlpha(inner) => {
              match inner {
                GroupAlpha::AlphaOne(a) => format!(\"Processed alpha one: {}\", a.value),
                GroupAlpha::AlphaTwo(b) => format!(\"Processed alpha two: {}\", b.text),
              }
            },
            GroupBeta(inner) => {
              match inner {
                GroupBeta::BetaOne(c) => format!(\"Processed beta: {}\", c.flag),
              }
            },
          }",
        );
        dispatched_body(d, &m, idx)
    }
    let d = parse_decl(WIRE);
    assert!(process_message(&d, 0).contains("Processed alpha one: {}"));
    assert!(process_message(&d, 1).contains("Processed alpha two: {}"));
    assert!(process_message(&d, 2).contains("Processed beta: {}"));
}
