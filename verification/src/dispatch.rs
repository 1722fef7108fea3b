//! The dispatch-expression compiler.
//!
//! The construct is `value , WireName , { Group(pattern) => body , ... }`.
//! It expands to a block that locally aliases the dispatch type of the
//! wire enum through the `EnumGroup` trait, converts the subject value,
//! and matches the result against the arms verbatim — a value-producing
//! expression.  Exhaustiveness of the arms is left to the host compiler's
//! own match checking on the generated code.

use vstd::prelude::*;

use crate::token::Tok;
use crate::token::TokV;
use crate::token::push_str;
use crate::token::push_chars;
use crate::token::render_toks;
use crate::token::render_toks_into;
use crate::token::push_dv;
use crate::ast::MatchArm;
use crate::ast::ArmV;
use crate::ast::MatchInput;
use crate::ast::MatchInputV;
use crate::parser::Expected;
use crate::parser::is_punct_c;
use crate::parser::is_open_c;
use crate::parser::is_close_c;
use crate::parser::is_ident_tok;
use crate::parser::ident_text;
use crate::parser::ParseError;
use crate::parser::take_span;
use crate::parser::take_until_comma;
use crate::parser::lemma_take_span;
use crate::parser::lemma_take_until_comma;
use crate::parser::span_rec;
use crate::parser::until_comma_rec;

verus! {

broadcast use vstd::seq::group_seq_axioms;

/// One arm: `GroupName '(' pattern ')' '=>' body`, the pattern an opaque
/// balanced span (possibly empty), the body the non-empty span up to the
/// next top-level comma or the end of the arm list.
pub open spec fn parse_arm(c: Seq<TokV>, i: int) -> Result<(ArmV, int), (int, Expected)> {
    if i < c.len() && c[i] matches TokV::Ident(_) {
        let gname = c[i]->Ident_0;
        if i + 1 < c.len() && (c[i + 1] matches TokV::Open(ch) && ch == '(') {
            match take_span(c, i + 2, 0) {
                Ok((binding, j)) => if c[j] matches TokV::Close(ch) && ch == ')' {
                    if j + 1 < c.len() && (c[j + 1] matches TokV::Punct(p1, jt) && p1 == '='
                        && jt) && j + 2 < c.len() && (c[j + 2] matches TokV::Punct(p2, _) && p2
                        == '>') {
                        match take_until_comma(c, j + 3, 0) {
                            Ok((body, k)) => if body.len() == 0 {
                                Err((j + 3, Expected::Expr))
                            } else {
                                Ok((ArmV { group_name: gname, binding, body }, k))
                            },
                            Err(e) => Err(e),
                        }
                    } else {
                        Err((j + 1, Expected::FatArrow))
                    }
                } else {
                    Err((j, Expected::CloseParen))
                },
                Err(e) => Err(e),
            }
        } else {
            Err((i + 1, Expected::OpenParen))
        }
    } else {
        Err((i, Expected::Ident))
    }
}

pub proof fn lemma_parse_arm(c: Seq<TokV>, i: int)
    requires
        0 <= i <= c.len(),
    ensures
        match parse_arm(c, i) {
            Ok((_, j)) => i < j <= c.len(),
            Err((p, _)) => 0 <= p <= c.len(),
        },
{
    if i < c.len() && c[i] matches TokV::Ident(_) {
        if i + 1 < c.len() && (c[i + 1] matches TokV::Open(ch) && ch == '(') {
            lemma_take_span(c, i + 2, 0);
            match take_span(c, i + 2, 0) {
                Ok((_, j)) => {
                    if c[j] matches TokV::Close(ch) && ch == ')' {
                        if j + 1 < c.len() && (c[j + 1] matches TokV::Punct(p1, jt) && p1 == '='
                            && jt) && j + 2 < c.len() && (c[j + 2] matches TokV::Punct(p2, _)
                            && p2 == '>') {
                            lemma_take_until_comma(c, j + 3, 0);
                        }
                    }
                },
                Err(_) => {},
            }
        }
    }
}

/// The arms of a dispatch expression, from `i` to the end of the arm
/// list, with one optional comma after each.
pub open spec fn parse_arm_list(c: Seq<TokV>, i: int) -> Result<Seq<ArmV>, (int, Expected)>
    decreases c.len() - i,
        when 0 <= i <= c.len()
        via parse_arm_list_dec
{
    if i >= c.len() {
        Ok(Seq::empty())
    } else {
        match parse_arm(c, i) {
            Ok((a, j)) => {
                let j2 = if j < c.len() && (c[j] matches TokV::Punct(cc, _) && cc == ',') {
                    j + 1
                } else {
                    j
                };
                match parse_arm_list(c, j2) {
                    Ok(rest) => Ok(seq![a] + rest),
                    Err(e) => Err(e),
                }
            },
            Err(e) => Err(e),
        }
    }
}

#[via_fn]
proof fn parse_arm_list_dec(c: Seq<TokV>, i: int) {
    if 0 <= i <= c.len() {
        lemma_parse_arm(c, i);
    }
}

pub proof fn lemma_parse_arm_list(c: Seq<TokV>, i: int)
    requires
        0 <= i <= c.len(),
    ensures
        match parse_arm_list(c, i) {
            Ok(_) => true,
            Err((p, _)) => 0 <= p <= c.len(),
        },
    decreases c.len() - i,
{
    if i < c.len() {
        lemma_parse_arm(c, i);
        match parse_arm(c, i) {
            Ok((_, j)) => {
                let j2 = if j < c.len() && (c[j] matches TokV::Punct(cc, _) && cc == ',') {
                    j + 1
                } else {
                    j
                };
                lemma_parse_arm_list(c, j2);
            },
            Err(_) => {},
        }
    }
}

/// A whole dispatch expression: subject value, wire name, brace-delimited
/// arm list, consuming the entire token stream.
pub open spec fn parse_match(t: Seq<TokV>) -> Result<MatchInputV, (int, Expected)> {
    match take_until_comma(t, 0, 0) {
        Ok((value, i)) => if value.len() == 0 {
            Err((0, Expected::Expr))
        } else if i < t.len() && (t[i] matches TokV::Punct(cc, _) && cc == ',') {
            if i + 1 < t.len() && t[i + 1] matches TokV::Ident(_) {
                let wire = t[i + 1]->Ident_0;
                if i + 2 < t.len() && (t[i + 2] matches TokV::Punct(cc, _) && cc == ',') {
                    if i + 3 < t.len() && (t[i + 3] matches TokV::Open(cc) && cc == '{') {
                        match take_span(t, i + 4, 0) {
                            Ok((content, m)) => if t[m] matches TokV::Close(cc) && cc == '}' {
                                if m + 1 == t.len() {
                                    match parse_arm_list(content, 0) {
                                        Ok(arms) => Ok(MatchInputV { value, wire, arms }),
                                        Err((p, ex)) => Err((i + 4 + p, ex)),
                                    }
                                } else {
                                    Err((m + 1, Expected::End))
                                }
                            } else {
                                Err((m, Expected::CloseBrace))
                            },
                            Err(e) => Err(e),
                        }
                    } else {
                        Err((i + 3, Expected::OpenBrace))
                    }
                } else {
                    Err((i + 2, Expected::Comma))
                }
            } else {
                Err((i + 1, Expected::Ident))
            }
        } else {
            Err((i, Expected::Comma))
        },
        Err(e) => Err(e),
    }
}

pub proof fn lemma_parse_arm_push(c: Seq<TokV>, ct: TokV, i: int)
    requires
        0 <= i <= c.len(),
        parse_arm(c, i) is Ok,
        ct matches TokV::Punct(p, _) && p == ',',
    ensures
        parse_arm(c.push(ct), i) == parse_arm(c, i),
{
    let c2 = c.push(ct);
    assert(c2 =~= c + seq![ct]);
    assert(i < c.len());
    assert(c2[i] == c[i]);
    assert(i + 1 < c.len());
    assert(c2[i + 1] == c[i + 1]);
    lemma_take_span(c, i + 2, 0);
    crate::parser::lemma_take_span_extend(c, seq![ct], i + 2, 0);
    match take_span(c, i + 2, 0) {
        Ok((binding, j)) => {
            assert(c2[j] == c[j]);
            assert(j + 1 < c.len());
            assert(c2[j + 1] == c[j + 1]);
            assert(j + 2 < c.len());
            assert(c2[j + 2] == c[j + 2]);
            lemma_take_until_comma(c, j + 3, 0);
            crate::parser::lemma_take_until_comma_push(c, ct, j + 3, 0);
        },
        Err(_) => {
            assert(false);
        },
    }
}

proof fn lemma_trailing_comma_arms_at(c: Seq<TokV>, ct: TokV, i: int)
    requires
        0 <= i < c.len(),
        parse_arm_list(c, i) is Ok,
        !(c.last() matches TokV::Punct(p, _) && p == ','),
        ct matches TokV::Punct(p, _) && p == ',',
    ensures
        parse_arm_list(c.push(ct), i) == parse_arm_list(c, i),
    decreases c.len() - i,
{
    let c2 = c.push(ct);
    assert(c2 =~= c + seq![ct]);
    lemma_parse_arm(c, i);
    lemma_parse_arm_push(c, ct, i);
    match parse_arm(c, i) {
        Ok((a, j)) => {
            if j < c.len() {
                assert(c2[j] == c[j]);
                if c[j] matches TokV::Punct(cc, _) && cc == ',' {
                    if j + 1 < c.len() {
                        lemma_trailing_comma_arms_at(c, ct, j + 1);
                    } else {
                        assert(c[j] == c.last());
                        assert(false);
                    }
                } else {
                    lemma_trailing_comma_arms_at(c, ct, j);
                }
            } else {
                assert(j == c.len());
                assert(c2[j] == ct);
                assert(parse_arm_list(c, j) == Ok::<Seq<ArmV>, (int, Expected)>(Seq::empty()));
                assert(parse_arm_list(c2, j + 1) == Ok::<Seq<ArmV>, (int, Expected)>(
                    Seq::empty(),
                ));
            }
        },
        Err(_) => {
            assert(false);
        },
    }
}

/// Law: a trailing comma after the last arm of a dispatch expression is
/// optional — the arm list with and without it parses to the same arms.
pub proof fn lemma_trailing_comma_arms(c: Seq<TokV>, ct: TokV)
    requires
        c.len() > 0,
        parse_arm_list(c, 0) is Ok,
        !(c.last() matches TokV::Punct(p, _) && p == ','),
        ct matches TokV::Punct(p, _) && p == ',',
    ensures
        parse_arm_list(c.push(ct), 0) == parse_arm_list(c, 0),
{
    lemma_trailing_comma_arms_at(c, ct, 0);
}

impl MatchArm {
    /// Parse one arm at token position `i`, mirroring [`parse_arm`].
    pub fn parse(c: &Vec<Tok>, i: usize) -> (r: Result<(MatchArm, usize), ParseError>)
        requires
            i <= c.len(),
        ensures
            match parse_arm(c.deep_view(), i as int) {
                Ok((a, j)) => r matches Ok(x) && x.0@ == a && x.1 as int == j,
                Err((p, ex)) => r matches Err(e) && e.at as int == p && e.expected == ex,
            },
    {
        proof {
            assert(c.deep_view().len() == c@.len());
        }
        if i < c.len() && is_ident_tok(&c[i]) {
            let group_name = ident_text(&c[i]);
            if i + 1 < c.len() && is_open_c(&c[i + 1], '(') {
                let mut binding: Vec<Tok> = Vec::new();
                proof {
                    assert(binding.deep_view() =~= Seq::<TokV>::empty());
                }
                match span_rec(c, i + 2, 0, &mut binding) {
                    Ok(j) => {
                        proof {
                            lemma_take_span(c.deep_view(), i as int + 2, 0);
                            assert(Seq::<TokV>::empty() + take_span(
                                c.deep_view(),
                                i as int + 2,
                                0,
                            )->Ok_0.0 =~= take_span(c.deep_view(), i as int + 2, 0)->Ok_0.0);
                        }
                        if is_close_c(&c[j], ')') {
                            if j + 1 < c.len() && is_joint_eq(&c[j + 1]) && j + 2 < c.len()
                                && is_gt(&c[j + 2]) {
                                let mut body: Vec<Tok> = Vec::new();
                                proof {
                                    assert(body.deep_view() =~= Seq::<TokV>::empty());
                                }
                                match until_comma_rec(c, j + 3, 0, &mut body) {
                                    Ok(k) => {
                                        proof {
                                            lemma_take_until_comma(c.deep_view(), j as int + 3, 0);
                                            assert(Seq::<TokV>::empty() + take_until_comma(
                                                c.deep_view(),
                                                j as int + 3,
                                                0,
                                            )->Ok_0.0 =~= take_until_comma(
                                                c.deep_view(),
                                                j as int + 3,
                                                0,
                                            )->Ok_0.0);
                                            assert(body.deep_view().len() == body@.len());
                                        }
                                        if body.len() == 0 {
                                            Err(
                                                ParseError {
                                                    at: j + 3,
                                                    expected: Expected::Expr,
                                                },
                                            )
                                        } else {
                                            let a = MatchArm { group_name, binding, body };
                                            Ok((a, k))
                                        }
                                    },
                                    Err(e) => Err(e),
                                }
                            } else {
                                Err(ParseError { at: j + 1, expected: Expected::FatArrow })
                            }
                        } else {
                            Err(ParseError { at: j, expected: Expected::CloseParen })
                        }
                    },
                    Err(e) => Err(e),
                }
            } else {
                Err(ParseError { at: i + 1, expected: Expected::OpenParen })
            }
        } else {
            Err(ParseError { at: i, expected: Expected::Ident })
        }
    }
}

fn is_joint_eq(t: &Tok) -> (r: bool)
    ensures
        r == (t@ matches TokV::Punct(p, jt) && p == '=' && jt),
{
    match t {
        Tok::Punct(c2, j2) => *c2 == '=' && *j2,
        _ => false,
    }
}

fn is_gt(t: &Tok) -> (r: bool)
    ensures
        r == (t@ matches TokV::Punct(p, _) && p == '>'),
{
    match t {
        Tok::Punct(c2, _) => *c2 == '>',
        _ => false,
    }
}

/// Parse the arms of the arm list into `out`, mirroring [`parse_arm_list`].
pub(crate) fn parse_arm_list_x(c: &Vec<Tok>, i: usize, out: &mut Vec<MatchArm>) -> (r: Result<
    (),
    ParseError,
>)
    requires
        i <= c.len(),
    ensures
        match parse_arm_list(c.deep_view(), i as int) {
            Ok(arms) => r matches Ok(_) && final(out).deep_view() == old(out).deep_view() + arms,
            Err((p, ex)) => r matches Err(e) && e.at as int == p && e.expected == ex,
        },
    decreases c.len() - i,
{
    if i >= c.len() {
        proof {
            assert(out.deep_view() =~= out.deep_view() + Seq::<ArmV>::empty());
        }
        return Ok(());
    }
    match MatchArm::parse(c, i) {
        Ok((a, j)) => {
            proof {
                lemma_parse_arm(c.deep_view(), i as int);
            }
            let j2: usize = if j < c.len() && is_punct_c(&c[j], ',') {
                j + 1
            } else {
                j
            };
            let ghost pre = out.deep_view();
            let ghost av = a@;
            push_dv(out, a);
            match parse_arm_list_x(c, j2, out) {
                Ok(_) => {
                    proof {
                        let rest = parse_arm_list(c.deep_view(), j2 as int)->Ok_0;
                        assert(out.deep_view() =~= pre + (seq![av] + rest));
                    }
                    Ok(())
                },
                Err(e) => Err(e),
            }
        },
        Err(e) => Err(e),
    }
}

impl MatchInput {
    /// Parse a whole dispatch expression from its token stream, mirroring
    /// [`parse_match`]: the result agrees with the specification parser
    /// on success and on failure alike.
    pub fn parse(t: &Vec<Tok>) -> (r: Result<MatchInput, ParseError>)
        ensures
            match parse_match(t.deep_view()) {
                Ok(m) => r matches Ok(x) && x@ == m,
                Err((p, ex)) => r matches Err(e) && e.at as int == p && e.expected == ex,
            },
    {
        let mut value: Vec<Tok> = Vec::new();
        proof {
            assert(value.deep_view() =~= Seq::<TokV>::empty());
        }
        let i = match until_comma_rec(t, 0, 0, &mut value) {
            Ok(i) => i,
            Err(e) => {
                return Err(e);
            },
        };
        proof {
            lemma_take_until_comma(t.deep_view(), 0, 0);
            assert(Seq::<TokV>::empty() + take_until_comma(t.deep_view(), 0, 0)->Ok_0.0
                =~= take_until_comma(t.deep_view(), 0, 0)->Ok_0.0);
            assert(value.deep_view().len() == value@.len());
        }
        if value.len() == 0 {
            return Err(ParseError { at: 0, expected: Expected::Expr });
        }
        if i < t.len() && is_punct_c(&t[i], ',') {
            if i + 1 < t.len() && is_ident_tok(&t[i + 1]) {
                let wire = ident_text(&t[i + 1]);
                if i + 2 < t.len() && is_punct_c(&t[i + 2], ',') {
                    if i + 3 < t.len() && is_open_c(&t[i + 3], '{') {
                        let mut content: Vec<Tok> = Vec::new();
                        proof {
                            assert(content.deep_view() =~= Seq::<TokV>::empty());
                        }
                        match span_rec(t, i + 4, 0, &mut content) {
                            Ok(m) => {
                                proof {
                                    lemma_take_span(t.deep_view(), i as int + 4, 0);
                                    assert(Seq::<TokV>::empty() + take_span(
                                        t.deep_view(),
                                        i as int + 4,
                                        0,
                                    )->Ok_0.0 =~= take_span(t.deep_view(), i as int + 4, 0)->Ok_0.0);
                                }
                                if is_close_c(&t[m], '}') {
                                    if m + 1 == t.len() {
                                        let mut arms: Vec<MatchArm> = Vec::new();
                                        proof {
                                            assert(arms.deep_view() =~= Seq::<ArmV>::empty());
                                        }
                                        match parse_arm_list_x(&content, 0, &mut arms) {
                                            Ok(_) => {
                                                let r = MatchInput { value, wire, arms };
                                                proof {
                                                    assert(Seq::<ArmV>::empty() + parse_arm_list(
                                                        content.deep_view(),
                                                        0,
                                                    )->Ok_0 =~= parse_arm_list(
                                                        content.deep_view(),
                                                        0,
                                                    )->Ok_0);
                                                }
                                                Ok(r)
                                            },
                                            Err(e) => {
                                                proof {
                                                    lemma_parse_arm_list(content.deep_view(), 0);
                                                    assert(content.deep_view().len()
                                                        == content@.len());
                                                }
                                                Err(
                                                    ParseError {
                                                        at: i + 4 + e.at,
                                                        expected: e.expected,
                                                    },
                                                )
                                            },
                                        }
                                    } else {
                                        Err(ParseError { at: m + 1, expected: Expected::End })
                                    }
                                } else {
                                    Err(ParseError { at: m, expected: Expected::CloseBrace })
                                }
                            },
                            Err(e) => Err(e),
                        }
                    } else {
                        Err(ParseError { at: i + 3, expected: Expected::OpenBrace })
                    }
                } else {
                    Err(ParseError { at: i + 2, expected: Expected::Comma })
                }
            } else {
                Err(ParseError { at: i + 1, expected: Expected::Ident })
            }
        } else {
            Err(ParseError { at: i, expected: Expected::Comma })
        }
    }
}

/// One generated match arm: the aliased dispatch type's member for the
/// arm's group, the binding pattern and the body verbatim.
pub open spec fn match_arm_text(a: ArmV) -> Seq<char> {
    "__EnumGroup__::"@ + a.group_name + "("@ + render_toks(a.binding, 0) + ") => "@ + render_toks(
        a.body,
        0,
    ) + ",\n"@
}

/// The generated arms, from position `k` on, in the order written.
pub open spec fn match_arms_text(arms: Seq<ArmV>, k: int) -> Seq<char>
    decreases arms.len() - k,
{
    if 0 <= k < arms.len() {
        match_arm_text(arms[k]) + match_arms_text(arms, k + 1)
    } else {
        Seq::empty()
    }
}

/// The whole generated dispatch expression: a block that aliases the
/// dispatch type via the `EnumGroup` trait, converts the subject value,
/// and matches on the result — usable wherever a value is expected.
pub open spec fn match_output(m: MatchInputV) -> Seq<char> {
    "{\n#[allow(non_camel_case_types)]\ntype __EnumGroup__ = <"@ + m.wire
        + " as ::enum_group_macros::EnumGroup>::Group;\nmatch <"@ + m.wire
        + " as ::enum_group_macros::EnumGroup>::into_group("@ + render_toks(m.value, 0) + ") {\n"@
        + match_arms_text(m.arms, 0) + "}\n}\n"@
}

/// Parse a dispatch expression from its token stream and compile it to
/// the generated expression text: exactly [`match_output`] of what
/// [`parse_match`] yields, or the parser's own positioned error.
pub fn parse_match_enum_group(t: &Vec<Tok>) -> (r: Result<Vec<char>, ParseError>)
    ensures
        match parse_match(t.deep_view()) {
            Ok(m) => r matches Ok(out) && out@ == match_output(m),
            Err((p, ex)) => r matches Err(e) && e.at as int == p && e.expected == ex,
        },
{
    match MatchInput::parse(t) {
        Ok(m) => Ok(generate_match(&m)),
        Err(e) => Err(e),
    }
}

/// Print the generated dispatch expression for a parsed input.
pub fn generate_match(m: &MatchInput) -> (out: Vec<char>)
    ensures
        out@ == match_output(m@),
{
    let mut out: Vec<char> = Vec::new();
    push_str(&mut out, "{\n#[allow(non_camel_case_types)]\ntype __EnumGroup__ = <");
    push_chars(&mut out, &m.wire);
    push_str(&mut out, " as ::enum_group_macros::EnumGroup>::Group;\nmatch <");
    push_chars(&mut out, &m.wire);
    push_str(&mut out, " as ::enum_group_macros::EnumGroup>::into_group(");
    render_toks_into(&mut out, &m.value);
    push_str(&mut out, ") {\n");
    let ghost adv = m.arms.deep_view();
    let ghost mid = out@;
    let mut k: usize = 0;
    while k < m.arms.len()
        invariant
            k <= m.arms.len(),
            adv == m.arms.deep_view(),
            adv.len() == m.arms@.len(),
            out@ + match_arms_text(adv, k as int) == mid + match_arms_text(adv, 0),
        decreases m.arms.len() - k,
    {
        proof {
            assert(adv[k as int] == m.arms@[k as int]@);
        }
        let ghost before = out@;
        let a = &m.arms[k];
        push_str(&mut out, "__EnumGroup__::");
        push_chars(&mut out, &a.group_name);
        push_str(&mut out, "(");
        render_toks_into(&mut out, &a.binding);
        push_str(&mut out, ") => ");
        render_toks_into(&mut out, &a.body);
        push_str(&mut out, ",\n");
        proof {
            assert(out@ =~= before + match_arm_text(adv[k as int]));
            assert((before + match_arm_text(adv[k as int])) + match_arms_text(adv, k as int + 1)
                =~= before + (match_arm_text(adv[k as int]) + match_arms_text(adv, k as int + 1)));
        }
        k = k + 1;
    }
    proof {
        assert(out@ + Seq::<char>::empty() =~= out@);
    }
    push_str(&mut out, "}\n}\n");
    proof {
        assert(out@ =~= match_output(m@));
    }
    out
}

} // verus!
