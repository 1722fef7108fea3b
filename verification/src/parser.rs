//! The parser for the grouped-union declaration.
//!
//! The grammar:
//!
//! ```text
//! Declaration := Attr* Visibility? 'enum' Name '{' Group (','* Group)* ','* '}'
//! Group       := Name '{' Variant (','* Variant)* ','* '}'
//! Variant     := Attr* Name '(' Type ')'
//! ```
//!
//! Commas between items are optional, and any number of trailing commas
//! is accepted after an item; a group body may be empty.  Payload types and attribute bodies are captured as opaque
//! balanced token spans.  Any structural mismatch fails at once with the
//! offending token's position and the construct that was expected there.
//!
//! Each executable parsing function mirrors a specification-level parser
//! over the token stream's view, and its contract says the two agree
//! exactly, on success and on failure alike.

use vstd::prelude::*;

use crate::token::Tok;
use crate::token::TokV;
use crate::token::chars_eq_str;
use crate::token::copy_chars;
use crate::token::copy_tok;
use crate::token::push_dv;
use crate::ast::ParsedVariant;
use crate::ast::VariantV;
use crate::ast::ParsedGroup;
use crate::ast::GroupV;
use crate::ast::Visibility;
use crate::ast::VisibilityV;
use crate::ast::EnumGroupInput;
use crate::ast::InputV;

verus! {

broadcast use vstd::seq::group_seq_axioms;

/// The construct a syntax error was waiting for.
#[derive(Debug, Clone, Copy, PartialEq, Eq)]
pub enum Expected {
    /// An identifier.
    Ident,
    /// The `enum` keyword.
    EnumKeyword,
    /// `{`.
    OpenBrace,
    /// `[`.
    OpenBracket,
    /// `(`.
    OpenParen,
    /// `}`.
    CloseBrace,
    /// `]`.
    CloseBracket,
    /// `)`.
    CloseParen,
    /// The closing delimiter of an unclosed span.
    CloseDelim,
    /// A non-empty attribute body.
    AttrBody,
    /// A payload type.
    Type,
    /// `=>`.
    FatArrow,
    /// `,`.
    Comma,
    /// An expression.
    Expr,
    /// The end of the input.
    End,
}

/// A positioned syntax error: the index of the offending token and the
/// construct expected there.
#[derive(Debug, Clone, Copy, PartialEq, Eq)]
pub struct ParseError {
    pub at: usize,
    pub expected: Expected,
}

/// The balanced token span from `i` up to (exclusive) the closing delimiter
/// of the currently open one, with the position of that closer.  `depth`
/// counts delimiters opened within the span so far.
pub open spec fn take_span(t: Seq<TokV>, i: int, depth: int) -> Result<
    (Seq<TokV>, int),
    (int, Expected),
>
    decreases t.len() - i,
{
    if i >= t.len() {
        Err((i, Expected::CloseDelim))
    } else if t[i] matches TokV::Close(_) && depth == 0 {
        Ok((Seq::empty(), i))
    } else {
        let d2 = match t[i] {
            TokV::Open(_) => depth + 1,
            TokV::Close(_) => depth - 1,
            _ => depth,
        };
        match take_span(t, i + 1, d2) {
            Ok((s, j)) => Ok((seq![t[i]] + s, j)),
            Err(e) => Err(e),
        }
    }
}

pub proof fn lemma_take_span(t: Seq<TokV>, i: int, depth: int)
    requires
        0 <= i <= t.len(),
    ensures
        match take_span(t, i, depth) {
            Ok((s, j)) => i <= j < t.len() && s == t.subrange(i, j) && (t[j] matches TokV::Close(
                _,
            )),
            Err((p, _)) => p == t.len(),
        },
    decreases t.len() - i,
{
    if i < t.len() && !(t[i] matches TokV::Close(_) && depth == 0) {
        let d2 = match t[i] {
            TokV::Open(_) => depth + 1,
            TokV::Close(_) => depth - 1,
            _ => depth,
        };
        lemma_take_span(t, i + 1, d2);
        match take_span(t, i + 1, d2) {
            Ok((s, j)) => {
                assert(seq![t[i]] + t.subrange(i + 1, j) =~= t.subrange(i, j));
            },
            Err(_) => {},
        }
    } else {
        if i < t.len() {
            assert(Seq::<TokV>::empty() =~= t.subrange(i, i));
        }
    }
}

/// The token span from `i` up to the first comma or closing delimiter at
/// nesting depth zero, or up to the end of the stream; fails on a span
/// whose opened delimiters never close.
pub open spec fn take_until_comma(t: Seq<TokV>, i: int, depth: int) -> Result<
    (Seq<TokV>, int),
    (int, Expected),
>
    decreases t.len() - i,
{
    if i >= t.len() {
        if depth == 0 {
            Ok((Seq::empty(), i))
        } else {
            Err((i, Expected::CloseDelim))
        }
    } else if depth == 0 && (t[i] matches TokV::Punct(c, _) && c == ',') {
        Ok((Seq::empty(), i))
    } else if depth == 0 && t[i] matches TokV::Close(_) {
        Ok((Seq::empty(), i))
    } else {
        let d2 = match t[i] {
            TokV::Open(_) => depth + 1,
            TokV::Close(_) => depth - 1,
            _ => depth,
        };
        match take_until_comma(t, i + 1, d2) {
            Ok((s, j)) => Ok((seq![t[i]] + s, j)),
            Err(e) => Err(e),
        }
    }
}

pub proof fn lemma_take_until_comma(t: Seq<TokV>, i: int, depth: int)
    requires
        0 <= i <= t.len(),
    ensures
        match take_until_comma(t, i, depth) {
            Ok((s, j)) => i <= j <= t.len() && s == t.subrange(i, j),
            Err((p, _)) => p == t.len(),
        },
    decreases t.len() - i,
{
    if i >= t.len() {
        assert(Seq::<TokV>::empty() =~= t.subrange(i, i));
    } else if depth == 0 && ((t[i] matches TokV::Punct(c, _) && c == ',') || (
    t[i] matches TokV::Close(_))) {
        assert(Seq::<TokV>::empty() =~= t.subrange(i, i));
    } else {
        let d2 = match t[i] {
            TokV::Open(_) => depth + 1,
            TokV::Close(_) => depth - 1,
            _ => depth,
        };
        lemma_take_until_comma(t, i + 1, d2);
        match take_until_comma(t, i + 1, d2) {
            Ok((s, j)) => {
                assert(seq![t[i]] + t.subrange(i + 1, j) =~= t.subrange(i, j));
            },
            Err(_) => {},
        }
    }
}

/// The attribute list at `i`: a run of `# [ ... ]` prefixes, each captured
/// as its bracketed body.
pub open spec fn parse_attrs(t: Seq<TokV>, i: int) -> Result<
    (Seq<Seq<TokV>>, int),
    (int, Expected),
>
    decreases t.len() - i,
        when 0 <= i <= t.len()
        via parse_attrs_dec
{
    if i < t.len() && (t[i] matches TokV::Punct(c, _) && c == '#') {
        if i + 1 < t.len() && (t[i + 1] matches TokV::Open(c) && c == '[') {
            match take_span(t, i + 2, 0) {
                Ok((body, j)) => if body.len() == 0 {
                    Err((i + 2, Expected::AttrBody))
                } else if t[j] matches TokV::Close(c) && c == ']' {
                    match parse_attrs(t, j + 1) {
                        Ok((rest, k)) => Ok((seq![body] + rest, k)),
                        Err(e) => Err(e),
                    }
                } else {
                    Err((j, Expected::CloseBracket))
                },
                Err(e) => Err(e),
            }
        } else {
            Err((i + 1, Expected::OpenBracket))
        }
    } else {
        Ok((Seq::empty(), i))
    }
}

#[via_fn]
proof fn parse_attrs_dec(t: Seq<TokV>, i: int) {
    if 0 <= i && i + 2 <= t.len() {
        lemma_take_span(t, i + 2, 0);
    }
}

pub proof fn lemma_parse_attrs(t: Seq<TokV>, i: int)
    requires
        0 <= i <= t.len(),
    ensures
        match parse_attrs(t, i) {
            Ok((_, j)) => i <= j <= t.len(),
            Err((p, _)) => 0 <= p <= t.len(),
        },
    decreases t.len() - i,
{
    if i < t.len() && (t[i] matches TokV::Punct(c, _) && c == '#') {
        if i + 1 < t.len() && (t[i + 1] matches TokV::Open(c) && c == '[') {
            lemma_take_span(t, i + 2, 0);
            match take_span(t, i + 2, 0) {
                Ok((body, j)) => {
                    if body.len() != 0 && (t[j] matches TokV::Close(c) && c == ']') {
                        lemma_parse_attrs(t, j + 1);
                    }
                },
                Err(_) => {},
            }
        }
    }
}

/// The optional visibility marker at `i`: nothing, `pub`, or `pub( ... )`.
pub open spec fn parse_vis(t: Seq<TokV>, i: int) -> Result<(VisibilityV, int), (int, Expected)> {
    if i < t.len() && (t[i] matches TokV::Ident(n) && n == "pub"@) {
        if i + 1 < t.len() && (t[i + 1] matches TokV::Open(c) && c == '(') {
            match take_span(t, i + 2, 0) {
                Ok((body, j)) => if t[j] matches TokV::Close(c) && c == ')' {
                    Ok((VisibilityV::PubRestricted(body), j + 1))
                } else {
                    Err((j, Expected::CloseParen))
                },
                Err(e) => Err(e),
            }
        } else {
            Ok((VisibilityV::Pub, i + 1))
        }
    } else {
        Ok((VisibilityV::Private, i))
    }
}

pub proof fn lemma_parse_vis(t: Seq<TokV>, i: int)
    requires
        0 <= i <= t.len(),
    ensures
        match parse_vis(t, i) {
            Ok((_, j)) => i <= j <= t.len(),
            Err((p, _)) => 0 <= p <= t.len(),
        },
{
    if i < t.len() && (t[i] matches TokV::Ident(n) && n == "pub"@) {
        if i + 1 < t.len() && (t[i + 1] matches TokV::Open(c) && c == '(') {
            lemma_take_span(t, i + 2, 0);
        }
    }
}

/// One variant: `Attr* Name '(' Type ')'`, with a non-empty payload type.
pub open spec fn parse_variant(t: Seq<TokV>, i: int) -> Result<(VariantV, int), (int, Expected)> {
    match parse_attrs(t, i) {
        Ok((attrs, j)) => if j < t.len() && t[j] matches TokV::Ident(_) {
            let name = t[j]->Ident_0;
            if j + 1 < t.len() && (t[j + 1] matches TokV::Open(c) && c == '(') {
                match take_span(t, j + 2, 0) {
                    Ok((ty, k)) => if ty.len() == 0 {
                        Err((j + 2, Expected::Type))
                    } else if t[k] matches TokV::Close(c) && c == ')' {
                        Ok((VariantV { attrs, name, ty }, k + 1))
                    } else {
                        Err((k, Expected::CloseParen))
                    },
                    Err(e) => Err(e),
                }
            } else {
                Err((j + 1, Expected::OpenParen))
            }
        } else {
            Err((j, Expected::Ident))
        },
        Err(e) => Err(e),
    }
}

pub proof fn lemma_parse_variant(t: Seq<TokV>, i: int)
    requires
        0 <= i <= t.len(),
    ensures
        match parse_variant(t, i) {
            Ok((_, j)) => i < j <= t.len(),
            Err((p, _)) => 0 <= p <= t.len(),
        },
{
    lemma_parse_attrs(t, i);
    match parse_attrs(t, i) {
        Ok((_, j)) => {
            if j < t.len() && t[j] matches TokV::Ident(_) {
                if j + 1 < t.len() && (t[j + 1] matches TokV::Open(c) && c == '(') {
                    lemma_take_span(t, j + 2, 0);
                }
            }
        },
        Err(_) => {},
    }
}

/// First position at or after `i` that does not hold a comma: the list
/// parsers accept any number of separating and trailing commas.
pub open spec fn skip_commas(t: Seq<TokV>, i: int) -> int
    decreases t.len() - i,
{
    if i < t.len() && (t[i] matches TokV::Punct(c, _) && c == ',') {
        skip_commas(t, i + 1)
    } else {
        i
    }
}

pub proof fn lemma_skip_commas(t: Seq<TokV>, i: int)
    requires
        0 <= i <= t.len(),
    ensures
        i <= skip_commas(t, i) <= t.len(),
    decreases t.len() - i,
{
    if i < t.len() && (t[i] matches TokV::Punct(c, _) && c == ',') {
        lemma_skip_commas(t, i + 1);
    }
}

/// The variants inside a group body, from `i` to the end of the body, with
/// any number of optional commas after each.
pub open spec fn parse_variant_list(c: Seq<TokV>, i: int) -> Result<
    Seq<VariantV>,
    (int, Expected),
>
    decreases c.len() - i,
        when 0 <= i <= c.len()
        via parse_variant_list_dec
{
    if i >= c.len() {
        Ok(Seq::empty())
    } else {
        match parse_variant(c, i) {
            Ok((v, j)) => {
                let j2 = skip_commas(c, j);
                match parse_variant_list(c, j2) {
                    Ok(rest) => Ok(seq![v] + rest),
                    Err(e) => Err(e),
                }
            },
            Err(e) => Err(e),
        }
    }
}

#[via_fn]
proof fn parse_variant_list_dec(c: Seq<TokV>, i: int) {
    if 0 <= i <= c.len() {
        lemma_parse_variant(c, i);
        match parse_variant(c, i) {
            Ok((_, j)) => {
                lemma_skip_commas(c, j);
            },
            Err(_) => {},
        }
    }
}

pub proof fn lemma_parse_variant_list(c: Seq<TokV>, i: int)
    requires
        0 <= i <= c.len(),
    ensures
        match parse_variant_list(c, i) {
            Ok(_) => true,
            Err((p, _)) => 0 <= p <= c.len(),
        },
    decreases c.len() - i,
{
    if i < c.len() {
        lemma_parse_variant(c, i);
        match parse_variant(c, i) {
            Ok((_, j)) => {
                lemma_skip_commas(c, j);
                lemma_parse_variant_list(c, skip_commas(c, j));
            },
            Err(_) => {},
        }
    }
}

/// One group: `Name '{' Variant (','? Variant)* ','? '}'`; the body may be
/// empty.  Error positions from inside the body are reported against the
/// whole stream.
pub open spec fn parse_group(t: Seq<TokV>, i: int) -> Result<(GroupV, int), (int, Expected)> {
    if i < t.len() && t[i] matches TokV::Ident(_) {
        let name = t[i]->Ident_0;
        if i + 1 < t.len() && (t[i + 1] matches TokV::Open(c) && c == '{') {
            match take_span(t, i + 2, 0) {
                Ok((content, j)) => if t[j] matches TokV::Close(c) && c == '}' {
                    match parse_variant_list(content, 0) {
                        Ok(vs) => Ok((GroupV { name, variants: vs }, j + 1)),
                        Err((p, ex)) => Err((i + 2 + p, ex)),
                    }
                } else {
                    Err((j, Expected::CloseBrace))
                },
                Err(e) => Err(e),
            }
        } else {
            Err((i + 1, Expected::OpenBrace))
        }
    } else {
        Err((i, Expected::Ident))
    }
}

pub proof fn lemma_parse_group(t: Seq<TokV>, i: int)
    requires
        0 <= i <= t.len(),
    ensures
        match parse_group(t, i) {
            Ok((_, j)) => i < j <= t.len(),
            Err((p, _)) => 0 <= p <= t.len(),
        },
{
    if i < t.len() && t[i] matches TokV::Ident(_) {
        if i + 1 < t.len() && (t[i + 1] matches TokV::Open(c) && c == '{') {
            lemma_take_span(t, i + 2, 0);
            match take_span(t, i + 2, 0) {
                Ok((content, j)) => {
                    lemma_parse_variant_list(content, 0);
                },
                Err(_) => {},
            }
        }
    }
}

/// The groups inside the declaration body, from `i` to the end of the body.
pub open spec fn parse_group_list(c: Seq<TokV>, i: int) -> Result<Seq<GroupV>, (int, Expected)>
    decreases c.len() - i,
        when 0 <= i <= c.len()
        via parse_group_list_dec
{
    if i >= c.len() {
        Ok(Seq::empty())
    } else {
        match parse_group(c, i) {
            Ok((g, j)) => {
                let j2 = skip_commas(c, j);
                match parse_group_list(c, j2) {
                    Ok(rest) => Ok(seq![g] + rest),
                    Err(e) => Err(e),
                }
            },
            Err(e) => Err(e),
        }
    }
}

#[via_fn]
proof fn parse_group_list_dec(c: Seq<TokV>, i: int) {
    if 0 <= i <= c.len() {
        lemma_parse_group(c, i);
        match parse_group(c, i) {
            Ok((_, j)) => {
                lemma_skip_commas(c, j);
            },
            Err(_) => {},
        }
    }
}

pub proof fn lemma_parse_group_list(c: Seq<TokV>, i: int)
    requires
        0 <= i <= c.len(),
    ensures
        match parse_group_list(c, i) {
            Ok(_) => true,
            Err((p, _)) => 0 <= p <= c.len(),
        },
    decreases c.len() - i,
{
    if i < c.len() {
        lemma_parse_group(c, i);
        match parse_group(c, i) {
            Ok((_, j)) => {
                lemma_skip_commas(c, j);
                lemma_parse_group_list(c, skip_commas(c, j));
            },
            Err(_) => {},
        }
    }
}

/// A whole grouped-union declaration, consuming the entire token stream.
pub open spec fn parse_enum_group(t: Seq<TokV>) -> Result<InputV, (int, Expected)> {
    match parse_attrs(t, 0) {
        Ok((attrs, i)) => match parse_vis(t, i) {
            Ok((vis, j)) => if j < t.len() && (t[j] matches TokV::Ident(n) && n == "enum"@) {
                if j + 1 < t.len() && t[j + 1] matches TokV::Ident(_) {
                    let name = t[j + 1]->Ident_0;
                    if j + 2 < t.len() && (t[j + 2] matches TokV::Open(c) && c == '{') {
                        match take_span(t, j + 3, 0) {
                            Ok((content, m)) => if t[m] matches TokV::Close(c) && c == '}' {
                                if m + 1 == t.len() {
                                    match parse_group_list(content, 0) {
                                        Ok(gs) => Ok(
                                            InputV { attrs, vis, name, groups: gs },
                                        ),
                                        Err((p, ex)) => Err((j + 3 + p, ex)),
                                    }
                                } else {
                                    Err((m + 1, Expected::End))
                                }
                            } else {
                                Err((m, Expected::CloseBrace))
                            },
                            Err(e) => Err(e),
                        }
                    } else {
                        Err((j + 2, Expected::OpenBrace))
                    }
                } else {
                    Err((j + 1, Expected::Ident))
                }
            } else {
                Err((j, Expected::EnumKeyword))
            },
            Err(e) => Err(e),
        },
        Err(e) => Err(e),
    }
}

pub proof fn lemma_take_span_extend(t: Seq<TokV>, ext: Seq<TokV>, i: int, depth: int)
    requires
        0 <= i <= t.len(),
        take_span(t, i, depth) is Ok,
    ensures
        take_span(t + ext, i, depth) == take_span(t, i, depth),
    decreases t.len() - i,
{
    let t2 = t + ext;
    assert(i < t.len());
    assert(t2[i] == t[i]);
    if !(t[i] matches TokV::Close(_) && depth == 0) {
        let d2 = match t[i] {
            TokV::Open(_) => depth + 1,
            TokV::Close(_) => depth - 1,
            _ => depth,
        };
        lemma_take_span_extend(t, ext, i + 1, d2);
    }
}

pub proof fn lemma_take_until_comma_push(t: Seq<TokV>, ct: TokV, i: int, depth: int)
    requires
        0 <= i <= t.len(),
        take_until_comma(t, i, depth) is Ok,
        ct matches TokV::Punct(cc, _) && cc == ',',
    ensures
        take_until_comma(t.push(ct), i, depth) == take_until_comma(t, i, depth),
    decreases t.len() - i,
{
    let t2 = t.push(ct);
    if i >= t.len() {
        assert(depth == 0);
        assert(t2[i] == ct);
    } else {
        assert(t2[i] == t[i]);
        if !(depth == 0 && ((t[i] matches TokV::Punct(c, _) && c == ',') || (
        t[i] matches TokV::Close(_)))) {
            let d2 = match t[i] {
                TokV::Open(_) => depth + 1,
                TokV::Close(_) => depth - 1,
                _ => depth,
            };
            lemma_take_until_comma_push(t, ct, i + 1, d2);
        }
    }
}

pub proof fn lemma_parse_attrs_extend(t: Seq<TokV>, ext: Seq<TokV>, i: int)
    requires
        0 <= i <= t.len(),
        parse_attrs(t, i) is Ok,
        parse_attrs(t, i)->Ok_0.1 < t.len(),
    ensures
        parse_attrs(t + ext, i) == parse_attrs(t, i),
    decreases t.len() - i,
{
    let t2 = t + ext;
    if i < t.len() && (t[i] matches TokV::Punct(c, _) && c == '#') {
        assert(t2[i] == t[i]);
        assert(i + 1 < t.len());
        assert(t2[i + 1] == t[i + 1]);
        lemma_take_span(t, i + 2, 0);
        lemma_take_span_extend(t, ext, i + 2, 0);
        match take_span(t, i + 2, 0) {
            Ok((body, j)) => {
                assert(t2[j] == t[j]);
                lemma_parse_attrs_extend(t, ext, j + 1);
            },
            Err(_) => {
                assert(false);
            },
        }
    } else {
        assert(i < t.len());
        assert(t2[i] == t[i]);
    }
}

pub proof fn lemma_parse_variant_extend(t: Seq<TokV>, ext: Seq<TokV>, i: int)
    requires
        0 <= i <= t.len(),
        parse_variant(t, i) is Ok,
    ensures
        parse_variant(t + ext, i) == parse_variant(t, i),
{
    let t2 = t + ext;
    lemma_parse_attrs(t, i);
    match parse_attrs(t, i) {
        Ok((attrs, j)) => {
            assert(j < t.len());
            lemma_parse_attrs_extend(t, ext, i);
            assert(t2[j] == t[j]);
            assert(j + 1 < t.len());
            assert(t2[j + 1] == t[j + 1]);
            lemma_take_span(t, j + 2, 0);
            lemma_take_span_extend(t, ext, j + 2, 0);
            match take_span(t, j + 2, 0) {
                Ok((ty, k)) => {
                    assert(t2[k] == t[k]);
                },
                Err(_) => {
                    assert(false);
                },
            }
        },
        Err(_) => {
            assert(false);
        },
    }
}

pub proof fn lemma_parse_group_extend(t: Seq<TokV>, ext: Seq<TokV>, i: int)
    requires
        0 <= i <= t.len(),
        parse_group(t, i) is Ok,
    ensures
        parse_group(t + ext, i) == parse_group(t, i),
{
    let t2 = t + ext;
    assert(i < t.len());
    assert(t2[i] == t[i]);
    assert(i + 1 < t.len());
    assert(t2[i + 1] == t[i + 1]);
    lemma_take_span(t, i + 2, 0);
    lemma_take_span_extend(t, ext, i + 2, 0);
    match take_span(t, i + 2, 0) {
        Ok((content, j)) => {
            assert(t2[j] == t[j]);
        },
        Err(_) => {
            assert(false);
        },
    }
}

/// How a run of commas extends when one more comma is appended to the
/// stream: an interior run is unchanged, a run reaching the end absorbs
/// the appended comma too.
proof fn lemma_skip_commas_push(c: Seq<TokV>, ct: TokV, i: int)
    requires
        0 <= i <= c.len(),
        ct matches TokV::Punct(p, _) && p == ',',
    ensures
        ({
            let j = skip_commas(c, i);
            if j < c.len() {
                skip_commas(c.push(ct), i) == j
            } else {
                skip_commas(c.push(ct), i) == c.len() + 1
            }
        }),
    decreases c.len() - i,
{
    let c2 = c.push(ct);
    if i < c.len() {
        assert(c2[i] == c[i]);
        if c[i] matches TokV::Punct(cc, _) && cc == ',' {
            lemma_skip_commas_push(c, ct, i + 1);
        }
    } else {
        assert(c2[i] == ct);
        assert(skip_commas(c2, i + 1) == i + 1);
    }
}

proof fn lemma_trailing_comma_variants_at(c: Seq<TokV>, ct: TokV, i: int)
    requires
        0 <= i < c.len(),
        parse_variant_list(c, i) is Ok,
        ct matches TokV::Punct(p, _) && p == ',',
    ensures
        parse_variant_list(c.push(ct), i) == parse_variant_list(c, i),
    decreases c.len() - i,
{
    let c2 = c.push(ct);
    assert(c2 =~= c + seq![ct]);
    lemma_parse_variant(c, i);
    lemma_parse_variant_extend(c, seq![ct], i);
    match parse_variant(c, i) {
        Ok((v, j)) => {
            lemma_skip_commas(c, j);
            lemma_skip_commas_push(c, ct, j);
            let j2 = skip_commas(c, j);
            if j2 < c.len() {
                lemma_trailing_comma_variants_at(c, ct, j2);
            } else {
                assert(parse_variant_list(c, j2) == Ok::<Seq<VariantV>, (int, Expected)>(
                    Seq::empty(),
                ));
                assert(parse_variant_list(c2, c.len() as int + 1) == Ok::<Seq<VariantV>, (int, Expected)>(
                    Seq::empty(),
                ));
            }
        },
        Err(_) => {
            assert(false);
        },
    }
}

/// Law: a trailing comma after the last variant of a group body changes
/// nothing — the body with and without it parses to the same variants.
pub proof fn lemma_trailing_comma_variants(c: Seq<TokV>, ct: TokV)
    requires
        c.len() > 0,
        parse_variant_list(c, 0) is Ok,
        ct matches TokV::Punct(p, _) && p == ',',
    ensures
        parse_variant_list(c.push(ct), 0) == parse_variant_list(c, 0),
{
    lemma_trailing_comma_variants_at(c, ct, 0);
}

proof fn lemma_trailing_comma_groups_at(c: Seq<TokV>, ct: TokV, i: int)
    requires
        0 <= i < c.len(),
        parse_group_list(c, i) is Ok,
        ct matches TokV::Punct(p, _) && p == ',',
    ensures
        parse_group_list(c.push(ct), i) == parse_group_list(c, i),
    decreases c.len() - i,
{
    let c2 = c.push(ct);
    assert(c2 =~= c + seq![ct]);
    lemma_parse_group(c, i);
    lemma_parse_group_extend(c, seq![ct], i);
    match parse_group(c, i) {
        Ok((g, j)) => {
            lemma_skip_commas(c, j);
            lemma_skip_commas_push(c, ct, j);
            let j2 = skip_commas(c, j);
            if j2 < c.len() {
                lemma_trailing_comma_groups_at(c, ct, j2);
            } else {
                assert(parse_group_list(c, j2) == Ok::<Seq<GroupV>, (int, Expected)>(
                    Seq::empty(),
                ));
                assert(parse_group_list(c2, c.len() as int + 1) == Ok::<Seq<GroupV>, (int, Expected)>(
                    Seq::empty(),
                ));
            }
        },
        Err(_) => {
            assert(false);
        },
    }
}

/// Law: a trailing comma after the last group of a declaration body
/// changes nothing — the body with and without it parses to the same
/// groups.
pub proof fn lemma_trailing_comma_groups(c: Seq<TokV>, ct: TokV)
    requires
        c.len() > 0,
        parse_group_list(c, 0) is Ok,
        ct matches TokV::Punct(p, _) && p == ',',
    ensures
        parse_group_list(c.push(ct), 0) == parse_group_list(c, 0),
{
    lemma_trailing_comma_groups_at(c, ct, 0);
}

pub(crate) fn is_punct_c(t: &Tok, c: char) -> (r: bool)
    ensures
        r == (t@ matches TokV::Punct(cc, _) && cc == c),
{
    match t {
        Tok::Punct(c2, _) => *c2 == c,
        _ => false,
    }
}

pub(crate) fn is_open_c(t: &Tok, c: char) -> (r: bool)
    ensures
        r == (t@ matches TokV::Open(cc) && cc == c),
{
    match t {
        Tok::Open(c2) => *c2 == c,
        _ => false,
    }
}

pub(crate) fn is_close_c(t: &Tok, c: char) -> (r: bool)
    ensures
        r == (t@ matches TokV::Close(cc) && cc == c),
{
    match t {
        Tok::Close(c2) => *c2 == c,
        _ => false,
    }
}

pub(crate) fn is_ident_tok(t: &Tok) -> (r: bool)
    ensures
        r == (t@ matches TokV::Ident(_)),
{
    match t {
        Tok::Ident(_) => true,
        _ => false,
    }
}

pub(crate) fn ident_is(t: &Tok, s: &str) -> (r: bool)
    ensures
        r == (t@ matches TokV::Ident(n) && n == s@),
{
    match t {
        Tok::Ident(n) => chars_eq_str(n, s),
        _ => false,
    }
}

pub(crate) fn ident_text(t: &Tok) -> (r: Vec<char>)
    requires
        t@ matches TokV::Ident(_),
    ensures
        r@ == t@->Ident_0,
{
    match t {
        Tok::Ident(n) => copy_chars(n),
        _ => {
            proof {
                assert(false);
            }
            Vec::new()
        },
    }
}

/// Collect the balanced span at `i` into `out`, mirroring [`take_span`].
pub(crate) fn span_rec(t: &Vec<Tok>, i: usize, depth: usize, out: &mut Vec<Tok>) -> (r: Result<
    usize,
    ParseError,
>)
    requires
        i <= t.len(),
        depth <= i,
    ensures
        match take_span(t.deep_view(), i as int, depth as int) {
            Ok((s, j)) => r matches Ok(jj) && jj as int == j && final(out).deep_view() == old(
                out,
            ).deep_view() + s,
            Err((p, ex)) => r matches Err(e) && e.at as int == p && e.expected == ex,
        },
    decreases t.len() - i,
{
    if i >= t.len() {
        return Err(ParseError { at: i, expected: Expected::CloseDelim });
    }
    proof {
        assert(t.deep_view()[i as int] == t@[i as int]@);
    }
    let (is_open, is_close): (bool, bool) = match &t[i] {
        Tok::Open(_) => (true, false),
        Tok::Close(_) => (false, true),
        _ => (false, false),
    };
    if is_close && depth == 0 {
        proof {
            assert(out.deep_view() =~= out.deep_view() + Seq::<TokV>::empty());
        }
        return Ok(i);
    }
    let d2: usize = if is_open {
        depth + 1
    } else if is_close {
        depth - 1
    } else {
        depth
    };
    let ghost pre = out.deep_view();
    push_dv(out, copy_tok(&t[i]));
    let res = span_rec(t, i + 1, d2, out);
    match res {
        Ok(j) => {
            proof {
                let s = take_span(t.deep_view(), i as int + 1, d2 as int)->Ok_0.0;
                assert(out.deep_view() =~= pre + (seq![t.deep_view()[i as int]] + s));
            }
            Ok(j)
        },
        Err(e) => Err(e),
    }
}

/// Collect the span up to a top-level comma or closer into `out`,
/// mirroring [`take_until_comma`].
pub(crate) fn until_comma_rec(t: &Vec<Tok>, i: usize, depth: usize, out: &mut Vec<Tok>) -> (r:
    Result<usize, ParseError>)
    requires
        i <= t.len(),
        depth <= i,
    ensures
        match take_until_comma(t.deep_view(), i as int, depth as int) {
            Ok((s, j)) => r matches Ok(jj) && jj as int == j && final(out).deep_view() == old(
                out,
            ).deep_view() + s,
            Err((p, ex)) => r matches Err(e) && e.at as int == p && e.expected == ex,
        },
    decreases t.len() - i,
{
    if i >= t.len() {
        if depth == 0 {
            proof {
                assert(out.deep_view() =~= out.deep_view() + Seq::<TokV>::empty());
            }
            return Ok(i);
        } else {
            return Err(ParseError { at: i, expected: Expected::CloseDelim });
        }
    }
    proof {
        assert(t.deep_view()[i as int] == t@[i as int]@);
    }
    let (is_open, is_close): (bool, bool) = match &t[i] {
        Tok::Open(_) => (true, false),
        Tok::Close(_) => (false, true),
        _ => (false, false),
    };
    if depth == 0 && (is_punct_c(&t[i], ',') || is_close) {
        proof {
            assert(out.deep_view() =~= out.deep_view() + Seq::<TokV>::empty());
        }
        return Ok(i);
    }
    let d2: usize = if is_open {
        depth + 1
    } else if is_close {
        depth - 1
    } else {
        depth
    };
    let ghost pre = out.deep_view();
    push_dv(out, copy_tok(&t[i]));
    let res = until_comma_rec(t, i + 1, d2, out);
    match res {
        Ok(j) => {
            proof {
                let s = take_until_comma(t.deep_view(), i as int + 1, d2 as int)->Ok_0.0;
                assert(out.deep_view() =~= pre + (seq![t.deep_view()[i as int]] + s));
            }
            Ok(j)
        },
        Err(e) => Err(e),
    }
}

/// Collect the attribute list at `i` into `out`, mirroring [`parse_attrs`].
pub(crate) fn parse_attrs_x(t: &Vec<Tok>, i: usize, out: &mut Vec<Vec<Tok>>) -> (r: Result<
    usize,
    ParseError,
>)
    requires
        i <= t.len(),
    ensures
        match parse_attrs(t.deep_view(), i as int) {
            Ok((a, j)) => r matches Ok(jj) && jj as int == j && final(out).deep_view() == old(
                out,
            ).deep_view() + a,
            Err((p, ex)) => r matches Err(e) && e.at as int == p && e.expected == ex,
        },
    decreases t.len() - i,
{
    if i < t.len() && is_punct_c(&t[i], '#') {
        if i + 1 < t.len() && is_open_c(&t[i + 1], '[') {
            let mut body: Vec<Tok> = Vec::new();
            proof {
                assert(body.deep_view() =~= Seq::<TokV>::empty());
            }
            match span_rec(t, i + 2, 0, &mut body) {
                Ok(j) => {
                    proof {
                        lemma_take_span(t.deep_view(), i as int + 2, 0);
                        assert(Seq::<TokV>::empty() + take_span(
                            t.deep_view(),
                            i as int + 2,
                            0,
                        )->Ok_0.0 =~= take_span(t.deep_view(), i as int + 2, 0)->Ok_0.0);
                        assert(body.deep_view().len() == body@.len());
                    }
                    if body.len() == 0 {
                        return Err(ParseError { at: i + 2, expected: Expected::AttrBody });
                    }
                    if is_close_c(&t[j], ']') {
                        let ghost bodyv = body.deep_view();
                        let ghost pre = out.deep_view();
                        push_dv(out, body);
                        let res = parse_attrs_x(t, j + 1, out);
                        match res {
                            Ok(k) => {
                                proof {
                                    let rest = parse_attrs(t.deep_view(), j as int + 1)->Ok_0.0;
                                    assert(out.deep_view() =~= pre + (seq![bodyv] + rest));
                                }
                                Ok(k)
                            },
                            Err(e) => Err(e),
                        }
                    } else {
                        Err(ParseError { at: j, expected: Expected::CloseBracket })
                    }
                },
                Err(e) => Err(e),
            }
        } else {
            Err(ParseError { at: i + 1, expected: Expected::OpenBracket })
        }
    } else {
        proof {
            assert(out.deep_view() =~= out.deep_view() + Seq::<Seq<TokV>>::empty());
        }
        Ok(i)
    }
}

/// Parse the optional visibility marker at `i`, mirroring [`parse_vis`].
pub(crate) fn parse_vis_x(t: &Vec<Tok>, i: usize) -> (r: Result<(Visibility, usize), ParseError>)
    requires
        i <= t.len(),
    ensures
        match parse_vis(t.deep_view(), i as int) {
            Ok((v, j)) => r matches Ok(x) && x.0@ == v && x.1 as int == j,
            Err((p, ex)) => r matches Err(e) && e.at as int == p && e.expected == ex,
        },
{
    if i < t.len() && ident_is(&t[i], "pub") {
        if i + 1 < t.len() && is_open_c(&t[i + 1], '(') {
            let mut body: Vec<Tok> = Vec::new();
            proof {
                assert(body.deep_view() =~= Seq::<TokV>::empty());
            }
            match span_rec(t, i + 2, 0, &mut body) {
                Ok(j) => {
                    proof {
                        lemma_take_span(t.deep_view(), i as int + 2, 0);
                        assert(Seq::<TokV>::empty() + take_span(
                            t.deep_view(),
                            i as int + 2,
                            0,
                        )->Ok_0.0 =~= take_span(t.deep_view(), i as int + 2, 0)->Ok_0.0);
                    }
                    if is_close_c(&t[j], ')') {
                        Ok((Visibility::PubRestricted(body), j + 1))
                    } else {
                        Err(ParseError { at: j, expected: Expected::CloseParen })
                    }
                },
                Err(e) => Err(e),
            }
        } else {
            Ok((Visibility::Pub, i + 1))
        }
    } else {
        Ok((Visibility::Private, i))
    }
}

impl ParsedVariant {
    /// Parse one variant at token position `i`, mirroring [`parse_variant`].
    pub fn parse(t: &Vec<Tok>, i: usize) -> (r: Result<(ParsedVariant, usize), ParseError>)
        requires
            i <= t.len(),
        ensures
            match parse_variant(t.deep_view(), i as int) {
                Ok((v, j)) => r matches Ok(x) && x.0@ == v && x.1 as int == j,
                Err((p, ex)) => r matches Err(e) && e.at as int == p && e.expected == ex,
            },
    {
        let mut attrs: Vec<Vec<Tok>> = Vec::new();
        proof {
            assert(attrs.deep_view() =~= Seq::<Seq<TokV>>::empty());
        }
        let j = match parse_attrs_x(t, i, &mut attrs) {
            Ok(j) => j,
            Err(e) => {
                return Err(e);
            },
        };
        proof {
            lemma_parse_attrs(t.deep_view(), i as int);
            assert(Seq::<Seq<TokV>>::empty() + parse_attrs(t.deep_view(), i as int)->Ok_0.0
                =~= parse_attrs(t.deep_view(), i as int)->Ok_0.0);
        }
        if j < t.len() && is_ident_tok(&t[j]) {
            let name = ident_text(&t[j]);
            if j + 1 < t.len() && is_open_c(&t[j + 1], '(') {
                let mut ty: Vec<Tok> = Vec::new();
                proof {
                    assert(ty.deep_view() =~= Seq::<TokV>::empty());
                }
                match span_rec(t, j + 2, 0, &mut ty) {
                    Ok(k) => {
                        proof {
                            lemma_take_span(t.deep_view(), j as int + 2, 0);
                            assert(Seq::<TokV>::empty() + take_span(
                                t.deep_view(),
                                j as int + 2,
                                0,
                            )->Ok_0.0 =~= take_span(t.deep_view(), j as int + 2, 0)->Ok_0.0);
                            assert(ty.deep_view().len() == ty@.len());
                        }
                        if ty.len() == 0 {
                            Err(ParseError { at: j + 2, expected: Expected::Type })
                        } else if is_close_c(&t[k], ')') {
                            let v = ParsedVariant { attrs, name, ty };
                            Ok((v, k + 1))
                        } else {
                            Err(ParseError { at: k, expected: Expected::CloseParen })
                        }
                    },
                    Err(e) => Err(e),
                }
            } else {
                Err(ParseError { at: j + 1, expected: Expected::OpenParen })
            }
        } else {
            Err(ParseError { at: j, expected: Expected::Ident })
        }
    }
}

/// Advance past a run of commas, mirroring [`skip_commas`].
pub(crate) fn skip_commas_x(c: &Vec<Tok>, i: usize) -> (j: usize)
    requires
        i <= c.len(),
    ensures
        j as int == skip_commas(c.deep_view(), i as int),
        i <= j <= c.len(),
    decreases c.len() - i,
{
    proof {
        assert(c.deep_view().len() == c@.len());
        if i < c.len() {
            assert(c.deep_view()[i as int] == c@[i as int]@);
        }
    }
    if i < c.len() && is_punct_c(&c[i], ',') {
        skip_commas_x(c, i + 1)
    } else {
        i
    }
}

/// Parse the variants of a group body into `out`, mirroring
/// [`parse_variant_list`].
pub(crate) fn parse_variant_list_x(c: &Vec<Tok>, i: usize, out: &mut Vec<ParsedVariant>) -> (r:
    Result<(), ParseError>)
    requires
        i <= c.len(),
    ensures
        match parse_variant_list(c.deep_view(), i as int) {
            Ok(vs) => r matches Ok(_) && final(out).deep_view() == old(out).deep_view() + vs,
            Err((p, ex)) => r matches Err(e) && e.at as int == p && e.expected == ex,
        },
    decreases c.len() - i,
{
    if i >= c.len() {
        proof {
            assert(out.deep_view() =~= out.deep_view() + Seq::<VariantV>::empty());
        }
        return Ok(());
    }
    match ParsedVariant::parse(c, i) {
        Ok((v, j)) => {
            proof {
                lemma_parse_variant(c.deep_view(), i as int);
            }
            let j2: usize = skip_commas_x(c, j);
            let ghost pre = out.deep_view();
            let ghost vv = v@;
            push_dv(out, v);
            match parse_variant_list_x(c, j2, out) {
                Ok(_) => {
                    proof {
                        let rest = parse_variant_list(c.deep_view(), j2 as int)->Ok_0;
                        assert(out.deep_view() =~= pre + (seq![vv] + rest));
                    }
                    Ok(())
                },
                Err(e) => Err(e),
            }
        },
        Err(e) => Err(e),
    }
}

impl ParsedGroup {
    /// Parse one group at token position `i`, mirroring [`parse_group`].
    pub fn parse(t: &Vec<Tok>, i: usize) -> (r: Result<(ParsedGroup, usize), ParseError>)
        requires
            i <= t.len(),
        ensures
            match parse_group(t.deep_view(), i as int) {
                Ok((g, j)) => r matches Ok(x) && x.0@ == g && x.1 as int == j,
                Err((p, ex)) => r matches Err(e) && e.at as int == p && e.expected == ex,
            },
    {
        if i < t.len() && is_ident_tok(&t[i]) {
            let name = ident_text(&t[i]);
            if i + 1 < t.len() && is_open_c(&t[i + 1], '{') {
                let mut content: Vec<Tok> = Vec::new();
                proof {
                    assert(content.deep_view() =~= Seq::<TokV>::empty());
                }
                match span_rec(t, i + 2, 0, &mut content) {
                    Ok(j) => {
                        proof {
                            lemma_take_span(t.deep_view(), i as int + 2, 0);
                            assert(Seq::<TokV>::empty() + take_span(
                                t.deep_view(),
                                i as int + 2,
                                0,
                            )->Ok_0.0 =~= take_span(t.deep_view(), i as int + 2, 0)->Ok_0.0);
                        }
                        if is_close_c(&t[j], '}') {
                            let mut variants: Vec<ParsedVariant> = Vec::new();
                            proof {
                                assert(variants.deep_view() =~= Seq::<VariantV>::empty());
                            }
                            match parse_variant_list_x(&content, 0, &mut variants) {
                                Ok(_) => {
                                    let g = ParsedGroup { name, variants };
                                    proof {
                                        assert(Seq::<VariantV>::empty() + parse_variant_list(
                                            content.deep_view(),
                                            0,
                                        )->Ok_0 =~= parse_variant_list(
                                            content.deep_view(),
                                            0,
                                        )->Ok_0);
                                    }
                                    Ok((g, j + 1))
                                },
                                Err(e) => {
                                    proof {
                                        lemma_parse_variant_list(content.deep_view(), 0);
                                        assert(content.deep_view().len() == content@.len());
                                    }
                                    Err(
                                        ParseError {
                                            at: i + 2 + e.at,
                                            expected: e.expected,
                                        },
                                    )
                                },
                            }
                        } else {
                            Err(ParseError { at: j, expected: Expected::CloseBrace })
                        }
                    },
                    Err(e) => Err(e),
                }
            } else {
                Err(ParseError { at: i + 1, expected: Expected::OpenBrace })
            }
        } else {
            Err(ParseError { at: i, expected: Expected::Ident })
        }
    }
}

/// Parse the groups of a declaration body into `out`, mirroring
/// [`parse_group_list`].
pub(crate) fn parse_group_list_x(c: &Vec<Tok>, i: usize, out: &mut Vec<ParsedGroup>) -> (r: Result<
    (),
    ParseError,
>)
    requires
        i <= c.len(),
    ensures
        match parse_group_list(c.deep_view(), i as int) {
            Ok(gs) => r matches Ok(_) && final(out).deep_view() == old(out).deep_view() + gs,
            Err((p, ex)) => r matches Err(e) && e.at as int == p && e.expected == ex,
        },
    decreases c.len() - i,
{
    if i >= c.len() {
        proof {
            assert(out.deep_view() =~= out.deep_view() + Seq::<GroupV>::empty());
        }
        return Ok(());
    }
    match ParsedGroup::parse(c, i) {
        Ok((g, j)) => {
            proof {
                lemma_parse_group(c.deep_view(), i as int);
            }
            let j2: usize = skip_commas_x(c, j);
            let ghost pre = out.deep_view();
            let ghost gv = g@;
            push_dv(out, g);
            match parse_group_list_x(c, j2, out) {
                Ok(_) => {
                    proof {
                        let rest = parse_group_list(c.deep_view(), j2 as int)->Ok_0;
                        assert(out.deep_view() =~= pre + (seq![gv] + rest));
                    }
                    Ok(())
                },
                Err(e) => Err(e),
            }
        },
        Err(e) => Err(e),
    }
}

impl EnumGroupInput {
    /// Parse a whole grouped-union declaration from its token stream,
    /// mirroring [`parse_enum_group`]: the result agrees with the
    /// specification parser on success and on failure alike.
    pub fn parse(t: &Vec<Tok>) -> (r: Result<EnumGroupInput, ParseError>)
        ensures
            match parse_enum_group(t.deep_view()) {
                Ok(d) => r matches Ok(x) && x@ == d,
                Err((p, ex)) => r matches Err(e) && e.at as int == p && e.expected == ex,
            },
    {
        let mut attrs: Vec<Vec<Tok>> = Vec::new();
        proof {
            assert(attrs.deep_view() =~= Seq::<Seq<TokV>>::empty());
        }
        let i = match parse_attrs_x(t, 0, &mut attrs) {
            Ok(i) => i,
            Err(e) => {
                return Err(e);
            },
        };
        proof {
            lemma_parse_attrs(t.deep_view(), 0);
            assert(Seq::<Seq<TokV>>::empty() + parse_attrs(t.deep_view(), 0)->Ok_0.0
                =~= parse_attrs(t.deep_view(), 0)->Ok_0.0);
        }
        let (vis, j) = match parse_vis_x(t, i) {
            Ok(x) => x,
            Err(e) => {
                return Err(e);
            },
        };
        proof {
            lemma_parse_vis(t.deep_view(), i as int);
        }
        if j < t.len() && ident_is(&t[j], "enum") {
            if j + 1 < t.len() && is_ident_tok(&t[j + 1]) {
                let name = ident_text(&t[j + 1]);
                if j + 2 < t.len() && is_open_c(&t[j + 2], '{') {
                    let mut content: Vec<Tok> = Vec::new();
                    proof {
                        assert(content.deep_view() =~= Seq::<TokV>::empty());
                    }
                    match span_rec(t, j + 3, 0, &mut content) {
                        Ok(m) => {
                            proof {
                                lemma_take_span(t.deep_view(), j as int + 3, 0);
                                assert(Seq::<TokV>::empty() + take_span(
                                    t.deep_view(),
                                    j as int + 3,
                                    0,
                                )->Ok_0.0 =~= take_span(t.deep_view(), j as int + 3, 0)->Ok_0.0);
                            }
                            if is_close_c(&t[m], '}') {
                                if m + 1 == t.len() {
                                    let mut groups: Vec<ParsedGroup> = Vec::new();
                                    proof {
                                        assert(groups.deep_view() =~= Seq::<GroupV>::empty());
                                    }
                                    match parse_group_list_x(&content, 0, &mut groups) {
                                        Ok(_) => {
                                            let d = EnumGroupInput { attrs, vis, name, groups };
                                            proof {
                                                assert(Seq::<GroupV>::empty() + parse_group_list(
                                                    content.deep_view(),
                                                    0,
                                                )->Ok_0 =~= parse_group_list(
                                                    content.deep_view(),
                                                    0,
                                                )->Ok_0);
                                            }
                                            Ok(d)
                                        },
                                        Err(e) => {
                                            proof {
                                                lemma_parse_group_list(content.deep_view(), 0);
                                                assert(content.deep_view().len()
                                                    == content@.len());
                                            }
                                            Err(
                                                ParseError {
                                                    at: j + 3 + e.at,
                                                    expected: e.expected,
                                                },
                                            )
                                        },
                                    }
                                } else {
                                    Err(ParseError { at: m + 1, expected: Expected::End })
                                }
                            } else {
                                Err(ParseError { at: m, expected: Expected::CloseBrace })
                            }
                        },
                        Err(e) => Err(e),
                    }
                } else {
                    Err(ParseError { at: j + 2, expected: Expected::OpenBrace })
                }
            } else {
                Err(ParseError { at: j + 1, expected: Expected::Ident })
            }
        } else {
            Err(ParseError { at: j, expected: Expected::EnumKeyword })
        }
    }
}

} // verus!
