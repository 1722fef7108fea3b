//! Tokens and the lexer.
//!
//! The concrete syntax is lexed into a flat stream of tokens: identifiers,
//! literals, punctuation and delimiters.  A punctuation token remembers
//! whether the next character followed it immediately in the source
//! (`joint`), so that multi-character operators such as `::` or `=>` are
//! re-printed without an intervening space.  Whitespace and line comments
//! are discarded.  The lexer fails only on an unterminated string literal;
//! delimiter balance is the parser's business.

use vstd::prelude::*;

verus! {

broadcast use vstd::seq::group_seq_axioms;

/// One lexed token.
#[derive(Debug, Clone)]
pub enum Tok {
    /// An identifier or keyword, e.g. `enum`, `WireMsg`.
    Ident(Vec<char>),
    /// A number, string or character literal, kept as its raw characters.
    Lit(Vec<char>),
    /// A punctuation character; `true` means the following character was
    /// adjacent in the source, so the two are re-printed without a space.
    Punct(char, bool),
    /// An opening delimiter: `(`, `[` or `{`.
    Open(char),
    /// A closing delimiter: `)`, `]` or `}`.
    Close(char),
}

/// The mathematical shape of a token.
pub enum TokV {
    Ident(Seq<char>),
    Lit(Seq<char>),
    Punct(char, bool),
    Open(char),
    Close(char),
}

impl View for Tok {
    type V = TokV;

    open spec fn view(&self) -> TokV {
        match self {
            Tok::Ident(s) => TokV::Ident(s@),
            Tok::Lit(s) => TokV::Lit(s@),
            Tok::Punct(c, j) => TokV::Punct(*c, *j),
            Tok::Open(c) => TokV::Open(*c),
            Tok::Close(c) => TokV::Close(*c),
        }
    }
}

impl DeepView for Tok {
    type V = TokV;

    open spec fn deep_view(&self) -> TokV {
        self.view()
    }
}

/// Characters the lexer discards between tokens.
pub open spec fn is_ws(c: char) -> bool {
    c == ' ' || c == '\t' || c == '\n' || c == '\r'
}

/// Characters that may start an identifier.
pub open spec fn is_ident_start(c: char) -> bool {
    (97 <= c as u32 && c as u32 <= 122) || (65 <= c as u32 && c as u32 <= 90) || c == '_'
}

/// Decimal digits.
pub open spec fn is_digit(c: char) -> bool {
    48 <= c as u32 && c as u32 <= 57
}

/// Characters that may continue an identifier.
pub open spec fn is_ident_cont(c: char) -> bool {
    is_ident_start(c) || is_digit(c)
}

pub open spec fn is_open_delim(c: char) -> bool {
    c == '(' || c == '[' || c == '{'
}

pub open spec fn is_close_delim(c: char) -> bool {
    c == ')' || c == ']' || c == '}'
}

/// First position at or after `i` whose character no longer continues an
/// identifier (also used for the body of a number literal).
pub open spec fn ident_end(s: Seq<char>, i: int) -> int
    decreases s.len() - i,
{
    if i < s.len() && is_ident_cont(s[i]) {
        ident_end(s, i + 1)
    } else {
        i
    }
}

pub proof fn lemma_ident_end(s: Seq<char>, i: int)
    requires
        0 <= i <= s.len(),
    ensures
        i <= ident_end(s, i) <= s.len(),
    decreases s.len() - i,
{
    if i < s.len() && is_ident_cont(s[i]) {
        lemma_ident_end(s, i + 1);
    }
}

/// End of a number literal starting at `i`: a run of identifier characters
/// (covering digits, hex forms and suffixes), optionally followed by a
/// fractional part introduced by `.` and a digit.
pub open spec fn number_end(s: Seq<char>, i: int) -> int {
    let j = ident_end(s, i);
    if j + 1 < s.len() && s[j] == '.' && is_digit(s[j + 1]) {
        ident_end(s, j + 1)
    } else {
        j
    }
}

pub proof fn lemma_number_end(s: Seq<char>, i: int)
    requires
        0 <= i <= s.len(),
    ensures
        i <= number_end(s, i) <= s.len(),
        i < s.len() && is_ident_cont(s[i]) ==> i < number_end(s, i),
{
    lemma_ident_end(s, i);
    let j = ident_end(s, i);
    if j + 1 < s.len() && s[j] == '.' && is_digit(s[j + 1]) {
        lemma_ident_end(s, j + 1);
    }
    if i < s.len() && is_ident_cont(s[i]) {
        assert(ident_end(s, i) == ident_end(s, i + 1));
        lemma_ident_end(s, i + 1);
    }
}

/// Position just after the closing quote of a string literal whose opening
/// quote stands at `i - 1`; `None` when the literal never closes.  A `\`
/// makes the next character part of the literal.
pub open spec fn string_end(s: Seq<char>, i: int) -> Option<int>
    decreases s.len() - i,
{
    if i >= s.len() {
        None
    } else if s[i] == '"' {
        Some(i + 1)
    } else if s[i] == '\\' {
        if i + 1 < s.len() {
            string_end(s, i + 2)
        } else {
            None
        }
    } else {
        string_end(s, i + 1)
    }
}

pub proof fn lemma_string_end(s: Seq<char>, i: int)
    requires
        0 <= i <= s.len(),
    ensures
        match string_end(s, i) {
            Some(j) => i < j <= s.len(),
            None => true,
        },
    decreases s.len() - i,
{
    if i < s.len() && s[i] != '"' {
        if s[i] == '\\' {
            if i + 1 < s.len() {
                lemma_string_end(s, i + 2);
            }
        } else {
            lemma_string_end(s, i + 1);
        }
    }
}

/// First position at or after `i` holding a newline, or the end: where a
/// line comment stops.
pub open spec fn comment_end(s: Seq<char>, i: int) -> int
    decreases s.len() - i,
{
    if i < s.len() && s[i] != '\n' {
        comment_end(s, i + 1)
    } else {
        i
    }
}

pub proof fn lemma_comment_end(s: Seq<char>, i: int)
    requires
        0 <= i <= s.len(),
    ensures
        i <= comment_end(s, i) <= s.len(),
    decreases s.len() - i,
{
    if i < s.len() && s[i] != '\n' {
        lemma_comment_end(s, i + 1);
    }
}

/// A punctuation character is `joint` when the next character follows it
/// immediately and is itself printable source (not whitespace, not the
/// start of a line comment).
pub open spec fn joint_at(s: Seq<char>, i: int) -> bool {
    i < s.len() && !is_ws(s[i]) && !(s[i] == '/' && i + 1 < s.len() && s[i + 1] == '/')
}

/// What the lexer does at position `i`.
pub enum Step {
    /// A token and the position just after it.
    Tk(TokV, int),
    /// Whitespace or a comment reaching to the given position.
    Skip(int),
    /// The end of the input.
    End,
    /// An unterminated string literal starting here.
    Fail(int),
}

/// One step of the lexer.
pub open spec fn next_tok(s: Seq<char>, i: int) -> Step {
    if i >= s.len() {
        Step::End
    } else {
        let c = s[i];
        if is_ws(c) {
            Step::Skip(i + 1)
        } else if c == '/' && i + 1 < s.len() && s[i + 1] == '/' {
            Step::Skip(comment_end(s, i + 2))
        } else if is_ident_start(c) {
            Step::Tk(TokV::Ident(s.subrange(i, ident_end(s, i))), ident_end(s, i))
        } else if is_digit(c) {
            Step::Tk(TokV::Lit(s.subrange(i, number_end(s, i))), number_end(s, i))
        } else if c == '"' {
            match string_end(s, i + 1) {
                Some(j) => Step::Tk(TokV::Lit(s.subrange(i, j)), j),
                None => Step::Fail(i),
            }
        } else if c == '\'' {
            if i + 3 < s.len() && s[i + 1] == '\\' && s[i + 3] == '\'' {
                Step::Tk(TokV::Lit(s.subrange(i, i + 4)), i + 4)
            } else if i + 2 < s.len() && s[i + 1] != '\\' && s[i + 1] != '\'' && s[i + 2]
                == '\'' {
                Step::Tk(TokV::Lit(s.subrange(i, i + 3)), i + 3)
            } else {
                Step::Tk(TokV::Punct(c, joint_at(s, i + 1)), i + 1)
            }
        } else if is_open_delim(c) {
            Step::Tk(TokV::Open(c), i + 1)
        } else if is_close_delim(c) {
            Step::Tk(TokV::Close(c), i + 1)
        } else {
            Step::Tk(TokV::Punct(c, joint_at(s, i + 1)), i + 1)
        }
    }
}

pub proof fn lemma_next_tok(s: Seq<char>, i: int)
    requires
        0 <= i <= s.len(),
    ensures
        match next_tok(s, i) {
            Step::Tk(_, j) => i < j <= s.len(),
            Step::Skip(j) => i < j <= s.len(),
            Step::End => i == s.len(),
            Step::Fail(p) => p == i,
        },
{
    if i < s.len() {
        let c = s[i];
        if c == '/' && i + 1 < s.len() && s[i + 1] == '/' {
            lemma_comment_end(s, i + 2);
        }
        if is_ident_start(c) || is_digit(c) {
            lemma_number_end(s, i);
            lemma_ident_end(s, i);
            assert(ident_end(s, i) == ident_end(s, i + 1));
            lemma_ident_end(s, i + 1);
        }
        if c == '"' {
            lemma_string_end(s, i + 1);
        }
    }
}

/// The tokens of the source from position `i` on, or the position of a
/// lexing failure.
pub open spec fn lex_from(s: Seq<char>, i: int) -> Result<Seq<TokV>, int>
    decreases s.len() - i,
        when 0 <= i <= s.len()
        via lex_from_dec
{
    match next_tok(s, i) {
        Step::End => Ok(Seq::empty()),
        Step::Fail(p) => Err(p),
        Step::Skip(j) => lex_from(s, j),
        Step::Tk(t, j) => match lex_from(s, j) {
            Ok(r) => Ok(seq![t] + r),
            Err(e) => Err(e),
        },
    }
}

#[via_fn]
proof fn lex_from_dec(s: Seq<char>, i: int) {
    lemma_next_tok(s, i);
}

/// The lexer's one failure: an unterminated string literal.
#[derive(Debug, Clone, Copy, PartialEq, Eq)]
pub struct LexError {
    /// Character position of the offending literal.
    pub pos: usize,
}

fn ident_start_c(c: char) -> (r: bool)
    ensures
        r == is_ident_start(c),
{
    let u: u32 = c as u32;
    (97 <= u && u <= 122) || (65 <= u && u <= 90) || c == '_'
}

fn digit_c(c: char) -> (r: bool)
    ensures
        r == is_digit(c),
{
    let u: u32 = c as u32;
    48 <= u && u <= 57
}

fn ident_cont_c(c: char) -> (r: bool)
    ensures
        r == is_ident_cont(c),
{
    ident_start_c(c) || digit_c(c)
}

fn ws_c(c: char) -> (r: bool)
    ensures
        r == is_ws(c),
{
    c == ' ' || c == '\t' || c == '\n' || c == '\r'
}

fn scan_cont(src: &Vec<char>, k: usize) -> (j: usize)
    requires
        k <= src.len(),
    ensures
        j as int == ident_end(src@, k as int),
        k <= j <= src.len(),
    decreases src.len() - k,
{
    if k < src.len() && ident_cont_c(src[k]) {
        scan_cont(src, k + 1)
    } else {
        k
    }
}

fn scan_number(src: &Vec<char>, k: usize) -> (j: usize)
    requires
        k <= src.len(),
    ensures
        j as int == number_end(src@, k as int),
        k <= j <= src.len(),
    decreases src.len() - k,
{
    let j = scan_cont(src, k);
    if j < src.len() && src[j] == '.' && j + 1 < src.len() && digit_c(src[j + 1]) {
        scan_cont(src, j + 1)
    } else {
        j
    }
}

fn scan_string(src: &Vec<char>, k: usize) -> (r: Option<usize>)
    requires
        k <= src.len(),
    ensures
        match r {
            Some(j) => string_end(src@, k as int) == Some(j as int) && k < j <= src.len(),
            None => string_end(src@, k as int) is None,
        },
    decreases src.len() - k,
{
    if k >= src.len() {
        None
    } else if src[k] == '"' {
        Some(k + 1)
    } else if src[k] == '\\' {
        if k + 1 < src.len() {
            scan_string(src, k + 2)
        } else {
            None
        }
    } else {
        scan_string(src, k + 1)
    }
}

fn scan_comment(src: &Vec<char>, k: usize) -> (j: usize)
    requires
        k <= src.len(),
    ensures
        j as int == comment_end(src@, k as int),
        k <= j <= src.len(),
    decreases src.len() - k,
{
    if k < src.len() && src[k] != '\n' {
        scan_comment(src, k + 1)
    } else {
        k
    }
}

/// Copy `src[from .. to]` into a fresh vector.
fn copy_range(src: &Vec<char>, from: usize, to: usize) -> (r: Vec<char>)
    requires
        from <= to <= src.len(),
    ensures
        r@ == src@.subrange(from as int, to as int),
{
    let mut out: Vec<char> = Vec::new();
    let mut k: usize = from;
    while k < to
        invariant
            from <= k <= to <= src.len(),
            out@ == src@.subrange(from as int, k as int),
        decreases to - k,
    {
        out.push(src[k]);
        proof {
            assert(out@ =~= src@.subrange(from as int, k + 1 as int));
        }
        k = k + 1;
    }
    out
}

/// Whether the character at `k` makes the punctuation before it joint.
fn joint_c(src: &Vec<char>, k: usize) -> (r: bool)
    requires
        k <= src.len(),
    ensures
        r == joint_at(src@, k as int),
{
    k < src.len() && !ws_c(src[k]) && !(src[k] == '/' && k + 1 < src.len() && src[k + 1] == '/')
}

fn lex_rec(src: &Vec<char>, i: usize, out: &mut Vec<Tok>) -> (r: Result<(), LexError>)
    requires
        i <= src.len(),
    ensures
        match r {
            Ok(_) => lex_from(src@, i as int) is Ok && final(out).deep_view() == old(
                out,
            ).deep_view() + lex_from(src@, i as int)->Ok_0,
            Err(e) => lex_from(src@, i as int) == Err::<Seq<TokV>, int>(e.pos as int),
        },
    decreases src.len() - i,
{
    proof {
        lemma_next_tok(src@, i as int);
    }
    if i >= src.len() {
        proof {
            assert(final(out).deep_view() =~= old(out).deep_view() + Seq::<TokV>::empty());
        }
        return Ok(());
    }
    let c = src[i];
    if ws_c(c) {
        return lex_rec(src, i + 1, out);
    }
    if c == '/' && i + 1 < src.len() && src[i + 1] == '/' {
        let j = scan_comment(src, i + 2);
        return lex_rec(src, j, out);
    }
    let (tok, j): (Tok, usize) = if ident_start_c(c) {
        let j = scan_cont(src, i);
        (Tok::Ident(copy_range(src, i, j)), j)
    } else if digit_c(c) {
        let j = scan_number(src, i);
        (Tok::Lit(copy_range(src, i, j)), j)
    } else if c == '"' {
        match scan_string(src, i + 1) {
            Some(j) => (Tok::Lit(copy_range(src, i, j)), j),
            None => {
                return Err(LexError { pos: i });
            },
        }
    } else if c == '\'' {
        if src.len() - i > 3 && src[i + 1] == '\\' && src[i + 3] == '\'' {
            (Tok::Lit(copy_range(src, i, i + 4)), i + 4)
        } else if src.len() - i > 2 && src[i + 1] != '\\' && src[i + 1] != '\'' && src[i + 2]
            == '\'' {
            (Tok::Lit(copy_range(src, i, i + 3)), i + 3)
        } else {
            (Tok::Punct(c, joint_c(src, i + 1)), i + 1)
        }
    } else if c == '(' || c == '[' || c == '{' {
        (Tok::Open(c), i + 1)
    } else if c == ')' || c == ']' || c == '}' {
        (Tok::Close(c), i + 1)
    } else {
        (Tok::Punct(c, joint_c(src, i + 1)), i + 1)
    };
    let ghost tv = tok@;
    let ghost pre = out.deep_view();
    push_dv(out, tok);
    let res = lex_rec(src, j, out);
    match res {
        Ok(_) => {
            proof {
                let rest = lex_from(src@, j as int)->Ok_0;
                assert(out.deep_view() =~= pre + (seq![tv] + rest));
            }
            Ok(())
        },
        Err(e) => Err(e),
    }
}

/// Append one element, stated over the vector's deep view.
pub fn push_dv<T: DeepView>(out: &mut Vec<T>, x: T)
    ensures
        final(out).deep_view() == old(out).deep_view().push(x.deep_view()),
{
    let ghost pre = out.deep_view();
    let ghost oldv = out@;
    let ghost xg = x;
    out.push(x);
    proof {
        assert(out@ == oldv.push(xg));
        assert(out.deep_view() =~= pre.push(xg.deep_view()));
    }
}

/// The characters a token prints as.  Identifiers and literals end with a
/// space; a joint punctuation character glues to what follows it, as it
/// did in the source; delimiters open tightly and close with a space.
pub open spec fn render_tok(t: TokV) -> Seq<char> {
    match t {
        TokV::Ident(s) => s + seq![' '],
        TokV::Lit(s) => s + seq![' '],
        TokV::Punct(c, j) => if j {
            seq![c]
        } else {
            seq![c, ' ']
        },
        TokV::Open(c) => seq![c],
        TokV::Close(c) => seq![c, ' '],
    }
}

/// The characters a token span prints as, from position `k` on.
pub open spec fn render_toks(ts: Seq<TokV>, k: int) -> Seq<char>
    decreases ts.len() - k,
{
    if 0 <= k < ts.len() {
        render_tok(ts[k]) + render_toks(ts, k + 1)
    } else {
        Seq::empty()
    }
}

/// Print one token at the end of `out`.
pub fn render_tok_into(out: &mut Vec<char>, t: &Tok)
    ensures
        final(out)@ == old(out)@ + render_tok(t@),
{
    let ghost pre = out@;
    match t {
        Tok::Ident(s) => {
            push_chars(out, s);
            out.push(' ');
            proof {
                assert((pre + s@).push(' ') =~= pre + (s@ + seq![' ']));
            }
        },
        Tok::Lit(s) => {
            push_chars(out, s);
            out.push(' ');
            proof {
                assert((pre + s@).push(' ') =~= pre + (s@ + seq![' ']));
            }
        },
        Tok::Punct(c, j) => {
            out.push(*c);
            if !*j {
                out.push(' ');
                proof {
                    assert(pre.push(*c).push(' ') =~= pre + seq![*c, ' ']);
                }
            } else {
                proof {
                    assert(pre.push(*c) =~= pre + seq![*c]);
                }
            }
        },
        Tok::Open(c) => {
            out.push(*c);
            proof {
                assert(pre.push(*c) =~= pre + seq![*c]);
            }
        },
        Tok::Close(c) => {
            out.push(*c);
            out.push(' ');
            proof {
                assert(pre.push(*c).push(' ') =~= pre + seq![*c, ' ']);
            }
        },
    }
}

/// Print a whole token span at the end of `out`.
pub fn render_toks_into(out: &mut Vec<char>, ts: &Vec<Tok>)
    ensures
        final(out)@ == old(out)@ + render_toks(ts.deep_view(), 0),
{
    let ghost pre = out@;
    let ghost dv = ts.deep_view();
    let mut k: usize = 0;
    while k < ts.len()
        invariant
            k <= ts.len(),
            dv == ts.deep_view(),
            dv.len() == ts@.len(),
            out@ + render_toks(dv, k as int) == pre + render_toks(dv, 0),
        decreases ts.len() - k,
    {
        proof {
            assert(dv[k as int] == ts@[k as int]@);
        }
        let ghost before = out@;
        render_tok_into(out, &ts[k]);
        proof {
            assert((before + render_tok(dv[k as int])) + render_toks(dv, k as int + 1) =~= before
                + (render_tok(dv[k as int]) + render_toks(dv, k as int + 1)));
        }
        k = k + 1;
    }
    proof {
        assert(out@ + Seq::<char>::empty() =~= out@);
    }
}

/// Whether a character vector spells the given string.
pub fn chars_eq_str(v: &Vec<char>, s: &str) -> (r: bool)
    ensures
        r == (v@ == s@),
{
    let n = s.unicode_len();
    if v.len() != n {
        proof {
            assert(v@.len() != s@.len());
        }
        return false;
    }
    let mut k: usize = 0;
    while k < n
        invariant
            k <= n,
            n == s@.len(),
            v@.len() == n,
            forall|m: int| 0 <= m < k ==> v@[m] == s@[m],
        decreases n - k,
    {
        if v[k] != s.get_char(k) {
            return false;
        }
        k = k + 1;
    }
    proof {
        assert(v@ =~= s@);
    }
    true
}

/// Whether two character vectors spell the same word.
pub fn chars_eq(a: &Vec<char>, b: &Vec<char>) -> (r: bool)
    ensures
        r == (a@ == b@),
{
    if a.len() != b.len() {
        proof {
            assert(a@.len() != b@.len());
        }
        return false;
    }
    let mut k: usize = 0;
    while k < a.len()
        invariant
            k <= a.len(),
            a@.len() == b@.len(),
            forall|m: int| 0 <= m < k ==> a@[m] == b@[m],
        decreases a.len() - k,
    {
        if a[k] != b[k] {
            return false;
        }
        k = k + 1;
    }
    proof {
        assert(a@ =~= b@);
    }
    true
}

/// A fresh copy of a character vector.
pub fn copy_chars(v: &Vec<char>) -> (r: Vec<char>)
    ensures
        r@ == v@,
{
    let r = copy_range(v, 0, v.len());
    proof {
        assert(v@.subrange(0, v@.len() as int) =~= v@);
    }
    r
}

/// A fresh copy of a token.
pub fn copy_tok(t: &Tok) -> (r: Tok)
    ensures
        r@ == t@,
{
    match t {
        Tok::Ident(s) => Tok::Ident(copy_chars(s)),
        Tok::Lit(s) => Tok::Lit(copy_chars(s)),
        Tok::Punct(c, j) => Tok::Punct(*c, *j),
        Tok::Open(c) => Tok::Open(*c),
        Tok::Close(c) => Tok::Close(*c),
    }
}

/// Append every character of `s` to `out`.
pub fn push_str(out: &mut Vec<char>, s: &str)
    ensures
        final(out)@ == old(out)@ + s@,
{
    let n = s.unicode_len();
    let mut k: usize = 0;
    while k < n
        invariant
            k <= n,
            n == s@.len(),
            out@ == old(out)@ + s@.subrange(0, k as int),
        decreases n - k,
    {
        out.push(s.get_char(k));
        proof {
            assert(old(out)@ + s@.subrange(0, k + 1 as int) =~= (old(out)@ + s@.subrange(
                0,
                k as int,
            )).push(s@[k as int]));
        }
        k = k + 1;
    }
    proof {
        assert(s@.subrange(0, n as int) =~= s@);
    }
}

/// Append every character of `s` to `out`.
pub fn push_chars(out: &mut Vec<char>, s: &Vec<char>)
    ensures
        final(out)@ == old(out)@ + s@,
{
    let mut k: usize = 0;
    while k < s.len()
        invariant
            k <= s.len(),
            out@ == old(out)@ + s@.subrange(0, k as int),
        decreases s.len() - k,
    {
        out.push(s[k]);
        proof {
            assert(old(out)@ + s@.subrange(0, k + 1 as int) =~= (old(out)@ + s@.subrange(
                0,
                k as int,
            )).push(s@[k as int]));
        }
        k = k + 1;
    }
    proof {
        assert(s@.subrange(0, s@.len() as int) =~= s@);
    }
}

/// The characters of a string, as a vector.
pub fn str_to_chars(s: &str) -> (r: Vec<char>)
    ensures
        r@ == s@,
{
    let mut out: Vec<char> = Vec::new();
    push_str(&mut out, s);
    proof {
        assert(Seq::<char>::empty() + s@ =~= s@);
    }
    out
}

/// Lex the whole source into tokens, or report the position of an
/// unterminated literal.
pub fn lex(src: &Vec<char>) -> (r: Result<Vec<Tok>, LexError>)
    ensures
        match r {
            Ok(toks) => lex_from(src@, 0) == Ok::<Seq<TokV>, int>(toks.deep_view()),
            Err(e) => lex_from(src@, 0) == Err::<Seq<TokV>, int>(e.pos as int),
        },
{
    let mut out: Vec<Tok> = Vec::new();
    proof {
        assert(out.deep_view() =~= Seq::<TokV>::empty());
    }
    match lex_rec(src, 0, &mut out) {
        Ok(_) => {
            proof {
                assert(Seq::<TokV>::empty() + lex_from(src@, 0)->Ok_0 =~= lex_from(
                    src@,
                    0,
                )->Ok_0);
            }
            Ok(out)
        },
        Err(e) => Err(e),
    }
}

} // verus!
