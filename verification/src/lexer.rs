//! The tokenizer: turns one logical line of configuration source text
//! into tokens (keywords and identifiers, string literals, operators).
//! Whitespace only separates tokens; a `#` starts a comment that runs to
//! the end of the line.  The spec functions below define both the line
//! splitting and the token automaton exactly; the executable code is
//! proved to return precisely what they describe.

use vstd::prelude::*;

use crate::text::string_of;

verus! {

/// A token of one source line.
#[derive(Debug)]
pub enum Tok {
    /// A keyword, identifier or bare number.
    Word(String),
    /// A quoted string literal, unescaped.
    Str(String),
    /// `!`
    Bang,
    /// `&&`
    AndAnd,
    /// `||`
    OrOr,
    /// `(`
    LParen,
    /// `)`
    RParen,
    /// `=`
    Eq,
    /// `!=`
    Neq,
}

/// The mathematical shape of a token: text fields as character sequences.
pub enum TokView {
    Word(Seq<char>),
    Str(Seq<char>),
    Bang,
    AndAnd,
    OrOr,
    LParen,
    RParen,
    Eq,
    Neq,
}

/// The shape of one token.
pub open spec fn tok_view(t: Tok) -> TokView {
    match t {
        Tok::Word(w) => TokView::Word(w@),
        Tok::Str(s) => TokView::Str(s@),
        Tok::Bang => TokView::Bang,
        Tok::AndAnd => TokView::AndAnd,
        Tok::OrOr => TokView::OrOr,
        Tok::LParen => TokView::LParen,
        Tok::RParen => TokView::RParen,
        Tok::Eq => TokView::Eq,
        Tok::Neq => TokView::Neq,
    }
}

/// The shapes of a token list.
pub open spec fn toks_views(ts: Seq<Tok>) -> Seq<TokView> {
    ts.map_values(|t: Tok| tok_view(t))
}

/// A malformed token: an unterminated string literal (`unterminated`) or
/// an invalid escape sequence, with the line it sits on.
#[derive(Debug)]
pub struct LexError {
    pub line: usize,
    pub unterminated: bool,
}

/// Whether `c` separates tokens.
pub open spec fn spec_is_space(c: char) -> bool {
    c == ' ' || c == '\t' || c == '\r'
}

fn is_space(c: char) -> (r: bool)
    ensures
        r == spec_is_space(c),
{
    c == ' ' || c == '\t' || c == '\r'
}

/// Whether `c` can stand inside a bare word.
pub open spec fn spec_is_word_char(c: char) -> bool {
    !(spec_is_space(c) || c == '"' || c == '(' || c == ')' || c == '!' || c == '&' || c == '|' || c
        == '=' || c == '#')
}

fn is_word_char(c: char) -> (r: bool)
    ensures
        r == spec_is_word_char(c),
{
    !(c == ' ' || c == '\t' || c == '\r' || c == '"' || c == '(' || c == ')' || c == '!' || c == '&'
        || c == '|' || c == '=' || c == '#')
}

/// The scan of a string literal's body from position `j`: the unescaped
/// text and the position after the closing quote, or `Err(true)` for an
/// unterminated literal and `Err(false)` for an invalid escape (only
/// `\"` and `\\` are accepted).
pub open spec fn spec_scan_str(c: Seq<char>, j: int, acc: Seq<char>) -> Result<(Seq<char>, int), bool>
    decreases c.len() - j
        when 0 <= j <= c.len()
{
    if j >= c.len() {
        Err(true)
    } else if c[j] == '"' {
        Ok((acc, j + 1))
    } else if c[j] == '\\' {
        if j + 1 >= c.len() {
            Err(true)
        } else if c[j + 1] == '"' || c[j + 1] == '\\' {
            spec_scan_str(c, j + 2, acc.push(c[j + 1]))
        } else {
            Err(false)
        }
    } else {
        spec_scan_str(c, j + 1, acc.push(c[j]))
    }
}

/// A successful literal scan lands strictly past its start, within the
/// line.
proof fn lemma_scan_str_bounds(c: Seq<char>, j: int, acc: Seq<char>)
    requires
        0 <= j <= c.len(),
    ensures
        spec_scan_str(c, j, acc) matches Ok(p) ==> j < p.1 <= c.len(),
    decreases c.len() - j,
{
    if j < c.len() {
        if c[j] == '"' {
        } else if c[j] == '\\' {
            if j + 1 < c.len() && (c[j + 1] == '"' || c[j + 1] == '\\') {
                lemma_scan_str_bounds(c, j + 2, acc.push(c[j + 1]));
            }
        } else {
            lemma_scan_str_bounds(c, j + 1, acc.push(c[j]));
        }
    }
}

/// The end of the word run that starts at `j`.
pub open spec fn spec_word_end(c: Seq<char>, j: int) -> int
    decreases c.len() - j
        when 0 <= j <= c.len()
{
    if j >= c.len() || !spec_is_word_char(c[j]) {
        j
    } else {
        spec_word_end(c, j + 1)
    }
}

/// A scan that saw word characters up to `k` and a boundary at `k` pins
/// the word's end.
proof fn lemma_word_end_stop(c: Seq<char>, j: int, k: int)
    requires
        0 <= j <= k <= c.len(),
        forall|q: int| j <= q < k ==> spec_is_word_char(#[trigger] c[q]),
        k < c.len() ==> !spec_is_word_char(c[k]),
    ensures
        spec_word_end(c, j) == k,
    decreases k - j,
{
    if j < k {
        lemma_word_end_stop(c, j + 1, k);
    }
}

proof fn lemma_word_end_bounds(c: Seq<char>, j: int)
    requires
        0 <= j <= c.len(),
    ensures
        j <= spec_word_end(c, j) <= c.len(),
    decreases c.len() - j,
{
    if j < c.len() && spec_is_word_char(c[j]) {
        lemma_word_end_bounds(c, j + 1);
    }
}

/// The tokens of one line from position `i` on: spaces are skipped, `#`
/// ends the line, `"` opens a string literal, the operators are `(`,
/// `)`, `=`, `!`, `!=`, `&&` and `||` (a lone `&` or `|` is malformed,
/// reported like an invalid escape), and any other character opens a
/// word.
pub open spec fn spec_lex(c: Seq<char>, i: int) -> Result<Seq<TokView>, bool>
    decreases c.len() - i
        when 0 <= i <= c.len()
        via spec_lex_decreases
{
    if i >= c.len() {
        Ok(Seq::empty())
    } else if spec_is_space(c[i]) {
        spec_lex(c, i + 1)
    } else if c[i] == '#' {
        Ok(Seq::empty())
    } else if c[i] == '"' {
        match spec_scan_str(c, i + 1, Seq::empty()) {
            Err(b) => Err(b),
            Ok((lit, j)) => match spec_lex(c, j) {
                Err(b) => Err(b),
                Ok(ts) => Ok(seq![TokView::Str(lit)] + ts),
            },
        }
    } else if c[i] == '(' {
        spec_lex_cons(TokView::LParen, spec_lex(c, i + 1))
    } else if c[i] == ')' {
        spec_lex_cons(TokView::RParen, spec_lex(c, i + 1))
    } else if c[i] == '=' {
        spec_lex_cons(TokView::Eq, spec_lex(c, i + 1))
    } else if c[i] == '!' {
        if i + 1 < c.len() && c[i + 1] == '=' {
            spec_lex_cons(TokView::Neq, spec_lex(c, i + 2))
        } else {
            spec_lex_cons(TokView::Bang, spec_lex(c, i + 1))
        }
    } else if c[i] == '&' {
        if i + 1 < c.len() && c[i + 1] == '&' {
            spec_lex_cons(TokView::AndAnd, spec_lex(c, i + 2))
        } else {
            Err(false)
        }
    } else if c[i] == '|' {
        if i + 1 < c.len() && c[i + 1] == '|' {
            spec_lex_cons(TokView::OrOr, spec_lex(c, i + 2))
        } else {
            Err(false)
        }
    } else {
        let e = spec_word_end(c, i + 1);
        spec_lex_cons(TokView::Word(c.subrange(i, e)), spec_lex(c, e))
    }
}

/// A token in front of the rest of a lex result.
pub open spec fn spec_lex_cons(tv: TokView, rest: Result<Seq<TokView>, bool>) -> Result<
    Seq<TokView>,
    bool,
> {
    match rest {
        Err(b) => Err(b),
        Ok(ts) => Ok(seq![tv] + ts),
    }
}

#[via_fn]
proof fn spec_lex_decreases(c: Seq<char>, i: int) {
    if 0 <= i < c.len() {
        if c[i] == '"' {
            lemma_scan_str_bounds(c, i + 1, Seq::empty());
        }
        lemma_word_end_bounds(c, i + 1);
    }
}

/// A lex prefix in front of the rest of a lex result.
pub open spec fn spec_lex_join(prefix: Seq<TokView>, rest: Result<Seq<TokView>, bool>) -> Result<
    Seq<TokView>,
    bool,
> {
    match rest {
        Err(b) => Err(b),
        Ok(ts) => Ok(prefix + ts),
    }
}

/// Tokenizes one logical line: returns exactly the tokens [`spec_lex`]
/// describes, and fails exactly where it does — with `unterminated` for
/// an unterminated string literal, and without it for an invalid escape
/// sequence or a lone `&` or `|`.
pub fn lex_line(chars: &Vec<char>, line_no: usize) -> (r: Result<Vec<Tok>, LexError>)
    ensures
        match spec_lex(chars@, 0) {
            Ok(tvs) => r matches Ok(ts) && toks_views(ts@) == tvs,
            Err(b) => r matches Err(e) && e.unterminated == b && e.line == line_no,
        },
{
    let mut toks: Vec<Tok> = Vec::new();
    let n = chars.len();
    let mut i: usize = 0;
    proof {
        assert(toks_views(toks@) =~= Seq::<TokView>::empty());
        lemma_join_empty_prefix(spec_lex(chars@, 0));
    }
    while i < n
        invariant
            n == chars@.len(),
            i <= n,
            spec_lex(chars@, 0) == spec_lex_join(toks_views(toks@), spec_lex(chars@, i as int)),
        decreases n - i,
    {
        let ghost pre = toks_views(toks@);
        let c = chars[i];
        if is_space(c) {
            i = i + 1;
        } else if c == '#' {
            proof {
                assert(spec_lex(chars@, i as int) == Ok::<Seq<TokView>, bool>(Seq::empty()));
                lemma_join_empty_rest(pre);
            }
            return Ok(toks);
        } else if c == '"' {
            let mut lit: Vec<char> = Vec::new();
            let mut j = i + 1;
            let mut closed = false;
            proof {
                assert(lit@ =~= Seq::<char>::empty());
            }
            while j < n && !closed
                invariant
                    n == chars@.len(),
                    i < j <= n,
                    chars@[i as int] == '"',
                    spec_lex(chars@, 0) == spec_lex_join(
                        toks_views(toks@),
                        spec_lex(chars@, i as int),
                    ),
                    !closed ==> spec_scan_str(chars@, i + 1 as int, Seq::empty())
                        == spec_scan_str(chars@, j as int, lit@),
                    closed ==> spec_scan_str(chars@, i + 1 as int, Seq::empty()) == Ok::<
                        (Seq<char>, int),
                        bool,
                    >((lit@, j as int)),
                decreases n - j, if closed { 0int } else { 1int },
            {
                let d = chars[j];
                if d == '"' {
                    closed = true;
                    j = j + 1;
                } else if d == '\\' {
                    if j + 1 >= n {
                        return Err(LexError { line: line_no, unterminated: true });
                    }
                    let e = chars[j + 1];
                    if e == '"' || e == '\\' {
                        lit.push(e);
                        j = j + 2;
                    } else {
                        return Err(LexError { line: line_no, unterminated: false });
                    }
                } else {
                    lit.push(d);
                    j = j + 1;
                }
            }
            if !closed {
                return Err(LexError { line: line_no, unterminated: true });
            }
            toks.push(Tok::Str(string_of(&lit)));
            proof {
                assert(toks_views(toks@) =~= pre + seq![TokView::Str(lit@)]);
                match spec_lex(chars@, j as int) {
                    Ok(ts) => {
                        assert(pre + (seq![TokView::Str(lit@)] + ts) =~= toks_views(toks@) + ts);
                    },
                    Err(_) => {},
                }
            }
            i = j;
        } else if c == '(' {
            toks.push(Tok::LParen);
            proof {
                lemma_lex_step(pre, TokView::LParen, chars@, i + 1 as int);
                assert(toks_views(toks@) =~= pre + seq![TokView::LParen]);
            }
            i = i + 1;
        } else if c == ')' {
            toks.push(Tok::RParen);
            proof {
                lemma_lex_step(pre, TokView::RParen, chars@, i + 1 as int);
                assert(toks_views(toks@) =~= pre + seq![TokView::RParen]);
            }
            i = i + 1;
        } else if c == '=' {
            toks.push(Tok::Eq);
            proof {
                lemma_lex_step(pre, TokView::Eq, chars@, i + 1 as int);
                assert(toks_views(toks@) =~= pre + seq![TokView::Eq]);
            }
            i = i + 1;
        } else if c == '!' {
            if i + 1 < n && chars[i + 1] == '=' {
                toks.push(Tok::Neq);
                proof {
                    lemma_lex_step(pre, TokView::Neq, chars@, i + 2 as int);
                    assert(toks_views(toks@) =~= pre + seq![TokView::Neq]);
                }
                i = i + 2;
            } else {
                toks.push(Tok::Bang);
                proof {
                    lemma_lex_step(pre, TokView::Bang, chars@, i + 1 as int);
                    assert(toks_views(toks@) =~= pre + seq![TokView::Bang]);
                }
                i = i + 1;
            }
        } else if c == '&' {
            if i + 1 < n && chars[i + 1] == '&' {
                toks.push(Tok::AndAnd);
                proof {
                    lemma_lex_step(pre, TokView::AndAnd, chars@, i + 2 as int);
                    assert(toks_views(toks@) =~= pre + seq![TokView::AndAnd]);
                }
                i = i + 2;
            } else {
                return Err(LexError { line: line_no, unterminated: false });
            }
        } else if c == '|' {
            if i + 1 < n && chars[i + 1] == '|' {
                toks.push(Tok::OrOr);
                proof {
                    lemma_lex_step(pre, TokView::OrOr, chars@, i + 2 as int);
                    assert(toks_views(toks@) =~= pre + seq![TokView::OrOr]);
                }
                i = i + 2;
            } else {
                return Err(LexError { line: line_no, unterminated: false });
            }
        } else {
            let mut word: Vec<char> = Vec::new();
            word.push(c);
            let mut j = i + 1;
            proof {
                assert(word@ =~= chars@.subrange(i as int, i + 1 as int));
            }
            while j < n && is_word_char(chars[j])
                invariant
                    n == chars@.len(),
                    i < j <= n,
                    word@ == chars@.subrange(i as int, j as int),
                    forall|q: int| i + 1 <= q < j ==> spec_is_word_char(#[trigger] chars@[q]),
                decreases n - j,
            {
                word.push(chars[j]);
                j = j + 1;
                proof {
                    assert(word@ =~= chars@.subrange(i as int, j as int));
                }
            }
            proof {
                lemma_word_end_stop(chars@, i + 1 as int, j as int);
            }
            toks.push(Tok::Word(string_of(&word)));
            proof {
                lemma_lex_step(pre, TokView::Word(word@), chars@, j as int);
                assert(toks_views(toks@) =~= pre + seq![TokView::Word(word@)]);
            }
            i = j;
        }
    }
    proof {
        assert(spec_lex(chars@, n as int) == Ok::<Seq<TokView>, bool>(Seq::empty()));
        lemma_join_empty_rest(toks_views(toks@));
    }
    Ok(toks)
}

/// An empty prefix changes nothing in the lex decomposition.
proof fn lemma_join_empty_prefix(r: Result<Seq<TokView>, bool>)
    ensures
        spec_lex_join(Seq::empty(), r) == r,
{
    match r {
        Ok(ts) => {
            assert(Seq::<TokView>::empty() + ts =~= ts);
        },
        Err(_) => {},
    }
}

/// An exhausted rest leaves exactly the prefix.
proof fn lemma_join_empty_rest(pre: Seq<TokView>)
    ensures
        spec_lex_join(pre, Ok(Seq::empty())) == Ok::<Seq<TokView>, bool>(pre),
{
    assert(pre + Seq::<TokView>::empty() =~= pre);
}

/// Consuming one token re-associates the lex decomposition.
proof fn lemma_lex_step(pre: Seq<TokView>, tv: TokView, c: Seq<char>, next: int)
    ensures
        spec_lex_join(pre, spec_lex_cons(tv, spec_lex(c, next))) == spec_lex_join(
            pre + seq![tv],
            spec_lex(c, next),
        ),
{
    match spec_lex(c, next) {
        Err(_) => {},
        Ok(ts) => {
            assert(pre + (seq![tv] + ts) =~= (pre + seq![tv]) + ts);
        },
    }
}

/// One logical line of a source file: its text (continuations joined) and
/// the number of the physical line it started on.
#[derive(Debug)]
pub struct SourceLine {
    pub text: Vec<char>,
    pub number: usize,
}

/// The shapes of a logical-line list.
pub open spec fn line_views(ls: Seq<SourceLine>) -> Seq<(Seq<char>, int)> {
    ls.map_values(|l: SourceLine| (l.text@, l.number as int))
}

/// One logical line gathered from position `j` with the text so far and
/// the current physical line number: the finished text, the position
/// after the line, and the next physical line number.  A backslash at the
/// end of a physical line joins it with the next, the backslash read as a
/// space.
pub open spec fn spec_gather_line(c: Seq<char>, j: int, text: Seq<char>, lineno: int) -> (
    Seq<char>,
    int,
    int,
)
    decreases c.len() - j
        when 0 <= j <= c.len()
{
    if j >= c.len() {
        (text, j, lineno)
    } else if c[j] == '\n' {
        let ln2 = if lineno < usize::MAX {
            lineno + 1
        } else {
            lineno
        };
        if text.len() > 0 && text.last() == '\\' {
            spec_gather_line(c, j + 1, text.drop_last().push(' '), ln2)
        } else {
            (text, j + 1, ln2)
        }
    } else {
        spec_gather_line(c, j + 1, text.push(c[j]), lineno)
    }
}

/// Gathering a line from inside the text consumes at least one character
/// and stays within it.
proof fn lemma_gather_line_bounds(c: Seq<char>, j: int, text: Seq<char>, lineno: int)
    requires
        0 <= j <= c.len(),
    ensures
        spec_gather_line(c, j, text, lineno).1 <= c.len(),
        j < c.len() ==> j < spec_gather_line(c, j, text, lineno).1,
        j >= c.len() ==> spec_gather_line(c, j, text, lineno).1 == j,
    decreases c.len() - j,
{
    if j < c.len() {
        if c[j] == '\n' {
            let ln2 = if lineno < usize::MAX {
                lineno + 1
            } else {
                lineno
            };
            if text.len() > 0 && text.last() == '\\' {
                lemma_gather_line_bounds(c, j + 1, text.drop_last().push(' '), ln2);
            }
        } else {
            lemma_gather_line_bounds(c, j + 1, text.push(c[j]), lineno);
        }
    }
}

/// The logical lines of the text from position `i` on, numbering them
/// from `lineno`.
pub open spec fn spec_split_lines(c: Seq<char>, i: int, lineno: int) -> Seq<(Seq<char>, int)>
    decreases c.len() - i
        when 0 <= i <= c.len()
        via spec_split_lines_decreases
{
    if i >= c.len() {
        Seq::empty()
    } else {
        let (text, j, ln2) = spec_gather_line(c, i, Seq::empty(), lineno);
        seq![(text, lineno)] + spec_split_lines(c, j, ln2)
    }
}

#[via_fn]
proof fn spec_split_lines_decreases(c: Seq<char>, i: int, lineno: int) {
    if 0 <= i < c.len() {
        lemma_gather_line_bounds(c, i, Seq::empty(), lineno);
    }
}

/// Splits source text into logical lines: physical lines are cut at
/// newlines, a line ending in a backslash is joined with the next, and
/// each logical line carries the number of the physical line it started
/// on.  Returns exactly what [`spec_split_lines`] describes.
pub fn split_lines(content: &Vec<char>) -> (r: Vec<SourceLine>)
    ensures
        line_views(r@) == spec_split_lines(content@, 0, 1),
{
    let mut lines: Vec<SourceLine> = Vec::new();
    let n = content.len();
    let mut i: usize = 0;
    let mut lineno: usize = 1;
    proof {
        assert(line_views(lines@) =~= Seq::<(Seq<char>, int)>::empty());
        assert(line_views(lines@) + spec_split_lines(content@, 0, 1) =~= spec_split_lines(
            content@,
            0,
            1,
        ));
    }
    while i < n
        invariant
            n == content@.len(),
            i <= n,
            1 <= lineno,
            spec_split_lines(content@, 0, 1) == line_views(lines@) + spec_split_lines(
                content@,
                i as int,
                lineno as int,
            ),
        decreases n - i,
    {
        let start_no = lineno;
        let mut text: Vec<char> = Vec::new();
        let mut j = i;
        let mut done = false;
        proof {
            assert(text@ =~= Seq::<char>::empty());
        }
        while j < n && !done
            invariant
                n == content@.len(),
                i <= j <= n,
                start_no <= lineno,
                !done ==> spec_gather_line(content@, i as int, Seq::empty(), start_no as int)
                    == spec_gather_line(content@, j as int, text@, lineno as int),
                done ==> spec_gather_line(content@, i as int, Seq::empty(), start_no as int) == (
                    text@,
                    j as int,
                    lineno as int,
                ),
            decreases n - j, if done { 0int } else { 1int },
        {
            let c = content[j];
            if c == '\n' {
                if lineno < usize::MAX {
                    lineno = lineno + 1;
                }
                if text.len() > 0 && text[text.len() - 1] == '\\' {
                    let _ = text.pop();
                    text.push(' ');
                    j = j + 1;
                } else {
                    j = j + 1;
                    done = true;
                }
            } else {
                text.push(c);
                j = j + 1;
            }
        }
        let ghost g = spec_gather_line(content@, i as int, Seq::empty(), start_no as int);
        proof {
            lemma_gather_line_bounds(content@, i as int, Seq::empty(), start_no as int);
            if !done {
                assert(spec_gather_line(content@, j as int, text@, lineno as int) == (
                    text@,
                    j as int,
                    lineno as int,
                ));
            }
            assert(g.0 == text@ && g.1 == j as int && g.2 == lineno as int);
            assert(i < j);
        }
        let ghost pre_lines = lines@;
        lines.push(SourceLine { text, number: start_no });
        proof {
            assert(line_views(lines@) =~= line_views(pre_lines) + seq![(g.0, start_no as int)]);
            assert((line_views(pre_lines) + seq![(g.0, start_no as int)]) + spec_split_lines(
                content@,
                g.1,
                g.2,
            ) =~= line_views(pre_lines) + (seq![(g.0, start_no as int)] + spec_split_lines(
                content@,
                g.1,
                g.2,
            )));
        }
        i = j;
    }
    proof {
        assert(line_views(lines@) + Seq::<(Seq<char>, int)>::empty() =~= line_views(lines@));
    }
    lines
}

} // verus!
