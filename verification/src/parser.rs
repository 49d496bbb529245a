//! The recursive parser: consumes logical lines of configuration source
//! into the entry tree, resolving `source` directives by splicing the
//! referenced file's entries in place.
//!
//! The parser works over a set of already-loaded files, each under its
//! tree-root-relative path; a `source` path is looked up in that set.  An
//! explicit inclusion stack of file indices guards against cyclic
//! sourcing: re-entering a file that is still open fails fast with
//! [`ParseError::CyclicSource`] instead of recursing forever.

use vstd::prelude::*;

use crate::ast::{
    Ast, ChoiceEntry, CommentEntry, ConfigEntry, DefaultClause, DefaultValue, Entry, MenuEntry,
    RangeClause, SelectClause,
};
use crate::expr::{Expr, ExprTerm};
use crate::lexer::{
    lex_line, line_views, spec_lex, spec_split_lines, split_lines, toks_views, LexError,
    SourceLine, Tok, TokView,
};
use crate::resolve::{ints, lemma_vis_bound, lemma_vis_push, vis_contains, vis_push, wf_vis};
use crate::text::{chars_of, parse_hex, parse_int, str_eq, string_of};
use crate::tristate::Tristate;
use crate::value::SymbolType;

verus! {

/// One source file handed to the parser, under its tree-root-relative
/// path.
#[derive(Debug)]
pub struct SourceFile {
    pub path: String,
    pub content: String,
}

/// A structural grammar violation; fatal to the whole parse.
#[derive(Debug)]
pub enum ParseError {
    /// A `source` directive re-entered a file that is still being parsed.
    CyclicSource { path: String },
    /// A `source` directive named a file that is not in the given set,
    /// with the inclusion chain that led to it.
    SourceNotFound { path: String, chain: Vec<String> },
    /// A block was still open when its file ended.
    UnterminatedBlock { kind: String, opened_at: usize },
    /// A line that fits no production, with its line number.
    UnexpectedToken { line: usize },
    /// A condition expression that cannot be parsed, with its line number.
    MalformedExpression { line: usize },
    /// A malformed token.
    Lex(LexError),
}

/// What an attribute line may currently attach to.
enum Cur {
    Idle,
    Conf(ConfigEntry, bool),
    Com(CommentEntry),
}

/// Loose attributes of a block, used when the block is a choice (and for
/// a menu's own `depends on` lines).
struct BlockMeta {
    prompt: Option<String>,
    symbol_type: SymbolType,
    is_optional: bool,
    depends: Vec<Expr>,
}

fn word_is(w: &String, lit: &str) -> (r: bool)
    ensures
        r == (w@ == lit@),
{
    str_eq(w.as_str(), lit)
}

/// The comparison operand a bare word denotes: `y`, `m` and `n` are
/// tristate literals, anything else is a symbol reference.
fn term_of(w: &String) -> ExprTerm {
    proof {
        reveal_strlit("y");
        reveal_strlit("m");
        reveal_strlit("n");
    }
    if word_is(w, "y") {
        ExprTerm::Literal(Tristate::Yes)
    } else if word_is(w, "m") {
        ExprTerm::Literal(Tristate::Module)
    } else if word_is(w, "n") {
        ExprTerm::Literal(Tristate::No)
    } else {
        ExprTerm::Symbol(w.clone())
    }
}

/// The expression a bare word denotes.
fn atom_of(w: &String) -> Expr {
    match term_of(w) {
        ExprTerm::Literal(t) => Expr::Literal(t),
        ExprTerm::Symbol(s) => Expr::Symbol(s),
    }
}

/// Parses a disjunction (`||`-separated conjunctions), the lowest
/// precedence level.
fn parse_or(toks: &Vec<Tok>, i: usize, line: usize) -> (r: Result<(Expr, usize), ParseError>)
    ensures
        r matches Ok(p) ==> i < p.1 <= toks@.len(),
    decreases toks@.len() - i, 3int,
{
    let (mut l, mut j) = match parse_and(toks, i, line) {
        Ok(p) => p,
        Err(e) => {
            return Err(e);
        },
    };
    while j < toks.len() && matches!(toks[j], Tok::OrOr)
        invariant
            i < j <= toks@.len(),
        decreases toks@.len() - j,
    {
        let (r2, j2) = match parse_and(toks, j + 1, line) {
            Ok(p) => p,
            Err(e) => {
                return Err(e);
            },
        };
        l = Expr::Or(Box::new(l), Box::new(r2));
        j = j2;
    }
    Ok((l, j))
}

/// Parses a conjunction (`&&`-separated factors).
fn parse_and(toks: &Vec<Tok>, i: usize, line: usize) -> (r: Result<(Expr, usize), ParseError>)
    ensures
        r matches Ok(p) ==> i < p.1 <= toks@.len(),
    decreases toks@.len() - i, 2int,
{
    let (mut l, mut j) = match parse_primary(toks, i, line) {
        Ok(p) => p,
        Err(e) => {
            return Err(e);
        },
    };
    while j < toks.len() && matches!(toks[j], Tok::AndAnd)
        invariant
            i < j <= toks@.len(),
        decreases toks@.len() - j,
    {
        let (r2, j2) = match parse_primary(toks, j + 1, line) {
            Ok(p) => p,
            Err(e) => {
                return Err(e);
            },
        };
        l = Expr::And(Box::new(l), Box::new(r2));
        j = j2;
    }
    Ok((l, j))
}

/// Parses a negation, a parenthesized expression, or a term (optionally
/// compared with `=` or `!=`).
fn parse_primary(toks: &Vec<Tok>, i: usize, line: usize) -> (r: Result<(Expr, usize), ParseError>)
    ensures
        r matches Ok(p) ==> i < p.1 <= toks@.len(),
    decreases toks@.len() - i, 1int,
{
    if i >= toks.len() {
        return Err(ParseError::MalformedExpression { line });
    }
    match &toks[i] {
        Tok::Bang => {
            match parse_primary(toks, i + 1, line) {
                Ok((e, j)) => Ok((Expr::Not(Box::new(e)), j)),
                Err(e) => Err(e),
            }
        },
        Tok::LParen => {
            match parse_or(toks, i + 1, line) {
                Ok((e, j)) => {
                    if j < toks.len() && matches!(toks[j], Tok::RParen) {
                        Ok((e, j + 1))
                    } else {
                        Err(ParseError::MalformedExpression { line })
                    }
                },
                Err(e) => Err(e),
            }
        },
        Tok::Word(w) => {
            if i + 1 < toks.len() && matches!(toks[i + 1], Tok::Eq) {
                if i + 2 < toks.len() {
                    match &toks[i + 2] {
                        Tok::Word(w2) => Ok((Expr::Equals(term_of(w), term_of(w2)), i + 3)),
                        _ => Err(ParseError::MalformedExpression { line }),
                    }
                } else {
                    Err(ParseError::MalformedExpression { line })
                }
            } else if i + 1 < toks.len() && matches!(toks[i + 1], Tok::Neq) {
                if i + 2 < toks.len() {
                    match &toks[i + 2] {
                        Tok::Word(w2) => Ok((Expr::NotEquals(term_of(w), term_of(w2)), i + 3)),
                        _ => Err(ParseError::MalformedExpression { line }),
                    }
                } else {
                    Err(ParseError::MalformedExpression { line })
                }
            } else {
                Ok((atom_of(w), i + 1))
            }
        },
        _ => Err(ParseError::MalformedExpression { line }),
    }
}

/// Parses a trailing `if <expr>` at token `i`, if present; `None` with the
/// same index otherwise.
fn parse_opt_if(toks: &Vec<Tok>, i: usize, line: usize) -> (r: Result<
    (Option<Expr>, usize),
    ParseError,
>)
    ensures
        r matches Ok(p) ==> i <= p.1,
{
    if i < toks.len() {
        if let Tok::Word(w) = &toks[i] {
            proof {
                reveal_strlit("if");
            }
            if word_is(w, "if") {
                match parse_or(toks, i + 1, line) {
                    Ok((e, j)) => {
                        if j != toks.len() {
                            return Err(ParseError::UnexpectedToken { line });
                        }
                        return Ok((Some(e), j));
                    },
                    Err(e) => {
                        return Err(e);
                    },
                }
            }
        }
        Err(ParseError::UnexpectedToken { line })
    } else {
        Ok((None, i))
    }
}

/// Whether the set holds a file under `path`.
pub open spec fn spec_has_file(files: Seq<SourceFile>, path: Seq<char>) -> bool {
    exists|i: int| 0 <= i < files.len() && files[i].path@ == path
}

/// The index of the first file stored under `path`, if any.
fn find_file(files: &Vec<SourceFile>, path: &str) -> (r: Option<usize>)
    ensures
        r matches Some(i) ==> 0 <= i < files@.len() && files@[i as int].path@ == path@,
        r is None ==> !spec_has_file(files@, path@),
{
    let mut i: usize = 0;
    while i < files.len()
        invariant
            i <= files@.len(),
            forall|j: int| 0 <= j < i ==> files@[j].path@ != path@,
        decreases files@.len() - i,
    {
        if str_eq(files[i].path.as_str(), path) {
            return Some(i);
        }
        i = i + 1;
    }
    None
}

fn trim_ws(v: &Vec<char>) -> Vec<char> {
    let n = v.len();
    let mut lo: usize = 0;
    while lo < n && (v[lo] == ' ' || v[lo] == '\t' || v[lo] == '\r')
        invariant
            n == v@.len(),
            lo <= n,
        decreases n - lo,
    {
        lo = lo + 1;
    }
    let mut hi: usize = n;
    while hi > lo && (v[hi - 1] == ' ' || v[hi - 1] == '\t' || v[hi - 1] == '\r')
        invariant
            n == v@.len(),
            lo <= hi <= n,
        decreases hi,
    {
        hi = hi - 1;
    }
    let mut r: Vec<char> = Vec::new();
    let mut i = lo;
    while i < hi
        invariant
            lo <= i <= hi <= v@.len(),
        decreases hi - i,
    {
        r.push(v[i]);
        i = i + 1;
    }
    r
}

/// The entry an open declaration flushes to, if any.
spec fn spec_flushed(cur: Cur) -> Seq<Entry> {
    match cur {
        Cur::Idle => Seq::empty(),
        Cur::Conf(c, true) => seq![Entry::MenuConfig(c)],
        Cur::Conf(c, false) => seq![Entry::Config(c)],
        Cur::Com(c) => seq![Entry::Comment(c)],
    }
}

fn flush(cur: Cur, out: &mut Vec<Entry>)
    ensures
        final(out)@ == old(out)@ + spec_flushed(cur),
{
    match cur {
        Cur::Idle => {
            proof {
                assert(out@ =~= old(out)@ + Seq::<Entry>::empty());
            }
        },
        Cur::Conf(c, true) => {
            out.push(Entry::MenuConfig(c));
            proof {
                assert(out@ =~= old(out)@ + seq![out@.last()]);
            }
        },
        Cur::Conf(c, false) => {
            out.push(Entry::Config(c));
            proof {
                assert(out@ =~= old(out)@ + seq![out@.last()]);
            }
        },
        Cur::Com(c) => {
            out.push(Entry::Comment(c));
            proof {
                assert(out@ =~= old(out)@ + seq![out@.last()]);
            }
        },
    }
}

/// Whether every logical line of the text carries no token (blank lines
/// and comments only).
pub open spec fn spec_blank_content(c: Seq<char>) -> bool {
    forall|j: int|
        0 <= j < spec_split_lines(c, 0, 1).len() ==> spec_lex(
            #[trigger] spec_split_lines(c, 0, 1)[j].0,
            0,
        ) == Ok::<Seq<TokView>, bool>(Seq::empty())
}

/// The paths of the files on the inclusion stack, outermost first.
fn chain_paths(files: &Vec<SourceFile>, stack: &Vec<usize>) -> (r: Vec<String>)
    requires
        wf_vis(files@.len() as int, ints(stack@)),
{
    let mut r: Vec<String> = Vec::new();
    let mut k: usize = 0;
    while k < stack.len()
        invariant
            wf_vis(files@.len() as int, ints(stack@)),
            k <= stack@.len(),
        decreases stack@.len() - k,
    {
        proof {
            assert(0 <= ints(stack@)[k as int] < files@.len());
            assert(ints(stack@)[k as int] == stack@[k as int] as int);
        }
        r.push(files[stack[k]].path.clone());
        k = k + 1;
    }
    r
}

fn blank_config(name: String) -> ConfigEntry {
    ConfigEntry {
        name,
        symbol_type: SymbolType::Bool,
        prompt: None,
        prompt_if: None,
        depends: Vec::new(),
        defaults: Vec::new(),
        selects: Vec::new(),
        ranges: Vec::new(),
        help: None,
    }
}

/// Parses the entries of one block: a whole file (`end` 0), a menu body
/// (`end` 1, closed by `endmenu`) or a choice body (`end` 2, closed by
/// `endchoice`).  Returns the entries, the block's loose attributes, and
/// the index of the first unconsumed line.
#[verifier::rlimit(100)]
fn parse_block(
    files: &Vec<SourceFile>,
    lines: &Vec<SourceLine>,
    pos: usize,
    stack: &Vec<usize>,
    end: u8,
) -> (r: Result<(Vec<Entry>, BlockMeta, usize), ParseError>)
    requires
        pos <= lines@.len(),
        wf_vis(files@.len() as int, ints(stack@)),
    ensures
        r matches Ok(p) ==> pos <= p.2 <= lines@.len(),
        (end == 0 && forall|j: int|
            pos <= j < lines@.len() ==> spec_lex(#[trigger] lines@[j].text@, 0) == Ok::<
                Seq<TokView>,
                bool,
            >(Seq::empty())) ==> (r matches Ok(p) && p.0@.len() == 0 && p.2 == lines@.len()),
    decreases files@.len() - stack@.len(), 1int, lines@.len() - pos,
{
    let ghost token_free = forall|j: int|
        pos <= j < lines@.len() ==> spec_lex(#[trigger] lines@[j].text@, 0) == Ok::<
            Seq<TokView>,
            bool,
        >(Seq::empty());
    proof {
        lemma_vis_bound(files@.len() as int, ints(stack@));
        reveal_strlit("config");
        reveal_strlit("menuconfig");
        reveal_strlit("menu");
        reveal_strlit("endmenu");
        reveal_strlit("choice");
        reveal_strlit("endchoice");
        reveal_strlit("source");
        reveal_strlit("comment");
        reveal_strlit("bool");
        reveal_strlit("tristate");
        reveal_strlit("string");
        reveal_strlit("int");
        reveal_strlit("hex");
        reveal_strlit("depends");
        reveal_strlit("on");
        reveal_strlit("default");
        reveal_strlit("select");
        reveal_strlit("range");
        reveal_strlit("prompt");
        reveal_strlit("optional");
        reveal_strlit("help");
        reveal_strlit("mainmenu");
    }
    let mut out: Vec<Entry> = Vec::new();
    let mut meta = BlockMeta {
        prompt: None,
        symbol_type: SymbolType::Bool,
        is_optional: false,
        depends: Vec::new(),
    };
    let mut cur = Cur::Idle;
    let mut i = pos;
    while i < lines.len()
        invariant
            pos <= i <= lines@.len(),
            wf_vis(files@.len() as int, ints(stack@)),
            token_free == (forall|j: int|
                pos <= j < lines@.len() ==> spec_lex(#[trigger] lines@[j].text@, 0) == Ok::<
                    Seq<TokView>,
                    bool,
                >(Seq::empty())),
            token_free ==> out@.len() == 0 && cur is Idle,
        decreases lines@.len() - i,
    {
        let lno = lines[i].number;
        let toks = match lex_line(&lines[i].text, lno) {
            Ok(t) => t,
            Err(e) => {
                return Err(ParseError::Lex(e));
            },
        };
        proof {
            assert(toks_views(toks@).len() == toks@.len());
            if token_free {
                assert(spec_lex(lines@[i as int].text@, 0) == Ok::<Seq<TokView>, bool>(
                    Seq::empty(),
                ));
                assert(toks@.len() == 0);
            }
        }
        if toks.len() == 0 {
            i = i + 1;
            continue ;
        }
        let w = match &toks[0] {
            Tok::Word(w) => w.clone(),
            _ => {
                return Err(ParseError::UnexpectedToken { line: lno });
            },
        };
        if word_is(&w, "config") || word_is(&w, "menuconfig") {
            flush(cur, &mut out);
            cur = Cur::Idle;
            if toks.len() != 2 {
                return Err(ParseError::UnexpectedToken { line: lno });
            }
            let name = match &toks[1] {
                Tok::Word(n) => n.clone(),
                _ => {
                    return Err(ParseError::UnexpectedToken { line: lno });
                },
            };
            cur = Cur::Conf(blank_config(name), word_is(&w, "menuconfig"));
            i = i + 1;
        } else if word_is(&w, "menu") {
            flush(cur, &mut out);
            cur = Cur::Idle;
            if toks.len() != 2 {
                return Err(ParseError::UnexpectedToken { line: lno });
            }
            let title = match &toks[1] {
                Tok::Str(t) => t.clone(),
                _ => {
                    return Err(ParseError::UnexpectedToken { line: lno });
                },
            };
            let (entries, inner_meta, nxt) = match parse_block(files, lines, i + 1, stack, 1) {
                Ok(p) => p,
                Err(e) => {
                    return Err(e);
                },
            };
            out.push(
                Entry::Menu(MenuEntry { title, depends: inner_meta.depends, entries }),
            );
            i = nxt;
        } else if word_is(&w, "endmenu") {
            if toks.len() != 1 {
                return Err(ParseError::UnexpectedToken { line: lno });
            }
            if end == 1 {
                flush(cur, &mut out);
                return Ok((out, meta, i + 1));
            }
            return Err(ParseError::UnexpectedToken { line: lno });
        } else if word_is(&w, "choice") {
            if toks.len() != 1 {
                return Err(ParseError::UnexpectedToken { line: lno });
            }
            flush(cur, &mut out);
            cur = Cur::Idle;
            let (entries, cmeta, nxt) = match parse_block(files, lines, i + 1, stack, 2) {
                Ok(p) => p,
                Err(e) => {
                    return Err(e);
                },
            };
            let mut members: Vec<ConfigEntry> = Vec::new();
            let mut ei: usize = 0;
            while ei < entries.len()
                invariant
                    ei <= entries@.len(),
                    !token_free,
                    token_free == (forall|j: int|
                        pos <= j < lines@.len() ==> spec_lex(#[trigger] lines@[j].text@, 0)
                            == Ok::<Seq<TokView>, bool>(Seq::empty())),
                decreases entries@.len() - ei,
            {
                match &entries[ei] {
                    Entry::Config(c) => members.push(clone_config(c)),
                    _ => {
                        return Err(ParseError::UnexpectedToken { line: lno });
                    },
                }
                ei = ei + 1;
            }
            out.push(
                Entry::Choice(
                    ChoiceEntry {
                        prompt: cmeta.prompt,
                        symbol_type: cmeta.symbol_type,
                        is_optional: cmeta.is_optional,
                        depends: cmeta.depends,
                        members,
                    },
                ),
            );
            i = nxt;
        } else if word_is(&w, "endchoice") {
            if toks.len() != 1 {
                return Err(ParseError::UnexpectedToken { line: lno });
            }
            if end == 2 {
                flush(cur, &mut out);
                return Ok((out, meta, i + 1));
            }
            return Err(ParseError::UnexpectedToken { line: lno });
        } else if word_is(&w, "source") {
            flush(cur, &mut out);
            cur = Cur::Idle;
            if toks.len() != 2 {
                return Err(ParseError::UnexpectedToken { line: lno });
            }
            let path = match &toks[1] {
                Tok::Str(p) => p.clone(),
                _ => {
                    return Err(ParseError::UnexpectedToken { line: lno });
                },
            };
            let fj = match find_file(files, path.as_str()) {
                Some(fj) => fj,
                None => {
                    return Err(
                        ParseError::SourceNotFound { path, chain: chain_paths(files, stack) },
                    );
                },
            };
            let mut sub = match parse_file(files, fj, stack) {
                Ok(s) => s,
                Err(e) => {
                    return Err(e);
                },
            };
            out.append(&mut sub);
            i = i + 1;
        } else if word_is(&w, "comment") {
            flush(cur, &mut out);
            cur = Cur::Idle;
            if toks.len() != 2 {
                return Err(ParseError::UnexpectedToken { line: lno });
            }
            let text = match &toks[1] {
                Tok::Str(t) => t.clone(),
                _ => {
                    return Err(ParseError::UnexpectedToken { line: lno });
                },
            };
            cur = Cur::Com(CommentEntry { text, depends: Vec::new() });
            i = i + 1;
        } else if word_is(&w, "bool") || word_is(&w, "tristate") || word_is(&w, "string")
            || word_is(&w, "int") || word_is(&w, "hex") {
            let ty = if word_is(&w, "bool") {
                SymbolType::Bool
            } else if word_is(&w, "tristate") {
                SymbolType::Tristate
            } else if word_is(&w, "string") {
                SymbolType::String
            } else if word_is(&w, "int") {
                SymbolType::Int
            } else {
                SymbolType::Hex
            };
            let mut j: usize = 1;
            let mut prompt: Option<String> = None;
            if j < toks.len() {
                if let Tok::Str(p) = &toks[j] {
                    prompt = Some(p.clone());
                    j = j + 1;
                }
            }
            let (pif, _j2) = match parse_opt_if(&toks, j, lno) {
                Ok(p) => p,
                Err(e) => {
                    return Err(e);
                },
            };
            match &mut cur {
                Cur::Conf(c, _) => {
                    c.symbol_type = ty;
                    if prompt.is_some() {
                        c.prompt = prompt;
                        c.prompt_if = pif;
                    }
                },
                _ => {
                    meta.symbol_type = ty;
                    if prompt.is_some() {
                        meta.prompt = prompt;
                    }
                },
            }
            i = i + 1;
        } else if word_is(&w, "depends") {
            if toks.len() < 2 {
                return Err(ParseError::UnexpectedToken { line: lno });
            }
            let on_ok = match &toks[1] {
                Tok::Word(o) => word_is(o, "on"),
                _ => false,
            };
            if !on_ok {
                return Err(ParseError::UnexpectedToken { line: lno });
            }
            let (e, j) = match parse_or(&toks, 2, lno) {
                Ok(p) => p,
                Err(err) => {
                    return Err(err);
                },
            };
            if j != toks.len() {
                return Err(ParseError::UnexpectedToken { line: lno });
            }
            match &mut cur {
                Cur::Conf(c, _) => c.depends.push(e),
                Cur::Com(c) => c.depends.push(e),
                Cur::Idle => meta.depends.push(e),
            }
            i = i + 1;
        } else if word_is(&w, "default") {
            if toks.len() < 2 {
                return Err(ParseError::UnexpectedToken { line: lno });
            }
            let (value, j) = match &toks[1] {
                Tok::Str(s) => (DefaultValue::Text(s.clone()), 2),
                Tok::Word(v) => {
                    let cs = chars_of(v.as_str());
                    if cs.len() > 0 && (('0' <= cs[0] && cs[0] <= '9') || cs[0] == '-') {
                        (DefaultValue::Text(v.clone()), 2)
                    } else {
                        match parse_or(&toks, 1, lno) {
                            Ok((e, j)) => (DefaultValue::Expr(e), j),
                            Err(err) => {
                                return Err(err);
                            },
                        }
                    }
                },
                _ => {
                    match parse_or(&toks, 1, lno) {
                        Ok((e, j)) => (DefaultValue::Expr(e), j),
                        Err(err) => {
                            return Err(err);
                        },
                    }
                },
            };
            let (cond, _j2) = match parse_opt_if(&toks, j, lno) {
                Ok(p) => p,
                Err(e) => {
                    return Err(e);
                },
            };
            match &mut cur {
                Cur::Conf(c, _) => c.defaults.push(DefaultClause { value, cond }),
                _ => {
                    return Err(ParseError::UnexpectedToken { line: lno });
                },
            }
            i = i + 1;
        } else if word_is(&w, "select") {
            if toks.len() < 2 {
                return Err(ParseError::UnexpectedToken { line: lno });
            }
            let target = match &toks[1] {
                Tok::Word(t) => t.clone(),
                _ => {
                    return Err(ParseError::UnexpectedToken { line: lno });
                },
            };
            let (cond, _j) = match parse_opt_if(&toks, 2, lno) {
                Ok(p) => p,
                Err(e) => {
                    return Err(e);
                },
            };
            match &mut cur {
                Cur::Conf(c, _) => c.selects.push(SelectClause { target, cond }),
                _ => {
                    return Err(ParseError::UnexpectedToken { line: lno });
                },
            }
            i = i + 1;
        } else if word_is(&w, "range") {
            if toks.len() < 3 {
                return Err(ParseError::UnexpectedToken { line: lno });
            }
            let lo = match &toks[1] {
                Tok::Word(t) => parse_bound(t),
                _ => None,
            };
            let hi = match &toks[2] {
                Tok::Word(t) => parse_bound(t),
                _ => None,
            };
            let (lo, hi) = match (lo, hi) {
                (Some(a), Some(b)) => (a, b),
                _ => {
                    return Err(ParseError::UnexpectedToken { line: lno });
                },
            };
            let (cond, _j) = match parse_opt_if(&toks, 3, lno) {
                Ok(p) => p,
                Err(e) => {
                    return Err(e);
                },
            };
            match &mut cur {
                Cur::Conf(c, _) => c.ranges.push(RangeClause { lo, hi, cond }),
                _ => {
                    return Err(ParseError::UnexpectedToken { line: lno });
                },
            }
            i = i + 1;
        } else if word_is(&w, "prompt") {
            if toks.len() < 2 {
                return Err(ParseError::UnexpectedToken { line: lno });
            }
            let p = match &toks[1] {
                Tok::Str(t) => t.clone(),
                _ => {
                    return Err(ParseError::UnexpectedToken { line: lno });
                },
            };
            let (pif, _j) = match parse_opt_if(&toks, 2, lno) {
                Ok(q) => q,
                Err(e) => {
                    return Err(e);
                },
            };
            match &mut cur {
                Cur::Conf(c, _) => {
                    c.prompt = Some(p);
                    c.prompt_if = pif;
                },
                _ => {
                    meta.prompt = Some(p);
                },
            }
            i = i + 1;
        } else if word_is(&w, "optional") {
            if toks.len() != 1 {
                return Err(ParseError::UnexpectedToken { line: lno });
            }
            meta.is_optional = true;
            i = i + 1;
        } else if word_is(&w, "help") {
            if toks.len() != 1 {
                return Err(ParseError::UnexpectedToken { line: lno });
            }
            let mut text: Vec<char> = Vec::new();
            let mut j = i + 1;
            while j < lines.len() && lines[j].text.len() > 0 && (lines[j].text[0] == ' '
                || lines[j].text[0] == '\t')
                invariant
                    i < j <= lines@.len(),
                decreases lines@.len() - j,
            {
                let trimmed = trim_ws(&lines[j].text);
                let mut ti: usize = 0;
                while ti < trimmed.len()
                    invariant
                        ti <= trimmed@.len(),
                    decreases trimmed@.len() - ti,
                {
                    text.push(trimmed[ti]);
                    ti = ti + 1;
                }
                text.push('\n');
                j = j + 1;
            }
            match &mut cur {
                Cur::Conf(c, _) => {
                    c.help = Some(string_of(&text));
                },
                _ => {},
            }
            i = j;
        } else if word_is(&w, "mainmenu") {
            if toks.len() != 2 {
                return Err(ParseError::UnexpectedToken { line: lno });
            }
            i = i + 1;
        } else {
            return Err(ParseError::UnexpectedToken { line: lno });
        }
    }
    if end == 1 {
        return Err(
            ParseError::UnterminatedBlock { kind: String::from_str("menu"), opened_at: pos },
        );
    }
    if end == 2 {
        return Err(
            ParseError::UnterminatedBlock { kind: String::from_str("choice"), opened_at: pos },
        );
    }
    flush(cur, &mut out);
    Ok((out, meta, i))
}

/// Parses an integer or hexadecimal range bound.
fn parse_bound(w: &String) -> Option<i64> {
    let cs = chars_of(w.as_str());
    if cs.len() > 2 && cs[0] == '0' && (cs[1] == 'x' || cs[1] == 'X') {
        parse_hex(&cs)
    } else {
        parse_int(&cs)
    }
}

fn clone_config(c: &ConfigEntry) -> (r: ConfigEntry)
    ensures
        r.name == c.name,
        r.symbol_type == c.symbol_type,
        r.prompt == c.prompt,
        r.prompt_if == c.prompt_if,
        r.depends@ == c.depends@,
        r.defaults@ == c.defaults@,
        r.selects@ == c.selects@,
        r.ranges@ == c.ranges@,
        r.help == c.help,
{
    ConfigEntry {
        name: c.name.clone(),
        symbol_type: c.symbol_type,
        prompt: clone_opt_string(&c.prompt),
        prompt_if: crate::expr::clone_opt_expr(&c.prompt_if),
        depends: crate::expr::clone_exprs(&c.depends),
        defaults: clone_defaults(&c.defaults),
        selects: clone_selects(&c.selects),
        ranges: clone_ranges(&c.ranges),
        help: clone_opt_string(&c.help),
    }
}

fn clone_opt_string(s: &Option<String>) -> (r: Option<String>)
    ensures
        r == *s,
{
    match s {
        Some(x) => Some(x.clone()),
        None => None,
    }
}

pub(crate) fn clone_defaults(v: &Vec<DefaultClause>) -> (r: Vec<DefaultClause>)
    ensures
        r@ == v@,
{
    let mut r: Vec<DefaultClause> = Vec::new();
    let mut i: usize = 0;
    while i < v.len()
        invariant
            i <= v@.len(),
            r@ == v@.subrange(0, i as int),
        decreases v@.len() - i,
    {
        let value = match &v[i].value {
            DefaultValue::Expr(e) => DefaultValue::Expr(crate::expr::clone_expr(e)),
            DefaultValue::Text(s) => DefaultValue::Text(s.clone()),
        };
        r.push(DefaultClause { value, cond: crate::expr::clone_opt_expr(&v[i].cond) });
        i = i + 1;
        proof {
            assert(r@ =~= v@.subrange(0, i as int));
        }
    }
    proof {
        assert(r@ =~= v@);
    }
    r
}

pub(crate) fn clone_selects(v: &Vec<SelectClause>) -> (r: Vec<SelectClause>)
    ensures
        r@ == v@,
{
    let mut r: Vec<SelectClause> = Vec::new();
    let mut i: usize = 0;
    while i < v.len()
        invariant
            i <= v@.len(),
            r@ == v@.subrange(0, i as int),
        decreases v@.len() - i,
    {
        r.push(
            SelectClause {
                target: v[i].target.clone(),
                cond: crate::expr::clone_opt_expr(&v[i].cond),
            },
        );
        i = i + 1;
        proof {
            assert(r@ =~= v@.subrange(0, i as int));
        }
    }
    proof {
        assert(r@ =~= v@);
    }
    r
}

pub(crate) fn clone_ranges(v: &Vec<RangeClause>) -> (r: Vec<RangeClause>)
    ensures
        r@ == v@,
{
    let mut r: Vec<RangeClause> = Vec::new();
    let mut i: usize = 0;
    while i < v.len()
        invariant
            i <= v@.len(),
            r@ == v@.subrange(0, i as int),
        decreases v@.len() - i,
    {
        r.push(
            RangeClause {
                lo: v[i].lo,
                hi: v[i].hi,
                cond: crate::expr::clone_opt_expr(&v[i].cond),
            },
        );
        i = i + 1;
        proof {
            assert(r@ =~= v@.subrange(0, i as int));
        }
    }
    proof {
        assert(r@ =~= v@);
    }
    r
}

/// Parses one file of the set, guarding against cyclic sourcing through
/// the inclusion stack of file indices.
fn parse_file(files: &Vec<SourceFile>, fi: usize, stack: &Vec<usize>) -> (r: Result<
    Vec<Entry>,
    ParseError,
>)
    requires
        fi < files@.len(),
        wf_vis(files@.len() as int, ints(stack@)),
    ensures
        ints(stack@).contains(fi as int) ==> (r matches Err(e) && e is CyclicSource),
        (!ints(stack@).contains(fi as int) && spec_blank_content(files@[fi as int].content@))
            ==> (r matches Ok(es) && es@.len() == 0),
    decreases files@.len() - stack@.len(), 0int, 0int,
{
    if vis_contains(stack, fi) {
        return Err(ParseError::CyclicSource { path: files[fi].path.clone() });
    }
    let stack2 = vis_push(stack, fi);
    proof {
        lemma_vis_push(files@.len() as int, ints(stack@), fi as int);
        lemma_vis_bound(files@.len() as int, ints(stack2@));
    }
    let chars = chars_of(files[fi].content.as_str());
    let lines = split_lines(&chars);
    proof {
        if spec_blank_content(files@[fi as int].content@) {
            assert forall|j: int| 0 <= j < lines@.len() implies spec_lex(
                #[trigger] lines@[j].text@,
                0,
            ) == Ok::<Seq<TokView>, bool>(Seq::empty()) by {
                assert(line_views(lines@)[j] == (lines@[j].text@, lines@[j].number as int));
                assert(spec_split_lines(files@[fi as int].content@, 0, 1)[j].0
                    == lines@[j].text@);
            }
        }
    }
    match parse_block(files, &lines, 0, &stack2, 0) {
        Ok((entries, _meta, _pos)) => Ok(entries),
        Err(e) => Err(e),
    }
}

/// Parses the file stored under `root_path`, recursing through `source`
/// directives into the other files of the set (paths are tree-root
/// relative).  Fails with [`ParseError::SourceNotFound`] when a sourced
/// path is missing from the set, and with [`ParseError::CyclicSource`]
/// when a file directly or transitively sources itself.
pub fn parse(root_path: &str, files: &Vec<SourceFile>) -> (r: Result<Ast, ParseError>)
    ensures
        !spec_has_file(files@, root_path@) ==> (r matches Err(e) && e is SourceNotFound),
        (spec_has_file(files@, root_path@) && forall|i: int|
            0 <= i < files@.len() && files@[i].path@ == root_path@ ==> spec_blank_content(
                #[trigger] files@[i].content@,
            )) ==> (r matches Ok(ast) && ast.entries@.len() == 0),
{
    let fi = match find_file(files, root_path) {
        Some(fi) => fi,
        None => {
            return Err(
                ParseError::SourceNotFound { path: root_path.to_owned(), chain: Vec::new() },
            );
        },
    };
    let stack: Vec<usize> = Vec::new();
    proof {
        assert(ints(stack@) =~= Seq::<int>::empty());
    }
    match parse_file(files, fi, &stack) {
        Ok(entries) => Ok(Ast { entries }),
        Err(e) => Err(e),
    }
}

} // verus!
