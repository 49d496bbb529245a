//! The saved-configuration text formats: the `.config` reader and writer,
//! and the build-artifact generators (`auto.conf`, `autoconf.h`).  All of
//! them are pure text transforms over a symbol table; opening and writing
//! the files themselves is the caller's business.

use vstd::prelude::*;

use crate::symbol::{Symbol, SymbolTable};
use crate::text::{chars_of, string_of};
use crate::value::trim_quotes;

verus! {

/// Reads the `.config` format.
pub struct ConfigReader;

/// Writes the `.config` format.
pub struct ConfigWriter;

/// Emits the derived build artifacts.
pub struct ConfigGenerator;

/// The text ` is not set`, as written behind a disabled symbol's name.
pub open spec fn spec_not_set_suffix() -> Seq<char> {
    seq![' ', 'i', 's', ' ', 'n', 'o', 't', ' ', 's', 'e', 't']
}

/// The line the writer emits for one symbol: `NAME=y` and `NAME=m` as
/// they stand, `# NAME is not set` for `n` or for a symbol without a
/// stored value, and `NAME="text"` for everything else.
pub open spec fn spec_config_line(sym: Symbol) -> Seq<char> {
    match sym.value {
        Some(v) => if v@ == seq!['y'] || v@ == seq!['m'] {
            sym.name@ + seq!['='] + v@ + seq!['\n']
        } else if v@ == seq!['n'] {
            seq!['#', ' '] + sym.name@ + spec_not_set_suffix() + seq!['\n']
        } else {
            sym.name@ + seq!['=', '"'] + v@ + seq!['"', '\n']
        },
        None => seq!['#', ' '] + sym.name@ + spec_not_set_suffix() + seq!['\n'],
    }
}

/// The writer's lines for the first `k` symbols, in table order.
pub open spec fn spec_config_body(t: Seq<Symbol>, k: int) -> Seq<char>
    decreases k,
{
    if k <= 0 {
        Seq::empty()
    } else {
        spec_config_body(t, k - 1) + spec_config_line(t[k - 1])
    }
}

fn push_chars(dst: &mut Vec<char>, src: &Vec<char>)
    ensures
        final(dst)@ == old(dst)@ + src@,
{
    let mut i: usize = 0;
    while i < src.len()
        invariant
            i <= src@.len(),
            dst@ == old(dst)@ + src@.subrange(0, i as int),
        decreases src@.len() - i,
    {
        dst.push(src[i]);
        i = i + 1;
        proof {
            assert(dst@ =~= old(dst)@ + src@.subrange(0, i as int));
        }
    }
    proof {
        assert(dst@ =~= old(dst)@ + src@);
    }
}

fn push_str(dst: &mut Vec<char>, src: &str)
    ensures
        final(dst)@ == old(dst)@ + src@,
{
    let cs = chars_of(src);
    push_chars(dst, &cs);
}

fn push_not_set(dst: &mut Vec<char>, name: &String)
    ensures
        final(dst)@ == old(dst)@ + seq!['#', ' '] + name@ + spec_not_set_suffix() + seq!['\n'],
{
    dst.push('#');
    dst.push(' ');
    push_str(dst, name.as_str());
    let suffix = " is not set\n";
    proof {
        reveal_strlit(" is not set\n");
        assert(suffix@ =~= spec_not_set_suffix() + seq!['\n']);
    }
    push_str(dst, suffix);
    proof {
        assert(dst@ =~= old(dst)@ + seq!['#', ' '] + name@ + spec_not_set_suffix() + seq!['\n']);
    }
}

fn value_is(v: &String, lit: &str) -> (r: bool)
    ensures
        r == (v@ == lit@),
{
    crate::text::str_eq(v.as_str(), lit)
}

impl ConfigWriter {
    /// Renders a symbol table in the `.config` format: the generated-file
    /// header, then one line per symbol in table order.
    pub fn render(symbols: &SymbolTable) -> (r: String)
        ensures
            r@ == "#\n# Automatically generated file; DO NOT EDIT.\n#\n"@ + spec_config_body(
                symbols.symbols@,
                symbols.symbols@.len() as int,
            ),
    {
        let mut out: Vec<char> = Vec::new();
        push_str(&mut out, "#\n# Automatically generated file; DO NOT EDIT.\n#\n");
        let ghost header = out@;
        let t = &symbols.symbols;
        let mut i: usize = 0;
        proof {
            reveal_strlit("y");
            reveal_strlit("m");
            reveal_strlit("n");
        }
        while i < t.len()
            invariant
                i <= t@.len(),
                out@ == header + spec_config_body(t@, i as int),
            decreases t@.len() - i,
        {
            let sym = &t[i];
            match &sym.value {
                Some(v) => {
                    if value_is(v, "y") || value_is(v, "m") {
                        proof {
                            reveal_strlit("y");
                            reveal_strlit("m");
                            assert("y"@ =~= seq!['y']);
                            assert("m"@ =~= seq!['m']);
                        }
                        push_str(&mut out, sym.name.as_str());
                        out.push('=');
                        push_str(&mut out, v.as_str());
                        out.push('\n');
                    } else if value_is(v, "n") {
                        proof {
                            reveal_strlit("y");
                            reveal_strlit("m");
                            reveal_strlit("n");
                            assert("n"@ =~= seq!['n']);
                            assert("y"@ =~= seq!['y']);
                            assert("m"@ =~= seq!['m']);
                        }
                        push_not_set(&mut out, &sym.name);
                    } else {
                        proof {
                            reveal_strlit("y");
                            reveal_strlit("m");
                            reveal_strlit("n");
                            assert("y"@ =~= seq!['y']);
                            assert("m"@ =~= seq!['m']);
                            assert("n"@ =~= seq!['n']);
                        }
                        push_str(&mut out, sym.name.as_str());
                        out.push('=');
                        out.push('"');
                        push_str(&mut out, v.as_str());
                        out.push('"');
                        out.push('\n');
                    }
                },
                None => {
                    push_not_set(&mut out, &sym.name);
                },
            }
            i = i + 1;
            proof {
                assert(out@ =~= header + spec_config_body(t@, i as int));
            }
        }
        string_of(&out)
    }
}

/// Whether `c` is horizontal whitespace (a line's own padding).
pub open spec fn spec_is_ws(c: char) -> bool {
    c == ' ' || c == '\t' || c == '\r'
}

/// How many leading whitespace characters `s` carries.
pub open spec fn spec_lead_ws(s: Seq<char>) -> int
    decreases s.len(),
{
    if s.len() > 0 && spec_is_ws(s[0]) {
        1 + spec_lead_ws(s.subrange(1, s.len() as int))
    } else {
        0
    }
}

/// How many trailing whitespace characters `s` carries.
pub open spec fn spec_trail_ws(s: Seq<char>) -> int
    decreases s.len(),
{
    if s.len() > 0 && spec_is_ws(s.last()) {
        1 + spec_trail_ws(s.drop_last())
    } else {
        0
    }
}

/// `s` with its leading and trailing whitespace removed.
pub open spec fn spec_trim_ws(s: Seq<char>) -> Seq<char> {
    let a = spec_lead_ws(s);
    if a == s.len() {
        Seq::empty()
    } else {
        s.subrange(a, s.len() - spec_trail_ws(s))
    }
}

/// Counting leading whitespace is determined by its run.
proof fn lemma_lead_ws_run(s: Seq<char>, k: int)
    requires
        0 <= k <= s.len(),
        forall|j: int| 0 <= j < k ==> spec_is_ws(#[trigger] s[j]),
        k < s.len() ==> !spec_is_ws(s[k]),
    ensures
        spec_lead_ws(s) == k,
    decreases k,
{
    if k > 0 {
        lemma_lead_ws_run(s.subrange(1, s.len() as int), k - 1);
    }
}

/// Counting trailing whitespace is determined by its run.
proof fn lemma_trail_ws_run(s: Seq<char>, k: int)
    requires
        0 <= k <= s.len(),
        forall|j: int| s.len() - k <= j < s.len() ==> spec_is_ws(#[trigger] s[j]),
        k < s.len() ==> !spec_is_ws(s[s.len() - k - 1]),
    ensures
        spec_trail_ws(s) == k,
    decreases k,
{
    if k > 0 {
        lemma_trail_ws_run(s.drop_last(), k - 1);
    }
}

/// The index of the first occurrence of `c` in `s` at or after `i`, or
/// the length when there is none.
pub open spec fn spec_find_char(s: Seq<char>, i: int, c: char) -> int
    decreases s.len() - i
        when 0 <= i <= s.len()
{
    if i >= s.len() {
        s.len() as int
    } else if s[i] == c {
        i
    } else {
        spec_find_char(s, i + 1, c)
    }
}

/// A scan that saw no `c` up to `k`, and `c` (or the end) at `k`, pins
/// the first occurrence.
proof fn lemma_find_char_stop(s: Seq<char>, i: int, c: char, k: int)
    requires
        0 <= i <= k <= s.len(),
        forall|j: int| i <= j < k ==> s[j] != c,
        k < s.len() ==> s[k] == c,
    ensures
        spec_find_char(s, i, c) == k,
    decreases k - i,
{
    if i < k {
        lemma_find_char_stop(s, i + 1, c, k);
    }
}

/// The first occurrence lies between `i` and the length.
proof fn lemma_find_char_bounds(s: Seq<char>, i: int, c: char)
    requires
        0 <= i <= s.len(),
    ensures
        i <= spec_find_char(s, i, c) <= s.len(),
    decreases s.len() - i,
{
    if i < s.len() && s[i] != c {
        lemma_find_char_bounds(s, i + 1, c);
    }
}

/// One parsed `.config` line (already whitespace-trimmed): a
/// `# NAME is not set` line reads as `NAME` being `n`; a `NAME=value`
/// line reads as the pair, the name trimmed and non-empty, the value
/// trimmed and with its surrounding quotes removed; every other line
/// reads as nothing.
pub open spec fn spec_parse_config_line(line: Seq<char>) -> Option<(Seq<char>, Seq<char>)> {
    if line.len() == 0 {
        None
    } else if line[0] == '#' {
        if line.len() >= 14 && line.subrange(0, 2) == seq!['#', ' '] && line.subrange(
            line.len() - 11,
            line.len() as int,
        ) == spec_not_set_suffix() {
            Some((line.subrange(2, line.len() - 11), seq!['n']))
        } else {
            None
        }
    } else {
        let eq = spec_find_char(line, 0, '=');
        if eq == line.len() {
            None
        } else {
            let name = spec_trim_ws(line.subrange(0, eq));
            if name.len() == 0 {
                None
            } else {
                Some(
                    (
                        name,
                        crate::value::spec_trim_quotes(
                            spec_trim_ws(line.subrange(eq + 1, line.len() as int)),
                        ),
                    ),
                )
            }
        }
    }
}

/// The pairs the reader yields for the text from position `i` on: one
/// logical line at a time, cut at newlines, each trimmed and read by
/// [`spec_parse_config_line`].
pub open spec fn spec_read_config(s: Seq<char>, i: int) -> Seq<(Seq<char>, Seq<char>)>
    decreases s.len() - i
        when 0 <= i <= s.len()
        via spec_read_config_decreases
{
    if i >= s.len() {
        Seq::empty()
    } else {
        let e = spec_find_char(s, i, '\n');
        let here = match spec_parse_config_line(spec_trim_ws(s.subrange(i, e))) {
            Some(p) => seq![p],
            None => Seq::empty(),
        };
        here + if e >= s.len() {
            Seq::empty()
        } else {
            spec_read_config(s, e + 1)
        }
    }
}

#[via_fn]
proof fn spec_read_config_decreases(s: Seq<char>, i: int) {
    if 0 <= i < s.len() {
        lemma_find_char_bounds(s, i, '\n');
    }
}

/// The character sequences of a pair list of strings.
pub open spec fn pair_views(ps: Seq<(String, String)>) -> Seq<(Seq<char>, Seq<char>)> {
    ps.map_values(|p: (String, String)| (p.0@, p.1@))
}

/// One parsed `.config` line: `NAME=value` gives the pair with quotes
/// trimmed from the value; `# NAME is not set` gives `(NAME, "n")`.
impl ConfigReader {
    /// Parses saved-configuration text into `(name, raw value)` pairs, in
    /// line order: comments and blank lines are skipped, except that a
    /// `# NAME is not set` line reads as `NAME` being `n`; a `NAME=value`
    /// line reads as the pair, with surrounding quotes trimmed from the
    /// value.
    pub fn parse(content: &str) -> (r: Vec<(String, String)>)
        ensures
            pair_views(r@) == spec_read_config(content@, 0),
    {
        let cs = chars_of(content);
        let n = cs.len();
        let mut out: Vec<(String, String)> = Vec::new();
        let mut i: usize = 0;
        while i < n
            invariant
                n == cs@.len(),
                cs@ == content@,
                i <= n,
                spec_read_config(content@, 0) == pair_views(out@) + spec_read_config(
                    content@,
                    i as int,
                ),
            decreases n - i,
        {
            let mut line: Vec<char> = Vec::new();
            let mut j = i;
            while j < n && cs[j] != '\n'
                invariant
                    n == cs@.len(),
                    i <= j <= n,
                    line@ == cs@.subrange(i as int, j as int),
                    forall|q: int| i <= q < j ==> cs@[q] != '\n',
                decreases n - j,
            {
                line.push(cs[j]);
                j = j + 1;
                proof {
                    assert(line@ =~= cs@.subrange(i as int, j as int));
                }
            }
            proof {
                lemma_find_char_stop(cs@, i as int, '\n', j as int);
            }
            let trimmed = trim_line_ws(&line);
            let ghost before = out@;
            if let Some(pair) = parse_config_line(&trimmed) {
                out.push(pair);
                proof {
                    assert(pair_views(out@) =~= pair_views(before) + seq![(pair.0@, pair.1@)]);
                }
            }
            if j < n {
                i = j + 1;
            } else {
                i = n;
            }
            proof {
                assert(spec_read_config(content@, 0) == pair_views(out@) + spec_read_config(
                    content@,
                    i as int,
                ));
            }
        }
        proof {
            assert(pair_views(out@) =~= pair_views(out@) + spec_read_config(content@, n as int));
        }
        out
    }
}

fn trim_line_ws(v: &Vec<char>) -> (r: Vec<char>)
    ensures
        r@ == spec_trim_ws(v@),
{
    let n = v.len();
    let mut lo: usize = 0;
    while lo < n && (v[lo] == ' ' || v[lo] == '\t' || v[lo] == '\r')
        invariant
            n == v@.len(),
            lo <= n,
            forall|j: int| 0 <= j < lo ==> spec_is_ws(#[trigger] v@[j]),
        decreases n - lo,
    {
        lo = lo + 1;
    }
    proof {
        lemma_lead_ws_run(v@, lo as int);
    }
    if lo == n {
        let r: Vec<char> = Vec::new();
        proof {
            assert(r@ =~= spec_trim_ws(v@));
        }
        return r;
    }
    let mut hi: usize = n;
    while hi > lo && (v[hi - 1] == ' ' || v[hi - 1] == '\t' || v[hi - 1] == '\r')
        invariant
            n == v@.len(),
            lo <= hi <= n,
            lo < n,
            forall|j: int| hi <= j < n ==> spec_is_ws(#[trigger] v@[j]),
        decreases hi,
    {
        hi = hi - 1;
    }
    proof {
        lemma_trail_ws_run(v@, n - hi);
    }
    let mut r: Vec<char> = Vec::new();
    let mut i = lo;
    while i < hi
        invariant
            n == v@.len(),
            lo <= i <= hi <= n,
            r@ == v@.subrange(lo as int, i as int),
        decreases hi - i,
    {
        r.push(v[i]);
        i = i + 1;
        proof {
            assert(r@ =~= v@.subrange(lo as int, i as int));
        }
    }
    proof {
        assert(r@ =~= spec_trim_ws(v@));
    }
    r
}

/// Whether `v` starts with the characters of `p` at offset `at`.
fn has_at(v: &Vec<char>, at: usize, p: &Vec<char>) -> (r: bool)
    ensures
        r == (at + p@.len() <= v@.len() && v@.subrange(
            at as int,
            at + p@.len(),
        ) == p@),
{
    if at > v.len() || p.len() > v.len() - at {
        return false;
    }
    let mut i: usize = 0;
    while i < p.len()
        invariant
            at + p@.len() <= v@.len(),
            v@.len() <= usize::MAX,
            i <= p@.len(),
            forall|q: int| 0 <= q < i ==> v@[at + q] == p@[q],
        decreases p@.len() - i,
    {
        proof {
            assert(at + i < v@.len());
        }
        if v[at + i] != p[i] {
            proof {
                assert(v@.subrange(at as int, at + p@.len())[i as int] != p@[i as int]);
            }
            return false;
        }
        i = i + 1;
    }
    proof {
        assert(v@.subrange(at as int, at + p@.len()) =~= p@);
    }
    true
}

fn parse_config_line(line: &Vec<char>) -> (r: Option<(String, String)>)
    ensures
        match r {
            Some(p) => spec_parse_config_line(line@) matches Some(q) && p.0@ == q.0 && p.1@
                == q.1,
            None => spec_parse_config_line(line@) is None,
        },
{
    let n = line.len();
    if n == 0 {
        return None;
    }
    if line[0] == '#' {
        let prefix = chars_of("# ");
        let suffix = chars_of(" is not set");
        proof {
            reveal_strlit("# ");
            reveal_strlit(" is not set");
            assert(prefix@ =~= seq!['#', ' ']);
            assert(suffix@ =~= spec_not_set_suffix());
        }
        if n >= prefix.len() && n - prefix.len() >= suffix.len() && has_at(line, 0, &prefix)
            && has_at(line, n - suffix.len(), &suffix) {
            let mut name: Vec<char> = Vec::new();
            let mut i: usize = 2;
            let stop = n - suffix.len();
            while i < stop
                invariant
                    2 <= i,
                    i <= stop <= line@.len(),
                    name@ == line@.subrange(2, i as int),
                decreases stop - i,
            {
                name.push(line[i]);
                i = i + 1;
                proof {
                    assert(name@ =~= line@.subrange(2, i as int));
                }
            }
            if name.len() == 0 {
                return None;
            }
            let val = String::from_str("n");
            proof {
                reveal_strlit("n");
                assert(val@ =~= seq!['n']);
            }
            return Some((string_of(&name), val));
        }
        return None;
    }
    let mut eq: usize = 0;
    let mut found = false;
    let mut i: usize = 0;
    while i < n && !found
        invariant
            i <= n,
            n == line@.len(),
            found ==> eq < n && line@[eq as int] == '=',
            forall|q: int| 0 <= q < if found { eq as int } else { i as int } ==> line@[q] != '=',
        decreases n - i, if found { 0int } else { 1int },
    {
        if line[i] == '=' {
            eq = i;
            found = true;
        } else {
            i = i + 1;
        }
    }
    if !found {
        proof {
            lemma_find_char_stop(line@, 0, '=', n as int);
        }
        return None;
    }
    proof {
        lemma_find_char_stop(line@, 0, '=', eq as int);
    }
    let mut name: Vec<char> = Vec::new();
    let mut j: usize = 0;
    while j < eq
        invariant
            j <= eq < line@.len(),
            name@ == line@.subrange(0, j as int),
        decreases eq - j,
    {
        name.push(line[j]);
        j = j + 1;
        proof {
            assert(name@ =~= line@.subrange(0, j as int));
        }
    }
    let name = trim_line_ws(&name);
    if name.len() == 0 {
        return None;
    }
    let mut value: Vec<char> = Vec::new();
    let mut k: usize = eq + 1;
    while k < n
        invariant
            eq + 1 <= k <= n,
            n == line@.len(),
            value@ == line@.subrange(eq + 1, k as int),
        decreases n - k,
    {
        value.push(line[k]);
        k = k + 1;
        proof {
            assert(value@ =~= line@.subrange(eq + 1, k as int));
        }
    }
    let value = trim_line_ws(&value);
    let value = trim_quotes(&value);
    Some((string_of(&name), string_of(&value)))
}

/// The `auto.conf` line for one symbol: `NAME=value` under the name as
/// declared, or nothing for `n` or unset symbols.
pub open spec fn spec_auto_conf_line(sym: Symbol) -> Seq<char> {
    match sym.value {
        Some(v) => if v@ == seq!['n'] {
            Seq::empty()
        } else {
            sym.name@ + seq!['='] + v@ + seq!['\n']
        },
        None => Seq::empty(),
    }
}

/// The `auto.conf` lines for the first `k` symbols.
pub open spec fn spec_auto_conf_body(t: Seq<Symbol>, k: int) -> Seq<char>
    decreases k,
{
    if k <= 0 {
        Seq::empty()
    } else {
        spec_auto_conf_body(t, k - 1) + spec_auto_conf_line(t[k - 1])
    }
}

/// The `autoconf.h` line for one symbol: `#define NAME 1` for `y` and `m`
/// (modules are treated as built in), nothing for `n` or unset, and
/// `#define NAME "value"` for everything else.
pub open spec fn spec_autoconf_h_line(sym: Symbol) -> Seq<char> {
    match sym.value {
        Some(v) => if v@ == seq!['n'] {
            Seq::empty()
        } else if v@ == seq!['y'] || v@ == seq!['m'] {
            "#define "@ + sym.name@ + seq![' ', '1', '\n']
        } else {
            "#define "@ + sym.name@ + seq![' ', '"'] + v@ + seq!['"', '\n']
        },
        None => Seq::empty(),
    }
}

/// The `autoconf.h` lines for the first `k` symbols.
pub open spec fn spec_autoconf_h_body(t: Seq<Symbol>, k: int) -> Seq<char>
    decreases k,
{
    if k <= 0 {
        Seq::empty()
    } else {
        spec_autoconf_h_body(t, k - 1) + spec_autoconf_h_line(t[k - 1])
    }
}

impl ConfigGenerator {
    /// Renders the `auto.conf` build artifact: the generated-file header,
    /// then `NAME=value` for every enabled symbol.
    pub fn render_auto_conf(symbols: &SymbolTable) -> (r: String)
        ensures
            r@ == "#\n# Automatically generated file; DO NOT EDIT.\n#\n"@ + spec_auto_conf_body(
                symbols.symbols@,
                symbols.symbols@.len() as int,
            ),
    {
        let mut out: Vec<char> = Vec::new();
        push_str(&mut out, "#\n# Automatically generated file; DO NOT EDIT.\n#\n");
        let ghost header = out@;
        let t = &symbols.symbols;
        let mut i: usize = 0;
        while i < t.len()
            invariant
                i <= t@.len(),
                out@ == header + spec_auto_conf_body(t@, i as int),
            decreases t@.len() - i,
        {
            let sym = &t[i];
            match &sym.value {
                Some(v) => {
                    if !value_is(v, "n") {
                        proof {
                            reveal_strlit("n");
                            assert("n"@ =~= seq!['n']);
                        }
                        push_str(&mut out, sym.name.as_str());
                        out.push('=');
                        push_str(&mut out, v.as_str());
                        out.push('\n');
                    } else {
                        proof {
                            reveal_strlit("n");
                            assert("n"@ =~= seq!['n']);
                        }
                    }
                },
                None => {},
            }
            i = i + 1;
            proof {
                assert(out@ =~= header + spec_auto_conf_body(t@, i as int));
            }
        }
        string_of(&out)
    }

    /// Renders the `autoconf.h` build artifact: a C comment header, then
    /// one `#define` per enabled symbol (modules are treated as built
    /// in), with string-like values quoted.
    pub fn render_autoconf_h(symbols: &SymbolTable) -> (r: String)
        ensures
            r@ == "/*\n * Automatically generated file; DO NOT EDIT.\n */\n\n"@
                + spec_autoconf_h_body(symbols.symbols@, symbols.symbols@.len() as int),
    {
        let mut out: Vec<char> = Vec::new();
        push_str(&mut out, "/*\n * Automatically generated file; DO NOT EDIT.\n */\n\n");
        let ghost header = out@;
        let t = &symbols.symbols;
        let mut i: usize = 0;
        while i < t.len()
            invariant
                i <= t@.len(),
                out@ == header + spec_autoconf_h_body(t@, i as int),
            decreases t@.len() - i,
        {
            let sym = &t[i];
            match &sym.value {
                Some(v) => {
                    proof {
                        reveal_strlit("y");
                        reveal_strlit("m");
                        reveal_strlit("n");
                        assert("y"@ =~= seq!['y']);
                        assert("m"@ =~= seq!['m']);
                        assert("n"@ =~= seq!['n']);
                    }
                    if value_is(v, "n") {
                    } else if value_is(v, "y") || value_is(v, "m") {
                        push_str(&mut out, "#define ");
                        push_str(&mut out, sym.name.as_str());
                        out.push(' ');
                        out.push('1');
                        out.push('\n');
                    } else {
                        push_str(&mut out, "#define ");
                        push_str(&mut out, sym.name.as_str());
                        out.push(' ');
                        out.push('"');
                        push_str(&mut out, v.as_str());
                        out.push('"');
                        out.push('\n');
                    }
                },
                None => {},
            }
            i = i + 1;
            proof {
                assert(out@ =~= header + spec_autoconf_h_body(t@, i as int));
            }
        }
        string_of(&out)
    }
}

/// The round trip of one saved line: what the writer emits for a symbol
/// with a stored value, the reader's line rules read back as exactly the
/// stored pair — `y`, `m` and numeric or string text alike, with the
/// `# NAME is not set` form recovering `n`.  The name must be a plain
/// word (non-empty, no whitespace, no `=`, not opening with `#`) and the
/// value must not carry a quote at either edge (the writer does not
/// escape quotes, so such a value would read back shorter).
pub proof fn lemma_config_line_round_trip(sym: Symbol)
    requires
        sym.name@.len() > 0,
        sym.name@[0] != '#',
        forall|j: int|
            0 <= j < sym.name@.len() ==> !spec_is_ws(#[trigger] sym.name@[j]) && sym.name@[j]
                != '=',
        sym.value matches Some(v) && (v@.len() > 0 ==> v@[0] != '"' && v@.last() != '"'),
    ensures
        spec_parse_config_line(spec_trim_ws(spec_config_line(sym).drop_last())) == Some(
            (sym.name@, sym.value->0@),
        ),
{
    let name = sym.name@;
    let v = sym.value->0@;
    if v == seq!['y'] || v == seq!['m'] {
        let s = name + seq!['='] + v;
        assert(spec_config_line(sym).drop_last() =~= s);
        lemma_lead_ws_run(s, 0);
        lemma_trail_ws_run(s, 0);
        assert(spec_trim_ws(s) =~= s);
        assert(s[0] == name[0]);
        assert forall|q: int| 0 <= q < name.len() implies s[q] != '=' by {
            assert(s[q] == name[q]);
        }
        assert(s[name.len() as int] == '=');
        lemma_find_char_stop(s, 0, '=', name.len() as int);
        assert(s.subrange(0, name.len() as int) =~= name);
        lemma_lead_ws_run(name, 0);
        lemma_trail_ws_run(name, 0);
        assert(spec_trim_ws(name) =~= name);
        let vp = s.subrange(name.len() as int + 1, s.len() as int);
        assert(vp =~= v);
        lemma_lead_ws_run(v, 0);
        lemma_trail_ws_run(v, 0);
        assert(spec_trim_ws(v) =~= v);
        crate::value::lemma_lead_quotes_run(v, 0);
        crate::value::lemma_trail_quotes_run(v, 0);
        assert(crate::value::spec_trim_quotes(v) =~= v);
    } else if v == seq!['n'] {
        let s = seq!['#', ' '] + name + spec_not_set_suffix();
        assert(spec_config_line(sym).drop_last() =~= s);
        lemma_lead_ws_run(s, 0);
        lemma_trail_ws_run(s, 0);
        assert(spec_trim_ws(s) =~= s);
        assert(s.len() >= 14);
        assert(s.subrange(0, 2) =~= seq!['#', ' ']);
        assert(s.subrange(s.len() - 11, s.len() as int) =~= spec_not_set_suffix());
        assert(s.subrange(2, s.len() - 11) =~= name);
    } else {
        let s = name + seq!['=', '"'] + v + seq!['"'];
        assert(spec_config_line(sym).drop_last() =~= s);
        lemma_lead_ws_run(s, 0);
        lemma_trail_ws_run(s, 0);
        assert(spec_trim_ws(s) =~= s);
        assert(s[0] == name[0]);
        assert forall|q: int| 0 <= q < name.len() implies s[q] != '=' by {
            assert(s[q] == name[q]);
        }
        assert(s[name.len() as int] == '=');
        lemma_find_char_stop(s, 0, '=', name.len() as int);
        assert(s.subrange(0, name.len() as int) =~= name);
        lemma_lead_ws_run(name, 0);
        lemma_trail_ws_run(name, 0);
        assert(spec_trim_ws(name) =~= name);
        let vp = s.subrange(name.len() as int + 1, s.len() as int);
        assert(vp =~= seq!['"'] + v + seq!['"']);
        lemma_lead_ws_run(vp, 0);
        lemma_trail_ws_run(vp, 0);
        assert(spec_trim_ws(vp) =~= vp);
        if v.len() == 0 {
            assert(vp =~= seq!['"', '"']);
            crate::value::lemma_lead_quotes_run(vp, 2);
            assert(crate::value::spec_trim_quotes(vp) =~= v);
        } else {
            assert(vp[0] == '"' && vp[1] == v[0] && v[0] != '"');
            crate::value::lemma_lead_quotes_run(vp, 1);
            assert(vp[vp.len() - 1] == '"' && vp[vp.len() - 2] == v.last() && v.last() != '"');
            crate::value::lemma_trail_quotes_run(vp, 1);
            assert(crate::value::spec_trim_quotes(vp) =~= v);
        }
    }
}

} // verus!
