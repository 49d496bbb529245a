//! Declared symbol types and the tagged values a configuration symbol can
//! hold, together with the conversions between raw value text (as stored in
//! a saved configuration) and typed values.

use vstd::prelude::*;

use crate::text::{
    chars_of, int_string, parse_int, spec_int_seq, spec_int_val, spec_is_int_literal, str_eq,
    string_of,
};
use crate::tristate::Tristate;

verus! {

/// The declared type of a configuration symbol.
#[derive(Debug, Clone, Copy, PartialEq, Eq, Structural)]
pub enum SymbolType {
    Bool,
    Tristate,
    String,
    Int,
    Hex,
}

/// A typed configuration value.  The active variant always matches the
/// owning symbol's declared type.
#[derive(Debug, Clone)]
pub enum ConfigValue {
    Bool(bool),
    Tristate(Tristate),
    String(String),
    Int(i64),
    Hex(String),
}

/// The value the interactive toggle key moves to: a boolean flips, a
/// tristate cycles `No` to `Yes` to `Module` and back to `No`, and other
/// types (edited as text, not toggled) give nothing.
pub fn toggled(v: &ConfigValue) -> (r: Option<ConfigValue>)
    ensures
        match v@ {
            ValueView::Bool(b) => r matches Some(n) && n@ == ValueView::Bool(!b),
            ValueView::Tristate(t) => r matches Some(n) && n@ == ValueView::Tristate(
                match t {
                    Tristate::No => Tristate::Yes,
                    Tristate::Yes => Tristate::Module,
                    Tristate::Module => Tristate::No,
                },
            ),
            _ => r is None,
        },
{
    match v {
        ConfigValue::Bool(b) => Some(ConfigValue::Bool(!b)),
        ConfigValue::Tristate(t) => Some(
            ConfigValue::Tristate(
                match t {
                    Tristate::No => Tristate::Yes,
                    Tristate::Yes => Tristate::Module,
                    Tristate::Module => Tristate::No,
                },
            ),
        ),
        _ => None,
    }
}

/// The mathematical shape of a [`ConfigValue`]: text fields are viewed as
/// character sequences.
pub enum ValueView {
    Bool(bool),
    Tristate(Tristate),
    String(Seq<char>),
    Int(int),
    Hex(Seq<char>),
}

impl View for ConfigValue {
    type V = ValueView;

    open spec fn view(&self) -> ValueView {
        match self {
            ConfigValue::Bool(b) => ValueView::Bool(*b),
            ConfigValue::Tristate(t) => ValueView::Tristate(*t),
            ConfigValue::String(s) => ValueView::String(s@),
            ConfigValue::Int(i) => ValueView::Int(*i as int),
            ConfigValue::Hex(h) => ValueView::Hex(h@),
        }
    }
}

/// Whether a value's variant matches a declared type.
pub open spec fn spec_matches_type(v: ValueView, t: SymbolType) -> bool {
    match v {
        ValueView::Bool(_) => t is Bool,
        ValueView::Tristate(_) => t is Tristate,
        ValueView::String(_) => t is String,
        ValueView::Int(_) => t is Int,
        ValueView::Hex(_) => t is Hex,
    }
}

/// Whether `v`'s variant matches the declared type `t`.
pub fn value_matches_type(v: &ConfigValue, t: SymbolType) -> (r: bool)
    ensures
        r == spec_matches_type(v@, t),
{
    match (v, t) {
        (ConfigValue::Bool(_), SymbolType::Bool) => true,
        (ConfigValue::Tristate(_), SymbolType::Tristate) => true,
        (ConfigValue::String(_), SymbolType::String) => true,
        (ConfigValue::Int(_), SymbolType::Int) => true,
        (ConfigValue::Hex(_), SymbolType::Hex) => true,
        _ => false,
    }
}

/// The raw text form under which a typed value is stored in the symbol
/// table and in saved configurations: `y`/`n` for booleans, `y`/`m`/`n`
/// for tristates, the decimal numeral for integers, and the text itself
/// for string and hex values.
pub open spec fn spec_store_text(v: ValueView) -> Seq<char> {
    match v {
        ValueView::Bool(b) => if b {
            seq!['y']
        } else {
            seq!['n']
        },
        ValueView::Tristate(t) => match t {
            Tristate::Yes => seq!['y'],
            Tristate::Module => seq!['m'],
            Tristate::No => seq!['n'],
        },
        ValueView::String(s) => s,
        ValueView::Int(i) => spec_int_seq(i),
        ValueView::Hex(h) => h,
    }
}

/// Renders a typed value into its raw stored text form.
pub fn store_text(v: &ConfigValue) -> (s: String)
    ensures
        s@ == spec_store_text(v@),
{
    match v {
        ConfigValue::Bool(b) => {
            if *b {
                let r = String::from_str("y");
                proof {
                    reveal_strlit("y");
                    assert(r@ =~= seq!['y']);
                }
                r
            } else {
                let r = String::from_str("n");
                proof {
                    reveal_strlit("n");
                    assert(r@ =~= seq!['n']);
                }
                r
            }
        },
        ConfigValue::Tristate(t) => {
            let lit = match t {
                Tristate::Yes => "y",
                Tristate::Module => "m",
                Tristate::No => "n",
            };
            let r = String::from_str(lit);
            proof {
                reveal_strlit("y");
                reveal_strlit("m");
                reveal_strlit("n");
                assert(r@ =~= spec_store_text(v@));
            }
            r
        },
        ConfigValue::String(s) => s.clone(),
        ConfigValue::Int(i) => int_string(*i),
        ConfigValue::Hex(h) => h.clone(),
    }
}

/// The tristate denoted by raw value text: `y` is `Yes`, `m` is `Module`,
/// anything else is `No`.
pub open spec fn spec_tristate_of_text(s: Seq<char>) -> Tristate {
    if s == seq!['y'] {
        Tristate::Yes
    } else if s == seq!['m'] {
        Tristate::Module
    } else {
        Tristate::No
    }
}

/// Reads raw value text as a tristate.
pub fn tristate_of_text(s: &str) -> (t: Tristate)
    ensures
        t == spec_tristate_of_text(s@),
{
    proof {
        reveal_strlit("y");
        reveal_strlit("m");
    }
    if str_eq(s, "y") {
        proof {
            assert(s@ =~= seq!['y']);
        }
        Tristate::Yes
    } else if str_eq(s, "m") {
        proof {
            assert(s@ =~= seq!['m']);
            assert("y"@ =~= seq!['y']);
        }
        Tristate::Module
    } else {
        proof {
            assert("y"@ =~= seq!['y']);
            assert("m"@ =~= seq!['m']);
        }
        Tristate::No
    }
}

/// How many leading quote characters `s` carries.
pub open spec fn spec_lead_quotes(s: Seq<char>) -> int
    decreases s.len(),
{
    if s.len() > 0 && s[0] == '"' {
        1 + spec_lead_quotes(s.subrange(1, s.len() as int))
    } else {
        0
    }
}

/// How many trailing quote characters `s` carries.
pub open spec fn spec_trail_quotes(s: Seq<char>) -> int
    decreases s.len(),
{
    if s.len() > 0 && s.last() == '"' {
        1 + spec_trail_quotes(s.drop_last())
    } else {
        0
    }
}

/// `s` with every leading and trailing quote character removed (all of
/// them, as `str::trim_matches` does); a run of quotes alone trims to the
/// empty text.
pub open spec fn spec_trim_quotes(s: Seq<char>) -> Seq<char> {
    let a = spec_lead_quotes(s);
    if a == s.len() {
        Seq::empty()
    } else {
        s.subrange(a, s.len() - spec_trail_quotes(s))
    }
}

proof fn lemma_lead_quotes(s: Seq<char>)
    ensures
        0 <= spec_lead_quotes(s) <= s.len(),
        forall|j: int| 0 <= j < spec_lead_quotes(s) ==> s[j] == '"',
        spec_lead_quotes(s) < s.len() ==> s[spec_lead_quotes(s)] != '"',
    decreases s.len(),
{
    if s.len() > 0 && s[0] == '"' {
        let t = s.subrange(1, s.len() as int);
        lemma_lead_quotes(t);
        assert forall|j: int| 0 <= j < spec_lead_quotes(s) implies s[j] == '"' by {
            if j >= 1 {
                assert(s[j] == t[j - 1]);
            }
        }
        if spec_lead_quotes(s) < s.len() {
            assert(s[spec_lead_quotes(s)] == t[spec_lead_quotes(s) - 1]);
        }
    }
}

proof fn lemma_trail_quotes(s: Seq<char>)
    ensures
        0 <= spec_trail_quotes(s) <= s.len(),
        forall|j: int| s.len() - spec_trail_quotes(s) <= j < s.len() ==> s[j] == '"',
        spec_trail_quotes(s) < s.len() ==> s[s.len() - spec_trail_quotes(s) - 1] != '"',
    decreases s.len(),
{
    if s.len() > 0 && s.last() == '"' {
        let t = s.drop_last();
        lemma_trail_quotes(t);
        assert forall|j: int| s.len() - spec_trail_quotes(s) <= j < s.len() implies s[j]
            == '"' by {
            if j < s.len() - 1 {
                assert(s[j] == t[j]);
            }
        }
        if spec_trail_quotes(s) < s.len() {
            assert(s[s.len() - spec_trail_quotes(s) - 1] == t[t.len() - spec_trail_quotes(t) - 1]);
        }
    }
}

/// Counting leading quotes is determined by their run: if the first `k`
/// characters are quotes and position `k` is not (or is the end), the count
/// is exactly `k`.
pub(crate) proof fn lemma_lead_quotes_run(s: Seq<char>, k: int)
    requires
        0 <= k <= s.len(),
        forall|j: int| 0 <= j < k ==> s[j] == '"',
        k < s.len() ==> s[k] != '"',
    ensures
        spec_lead_quotes(s) == k,
    decreases k,
{
    if k > 0 {
        lemma_lead_quotes_run(s.subrange(1, s.len() as int), k - 1);
    }
}

pub(crate) proof fn lemma_trail_quotes_run(s: Seq<char>, k: int)
    requires
        0 <= k <= s.len(),
        forall|j: int| s.len() - k <= j < s.len() ==> s[j] == '"',
        k < s.len() ==> s[s.len() - k - 1] != '"',
    ensures
        spec_trail_quotes(s) == k,
    decreases k,
{
    if k > 0 {
        lemma_trail_quotes_run(s.drop_last(), k - 1);
    }
}

/// Strips all leading and trailing quote characters from `v`.
pub fn trim_quotes(v: &Vec<char>) -> (r: Vec<char>)
    ensures
        r@ == spec_trim_quotes(v@),
{
    let n = v.len();
    let mut lo: usize = 0;
    while lo < n && v[lo] == '"'
        invariant
            n == v@.len(),
            lo <= n,
            forall|j: int| 0 <= j < lo ==> v@[j] == '"',
        decreases n - lo,
    {
        lo = lo + 1;
    }
    proof {
        lemma_lead_quotes_run(v@, lo as int);
    }
    if lo == n {
        let r: Vec<char> = Vec::new();
        proof {
            assert(r@ =~= spec_trim_quotes(v@));
        }
        return r;
    }
    let mut hi: usize = n;
    while hi > lo && v[hi - 1] == '"'
        invariant
            n == v@.len(),
            lo <= hi <= n,
            lo < n,
            forall|j: int| hi <= j < n ==> v@[j] == '"',
        decreases hi,
    {
        hi = hi - 1;
    }
    proof {
        if hi > lo {
            lemma_trail_quotes_run(v@, n - hi);
        } else {
            assert(v@[lo as int] != '"');
            lemma_trail_quotes_run(v@, n - hi);
        }
    }
    let mut r: Vec<char> = Vec::new();
    let mut i: usize = lo;
    while i < hi
        invariant
            lo <= i <= hi <= v@.len(),
            r@ == v@.subrange(lo as int, i as int),
        decreases hi - i,
    {
        r.push(v[i]);
        i = i + 1;
        proof {
            assert(r@ =~= v@.subrange(lo as int, i as int));
        }
    }
    proof {
        assert(r@ =~= spec_trim_quotes(v@));
    }
    r
}

/// The typed reading of raw value text under a declared type: booleans are
/// `y`, tristates follow `y`/`m`/other, strings are unquoted, integers are
/// parsed from decimal (unparseable text reads as zero), hex text is kept
/// as written.
pub open spec fn spec_parse_typed(s: Seq<char>, t: SymbolType) -> ValueView {
    match t {
        SymbolType::Bool => ValueView::Bool(s == seq!['y']),
        SymbolType::Tristate => ValueView::Tristate(spec_tristate_of_text(s)),
        SymbolType::String => ValueView::String(spec_trim_quotes(s)),
        SymbolType::Int => ValueView::Int(
            if spec_is_int_literal(s) && i64::MIN <= spec_int_val(s) <= i64::MAX {
                spec_int_val(s)
            } else {
                0
            },
        ),
        SymbolType::Hex => ValueView::Hex(s),
    }
}

/// Reads raw value text as a typed value of the declared type `t`.
pub fn parse_typed(value: &str, t: SymbolType) -> (r: ConfigValue)
    ensures
        r@ == spec_parse_typed(value@, t),
        spec_matches_type(r@, t),
{
    match t {
        SymbolType::Bool => {
            proof {
                reveal_strlit("y");
                assert("y"@ =~= seq!['y']);
            }
            ConfigValue::Bool(str_eq(value, "y"))
        },
        SymbolType::Tristate => ConfigValue::Tristate(tristate_of_text(value)),
        SymbolType::String => {
            let cs = chars_of(value);
            let trimmed = trim_quotes(&cs);
            ConfigValue::String(string_of(&trimmed))
        },
        SymbolType::Int => {
            let cs = chars_of(value);
            match parse_int(&cs) {
                Some(n) => ConfigValue::Int(n),
                None => ConfigValue::Int(0),
            }
        },
        SymbolType::Hex => ConfigValue::Hex(value.to_owned()),
    }
}

} // verus!
