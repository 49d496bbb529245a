//! The engine's general laws, stated and proved against the resolution
//! model: dependency gating collapses a symbol to its off value and keeps
//! the stored user value untouched, the select floor wins over a user's
//! `n`, and a choice member reads as its stored `y`/`n` under the
//! conditions the engine guarantees after a mutation.
//!
//! The tristate algebra itself is proved in [`crate::tristate`].

use vstd::prelude::*;

use crate::resolve::{
    s_cond_holds, s_conds, s_defaults, s_default_text, s_default_value, s_floor, s_ref_tri, s_sym,
    s_userdef, spec_apply_floor, spec_off_value, spec_value_tri, wf_vis,
};
use crate::symbol::Symbol;
use crate::tristate::Tristate;
use crate::value::{spec_matches_type, spec_parse_typed, SymbolType, ValueView};

verus! {

/// An empty visiting stack is well formed, and pushing one symbol keeps
/// it so.
proof fn lemma_empty_vis(n: int, i: int)
    requires
        0 <= i < n,
    ensures
        wf_vis(n, Seq::<int>::empty()),
        wf_vis(n, Seq::<int>::empty().push(i)),
        !Seq::<int>::empty().contains(i),
{
    let e = Seq::<int>::empty();
    assert(e.no_duplicates());
    let v = e.push(i);
    assert(forall|k: int| 0 <= k < v.len() ==> v[k] == i);
    assert(v.no_duplicates());
}

/// Visibility gating: when a symbol's dependency conditions (inherited
/// menu conditions included) evaluate to `No`, its effective value is its
/// type's off value, whatever user value is stored.  The stored value
/// itself is untouched: the model reads the table and never changes it,
/// so satisfying the dependencies again reveals the stored value
/// unchanged.
pub proof fn lemma_visibility_gating(t: Seq<Symbol>, i: int)
    requires
        0 <= i < t.len(),
        s_conds(t, t[i].depends@, 0, Seq::<int>::empty().push(i)) == Ok::<Tristate, ()>(
            Tristate::No,
        ),
    ensures
        s_sym(t, i, Seq::<int>::empty()) == Ok::<ValueView, ()>(
            spec_off_value(t[i].symbol_type),
        ),
{
    lemma_empty_vis(t.len() as int, i);
}

/// Reading raw text under a declared type yields that type's variant.
proof fn lemma_parse_typed_matches(s: Seq<char>, ty: SymbolType)
    ensures
        spec_matches_type(spec_parse_typed(s, ty), ty),
{
    match ty {
        SymbolType::Bool => {},
        SymbolType::Tristate => {},
        SymbolType::String => {},
        SymbolType::Int => {},
        SymbolType::Hex => {},
    }
}

/// Every value one default clause can produce matches the declared type.
proof fn lemma_default_value_match(
    t: Seq<Symbol>,
    ty: SymbolType,
    dv: crate::ast::DefaultValue,
    vis: Seq<int>,
)
    requires
        wf_vis(t.len() as int, vis),
    ensures
        s_default_value(t, ty, dv, vis) matches Ok(v) ==> spec_matches_type(v, ty),
{
    match dv {
        crate::ast::DefaultValue::Text(s) => {
            lemma_parse_typed_matches(s@, ty);
        },
        crate::ast::DefaultValue::Expr(e) => {
            match ty {
                SymbolType::Bool => {},
                SymbolType::Tristate => {},
                _ => {
                    match s_default_text(t, e, vis) {
                        Ok(txt) => {
                            lemma_parse_typed_matches(txt, ty);
                        },
                        Err(_) => {},
                    }
                },
            }
        },
    }
}

/// Every value the default clauses can produce matches the declared type.
proof fn lemma_defaults_match_type(
    t: Seq<Symbol>,
    ty: SymbolType,
    ds: Seq<crate::ast::DefaultClause>,
    k: int,
    vis: Seq<int>,
)
    requires
        0 <= k <= ds.len(),
        wf_vis(t.len() as int, vis),
    ensures
        s_defaults(t, ty, ds, k, vis) matches Ok(v) ==> spec_matches_type(v, ty),
    decreases ds.len() - k,
{
    if k < ds.len() {
        lemma_defaults_match_type(t, ty, ds, k + 1, vis);
        lemma_default_value_match(t, ty, ds[k].value, vis);
    }
}

/// The user-or-default base value matches the declared type.
proof fn lemma_userdef_matches_type(t: Seq<Symbol>, i: int, vis: Seq<int>)
    requires
        0 <= i < t.len(),
        wf_vis(t.len() as int, vis),
    ensures
        s_userdef(t, i, vis) matches Ok(v) ==> spec_matches_type(v, t[i].symbol_type),
{
    lemma_defaults_match_type(t, t[i].symbol_type, t[i].defaults@, 0, vis);
}

/// The select floor collects at least the strength of every selector
/// whose condition holds.
#[verifier::rlimit(100)]
proof fn lemma_floor_at_least(
    t: Seq<Symbol>,
    rs: Seq<crate::symbol::RevSelect>,
    k: int,
    m: int,
    vis: Seq<int>,
)
    requires
        0 <= k <= m < rs.len(),
        wf_vis(t.len() as int, vis),
    ensures
        match (s_floor(t, rs, k, vis), s_cond_holds(t, rs[m].cond, vis), s_ref_tri(
            t,
            rs[m].selector@,
            vis,
        )) {
            (Ok(f), Ok(holds), Ok(st)) => holds ==> f.rank() >= st.rank(),
            _ => true,
        },
    decreases m - k,
{
    if k < m {
        lemma_floor_at_least(t, rs, k + 1, m, vis);
    }
}

/// The select floor: when some reverse-selector of symbol `i` has a
/// satisfied condition and is effectively `Yes`, and `i` itself is a
/// visible boolean or tristate symbol, then `i` resolves to `Yes` — even
/// if the user stored `n` underneath.
#[verifier::rlimit(100)]
pub proof fn lemma_select_floor(t: Seq<Symbol>, i: int, m: int)
    requires
        0 <= i < t.len(),
        0 <= m < t[i].rev_selects@.len(),
        s_cond_holds(t, t[i].rev_selects@[m].cond, Seq::<int>::empty().push(i)) == Ok::<bool, ()>(
            true,
        ),
        s_ref_tri(t, t[i].rev_selects@[m].selector@, Seq::<int>::empty().push(i)) == Ok::<
            Tristate,
            (),
        >(Tristate::Yes),
        (s_conds(t, t[i].depends@, 0, Seq::<int>::empty().push(i)) matches Ok(v) && v
            != Tristate::No),
        t[i].symbol_type is Bool || t[i].symbol_type is Tristate,
    ensures
        s_sym(t, i, Seq::<int>::empty()) matches Ok(v) ==> spec_value_tri(v) == Tristate::Yes,
{
    lemma_empty_vis(t.len() as int, i);
    let vis2 = Seq::<int>::empty().push(i);
    lemma_floor_at_least(t, t[i].rev_selects@, 0, m, vis2);
    lemma_userdef_matches_type(t, i, vis2);
    match s_floor(t, t[i].rev_selects@, 0, vis2) {
        Ok(f) => {
            assert(f.rank() >= 2);
            assert(f == Tristate::Yes);
        },
        Err(_) => {},
    }
}

/// A visible boolean or tristate symbol with a stored `y` resolves to
/// `Yes`: the select floor can only raise it further.
pub proof fn lemma_stored_yes_reads_yes(t: Seq<Symbol>, i: int)
    requires
        0 <= i < t.len(),
        t[i].symbol_type is Bool || t[i].symbol_type is Tristate,
        (t[i].value matches Some(sv) && sv@ == seq!['y']),
        (s_conds(t, t[i].depends@, 0, Seq::<int>::empty().push(i)) matches Ok(v) && v
            != Tristate::No),
    ensures
        s_sym(t, i, Seq::<int>::empty()) matches Ok(v) ==> spec_value_tri(v) == Tristate::Yes,
{
    lemma_empty_vis(t.len() as int, i);
}

/// A boolean or tristate symbol with a stored `n` and no active select
/// floor resolves to `No` — whether it is invisible (off value) or
/// visible (the stored `n` read back).  With
/// [`crate::symbol::SymbolTable::set_user_value`]'s guarantee that
/// setting a choice member to `y` stores `n` in every sibling, this is
/// the choice-exclusivity law: the chosen member alone reads `Yes`.
pub proof fn lemma_stored_no_reads_no(t: Seq<Symbol>, i: int)
    requires
        0 <= i < t.len(),
        t[i].symbol_type is Bool || t[i].symbol_type is Tristate,
        (t[i].value matches Some(sv) && sv@ == seq!['n']),
        s_floor(t, t[i].rev_selects@, 0, Seq::<int>::empty().push(i)) == Ok::<Tristate, ()>(
            Tristate::No,
        ),
    ensures
        s_sym(t, i, Seq::<int>::empty()) matches Ok(v) ==> spec_value_tri(v) == Tristate::No,
{
    lemma_empty_vis(t.len() as int, i);
    assert(seq!['n'][0] == 'n');
    assert(seq!['y'][0] == 'y');
    assert(seq!['m'][0] == 'm');
}

} // verus!
