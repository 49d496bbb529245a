//! The resolution engine: computes, for a given symbol table, the
//! effective value and visibility of every symbol, applying tristate
//! algebra, `select` forcing, `depends on` gating, range clamping and the
//! declared defaults.
//!
//! Evaluation is cycle-guarded: each recursive descent carries the set of
//! symbols currently being evaluated, and re-entering one of them reports
//! a cyclic dependency instead of recursing forever.  The mathematical
//! model below (`s_sym` and its companions) is the exact specification of
//! the executable engine; every executable function returns precisely what
//! the model returns.

use vstd::prelude::*;

use crate::ast::{DefaultClause, DefaultValue, RangeClause};
use crate::expr::{Expr, ExprTerm};
use crate::symbol::{spec_has, spec_ix, RevSelect, Symbol};
use crate::tristate::Tristate;
use crate::value::{spec_matches_type, spec_parse_typed, spec_store_text, ConfigValue, SymbolType, ValueView};

verus! {

/// An error of the resolution engine.
#[derive(Debug)]
pub enum ResolutionError {
    /// Evaluation re-entered a symbol that is already being evaluated:
    /// the named symbols form a dependency cycle.
    CyclicDependency { symbols: Vec<String> },
    /// A user-set value's variant does not match the symbol's declared
    /// type.
    TypeMismatch { name: String },
    /// A user-set numeric value falls outside the symbol's active range.
    OutOfRange { name: String },
}

/// The indices of an executable visiting stack, as mathematical integers.
pub open spec fn ints(vis: Seq<usize>) -> Seq<int> {
    vis.map_values(|x: usize| x as int)
}

/// A well-formed visiting stack for a table of `n` symbols: distinct
/// indices, all in bounds.
pub open spec fn wf_vis(n: int, vis: Seq<int>) -> bool {
    &&& vis.no_duplicates()
    &&& forall|k: int| 0 <= k < vis.len() ==> 0 <= #[trigger] vis[k] < n
}

/// A well-formed visiting stack cannot be larger than the table.
pub proof fn lemma_vis_bound(n: int, vis: Seq<int>)
    requires
        n >= 0,
        wf_vis(n, vis),
    ensures
        vis.len() <= n,
{
    vis.unique_seq_to_set();
    vstd::set_lib::lemma_int_range(0, n);
    assert forall|x: int| vis.to_set().contains(x) implies vstd::set_lib::set_int_range(
        0,
        n,
    ).contains(x) by {
        assert(vis.contains(x));
    }
    assert(vis.to_set().subset_of(vstd::set_lib::set_int_range(0, n)));
    vstd::set_lib::lemma_len_subset(vis.to_set(), vstd::set_lib::set_int_range(0, n));
}

/// The type's "off"/zero value, to which an invisible or wholly
/// undefaulted symbol collapses.
pub open spec fn spec_off_value(t: SymbolType) -> ValueView {
    match t {
        SymbolType::Bool => ValueView::Bool(false),
        SymbolType::Tristate => ValueView::Tristate(Tristate::No),
        SymbolType::String => ValueView::String(Seq::empty()),
        SymbolType::Int => ValueView::Int(0),
        SymbolType::Hex => ValueView::Hex(seq!['0', 'x', '0']),
    }
}

/// Raises a boolean or tristate value to at least the select floor; other
/// types are not subject to `select`.
pub open spec fn spec_apply_floor(t: SymbolType, base: ValueView, floor: Tristate) -> ValueView {
    match t {
        SymbolType::Bool => match base {
            ValueView::Bool(b) => ValueView::Bool(b || floor != Tristate::No),
            _ => base,
        },
        SymbolType::Tristate => match base {
            ValueView::Tristate(v) => ValueView::Tristate(v.spec_or(floor)),
            _ => base,
        },
        _ => base,
    }
}

/// An integer value clamped to an active range.
pub open spec fn spec_clamp(v: int, range: Option<(i64, i64)>) -> int {
    match range {
        None => v,
        Some((lo, hi)) => if v < lo {
            lo as int
        } else if v > hi {
            hi as int
        } else {
            v
        },
    }
}

/// The effective value of symbol `i`, given the set of symbol indices
/// already being evaluated.  `Err` reports a dependency cycle.
///
/// Precedence: an invisible symbol collapses to its type's off value;
/// otherwise the stored user value (range-clamped), or else the first
/// default whose condition holds, or else the off value, is raised to the
/// select floor.
pub open spec fn s_sym(t: Seq<Symbol>, i: int, vis: Seq<int>) -> Result<ValueView, ()>
    decreases t.len() - vis.len(), 0int, 0int
        when 0 <= i < t.len() && wf_vis(t.len() as int, vis)
        via s_sym_decreases
{
    if vis.contains(i) {
        Err(())
    } else {
        let vis2 = vis.push(i);
        match s_conds(t, t[i].depends@, 0, vis2) {
            Err(e) => Err(e),
            Ok(visb) => {
                if visb == Tristate::No {
                    Ok(spec_off_value(t[i].symbol_type))
                } else {
                    match s_floor(t, t[i].rev_selects@, 0, vis2) {
                        Err(e) => Err(e),
                        Ok(floor) => match s_userdef(t, i, vis2) {
                            Err(e) => Err(e),
                            Ok(base) => Ok(
                                spec_apply_floor(t[i].symbol_type, base, floor),
                            ),
                        },
                    }
                }
            },
        }
    }
}

#[via_fn]
proof fn s_sym_decreases(t: Seq<Symbol>, i: int, vis: Seq<int>) {
    lemma_vis_bound(t.len() as int, vis);
    if 0 <= i < t.len() && wf_vis(t.len() as int, vis) && !vis.contains(i) {
        lemma_vis_push(t.len() as int, vis, i);
        lemma_vis_bound(t.len() as int, vis.push(i));
    }
}

/// Pushing a fresh in-bounds index keeps a visiting stack well formed.
pub proof fn lemma_vis_push(n: int, vis: Seq<int>, i: int)
    requires
        wf_vis(n, vis),
        0 <= i < n,
        !vis.contains(i),
    ensures
        wf_vis(n, vis.push(i)),
        vis.push(i).len() == vis.len() + 1,
{
    let v2 = vis.push(i);
    assert forall|p: int, q: int| 0 <= p < q < v2.len() implies v2[p] != v2[q] by {
        if q < vis.len() {
        } else {
            assert(v2[q] == i);
            assert(v2[p] == vis[p]);
            assert(vis.contains(vis[p]));
        }
    }
}

/// The structural height of an expression, for termination measures.
pub open spec fn expr_ht(e: Expr) -> nat
    decreases e,
{
    match e {
        Expr::And(a, b) => 1 + if expr_ht(*a) >= expr_ht(*b) {
            expr_ht(*a)
        } else {
            expr_ht(*b)
        },
        Expr::Or(a, b) => 1 + if expr_ht(*a) >= expr_ht(*b) {
            expr_ht(*a)
        } else {
            expr_ht(*b)
        },
        Expr::Not(a) => 1 + expr_ht(*a),
        _ => 0,
    }
}

/// The tristate value of expression `e` under the table `t`: references
/// evaluate to the referenced symbol's effective value (an undeclared
/// symbol reads as `No`), comparisons compare the stored text forms.
pub open spec fn s_eval(t: Seq<Symbol>, e: Expr, vis: Seq<int>) -> Result<Tristate, ()>
    decreases t.len() - vis.len(), 1int, expr_ht(e)
        when wf_vis(t.len() as int, vis)
        via s_eval_decreases
{
    match e {
        Expr::And(a, b) => match (s_eval(t, *a, vis), s_eval(t, *b, vis)) {
            (Ok(x), Ok(y)) => Ok(x.spec_and(y)),
            _ => Err(()),
        },
        Expr::Or(a, b) => match (s_eval(t, *a, vis), s_eval(t, *b, vis)) {
            (Ok(x), Ok(y)) => Ok(x.spec_or(y)),
            _ => Err(()),
        },
        Expr::Not(a) => match s_eval(t, *a, vis) {
            Ok(x) => Ok(x.spec_not()),
            Err(e) => Err(e),
        },
        Expr::Symbol(name) => s_ref_tri(t, name@, vis),
        Expr::Literal(l) => Ok(l),
        Expr::Equals(a, b) => match (s_term(t, a, vis), s_term(t, b, vis)) {
            (Ok(x), Ok(y)) => Ok(
                if x == y {
                    Tristate::Yes
                } else {
                    Tristate::No
                },
            ),
            _ => Err(()),
        },
        Expr::NotEquals(a, b) => match (s_term(t, a, vis), s_term(t, b, vis)) {
            (Ok(x), Ok(y)) => Ok(
                if x == y {
                    Tristate::No
                } else {
                    Tristate::Yes
                },
            ),
            _ => Err(()),
        },
    }
}

#[via_fn]
proof fn s_eval_decreases(t: Seq<Symbol>, e: Expr, vis: Seq<int>) {
    lemma_vis_bound(t.len() as int, vis);
    match e {
        Expr::And(a, b) => {
            assert(expr_ht(*a) < expr_ht(e));
            assert(expr_ht(*b) < expr_ht(e));
        },
        Expr::Or(a, b) => {
            assert(expr_ht(*a) < expr_ht(e));
            assert(expr_ht(*b) < expr_ht(e));
        },
        Expr::Not(a) => {
            assert(expr_ht(*a) < expr_ht(e));
        },
        _ => {},
    }
}

/// The tristate a symbol reference denotes: the referenced symbol's
/// effective value as a tristate (`y` for a true boolean), `No` if the
/// name was never declared.
pub open spec fn s_ref_tri(t: Seq<Symbol>, name: Seq<char>, vis: Seq<int>) -> Result<
    Tristate,
    (),
>
    decreases t.len() - vis.len(), 0int, 1int
        when wf_vis(t.len() as int, vis)
{
    if spec_has(t, name) {
        match s_sym(t, spec_ix(t, name), vis) {
            Err(e) => Err(e),
            Ok(v) => Ok(spec_value_tri(v)),
        }
    } else {
        Ok(Tristate::No)
    }
}

/// The tristate strength of an effective value: booleans map to `y`/`n`,
/// tristates to themselves, other types to `No`.
pub open spec fn spec_value_tri(v: ValueView) -> Tristate {
    match v {
        ValueView::Bool(b) => if b {
            Tristate::Yes
        } else {
            Tristate::No
        },
        ValueView::Tristate(tr) => tr,
        _ => Tristate::No,
    }
}

/// The stored text form a comparison operand denotes: a literal's
/// `y`/`m`/`n`, or the referenced symbol's effective value text (an
/// undeclared symbol reads as `n`).
pub open spec fn s_term(t: Seq<Symbol>, term: ExprTerm, vis: Seq<int>) -> Result<Seq<char>, ()>
    decreases t.len() - vis.len(), 0int, 2int
        when wf_vis(t.len() as int, vis)
{
    match term {
        ExprTerm::Literal(l) => Ok(spec_store_text(ValueView::Tristate(l))),
        ExprTerm::Symbol(name) => {
            if spec_has(t, name@) {
                match s_sym(t, spec_ix(t, name@), vis) {
                    Err(e) => Err(e),
                    Ok(v) => Ok(spec_store_text(v)),
                }
            } else {
                Ok(spec_store_text(ValueView::Tristate(Tristate::No)))
            }
        },
    }
}

/// The conjunction of the conditions `es[k..]` (an empty rest is `Yes`).
pub open spec fn s_conds(t: Seq<Symbol>, es: Seq<Expr>, k: int, vis: Seq<int>) -> Result<
    Tristate,
    (),
>
    decreases t.len() - vis.len(), 3int, es.len() - k
        when 0 <= k <= es.len() && wf_vis(t.len() as int, vis)
        via s_conds_decreases
{
    if k >= es.len() {
        Ok(Tristate::Yes)
    } else {
        match (s_eval(t, es[k], vis), s_conds(t, es, k + 1, vis)) {
            (Ok(x), Ok(y)) => Ok(x.spec_and(y)),
            _ => Err(()),
        }
    }
}

#[via_fn]
proof fn s_conds_decreases(t: Seq<Symbol>, es: Seq<Expr>, k: int, vis: Seq<int>) {
    lemma_vis_bound(t.len() as int, vis);
}

/// Whether an optional condition holds (`None` always holds; otherwise
/// the expression must not evaluate to `No`).
pub open spec fn s_cond_holds(t: Seq<Symbol>, c: Option<Expr>, vis: Seq<int>) -> Result<bool, ()>
    decreases t.len() - vis.len(), 2int, 0int
        when wf_vis(t.len() as int, vis)
{
    match c {
        None => Ok(true),
        Some(e) => match s_eval(t, e, vis) {
            Err(err) => Err(err),
            Ok(v) => Ok(v != Tristate::No),
        },
    }
}

/// The select floor of a symbol: the maximum effective strength among the
/// selectors `rs[k..]` whose conditions hold.  A selector that is
/// invisible or off contributes `No`.
pub open spec fn s_floor(t: Seq<Symbol>, rs: Seq<RevSelect>, k: int, vis: Seq<int>) -> Result<
    Tristate,
    (),
>
    decreases t.len() - vis.len(), 3int, rs.len() - k
        when 0 <= k <= rs.len() && wf_vis(t.len() as int, vis)
        via s_floor_decreases
{
    if k >= rs.len() {
        Ok(Tristate::No)
    } else {
        let rest = s_floor(t, rs, k + 1, vis);
        match (s_cond_holds(t, rs[k].cond, vis), rest) {
            (Ok(holds), Ok(others)) => {
                if !holds {
                    Ok(others)
                } else {
                    match s_ref_tri(t, rs[k].selector@, vis) {
                        Err(e) => Err(e),
                        Ok(strength) => Ok(strength.spec_or(others)),
                    }
                }
            },
            _ => Err(()),
        }
    }
}

#[via_fn]
proof fn s_floor_decreases(t: Seq<Symbol>, rs: Seq<RevSelect>, k: int, vis: Seq<int>) {
    lemma_vis_bound(t.len() as int, vis);
}

/// The first active range among `rs[k..]`, if any.
pub open spec fn s_active_range(t: Seq<Symbol>, rs: Seq<RangeClause>, k: int, vis: Seq<int>) -> Result<
    Option<(i64, i64)>,
    (),
>
    decreases t.len() - vis.len(), 3int, rs.len() - k
        when 0 <= k <= rs.len() && wf_vis(t.len() as int, vis)
        via s_active_range_decreases
{
    if k >= rs.len() {
        Ok(None)
    } else {
        match s_cond_holds(t, rs[k].cond, vis) {
            Err(e) => Err(e),
            Ok(holds) => {
                if holds {
                    Ok(Some((rs[k].lo, rs[k].hi)))
                } else {
                    s_active_range(t, rs, k + 1, vis)
                }
            },
        }
    }
}

#[via_fn]
proof fn s_active_range_decreases(t: Seq<Symbol>, rs: Seq<RangeClause>, k: int, vis: Seq<int>) {
    lemma_vis_bound(t.len() as int, vis);
}

/// The text a default-clause expression denotes: a symbol reference reads
/// as the referenced symbol's effective value text; any other expression
/// reads as the `y`/`m`/`n` of its tristate value.
pub open spec fn s_default_text(t: Seq<Symbol>, e: Expr, vis: Seq<int>) -> Result<Seq<char>, ()>
    decreases t.len() - vis.len(), 2int, 1int
        when wf_vis(t.len() as int, vis)
{
    match e {
        Expr::Symbol(name) => {
            if spec_has(t, name@) {
                match s_sym(t, spec_ix(t, name@), vis) {
                    Err(err) => Err(err),
                    Ok(v) => Ok(spec_store_text(v)),
                }
            } else {
                Ok(spec_store_text(ValueView::Tristate(Tristate::No)))
            }
        },
        _ => match s_eval(t, e, vis) {
            Err(err) => Err(err),
            Ok(v) => Ok(spec_store_text(ValueView::Tristate(v))),
        },
    }
}

/// The value of one default clause for a symbol of type `ty`.
pub open spec fn s_default_value(t: Seq<Symbol>, ty: SymbolType, dv: DefaultValue, vis: Seq<int>) -> Result<
    ValueView,
    (),
>
    decreases t.len() - vis.len(), 2int, 2int
        when wf_vis(t.len() as int, vis)
{
    match dv {
        DefaultValue::Text(s) => Ok(spec_parse_typed(s@, ty)),
        DefaultValue::Expr(e) => match ty {
            SymbolType::Bool => match s_eval(t, e, vis) {
                Err(err) => Err(err),
                Ok(v) => Ok(ValueView::Bool(v != Tristate::No)),
            },
            SymbolType::Tristate => match s_eval(t, e, vis) {
                Err(err) => Err(err),
                Ok(v) => Ok(ValueView::Tristate(v)),
            },
            _ => match s_default_text(t, e, vis) {
                Err(err) => Err(err),
                Ok(txt) => Ok(spec_parse_typed(txt, ty)),
            },
        },
    }
}

/// The value of the first default clause among `ds[k..]` whose condition
/// holds, or the type's off value if none does.
pub open spec fn s_defaults(
    t: Seq<Symbol>,
    ty: SymbolType,
    ds: Seq<DefaultClause>,
    k: int,
    vis: Seq<int>,
) -> Result<ValueView, ()>
    decreases t.len() - vis.len(), 3int, ds.len() - k
        when 0 <= k <= ds.len() && wf_vis(t.len() as int, vis)
        via s_defaults_decreases
{
    if k >= ds.len() {
        Ok(spec_off_value(ty))
    } else {
        match s_cond_holds(t, ds[k].cond, vis) {
            Err(e) => Err(e),
            Ok(holds) => {
                if holds {
                    s_default_value(t, ty, ds[k].value, vis)
                } else {
                    s_defaults(t, ty, ds, k + 1, vis)
                }
            },
        }
    }
}

#[via_fn]
proof fn s_defaults_decreases(
    t: Seq<Symbol>,
    ty: SymbolType,
    ds: Seq<DefaultClause>,
    k: int,
    vis: Seq<int>,
) {
    lemma_vis_bound(t.len() as int, vis);
}

/// The base value of symbol `i` before the select floor: the stored user
/// value read under the declared type (integers clamped to the active
/// range), or else the declared defaults.
pub open spec fn s_userdef(t: Seq<Symbol>, i: int, vis: Seq<int>) -> Result<ValueView, ()>
    decreases t.len() - vis.len(), 4int, 0int
        when 0 <= i < t.len() && wf_vis(t.len() as int, vis)
        via s_userdef_decreases
{
    match t[i].value {
        Some(sv) => {
            let parsed = spec_parse_typed(sv@, t[i].symbol_type);
            if t[i].symbol_type is Int {
                match s_active_range(t, t[i].ranges@, 0, vis) {
                    Err(e) => Err(e),
                    Ok(range) => Ok(
                        match parsed {
                            ValueView::Int(v) => ValueView::Int(spec_clamp(v, range)),
                            _ => parsed,
                        },
                    ),
                }
            } else {
                Ok(parsed)
            }
        },
        None => s_defaults(t, t[i].symbol_type, t[i].defaults@, 0, vis),
    }
}

#[via_fn]
proof fn s_userdef_decreases(t: Seq<Symbol>, i: int, vis: Seq<int>) {
    lemma_vis_bound(t.len() as int, vis);
}

/// The visibility of symbol `i`: the conjunction of its dependency
/// conditions (including those inherited from enclosing menus) and its
/// prompt condition.
pub open spec fn s_visible(t: Seq<Symbol>, i: int, vis: Seq<int>) -> Result<bool, ()>
    decreases t.len() - vis.len(), 5int, 0int
        when 0 <= i < t.len() && wf_vis(t.len() as int, vis)
        via s_visible_decreases
{
    if vis.contains(i) {
        Err(())
    } else {
        let vis2 = vis.push(i);
        match s_conds(t, t[i].depends@, 0, vis2) {
            Err(e) => Err(e),
            Ok(dep) => {
                if dep == Tristate::No {
                    Ok(false)
                } else {
                    match s_cond_holds(t, t[i].prompt_if, vis2) {
                        Err(e) => Err(e),
                        Ok(p) => Ok(p),
                    }
                }
            },
        }
    }
}

#[via_fn]
proof fn s_visible_decreases(t: Seq<Symbol>, i: int, vis: Seq<int>) {
    lemma_vis_bound(t.len() as int, vis);
    if 0 <= i < t.len() && wf_vis(t.len() as int, vis) && !vis.contains(i) {
        lemma_vis_push(t.len() as int, vis, i);
        lemma_vis_bound(t.len() as int, vis.push(i));
    }
}

/// Unique symbol names, as the table's well-formedness demands.
pub open spec fn wf_names(t: Seq<Symbol>) -> bool {
    forall|i: int, j: int| 0 <= i < j < t.len() ==> t[i].name@ != t[j].name@
}

/// Executable result against model result, for effective values.
pub open spec fn res_val_eq(r: Result<ConfigValue, Vec<String>>, m: Result<ValueView, ()>) -> bool {
    match (r, m) {
        (Ok(v), Ok(mv)) => v@ == mv,
        (Err(_), Err(_)) => true,
        _ => false,
    }
}

/// Executable result against model result, for tristates.
pub open spec fn res_tri_eq(r: Result<Tristate, Vec<String>>, m: Result<Tristate, ()>) -> bool {
    match (r, m) {
        (Ok(a), Ok(b)) => a == b,
        (Err(_), Err(_)) => true,
        _ => false,
    }
}

/// Executable result against model result, for value text.
pub open spec fn res_text_eq(r: Result<String, Vec<String>>, m: Result<Seq<char>, ()>) -> bool {
    match (r, m) {
        (Ok(a), Ok(b)) => a@ == b,
        (Err(_), Err(_)) => true,
        _ => false,
    }
}

/// Executable result against model result, for booleans.
pub open spec fn res_bool_eq(r: Result<bool, Vec<String>>, m: Result<bool, ()>) -> bool {
    match (r, m) {
        (Ok(a), Ok(b)) => a == b,
        (Err(_), Err(_)) => true,
        _ => false,
    }
}

/// Executable result against model result, for active ranges.
pub open spec fn res_range_eq(
    r: Result<Option<(i64, i64)>, Vec<String>>,
    m: Result<Option<(i64, i64)>, ()>,
) -> bool {
    match (r, m) {
        (Ok(a), Ok(b)) => a == b,
        (Err(_), Err(_)) => true,
        _ => false,
    }
}

/// Whether the visiting stack holds index `i`.
pub(crate) fn vis_contains(vis: &Vec<usize>, i: usize) -> (b: bool)
    ensures
        b == ints(vis@).contains(i as int),
{
    let mut k: usize = 0;
    while k < vis.len()
        invariant
            k <= vis@.len(),
            forall|j: int| 0 <= j < k ==> vis@[j] != i,
        decreases vis@.len() - k,
    {
        if vis[k] == i {
            proof {
                assert(ints(vis@)[k as int] == i as int);
            }
            return true;
        }
        k = k + 1;
    }
    proof {
        assert forall|j: int| 0 <= j < ints(vis@).len() implies ints(vis@)[j] != i as int by {
            assert(vis@[j] != i);
        }
    }
    false
}

/// The visiting stack extended by index `i`.
pub(crate) fn vis_push(vis: &Vec<usize>, i: usize) -> (r: Vec<usize>)
    ensures
        ints(r@) == ints(vis@).push(i as int),
        r@.len() == vis@.len() + 1,
{
    let mut r: Vec<usize> = Vec::new();
    let mut k: usize = 0;
    while k < vis.len()
        invariant
            k <= vis@.len(),
            r@ == vis@.subrange(0, k as int),
        decreases vis@.len() - k,
    {
        r.push(vis[k]);
        k = k + 1;
        proof {
            assert(r@ =~= vis@.subrange(0, k as int));
        }
    }
    r.push(i);
    proof {
        assert(r@ =~= vis@.push(i));
        assert(ints(r@) =~= ints(vis@).push(i as int));
    }
    r
}

/// The index of the symbol named `name` in `t`, if declared.
fn find_sym(t: &Vec<Symbol>, name: &str) -> (r: Option<usize>)
    requires
        wf_names(t@),
    ensures
        r is Some <==> spec_has(t@, name@),
        r matches Some(i) ==> i == spec_ix(t@, name@) && 0 <= i < t@.len() && t@[i as int].name@
            == name@,
{
    let mut i: usize = 0;
    while i < t.len()
        invariant
            wf_names(t@),
            i <= t@.len(),
            forall|j: int| 0 <= j < i ==> t@[j].name@ != name@,
        decreases t@.len() - i,
    {
        if crate::text::str_eq(t[i].name.as_str(), name) {
            proof {
                assert(t@[i as int].name@ == name@);
                assert(spec_has(t@, name@));
                let k = spec_ix(t@, name@);
                assert(0 <= k < t@.len() && t@[k].name@ == name@);
                assert(wf_names(t@));
                if k < i as int {
                    assert(t@[k].name@ != t@[i as int].name@);
                    assert(false);
                } else if k > i as int {
                    assert(t@[i as int].name@ != t@[k].name@);
                    assert(false);
                }
            }
            return Some(i);
        }
        i = i + 1;
    }
    None
}

/// The type's off value, as an executable value.
fn off_value(ty: SymbolType) -> (r: ConfigValue)
    ensures
        r@ == spec_off_value(ty),
{
    match ty {
        SymbolType::Bool => ConfigValue::Bool(false),
        SymbolType::Tristate => ConfigValue::Tristate(Tristate::No),
        SymbolType::String => ConfigValue::String(String::new()),
        SymbolType::Int => ConfigValue::Int(0),
        SymbolType::Hex => {
            let h = String::from_str("0x0");
            proof {
                reveal_strlit("0x0");
                assert(h@ =~= seq!['0', 'x', '0']);
            }
            ConfigValue::Hex(h)
        },
    }
}

/// The tristate strength of an effective value.
fn value_tri(v: &ConfigValue) -> (r: Tristate)
    ensures
        r == spec_value_tri(v@),
{
    match v {
        ConfigValue::Bool(b) => if *b {
            Tristate::Yes
        } else {
            Tristate::No
        },
        ConfigValue::Tristate(tr) => *tr,
        _ => Tristate::No,
    }
}

/// Raises a boolean or tristate value to the select floor.
fn apply_floor(ty: SymbolType, base: ConfigValue, floor: Tristate) -> (r: ConfigValue)
    ensures
        r@ == spec_apply_floor(ty, base@, floor),
{
    match ty {
        SymbolType::Bool => match base {
            ConfigValue::Bool(b) => ConfigValue::Bool(b || !matches!(floor, Tristate::No)),
            _ => base,
        },
        SymbolType::Tristate => match base {
            ConfigValue::Tristate(v) => ConfigValue::Tristate(v.or(floor)),
            _ => base,
        },
        _ => base,
    }
}

/// The names of the symbols on the visiting chain, ending with the
/// re-entered one: the members of the reported dependency cycle.
fn chain_names(t: &Vec<Symbol>, vis: &Vec<usize>, i: usize) -> (r: Vec<String>)
    requires
        i < t@.len(),
        wf_vis(t@.len() as int, ints(vis@)),
{
    let mut r: Vec<String> = Vec::new();
    let mut k: usize = 0;
    while k < vis.len()
        invariant
            wf_vis(t@.len() as int, ints(vis@)),
            k <= vis@.len(),
        decreases vis@.len() - k,
    {
        proof {
            assert(0 <= ints(vis@)[k as int] < t@.len());
            assert(ints(vis@)[k as int] == vis@[k as int] as int);
        }
        r.push(t[vis[k]].name.clone());
        k = k + 1;
    }
    r.push(t[i].name.clone());
    r
}

/// The effective value of symbol `i` of `t`; mirrors [`s_sym`] exactly.
pub(crate) fn eval_sym(t: &Vec<Symbol>, i: usize, vis: &Vec<usize>) -> (r: Result<ConfigValue, Vec<String>>)
    requires
        wf_names(t@),
        i < t@.len(),
        wf_vis(t@.len() as int, ints(vis@)),
    ensures
        res_val_eq(r, s_sym(t@, i as int, ints(vis@))),
    decreases t@.len() - vis@.len(), 0int, 0int,
{
    if vis_contains(vis, i) {
        return Err(chain_names(t, vis, i));
    }
    let vis2 = vis_push(vis, i);
    proof {
        lemma_vis_push(t@.len() as int, ints(vis@), i as int);
        lemma_vis_bound(t@.len() as int, ints(vis2@));
    }
    let visb = match eval_conds(t, &t[i].depends, 0, &vis2) {
        Ok(v) => v,
        Err(e) => {
            return Err(e);
        },
    };
    if matches!(visb, Tristate::No) {
        return Ok(off_value(t[i].symbol_type));
    }
    let floor = match eval_floor(t, &t[i].rev_selects, 0, &vis2) {
        Ok(v) => v,
        Err(e) => {
            return Err(e);
        },
    };
    let base = match eval_userdef(t, i, &vis2) {
        Ok(v) => v,
        Err(e) => {
            return Err(e);
        },
    };
    Ok(apply_floor(t[i].symbol_type, base, floor))
}

/// The tristate of an expression; mirrors [`s_eval`] exactly.
pub(crate) fn eval_expr(t: &Vec<Symbol>, e: &Expr, vis: &Vec<usize>) -> (r: Result<Tristate, Vec<String>>)
    requires
        wf_names(t@),
        wf_vis(t@.len() as int, ints(vis@)),
    ensures
        res_tri_eq(r, s_eval(t@, *e, ints(vis@))),
    decreases t@.len() - vis@.len(), 1int, expr_ht(*e),
{
    proof {
        lemma_vis_bound(t@.len() as int, ints(vis@));
        match e {
            Expr::And(a, b) => {
                assert(expr_ht(**a) < expr_ht(*e));
                assert(expr_ht(**b) < expr_ht(*e));
            },
            Expr::Or(a, b) => {
                assert(expr_ht(**a) < expr_ht(*e));
                assert(expr_ht(**b) < expr_ht(*e));
            },
            Expr::Not(a) => {
                assert(expr_ht(**a) < expr_ht(*e));
            },
            _ => {},
        }
    }
    match e {
        Expr::And(a, b) => {
            let x = match eval_expr(t, a, vis) {
                Ok(x) => x,
                Err(err) => {
                    return Err(err);
                },
            };
            match eval_expr(t, b, vis) {
                Ok(y) => Ok(x.and(y)),
                Err(err) => Err(err),
            }
        },
        Expr::Or(a, b) => {
            let x = match eval_expr(t, a, vis) {
                Ok(x) => x,
                Err(err) => {
                    return Err(err);
                },
            };
            match eval_expr(t, b, vis) {
                Ok(y) => Ok(x.or(y)),
                Err(err) => Err(err),
            }
        },
        Expr::Not(a) => match eval_expr(t, a, vis) {
            Ok(x) => Ok(x.not()),
            Err(e) => Err(e),
        },
        Expr::Symbol(name) => eval_ref_tri(t, name.as_str(), vis),
        Expr::Literal(l) => Ok(*l),
        Expr::Equals(a, b) => {
            let x = match eval_term(t, a, vis) {
                Ok(x) => x,
                Err(err) => {
                    return Err(err);
                },
            };
            match eval_term(t, b, vis) {
                Ok(y) => Ok(
                    if crate::text::str_eq(x.as_str(), y.as_str()) {
                        Tristate::Yes
                    } else {
                        Tristate::No
                    },
                ),
                Err(err) => Err(err),
            }
        },
        Expr::NotEquals(a, b) => {
            let x = match eval_term(t, a, vis) {
                Ok(x) => x,
                Err(err) => {
                    return Err(err);
                },
            };
            match eval_term(t, b, vis) {
                Ok(y) => Ok(
                    if crate::text::str_eq(x.as_str(), y.as_str()) {
                        Tristate::No
                    } else {
                        Tristate::Yes
                    },
                ),
                Err(err) => Err(err),
            }
        },
    }
}

/// The tristate a symbol reference denotes; mirrors [`s_ref_tri`].
fn eval_ref_tri(t: &Vec<Symbol>, name: &str, vis: &Vec<usize>) -> (r: Result<Tristate, Vec<String>>)
    requires
        wf_names(t@),
        wf_vis(t@.len() as int, ints(vis@)),
    ensures
        res_tri_eq(r, s_ref_tri(t@, name@, ints(vis@))),
    decreases t@.len() - vis@.len(), 0int, 1int,
{
    proof {
        lemma_vis_bound(t@.len() as int, ints(vis@));
    }
    match find_sym(t, name) {
        Some(ix) => match eval_sym(t, ix, vis) {
            Err(e) => Err(e),
            Ok(v) => Ok(value_tri(&v)),
        },
        None => Ok(Tristate::No),
    }
}

/// The text a comparison operand denotes; mirrors [`s_term`].
fn eval_term(t: &Vec<Symbol>, term: &ExprTerm, vis: &Vec<usize>) -> (r: Result<String, Vec<String>>)
    requires
        wf_names(t@),
        wf_vis(t@.len() as int, ints(vis@)),
    ensures
        res_text_eq(r, s_term(t@, *term, ints(vis@))),
    decreases t@.len() - vis@.len(), 0int, 2int,
{
    proof {
        lemma_vis_bound(t@.len() as int, ints(vis@));
    }
    match term {
        ExprTerm::Literal(l) => Ok(crate::value::store_text(&ConfigValue::Tristate(*l))),
        ExprTerm::Symbol(name) => match find_sym(t, name.as_str()) {
            Some(ix) => match eval_sym(t, ix, vis) {
                Err(e) => Err(e),
                Ok(v) => Ok(crate::value::store_text(&v)),
            },
            None => Ok(crate::value::store_text(&ConfigValue::Tristate(Tristate::No))),
        },
    }
}

/// The conjunction of the conditions `es[k..]`; mirrors [`s_conds`].
pub(crate) fn eval_conds(t: &Vec<Symbol>, es: &Vec<Expr>, k: usize, vis: &Vec<usize>) -> (r: Result<
    Tristate,
    Vec<String>,
>)
    requires
        wf_names(t@),
        k <= es@.len(),
        wf_vis(t@.len() as int, ints(vis@)),
    ensures
        res_tri_eq(r, s_conds(t@, es@, k as int, ints(vis@))),
    decreases t@.len() - vis@.len(), 3int, es@.len() - k,
{
    proof {
        lemma_vis_bound(t@.len() as int, ints(vis@));
    }
    if k >= es.len() {
        Ok(Tristate::Yes)
    } else {
        let x = match eval_expr(t, &es[k], vis) {
            Ok(x) => x,
            Err(err) => {
                return Err(err);
            },
        };
        match eval_conds(t, es, k + 1, vis) {
            Ok(y) => Ok(x.and(y)),
            Err(err) => Err(err),
        }
    }
}

/// Whether an optional condition holds; mirrors [`s_cond_holds`].
#[verifier::rlimit(50)]
fn eval_cond_holds(t: &Vec<Symbol>, c: &Option<Expr>, vis: &Vec<usize>) -> (r: Result<bool, Vec<String>>)
    requires
        wf_names(t@),
        wf_vis(t@.len() as int, ints(vis@)),
    ensures
        res_bool_eq(r, s_cond_holds(t@, *c, ints(vis@))),
    decreases t@.len() - vis@.len(), 2int, 0int,
{
    proof {
        lemma_vis_bound(t@.len() as int, ints(vis@));
    }
    match c {
        None => Ok(true),
        Some(e) => match eval_expr(t, e, vis) {
            Err(err) => Err(err),
            Ok(v) => Ok(!matches!(v, Tristate::No)),
        },
    }
}

/// The select floor from the selectors `rs[k..]`; mirrors [`s_floor`].
#[verifier::rlimit(50)]
fn eval_floor(t: &Vec<Symbol>, rs: &Vec<RevSelect>, k: usize, vis: &Vec<usize>) -> (r: Result<
    Tristate,
    Vec<String>,
>)
    requires
        wf_names(t@),
        k <= rs@.len(),
        wf_vis(t@.len() as int, ints(vis@)),
    ensures
        res_tri_eq(r, s_floor(t@, rs@, k as int, ints(vis@))),
    decreases t@.len() - vis@.len(), 3int, rs@.len() - k,
{
    proof {
        lemma_vis_bound(t@.len() as int, ints(vis@));
    }
    if k >= rs.len() {
        Ok(Tristate::No)
    } else {
        let holds = match eval_cond_holds(t, &rs[k].cond, vis) {
            Ok(h) => h,
            Err(e) => {
                return Err(e);
            },
        };
        let others = match eval_floor(t, rs, k + 1, vis) {
            Ok(o) => o,
            Err(e) => {
                return Err(e);
            },
        };
        if !holds {
            Ok(others)
        } else {
            match eval_ref_tri(t, rs[k].selector.as_str(), vis) {
                Err(e) => Err(e),
                Ok(strength) => Ok(strength.or(others)),
            }
        }
    }
}

/// The first active range among `rs[k..]`; mirrors [`s_active_range`].
#[verifier::rlimit(50)]
fn eval_active_range(t: &Vec<Symbol>, rs: &Vec<RangeClause>, k: usize, vis: &Vec<usize>) -> (r:
    Result<Option<(i64, i64)>, Vec<String>>)
    requires
        wf_names(t@),
        k <= rs@.len(),
        wf_vis(t@.len() as int, ints(vis@)),
    ensures
        res_range_eq(r, s_active_range(t@, rs@, k as int, ints(vis@))),
    decreases t@.len() - vis@.len(), 3int, rs@.len() - k,
{
    proof {
        lemma_vis_bound(t@.len() as int, ints(vis@));
    }
    if k >= rs.len() {
        Ok(None)
    } else {
        match eval_cond_holds(t, &rs[k].cond, vis) {
            Err(e) => Err(e),
            Ok(holds) => {
                if holds {
                    Ok(Some((rs[k].lo, rs[k].hi)))
                } else {
                    eval_active_range(t, rs, k + 1, vis)
                }
            },
        }
    }
}

/// The text a default-clause expression denotes; mirrors
/// [`s_default_text`].
#[verifier::rlimit(50)]
fn eval_default_text(t: &Vec<Symbol>, e: &Expr, vis: &Vec<usize>) -> (r: Result<String, Vec<String>>)
    requires
        wf_names(t@),
        wf_vis(t@.len() as int, ints(vis@)),
    ensures
        res_text_eq(r, s_default_text(t@, *e, ints(vis@))),
    decreases t@.len() - vis@.len(), 2int, 1int,
{
    proof {
        lemma_vis_bound(t@.len() as int, ints(vis@));
    }
    match e {
        Expr::Symbol(name) => match find_sym(t, name.as_str()) {
            Some(ix) => match eval_sym(t, ix, vis) {
                Err(err) => Err(err),
                Ok(v) => Ok(crate::value::store_text(&v)),
            },
            None => Ok(crate::value::store_text(&ConfigValue::Tristate(Tristate::No))),
        },
        _ => match eval_expr(t, e, vis) {
            Err(err) => Err(err),
            Ok(v) => Ok(crate::value::store_text(&ConfigValue::Tristate(v))),
        },
    }
}

/// The value of one default clause; mirrors [`s_default_value`].
#[verifier::rlimit(50)]
fn eval_default_value(t: &Vec<Symbol>, ty: SymbolType, dv: &DefaultValue, vis: &Vec<usize>) -> (r:
    Result<ConfigValue, Vec<String>>)
    requires
        wf_names(t@),
        wf_vis(t@.len() as int, ints(vis@)),
    ensures
        res_val_eq(r, s_default_value(t@, ty, *dv, ints(vis@))),
    decreases t@.len() - vis@.len(), 2int, 2int,
{
    proof {
        lemma_vis_bound(t@.len() as int, ints(vis@));
    }
    match dv {
        DefaultValue::Text(s) => Ok(crate::value::parse_typed(s.as_str(), ty)),
        DefaultValue::Expr(e) => match ty {
            SymbolType::Bool => match eval_expr(t, e, vis) {
                Err(err) => Err(err),
                Ok(v) => Ok(ConfigValue::Bool(!matches!(v, Tristate::No))),
            },
            SymbolType::Tristate => match eval_expr(t, e, vis) {
                Err(err) => Err(err),
                Ok(v) => Ok(ConfigValue::Tristate(v)),
            },
            _ => match eval_default_text(t, e, vis) {
                Err(err) => Err(err),
                Ok(txt) => Ok(crate::value::parse_typed(txt.as_str(), ty)),
            },
        },
    }
}

/// The first applicable default among `ds[k..]`; mirrors [`s_defaults`].
#[verifier::rlimit(50)]
fn eval_defaults(
    t: &Vec<Symbol>,
    ty: SymbolType,
    ds: &Vec<DefaultClause>,
    k: usize,
    vis: &Vec<usize>,
) -> (r: Result<ConfigValue, Vec<String>>)
    requires
        wf_names(t@),
        k <= ds@.len(),
        wf_vis(t@.len() as int, ints(vis@)),
    ensures
        res_val_eq(r, s_defaults(t@, ty, ds@, k as int, ints(vis@))),
    decreases t@.len() - vis@.len(), 3int, ds@.len() - k,
{
    proof {
        lemma_vis_bound(t@.len() as int, ints(vis@));
    }
    if k >= ds.len() {
        Ok(off_value(ty))
    } else {
        match eval_cond_holds(t, &ds[k].cond, vis) {
            Err(e) => Err(e),
            Ok(holds) => {
                if holds {
                    eval_default_value(t, ty, &ds[k].value, vis)
                } else {
                    eval_defaults(t, ty, ds, k + 1, vis)
                }
            },
        }
    }
}

/// The stored user value or declared default; mirrors [`s_userdef`].
fn eval_userdef(t: &Vec<Symbol>, i: usize, vis: &Vec<usize>) -> (r: Result<ConfigValue, Vec<String>>)
    requires
        wf_names(t@),
        i < t@.len(),
        wf_vis(t@.len() as int, ints(vis@)),
    ensures
        res_val_eq(r, s_userdef(t@, i as int, ints(vis@))),
    decreases t@.len() - vis@.len(), 4int, 0int,
{
    proof {
        lemma_vis_bound(t@.len() as int, ints(vis@));
    }
    match &t[i].value {
        Some(sv) => {
            let parsed = crate::value::parse_typed(sv.as_str(), t[i].symbol_type);
            if matches!(t[i].symbol_type, SymbolType::Int) {
                match eval_active_range(t, &t[i].ranges, 0, vis) {
                    Err(e) => Err(e),
                    Ok(range) => Ok(
                        match parsed {
                            ConfigValue::Int(v) => ConfigValue::Int(
                                match range {
                                    None => v,
                                    Some((lo, hi)) => if v < lo {
                                        lo
                                    } else if v > hi {
                                        hi
                                    } else {
                                        v
                                    },
                                },
                            ),
                            _ => parsed,
                        },
                    ),
                }
            } else {
                Ok(parsed)
            }
        },
        None => eval_defaults(t, t[i].symbol_type, &t[i].defaults, 0, vis),
    }
}

/// Two symbols are siblings of one choice group.
pub open spec fn spec_siblings(t: Seq<Symbol>, j: int, k: int) -> bool {
    &&& t[j].is_choice
    &&& t[k].is_choice
    &&& t[j].choice is Some
    &&& t[j].choice == t[k].choice
}

/// `b` is `a` with its stored value replaced by the text `v`, all other
/// fields unchanged.
pub open spec fn spec_same_but_value(a: Symbol, b: Symbol, v: Seq<char>) -> bool {
    &&& b.name == a.name
    &&& b.symbol_type == a.symbol_type
    &&& (b.value matches Some(s) && s@ == v)
    &&& b.is_choice == a.is_choice
    &&& b.prompt == a.prompt
    &&& b.prompt_if == a.prompt_if
    &&& b.depends == a.depends
    &&& b.defaults == a.defaults
    &&& b.selects == a.selects
    &&& b.ranges == a.ranges
    &&& b.rev_selects == a.rev_selects
    &&& b.choice == a.choice
    &&& b.help == a.help
}

/// The visibility of symbol `i`; mirrors [`s_visible`].
pub(crate) fn eval_visible(t: &Vec<Symbol>, i: usize, vis: &Vec<usize>) -> (r: Result<bool, Vec<String>>)
    requires
        wf_names(t@),
        i < t@.len(),
        wf_vis(t@.len() as int, ints(vis@)),
    ensures
        res_bool_eq(r, s_visible(t@, i as int, ints(vis@))),
    decreases t@.len() - vis@.len(), 5int, 0int,
{
    if vis_contains(vis, i) {
        return Err(chain_names(t, vis, i));
    }
    let vis2 = vis_push(vis, i);
    proof {
        lemma_vis_push(t@.len() as int, ints(vis@), i as int);
        lemma_vis_bound(t@.len() as int, ints(vis2@));
    }
    match eval_conds(t, &t[i].depends, 0, &vis2) {
        Err(e) => Err(e),
        Ok(dep) => {
            if matches!(dep, Tristate::No) {
                Ok(false)
            } else {
                match eval_cond_holds(t, &t[i].prompt_if, &vis2) {
                    Err(e) => Err(e),
                    Ok(p) => Ok(p),
                }
            }
        },
    }
}

/// The validation verdict owed by a store of `v` into symbol `k`:
/// accept, or the error that must come back.  A numeric value (an `Int`,
/// or a `Hex` whose text is a well-formed literal fitting `i64`) is held
/// against the symbol's active range.
pub enum SetVerdict {
    Accept,
    RejectType,
    RejectRange,
    RejectCycle,
}

/// The numeric reading a store must range-check, if any.
pub open spec fn spec_checked_number(v: ValueView) -> Option<int> {
    match v {
        ValueView::Int(n) => Some(n),
        ValueView::Hex(h) => if crate::text::spec_is_hex_literal(h) && crate::text::spec_hex_val(h)
            <= i64::MAX {
            Some(crate::text::spec_hex_val(h))
        } else {
            None
        },
        _ => None,
    }
}

/// The table after a validated store of `v` into symbol `k`: the symbol
/// holds `v`'s text form; when `v` reads as `Yes` and the symbol belongs
/// to a choice group, every sibling member holds `n`; nothing else moves.
pub open spec fn spec_store_effect(told: Seq<Symbol>, tnew: Seq<Symbol>, k: int, v: ValueView) -> bool {
    let stored = spec_store_text(v);
    &&& spec_same_but_value(told[k], tnew[k], stored)
    &&& (spec_value_tri(v) == Tristate::Yes ==> forall|j: int|
        0 <= j < told.len() && j != k ==> if spec_siblings(told, j, k) {
            spec_same_but_value(told[j], tnew[j], seq!['n'])
        } else {
            tnew[j] == told[j]
        })
    &&& (spec_value_tri(v) != Tristate::Yes ==> forall|j: int|
        0 <= j < told.len() && j != k ==> tnew[j] == told[j])
}

/// Which outcome a store of `v` into symbol `k` of `t` is owed.
pub open spec fn spec_set_verdict(t: Seq<Symbol>, k: int, v: ValueView) -> SetVerdict {
    if !spec_matches_type(v, t[k].symbol_type) {
        SetVerdict::RejectType
    } else {
        match spec_checked_number(v) {
            None => SetVerdict::Accept,
            Some(n) => match s_active_range(t, t[k].ranges@, 0, Seq::empty()) {
                Err(_) => SetVerdict::RejectCycle,
                Ok(None) => SetVerdict::Accept,
                Ok(Some((lo, hi))) => if lo <= n <= hi {
                    SetVerdict::Accept
                } else {
                    SetVerdict::RejectRange
                },
            },
        }
    }
}

impl crate::symbol::SymbolTable {
    /// The effective value of `name`, with cycles reported: `Ok(None)`
    /// for a name that was never declared, `Ok(Some(v))` for the resolved
    /// value, and a cyclic-dependency error when resolution re-enters a
    /// symbol.
    #[verifier::rlimit(50)]
    pub fn resolve_value(&self, name: &str) -> (r: Result<Option<ConfigValue>, ResolutionError>)
        requires
            self.wf(),
        ensures
            !spec_has(self.symbols@, name@) ==> (r matches Ok(o) && o is None),
            spec_has(self.symbols@, name@) ==> match s_sym(
                self.symbols@,
                spec_ix(self.symbols@, name@),
                Seq::empty(),
            ) {
                Ok(v) => r matches Ok(o) && o matches Some(cv) && cv@ == v,
                Err(_) => r matches Err(e) && e is CyclicDependency,
            },
    {
        proof {
            assert(wf_names(self.symbols@));
            assert(wf_vis(self.symbols@.len() as int, ints(Seq::empty())));
        }
        match self.find(name) {
            None => Ok(None),
            Some(i) => {
                let vis: Vec<usize> = Vec::new();
                proof {
                    assert(ints(vis@) =~= Seq::<int>::empty());
                }
                match eval_sym(&self.symbols, i, &vis) {
                    Ok(v) => Ok(Some(v)),
                    Err(syms) => Err(ResolutionError::CyclicDependency { symbols: syms }),
                }
            },
        }
    }

    /// The effective value of `name`, or `None` for a name that was never
    /// declared.  A dependency cycle also reads as `None` here; use
    /// [`Self::resolve_value`] to have it reported.
    pub fn effective_value(&self, name: &str) -> (r: Option<ConfigValue>)
        requires
            self.wf(),
        ensures
            !spec_has(self.symbols@, name@) ==> r is None,
            spec_has(self.symbols@, name@) ==> match s_sym(
                self.symbols@,
                spec_ix(self.symbols@, name@),
                Seq::empty(),
            ) {
                Ok(v) => r matches Some(cv) && cv@ == v,
                Err(_) => r is None,
            },
    {
        match self.resolve_value(name) {
            Ok(o) => o,
            Err(_) => None,
        }
    }

    /// Whether `name` is visible: its dependency conditions (with the
    /// inherited menu conditions) do not evaluate to `No` and its prompt
    /// condition holds.  An undeclared name, and a dependency cycle, read
    /// as not visible.
    #[verifier::rlimit(50)]
    pub fn is_visible(&self, name: &str) -> (r: bool)
        requires
            self.wf(),
        ensures
            r == (spec_has(self.symbols@, name@) && s_visible(
                self.symbols@,
                spec_ix(self.symbols@, name@),
                Seq::empty(),
            ) matches Ok(true)),
    {
        proof {
            assert(wf_names(self.symbols@));
            assert(wf_vis(self.symbols@.len() as int, ints(Seq::empty())));
        }
        match self.find(name) {
            None => false,
            Some(i) => {
                let vis: Vec<usize> = Vec::new();
                proof {
                    assert(ints(vis@) =~= Seq::<int>::empty());
                }
                match eval_visible(&self.symbols, i, &vis) {
                    Ok(b) => b,
                    Err(_) => false,
                }
            },
        }
    }

    /// Stores a user value for `name` after validation.
    ///
    /// The value's variant must match the declared type (`TypeMismatch`
    /// otherwise); an integer must fall within the active range
    /// (`OutOfRange` otherwise, and a cycle while evaluating the range
    /// conditions is reported as such).  A failure leaves the table
    /// unchanged.  A name that was never declared is ignored, as the
    /// overlay reader does.
    ///
    /// Setting a choice member to `y` forces every sibling member of its
    /// group to `n` first: this is the one call that mutates other
    /// symbols as a side effect.
    #[verifier::rlimit(100)]
    pub fn set_user_value(&mut self, name: &str, value: ConfigValue) -> (r: Result<
        (),
        ResolutionError,
    >)
        requires
            old(self).wf(),
        ensures
            final(self).wf(),
            final(self).choices@ == old(self).choices@,
            final(self).symbols@.len() == old(self).symbols@.len(),
            !spec_has(old(self).symbols@, name@) ==> r is Ok && final(self).symbols@ == old(
                self,
            ).symbols@,
            r is Err ==> final(self).symbols@ == old(self).symbols@,
            spec_has(old(self).symbols@, name@) ==> {
                let k = spec_ix(old(self).symbols@, name@);
                let sym = old(self).symbols@[k];
                &&& match spec_set_verdict(old(self).symbols@, k, value@) {
                    SetVerdict::Accept => r is Ok,
                    SetVerdict::RejectType => r matches Err(e) && e is TypeMismatch,
                    SetVerdict::RejectRange => r matches Err(e) && e is OutOfRange,
                    SetVerdict::RejectCycle => r matches Err(e) && e is CyclicDependency,
                }
                &&& (r is Ok ==> spec_store_effect(
                    old(self).symbols@,
                    final(self).symbols@,
                    k,
                    value@,
                ))
            },
    {
        proof {
            assert(wf_names(self.symbols@));
            assert(wf_vis(self.symbols@.len() as int, ints(Seq::empty())));
        }
        let i = match self.find(name) {
            None => {
                return Ok(());
            },
            Some(i) => i,
        };
        if !crate::value::value_matches_type(&value, self.symbols[i].symbol_type) {
            return Err(ResolutionError::TypeMismatch { name: name.to_owned() });
        }
        let checked: Option<i64> = match &value {
            ConfigValue::Int(v) => Some(*v),
            ConfigValue::Hex(h) => {
                let cs = crate::text::chars_of(h.as_str());
                crate::text::parse_hex(&cs)
            },
            _ => None,
        };
        if let Some(v) = checked {
            let vis: Vec<usize> = Vec::new();
            proof {
                assert(ints(vis@) =~= Seq::<int>::empty());
            }
            match eval_active_range(&self.symbols, &self.symbols[i].ranges, 0, &vis) {
                Err(syms) => {
                    return Err(ResolutionError::CyclicDependency { symbols: syms });
                },
                Ok(Some((lo, hi))) => {
                    if v < lo || v > hi {
                        return Err(ResolutionError::OutOfRange { name: name.to_owned() });
                    }
                },
                Ok(None) => {},
            }
        }
        let ghost before = self.symbols@;
        let ghost k = i as int;
        let stored = crate::value::store_text(&value);
        let is_member = self.symbols[i].is_choice && self.symbols[i].choice.is_some();
        let tri = value_tri(&value);
        {
            let sym = &mut self.symbols[i];
            sym.value = Some(stored);
        }
        proof {
            assert(spec_same_but_value(before[k], self.symbols@[k], spec_store_text(value@)));
            assert(forall|j: int|
                0 <= j < before.len() && j != k ==> self.symbols@[j] == before[j]);
        }
        if is_member && matches!(tri, Tristate::Yes) {
            let mut j: usize = 0;
            while j < self.symbols.len()
                invariant
                    old(self).wf(),
                    self.symbols@.len() == before.len(),
                    j <= before.len(),
                    before == old(self).symbols@,
                    0 <= k < before.len(),
                    self.choices@ == old(self).choices@,
                    i as int == k,
                    i < self.symbols@.len(),
                    spec_same_but_value(before[k], self.symbols@[k], spec_store_text(value@)),
                    before[k].is_choice && before[k].choice is Some,
                    forall|p: int|
                        0 <= p < j && p != k ==> if spec_siblings(before, p, k) {
                            spec_same_but_value(before[p], self.symbols@[p], seq!['n'])
                        } else {
                            self.symbols@[p] == before[p]
                        },
                    forall|p: int| j <= p < before.len() && p != k ==> self.symbols@[p] == before[p],
                decreases before.len() - j,
            {
                if j != i && self.symbols[j].is_choice {
                    let same = match (&self.symbols[j].choice, &self.symbols[i].choice) {
                        (Some(a), Some(b)) => *a == *b,
                        _ => false,
                    };
                    proof {
                        assert(self.symbols@[k].choice == before[k].choice);
                        assert(self.symbols@[j as int] == before[j as int]);
                    }
                    if same {
                        let n_text = String::from_str("n");
                        proof {
                            reveal_strlit("n");
                            assert(n_text@ =~= seq!['n']);
                        }
                        let sym = &mut self.symbols[j];
                        sym.value = Some(n_text);
                    }
                }
                j = j + 1;
            }
        }
        proof {
            assert forall|p: int, q: int|
                0 <= p < q < self.symbols@.len() implies self.symbols@[p].name@
                != self.symbols@[q].name@ by {
                assert(self.symbols@[p].name == before[p].name);
                assert(self.symbols@[q].name == before[q].name);
            }
        }
        Ok(())
    }

    /// The resolved value text of `name`, per the precedence of the
    /// resolution engine (visibility collapse, select floor, stored value
    /// range-clamped, first satisfied default, type zero value): the text
    /// form of the effective value.  `None` for a name that was never
    /// declared, and under a dependency cycle (which
    /// [`Self::resolve_value`] reports).
    pub fn get_value(&self, name: &str) -> (r: Option<String>)
        requires
            self.wf(),
        ensures
            !spec_has(self.symbols@, name@) ==> r is None,
            spec_has(self.symbols@, name@) ==> match s_sym(
                self.symbols@,
                spec_ix(self.symbols@, name@),
                Seq::empty(),
            ) {
                Ok(v) => r matches Some(s) && s@ == spec_store_text(v),
                Err(_) => r is None,
            },
    {
        match self.effective_value(name) {
            Some(v) => Some(crate::value::store_text(&v)),
            None => None,
        }
    }

    /// Whether `name` is effectively on: its resolved value reads as `y`
    /// or `m` — so a symbol gated off by its dependencies reads as
    /// disabled whatever is stored, a selected symbol reads as enabled
    /// against a stored `n`, and an unset symbol surfaces its first
    /// satisfied default.  An undeclared name, and a dependency cycle,
    /// read as disabled.
    pub fn is_enabled(&self, name: &str) -> (r: bool)
        requires
            self.wf(),
        ensures
            r == (spec_has(self.symbols@, name@) && (s_sym(
                self.symbols@,
                spec_ix(self.symbols@, name@),
                Seq::empty(),
            ) matches Ok(v) && spec_value_tri(v) != Tristate::No)),
    {
        match self.effective_value(name) {
            Some(v) => !matches!(value_tri(&v), Tristate::No),
            None => false,
        }
    }

    /// Stores a user value given as raw text, read under the symbol's
    /// declared type and validated as [`Self::set_user_value`] does: a
    /// numeric value outside the active range is rejected with
    /// `OutOfRange` and the table is unchanged; storing `y` into a choice
    /// member forces its siblings to `n`.  A name that was never declared
    /// is ignored.
    pub fn set_value(&mut self, name: &str, value: String) -> (r: Result<(), ResolutionError>)
        requires
            old(self).wf(),
        ensures
            final(self).wf(),
            final(self).choices@ == old(self).choices@,
            final(self).symbols@.len() == old(self).symbols@.len(),
            !spec_has(old(self).symbols@, name@) ==> r is Ok && final(self).symbols@ == old(
                self,
            ).symbols@,
            r is Err ==> final(self).symbols@ == old(self).symbols@,
            spec_has(old(self).symbols@, name@) ==> {
                let k = spec_ix(old(self).symbols@, name@);
                let parsed = spec_parse_typed(value@, old(self).symbols@[k].symbol_type);
                &&& match spec_set_verdict(old(self).symbols@, k, parsed) {
                    SetVerdict::Accept => r is Ok,
                    SetVerdict::RejectType => r matches Err(e) && e is TypeMismatch,
                    SetVerdict::RejectRange => r matches Err(e) && e is OutOfRange,
                    SetVerdict::RejectCycle => r matches Err(e) && e is CyclicDependency,
                }
                &&& (r is Ok ==> spec_store_effect(
                    old(self).symbols@,
                    final(self).symbols@,
                    k,
                    parsed,
                ))
            },
    {
        let ty = match self.find(name) {
            None => {
                return Ok(());
            },
            Some(i) => self.symbols[i].symbol_type,
        };
        let parsed = crate::value::parse_typed(value.as_str(), ty);
        self.set_user_value(name, parsed)
    }

    /// Ingests an initial user-value overlay, as read from a saved
    /// configuration: each `(name, raw text)` pair is stored in order, and
    /// names not present in the table are silently ignored.
    pub fn apply_overlay(&mut self, overlay: &Vec<(String, String)>)
        requires
            old(self).wf(),
        ensures
            final(self).wf(),
            final(self).choices@ == old(self).choices@,
            final(self).symbols@ == spec_overlay(old(self).symbols@, overlay@, 0),
    {
        let mut k: usize = 0;
        proof {
            assert(overlay@.subrange(0, 0) =~= Seq::<(String, String)>::empty());
        }
        while k < overlay.len()
            invariant
                old(self).wf(),
                self.wf(),
                k <= overlay@.len(),
                self.choices@ == old(self).choices@,
                spec_overlay(old(self).symbols@, overlay@, 0) == spec_overlay(
                    self.symbols@,
                    overlay@,
                    k as int,
                ),
            decreases overlay@.len() - k,
        {
            let (name, raw) = &overlay[k];
            self.store_raw(name.as_str(), raw.clone());
            k = k + 1;
        }
        proof {
            assert(spec_overlay(self.symbols@, overlay@, overlay@.len() as int) == self.symbols@);
        }
    }
}

/// One overlay pair applied to a table: the stored value of a declared
/// name is replaced; an unknown name changes nothing.
pub open spec fn spec_overlay_step(t: Seq<Symbol>, name: Seq<char>, raw: String) -> Seq<Symbol> {
    if spec_has(t, name) {
        t.update(
            spec_ix(t, name),
            crate::symbol::spec_with_value(t[spec_ix(t, name)], Some(raw)),
        )
    } else {
        t
    }
}

/// The overlay pairs `overlay[k..]` applied to `t`, in order.
pub open spec fn spec_overlay(t: Seq<Symbol>, overlay: Seq<(String, String)>, k: int) -> Seq<
    Symbol,
>
    decreases overlay.len() - k
        when 0 <= k <= overlay.len()
{
    if k >= overlay.len() {
        t
    } else {
        spec_overlay(spec_overlay_step(t, overlay[k].0@, overlay[k].1), overlay, k + 1)
    }
}

} // verus!
