//! Symbol table population: one depth-first, left-to-right walk of the
//! entry tree registers every `config`/`menuconfig` (duplicate
//! declarations merge, the first staying authoritative), records each
//! choice group and its members, carries enclosing menu and choice
//! conditions into the members' dependency lists, and then adds a
//! reverse-select edge to every selected symbol.

use vstd::prelude::*;

use crate::ast::{Ast, ConfigEntry, Entry};
use crate::expr::{clone_exprs, clone_opt_expr, Expr};
use crate::symbol::{spec_has, ChoiceGroup, RevSelect, Symbol, SymbolTable};

verus! {

/// The names declared by the first `k` entries of a list, in declaration
/// order (duplicates kept): every `config`/`menuconfig` name, the names
/// inside a menu's subtree, and a choice's member names.
pub open spec fn spec_decl_names(es: Seq<Entry>, k: int) -> Seq<Seq<char>>
    decreases es, k
        when 0 <= k <= es.len()
        via spec_decl_names_decreases
{
    if k <= 0 {
        Seq::empty()
    } else {
        spec_decl_names(es, k - 1) + match es[k - 1] {
            Entry::Config(c) => seq![c.name@],
            Entry::MenuConfig(c) => seq![c.name@],
            Entry::Menu(m) => spec_decl_names(m.entries@, m.entries@.len() as int),
            Entry::Choice(ch) => ch.members@.map_values(|c: ConfigEntry| c.name@),
            Entry::Comment(_) => Seq::empty(),
        }
    }
}

#[via_fn]
proof fn spec_decl_names_decreases(es: Seq<Entry>, k: int) {
    if 0 < k <= es.len() {
        match es[k - 1] {
            Entry::Menu(m) => {
                assert(decreases_to!(es => es[k - 1]));
                assert(decreases_to!(es[k - 1] => m.entries@));
            },
            _ => {},
        }
    }
}

/// The declarations of the first `k` entries of a list, each with its
/// choice-membership flag, in declaration order (duplicates kept).
pub open spec fn spec_decl_configs(es: Seq<Entry>, k: int) -> Seq<(ConfigEntry, bool)>
    decreases es, k
        when 0 <= k <= es.len()
        via spec_decl_configs_decreases
{
    if k <= 0 {
        Seq::empty()
    } else {
        spec_decl_configs(es, k - 1) + match es[k - 1] {
            Entry::Config(c) => seq![(c, false)],
            Entry::MenuConfig(c) => seq![(c, false)],
            Entry::Menu(m) => spec_decl_configs(m.entries@, m.entries@.len() as int),
            Entry::Choice(ch) => ch.members@.map_values(|c: ConfigEntry| (c, true)),
            Entry::Comment(_) => Seq::empty(),
        }
    }
}

#[via_fn]
proof fn spec_decl_configs_decreases(es: Seq<Entry>, k: int) {
    if 0 < k <= es.len() {
        match es[k - 1] {
            Entry::Menu(m) => {
                assert(decreases_to!(es => es[k - 1]));
                assert(decreases_to!(es[k - 1] => m.entries@));
            },
            _ => {},
        }
    }
}

/// A symbol record carrying exactly the content of declaration `c` (as a
/// choice member when `isch`): same name, type, prompt, clauses and help,
/// with the dependency list extending the declared conditions by an
/// inherited prefix, no stored value, and the membership flag.
pub open spec fn spec_matches_decl(sym: Symbol, c: ConfigEntry, isch: bool) -> bool {
    &&& sym.name == c.name
    &&& sym.symbol_type == c.symbol_type
    &&& sym.prompt == c.prompt
    &&& sym.prompt_if == c.prompt_if
    &&& (exists|pre: Seq<Expr>| sym.depends@ == pre + c.depends@)
    &&& sym.defaults@ == c.defaults@
    &&& sym.selects@ == c.selects@
    &&& sym.ranges@ == c.ranges@
    &&& sym.help == c.help
    &&& sym.is_choice == isch
    &&& sym.value is None
}

/// Whether a symbol's content comes from one of the given declarations.
pub open spec fn spec_decl_ok(sym: Symbol, decls: Seq<(ConfigEntry, bool)>) -> bool {
    exists|d: (ConfigEntry, bool)| #[trigger] decls.contains(d) && spec_matches_decl(sym, d.0, d.1)
}

/// Prefix preservation composes: when `b` extends `a` and `a` extends
/// `base`, `b` extends `base`.
proof fn lemma_prefix_chain(a: Seq<Symbol>, b: Seq<Symbol>, base: Seq<Symbol>)
    requires
        base.len() <= a.len() <= b.len(),
        a.subrange(0, base.len() as int) == base,
        b.subrange(0, a.len() as int) == a,
    ensures
        b.subrange(0, base.len() as int) == base,
{
    assert forall|q: int| 0 <= q < base.len() implies b.subrange(0, base.len() as int)[q]
        == base[q] by {
        assert(b.subrange(0, a.len() as int)[q] == a[q]);
        assert(a.subrange(0, base.len() as int)[q] == base[q]);
    }
    assert(b.subrange(0, base.len() as int) =~= base);
}

/// A declaration found in either part is found in the concatenation.
proof fn lemma_decl_ok_widen(sym: Symbol, a: Seq<(ConfigEntry, bool)>, b: Seq<(ConfigEntry, bool)>)
    requires
        spec_decl_ok(sym, a) || spec_decl_ok(sym, b),
    ensures
        spec_decl_ok(sym, a + b),
{
    if spec_decl_ok(sym, a) {
        let d = choose|d: (ConfigEntry, bool)| #[trigger]
            a.contains(d) && spec_matches_decl(sym, d.0, d.1);
        lemma_contains_concat(a, b, d);
        assert((a + b).contains(d) && spec_matches_decl(sym, d.0, d.1));
    } else {
        let d = choose|d: (ConfigEntry, bool)| #[trigger]
            b.contains(d) && spec_matches_decl(sym, d.0, d.1);
        lemma_contains_concat(a, b, d);
        assert((a + b).contains(d) && spec_matches_decl(sym, d.0, d.1));
    }
}

/// Membership in a concatenation splits over its parts.
proof fn lemma_contains_concat<A>(a: Seq<A>, b: Seq<A>, x: A)
    ensures
        (a + b).contains(x) <==> a.contains(x) || b.contains(x),
{
    if a.contains(x) {
        let i = choose|i: int| 0 <= i < a.len() && a[i] == x;
        assert((a + b)[i] == x);
    }
    if b.contains(x) {
        let i = choose|i: int| 0 <= i < b.len() && b[i] == x;
        assert((a + b)[a.len() + i] == x);
    }
    if (a + b).contains(x) {
        let i = choose|i: int| 0 <= i < (a + b).len() && (a + b)[i] == x;
        if i < a.len() {
            assert(a[i] == x);
        } else {
            assert(b[i - a.len()] == x);
        }
    }
}

/// Registering one more symbol extends the declared-name set by its name.
proof fn lemma_has_push(t: Seq<Symbol>, s: Symbol, nm: Seq<char>)
    ensures
        spec_has(t.push(s), nm) <==> spec_has(t, nm) || s.name@ == nm,
{
    let t2 = t.push(s);
    if spec_has(t, nm) {
        let i = choose|i: int| 0 <= i < t.len() && t[i].name@ == nm;
        assert(t2[i].name@ == nm);
    }
    if s.name@ == nm {
        assert(t2[t.len() as int].name@ == nm);
    }
    if spec_has(t2, nm) {
        let i = choose|i: int| 0 <= i < t2.len() && t2[i].name@ == nm;
        if i < t.len() {
            assert(t[i].name@ == nm);
        }
    }
}

fn clone_opt_string(s: &Option<String>) -> (r: Option<String>)
    ensures
        r == *s,
{
    match s {
        Some(x) => Some(x.clone()),
        None => None,
    }
}

/// The inherited conditions followed by a clause list of the entry's own.
fn joined_exprs(inherited: &Vec<Expr>, own: &Vec<Expr>) -> (r: Vec<Expr>)
    ensures
        r@ == inherited@ + own@,
{
    let mut r = clone_exprs(inherited);
    let mut own2 = clone_exprs(own);
    r.append(&mut own2);
    r
}

/// Registers one declaration, merging a duplicate name by keeping the
/// first declaration authoritative (the table is then unchanged).
fn add_config(
    tbl: &mut SymbolTable,
    c: &ConfigEntry,
    inherited: &Vec<Expr>,
    choice: Option<usize>,
    is_choice: bool,
)
    requires
        old(tbl).wf(),
    ensures
        final(tbl).wf(),
        final(tbl).choices@ == old(tbl).choices@,
        forall|nm: Seq<char>|
            #![all_triggers]
            spec_has(final(tbl).symbols@, nm) <==> spec_has(old(tbl).symbols@, nm) || nm
                == c.name@,
        spec_has(old(tbl).symbols@, c.name@) ==> final(tbl).symbols@ == old(tbl).symbols@,
        !spec_has(old(tbl).symbols@, c.name@) ==> {
            &&& final(tbl).symbols@.len() == old(tbl).symbols@.len() + 1
            &&& final(tbl).symbols@.subrange(0, old(tbl).symbols@.len() as int) == old(
                tbl,
            ).symbols@
            &&& spec_matches_decl(final(tbl).symbols@.last(), *c, is_choice)
        },
{
    match tbl.find(c.name.as_str()) {
        Some(_) => {
            proof {
                assert(spec_has(tbl.symbols@, c.name@));
            }
            return ;
        },
        None => {},
    }
    let ghost before = tbl.symbols@;
    let sym = Symbol {
        name: c.name.clone(),
        symbol_type: c.symbol_type,
        value: None,
        is_choice,
        prompt: clone_opt_string(&c.prompt),
        prompt_if: clone_opt_expr(&c.prompt_if),
        depends: joined_exprs(inherited, &c.depends),
        defaults: crate::parser::clone_defaults(&c.defaults),
        selects: crate::parser::clone_selects(&c.selects),
        ranges: crate::parser::clone_ranges(&c.ranges),
        rev_selects: Vec::new(),
        choice,
        help: clone_opt_string(&c.help),
    };
    tbl.symbols.push(sym);
    proof {
        assert forall|nm: Seq<char>|
            spec_has(tbl.symbols@, nm) <==> spec_has(before, nm) || nm == c.name@ by {
            lemma_has_push(before, tbl.symbols@.last(), nm);
            assert(tbl.symbols@ =~= before.push(tbl.symbols@.last()));
        }
        assert(tbl.symbols@.subrange(0, before.len() as int) =~= before);
        assert(tbl.symbols@.last().depends@ == inherited@ + c.depends@);
        assert(spec_matches_decl(tbl.symbols@.last(), *c, is_choice));
    }
}

/// Walks one entry list, carrying the conditions inherited from enclosing
/// menus and choice groups.
fn walk_entries(tbl: &mut SymbolTable, entries: &Vec<Entry>, inherited: &Vec<Expr>)
    requires
        old(tbl).wf(),
    ensures
        final(tbl).wf(),
        forall|nm: Seq<char>|
            #![all_triggers]
            spec_has(final(tbl).symbols@, nm) <==> spec_has(old(tbl).symbols@, nm)
                || spec_decl_names(entries@, entries@.len() as int).contains(nm),
        final(tbl).symbols@.len() >= old(tbl).symbols@.len(),
        final(tbl).symbols@.subrange(0, old(tbl).symbols@.len() as int) == old(tbl).symbols@,
        forall|k: int|
            old(tbl).symbols@.len() <= k < final(tbl).symbols@.len() ==> spec_decl_ok(
                #[trigger] final(tbl).symbols@[k],
                spec_decl_configs(entries@, entries@.len() as int),
            ),
    decreases entries@,
{
    let ghost start = tbl.symbols@;
    proof {
        assert(tbl.symbols@.subrange(0, start.len() as int) =~= start);
    }
    let mut i: usize = 0;
    while i < entries.len()
        invariant
            tbl.wf(),
            i <= entries@.len(),
            forall|nm: Seq<char>|
                #![all_triggers]
                spec_has(tbl.symbols@, nm) <==> spec_has(start, nm) || spec_decl_names(
                    entries@,
                    i as int,
                ).contains(nm),
            tbl.symbols@.len() >= start.len(),
            tbl.symbols@.subrange(0, start.len() as int) == start,
            forall|k: int|
                start.len() <= k < tbl.symbols@.len() ==> spec_decl_ok(
                    #[trigger] tbl.symbols@[k],
                    spec_decl_configs(entries@, i as int),
                ),
        decreases entries@.len() - i,
    {
        let ghost pre = tbl.symbols@;
        let ghost here = spec_decl_names(entries@, i as int);
        match &entries[i] {
            Entry::Config(c) => {
                add_config(tbl, c, inherited, None, false);
                proof {
                    assert forall|nm: Seq<char>|
                        spec_has(tbl.symbols@, nm) <==> spec_has(start, nm) || spec_decl_names(
                            entries@,
                            i + 1,
                        ).contains(nm) by {
                        lemma_contains_concat(here, seq![c.name@], nm);
                        if nm == c.name@ {
                            assert(seq![c.name@][0] == nm);
                        }
                    }
                    assert(tbl.symbols@.subrange(0, pre.len() as int) =~= pre);
                    lemma_prefix_chain(pre, tbl.symbols@, start);
                    let ghost chunk = seq![(*c, false)];
                    assert forall|k: int|
                        start.len() <= k < tbl.symbols@.len() implies spec_decl_ok(
                        #[trigger] tbl.symbols@[k],
                        spec_decl_configs(entries@, i + 1),
                    ) by {
                        if k < pre.len() {
                            assert(tbl.symbols@[k] == pre[k]);
                            lemma_decl_ok_widen(
                                tbl.symbols@[k],
                                spec_decl_configs(entries@, i as int),
                                chunk,
                            );
                        } else {
                            assert(tbl.symbols@[k] == tbl.symbols@.last());
                            assert(chunk[0] == (*c, false));
                            assert(chunk.contains((*c, false)));
                            assert(spec_decl_ok(tbl.symbols@[k], chunk));
                            lemma_decl_ok_widen(
                                tbl.symbols@[k],
                                spec_decl_configs(entries@, i as int),
                                chunk,
                            );
                        }
                    }
                }
            },
            Entry::MenuConfig(c) => {
                add_config(tbl, c, inherited, None, false);
                proof {
                    assert forall|nm: Seq<char>|
                        spec_has(tbl.symbols@, nm) <==> spec_has(start, nm) || spec_decl_names(
                            entries@,
                            i + 1,
                        ).contains(nm) by {
                        lemma_contains_concat(here, seq![c.name@], nm);
                        if nm == c.name@ {
                            assert(seq![c.name@][0] == nm);
                        }
                    }
                    assert(tbl.symbols@.subrange(0, pre.len() as int) =~= pre);
                    lemma_prefix_chain(pre, tbl.symbols@, start);
                    let ghost chunk = seq![(*c, false)];
                    assert forall|k: int|
                        start.len() <= k < tbl.symbols@.len() implies spec_decl_ok(
                        #[trigger] tbl.symbols@[k],
                        spec_decl_configs(entries@, i + 1),
                    ) by {
                        if k < pre.len() {
                            assert(tbl.symbols@[k] == pre[k]);
                            lemma_decl_ok_widen(
                                tbl.symbols@[k],
                                spec_decl_configs(entries@, i as int),
                                chunk,
                            );
                        } else {
                            assert(tbl.symbols@[k] == tbl.symbols@.last());
                            assert(chunk[0] == (*c, false));
                            assert(chunk.contains((*c, false)));
                            assert(spec_decl_ok(tbl.symbols@[k], chunk));
                            lemma_decl_ok_widen(
                                tbl.symbols@[k],
                                spec_decl_configs(entries@, i as int),
                                chunk,
                            );
                        }
                    }
                }
            },
            Entry::Comment(_) => {
                proof {
                    assert forall|nm: Seq<char>|
                        spec_has(tbl.symbols@, nm) <==> spec_has(start, nm) || spec_decl_names(
                            entries@,
                            i + 1,
                        ).contains(nm) by {
                        lemma_contains_concat(here, Seq::empty(), nm);
                    }
                    assert forall|k: int|
                        start.len() <= k < tbl.symbols@.len() implies spec_decl_ok(
                        #[trigger] tbl.symbols@[k],
                        spec_decl_configs(entries@, i + 1),
                    ) by {
                        lemma_decl_ok_widen(
                            tbl.symbols@[k],
                            spec_decl_configs(entries@, i as int),
                            Seq::empty(),
                        );
                    }
                }
            },
            Entry::Menu(m) => {
                let inh2 = joined_exprs(inherited, &m.depends);
                proof {
                    assert(decreases_to!(entries@ => entries@[i as int]));
                    assert(decreases_to!(entries@[i as int] => m.entries@));
                }
                walk_entries(tbl, &m.entries, &inh2);
                proof {
                    assert forall|nm: Seq<char>|
                        spec_has(tbl.symbols@, nm) <==> spec_has(start, nm) || spec_decl_names(
                            entries@,
                            i + 1,
                        ).contains(nm) by {
                        lemma_contains_concat(
                            here,
                            spec_decl_names(m.entries@, m.entries@.len() as int),
                            nm,
                        );
                    }
                    assert(tbl.symbols@.subrange(0, pre.len() as int) =~= pre);
                    lemma_prefix_chain(pre, tbl.symbols@, start);
                    let ghost chunk = spec_decl_configs(m.entries@, m.entries@.len() as int);
                    assert forall|k: int|
                        start.len() <= k < tbl.symbols@.len() implies spec_decl_ok(
                        #[trigger] tbl.symbols@[k],
                        spec_decl_configs(entries@, i + 1),
                    ) by {
                        if k < pre.len() {
                            assert(tbl.symbols@[k] == pre[k]);
                            lemma_decl_ok_widen(
                                tbl.symbols@[k],
                                spec_decl_configs(entries@, i as int),
                                chunk,
                            );
                        } else {
                            assert(spec_decl_ok(tbl.symbols@[k], chunk));
                            lemma_decl_ok_widen(
                                tbl.symbols@[k],
                                spec_decl_configs(entries@, i as int),
                                chunk,
                            );
                        }
                    }
                }
            },
            Entry::Choice(ch) => {
                let gid = tbl.choices.len();
                let mut member_names: Vec<String> = Vec::new();
                let mut mi: usize = 0;
                while mi < ch.members.len()
                    invariant
                        mi <= ch.members@.len(),
                    decreases ch.members@.len() - mi,
                {
                    member_names.push(ch.members[mi].name.clone());
                    mi = mi + 1;
                }
                tbl.choices.push(
                    ChoiceGroup {
                        members: member_names,
                        is_optional: ch.is_optional,
                        symbol_type: ch.symbol_type,
                    },
                );
                let inh2 = joined_exprs(inherited, &ch.depends);
                let ghost mnames = ch.members@.map_values(|c: ConfigEntry| c.name@);
                let ghost mchunk = ch.members@.map_values(|c: ConfigEntry| (c, true));
                let mut mj: usize = 0;
                while mj < ch.members.len()
                    invariant
                        tbl.wf(),
                        mj <= ch.members@.len(),
                        mnames == ch.members@.map_values(|c: ConfigEntry| c.name@),
                        mchunk == ch.members@.map_values(|c: ConfigEntry| (c, true)),
                        forall|nm: Seq<char>|
                            #![all_triggers]
                            spec_has(tbl.symbols@, nm) <==> spec_has(pre, nm)
                                || mnames.subrange(0, mj as int).contains(nm),
                        pre.len() <= tbl.symbols@.len(),
                        tbl.symbols@.subrange(0, pre.len() as int) == pre,
                        forall|k: int|
                            pre.len() <= k < tbl.symbols@.len() ==> spec_decl_ok(
                                #[trigger] tbl.symbols@[k],
                                mchunk,
                            ),
                    decreases ch.members@.len() - mj,
                {
                    let ghost mpre = mnames.subrange(0, mj as int);
                    let ghost cur_pre = tbl.symbols@;
                    add_config(tbl, &ch.members[mj], &inh2, Some(gid), true);
                    proof {
                        assert(mnames[mj as int] == ch.members@[mj as int].name@);
                        assert forall|nm: Seq<char>|
                            spec_has(tbl.symbols@, nm) <==> spec_has(pre, nm) || mnames.subrange(
                                0,
                                mj + 1,
                            ).contains(nm) by {
                            assert(spec_has(tbl.symbols@, nm) <==> spec_has(cur_pre, nm) || nm
                                == ch.members@[mj as int].name@);
                            assert(spec_has(cur_pre, nm) <==> spec_has(pre, nm) || mpre.contains(
                                nm,
                            ));
                            assert(mnames.subrange(0, mj + 1) =~= mpre + seq![
                                mnames[mj as int],
                            ]);
                            lemma_contains_concat(mpre, seq![mnames[mj as int]], nm);
                            if nm == ch.members@[mj as int].name@ {
                                assert(seq![mnames[mj as int]][0] == nm);
                            }
                        }
                        assert(tbl.symbols@.subrange(0, cur_pre.len() as int) =~= cur_pre);
                        lemma_prefix_chain(cur_pre, tbl.symbols@, pre);
                        assert forall|k: int|
                            pre.len() <= k < tbl.symbols@.len() implies spec_decl_ok(
                            #[trigger] tbl.symbols@[k],
                            mchunk,
                        ) by {
                            if k < cur_pre.len() {
                                assert(tbl.symbols@[k] == cur_pre[k]);
                            } else {
                                assert(tbl.symbols@[k] == tbl.symbols@.last());
                                assert(mchunk[mj as int] == (ch.members@[mj as int], true));
                                assert(mchunk.contains(mchunk[mj as int]));
                                assert(spec_matches_decl(
                                    tbl.symbols@[k],
                                    ch.members@[mj as int],
                                    true,
                                ));
                            }
                        }
                    }
                    mj = mj + 1;
                }
                proof {
                    assert(mnames.subrange(0, mnames.len() as int) =~= mnames);
                    assert forall|nm: Seq<char>|
                        spec_has(tbl.symbols@, nm) <==> spec_has(start, nm) || spec_decl_names(
                            entries@,
                            i + 1,
                        ).contains(nm) by {
                        assert(spec_has(tbl.symbols@, nm) <==> spec_has(pre, nm)
                            || mnames.contains(nm));
                        assert(spec_has(pre, nm) <==> spec_has(start, nm) || here.contains(nm));
                        lemma_contains_concat(here, mnames, nm);
                    }
                    assert(tbl.symbols@.subrange(0, pre.len() as int) =~= pre);
                    lemma_prefix_chain(pre, tbl.symbols@, start);
                    assert forall|k: int|
                        start.len() <= k < tbl.symbols@.len() implies spec_decl_ok(
                        #[trigger] tbl.symbols@[k],
                        spec_decl_configs(entries@, i + 1),
                    ) by {
                        if k < pre.len() {
                            assert(tbl.symbols@[k] == pre[k]);
                            lemma_decl_ok_widen(
                                tbl.symbols@[k],
                                spec_decl_configs(entries@, i as int),
                                mchunk,
                            );
                        } else {
                            assert(spec_decl_ok(tbl.symbols@[k], mchunk));
                            lemma_decl_ok_widen(
                                tbl.symbols@[k],
                                spec_decl_configs(entries@, i as int),
                                mchunk,
                            );
                        }
                    }
                }
            },
        }
        i = i + 1;
    }
    proof {
        assert(spec_decl_names(entries@, entries@.len() as int) == spec_decl_names(
            entries@,
            entries@.len() as int,
        ));
    }
}

impl SymbolTable {
    /// Builds the symbol table of a parsed tree: registers every declared
    /// symbol (menu and choice conditions joining each member's
    /// dependencies), records the choice groups, and gives every selected
    /// symbol its reverse-select edges.
    pub fn from_ast(ast: &Ast) -> (r: SymbolTable)
        ensures
            r.wf(),
            forall|nm: Seq<char>|
                #![all_triggers]
                spec_has(r.symbols@, nm) <==> spec_decl_names(
                    ast.entries@,
                    ast.entries@.len() as int,
                ).contains(nm),
            forall|k: int|
                0 <= k < r.symbols@.len() ==> spec_decl_ok(
                    #[trigger] r.symbols@[k],
                    spec_decl_configs(ast.entries@, ast.entries@.len() as int),
                ),
    {
        let mut tbl = SymbolTable::new();
        proof {
            assert(forall|nm: Seq<char>| !spec_has(tbl.symbols@, nm));
        }
        let inherited: Vec<Expr> = Vec::new();
        walk_entries(&mut tbl, &ast.entries, &inherited);
        let ghost snap = tbl.symbols@;
        let mut edges: Vec<(String, String, Option<Expr>)> = Vec::new();
        let mut s: usize = 0;
        while s < tbl.symbols.len()
            invariant
                tbl.wf(),
                s <= tbl.symbols@.len(),
                tbl.symbols@ == snap,
            decreases tbl.symbols@.len() - s,
        {
            let mut c: usize = 0;
            while c < tbl.symbols[s].selects.len()
                invariant
                    tbl.wf(),
                    s < tbl.symbols@.len(),
                    c <= tbl.symbols@[s as int].selects@.len(),
                decreases tbl.symbols@[s as int].selects@.len() - c,
            {
                let clause = &tbl.symbols[s].selects[c];
                edges.push(
                    (clause.target.clone(), tbl.symbols[s].name.clone(), clone_opt_expr(
                        &clause.cond,
                    )),
                );
                c = c + 1;
            }
            s = s + 1;
        }
        let ghost decls = spec_decl_configs(ast.entries@, ast.entries@.len() as int);
        let mut e: usize = 0;
        while e < edges.len()
            invariant
                tbl.wf(),
                e <= edges@.len(),
                tbl.symbols@.len() == snap.len(),
                forall|p: int| 0 <= p < snap.len() ==> tbl.symbols@[p].name == snap[p].name,
                decls == spec_decl_configs(ast.entries@, ast.entries@.len() as int),
                forall|k: int|
                    0 <= k < tbl.symbols@.len() ==> spec_decl_ok(
                        #[trigger] tbl.symbols@[k],
                        decls,
                    ),
            decreases edges@.len() - e,
        {
            let (target, selector, cond) = &edges[e];
            let ghost before = tbl.symbols@;
            match tbl.find(target.as_str()) {
                Some(ti) => {
                    let rev = RevSelect { selector: selector.clone(), cond: clone_opt_expr(cond) };
                    let sym = &mut tbl.symbols[ti];
                    sym.rev_selects.push(rev);
                    proof {
                        assert forall|p: int, q: int|
                            0 <= p < q < tbl.symbols@.len() implies tbl.symbols@[p].name@
                            != tbl.symbols@[q].name@ by {
                            assert(tbl.symbols@[p].name == before[p].name);
                            assert(tbl.symbols@[q].name == before[q].name);
                        }
                        assert forall|k: int|
                            0 <= k < tbl.symbols@.len() implies spec_decl_ok(
                            #[trigger] tbl.symbols@[k],
                            decls,
                        ) by {
                            if k == ti as int {
                                let d = choose|d: (ConfigEntry, bool)| #[trigger]
                                    decls.contains(d) && spec_matches_decl(before[k], d.0, d.1);
                                let pp = choose|pp: Seq<Expr>|
                                    before[k].depends@ == pp + d.0.depends@;
                                assert(tbl.symbols@[k].depends@ == pp + d.0.depends@);
                                assert(spec_matches_decl(tbl.symbols@[k], d.0, d.1));
                            } else {
                                assert(tbl.symbols@[k] == before[k]);
                            }
                        }
                    }
                },
                None => {},
            }
            e = e + 1;
        }
        proof {
            assert forall|nm: Seq<char>| spec_has(tbl.symbols@, nm) <==> spec_has(snap, nm) by {
                if spec_has(tbl.symbols@, nm) {
                    let p = choose|p: int|
                        0 <= p < tbl.symbols@.len() && tbl.symbols@[p].name@ == nm;
                    assert(snap[p].name@ == nm);
                }
                if spec_has(snap, nm) {
                    let p = choose|p: int| 0 <= p < snap.len() && snap[p].name@ == nm;
                    assert(tbl.symbols@[p].name@ == nm);
                }
            }
        }
        tbl
    }
}

} // verus!
