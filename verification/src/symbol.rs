//! The symbol table: one record per declared configuration symbol, keyed
//! by name, holding the declared type, the stored user value (raw text),
//! dependency and default clauses, reverse-select edges and the owning
//! choice group, if any.

use vstd::prelude::*;

use crate::ast::{DefaultClause, RangeClause, SelectClause};
use crate::expr::Expr;
use crate::text::str_eq;
use crate::value::SymbolType;

verus! {

/// A reverse-select edge: `selector` declares `select` of the symbol that
/// carries this record, under `cond`.
#[derive(Debug)]
pub struct RevSelect {
    pub selector: String,
    pub cond: Option<Expr>,
}

/// A mutually exclusive group of symbols, at most one of which is `y` at a
/// time (unless the group is optional).
#[derive(Debug)]
pub struct ChoiceGroup {
    pub members: Vec<String>,
    pub is_optional: bool,
    pub symbol_type: SymbolType,
}

/// One declared configuration symbol.
#[derive(Debug)]
pub struct Symbol {
    pub name: String,
    pub symbol_type: SymbolType,
    /// The stored user value, in raw text form (`y`, `m`, `n`, a numeral,
    /// or string text).  Retained even while the symbol is invisible.
    pub value: Option<String>,
    /// Whether the symbol is a member of a choice group.
    pub is_choice: bool,
    pub prompt: Option<String>,
    pub prompt_if: Option<Expr>,
    /// The symbol's own `depends on` conditions together with the
    /// conditions inherited from enclosing menus and its choice group,
    /// all of which gate its visibility.
    pub depends: Vec<Expr>,
    pub defaults: Vec<DefaultClause>,
    pub selects: Vec<SelectClause>,
    pub ranges: Vec<RangeClause>,
    /// The symbols whose `select` names this symbol.
    pub rev_selects: Vec<RevSelect>,
    /// The owning choice group, as an index into the table's groups.
    pub choice: Option<usize>,
    pub help: Option<String>,
}

/// Owns every symbol record of one configuration session.
pub struct SymbolTable {
    pub symbols: Vec<Symbol>,
    pub choices: Vec<ChoiceGroup>,
}

/// Whether some symbol of `t` is named `name`.
pub open spec fn spec_has(t: Seq<Symbol>, name: Seq<char>) -> bool {
    exists|i: int| 0 <= i < t.len() && t[i].name@ == name
}

/// The index of the symbol of `t` named `name` (meaningful only when
/// `spec_has(t, name)` holds and names are unique).
pub open spec fn spec_ix(t: Seq<Symbol>, name: Seq<char>) -> int {
    choose|i: int| 0 <= i < t.len() && t[i].name@ == name
}

/// A freshly registered symbol: the given name and type, no stored value,
/// no clauses, no group.
pub open spec fn spec_blank_symbol(s: Symbol, name: Seq<char>, t: SymbolType) -> bool {
    &&& s.name@ == name
    &&& s.symbol_type == t
    &&& s.value is None
    &&& s.is_choice == false
    &&& s.prompt is None
    &&& s.prompt_if is None
    &&& s.depends@.len() == 0
    &&& s.defaults@.len() == 0
    &&& s.selects@.len() == 0
    &&& s.ranges@.len() == 0
    &&& s.rev_selects@.len() == 0
    &&& s.choice is None
    &&& s.help is None
}

/// The same symbol with a different stored value.
pub open spec fn spec_with_value(s: Symbol, v: Option<String>) -> Symbol {
    Symbol { value: v, ..s }
}

impl SymbolTable {
    /// The symbol records, in registration order.
    pub open spec fn view_symbols(&self) -> Seq<Symbol> {
        self.symbols@
    }

    /// The choice groups, in declaration order.
    pub open spec fn view_choices(&self) -> Seq<ChoiceGroup> {
        self.choices@
    }

    /// Well-formedness: symbol names are unique.
    pub open spec fn wf(&self) -> bool {
        forall|i: int, j: int|
            0 <= i < j < self.symbols@.len() ==> self.symbols@[i].name@ != self.symbols@[j].name@
    }

    /// An empty table.
    pub fn new() -> (r: Self)
        ensures
            r.view_symbols().len() == 0,
            r.view_choices().len() == 0,
            r.wf(),
    {
        SymbolTable { symbols: Vec::new(), choices: Vec::new() }
    }

    /// The index of the symbol named `name`, if declared.
    pub(crate) fn find(&self, name: &str) -> (r: Option<usize>)
        ensures
            r matches Some(i) ==> 0 <= i < self.symbols@.len() && self.symbols@[i as int].name@
                == name@,
            r is None ==> !spec_has(self.symbols@, name@),
            self.wf() && spec_has(self.symbols@, name@) ==> r == Some(
                spec_ix(self.symbols@, name@) as usize,
            ),
    {
        let mut i: usize = 0;
        while i < self.symbols.len()
            invariant
                i <= self.symbols@.len(),
                forall|j: int| 0 <= j < i ==> self.symbols@[j].name@ != name@,
            decreases self.symbols@.len() - i,
        {
            if str_eq(self.symbols[i].name.as_str(), name) {
                proof {
                    if self.wf() {
                        let k = spec_ix(self.symbols@, name@);
                        assert(0 <= k < self.symbols@.len() && self.symbols@[k].name@ == name@);
                        assert(k == i);
                    }
                }
                return Some(i);
            }
            i = i + 1;
        }
        None
    }

    /// Registers a symbol under `name` with the declared type `t`.  A
    /// duplicate declaration of the same name merges: the first
    /// registration stays authoritative and the table is unchanged.
    pub fn add_symbol(&mut self, name: String, symbol_type: SymbolType)
        requires
            old(self).wf(),
        ensures
            final(self).wf(),
            final(self).view_choices() == old(self).view_choices(),
            spec_has(old(self).symbols@, name@) ==> final(self).symbols@ == old(self).symbols@,
            !spec_has(old(self).symbols@, name@) ==> {
                &&& final(self).symbols@.len() == old(self).symbols@.len() + 1
                &&& final(self).symbols@.subrange(0, old(self).symbols@.len() as int) == old(
                    self,
                ).symbols@
                &&& spec_blank_symbol(final(self).symbols@.last(), name@, symbol_type)
            },
    {
        if self.find(name.as_str()).is_some() {
            return ;
        }
        let ghost before = self.symbols@;
        let sym = Symbol {
            name,
            symbol_type,
            value: None,
            is_choice: false,
            prompt: None,
            prompt_if: None,
            depends: Vec::new(),
            defaults: Vec::new(),
            selects: Vec::new(),
            ranges: Vec::new(),
            rev_selects: Vec::new(),
            choice: None,
            help: None,
        };
        self.symbols.push(sym);
        proof {
            assert(self.symbols@.subrange(0, before.len() as int) =~= before);
        }
    }

    /// Stores a raw user value for `name`, bypassing validation: the
    /// overlay reader's ingestion path, where the text is read under the
    /// declared type lazily at resolution.  A name that is not declared
    /// is ignored.
    pub(crate) fn store_raw(&mut self, name: &str, value: String)
        requires
            old(self).wf(),
        ensures
            final(self).wf(),
            final(self).view_choices() == old(self).view_choices(),
            !spec_has(old(self).symbols@, name@) ==> final(self).symbols@ == old(self).symbols@,
            spec_has(old(self).symbols@, name@) ==> final(self).symbols@ == old(
                self,
            ).symbols@.update(
                spec_ix(old(self).symbols@, name@),
                spec_with_value(
                    old(self).symbols@[spec_ix(old(self).symbols@, name@)],
                    Some(value),
                ),
            ),
    {
        let ix = self.find(name);
        match ix {
            Some(i) => {
                let sym = &mut self.symbols[i];
                sym.value = Some(value);
                proof {
                    let k = spec_ix(old(self).symbols@, name@);
                    assert(self.symbols@ =~= old(self).symbols@.update(
                        k,
                        spec_with_value(old(self).symbols@[k], Some(value)),
                    ));
                }
            },
            None => {},
        }
    }

    /// The symbol record of `name`, if declared.
    pub fn get_symbol(&self, name: &str) -> (r: Option<&Symbol>)
        requires
            self.wf(),
        ensures
            spec_has(self.symbols@, name@) ==> (r matches Some(s) && *s == self.symbols@[spec_ix(
                self.symbols@,
                name@,
            )]),
            !spec_has(self.symbols@, name@) ==> r is None,
    {
        match self.find(name) {
            Some(i) => Some(&self.symbols[i]),
            None => None,
        }
    }

    /// Every symbol record, in registration order.
    pub fn all_symbols(&self) -> (r: &Vec<Symbol>)
        ensures
            r@ == self.symbols@,
    {
        &self.symbols
    }
}

impl Default for SymbolTable {
    /// An empty table.
    fn default() -> (r: Self)
        ensures
            r.view_symbols().len() == 0,
            r.view_choices().len() == 0,
            r.wf(),
    {
        SymbolTable::new()
    }
}

} // verus!
