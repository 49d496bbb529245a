//! The abstract syntax tree the parser produces: a sequence of entries,
//! where a menu owns its subtree and a choice owns its member configs.

use vstd::prelude::*;

use crate::expr::Expr;
use crate::value::SymbolType;

verus! {

/// A `default value [if expr]` clause.
#[derive(Debug)]
pub struct DefaultClause {
    pub value: DefaultValue,
    pub cond: Option<Expr>,
}

/// The value of a default clause: a condition expression for boolean and
/// tristate symbols, literal text for string, int and hex symbols.
#[derive(Debug)]
pub enum DefaultValue {
    Expr(Expr),
    Text(String),
}

/// A `select TARGET [if expr]` clause.
#[derive(Debug)]
pub struct SelectClause {
    pub target: String,
    pub cond: Option<Expr>,
}

/// A `range lo hi [if expr]` clause (int and hex symbols only).
#[derive(Debug)]
pub struct RangeClause {
    pub lo: i64,
    pub hi: i64,
    pub cond: Option<Expr>,
}

/// A `config` or `menuconfig` declaration.
#[derive(Debug)]
pub struct ConfigEntry {
    pub name: String,
    pub symbol_type: SymbolType,
    pub prompt: Option<String>,
    pub prompt_if: Option<Expr>,
    pub depends: Vec<Expr>,
    pub defaults: Vec<DefaultClause>,
    pub selects: Vec<SelectClause>,
    pub ranges: Vec<RangeClause>,
    pub help: Option<String>,
}

/// A `menu ... endmenu` block.  Its `depends on` conditions gate every
/// contained entry at evaluation time; they are recorded here once and are
/// not copied into the children.
#[derive(Debug)]
pub struct MenuEntry {
    pub title: String,
    pub depends: Vec<Expr>,
    pub entries: Vec<Entry>,
}

/// A `choice ... endchoice` block: a mutually exclusive group of member
/// configs, of which at most one is effectively `y` unless the group is
/// optional.
#[derive(Debug)]
pub struct ChoiceEntry {
    pub prompt: Option<String>,
    pub symbol_type: SymbolType,
    pub is_optional: bool,
    pub depends: Vec<Expr>,
    pub members: Vec<ConfigEntry>,
}

/// A `comment` entry: display-only text with its own visibility condition.
#[derive(Debug)]
pub struct CommentEntry {
    pub text: String,
    pub depends: Vec<Expr>,
}

/// One entry of a parsed configuration tree.
#[derive(Debug)]
pub enum Entry {
    Menu(MenuEntry),
    Config(ConfigEntry),
    MenuConfig(ConfigEntry),
    Choice(ChoiceEntry),
    Comment(CommentEntry),
}

/// A parsed configuration tree.
#[derive(Debug)]
pub struct Ast {
    pub entries: Vec<Entry>,
}

} // verus!
