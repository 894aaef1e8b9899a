//! The abstract program representation the parser builds.

use vstd::prelude::*;

use crate::token::Mod;

verus! {

/// A key identifier optionally paired with a modifier: the left side of a
/// binding. The modifier is present only when the literal `+` immediately
/// followed the modifier text in the source and preceded the key
/// identifier.
#[derive(Debug, PartialEq, Eq)]
pub struct Key {
    pub modifier: Option<Mod>,
    pub key: String,
}

/// A key as the specifications see it.
pub struct KeyView {
    pub modifier: Option<Mod>,
    pub key: Seq<char>,
}

impl View for Key {
    type V = KeyView;

    open spec fn view(&self) -> KeyView {
        KeyView { modifier: self.modifier, key: self.key@ }
    }
}

/// One parsed `map <key> <command>` statement.
#[derive(Debug, PartialEq, Eq)]
pub struct MapBinding {
    pub key: Key,
    pub cmd_name: String,
}

/// A binding as the specifications see it.
pub struct MapBindingView {
    pub key: KeyView,
    pub cmd_name: Seq<char>,
}

impl View for MapBinding {
    type V = MapBindingView;

    open spec fn view(&self) -> MapBindingView {
        MapBindingView { key: self.key@, cmd_name: self.cmd_name@ }
    }
}

/// The closed set of statement kinds, modeled as a variant set so future
/// statement kinds extend it without touching existing call sites. Today a
/// single variant wraps a map binding.
#[derive(Debug, PartialEq, Eq)]
pub enum Statement {
    Binding(MapBinding),
}

/// A statement as the specifications see it.
pub enum StatementView {
    Binding(MapBindingView),
}

impl View for Statement {
    type V = StatementView;

    open spec fn view(&self) -> StatementView {
        match self {
            Statement::Binding(binding) => StatementView::Binding(binding@),
        }
    }
}

/// The full ordered list of parsed statements for one configuration
/// source, one per source line, in source order.
pub type Program = Vec<Statement>;

/// The statements of a program, as the specifications see them.
pub open spec fn program_view(program: Seq<Statement>) -> Seq<StatementView> {
    program.map_values(|statement: Statement| statement@)
}

} // verus!
