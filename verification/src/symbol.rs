use vstd::prelude::*;
use vstd::std_specs::convert::FromSpecImpl;

verus! {

/// Identifies a sprite of the atlas.
#[derive(Debug, Clone, Copy, PartialEq, Eq, Hash, Structural)]
pub struct SymbolId(pub u32);

impl SymbolId {
    pub fn new(id: u32) -> (s: Self)
        ensures
            s == SymbolId(id),
    {
        Self(id)
    }

    pub fn id(&self) -> (id: u32)
        ensures
            id == self.0,
    {
        self.0
    }
}

impl From<u16> for SymbolId {
    fn from(id: u16) -> (s: Self) {
        Self(id as u32)
    }
}

impl FromSpecImpl<u16> for SymbolId {
    open spec fn obeys_from_spec() -> bool {
        true
    }

    open spec fn from_spec(id: u16) -> Self {
        SymbolId(id as u32)
    }
}

/// The sprite that a layer stamps.
#[derive(Debug, Clone, Copy, PartialEq, Eq, Structural)]
pub struct Symbol {
    pub id: SymbolId,
}

impl Symbol {
    pub fn new(id: SymbolId) -> (s: Self)
        ensures
            s == (Symbol { id }),
    {
        Self { id }
    }

    pub fn id(&self) -> (id: SymbolId)
        ensures
            id == self.id,
    {
        self.id
    }
}

/// The families into which the game sorts its sprites.
#[derive(Debug, Clone, Copy, PartialEq, Eq, Structural)]
pub enum SymbolGroup {
    Letters,
    Numbers,
    Punctuations,
    FilledSymbols,
    OutlinedSymbols,
    ClassSymbols,
    LineSymbols,
    CalligraphySymbols,
    GradientSymbols,
    Patterns,
    GameSymbols,
    GamePortraits,
}

} // verus!
