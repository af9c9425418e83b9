//! The definitions that a lang item can name.

use vstd::prelude::*;

use crate::db::{Crate, DefDatabase, Module};

verus! {

/// An `enum` definition, by its module and its index there.
#[derive(Debug, Clone, Copy, PartialEq, Eq, Hash, Structural)]
pub struct Enum {
    pub module: Module,
    pub id: usize,
}

/// A function definition, by its module and its index there.
#[derive(Debug, Clone, Copy, PartialEq, Eq, Hash, Structural)]
pub struct Function {
    pub module: Module,
    pub id: usize,
}

/// An implementation block, by its module and its index among the module's
/// implementation blocks.
#[derive(Debug, Clone, Copy, PartialEq, Eq, Hash, Structural)]
pub struct ImplBlock {
    pub module: Module,
    pub id: usize,
}

/// A `static` definition, by its module and its index there.
#[derive(Debug, Clone, Copy, PartialEq, Eq, Hash, Structural)]
pub struct Static {
    pub module: Module,
    pub id: usize,
}

/// A `struct` definition, by its module and its index there.
#[derive(Debug, Clone, Copy, PartialEq, Eq, Hash, Structural)]
pub struct Struct {
    pub module: Module,
    pub id: usize,
}

/// A trait definition, by its module and its index there.
#[derive(Debug, Clone, Copy, PartialEq, Eq, Hash, Structural)]
pub struct Trait {
    pub module: Module,
    pub id: usize,
}

/// The definition that a lang item names. Only implementation blocks are
/// collected at present; the other kinds can be named by callers.
#[derive(Debug, Clone, Copy, PartialEq, Eq, Hash, Structural)]
pub enum LangItemTarget {
    Enum(Enum),
    Function(Function),
    ImplBlock(ImplBlock),
    Static(Static),
    Struct(Struct),
    Trait(Trait),
}

impl LangItemTarget {
    /// The module that holds the definition.
    pub open spec fn module(self) -> Module {
        match self {
            LangItemTarget::Enum(e) => e.module,
            LangItemTarget::Function(f) => f.module,
            LangItemTarget::ImplBlock(i) => i.module,
            LangItemTarget::Static(s) => s.module,
            LangItemTarget::Struct(s) => s.module,
            LangItemTarget::Trait(t) => t.module,
        }
    }

    /// The unit that holds the definition: the owner of its module, `None`
    /// where that module is unknown to `db`.
    pub fn krate(&self, db: &DefDatabase) -> (r: Option<Crate>)
        ensures
            r == db.module_krate(self.module()),
    {
        match self {
            LangItemTarget::Enum(e) => e.module.krate(db),
            LangItemTarget::Function(f) => f.module.krate(db),
            LangItemTarget::ImplBlock(i) => i.module.krate(db),
            LangItemTarget::Static(s) => s.module.krate(db),
            LangItemTarget::Struct(s) => s.module.krate(db),
            LangItemTarget::Trait(t) => t.module.krate(db),
        }
    }
}

} // verus!
