//! Symbol identifiers.

use vstd::prelude::*;

verus! {

/// The identity of an interned symbol: one of a closed set of well-known
/// names, or the index that a symbol table gave to a text at first sight.
#[derive(Clone, Copy, PartialEq, Eq, Debug, Hash, Structural)]
pub enum SymbolType {
    Cond,
    Car,
    Cdr,
    Quote,
    Cons,
    Add,
    Sub,
    Mul,
    Div,
    Others(u64),
}

/// The number of well-known identifiers.
pub const WELL_KNOWN: u128 = 9;

impl SymbolType {
    /// Whether this is one of the well-known identifiers.
    pub open spec fn is_well_known(self) -> bool {
        !(self is Others)
    }

    /// An injective numbering of all identifiers: the well-known ones come
    /// first, in declaration order, then `Others(n)` at `WELL_KNOWN + n`.
    pub open spec fn code(self) -> int {
        match self {
            SymbolType::Cond => 0,
            SymbolType::Car => 1,
            SymbolType::Cdr => 2,
            SymbolType::Quote => 3,
            SymbolType::Cons => 4,
            SymbolType::Add => 5,
            SymbolType::Sub => 6,
            SymbolType::Mul => 7,
            SymbolType::Div => 8,
            SymbolType::Others(n) => WELL_KNOWN + n,
        }
    }

    /// The fixed display text of an identifier, which does not depend on any
    /// table: each well-known identifier reads as its own name. An `Others`
    /// has its name in the table that gave it out, and reads `unknown` here.
    pub open spec fn fixed_text(self) -> Seq<char> {
        match self {
            SymbolType::Cond => "Cond"@,
            SymbolType::Car => "Car"@,
            SymbolType::Cdr => "Cdr"@,
            SymbolType::Quote => "Quote"@,
            SymbolType::Cons => "Cons"@,
            SymbolType::Add => "Add"@,
            SymbolType::Sub => "Sub"@,
            SymbolType::Mul => "Mul"@,
            SymbolType::Div => "Div"@,
            SymbolType::Others(_) => "unknown"@,
        }
    }

    /// Computes `code`.
    pub fn key(&self) -> (k: u128)
        ensures
            k == self.code(),
    {
        match *self {
            SymbolType::Cond => 0,
            SymbolType::Car => 1,
            SymbolType::Cdr => 2,
            SymbolType::Quote => 3,
            SymbolType::Cons => 4,
            SymbolType::Add => 5,
            SymbolType::Sub => 6,
            SymbolType::Mul => 7,
            SymbolType::Div => 8,
            SymbolType::Others(n) => {
                let wide: u128 = n as u128;
                WELL_KNOWN + wide
            },
        }
    }

    /// The fixed display text of this identifier.
    pub fn to_string(&self) -> (s: &'static str)
        ensures
            s@ == self.fixed_text(),
    {
        match *self {
            SymbolType::Cond => "Cond",
            SymbolType::Car => "Car",
            SymbolType::Cdr => "Cdr",
            SymbolType::Quote => "Quote",
            SymbolType::Cons => "Cons",
            SymbolType::Add => "Add",
            SymbolType::Sub => "Sub",
            SymbolType::Mul => "Mul",
            SymbolType::Div => "Div",
            SymbolType::Others(_) => "unknown",
        }
    }
}

/// Distinct identifiers have distinct codes.
pub proof fn lemma_code_injective(a: SymbolType, b: SymbolType)
    requires
        a.code() == b.code(),
    ensures
        a == b,
{
}

/// The fixed texts tell all identifiers apart but the `Others` among
/// themselves: two identifiers with the same fixed text are the same
/// well-known identifier, or are both `Others`.
pub proof fn lemma_fixed_text_injective(a: SymbolType, b: SymbolType)
    ensures
        a.fixed_text() == b.fixed_text() ==> a.is_well_known() == b.is_well_known(),
        a.fixed_text() == b.fixed_text() && a.is_well_known() ==> a == b,
{
    reveal_strlit("Cond");
    reveal_strlit("Car");
    reveal_strlit("Cdr");
    reveal_strlit("Quote");
    reveal_strlit("Cons");
    reveal_strlit("Add");
    reveal_strlit("Sub");
    reveal_strlit("Mul");
    reveal_strlit("Div");
    reveal_strlit("unknown");
    let x = a.fixed_text();
    let y = b.fixed_text();
    if x == y {
        assert(x.len() == y.len());
        assert(x[0] == y[0]);
        assert(x[1] == y[1]);
        assert(x[2] == y[2]);
        if x.len() > 3 {
            assert(x[3] == y[3]);
        }
    }
}

} // verus!
