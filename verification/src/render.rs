//! The textual form of values.

use crate::symbol::SymbolType;
use crate::table::{Registry, SymbolLookupError, SymbolTable};
use crate::value::{Value, ValueView};
use vstd::prelude::*;
use vstd::string::StringExecFns;

verus! {

/// The character of the decimal digit `d`.
pub open spec fn digit_char(d: nat) -> char {
    if d == 0 {
        '0'
    } else if d == 1 {
        '1'
    } else if d == 2 {
        '2'
    } else if d == 3 {
        '3'
    } else if d == 4 {
        '4'
    } else if d == 5 {
        '5'
    } else if d == 6 {
        '6'
    } else if d == 7 {
        '7'
    } else if d == 8 {
        '8'
    } else {
        '9'
    }
}

/// The decimal numeral of `n`, without leading zeros.
pub open spec fn decimal(n: nat) -> Seq<char>
    decreases n,
{
    if n < 10 {
        seq![digit_char(n)]
    } else {
        decimal(n / 10).push(digit_char(n % 10))
    }
}

/// The decimal numeral of `i`, with a minus sign if it is negative.
pub open spec fn integer_text(i: int) -> Seq<char> {
    if i < 0 {
        seq!['-'] + decimal((-i) as nat)
    } else {
        decimal(i as nat)
    }
}

impl ValueView {
    /// Whether every pair in this value belongs to a proper list, so that
    /// the value has a textual form.
    pub open spec fn proper(self) -> bool
        decreases self, 1int,
    {
        match self {
            ValueView::Cons(h, t) => h.proper() && t.proper_tail(),
            _ => true,
        }
    }

    /// Whether this is `Nil` or a pair that continues a proper list of
    /// proper values.
    pub open spec fn proper_tail(self) -> bool
        decreases self, 0int,
    {
        match self {
            ValueView::Nil => true,
            ValueView::Cons(h, t) => h.proper() && t.proper_tail(),
            _ => false,
        }
    }

    /// The first symbol, in reading order, that `reg` has no text for.
    pub open spec fn first_unknown(self, reg: Registry) -> Option<SymbolType>
        decreases self,
    {
        match self {
            ValueView::Symbol(id) => if reg.display_name(id) is None {
                Some(id)
            } else {
                None
            },
            ValueView::Cons(h, t) => if h.first_unknown(reg) is Some {
                h.first_unknown(reg)
            } else {
                t.first_unknown(reg)
            },
            _ => None,
        }
    }

    /// The text of a value all of whose symbols `reg` has a text for:
    /// an integer as its decimal numeral, a single or double as its
    /// literal, a string between double quotes with nothing escaped, `Nil`
    /// as `nil`, a symbol as its display name, `True` as nothing, and a
    /// list as its items' texts, separated by one space, in parentheses.
    pub open spec fn text(self, reg: Registry) -> Seq<char>
        decreases self, 1int,
    {
        match self {
            ValueView::Int(i) => integer_text(i),
            ValueView::Str(s) => seq!['"'] + s + seq!['"'],
            ValueView::Float(s) => s,
            ValueView::Double(s) => s,
            ValueView::Symbol(id) => match reg.display_name(id) {
                Some(name) => name,
                None => Seq::empty(),
            },
            ValueView::Cons(h, t) => seq!['('] + h.text(reg) + t.tail_text(reg) + seq![')'],
            ValueView::True => Seq::empty(),
            ValueView::Nil => seq!['n', 'i', 'l'],
        }
    }

    /// The text of the rest of a list: each further item after one space.
    pub open spec fn tail_text(self, reg: Registry) -> Seq<char>
        decreases self, 0int,
    {
        match self {
            ValueView::Cons(h, t) => seq![' '] + h.text(reg) + t.tail_text(reg),
            _ => Seq::empty(),
        }
    }

    /// The textual form of a proper value: its text, or the first symbol
    /// that has none.
    pub open spec fn render(self, reg: Registry) -> Result<Seq<char>, SymbolLookupError> {
        match self.first_unknown(reg) {
            Some(id) => Err(SymbolLookupError { id }),
            None => Ok(self.text(reg)),
        }
    }
}

/// The one-character string of the decimal digit `d`.
fn digit_str(d: u32) -> (s: &'static str)
    requires
        d < 10,
    ensures
        s@ == seq![digit_char(d as nat)],
{
    proof {
        reveal_strlit("0");
        reveal_strlit("1");
        reveal_strlit("2");
        reveal_strlit("3");
        reveal_strlit("4");
        reveal_strlit("5");
        reveal_strlit("6");
        reveal_strlit("7");
        reveal_strlit("8");
        reveal_strlit("9");
    }
    let s = if d == 0 {
        "0"
    } else if d == 1 {
        "1"
    } else if d == 2 {
        "2"
    } else if d == 3 {
        "3"
    } else if d == 4 {
        "4"
    } else if d == 5 {
        "5"
    } else if d == 6 {
        "6"
    } else if d == 7 {
        "7"
    } else if d == 8 {
        "8"
    } else {
        "9"
    };
    assert(s@ =~= seq![digit_char(d as nat)]);
    s
}

/// Appends the decimal numeral of `n` to `out`.
fn push_decimal(out: &mut String, n: u32)
    ensures
        final(out)@ == old(out)@ + decimal(n as nat),
    decreases n,
{
    if n >= 10 {
        push_decimal(out, n / 10);
    }
    out.append(digit_str(n % 10));
    assert(out@ =~= old(out)@ + decimal(n as nat));
}

/// Appends the decimal numeral of `i` to `out`.
pub fn push_integer(out: &mut String, i: i32)
    ensures
        final(out)@ == old(out)@ + integer_text(i as int),
{
    if i < 0 {
        proof {
            reveal_strlit("-");
        }
        out.append("-");
        let wide: i64 = i as i64;
        let magnitude: u32 = (-wide) as u32;
        push_decimal(out, magnitude);
        assert(out@ =~= old(out)@ + integer_text(i as int));
    } else {
        push_decimal(out, i as u32);
    }
}

impl Value {
    /// Whether this value has a textual form: computes `proper`.
    pub fn is_proper(&self) -> (b: bool)
        ensures
            b == self@.proper(),
        decreases self, 1int,
    {
        match self {
            Value::TCons(h, t) => h.is_proper() && t.is_proper_tail(),
            _ => true,
        }
    }

    /// Computes `proper_tail`.
    pub fn is_proper_tail(&self) -> (b: bool)
        ensures
            b == self@.proper_tail(),
        decreases self, 0int,
    {
        match self {
            Value::TNil => true,
            Value::TCons(h, t) => h.is_proper() && t.is_proper_tail(),
            _ => false,
        }
    }

    /// Appends the text of this value to `out`, or stops at the first
    /// symbol that `table` has no text for.
    fn write(&self, table: &SymbolTable, out: &mut String) -> (r: Result<(), SymbolLookupError>)
        requires
            self@.proper(),
        ensures
            match r {
                Ok(_) => self@.first_unknown(table@) is None && final(out)@ == old(out)@
                    + self@.text(table@),
                Err(e) => self@.first_unknown(table@) == Some(e.id),
            },
        decreases self, 1int,
    {
        match self {
            Value::TInt(i) => {
                push_integer(out, *i);
                Ok(())
            },
            Value::TString(s) => {
                proof {
                    reveal_strlit("\"");
                }
                out.append("\"");
                out.append(s.as_str());
                out.append("\"");
                assert(out@ =~= old(out)@ + self@.text(table@));
                Ok(())
            },
            Value::TFloat(s) => {
                out.append(s.as_str());
                Ok(())
            },
            Value::TDouble(s) => {
                out.append(s.as_str());
                Ok(())
            },
            Value::TSymbol(id) => match table.display_name(id) {
                Ok(name) => {
                    out.append(name.as_str());
                    Ok(())
                },
                Err(e) => Err(e),
            },
            Value::TCons(h, t) => {
                proof {
                    reveal_strlit("(");
                    reveal_strlit(")");
                }
                out.append("(");
                match h.write(table, out) {
                    Ok(_) => {},
                    Err(e) => {
                        return Err(e);
                    },
                }
                match t.write_tail(table, out) {
                    Ok(_) => {},
                    Err(e) => {
                        return Err(e);
                    },
                }
                out.append(")");
                assert(out@ =~= old(out)@ + self@.text(table@));
                Ok(())
            },
            Value::TBoolT => {
                assert(out@ =~= old(out)@ + self@.text(table@));
                Ok(())
            },
            Value::TNil => {
                proof {
                    reveal_strlit("nil");
                }
                out.append("nil");
                assert(out@ =~= old(out)@ + self@.text(table@));
                Ok(())
            },
        }
    }

    /// Appends the text of the rest of a list to `out`.
    fn write_tail(&self, table: &SymbolTable, out: &mut String) -> (r: Result<
        (),
        SymbolLookupError,
    >)
        requires
            self@.proper_tail(),
        ensures
            match r {
                Ok(_) => self@.first_unknown(table@) is None && final(out)@ == old(out)@
                    + self@.tail_text(table@),
                Err(e) => self@.first_unknown(table@) == Some(e.id),
            },
        decreases self, 0int,
    {
        match self {
            Value::TCons(h, t) => {
                proof {
                    reveal_strlit(" ");
                }
                out.append(" ");
                match h.write(table, out) {
                    Ok(_) => {},
                    Err(e) => {
                        return Err(e);
                    },
                }
                match t.write_tail(table, out) {
                    Ok(_) => {},
                    Err(e) => {
                        return Err(e);
                    },
                }
                assert(out@ =~= old(out)@ + self@.tail_text(table@));
                Ok(())
            },
            _ => {
                assert(out@ =~= old(out)@ + self@.tail_text(table@));
                Ok(())
            },
        }
    }

    /// The textual form of this value, with the symbols' display names
    /// taken from `table`; an error names the first symbol that `table`
    /// has no text for.
    pub fn pretty_print(&self, table: &SymbolTable) -> (r: Result<String, SymbolLookupError>)
        requires
            self@.proper(),
        ensures
            match r {
                Ok(s) => self@.render(table@) == Ok::<Seq<char>, SymbolLookupError>(s@),
                Err(e) => self@.render(table@) == Err::<Seq<char>, SymbolLookupError>(e),
            },
    {
        let mut out = String::new();
        match self.write(table, &mut out) {
            Ok(_) => {
                assert(out@ =~= self@.text(table@));
                Ok(out)
            },
            Err(e) => Err(e),
        }
    }
}

} // verus!
