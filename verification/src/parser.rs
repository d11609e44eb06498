//! The reader: the grammar of s-expressions, and the functions that read
//! it from bytes.
//!
//! ```text
//! s_expr := plain | quoted
//! plain  := "(" body ")"
//! quoted := "'(" body ")"            -- reads as (quote <body>)
//! body   := (factor " "*)*           -- a proper list
//! factor := atom | s_expr
//! atom   := string | integer | symbol
//! ```
//!
//! White space may stand before and after each parenthesis and each body.
//! The alternatives of a rule are tried in order, and the first that matches
//! or runs out of input decides.

use crate::lexeme::{
    integer, integer_spec, string, string_spec, symbol, symbol_spec, within, yields, Lex, Outcome,
};
use crate::scan::{after_run, drop_front, lemma_run_len, skip_run, tag, tag_spec, Class, Tag};
use crate::symbol::SymbolType;
use crate::table::{Registry, SymbolTable};
use crate::value::{views, Value, ValueView};
use vstd::prelude::*;

verus! {

/// The smaller of two counts of unread bytes: the failure that got further.
pub open spec fn further(a: nat, b: nat) -> nat {
    if a <= b {
        a
    } else {
        b
    }
}

/// The word that opens a list: `(`, or `'(` for a quoted list.
pub open spec fn open_word(quoted: bool) -> Seq<u8> {
    if quoted {
        seq![0x27u8, 0x28u8]
    } else {
        seq![0x28u8]
    }
}

/// The word that closes a list: `)`.
pub open spec fn close_word() -> Seq<u8> {
    seq![0x29u8]
}

/// The value of a list with the given items: the proper list of them, and
/// for a quoted list the two-item list of the symbol `Quote` and that list.
pub open spec fn list_value(items: Seq<ValueView>, quoted: bool) -> ValueView {
    if quoted {
        ValueView::list_of(
            seq![ValueView::Symbol(SymbolType::Quote), ValueView::list_of(items)],
        )
    } else {
        ValueView::list_of(items)
    }
}

/// An atom: a string, else an integer, else a symbol.
pub open spec fn atom_spec(input: Seq<u8>, reg: Registry) -> (Lex<ValueView>, Registry) {
    match string_spec(input) {
        Lex::Error { left: l1 } => match integer_spec(input) {
            Lex::Error { left: l2 } => match symbol_spec(input, reg) {
                (Lex::Error { left: l3 }, r) => (
                    Lex::Error { left: further(further(l1, l2), l3) },
                    r,
                ),
                other => other,
            },
            other => (other, reg),
        },
        other => (other, reg),
    }
}

/// A factor: an atom, else a list.
pub open spec fn factor_spec(input: Seq<u8>, reg: Registry) -> (Lex<ValueView>, Registry)
    decreases input.len(), 2int,
{
    match atom_spec(input, reg) {
        (Lex::Error { left: l1 }, r1) => match s_expr_spec(input, r1) {
            (Lex::Error { left: l2 }, r2) => (Lex::Error { left: further(l1, l2) }, r2),
            other => other,
        },
        other => other,
    }
}

/// An s-expression: a plain list, else a quoted list.
pub open spec fn s_expr_spec(input: Seq<u8>, reg: Registry) -> (Lex<ValueView>, Registry)
    decreases input.len(), 1int,
{
    match list_spec(input, reg, false) {
        (Lex::Error { left: l1 }, r1) => match list_spec(input, r1, true) {
            (Lex::Error { left: l2 }, r2) => (Lex::Error { left: further(l1, l2) }, r2),
            other => other,
        },
        other => other,
    }
}

/// A list: the opening word, a body, the closing word, with white space
/// allowed around each.
pub open spec fn list_spec(input: Seq<u8>, reg: Registry, quoted: bool) -> (
    Lex<ValueView>,
    Registry,
)
    decreases input.len(), 0int,
    via list_spec_decreases
{
    let start = after_run(input, Class::Space);
    match tag_spec(start, open_word(quoted)) {
        Tag::Mismatch => (Lex::Error { left: start.len() }, reg),
        Tag::Incomplete => (Lex::Incomplete, reg),
        Tag::Match => {
            let inner = after_run(start.skip(open_word(quoted).len() as int), Class::Space);
            let body = items_spec(inner, reg);
            match body.0 {
                Lex::Done { value: items, rest } => {
                    let end = after_run(rest, Class::Space);
                    match tag_spec(end, close_word()) {
                        Tag::Mismatch => (Lex::Error { left: end.len() }, body.1),
                        Tag::Incomplete => (Lex::Incomplete, body.1),
                        Tag::Match => (
                            Lex::Done {
                                value: list_value(items, quoted),
                                rest: after_run(end.skip(1), Class::Space),
                            },
                            body.1,
                        ),
                    }
                },
                Lex::Incomplete => (Lex::Incomplete, body.1),
                Lex::Error { left } => (Lex::Error { left }, body.1),
            }
        },
    }
}

#[via_fn]
proof fn list_spec_decreases(input: Seq<u8>, reg: Registry, quoted: bool) {
    let start = after_run(input, Class::Space);
    lemma_run_len(input, Class::Space);
    if tag_spec(start, open_word(quoted)) is Match {
        lemma_run_len(start.skip(open_word(quoted).len() as int), Class::Space);
    }
}

/// The items of a body: factors, each followed by any number of spaces, as
/// long as there is input and a factor matches. A factor that runs out of
/// input leaves the body incomplete.
pub open spec fn items_spec(input: Seq<u8>, reg: Registry) -> (Lex<Seq<ValueView>>, Registry)
    decreases input.len(), 4int,
{
    if input.len() == 0 {
        (Lex::Done { value: Seq::empty(), rest: input }, reg)
    } else {
        let first = item_spec(input, reg);
        match first.0 {
            Lex::Error { .. } => (Lex::Done { value: Seq::empty(), rest: input }, first.1),
            Lex::Incomplete => (Lex::Incomplete, first.1),
            Lex::Done { value, rest } => if rest.len() < input.len() {
                prepend(seq![value], items_spec(rest, first.1))
            } else {
                (Lex::Error { left: input.len() }, first.1)
            },
        }
    }
}

/// The items `front`, followed by those that `more` found.
pub open spec fn prepend(front: Seq<ValueView>, more: (Lex<Seq<ValueView>>, Registry)) -> (
    Lex<Seq<ValueView>>,
    Registry,
) {
    match more.0 {
        Lex::Done { value, rest } => (Lex::Done { value: front + value, rest }, more.1),
        _ => more,
    }
}

/// An item of a body: a factor and the spaces after it.
pub open spec fn item_spec(input: Seq<u8>, reg: Registry) -> (Lex<ValueView>, Registry)
    decreases input.len(), 3int,
{
    match factor_spec(input, reg) {
        (Lex::Done { value, rest }, r) => (
            Lex::Done { value, rest: after_run(rest, Class::Blank) },
            r,
        ),
        other => other,
    }
}

/// Whether the outcome `o` of reading a body is `l`.
pub open spec fn yields_items(o: Outcome<Vec<Value>>, l: Lex<Seq<ValueView>>) -> bool {
    match o {
        Outcome::Done(items, rest) => l == (Lex::Done { value: views(items@), rest: rest@ }),
        Outcome::Incomplete => l is Incomplete,
        Outcome::Error(left) => l == Lex::<Seq<ValueView>>::Error { left: left as nat },
    }
}

/// Why a text could not be read.
#[derive(Clone, Copy, PartialEq, Eq, Debug, Structural)]
pub enum ParseError {
    /// The input ended before the form was complete; more input may
    /// complete it.
    Incomplete,
    /// No alternative of the grammar matches. `position` is the offset in
    /// the input of the furthest byte at which one of the alternatives
    /// tried for the outermost form stopped; a list inside the form that
    /// does not match is reported where it begins.
    Syntax { position: usize },
}

/// The smaller of two counts.
fn nearer(a: usize, b: usize) -> (r: usize)
    ensures
        r == further(a as nat, b as nat),
{
    if a <= b {
        a
    } else {
        b
    }
}

/// Reads an atom at the front of `input`.
pub fn atom<'a>(input: &'a [u8], table: &mut SymbolTable) -> (o: Outcome<'a, Value>)
    requires
        old(table).wf(),
    ensures
        final(table).wf(),
        yields(o, atom_spec(input@, old(table)@).0),
        final(table)@ == atom_spec(input@, old(table)@).1,
        within(o, input@.len()),
{
    match string(input) {
        Outcome::Error(l1) => match integer(input) {
            Outcome::Error(l2) => match symbol(input, table) {
                Outcome::Error(l3) => Outcome::Error(nearer(nearer(l1, l2), l3)),
                other => other,
            },
            other => other,
        },
        other => other,
    }
}

/// Reads a factor at the front of `input`.
pub fn factor<'a>(input: &'a [u8], table: &mut SymbolTable) -> (o: Outcome<'a, Value>)
    requires
        old(table).wf(),
    ensures
        final(table).wf(),
        yields(o, factor_spec(input@, old(table)@).0),
        final(table)@ == factor_spec(input@, old(table)@).1,
        within(o, input@.len()),
    decreases input@.len(), 2int,
{
    match atom(input, table) {
        Outcome::Error(l1) => match s_expr(input, table) {
            Outcome::Error(l2) => Outcome::Error(nearer(l1, l2)),
            other => other,
        },
        other => other,
    }
}

/// Reads an s-expression at the front of `input`: a list in parentheses,
/// or a quoted list. The symbols in it are resolved in `table`, in the
/// order in which they are read, also when the reading fails later on.
pub fn s_expr<'a>(input: &'a [u8], table: &mut SymbolTable) -> (o: Outcome<'a, Value>)
    requires
        old(table).wf(),
    ensures
        final(table).wf(),
        yields(o, s_expr_spec(input@, old(table)@).0),
        final(table)@ == s_expr_spec(input@, old(table)@).1,
        within(o, input@.len()),
    decreases input@.len(), 1int,
{
    match list(input, table, false) {
        Outcome::Error(l1) => match list(input, table, true) {
            Outcome::Error(l2) => Outcome::Error(nearer(l1, l2)),
            other => other,
        },
        other => other,
    }
}

/// Compares the front of `input` with the word that opens a list.
fn open_tag(input: &[u8], quoted: bool) -> (r: Tag)
    ensures
        r == tag_spec(input@, open_word(quoted)),
{
    if quoted {
        let word: [u8; 2] = [0x27, 0x28];
        assert(word@ =~= open_word(true));
        tag(input, &word)
    } else {
        let word: [u8; 1] = [0x28];
        assert(word@ =~= open_word(false));
        tag(input, &word)
    }
}

/// Reads a list at the front of `input`, plain or quoted.
pub fn list<'a>(input: &'a [u8], table: &mut SymbolTable, quoted: bool) -> (o: Outcome<
    'a,
    Value,
>)
    requires
        old(table).wf(),
    ensures
        final(table).wf(),
        yields(o, list_spec(input@, old(table)@, quoted).0),
        final(table)@ == list_spec(input@, old(table)@, quoted).1,
        within(o, input@.len()),
    decreases input@.len(), 0int,
{
    let start = skip_run(input, Class::Space);
    match open_tag(start, quoted) {
        Tag::Mismatch => Outcome::Error(start.len()),
        Tag::Incomplete => Outcome::Incomplete,
        Tag::Match => {
            let width: usize = if quoted {
                2
            } else {
                1
            };
            let inner = skip_run(drop_front(start, width), Class::Space);
            match items(inner, table) {
                Outcome::Done(found, rest) => {
                    let end = skip_run(rest, Class::Space);
                    let close: [u8; 1] = [0x29];
                    assert(close@ =~= close_word());
                    match tag(end, &close) {
                        Tag::Mismatch => Outcome::Error(end.len()),
                        Tag::Incomplete => Outcome::Incomplete,
                        Tag::Match => {
                            let body = Value::from_iter(&found);
                            let value = if quoted {
                                let mut pair: Vec<Value> = Vec::new();
                                pair.push(Value::TSymbol(SymbolType::Quote));
                                pair.push(body);
                                assert(views(pair@) =~= seq![
                                    ValueView::Symbol(SymbolType::Quote),
                                    ValueView::list_of(views(found@)),
                                ]);
                                Value::from_iter(&pair)
                            } else {
                                body
                            };
                            Outcome::Done(value, skip_run(drop_front(end, 1), Class::Space))
                        },
                    }
                },
                Outcome::Incomplete => Outcome::Incomplete,
                Outcome::Error(left) => Outcome::Error(left),
            }
        },
    }
}

/// Reads the items of a body at the front of `input`.
pub fn items<'a>(input: &'a [u8], table: &mut SymbolTable) -> (o: Outcome<'a, Vec<Value>>)
    requires
        old(table).wf(),
    ensures
        final(table).wf(),
        yields_items(o, items_spec(input@, old(table)@).0),
        final(table)@ == items_spec(input@, old(table)@).1,
        within(o, input@.len()),
    decreases input@.len(), 4int,
{
    let mut found: Vec<Value> = Vec::new();
    let mut cur = input;
    loop
        invariant
            table.wf(),
            cur@.len() <= input@.len(),
            items_spec(input@, old(table)@) == prepend(views(found@), items_spec(cur@, table@)),
        decreases cur@.len(),
    {
        if cur.len() == 0 {
            proof {
                assert(views(found@) + Seq::<ValueView>::empty() =~= views(found@));
            }
            return Outcome::Done(found, cur);
        }
        let ghost before = table@;
        let ghost so_far = views(found@);
        match item(cur, table) {
            Outcome::Error(_) => {
                proof {
                    assert(so_far + Seq::<ValueView>::empty() =~= so_far);
                }
                return Outcome::Done(found, cur);
            },
            Outcome::Incomplete => {
                return Outcome::Incomplete;
            },
            Outcome::Done(value, rest) => {
                if rest.len() >= cur.len() {
                    return Outcome::Error(cur.len());
                }
                proof {
                    let more = items_spec(rest@, table@);
                    assert(items_spec(cur@, before) == prepend(seq![value@], more));
                    assert(views(found@.push(value)) =~= so_far + seq![value@]);
                    match more.0 {
                        Lex::Done { value: vs, rest: r } => {
                            assert(so_far + (seq![value@] + vs) =~= (so_far + seq![value@]) + vs);
                        },
                        _ => {},
                    }
                }
                found.push(value);
                cur = rest;
            },
        }
    }
}

/// Reads an item of a body at the front of `input`.
pub fn item<'a>(input: &'a [u8], table: &mut SymbolTable) -> (o: Outcome<'a, Value>)
    requires
        old(table).wf(),
    ensures
        final(table).wf(),
        yields(o, item_spec(input@, old(table)@).0),
        final(table)@ == item_spec(input@, old(table)@).1,
        within(o, input@.len()),
    decreases input@.len(), 3int,
{
    match factor(input, table) {
        Outcome::Done(value, rest) => Outcome::Done(value, skip_run(rest, Class::Blank)),
        other => other,
    }
}

/// Reads one s-expression at the front of `input`, resolving its symbols
/// in `table`: the value and the input that is left, or why there is none.
pub fn parse<'a>(input: &'a [u8], table: &mut SymbolTable) -> (r: Result<
    (Value, &'a [u8]),
    ParseError,
>)
    requires
        old(table).wf(),
    ensures
        final(table).wf(),
        final(table)@ == s_expr_spec(input@, old(table)@).1,
        match r {
            Ok((value, rest)) => s_expr_spec(input@, old(table)@).0 == (Lex::Done {
                value: value@,
                rest: rest@,
            }),
            Err(ParseError::Incomplete) => s_expr_spec(input@, old(table)@).0 is Incomplete,
            Err(ParseError::Syntax { position }) => s_expr_spec(input@, old(table)@).0
                == Lex::<ValueView>::Error { left: (input@.len() - position) as nat },
        },
{
    match s_expr(input, table) {
        Outcome::Done(value, rest) => Ok((value, rest)),
        Outcome::Incomplete => Err(ParseError::Incomplete),
        Outcome::Error(left) => Err(ParseError::Syntax { position: input.len() - left }),
    }
}

} // verus!
