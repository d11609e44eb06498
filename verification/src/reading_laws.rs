//! What holds of every reading, whatever the input.

use crate::lexeme::{integer_spec, string_spec, symbol_spec, Lex};
use crate::parser::{atom_spec, factor_spec, item_spec, items_spec, list_spec, open_word, s_expr_spec};
use crate::scan::{after_run, lemma_run_len, run_len, tag_spec, Class, Tag};
use crate::table::Registry;
use vstd::prelude::*;

verus! {

/// Whether `rest` is what is left of `input` after some of its bytes, at
/// least `least` of them, were read from its front.
pub open spec fn left_of(rest: Seq<u8>, input: Seq<u8>, least: nat) -> bool {
    &&& rest.len() + least <= input.len()
    &&& rest == input.skip(input.len() - rest.len())
}

/// Whether `l` is a sound answer on `input`: what is left is a suffix of
/// the input that is shorter by `least` bytes or more, and a failure lies
/// within the input.
pub open spec fn sound<T>(l: Lex<T>, input: Seq<u8>, least: nat) -> bool {
    match l {
        Lex::Done { rest, .. } => left_of(rest, input, least),
        Lex::Incomplete => true,
        Lex::Error { left } => left <= input.len(),
    }
}

/// Dropping a run from a suffix of the input leaves a suffix of the input.
proof fn lemma_after_run_left(rest: Seq<u8>, input: Seq<u8>, least: nat, class: Class)
    requires
        left_of(rest, input, least),
    ensures
        left_of(after_run(rest, class), input, least),
{
    lemma_run_len(rest, class);
    assert(after_run(rest, class) =~= input.skip(input.len() - after_run(rest, class).len()));
}

/// Dropping `n` bytes from a suffix of the input leaves a suffix of the
/// input that is shorter by `n`.
proof fn lemma_skip_left(rest: Seq<u8>, input: Seq<u8>, least: nat, n: nat)
    requires
        left_of(rest, input, least),
        n <= rest.len(),
    ensures
        left_of(rest.skip(n as int), input, least + n),
{
    assert(rest.skip(n as int) =~= input.skip(input.len() - rest.skip(n as int).len()));
}

/// The input is what is left of itself.
proof fn lemma_left_of_self(input: Seq<u8>)
    ensures
        left_of(input, input, 0),
{
    assert(input =~= input.skip(0));
}

/// A string literal takes at least its two quotes.
pub proof fn lemma_string_sound(input: Seq<u8>)
    ensures
        sound(string_spec(input), input, 2),
{
    lemma_left_of_self(input);
    if input.len() > 0 {
        let inner = input.skip(1);
        lemma_skip_left(input, input, 0, 1);
        lemma_run_len(inner, Class::NotQuote);
        let n = run_len(inner, Class::NotQuote);
        lemma_skip_left(inner, input, 1, n);
        let rest = inner.skip(n as int);
        if rest.len() > 0 {
            lemma_skip_left(rest, input, 1 + n, 1);
        }
    }
}

/// An integer takes at least one digit.
pub proof fn lemma_integer_sound(input: Seq<u8>)
    ensures
        sound(integer_spec(input), input, 1),
{
    lemma_left_of_self(input);
    if input.len() > 0 {
        let unsigned = if input[0] == 0x2B || input[0] == 0x2D {
            input.skip(1)
        } else {
            input
        };
        if input[0] == 0x2B || input[0] == 0x2D {
            lemma_skip_left(input, input, 0, 1);
        }
        lemma_after_run_left(unsigned, input, 0, Class::Space);
        let number = after_run(unsigned, Class::Space);
        if number.len() > 0 && Class::Digit.has(number[0]) {
            lemma_run_len(number, Class::Digit);
            let n = run_len(number, Class::Digit);
            lemma_skip_left(number, input, 0, n);
            lemma_after_run_left(number.skip(n as int), input, n, Class::Space);
        }
    }
}

/// A symbol takes at least its first letter, and keeps what the registry
/// held.
pub proof fn lemma_symbol_sound(input: Seq<u8>, reg: Registry)
    ensures
        sound(symbol_spec(input, reg).0, input, 1),
        reg.grows_to(symbol_spec(input, reg).1),
{
    lemma_left_of_self(input);
    if input.len() > 0 && Class::Alpha.has(input[0]) {
        lemma_skip_left(input, input, 0, 1);
        lemma_run_len(input.skip(1), Class::SymbolTail);
        let n = run_len(input.skip(1), Class::SymbolTail);
        lemma_skip_left(input, input, 0, 1 + n);
    }
}

/// An atom takes at least one byte, and keeps what the registry held.
pub proof fn lemma_atom_sound(input: Seq<u8>, reg: Registry)
    ensures
        sound(atom_spec(input, reg).0, input, 1),
        reg.grows_to(atom_spec(input, reg).1),
{
    lemma_string_sound(input);
    lemma_integer_sound(input);
    lemma_symbol_sound(input, reg);
}

/// A factor takes at least one byte, and keeps what the registry held.
pub proof fn lemma_factor_sound(input: Seq<u8>, reg: Registry)
    ensures
        sound(factor_spec(input, reg).0, input, 1),
        reg.grows_to(factor_spec(input, reg).1),
    decreases input.len(), 2int,
{
    lemma_atom_sound(input, reg);
    if atom_spec(input, reg).0 is Error {
        lemma_s_expr_sound(input, atom_spec(input, reg).1);
    }
}

/// Reading an s-expression is sound: on success what is left is a suffix
/// of the input, shorter by the two parentheses at least; a syntax error
/// lies within the input; and in every case each text that the registry
/// held is still bound to the same identifier.
pub proof fn lemma_s_expr_sound(input: Seq<u8>, reg: Registry)
    ensures
        sound(s_expr_spec(input, reg).0, input, 2),
        reg.grows_to(s_expr_spec(input, reg).1),
    decreases input.len(), 1int,
{
    lemma_list_sound(input, reg, false);
    let plain = list_spec(input, reg, false);
    if plain.0 is Error {
        lemma_list_sound(input, plain.1, true);
    }
}

/// A list takes at least its two parentheses, and keeps what the registry
/// held.
pub proof fn lemma_list_sound(input: Seq<u8>, reg: Registry, quoted: bool)
    ensures
        sound(list_spec(input, reg, quoted).0, input, 2),
        reg.grows_to(list_spec(input, reg, quoted).1),
    decreases input.len(), 0int,
{
    lemma_left_of_self(input);
    lemma_after_run_left(input, input, 0, Class::Space);
    let start = after_run(input, Class::Space);
    if tag_spec(start, open_word(quoted)) is Match {
        let width = open_word(quoted).len();
        lemma_skip_left(start, input, 0, width);
        lemma_after_run_left(start.skip(width as int), input, width, Class::Space);
        let inner = after_run(start.skip(width as int), Class::Space);
        lemma_items_sound(inner, reg);
        let body = items_spec(inner, reg);
        match body.0 {
            Lex::Done { value: items, rest } => {
                assert(left_of(rest, input, width)) by {
                    assert(rest =~= input.skip(input.len() - rest.len()));
                }
                lemma_after_run_left(rest, input, width, Class::Space);
                let end = after_run(rest, Class::Space);
                if end.len() > 0 {
                    lemma_skip_left(end, input, width, 1);
                    lemma_after_run_left(end.skip(1), input, width + 1, Class::Space);
                }
            },
            _ => {},
        }
    }
}

/// The items of a body leave a suffix of the input, and keep what the
/// registry held.
pub proof fn lemma_items_sound(input: Seq<u8>, reg: Registry)
    ensures
        sound(items_spec(input, reg).0, input, 0),
        reg.grows_to(items_spec(input, reg).1),
    decreases input.len(), 4int,
{
    lemma_left_of_self(input);
    if input.len() > 0 {
        lemma_item_sound(input, reg);
        let first = item_spec(input, reg);
        match first.0 {
            Lex::Done { value, rest } => {
                if rest.len() < input.len() {
                    lemma_items_sound(rest, first.1);
                    match items_spec(rest, first.1).0 {
                        Lex::Done { value: vs, rest: last } => {
                            assert(last =~= input.skip(input.len() - last.len()));
                        },
                        _ => {},
                    }
                }
            },
            _ => {},
        }
    }
}

/// An item takes at least one byte, and keeps what the registry held.
pub proof fn lemma_item_sound(input: Seq<u8>, reg: Registry)
    ensures
        sound(item_spec(input, reg).0, input, 1),
        reg.grows_to(item_spec(input, reg).1),
    decreases input.len(), 3int,
{
    lemma_factor_sound(input, reg);
    match factor_spec(input, reg).0 {
        Lex::Done { value, rest } => {
            lemma_after_run_left(rest, input, 1, Class::Blank);
        },
        _ => {},
    }
}

} // verus!
