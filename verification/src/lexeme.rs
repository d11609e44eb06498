//! The atoms of the reader: string literals, integers and symbols.

use crate::scan::{
    after_run, alpha, alphanumeric, digit, drop_front, lemma_run_len, lemma_run_len_is, run_len,
    scan, skip_run, tag, tag_spec, take_front, Class, Run, Tag,
};
use crate::table::{Registry, SymbolTable};
use crate::value::{Value, ValueView};
use vstd::prelude::*;
use vstd::slice::slice_to_vec;
use vstd::utf8::{
    decode_utf8, encode_utf8, encode_utf8_decode_utf8, encode_utf8_valid_utf8, is_ascii_chars,
    is_ascii_chars_encode_utf8, valid_utf8,
};

verus! {

/// What a rule of the grammar makes of an input.
pub ghost enum Lex<T> {
    /// The rule matched a prefix of the input: its value, and the input
    /// that is left.
    Done { value: T, rest: Seq<u8> },
    /// The input ended where the rule needed more.
    Incomplete,
    /// The rule does not match; `left` bytes of the input were unread where
    /// it stopped.
    Error { left: nat },
}

/// What a reading function returns: the counterpart of `Lex` at run time.
#[derive(Debug)]
pub enum Outcome<'a, T> {
    Done(T, &'a [u8]),
    Incomplete,
    Error(usize),
}

/// Whether the outcome `o` of reading a value is `l`.
pub open spec fn yields(o: Outcome<Value>, l: Lex<ValueView>) -> bool {
    match o {
        Outcome::Done(value, rest) => l == (Lex::Done { value: value@, rest: rest@ }),
        Outcome::Incomplete => l is Incomplete,
        Outcome::Error(left) => l == Lex::<ValueView>::Error { left: left as nat },
    }
}

/// Whether what `o` leaves, or leaves unread, is no longer than `n` bytes.
pub open spec fn within<T>(o: Outcome<T>, n: nat) -> bool {
    match o {
        Outcome::Done(_, rest) => rest@.len() <= n,
        Outcome::Incomplete => true,
        Outcome::Error(left) => left <= n,
    }
}

/// The double quote.
pub open spec fn quote_word() -> Seq<u8> {
    seq![0x22u8]
}

/// A string literal: a double quote, any bytes but the double quote, a
/// double quote. The bytes between the quotes must be UTF-8 and are the
/// string; nothing is escaped.
pub open spec fn string_spec(input: Seq<u8>) -> Lex<ValueView> {
    match tag_spec(input, quote_word()) {
        Tag::Mismatch => Lex::Error { left: input.len() },
        Tag::Incomplete => Lex::Incomplete,
        Tag::Match => {
            let inner = input.skip(1);
            let n = run_len(inner, Class::NotQuote) as int;
            let rest = inner.skip(n);
            if !valid_utf8(inner.take(n)) {
                Lex::Error { left: inner.len() }
            } else {
                match tag_spec(rest, quote_word()) {
                    Tag::Mismatch => Lex::Error { left: rest.len() },
                    Tag::Incomplete => Lex::Incomplete,
                    Tag::Match => Lex::Done {
                        value: ValueView::Str(decode_utf8(inner.take(n))),
                        rest: rest.skip(1),
                    },
                }
            }
        },
    }
}

/// The number that a sequence of decimal digits denotes.
pub open spec fn digits_value(digits: Seq<u8>) -> nat
    decreases digits.len(),
{
    if digits.len() == 0 {
        0
    } else {
        (digits_value(digits.drop_last()) * 10 + (digits.last() - 0x30)) as nat
    }
}

/// An integer: an optional sign, then one or more decimal digits, with
/// white space allowed before and after the digits. The digits must denote
/// a number that a 32-bit signed integer holds.
pub open spec fn integer_spec(input: Seq<u8>) -> Lex<ValueView> {
    if input.len() == 0 {
        Lex::Incomplete
    } else {
        let negative = input[0] == 0x2D;
        let unsigned = if input[0] == 0x2B || input[0] == 0x2D {
            input.skip(1)
        } else {
            input
        };
        let number = after_run(unsigned, Class::Space);
        if number.len() == 0 {
            Lex::Incomplete
        } else if !Class::Digit.has(number[0]) {
            Lex::Error { left: number.len() }
        } else {
            let n = run_len(number, Class::Digit) as int;
            let value = digits_value(number.take(n));
            if value > i32::MAX {
                Lex::Error { left: number.len() }
            } else {
                Lex::Done {
                    value: ValueView::Int(
                        if negative {
                            -value
                        } else {
                            value as int
                        },
                    ),
                    rest: after_run(number.skip(n), Class::Space),
                }
            }
        }
    }
}

/// The characters that ASCII bytes stand for.
pub open spec fn ascii_text(bytes: Seq<u8>) -> Seq<char> {
    Seq::new(bytes.len(), |i: int| bytes[i] as char)
}

/// The length of the symbol name at the front of an input that begins with
/// a letter: the letter and the longest run of `SymbolTail` after it.
pub open spec fn symbol_len(input: Seq<u8>) -> int {
    1 + run_len(input.skip(1), Class::SymbolTail) as int
}

/// A symbol: a letter, then letters, digits, `_`, `!` and `?`. Its name
/// is resolved in the registry, which grows by it if the name is new.
pub open spec fn symbol_spec(input: Seq<u8>, reg: Registry) -> (Lex<ValueView>, Registry) {
    if input.len() == 0 {
        (Lex::Incomplete, reg)
    } else if !Class::Alpha.has(input[0]) {
        (Lex::Error { left: input.len() }, reg)
    } else {
        let n = symbol_len(input);
        let resolved = reg.resolve(ascii_text(input.take(n)));
        (Lex::Done { value: ValueView::Symbol(resolved.0), rest: input.skip(n) }, resolved.1)
    }
}

/// Bytes below 128 are valid UTF-8 and decode to the characters of the
/// same numbers.
pub proof fn lemma_ascii_utf8(bytes: Seq<u8>)
    requires
        forall|i: int| 0 <= i < bytes.len() ==> #[trigger] bytes[i] < 0x80,
    ensures
        valid_utf8(bytes),
        decode_utf8(bytes) == ascii_text(bytes),
{
    let chars = ascii_text(bytes);
    assert(is_ascii_chars(chars)) by {
        assert forall|i: int| 0 <= i < chars.len() implies '\0' <= #[trigger] chars[i]
            <= '\u{7f}' by {
            assert(bytes[i] < 0x80);
        }
    }
    is_ascii_chars_encode_utf8(chars);
    assert(encode_utf8(chars) =~= bytes) by {
        assert forall|i: int| 0 <= i < bytes.len() implies encode_utf8(chars)[i] == bytes[i] by {
            assert(bytes[i] < 0x80);
            assert(chars[i] as u8 == encode_utf8(chars)[i]);
            assert((bytes[i] as char) as u8 == bytes[i]);
        }
    }
    encode_utf8_valid_utf8(chars);
    encode_utf8_decode_utf8(chars);
}

/// The digits read so far denote no more than all the digits.
pub proof fn lemma_digits_value_prefix(digits: Seq<u8>, k: int)
    requires
        0 <= k <= digits.len(),
        forall|i: int| 0 <= i < digits.len() ==> Class::Digit.has(#[trigger] digits[i]),
    ensures
        digits_value(digits.take(k)) <= digits_value(digits),
    decreases digits.len() - k,
{
    if k < digits.len() {
        lemma_digits_value_prefix(digits, k + 1);
        let longer = digits.take(k + 1);
        assert(longer.drop_last() =~= digits.take(k));
        assert(Class::Digit.has(digits[k]));
        assert(longer.last() == digits[k]);
    } else {
        assert(digits.take(k) =~= digits);
    }
}

/// `String::from_utf8`: the string that the bytes encode, if they are
/// valid UTF-8, and nothing otherwise.
#[verifier::external_body]
pub(crate) fn text_of(bytes: Vec<u8>) -> (r: Option<String>)
    ensures
        r is Some <==> valid_utf8(bytes@),
        r matches Some(s) ==> s@ == decode_utf8(bytes@),
{
    match String::from_utf8(bytes) {
        Ok(s) => Some(s),
        Err(_) => None,
    }
}

/// Reads a string literal at the front of `input`.
pub fn string<'a>(input: &'a [u8]) -> (o: Outcome<'a, Value>)
    ensures
        yields(o, string_spec(input@)),
        within(o, input@.len()),
{
    let quote: [u8; 1] = [0x22];
    assert(quote@ =~= quote_word());
    match tag(input, &quote) {
        Tag::Mismatch => Outcome::Error(input.len()),
        Tag::Incomplete => Outcome::Incomplete,
        Tag::Match => {
            let inner = drop_front(input, 1);
            let n = scan(inner, Class::NotQuote);
            let rest = drop_front(inner, n);
            match text_of(slice_to_vec(take_front(inner, n))) {
                None => Outcome::Error(inner.len()),
                Some(text) => match tag(rest, &quote) {
                    Tag::Mismatch => Outcome::Error(rest.len()),
                    Tag::Incomplete => Outcome::Incomplete,
                    Tag::Match => Outcome::Done(Value::TString(text), drop_front(rest, 1)),
                },
            }
        },
    }
}

/// The number that `digits` denote, if it is at most `i32::MAX`.
fn number(digits: &[u8]) -> (r: Option<i32>)
    requires
        forall|i: int| 0 <= i < digits@.len() ==> Class::Digit.has(#[trigger] digits@[i]),
    ensures
        match r {
            Some(v) => v == digits_value(digits@),
            None => digits_value(digits@) > i32::MAX,
        },
{
    let mut acc: i64 = 0;
    let mut i: usize = 0;
    assert(digits@.take(0).len() == 0);
    while i < digits.len()
        invariant
            i <= digits@.len(),
            acc == digits_value(digits@.take(i as int)),
            0 <= acc <= i32::MAX,
            forall|j: int| 0 <= j < digits@.len() ==> Class::Digit.has(#[trigger] digits@[j]),
        decreases digits@.len() - i,
    {
        assert(Class::Digit.has(digits@[i as int]));
        let d: i64 = (digits[i] - 0x30) as i64;
        proof {
            let longer = digits@.take(i + 1);
            assert(longer.drop_last() =~= digits@.take(i as int));
            assert(longer.last() == digits@[i as int]);
        }
        acc = acc * 10 + d;
        i = i + 1;
        if acc > 0x7FFF_FFFF {
            proof {
                lemma_digits_value_prefix(digits@, i as int);
            }
            return None;
        }
    }
    assert(digits@.take(i as int) =~= digits@);
    Some(acc as i32)
}

/// Reads an integer at the front of `input`.
pub fn integer<'a>(input: &'a [u8]) -> (o: Outcome<'a, Value>)
    ensures
        yields(o, integer_spec(input@)),
        within(o, input@.len()),
{
    if input.len() == 0 {
        return Outcome::Incomplete;
    }
    let negative = input[0] == 0x2D;
    let unsigned = if input[0] == 0x2B || input[0] == 0x2D {
        drop_front(input, 1)
    } else {
        input
    };
    let number_part = skip_run(unsigned, Class::Space);
    match digit(number_part) {
        Run::Incomplete => Outcome::Incomplete,
        Run::Error => Outcome::Error(number_part.len()),
        Run::Done { taken, rest } => {
            proof {
                lemma_run_len(number_part@, Class::Digit);
            }
            match number(taken) {
                None => Outcome::Error(number_part.len()),
                Some(v) => {
                    let value = if negative {
                        -v
                    } else {
                        v
                    };
                    Outcome::Done(Value::TInt(value), skip_run(rest, Class::Space))
                },
            }
        },
    }
}

/// Reads a symbol at the front of `input` and resolves its name in
/// `table`.
pub fn symbol<'a>(input: &'a [u8], table: &mut SymbolTable) -> (o: Outcome<'a, Value>)
    requires
        old(table).wf(),
    ensures
        final(table).wf(),
        yields(o, symbol_spec(input@, old(table)@).0),
        within(o, input@.len()),
        final(table)@ == symbol_spec(input@, old(table)@).1,
{
    match alpha(input) {
        Run::Incomplete => Outcome::Incomplete,
        Run::Error => Outcome::Error(input.len()),
        Run::Done { taken, rest } => {
            proof {
                lemma_run_len(input@, Class::Alpha);
            }
            assert(input@.len() == input.len());
            let mut k: usize = taken.len();
            let mut rest = rest;
            loop
                invariant
                    input@.len() <= usize::MAX,
                    1 <= k <= input@.len(),
                    rest@ == input@.skip(k as int),
                    forall|i: int| 1 <= i < k ==> Class::SymbolTail.has(#[trigger] input@[i]),
                ensures
                    1 <= k <= input@.len(),
                    rest@ == input@.skip(k as int),
                    forall|i: int| 1 <= i < k ==> Class::SymbolTail.has(#[trigger] input@[i]),
                    k < input@.len() ==> !Class::SymbolTail.has(input@[k as int]),
                decreases input@.len() - k,
            {
                if rest.len() == 0 {
                    break ;
                }
                match alphanumeric(rest) {
                    Run::Done { taken: more, rest: after } => {
                        proof {
                            lemma_run_len(rest@, Class::Alnum);
                            let n = run_len(rest@, Class::Alnum) as int;
                            assert forall|i: int| 1 <= i < k + n implies Class::SymbolTail.has(
                                #[trigger] input@[i],
                            ) by {
                                if i >= k {
                                    assert(input@[i] == rest@[i - k]);
                                    assert(Class::Alnum.has(rest@[i - k]));
                                }
                            }
                            assert(after@ =~= input@.skip(k + n));
                            assert(more@.len() == n);
                            assert(rest@.len() == input@.len() - k);
                        }
                        k = k + more.len();
                        rest = after;
                    },
                    _ => {
                        let b = rest[0];
                        assert(b == input@[k as int]);
                        assert(rest@.len() == input@.len() - k);
                        if b == 0x5F || b == 0x21 || b == 0x3F {
                            rest = drop_front(rest, 1);
                            assert(rest@ =~= input@.skip(k + 1));
                            k = k + 1;
                        } else {
                            break ;
                        }
                    },
                }
            }
            let name = take_front(input, k);
            proof {
                let tail = input@.skip(1);
                assert forall|i: int| 0 <= i < k - 1 implies Class::SymbolTail.has(
                    #[trigger] tail[i],
                ) by {
                    assert(tail[i] == input@[i + 1]);
                }
                if k - 1 < tail.len() {
                    assert(tail[k - 1] == input@[k as int]);
                }
                lemma_run_len_is(tail, Class::SymbolTail, k - 1);
                assert forall|i: int| 0 <= i < name@.len() implies #[trigger] name@[i] < 0x80 by {
                    if i >= 1 {
                        assert(Class::SymbolTail.has(input@[i]));
                    }
                }
                lemma_ascii_utf8(name@);
            }
            match text_of(slice_to_vec(name)) {
                Some(text) => {
                    let id = table.resolve_or_insert(text.as_str());
                    Outcome::Done(Value::TSymbol(id), rest)
                },
                None => Outcome::Error(input.len()),
            }
        },
    }
}

} // verus!
