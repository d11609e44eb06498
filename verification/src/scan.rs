//! The lexical layer of the reader: classes of bytes, runs of a class at the
//! front of the input, and fixed words.

use vstd::prelude::*;
use vstd::slice::slice_subrange;

verus! {

/// A class of bytes.
#[derive(Clone, Copy, PartialEq, Eq, Debug, Structural)]
pub enum Class {
    /// `0` to `9`.
    Digit,
    /// `A` to `Z` and `a` to `z`.
    Alpha,
    /// `Alpha` or `Digit`.
    Alnum,
    /// Space, tab, carriage return, line feed.
    Space,
    /// The space alone.
    Blank,
    /// Every byte but the double quote.
    NotQuote,
    /// What may follow the first letter of a symbol: `Alnum`, `_`, `!`, `?`.
    SymbolTail,
}

impl Class {
    /// Whether `b` belongs to the class.
    pub open spec fn has(self, b: u8) -> bool {
        match self {
            Class::Digit => 0x30 <= b <= 0x39,
            Class::Alpha => (0x41 <= b <= 0x5A) || (0x61 <= b <= 0x7A),
            Class::Alnum => (0x41 <= b <= 0x5A) || (0x61 <= b <= 0x7A) || (0x30 <= b <= 0x39),
            Class::Space => b == 0x20 || b == 0x09 || b == 0x0D || b == 0x0A,
            Class::Blank => b == 0x20,
            Class::NotQuote => b != 0x22,
            Class::SymbolTail => (0x41 <= b <= 0x5A) || (0x61 <= b <= 0x7A) || (0x30 <= b <= 0x39)
                || b == 0x5F || b == 0x21 || b == 0x3F,
        }
    }

    /// Computes `has`.
    pub fn holds(self, b: u8) -> (r: bool)
        ensures
            r == self.has(b),
    {
        match self {
            Class::Digit => 0x30 <= b && b <= 0x39,
            Class::Alpha => (0x41 <= b && b <= 0x5A) || (0x61 <= b && b <= 0x7A),
            Class::Alnum => (0x41 <= b && b <= 0x5A) || (0x61 <= b && b <= 0x7A) || (0x30 <= b
                && b <= 0x39),
            Class::Space => b == 0x20 || b == 0x09 || b == 0x0D || b == 0x0A,
            Class::Blank => b == 0x20,
            Class::NotQuote => is_not_double_quote(b),
            Class::SymbolTail => (0x41 <= b && b <= 0x5A) || (0x61 <= b && b <= 0x7A) || (0x30
                <= b && b <= 0x39) || b == 0x5F || b == 0x21 || b == 0x3F,
        }
    }
}

/// Whether `chr` may stand inside a string literal: it is no double quote.
pub fn is_not_double_quote(chr: u8) -> (r: bool)
    ensures
        r == Class::NotQuote.has(chr),
{
    chr != 0x22
}

/// The length of the longest prefix of `input` whose bytes are all in
/// `class`.
pub open spec fn run_len(input: Seq<u8>, class: Class) -> nat
    decreases input.len(),
{
    if input.len() > 0 && class.has(input[0]) {
        1 + run_len(input.skip(1), class)
    } else {
        0
    }
}

/// `input` without its longest prefix in `class`.
pub open spec fn after_run(input: Seq<u8>, class: Class) -> Seq<u8> {
    input.skip(run_len(input, class) as int)
}

/// A run lies within the input, holds only bytes of the class, and ends at
/// the end of the input or before a byte that is not in the class.
pub proof fn lemma_run_len(input: Seq<u8>, class: Class)
    ensures
        run_len(input, class) <= input.len(),
        forall|i: int| 0 <= i < run_len(input, class) ==> class.has(#[trigger] input[i]),
        run_len(input, class) < input.len() ==> !class.has(input[run_len(input, class) as int]),
        after_run(input, class).len() == input.len() - run_len(input, class),
    decreases input.len(),
{
    if input.len() > 0 && class.has(input[0]) {
        let rest = input.skip(1);
        lemma_run_len(rest, class);
        assert forall|i: int| 0 <= i < run_len(input, class) implies class.has(
            #[trigger] input[i],
        ) by {
            if i > 0 {
                assert(input[i] == rest[i - 1]);
            }
        }
        if run_len(input, class) < input.len() {
            assert(input[run_len(input, class) as int] == rest[run_len(rest, class) as int]);
        }
    }
}

/// The run is the only prefix with the properties of `lemma_run_len`.
pub proof fn lemma_run_len_is(input: Seq<u8>, class: Class, n: int)
    requires
        0 <= n <= input.len(),
        forall|i: int| 0 <= i < n ==> class.has(#[trigger] input[i]),
        n < input.len() ==> !class.has(input[n]),
    ensures
        run_len(input, class) == n,
    decreases n,
{
    if n > 0 {
        let rest = input.skip(1);
        assert forall|i: int| 0 <= i < n - 1 implies class.has(#[trigger] rest[i]) by {
            assert(rest[i] == input[i + 1]);
        }
        if n - 1 < rest.len() {
            assert(rest[n - 1] == input[n]);
        }
        lemma_run_len_is(rest, class, n - 1);
    }
}

/// `input` without its first `n` bytes.
pub fn drop_front<'a>(input: &'a [u8], n: usize) -> (rest: &'a [u8])
    requires
        n <= input@.len(),
    ensures
        rest@ == input@.skip(n as int),
{
    let rest = slice_subrange(input, n, input.len());
    assert(rest@ =~= input@.skip(n as int));
    rest
}

/// The first `n` bytes of `input`.
pub fn take_front<'a>(input: &'a [u8], n: usize) -> (head: &'a [u8])
    requires
        n <= input@.len(),
    ensures
        head@ == input@.take(n as int),
{
    let head = slice_subrange(input, 0, n);
    assert(head@ =~= input@.take(n as int));
    head
}

/// The length of the longest prefix of `input` in `class`.
pub fn scan(input: &[u8], class: Class) -> (n: usize)
    ensures
        n == run_len(input@, class),
        n <= input@.len(),
{
    let mut n: usize = 0;
    while n < input.len() && class.holds(input[n])
        invariant
            n <= input@.len(),
            forall|i: int| 0 <= i < n ==> class.has(#[trigger] input@[i]),
        decreases input@.len() - n,
    {
        n = n + 1;
    }
    proof {
        lemma_run_len_is(input@, class, n as int);
    }
    n
}

/// `input` without its longest prefix in `class`.
pub fn skip_run<'a>(input: &'a [u8], class: Class) -> (rest: &'a [u8])
    ensures
        rest@ == after_run(input@, class),
        rest@.len() <= input@.len(),
{
    let n = scan(input, class);
    drop_front(input, n)
}

/// How the front of the input compares with a fixed word.
#[derive(Clone, Copy, PartialEq, Eq, Debug, Structural)]
pub enum Tag {
    /// The input begins with the word.
    Match,
    /// The input ends inside the word: it is a proper prefix of it.
    Incomplete,
    /// The input differs from the word at some byte.
    Mismatch,
}

/// Compares the front of `input` with `word`.
pub open spec fn tag_spec(input: Seq<u8>, word: Seq<u8>) -> Tag {
    let m = if input.len() < word.len() {
        input.len()
    } else {
        word.len()
    };
    if input.take(m as int) != word.take(m as int) {
        Tag::Mismatch
    } else if m < word.len() {
        Tag::Incomplete
    } else {
        Tag::Match
    }
}

/// Compares the front of `input` with `word`.
pub fn tag<const N: usize>(input: &[u8], word: &[u8; N]) -> (r: Tag)
    ensures
        r == tag_spec(input@, word@),
{
    let m: usize = if input.len() < N {
        input.len()
    } else {
        N
    };
    let mut i: usize = 0;
    while i < m
        invariant
            i <= m,
            m <= input@.len(),
            m <= N,
            word@.len() == N,
            forall|j: int| 0 <= j < i ==> input@[j] == word@[j],
        decreases m - i,
    {
        if input[i] != word[i] {
            proof {
                assert(input@.take(m as int)[i as int] != word@.take(m as int)[i as int]);
            }
            return Tag::Mismatch;
        }
        i = i + 1;
    }
    assert(input@.take(m as int) =~= word@.take(m as int));
    if m < N {
        Tag::Incomplete
    } else {
        Tag::Match
    }
}

/// What a recognizer of one class found at the front of the input.
#[derive(Clone, Copy, Debug)]
pub enum Run<'a> {
    /// A run of at least one byte, and what follows it.
    Done { taken: &'a [u8], rest: &'a [u8] },
    /// The input is empty.
    Incomplete,
    /// The first byte is not in the class.
    Error,
}

/// Whether `r` is the answer of a recognizer of `class` on `input`: the
/// longest run of the class, which must not be empty.
pub open spec fn recognized(input: Seq<u8>, class: Class, r: Run) -> bool {
    match r {
        Run::Incomplete => input.len() == 0,
        Run::Error => input.len() > 0 && !class.has(input[0]),
        Run::Done { taken, rest } => {
            &&& input.len() > 0
            &&& class.has(input[0])
            &&& taken@ == input.take(run_len(input, class) as int)
            &&& rest@ == after_run(input, class)
        },
    }
}

/// `nom::digit`: on an empty input it asks for more; on an input whose
/// first byte is no ASCII digit it fails; otherwise it splits the input
/// after its longest prefix of ASCII digits.
#[verifier::external_body]
pub(crate) fn digit<'a>(input: &'a [u8]) -> (r: Run<'a>)
    ensures
        recognized(input@, Class::Digit, r),
{
    match nom::digit(input) {
        nom::IResult::Done(rest, taken) => Run::Done { taken, rest },
        nom::IResult::Incomplete(_) => Run::Incomplete,
        nom::IResult::Error(_) => Run::Error,
    }
}

/// `nom::alpha`: on an empty input it asks for more; on an input whose
/// first byte is no ASCII letter it fails; otherwise it splits the input
/// after its longest prefix of ASCII letters.
#[verifier::external_body]
pub(crate) fn alpha<'a>(input: &'a [u8]) -> (r: Run<'a>)
    ensures
        recognized(input@, Class::Alpha, r),
{
    match nom::alpha(input) {
        nom::IResult::Done(rest, taken) => Run::Done { taken, rest },
        nom::IResult::Incomplete(_) => Run::Incomplete,
        nom::IResult::Error(_) => Run::Error,
    }
}

/// `nom::alphanumeric`: on an empty input it asks for more; on an input
/// whose first byte is no ASCII letter or digit it fails; otherwise it
/// splits the input after its longest prefix of ASCII letters and digits.
#[verifier::external_body]
pub(crate) fn alphanumeric<'a>(input: &'a [u8]) -> (r: Run<'a>)
    ensures
        recognized(input@, Class::Alnum, r),
{
    match nom::alphanumeric(input) {
        nom::IResult::Done(rest, taken) => Run::Done { taken, rest },
        nom::IResult::Incomplete(_) => Run::Incomplete,
        nom::IResult::Error(_) => Run::Error,
    }
}

} // verus!
