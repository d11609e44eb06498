//! The value model: atoms and cons cells.

use crate::symbol::SymbolType;
use vstd::prelude::*;

verus! {

/// The integers of the language.
pub type IntegerType = i32;

/// A runtime value. A pair owns its two parts; lists are chains of pairs
/// that end in `TNil`.
///
/// A single- or double-precision number is held as its decimal literal: the
/// library shows such a number and compares it, and never computes with it.
#[derive(PartialEq, Debug)]
pub enum Value {
    TInt(IntegerType),
    TString(String),
    TFloat(String),
    TDouble(String),
    TSymbol(SymbolType),
    TCons(Box<Value>, Box<Value>),
    TBoolT,
    TNil,
}

/// The mathematical content of a `Value`.
pub ghost enum ValueView {
    Int(int),
    Str(Seq<char>),
    Float(Seq<char>),
    Double(Seq<char>),
    Symbol(SymbolType),
    Cons(Box<ValueView>, Box<ValueView>),
    True,
    Nil,
}

impl ValueView {
    /// The pair of `head` and `tail`.
    pub open spec fn cons(head: ValueView, tail: ValueView) -> ValueView {
        ValueView::Cons(Box::new(head), Box::new(tail))
    }

    /// The first part of a pair.
    pub open spec fn head(self) -> Option<ValueView> {
        match self {
            ValueView::Cons(h, _) => Some(*h),
            _ => None,
        }
    }

    /// The second part of a pair.
    pub open spec fn tail(self) -> Option<ValueView> {
        match self {
            ValueView::Cons(_, t) => Some(*t),
            _ => None,
        }
    }

    /// The proper list of `items`, in order, ending in `Nil`.
    pub open spec fn list_of(items: Seq<ValueView>) -> ValueView
        decreases items.len(),
    {
        if items.len() == 0 {
            ValueView::Nil
        } else {
            ValueView::cons(items[0], ValueView::list_of(items.skip(1)))
        }
    }

    /// Whether this is a proper list: a chain of pairs that ends in `Nil`.
    pub open spec fn is_list(self) -> bool
        decreases self,
    {
        match self {
            ValueView::Nil => true,
            ValueView::Cons(_, t) => t.is_list(),
            _ => false,
        }
    }

    /// The heads met on the walk along the tails, up to the first value
    /// that is no pair.
    pub open spec fn items(self) -> Seq<ValueView>
        decreases self,
    {
        match self {
            ValueView::Cons(h, t) => seq![*h] + t.items(),
            _ => Seq::empty(),
        }
    }

    /// What is left after taking the tail `n` times; a value that is no
    /// pair is left as it is.
    pub open spec fn nth_tail(self, n: nat) -> ValueView
        decreases n,
    {
        if n == 0 {
            self
        } else {
            match self {
                ValueView::Cons(_, t) => t.nth_tail((n - 1) as nat),
                _ => self,
            }
        }
    }
}

impl Value {
    /// The mathematical content of this value.
    pub open spec fn model(&self) -> ValueView
        decreases self,
    {
        match self {
            Value::TInt(i) => ValueView::Int(*i as int),
            Value::TString(s) => ValueView::Str(s@),
            Value::TFloat(s) => ValueView::Float(s@),
            Value::TDouble(s) => ValueView::Double(s@),
            Value::TSymbol(s) => ValueView::Symbol(*s),
            Value::TCons(h, t) => ValueView::cons(h.model(), t.model()),
            Value::TBoolT => ValueView::True,
            Value::TNil => ValueView::Nil,
        }
    }
}

impl View for Value {
    type V = ValueView;

    open spec fn view(&self) -> ValueView {
        self.model()
    }
}

/// The views of a sequence of values.
pub open spec fn views(items: Seq<Value>) -> Seq<ValueView> {
    Seq::new(items.len(), |i: int| items[i]@)
}

impl Clone for Value {
    /// A deep copy.
    fn clone(&self) -> (r: Value)
        ensures
            r == *self,
        decreases self,
    {
        match self {
            Value::TInt(i) => Value::TInt(*i),
            Value::TString(s) => Value::TString(s.clone()),
            Value::TFloat(s) => Value::TFloat(s.clone()),
            Value::TDouble(s) => Value::TDouble(s.clone()),
            Value::TSymbol(s) => Value::TSymbol(*s),
            Value::TCons(h, t) => {
                let head = (&**h).clone();
                let tail = (&**t).clone();
                Value::TCons(Box::new(head), Box::new(tail))
            },
            Value::TBoolT => Value::TBoolT,
            Value::TNil => Value::TNil,
        }
    }
}

impl Value {
    /// The first part of a pair; `None` for any other value.
    pub fn car(&self) -> (r: Option<&Value>)
        ensures
            match r {
                Some(h) => self@.head() == Some(h@),
                None => self@.head() is None,
            },
    {
        match self {
            Value::TCons(car, _) => Some(&**car),
            _ => None,
        }
    }

    /// The second part of a pair; `None` for any other value.
    pub fn cdr(&self) -> (r: Option<&Value>)
        ensures
            match r {
                Some(t) => self@.tail() == Some(t@),
                None => self@.tail() is None,
            },
    {
        match self {
            Value::TCons(_, cdr) => Some(&**cdr),
            _ => None,
        }
    }

    /// The proper list of the values of `iter`, in their order; `TNil` for
    /// an empty `iter`.
    pub fn from_iter(iter: &Vec<Value>) -> (r: Value)
        ensures
            r@ == ValueView::list_of(views(iter@)),
    {
        let mut res = Value::TNil;
        let mut i: usize = iter.len();
        proof {
            assert(views(iter@).skip(i as int) =~= Seq::<ValueView>::empty());
        }
        while i > 0
            invariant
                i <= iter.len(),
                res@ == ValueView::list_of(views(iter@).skip(i as int)),
            decreases i,
        {
            i = i - 1;
            let item = iter[i].clone();
            proof {
                let all = views(iter@);
                assert(all.skip(i as int).skip(1) =~= all.skip(i + 1));
                assert(all.skip(i as int)[0] == item@);
            }
            res = Value::TCons(Box::new(item), Box::new(res));
        }
        proof {
            assert(views(iter@).skip(0) =~= views(iter@));
        }
        res
    }
}

/// Building a list and walking it gives the same values back: the list of
/// `items` is proper, its heads are `items` in order, and after
/// `items.len()` tails `Nil` is left.
pub proof fn lemma_list_round_trip(items: Seq<ValueView>)
    ensures
        ValueView::list_of(items).is_list(),
        ValueView::list_of(items).items() == items,
        ValueView::list_of(items).nth_tail(items.len()) == ValueView::Nil,
        forall|k: nat|
            k < items.len() ==> (#[trigger] ValueView::list_of(items).nth_tail(k)).head() == Some(
                items[k as int],
            ),
        items.len() == 0 ==> ValueView::list_of(items) == ValueView::Nil,
    decreases items.len(),
{
    if items.len() > 0 {
        let rest = items.skip(1);
        lemma_list_round_trip(rest);
        let list = ValueView::list_of(items);
        assert(list.items() =~= items);
        assert(list.nth_tail(items.len()) == ValueView::list_of(rest).nth_tail(rest.len()));
        assert forall|k: nat| k < items.len() implies (#[trigger] list.nth_tail(k)).head() == Some(
            items[k as int],
        ) by {
            if k > 0 {
                let j = (k - 1) as nat;
                assert(list.nth_tail(k) == ValueView::list_of(rest).nth_tail(j));
                assert(rest[j as int] == items[k as int]);
            }
        }
    }
}

} // verus!
