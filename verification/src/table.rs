//! The symbol table: the registry that gives every symbol text one identifier.

use crate::dual_map::DualMap;
use crate::symbol::SymbolType;
use vstd::prelude::*;

verus! {

/// What a symbol table holds: the identifier of every registered text and
/// the text of every registered identifier.
pub ghost struct Registry {
    pub forward: Map<Seq<char>, SymbolType>,
    pub backward: Map<SymbolType, Seq<char>>,
}

impl Registry {
    /// The two maps are inverse to each other, and every `Others(n)` that is
    /// registered has `n` below the number of entries, so the next index is
    /// fresh.
    pub open spec fn wf(self) -> bool {
        &&& self.forward.dom().finite()
        &&& self.forward.len() <= u64::MAX
        &&& self.inverse()
        &&& forall|n: u64| #[trigger]
            self.backward.contains_key(SymbolType::Others(n)) ==> n < self.forward.len()
    }

    /// The two maps are inverse to each other: a text is bound to an
    /// identifier exactly when the identifier is bound to the text.
    pub open spec fn inverse(self) -> bool {
        &&& forall|t: Seq<char>| #[trigger]
            self.forward.contains_key(t) ==> self.backward.contains_key(self.forward[t])
                && self.backward[self.forward[t]] == t
        &&& forall|s: SymbolType| #[trigger]
            self.backward.contains_key(s) ==> self.forward.contains_key(self.backward[s])
                && self.forward[self.backward[s]] == s
    }

    /// The registry of a new table: the three aliases that the reader knows.
    pub open spec fn initial() -> Registry {
        Registry {
            forward: Map::<Seq<char>, SymbolType>::empty().insert("car"@, SymbolType::Car).insert(
                "cdr"@,
                SymbolType::Cdr,
            ).insert("quote"@, SymbolType::Quote),
            backward: Map::<SymbolType, Seq<char>>::empty().insert(SymbolType::Car, "car"@).insert(
                SymbolType::Cdr,
                "cdr"@,
            ).insert(SymbolType::Quote, "quote"@),
        }
    }

    /// The identifier that a fresh text gets: `Others` of the entry count.
    pub open spec fn next_id(self) -> SymbolType {
        SymbolType::Others(self.forward.len() as u64)
    }

    /// The registry with `text` bound to `id`, both ways.
    pub open spec fn bind(self, text: Seq<char>, id: SymbolType) -> Registry {
        Registry { forward: self.forward.insert(text, id), backward: self.backward.insert(id, text) }
    }

    /// Looks `text` up and registers it under the next identifier if it is
    /// new: the identifier, and the registry afterwards.
    pub open spec fn resolve(self, text: Seq<char>) -> (SymbolType, Registry) {
        if self.forward.contains_key(text) {
            (self.forward[text], self)
        } else {
            (self.next_id(), self.bind(text, self.next_id()))
        }
    }

    /// Every text of `self` is registered in `later` under the same
    /// identifier: `later` is `self` after some further resolutions.
    pub open spec fn grows_to(self, later: Registry) -> bool {
        forall|t: Seq<char>| #[trigger]
            self.forward.contains_key(t) ==> later.forward.contains_key(t) && later.forward[t]
                == self.forward[t]
    }

    /// The text an identifier is shown as: its own fixed text for a
    /// well-known identifier, whatever text was registered for it; the
    /// registered text for an `Others`; nothing for an `Others` that was
    /// never registered.
    pub open spec fn display_name(self, id: SymbolType) -> Option<Seq<char>> {
        if id.is_well_known() {
            Some(id.fixed_text())
        } else if self.backward.contains_key(id) {
            Some(self.backward[id])
        } else {
            None
        }
    }
}

/// An identifier that has no registered text.
#[derive(Clone, Copy, PartialEq, Eq, Debug, Structural)]
pub struct SymbolLookupError {
    pub id: SymbolType,
}

/// A symbol table. It only grows.
pub struct SymbolTable {
    map: DualMap,
}

impl View for SymbolTable {
    type V = Registry;

    closed spec fn view(&self) -> Registry {
        Registry { forward: self.map.forward_map(), backward: self.map.backward_map() }
    }
}

impl SymbolTable {
    /// The invariant of a table: its registry is well formed.
    pub open spec fn wf(&self) -> bool {
        self@.wf()
    }

    /// A table that holds `car`, `cdr` and `quote`, bound to their
    /// well-known identifiers.
    pub fn new() -> (t: SymbolTable)
        ensures
            t.wf(),
            t@ == Registry::initial(),
    {
        let mut map = DualMap::new();
        map.insert("car".to_owned(), SymbolType::Car);
        map.insert("cdr".to_owned(), SymbolType::Cdr);
        map.insert("quote".to_owned(), SymbolType::Quote);
        let t = SymbolTable { map };
        proof {
            lemma_initial_wf();
        }
        t
    }

    /// The number of registered texts.
    pub fn len(&self) -> (n: usize)
        ensures
            n == self@.forward.len(),
    {
        self.map.len()
    }

    /// The identifier of `text`: the one it already has, or else a fresh
    /// `Others(n)`, `n` being the number of entries so far, which is then
    /// registered.
    pub fn resolve_or_insert(&mut self, text: &str) -> (id: SymbolType)
        requires
            old(self).wf(),
        ensures
            final(self).wf(),
            id == old(self)@.resolve(text@).0,
            final(self)@ == old(self)@.resolve(text@).1,
    {
        match self.map.forward(text) {
            Some(id) => id,
            None => {
                let n = self.map.len();
                let id = SymbolType::Others(n as u64);
                self.map.insert(text.to_owned(), id);
                let m = self.map.len();
                proof {
                    lemma_resolve_wf(old(self)@, text@);
                }
                id
            },
        }
    }

    /// The text that `id` is shown as, or an error if `id` is an `Others`
    /// that this table never gave out.
    pub fn display_name(&self, id: &SymbolType) -> (r: Result<String, SymbolLookupError>)
        ensures
            match r {
                Ok(s) => self@.display_name(*id) == Some(s@),
                Err(e) => self@.display_name(*id) is None && e.id == *id,
            },
    {
        match *id {
            SymbolType::Others(_) => match self.map.backward(id) {
                Some(text) => Ok(text.clone()),
                None => Err(SymbolLookupError { id: *id }),
            },
            _ => Ok(id.to_string().to_owned()),
        }
    }
}

/// The registry of a new table is well formed and has three entries.
pub proof fn lemma_initial_wf()
    ensures
        Registry::initial().wf(),
        Registry::initial().forward.len() == 3,
{
    reveal_strlit("car");
    reveal_strlit("cdr");
    reveal_strlit("quote");
    let r = Registry::initial();
    assert("car"@ != "cdr"@) by {
        assert("car"@[1] != "cdr"@[1]);
    }
    assert("car"@.len() != "quote"@.len());
    assert("cdr"@.len() != "quote"@.len());
    assert(r.forward.dom() =~= set!["car"@, "cdr"@, "quote"@]);
    assert(r.forward.len() == 3);
}

/// Binding a text that is new to an identifier that is new keeps the two
/// maps inverse to each other, adds one entry, and leaves no identifier
/// shared by two texts.
pub proof fn lemma_bind_fresh(r: Registry, text: Seq<char>, id: SymbolType)
    requires
        r.inverse(),
        r.forward.dom().finite(),
        !r.forward.contains_key(text),
        !r.backward.contains_key(id),
    ensures
        r.bind(text, id).inverse(),
        r.bind(text, id).forward.dom().finite(),
        r.bind(text, id).forward.len() == r.forward.len() + 1,
        forall|a: Seq<char>, b: Seq<char>|
            #![trigger r.bind(text, id).forward[a], r.bind(text, id).forward[b]]
            r.bind(text, id).forward.contains_key(a) && r.bind(text, id).forward.contains_key(b)
                && r.bind(text, id).forward[a] == r.bind(text, id).forward[b] ==> a == b,
{
    let q = r.bind(text, id);
    assert forall|s: SymbolType| #[trigger] q.backward.contains_key(s) implies q.forward.contains_key(
        q.backward[s],
    ) && q.forward[q.backward[s]] == s by {
        if s != id {
            assert(r.backward.contains_key(s));
        }
    }
    assert forall|t: Seq<char>| #[trigger] q.forward.contains_key(t) implies q.backward.contains_key(
        q.forward[t],
    ) && q.backward[q.forward[t]] == t by {
        if t != text {
            assert(r.forward.contains_key(t));
        }
    }
    assert forall|a: Seq<char>, b: Seq<char>|
        q.forward.contains_key(a) && q.forward.contains_key(b) && q.forward[a]
            == q.forward[b] implies a == b by {
        assert(q.backward[q.forward[a]] == a);
        assert(q.backward[q.forward[b]] == b);
    }
}

/// Resolving a text keeps a registry well formed, as long as the entry
/// count still fits the identifier's index.
pub proof fn lemma_resolve_wf(r: Registry, text: Seq<char>)
    requires
        r.wf(),
        r.forward.contains_key(text) || r.forward.len() < u64::MAX,
    ensures
        r.resolve(text).1.wf(),
        r.resolve(text).1.forward.contains_key(text),
        r.resolve(text).1.forward[text] == r.resolve(text).0,
        forall|t: Seq<char>| #[trigger]
            r.forward.contains_key(t) ==> r.resolve(text).1.forward.contains_key(t)
                && r.resolve(text).1.forward[t] == r.forward[t],
{
    if !r.forward.contains_key(text) {
        assert(!r.backward.contains_key(r.next_id()));
        lemma_bind_fresh(r, text, r.next_id());
    }
}

/// A registry only grows: resolving keeps every earlier binding.
pub proof fn lemma_resolve_grows(r: Registry, text: Seq<char>)
    ensures
        r.grows_to(r.resolve(text).1),
{
}

/// Resolving the same text again, at any later state of the table, gives
/// the identifier it was first given; resolving a different text never
/// gives that identifier.
pub proof fn lemma_symbol_canonical(r: Registry, later: Registry, a: Seq<char>, b: Seq<char>)
    requires
        r.wf(),
        r.forward.contains_key(a) || r.forward.len() < u64::MAX,
        later.wf(),
        r.resolve(a).1.grows_to(later),
    ensures
        later.resolve(a).0 == r.resolve(a).0,
        (later.resolve(b).0 == r.resolve(a).0) <==> a == b,
{
    lemma_resolve_wf(r, a);
    let id = r.resolve(a).0;
    assert(r.resolve(a).1.forward.contains_key(a));
    assert(later.forward.contains_key(a) && later.forward[a] == id);
    assert(later.backward.contains_key(id) && later.backward[id] == a);
    if a != b {
        if later.forward.contains_key(b) {
            assert(later.backward[later.forward[b]] == b);
        }
    }
}

/// Two resolutions in a row give the same identifier exactly when the two
/// texts are the same.
pub proof fn lemma_resolve_twice(r: Registry, a: Seq<char>, b: Seq<char>)
    requires
        r.wf(),
        r.forward.contains_key(a) || r.forward.len() < u64::MAX,
    ensures
        (r.resolve(a).1.resolve(b).0 == r.resolve(a).0) <==> a == b,
{
    lemma_resolve_wf(r, a);
    lemma_symbol_canonical(r, r.resolve(a).1, a, b);
}

} // verus!
