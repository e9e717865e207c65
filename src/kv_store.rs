//! A key-value store run as an actor: `set` is a tell, `query` an ask.
use vstd::prelude::*;

use crate::runtime::{Handle, Handler};

verus! {

/// A map from text keys to text values.
pub struct KeyValueStore {
    entries: Vec<(String, String)>,
    self_actor: Option<Handle>,
    errors: Vec<String>,
}

/// The calls of a [`KeyValueStore`] actor.
#[derive(Debug)]
pub enum KeyValueStoreMessage {
    Query { key: String },
    SetValue { key: String, value: String },
}

/// The replies of a [`KeyValueStore`] actor.
#[derive(Debug)]
pub enum KeyValueStoreReply {
    Value(Option<String>),
    Stored,
}

/// The entries as pairs of texts.
pub open spec fn pairs_view(s: Seq<(String, String)>) -> Seq<(Seq<char>, Seq<char>)> {
    s.map_values(|e: (String, String)| (e.0@, e.1@))
}

/// The value of the first entry under `k`.
pub open spec fn lookup(s: Seq<(Seq<char>, Seq<char>)>, k: Seq<char>) -> Option<Seq<char>>
    decreases s.len(),
{
    if s.len() == 0 {
        None
    } else if s[0].0 == k {
        Some(s[0].1)
    } else {
        lookup(s.drop_first(), k)
    }
}

proof fn lemma_lookup_update(s: Seq<(Seq<char>, Seq<char>)>, i: int, v: Seq<char>, q: Seq<char>)
    requires
        0 <= i < s.len(),
        forall|j: int| 0 <= j < i ==> s[j].0 != s[i].0,
    ensures
        lookup(s.update(i, (s[i].0, v)), q) == if q == s[i].0 {
            Some(v)
        } else {
            lookup(s, q)
        },
    decreases s.len(),
{
    let t = s.update(i, (s[i].0, v));
    if i > 0 {
        assert(t.drop_first() =~= s.drop_first().update(i - 1, (s[i].0, v)));
        assert forall|j: int| 0 <= j < i - 1 implies (#[trigger] s.drop_first()[j]).0 != s.drop_first()[i - 1].0 by {
            assert(s[j + 1].0 != s[i].0);
        }
        lemma_lookup_update(s.drop_first(), i - 1, v, q);
        assert(s[0].0 != s[i].0);
        assert(t[0] == s[0]);
    } else {
        assert(t.drop_first() =~= s.drop_first());
        assert(t[0] == (s[0].0, v));
    }
}

proof fn lemma_lookup_push(s: Seq<(Seq<char>, Seq<char>)>, e: (Seq<char>, Seq<char>), q: Seq<char>)
    ensures
        lookup(s.push(e), q) == match lookup(s, q) {
            Some(v) => Some(v),
            None => if q == e.0 {
                Some(e.1)
            } else {
                None
            },
        },
    decreases s.len(),
{
    if s.len() > 0 {
        assert(s.push(e).drop_first() =~= s.drop_first().push(e));
        assert(s.push(e)[0] == s[0]);
        lemma_lookup_push(s.drop_first(), e, q);
    } else {
        assert(s.push(e).drop_first() =~= Seq::<(Seq<char>, Seq<char>)>::empty());
        assert(s.push(e)[0] == e);
        assert(lookup(Seq::<(Seq<char>, Seq<char>)>::empty(), q) is None);
    }
}

proof fn lemma_lookup_found(s: Seq<(Seq<char>, Seq<char>)>, i: int)
    requires
        0 <= i < s.len(),
        forall|j: int| 0 <= j < i ==> s[j].0 != s[i].0,
    ensures
        lookup(s, s[i].0) == Some(s[i].1),
    decreases s.len(),
{
    if i > 0 {
        assert forall|j: int| 0 <= j < i - 1 implies (#[trigger] s.drop_first()[j]).0 != s.drop_first()[i - 1].0 by {
            assert(s[j + 1].0 != s[i].0);
        }
        lemma_lookup_found(s.drop_first(), i - 1);
        assert(s[0].0 != s[i].0);
    }
}

proof fn lemma_lookup_missing(s: Seq<(Seq<char>, Seq<char>)>, q: Seq<char>)
    requires
        forall|j: int| 0 <= j < s.len() ==> s[j].0 != q,
    ensures
        lookup(s, q) is None,
    decreases s.len(),
{
    if s.len() > 0 {
        assert forall|j: int| 0 <= j < s.drop_first().len() implies s.drop_first()[j].0 != q by {
            assert(s[j + 1].0 != q);
        }
        lemma_lookup_missing(s.drop_first(), q);
    }
}

impl KeyValueStore {
    /// An empty store.
    pub fn new() -> (r: KeyValueStore)
        ensures
            r@ == Map::<Seq<char>, Seq<char>>::empty(),
            r.errors().len() == 0,
            r.self_handle() is None,
    {
        let r = KeyValueStore { entries: Vec::new(), self_actor: None, errors: Vec::new() };
        assert(r@ =~= Map::<Seq<char>, Seq<char>>::empty());
        r
    }

    /// The index of `key`, if the store holds it.
    fn find(&self, key: &String) -> (r: Option<usize>)
        ensures
            r is None ==> forall|j: int| 0 <= j < self.entries@.len() ==> self.entries@[j].0@ != key@,
            r matches Some(i) ==> i < self.entries@.len() && self.entries@[i as int].0@ == key@
                && forall|j: int| 0 <= j < i ==> self.entries@[j].0@ != key@,
    {
        let mut i: usize = 0;
        while i < self.entries.len()
            invariant
                i <= self.entries@.len(),
                forall|j: int| 0 <= j < i ==> self.entries@[j].0@ != key@,
            decreases self.entries@.len() - i,
        {
            if self.entries[i].0.eq(key) {
                return Some(i);
            }
            i = i + 1;
        }
        None
    }

    /// The value stored under `key`, if any.
    pub fn query(&self, key: &String) -> (r: Option<String>)
        ensures
            r is None <==> !self@.contains_key(key@),
            r matches Some(v) ==> v@ == self@[key@],
    {
        let ghost pv = pairs_view(self.entries@);
        match self.find(key) {
            Some(i) => {
                proof {
                    assert forall|j: int| 0 <= j < i implies pv[j].0 != pv[i as int].0 by {}
                    lemma_lookup_found(pv, i as int);
                }
                Some(self.entries[i].1.clone())
            },
            None => {
                proof {
                    lemma_lookup_missing(pv, key@);
                }
                None
            },
        }
    }

    /// Stores `value` under `key`, in place of what was there.
    pub fn set(&mut self, key: String, value: String)
        ensures
            final(self)@ == old(self)@.insert(key@, value@),
            final(self).errors() == old(self).errors(),
            final(self).self_handle() == old(self).self_handle(),
    {
        let ghost before = pairs_view(self.entries@);
        let ghost old_map = self@;
        let ghost k = key@;
        let ghost v = value@;
        match self.find(&key) {
            Some(i) => {
                self.entries.set(i, (key, value));
                proof {
                    assert(pairs_view(self.entries@) =~= before.update(i as int, (before[i as int].0, v)));
                    assert forall|q: Seq<char>| #[trigger] lookup(pairs_view(self.entries@), q) == if q == k {
                        Some(v)
                    } else {
                        lookup(before, q)
                    } by {
                        lemma_lookup_update(before, i as int, v, q);
                    }
                }
            },
            None => {
                self.entries.push((key, value));
                proof {
                    assert(pairs_view(self.entries@) =~= before.push((k, v)));
                    lemma_lookup_missing(before, k);
                    assert forall|q: Seq<char>| #[trigger] lookup(pairs_view(self.entries@), q) == if q == k {
                        Some(v)
                    } else {
                        lookup(before, q)
                    } by {
                        lemma_lookup_push(before, (k, v), q);
                    }
                }
            },
        }
        assert(self@ =~= old_map.insert(k, v));
    }

    /// The handle to its own actor that the store holds, if any.
    pub closed spec fn self_handle(&self) -> Option<Handle> {
        self.self_actor
    }

    pub closed spec fn errors(&self) -> Seq<Seq<char>> {
        self.errors@.map_values(|e: String| e@)
    }

    /// The faults that the error hook has recorded, oldest first.
    pub fn error_log(&self) -> (r: &Vec<String>)
        ensures
            r@.map_values(|e: String| e@) == self.errors(),
    {
        &self.errors
    }
}

impl View for KeyValueStore {
    type V = Map<Seq<char>, Seq<char>>;

    closed spec fn view(&self) -> Map<Seq<char>, Seq<char>> {
        Map::new(
            |k: Seq<char>| lookup(pairs_view(self.entries@), k) is Some,
            |k: Seq<char>| lookup(pairs_view(self.entries@), k)->0,
        )
    }
}

impl Handler for KeyValueStore {
    type Msg = KeyValueStoreMessage;
    type Reply = KeyValueStoreReply;
    type Fault = String;

    fn handle(&mut self, msg: &KeyValueStoreMessage) -> (r: Result<KeyValueStoreReply, String>)
        ensures
            match *msg {
                KeyValueStoreMessage::Query { key } => {
                    &&& final(self)@ == old(self)@
                    &&& match r {
                        Ok(KeyValueStoreReply::Value(v)) => (v is None <==> !old(self)@.contains_key(key@)) && (
                        v is Some ==> v->0@ == old(self)@[key@]),
                        _ => false,
                    }
                },
                KeyValueStoreMessage::SetValue { key, value } => (r matches Ok(KeyValueStoreReply::Stored))
                    && final(self)@ == old(self)@.insert(key@, value@),
            },
            final(self).errors() == old(self).errors(),
            final(self).self_handle() == old(self).self_handle(),
    {
        match msg {
            KeyValueStoreMessage::Query { key } => Ok(KeyValueStoreReply::Value(self.query(key))),
            KeyValueStoreMessage::SetValue { key, value } => {
                self.set(key.clone(), value.clone());
                Ok(KeyValueStoreReply::Stored)
            },
        }
    }

    fn on_error(&mut self, fault: String, msg: &KeyValueStoreMessage)
        ensures
            final(self)@ == old(self)@,
            final(self).errors() == old(self).errors().push(fault@),
            final(self).self_handle() == old(self).self_handle(),
    {
        let ghost before = self.errors@;
        self.errors.push(fault);
        assert(self.errors@.map_values(|e: String| e@) =~= before.map_values(|e: String| e@).push(fault@));
    }

    fn on_idle(&mut self) {
    }

    fn set_self_handle(&mut self, handle: Handle) {
        self.self_actor = Some(handle);
    }

    fn retire(&mut self, msg: KeyValueStoreMessage) -> Vec<Handle> {
        Vec::new()
    }

    fn close(&mut self) -> Vec<Handle> {
        let mut held: Vec<Handle> = Vec::new();
        match self.self_actor.take() {
            Some(h) => held.push(h),
            None => {},
        }
        held
    }
}

} // verus!
