//! Clients of the services that the orchestrator talks to, and the map that
//! holds them by name.

use std::any::TypeId;
use vstd::prelude::*;

pub mod config;
pub mod detector;
pub mod errors;
pub mod generation;
pub mod http;
pub mod nlp;
mod private;

verus! {

/// Seconds that a connection attempt may take.
pub const DEFAULT_CONNECT_TIMEOUT_SEC: u64 = 60;

/// Seconds that a request may take where the service's configuration names
/// no limit.
pub const DEFAULT_REQUEST_TIMEOUT_SEC: u64 = 600;

/// `std::any::TypeId`, the compiler's identifier of a type. A value of it is
/// carried and compared, never looked into.
#[verifier::external_type_specification]
#[verifier::external_body]
pub struct ExTypeId(TypeId);

/// `TypeId::of`: the identifier that the compiler gave to `T`. Nothing is
/// claimed of it.
#[verifier::external_body]
fn type_id_of<T: ?Sized + 'static>() -> TypeId {
    TypeId::of::<T>()
}

/// `TypeId`'s `==`: whether the two identifiers are the same.
#[verifier::external_body]
fn same_type_id(a: &TypeId, b: &TypeId) -> (r: bool)
    ensures
        r == (*a == *b),
{
    a == b
}

/// A client of one service.
pub trait Client: Send + Sync + 'static {
    /// Returns the name of the client type.
    fn name(&self) -> &str;

    /// Returns the `TypeId` of the client type. Sealed to prevent overrides.
    fn type_id(&self, _seal: private::Seal) -> TypeId {
        type_id_of::<Self>()
    }
}

impl dyn Client {
    /// Whether the client is of type `T`.
    pub fn is<T: 'static>(&self) -> bool {
        let wanted = type_id_of::<T>();
        let own = self.type_id(private::Seal);
        same_type_id(&wanted, &own)
    }
}

/// What a client map holds: each key with its client.
pub type Entries<C> = Seq<(String, C)>;

/// The keys of `entries`, in order.
pub open spec fn names_of<C>(entries: Entries<C>) -> Seq<Seq<char>> {
    Seq::new(entries.len(), |i: int| entries[i].0@)
}

/// The clients of `entries` by their keys.
pub open spec fn clients_of<C>(entries: Entries<C>) -> Map<Seq<char>, C> {
    Map::new(
        |k: Seq<char>| names_of(entries).contains(k),
        |k: Seq<char>| entries[names_of(entries).index_of(k)].1,
    )
}

/// `keys` names each key of `m` once.
pub open spec fn enumerates<C>(keys: Seq<Seq<char>>, m: Map<Seq<char>, C>) -> bool {
    keys.no_duplicates() && keys.to_set() == m.dom()
}

/// Where no key is held twice, each entry is found under its key.
proof fn lemma_entry_at<C>(entries: Entries<C>, i: int)
    requires
        names_of(entries).no_duplicates(),
        0 <= i < entries.len(),
    ensures
        names_of(entries).contains(entries[i].0@),
        names_of(entries).index_of(entries[i].0@) == i,
        clients_of(entries).contains_key(entries[i].0@),
        clients_of(entries)[entries[i].0@] == entries[i].1,
{
    assert(names_of(entries)[i] == entries[i].0@);
}

/// A key that is held is the key of one of the entries.
proof fn lemma_entry_of<C>(entries: Entries<C>, k: Seq<char>) -> (i: int)
    requires
        names_of(entries).no_duplicates(),
        clients_of(entries).contains_key(k),
    ensures
        0 <= i < entries.len(),
        entries[i].0@ == k,
        clients_of(entries)[k] == entries[i].1,
{
    let i = names_of(entries).index_of(k);
    lemma_entry_at(entries, i);
    i
}

/// A map containing different types of clients.
pub struct ClientMap<C = Box<dyn Client>> {
    entries: Vec<(String, C)>,
}

impl<C> Default for ClientMap<C> {
    /// An empty map.
    fn default() -> (r: Self)
        ensures
            r.wf(),
            r@ == Map::<Seq<char>, C>::empty(),
    {
        ClientMap::new()
    }
}

impl<C> ClientMap<C> {
    /// No key is held twice.
    pub closed spec fn wf(&self) -> bool {
        names_of(self.entries@).no_duplicates()
    }

    /// The clients by their keys.
    pub closed spec fn view(&self) -> Map<Seq<char>, C> {
        clients_of(self.entries@)
    }

    /// Where `key` is held, if it is.
    fn position(&self, key: &str) -> (r: Option<usize>)
        requires
            self.wf(),
        ensures
            match r {
                Some(i) => i < self.entries@.len() && self.entries@[i as int].0@ == key@
                    && self@.contains_key(key@) && self@[key@] == self.entries@[i as int].1,
                None => !self@.contains_key(key@),
            },
    {
        let wanted = key.to_owned();
        let mut i: usize = 0;
        while i < self.entries.len()
            invariant
                self.wf(),
                wanted@ == key@,
                i <= self.entries@.len(),
                forall|j: int| 0 <= j < i ==> names_of(self.entries@)[j] != key@,
            decreases self.entries@.len() - i,
        {
            if self.entries[i].0 == wanted {
                proof {
                    lemma_entry_at(self.entries@, i as int);
                }
                return Some(i);
            }
            i = i + 1;
        }
        None
    }

    /// Creates an empty `ClientMap`.
    pub fn new() -> (r: Self)
        ensures
            r.wf(),
            r@ == Map::<Seq<char>, C>::empty(),
    {
        let r = ClientMap { entries: Vec::new() };
        proof {
            assert(r@ =~= Map::<Seq<char>, C>::empty());
        }
        r
    }

    /// Inserts a client into the map. A client that was held under `key` is
    /// replaced.
    #[verifier::rlimit(30)]
    pub fn insert(&mut self, key: String, value: C)
        requires
            old(self).wf(),
        ensures
            final(self).wf(),
            final(self)@ == old(self)@.insert(key@, value),
    {
        let ghost before = self.entries@;
        let ghost wanted = old(self)@.insert(key@, value);
        let ghost name = key@;
        let found = self.position(key.as_str());
        let entry = (key, value);
        assert(entry.0@ == name && entry.1 == value);
        match found {
            Some(i) => {
                self.entries.set(i, entry);
                proof {
                    assert(names_of(self.entries@) =~= names_of(before));
                }
            },
            None => {
                self.entries.push(entry);
                proof {
                    let names = names_of(self.entries@);
                    assert(names =~= names_of(before).push(entry.0@));
                    assert forall|a: int, b: int|
                        0 <= a < names.len() && 0 <= b < names.len() && a != b implies names[a]
                        != names[b] by {
                        if a < before.len() {
                            lemma_entry_at(before, a);
                        }
                        if b < before.len() {
                            lemma_entry_at(before, b);
                        }
                    }
                }
            },
        }
        proof {
            let after = self.entries@;
            assert forall|k: Seq<char>| #[trigger] wanted.contains_key(k) implies clients_of(
                after,
            ).contains_key(k) && clients_of(after)[k] == wanted[k] by {
                if k == name {
                    let i = if found is Some {
                        found->0 as int
                    } else {
                        before.len() as int
                    };
                    lemma_entry_at(after, i);
                } else {
                    let i = lemma_entry_of(before, k);
                    lemma_entry_at(after, i);
                }
            }
            assert forall|k: Seq<char>| #[trigger]
                clients_of(after).contains_key(k) implies wanted.contains_key(k) by {
                let i = lemma_entry_of(after, k);
                if i < before.len() && k != name {
                    lemma_entry_at(before, i);
                }
            }
            assert(self@ =~= wanted);
        }
    }

    /// Returns a reference to the client trait object.
    pub fn get(&self, key: &str) -> (r: Option<&C>)
        requires
            self.wf(),
        ensures
            r == (if self@.contains_key(key@) {
                Some(&self@[key@])
            } else {
                None
            }),
    {
        match self.position(key) {
            Some(i) => Some(&self.entries[i].1),
            None => None,
        }
    }

    /// Returns a mutable reference to the client trait object.
    #[verifier::rlimit(30)]
    pub fn get_mut(&mut self, key: &str) -> (r: Option<&mut C>)
        requires
            old(self).wf(),
        ensures
            final(self).wf(),
            match r {
                Some(client) => {
                    &&& old(self)@.contains_key(key@)
                    &&& *client == old(self)@[key@]
                    &&& final(self)@ == old(self)@.insert(key@, *final(client))
                },
                None => !old(self)@.contains_key(key@) && final(self)@ == old(self)@,
            },
    {
        let ghost before = self.entries@;
        match self.position(key) {
            Some(i) => {
                let client = &mut self.entries[i].1;
                proof {
                    let after = before.update(i as int, (before[i as int].0, *final(client)));
                    assert(names_of(after) =~= names_of(before));
                    let wanted = clients_of(before).insert(key@, *final(client));
                    assert forall|k: Seq<char>| #[trigger] wanted.contains_key(k) implies clients_of(
                        after,
                    ).contains_key(k) && clients_of(after)[k] == wanted[k] by {
                        if k == key@ {
                            lemma_entry_at(after, i as int);
                        } else {
                            let j = lemma_entry_of(before, k);
                            lemma_entry_at(after, j);
                        }
                    }
                    assert forall|k: Seq<char>| #[trigger]
                        clients_of(after).contains_key(k) implies wanted.contains_key(k) by {
                        let j = lemma_entry_of(after, k);
                        lemma_entry_at(before, j);
                    }
                    assert(clients_of(after) =~= wanted);
                }
                Some(client)
            },
            None => None,
        }
    }

    /// Removes a client from the map.
    #[verifier::rlimit(30)]
    pub fn remove(&mut self, key: &str) -> (r: Option<C>)
        requires
            old(self).wf(),
        ensures
            final(self).wf(),
            final(self)@ == old(self)@.remove(key@),
            r == (if old(self)@.contains_key(key@) {
                Some(old(self)@[key@])
            } else {
                None
            }),
    {
        let ghost before = self.entries@;
        let ghost wanted = old(self)@.remove(key@);
        match self.position(key) {
            Some(i) => {
                let entry = self.entries.remove(i);
                assert(entry == before[i as int]);
                let client = entry.1;
                proof {
                    let after = self.entries@;
                    let names = names_of(after);
                    assert(names =~= names_of(before).remove(i as int));
                    assert forall|a: int, b: int|
                        0 <= a < names.len() && 0 <= b < names.len() && a != b implies names[a]
                        != names[b] by {
                        let a0 = if a < i { a } else { a + 1 };
                        let b0 = if b < i { b } else { b + 1 };
                        assert(names[a] == names_of(before)[a0]);
                        assert(names[b] == names_of(before)[b0]);
                    }
                    assert forall|k: Seq<char>| #[trigger] wanted.contains_key(k) implies clients_of(
                        after,
                    ).contains_key(k) && clients_of(after)[k] == wanted[k] by {
                        let j0 = lemma_entry_of(before, k);
                        let j = if j0 < i { j0 } else { j0 - 1 };
                        lemma_entry_at(after, j);
                    }
                    assert forall|k: Seq<char>| #[trigger]
                        clients_of(after).contains_key(k) implies wanted.contains_key(k) by {
                        let j = lemma_entry_of(after, k);
                        let j0 = if j < i { j } else { j + 1 };
                        lemma_entry_at(before, j0);
                        lemma_entry_at(before, i as int);
                    }
                    assert(self@ =~= wanted);
                }
                Some(client)
            },
            None => {
                proof {
                    assert(self@ =~= wanted);
                }
                None
            },
        }
    }

    /// The key-value pairs, in arbitrary order: each key once, with the
    /// client held under it.
    pub fn iter(&self) -> (r: Vec<(&String, &C)>)
        requires
            self.wf(),
        ensures
            enumerates(Seq::new(r@.len(), |i: int| r@[i].0@), self@),
            forall|i: int| 0 <= i < r@.len() ==> *r@[i].1 == self@[r@[i].0@],
    {
        let mut r: Vec<(&String, &C)> = Vec::new();
        let mut i: usize = 0;
        while i < self.entries.len()
            invariant
                self.wf(),
                i <= self.entries@.len(),
                r@.len() == i,
                forall|j: int|
                    0 <= j < i ==> *r@[j].0 == self.entries@[j].0 && *r@[j].1
                        == self.entries@[j].1,
            decreases self.entries@.len() - i,
        {
            let entry = &self.entries[i];
            let pair = (&entry.0, &entry.1);
            r.push(pair);
            i = i + 1;
        }
        proof {
            let keys = Seq::new(r@.len(), |i: int| r@[i].0@);
            assert(keys =~= names_of(self.entries@));
            assert(keys.to_set() =~= self@.dom());
            assert forall|i: int| 0 <= i < r@.len() implies *r@[i].1 == self@[r@[i].0@] by {
                lemma_entry_at(self.entries@, i);
            }
        }
        r
    }

    /// The keys, in arbitrary order: each key once.
    pub fn keys(&self) -> (r: Vec<&String>)
        requires
            self.wf(),
        ensures
            enumerates(Seq::new(r@.len(), |i: int| r@[i]@), self@),
    {
        let mut r: Vec<&String> = Vec::new();
        let mut i: usize = 0;
        while i < self.entries.len()
            invariant
                self.wf(),
                i <= self.entries@.len(),
                r@.len() == i,
                forall|j: int| 0 <= j < i ==> *r@[j] == self.entries@[j].0,
            decreases self.entries@.len() - i,
        {
            let key = &self.entries[i].0;
            r.push(key);
            i = i + 1;
        }
        proof {
            let keys = Seq::new(r@.len(), |i: int| r@[i]@);
            assert(keys =~= names_of(self.entries@));
            assert(keys.to_set() =~= self@.dom());
        }
        r
    }

    /// The clients, in arbitrary order: the client of each key once.
    pub fn values(&self) -> (r: Vec<&C>)
        requires
            self.wf(),
        ensures
            exists|keys: Seq<Seq<char>>|
                {
                    &&& enumerates(keys, self@)
                    &&& keys.len() == r@.len()
                    &&& forall|i: int| 0 <= i < r@.len() ==> *r@[i] == self@[#[trigger] keys[i]]
                },
    {
        let mut r: Vec<&C> = Vec::new();
        let mut i: usize = 0;
        while i < self.entries.len()
            invariant
                self.wf(),
                i <= self.entries@.len(),
                r@.len() == i,
                forall|j: int| 0 <= j < i ==> *r@[j] == self.entries@[j].1,
            decreases self.entries@.len() - i,
        {
            let client = &self.entries[i].1;
            r.push(client);
            i = i + 1;
        }
        proof {
            let keys = names_of(self.entries@);
            assert(keys.to_set() =~= self@.dom());
            assert forall|i: int| 0 <= i < r@.len() implies *r@[i] == self@[#[trigger] keys[i]] by {
                lemma_entry_at(self.entries@, i);
            }
            assert(enumerates(keys, self@));
        }
        r
    }

    /// Returns the number of elements in the map.
    pub fn len(&self) -> (r: usize)
        requires
            self.wf(),
        ensures
            r == self@.len(),
            self@.dom().finite(),
    {
        proof {
            names_of(self.entries@).unique_seq_to_set();
            assert(self@.dom() =~= names_of(self.entries@).to_set());
        }
        self.entries.len()
    }

    /// Returns `true` if the map contains no elements.
    pub fn is_empty(&self) -> (r: bool)
        requires
            self.wf(),
        ensures
            r == (self@.len() == 0),
    {
        self.len() == 0
    }
}

} // verus!
