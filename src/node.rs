//! The state that one node keeps: who provides which content, how to reach
//! peers, what this node offers, and which transfer requests are outstanding.

use vstd::prelude::*;
use vstd::utf8::{decode_utf8, valid_utf8};
use crate::bytes::bytes_eq;
use crate::codec::string_from_utf8;
use crate::table::{find, keys_unique, lemma_find_index, lemma_find_push, lemma_find_remove, lemma_find_update};

verus! {

/// The coordination state of a node. Every field only grows or is updated in
/// place, except that an answered request leaves `pending`.
pub struct Node {
    /// Content name and the first peer seen announcing it.
    pub directory: Vec<(String, Vec<u8>)>,
    /// Peer identity and one address known for it.
    pub address_book: Vec<(Vec<u8>, Vec<u8>)>,
    /// Content name and the local path it is served from.
    pub offered: Vec<(String, String)>,
    /// Request identifier and the content name it asked for.
    pub pending: Vec<(u64, String)>,
}

impl Node {
    /// The directory as (name, provider) pairs.
    pub open spec fn directory_view(&self) -> Seq<(Seq<char>, Seq<u8>)> {
        self.directory@.map_values(|e: (String, Vec<u8>)| (e.0@, e.1@))
    }

    /// The address book as (peer, address) pairs.
    pub open spec fn address_view(&self) -> Seq<(Seq<u8>, Seq<u8>)> {
        self.address_book@.map_values(|e: (Vec<u8>, Vec<u8>)| (e.0@, e.1@))
    }

    /// The offered content as (name, path) pairs.
    pub open spec fn offered_view(&self) -> Seq<(Seq<char>, Seq<char>)> {
        self.offered@.map_values(|e: (String, String)| (e.0@, e.1@))
    }

    /// The outstanding requests as (identifier, name) pairs.
    pub open spec fn pending_view(&self) -> Seq<(u64, Seq<char>)> {
        self.pending@.map_values(|e: (u64, String)| (e.0, e.1@))
    }

    /// The provider recorded for a content name.
    pub open spec fn provider_of(&self, name: Seq<char>) -> Option<Seq<u8>> {
        find(self.directory_view(), name)
    }

    /// Every (peer, address) pair known.
    pub open spec fn addresses(&self) -> Set<(Seq<u8>, Seq<u8>)> {
        self.address_view().to_set()
    }

    /// The local path that a content name is served from.
    pub open spec fn offered_path(&self, name: Seq<char>) -> Option<Seq<char>> {
        find(self.offered_view(), name)
    }

    /// The content name that an outstanding request asked for.
    pub open spec fn pending_name(&self, id: u64) -> Option<Seq<char>> {
        find(self.pending_view(), id)
    }

    /// Each offered name and each outstanding request appears once.
    pub open spec fn wf(&self) -> bool {
        &&& keys_unique(self.offered_view())
        &&& keys_unique(self.pending_view())
    }

    /// A node that knows nothing and offers nothing.
    pub fn new() -> (r: Node)
        ensures
            r.wf(),
            forall|k: Seq<char>| r.provider_of(k) is None,
            r.addresses() == Set::<(Seq<u8>, Seq<u8>)>::empty(),
            forall|k: Seq<char>| r.offered_path(k) is None,
            forall|id: u64| r.pending_name(id) is None,
    {
        let r = Node {
            directory: Vec::new(),
            address_book: Vec::new(),
            offered: Vec::new(),
            pending: Vec::new(),
        };
        assert(r.address_view().to_set() =~= Set::<(Seq<u8>, Seq<u8>)>::empty());
        r
    }

    /// The provider recorded for `name`.
    pub fn provider(&self, name: &String) -> (r: Option<Vec<u8>>)
        ensures
            match r {
                Some(p) => self.provider_of(name@) == Some(p@),
                None => self.provider_of(name@) is None,
            },
    {
        let ghost s = self.directory_view();
        let mut i: usize = 0;
        assert(s.subrange(0, s.len() as int) =~= s);
        while i < self.directory.len()
            invariant
                i <= self.directory@.len(),
                s == self.directory_view(),
                find(s, name@) == find(s.subrange(i as int, s.len() as int), name@),
            decreases self.directory@.len() - i,
        {
            let ghost t = s.subrange(i as int, s.len() as int);
            assert(t[0] == (self.directory@[i as int].0@, self.directory@[i as int].1@));
            if self.directory[i].0 == *name {
                return Some(self.directory[i].1.clone());
            }
            assert(t.drop_first() =~= s.subrange(i + 1, s.len() as int));
            i = i + 1;
        }
        None
    }

    /// Records `peer` as the provider of `name` unless a provider is already
    /// recorded for it: the first announcement of a name wins.
    pub fn register_provider(&mut self, name: String, peer: Vec<u8>)
        requires
            old(self).wf(),
        ensures
            final(self).wf(),
            forall|k: Seq<char>|
                #[trigger] final(self).provider_of(k) == match old(self).provider_of(k) {
                    Some(p) => Some(p),
                    None => if k == name@ {
                        Some(peer@)
                    } else {
                        None
                    },
                },
            final(self).addresses() == old(self).addresses(),
            final(self).offered_view() == old(self).offered_view(),
            final(self).pending_view() == old(self).pending_view(),
    {
        if self.provider(&name).is_some() {
            return;
        }
        let ghost before = self.directory_view();
        let ghost nm = name@;
        let ghost pv = peer@;
        self.directory.push((name, peer));
        proof {
            assert(self.directory_view() =~= before.push((nm, pv)));
            assert forall|k: Seq<char>| #[trigger] self.provider_of(k) == match find(before, k) {
                Some(p) => Some(p),
                None => if k == nm {
                    Some(pv)
                } else {
                    None
                },
            } by {
                lemma_find_push(before, (nm, pv), k);
            }
        }
    }

    /// Whether `address` is known for `peer`.
    pub fn knows_address(&self, peer: &Vec<u8>, address: &Vec<u8>) -> (r: bool)
        ensures
            r == self.addresses().contains((peer@, address@)),
    {
        let ghost s = self.address_view();
        let mut i: usize = 0;
        while i < self.address_book.len()
            invariant
                i <= self.address_book@.len(),
                s == self.address_view(),
                forall|j: int| 0 <= j < i ==> s[j] != (peer@, address@),
            decreases self.address_book@.len() - i,
        {
            assert(s[i as int] == (self.address_book@[i as int].0@, self.address_book@[i as int].1@));
            if bytes_eq(self.address_book[i].0.as_slice(), peer.as_slice()) && bytes_eq(
                self.address_book[i].1.as_slice(),
                address.as_slice(),
            ) {
                assert(s.to_set().contains(s[i as int]));
                return true;
            }
            i = i + 1;
        }
        false
    }

    /// Adds one known address of `peer`.
    pub fn add_address(&mut self, peer: &Vec<u8>, address: &Vec<u8>)
        requires
            old(self).wf(),
        ensures
            final(self).wf(),
            final(self).addresses() == old(self).addresses().insert((peer@, address@)),
            final(self).directory_view() == old(self).directory_view(),
            final(self).offered_view() == old(self).offered_view(),
            final(self).pending_view() == old(self).pending_view(),
    {
        if self.knows_address(peer, address) {
            proof {
                assert(self.addresses().insert((peer@, address@)) =~= self.addresses());
            }
            return;
        }
        let ghost s = self.address_view();
        let ghost before = s;
        self.address_book.push((peer.clone(), address.clone()));
        proof {
            assert(self.address_view() =~= before.push((peer@, address@)));
            before.lemma_push_to_set_commute((peer@, address@));
        }
    }

    /// Where the first entry for `name` stands in `offered`.
    fn offered_index(&self, name: &String) -> (r: Option<usize>)
        ensures
            match r {
                Some(i) => i < self.offered@.len() && self.offered_view()[i as int].0 == name@
                    && forall|j: int| 0 <= j < i ==> self.offered_view()[j].0 != name@,
                None => forall|j: int|
                    0 <= j < self.offered@.len() ==> self.offered_view()[j].0 != name@,
            },
    {
        let mut i: usize = 0;
        while i < self.offered.len()
            invariant
                i <= self.offered@.len(),
                forall|j: int| 0 <= j < i ==> self.offered_view()[j].0 != name@,
            decreases self.offered@.len() - i,
        {
            if self.offered[i].0 == *name {
                return Some(i);
            }
            i = i + 1;
        }
        None
    }

    /// Where the first entry for `id` stands in `pending`.
    fn pending_index(&self, id: u64) -> (r: Option<usize>)
        ensures
            match r {
                Some(i) => i < self.pending@.len() && self.pending_view()[i as int].0 == id
                    && forall|j: int| 0 <= j < i ==> self.pending_view()[j].0 != id,
                None => forall|j: int|
                    0 <= j < self.pending@.len() ==> self.pending_view()[j].0 != id,
            },
    {
        let mut i: usize = 0;
        while i < self.pending.len()
            invariant
                i <= self.pending@.len(),
                forall|j: int| 0 <= j < i ==> self.pending_view()[j].0 != id,
            decreases self.pending@.len() - i,
        {
            if self.pending[i].0 == id {
                return Some(i);
            }
            i = i + 1;
        }
        None
    }

    /// Offers the content `name` from the local `path`; offering a name again
    /// replaces its path.
    pub fn offer(&mut self, name: String, path: String)
        requires
            old(self).wf(),
        ensures
            final(self).wf(),
            forall|k: Seq<char>|
                #[trigger] final(self).offered_path(k) == if k == name@ {
                    Some(path@)
                } else {
                    old(self).offered_path(k)
                },
            final(self).directory_view() == old(self).directory_view(),
            final(self).addresses() == old(self).addresses(),
            final(self).pending_view() == old(self).pending_view(),
    {
        let ghost before = self.offered_view();
        let ghost nm = name@;
        let ghost pv = path@;
        match self.offered_index(&name) {
            Some(i) => {
                self.offered.set(i, (name, path));
                proof {
                    assert(self.offered_view() =~= before.update(i as int, (before[i as int].0, pv)));
                    assert forall|k: Seq<char>| #[trigger] self.offered_path(k) == if k == nm {
                        Some(pv)
                    } else {
                        find(before, k)
                    } by {
                        lemma_find_update(before, i as int, pv, k);
                    }
                }
            },
            None => {
                self.offered.push((name, path));
                proof {
                    assert(self.offered_view() =~= before.push((nm, pv)));
                    assert forall|k: Seq<char>| #[trigger] self.offered_path(k) == if k == nm {
                        Some(pv)
                    } else {
                        find(before, k)
                    } by {
                        lemma_find_push(before, (nm, pv), k);
                        lemma_find_index(before, k);
                    }
                }
            },
        }
    }

    /// The path that `name` is served from.
    pub fn path_of(&self, name: &String) -> (r: Option<String>)
        ensures
            match r {
                Some(p) => self.offered_path(name@) == Some(p@),
                None => self.offered_path(name@) is None,
            },
    {
        proof {
            lemma_find_index(self.offered_view(), name@);
        }
        match self.offered_index(name) {
            Some(i) => {
                proof {
                    let s = self.offered_view();
                    if find(s, name@) != Some(s[i as int].1) {
                        let j = choose|j: int|
                            0 <= j < s.len() && s[j].0 == name@ && find(s, name@) == Some(s[j].1)
                                && forall|m: int| 0 <= m < j ==> s[m].0 != name@;
                        assert(j != i as int);
                    }
                }
                Some(self.offered[i].1.clone())
            },
            None => None,
        }
    }

    /// The path of the content that a transfer request asks for: its payload
    /// is the name as UTF-8. `None` where the payload is not UTF-8 or names
    /// nothing offered.
    pub fn serve_path(&self, payload: &Vec<u8>) -> (r: Option<String>)
        ensures
            match r {
                Some(p) => valid_utf8(payload@) && self.offered_path(decode_utf8(payload@))
                    == Some(p@),
                None => !valid_utf8(payload@) || self.offered_path(decode_utf8(payload@)) is None,
            },
    {
        match string_from_utf8(payload.clone()) {
            Some(name) => self.path_of(&name),
            None => None,
        }
    }

    /// Records that request `id` asks for the content `name`.
    pub fn record_request(&mut self, id: u64, name: String)
        requires
            old(self).wf(),
        ensures
            final(self).wf(),
            forall|k: u64|
                #[trigger] final(self).pending_name(k) == if k == id {
                    Some(name@)
                } else {
                    old(self).pending_name(k)
                },
            final(self).directory_view() == old(self).directory_view(),
            final(self).addresses() == old(self).addresses(),
            final(self).offered_view() == old(self).offered_view(),
    {
        let ghost before = self.pending_view();
        let ghost nm = name@;
        match self.pending_index(id) {
            Some(i) => {
                self.pending.set(i, (id, name));
                proof {
                    assert(self.pending_view() =~= before.update(i as int, (id, nm)));
                    assert forall|k: u64| #[trigger] self.pending_name(k) == if k == id {
                        Some(nm)
                    } else {
                        find(before, k)
                    } by {
                        lemma_find_update(before, i as int, nm, k);
                    }
                }
            },
            None => {
                self.pending.push((id, name));
                proof {
                    assert(self.pending_view() =~= before.push((id, nm)));
                    assert forall|k: u64| #[trigger] self.pending_name(k) == if k == id {
                        Some(nm)
                    } else {
                        find(before, k)
                    } by {
                        lemma_find_push(before, (id, nm), k);
                        lemma_find_index(before, k);
                    }
                }
            },
        }
    }

    /// Removes and returns the content name that request `id` asked for;
    /// `None`, and nothing changed, where no such request is outstanding.
    pub fn take_pending(&mut self, id: u64) -> (r: Option<String>)
        requires
            old(self).wf(),
        ensures
            final(self).wf(),
            match r {
                Some(n) => old(self).pending_name(id) == Some(n@),
                None => old(self).pending_name(id) is None && *final(self) == *old(self),
            },
            forall|k: u64|
                #[trigger] final(self).pending_name(k) == if k == id {
                    None
                } else {
                    old(self).pending_name(k)
                },
            final(self).directory_view() == old(self).directory_view(),
            final(self).addresses() == old(self).addresses(),
            final(self).offered_view() == old(self).offered_view(),
    {
        let ghost before = self.pending_view();
        proof {
            lemma_find_index(before, id);
        }
        match self.pending_index(id) {
            Some(i) => {
                proof {
                    if find(before, id) != Some(before[i as int].1) {
                        let j = choose|j: int|
                            0 <= j < before.len() && before[j].0 == id && find(before, id) == Some(
                                before[j].1,
                            ) && forall|m: int| 0 <= m < j ==> before[m].0 != id;
                        assert(j != i as int);
                    }
                }
                let entry = self.pending.remove(i);
                proof {
                    assert(self.pending_view() =~= before.remove(i as int));
                    assert forall|k: u64| #[trigger] self.pending_name(k) == if k == id {
                        None
                    } else {
                        find(before, k)
                    } by {
                        lemma_find_remove(before, i as int, k);
                    }
                    assert(keys_unique(self.pending_view())) by {
                        assert forall|a: int, b: int|
                            0 <= a < b < self.pending_view().len() implies self.pending_view()[a].0
                            != self.pending_view()[b].0 by {
                            let a2 = if a < i { a } else { a + 1 };
                            let b2 = if b < i { b } else { b + 1 };
                            assert(self.pending_view()[a] == before[a2]);
                            assert(self.pending_view()[b] == before[b2]);
                        }
                    }
                }
                Some(entry.1)
            },
            None => None,
        }
    }
}

} // verus!
