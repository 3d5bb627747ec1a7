//! The registry store: a keyed collection of records. Its mathematical model
//! is a finite map from 128-bit identifier to record view; the operations
//! state exactly how they read and change that map.

use vstd::prelude::*;
use vstd::pervasive::VecAdditionalExecFns;

use crate::data::{Email, Pulsar, PulsarId, PulsarView};

verus! {

/// The identifier a stored record carries, as a plain 128-bit value.
pub open spec fn key_of(v: PulsarView) -> u128 {
    (v.id->0).0
}

/// Whether some record in `s` carries identifier `id`.
pub open spec fn has_id(s: Seq<PulsarView>, id: u128) -> bool {
    exists|i: int| 0 <= i < s.len() && key_of(#[trigger] s[i]) == id
}

/// The index of the record carrying `id`; meaningful only under `has_id`.
pub open spec fn index_of_id(s: Seq<PulsarView>, id: u128) -> int {
    choose|i: int| 0 <= i < s.len() && key_of(#[trigger] s[i]) == id
}

/// Whether `email` occurs in the record's user list.
pub open spec fn has_user(v: PulsarView, email: Seq<char>) -> bool {
    exists|k: int| 0 <= k < v.users.len() && (#[trigger] v.users[k])@ == email
}

/// The predicate that search filters with: records serving `email`.
pub open spec fn user_filter(email: Seq<char>) -> spec_fn(PulsarView) -> bool {
    |v: PulsarView| has_user(v, email)
}

/// The views of a sequence of records.
pub open spec fn views_of(s: Seq<Pulsar>) -> Seq<PulsarView> {
    s.map_values(|p: Pulsar| p@)
}

/// The records of `s`, read as a mapping from identifier to record view.
pub open spec fn contents_of(s: Seq<PulsarView>) -> Map<u128, PulsarView> {
    Map::new(|id: u128| has_id(s, id), |id: u128| s[index_of_id(s, id)])
}

/// Well-formed backing sequence: every record carries an identifier, and no
/// two records carry the same one.
pub open spec fn distinct_ids(s: Seq<PulsarView>) -> bool {
    &&& forall|i: int| 0 <= i < s.len() ==> (#[trigger] s[i]).id is Some
    &&& forall|i: int, j: int|
        0 <= i < j < s.len() ==> key_of(#[trigger] s[i]) != key_of(#[trigger] s[j])
}

/// Under `distinct_ids`, the record at index `i` is the map entry at its key.
pub proof fn lemma_contents_at(s: Seq<PulsarView>, i: int)
    requires
        distinct_ids(s),
        0 <= i < s.len(),
    ensures
        contents_of(s).contains_key(key_of(s[i])),
        contents_of(s)[key_of(s[i])] == s[i],
{
    let id = key_of(s[i]);
    assert(has_id(s, id));
    let j = index_of_id(s, id);
    assert(0 <= j < s.len() && key_of(s[j]) == id);
    if i < j {
        assert(key_of(s[i]) != key_of(s[j]));
    } else if j < i {
        assert(key_of(s[j]) != key_of(s[i]));
    }
}

/// Appending a record with a fresh identifier inserts it into the map view.
proof fn lemma_contents_push(s: Seq<PulsarView>, v: PulsarView)
    requires
        distinct_ids(s),
        v.id is Some,
        !has_id(s, key_of(v)),
    ensures
        distinct_ids(s.push(v)),
        contents_of(s.push(v)) == contents_of(s).insert(key_of(v), v),
{
    let s2 = s.push(v);
    let id = key_of(v);
    assert(forall|k: int| 0 <= k < s.len() ==> s2[k] == #[trigger] s[k]);
    assert(s2[s.len() as int] == v);
    assert(distinct_ids(s2)) by {
        assert(forall|i: int| 0 <= i < s.len() ==> key_of(#[trigger] s[i]) != id);
    }
    assert forall|k: u128| #[trigger]
        contents_of(s2).contains_key(k) == contents_of(s).insert(id, v).contains_key(k) by {
        if k == id {
            assert(has_id(s2, k));
        } else {
            if has_id(s2, k) {
                let i = choose|i: int| 0 <= i < s2.len() && key_of(#[trigger] s2[i]) == k;
                assert(i < s.len() && key_of(s[i]) == k);
                assert(has_id(s, k));
            }
            if has_id(s, k) {
                let i = choose|i: int| 0 <= i < s.len() && key_of(#[trigger] s[i]) == k;
                assert(key_of(s2[i]) == k);
                assert(has_id(s2, k));
            }
        }
    }
    assert forall|k: u128|
        contents_of(s2).contains_key(k) implies #[trigger] contents_of(s2)[k] == contents_of(
        s,
    ).insert(id, v)[k] by {
        if k == id {
            lemma_contents_at(s2, s.len() as int);
        } else {
            let i = choose|i: int| 0 <= i < s2.len() && key_of(#[trigger] s2[i]) == k;
            assert(i < s.len() && key_of(s[i]) == k);
            lemma_contents_at(s, i);
            lemma_contents_at(s2, i);
        }
    }
    assert(contents_of(s2) =~= contents_of(s).insert(id, v));
}

/// Replacing the record at `i` by one carrying the same identifier is an
/// insertion at that key in the map view.
proof fn lemma_contents_update(s: Seq<PulsarView>, i: int, v: PulsarView)
    requires
        distinct_ids(s),
        0 <= i < s.len(),
        v.id is Some,
        key_of(v) == key_of(s[i]),
    ensures
        distinct_ids(s.update(i, v)),
        contents_of(s.update(i, v)) == contents_of(s).insert(key_of(v), v),
{
    let s2 = s.update(i, v);
    let id = key_of(v);
    assert(forall|k: int| 0 <= k < s.len() && k != i ==> s2[k] == #[trigger] s[k]);
    assert(s2[i] == v);
    assert(distinct_ids(s2));
    assert forall|k: u128| #[trigger]
        contents_of(s2).contains_key(k) == contents_of(s).insert(id, v).contains_key(k) by {
        if k == id {
            assert(key_of(s2[i]) == k);
            assert(has_id(s2, k));
        } else {
            if has_id(s2, k) {
                let m = choose|m: int| 0 <= m < s2.len() && key_of(#[trigger] s2[m]) == k;
                assert(m != i);
                assert(key_of(s[m]) == k);
                assert(has_id(s, k));
            }
            if has_id(s, k) {
                let m = choose|m: int| 0 <= m < s.len() && key_of(#[trigger] s[m]) == k;
                assert(m != i);
                assert(key_of(s2[m]) == k);
                assert(has_id(s2, k));
            }
        }
    }
    assert forall|k: u128|
        contents_of(s2).contains_key(k) implies #[trigger] contents_of(s2)[k] == contents_of(
        s,
    ).insert(id, v)[k] by {
        if k == id {
            lemma_contents_at(s2, i);
        } else {
            let m = choose|m: int| 0 <= m < s2.len() && key_of(#[trigger] s2[m]) == k;
            assert(m != i);
            assert(key_of(s[m]) == k);
            lemma_contents_at(s, m);
            lemma_contents_at(s2, m);
        }
    }
    assert(contents_of(s2) =~= contents_of(s).insert(id, v));
}

/// Removing the record at `i` removes exactly its key from the map view.
proof fn lemma_contents_remove(s: Seq<PulsarView>, i: int)
    requires
        distinct_ids(s),
        0 <= i < s.len(),
    ensures
        distinct_ids(s.remove(i)),
        contents_of(s.remove(i)) == contents_of(s).remove(key_of(s[i])),
{
    let s2 = s.remove(i);
    let id = key_of(s[i]);
    s.remove_ensures(i);
    assert(forall|k: int| 0 <= k < i ==> s2[k] == #[trigger] s[k]);
    assert(forall|k: int| i <= k < s.len() - 1 ==> #[trigger] s2[k] == s[k + 1]);
    assert(distinct_ids(s2)) by {
        assert forall|m: int, n: int|
            0 <= m < n < s2.len() implies key_of(#[trigger] s2[m]) != key_of(
            #[trigger] s2[n],
        ) by {
            let m0: int = if m < i {
                m
            } else {
                m + 1
            };
            let n0: int = if n < i {
                n
            } else {
                n + 1
            };
            assert(s2[m] == s[m0] && s2[n] == s[n0]);
            assert(key_of(s[m0]) != key_of(s[n0]));
        }
        assert forall|m: int| 0 <= m < s2.len() implies (#[trigger] s2[m]).id is Some by {
            let m0: int = if m < i {
                m
            } else {
                m + 1
            };
            assert(s2[m] == s[m0]);
        }
    }
    assert forall|k: u128| #[trigger]
        contents_of(s2).contains_key(k) == contents_of(s).remove(id).contains_key(k) by {
        if has_id(s2, k) {
            let m = choose|m: int| 0 <= m < s2.len() && key_of(#[trigger] s2[m]) == k;
            let m0: int = if m < i {
                m
            } else {
                m + 1
            };
            assert(s2[m] == s[m0]);
            assert(has_id(s, k));
            if m0 < i {
                assert(key_of(s[m0]) != key_of(s[i]));
            } else {
                assert(key_of(s[i]) != key_of(s[m0]));
            }
            assert(k != id);
        }
        if has_id(s, k) && k != id {
            let m = choose|m: int| 0 <= m < s.len() && key_of(#[trigger] s[m]) == k;
            assert(m != i);
            let m2: int = if m < i {
                m
            } else {
                m - 1
            };
            assert(s2[m2] == s[m]);
            assert(has_id(s2, k));
        }
    }
    assert forall|k: u128|
        contents_of(s2).contains_key(k) implies #[trigger] contents_of(s2)[k] == contents_of(
        s,
    ).remove(id)[k] by {
        let m = choose|m: int| 0 <= m < s2.len() && key_of(#[trigger] s2[m]) == k;
        let m0: int = if m < i {
            m
        } else {
            m + 1
        };
        assert(s2[m] == s[m0]);
        lemma_contents_at(s, m0);
        lemma_contents_at(s2, m);
    }
    assert(contents_of(s2) =~= contents_of(s).remove(id));
}

/// The registry store: records keyed by identifier, held in insertion order.
///
/// Its model, [`RegistryStore::contents`], is the finite map from identifier
/// to record view; [`RegistryStore::wf`] says every record carries an
/// identifier and no identifier keys two records.
pub struct RegistryStore {
    records: Vec<Pulsar>,
}

impl RegistryStore {
    /// The views of the stored records, in insertion order.
    pub closed spec fn records_seq(self) -> Seq<PulsarView> {
        views_of(self.records@)
    }

    /// Every stored record carries an identifier, unique among stored records.
    pub open spec fn wf(self) -> bool {
        distinct_ids(self.records_seq())
    }

    /// The store as a map from identifier to record view.
    pub open spec fn contents(self) -> Map<u128, PulsarView> {
        contents_of(self.records_seq())
    }

    /// Number of stored records.
    pub open spec fn size(self) -> nat {
        self.records_seq().len()
    }

    /// An empty store.
    pub fn new() -> (s: Self)
        ensures
            s.wf(),
            s.size() == 0,
            s.contents() == Map::<u128, PulsarView>::empty(),
    {
        let s = RegistryStore { records: Vec::new() };
        proof {
            assert(s.contents() =~= Map::<u128, PulsarView>::empty());
        }
        s
    }

    /// Number of stored records.
    pub fn len(&self) -> (n: usize)
        ensures
            n == self.size(),
    {
        self.records.len()
    }

    /// The position of the record keyed by `id`, if any.
    fn find_index(&self, id: PulsarId) -> (r: Option<usize>)
        requires
            self.wf(),
        ensures
            match r {
                Some(i) => i < self.records_seq().len() && key_of(self.records_seq()[i as int])
                    == id.0,
                None => !has_id(self.records_seq(), id.0),
            },
    {
        let ghost s = self.records_seq();
        let n: usize = self.records.len();
        let mut i: usize = 0;
        while i < n
            invariant
                i <= n,
                n == s.len(),
                s == self.records_seq(),
                distinct_ids(s),
                forall|k: int| 0 <= k < i ==> key_of(#[trigger] s[k]) != id.0,
            decreases n - i,
        {
            proof {
                assert(s[i as int] == self.records@[i as int]@);
            }
            let rec_id = self.records[i].id.unwrap();
            if rec_id.0 == id.0 {
                return Some(i);
            }
            i = i + 1;
        }
        None
    }

    /// Assigns a fresh identifier to `record`, stores the record with that
    /// identifier set, and returns the stored copy. Always succeeds. In the
    /// map view this is an insertion at the assigned key; the store grows by
    /// one record unless the drawn identifier already keyed one — which the
    /// generator's timestamp-plus-randomness design makes it never do in
    /// practice — in which case that record is replaced, as a keyed map
    /// insertion is.
    pub fn insert(&mut self, record: Pulsar) -> (stored: Pulsar)
        requires
            old(self).wf(),
            record.id is None,
        ensures
            final(self).wf(),
            stored.id is Some,
            stored.pulsar_url == record.pulsar_url,
            stored.users == record.users,
            final(self).contents() == old(self).contents().insert(key_of(stored@), stored@),
            final(self).size() == old(self).size() + (if old(self).contents().contains_key(
                key_of(stored@),
            ) {
                0int
            } else {
                1int
            }),
            !old(self).contents().contains_key(key_of(stored@)) ==> final(self).records_seq()
                == old(self).records_seq().push(stored@),
            old(self).contents().contains_key(key_of(stored@)) ==> final(self).records_seq()
                == old(self).records_seq().update(
                index_of_id(old(self).records_seq(), key_of(stored@)),
                stored@,
            ),
    {
        let id = PulsarId::new();
        let stored = Pulsar { id: Some(id), pulsar_url: record.pulsar_url, users: record.users };
        let copy = stored.clone();
        let found = self.find_index(id);
        match found {
            Some(i) => {
                proof {
                    lemma_contents_at(self.records_seq(), i as int);
                    lemma_contents_update(self.records_seq(), i as int, stored@);
                    let j = index_of_id(self.records_seq(), id.0);
                    assert(0 <= j < self.records_seq().len() && key_of(self.records_seq()[j])
                        == id.0);
                    if i < j {
                        assert(key_of(self.records_seq()[i as int]) != key_of(
                            self.records_seq()[j],
                        ));
                    } else if j < i {
                        assert(key_of(self.records_seq()[j]) != key_of(
                            self.records_seq()[i as int],
                        ));
                    }
                }
                let ghost pre = self.records@;
                self.records.set(i, copy);
                proof {
                    assert(views_of(self.records@) =~= views_of(pre).update(i as int, stored@));
                }
            },
            None => {
                proof {
                    lemma_contents_push(self.records_seq(), stored@);
                }
                let ghost pre = self.records@;
                self.records.push(copy);
                proof {
                    assert(views_of(self.records@) =~= views_of(pre).push(stored@));
                }
            },
        }
        stored
    }

    /// The record keyed by `id`, or nothing when no record carries it.
    pub fn lookup(&self, id: PulsarId) -> (r: Option<Pulsar>)
        requires
            self.wf(),
        ensures
            match r {
                Some(p) => self.contents().contains_key(id.0) && p@ == self.contents()[id.0],
                None => !self.contents().contains_key(id.0),
            },
            r is Some ==> (r->0).id == Some(id),
    {
        let found = self.find_index(id);
        match found {
            Some(i) => {
                proof {
                    lemma_contents_at(self.records_seq(), i as int);
                }
                let p = self.records[i].clone();
                proof {
                    assert(p@ == self.records_seq()[i as int]);
                    assert((p@.id->0).0 == id.0);
                    assert(p@.id->0 == id);
                }
                Some(p)
            },
            None => None,
        }
    }

    /// Whether `email` occurs in the user list of `p`.
    pub fn record_has_user(p: &Pulsar, email: &Email) -> (b: bool)
        ensures
            b == has_user(p@, email@),
    {
        let n: usize = p.users.len();
        let mut i: usize = 0;
        while i < n
            invariant
                i <= n,
                n == p.users@.len(),
                forall|k: int| 0 <= k < i ==> (#[trigger] p.users@[k])@ != email@,
            decreases n - i,
        {
            if p.users[i].same_as(email) {
                proof {
                    assert(p@.users[i as int]@ == email@);
                }
                return true;
            }
            i = i + 1;
        }
        false
    }

    /// Every currently stored record whose user list contains `email`, in
    /// storage order; possibly empty, never an error.
    pub fn scan_by_email(&self, email: &Email) -> (r: Vec<Pulsar>)
        requires
            self.wf(),
        ensures
            views_of(r@) == self.records_seq().filter(user_filter(email@)),
    {
        let ghost s = self.records_seq();
        let n: usize = self.records.len();
        let mut out: Vec<Pulsar> = Vec::new();
        let mut i: usize = 0;
        proof {
            assert(views_of(out@) =~= s.take(0).filter(user_filter(email@))) by {
                reveal(Seq::filter);
                assert(s.take(0) =~= Seq::<PulsarView>::empty());
            }
        }
        while i < n
            invariant
                i <= n,
                n == s.len(),
                s == self.records_seq(),
                views_of(out@) == s.take(i as int).filter(user_filter(email@)),
            decreases n - i,
        {
            proof {
                reveal(Seq::filter);
                assert(s.take(i + 1).drop_last() =~= s.take(i as int));
                assert(s.take(i + 1).last() == s[i as int]);
                assert(s[i as int] == self.records@[i as int]@);
            }
            let ghost pre = out@;
            if Self::record_has_user(&self.records[i], email) {
                let p = self.records[i].clone();
                out.push(p);
                proof {
                    assert(views_of(out@) =~= views_of(pre).push(self.records@[i as int]@));
                }
            }
            i = i + 1;
        }
        proof {
            assert(s.take(n as int) =~= s);
        }
        out
    }

    /// Removes the record keyed by `id` and reports whether one was there:
    /// in the map view, exactly the key `id` disappears. A second removal of
    /// the same identifier finds nothing.
    pub fn remove(&mut self, id: PulsarId) -> (found: bool)
        requires
            old(self).wf(),
        ensures
            final(self).wf(),
            found == old(self).contents().contains_key(id.0),
            final(self).contents() == old(self).contents().remove(id.0),
            final(self).size() == old(self).size() - (if found {
                1int
            } else {
                0int
            }),
            found ==> final(self).records_seq() == old(self).records_seq().remove(
                index_of_id(old(self).records_seq(), id.0),
            ),
            !found ==> final(self).records_seq() == old(self).records_seq(),
    {
        let found = self.find_index(id);
        match found {
            Some(i) => {
                proof {
                    lemma_contents_at(self.records_seq(), i as int);
                    lemma_contents_remove(self.records_seq(), i as int);
                    let j = index_of_id(self.records_seq(), id.0);
                    assert(0 <= j < self.records_seq().len() && key_of(self.records_seq()[j])
                        == id.0);
                    if (i as int) < j {
                        assert(key_of(self.records_seq()[i as int]) != key_of(
                            self.records_seq()[j],
                        ));
                    } else if j < i as int {
                        assert(key_of(self.records_seq()[j]) != key_of(
                            self.records_seq()[i as int],
                        ));
                    }
                }
                let ghost pre = self.records@;
                self.records.remove(i);
                proof {
                    views_of(pre).remove_ensures(i as int);
                    pre.remove_ensures(i as int);
                    assert(views_of(self.records@) =~= views_of(pre).remove(i as int));
                }
                true
            },
            None => {
                proof {
                    assert(self.contents().remove(id.0) =~= self.contents());
                }
                false
            },
        }
    }
}

} // verus!
