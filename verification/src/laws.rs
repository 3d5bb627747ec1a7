//! The registry's laws: how the store operations compose, stated over every
//! store state and proved from the operations' contracts.

use vstd::prelude::*;

use crate::data::PulsarView;
use crate::store::{has_user, index_of_id, key_of, user_filter, RegistryStore};

verus! {

/// Law: stored identifiers are pairwise distinct — two records at different
/// positions of a well-formed store never carry the same identifier.
pub proof fn lemma_stored_ids_distinct(s: RegistryStore, i: int, j: int)
    requires
        s.wf(),
        0 <= i < j < s.records_seq().len(),
    ensures
        key_of(s.records_seq()[i]) != key_of(s.records_seq()[j]),
{
}

/// Law: a record just inserted is found unchanged by a following lookup.
/// `insert` ensures the store's map gained `stored` at its key; `lookup` of
/// that key then returns exactly `stored`.
pub proof fn lemma_create_then_get(pre: RegistryStore, post: RegistryStore, stored: PulsarView)
    requires
        post.contents() == pre.contents().insert(key_of(stored), stored),
    ensures
        post.contents().contains_key(key_of(stored)),
        post.contents()[key_of(stored)] == stored,
{
}

/// Law: a deleted identifier resolves to nothing. `remove` ensures the
/// store's map lost the key, so a following `lookup` reports nothing, and a
/// second removal of the same identifier finds nothing to remove.
pub proof fn lemma_delete_then_get(pre: RegistryStore, post: RegistryStore, id: u128)
    requires
        post.contents() == pre.contents().remove(id),
    ensures
        !post.contents().contains_key(id),
{
}

/// Law: search answers with exactly the stored records serving the email —
/// a record appears in `scan_by_email`'s result if and only if it is stored
/// under its own identifier and its user list contains the email.
pub proof fn lemma_search_exact(s: RegistryStore, email: Seq<char>, p: PulsarView)
    requires
        s.wf(),
    ensures
        s.records_seq().filter(user_filter(email)).contains(p) <==> (p.id is Some
            && s.contents().contains_key(key_of(p)) && s.contents()[key_of(p)] == p && has_user(
            p,
            email,
        )),
{
    let seq = s.records_seq();
    let pred = user_filter(email);
    if seq.filter(pred).contains(p) {
        seq.lemma_filter_contains_rev(pred, p);
        let i = choose|i: int| 0 <= i < seq.len() && seq[i] == p;
        let k = choose|k: int| 0 <= k < seq.filter(pred).len() && seq.filter(pred)[k] == p;
        seq.lemma_filter_pred(pred, k);
        crate::store::lemma_contents_at(seq, i);
    }
    if p.id is Some && s.contents().contains_key(key_of(p)) && s.contents()[key_of(p)] == p
        && has_user(p, email) {
        let i = index_of_id(seq, key_of(p));
        assert(0 <= i < seq.len() && key_of(seq[i]) == key_of(p));
        crate::store::lemma_contents_at(seq, i);
        assert(seq[i] == p);
        seq.lemma_filter_contains(pred, i);
    }
}

/// Law: creating a record whose users contain the email extends the search
/// result by exactly that record; creating one without it leaves the result
/// as it was. (`insert` appends when the fresh identifier keyed nothing,
/// which the generator's uniqueness design guarantees in practice.)
pub proof fn lemma_search_after_insert(s: Seq<PulsarView>, p: PulsarView, email: Seq<char>)
    ensures
        has_user(p, email) ==> s.push(p).filter(user_filter(email)) == s.filter(
            user_filter(email),
        ).push(p),
        !has_user(p, email) ==> s.push(p).filter(user_filter(email)) == s.filter(
            user_filter(email),
        ),
{
    reveal(Seq::filter);
    assert(s.push(p).drop_last() =~= s);
    assert(s.push(p).last() == p);
}

/// Law: when an insertion lands on an already-used identifier and so
/// replaces the record at `i` (the branch a fresh draw never takes in
/// practice), the search result changes only by the two records' own
/// matches: it loses the old record's entry when that record served the
/// email, and gains the new record's entry when the new one does.
pub proof fn lemma_search_after_replace(
    s: Seq<PulsarView>,
    i: int,
    p: PulsarView,
    email: Seq<char>,
)
    requires
        0 <= i < s.len(),
    ensures
        s.update(i, p).filter(user_filter(email)).len() + (if has_user(s[i], email) {
            1int
        } else {
            0int
        }) == s.filter(user_filter(email)).len() + (if has_user(p, email) {
            1int
        } else {
            0int
        }),
{
    let pred = user_filter(email);
    let a = s.subrange(0, i);
    let b = s.subrange(i, i + 1);
    let b2 = seq![p];
    let c = s.subrange(i + 1, s.len() as int);
    assert(s =~= (a + b) + c);
    assert(s.update(i, p) =~= (a + b2) + c);
    Seq::filter_distributes_over_add(a + b, c, pred);
    Seq::filter_distributes_over_add(a, b, pred);
    Seq::filter_distributes_over_add(a + b2, c, pred);
    Seq::filter_distributes_over_add(a, b2, pred);
    assert(b =~= seq![s[i]]);
    reveal_with_fuel(Seq::filter, 2);
    assert(seq![s[i]].drop_last() =~= Seq::<PulsarView>::empty());
    assert(b2.drop_last() =~= Seq::<PulsarView>::empty());
    assert(seq![s[i]].filter(pred).len() == (if pred(s[i]) {
        1int
    } else {
        0int
    }));
    assert(b2.filter(pred).len() == (if pred(p) {
        1int
    } else {
        0int
    }));
}

/// Law: deleting a stored record shrinks the search result by one entry when
/// the record served the email, and by none otherwise.
pub proof fn lemma_search_after_remove(s: Seq<PulsarView>, i: int, email: Seq<char>)
    requires
        0 <= i < s.len(),
    ensures
        s.remove(i).filter(user_filter(email)).len() + (if has_user(s[i], email) {
            1int
        } else {
            0int
        }) == s.filter(user_filter(email)).len(),
{
    let pred = user_filter(email);
    let a = s.subrange(0, i);
    let b = s.subrange(i, i + 1);
    let c = s.subrange(i + 1, s.len() as int);
    assert(s =~= (a + b) + c);
    assert(s.remove(i) =~= a + c);
    Seq::filter_distributes_over_add(a + b, c, pred);
    Seq::filter_distributes_over_add(a, b, pred);
    Seq::filter_distributes_over_add(a, c, pred);
    assert(b =~= seq![s[i]]);
    reveal_with_fuel(Seq::filter, 2);
    assert(seq![s[i]].drop_last() =~= Seq::<PulsarView>::empty());
    assert(seq![s[i]].filter(pred).len() == (if pred(s[i]) {
        1int
    } else {
        0int
    }));
}

} // verus!
