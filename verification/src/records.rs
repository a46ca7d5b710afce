//! Saved records keyed by an id (tunnel rules, saved connections): saving a
//! record replaces any earlier one with the same id and puts it last;
//! deleting drops every record with the id. Other records keep their order.

use vstd::prelude::*;

verus! {

/// A record identified by a text key.
pub trait Keyed: Sized {
    spec fn key_of(&self) -> Seq<char>;

    fn key(&self) -> (k: &String)
        ensures
            k@ == self.key_of(),
    ;
}

/// Keeps the records whose key is not `k`.
pub open spec fn other_keys<T: Keyed>(k: Seq<char>) -> spec_fn(T) -> bool {
    |x: T| x.key_of() != k
}

/// Keeps the records whose key is `k`.
pub open spec fn with_key<T: Keyed>(k: Seq<char>) -> spec_fn(T) -> bool {
    |x: T| x.key_of() == k
}

/// `list` with every record keyed `k` removed, in order.
pub open spec fn without_key<T: Keyed>(list: Seq<T>, k: Seq<char>) -> Seq<T> {
    list.filter(other_keys::<T>(k))
}

/// `list` after saving `item`: earlier records with its key are replaced by
/// `item`, which goes last.
pub open spec fn upserted<T: Keyed>(list: Seq<T>, item: T) -> Seq<T> {
    without_key(list, item.key_of()).push(item)
}

/// Saves `item` into `list` (see [`upserted`]).
pub fn upsert_by_key<T: Keyed>(list: Vec<T>, item: T) -> (r: Vec<T>)
    ensures
        r@ == upserted(list@, item),
{
    let mut r = remove_by_key(list, item.key());
    r.push(item);
    r
}

/// Removes from `list` every record keyed `key`.
pub fn remove_by_key<T: Keyed>(list: Vec<T>, key: &String) -> (r: Vec<T>)
    ensures
        r@ == without_key(list@, key@),
{
    let ghost l = list@;
    let mut out: Vec<T> = Vec::new();
    let mut rest = list;
    let ghost k = key@;
    // Take records from the back, then restore their order.
    let mut taken: Vec<T> = Vec::new();
    while rest.len() > 0
        invariant
            rest@ + taken@.reverse() == l,
        decreases rest.len(),
    {
        let x = rest.pop().unwrap();
        let ghost before = taken@;
        taken.push(x);
        proof {
            assert(taken@.reverse() =~= seq![x] + before.reverse());
        }
    }
    assert(rest@ =~= Seq::<T>::empty());
    assert(taken@.reverse() =~= l);
    assert forall|j: int| 0 <= j < taken@.len() implies #[trigger] taken@[j] == l[l.len() - 1 - j] by {
        assert(taken@.reverse()[l.len() - 1 - j] == taken@[j]);
    }
    while taken.len() > 0
        invariant
            taken@.len() <= l.len(),
            k == key@,
            forall|j: int| 0 <= j < taken@.len() ==> #[trigger] taken@[j] == l[l.len() - 1 - j],
            out@ == without_key(l.take(l.len() - taken@.len()), k),
        decreases taken.len(),
    {
        let ghost m = taken@.len();
        let ghost pos = l.len() - m;
        assert(taken@[m - 1] == l[pos]);
        let x = taken.pop().unwrap();
        proof {
            assert(l.take(pos + 1) =~= l.take(pos).push(x));
            l.take(pos).lemma_filter_push(x, other_keys::<T>(k));
            assert(other_keys::<T>(k)(x) == (x.key_of() != k));
        }
        if !x.key().eq(key) {
            out.push(x);
        }
    }
    assert(l.take(l.len() as int) =~= l);
    out
}

/// After saving `item`, it is the last record, and no other record has its
/// key.
pub proof fn lemma_upsert_unique<T: Keyed>(list: Seq<T>, item: T)
    ensures
        upserted(list, item).last() == item,
        forall|i: int|
            0 <= i < upserted(list, item).len() - 1 ==> (#[trigger] upserted(list, item)[i]).key_of()
                != item.key_of(),
{
    let f = other_keys::<T>(item.key_of());
    assert forall|i: int| 0 <= i < upserted(list, item).len() - 1 implies (
    #[trigger] upserted(list, item)[i]).key_of() != item.key_of() by {
        list.lemma_filter_pred(f, i);
        assert(upserted(list, item)[i] == list.filter(f)[i]);
    }
}

/// Saving the same record twice is the same as saving it once.
pub proof fn lemma_upsert_idempotent<T: Keyed>(list: Seq<T>, item: T)
    ensures
        upserted(upserted(list, item), item) == upserted(list, item),
{
    let f = other_keys::<T>(item.key_of());
    let w = list.filter(f);
    w.lemma_filter_push(item, f);
    lemma_filter_keeps_all(list, f);
}

/// Deleting a record just saved gives what deleting it would have given
/// without the save.
pub proof fn lemma_remove_after_upsert<T: Keyed>(list: Seq<T>, item: T)
    ensures
        without_key(upserted(list, item), item.key_of()) == without_key(list, item.key_of()),
{
    let f = other_keys::<T>(item.key_of());
    let w = list.filter(f);
    w.lemma_filter_push(item, f);
    lemma_filter_keeps_all(list, f);
}

/// Saving or deleting one record leaves the records with any other key, and
/// their order, as they were.
pub proof fn lemma_other_keys_untouched<T: Keyed>(list: Seq<T>, item: T, other: Seq<char>)
    requires
        other != item.key_of(),
    ensures
        upserted(list, item).filter(with_key::<T>(other)) == list.filter(with_key::<T>(other)),
        without_key(list, item.key_of()).filter(with_key::<T>(other)) == list.filter(
            with_key::<T>(other),
        ),
    decreases list.len(),
{
    let f = other_keys::<T>(item.key_of());
    let g = with_key::<T>(other);
    list.filter(f).lemma_filter_push(item, g);
    lemma_filter_commute_keys(list, item.key_of(), other);
}

proof fn lemma_filter_commute_keys<T: Keyed>(list: Seq<T>, k: Seq<char>, other: Seq<char>)
    requires
        other != k,
    ensures
        list.filter(other_keys::<T>(k)).filter(with_key::<T>(other)) == list.filter(
            with_key::<T>(other),
        ),
    decreases list.len(),
{
    let f = other_keys::<T>(k);
    let g = with_key::<T>(other);
    if list.len() > 0 {
        let init = list.drop_last();
        let x = list.last();
        lemma_filter_commute_keys(init, k, other);
        assert(init.push(x) =~= list);
        init.lemma_filter_push(x, f);
        init.lemma_filter_push(x, g);
        init.filter(f).lemma_filter_push(x, g);
    } else {
        reveal(Seq::filter);
    }
}

proof fn lemma_filter_keeps_all<T>(s: Seq<T>, f: spec_fn(T) -> bool)
    ensures
        s.filter(f).filter(f) == s.filter(f),
    decreases s.len(),
{
    if s.len() > 0 {
        let init = s.drop_last();
        let x = s.last();
        lemma_filter_keeps_all(init, f);
        assert(init.push(x) =~= s);
        init.lemma_filter_push(x, f);
        init.filter(f).lemma_filter_push(x, f);
    } else {
        reveal(Seq::filter);
    }
}

} // verus!
