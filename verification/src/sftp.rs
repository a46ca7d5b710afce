//! SFTP directory listings: entries are shown directories first, then by
//! name, keeping the server's order among entries that compare equal.

use vstd::prelude::*;
use crate::text::chars_of;

verus! {

/// One entry of a remote directory.
pub struct FileEntry {
    pub name: String,
    pub is_dir: bool,
    pub size: u64,
}

/// Names compare code point by code point; a proper prefix comes first.
/// (For UTF-8 text this is the byte order that `String`'s `Ord` uses.)
pub open spec fn name_le(a: Seq<char>, b: Seq<char>) -> bool
    decreases a.len(),
{
    if a.len() == 0 {
        true
    } else if b.len() == 0 {
        false
    } else if a[0] != b[0] {
        a[0] < b[0]
    } else {
        name_le(a.drop_first(), b.drop_first())
    }
}

/// `a` may stand before `b` in a listing: a directory before a file, and
/// within each kind by name.
pub open spec fn entry_le(a: FileEntry, b: FileEntry) -> bool {
    (a.is_dir && !b.is_dir) || (a.is_dir == b.is_dir && name_le(a.name@, b.name@))
}

/// Inserts `e` into the ordered `s` after every entry that may stand before it.
pub open spec fn insert_entry(s: Seq<FileEntry>, e: FileEntry) -> Seq<FileEntry>
    decreases s.len(),
{
    if s.len() == 0 {
        seq![e]
    } else if entry_le(s.last(), e) {
        s.push(e)
    } else {
        insert_entry(s.drop_last(), e).push(s.last())
    }
}

/// The listing order: a stable sort by [`entry_le`].
pub open spec fn listing_order(s: Seq<FileEntry>) -> Seq<FileEntry>
    decreases s.len(),
{
    if s.len() == 0 {
        s
    } else {
        insert_entry(listing_order(s.drop_last()), s.last())
    }
}

/// Every entry may stand before every later one.
pub open spec fn is_listing_ordered(s: Seq<FileEntry>) -> bool {
    forall|i: int, j: int| 0 <= i < j < s.len() ==> entry_le(#[trigger] s[i], #[trigger] s[j])
}

/// Name comparison.
fn name_le_exec(a: &String, b: &String) -> (r: bool)
    ensures
        r == name_le(a@, b@),
{
    let x = chars_of(a.as_str());
    let y = chars_of(b.as_str());
    let mut i: usize = 0;
    assert(a@.skip(0) =~= a@);
    assert(b@.skip(0) =~= b@);
    while i < x.len() && i < y.len() && x[i] == y[i]
        invariant
            x@ == a@,
            y@ == b@,
            i <= x@.len(),
            i <= y@.len(),
            name_le(a@, b@) == name_le(a@.skip(i as int), b@.skip(i as int)),
        decreases x.len() - i,
    {
        assert(a@.skip(i as int).drop_first() =~= a@.skip(i + 1));
        assert(b@.skip(i as int).drop_first() =~= b@.skip(i + 1));
        i = i + 1;
    }
    if i == x.len() {
        true
    } else if i == y.len() {
        false
    } else {
        x[i] < y[i]
    }
}

/// Listing comparison (see [`entry_le`]).
pub fn entry_le_exec(a: &FileEntry, b: &FileEntry) -> (r: bool)
    ensures
        r == entry_le(*a, *b),
{
    if a.is_dir != b.is_dir {
        a.is_dir
    } else {
        name_le_exec(&a.name, &b.name)
    }
}

/// Puts a directory listing in display order: directories first, then by
/// name, entries that compare equal keeping their order.
pub fn sort_entries(entries: &mut Vec<FileEntry>)
    ensures
        final(entries)@ == listing_order(old(entries)@),
{
    let ghost orig = entries@;
    let n = entries.len();
    let mut i: usize = 0;
    while i < n
        invariant
            n == orig.len(),
            entries@.len() == n,
            i <= n,
            entries@.take(i as int) == listing_order(orig.take(i as int)),
            entries@.skip(i as int) == orig.skip(i as int),
        decreases n - i,
    {
        let ghost s = entries@.take(i as int);
        let ghost e = orig[i as int];
        assert(entries@[i as int] == e) by {
            assert(entries@.skip(i as int)[0] == orig.skip(i as int)[0]);
        }
        let mut p = i;
        assert(s.take(i as int) =~= s);
        assert(s.skip(i as int) =~= Seq::<FileEntry>::empty());
        assert(insert_entry(s, e) + Seq::<FileEntry>::empty() =~= insert_entry(s, e));
        while p > 0 && !entry_le_exec(&entries[p - 1], &entries[i])
            invariant
                p <= i < n,
                entries@.len() == n,
                s == entries@.take(i as int),
                e == entries@[i as int],
                insert_entry(s, e) == insert_entry(s.take(p as int), e) + s.skip(p as int),
            decreases p,
        {
            proof {
                let t = s.take(p as int);
                assert(t.drop_last() =~= s.take(p - 1));
                assert(t.last() == entries@[p - 1]);
                assert(s.skip(p - 1) =~= seq![t.last()] + s.skip(p as int));
                assert(insert_entry(s.take(p - 1), e).push(t.last()) + s.skip(p as int)
                    =~= insert_entry(s.take(p - 1), e) + s.skip(p - 1));
            }
            p = p - 1;
        }
        proof {
            let t = s.take(p as int);
            if p == 0 {
                assert(insert_entry(t, e) =~= seq![e]);
            } else {
                assert(insert_entry(t, e) == t.push(e));
            }
            assert(orig.take(i + 1).drop_last() =~= orig.take(i as int));
            assert(orig.take(i + 1).last() == e);
        }
        let ghost before = entries@;
        let x = entries.remove(i);
        entries.insert(p, x);
        proof {
            assert(entries@.take(i + 1) =~= s.take(p as int) + seq![e] + s.skip(p as int)) by {
                assert forall|k: int| 0 <= k < i + 1 implies #[trigger] entries@.take(i + 1)[k] == (
                s.take(p as int) + seq![e] + s.skip(p as int))[k] by {
                    if k < p {
                    } else if k == p {
                    } else {
                        assert(entries@[k] == before[k - 1]);
                    }
                }
            }
            assert(insert_entry(s.take(p as int), e) + s.skip(p as int) =~= s.take(p as int)
                + seq![e] + s.skip(p as int)) by {
                if p == 0 {
                    assert(insert_entry(s.take(0), e) =~= seq![e]);
                    assert(s.take(0) =~= Seq::<FileEntry>::empty());
                } else {
                    assert(insert_entry(s.take(p as int), e) == s.take(p as int).push(e));
                }
            }
            assert(entries@.skip(i + 1) =~= orig.skip(i + 1)) by {
                assert forall|k: int| 0 <= k < n - i - 1 implies #[trigger] entries@.skip(i + 1)[k]
                    == orig.skip(i + 1)[k] by {
                    assert(entries@[i + 1 + k] == before[i + 1 + k]);
                    assert(before.skip(i as int)[k + 1] == orig.skip(i as int)[k + 1]);
                }
            }
        }
        i = i + 1;
    }
    assert(entries@.take(n as int) =~= entries@);
    assert(orig.take(n as int) =~= orig);
}

// ---- laws of the listing order ----

proof fn lemma_name_le_total(a: Seq<char>, b: Seq<char>)
    ensures
        name_le(a, b) || name_le(b, a),
    decreases a.len(),
{
    if a.len() > 0 && b.len() > 0 && a[0] == b[0] {
        lemma_name_le_total(a.drop_first(), b.drop_first());
    }
}

proof fn lemma_name_le_trans(a: Seq<char>, b: Seq<char>, c: Seq<char>)
    requires
        name_le(a, b),
        name_le(b, c),
    ensures
        name_le(a, c),
    decreases a.len(),
{
    if a.len() > 0 && b.len() > 0 && c.len() > 0 && a[0] == b[0] && b[0] == c[0] {
        lemma_name_le_trans(a.drop_first(), b.drop_first(), c.drop_first());
    }
}

proof fn lemma_name_le_antisym(a: Seq<char>, b: Seq<char>)
    requires
        name_le(a, b),
        name_le(b, a),
    ensures
        a == b,
    decreases a.len(),
{
    if a.len() > 0 && b.len() > 0 {
        lemma_name_le_antisym(a.drop_first(), b.drop_first());
        assert(a =~= seq![a[0]] + a.drop_first());
        assert(b =~= seq![b[0]] + b.drop_first());
    }
}

/// The listing comparison is a total preorder: any two entries compare, and
/// it is transitive.
pub proof fn lemma_entry_le_total_preorder(a: FileEntry, b: FileEntry, c: FileEntry)
    ensures
        entry_le(a, a),
        entry_le(a, b) || entry_le(b, a),
        entry_le(a, b) && entry_le(b, c) ==> entry_le(a, c),
{
    lemma_name_le_total(a.name@, a.name@);
    lemma_name_le_total(a.name@, b.name@);
    if entry_le(a, b) && entry_le(b, c) && a.is_dir == b.is_dir && b.is_dir == c.is_dir {
        lemma_name_le_trans(a.name@, b.name@, c.name@);
    }
}

proof fn lemma_insert_entry(s: Seq<FileEntry>, e: FileEntry)
    ensures
        insert_entry(s, e).len() == s.len() + 1,
        insert_entry(s, e).to_multiset() == s.to_multiset().insert(e),
        is_listing_ordered(s) ==> is_listing_ordered(insert_entry(s, e)),
    decreases s.len(),
{
    broadcast use vstd::seq_lib::group_to_multiset_ensures;

    let r = insert_entry(s, e);
    if s.len() == 0 {
        assert(r =~= Seq::<FileEntry>::empty().push(e));
    } else if entry_le(s.last(), e) {
        if is_listing_ordered(s) {
            assert forall|i: int, j: int| 0 <= i < j < r.len() implies entry_le(
                #[trigger] r[i],
                #[trigger] r[j],
            ) by {
                if j == s.len() {
                    if i < s.len() - 1 {
                        lemma_entry_le_total_preorder(s[i], s.last(), e);
                    }
                }
            }
        }
    } else {
        let init = s.drop_last();
        let x = s.last();
        lemma_insert_entry(init, e);
        let q = insert_entry(init, e);
        assert(s =~= init.push(x));
        lemma_entry_le_total_preorder(x, e, x);
        if is_listing_ordered(s) {
            assert(is_listing_ordered(init));
            assert forall|k: int| 0 <= k < q.len() implies entry_le(#[trigger] q[k], x) by {
                assert(q.to_multiset().count(q[k]) > 0);
                assert(init.to_multiset().insert(e).count(q[k]) > 0);
                if q[k] != e {
                    assert(init.to_multiset().count(q[k]) > 0);
                    assert(init.contains(q[k]));
                    let m = choose|m: int| 0 <= m < init.len() && init[m] == q[k];
                    assert(s[m] == init[m]);
                }
            }
            assert forall|i: int, j: int| 0 <= i < j < r.len() implies entry_le(
                #[trigger] r[i],
                #[trigger] r[j],
            ) by {
                if j == q.len() {
                    assert(r[i] == q[i]);
                } else {
                    assert(r[i] == q[i]);
                    assert(r[j] == q[j]);
                }
            }
        }
    }
}

/// The listing order is a reordering of the entries (nothing added or
/// lost) and is ordered: directories first, names ascending.
pub proof fn lemma_listing_order_sorted_permutation(s: Seq<FileEntry>)
    ensures
        listing_order(s).len() == s.len(),
        listing_order(s).to_multiset() == s.to_multiset(),
        is_listing_ordered(listing_order(s)),
    decreases s.len(),
{
    broadcast use vstd::seq_lib::group_to_multiset_ensures;

    if s.len() > 0 {
        let init = s.drop_last();
        lemma_listing_order_sorted_permutation(init);
        lemma_insert_entry(listing_order(init), s.last());
        assert(s =~= init.push(s.last()));
    }
}

/// The entries that compare equal to `e` both ways.
pub open spec fn ties_with(e: FileEntry) -> spec_fn(FileEntry) -> bool {
    |y: FileEntry| entry_le(y, e) && entry_le(e, y)
}

proof fn lemma_insert_filter_ties(t: Seq<FileEntry>, x: FileEntry, e: FileEntry)
    ensures
        insert_entry(t, x).filter(ties_with(e)) == (if ties_with(e)(x) {
            t.filter(ties_with(e)).push(x)
        } else {
            t.filter(ties_with(e))
        }),
    decreases t.len(),
{
    let p = ties_with(e);
    if t.len() == 0 {
        assert(t.push(x) =~= seq![x]);
        t.lemma_filter_push(x, p);
    } else if entry_le(t.last(), x) {
        t.lemma_filter_push(x, p);
    } else {
        let init = t.drop_last();
        let l = t.last();
        lemma_insert_filter_ties(init, x, e);
        insert_entry(init, x).lemma_filter_push(l, p);
        init.lemma_filter_push(l, p);
        assert(init.push(l) =~= t);
        if p(x) && p(l) {
            lemma_entry_le_total_preorder(l, e, x);
        }
        if p(x) && !p(l) {
            assert(init.filter(p).push(x) == insert_entry(init, x).filter(p));
        }
    }
}

/// The listing order is stable: the entries that compare equal to any
/// given entry (same kind, same name) come out in the order they came in.
pub proof fn lemma_listing_order_stable(s: Seq<FileEntry>, e: FileEntry)
    ensures
        listing_order(s).filter(ties_with(e)) == s.filter(ties_with(e)),
    decreases s.len(),
{
    let p = ties_with(e);
    if s.len() == 0 {
    } else {
        let init = s.drop_last();
        lemma_listing_order_stable(init, e);
        lemma_insert_filter_ties(listing_order(init), s.last(), e);
        init.lemma_filter_push(s.last(), p);
        assert(init.push(s.last()) =~= s);
    }
}

/// Two entries compare equal both ways only when they are of the same kind
/// and have the same name.
pub proof fn lemma_entry_le_equal_names(a: FileEntry, b: FileEntry)
    requires
        entry_le(a, b),
        entry_le(b, a),
    ensures
        a.is_dir == b.is_dir,
        a.name@ == b.name@,
{
    if a.is_dir == b.is_dir {
        lemma_name_le_antisym(a.name@, b.name@);
    }
}

} // verus!
