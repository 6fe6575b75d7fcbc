//! Stable sorting by an integer key, and the search for a place in what is sorted.
use vstd::prelude::*;

verus! {

/// What is sorted by an integer.
pub trait Keyed: Sized {
    /// The integer by which a value is sorted.
    spec fn key(&self) -> int;

    /// Whether a value may stand before another.
    fn may_precede(&self, other: &Self) -> (res: bool)
        ensures
            res == (self.key() <= other.key()),
    ;
}

impl Keyed for u128 {
    open spec fn key(&self) -> int {
        *self as int
    }

    fn may_precede(&self, other: &u128) -> (res: bool) {
        *self <= *other
    }
}

/// Whether keys never fall from one value to the next.
pub open spec fn is_sorted<T: Keyed>(s: Seq<T>) -> bool {
    forall|i: int, j: int| 0 <= i <= j < s.len() ==> (#[trigger] s[i]).key() <= (#[trigger]
    s[j]).key()
}

/// Where a value is put into what is sorted: behind the last that may precede it.
pub open spec fn place<T: Keyed>(s: Seq<T>, x: T) -> int
    decreases s.len(),
{
    if s.len() == 0 || s.last().key() <= x.key() {
        s.len() as int
    } else {
        place(s.drop_last(), x)
    }
}

/// The values in the order of their keys; those with one key stay in the order
/// in which they came.
pub open spec fn sorted<T: Keyed>(s: Seq<T>) -> Seq<T>
    decreases s.len(),
{
    if s.len() == 0 {
        seq![]
    } else {
        let before = sorted(s.drop_last());
        before.insert(place(before, s.last()), s.last())
    }
}

pub(crate) proof fn place_is_within<T: Keyed>(s: Seq<T>, x: T)
    ensures
        0 <= place(s, x) <= s.len(),
        place(s, x) > 0 ==> s[place(s, x) - 1].key() <= x.key(),
        forall|i: int| place(s, x) <= i < s.len() ==> (#[trigger] s[i]).key() > x.key(),
    decreases s.len(),
{
    if s.len() > 0 && s.last().key() > x.key() {
        let t = s.drop_last();
        place_is_within(t, x);
        assert forall|i: int| place(s, x) <= i < s.len() implies (#[trigger] s[i]).key()
            > x.key() by {
            if i < t.len() {
                assert(t[i].key() > x.key());
            }
        }
    }
}

/// Sorting leaves keys that never fall.
pub proof fn sorted_is_sorted<T: Keyed>(s: Seq<T>)
    ensures
        is_sorted(sorted(s)),
        sorted(s).len() == s.len(),
    decreases s.len(),
{
    if s.len() > 0 {
        let before = sorted(s.drop_last());
        let x = s.last();
        let at = place(before, x);
        sorted_is_sorted(s.drop_last());
        place_is_within(before, x);
        let after = sorted(s);
        assert forall|i: int, j: int| 0 <= i <= j < after.len() implies (#[trigger] after[i]).key()
            <= (#[trigger] after[j]).key() by {
            let bi = if i > at {
                i - 1
            } else {
                i
            };
            let bj = if j > at {
                j - 1
            } else {
                j
            };
            if i == at {
                assert(after[i] == x);
                if j > at {
                    assert(after[j] == before[bj]);
                }
            } else if j == at {
                assert(after[j] == x);
                assert(after[i] == before[i]);
                assert(before[i].key() <= before[at - 1].key());
            } else {
                assert(after[i] == before[bi]);
                assert(after[j] == before[bj]);
            }
        }
    }
}

/// Sorting neither loses nor adds a value.
pub proof fn sorted_keeps_values<T: Keyed>(s: Seq<T>)
    ensures
        sorted(s).to_multiset() == s.to_multiset(),
    decreases s.len(),
{
    broadcast use vstd::seq_lib::group_to_multiset_ensures;

    if s.len() > 0 {
        let before = sorted(s.drop_last());
        sorted_keeps_values(s.drop_last());
        place_is_within(before, s.last());
        let at = place(before, s.last());
        vstd::seq_lib::to_multiset_insert(before, at, s.last());
        assert(s =~= s.drop_last().push(s.last()));
    } else {
        assert(sorted(s) =~= s);
    }
}

/// Whether a value has a key.
pub open spec fn holds_key<T: Keyed>(s: Seq<T>, key: int) -> bool {
    exists|i: int| 0 <= i < s.len() && (#[trigger] s[i]).key() == key
}

/// Sorting keeps the keys.
pub proof fn sorted_keeps_keys<T: Keyed>(s: Seq<T>, key: int)
    ensures
        holds_key(sorted(s), key) == holds_key(s, key),
{
    broadcast use vstd::seq_lib::group_to_multiset_ensures;

    sorted_is_sorted(s);
    sorted_keeps_values(s);
    let t = sorted(s);
    if holds_key(s, key) {
        let i = choose|i: int| 0 <= i < s.len() && (#[trigger] s[i]).key() == key;
        assert(s.contains(s[i]));
        assert(s.to_multiset().count(s[i]) > 0);
        assert(t.contains(s[i]));
    }
    if holds_key(t, key) {
        let i = choose|i: int| 0 <= i < t.len() && (#[trigger] t[i]).key() == key;
        assert(t.contains(t[i]));
        assert(t.to_multiset().count(t[i]) > 0);
        assert(s.contains(t[i]));
    }
}

proof fn not_before<T: Keyed>(s: Seq<T>, i: int)
    requires
        is_sorted(s),
        forall|key: int| 0 <= key < s.len() ==> holds_key(s, key),
        0 <= i < s.len(),
        0 <= s[i].key() < s.len(),
    ensures
        s[i].key() <= i,
    decreases s[i].key(),
{
    let key = s[i].key();
    if key > 0 {
        assert(holds_key(s, key - 1));
        let before = choose|k: int| 0 <= k < s.len() && (#[trigger] s[k]).key() == key - 1;
        not_before(s, before);
    }
}

proof fn not_behind<T: Keyed>(s: Seq<T>, i: int)
    requires
        is_sorted(s),
        forall|key: int| 0 <= key < s.len() ==> holds_key(s, key),
        0 <= i < s.len(),
        0 <= s[i].key() < s.len(),
    ensures
        i <= s[i].key(),
    decreases s.len() - s[i].key(),
{
    let key = s[i].key();
    if key + 1 < s.len() {
        assert(holds_key(s, key + 1));
        let behind = choose|k: int| 0 <= k < s.len() && (#[trigger] s[k]).key() == key + 1;
        not_behind(s, behind);
    }
}

/// Where every number below their count is the key of some value, sorting puts
/// each value at the place that its key says.
pub proof fn sorted_keys_are_places<T: Keyed>(s: Seq<T>)
    requires
        forall|key: int| 0 <= key < s.len() ==> holds_key(s, key),
    ensures
        forall|i: int| 0 <= i < s.len() ==> (#[trigger] sorted(s)[i]).key() == i,
{
    let t = sorted(s);
    sorted_is_sorted(s);
    assert forall|key: int| 0 <= key < t.len() implies holds_key(t, key) by {
        sorted_keeps_keys(s, key);
        assert(holds_key(s, key));
    }
    assert forall|i: int| 0 <= i < s.len() implies (#[trigger] sorted(s)[i]).key() == i by {
        assert(holds_key(t, i));
        let at = choose|k: int| 0 <= k < t.len() && (#[trigger] t[k]).key() == i;
        not_before(t, at);
        not_behind(t, at);
    }
}

/// The values that have a key, in their order.
pub open spec fn with_key<T: Keyed>(s: Seq<T>, key: int) -> Seq<T>
    decreases s.len(),
{
    if s.len() == 0 {
        seq![]
    } else if s.last().key() == key {
        with_key(s.drop_last(), key).push(s.last())
    } else {
        with_key(s.drop_last(), key)
    }
}

proof fn with_key_concat<T: Keyed>(a: Seq<T>, b: Seq<T>, key: int)
    ensures
        with_key(a + b, key) == with_key(a, key) + with_key(b, key),
    decreases b.len(),
{
    if b.len() == 0 {
        assert(a + b =~= a);
        assert(with_key(a, key) + with_key(b, key) =~= with_key(a, key));
    } else {
        with_key_concat(a, b.drop_last(), key);
        assert((a + b).drop_last() =~= a + b.drop_last());
        assert(with_key(a + b, key) =~= with_key(a, key) + with_key(b, key));
    }
}

proof fn with_key_none<T: Keyed>(s: Seq<T>, key: int)
    requires
        forall|i: int| 0 <= i < s.len() ==> (#[trigger] s[i]).key() != key,
    ensures
        with_key(s, key).len() == 0,
    decreases s.len(),
{
    if s.len() > 0 {
        assert(s[s.len() - 1].key() != key);
        assert forall|i: int| 0 <= i < s.drop_last().len() implies (#[trigger] s.drop_last()[i]).key()
            != key by {
            assert(s[i].key() != key);
        }
        with_key_none(s.drop_last(), key);
    }
}

/// Values with one key stay in the order in which they came.
pub proof fn sorted_is_stable<T: Keyed>(s: Seq<T>, key: int)
    ensures
        with_key(sorted(s), key) == with_key(s, key),
    decreases s.len(),
{
    if s.len() > 0 {
        let before = sorted(s.drop_last());
        let x = s.last();
        let at = place(before, x);
        sorted_is_stable(s.drop_last(), key);
        place_is_within(before, x);
        let left = before.take(at);
        let right = before.skip(at);
        assert(before =~= left + right);
        assert(sorted(s) =~= left.push(x) + right);
        with_key_concat(left, right, key);
        with_key_concat(left.push(x), right, key);
        assert(left.push(x).drop_last() =~= left);
        if x.key() == key {
            assert forall|i: int| 0 <= i < right.len() implies (#[trigger] right[i]).key()
                != key by {
                assert(right[i] == before[at + i]);
            }
            with_key_none(right, key);
            assert(with_key(sorted(s), key) =~= with_key(before, key).push(x));
        }
    }
}

/// The values in the order of their keys.
pub fn sort<T: Keyed>(items: Vec<T>) -> (res: Vec<T>)
    ensures
        res@ == sorted(items@),
{
    let ghost all = items@;
    let mut res: Vec<T> = Vec::new();
    proof {
        assert(all.take(0) =~= seq![]);
    }
    for x in it: items.into_iter()
        invariant
            it.seq() == all,
            res@ == sorted(all.take(it.index())),
    {
        proof {
            assert(all.take(it.index() + 1).drop_last() =~= all.take(it.index()));
            assert(all.take(it.index() + 1).last() == x);
        }
        let mut at: usize = res.len();
        proof {
            assert(res@.take(at as int) =~= res@);
        }
        while at > 0 && !res[at - 1].may_precede(&x)
            invariant
                at <= res.len(),
                place(res@, x) == place(res@.take(at as int), x),
            decreases at,
        {
            proof {
                assert(res@.take(at as int).drop_last() =~= res@.take(at - 1));
            }
            at = at - 1;
        }
        res.insert(at, x);
    }
    proof {
        assert(all.take(all.len() as int) =~= all);
    }
    res
}

/// The first place whose key is no less than a limit, or the length.
pub open spec fn first_from<T: Keyed>(s: Seq<T>, limit: int) -> int
    decreases s.len(),
{
    if s.len() == 0 || s[0].key() >= limit {
        0
    } else {
        1 + first_from(s.skip(1), limit)
    }
}

/// Before the first place that is not below a limit all keys are below it.
pub proof fn first_from_splits<T: Keyed>(s: Seq<T>, limit: int)
    ensures
        0 <= first_from(s, limit) <= s.len(),
        forall|i: int| 0 <= i < first_from(s, limit) ==> (#[trigger] s[i]).key() < limit,
        first_from(s, limit) < s.len() ==> s[first_from(s, limit)].key() >= limit,
    decreases s.len(),
{
    if s.len() > 0 && s[0].key() < limit {
        first_from_splits(s.skip(1), limit);
        assert forall|i: int| 0 <= i < first_from(s, limit) implies (#[trigger] s[i]).key()
            < limit by {
            if i > 0 {
                assert(s[i] == s.skip(1)[i - 1]);
            }
        }
    }
}

/// A place before which all keys are below a limit, and whose own is not, is
/// the first of its kind.
pub proof fn first_from_unique<T: Keyed>(s: Seq<T>, limit: int, at: int)
    requires
        0 <= at <= s.len(),
        forall|i: int| 0 <= i < at ==> (#[trigger] s[i]).key() < limit,
        at < s.len() ==> s[at].key() >= limit,
    ensures
        first_from(s, limit) == at,
{
    first_from_splits(s, limit);
    let f = first_from(s, limit);
    if f < at {
        assert(s[f].key() < limit);
    } else if at < f {
        assert(s[at].key() < limit);
    }
}

} // verus!
