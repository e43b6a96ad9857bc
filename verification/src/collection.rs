//! Ordering and filtering a collection of glyph rasters in place.

use std::collections::HashSet;
use vstd::prelude::*;
use crate::rasterization::{CharRaster, RasterizationProperty};

verus! {

/// The function that reads `property` off a raster.
pub open spec fn property_key(property: RasterizationProperty) -> spec_fn(CharRaster) -> nat {
    |raster: CharRaster| raster@.property(property)
}

/// The function that reads the bitmap off a raster.
pub open spec fn pixels_key() -> spec_fn(CharRaster) -> Seq<u8> {
    |raster: CharRaster| raster@.pixels
}

/// The test whether a raster's `property` is `value`.
pub open spec fn with_value(property: RasterizationProperty, value: nat) -> spec_fn(
    CharRaster,
) -> bool {
    |raster: CharRaster| raster@.property(property) == value
}

/// The rasters' values of `property` never fall from one to the next.
pub open spec fn is_sorted_by(rasters: Seq<CharRaster>, property: RasterizationProperty) -> bool {
    forall|i: int, j: int|
        0 <= i <= j < rasters.len() ==> rasters[i]@.property(property) <= rasters[j]@.property(
            property,
        )
}

/// For each value of `property`, the rasters of that value are the same in
/// both collections and in the same order.
pub open spec fn same_order_within_values(
    a: Seq<CharRaster>,
    b: Seq<CharRaster>,
    property: RasterizationProperty,
) -> bool {
    forall|value: nat| #[trigger]
        a.filter(with_value(property, value)) == b.filter(with_value(property, value))
}

/// `sorted` holds the rasters of `given` in ascending order of
/// `property`, those of one value in the order they had.
pub open spec fn is_stable_sort(
    sorted: Seq<CharRaster>,
    given: Seq<CharRaster>,
    property: RasterizationProperty,
) -> bool {
    &&& sorted.len() == given.len()
    &&& is_sorted_by(sorted, property)
    &&& same_order_within_values(sorted, given, property)
}

/// Some raster of the collection has the key `k`.
pub open spec fn occurs<K>(rasters: Seq<CharRaster>, key: spec_fn(CharRaster) -> K, k: K) -> bool {
    exists|j: int| 0 <= j < rasters.len() && key(#[trigger] rasters[j]) == k
}

/// The rasters whose key no earlier raster has, in order: the first raster
/// of each key.
pub open spec fn first_occurrences<K>(rasters: Seq<CharRaster>, key: spec_fn(CharRaster) -> K) -> Seq<
    CharRaster,
>
    decreases rasters.len(),
{
    if rasters.len() == 0 {
        rasters
    } else {
        let before = first_occurrences(rasters.drop_last(), key);
        if occurs(rasters.drop_last(), key, key(rasters.last())) {
            before
        } else {
            before.push(rasters.last())
        }
    }
}

/// Operations on a collection of glyph rasters.
pub trait RasterManip {
    /// The rasters of the collection, in order.
    spec fn rasters(&self) -> Seq<CharRaster>;

    /// How many rasters `dedup_rasters_by` would drop for `property`.
    fn count_duplicates(&self, property: RasterizationProperty) -> (count: usize)
        ensures
            count == self.rasters().len() - first_occurrences(
                self.rasters(),
                property_key(property),
            ).len(),
    ;

    /// Orders the rasters by `property`, ascending; rasters of the same
    /// value keep their order.
    fn sort_rasters_by(&mut self, property: RasterizationProperty)
        ensures
            is_stable_sort(final(self).rasters(), old(self).rasters(), property),
    ;

    /// Keeps, for each value of `property`, the first raster that has it.
    fn dedup_rasters_by(&mut self, property: RasterizationProperty)
        ensures
            final(self).rasters() == first_occurrences(old(self).rasters(), property_key(property)),
    ;

    /// Keeps, for each bitmap, the first raster that has it.
    fn dedup_exact_duplicate(&mut self)
        ensures
            final(self).rasters() == first_occurrences(old(self).rasters(), pixels_key()),
    ;
}

/// Moving a raster towards the front, past rasters that fail a test which
/// it passes, or where it fails the test itself, leaves the rasters that
/// pass the test as they were.
proof fn lemma_move_keeps_filter(s: Seq<CharRaster>, j: int, i: int, f: spec_fn(CharRaster) -> bool)
    requires
        0 <= j <= i < s.len(),
        f(s[i]) ==> forall|k: int| j <= k < i ==> !f(#[trigger] s[k]),
    ensures
        s.remove(i).insert(j, s[i]).filter(f) == s.filter(f),
{
    let a = s.subrange(0, j);
    let b = s.subrange(j, i);
    let x = seq![s[i]];
    let c = s.subrange(i + 1, s.len() as int);
    assert(s =~= a + b + x + c);
    assert(s.remove(i).insert(j, s[i]) =~= a + x + b + c);
    Seq::filter_distributes_over_add(a, b, f);
    Seq::filter_distributes_over_add(a + b, x, f);
    Seq::filter_distributes_over_add(a + b + x, c, f);
    Seq::filter_distributes_over_add(a, x, f);
    Seq::filter_distributes_over_add(a + x, b, f);
    Seq::filter_distributes_over_add(a + x + b, c, f);
    if f(s[i]) {
        assert(b.all(|e: CharRaster| !f(e))) by {
            assert forall|k: int| 0 <= k < b.len() implies !f(#[trigger] b[k]) by {
                assert(b[k] == s[j + k]);
            }
        }
        b.lemma_all_neg_filter_empty(f);
        assert(b.filter(f) =~= Seq::empty());
    } else {
        let e = Seq::<CharRaster>::empty();
        assert(x =~= e.push(s[i]));
        e.lemma_filter_push(s[i], f);
        e.lemma_filter_len(f);
        assert(x.filter(f) =~= Seq::empty());
    }
    assert(a.filter(f) + b.filter(f) + x.filter(f) + c.filter(f) =~= a.filter(f) + x.filter(f)
        + b.filter(f) + c.filter(f));
}

/// The first raster of a sorted collection is the first of those that
/// have its value, and no raster of a smaller value exists.
proof fn lemma_sorted_head(
    a: Seq<CharRaster>,
    b: Seq<CharRaster>,
    property: RasterizationProperty,
)
    requires
        a.len() > 0,
        a.len() == b.len(),
        is_sorted_by(b, property),
        same_order_within_values(a, b, property),
    ensures
        b[0]@.property(property) <= a[0]@.property(property),
{
    let test = with_value(property, a[0]@.property(property));
    let tail = a.skip(1);
    assert(a =~= seq![a[0]] + tail);
    tail.lemma_filter_prepend(a[0], test);
    assert(a.filter(test)[0] == a[0]);
    assert(b.filter(test) == a.filter(test));
    assert(b.filter(test).contains(a[0]));
    b.lemma_filter_contains_rev(test, a[0]);
    let j = choose|j: int| 0 <= j < b.len() && b[j] == a[0];
    assert(b[0]@.property(property) <= b[j]@.property(property));
}

/// Two sorted collections that hold, for each value, the same rasters in
/// the same order are the same collection.
proof fn lemma_sorted_alike(a: Seq<CharRaster>, b: Seq<CharRaster>, property: RasterizationProperty)
    requires
        a.len() == b.len(),
        is_sorted_by(a, property),
        is_sorted_by(b, property),
        same_order_within_values(a, b, property),
    ensures
        a == b,
    decreases a.len(),
{
    if a.len() == 0 {
        assert(a =~= b);
    } else {
        assert(same_order_within_values(b, a, property)) by {
            assert forall|value: nat| #[trigger]
                b.filter(with_value(property, value)) == a.filter(
                    with_value(property, value),
                ) by {
                assert(a.filter(with_value(property, value)) == b.filter(
                    with_value(property, value),
                ));
            }
        }
        lemma_sorted_head(a, b, property);
        lemma_sorted_head(b, a, property);
        let least = a[0]@.property(property);
        let a_tail = a.skip(1);
        let b_tail = b.skip(1);
        assert(a =~= seq![a[0]] + a_tail);
        assert(b =~= seq![b[0]] + b_tail);
        assert forall|value: nat| #[trigger]
            a_tail.filter(with_value(property, value)) == b_tail.filter(
                with_value(property, value),
            ) by {
            let test = with_value(property, value);
            a_tail.lemma_filter_prepend(a[0], test);
            b_tail.lemma_filter_prepend(b[0], test);
            assert(a.filter(test) == b.filter(test));
            if value == least {
                assert(a.filter(test) == seq![a[0]] + a_tail.filter(test));
                assert(b.filter(test) == seq![b[0]] + b_tail.filter(test));
                assert(a_tail.filter(test) =~= a.filter(test).skip(1));
                assert(b_tail.filter(test) =~= b.filter(test).skip(1));
            } else {
                assert(a.filter(test) =~= a_tail.filter(test));
                assert(b.filter(test) =~= b_tail.filter(test));
            }
        }
        assert(a[0] == b[0]) by {
            let test = with_value(property, least);
            a_tail.lemma_filter_prepend(a[0], test);
            b_tail.lemma_filter_prepend(b[0], test);
            assert(a.filter(test)[0] == a[0]);
            assert(b.filter(test)[0] == b[0]);
        }
        assert(is_sorted_by(a_tail, property)) by {
            assert forall|i: int, j: int| 0 <= i <= j < a_tail.len() implies a_tail[i]@.property(
                property,
            ) <= a_tail[j]@.property(property) by {
                assert(a_tail[i] == a[i + 1] && a_tail[j] == a[j + 1]);
            }
        }
        assert(is_sorted_by(b_tail, property)) by {
            assert forall|i: int, j: int| 0 <= i <= j < b_tail.len() implies b_tail[i]@.property(
                property,
            ) <= b_tail[j]@.property(property) by {
                assert(b_tail[i] == b[i + 1] && b_tail[j] == b[j + 1]);
            }
        }
        lemma_sorted_alike(a_tail, b_tail, property);
        assert(a =~= b);
    }
}

/// A collection has one stable sort only, so sorting twice gives the same
/// order.
pub proof fn lemma_stable_sort_is_determined(
    first: Seq<CharRaster>,
    second: Seq<CharRaster>,
    given: Seq<CharRaster>,
    property: RasterizationProperty,
)
    requires
        is_stable_sort(first, given, property),
        is_stable_sort(second, given, property),
    ensures
        first == second,
{
    assert(same_order_within_values(first, second, property)) by {
        assert forall|value: nat| #[trigger]
            first.filter(with_value(property, value)) == second.filter(
                with_value(property, value),
            ) by {
            assert(first.filter(with_value(property, value)) == given.filter(
                with_value(property, value),
            ));
            assert(second.filter(with_value(property, value)) == given.filter(
                with_value(property, value),
            ));
        }
    }
    lemma_sorted_alike(first, second, property);
}

/// A key occurs among the rasters with one more at the end where it
/// occurred before or is the new raster's.
proof fn lemma_occurs_push<K>(s: Seq<CharRaster>, last: CharRaster, key: spec_fn(CharRaster) -> K, k: K)
    ensures
        occurs(s.push(last), key, k) <==> occurs(s, key, k) || key(last) == k,
{
    let t = s.push(last);
    if occurs(s, key, k) {
        let j = choose|j: int| 0 <= j < s.len() && key(#[trigger] s[j]) == k;
        assert(t[j] == s[j]);
    }
    if key(last) == k {
        assert(t[s.len() as int] == last);
    }
    if occurs(t, key, k) {
        let j = choose|j: int| 0 <= j < t.len() && key(#[trigger] t[j]) == k;
        if j < s.len() {
            assert(s[j] == t[j]);
        }
    }
}

/// Raster `j` is the first of the collection with its key.
pub open spec fn is_first_with_key<K>(rasters: Seq<CharRaster>, key: spec_fn(CharRaster) -> K, j: int) -> bool {
    &&& 0 <= j < rasters.len()
    &&& forall|i: int| 0 <= i < j ==> key(#[trigger] rasters[i]) != key(rasters[j])
}

/// The first occurrences hold every key of the collection, and no other.
pub proof fn lemma_first_occurrences_cover<K>(rasters: Seq<CharRaster>, key: spec_fn(CharRaster) -> K, k: K)
    ensures
        occurs(first_occurrences(rasters, key), key, k) <==> occurs(rasters, key, k),
    decreases rasters.len(),
{
    if rasters.len() > 0 {
        let front = rasters.drop_last();
        let last = rasters.last();
        lemma_first_occurrences_cover(front, key, k);
        lemma_first_occurrences_cover(front, key, key(last));
        assert(rasters =~= front.push(last));
        lemma_occurs_push(front, last, key, k);
        lemma_occurs_push(first_occurrences(front, key), last, key, k);
    }
}

/// No two of the first occurrences have the same key.
pub proof fn lemma_first_occurrences_distinct<K>(rasters: Seq<CharRaster>, key: spec_fn(CharRaster) -> K)
    ensures
        forall|i: int, j: int|
            0 <= i < j < first_occurrences(rasters, key).len() ==> key(
                #[trigger] first_occurrences(rasters, key)[i],
            ) != key(#[trigger] first_occurrences(rasters, key)[j]),
    decreases rasters.len(),
{
    if rasters.len() > 0 {
        let front = rasters.drop_last();
        let last = rasters.last();
        let kept = first_occurrences(front, key);
        lemma_first_occurrences_distinct(front, key);
        lemma_first_occurrences_cover(front, key, key(last));
        if !occurs(front, key, key(last)) {
            let all = kept.push(last);
            assert forall|i: int, j: int| 0 <= i < j < all.len() implies key(#[trigger] all[i])
                != key(#[trigger] all[j]) by {
                if j == kept.len() {
                    assert(all[i] == kept[i]);
                    if key(kept[i]) == key(last) {
                        assert(occurs(kept, key, key(last)));
                    }
                } else {
                    assert(all[i] == kept[i]);
                    assert(all[j] == kept[j]);
                }
            }
        }
    }
}

/// Going from a collection to its front keeps a raster of the front first
/// with its key, and the other way round.
proof fn lemma_first_in_front<K>(rasters: Seq<CharRaster>, key: spec_fn(CharRaster) -> K, j: int)
    requires
        0 <= j < rasters.len() - 1,
    ensures
        is_first_with_key(rasters, key, j) <==> is_first_with_key(rasters.drop_last(), key, j),
{
    let front = rasters.drop_last();
    assert(front[j] == rasters[j]);
    if is_first_with_key(rasters, key, j) {
        assert forall|i: int| 0 <= i < j implies key(#[trigger] front[i]) != key(front[j]) by {
            assert(front[i] == rasters[i]);
        }
    }
    if is_first_with_key(front, key, j) {
        assert forall|i: int| 0 <= i < j implies key(#[trigger] rasters[i]) != key(rasters[j]) by {
            assert(front[i] == rasters[i]);
        }
    }
}

/// The raster that is the first of the collection with its key is among
/// the first occurrences.
pub proof fn lemma_first_is_kept<K>(rasters: Seq<CharRaster>, key: spec_fn(CharRaster) -> K, j: int)
    requires
        is_first_with_key(rasters, key, j),
    ensures
        first_occurrences(rasters, key).contains(rasters[j]),
    decreases rasters.len(),
{
    let front = rasters.drop_last();
    let last = rasters.last();
    let kept = first_occurrences(front, key);
    let all = first_occurrences(rasters, key);
    if j < rasters.len() - 1 {
        lemma_first_in_front(rasters, key, j);
        lemma_first_is_kept(front, key, j);
        let m = choose|m: int| 0 <= m < kept.len() && kept[m] == front[j];
        assert(all[m] == kept[m]);
    } else {
        if occurs(front, key, key(last)) {
            let i = choose|i: int| 0 <= i < front.len() && key(#[trigger] front[i]) == key(last);
            assert(rasters[i] == front[i]);
        }
        assert(all[kept.len() as int] == last);
    }
}

/// Each of the first occurrences is the first raster of the collection
/// with its key: the result is the position of that raster.
pub proof fn lemma_kept_is_first<K>(rasters: Seq<CharRaster>, key: spec_fn(CharRaster) -> K, m: int) -> (j: int)
    requires
        0 <= m < first_occurrences(rasters, key).len(),
    ensures
        is_first_with_key(rasters, key, j),
        rasters[j] == first_occurrences(rasters, key)[m],
    decreases rasters.len(),
{
    let front = rasters.drop_last();
    let last = rasters.last();
    let kept = first_occurrences(front, key);
    let all = first_occurrences(rasters, key);
    if m < kept.len() {
        assert(all[m] == kept[m]);
        let j = lemma_kept_is_first(front, key, m);
        lemma_first_in_front(rasters, key, j);
        assert(rasters[j] == front[j]);
        j
    } else {
        let n = rasters.len() - 1;
        assert(all[m] == last);
        assert forall|i: int| 0 <= i < n implies key(#[trigger] rasters[i]) != key(rasters[n]) by {
            assert(front[i] == rasters[i]);
        }
        n
    }
}

/// Whether two byte vectors hold the same bytes.
fn same_bytes(a: &Vec<u8>, b: &Vec<u8>) -> (same: bool)
    ensures
        same == (a@ == b@),
{
    if a.len() != b.len() {
        return false;
    }
    let mut i: usize = 0;
    while i < a.len()
        invariant
            i <= a@.len(),
            a@.len() == b@.len(),
            a@.take(i as int) == b@.take(i as int),
        decreases a@.len() - i,
    {
        if a[i] != b[i] {
            assert(a@[i as int] != b@[i as int]);
            return false;
        }
        assert(a@.take(i + 1) =~= a@.take(i as int).push(a@[i as int]));
        assert(b@.take(i + 1) =~= b@.take(i as int).push(b@[i as int]));
        i = i + 1;
    }
    assert(a@ =~= a@.take(i as int));
    assert(b@ =~= b@.take(i as int));
    true
}

impl RasterManip for Vec<CharRaster> {
    open spec fn rasters(&self) -> Seq<CharRaster> {
        self@
    }

    fn count_duplicates(&self, property: RasterizationProperty) -> (count: usize) {
        broadcast use vstd::std_specs::hash::group_hash_axioms;

        let ghost key = property_key(property);
        let mut seen: HashSet<usize> = HashSet::new();
        let mut count: usize = 0;
        let mut i: usize = 0;
        while i < self.len()
            invariant
                i <= self@.len(),
                key == property_key(property),
                count == i - first_occurrences(self@.take(i as int), key).len(),
                first_occurrences(self@.take(i as int), key).len() <= i,
                forall|v: usize| seen@.contains(v) <==> occurs(self@.take(i as int), key, v as nat),
            decreases self@.len() - i,
        {
            let value = self[i].get_property(property);
            proof {
                let before = self@.take(i as int);
                let next = self@.take(i + 1);
                assert(next.drop_last() =~= before);
                assert(next =~= before.push(self@[i as int]));
                assert forall|v: usize|
                    seen@.insert(value).contains(v) <==> occurs(next, key, v as nat) by {
                    lemma_occurs_push(before, self@[i as int], key, v as nat);
                }
            }
            if !seen.insert(value) {
                count = count + 1;
            }
            i = i + 1;
        }
        assert(self@.take(i as int) =~= self@);
        count
    }

    fn sort_rasters_by(&mut self, property: RasterizationProperty) {
        let ghost given = self@;
        let mut i: usize = 0;
        while i < self.len()
            invariant
                i <= self@.len(),
                self@.len() == given.len(),
                forall|a: int, b: int|
                    0 <= a <= b < i ==> self@[a]@.property(property) <= self@[b]@.property(
                        property,
                    ),
                same_order_within_values(self@, given, property),
            decreases self@.len() - i,
        {
            let value = self[i].get_property(property);
            let mut j: usize = i;
            while j > 0 && self[j - 1].get_property(property) > value
                invariant
                    j <= i < self@.len(),
                    value == self@[i as int]@.property(property),
                    forall|k: int| j <= k < i ==> self@[k]@.property(property) > value,
                decreases j,
            {
                j = j - 1;
            }
            if j < i {
                let ghost before = self@;
                let moved = self.remove(i);
                self.insert(j, moved);
                proof {
                    assert(self@ == before.remove(i as int).insert(j as int, before[i as int]));
                    assert forall|v: nat| #[trigger]
                        self@.filter(with_value(property, v)) == given.filter(
                            with_value(property, v),
                        ) by {
                        lemma_move_keeps_filter(
                            before,
                            j as int,
                            i as int,
                            with_value(property, v),
                        );
                        assert(before.filter(with_value(property, v)) == given.filter(
                            with_value(property, v),
                        ));
                    }
                    assert forall|a: int, b: int| 0 <= a <= b < i + 1 implies self@[a]@.property(
                        property,
                    ) <= self@[b]@.property(property) by {
                        let pa = if a < j {
                            a
                        } else if a == j {
                            i as int
                        } else {
                            a - 1
                        };
                        let pb = if b < j {
                            b
                        } else if b == j {
                            i as int
                        } else {
                            b - 1
                        };
                        assert(self@[a] == before[pa]);
                        assert(self@[b] == before[pb]);
                    }
                }
            }
            i = i + 1;
        }
    }

    fn dedup_rasters_by(&mut self, property: RasterizationProperty) {
        broadcast use vstd::std_specs::hash::group_hash_axioms;

        let ghost given = self@;
        let ghost key = property_key(property);
        let ghost mut done: int = 0;
        let mut seen: HashSet<usize> = HashSet::new();
        let mut i: usize = 0;
        while i < self.len()
            invariant
                key == property_key(property),
                0 <= done <= given.len(),
                i <= self@.len(),
                self@.len() - i == given.len() - done,
                self@.take(i as int) == first_occurrences(given.take(done), key),
                self@.skip(i as int) == given.skip(done),
                forall|v: usize| seen@.contains(v) <==> occurs(given.take(done), key, v as nat),
            decreases self@.len() - i,
        {
            let value = self[i].get_property(property);
            let ghost current = self@;
            proof {
                let before = given.take(done);
                let next = given.take(done + 1);
                assert(current[i as int] == current.skip(i as int)[0]);
                assert(given[done] == given.skip(done)[0]);
                assert(next.drop_last() =~= before);
                assert(next =~= before.push(given[done]));
                assert forall|v: usize|
                    seen@.insert(value).contains(v) <==> occurs(next, key, v as nat) by {
                    lemma_occurs_push(before, given[done], key, v as nat);
                }
                assert(current.skip(i + 1) =~= given.skip(done + 1)) by {
                    assert(current.skip(i + 1) =~= current.skip(i as int).skip(1));
                    assert(given.skip(done + 1) =~= given.skip(done).skip(1));
                }
            }
            if seen.insert(value) {
                proof {
                    assert(current.take(i + 1) =~= current.take(i as int).push(current[i as int]));
                }
                i = i + 1;
            } else {
                self.remove(i);
                proof {
                    assert(self@.take(i as int) =~= current.take(i as int));
                    assert(self@.skip(i as int) =~= current.skip(i + 1));
                }
            }
            proof {
                done = done + 1;
            }
        }
        proof {
            assert(self@.skip(i as int).len() == 0);
            assert(done == given.len());
            assert(given.take(done) =~= given);
            assert(self@.take(i as int) =~= self@);
        }
    }

    fn dedup_exact_duplicate(&mut self) {
        let ghost given = self@;
        let ghost key = pixels_key();
        let ghost mut done: int = 0;
        let mut i: usize = 0;
        while i < self.len()
            invariant
                key == pixels_key(),
                0 <= done <= given.len(),
                i <= self@.len(),
                self@.len() - i == given.len() - done,
                self@.take(i as int) == first_occurrences(given.take(done), key),
                self@.skip(i as int) == given.skip(done),
                forall|k: Seq<u8>|
                    occurs(self@.take(i as int), key, k) <==> occurs(given.take(done), key, k),
            decreases self@.len() - i,
        {
            let ghost current = self@;
            let ghost kept = current.take(i as int);
            let ghost candidate = current[i as int];
            let mut found = false;
            let mut m: usize = 0;
            while m < i && !found
                invariant
                    m <= i < self@.len(),
                    self@ == current,
                    kept == current.take(i as int),
                    candidate == current[i as int],
                    key == pixels_key(),
                    found ==> occurs(kept, key, key(candidate)),
                    !found ==> !occurs(kept.take(m as int), key, key(candidate)),
                decreases i - m + if found { 0int } else { 1int },
            {
                if same_bytes(self[m].pixels(), self[i].pixels()) {
                    found = true;
                    proof {
                        assert(kept[m as int] == current[m as int]);
                    }
                } else {
                    proof {
                        assert(kept.take(m + 1) =~= kept.take(m as int).push(kept[m as int]));
                        lemma_occurs_push(
                            kept.take(m as int),
                            kept[m as int],
                            key,
                            key(candidate),
                        );
                    }
                    m = m + 1;
                }
            }
            proof {
                if !found {
                    assert(kept.take(m as int) =~= kept);
                }
                let before = given.take(done);
                let next = given.take(done + 1);
                assert(current[i as int] == current.skip(i as int)[0]);
                assert(given[done] == given.skip(done)[0]);
                assert(next.drop_last() =~= before);
                assert(next =~= before.push(given[done]));
                assert(current.skip(i + 1) =~= given.skip(done + 1)) by {
                    assert(current.skip(i + 1) =~= current.skip(i as int).skip(1));
                    assert(given.skip(done + 1) =~= given.skip(done).skip(1));
                }
                assert(found == occurs(before, key, key(candidate)));
                assert forall|k: Seq<u8>|
                    occurs(
                        if found {
                            kept
                        } else {
                            kept.push(candidate)
                        },
                        key,
                        k,
                    ) <==> occurs(next, key, k) by {
                    lemma_occurs_push(before, candidate, key, k);
                    lemma_occurs_push(kept, candidate, key, k);
                }
            }
            if found {
                self.remove(i);
                proof {
                    assert(self@.take(i as int) =~= current.take(i as int));
                    assert(self@.skip(i as int) =~= current.skip(i + 1));
                }
            } else {
                proof {
                    assert(current.take(i + 1) =~= current.take(i as int).push(current[i as int]));
                }
                i = i + 1;
            }
            proof {
                done = done + 1;
            }
        }
        proof {
            assert(self@.skip(i as int).len() == 0);
            assert(done == given.len());
            assert(given.take(done) =~= given);
            assert(self@.take(i as int) =~= self@);
        }
    }
}

} // verus!
