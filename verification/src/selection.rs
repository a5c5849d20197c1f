//! Which files of a directory become frames, and in what order.

use vstd::prelude::*;

verus! {

/// Whether a file name has the extension `jpg`: it ends in `.jpg`, after at least one other byte.
pub open spec fn is_jpg(name: Seq<u8>) -> bool {
    let n = name.len();
    &&& n > 4
    &&& name[n - 4] == 0x2e && name[n - 3] == 0x6a && name[n - 2] == 0x70 && name[n - 1] == 0x67
}

/// Whether a file name has the extension `jpg`.
pub fn has_jpg_extension(name: &Vec<u8>) -> (jpg: bool)
    ensures
        jpg == is_jpg(name@),
{
    let n: usize = name.len();
    n > 4 && name[n - 4] == 0x2e && name[n - 3] == 0x6a && name[n - 2] == 0x70 && name[n - 1]
        == 0x67
}

/// The alphabetical order of byte strings, strictly: at the first difference `a` has the smaller
/// byte, or `a` ends there.
pub open spec fn alphabetic(a: Seq<u8>, b: Seq<u8>) -> bool
    decreases a.len(),
{
    if b.len() == 0 {
        false
    } else if a.len() == 0 {
        true
    } else {
        a[0] < b[0] || a[0] == b[0] && alphabetic(a.drop_first(), b.drop_first())
    }
}

/// Exactly one of two different byte strings comes first.
pub proof fn alphabetic_is_total(a: Seq<u8>, b: Seq<u8>)
    ensures
        alphabetic(a, b) || alphabetic(b, a) || a == b,
        !(alphabetic(a, b) && alphabetic(b, a)),
        a == b ==> !alphabetic(a, b),
    decreases a.len(),
{
    if a.len() == 0 && b.len() == 0 {
        assert(a =~= b);
    } else if a.len() > 0 && b.len() > 0 {
        alphabetic_is_total(a.drop_first(), b.drop_first());
        if a[0] == b[0] && a.drop_first() == b.drop_first() {
            assert(a =~= seq![a[0]] + a.drop_first());
            assert(b =~= seq![b[0]] + b.drop_first());
        }
    }
}

/// What comes before something comes before all that follows it.
pub proof fn alphabetic_is_transitive(a: Seq<u8>, b: Seq<u8>, c: Seq<u8>)
    requires
        alphabetic(a, b),
        alphabetic(b, c),
    ensures
        alphabetic(a, c),
    decreases a.len(),
{
    if a.len() > 0 && a[0] == b[0] && b[0] == c[0] {
        alphabetic_is_transitive(a.drop_first(), b.drop_first(), c.drop_first());
    }
}

/// Whether `a` comes before `b` in alphabetical order.
fn comes_first(a: &Vec<u8>, b: &Vec<u8>) -> (first: bool)
    ensures
        first == alphabetic(a@, b@),
{
    let mut i: usize = 0;
    proof {
        assert(a@.skip(0) =~= a@);
        assert(b@.skip(0) =~= b@);
    }
    while i < a.len() && i < b.len() && a[i] == b[i]
        invariant
            i <= a@.len(),
            i <= b@.len(),
            alphabetic(a@, b@) == alphabetic(a@.skip(i as int), b@.skip(i as int)),
        decreases a@.len() - i,
    {
        proof {
            assert(a@.skip(i as int).drop_first() =~= a@.skip(i + 1));
            assert(b@.skip(i as int).drop_first() =~= b@.skip(i + 1));
        }
        i = i + 1;
    }
    i < b.len() && (i == a.len() || a[i] < b[i])
}

/// Whether the name at index `i` is to stand before the name at index `j`: alphabetically, and
/// names that are the same in the order in which they were given.
pub open spec fn precedes(names: Seq<Vec<u8>>, i: usize, j: usize) -> bool {
    ||| alphabetic(names[i as int]@, names[j as int]@)
    ||| names[i as int]@ == names[j as int]@ && i < j
}

/// Whether indices stand in the order of the names that they point to.
pub open spec fn in_order(names: Seq<Vec<u8>>, indices: Seq<usize>) -> bool {
    forall|i: int, j: int|
        0 <= i < j < indices.len() ==> precedes(names, #[trigger] indices[i], #[trigger] indices[j])
}

pub open spec fn within(names: Seq<Vec<u8>>, indices: Seq<usize>) -> bool {
    forall|i: int| 0 <= i < indices.len() ==> #[trigger] indices[i] < names.len()
}

/// Whether `order` lists every image among the names once, and nothing else, in order.
pub open spec fn lists_images(names: Seq<Vec<u8>>, order: Seq<usize>) -> bool {
    &&& within(names, order)
    &&& forall|i: int| 0 <= i < order.len() ==> is_jpg(names[#[trigger] order[i] as int]@)
    &&& forall|k: usize|
        k < names.len() && is_jpg(#[trigger] names[k as int]@) ==> order.contains(k)
    &&& in_order(names, order)
}

/// `precedes` is a strict order.
proof fn lemma_precedes(names: Seq<Vec<u8>>, i: usize, j: usize, k: usize)
    ensures
        precedes(names, i, j) && precedes(names, j, k) ==> precedes(names, i, k),
        i != j ==> precedes(names, i, j) || precedes(names, j, i),
        !(precedes(names, i, j) && precedes(names, j, i)),
{
    let (a, b, c) = (names[i as int]@, names[j as int]@, names[k as int]@);
    alphabetic_is_total(a, b);
    alphabetic_is_total(b, c);
    alphabetic_is_total(a, c);
    if alphabetic(a, b) && alphabetic(b, c) {
        alphabetic_is_transitive(a, b, c);
    }
}

/// What a sequence holds after one more element was put at its end.
proof fn lemma_push_contains(items: Seq<usize>, item: usize)
    ensures
        forall|k: usize| #[trigger] items.push(item).contains(k) <==> items.contains(k) || k == item,
{
    assert forall|k: usize| #[trigger] items.push(item).contains(k) <==> items.contains(k) || k
        == item by {
        if items.contains(k) {
            let i = choose|i: int| 0 <= i < items.len() && items[i] == k;
            assert(items.push(item)[i] == k);
        }
        if k == item {
            assert(items.push(item)[items.len() as int] == k);
        }
        if items.push(item).contains(k) {
            let i = choose|i: int| 0 <= i < items.len() + 1 && items.push(item)[i] == k;
            if i < items.len() {
                assert(items[i] == k);
            }
        }
    }
}

/// What the start of a sequence holds when it is one element longer.
proof fn lemma_take_contains(items: Seq<usize>, i: int)
    requires
        0 <= i < items.len(),
    ensures
        forall|k: usize| #[trigger]
            items.take(i + 1).contains(k) <==> items.take(i).contains(k) || k == items[i],
{
    assert(items.take(i + 1) =~= items.take(i).push(items[i]));
    lemma_push_contains(items.take(i), items[i]);
}

/// Whether every element of `done` is to stand before every element of `rest` from `from` on.
spec fn all_precede(names: Seq<Vec<u8>>, done: Seq<usize>, rest: Seq<usize>, from: int) -> bool {
    forall|i: int, j: int|
        0 <= i < done.len() && from <= j < rest.len() ==> precedes(
            names,
            #[trigger] done[i],
            #[trigger] rest[j],
        )
}

/// After `done` was followed by the element at `from`, which stands before the others of `rest`
/// and of `other`.
proof fn lemma_push_keeps_order(
    names: Seq<Vec<u8>>,
    done: Seq<usize>,
    rest: Seq<usize>,
    from: int,
    other: Seq<usize>,
    other_from: int,
)
    requires
        0 <= from < rest.len(),
        0 <= other_from <= other.len(),
        in_order(names, done),
        in_order(names, rest),
        in_order(names, other),
        all_precede(names, done, rest, from),
        all_precede(names, done, other, other_from),
        other_from < other.len() ==> precedes(names, rest[from], other[other_from]),
    ensures
        in_order(names, done.push(rest[from])),
        all_precede(names, done.push(rest[from]), rest, from + 1),
        all_precede(names, done.push(rest[from]), other, other_from),
{
    let item = rest[from];
    let next = done.push(item);
    assert forall|i: int, j: int| 0 <= i < next.len() && other_from <= j < other.len() implies
        precedes(names, #[trigger] next[i], #[trigger] other[j]) by {
        if i == done.len() {
            if j > other_from {
                assert(precedes(names, other[other_from], other[j]));
                lemma_precedes(names, item, other[other_from], other[j]);
            }
        } else {
            assert(next[i] == done[i]);
        }
    }
    assert forall|i: int, j: int| 0 <= i < next.len() && from + 1 <= j < rest.len() implies
        precedes(names, #[trigger] next[i], #[trigger] rest[j]) by {
        if i < done.len() {
            assert(next[i] == done[i]);
        }
    }
    assert forall|i: int, j: int| 0 <= i < j < next.len() implies precedes(
        names,
        #[trigger] next[i],
        #[trigger] next[j],
    ) by {
        assert(next[i] == done[i]);
        if j < done.len() {
            assert(next[j] == done[j]);
        } else {
            assert(precedes(names, done[i], rest[from]));
        }
    }
}

/// Whether the name at index `i` is to stand before the name at index `j`.
fn stands_before(names: &Vec<Vec<u8>>, i: usize, j: usize) -> (before: bool)
    requires
        i < names@.len(),
        j < names@.len(),
    ensures
        before == precedes(names@, i, j),
{
    proof {
        alphabetic_is_total(names@[i as int]@, names@[j as int]@);
    }
    comes_first(&names[i], &names[j]) || i < j && !comes_first(&names[j], &names[i])
}

/// Merges two lists of indices that are in order.
fn merge(names: &Vec<Vec<u8>>, left: &Vec<usize>, right: &Vec<usize>) -> (merged: Vec<usize>)
    requires
        within(names@, left@),
        within(names@, right@),
        in_order(names@, left@),
        in_order(names@, right@),
        forall|i: int, j: int|
            0 <= i < left@.len() && 0 <= j < right@.len() ==> #[trigger] left@[i]
                != #[trigger] right@[j],
    ensures
        in_order(names@, merged@),
        forall|k: usize| #[trigger]
            merged@.contains(k) <==> left@.contains(k) || right@.contains(k),
{
    let mut merged: Vec<usize> = Vec::new();
    let mut i: usize = 0;
    let mut j: usize = 0;
    while i < left.len() || j < right.len()
        invariant
            i <= left@.len(),
            j <= right@.len(),
            within(names@, left@),
            within(names@, right@),
            in_order(names@, left@),
            in_order(names@, right@),
            forall|a: int, b: int|
                0 <= a < left@.len() && 0 <= b < right@.len() ==> #[trigger] left@[a]
                    != #[trigger] right@[b],
            in_order(names@, merged@),
            all_precede(names@, merged@, left@, i as int),
            all_precede(names@, merged@, right@, j as int),
            forall|k: usize| #[trigger]
                merged@.contains(k) <==> left@.take(i as int).contains(k) || right@.take(
                    j as int,
                ).contains(k),
        decreases left@.len() - i + right@.len() - j,
    {
        let take_left = j == right.len() || i < left.len() && stands_before(
            names,
            left[i],
            right[j],
        );
        if take_left {
            proof {
                lemma_push_keeps_order(names@, merged@, left@, i as int, right@, j as int);
                lemma_push_contains(merged@, left@[i as int]);
                lemma_take_contains(left@, i as int);
            }
            merged.push(left[i]);
            i = i + 1;
        } else {
            proof {
                if i < left@.len() {
                    lemma_precedes(names@, left@[i as int], right@[j as int], 0);
                }
                lemma_push_keeps_order(names@, merged@, right@, j as int, left@, i as int);
                lemma_push_contains(merged@, right@[j as int]);
                lemma_take_contains(right@, j as int);
            }
            merged.push(right[j]);
            j = j + 1;
        }
    }
    proof {
        assert(left@.take(i as int) =~= left@);
        assert(right@.take(j as int) =~= right@);
    }
    merged
}

/// The indices from `low` to `high` of a list without repetitions, put in order.
fn sorted(names: &Vec<Vec<u8>>, indices: &Vec<usize>, low: usize, high: usize) -> (order: Vec<
    usize,
>)
    requires
        low <= high <= indices@.len(),
        within(names@, indices@),
        indices@.no_duplicates(),
    ensures
        in_order(names@, order@),
        forall|k: usize| #[trigger]
            order@.contains(k) <==> indices@.subrange(low as int, high as int).contains(k),
    decreases high - low,
{
    let ghost range = indices@.subrange(low as int, high as int);
    if high - low <= 1 {
        let mut order: Vec<usize> = Vec::new();
        if low < high {
            order.push(indices[low]);
        }
        proof {
            assert(order@ =~= range);
        }
        return order;
    }
    let middle: usize = low + (high - low) / 2;
    let left = sorted(names, indices, low, middle);
    let right = sorted(names, indices, middle, high);
    let ghost first = indices@.subrange(low as int, middle as int);
    let ghost second = indices@.subrange(middle as int, high as int);
    proof {
        assert forall|i: int| 0 <= i < left@.len() implies #[trigger] left@[i] < names@.len() by {
            assert(left@.contains(left@[i]));
            let a = choose|a: int| 0 <= a < first.len() && first[a] == left@[i];
            assert(first[a] == indices@[low + a]);
        }
        assert forall|i: int| 0 <= i < right@.len() implies #[trigger] right@[i] < names@.len() by {
            assert(right@.contains(right@[i]));
            let a = choose|a: int| 0 <= a < second.len() && second[a] == right@[i];
            assert(second[a] == indices@[middle + a]);
        }
        assert forall|i: int, j: int| 0 <= i < left@.len() && 0 <= j < right@.len() implies
            #[trigger] left@[i] != #[trigger] right@[j] by {
            assert(left@.contains(left@[i]));
            assert(right@.contains(right@[j]));
            let a = choose|a: int| 0 <= a < first.len() && first[a] == left@[i];
            let b = choose|b: int| 0 <= b < second.len() && second[b] == right@[j];
            assert(first[a] == indices@[low + a]);
            assert(second[b] == indices@[middle + b]);
        }
    }
    let order = merge(names, &left, &right);
    proof {
        assert forall|k: usize| #[trigger] order@.contains(k) <==> range.contains(k) by {
            if first.contains(k) {
                let a = choose|a: int| 0 <= a < first.len() && first[a] == k;
                assert(range[a] == k);
            }
            if second.contains(k) {
                let a = choose|a: int| 0 <= a < second.len() && second[a] == k;
                assert(range[middle - low + a] == k);
            }
            if range.contains(k) {
                let a = choose|a: int| 0 <= a < range.len() && range[a] == k;
                if a < middle - low {
                    assert(first[a] == k);
                } else {
                    assert(second[a - (middle - low)] == k);
                }
            }
            assert(order@.contains(k) <==> left@.contains(k) || right@.contains(k));
            assert(left@.contains(k) <==> first.contains(k));
            assert(right@.contains(k) <==> second.contains(k));
        }
    }
    order
}

/// The images among the names of a directory's entries, in alphabetical order: names that start
/// with a time stamp come out in the order of time.
pub fn image_order(names: &Vec<Vec<u8>>) -> (order: Vec<usize>)
    ensures
        lists_images(names@, order@),
{
    let mut images: Vec<usize> = Vec::new();
    let mut i: usize = 0;
    while i < names.len()
        invariant
            i <= names@.len(),
            within(names@, images@),
            forall|k: int| 0 <= k < images@.len() ==> (#[trigger] images@[k]) < i,
            forall|k: int| 0 <= k < images@.len() ==> is_jpg(names@[#[trigger] images@[k] as int]@),
            forall|k: usize|
                k < i && is_jpg(#[trigger] names@[k as int]@) ==> images@.contains(k),
            images@.no_duplicates(),
        decreases names@.len() - i,
    {
        if has_jpg_extension(&names[i]) {
            proof {
                lemma_push_contains(images@, i);
            }
            images.push(i);
        }
        i = i + 1;
    }
    let order = sorted(names, &images, 0, images.len());
    proof {
        assert(images@.subrange(0, images@.len() as int) =~= images@);
        assert forall|k: int| 0 <= k < order@.len() implies #[trigger] order@[k] < names@.len()
            && is_jpg(names@[order@[k] as int]@) by {
            assert(order@.contains(order@[k]));
            let a = choose|a: int| 0 <= a < images@.len() && images@[a] == order@[k];
            assert(images@[a] < names@.len());
        }
    }
    order
}

/// The names that indices point to.
pub open spec fn names_at(names: Seq<Vec<u8>>, order: Seq<usize>) -> Seq<Seq<u8>> {
    Seq::new(order.len(), |i: int| names[order[i] as int]@)
}

pub open spec fn alphabetical(items: Seq<Seq<u8>>) -> bool {
    forall|i: int, j: int|
        0 <= i < j < items.len() ==> alphabetic(#[trigger] items[i], #[trigger] items[j])
}

/// Whether no image has the name of another, as in a directory.
pub open spec fn images_differ(names: Seq<Vec<u8>>) -> bool {
    forall|i: int, j: int|
        0 <= i < j < names.len() && is_jpg((#[trigger] names[i])@) ==> names[i]@
            != (#[trigger] names[j])@
}

pub open spec fn has_name(names: Seq<Vec<u8>>, name: Seq<u8>) -> bool {
    exists|i: int| 0 <= i < names.len() && (#[trigger] names[i])@ == name
}

/// Whether two listings have images of the same names.
pub open spec fn same_images(names: Seq<Vec<u8>>, others: Seq<Vec<u8>>) -> bool {
    forall|x: Seq<u8>| is_jpg(x) ==> (#[trigger] has_name(names, x) <==> has_name(others, x))
}

/// Two alphabetical lists of the same strings are the same list.
pub proof fn alphabetical_list_is_unique(a: Seq<Seq<u8>>, b: Seq<Seq<u8>>)
    requires
        alphabetical(a),
        alphabetical(b),
        forall|x: Seq<u8>| #[trigger] a.contains(x) <==> b.contains(x),
    ensures
        a == b,
    decreases a.len(),
{
    if a.len() == 0 {
        if b.len() > 0 {
            assert(b.contains(b[0]));
            assert(a.contains(b[0]));
        }
        assert(a =~= b);
    } else {
        assert(a.contains(a.last()));
        assert(b.contains(a.last()));
        let j = choose|j: int| 0 <= j < b.len() && b[j] == a.last();
        assert(b.contains(b.last()));
        assert(a.contains(b.last()));
        let i = choose|i: int| 0 <= i < a.len() && a[i] == b.last();
        if i < a.len() - 1 && j < b.len() - 1 {
            assert(alphabetic(a[i], a[a.len() - 1]));
            assert(alphabetic(b[j], b[b.len() - 1]));
            alphabetic_is_total(a.last(), b.last());
        }
        assert(a.last() == b.last());
        let (c, d) = (a.drop_last(), b.drop_last());
        assert forall|x: Seq<u8>| #[trigger] c.contains(x) <==> d.contains(x) by {
            alphabetic_is_total(x, a.last());
            if c.contains(x) {
                let k = choose|k: int| 0 <= k < c.len() && c[k] == x;
                assert(a[k] == x);
                assert(a.contains(x));
                assert(b.contains(x));
                let m = choose|m: int| 0 <= m < b.len() && b[m] == x;
                assert(alphabetic(a[k], a[a.len() - 1]));
                assert(d[m] == x);
            }
            if d.contains(x) {
                let k = choose|k: int| 0 <= k < d.len() && d[k] == x;
                assert(b[k] == x);
                assert(a.contains(x));
                let m = choose|m: int| 0 <= m < a.len() && a[m] == x;
                assert(alphabetic(b[k], b[b.len() - 1]));
                assert(c[m] == x);
            }
        }
        alphabetical_list_is_unique(c, d);
        assert(a =~= c.push(a.last()));
        assert(b =~= d.push(b.last()));
    }
}

/// The frames of different names stand in alphabetical order, and are the images by name.
proof fn lemma_frame_names(names: Seq<Vec<u8>>, order: Seq<usize>)
    requires
        names.len() <= usize::MAX,
        images_differ(names),
        lists_images(names, order),
    ensures
        alphabetical(names_at(names, order)),
        forall|x: Seq<u8>| #[trigger]
            names_at(names, order).contains(x) <==> has_name(names, x) && is_jpg(x),
{
    let frames = names_at(names, order);
    assert forall|i: int, j: int| 0 <= i < j < frames.len() implies alphabetic(
        #[trigger] frames[i],
        #[trigger] frames[j],
    ) by {
        assert(precedes(names, order[i], order[j]));
        if !alphabetic(frames[i], frames[j]) {
            assert(order[j] < names.len());
            assert(names[order[i] as int]@ != names[order[j] as int]@);
        }
    }
    assert forall|x: Seq<u8>| #[trigger] frames.contains(x) <==> has_name(names, x)
        && is_jpg(x) by {
        if frames.contains(x) {
            let i = choose|i: int| 0 <= i < frames.len() && frames[i] == x;
            assert(order[i] < names.len());
            assert(names[order[i] as int]@ == x);
        }
        if has_name(names, x) && is_jpg(x) {
            let k = choose|k: int| 0 <= k < names.len() && (#[trigger] names[k])@ == x;
            assert(is_jpg(names[(k as usize) as int]@));
            let i = choose|i: int| 0 <= i < order.len() && order[i] == k as usize;
            assert(frames[i] == x);
        }
    }
}

/// The order of the frames does not depend on the order in which the directory lists its
/// entries, nor on the entries that are no images.
pub proof fn listing_order_does_not_matter(
    listing: Seq<Vec<u8>>,
    order: Seq<usize>,
    other_listing: Seq<Vec<u8>>,
    other_order: Seq<usize>,
)
    requires
        listing.len() <= usize::MAX,
        other_listing.len() <= usize::MAX,
        images_differ(listing),
        images_differ(other_listing),
        same_images(listing, other_listing),
        lists_images(listing, order),
        lists_images(other_listing, other_order),
    ensures
        names_at(listing, order) == names_at(other_listing, other_order),
{
    lemma_frame_names(listing, order);
    lemma_frame_names(other_listing, other_order);
    let (a, b) = (names_at(listing, order), names_at(other_listing, other_order));
    assert forall|x: Seq<u8>| #[trigger] a.contains(x) <==> b.contains(x) by {
        assert(a.contains(x) <==> has_name(listing, x) && is_jpg(x));
        assert(b.contains(x) <==> has_name(other_listing, x) && is_jpg(x));
        assert(is_jpg(x) ==> (has_name(listing, x) <==> has_name(other_listing, x)));
    }
    alphabetical_list_is_unique(a, b);
}

/// No frame is listed twice.
pub proof fn frames_are_distinct(names: Seq<Vec<u8>>, order: Seq<usize>)
    requires
        lists_images(names, order),
    ensures
        order.no_duplicates(),
{
    assert forall|i: int, j: int| 0 <= i < j < order.len() implies order[i] != order[j] by {
        lemma_precedes(names, order[i], order[j], 0);
        assert(precedes(names, order[i], order[j]));
        alphabetic_is_total(names[order[i] as int]@, names[order[j] as int]@);
    }
}

/// The number that a string of decimal digits in ASCII denotes.
pub open spec fn stamp_value(digits: Seq<u8>) -> nat
    decreases digits.len(),
{
    if digits.len() == 0 {
        0
    } else {
        (stamp_value(digits.drop_last()) * 10 + (digits.last() - 0x30)) as nat
    }
}

pub open spec fn is_stamp(digits: Seq<u8>) -> bool {
    forall|i: int| 0 <= i < digits.len() ==> 0x30 <= #[trigger] digits[i] <= 0x39
}

/// Strings of the same length differ first where one comes before the other, or at their ends.
proof fn lemma_alphabetic_push(a: Seq<u8>, b: Seq<u8>, x: u8, y: u8)
    requires
        a.len() == b.len(),
    ensures
        alphabetic(a.push(x), b.push(y)) <==> alphabetic(a, b) || a == b && x < y,
    decreases a.len(),
{
    let (c, d) = (a.push(x), b.push(y));
    if a.len() == 0 {
        assert(a =~= b);
        assert(!alphabetic(c.drop_first(), d.drop_first()));
    } else {
        assert(c.drop_first() =~= a.drop_first().push(x));
        assert(d.drop_first() =~= b.drop_first().push(y));
        lemma_alphabetic_push(a.drop_first(), b.drop_first(), x, y);
        if a[0] == b[0] && a.drop_first() == b.drop_first() {
            assert(a =~= seq![a[0]] + a.drop_first());
            assert(b =~= seq![b[0]] + b.drop_first());
        }
    }
}

/// Time stamps of the same width stand in the order of the times that they denote.
proof fn lemma_stamps(a: Seq<u8>, b: Seq<u8>)
    requires
        a.len() == b.len(),
        is_stamp(a),
        is_stamp(b),
    ensures
        alphabetic(a, b) <==> stamp_value(a) < stamp_value(b),
        a == b <==> stamp_value(a) == stamp_value(b),
    decreases a.len(),
{
    if a.len() == 0 {
        assert(a =~= b);
    } else {
        let (c, d) = (a.drop_last(), b.drop_last());
        assert(a =~= c.push(a.last()));
        assert(b =~= d.push(b.last()));
        assert(0x30 <= a[a.len() - 1] <= 0x39);
        assert(0x30 <= b[b.len() - 1] <= 0x39);
        lemma_stamps(c, d);
        lemma_alphabetic_push(c, d, a.last(), b.last());
    }
}

/// What follows the first difference does not matter.
proof fn lemma_alphabetic_prefix(a: Seq<u8>, b: Seq<u8>, width: int)
    requires
        0 <= width <= a.len(),
        width <= b.len(),
        alphabetic(a.take(width), b.take(width)),
    ensures
        alphabetic(a, b),
    decreases width,
{
    if width > 0 && a[0] == b[0] {
        assert(a.take(width).drop_first() =~= a.drop_first().take(width - 1));
        assert(b.take(width).drop_first() =~= b.drop_first().take(width - 1));
        lemma_alphabetic_prefix(a.drop_first(), b.drop_first(), width - 1);
    }
}

/// Alphabetical order is the order of time for names that start with decimal time stamps of one
/// width.
pub proof fn alphabetical_order_is_chronological(a: Seq<u8>, b: Seq<u8>, width: int)
    requires
        0 <= width <= a.len(),
        width <= b.len(),
        is_stamp(a.take(width)),
        is_stamp(b.take(width)),
        stamp_value(a.take(width)) < stamp_value(b.take(width)),
    ensures
        alphabetic(a, b),
{
    lemma_stamps(a.take(width), b.take(width));
    lemma_alphabetic_prefix(a, b, width);
}

/// Whatever stands before `.jpg`, however long, makes the name of an image with it.
pub proof fn stem_with_extension_is_an_image(stem: Seq<u8>)
    requires
        stem.len() > 0,
    ensures
        is_jpg(stem + seq!['.' as u8, 'j' as u8, 'p' as u8, 'g' as u8]),
{
    let name = stem + seq!['.' as u8, 'j' as u8, 'p' as u8, 'g' as u8];
    let n = name.len();
    assert(name[n - 4] == 0x2e && name[n - 3] == 0x6a && name[n - 2] == 0x70 && name[n - 1]
        == 0x67);
}

/// The name of an image is something and `.jpg` behind it.
pub proof fn image_has_stem_and_extension(name: Seq<u8>)
    requires
        is_jpg(name),
    ensures
        name.len() > 4,
        name == name.take(name.len() - 4) + seq!['.' as u8, 'j' as u8, 'p' as u8, 'g' as u8],
{
    assert(name =~= name.take(name.len() - 4)
        + seq!['.' as u8, 'j' as u8, 'p' as u8, 'g' as u8]);
}

/// The first difference decides: whatever stands before it is the same, and whatever stands
/// behind it does not matter.
pub proof fn first_difference_decides(
    common: Seq<u8>,
    x: u8,
    after_x: Seq<u8>,
    y: u8,
    after_y: Seq<u8>,
)
    requires
        x != y,
    ensures
        alphabetic(common + seq![x] + after_x, common + seq![y] + after_y) <==> x < y,
    decreases common.len(),
{
    let (a, b) = (common + seq![x] + after_x, common + seq![y] + after_y);
    if common.len() > 0 {
        assert(a.drop_first() =~= common.drop_first() + seq![x] + after_x);
        assert(b.drop_first() =~= common.drop_first() + seq![y] + after_y);
        first_difference_decides(common.drop_first(), x, after_x, y, after_y);
        assert(a[0] == b[0]);
    } else {
        assert(a[0] == x && b[0] == y);
    }
}

/// A name comes before every longer name that starts with it.
pub proof fn shorter_name_comes_first(name: Seq<u8>, more: Seq<u8>)
    requires
        more.len() > 0,
    ensures
        alphabetic(name, name + more),
        !alphabetic(name + more, name),
    decreases name.len(),
{
    if name.len() > 0 {
        assert((name + more).drop_first() =~= name.drop_first() + more);
        shorter_name_comes_first(name.drop_first(), more);
        assert((name + more)[0] == name[0]);
    }
}

/// The frames are the entries that are images, each once; of two frames the one with the
/// alphabetically smaller name comes first, and of two of one name the one that was listed first.
pub proof fn frames_are_the_images_in_order(names: Seq<Vec<u8>>, order: Seq<usize>)
    requires
        lists_images(names, order),
    ensures
        forall|k: usize|
            k < names.len() ==> (is_jpg(#[trigger] names[k as int]@) <==> exists|i: int|
                0 <= i < order.len() && #[trigger] order[i] == k),
        forall|i: int| 0 <= i < order.len() ==> #[trigger] order[i] < names.len(),
        forall|i: int, j: int|
            0 <= i < j < order.len() ==> #[trigger] order[i] != #[trigger] order[j],
        forall|i: int, j: int|
            0 <= i < order.len() && 0 <= j < order.len() && alphabetic(
                names[#[trigger] order[i] as int]@,
                names[#[trigger] order[j] as int]@,
            ) ==> i < j,
        forall|i: int, j: int|
            0 <= i < order.len() && 0 <= j < order.len() && names[#[trigger] order[i] as int]@
                == names[#[trigger] order[j] as int]@ && order[i] < order[j] ==> i < j,
{
    frames_are_distinct(names, order);
    assert forall|k: usize| k < names.len() implies (is_jpg(#[trigger] names[k as int]@)
        <==> exists|i: int| 0 <= i < order.len() && #[trigger] order[i] == k) by {
        if is_jpg(names[k as int]@) {
            assert(order.contains(k));
        }
        if exists|i: int| 0 <= i < order.len() && #[trigger] order[i] == k {
            let i = choose|i: int| 0 <= i < order.len() && #[trigger] order[i] == k;
            assert(is_jpg(names[order[i] as int]@));
        }
    }
    assert forall|i: int, j: int|
        0 <= i < order.len() && 0 <= j < order.len() && alphabetic(
            names[#[trigger] order[i] as int]@,
            names[#[trigger] order[j] as int]@,
        ) implies i < j by {
        alphabetic_is_total(names[order[i] as int]@, names[order[j] as int]@);
        if j < i {
            assert(precedes(names, order[j], order[i]));
        }
    }
    assert forall|i: int, j: int|
        0 <= i < order.len() && 0 <= j < order.len() && names[#[trigger] order[i] as int]@
            == names[#[trigger] order[j] as int]@ && order[i] < order[j] implies i < j by {
        alphabetic_is_total(names[order[i] as int]@, names[order[j] as int]@);
        if j < i {
            assert(precedes(names, order[j], order[i]));
        }
    }
}

} // verus!
