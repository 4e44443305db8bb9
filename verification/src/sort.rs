//! The orders in which the library writes things out: pages newest first,
//! and among pages of one instant the one found first; names in the order
//! of a dictionary.

use vstd::prelude::*;
use crate::date::PublishDate;
use crate::paths::views;

verus! {

/// Where an item dated `d` goes into `order`, a list of indexes into
/// `dates`: before the first member, from `from` on, that `d` is later than,
/// or at the end.
pub open spec fn insert_position(dates: Seq<PublishDate>, order: Seq<int>, d: PublishDate, from: int) -> int
    decreases order.len() - from,
{
    if from < 0 || from >= order.len() {
        order.len() as int
    } else if d.later_than(&dates[order[from]]) {
        from
    } else {
        insert_position(dates, order, d, from + 1)
    }
}

/// The indexes of `dates` from the newest date to the oldest; equal instants
/// keep the order in which they stand in `dates`.
pub open spec fn newest_first(dates: Seq<PublishDate>) -> Seq<int>
    decreases dates.len(),
{
    if dates.len() == 0 {
        Seq::empty()
    } else {
        let prev = newest_first(dates.drop_last());
        prev.insert(insert_position(dates, prev, dates.last(), 0), dates.len() - 1)
    }
}

/// `a` and `b` are the same instant.
pub open spec fn same_instant(a: PublishDate, b: PublishDate) -> bool {
    a.unix_seconds == b.unix_seconds && a.nanosecond == b.nanosecond
}

/// `order` lists every index of `dates` once, no date in it stands before a
/// later one, and dates of one instant stand in the order of their indexes.
pub open spec fn is_newest_first(dates: Seq<PublishDate>, order: Seq<int>) -> bool {
    &&& order.len() == dates.len()
    &&& forall|k: int| 0 <= k < order.len() ==> 0 <= #[trigger] order[k] < dates.len()
    &&& forall|a: int, b: int| 0 <= a < b < order.len() ==> order[a] != order[b]
    &&& forall|a: int, b: int|
        0 <= a < b < order.len() ==> !dates[order[b]].later_than(&dates[order[a]])
    &&& forall|a: int, b: int|
        0 <= a < b < order.len() && same_instant(dates[order[a]], dates[order[b]]) ==> order[a]
            < order[b]
}

/// The insert position lies in the list, nothing before it is older than
/// `d`, and what stands at it is older.
pub proof fn lemma_insert_position(dates: Seq<PublishDate>, order: Seq<int>, d: PublishDate, from: int)
    requires
        0 <= from <= order.len(),
    ensures
        from <= insert_position(dates, order, d, from) <= order.len(),
        forall|j: int|
            from <= j < insert_position(dates, order, d, from) ==> !d.later_than(
                &dates[#[trigger] order[j]],
            ),
        insert_position(dates, order, d, from) < order.len() ==> d.later_than(
            &dates[order[insert_position(dates, order, d, from)]],
        ),
    decreases order.len() - from,
{
    if from >= order.len() {
    } else if d.later_than(&dates[order[from]]) {
    } else {
        lemma_insert_position(dates, order, d, from + 1);
    }
}

/// `newest_first` gives the order it is named for.
pub proof fn lemma_newest_first(dates: Seq<PublishDate>)
    ensures
        is_newest_first(dates, newest_first(dates)),
    decreases dates.len(),
{
    if dates.len() > 0 {
        let n = dates.len() as int;
        let head = dates.drop_last();
        let prev = newest_first(head);
        let d = dates.last();
        lemma_newest_first(head);
        let p = insert_position(dates, prev, d, 0);
        lemma_insert_position(dates, prev, d, 0);
        let order = prev.insert(p, n - 1);
        assert(order.len() == n);
        assert forall|k: int| 0 <= k < order.len() implies (if k < p {
            order[k] == prev[k]
        } else if k == p {
            order[k] == n - 1
        } else {
            order[k] == prev[k - 1]
        }) by {}
        assert forall|k: int| 0 <= k < prev.len() implies dates[#[trigger] prev[k]] == head[prev[k]]
            && 0 <= prev[k] < n - 1 by {}
        assert forall|j: int| p <= j < prev.len() implies d.later_than(&dates[#[trigger] prev[j]]) by {
            if j > p {
                assert(!head[prev[j]].later_than(&head[prev[p]]));
            }
        }
        assert forall|a: int, b: int| 0 <= a < b < order.len() implies order[a] != order[b]
            && !dates[order[b]].later_than(&dates[order[a]]) && (same_instant(
            dates[order[a]],
            dates[order[b]],
        ) ==> order[a] < order[b]) by {
            if b < p {
                assert(!head[prev[b]].later_than(&head[prev[a]]));
            } else if b == p {
                assert(!d.later_than(&dates[prev[a]]));
            } else if a < p {
                assert(!head[prev[b - 1]].later_than(&head[prev[a]]));
            } else if a == p {
                assert(d.later_than(&dates[prev[b - 1]]));
            } else {
                assert(!head[prev[b - 1]].later_than(&head[prev[a - 1]]));
            }
        }
    }
}

/// The members of `v` as mathematical integers.
pub open spec fn as_ints(v: Seq<usize>) -> Seq<int> {
    v.map_values(|i: usize| i as int)
}

/// The indexes of `dates` from the newest date to the oldest; equal instants
/// keep their order.
pub fn order_newest_first(dates: &Vec<PublishDate>) -> (order: Vec<usize>)
    ensures
        as_ints(order@) == newest_first(dates@),
        is_newest_first(dates@, as_ints(order@)),
{
    let mut order: Vec<usize> = Vec::new();
    let mut i: usize = 0;
    assert(as_ints(order@) =~= newest_first(dates@.take(0)));
    while i < dates.len()
        invariant
            i <= dates.len(),
            as_ints(order@) == newest_first(dates@.take(i as int)),
        decreases dates.len() - i,
    {
        let ghost upto = dates@.take(i + 1);
        let ghost prev = as_ints(order@);
        assert(upto.drop_last() == dates@.take(i as int));
        assert(upto.last() == dates[i as int]);
        proof {
            lemma_newest_first(dates@.take(i as int));
        }
        let mut p: usize = 0;
        while p < order.len() && !dates[i].is_later_than(&dates[order[p]])
            invariant
                p <= order.len(),
                i < dates.len(),
                prev == as_ints(order@),
                order.len() == i,
                forall|k: int| 0 <= k < order.len() ==> 0 <= #[trigger] prev[k] < i,
                insert_position(upto, prev, dates[i as int], 0) == insert_position(
                    upto,
                    prev,
                    dates[i as int],
                    p as int,
                ),
                upto == dates@.take(i + 1),
            decreases order.len() - p,
        {
            assert(prev[p as int] == order[p as int]);
            assert(upto[prev[p as int]] == dates[order[p as int] as int]);
            p += 1;
        }
        proof {
            if p < order.len() {
                assert(prev[p as int] == order[p as int]);
                assert(upto[prev[p as int]] == dates[order[p as int] as int]);
            }
        }
        order.insert(p, i);
        assert(as_ints(order@) =~= prev.insert(p as int, i as int));
        i += 1;
    }
    assert(dates@.take(i as int) == dates@);
    proof {
        lemma_newest_first(dates@);
    }
    order
}

/// `a` stands before `b` in the order of a dictionary: at the first place
/// where they differ `a` has the smaller character, or `a` ends there and `b`
/// goes on. Characters are ordered by their code points.
pub open spec fn text_before(a: Seq<char>, b: Seq<char>) -> bool
    decreases a.len(),
{
    if b.len() == 0 {
        false
    } else if a.len() == 0 {
        true
    } else if a[0] != b[0] {
        a[0] < b[0]
    } else {
        text_before(a.skip(1), b.skip(1))
    }
}

/// No text stands before itself, and of two texts at most one stands before the other.
pub proof fn lemma_text_before_one_way(a: Seq<char>, b: Seq<char>)
    ensures
        !text_before(a, a),
        text_before(a, b) ==> !text_before(b, a),
    decreases a.len(),
{
    if a.len() > 0 {
        lemma_text_before_one_way(a.skip(1), a.skip(1));
        if b.len() > 0 && a[0] == b[0] {
            lemma_text_before_one_way(a.skip(1), b.skip(1));
        }
    }
}

/// Of two different texts one stands before the other.
pub proof fn lemma_text_before_total(a: Seq<char>, b: Seq<char>)
    ensures
        a != b ==> text_before(a, b) || text_before(b, a),
    decreases a.len(),
{
    if a.len() > 0 && b.len() > 0 && a[0] == b[0] {
        lemma_text_before_total(a.skip(1), b.skip(1));
        if a.skip(1) == b.skip(1) {
            assert(a =~= seq![a[0]] + a.skip(1));
            assert(b =~= seq![b[0]] + b.skip(1));
        }
    } else if a.len() == 0 && b.len() == 0 {
        assert(a =~= b);
    }
}

/// Where `a` stands before `b`, any third text stands after `a` or before `b`.
pub proof fn lemma_text_before_between(a: Seq<char>, b: Seq<char>, c: Seq<char>)
    requires
        text_before(a, b),
    ensures
        text_before(a, c) || text_before(c, b),
    decreases a.len(),
{
    if a.len() > 0 && c.len() > 0 && a[0] == b[0] && c[0] == a[0] {
        lemma_text_before_between(a.skip(1), b.skip(1), c.skip(1));
    }
}

/// Whether `a` stands before `b` in the order of a dictionary.
pub fn is_text_before(a: &[char], b: &[char]) -> (r: bool)
    ensures
        r == text_before(a@, b@),
{
    let mut i: usize = 0;
    assert(a@.skip(0) == a@ && b@.skip(0) == b@);
    while i < a.len() && i < b.len()
        invariant
            i <= a.len(),
            i <= b.len(),
            text_before(a@, b@) == text_before(a@.skip(i as int), b@.skip(i as int)),
        decreases a.len() - i,
    {
        assert(a@.skip(i as int)[0] == a[i as int] && b@.skip(i as int)[0] == b[i as int]);
        if a[i] != b[i] {
            return a[i] < b[i];
        }
        assert(a@.skip(i as int).skip(1) == a@.skip(i + 1));
        assert(b@.skip(i as int).skip(1) == b@.skip(i + 1));
        i += 1;
    }
    i < b.len()
}

/// Where the name `key` goes into `order`, a list of indexes into `keys`:
/// before the first member, from `from` on, that `key` stands before, or at
/// the end.
pub open spec fn rising_position(keys: Seq<Seq<char>>, order: Seq<int>, key: Seq<char>, from: int) -> int
    decreases order.len() - from,
{
    if from < 0 || from >= order.len() {
        order.len() as int
    } else if text_before(key, keys[order[from]]) {
        from
    } else {
        rising_position(keys, order, key, from + 1)
    }
}

/// The indexes of `keys` in the order of a dictionary; equal names keep the
/// order in which they stand in `keys`.
pub open spec fn rising_order(keys: Seq<Seq<char>>) -> Seq<int>
    decreases keys.len(),
{
    if keys.len() == 0 {
        Seq::empty()
    } else {
        let prev = rising_order(keys.drop_last());
        prev.insert(rising_position(keys, prev, keys.last(), 0), keys.len() - 1)
    }
}

/// The members of `keys` in the order of a dictionary.
pub open spec fn in_rising_order(keys: Seq<Seq<char>>) -> Seq<Seq<char>> {
    rising_order(keys).map_values(|k: int| keys[k])
}

/// `order` lists every index of `keys` once, no name in it stands behind one
/// that it stands before in the dictionary, and equal names stand in the
/// order of their indexes.
pub open spec fn is_rising_order(keys: Seq<Seq<char>>, order: Seq<int>) -> bool {
    &&& order.len() == keys.len()
    &&& forall|k: int| 0 <= k < order.len() ==> 0 <= #[trigger] order[k] < keys.len()
    &&& forall|a: int, b: int| 0 <= a < b < order.len() ==> order[a] != order[b]
    &&& forall|i: int| 0 <= i < keys.len() ==> order.contains(i)
    &&& forall|a: int, b: int|
        0 <= a < b < order.len() ==> !text_before(keys[order[b]], keys[order[a]])
    &&& forall|a: int, b: int|
        0 <= a < b < order.len() && keys[order[a]] == keys[order[b]] ==> order[a] < order[b]
}

/// The position lies in the list, `key` stands before nothing that stands
/// ahead of the position, and it stands before what stands at it.
pub proof fn lemma_rising_position(keys: Seq<Seq<char>>, order: Seq<int>, key: Seq<char>, from: int)
    requires
        0 <= from <= order.len(),
    ensures
        from <= rising_position(keys, order, key, from) <= order.len(),
        forall|j: int|
            from <= j < rising_position(keys, order, key, from) ==> !text_before(
                key,
                keys[#[trigger] order[j]],
            ),
        rising_position(keys, order, key, from) < order.len() ==> text_before(
            key,
            keys[order[rising_position(keys, order, key, from)]],
        ),
    decreases order.len() - from,
{
    if from >= order.len() {
    } else if text_before(key, keys[order[from]]) {
    } else {
        lemma_rising_position(keys, order, key, from + 1);
    }
}

/// `rising_order` gives the order it is named for.
pub proof fn lemma_rising_order(keys: Seq<Seq<char>>)
    ensures
        is_rising_order(keys, rising_order(keys)),
    decreases keys.len(),
{
    if keys.len() > 0 {
        let n = keys.len() as int;
        let head = keys.drop_last();
        let prev = rising_order(head);
        let key = keys.last();
        lemma_rising_order(head);
        let p = rising_position(keys, prev, key, 0);
        lemma_rising_position(keys, prev, key, 0);
        let order = prev.insert(p, n - 1);
        assert(order.len() == n);
        assert forall|k: int| 0 <= k < order.len() implies (if k < p {
            order[k] == prev[k]
        } else if k == p {
            order[k] == n - 1
        } else {
            order[k] == prev[k - 1]
        }) by {}
        assert forall|k: int| 0 <= k < prev.len() implies keys[#[trigger] prev[k]] == head[prev[k]]
            && 0 <= prev[k] < n - 1 by {}
        assert forall|j: int| p <= j < prev.len() implies text_before(key, keys[#[trigger] prev[j]]) by {
            if j > p {
                assert(!text_before(head[prev[j]], head[prev[p]]));
                lemma_text_before_between(key, keys[prev[p]], keys[prev[j]]);
            }
        }
        assert forall|i: int| 0 <= i < n implies order.contains(i) by {
            if i == n - 1 {
                assert(order[p] == i);
            } else {
                assert(prev.contains(i));
                let k = choose|k: int| 0 <= k < prev.len() && prev[k] == i;
                if k < p {
                    assert(order[k] == i);
                } else {
                    assert(order[k + 1] == i);
                }
            }
        }
        assert forall|a: int, b: int| 0 <= a < b < order.len() implies order[a] != order[b]
            && !text_before(keys[order[b]], keys[order[a]]) && (keys[order[a]] == keys[order[b]]
            ==> order[a] < order[b]) by {
            if b < p {
                assert(!text_before(head[prev[b]], head[prev[a]]));
            } else if b == p {
                assert(!text_before(key, keys[prev[a]]));
            } else if a < p {
                assert(!text_before(head[prev[b - 1]], head[prev[a]]));
            } else if a == p {
                assert(text_before(key, keys[prev[b - 1]]));
                lemma_text_before_one_way(key, keys[prev[b - 1]]);
            } else {
                assert(!text_before(head[prev[b - 1]], head[prev[a - 1]]));
            }
        }
    }
}

/// The indexes of `keys` in the order of a dictionary; equal names keep
/// their order.
pub fn order_rising(keys: &Vec<Vec<char>>) -> (order: Vec<usize>)
    ensures
        as_ints(order@) == rising_order(views(keys@)),
        is_rising_order(views(keys@), as_ints(order@)),
{
    let ghost all = views(keys@);
    let mut order: Vec<usize> = Vec::new();
    let mut i: usize = 0;
    assert(as_ints(order@) =~= rising_order(all.take(0)));
    while i < keys.len()
        invariant
            i <= keys.len(),
            all == views(keys@),
            as_ints(order@) == rising_order(all.take(i as int)),
        decreases keys.len() - i,
    {
        let ghost upto = all.take(i + 1);
        let ghost prev = as_ints(order@);
        assert(upto.drop_last() == all.take(i as int));
        assert(upto.last() == keys[i as int]@);
        proof {
            lemma_rising_order(all.take(i as int));
        }
        let mut p: usize = 0;
        while p < order.len() && !is_text_before(keys[i].as_slice(), keys[order[p]].as_slice())
            invariant
                p <= order.len(),
                i < keys.len(),
                all == views(keys@),
                prev == as_ints(order@),
                order.len() == i,
                forall|k: int| 0 <= k < order.len() ==> 0 <= #[trigger] prev[k] < i,
                rising_position(upto, prev, keys[i as int]@, 0) == rising_position(
                    upto,
                    prev,
                    keys[i as int]@,
                    p as int,
                ),
                upto == all.take(i + 1),
            decreases order.len() - p,
        {
            assert(prev[p as int] == order[p as int]);
            assert(upto[prev[p as int]] == keys[order[p as int] as int]@);
            p += 1;
        }
        proof {
            if p < order.len() {
                assert(prev[p as int] == order[p as int]);
                assert(upto[prev[p as int]] == keys[order[p as int] as int]@);
            }
        }
        order.insert(p, i);
        assert(as_ints(order@) =~= prev.insert(p as int, i as int));
        i += 1;
    }
    assert(all.take(i as int) == all);
    proof {
        lemma_rising_order(all);
    }
    order
}

/// Each member of `s` stands before every later one in the dictionary.
pub open spec fn strictly_rising(s: Seq<Seq<char>>) -> bool {
    forall|a: int, b: int| 0 <= a < b < s.len() ==> text_before(s[a], s[b])
}

/// Two lists in strictly rising order that hold the same names are the same list.
pub proof fn lemma_rising_lists_agree(x: Seq<Seq<char>>, y: Seq<Seq<char>>)
    requires
        strictly_rising(x),
        strictly_rising(y),
        forall|i: int| 0 <= i < x.len() ==> y.contains(#[trigger] x[i]),
        forall|i: int| 0 <= i < y.len() ==> x.contains(#[trigger] y[i]),
    ensures
        x == y,
    decreases x.len(),
{
    if x.len() == 0 {
        if y.len() > 0 {
            assert(x.contains(y[0]));
        }
        assert(x =~= y);
    } else {
        assert(y.contains(x[0]));
        let last_x = x.last();
        let last_y = y.last();
        assert(y.contains(x[x.len() - 1]));
        assert(x.contains(y[y.len() - 1]));
        let j = choose|j: int| 0 <= j < y.len() && y[j] == last_x;
        let i = choose|i: int| 0 <= i < x.len() && x[i] == last_y;
        lemma_text_before_one_way(last_x, last_y);
        lemma_text_before_one_way(last_y, last_x);
        if j < y.len() - 1 {
            assert(text_before(y[j], y[y.len() - 1]));
            if i < x.len() - 1 {
                assert(text_before(x[i], x[x.len() - 1]));
            }
        }
        assert(last_x == last_y);
        let head_x = x.drop_last();
        let head_y = y.drop_last();
        assert forall|k: int| 0 <= k < head_x.len() implies head_y.contains(#[trigger] head_x[k]) by {
            assert(y.contains(x[k]));
            let m = choose|m: int| 0 <= m < y.len() && y[m] == x[k];
            assert(text_before(x[k], x[x.len() - 1]));
            lemma_text_before_one_way(x[k], x[k]);
            assert(head_y[m] == x[k]);
        }
        assert forall|k: int| 0 <= k < head_y.len() implies head_x.contains(#[trigger] head_y[k]) by {
            assert(x.contains(y[k]));
            let m = choose|m: int| 0 <= m < x.len() && x[m] == y[k];
            assert(text_before(y[k], y[y.len() - 1]));
            lemma_text_before_one_way(y[k], y[k]);
            assert(head_x[m] == y[k]);
        }
        lemma_rising_lists_agree(head_x, head_y);
        assert(x =~= head_x.push(last_x));
        assert(y =~= head_y.push(last_y));
    }
}

/// Names of which none occurs twice stand in strictly rising order once
/// they are put in order, and the ordered list holds the same names.
pub proof fn lemma_distinct_names_in_order(keys: Seq<Seq<char>>)
    requires
        distinct(keys),
    ensures
        strictly_rising(in_rising_order(keys)),
        forall|i: int| 0 <= i < keys.len() ==> in_rising_order(keys).contains(#[trigger] keys[i]),
        forall|k: int|
            0 <= k < in_rising_order(keys).len() ==> keys.contains(
                #[trigger] in_rising_order(keys)[k],
            ),
{
    let order = rising_order(keys);
    let listed = in_rising_order(keys);
    lemma_rising_order(keys);
    assert forall|a: int, b: int| 0 <= a < b < listed.len() implies text_before(
        listed[a],
        listed[b],
    ) by {
        assert(order[a] != order[b]);
        if order[a] < order[b] {
            assert(keys[order[a]] != keys[order[b]]);
        } else {
            assert(keys[order[b]] != keys[order[a]]);
        }
        lemma_text_before_total(listed[a], listed[b]);
    }
    assert forall|i: int| 0 <= i < keys.len() implies listed.contains(#[trigger] keys[i]) by {
        assert(order.contains(i));
        let k = choose|k: int| 0 <= k < order.len() && order[k] == i;
        assert(listed[k] == keys[i]);
    }
    assert forall|k: int| 0 <= k < listed.len() implies keys.contains(#[trigger] listed[k]) by {
        assert(keys[order[k]] == listed[k]);
    }
}

/// The order of a dictionary does not depend on the order in which the
/// names were given: two lists that hold the same names, none of them
/// twice, come out alike.
pub proof fn lemma_order_ignores_arrangement(a: Seq<Seq<char>>, b: Seq<Seq<char>>)
    requires
        distinct(a),
        distinct(b),
        forall|i: int| 0 <= i < a.len() ==> b.contains(#[trigger] a[i]),
        forall|i: int| 0 <= i < b.len() ==> a.contains(#[trigger] b[i]),
    ensures
        in_rising_order(a) == in_rising_order(b),
{
    lemma_distinct_names_in_order(a);
    lemma_distinct_names_in_order(b);
    let x = in_rising_order(a);
    let y = in_rising_order(b);
    assert forall|i: int| 0 <= i < x.len() implies y.contains(#[trigger] x[i]) by {
        assert(a.contains(x[i]));
        let k = choose|k: int| 0 <= k < a.len() && a[k] == x[i];
        assert(b.contains(a[k]));
        let m = choose|m: int| 0 <= m < b.len() && b[m] == a[k];
        assert(y.contains(b[m]));
    }
    assert forall|i: int| 0 <= i < y.len() implies x.contains(#[trigger] y[i]) by {
        assert(b.contains(y[i]));
        let k = choose|k: int| 0 <= k < b.len() && b[k] == y[i];
        assert(a.contains(b[k]));
        let m = choose|m: int| 0 <= m < a.len() && a[m] == b[k];
        assert(x.contains(a[m]));
    }
    lemma_rising_lists_agree(x, y);
}

/// No member of `keys` occurs twice.
pub open spec fn distinct(keys: Seq<Seq<char>>) -> bool {
    forall|i: int, j: int| 0 <= i < j < keys.len() ==> keys[i] != keys[j]
}

/// Whether no member of `keys` occurs twice.
pub fn are_distinct(keys: &Vec<Vec<char>>) -> (r: bool)
    ensures
        r == distinct(views(keys@)),
{
    let ghost all = views(keys@);
    let mut j: usize = 0;
    while j < keys.len()
        invariant
            j <= keys.len(),
            all == views(keys@),
            forall|a: int, b: int| 0 <= a < b < j ==> all[a] != all[b],
        decreases keys.len() - j,
    {
        let mut i: usize = 0;
        while i < j
            invariant
                i <= j < keys.len(),
                all == views(keys@),
                forall|a: int, b: int| 0 <= a < b < j ==> all[a] != all[b],
                forall|a: int| 0 <= a < i ==> all[a] != all[j as int],
            decreases j - i,
        {
            if crate::text::same_text(keys[i].as_slice(), keys[j].as_slice()) {
                assert(all[i as int] == all[j as int]);
                return false;
            }
            i += 1;
        }
        j += 1;
    }
    true
}

} // verus!
