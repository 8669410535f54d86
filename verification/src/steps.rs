//! Step counts by day: the map from days to counts that the service hands
//! around, its days in ascending order, and the unbroken run of days that
//! starts at a given day.

use crate::dates::{date_from_timestamp, timestamp_date, Date, Range};
use std::collections::HashMap;
use vstd::prelude::*;
use vstd::std_specs::iter::IteratorSpec;

verus! {

/// Whether no two entries are for the same day.
pub open spec fn distinct_days<V>(s: Seq<(Date, V)>) -> bool {
    forall|i: int, j: int| 0 <= i < j < s.len() ==> (#[trigger] s[i]).0 != (#[trigger] s[j]).0
}

/// Whether the days of the entries ascend strictly.
pub open spec fn ascending(s: Seq<(Date, u32)>) -> bool {
    forall|i: int, j: int| 0 <= i < j < s.len() ==> (#[trigger] s[i]).0 < (#[trigger] s[j]).0
}

/// Whether `s` lists the map: every entry of `s` is one of the map, and
/// every day of the map has an entry in `s`.
pub open spec fn lists<V>(s: Seq<(Date, V)>, m: Map<Date, V>) -> bool {
    &&& forall|i: int|
        0 <= i < s.len() ==> m.contains_key((#[trigger] s[i]).0) && m[s[i].0] == s[i].1
    &&& forall|d: Date| #[trigger]
        m.contains_key(d) ==> exists|i: int| 0 <= i < s.len() && (#[trigger] s[i]).0 == d
}

/// The entries of the map for the days from `lo` up to, and without, `hi`,
/// earliest day first.
pub open spec fn entries_between(m: Map<Date, u32>, lo: int, hi: int) -> Seq<(Date, u32)>
    decreases hi - lo,
{
    if lo >= hi {
        Seq::<(Date, u32)>::empty()
    } else {
        let before = entries_between(m, lo, hi - 1);
        let day = (hi - 1) as i32;
        if i32::MIN <= hi - 1 <= i32::MAX && m.contains_key(day) {
            before.push((day, m[day]))
        } else {
            before
        }
    }
}

/// The entries of the map, earliest day first.
pub open spec fn ordered(m: Map<Date, u32>) -> Seq<(Date, u32)> {
    entries_between(m, i32::MIN as int, i32::MAX as int + 1)
}

/// There is one way only to list entries of a map by ascending day.
proof fn lemma_ascending_listing(s: Seq<(Date, u32)>, m: Map<Date, u32>, lo: int, hi: int)
    requires
        ascending(s),
        forall|i: int|
            0 <= i < s.len() ==> lo <= (#[trigger] s[i]).0 < hi && m.contains_key(s[i].0)
                && m[s[i].0] == s[i].1,
        forall|d: Date|
            lo <= d < hi && #[trigger] m.contains_key(d) ==> exists|i: int|
                0 <= i < s.len() && (#[trigger] s[i]).0 == d,
    ensures
        s == entries_between(m, lo, hi),
    decreases hi - lo,
{
    if lo >= hi {
        if s.len() > 0 {
            assert(lo <= s[0].0 < hi);
        }
        assert(s == Seq::<(Date, u32)>::empty());
    } else {
        let day = (hi - 1) as i32;
        if i32::MIN <= hi - 1 <= i32::MAX && m.contains_key(day) {
            let i = choose|i: int| 0 <= i < s.len() && (#[trigger] s[i]).0 == day;
            if i < s.len() - 1 {
                assert(s[i].0 < s[s.len() - 1].0);
            }
            let head = s.drop_last();
            assert forall|k: int| 0 <= k < head.len() implies lo <= (#[trigger] head[k]).0 < hi
                - 1 && m.contains_key(head[k].0) && m[head[k].0] == head[k].1 by {
                assert(head[k] == s[k]);
                assert(s[k].0 < s[s.len() - 1].0);
            }
            assert forall|d: Date| lo <= d < hi - 1 && #[trigger] m.contains_key(d) implies exists|
                k: int,
            |
                0 <= k < head.len() && (#[trigger] head[k]).0 == d by {
                let k = choose|k: int| 0 <= k < s.len() && (#[trigger] s[k]).0 == d;
                assert(head[k] == s[k]);
            }
            assert(ascending(head)) by {
                assert forall|a: int, b: int| 0 <= a < b < head.len() implies (#[trigger] head[a]).0
                    < (#[trigger] head[b]).0 by {
                    assert(head[a] == s[a]);
                    assert(head[b] == s[b]);
                }
            }
            lemma_ascending_listing(head, m, lo, hi - 1);
            assert(s == head.push(s.last()));
        } else {
            assert forall|k: int| 0 <= k < s.len() implies lo <= (#[trigger] s[k]).0 < hi - 1
                && m.contains_key(s[k].0) && m[s[k].0] == s[k].1 by {}
            lemma_ascending_listing(s, m, lo, hi - 1);
        }
    }
}

/// The entries of a map in order ascend by day and list the map.
pub proof fn lemma_ordered_lists(m: Map<Date, u32>)
    ensures
        ascending(ordered(m)),
        lists(ordered(m), m),
        days_of(ordered(m)) =~= m.dom(),
{
    lemma_entries_between(m, i32::MIN as int, i32::MAX as int + 1);
    let s = ordered(m);
    assert forall|d: Date| #[trigger] m.contains_key(d) implies exists|i: int|
        0 <= i < s.len() && (#[trigger] s[i]).0 == d by {
        assert(i32::MIN <= d < i32::MAX + 1);
    }
    lemma_days_of_listing(s, m);
}

/// The entries between two days ascend, lie between the two days, and list
/// what the map holds there.
proof fn lemma_entries_between(m: Map<Date, u32>, lo: int, hi: int)
    ensures
        ascending(entries_between(m, lo, hi)),
        forall|i: int|
            0 <= i < entries_between(m, lo, hi).len() ==> lo <= (#[trigger] entries_between(
                m,
                lo,
                hi,
            )[i]).0 < hi && m.contains_key(entries_between(m, lo, hi)[i].0) && m[entries_between(
                m,
                lo,
                hi,
            )[i].0] == entries_between(m, lo, hi)[i].1,
        forall|d: Date|
            lo <= d < hi && #[trigger] m.contains_key(d) ==> exists|i: int|
                0 <= i < entries_between(m, lo, hi).len() && (#[trigger] entries_between(
                    m,
                    lo,
                    hi,
                )[i]).0 == d,
    decreases hi - lo,
{
    if lo < hi {
        lemma_entries_between(m, lo, hi - 1);
        let before = entries_between(m, lo, hi - 1);
        let all = entries_between(m, lo, hi);
        let day = (hi - 1) as i32;
        if i32::MIN <= hi - 1 <= i32::MAX && m.contains_key(day) {
            assert(all == before.push((day, m[day])));
            assert forall|a: int, b: int| 0 <= a < b < all.len() implies (#[trigger] all[a]).0
                < (#[trigger] all[b]).0 by {
                assert(all[a] == before[a]);
                if b < before.len() {
                    assert(all[b] == before[b]);
                }
            }
            assert forall|i: int| 0 <= i < all.len() implies lo <= (#[trigger] all[i]).0 < hi
                && m.contains_key(all[i].0) && m[all[i].0] == all[i].1 by {
                if i < before.len() {
                    assert(all[i] == before[i]);
                }
            }
            assert forall|d: Date| lo <= d < hi && #[trigger] m.contains_key(d) implies exists|
                i: int,
            |
                0 <= i < all.len() && (#[trigger] all[i]).0 == d by {
                if d == day {
                    assert(all[before.len() as int].0 == d);
                } else {
                    let i = choose|i: int| 0 <= i < before.len() && (#[trigger] before[i]).0 == d;
                    assert(all[i] == before[i]);
                }
            }
        } else {
            assert(all == before);
        }
    }
}

/// An ascending listing of a map is the map's entries in order.
pub proof fn lemma_ordered_is_the_ascending_listing(s: Seq<(Date, u32)>, m: Map<Date, u32>)
    requires
        ascending(s),
        lists(s, m),
    ensures
        s == ordered(m),
{
    lemma_ascending_listing(s, m, i32::MIN as int, i32::MAX as int + 1);
}

/// The entries of a map, in no particular order.
pub fn entries<V: Copy>(m: &HashMap<Date, V>) -> (list: Vec<(Date, V)>)
    ensures
        distinct_days(list@),
        lists(list@, m@),
        list@.len() == m@.dom().len(),
{
    broadcast use vstd::std_specs::hash::group_hash_axioms;

    let mut list: Vec<(Date, V)> = Vec::new();
    let ghost seq = m.iter().remaining();
    for pair in it: m.iter()
        invariant
            it.seq() == seq,
            seq.no_duplicates(),
            list@.len() == it.index(),
            forall|i: int|
                0 <= i < list@.len() ==> (#[trigger] list@[i]).0 == *seq[i].0 && list@[i].1
                    == *seq[i].1,
    {
        let (day, count) = pair;
        list.push((*day, *count));
    }
    proof {
        assert(list@.len() == seq.len());
        assert(seq.len() == m@.dom().len());
        assert forall|i: int| 0 <= i < list@.len() implies m@.contains_key(
            (#[trigger] list@[i]).0,
        ) && m@[list@[i].0] == list@[i].1 by {
            assert(m@.contains_key(*seq[i].0));
        }
        assert forall|i: int, j: int| 0 <= i < j < list@.len() implies (#[trigger] list@[i]).0
            != (#[trigger] list@[j]).0 by {
            if list@[i].0 == list@[j].0 {
                assert(m@.contains_key(*seq[i].0));
                assert(m@.contains_key(*seq[j].0));
                assert(seq[i] == seq[j]);
            }
        }
        assert forall|d: Date| #[trigger] m@.contains_key(d) implies exists|i: int|
            0 <= i < list@.len() && (#[trigger] list@[i]).0 == d by {
            assert(seq.contains((&d, &m@[d])));
            let i = choose|i: int| 0 <= i < seq.len() && seq[i] == (&d, &m@[d]);
            assert(list@[i].0 == d);
        }
    }
    list
}

/// The days for which the list has an entry.
pub open spec fn days_of<V>(s: Seq<(Date, V)>) -> Set<Date> {
    Set::new(|d: Date| exists|k: int| 0 <= k < s.len() && (#[trigger] s[k]).0 == d)
}

/// One more entry of a list adds its day to the days seen so far.
pub proof fn lemma_days_step<V>(s: Seq<(Date, V)>, i: int)
    requires
        0 <= i < s.len(),
    ensures
        days_of(s.take(i + 1)) =~= days_of(s.take(i)).insert(s[i].0),
{
    let a = s.take(i + 1);
    let b = s.take(i);
    assert forall|d: Date| days_of(a).contains(d) <==> (days_of(b).contains(d) || d
        == s[i].0) by {
        if days_of(a).contains(d) {
            let k = choose|k: int| 0 <= k < a.len() && (#[trigger] a[k]).0 == d;
            if k < i {
                assert(b[k].0 == d);
            }
        }
        if days_of(b).contains(d) {
            let k = choose|k: int| 0 <= k < b.len() && (#[trigger] b[k]).0 == d;
            assert(a[k].0 == d);
        }
        if d == s[i].0 {
            assert(a[i].0 == d);
        }
    }
}

/// A list of a map has the map's days.
pub proof fn lemma_days_of_listing<V>(s: Seq<(Date, V)>, m: Map<Date, V>)
    requires
        lists(s, m),
    ensures
        days_of(s) =~= m.dom(),
{
    assert forall|d: Date| days_of(s).contains(d) <==> m.dom().contains(d) by {
        if days_of(s).contains(d) {
            let k = choose|k: int| 0 <= k < s.len() && (#[trigger] s[k]).0 == d;
            assert(m.contains_key(s[k].0));
        }
        if m.contains_key(d) {
            let k = choose|k: int| 0 <= k < s.len() && (#[trigger] s[k]).0 == d;
            assert(s[k].0 == d);
        }
    }
}

/// One more entry of a list adds it to the entries seen so far.
proof fn lemma_take_step(s: Seq<(Date, u32)>, i: int)
    requires
        0 <= i < s.len(),
    ensures
        s.take(i + 1).to_set() =~= s.take(i).to_set().insert(s[i]),
{
    let a = s.take(i + 1);
    let b = s.take(i);
    assert forall|x: (Date, u32)| a.contains(x) <==> (b.contains(x) || x == s[i]) by {
        if a.contains(x) {
            let k = choose|k: int| 0 <= k < a.len() && a[k] == x;
            if k < i {
                assert(b[k] == x);
            }
        }
        if b.contains(x) {
            let k = choose|k: int| 0 <= k < b.len() && b[k] == x;
            assert(a[k] == x);
        }
        if x == s[i] {
            assert(a[i] == x);
        }
    }
}

/// Puts an entry into a list that ascends by day, at its place.
fn insert_by_day(sorted: &mut Vec<(Date, u32)>, entry: (Date, u32))
    requires
        ascending(old(sorted)@),
        forall|k: int| 0 <= k < old(sorted)@.len() ==> (#[trigger] old(sorted)@[k]).0 != entry.0,
    ensures
        ascending(final(sorted)@),
        final(sorted)@.len() == old(sorted)@.len() + 1,
        final(sorted)@.to_set() =~= old(sorted)@.to_set().insert(entry),
{
    let mut at: usize = 0;
    while at < sorted.len() && sorted[at].0 < entry.0
        invariant
            at <= sorted.len(),
            sorted@ == old(sorted)@,
            forall|k: int| 0 <= k < at ==> (#[trigger] sorted@[k]).0 < entry.0,
        decreases sorted.len() - at,
    {
        at += 1;
    }
    let ghost before = sorted@;
    proof {
        assert forall|k: int| at <= k < before.len() implies (#[trigger] before[k]).0
            > entry.0 by {
            if k > at {
                assert(before[at as int].0 < before[k].0);
            }
        }
    }
    sorted.insert(at, entry);
    proof {
        let after = sorted@;
        assert(after == before.insert(at as int, entry));
        assert forall|a: int, b: int| 0 <= a < b < after.len() implies (#[trigger] after[a]).0
            < (#[trigger] after[b]).0 by {
            let x = if a < at { before[a] } else if a == at { entry } else { before[a - 1] };
            let y = if b < at { before[b] } else if b == at { entry } else { before[b - 1] };
            assert(after[a] == x);
            assert(after[b] == y);
        }
        assert forall|x: (Date, u32)| after.contains(x) <==> (before.contains(x) || x
            == entry) by {
            if after.contains(x) {
                let k = choose|k: int| 0 <= k < after.len() && after[k] == x;
                if k < at {
                    assert(before[k] == x);
                } else if k > at {
                    assert(before[k - 1] == x);
                }
            }
            if before.contains(x) {
                let k = choose|k: int| 0 <= k < before.len() && before[k] == x;
                if k < at {
                    assert(after[k] == x);
                } else {
                    assert(after[k + 1] == x);
                }
            }
            if x == entry {
                assert(after[at as int] == x);
            }
        }
    }
}

/// The entries by ascending day.
pub fn sort_entries(list: &Vec<(Date, u32)>) -> (sorted: Vec<(Date, u32)>)
    requires
        distinct_days(list@),
    ensures
        ascending(sorted@),
        sorted@.len() == list@.len(),
        sorted@.to_set() =~= list@.to_set(),
{
    let mut sorted: Vec<(Date, u32)> = Vec::new();
    let mut i: usize = 0;
    assert(sorted@.to_set() =~= list@.take(0).to_set());
    while i < list.len()
        invariant
            i <= list.len(),
            distinct_days(list@),
            ascending(sorted@),
            sorted@.len() == i,
            sorted@.to_set() =~= list@.take(i as int).to_set(),
        decreases list.len() - i,
    {
        let entry = list[i];
        proof {
            assert forall|k: int| 0 <= k < sorted@.len() implies (#[trigger] sorted@[k]).0
                != entry.0 by {
                assert(sorted@.to_set().contains(sorted@[k]));
                assert(list@.take(i as int).contains(sorted@[k]));
                let j = choose|j: int|
                    0 <= j < list@.take(i as int).len() && list@.take(i as int)[j] == sorted@[k];
                assert(list@[j].0 != list@[i as int].0);
            }
            lemma_take_step(list@, i as int);
        }
        insert_by_day(&mut sorted, entry);
        i += 1;
    }
    assert(list@.take(list@.len() as int) == list@);
    sorted
}

/// The entries of a map, earliest day first.
pub fn ordered_entries(m: &HashMap<Date, u32>) -> (list: Vec<(Date, u32)>)
    ensures
        list@ == ordered(m@),
        ascending(list@),
        lists(list@, m@),
{
    let unordered = entries(m);
    let list = sort_entries(&unordered);
    proof {
        assert forall|i: int| 0 <= i < list@.len() implies m@.contains_key(
            (#[trigger] list@[i]).0,
        ) && m@[list@[i].0] == list@[i].1 by {
            assert(list@.to_set().contains(list@[i]));
            assert(unordered@.contains(list@[i]));
            let j = choose|j: int| 0 <= j < unordered@.len() && unordered@[j] == list@[i];
            assert(m@.contains_key(unordered@[j].0));
        }
        assert forall|d: Date| #[trigger] m@.contains_key(d) implies exists|i: int|
            0 <= i < list@.len() && (#[trigger] list@[i]).0 == d by {
            let j = choose|j: int| 0 <= j < unordered@.len() && (#[trigger] unordered@[j]).0 == d;
            assert(unordered@.to_set().contains(unordered@[j]));
            assert(list@.contains(unordered@[j]));
            let i = choose|i: int| 0 <= i < list@.len() && list@[i] == unordered@[j];
            assert(list@[i].0 == d);
        }
        lemma_ordered_is_the_ascending_listing(list@, m@);
    }
    list
}

/// The latest day of the map, if it has any day.
pub fn latest_day(m: &HashMap<Date, u32>) -> (latest: Option<Date>)
    ensures
        latest is None <==> m@.dom() =~= Set::<Date>::empty(),
        latest matches Some(day) ==> m@.contains_key(day) && forall|d: Date| #[trigger]
            m@.contains_key(d) ==> d <= day,
{
    let list = entries(m);
    let mut latest: Option<Date> = None;
    let mut i: usize = 0;
    while i < list.len()
        invariant
            i <= list.len(),
            latest is None <==> i == 0,
            latest matches Some(day) ==> (exists|k: int|
                0 <= k < i && (#[trigger] list@[k]).0 == day) && forall|k: int|
                0 <= k < i ==> (#[trigger] list@[k]).0 <= day,
        decreases list.len() - i,
    {
        let day = list[i].0;
        latest = match latest {
            Some(best) => if day > best {
                Some(day)
            } else {
                Some(best)
            },
            None => Some(day),
        };
        i += 1;
    }
    proof {
        match latest {
            Some(day) => {
                let k = choose|k: int| 0 <= k < list@.len() && (#[trigger] list@[k]).0 == day;
                assert(m@.contains_key(list@[k].0));
                assert forall|d: Date| #[trigger] m@.contains_key(d) implies d <= day by {
                    let j = choose|j: int| 0 <= j < list@.len() && (#[trigger] list@[j]).0 == d;
                    assert(list@[j].0 <= day);
                }
                assert(m@.dom().contains(day));
            },
            None => {
                assert forall|d: Date| !m@.dom().contains(d) by {
                    if m@.contains_key(d) {
                        let j = choose|j: int|
                            0 <= j < list@.len() && (#[trigger] list@[j]).0 == d;
                    }
                }
            },
        }
    }
    latest
}

/// The step counts of `base`, overridden and extended by those of `update`.
pub fn merge(base: HashMap<Date, u32>, update: &HashMap<Date, u32>) -> (merged: HashMap<
    Date,
    u32,
>)
    ensures
        merged@ == base@.union_prefer_right(update@),
{
    broadcast use vstd::std_specs::hash::group_hash_axioms;

    let list = entries(update);
    let mut merged = base;
    let mut i: usize = 0;
    assert(days_of(list@.take(0)) =~= Set::<Date>::empty());
    assert(merged@ =~= base@.union_prefer_right(update@.restrict(days_of(list@.take(0)))));
    while i < list.len()
        invariant
            i <= list.len(),
            lists(list@, update@),
            merged@ =~= base@.union_prefer_right(update@.restrict(days_of(list@.take(i as int)))),
        decreases list.len() - i,
    {
        let (day, count) = list[i];
        proof {
            lemma_days_step(list@, i as int);
            assert(update@.contains_key(list@[i as int].0));
        }
        merged.insert(day, count);
        i += 1;
    }
    proof {
        assert(list@.take(list@.len() as int) == list@);
        lemma_days_of_listing(list@, update@);
        assert(update@.restrict(update@.dom()) =~= update@);
    }
    merged
}

/// The days of a range, as a set.
pub open spec fn days_in(range: Range) -> Set<Date> {
    Set::new(|d: Date| range.contains(d as int))
}

/// The step counts of the days that lie in the range.
pub fn within(m: &HashMap<Date, u32>, range: Range) -> (kept: HashMap<Date, u32>)
    ensures
        kept@ == m@.restrict(days_in(range)),
{
    broadcast use vstd::std_specs::hash::group_hash_axioms;

    let list = entries(m);
    let mut kept: HashMap<Date, u32> = HashMap::new();
    let mut i: usize = 0;
    assert(days_of(list@.take(0)) =~= Set::<Date>::empty());
    assert(kept@ =~= m@.restrict(days_in(range).intersect(days_of(list@.take(0)))));
    while i < list.len()
        invariant
            i <= list.len(),
            lists(list@, m@),
            kept@ =~= m@.restrict(days_in(range).intersect(days_of(list@.take(i as int)))),
        decreases list.len() - i,
    {
        let (day, count) = list[i];
        proof {
            lemma_days_step(list@, i as int);
            assert(m@.contains_key(list@[i as int].0));
        }
        if day >= range.start && day <= range.end {
            kept.insert(day, count);
        }
        i += 1;
    }
    proof {
        assert(list@.take(list@.len() as int) == list@);
        lemma_days_of_listing(list@, m@);
        assert(kept@ =~= m@.restrict(days_in(range)));
    }
    kept
}

/// Entries that were stored as a count and the instant at which a day
/// starts, as a day and a count.
pub fn parse_steps(steps: Vec<(u32, i64)>) -> (parsed: Vec<(Date, u32)>)
    requires
        forall|i: int| 0 <= i < steps@.len() ==> timestamp_date((#[trigger] steps@[i]).1 as int) is Some,
    ensures
        parsed@.len() == steps@.len(),
        forall|i: int|
            0 <= i < steps@.len() ==> (#[trigger] parsed@[i]) == (
                timestamp_date(steps@[i].1 as int)->0,
                steps@[i].0,
            ),
{
    let mut parsed: Vec<(Date, u32)> = Vec::new();
    let mut i: usize = 0;
    while i < steps.len()
        invariant
            i <= steps.len(),
            parsed@.len() == i,
            forall|k: int| 0 <= k < steps@.len() ==> timestamp_date((#[trigger] steps@[k]).1 as int) is Some,
            forall|k: int|
                0 <= k < i ==> (#[trigger] parsed@[k]) == (
                    timestamp_date(steps@[k].1 as int)->0,
                    steps@[k].0,
                ),
        decreases steps.len() - i,
    {
        let (count, secs) = steps[i];
        assert(timestamp_date(steps@[i as int].1 as int) is Some);
        match date_from_timestamp(secs) {
            Some(date) => parsed.push((date, count)),
            None => {},
        }
        i += 1;
    }
    parsed
}

/// The number of leading entries that are for `start`, the day after it, the
/// day after that, and so on without a break.
pub open spec fn run_length(start: int, s: Seq<(Date, u32)>) -> int
    decreases s.len(),
{
    if s.len() > 0 && s[0].0 == start {
        1 + run_length(start + 1, s.skip(1))
    } else {
        0
    }
}

/// The step counts of the unbroken run of days with which the list begins,
/// if it begins at `start`: entry `i` of the run is for the day `start + i`.
pub open spec fn longest_run(start: Date, s: Seq<(Date, u32)>) -> Map<Date, u32> {
    Map::new(
        |d: Date| start <= d < start + run_length(start as int, s),
        |d: Date| s[d - start].1,
    )
}

/// The run is made of consecutive days from `start` on, and ends where the
/// list ends or the next entry is for another day than the next one.
pub proof fn lemma_run_length(start: int, s: Seq<(Date, u32)>)
    ensures
        0 <= run_length(start, s) <= s.len(),
        forall|i: int| 0 <= i < run_length(start, s) ==> (#[trigger] s[i]).0 == start + i,
        run_length(start, s) < s.len() ==> s[run_length(start, s)].0 != start + run_length(
            start,
            s,
        ),
    decreases s.len(),
{
    if s.len() > 0 && s[0].0 == start {
        let rest = s.skip(1);
        lemma_run_length(start + 1, rest);
        let n = run_length(start + 1, rest);
        assert forall|i: int| 0 <= i < n + 1 implies (#[trigger] s[i]).0 == start + i by {
            if i > 0 {
                assert(rest[i - 1] == s[i]);
            }
        }
        if n + 1 < s.len() {
            assert(rest[n] == s[n + 1]);
        }
    }
}

/// A number of leading consecutive days after which the list ends or breaks
/// is the length of the run.
pub proof fn lemma_run_length_is(start: int, s: Seq<(Date, u32)>, n: int)
    requires
        0 <= n <= s.len(),
        forall|i: int| 0 <= i < n ==> (#[trigger] s[i]).0 == start + i,
        n < s.len() ==> s[n].0 != start + n,
    ensures
        run_length(start, s) == n,
    decreases s.len(),
{
    if s.len() > 0 && s[0].0 == start {
        let rest = s.skip(1);
        assert(n > 0);
        assert forall|i: int| 0 <= i < n - 1 implies (#[trigger] rest[i]).0 == start + 1 + i by {
            assert(rest[i] == s[i + 1]);
        }
        if n - 1 < rest.len() {
            assert(rest[n - 1] == s[n]);
        }
        lemma_run_length_is(start + 1, rest, n - 1);
    } else if n > 0 {
        assert(s[0].0 == start + 0);
    }
}

/// The longest run of consecutive days that starts at `start_date`, as far
/// as the list begins with one. The list is read in its order and reading
/// stops at the first entry that is not for the day after the one before it.
pub fn longest_range(start_date: Date, steps: Vec<(Date, u32)>) -> (range: HashMap<Date, u32>)
    ensures
        range@ == longest_run(start_date, steps@),
{
    broadcast use vstd::std_specs::hash::group_hash_axioms;

    let mut range: HashMap<Date, u32> = HashMap::new();
    let mut i: usize = 0;
    while i < steps.len() && steps[i].0 as i64 == start_date as i64 + i as i64
        invariant
            i <= steps.len(),
            i <= i32::MAX as int + 1 - start_date,
            forall|k: int| 0 <= k < i ==> (#[trigger] steps@[k]).0 == start_date + k,
            range@ =~= Map::new(
                |d: Date| start_date <= d < start_date + i,
                |d: Date| steps@[d - start_date].1,
            ),
        decreases steps.len() - i,
    {
        range.insert(steps[i].0, steps[i].1);
        i += 1;
    }
    proof {
        lemma_run_length_is(start_date as int, steps@, i as int);
    }
    range
}

/// Reading a cache that holds each day at most once, by ascending day and
/// from `start` on, gives exactly the days up to the first gap: a day is
/// served if and only if it and every day from `start` to it is held; the
/// count served is the one held.
pub proof fn lemma_prefix_only(start: Date, s: Seq<(Date, u32)>)
    requires
        ascending(s),
        forall|i: int| 0 <= i < s.len() ==> (#[trigger] s[i]).0 >= start,
    ensures
        forall|d: Date| #[trigger]
            longest_run(start, s).contains_key(d) <==> start <= d && forall|e: Date|
                start <= e <= d ==> #[trigger] days_of(s).contains(e),
        forall|d: Date, i: int|
            longest_run(start, s).contains_key(d) && 0 <= i < s.len() && (#[trigger] s[i]).0
                == d ==> #[trigger] longest_run(start, s)[d] == s[i].1,
        !days_of(s).contains(start) ==> longest_run(start, s) =~= Map::<Date, u32>::empty(),
{
    let n = run_length(start as int, s);
    lemma_run_length(start as int, s);
    assert forall|d: Date| #[trigger]
        longest_run(start, s).contains_key(d) <==> start <= d && forall|e: Date|
            start <= e <= d ==> #[trigger] days_of(s).contains(e) by {
        if longest_run(start, s).contains_key(d) {
            assert forall|e: Date| start <= e <= d implies #[trigger] days_of(s).contains(e) by {
                assert(s[e - start].0 == e);
            }
        }
        if start <= d && (forall|e: Date| start <= e <= d ==> #[trigger] days_of(s).contains(e))
            && d >= start + n {
            let e = (start + n) as i32;
            assert(days_of(s).contains(e));
            let j = choose|j: int| 0 <= j < s.len() && (#[trigger] s[j]).0 == e;
            if j < n {
                assert(s[j].0 == start + j);
            } else {
                assert(n < s.len());
                if n > 0 {
                    assert(s[n - 1].0 == start + (n - 1));
                    assert(s[n - 1].0 < s[n].0);
                } else {
                    assert(s[0].0 >= start);
                }
                if j > n {
                    assert(s[n].0 < s[j].0);
                }
            }
        }
    }
    assert forall|d: Date, i: int|
        longest_run(start, s).contains_key(d) && 0 <= i < s.len() && (#[trigger] s[i]).0
            == d implies #[trigger] longest_run(start, s)[d] == s[i].1 by {
        let k = d - start;
        assert(s[k].0 == d);
        if i < k {
            assert(s[i].0 < s[k].0);
        } else if i > k {
            assert(s[k].0 < s[i].0);
        }
    }
    if !days_of(s).contains(start) {
        if n > 0 {
            assert(s[0].0 == start + 0);
        }
    }
}

} // verus!
