use vstd::prelude::*;
use crate::events::{is_sentinel, Event, Label};

verus! {

/// Non-decreasing by instant.
pub open spec fn sorted_by_at(s: Seq<Event>) -> bool {
    forall|i: int, j: int| 0 <= i < j < s.len() ==> s[i].at <= s[j].at
}

/// Stable sorted insertion: the new event goes in front of the first strictly
/// later element, hence after every element it ties with.
pub open spec fn insert_sorted_spec(s: Seq<Event>, e: Event) -> Seq<Event>
    decreases s.len(),
{
    if s.len() == 0 {
        seq![e]
    } else if s[0].at <= e.at {
        seq![s[0]] + insert_sorted_spec(s.drop_first(), e)
    } else {
        seq![e] + s
    }
}

/// Stable insertion sort over the whole sequence.
pub open spec fn sort_spec(s: Seq<Event>) -> Seq<Event>
    decreases s.len(),
{
    if s.len() == 0 {
        Seq::empty()
    } else {
        insert_sorted_spec(sort_spec(s.drop_last()), s.last())
    }
}

/// The synthetic `Current_time` entry for the current instant.
pub open spec fn sentinel_event(now: u32) -> Event {
    Event { label: Label::Sentinel, at: now }
}

/// The events of the day with the sentinel appended, in sorted order.
pub open spec fn sorted_with_sentinel(events: Seq<Event>, now: u32) -> Seq<Event> {
    sort_spec(events.push(sentinel_event(now)))
}

/// The rotated sequence: sort events plus sentinel, then move the earliest
/// element to the end, so the day wraps past midnight.
pub open spec fn rotate_spec(events: Seq<Event>, now: u32) -> Seq<Event> {
    let sorted = sorted_with_sentinel(events, now);
    if sorted.len() <= 1 {
        sorted
    } else {
        sorted.drop_first().push(sorted[0])
    }
}

/// The sentinel sits at position `i` and nowhere else.
pub open spec fn unique_sentinel_at(s: Seq<Event>, i: int) -> bool {
    0 <= i < s.len() && is_sentinel(s[i]) && (forall|j: int|
        0 <= j < s.len() && j != i ==> !is_sentinel(#[trigger] s[j]))
}

/// Sorted insertion splits the sequence at the first strictly later element.
proof fn lemma_insert_decompose(s: Seq<Event>, e: Event) -> (j: int)
    ensures
        0 <= j <= s.len(),
        insert_sorted_spec(s, e) == s.subrange(0, j) + seq![e] + s.subrange(j, s.len() as int),
        forall|k: int| 0 <= k < j ==> (#[trigger] s[k]).at <= e.at,
        j < s.len() ==> s[j].at > e.at,
    decreases s.len(),
{
    if s.len() == 0 {
        assert(insert_sorted_spec(s, e) =~= s.subrange(0, 0) + seq![e] + s.subrange(0, 0));
        0
    } else if s[0].at <= e.at {
        let j1 = lemma_insert_decompose(s.drop_first(), e);
        assert(s.drop_first().subrange(0, j1) =~= s.subrange(1, j1 + 1));
        assert(s.drop_first().subrange(j1, s.drop_first().len() as int) =~= s.subrange(
            j1 + 1,
            s.len() as int,
        ));
        assert(insert_sorted_spec(s, e) =~= s.subrange(0, j1 + 1) + seq![e] + s.subrange(
            j1 + 1,
            s.len() as int,
        ));
        assert forall|k: int| 0 <= k < j1 + 1 implies (#[trigger] s[k]).at <= e.at by {
            if k >= 1 {
                assert(s.drop_first()[k - 1].at <= e.at);
            }
        }
        j1 + 1
    } else {
        assert(insert_sorted_spec(s, e) =~= s.subrange(0, 0) + seq![e] + s.subrange(
            0,
            s.len() as int,
        ));
        0
    }
}

proof fn lemma_insert_len(s: Seq<Event>, e: Event)
    ensures
        insert_sorted_spec(s, e).len() == s.len() + 1,
{
    let j = lemma_insert_decompose(s, e);
}

/// Insertion adds exactly the new element to the sequence's contents.
proof fn lemma_insert_contains(s: Seq<Event>, e: Event)
    ensures
        forall|x: Event|
            #[trigger] insert_sorted_spec(s, e).contains(x) <==> (s.contains(x) || x == e),
{
    let j = lemma_insert_decompose(s, e);
    let t = insert_sorted_spec(s, e);
    assert forall|x: Event| #[trigger] t.contains(x) implies (s.contains(x) || x == e) by {
        let idx = choose|idx: int| 0 <= idx < t.len() && t[idx] == x;
        if idx < j {
            assert(s[idx] == x);
            assert(s.contains(x));
        } else if idx > j {
            assert(s[idx - 1] == x);
            assert(s.contains(x));
        }
    }
    assert forall|x: Event| (s.contains(x) || x == e) implies #[trigger] t.contains(x) by {
        if x == e {
            assert(t[j] == x);
        } else {
            let idx = choose|idx: int| 0 <= idx < s.len() && s[idx] == x;
            if idx < j {
                assert(t[idx] == x);
            } else {
                assert(t[idx + 1] == x);
            }
        }
    }
}

/// Insertion keeps the sequence sorted.
proof fn lemma_insert_sorted(s: Seq<Event>, e: Event)
    requires
        sorted_by_at(s),
    ensures
        sorted_by_at(insert_sorted_spec(s, e)),
{
    let j = lemma_insert_decompose(s, e);
    let t = insert_sorted_spec(s, e);
    assert forall|a: int, b: int| 0 <= a < b < t.len() implies t[a].at <= t[b].at by {
        if a < j {
            assert(t[a] == s[a]);
        } else if a > j {
            assert(t[a] == s[a - 1]);
        }
        if b < j {
            assert(t[b] == s[b]);
        } else if b > j {
            assert(t[b] == s[b - 1]);
            if j < s.len() {
                assert(s[j].at <= s[b - 1].at);
            }
        }
    }
}

/// A sequence's contents are those of its last element and the rest.
proof fn lemma_contains_drop_last(s: Seq<Event>)
    requires
        s.len() > 0,
    ensures
        forall|x: Event| #[trigger] s.contains(x) <==> (s.drop_last().contains(x) || x
            == s.last()),
{
    assert forall|x: Event| #[trigger] s.contains(x) implies (s.drop_last().contains(x) || x
        == s.last()) by {
        let idx = choose|idx: int| 0 <= idx < s.len() && s[idx] == x;
        if idx < s.len() - 1 {
            assert(s.drop_last()[idx] == x);
            assert(s.drop_last().contains(x));
        }
    }
    assert forall|x: Event| (s.drop_last().contains(x) || x == s.last()) implies #[trigger] s
        .contains(x) by {
        if s.drop_last().contains(x) {
            let idx = choose|idx: int| 0 <= idx < s.drop_last().len() && s.drop_last()[idx] == x;
            assert(s[idx] == x);
        } else {
            assert(s[s.len() - 1] == x);
        }
    }
}

/// Sorting keeps the length and the contents and yields a sorted sequence.
pub proof fn lemma_sort_props(s: Seq<Event>)
    ensures
        sort_spec(s).len() == s.len(),
        sorted_by_at(sort_spec(s)),
        forall|x: Event| #[trigger] sort_spec(s).contains(x) <==> s.contains(x),
    decreases s.len(),
{
    if s.len() == 0 {
        assert forall|x: Event| #[trigger] sort_spec(s).contains(x) <==> s.contains(x) by {
            if sort_spec(s).contains(x) {
                let idx = choose|idx: int| 0 <= idx < sort_spec(s).len() && sort_spec(s)[idx] == x;
            }
            if s.contains(x) {
                let idx = choose|idx: int| 0 <= idx < s.len() && s[idx] == x;
            }
        }
    } else {
        let rest = s.drop_last();
        lemma_sort_props(rest);
        lemma_insert_len(sort_spec(rest), s.last());
        lemma_insert_sorted(sort_spec(rest), s.last());
        lemma_insert_contains(sort_spec(rest), s.last());
        lemma_contains_drop_last(s);
    }
}

/// Where the sentinel lands: in the sorted day, every event at or before
/// `now` precedes it and every strictly later event follows it, and no other
/// entry is a sentinel.
pub proof fn lemma_sentinel_position(events: Seq<Event>, now: u32) -> (j: int)
    requires
        forall|k: int| 0 <= k < events.len() ==> !is_sentinel(#[trigger] events[k]),
    ensures
        sorted_with_sentinel(events, now).len() == events.len() + 1,
        sorted_by_at(sorted_with_sentinel(events, now)),
        0 <= j < sorted_with_sentinel(events, now).len(),
        sorted_with_sentinel(events, now)[j] == sentinel_event(now),
        forall|k: int|
            0 <= k < j ==> (#[trigger] sorted_with_sentinel(events, now)[k]).at <= now
                && !is_sentinel(sorted_with_sentinel(events, now)[k]) && events.contains(
                sorted_with_sentinel(events, now)[k],
            ),
        forall|k: int|
            j < k < sorted_with_sentinel(events, now).len() ==> (#[trigger] sorted_with_sentinel(
                events,
                now,
            )[k]).at > now && !is_sentinel(sorted_with_sentinel(events, now)[k])
                && events.contains(sorted_with_sentinel(events, now)[k]),
        forall|x: Event| events.contains(x) ==> #[trigger] sorted_with_sentinel(
            events,
            now,
        ).contains(x),
{
    let sent = sentinel_event(now);
    let u = sort_spec(events);
    lemma_sort_props(events);
    assert forall|k: int| 0 <= k < u.len() implies !is_sentinel(#[trigger] u[k]) && events.contains(
        u[k],
    ) by {
        assert(u.contains(u[k]));
        let idx = choose|idx: int| 0 <= idx < events.len() && events[idx] == u[k];
    }
    assert(events.push(sent).drop_last() =~= events);
    assert(events.push(sent).last() == sent);
    let t = sorted_with_sentinel(events, now);
    assert(t == insert_sorted_spec(u, sent));
    let j = lemma_insert_decompose(u, sent);
    lemma_insert_sorted(u, sent);
    lemma_insert_contains(u, sent);
    assert(t[j] == sent);
    assert forall|k: int| 0 <= k < j implies (#[trigger] t[k]).at <= now && !is_sentinel(t[k])
        && events.contains(t[k]) by {
        assert(t[k] == u[k]);
    }
    assert forall|k: int| j < k < t.len() implies (#[trigger] t[k]).at > now && !is_sentinel(t[k])
        && events.contains(t[k]) by {
        assert(t[k] == u[k - 1]);
        assert(u[j].at > now);
        assert(u[j].at <= u[k - 1].at);
    }
    j
}

/// The first position whose event is strictly later than `e`; insertion there
/// keeps the order and the tie-break stable.
fn find_insert_pos(v: &Vec<Event>, e: Event) -> (j: usize)
    ensures
        j <= v@.len(),
        forall|k: int| 0 <= k < j ==> (#[trigger] v@[k]).at <= e.at,
        j < v@.len() ==> v@[j as int].at > e.at,
{
    let mut j: usize = 0;
    while j < v.len()
        invariant
            j <= v@.len(),
            forall|k: int| 0 <= k < j ==> (#[trigger] v@[k]).at <= e.at,
        decreases v@.len() - j,
    {
        if v[j].at > e.at {
            return j;
        }
        j = j + 1;
    }
    j
}

/// Inserts an event into an already sorted day, keeping it sorted.
fn insert_into_sorted(v: &mut Vec<Event>, e: Event)
    requires
        sorted_by_at(old(v)@),
        old(v)@.len() < usize::MAX,
    ensures
        final(v)@ == insert_sorted_spec(old(v)@, e),
        sorted_by_at(final(v)@),
{
    let j = find_insert_pos(v, e);
    proof {
        let jj = lemma_insert_decompose(v@, e);
        assert(jj == j as int);
        assert(v@.insert(j as int, e) =~= v@.subrange(0, j as int) + seq![e] + v@.subrange(
            j as int,
            v@.len() as int,
        ));
        lemma_insert_sorted(v@, e);
    }
    v.insert(j, e);
}

/// The chronological rotator: appends the `Current_time` sentinel, sorts the
/// day ascending (stable), and moves the earliest entry to the end so that
/// the sequence wraps past midnight. The result has one more entry than the
/// input, every entry comes from the input or is the sentinel, and for a
/// day without a sentinel of its own the sentinel occurs at exactly one
/// position.
pub fn rotate(events: &Vec<Event>, now: u32) -> (r: Vec<Event>)
    requires
        events@.len() < usize::MAX,
    ensures
        r@ == rotate_spec(events@, now),
        r@.len() == events@.len() + 1,
        forall|x: Event| #[trigger]
            r@.contains(x) ==> (events@.contains(x) || x == sentinel_event(now)),
        (forall|k: int| 0 <= k < events@.len() ==> !is_sentinel(#[trigger] events@[k]))
            ==> exists|i: int| unique_sentinel_at(r@, i),
{
    let sent = Event { label: Label::Sentinel, at: now };
    let mut all: Vec<Event> = Vec::new();
    let mut i: usize = 0;
    while i < events.len()
        invariant
            i <= events@.len(),
            all@ == events@.subrange(0, i as int),
        decreases events@.len() - i,
    {
        all.push(events[i]);
        proof {
            assert(events@.subrange(0, i as int + 1) =~= events@.subrange(0, i as int).push(
                events@[i as int],
            ));
        }
        i = i + 1;
    }
    proof {
        assert(events@.subrange(0, events@.len() as int) =~= events@);
    }
    all.push(sent);
    let ghost whole = events@.push(sentinel_event(now));
    proof {
        assert(all@ == whole);
    }
    let mut day: Vec<Event> = Vec::new();
    let mut i: usize = 0;
    while i < all.len()
        invariant
            i <= all@.len(),
            all@ == whole,
            all@.len() <= usize::MAX,
            day@ == sort_spec(all@.subrange(0, i as int)),
            day@.len() == i,
            sorted_by_at(day@),
        decreases all@.len() - i,
    {
        let ghost prefix = all@.subrange(0, i as int);
        proof {
            assert(all@.subrange(0, i as int + 1).drop_last() =~= prefix);
            assert(all@.subrange(0, i as int + 1).last() == all@[i as int]);
            lemma_insert_len(sort_spec(prefix), all@[i as int]);
        }
        insert_into_sorted(&mut day, all[i]);
        i = i + 1;
    }
    proof {
        assert(all@.subrange(0, all@.len() as int) =~= all@);
    }
    // day@ == sorted_with_sentinel(events@, now)
    let ghost t = sorted_with_sentinel(events@, now);
    if day.len() > 1 {
        let first = day.remove(0);
        proof {
            assert(t.subrange(0, 0) + t.subrange(1, t.len() as int) =~= t.drop_first());
        }
        day.push(first);
    }
    proof {
        lemma_sort_props(whole);
        lemma_contains_drop_last(whole);
        assert(whole.drop_last() =~= events@);
        let r_view = day@;
        assert forall|x: Event| #[trigger]
            r_view.contains(x) implies (events@.contains(x) || x == sentinel_event(now)) by {
            let idx = choose|idx: int| 0 <= idx < r_view.len() && r_view[idx] == x;
            if t.len() > 1 {
                if idx < t.len() - 1 {
                    assert(t[idx + 1] == x);
                } else {
                    assert(t[0] == x);
                }
            }
            assert(t.contains(x));
        }
        if forall|k: int| 0 <= k < events@.len() ==> !is_sentinel(#[trigger] events@[k]) {
            let j = lemma_sentinel_position(events@, now);
            let n = events@.len() as int;
            let i_sent: int = if t.len() <= 1 {
                0
            } else if j == 0 {
                n
            } else {
                j - 1
            };
            assert forall|m: int| 0 <= m < r_view.len() && m != i_sent implies !is_sentinel(
                #[trigger] r_view[m],
            ) by {
                if t.len() > 1 {
                    if m < t.len() - 1 {
                        assert(r_view[m] == t[m + 1]);
                    } else {
                        assert(r_view[m] == t[0]);
                    }
                }
            }
            assert(is_sentinel(r_view[i_sent]));
            assert(unique_sentinel_at(r_view, i_sent));
        }
    }
    day
}

/// Circular indexing one step forward from a valid position.
proof fn lemma_wrap_index(a: int, n: int)
    requires
        0 <= a <= n,
        0 < n,
    ensures
        a % n == if a == n {
            0int
        } else {
            a
        },
{
    if a == n {
        vstd::arithmetic::div_mod::lemma_mod_self_0(n);
    } else {
        vstd::arithmetic::div_mod::lemma_small_mod(a as nat, n as nat);
    }
}

/// The position of the first sentinel entry.
fn find_sentinel(r: &Vec<Event>) -> (k: usize)
    requires
        exists|i: int| 0 <= i < r@.len() && is_sentinel(#[trigger] r@[i]),
    ensures
        k < r@.len(),
        is_sentinel(r@[k as int]),
        forall|m: int| 0 <= m < k ==> !is_sentinel(#[trigger] r@[m]),
{
    let mut k: usize = 0;
    while k < r.len()
        invariant
            k <= r@.len(),
            forall|m: int| 0 <= m < k ==> !is_sentinel(#[trigger] r@[m]),
            exists|i: int| 0 <= i < r@.len() && is_sentinel(#[trigger] r@[i]),
        decreases r@.len() - k,
    {
        if r[k].label == Label::Sentinel {
            return k;
        }
        k = k + 1;
    }
    // never reached: a sentinel is present by the precondition
    proof {
        let i = choose|i: int| 0 <= i < r@.len() && is_sentinel(#[trigger] r@[i]);
        assert(false);
    }
    0
}

/// The "next event": the entry right after the sentinel in rotated order,
/// wrapping circularly to the front when the sentinel is last. The lookup is
/// by index modulo the length, so it is total on any sequence that holds a
/// sentinel and can never read out of bounds; when the sentinel is unique and
/// has company, the successor is never the sentinel itself.
pub fn next_after_sentinel(r: &Vec<Event>) -> (nxt: Event)
    requires
        exists|i: int| 0 <= i < r@.len() && is_sentinel(#[trigger] r@[i]),
    ensures
        exists|i: int|
            0 <= i < r@.len() && is_sentinel(#[trigger] r@[i]) && nxt == r@[(i + 1) % (
            r@.len() as int)],
        forall|i: int|
            unique_sentinel_at(r@, i) ==> nxt == r@[(i + 1) % (r@.len() as int)],
        (r@.len() >= 2 && (exists|i: int| unique_sentinel_at(r@, i))) ==> !is_sentinel(nxt),
{
    let k = find_sentinel(r);
    let n = r.len();
    let idx = (k + 1) % n;
    let nxt = r[idx];
    proof {
        let ki = k as int;
        let ni = r@.len() as int;
        lemma_wrap_index(ki + 1, ni);
        assert(0 <= ki < r@.len() && is_sentinel(r@[ki]) && nxt == r@[(ki + 1) % ni]);
        assert forall|i: int| unique_sentinel_at(r@, i) implies nxt == r@[(i + 1) % ni] by {
            assert(i == ki);
        }
        if r@.len() >= 2 && (exists|i: int| unique_sentinel_at(r@, i)) {
            let i = choose|i: int| unique_sentinel_at(r@, i);
            assert(i == ki);
            assert((ki + 1) % ni != ki);
        }
    }
    nxt
}

/// Rotates the day around `now` and picks the next upcoming event in one
/// step: the earliest event strictly after `now` when one is still ahead,
/// else — the day being over — the chronologically first event, as if it
/// were tomorrow's.
pub fn upcoming_event(events: &Vec<Event>, now: u32) -> (nxt: Event)
    requires
        events@.len() >= 1,
        events@.len() < usize::MAX,
        forall|k: int| 0 <= k < events@.len() ==> !is_sentinel(#[trigger] events@[k]),
    ensures
        events@.contains(nxt),
        (exists|k: int| 0 <= k < events@.len() && (#[trigger] events@[k]).at > now) ==> (nxt.at
            > now && forall|k: int|
            0 <= k < events@.len() && (#[trigger] events@[k]).at > now ==> nxt.at <= events@[k].at),
        (forall|k: int| 0 <= k < events@.len() ==> (#[trigger] events@[k]).at <= now)
            ==> forall|k: int| 0 <= k < events@.len() ==> nxt.at <= (#[trigger] events@[k]).at,
{
    let r = rotate(events, now);
    let nxt = next_after_sentinel(&r);
    proof {
        let rs = rotate_spec(events@, now);
        let i0 = choose|i: int|
            0 <= i < r@.len() && is_sentinel(#[trigger] r@[i]) && nxt == r@[(i + 1) % (
            r@.len() as int)];
        assert(0 <= i0 < rs.len() && is_sentinel(rs[i0]) && nxt == rs[(i0 + 1) % (
        rs.len() as int)]);
        if exists|k: int| 0 <= k < events@.len() && (#[trigger] events@[k]).at > now {
            lemma_next_event_upcoming(events@, now, nxt);
        } else {
            assert forall|k: int| 0 <= k < events@.len() implies (#[trigger] events@[k]).at
                <= now by {}
            lemma_next_event_wraps(events@, now, nxt);
        }
    }
    nxt
}

/// With the current instant inside the day — at least one event still ahead —
/// the "next event" is the earliest event strictly after `now`: whenever
/// `now` falls between two chronologically adjacent events, it is the later
/// of the two.
pub proof fn lemma_next_event_upcoming(events: Seq<Event>, now: u32, nxt: Event)
    requires
        forall|k: int| 0 <= k < events.len() ==> !is_sentinel(#[trigger] events[k]),
        exists|k: int| 0 <= k < events.len() && (#[trigger] events[k]).at > now,
        exists|i: int|
            0 <= i < rotate_spec(events, now).len() && is_sentinel(
                #[trigger] rotate_spec(events, now)[i],
            ) && nxt == rotate_spec(events, now)[(i + 1) % (rotate_spec(events, now).len() as int)],
    ensures
        nxt.at > now,
        events.contains(nxt),
        forall|k: int| 0 <= k < events.len() && (#[trigger] events[k]).at > now ==> nxt.at <= events[k].at,
{
    let n = events.len() as int;
    let t = sorted_with_sentinel(events, now);
    let r = rotate_spec(events, now);
    let j = lemma_sentinel_position(events, now);
    let k0 = choose|k: int| 0 <= k < events.len() && (#[trigger] events[k]).at > now;
    assert(events.contains(events[k0]));
    assert(t.contains(events[k0]));
    let m0 = choose|m: int| 0 <= m < t.len() && t[m] == events[k0];
    assert(m0 != j);
    assert(m0 > j) by {
        if m0 < j {
            assert(t[m0].at <= now);
        }
    }
    // so the sentinel is not last: j < n, and t has at least two entries
    assert(j < n);
    assert(t.len() == n + 1);
    assert(r == t.drop_first().push(t[0]));
    assert(r.len() == n + 1);
    assert(forall|m: int| 0 <= m < n ==> r[m] == t[m + 1]);
    assert(r[n] == t[0]);
    // the sentinel's position in the rotated order, and its uniqueness there
    let i_sent: int = if j == 0 {
        n
    } else {
        j - 1
    };
    assert(is_sentinel(r[i_sent]));
    assert forall|m: int| 0 <= m < r.len() && m != i_sent implies !is_sentinel(
        #[trigger] r[m],
    ) by {
        if m < n {
            assert(r[m] == t[m + 1]);
        } else {
            assert(r[m] == t[0]);
        }
    }
    let i = choose|i: int|
        0 <= i < r.len() && is_sentinel(#[trigger] r[i]) && nxt == r[(i + 1) % (r.len() as int)];
    assert(i == i_sent);
    lemma_wrap_index(i_sent + 1, n + 1);
    if j == 0 {
        assert(nxt == r[0]);
        assert(nxt == t[1]);
    } else {
        assert(nxt == r[j]);
        assert(nxt == t[j + 1]);
    }
    assert(nxt == t[j + 1]);
    assert(nxt.at > now && events.contains(nxt));
    assert forall|k: int|
        0 <= k < events.len() && (#[trigger] events[k]).at > now implies nxt.at <= events[k].at by {
        assert(events.contains(events[k]));
        assert(t.contains(events[k]));
        let m = choose|m: int| 0 <= m < t.len() && t[m] == events[k];
        assert(m > j) by {
            if m < j {
                assert(t[m].at <= now);
            }
        }
        assert(t[j + 1].at <= t[m].at);
    }
}

/// With the current instant past the whole day — no event strictly after
/// `now` — the "next event" wraps to the chronologically first event, as if
/// it were tomorrow's.
pub proof fn lemma_next_event_wraps(events: Seq<Event>, now: u32, nxt: Event)
    requires
        forall|k: int| 0 <= k < events.len() ==> !is_sentinel(#[trigger] events[k]),
        events.len() >= 1,
        forall|k: int| 0 <= k < events.len() ==> (#[trigger] events[k]).at <= now,
        exists|i: int|
            0 <= i < rotate_spec(events, now).len() && is_sentinel(
                #[trigger] rotate_spec(events, now)[i],
            ) && nxt == rotate_spec(events, now)[(i + 1) % (rotate_spec(events, now).len() as int)],
    ensures
        events.contains(nxt),
        forall|k: int| 0 <= k < events.len() ==> nxt.at <= (#[trigger] events[k]).at,
{
    let n = events.len() as int;
    let t = sorted_with_sentinel(events, now);
    let r = rotate_spec(events, now);
    let j = lemma_sentinel_position(events, now);
    // the sentinel is last: anything after it would be an event later than now
    assert(j == n) by {
        if j < n {
            assert(t[j + 1].at > now);
            assert(events.contains(t[j + 1]));
            let k = choose|k: int| 0 <= k < events.len() && events[k] == t[j + 1];
        }
    }
    assert(t.len() == n + 1);
    assert(r == t.drop_first().push(t[0]));
    assert(r.len() == n + 1);
    assert(forall|m: int| 0 <= m < n ==> r[m] == t[m + 1]);
    assert(r[n] == t[0]);
    let i_sent: int = j - 1;
    assert(is_sentinel(r[i_sent]));
    assert forall|m: int| 0 <= m < r.len() && m != i_sent implies !is_sentinel(
        #[trigger] r[m],
    ) by {
        if m < n {
            assert(r[m] == t[m + 1]);
        } else {
            assert(r[m] == t[0]);
        }
    }
    let i = choose|i: int|
        0 <= i < r.len() && is_sentinel(#[trigger] r[i]) && nxt == r[(i + 1) % (r.len() as int)];
    assert(i == i_sent);
    lemma_wrap_index(i_sent + 1, n + 1);
    assert(nxt == r[n]);
    assert(nxt == t[0]);
    assert(events.contains(nxt));
    assert forall|k: int| 0 <= k < events.len() implies nxt.at <= (#[trigger] events[k]).at by {
        assert(events.contains(events[k]));
        assert(t.contains(events[k]));
        let m = choose|m: int| 0 <= m < t.len() && t[m] == events[k];
        assert(t[0].at <= t[m].at);
    }
}

} // verus!

