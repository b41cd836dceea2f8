use vstd::prelude::*;

use std::collections::HashMap;
use vstd::multiset::Multiset;
use vstd::utf8::encode_utf8;

use crate::modes::{has_tracked, has_tracked_mode, supplement_cached_modes, supplemented};
use crate::responses::{CompletedActivity, CompletedActivityView};
use crate::sources::modes_view;
use crate::time::Timestamp;

verus! {

/// Lexicographic order of byte strings, the order of Rust strings.
pub open spec fn bytes_before(a: Seq<u8>, b: Seq<u8>) -> bool
    decreases a.len(),
{
    if a.len() == 0 {
        b.len() > 0
    } else if b.len() == 0 {
        false
    } else if a[0] != b[0] {
        a[0] < b[0]
    } else {
        bytes_before(a.drop_first(), b.drop_first())
    }
}

/// Whether `a` is ordered before `b` as strings.
pub fn str_before(a: &str, b: &str) -> (r: bool)
    ensures
        r == bytes_before(encode_utf8(a@), encode_utf8(b@)),
{
    let x = a.as_bytes();
    let y = b.as_bytes();
    let ghost xs = x@;
    let ghost ys = y@;
    let mut i: usize = 0;
    assert(xs.skip(0) =~= xs);
    assert(ys.skip(0) =~= ys);
    while i < x.len() && i < y.len()
        invariant
            xs == x@,
            ys == y@,
            xs == encode_utf8(a@),
            ys == encode_utf8(b@),
            i <= xs.len(),
            i <= ys.len(),
            bytes_before(xs, ys) == bytes_before(xs.skip(i as int), ys.skip(i as int)),
        decreases xs.len() - i,
    {
        assert(xs.skip(i as int)[0] == xs[i as int]);
        assert(ys.skip(i as int)[0] == ys[i as int]);
        if x[i] != y[i] {
            return x[i] < y[i];
        }
        assert(xs.skip(i as int).drop_first() =~= xs.skip(i + 1));
        assert(ys.skip(i as int).drop_first() =~= ys.skip(i + 1));
        i = i + 1;
    }
    assert(xs.skip(i as int).len() == 0 || ys.skip(i as int).len() == 0);
    i < y.len()
}

/// The order in which history is kept: newest first, and runs of the same
/// start by instance id.
pub open spec fn comes_before(a: CompletedActivityView, b: CompletedActivityView) -> bool {
    b.period.precedes(a.period) || (a.period == b.period && bytes_before(
        encode_utf8(a.instance_id),
        encode_utf8(b.instance_id),
    ))
}

/// `x` inserted into the ordered `sorted` after every element it does not
/// come before.
pub open spec fn insert_in_order(
    sorted: Seq<CompletedActivityView>,
    x: CompletedActivityView,
) -> Seq<CompletedActivityView>
    decreases sorted.len(),
{
    if sorted.len() == 0 {
        seq![x]
    } else if comes_before(x, sorted[0]) {
        seq![x] + sorted
    } else {
        seq![sorted[0]] + insert_in_order(sorted.drop_first(), x)
    }
}

/// The records in history order; records in no particular order to each
/// other keep their order of arrival.
pub open spec fn sorted_history(s: Seq<CompletedActivityView>) -> Seq<CompletedActivityView>
    decreases s.len(),
{
    if s.len() == 0 {
        s
    } else {
        insert_in_order(sorted_history(s.drop_last()), s.last())
    }
}

pub open spec fn history_view(v: Seq<CompletedActivity>) -> Seq<CompletedActivityView> {
    v.map_values(|a: CompletedActivity| a@)
}

/// No record is ordered before an earlier one.
pub open spec fn is_history_ordered(s: Seq<CompletedActivityView>) -> bool {
    forall|i: int, j: int| 0 <= i < j < s.len() ==> !comes_before(#[trigger] s[j], #[trigger] s[i])
}

proof fn lemma_insert_at_first_after(
    sorted: Seq<CompletedActivityView>,
    x: CompletedActivityView,
    p: int,
)
    requires
        0 <= p <= sorted.len(),
        forall|j: int| 0 <= j < p ==> !comes_before(x, #[trigger] sorted[j]),
        p < sorted.len() ==> comes_before(x, sorted[p]),
    ensures
        insert_in_order(sorted, x) == sorted.insert(p, x),
    decreases sorted.len(),
{
    if sorted.len() == 0 {
        assert(sorted.insert(p, x) =~= seq![x]);
    } else if p == 0 {
        assert(sorted.insert(0, x) =~= seq![x] + sorted);
    } else {
        let rest = sorted.drop_first();
        assert forall|j: int| 0 <= j < p - 1 implies !comes_before(x, #[trigger] rest[j]) by {
            assert(rest[j] == sorted[j + 1]);
        }
        assert(!comes_before(x, sorted[0]));
        lemma_insert_at_first_after(rest, x, p - 1);
        assert(seq![sorted[0]] + rest.insert(p - 1, x) =~= sorted.insert(p, x));
    }
}

/// Sorts history records newest first, runs of the same start by instance
/// id, keeping the arrival order of records that compare equal.
pub fn sort_history(activities: Vec<CompletedActivity>) -> (r: Vec<CompletedActivity>)
    ensures
        history_view(r@) == sorted_history(history_view(activities@)),
{
    let ghost input = history_view(activities@);
    let count = activities.len();
    let mut rest = activities;
    let mut out: Vec<CompletedActivity> = Vec::new();
    let ghost n = input.len();
    let mut k: usize = 0;
    assert(input.take(0) =~= Seq::<CompletedActivityView>::empty());
    assert(history_view(rest@) =~= input.skip(0));
    while rest.len() > 0
        invariant
            n == input.len(),
            n == count,
            k <= n,
            history_view(rest@) == input.skip(k as int),
            rest@.len() == n - k,
            history_view(out@) == sorted_history(input.take(k as int)),
        decreases rest@.len(),
    {
        let ghost rest_before = rest@;
        assert(history_view(rest_before)[0] == rest_before[0]@);
        let x = rest.remove(0);
        let ghost xv = x@;
        assert(xv == input[k as int]);
        assert forall|j: int| 0 <= j < rest@.len() implies #[trigger] history_view(rest@)[j]
            == input.skip(k + 1)[j] by {
            assert(rest@[j] == rest_before[j + 1]);
            assert(history_view(rest_before)[j + 1] == input.skip(k as int)[j + 1]);
        }
        assert(history_view(rest@) =~= input.skip(k + 1));
        let mut p: usize = 0;
        let mut placed = false;
        while p < out.len() && !placed
            invariant
                xv == x@,
                p <= out@.len(),
                forall|j: int| 0 <= j < p ==> !comes_before(xv, #[trigger] history_view(out@)[j]),
                placed ==> p < out@.len() && comes_before(xv, history_view(out@)[p as int]),
            decreases out@.len() - p + (if placed { 0int } else { 1int }),
        {
            assert(history_view(out@)[p as int] == out@[p as int]@);
            if x.period.is_before(&out[p].period) {
                p = p + 1;
            } else if out[p].period.is_before(&x.period) {
                placed = true;
            } else if str_before(x.instance_id.as_str(), out[p].instance_id.as_str()) {
                placed = true;
            } else {
                p = p + 1;
            }
        }
        proof {
            lemma_insert_at_first_after(history_view(out@), xv, p as int);
        }
        let ghost before = out@;
        out.insert(p, x);
        proof {
            assert(history_view(out@) =~= history_view(before).insert(p as int, xv));
            assert(input.take(k + 1).drop_last() =~= input.take(k as int));
            assert(input.take(k + 1).last() == xv);
        }
        k = k + 1;
    }
    assert(input.take(n as int) =~= input);
    out
}

/// Whether two histories agree record by record.
pub fn same_history(a: &Vec<CompletedActivity>, b: &Vec<CompletedActivity>) -> (r: bool)
    ensures
        r == (history_view(a@) == history_view(b@)),
{
    if a.len() != b.len() {
        assert(history_view(a@).len() != history_view(b@).len());
        return false;
    }
    let mut i: usize = 0;
    while i < a.len()
        invariant
            i <= a@.len(),
            a@.len() == b@.len(),
            forall|j: int| 0 <= j < i ==> a@[j]@ == b@[j]@,
        decreases a@.len() - i,
    {
        if !a[i].same_record(&b[i]) {
            assert(history_view(a@)[i as int] != history_view(b@)[i as int]);
            return false;
        }
        i = i + 1;
    }
    assert(history_view(a@) =~= history_view(b@));
    true
}

/// Replaces the kept history by `activities` in history order, unless it
/// holds exactly those records already. Returns whether it changed.
pub fn replace_history_if_changed(
    last_history: &mut Vec<CompletedActivity>,
    activities: Vec<CompletedActivity>,
) -> (changed: bool)
    ensures
        history_view(final(last_history)@) == sorted_history(history_view(activities@)),
        changed == (history_view(old(last_history)@) != sorted_history(history_view(activities@))),
        !changed ==> final(last_history)@ == old(last_history)@,
{
    let sorted = sort_history(activities);
    if same_history(last_history, &sorted) {
        return false;
    }
    *last_history = sorted;
    true
}

/// A history entry with the cached modes of its activity added.
pub open spec fn with_cached_modes(
    a: CompletedActivityView,
    cache: Map<usize, Seq<usize>>,
) -> CompletedActivityView {
    CompletedActivityView {
        modes: supplemented(
            a.modes,
            if cache.contains_key(a.activity_hash) {
                Some(cache[a.activity_hash])
            } else {
                None
            },
        ),
        ..a
    }
}

/// The entries of a history page that count: those not before the cut-off
/// whose modes, with the cached ones added, include a counted mode.
pub open spec fn page_records(
    page: Seq<CompletedActivityView>,
    cutoff: Timestamp,
    cache: Map<usize, Seq<usize>>,
) -> Seq<CompletedActivityView>
    decreases page.len(),
{
    if page.len() == 0 {
        page
    } else {
        let rest = page_records(page.drop_last(), cutoff, cache);
        let a = page.last();
        if a.period.precedes(cutoff) {
            rest
        } else {
            let b = with_cached_modes(a, cache);
            if has_tracked(b.modes) {
                rest.push(b)
            } else {
                rest
            }
        }
    }
}

/// Some entry of the page is before the cut-off.
pub open spec fn reaches_cutoff(page: Seq<CompletedActivityView>, cutoff: Timestamp) -> bool {
    exists|i: int| 0 <= i < page.len() && (#[trigger] page[i]).period.precedes(cutoff)
}

/// The cached modes of an activity, if the cache knows it.
pub open spec fn cached_modes_of(cache: Map<usize, Seq<usize>>, activity_hash: usize) -> Option<
    Seq<usize>,
> {
    if cache.contains_key(activity_hash) {
        Some(cache[activity_hash])
    } else {
        None
    }
}

/// A history entry counts towards today's clears: it started at or after
/// the cut-off, and its modes, with the cached modes of its activity added,
/// include a counted mode.
pub open spec fn counts_today(
    a: CompletedActivityView,
    cutoff: Timestamp,
    cache: Map<usize, Seq<usize>>,
) -> bool {
    !a.period.precedes(cutoff) && has_tracked(
        supplemented(a.modes, cached_modes_of(cache, a.activity_hash)),
    )
}

/// The entry as kept: its modes with the cached modes of its activity added.
pub open spec fn as_kept(a: CompletedActivityView, cache: Map<usize, Seq<usize>>) -> CompletedActivityView {
    CompletedActivityView {
        period: a.period,
        instance_id: a.instance_id,
        activity_hash: a.activity_hash,
        modes: supplemented(a.modes, cached_modes_of(cache, a.activity_hash)),
        completed: a.completed,
        activity_duration: a.activity_duration,
        activity_duration_seconds: a.activity_duration_seconds,
    }
}

/// Of a page, exactly the entries that count towards today's clears are
/// kept, each with the cached modes of its activity added (also when it
/// already lists other, uncounted modes), in page order: every counting
/// entry is kept, every kept record comes from a counting entry, and the
/// number kept is the number that count.
pub proof fn lemma_page_records_are_the_counting_entries(
    page: Seq<CompletedActivityView>,
    cutoff: Timestamp,
    cache: Map<usize, Seq<usize>>,
)
    ensures
        forall|i: int|
            0 <= i < page.len() && counts_today(#[trigger] page[i], cutoff, cache)
                ==> page_records(page, cutoff, cache).contains(as_kept(page[i], cache)),
        forall|k: int|
            #![trigger page_records(page, cutoff, cache)[k]]
            0 <= k < page_records(page, cutoff, cache).len() ==> exists|i: int|
                0 <= i < page.len() && counts_today(#[trigger] page[i], cutoff, cache)
                    && page_records(page, cutoff, cache)[k] == as_kept(page[i], cache),
        page_records(page, cutoff, cache).len() == page.filter(
            |a: CompletedActivityView| counts_today(a, cutoff, cache),
        ).len(),
    decreases page.len(),
{
    let p = |a: CompletedActivityView| counts_today(a, cutoff, cache);
    if page.len() == 0 {
        assert(page.filter(p) =~= Seq::<CompletedActivityView>::empty()) by {
            reveal(Seq::filter);
        }
    } else {
        let rest = page.drop_last();
        lemma_page_records_are_the_counting_entries(rest, cutoff, cache);
        let r = page_records(rest, cutoff, cache);
        let full = page_records(page, cutoff, cache);
        let a = page.last();
        let n = page.len() - 1;
        assert(with_cached_modes(a, cache) == as_kept(a, cache));
        assert(counts_today(a, cutoff, cache) == (!a.period.precedes(cutoff) && has_tracked(
            with_cached_modes(a, cache).modes,
        )));
        assert(full == if counts_today(a, cutoff, cache) {
            r.push(as_kept(a, cache))
        } else {
            r
        });
        assert(page.filter(p) == if p(a) {
            rest.filter(p).push(a)
        } else {
            rest.filter(p)
        }) by {
            reveal(Seq::filter);
            assert(page.drop_last() == rest);
        }
        assert forall|i: int|
            0 <= i < page.len() && counts_today(#[trigger] page[i], cutoff, cache) implies full.contains(
            as_kept(page[i], cache)) by {
            if i < n {
                assert(rest[i] == page[i]);
                assert(r.contains(as_kept(rest[i], cache)));
                let k = choose|k: int| 0 <= k < r.len() && r[k] == as_kept(rest[i], cache);
                assert(full[k] == r[k]);
            } else {
                assert(page[i] == a);
                assert(full[r.len() as int] == as_kept(a, cache));
            }
        }
        assert forall|k: int| #![trigger full[k]] 0 <= k < full.len() implies exists|i: int|
            0 <= i < page.len() && counts_today(#[trigger] page[i], cutoff, cache) && full[k]
                == as_kept(page[i], cache) by {
            if k < r.len() {
                assert(full[k] == r[k]);
                let i = choose|i: int|
                    0 <= i < rest.len() && counts_today(#[trigger] rest[i], cutoff, cache) && r[k]
                        == as_kept(rest[i], cache);
                assert(page[i] == rest[i]);
            } else {
                assert(page[n] == a);
            }
        }
    }
}

/// Takes one page of a character's history: appends its counted entries at
/// or after `cutoff` to `past`. Returns whether the next page is needed: the
/// page was not empty and reached no entry before the cut-off.
pub fn collect_history_page(
    past: &mut Vec<CompletedActivity>,
    page: Option<Vec<CompletedActivity>>,
    cutoff: Timestamp,
    cached_modes: &HashMap<usize, Vec<usize>>,
) -> (more: bool)
    ensures
        match page {
            Some(p) if p@.len() > 0 => {
                &&& history_view(final(past)@) == history_view(old(past)@) + page_records(
                    history_view(p@),
                    cutoff,
                    modes_view(cached_modes@),
                )
                &&& more == !reaches_cutoff(history_view(p@), cutoff)
                &&& forall|i: int|
                    0 <= i < p@.len() && counts_today(
                        #[trigger] history_view(p@)[i],
                        cutoff,
                        modes_view(cached_modes@),
                    ) ==> history_view(final(past)@).contains(
                        as_kept(history_view(p@)[i], modes_view(cached_modes@)),
                    )
                &&& final(past)@.len() == old(past)@.len() + history_view(p@).filter(
                    |a: CompletedActivityView| counts_today(a, cutoff, modes_view(cached_modes@)),
                ).len()
            },
            _ => !more && final(past)@ == old(past)@,
        },
{
    let mut rest = match page {
        Some(p) => p,
        None => {
            return false;
        },
    };
    if rest.len() == 0 {
        return false;
    }
    let ghost input = history_view(rest@);
    let ghost start = history_view(past@);
    let ghost cache = modes_view(cached_modes@);
    let count = rest.len();
    let ghost n = input.len();
    let mut k: usize = 0;
    let mut includes_past_cutoff = false;
    assert(input.take(0) =~= Seq::<CompletedActivityView>::empty());
    assert(history_view(rest@) =~= input.skip(0));
    while rest.len() > 0
        invariant
            n == input.len(),
            n == count,
            k <= n,
            history_view(rest@) == input.skip(k as int),
            rest@.len() == n - k,
            cache == modes_view(cached_modes@),
            history_view(past@) == start + page_records(input.take(k as int), cutoff, cache),
            includes_past_cutoff == reaches_cutoff(input.take(k as int), cutoff),
        decreases rest@.len(),
    {
        let ghost rest_before = rest@;
        assert(history_view(rest_before)[0] == rest_before[0]@);
        let mut activity = rest.remove(0);
        let ghost av = activity@;
        assert(av == input[k as int]);
        assert forall|j: int| 0 <= j < rest@.len() implies #[trigger] history_view(rest@)[j]
            == input.skip(k + 1)[j] by {
            assert(rest@[j] == rest_before[j + 1]);
            assert(history_view(rest_before)[j + 1] == input.skip(k as int)[j + 1]);
        }
        assert(history_view(rest@) =~= input.skip(k + 1));
        let ghost taken = input.take(k + 1);
        assert(taken.drop_last() =~= input.take(k as int));
        assert(taken.last() == av);
        if activity.period.is_before(&cutoff) {
            includes_past_cutoff = true;
            assert(taken[k as int].period.precedes(cutoff));
        } else {
            let cached = match cached_modes.get(&activity.activity_hash) {
                Some(m) => Some(m.as_slice()),
                None => None,
            };
            supplement_cached_modes(&mut activity.modes, cached);
            assert(activity@ == with_cached_modes(av, cache));
            if has_tracked_mode(activity.modes.as_slice()) {
                let ghost before = past@;
                past.push(activity);
                assert(history_view(past@) =~= history_view(before).push(with_cached_modes(av, cache)));
            }
            assert(reaches_cutoff(taken, cutoff) == reaches_cutoff(input.take(k as int), cutoff)) by {
                if reaches_cutoff(taken, cutoff) {
                    let i = choose|i: int| 0 <= i < taken.len() && (#[trigger] taken[i]).period.precedes(cutoff);
                    assert(i != k as int);
                    assert(input.take(k as int)[i] == taken[i]);
                }
            }
        }
        assert(reaches_cutoff(input.take(k as int), cutoff) ==> reaches_cutoff(taken, cutoff)) by {
            if reaches_cutoff(input.take(k as int), cutoff) {
                let i = choose|i: int|
                    0 <= i < input.take(k as int).len() && (#[trigger] input.take(
                        k as int,
                    )[i]).period.precedes(cutoff);
                assert(taken[i] == input.take(k as int)[i]);
            }
        }
        k = k + 1;
    }
    assert(input.take(n as int) =~= input);
    proof {
        lemma_page_records_are_the_counting_entries(input, cutoff, cache);
        let kept = page_records(input, cutoff, cache);
        assert forall|i: int|
            0 <= i < input.len() && counts_today(#[trigger] input[i], cutoff, cache) implies (start
            + kept).contains(as_kept(input[i], cache)) by {
            let k = choose|k: int| 0 <= k < kept.len() && kept[k] == as_kept(input[i], cache);
            assert((start + kept)[start.len() + k] == kept[k]);
        }
    }
    !includes_past_cutoff
}

proof fn lemma_bytes_before_irreflexive(a: Seq<u8>)
    ensures
        !bytes_before(a, a),
    decreases a.len(),
{
    if a.len() > 0 {
        lemma_bytes_before_irreflexive(a.drop_first());
    }
}

proof fn lemma_bytes_before_transitive(a: Seq<u8>, b: Seq<u8>, c: Seq<u8>)
    requires
        bytes_before(a, b),
        bytes_before(b, c),
    ensures
        bytes_before(a, c),
    decreases a.len(),
{
    if a.len() > 0 && b.len() > 0 && c.len() > 0 {
        if a[0] == b[0] && b[0] == c[0] {
            lemma_bytes_before_transitive(a.drop_first(), b.drop_first(), c.drop_first());
        }
    }
}

/// The history order is a strict order: no record comes before itself, and
/// it is transitive.
pub proof fn lemma_comes_before_strict(
    a: CompletedActivityView,
    b: CompletedActivityView,
    c: CompletedActivityView,
)
    ensures
        !comes_before(a, a),
        comes_before(a, b) && comes_before(b, c) ==> comes_before(a, c),
        comes_before(a, b) ==> !comes_before(b, a),
{
    lemma_bytes_before_irreflexive(encode_utf8(a.instance_id));
    if comes_before(a, b) && comes_before(b, c) && a.period == b.period && b.period == c.period {
        lemma_bytes_before_transitive(
            encode_utf8(a.instance_id),
            encode_utf8(b.instance_id),
            encode_utf8(c.instance_id),
        );
    }
    if comes_before(a, b) && comes_before(b, a) && a.period == b.period {
        lemma_bytes_before_transitive(
            encode_utf8(a.instance_id),
            encode_utf8(b.instance_id),
            encode_utf8(a.instance_id),
        );
    }
}

proof fn lemma_insert_in_order_members(t: Seq<CompletedActivityView>, x: CompletedActivityView)
    ensures
        insert_in_order(t, x).len() == t.len() + 1,
        forall|k: int|
            0 <= k < t.len() + 1 ==> #[trigger] insert_in_order(t, x)[k] == x || t.contains(
                insert_in_order(t, x)[k],
            ),
        insert_in_order(t, x).to_multiset() == t.to_multiset().insert(x),
    decreases t.len(),
{
    broadcast use vstd::seq_lib::group_seq_properties;
    broadcast use vstd::multiset::group_multiset_axioms;

    let r = insert_in_order(t, x);
    if t.len() == 0 {
        assert(seq![x] =~= Seq::<CompletedActivityView>::empty().push(x));
        assert(t.to_multiset() =~= Multiset::empty());
    } else if comes_before(x, t[0]) {
        assert forall|k: int| 0 <= k < t.len() + 1 implies #[trigger] r[k] == x || t.contains(r[k]) by {
            if k > 0 {
                assert(r[k] == t[k - 1]);
            }
        }
        vstd::seq_lib::lemma_multiset_commutative(seq![x], t);
        assert(seq![x] =~= Seq::<CompletedActivityView>::empty().push(x));
        assert(r.to_multiset() =~= t.to_multiset().insert(x));
    } else {
        let rest = t.drop_first();
        lemma_insert_in_order_members(rest, x);
        let inner = insert_in_order(rest, x);
        assert forall|k: int| 0 <= k < t.len() + 1 implies #[trigger] r[k] == x || t.contains(r[k]) by {
            if k == 0 {
                assert(r[0] == t[0]);
            } else {
                assert(r[k] == inner[k - 1]);
                if inner[k - 1] != x {
                    let j = choose|j: int| 0 <= j < rest.len() && rest[j] == inner[k - 1];
                    assert(t[j + 1] == rest[j]);
                }
            }
        }
        vstd::seq_lib::lemma_multiset_commutative(seq![t[0]], inner);
        vstd::seq_lib::lemma_multiset_commutative(seq![t[0]], rest);
        assert(seq![t[0]] + rest =~= t);
        assert(r.to_multiset() =~= t.to_multiset().insert(x));
    }
}

proof fn lemma_insert_in_order_keeps_order(t: Seq<CompletedActivityView>, x: CompletedActivityView)
    requires
        is_history_ordered(t),
    ensures
        is_history_ordered(insert_in_order(t, x)),
    decreases t.len(),
{
    let r = insert_in_order(t, x);
    lemma_insert_in_order_members(t, x);
    if t.len() == 0 {
    } else if comes_before(x, t[0]) {
        assert forall|i: int, j: int| 0 <= i < j < r.len() implies !comes_before(
            #[trigger] r[j],
            #[trigger] r[i],
        ) by {
            if i == 0 {
                assert(r[j] == t[j - 1]);
                lemma_comes_before_strict(t[j - 1], x, t[0]);
                if j - 1 > 0 {
                    assert(!comes_before(t[j - 1], t[0]));
                }
            } else {
                assert(r[i] == t[i - 1]);
                assert(r[j] == t[j - 1]);
            }
        }
    } else {
        let rest = t.drop_first();
        assert forall|i: int, j: int| 0 <= i < j < rest.len() implies !comes_before(
            #[trigger] rest[j],
            #[trigger] rest[i],
        ) by {
            assert(rest[i] == t[i + 1]);
            assert(rest[j] == t[j + 1]);
        }
        lemma_insert_in_order_keeps_order(rest, x);
        let inner = insert_in_order(rest, x);
        lemma_insert_in_order_members(rest, x);
        assert forall|i: int, j: int| 0 <= i < j < r.len() implies !comes_before(
            #[trigger] r[j],
            #[trigger] r[i],
        ) by {
            if i == 0 {
                assert(r[0] == t[0]);
                assert(r[j] == inner[j - 1]);
                if inner[j - 1] != x {
                    let m = choose|m: int| 0 <= m < rest.len() && rest[m] == inner[j - 1];
                    assert(t[m + 1] == rest[m]);
                }
            } else {
                assert(r[i] == inner[i - 1]);
                assert(r[j] == inner[j - 1]);
            }
        }
    }
}

/// The kept history is in history order: newest first, runs of the same
/// start by instance id.
pub proof fn lemma_sorted_history_is_ordered(s: Seq<CompletedActivityView>)
    ensures
        is_history_ordered(sorted_history(s)),
    decreases s.len(),
{
    if s.len() > 0 {
        lemma_sorted_history_is_ordered(s.drop_last());
        lemma_insert_in_order_keeps_order(sorted_history(s.drop_last()), s.last());
    }
}

/// Sorting keeps exactly the records it was given.
pub proof fn lemma_sorted_history_is_permutation(s: Seq<CompletedActivityView>)
    ensures
        sorted_history(s).to_multiset() == s.to_multiset(),
    decreases s.len(),
{
    broadcast use vstd::seq_lib::group_seq_properties;

    if s.len() > 0 {
        lemma_sorted_history_is_permutation(s.drop_last());
        lemma_insert_in_order_members(sorted_history(s.drop_last()), s.last());
        assert(s.drop_last().push(s.last()) =~= s);
    } else {
        assert(s.to_multiset() =~= Multiset::empty());
    }
}

proof fn lemma_bytes_before_total(a: Seq<u8>, b: Seq<u8>)
    requires
        a != b,
    ensures
        bytes_before(a, b) || bytes_before(b, a),
    decreases a.len(),
{
    if a.len() > 0 && b.len() > 0 && a[0] == b[0] {
        if a.drop_first() == b.drop_first() {
            assert(a =~= seq![a[0]] + a.drop_first());
            assert(b =~= seq![b[0]] + b.drop_first());
        }
        lemma_bytes_before_total(a.drop_first(), b.drop_first());
    } else if a.len() == 0 && b.len() == 0 {
        assert(a =~= b);
    }
}

/// Any two records of `s` with the same start and instance id are the same
/// record.
pub open spec fn keys_identify_records(s: Seq<CompletedActivityView>) -> bool {
    forall|i: int, j: int|
        0 <= i < s.len() && 0 <= j < s.len() && (#[trigger] s[i]).period == (#[trigger] s[j]).period
            && s[i].instance_id == s[j].instance_id ==> s[i] == s[j]
}

spec fn comparable(s: Seq<CompletedActivityView>) -> bool {
    forall|p: CompletedActivityView, q: CompletedActivityView|
        #[trigger] s.contains(p) && #[trigger] s.contains(q) ==> p == q || comes_before(p, q)
            || comes_before(q, p)
}

proof fn lemma_ordered_unique(x: Seq<CompletedActivityView>, y: Seq<CompletedActivityView>)
    requires
        is_history_ordered(x),
        is_history_ordered(y),
        x.to_multiset() == y.to_multiset(),
        comparable(x),
    ensures
        x == y,
    decreases x.len(),
{
    broadcast use vstd::seq_lib::group_seq_properties;
    broadcast use vstd::multiset::group_multiset_axioms;

    assert(x.len() == x.to_multiset().len());
    assert(y.len() == y.to_multiset().len());
    if x.len() == 0 {
        assert(x =~= y);
    } else {
        assert(x.contains(x[0]));
        assert(y.to_multiset().count(x[0]) > 0);
        assert(y.contains(x[0]));
        assert(y.contains(y[0]));
        assert(x.to_multiset().count(y[0]) > 0);
        assert(x.contains(y[0]));
        if x[0] != y[0] {
            let k = choose|k: int| 0 <= k < y.len() && y[k] == x[0];
            let m = choose|m: int| 0 <= m < x.len() && x[m] == y[0];
            assert(k != 0);
            assert(m != 0);
            assert(!comes_before(y[k], y[0]));
            assert(!comes_before(x[m], x[0]));
            assert(false);
        }
        let xr = x.drop_first();
        let yr = y.drop_first();
        assert(x.remove(0) =~= xr);
        assert(y.remove(0) =~= yr);
        assert(xr.to_multiset() =~= yr.to_multiset());
        assert forall|i: int, j: int| 0 <= i < j < xr.len() implies !comes_before(
            #[trigger] xr[j],
            #[trigger] xr[i],
        ) by {
            assert(xr[i] == x[i + 1]);
            assert(xr[j] == x[j + 1]);
        }
        assert forall|i: int, j: int| 0 <= i < j < yr.len() implies !comes_before(
            #[trigger] yr[j],
            #[trigger] yr[i],
        ) by {
            assert(yr[i] == y[i + 1]);
            assert(yr[j] == y[j + 1]);
        }
        assert forall|p: CompletedActivityView, q: CompletedActivityView|
            #[trigger] xr.contains(p) && #[trigger] xr.contains(q) implies p == q || comes_before(
                p,
                q,
            ) || comes_before(q, p) by {
            let i = choose|i: int| 0 <= i < xr.len() && xr[i] == p;
            let j = choose|j: int| 0 <= j < xr.len() && xr[j] == q;
            assert(x[i + 1] == p);
            assert(x[j + 1] == q);
            assert(x.contains(p));
            assert(x.contains(q));
        }
        lemma_ordered_unique(xr, yr);
        assert(x =~= seq![x[0]] + xr);
        assert(y =~= seq![y[0]] + yr);
    }
}

/// Records that arrive in another order give the same history, as long as
/// the start and instance id of a record identify it.
pub proof fn lemma_sorted_history_ignores_arrival_order(
    a: Seq<CompletedActivityView>,
    b: Seq<CompletedActivityView>,
)
    requires
        a.to_multiset() == b.to_multiset(),
        keys_identify_records(a),
    ensures
        sorted_history(a) == sorted_history(b),
{
    broadcast use vstd::seq_lib::group_seq_properties;
    broadcast use vstd::utf8::encode_utf8_decode_utf8;

    let x = sorted_history(a);
    let y = sorted_history(b);
    lemma_sorted_history_is_ordered(a);
    lemma_sorted_history_is_ordered(b);
    lemma_sorted_history_is_permutation(a);
    lemma_sorted_history_is_permutation(b);
    assert forall|p: CompletedActivityView, q: CompletedActivityView|
        #[trigger] x.contains(p) && #[trigger] x.contains(q) implies p == q || comes_before(p, q)
        || comes_before(q, p) by {
        assert(x.to_multiset().count(p) > 0);
        assert(x.to_multiset().count(q) > 0);
        assert(a.contains(p));
        assert(a.contains(q));
        let i = choose|i: int| 0 <= i < a.len() && a[i] == p;
        let j = choose|j: int| 0 <= j < a.len() && a[j] == q;
        if p != q {
            if p.period == q.period {
                assert(p.instance_id != q.instance_id);
                assert(encode_utf8(p.instance_id) != encode_utf8(q.instance_id)) by {
                    if encode_utf8(p.instance_id) == encode_utf8(q.instance_id) {
                        assert(vstd::utf8::decode_utf8(encode_utf8(p.instance_id)) == p.instance_id);
                        assert(vstd::utf8::decode_utf8(encode_utf8(q.instance_id)) == q.instance_id);
                    }
                }
                lemma_bytes_before_total(encode_utf8(p.instance_id), encode_utf8(q.instance_id));
            }
        }
    }
    lemma_ordered_unique(x, y);
}

/// A copy of a history.
pub fn copy_history(v: &Vec<CompletedActivity>) -> (r: Vec<CompletedActivity>)
    ensures
        history_view(r@) == history_view(v@),
{
    let mut r: Vec<CompletedActivity> = Vec::new();
    let mut i: usize = 0;
    while i < v.len()
        invariant
            i <= v@.len(),
            r@.len() == i,
            forall|j: int| 0 <= j < i ==> #[trigger] r@[j]@ == v@[j]@,
        decreases v@.len() - i,
    {
        r.push(v[i].clone());
        i = i + 1;
    }
    assert(history_view(r@) =~= history_view(v@));
    r
}


} // verus!
