use vstd::prelude::*;

verus! {

/// Activity mode of raids.
pub const RAID_ACTIVITY_MODE: usize = 4;

/// Activity mode of dungeons.
pub const DUNGEON_ACTIVITY_MODE: usize = 82;

/// Activity mode of strikes.
pub const STRIKE_ACTIVITY_MODE: usize = 18;

/// Activity mode of lost sectors.
pub const LOSTSECTOR_ACTIVITY_MODE: usize = 87;

/// Activity type of raids, for definitions that list no modes.
pub const RAID_ACTIVITY_HASH: usize = 2043403989;

/// Activity type of dungeons, for definitions that list no modes.
pub const DUNGEON_ACTIVITY_HASH: usize = 608898761;

/// The modes whose clears are counted.
pub open spec fn is_tracked_mode(m: usize) -> bool {
    m == RAID_ACTIVITY_MODE || m == DUNGEON_ACTIVITY_MODE || m == STRIKE_ACTIVITY_MODE || m
        == LOSTSECTOR_ACTIVITY_MODE
}

/// The modes that the activity mode cache records.
pub open spec fn is_raid_or_dungeon_mode(m: usize) -> bool {
    m == RAID_ACTIVITY_MODE || m == DUNGEON_ACTIVITY_MODE
}

pub open spec fn has_tracked(modes: Seq<usize>) -> bool {
    exists|i: int| 0 <= i < modes.len() && is_tracked_mode(#[trigger] modes[i])
}

/// `modes` followed, in order, by each element of `extra` that is not yet in
/// the sequence built so far.
pub open spec fn append_missing(modes: Seq<usize>, extra: Seq<usize>) -> Seq<usize>
    decreases extra.len(),
{
    if extra.len() == 0 {
        modes
    } else {
        let r = append_missing(modes, extra.drop_last());
        if r.contains(extra.last()) {
            r
        } else {
            r.push(extra.last())
        }
    }
}

/// Modes of a history entry after the cached modes of its activity were
/// added: only when the entry carries no counted mode and the cache knows
/// the activity.
pub open spec fn supplemented(modes: Seq<usize>, cached: Option<Seq<usize>>) -> Seq<usize> {
    match cached {
        Some(c) => if has_tracked(modes) {
            modes
        } else {
            append_missing(modes, c)
        },
        None => modes,
    }
}

/// Whether any of `modes` is a counted mode (raid, dungeon, strike, lost
/// sector).
pub fn has_tracked_mode(modes: &[usize]) -> (r: bool)
    ensures
        r == has_tracked(modes@),
{
    let mut i: usize = 0;
    while i < modes.len()
        invariant
            i <= modes@.len(),
            forall|j: int| 0 <= j < i ==> !is_tracked_mode(#[trigger] modes@[j]),
        decreases modes@.len() - i,
    {
        let m = modes[i];
        if m == RAID_ACTIVITY_MODE || m == DUNGEON_ACTIVITY_MODE || m == STRIKE_ACTIVITY_MODE || m
            == LOSTSECTOR_ACTIVITY_MODE {
            assert(is_tracked_mode(modes@[i as int]));
            return true;
        }
        i = i + 1;
    }
    false
}

/// Whether `mode` occurs in `modes`.
pub fn contains_mode(modes: &[usize], mode: usize) -> (r: bool)
    ensures
        r == modes@.contains(mode),
{
    let mut i: usize = 0;
    while i < modes.len()
        invariant
            i <= modes@.len(),
            forall|j: int| 0 <= j < i ==> modes@[j] != mode,
        decreases modes@.len() - i,
    {
        if modes[i] == mode {
            assert(modes@[i as int] == mode);
            return true;
        }
        i = i + 1;
    }
    false
}

/// Adds the cached modes of an activity to a history entry's modes when the
/// entry carries no counted mode, appending each cached mode not yet present.
pub fn supplement_cached_modes(modes: &mut Vec<usize>, cached: Option<&[usize]>)
    ensures
        final(modes)@ == supplemented(
            old(modes)@,
            match cached {
                Some(c) => Some(c@),
                None => None,
            },
        ),
{
    if !has_tracked_mode(modes.as_slice()) {
        if let Some(cached) = cached {
            let ghost start = modes@;
            let mut i: usize = 0;
            assert(cached@.take(0) =~= Seq::<usize>::empty());
            while i < cached.len()
                invariant
                    i <= cached@.len(),
                    modes@ == append_missing(start, cached@.take(i as int)),
                decreases cached@.len() - i,
            {
                let mode = cached[i];
                assert(cached@.take(i + 1).drop_last() =~= cached@.take(i as int));
                assert(cached@.take(i + 1).last() == mode);
                if !contains_mode(modes.as_slice(), mode) {
                    modes.push(mode);
                }
                i = i + 1;
            }
            assert(cached@.take(cached@.len() as int) =~= cached@);
        }
    }
}

/// Every element of `extra` occurs after appending the missing ones, and
/// the given modes are kept as a prefix.
pub proof fn lemma_append_missing_contains(modes: Seq<usize>, extra: Seq<usize>)
    ensures
        forall|j: int| 0 <= j < extra.len() ==> append_missing(modes, extra).contains(
            #[trigger] extra[j],
        ),
        forall|j: int| 0 <= j < modes.len() ==> append_missing(modes, extra).contains(
            #[trigger] modes[j],
        ),
        append_missing(modes, extra).len() >= modes.len(),
        append_missing(modes, extra).subrange(0, modes.len() as int) == modes,
    decreases extra.len(),
{
    if extra.len() > 0 {
        let r = append_missing(modes, extra.drop_last());
        lemma_append_missing_contains(modes, extra.drop_last());
        let full = append_missing(modes, extra);
        assert forall|j: int| 0 <= j < extra.len() implies full.contains(#[trigger] extra[j]) by {
            if j < extra.len() - 1 {
                assert(extra.drop_last()[j] == extra[j]);
                assert(r.contains(extra[j]));
                let k = choose|k: int| 0 <= k < r.len() && r[k] == extra[j];
                assert(full[k] == extra[j]);
            } else {
                if !r.contains(extra.last()) {
                    assert(full[r.len() as int] == extra[j]);
                }
            }
        }
        assert forall|j: int| 0 <= j < modes.len() implies full.contains(#[trigger] modes[j]) by {
            assert(r.contains(modes[j]));
            let k = choose|k: int| 0 <= k < r.len() && r[k] == modes[j];
            assert(full[k] == modes[j]);
        }
        assert(full.subrange(0, modes.len() as int) =~= r.subrange(0, modes.len() as int));
    } else {
        assert(modes.subrange(0, modes.len() as int) =~= modes);
    }
}

/// Appending elements that are all present already changes nothing.
pub proof fn lemma_append_present_is_identity(modes: Seq<usize>, extra: Seq<usize>)
    requires
        forall|j: int| 0 <= j < extra.len() ==> modes.contains(#[trigger] extra[j]),
    ensures
        append_missing(modes, extra) == modes,
    decreases extra.len(),
{
    if extra.len() > 0 {
        assert forall|j: int| 0 <= j < extra.drop_last().len() implies modes.contains(
            #[trigger] extra.drop_last()[j],
        ) by {
            assert(extra.drop_last()[j] == extra[j]);
        }
        lemma_append_present_is_identity(modes, extra.drop_last());
        assert(modes.contains(extra[extra.len() - 1]));
    }
}

/// Appending only missing elements keeps a duplicate-free sequence
/// duplicate-free.
pub proof fn lemma_append_missing_no_duplicates(modes: Seq<usize>, extra: Seq<usize>)
    requires
        modes.no_duplicates(),
    ensures
        append_missing(modes, extra).no_duplicates(),
    decreases extra.len(),
{
    if extra.len() > 0 {
        lemma_append_missing_no_duplicates(modes, extra.drop_last());
        let r = append_missing(modes, extra.drop_last());
        if !r.contains(extra.last()) {
            let full = r.push(extra.last());
            assert forall|i: int, j: int|
                0 <= i < full.len() && 0 <= j < full.len() && i != j implies full[i]
                != full[j] by {
                if i == r.len() as int && j < r.len() {
                    assert(full[j] == r[j]);
                } else if j == r.len() as int && i < r.len() {
                    assert(full[i] == r[i]);
                }
            }
        }
    }
}

/// Supplementing a second time with the same cache changes nothing.
pub proof fn lemma_supplement_is_idempotent(modes: Seq<usize>, cached: Option<Seq<usize>>)
    ensures
        supplemented(supplemented(modes, cached), cached) == supplemented(modes, cached),
{
    if let Some(c) = cached {
        if !has_tracked(modes) {
            let r = append_missing(modes, c);
            lemma_append_missing_contains(modes, c);
            if !has_tracked(r) {
                lemma_append_present_is_identity(r, c);
            }
        }
    }
}

/// Supplementing never removes or reorders the entry's own modes, leaves an
/// entry with a counted mode unchanged, adds no duplicates, and gives the
/// entry a counted mode whenever the cache holds one.
pub proof fn lemma_supplement_properties(modes: Seq<usize>, cached: Option<Seq<usize>>)
    ensures
        supplemented(modes, cached).len() >= modes.len(),
        supplemented(modes, cached).subrange(0, modes.len() as int) == modes,
        has_tracked(modes) ==> supplemented(modes, cached) == modes,
        modes.no_duplicates() ==> supplemented(modes, cached).no_duplicates(),
        cached matches Some(c) && has_tracked(c) ==> has_tracked(supplemented(modes, cached)),
{
    match cached {
        Some(c) => {
            lemma_append_missing_contains(modes, c);
            if modes.no_duplicates() {
                lemma_append_missing_no_duplicates(modes, c);
            }
            if has_tracked(c) && !has_tracked(modes) {
                let i = choose|i: int| 0 <= i < c.len() && is_tracked_mode(#[trigger] c[i]);
                let r = append_missing(modes, c);
                assert(r.contains(c[i]));
                let k = choose|k: int| 0 <= k < r.len() && r[k] == c[i];
                assert(is_tracked_mode(r[k]));
            }
        },
        None => {
            assert(modes.subrange(0, modes.len() as int) =~= modes);
        },
    }
}

} // verus!
