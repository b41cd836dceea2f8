use vstd::prelude::*;

use std::collections::HashMap;

use crate::modes::{is_raid_or_dungeon_mode, DUNGEON_ACTIVITY_MODE, RAID_ACTIVITY_MODE};
use crate::responses::{
    same_modes, strings_view, ActivityInfo, ActivityInfoView,
    ProfileInfo, ProfileInfoView,
};

verus! {

broadcast use vstd::std_specs::hash::group_hash_axioms;

/// A Destiny account on one platform.
#[derive(Debug, PartialEq, Eq, Hash)]
pub struct Profile {
    pub account_id: String,
    pub account_platform: usize,
}

pub struct ProfileView {
    pub account_id: Seq<char>,
    pub account_platform: usize,
}

impl View for Profile {
    type V = ProfileView;

    open spec fn view(&self) -> ProfileView {
        ProfileView { account_id: self.account_id@, account_platform: self.account_platform }
    }
}

impl Clone for Profile {
    fn clone(&self) -> (r: Profile)
        ensures
            r@ == self@,
    {
        Profile { account_id: self.account_id.clone(), account_platform: self.account_platform }
    }
}

impl Profile {
    /// Whether both name the same account.
    pub fn same_account(&self, other: &Profile) -> (r: bool)
        ensures
            r == (self@ == other@),
    {
        self.account_id == other.account_id && self.account_platform == other.account_platform
    }
}

/// No profile occurs twice in `s`.
pub open spec fn unique_profiles(s: Seq<(Profile, ProfileInfo)>) -> bool {
    forall|i: int, j: int|
        0 <= i < s.len() && 0 <= j < s.len() && i != j ==> (#[trigger] s[i]).0@ != (
        #[trigger] s[j]).0@
}

pub open spec fn has_profile(s: Seq<(Profile, ProfileInfo)>, k: ProfileView) -> bool {
    exists|i: int| 0 <= i < s.len() && (#[trigger] s[i]).0@ == k
}

pub open spec fn index_of_profile(s: Seq<(Profile, ProfileInfo)>, k: ProfileView) -> int {
    choose|i: int| 0 <= i < s.len() && (#[trigger] s[i]).0@ == k
}

/// The information of each profile in the list.
pub open spec fn profile_entries(s: Seq<(Profile, ProfileInfo)>) -> Map<
    ProfileView,
    ProfileInfoView,
> {
    Map::new(
        |k: ProfileView| has_profile(s, k),
        |k: ProfileView| s[index_of_profile(s, k)].1@,
    )
}

/// The index of `profile` in `cache`.
fn find_profile(cache: &Vec<(Profile, ProfileInfo)>, profile: &Profile) -> (r: Option<usize>)
    requires
        unique_profiles(cache@),
    ensures
        match r {
            Some(i) => i < cache@.len() && cache@[i as int].0@ == profile@ && i == index_of_profile(
                cache@,
                profile@,
            ),
            None => !has_profile(cache@, profile@),
        },
{
    let mut i: usize = 0;
    while i < cache.len()
        invariant
            unique_profiles(cache@),
            i <= cache@.len(),
            forall|j: int| 0 <= j < i ==> (#[trigger] cache@[j]).0@ != profile@,
        decreases cache@.len() - i,
    {
        if cache[i].0.same_account(profile) {
            assert(cache@[i as int].0@ == profile@);
            assert(has_profile(cache@, profile@));
            let ghost k = index_of_profile(cache@, profile@);
            assert(cache@[k].0@ == profile@);
            assert(k == i);
            return Some(i);
        }
        i = i + 1;
    }
    None
}

/// Puts `info` for `profile` into the list: replaces its entry or appends one.
fn put_profile(cache: &mut Vec<(Profile, ProfileInfo)>, profile: Profile, info: ProfileInfo)
    requires
        unique_profiles(old(cache)@),
    ensures
        unique_profiles(final(cache)@),
        profile_entries(final(cache)@) == profile_entries(old(cache)@).insert(profile@, info@),
{
    let ghost old_entries = profile_entries(cache@);
    let ghost key = profile@;
    let ghost value = info@;
    let ghost before = cache@;
    match find_profile(cache, &profile) {
        Some(i) => {
            cache.set(i, (profile, info));
            proof {
                let after = cache@;
                assert forall|a: int, b: int|
                    0 <= a < after.len() && 0 <= b < after.len() && a != b implies (
                    #[trigger] after[a]).0@ != (#[trigger] after[b]).0@ by {
                    if a != i as int && b != i as int {
                        assert(after[a] == before[a] && after[b] == before[b]);
                    } else if a == i as int {
                        assert(after[b] == before[b]);
                        assert(before[i as int].0@ == key);
                    } else {
                        assert(after[a] == before[a]);
                        assert(before[i as int].0@ == key);
                    }
                }
                assert forall|k: ProfileView| #[trigger] has_profile(after, k) == (k == key
                    || old_entries.contains_key(k)) by {
                    if old_entries.contains_key(k) {
                        let j = choose|j: int| 0 <= j < before.len() && (#[trigger] before[j]).0@ == k;
                        if j == i as int {
                            assert(after[j].0@ == k);
                        } else {
                            assert(after[j] == before[j]);
                        }
                    }
                    if k == key {
                        assert(after[i as int].0@ == k);
                    }
                    if has_profile(after, k) {
                        let j = choose|j: int| 0 <= j < after.len() && (#[trigger] after[j]).0@ == k;
                        if j != i as int {
                            assert(before[j] == after[j]);
                        } else {
                            assert(before[i as int].0@ == key);
                        }
                    }
                }
                assert(profile_entries(after) =~= old_entries.insert(key, value)) by {
                    assert forall|k: ProfileView| #[trigger] profile_entries(after).contains_key(
                        k,
                    ) implies profile_entries(after)[k] == old_entries.insert(key, value)[k] by {
                        let j = index_of_profile(after, k);
                        if k == key {
                            assert(after[i as int].0@ == k);
                        } else {
                            let jo = choose|jo: int|
                                0 <= jo < before.len() && (#[trigger] before[jo]).0@ == k;
                            assert(jo != i as int);
                            assert(after[jo] == before[jo]);
                            assert(after[j].0@ == k);
                            assert(j == jo);
                            assert(old_entries[k] == before[index_of_profile(before, k)].1@);
                        }
                    }
                }
            }
        },
        None => {
            cache.push((profile, info));
            proof {
                let after = cache@;
                let n = before.len() as int;
                assert(after[n].0@ == key);
                assert forall|a: int, b: int|
                    0 <= a < after.len() && 0 <= b < after.len() && a != b implies (
                    #[trigger] after[a]).0@ != (#[trigger] after[b]).0@ by {
                    if a != n && b != n {
                        assert(after[a] == before[a] && after[b] == before[b]);
                    } else if a == n {
                        assert(after[b] == before[b]);
                    } else {
                        assert(after[a] == before[a]);
                    }
                }
                assert forall|k: ProfileView| #[trigger] has_profile(after, k) == (k == key
                    || old_entries.contains_key(k)) by {
                    if old_entries.contains_key(k) {
                        let j = choose|j: int| 0 <= j < before.len() && (#[trigger] before[j]).0@ == k;
                        assert(after[j] == before[j]);
                    }
                    if has_profile(after, k) {
                        let j = choose|j: int| 0 <= j < after.len() && (#[trigger] after[j]).0@ == k;
                        if j != n {
                            assert(before[j] == after[j]);
                        }
                    }
                }
                assert(profile_entries(after) =~= old_entries.insert(key, value)) by {
                    assert forall|k: ProfileView| #[trigger] profile_entries(after).contains_key(
                        k,
                    ) implies profile_entries(after)[k] == old_entries.insert(key, value)[k] by {
                        let j = index_of_profile(after, k);
                        if k == key {
                            assert(j == n);
                        } else {
                            let jo = choose|jo: int|
                                0 <= jo < before.len() && (#[trigger] before[jo]).0@ == k;
                            assert(after[jo] == before[jo]);
                            assert(j == jo);
                        }
                    }
                }
            }
        },
    }
}

/// The profile information already fetched, one entry per profile.
pub struct ProfileInfoSource {
    cache: Vec<(Profile, ProfileInfo)>,
}

impl ProfileInfoSource {
    /// No profile occurs twice.
    #[verifier::type_invariant]
    spec fn wf(&self) -> bool {
        unique_profiles(self.cache@)
    }

    /// The cached information of each profile.
    pub closed spec fn entries(&self) -> Map<ProfileView, ProfileInfoView> {
        profile_entries(self.cache@)
    }

    pub fn new() -> (s: ProfileInfoSource)
        ensures
            s.entries() == Map::<ProfileView, ProfileInfoView>::empty(),
    {
        let s = ProfileInfoSource { cache: Vec::new() };
        assert(s.entries() =~= Map::<ProfileView, ProfileInfoView>::empty());
        s
    }

    /// The cached information of `profile`.
    pub fn cached(&self, profile: &Profile) -> (r: Option<ProfileInfo>)
        ensures
            match r {
                Some(info) => self.entries().contains_key(profile@) && info@ == self.entries()[profile@],
                None => !self.entries().contains_key(profile@),
            },
    {
        proof {
            use_type_invariant(self);
        }
        match find_profile(&self.cache, profile) {
            Some(i) => Some(self.cache[i].1.clone()),
            None => None,
        }
    }

    /// Records the information fetched for `profile`.
    pub fn store(&mut self, profile: Profile, info: ProfileInfo)
        ensures
            final(self).entries() == old(self).entries().insert(profile@, info@),
    {
        proof {
            use_type_invariant(&*self);
        }
        let mut cache: Vec<(Profile, ProfileInfo)> = Vec::new();
        std::mem::swap(&mut cache, &mut self.cache);
        put_profile(&mut cache, profile, info);
        self.cache = cache;
    }

    /// Replaces the character list of `profile` if its information is cached;
    /// otherwise changes nothing.
    pub fn set_characters(&mut self, profile: &Profile, characters: Vec<String>)
        ensures
            old(self).entries().contains_key(profile@) ==> final(self).entries() == old(
                self,
            ).entries().insert(
                profile@,
                ProfileInfoView {
                    character_ids: strings_view(characters@),
                    ..old(self).entries()[profile@]
                },
            ),
            !old(self).entries().contains_key(profile@) ==> final(self).entries() == old(
                self,
            ).entries(),
    {
        proof {
            use_type_invariant(&*self);
        }
        match find_profile(&self.cache, profile) {
            Some(i) => {
                let key = self.cache[i].0.clone();
                let old_info = self.cache[i].1.clone();
                let info = ProfileInfo {
                    privacy: old_info.privacy,
                    display_name: old_info.display_name,
                    display_tag: old_info.display_tag,
                    character_ids: characters,
                };
                self.store(key, info);
            },
            None => {},
        }
    }
}

/// The raid and dungeon modes of each activity seen so far, kept across runs
/// so that history entries without mode data can still be classified.
pub struct ActivityModeCache {
    pub modes: HashMap<usize, Vec<usize>>,
}

/// The raid and dungeon modes among `modes`, in order.
pub open spec fn raid_or_dungeon_modes(modes: Seq<usize>) -> Seq<usize>
    decreases modes.len(),
{
    if modes.len() == 0 {
        modes
    } else {
        let rest = raid_or_dungeon_modes(modes.drop_last());
        if is_raid_or_dungeon_mode(modes.last()) {
            rest.push(modes.last())
        } else {
            rest
        }
    }
}

pub open spec fn modes_view(m: Map<usize, Vec<usize>>) -> Map<usize, Seq<usize>> {
    Map::new(|k: usize| m.contains_key(k), |k: usize| m[k]@)
}

impl View for ActivityModeCache {
    type V = Map<usize, Seq<usize>>;

    open spec fn view(&self) -> Map<usize, Seq<usize>> {
        modes_view(self.modes@)
    }
}

/// Whether recording `modes` for `activity_hash` changes the cache: only
/// when the activity has raid or dungeon modes that differ from the
/// recorded ones.
pub open spec fn records_new_modes(
    cache: Map<usize, Seq<usize>>,
    activity_hash: usize,
    modes: Seq<usize>,
) -> bool {
    let kept = raid_or_dungeon_modes(modes);
    kept.len() != 0 && !(cache.contains_key(activity_hash) && cache[activity_hash] == kept)
}

/// The raid and dungeon modes among `modes`.
pub fn filter_raid_or_dungeon(modes: &[usize]) -> (r: Vec<usize>)
    ensures
        r@ == raid_or_dungeon_modes(modes@),
{
    let mut r: Vec<usize> = Vec::new();
    let mut i: usize = 0;
    assert(modes@.take(0) =~= Seq::<usize>::empty());
    while i < modes.len()
        invariant
            i <= modes@.len(),
            r@ == raid_or_dungeon_modes(modes@.take(i as int)),
        decreases modes@.len() - i,
    {
        let m = modes[i];
        assert(modes@.take(i + 1).drop_last() =~= modes@.take(i as int));
        if m == RAID_ACTIVITY_MODE || m == DUNGEON_ACTIVITY_MODE {
            r.push(m);
        }
        i = i + 1;
    }
    assert(modes@.take(modes@.len() as int) =~= modes@);
    r
}

impl ActivityModeCache {
    pub fn new(modes: HashMap<usize, Vec<usize>>) -> (c: ActivityModeCache)
        ensures
            c.modes@ == modes@,
    {
        ActivityModeCache { modes }
    }

    /// Records the raid and dungeon modes of an activity. Returns whether the
    /// cache changed (and so needs saving).
    pub fn record_raid_or_dungeon(&mut self, activity_hash: usize, modes: &[usize]) -> (changed:
        bool)
        ensures
            changed == records_new_modes(old(self)@, activity_hash, modes@),
            changed ==> final(self)@ == old(self)@.insert(
                activity_hash,
                raid_or_dungeon_modes(modes@),
            ),
            !changed ==> final(self)@ == old(self)@,
    {
        let kept_modes = filter_raid_or_dungeon(modes);
        if kept_modes.len() == 0 {
            return false;
        }
        let same = match self.modes.get(&activity_hash) {
            Some(recorded) => same_modes(recorded.as_slice(), kept_modes.as_slice()),
            None => false,
        };
        if same {
            return false;
        }
        let ghost before = self.modes@;
        let ghost kept = kept_modes@;
        self.modes.insert(activity_hash, kept_modes);
        assert(modes_view(self.modes@) =~= modes_view(before).insert(activity_hash, kept));
        true
    }
}

/// The activity definitions already fetched, and the activity mode cache.
pub struct ActivityInfoSource {
    cache: HashMap<usize, ActivityInfo>,
    mode_cache: ActivityModeCache,
}

pub open spec fn infos_view(m: Map<usize, ActivityInfo>) -> Map<usize, ActivityInfoView> {
    Map::new(|k: usize| m.contains_key(k), |k: usize| m[k]@)
}

impl ActivityInfoSource {
    /// The cached definition of each activity.
    pub closed spec fn infos(&self) -> Map<usize, ActivityInfoView> {
        infos_view(self.cache@)
    }

    /// The recorded raid and dungeon modes of each activity.
    pub closed spec fn recorded_modes(&self) -> Map<usize, Seq<usize>> {
        self.mode_cache@
    }

    /// An empty definition cache beside the given mode cache.
    pub fn new(mode_cache: ActivityModeCache) -> (s: ActivityInfoSource)
        ensures
            s.infos() == Map::<usize, ActivityInfoView>::empty(),
            s.recorded_modes() == mode_cache@,
    {
        let s = ActivityInfoSource { cache: HashMap::new(), mode_cache };
        assert(s.infos() =~= Map::<usize, ActivityInfoView>::empty());
        s
    }

    /// A copy of the recorded modes of every activity.
    pub fn cached_modes_snapshot(&self) -> (r: HashMap<usize, Vec<usize>>)
        ensures
            modes_view(r@) == self.recorded_modes(),
    {
        self.mode_cache.modes.clone()
    }

    /// The mode cache, to be saved.
    pub fn mode_cache(&self) -> (c: &ActivityModeCache)
        ensures
            c@ == self.recorded_modes(),
    {
        &self.mode_cache
    }

    /// The cached definition of `activity_hash`.
    pub fn cached(&self, activity_hash: usize) -> (r: Option<ActivityInfo>)
        ensures
            match r {
                Some(info) => self.infos().contains_key(activity_hash) && info@ == self.infos()[activity_hash],
                None => !self.infos().contains_key(activity_hash),
            },
    {
        match self.cache.get(&activity_hash) {
            Some(info) => Some(info.clone()),
            None => None,
        }
    }

    /// Records a definition just fetched: its raid and dungeon modes go to
    /// the mode cache and the definition to the definition cache. Returns
    /// whether the mode cache changed (and so needs saving).
    pub fn store(&mut self, activity_hash: usize, info: ActivityInfo) -> (changed: bool)
        ensures
            final(self).infos() == old(self).infos().insert(activity_hash, info@),
            changed == records_new_modes(
                old(self).recorded_modes(),
                activity_hash,
                info.activity_modes@,
            ),
            changed ==> final(self).recorded_modes() == old(self).recorded_modes().insert(
                activity_hash,
                raid_or_dungeon_modes(info.activity_modes@),
            ),
            !changed ==> final(self).recorded_modes() == old(self).recorded_modes(),
            final(self).recorded_modes() == record_modes(
                old(self).recorded_modes(),
                activity_hash,
                info.activity_modes@,
            ),
    {
        let changed = self.mode_cache.record_raid_or_dungeon(
            activity_hash,
            info.activity_modes.as_slice(),
        );
        let ghost before = self.cache@;
        let ghost value = info@;
        self.cache.insert(activity_hash, info);
        assert(infos_view(self.cache@) =~= infos_view(before).insert(activity_hash, value));
        changed
    }
}

/// Recording the same modes of an activity a second time changes nothing.
pub proof fn lemma_recording_again_changes_nothing(
    cache: Map<usize, Seq<usize>>,
    activity_hash: usize,
    modes: Seq<usize>,
)
    ensures
        !records_new_modes(
            if records_new_modes(cache, activity_hash, modes) {
                cache.insert(activity_hash, raid_or_dungeon_modes(modes))
            } else {
                cache
            },
            activity_hash,
            modes,
        ),
{
}


/// The recorded modes after recording `modes` for `activity_hash`.
pub open spec fn record_modes(
    cache: Map<usize, Seq<usize>>,
    activity_hash: usize,
    modes: Seq<usize>,
) -> Map<usize, Seq<usize>> {
    if records_new_modes(cache, activity_hash, modes) {
        cache.insert(activity_hash, raid_or_dungeon_modes(modes))
    } else {
        cache
    }
}

/// The recorded modes after recording each (activity, modes) pair in turn,
/// starting from `start`.
pub open spec fn replay_records(
    start: Map<usize, Seq<usize>>,
    records: Seq<(usize, Seq<usize>)>,
) -> Map<usize, Seq<usize>>
    decreases records.len(),
{
    if records.len() == 0 {
        start
    } else {
        record_modes(
            replay_records(start, records.drop_last()),
            records.last().0,
            records.last().1,
        )
    }
}

/// The last non-empty list of raid and dungeon modes recorded for
/// `activity_hash`, else what `start` holds for it.
pub open spec fn last_recorded(
    start: Map<usize, Seq<usize>>,
    records: Seq<(usize, Seq<usize>)>,
    activity_hash: usize,
) -> Option<Seq<usize>>
    decreases records.len(),
{
    if records.len() == 0 {
        if start.contains_key(activity_hash) {
            Some(start[activity_hash])
        } else {
            None
        }
    } else if records.last().0 == activity_hash && raid_or_dungeon_modes(records.last().1).len()
        > 0 {
        Some(raid_or_dungeon_modes(records.last().1))
    } else {
        last_recorded(start, records.drop_last(), activity_hash)
    }
}

/// However definitions are fetched, the mode cache maps each activity to
/// the last non-empty list of raid and dungeon modes recorded for it, or to
/// what it was loaded with.
pub proof fn lemma_recorded_modes_are_last_recorded(
    start: Map<usize, Seq<usize>>,
    records: Seq<(usize, Seq<usize>)>,
    activity_hash: usize,
)
    ensures
        replay_records(start, records).contains_key(activity_hash) == last_recorded(
            start,
            records,
            activity_hash,
        ) is Some,
        replay_records(start, records).contains_key(activity_hash) ==> Some(
            replay_records(start, records)[activity_hash],
        ) == last_recorded(start, records, activity_hash),
    decreases records.len(),
{
    if records.len() > 0 {
        lemma_recorded_modes_are_last_recorded(start, records.drop_last(), activity_hash);
    }
}

/// The raid and dungeon modes of a list are exactly its raid and dungeon
/// entries, in order.
pub proof fn lemma_raid_or_dungeon_modes_is_filter(modes: Seq<usize>)
    ensures
        raid_or_dungeon_modes(modes) == modes.filter(|m: usize| is_raid_or_dungeon_mode(m)),
    decreases modes.len(),
{
    reveal(Seq::filter);
    if modes.len() > 0 {
        lemma_raid_or_dungeon_modes_is_filter(modes.drop_last());
    }
}

} // verus!
