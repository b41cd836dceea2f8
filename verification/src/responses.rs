use vstd::prelude::*;

use crate::modes::{
    append_missing, contains_mode, lemma_append_missing_contains, DUNGEON_ACTIVITY_HASH, DUNGEON_ACTIVITY_MODE,
    RAID_ACTIVITY_HASH, RAID_ACTIVITY_MODE,
};
use crate::time::Timestamp;

verus! {

/// A Bungie.net account found by name.
#[derive(Debug)]
pub struct BungieProfile {
    pub membership_type: usize,
    pub membership_id: String,
    pub bungie_global_display_name: String,
    pub bungie_global_display_name_code: usize,
    pub cross_save_override: usize,
}

/// The public part of a Destiny profile: its privacy setting, display name
/// and tag, and its characters.
#[derive(Debug, PartialEq, Eq)]
pub struct ProfileInfo {
    pub privacy: usize,
    pub display_name: String,
    pub display_tag: usize,
    pub character_ids: Vec<String>,
}

pub struct ProfileInfoView {
    pub privacy: usize,
    pub display_name: Seq<char>,
    pub display_tag: usize,
    pub character_ids: Seq<Seq<char>>,
}

pub open spec fn strings_view(v: Seq<String>) -> Seq<Seq<char>> {
    v.map_values(|s: String| s@)
}

impl View for ProfileInfo {
    type V = ProfileInfoView;

    open spec fn view(&self) -> ProfileInfoView {
        ProfileInfoView {
            privacy: self.privacy,
            display_name: self.display_name@,
            display_tag: self.display_tag,
            character_ids: strings_view(self.character_ids@),
        }
    }
}

/// A copy of a list of strings.
pub fn copy_strings(v: &Vec<String>) -> (r: Vec<String>)
    ensures
        strings_view(r@) == strings_view(v@),
{
    let mut r: Vec<String> = Vec::new();
    let mut i: usize = 0;
    while i < v.len()
        invariant
            i <= v@.len(),
            r@.len() == i,
            forall|j: int| 0 <= j < i ==> #[trigger] r@[j]@ == v@[j]@,
        decreases v@.len() - i,
    {
        r.push(v[i].clone());
        i = i + 1;
    }
    assert(strings_view(r@) =~= strings_view(v@));
    r
}

impl Clone for ProfileInfo {
    fn clone(&self) -> (r: ProfileInfo)
        ensures
            r@ == self@,
    {
        ProfileInfo {
            privacy: self.privacy,
            display_name: self.display_name.clone(),
            display_tag: self.display_tag,
            character_ids: copy_strings(&self.character_ids),
        }
    }
}

/// What one character is doing: the activity it is in (0 in orbit) and when
/// that activity started.
#[derive(Clone, Copy, Debug, PartialEq, Eq, Structural)]
pub struct LatestCharacterActivity {
    pub date_activity_started: Timestamp,
    pub current_activity_hash: usize,
}

/// The current activities of a profile's characters (`None` when private),
/// with the generation times of the character component and of the
/// optional transitory component, and the transitory start time.
#[derive(Debug)]
pub struct ProfileCurrentActivities {
    pub privacy: usize,
    pub activities: Option<Vec<(String, LatestCharacterActivity)>>,
    pub response_minted_timestamp: Option<Timestamp>,
    pub secondary_components_minted_timestamp: Option<Timestamp>,
    pub transitory_start_time: Option<Timestamp>,
}

/// The optional transitory timing of a profile, fetched on its own.
#[derive(Clone, Copy, Debug, Default, PartialEq, Eq)]
pub struct ProfileTransitoryTiming {
    pub secondary_components_minted_timestamp: Option<Timestamp>,
    pub start_time: Option<Timestamp>,
}

/// One page of a character's activity history.
#[derive(Debug)]
pub struct CharacterActivityHistory {
    pub activities: Option<Vec<CompletedActivity>>,
}

/// One run in a character's activity history.
#[derive(Debug, PartialEq, Eq)]
pub struct CompletedActivity {
    pub period: Timestamp,
    pub instance_id: String,
    pub activity_hash: usize,
    pub modes: Vec<usize>,
    pub completed: bool,
    pub activity_duration: String,
    pub activity_duration_seconds: usize,
}

pub struct CompletedActivityView {
    pub period: Timestamp,
    pub instance_id: Seq<char>,
    pub activity_hash: usize,
    pub modes: Seq<usize>,
    pub completed: bool,
    pub activity_duration: Seq<char>,
    pub activity_duration_seconds: usize,
}

impl View for CompletedActivity {
    type V = CompletedActivityView;

    open spec fn view(&self) -> CompletedActivityView {
        CompletedActivityView {
            period: self.period,
            instance_id: self.instance_id@,
            activity_hash: self.activity_hash,
            modes: self.modes@,
            completed: self.completed,
            activity_duration: self.activity_duration@,
            activity_duration_seconds: self.activity_duration_seconds,
        }
    }
}

/// A copy of a list of modes.
pub fn copy_modes(v: &[usize]) -> (r: Vec<usize>)
    ensures
        r@ == v@,
{
    let mut r: Vec<usize> = Vec::new();
    let mut i: usize = 0;
    while i < v.len()
        invariant
            i <= v@.len(),
            r@ == v@.take(i as int),
        decreases v@.len() - i,
    {
        r.push(v[i]);
        i = i + 1;
        assert(r@ =~= v@.take(i as int));
    }
    assert(v@.take(v@.len() as int) =~= v@);
    r
}

/// Whether two lists of modes are equal.
pub fn same_modes(a: &[usize], b: &[usize]) -> (r: bool)
    ensures
        r == (a@ == b@),
{
    if a.len() != b.len() {
        return false;
    }
    let mut i: usize = 0;
    while i < a.len()
        invariant
            i <= a@.len(),
            a@.len() == b@.len(),
            forall|j: int| 0 <= j < i ==> a@[j] == b@[j],
        decreases a@.len() - i,
    {
        if a[i] != b[i] {
            return false;
        }
        i = i + 1;
    }
    assert(a@ =~= b@);
    true
}

impl Clone for CompletedActivity {
    fn clone(&self) -> (r: CompletedActivity)
        ensures
            r@ == self@,
    {
        CompletedActivity {
            period: self.period,
            instance_id: self.instance_id.clone(),
            activity_hash: self.activity_hash,
            modes: copy_modes(self.modes.as_slice()),
            completed: self.completed,
            activity_duration: self.activity_duration.clone(),
            activity_duration_seconds: self.activity_duration_seconds,
        }
    }
}

impl CompletedActivity {
    /// Whether two records agree in every field.
    pub fn same_record(&self, other: &CompletedActivity) -> (r: bool)
        ensures
            r == (self@ == other@),
    {
        self.period == other.period && self.instance_id == other.instance_id
            && self.activity_hash == other.activity_hash && same_modes(
            self.modes.as_slice(),
            other.modes.as_slice(),
        ) && self.completed == other.completed && self.activity_duration
            == other.activity_duration && self.activity_duration_seconds
            == other.activity_duration_seconds
    }
}

/// The definition of an activity: its name, the modes it counts towards, and
/// its image.
#[derive(Debug, PartialEq, Eq)]
pub struct ActivityInfo {
    pub name: String,
    pub activity_modes: Vec<usize>,
    pub background_image: Option<String>,
}

pub struct ActivityInfoView {
    pub name: Seq<char>,
    pub activity_modes: Seq<usize>,
    pub background_image: Option<Seq<char>>,
}

pub open spec fn optional_string_view(s: Option<String>) -> Option<Seq<char>> {
    match s {
        Some(s) => Some(s@),
        None => None,
    }
}

impl View for ActivityInfo {
    type V = ActivityInfoView;

    open spec fn view(&self) -> ActivityInfoView {
        ActivityInfoView {
            name: self.name@,
            activity_modes: self.activity_modes@,
            background_image: optional_string_view(self.background_image),
        }
    }
}

impl Clone for ActivityInfo {
    fn clone(&self) -> (r: ActivityInfo)
        ensures
            r@ == self@,
    {
        ActivityInfo {
            name: self.name.clone(),
            activity_modes: copy_modes(self.activity_modes.as_slice()),
            background_image: match &self.background_image {
                Some(s) => Some(s.clone()),
                None => None,
            },
        }
    }
}

/// The modes implied by an activity type, for definitions whose mode list
/// lacks them.
pub open spec fn modes_for_type(activity_type_hash: usize) -> Seq<usize> {
    if activity_type_hash == RAID_ACTIVITY_HASH {
        seq![RAID_ACTIVITY_MODE]
    } else if activity_type_hash == DUNGEON_ACTIVITY_HASH {
        seq![DUNGEON_ACTIVITY_MODE]
    } else {
        Seq::empty()
    }
}

pub fn modes_from_hash(activity_type_hash: usize) -> (r: Vec<usize>)
    ensures
        r@ == modes_for_type(activity_type_hash),
        activity_type_hash == RAID_ACTIVITY_HASH ==> r@.contains(RAID_ACTIVITY_MODE),
        activity_type_hash == DUNGEON_ACTIVITY_HASH ==> r@.contains(DUNGEON_ACTIVITY_MODE),
        activity_type_hash != RAID_ACTIVITY_HASH && activity_type_hash != DUNGEON_ACTIVITY_HASH
            ==> r@.len() == 0,
        r@.len() <= 1,
{
    let mut r: Vec<usize> = Vec::new();
    if activity_type_hash == RAID_ACTIVITY_HASH {
        r.push(RAID_ACTIVITY_MODE);
    } else if activity_type_hash == DUNGEON_ACTIVITY_HASH {
        r.push(DUNGEON_ACTIVITY_MODE);
    }
    assert(r@ =~= modes_for_type(activity_type_hash));
    if activity_type_hash == RAID_ACTIVITY_HASH {
        assert(r@[0] == RAID_ACTIVITY_MODE);
    } else if activity_type_hash == DUNGEON_ACTIVITY_HASH {
        assert(r@[0] == DUNGEON_ACTIVITY_MODE);
    }
    r
}

/// A definition keeps its listed modes, in order, first; a definition of
/// raid type always counts as a raid and one of dungeon type as a dungeon;
/// any other type adds nothing; and no mode appears that is neither listed
/// nor implied by the type.
pub proof fn lemma_definition_modes_classify(
    activity_mode_types: Option<Seq<usize>>,
    activity_type_hash: usize,
)
    ensures
        ({
            let listed = match activity_mode_types {
                Some(m) => m,
                None => Seq::<usize>::empty(),
            };
            let d = definition_modes(activity_mode_types, activity_type_hash);
            &&& d.len() >= listed.len()
            &&& d.subrange(0, listed.len() as int) == listed
            &&& activity_type_hash == RAID_ACTIVITY_HASH ==> d.contains(RAID_ACTIVITY_MODE)
            &&& activity_type_hash == DUNGEON_ACTIVITY_HASH ==> d.contains(DUNGEON_ACTIVITY_MODE)
            &&& activity_type_hash != RAID_ACTIVITY_HASH && activity_type_hash
                != DUNGEON_ACTIVITY_HASH ==> d == listed
            &&& forall|x: usize|
                #[trigger] d.contains(x) ==> listed.contains(x) || (activity_type_hash
                    == RAID_ACTIVITY_HASH && x == RAID_ACTIVITY_MODE) || (activity_type_hash
                    == DUNGEON_ACTIVITY_HASH && x == DUNGEON_ACTIVITY_MODE)
        }),
{
    let listed = match activity_mode_types {
        Some(m) => m,
        None => Seq::<usize>::empty(),
    };
    let implied = modes_for_type(activity_type_hash);
    let d = definition_modes(activity_mode_types, activity_type_hash);
    lemma_append_missing_contains(listed, implied);
    assert(implied.len() <= 1);
    if implied.len() == 0 {
        assert(d == listed);
    } else {
        assert(implied.drop_last() =~= Seq::<usize>::empty());
        assert(append_missing(listed, implied.drop_last()) == listed);
        assert(implied[0] == implied.last());
        assert(d.contains(implied[0]));
        assert forall|x: usize| #[trigger] d.contains(x) implies listed.contains(x) || x
            == implied[0] by {
            if !listed.contains(x) {
                if listed.contains(implied.last()) {
                    assert(d == listed);
                } else {
                    assert(d == listed.push(implied.last()));
                    let k = choose|k: int| 0 <= k < d.len() && d[k] == x;
                    if k < listed.len() {
                        assert(listed[k] == x);
                    }
                }
            }
        }
    }
}

/// The modes of an activity definition: its listed modes (none when
/// absent), then the mode implied by its type if not listed already.
pub open spec fn definition_modes(
    activity_mode_types: Option<Seq<usize>>,
    activity_type_hash: usize,
) -> Seq<usize> {
    append_missing(
        match activity_mode_types {
            Some(m) => m,
            None => Seq::empty(),
        },
        modes_for_type(activity_type_hash),
    )
}

impl ActivityInfo {
    /// Builds the information of an activity from the fields of its
    /// definition: the name, the listed modes, the activity type and the
    /// image.
    pub fn from_definition(
        name: String,
        activity_mode_types: Option<Vec<usize>>,
        activity_type_hash: usize,
        pgcr_image: Option<String>,
    ) -> (r: ActivityInfo)
        ensures
            r.name@ == name@,
            r.activity_modes@ == definition_modes(
                match activity_mode_types {
                    Some(m) => Some(m@),
                    None => None,
                },
                activity_type_hash,
            ),
            optional_string_view(r.background_image) == optional_string_view(pgcr_image),
            activity_type_hash == RAID_ACTIVITY_HASH ==> r.activity_modes@.contains(
                RAID_ACTIVITY_MODE,
            ),
            activity_type_hash == DUNGEON_ACTIVITY_HASH ==> r.activity_modes@.contains(
                DUNGEON_ACTIVITY_MODE,
            ),
            activity_mode_types is Some ==> r.activity_modes@.subrange(
                0,
                activity_mode_types->0@.len() as int,
            ) == activity_mode_types->0@,
    {
        let ghost listed = if activity_mode_types is Some {
            activity_mode_types->0@
        } else {
            Seq::<usize>::empty()
        };
        let mut modes = match activity_mode_types {
            Some(m) => m,
            None => Vec::new(),
        };
        let implied = modes_from_hash(activity_type_hash);
        let mut i: usize = 0;
        assert(implied@.take(0) =~= Seq::<usize>::empty());
        while i < implied.len()
            invariant
                i <= implied@.len(),
                modes@ == append_missing(listed, implied@.take(i as int)),
            decreases implied@.len() - i,
        {
            let mode = implied[i];
            assert(implied@.take(i + 1).drop_last() =~= implied@.take(i as int));
            if !contains_mode(modes.as_slice(), mode) {
                modes.push(mode);
            }
            i = i + 1;
        }
        assert(implied@.take(implied@.len() as int) =~= implied@);
        proof {
            lemma_definition_modes_classify(
                if activity_mode_types is Some {
                    Some(activity_mode_types->0@)
                } else {
                    None
                },
                activity_type_hash,
            );
        }
        ActivityInfo { name, activity_modes: modes, background_image: pgcr_image }
    }
}

} // verus!
