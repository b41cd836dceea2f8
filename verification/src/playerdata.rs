use vstd::prelude::*;

use crate::history::{copy_history, history_view};
use crate::responses::{
    strings_view, ActivityInfo, ActivityInfoView, CompletedActivity, CompletedActivityView,
    LatestCharacterActivity, ProfileInfo, ProfileInfoView,
};
use crate::time::{valid_time, Timestamp};
use crate::timing::keep_valid;

verus! {

/// The activity shown as current: when it started, which it is (0 in orbit),
/// and its definition when one with a name was found.
#[derive(Debug, PartialEq, Eq)]
pub struct CurrentActivity {
    pub start_date: Timestamp,
    pub activity_hash: usize,
    pub activity_info: Option<ActivityInfo>,
}

pub struct CurrentActivityView {
    pub start_date: Timestamp,
    pub activity_hash: usize,
    pub activity_info: Option<ActivityInfoView>,
}

impl View for CurrentActivity {
    type V = CurrentActivityView;

    open spec fn view(&self) -> CurrentActivityView {
        CurrentActivityView {
            start_date: self.start_date,
            activity_hash: self.activity_hash,
            activity_info: match self.activity_info {
                Some(i) => Some(i@),
                None => None,
            },
        }
    }
}

impl Clone for CurrentActivity {
    fn clone(&self) -> (r: CurrentActivity)
        ensures
            r@ == self@,
    {
        CurrentActivity {
            start_date: self.start_date,
            activity_hash: self.activity_hash,
            activity_info: match &self.activity_info {
                Some(i) => Some(i.clone()),
                None => None,
            },
        }
    }
}

/// Everything shown about a profile.
#[derive(Debug, PartialEq, Eq)]
pub struct PlayerData {
    pub current_activity: CurrentActivity,
    pub activity_history: Vec<CompletedActivity>,
    pub profile_info: ProfileInfo,
}

pub struct PlayerDataView {
    pub current_activity: CurrentActivityView,
    pub activity_history: Seq<CompletedActivityView>,
    pub profile_info: ProfileInfoView,
}

impl View for PlayerData {
    type V = PlayerDataView;

    open spec fn view(&self) -> PlayerDataView {
        PlayerDataView {
            current_activity: self.current_activity@,
            activity_history: history_view(self.activity_history@),
            profile_info: self.profile_info@,
        }
    }
}

impl Clone for PlayerData {
    fn clone(&self) -> (r: PlayerData)
        ensures
            r@ == self@,
    {
        PlayerData {
            current_activity: self.current_activity.clone(),
            activity_history: copy_history(&self.activity_history),
            profile_info: self.profile_info.clone(),
        }
    }
}

/// The last complete update, if any, and the error of the last poll, if it
/// failed.
#[derive(Debug, PartialEq, Eq)]
pub struct PlayerDataStatus {
    pub last_update: Option<PlayerData>,
    pub error: Option<String>,
}

pub struct PlayerDataStatusView {
    pub last_update: Option<PlayerDataView>,
    pub error: Option<Seq<char>>,
}

impl View for PlayerDataStatus {
    type V = PlayerDataStatusView;

    open spec fn view(&self) -> PlayerDataStatusView {
        PlayerDataStatusView {
            last_update: match self.last_update {
                Some(d) => Some(d@),
                None => None,
            },
            error: match self.error {
                Some(e) => Some(e@),
                None => None,
            },
        }
    }
}

impl Clone for PlayerDataStatus {
    fn clone(&self) -> (r: PlayerDataStatus)
        ensures
            r@ == self@,
    {
        PlayerDataStatus {
            last_update: match &self.last_update {
                Some(d) => Some(d.clone()),
                None => None,
            },
            error: match &self.error {
                Some(e) => Some(e.clone()),
                None => None,
            },
        }
    }
}

impl Default for PlayerDataStatus {
    fn default() -> (s: PlayerDataStatus)
        ensures
            s.last_update is None,
            s.error is None,
    {
        PlayerDataStatus { last_update: None, error: None }
    }
}

impl PlayerDataStatus {
    /// Records a failed poll; what was shown stays.
    pub fn record_error(&mut self, message: String)
        ensures
            final(self).last_update == old(self).last_update,
            final(self).error matches Some(e) && e@ == message@,
    {
        self.error = Some(message);
    }

    /// Records the first complete update, clearing any error.
    pub fn complete(&mut self, data: PlayerData)
        ensures
            final(self).last_update == Some(data),
            final(self).error is None,
    {
        self.last_update = Some(data);
        self.error = None;
    }

    /// Takes the outcome of a poll of the current activity: a failure
    /// message, or success with the new current activity if it changed. A
    /// success clears the error. Returns whether the status must be sent
    /// again: on failure, on change, and on recovery from an error.
    pub fn apply_current_poll(&mut self, outcome: Result<Option<CurrentActivity>, String>) -> (send:
        bool)
        requires
            outcome matches Ok(Some(_)) ==> old(self).last_update is Some,
        ensures
            match outcome {
                Err(message) => {
                    &&& send
                    &&& final(self).last_update == old(self).last_update
                    &&& final(self).error matches Some(e) && e@ == message@
                },
                Ok(changed) => {
                    &&& send == (changed is Some || old(self).error is Some)
                    &&& final(self).error is None
                    &&& match changed {
                        Some(current) => final(self).last_update == Some(
                            PlayerData { current_activity: current, ..old(self).last_update->0 },
                        ),
                        None => final(self).last_update == old(self).last_update,
                    }
                },
            },
    {
        match outcome {
            Err(message) => {
                self.error = Some(message);
                true
            },
            Ok(changed) => {
                let recovered = self.error.is_some();
                self.error = None;
                let is_changed = changed.is_some();
                match changed {
                    Some(current) => {
                        let data = self.last_update.take();
                        match data {
                            Some(d) => {
                                self.last_update = Some(
                                    PlayerData {
                                        current_activity: current,
                                        activity_history: d.activity_history,
                                        profile_info: d.profile_info,
                                    },
                                );
                            },
                            None => {},
                        }
                    },
                    None => {},
                }
                is_changed || recovered
            },
        }
    }

    /// Takes the outcome of a poll of the history: a failure message, or
    /// success with the new history if it changed. A success leaves the
    /// error as it is. Returns whether the status must be sent again: on
    /// failure and on change.
    pub fn apply_history_poll(
        &mut self,
        outcome: Result<Option<Vec<CompletedActivity>>, String>,
    ) -> (send: bool)
        requires
            outcome matches Ok(Some(_)) ==> old(self).last_update is Some,
        ensures
            match outcome {
                Err(message) => {
                    &&& send
                    &&& final(self).last_update == old(self).last_update
                    &&& final(self).error matches Some(e) && e@ == message@
                },
                Ok(changed) => {
                    &&& send == changed is Some
                    &&& final(self).error == old(self).error
                    &&& match changed {
                        Some(history) => final(self).last_update == Some(
                            PlayerData { activity_history: history, ..old(self).last_update->0 },
                        ),
                        None => final(self).last_update == old(self).last_update,
                    }
                },
            },
    {
        match outcome {
            Err(message) => {
                self.error = Some(message);
                true
            },
            Ok(changed) => match changed {
                Some(history) => {
                    let data = self.last_update.take();
                    match data {
                        Some(d) => {
                            self.last_update = Some(
                                PlayerData {
                                    current_activity: d.current_activity,
                                    activity_history: history,
                                    profile_info: d.profile_info,
                                },
                            );
                        },
                        None => {},
                    }
                    true
                },
                None => false,
            },
        }
    }
}

/// How the generation time of a status response compares with the newest
/// one accepted so far.
#[derive(Clone, Copy, Debug, PartialEq, Eq, Structural)]
pub enum StatusFreshness {
    /// Generated strictly after every accepted status.
    Newer,
    /// Generated strictly before an accepted status.
    Older,
    /// No usable generation time, or the same one as the newest accepted.
    Unknown,
}

/// The freshness of a status generated at `minted` (ignored unless after
/// the epoch and not in the future) against the newest accepted generation
/// time `watermark`.
pub open spec fn freshness_of(
    minted: Option<Timestamp>,
    watermark: Option<Timestamp>,
    now: Timestamp,
) -> StatusFreshness {
    match keep_valid(minted, now) {
        Some(m) => match watermark {
            Some(w) => if w.precedes(m) {
                StatusFreshness::Newer
            } else if m.precedes(w) {
                StatusFreshness::Older
            } else {
                StatusFreshness::Unknown
            },
            None => StatusFreshness::Newer,
        },
        None => StatusFreshness::Unknown,
    }
}

pub fn status_freshness(minted: Option<Timestamp>, watermark: Option<Timestamp>, now: Timestamp) -> (r:
    StatusFreshness)
    ensures
        r == freshness_of(minted, watermark, now),
{
    match minted {
        Some(m) if valid_time(m, now) => match watermark {
            Some(w) => if w.is_before(&m) {
                StatusFreshness::Newer
            } else if m.is_before(&w) {
                StatusFreshness::Older
            } else {
                StatusFreshness::Unknown
            },
            None => StatusFreshness::Newer,
        },
        _ => StatusFreshness::Unknown,
    }
}

/// The newest accepted generation time after a status generated at
/// `minted`: that time when the status is newer, else unchanged.
pub open spec fn watermark_after(
    minted: Option<Timestamp>,
    watermark: Option<Timestamp>,
    now: Timestamp,
) -> Option<Timestamp> {
    if freshness_of(minted, watermark, now) == StatusFreshness::Newer {
        minted
    } else {
        watermark
    }
}

pub fn next_watermark(minted: Option<Timestamp>, watermark: Option<Timestamp>, now: Timestamp) -> (r:
    Option<Timestamp>)
    ensures
        r == watermark_after(minted, watermark, now),
{
    match status_freshness(minted, watermark, now) {
        StatusFreshness::Newer => minted,
        _ => watermark,
    }
}

/// Whether a new status changes what is shown. A status generated before an
/// accepted one never does. A strictly newer status does whenever it reports
/// another activity or start (also an earlier start, such as the epoch in
/// orbit), or an activity whose definition is still missing. Without
/// freshness information, a status with an earlier start than the shown one
/// does not, and otherwise one does for a later start, another activity, or
/// a missing definition.
pub open spec fn needs_refresh(
    last: CurrentActivityView,
    latest: LatestCharacterActivity,
    freshness: StatusFreshness,
) -> bool {
    let missing_info = latest.current_activity_hash != 0 && last.activity_info is None;
    match freshness {
        StatusFreshness::Older => false,
        StatusFreshness::Newer => latest.date_activity_started != last.start_date
            || latest.current_activity_hash != last.activity_hash || missing_info,
        StatusFreshness::Unknown => if latest.date_activity_started.precedes(last.start_date) {
            false
        } else {
            last.start_date.precedes(latest.date_activity_started) || latest.current_activity_hash
                != last.activity_hash || missing_info
        },
    }
}

pub fn should_refresh_current(
    last: &CurrentActivity,
    latest: &LatestCharacterActivity,
    freshness: StatusFreshness,
) -> (r: bool)
    ensures
        r == needs_refresh(last@, *latest, freshness),
        freshness != StatusFreshness::Older && latest.current_activity_hash != 0
            && last.activity_info is None && !(freshness == StatusFreshness::Unknown
            && latest.date_activity_started.precedes(last.start_date)) ==> r,
        freshness == StatusFreshness::Older ==> !r,
        latest.date_activity_started == last.start_date && latest.current_activity_hash
            == last.activity_hash && (latest.current_activity_hash == 0
            || last.activity_info is Some) ==> !r,
{
    proof {
        lemma_refresh_decision(last@, *latest, freshness);
    }
    let missing_info = latest.current_activity_hash != 0 && last.activity_info.is_none();
    match freshness {
        StatusFreshness::Older => false,
        StatusFreshness::Newer => latest.date_activity_started != last.start_date
            || latest.current_activity_hash != last.activity_hash || missing_info,
        StatusFreshness::Unknown => {
            if latest.date_activity_started.is_before(&last.start_date) {
                return false;
            }
            last.start_date.is_before(&latest.date_activity_started)
                || latest.current_activity_hash != last.activity_hash || missing_info
        },
    }
}

/// What the refresh decision does, whatever the freshness: a status
/// generated before an accepted one is refused; otherwise an activity whose
/// definition is still missing is looked up again, another activity or a
/// later start is taken, and a status that repeats the shown activity, start
/// and definition changes nothing. An earlier start is taken only from a
/// strictly newer status.
pub proof fn lemma_refresh_decision(
    last: CurrentActivityView,
    latest: LatestCharacterActivity,
    freshness: StatusFreshness,
)
    ensures
        freshness == StatusFreshness::Older ==> !needs_refresh(last, latest, freshness),
        freshness != StatusFreshness::Older && latest.current_activity_hash != 0
            && last.activity_info is None && !(freshness == StatusFreshness::Unknown
            && latest.date_activity_started.precedes(last.start_date)) ==> needs_refresh(
            last,
            latest,
            freshness,
        ),
        freshness != StatusFreshness::Older && !latest.date_activity_started.precedes(
            last.start_date,
        ) && (latest.current_activity_hash != last.activity_hash
            || last.start_date.precedes(latest.date_activity_started)) ==> needs_refresh(
            last,
            latest,
            freshness,
        ),
        latest.date_activity_started == last.start_date && latest.current_activity_hash
            == last.activity_hash && (latest.current_activity_hash == 0
            || last.activity_info is Some) ==> !needs_refresh(last, latest, freshness),
        latest.date_activity_started.precedes(last.start_date) ==> (needs_refresh(
            last,
            latest,
            freshness,
        ) ==> freshness == StatusFreshness::Newer),
        freshness == StatusFreshness::Newer && latest.date_activity_started.precedes(
            last.start_date,
        ) ==> needs_refresh(last, latest, freshness),
{
}

/// A status generated after every accepted one changes what is shown
/// whenever it reports another activity or another start, even an earlier
/// start such as the epoch in orbit; one generated before an accepted status
/// never does.
pub proof fn lemma_fresher_status_is_shown(
    last: CurrentActivityView,
    latest: LatestCharacterActivity,
    minted: Option<Timestamp>,
    watermark: Option<Timestamp>,
    now: Timestamp,
)
    ensures
        freshness_of(minted, watermark, now) == StatusFreshness::Newer && (
        latest.current_activity_hash != last.activity_hash || latest.date_activity_started
            != last.start_date) ==> needs_refresh(last, latest, freshness_of(minted, watermark, now)),
        freshness_of(minted, watermark, now) == StatusFreshness::Older ==> !needs_refresh(
            last,
            latest,
            freshness_of(minted, watermark, now),
        ),
        freshness_of(minted, watermark, now) == StatusFreshness::Newer ==> watermark_after(
            minted,
            watermark,
            now,
        ) == minted,
{
}

/// The accepted generation time never moves back, and once a usable time was
/// accepted, a status generated at the same time is not newer.
pub proof fn lemma_watermark_never_moves_back(
    minted: Option<Timestamp>,
    watermark: Option<Timestamp>,
    now: Timestamp,
)
    ensures
        watermark matches Some(w) ==> watermark_after(minted, watermark, now) matches Some(n) && w.not_after(n),
        watermark_after(minted, watermark, now) is Some ==> freshness_of(
            minted,
            watermark_after(minted, watermark, now),
            now,
        ) != StatusFreshness::Newer,
{
}

/// Why the current activity of a profile cannot be read.
#[derive(Clone, Copy, Debug, PartialEq, Eq, Structural)]
pub enum CurrentActivityError {
    ProfilePrivate,
    NoCharacterData,
}

impl CurrentActivityError {
    pub fn message(&self) -> (m: &'static str)
        ensures
            m@ == match self {
                CurrentActivityError::ProfilePrivate => "Profile is private"@,
                CurrentActivityError::NoCharacterData => "No character data for profile"@,
            },
    {
        match self {
            CurrentActivityError::ProfilePrivate => "Profile is private",
            CurrentActivityError::NoCharacterData => "No character data for profile",
        }
    }
}

/// The activity that started last; of several that started together, the
/// one listed last.
pub open spec fn latest_of(s: Seq<LatestCharacterActivity>) -> LatestCharacterActivity
    decreases s.len(),
{
    if s.len() <= 1 {
        s[0]
    } else {
        let best = latest_of(s.drop_last());
        if s.last().date_activity_started.precedes(best.date_activity_started) {
            best
        } else {
            s.last()
        }
    }
}

/// `x` is the activity of `s` that started last: it is listed in `s`, no
/// activity of `s` started after it, and every activity listed after it
/// started strictly before it.
pub open spec fn started_last_among(s: Seq<LatestCharacterActivity>, x: LatestCharacterActivity) -> bool {
    exists|i: int|
        0 <= i < s.len() && s[i] == x && (forall|j: int|
            0 <= j < s.len() ==> !x.date_activity_started.precedes(
                #[trigger] s[j].date_activity_started,
            )) && (forall|j: int|
            i < j < s.len() ==> (#[trigger] s[j]).date_activity_started.precedes(
                x.date_activity_started,
            ))
}

/// The activity chosen as current is the one that started last; of several
/// that started together, the one listed last.
pub proof fn lemma_latest_of_started_last(s: Seq<LatestCharacterActivity>)
    requires
        s.len() > 0,
    ensures
        started_last_among(s, latest_of(s)),
    decreases s.len(),
{
    if s.len() == 1 {
        assert(s[0] == latest_of(s));
    } else {
        let rest = s.drop_last();
        lemma_latest_of_started_last(rest);
        let best = latest_of(rest);
        let i0 = choose|i: int|
            0 <= i < rest.len() && rest[i] == best && (forall|j: int|
                0 <= j < rest.len() ==> !best.date_activity_started.precedes(
                    #[trigger] rest[j].date_activity_started,
                )) && (forall|j: int|
                i < j < rest.len() ==> (#[trigger] rest[j]).date_activity_started.precedes(
                    best.date_activity_started,
                ));
        let n = s.len() - 1;
        if s.last().date_activity_started.precedes(best.date_activity_started) {
            assert(s[i0] == best);
            assert forall|j: int| 0 <= j < s.len() implies !best.date_activity_started.precedes(
                #[trigger] s[j].date_activity_started,
            ) by {
                if j < n {
                    assert(s[j] == rest[j]);
                }
            }
            assert forall|j: int| i0 < j < s.len() implies (
            #[trigger] s[j]).date_activity_started.precedes(best.date_activity_started) by {
                if j < n {
                    assert(s[j] == rest[j]);
                }
            }
        } else {
            let x = s.last();
            assert(s[n] == x);
            assert forall|j: int| 0 <= j < s.len() implies !x.date_activity_started.precedes(
                #[trigger] s[j].date_activity_started,
            ) by {
                if j < n {
                    assert(s[j] == rest[j]);
                    assert(!best.date_activity_started.precedes(rest[j].date_activity_started));
                }
            }
        }
    }
}

pub open spec fn character_ids_of(s: Seq<(String, LatestCharacterActivity)>) -> Seq<Seq<char>> {
    s.map_values(|p: (String, LatestCharacterActivity)| p.0@)
}

pub open spec fn activities_of(s: Seq<(String, LatestCharacterActivity)>) -> Seq<
    LatestCharacterActivity,
> {
    s.map_values(|p: (String, LatestCharacterActivity)| p.1)
}

/// Splits the characters' activities into the character ids and the
/// activity that started last. Fails when the profile hides them or has no
/// character.
pub fn latest_activity(activities: Option<Vec<(String, LatestCharacterActivity)>>) -> (r: Result<
    (Vec<String>, LatestCharacterActivity),
    CurrentActivityError,
>)
    ensures
        match activities {
            None => r == Err::<(Vec<String>, LatestCharacterActivity), _>(
                CurrentActivityError::ProfilePrivate,
            ),
            Some(a) => if a@.len() == 0 {
                r == Err::<(Vec<String>, LatestCharacterActivity), _>(
                    CurrentActivityError::NoCharacterData,
                )
            } else {
                &&& r matches Ok((ids, latest))
                &&& strings_view(ids@) == character_ids_of(a@)
                &&& latest == latest_of(activities_of(a@))
                &&& started_last_among(activities_of(a@), latest)
            },
        },
{
    let list = match activities {
        Some(a) => a,
        None => {
            return Err(CurrentActivityError::ProfilePrivate);
        },
    };
    if list.len() == 0 {
        return Err(CurrentActivityError::NoCharacterData);
    }
    let ghost all = list@;
    let mut ids: Vec<String> = Vec::new();
    let mut best = list[0].1;
    let mut i: usize = 0;
    while i < list.len()
        invariant
            all == list@,
            0 < list@.len(),
            i <= list@.len(),
            ids@.len() == i,
            forall|j: int| 0 <= j < i ==> #[trigger] ids@[j]@ == all[j].0@,
            i > 0 ==> best == latest_of(activities_of(all.take(i as int))),
            i == 0 ==> best == all[0].1,
        decreases list@.len() - i,
    {
        ids.push(list[i].0.clone());
        let current = list[i].1;
        proof {
            let t = activities_of(all.take(i + 1));
            assert(t.drop_last() =~= activities_of(all.take(i as int)));
            assert(t.last() == current);
        }
        if i > 0 && !current.date_activity_started.is_before(&best.date_activity_started) {
            best = current;
        } else if i == 0 {
            best = current;
        }
        i = i + 1;
    }
    assert(all.take(all.len() as int) =~= all);
    assert(strings_view(ids@) =~= character_ids_of(all));
    proof {
        lemma_latest_of_started_last(activities_of(all));
    }
    Ok((ids, best))
}

/// What a lookup of an activity definition gave: the definition, no
/// response for that activity, or another failure.
pub enum DefinitionLookup<E> {
    Found(ActivityInfo),
    ResponseMissing,
    Failed(E),
}

/// The current activity after a change of status. Orbit has no definition;
/// otherwise a found definition is shown when it has a name, a missing or
/// nameless one shows none, and any other failure fails the poll.
pub fn refreshed_current<E>(latest: LatestCharacterActivity, lookup: Option<DefinitionLookup<E>>) -> (r:
    Result<CurrentActivity, E>)
    ensures
        latest.current_activity_hash == 0 || lookup is None ==> r == Ok::<CurrentActivity, E>(
            CurrentActivity {
                start_date: latest.date_activity_started,
                activity_hash: latest.current_activity_hash,
                activity_info: None,
            },
        ),
        latest.current_activity_hash != 0 ==> match lookup {
            Some(DefinitionLookup::Found(info)) => r == Ok::<CurrentActivity, E>(
                CurrentActivity {
                    start_date: latest.date_activity_started,
                    activity_hash: latest.current_activity_hash,
                    activity_info: if info.name@.len() > 0 {
                        Some(info)
                    } else {
                        None
                    },
                },
            ),
            Some(DefinitionLookup::ResponseMissing) => r == Ok::<CurrentActivity, E>(
                CurrentActivity {
                    start_date: latest.date_activity_started,
                    activity_hash: latest.current_activity_hash,
                    activity_info: None,
                },
            ),
            Some(DefinitionLookup::Failed(e)) => r == Err::<CurrentActivity, E>(e),
            None => true,
        },
{
    let activity_info = if latest.current_activity_hash == 0 {
        None
    } else {
        match lookup {
            Some(DefinitionLookup::Found(info)) => {
                if !info.name.as_str().is_empty() {
                    Some(info)
                } else {
                    None
                }
            },
            Some(DefinitionLookup::ResponseMissing) => None,
            Some(DefinitionLookup::Failed(e)) => {
                return Err(e);
            },
            None => None,
        }
    };
    Ok(
        CurrentActivity {
            start_date: latest.date_activity_started,
            activity_hash: latest.current_activity_hash,
            activity_info,
        },
    )
}

} // verus!
