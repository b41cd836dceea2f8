use vstd::prelude::*;

use crate::responses::LatestCharacterActivity;
use crate::time::{is_valid_time, valid_time, Timestamp};

verus! {

/// What the activity timer has accepted so far for one profile.
///
/// The character snapshot (component 204) and the transitory snapshot
/// (component 1000) carry independent freshness clocks: `primary_*` belong to
/// the first, `secondary_minted` to the second.
pub struct ActivityTimingView {
    /// The last accepted character snapshot.
    pub character: Option<LatestCharacterActivity>,
    /// The generation time of the accepted character snapshot, where known.
    pub primary_minted: Option<Timestamp>,
    /// The newest character generation time ever accepted.
    pub primary_watermark: Option<Timestamp>,
    /// The newest accepted transitory generation time.
    pub secondary_minted: Option<Timestamp>,
    /// The start time that the newest transitory snapshot reported, if usable.
    pub transitory_start: Option<Timestamp>,
    /// The start time that the timer shows.
    pub selected_start: Option<Timestamp>,
}

/// Keeps `t` when it is a usable instant at `now`.
pub open spec fn keep_valid(t: Option<Timestamp>, now: Timestamp) -> Option<Timestamp> {
    match t {
        Some(x) => if is_valid_time(x, now) {
            Some(x)
        } else {
            None
        },
        None => None,
    }
}

impl ActivityTimingView {
    /// Every value the timer keeps is consistent with what it was built from.
    pub open spec fn wf(self) -> bool {
        &&& self.character is None ==> self.selected_start is None
        &&& self.character matches Some(c) ==> {
            &&& self.selected_start matches Some(s)
            &&& c.date_activity_started.not_after(s)
            &&& c.current_activity_hash == 0 ==> s == c.date_activity_started
        }
        &&& self.transitory_start matches Some(t) ==> {
            &&& self.secondary_minted matches Some(m)
            &&& t.not_after(m)
            &&& t.secs > 0
        }
    }

    /// The incoming character snapshot is older than an accepted one.
    pub open spec fn is_older_primary(self, minted: Option<Timestamp>) -> bool {
        &&& minted matches Some(incoming)
        &&& self.primary_watermark matches Some(accepted)
        &&& incoming.precedes(accepted)
    }

    /// The incoming character snapshot is newer than every accepted one.
    pub open spec fn is_newer_primary(self, minted: Option<Timestamp>) -> bool {
        &&& minted matches Some(incoming)
        &&& (self.primary_watermark matches Some(accepted) ==> accepted.precedes(incoming))
    }

    /// The incoming activity started before the accepted one.
    pub open spec fn is_older_character(self, latest: LatestCharacterActivity) -> bool {
        self.character matches Some(accepted) && latest.date_activity_started.precedes(
            accepted.date_activity_started,
        )
    }

    /// Whether a character snapshot (with its already validated generation
    /// time `minted`) replaces the accepted one: it must not be older by the
    /// freshness clock, must not report an earlier start unless it is
    /// strictly fresher, and its start must be usable or be the epoch in
    /// orbit.
    pub open spec fn accepts(
        self,
        latest: LatestCharacterActivity,
        minted: Option<Timestamp>,
        now: Timestamp,
    ) -> bool {
        let valid_character = is_valid_time(latest.date_activity_started, now) || (
        latest.current_activity_hash == 0 && latest.date_activity_started.secs == 0);
        &&& !self.is_older_primary(minted)
        &&& (!self.is_older_character(latest) || self.is_newer_primary(minted))
        &&& valid_character
    }

    /// The state after accepting `latest`. A repeated non-orbit activity keeps
    /// the later of its shown and reported starts; anything else shows the
    /// reported start.
    pub open spec fn accept_character(
        self,
        latest: LatestCharacterActivity,
        minted: Option<Timestamp>,
    ) -> ActivityTimingView {
        let start = latest.date_activity_started;
        let same_hash = self.character matches Some(c) && c.current_activity_hash
            == latest.current_activity_hash;
        let unchanged = self.character == Some(latest);
        let selected = if same_hash && latest.current_activity_hash != 0 {
            match self.selected_start {
                Some(s) => s.later_of(start),
                None => start.later_of(start),
            }
        } else {
            start
        };
        ActivityTimingView {
            character: Some(latest),
            primary_minted: if minted is Some || !unchanged {
                minted
            } else {
                self.primary_minted
            },
            primary_watermark: if minted is Some {
                minted
            } else {
                self.primary_watermark
            },
            selected_start: Some(selected),
            ..self
        }
    }

    /// The state after a transitory snapshot generated at `minted` (already
    /// validated) that reports `start`: only a strictly newer generation
    /// replaces the accepted one, and its start is kept only if usable and
    /// not after its own generation time.
    pub open spec fn accept_transitory(
        self,
        minted: Option<Timestamp>,
        start: Option<Timestamp>,
        now: Timestamp,
    ) -> ActivityTimingView {
        match minted {
            Some(m) => {
                if self.secondary_minted matches Some(a) && !a.precedes(m) {
                    self
                } else {
                    ActivityTimingView {
                        secondary_minted: Some(m),
                        transitory_start: match start {
                            Some(t) => if is_valid_time(t, now) && t.not_after(m) {
                                Some(t)
                            } else {
                                None
                            },
                            None => None,
                        },
                        ..self
                    }
                }
            },
            None => self,
        }
    }

    /// The state once a character is known: orbit drops the transitory
    /// start; otherwise a transitory start that lies between the character's
    /// start and the character snapshot's generation time advances the timer.
    pub open spec fn pair_timing(self) -> ActivityTimingView {
        match self.character {
            Some(c) => if c.current_activity_hash == 0 {
                ActivityTimingView { transitory_start: None, ..self }
            } else {
                match (self.transitory_start, self.primary_minted) {
                    (Some(t), Some(p)) => if c.date_activity_started.not_after(t) && t.not_after(
                        p,
                    ) {
                        ActivityTimingView {
                            selected_start: Some(
                                match self.selected_start {
                                    Some(s) => s.later_of(t),
                                    None => t.later_of(t),
                                },
                            ),
                            ..self
                        }
                    } else {
                        self
                    },
                    _ => self,
                }
            },
            None => self,
        }
    }

    /// What the timer shows: the accepted activity with the selected start.
    pub open spec fn shown(self) -> Option<LatestCharacterActivity> {
        match self.character {
            Some(c) => Some(
                LatestCharacterActivity {
                    date_activity_started: match self.selected_start {
                        Some(s) => s,
                        None => c.date_activity_started,
                    },
                    current_activity_hash: c.current_activity_hash,
                },
            ),
            None => None,
        }
    }

    /// One observation: a character snapshot with the generation times of
    /// both components and the transitory start, judged at `now`.
    pub open spec fn step(
        self,
        latest: LatestCharacterActivity,
        primary_minted: Option<Timestamp>,
        secondary_minted: Option<Timestamp>,
        transitory_start: Option<Timestamp>,
        now: Timestamp,
    ) -> ActivityTimingView {
        let pm = keep_valid(primary_minted, now);
        let sm = keep_valid(secondary_minted, now);
        let s1 = if self.accepts(latest, pm, now) {
            self.accept_character(latest, pm)
        } else {
            self
        };
        s1.accept_transitory(sm, transitory_start, now).pair_timing()
    }
}

/// Every observation keeps the timer consistent: the shown start is never
/// before the accepted activity's start and equals it in orbit, and a kept
/// transitory start is after the epoch and not after its own generation time.
pub proof fn lemma_step_preserves_wf(
    s: ActivityTimingView,
    latest: LatestCharacterActivity,
    primary_minted: Option<Timestamp>,
    secondary_minted: Option<Timestamp>,
    transitory_start: Option<Timestamp>,
    now: Timestamp,
)
    requires
        s.wf(),
    ensures
        s.step(latest, primary_minted, secondary_minted, transitory_start, now).wf(),
{
}

/// A character snapshot generated before an accepted one changes neither the
/// accepted activity nor the freshness boundary.
pub proof fn lemma_older_snapshot_is_ignored(
    s: ActivityTimingView,
    latest: LatestCharacterActivity,
    primary_minted: Option<Timestamp>,
    secondary_minted: Option<Timestamp>,
    transitory_start: Option<Timestamp>,
    now: Timestamp,
)
    requires
        primary_minted matches Some(p) && is_valid_time(p, now),
        s.primary_watermark matches Some(w) && primary_minted->0.precedes(w),
    ensures
        ({
            let t = s.step(latest, primary_minted, secondary_minted, transitory_start, now);
            &&& t.character == s.character
            &&& t.primary_watermark == s.primary_watermark
            &&& t.primary_minted == s.primary_minted
        }),
{
}

/// A character snapshot generated strictly after every accepted one is
/// accepted whenever its start is usable or it reports orbit at the epoch,
/// even if its start is earlier than the accepted one.
pub proof fn lemma_fresher_snapshot_is_accepted(
    s: ActivityTimingView,
    latest: LatestCharacterActivity,
    primary_minted: Option<Timestamp>,
    secondary_minted: Option<Timestamp>,
    transitory_start: Option<Timestamp>,
    now: Timestamp,
)
    requires
        primary_minted matches Some(p) && is_valid_time(p, now),
        s.primary_watermark matches Some(w) ==> w.precedes(primary_minted->0),
        is_valid_time(latest.date_activity_started, now) || (latest.current_activity_hash == 0
            && latest.date_activity_started.secs == 0),
    ensures
        ({
            let t = s.step(latest, primary_minted, secondary_minted, transitory_start, now);
            &&& t.character == Some(latest)
            &&& t.primary_watermark == primary_minted
        }),
{
}

/// In orbit the timer shows exactly the reported start and keeps no
/// transitory start from an earlier run.
pub proof fn lemma_orbit_clears_transitory_start(
    s: ActivityTimingView,
    latest: LatestCharacterActivity,
    primary_minted: Option<Timestamp>,
    secondary_minted: Option<Timestamp>,
    transitory_start: Option<Timestamp>,
    now: Timestamp,
)
    requires
        s.wf(),
    ensures
        ({
            let t = s.step(latest, primary_minted, secondary_minted, transitory_start, now);
            t.character is Some && t.character->0.current_activity_hash == 0 ==> {
                &&& t.transitory_start is None
                &&& t.shown() == t.character
            }
        }),
{
}

/// While the accepted activity stays the same (and is not orbit), the shown
/// start never moves back, whatever optional data arrives or disappears.
pub proof fn lemma_timer_never_moves_back(
    s: ActivityTimingView,
    latest: LatestCharacterActivity,
    primary_minted: Option<Timestamp>,
    secondary_minted: Option<Timestamp>,
    transitory_start: Option<Timestamp>,
    now: Timestamp,
)
    requires
        s.wf(),
        s.character matches Some(c) && c.current_activity_hash != 0,
        s.step(latest, primary_minted, secondary_minted, transitory_start, now).character matches Some(
            c2,
        ) && c2.current_activity_hash == s.character->0.current_activity_hash,
    ensures
        ({
            let t = s.step(latest, primary_minted, secondary_minted, transitory_start, now);
            &&& t.shown() matches Some(after)
            &&& s.shown() matches Some(before)
            &&& before.current_activity_hash == after.current_activity_hash
            &&& before.date_activity_started.not_after(after.date_activity_started)
        }),
{
}

/// The timer shows something exactly when an activity has been accepted; it
/// shows that activity, from its reported start or later.
pub proof fn lemma_shown_matches_accepted_activity(
    s: ActivityTimingView,
    latest: LatestCharacterActivity,
    primary_minted: Option<Timestamp>,
    secondary_minted: Option<Timestamp>,
    transitory_start: Option<Timestamp>,
    now: Timestamp,
)
    requires
        s.wf(),
    ensures
        ({
            let t = s.step(latest, primary_minted, secondary_minted, transitory_start, now);
            &&& (t.shown() is Some <==> t.character is Some)
            &&& t.character matches Some(c) ==> {
                &&& t.shown()->0.current_activity_hash == c.current_activity_hash
                &&& c.date_activity_started.not_after(t.shown()->0.date_activity_started)
            }
        }),
{
}

/// The first observation of a new timer shows the reported activity and
/// start whenever the start is usable: nothing is inherited.
pub proof fn lemma_first_observation_shows_character(
    latest: LatestCharacterActivity,
    primary_minted: Option<Timestamp>,
    secondary_minted: Option<Timestamp>,
    now: Timestamp,
)
    requires
        is_valid_time(latest.date_activity_started, now),
    ensures
        ({
            let fresh = ActivityTimingView {
                character: None,
                primary_minted: None,
                primary_watermark: None,
                secondary_minted: None,
                transitory_start: None,
                selected_start: None,
            };
            fresh.step(latest, primary_minted, secondary_minted, None, now).shown() == Some(latest)
        }),
{
}

/// On a new timer, a transitory start that cannot be used (missing, not
/// after the epoch, in the future, without a usable generation time, or
/// later than that generation time) leaves the character's start shown.
pub proof fn lemma_unusable_transitory_start_is_ignored(
    latest: LatestCharacterActivity,
    primary_minted: Option<Timestamp>,
    secondary_minted: Option<Timestamp>,
    transitory_start: Option<Timestamp>,
    now: Timestamp,
)
    requires
        is_valid_time(latest.date_activity_started, now),
        ({
            ||| transitory_start is None
            ||| !is_valid_time(transitory_start->0, now)
            ||| keep_valid(secondary_minted, now) is None
            ||| secondary_minted->0.precedes(transitory_start->0)
        }),
    ensures
        ({
            let fresh = ActivityTimingView {
                character: None,
                primary_minted: None,
                primary_watermark: None,
                secondary_minted: None,
                transitory_start: None,
                selected_start: None,
            };
            fresh.step(latest, primary_minted, secondary_minted, transitory_start, now).shown()
                == Some(latest)
        }),
{
}

/// The timer of one profile, fed with every status observation.
pub struct ActivityTiming {
    character: Option<LatestCharacterActivity>,
    primary_minted: Option<Timestamp>,
    primary_watermark: Option<Timestamp>,
    secondary_minted: Option<Timestamp>,
    transitory_start: Option<Timestamp>,
    selected_start: Option<Timestamp>,
}

impl View for ActivityTiming {
    type V = ActivityTimingView;

    closed spec fn view(&self) -> ActivityTimingView {
        ActivityTimingView {
            character: self.character,
            primary_minted: self.primary_minted,
            primary_watermark: self.primary_watermark,
            secondary_minted: self.secondary_minted,
            transitory_start: self.transitory_start,
            selected_start: self.selected_start,
        }
    }
}

impl Default for ActivityTiming {
    fn default() -> (t: ActivityTiming)
        ensures
            t@ == (ActivityTimingView {
                character: None,
                primary_minted: None,
                primary_watermark: None,
                secondary_minted: None,
                transitory_start: None,
                selected_start: None,
            }),
            t@.wf(),
    {
        ActivityTiming {
            character: None,
            primary_minted: None,
            primary_watermark: None,
            secondary_minted: None,
            transitory_start: None,
            selected_start: None,
        }
    }
}

fn keep_valid_time(t: Option<Timestamp>, now: Timestamp) -> (r: Option<Timestamp>)
    ensures
        r == keep_valid(t, now),
{
    match t {
        Some(x) => if valid_time(x, now) {
            Some(x)
        } else {
            None
        },
        None => None,
    }
}

impl ActivityTiming {
    /// Feeds one status observation and returns what the timer shows: `None`
    /// until a character snapshot has been accepted.
    pub fn resolve(
        &mut self,
        latest: LatestCharacterActivity,
        primary_minted: Option<Timestamp>,
        secondary_minted: Option<Timestamp>,
        transitory_start: Option<Timestamp>,
        now: Timestamp,
    ) -> (r: Option<LatestCharacterActivity>)
        ensures
            final(self)@ == old(self)@.step(
                latest,
                primary_minted,
                secondary_minted,
                transitory_start,
                now,
            ),
            r == final(self)@.shown(),
    {
        let ghost s0 = self@;
        let primary_minted = keep_valid_time(primary_minted, now);
        let secondary_minted = keep_valid_time(secondary_minted, now);

        let older_primary = match (primary_minted, self.primary_watermark) {
            (Some(incoming), Some(accepted)) => incoming.is_before(&accepted),
            _ => false,
        };
        let older_character = match &self.character {
            Some(accepted) => latest.date_activity_started.is_before(
                &accepted.date_activity_started,
            ),
            None => false,
        };
        let newer_primary = match (primary_minted, self.primary_watermark) {
            (Some(incoming), Some(accepted)) => accepted.is_before(&incoming),
            (Some(_), None) => true,
            _ => false,
        };
        let valid_character = valid_time(latest.date_activity_started, now) || (
        latest.current_activity_hash == 0 && latest.date_activity_started.timestamp() == 0);

        if !older_primary && (!older_character || newer_primary) && valid_character {
            let same_hash = match &self.character {
                Some(accepted) => latest.current_activity_hash == accepted.current_activity_hash,
                None => false,
            };
            let unchanged_character = match &self.character {
                Some(accepted) => *accepted == latest,
                None => false,
            };
            let start = latest.date_activity_started;
            self.selected_start = Some(
                if same_hash && latest.current_activity_hash != 0 {
                    match self.selected_start {
                        Some(s) => s.max(start),
                        None => start.max(start),
                    }
                } else {
                    start
                },
            );
            if primary_minted.is_some() || !unchanged_character {
                self.primary_minted = primary_minted;
            }
            if primary_minted.is_some() {
                self.primary_watermark = primary_minted;
            }
            self.character = Some(latest);
        }
        assert(self@ == (if s0.accepts(latest, primary_minted, now) {
            s0.accept_character(latest, primary_minted)
        } else {
            s0
        }));
        let ghost s1 = self@;

        if let Some(minted) = secondary_minted {
            let newer = match self.secondary_minted {
                Some(accepted) => accepted.is_before(&minted),
                None => true,
            };
            if newer {
                self.secondary_minted = Some(minted);
                self.transitory_start = match transitory_start {
                    Some(start) => if valid_time(start, now) && !minted.is_before(&start) {
                        Some(start)
                    } else {
                        None
                    },
                    None => None,
                };
            }
        }
        assert(self@ == s1.accept_transitory(secondary_minted, transitory_start, now));

        let character = match self.character {
            Some(c) => c,
            None => {
                return None;
            },
        };
        if character.current_activity_hash == 0 {
            self.transitory_start = None;
        } else {
            if let (Some(start), Some(primary)) = (self.transitory_start, self.primary_minted) {
                if !start.is_before(&character.date_activity_started) && !primary.is_before(
                    &start,
                ) {
                    self.selected_start = Some(
                        match self.selected_start {
                            Some(s) => s.max(start),
                            None => start.max(start),
                        },
                    );
                }
            }
        }
        Some(
            LatestCharacterActivity {
                date_activity_started: match self.selected_start {
                    Some(s) => s,
                    None => character.date_activity_started,
                },
                current_activity_hash: character.current_activity_hash,
            },
        )
    }
}

} // verus!
