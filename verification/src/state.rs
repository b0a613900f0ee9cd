//! The navigation state store: the latest decoded value of every field.
//!
//! One writer (the player) applies updates; readers take whole-struct
//! snapshots, so a reader never sees a torn individual value.  Every field
//! starts at a fixed sentinel and is only ever overwritten by a value some
//! update carried, which is proved below as a provenance law.

use vstd::prelude::*;
use crate::datetime::{dt_sentinel, DateTime};
use crate::decode::NavUpdate;

verus! {

/// The latest decoded navigation values, in micro-units: micro-degrees for
/// angles and coordinates, micro-knots for speeds, micro-meters for depth.
#[derive(Clone, Copy, PartialEq, Eq, Structural, Debug)]
pub struct NavigationState {
    pub utc: DateTime,
    pub lat_udeg: i64,
    pub lon_udeg: i64,
    pub cog_udeg: i64,
    pub sog_uknots: i64,
    pub awa_udeg: i64,
    pub aws_uknots: i64,
    pub depth_umeters: i64,
}

/// The sentinel values shown before the first sentence of each kind
/// arrives: 49.1234 degrees north, 123.4567 degrees west, course 90
/// degrees, 5 knots over ground, wind 45 degrees at 10 knots, depth 10
/// meters, and the all-zero timestamp.
pub open spec fn initial_state() -> NavigationState {
    NavigationState {
        utc: dt_sentinel(),
        lat_udeg: 49123400,
        lon_udeg: -123456700i64,
        cog_udeg: 90000000,
        sog_uknots: 5000000,
        awa_udeg: 45000000,
        aws_uknots: 10000000,
        depth_umeters: 10000000,
    }
}

/// The state after one update: the update's fields overwrite their slots
/// and every other field keeps its value.  `TimeFallback` is applied by
/// the player only after substituting a real date-time, so here it, like
/// `Ignore`, changes nothing.
pub open spec fn apply_update(s: NavigationState, u: NavUpdate) -> NavigationState {
    match u {
        NavUpdate::Time { dt } => NavigationState { utc: dt, ..s },
        NavUpdate::TimeFallback => s,
        NavUpdate::Position { lat_udeg, lon_udeg } => NavigationState { lat_udeg, lon_udeg, ..s },
        NavUpdate::CourseSpeed { cog_udeg, sog_uknots } => NavigationState {
            cog_udeg,
            sog_uknots,
            ..s
        },
        NavUpdate::Wind { awa_udeg, aws_uknots } => NavigationState { awa_udeg, aws_uknots, ..s },
        NavUpdate::Depth { depth_umeters } => NavigationState { depth_umeters, ..s },
        NavUpdate::Ignore => s,
    }
}

impl NavigationState {
    /// The state before playback starts, every field at its sentinel.
    pub fn new() -> (s: Self)
        ensures
            s == initial_state(),
    {
        NavigationState {
            utc: DateTime { year: 0, month: 0, day: 0, hour: 0, minute: 0, second: 0 },
            lat_udeg: 49123400,
            lon_udeg: -123456700,
            cog_udeg: 90000000,
            sog_uknots: 5000000,
            awa_udeg: 45000000,
            aws_uknots: 10000000,
            depth_umeters: 10000000,
        }
    }

    /// Applies one decoded update to the state.
    pub fn apply(&mut self, u: &NavUpdate)
        ensures
            *final(self) == apply_update(*old(self), *u),
    {
        match u {
            NavUpdate::Time { dt } => {
                self.utc = *dt;
            },
            NavUpdate::TimeFallback => {},
            NavUpdate::Position { lat_udeg, lon_udeg } => {
                self.lat_udeg = *lat_udeg;
                self.lon_udeg = *lon_udeg;
            },
            NavUpdate::CourseSpeed { cog_udeg, sog_uknots } => {
                self.cog_udeg = *cog_udeg;
                self.sog_uknots = *sog_uknots;
            },
            NavUpdate::Wind { awa_udeg, aws_uknots } => {
                self.awa_udeg = *awa_udeg;
                self.aws_uknots = *aws_uknots;
            },
            NavUpdate::Depth { depth_umeters } => {
                self.depth_umeters = *depth_umeters;
            },
            NavUpdate::Ignore => {},
        }
    }
}

impl Default for NavigationState {
    /// Same sentinels as `new`.
    fn default() -> (s: Self)
        ensures
            s == initial_state(),
    {
        NavigationState::new()
    }
}

/// The state after a whole sequence of updates, first to last.
pub open spec fn run_updates(s: NavigationState, us: Seq<NavUpdate>) -> NavigationState
    decreases us.len(),
{
    if us.len() == 0 {
        s
    } else {
        run_updates(apply_update(s, us[0]), us.skip(1))
    }
}

/// Every field of the state after any sequence of updates is either the
/// starting value or a value that one of the updates carried: a reader
/// polling snapshots between writes can never see a value outside what
/// was ever written for that field.
pub proof fn lemma_field_provenance(s: NavigationState, us: Seq<NavUpdate>)
    ensures
        ({
            let r = run_updates(s, us);
            &&& r.utc == s.utc || exists|i: int|
                0 <= i < us.len() && #[trigger] us[i] is Time && r.utc == us[i]->dt
            &&& r.lat_udeg == s.lat_udeg || exists|i: int|
                0 <= i < us.len() && #[trigger] us[i] is Position && r.lat_udeg == us[i]->lat_udeg
            &&& r.lon_udeg == s.lon_udeg || exists|i: int|
                0 <= i < us.len() && #[trigger] us[i] is Position && r.lon_udeg == us[i]->lon_udeg
            &&& r.cog_udeg == s.cog_udeg || exists|i: int|
                0 <= i < us.len() && #[trigger] us[i] is CourseSpeed && r.cog_udeg == us[i]->cog_udeg
            &&& r.sog_uknots == s.sog_uknots || exists|i: int|
                0 <= i < us.len() && #[trigger] us[i] is CourseSpeed && r.sog_uknots == us[i]->sog_uknots
            &&& r.awa_udeg == s.awa_udeg || exists|i: int|
                0 <= i < us.len() && #[trigger] us[i] is Wind && r.awa_udeg == us[i]->awa_udeg
            &&& r.aws_uknots == s.aws_uknots || exists|i: int|
                0 <= i < us.len() && #[trigger] us[i] is Wind && r.aws_uknots == us[i]->aws_uknots
            &&& r.depth_umeters == s.depth_umeters || exists|i: int|
                0 <= i < us.len() && #[trigger] us[i] is Depth && r.depth_umeters == us[i]->depth_umeters
        }),
    decreases us.len(),
{
    if us.len() == 0 {
    } else {
        let s1 = apply_update(s, us[0]);
        let tail = us.skip(1);
        lemma_field_provenance(s1, tail);
        assert(forall|i: int| 0 <= i < tail.len() ==> tail[i] == us[i + 1]);
        let r = run_updates(s, us);
        assert(r == run_updates(s1, tail));
        if r.utc != s.utc && r.utc != s1.utc {
            let i = choose|i: int|
                0 <= i < tail.len() && #[trigger] tail[i] is Time && r.utc == tail[i]->dt;
            assert(us[i + 1] is Time && r.utc == us[i + 1]->dt);
        }
        if r.lat_udeg != s.lat_udeg && r.lat_udeg != s1.lat_udeg {
            let i = choose|i: int|
                0 <= i < tail.len() && #[trigger] tail[i] is Position && r.lat_udeg == tail[i]->lat_udeg;
            assert(us[i + 1] is Position && r.lat_udeg == us[i + 1]->lat_udeg);
        }
        if r.lon_udeg != s.lon_udeg && r.lon_udeg != s1.lon_udeg {
            let i = choose|i: int|
                0 <= i < tail.len() && #[trigger] tail[i] is Position && r.lon_udeg == tail[i]->lon_udeg;
            assert(us[i + 1] is Position && r.lon_udeg == us[i + 1]->lon_udeg);
        }
        if r.cog_udeg != s.cog_udeg && r.cog_udeg != s1.cog_udeg {
            let i = choose|i: int|
                0 <= i < tail.len() && #[trigger] tail[i] is CourseSpeed && r.cog_udeg == tail[i]->cog_udeg;
            assert(us[i + 1] is CourseSpeed && r.cog_udeg == us[i + 1]->cog_udeg);
        }
        if r.sog_uknots != s.sog_uknots && r.sog_uknots != s1.sog_uknots {
            let i = choose|i: int|
                0 <= i < tail.len() && #[trigger] tail[i] is CourseSpeed && r.sog_uknots == tail[i]->sog_uknots;
            assert(us[i + 1] is CourseSpeed && r.sog_uknots == us[i + 1]->sog_uknots);
        }
        if r.awa_udeg != s.awa_udeg && r.awa_udeg != s1.awa_udeg {
            let i = choose|i: int|
                0 <= i < tail.len() && #[trigger] tail[i] is Wind && r.awa_udeg == tail[i]->awa_udeg;
            assert(us[i + 1] is Wind && r.awa_udeg == us[i + 1]->awa_udeg);
        }
        if r.aws_uknots != s.aws_uknots && r.aws_uknots != s1.aws_uknots {
            let i = choose|i: int|
                0 <= i < tail.len() && #[trigger] tail[i] is Wind && r.aws_uknots == tail[i]->aws_uknots;
            assert(us[i + 1] is Wind && r.aws_uknots == us[i + 1]->aws_uknots);
        }
        if r.depth_umeters != s.depth_umeters && r.depth_umeters != s1.depth_umeters {
            let i = choose|i: int|
                0 <= i < tail.len() && #[trigger] tail[i] is Depth && r.depth_umeters == tail[i]->depth_umeters;
            assert(us[i + 1] is Depth && r.depth_umeters == us[i + 1]->depth_umeters);
        }
    }
}

/// An update that carries nothing (an unrecognized or malformed line)
/// leaves every field of the state unchanged.
pub proof fn lemma_ignore_changes_nothing(s: NavigationState)
    ensures
        apply_update(s, NavUpdate::Ignore) == s,
{
}

} // verus!
