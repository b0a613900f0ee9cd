//! The playback orchestrator.
//!
//! A `Player` walks the lines of one recording: each step decodes one line
//! into the state store, establishes or consults the pacing anchor, and
//! hands back the raw line with the sleep to apply before sending it.  The
//! caller owns the wall clock, the sleep and the socket: it passes a clock
//! reading in and performs the send, so a step is a pure function of the
//! player's state and the reading.  The `Orchestrator` wraps the player in
//! the idle/running/finished lifecycle: starting is a no-op unless idle,
//! and a run ends only by exhausting the file.

use vstd::prelude::*;
use crate::clock::{
    bandwidth_delay_model, bandwidth_delay_ms, compute_delay_ms, delay_model, MAX_WALL_MS,
};
use crate::datetime::{dt_epoch_seconds, epoch_seconds, valid_dt, DateTime, MAX_EPOCH_SECONDS};
use crate::decode::{
    classify_tag, decode_line, decode_spec, line_kind, NavUpdate, SentenceKind,
};
use crate::split::{seqs_of, split_fields, split_lines};
use crate::state::{apply_update, initial_state, NavigationState};

verus! {

/// Largest wall-clock reading (milliseconds since the epoch) the pacing
/// arithmetic accepts.
pub const MAX_CLOCK_MS: i64 = 2000000000000000;

/// One wall-clock reading: milliseconds since the epoch together with the
/// same instant as a calendar date-time.
#[derive(Clone, Copy, PartialEq, Eq, Structural, Debug)]
pub struct Clock {
    pub ms: i64,
    pub dt: DateTime,
}

/// A reading the player accepts: non-negative, bounded, and carrying a
/// real calendar date-time.
pub open spec fn clock_wf(c: Clock) -> bool {
    &&& 0 <= c.ms <= MAX_CLOCK_MS
    &&& valid_dt(c.dt)
}

/// The pacing anchor: the recording's first seen time next to the wall
/// clock at that moment.  Established once, never reset.
#[derive(Clone, Copy, PartialEq, Eq, Structural, Debug)]
pub struct Anchor {
    pub file_secs: i64,
    pub wall_ms: i64,
}

/// The raw bytes of one line, and the sleep to take before sending them.
pub struct LineOut {
    pub delay_ms: u64,
    pub line: Vec<u8>,
}

/// A player in the middle of a replay.
pub struct Player {
    /// The lines of the recording, in order.
    pub lines: Vec<Vec<u8>>,
    /// How many lines have been replayed.
    pub idx: usize,
    /// The state store: the latest decoded value of every field.
    pub nav: NavigationState,
    /// The pacing anchor, once the first time sentence has been seen.
    pub anchor: Option<Anchor>,
    /// The date-time substituted for a time sentence whose composed date
    /// is invalid: the wall clock seen when pacing began.
    pub fallback_dt: DateTime,
    /// The recording's current time: the last decoded time sentence.
    pub last_file_secs: i64,
    /// Whether the recording carries any time sentence; when it does not,
    /// pacing falls back to serial-link wire time per line.
    pub has_time: bool,
}

/// The player's mathematical state.
pub struct PlayerModel {
    pub lines: Seq<Seq<u8>>,
    pub idx: int,
    pub nav: NavigationState,
    pub anchor: Option<Anchor>,
    pub fallback_dt: DateTime,
    pub last_file_secs: i64,
    pub has_time: bool,
}

impl View for Player {
    type V = PlayerModel;

    open spec fn view(&self) -> PlayerModel {
        PlayerModel {
            lines: seqs_of(self.lines@),
            idx: self.idx as int,
            nav: self.nav,
            anchor: self.anchor,
            fallback_dt: self.fallback_dt,
            last_file_secs: self.last_file_secs,
            has_time: self.has_time,
        }
    }
}

/// The recording carries at least one time sentence.
pub open spec fn has_time_spec(lines: Seq<Seq<u8>>) -> bool {
    exists|i: int| 0 <= i < lines.len() && line_kind(#[trigger] lines[i]) == SentenceKind::Zda
}

/// A player about to replay `lines`, constructed at clock reading `start`.
pub open spec fn fresh_model(lines: Seq<Seq<u8>>, start: Clock) -> PlayerModel {
    PlayerModel {
        lines: lines,
        idx: 0,
        nav: initial_state(),
        anchor: None,
        fallback_dt: start.dt,
        last_file_secs: 0,
        has_time: has_time_spec(lines),
    }
}

/// The player states that can arise during a replay.
pub open spec fn player_wf(p: PlayerModel) -> bool {
    &&& 0 <= p.idx <= p.lines.len()
    &&& valid_dt(p.fallback_dt)
    &&& p.anchor matches Some(a) ==> 0 <= a.file_secs < MAX_EPOCH_SECONDS && 0 <= a.wall_ms
        <= MAX_CLOCK_MS && 0 <= p.last_file_secs < MAX_EPOCH_SECONDS
}

/// A time sentence with an invalid composed date becomes the fallback
/// date-time; every other update passes through.
pub open spec fn resolve_update(u: NavUpdate, fb: DateTime) -> NavUpdate {
    if u is TimeFallback {
        NavUpdate::Time { dt: fb }
    } else {
        u
    }
}

/// The update the player's next line applies to the state store.
pub open spec fn step_update(p: PlayerModel) -> NavUpdate {
    resolve_update(decode_spec(p.lines[p.idx]), p.fallback_dt)
}

/// The player after one step at clock reading `c`: the line is decoded
/// into the state, the recording clock advances on a time sentence, and
/// the first time sentence anchors the pacing clock at `c`.
pub open spec fn step_model(p: PlayerModel, c: Clock) -> PlayerModel {
    if p.idx >= p.lines.len() {
        p
    } else {
        let u = step_update(p);
        let nav = apply_update(p.nav, u);
        match u {
            NavUpdate::Time { dt } => {
                let fsecs = epoch_seconds(dt) as i64;
                if p.anchor is None {
                    PlayerModel {
                        idx: p.idx + 1,
                        nav,
                        anchor: Some(Anchor { file_secs: fsecs, wall_ms: c.ms }),
                        fallback_dt: c.dt,
                        last_file_secs: fsecs,
                        ..p
                    }
                } else {
                    PlayerModel { idx: p.idx + 1, nav, last_file_secs: fsecs, ..p }
                }
            },
            _ => PlayerModel { idx: p.idx + 1, nav, ..p },
        }
    }
}

/// The sleep the step asks for: with an anchor, recorded elapsed time
/// minus real elapsed time (never negative); without time sentences, the
/// line's serial wire time; otherwise none.
pub open spec fn step_delay(p: PlayerModel, c: Clock) -> int {
    let p1 = step_model(p, c);
    match p1.anchor {
        Some(a) => delay_model((p1.last_file_secs - a.file_secs) * 1000, c.ms - a.wall_ms),
        None => if p.has_time {
            0
        } else {
            bandwidth_delay_model(p.lines[p.idx].len() as int)
        },
    }
}

/// A verified byte copy of one line, so the sent bytes are exactly the
/// line's bytes.
#[verifier::loop_isolation(false)]
fn copy_line(v: &Vec<u8>) -> (r: Vec<u8>)
    ensures
        r@ == v@,
{
    let mut r: Vec<u8> = Vec::new();
    let n = v.len();
    let mut i: usize = 0;
    while i < n
        invariant
            0 <= i <= n,
            n == v@.len(),
            r@ == v@.take(i as int),
        decreases n - i,
    {
        r.push(v[i]);
        proof {
            assert(r@ =~= v@.take(i + 1));
        }
        i = i + 1;
    }
    proof {
        assert(v@.take(n as int) =~= v@);
    }
    r
}

impl Player {
    /// A player for the given lines, constructed at clock reading `start`.
    pub fn new(lines: Vec<Vec<u8>>, start: Clock) -> (p: Player)
        requires
            clock_wf(start),
        ensures
            p@ == fresh_model(seqs_of(lines@), start),
            player_wf(p@),
    {
        let ghost lseqs = seqs_of(lines@);
        let n = lines.len();
        let mut has_time = false;
        let mut i: usize = 0;
        #[verifier::loop_isolation(false)]
        while i < n
            invariant
                0 <= i <= n,
                has_time == exists|k: int|
                    0 <= k < i && line_kind(#[trigger] lseqs[k]) == SentenceKind::Zda,
            decreases n - i,
        {
            let fields = split_fields(lines[i].as_slice());
            let kind = classify_tag(fields[0].as_slice());
            if matches!(kind, SentenceKind::Zda) {
                proof {
                    assert(line_kind(lseqs[i as int]) == SentenceKind::Zda);
                }
                has_time = true;
            }
            i = i + 1;
        }
        Player {
            lines,
            idx: 0,
            nav: NavigationState::new(),
            anchor: None,
            fallback_dt: start.dt,
            last_file_secs: 0,
            has_time,
        }
    }

    /// Replays one line: decodes it into the state store, advances the
    /// pacing clock, and returns the raw line with the sleep to take
    /// before sending it; `None` once the recording is exhausted.  With an
    /// anchor, sleeping the returned delay brings real elapsed time up to
    /// at least the recorded elapsed time, and the delay is never
    /// negative: the player throttles getting ahead but never blocks to
    /// catch up.
    pub fn step(&mut self, clock: Clock) -> (r: Option<LineOut>)
        requires
            player_wf(old(self)@),
            clock_wf(clock),
        ensures
            final(self)@ == step_model(old(self)@, clock),
            player_wf(final(self)@),
            (r is Some) == (old(self)@.idx < old(self)@.lines.len()),
            r matches Some(out) ==> out.line@ == old(self)@.lines[old(self)@.idx]
                && out.delay_ms as int == step_delay(old(self)@, clock),
            r matches Some(out) ==> (final(self)@.anchor matches Some(a) ==> (clock.ms - a.wall_ms)
                + out.delay_ms >= (final(self)@.last_file_secs - a.file_secs) * 1000),
    {
        if self.idx >= self.lines.len() {
            return None;
        }
        let ghost p0 = self@;
        let line = copy_line(&self.lines[self.idx]);
        let u0 = decode_line(line.as_slice());
        let u = match u0 {
            NavUpdate::TimeFallback => NavUpdate::Time { dt: self.fallback_dt },
            other => other,
        };
        proof {
            assert(u == step_update(p0));
        }
        self.nav.apply(&u);
        if let NavUpdate::Time { dt } = u {
            proof {
                crate::decode::lemma_decode_time_valid(p0.lines[p0.idx]);
            }
            let fsecs = dt_epoch_seconds(&dt);
            if self.anchor.is_none() {
                self.anchor = Some(Anchor { file_secs: fsecs, wall_ms: clock.ms });
                self.fallback_dt = clock.dt;
            }
            self.last_file_secs = fsecs;
        }
        let delay_ms: u64 = match &self.anchor {
            Some(a) => {
                let target = (self.last_file_secs - a.file_secs) * 1000;
                let actual = clock.ms - a.wall_ms;
                compute_delay_ms(target, actual)
            },
            None => {
                if self.has_time {
                    0
                } else {
                    bandwidth_delay_ms(line.len())
                }
            },
        };
        self.idx = self.idx + 1;
        proof {
            assert(self@ == step_model(p0, clock));
        }
        Some(LineOut { delay_ms, line })
    }
}

/// The states a player sequence goes through from `p` under the clock
/// readings `clocks`, one step per reading.
pub open spec fn run_trace(p: PlayerModel, clocks: Seq<Clock>) -> Seq<NavigationState>
    decreases clocks.len(),
{
    if clocks.len() == 0 {
        Seq::empty()
    } else {
        let p1 = step_model(p, clocks[0]);
        seq![p1.nav] + run_trace(p1, clocks.skip(1))
    }
}

/// Replaying is deterministic: two players started fresh on the same
/// lines, fed the same clock readings, pass through the same sequence of
/// navigation states.  Together with `Player::step`'s postcondition, which
/// pins each executed step to `step_model`, re-running a file from a fresh
/// idle state reproduces the same state transitions.
pub proof fn lemma_replay_deterministic(
    lines: Seq<Seq<u8>>,
    start: Clock,
    clocks: Seq<Clock>,
    p1: PlayerModel,
    p2: PlayerModel,
)
    requires
        p1 == fresh_model(lines, start),
        p2 == fresh_model(lines, start),
    ensures
        run_trace(p1, clocks) == run_trace(p2, clocks),
{
}

/// The playback lifecycle: idle until a file is loaded, running while its
/// lines replay, finished when they are exhausted.  The final navigation
/// state outlives the run.
pub enum Orchestrator {
    Idle,
    Running(Player),
    Finished(NavigationState),
}

/// The orchestrator's mathematical state.
pub enum OrchestratorModel {
    Idle,
    Running(PlayerModel),
    Finished(NavigationState),
}

impl View for Orchestrator {
    type V = OrchestratorModel;

    open spec fn view(&self) -> OrchestratorModel {
        match self {
            Orchestrator::Idle => OrchestratorModel::Idle,
            Orchestrator::Running(p) => OrchestratorModel::Running(p@),
            Orchestrator::Finished(n) => OrchestratorModel::Finished(*n),
        }
    }
}

/// The states an orchestrator can be in.
pub open spec fn orchestrator_wf(m: OrchestratorModel) -> bool {
    m matches OrchestratorModel::Running(p) ==> player_wf(p)
}

/// The navigation snapshot the presentation layer reads: sentinels before
/// a file is loaded, the live store while running, the final state after.
pub open spec fn snapshot_model(m: OrchestratorModel) -> NavigationState {
    match m {
        OrchestratorModel::Idle => initial_state(),
        OrchestratorModel::Running(p) => p.nav,
        OrchestratorModel::Finished(n) => n,
    }
}

impl Orchestrator {
    /// An orchestrator with no file loaded.
    pub fn new() -> (r: Orchestrator)
        ensures
            r@ == OrchestratorModel::Idle,
    {
        Orchestrator::Idle
    }

    /// Loads a recording and starts a run: the text is split into its
    /// CRLF-terminated lines and a fresh player is built over them.  A
    /// start while already running (or finished) is a no-op, so only one
    /// run can exist at a time.
    pub fn start(&mut self, text: &[u8], clock: Clock) -> (started: bool)
        requires
            clock_wf(clock),
            orchestrator_wf(old(self)@),
        ensures
            orchestrator_wf(final(self)@),
            started == (old(self)@ is Idle),
            old(self)@ is Idle ==> final(self)@ == OrchestratorModel::Running(
                fresh_model(crate::split::split_crlf(text@), clock),
            ),
            !(old(self)@ is Idle) ==> final(self)@ == old(self)@,
    {
        let idle = matches!(self, Orchestrator::Idle);
        if idle {
            let lines = split_lines(text);
            *self = Orchestrator::Running(Player::new(lines, clock));
            true
        } else {
            false
        }
    }

    /// Advances a running replay by one line (see `Player::step`); on the
    /// step past the last line the run finishes, keeping the final
    /// navigation state.  Idle and finished orchestrators do nothing.
    pub fn step(&mut self, clock: Clock) -> (r: Option<LineOut>)
        requires
            clock_wf(clock),
            orchestrator_wf(old(self)@),
        ensures
            orchestrator_wf(final(self)@),
            old(self)@ matches OrchestratorModel::Running(p) ==> {
                &&& p.idx < p.lines.len() ==> final(self)@ == OrchestratorModel::Running(
                    step_model(p, clock),
                ) && r is Some
                &&& p.idx >= p.lines.len() ==> final(self)@ == OrchestratorModel::Finished(p.nav)
                    && r is None
                &&& r matches Some(out) ==> out.line@ == p.lines[p.idx] && out.delay_ms as int
                    == step_delay(p, clock)
            },
            !(old(self)@ is Running) ==> final(self)@ == old(self)@ && r is None,
    {
        match self {
            Orchestrator::Running(p) => {
                let r = p.step(clock);
                if r.is_none() {
                    let nav = p.nav;
                    *self = Orchestrator::Finished(nav);
                }
                r
            },
            _ => None,
        }
    }

    /// The navigation snapshot, read whole so no single field can be torn.
    pub fn snapshot(&self) -> (s: NavigationState)
        ensures
            s == snapshot_model(self@),
    {
        match self {
            Orchestrator::Idle => NavigationState::new(),
            Orchestrator::Running(p) => p.nav,
            Orchestrator::Finished(n) => *n,
        }
    }
}

} // verus!
