//! The mascot's behaviour state machine. Time is in milliseconds since
//! start; positions and physics stay with the caller, which reports the
//! events that depend on them.
use vstd::prelude::*;

verus! {

/// Mascot states; each has an animation and a facial expression.
#[derive(Clone, Copy, PartialEq, Eq, Debug, Structural)]
pub enum State {
    /// Before the animations are loaded.
    Boot,
    Idle,
    Walking,
    Typing,
    Sleeping,
    Crying,
    /// Dragged with the mouse.
    Hanging,
    /// Released (or after a jump): falling, then landing.
    Falling,
    /// Warning before the chase.
    Angry,
    /// Running toward the cursor.
    ChaseRun,
    /// Jumping toward the cursor.
    JumpingUp,
    /// Greeting that confirms a voice command.
    Saluting,
}

pub open spec fn anim_name(s: State) -> Seq<char> {
    match s {
        State::Boot | State::Idle => "idle"@,
        State::Walking => "walking"@,
        State::Typing => "typing"@,
        State::Sleeping => "sleeping_idle"@,
        State::Crying => "crying"@,
        State::Hanging => "hanging"@,
        State::Falling => "on_falling"@,
        State::Angry => "angry"@,
        State::ChaseRun => "run"@,
        State::JumpingUp => "jumping_up"@,
        State::Saluting => "salute"@,
    }
}

pub open spec fn spec_is_drag(s: State) -> bool {
    s == State::Hanging || s == State::Falling
}

pub open spec fn spec_is_chaos(s: State) -> bool {
    s == State::Angry || s == State::ChaseRun || s == State::JumpingUp
}

pub open spec fn spec_one_shot(s: State) -> bool {
    s == State::JumpingUp || s == State::Saluting
}

pub open spec fn spec_faces_sideways(s: State) -> bool {
    s == State::Walking || s == State::ChaseRun
}

pub open spec fn spec_instant(s: State) -> bool {
    spec_is_drag(s) || s == State::Walking || s == State::Angry || s == State::ChaseRun || s
        == State::JumpingUp
}

impl State {
    /// The animation clip (file name without `.vrma`) of the state.
    pub fn anim(self) -> (r: &'static str)
        ensures
            r@ == anim_name(self),
    {
        match self {
            State::Boot | State::Idle => "idle",
            State::Walking => "walking",
            State::Typing => "typing",
            State::Sleeping => "sleeping_idle",
            State::Crying => "crying",
            State::Hanging => "hanging",
            State::Falling => "on_falling",
            State::Angry => "angry",
            State::ChaseRun => "run",
            State::JumpingUp => "jumping_up",
            State::Saluting => "salute",
        }
    }

    /// Being dragged or falling.
    pub fn is_drag(self) -> (r: bool)
        ensures
            r == spec_is_drag(self),
    {
        self == State::Hanging || self == State::Falling
    }

    /// One of the chase states.
    pub fn is_chaos(self) -> (r: bool)
        ensures
            r == spec_is_chaos(self),
    {
        self == State::Angry || self == State::ChaseRun || self == State::JumpingUp
    }

    /// Its animation plays once and holds the last frame.
    pub fn one_shot(self) -> (r: bool)
        ensures
            r == spec_one_shot(self),
    {
        self == State::JumpingUp || self == State::Saluting
    }

    /// The model faces sideways (moving along the screen).
    pub fn faces_sideways(self) -> (r: bool)
        ensures
            r == spec_faces_sideways(self),
    {
        self == State::Walking || self == State::ChaseRun
    }

    /// Entered without a crossfade.
    pub fn instant(self) -> (r: bool)
        ensures
            r == spec_instant(self),
    {
        self.is_drag() || self == State::Walking || self == State::Angry || self == State::ChaseRun
            || self == State::JumpingUp
    }
}

/// An animation clip to start.
#[derive(Clone, Copy, PartialEq, Eq, Debug, Structural)]
pub enum Clip {
    /// The clip of a state.
    Of(State),
    /// Landing, played so that it ends when the mascot touches the ground.
    FallingEnd,
    /// Holding on (after catching the cursor).
    Hanging,
}

pub open spec fn clip_name(c: Clip) -> Seq<char> {
    match c {
        Clip::Of(s) => anim_name(s),
        Clip::FallingEnd => "falling_end"@,
        Clip::Hanging => "hanging"@,
    }
}

impl Clip {
    /// The clip's file name without `.vrma`.
    pub fn name(self) -> (r: &'static str)
        ensures
            r@ == clip_name(self),
    {
        match self {
            Clip::Of(s) => s.anim(),
            Clip::FallingEnd => "falling_end",
            Clip::Hanging => "hanging",
        }
    }
}

/// A request to play a clip: without a crossfade when `instant` (otherwise
/// a 300 ms crossfade), repeating forever or once.
#[derive(Clone, Copy, PartialEq, Eq, Debug, Structural)]
pub struct Play {
    pub clip: Clip,
    pub instant: bool,
    pub forever: bool,
}

/// The clip request for entering a state.
pub open spec fn play_of(s: State) -> Play {
    Play { clip: Clip::Of(s), instant: spec_instant(s), forever: !spec_one_shot(s) }
}

// Behaviour thresholds, in milliseconds.
/// The editor counts as being typed in when input was at most this long ago.
pub const TYPING_GRACE: u64 = 120_000;
/// Idle time before falling asleep.
pub const SLEEP_AFTER: u64 = 900_000;
/// Length of one walk.
pub const WALK_DURATION: u64 = 8_000;
/// Shortest wait in idle before a walk.
pub const WALK_DELAY_MIN: u64 = 60_000;
/// Longest wait in idle before a walk.
pub const WALK_DELAY_MAX: u64 = 300_000;
/// Crying after a click.
pub const CRY_DURATION: u64 = 4_000;
/// Length of the landing clip.
pub const FALL_END_DURATION: u64 = 1_050;
/// Coding time that triggers the chase.
pub const WORK_LIMIT: u64 = 1_500_000;
/// The angry warning before the chase.
pub const ANGRY_DURATION: u64 = 2_500;
/// The chase gives up after this long.
pub const CHASE_TIMEOUT: u64 = 12_000;
/// The salute clip is not interrupted before this long.
pub const SALUTE_DURATION: u64 = 2_830;
/// A break this long resets the coding time.
pub const WORK_RESET_IDLE: u64 = 60_000;
/// Input this recent wakes the mascot up.
pub const WAKE_IDLE: u64 = 2_000;
/// The foreground process is checked at most this often.
pub const EDITOR_POLL: u64 = 300;

/// `a + b`, capped at `u64::MAX`.
pub open spec fn sat_add(a: u64, b: u64) -> u64 {
    if a + b > u64::MAX {
        u64::MAX
    } else {
        (a + b) as u64
    }
}

/// `a - b`, floored at zero.
pub open spec fn sat_sub(a: u64, b: u64) -> u64 {
    if a < b {
        0
    } else {
        (a - b) as u64
    }
}

/// The pseudo-random generator step.
pub open spec fn lcg(x: u32) -> u32 {
    ((x * 1664525 + 1013904223) % 0x1_0000_0000) as u32
}

/// Wait before a walk for generator state `r`: 60 s plus `(r >> 16) / 65536`
/// of the 240 s range.
pub open spec fn walk_delay(r: u32) -> u64 {
    (WALK_DELAY_MIN + ((r / 65536) * (WALK_DELAY_MAX - WALK_DELAY_MIN)) / 65536) as u64
}

/// The discrete state of the mascot, with its timers (in milliseconds).
#[derive(Clone, Copy, Debug)]
pub struct Mascot {
    pub state: State,
    /// When the current state was entered.
    pub entered: u64,
    /// When to leave idle for a walk (set only in idle).
    pub walk_at: Option<u64>,
    /// When to fall asleep (kept across idle and walking only).
    pub sleep_at: Option<u64>,
    /// Crying until then.
    pub cry_until: u64,
    /// Being dragged with the mouse now.
    pub dragging: bool,
    /// How long after the start of a fall the landing clip starts.
    pub fall_switch: u64,
    /// The landing clip has started.
    pub fall_switched: bool,
    /// Accumulated coding time.
    pub work: u64,
    /// Slow (parachute) descent after catching the cursor.
    pub fall_slow: bool,
    /// Holding the caught cursor while descending.
    pub fall_hold: bool,
    /// Pseudo-random generator state.
    pub rng: u32,
}

/// The timers belong to their states: a walk timer only in idle, a sleep
/// timer only in idle or walking.
pub open spec fn timers_wf(m: Mascot) -> bool {
    &&& m.walk_at is Some ==> m.state == State::Idle
    &&& m.sleep_at is Some ==> (m.state == State::Idle || m.state == State::Walking)
}

/// The mouse drag flag is set exactly while the mascot hangs.
pub open spec fn drag_wf(m: Mascot) -> bool {
    m.dragging <==> m.state == State::Hanging
}

/// Entering state `new` at `now`: timers are (re)armed for idle, the walk
/// timer cleared for walking, both cleared otherwise. Entering the current
/// state changes nothing.
pub open spec fn enter_spec(m: Mascot, now: u64, new: State) -> Mascot {
    if m.state == new {
        m
    } else {
        let m1 = Mascot { state: new, entered: now, ..m };
        match new {
            State::Idle => {
                let r = lcg(m.rng);
                Mascot {
                    rng: r,
                    walk_at: Some(sat_add(now, walk_delay(r))),
                    sleep_at: if m.sleep_at is None {
                        Some(sat_add(now, SLEEP_AFTER))
                    } else {
                        m.sleep_at
                    },
                    ..m1
                }
            },
            State::Walking => Mascot { walk_at: None, ..m1 },
            _ => Mascot { walk_at: None, sleep_at: None, ..m1 },
        }
    }
}

/// The clip request of entering `new` (none when already there).
pub open spec fn enter_play(m: Mascot, new: State) -> Option<Play> {
    if m.state == new {
        None
    } else {
        Some(play_of(new))
    }
}

/// What the behaviour loop reads each frame.
#[derive(Clone, Copy, Debug)]
pub struct Tick {
    /// Milliseconds since start.
    pub now: u64,
    /// Milliseconds since the previous frame.
    pub dt: u64,
    /// Milliseconds since the last user input.
    pub idle: u64,
    /// A code editor is in the foreground.
    pub editor: bool,
    /// The test key for the chase was pressed.
    pub chaos_key: bool,
    /// The idle animation is loaded.
    pub idle_clip_loaded: bool,
}

/// Whether the user is coding: an editor in front and recent input.
pub open spec fn coding(t: Tick) -> bool {
    t.editor && t.idle < TYPING_GRACE
}

/// The state the behaviour wants, by priority: crying, typing, finishing a
/// walk, sleeping (until recent input), walking when the walk timer is due
/// in idle, otherwise idle.
pub open spec fn desired_state(m: Mascot, t: Tick) -> State {
    if t.now < m.cry_until {
        State::Crying
    } else if coding(t) {
        State::Typing
    } else if m.state == State::Walking && t.now < m.entered + WALK_DURATION {
        State::Walking
    } else if m.state == State::Sleeping {
        if t.idle < WAKE_IDLE {
            State::Idle
        } else {
            State::Sleeping
        }
    } else if (m.sleep_at matches Some(s) && t.now >= s) {
        State::Sleeping
    } else if m.state == State::Idle && (m.walk_at matches Some(w) && t.now >= w) {
        State::Walking
    } else {
        State::Idle
    }
}

/// Whether the behaviour loop leaves the mascot alone this frame: nothing
/// loaded yet, dragged, falling, chasing, or saluting for less than the
/// salute's length.
pub open spec fn behavior_paused(m: Mascot, t: Tick) -> bool {
    ||| !t.idle_clip_loaded
    ||| spec_is_drag(m.state)
    ||| spec_is_chaos(m.state)
    ||| (m.state == State::Saluting && t.now < m.entered + SALUTE_DURATION)
}

/// Coding time after this frame: grows while coding, resets after a break
/// of a minute.
pub open spec fn next_work(m: Mascot, t: Tick) -> u64 {
    if coding(t) {
        sat_add(m.work, t.dt)
    } else if t.idle >= WORK_RESET_IDLE {
        0
    } else {
        m.work
    }
}

/// One frame of the behaviour loop.
pub open spec fn behavior_spec(m: Mascot, t: Tick) -> (Mascot, Option<Play>) {
    if behavior_paused(m, t) {
        (m, None)
    } else {
        let m2 = Mascot { work: next_work(m, t), ..m };
        if m2.work >= WORK_LIMIT || t.chaos_key {
            let m3 = Mascot { work: 0, ..m2 };
            (enter_spec(m3, t.now, State::Angry), enter_play(m3, State::Angry))
        } else {
            let d = desired_state(m2, t);
            (enter_spec(m2, t.now, d), enter_play(m2, d))
        }
    }
}

/// Starting a fall; `caught` when the mascot caught the cursor (slow descent
/// holding it, hanging clip), `total` the expected fall time.
pub open spec fn start_fall_spec(m: Mascot, now: u64, caught: bool, total: u64) -> (
    Mascot,
    Seq<Play>,
) {
    let m1 = Mascot {
        fall_slow: caught,
        fall_hold: caught,
        fall_switch: sat_sub(total, FALL_END_DURATION),
        fall_switched: false,
        ..m
    };
    let first = match enter_play(m1, State::Falling) {
        Some(p) => seq![p],
        None => Seq::empty(),
    };
    let second = if caught {
        seq![Play { clip: Clip::Hanging, instant: true, forever: true }]
    } else {
        Seq::empty()
    };
    (enter_spec(m1, now, State::Falling), first + second)
}

/// One frame of the chase: the warning ends into the run; the run turns
/// into a jump when the cursor is `near`, or gives up after the timeout;
/// the jump, once `arrived`, becomes a fall (slow if `caught`).
pub open spec fn chaos_spec(m: Mascot, now: u64, near: bool, arrived: bool, caught: bool, total: u64) -> (
    Mascot,
    Seq<Play>,
) {
    let elapsed = now - m.entered;
    let opt = |p: Option<Play>|
        match p {
            Some(x) => seq![x],
            None => Seq::<Play>::empty(),
        };
    match m.state {
        State::Angry => if elapsed >= ANGRY_DURATION {
            (enter_spec(m, now, State::ChaseRun), opt(enter_play(m, State::ChaseRun)))
        } else {
            (m, Seq::empty())
        },
        State::ChaseRun => if near {
            (enter_spec(m, now, State::JumpingUp), opt(enter_play(m, State::JumpingUp)))
        } else if elapsed >= CHASE_TIMEOUT {
            (enter_spec(m, now, State::Idle), opt(enter_play(m, State::Idle)))
        } else {
            (m, Seq::empty())
        },
        State::JumpingUp => if arrived {
            start_fall_spec(m, now, caught, total)
        } else {
            (m, Seq::empty())
        },
        _ => (m, Seq::empty()),
    }
}

/// Frames of a fall before landing: the landing clip starts once
/// `fall_switch` has passed since the fall began.
pub open spec fn fall_tick_spec(m: Mascot, now: u64) -> (Mascot, Option<Play>) {
    if m.state == State::Falling && !m.fall_switched && now - m.entered >= m.fall_switch {
        (
            Mascot { fall_switched: true, fall_slow: false, ..m },
            Some(Play { clip: Clip::FallingEnd, instant: true, forever: false }),
        )
    } else {
        (m, None)
    }
}

/// Touching the ground ends a fall in idle.
pub open spec fn land_spec(m: Mascot, now: u64) -> (Mascot, Option<Play>) {
    if m.state == State::Falling {
        let m1 = Mascot { fall_hold: false, fall_slow: false, ..m };
        (enter_spec(m1, now, State::Idle), enter_play(m1, State::Idle))
    } else {
        (m, None)
    }
}

/// A confirmed voice command makes the mascot salute, unless the clip is
/// missing or it is dragged, falling, chasing or already saluting.
pub open spec fn voice_spec(m: Mascot, now: u64, heard: bool, salute_loaded: bool) -> (
    Mascot,
    Option<Play>,
) {
    if !heard || !salute_loaded || spec_is_drag(m.state) || spec_is_chaos(m.state) || m.state
        == State::Saluting {
        (m, None)
    } else {
        (enter_spec(m, now, State::Saluting), enter_play(m, State::Saluting))
    }
}

/// The view of an optional clip request as a sequence.
pub open spec fn opt_seq(p: Option<Play>) -> Seq<Play> {
    match p {
        Some(x) => seq![x],
        None => Seq::empty(),
    }
}

impl Default for Mascot {
    fn default() -> (r: Mascot)
        ensures
            r.state == State::Boot,
            r.entered == 0,
            r.walk_at is None,
            r.sleep_at is None,
            r.cry_until == 0,
            !r.dragging,
            r.fall_switch == 0,
            !r.fall_switched,
            r.work == 0,
            !r.fall_slow,
            !r.fall_hold,
            r.rng == 0x1234_5678,
    {
        Mascot {
            state: State::Boot,
            entered: 0,
            walk_at: None,
            sleep_at: None,
            cry_until: 0,
            dragging: false,
            fall_switch: 0,
            fall_switched: false,
            work: 0,
            fall_slow: false,
            fall_hold: false,
            rng: 0x1234_5678,
        }
    }
}

impl Mascot {
    /// Advances the pseudo-random generator; returns its new state.
    pub fn next_rand(&mut self) -> (r: u32)
        ensures
            r == lcg(old(self).rng),
            *final(self) == (Mascot { rng: r, ..*old(self) }),
    {
        self.rng = self.rng.wrapping_mul(1_664_525).wrapping_add(1_013_904_223);
        proof {
            let x = old(self).rng as int;
            assert(((((x * 1664525) % 0x1_0000_0000) + 1013904223) % 0x1_0000_0000) == (x * 1664525
                + 1013904223) % 0x1_0000_0000) by (nonlinear_arith);
        }
        self.rng
    }

    /// Enters `new` at `now` (see [`enter_spec`]); returns the clip to play.
    pub fn enter(&mut self, now: u64, new: State) -> (r: Option<Play>)
        ensures
            *final(self) == enter_spec(*old(self), now, new),
            r == enter_play(*old(self), new),
            timers_wf(*old(self)) ==> timers_wf(*final(self)),
    {
        if self.state == new {
            return None;
        }
        self.state = new;
        self.entered = now;
        match new {
            State::Idle => {
                let r = self.next_rand();
                let delay = WALK_DELAY_MIN + ((r / 65536) as u64 * (WALK_DELAY_MAX - WALK_DELAY_MIN))
                    / 65536;
                proof {
                    assert((r / 65536) * 240000 < 65536 * 240000) by (nonlinear_arith)
                        requires
                            r / 65536 < 65536,
                    ;
                }
                self.walk_at = Some(now.saturating_add(delay));
                if self.sleep_at.is_none() {
                    self.sleep_at = Some(now.saturating_add(SLEEP_AFTER));
                }
            },
            State::Walking => {
                self.walk_at = None;
            },
            _ => {
                self.walk_at = None;
                self.sleep_at = None;
            },
        }
        Some(Play { clip: Clip::Of(new), instant: new.instant(), forever: !new.one_shot() })
    }

    /// One frame of the behaviour state machine (see [`behavior_spec`]).
    pub fn behavior_step(&mut self, t: Tick) -> (r: Option<Play>)
        ensures
            (*final(self), r) == behavior_spec(*old(self), t),
            timers_wf(*old(self)) ==> timers_wf(*final(self)),
            drag_wf(*old(self)) ==> drag_wf(*final(self)),
    {
        if !t.idle_clip_loaded || self.state.is_drag() || self.state.is_chaos() {
            return None;
        }
        if self.state == State::Saluting && (t.now < self.entered || t.now - self.entered
            < SALUTE_DURATION) {
            return None;
        }
        let coding = t.editor && t.idle < TYPING_GRACE;
        if coding {
            self.work = self.work.saturating_add(t.dt);
        } else if t.idle >= WORK_RESET_IDLE {
            self.work = 0;
        }
        if self.work >= WORK_LIMIT || t.chaos_key {
            self.work = 0;
            return self.enter(t.now, State::Angry);
        }
        let desired = if t.now < self.cry_until {
            State::Crying
        } else if coding {
            State::Typing
        } else if self.state == State::Walking && t.now >= self.entered && t.now - self.entered
            < WALK_DURATION {
            State::Walking
        } else if self.state == State::Walking && t.now < self.entered {
            State::Walking
        } else if self.state == State::Sleeping {
            if t.idle < WAKE_IDLE {
                State::Idle
            } else {
                State::Sleeping
            }
        } else if self.sleep_at.is_some() && t.now >= self.sleep_at.unwrap() {
            State::Sleeping
        } else if self.state == State::Idle && self.walk_at.is_some() && t.now
            >= self.walk_at.unwrap() {
            State::Walking
        } else {
            State::Idle
        };
        self.enter(t.now, desired)
    }

    /// Starts a fall (see [`start_fall_spec`]); returns the clips to play.
    pub fn start_fall(&mut self, now: u64, caught: bool, total: u64) -> (r: Vec<Play>)
        ensures
            (*final(self), r@) == start_fall_spec(*old(self), now, caught, total),
            timers_wf(*old(self)) ==> timers_wf(*final(self)),
    {
        self.fall_slow = caught;
        self.fall_hold = caught;
        self.fall_switch = total.saturating_sub(FALL_END_DURATION);
        self.fall_switched = false;
        let mut plays: Vec<Play> = Vec::new();
        match self.enter(now, State::Falling) {
            Some(p) => plays.push(p),
            None => {},
        }
        if caught {
            plays.push(Play { clip: Clip::Hanging, instant: true, forever: true });
        }
        proof {
            let m1 = Mascot {
                fall_slow: caught,
                fall_hold: caught,
                fall_switch: sat_sub(total, FALL_END_DURATION),
                fall_switched: false,
                ..*old(self)
            };
            assert(plays@ =~= start_fall_spec(*old(self), now, caught, total).1);
        }
        plays
    }

    /// One frame of the chase (see [`chaos_spec`]); returns the clips to play.
    pub fn chaos_step(&mut self, now: u64, near: bool, arrived: bool, caught: bool, total: u64) -> (r:
        Vec<Play>)
        ensures
            (*final(self), r@) == chaos_spec(*old(self), now, near, arrived, caught, total),
            timers_wf(*old(self)) ==> timers_wf(*final(self)),
            drag_wf(*old(self)) ==> drag_wf(*final(self)),
    {
        let mut plays: Vec<Play> = Vec::new();
        match self.state {
            State::Angry => {
                if now >= self.entered && now - self.entered >= ANGRY_DURATION {
                    match self.enter(now, State::ChaseRun) {
                        Some(p) => plays.push(p),
                        None => {},
                    }
                }
            },
            State::ChaseRun => {
                if near {
                    match self.enter(now, State::JumpingUp) {
                        Some(p) => plays.push(p),
                        None => {},
                    }
                } else if now >= self.entered && now - self.entered >= CHASE_TIMEOUT {
                    match self.enter(now, State::Idle) {
                        Some(p) => plays.push(p),
                        None => {},
                    }
                }
            },
            State::JumpingUp => {
                if arrived {
                    plays = self.start_fall(now, caught, total);
                }
            },
            _ => {},
        }
        proof {
            assert(plays@ =~= chaos_spec(*old(self), now, near, arrived, caught, total).1);
        }
        plays
    }

    /// During a fall: starts the landing clip when due (see [`fall_tick_spec`]).
    pub fn fall_tick(&mut self, now: u64) -> (r: Option<Play>)
        ensures
            (*final(self), r) == fall_tick_spec(*old(self), now),
            timers_wf(*old(self)) ==> timers_wf(*final(self)),
            drag_wf(*old(self)) ==> drag_wf(*final(self)),
    {
        if self.state == State::Falling && !self.fall_switched && now >= self.entered && now
            - self.entered >= self.fall_switch {
            self.fall_switched = true;
            self.fall_slow = false;
            Some(Play { clip: Clip::FallingEnd, instant: true, forever: false })
        } else {
            None
        }
    }

    /// The falling mascot touched the ground (see [`land_spec`]).
    pub fn land(&mut self, now: u64) -> (r: Option<Play>)
        ensures
            (*final(self), r) == land_spec(*old(self), now),
            timers_wf(*old(self)) ==> timers_wf(*final(self)),
            drag_wf(*old(self)) ==> drag_wf(*final(self)),
    {
        if self.state != State::Falling {
            return None;
        }
        self.fall_hold = false;
        self.fall_slow = false;
        self.enter(now, State::Idle)
    }

    /// A click on the mascot: it cries for the next few seconds.
    pub fn hit(&mut self, now: u64)
        ensures
            *final(self) == (Mascot { cry_until: sat_add(now, CRY_DURATION), ..*old(self) }),
            timers_wf(*old(self)) ==> timers_wf(*final(self)),
            drag_wf(*old(self)) ==> drag_wf(*final(self)),
    {
        self.cry_until = now.saturating_add(CRY_DURATION);
    }

    /// Dragging started: the mascot hangs.
    pub fn drag_start(&mut self, now: u64) -> (r: Option<Play>)
        ensures
            *final(self) == enter_spec(Mascot { dragging: true, ..*old(self) }, now, State::Hanging),
            r == enter_play(Mascot { dragging: true, ..*old(self) }, State::Hanging),
            timers_wf(*old(self)) ==> timers_wf(*final(self)),
            drag_wf(*final(self)),
    {
        self.dragging = true;
        self.enter(now, State::Hanging)
    }

    /// Dragging ended: the mascot falls (not caught); `total` is the
    /// expected fall time.
    pub fn drag_end(&mut self, now: u64, total: u64) -> (r: Vec<Play>)
        ensures
            (*final(self), r@) == start_fall_spec(
                Mascot { dragging: false, ..*old(self) },
                now,
                false,
                total,
            ),
            timers_wf(*old(self)) ==> timers_wf(*final(self)),
            drag_wf(*final(self)),
    {
        self.dragging = false;
        self.start_fall(now, false, total)
    }

    /// Reaction to accepted voice commands (see [`voice_spec`]).
    pub fn voice_reaction(&mut self, now: u64, heard: bool, salute_loaded: bool) -> (r: Option<Play>)
        ensures
            (*final(self), r) == voice_spec(*old(self), now, heard, salute_loaded),
            timers_wf(*old(self)) ==> timers_wf(*final(self)),
            drag_wf(*old(self)) ==> drag_wf(*final(self)),
    {
        if !heard || !salute_loaded || self.state.is_drag() || self.state.is_chaos() || self.state
            == State::Saluting {
            return None;
        }
        self.enter(now, State::Saluting)
    }
}

/// The facial expression of a state; crying and sleeping are animated over
/// time, the others fixed.
#[derive(Clone, Copy, PartialEq, Eq, Debug, Structural)]
pub enum Expression {
    Neutral,
    Sad,
    Relaxed,
    Angry,
    Happy,
}

pub open spec fn expression_spec(s: State) -> Expression {
    match s {
        State::Crying => Expression::Sad,
        State::Sleeping => Expression::Relaxed,
        State::Angry | State::ChaseRun | State::JumpingUp => Expression::Angry,
        State::Saluting => Expression::Happy,
        _ => Expression::Neutral,
    }
}

/// The expression shown in state `s`.
pub fn expression_for(s: State) -> (r: Expression)
    ensures
        r == expression_spec(s),
{
    match s {
        State::Crying => Expression::Sad,
        State::Sleeping => Expression::Relaxed,
        State::Angry | State::ChaseRun | State::JumpingUp => Expression::Angry,
        State::Saluting => Expression::Happy,
        _ => Expression::Neutral,
    }
}

/// Whether the expression changes over time (and is sent every frame).
pub fn expression_animated(s: State) -> (r: bool)
    ensures
        r == (s == State::Crying || s == State::Sleeping),
{
    s == State::Crying || s == State::Sleeping
}

/// When the foreground process was last checked, and what it was.
pub struct EditorCache {
    pub next_check: u64,
    pub editor: bool,
}

impl EditorCache {
    /// Nothing checked yet: the first frame checks.
    pub fn new() -> (r: EditorCache)
        ensures
            r.next_check == 0,
            !r.editor,
    {
        EditorCache { next_check: 0, editor: false }
    }

    /// Whether the foreground process should be checked now.
    pub fn due(&self, now: u64) -> (r: bool)
        ensures
            r == (now >= self.next_check),
    {
        now >= self.next_check
    }

    /// Records a check made at `now`.
    pub fn record(&mut self, now: u64, editor: bool)
        ensures
            final(self).editor == editor,
            final(self).next_check == sat_add(now, EDITOR_POLL),
    {
        self.editor = editor;
        self.next_check = now.saturating_add(EDITOR_POLL);
    }
}


/// Entering the state the mascot is already in changes nothing and plays nothing.
pub proof fn lemma_enter_same_state(m: Mascot, now: u64)
    ensures
        enter_spec(m, now, m.state) == m,
        enter_play(m, m.state) is None,
{
}

/// Entering idle from another state arms the walk timer between one and
/// five minutes ahead.
pub proof fn lemma_idle_walk_window(m: Mascot, now: u64)
    requires
        m.state != State::Idle,
        now + WALK_DELAY_MAX <= u64::MAX,
    ensures
        enter_spec(m, now, State::Idle).walk_at matches Some(w) && now + WALK_DELAY_MIN <= w < now
            + WALK_DELAY_MAX,
{
    let r = lcg(m.rng);
    assert((r / 65536) * 240000 / 65536 < 240000) by (nonlinear_arith)
        requires
            r / 65536 < 65536,
    ;
}

/// Idle and walking do not reset the sleep timer: walking keeps it, and
/// idle keeps one that is already armed (and arms it otherwise).
pub proof fn lemma_sleep_timer_kept(m: Mascot, now: u64)
    ensures
        enter_spec(m, now, State::Walking).sleep_at == m.sleep_at,
        m.sleep_at is Some ==> enter_spec(m, now, State::Idle).sleep_at == m.sleep_at,
        m.state != State::Idle && m.sleep_at is None ==> enter_spec(m, now, State::Idle).sleep_at
            == Some(sat_add(now, SLEEP_AFTER)),
{
}

/// Every other state clears both timers.
pub proof fn lemma_other_states_clear_timers(m: Mascot, now: u64, s: State)
    requires
        s != State::Idle,
        s != State::Walking,
        m.state != s,
    ensures
        enter_spec(m, now, s).walk_at is None,
        enter_spec(m, now, s).sleep_at is None,
{
}

/// While dragged, falling or chasing, the behaviour loop changes nothing.
pub proof fn lemma_behavior_leaves_drag_and_chase(m: Mascot, t: Tick)
    requires
        spec_is_drag(m.state) || spec_is_chaos(m.state),
    ensures
        behavior_spec(m, t) == (m, None::<Play>),
{
}

/// Starting the chase resets the coding time.
pub proof fn lemma_chase_resets_work(m: Mascot, t: Tick)
    requires
        behavior_spec(m, t).0.state == State::Angry,
        m.state != State::Angry,
    ensures
        behavior_spec(m, t).0.work == 0,
{
}

/// Crying has priority: after a click, the behaviour loop shows crying
/// unless the chase starts or the loop is paused.
pub proof fn lemma_crying_first(m: Mascot, t: Tick)
    requires
        !behavior_paused(m, t),
        t.now < m.cry_until,
        next_work(m, t) < WORK_LIMIT,
        !t.chaos_key,
    ensures
        behavior_spec(m, t).0.state == State::Crying,
{
}

/// A voice command never interrupts dragging, falling or the chase.
pub proof fn lemma_voice_keeps_drag_and_chase(m: Mascot, now: u64, heard: bool, salute_loaded: bool)
    requires
        spec_is_drag(m.state) || spec_is_chaos(m.state),
    ensures
        voice_spec(m, now, heard, salute_loaded) == (m, None::<Play>),
{
}

/// The state entered always gets its own clip, with its crossfade and
/// repetition.
pub proof fn lemma_enter_plays_state_clip(m: Mascot, s: State)
    requires
        m.state != s,
    ensures
        enter_play(m, s) == Some(
            Play { clip: Clip::Of(s), instant: spec_instant(s), forever: !spec_one_shot(s) },
        ),
{
}

/// Once the coding time reaches the limit, the next frame that is not
/// paused starts the chase with the warning, and the coding time restarts.
pub proof fn lemma_overwork_starts_chase(m: Mascot, t: Tick)
    requires
        !behavior_paused(m, t),
        next_work(m, t) >= WORK_LIMIT,
    ensures
        behavior_spec(m, t).0.state == State::Angry,
        behavior_spec(m, t).0.work == 0,
        behavior_spec(m, t).1 == Some(play_of(State::Angry)),
{
}

/// While the salute plays, the behaviour loop leaves the mascot alone.
pub proof fn lemma_salute_not_interrupted(m: Mascot, t: Tick)
    requires
        m.state == State::Saluting,
        t.now < m.entered + SALUTE_DURATION,
    ensures
        behavior_spec(m, t) == (m, None::<Play>),
{
}

/// Coding (an editor in front, input within the grace period) shows typing,
/// unless the mascot cries, the chase starts or the loop is paused.
pub proof fn lemma_coding_types(m: Mascot, t: Tick)
    requires
        !behavior_paused(m, t),
        t.now >= m.cry_until,
        coding(t),
        next_work(m, t) < WORK_LIMIT,
        !t.chaos_key,
    ensures
        behavior_spec(m, t).0.state == State::Typing,
{
}

/// When the sleep timer is due in idle, the mascot falls asleep (unless it
/// cries, the user codes or the chase starts), and both timers are cleared.
pub proof fn lemma_sleep_when_due(m: Mascot, t: Tick, s: u64)
    requires
        !behavior_paused(m, t),
        m.state == State::Idle,
        m.sleep_at == Some(s),
        t.now >= s,
        t.now >= m.cry_until,
        !coding(t),
        next_work(m, t) < WORK_LIMIT,
        !t.chaos_key,
    ensures
        behavior_spec(m, t).0.state == State::Sleeping,
        behavior_spec(m, t).0.sleep_at is None,
        behavior_spec(m, t).0.walk_at is None,
{
}

/// A break of at least the typing grace (two minutes without input) resets
/// the coding time on any frame the loop runs, whatever is in front, and
/// never starts the chase unless the test key is pressed.
pub proof fn lemma_break_resets_work(m: Mascot, t: Tick)
    requires
        !behavior_paused(m, t),
        t.idle >= TYPING_GRACE,
        !t.chaos_key,
    ensures
        behavior_spec(m, t).0.work == 0,
        behavior_spec(m, t).0.state != State::Angry,
{
}

/// Coding time grows only while the user codes (an editor in front and
/// input within the typing grace); otherwise it stays or drops to zero.
pub proof fn lemma_work_grows_only_while_coding(m: Mascot, t: Tick)
    requires
        !(t.editor && t.idle < TYPING_GRACE),
    ensures
        behavior_spec(m, t).0.work <= m.work,
        t.idle >= WORK_RESET_IDLE && !behavior_paused(m, t) ==> behavior_spec(m, t).0.work == 0,
{
}

} // verus!
