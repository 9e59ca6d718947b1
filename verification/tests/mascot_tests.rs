use mascot::mascot::{
    expression_animated, expression_for, Clip, EditorCache, Expression, Mascot, Play, State, Tick,
    ANGRY_DURATION, CHASE_TIMEOUT, CRY_DURATION, SALUTE_DURATION, SLEEP_AFTER, WALK_DELAY_MAX,
    WALK_DELAY_MIN, WALK_DURATION, WORK_LIMIT,
};

fn tick(now: u64, idle: u64) -> Tick {
    Tick { now, dt: 16, idle, editor: false, chaos_key: false, idle_clip_loaded: true }
}

fn booted(now: u64) -> Mascot {
    let mut m = Mascot::default();
    let p = m.behavior_step(tick(now, 10_000));
    assert_eq!(p, Some(Play { clip: Clip::Of(State::Idle), instant: false, forever: true }));
    m
}

#[test]
fn nothing_happens_before_the_idle_clip_is_loaded() {
    let mut m = Mascot::default();
    let mut t = tick(1_000, 0);
    t.idle_clip_loaded = false;
    assert_eq!(m.behavior_step(t), None);
    assert_eq!(m.state, State::Boot);
}

#[test]
fn boot_enters_idle_and_arms_both_timers() {
    let m = booted(1_000);
    assert_eq!(m.state, State::Idle);
    assert_eq!(m.entered, 1_000);
    let w = m.walk_at.unwrap();
    assert!(w >= 1_000 + WALK_DELAY_MIN && w < 1_000 + WALK_DELAY_MAX);
    assert_eq!(m.sleep_at, Some(1_000 + SLEEP_AFTER));
    // The generator advanced once from its seed.
    assert_eq!(m.rng, 0x1234_5678u32.wrapping_mul(1_664_525).wrapping_add(1_013_904_223));
    let r = m.rng;
    assert_eq!(w, 1_000 + 60_000 + ((r >> 16) as u64 * 240_000) / 65_536);
}

#[test]
fn next_rand_is_the_linear_congruential_step() {
    let mut m = Mascot::default();
    let a = m.next_rand();
    assert_eq!(a, 0x1234_5678u32.wrapping_mul(1_664_525).wrapping_add(1_013_904_223));
    let b = m.next_rand();
    assert_eq!(b, a.wrapping_mul(1_664_525).wrapping_add(1_013_904_223));
    assert_eq!(m.rng, b);
}

#[test]
fn typing_in_an_editor_counts_work() {
    let mut m = booted(0);
    let mut t = tick(100, 500);
    t.editor = true;
    t.dt = 40;
    let p = m.behavior_step(t);
    assert_eq!(p, Some(Play { clip: Clip::Of(State::Typing), instant: false, forever: true }));
    assert_eq!(m.state, State::Typing);
    assert_eq!(m.work, 40);
    assert_eq!(m.walk_at, None);
    assert_eq!(m.sleep_at, None);
    // The editor left the foreground: back to idle, work kept.
    m.behavior_step(tick(200, 500));
    assert_eq!(m.state, State::Idle);
    assert_eq!(m.work, 40);
    // Two minutes without input in the editor is no longer typing.
    let mut t = tick(250, 120_000);
    t.editor = true;
    assert_eq!(m.behavior_step(t), None);
    assert_eq!(m.state, State::Idle);
    // A one-minute break resets the work counter.
    m.behavior_step(tick(300, 60_000));
    assert_eq!(m.work, 0);
}

#[test]
fn falls_asleep_after_fifteen_minutes_and_wakes_on_input() {
    let mut m = booted(0);
    m.walk_at = None;
    m.behavior_step(tick(SLEEP_AFTER - 1, 1_000_000));
    assert_eq!(m.state, State::Idle);
    let p = m.behavior_step(tick(SLEEP_AFTER, 1_000_000));
    assert_eq!(p, Some(Play { clip: Clip::Of(State::Sleeping), instant: false, forever: true }));
    assert_eq!(m.state, State::Sleeping);
    assert_eq!(m.sleep_at, None);
    assert_eq!(m.behavior_step(tick(SLEEP_AFTER + 5_000, 3_000)), None);
    assert_eq!(m.state, State::Sleeping);
    m.behavior_step(tick(SLEEP_AFTER + 6_000, 1_999));
    assert_eq!(m.state, State::Idle);
    assert_eq!(m.sleep_at, Some(SLEEP_AFTER + 6_000 + SLEEP_AFTER));
}

#[test]
fn walks_when_the_timer_is_due_for_eight_seconds() {
    let mut m = booted(0);
    let w = m.walk_at.unwrap();
    assert_eq!(m.behavior_step(tick(w - 1, 5_000)), None);
    let p = m.behavior_step(tick(w, 5_000));
    assert_eq!(p, Some(Play { clip: Clip::Of(State::Walking), instant: true, forever: true }));
    assert_eq!(m.walk_at, None);
    assert_eq!(m.sleep_at, Some(SLEEP_AFTER));
    assert_eq!(m.behavior_step(tick(w + WALK_DURATION - 1, 5_000)), None);
    m.behavior_step(tick(w + WALK_DURATION, 5_000));
    assert_eq!(m.state, State::Idle);
    assert_eq!(m.sleep_at, Some(SLEEP_AFTER));
    assert!(m.walk_at.unwrap() >= w + WALK_DURATION + WALK_DELAY_MIN);
}

#[test]
fn a_click_makes_it_cry_for_four_seconds() {
    let mut m = booted(0);
    m.hit(10_000);
    assert_eq!(m.cry_until, 10_000 + CRY_DURATION);
    let p = m.behavior_step(tick(10_016, 0));
    assert_eq!(p, Some(Play { clip: Clip::Of(State::Crying), instant: false, forever: true }));
    assert_eq!(m.walk_at, None);
    m.behavior_step(tick(10_000 + CRY_DURATION, 0));
    assert_eq!(m.state, State::Idle);
    // Crying wins over typing.
    m.hit(20_000);
    let mut t = tick(20_010, 0);
    t.editor = true;
    m.behavior_step(t);
    assert_eq!(m.state, State::Crying);
}

#[test]
fn too_much_coding_starts_the_chase() {
    let mut m = booted(0);
    m.work = WORK_LIMIT - 10;
    let mut t = tick(5_000, 0);
    t.editor = true;
    t.dt = 10;
    let p = m.behavior_step(t);
    assert_eq!(p, Some(Play { clip: Clip::Of(State::Angry), instant: true, forever: true }));
    assert_eq!(m.state, State::Angry);
    assert_eq!(m.work, 0);
    // The behaviour loop leaves the chase alone.
    assert_eq!(m.behavior_step(tick(6_000, 0)), None);
    // The warning lasts 2.5 s, then the run.
    assert!(m.chaos_step(5_000 + ANGRY_DURATION - 1, false, false, false, 0).is_empty());
    let p = m.chaos_step(5_000 + ANGRY_DURATION, false, false, false, 0);
    assert_eq!(p, vec![Play { clip: Clip::Of(State::ChaseRun), instant: true, forever: true }]);
    // Near the cursor: the jump, played once.
    let p = m.chaos_step(9_000, true, false, false, 0);
    assert_eq!(p, vec![Play { clip: Clip::Of(State::JumpingUp), instant: true, forever: false }]);
    assert!(m.chaos_step(9_100, true, false, true, 2_000).is_empty());
    // Arrived with the cursor caught: slow fall, holding on.
    let p = m.chaos_step(9_500, false, true, true, 2_000);
    assert_eq!(
        p,
        vec![
            Play { clip: Clip::Of(State::Falling), instant: true, forever: true },
            Play { clip: Clip::Hanging, instant: true, forever: true },
        ]
    );
    assert_eq!(m.state, State::Falling);
    assert!(m.fall_slow && m.fall_hold);
    assert_eq!(m.fall_switch, 950);
    assert_eq!(m.land(11_000), Some(Play { clip: Clip::Of(State::Idle), instant: false, forever: true }));
    assert!(!m.fall_slow && !m.fall_hold);
}

#[test]
fn the_test_key_starts_the_chase_and_the_run_gives_up() {
    let mut m = booted(0);
    let mut t = tick(1_000, 0);
    t.chaos_key = true;
    m.behavior_step(t);
    assert_eq!(m.state, State::Angry);
    m.chaos_step(1_000 + ANGRY_DURATION, false, false, false, 0);
    assert_eq!(m.state, State::ChaseRun);
    let start = m.entered;
    assert!(m.chaos_step(start + CHASE_TIMEOUT - 1, false, false, false, 0).is_empty());
    let p = m.chaos_step(start + CHASE_TIMEOUT, false, false, false, 0);
    assert_eq!(p, vec![Play { clip: Clip::Of(State::Idle), instant: false, forever: true }]);
}

#[test]
fn drag_hangs_then_falls_and_lands() {
    let mut m = booted(0);
    let p = m.drag_start(2_000);
    assert_eq!(p, Some(Play { clip: Clip::Of(State::Hanging), instant: true, forever: true }));
    assert!(m.dragging);
    assert_eq!(m.walk_at, None);
    assert_eq!(m.sleep_at, None);
    assert_eq!(m.behavior_step(tick(2_500, 0)), None);
    assert_eq!(m.state, State::Hanging);
    let p = m.drag_end(3_000, 2_000);
    assert_eq!(p, vec![Play { clip: Clip::Of(State::Falling), instant: true, forever: true }]);
    assert!(!m.dragging);
    assert!(!m.fall_slow);
    assert_eq!(m.fall_switch, 950);
    assert_eq!(m.fall_tick(3_949), None);
    assert_eq!(
        m.fall_tick(3_950),
        Some(Play { clip: Clip::FallingEnd, instant: true, forever: false })
    );
    assert_eq!(m.fall_tick(3_960), None);
    m.land(5_000);
    assert_eq!(m.state, State::Idle);
    assert_eq!(m.sleep_at, Some(5_000 + SLEEP_AFTER));
}

#[test]
fn a_short_fall_switches_to_landing_at_once() {
    let mut m = booted(0);
    m.drag_start(100);
    m.drag_end(200, 500);
    assert_eq!(m.fall_switch, 0);
    assert!(m.fall_tick(200).is_some());
}

#[test]
fn landing_outside_a_fall_does_nothing() {
    let mut m = booted(0);
    let before = m;
    assert_eq!(m.land(100), None);
    assert_eq!(m.state, before.state);
    assert_eq!(m.entered, before.entered);
}

#[test]
fn voice_command_salutes_unless_busy() {
    let mut m = booted(0);
    assert_eq!(m.voice_reaction(1_000, false, true), None);
    assert_eq!(m.voice_reaction(1_000, true, false), None);
    let p = m.voice_reaction(1_000, true, true);
    assert_eq!(p, Some(Play { clip: Clip::Of(State::Saluting), instant: false, forever: false }));
    assert_eq!(m.voice_reaction(1_500, true, true), None);
    assert_eq!(m.behavior_step(tick(1_000 + SALUTE_DURATION - 1, 0)), None);
    assert_eq!(m.state, State::Saluting);
    m.behavior_step(tick(1_000 + SALUTE_DURATION, 0));
    assert_eq!(m.state, State::Idle);
    m.drag_start(9_000);
    assert_eq!(m.voice_reaction(9_100, true, true), None);
    assert_eq!(m.state, State::Hanging);
}

#[test]
fn entering_the_same_state_is_a_no_op() {
    let mut m = booted(0);
    let walk = m.walk_at;
    assert_eq!(m.enter(50_000, State::Idle), None);
    assert_eq!(m.entered, 0);
    assert_eq!(m.walk_at, walk);
}

#[test]
fn state_clips_and_flags() {
    assert_eq!(State::Boot.anim(), "idle");
    assert_eq!(State::Sleeping.anim(), "sleeping_idle");
    assert_eq!(State::Falling.anim(), "on_falling");
    assert_eq!(State::ChaseRun.anim(), "run");
    assert_eq!(State::Saluting.anim(), "salute");
    assert_eq!(Clip::FallingEnd.name(), "falling_end");
    assert_eq!(Clip::Hanging.name(), "hanging");
    assert_eq!(Clip::Of(State::JumpingUp).name(), "jumping_up");
    assert!(State::Hanging.is_drag() && State::Falling.is_drag() && !State::Idle.is_drag());
    assert!(State::Angry.is_chaos() && State::JumpingUp.is_chaos() && !State::Falling.is_chaos());
    assert!(State::Saluting.one_shot() && !State::Walking.one_shot());
    assert!(State::Walking.faces_sideways() && !State::Angry.faces_sideways());
    assert!(State::Angry.instant() && !State::Typing.instant() && !State::Saluting.instant());
}

#[test]
fn expressions_of_states() {
    assert_eq!(expression_for(State::Crying), Expression::Sad);
    assert_eq!(expression_for(State::Sleeping), Expression::Relaxed);
    assert_eq!(expression_for(State::ChaseRun), Expression::Angry);
    assert_eq!(expression_for(State::Saluting), Expression::Happy);
    assert_eq!(expression_for(State::Typing), Expression::Neutral);
    assert!(expression_animated(State::Crying) && expression_animated(State::Sleeping));
    assert!(!expression_animated(State::Angry));
}

#[test]
fn editor_is_polled_every_300_ms() {
    let mut c = EditorCache::new();
    assert!(c.due(0));
    c.record(1_000, true);
    assert!(c.editor);
    assert!(!c.due(1_299));
    assert!(c.due(1_300));
    c.record(u64::MAX - 10, false);
    assert_eq!(c.next_check, u64::MAX);
}
