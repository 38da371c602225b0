use nexterm_client::animations::curve::{durations, Curve};
use nexterm_client::animations::duration;
use nexterm_client::animations::press::PressPulse;
use nexterm_client::animations::surface::SurfaceMotion;
use nexterm_client::animations::timed::{Timed, NANOS_PER_MS};
use nexterm_client::animations::timeline::TransitionTimes;

const T0: u64 = 5_000_000_000;

fn ms(n: u64) -> u64 {
    n * NANOS_PER_MS
}

#[test]
fn durations_match_the_fluent_table() {
    assert_eq!(duration::ULTRA_FAST, 50);
    assert_eq!(duration::FASTER, 100);
    assert_eq!(duration::FAST, 150);
    assert_eq!(duration::NORMAL, 200);
    assert_eq!(duration::GENTLE, 250);
    assert_eq!(duration::SLOW, 300);
    assert_eq!(duration::SLOWER, 400);
    assert_eq!(duration::ULTRA_SLOW, 500);
}

#[test]
fn the_duration_table_is_sorted() {
    let d = durations();
    assert!(d.windows(2).all(|w| w[0] < w[1]));
}

#[test]
fn is_done_flips_at_the_duration() {
    let t0 = T0;
    let a = Timed::new(t0, 200, Curve::DecelerateMax);
    assert!(!a.is_done(t0));
    assert!(!a.is_done(t0 + ms(199)));
    assert!(a.is_done(t0 + ms(200)));
}

#[test]
fn a_zero_duration_animation_is_finished_immediately() {
    let a = Timed::new(T0, 0, Curve::DecelerateMax);
    assert!(a.is_done(T0));
    assert!(a.is_done(0));
}

#[test]
fn time_before_the_start_counts_as_no_elapsed_time() {
    let a = Timed::new(T0, 200, Curve::Linear);
    assert_eq!(a.elapsed_nanos(T0 - ms(50)), 0);
    assert!(!a.is_done(T0 - ms(50)));
    assert_eq!(a.elapsed_nanos(T0 + ms(50)), ms(50));
}

#[test]
fn a_fresh_pulse_weighs_nothing() {
    let p: PressPulse<u32> = PressPulse::new();
    assert!(!p.is_active(T0));
    assert_eq!(p.pressed(), None);
}

#[test]
fn a_press_is_active_until_its_duration_runs_out() {
    let mut p: PressPulse<u32> = PressPulse::new();
    p.press(7, T0, duration::FASTER);
    assert!(p.is_active(T0));
    assert_eq!(p.pressed(), Some(7));
    assert!(!p.is_active(T0 + ms(100)));
}

#[test]
fn a_second_press_replaces_the_first() {
    let mut p: PressPulse<u32> = PressPulse::new();
    p.press(1, T0, duration::FASTER);
    let mid = T0 + ms(50);
    p.press(2, mid, duration::FASTER);
    assert_eq!(p.pressed(), Some(2));
    assert!(p.is_active(T0 + ms(120)), "the second pulse restarted the timer");
}

#[test]
fn disabled_animations_never_show_a_pulse() {
    let mut p: PressPulse<u32> = PressPulse::new();
    p.press(5, T0, 0);
    assert!(!p.is_active(T0));
}

#[test]
fn a_fresh_motion_is_invisible() {
    let m = SurfaceMotion::new();
    assert!(!m.is_visible());
    assert!(!m.is_active(T0));
}

#[test]
fn retire_drops_a_finished_exit_and_hides_the_surface() {
    let mut m = SurfaceMotion::new();
    m.begin_open(Timed::new(T0, 300, Curve::DecelerateMax));
    let opened = T0 + ms(300);
    m.begin_close(Timed::new(opened, 150, Curve::AccelerateMax));
    let mid = opened + ms(75);
    m.retire(mid);
    assert!(m.is_visible(), "an unfinished exit must survive retire");
    let done = opened + ms(150);
    m.retire(done);
    assert!(!m.is_visible());
    assert!(!m.is_active(done));
}

#[test]
fn is_active_is_false_once_the_entrance_has_finished() {
    let mut m = SurfaceMotion::new();
    m.begin_open(Timed::new(T0, 300, Curve::DecelerateMax));
    assert!(m.is_active(T0));
    assert!(!m.is_active(T0 + ms(300)));
    assert!(m.is_visible(), "finished entrance still means shown");
    m.retire(T0 + ms(300));
    assert!(m.is_visible(), "retire keeps a finished entrance");
}

#[test]
fn reopening_abandons_the_exit() {
    let mut m = SurfaceMotion::new();
    m.begin_close(Timed::new(T0, 150, Curve::AccelerateMax));
    m.begin_open(Timed::new(T0 + ms(10), 300, Curve::DecelerateMax));
    assert!(m.closing().is_none());
    assert!(m.open_anim().is_some());
}

/// Elapsed time of pane `id`'s fade-in at `now`, `None` when it is fully shown.
fn fade_elapsed(t: &TransitionTimes, id: u32, now: u64) -> Option<u64> {
    t.fade_in_started(id).map(|s| Timed::new(s, 200, Curve::Linear).elapsed_nanos(now))
}

#[test]
fn record_pane_added_starts_fade_in_at_0() {
    let mut t = TransitionTimes::new();
    let now = T0;
    t.record_pane_added(42, now);
    assert_eq!(fade_elapsed(&t, 42, now), Some(0));
    assert_eq!(fade_elapsed(&t, 43, now), None);
}

#[test]
fn record_pane_removed_clears_matching_tab_switch() {
    let mut t = TransitionTimes::new();
    let now = T0;
    t.record_tab_switch(7, now);
    t.record_pane_removed(7);
    assert_eq!(t.current_tab_switch_target(), None);
    t.record_tab_switch(8, now);
    t.record_pane_removed(7);
    assert_eq!(t.current_tab_switch_target(), Some(8));
}

#[test]
fn cleanup_expired_drops_expired_entries() {
    let mut t = TransitionTimes::new();
    let now = T0;
    t.record_tab_switch(7, now);
    t.record_pane_added(42, now);
    let later = now + ms(500);
    t.cleanup_expired(later, 200);
    assert_eq!(t.current_tab_switch_target(), None);
    assert_eq!(fade_elapsed(&t, 42, later), None);
}

#[test]
fn cleanup_expired_with_duration_0_drops_everything() {
    let mut t = TransitionTimes::new();
    let now = T0;
    t.record_tab_switch(7, now);
    t.record_pane_added(42, now);
    t.cleanup_expired(now, 0);
    assert_eq!(t.current_tab_switch_target(), None);
    assert_eq!(t.fade_in_started(42), None);
}

#[test]
fn record_pane_added_overwrites_the_same_id() {
    let mut t = TransitionTimes::new();
    let t0 = T0;
    t.record_pane_added(42, t0);
    let t1 = t0 + ms(100);
    t.record_pane_added(42, t1);
    assert_eq!(fade_elapsed(&t, 42, t1), Some(0));
}

#[test]
fn cleanup_keeps_transitions_still_running_and_those_exactly_at_the_end() {
    let mut t = TransitionTimes::new();
    t.record_tab_switch(3, T0);
    t.record_pane_added(1, T0);
    t.record_pane_added(2, T0 + ms(150));
    t.cleanup_expired(T0 + ms(200), 200);
    assert_eq!(t.current_tab_switch_target(), Some(3));
    assert_eq!(t.tab_switch_started(), Some(T0));
    assert_eq!(t.fade_in_started(1), Some(T0));
    assert_eq!(t.fade_in_started(2), Some(T0 + ms(150)));
    t.cleanup_expired(T0 + ms(201), 200);
    assert_eq!(t.current_tab_switch_target(), None);
    assert_eq!(t.fade_in_started(1), None);
    assert_eq!(t.fade_in_started(2), Some(T0 + ms(150)));
}

#[test]
fn removing_an_unrelated_pane_keeps_the_switch_and_other_fades() {
    let mut t = TransitionTimes::new();
    t.record_tab_switch(8, T0);
    t.record_pane_added(5, T0);
    t.record_pane_added(6, T0);
    t.record_pane_removed(5);
    assert_eq!(t.current_tab_switch_target(), Some(8));
    assert_eq!(t.fade_in_started(5), None);
    assert_eq!(t.fade_in_started(6), Some(T0));
}

#[test]
fn a_fade_in_runs_until_its_duration_has_elapsed() {
    let mut t = TransitionTimes::new();
    assert!(!t.fade_in_running(T0, 200));
    t.record_pane_added(42, T0);
    assert!(t.fade_in_running(T0, 200));
    assert!(t.fade_in_running(T0 + ms(199), 200));
    assert!(!t.fade_in_running(T0 + ms(200), 200));
    assert!(!t.fade_in_running(T0, 0));
}

#[test]
fn a_second_cleanup_at_the_same_moment_changes_nothing() {
    let mut t = TransitionTimes::new();
    t.record_tab_switch(1, T0);
    t.record_pane_added(2, T0);
    t.record_pane_added(3, T0 + ms(300));
    t.cleanup_expired(T0 + ms(400), 200);
    let kept = (t.current_tab_switch_target(), t.fade_in_started(2), t.fade_in_started(3));
    t.cleanup_expired(T0 + ms(400), 200);
    assert_eq!(kept, (t.current_tab_switch_target(), t.fade_in_started(2), t.fade_in_started(3)));
    assert_eq!(kept, (None, None, Some(T0 + ms(300))));
}
