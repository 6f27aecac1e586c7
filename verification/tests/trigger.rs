use daudio::trigger::{track_actions, NoteAction, Trigger};

/// The trigger together with the fast-commit clarity threshold the plugin
/// keeps beside it: a hop is confident when its clarity reaches the threshold.
struct Harness {
    t: Trigger,
    fast_clarity: f32,
}

impl Harness {
    fn new() -> Self {
        Harness { t: Trigger::new(), fast_clarity: 0.8 }
    }
    fn set_fast_clarity(&mut self, c: f32) {
        self.fast_clarity = c;
    }
    fn set_max_jump(&mut self, j: i32) {
        self.t.set_max_jump(j);
    }
}

fn collect(h: &mut Harness, target: Option<i32>, clarity: f32, vel: f32) -> Vec<NoteAction<f32>> {
    let confident = clarity >= h.fast_clarity;
    h.t.on_hop(target, confident, vel)
}

#[test]
fn high_clarity_commits_on_first_hop() {
    let mut t = Harness::new();
    assert_eq!(
        collect(&mut t, Some(60), 0.95, 0.8),
        vec![NoteAction::On { note: 60, velocity: 0.8 }]
    );
}

#[test]
fn low_clarity_still_debounces() {
    let mut t = Harness::new();
    assert!(collect(&mut t, Some(60), 0.5, 0.8).is_empty());
    assert_eq!(
        collect(&mut t, Some(60), 0.5, 0.8),
        vec![NoteAction::On { note: 60, velocity: 0.8 }]
    );
}

#[test]
fn high_clarity_big_jump_from_held_note_debounces() {
    let mut t = Harness::new();
    collect(&mut t, Some(60), 0.95, 0.8); // 60 committed immediately (no held note)
    assert!(collect(&mut t, Some(72), 0.95, 0.8).is_empty()); // 12 semis -> debounce
    assert_eq!(
        collect(&mut t, Some(72), 0.95, 0.8),
        vec![NoteAction::Off { note: 60 }, NoteAction::On { note: 72, velocity: 0.8 }]
    );
}

#[test]
fn raising_fast_clarity_forces_debounce() {
    let mut t = Harness::new();
    t.set_fast_clarity(0.95);
    // Clarity 0.9 is below the raised threshold, so it no longer fast-commits.
    assert!(collect(&mut t, Some(60), 0.9, 0.8).is_empty());
    assert_eq!(
        collect(&mut t, Some(60), 0.9, 0.8),
        vec![NoteAction::On { note: 60, velocity: 0.8 }]
    );
}

#[test]
fn raising_max_jump_allows_big_fast_commit() {
    let mut t = Harness::new();
    t.set_max_jump(12);
    collect(&mut t, Some(60), 0.95, 0.8); // 60 committed immediately (no held note)
    // 12 semis is within the raised max jump, so it fast-commits at high clarity.
    assert_eq!(
        collect(&mut t, Some(72), 0.95, 0.8),
        vec![NoteAction::Off { note: 60 }, NoteAction::On { note: 72, velocity: 0.8 }]
    );
}

#[test]
fn gate_close_releases_active_note() {
    let mut t = Harness::new();
    collect(&mut t, Some(60), 0.95, 0.8);
    assert_eq!(collect(&mut t, None, 0.0, 0.0), vec![NoteAction::Off { note: 60 }]);
}

#[test]
fn holding_the_same_note_is_silent() {
    let mut t = Trigger::new();
    t.on_hop(Some(64), true, 100u8);
    assert!(t.on_hop(Some(64), true, 100u8).is_empty());
    assert!(t.on_hop(Some(64), false, 100u8).is_empty());
    assert_eq!(t.active(), Some(64));
}

#[test]
fn longer_hold_needs_more_hops() {
    let mut t = Trigger::new();
    t.set_hold_hops(4);
    for _ in 0..3 {
        assert!(t.on_hop(Some(50), false, ()).is_empty());
    }
    assert_eq!(t.on_hop(Some(50), false, ()), vec![NoteAction::On { note: 50, velocity: () }]);
}

#[test]
fn hold_of_zero_hops_means_one() {
    let mut t = Trigger::new();
    t.set_hold_hops(0);
    assert_eq!(t.on_hop(Some(50), false, ()), vec![NoteAction::On { note: 50, velocity: () }]);
}

#[test]
fn changing_candidate_restarts_the_count() {
    let mut t = Trigger::new();
    assert!(t.on_hop(Some(50), false, ()).is_empty());
    assert!(t.on_hop(Some(51), false, ()).is_empty());
    assert_eq!(t.on_hop(Some(51), false, ()), vec![NoteAction::On { note: 51, velocity: () }]);
}

#[test]
fn targets_clamp_to_midi_range() {
    let mut t = Trigger::new();
    assert_eq!(t.on_hop(Some(200), true, ()), vec![NoteAction::On { note: 127, velocity: () }]);
    let mut t = Trigger::new();
    assert_eq!(t.on_hop(Some(-5), true, ()), vec![NoteAction::On { note: 0, velocity: () }]);
}

#[test]
fn negative_max_jump_means_only_repeats_are_fast() {
    let mut t = Trigger::new();
    t.set_max_jump(-3);
    t.on_hop(Some(60), true, ());
    // A one-semitone move is farther than 0, so it debounces.
    assert!(t.on_hop(Some(61), true, ()).is_empty());
}

#[test]
fn reset_forgets_the_held_note_silently() {
    let mut t = Trigger::new();
    t.on_hop(Some(60), true, ());
    t.reset();
    assert_eq!(t.active(), None);
    assert!(t.on_hop(None, false, ()).is_empty());
}

#[test]
fn tracking_actions_follows_the_sounding_note() {
    let actions = vec![NoteAction::Off { note: 60 }, NoteAction::On { note: 72, velocity: 0.5f32 }];
    assert_eq!(track_actions(Some(60), &actions), (Some(72), true));
    let off: Vec<NoteAction<f32>> = vec![NoteAction::Off { note: 60 }];
    assert_eq!(track_actions(Some(60), &off), (None, false));
    let none: Vec<NoteAction<f32>> = vec![];
    assert_eq!(track_actions(Some(3), &none), (Some(3), false));
}
