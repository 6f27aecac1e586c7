//! Monophonic note trigger: debounced commit of a quantized pitch target.
//!
//! The trigger sees one quantized target per detection hop and decides when
//! that target becomes the sounding note. A new target commits at once when the
//! detection is confident and the jump from the held note is small; otherwise
//! it has to persist for `hold_hops` consecutive hops first.
use vstd::prelude::*;

verus! {

/// What the trigger asks its host to send: a note-on (carrying the velocity
/// handed to [`Trigger::on_hop`]) or a note-off for the note that was held.
#[derive(Clone, Copy, PartialEq, Debug)]
pub enum NoteAction<V> {
    On { note: u8, velocity: V },
    Off { note: u8 },
}

/// The abstract state of a [`Trigger`].
pub struct TriggerModel {
    pub hold_hops: u32,
    pub max_jump: i32,
    pub active: Option<u8>,
    pub candidate: Option<i32>,
    pub candidate_hops: u32,
}

/// Debounced, monophonic note trigger.
pub struct Trigger {
    hold_hops: u32,
    /// Max semitone distance from the held note for a fast (undebounced) commit.
    max_jump: i32,
    active: Option<u8>,
    candidate: Option<i32>,
    candidate_hops: u32,
}

impl View for Trigger {
    type V = TriggerModel;

    closed spec fn view(&self) -> TriggerModel {
        TriggerModel {
            hold_hops: self.hold_hops,
            max_jump: self.max_jump,
            active: self.active,
            candidate: self.candidate,
            candidate_hops: self.candidate_hops,
        }
    }
}

/// The note a committed target sounds as: the target clamped into MIDI range.
pub open spec fn clamp_note(target: int) -> u8 {
    if target < 0 {
        0u8
    } else if target > 127 {
        127u8
    } else {
        target as u8
    }
}

/// Whether `target` lies within `max_jump` semitones of the held note (always
/// true when nothing is held).
pub open spec fn is_near(active: Option<u8>, target: int, max_jump: int) -> bool {
    match active {
        Some(n) => -max_jump <= target - n <= max_jump,
        None => true,
    }
}

/// The hop count a target reaches on this hop: one more than before when it
/// repeats the current candidate, else one.
pub open spec fn next_hops(m: TriggerModel, target: int) -> int {
    if m.candidate == Some(target as i32) {
        m.candidate_hops + 1
    } else {
        1
    }
}

/// Whether `target` commits on this hop (assuming it differs from the held note).
pub open spec fn commits(m: TriggerModel, target: int, confident: bool) -> bool {
    (confident && is_near(m.active, target, m.max_jump as int))
        || next_hops(m, target) >= m.hold_hops
}

/// True when the hop repeats the note already held.
pub open spec fn holds_same(m: TriggerModel, target: Option<i32>) -> bool {
    target is Some && m.active is Some && target->0 == m.active->0 as i32
}

/// The state after one hop.
pub open spec fn next_model(m: TriggerModel, target: Option<i32>, confident: bool) -> TriggerModel {
    match target {
        None => TriggerModel { active: None, candidate: None, candidate_hops: 0, ..m },
        Some(t) => if holds_same(m, target) {
            TriggerModel { candidate: None, candidate_hops: 0, ..m }
        } else if commits(m, t as int, confident) {
            TriggerModel {
                active: Some(clamp_note(t as int)),
                candidate: None,
                candidate_hops: 0,
                ..m
            }
        } else {
            TriggerModel { candidate: Some(t), candidate_hops: next_hops(m, t as int) as u32, ..m }
        },
    }
}

/// The note-off for the held note, if any.
pub open spec fn release_of<V>(active: Option<u8>) -> Seq<NoteAction<V>> {
    match active {
        Some(n) => seq![NoteAction::Off { note: n }],
        None => Seq::empty(),
    }
}

/// The actions emitted on one hop.
pub open spec fn hop_actions<V>(m: TriggerModel, target: Option<i32>, confident: bool, velocity: V) -> Seq<NoteAction<V>> {
    match target {
        None => release_of(m.active),
        Some(t) => if holds_same(m, target) {
            Seq::empty()
        } else if commits(m, t as int, confident) {
            release_of(m.active).push(NoteAction::On { note: clamp_note(t as int), velocity })
        } else {
            Seq::empty()
        },
    }
}

/// Inputs on which a hop is defined: the distance from the held note to a new
/// target must be representable (its absolute value is taken as an `i32`).
pub open spec fn hop_in_range(m: TriggerModel, target: Option<i32>) -> bool {
    match (target, m.active) {
        (Some(t), Some(n)) => t != n as i32 ==> t - n > i32::MIN,
        _ => true,
    }
}

impl TriggerModel {
    /// The invariant every reachable trigger state keeps.
    pub open spec fn wf(self) -> bool {
        &&& self.hold_hops >= 1
        &&& self.max_jump >= 0
        &&& self.candidate_hops < u32::MAX
        &&& (self.active matches Some(n) ==> n <= 127)
    }
}

impl Trigger {
    /// Default trigger: two-hop debounce, fast commits within 7 semitones.
    pub fn new() -> (t: Self)
        ensures
            t@.wf(),
            t@.hold_hops == 2,
            t@.max_jump == 7,
            t@.active is None,
            t@.candidate is None,
            t@.candidate_hops == 0,
    {
        Trigger { hold_hops: 2, max_jump: 7, active: None, candidate: None, candidate_hops: 0 }
    }

    /// Number of consecutive hops a target must persist before it commits
    /// without the fast path; at least one.
    pub fn set_hold_hops(&mut self, hops: u32)
        requires
            old(self)@.wf(),
        ensures
            final(self)@ == (TriggerModel { hold_hops: if hops < 1 { 1 } else { hops }, ..old(self)@ }),
            final(self)@.wf(),
    {
        self.hold_hops = if hops < 1 { 1 } else { hops };
    }

    /// Max semitone distance for a fast commit; negative values become 0.
    pub fn set_max_jump(&mut self, j: i32)
        requires
            old(self)@.wf(),
        ensures
            final(self)@ == (TriggerModel { max_jump: if j < 0 { 0 } else { j }, ..old(self)@ }),
            final(self)@.wf(),
    {
        self.max_jump = if j < 0 { 0 } else { j };
    }

    /// Forget the held note and any pending candidate (no note-off is sent).
    pub fn reset(&mut self)
        requires
            old(self)@.wf(),
        ensures
            final(self)@ == (TriggerModel { active: None, candidate: None, candidate_hops: 0, ..old(self)@ }),
            final(self)@.wf(),
    {
        self.active = None;
        self.candidate = None;
        self.candidate_hops = 0;
    }

    /// The note currently held, if any.
    pub fn active(&self) -> (r: Option<u8>)
        ensures
            r == self@.active,
    {
        self.active
    }

    /// Feed one detection hop. `target` is the quantized note (None when the
    /// gate is closed), `confident` whether the detection clarity reached the
    /// fast-commit threshold, and `velocity` the velocity a note-on carries.
    /// Returns the note-off / note-on actions in the order they are to be sent.
    pub fn on_hop<V>(&mut self, target: Option<i32>, confident: bool, velocity: V) -> (actions: Vec<NoteAction<V>>)
        requires
            old(self)@.wf(),
            hop_in_range(old(self)@, target),
        ensures
            final(self)@ == next_model(old(self)@, target, confident),
            final(self)@.wf(),
            actions@ == hop_actions(old(self)@, target, confident, velocity),
    {
        let mut actions: Vec<NoteAction<V>> = Vec::new();
        match target {
            None => {
                if let Some(n) = self.active {
                    actions.push(NoteAction::Off { note: n });
                }
                self.active = None;
                self.candidate = None;
                self.candidate_hops = 0;
                assert(actions@ =~= hop_actions(old(self)@, target, confident, velocity));
                actions
            },
            Some(t) => {
                let same = match self.active {
                    Some(n) => t == n as i32,
                    None => false,
                };
                if same {
                    self.candidate = None;
                    self.candidate_hops = 0;
                    assert(actions@ =~= hop_actions(old(self)@, target, confident, velocity));
                    return actions;
                }
                let hops: u32 = match self.candidate {
                    Some(c) => if c == t { self.candidate_hops + 1 } else { 1 },
                    None => 1,
                };
                let near = match self.active {
                    Some(n) => {
                        let d: i32 = t - n as i32;
                        let ad: i32 = if d < 0 { -d } else { d };
                        ad <= self.max_jump
                    },
                    None => true,
                };
                let fast = confident && near;
                if fast || hops >= self.hold_hops {
                    if let Some(n) = self.active {
                        actions.push(NoteAction::Off { note: n });
                    }
                    let note: u8 = if t < 0 { 0 } else if t > 127 { 127 } else { t as u8 };
                    actions.push(NoteAction::On { note, velocity });
                    self.active = Some(note);
                    self.candidate = None;
                    self.candidate_hops = 0;
                } else {
                    self.candidate = Some(t);
                    self.candidate_hops = hops;
                }
                assert(actions@ =~= hop_actions(old(self)@, target, confident, velocity));
                actions
            },
        }
    }
}


/// Replays `actions` from the sounding note `sounding`: true when every note-off
/// names the note that is sounding at that point and every note-on starts while
/// nothing sounds, so no two notes ever overlap.
pub open spec fn monophonic_from<V>(sounding: Option<u8>, actions: Seq<NoteAction<V>>) -> bool
    decreases actions.len(),
{
    if actions.len() == 0 {
        true
    } else {
        match actions[0] {
            NoteAction::Off { note } => sounding == Some(note) && monophonic_from(None, actions.drop_first()),
            NoteAction::On { note, velocity } => sounding is None && note <= 127
                && monophonic_from(Some(note), actions.drop_first()),
        }
    }
}

/// The note left sounding after `actions` are sent, starting from `sounding`.
pub open spec fn sounding_after<V>(sounding: Option<u8>, actions: Seq<NoteAction<V>>) -> Option<u8>
    decreases actions.len(),
{
    if actions.len() == 0 {
        sounding
    } else {
        match actions[0] {
            NoteAction::Off { note } => sounding_after(None, actions.drop_first()),
            NoteAction::On { note, velocity } => sounding_after(Some(note), actions.drop_first()),
        }
    }
}

/// `k` further hops that all report `target` with the given confidence.
pub open spec fn repeat_hops(m: TriggerModel, target: i32, confident: bool, k: nat) -> TriggerModel
    decreases k,
{
    if k == 0 {
        m
    } else {
        next_model(repeat_hops(m, target, confident, (k - 1) as nat), Some(target), confident)
    }
}

/// Monophony: on every hop the trigger emits a note-off only for the note that
/// is sounding and a note-on only once nothing sounds, every note is a valid
/// MIDI note, and the note left sounding is the one the trigger now holds.
pub proof fn lemma_hop_is_monophonic<V>(m: TriggerModel, target: Option<i32>, confident: bool, velocity: V)
    requires
        m.wf(),
    ensures
        monophonic_from(m.active, hop_actions(m, target, confident, velocity)),
        sounding_after(m.active, hop_actions(m, target, confident, velocity)) == next_model(m, target, confident).active,
        hop_actions(m, target, confident, velocity).len() <= 2,
{
    let a = hop_actions(m, target, confident, velocity);
    reveal_with_fuel(monophonic_from, 3);
    reveal_with_fuel(sounding_after, 3);
    if a.len() == 2 {
        assert(a.drop_first().drop_first().len() == 0);
    }
    if a.len() == 1 {
        assert(a.drop_first().len() == 0);
    }
}

/// A hop without a target releases the held note and drops the candidate.
pub proof fn lemma_gate_close_releases<V>(m: TriggerModel, confident: bool, velocity: V)
    requires
        m.wf(),
    ensures
        next_model(m, None, confident).active is None,
        next_model(m, None, confident).candidate is None,
        hop_actions(m, None, confident, velocity) == release_of::<V>(m.active),
{
}

/// Reporting the note that is already held emits nothing and keeps it held.
pub proof fn lemma_holding_is_silent<V>(m: TriggerModel, confident: bool, velocity: V)
    requires
        m.wf(),
        m.active is Some,
    ensures
        hop_actions(m, Some(m.active->0 as i32), confident, velocity) == Seq::<NoteAction<V>>::empty(),
        next_model(m, Some(m.active->0 as i32), confident).active == m.active,
{
}

/// Fast path: a confident target within `max_jump` of the held note (or with
/// nothing held) commits on its first hop, releasing the held note first.
pub proof fn lemma_confident_near_commits_at_once<V>(m: TriggerModel, target: i32, velocity: V)
    requires
        m.wf(),
        !holds_same(m, Some(target)),
        is_near(m.active, target as int, m.max_jump as int),
    ensures
        next_model(m, Some(target), true).active == Some(clamp_note(target as int)),
        hop_actions(m, Some(target), true, velocity)
            == release_of::<V>(m.active).push(NoteAction::On { note: clamp_note(target as int), velocity }),
{
}

/// Debounce: without the fast path, a new target that is not already pending
/// commits on none of its first `hold_hops - 1` consecutive hops (it is only
/// counted as the pending candidate, the held note stays) and commits on hop
/// number `hold_hops`.
pub proof fn lemma_debounce_commits_after_hold(m: TriggerModel, target: i32, k: nat)
    requires
        m.wf(),
        !holds_same(m, Some(target)),
        m.candidate != Some(target),
        1 <= k < m.hold_hops,
    ensures
        repeat_hops(m, target, false, k).active == m.active,
        repeat_hops(m, target, false, k).candidate == Some(target),
        repeat_hops(m, target, false, k).candidate_hops == k,
        repeat_hops(m, target, false, k).hold_hops == m.hold_hops,
        repeat_hops(m, target, false, k).max_jump == m.max_jump,
        repeat_hops(m, target, false, k).wf(),
        forall|j: nat| j < k ==> !commits(#[trigger] repeat_hops(m, target, false, j), target as int, false),
        commits(repeat_hops(m, target, false, k), target as int, false) <==> k + 1 >= m.hold_hops,
    decreases k,
{
    assert(repeat_hops(m, target, false, 0) == m);
    if k > 1 {
        lemma_debounce_commits_after_hold(m, target, (k - 1) as nat);
    }
    assert forall|j: nat| j < k implies !commits(#[trigger] repeat_hops(m, target, false, j), target as int, false) by {
        if j + 1 < k {
            lemma_debounce_commits_after_hold(m, target, (j + 1) as nat);
        } else if j == 0 {
            assert(next_hops(m, target as int) == 1);
        } else {
            assert(next_hops(repeat_hops(m, target, false, j), target as int) == k);
        }
    }
}


/// A confident target farther than `max_jump` semitones from the held note,
/// above or below it, is debounced: unless it was already pending, its first
/// hop emits nothing, the held note keeps sounding and the target only becomes
/// the pending candidate (when `hold_hops` asks for more than one hop).
pub proof fn lemma_far_jump_is_debounced<V>(m: TriggerModel, n: u8, t: i32, velocity: V)
    requires
        m.wf(),
        m.active == Some(n),
        t - n > m.max_jump || n - t > m.max_jump,
        m.candidate != Some(t),
        m.hold_hops >= 2,
    ensures
        hop_actions(m, Some(t), true, velocity) == Seq::<NoteAction<V>>::empty(),
        next_model(m, Some(t), true).active == Some(n),
        next_model(m, Some(t), true).candidate == Some(t),
        next_model(m, Some(t), true).candidate_hops == 1,
{
}

/// A confident target within `max_jump` semitones of the held note, above or
/// below it, commits on its first hop: the held note is released and the
/// target starts at once.
pub proof fn lemma_near_jump_commits<V>(m: TriggerModel, n: u8, t: i32, velocity: V)
    requires
        m.wf(),
        m.active == Some(n),
        t != n,
        0 <= t <= 127,
        t - n <= m.max_jump,
        n - t <= m.max_jump,
    ensures
        hop_actions(m, Some(t), true, velocity)
            == seq![NoteAction::Off { note: n }, NoteAction::On { note: t as u8, velocity }],
        next_model(m, Some(t), true).active == Some(t as u8),
{
    assert(hop_actions(m, Some(t), true, velocity)
        =~= seq![NoteAction::Off { note: n }, NoteAction::On { note: t as u8, velocity }]);
}

/// Some action in `actions` is a note-on.
pub open spec fn has_note_on<V>(actions: Seq<NoteAction<V>>) -> bool {
    exists|i: int| 0 <= i < actions.len() && #[trigger] actions[i] is On
}

/// Follow `actions` from the sounding note `sounding`: returns the note left
/// sounding and whether a note-on was among them.
pub fn track_actions<V>(sounding: Option<u8>, actions: &Vec<NoteAction<V>>) -> (r: (Option<u8>, bool))
    ensures
        r.0 == sounding_after(sounding, actions@),
        r.1 == has_note_on(actions@),
{
    let n = actions.len();
    let mut cur = sounding;
    let mut on = false;
    let mut i: usize = 0;
    assert(actions@.subrange(0, n as int) =~= actions@);
    while i < n
        invariant
            n == actions@.len(),
            i <= n,
            sounding_after(cur, actions@.subrange(i as int, n as int)) == sounding_after(sounding, actions@),
            on == exists|j: int| 0 <= j < i && #[trigger] actions@[j] is On,
        decreases n - i,
    {
        assert(actions@.subrange(i as int, n as int).drop_first() =~= actions@.subrange(i + 1, n as int));
        match &actions[i] {
            NoteAction::On { note, .. } => {
                cur = Some(*note);
                on = true;
            },
            NoteAction::Off { .. } => {
                cur = None;
            },
        }
        i = i + 1;
    }
    assert(actions@.subrange(n as int, n as int).len() == 0);
    (cur, on)
}

} // verus!
