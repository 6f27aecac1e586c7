//! Decision rules of the pitch-to-MIDI analyzer: the scale it quantizes to, the
//! detection trade-off it runs at, and when a pitch change bends instead of
//! retriggering.
use vstd::prelude::*;
use crate::notes;

verus! {

/// Root pitch-class of the scale.
#[derive(PartialEq, Eq, Structural, Clone, Copy, Debug)]
pub enum Root {
    C,
    Cs,
    D,
    Ds,
    E,
    F,
    Fs,
    G,
    Gs,
    A,
    As,
    B,
}

/// Detection window/hop trade-off: latency vs how low a note it can track.
#[derive(PartialEq, Eq, Structural, Clone, Copy, Debug)]
pub enum Response {
    /// 512 / 64 — lowest latency, lead/voice only.
    Fast,
    /// 1024 / 128 — the default.
    Balanced,
    /// 2048 / 256 — reaches lower notes, more latency.
    Full,
}

/// How pitch-bend output behaves.
#[derive(PartialEq, Eq, Structural, Clone, Copy, Debug)]
pub enum BendMode {
    /// Never bend; every quantized note change retriggers.
    Off,
    /// Emit pitch-bend within the held note, but note changes still retrigger.
    On,
    /// Volume-gated: a quantized note change bends (no retrigger) when the
    /// volume stayed continuous and the new note is within the bend range.
    Auto,
}

/// The pitch class of a root, 0 (C) to 11 (B).
pub open spec fn spec_root_pc(r: Root) -> u8 {
    match r {
        Root::C => 0,
        Root::Cs => 1,
        Root::D => 2,
        Root::Ds => 3,
        Root::E => 4,
        Root::F => 5,
        Root::Fs => 6,
        Root::G => 7,
        Root::Gs => 8,
        Root::A => 9,
        Root::As => 10,
        Root::B => 11,
    }
}

/// Map a [`Root`] to its pitch-class 0..=11.
pub fn root_pc(r: Root) -> (pc: u8)
    ensures
        pc == spec_root_pc(r),
{
    match r {
        Root::C => 0,
        Root::Cs => 1,
        Root::D => 2,
        Root::Ds => 3,
        Root::E => 4,
        Root::F => 5,
        Root::Fs => 6,
        Root::G => 7,
        Root::Gs => 8,
        Root::A => 9,
        Root::As => 10,
        Root::B => 11,
    }
}

/// Every root names its own pitch class: the twelve roots map one-to-one onto
/// the pitch classes 0..=11.
pub proof fn lemma_root_pc_bijective(a: Root, b: Root)
    ensures
        spec_root_pc(a) < 12,
        spec_root_pc(a) == spec_root_pc(b) ==> a == b,
{
}

impl Response {
    /// The (window, hop) a response runs the detector at.
    pub open spec fn spec_window_hop(self) -> (usize, usize) {
        match self {
            Response::Fast => (512, 64),
            Response::Balanced => (1024, 128),
            Response::Full => (2048, 256),
        }
    }

    /// (window, hop) for the detector.
    pub fn window_hop(self) -> (wh: (usize, usize))
        ensures
            wh == self.spec_window_hop(),
    {
        match self {
            Response::Fast => (512, 64),
            Response::Balanced => (1024, 128),
            Response::Full => (2048, 256),
        }
    }
}

/// Every response keeps the detector within its supported range and runs an
/// eighth of a window per hop; a fuller response has a longer window.
pub proof fn lemma_responses_supported(r: Response)
    ensures
        crate::pitch::MIN_WINDOW <= r.spec_window_hop().0 <= crate::pitch::MAX_WINDOW,
        r.spec_window_hop().1 * 8 == r.spec_window_hop().0,
        Response::Fast.spec_window_hop().0 < Response::Balanced.spec_window_hop().0 < Response::Full.spec_window_hop().0,
{
}

/// Whether a quantized-note change from `held` to `target` is a bend: the
/// volume did not dip and the new note lies within `bend_range` semitones.
pub open spec fn spec_is_bend(dipped: bool, held: u8, target: i32, bend_range: i32) -> bool {
    !dipped && notes::dist(target as int, held as int) <= bend_range
}

/// True when a quantized-note change should be treated as a bend rather than a
/// new note: the volume stayed continuous (no dip) AND the new note is within
/// the bend range of the held note.
pub fn is_bend(dipped: bool, held: u8, target: i32, bend_range: i32) -> (b: bool)
    requires
        !dipped ==> target - held > i32::MIN,
    ensures
        b == spec_is_bend(dipped, held, target, bend_range),
{
    if dipped {
        return false;
    }
    let d: i32 = target - held as i32;
    let ad: i32 = if d < 0 { -d } else { d };
    ad <= bend_range
}

/// The target fed to the note trigger on a hop: in [`BendMode::Auto`], a
/// change of the quantized target that is a bend from the held note keeps the
/// held note (the pitch-bend carries the move); otherwise the quantized target.
pub open spec fn spec_trigger_target(mode: BendMode, held: Option<u8>, target: Option<i32>, dipped: bool, bend_range: i32) -> Option<i32> {
    match (held, target) {
        (Some(h), Some(t)) => if mode == BendMode::Auto && spec_is_bend(dipped, h, t, bend_range) {
            Some(h as i32)
        } else {
            target
        },
        _ => target,
    }
}

/// The inputs on which [`trigger_target`] computes without overflow.
pub open spec fn trigger_target_fits(mode: BendMode, held: Option<u8>, target: Option<i32>, dipped: bool) -> bool {
    match (held, target) {
        (Some(h), Some(t)) => mode == BendMode::Auto && !dipped ==> t - h > i32::MIN,
        _ => true,
    }
}

/// Choose the target the note trigger sees on this hop (see
/// [`spec_trigger_target`]).
pub fn trigger_target(mode: BendMode, held: Option<u8>, target: Option<i32>, dipped: bool, bend_range: i32) -> (r: Option<i32>)
    requires
        trigger_target_fits(mode, held, target, dipped),
    ensures
        r == spec_trigger_target(mode, held, target, dipped, bend_range),
{
    match held {
        Some(h) => {
            if mode == BendMode::Auto {
                if let Some(t) = target {
                    if is_bend(dipped, h, t, bend_range) {
                        return Some(h as i32);
                    }
                }
            }
            target
        },
        None => target,
    }
}

/// A bend never retriggers: in Auto mode, while a note is held and the volume
/// stays continuous, any quantized target within the bend range reaches the
/// trigger as the held note itself, so the trigger keeps that note sounding.
pub proof fn lemma_auto_bend_keeps_note<V>(
    held: u8,
    t: i32,
    bend_range: i32,
    m: crate::trigger::TriggerModel,
    confident: bool,
    velocity: V,
)
    requires
        m.wf(),
        m.active == Some(held),
        notes::dist(t as int, held as int) <= bend_range,
    ensures
        spec_trigger_target(BendMode::Auto, Some(held), Some(t), false, bend_range) == Some(held as i32),
        crate::trigger::next_model(m, Some(held as i32), confident).active == Some(held),
        crate::trigger::hop_actions(m, Some(held as i32), confident, velocity) == Seq::<crate::trigger::NoteAction<V>>::empty(),
{
}

/// A note change farther than `bend_range` semitones from the held note, up or
/// down, is never a bend: it reaches the trigger as the quantized target
/// itself, so it retriggers.
pub proof fn lemma_far_change_is_no_bend(dipped: bool, held: u8, target: i32, bend_range: i32)
    requires
        target - held > bend_range || held - target > bend_range,
    ensures
        !spec_is_bend(dipped, held, target, bend_range),
        spec_trigger_target(BendMode::Auto, Some(held), Some(target), dipped, bend_range) == Some(target),
{
}

/// Without a volume dip, a note change up or down by at most `bend_range`
/// semitones is a bend; a dip makes every change a new note.
pub proof fn lemma_near_change_is_bend(dipped: bool, held: u8, target: i32, bend_range: i32)
    requires
        target - held <= bend_range,
        held - target <= bend_range,
    ensures
        spec_is_bend(dipped, held, target, bend_range) == !dipped,
{
}

/// Outside Auto mode, or after a volume dip, the trigger always sees the
/// quantized target unchanged.
pub proof fn lemma_no_auto_passes_target(mode: BendMode, held: Option<u8>, target: Option<i32>, dipped: bool, bend_range: i32)
    requires
        mode != BendMode::Auto || dipped,
    ensures
        spec_trigger_target(mode, held, target, dipped, bend_range) == target,
{
}

/// The analyzer's settings that shape its note decisions.
#[derive(Clone, Copy, Debug)]
pub struct PitchToMidiParams {
    /// Root pitch class of the scale.
    pub root: Root,
    /// Scale degrees enabled, relative to the root (degree 0 is the root).
    pub degrees: [bool; 12],
    /// Detection window/hop trade-off.
    pub response: Response,
    /// Max semitone distance for a fast note commit.
    pub max_jump: i32,
    /// How pitch-bend output behaves.
    pub bend_mode: BendMode,
    /// The ± range in semitones mapped to full pitch bend.
    pub bend_range: i32,
    /// Velocity (1..=127) emitted at or below the input floor.
    pub vel_min: i32,
    /// Velocity (1..=127) emitted at or above the input ceiling.
    pub vel_max: i32,
}

/// Bit `d` of `mask` is set.
pub open spec fn bit_set(mask: u16, d: int) -> bool {
    mask & (1u16 << (d as u16)) != 0
}

proof fn lemma_set_bit(mask: u16, i: u16, j: u16)
    requires
        i < 12,
        j < 12,
        mask < (1u16 << i),
    ensures
        (mask | (1u16 << i)) < (1u16 << (i + 1) as u16),
        ((mask | (1u16 << i)) & (1u16 << j) != 0) == (j == i || mask & (1u16 << j) != 0),
        (mask & (1u16 << i)) == 0,
        mask < (1u16 << (i + 1) as u16),
{
    assert((mask | (1u16 << i)) < (1u16 << (i + 1) as u16)) by (bit_vector)
        requires
            i < 12,
            mask < (1u16 << i),
    ;
    assert(((mask | (1u16 << i)) & (1u16 << j) != 0) == (j == i || mask & (1u16 << j) != 0)) by (bit_vector)
        requires
            i < 12,
            j < 12,
    ;
    assert((mask & (1u16 << i)) == 0) by (bit_vector)
        requires
            i < 12,
            mask < (1u16 << i),
    ;
    assert(mask < (1u16 << (i + 1) as u16)) by (bit_vector)
        requires
            i < 12,
            mask < (1u16 << i),
    ;
}

proof fn lemma_high_bits_clear(mask: u16, j: u16)
    requires
        j < 12,
        mask < (1u16 << j),
    ensures
        mask & (1u16 << j) == 0,
{
    assert(mask & (1u16 << j) == 0) by (bit_vector)
        requires
            j < 12,
            mask < (1u16 << j),
    ;
}

impl PitchToMidiParams {
    /// The 12-bit mask of the enabled degrees.
    pub open spec fn spec_degree_mask(self) -> u16 {
        mask_of(self.degrees@, 12)
    }

    /// Build the 12-bit scale mask from the individual degree toggles.
    pub fn degree_mask(&self) -> (mask: u16)
        ensures
            mask == self.spec_degree_mask(),
            mask < 0x1000,
            forall|d: int| 0 <= d < 12 ==> #[trigger] bit_set(mask, d) == self.degrees@[d],
    {
        let mut mask: u16 = 0;
        let mut i: usize = 0;
        assert(0u16 < (1u16 << 0u16)) by (bit_vector);
        while i < 12
            invariant
                i <= 12,
                mask == mask_of(self.degrees@, i as nat),
                mask < (1u16 << i as u16),
                forall|d: int| 0 <= d < i ==> #[trigger] bit_set(mask, d) == self.degrees@[d],
            decreases 12 - i,
        {
            proof {
                lemma_set_bit(mask, i as u16, 0);
            }
            let ghost old_mask = mask;
            if self.degrees[i] {
                mask = mask | (1u16 << i as u16);
            }
            proof {
                assert forall|d: int| 0 <= d < i + 1 implies #[trigger] bit_set(mask, d) == self.degrees@[d] by {
                    lemma_set_bit(old_mask, i as u16, d as u16);
                    if d < i {
                        assert(bit_set(old_mask, d) == self.degrees@[d]);
                        assert((d as u16) != (i as u16));
                    } else if !self.degrees@[i as int] {
                        lemma_high_bits_clear(old_mask, i as u16);
                        assert(d as u16 == i as u16);
                    }
                }
            }
            i = i + 1;
        }
        assert((1u16 << 12u16) == 0x1000u16) by (bit_vector);
        mask
    }

    /// The scale root's pitch class.
    pub fn root_pc(&self) -> (pc: u8)
        ensures
            pc == spec_root_pc(self.root),
    {
        root_pc(self.root)
    }
}

/// The mask of the first `n` degrees of `degrees`.
pub open spec fn mask_of(degrees: Seq<bool>, n: nat) -> u16
    decreases n,
{
    if n == 0 {
        0
    } else if degrees[n - 1] {
        mask_of(degrees, (n - 1) as nat) | (1u16 << ((n - 1) as u16))
    } else {
        mask_of(degrees, (n - 1) as nat)
    }
}

impl Default for PitchToMidiParams {
    /// A C major scale, balanced response, no pitch bend, full velocity range.
    fn default() -> (p: Self)
        ensures
            p.root == Root::C,
            p.degrees@ == seq![true, false, true, false, true, true, false, true, false, true, false, true],
            p.response == Response::Balanced,
            p.max_jump == 7,
            p.bend_mode == BendMode::Off,
            p.bend_range == 2,
            p.vel_min == 1,
            p.vel_max == 127,
    {
        let p = PitchToMidiParams {
            root: Root::C,
            degrees: [true, false, true, false, true, true, false, true, false, true, false, true],
            response: Response::Balanced,
            max_jump: 7,
            bend_mode: BendMode::Off,
            bend_range: 2,
            vel_min: 1,
            vel_max: 127,
        };
        assert(p.degrees@ =~= seq![true, false, true, false, true, true, false, true, false, true, false, true]);
        p
    }
}

/// The degree toggles a preset pattern sets: degree `i` is on exactly when the
/// pattern lists `i`.
pub fn preset_toggles(degrees: &[u8]) -> (on: Vec<bool>)
    ensures
        on@.len() == 12,
        forall|i: int| 0 <= i < 12 ==> #[trigger] on@[i] == degrees@.contains(i as u8),
{
    let mut on: Vec<bool> = Vec::new();
    let mut i: u8 = 0;
    while i < 12
        invariant
            i <= 12,
            on@.len() == i,
            forall|k: int| 0 <= k < i ==> #[trigger] on@[k] == degrees@.contains(k as u8),
        decreases 12 - i,
    {
        let mut found = false;
        let mut j: usize = 0;
        while j < degrees.len()
            invariant
                j <= degrees@.len(),
                found == exists|m: int| 0 <= m < j && #[trigger] degrees@[m] == i,
            decreases degrees@.len() - j,
        {
            if degrees[j] == i {
                found = true;
            }
            j = j + 1;
        }
        on.push(found);
        i = i + 1;
    }
    on
}

/// The text the readout shows for a note: its name, or an em dash for "no
/// note" (a negative value).
pub open spec fn spec_readout_name(midi: i32) -> Seq<char> {
    if midi < 0 {
        seq!['\u{2014}']
    } else {
        notes::spec_note_name(midi as int)
    }
}

/// Note name for a MIDI value, rendering `< 0` (no note) as an em dash.
pub fn readout_name(midi: i32) -> (s: String)
    ensures
        s@ == spec_readout_name(midi),
{
    if midi < 0 {
        proof { reveal_strlit("\u{2014}"); }
        String::from_str("\u{2014}")
    } else {
        notes::note_name(midi)
    }
}

} // verus!
