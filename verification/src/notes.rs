//! MIDI note naming and scale quantization.
//!
//! A scale is a `root` pitch class (0 = C .. 11 = B) and a 12-bit degree mask:
//! bit `d` set means the note `root + d` (mod 12) belongs to the scale.
use vstd::prelude::*;

verus! {

/// The scale degree of `note` above `root`, in `0..12`.
pub open spec fn degree(note: int, root: u8) -> int {
    (note - root as int) % 12
}

/// Whether `note` belongs to the scale given by `root` and `mask`.
pub open spec fn in_scale(note: int, root: u8, mask: u16) -> bool {
    mask & (1u16 << (degree(note, root) as u16)) != 0
}

/// The distance between two notes in semitones.
pub open spec fn dist(a: int, b: int) -> int {
    if a >= b { a - b } else { b - a }
}

/// Whether the mask allows no degree at all (its low twelve bits are clear).
pub open spec fn scale_is_empty(mask: u16) -> bool {
    mask & 0x0fffu16 == 0
}

/// Distance from `note` to the nearest scale note, looking at distances
/// `from, from + 1, ..` up to 6 (7 when none lies that close).
pub open spec fn distance_from(note: int, root: u8, mask: u16, from: nat) -> nat
    decreases 7 - from,
{
    if from >= 7 {
        7
    } else if in_scale(note + from, root, mask) || in_scale(note - from, root, mask) {
        from
    } else {
        distance_from(note, root, mask, from + 1)
    }
}

/// Distance from `note` to the nearest note of the scale.
pub open spec fn scale_distance(note: int, root: u8, mask: u16) -> nat {
    distance_from(note, root, mask, 0)
}

/// The scale note `note` snaps to: the nearest one, the upper one on a tie.
pub open spec fn snapped(note: int, root: u8, mask: u16) -> int {
    let d = scale_distance(note, root, mask);
    if in_scale(note + d, root, mask) {
        note + d
    } else {
        note - d
    }
}

/// What [`quantize`] returns: nothing for an empty scale, else the snapped note.
pub open spec fn quantized(note: int, root: u8, mask: u16) -> Option<int> {
    if scale_is_empty(mask) {
        None
    } else {
        Some(snapped(note, root, mask))
    }
}

/// The inputs on which [`quantize`] computes without overflowing `i32`: the
/// search reaches `midi + d` upward, and downward to the last note it tests
/// below `midi`, each taken relative to `root`.
pub open spec fn quantize_fits(midi: i32, root: u8, mask: u16) -> bool {
    let d = scale_distance(midi as int, root, mask) as int;
    let below = if in_scale(midi + d, root, mask) { d - 1 } else { d };
    scale_is_empty(mask) || (midi - root >= i32::MIN && (d == 0 || (midi + d <= i32::MAX && midi
        - root - below >= i32::MIN)))
}

/// Every non-empty mask allows one of the twelve degrees.
proof fn lemma_nonempty_mask_has_degree(mask: u16)
    requires
        !scale_is_empty(mask),
    ensures
        exists|d: u16| d < 12 && #[trigger] (mask & (1u16 << d)) != 0,
{
    assert(mask & 0x0fffu16 != 0 ==> (mask & (1u16 << 0u16) != 0 || mask & (1u16 << 1u16) != 0
        || mask & (1u16 << 2u16) != 0 || mask & (1u16 << 3u16) != 0 || mask & (1u16 << 4u16) != 0
        || mask & (1u16 << 5u16) != 0 || mask & (1u16 << 6u16) != 0 || mask & (1u16 << 7u16) != 0
        || mask & (1u16 << 8u16) != 0 || mask & (1u16 << 9u16) != 0 || mask & (1u16 << 10u16) != 0
        || mask & (1u16 << 11u16) != 0)) by (bit_vector);
    if mask & (1u16 << 0u16) != 0 { assert(0u16 < 12); }
    else if mask & (1u16 << 1u16) != 0 { assert(1u16 < 12); }
    else if mask & (1u16 << 2u16) != 0 { assert(2u16 < 12); }
    else if mask & (1u16 << 3u16) != 0 { assert(3u16 < 12); }
    else if mask & (1u16 << 4u16) != 0 { assert(4u16 < 12); }
    else if mask & (1u16 << 5u16) != 0 { assert(5u16 < 12); }
    else if mask & (1u16 << 6u16) != 0 { assert(6u16 < 12); }
    else if mask & (1u16 << 7u16) != 0 { assert(7u16 < 12); }
    else if mask & (1u16 << 8u16) != 0 { assert(8u16 < 12); }
    else if mask & (1u16 << 9u16) != 0 { assert(9u16 < 12); }
    else if mask & (1u16 << 10u16) != 0 { assert(10u16 < 12); }
    else { assert(11u16 < 12); }
}

/// A non-empty scale has a note within six semitones of any note; returns
/// that distance.
proof fn lemma_scale_note_within_six(note: int, root: u8, mask: u16) -> (k: int)
    requires
        !scale_is_empty(mask),
    ensures
        0 <= k <= 6,
        in_scale(note + k, root, mask) || in_scale(note - k, root, mask),
{
    lemma_nonempty_mask_has_degree(mask);
    let d = choose|d: u16| d < 12 && #[trigger] (mask & (1u16 << d)) != 0;
    let c = degree(note, root);
    let u = (d as int - c) % 12;
    assert(degree(note + u, root) == d as int) by {
        assert((note + u - root as int) % 12 == ((note - root as int) % 12 + u) % 12) by {
            vstd::arithmetic::div_mod::lemma_add_mod_noop(note - root as int, u, 12);
            vstd::arithmetic::div_mod::lemma_mod_twice(note - root as int, 12);
        }
        vstd::arithmetic::div_mod::lemma_add_mod_noop(c, d as int - c, 12);
        vstd::arithmetic::div_mod::lemma_mod_twice(d as int - c, 12);
    }
    assert(degree(note + u - 12, root) == d as int) by {
        vstd::arithmetic::div_mod::lemma_mod_sub_multiples_vanish(note + u - root as int, 12);
    }
    assert(0 <= u < 12);
    assert((degree(note + u, root) as u16) == d);
    assert((degree(note + u - 12, root) as u16) == d);
    if u <= 6 {
        assert(in_scale(note + u, root, mask));
        u
    } else {
        assert(note - (12 - u) == note + u - 12);
        assert(in_scale(note - (12 - u), root, mask));
        12 - u
    }
}

/// The search finds the nearest scale note: no scale note lies closer than
/// `distance_from` reports, and one lies at exactly that distance.
proof fn lemma_distance_from(note: int, root: u8, mask: u16, from: nat)
    requires
        from <= 7,
        forall|j: int| #![trigger in_scale(note + j, root, mask)] #![trigger in_scale(note - j, root, mask)] 0 <= j < from ==> !in_scale(note + j, root, mask) && !in_scale(note - j, root, mask),
    ensures
        from <= distance_from(note, root, mask, from) <= 7,
        forall|j: int| #![trigger in_scale(note + j, root, mask)] #![trigger in_scale(note - j, root, mask)] 0 <= j < distance_from(note, root, mask, from) ==> !in_scale(note + j, root, mask)
            && !in_scale(note - j, root, mask),
        distance_from(note, root, mask, from) < 7 ==> in_scale(note + distance_from(note, root, mask, from), root, mask)
            || in_scale(note - distance_from(note, root, mask, from), root, mask),
    decreases 7 - from,
{
    if from < 7 && !(in_scale(note + from, root, mask) || in_scale(note - from, root, mask)) {
        assert forall|j: int| 0 <= j < from + 1 implies !#[trigger] in_scale(note + j, root, mask)
            && !in_scale(note - j, root, mask) by {
            if j < from {
            } else {
                assert(j == from);
            }
        }
        lemma_distance_from(note, root, mask, from + 1);
    }
}

/// The nearest-note search stops within six semitones and lands on a scale note.
proof fn lemma_distance_found(note: int, root: u8, mask: u16)
    requires
        !scale_is_empty(mask),
    ensures
        scale_distance(note, root, mask) <= 6,
        in_scale(note + scale_distance(note, root, mask), root, mask)
            || in_scale(note - scale_distance(note, root, mask), root, mask),
        forall|j: int| #![trigger in_scale(note + j, root, mask)] #![trigger in_scale(note - j, root, mask)] 0 <= j < scale_distance(note, root, mask) ==> !in_scale(note + j, root, mask)
            && !in_scale(note - j, root, mask),
{
    lemma_distance_from(note, root, mask, 0);
    let k = lemma_scale_note_within_six(note, root, mask);
    let d = scale_distance(note, root, mask) as int;
    if d > k {
        assert(!in_scale(note + k, root, mask) && !in_scale(note - k, root, mask));
    }
}

/// No scale note lies closer to `note` than the snapped one, and when one lies
/// equally close it is not above the snapped one.
proof fn lemma_snapped_beats(note: int, root: u8, mask: u16, n: int)
    requires
        !scale_is_empty(mask),
        in_scale(n, root, mask),
    ensures
        dist(snapped(note, root, mask), note) <= dist(n, note),
        dist(snapped(note, root, mask), note) == dist(n, note) ==> n <= snapped(note, root, mask),
{
    lemma_distance_found(note, root, mask);
    let d = scale_distance(note, root, mask) as int;
    let j = dist(n, note);
    if j < d {
        if n >= note {
            assert(n == note + j);
            assert(!in_scale(note + j, root, mask));
        } else {
            assert(n == note - j);
            assert(!in_scale(note - j, root, mask));
        }
    }
    if j == d && n > note {
        assert(n == note + d);
    }
}

/// The snapped note is in the scale, nearest to `note`, and the upper one when
/// two scale notes are equally near.
pub proof fn lemma_snapped_is_nearest(note: int, root: u8, mask: u16)
    requires
        !scale_is_empty(mask),
    ensures
        scale_distance(note, root, mask) <= 6,
        in_scale(snapped(note, root, mask), root, mask),
        forall|n: int| #[trigger] in_scale(n, root, mask) ==> {
            &&& dist(snapped(note, root, mask), note) <= dist(n, note)
            &&& dist(snapped(note, root, mask), note) == dist(n, note) ==> n <= snapped(note, root, mask)
        },
{
    lemma_distance_found(note, root, mask);
    assert forall|n: int| #[trigger] in_scale(n, root, mask) implies {
        &&& dist(snapped(note, root, mask), note) <= dist(n, note)
        &&& dist(snapped(note, root, mask), note) == dist(n, note) ==> n <= snapped(note, root, mask)
    } by {
        lemma_snapped_beats(note, root, mask, n);
    }
}

/// The note `note` belongs to the scale: its degree above `root` is allowed by
/// `mask`.
fn allowed(note: i32, root: u8, mask: u16) -> (r: bool)
    requires
        note - root >= i32::MIN,
    ensures
        r == in_scale(note as int, root, mask),
{
    let x: i32 = note - root as i32;
    let m: i32 = x % 12;
    let d: i32 = if m < 0 { m + 12 } else { m };
    assert(d == degree(note as int, root));
    let shift: u16 = d as u16;
    mask & (1u16 << shift) != 0
}

/// Snap `midi` to the nearest note allowed by a scale defined as a `root`
/// pitch-class (0=C..11=B) and a 12-bit `degree_mask` (bit d set = the note
/// `root + d` mod 12 is allowed). Ties resolve upward. Empty mask -> None.
pub fn quantize(midi: i32, root: u8, degree_mask: u16) -> (r: Option<i32>)
    requires
        quantize_fits(midi, root, degree_mask),
    ensures
        r is None <==> scale_is_empty(degree_mask),
        r matches Some(q) ==> quantized(midi as int, root, degree_mask) == Some(q as int),
        r matches Some(q) ==> in_scale(q as int, root, degree_mask),
        r matches Some(q) ==> forall|n: int| #[trigger] in_scale(n, root, degree_mask) ==> {
            &&& dist(q as int, midi as int) <= dist(n, midi as int)
            &&& dist(q as int, midi as int) == dist(n, midi as int) ==> n <= q
        },
{
    if degree_mask & 0x0fff == 0 {
        return None;
    }
    proof {
        lemma_distance_found(midi as int, root, degree_mask);
        lemma_snapped_is_nearest(midi as int, root, degree_mask);
    }
    let ghost d = scale_distance(midi as int, root, degree_mask) as int;
    if allowed(midi, root, degree_mask) {
        assert(midi + 0 == midi);
        assert(d == 0);
        return Some(midi);
    }
    let mut offset: i32 = 1;
    while offset <= 6
        invariant
            1 <= offset <= 7,
            offset <= d,
            d <= 6,
            d == scale_distance(midi as int, root, degree_mask) as int,
            quantize_fits(midi, root, degree_mask),
            !scale_is_empty(degree_mask),
            midi - root >= i32::MIN,
            forall|j: int| #![trigger in_scale(midi + j, root, degree_mask)] #![trigger in_scale(midi - j, root, degree_mask)] 0 <= j < d ==> !in_scale(midi + j, root, degree_mask)
                && !in_scale(midi - j, root, degree_mask),
            in_scale(midi + d, root, degree_mask) || in_scale(midi - d, root, degree_mask),
        decreases 7 - offset,
    {
        let up: i32 = midi + offset;
        if allowed(up, root, degree_mask) {
            proof { lemma_snapped_is_nearest(midi as int, root, degree_mask); }
            return Some(up);
        }
        let down: i32 = midi - offset;
        if allowed(down, root, degree_mask) {
            proof { lemma_snapped_is_nearest(midi as int, root, degree_mask); }
            return Some(down);
        }
        offset = offset + 1;
    }
    Some(midi)
}

/// Whether [`quantize`] can compute on these inputs without overflow.
pub fn quantize_in_range(midi: i32, root: u8, degree_mask: u16) -> (r: bool)
    ensures
        r == quantize_fits(midi, root, degree_mask),
{
    if degree_mask & 0x0fff == 0 {
        return true;
    }
    if (midi as i64) - (root as i64) < i32::MIN as i64 {
        return false;
    }
    proof {
        lemma_distance_found(midi as int, root, degree_mask);
        lemma_snapped_is_nearest(midi as int, root, degree_mask);
    }
    let ghost d = scale_distance(midi as int, root, degree_mask) as int;
    let mut k: i64 = 0;
    while k <= 6
        invariant
            0 <= k <= d,
            d <= 6,
            d == scale_distance(midi as int, root, degree_mask) as int,
            !scale_is_empty(degree_mask),
            midi - root >= i32::MIN,
            forall|j: int| #![trigger in_scale(midi + j, root, degree_mask)] #![trigger in_scale(midi - j, root, degree_mask)] 0 <= j < d ==> !in_scale(midi + j, root, degree_mask)
                && !in_scale(midi - j, root, degree_mask),
            in_scale(midi + d, root, degree_mask) || in_scale(midi - d, root, degree_mask),
        decreases 7 - k,
    {
        let m: i64 = midi as i64;
        if k == 0 {
            if allowed(midi, root, degree_mask) {
                return true;
            }
        } else {
            if m + k > i32::MAX as i64 {
                return false;
            }
            let up: i32 = (m + k) as i32;
            if allowed(up, root, degree_mask) {
                return m - (root as i64) - (k - 1) >= i32::MIN as i64;
            }
            if m - (root as i64) - k < i32::MIN as i64 {
                return false;
            }
            let down: i32 = (m - k) as i32;
            if allowed(down, root, degree_mask) {
                return true;
            }
        }
        k = k + 1;
    }
    true
}


/// `o` moved by `t` semitones.
pub open spec fn shifted(o: Option<int>, t: int) -> Option<int> {
    match o {
        Some(n) => Some(n + t),
        None => None,
    }
}

/// When one scale is another moved by `t` semitones, the nearest-note search
/// gives the same distances and the snapped notes differ by `t`.
proof fn lemma_search_shifts(note: int, r1: u8, r2: u8, mask: u16, t: int, from: nat)
    requires
        forall|n: int| #[trigger] in_scale(n + t, r2, mask) == in_scale(n, r1, mask),
    ensures
        distance_from(note + t, r2, mask, from) == distance_from(note, r1, mask, from),
    decreases 7 - from,
{
    if from < 7 {
        assert(in_scale(note + from + t, r2, mask) == in_scale(note + from, r1, mask));
        assert(in_scale(note - from + t, r2, mask) == in_scale(note - from, r1, mask));
        assert(note + t + from == note + from + t);
        assert(note + t - from == note - from + t);
        lemma_search_shifts(note, r1, r2, mask, t, from + 1);
    }
}

proof fn lemma_quantized_shifts(note: int, r1: u8, r2: u8, mask: u16, t: int)
    requires
        forall|n: int| #[trigger] in_scale(n + t, r2, mask) == in_scale(n, r1, mask),
    ensures
        quantized(note + t, r2, mask) == shifted(quantized(note, r1, mask), t),
{
    lemma_search_shifts(note, r1, r2, mask, t, 0);
    let d = scale_distance(note, r1, mask) as int;
    assert(in_scale(note + d + t, r2, mask) == in_scale(note + d, r1, mask));
    assert(note + t + d == note + d + t);
}

/// A note already in the scale is returned unchanged.
pub proof fn lemma_quantize_keeps_scale_notes(note: int, root: u8, mask: u16)
    requires
        !scale_is_empty(mask),
        in_scale(note, root, mask),
    ensures
        quantized(note, root, mask) == Some(note),
{
    assert(note + 0 == note && note - 0 == note);
}

/// Quantizing twice is quantizing once.
pub proof fn lemma_quantize_idempotent(note: int, root: u8, mask: u16)
    requires
        !scale_is_empty(mask),
    ensures
        quantized(snapped(note, root, mask), root, mask) == quantized(note, root, mask),
{
    lemma_snapped_is_nearest(note, root, mask);
    lemma_quantize_keeps_scale_notes(snapped(note, root, mask), root, mask);
}

/// Quantization repeats every octave: a note twelve semitones higher snaps to
/// the note twelve semitones higher.
pub proof fn lemma_quantize_octave(note: int, root: u8, mask: u16)
    ensures
        quantized(note + 12, root, mask) == shifted(quantized(note, root, mask), 12),
{
    assert forall|n: int| #[trigger] in_scale(n + 12, root, mask) == in_scale(n, root, mask) by {
        vstd::arithmetic::div_mod::lemma_mod_add_multiples_vanish(n - root as int, 12);
        assert(n + 12 - root as int == 12 + (n - root as int));
    }
    lemma_quantized_shifts(note, root, root, mask, 12);
}

/// Moving the root moves the scale: with the root `t` semitones higher, a
/// note `t` semitones higher snaps to the note `t` semitones higher.
pub proof fn lemma_quantize_transposes(note: int, root: u8, mask: u16, t: int)
    requires
        0 <= root + t <= 255,
    ensures
        quantized(note + t, (root + t) as u8, mask) == shifted(quantized(note, root, mask), t),
{
    let r2 = (root + t) as u8;
    assert forall|n: int| #[trigger] in_scale(n + t, r2, mask) == in_scale(n, root, mask) by {
        assert(n + t - r2 as int == n - root as int);
    }
    lemma_quantized_shifts(note, root, r2, mask, t);
}


/// The name of pitch class `pc` (0 = C .. 11 = B), using sharps.
pub open spec fn pitch_class_name(pc: int) -> Seq<char> {
    if pc == 0 {
        seq!['C']
    } else if pc == 1 {
        seq!['C', '#']
    } else if pc == 2 {
        seq!['D']
    } else if pc == 3 {
        seq!['D', '#']
    } else if pc == 4 {
        seq!['E']
    } else if pc == 5 {
        seq!['F']
    } else if pc == 6 {
        seq!['F', '#']
    } else if pc == 7 {
        seq!['G']
    } else if pc == 8 {
        seq!['G', '#']
    } else if pc == 9 {
        seq!['A']
    } else if pc == 10 {
        seq!['A', '#']
    } else {
        seq!['B']
    }
}

/// The character of decimal digit `d`.
pub open spec fn digit_char(d: int) -> char {
    (48 + d) as char
}

/// The decimal digits of `n`, most significant first.
pub open spec fn digits(n: nat) -> Seq<char>
    decreases n,
{
    if n < 10 {
        seq![digit_char(n as int)]
    } else {
        digits(n / 10).push(digit_char((n % 10) as int))
    }
}

/// `i` written in decimal, with a leading '-' when negative.
pub open spec fn decimal(i: int) -> Seq<char> {
    if i < 0 {
        seq!['-'] + digits((-i) as nat)
    } else {
        digits(i as nat)
    }
}

/// The name of MIDI note `midi`: its pitch class followed by its octave,
/// where A4 = 69 and octave -1 starts at note 0.
pub open spec fn spec_note_name(midi: int) -> Seq<char> {
    pitch_class_name(midi % 12) + decimal(midi / 12 - 1)
}

/// The name of pitch class `pc` (0 = C .. 11 = B), using sharps.
pub fn pitch_class_str(pc: i32) -> (s: &'static str)
    requires
        0 <= pc < 12,
    ensures
        s@ == pitch_class_name(pc as int),
{
    if pc == 0 {
        proof { reveal_strlit("C"); }
        "C"
    } else if pc == 1 {
        proof { reveal_strlit("C#"); }
        "C#"
    } else if pc == 2 {
        proof { reveal_strlit("D"); }
        "D"
    } else if pc == 3 {
        proof { reveal_strlit("D#"); }
        "D#"
    } else if pc == 4 {
        proof { reveal_strlit("E"); }
        "E"
    } else if pc == 5 {
        proof { reveal_strlit("F"); }
        "F"
    } else if pc == 6 {
        proof { reveal_strlit("F#"); }
        "F#"
    } else if pc == 7 {
        proof { reveal_strlit("G"); }
        "G"
    } else if pc == 8 {
        proof { reveal_strlit("G#"); }
        "G#"
    } else if pc == 9 {
        proof { reveal_strlit("A"); }
        "A"
    } else if pc == 10 {
        proof { reveal_strlit("A#"); }
        "A#"
    } else {
        proof { reveal_strlit("B"); }
        "B"
    }
}

fn digit_str(d: u32) -> (s: &'static str)
    requires
        d < 10,
    ensures
        s@ == seq![digit_char(d as int)],
{
    if d == 0 {
        proof { reveal_strlit("0"); }
        "0"
    } else if d == 1 {
        proof { reveal_strlit("1"); }
        "1"
    } else if d == 2 {
        proof { reveal_strlit("2"); }
        "2"
    } else if d == 3 {
        proof { reveal_strlit("3"); }
        "3"
    } else if d == 4 {
        proof { reveal_strlit("4"); }
        "4"
    } else if d == 5 {
        proof { reveal_strlit("5"); }
        "5"
    } else if d == 6 {
        proof { reveal_strlit("6"); }
        "6"
    } else if d == 7 {
        proof { reveal_strlit("7"); }
        "7"
    } else if d == 8 {
        proof { reveal_strlit("8"); }
        "8"
    } else {
        proof { reveal_strlit("9"); }
        "9"
    }
}

/// Append the decimal digits of `n` to `out`.
fn push_digits(out: &mut String, n: u32)
    ensures
        final(out)@ == old(out)@ + digits(n as nat),
    decreases n,
{
    if n >= 10 {
        push_digits(out, n / 10);
        out.append(digit_str(n % 10));
        assert(final(out)@ =~= old(out)@ + digits(n as nat));
    } else {
        out.append(digit_str(n));
    }
}

/// Note name like "A4" for a MIDI note (A4 = 69). Uses sharps.
pub fn note_name(midi: i32) -> (name: String)
    ensures
        name@ == spec_note_name(midi as int),
{
    let r: i32 = midi % 12;
    let q: i32 = midi / 12;
    let (pc, div): (i32, i32) = if r < 0 { (r + 12, q - 1) } else { (r, q) };
    assert(pc == midi as int % 12 && div == midi as int / 12);
    let octave: i32 = div - 1;
    let mut name = String::from_str(pitch_class_str(pc));
    if octave < 0 {
        proof { reveal_strlit("-"); }
        name.append("-");
        let mag: u32 = (-(octave as i64)) as u32;
        push_digits(&mut name, mag);
    } else {
        push_digits(&mut name, octave as u32);
    }
    assert(name@ =~= spec_note_name(midi as int));
    name
}


/// The caption of a scale-degree toggle: the name of the pitch class `degree`
/// semitones above the root pitch class `root`.
pub fn degree_caption(root: u8, degree: u8) -> (s: &'static str)
    ensures
        s@ == pitch_class_name((root + degree) % 12),
{
    let pc: u16 = (root as u16 + degree as u16) % 12;
    pitch_class_str(pc as i32)
}


/// The black keys of the octave: pitch classes 1, 3, 6, 8 and 10.
pub open spec fn is_black_key(pc: int) -> bool {
    pc == 1 || pc == 3 || pc == 6 || pc == 8 || pc == 10
}

/// The `k`-th white key of the octave (0 <= k < 7): 0, 2, 4, 5, 7, 9, 11.
pub open spec fn white_key(k: int) -> int {
    if k < 3 { 2 * k } else { 2 * k - 1 }
}

/// Pitch classes are named with sharps: the seven white keys take the letters
/// C D E F G A B in order, and each black key is the white key below it with
/// '#' appended, so a name carries '#' exactly for the black keys.
pub proof fn lemma_pitch_class_names(pc: int, k: int)
    requires
        0 <= pc < 12,
        0 <= k < 7,
    ensures
        pitch_class_name(white_key(k)) == seq![seq!['C', 'D', 'E', 'F', 'G', 'A', 'B'][k]],
        is_black_key(pc) ==> pitch_class_name(pc) == pitch_class_name(pc - 1).push('#'),
        is_black_key(pc) ==> !is_black_key(pc - 1),
        !is_black_key(pc) ==> pitch_class_name(pc).len() == 1 && pitch_class_name(pc)[0] != '#',
        !is_black_key(pc) <==> exists|j: int| 0 <= j < 7 && white_key(j) == pc,
{
    let letters = seq!['C', 'D', 'E', 'F', 'G', 'A', 'B'];
    assert(pitch_class_name(white_key(k)) =~= seq![letters[k]]);
    if is_black_key(pc) {
        assert(pitch_class_name(pc) =~= pitch_class_name(pc - 1).push('#'));
        assert forall|j: int| 0 <= j < 7 implies white_key(j) != pc by {}
    } else {
        let j: int = if pc < 5 { pc / 2 } else { (pc + 1) / 2 };
        assert(white_key(j) == pc);
    }
}

/// A note twelve semitones higher has the same pitch-class name and the next
/// octave number.
pub proof fn lemma_note_name_octave(midi: int)
    ensures
        spec_note_name(midi + 12) == pitch_class_name(midi % 12) + decimal(midi / 12),
{
    vstd::arithmetic::div_mod::lemma_mod_add_multiples_vanish(midi, 12);
    vstd::arithmetic::div_mod::lemma_fundamental_div_mod(midi, 12);
    vstd::arithmetic::div_mod::lemma_fundamental_div_mod_converse(midi + 12, 12, midi / 12 + 1, midi % 12);
}


/// Every note at least 261 above `i32::MIN` and 6 below `i32::MAX` (so every
/// MIDI note) can be quantized to any scale without overflow.
pub proof fn lemma_quantize_fits_in_range(midi: i32, root: u8, mask: u16)
    requires
        i32::MIN + 261 <= midi <= i32::MAX - 6,
    ensures
        quantize_fits(midi, root, mask),
{
    if !scale_is_empty(mask) {
        lemma_distance_found(midi as int, root, mask);
    }
}

} // verus!
