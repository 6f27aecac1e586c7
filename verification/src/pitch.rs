//! Sample bookkeeping for windowed pitch detection.
//!
//! The detector looks at the last `window` input samples once every `hop`
//! samples. [`SampleWindow`] keeps the most recent [`MAX_WINDOW`] samples in a
//! ring (so a window change never resizes it) and, when a hop completes, lays
//! the last `window` of them out oldest-first in a scratch buffer. [`HopGate`]
//! is the hop counter on its own, and the `*_bits` functions pack a detection
//! result into one word so it can be published with a single atomic store.
use vstd::prelude::*;

verus! {

/// Largest supported detection window; the ring always holds this many samples.
pub const MAX_WINDOW: usize = 2048;

/// Detection window used until another is chosen.
pub const DEFAULT_WINDOW: usize = 1024;

/// Detection hop used until another is chosen.
pub const DEFAULT_HOP: usize = 128;

/// The hop the plugin runs at.
pub const HOP: usize = DEFAULT_HOP;

/// Smallest supported detection window.
pub const MIN_WINDOW: usize = 256;

/// `window` limited to the supported range `[MIN_WINDOW, MAX_WINDOW]`.
pub open spec fn clamp_window(window: int) -> int {
    if window < MIN_WINDOW {
        MIN_WINDOW as int
    } else if window > MAX_WINDOW {
        MAX_WINDOW as int
    } else {
        window
    }
}

/// `window` limited to the supported range `[MIN_WINDOW, MAX_WINDOW]`.
pub fn clamped_window(window: usize) -> (w: usize)
    ensures
        w == clamp_window(window as int),
{
    if window < MIN_WINDOW {
        MIN_WINDOW
    } else if window > MAX_WINDOW {
        MAX_WINDOW
    } else {
        window
    }
}

/// Counts samples and fires once every `hop` of them.
pub struct HopGate {
    count: usize,
}

impl HopGate {
    /// Samples counted since the last firing.
    pub closed spec fn counted(self) -> nat {
        self.count as nat
    }

    /// The count is below the largest `usize`, so one more sample fits.
    pub closed spec fn wf(self) -> bool {
        self.count < usize::MAX
    }

    /// A gate that has counted nothing.
    pub fn new() -> (g: Self)
        ensures
            g.counted() == 0,
            g.wf(),
    {
        HopGate { count: 0 }
    }

    /// Samples counted since the last firing.
    pub fn count(&self) -> (c: usize)
        ensures
            c == self.counted(),
    {
        self.count
    }

    /// Count one sample; fire (and start counting afresh) when this makes
    /// `hop` samples since the last firing.
    pub fn tick(&mut self, hop: usize) -> (fired: bool)
        requires
            old(self).wf(),
        ensures
            fired == (old(self).counted() + 1 >= hop),
            final(self).counted() == if fired { 0 } else { old(self).counted() + 1 },
            final(self).wf(),
    {
        self.count = self.count + 1;
        if self.count < hop {
            false
        } else {
            self.count = 0;
            true
        }
    }

    /// Start counting afresh.
    pub fn reset(&mut self)
        ensures
            final(self).counted() == 0,
            final(self).wf(),
    {
        self.count = 0;
    }
}

/// The most recent [`MAX_WINDOW`] samples and the hop-gated window over them.
pub struct SampleWindow<T> {
    ring: Vec<T>,
    scratch: Vec<T>,
    write: usize,
    window: usize,
    hop: usize,
    gate: HopGate,
}

impl<T> SampleWindow<T> {
    /// The last [`MAX_WINDOW`] samples pushed, oldest first (the fill value
    /// stands in for samples never pushed).
    pub closed spec fn recent(self) -> Seq<T> {
        Seq::new(MAX_WINDOW as nat, |k: int| self.ring@[(self.write + k) % (MAX_WINDOW as int)])
    }

    /// The current detection window length.
    pub closed spec fn window_len(self) -> nat {
        self.window as nat
    }

    /// The current hop length.
    pub closed spec fn hop_len(self) -> nat {
        self.hop as nat
    }

    /// Samples counted since the last completed hop.
    pub closed spec fn counted(self) -> nat {
        self.gate.counted()
    }

    /// The scratch buffer, whose first `window` entries hold the last window.
    pub closed spec fn scratch_view(self) -> Seq<T> {
        self.scratch@
    }

    /// The invariant of a sample window.
    pub closed spec fn wf(self) -> bool {
        &&& self.ring@.len() == MAX_WINDOW
        &&& self.scratch@.len() == MAX_WINDOW
        &&& self.write < MAX_WINDOW
        &&& MIN_WINDOW <= self.window <= MAX_WINDOW
        &&& self.hop >= 1
        &&& self.gate.wf()
    }

    /// The last `window` samples, oldest first.
    pub open spec fn last_window(self) -> Seq<T> {
        self.recent().subrange(MAX_WINDOW - self.window_len(), MAX_WINDOW as int)
    }
}

impl<T: Copy> SampleWindow<T> {
    /// An empty window of `window` samples (clamped to the supported range),
    /// with the ring filled with `fill` and the default hop.
    pub fn new(window: usize, fill: T) -> (w: Self)
        ensures
            w.wf(),
            w.window_len() == clamp_window(window as int),
            w.hop_len() == DEFAULT_HOP,
            w.counted() == 0,
            w.recent() == Seq::new(MAX_WINDOW as nat, |k: int| fill),
    {
        let window = clamped_window(window);
        let mut ring: Vec<T> = Vec::new();
        let mut scratch: Vec<T> = Vec::new();
        let mut i: usize = 0;
        while i < MAX_WINDOW
            invariant
                i <= MAX_WINDOW,
                ring@.len() == i,
                scratch@.len() == i,
                forall|j: int| 0 <= j < i ==> #[trigger] ring@[j] == fill,
            decreases MAX_WINDOW - i,
        {
            ring.push(fill);
            scratch.push(fill);
            i = i + 1;
        }
        let w = SampleWindow { ring, scratch, write: 0, window, hop: DEFAULT_HOP, gate: HopGate::new() };
        assert(w.recent() =~= Seq::new(MAX_WINDOW as nat, |k: int| fill));
        w
    }

    /// The current detection window length.
    pub fn window(&self) -> (n: usize)
        ensures
            n == self.window_len(),
    {
        self.window
    }

    /// The current hop length.
    pub fn hop(&self) -> (n: usize)
        ensures
            n == self.hop_len(),
    {
        self.hop
    }

    /// The scratch buffer; after a completed hop its first `window()`
    /// entries are the last window of samples, oldest first.
    pub fn scratch(&self) -> (s: &Vec<T>)
        ensures
            s@ == self.scratch_view(),
    {
        &self.scratch
    }

    /// Change the window length (clamped to the supported range). Returns
    /// whether it changed; the samples kept are unaffected.
    pub fn set_window(&mut self, window: usize) -> (changed: bool)
        requires
            old(self).wf(),
        ensures
            final(self).wf(),
            final(self).window_len() == clamp_window(window as int),
            changed == (clamp_window(window as int) != old(self).window_len()),
            final(self).recent() == old(self).recent(),
            final(self).hop_len() == old(self).hop_len(),
            final(self).counted() == old(self).counted(),
            final(self).scratch_view() == old(self).scratch_view(),
    {
        let window = clamped_window(window);
        if window != self.window {
            self.window = window;
            true
        } else {
            false
        }
    }

    /// Change the hop length; 0 is taken as 1.
    pub fn set_hop(&mut self, hop: usize)
        requires
            old(self).wf(),
        ensures
            final(self).wf(),
            final(self).hop_len() == if hop < 1 { 1 } else { hop as int },
            final(self).window_len() == old(self).window_len(),
            final(self).recent() == old(self).recent(),
            final(self).counted() == old(self).counted(),
            final(self).scratch_view() == old(self).scratch_view(),
    {
        self.hop = if hop < 1 { 1 } else { hop };
    }

    /// Take one sample. Returns `true` when it completes a hop, in which case
    /// the first `window()` entries of [`SampleWindow::scratch`] now hold the
    /// last `window()` samples, oldest first.
    pub fn push(&mut self, sample: T) -> (ready: bool)
        requires
            old(self).wf(),
        ensures
            final(self).wf(),
            final(self).recent() == old(self).recent().drop_first().push(sample),
            final(self).window_len() == old(self).window_len(),
            final(self).hop_len() == old(self).hop_len(),
            ready == (old(self).counted() + 1 >= old(self).hop_len()),
            final(self).counted() == if ready { 0 } else { old(self).counted() + 1 },
            ready ==> final(self).scratch_view().subrange(0, final(self).window_len() as int) == final(self).last_window(),
            !ready ==> final(self).scratch_view() == old(self).scratch_view(),
    {
        let ghost old_recent = self.recent();
        let w0 = self.write;
        self.ring.set(w0, sample);
        self.write = (w0 + 1) % MAX_WINDOW;
        proof {
            let n = MAX_WINDOW as int;
            assert forall|k: int| 0 <= k < n implies #[trigger] self.recent()[k] == old_recent.drop_first().push(sample)[k] by {
                vstd::arithmetic::div_mod::lemma_add_mod_noop(w0 as int + 1, k, n);
                vstd::arithmetic::div_mod::lemma_mod_twice(w0 as int + 1, n);
                vstd::arithmetic::div_mod::lemma_add_mod_noop(w0 as int + 1 + k, 0, n);
                assert((self.write + k) % n == (w0 + 1 + k) % n) by {
                    vstd::arithmetic::div_mod::lemma_add_mod_noop(w0 as int + 1, k, n);
                    vstd::arithmetic::div_mod::lemma_mod_twice(w0 as int + 1, n);
                    vstd::arithmetic::div_mod::lemma_small_mod((k) as nat, n as nat);
                }
                if k < n - 1 {
                    if w0 + 1 + k >= n {
                        vstd::arithmetic::div_mod::lemma_mod_sub_multiples_vanish(w0 as int + 1 + k - n, n);
                        vstd::arithmetic::div_mod::lemma_small_mod((w0 as int + 1 + k - n) as nat, n as nat);
                        assert(w0 as int + 1 + k - n + n == w0 + 1 + k);
                    } else {
                        vstd::arithmetic::div_mod::lemma_small_mod((w0 as int + 1 + k) as nat, n as nat);
                    }
                    assert((w0 + 1 + k) % n != w0 as int);
                    assert(old_recent[k + 1] == old(self).ring@[(w0 + (k + 1)) % n]);
                } else {
                    vstd::arithmetic::div_mod::lemma_mod_sub_multiples_vanish(w0 as int + n, n);
                    vstd::arithmetic::div_mod::lemma_small_mod((w0 as int) as nat, n as nat);
                    assert(w0 + 1 + k == w0 + n);
                }
            }
            assert(self.recent() =~= old_recent.drop_first().push(sample));
        }
        let ready = self.gate.tick(self.hop);
        if ready {
            let window = self.window;
            let start = (self.write + MAX_WINDOW - window) % MAX_WINDOW;
            let ghost rec = self.recent();
            let ghost hop0 = self.hop;
            let ghost gate0 = self.gate.counted();
            let mut i: usize = 0;
            while i < window
                invariant
                    self.ring@.len() == MAX_WINDOW,
                    self.scratch@.len() == MAX_WINDOW,
                    self.write < MAX_WINDOW,
                    MIN_WINDOW <= window <= MAX_WINDOW,
                    window == self.window,
                    self.hop >= 1,
                    self.hop == hop0,
                    self.gate.counted() == gate0,
                    self.gate.wf(),
                    start == (self.write + MAX_WINDOW - window) % (MAX_WINDOW as int),
                    rec == self.recent(),
                    i <= window,
                    forall|j: int| 0 <= j < i ==> #[trigger] self.scratch@[j] == rec[MAX_WINDOW - window + j],
                decreases window - i,
            {
                let idx = (start + i) % MAX_WINDOW;
                proof {
                    let n = MAX_WINDOW as int;
                    assert(idx == (self.write + (n - window + i)) % n) by {
                        vstd::arithmetic::div_mod::lemma_add_mod_noop(self.write + n - window, i as int, n);
                        vstd::arithmetic::div_mod::lemma_mod_twice(self.write + n - window, n);
                        vstd::arithmetic::div_mod::lemma_small_mod((i as int) as nat, n as nat);
                        vstd::arithmetic::div_mod::lemma_add_mod_noop(self.write + n - window, i as int, n);
                    }
                }
                let v = self.ring[idx];
                self.scratch.set(i, v);
                i = i + 1;
            }
            assert(self.scratch@.subrange(0, window as int) =~= self.last_window());
        }
        ready
    }
}

/// `hi` and `lo` side by side in one 64-bit word, `hi` in the upper half.
pub open spec fn packed(hi: u32, lo: u32) -> int {
    hi as int * 0x1_0000_0000 + lo as int
}

/// Pack a detection (the bit patterns of its frequency and clarity) into one
/// word, frequency in the upper half.
pub fn pack_bits(freq_bits: u32, clarity_bits: u32) -> (bits: u64)
    ensures
        bits as int == packed(freq_bits, clarity_bits),
{
    let r: u64 = ((freq_bits as u64) << 32u64) | (clarity_bits as u64);
    assert(r == (freq_bits as u64) * 0x1_0000_0000u64 + (clarity_bits as u64)) by (bit_vector)
        requires
            r == ((freq_bits as u64) << 32u64) | (clarity_bits as u64),
    ;
    r
}

/// Split a packed word back into the frequency and clarity bit patterns.
pub fn unpack_bits(bits: u64) -> (parts: (u32, u32))
    ensures
        packed(parts.0, parts.1) == bits as int,
{
    let hi: u32 = (bits >> 32u64) as u32;
    let lo: u32 = bits as u32;
    assert(hi as u64 * 0x1_0000_0000u64 + lo as u64 == bits) by (bit_vector)
        requires
            hi == (bits >> 32u64) as u32,
            lo == bits as u32,
    ;
    (hi, lo)
}

/// Unpacking undoes packing, and packing undoes unpacking: a published
/// detection reads back exactly as it was stored.
pub proof fn lemma_pack_roundtrip(hi: u32, lo: u32, bits: u64)
    ensures
        packed(hi, lo) < 0x1_0000_0000_0000_0000,
        (packed(hi, lo) == bits as int) ==> (bits as int) / 0x1_0000_0000 == hi as int && (bits as int) % 0x1_0000_0000
            == lo as int,
{
    assert(packed(hi, lo) < 0x1_0000_0000_0000_0000) by (nonlinear_arith)
        requires
            hi < 0x1_0000_0000,
            lo < 0x1_0000_0000,
    ;
    if packed(hi, lo) == bits as int {
        vstd::arithmetic::div_mod::lemma_fundamental_div_mod_converse(bits as int, 0x1_0000_0000, hi as int, lo as int);
    }
}


/// The ring contents after pushing `xs` one by one onto `recent`.
pub open spec fn after_pushes<T>(recent: Seq<T>, xs: Seq<T>) -> Seq<T>
    decreases xs.len(),
{
    if xs.len() == 0 {
        recent
    } else {
        after_pushes(recent.drop_first().push(xs[0]), xs.drop_first())
    }
}

/// The ring keeps exactly the newest samples: after pushing `xs`, it holds the
/// last [`MAX_WINDOW`] samples of everything it held followed by `xs`, so the
/// window laid out on a completed hop is the newest `window` samples pushed.
pub proof fn lemma_ring_keeps_newest<T>(recent: Seq<T>, xs: Seq<T>)
    requires
        recent.len() == MAX_WINDOW,
    ensures
        after_pushes(recent, xs) == (recent + xs).subrange(xs.len() as int, xs.len() + MAX_WINDOW),
    decreases xs.len(),
{
    if xs.len() > 0 {
        let r2 = recent.drop_first().push(xs[0]);
        lemma_ring_keeps_newest(r2, xs.drop_first());
        assert((r2 + xs.drop_first()).subrange(xs.len() - 1, xs.len() - 1 + MAX_WINDOW)
            =~= (recent + xs).subrange(xs.len() as int, xs.len() + MAX_WINDOW));
    } else {
        assert((recent + xs).subrange(0, MAX_WINDOW as int) =~= recent);
    }
}

/// The hop count after `k` more samples at a fixed hop `hop`.
pub open spec fn count_after(count: nat, hop: nat, k: nat) -> nat
    decreases k,
{
    if k == 0 {
        count
    } else {
        let c = count_after(count, hop, (k - 1) as nat);
        if c + 1 >= hop { 0 } else { c + 1 }
    }
}

/// With a fixed hop, a gate that starts from zero fires on exactly every
/// `hop`-th sample: after `k` samples it has counted `k % hop`.
pub proof fn lemma_gate_fires_every_hop(hop: nat, k: nat)
    requires
        hop >= 1,
    ensures
        count_after(0, hop, k) == k % hop,
    decreases k,
{
    if k > 0 {
        lemma_gate_fires_every_hop(hop, (k - 1) as nat);
        let c = ((k - 1) as nat % hop) as int;
        vstd::arithmetic::div_mod::lemma_fundamental_div_mod((k - 1) as int, hop as int);
        vstd::arithmetic::div_mod::lemma_mod_bound((k - 1) as int, hop as int);
        let q = (k - 1) as int / hop as int;
        if c + 1 >= hop {
            assert(k as int == (q + 1) * hop) by (nonlinear_arith)
                requires
                    (k - 1) as int == hop * q + c,
                    c + 1 == hop,
            ;
            vstd::arithmetic::div_mod::lemma_mod_multiples_basic(q + 1, hop as int);
            assert(k % hop == 0);
            assert(count_after(0, hop, (k - 1) as nat) + 1 >= hop);
            assert(count_after(0, hop, k) == 0);
        } else {
            assert(k as int == q * hop + (c + 1)) by (nonlinear_arith)
                requires
                    (k - 1) as int == hop * q + c,
            ;
            vstd::arithmetic::div_mod::lemma_fundamental_div_mod_converse(k as int, hop as int, q, c + 1);
            assert(k % hop == c + 1);
            assert(count_after(0, hop, k) == c + 1);
        }
    } else {
        vstd::arithmetic::div_mod::lemma_small_mod(0, hop);
    }
}

} // verus!
