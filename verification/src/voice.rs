//! Polyphonic voice allocation: which voice a note-on takes and which voice a
//! note-off releases.
//!
//! The allocator keeps, for each voice of a fixed pool, the stamp of the
//! note-on that last took it (0 for never), from a counter that grows by one
//! per note-on. Free voices are taken first; when every voice sounds, the one
//! with the oldest stamp is stolen. A note-off releases the most recently
//! triggered sounding voice that plays its note.
use vstd::prelude::*;

verus! {

/// Stamps of the voices of a pool and the last stamp handed out.
pub struct VoiceAllocator {
    ages: Vec<u64>,
    counter: u64,
}

/// The abstract state of a [`VoiceAllocator`].
pub struct AllocatorModel {
    pub ages: Seq<u64>,
    pub counter: u64,
}

impl View for VoiceAllocator {
    type V = AllocatorModel;

    closed spec fn view(&self) -> AllocatorModel {
        AllocatorModel { ages: self.ages@, counter: self.counter }
    }
}

impl AllocatorModel {
    /// No voice carries a stamp newer than the last one handed out.
    pub open spec fn wf(self) -> bool {
        forall|i: int| 0 <= i < self.ages.len() ==> #[trigger] self.ages[i] <= self.counter
    }
}

/// `r` is the voice a note-on takes: the first free voice, or, when every
/// voice sounds, the first voice with the oldest stamp.
pub open spec fn is_alloc_target(active: Seq<bool>, ages: Seq<u64>, r: int) -> bool {
    &&& 0 <= r < active.len()
    &&& if exists|i: int| 0 <= i < active.len() && !#[trigger] active[i] {
        &&& !active[r]
        &&& forall|j: int| 0 <= j < r ==> #[trigger] active[j]
    } else {
        &&& forall|j: int| 0 <= j < ages.len() ==> ages[r] <= #[trigger] ages[j]
        &&& forall|j: int| 0 <= j < r ==> ages[r] < #[trigger] ages[j]
    }
}

/// Voice `i` sounds and plays `note`.
pub open spec fn plays(active: Seq<bool>, notes: Seq<u8>, i: int, note: u8) -> bool {
    0 <= i < active.len() && active[i] && notes[i] == note
}

/// `r` is the voice a note-off for `note` releases: among the sounding voices
/// that play `note`, the one with the newest stamp (the last such one on a tie).
pub open spec fn is_release_target(active: Seq<bool>, notes: Seq<u8>, ages: Seq<u64>, note: u8, r: int) -> bool {
    &&& plays(active, notes, r, note)
    &&& forall|j: int| #[trigger] plays(active, notes, j, note) ==> ages[j] <= ages[r]
    &&& forall|j: int| #[trigger] plays(active, notes, j, note) && j > r ==> ages[j] < ages[r]
}

impl VoiceAllocator {
    /// A pool of `max_voices` voices, none ever taken.
    pub fn new(max_voices: usize) -> (a: Self)
        ensures
            a@.ages == Seq::new(max_voices as nat, |i: int| 0u64),
            a@.counter == 0,
            a@.wf(),
    {
        let mut ages: Vec<u64> = Vec::new();
        let mut i: usize = 0;
        while i < max_voices
            invariant
                i <= max_voices,
                ages@ == Seq::new(i as nat, |k: int| 0u64),
            decreases max_voices - i,
        {
            ages.push(0);
            i = i + 1;
            assert(ages@ =~= Seq::new(i as nat, |k: int| 0u64));
        }
        VoiceAllocator { ages, counter: 0 }
    }

    /// Number of voices in the pool.
    pub fn len(&self) -> (n: usize)
        ensures
            n == self@.ages.len(),
    {
        self.ages.len()
    }

    /// The last stamp handed out.
    pub fn counter(&self) -> (c: u64)
        ensures
            c == self@.counter,
    {
        self.counter
    }

    /// Choose the voice for a note-on (given which voices sound now) and stamp
    /// it as the newest.
    pub fn allocate(&mut self, active: &Vec<bool>) -> (target: usize)
        requires
            old(self)@.wf(),
            active@.len() == old(self)@.ages.len(),
            active@.len() > 0,
            old(self)@.counter < u64::MAX,
        ensures
            is_alloc_target(active@, old(self)@.ages, target as int),
            final(self)@.counter == old(self)@.counter + 1,
            final(self)@.ages == old(self)@.ages.update(target as int, final(self)@.counter),
            final(self)@.wf(),
            forall|j: int| 0 <= j < final(self)@.ages.len() && j != target ==>
                #[trigger] final(self)@.ages[j] < final(self)@.ages[target as int],
    {
        let n = active.len();
        let mut free: Option<usize> = None;
        let mut i: usize = 0;
        while i < n
            invariant
                n == active@.len(),
                i <= n,
                free is None ==> forall|j: int| 0 <= j < i ==> #[trigger] active@[j],
                free matches Some(f) ==> f < n && !active@[f as int] && forall|j: int| 0 <= j < f ==> #[trigger] active@[j],
            decreases n - i,
        {
            if free.is_none() && !active[i] {
                free = Some(i);
            }
            i = i + 1;
        }
        let target = match free {
            Some(f) => f,
            None => {
                let mut best: usize = 0;
                let mut k: usize = 1;
                while k < n
                    invariant
                        n == self.ages@.len(),
                        1 <= k <= n,
                        best < k,
                        forall|j: int| 0 <= j < k ==> self.ages@[best as int] <= #[trigger] self.ages@[j],
                        forall|j: int| 0 <= j < best ==> self.ages@[best as int] < #[trigger] self.ages@[j],
                    decreases n - k,
                {
                    if self.ages[k] < self.ages[best] {
                        best = k;
                    }
                    k = k + 1;
                }
                best
            },
        };
        self.counter = self.counter + 1;
        self.ages.set(target, self.counter);
        target
    }

    /// The voice a note-off for `note` releases, given which voices sound and
    /// the note each plays; `None` when no sounding voice plays `note`.
    pub fn release_target(&self, active: &Vec<bool>, notes: &Vec<u8>, note: u8) -> (r: Option<usize>)
        requires
            active@.len() == self@.ages.len(),
            notes@.len() == self@.ages.len(),
        ensures
            r is None <==> !exists|i: int| #[trigger] plays(active@, notes@, i, note),
            r matches Some(t) ==> is_release_target(active@, notes@, self@.ages, note, t as int),
    {
        let n = active.len();
        let mut best: Option<usize> = None;
        let mut i: usize = 0;
        while i < n
            invariant
                n == active@.len(),
                n == notes@.len(),
                n == self.ages@.len(),
                i <= n,
                best is None ==> forall|j: int| 0 <= j < i ==> !#[trigger] plays(active@, notes@, j, note),
                best matches Some(b) ==> b < i && plays(active@, notes@, b as int, note)
                    && (forall|j: int| 0 <= j < i && #[trigger] plays(active@, notes@, j, note) ==> self.ages@[j] <= self.ages@[b as int])
                    && (forall|j: int| 0 <= j < i && #[trigger] plays(active@, notes@, j, note) && j > b ==> self.ages@[j] < self.ages@[b as int]),
            decreases n - i,
        {
            if active[i] && notes[i] == note {
                match best {
                    None => {
                        best = Some(i);
                    },
                    Some(b) => {
                        if self.ages[i] >= self.ages[b] {
                            best = Some(i);
                        }
                    },
                }
            }
            i = i + 1;
        }
        best
    }

    /// Forget every stamp, as for a fresh pool of the same size.
    pub fn reset(&mut self)
        ensures
            final(self)@.ages == Seq::new(old(self)@.ages.len(), |i: int| 0u64),
            final(self)@.counter == 0,
            final(self)@.wf(),
    {
        let n = self.ages.len();
        let mut i: usize = 0;
        while i < n
            invariant
                n == self.ages@.len(),
                n == old(self)@.ages.len(),
                i <= n,
                forall|j: int| 0 <= j < i ==> #[trigger] self.ages@[j] == 0,
            decreases n - i,
        {
            self.ages.set(i, 0);
            i = i + 1;
        }
        self.counter = 0;
        assert(self.ages@ =~= Seq::new(old(self)@.ages.len(), |i: int| 0u64));
    }
}


/// The voice a note-on takes is determined: at most one voice meets the rule.
pub proof fn lemma_alloc_target_unique(active: Seq<bool>, ages: Seq<u64>, r1: int, r2: int)
    requires
        active.len() == ages.len(),
        is_alloc_target(active, ages, r1),
        is_alloc_target(active, ages, r2),
    ensures
        r1 == r2,
{
    if exists|i: int| 0 <= i < active.len() && !#[trigger] active[i] {
        if r1 < r2 {
            assert(active[r1]);
        } else if r2 < r1 {
            assert(active[r2]);
        }
    } else {
        if r1 < r2 {
            assert(ages[r2] < ages[r1]);
            assert(ages[r1] <= ages[r2]);
        } else if r2 < r1 {
            assert(ages[r1] < ages[r2]);
            assert(ages[r2] <= ages[r1]);
        }
    }
}

/// The voice a note-off releases is determined: at most one voice meets the rule.
pub proof fn lemma_release_target_unique(active: Seq<bool>, notes: Seq<u8>, ages: Seq<u64>, note: u8, r1: int, r2: int)
    requires
        is_release_target(active, notes, ages, note, r1),
        is_release_target(active, notes, ages, note, r2),
    ensures
        r1 == r2,
{
    assert(plays(active, notes, r1, note) && plays(active, notes, r2, note));
}

/// A note-off releases the most recent note-on of that note: once a note-on has
/// stamped voice `t` and `t` sounds with that note, a note-off for the note
/// picks `t`, whatever the other voices play.
pub proof fn lemma_release_picks_newest(m: AllocatorModel, t: int, active: Seq<bool>, notes: Seq<u8>, note: u8)
    requires
        m.wf(),
        0 <= t < m.ages.len(),
        m.counter < u64::MAX,
        active.len() == m.ages.len(),
        notes.len() == m.ages.len(),
        plays(active, notes, t, note),
    ensures
        is_release_target(active, notes, m.ages.update(t, (m.counter + 1) as u64), note, t),
        forall|r: int| #[trigger] is_release_target(active, notes, m.ages.update(t, (m.counter + 1) as u64), note, r)
            ==> r == t,
{
    let ages2 = m.ages.update(t, (m.counter + 1) as u64);
    assert forall|j: int| #[trigger] plays(active, notes, j, note) implies ages2[j] <= ages2[t] && (j != t ==> ages2[j] < ages2[t]) by {
        if j != t {
            assert(m.ages[j] <= m.counter);
        }
    }
    assert forall|r: int| #[trigger] is_release_target(active, notes, ages2, note, r) implies r == t by {
        lemma_release_target_unique(active, notes, ages2, note, r, t);
    }
}

/// While some voice is free, a note-on never takes a sounding voice: it takes
/// a free one, and none after the first free voice.
pub proof fn lemma_free_voice_taken_first(active: Seq<bool>, ages: Seq<u64>, i: int, r: int)
    requires
        active.len() == ages.len(),
        0 <= i < active.len(),
        !active[i],
        is_alloc_target(active, ages, r),
    ensures
        !active[r],
        r <= i,
{
    assert(!active[i]);
}

/// Voice stealing takes the least recently triggered voice: when every voice
/// sounds, no voice was stamped before the one a note-on takes.
pub proof fn lemma_steals_oldest(active: Seq<bool>, ages: Seq<u64>, r: int)
    requires
        active.len() == ages.len(),
        forall|i: int| 0 <= i < active.len() ==> #[trigger] active[i],
        is_alloc_target(active, ages, r),
    ensures
        forall|j: int| 0 <= j < ages.len() ==> ages[r] <= #[trigger] ages[j],
{
}

} // verus!
