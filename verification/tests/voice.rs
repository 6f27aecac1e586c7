use daudio::voice::VoiceAllocator;

/// A pool of test voices driven by the allocator, as a voice manager drives
/// its voices: a note-on takes the allocated voice, a note-off releases the
/// voice the allocator picks, and rendering sums 1.0 per sounding voice.
struct Pool {
    alloc: VoiceAllocator,
    active: Vec<bool>,
    notes: Vec<u8>,
    sample_rates: Vec<f32>,
}

impl Pool {
    fn new(n: usize) -> Self {
        Pool { alloc: VoiceAllocator::new(n), active: vec![false; n], notes: vec![0; n], sample_rates: vec![0.0; n] }
    }
    fn note_on_with(&mut self, note: u8, configure: impl FnOnce(bool, &mut f32)) {
        let t = self.alloc.allocate(&self.active);
        configure(self.active[t], &mut self.sample_rates[t]);
        self.active[t] = true;
        self.notes[t] = note;
    }
    fn note_on(&mut self, note: u8) {
        self.note_on_with(note, |_, _| {});
    }
    fn note_off(&mut self, note: u8) {
        if let Some(i) = self.alloc.release_target(&self.active, &self.notes, note) {
            self.active[i] = false;
        }
    }
    fn render(&self) -> f32 {
        self.active.iter().filter(|a| **a).map(|_| 1.0f32).sum()
    }
    fn active_notes(&self) -> Vec<u8> {
        (0..self.active.len()).filter(|&i| self.active[i]).map(|i| self.notes[i]).collect()
    }
}

#[test]
fn note_on_activates_one() {
    let mut m = Pool::new(8);
    m.note_on(60);
    assert_eq!(m.active_notes().len(), 1);
    assert_eq!(m.active_notes()[0], 60);
    assert_eq!(m.render(), 1.0);
}

#[test]
fn note_off_releases_note() {
    let mut m = Pool::new(8);
    m.note_on(60);
    m.note_off(60);
    assert_eq!(m.active_notes().len(), 0);
    assert_eq!(m.render(), 0.0);
}

#[test]
fn polyphony_sums() {
    let mut m = Pool::new(8);
    m.note_on(60);
    m.note_on(64);
    assert_eq!(m.active_notes().len(), 2);
    assert_eq!(m.render(), 2.0);
}

#[test]
fn note_on_with_configures_before_trigger() {
    let mut m = Pool::new(4);
    let mut configured_active_at_call = true;
    m.note_on_with(72, |active, sr| {
        configured_active_at_call = active;
        *sr = 96_000.0;
    });
    assert!(!configured_active_at_call, "configure closure ran after note_on");
    let i = (0..4).find(|&i| m.active[i]).unwrap();
    assert_eq!(m.notes[i], 72, "voice not triggered with the note");
    assert_eq!(m.sample_rates[i], 96_000.0, "configure closure did not apply");
}

#[test]
fn steals_oldest_when_full() {
    let mut m = Pool::new(2);
    m.note_on(60);
    m.note_on(64);
    m.note_on(67);
    let notes = m.active_notes();
    assert!(notes.len() <= 2);
    assert!(!notes.contains(&60), "oldest note 60 should have been stolen");
    assert!(notes.contains(&67), "newest note 67 should be present");
}

#[test]
fn free_voice_is_taken_first() {
    let mut a = VoiceAllocator::new(3);
    assert_eq!(a.allocate(&vec![true, false, false]), 1);
    assert_eq!(a.allocate(&vec![false, true, false]), 0);
    assert_eq!(a.counter(), 2);
}

#[test]
fn stealing_takes_the_first_of_equally_old_voices() {
    let mut a = VoiceAllocator::new(3);
    // Never-stamped voices are all equally old: the first one is stolen.
    assert_eq!(a.allocate(&vec![true, true, true]), 0);
    // Now voice 0 is the newest; voice 1 is the first of the oldest.
    assert_eq!(a.allocate(&vec![true, true, true]), 1);
    assert_eq!(a.allocate(&vec![true, true, true]), 2);
    assert_eq!(a.allocate(&vec![true, true, true]), 0);
}

#[test]
fn note_off_releases_the_newest_of_repeated_notes() {
    let mut m = Pool::new(4);
    m.note_on(60);
    m.note_on(60);
    let newest = 1;
    assert_eq!(m.alloc.release_target(&m.active, &m.notes, 60), Some(newest));
    m.note_off(60);
    assert!(m.active[0] && !m.active[1]);
    assert_eq!(m.alloc.release_target(&m.active, &m.notes, 61), None);
}

#[test]
fn reset_forgets_every_stamp() {
    let mut a = VoiceAllocator::new(2);
    a.allocate(&vec![false, false]);
    a.allocate(&vec![true, false]);
    a.reset();
    assert_eq!(a.counter(), 0);
    assert_eq!(a.len(), 2);
    assert_eq!(a.allocate(&vec![true, true]), 0);
}
