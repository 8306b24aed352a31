//! The audio system's bookkeeping: its configuration, whether it runs,
//! and the ids it hands out for sounds.
use vstd::prelude::*;

verus! {

#[derive(Debug, Clone, Copy, PartialEq, Eq, Structural)]
pub struct AudioConfig {
    pub sample_rate: u32,
    pub channels: u16,
    pub buffer_size: usize,
}

impl Default for AudioConfig {
    /// 44.1 kHz stereo with 1024-frame buffers.
    fn default() -> (r: Self)
        ensures
            r == (AudioConfig { sample_rate: 44_100, channels: 2, buffer_size: 1024 }),
    {
        AudioConfig { sample_rate: 44_100, channels: 2, buffer_size: 1024 }
    }
}

#[derive(Debug, Clone, Copy, PartialEq, Eq, Hash, Structural)]
pub struct SoundId(pub u32);

#[derive(Debug)]
pub struct AudioSystem {
    config: AudioConfig,
    running: bool,
    next_id: u32,
}

/// What an audio system holds.
pub struct AudioView {
    pub config: AudioConfig,
    pub running: bool,
    pub next_id: u32,
}

impl View for AudioSystem {
    type V = AudioView;

    closed spec fn view(&self) -> AudioView {
        AudioView { config: self.config, running: self.running, next_id: self.next_id }
    }
}

/// The id after `id`, wrapping around past the largest.
pub open spec fn next_sound_id(id: u32) -> u32 {
    if id == u32::MAX { 0 } else { (id + 1) as u32 }
}

impl AudioSystem {
    /// A running system whose first sound gets id 1.
    pub fn new(config: AudioConfig) -> (r: Self)
        ensures
            r@ == (AudioView { config, running: true, next_id: 1 }),
    {
        AudioSystem { config, running: true, next_id: 1 }
    }

    pub fn config(&self) -> (r: AudioConfig)
        ensures
            r == self@.config,
    {
        self.config
    }

    pub fn is_running(&self) -> (r: bool)
        ensures
            r == self@.running,
    {
        self.running
    }

    /// Starts a sound and gives its id: the next id in turn.
    pub fn play_sound(&mut self) -> (r: SoundId)
        ensures
            r == SoundId(old(self)@.next_id),
            final(self)@ == (AudioView { next_id: next_sound_id(old(self)@.next_id), ..old(self)@ }),
    {
        let id = SoundId(self.next_id);
        self.next_id = self.next_id.wrapping_add(1);
        id
    }

    pub fn stop(&mut self)
        ensures
            final(self)@ == (AudioView { running: false, ..old(self)@ }),
    {
        self.running = false;
    }
}

/// Sounds started one after another get different ids, as long as fewer
/// than 2^32 of them are started.
pub proof fn law_sound_ids_distinct(first: u32, n: nat, m: nat)
    requires
        n < m < 0x1_0000_0000,
    ensures
        ids_after(first, n) != ids_after(first, m),
{
    lemma_ids_after(first, n);
    lemma_ids_after(first, m);
}

/// The id handed out after `n` earlier sounds, starting from `first`.
pub open spec fn ids_after(first: u32, n: nat) -> u32
    decreases n,
{
    if n == 0 { first } else { next_sound_id(ids_after(first, (n - 1) as nat)) }
}

proof fn lemma_ids_after(first: u32, n: nat)
    ensures
        ids_after(first, n) as int == (first + n) % 0x1_0000_0000,
    decreases n,
{
    if n > 0 {
        lemma_ids_after(first, (n - 1) as nat);
    }
}

} // verus!
