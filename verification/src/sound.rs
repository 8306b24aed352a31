//! The client's record of the sounds it has started.
use vstd::prelude::*;
use std::collections::HashMap;
use crate::audio::SoundId;

verus! {

#[derive(Debug)]
pub struct SoundManager {
    active: HashMap<(u16, u8), SoundId>,
    static_started: usize,
}

impl SoundManager {
    /// A manager that has started nothing.
    pub fn new() -> (r: Self)
        ensures
            r.started_statics() == 0,
            r.active_sounds().len() == 0,
    {
        SoundManager { active: HashMap::new(), static_started: 0 }
    }

    /// How many static sounds have been started.
    pub closed spec fn started_statics(&self) -> nat {
        self.static_started as nat
    }

    /// The sounds playing, by entity and channel.
    pub closed spec fn active_sounds(&self) -> Map<(u16, u8), SoundId> {
        self.active@
    }
}

/// The name of sound `sound_num` in the client's sound list, where the list
/// has one and it is not empty.
pub fn sound_name_for(sound_names: &[String], sound_num: u8) -> (r: Option<&str>)
    ensures
        match r {
            Some(name) => (sound_num as int) < sound_names@.len()
                && name@ == sound_names@[sound_num as int]@
                && name@.len() > 0,
            None => (sound_num as int) >= sound_names@.len()
                || sound_names@[sound_num as int]@.len() == 0,
        },
{
    let index = sound_num as usize;
    if index >= sound_names.len() {
        return None;
    }
    let name = sound_names[index].as_str();
    if name.is_empty() {
        return None;
    }
    Some(name)
}

} // verus!
