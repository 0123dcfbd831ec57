//! What loading the settings keeps of the custom sound path. Reading,
//! parsing and writing the settings file happen in the program around the
//! library.
use vstd::prelude::*;
use crate::text::{trim, trimmed};

verus! {

/// A saved custom sound path is dropped when it is blank, else kept as written.
pub open spec fn kept_sound_path(saved: Option<Seq<char>>) -> Option<Seq<char>> {
    match saved {
        Some(p) => if trim(p).len() == 0 {
            None
        } else {
            Some(p)
        },
        None => None,
    }
}

/// The custom sound path as loaded settings keep it.
pub fn normalized_sound_path(saved: Option<String>) -> (r: Option<String>)
    ensures
        match r {
            Some(p) => kept_sound_path(match saved {
                Some(c) => Some(c@),
                None => None,
            }) == Some(p@),
            None => kept_sound_path(match saved {
                Some(c) => Some(c@),
                None => None,
            }) is None,
        },
{
    match saved {
        Some(p) => {
            let t = trimmed(p.as_str());
            if t.as_str().is_empty() {
                None
            } else {
                Some(p)
            }
        },
        None => None,
    }
}

} // verus!
