//! The configured alert sound: which path to try. Opening and playing the
//! file happen in the program around the library.
use vstd::prelude::*;
use crate::text::{trim, trimmed};

verus! {

/// The path text to try for the alert sound: the configured path, trimmed,
/// unless it is missing or blank.
pub open spec fn sound_path_text(configured: Option<Seq<char>>) -> Option<Seq<char>> {
    match configured {
        Some(p) => if trim(p).len() > 0 {
            Some(trim(p))
        } else {
            None
        },
        None => None,
    }
}

/// Resolve a configured custom sound path (empty / missing → None). The
/// caller keeps the result only when it names an existing file.
pub fn custom_sound_path(configured: &Option<String>) -> (r: Option<String>)
    ensures
        match r {
            Some(p) => sound_path_text(match configured {
                Some(c) => Some(c@),
                None => None,
            }) == Some(p@),
            None => sound_path_text(match configured {
                Some(c) => Some(c@),
                None => None,
            }) is None,
        },
{
    match configured {
        Some(c) => {
            let t = trimmed(c.as_str());
            if t.as_str().is_empty() {
                None
            } else {
                Some(t)
            }
        },
        None => None,
    }
}

} // verus!
