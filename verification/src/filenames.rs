//! Output file-name hygiene for the save helpers around the library.
use vstd::prelude::*;

use crate::text::{contains_spec, trim_spec};
use crate::text::{contains_str, trim_str};

verus! {

/// Check a user-supplied file name: a blank name falls back to the
/// default settings file, and a name holding a path separator is
/// rejected; anything else is kept, trimmed.
pub fn sanitize_filename(filename: &str) -> (r: Result<String, String>)
    ensures
        match r {
            Ok(name) => {
                &&& !contains_spec(trim_spec(filename@), "/"@)
                &&& !contains_spec(trim_spec(filename@), "\\"@)
                &&& trim_spec(filename@).len() == 0 ==> name@ == "settings.json"@
                &&& trim_spec(filename@).len() != 0 ==> name@ == trim_spec(filename@)
            },
            Err(e) => {
                &&& trim_spec(filename@).len() != 0
                &&& contains_spec(trim_spec(filename@), "/"@) || contains_spec(
                    trim_spec(filename@),
                    "\\"@,
                )
                &&& e@ == "Invalid filename"@
            },
        },
{
    let trimmed = trim_str(filename);
    if trimmed.unicode_len() == 0 {
        proof {
            reveal_strlit("/");
            reveal_strlit("\\");
            assert("/"@.len() == 1);
            assert("\\"@.len() == 1);
            assert(forall|i: int| !crate::text::match_at(trim_spec(filename@), "/"@, i));
            assert(forall|i: int| !crate::text::match_at(trim_spec(filename@), "\\"@, i));
        }
        return Ok("settings.json".to_owned());
    }
    if contains_str(trimmed, "/") || contains_str(trimmed, "\\") {
        return Err("Invalid filename".to_owned());
    }
    Ok(trimmed.to_owned())
}

} // verus!
