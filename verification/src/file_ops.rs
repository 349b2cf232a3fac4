//! A strict file-type filter: extension membership compared exactly.

use vstd::prelude::*;
use crate::paths::{ext_part, file_name_part, spec_allowed_exact};
use crate::text::{str_eq_chars, str_to_chars};

verus! {

/// Whether the file at `path` should be processed: true exactly when the
/// path has an extension that equals, character for character, one of the
/// given file types.  A path without an extension — or an empty type list —
/// lets nothing through.
pub fn should_process_file(path: &str, file_types: &Vec<String>) -> (r: bool)
    ensures
        r == spec_allowed_exact(path@, file_types@.map_values(|s: String| s@)),
{
    let ghost types = file_types@.map_values(|s: String| s@);
    let chars = str_to_chars(path);
    let name = file_name_part(&chars);
    match ext_part(&name) {
        None => false,
        Some(e) => {
            let mut i: usize = 0;
            while i < file_types.len()
                invariant
                    i <= file_types@.len(),
                    types == file_types@.map_values(|s: String| s@),
                    crate::paths::ext_of(crate::paths::file_name_of(path@)) is Some,
                    e@ == crate::paths::ext_of(crate::paths::file_name_of(path@))->Some_0,
                    forall|k: int| 0 <= k < i ==> types[k] != e@,
                decreases file_types.len() - i,
            {
                if str_eq_chars(file_types[i].as_str(), &e) {
                    assert(types[i as int] == e@);
                    assert(exists|k: int|
                        0 <= k < types.len() && types[k] == crate::paths::ext_of(
                            crate::paths::file_name_of(path@),
                        )->Some_0) by {
                        assert(types[i as int] == crate::paths::ext_of(
                            crate::paths::file_name_of(path@),
                        )->Some_0);
                    }
                    return true;
                }
                i = i + 1;
            }
            false
        },
    }
}

} // verus!
