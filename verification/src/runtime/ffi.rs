//! Foreign function interface.
//!
//! A foreign import names a C header (and later C++ or Rust sources) whose
//! declarations become Nova bindings: `import foreign("raylib.h", lang: "c")`.
//! Loading headers is not implemented yet: every header loads, with no
//! bindings.
use vstd::prelude::*;

verus! {

/// Load the declarations of a foreign header written in language `lang`.
/// Every header loads successfully for now.
pub fn load_foreign_header(path: &str, lang: &str) -> (r: Result<(), String>)
    ensures
        r is Ok,
{
    let _ = (path, lang);
    Ok(())
}

} // verus!
