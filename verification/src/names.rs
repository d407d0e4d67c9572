//! Logical asset names.
//!
//! Configuration records refer to assets by file name; registries key their
//! entries by the logical name, which is the file name with its final
//! extension stripped.

use vstd::prelude::*;

verus! {

/// `d` starts a final extension of `s`: a `'.'` followed by at least one
/// character, none of which is a `'.'`.
pub open spec fn ext_start(s: Seq<char>, d: int) -> bool {
    &&& 0 <= d < s.len() - 1
    &&& s[d] == '.'
    &&& forall|j: int| d < j < s.len() ==> s[j] != '.'
}

/// The file name with its final extension stripped: everything before the
/// last `'.'`, provided that dot is followed by at least one character and
/// no further dot.  Any other name is left unchanged.
pub open spec fn trim_extension_spec(s: Seq<char>) -> Seq<char> {
    if exists|d: int| ext_start(s, d) {
        s.take(choose|d: int| ext_start(s, d))
    } else {
        s
    }
}

/// Relies on `regex::Regex::replace` with the pattern `\.[^.]+$` (whose
/// compilation cannot fail): the only possible match starts at the last dot,
/// provided at least one character and no further dot follows it, and
/// replacing that match by the empty string leaves exactly the name's prefix
/// before that dot; a name without such a match is returned unchanged.
#[verifier::external_body]
pub fn trim_extension(s: &str) -> (r: String)
    ensures
        r@ == trim_extension_spec(s@),
{
    regex::Regex::new("\\.[^.]+$").unwrap().replace(s, "").into_owned()
}

} // verus!
