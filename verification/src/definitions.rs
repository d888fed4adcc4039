//! The member types of the data definitions.
//!
//! The records that the artifacts store are made of members, each of a type
//! that is named. A member is stored as it is if its type is fundamental; a
//! type that is not is a record of its own.

use vstd::prelude::*;
use vstd::string::StringExecFns;

verus! {

/// The name of the one fundamental member type: the single-precision number.
pub open spec fn fundamental_type_name() -> Seq<char> {
    "f32"@
}

/// Tells whether a member type is fundamental.
pub fn is_fundamental_type(ttype: &str) -> (b: bool)
    ensures
        b == (ttype@ == fundamental_type_name()),
{
    String::from_str(ttype) == String::from_str("f32")
}

} // verus!
