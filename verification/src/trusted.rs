//! What this crate takes on trust: one type and two calls of other crates.
//! Verus believes what is declared here and proves everything else.

use vstd::prelude::*;

verus! {

/// `uuid::Uuid`, carried through as an opaque value: nothing in this crate
/// looks inside one.
#[verifier::external_type_specification]
#[verifier::external_body]
pub struct ExUuid(uuid::Uuid);

/// `uuid::Uuid::new_v4`: a random version-4 identifier, drawn from the
/// operating system's generator.
///
/// Nothing is claimed of the value: the registry hands it on and never
/// reads it. The call panics where the operating system yields no random
/// bytes.
pub assume_specification[ uuid::Uuid::new_v4 ]() -> (id: uuid::Uuid);

/// `chrono::Utc::now().timestamp()`: the system clock's reading, in whole
/// seconds since 1970-01-01 00:00:00 UTC.
///
/// Nothing is claimed of the value, which is whatever the clock reads at the
/// moment of the call. chrono panics where the clock reads a moment before
/// 1970 or one beyond the dates it can represent.
#[verifier::external_body]
pub(crate) fn current_timestamp() -> (now: i64) {
    chrono::Utc::now().timestamp()
}

} // verus!
