//! Server-generated values: fresh primary keys and timestamps. Both come
//! from outside generators, so each is a trusted boundary with a contract
//! stating only what the generator's documentation promises.

use vstd::prelude::*;

verus! {

/// Relies on scru128::new_string: a freshly generated SCRU128 identifier in
/// its 25-digit canonical textual form, whose digits are 0-9 and a-z. The
/// value depends on the clock and on process state, so beyond its shape
/// nothing is promised.
#[verifier::external_body]
pub(crate) fn generate_id() -> (r: String)
    ensures
        r@.len() == 25,
        forall|i: int|
            0 <= i < 25 ==> (('0' as int) <= (#[trigger] r@[i]) as int <= ('9' as int) || ('a'
                as int) <= (r@[i] as int) <= ('z' as int)),
{
    scru128::new_string()
}

/// Relies on chrono's Local::now: the current time as seconds since the
/// Unix epoch. The value depends on the clock, so nothing is promised of it.
#[verifier::external_body]
pub(crate) fn now_timestamp() -> (r: i64) {
    chrono::Local::now().timestamp()
}

} // verus!
