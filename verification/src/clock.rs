use vstd::prelude::*;

verus! {

/// Relies on chrono::Utc::now (timestamp): the current moment as seconds
/// since the unix epoch. A clock reading promises nothing about its value.
#[verifier::external_body]
fn now_unix_seconds() -> (r: i64) {
    chrono::Utc::now().timestamp()
}

/// The current time as an unsigned timestamp; moments before the epoch
/// (a badly set clock) collapse to 0.
pub fn current_unix_time() -> (r: u64) {
    let t = now_unix_seconds();
    if t < 0 {
        0
    } else {
        t as u64
    }
}

} // verus!
