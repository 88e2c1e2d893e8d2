use vstd::prelude::*;
use rand::Rng;

verus! {

/// Relies on chrono's `Utc::now().timestamp()`: seconds since the Unix
/// epoch. The value depends on the wall clock, so nothing is promised of
/// it; callers bound it themselves before doing arithmetic on it.
#[verifier::external_body]
pub(crate) fn now_seconds() -> i64 {
    chrono::Utc::now().timestamp()
}

/// Relies on chrono's `Utc::now().timestamp_millis()`: milliseconds since
/// the Unix epoch, with the same caveat as `now_seconds`.
#[verifier::external_body]
pub(crate) fn now_millis() -> i64 {
    chrono::Utc::now().timestamp_millis()
}

/// Relies on rand's `gen_range` over `0..n`: a uniformly drawn index below
/// `n`. `gen_range` panics on an empty range, so `n` must be positive.
#[verifier::external_body]
pub(crate) fn random_below(n: usize) -> (r: usize)
    requires
        n >= 1,
    ensures
        r < n,
{
    rand::thread_rng().gen_range(0..n)
}

/// Relies on uuid's `new_v4` and its `Display`: the hyphenated textual
/// form of a UUID is exactly 36 characters. The value is random.
#[verifier::external_body]
pub(crate) fn new_uuid() -> (r: String)
    ensures
        r@.len() == 36,
{
    uuid::Uuid::new_v4().to_string()
}

/// What `str::trim` returns for a given sequence of characters.
pub uninterp spec fn trim_of(s: Seq<char>) -> Seq<char>;

/// Relies on `str::trim`: strips leading and trailing whitespace,
/// returning a subslice of the input; the result depends on the
/// characters alone.
#[verifier::external_body]
pub(crate) fn trim(s: &String) -> (r: &str)
    ensures
        r@ == trim_of(s@),
        r@.len() <= s@.len(),
{
    s.trim()
}

/// What `str::to_lowercase` returns for a given sequence of characters.
pub uninterp spec fn lower_of(s: Seq<char>) -> Seq<char>;

/// Relies on `str::to_lowercase`: the result depends on the characters
/// alone, and an empty string stays empty.
#[verifier::external_body]
pub(crate) fn to_lowercase(s: &String) -> (r: String)
    ensures
        r@ == lower_of(s@),
        s@.len() == 0 ==> r@.len() == 0,
{
    s.as_str().to_lowercase()
}

} // verus!
