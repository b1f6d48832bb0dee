//! What is taken from the time of day: new ids, and a source of chance.

use crate::text::{in_decimal, in_hexadecimal};
use std::time::{Duration, SystemTime, SystemTimeError};
use vstd::prelude::*;
use vstd::string::StringExecFns;

verus! {

/// `std::time::SystemTime`, a time of day.
#[verifier::external_type_specification]
#[verifier::external_body]
pub struct ExSystemTime(std::time::SystemTime);

/// `std::time::SystemTimeError`, for a time before the one it is measured from.
#[verifier::external_type_specification]
#[verifier::external_body]
pub struct ExSystemTimeError(std::time::SystemTimeError);

/// `SystemTime::now` reads the clock. Nothing is said of what it shows.
pub assume_specification[ SystemTime::now ]() -> (r: SystemTime)
;

/// `SystemTime::duration_since` is the time from `earlier` to `t`, or an error
/// where `earlier` is the later one. Nothing is said of how long it is.
pub assume_specification[ SystemTime::duration_since ](t: &SystemTime, earlier: SystemTime) -> (r:
    Result<Duration, SystemTimeError>)
;

/// `Duration::subsec_nanos` is what the duration holds beyond whole seconds, in
/// nanoseconds: less than a thousand million.
pub assume_specification[ Duration::subsec_nanos ](d: &Duration) -> (r: u32)
    ensures
        r < 1_000_000_000,
;

/// `Duration::as_millis` is the number of whole milliseconds. Nothing is said
/// of it.
pub assume_specification[ Duration::as_millis ](d: &Duration) -> (r: u128)
;

/// `std::time::UNIX_EPOCH`, the time that times are counted from.
#[verifier::external_body]
fn epoch() -> (r: SystemTime) {
    std::time::UNIX_EPOCH
}

/// Frames to idle before the pet does something to pass the time, by a number
/// of nanoseconds taken at random: 90 to 330, which is 16 to 60 seconds.
pub fn ticks_of(nanos: u32) -> (r: i32)
    ensures
        r == 90 + nanos as int % 241,
        90 <= r <= 330,
{
    90 + (nanos % 241) as i32
}

/// Frames to idle before the pet does something to pass the time, at random,
/// with the clock for chance.
pub fn rand_ticks() -> (r: i32)
    ensures
        90 <= r <= 330,
{
    let nanos: u32 = match SystemTime::now().duration_since(epoch()) {
        Ok(d) => d.subsec_nanos(),
        Err(_) => 0,
    };
    ticks_of(nanos)
}

/// The id made at the millisecond `millis`, the `n`th of its kind.
pub open spec fn uid_text(millis: nat, n: nat) -> Seq<char> {
    "p-"@ + crate::text::hexadecimal(millis) + "-"@ + crate::text::decimal(n)
}

/// The id made at the millisecond `millis`, the `n`th of its kind.
pub fn uid_of(millis: u128, n: u64) -> (r: String)
    ensures
        r@ == uid_text(millis as nat, n as nat),
{
    let mut id = "p-".to_owned();
    id.append(in_hexadecimal(millis).as_str());
    id.append("-");
    id.append(in_decimal(n as u128).as_str());
    id
}

/// A new id, of the time and of a count that goes up by one each time.
pub fn uid(count: &mut u64) -> (r: String)
    ensures
        exists|millis: u128| r@ == #[trigger] uid_text(millis as nat, *old(count) as nat),
        *final(count) == (if *old(count) == u64::MAX {
            0
        } else {
            *old(count) + 1
        }),
{
    let millis: u128 = match SystemTime::now().duration_since(epoch()) {
        Ok(d) => d.as_millis(),
        Err(_) => 0,
    };
    let n: u64 = *count;
    *count = n.wrapping_add(1);
    uid_of(millis, n)
}

proof fn lemma_hex_has_no_dash(n: nat, i: int)
    requires
        0 <= i < crate::text::hexadecimal(n).len(),
    ensures
        crate::text::hexadecimal(n)[i] != '-',
{
    crate::text::lemma_numeral_digits(n, 16);
    let c = crate::text::numeral(n, 16)[i];
    let d = choose|d: nat| d < 16 && c == crate::text::digit(d);
    assert(crate::text::digit(d) != '-');
}

/// Ids made at different times, or with different counts, are different.
pub proof fn uids_are_distinct(t1: nat, n1: nat, t2: nat, n2: nat)
    requires
        uid_text(t1, n1) == uid_text(t2, n2),
    ensures
        t1 == t2,
        n1 == n2,
{
    reveal_strlit("p-");
    reveal_strlit("-");
    let (h1, h2) = (crate::text::hexadecimal(t1), crate::text::hexadecimal(t2));
    let (d1, d2) = (crate::text::decimal(n1), crate::text::decimal(n2));
    let (a, b) = (uid_text(t1, n1), uid_text(t2, n2));
    assert(a[2int + h1.len()] == '-');
    assert(b[2int + h2.len()] == '-');
    if h1.len() < h2.len() {
        assert(b[2int + h1.len()] == h2[h1.len() as int]);
        lemma_hex_has_no_dash(t2, h1.len() as int);
    }
    if h2.len() < h1.len() {
        assert(a[2int + h2.len()] == h1[h2.len() as int]);
        lemma_hex_has_no_dash(t1, h2.len() as int);
    }
    assert(h1 =~= a.subrange(2, 2int + h1.len()));
    assert(h2 =~= b.subrange(2, 2int + h2.len()));
    assert(d1 =~= a.subrange(3int + h1.len(), a.len() as int));
    assert(d2 =~= b.subrange(3int + h2.len(), b.len() as int));
    crate::text::numerals_are_distinct(t1, t2, 16);
    crate::text::numerals_are_distinct(n1, n2, 10);
}

/// An id says when it was made and which of its kind it is.
pub proof fn an_id_tells_time_and_count(millis: nat, n: nat)
    ensures
        uid_text(millis, n) == "p-"@ + crate::text::hexadecimal(millis) + "-"@
            + crate::text::decimal(n),
        crate::text::value_of(crate::text::hexadecimal(millis), 16) == millis,
        crate::text::value_of(crate::text::decimal(n), 10) == n,
{
    crate::text::a_numeral_reads_as_its_number(millis, 16);
    crate::text::a_numeral_reads_as_its_number(n, 10);
}

} // verus!
