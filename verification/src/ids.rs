//! Identifiers for calls, dialogs and transactions.
//!
//! Identifiers come from the clock and from randomly keyed hashers. What those
//! give is not predictable, so each identifier has two functions: one that
//! reads the clock or the hasher, and one that forms the text of a given number.

use crate::numeral::{
    decimal, decimal_string, digit_value, hex, hex_string, law_numerals_distinct, lemma_decimal,
    lemma_hex,
};
use std::collections::hash_map::{DefaultHasher, RandomState};
use std::hash::{BuildHasher, Hasher};
use std::time::{Duration, SystemTime, SystemTimeError, UNIX_EPOCH};
use vstd::prelude::*;

verus! {

broadcast use vstd::string::group_string_axioms;

/// A point in time, carried from the clock to its distance from the epoch.
#[verifier::external_type_specification]
#[verifier::external_body]
pub struct ExSystemTime(std::time::SystemTime);

/// The error of a distance that would be negative.
#[verifier::external_type_specification]
#[verifier::external_body]
pub struct ExSystemTimeError(std::time::SystemTimeError);

/// `SystemTime::now` reads the clock. Nothing is claimed of the time.
pub assume_specification[ SystemTime::now ]() -> (now: SystemTime);

/// `Duration::as_secs` gives the whole seconds. A duration is opaque, so nothing
/// is claimed of the number.
pub assume_specification[ Duration::as_secs ](d: &Duration) -> (secs: u64);

/// `Duration::subsec_nanos` gives the nanoseconds beyond the whole seconds, which
/// are less than a second. A duration is opaque, so nothing more is claimed.
pub assume_specification[ Duration::subsec_nanos ](d: &Duration) -> (nanos: u32)
    ensures
        nanos < 1000000000,
;

/// `RandomState::new` draws fresh hasher keys. Nothing is claimed of them.
pub assume_specification[ RandomState::new ]() -> (state: RandomState);

/// `SystemTime::duration_since`, from the Unix epoch. It fails for a time before
/// the epoch; a time is opaque, so nothing is claimed of which it is.
#[verifier::external_body]
fn since_epoch(time: SystemTime) -> (r: Result<Duration, SystemTimeError>)
{
    time.duration_since(UNIX_EPOCH)
}

/// `BuildHasher::build_hasher` of `RandomState`. The hasher's keys are random,
/// so nothing is claimed of it.
#[verifier::external_body]
fn hasher_of(state: &RandomState) -> (hasher: DefaultHasher)
{
    state.build_hasher()
}

/// `Hasher::write_u64` feeds a number to the hasher. What the hasher then holds
/// depends on its random keys, and nothing is claimed of it.
#[verifier::external_body]
fn feed(hasher: &mut DefaultHasher, n: u64)
{
    hasher.write_u64(n)
}

/// Whether this is a reading of the clock: the whole seconds since the Unix epoch
/// and less than a second of nanoseconds beyond them, or nothing for a time
/// before the epoch.
pub open spec fn is_clock_reading(since: Option<(u64, u32)>) -> bool {
    match since {
        Some((_, nanos)) => nanos < 1000000000,
        None => true,
    }
}

/// The nanoseconds of a clock reading; zero before the epoch.
pub open spec fn nanos_in(since: Option<(u64, u32)>) -> nat {
    match since {
        Some((secs, nanos)) => (1000000000 * secs + nanos) as nat,
        None => 0,
    }
}

/// The whole microseconds of a clock reading; zero before the epoch.
pub open spec fn micros_in(since: Option<(u64, u32)>) -> nat {
    nanos_in(since) / 1000
}

/// Counts the nanoseconds of a clock reading.
pub fn nanos_since(since: Option<(u64, u32)>) -> (nanos: u128)
    ensures
        nanos == nanos_in(since),
{
    match since {
        Some((secs, nanos)) => 1000000000 * (secs as u128) + nanos as u128,
        None => 0,
    }
}

/// Counts the whole microseconds of a clock reading.
pub fn micros_since(since: Option<(u64, u32)>) -> (micros: u128)
    ensures
        micros == micros_in(since),
{
    let nanos: u128 = nanos_since(since);
    nanos / 1000
}

/// The nanoseconds since the Unix epoch, or zero for a clock before it.
pub(crate) fn nanos_now() -> (nanos: u128)
    ensures
        exists|since: Option<(u64, u32)>|
            is_clock_reading(since) && nanos == #[trigger] nanos_in(since),
{
    let since = match since_epoch(SystemTime::now()) {
        Ok(d) => Some((d.as_secs(), d.subsec_nanos())),
        Err(_) => None,
    };
    nanos_since(since)
}

/// The microseconds since the Unix epoch, or zero for a clock before it.
fn micros_now() -> (micros: u128)
    ensures
        exists|since: Option<(u64, u32)>|
            is_clock_reading(since) && micros == #[trigger] micros_in(since),
{
    let since = match since_epoch(SystemTime::now()) {
        Ok(d) => Some((d.as_secs(), d.subsec_nanos())),
        Err(_) => None,
    };
    micros_since(since)
}

/// The hash of the present time by a freshly keyed hasher.
fn random_hash() -> (hash: u64)
{
    let state = RandomState::new();
    let mut hasher = hasher_of(&state);
    let nanos: u128 = nanos_now();
    feed(&mut hasher, #[verifier::truncate] (nanos as u64));
    hasher.finish()
}

/// The text of a call identifier: the time and the process, as numbers.
pub open spec fn call_id(micros: nat, pid: nat) -> Seq<char> {
    decimal(micros) + "-"@ + decimal(pid)
}

/// Forms the call identifier of a time and a process.
pub fn call_id_at(micros: u128, pid: u32) -> (id: String)
    ensures
        id@ == call_id(micros as nat, pid as nat),
{
    let mut id = decimal_string(micros);
    id.append("-");
    id.append(decimal_string(pid as u128).as_str());
    id
}

/// Makes the identifier of a new call of the process `pid`.
pub fn generate_call_id(pid: u32) -> (id: String)
    ensures
        exists|micros: nat| id@ == #[trigger] call_id(micros, pid as nat),
{
    let micros: u128 = micros_now();
    call_id_at(micros, pid)
}

/// The text of an identifier with a prefix, the time and the process.
pub open spec fn unique_id_text(prefix: Seq<char>, micros: nat, pid: nat) -> Seq<char> {
    prefix + "-"@ + decimal(micros) + "-"@ + decimal(pid)
}

/// Forms the identifier of a prefix, a time and a process.
pub fn unique_id_at(prefix: &str, micros: u128, pid: u32) -> (id: String)
    ensures
        id@ == unique_id_text(prefix@, micros as nat, pid as nat),
{
    let mut id = String::from_str(prefix);
    id.append("-");
    id.append(decimal_string(micros).as_str());
    id.append("-");
    id.append(decimal_string(pid as u128).as_str());
    id
}

/// Makes an identifier with a prefix for something of the process `pid`.
pub fn unique_id(prefix: &str, pid: u32) -> (id: String)
    ensures
        exists|micros: nat| id@ == #[trigger] unique_id_text(prefix@, micros, pid as nat),
{
    let micros: u128 = micros_now();
    unique_id_at(prefix, micros, pid)
}

/// Makes a dialog tag: a random number in hexadecimal.
pub fn generate_tag() -> (tag: String)
    ensures
        exists|hash: u64| tag@ == #[trigger] hex(hash as nat),
{
    let hash: u64 = random_hash();
    hex_string(hash)
}

/// The text of a branch: the magic cookie and a number in hexadecimal.
pub open spec fn branch_text(hash: nat) -> Seq<char> {
    "z9hG4bK"@ + hex(hash)
}

/// Forms the branch of a number.
pub fn branch_of(hash: u64) -> (branch: String)
    ensures
        branch@ == branch_text(hash as nat),
{
    let mut branch = String::from_str("z9hG4bK");
    branch.append(hex_string(hash).as_str());
    branch
}

/// Makes the branch of a new transaction.
pub fn generate_branch() -> (branch: String)
    ensures
        exists|hash: u64| branch@ == #[trigger] branch_text(hash as nat),
{
    let hash: u64 = random_hash();
    branch_of(hash)
}

// --- Laws ---

/// A decimal number holds no hyphen.
proof fn lemma_no_hyphen(n: nat)
    ensures
        forall|i: int| 0 <= i < decimal(n).len() ==> #[trigger] decimal(n)[i] != '-',
{
    lemma_decimal(n);
    assert forall|i: int| 0 <= i < decimal(n).len() implies #[trigger] decimal(n)[i] != '-' by {
        assert(digit_value(decimal(n)[i]) < 10);
    }
}

/// Calls of one process at different times, and of different processes, have
/// different identifiers.
pub proof fn law_call_ids_distinct(micros: nat, pid: nat, other_micros: nat, other_pid: nat)
    requires
        call_id(micros, pid) == call_id(other_micros, other_pid),
    ensures
        micros == other_micros && pid == other_pid,
{
    reveal_strlit("-");
    lemma_no_hyphen(micros);
    lemma_no_hyphen(other_micros);
    let (a, b) = (decimal(micros), decimal(other_micros));
    let (s, t) = (call_id(micros, pid), call_id(other_micros, other_pid));
    assert(s[a.len() as int] == '-' && t[b.len() as int] == '-');
    assert(a.len() == b.len()) by {
        if a.len() < b.len() {
            assert(t[a.len() as int] == b[a.len() as int]);
        } else if b.len() < a.len() {
            assert(s[b.len() as int] == a[b.len() as int]);
        }
    }
    assert(a =~= s.take(a.len() as int));
    assert(b =~= t.take(a.len() as int));
    assert(decimal(pid) =~= s.skip(a.len() as int + 1));
    assert(decimal(other_pid) =~= t.skip(a.len() as int + 1));
    law_numerals_distinct(micros, other_micros);
    law_numerals_distinct(pid, other_pid);
}

/// Things of one kind that are made at different times, or by different
/// processes, have different identifiers, and each begins with its kind.
pub proof fn law_unique_ids_distinct(
    prefix: Seq<char>,
    micros: nat,
    pid: nat,
    other_micros: nat,
    other_pid: nat,
)
    ensures
        unique_id_text(prefix, micros, pid).take(prefix.len() as int) == prefix,
        unique_id_text(prefix, micros, pid) == unique_id_text(prefix, other_micros, other_pid)
            ==> micros == other_micros && pid == other_pid,
{
    reveal_strlit("-");
    let (s, t) = (
        unique_id_text(prefix, micros, pid),
        unique_id_text(prefix, other_micros, other_pid),
    );
    let n = prefix.len() as int;
    assert(s.take(n) =~= prefix);
    assert(s.skip(n + 1) =~= call_id(micros, pid));
    assert(t.skip(n + 1) =~= call_id(other_micros, other_pid));
    if s == t {
        law_call_ids_distinct(micros, pid, other_micros, other_pid);
    }
}

/// A branch begins with the cookie by which transactions are told apart, and
/// different numbers give different branches.
pub proof fn law_branches_distinct(a: nat, b: nat)
    ensures
        branch_text(a).take(7) == "z9hG4bK"@,
        branch_text(a).len() > 7,
        branch_text(a) == branch_text(b) ==> a == b,
{
    reveal_strlit("z9hG4bK");
    lemma_hex(a);
    assert(branch_text(a).take(7) =~= "z9hG4bK"@);
    assert(branch_text(a).skip(7) =~= hex(a));
    assert(branch_text(b).skip(7) =~= hex(b));
    law_numerals_distinct(a, b);
}

/// Time goes on: a second is a thousand million nanoseconds and a million
/// microseconds, a later reading counts more nanoseconds and no fewer
/// microseconds, and a clock before the epoch counts none.
pub proof fn law_clock_goes_on(secs: u64, nanos: u32, later_secs: u64, later_nanos: u32)
    requires
        nanos < 1000000000,
        later_nanos < 1000000000,
        secs < later_secs || (secs == later_secs && nanos < later_nanos),
    ensures
        nanos_in(Some((secs, nanos))) < nanos_in(Some((later_secs, later_nanos))),
        micros_in(Some((secs, nanos))) <= micros_in(Some((later_secs, later_nanos))),
        later_secs == secs + 1 && later_nanos == nanos ==> {
            &&& nanos_in(Some((later_secs, later_nanos))) == nanos_in(Some((secs, nanos)))
                + 1000000000
            &&& micros_in(Some((later_secs, later_nanos))) == micros_in(Some((secs, nanos)))
                + 1000000
        },
        later_secs == secs && later_nanos == nanos + 1 ==> nanos_in(
            Some((later_secs, later_nanos)),
        ) == nanos_in(Some((secs, nanos))) + 1,
        nanos_in(Some((0, 0))) == 0 && nanos_in(None) == 0 && micros_in(None) == 0,
{
}

} // verus!
