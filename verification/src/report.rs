//! What a run reports: counts of pages and links, progress of the downloads,
//! and log lines stamped with the time of day.

use vstd::prelude::*;
use vstd::string::StringExecFns;
use crate::download::DownloadTarget;
use crate::text::{
    concatenate, decimal, digit_char, digit_exec, digit_value, digits_value, is_digit, pad_right,
    push_char, spec_decimal, spec_pad_right,
};

verus! {

/// `found <n> pages`.
pub open spec fn spec_pages_found(n: nat) -> Seq<char> {
    "found "@ + spec_decimal(n) + " pages"@
}

/// `found <d> downloads and <m> invalid links`.
pub open spec fn spec_links_found(downloads: nat, misses: nat) -> Seq<char> {
    "found "@ + spec_decimal(downloads) + " downloads and "@ + spec_decimal(misses)
        + " invalid links"@
}

/// `Prepare downloading for <n> <kind>`.
pub open spec fn spec_prepare(count: nat, target: DownloadTarget) -> Seq<char> {
    "Prepare downloading for "@ + spec_decimal(count) + " "@ + target.spec_kind()
}

/// `Finished download <kind:> <done> of <total>`, the kind and its colon padded
/// to eight characters.
pub open spec fn spec_progress(target: DownloadTarget, done: nat, total: nat) -> Seq<char> {
    "Finished download "@ + spec_pad_right(target.spec_kind() + ":"@, 8) + " "@ + spec_decimal(done)
        + " of "@ + spec_decimal(total)
}

/// `[<clock>]: <message>`.
pub open spec fn spec_log_line(clock: Seq<char>, message: Seq<char>) -> Seq<char> {
    "["@ + clock + "]: "@ + message
}

/// A time of day as `HH:MM`: two digits of hour below 24, a colon, two digits
/// of minute below 60.
pub open spec fn is_clock_reading(s: Seq<char>) -> bool {
    &&& s.len() == 5
    &&& is_digit(s[0])
    &&& is_digit(s[1])
    &&& s[2] == ':'
    &&& is_digit(s[3])
    &&& is_digit(s[4])
    &&& digits_value(s.subrange(0, 2)) < 24
    &&& digits_value(s.subrange(3, 5)) < 60
}

/// The report that `n` item pages were listed.
pub fn pages_found_message(n: usize) -> (res: String)
    ensures
        res@ == spec_pages_found(n as nat),
{
    let count = decimal(n);
    let mut res = concatenate("found ", count.as_str());
    res.append(" pages");
    res
}

/// The report of how many downloads and pages without a usable link were found.
pub fn links_found_message(downloads: usize, misses: usize) -> (res: String)
    ensures
        res@ == spec_links_found(downloads as nat, misses as nat),
{
    let d = decimal(downloads);
    let m = decimal(misses);
    let mut res = concatenate("found ", d.as_str());
    res.append(" downloads and ");
    res.append(m.as_str());
    res.append(" invalid links");
    res
}

/// The report that `count` downloads of `target` are about to start.
pub fn prepare_message(count: usize, target: DownloadTarget) -> (res: String)
    ensures
        res@ == spec_prepare(count as nat, target),
{
    let c = decimal(count);
    let kind = target.kind();
    let mut res = concatenate("Prepare downloading for ", c.as_str());
    res.append(" ");
    res.append(kind.as_str());
    res
}

/// The report that the `done`-th of `total` downloads of `target` finished.
pub fn progress_message(target: DownloadTarget, done: usize, total: usize) -> (res: String)
    ensures
        res@ == spec_progress(target, done as nat, total as nat),
{
    let kind = target.kind();
    let label = concatenate(kind.as_str(), ":");
    let padded = pad_right(label.as_str(), 8);
    let d = decimal(done);
    let t = decimal(total);
    let mut res = concatenate("Finished download ", padded.as_str());
    res.append(" ");
    res.append(d.as_str());
    res.append(" of ");
    res.append(t.as_str());
    res
}

/// A log line: the message behind the time of day in brackets.
pub fn log_line(clock: &str, message: &str) -> (res: String)
    ensures
        res@ == spec_log_line(clock@, message@),
{
    let mut res = concatenate("[", clock);
    res.append("]: ");
    res.append(message);
    res
}

/// Two decimal digits for `n` below 100, with a leading zero below 10.
pub open spec fn two_digits(n: nat) -> Seq<char> {
    seq![digit_char(n / 10), digit_char(n % 10)]
}

/// The UTC time of day, as `HH:MM`, at `seconds` seconds after the Unix epoch:
/// the hour is the count of whole hours modulo 24, the minute the count of
/// whole minutes modulo 60, each written with two digits.
pub open spec fn spec_clock(seconds: nat) -> Seq<char> {
    two_digits((seconds / 3600) % 24) + seq![':'] + two_digits((seconds / 60) % 60)
}

/// The UTC time of day at `seconds` seconds after the Unix epoch, as `HH:MM`.
pub fn clock_reading(seconds: u64) -> (res: String)
    ensures
        res@ == spec_clock(seconds as nat),
{
    let hour: u64 = (seconds / 3600) % 24;
    let minute: u64 = (seconds / 60) % 60;
    let mut res = String::new();
    push_char(&mut res, digit_exec((hour / 10) as usize));
    push_char(&mut res, digit_exec((hour % 10) as usize));
    push_char(&mut res, ':');
    push_char(&mut res, digit_exec((minute / 10) as usize));
    push_char(&mut res, digit_exec((minute % 10) as usize));
    assert(res@ =~= spec_clock(seconds as nat));
    res
}

/// A clock reading is a well-formed `HH:MM`: digits around a colon, an hour
/// below 24 and a minute below 60, which read back as the hour and minute.
pub proof fn lemma_clock_reading_shape(seconds: nat)
    ensures
        is_clock_reading(spec_clock(seconds)),
        digits_value(spec_clock(seconds).subrange(0, 2)) == (seconds / 3600) % 24,
        digits_value(spec_clock(seconds).subrange(3, 5)) == (seconds / 60) % 60,
{
    let h: nat = (seconds / 3600) % 24;
    let m: nat = (seconds / 60) % 60;
    let c = spec_clock(seconds);
    lemma_two_digits(h);
    lemma_two_digits(m);
    assert(c.subrange(0, 2) =~= two_digits(h));
    assert(c.subrange(3, 5) =~= two_digits(m));
}

proof fn lemma_two_digits(n: nat)
    requires
        n < 100,
    ensures
        is_digit(two_digits(n)[0]),
        is_digit(two_digits(n)[1]),
        digits_value(two_digits(n)) == n,
{
    let t = two_digits(n);
    assert(t.drop_last() =~= seq![digit_char(n / 10)]);
    assert(t.drop_last().drop_last() =~= Seq::<char>::empty());
    assert(digit_value(digit_char(n / 10)) == n / 10);
    assert(digit_value(digit_char(n % 10)) == n % 10);
    assert(digits_value(t.drop_last()) == digits_value(t.drop_last().drop_last()) * 10
        + digit_value(digit_char(n / 10)));
}

/// A log line for `message` stamped with the UTC time of day at `seconds`
/// seconds after the Unix epoch.
pub fn stamped_line(seconds: u64, message: &str) -> (res: String)
    ensures
        res@ == spec_log_line(spec_clock(seconds as nat), message@),
{
    let clock = clock_reading(seconds);
    log_line(clock.as_str(), message)
}

/// A reading of the system clock, std's `std::time::SystemTime`.
#[verifier::external_type_specification]
#[verifier::external_body]
pub struct ExSystemTime(std::time::SystemTime);

/// Reads the system clock with std's `SystemTime::now`. Nothing is claimed of
/// the reading: it depends on the clock.
#[verifier::external_body]
fn system_now() -> (res: std::time::SystemTime) {
    std::time::SystemTime::now()
}

/// The time from the Unix epoch to `time`, with std's
/// `SystemTime::duration_since(UNIX_EPOCH)`; `None` when `time` lies before
/// the epoch (std's error). Nothing is claimed of the length: the clock's
/// readings are opaque here.
#[verifier::external_body]
fn since_unix_epoch(time: &std::time::SystemTime) -> (res: Option<std::time::Duration>) {
    match time.duration_since(std::time::UNIX_EPOCH) {
        Ok(elapsed) => Some(elapsed),
        Err(_) => None,
    }
}

/// The whole seconds of `elapsed`, with std's `Duration::as_secs`. Nothing is
/// claimed of the number: durations are opaque here.
#[verifier::external_body]
fn whole_seconds(elapsed: &std::time::Duration) -> (res: u64) {
    elapsed.as_secs()
}

/// A log line for `message`, stamped with the current UTC time of day; `None`
/// when the system clock reads before the Unix epoch.
pub fn log_message(message: &str) -> (res: Option<String>)
    ensures
        res matches Some(line) ==> exists|seconds: nat|
            line@ == spec_log_line(spec_clock(seconds), message@),
{
    let now = system_now();
    match since_unix_epoch(&now) {
        Some(elapsed) => Some(stamped_line(whole_seconds(&elapsed), message)),
        None => None,
    }
}

} // verus!
