//! Labels of the sync page: how long ago the last sync ran, and the badges of
//! the local sync log.

use vstd::prelude::*;
use crate::text::{concat2, decimal, digit_char, owned, str_eq};

verus! {

broadcast use vstd::string::group_string_axioms;

/// The instant that chrono's RFC 3339 parser reads from `s`, as whole Unix
/// seconds and the nanoseconds after them; `None` when it rejects `s`. Named,
/// not defined here: it is a function of the text alone.
pub uninterp spec fn rfc3339_instant(s: Seq<char>) -> Option<(int, int)>;

/// Parses an RFC 3339 timestamp into an instant.
///
/// Trusted: calls `chrono::DateTime::parse_from_rfc3339`, then reads the
/// result's `timestamp` and `timestamp_subsec_nanos`. Claimed: the result is
/// `rfc3339_instant` of the text.
#[verifier::external_body]
fn parse_rfc3339_instant(s: &str) -> (r: Option<(i64, u32)>)
    ensures
        match r {
            Some(p) => rfc3339_instant(s@) == Some((p.0 as int, p.1 as int)),
            None => rfc3339_instant(s@) is None,
        },
{
    chrono::DateTime::parse_from_rfc3339(s).ok().map(|t| (t.timestamp(), t.timestamp_subsec_nanos()))
}

/// Whether some text parses to the instant `(secs, nanos)`.
pub open spec fn parsed_instant(secs: int, nanos: int) -> bool {
    exists|s: Seq<char>| rfc3339_instant(s) == Some((secs, nanos))
}

/// The present instant, as Unix seconds and the nanoseconds after them.
///
/// Trusted: calls `chrono::Utc::now` and reads `timestamp` and
/// `timestamp_subsec_nanos`. Claimed: the nanoseconds stay below one second,
/// as `Utc::now` builds the instant from the system clock's whole seconds
/// and sub-second nanoseconds (in the browser, from a JavaScript `Date`) and
/// so never as a leap second. The instant itself is the clock's and is not
/// claimed.
#[verifier::external_body]
fn now_instant() -> (r: (i64, u32))
    ensures
        r.1 < 1_000_000_000,
{
    let now = chrono::Utc::now();
    (now.timestamp(), now.timestamp_subsec_nanos())
}

/// The offset of the machine's time zone from UTC at an instant, in seconds.
///
/// Trusted: calls `chrono::DateTime::from_timestamp`, converts with
/// `with_timezone(&chrono::Local)` and reads the offset's `local_minus_utc`.
/// Claimed: an instant that the RFC 3339 parser gave is accepted (chrono
/// documents that `from_timestamp` round-trips with `timestamp` and
/// `timestamp_subsec_nanos`), and the offset lies strictly within a day, as
/// every `FixedOffset` does. Which offset comes back depends on the time zone
/// and is not claimed.
#[verifier::external_body]
fn local_offset_at(secs: i64, nanos: u32) -> (r: Option<i32>)
    ensures
        parsed_instant(secs as int, nanos as int) ==> r is Some,
        r matches Some(o) ==> -86400 < o < 86400,
{
    chrono::DateTime::from_timestamp(secs, nanos).map(|t| t.with_timezone(&chrono::Local).offset().local_minus_utc())
}

/// `x` divided by `d` and rounded toward zero.
pub open spec fn trunc_div(x: int, d: int) -> int {
    if x >= 0 {
        x / d
    } else {
        -((-x) / d)
    }
}

/// The second of its day at which an instant of `secs` Unix seconds falls.
pub open spec fn time_of_day(secs: int) -> int {
    secs % 86400
}

/// Whole seconds from `then` to `now`, as chrono counts them
/// (`TimeDelta::num_seconds` of `now - then`): the difference with its
/// nanoseconds, a leap second (nanoseconds from one second up) counting as a
/// second more when the other instant falls later in its day, rounded toward
/// zero.
pub open spec fn seconds_between(now: (int, int), then: (int, int)) -> int {
    let adjust = if time_of_day(now.0) > time_of_day(then.0) && then.1 >= 1_000_000_000 {
        1int
    } else if time_of_day(now.0) < time_of_day(then.0) && now.1 >= 1_000_000_000 {
        -1int
    } else {
        0int
    };
    trunc_div((now.0 - then.0 + adjust) * 1_000_000_000 + now.1 - then.1, 1_000_000_000)
}

fn div_toward_zero(x: i128, d: i128) -> (r: i128)
    requires
        d > 0,
        x > i128::MIN,
    ensures
        r == trunc_div(x as int, d as int),
{
    if x >= 0 {
        x / d
    } else {
        let m = -x;
        -(m / d)
    }
}

fn day_second(x: i128) -> (r: i128)
    requires
        x > i128::MIN,
    ensures
        r == time_of_day(x as int),
        0 <= r < 86400,
{
    if x >= 0 {
        x % 86400
    } else {
        let m = (-x) % 86400;
        let q = (-x) / 86400;
        proof {
            vstd::arithmetic::div_mod::lemma_fundamental_div_mod(-x as int, 86400);
        }
        if m == 0 {
            proof {
                vstd::arithmetic::div_mod::lemma_fundamental_div_mod_converse(x as int, 86400, -q as int, 0);
            }
            0
        } else {
            proof {
                vstd::arithmetic::div_mod::lemma_fundamental_div_mod_converse(
                    x as int,
                    86400,
                    -q - 1,
                    86400 - m,
                );
            }
            86400 - m
        }
    }
}

/// The whole seconds from `then` to `now`.
fn elapsed_seconds(now_secs: i64, now_nanos: u32, then_secs: i64, then_nanos: u32) -> (r: i128)
    ensures
        r == seconds_between((now_secs as int, now_nanos as int), (then_secs as int, then_nanos as int)),
        -0x4_0000_0000_0000_0000 < r < 0x4_0000_0000_0000_0000,
{
    let tn = day_second(now_secs as i128);
    let tt = day_second(then_secs as i128);
    let adjust: i128 = if tn > tt && then_nanos >= 1_000_000_000 {
        1
    } else if tn < tt && now_nanos >= 1_000_000_000 {
        -1
    } else {
        0
    };
    let whole: i128 = now_secs as i128 - then_secs as i128 + adjust;
    let total: i128 = whole * 1_000_000_000 + now_nanos as i128 - then_nanos as i128;
    let r = div_toward_zero(total, 1_000_000_000);
    proof {
        let t = total as int;
        if t >= 0 {
            assert(t / 1_000_000_000 <= t) by (nonlinear_arith)
                requires
                    t >= 0,
            ;
            assert(t < 0x4_0000_0000_0000_0000 * 1_000_000_000);
            assert(t / 1_000_000_000 < 0x4_0000_0000_0000_0000) by (nonlinear_arith)
                requires
                    0 <= t < 0x4_0000_0000_0000_0000 * 1_000_000_000,
            ;
        } else {
            assert((-t) / 1_000_000_000 < 0x4_0000_0000_0000_0000) by (nonlinear_arith)
                requires
                    0 < -t < 0x4_0000_0000_0000_0000 * 1_000_000_000,
            ;
        }
    }
    r
}

/// How long ago something happened, from the seconds since: `just now` under
/// five seconds (and for times ahead), then seconds, minutes, hours or days.
pub open spec fn relative_text(secs: int) -> Seq<char> {
    if secs < 5 {
        "just now"@
    } else if secs < 60 {
        decimal(secs as nat) + "s ago"@
    } else if secs < 3600 {
        decimal((secs / 60) as nat) + "m ago"@
    } else if secs < 86400 {
        decimal((secs / 3600) as nat) + "h ago"@
    } else {
        decimal((secs / 86400) as nat) + "d ago"@
    }
}

fn relative_label_wide(secs: i128) -> (r: String)
    requires
        -0x4_0000_0000_0000_0000 < secs < 0x4_0000_0000_0000_0000,
    ensures
        r@ == relative_text(secs as int),
{
    if secs < 5 {
        owned("just now")
    } else if secs < 60 {
        concat2(crate::text::u64_to_decimal(secs as u64).as_str(), "s ago")
    } else if secs < 3600 {
        concat2(crate::text::u64_to_decimal((secs / 60) as u64).as_str(), "m ago")
    } else if secs < 86400 {
        concat2(crate::text::u64_to_decimal((secs / 3600) as u64).as_str(), "h ago")
    } else {
        let days = secs / 86400;
        assert(days < 0x1_0000_0000_0000_0000) by (nonlinear_arith)
            requires
                days == secs / 86400,
                86400 <= secs < 0x4_0000_0000_0000_0000,
        ;
        concat2(crate::text::u64_to_decimal(days as u64).as_str(), "d ago")
    }
}

/// How long ago the last sync ran, given the seconds since it.
pub fn relative_sync_label(secs: i64) -> (r: String)
    ensures
        r@ == relative_text(secs as int),
{
    relative_label_wide(secs as i128)
}

/// How long ago the last sync ran, from its RFC 3339 stamp, at the instant
/// `(now_secs, now_nanos)`; the stamp itself when chrono cannot read it.
pub fn last_sync_label_at(rfc: &str, now_secs: i64, now_nanos: u32) -> (r: String)
    ensures
        rfc3339_instant(rfc@) is None ==> r@ == rfc@,
        rfc3339_instant(rfc@) matches Some(p) ==> r@ == relative_text(
            seconds_between((now_secs as int, now_nanos as int), p),
        ),
{
    match parse_rfc3339_instant(rfc) {
        None => owned(rfc),
        Some(p) => relative_label_wide(elapsed_seconds(now_secs, now_nanos, p.0, p.1)),
    }
}

/// How long ago the last sync ran, from its RFC 3339 stamp, now; the stamp
/// itself when chrono cannot read it.
pub fn format_last_sync(rfc: &str) -> (r: String)
    ensures
        rfc3339_instant(rfc@) is None ==> r@ == rfc@,
        rfc3339_instant(rfc@) matches Some(p) ==> exists|now: (int, int)|
            0 <= now.1 < 1_000_000_000 && r@ == relative_text(#[trigger] seconds_between(now, p)),
{
    let now = now_instant();
    let r = last_sync_label_at(rfc, now.0, now.1);
    proof {
        if let Some(p) = rfc3339_instant(rfc@) {
            let n = (now.0 as int, now.1 as int);
            assert(r@ == relative_text(seconds_between(n, p)));
        }
    }
    r
}

/// A two-digit, zero-padded number below 100.
pub open spec fn two_digit_text(n: int) -> Seq<char> {
    seq![digit_char((n / 10) as nat), digit_char((n % 10) as nat)]
}

/// `HH:MM:SS` of the second `tod` of a day, the second shown one higher
/// during a leap second (as `%S` adds the nanoseconds' whole seconds).
pub open spec fn hms_text(tod: int, leap: bool) -> Seq<char> {
    two_digit_text(tod / 3600) + seq![':'] + two_digit_text((tod / 60) % 60) + seq![':'] + two_digit_text(
        tod % 60 + if leap {
            1int
        } else {
            0int
        },
    )
}

/// The local `HH:MM:SS` of the instant `t` at a time-zone offset of
/// `offset` seconds, as chrono's `%H:%M:%S` writes it.
pub open spec fn local_time_text(t: (int, int), offset: int) -> Seq<char> {
    hms_text(time_of_day(t.0 + offset), t.1 >= 1_000_000_000)
}

fn digit_of(d: i128) -> (c: char)
    requires
        0 <= d < 10,
    ensures
        c == digit_char(d as nat),
{
    if d == 0 {
        '0'
    } else if d == 1 {
        '1'
    } else if d == 2 {
        '2'
    } else if d == 3 {
        '3'
    } else if d == 4 {
        '4'
    } else if d == 5 {
        '5'
    } else if d == 6 {
        '6'
    } else if d == 7 {
        '7'
    } else if d == 8 {
        '8'
    } else {
        '9'
    }
}

fn push_two_digits(out: &mut Vec<char>, n: i128)
    requires
        0 <= n < 100,
    ensures
        final(out)@ == old(out)@ + two_digit_text(n as int),
{
    let ghost before = out@;
    out.push(digit_of(n / 10));
    out.push(digit_of(n % 10));
    assert(out@ =~= before + two_digit_text(n as int));
}

/// The local `HH:MM:SS` of an instant at a time-zone offset.
fn hms_of(secs: i64, nanos: u32, offset: i32) -> (r: String)
    ensures
        r@ == local_time_text((secs as int, nanos as int), offset as int),
{
    let tod = day_second(secs as i128 + offset as i128);
    let leap: i128 = if nanos >= 1_000_000_000 {
        1
    } else {
        0
    };
    let mut v: Vec<char> = Vec::new();
    push_two_digits(&mut v, tod / 3600);
    v.push(':');
    push_two_digits(&mut v, (tod / 60) % 60);
    v.push(':');
    push_two_digits(&mut v, tod % 60 + leap);
    let ghost t = (secs as int, nanos as int);
    assert(v@ =~= local_time_text(t, offset as int));
    crate::text::string_of(&v)
}

/// A log stamp as `HH:MM:SS` at a time-zone offset of `offset` seconds; the
/// stamp itself when chrono cannot read it.
pub fn local_log_time_at(rfc: &str, offset: i32) -> (r: String)
    ensures
        rfc3339_instant(rfc@) is None ==> r@ == rfc@,
        rfc3339_instant(rfc@) matches Some(p) ==> r@ == local_time_text(p, offset as int),
{
    match parse_rfc3339_instant(rfc) {
        None => owned(rfc),
        Some(p) => hms_of(p.0, p.1, offset),
    }
}

/// A log stamp as local `HH:MM:SS` in the machine's time zone; the stamp
/// itself when chrono cannot read it.
pub fn format_local_log_time(rfc: &str) -> (r: String)
    ensures
        rfc3339_instant(rfc@) is None ==> r@ == rfc@,
        rfc3339_instant(rfc@) matches Some(p) ==> exists|offset: int|
            -86400 < offset < 86400 && r@ == #[trigger] local_time_text(p, offset),
{
    match parse_rfc3339_instant(rfc) {
        None => owned(rfc),
        Some(p) => {
            assert(parsed_instant(p.0 as int, p.1 as int)) by {
                assert(rfc3339_instant(rfc@) == Some((p.0 as int, p.1 as int)));
            }
            match local_offset_at(p.0, p.1) {
                Some(o) => {
                    let r = hms_of(p.0, p.1, o);
                    assert(r@ == local_time_text((p.0 as int, p.1 as int), o as int));
                    let ghost q = rfc3339_instant(rfc@)->Some_0;
                    assert(q == (p.0 as int, p.1 as int));
                    assert(r@ == local_time_text(q, o as int));
                    r
                },
                None => owned(rfc),
            }
        },
    }
}

/// The badge class of a sync log operation.
pub open spec fn badge_class(op: Seq<char>) -> Seq<char> {
    if op == "Uploaded"@ || op == "Downloaded"@ {
        "badge badge-success badge-sm"@
    } else if op == "Updated on server"@ || op == "Updated from server"@ {
        "badge badge-info badge-sm"@
    } else if op == "Deleted"@ {
        "badge badge-error badge-sm"@
    } else if op == "SyncStart"@ {
        "badge badge-primary badge-outline badge-sm font-semibold"@
    } else if op == "SyncEnd"@ {
        "badge badge-primary badge-sm font-semibold"@
    } else {
        "badge badge-neutral badge-sm"@
    }
}

/// The badge class of a sync log operation.
pub fn local_log_badge_class(op: &str) -> (r: &'static str)
    ensures
        r@ == badge_class(op@),
{
    if str_eq(op, "Uploaded") || str_eq(op, "Downloaded") {
        "badge badge-success badge-sm"
    } else if str_eq(op, "Updated on server") || str_eq(op, "Updated from server") {
        "badge badge-info badge-sm"
    } else if str_eq(op, "Deleted") {
        "badge badge-error badge-sm"
    } else if str_eq(op, "SyncStart") {
        "badge badge-primary badge-outline badge-sm font-semibold"
    } else if str_eq(op, "SyncEnd") {
        "badge badge-primary badge-sm font-semibold"
    } else {
        "badge badge-neutral badge-sm"
    }
}

/// The label of a sync log operation: the run markers get words, every other
/// operation is shown as it is.
pub open spec fn op_label(op: Seq<char>) -> Seq<char> {
    if op == "SyncStart"@ {
        "Sync started"@
    } else if op == "SyncEnd"@ {
        "Sync completed"@
    } else {
        op
    }
}

/// The label of a sync log operation.
pub fn local_log_op_label(op: &str) -> (r: &str)
    ensures
        r@ == op_label(op@),
{
    if str_eq(op, "SyncStart") {
        "Sync started"
    } else if str_eq(op, "SyncEnd") {
        "Sync completed"
    } else {
        op
    }
}

/// The row class of a sync log entry: the run markers are tinted.
pub fn local_log_row_class(op: &str) -> (r: &'static str)
    ensures
        r@ == if op@ == "SyncStart"@ || op@ == "SyncEnd"@ {
            "bg-base-200/60 italic"@
        } else {
            ""@
        },
{
    if str_eq(op, "SyncStart") || str_eq(op, "SyncEnd") {
        "bg-base-200/60 italic"
    } else {
        ""
    }
}

/// How many rows of the local sync log the page keeps.
pub const SYNC_LOG_LIMIT: usize = 500;

/// The log after a new row arrives: the row first, then the older rows, cut
/// to the limit.
pub open spec fn with_new_row<T>(rows: Seq<T>, row: T, limit: nat) -> Seq<T> {
    let all = seq![row] + rows;
    if all.len() > limit {
        all.take(limit as int)
    } else {
        all
    }
}

/// Puts a newly logged row on top of the log, dropping the oldest rows past
/// `limit`.
pub fn prepend_log_row<T>(rows: &mut Vec<T>, row: T, limit: usize)
    ensures
        final(rows)@ == with_new_row(old(rows)@, row, limit as nat),
{
    rows.insert(0, row);
    if rows.len() > limit {
        rows.truncate(limit);
    }
}

/// The kept log never grows past the limit, and the newest row is on top.
pub proof fn lemma_log_stays_capped<T>(rows: Seq<T>, row: T, limit: nat)
    requires
        limit > 0,
    ensures
        with_new_row(rows, row, limit).len() <= limit,
        with_new_row(rows, row, limit)[0] == row,
{
}

/// The details column of a log row: the note when there is one, then
/// `path → new path` for a rename or move, nothing for the start marker, else
/// the path.
pub open spec fn details_text(
    operation: Seq<char>,
    path: Seq<char>,
    new_path: Option<Seq<char>>,
    note: Option<Seq<char>>,
) -> Seq<char> {
    match note {
        Some(n) => n,
        None => match new_path {
            Some(np) => path + " → "@ + np,
            None => if operation == "SyncStart"@ {
                Seq::empty()
            } else {
                path
            },
        },
    }
}

/// The details column of a sync log row.
pub fn log_row_details(operation: &str, path: &str, new_path: &Option<String>, note: &Option<String>) -> (r: String)
    ensures
        r@ == details_text(operation@, path@, crate::mail_model::opt_view(*new_path), crate::mail_model::opt_view(*note)),
{
    match note {
        Some(n) => n.clone(),
        None => match new_path {
            Some(np) => crate::text::concat3(path, " → ", np.as_str()),
            None => if str_eq(operation, "SyncStart") {
                String::new()
            } else {
                owned(path)
            },
        },
    }
}

/// The "last sync" figure of the sync panel: how long ago, or `never`.
pub fn last_sync_label(last_sync_at: Option<&str>) -> (r: String)
    ensures
        last_sync_at is None ==> r@ == "never"@,
        last_sync_at matches Some(s) ==> (rfc3339_instant(s@) is None ==> r@ == s@),
        last_sync_at matches Some(s) ==> (rfc3339_instant(s@) matches Some(p) ==> exists|now: (int, int)|
            0 <= now.1 < 1_000_000_000 && r@ == relative_text(#[trigger] seconds_between(now, p))),
{
    match last_sync_at {
        Some(s) => format_last_sync(s),
        None => owned("never"),
    }
}

/// The style of the error counter: red when the session had errors.
pub fn error_count_class(errors: u64) -> (r: &'static str)
    ensures
        r@ == if errors > 0 {
            "text-2xl font-semibold tabular-nums text-error"@
        } else {
            "text-2xl font-semibold tabular-nums"@
        },
{
    if errors > 0 {
        "text-2xl font-semibold tabular-nums text-error"
    } else {
        "text-2xl font-semibold tabular-nums"
    }
}

/// What the sync engine is doing.
pub enum SyncPhase {
    /// Waiting; everything is up to date.
    Idle,
    /// A sync is running.
    Syncing,
    /// The last sync failed with this message.
    Error(String),
}

/// The status line of the sync page: up to date, syncing, the engine's
/// error, or not configured when there is no status yet.
pub fn sync_status_text(phase: &Option<SyncPhase>) -> (r: String)
    ensures
        r@ == match phase {
            Some(SyncPhase::Idle) => "Up to date"@,
            Some(SyncPhase::Syncing) => "Syncing…"@,
            Some(SyncPhase::Error(m)) => m@,
            None => "Not configured"@,
        },
{
    match phase {
        Some(SyncPhase::Idle) => owned("Up to date"),
        Some(SyncPhase::Syncing) => owned("Syncing…"),
        Some(SyncPhase::Error(m)) => m.clone(),
        None => owned("Not configured"),
    }
}

/// Whether a sync is running, which keeps "Sync now" from queueing another.
pub fn sync_in_flight(phase: &Option<SyncPhase>) -> (r: bool)
    ensures
        r == (phase matches Some(SyncPhase::Syncing)),
{
    match phase {
        Some(SyncPhase::Syncing) => true,
        _ => false,
    }
}

} // verus!
