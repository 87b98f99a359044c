//! The decisions and the arithmetic of a load test run: what a call result
//! records, how results are classified and totalled, what each periodic
//! report shows, how calls are paced, when a scheduled run starts, and the
//! headers that each request carries.
use vstd::prelude::*;
use crate::cputime::ProcPidStats;
use crate::duration::{Duration, Timestamp, MAX_NANOS};
use crate::siegeurls::Method;
use crate::text::{
    bool_text, chars_of, decimal, eq_ignoring_ascii_case, find_char, matches_ignoring_ascii_case,
    push_bool, push_char, push_decimal, push_signed_decimal, push_str, signed_decimal, split_once_by,
    is_char, string_of, trim, trim_bounds,
};

verus! {

broadcast use vstd::string::group_string_axioms;

/// One call's result, as the results log records it.
// useful jmeter values:
// "timeStamp","elapsed","label","responseCode","threadName","success","bytes","allThreads"
#[derive(Debug)]
pub struct Sample {
    pub timestamp: Timestamp,
    pub elapsed: Duration,
    pub success: bool,
    pub response_code: String,
    pub bytes_up: u64,
    pub bytes_down: u64,
    pub method: String,
    pub url: String,
    pub thread: usize,
    pub threads: usize,
}

/// Whether an HTTP status means success: 200 to 299.
pub open spec fn is_success(status: u16) -> bool {
    200 <= status < 300
}

pub open spec fn comma() -> Seq<char> {
    seq![',']
}

/// The line that the results log holds for a sample: its fields in decimal
/// and text, separated by commas, the elapsed time in whole milliseconds.
pub open spec fn sample_line(s: Sample) -> Seq<char> {
    signed_decimal(s.timestamp.millis as int) + comma() + decimal(s.elapsed@ / 1_000_000) + comma()
        + bool_text(s.success) + comma() + s.response_code@ + comma() + decimal(s.bytes_up as nat)
        + comma() + decimal(s.bytes_down as nat) + comma() + s.method@ + comma() + s.url@ + comma()
        + decimal(s.thread as nat) + comma() + decimal(s.threads as nat)
}

pub open spec fn conn_error_code() -> Seq<char> {
    seq!['c', 'o', 'n', 'n', '_', 'e', 'r', 'r', 'o', 'r']
}

impl Sample {
    /// The result of a call that got a response with HTTP status `status`.
    pub fn from_response(
        timestamp: Timestamp,
        elapsed: Duration,
        status: u16,
        bytes_sent: u64,
        bytes_received: u64,
        method: &Method,
        url: &str,
        thread: usize,
        threads: usize,
    ) -> (s: Sample)
        requires
            100 <= status <= 999,
        ensures
            s.timestamp == timestamp,
            s.elapsed@ == elapsed@,
            s.success == is_success(status),
            s.response_code@ == decimal(status as nat),
            s.bytes_up == bytes_sent,
            s.bytes_down == bytes_received,
            s.method@ == method@,
            s.url@ == url@,
            s.thread == thread,
            s.threads == threads,
    {
        let mut code = String::new();
        push_decimal(&mut code, status as u128);
        Sample {
            timestamp,
            elapsed,
            success: 200 <= status && status < 300,
            response_code: code,
            bytes_up: bytes_sent,
            bytes_down: bytes_received,
            method: method.as_str().to_owned(),
            url: url.to_owned(),
            thread,
            threads,
        }
    }

    /// The result of a call that got no response.
    pub fn connection_error(
        timestamp: Timestamp,
        elapsed: Duration,
        method: &Method,
        url: &str,
        thread: usize,
        threads: usize,
    ) -> (s: Sample)
        ensures
            s.timestamp == timestamp,
            s.elapsed@ == elapsed@,
            !s.success,
            s.response_code@ == conn_error_code(),
            s.bytes_up == 0,
            s.bytes_down == 0,
            s.method@ == method@,
            s.url@ == url@,
            s.thread == thread,
            s.threads == threads,
    {
        let code = "conn_error";
        proof {
            reveal_strlit("conn_error");
            assert(code@ =~= conn_error_code());
        }
        Sample {
            timestamp,
            elapsed,
            success: false,
            response_code: code.to_owned(),
            bytes_up: 0,
            bytes_down: 0,
            method: method.as_str().to_owned(),
            url: url.to_owned(),
            thread,
            threads,
        }
    }

    /// The sample that tells the logger that no more results come: its
    /// elapsed time is the longest span that can be held.
    pub fn end_marker() -> (s: Sample)
        ensures
            s.timestamp == (Timestamp { millis: 12 }),
            s.elapsed@ == MAX_NANOS,
            s.success,
            s.response_code@ == seq!['_', '_', 'E', 'N', 'D', '_', '_'],
            s.bytes_up == 12344321,
            s.bytes_down == 12344321,
            s.method@ == seq!['G', 'E', 'T'],
            s.url@ == seq!['h', 'm', 'm'],
            s.thread == 0,
            s.threads == 0,
    {
        let code = "__END__";
        let method = "GET";
        let url = "hmm";
        proof {
            reveal_strlit("__END__");
            reveal_strlit("GET");
            reveal_strlit("hmm");
        }
        Sample {
            timestamp: Timestamp { millis: 12 },
            elapsed: Duration::max_value(),
            success: true,
            response_code: code.to_owned(),
            bytes_up: 12344321,
            bytes_down: 12344321,
            method: method.to_owned(),
            url: url.to_owned(),
            thread: 0,
            threads: 0,
        }
    }

    /// Whether this sample tells the logger to stop.
    pub fn is_end_marker(&self) -> (b: bool)
        ensures
            b == (self.elapsed@ == MAX_NANOS),
    {
        let max = Duration::max_value();
        self.elapsed.le(&max) && max.le(&self.elapsed)
    }

    /// The elapsed time in whole milliseconds, taken modulo 2^64 as the cast
    /// to `u64` does.
    pub fn elapsed_millis(&self) -> (m: u64)
        ensures
            m == (self.elapsed@ / 1_000_000) as u64,
    {
        self.elapsed.as_millis() as u64
    }

    /// The line of the results log for this sample.
    pub fn to_line(&self) -> (line: String)
        ensures
            line@ == sample_line(*self),
    {
        let mut s = String::new();
        push_signed_decimal(&mut s, self.timestamp.millis);
        push_char(&mut s, ',');
        push_decimal(&mut s, self.elapsed.as_millis());
        push_char(&mut s, ',');
        push_bool(&mut s, self.success);
        push_char(&mut s, ',');
        push_str(&mut s, self.response_code.as_str());
        push_char(&mut s, ',');
        push_decimal(&mut s, self.bytes_up as u128);
        push_char(&mut s, ',');
        push_decimal(&mut s, self.bytes_down as u128);
        push_char(&mut s, ',');
        push_str(&mut s, self.method.as_str());
        push_char(&mut s, ',');
        push_str(&mut s, self.url.as_str());
        push_char(&mut s, ',');
        push_decimal(&mut s, self.thread as u128);
        push_char(&mut s, ',');
        push_decimal(&mut s, self.threads as u128);
        assert(s@ =~= sample_line(*self));
        s
    }
}

/// The kind of a call result, by its response code.
#[derive(Clone, Copy, Debug, PartialEq, Eq, Structural)]
pub enum Outcome {
    Success,
    ClientFail,
    ServerFail,
    ConnError,
}

/// The kind of a result with the given response code: a code that starts
/// with 4 is a client failure, with 5 a server failure, `conn_error` a
/// connection error, and any other a success.
pub open spec fn outcome_of(code: Seq<char>) -> Outcome {
    if code.len() > 0 && code[0] == '4' {
        Outcome::ClientFail
    } else if code.len() > 0 && code[0] == '5' {
        Outcome::ServerFail
    } else if code == conn_error_code() {
        Outcome::ConnError
    } else {
        Outcome::Success
    }
}

/// Classifies a result by its response code.
pub fn classify(code: &str) -> (o: Outcome)
    ensures
        o == outcome_of(code@),
{
    let cs = chars_of(code);
    if cs.len() > 0 && cs[0] == '4' {
        Outcome::ClientFail
    } else if cs.len() > 0 && cs[0] == '5' {
        Outcome::ServerFail
    } else {
        let name = "conn_error";
        proof {
            reveal_strlit("conn_error");
            assert(name@ =~= conn_error_code());
        }
        let expected = chars_of(name);
        if crate::text::chars_equal(&cs, &expected) {
            Outcome::ConnError
        } else {
            Outcome::Success
        }
    }
}

/// A result is classified by its HTTP status as the status's hundreds
/// say: 4xx a client failure, 5xx a server failure, any other a success;
/// a call that got no answer is a connection error.
pub proof fn lemma_status_outcome(status: u16)
    requires
        100 <= status <= 999,
    ensures
        outcome_of(decimal(status as nat)) == (if 400 <= status < 500 {
            Outcome::ClientFail
        } else if 500 <= status < 600 {
            Outcome::ServerFail
        } else {
            Outcome::Success
        }),
        outcome_of(conn_error_code()) == Outcome::ConnError,
{
    let n = status as nat;
    let tens = n / 10;
    let hundreds = tens / 10;
    assert(10 <= tens < 100);
    assert(1 <= hundreds < 10);
    assert(decimal(n) == decimal(tens).push(crate::text::digit_char(n % 10)));
    assert(decimal(tens) == decimal(hundreds).push(crate::text::digit_char(tens % 10)));
    assert(decimal(hundreds) == seq![crate::text::digit_char(hundreds)]);
    assert(decimal(n)[0] == crate::text::digit_char(hundreds));
    assert(400 <= n < 500 <==> hundreds == 4);
    assert(500 <= n < 600 <==> hundreds == 5);
    assert(decimal(n) != conn_error_code()) by {
        assert(conn_error_code()[0] == 'c');
    }
}

/// Totals of call results at one moment, with the process's cpu capture.
#[derive(Debug)]
pub struct LocalTotals {
    pub count: u64,
    pub bytes_up: u64,
    pub bytes_down: u64,
    pub elapsed: u64,
    pub error_count: u64,
    pub cpu: ProcPidStats,
}


/// Whether no time of capture `a` is longer than that of capture `b`.
pub open spec fn cpu_le(a: ProcPidStats, b: ProcPidStats) -> bool {
    a.elapsed@ <= b.elapsed@ && a.user@ <= b.user@ && a.system@ <= b.system@
}

/// Whether a report is skipped: less than 500 whole milliseconds passed
/// since the previous one.
pub open spec fn report_skipped(iter_counter: LocalTotals, end_cpu: ProcPidStats) -> bool {
    (end_cpu.elapsed@ - iter_counter.cpu.elapsed@) / 1_000_000 < 500
}

pub open spec fn error_sum(cf: LocalTotals, sf: LocalTotals, ce: LocalTotals) -> int {
    cf.count + sf.count + ce.count
}

pub open spec fn count_sum(s: LocalTotals, cf: LocalTotals, sf: LocalTotals, ce: LocalTotals) -> int {
    s.count + error_sum(cf, sf, ce)
}

pub open spec fn up_sum(s: LocalTotals, cf: LocalTotals, sf: LocalTotals, ce: LocalTotals) -> int {
    s.bytes_up + cf.bytes_up + sf.bytes_up + ce.bytes_up
}

pub open spec fn down_sum(s: LocalTotals, cf: LocalTotals, sf: LocalTotals, ce: LocalTotals) -> int {
    s.bytes_down + cf.bytes_down + sf.bytes_down + ce.bytes_down
}

pub open spec fn elapsed_sum(s: LocalTotals, cf: LocalTotals, sf: LocalTotals, ce: LocalTotals) -> int {
    s.elapsed + cf.elapsed + sf.elapsed + ce.elapsed
}

/// Whether a report can be computed without an overflow: the totals of the
/// four kinds fit in a `u64`, and none of them is below the previous
/// report's.
pub open spec fn report_fits(
    job_cpu: ProcPidStats,
    iter_counter: LocalTotals,
    s: LocalTotals,
    cf: LocalTotals,
    sf: LocalTotals,
    ce: LocalTotals,
    end_cpu: ProcPidStats,
) -> bool {
    &&& job_cpu.elapsed@ <= end_cpu.elapsed@
    &&& count_sum(s, cf, sf, ce) <= u64::MAX
    &&& up_sum(s, cf, sf, ce) <= u64::MAX
    &&& down_sum(s, cf, sf, ce) <= u64::MAX
    &&& elapsed_sum(s, cf, sf, ce) <= u64::MAX
    &&& iter_counter.count <= count_sum(s, cf, sf, ce)
    &&& iter_counter.error_count <= error_sum(cf, sf, ce)
    &&& iter_counter.elapsed <= elapsed_sum(s, cf, sf, ce)
    &&& iter_counter.bytes_up <= up_sum(s, cf, sf, ce)
    &&& iter_counter.bytes_down <= down_sum(s, cf, sf, ce)
}

/// What a periodic report shows: when it was made, how long the job has run,
/// how long since the previous report, and what happened since then.
#[derive(Debug)]
pub struct StatsReport {
    pub report_dt: Timestamp,
    pub job_elapsed: Duration,
    pub iter_elapsed: Duration,
    pub iter_req_ms_total: u64,
    pub iter_reqs: u64,
    pub iter_errs: u64,
    pub iter_bytes_up: u64,
    pub iter_bytes_down: u64,
    pub iter_cpu: ProcPidStats,
}

/// Computes the report for the time since the previous one (`iter_counter`),
/// given the totals of each kind now, the time and the cpu capture now.
/// Where less than 500 ms passed, nothing is reported and the previous
/// counter is kept; otherwise the new counter holds the sums of the four
/// kinds and the new capture, and the report the differences.
pub fn compute_stats(
    job_cpu: &ProcPidStats,
    iter_counter: LocalTotals,
    latest_success: &LocalTotals,
    latest_client_fail: &LocalTotals,
    latest_server_fail: &LocalTotals,
    latest_conn_error: &LocalTotals,
    now: Timestamp,
    end_cpu: ProcPidStats,
) -> (r: (LocalTotals, Option<StatsReport>))
    requires
        cpu_le(iter_counter.cpu, end_cpu),
        !report_skipped(iter_counter, end_cpu) ==> report_fits(
            *job_cpu,
            iter_counter,
            *latest_success,
            *latest_client_fail,
            *latest_server_fail,
            *latest_conn_error,
            end_cpu,
        ),
    ensures
        report_skipped(iter_counter, end_cpu) ==> r.0 == iter_counter && r.1 is None,
        !report_skipped(iter_counter, end_cpu) ==> {
            let (s, cf, sf, ce) = (
                *latest_success,
                *latest_client_fail,
                *latest_server_fail,
                *latest_conn_error,
            );
            &&& r.0.count == count_sum(s, cf, sf, ce)
            &&& r.0.error_count == error_sum(cf, sf, ce)
            &&& r.0.bytes_up == up_sum(s, cf, sf, ce)
            &&& r.0.bytes_down == down_sum(s, cf, sf, ce)
            &&& r.0.elapsed == elapsed_sum(s, cf, sf, ce)
            &&& r.0.cpu == end_cpu
            &&& r.1 matches Some(report) && {
                &&& report.report_dt == now
                &&& report.job_elapsed@ == end_cpu.elapsed@ - job_cpu.elapsed@
                &&& report.iter_elapsed@ == end_cpu.elapsed@ - iter_counter.cpu.elapsed@
                &&& report.iter_req_ms_total == elapsed_sum(s, cf, sf, ce) - iter_counter.elapsed
                &&& report.iter_reqs == count_sum(s, cf, sf, ce) - iter_counter.count
                &&& report.iter_errs == error_sum(cf, sf, ce) - iter_counter.error_count
                &&& report.iter_bytes_up == up_sum(s, cf, sf, ce) - iter_counter.bytes_up
                &&& report.iter_bytes_down == down_sum(s, cf, sf, ce) - iter_counter.bytes_down
                &&& report.iter_cpu.elapsed@ == end_cpu.elapsed@ - iter_counter.cpu.elapsed@
                &&& report.iter_cpu.user@ == end_cpu.user@ - iter_counter.cpu.user@
                &&& report.iter_cpu.system@ == end_cpu.system@ - iter_counter.cpu.system@
            }
        },
{
    let diff_cpu = end_cpu.sub(&iter_counter.cpu);
    let iter_runtime = diff_cpu.elapsed;
    // If the time since the previous report was too short, skip this one.
    if iter_runtime.as_millis() < 500 {
        return (iter_counter, None);
    }
    let runtime = end_cpu.elapsed.sub(&job_cpu.elapsed);
    let end_error_count = latest_client_fail.count + latest_server_fail.count
        + latest_conn_error.count;
    let end_counter = LocalTotals {
        count: latest_success.count + end_error_count,
        bytes_up: latest_success.bytes_up + latest_client_fail.bytes_up
            + latest_server_fail.bytes_up + latest_conn_error.bytes_up,
        bytes_down: latest_success.bytes_down + latest_client_fail.bytes_down
            + latest_server_fail.bytes_down + latest_conn_error.bytes_down,
        elapsed: latest_success.elapsed + latest_client_fail.elapsed + latest_server_fail.elapsed
            + latest_conn_error.elapsed,
        error_count: end_error_count,
        cpu: end_cpu,
    };
    let report = StatsReport {
        report_dt: now,
        job_elapsed: runtime,
        iter_elapsed: iter_runtime,
        iter_req_ms_total: end_counter.elapsed - iter_counter.elapsed,
        iter_reqs: end_counter.count - iter_counter.count,
        iter_errs: end_counter.error_count - iter_counter.error_count,
        iter_bytes_up: end_counter.bytes_up - iter_counter.bytes_up,
        iter_bytes_down: end_counter.bytes_down - iter_counter.bytes_down,
        iter_cpu: diff_cpu,
    };
    (end_counter, Some(report))
}

/// How the request rate of a report shows: in thousands per second from
/// 10_000 on, else per second.
#[derive(Clone, Copy, Debug, PartialEq, Eq, Structural)]
pub enum RequestRate {
    Thousands(u64),
    Units(u64),
}

impl StatsReport {
    /// The whole milliseconds since the previous report, taken modulo 2^64
    /// as the cast to `u64` does.
    pub fn iter_millis(&self) -> (m: u64)
        ensures
            m == (self.iter_elapsed@ / 1_000_000) as u64,
    {
        self.iter_elapsed.as_millis() as u64
    }

    /// Requests per second since the previous report (rounded down), and
    /// how it shows.
    pub fn request_rate(&self) -> (r: RequestRate)
        requires
            (self.iter_elapsed@ / 1_000_000) as u64 > 0,
            self.iter_reqs * 1000 <= u64::MAX,
        ensures
            ({
                let per_sec = self.iter_reqs * 1000 / ((self.iter_elapsed@ / 1_000_000) as u64 as int);
                if per_sec >= 10_000 {
                    r == RequestRate::Thousands((per_sec / 1000) as u64)
                } else {
                    r == RequestRate::Units(per_sec as u64)
                }
            }),
    {
        let iter_ms = self.iter_millis();
        let reqs_sec = self.iter_reqs * 1000 / iter_ms;
        if reqs_sec >= 10_000 {
            RequestRate::Thousands(reqs_sec / 1000)
        } else {
            RequestRate::Units(reqs_sec)
        }
    }
}

/// The unit in which a number of bytes shows.
#[derive(Clone, Copy, Debug, PartialEq, Eq, Structural)]
pub enum ByteScale {
    Bytes,
    Kilo,
    Mega,
    Giga,
    Tera,
}

/// The unit of a byte count: bytes below 100_000, then KB, MB, GB below a
/// hundred thousand of each, and TB above.
pub open spec fn byte_scale_of(bytes: u64) -> ByteScale {
    if bytes < 100_000 {
        ByteScale::Bytes
    } else if bytes < 100_000_000 {
        ByteScale::Kilo
    } else if bytes < 100_000_000_000 {
        ByteScale::Mega
    } else if bytes < 100_000_000_000_000 {
        ByteScale::Giga
    } else {
        ByteScale::Tera
    }
}

/// The unit in which a byte count shows.
pub fn byte_scale(bytes: u64) -> (s: ByteScale)
    ensures
        s == byte_scale_of(bytes),
{
    if bytes < 100_000 {
        ByteScale::Bytes
    } else if bytes < 100_000_000 {
        ByteScale::Kilo
    } else if bytes < 100_000_000_000 {
        ByteScale::Mega
    } else if bytes < 100_000_000_000_000 {
        ByteScale::Giga
    } else {
        ByteScale::Tera
    }
}

/// The totals of a whole run.
#[derive(Clone, Copy, Debug)]
pub struct Summary {
    pub total_requests: u64,
    pub total_request_ms: u64,
    pub total_data_up: u64,
    pub total_data_down: u64,
}

/// The totals of a whole run from the totals of each kind.
pub fn summarize(
    success: &LocalTotals,
    client_fail: &LocalTotals,
    server_fail: &LocalTotals,
    conn_error: &LocalTotals,
) -> (r: Summary)
    requires
        count_sum(*success, *client_fail, *server_fail, *conn_error) <= u64::MAX,
        elapsed_sum(*success, *client_fail, *server_fail, *conn_error) <= u64::MAX,
        up_sum(*success, *client_fail, *server_fail, *conn_error) <= u64::MAX,
        down_sum(*success, *client_fail, *server_fail, *conn_error) <= u64::MAX,
    ensures
        r.total_requests == count_sum(*success, *client_fail, *server_fail, *conn_error),
        r.total_request_ms == elapsed_sum(*success, *client_fail, *server_fail, *conn_error),
        r.total_data_up == up_sum(*success, *client_fail, *server_fail, *conn_error),
        r.total_data_down == down_sum(*success, *client_fail, *server_fail, *conn_error),
{
    Summary {
        total_requests: success.count + client_fail.count + server_fail.count + conn_error.count,
        total_request_ms: success.elapsed + client_fail.elapsed + server_fail.elapsed
            + conn_error.elapsed,
        total_data_up: success.bytes_up + client_fail.bytes_up + server_fail.bytes_up
            + conn_error.bytes_up,
        total_data_down: success.bytes_down + client_fail.bytes_down + server_fail.bytes_down
            + conn_error.bytes_down,
    }
}

/// What is said of a start time that lies `seconds_away` ahead.
#[derive(Clone, Copy, Debug, PartialEq, Eq, Structural)]
pub enum StartNotice {
    InHours { hours: i64, minutes: i64, seconds: i64 },
    InMinutes { minutes: i64, seconds: i64 },
    InSeconds { seconds: i64 },
    InThePast,
}

/// The notice for a start that lies `s` seconds ahead, split into hours,
/// minutes and seconds; a start that is not ahead is in the past.
pub open spec fn start_notice_of(s: i64) -> StartNotice {
    if s > 0 {
        let h = s / 3600;
        let m = (s % 3600) / 60;
        let sec = s % 60;
        if h > 0 {
            StartNotice::InHours { hours: h as i64, minutes: m as i64, seconds: sec as i64 }
        } else if m > 0 {
            StartNotice::InMinutes { minutes: m as i64, seconds: sec as i64 }
        } else {
            StartNotice::InSeconds { seconds: sec as i64 }
        }
    } else {
        StartNotice::InThePast
    }
}

/// The seconds that a notice announces.
pub open spec fn notice_seconds(n: StartNotice) -> int {
    match n {
        StartNotice::InHours { hours, minutes, seconds } => hours * 3600 + minutes * 60 + seconds,
        StartNotice::InMinutes { minutes, seconds } => minutes * 60 + seconds,
        StartNotice::InSeconds { seconds } => seconds as int,
        StartNotice::InThePast => 0,
    }
}

/// The notice of a start ahead adds up to the seconds until it, with fewer
/// than 60 minutes and 60 seconds, and the largest unit it shows is not
/// zero.
pub proof fn lemma_start_notice_sums_up(s: i64)
    requires
        s > 0,
    ensures
        notice_seconds(start_notice_of(s)) == s,
        match start_notice_of(s) {
            StartNotice::InHours { hours, minutes, seconds } => hours > 0 && 0 <= minutes < 60 && 0
                <= seconds < 60,
            StartNotice::InMinutes { minutes, seconds } => 0 < minutes < 60 && 0 <= seconds < 60,
            StartNotice::InSeconds { seconds } => 0 < seconds < 60,
            StartNotice::InThePast => false,
        },
{
    let si = s as int;
    let h = si / 3600;
    let r = si % 3600;
    let m = r / 60;
    let sec = r % 60;
    assert(si == 3600 * h + r && 0 <= r < 3600) by (nonlinear_arith)
        requires
            si > 0,
            h == si / 3600,
            r == si % 3600,
    ;
    assert(r == 60 * m + sec && 0 <= sec < 60 && 0 <= m < 60) by (nonlinear_arith)
        requires
            0 <= r < 3600,
            m == r / 60,
            sec == r % 60,
    ;
    assert(si % 60 == sec) by (nonlinear_arith)
        requires
            si == 3600 * h + r,
            r == 60 * m + sec,
            0 <= sec < 60,
    ;
}

/// The notice for a start that lies `seconds_away` seconds ahead.
pub fn start_notice(seconds_away: i64) -> (n: StartNotice)
    ensures
        n == start_notice_of(seconds_away),
{
    if seconds_away > 0 {
        let hours_part = seconds_away / 3600;
        let seconds_part = seconds_away % 3600;
        let minutes_part = seconds_part / 60;
        let seconds_part = seconds_part % 60;
        assert(seconds_away % 3600 % 60 == seconds_away % 60) by (nonlinear_arith)
            requires
                seconds_away > 0,
        ;
        if hours_part > 0 {
            StartNotice::InHours { hours: hours_part, minutes: minutes_part, seconds: seconds_part }
        } else if minutes_part > 0 {
            StartNotice::InMinutes { minutes: minutes_part, seconds: seconds_part }
        } else {
            StartNotice::InSeconds { seconds: seconds_part }
        }
    } else {
        StartNotice::InThePast
    }
}

/// The first, long wait before a scheduled start: until ten seconds before
/// it, where that is still ahead.
pub fn first_wait_millis(ms_away: i64) -> (w: Option<u64>)
    requires
        ms_away >= i64::MIN + 10_000,
    ensures
        ms_away - 10_000 > 0 ==> w == Some((ms_away - 10_000) as u64),
        ms_away - 10_000 <= 0 ==> w is None,
{
    let rest = ms_away - 10_000;
    if rest > 0 {
        Some(rest as u64)
    } else {
        None
    }
}

/// The next wait of the countdown to a scheduled start: at most a second,
/// while the start is ahead and the wait is not cancelled.
pub fn countdown_wait_millis(ms_away: i64, cancel: bool) -> (w: Option<u64>)
    ensures
        ms_away > 0 && !cancel ==> w == Some(if ms_away < 1000 { ms_away as u64 } else { 1000u64 }),
        !(ms_away > 0 && !cancel) ==> w is None,
{
    if ms_away > 0 && !cancel {
        let away = ms_away as u64;
        Some(if away < 1000 { away } else { 1000 })
    } else {
        None
    }
}

/// Paces calls: the delay of each call is added to the total expected so
/// far, and the caller waits for whatever of that total has not yet passed.
pub struct Pacer {
    delay_total: Duration,
}

impl View for Pacer {
    type V = nat;

    closed spec fn view(&self) -> nat {
        self.delay_total@
    }
}

impl Pacer {
    /// A pacer at the start of a run.
    pub fn new() -> (p: Pacer)
        ensures
            p@ == 0,
    {
        Pacer { delay_total: Duration::zero() }
    }

    /// Adds a call's delay and returns how long to wait before sending it,
    /// `elapsed` having passed since the start: the part of the total that
    /// is still ahead, or nothing.
    pub fn next_wait(&mut self, call_delay: Duration, elapsed: Duration) -> (w: Duration)
        requires
            old(self)@ + call_delay@ <= MAX_NANOS,
        ensures
            final(self)@ == old(self)@ + call_delay@,
            elapsed@ <= final(self)@ ==> w@ == final(self)@ - elapsed@,
            final(self)@ < elapsed@ ==> w@ == 0,
    {
        self.delay_total = self.delay_total.add(&call_delay);
        match self.delay_total.checked_sub(&elapsed) {
            Some(d) => d,
            None => Duration::zero(),
        }
    }
}

pub open spec fn connection_prefix() -> Seq<char> {
    seq!['c', 'o', 'n', 'n', 'e', 'c', 't', 'i', 'o', 'n', ':']
}

pub open spec fn keep_alive_text() -> Seq<char> {
    seq!['k', 'e', 'e', 'p', '-', 'a', 'l', 'i', 'v', 'e']
}

/// Whether a header line is a `Connection` header: it starts with
/// `connection:` in any case of its ASCII letters.
pub open spec fn names_connection(h: Seq<char>) -> bool {
    h.len() >= 11 && eq_ignoring_ascii_case(h.take(11), connection_prefix())
}

/// Whether the configured connection mode keeps connections alive: it is
/// `keep-alive` in any case of its ASCII letters.
pub open spec fn keeps_alive(connection: Seq<char>) -> bool {
    eq_ignoring_ascii_case(connection, keep_alive_text())
}

/// The `Connection` header that the connection mode asks for.
pub open spec fn connection_header(connection: Seq<char>) -> Seq<char> {
    if keeps_alive(connection) {
        seq!['C', 'o', 'n', 'n', 'e', 'c', 't', 'i', 'o', 'n', ':', ' '] + keep_alive_text()
    } else {
        seq!['C', 'o', 'n', 'n', 'e', 'c', 't', 'i', 'o', 'n', ':', ' ', 'c', 'l', 'o', 's', 'e']
    }
}

/// Whether the connection mode keeps connections alive.
pub fn is_keep_alive(connection: &str) -> (b: bool)
    ensures
        b == keeps_alive(connection@),
{
    let cs = chars_of(connection);
    let k = "keep-alive";
    proof {
        reveal_strlit("keep-alive");
        assert(k@ =~= keep_alive_text());
    }
    let kv = chars_of(k);
    let b = matches_ignoring_ascii_case(&cs, 0, &kv) && cs.len() == kv.len();
    assert(cs@.len() == kv@.len() ==> cs@.subrange(0, kv@.len() as int) == cs@);
    b
}

/// The headers of each request: the configured ones, and a `Connection`
/// header after them that follows the connection mode, unless one of them
/// is a `Connection` header already.
pub fn with_connection_header(headers: &Vec<String>, connection: &str) -> (r: Vec<String>)
    ensures
        (exists|i: int| 0 <= i < headers@.len() && names_connection(#[trigger] headers@[i]@))
            ==> r@ == headers@,
        !(exists|i: int| 0 <= i < headers@.len() && names_connection(#[trigger] headers@[i]@))
            ==> r@.len() == headers@.len() + 1 && r@.take(headers@.len() as int) == headers@
            && r@.last()@ == connection_header(connection@),
{
    let prefix = "connection:";
    proof {
        reveal_strlit("connection:");
        assert(prefix@ =~= connection_prefix());
    }
    let pv = chars_of(prefix);
    let mut result: Vec<String> = Vec::new();
    let mut found = false;
    let mut i: usize = 0;
    while i < headers.len()
        invariant
            i <= headers.len(),
            pv@ == connection_prefix(),
            result@ == headers@.take(i as int),
            found == (exists|j: int| 0 <= j < i && names_connection(#[trigger] headers@[j]@)),
        decreases headers.len() - i,
    {
        let h = chars_of(headers[i].as_str());
        let named = matches_ignoring_ascii_case(&h, 0, &pv);
        assert(named == names_connection(headers@[i as int]@));
        if named {
            found = true;
        }
        result.push(headers[i].clone());
        assert(headers@.take(i + 1) == headers@.take(i as int).push(headers@[i as int]));
        i = i + 1;
    }
    assert(headers@.take(headers@.len() as int) == headers@);
    if !found {
        let header = if is_keep_alive(connection) {
            let t = "Connection: keep-alive";
            proof {
                reveal_strlit("Connection: keep-alive");
                assert(t@ =~= connection_header(connection@));
            }
            t.to_owned()
        } else {
            let t = "Connection: close";
            proof {
                reveal_strlit("Connection: close");
                assert(t@ =~= connection_header(connection@));
            }
            t.to_owned()
        };
        result.push(header);
        assert(result@.take(headers@.len() as int) == headers@);
    }
    result
}

/// The name and the value of a header line `name: value`, cut at its first
/// `:` and trimmed; `None` where there is no `:`.
pub open spec fn header_parts(h: Seq<char>) -> Option<(Seq<char>, Seq<char>)> {
    match split_once_by(h, is_char(':')) {
        Some((name, value)) => Some((trim(name), trim(value))),
        None => None,
    }
}

/// A header line is cut at its first `:`: the name is what comes before it,
/// trimmed, and the value is all that comes after it, the white space around
/// it left out and everything within it kept, `:` and white space included.
pub proof fn lemma_header_value_kept(name: Seq<char>, sp: Seq<char>, value: Seq<char>)
    requires
        forall|i: int| 0 <= i < name.len() ==> #[trigger] name[i] != ':',
        crate::text::all_white_space(sp),
        value.len() > 0 ==> !crate::text::is_white_space(value[0])
            && !crate::text::is_white_space(value.last()),
    ensures
        header_parts(name + seq![':'] + sp + value) == Some((trim(name), value)),
{
    let h = name + seq![':'] + sp + value;
    assert forall|j: int| 0 <= j < name.len() implies !is_char(':')(#[trigger] h[j]) by {
        assert(h[j] == name[j]);
    }
    assert(h[name.len() as int] == ':');
    crate::text::lemma_position(h, is_char(':'), name.len() as int);
    assert(h.take(name.len() as int) =~= name);
    assert(h.skip(name.len() as int + 1) =~= sp + value);
    crate::text::lemma_trim_padded(sp, value);
}

/// Splits a header line into its name and value.
pub fn parse_header(header: &str) -> (r: Option<(String, String)>)
    ensures
        match r {
            Some((n, v)) => header_parts(header@) == Some((n@, v@)),
            None => header_parts(header@) is None,
        },
{
    let cs = chars_of(header);
    let n = cs.len();
    assert(cs@.subrange(0, n as int) == cs@);
    let c = find_char(&cs, 0, n, ':');
    if c == n {
        return None;
    }
    assert(cs@.take(c as int) == cs@.subrange(0, c as int));
    assert(cs@.skip(c + 1) == cs@.subrange(c + 1, n as int));
    let (a, b) = trim_bounds(&cs, 0, c);
    let (x, y) = trim_bounds(&cs, c + 1, n);
    Some((string_of(&cs, a, b), string_of(&cs, x, y)))
}

/// The number of traffic threads: the configured number, or where that is
/// zero the parallelism that the machine offers (one where it is unknown).
pub fn thread_count(configured: usize, available: Option<usize>) -> (n: usize)
    ensures
        configured != 0 ==> n == configured,
        configured == 0 ==> n == match available {
            Some(a) => a,
            None => 1,
        },
{
    if configured == 0 {
        match available {
            Some(a) => a,
            None => 1,
        }
    } else {
        configured
    }
}

/// What one traffic thread has done: calls answered, of them successes,
/// bytes received and time taken, and calls that got no answer and the time
/// they took.
#[derive(Clone, Copy, Debug)]
pub struct UserTally {
    pub count: u64,
    pub success_count: u64,
    pub total_bytes: u64,
    pub total_duration: Duration,
    pub conn_error_count: u64,
    pub conn_error_duration: Duration,
}

impl UserTally {
    /// A thread that has done nothing yet.
    pub fn new() -> (t: UserTally)
        ensures
            t.count == 0 && t.success_count == 0 && t.total_bytes == 0,
            t.total_duration@ == 0,
            t.conn_error_count == 0,
            t.conn_error_duration@ == 0,
    {
        UserTally {
            count: 0,
            success_count: 0,
            total_bytes: 0,
            total_duration: Duration::zero(),
            conn_error_count: 0,
            conn_error_duration: Duration::zero(),
        }
    }

    /// Whether an answered call can be counted without an overflow.
    pub open spec fn can_count_response(self, elapsed: Duration, bytes_received: u64) -> bool {
        &&& self.count < u64::MAX
        &&& self.success_count < u64::MAX
        &&& self.total_bytes + bytes_received <= u64::MAX
        &&& self.total_duration@ + elapsed@ <= MAX_NANOS
    }

    /// Counts an answered call.
    pub fn record_response(&mut self, elapsed: Duration, bytes_received: u64, success: bool)
        requires
            old(self).can_count_response(elapsed, bytes_received),
        ensures
            final(self).count == old(self).count + 1,
            final(self).success_count == old(self).success_count + if success { 1int } else { 0 },
            final(self).total_bytes == old(self).total_bytes + bytes_received,
            final(self).total_duration@ == old(self).total_duration@ + elapsed@,
            final(self).conn_error_count == old(self).conn_error_count,
            final(self).conn_error_duration == old(self).conn_error_duration,
            old(self).success_count <= old(self).count ==> final(self).success_count
                <= final(self).count,
    {
        self.total_duration = self.total_duration.add(&elapsed);
        self.count = self.count + 1;
        self.total_bytes = self.total_bytes + bytes_received;
        if success {
            self.success_count = self.success_count + 1;
        }
    }

    /// Counts a call that got no answer.
    pub fn record_conn_error(&mut self, elapsed: Duration)
        requires
            old(self).conn_error_count < u64::MAX,
            old(self).conn_error_duration@ + elapsed@ <= MAX_NANOS,
        ensures
            final(self).conn_error_count == old(self).conn_error_count + 1,
            final(self).conn_error_duration@ == old(self).conn_error_duration@ + elapsed@,
            final(self).count == old(self).count,
            final(self).success_count == old(self).success_count,
            final(self).total_bytes == old(self).total_bytes,
            final(self).total_duration == old(self).total_duration,
    {
        self.conn_error_count = self.conn_error_count + 1;
        self.conn_error_duration = self.conn_error_duration.add(&elapsed);
    }
}

} // verus!
