use loadymcloadface::classicy::{
    byte_scale, classify, compute_stats, countdown_wait_millis, first_wait_millis, is_keep_alive,
    parse_header, start_notice, summarize, thread_count, with_connection_header, ByteScale,
    LocalTotals, Outcome, Pacer, RequestRate, Sample, StartNotice, UserTally,
};
use loadymcloadface::cputime::ProcPidStats;
use loadymcloadface::duration::{Duration, Timestamp};
use loadymcloadface::siegeurls::Method;
use loadymcloadface::totals::{Totals, TotalsSet};

fn capture(elapsed_ms: u64, user_ms: u64, system_ms: u64) -> ProcPidStats {
    ProcPidStats {
        elapsed: Duration::from_millis(elapsed_ms),
        user: Duration::from_millis(user_ms),
        system: Duration::from_millis(system_ms),
    }
}

fn totals(count: u64, up: u64, down: u64, elapsed: u64) -> LocalTotals {
    LocalTotals {
        count,
        bytes_up: up,
        bytes_down: down,
        elapsed,
        error_count: 0,
        cpu: ProcPidStats::zero(),
    }
}

#[test]
fn sample_line_of_a_response() {
    let s = Sample::from_response(
        Timestamp { millis: 1_700_000_000_000 },
        Duration::from_millis(250),
        200,
        10,
        20,
        &Method::get(),
        "http://x",
        1,
        4,
    );
    assert!(s.success);
    assert_eq!(s.response_code, "200");
    assert_eq!(s.to_line(), "1700000000000,250,true,200,10,20,GET,http://x,1,4");
}

#[test]
fn sample_line_of_a_failure() {
    let post = Method::from_token("POST").unwrap();
    let s = Sample::from_response(
        Timestamp { millis: -5 },
        Duration::from_nanos(1_999_999),
        503,
        0,
        7,
        &post,
        "/p",
        0,
        1,
    );
    assert!(!s.success);
    assert_eq!(s.to_line(), "-5,1,false,503,0,7,POST,/p,0,1");
    assert_eq!(s.elapsed_millis(), 1);
}

#[test]
fn connection_error_sample() {
    let s = Sample::connection_error(
        Timestamp { millis: 3 },
        Duration::from_millis(30),
        &Method::get(),
        "u",
        2,
        2,
    );
    assert!(!s.success);
    assert_eq!(s.response_code, "conn_error");
    assert_eq!(s.bytes_up, 0);
    assert_eq!(s.bytes_down, 0);
    assert_eq!(classify(&s.response_code), Outcome::ConnError);
    assert!(!s.is_end_marker());
}

#[test]
fn end_marker() {
    let s = Sample::end_marker();
    assert!(s.is_end_marker());
    assert_eq!(s.elapsed, Duration::max_value());
}

#[test]
fn classification_by_status() {
    assert_eq!(classify("404"), Outcome::ClientFail);
    assert_eq!(classify("499"), Outcome::ClientFail);
    assert_eq!(classify("500"), Outcome::ServerFail);
    assert_eq!(classify("200"), Outcome::Success);
    assert_eq!(classify("301"), Outcome::Success);
    assert_eq!(classify("101"), Outcome::Success);
    assert_eq!(classify(""), Outcome::Success);
    assert_eq!(classify("conn_error"), Outcome::ConnError);
    assert_eq!(classify("conn_errors"), Outcome::Success);
}

#[test]
fn report_skipped_when_too_soon() {
    let job = capture(0, 0, 0);
    let prev = LocalTotals {
        count: 1,
        bytes_up: 1,
        bytes_down: 1,
        elapsed: 1,
        error_count: 0,
        cpu: capture(1000, 10, 10),
    };
    let s = totals(5, 5, 5, 5);
    let z = totals(0, 0, 0, 0);
    let (counter, report) =
        compute_stats(&job, prev, &s, &z, &z, &z, Timestamp { millis: 9 }, capture(1499, 20, 20));
    assert!(report.is_none());
    assert_eq!(counter.count, 1);
    assert_eq!(counter.cpu.elapsed, Duration::from_millis(1000));
}

#[test]
fn report_of_an_interval() {
    let job = capture(100, 0, 0);
    let prev = LocalTotals {
        count: 10,
        bytes_up: 100,
        bytes_down: 1000,
        elapsed: 50,
        error_count: 2,
        cpu: capture(1000, 200, 100),
    };
    let s = totals(20, 150, 1500, 80);
    let cf = totals(3, 10, 20, 5);
    let sf = totals(1, 1, 2, 3);
    let ce = totals(2, 0, 0, 4);
    let (counter, report) =
        compute_stats(&job, prev, &s, &cf, &sf, &ce, Timestamp { millis: 77 }, capture(3000, 700, 400));
    let report = report.unwrap();
    assert_eq!(counter.count, 26);
    assert_eq!(counter.error_count, 6);
    assert_eq!(counter.bytes_up, 161);
    assert_eq!(counter.bytes_down, 1522);
    assert_eq!(counter.elapsed, 92);
    assert_eq!(report.report_dt, Timestamp { millis: 77 });
    assert_eq!(report.job_elapsed, Duration::from_millis(2900));
    assert_eq!(report.iter_elapsed, Duration::from_millis(2000));
    assert_eq!(report.iter_reqs, 16);
    assert_eq!(report.iter_errs, 4);
    assert_eq!(report.iter_bytes_up, 61);
    assert_eq!(report.iter_bytes_down, 522);
    assert_eq!(report.iter_req_ms_total, 42);
    assert_eq!(report.iter_cpu.user, Duration::from_millis(500));
    assert_eq!(report.iter_cpu.system, Duration::from_millis(300));
    assert_eq!(report.iter_millis(), 2000);
    assert_eq!(report.request_rate(), RequestRate::Units(8));
}

#[test]
fn request_rate_in_thousands() {
    let job = capture(0, 0, 0);
    let prev = LocalTotals {
        count: 0,
        bytes_up: 0,
        bytes_down: 0,
        elapsed: 0,
        error_count: 0,
        cpu: capture(0, 0, 0),
    };
    let s = totals(25_000, 0, 0, 0);
    let z = totals(0, 0, 0, 0);
    let (_, report) =
        compute_stats(&job, prev, &s, &z, &z, &z, Timestamp { millis: 0 }, capture(1000, 0, 0));
    assert_eq!(report.unwrap().request_rate(), RequestRate::Thousands(25));
}

#[test]
fn byte_scales() {
    assert_eq!(byte_scale(99_999), ByteScale::Bytes);
    assert_eq!(byte_scale(100_000), ByteScale::Kilo);
    assert_eq!(byte_scale(100_000_000), ByteScale::Mega);
    assert_eq!(byte_scale(100_000_000_000), ByteScale::Giga);
    assert_eq!(byte_scale(100_000_000_000_000), ByteScale::Tera);
}

#[test]
fn summary_of_a_run() {
    let r = summarize(
        &totals(1, 2, 3, 4),
        &totals(10, 20, 30, 40),
        &totals(100, 200, 300, 400),
        &totals(1000, 2000, 3000, 4000),
    );
    assert_eq!(r.total_requests, 1111);
    assert_eq!(r.total_data_up, 2222);
    assert_eq!(r.total_data_down, 3333);
    assert_eq!(r.total_request_ms, 4444);
}

#[test]
fn start_notices() {
    assert_eq!(start_notice(3725), StartNotice::InHours { hours: 1, minutes: 2, seconds: 5 });
    assert_eq!(start_notice(3600), StartNotice::InHours { hours: 1, minutes: 0, seconds: 0 });
    assert_eq!(start_notice(125), StartNotice::InMinutes { minutes: 2, seconds: 5 });
    assert_eq!(start_notice(5), StartNotice::InSeconds { seconds: 5 });
    assert_eq!(start_notice(0), StartNotice::InThePast);
    assert_eq!(start_notice(-10), StartNotice::InThePast);
}

#[test]
fn waits_before_a_start() {
    assert_eq!(first_wait_millis(15_000), Some(5_000));
    assert_eq!(first_wait_millis(10_000), None);
    assert_eq!(first_wait_millis(-3), None);
    assert_eq!(countdown_wait_millis(2_500, false), Some(1_000));
    assert_eq!(countdown_wait_millis(300, false), Some(300));
    assert_eq!(countdown_wait_millis(300, true), None);
    assert_eq!(countdown_wait_millis(0, false), None);
}

#[test]
fn pacing() {
    let mut p = Pacer::new();
    assert_eq!(p.next_wait(Duration::from_millis(1000), Duration::from_millis(0)), Duration::from_millis(1000));
    assert_eq!(p.next_wait(Duration::from_millis(1000), Duration::from_millis(1500)), Duration::from_millis(500));
    assert_eq!(p.next_wait(Duration::from_millis(1000), Duration::from_millis(5000)), Duration::zero());
}

#[test]
fn connection_headers() {
    assert!(is_keep_alive("keep-alive"));
    assert!(is_keep_alive("Keep-Alive"));
    assert!(!is_keep_alive("close"));
    assert!(!is_keep_alive("keep-alive "));
    assert_eq!(with_connection_header(&vec![], "keep-alive"), vec!["Connection: keep-alive".to_string()]);
    assert_eq!(
        with_connection_header(&vec!["Accept: a".to_string()], "close"),
        vec!["Accept: a".to_string(), "Connection: close".to_string()]
    );
    let given = vec!["CONNECTION: upgrade".to_string()];
    assert_eq!(with_connection_header(&given, "keep-alive"), given);
}

#[test]
fn header_lines() {
    assert_eq!(
        parse_header("Accept: application/json"),
        Some(("Accept".to_string(), "application/json".to_string()))
    );
    assert_eq!(parse_header(" X-A :b:c "), Some(("X-A".to_string(), "b:c".to_string())));
    assert_eq!(parse_header("nocolon"), None);
}

#[test]
fn thread_counts() {
    assert_eq!(thread_count(3, Some(8)), 3);
    assert_eq!(thread_count(0, Some(8)), 8);
    assert_eq!(thread_count(0, None), 1);
}

#[test]
fn user_tally() {
    let mut t = UserTally::new();
    t.record_response(Duration::from_millis(10), 100, true);
    t.record_response(Duration::from_millis(20), 50, false);
    t.record_conn_error(Duration::from_millis(5));
    assert_eq!(t.count, 2);
    assert_eq!(t.success_count, 1);
    assert_eq!(t.total_bytes, 150);
    assert_eq!(t.total_duration, Duration::from_millis(30));
    assert_eq!(t.conn_error_count, 1);
    assert_eq!(t.conn_error_duration, Duration::from_millis(5));
}

#[test]
fn totals_by_outcome() {
    let set = TotalsSet::new();
    let ok = Sample::from_response(
        Timestamp { millis: 0 },
        Duration::from_millis(12),
        200,
        3,
        4,
        &Method::get(),
        "u",
        0,
        1,
    );
    let bad = Sample::from_response(
        Timestamp { millis: 0 },
        Duration::from_millis(8),
        404,
        1,
        2,
        &Method::get(),
        "u",
        0,
        1,
    );
    set.record(&ok);
    set.record(&ok);
    set.record(&bad);
    let (s, cf, sf, ce) = set.into_local();
    assert_eq!((s.count, s.elapsed, s.bytes_up, s.bytes_down), (2, 24, 6, 8));
    assert_eq!((cf.count, cf.elapsed, cf.bytes_up, cf.bytes_down), (1, 8, 1, 2));
    assert_eq!(sf.count, 0);
    assert_eq!(ce.count, 0);
    let one = Totals::new();
    one.record(5, 6, 7);
    let l = one.into_local();
    assert_eq!((l.count, l.elapsed, l.bytes_up, l.bytes_down, l.error_count), (1, 5, 6, 7, 0));
}
