use loadymcloadface::configuration::{
    rate_unit, split_amount_unit, time_unit, ConfigError, RateUnit, TimeUnit,
};
use loadymcloadface::cputime::{cpu, duration_hms, ProcPidStats, RawUsage, UsageError};
use loadymcloadface::duration::{Duration, Timestamp};
use loadymcloadface::har::{
    Content, Entry, Har, Record, Request, Response, Timings, DISPLAY_NAME, VERSION,
};

fn usage(status: i32) -> RawUsage {
    RawUsage { status, user_sec: 2, user_usec: 500_000, system_sec: 1, system_usec: 250 }
}

#[test]
fn durations() {
    let d = Duration::new(3, 1_500_000_000);
    assert_eq!(d.as_secs(), 4);
    assert_eq!(d.subsec_nanos(), 500_000_000);
    assert_eq!(d.as_millis(), 4_500);
    assert_eq!(d.as_nanos(), 4_500_000_000);
    assert_eq!(Duration::from_secs(2).add(&Duration::from_millis(5)), Duration::from_millis(2_005));
    assert_eq!(Duration::from_secs(1).checked_sub(&Duration::from_secs(2)), None);
    assert_eq!(Duration::from_secs(3).sub(&Duration::from_secs(2)), Duration::from_secs(1));
    assert_eq!(Duration::max_value().saturating_add(&Duration::from_nanos(1)), Duration::max_value());
    assert!(Duration::zero().is_zero());
    assert!(Duration::from_millis(1).lt(&Duration::from_millis(2)));
    assert!(Duration::from_millis(2).le(&Duration::from_millis(2)));
    assert!(!Duration::from_millis(3).le(&Duration::from_millis(2)));
}

#[test]
fn usage_reports() {
    let s = ProcPidStats::fetch(usage(0), Duration::from_secs(10)).unwrap();
    assert_eq!(s.elapsed, Duration::from_secs(10));
    assert_eq!(s.user, Duration::from_millis(2_500));
    assert_eq!(s.system, Duration::new(1, 250_000));
    match ProcPidStats::fetch(usage(-1), Duration::from_secs(10)) {
        Err(e) => {
            assert_eq!(e, UsageError::Unavailable);
            assert_eq!(e.message(), "Could not fetch usage info");
        }
        Ok(s) => panic!("unexpected {:?}", s),
    }
    let c = cpu(usage(0), Duration::from_secs(1));
    assert_eq!(c.user, Duration::from_millis(2_500));
    assert_eq!(ProcPidStats::cpu(usage(0), Duration::from_secs(1)).system, Duration::new(1, 250_000));
}

#[test]
fn usage_between_captures() {
    let a = ProcPidStats {
        elapsed: Duration::from_secs(5),
        user: Duration::from_secs(3),
        system: Duration::from_secs(1),
    };
    let b = ProcPidStats {
        elapsed: Duration::from_secs(2),
        user: Duration::from_secs(1),
        system: Duration::from_millis(500),
    };
    let d = a.sub(&b);
    assert_eq!(d.elapsed, Duration::from_secs(3));
    assert_eq!(d.user, Duration::from_secs(2));
    assert_eq!(d.system, Duration::from_millis(500));
}

#[test]
fn hours_minutes_seconds() {
    assert_eq!(duration_hms(Duration::from_secs(3725)), (1, 2, 5));
    assert_eq!(duration_hms(Duration::from_millis(59_999)), (0, 0, 59));
    assert_eq!(duration_hms(Duration::from_secs(90_061)), (25, 1, 1));
}

#[test]
fn amounts_and_units() {
    assert_eq!(split_amount_unit("10/s"), ("10".to_string(), "/s".to_string()));
    assert_eq!(split_amount_unit("0.1/m"), ("0.1".to_string(), "/m".to_string()));
    assert_eq!(split_amount_unit("500ms"), ("500".to_string(), "ms".to_string()));
    assert_eq!(split_amount_unit("30"), ("30".to_string(), "s".to_string()));
    assert_eq!(rate_unit("/ms"), Ok(RateUnit::PerMillisecond));
    assert_eq!(rate_unit("s"), Ok(RateUnit::PerSecond));
    assert_eq!(rate_unit("/m"), Ok(RateUnit::PerMinute));
    assert_eq!(rate_unit("h"), Ok(RateUnit::PerHour));
    assert_eq!(rate_unit("/d"), Err(ConfigError::UnknownRateUnit));
    assert_eq!(time_unit("ms"), Ok(TimeUnit::Milliseconds));
    assert_eq!(time_unit("s"), Ok(TimeUnit::Seconds));
    assert_eq!(time_unit("m"), Ok(TimeUnit::Minutes));
    assert_eq!(time_unit("h"), Ok(TimeUnit::Hours));
    assert_eq!(time_unit("/s"), Err(ConfigError::UnknownDurationUnit));
    assert_eq!(ConfigError::UnknownRateUnit.message(), "Unknown unit specified for rate.");
    assert_eq!(
        ConfigError::UnknownDurationUnit.message(),
        "Unknown unit specified for duration."
    );
}

fn request() -> Request {
    Request {
        method: "GET".to_string(),
        url: "http://127.0.0.1:8080/logs/test".to_string(),
        cookies: vec![],
        headers: vec![Record { name: "Accept".to_string(), value: "application/json".to_string() }],
        post_data: None,
    }
}

fn response() -> Response {
    Response {
        status: 200,
        cookies: vec![],
        headers: vec![],
        content: Content {
            size: 5,
            compression: None,
            mime_type: "text/html; charset=utf-8".to_string(),
            text: None,
            encoding: None,
        },
    }
}

fn timings() -> Timings {
    Timings { dns: -1, connect: -1, blocked: -1, send: 1, wait: 10, receive: 90, ssl: -1 }
}

#[test]
fn timings_total() {
    assert_eq!(timings().total(), 101);
    let t = Timings { dns: 2, connect: 3, blocked: 4, send: 5, wait: 6, receive: 7, ssl: 100 };
    assert_eq!(t.total(), 27);
}

#[test]
fn test_log() {
    let when = Timestamp { millis: 1_773_666_855_000 };
    let har = Har::new(when, request(), response(), timings());
    let log = &har.log;
    assert_eq!(log.version, "1.2");
    assert_eq!(log.creator.name, DISPLAY_NAME);
    assert_eq!(log.creator.version, VERSION);
    assert_eq!(log.browser.name, "Loady McLoadface");
    assert_eq!(log.pages.len(), 1);
    assert_eq!(log.pages[0].id, "page_1");
    assert_eq!(log.pages[0].title, "sample");
    assert_eq!(log.pages[0].started_date_time, when);
    assert_eq!(log.pages[0].page_timings.on_load, 101);
    assert_eq!(log.pages[0].page_timings.on_content_load, 101);
    assert_eq!(log.entries.len(), 1);
    assert_eq!(log.entries[0].pageref.as_deref(), Some("page_1"));
    assert_eq!(log.entries[0].time, 101);
    assert_eq!(log.entries[0].request.url, "http://127.0.0.1:8080/logs/test");
    assert_eq!(log.entries[0].request.headers[0].name, "Accept");
    assert_eq!(log.entries[0].response.status, 200);
    assert!(log.entries[0].server_i_p_address.is_none());
}

#[test]
fn single_entry() {
    let when = Timestamp { millis: 42 };
    let e = Entry::new(when, request(), response(), 7);
    assert!(e.pageref.is_none());
    assert_eq!(e.started_date_time, when);
    assert_eq!(e.time, 7);
    assert_eq!(e.request.method, "GET");
    assert_eq!(e.response.content.size, 5);
    assert!(e.connection.is_none());
}
