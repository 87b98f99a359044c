//! A trimmed HTTP Archive (THAR) record of one request and its response.
//!
//! It follows the HAR 1.2 spec in the main:
//! http://www.softwareishard.com/blog/har-12-spec/
//! but much of it is repetitive and bloat if the intent is only to capture
//! enough of the request and response in order to do, say, post-test cleanup.
//! When each record is a single line in a file, it becomes THARL (like JSONL).
use vstd::prelude::*;
use crate::duration::Timestamp;

verus! {

/// The version of this crate, recorded as the creator's version.
pub const VERSION: &'static str = "0.1.0";

/// The name recorded as creator and browser.
pub const DISPLAY_NAME: &'static str = "Loady McLoadface";

/// Required in HAR, not used in THAR.
#[derive(Debug)]
pub struct Creator {
    pub name: String,
    pub version: String,
}

/// Required in HAR, not used in THAR.
#[derive(Debug)]
pub struct Browser {
    pub name: String,
    pub version: String,
}

/// Required in HAR, not used in THAR. It's more browser-centric, but loady is
/// more HTTP API centric.
#[derive(Debug)]
pub struct PageTimings {
    /// When the core page itself loads.
    pub on_content_load: i64,
    /// When the images, scripts, and whatnot have all completed. Since
    /// Loady does not parse any of the content to figure out what else
    /// needs loaded, this will be the same as on_content_load.
    pub on_load: i64,
}

/// Required in HAR, optional in THAR.
#[derive(Debug)]
pub struct Page {
    pub started_date_time: Timestamp,
    pub id: String,
    pub title: String,
    pub page_timings: PageTimings,
}

#[derive(Debug)]
pub struct Cookie {
    pub name: String,
    pub value: String,
    pub path: Option<String>,
    pub domain: Option<String>,
    pub expires: Option<String>,
    pub http_only: Option<bool>,
    pub secure: Option<bool>,
}

#[derive(Debug)]
pub struct Record {
    pub name: String,
    pub value: String,
}

#[derive(Debug)]
pub struct PostDataParam {
    pub name: String,
    pub value: Option<String>,
    pub file_name: Option<String>,
    pub content_type: Option<String>,
}

#[derive(Debug)]
pub struct PostData {
    pub mime_type: String,
    pub text: String,
    pub params: Vec<PostDataParam>,
}

/// THAR does not use the following:
/// - queryString: the part is already in url
/// - httpVersion: ALL requests in a run will be the same http version, no need
/// - headersSize: This can be found out from looking at the headers array
/// - bodySize: This can be found out from looking at postData
#[derive(Debug)]
pub struct Request {
    pub method: String,
    pub url: String,
    pub cookies: Vec<Cookie>,
    pub headers: Vec<Record>,
    pub post_data: Option<PostData>,
}

#[derive(Debug)]
pub struct Content {
    pub size: i64,
    pub compression: Option<i64>,
    pub mime_type: String,
    pub text: Option<String>,
    pub encoding: Option<String>,
}

/// THAR does not use the following:
/// - statusText: This *can* be useful, but usually only status is.
/// - httpVersion: Loady only uses a single HTTP version per run.
/// - redirectURL: This *can* be useful, but usually not.
/// - headersSize: This can be found out from looking at the headers array
/// - bodySize: This can be found out from looking at postData
#[derive(Debug)]
pub struct Response {
    pub status: i32,
    pub cookies: Vec<Cookie>,
    pub headers: Vec<Record>,
    pub content: Content,
}

/// Not used by THAR, it is browser centric.
#[derive(Debug)]
pub struct CacheEntry {
    pub expires: Option<String>,
    pub last_access: Timestamp,
    pub e_tag: String,
    pub hit_count: i64,
}

/// Required by HAR, but not used by THAR since Loady doesn't cache anything.
#[derive(Debug)]
pub struct Cache {
    pub before_request: Option<CacheEntry>,
    pub after_request: Option<CacheEntry>,
}

#[derive(Debug)]
pub struct Timings {
    pub dns: i64,
    pub connect: i64,
    pub blocked: i64,
    pub send: i64,
    pub wait: i64,
    pub receive: i64,
    /// If defined, this is part of the connection timing.
    /// See: http://www.softwareishard.com/blog/har-12-spec/#timings
    pub ssl: i64,
}

/// A timing where it is defined (positive), and nothing otherwise.
pub open spec fn defined_part(t: i64) -> int {
    if t > 0 {
        t as int
    } else {
        0
    }
}

/// The sum of the defined timings of the phases of a request; `ssl` is left
/// out, it is part of `connect`.
pub open spec fn timings_total(t: Timings) -> int {
    defined_part(t.dns) + defined_part(t.connect) + defined_part(t.blocked) + defined_part(t.send)
        + defined_part(t.wait) + defined_part(t.receive)
}

fn defined(t: i64) -> (r: i64)
    ensures
        r == defined_part(t),
{
    if t > 0 {
        t
    } else {
        0
    }
}

impl Timings {
    /// Adds up all timings and returns the total.
    /// (ssl timing is not included, it is part of connect timing.)
    pub fn total(&self) -> (r: i64)
        requires
            timings_total(*self) <= i64::MAX,
        ensures
            r == timings_total(*self),
    {
        defined(self.dns) + defined(self.connect) + defined(self.blocked) + defined(self.send)
            + defined(self.wait) + defined(self.receive)
    }
}

/// THAR does not use the following that are required in HAR:
/// - cache: Loady does not cache results.
/// - timings: This *is* useful, and may be included in a later version.
#[derive(Debug)]
pub struct Entry {
    pub pageref: Option<String>,
    pub started_date_time: Timestamp,
    /// Total duration from start of request to last byte received, in millis.
    pub time: i64,
    pub request: Request,
    pub response: Response,
    pub server_i_p_address: Option<String>,
    /// An identifier to distinguish one connection from another. That is,
    /// requests that are sent in the same TCP connection would have one id,
    /// and requests sent in a different TCP connection would have another,
    /// and so on.
    pub connection: Option<String>,
}

/// Used as the root node of THAR.
impl Entry {
    pub fn new(
        started_date_time: Timestamp,
        request: Request,
        response: Response,
        total_time: i64,
    ) -> (e: Entry)
        ensures
            e.pageref is None,
            e.started_date_time == started_date_time,
            e.time == total_time,
            e.request == request,
            e.response == response,
            e.server_i_p_address is None,
            e.connection is None,
    {
        Entry {
            pageref: None,
            started_date_time,
            // Since this is a single request, this matches page timings.
            time: total_time,
            request,
            response,
            server_i_p_address: None,
            connection: None,
        }
    }
}

/// Required by HAR, not used by THAR. Loady treats each request as a single
/// page, and most of the items of a Log are repetitive between each entry,
/// so should not be used by THAR.
#[derive(Debug)]
pub struct Log {
    pub version: String,
    pub creator: Creator,
    pub browser: Browser,
    pub pages: Vec<Page>,
    pub entries: Vec<Entry>,
}

#[derive(Debug)]
pub struct Har {
    pub log: Log,
}

pub open spec fn page_id() -> Seq<char> {
    seq!['p', 'a', 'g', 'e', '_', '1']
}

impl Har {
    /// Create a new HAR-log for a single request: one page and one entry,
    /// whose timings are all the total of `timings`.
    pub fn new(started_date_time: Timestamp, request: Request, response: Response, timings: Timings) -> (h: Har)
        requires
            timings_total(timings) <= i64::MAX,
        ensures
            h.log.version@ == seq!['1', '.', '2'],
            h.log.creator.name@ == DISPLAY_NAME@,
            h.log.creator.version@ == VERSION@,
            h.log.browser.name@ == DISPLAY_NAME@,
            h.log.browser.version@ == VERSION@,
            h.log.pages@.len() == 1,
            h.log.pages@[0].started_date_time == started_date_time,
            h.log.pages@[0].id@ == page_id(),
            h.log.pages@[0].title@ == seq!['s', 'a', 'm', 'p', 'l', 'e'],
            h.log.pages@[0].page_timings.on_content_load == timings_total(timings),
            h.log.pages@[0].page_timings.on_load == timings_total(timings),
            h.log.entries@.len() == 1,
            h.log.entries@[0].pageref matches Some(p) && p@ == page_id(),
            h.log.entries@[0].started_date_time == started_date_time,
            h.log.entries@[0].time == timings_total(timings),
            h.log.entries@[0].request == request,
            h.log.entries@[0].response == response,
            h.log.entries@[0].server_i_p_address is None,
            h.log.entries@[0].connection is None,
    {
        let total_time = timings.total();
        proof {
            reveal_strlit("1.2");
            reveal_strlit("page_1");
            reveal_strlit("sample");
        }
        let mut pages: Vec<Page> = Vec::new();
        pages.push(
            Page {
                started_date_time,
                id: "page_1".to_owned(),
                title: "sample".to_owned(),
                // Since this is a single request, both page timings are the
                // same, *and* match entries.time.
                page_timings: PageTimings { on_content_load: total_time, on_load: total_time },
            },
        );
        let mut entries: Vec<Entry> = Vec::new();
        entries.push(
            Entry {
                pageref: Some("page_1".to_owned()),
                started_date_time,
                // Since this is a single request, this matches page timings.
                time: total_time,
                request,
                response,
                server_i_p_address: None,
                connection: None,
            },
        );
        let log = Log {
            version: "1.2".to_owned(),
            creator: Creator { name: DISPLAY_NAME.to_owned(), version: VERSION.to_owned() },
            browser: Browser { name: DISPLAY_NAME.to_owned(), version: VERSION.to_owned() },
            pages,
            entries,
        };
        Har { log }
    }
}

} // verus!
