//! The units of the configuration's rates and spans: "10/s", "0.1/m",
//! "30s", "500ms", "1h".
use vstd::prelude::*;
use crate::text::{chars_of, position, string_of};

verus! {

broadcast use vstd::string::group_string_axioms;

/// Why a configuration value cannot be read.
#[derive(Clone, Copy, Debug, PartialEq, Eq, Structural)]
pub enum ConfigError {
    /// The unit of a rate is none of ms, s, m, h (with or without a `/`).
    UnknownRateUnit,
    /// The unit of a span is none of ms, s, m, h.
    UnknownDurationUnit,
}

impl ConfigError {
    /// The text of the error.
    pub fn message(&self) -> (m: &'static str)
        ensures
            *self == ConfigError::UnknownRateUnit ==> m@ == "Unknown unit specified for rate."@,
            *self == ConfigError::UnknownDurationUnit ==> m@
                == "Unknown unit specified for duration."@,
    {
        match self {
            ConfigError::UnknownRateUnit => "Unknown unit specified for rate.",
            ConfigError::UnknownDurationUnit => "Unknown unit specified for duration.",
        }
    }
}

/// The unit of a rate of calls.
#[derive(Clone, Copy, Debug, PartialEq, Eq, Structural)]
pub enum RateUnit {
    PerMillisecond,
    PerSecond,
    PerMinute,
    PerHour,
}

/// The unit of a span of time.
#[derive(Clone, Copy, Debug, PartialEq, Eq, Structural)]
pub enum TimeUnit {
    Milliseconds,
    Seconds,
    Minutes,
    Hours,
}

/// Whether a character starts the unit of a value: `/` or an ASCII letter.
pub open spec fn starts_unit(c: char) -> bool {
    c == '/' || ('a' <= c && c <= 'z') || ('A' <= c && c <= 'Z')
}

pub open spec fn unit_start() -> spec_fn(char) -> bool {
    |c: char| starts_unit(c)
}

/// The amount and the unit of a value: the unit starts at the first `/` or
/// ASCII letter; where there is none the whole value is the amount and the
/// unit is seconds.
pub open spec fn amount_and_unit(s: Seq<char>) -> (Seq<char>, Seq<char>) {
    let i = position(s, unit_start());
    if i < s.len() {
        (s.take(i as int), s.skip(i as int))
    } else {
        (s, seq!['s'])
    }
}

/// The unit that a rate's unit text names.
pub open spec fn rate_unit_of(u: Seq<char>) -> Option<RateUnit> {
    if u == seq!['m', 's'] || u == seq!['/', 'm', 's'] {
        Some(RateUnit::PerMillisecond)
    } else if u == seq!['s'] || u == seq!['/', 's'] {
        Some(RateUnit::PerSecond)
    } else if u == seq!['m'] || u == seq!['/', 'm'] {
        Some(RateUnit::PerMinute)
    } else if u == seq!['h'] || u == seq!['/', 'h'] {
        Some(RateUnit::PerHour)
    } else {
        None
    }
}

/// The unit that a span's unit text names.
pub open spec fn time_unit_of(u: Seq<char>) -> Option<TimeUnit> {
    if u == seq!['m', 's'] {
        Some(TimeUnit::Milliseconds)
    } else if u == seq!['s'] {
        Some(TimeUnit::Seconds)
    } else if u == seq!['m'] {
        Some(TimeUnit::Minutes)
    } else if u == seq!['h'] {
        Some(TimeUnit::Hours)
    } else {
        None
    }
}

/// The rate of calls per one of a unit of time.
pub open spec fn calls_per(t: TimeUnit) -> RateUnit {
    match t {
        TimeUnit::Milliseconds => RateUnit::PerMillisecond,
        TimeUnit::Seconds => RateUnit::PerSecond,
        TimeUnit::Minutes => RateUnit::PerMinute,
        TimeUnit::Hours => RateUnit::PerHour,
    }
}

/// A rate's unit is the unit of time that the calls are counted over, with
/// or without a `/` before it: `10/s` and `10s` are both ten calls a second,
/// and a unit that names no span of time names no rate.
pub proof fn lemma_rate_unit_is_per_time_unit(u: Seq<char>)
    requires
        u.len() == 0 || u[0] != '/',
    ensures
        rate_unit_of(seq!['/'] + u) == rate_unit_of(u),
        rate_unit_of(u) == match time_unit_of(u) {
            Some(t) => Some(calls_per(t)),
            None => None::<RateUnit>,
        },
{
    let su = seq!['/'] + u;
    assert(su.skip(1) =~= u);
    assert(seq!['/', 'm', 's'].skip(1) =~= seq!['m', 's']);
    assert(seq!['/', 's'].skip(1) =~= seq!['s']);
    assert(seq!['/', 'm'].skip(1) =~= seq!['m']);
    assert(seq!['/', 'h'].skip(1) =~= seq!['h']);
    assert(u == seq!['m', 's'] ==> su =~= seq!['/', 'm', 's']);
    assert(u == seq!['s'] ==> su =~= seq!['/', 's']);
    assert(u == seq!['m'] ==> su =~= seq!['/', 'm']);
    assert(u == seq!['h'] ==> su =~= seq!['/', 'h']);
    assert(su.len() > 0 && su[0] == '/');
    assert(seq!['m', 's'][0] != '/' && seq!['s'][0] != '/' && seq!['m'][0] != '/'
        && seq!['h'][0] != '/');
}

/// Splits a rate or a span into the text of its amount and the text of its
/// unit.
pub fn split_amount_unit(s: &str) -> (r: (String, String))
    ensures
        (r.0@, r.1@) == amount_and_unit(s@),
{
    let cs = chars_of(s);
    let mut i: usize = 0;
    while i < cs.len() && !(cs[i] == '/' || ('a' <= cs[i] && cs[i] <= 'z') || ('A' <= cs[i]
        && cs[i] <= 'Z'))
        invariant
            i <= cs.len(),
            forall|j: int| 0 <= j < i ==> !starts_unit(#[trigger] cs@[j]),
        decreases cs.len() - i,
    {
        i = i + 1;
    }
    proof {
        crate::text::lemma_position(s@, unit_start(), i as int);
    }
    if i < cs.len() {
        assert(cs@.take(i as int) == cs@.subrange(0, i as int));
        assert(cs@.skip(i as int) == cs@.subrange(i as int, cs@.len() as int));
        (string_of(&cs, 0, i), string_of(&cs, i, cs.len()))
    } else {
        let unit = "s";
        proof {
            reveal_strlit("s");
        }
        (s.to_owned(), unit.to_owned())
    }
}

fn chars_equal(v: &Vec<char>, w: &str) -> (b: bool)
    ensures
        b == (v@ == w@),
{
    let cw = chars_of(w);
    crate::text::chars_equal(v, &cw)
}

/// The unit that the unit text of a rate names.
pub fn rate_unit(unit: &str) -> (r: Result<RateUnit, ConfigError>)
    ensures
        match rate_unit_of(unit@) {
            Some(u) => r == Ok::<RateUnit, ConfigError>(u),
            None => r == Err::<RateUnit, ConfigError>(ConfigError::UnknownRateUnit),
        },
{
    proof {
        reveal_strlit("ms");
        reveal_strlit("/ms");
        reveal_strlit("s");
        reveal_strlit("/s");
        reveal_strlit("m");
        reveal_strlit("/m");
        reveal_strlit("h");
        reveal_strlit("/h");
        assert("ms"@ =~= seq!['m', 's']);
        assert("/ms"@ =~= seq!['/', 'm', 's']);
        assert("s"@ =~= seq!['s']);
        assert("/s"@ =~= seq!['/', 's']);
        assert("m"@ =~= seq!['m']);
        assert("/m"@ =~= seq!['/', 'm']);
        assert("h"@ =~= seq!['h']);
        assert("/h"@ =~= seq!['/', 'h']);
    }
    let u = chars_of(unit);
    if chars_equal(&u, "ms") || chars_equal(&u, "/ms") {
        Ok(RateUnit::PerMillisecond)
    } else if chars_equal(&u, "s") || chars_equal(&u, "/s") {
        Ok(RateUnit::PerSecond)
    } else if chars_equal(&u, "m") || chars_equal(&u, "/m") {
        Ok(RateUnit::PerMinute)
    } else if chars_equal(&u, "h") || chars_equal(&u, "/h") {
        Ok(RateUnit::PerHour)
    } else {
        Err(ConfigError::UnknownRateUnit)
    }
}

/// The unit that the unit text of a span names.
pub fn time_unit(unit: &str) -> (r: Result<TimeUnit, ConfigError>)
    ensures
        match time_unit_of(unit@) {
            Some(u) => r == Ok::<TimeUnit, ConfigError>(u),
            None => r == Err::<TimeUnit, ConfigError>(ConfigError::UnknownDurationUnit),
        },
{
    proof {
        reveal_strlit("ms");
        reveal_strlit("s");
        reveal_strlit("m");
        reveal_strlit("h");
        assert("ms"@ =~= seq!['m', 's']);
        assert("s"@ =~= seq!['s']);
        assert("m"@ =~= seq!['m']);
        assert("h"@ =~= seq!['h']);
    }
    let u = chars_of(unit);
    if chars_equal(&u, "ms") {
        Ok(TimeUnit::Milliseconds)
    } else if chars_equal(&u, "s") {
        Ok(TimeUnit::Seconds)
    } else if chars_equal(&u, "m") {
        Ok(TimeUnit::Minutes)
    } else if chars_equal(&u, "h") {
        Ok(TimeUnit::Hours)
    } else {
        Err(ConfigError::UnknownDurationUnit)
    }
}

} // verus!
