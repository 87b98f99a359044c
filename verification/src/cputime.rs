//! Cpu time and wall clock time used by the process.
use vstd::prelude::*;
use crate::duration::{Duration, MAX_NANOS, NANOS_PER_SEC};

verus! {

/// Contains (some) information from the `/proc/$pid/stats` file.
#[derive(Clone, Copy, Hash, Debug)]
pub struct ProcPidStats {
    /// elapsed time, a.k.a. wall clock time, a.k.a. real time.
    pub elapsed: Duration,
    /// Amount of cpu user time consumed during the elapsed time.
    /// Multicore can potentially make this greater than elapsed.
    pub user: Duration,
    /// Amount of cpu kernel time consumed during the elapsed time.
    /// Multicore can potentially make this greater than elapsed.
    pub system: Duration,
}

/// Why the usage of the process could not be had.
#[derive(Clone, Copy, Debug, PartialEq, Eq, Structural)]
pub enum UsageError {
    /// `getrusage` reported a failure.
    Unavailable,
}

impl UsageError {
    /// The text of the error.
    pub fn message(&self) -> (m: &'static str)
        ensures
            m@ == "Could not fetch usage info"@,
    {
        "Could not fetch usage info"
    }
}

/// The span that a `timeval` of `getrusage` gives: its seconds taken as
/// unsigned, and its microseconds times a thousand taken as the nanoseconds.
pub open spec fn timeval_nanos(sec: i64, usec: i64) -> int {
    (sec as u64) * NANOS_PER_SEC + ((usec * 1000) as u32)
}

/// Whether a `timeval` can be turned into a span without an overflow.
pub open spec fn timeval_fits(sec: i64, usec: i64) -> bool {
    &&& i64::MIN <= usec * 1000 <= i64::MAX
    &&& timeval_nanos(sec, usec) <= MAX_NANOS
}

/// The span that a `timeval` of `getrusage` stands for.
pub fn timeval_duration(sec: i64, usec: i64) -> (d: Duration)
    requires
        timeval_fits(sec, usec),
    ensures
        d@ == timeval_nanos(sec, usec),
{
    let nanos: i64 = usec * 1_000;
    Duration::new(sec as u64, nanos as u32)
}

/// What `getrusage` reported: its status and the user and system times.
#[derive(Clone, Copy, Debug)]
pub struct RawUsage {
    pub status: i32,
    pub user_sec: i64,
    pub user_usec: i64,
    pub system_sec: i64,
    pub system_usec: i64,
}

/// Whether the times of a usage report can be turned into spans.
pub open spec fn usage_fits(usage: RawUsage) -> bool {
    timeval_fits(usage.user_sec, usage.user_usec) && timeval_fits(
        usage.system_sec,
        usage.system_usec,
    )
}

impl ProcPidStats {
    /// The usage of the process from what `getrusage` reported and the wall
    /// clock time since the process started: an error where `getrusage`
    /// failed.
    pub fn fetch(usage: RawUsage, elapsed: Duration) -> (r: Result<ProcPidStats, UsageError>)
        requires
            usage.status == 0 ==> usage_fits(usage),
        ensures
            usage.status != 0 ==> r == Err::<ProcPidStats, UsageError>(UsageError::Unavailable),
            usage.status == 0 ==> (r matches Ok(s) && s.elapsed@ == elapsed@
                && s.user@ == timeval_nanos(usage.user_sec, usage.user_usec)
                && s.system@ == timeval_nanos(usage.system_sec, usage.system_usec)),
    {
        if usage.status == 0 {
            let system = timeval_duration(usage.system_sec, usage.system_usec);
            let user = timeval_duration(usage.user_sec, usage.user_usec);
            Ok(ProcPidStats { elapsed, system, user })
        } else {
            Err(UsageError::Unavailable)
        }
    }

    /// Capture new cpu time, from a successful usage report and the wall
    /// clock time since the process started.
    pub fn cpu(usage: RawUsage, elapsed: Duration) -> (s: ProcPidStats)
        requires
            usage.status == 0,
            usage_fits(usage),
        ensures
            s.elapsed@ == elapsed@,
            s.user@ == timeval_nanos(usage.user_sec, usage.user_usec),
            s.system@ == timeval_nanos(usage.system_sec, usage.system_usec),
    {
        match Self::fetch(usage, elapsed) {
            Ok(s) => s,
            Err(_) => ProcPidStats { elapsed, user: Duration::zero(), system: Duration::zero() },
        }
    }

    /// The usage between an earlier capture `other` and this one, each time
    /// taken apart. None of the times of `other` is the longer.
    pub fn sub(&self, other: &ProcPidStats) -> (d: ProcPidStats)
        requires
            other.elapsed@ <= self.elapsed@,
            other.user@ <= self.user@,
            other.system@ <= self.system@,
        ensures
            d.elapsed@ == self.elapsed@ - other.elapsed@,
            d.user@ == self.user@ - other.user@,
            d.system@ == self.system@ - other.system@,
    {
        ProcPidStats {
            elapsed: self.elapsed.sub(&other.elapsed),
            user: self.user.sub(&other.user),
            system: self.system.sub(&other.system),
        }
    }

    /// A capture with all times zero.
    pub fn zero() -> (s: ProcPidStats)
        ensures
            s.elapsed@ == 0,
            s.user@ == 0,
            s.system@ == 0,
    {
        ProcPidStats { elapsed: Duration::zero(), user: Duration::zero(), system: Duration::zero() }
    }
}

/// Same as calling ProcPidStats::cpu()
pub fn cpu(usage: RawUsage, elapsed: Duration) -> (s: ProcPidStats)
    requires
        usage.status == 0,
        usage_fits(usage),
    ensures
        s.elapsed@ == elapsed@,
        s.user@ == timeval_nanos(usage.user_sec, usage.user_usec),
        s.system@ == timeval_nanos(usage.system_sec, usage.system_usec),
{
    ProcPidStats::cpu(usage, elapsed)
}

/// The hours, minutes and seconds of a span's whole seconds: the hours are
/// taken modulo 2^32 as the cast to `u32` does.
pub open spec fn hms(secs: nat) -> (u32, u8, u8) {
    ((secs / 3600) as u32, (secs / 60 % 60) as u8, (secs % 60) as u8)
}

/// Splits a span into hours, minutes and seconds.
pub fn duration_hms(d: Duration) -> (r: (u32, u8, u8))
    ensures
        r == hms(d@ / (NANOS_PER_SEC as nat)),
        r.1 < 60,
        r.2 < 60,
{
    let sec = d.as_secs();
    let min = sec / 60 % 60;
    let hour = sec / 3600;
    let sec = sec % 60;
    (hour as u32, min as u8, sec as u8)
}

/// Splitting a span takes nothing away: where the hours fit in a `u32`, the
/// hours, minutes and seconds add up to the span's whole seconds.
pub proof fn lemma_hms_sums_up(secs: nat)
    requires
        secs / 3600 <= u32::MAX,
    ensures
        hms(secs).0 * 3600 + hms(secs).1 * 60 + hms(secs).2 == secs,
{
    assert(secs / 60 % 60 < 60);
    assert(secs % 60 < 60);
    assert(secs == (secs / 3600) * 3600 + (secs / 60 % 60) * 60 + secs % 60) by (nonlinear_arith);
}

} // verus!
