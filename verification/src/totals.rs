//! Running totals of call results, shared between the threads of a run.
use vstd::prelude::*;
use std::sync::atomic::AtomicU64;
use crate::classicy::{classify, outcome_of, LocalTotals, Outcome, Sample};
use crate::cputime::ProcPidStats;

verus! {

/// Totals of one kind of call result, added to by several threads at once.
pub struct Totals {
    pub count: AtomicU64,
    pub bytes_up: AtomicU64,
    pub bytes_down: AtomicU64,
    pub elapsed: AtomicU64,
}

/// The totals of each kind of call result.
pub struct TotalsSet {
    pub success: Totals,
    pub client_fail: Totals,
    pub server_fail: Totals,
    pub conn_error: Totals,
}

impl Totals {
    /// Totals with nothing counted.
    pub fn new() -> (t: Totals) {
        Totals {
            count: AtomicU64::new(0),
            bytes_up: AtomicU64::new(0),
            bytes_down: AtomicU64::new(0),
            elapsed: AtomicU64::new(0),
        }
    }

    /// A snapshot of the totals. What the other threads have added by the
    /// time of each load is not known here, so the contract says nothing of
    /// the four totals; it has no errors counted and a zero cpu capture.
    pub fn into_local(&self) -> (l: LocalTotals)
        ensures
            l.error_count == 0,
            l.cpu.elapsed@ == 0,
            l.cpu.user@ == 0,
            l.cpu.system@ == 0,
    {
        LocalTotals {
            count: self.count.load(std::sync::atomic::Ordering::Relaxed),
            bytes_up: self.bytes_up.load(std::sync::atomic::Ordering::Relaxed),
            bytes_down: self.bytes_down.load(std::sync::atomic::Ordering::Relaxed),
            elapsed: self.elapsed.load(std::sync::atomic::Ordering::Relaxed),
            error_count: 0,
            cpu: ProcPidStats::zero(),
        }
    }

    /// Counts one call that took `elapsed_millis` and moved the given
    /// numbers of bytes (each total wraps around as `fetch_add` does).
    pub fn record(&self, elapsed_millis: u64, bytes_up: u64, bytes_down: u64) {
        self.count.fetch_add(1, std::sync::atomic::Ordering::Relaxed);
        self.elapsed.fetch_add(elapsed_millis, std::sync::atomic::Ordering::Relaxed);
        self.bytes_up.fetch_add(bytes_up, std::sync::atomic::Ordering::Relaxed);
        self.bytes_down.fetch_add(bytes_down, std::sync::atomic::Ordering::Relaxed);
    }
}

impl TotalsSet {
    /// Totals of each kind with nothing counted.
    pub fn new() -> (t: TotalsSet) {
        TotalsSet {
            success: Totals::new(),
            client_fail: Totals::new(),
            server_fail: Totals::new(),
            conn_error: Totals::new(),
        }
    }

    /// Snapshots of the four kinds: success, client failure, server
    /// failure, connection error.
    pub fn into_local(&self) -> (r: (LocalTotals, LocalTotals, LocalTotals, LocalTotals))
        ensures
            r.0.error_count == 0 && r.1.error_count == 0 && r.2.error_count == 0
                && r.3.error_count == 0,
    {
        (
            self.success.into_local(),
            self.client_fail.into_local(),
            self.server_fail.into_local(),
            self.conn_error.into_local(),
        )
    }

    /// The totals that count results of the kind `outcome`.
    pub fn totals_for(&self, outcome: Outcome) -> (t: &Totals)
        ensures
            *t == match outcome {
                Outcome::Success => self.success,
                Outcome::ClientFail => self.client_fail,
                Outcome::ServerFail => self.server_fail,
                Outcome::ConnError => self.conn_error,
            },
    {
        match outcome {
            Outcome::Success => &self.success,
            Outcome::ClientFail => &self.client_fail,
            Outcome::ServerFail => &self.server_fail,
            Outcome::ConnError => &self.conn_error,
        }
    }

    /// Counts a sample in the totals of its kind, as the logger does, and
    /// returns that kind: the kind that the sample's response code names.
    /// The counters themselves are std atomics, whose values no contract
    /// here can speak of.
    pub fn record(&self, sample: &Sample) -> (o: Outcome)
        ensures
            o == outcome_of(sample.response_code@),
    {
        let outcome = classify(sample.response_code.as_str());
        let totals = self.totals_for(outcome);
        totals.record(sample.elapsed_millis(), sample.bytes_up, sample.bytes_down);
        outcome
    }
}

} // verus!
