use vstd::prelude::*;

use crate::memory::{sat_add, sat_add_exec};

verus! {

/// Counters of the invocation pipeline.
#[derive(Debug)]
pub struct OperatorMetrics {
    pub resolve_attempts: u64,
    pub resolve_errors: u64,
    pub invoke_attempts: u64,
    pub invoke_errors: u64,
    pub cbor_decode_errors: u64,
}

/// A point-in-time copy of the pipeline counters.
#[derive(Clone, Copy, Debug, PartialEq, Eq, Structural)]
pub struct OperatorMetricsSnapshot {
    pub resolve_attempts: u64,
    pub resolve_errors: u64,
    pub invoke_attempts: u64,
    pub invoke_errors: u64,
    pub cbor_decode_errors: u64,
}

impl OperatorMetrics {
    pub fn new() -> (r: OperatorMetrics)
        ensures
            r.resolve_attempts == 0,
            r.resolve_errors == 0,
            r.invoke_attempts == 0,
            r.invoke_errors == 0,
            r.cbor_decode_errors == 0,
    {
        OperatorMetrics {
            resolve_attempts: 0,
            resolve_errors: 0,
            invoke_attempts: 0,
            invoke_errors: 0,
            cbor_decode_errors: 0,
        }
    }

    pub fn count_resolve_attempt(&mut self)
        ensures
            *final(self) == (OperatorMetrics {
                resolve_attempts: sat_add(old(self).resolve_attempts, 1),
                ..*old(self)
            }),
    {
        self.resolve_attempts = sat_add_exec(self.resolve_attempts, 1);
    }

    pub fn count_resolve_error(&mut self)
        ensures
            *final(self) == (OperatorMetrics {
                resolve_errors: sat_add(old(self).resolve_errors, 1),
                ..*old(self)
            }),
    {
        self.resolve_errors = sat_add_exec(self.resolve_errors, 1);
    }

    pub fn count_invoke_attempt(&mut self)
        ensures
            *final(self) == (OperatorMetrics {
                invoke_attempts: sat_add(old(self).invoke_attempts, 1),
                ..*old(self)
            }),
    {
        self.invoke_attempts = sat_add_exec(self.invoke_attempts, 1);
    }

    pub fn count_invoke_error(&mut self)
        ensures
            *final(self) == (OperatorMetrics {
                invoke_errors: sat_add(old(self).invoke_errors, 1),
                ..*old(self)
            }),
    {
        self.invoke_errors = sat_add_exec(self.invoke_errors, 1);
    }

    pub fn count_cbor_decode_error(&mut self)
        ensures
            *final(self) == (OperatorMetrics {
                cbor_decode_errors: sat_add(old(self).cbor_decode_errors, 1),
                ..*old(self)
            }),
    {
        self.cbor_decode_errors = sat_add_exec(self.cbor_decode_errors, 1);
    }

    /// The counters, copied out.
    pub fn snapshot(&self) -> (r: OperatorMetricsSnapshot)
        ensures
            r.resolve_attempts == self.resolve_attempts,
            r.resolve_errors == self.resolve_errors,
            r.invoke_attempts == self.invoke_attempts,
            r.invoke_errors == self.invoke_errors,
            r.cbor_decode_errors == self.cbor_decode_errors,
    {
        OperatorMetricsSnapshot {
            resolve_attempts: self.resolve_attempts,
            resolve_errors: self.resolve_errors,
            invoke_attempts: self.invoke_attempts,
            invoke_errors: self.invoke_errors,
            cbor_decode_errors: self.cbor_decode_errors,
        }
    }
}

} // verus!
