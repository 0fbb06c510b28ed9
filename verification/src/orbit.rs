//! A pull-based generator for arbitrary-precision `z * z + c` orbits over
//! integers, optionally capped to a maximum number of emitted terms.
//!
//! Two named starting shapes exist: `mandelbrot` fixes `z_0 = 0` and varies
//! the addend, `julia` starts at the given point with a fixed addend. Each
//! call to `next` emits the current term and advances the recurrence.

use vstd::prelude::*;
use num_bigint::BigInt;
use crate::bigint::{big_value, big_from_i128, big_clone, big_add, big_mul};

verus! {

/// Mathematical model of a generator: current term, addend, optional cap on
/// the count of emitted terms, and how many terms were emitted so far.
pub ghost struct OrbitV {
    pub z: int,
    pub c: int,
    pub limit: Option<int>,
    pub count: int,
}

/// The generator refuses to emit: a cap is set and already passed.
pub open spec fn exhausted(v: OrbitV) -> bool {
    match v.limit {
        Some(l) => v.count > l,
        None => false,
    }
}

/// An integer `z * z + c` orbit, produced one term per `next` call.
pub struct Orbit {
    z: BigInt,
    c: BigInt,
    limit: Option<u128>,
    count: u128,
}

impl View for Orbit {
    type V = OrbitV;

    closed spec fn view(&self) -> OrbitV {
        OrbitV {
            z: big_value(self.z),
            c: big_value(self.c),
            limit: (match self.limit {
                Some(l) => Some(l as int),
                None => None,
            }),
            count: self.count as int,
        }
    }
}

impl Orbit {
    /// A generator starting at `z` with addend `c`; with `Some(limit)` it
    /// emits `limit + 1` terms, with `None` it never refuses.
    pub fn new(z: i128, c: i128, limit: Option<u128>) -> (r: Orbit)
        ensures
            r@.z == z as int,
            r@.c == c as int,
            r@.count == 0,
            (match limit {
                Some(l) => r@.limit == Some(l as int),
                None => r@.limit is None,
            }),
    {
        Orbit { z: big_from_i128(z), c: big_from_i128(c), limit, count: 0 }
    }

    /// Emits the current term and steps the recurrence `z <- z * z + c`;
    /// refuses once a set cap is passed, leaving the state unchanged.
    pub fn next(&mut self) -> (r: Option<BigInt>)
        requires
            exhausted(old(self)@) || old(self)@.count < u128::MAX,
        ensures
            exhausted(old(self)@) ==> r is None && final(self)@ == old(self)@,
            !exhausted(old(self)@) ==> {
                &&& r matches Some(v) && big_value(v) == old(self)@.z
                &&& final(self)@.z == old(self)@.z * old(self)@.z + old(self)@.c
                &&& final(self)@.c == old(self)@.c
                &&& final(self)@.limit == old(self)@.limit
                &&& final(self)@.count == old(self)@.count + 1
            },
    {
        let r = big_clone(&self.z);
        if let Some(limit) = self.limit {
            if self.count > limit {
                return None;
            }
        }
        let sq = big_mul(&self.z, &self.z);
        self.z = big_add(&sq, &self.c);
        self.count = self.count + 1;
        Some(r)
    }
}

/// A Mandelbrot-style orbit for the candidate `c`: starts at `0`, adds `c`,
/// no cap.
pub fn mandelbrot(c: i128) -> (r: Orbit)
    ensures
        r@.z == 0,
        r@.c == c as int,
        r@.limit is None,
        r@.count == 0,
{
    Orbit::new(0, c, None)
}

/// A Julia-style orbit: starts at the point `c`, adds `p`, no cap.
pub fn julia(c: i128, p: i128) -> (r: Orbit)
    ensures
        r@.z == c as int,
        r@.c == p as int,
        r@.limit is None,
        r@.count == 0,
{
    Orbit::new(c, p, None)
}

} // verus!
