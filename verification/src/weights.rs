//! Call weights, their saturating arithmetic, and the weights of the calls
//! of the names registry.
use vstd::prelude::*;

verus! {

/// Weight of a call: computation time and proof size.
#[derive(Clone, Copy, PartialEq, Eq, Debug, Structural)]
pub struct Weight {
    pub ref_time: u64,
    pub proof_size: u64,
}

/// Weight of one database read and one database write.
#[derive(Clone, Copy, PartialEq, Eq, Debug, Structural)]
pub struct DbWeight {
    pub read: u64,
    pub write: u64,
}

/// `a + b`, saturating.
pub open spec fn sat_add(a: u64, b: u64) -> u64 {
    if a + b > u64::MAX {
        u64::MAX
    } else {
        (a + b) as u64
    }
}

/// `a * b`, saturating.
pub open spec fn sat_mul(a: u64, b: u64) -> u64 {
    if a * b > u64::MAX {
        u64::MAX
    } else {
        (a * b) as u64
    }
}

/// The component-wise saturating sum of two weights.
pub open spec fn weight_add(a: Weight, b: Weight) -> Weight {
    Weight { ref_time: sat_add(a.ref_time, b.ref_time), proof_size: sat_add(a.proof_size, b.proof_size) }
}

/// A weight scaled by `n` in both components, saturating.
pub open spec fn weight_scale(a: Weight, n: u64) -> Weight {
    Weight { ref_time: sat_mul(a.ref_time, n), proof_size: sat_mul(a.proof_size, n) }
}

/// Whether `a` is within `b` in both components.
pub open spec fn weight_within(a: Weight, b: Weight) -> bool {
    a.ref_time <= b.ref_time && a.proof_size <= b.proof_size
}

impl Weight {
    /// The component-wise saturating sum.
    pub fn saturating_add(self, other: Weight) -> (r: Weight)
        ensures
            r == weight_add(self, other),
    {
        Weight {
            ref_time: self.ref_time.saturating_add(other.ref_time),
            proof_size: self.proof_size.saturating_add(other.proof_size),
        }
    }

    /// Both components multiplied by `n`, saturating.
    pub fn saturating_mul(self, n: u64) -> (r: Weight)
        ensures
            r == weight_scale(self, n),
    {
        Weight { ref_time: mul_sat(self.ref_time, n), proof_size: mul_sat(self.proof_size, n) }
    }

    /// Whether both components are at most those of `other`.
    pub fn all_lte(self, other: Weight) -> (r: bool)
        ensures
            r == weight_within(self, other),
    {
        self.ref_time <= other.ref_time && self.proof_size <= other.proof_size
    }
}

/// The weight of a call with base weight `(ref_time, proof_size)` that reads
/// `reads` and writes `writes` times: the database time is added to the
/// computation time, saturating.
pub open spec fn weight_with_db(ref_time: u64, proof_size: u64, reads: u64, writes: u64, db: DbWeight) -> Weight {
    Weight {
        ref_time: sat_add(sat_add(ref_time, sat_mul(db.read, reads)), sat_mul(db.write, writes)),
        proof_size,
    }
}

/// `a * b`, saturating.
fn mul_sat(a: u64, b: u64) -> (r: u64)
    ensures
        r == sat_mul(a, b),
{
    match a.checked_mul(b) {
        Some(v) => v,
        None => u64::MAX,
    }
}

/// The weight of a call with base weight `(ref_time, proof_size)` that reads
/// `reads` and writes `writes` times.
pub fn with_db(ref_time: u64, proof_size: u64, reads: u64, writes: u64, db: DbWeight) -> (r: Weight)
    ensures
        r == weight_with_db(ref_time, proof_size, reads, writes, db),
{
    let t = ref_time.saturating_add(mul_sat(db.read, reads)).saturating_add(mul_sat(db.write, writes));
    Weight { ref_time: t, proof_size }
}

/// Weights of the calls of the names registry.
pub trait WeightInfo {
    fn commit(&self) -> Weight;

    fn cancel_commitment(&self) -> Weight;

    fn prune_commitment(&self) -> Weight;

    fn register(&self) -> Weight;

    fn renew(&self) -> Weight;

    fn transfer(&self) -> Weight;

    fn controller(&self) -> Weight;

    fn resolver_write(&self) -> Weight;

    fn set_text(&self) -> Weight;

    fn set_primary(&self) -> Weight;

    fn remove_name(&self) -> Weight;

    fn reservation(&self) -> Weight;

    fn emergency(&self) -> Weight;
}

/// The base weights alone, for tests.
#[derive(Clone, Copy, PartialEq, Eq, Debug, Structural)]
pub struct BaseWeights;

/// The weights of a chain whose database reads and writes cost `db`.
#[derive(Clone, Copy, PartialEq, Eq, Debug, Structural)]
pub struct SubstrateWeight {
    pub db: DbWeight,
}

impl WeightInfo for BaseWeights {
    fn commit(&self) -> (r: Weight)
        ensures
            r == (Weight { ref_time: 28_000_000, proof_size: 3_600 }),
    {
        Weight { ref_time: 28_000_000, proof_size: 3_600 }
    }

    fn cancel_commitment(&self) -> (r: Weight)
        ensures
            r == (Weight { ref_time: 20_000_000, proof_size: 3_600 }),
    {
        Weight { ref_time: 20_000_000, proof_size: 3_600 }
    }

    fn prune_commitment(&self) -> (r: Weight)
        ensures
            r == (Weight { ref_time: 20_000_000, proof_size: 3_600 }),
    {
        self.cancel_commitment()
    }

    fn register(&self) -> (r: Weight)
        ensures
            r == (Weight { ref_time: 95_000_000, proof_size: 8_000 }),
    {
        Weight { ref_time: 95_000_000, proof_size: 8_000 }
    }

    fn renew(&self) -> (r: Weight)
        ensures
            r == (Weight { ref_time: 32_000_000, proof_size: 4_000 }),
    {
        Weight { ref_time: 32_000_000, proof_size: 4_000 }
    }

    fn transfer(&self) -> (r: Weight)
        ensures
            r == (Weight { ref_time: 58_000_000, proof_size: 6_000 }),
    {
        Weight { ref_time: 58_000_000, proof_size: 6_000 }
    }

    fn controller(&self) -> (r: Weight)
        ensures
            r == (Weight { ref_time: 32_000_000, proof_size: 4_500 }),
    {
        Weight { ref_time: 32_000_000, proof_size: 4_500 }
    }

    fn resolver_write(&self) -> (r: Weight)
        ensures
            r == (Weight { ref_time: 30_000_000, proof_size: 4_500 }),
    {
        Weight { ref_time: 30_000_000, proof_size: 4_500 }
    }

    fn set_text(&self) -> (r: Weight)
        ensures
            r == (Weight { ref_time: 48_000_000, proof_size: 6_000 }),
    {
        Weight { ref_time: 48_000_000, proof_size: 6_000 }
    }

    fn set_primary(&self) -> (r: Weight)
        ensures
            r == (Weight { ref_time: 24_000_000, proof_size: 4_000 }),
    {
        Weight { ref_time: 24_000_000, proof_size: 4_000 }
    }

    fn remove_name(&self) -> (r: Weight)
        ensures
            r == (Weight { ref_time: 85_000_000, proof_size: 8_000 }),
    {
        Weight { ref_time: 85_000_000, proof_size: 8_000 }
    }

    fn reservation(&self) -> (r: Weight)
        ensures
            r == (Weight { ref_time: 35_000_000, proof_size: 4_500 }),
    {
        Weight { ref_time: 35_000_000, proof_size: 4_500 }
    }

    fn emergency(&self) -> (r: Weight)
        ensures
            r == (Weight { ref_time: 100_000_000, proof_size: 8_000 }),
    {
        Weight { ref_time: 100_000_000, proof_size: 8_000 }
    }
}

impl WeightInfo for SubstrateWeight {
    fn commit(&self) -> (r: Weight)
        ensures
            r == weight_with_db(28_000_000, 3_600, 3, 2, self.db),
    {
        with_db(28_000_000, 3_600, 3, 2, self.db)
    }

    fn cancel_commitment(&self) -> (r: Weight)
        ensures
            r == weight_with_db(20_000_000, 3_600, 2, 2, self.db),
    {
        with_db(20_000_000, 3_600, 2, 2, self.db)
    }

    fn prune_commitment(&self) -> (r: Weight)
        ensures
            r == weight_with_db(20_000_000, 3_600, 2, 2, self.db),
    {
        self.cancel_commitment()
    }

    fn register(&self) -> (r: Weight)
        ensures
            r == weight_with_db(95_000_000, 8_000, 12, 9, self.db),
    {
        with_db(95_000_000, 8_000, 12, 9, self.db)
    }

    fn renew(&self) -> (r: Weight)
        ensures
            r == weight_with_db(32_000_000, 4_000, 4, 1, self.db),
    {
        with_db(32_000_000, 4_000, 4, 1, self.db)
    }

    fn transfer(&self) -> (r: Weight)
        ensures
            r == weight_with_db(58_000_000, 6_000, 7, 6, self.db),
    {
        with_db(58_000_000, 6_000, 7, 6, self.db)
    }

    fn controller(&self) -> (r: Weight)
        ensures
            r == weight_with_db(32_000_000, 4_500, 3, 1, self.db),
    {
        with_db(32_000_000, 4_500, 3, 1, self.db)
    }

    fn resolver_write(&self) -> (r: Weight)
        ensures
            r == weight_with_db(30_000_000, 4_500, 6, 1, self.db),
    {
        with_db(30_000_000, 4_500, 6, 1, self.db)
    }

    fn set_text(&self) -> (r: Weight)
        ensures
            r == weight_with_db(48_000_000, 6_000, 5, 3, self.db),
    {
        with_db(48_000_000, 6_000, 5, 3, self.db)
    }

    fn set_primary(&self) -> (r: Weight)
        ensures
            r == weight_with_db(24_000_000, 4_000, 3, 1, self.db),
    {
        with_db(24_000_000, 4_000, 3, 1, self.db)
    }

    fn remove_name(&self) -> (r: Weight)
        ensures
            r == weight_with_db(85_000_000, 8_000, 10, 10, self.db),
    {
        with_db(85_000_000, 8_000, 10, 10, self.db)
    }

    fn reservation(&self) -> (r: Weight)
        ensures
            r == weight_with_db(35_000_000, 4_500, 4, 2, self.db),
    {
        with_db(35_000_000, 4_500, 4, 2, self.db)
    }

    fn emergency(&self) -> (r: Weight)
        ensures
            r == weight_with_db(100_000_000, 8_000, 12, 12, self.db),
    {
        with_db(100_000_000, 8_000, 12, 12, self.db)
    }
}

} // verus!
