//! Prioritization fees derived from a compute-unit price.

use vstd::prelude::*;

verus! {

/// There are 10^6 micro-lamports in one lamport.
pub const MICRO_LAMPORTS_PER_LAMPORT: u64 = 1_000_000;

/// The way a transaction states what it is willing to pay for priority.
pub enum PrioritizationFeeType {
    /// Price of one compute unit, in micro-lamports.
    ComputeUnitPrice(u64),
}

/// The fee, in lamports, that a compute-unit price amounts to.
#[derive(Debug, PartialEq, Eq, Structural)]
pub struct PrioritizationFeeDetails {
    fee: u64,
    compute_unit_price: u64,
}

/// The fee in lamports for `compute_unit_limit` units at `compute_unit_price`
/// micro-lamports each: the product rounded up to a whole lamport, capped at
/// `u64::MAX`.
pub open spec fn fee_in_lamports(compute_unit_price: u64, compute_unit_limit: u64) -> int {
    let lamports = (compute_unit_price * compute_unit_limit + (MICRO_LAMPORTS_PER_LAMPORT - 1))
        / (MICRO_LAMPORTS_PER_LAMPORT as int);
    if lamports > u64::MAX {
        u64::MAX as int
    } else {
        lamports
    }
}

impl PrioritizationFeeDetails {
    pub closed spec fn fee(&self) -> u64 {
        self.fee
    }

    pub closed spec fn compute_unit_price(&self) -> u64 {
        self.compute_unit_price
    }

    pub fn new(fee_type: PrioritizationFeeType, compute_unit_limit: u64) -> (details: Self)
        ensures
            details.compute_unit_price() == fee_type->ComputeUnitPrice_0,
            details.fee() == fee_in_lamports(fee_type->ComputeUnitPrice_0, compute_unit_limit),
    {
        match fee_type {
            PrioritizationFeeType::ComputeUnitPrice(compute_unit_price) => {
                assert(compute_unit_price * compute_unit_limit <= 0xffff_ffff_ffff_ffff
                    * 0xffff_ffff_ffff_ffff) by (nonlinear_arith)
                    requires
                        compute_unit_price <= 0xffff_ffff_ffff_ffff,
                        compute_unit_limit <= 0xffff_ffff_ffff_ffff,
                ;
                let micro_lamport_fee: u128 = (compute_unit_price as u128) * (
                compute_unit_limit as u128);
                let rounded: u128 = micro_lamport_fee + (MICRO_LAMPORTS_PER_LAMPORT - 1) as u128;
                let lamports: u128 = rounded / (MICRO_LAMPORTS_PER_LAMPORT as u128);
                let fee: u64 = if lamports > u64::MAX as u128 {
                    u64::MAX
                } else {
                    lamports as u64
                };
                PrioritizationFeeDetails { fee, compute_unit_price }
            },
        }
    }

    pub fn get_fee(&self) -> (fee: u64)
        ensures
            fee == self.fee(),
    {
        self.fee
    }

    pub fn get_compute_unit_price(&self) -> (price: u64)
        ensures
            price == self.compute_unit_price(),
    {
        self.compute_unit_price
    }
}

impl Default for PrioritizationFeeDetails {
    fn default() -> (details: Self)
        ensures
            details.fee() == 0,
            details.compute_unit_price() == 0,
    {
        PrioritizationFeeDetails { fee: 0, compute_unit_price: 0 }
    }
}

} // verus!
