//! Directory data: twins, nodes, farms, public IP addresses and pricing
//! policies.
//!
//! The directory is an external collaborator of the engine; it is held here
//! as plain data that the host feeds in, and the engine only reads it,
//! except for the `contract_id` lease mark on a farm's public IPs.

use vstd::prelude::*;

verus! {

/// Unit in which a pricing policy expresses resource amounts.
#[derive(Clone, Copy, PartialEq, Eq, Structural, Debug)]
pub enum Unit {
    Bytes,
    Kilobytes,
    Megabytes,
    Gigabytes,
    Terrabytes,
}

impl Default for Unit {
    fn default() -> (r: Unit)
        ensures
            r == Unit::Gigabytes,
    {
        Unit::Gigabytes
    }
}

/// Number of bytes that one unit stands for.
pub open spec fn unit_factor(u: Unit) -> u128 {
    match u {
        Unit::Bytes => 1,
        Unit::Kilobytes => 1024,
        Unit::Megabytes => 1048576,
        Unit::Gigabytes => 1073741824,
        Unit::Terrabytes => 1099511627776,
    }
}

/// One rate entry of a pricing policy: a price per unit per hour.
#[derive(Clone, Copy, PartialEq, Eq, Structural, Debug)]
pub struct Policy {
    pub value: u32,
    pub unit: Unit,
}

impl Policy {
    /// Number of bytes that one unit of this policy stands for.
    pub fn factor(&self) -> (r: u128)
        ensures
            r == unit_factor(self.unit),
    {
        match self.unit {
            Unit::Bytes => 1,
            Unit::Kilobytes => 1024,
            Unit::Megabytes => 1048576,
            Unit::Gigabytes => 1073741824,
            Unit::Terrabytes => 1099511627776,
        }
    }
}

/// Per-farm rate table mapping resource units to cost, and the accounts
/// that receive the foundation and certified-sales shares of each payment.
#[derive(Clone, PartialEq, Eq, Debug)]
pub struct PricingPolicy {
    pub id: u32,
    pub name: Vec<u8>,
    pub su: Policy,
    pub cu: Policy,
    pub nu: Policy,
    pub ipu: Policy,
    pub foundation_account: u64,
    pub certified_sales_account: u64,
}

/// Certification level of a farm; certified capacity costs more.
#[derive(Clone, Copy, PartialEq, Eq, Structural, Debug)]
pub enum CertificationType {
    Diy,
    Certified,
}

impl Default for CertificationType {
    fn default() -> (r: CertificationType)
        ensures
            r == CertificationType::Diy,
    {
        CertificationType::Diy
    }
}

/// Kind of entity a certification code applies to.
#[derive(Clone, Copy, PartialEq, Eq, Structural, Debug)]
pub enum CertificationCodeType {
    Farm,
    Entity,
}

impl Default for CertificationCodeType {
    fn default() -> (r: CertificationCodeType)
        ensures
            r == CertificationCodeType::Farm,
    {
        CertificationCodeType::Farm
    }
}

/// Raw capacity of a node.
#[derive(Clone, Copy, PartialEq, Eq, Structural, Debug)]
pub struct Resources {
    pub hru: u64,
    pub sru: u64,
    pub cru: u64,
    pub mru: u64,
}

/// Makes an owned copy of a byte string with the same contents.
pub fn clone_bytes(v: &Vec<u8>) -> (r: Vec<u8>)
    ensures
        r@ == v@,
{
    let r = v.clone();
    proof {
        assert forall|i: int| 0 <= i < v@.len() implies r@[i] == v@[i] by {}
        assert(r@ =~= v@);
    }
    r
}

/// A public IPv4 address owned by a farm. `contract_id == 0` means the
/// address is free; otherwise it is leased exclusively to that contract.
#[derive(Clone, PartialEq, Eq, Debug)]
pub struct PublicIP {
    pub ip: Vec<u8>,
    pub gateway: Vec<u8>,
    pub contract_id: u64,
}

/// An identity that can own contracts, nodes and farms, bound to a ledger
/// account.
#[derive(Clone, Copy, PartialEq, Eq, Structural, Debug)]
pub struct Twin {
    pub id: u32,
    pub account_id: u64,
}

/// A machine offering capacity, placed in a farm.
#[derive(Clone, Copy, PartialEq, Eq, Structural, Debug)]
pub struct Node {
    pub id: u32,
    pub farm_id: u32,
    pub twin_id: u32,
    pub resources: Resources,
}

/// A collection of nodes and public IPs run by one twin under one pricing
/// policy.
#[derive(Clone, PartialEq, Eq, Debug)]
pub struct Farm {
    pub id: u32,
    pub name: Vec<u8>,
    pub twin_id: u32,
    pub pricing_policy_id: u32,
    pub certification_type: CertificationType,
    pub public_ips: Vec<PublicIP>,
}

} // verus!
