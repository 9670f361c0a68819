//! Contract records: the envelope shared by all contract kinds, the
//! per-kind payloads, billing bookkeeping, consumption reports, discount
//! tiers, and the engine's error and event types.

use vstd::prelude::*;
use crate::types::PublicIP;

verus! {

/// Version tag written into every newly created contract.
pub const CONTRACT_VERSION: u32 = 1;

/// Lifecycle state of a contract. `Created` is the only live state;
/// `Deleted` (user-initiated cancel) and `OutOfFunds` (engine-initiated
/// decommission) are terminal.
#[derive(Clone, Copy, PartialEq, Eq, Structural, Debug)]
pub enum ContractState {
    Created,
    Deleted,
    OutOfFunds,
}

impl Default for ContractState {
    fn default() -> (r: ContractState)
        ensures
            r == ContractState::Created,
    {
        ContractState::Created
    }
}

/// Payload of a node-capacity contract: a deployment on one node, with an
/// optional reservation of public IPs.
#[derive(Clone, PartialEq, Eq, Debug)]
pub struct NodeContract {
    pub node_id: u32,
    /// Opaque deployment body, readable only by the user.
    pub deployment_data: Vec<u8>,
    /// Hash of the deployment, set by the user; `(node_id, deployment_hash)`
    /// is unique across live node contracts.
    pub deployment_hash: Vec<u8>,
    /// Number of public IPs the contract asked for.
    pub public_ips: u32,
    /// The addresses actually leased to this contract.
    pub public_ips_list: Vec<PublicIP>,
}

/// Payload of a name-registration contract: a globally unique DNS label.
#[derive(Clone, PartialEq, Eq, Debug)]
pub struct NameContract {
    pub name: Vec<u8>,
}

/// The per-kind payload of a contract.
#[derive(Clone, PartialEq, Eq, Debug)]
pub enum ContractData {
    NodeContract(NodeContract),
    NameContract(NameContract),
}

/// A billable lease: the envelope shared by all contract kinds.
#[derive(Clone, PartialEq, Eq, Debug)]
pub struct Contract {
    pub version: u32,
    pub contract_id: u64,
    pub twin_id: u32,
    pub contract_type: ContractData,
    pub state: ContractState,
}

impl Contract {
    /// Whether this contract is in its live state.
    pub open spec fn is_created(self) -> bool {
        self.state == ContractState::Created
    }

    /// Node id of a node contract; irrelevant for name contracts.
    pub open spec fn spec_node_id(self) -> u32 {
        match self.contract_type {
            ContractData::NodeContract(nc) => nc.node_id,
            ContractData::NameContract(_) => 0,
        }
    }
}

/// Billing bookkeeping kept 1:1 with a contract.
#[derive(Clone, Copy, PartialEq, Eq, Structural, Debug)]
pub struct ContractBillingInformation {
    /// Last seen value of the monotonic network-usage counter, in policy
    /// units rounded up.
    pub previous_nu_reported: u64,
    /// Timestamp (seconds) of the last accounted consumption.
    pub last_updated: u64,
    /// Accrued cost pending the next billing pass.
    pub amount_unbilled: u64,
}

/// A consumption report sent by a node for one contract. `nru` is a
/// cumulative monotonic counter; the other four are point-in-time gauges.
#[derive(Clone, Copy, PartialEq, Eq, Structural, Debug)]
pub struct Consumption {
    pub contract_id: u64,
    pub timestamp: u64,
    pub cru: u64,
    pub sru: u64,
    pub hru: u64,
    pub mru: u64,
    pub nru: u64,
}

/// Balance-proportional discount tier applied when a contract is billed.
#[derive(Clone, Copy, PartialEq, Eq, Structural, Debug)]
pub enum DiscountLevel {
    NoDiscount,
    DefaultDiscount,
    Bronze,
    Silver,
    Gold,
}

/// Record of one completed billing pass, emitted as an event.
#[derive(Clone, Copy, PartialEq, Eq, Structural, Debug)]
pub struct ContractBill {
    pub contract_id: u64,
    pub timestamp: u64,
    pub discount_level: DiscountLevel,
    pub amount_billed: u128,
}

/// Typed failure of an engine call; no error leaves state changed.
#[derive(Clone, Copy, PartialEq, Eq, Structural, Debug)]
pub enum Error {
    TwinNotExists,
    NodeNotExists,
    FarmNotExists,
    FarmHasNotEnoughPublicIPs,
    FarmHasNotEnoughPublicIPsFree,
    ContractNotExists,
    TwinNotAuthorizedToUpdateContract,
    TwinNotAuthorizedToCancelContract,
    NodeNotAuthorizedToComputeReport,
    PricingPolicyNotExists,
    ContractIsNotUnique,
    NameExists,
    NameNotValid,
    WrongContractType,
    CostOverflow,
    BalanceOverflow,
    IPNotFree,
}

/// Observable side effect of a successful state transition, returned to
/// the caller as plain data.
///
/// A reservation of public IPs travels inside `ContractCreated`, whose
/// payload carries the leased addresses; a release at cancellation is
/// reported as `IPsFreed` with the cleared address strings. The release
/// performed by a decommissioning billing pass is part of the pass's
/// stated effect on the farms rather than a separate event.
#[derive(Clone, PartialEq, Eq, Debug)]
pub enum Event {
    ContractCreated(Contract),
    ContractUpdated(Contract),
    ContractCanceled(u64),
    IPsFreed(u64, Vec<Vec<u8>>),
    ConsumptionReportReceived(Consumption),
    ContractBilled(ContractBill),
}

} // verus!
