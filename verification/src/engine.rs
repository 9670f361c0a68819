//! The contract registry and billing engine.
//!
//! One `Engine` value holds the whole state: the directory of twins,
//! nodes, farms and pricing policies that the host feeds in, the currency
//! ledger, the contract records with their billing bookkeeping, and the
//! billing schedule. Every state transition is one atomic call that either
//! completes fully or fails with a typed error and no change.
//!
//! The well-formedness invariant `wf` ties the parts together: records
//! carry sequential ids, every live contract sits in exactly one future
//! billing bucket, every leased public IP points to a live node contract
//! in the farm that owns the address, and live uniqueness keys never
//! collide.

use vstd::prelude::*;
use crate::contracts::{
    Contract, ContractBillingInformation, ContractData, ContractState, Consumption, ContractBill,
    DiscountLevel, Error, Event, NameContract, NodeContract, CONTRACT_VERSION,
};
use crate::billing;
use crate::ledger;
use crate::pool;
use crate::schedule;
use crate::types::{clone_bytes, CertificationType, Farm, Node, PricingPolicy, Policy, PublicIP, Resources, Twin};

verus! {

/// Number of epochs between two billing fires of one contract.
pub const BILLING_FREQUENCY_IN_BLOCKS: u64 = 60;

/// Seconds of wall-clock time that one epoch stands for.
pub const EPOCH_SECONDS: u64 = 60;

/// The resource-contract and metered-billing engine.
pub struct Engine {
    /// Directory: identities bound to ledger accounts.
    pub twins: Vec<Twin>,
    /// Directory: machines offering capacity.
    pub nodes: Vec<Node>,
    /// Directory: farms with their public IPs; the engine leases and
    /// releases the `contract_id` marks on the addresses.
    pub farms: Vec<Farm>,
    /// Directory: rate tables.
    pub pricing_policies: Vec<PricingPolicy>,
    /// Currency ledger: account balances.
    pub balances: Vec<(u64, u128)>,
    /// All contracts ever created; entry `i` holds contract id `i + 1`.
    pub contracts: Vec<Contract>,
    /// Billing bookkeeping, aligned with `contracts`.
    pub billing: Vec<ContractBillingInformation>,
    /// Billing schedule: `(epoch, contract_id)` entries.
    pub schedule: Vec<(u64, u64)>,
    /// Last contract id handed out.
    pub last_contract_id: u64,
    /// Last epoch whose billing fired.
    pub current_epoch: u64,
    /// Wall-clock time in seconds, fed by the host.
    pub now_seconds: u64,
}

/// Contract records carry sequential ids and have billing bookkeeping
/// aligned with them.
pub open spec fn contracts_ok(
    contracts: Seq<Contract>,
    billing_info: Seq<ContractBillingInformation>,
    last_id: u64,
) -> bool {
    &&& billing_info.len() == contracts.len()
    &&& last_id == contracts.len()
    &&& forall|i: int| 0 <= i < contracts.len() ==> (#[trigger] contracts[i]).contract_id == i + 1
}

/// Whether this contract id names a live (`Created`) contract.
pub open spec fn is_created_in(contracts: Seq<Contract>, id: u64) -> bool {
    1 <= id <= contracts.len() && contracts[id - 1].state == ContractState::Created
}

/// The billing schedule holds exactly the live contracts, each once, at a
/// future epoch.
pub open spec fn schedule_ok(
    sched: Seq<(u64, u64)>,
    contracts: Seq<Contract>,
    current_epoch: u64,
) -> bool {
    &&& forall|k: int|
        0 <= k < sched.len() ==> (#[trigger] sched[k]).0 > current_epoch && is_created_in(
            contracts,
            sched[k].1,
        )
    &&& schedule::ids_distinct(sched)
    &&& forall|i: int|
        0 <= i < contracts.len() && (#[trigger] contracts[i]).state == ContractState::Created
            ==> schedule::has_id(sched, contracts[i].contract_id)
}

/// Directory records carry sequential ids.
pub open spec fn directory_ok(
    twins: Seq<Twin>,
    nodes: Seq<Node>,
    farms: Seq<Farm>,
    policies: Seq<PricingPolicy>,
) -> bool {
    &&& forall|i: int| 0 <= i < twins.len() ==> (#[trigger] twins[i]).id == i + 1
    &&& forall|i: int| 0 <= i < nodes.len() ==> (#[trigger] nodes[i]).id == i + 1
    &&& forall|i: int| 0 <= i < farms.len() ==> (#[trigger] farms[i]).id == i + 1
    &&& forall|i: int| 0 <= i < policies.len() ==> (#[trigger] policies[i]).id == i + 1
}

/// Whether the node with this id exists and stands in the given farm.
pub open spec fn node_in_farm(nodes: Seq<Node>, node_id: u32, farm_id: u32) -> bool {
    1 <= node_id <= nodes.len() && nodes[node_id - 1].farm_id == farm_id
}

/// What backs a lease: a live node contract with that id which asked for
/// public IPs and whose node stands in the farm holding the address.
pub open spec fn lease_backed(
    contracts: Seq<Contract>,
    nodes: Seq<Node>,
    contract_id: u64,
    farm_id: u32,
) -> bool {
    &&& is_created_in(contracts, contract_id)
    &&& match contracts[contract_id - 1].contract_type {
        ContractData::NodeContract(nc) => nc.public_ips > 0 && node_in_farm(
            nodes,
            nc.node_id,
            farm_id,
        ),
        ContractData::NameContract(_) => false,
    }
}

/// Every leased public IP of every farm is backed by a live node contract
/// in that farm; in particular no address is ever leased to a terminated
/// contract, and no two live contracts share one.
pub open spec fn leases_ok(farms: Seq<Farm>, contracts: Seq<Contract>, nodes: Seq<Node>) -> bool {
    forall|fi: int, k: int|
        0 <= fi < farms.len() && 0 <= k < farms[fi].public_ips@.len() && (#[trigger] farms[fi]
            .public_ips@[k]).contract_id != 0 ==> lease_backed(
            contracts,
            nodes,
            farms[fi].public_ips@[k].contract_id,
            farms[fi].id,
        )
}

/// Whether two contracts collide on the node-contract uniqueness key
/// `(node_id, deployment_hash)`.
pub open spec fn same_node_key(c1: Contract, c2: Contract) -> bool {
    match (c1.contract_type, c2.contract_type) {
        (ContractData::NodeContract(a), ContractData::NodeContract(b)) => a.node_id == b.node_id
            && a.deployment_hash@ == b.deployment_hash@,
        _ => false,
    }
}

/// Whether two contracts collide on the name-contract uniqueness key.
pub open spec fn same_name(c1: Contract, c2: Contract) -> bool {
    match (c1.contract_type, c2.contract_type) {
        (ContractData::NameContract(a), ContractData::NameContract(b)) => a.name@ == b.name@,
        _ => false,
    }
}

/// Live contracts never collide on a uniqueness key.
pub open spec fn uniqueness_ok(contracts: Seq<Contract>) -> bool {
    forall|i: int, j: int|
        0 <= i < j < contracts.len() && (#[trigger] contracts[i]).state == ContractState::Created
            && (#[trigger] contracts[j]).state == ContractState::Created ==> !same_node_key(
            contracts[i],
            contracts[j],
        ) && !same_name(contracts[i], contracts[j])
}

/// Whether some live node contract holds the key `(node_id, hash)`.
pub open spec fn has_live_node_key(contracts: Seq<Contract>, node_id: u32, hash: Seq<u8>) -> bool {
    exists|i: int|
        0 <= i < contracts.len() && contract_matches_node_key(
            #[trigger] contracts[i],
            node_id,
            hash,
        )
}

/// Whether this contract is a live node contract with the given key.
pub open spec fn contract_matches_node_key(c: Contract, node_id: u32, hash: Seq<u8>) -> bool {
    c.state == ContractState::Created && match c.contract_type {
        ContractData::NodeContract(nc) => nc.node_id == node_id && nc.deployment_hash@ == hash,
        ContractData::NameContract(_) => false,
    }
}

/// Whether some live name contract holds this name.
pub open spec fn has_live_name(contracts: Seq<Contract>, name: Seq<u8>) -> bool {
    exists|i: int|
        0 <= i < contracts.len() && contract_matches_name(#[trigger] contracts[i], name)
}

/// Whether this contract is a live name contract with the given name.
pub open spec fn contract_matches_name(c: Contract, name: Seq<u8>) -> bool {
    c.state == ContractState::Created && match c.contract_type {
        ContractData::NodeContract(_) => false,
        ContractData::NameContract(nc) => nc.name@ == name,
    }
}

impl Engine {
    /// The engine's well-formedness invariant; every public call preserves
    /// it.
    pub open spec fn wf(self) -> bool {
        &&& directory_ok(self.twins@, self.nodes@, self.farms@, self.pricing_policies@)
        &&& contracts_ok(self.contracts@, self.billing@, self.last_contract_id)
        &&& schedule_ok(self.schedule@, self.contracts@, self.current_epoch)
        &&& leases_ok(self.farms@, self.contracts@, self.nodes@)
        &&& uniqueness_ok(self.contracts@)
        &&& ledger::accounts_unique(self.balances@)
        &&& ledger::ledger_total(self.balances@) <= ledger::MAX_TOTAL_ISSUANCE
    }

    /// A fresh engine: empty directory, ledger and registry, at epoch 0.
    pub fn new() -> (r: Engine)
        ensures
            r.wf(),
            r.twins@.len() == 0,
            r.nodes@.len() == 0,
            r.farms@.len() == 0,
            r.pricing_policies@.len() == 0,
            r.balances@.len() == 0,
            r.contracts@.len() == 0,
            r.schedule@.len() == 0,
            r.current_epoch == 0,
            r.now_seconds == 0,
    {
        Engine {
            twins: Vec::new(),
            nodes: Vec::new(),
            farms: Vec::new(),
            pricing_policies: Vec::new(),
            balances: Vec::new(),
            contracts: Vec::new(),
            billing: Vec::new(),
            schedule: Vec::new(),
            last_contract_id: 0,
            current_epoch: 0,
            now_seconds: 0,
        }
    }

    /// Registers a twin for a ledger account and returns its id.
    pub fn add_twin(&mut self, account_id: u64) -> (id: u32)
        requires
            old(self).wf(),
            old(self).twins@.len() < 4294967295,
        ensures
            final(self).wf(),
            id == old(self).twins@.len() + 1,
            final(self).twins@ == old(self).twins@.push(Twin { id, account_id }),
            final(self).nodes == old(self).nodes,
            final(self).farms == old(self).farms,
            final(self).pricing_policies == old(self).pricing_policies,
            final(self).balances == old(self).balances,
            final(self).contracts == old(self).contracts,
            final(self).billing == old(self).billing,
            final(self).schedule == old(self).schedule,
            final(self).current_epoch == old(self).current_epoch,
            final(self).now_seconds == old(self).now_seconds,
    {
        let id = (self.twins.len() + 1) as u32;
        self.twins.push(Twin { id, account_id });
        id
    }

    /// Registers a pricing policy and returns its id.
    pub fn add_pricing_policy(
        &mut self,
        name: Vec<u8>,
        su: Policy,
        cu: Policy,
        nu: Policy,
        ipu: Policy,
        foundation_account: u64,
        certified_sales_account: u64,
    ) -> (id: u32)
        requires
            old(self).wf(),
            old(self).pricing_policies@.len() < 4294967295,
        ensures
            final(self).wf(),
            id == old(self).pricing_policies@.len() + 1,
            final(self).pricing_policies@.len() == old(self).pricing_policies@.len() + 1,
            ({
                let p = final(self).pricing_policies@.last();
                p.id == id && p.su == su && p.cu == cu && p.nu == nu && p.ipu == ipu
                    && p.foundation_account == foundation_account && p.certified_sales_account
                    == certified_sales_account
            }),
            final(self).twins == old(self).twins,
            final(self).nodes == old(self).nodes,
            final(self).farms == old(self).farms,
            final(self).balances == old(self).balances,
            final(self).contracts == old(self).contracts,
            final(self).billing == old(self).billing,
            final(self).schedule == old(self).schedule,
            final(self).current_epoch == old(self).current_epoch,
            final(self).now_seconds == old(self).now_seconds,
    {
        let id = (self.pricing_policies.len() + 1) as u32;
        self.pricing_policies.push(
            PricingPolicy {
                id,
                name,
                su,
                cu,
                nu,
                ipu,
                foundation_account,
                certified_sales_account,
            },
        );
        id
    }

    /// Registers a farm with its public IPs; every address must come in
    /// free, since no contract can hold a lease in a farm that did not
    /// exist.
    pub fn add_farm(
        &mut self,
        name: Vec<u8>,
        twin_id: u32,
        pricing_policy_id: u32,
        certification_type: CertificationType,
        public_ips: Vec<PublicIP>,
    ) -> (r: Result<u32, Error>)
        requires
            old(self).wf(),
            old(self).farms@.len() < 4294967295,
        ensures
            final(self).wf(),
            final(self).twins == old(self).twins,
            final(self).nodes == old(self).nodes,
            final(self).pricing_policies == old(self).pricing_policies,
            final(self).balances == old(self).balances,
            final(self).contracts == old(self).contracts,
            final(self).billing == old(self).billing,
            final(self).schedule == old(self).schedule,
            final(self).current_epoch == old(self).current_epoch,
            final(self).now_seconds == old(self).now_seconds,
            match r {
                Ok(id) => {
                    &&& id == old(self).farms@.len() + 1
                    &&& forall|k: int|
                        0 <= k < public_ips@.len() ==> (#[trigger] public_ips@[k]).contract_id
                            == 0
                    &&& final(self).farms@ == old(self).farms@.push(
                        (Farm { id, name, twin_id, pricing_policy_id, certification_type, public_ips }),
                    )
                },
                Err(e) => {
                    &&& e == Error::IPNotFree
                    &&& exists|k: int|
                        0 <= k < public_ips@.len() && (#[trigger] public_ips@[k]).contract_id != 0
                    &&& final(self).farms == old(self).farms
                },
            },
    {
        let mut k: usize = 0;
        while k < public_ips.len()
            invariant
                self == old(self),
                old(self).wf(),
                0 <= k <= public_ips@.len(),
                forall|j: int| 0 <= j < k ==> (#[trigger] public_ips@[j]).contract_id == 0,
            decreases public_ips@.len() - k,
        {
            if public_ips[k].contract_id != 0 {
                return Err(Error::IPNotFree);
            }
            k = k + 1;
        }
        let id = (self.farms.len() + 1) as u32;
        self.farms.push(
            Farm { id, name, twin_id, pricing_policy_id, certification_type, public_ips },
        );
        Ok(id)
    }

    /// Registers a node in a farm and returns its id.
    pub fn add_node(&mut self, farm_id: u32, twin_id: u32, resources: Resources) -> (r: Result<
        u32,
        Error,
    >)
        requires
            old(self).wf(),
            old(self).nodes@.len() < 4294967295,
        ensures
            final(self).wf(),
            final(self).twins == old(self).twins,
            final(self).farms == old(self).farms,
            final(self).pricing_policies == old(self).pricing_policies,
            final(self).balances == old(self).balances,
            final(self).contracts == old(self).contracts,
            final(self).billing == old(self).billing,
            final(self).schedule == old(self).schedule,
            final(self).current_epoch == old(self).current_epoch,
            final(self).now_seconds == old(self).now_seconds,
            match r {
                Ok(id) => {
                    &&& 1 <= farm_id <= old(self).farms@.len()
                    &&& id == old(self).nodes@.len() + 1
                    &&& final(self).nodes@ == old(self).nodes@.push(
                        Node { id, farm_id, twin_id, resources },
                    )
                },
                Err(e) => {
                    &&& e == Error::FarmNotExists
                    &&& !(1 <= farm_id <= old(self).farms@.len())
                    &&& final(self).nodes == old(self).nodes
                },
            },
    {
        if farm_id < 1 || farm_id as usize > self.farms.len() {
            return Err(Error::FarmNotExists);
        }
        let id = (self.nodes.len() + 1) as u32;
        self.nodes.push(Node { id, farm_id, twin_id, resources });
        Ok(id)
    }

    /// Deposits funds into a ledger account; refused beyond the total
    /// issuance cap.
    pub fn deposit_balance(&mut self, account: u64, amount: u128) -> (r: Result<(), Error>)
        requires
            old(self).wf(),
        ensures
            final(self).wf(),
            final(self).twins == old(self).twins,
            final(self).nodes == old(self).nodes,
            final(self).farms == old(self).farms,
            final(self).pricing_policies == old(self).pricing_policies,
            final(self).contracts == old(self).contracts,
            final(self).billing == old(self).billing,
            final(self).schedule == old(self).schedule,
            final(self).current_epoch == old(self).current_epoch,
            final(self).now_seconds == old(self).now_seconds,
            match r {
                Ok(()) => final(self).balances@ == ledger::spec_apply_deposit(
                    old(self).balances@,
                    account,
                    amount,
                ),
                Err(e) => e == Error::BalanceOverflow && final(self).balances@ == old(
                    self,
                ).balances@,
            },
    {
        ledger::deposit(&mut self.balances, account, amount)
    }

    /// Free balance of a ledger account.
    pub fn free_balance(&self, account: u64) -> (r: u128)
        ensures
            r == ledger::spec_balance_of(self.balances@, account),
    {
        ledger::balance_of(&self.balances, account)
    }

    /// Advances the wall clock; time never runs backward.
    pub fn set_now(&mut self, timestamp: u64)
        requires
            old(self).wf(),
            timestamp >= old(self).now_seconds,
        ensures
            final(self).wf(),
            final(self).now_seconds == timestamp,
            final(self).twins == old(self).twins,
            final(self).nodes == old(self).nodes,
            final(self).farms == old(self).farms,
            final(self).pricing_policies == old(self).pricing_policies,
            final(self).balances == old(self).balances,
            final(self).contracts == old(self).contracts,
            final(self).billing == old(self).billing,
            final(self).schedule == old(self).schedule,
            final(self).current_epoch == old(self).current_epoch,
    {
        self.now_seconds = timestamp;
    }

    /// The contract with this id, if one was ever created.
    pub fn contracts(&self, contract_id: u64) -> (r: Option<&Contract>)
        ensures
            match r {
                Some(c) => 1 <= contract_id <= self.contracts@.len() && *c == self.contracts@[
                    contract_id - 1],
                None => !(1 <= contract_id <= self.contracts@.len()),
            },
    {
        if contract_id >= 1 && contract_id <= self.contracts.len() as u64 {
            Some(&self.contracts[(contract_id - 1) as usize])
        } else {
            None
        }
    }

    /// The billing bookkeeping of a contract.
    pub fn contract_billing_information_by_id(&self, contract_id: u64) -> (r: Option<
        ContractBillingInformation,
    >)
        ensures
            match r {
                Some(info) => 1 <= contract_id <= self.billing@.len() && info == self.billing@[
                    contract_id - 1],
                None => !(1 <= contract_id <= self.billing@.len()),
            },
    {
        if contract_id >= 1 && contract_id <= self.billing.len() as u64 {
            Some(self.billing[(contract_id - 1) as usize])
        } else {
            None
        }
    }

    /// The twin with this id.
    pub fn twins(&self, twin_id: u32) -> (r: Option<Twin>)
        ensures
            match r {
                Some(t) => 1 <= twin_id <= self.twins@.len() && t == self.twins@[twin_id - 1],
                None => !(1 <= twin_id <= self.twins@.len()),
            },
    {
        if twin_id >= 1 && twin_id as usize <= self.twins.len() {
            Some(self.twins[(twin_id - 1) as usize])
        } else {
            None
        }
    }

    /// The farm with this id.
    pub fn farms(&self, farm_id: u32) -> (r: Option<&Farm>)
        ensures
            match r {
                Some(f) => 1 <= farm_id <= self.farms@.len() && *f == self.farms@[farm_id - 1],
                None => !(1 <= farm_id <= self.farms@.len()),
            },
    {
        if farm_id >= 1 && farm_id as usize <= self.farms.len() {
            Some(&self.farms[(farm_id - 1) as usize])
        } else {
            None
        }
    }

    /// The id of the live node contract holding the key
    /// `(node_id, deployment_hash)`, or 0 when none does.
    pub fn node_contract_by_hash(&self, node_id: u32, deployment_hash: &Vec<u8>) -> (r: u64)
        requires
            self.wf(),
        ensures
            r == 0 ==> !has_live_node_key(self.contracts@, node_id, deployment_hash@),
            r != 0 ==> 1 <= r <= self.contracts@.len() && contract_matches_node_key(
                self.contracts@[r - 1],
                node_id,
                deployment_hash@,
            ),
    {
        let ghost s = self.contracts@;
        let mut i: usize = 0;
        while i < self.contracts.len()
            invariant
                self.wf(),
                self.contracts@ == s,
                0 <= i <= s.len(),
                forall|j: int|
                    0 <= j < i ==> !contract_matches_node_key(
                        #[trigger] s[j],
                        node_id,
                        deployment_hash@,
                    ),
            decreases s.len() - i,
        {
            let c = &self.contracts[i];
            if matches_node_key(c, node_id, deployment_hash) {
                return c.contract_id;
            }
            i = i + 1;
        }
        0
    }

    /// The id of the live name contract holding this name, or 0 when none
    /// does.
    pub fn contract_id_by_name_registration(&self, name: &Vec<u8>) -> (r: u64)
        requires
            self.wf(),
        ensures
            r == 0 ==> !has_live_name(self.contracts@, name@),
            r != 0 ==> 1 <= r <= self.contracts@.len() && contract_matches_name(
                self.contracts@[r - 1],
                name@,
            ),
    {
        let ghost s = self.contracts@;
        let mut i: usize = 0;
        while i < self.contracts.len()
            invariant
                self.wf(),
                self.contracts@ == s,
                0 <= i <= s.len(),
                forall|j: int|
                    0 <= j < i ==> !contract_matches_name(#[trigger] s[j], name@),
            decreases s.len() - i,
        {
            let c = &self.contracts[i];
            if matches_name(c, name) {
                return c.contract_id;
            }
            i = i + 1;
        }
        0
    }

    /// Ids of this node's contracts in the given state, in creation order.
    pub fn node_contracts(&self, node_id: u32, state: ContractState) -> (r: Vec<u64>)
        requires
            self.wf(),
        ensures
            forall|j: int|
                0 <= j < r@.len() ==> {
                    let id = #[trigger] r@[j];
                    &&& 1 <= id <= self.contracts@.len()
                    &&& self.contracts@[id - 1].state == state
                    &&& self.contracts@[id - 1].spec_node_id() == node_id
                    &&& self.contracts@[id - 1].contract_type is NodeContract
                },
            forall|i: int|
                0 <= i < self.contracts@.len() && (#[trigger] self.contracts@[i]).state == state
                    && self.contracts@[i].contract_type is NodeContract && self.contracts@[i]
                    .spec_node_id() == node_id ==> r@.contains(self.contracts@[i].contract_id),
    {
        let ghost s = self.contracts@;
        let mut r: Vec<u64> = Vec::new();
        let mut i: usize = 0;
        while i < self.contracts.len()
            invariant
                self.wf(),
                self.contracts@ == s,
                0 <= i <= s.len(),
                forall|j: int|
                    0 <= j < r@.len() ==> {
                        let id = #[trigger] r@[j];
                        &&& 1 <= id <= s.len()
                        &&& s[id - 1].state == state
                        &&& s[id - 1].spec_node_id() == node_id
                        &&& s[id - 1].contract_type is NodeContract
                    },
                forall|j: int|
                    0 <= j < i && (#[trigger] s[j]).state == state && s[j].contract_type
                        is NodeContract && s[j].spec_node_id() == node_id ==> r@.contains(
                        s[j].contract_id,
                    ),
            decreases s.len() - i,
        {
            let c = &self.contracts[i];
            let is_match = match &c.contract_type {
                ContractData::NodeContract(nc) => nc.node_id == node_id && state_eq(
                    &c.state,
                    &state,
                ),
                ContractData::NameContract(_) => false,
            };
            if is_match {
                let ghost prev = r@;
                r.push(c.contract_id);
                proof {
                    assert(forall|j: int| 0 <= j < prev.len() ==> #[trigger] r@[j] == prev[j]);
                    assert(r@[prev.len() as int] == s[i as int].contract_id);
                    assert forall|j: int|
                        0 <= j < i + 1 && (#[trigger] s[j]).state == state && s[j].contract_type
                            is NodeContract && s[j].spec_node_id() == node_id implies r@.contains(
                        s[j].contract_id,
                    ) by {
                        if j < i {
                            let m = choose|m: int| 0 <= m < prev.len() && prev[m] == s[j].contract_id;
                            assert(r@[m] == s[j].contract_id);
                        } else {
                            assert(r@[prev.len() as int] == s[j].contract_id);
                        }
                    }
                }
            }
            i = i + 1;
        }
        r
    }

    /// Contract ids in the billing bucket of an epoch, in schedule order.
    pub fn contract_to_bill_at_block(&self, epoch: u64) -> (r: Vec<u64>)
        ensures
            r@ == schedule::due_ids(self.schedule@, epoch),
    {
        let ghost s = self.schedule@;
        let mut r: Vec<u64> = Vec::new();
        let mut i: usize = 0;
        while i < self.schedule.len()
            invariant
                self.schedule@ == s,
                0 <= i <= s.len(),
                r@ == schedule::due_ids(s.take(i as int), epoch),
            decreases s.len() - i,
        {
            proof {
                assert(s.take(i as int + 1).drop_last() =~= s.take(i as int));
                assert(s.take(i as int + 1).last() == s[i as int]);
            }
            let entry = self.schedule[i];
            if entry.0 == epoch {
                r.push(entry.1);
            }
            i = i + 1;
        }
        proof {
            assert(s.take(s.len() as int) =~= s);
        }
        r
    }

    /// The first twin bound to this account, if any.
    fn find_twin_by_account(&self, account: u64) -> (r: Option<Twin>)
        ensures
            match r {
                Some(t) => {
                    let idx = twin_for_account(self.twins@, account);
                    idx != -1 && t == self.twins@[idx]
                },
                None => twin_for_account(self.twins@, account) == -1,
            },
    {
        let ghost s = self.twins@;
        proof {
            lemma_twin_for_account(s, account);
        }
        let mut i: usize = 0;
        while i < self.twins.len()
            invariant
                self.twins@ == s,
                0 <= i <= s.len(),
                forall|j: int| 0 <= j < i ==> (#[trigger] s[j]).account_id != account,
            decreases s.len() - i,
        {
            if self.twins[i].account_id == account {
                proof {
                    lemma_twin_for_account(s, account);
                }
                return Some(self.twins[i]);
            }
            i = i + 1;
        }
        proof {
            lemma_twin_for_account(s, account);
        }
        None
    }

    /// Opens a name-registration contract: the caller's twin leases a
    /// globally unique, DNS-safe name.
    ///
    /// Returns `ContractCreated`, or the error naming what was wrong:
    /// the account has no twin, the name is already registered by a live
    /// contract, or the name holds an invalid character. On error nothing
    /// changes.
    pub fn create_name_contract(&mut self, account_id: u64, name: Vec<u8>) -> (r: Result<
        Event,
        Error,
    >)
        requires
            old(self).wf(),
            old(self).contracts@.len() < 0xffff_ffff_ffff_ffff,
            old(self).current_epoch + BILLING_FREQUENCY_IN_BLOCKS <= u64::MAX,
        ensures
            final(self).wf(),
            final(self).twins == old(self).twins,
            final(self).nodes == old(self).nodes,
            final(self).farms == old(self).farms,
            final(self).pricing_policies == old(self).pricing_policies,
            final(self).balances == old(self).balances,
            final(self).current_epoch == old(self).current_epoch,
            final(self).now_seconds == old(self).now_seconds,
            match r {
                Ok(ev) => {
                    let id = (old(self).contracts@.len() + 1) as u64;
                    let tidx = twin_for_account(old(self).twins@, account_id);
                    &&& twin_exists_for(old(self).twins@, account_id)
                    &&& !has_live_name(old(self).contracts@, name@)
                    &&& valid_name(name@)
                    &&& final(self).contracts@.len() == old(self).contracts@.len() + 1
                    &&& forall|i: int|
                        0 <= i < old(self).contracts@.len() ==> final(self).contracts@[i] == old(
                            self,
                        ).contracts@[i]
                    &&& name_contract_matches(
                        final(self).contracts@.last(),
                        id,
                        old(self).twins@[tidx].id,
                        name@,
                    )
                    &&& final(self).billing@ == old(self).billing@.push(
                        ContractBillingInformation {
                            previous_nu_reported: 0,
                            last_updated: old(self).now_seconds,
                            amount_unbilled: 0,
                        },
                    )
                    &&& final(self).schedule@ == old(self).schedule@.push(
                        ((old(self).current_epoch + BILLING_FREQUENCY_IN_BLOCKS) as u64, id),
                    )
                    &&& ev matches Event::ContractCreated(c) && name_contract_matches(
                        c,
                        id,
                        old(self).twins@[tidx].id,
                        name@,
                    )
                },
                Err(e) => {
                    &&& final(self).contracts == old(self).contracts
                    &&& final(self).billing == old(self).billing
                    &&& final(self).schedule == old(self).schedule
                    &&& (e == Error::TwinNotExists || e == Error::NameExists || e
                        == Error::NameNotValid)
                    &&& (e == Error::TwinNotExists <==> !twin_exists_for(
                        old(self).twins@,
                        account_id,
                    ))
                    &&& (e == Error::NameExists <==> twin_exists_for(old(self).twins@, account_id)
                        && has_live_name(old(self).contracts@, name@))
                    &&& (e == Error::NameNotValid <==> twin_exists_for(old(self).twins@, account_id)
                        && !has_live_name(old(self).contracts@, name@) && !valid_name(name@))
                },
            },
    {
        let twin = match self.find_twin_by_account(account_id) {
            Some(t) => t,
            None => {
                return Err(Error::TwinNotExists);
            },
        };
        let existing = self.contract_id_by_name_registration(&name);
        if existing != 0 {
            proof {
                assert(contract_matches_name(self.contracts@[existing - 1], name@));
            }
            return Err(Error::NameExists);
        }
        if !check_name(&name) {
            return Err(Error::NameNotValid);
        }
        let id: u64 = self.last_contract_id + 1;
        let ghost gname = name@;
        let name_copy = clone_bytes(&name);
        let contract = Contract {
            version: CONTRACT_VERSION,
            contract_id: id,
            twin_id: twin.id,
            contract_type: ContractData::NameContract(NameContract { name }),
            state: ContractState::Created,
        };
        let event_contract = Contract {
            version: CONTRACT_VERSION,
            contract_id: id,
            twin_id: twin.id,
            contract_type: ContractData::NameContract(NameContract { name: name_copy }),
            state: ContractState::Created,
        };
        let epoch: u64 = self.current_epoch + BILLING_FREQUENCY_IN_BLOCKS;
        proof {
            lemma_register_contract(
                self.contracts@,
                self.schedule@,
                self.current_epoch,
                contract,
                epoch,
            );
            lemma_append_keeps_leases(self.farms@, self.contracts@, self.nodes@, contract);
            lemma_twin_for_account(self.twins@, account_id);
        }
        let ghost before = self.contracts@;
        self.contracts.push(contract);
        self.billing.push(
            ContractBillingInformation {
                previous_nu_reported: 0,
                last_updated: self.now_seconds,
                amount_unbilled: 0,
            },
        );
        self.schedule.push((epoch, id));
        self.last_contract_id = id;
        proof {
            assert forall|i: int, j: int|
                0 <= i < j < self.contracts@.len() && (#[trigger] self.contracts@[i]).state
                    == ContractState::Created && (#[trigger] self.contracts@[j]).state
                    == ContractState::Created implies !same_node_key(
                self.contracts@[i],
                self.contracts@[j],
            ) && !same_name(self.contracts@[i], self.contracts@[j]) by {
                if j < before.len() {
                    assert(self.contracts@[i] == before[i] && self.contracts@[j] == before[j]);
                } else {
                    assert(self.contracts@[i] == before[i]);
                    assert(self.contracts@[j] == contract);
                    if same_name(before[i], contract) {
                        assert(contract_matches_name(before[i], gname));
                    }
                }
            }
        }
        Ok(Event::ContractCreated(event_contract))
    }

    /// Opens a node-capacity contract: the caller's twin leases capacity
    /// on one node, identified by a deployment hash unique per node, and
    /// optionally reserves public IPs from the node's farm.
    ///
    /// Returns `ContractCreated`, or the error naming what was wrong, in
    /// validation order: the key `(node_id, deployment_hash)` is already
    /// held by a live contract, the account has no twin, the node does
    /// not exist, the node's farm does not exist, or the farm has too few
    /// addresses or too few free ones. On error nothing changes; a
    /// reservation is all or nothing.
    pub fn create_node_contract(
        &mut self,
        account_id: u64,
        node_id: u32,
        deployment_data: Vec<u8>,
        deployment_hash: Vec<u8>,
        public_ips: u32,
    ) -> (r: Result<Event, Error>)
        requires
            old(self).wf(),
            old(self).contracts@.len() < 0xffff_ffff_ffff_ffff,
            old(self).current_epoch + BILLING_FREQUENCY_IN_BLOCKS <= u64::MAX,
        ensures
            final(self).wf(),
            final(self).twins == old(self).twins,
            final(self).nodes == old(self).nodes,
            final(self).pricing_policies == old(self).pricing_policies,
            final(self).balances == old(self).balances,
            final(self).current_epoch == old(self).current_epoch,
            final(self).now_seconds == old(self).now_seconds,
            match r {
                Ok(ev) => {
                    let id = (old(self).contracts@.len() + 1) as u64;
                    let tidx = twin_for_account(old(self).twins@, account_id);
                    &&& !has_live_node_key(old(self).contracts@, node_id, deployment_hash@)
                    &&& twin_exists_for(old(self).twins@, account_id)
                    &&& 1 <= node_id <= old(self).nodes@.len()
                    &&& final(self).contracts@.len() == old(self).contracts@.len() + 1
                    &&& forall|i: int|
                        0 <= i < old(self).contracts@.len() ==> final(self).contracts@[i] == old(
                            self,
                        ).contracts@[i]
                    &&& node_contract_matches(
                        final(self).contracts@.last(),
                        id,
                        old(self).twins@[tidx].id,
                        node_id,
                        deployment_data@,
                        deployment_hash@,
                        public_ips,
                    )
                    &&& final(self).billing@ == old(self).billing@.push(
                        ContractBillingInformation {
                            previous_nu_reported: 0,
                            last_updated: old(self).now_seconds,
                            amount_unbilled: 0,
                        },
                    )
                    &&& final(self).schedule@ == old(self).schedule@.push(
                        ((old(self).current_epoch + BILLING_FREQUENCY_IN_BLOCKS) as u64, id),
                    )
                    &&& (public_ips == 0 ==> final(self).farms == old(self).farms)
                    &&& (public_ips > 0 ==> {
                        let fid = old(self).nodes@[node_id - 1].farm_id;
                        &&& 1 <= fid <= old(self).farms@.len()
                        &&& final(self).farms@.len() == old(self).farms@.len()
                        &&& forall|i: int|
                            0 <= i < old(self).farms@.len() && i != fid - 1
                                ==> final(self).farms@[i] == old(self).farms@[i]
                        &&& final(self).farms@[fid - 1].public_ips@ == pool::reserve_result(
                            old(self).farms@[fid - 1].public_ips@,
                            public_ips as int,
                            id,
                        )
                        &&& final(self).farms@[fid - 1].id == old(self).farms@[fid - 1].id
                        &&& final(self).farms@[fid - 1].twin_id == old(self).farms@[fid
                            - 1].twin_id
                        &&& final(self).farms@[fid - 1].pricing_policy_id == old(self).farms@[fid
                            - 1].pricing_policy_id
                        &&& final(self).farms@[fid - 1].certification_type == old(
                            self,
                        ).farms@[fid - 1].certification_type
                        &&& match final(self).contracts@.last().contract_type {
                            ContractData::NodeContract(nc) => {
                                let handed = pool::reserved_list(
                                    old(self).farms@[fid - 1].public_ips@,
                                    public_ips as int,
                                    id,
                                );
                                &&& nc.public_ips_list@.len() == handed.len()
                                &&& forall|j: int|
                                    0 <= j < nc.public_ips_list@.len() ==> pool::same_address(
                                        #[trigger] nc.public_ips_list@[j],
                                        handed[j],
                                    )
                            },
                            ContractData::NameContract(_) => false,
                        }
                    })
                    &&& ev matches Event::ContractCreated(c) && node_contract_matches(
                        c,
                        id,
                        old(self).twins@[tidx].id,
                        node_id,
                        deployment_data@,
                        deployment_hash@,
                        public_ips,
                    )
                },
                Err(e) => {
                    &&& final(self).contracts == old(self).contracts
                    &&& final(self).billing == old(self).billing
                    &&& final(self).schedule == old(self).schedule
                    &&& final(self).farms == old(self).farms
                    &&& ({
                        let dup = has_live_node_key(old(self).contracts@, node_id, deployment_hash@);
                        let twin_ok = twin_exists_for(old(self).twins@, account_id);
                        let node_ok = 1 <= node_id <= old(self).nodes@.len();
                        let fid = old(self).nodes@[node_id - 1].farm_id;
                        let farm_ok = 1 <= fid <= old(self).farms@.len();
                        let need_ips = public_ips > 0;
                        let enough = old(self).farms@[fid - 1].public_ips@.len() >= public_ips;
                        let free_ok = pool::free_count(
                            old(self).farms@[fid - 1].public_ips@,
                            old(self).farms@[fid - 1].public_ips@.len() as int,
                        ) >= public_ips;
                        &&& (e == Error::ContractIsNotUnique || e == Error::TwinNotExists || e
                            == Error::NodeNotExists || e == Error::FarmNotExists || e
                            == Error::FarmHasNotEnoughPublicIPs || e
                            == Error::FarmHasNotEnoughPublicIPsFree)
                        &&& (e == Error::ContractIsNotUnique <==> dup)
                        &&& (e == Error::TwinNotExists <==> !dup && !twin_ok)
                        &&& (e == Error::NodeNotExists <==> !dup && twin_ok && !node_ok)
                        &&& (e == Error::FarmNotExists <==> !dup && twin_ok && node_ok && need_ips
                            && !farm_ok)
                        &&& (e == Error::FarmHasNotEnoughPublicIPs <==> !dup && twin_ok && node_ok
                            && need_ips && farm_ok && !enough)
                        &&& (e == Error::FarmHasNotEnoughPublicIPsFree <==> !dup && twin_ok
                            && node_ok && need_ips && farm_ok && enough && !free_ok)
                    })
                },
            },
    {
        let existing = self.node_contract_by_hash(node_id, &deployment_hash);
        if existing != 0 {
            proof {
                assert(contract_matches_node_key(
                    self.contracts@[existing - 1],
                    node_id,
                    deployment_hash@,
                ));
            }
            return Err(Error::ContractIsNotUnique);
        }
        let twin = match self.find_twin_by_account(account_id) {
            Some(t) => t,
            None => {
                return Err(Error::TwinNotExists);
            },
        };
        if node_id < 1 || node_id as usize > self.nodes.len() {
            return Err(Error::NodeNotExists);
        }
        let node = self.nodes[(node_id - 1) as usize];
        let id: u64 = self.last_contract_id + 1;
        let ghost gdata = deployment_data@;
        let ghost ghash = deployment_hash@;
        let mut reserved: Vec<PublicIP> = Vec::new();
        let ghost farms_before = self.farms@;
        if public_ips > 0 {
            let fid = node.farm_id;
            if fid < 1 || fid as usize > self.farms.len() {
                return Err(Error::FarmNotExists);
            }
            let fi = (fid - 1) as usize;
            if self.farms[fi].public_ips.len() < public_ips as usize {
                return Err(Error::FarmHasNotEnoughPublicIPs);
            }
            if pool::count_free(&self.farms[fi].public_ips) < public_ips as usize {
                return Err(Error::FarmHasNotEnoughPublicIPsFree);
            }
            reserved = match pool::reserve_ips(&mut self.farms[fi].public_ips, public_ips, id) {
                Ok(list) => list,
                Err(e) => {
                    proof {
                        assert(false);
                    }
                    return Err(e);
                },
            };
        }
        let data_copy = clone_bytes(&deployment_data);
        let hash_copy = clone_bytes(&deployment_hash);
        let list_copy = reserved.clone();
        let contract = Contract {
            version: CONTRACT_VERSION,
            contract_id: id,
            twin_id: twin.id,
            contract_type: ContractData::NodeContract(
                NodeContract {
                    node_id,
                    deployment_data,
                    deployment_hash,
                    public_ips,
                    public_ips_list: reserved,
                },
            ),
            state: ContractState::Created,
        };
        let event_contract = Contract {
            version: CONTRACT_VERSION,
            contract_id: id,
            twin_id: twin.id,
            contract_type: ContractData::NodeContract(
                NodeContract {
                    node_id,
                    deployment_data: data_copy,
                    deployment_hash: hash_copy,
                    public_ips,
                    public_ips_list: list_copy,
                },
            ),
            state: ContractState::Created,
        };
        let epoch: u64 = self.current_epoch + BILLING_FREQUENCY_IN_BLOCKS;
        proof {
            lemma_register_contract(
                self.contracts@,
                self.schedule@,
                self.current_epoch,
                contract,
                epoch,
            );
            lemma_twin_for_account(self.twins@, account_id);
        }
        let ghost before = self.contracts@;
        self.contracts.push(contract);
        self.billing.push(
            ContractBillingInformation {
                previous_nu_reported: 0,
                last_updated: self.now_seconds,
                amount_unbilled: 0,
            },
        );
        self.schedule.push((epoch, id));
        self.last_contract_id = id;
        proof {
            assert forall|i: int, j: int|
                0 <= i < j < self.contracts@.len() && (#[trigger] self.contracts@[i]).state
                    == ContractState::Created && (#[trigger] self.contracts@[j]).state
                    == ContractState::Created implies !same_node_key(
                self.contracts@[i],
                self.contracts@[j],
            ) && !same_name(self.contracts@[i], self.contracts@[j]) by {
                if j < before.len() {
                    assert(self.contracts@[i] == before[i] && self.contracts@[j] == before[j]);
                } else {
                    assert(self.contracts@[i] == before[i]);
                    assert(self.contracts@[j] == contract);
                    if same_node_key(before[i], contract) {
                        assert(contract_matches_node_key(before[i], node_id, ghash));
                    }
                }
            }
            assert forall|fi2: int, k: int|
                0 <= fi2 < self.farms@.len() && 0 <= k < self.farms@[fi2].public_ips@.len() && (
                #[trigger] self.farms@[fi2].public_ips@[k]).contract_id != 0 implies lease_backed(
                self.contracts@,
                self.nodes@,
                self.farms@[fi2].public_ips@[k].contract_id,
                self.farms@[fi2].id,
            ) by {
                let cid = self.farms@[fi2].public_ips@[k].contract_id;
                if public_ips > 0 && fi2 == node.farm_id - 1 {
                    let oldips = farms_before[fi2].public_ips@;
                    assert(self.farms@[fi2].public_ips@ == pool::reserve_result(
                        oldips,
                        public_ips as int,
                        id,
                    ));
                    if pool::reserved_at(oldips, public_ips as int, k) {
                        assert(self.farms@[fi2].public_ips@[k] == pool::with_lease(oldips[k], id));
                        assert(cid == id);
                        assert(self.contracts@[id - 1] == contract);
                    } else {
                        assert(self.farms@[fi2].public_ips@[k] == oldips[k]);
                        assert(lease_backed(before, self.nodes@, cid, farms_before[fi2].id));
                        assert(self.contracts@[cid - 1] == before[cid - 1]);
                    }
                } else {
                    assert(self.farms@[fi2] == farms_before[fi2]);
                    assert(lease_backed(before, self.nodes@, cid, farms_before[fi2].id));
                    assert(self.contracts@[cid - 1] == before[cid - 1]);
                }
            }
        }
        Ok(Event::ContractCreated(event_contract))
    }

    /// Whether some live node contract other than `except` holds the key.
    fn dup_key_except(&self, node_id: u32, hash: &Vec<u8>, except: u64) -> (r: bool)
        ensures
            r == has_live_node_key_except(self.contracts@, node_id, hash@, except),
    {
        let ghost s = self.contracts@;
        let mut i: usize = 0;
        while i < self.contracts.len()
            invariant
                self.contracts@ == s,
                0 <= i <= s.len(),
                forall|j: int|
                    0 <= j < i ==> j == except - 1 || !contract_matches_node_key(
                        #[trigger] s[j],
                        node_id,
                        hash@,
                    ),
            decreases s.len() - i,
        {
            let skip = except >= 1 && i as u64 == except - 1;
            if !skip && matches_node_key(&self.contracts[i], node_id, hash) {
                return true;
            }
            i = i + 1;
        }
        false
    }

    /// Rewrites a node contract's deployment body and hash.
    ///
    /// Only the owning twin may do so, and the new key must not collide
    /// with another live node contract's. Name contracts carry no
    /// deployment and are refused. On error nothing changes.
    pub fn update_contract(
        &mut self,
        account_id: u64,
        contract_id: u64,
        deployment_data: Vec<u8>,
        deployment_hash: Vec<u8>,
    ) -> (r: Result<Event, Error>)
        requires
            old(self).wf(),
        ensures
            final(self).wf(),
            final(self).twins == old(self).twins,
            final(self).nodes == old(self).nodes,
            final(self).farms == old(self).farms,
            final(self).pricing_policies == old(self).pricing_policies,
            final(self).balances == old(self).balances,
            final(self).billing == old(self).billing,
            final(self).schedule == old(self).schedule,
            final(self).current_epoch == old(self).current_epoch,
            final(self).now_seconds == old(self).now_seconds,
            match r {
                Ok(ev) => {
                    let ci = contract_id - 1;
                    &&& 1 <= contract_id <= old(self).contracts@.len()
                    &&& old(self).contracts@[ci].contract_type is NodeContract
                    &&& final(self).contracts@.len() == old(self).contracts@.len()
                    &&& forall|i: int|
                        0 <= i < old(self).contracts@.len() && i != ci
                            ==> final(self).contracts@[i] == old(self).contracts@[i]
                    &&& node_payload_updated(
                        old(self).contracts@[ci],
                        final(self).contracts@[ci],
                        deployment_data@,
                        deployment_hash@,
                    )
                    &&& !has_live_node_key_except(
                        old(self).contracts@,
                        old(self).contracts@[ci].spec_node_id(),
                        deployment_hash@,
                        contract_id,
                    )
                    &&& ev matches Event::ContractUpdated(c) && c.contract_id == contract_id
                        && c.twin_id == old(self).contracts@[ci].twin_id && match c.contract_type {
                        ContractData::NodeContract(nc) => nc.deployment_data@ == deployment_data@
                            && nc.deployment_hash@ == deployment_hash@,
                        ContractData::NameContract(_) => false,
                    }
                },
                Err(e) => {
                    &&& final(self).contracts == old(self).contracts
                    &&& ({
                        let exists_ok = 1 <= contract_id <= old(self).contracts@.len();
                        let c = old(self).contracts@[contract_id - 1];
                        let is_node = c.contract_type is NodeContract;
                        let twin_ok = 1 <= c.twin_id <= old(self).twins@.len();
                        let authorized = twin_ok && old(self).twins@[c.twin_id - 1].account_id
                            == account_id;
                        let dup = has_live_node_key_except(
                            old(self).contracts@,
                            c.spec_node_id(),
                            deployment_hash@,
                            contract_id,
                        );
                        &&& (e == Error::ContractNotExists || e == Error::WrongContractType || e
                            == Error::TwinNotExists || e
                            == Error::TwinNotAuthorizedToUpdateContract || e
                            == Error::ContractIsNotUnique)
                        &&& (e == Error::ContractNotExists <==> !exists_ok)
                        &&& (e == Error::WrongContractType <==> exists_ok && !is_node)
                        &&& (e == Error::TwinNotExists <==> exists_ok && is_node && !twin_ok)
                        &&& (e == Error::TwinNotAuthorizedToUpdateContract <==> exists_ok
                            && is_node && twin_ok && !authorized)
                        &&& (e == Error::ContractIsNotUnique <==> exists_ok && is_node
                            && authorized && dup)
                    })
                },
            },
    {
        if contract_id < 1 || contract_id > self.contracts.len() as u64 {
            return Err(Error::ContractNotExists);
        }
        let ci = (contract_id - 1) as usize;
        let is_node = match &self.contracts[ci].contract_type {
            ContractData::NodeContract(_) => true,
            ContractData::NameContract(_) => false,
        };
        if !is_node {
            return Err(Error::WrongContractType);
        }
        let twin_id = self.contracts[ci].twin_id;
        let twin = match self.twins(twin_id) {
            Some(t) => t,
            None => {
                return Err(Error::TwinNotExists);
            },
        };
        if twin.account_id != account_id {
            return Err(Error::TwinNotAuthorizedToUpdateContract);
        }
        let node_id = match &self.contracts[ci].contract_type {
            ContractData::NodeContract(nc) => nc.node_id,
            ContractData::NameContract(_) => 0,
        };
        if self.dup_key_except(node_id, &deployment_hash, contract_id) {
            return Err(Error::ContractIsNotUnique);
        }
        let ghost before = self.contracts@;
        let ghost gdata = deployment_data@;
        let ghost ghash = deployment_hash@;
        let data_copy = clone_bytes(&deployment_data);
        let hash_copy = clone_bytes(&deployment_hash);
        let stored = &mut self.contracts[ci];
        let event_contract: Contract;
        match &mut stored.contract_type {
            ContractData::NodeContract(nc) => {
                nc.deployment_data = deployment_data;
                nc.deployment_hash = deployment_hash;
                event_contract = Contract {
                    version: stored.version,
                    contract_id: stored.contract_id,
                    twin_id: stored.twin_id,
                    contract_type: ContractData::NodeContract(
                        NodeContract {
                            node_id: nc.node_id,
                            deployment_data: data_copy,
                            deployment_hash: hash_copy,
                            public_ips: nc.public_ips,
                            public_ips_list: nc.public_ips_list.clone(),
                        },
                    ),
                    state: stored.state,
                };
            },
            ContractData::NameContract(_) => {
                proof {
                    assert(false);
                }
                return Err(Error::WrongContractType);
            },
        }
        proof {
            let cs = self.contracts@;
            assert(cs.len() == before.len());
            assert(forall|i: int| 0 <= i < cs.len() && i != ci ==> cs[i] == before[i]);
            assert(node_payload_updated(before[ci as int], cs[ci as int], gdata, ghash));
            assert forall|k: int|
                0 <= k < self.schedule@.len() implies (#[trigger] self.schedule@[k]).0
                > self.current_epoch && is_created_in(cs, self.schedule@[k].1) by {
                assert(is_created_in(before, self.schedule@[k].1));
                assert(cs[self.schedule@[k].1 - 1].state == before[self.schedule@[k].1
                    - 1].state);
            }
            assert forall|i: int|
                0 <= i < cs.len() && (#[trigger] cs[i]).state == ContractState::Created implies schedule::has_id(
                self.schedule@,
                cs[i].contract_id,
            ) by {
                assert(cs[i].contract_id == before[i].contract_id && cs[i].state
                    == before[i].state);
            }
            assert forall|fi: int, k: int|
                0 <= fi < self.farms@.len() && 0 <= k < self.farms@[fi].public_ips@.len() && (
                #[trigger] self.farms@[fi].public_ips@[k]).contract_id != 0 implies lease_backed(
                cs,
                self.nodes@,
                self.farms@[fi].public_ips@[k].contract_id,
                self.farms@[fi].id,
            ) by {
                let cid = self.farms@[fi].public_ips@[k].contract_id;
                assert(lease_backed(before, self.nodes@, cid, self.farms@[fi].id));
                if cid - 1 == ci {
                    assert(node_payload_updated(before[ci as int], cs[ci as int], gdata, ghash));
                } else {
                    assert(cs[cid - 1] == before[cid - 1]);
                }
            }
            assert forall|i: int, j: int|
                0 <= i < j < cs.len() && (#[trigger] cs[i]).state == ContractState::Created && (
                #[trigger] cs[j]).state == ContractState::Created implies !same_node_key(
                cs[i],
                cs[j],
            ) && !same_name(cs[i], cs[j]) by {
                if i != ci && j != ci {
                    assert(cs[i] == before[i] && cs[j] == before[j]);
                } else {
                    let other = if i == ci {
                        j
                    } else {
                        i
                    };
                    assert(cs[other] == before[other]);
                    if same_node_key(cs[i], cs[j]) {
                        assert(contract_matches_node_key(before[other], node_id, ghash));
                        assert(has_live_node_key_except(before, node_id, ghash, contract_id));
                    }
                    assert(!same_name(cs[i], cs[j]));
                }
            }
        }
        Ok(Event::ContractUpdated(event_contract))
    }

    /// Releases every public IP a live contract holds and moves it to a
    /// terminal state, leaving the schedule to the caller. The release is
    /// all or nothing: a failed directory lookup aborts with no change.
    fn release_and_mark(&mut self, contract_id: u64, new_state: ContractState) -> (r: Result<
        Vec<Vec<u8>>,
        Error,
    >)
        requires
            directory_ok(
                old(self).twins@,
                old(self).nodes@,
                old(self).farms@,
                old(self).pricing_policies@,
            ),
            contracts_ok(old(self).contracts@, old(self).billing@, old(self).last_contract_id),
            leases_ok(old(self).farms@, old(self).contracts@, old(self).nodes@),
            uniqueness_ok(old(self).contracts@),
            1 <= contract_id <= old(self).contracts@.len(),
            old(self).contracts@[contract_id - 1].state == ContractState::Created,
            new_state != ContractState::Created,
        ensures
            final(self).twins == old(self).twins,
            final(self).nodes == old(self).nodes,
            final(self).pricing_policies == old(self).pricing_policies,
            final(self).balances == old(self).balances,
            final(self).billing == old(self).billing,
            final(self).schedule == old(self).schedule,
            final(self).last_contract_id == old(self).last_contract_id,
            final(self).current_epoch == old(self).current_epoch,
            final(self).now_seconds == old(self).now_seconds,
            directory_ok(
                final(self).twins@,
                final(self).nodes@,
                final(self).farms@,
                final(self).pricing_policies@,
            ),
            match r {
                Ok(freed) => {
                    let ci = contract_id - 1;
                    let c = old(self).contracts@[ci];
                    let holder = match c.contract_type {
                        ContractData::NodeContract(nc) => nc.public_ips > 0,
                        ContractData::NameContract(_) => false,
                    };
                    &&& contracts_ok(
                        final(self).contracts@,
                        final(self).billing@,
                        final(self).last_contract_id,
                    )
                    &&& leases_ok(final(self).farms@, final(self).contracts@, final(self).nodes@)
                    &&& uniqueness_ok(final(self).contracts@)
                    &&& final(self).contracts@.len() == old(self).contracts@.len()
                    &&& forall|i: int|
                        0 <= i < old(self).contracts@.len() && i != ci
                            ==> final(self).contracts@[i] == old(self).contracts@[i]
                    &&& final(self).contracts@[ci].state == new_state
                    &&& final(self).contracts@[ci].contract_id == contract_id
                    &&& final(self).contracts@[ci].twin_id == old(self).contracts@[ci].twin_id
                    &&& final(self).contracts@[ci].version == old(self).contracts@[ci].version
                    &&& final(self).contracts@[ci].contract_type == old(
                        self,
                    ).contracts@[ci].contract_type
                    &&& forall|fi: int, k: int|
                        0 <= fi < final(self).farms@.len() && 0 <= k
                            < final(self).farms@[fi].public_ips@.len()
                            ==> (#[trigger] final(self).farms@[fi].public_ips@[k]).contract_id
                            != contract_id
                    &&& final(self).farms@.len() == old(self).farms@.len()
                    &&& forall|fi: int|
                        0 <= fi < old(self).farms@.len() ==> (#[trigger] final(self).farms@[fi])
                            == old(self).farms@[fi] || ({
                            &&& final(self).farms@[fi].id == old(self).farms@[fi].id
                            &&& final(self).farms@[fi].name == old(self).farms@[fi].name
                            &&& final(self).farms@[fi].twin_id == old(self).farms@[fi].twin_id
                            &&& final(self).farms@[fi].pricing_policy_id
                                == old(self).farms@[fi].pricing_policy_id
                            &&& final(self).farms@[fi].certification_type
                                == old(self).farms@[fi].certification_type
                            &&& final(self).farms@[fi].public_ips@ == pool::release_result(
                                old(self).farms@[fi].public_ips@,
                                contract_id,
                            )
                        })
                    &&& (!holder ==> freed@.len() == 0 && final(self).farms == old(self).farms)
                    &&& (holder ==> ({
                        let fa = pool::freed_addresses(
                            old(self).farms@[old(self).nodes@[c.spec_node_id() - 1].farm_id
                                - 1].public_ips@,
                            contract_id,
                        );
                        &&& freed@.len() == fa.len()
                        &&& forall|j: int|
                            0 <= j < freed@.len() ==> (#[trigger] freed@[j])@ == fa[j]
                    }))
                },
                Err(e) => {
                    &&& final(self).contracts == old(self).contracts
                    &&& final(self).farms == old(self).farms
                    &&& ({
                        let c = old(self).contracts@[contract_id - 1];
                        let holder = match c.contract_type {
                            ContractData::NodeContract(nc) => nc.public_ips > 0,
                            ContractData::NameContract(_) => false,
                        };
                        let node_ok = 1 <= c.spec_node_id() <= old(self).nodes@.len();
                        let farm_ok = node_ok && 1 <= old(self).nodes@[c.spec_node_id()
                            - 1].farm_id <= old(self).farms@.len();
                        &&& (e == Error::NodeNotExists <==> holder && !node_ok)
                        &&& (e == Error::FarmNotExists <==> holder && node_ok && !farm_ok)
                        &&& (e == Error::NodeNotExists || e == Error::FarmNotExists)
                    })
                },
            },
    {
        let n = self.contracts.len();
        proof {
            assert(contract_id - 1 < n);
        }
        let ci = (contract_id - 1) as usize;
        let ghost contracts0 = self.contracts@;
        let ghost farms0 = self.farms@;
        let (is_ip_holder, node_id) = match &self.contracts[ci].contract_type {
            ContractData::NodeContract(nc) => (nc.public_ips > 0, nc.node_id),
            ContractData::NameContract(_) => (false, 0u32),
        };
        let mut freed_out: Vec<Vec<u8>> = Vec::new();
        if is_ip_holder {
            if node_id < 1 || node_id as usize > self.nodes.len() {
                return Err(Error::NodeNotExists);
            }
            let fid = self.nodes[(node_id - 1) as usize].farm_id;
            if fid < 1 || fid as usize > self.farms.len() {
                return Err(Error::FarmNotExists);
            }
            let fi = (fid - 1) as usize;
            freed_out = pool::free_ips(&mut self.farms[fi].public_ips, contract_id);
            proof {
                assert forall|fi2: int, k: int|
                    0 <= fi2 < self.farms@.len() && 0 <= k < self.farms@[fi2].public_ips@.len()
                        implies (#[trigger] self.farms@[fi2].public_ips@[k]).contract_id
                    != contract_id by {
                    if fi2 == fi {
                        assert(self.farms@[fi2].public_ips@ == pool::release_result(
                            farms0[fi2].public_ips@,
                            contract_id,
                        ));
                    } else {
                        assert(self.farms@[fi2] == farms0[fi2]);
                        if self.farms@[fi2].public_ips@[k].contract_id == contract_id {
                            assert(lease_backed(
                                contracts0,
                                self.nodes@,
                                contract_id,
                                farms0[fi2].id,
                            ));
                            assert(farms0[fi2].id == fi2 + 1);
                        }
                    }
                }
            }
        } else {
            proof {
                assert forall|fi2: int, k: int|
                    0 <= fi2 < self.farms@.len() && 0 <= k < self.farms@[fi2].public_ips@.len()
                        implies (#[trigger] self.farms@[fi2].public_ips@[k]).contract_id
                    != contract_id by {
                    if self.farms@[fi2].public_ips@[k].contract_id == contract_id {
                        assert(lease_backed(
                            contracts0,
                            self.nodes@,
                            contract_id,
                            farms0[fi2].id,
                        ));
                    }
                }
            }
        }
        let ghost farms1 = self.farms@;
        self.contracts[ci].state = new_state;
        proof {
            let cs = self.contracts@;
            assert(forall|i: int| 0 <= i < cs.len() && i != ci ==> cs[i] == contracts0[i]);
            assert forall|fi2: int, k: int|
                0 <= fi2 < farms1.len() && 0 <= k < farms1[fi2].public_ips@.len() && (
                #[trigger] farms1[fi2].public_ips@[k]).contract_id != 0 implies lease_backed(
                cs,
                self.nodes@,
                farms1[fi2].public_ips@[k].contract_id,
                farms1[fi2].id,
            ) by {
                let cid = farms1[fi2].public_ips@[k].contract_id;
                assert(cid != contract_id);
                if farms1[fi2] == farms0[fi2] {
                    assert(lease_backed(contracts0, self.nodes@, cid, farms0[fi2].id));
                } else {
                    assert(farms1[fi2].public_ips@ == pool::release_result(
                        farms0[fi2].public_ips@,
                        contract_id,
                    ));
                    assert(farms1[fi2].public_ips@[k] == farms0[fi2].public_ips@[k]);
                    assert(lease_backed(contracts0, self.nodes@, cid, farms0[fi2].id));
                }
                assert(cs[cid - 1] == contracts0[cid - 1]);
            }
            assert forall|i: int, j: int|
                0 <= i < j < cs.len() && (#[trigger] cs[i]).state == ContractState::Created && (
                #[trigger] cs[j]).state == ContractState::Created implies !same_node_key(
                cs[i],
                cs[j],
            ) && !same_name(cs[i], cs[j]) by {
                assert(i != ci && j != ci);
                assert(cs[i] == contracts0[i] && cs[j] == contracts0[j]);
            }
        }
        Ok(freed_out)
    }

    /// Cancels a live contract: the owning twin gives it up, its public
    /// IPs are released, it leaves every future billing bucket, and it
    /// moves to the terminal `Deleted` state.
    ///
    /// Returns `ContractCanceled`, or the error naming what was wrong:
    /// no live contract has this id, the contract's twin is unknown, or
    /// the caller is not the owning twin. On error nothing changes.
    pub fn cancel_contract(&mut self, account_id: u64, contract_id: u64) -> (r: Result<
        Vec<Event>,
        Error,
    >)
        requires
            old(self).wf(),
        ensures
            final(self).wf(),
            final(self).twins == old(self).twins,
            final(self).nodes == old(self).nodes,
            final(self).pricing_policies == old(self).pricing_policies,
            final(self).balances == old(self).balances,
            final(self).billing == old(self).billing,
            final(self).current_epoch == old(self).current_epoch,
            final(self).now_seconds == old(self).now_seconds,
            match r {
                Ok(events) => {
                    let ci = contract_id - 1;
                    &&& 1 <= contract_id <= old(self).contracts@.len()
                    &&& old(self).contracts@[ci].state == ContractState::Created
                    &&& final(self).contracts@.len() == old(self).contracts@.len()
                    &&& forall|i: int|
                        0 <= i < old(self).contracts@.len() && i != ci
                            ==> final(self).contracts@[i] == old(self).contracts@[i]
                    &&& final(self).contracts@[ci].state == ContractState::Deleted
                    &&& final(self).contracts@[ci].contract_id == contract_id
                    &&& final(self).contracts@[ci].twin_id == old(self).contracts@[ci].twin_id
                    &&& final(self).contracts@[ci].version == old(self).contracts@[ci].version
                    &&& final(self).contracts@[ci].contract_type == old(
                        self,
                    ).contracts@[ci].contract_type
                    &&& final(self).schedule@ == schedule::entries_without(
                        old(self).schedule@,
                        contract_id,
                    )
                    &&& forall|fi: int, k: int|
                        0 <= fi < final(self).farms@.len() && 0 <= k
                            < final(self).farms@[fi].public_ips@.len()
                            ==> (#[trigger] final(self).farms@[fi].public_ips@[k]).contract_id
                            != contract_id
                    &&& ({
                        let c = old(self).contracts@[ci];
                        let holder = match c.contract_type {
                            ContractData::NodeContract(nc) => nc.public_ips > 0,
                            ContractData::NameContract(_) => false,
                        };
                        &&& (!holder ==> events@ == seq![Event::ContractCanceled(contract_id)]
                            && final(self).farms == old(self).farms)
                        &&& (holder ==> ({
                            let fa = pool::freed_addresses(
                                old(self).farms@[old(self).nodes@[c.spec_node_id() - 1].farm_id
                                    - 1].public_ips@,
                                contract_id,
                            );
                            &&& events@.len() == 2
                            &&& (events@[0] matches Event::IPsFreed(cid2, freed) && cid2
                                == contract_id && freed@.len() == fa.len() && forall|j: int|
                                0 <= j < freed@.len() ==> (#[trigger] freed@[j])@ == fa[j])
                            &&& events@[1] == Event::ContractCanceled(contract_id)
                        }))
                    })
                },
                Err(e) => {
                    &&& final(self).contracts == old(self).contracts
                    &&& final(self).farms == old(self).farms
                    &&& final(self).schedule == old(self).schedule
                    &&& ({
                        let live = 1 <= contract_id <= old(self).contracts@.len() && old(
                            self,
                        ).contracts@[contract_id - 1].state == ContractState::Created;
                        let c = old(self).contracts@[contract_id - 1];
                        let twin_ok = 1 <= c.twin_id <= old(self).twins@.len();
                        let authorized = twin_ok && old(self).twins@[c.twin_id - 1].account_id
                            == account_id;
                        let holder = match c.contract_type {
                            ContractData::NodeContract(nc) => nc.public_ips > 0,
                            ContractData::NameContract(_) => false,
                        };
                        let node_ok = 1 <= c.spec_node_id() <= old(self).nodes@.len();
                        let farm_ok = node_ok && 1 <= old(self).nodes@[c.spec_node_id()
                            - 1].farm_id <= old(self).farms@.len();
                        &&& (e == Error::ContractNotExists || e == Error::TwinNotExists || e
                            == Error::TwinNotAuthorizedToCancelContract || e
                            == Error::NodeNotExists || e == Error::FarmNotExists)
                        &&& (e == Error::ContractNotExists <==> !live)
                        &&& (e == Error::TwinNotExists <==> live && !twin_ok)
                        &&& (e == Error::TwinNotAuthorizedToCancelContract <==> live && twin_ok
                            && !authorized)
                        &&& (e == Error::NodeNotExists <==> live && authorized && holder
                            && !node_ok)
                        &&& (e == Error::FarmNotExists <==> live && authorized && holder && node_ok
                            && !farm_ok)
                    })
                },
            },
    {
        if contract_id < 1 || contract_id > self.contracts.len() as u64 {
            return Err(Error::ContractNotExists);
        }
        let ci = (contract_id - 1) as usize;
        let live = match &self.contracts[ci].state {
            ContractState::Created => true,
            _ => false,
        };
        if !live {
            return Err(Error::ContractNotExists);
        }
        let twin_id = self.contracts[ci].twin_id;
        let twin = match self.twins(twin_id) {
            Some(t) => t,
            None => {
                return Err(Error::TwinNotExists);
            },
        };
        if twin.account_id != account_id {
            return Err(Error::TwinNotAuthorizedToCancelContract);
        }
        let holder = match &self.contracts[ci].contract_type {
            ContractData::NodeContract(nc) => nc.public_ips > 0,
            ContractData::NameContract(_) => false,
        };
        let ghost contracts0 = self.contracts@;
        let ghost sched0 = self.schedule@;
        let freed = match self.release_and_mark(contract_id, ContractState::Deleted) {
            Ok(f) => f,
            Err(e) => {
                return Err(e);
            },
        };
        schedule::remove_id(&mut self.schedule, contract_id);
        proof {
            let cs = self.contracts@;
            let ns = self.schedule@;
            schedule::lemma_entries_without(sched0, contract_id);
            schedule::lemma_entries_without_distinct(sched0, contract_id);
            assert forall|k: int|
                0 <= k < ns.len() implies (#[trigger] ns[k]).0 > self.current_epoch
                && is_created_in(cs, ns[k].1) by {
                let entry = ns[k];
                assert(entry.1 != contract_id);
                let m = choose|m: int| 0 <= m < sched0.len() && (#[trigger] sched0[m]) == entry;
                assert(is_created_in(contracts0, entry.1));
                assert(cs[entry.1 - 1] == contracts0[entry.1 - 1]);
            }
            assert forall|i: int|
                0 <= i < cs.len() && (#[trigger] cs[i]).state == ContractState::Created implies schedule::has_id(
                ns,
                cs[i].contract_id,
            ) by {
                assert(i != ci);
                assert(cs[i] == contracts0[i]);
                assert(schedule::has_id(sched0, contracts0[i].contract_id));
                let m = choose|m: int|
                    0 <= m < sched0.len() && (#[trigger] sched0[m]).1 == contracts0[i].contract_id;
                assert(contracts0[i].contract_id == i + 1);
                assert(sched0[m].1 != contract_id);
            }
        }
        let mut events: Vec<Event> = Vec::new();
        if holder {
            events.push(Event::IPsFreed(contract_id, freed));
        }
        events.push(Event::ContractCanceled(contract_id));
        proof {
            if !holder {
                assert(events@ =~= seq![Event::ContractCanceled(contract_id)]);
            }
        }
        Ok(events)
    }

    /// The first node run by this twin, if any.
    fn find_node_by_twin(&self, twin_id: u32) -> (r: Option<Node>)
        ensures
            match r {
                Some(n) => {
                    let idx = node_for_twin(self.nodes@, twin_id);
                    idx != -1 && n == self.nodes@[idx]
                },
                None => node_for_twin(self.nodes@, twin_id) == -1,
            },
    {
        let ghost s = self.nodes@;
        proof {
            lemma_node_for_twin(s, twin_id);
        }
        let mut i: usize = 0;
        while i < self.nodes.len()
            invariant
                self.nodes@ == s,
                0 <= i <= s.len(),
                forall|j: int| 0 <= j < i ==> (#[trigger] s[j]).twin_id != twin_id,
            decreases s.len() - i,
        {
            if self.nodes[i].twin_id == twin_id {
                proof {
                    lemma_node_for_twin(s, twin_id);
                }
                return Some(self.nodes[i]);
            }
            i = i + 1;
        }
        proof {
            lemma_node_for_twin(s, twin_id);
        }
        None
    }

    /// Ingests a batch of consumption reports signed by a node's twin.
    ///
    /// The whole batch is validated first: the account must name a twin
    /// that runs a node whose farm and pricing policy exist, and every
    /// report must address an existing contract deployed on that node.
    /// Only then is the batch accounted, in order; a stale report (older
    /// than the contract's last accounting) is silently ignored, and a
    /// report whose cost exceeds the arithmetic range stops the batch
    /// with `CostOverflow`, reports before it already accounted.
    pub fn submit_consumption_reports(&mut self, source_account: u64, reports: Vec<Consumption>) -> (r: Result<Vec<Event>, Error>)
        requires
            old(self).wf(),
        ensures
            final(self).wf(),
            final(self).twins == old(self).twins,
            final(self).nodes == old(self).nodes,
            final(self).farms == old(self).farms,
            final(self).pricing_policies == old(self).pricing_policies,
            final(self).balances == old(self).balances,
            final(self).contracts == old(self).contracts,
            final(self).schedule == old(self).schedule,
            final(self).current_epoch == old(self).current_epoch,
            final(self).now_seconds == old(self).now_seconds,
            ({
                let tidx = twin_for_account(old(self).twins@, source_account);
                let nidx = node_for_twin(old(self).nodes@, old(self).twins@[tidx].id);
                let node = old(self).nodes@[nidx];
                let farm = old(self).farms@[node.farm_id - 1];
                let policy = old(self).pricing_policies@[farm.pricing_policy_id - 1];
                match r {
                    Ok(events) => {
                        &&& tidx != -1
                        &&& nidx != -1
                        &&& 1 <= node.farm_id <= old(self).farms@.len()
                        &&& 1 <= farm.pricing_policy_id <= old(self).pricing_policies@.len()
                        &&& forall|j: int|
                            0 <= j < reports@.len() ==> report_valid(
                                old(self).contracts@,
                                #[trigger] reports@[j],
                                node.id,
                            )
                        &&& billing::apply_reports_fit(old(self).billing@, reports@, policy)
                        &&& final(self).billing@ == billing::apply_reports(
                            old(self).billing@,
                            reports@,
                            policy,
                        )
                        &&& events@.len() == reports@.len()
                        &&& forall|j: int|
                            0 <= j < reports@.len() ==> #[trigger] events@[j]
                                == Event::ConsumptionReportReceived(reports@[j])
                    },
                    Err(e) => {
                        let farm_ok = nidx != -1 && 1 <= node.farm_id <= old(self).farms@.len();
                        let policy_ok = farm_ok && 1 <= farm.pricing_policy_id <= old(
                            self,
                        ).pricing_policies@.len();
                        let pre_ok = tidx != -1 && nidx != -1 && farm_ok && policy_ok;
                        let bad = first_invalid_report(old(self).contracts@, reports@, node.id);
                        &&& (e == Error::TwinNotExists || e == Error::NodeNotExists || e
                            == Error::FarmNotExists || e == Error::PricingPolicyNotExists || e
                            == Error::ContractNotExists || e
                            == Error::NodeNotAuthorizedToComputeReport || e
                            == Error::CostOverflow)
                        &&& (e == Error::TwinNotExists <==> tidx == -1)
                        &&& (e == Error::NodeNotExists <==> tidx != -1 && nidx == -1)
                        &&& (e == Error::FarmNotExists <==> tidx != -1 && nidx != -1 && !(1
                            <= node.farm_id <= old(self).farms@.len()))
                        &&& (e == Error::PricingPolicyNotExists <==> tidx != -1 && farm_ok && !(1
                            <= farm.pricing_policy_id <= old(self).pricing_policies@.len()))
                        &&& (e == Error::ContractNotExists <==> pre_ok && bad != -1 && !(1
                            <= reports@[bad].contract_id <= old(self).contracts@.len()))
                        &&& (e == Error::NodeNotAuthorizedToComputeReport <==> pre_ok && bad != -1
                            && 1 <= reports@[bad].contract_id <= old(self).contracts@.len())
                        &&& (e == Error::CostOverflow ==> pre_ok && bad == -1 && exists|j: int|
                            0 <= j < reports@.len() && final(self).billing@
                                == billing::apply_reports(
                                old(self).billing@,
                                #[trigger] reports@.take(j),
                                policy,
                            ) && !billing::accrue_fits(
                                reports@[j],
                                policy,
                                billing::apply_reports(
                                    old(self).billing@,
                                    reports@.take(j),
                                    policy,
                                )[reports@[j].contract_id - 1],
                            ))
                        &&& (e != Error::CostOverflow ==> final(self).billing == old(self).billing)
                    },
                }
            }),
    {
        let twin = match self.find_twin_by_account(source_account) {
            Some(t) => t,
            None => {
                return Err(Error::TwinNotExists);
            },
        };
        let node = match self.find_node_by_twin(twin.id) {
            Some(n) => n,
            None => {
                return Err(Error::NodeNotExists);
            },
        };
        if node.farm_id < 1 || node.farm_id as usize > self.farms.len() {
            return Err(Error::FarmNotExists);
        }
        let policy_id = self.farms[(node.farm_id - 1) as usize].pricing_policy_id;
        if policy_id < 1 || policy_id as usize > self.pricing_policies.len() {
            return Err(Error::PricingPolicyNotExists);
        }
        let ghost gpolicy = self.pricing_policies@[policy_id - 1];

        // Validate the whole batch before accounting anything.
        let ghost tidx = twin_for_account(old(self).twins@, source_account);
        let ghost nidx = node_for_twin(old(self).nodes@, twin.id);
        let n_contracts = self.contracts.len();
        let mut v: usize = 0;
        while v < reports.len()
            invariant
                self == old(self),
                old(self).wf(),
                tidx == twin_for_account(old(self).twins@, source_account),
                tidx != -1,
                twin == old(self).twins@[tidx],
                nidx == node_for_twin(old(self).nodes@, twin.id),
                nidx != -1,
                node == old(self).nodes@[nidx],
                1 <= node.farm_id <= old(self).farms@.len(),
                policy_id == old(self).farms@[node.farm_id - 1].pricing_policy_id,
                1 <= policy_id <= old(self).pricing_policies@.len(),
                gpolicy == old(self).pricing_policies@[policy_id - 1],
                n_contracts == self.contracts@.len(),
                0 <= v <= reports@.len(),
                forall|j: int|
                    0 <= j < v ==> report_valid(self.contracts@, #[trigger] reports@[j], node.id),
            decreases reports@.len() - v,
        {
            let report = &reports[v];
            if report.contract_id < 1 || report.contract_id > n_contracts as u64 {
                proof {
                    lemma_report_is_first_invalid(self.contracts@, reports@, node.id, v as int);
                }
                return Err(Error::ContractNotExists);
            }
            let ci = (report.contract_id - 1) as usize;
            let authorized = match &self.contracts[ci].contract_type {
                ContractData::NodeContract(nc) => nc.node_id == node.id,
                ContractData::NameContract(_) => false,
            };
            if !authorized {
                proof {
                    lemma_report_is_first_invalid(self.contracts@, reports@, node.id, v as int);
                }
                return Err(Error::NodeNotAuthorizedToComputeReport);
            }
            v = v + 1;
        }

        // Account the batch in order.
        let ghost billing0 = self.billing@;
        let mut events: Vec<Event> = Vec::new();
        let mut i: usize = 0;
        while i < reports.len()
            invariant
                self.wf(),
                self.twins == old(self).twins,
                self.nodes == old(self).nodes,
                self.farms == old(self).farms,
                self.pricing_policies == old(self).pricing_policies,
                self.balances == old(self).balances,
                self.contracts == old(self).contracts,
                self.schedule == old(self).schedule,
                self.current_epoch == old(self).current_epoch,
                self.now_seconds == old(self).now_seconds,
                self.last_contract_id == old(self).last_contract_id,
                billing0 == old(self).billing@,
                billing0.len() == self.contracts@.len(),
                tidx == twin_for_account(old(self).twins@, source_account),
                tidx != -1,
                twin == old(self).twins@[tidx],
                nidx == node_for_twin(old(self).nodes@, twin.id),
                nidx != -1,
                node == old(self).nodes@[nidx],
                1 <= node.farm_id <= old(self).farms@.len(),
                policy_id == old(self).farms@[node.farm_id - 1].pricing_policy_id,
                1 <= policy_id <= old(self).pricing_policies@.len(),
                gpolicy == old(self).pricing_policies@[policy_id - 1],
                n_contracts == self.contracts@.len(),
                0 <= i <= reports@.len(),
                self.billing@.len() == self.contracts@.len(),
                forall|j: int|
                    0 <= j < reports@.len() ==> report_valid(
                        self.contracts@,
                        #[trigger] reports@[j],
                        node.id,
                    ),
                self.billing@ == billing::apply_reports(billing0, reports@.take(i as int), gpolicy),
                billing::apply_reports_fit(billing0, reports@.take(i as int), gpolicy),
                events@.len() == i,
                forall|j: int|
                    0 <= j < i ==> #[trigger] events@[j] == Event::ConsumptionReportReceived(
                        reports@[j],
                    ),
            decreases reports@.len() - i,
        {
            let report = reports[i];
            let ci = (report.contract_id - 1) as usize;
            let info = self.billing[ci];
            proof {
                assert(reports@.take(i as int + 1) =~= reports@.take(i as int).push(
                    reports@[i as int],
                ));
                assert forall|j: int|
                    0 <= j < reports@.take(i as int).len() implies 1 <= (#[trigger] reports@.take(
                    i as int,
                )[j]).contract_id <= billing0.len() by {
                    assert(reports@.take(i as int)[j] == reports@[j]);
                }
                billing::lemma_apply_reports_push(
                    billing0,
                    reports@.take(i as int),
                    reports@[i as int],
                    gpolicy,
                );
            }
            match billing::accrue(&report, &self.pricing_policies[(policy_id - 1) as usize], &info)
                {
                Ok(updated) => {
                    self.billing[ci] = updated;
                },
                Err(e) => {
                    proof {
                        lemma_first_invalid(self.contracts@, reports@, node.id);
                        assert(self.billing@ == billing::apply_reports(
                            billing0,
                            reports@.take(i as int),
                            gpolicy,
                        ));
                        assert(!billing::accrue_fits(
                            reports@[i as int],
                            gpolicy,
                            billing::apply_reports(billing0, reports@.take(i as int), gpolicy)[
                                reports@[i as int].contract_id - 1],
                        ));
                    }
                    return Err(e);
                },
            }
            events.push(Event::ConsumptionReportReceived(report));
            i = i + 1;
        }
        proof {
            assert(reports@.take(reports@.len() as int) =~= reports@);
            lemma_first_invalid(self.contracts@, reports@, node.id);
        }
        Ok(events)
    }

    /// Appends a live contract to the bucket one billing cycle ahead.
    fn reinsert_contract_to_bill(&mut self, contract_id: u64)
        requires
            1 <= contract_id <= old(self).contracts@.len(),
            old(self).contracts@[contract_id - 1].state == ContractState::Created,
            !schedule::has_id(old(self).schedule@, contract_id),
            forall|k: int|
                0 <= k < old(self).schedule@.len() ==> (#[trigger] old(self).schedule@[k]).0 > old(
                    self,
                ).current_epoch && is_created_in(old(self).contracts@, old(self).schedule@[k].1),
            schedule::ids_distinct(old(self).schedule@),
            old(self).current_epoch + BILLING_FREQUENCY_IN_BLOCKS <= u64::MAX,
        ensures
            final(self).twins == old(self).twins,
            final(self).nodes == old(self).nodes,
            final(self).farms == old(self).farms,
            final(self).pricing_policies == old(self).pricing_policies,
            final(self).balances == old(self).balances,
            final(self).contracts == old(self).contracts,
            final(self).billing == old(self).billing,
            final(self).last_contract_id == old(self).last_contract_id,
            final(self).current_epoch == old(self).current_epoch,
            final(self).now_seconds == old(self).now_seconds,
            final(self).schedule@ == old(self).schedule@.push(
                ((old(self).current_epoch + BILLING_FREQUENCY_IN_BLOCKS) as u64, contract_id),
            ),
            forall|k: int|
                0 <= k < final(self).schedule@.len() ==> (#[trigger] final(self).schedule@[k]).0
                    > final(self).current_epoch && is_created_in(
                    final(self).contracts@,
                    final(self).schedule@[k].1,
                ),
            schedule::ids_distinct(final(self).schedule@),
            forall|id2: u64|
                schedule::has_id(old(self).schedule@, id2) ==> #[trigger] schedule::has_id(
                    final(self).schedule@,
                    id2,
                ),
            forall|id2: u64|
                #[trigger] schedule::has_id(final(self).schedule@, id2) ==> schedule::has_id(
                    old(self).schedule@,
                    id2,
                ) || id2 == contract_id,
            schedule::has_id(final(self).schedule@, contract_id),
    {
        let epoch: u64 = self.current_epoch + BILLING_FREQUENCY_IN_BLOCKS;
        let ghost sched0 = self.schedule@;
        self.schedule.push((epoch, contract_id));
        proof {
            schedule::lemma_has_id_push(sched0, (epoch, contract_id));
            let ns = self.schedule@;
            assert forall|k: int|
                0 <= k < ns.len() implies (#[trigger] ns[k]).0 > self.current_epoch
                && is_created_in(self.contracts@, ns[k].1) by {
                if k < sched0.len() {
                    assert(ns[k] == sched0[k]);
                } else {
                    assert(ns[k] == (epoch, contract_id));
                }
            }
            assert forall|k1: int, k2: int|
                0 <= k1 < k2 < ns.len() implies (#[trigger] ns[k1]).1 != (#[trigger] ns[k2]).1 by {
                if k2 < sched0.len() {
                    assert(ns[k1] == sched0[k1] && ns[k2] == sched0[k2]);
                } else {
                    assert(ns[k1] == sched0[k1]);
                    assert(ns[k2].1 == contract_id);
                    assert(!schedule::has_id(sched0, contract_id));
                }
            }
        }
    }

    /// Bills one live, drained contract: adds the cycle's IP cost to its
    /// accrued amount, applies the discount tier, pays the foundation,
    /// farmer and certified-sales shares, and either reschedules the
    /// contract one cycle ahead or, when its raw cost exceeded the payer's
    /// balance, pays what is available and decommissions it. A failed
    /// directory lookup leaves the contract untouched and reschedules it
    /// for retry.
    fn bill_one(&mut self, contract_id: u64) -> (r: Option<ContractBill>)
        requires
            directory_ok(
                old(self).twins@,
                old(self).nodes@,
                old(self).farms@,
                old(self).pricing_policies@,
            ),
            contracts_ok(old(self).contracts@, old(self).billing@, old(self).last_contract_id),
            leases_ok(old(self).farms@, old(self).contracts@, old(self).nodes@),
            uniqueness_ok(old(self).contracts@),
            ledger::accounts_unique(old(self).balances@),
            ledger::ledger_total(old(self).balances@) <= ledger::MAX_TOTAL_ISSUANCE,
            forall|k: int|
                0 <= k < old(self).schedule@.len() ==> (#[trigger] old(self).schedule@[k]).0 > old(
                    self,
                ).current_epoch && is_created_in(old(self).contracts@, old(self).schedule@[k].1),
            schedule::ids_distinct(old(self).schedule@),
            1 <= contract_id <= old(self).contracts@.len(),
            old(self).contracts@[contract_id - 1].state == ContractState::Created,
            !schedule::has_id(old(self).schedule@, contract_id),
            old(self).current_epoch + BILLING_FREQUENCY_IN_BLOCKS <= u64::MAX,
        ensures
            final(self).twins == old(self).twins,
            final(self).nodes == old(self).nodes,
            final(self).pricing_policies == old(self).pricing_policies,
            final(self).last_contract_id == old(self).last_contract_id,
            final(self).current_epoch == old(self).current_epoch,
            final(self).now_seconds == old(self).now_seconds,
            directory_ok(
                final(self).twins@,
                final(self).nodes@,
                final(self).farms@,
                final(self).pricing_policies@,
            ),
            contracts_ok(final(self).contracts@, final(self).billing@, final(self).last_contract_id),
            leases_ok(final(self).farms@, final(self).contracts@, final(self).nodes@),
            uniqueness_ok(final(self).contracts@),
            ledger::accounts_unique(final(self).balances@),
            ledger::ledger_total(final(self).balances@) == ledger::ledger_total(
                old(self).balances@,
            ),
            forall|k: int|
                0 <= k < final(self).schedule@.len() ==> (#[trigger] final(self).schedule@[k]).0
                    > final(self).current_epoch && is_created_in(
                    final(self).contracts@,
                    final(self).schedule@[k].1,
                ),
            schedule::ids_distinct(final(self).schedule@),
            forall|id2: u64|
                schedule::has_id(old(self).schedule@, id2) ==> #[trigger] schedule::has_id(
                    final(self).schedule@,
                    id2,
                ),
            forall|id2: u64|
                #[trigger] schedule::has_id(final(self).schedule@, id2) ==> schedule::has_id(
                    old(self).schedule@,
                    id2,
                ) || id2 == contract_id,
            (final(self).contracts@[contract_id - 1].state == ContractState::Created
                && schedule::has_id(final(self).schedule@, contract_id))
                || (final(self).contracts@[contract_id - 1].state == ContractState::OutOfFunds
                && !schedule::has_id(final(self).schedule@, contract_id)),
            final(self).contracts@.len() == old(self).contracts@.len(),
            forall|i: int|
                0 <= i < old(self).contracts@.len() && i != contract_id - 1
                    ==> final(self).contracts@[i] == old(self).contracts@[i],
            final(self).contracts@[contract_id - 1].contract_id == contract_id,
            final(self).contracts@[contract_id - 1].twin_id == old(self).contracts@[contract_id
                - 1].twin_id,
            final(self).contracts@[contract_id - 1].version == old(self).contracts@[contract_id
                - 1].version,
            final(self).contracts@[contract_id - 1].contract_type == old(
                self,
            ).contracts@[contract_id - 1].contract_type,
            final(self).billing@.len() == old(self).billing@.len(),
            forall|i: int|
                0 <= i < old(self).billing@.len() && i != contract_id - 1
                    ==> final(self).billing@[i] == old(self).billing@[i],
            bill_pass_post(*old(self), *final(self), contract_id, r),
    {
        let n = self.contracts.len();
        proof {
            assert(contract_id - 1 < n);
        }
        let ci = (contract_id - 1) as usize;
        let (is_node, node_id, public_ips) = match &self.contracts[ci].contract_type {
            ContractData::NodeContract(nc) => (true, nc.node_id, nc.public_ips),
            ContractData::NameContract(_) => (false, 0u32, 0u32),
        };
        if !is_node {
            // Name contracts accrue no consumption cost and hold no IPs:
            // their pass is always zero-cost.
            self.reinsert_contract_to_bill(contract_id);
            return None;
        }
        if node_id < 1 || node_id as usize > self.nodes.len() {
            self.reinsert_contract_to_bill(contract_id);
            return None;
        }
        let node = self.nodes[(node_id - 1) as usize];
        if node.farm_id < 1 || node.farm_id as usize > self.farms.len() {
            self.reinsert_contract_to_bill(contract_id);
            return None;
        }
        let fi = (node.farm_id - 1) as usize;
        let farm_twin_id = self.farms[fi].twin_id;
        let certification = self.farms[fi].certification_type;
        let policy_id = self.farms[fi].pricing_policy_id;
        if policy_id < 1 || policy_id as usize > self.pricing_policies.len() {
            self.reinsert_contract_to_bill(contract_id);
            return None;
        }
        let pi = (policy_id - 1) as usize;
        let ipu_value = self.pricing_policies[pi].ipu.value;
        let foundation_account = self.pricing_policies[pi].foundation_account;
        let sales_account = self.pricing_policies[pi].certified_sales_account;

        // Bill one hour of public-IP usage for the cycle, on top of the
        // accrued consumption cost.
        let unbilled = self.billing[ci].amount_unbilled;
        proof {
            vstd::arithmetic::mul::lemma_mul_upper_bound(
                public_ips as int,
                0xffff_ffff,
                ipu_value as int,
                0xffff_ffff,
            );
            vstd::arithmetic::mul::lemma_mul_upper_bound(
                (public_ips as int) * (ipu_value as int),
                0xffff_fffe_0000_0001,
                (BILLING_FREQUENCY_IN_BLOCKS * 60) as int,
                3600,
            );
        }
        let ip_cost: u128 = (public_ips as u128) * (ipu_value as u128) * (
        (BILLING_FREQUENCY_IN_BLOCKS * 60) as u128);
        let total: u128 = (unbilled as u128) + ip_cost;
        if total == 0 {
            self.reinsert_contract_to_bill(contract_id);
            return None;
        }
        let twin_id = self.contracts[ci].twin_id;
        let twin = match self.twins(twin_id) {
            Some(t) => t,
            None => {
                self.reinsert_contract_to_bill(contract_id);
                return None;
            },
        };
        let farmer_twin = match self.twins(farm_twin_id) {
            Some(t) => t,
            None => {
                self.reinsert_contract_to_bill(contract_id);
                return None;
            },
        };
        let payer = twin.account_id;
        let balance = ledger::balance_of(&self.balances, payer);
        let (amount_due, tier) = billing::calculate_discount(total, balance, certification);
        let decommission = total > balance;
        let pay: u128 = if amount_due >= balance {
            balance
        } else {
            amount_due
        };
        let self_hosted = twin_id == farm_twin_id;
        let (foundation_share, sales_share, farmer_share) = billing::reward_shares(
            pay,
            self_hosted,
        );

        // The three legs of the reward split; the payer's balance covers
        // them since their sum is the paid amount, itself capped at the
        // balance.
        let ghost bal0 = self.balances@;
        ledger::transfer(&mut self.balances, payer, foundation_account, foundation_share);
        proof {
            assert(ledger::spec_balance_of(self.balances@, payer) >= farmer_share + sales_share);
        }
        ledger::transfer(&mut self.balances, payer, farmer_twin.account_id, farmer_share);
        proof {
            assert(ledger::spec_balance_of(self.balances@, payer) >= sales_share);
        }
        ledger::transfer(&mut self.balances, payer, sales_account, sales_share);

        let bill = ContractBill {
            contract_id,
            timestamp: self.now_seconds,
            discount_level: tier,
            amount_billed: pay,
        };
        if decommission {
            match self.release_and_mark(contract_id, ContractState::OutOfFunds) {
                Ok(_) => {},
                Err(_) => {
                    proof {
                        // The node and farm rows were looked up above, so the
                        // release cannot fail.
                        assert(false);
                    }
                },
            }
        } else {
            let info = self.billing[ci];
            self.billing[ci] = ContractBillingInformation {
                previous_nu_reported: info.previous_nu_reported,
                last_updated: info.last_updated,
                amount_unbilled: 0,
            };
            self.reinsert_contract_to_bill(contract_id);
        }
        Some(bill)
    }

    /// The epoch-boundary hook, invoked exactly once per epoch by the
    /// host: drains the billing bucket of the new epoch and bills every
    /// live contract in it, returning one `ContractBilled` event per
    /// payment made.
    ///
    /// Every billed contract is either rescheduled exactly one billing
    /// cycle ahead or decommissioned; a schedule entry whose contract is
    /// no longer live is skipped without side effects.
    #[verifier::rlimit(100)]
    pub fn on_epoch_end(&mut self, epoch: u64) -> (events: Vec<Event>)
        requires
            old(self).wf(),
            epoch == old(self).current_epoch + 1,
            epoch + BILLING_FREQUENCY_IN_BLOCKS <= u64::MAX,
        ensures
            final(self).wf(),
            final(self).current_epoch == epoch,
            final(self).twins == old(self).twins,
            final(self).nodes == old(self).nodes,
            final(self).pricing_policies == old(self).pricing_policies,
            final(self).now_seconds == old(self).now_seconds,
            final(self).last_contract_id == old(self).last_contract_id,
            final(self).contracts@.len() == old(self).contracts@.len(),
            forall|i: int|
                0 <= i < old(self).contracts@.len() ==> (#[trigger] final(self).contracts@[i]).contract_id
                    == old(self).contracts@[i].contract_id && final(self).contracts@[i].twin_id
                    == old(self).contracts@[i].twin_id && final(self).contracts@[i].version == old(
                    self,
                ).contracts@[i].version && final(self).contracts@[i].contract_type == old(
                    self,
                ).contracts@[i].contract_type,
            forall|i: int|
                0 <= i < old(self).contracts@.len() && (#[trigger] old(self).contracts@[i]).state
                    != ContractState::Created ==> final(self).contracts@[i] == old(
                    self,
                ).contracts@[i],
            forall|i: int|
                0 <= i < old(self).contracts@.len() ==> (#[trigger] final(self).contracts@[i]).state
                    == old(self).contracts@[i].state || (old(self).contracts@[i].state
                    == ContractState::Created && final(self).contracts@[i].state
                    == ContractState::OutOfFunds),
            ledger::ledger_total(final(self).balances@) == ledger::ledger_total(
                old(self).balances@,
            ),
            final(self).billing@.len() == old(self).billing@.len(),
            final(self).farms@.len() == old(self).farms@.len(),
            forall|fi: int|
                0 <= fi < old(self).farms@.len() ==> (#[trigger] final(self).farms@[fi]).id == old(
                    self,
                ).farms@[fi].id && final(self).farms@[fi].twin_id == old(self).farms@[fi].twin_id
                    && final(self).farms@[fi].pricing_policy_id == old(
                    self,
                ).farms@[fi].pricing_policy_id && final(self).farms@[fi].certification_type == old(
                    self,
                ).farms@[fi].certification_type,
            forall|ii: int|
                0 <= ii < old(self).contracts@.len() && !schedule::due_ids(
                    old(self).schedule@,
                    epoch,
                ).contains((#[trigger] old(self).contracts@[ii]).contract_id)
                    ==> final(self).contracts@[ii] == old(self).contracts@[ii]
                    && final(self).billing@[ii] == old(self).billing@[ii],
            final(self).schedule@ == schedule::kept_entries(old(self).schedule@, epoch)
                + rebucketed(
                final(self).contracts@,
                schedule::due_ids(old(self).schedule@, epoch),
                (epoch + BILLING_FREQUENCY_IN_BLOCKS) as u64,
            ),
            events@.len() == billed_ids(
                *old(self),
                schedule::due_ids(old(self).schedule@, epoch),
            ).len(),
            events@.len() == 0 ==> final(self).balances == old(self).balances,
            forall|j: int|
                0 <= j < events@.len() ==> ((#[trigger] events@[j]) matches Event::ContractBilled(
                    b,
                ) && b.contract_id == billed_ids(
                    *old(self),
                    schedule::due_ids(old(self).schedule@, epoch),
                )[j] && b.timestamp == old(self).now_seconds),
    {
        let ghost sched0 = self.schedule@;
        let ghost contracts0 = self.contracts@;
        self.current_epoch = epoch;
        let due = schedule::take_due(&mut self.schedule, epoch);
        proof {
            schedule::lemma_kept_entries_source(sched0, epoch);
            schedule::lemma_due_ids_source(sched0, epoch);
            schedule::lemma_drain_complete(sched0, epoch);
            schedule::lemma_drain_distinct(sched0, epoch);
            let kept = self.schedule@;
            assert forall|k: int|
                0 <= k < kept.len() implies (#[trigger] kept[k]).0 > epoch && is_created_in(
                self.contracts@,
                kept[k].1,
            ) by {
                let m = choose|m: int| 0 <= m < sched0.len() && (#[trigger] sched0[m]) == kept[k];
                assert(sched0[m].0 > epoch - 1);
                assert(kept[k].0 != epoch);
            }
            assert forall|j: int|
                0 <= j < due@.len() implies 1 <= (#[trigger] due@[j]) <= self.contracts@.len()
                && self.contracts@[due@[j] - 1].state == ContractState::Created by {
                let m = choose|m: int|
                    0 <= m < sched0.len() && (#[trigger] sched0[m]) == (epoch, due@[j]);
                assert(is_created_in(self.contracts@, due@[j]));
            }
            assert forall|ii: int|
                0 <= ii < self.contracts@.len() && (#[trigger] self.contracts@[ii]).state
                    == ContractState::Created implies schedule::has_id(
                self.schedule@,
                self.contracts@[ii].contract_id,
            ) || exists|j: int|
                0 <= j < due@.len() && due@[j] == self.contracts@[ii].contract_id by {
                let id = self.contracts@[ii].contract_id;
                assert(schedule::has_id(sched0, id));
                let m = choose|m: int| 0 <= m < sched0.len() && (#[trigger] sched0[m]).1 == id;
                if sched0[m].0 == epoch {
                    assert(schedule::due_ids(sched0, epoch).contains(id));
                } else {
                    assert(schedule::has_id(schedule::kept_entries(sched0, epoch), id));
                }
            }
            assert(due@.take(0) =~= Seq::<u64>::empty());
            assert(schedule::kept_entries(sched0, epoch) + rebucketed(
                self.contracts@,
                due@.take(0),
                (epoch + BILLING_FREQUENCY_IN_BLOCKS) as u64,
            ) =~= schedule::kept_entries(sched0, epoch));
        }
        let mut events: Vec<Event> = Vec::new();
        let mut i: usize = 0;
        while i < due.len()
            invariant
                self.twins == old(self).twins,
                self.nodes == old(self).nodes,
                self.pricing_policies == old(self).pricing_policies,
                self.now_seconds == old(self).now_seconds,
                self.last_contract_id == old(self).last_contract_id,
                self.current_epoch == epoch,
                epoch + BILLING_FREQUENCY_IN_BLOCKS <= u64::MAX,
                directory_ok(self.twins@, self.nodes@, self.farms@, self.pricing_policies@),
                contracts_ok(self.contracts@, self.billing@, self.last_contract_id),
                leases_ok(self.farms@, self.contracts@, self.nodes@),
                uniqueness_ok(self.contracts@),
                ledger::accounts_unique(self.balances@),
                ledger::ledger_total(self.balances@) <= ledger::MAX_TOTAL_ISSUANCE,
                ledger::ledger_total(self.balances@) == ledger::ledger_total(old(self).balances@),
                forall|k: int|
                    0 <= k < self.schedule@.len() ==> (#[trigger] self.schedule@[k]).0
                        > self.current_epoch && is_created_in(self.contracts@, self.schedule@[k].1),
                schedule::ids_distinct(self.schedule@),
                0 <= i <= due@.len(),
                forall|j: int|
                    i <= j < due@.len() ==> 1 <= (#[trigger] due@[j]) <= self.contracts@.len()
                        && self.contracts@[due@[j] - 1].state == ContractState::Created
                        && !schedule::has_id(self.schedule@, due@[j]),
                forall|j1: int, j2: int|
                    0 <= j1 < j2 < due@.len() ==> (#[trigger] due@[j1]) != (#[trigger] due@[j2]),
                forall|ii: int|
                    0 <= ii < self.contracts@.len() && (#[trigger] self.contracts@[ii]).state
                        == ContractState::Created ==> schedule::has_id(
                        self.schedule@,
                        self.contracts@[ii].contract_id,
                    ) || exists|j: int|
                        i <= j < due@.len() && due@[j] == self.contracts@[ii].contract_id,
                self.contracts@.len() == old(self).contracts@.len(),
                forall|ii: int|
                    0 <= ii < old(self).contracts@.len() ==> (#[trigger] self.contracts@[ii]).contract_id
                        == old(self).contracts@[ii].contract_id && self.contracts@[ii].twin_id
                        == old(self).contracts@[ii].twin_id && self.contracts@[ii].version == old(
                        self,
                    ).contracts@[ii].version && self.contracts@[ii].contract_type == old(
                        self,
                    ).contracts@[ii].contract_type,
                forall|ii: int|
                    0 <= ii < old(self).contracts@.len() && (#[trigger] old(self).contracts@[ii]).state
                        != ContractState::Created ==> self.contracts@[ii] == old(
                        self,
                    ).contracts@[ii],
                forall|ii: int|
                    0 <= ii < old(self).contracts@.len() ==> (#[trigger] self.contracts@[ii]).state
                        == old(self).contracts@[ii].state || (old(self).contracts@[ii].state
                        == ContractState::Created && self.contracts@[ii].state
                        == ContractState::OutOfFunds),
                old(self).wf(),
                self.billing@.len() == old(self).billing@.len(),
                self.farms@.len() == old(self).farms@.len(),
                forall|fi: int|
                    0 <= fi < old(self).farms@.len() ==> (#[trigger] self.farms@[fi]).id == old(
                        self,
                    ).farms@[fi].id && self.farms@[fi].twin_id == old(self).farms@[fi].twin_id
                        && self.farms@[fi].pricing_policy_id == old(
                        self,
                    ).farms@[fi].pricing_policy_id && self.farms@[fi].certification_type == old(
                        self,
                    ).farms@[fi].certification_type,
                forall|ii: int|
                    0 <= ii < old(self).contracts@.len() && (forall|j: int|
                        0 <= j < i ==> (#[trigger] due@[j]) != old(self).contracts@[ii].contract_id)
                        ==> (#[trigger] self.contracts@[ii]) == old(self).contracts@[ii]
                        && self.billing@[ii] == old(self).billing@[ii],
                self.schedule@ == schedule::kept_entries(old(self).schedule@, epoch) + rebucketed(
                    self.contracts@,
                    due@.take(i as int),
                    (epoch + BILLING_FREQUENCY_IN_BLOCKS) as u64,
                ),
                events@.len() == billed_ids(*old(self), due@.take(i as int)).len(),
                events@.len() == 0 ==> self.balances == old(self).balances,
                forall|j: int|
                    0 <= j < events@.len() ==> ((#[trigger] events@[j]) matches Event::ContractBilled(
                        b,
                    ) && b.contract_id == billed_ids(*old(self), due@.take(i as int))[j]
                        && b.timestamp == old(self).now_seconds),
            decreases due@.len() - i,
        {
            let id = due[i];
            let n = self.contracts.len();
            proof {
                assert(id - 1 < n);
            }
            let ghost sched_before = self.schedule@;
            let ghost contracts_before = self.contracts@;
            let live = match &self.contracts[(id - 1) as usize].state {
                ContractState::Created => true,
                _ => false,
            };
            proof {
                assert(self.contracts@[id - 1].state == ContractState::Created);
            }
            if live {
                let ghost pre = *self;
                let r = self.bill_one(id);
                proof {
                    lemma_bill_step(
                        contracts_before,
                        self.contracts@,
                        sched_before,
                        self.schedule@,
                        due@,
                        i as int,
                        id,
                    );
                    // The contract billed here was untouched by the earlier
                    // steps of the pass, so whether it is billable reads the
                    // same at the pass's start state.
                    assert forall|j: int| 0 <= j < i implies (#[trigger] due@[j])
                        != old(self).contracts@[id - 1].contract_id by {}
                    assert(pre.contracts@[id - 1] == old(self).contracts@[id - 1]);
                    assert(pre.billing@[id - 1] == old(self).billing@[id - 1]);
                    lemma_billable_stable(*old(self), pre, id);

                    // Rebucketing one more due contract extends the appended
                    // suffix exactly when the contract stayed live.
                    let ep2 = (epoch + BILLING_FREQUENCY_IN_BLOCKS) as u64;
                    let kept = schedule::kept_entries(old(self).schedule@, epoch);
                    assert(due@.take(i as int + 1).drop_last() =~= due@.take(i as int));
                    assert(due@.take(i as int + 1).last() == id);
                    assert forall|j: int|
                        0 <= j < due@.take(i as int).len() implies is_created_in(
                        self.contracts@,
                        #[trigger] due@.take(i as int)[j],
                    ) == is_created_in(contracts_before, due@.take(i as int)[j]) by {
                        assert(due@.take(i as int)[j] == due@[j]);
                        assert(due@[j] != id);
                        if 1 <= due@[j] <= contracts_before.len() {
                            assert(self.contracts@[due@[j] - 1] == contracts_before[due@[j] - 1]);
                        }
                    }
                    lemma_rebucketed_agree(
                        self.contracts@,
                        contracts_before,
                        due@.take(i as int),
                        ep2,
                    );
                    if billable(pre, id) && bill_total(pre, id) as u128 > ledger::spec_balance_of(
                        pre.balances@,
                        pre.twins@[pre.contracts@[id - 1].twin_id - 1].account_id,
                    ) {
                        assert(self.schedule@ == sched_before);
                        assert(self.contracts@[id - 1].state == ContractState::OutOfFunds);
                        assert(rebucketed(self.contracts@, due@.take(i as int + 1), ep2)
                            == rebucketed(self.contracts@, due@.take(i as int), ep2));
                    } else {
                        assert(self.schedule@ == sched_before.push((ep2, id)));
                        assert(self.contracts@[id - 1].state == ContractState::Created);
                        assert(is_created_in(self.contracts@, id));
                        assert(rebucketed(self.contracts@, due@.take(i as int + 1), ep2)
                            == rebucketed(self.contracts@, due@.take(i as int), ep2).push(
                            (ep2, id),
                        ));
                        assert((kept + rebucketed(contracts_before, due@.take(i as int), ep2)).push(
                            (ep2, id),
                        ) =~= kept + rebucketed(contracts_before, due@.take(i as int), ep2).push(
                            (ep2, id),
                        ));
                    }
                }
                match r {
                    Some(bill) => {
                        events.push(Event::ContractBilled(bill));
                    },
                    None => {},
                }
                proof {
                    // The event list tracks exactly the billable due
                    // contracts, in order.
                    assert(due@.take(i as int + 1).drop_last() =~= due@.take(i as int));
                    assert(due@.take(i as int + 1).last() == id);
                    if billable(*old(self), id) {
                        assert(r is Some);
                        assert(billed_ids(*old(self), due@.take(i as int + 1)) == billed_ids(
                            *old(self),
                            due@.take(i as int),
                        ).push(id));
                    } else {
                        assert(r is None);
                        assert(billed_ids(*old(self), due@.take(i as int + 1)) == billed_ids(
                            *old(self),
                            due@.take(i as int),
                        ));
                    }
                }
            }
            i = i + 1;
        }
        proof {
            assert(due@.take(due@.len() as int) =~= due@);
        }
        events
    }
}

/// Index of the first twin bound to this account, or `-1` when none is.
pub open spec fn twin_for_account(twins: Seq<Twin>, account: u64) -> int
    decreases twins.len(),
{
    if twins.len() == 0 {
        -1
    } else if twins.first().account_id == account {
        0
    } else {
        let r = twin_for_account(twins.drop_first(), account);
        if r == -1 {
            -1
        } else {
            r + 1
        }
    }
}

/// `twin_for_account` finds the first match, if any.
pub proof fn lemma_twin_for_account(twins: Seq<Twin>, account: u64)
    ensures
        twin_for_account(twins, account) == -1 ==> forall|i: int|
            0 <= i < twins.len() ==> (#[trigger] twins[i]).account_id != account,
        twin_for_account(twins, account) != -1 ==> {
            let t = twin_for_account(twins, account);
            &&& 0 <= t < twins.len()
            &&& twins[t].account_id == account
            &&& forall|i: int| 0 <= i < t ==> (#[trigger] twins[i]).account_id != account
        },
    decreases twins.len(),
{
    if twins.len() > 0 && twins.first().account_id != account {
        lemma_twin_for_account(twins.drop_first(), account);
        assert(forall|i: int|
            1 <= i < twins.len() ==> #[trigger] twins[i] == twins.drop_first()[i - 1]);
    }
}

/// Whether some twin is bound to this account.
pub open spec fn twin_exists_for(twins: Seq<Twin>, account: u64) -> bool {
    twin_for_account(twins, account) != -1
}

/// A name is DNS-safe when it holds only `-`, `_`, digits and ASCII
/// letters.
pub open spec fn valid_name_char(c: u8) -> bool {
    c == 45 || c == 95 || (48 <= c <= 57) || (65 <= c <= 90) || (97 <= c <= 122)
}

/// Whether every character of a name is DNS-safe.
pub open spec fn valid_name(s: Seq<u8>) -> bool {
    forall|i: int| 0 <= i < s.len() ==> valid_name_char(#[trigger] s[i])
}

/// What a freshly created name contract looks like.
pub open spec fn name_contract_matches(c: Contract, id: u64, twin_id: u32, name: Seq<u8>) -> bool {
    &&& c.contract_id == id
    &&& c.twin_id == twin_id
    &&& c.version == CONTRACT_VERSION
    &&& c.state == ContractState::Created
    &&& match c.contract_type {
        ContractData::NodeContract(_) => false,
        ContractData::NameContract(nc) => nc.name@ == name,
    }
}

/// What a freshly created node contract looks like.
pub open spec fn node_contract_matches(
    c: Contract,
    id: u64,
    twin_id: u32,
    node_id: u32,
    data: Seq<u8>,
    hash: Seq<u8>,
    public_ips: u32,
) -> bool {
    &&& c.contract_id == id
    &&& c.twin_id == twin_id
    &&& c.version == CONTRACT_VERSION
    &&& c.state == ContractState::Created
    &&& match c.contract_type {
        ContractData::NodeContract(nc) => nc.node_id == node_id && nc.deployment_data@ == data
            && nc.deployment_hash@ == hash && nc.public_ips == public_ips
            && nc.public_ips_list@.len() == public_ips,
        ContractData::NameContract(_) => false,
    }
}

/// Appending a fresh live contract together with its schedule entry keeps
/// the schedule exact: the new id was in no bucket before, and every old
/// entry survives.
proof fn lemma_register_contract(
    contracts: Seq<Contract>,
    sched: Seq<(u64, u64)>,
    current_epoch: u64,
    c: Contract,
    epoch: u64,
)
    requires
        schedule_ok(sched, contracts, current_epoch),
        forall|i: int| 0 <= i < contracts.len() ==> (#[trigger] contracts[i]).contract_id == i + 1,
        c.contract_id == contracts.len() + 1,
        c.state == ContractState::Created,
        epoch > current_epoch,
    ensures
        schedule_ok(sched.push((epoch, c.contract_id)), contracts.push(c), current_epoch),
{
    let nc = contracts.push(c);
    let ns = sched.push((epoch, c.contract_id));
    schedule::lemma_has_id_push(sched, (epoch, c.contract_id));
    assert forall|k: int|
        0 <= k < ns.len() implies (#[trigger] ns[k]).0 > current_epoch && is_created_in(
        nc,
        ns[k].1,
    ) by {
        if k < sched.len() {
            assert(ns[k] == sched[k]);
            assert(is_created_in(contracts, sched[k].1));
            assert(nc[sched[k].1 - 1] == contracts[sched[k].1 - 1]);
        } else {
            assert(ns[k] == (epoch, c.contract_id));
            assert(nc[c.contract_id - 1] == c);
        }
    }
    assert forall|k1: int, k2: int|
        0 <= k1 < k2 < ns.len() implies (#[trigger] ns[k1]).1 != (#[trigger] ns[k2]).1 by {
        if k2 < sched.len() {
            assert(ns[k1] == sched[k1] && ns[k2] == sched[k2]);
        } else {
            assert(ns[k1] == sched[k1]);
            assert(is_created_in(contracts, sched[k1].1));
            assert(ns[k2].1 == c.contract_id);
        }
    }
    assert forall|i: int|
        0 <= i < nc.len() && (#[trigger] nc[i]).state == ContractState::Created implies schedule::has_id(
        ns,
        nc[i].contract_id,
    ) by {
        if i < contracts.len() {
            assert(nc[i] == contracts[i]);
            assert(schedule::has_id(sched, contracts[i].contract_id));
        } else {
            assert(nc[i] == c);
            assert(ns[sched.len() as int].1 == c.contract_id);
        }
    }
}

/// A contract appended to the registry disturbs no existing lease.
proof fn lemma_append_keeps_leases(
    farms: Seq<Farm>,
    contracts: Seq<Contract>,
    nodes: Seq<Node>,
    c: Contract,
)
    requires
        leases_ok(farms, contracts, nodes),
        forall|i: int| 0 <= i < contracts.len() ==> (#[trigger] contracts[i]).contract_id == i + 1,
    ensures
        leases_ok(farms, contracts.push(c), nodes),
{
    let nc = contracts.push(c);
    assert forall|fi: int, k: int|
        0 <= fi < farms.len() && 0 <= k < farms[fi].public_ips@.len() && (#[trigger] farms[fi]
            .public_ips@[k]).contract_id != 0 implies lease_backed(
        nc,
        nodes,
        farms[fi].public_ips@[k].contract_id,
        farms[fi].id,
    ) by {
        let cid = farms[fi].public_ips@[k].contract_id;
        assert(lease_backed(contracts, nodes, cid, farms[fi].id));
        assert(nc[cid - 1] == contracts[cid - 1]);
    }
}

/// Whether every character of a name is DNS-safe, checked at run time.
fn check_name(name: &Vec<u8>) -> (r: bool)
    ensures
        r == valid_name(name@),
{
    let mut i: usize = 0;
    while i < name.len()
        invariant
            0 <= i <= name@.len(),
            forall|j: int| 0 <= j < i ==> valid_name_char(#[trigger] name@[j]),
        decreases name@.len() - i,
    {
        let c = name[i];
        let ok = c == 45 || c == 95 || (c >= 48 && c <= 57) || (c >= 65 && c <= 90) || (c >= 97
            && c <= 122);
        if !ok {
            return false;
        }
        i = i + 1;
    }
    true
}

/// Whether some live node contract other than `except` holds the key
/// `(node_id, hash)`.
pub open spec fn has_live_node_key_except(
    contracts: Seq<Contract>,
    node_id: u32,
    hash: Seq<u8>,
    except: u64,
) -> bool {
    exists|i: int|
        0 <= i < contracts.len() && i != except - 1 && contract_matches_node_key(
            #[trigger] contracts[i],
            node_id,
            hash,
        )
}

/// How an updated node contract relates to the record it replaces: only
/// the deployment body and hash change.
pub open spec fn node_payload_updated(c0: Contract, c1: Contract, data: Seq<u8>, hash: Seq<u8>) -> bool {
    &&& c1.contract_id == c0.contract_id
    &&& c1.twin_id == c0.twin_id
    &&& c1.version == c0.version
    &&& c1.state == c0.state
    &&& match (c0.contract_type, c1.contract_type) {
        (ContractData::NodeContract(a), ContractData::NodeContract(b)) => {
            &&& b.node_id == a.node_id
            &&& b.public_ips == a.public_ips
            &&& b.public_ips_list == a.public_ips_list
            &&& b.deployment_data@ == data
            &&& b.deployment_hash@ == hash
        },
        _ => false,
    }
}

/// Index of the first node run by this twin, or `-1` when it has none.
pub open spec fn node_for_twin(nodes: Seq<Node>, twin_id: u32) -> int
    decreases nodes.len(),
{
    if nodes.len() == 0 {
        -1
    } else if nodes.first().twin_id == twin_id {
        0
    } else {
        let r = node_for_twin(nodes.drop_first(), twin_id);
        if r == -1 {
            -1
        } else {
            r + 1
        }
    }
}

/// `node_for_twin` finds the first match, if any.
pub proof fn lemma_node_for_twin(nodes: Seq<Node>, twin_id: u32)
    ensures
        node_for_twin(nodes, twin_id) == -1 ==> forall|i: int|
            0 <= i < nodes.len() ==> (#[trigger] nodes[i]).twin_id != twin_id,
        node_for_twin(nodes, twin_id) != -1 ==> {
            let t = node_for_twin(nodes, twin_id);
            &&& 0 <= t < nodes.len()
            &&& nodes[t].twin_id == twin_id
            &&& forall|i: int| 0 <= i < t ==> (#[trigger] nodes[i]).twin_id != twin_id
        },
    decreases nodes.len(),
{
    if nodes.len() > 0 && nodes.first().twin_id != twin_id {
        lemma_node_for_twin(nodes.drop_first(), twin_id);
        assert(forall|i: int|
            1 <= i < nodes.len() ==> #[trigger] nodes[i] == nodes.drop_first()[i - 1]);
    }
}

/// Whether one consumption report addresses an existing node contract
/// deployed on the given node.
pub open spec fn report_valid(contracts: Seq<Contract>, r: Consumption, node_id: u32) -> bool {
    &&& 1 <= r.contract_id <= contracts.len()
    &&& contracts[r.contract_id - 1].contract_type is NodeContract
    &&& contracts[r.contract_id - 1].spec_node_id() == node_id
}

/// Index of the first report of a batch that fails validation, or `-1`
/// when the whole batch is valid.
pub open spec fn first_invalid_report(
    contracts: Seq<Contract>,
    reports: Seq<Consumption>,
    node_id: u32,
) -> int
    decreases reports.len(),
{
    if reports.len() == 0 {
        -1
    } else if !report_valid(contracts, reports.first(), node_id) {
        0
    } else {
        let r = first_invalid_report(contracts, reports.drop_first(), node_id);
        if r == -1 {
            -1
        } else {
            r + 1
        }
    }
}

/// `first_invalid_report` finds the first invalid report, if any.
pub proof fn lemma_first_invalid(contracts: Seq<Contract>, reports: Seq<Consumption>, node_id: u32)
    ensures
        first_invalid_report(contracts, reports, node_id) == -1 ==> forall|j: int|
            0 <= j < reports.len() ==> report_valid(contracts, #[trigger] reports[j], node_id),
        first_invalid_report(contracts, reports, node_id) != -1 ==> {
            let bad = first_invalid_report(contracts, reports, node_id);
            &&& 0 <= bad < reports.len()
            &&& !report_valid(contracts, reports[bad], node_id)
            &&& forall|m: int|
                0 <= m < bad ==> report_valid(contracts, #[trigger] reports[m], node_id)
        },
    decreases reports.len(),
{
    if reports.len() > 0 && report_valid(contracts, reports.first(), node_id) {
        lemma_first_invalid(contracts, reports.drop_first(), node_id);
        assert(forall|j: int|
            1 <= j < reports.len() ==> #[trigger] reports[j] == reports.drop_first()[j - 1]);
    }
}

/// When every report before `v` is valid and report `v` is not, `v` is
/// the first invalid report of the batch.
proof fn lemma_report_is_first_invalid(
    contracts: Seq<Contract>,
    reports: Seq<Consumption>,
    node_id: u32,
    v: int,
)
    requires
        0 <= v < reports.len(),
        !report_valid(contracts, reports[v], node_id),
        forall|m: int| 0 <= m < v ==> report_valid(contracts, #[trigger] reports[m], node_id),
    ensures
        first_invalid_report(contracts, reports, node_id) == v,
{
    lemma_first_invalid(contracts, reports, node_id);
    let bad = first_invalid_report(contracts, reports, node_id);
    if bad == -1 {
        assert(report_valid(contracts, reports[v], node_id));
    } else if bad < v {
        assert(report_valid(contracts, reports[bad], node_id));
    } else if bad > v {
        assert(report_valid(contracts, reports[v], node_id));
    }
}

/// Scheduler completeness law: in a well-formed engine, every contract in
/// the `Created` state appears in exactly one billing bucket, and that
/// bucket lies in the future.
pub proof fn lemma_scheduler_completeness(e: Engine, i: int)
    requires
        e.wf(),
        0 <= i < e.contracts@.len(),
        e.contracts@[i].state == ContractState::Created,
    ensures
        exists|k: int|
            0 <= k < e.schedule@.len() && (#[trigger] e.schedule@[k]).1 == e.contracts@[i].contract_id,
        forall|k1: int, k2: int|
            0 <= k1 < e.schedule@.len() && 0 <= k2 < e.schedule@.len() && (#[trigger] e.schedule@[k1]).1
                == e.contracts@[i].contract_id && (#[trigger] e.schedule@[k2]).1
                == e.contracts@[i].contract_id ==> k1 == k2,
        forall|k: int|
            0 <= k < e.schedule@.len() && (#[trigger] e.schedule@[k]).1 == e.contracts@[i].contract_id
                ==> e.schedule@[k].0 > e.current_epoch,
{
    assert(schedule::has_id(e.schedule@, e.contracts@[i].contract_id));
}

/// Decommission-releases-resources law: in a well-formed engine a contract
/// in a terminal state (`Deleted` or `OutOfFunds`) holds no public IP
/// lease in any farm and is absent from every billing bucket.
pub proof fn lemma_terminal_contract_holds_nothing(e: Engine, i: int)
    requires
        e.wf(),
        0 <= i < e.contracts@.len(),
        e.contracts@[i].state != ContractState::Created,
    ensures
        forall|fi: int, k: int|
            0 <= fi < e.farms@.len() && 0 <= k < e.farms@[fi].public_ips@.len()
                ==> (#[trigger] e.farms@[fi].public_ips@[k]).contract_id
                != e.contracts@[i].contract_id,
        !schedule::has_id(e.schedule@, e.contracts@[i].contract_id),
{
    let id = e.contracts@[i].contract_id;
    assert(id == i + 1);
    assert forall|fi: int, k: int|
        0 <= fi < e.farms@.len() && 0 <= k < e.farms@[fi].public_ips@.len() implies (
    #[trigger] e.farms@[fi].public_ips@[k]).contract_id != id by {
        if e.farms@[fi].public_ips@[k].contract_id == id {
            assert(lease_backed(e.contracts@, e.nodes@, id, e.farms@[fi].id));
            assert(is_created_in(e.contracts@, id));
        }
    }
    if schedule::has_id(e.schedule@, id) {
        let k = choose|k: int| 0 <= k < e.schedule@.len() && (#[trigger] e.schedule@[k]).1 == id;
        assert(is_created_in(e.contracts@, id));
    }
}

/// Raw amount one billing pass charges a node contract: its accrued
/// consumption cost plus one hour of public-IP usage at the farm's rate.
pub open spec fn bill_total(e: Engine, contract_id: u64) -> int
    recommends
        1 <= contract_id <= e.contracts@.len(),
{
    match e.contracts@[contract_id - 1].contract_type {
        ContractData::NodeContract(nc) => {
            let farm = e.farms@[e.nodes@[nc.node_id - 1].farm_id - 1];
            e.billing@[contract_id - 1].amount_unbilled + nc.public_ips * e.pricing_policies@[
                farm.pricing_policy_id - 1].ipu.value * 3600
        },
        ContractData::NameContract(_) => e.billing@[contract_id - 1].amount_unbilled as int,
    }
}

/// Whether a billing pass of this contract collects a payment: the
/// contract is a node contract whose directory rows (node, farm, pricing
/// policy, both twins) exist and whose cycle cost is not zero. Name
/// contracts accrue nothing and are only rescheduled.
pub open spec fn billable(e: Engine, contract_id: u64) -> bool {
    &&& 1 <= contract_id <= e.contracts@.len()
    &&& match e.contracts@[contract_id - 1].contract_type {
        ContractData::NodeContract(nc) => {
            let node_ok = 1 <= nc.node_id <= e.nodes@.len();
            let farm_ok = node_ok && 1 <= e.nodes@[nc.node_id - 1].farm_id <= e.farms@.len();
            let farm = e.farms@[e.nodes@[nc.node_id - 1].farm_id - 1];
            &&& farm_ok
            &&& 1 <= farm.pricing_policy_id <= e.pricing_policies@.len()
            &&& bill_total(e, contract_id) != 0
            &&& 1 <= e.contracts@[contract_id - 1].twin_id <= e.twins@.len()
            &&& 1 <= farm.twin_id <= e.twins@.len()
        },
        ContractData::NameContract(_) => false,
    }
}

/// What one billing pass does, stated over the state it starts from.
///
/// A pass that cannot bill (name contract, missing directory row, or zero
/// cost) changes nothing and reschedules the contract one cycle ahead.
/// A billing pass charges the cycle total, reduced by the discount tier
/// of the payer's balance (certified capacity 25% dearer), capped at the
/// balance; the payment is split into the foundation, farmer and
/// certified-sales shares and transferred in that order. If the raw total
/// exceeded the balance the contract is decommissioned — its leases are
/// released and it is not rescheduled — otherwise its unbilled amount is
/// reset and it is rescheduled one cycle ahead.
pub open spec fn bill_pass_post(
    e0: Engine,
    e1: Engine,
    contract_id: u64,
    r: Option<ContractBill>,
) -> bool
    recommends
        1 <= contract_id <= e0.contracts@.len(),
{
    let c = e0.contracts@[contract_id - 1];
    let rescheduled = e0.schedule@.push(
        ((e0.current_epoch + BILLING_FREQUENCY_IN_BLOCKS) as u64, contract_id),
    );
    if !billable(e0, contract_id) {
        &&& r is None
        &&& e1.contracts == e0.contracts
        &&& e1.billing == e0.billing
        &&& e1.farms == e0.farms
        &&& e1.balances == e0.balances
        &&& e1.schedule@ == rescheduled
    } else {
        match c.contract_type {
            ContractData::NodeContract(nc) => {
                let farm = e0.farms@[e0.nodes@[nc.node_id - 1].farm_id - 1];
                let policy = e0.pricing_policies@[farm.pricing_policy_id - 1];
                let payer = e0.twins@[c.twin_id - 1].account_id;
                let farmer_account = e0.twins@[farm.twin_id - 1].account_id;
                let total = bill_total(e0, contract_id) as u128;
                let balance = ledger::spec_balance_of(e0.balances@, payer);
                let tier = billing::spec_discount_level(total, balance);
                let due = billing::spec_discounted_amount(total, tier, farm.certification_type);
                let pay = (if due >= balance {
                    balance as int
                } else {
                    due
                }) as u128;
                let self_hosted = c.twin_id == farm.twin_id;
                let b1 = ledger::spec_apply_transfer(
                    e0.balances@,
                    payer,
                    policy.foundation_account,
                    billing::spec_foundation_share(pay) as u128,
                );
                let b2 = ledger::spec_apply_transfer(
                    b1,
                    payer,
                    farmer_account,
                    billing::spec_farmer_share(pay, self_hosted) as u128,
                );
                let b3 = ledger::spec_apply_transfer(
                    b2,
                    payer,
                    policy.certified_sales_account,
                    billing::spec_sales_share(pay, self_hosted) as u128,
                );
                &&& r == Some(
                    ContractBill {
                        contract_id,
                        timestamp: e0.now_seconds,
                        discount_level: tier,
                        amount_billed: pay,
                    },
                )
                &&& e1.balances@ == b3
                &&& (total > balance ==> {
                    &&& e1.contracts@[contract_id - 1].state == ContractState::OutOfFunds
                    &&& e1.billing == e0.billing
                    &&& e1.schedule == e0.schedule
                    &&& forall|fi: int, k: int|
                        0 <= fi < e1.farms@.len() && 0 <= k < e1.farms@[fi].public_ips@.len()
                            ==> (#[trigger] e1.farms@[fi].public_ips@[k]).contract_id
                            != contract_id
                    &&& e1.farms@.len() == e0.farms@.len()
                    &&& forall|fi: int|
                        0 <= fi < e0.farms@.len() ==> (#[trigger] e1.farms@[fi]) == e0.farms@[fi]
                            || ({
                            &&& e1.farms@[fi].id == e0.farms@[fi].id
                            &&& e1.farms@[fi].name == e0.farms@[fi].name
                            &&& e1.farms@[fi].twin_id == e0.farms@[fi].twin_id
                            &&& e1.farms@[fi].pricing_policy_id == e0.farms@[fi].pricing_policy_id
                            &&& e1.farms@[fi].certification_type
                                == e0.farms@[fi].certification_type
                            &&& e1.farms@[fi].public_ips@ == pool::release_result(
                                e0.farms@[fi].public_ips@,
                                contract_id,
                            )
                        })
                })
                &&& (total <= balance ==> {
                    &&& e1.contracts == e0.contracts
                    &&& e1.billing@ == e0.billing@.update(
                        contract_id - 1,
                        ContractBillingInformation {
                            previous_nu_reported: e0.billing@[contract_id
                                - 1].previous_nu_reported,
                            last_updated: e0.billing@[contract_id - 1].last_updated,
                            amount_unbilled: 0,
                        },
                    )
                    &&& e1.farms == e0.farms
                    &&& e1.schedule@ == rescheduled
                })
            },
            ContractData::NameContract(_) => false,
        }
    }
}

/// The schedule entries a billing pass appends: one bucket entry per due
/// contract that is still live afterwards, in due order.
pub open spec fn rebucketed(contracts: Seq<Contract>, due: Seq<u64>, epoch: u64) -> Seq<(u64, u64)>
    decreases due.len(),
{
    if due.len() == 0 {
        Seq::empty()
    } else {
        let rest = rebucketed(contracts, due.drop_last(), epoch);
        if is_created_in(contracts, due.last()) {
            rest.push((epoch, due.last()))
        } else {
            rest
        }
    }
}

/// The due contracts a billing pass collects a payment for, in due order.
pub open spec fn billed_ids(e: Engine, due: Seq<u64>) -> Seq<u64>
    decreases due.len(),
{
    if due.len() == 0 {
        Seq::empty()
    } else {
        let rest = billed_ids(e, due.drop_last());
        if billable(e, due.last()) {
            rest.push(due.last())
        } else {
            rest
        }
    }
}

/// Rebucketing reads only the liveness of the due contracts.
proof fn lemma_rebucketed_agree(cs1: Seq<Contract>, cs2: Seq<Contract>, due: Seq<u64>, epoch: u64)
    requires
        forall|j: int|
            0 <= j < due.len() ==> is_created_in(cs1, #[trigger] due[j]) == is_created_in(
                cs2,
                due[j],
            ),
    ensures
        rebucketed(cs1, due, epoch) == rebucketed(cs2, due, epoch),
    decreases due.len(),
{
    if due.len() > 0 {
        assert(forall|j: int|
            0 <= j < due.len() - 1 ==> #[trigger] due.drop_last()[j] == due[j]);
        lemma_rebucketed_agree(cs1, cs2, due.drop_last(), epoch);
        assert(due[due.len() - 1] == due.last());
    }
}

/// Whether a contract can be billed, and for how much, depends only on
/// state a pass of other contracts never touches.
proof fn lemma_billable_stable(e0: Engine, e1: Engine, id: u64)
    requires
        1 <= id <= e0.contracts@.len(),
        e1.contracts@.len() == e0.contracts@.len(),
        e1.contracts@[id - 1] == e0.contracts@[id - 1],
        e1.billing@.len() == e0.billing@.len(),
        e0.billing@.len() == e0.contracts@.len(),
        e1.billing@[id - 1] == e0.billing@[id - 1],
        e1.nodes == e0.nodes,
        e1.pricing_policies == e0.pricing_policies,
        e1.twins == e0.twins,
        e1.farms@.len() == e0.farms@.len(),
        forall|fi: int|
            0 <= fi < e0.farms@.len() ==> (#[trigger] e1.farms@[fi]).twin_id
                == e0.farms@[fi].twin_id && e1.farms@[fi].pricing_policy_id
                == e0.farms@[fi].pricing_policy_id,
    ensures
        billable(e1, id) == billable(e0, id),
{
    match e0.contracts@[id - 1].contract_type {
        ContractData::NodeContract(nc) => {
            if 1 <= nc.node_id <= e0.nodes@.len() {
                let fid = e0.nodes@[nc.node_id - 1].farm_id;
                if 1 <= fid <= e0.farms@.len() {
                    assert(e1.farms@[fid - 1].pricing_policy_id == e0.farms@[fid
                        - 1].pricing_policy_id);
                    assert(e1.farms@[fid - 1].twin_id == e0.farms@[fid - 1].twin_id);
                    assert(bill_total(e1, id) == bill_total(e0, id));
                }
            }
        },
        ContractData::NameContract(_) => {},
    }
}

/// One billing step keeps the drained bucket's bookkeeping exact: the
/// remaining due contracts stay live and unscheduled, and every live
/// contract is either scheduled or still waiting in the bucket.
proof fn lemma_bill_step(
    contracts0: Seq<Contract>,
    contracts1: Seq<Contract>,
    sched0: Seq<(u64, u64)>,
    sched1: Seq<(u64, u64)>,
    due: Seq<u64>,
    i: int,
    id: u64,
)
    requires
        0 <= i < due.len(),
        due[i] == id,
        contracts1.len() == contracts0.len(),
        forall|idx: int|
            0 <= idx < contracts0.len() ==> (#[trigger] contracts0[idx]).contract_id == idx + 1,
        forall|idx: int|
            0 <= idx < contracts1.len() ==> (#[trigger] contracts1[idx]).contract_id == idx + 1,
        forall|idx: int|
            0 <= idx < contracts0.len() && idx != id - 1 ==> (#[trigger] contracts1[idx])
                == contracts0[idx],
        forall|id2: u64|
            schedule::has_id(sched0, id2) ==> #[trigger] schedule::has_id(sched1, id2),
        forall|id2: u64|
            #[trigger] schedule::has_id(sched1, id2) ==> schedule::has_id(sched0, id2) || id2
                == id,
        1 <= id <= contracts1.len(),
        contracts1[id - 1].state == ContractState::Created ==> schedule::has_id(sched1, id),
        forall|j: int|
            i <= j < due.len() ==> 1 <= (#[trigger] due[j]) <= contracts0.len() && contracts0[due[j]
                - 1].state == ContractState::Created && !schedule::has_id(sched0, due[j]),
        forall|j1: int, j2: int|
            i <= j1 < j2 < due.len() ==> (#[trigger] due[j1]) != (#[trigger] due[j2]),
        forall|ii: int|
            0 <= ii < contracts0.len() && (#[trigger] contracts0[ii]).state
                == ContractState::Created ==> schedule::has_id(sched0, contracts0[ii].contract_id)
                || exists|j: int| i <= j < due.len() && due[j] == contracts0[ii].contract_id,
    ensures
        forall|j: int|
            i + 1 <= j < due.len() ==> 1 <= (#[trigger] due[j]) <= contracts1.len()
                && contracts1[due[j] - 1].state == ContractState::Created && !schedule::has_id(
                sched1,
                due[j],
            ),
        forall|ii: int|
            0 <= ii < contracts1.len() && (#[trigger] contracts1[ii]).state
                == ContractState::Created ==> schedule::has_id(sched1, contracts1[ii].contract_id)
                || exists|j: int| i + 1 <= j < due.len() && due[j] == contracts1[ii].contract_id,
{
    assert forall|j: int|
        i + 1 <= j < due.len() implies 1 <= (#[trigger] due[j]) <= contracts1.len()
        && contracts1[due[j] - 1].state == ContractState::Created && !schedule::has_id(
        sched1,
        due[j],
    ) by {
        assert(due[j] != due[i]);
        assert(contracts1[due[j] - 1] == contracts0[due[j] - 1]);
        if schedule::has_id(sched1, due[j]) {
            assert(schedule::has_id(sched0, due[j]) || due[j] == id);
        }
    }
    assert forall|ii: int|
        0 <= ii < contracts1.len() && (#[trigger] contracts1[ii]).state == ContractState::Created
        implies schedule::has_id(sched1, contracts1[ii].contract_id) || exists|j: int|
        i + 1 <= j < due.len() && due[j] == contracts1[ii].contract_id by {
        if ii == id - 1 {
            assert(schedule::has_id(sched1, id));
        } else {
            assert(contracts1[ii] == contracts0[ii]);
            if schedule::has_id(sched0, contracts0[ii].contract_id) {
                assert(schedule::has_id(sched1, contracts1[ii].contract_id));
            } else {
                let j = choose|j: int| i <= j < due.len() && due[j] == contracts0[ii].contract_id;
                assert(contracts0[ii].contract_id == ii + 1);
                assert(due[j] != id);
                assert(j != i);
            }
        }
    }
}

/// Whether a contract is a live node contract carrying this key.
fn matches_node_key(c: &Contract, node_id: u32, hash: &Vec<u8>) -> (r: bool)
    ensures
        r == contract_matches_node_key(*c, node_id, hash@),
{
    match &c.contract_type {
        ContractData::NodeContract(nc) => {
            matches!(c.state, ContractState::Created) && nc.node_id == node_id && bytes_equal(
                &nc.deployment_hash,
                hash,
            )
        },
        ContractData::NameContract(_) => false,
    }
}

/// Whether a contract is a live name contract carrying this name.
fn matches_name(c: &Contract, name: &Vec<u8>) -> (r: bool)
    ensures
        r == contract_matches_name(*c, name@),
{
    match &c.contract_type {
        ContractData::NodeContract(_) => false,
        ContractData::NameContract(nc) => {
            matches!(c.state, ContractState::Created) && bytes_equal(&nc.name, name)
        },
    }
}

/// Byte-string equality.
pub fn bytes_equal(a: &Vec<u8>, b: &Vec<u8>) -> (r: bool)
    ensures
        r == (a@ == b@),
{
    if a.len() != b.len() {
        return false;
    }
    let mut i: usize = 0;
    while i < a.len()
        invariant
            a@.len() == b@.len(),
            0 <= i <= a@.len(),
            forall|j: int| 0 <= j < i ==> a@[j] == b@[j],
        decreases a@.len() - i,
    {
        if a[i] != b[i] {
            return false;
        }
        i = i + 1;
    }
    proof {
        assert(a@ =~= b@);
    }
    true
}

/// Structural equality of contract states.
fn state_eq(a: &ContractState, b: &ContractState) -> (r: bool)
    ensures
        r == (a == b),
{
    match (a, b) {
        (ContractState::Created, ContractState::Created) => true,
        (ContractState::Deleted, ContractState::Deleted) => true,
        (ContractState::OutOfFunds, ContractState::OutOfFunds) => true,
        _ => false,
    }
}

} // verus!
