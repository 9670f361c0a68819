//! The public-IP reservation pool.
//!
//! A farm's IP list is scanned in stable order; a reservation marks the
//! first free addresses with the contract's id, all or nothing, and a
//! release clears every mark of one contract. Reservation and release are
//! the only mutators of an address's `contract_id`.

use vstd::prelude::*;
use crate::contracts::Error;
use crate::types::{clone_bytes, PublicIP};

verus! {

/// The address `ip` with its lease mark replaced.
pub open spec fn with_lease(ip: PublicIP, contract_id: u64) -> PublicIP {
    PublicIP { ip: ip.ip, gateway: ip.gateway, contract_id: contract_id }
}

/// Number of free addresses among the first `n` of the list.
pub open spec fn free_count(s: Seq<PublicIP>, n: int) -> int
    decreases n,
{
    if n <= 0 {
        0
    } else {
        free_count(s, n - 1) + if s[n - 1].contract_id == 0 {
            1int
        } else {
            0int
        }
    }
}

/// Whether a reservation of `count` addresses takes the address at `i`:
/// it is free and fewer than `count` free addresses precede it.
pub open spec fn reserved_at(s: Seq<PublicIP>, count: int, i: int) -> bool {
    s[i].contract_id == 0 && free_count(s, i) < count
}

/// The farm's IP list after a successful reservation: the first `count`
/// free addresses are marked with the contract's id, all others are
/// untouched.
pub open spec fn reserve_result(s: Seq<PublicIP>, count: int, contract_id: u64) -> Seq<PublicIP> {
    Seq::new(
        s.len(),
        |i: int|
            if reserved_at(s, count, i) {
                with_lease(s[i], contract_id)
            } else {
                s[i]
            },
    )
}

/// The addresses a successful reservation hands to the contract: the
/// first `count` free slots of the list in stable order, each already
/// marked with the contract's id.
pub open spec fn reserved_list(s: Seq<PublicIP>, count: int, contract_id: u64) -> Seq<PublicIP>
    decreases s.len(),
{
    if s.len() == 0 {
        Seq::empty()
    } else {
        let rest = reserved_list(s.drop_last(), count, contract_id);
        if reserved_at(s, count, s.len() - 1) {
            rest.push(with_lease(s[s.len() - 1], contract_id))
        } else {
            rest
        }
    }
}

/// Whether two address records carry the same address, gateway and
/// lease mark; the handed-out copies of reserved addresses match the
/// farm's records in this sense.
pub open spec fn same_address(a: PublicIP, b: PublicIP) -> bool {
    &&& a.ip@ == b.ip@
    &&& a.gateway@ == b.gateway@
    &&& a.contract_id == b.contract_id
}

/// Counting free addresses looks only at the entries before `n`.
proof fn lemma_free_count_agree(s: Seq<PublicIP>, t: Seq<PublicIP>, n: int)
    requires
        0 <= n <= s.len(),
        n <= t.len(),
        forall|j: int| 0 <= j < n ==> s[j] == t[j],
    ensures
        free_count(s, n) == free_count(t, n),
    decreases n,
{
    if n > 0 {
        lemma_free_count_agree(s, t, n - 1);
    }
}

/// The farm's IP list after a release: every address leased to the
/// contract becomes free, all others are untouched.
pub open spec fn release_result(s: Seq<PublicIP>, contract_id: u64) -> Seq<PublicIP> {
    Seq::new(
        s.len(),
        |i: int|
            if s[i].contract_id == contract_id {
                with_lease(s[i], 0)
            } else {
                s[i]
            },
    )
}

/// The address strings a release clears, in stable order.
pub open spec fn freed_addresses(s: Seq<PublicIP>, contract_id: u64) -> Seq<Seq<u8>>
    decreases s.len(),
{
    if s.len() == 0 {
        Seq::empty()
    } else {
        let rest = freed_addresses(s.drop_last(), contract_id);
        if s.last().contract_id == contract_id {
            rest.push(s.last().ip@)
        } else {
            rest
        }
    }
}

/// Number of free addresses in the whole list.
pub fn count_free(ips: &Vec<PublicIP>) -> (r: usize)
    ensures
        r == free_count(ips@, ips@.len() as int),
{
    let mut free: usize = 0;
    let mut i: usize = 0;
    while i < ips.len()
        invariant
            0 <= i <= ips@.len(),
            free == free_count(ips@, i as int),
            free <= i,
        decreases ips@.len() - i,
    {
        if ips[i].contract_id == 0 {
            free = free + 1;
        }
        i = i + 1;
    }
    free
}

/// Reserves `count` public IPs for a contract, scanning the list in stable
/// order and marking the first free addresses.
///
/// Fails with no partial reservation committed when the farm has fewer
/// than `count` addresses, or fewer than `count` free ones.
pub fn reserve_ips(ips: &mut Vec<PublicIP>, count: u32, contract_id: u64) -> (r: Result<
    Vec<PublicIP>,
    Error,
>)
    requires
        contract_id != 0,
    ensures
        match r {
            Ok(list) => {
                &&& old(ips)@.len() >= count
                &&& free_count(old(ips)@, old(ips)@.len() as int) >= count
                &&& final(ips)@ == reserve_result(old(ips)@, count as int, contract_id)
                &&& list@.len() == reserved_list(old(ips)@, count as int, contract_id).len()
                &&& forall|j: int|
                    0 <= j < list@.len() ==> same_address(
                        #[trigger] list@[j],
                        reserved_list(old(ips)@, count as int, contract_id)[j],
                    )
                &&& list@.len() == count
                &&& forall|j: int|
                    0 <= j < list@.len() ==> #[trigger] list@[j].contract_id == contract_id
            },
            Err(e) => {
                &&& final(ips)@ == old(ips)@
                &&& (e == Error::FarmHasNotEnoughPublicIPs <==> old(ips)@.len() < count)
                &&& (e == Error::FarmHasNotEnoughPublicIPsFree <==> (old(ips)@.len() >= count
                    && free_count(old(ips)@, old(ips)@.len() as int) < count))
                &&& (e == Error::FarmHasNotEnoughPublicIPs || e
                    == Error::FarmHasNotEnoughPublicIPsFree)
            },
        },
{
    let ghost original = ips@;
    if ips.len() < count as usize {
        return Err(Error::FarmHasNotEnoughPublicIPs);
    }
    let mut free: usize = 0;
    let mut i: usize = 0;
    while i < ips.len()
        invariant
            ips@ == original,
            0 <= i <= original.len(),
            free == free_count(original, i as int),
            free <= i,
        decreases original.len() - i,
    {
        if ips[i].contract_id == 0 {
            free = free + 1;
        }
        i = i + 1;
    }
    if free < count as usize {
        return Err(Error::FarmHasNotEnoughPublicIPsFree);
    }

    let mut list: Vec<PublicIP> = Vec::new();
    let mut i: usize = 0;
    while i < ips.len()
        invariant
            contract_id != 0,
            ips@.len() == original.len(),
            0 <= i <= original.len(),
            forall|j: int| i <= j < original.len() ==> ips@[j] == original[j],
            forall|j: int|
                0 <= j < i ==> ips@[j] == (if reserved_at(original, count as int, j) {
                    with_lease(original[j], contract_id)
                } else {
                    original[j]
                }),
            list@.len() == (if free_count(original, i as int) < count as int {
                free_count(original, i as int)
            } else {
                count as int
            }),
            list@.len() == reserved_list(original.take(i as int), count as int, contract_id).len(),
            forall|j: int|
                0 <= j < list@.len() ==> same_address(
                    #[trigger] list@[j],
                    reserved_list(original.take(i as int), count as int, contract_id)[j],
                ),
            forall|j: int| 0 <= j < list@.len() ==> #[trigger] list@[j].contract_id == contract_id,
        decreases original.len() - i,
    {
        proof {
            let t = original.take(i as int + 1);
            assert(t.drop_last() =~= original.take(i as int));
            assert(t[i as int] == original[i as int]);
            lemma_free_count_agree(t, original, i as int);
        }
        if list.len() < count as usize && ips[i].contract_id == 0 {
            ips[i].contract_id = contract_id;
            let entry = PublicIP {
                ip: clone_bytes(&ips[i].ip),
                gateway: clone_bytes(&ips[i].gateway),
                contract_id,
            };
            list.push(entry);
        }
        i = i + 1;
    }
    proof {
        assert(free_count(original, original.len() as int) >= count as int);
        assert(ips@ =~= reserve_result(original, count as int, contract_id));
        assert(original.take(original.len() as int) =~= original);
    }
    Ok(list)
}

/// Releases every public IP leased to a contract, leaving all other
/// addresses untouched; a contract that holds none is a no-op. Returns
/// the cleared address strings, in stable order.
pub fn free_ips(ips: &mut Vec<PublicIP>, contract_id: u64) -> (freed: Vec<Vec<u8>>)
    requires
        contract_id != 0,
    ensures
        final(ips)@ == release_result(old(ips)@, contract_id),
        freed@.len() == freed_addresses(old(ips)@, contract_id).len(),
        forall|j: int|
            0 <= j < freed@.len() ==> (#[trigger] freed@[j])@ == freed_addresses(
                old(ips)@,
                contract_id,
            )[j],
{
    let ghost original = ips@;
    let mut freed: Vec<Vec<u8>> = Vec::new();
    let mut i: usize = 0;
    while i < ips.len()
        invariant
            contract_id != 0,
            ips@.len() == original.len(),
            0 <= i <= original.len(),
            forall|j: int| i <= j < original.len() ==> ips@[j] == original[j],
            forall|j: int|
                0 <= j < i ==> ips@[j] == (if original[j].contract_id == contract_id {
                    with_lease(original[j], 0)
                } else {
                    original[j]
                }),
            freed@.len() == freed_addresses(original.take(i as int), contract_id).len(),
            forall|j: int|
                0 <= j < freed@.len() ==> (#[trigger] freed@[j])@ == freed_addresses(
                    original.take(i as int),
                    contract_id,
                )[j],
        decreases original.len() - i,
    {
        proof {
            assert(original.take(i as int + 1).drop_last() =~= original.take(i as int));
            assert(original.take(i as int + 1).last() == original[i as int]);
        }
        if ips[i].contract_id == contract_id {
            freed.push(clone_bytes(&ips[i].ip));
            ips[i].contract_id = 0;
        }
        i = i + 1;
    }
    proof {
        assert(ips@ =~= release_result(original, contract_id));
        assert(original.take(original.len() as int) =~= original);
    }
    freed
}

/// Pool round-trip law: reserving addresses for a contract that holds no
/// lease yet and then releasing that contract restores the farm's IP list
/// exactly, free set included.
pub proof fn lemma_reserve_release_roundtrip(s: Seq<PublicIP>, count: int, contract_id: u64)
    requires
        contract_id != 0,
        forall|i: int| 0 <= i < s.len() ==> #[trigger] s[i].contract_id != contract_id,
    ensures
        release_result(reserve_result(s, count, contract_id), contract_id) == s,
{
    let r = reserve_result(s, count, contract_id);
    assert forall|i: int| 0 <= i < s.len() implies #[trigger] release_result(r, contract_id)[i]
        == s[i] by {
        if reserved_at(s, count, i) {
            assert(r[i] == with_lease(s[i], contract_id));
            assert(release_result(r, contract_id)[i] == with_lease(r[i], 0));
            assert(with_lease(r[i], 0) == s[i]);
        } else {
            assert(r[i] == s[i]);
        }
    }
    assert(release_result(r, contract_id) =~= s);
}

} // verus!
