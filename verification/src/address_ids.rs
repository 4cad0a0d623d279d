//! A registry that gives each address a numeric id: ids count up from 1 in order of
//! registration, 0 stands for "not registered".
use vstd::prelude::*;
use crate::types::{Address, AddressId};

verus! {

/// The id of `a` in `addresses` (position + 1), or 0 when absent.
pub open spec fn id_of(addresses: Seq<Address>, a: Address) -> AddressId {
    if addresses.contains(a) {
        (addresses.index_of(a) + 1) as AddressId
    } else {
        0
    }
}

/// The address registered under `id`, if any.
pub open spec fn address_of(addresses: Seq<Address>, id: AddressId) -> Option<Address> {
    if 1 <= id <= addresses.len() {
        Some(addresses[id - 1])
    } else {
        None
    }
}

/// The registry after `a` asks for an id: unchanged when `a` is known, else `a` is
/// appended; `None` when the next id would overflow.
pub open spec fn id_or_insert_result(addresses: Seq<Address>, a: Address) -> Option<(Seq<Address>, AddressId)> {
    if addresses.contains(a) {
        Some((addresses, id_of(addresses, a)))
    } else if addresses.len() >= u64::MAX {
        None
    } else {
        Some((addresses.push(a), (addresses.len() + 1) as AddressId))
    }
}

/// Addresses and their ids; no address occurs twice.
pub struct AddressToId {
    addresses: Vec<Address>,
}

impl AddressToId {
    pub closed spec fn view(&self) -> Seq<Address> {
        self.addresses@
    }

    pub open spec fn wf(&self) -> bool {
        &&& self@.no_duplicates()
        &&& self@.len() <= u64::MAX
    }

    pub fn new() -> (r: AddressToId)
        ensures
            r.wf(),
            r@ == Seq::<Address>::empty(),
    {
        AddressToId { addresses: Vec::new() }
    }

    /// Number of registered addresses.
    pub fn len(&self) -> (n: usize)
        ensures
            n == self@.len(),
    {
        self.addresses.len()
    }

    /// A copy with the same addresses.
    pub fn duplicate(&self) -> (r: AddressToId)
        ensures
            r@ == self@,
    {
        let mut addresses: Vec<Address> = Vec::new();
        let mut i: usize = 0;
        while i < self.addresses.len()
            invariant
                i <= self.addresses@.len(),
                addresses@ =~= self.addresses@.subrange(0, i as int),
            decreases self.addresses@.len() - i,
        {
            addresses.push(self.addresses[i]);
            i = i + 1;
        }
        assert(self.addresses@.subrange(0, self.addresses@.len() as int) =~= self.addresses@);
        AddressToId { addresses }
    }

    /// The id of `address`, 0 when it is not registered.
    pub fn get_id(&self, address: &Address) -> (id: AddressId)
        requires
            self.wf(),
        ensures
            id == id_of(self@, *address),
    {
        let mut i: usize = 0;
        while i < self.addresses.len()
            invariant
                self.wf(),
                i <= self.addresses@.len(),
                forall|j: int| 0 <= j < i ==> self.addresses@[j] != *address,
            decreases self.addresses@.len() - i,
        {
            if self.addresses[i].same(address) {
                proof {
                    assert(self@.contains(*address));
                    let k = self@.index_of(*address);
                    assert(self@[k] == *address);
                    assert(k == i);
                }
                return (i + 1) as AddressId;
            }
            i = i + 1;
        }
        proof {
            if self@.contains(*address) {
                let k = self@.index_of(*address);
                assert(self@[k] == *address);
            }
        }
        0
    }

    /// The address registered under `id`, if any.
    pub fn get_address(&self, id: AddressId) -> (a: Option<Address>)
        ensures
            a == address_of(self@, id),
    {
        if id >= 1 && id <= self.addresses.len() as u64 {
            Some(self.addresses[(id - 1) as usize])
        } else {
            None
        }
    }

    /// The id of `address`, registering it first when it is new. `None`, changing
    /// nothing, when the next id would overflow.
    pub fn get_id_or_insert(&mut self, address: &Address) -> (r: Option<AddressId>)
        requires
            old(self).wf(),
        ensures
            final(self).wf(),
            match id_or_insert_result(old(self)@, *address) {
                Some((s, id)) => r == Some(id) && final(self)@ == s,
                None => r is None && final(self)@ == old(self)@,
            },
    {
        let id = self.get_id(address);
        if id != 0 {
            return Some(id);
        }
        if self.addresses.len() as u64 == u64::MAX {
            return None;
        }
        let ghost old_s = self@;
        self.addresses.push(*address);
        proof {
            assert forall|i: int, j: int| 0 <= i < j < self@.len() implies self@[i] != self@[j] by {
                if j == old_s.len() {
                    assert(!old_s.contains(*address));
                    assert(old_s[i] == self@[i]);
                }
            }
        }
        Some(self.addresses.len() as AddressId)
    }
}

/// After `a` asks for an id, `a` has the id it was given, and every address that had an
/// id keeps it.
pub proof fn lemma_id_or_insert(addresses: Seq<Address>, a: Address)
    requires
        addresses.no_duplicates(),
        addresses.len() <= u64::MAX,
        id_or_insert_result(addresses, a) is Some,
    ensures
        ({
            let (ids, id) = id_or_insert_result(addresses, a)->Some_0;
            &&& ids.no_duplicates()
            &&& id != 0
            &&& id_of(ids, a) == id
            &&& forall|b: Address| addresses.contains(b) ==> #[trigger] id_of(ids, b) == id_of(addresses, b)
        }),
{
    let (ids, id) = id_or_insert_result(addresses, a)->Some_0;
    if addresses.contains(a) {
        let k = addresses.index_of(a);
        assert(addresses[k] == a);
    } else {
        assert forall|i: int, j: int| 0 <= i < j < ids.len() implies ids[i] != ids[j] by {
            if j == addresses.len() {
                assert(addresses[i] == ids[i]);
            }
        }
        assert(ids[addresses.len() as int] == a);
        let k = ids.index_of(a);
        assert(ids[k] == a);
        assert(k == addresses.len());
        assert forall|b: Address| addresses.contains(b) implies #[trigger] id_of(ids, b) == id_of(addresses, b) by {
            let k1 = addresses.index_of(b);
            assert(addresses[k1] == b);
            assert(ids[k1] == b);
            assert(ids.contains(b));
            let k2 = ids.index_of(b);
            assert(ids[k2] == b);
        }
    }
}

} // verus!
