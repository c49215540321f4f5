//! The fixed-capacity store of bonding records.
//!
//! The store keeps at most one record per peer address, in the order in
//! which the peers were first bonded.

use crate::hci::BdAddr;
use crate::{Address, Error};
use vstd::prelude::*;

verus! {

/// Number of bonding records the store can hold.
pub const BI_COUNT: usize = 10;

/// Why a pairing failed, as the security manager protocol names it.
#[derive(Clone, Copy, Debug, PartialEq, Eq, Structural)]
pub enum Reason {
    /// The user input of the passkey failed.
    PasskeyEntryFailed,
    /// Out-of-band data is not available.
    OobNotAvailable,
    /// The authentication requirements cannot be met.
    AuthenticationRequirements,
    /// The confirm value does not match the calculated one.
    ConfirmValueFailed,
    /// Pairing is not supported by the device.
    PairingNotSupported,
    /// The resulting encryption key size is not long enough.
    EncryptionKeySize,
    /// The command received is not supported.
    CommandNotSupported,
    /// Pairing failed for an unspecified reason.
    UnspecifiedReason,
    /// Too little time has passed since the last pairing or security request.
    RepeatedAttempts,
    /// The command length or a parameter is invalid.
    InvalidParameters,
    /// The key check value does not match the calculated one.
    DHKeyCheckFailed,
    /// The confirm values of the numeric comparison do not match.
    NumericComparisonFailed,
    /// Pairing over the other transport is in progress.
    BrEdrPairingInProgress,
    /// The generated link key cannot be used to derive keys for the other
    /// transport.
    GenerationNotAllowed,
    /// The device chose not to accept a distributed key.
    KeyRejected,
}

/// A long-term key shared with a bonded peer.
#[derive(Clone, Copy, Debug, PartialEq, Eq, Structural)]
pub struct LongTermKey(pub u128);

/// The identity and key of one bonded peer.
#[derive(Clone, Copy, Debug, PartialEq)]
pub struct BondInformation {
    /// Long-term key of the bond.
    pub ltk: LongTermKey,
    /// Device address of the peer.
    pub address: BdAddr,
}

/// `heapless::Vec`, a vector of at most `N` items that lives in place. Its
/// contents are known only through `bond_records` and the functions below.
#[verifier::external_type_specification]
#[verifier::external_body]
#[verifier::reject_recursive_types(T)]
pub struct ExHeaplessVec<T, const N: usize>(heapless::Vec<T, N>);

/// The records that a bounded vector holds, in order.
pub uninterp spec fn bond_records(v: heapless::Vec<BondInformation, 10>) -> Seq<BondInformation>;

/// `heapless::Vec::new`: a vector that holds nothing.
#[verifier::external_body]
fn records_new() -> (v: heapless::Vec<BondInformation, 10>)
    ensures
        bond_records(v) == Seq::<BondInformation>::empty(),
{
    heapless::Vec::new()
}

/// `heapless::Vec::as_slice`: the records held, in order, as a slice.
#[verifier::external_body]
fn records_slice(v: &heapless::Vec<BondInformation, 10>) -> (s: &[BondInformation])
    ensures
        s@ == bond_records(*v),
{
    v.as_slice()
}

/// `heapless::Vec::as_mut_slice`, written at one index: the record at `i`
/// is replaced and the others stay.
#[verifier::external_body]
fn records_set(v: &mut heapless::Vec<BondInformation, 10>, i: usize, item: BondInformation)
    requires
        i < bond_records(*old(v)).len(),
    ensures
        bond_records(*final(v)) == bond_records(*old(v)).update(i as int, item),
{
    v.as_mut_slice()[i] = item;
}

/// `heapless::Vec::push`: appends the record when fewer than the capacity of
/// ten are held, and hands it back, changing nothing, otherwise.
#[verifier::external_body]
fn records_push(v: &mut heapless::Vec<BondInformation, 10>, item: BondInformation) -> (r: Result<
    (),
    BondInformation,
>)
    ensures
        match r {
            Ok(_) => bond_records(*old(v)).len() < 10 && bond_records(*final(v)) == bond_records(
                *old(v),
            ).push(item),
            Err(e) => bond_records(*old(v)).len() >= 10 && e == item && bond_records(*final(v))
                == bond_records(*old(v)),
        },
{
    v.push(item)
}

/// `heapless::Vec::remove`: takes out the record at `i` and moves the later
/// ones down by one place, keeping their order.
#[verifier::external_body]
fn records_remove(v: &mut heapless::Vec<BondInformation, 10>, i: usize) -> (item: BondInformation)
    requires
        i < bond_records(*old(v)).len(),
    ensures
        item == bond_records(*old(v))[i as int],
        bond_records(*final(v)) == bond_records(*old(v)).remove(i as int),
{
    v.remove(i)
}

/// `heapless::Vec::from_slice`: a vector that holds copies of the items of
/// the slice, in order; refused when the slice holds more than the capacity
/// of ten.
#[verifier::external_body]
fn records_from_slice(items: &[BondInformation]) -> (r: Result<heapless::Vec<BondInformation, 10>, ()>)
    ensures
        match r {
            Ok(copy) => items@.len() <= 10 && bond_records(copy) == items@,
            Err(_) => items@.len() > 10,
        },
{
    heapless::Vec::from_slice(items)
}

/// The record at `i` is the first one for `address`.
pub open spec fn first_match(records: Seq<BondInformation>, address: BdAddr, i: int) -> bool {
    &&& 0 <= i < records.len()
    &&& records[i].address@ == address@
    &&& forall|j: int| 0 <= j < i ==> (#[trigger] records[j]).address@ != address@
}

/// No record is for `address`.
pub open spec fn unknown(records: Seq<BondInformation>, address: BdAddr) -> bool {
    forall|j: int| 0 <= j < records.len() ==> (#[trigger] records[j]).address@ != address@
}

/// The invariant of the records: they fit into the store and no two are for
/// the same address.
pub open spec fn records_wf(records: Seq<BondInformation>) -> bool {
    &&& records.len() <= BI_COUNT
    &&& forall|i: int, j: int|
        0 <= i < j < records.len() ==> (#[trigger] records[i]).address@ != (#[trigger] records[j]).address@
}

/// The part of the security manager that keeps the local identity, the seed
/// of its random number generator, and the bonding records.
pub struct SecurityManager {
    local_address: Option<Address>,
    seed: Option<[u8; 32]>,
    bond: heapless::Vec<BondInformation, 10>,
}

/// What storing a bond makes of a security manager, and what it returns. A
/// record for the same address is replaced in its place; otherwise the
/// record is added at the end, unless the store is full: then the call fails
/// with `OutOfMemory` and nothing changes.
pub open spec fn added(
    before: SecurityManager,
    bond: BondInformation,
    after: SecurityManager,
    r: Result<(), Error>,
) -> bool {
    &&& after.local_address() == before.local_address()
    &&& after.seed() == before.seed()
    &&& match r {
        Ok(_) => if unknown(before.records(), bond.address) {
            before.records().len() < BI_COUNT && after.records() == before.records().push(bond)
        } else {
            exists|i: int|
                first_match(before.records(), bond.address, i) && after.records()
                    == before.records().update(i, bond)
        },
        Err(e) => e == Error::OutOfMemory && unknown(before.records(), bond.address)
            && before.records().len() >= BI_COUNT && after.records() == before.records(),
    }
}

/// What removing the bond with `address` makes of a security manager, and
/// what it returns. The record leaves and the others keep their order; where
/// there is none, the call fails with `NotFound` and nothing changes.
pub open spec fn removed(before: SecurityManager, address: BdAddr, after: SecurityManager, r: Result<(), Error>) -> bool {
    &&& after.local_address() == before.local_address()
    &&& after.seed() == before.seed()
    &&& match r {
        Ok(_) => exists|i: int|
            first_match(before.records(), address, i) && after.records() == before.records().remove(i),
        Err(e) => e == Error::NotFound && unknown(before.records(), address) && after.records()
            == before.records(),
    }
}

impl SecurityManager {
    /// The bonding records, oldest bond first.
    pub closed spec fn records(&self) -> Seq<BondInformation> {
        bond_records(self.bond)
    }

    /// The address of the local device.
    pub closed spec fn local_address(&self) -> Option<Address> {
        self.local_address
    }

    /// The seed that the random number generator was given.
    pub closed spec fn seed(&self) -> Option<[u8; 32]> {
        self.seed
    }

    /// The invariant of the store.
    pub open spec fn wf(&self) -> bool {
        records_wf(self.records())
    }

    /// A security manager without identity, seed or bonds.
    pub fn new() -> (r: Self)
        ensures
            r.wf(),
            r.records() == Seq::<BondInformation>::empty(),
            r.local_address() is None,
            r.seed() is None,
    {
        SecurityManager { local_address: None, seed: None, bond: records_new() }
    }

    /// Sets the address of the local device.
    pub fn set_local_address(&mut self, address: Address)
        ensures
            final(self).local_address() == Some(address),
            final(self).seed() == old(self).seed(),
            final(self).records() == old(self).records(),
    {
        self.local_address = Some(address);
    }

    /// Seeds the random number generator.
    pub fn set_random_generator_seed(&mut self, random_seed: [u8; 32])
        ensures
            final(self).seed() == Some(random_seed),
            final(self).local_address() == old(self).local_address(),
            final(self).records() == old(self).records(),
    {
        self.seed = Some(random_seed);
    }

    /// Whether the random number generator was seeded.
    pub fn get_random_generator_seeded(&self) -> (r: bool)
        ensures
            r == self.seed() is Some,
    {
        self.seed.is_some()
    }

    /// The place of the first record for `address`.
    fn position(&self, address: &BdAddr) -> (r: Option<usize>)
        ensures
            match r {
                Some(i) => first_match(self.records(), *address, i as int),
                None => unknown(self.records(), *address),
            },
    {
        let records = records_slice(&self.bond);
        let n = records.len();
        let mut i: usize = 0;
        while i < n
            invariant
                i <= n,
                n == self.records().len(),
                records@ == self.records(),
                forall|j: int| 0 <= j < i ==> (#[trigger] self.records()[j]).address@ != address@,
            decreases n - i,
        {
            let item = records[i];
            if item.address.same(address) {
                return Some(i);
            }
            i += 1;
        }
        None
    }

    /// Stores a bond. A record for the same address is replaced in its place;
    /// otherwise the record is added at the end, which fails with
    /// `OutOfMemory`, changing nothing, when the store is full.
    pub fn add_bond_information(&mut self, bond_information: BondInformation) -> (r: Result<(), Error>)
        requires
            old(self).wf(),
        ensures
            final(self).wf(),
            added(*old(self), bond_information, *final(self), r),
    {
        match self.position(&bond_information.address) {
            Some(i) => {
                records_set(&mut self.bond, i, bond_information);
                Ok(())
            },
            None => match records_push(&mut self.bond, bond_information) {
                Ok(_) => Ok(()),
                Err(_) => Err(Error::OutOfMemory),
            },
        }
    }

    /// Removes the bond with `address`, keeping the order of the others.
    /// Fails with `NotFound`, changing nothing, when there is none.
    pub fn remove_bond_information(&mut self, address: BdAddr) -> (r: Result<(), Error>)
        requires
            old(self).wf(),
        ensures
            final(self).wf(),
            removed(*old(self), address, *final(self), r),
    {
        match self.position(&address) {
            Some(i) => {
                let _ = records_remove(&mut self.bond, i);
                Ok(())
            },
            None => Err(Error::NotFound),
        }
    }

    /// A copy of the bonding records, oldest bond first.
    pub fn get_bond_information(&self) -> (r: heapless::Vec<BondInformation, 10>)
        requires
            self.wf(),
        ensures
            bond_records(r) == self.records(),
    {
        match records_from_slice(records_slice(&self.bond)) {
            Ok(copy) => copy,
            Err(_) => records_new(),
        }
    }
}

} // verus!
