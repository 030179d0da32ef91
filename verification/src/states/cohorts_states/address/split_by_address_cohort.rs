use vstd::prelude::*;

use crate::structs::address_split::{AddressSize, AddressSplit, AddressType};

verus! {

/// Whether an address of type `address_type` and size `address_size` belongs
/// to the cohort `split`.
pub open spec fn belongs_to(
    split: AddressSplit,
    address_type: AddressType,
    address_size: AddressSize,
) -> bool {
    ||| split == AddressSplit::All
    ||| split == AddressSplit::Type(address_type)
    ||| split == AddressSplit::Size(address_size)
}

/// One value for all addresses, one for each size class and one for each
/// address type that has a cohort of its own.
#[derive(Debug, Default)]
pub struct SplitByAddressCohort<T> {
    pub all: T,
    pub plankton: T,
    pub shrimp: T,
    pub crab: T,
    pub fish: T,
    pub shark: T,
    pub whale: T,
    pub humpback: T,
    pub megalodon: T,
    pub p2pk: T,
    pub p2pkh: T,
    pub p2sh: T,
    pub p2wpkh: T,
    pub p2wsh: T,
    pub p2tr: T,
}

impl<T> SplitByAddressCohort<T> {
    /// The value of the cohort `split`, if that cohort is kept.
    pub open spec fn cohort(self, split: AddressSplit) -> Option<T> {
        match split {
            AddressSplit::All => Some(self.all),
            AddressSplit::Type(address_type) => match address_type {
                AddressType::P2PK => Some(self.p2pk),
                AddressType::P2PKH => Some(self.p2pkh),
                AddressType::P2SH => Some(self.p2sh),
                AddressType::P2WPKH => Some(self.p2wpkh),
                AddressType::P2WSH => Some(self.p2wsh),
                AddressType::P2TR => Some(self.p2tr),
                _ => None,
            },
            AddressSplit::Size(address_size) => match address_size {
                AddressSize::Plankton => Some(self.plankton),
                AddressSize::Shrimp => Some(self.shrimp),
                AddressSize::Crab => Some(self.crab),
                AddressSize::Fish => Some(self.fish),
                AddressSize::Shark => Some(self.shark),
                AddressSize::Whale => Some(self.whale),
                AddressSize::Humpback => Some(self.humpback),
                AddressSize::Megalodon => Some(self.megalodon),
                AddressSize::Empty => None,
            },
        }
    }

    /// All the cohorts, in a fixed order: all addresses, the sizes from the
    /// smallest up, then the types.
    pub open spec fn cohorts(self) -> Seq<T> {
        seq![
            self.all,
            self.plankton,
            self.shrimp,
            self.crab,
            self.fish,
            self.shark,
            self.whale,
            self.humpback,
            self.megalodon,
            self.p2pk,
            self.p2pkh,
            self.p2sh,
            self.p2wpkh,
            self.p2wsh,
            self.p2tr,
        ]
    }

    /// The value of the cohort `split`, if that cohort is kept.
    pub fn get(&self, split: &AddressSplit) -> (res: Option<&T>)
        ensures
            match self.cohort(*split) {
                Some(v) => res is Some && *res.unwrap() == v,
                None => res is None,
            },
    {
        match split {
            AddressSplit::All => Some(&self.all),
            AddressSplit::Type(address_type) => match address_type {
                AddressType::P2PK => Some(&self.p2pk),
                AddressType::P2PKH => Some(&self.p2pkh),
                AddressType::P2SH => Some(&self.p2sh),
                AddressType::P2WPKH => Some(&self.p2wpkh),
                AddressType::P2WSH => Some(&self.p2wsh),
                AddressType::P2TR => Some(&self.p2tr),
                AddressType::MultiSig => None,
                AddressType::Unknown => None,
                AddressType::OpReturn => None,
                AddressType::PushOnly => None,
                AddressType::Empty => None,
            },
            AddressSplit::Size(address_size) => match address_size {
                AddressSize::Plankton => Some(&self.plankton),
                AddressSize::Shrimp => Some(&self.shrimp),
                AddressSize::Crab => Some(&self.crab),
                AddressSize::Fish => Some(&self.fish),
                AddressSize::Shark => Some(&self.shark),
                AddressSize::Whale => Some(&self.whale),
                AddressSize::Humpback => Some(&self.humpback),
                AddressSize::Megalodon => Some(&self.megalodon),
                AddressSize::Empty => None,
            },
        }
    }

    /// The value of the cohort `split`, to be changed in place, if that
    /// cohort is kept. Every other cohort stays as it was.
    pub fn get_mut(&mut self, split: &AddressSplit) -> (res: Option<&mut T>)
        ensures
            match old(self).cohort(*split) {
                Some(v) => {
                    &&& res is Some
                    &&& *res.unwrap() == v
                    &&& final(self).cohort(*split) == Some(*final(res.unwrap()))
                    &&& forall|other: AddressSplit|
                        other != *split && #[trigger] old(self).cohort(other) is Some
                            ==> final(self).cohort(other) == old(self).cohort(other)
                },
                None => res is None && *final(self) == *old(self),
            },
    {
        match split {
            AddressSplit::All => Some(&mut self.all),
            AddressSplit::Type(address_type) => match address_type {
                AddressType::P2PK => Some(&mut self.p2pk),
                AddressType::P2PKH => Some(&mut self.p2pkh),
                AddressType::P2SH => Some(&mut self.p2sh),
                AddressType::P2WPKH => Some(&mut self.p2wpkh),
                AddressType::P2WSH => Some(&mut self.p2wsh),
                AddressType::P2TR => Some(&mut self.p2tr),
                AddressType::MultiSig => None,
                AddressType::Unknown => None,
                AddressType::OpReturn => None,
                AddressType::PushOnly => None,
                AddressType::Empty => None,
            },
            AddressSplit::Size(address_size) => match address_size {
                AddressSize::Plankton => Some(&mut self.plankton),
                AddressSize::Shrimp => Some(&mut self.shrimp),
                AddressSize::Crab => Some(&mut self.crab),
                AddressSize::Fish => Some(&mut self.fish),
                AddressSize::Shark => Some(&mut self.shark),
                AddressSize::Whale => Some(&mut self.whale),
                AddressSize::Humpback => Some(&mut self.humpback),
                AddressSize::Megalodon => Some(&mut self.megalodon),
                AddressSize::Empty => None,
            },
        }
    }

    /// Replaces the value of each cohort that an address of type
    /// `address_type` and size `address_size` belongs to (all addresses, its
    /// type, its size) by what `iterate` makes of it. The other cohorts stay
    /// as they were.
    pub fn iterate(
        &mut self,
        address_type: AddressType,
        address_size: AddressSize,
        iterate: impl Fn(&T) -> T,
    )
        requires
            forall|t: &T| #[trigger] call_requires(iterate, (t,)),
        ensures
            forall|split: AddressSplit|
                match #[trigger] old(self).cohort(split) {
                    Some(v) => {
                        &&& final(self).cohort(split) is Some
                        &&& belongs_to(split, address_type, address_size) ==> call_ensures(
                            iterate,
                            (&v,),
                            final(self).cohort(split).unwrap(),
                        )
                        &&& !belongs_to(split, address_type, address_size) ==> final(self).cohort(
                            split,
                        ) == Some(v)
                    },
                    None => final(self).cohort(split) is None,
                },
    {
        let ghost start = *self;
        if let Some(state) = self.get_mut(&AddressSplit::All) {
            let new_state = iterate(&*state);
            *state = new_state;
        }
        let ghost after_all = *self;
        if let Some(state) = self.get_mut(&AddressSplit::Type(address_type)) {
            let new_state = iterate(&*state);
            *state = new_state;
        }
        let ghost after_type = *self;
        if let Some(state) = self.get_mut(&AddressSplit::Size(address_size)) {
            let new_state = iterate(&*state);
            *state = new_state;
        }
        proof {
            assert forall|split: AddressSplit| #[trigger] start.cohort(split) is Some implies
                after_all.cohort(split) is Some && after_type.cohort(split) is Some
                && self.cohort(split) is Some by {
                assert(after_all.cohort(split) is Some);
                assert(after_type.cohort(split) is Some);
            }
        }
    }

    /// All the cohorts, in the order of `cohorts`.
    pub fn as_vec(&self) -> (res: Vec<&T>)
        ensures
            res@.len() == 15,
            forall|i: int| 0 <= i < 15 ==> *#[trigger] res@[i] == self.cohorts()[i],
    {
        vec![
            &self.all,
            &self.plankton,
            &self.shrimp,
            &self.crab,
            &self.fish,
            &self.shark,
            &self.whale,
            &self.humpback,
            &self.megalodon,
            &self.p2pk,
            &self.p2pkh,
            &self.p2sh,
            &self.p2wpkh,
            &self.p2wsh,
            &self.p2tr,
        ]
    }

    /// All the cohorts, to be changed in place, in the order of `cohorts`.
    pub fn as_mut_vec(&mut self) -> (res: Vec<&mut T>)
        ensures
            res@.len() == 15,
            forall|i: int| 0 <= i < 15 ==> *#[trigger] res@[i] == old(self).cohorts()[i],
            forall|i: int| 0 <= i < 15 ==> final(self).cohorts()[i] == *final(#[trigger] res@[i]),
    {
        vec![
            &mut self.all,
            &mut self.plankton,
            &mut self.shrimp,
            &mut self.crab,
            &mut self.fish,
            &mut self.shark,
            &mut self.whale,
            &mut self.humpback,
            &mut self.megalodon,
            &mut self.p2pk,
            &mut self.p2pkh,
            &mut self.p2sh,
            &mut self.p2wpkh,
            &mut self.p2wsh,
            &mut self.p2tr,
        ]
    }
}

/// The cohort of all addresses, of a type or of a size is the field of that
/// name, and it stands at a fixed place in `cohorts`: all addresses first,
/// then the sizes from the smallest up, then the types. The types and the size
/// that have no cohort of their own have none.
pub proof fn lemma_cohort_is_its_field<T>(s: SplitByAddressCohort<T>)
    ensures
        s.cohort(AddressSplit::All) == Some(s.all),
        s.cohort(AddressSplit::Size(AddressSize::Plankton)) == Some(s.plankton),
        s.cohort(AddressSplit::Size(AddressSize::Shrimp)) == Some(s.shrimp),
        s.cohort(AddressSplit::Size(AddressSize::Crab)) == Some(s.crab),
        s.cohort(AddressSplit::Size(AddressSize::Fish)) == Some(s.fish),
        s.cohort(AddressSplit::Size(AddressSize::Shark)) == Some(s.shark),
        s.cohort(AddressSplit::Size(AddressSize::Whale)) == Some(s.whale),
        s.cohort(AddressSplit::Size(AddressSize::Humpback)) == Some(s.humpback),
        s.cohort(AddressSplit::Size(AddressSize::Megalodon)) == Some(s.megalodon),
        s.cohort(AddressSplit::Type(AddressType::P2PK)) == Some(s.p2pk),
        s.cohort(AddressSplit::Type(AddressType::P2PKH)) == Some(s.p2pkh),
        s.cohort(AddressSplit::Type(AddressType::P2SH)) == Some(s.p2sh),
        s.cohort(AddressSplit::Type(AddressType::P2WPKH)) == Some(s.p2wpkh),
        s.cohort(AddressSplit::Type(AddressType::P2WSH)) == Some(s.p2wsh),
        s.cohort(AddressSplit::Type(AddressType::P2TR)) == Some(s.p2tr),
        s.cohort(AddressSplit::Size(AddressSize::Empty)) is None,
        s.cohort(AddressSplit::Type(AddressType::Empty)) is None,
        s.cohort(AddressSplit::Type(AddressType::OpReturn)) is None,
        s.cohort(AddressSplit::Type(AddressType::PushOnly)) is None,
        s.cohort(AddressSplit::Type(AddressType::Unknown)) is None,
        s.cohort(AddressSplit::Type(AddressType::MultiSig)) is None,
        s.cohorts().len() == 15,
        s.cohorts()[0] == s.all,
        s.cohorts()[1] == s.plankton,
        s.cohorts()[2] == s.shrimp,
        s.cohorts()[3] == s.crab,
        s.cohorts()[4] == s.fish,
        s.cohorts()[5] == s.shark,
        s.cohorts()[6] == s.whale,
        s.cohorts()[7] == s.humpback,
        s.cohorts()[8] == s.megalodon,
        s.cohorts()[9] == s.p2pk,
        s.cohorts()[10] == s.p2pkh,
        s.cohorts()[11] == s.p2sh,
        s.cohorts()[12] == s.p2wpkh,
        s.cohorts()[13] == s.p2wsh,
        s.cohorts()[14] == s.p2tr,
{
}

} // verus!
