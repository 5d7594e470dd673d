//! Lists that live in the contract host, as `soroban_sdk::Vec`.
//!
//! Nothing is proved of the host itself: the declarations and wrappers here say
//! what the library takes from it. Like every host call they are metered; what
//! they state holds of calls that stay within the budget.

use crate::types::{Address, VouchRecord};
use vstd::prelude::*;

verus! {

/// The host environment, `soroban_sdk::Env`: carried, never looked into.
#[verifier::external_type_specification]
#[verifier::external_body]
pub struct ExEnv(soroban_sdk::Env);

/// A text held by the host, `soroban_sdk::String`: carried, never looked into.
#[verifier::external_type_specification]
#[verifier::external_body]
pub struct ExString(soroban_sdk::String);

/// A list held by the host, `soroban_sdk::Vec`.
#[verifier::external_type_specification]
#[verifier::external_body]
#[verifier::reject_recursive_types(T)]
pub struct ExVec<T>(soroban_sdk::Vec<T>);

/// The items of a host list of addresses, first to last.
pub uninterp spec fn address_items(v: soroban_sdk::Vec<u64>) -> Seq<u64>;

/// Whether every value in a host list of addresses reads as an address.
pub uninterp spec fn addresses_readable(v: soroban_sdk::Vec<u64>) -> bool;

/// The items of a host list of vouches, first to last: voucher, stake, time, token.
pub uninterp spec fn vouch_items(v: soroban_sdk::Vec<(u64, i128, u64, u64)>) -> Seq<
    (u64, i128, u64, u64),
>;

/// Whether every value in a host list of vouches reads as a vouch.
pub uninterp spec fn vouches_readable(v: soroban_sdk::Vec<(u64, i128, u64, u64)>) -> bool;

/// `soroban_sdk::Vec::new`: a list without items.
#[verifier::external_body]
fn new_addresses(env: &soroban_sdk::Env) -> (v: soroban_sdk::Vec<u64>)
    ensures
        addresses_readable(v),
        address_items(v) == Seq::<u64>::empty(),
{
    soroban_sdk::Vec::new(env)
}

/// `soroban_sdk::Vec::len`: the number of items.
#[verifier::external_body]
fn count_addresses(v: &soroban_sdk::Vec<u64>) -> (n: u32)
    ensures
        n == address_items(*v).len(),
{
    v.len()
}

/// `soroban_sdk::Vec::get`: the item at a position, if there is one. It panics
/// on a value that does not read as an address.
#[verifier::external_body]
fn address_at(v: &soroban_sdk::Vec<u64>, i: u32) -> (r: Option<u64>)
    requires
        addresses_readable(*v),
    ensures
        r == if i < address_items(*v).len() {
            Some(address_items(*v)[i as int])
        } else {
            None
        },
{
    v.get(i)
}

/// `soroban_sdk::Vec::push_back`: the item goes behind the last one.
#[verifier::external_body]
fn append_address(v: &mut soroban_sdk::Vec<u64>, item: u64)
    requires
        address_items(*old(v)).len() < u32::MAX,
    ensures
        address_items(*final(v)) == address_items(*old(v)).push(item),
        addresses_readable(*old(v)) ==> addresses_readable(*final(v)),
{
    v.push_back(item)
}

/// `soroban_sdk::Vec::new`: a list without items.
#[verifier::external_body]
fn new_vouches(env: &soroban_sdk::Env) -> (v: soroban_sdk::Vec<(u64, i128, u64, u64)>)
    ensures
        vouches_readable(v),
        vouch_items(v) == Seq::<(u64, i128, u64, u64)>::empty(),
{
    soroban_sdk::Vec::new(env)
}

/// `soroban_sdk::Vec::len`: the number of items.
#[verifier::external_body]
fn count_vouches(v: &soroban_sdk::Vec<(u64, i128, u64, u64)>) -> (n: u32)
    ensures
        n == vouch_items(*v).len(),
{
    v.len()
}

/// `soroban_sdk::Vec::get`: the item at a position, if there is one. It panics
/// on a value that does not read as a vouch.
#[verifier::external_body]
fn vouch_at(v: &soroban_sdk::Vec<(u64, i128, u64, u64)>, i: u32) -> (r: Option<
    (u64, i128, u64, u64),
>)
    requires
        vouches_readable(*v),
    ensures
        r == if i < vouch_items(*v).len() {
            Some(vouch_items(*v)[i as int])
        } else {
            None
        },
{
    v.get(i)
}

/// `soroban_sdk::Vec::push_back`: the item goes behind the last one.
#[verifier::external_body]
fn append_vouch(v: &mut soroban_sdk::Vec<(u64, i128, u64, u64)>, item: (u64, i128, u64, u64))
    requires
        vouch_items(*old(v)).len() < u32::MAX,
    ensures
        vouch_items(*final(v)) == vouch_items(*old(v)).push(item),
        vouches_readable(*old(v)) ==> vouches_readable(*final(v)),
{
    v.push_back(item)
}

/// `Clone` of `soroban_sdk::String`: a second handle to the same host text, which
/// nothing can change.
pub assume_specification[ <soroban_sdk::String as Clone>::clone ](
    text: &soroban_sdk::String,
) -> (r: soroban_sdk::String)
    ensures
        r == *text,
;

/// `Clone` of `soroban_sdk::Vec`: a second handle to the same host list. An
/// append makes a new host list, so neither handle sees what the other appends.
pub assume_specification<T>[ <soroban_sdk::Vec<T> as Clone>::clone ](v: &soroban_sdk::Vec<T>) -> (r:
    soroban_sdk::Vec<T>)
    ensures
        r == *v,
;

/// A list of addresses.
pub struct AddressList {
    items: soroban_sdk::Vec<u64>,
}

impl View for AddressList {
    type V = Seq<Address>;

    closed spec fn view(&self) -> Seq<Address> {
        address_items(self.items)
    }
}

impl AddressList {
    #[verifier::type_invariant]
    spec fn readable(self) -> bool {
        addresses_readable(self.items)
    }

    /// An empty list.
    pub fn new(env: &soroban_sdk::Env) -> (list: AddressList)
        ensures
            list@ == Seq::<Address>::empty(),
    {
        AddressList { items: new_addresses(env) }
    }

    /// The number of addresses.
    pub fn len(&self) -> (n: u32)
        ensures
            n == self@.len(),
    {
        count_addresses(&self.items)
    }

    /// The address at position `i`, counted from zero.
    pub fn get(&self, i: u32) -> (r: Option<Address>)
        ensures
            r == if i < self@.len() {
                Some(self@[i as int])
            } else {
                None
            },
    {
        proof {
            use_type_invariant(self);
        }
        address_at(&self.items, i)
    }

    /// The list with one more address behind the last one.
    pub fn with(self, address: Address) -> (list: AddressList)
        requires
            self@.len() < u32::MAX,
        ensures
            list@ == self@.push(address),
    {
        proof {
            use_type_invariant(&self);
        }
        let mut items = self.items;
        append_address(&mut items, address);
        AddressList { items }
    }

    /// Whether the address is in the list.
    pub fn contains(&self, address: Address) -> (r: bool)
        ensures
            r == self@.contains(address),
    {
        let n: u32 = self.len();
        let mut i: u32 = 0;
        while i < n
            invariant
                i <= n,
                n == self@.len(),
                forall|j: int| 0 <= j < i ==> self@[j] != address,
            decreases n - i,
        {
            if let Some(a) = self.get(i) {
                if a == address {
                    assert(self@[i as int] == address);
                    return true;
                }
            }
            i += 1;
        }
        false
    }
}

impl Clone for AddressList {
    fn clone(&self) -> (list: AddressList)
        ensures
            list@ == self@,
    {
        proof {
            use_type_invariant(self);
        }
        AddressList { items: self.items.clone() }
    }
}

/// A vouch as the host holds it.
pub open spec fn read_vouch(t: (u64, i128, u64, u64)) -> VouchRecord {
    VouchRecord { voucher: t.0, stake: t.1, vouch_timestamp: t.2, token: t.3 }
}

/// A list of vouches.
pub struct VouchList {
    items: soroban_sdk::Vec<(u64, i128, u64, u64)>,
}

impl View for VouchList {
    type V = Seq<VouchRecord>;

    closed spec fn view(&self) -> Seq<VouchRecord> {
        vouch_items(self.items).map_values(|t: (u64, i128, u64, u64)| read_vouch(t))
    }
}

impl VouchList {
    #[verifier::type_invariant]
    spec fn readable(self) -> bool {
        vouches_readable(self.items)
    }

    /// An empty list.
    pub fn new(env: &soroban_sdk::Env) -> (list: VouchList)
        ensures
            list@ == Seq::<VouchRecord>::empty(),
    {
        let list = VouchList { items: new_vouches(env) };
        assert(list@ =~= Seq::<VouchRecord>::empty());
        list
    }

    /// The number of vouches.
    pub fn len(&self) -> (n: u32)
        ensures
            n == self@.len(),
    {
        count_vouches(&self.items)
    }

    /// The vouch at position `i`, counted from zero.
    pub fn get(&self, i: u32) -> (r: Option<VouchRecord>)
        ensures
            r == if i < self@.len() {
                Some(self@[i as int])
            } else {
                None
            },
    {
        proof {
            use_type_invariant(self);
        }
        match vouch_at(&self.items, i) {
            Some((voucher, stake, vouch_timestamp, token)) => Some(
                VouchRecord { voucher, stake, vouch_timestamp, token },
            ),
            None => None,
        }
    }

    /// The list with one more vouch behind the last one.
    pub fn with(self, v: VouchRecord) -> (list: VouchList)
        requires
            self@.len() < u32::MAX,
        ensures
            list@ == self@.push(v),
    {
        proof {
            use_type_invariant(&self);
        }
        let ghost before = self@;
        let mut items = self.items;
        append_vouch(&mut items, (v.voucher, v.stake, v.vouch_timestamp, v.token));
        let list = VouchList { items };
        assert(list@ =~= before.push(v));
        list
    }
}

} // verus!
