//! Protocol-level users.
use crate::bytes::copy_bytes;
use vstd::prelude::*;

verus! {

/// A protocol-level user: its key, its gas balance, its stake and its nonce.
#[derive(Debug)]
pub struct User {
    pub public_key: Vec<u8>,
    pub fuel_balance: u64,
    pub stake: u64,
    pub nonce: usize,
}

/// Two users agree in every field.
pub open spec fn same_user(a: User, b: User) -> bool {
    &&& a.public_key@ == b.public_key@
    &&& a.fuel_balance == b.fuel_balance
    &&& a.stake == b.stake
    &&& a.nonce == b.nonce
}

/// A copy of a user holds the same key, gas, stake and nonce.
pub proof fn copied_users_hold_the_same(a: User, b: User)
    requires
        same_user(a, b),
    ensures
        a.public_key@ == b.public_key@,
        a.fuel_balance == b.fuel_balance,
        a.stake == b.stake,
        a.nonce == b.nonce,
{
}

impl Clone for User {
    fn clone(&self) -> (r: Self)
        ensures
            same_user(r, *self),
    {
        User {
            public_key: copy_bytes(&self.public_key),
            fuel_balance: self.fuel_balance,
            stake: self.stake,
            nonce: self.nonce,
        }
    }
}

impl Default for User {
    fn default() -> (r: Self)
        ensures
            r.public_key@ == Seq::<u8>::empty(),
            r.fuel_balance == 0,
            r.stake == 0,
            r.nonce == 0,
    {
        User { public_key: Vec::new(), fuel_balance: 0, stake: 0, nonce: 0 }
    }
}

} // verus!
