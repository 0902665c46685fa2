//! The balance ledger: per-account unsigned balances with set, get and a
//! checked transfer.

use crate::kvlist::{as_map, find_index, keys_unique, lemma_as_map_absent, lemma_as_map_found,
    lemma_as_map_push, lemma_as_map_update};
use vstd::prelude::*;

verus! {

/// The balance ledger. Each account appears at most once.
pub struct Pallet {
    pub balances: Vec<(String, u128)>,
}

impl View for Pallet {
    type V = Map<Seq<char>, u128>;

    open spec fn view(&self) -> Map<Seq<char>, u128> {
        as_map(self.balances@)
    }
}

impl Pallet {
    /// Each account appears at most once in the ledger.
    pub open spec fn wf(&self) -> bool {
        keys_unique(self.balances@)
    }

    /// The balance recorded for an account; an account never set holds
    /// zero.
    pub open spec fn spec_balance(&self, who: Seq<char>) -> u128 {
        if self@.dom().contains(who) {
            self@[who]
        } else {
            0
        }
    }

    /// An empty ledger.
    pub fn new() -> (r: Self)
        ensures
            r.wf(),
            r@ == Map::<Seq<char>, u128>::empty(),
    {
        Self { balances: Vec::new() }
    }

    /// Sets an account's balance, overwriting any previous value.
    pub fn set_balance(&mut self, who: &String, amount: u128)
        requires
            old(self).wf(),
        ensures
            final(self).wf(),
            final(self)@ == old(self)@.insert(who@, amount),
    {
        match find_index(&self.balances, who) {
            Some(i) => {
                proof {
                    lemma_as_map_update(self.balances@, i as int, amount);
                }
                let key = self.balances[i].0.clone();
                self.balances.set(i, (key, amount));
            },
            None => {
                proof {
                    lemma_as_map_push(self.balances@, *who, amount);
                }
                self.balances.push((who.clone(), amount));
            },
        }
    }

    /// The balance of an account.
    pub fn get_balance(&mut self, who: &String) -> (r: u128)
        requires
            old(self).wf(),
        ensures
            *final(self) == *old(self),
            r == old(self).spec_balance(who@),
    {
        match find_index(&self.balances, who) {
            Some(i) => {
                proof {
                    lemma_as_map_found(self.balances@, i as int);
                }
                self.balances[i].1
            },
            None => {
                proof {
                    lemma_as_map_absent(self.balances@, who@);
                }
                0
            },
        }
    }

    /// Moves an amount between accounts. Fails with no change when the
    /// sender's balance is short, or when the credit would overflow. When
    /// sender and receiver are one account, the credit overwrites the
    /// debit.
    pub fn transfer(&mut self, sender: String, reciever: String, amount: u128) -> (r: Result<
        (),
        &'static str,
    >)
        requires
            old(self).wf(),
        ensures
            final(self).wf(),
            (r is Ok) == (old(self).spec_balance(sender@) >= amount && old(self).spec_balance(
                reciever@,
            ) + amount <= u128::MAX),
            r is Ok ==> final(self)@ == old(self)@.insert(
                sender@,
                (old(self).spec_balance(sender@) - amount) as u128,
            ).insert(reciever@, (old(self).spec_balance(reciever@) + amount) as u128),
            r is Err ==> *final(self) == *old(self),
            r matches Err(e) ==> e@ == (if old(self).spec_balance(sender@) < amount {
                "Insufficient sender balance"@
            } else {
                "Error adding balance"@
            }),
    {
        let sender_balance: u128 = self.get_balance(&sender);
        let reciever_balance: u128 = self.get_balance(&reciever);
        let new_sender_balance: u128 = match sender_balance.checked_sub(amount) {
            Some(v) => v,
            None => {
                return Err("Insufficient sender balance");
            },
        };
        let new_reciever_balance: u128 = match reciever_balance.checked_add(amount) {
            Some(v) => v,
            None => {
                return Err("Error adding balance");
            },
        };
        self.set_balance(&sender, new_sender_balance);
        self.set_balance(&reciever, new_reciever_balance);
        Ok(())
    }
}

} // verus!
