//! The system registry: the block counter and per-account transaction
//! nonces.

use crate::kvlist::{as_map, find_index, keys_unique, lemma_as_map_absent, lemma_as_map_found,
    lemma_as_map_push, lemma_as_map_update};
use vstd::prelude::*;

verus! {

/// Block counter and per-account nonces. Each account appears at most
/// once in the nonce registry.
pub struct Pallet {
    block_number: u32,
    nonce: Vec<(String, u32)>,
}

impl Pallet {
    /// Each account appears at most once.
    pub closed spec fn wf(&self) -> bool {
        keys_unique(self.nonce@)
    }

    /// The current block number.
    pub closed spec fn spec_block_number(&self) -> u32 {
        self.block_number
    }

    /// The nonce registry as a map.
    pub closed spec fn nonces(&self) -> Map<Seq<char>, u32> {
        as_map(self.nonce@)
    }

    /// The nonce recorded for an account; an account never touched holds
    /// zero.
    pub open spec fn spec_nonce(&self, who: Seq<char>) -> u32 {
        if self.nonces().dom().contains(who) {
            self.nonces()[who]
        } else {
            0
        }
    }

    /// A fresh registry: block zero, no nonces.
    pub fn new() -> (r: Self)
        ensures
            r.wf(),
            r.spec_block_number() == 0,
            r.nonces() == Map::<Seq<char>, u32>::empty(),
    {
        Self { block_number: 0, nonce: Vec::new() }
    }

    /// The current block number.
    pub fn get_block_number(&self) -> (r: u32)
        ensures
            r == self.spec_block_number(),
    {
        self.block_number
    }

    /// Advances the block counter by one.
    pub fn inc_block_number(&mut self, _who: &String)
        requires
            old(self).spec_block_number() < u32::MAX,
        ensures
            final(self).spec_block_number() == old(self).spec_block_number() + 1,
            final(self).nonces() == old(self).nonces(),
            final(self).wf() == old(self).wf(),
    {
        self.block_number = self.block_number + 1;
    }

    /// Advances an account's nonce by one.
    pub fn inc_nonce(&mut self, who: &String)
        requires
            old(self).wf(),
            old(self).spec_nonce(who@) < u32::MAX,
        ensures
            final(self).wf(),
            final(self).nonces() == old(self).nonces().insert(
                who@,
                (old(self).spec_nonce(who@) + 1) as u32,
            ),
            final(self).spec_block_number() == old(self).spec_block_number(),
    {
        let current = self.get_nonce(who);
        match find_index(&self.nonce, who) {
            Some(i) => {
                proof {
                    lemma_as_map_update(self.nonce@, i as int, (current + 1) as u32);
                }
                let key = self.nonce[i].0.clone();
                self.nonce.set(i, (key, current + 1));
            },
            None => {
                proof {
                    lemma_as_map_push(self.nonce@, *who, (current + 1) as u32);
                }
                self.nonce.push((who.clone(), current + 1));
            },
        }
    }

    /// The nonce of an account.
    pub fn get_nonce(&self, who: &String) -> (r: u32)
        requires
            self.wf(),
        ensures
            r == self.spec_nonce(who@),
    {
        match find_index(&self.nonce, who) {
            Some(i) => {
                proof {
                    lemma_as_map_found(self.nonce@, i as int);
                }
                self.nonce[i].1
            },
            None => {
                proof {
                    lemma_as_map_absent(self.nonce@, who@);
                }
                0
            },
        }
    }
}

} // verus!
