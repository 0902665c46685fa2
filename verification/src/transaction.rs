//! Transaction and block envelopes: content hashing, validity rules, and
//! block sealing through the mining simulation.

use crate::decimal::{spec_dec, u128_to_dec, u32_to_dec, u64_to_dec};
use crate::digest::{hex_of, sha256};
use crate::merkle::{fold_proof, hash_views, proof_for, root_of, FastMerkleTree};
use crate::rps_mining::{
    all_won, roster_games, spec_block_seed, spec_mined_roster, spec_mined_rounds, RPSMiner,
    RPSMiningResult,
};
use vstd::prelude::*;
use vstd::string::{StringExecFns, StringSliceAdditionalSpecFns};
use vstd::utf8::encode_utf8;

verus! {

/// The text a transaction is hashed over: its sender, receiver, amount,
/// nonce and timestamp, concatenated.
pub open spec fn spec_tx_data(
    from: Seq<char>,
    to: Seq<char>,
    amount: u128,
    nonce: u32,
    timestamp: u64,
) -> Seq<char> {
    from + to + spec_dec(amount as int) + spec_dec(nonce as int) + spec_dec(timestamp as int)
}

/// The digest a transaction's content determines.
pub open spec fn spec_tx_hash(
    from: Seq<char>,
    to: Seq<char>,
    amount: u128,
    nonce: u32,
    timestamp: u64,
) -> Seq<u8> {
    sha256(encode_utf8(spec_tx_data(from, to, amount, nonce, timestamp)))
}

/// A transfer order between two named accounts.
#[derive(Debug)]
pub struct Transaction {
    pub from: String,
    pub to: String,
    pub amount: u128,
    pub nonce: u32,
    pub timestamp: u64,
    pub hash: crate::digest::Hash,
}

/// A transaction is valid when its stored hash matches its content, both
/// account names are non-empty, and sender and receiver differ.
pub open spec fn spec_tx_valid(t: Transaction) -> bool {
    &&& t.hash@ == spec_tx_hash(t.from@, t.to@, t.amount, t.nonce, t.timestamp)
    &&& t.from@.len() > 0
    &&& t.to@.len() > 0
    &&& t.from@ != t.to@
}

impl Transaction {
    /// A transaction stamped with the current time and its content hash.
    pub fn new(from: String, to: String, amount: u128, nonce: u32) -> (r: Self)
        ensures
            r.from == from,
            r.to == to,
            r.amount == amount,
            r.nonce == nonce,
            r.hash@ == spec_tx_hash(from@, to@, amount, nonce, r.timestamp),
    {
        let timestamp = crate::clock::now_secs();
        let mut tx = Self {
            from,
            to,
            amount,
            nonce,
            timestamp,
            hash: crate::digest::Hash::from_string(""),
        };
        tx.hash = tx.calculate_hash();
        tx
    }

    /// The digest of the transaction's content.
    pub fn calculate_hash(&self) -> (r: crate::digest::Hash)
        ensures
            r@ == spec_tx_hash(self.from@, self.to@, self.amount, self.nonce, self.timestamp),
    {
        let mut data = self.from.clone();
        data.append(self.to.as_str());
        data.append(u128_to_dec(self.amount).as_str());
        data.append(u32_to_dec(self.nonce).as_str());
        data.append(u64_to_dec(self.timestamp).as_str());
        proof {
            assert(data@ =~= spec_tx_data(
                self.from@,
                self.to@,
                self.amount,
                self.nonce,
                self.timestamp,
            ));
        }
        crate::digest::Hash::from_string(data.as_str())
    }

    /// Whether the stored hash matches the content and the account names
    /// are sound.
    pub fn is_valid(&self) -> (r: bool)
        ensures
            r == spec_tx_valid(*self),
    {
        self.hash == self.calculate_hash() && !self.from.as_str().is_empty()
            && !self.to.as_str().is_empty() && self.from != self.to
    }
}

impl Clone for Transaction {
    /// Cloning preserves the transaction exactly.
    fn clone(&self) -> (res: Self)
        ensures
            res == *self,
    {
        Transaction {
            from: self.from.clone(),
            to: self.to.clone(),
            amount: self.amount,
            nonce: self.nonce,
            timestamp: self.timestamp,
            hash: self.hash,
        }
    }
}

/// The views of the content hashes of a transaction list, in order.
pub open spec fn tx_hash_views(txs: Seq<Transaction>) -> Seq<Seq<u8>> {
    txs.map_values(|t: Transaction| t.hash@)
}

/// The commitment root over a transaction list: the tree root of the
/// transaction hashes, or the hash of "empty" for an empty list.
pub open spec fn spec_tx_root(txs: Seq<Transaction>) -> Seq<u8> {
    if txs.len() == 0 {
        sha256("empty".spec_bytes())
    } else {
        root_of(tx_hash_views(txs))
    }
}

/// A block envelope: ordered transactions, the chain link, the
/// commitment root, the block's own digest and the sealing result.
#[derive(Debug)]
pub struct Block {
    pub index: u32,
    pub timestamp: u64,
    pub transactions: Vec<Transaction>,
    pub previous_hash: crate::digest::Hash,
    pub merkle_root: crate::digest::Hash,
    pub hash: crate::digest::Hash,
    pub rps_mining_result: Option<RPSMiningResult>,
}

/// Two blocks agree on every header field, on their transaction lists and
/// on their sealing results.
pub open spec fn blocks_alike(a: Block, b: Block) -> bool {
    &&& a.index == b.index
    &&& a.timestamp == b.timestamp
    &&& a.transactions@ == b.transactions@
    &&& a.previous_hash == b.previous_hash
    &&& a.merkle_root == b.merkle_root
    &&& a.hash == b.hash
    &&& match (a.rps_mining_result, b.rps_mining_result) {
        (Some(x), Some(y)) => crate::rps_mining::results_alike(x, y),
        (None, None) => true,
        _ => false,
    }
}

impl Clone for Block {
    /// Cloning preserves every field; the sealing snapshot is cloned
    /// value for value.
    fn clone(&self) -> (res: Self)
        ensures
            blocks_alike(res, *self),
    {
        let transactions = self.transactions.clone();
        proof {
            assert(transactions@ =~= self.transactions@);
        }
        let rps_mining_result = match &self.rps_mining_result {
            Some(res) => Some(res.clone()),
            None => None,
        };
        Block {
            index: self.index,
            timestamp: self.timestamp,
            transactions,
            previous_hash: self.previous_hash,
            merkle_root: self.merkle_root,
            hash: self.hash,
            rps_mining_result,
        }
    }
}

impl Block {
    /// The text a block is hashed over: index, timestamp, the previous
    /// hash and commitment root in hexadecimal, and the sealing summary
    /// (round and game counts) or "pending".
    pub open spec fn spec_hash_data(&self) -> Seq<char> {
        spec_dec(self.index as int) + spec_dec(self.timestamp as int) + hex_of(
            self.previous_hash@,
        ) + hex_of(self.merkle_root@) + (match self.rps_mining_result {
            Some(res) => spec_dec(res.rounds as int) + ":"@ + spec_dec(res.total_games as int),
            None => "pending"@,
        })
    }

    /// The digest a block's header determines.
    pub open spec fn spec_hash(&self) -> Seq<u8> {
        sha256(encode_utf8(self.spec_hash_data()))
    }

    /// The text the mining simulation seals over: the header without any
    /// sealing summary.
    pub open spec fn spec_mining_data(&self) -> Seq<char> {
        spec_dec(self.index as int) + spec_dec(self.timestamp as int) + hex_of(
            self.previous_hash@,
        ) + hex_of(self.merkle_root@)
    }

    /// A block over the given transactions, stamped with the current time,
    /// its commitment root and its header digest; not yet sealed.
    pub fn new(index: u32, transactions: Vec<Transaction>, previous_hash: crate::digest::Hash)
        -> (r: Self)
        ensures
            r.index == index,
            r.transactions@ == transactions@,
            r.previous_hash == previous_hash,
            r.merkle_root@ == spec_tx_root(transactions@),
            r.rps_mining_result is None,
            r.hash@ == r.spec_hash(),
    {
        let timestamp = crate::clock::now_secs();
        let merkle_root = Self::calculate_merkle_root(&transactions);
        let mut block = Self {
            index,
            timestamp,
            transactions,
            previous_hash,
            merkle_root,
            hash: crate::digest::Hash::from_string(""),
            rps_mining_result: None,
        };
        block.hash = block.calculate_hash();
        block
    }

    /// The chain's first block: index zero over no transactions, linked
    /// to the hash of "genesis".
    pub fn genesis() -> (r: Self)
        ensures
            r.index == 0,
            r.transactions@.len() == 0,
            r.previous_hash@ == sha256("genesis".spec_bytes()),
            r.merkle_root@ == sha256("empty".spec_bytes()),
            r.rps_mining_result is None,
            r.hash@ == r.spec_hash(),
    {
        let genesis_hash = crate::digest::Hash::from_string("genesis");
        Self::new(0, Vec::new(), genesis_hash)
    }

    /// The digest of the block's header.
    pub fn calculate_hash(&self) -> (r: crate::digest::Hash)
        ensures
            r@ == self.spec_hash(),
    {
        let mut data = crate::decimal::u32_to_dec(self.index);
        data.append(u64_to_dec(self.timestamp).as_str());
        data.append(self.previous_hash.to_hex().as_str());
        data.append(self.merkle_root.to_hex().as_str());
        match &self.rps_mining_result {
            Some(result) => {
                data.append(u32_to_dec(result.rounds).as_str());
                data.append(":");
                data.append(u64_to_dec(result.total_games).as_str());
            },
            None => {
                data.append("pending");
            },
        }
        proof {
            assert(data@ =~= self.spec_hash_data());
        }
        crate::digest::Hash::from_string(data.as_str())
    }

    /// The commitment root over a transaction list.
    #[verifier::loop_isolation(false)]
    fn calculate_merkle_root(transactions: &Vec<Transaction>) -> (r: crate::digest::Hash)
        ensures
            r@ == spec_tx_root(transactions@),
    {
        if transactions.len() == 0 {
            return crate::digest::Hash::from_string("empty");
        }
        let mut tree = FastMerkleTree::new();
        let mut i: usize = 0;
        while i < transactions.len()
            invariant
                i <= transactions@.len(),
                tree.wf(),
                !tree.is_built(),
                tree.spec_len() == i,
                tree.leaf_views() == tx_hash_views(transactions@).take(i as int),
            decreases transactions@.len() - i,
        {
            tree.add_leaf(transactions[i].hash);
            proof {
                assert(tree.leaf_views() =~= tx_hash_views(transactions@).take(i + 1));
            }
            i = i + 1;
        }
        proof {
            assert(tree.leaf_views() =~= tx_hash_views(transactions@));
        }
        tree.build();
        match tree.get_root() {
            Some(root) => *root,
            None => crate::digest::Hash::from_string("empty"),
        }
    }

    /// Seals the block through the mining simulation: the simulation runs
    /// over the header text, always succeeds, and the block records the
    /// result and recomputes its digest over it.
    pub fn mine_block_rps(&mut self, rps_miner: &mut RPSMiner) -> (r: Result<(), String>)
        requires
            old(rps_miner).wf(),
            old(rps_miner).games_played + 800 <= u64::MAX,
            old(rps_miner).config.blocks_mined < u32::MAX,
        ensures
            r is Ok,
            final(self).index == old(self).index,
            final(self).timestamp == old(self).timestamp,
            final(self).transactions@ == old(self).transactions@,
            final(self).previous_hash == old(self).previous_hash,
            final(self).merkle_root == old(self).merkle_root,
            final(self).rps_mining_result matches Some(res) && {
                let bs = spec_block_seed(
                    encode_utf8(old(self).spec_mining_data()),
                    old(rps_miner).blockchain_seed,
                    old(rps_miner).games_played,
                );
                let mined = spec_mined_roster(old(rps_miner).players@, bs);
                &&& res.success == true
                &&& res.final_seed == bs
                &&& res.rounds == spec_mined_rounds(old(rps_miner).players@, bs)
                &&& res.winning_players@ == mined
                &&& res.total_games == roster_games(mined)
                &&& all_won(res.winning_players@)
            },
            final(self).hash@ == final(self).spec_hash(),
            final(rps_miner).wf(),
            final(rps_miner).blockchain_seed == old(rps_miner).blockchain_seed,
            final(rps_miner).config.blocks_mined == old(rps_miner).config.blocks_mined + 1,
            final(rps_miner).config.total_players == old(rps_miner).config.total_players,
    {
        let mut block_data = crate::decimal::u32_to_dec(self.index);
        block_data.append(u64_to_dec(self.timestamp).as_str());
        block_data.append(self.previous_hash.to_hex().as_str());
        block_data.append(self.merkle_root.to_hex().as_str());
        proof {
            assert(block_data@ =~= self.spec_mining_data());
        }
        match rps_miner.mine_block(block_data.as_str()) {
            Ok(mining_result) => {
                self.rps_mining_result = Some(mining_result);
                self.hash = self.calculate_hash();
                Ok(())
            },
            Err(e) => Err(e),
        }
    }

    /// Whether the block's stored digest and commitment root match its
    /// content, the chain link and index agree with the previous block
    /// (or the index is zero for a first block), and every transaction is
    /// valid.
    #[verifier::loop_isolation(false)]
    pub fn is_valid(&self, previous_block: Option<&Block>) -> (r: bool)
        ensures
            r == {
                &&& self.hash@ == self.spec_hash()
                &&& self.merkle_root@ == spec_tx_root(self.transactions@)
                &&& match previous_block {
                    Some(prev) => self.previous_hash@ == prev.hash@ && self.index == prev.index
                        + 1,
                    None => self.index == 0,
                }
                &&& forall|i: int|
                    0 <= i < self.transactions@.len() ==> spec_tx_valid(
                        #[trigger] self.transactions@[i],
                    )
            },
    {
        if !(self.hash == self.calculate_hash()) {
            return false;
        }
        if !(self.merkle_root == Self::calculate_merkle_root(&self.transactions)) {
            return false;
        }
        match previous_block {
            Some(prev_block) => {
                if !(self.previous_hash == prev_block.hash) {
                    return false;
                }
                if prev_block.index == u32::MAX {
                    return false;
                }
                if self.index != prev_block.index + 1 {
                    return false;
                }
            },
            None => {
                if self.index != 0 {
                    return false;
                }
            },
        }
        let mut i: usize = 0;
        while i < self.transactions.len()
            invariant
                i <= self.transactions@.len(),
                forall|j: int| 0 <= j < i ==> spec_tx_valid(#[trigger] self.transactions@[j]),
            decreases self.transactions@.len() - i,
        {
            if !self.transactions[i].is_valid() {
                return false;
            }
            i = i + 1;
        }
        true
    }

    /// The inclusion proof for the transaction at the given index against
    /// the block's own transaction list; absent when the index is out of
    /// range.
    #[verifier::loop_isolation(false)]
    pub fn get_transaction_proof(&self, tx_index: usize) -> (r: Option<
        Vec<crate::digest::Hash>,
    >)
        ensures
            (r is Some) == (tx_index < self.transactions@.len()),
            r matches Some(pr) ==> hash_views(pr@) == proof_for(
                tx_hash_views(self.transactions@),
                tx_index as int,
            ),
    {
        if tx_index >= self.transactions.len() {
            return None;
        }
        let tree = self.transaction_tree();
        tree.get_proof(tx_index)
    }

    /// Checks a transaction inclusion proof against the root of the
    /// block's own transaction list.
    pub fn verify_transaction_inclusion(
        &self,
        tx: &Transaction,
        proof: &[crate::digest::Hash],
        tx_index: usize,
    ) -> (r: bool)
        ensures
            r == (self.transactions@.len() > 0 && fold_proof(
                tx.hash@,
                hash_views(proof@),
                tx_index as int,
            ) == root_of(tx_hash_views(self.transactions@))),
    {
        let tree = self.transaction_tree();
        tree.verify_proof(&tx.hash, proof, tx_index)
    }

    /// A freshly built commitment tree over the block's transactions.
    #[verifier::loop_isolation(false)]
    fn transaction_tree(&self) -> (tree: FastMerkleTree)
        ensures
            tree.wf(),
            tree.leaf_views() == tx_hash_views(self.transactions@),
            tree.spec_len() == self.transactions@.len(),
            tree.is_built() <==> self.transactions@.len() > 0,
            tree.is_built() ==> tree.root_view() == root_of(tx_hash_views(self.transactions@)),
    {
        let mut tree = FastMerkleTree::new();
        let mut i: usize = 0;
        while i < self.transactions.len()
            invariant
                i <= self.transactions@.len(),
                tree.wf(),
                !tree.is_built(),
                tree.spec_len() == i,
                tree.leaf_views() == tx_hash_views(self.transactions@).take(i as int),
            decreases self.transactions@.len() - i,
        {
            tree.add_leaf(self.transactions[i].hash);
            proof {
                assert(tree.leaf_views() =~= tx_hash_views(self.transactions@).take(i + 1));
            }
            i = i + 1;
        }
        proof {
            assert(tree.leaf_views() =~= tx_hash_views(self.transactions@));
        }
        tree.build();
        tree
    }
}

} // verus!
