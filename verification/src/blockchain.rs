//! The chain context: owns the block list, the pending-transaction queue,
//! the ledger and nonce registries, and the mining simulation; applies a
//! sealed block's transactions, rewards and counters as one unit.

use crate::balances::Pallet as BalancesPallet;
use crate::digest::sha256;
use crate::merkle::{fold_proof, hash_views, proof_for, root_of, FastMerkleTree};
use crate::rps_mining::RPSMiner;
use crate::system::Pallet as SystemPallet;
use crate::transaction::{
    blocks_alike, spec_tx_root, spec_tx_valid, tx_hash_views, Block, Transaction,
};
use std::collections::VecDeque;
use vstd::prelude::*;
use vstd::string::{StringExecFns, StringSliceAdditionalSpecFns};
use vstd::utf8::encode_utf8;

verus! {

/// The value a balance map holds for an account, zero when absent.
pub open spec fn bal_of(m: Map<Seq<char>, u128>, w: Seq<char>) -> u128 {
    if m.dom().contains(w) {
        m[w]
    } else {
        0
    }
}

/// The value a nonce map holds for an account, zero when absent.
pub open spec fn non_of(m: Map<Seq<char>, u32>, w: Seq<char>) -> u32 {
    if m.dom().contains(w) {
        m[w]
    } else {
        0
    }
}

/// The total amount carried by a queue of transactions.
pub open spec fn amounts_sum(txs: Seq<Transaction>) -> int
    decreases txs.len(),
{
    if txs.len() == 0 {
        0
    } else {
        txs[0].amount + amounts_sum(txs.drop_first())
    }
}

/// What one sealing pass makes of the pending queue, starting from given
/// ledgers with `count` transactions already in the block: front to back,
/// a transaction whose debit and credit both fit is applied (balances
/// moved, sender nonce advanced) and enters the block; any other is
/// dropped; the pass stops once the block holds 100 transactions. Yields
/// the final balances, the final nonces, the queue's remainder, and the
/// transactions that entered the block.
pub open spec fn spec_process(
    balances: Map<Seq<char>, u128>,
    nonces: Map<Seq<char>, u32>,
    pending: Seq<Transaction>,
    count: int,
) -> (Map<Seq<char>, u128>, Map<Seq<char>, u32>, Seq<Transaction>, Seq<Transaction>)
    decreases pending.len(),
{
    if pending.len() == 0 {
        (balances, nonces, pending, Seq::empty())
    } else {
        let tx = pending[0];
        let ok = bal_of(balances, tx.from@) >= tx.amount && bal_of(balances, tx.to@)
            + tx.amount <= u128::MAX;
        let balances2 = if ok {
            balances.insert(tx.from@, (bal_of(balances, tx.from@) - tx.amount) as u128).insert(
                tx.to@,
                (bal_of(balances, tx.to@) + tx.amount) as u128,
            )
        } else {
            balances
        };
        let nonces2 = if ok {
            nonces.insert(tx.from@, (non_of(nonces, tx.from@) + 1) as u32)
        } else {
            nonces
        };
        let appended = if ok {
            seq![tx]
        } else {
            Seq::<Transaction>::empty()
        };
        let count2 = count + appended.len();
        if count2 >= 100 {
            (balances2, nonces2, pending.drop_first(), appended)
        } else {
            let rest = spec_process(balances2, nonces2, pending.drop_first(), count2);
            (rest.0, rest.1, rest.2, appended + rest.3)
        }
    }
}

/// Every non-genesis block hashes and commits to its own content, links
/// to its predecessor by hash and index, carries only valid transactions,
/// and records a successful sealing result.
pub open spec fn spec_chain_valid(chain: Seq<Block>) -> bool {
    forall|i: int|
        1 <= i < chain.len() ==> {
            let b = #[trigger] chain[i];
            &&& b.hash@ == b.spec_hash()
            &&& b.merkle_root@ == spec_tx_root(b.transactions@)
            &&& b.previous_hash@ == chain[i - 1].hash@
            &&& b.index == chain[i - 1].index + 1
            &&& (forall|t: int|
                0 <= t < b.transactions@.len() ==> spec_tx_valid(#[trigger] b.transactions@[t]))
            &&& b.rps_mining_result matches Some(res) && res.success
        }
}

/// Whether a block's transaction list holds a transaction with the given
/// content hash.
pub open spec fn block_has_tx(b: Block, h: Seq<u8>) -> bool {
    exists|t: int| 0 <= t < b.transactions@.len() && (#[trigger] b.transactions@[t]).hash@ == h
}

/// The leaf a ledger entry contributes to the state commitment: the hash
/// of "account:balance".
pub open spec fn spec_state_leaf(account: Seq<char>, balance: u128) -> Seq<u8> {
    sha256(encode_utf8(account + ":"@ + crate::decimal::spec_dec(balance as int)))
}

/// The total games recorded by the sealing results of a block sequence.
pub open spec fn spec_total_games(chain: Seq<Block>) -> int
    decreases chain.len(),
{
    if chain.len() == 0 {
        0
    } else {
        spec_total_games(chain.drop_last()) + (match chain.last().rps_mining_result {
            Some(res) => res.total_games as int,
            None => 0,
        })
    }
}

/// The single-node ledger: the chain, the pending queue, the ledger and
/// nonce registries, and the mining simulation.
pub struct Blockchain {
    pub chain: Vec<Block>,
    pub difficulty: usize,
    pub pending_transactions: VecDeque<Transaction>,
    pub mining_reward: u128,
    pub system: SystemPallet,
    pub balances: BalancesPallet,
    pub rps_miner: RPSMiner,
}

impl Blockchain {
    /// The chain always holds at least the genesis block, and every owned
    /// registry and the miner are internally consistent.
    pub open spec fn wf(&self) -> bool {
        &&& self.chain@.len() >= 1
        &&& self.system.wf()
        &&& self.balances.wf()
        &&& self.rps_miner.wf()
    }

    /// A freshly created chain: one genesis block, an empty queue, the
    /// documented starting parameters and genesis balances, and a miner
    /// that has sealed nothing.
    pub open spec fn spec_fresh(&self) -> bool {
        &&& self.wf()
        &&& self.chain@.len() == 1
        &&& self.chain@[0].index == 0
        &&& self.chain@[0].transactions@.len() == 0
        &&& self.chain@[0].rps_mining_result is None
        &&& self.chain@[0].hash@ == self.chain@[0].spec_hash()
        &&& self.difficulty == 2
        &&& self.pending_transactions@.len() == 0
        &&& self.mining_reward == 100
        &&& self.system.spec_block_number() == 0
        &&& self.system.nonces() == Map::<Seq<char>, u32>::empty()
        &&& self.balances@ == Map::<Seq<char>, u128>::empty().insert("genesis"@, 1_000_000)
            .insert("alice"@, 1000).insert("bob"@, 500)
        &&& self.rps_miner.games_played == 0
        &&& self.rps_miner.config.blocks_mined == 0
        &&& self.rps_miner.config.total_players == 100
    }

    /// A chain initialised with its genesis block and starting balances.
    pub fn new() -> (r: Self)
        ensures
            r.spec_fresh(),
    {
        let rps_config = crate::rps_mining::RPSMiningConfig::new();
        let rps_miner = RPSMiner::new(rps_config);
        let mut blockchain = Self {
            chain: Vec::new(),
            difficulty: 2,
            pending_transactions: VecDeque::new(),
            mining_reward: 100,
            system: SystemPallet::new(),
            balances: BalancesPallet::new(),
            rps_miner,
        };
        blockchain.create_genesis_block();
        blockchain
    }

    /// Appends the genesis block and credits the starting accounts.
    fn create_genesis_block(&mut self)
        requires
            old(self).balances.wf(),
        ensures
            final(self).chain@.len() == old(self).chain@.len() + 1,
            final(self).chain@.last().index == 0,
            final(self).chain@.last().transactions@.len() == 0,
            final(self).chain@.last().rps_mining_result is None,
            final(self).chain@.last().hash@ == final(self).chain@.last().spec_hash(),
            forall|i: int|
                0 <= i < old(self).chain@.len() ==> final(self).chain@[i] == old(self).chain@[i],
            final(self).balances.wf(),
            final(self).balances@ == old(self).balances@.insert("genesis"@, 1_000_000).insert(
                "alice"@,
                1000,
            ).insert("bob"@, 500),
            final(self).system == old(self).system,
            final(self).rps_miner == old(self).rps_miner,
            final(self).pending_transactions == old(self).pending_transactions,
            final(self).difficulty == old(self).difficulty,
            final(self).mining_reward == old(self).mining_reward,
    {
        let mut genesis = Block::genesis();
        genesis.hash = genesis.calculate_hash();
        self.chain.push(genesis);
        self.balances.set_balance(&String::from_str("genesis"), 1_000_000);
        self.balances.set_balance(&String::from_str("alice"), 1000);
        self.balances.set_balance(&String::from_str("bob"), 500);
    }

    /// The most recently appended block.
    pub fn get_latest_block(&self) -> (r: &Block)
        requires
            self.chain@.len() >= 1,
        ensures
            *r == self.chain@.last(),
    {
        &self.chain[self.chain.len() - 1]
    }

    /// Queues a transaction: accepted exactly when it is internally valid,
    /// the sender's balance covers it, and its nonce is one past the
    /// sender's current nonce.
    pub fn add_transaction(&mut self, transaction: Transaction) -> (r: Result<(), String>)
        requires
            old(self).wf(),
            old(self).system.spec_nonce(transaction.from@) < u32::MAX,
        ensures
            final(self).wf(),
            (r is Ok) == (spec_tx_valid(transaction) && old(self).balances.spec_balance(
                transaction.from@,
            ) >= transaction.amount && transaction.nonce == old(self).system.spec_nonce(
                transaction.from@,
            ) + 1),
            r is Ok ==> final(self).pending_transactions@ == old(
                self,
            ).pending_transactions@.push(transaction),
            r is Err ==> *final(self) == *old(self),
            r matches Err(e) ==> e@ == (if !spec_tx_valid(transaction) {
                "Invalid transaction"@
            } else if old(self).balances.spec_balance(transaction.from@) < transaction.amount {
                "Insufficient balance"@
            } else {
                "Invalid nonce"@
            }),
            final(self).chain@ == old(self).chain@,
            final(self).balances@ == old(self).balances@,
            final(self).system == old(self).system,
            final(self).rps_miner == old(self).rps_miner,
            final(self).difficulty == old(self).difficulty,
            final(self).mining_reward == old(self).mining_reward,
    {
        if !transaction.is_valid() {
            return Err(String::from_str("Invalid transaction"));
        }
        let sender_balance = self.balances.get_balance(&transaction.from);
        if sender_balance < transaction.amount {
            return Err(String::from_str("Insufficient balance"));
        }
        let expected_nonce = self.system.get_nonce(&transaction.from);
        if transaction.nonce != expected_nonce + 1 {
            return Err(String::from_str("Invalid nonce"));
        }
        self.pending_transactions.push_back(transaction);
        Ok(())
    }

    /// The balance of an account.
    pub fn get_balance(&mut self, address: &String) -> (r: u128)
        requires
            old(self).balances.wf(),
        ensures
            *final(self) == *old(self),
            r == old(self).balances.spec_balance(address@),
    {
        self.balances.get_balance(address)
    }

    /// Checks every link of the chain: block content hashes, commitment
    /// roots, predecessor links, transaction validity and sealing results.
    #[verifier::loop_isolation(false)]
    pub fn is_chain_valid(&self) -> (r: bool)
        ensures
            r == spec_chain_valid(self.chain@),
    {
        let mut i: usize = 1;
        while i < self.chain.len()
            invariant
                1 <= i,
                forall|j: int|
                    1 <= j < i ==> {
                        let b = #[trigger] self.chain@[j];
                        &&& b.hash@ == b.spec_hash()
                        &&& b.merkle_root@ == spec_tx_root(b.transactions@)
                        &&& b.previous_hash@ == self.chain@[j - 1].hash@
                        &&& b.index == self.chain@[j - 1].index + 1
                        &&& (forall|t: int|
                            0 <= t < b.transactions@.len() ==> spec_tx_valid(
                                #[trigger] b.transactions@[t],
                            ))
                        &&& b.rps_mining_result matches Some(res) && res.success
                    },
            decreases self.chain@.len() - i,
        {
            let current_block = &self.chain[i];
            let previous_block = &self.chain[i - 1];
            if !current_block.is_valid(Some(previous_block)) {
                return false;
            }
            match &current_block.rps_mining_result {
                Some(rps_result) => {
                    if !rps_result.success {
                        return false;
                    }
                },
                None => {
                    return false;
                },
            }
            i = i + 1;
        }
        true
    }

    /// The block at a position in the chain.
    pub fn get_block_by_index(&self, index: u32) -> (r: Option<&Block>)
        ensures
            (r is Some) == (index < self.chain@.len()),
            r matches Some(b) ==> *b == self.chain@[index as int],
    {
        if (index as usize) < self.chain.len() {
            Some(&self.chain[index as usize])
        } else {
            None
        }
    }

    /// The first block whose own digest equals the given hash.
    #[verifier::loop_isolation(false)]
    pub fn get_block_by_hash(&self, hash: &crate::digest::Hash) -> (r: Option<&Block>)
        ensures
            r matches Some(b) ==> exists|i: int|
                {
                    &&& 0 <= i < self.chain@.len()
                    &&& *b == #[trigger] self.chain@[i]
                    &&& b.hash@ == hash@
                    &&& forall|j: int| 0 <= j < i ==> (#[trigger] self.chain@[j]).hash@ != hash@
                },
            r is None ==> forall|i: int|
                0 <= i < self.chain@.len() ==> (#[trigger] self.chain@[i]).hash@ != hash@,
    {
        let mut i: usize = 0;
        while i < self.chain.len()
            invariant
                i <= self.chain@.len(),
                forall|j: int| 0 <= j < i ==> (#[trigger] self.chain@[j]).hash@ != hash@,
            decreases self.chain@.len() - i,
        {
            if self.chain[i].hash == *hash {
                return Some(&self.chain[i]);
            }
            i = i + 1;
        }
        None
    }

    /// Number of blocks in the chain.
    pub fn get_chain_length(&self) -> (r: usize)
        ensures
            r == self.chain@.len(),
    {
        self.chain.len()
    }

    /// Number of queued transactions.
    pub fn get_pending_transaction_count(&self) -> (r: usize)
        ensures
            r == self.pending_transactions@.len(),
    {
        self.pending_transactions.len()
    }

    /// Sets the legacy proof-of-work difficulty parameter.
    pub fn set_difficulty(&mut self, difficulty: usize)
        ensures
            final(self).difficulty == difficulty,
            final(self).chain@ == old(self).chain@,
            final(self).pending_transactions == old(self).pending_transactions,
            final(self).mining_reward == old(self).mining_reward,
            final(self).system == old(self).system,
            final(self).balances == old(self).balances,
            final(self).rps_miner == old(self).rps_miner,
    {
        self.difficulty = difficulty;
    }

    /// The current quota schedule summary of the owned miner.
    pub fn get_rps_difficulty_info(&self) -> (r: crate::rps_mining::DifficultyInfo)
        ensures
            r.block_number == self.rps_miner.config.blocks_mined,
            r.total_players == self.rps_miner.config.total_players,
            r.total_required_wins == crate::rps_mining::sum_of(
                crate::rps_mining::spec_win_requirements(self.rps_miner.config.blocks_mined),
            ),
            crate::rps_mining::distribution_counts(
                r.win_distribution@,
                crate::rps_mining::spec_win_requirements(self.rps_miner.config.blocks_mined),
            ),
    {
        self.rps_miner.get_difficulty_info()
    }

    /// Seals the pending queue into a new block: a reward transaction is
    /// created first, then queued transactions are applied front to back
    /// (an unpayable one is dropped) up to 100 per block, the block is
    /// sealed by the mining simulation — which always succeeds — and the
    /// reward is credited, the block counter advanced and the block
    /// appended, as one unit.
    #[verifier::loop_isolation(false)]
    pub fn mine_pending_transactions(&mut self, mining_reward_address: String) -> (r: Result<
        Block,
        String,
    >)
        requires
            old(self).wf(),
            old(self).chain@.len() <= u32::MAX,
            old(self).system.spec_block_number() < u32::MAX,
            old(self).rps_miner.games_played + 800 <= u64::MAX,
            old(self).rps_miner.config.blocks_mined < u32::MAX,
            forall|w: Seq<char>|
                #[trigger] non_of(old(self).system.nonces(), w) + old(
                    self,
                ).pending_transactions@.len() <= u32::MAX,
            bal_of(old(self).balances@, mining_reward_address@) + amounts_sum(
                old(self).pending_transactions@,
            ) + old(self).mining_reward <= u128::MAX,
        ensures
            r is Ok,
            final(self).wf(),
            final(self).chain@.len() == old(self).chain@.len() + 1,
            forall|i: int|
                0 <= i < old(self).chain@.len() ==> final(self).chain@[i] == old(self).chain@[i],
            final(self).pending_transactions@ == spec_process(
                old(self).balances@,
                old(self).system.nonces(),
                old(self).pending_transactions@,
                1,
            ).2,
            final(self).system.nonces() == spec_process(
                old(self).balances@,
                old(self).system.nonces(),
                old(self).pending_transactions@,
                1,
            ).1,
            final(self).balances@ == {
                let applied = spec_process(
                    old(self).balances@,
                    old(self).system.nonces(),
                    old(self).pending_transactions@,
                    1,
                ).0;
                applied.insert(
                    mining_reward_address@,
                    (bal_of(applied, mining_reward_address@) + old(self).mining_reward) as u128,
                )
            },
            final(self).system.spec_block_number() == old(self).system.spec_block_number() + 1,
            final(self).rps_miner.wf(),
            final(self).rps_miner.blockchain_seed == old(self).rps_miner.blockchain_seed,
            final(self).rps_miner.config.blocks_mined == old(self).rps_miner.config.blocks_mined
                + 1,
            final(self).difficulty == old(self).difficulty,
            final(self).mining_reward == old(self).mining_reward,
            r matches Ok(b) ==> {
                let newb = final(self).chain@.last();
                &&& blocks_alike(b, newb)
                &&& newb.index == old(self).chain@.len()
                &&& newb.previous_hash@ == old(self).chain@.last().hash@
                &&& newb.transactions@.len() >= 1
                &&& newb.transactions@[0].from@ == "network"@
                &&& newb.transactions@[0].to@ == mining_reward_address@
                &&& newb.transactions@[0].amount == old(self).mining_reward
                &&& newb.transactions@[0].nonce == 0
                &&& newb.transactions@.skip(1) == spec_process(
                    old(self).balances@,
                    old(self).system.nonces(),
                    old(self).pending_transactions@,
                    1,
                ).3
                &&& newb.merkle_root@ == spec_tx_root(newb.transactions@)
                &&& newb.rps_mining_result matches Some(res) && res.success
                &&& newb.hash@ == newb.spec_hash()
            },
    {
        let reward_tx = Transaction::new(
            String::from_str("network"),
            mining_reward_address.clone(),
            self.mining_reward,
            0,
        );
        let ghost rtx = reward_tx;
        let mut transactions: Vec<Transaction> = Vec::new();
        transactions.push(reward_tx);
        let ghost f = spec_process(
            self.balances@,
            self.system.nonces(),
            self.pending_transactions@,
            1,
        );
        proof {
            assert(transactions@.skip(1) =~= Seq::<Transaction>::empty());
            assert(transactions@.skip(1) + spec_process(
                self.balances@,
                self.system.nonces(),
                self.pending_transactions@,
                1,
            ).3 =~= f.3);
            lemma_amounts_sum_nonneg(self.pending_transactions@);
        }
        let mut full = false;
        while self.pending_transactions.len() > 0 && !full
            invariant
                !full ==> {
                    &&& transactions@.len() < 100
                    &&& f.0 == spec_process(
                        self.balances@,
                        self.system.nonces(),
                        self.pending_transactions@,
                        transactions@.len() as int,
                    ).0
                    &&& f.1 == spec_process(
                        self.balances@,
                        self.system.nonces(),
                        self.pending_transactions@,
                        transactions@.len() as int,
                    ).1
                    &&& f.2 == spec_process(
                        self.balances@,
                        self.system.nonces(),
                        self.pending_transactions@,
                        transactions@.len() as int,
                    ).2
                    &&& f.3 == transactions@.skip(1) + spec_process(
                        self.balances@,
                        self.system.nonces(),
                        self.pending_transactions@,
                        transactions@.len() as int,
                    ).3
                },
                full ==> {
                    &&& f.0 == self.balances@
                    &&& f.1 == self.system.nonces()
                    &&& f.2 == self.pending_transactions@
                    &&& f.3 == transactions@.skip(1)
                },
                transactions@.len() >= 1,
                transactions@[0] == rtx,
                self.chain@ == old(self).chain@,
                self.rps_miner == old(self).rps_miner,
                self.difficulty == old(self).difficulty,
                self.mining_reward == old(self).mining_reward,
                self.balances.wf(),
                self.system.wf(),
                self.system.spec_block_number() == old(self).system.spec_block_number(),
                forall|w: Seq<char>|
                    #[trigger] non_of(self.system.nonces(), w)
                        + self.pending_transactions@.len() <= u32::MAX,
                bal_of(self.balances@, mining_reward_address@) + amounts_sum(
                    self.pending_transactions@,
                ) + self.mining_reward <= u128::MAX,
                amounts_sum(self.pending_transactions@) >= 0,
            decreases self.pending_transactions@.len(),
        {
            let ghost curb = self.balances@;
            let ghost curn = self.system.nonces();
            let ghost curp = self.pending_transactions@;
            let ghost cnt = transactions@.len() as int;
            let ghost txs_before = transactions@;
            let tx = self.pending_transactions.pop_front().unwrap();
            proof {
                assert(curp[0] == tx);
                assert(self.pending_transactions@ =~= curp.drop_first());
            }
            let ghost ok_spec = bal_of(curb, tx.from@) >= tx.amount && bal_of(curb, tx.to@)
                + tx.amount <= u128::MAX;
            match self.balances.transfer(tx.from.clone(), tx.to.clone(), tx.amount) {
                Ok(_) => {
                    proof {
                        assert(ok_spec);
                        assert(non_of(curn, tx.from@) + curp.len() <= u32::MAX);
                    }
                    self.system.inc_nonce(&tx.from);
                    transactions.push(tx);
                },
                Err(_) => {
                    proof {
                        assert(!ok_spec);
                    }
                },
            }
            proof {
                let step = spec_process(curb, curn, curp, cnt);
                let appended: Seq<Transaction> = if ok_spec {
                    seq![tx]
                } else {
                    Seq::<Transaction>::empty()
                };
                assert(self.balances@ == if ok_spec {
                    curb.insert(tx.from@, (bal_of(curb, tx.from@) - tx.amount) as u128).insert(
                        tx.to@,
                        (bal_of(curb, tx.to@) + tx.amount) as u128,
                    )
                } else {
                    curb
                });
                assert(self.system.nonces() == if ok_spec {
                    curn.insert(tx.from@, (non_of(curn, tx.from@) + 1) as u32)
                } else {
                    curn
                });
                assert(transactions@ =~= txs_before + appended);
                // the spec pass takes the same step the loop body just took
                let cnt2 = cnt + appended.len();
                assert(cnt2 == transactions@.len());
                if cnt2 >= 100 {
                    assert(step == (
                        self.balances@,
                        self.system.nonces(),
                        self.pending_transactions@,
                        appended,
                    ));
                    assert(f.3 =~= transactions@.skip(1)) by {
                        assert(f.3 =~= txs_before.skip(1) + appended);
                        assert(transactions@.skip(1) =~= txs_before.skip(1) + appended);
                    }
                } else {
                    let rest = spec_process(
                        self.balances@,
                        self.system.nonces(),
                        self.pending_transactions@,
                        cnt2,
                    );
                    assert(step == (rest.0, rest.1, rest.2, appended + rest.3));
                    assert(f.3 =~= transactions@.skip(1) + rest.3) by {
                        assert(f.3 =~= txs_before.skip(1) + (appended + rest.3));
                        assert(transactions@.skip(1) =~= txs_before.skip(1) + appended);
                    }
                }
                // the reward account's balance plus what the queue still
                // carries never grows
                lemma_amounts_sum_nonneg(self.pending_transactions@);
                assert(amounts_sum(curp) == tx.amount + amounts_sum(curp.drop_first()));
                assert(bal_of(self.balances@, mining_reward_address@) + amounts_sum(
                    self.pending_transactions@,
                ) <= bal_of(curb, mining_reward_address@) + amounts_sum(curp));
                // one nonce advanced, one queue entry consumed
                assert forall|w: Seq<char>|
                    #[trigger] non_of(self.system.nonces(), w)
                        + self.pending_transactions@.len() <= u32::MAX by {
                    assert(non_of(curn, w) + curp.len() <= u32::MAX);
                }
            }
            if transactions.len() >= 100 {
                full = true;
            }
        }
        proof {
            if !full {
                assert(self.pending_transactions@.len() == 0);
                assert(f.3 =~= transactions@.skip(1));
            }
            lemma_amounts_sum_nonneg(self.pending_transactions@);
        }
        let previous_hash = self.get_latest_block().hash;
        let ghost block_txs = transactions@;
        let mut new_block = Block::new(self.chain.len() as u32, transactions, previous_hash);
        match new_block.mine_block_rps(&mut self.rps_miner) {
            Ok(_) => {
                let current_balance = self.balances.get_balance(&mining_reward_address);
                self.balances.set_balance(
                    &mining_reward_address,
                    current_balance + self.mining_reward,
                );
                self.system.inc_block_number(&mining_reward_address);
                let result_block = new_block.clone();
                self.chain.push(new_block);
                proof {
                    assert(self.chain@.last() == self.chain@[self.chain@.len() - 1]);
                    assert(block_txs.skip(1) =~= f.3);
                }
                Ok(result_block)
            },
            Err(e) => {
                let mut message = String::from_str("RPS Mining failed: ");
                message.append(e.as_str());
                Err(message)
            },
        }
    }

    /// The total games recorded by the sealing results of every block
    /// after the genesis block.
    #[verifier::loop_isolation(false)]
    pub fn get_total_rps_games(&self) -> (r: u64)
        requires
            self.chain@.len() >= 1,
            spec_total_games(self.chain@.skip(1)) <= u64::MAX,
        ensures
            r == spec_total_games(self.chain@.skip(1)),
    {
        let ghost tail = self.chain@.skip(1);
        let mut total: u64 = 0;
        let mut i: usize = 1;
        while i < self.chain.len()
            invariant
                1 <= i <= self.chain@.len(),
                total == spec_total_games(tail.take(i - 1)),
            decreases self.chain@.len() - i,
        {
            proof {
                lemma_total_games_prefix(tail, i as int);
                assert(tail.take(i as int).drop_last() =~= tail.take(i - 1));
                assert(tail.take(i as int).last() == self.chain@[i as int]);
            }
            match &self.chain[i].rps_mining_result {
                Some(rps_result) => {
                    total = total + rps_result.total_games;
                },
                None => {
                },
            }
            i = i + 1;
        }
        proof {
            assert(tail.take(self.chain@.len() - 1) =~= tail);
        }
        total
    }
}

/// The transactions of one block that name the given account as sender or
/// receiver, in block order.
pub open spec fn spec_block_history(txs: Seq<Transaction>, addr: Seq<char>) -> Seq<Transaction>
    decreases txs.len(),
{
    if txs.len() == 0 {
        Seq::empty()
    } else {
        spec_block_history(txs.drop_last(), addr) + (if txs.last().from@ == addr
            || txs.last().to@ == addr {
            seq![txs.last()]
        } else {
            Seq::<Transaction>::empty()
        })
    }
}

/// Every transaction in the chain that names the given account, in chain
/// order.
pub open spec fn spec_history(chain: Seq<Block>, addr: Seq<char>) -> Seq<Transaction>
    decreases chain.len(),
{
    if chain.len() == 0 {
        Seq::empty()
    } else {
        spec_history(chain.drop_last(), addr) + spec_block_history(
            chain.last().transactions@,
            addr,
        )
    }
}

impl Blockchain {
    /// Every transaction in the chain that names the account as sender or
    /// receiver, in chain order.
    #[verifier::loop_isolation(false)]
    pub fn get_transaction_history(&self, address: &String) -> (r: Vec<Transaction>)
        ensures
            r@ == spec_history(self.chain@, address@),
    {
        let mut history: Vec<Transaction> = Vec::new();
        let mut b: usize = 0;
        proof {
            assert(history@ =~= spec_history(self.chain@.take(0), address@));
        }
        while b < self.chain.len()
            invariant
                b <= self.chain@.len(),
                history@ == spec_history(self.chain@.take(b as int), address@),
            decreases self.chain@.len() - b,
        {
            proof {
                assert(self.chain@.take(b + 1).drop_last() =~= self.chain@.take(b as int));
                assert(self.chain@.take(b + 1).last() == self.chain@[b as int]);
            }
            let block = &self.chain[b];
            let mut t: usize = 0;
            proof {
                assert(history@ =~= spec_history(self.chain@.take(b as int), address@)
                    + spec_block_history(block.transactions@.take(0), address@));
            }
            while t < block.transactions.len()
                invariant
                    t <= block.transactions@.len(),
                    history@ == spec_history(self.chain@.take(b as int), address@)
                        + spec_block_history(block.transactions@.take(t as int), address@),
                decreases block.transactions@.len() - t,
            {
                proof {
                    assert(block.transactions@.take(t + 1).drop_last()
                        =~= block.transactions@.take(t as int));
                    assert(block.transactions@.take(t + 1).last() == block.transactions@[
                        t as int]);
                }
                let tx = &block.transactions[t];
                if tx.from == *address || tx.to == *address {
                    history.push(tx.clone());
                }
                proof {
                    assert(history@ =~= spec_history(self.chain@.take(b as int), address@)
                        + spec_block_history(block.transactions@.take(t + 1), address@));
                }
                t = t + 1;
            }
            proof {
                assert(block.transactions@.take(block.transactions@.len() as int)
                    =~= block.transactions@);
            }
            b = b + 1;
        }
        proof {
            assert(self.chain@.take(self.chain@.len() as int) =~= self.chain@);
        }
        history
    }

    /// The first transaction in the chain with the given content hash,
    /// with its block and its index within that block.
    #[verifier::loop_isolation(false)]
    pub fn find_transaction(&self, tx_hash: &crate::digest::Hash) -> (r: Option<
        (&Block, &Transaction, usize),
    >)
        ensures
            r matches Some(found) ==> exists|bi: int|
                {
                    &&& 0 <= bi < self.chain@.len()
                    &&& *found.0 == #[trigger] self.chain@[bi]
                    &&& (found.2 as int) < self.chain@[bi].transactions@.len()
                    &&& *found.1 == self.chain@[bi].transactions@[found.2 as int]
                    &&& found.1.hash@ == tx_hash@
                    &&& forall|j: int|
                        0 <= j < bi ==> !block_has_tx(#[trigger] self.chain@[j], tx_hash@)
                    &&& forall|t: int|
                        0 <= t < found.2 ==> (#[trigger] self.chain@[bi].transactions@[t]).hash@
                            != tx_hash@
                },
            r is None ==> forall|bi: int|
                0 <= bi < self.chain@.len() ==> !block_has_tx(
                    #[trigger] self.chain@[bi],
                    tx_hash@,
                ),
    {
        let mut b: usize = 0;
        while b < self.chain.len()
            invariant
                b <= self.chain@.len(),
                forall|j: int| 0 <= j < b ==> !block_has_tx(#[trigger] self.chain@[j], tx_hash@),
            decreases self.chain@.len() - b,
        {
            let block = &self.chain[b];
            let mut t: usize = 0;
            while t < block.transactions.len()
                invariant
                    t <= block.transactions@.len(),
                    forall|j: int|
                        0 <= j < t ==> (#[trigger] block.transactions@[j]).hash@ != tx_hash@,
                decreases block.transactions@.len() - t,
            {
                if block.transactions[t].hash == *tx_hash {
                    return Some((block, &block.transactions[t], t));
                }
                t = t + 1;
            }
            proof {
                assert(!block_has_tx(self.chain@[b as int], tx_hash@));
            }
            b = b + 1;
        }
        None
    }

    /// The inclusion proof for the first transaction with the given
    /// content hash, with its index and its block's recorded index.
    pub fn get_transaction_proof(&self, tx_hash: &crate::digest::Hash) -> (r: Option<
        (Vec<crate::digest::Hash>, usize, u32),
    >)
        ensures
            r matches Some(res) ==> exists|bi: int|
                {
                    &&& 0 <= bi < self.chain@.len()
                    &&& (res.1 as int) < (#[trigger] self.chain@[bi]).transactions@.len()
                    &&& self.chain@[bi].transactions@[res.1 as int].hash@ == tx_hash@
                    &&& res.2 == self.chain@[bi].index
                    &&& hash_views(res.0@) == proof_for(
                        tx_hash_views(self.chain@[bi].transactions@),
                        res.1 as int,
                    )
                },
            r is None ==> forall|bi: int|
                0 <= bi < self.chain@.len() ==> !block_has_tx(
                    #[trigger] self.chain@[bi],
                    tx_hash@,
                ),
    {
        match self.find_transaction(tx_hash) {
            Some((block, _tx, tx_index)) => {
                match block.get_transaction_proof(tx_index) {
                    Some(proof_hashes) => Some((proof_hashes, tx_index, block.index)),
                    None => None,
                }
            },
            None => None,
        }
    }

    /// Checks a transaction inclusion proof against the transaction list
    /// of the block at the given chain position.
    pub fn verify_transaction_proof(
        &self,
        tx: &Transaction,
        proof: &[crate::digest::Hash],
        tx_index: usize,
        block_index: u32,
    ) -> (r: bool)
        ensures
            r == (block_index < self.chain@.len() && {
                let b = self.chain@[block_index as int];
                b.transactions@.len() > 0 && fold_proof(
                    tx.hash@,
                    hash_views(proof@),
                    tx_index as int,
                ) == root_of(tx_hash_views(b.transactions@))
            }),
    {
        if (block_index as usize) < self.chain.len() {
            let block = &self.chain[block_index as usize];
            block.verify_transaction_inclusion(tx, proof, tx_index)
        } else {
            false
        }
    }

    /// A commitment tree over the ledger state, one leaf per account in
    /// entry order, each the hash of "account:balance".
    #[verifier::loop_isolation(false)]
    pub fn create_state_merkle_tree(&self) -> (r: FastMerkleTree)
        ensures
            r.wf(),
            r.leaf_views() == self.balances.balances@.map_values(
                |e: (String, u128)| spec_state_leaf(e.0@, e.1),
            ),
            r.is_built() <==> self.balances.balances@.len() > 0,
            r.is_built() ==> r.root_view() == root_of(r.leaf_views()),
    {
        let ghost target = self.balances.balances@.map_values(
            |e: (String, u128)| spec_state_leaf(e.0@, e.1),
        );
        let mut tree = FastMerkleTree::new();
        let mut i: usize = 0;
        while i < self.balances.balances.len()
            invariant
                i <= self.balances.balances@.len(),
                tree.wf(),
                !tree.is_built(),
                tree.spec_len() == i,
                tree.leaf_views() == target.take(i as int),
            decreases self.balances.balances@.len() - i,
        {
            let entry = &self.balances.balances[i];
            let mut state_data = entry.0.clone();
            state_data.append(":");
            state_data.append(crate::decimal::u128_to_dec(entry.1).as_str());
            proof {
                assert(state_data@ =~= entry.0@ + ":"@ + crate::decimal::spec_dec(
                    entry.1 as int,
                ));
                assert(target[i as int] == spec_state_leaf(
                    self.balances.balances@[i as int].0@,
                    self.balances.balances@[i as int].1,
                ));
            }
            tree.add_leaf(crate::digest::Hash::from_string(state_data.as_str()));
            proof {
                assert(tree.leaf_views() =~= target.take(i + 1));
            }
            i = i + 1;
        }
        proof {
            assert(tree.leaf_views() =~= target);
        }
        tree.build();
        tree
    }

    /// The root of the state commitment, absent for an empty ledger.
    pub fn get_state_root(&self) -> (r: Option<crate::digest::Hash>)
        ensures
            (r is Some) == (self.balances.balances@.len() > 0),
            r matches Some(h) ==> h@ == root_of(
                self.balances.balances@.map_values(
                    |e: (String, u128)| spec_state_leaf(e.0@, e.1),
                ),
            ),
    {
        let tree = self.create_state_merkle_tree();
        match tree.get_root() {
            Some(h) => Some(*h),
            None => None,
        }
    }
}

impl Default for Blockchain {
    /// The same fresh chain that `new` yields.
    fn default() -> (r: Self)
        ensures
            r.spec_fresh(),
    {
        Self::new()
    }
}

/// A queue of transactions carries a non-negative total amount.
proof fn lemma_amounts_sum_nonneg(txs: Seq<Transaction>)
    ensures
        amounts_sum(txs) >= 0,
    decreases txs.len(),
{
    if txs.len() > 0 {
        lemma_amounts_sum_nonneg(txs.drop_first());
    }
}

/// The total-games tally of any prefix is at most the whole tally, since
/// every sealing result contributes a non-negative count.
proof fn lemma_total_games_prefix(chain: Seq<Block>, i: int)
    requires
        0 <= i <= chain.len(),
    ensures
        spec_total_games(chain.take(i)) <= spec_total_games(chain),
    decreases chain.len() - i,
{
    if i == chain.len() {
        assert(chain.take(i) =~= chain);
    } else {
        lemma_total_games_prefix(chain, i + 1);
        assert(chain.take(i + 1).drop_last() =~= chain.take(i));
        assert(chain.take(i + 1).last() == chain[i]);
    }
}

} // verus!
