//! One validator's state and its per-slot steps: propose, receive, vote, fast-confirm, merge.
use vstd::prelude::*;
use vstd::view::View as HasView;
use crate::constants::KAPPA;
use crate::ffg::{
    greatest_justified, greatest_justified_checkpoint, threshold, JustificationCache,
};
use crate::fork_choice::{filter_spec, ghost_head, rlmd_ghost_fork_choice};
use crate::text::{proposal_hash, proposal_hash_string};
use crate::types::{
    find_block, genesis_hash, genesis_model, genesis_string, insert_absent, insert_all, lookup,
    null_hash, null_string, Block, BlockModel, Checkpoint, CheckpointModel, Proposal, Transaction,
    Validator, ValidatorId, ValidatorStatus, View, ViewError, ViewModel, Vote, VoteModel,
};

verus! {

/// Whether this library computes finalized heads. It does not: `ch_fin` stays at genesis.
pub const FINALIZATION_IMPLEMENTED: bool = false;

/// A configuration that the protocol cannot run with.
#[derive(Debug, Clone, Copy, PartialEq, Eq, Structural)]
pub enum ConfigError {
    /// The validator set is empty.
    EmptyValidatorSet,
    /// The validator's id is not below the size of the validator set.
    UnknownValidator,
}

/// The view that holds the genesis block only.
pub open spec fn genesis_view() -> ViewModel {
    ViewModel { blocks: seq![genesis_model()], votes: Seq::empty() }
}

/// Walks from block `cur` up the parent chain while its slot is above `bound` and it has a
/// parent, with at most `fuel` lookups; the hash of the block where it stops.
pub open spec fn k_deep_walk(bs: Seq<BlockModel>, cur: BlockModel, bound: u64, fuel: nat) -> Result<
    Seq<char>,
    ViewError,
>
    decreases fuel,
{
    if cur.slot <= bound || cur.parent_hash == null_hash() {
        Ok(cur.hash)
    } else if fuel == 0 {
        Err(ViewError::AncestryCycle)
    } else {
        match lookup(bs, cur.parent_hash) {
            None => Err(ViewError::MissingAncestor),
            Some(p) => k_deep_walk(bs, p, bound, (fuel - 1) as nat),
        }
    }
}

/// The k-deep prefix of `head` in view `v`: its nearest ancestor-or-self at or below slot
/// `head.slot - k` (or the root of its chain).
pub open spec fn k_deep_prefix(v: ViewModel, head: BlockModel, k: u64) -> Result<
    Seq<char>,
    ViewError,
> {
    k_deep_walk(
        v.blocks,
        head,
        if head.slot >= k {
            (head.slot - k) as u64
        } else {
            0
        },
        v.blocks.len(),
    )
}

/// Of blocks `a`, `k`, `g`, the one with the greatest slot; on equal slots the later of the three.
pub open spec fn latest_of(a: BlockModel, k: BlockModel, g: BlockModel) -> Seq<char> {
    let first = if k.slot >= a.slot {
        k
    } else {
        a
    };
    if g.slot >= first.slot {
        g.hash
    } else {
        first.hash
    }
}

/// What voting in `slot` over frozen view `f` with `n` validators and available head `ch_ava`
/// yields: the fork-choice head, the FFG source and the new available head.
pub open spec fn vote_outcome(f: ViewModel, n: u64, ch_ava: Seq<char>, slot: u64) -> Result<
    (Seq<char>, CheckpointModel, Seq<char>),
    ViewError,
> {
    let gj = greatest_justified(f, n);
    let head = ghost_head(f, filter_spec(f, slot), gj.block_hash);
    match lookup(f.blocks, head) {
        None => Err(ViewError::MissingAncestor),
        Some(hb) => match k_deep_prefix(f, hb, KAPPA) {
            Err(e) => Err(e),
            Ok(kh) => match (
                lookup(f.blocks, ch_ava),
                lookup(f.blocks, kh),
                lookup(f.blocks, gj.block_hash),
            ) {
                (Some(a), Some(k), Some(g)) => Ok((head, gj, latest_of(a, k, g))),
                _ => Err(ViewError::MissingAncestor),
            },
        },
    }
}

/// How many of the first `k` votes are cast in `slot` for head `h`.
pub open spec fn head_count(votes: Seq<VoteModel>, slot: u64, h: Seq<char>, k: nat) -> nat
    decreases k,
{
    if k == 0 || k > votes.len() {
        0
    } else {
        head_count(votes, slot, h, (k - 1) as nat) + if votes[k - 1].slot == slot
            && votes[k - 1].chain_head_hash == h {
            1nat
        } else {
            0nat
        }
    }
}

/// From vote `i` on, the head of the first vote of `slot` whose head more than two thirds of
/// `n` votes of `slot` name.
pub open spec fn fast_candidate(votes: Seq<VoteModel>, slot: u64, n: u64, i: nat) -> Option<
    Seq<char>,
>
    decreases votes.len() - i,
{
    if i >= votes.len() {
        None
    } else if votes[i as int].slot == slot && head_count(
        votes,
        slot,
        votes[i as int].chain_head_hash,
        votes.len(),
    ) > threshold(n) {
        Some(votes[i as int].chain_head_hash)
    } else {
        fast_candidate(votes, slot, n, i + 1)
    }
}

/// A validator's state: its working view, its frozen view (the baseline it votes from), its
/// available and finalized heads, the size of the validator set, and a justification cache that
/// holds results for the frozen view (see `wf`).
pub struct Node {
    pub validator: Validator,
    pub view: View,
    pub frozen_view: View,
    pub ch_ava: crate::types::Hash,
    pub ch_fin: crate::types::Hash,
    pub n_validators: u64,
    pub justification_cache: JustificationCache,
    pub finalization_cache: JustificationCache,
}

impl Node {
    /// The frozen view.
    pub open spec fn frozen(&self) -> ViewModel {
        self.frozen_view@
    }

    /// The size of the validator set.
    pub open spec fn n(&self) -> u64 {
        self.n_validators
    }

    /// The justification cache holds results for the frozen view only.
    pub open spec fn wf(&self) -> bool {
        self.justification_cache.valid_for(self.frozen_view@, self.n_validators)
    }

    /// A node for validator `id` in a set of `n_validators`, at genesis: both views hold the
    /// genesis block only, and both heads are genesis.
    pub fn new(id: ValidatorId, n_validators: u64) -> (r: Result<Node, ConfigError>)
        ensures
            n_validators == 0 ==> r == Err::<Node, ConfigError>(ConfigError::EmptyValidatorSet),
            n_validators > 0 && id >= n_validators ==> r == Err::<Node, ConfigError>(
                ConfigError::UnknownValidator,
            ),
            id < n_validators ==> (r matches Ok(node) && {
                &&& node.wf()
                &&& node.validator.id == id
                &&& node.validator.status == ValidatorStatus::Active
                &&& node.view@ == genesis_view()
                &&& node.frozen() == genesis_view()
                &&& node.ch_ava@ == genesis_hash()
                &&& node.ch_fin@ == genesis_hash()
                &&& node.n() == n_validators
            }),
    {
        if n_validators == 0 {
            return Err(ConfigError::EmptyValidatorSet);
        }
        if id >= n_validators {
            return Err(ConfigError::UnknownValidator);
        }
        let mut initial_view = View::empty();
        initial_view.insert_block(Block::genesis());
        proof {
            assert(initial_view@.blocks =~= genesis_view().blocks);
            assert(initial_view@.votes =~= genesis_view().votes);
        }
        let node = Node {
            validator: Validator { id, status: ValidatorStatus::Active },
            view: initial_view.clone(),
            frozen_view: initial_view,
            ch_ava: genesis_string(),
            ch_fin: genesis_string(),
            n_validators,
            justification_cache: JustificationCache::new(),
            finalization_cache: JustificationCache::new(),
        };
        Ok(node)
    }

    /// The frozen view.
    pub fn frozen_view(&self) -> (r: &View)
        ensures
            r@ == self.frozen(),
    {
        &self.frozen_view
    }

    /// The size of the validator set.
    pub fn n_validators(&self) -> (r: u64)
        ensures
            r == self.n(),
    {
        self.n_validators
    }

    /// Takes in a block and a vote from the network: the block joins the working view unless
    /// its hash is known; the vote is appended.
    pub fn receive_message(&mut self, block: Option<Block>, vote: Option<Vote>)
        requires
            old(self).wf(),
        ensures
            final(self).wf(),
            final(self).view@.blocks == match block {
                Some(b) => insert_absent(old(self).view@.blocks, b@),
                None => old(self).view@.blocks,
            },
            final(self).view@.votes == match vote {
                Some(v) => old(self).view@.votes.push(v@),
                None => old(self).view@.votes,
            },
            final(self).frozen() == old(self).frozen(),
            final(self).n() == old(self).n(),
            final(self).ch_ava == old(self).ch_ava,
            final(self).ch_fin == old(self).ch_fin,
            final(self).validator == old(self).validator,
    {
        if let Some(b) = block {
            self.view.insert_block(b);
        }
        if let Some(v) = vote {
            self.view.push_vote(v);
        }
    }

    /// Proposes a block for `current_slot` on the fork-choice head of the working view, taken
    /// from its greatest justified checkpoint; the block joins the working view, and the
    /// proposal carries the whole working view.
    pub fn propose(&mut self, current_slot: u64) -> (r: Proposal)
        requires
            old(self).wf(),
        ensures
            final(self).wf(),
            ({
                let v = old(self).view@;
                let gj = greatest_justified(v, old(self).n());
                let head = ghost_head(v, filter_spec(v, current_slot), gj.block_hash);
                let b = BlockModel {
                    hash: proposal_hash(current_slot, old(self).validator.id),
                    parent_hash: head,
                    slot: current_slot,
                    proposer_id: old(self).validator.id,
                    transactions: Seq::empty(),
                };
                &&& final(self).view@.blocks == insert_absent(v.blocks, b)
                &&& final(self).view@.votes == v.votes
                &&& r.chain_head_hash@ == b.hash
            }),
            r.view@ == final(self).view@,
            r.slot == current_slot,
            r.proposer_id == old(self).validator.id,
            final(self).frozen() == old(self).frozen(),
            final(self).n() == old(self).n(),
            final(self).ch_ava == old(self).ch_ava,
            final(self).ch_fin == old(self).ch_fin,
            final(self).validator == old(self).validator,
    {
        let mut cache = JustificationCache::new();
        let gjc = greatest_justified_checkpoint(&self.view, self.n_validators, &mut cache);
        let head_hash = rlmd_ghost_fork_choice(&self.view, gjc.block_hash, current_slot);
        let new_block = Block {
            hash: proposal_hash_string(current_slot, self.validator.id),
            parent_hash: head_hash,
            slot: current_slot,
            proposer_id: self.validator.id,
            transactions: Vec::new(),
        };
        assert(new_block@.transactions =~= Seq::<Transaction>::empty());
        let chain_head_hash = new_block.hash.clone();
        self.view.insert_block(new_block);
        Proposal {
            chain_head_hash,
            view: self.view.clone(),
            slot: current_slot,
            proposer_id: self.validator.id,
        }
    }

    /// Takes in another validator's proposal: its blocks join the frozen view, each unless its
    /// hash is known, and its votes are appended. The justification cache is cleared, as the
    /// frozen view changed.
    pub fn on_receive_proposal(&mut self, proposal: &Proposal)
        requires
            old(self).wf(),
        ensures
            final(self).wf(),
            final(self).frozen().blocks == insert_all(
                old(self).frozen().blocks,
                proposal.view@.blocks,
            ),
            final(self).frozen().votes == old(self).frozen().votes + proposal.view@.votes,
            final(self).view == old(self).view,
            final(self).n() == old(self).n(),
            final(self).ch_ava == old(self).ch_ava,
            final(self).ch_fin == old(self).ch_fin,
            final(self).validator == old(self).validator,
    {
        let ghost old_frozen = self.frozen_view@;
        let ghost new_blocks = proposal.view@.blocks;
        let ghost new_votes = proposal.view@.votes;
        let mut i: usize = 0;
        assert(new_blocks.take(0) =~= Seq::<BlockModel>::empty());
        while i < proposal.view.blocks.len()
            invariant
                i <= proposal.view.blocks@.len(),
                new_blocks == proposal.view@.blocks,
                self.frozen_view@.blocks == insert_all(old_frozen.blocks, new_blocks.take(i as int)),
                self.frozen_view@.votes == old_frozen.votes,
                self.view == old(self).view,
                self.n_validators == old(self).n_validators,
                self.ch_ava == old(self).ch_ava,
                self.ch_fin == old(self).ch_fin,
                self.validator == old(self).validator,
            decreases proposal.view.blocks.len() - i,
        {
            self.frozen_view.insert_block(proposal.view.blocks[i].clone());
            assert(new_blocks.take(i + 1).drop_last() =~= new_blocks.take(i as int));
            i = i + 1;
        }
        assert(new_blocks.take(i as int) =~= new_blocks);
        let mut j: usize = 0;
        while j < proposal.view.votes.len()
            invariant
                j <= proposal.view.votes@.len(),
                new_votes == proposal.view@.votes,
                self.frozen_view@.blocks == insert_all(old_frozen.blocks, new_blocks),
                self.frozen_view@.votes == old_frozen.votes + new_votes.take(j as int),
                self.view == old(self).view,
                self.n_validators == old(self).n_validators,
                self.ch_ava == old(self).ch_ava,
                self.ch_fin == old(self).ch_fin,
                self.validator == old(self).validator,
            decreases proposal.view.votes.len() - j,
        {
            self.frozen_view.push_vote(proposal.view.votes[j].clone());
            assert(old_frozen.votes + new_votes.take(j + 1) =~= (old_frozen.votes + new_votes.take(
                j as int,
            )).push(new_votes[j as int]));
            j = j + 1;
        }
        assert(new_votes.take(j as int) =~= new_votes);
        self.justification_cache.clear();
    }

    /// Casts this validator's vote for `current_slot` from the frozen view: the head is the
    /// fork-choice head from the greatest justified checkpoint; the available head moves to
    /// whichever of itself, the head's k-deep prefix and the checkpoint's block has the greatest
    /// slot; the FFG link goes from that checkpoint to the new available head at
    /// `current_slot`. Where a block that this needs is missing from the frozen view, or an
    /// ancestry walk loops, the error is returned and the available head stays.
    pub fn vote(&mut self, current_slot: u64) -> (r: Result<Vote, ViewError>)
        requires
            old(self).wf(),
        ensures
            final(self).wf(),
            match (r, vote_outcome(old(self).frozen(), old(self).n(), old(self).ch_ava@, current_slot)) {
                (Ok(x), Ok((head, source, ava))) => {
                    &&& x@ == VoteModel {
                        chain_head_hash: head,
                        source,
                        target: CheckpointModel { block_hash: ava, slot: current_slot },
                        slot: current_slot,
                        validator_id: old(self).validator.id,
                    }
                    &&& final(self).ch_ava@ == ava
                },
                (Err(e), Err(e2)) => e == e2 && final(self).ch_ava == old(self).ch_ava,
                _ => false,
            },
            final(self).view == old(self).view,
            final(self).frozen() == old(self).frozen(),
            final(self).n() == old(self).n(),
            final(self).ch_fin == old(self).ch_fin,
            final(self).validator == old(self).validator,
    {
        let gjc = greatest_justified_checkpoint(
            &self.frozen_view,
            self.n_validators,
            &mut self.justification_cache,
        );
        let head_hash = rlmd_ghost_fork_choice(
            &self.frozen_view,
            gjc.block_hash.clone(),
            current_slot,
        );
        let hi = match find_block(&self.frozen_view, &head_hash) {
            None => {
                return Err(ViewError::MissingAncestor);
            },
            Some(i) => i,
        };
        let k_deep = match self.get_k_deep_prefix(&self.frozen_view.blocks[hi], KAPPA) {
            Err(e) => {
                return Err(e);
            },
            Ok(h) => h,
        };
        let ai = find_block(&self.frozen_view, &self.ch_ava);
        let ki = find_block(&self.frozen_view, &k_deep);
        let gi = find_block(&self.frozen_view, &gjc.block_hash);
        let (a, k, g) = match (ai, ki, gi) {
            (Some(a), Some(k), Some(g)) => (a, k, g),
            _ => {
                return Err(ViewError::MissingAncestor);
            },
        };
        let first = if self.frozen_view.blocks[k].slot >= self.frozen_view.blocks[a].slot {
            k
        } else {
            a
        };
        let pick = if self.frozen_view.blocks[g].slot >= self.frozen_view.blocks[first].slot {
            g
        } else {
            first
        };
        self.ch_ava = self.frozen_view.blocks[pick].hash.clone();
        let target = Checkpoint { block_hash: self.ch_ava.clone(), slot: current_slot };
        Ok(
            Vote {
                chain_head_hash: head_hash,
                source: gjc,
                target,
                slot: current_slot,
                validator_id: self.validator.id,
            },
        )
    }

    /// Fast confirmation: where more than two thirds of the validator set voted for one head in
    /// `current_slot` (counting the votes of the working view), the available head moves to it;
    /// of several such heads, the one named first. The finalized head is left as it is.
    pub fn fast_confirm(&mut self, current_slot: u64)
        requires
            old(self).wf(),
        ensures
            final(self).wf(),
            final(self).ch_ava@ == match fast_candidate(
                old(self).view@.votes,
                current_slot,
                old(self).n(),
                0,
            ) {
                Some(h) => h,
                None => old(self).ch_ava@,
            },
            final(self).view == old(self).view,
            final(self).frozen() == old(self).frozen(),
            final(self).n() == old(self).n(),
            final(self).ch_fin == old(self).ch_fin,
            final(self).validator == old(self).validator,
    {
        let ghost vs = self.view@.votes;
        let n = self.n_validators;
        let mut i: usize = 0;
        while i < self.view.votes.len()
            invariant
                i <= self.view.votes@.len(),
                *self == *old(self),
                self.wf(),
                vs == self.view@.votes,
                n == self.n_validators,
                fast_candidate(vs, current_slot, n, 0) == fast_candidate(
                    vs,
                    current_slot,
                    n,
                    i as nat,
                ),
            decreases self.view.votes.len() - i,
        {
            if self.view.votes[i].slot == current_slot {
                let count = count_head_votes(&self.view, current_slot, &self.view.votes[i].chain_head_hash);
                if (count as u128) > (2 * (n as u128)) / 3 {
                    self.ch_ava = self.view.votes[i].chain_head_hash.clone();
                    return;
                }
            }
            i = i + 1;
        }
    }

    /// Ends the slot: the frozen view becomes a copy of the working view, and both caches are
    /// cleared.
    pub fn merge(&mut self)
        requires
            old(self).wf(),
        ensures
            final(self).wf(),
            final(self).frozen() == old(self).view@,
            final(self).view == old(self).view,
            final(self).n() == old(self).n(),
            final(self).ch_ava == old(self).ch_ava,
            final(self).ch_fin == old(self).ch_fin,
            final(self).validator == old(self).validator,
    {
        self.frozen_view = self.view.clone();
        self.justification_cache.clear();
        self.finalization_cache.clear();
    }

    /// The k-deep prefix of `head_block` in the frozen view: walking up while the slot is above
    /// `head_block.slot - k` and a parent exists.
    fn get_k_deep_prefix(&self, head_block: &Block, k: u64) -> (r: Result<
        crate::types::Hash,
        ViewError,
    >)
        ensures
            match (r, k_deep_prefix(self.frozen(), head_block@, k)) {
                (Ok(h), Ok(h2)) => h@ == h2,
                (Err(e), Err(e2)) => e == e2,
                _ => false,
            },
    {
        let null = null_string();
        let bound = head_block.slot.saturating_sub(k);
        let mut current = head_block.clone();
        let mut fuel: usize = self.frozen_view.blocks.len();
        loop
            invariant
                null@ == null_hash(),
                bound == (if head_block.slot >= k {
                    (head_block.slot - k) as u64
                } else {
                    0
                }),
                fuel <= self.frozen_view.blocks@.len(),
                k_deep_walk(self.frozen_view@.blocks, current@, bound, fuel as nat) == k_deep_prefix(
                    self.frozen(),
                    head_block@,
                    k,
                ),
            decreases fuel,
        {
            if current.slot <= bound || current.parent_hash == null {
                return Ok(current.hash);
            }
            if fuel == 0 {
                return Err(ViewError::AncestryCycle);
            }
            match find_block(&self.frozen_view, &current.parent_hash) {
                None => {
                    return Err(ViewError::MissingAncestor);
                },
                Some(i) => {
                    current = self.frozen_view.blocks[i].clone();
                    fuel = fuel - 1;
                },
            }
        }
    }
}

/// How many votes of `view` are cast in `slot` for head `h`.
fn count_head_votes(view: &View, slot: u64, h: &crate::types::Hash) -> (r: usize)
    ensures
        r == head_count(view@.votes, slot, h@, view@.votes.len()),
{
    let mut count: usize = 0;
    let mut i: usize = 0;
    while i < view.votes.len()
        invariant
            i <= view.votes@.len(),
            count == head_count(view@.votes, slot, h@, i as nat),
            count <= i,
        decreases view.votes.len() - i,
    {
        if view.votes[i].slot == slot && view.votes[i].chain_head_hash == *h {
            count = count + 1;
        }
        i = i + 1;
    }
    count
}

} // verus!
