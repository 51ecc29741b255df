//! RLMD-GHOST fork choice: filter the votes, then walk down the block tree along the heaviest
//! subtree.
use vstd::prelude::*;
use vstd::view::View as HasView;
use crate::constants::ETA;
use crate::ffg::at_or_before;
use crate::types::{
    find_block, hash_less, hash_lt, lemma_lookup_entry, lookup, votes_model, Block, BlockModel, View, ViewModel,
    Vote, VoteModel,
};

verus! {

/// The oldest slot whose votes still count at slot `t`.
pub open spec fn expiry_floor(t: u64) -> u64 {
    if t >= ETA {
        (t - ETA) as u64
    } else {
        0
    }
}

/// Vote `x` has not expired at slot `t`.
pub open spec fn fresh(x: VoteModel, t: u64) -> bool {
    x.slot >= expiry_floor(t)
}

/// Among the first `k` votes, the earliest fresh vote of validator `id` at the greatest slot
/// that its fresh votes reach.
pub open spec fn latest(votes: Seq<VoteModel>, t: u64, id: u64, k: nat) -> Option<VoteModel>
    decreases k,
{
    if k == 0 || k > votes.len() {
        None
    } else {
        let before = latest(votes, t, id, (k - 1) as nat);
        let x = votes[k - 1];
        if x.validator_id == id && fresh(x, t) && (before is None || x.slot > before.unwrap().slot) {
            Some(x)
        } else {
            before
        }
    }
}

/// The latest fresh vote of validator `id`.
pub open spec fn latest_vote(votes: Seq<VoteModel>, t: u64, id: u64) -> Option<VoteModel> {
    latest(votes, t, id, votes.len())
}

/// Validator `id` equivocates: a fresh vote of it at its latest slot names another head than
/// its latest vote.
pub open spec fn equivocates(votes: Seq<VoteModel>, t: u64, id: u64) -> bool {
    match latest_vote(votes, t, id) {
        None => false,
        Some(l) => exists|j: int|
            0 <= j < votes.len() && #[trigger] votes[j].validator_id == id && fresh(votes[j], t)
                && votes[j].slot == l.slot && votes[j].chain_head_hash != l.chain_head_hash,
    }
}

/// Vote `i` is the first fresh vote of its validator.
pub open spec fn first_fresh(votes: Seq<VoteModel>, t: u64, i: int) -> bool {
    fresh(votes[i], t) && forall|j: int|
        0 <= j < i ==> !(#[trigger] votes[j].validator_id == votes[i].validator_id && fresh(
            votes[j],
            t,
        ))
}

/// The filtered votes among the first `k`: for each validator, in the order of its first fresh
/// vote, its latest fresh vote, unless it equivocates.
pub open spec fn filtered(votes: Seq<VoteModel>, t: u64, k: nat) -> Seq<VoteModel>
    decreases k,
{
    if k == 0 || k > votes.len() {
        Seq::empty()
    } else {
        let before = filtered(votes, t, (k - 1) as nat);
        let id = votes[k - 1].validator_id;
        if first_fresh(votes, t, k - 1) && !equivocates(votes, t, id) {
            before.push(latest_vote(votes, t, id).unwrap())
        } else {
            before
        }
    }
}

/// The votes of view `v` that count for fork choice at slot `t`.
pub open spec fn filter_spec(v: ViewModel, t: u64) -> Seq<VoteModel> {
    filtered(v.votes, t, v.votes.len())
}

/// Vote `x` counts for block `c`: it names `c` or a descendant of `c` that is in the view.
pub open spec fn supports_block(c: BlockModel, x: VoteModel, v: ViewModel) -> bool {
    match lookup(v.blocks, x.chain_head_hash) {
        Some(hb) => at_or_before(c, hb, v),
        None => false,
    }
}

/// How many of the first `k` votes of `fv` count for block `c`.
pub open spec fn weight(c: BlockModel, fv: Seq<VoteModel>, v: ViewModel, k: nat) -> nat
    decreases k,
{
    if k == 0 || k > fv.len() {
        0
    } else {
        weight(c, fv, v, (k - 1) as nat) + if supports_block(c, fv[k - 1], v) {
            1nat
        } else {
            0nat
        }
    }
}

/// The winning child is one of the block entries, and a child of `cur`.
proof fn lemma_best_child_entry(v: ViewModel, fv: Seq<VoteModel>, cur: Seq<char>, k: nat)
    requires
        best_child(v, fv, cur, k) is Some,
    ensures
        exists|i: int|
            0 <= i < k && i < v.blocks.len() && v.blocks[i] == best_child(v, fv, cur, k).unwrap(),
        best_child(v, fv, cur, k).unwrap().parent_hash == cur,
    decreases k,
{
    let before = best_child(v, fv, cur, (k - 1) as nat);
    if best_child(v, fv, cur, k) != before {
        assert(v.blocks[k - 1] == best_child(v, fv, cur, k).unwrap());
    } else {
        lemma_best_child_entry(v, fv, cur, (k - 1) as nat);
    }
}

/// A GHOST walk ends where it started or at a hash that has a block in the view.
proof fn lemma_ghost_walk_in_view(v: ViewModel, fv: Seq<VoteModel>, cur: Seq<char>, fuel: nat)
    ensures
        ghost_walk(v, fv, cur, fuel) == cur || lookup(v.blocks, ghost_walk(v, fv, cur, fuel)) is Some,
    decreases fuel,
{
    if fuel > 0 {
        if let Some(c) = best_child(v, fv, cur, v.blocks.len()) {
            lemma_best_child_entry(v, fv, cur, v.blocks.len());
            let i = choose|i: int| 0 <= i < v.blocks.len() && v.blocks[i] == c;
            lemma_lookup_entry(v.blocks, i);
            lemma_ghost_walk_in_view(v, fv, c.hash, (fuel - 1) as nat);
        }
    }
}

/// Fork choice started from a hash with a block in the view ends at a hash with a block in
/// the view. (It always ends: each step goes down to a child, at most once per block entry.)
pub proof fn lemma_fork_choice_in_view(v: ViewModel, t: u64, start: Seq<char>)
    requires
        lookup(v.blocks, start) is Some,
    ensures
        lookup(v.blocks, ghost_head(v, filter_spec(v, t), start)) is Some,
{
    lemma_ghost_walk_in_view(v, filter_spec(v, t), start, v.blocks.len());
}

/// A latest vote belongs to the validator it was asked for.
proof fn lemma_latest_owner(votes: Seq<VoteModel>, t: u64, id: u64, k: nat)
    requires
        latest(votes, t, id, k) is Some,
    ensures
        latest(votes, t, id, k).unwrap().validator_id == id,
    decreases k,
{
    if latest(votes, t, id, k) == latest(votes, t, id, (k - 1) as nat) {
        lemma_latest_owner(votes, t, id, (k - 1) as nat);
    }
}

/// Every filtered vote among the first `k` belongs to a validator that does not equivocate.
proof fn lemma_filtered_honest(votes: Seq<VoteModel>, t: u64, k: nat)
    ensures
        forall|j: int|
            0 <= j < filtered(votes, t, k).len() ==> !equivocates(
                votes,
                t,
                #[trigger] filtered(votes, t, k)[j].validator_id,
            ),
    decreases k,
{
    if k > 0 && k <= votes.len() {
        lemma_filtered_honest(votes, t, (k - 1) as nat);
        let id = votes[k - 1].validator_id;
        let before = filtered(votes, t, (k - 1) as nat);
        if first_fresh(votes, t, k - 1) && !equivocates(votes, t, id) {
            lemma_fresh_has_latest(votes, t, k - 1, votes.len());
            lemma_latest_owner(votes, t, id, votes.len());
        }
        assert forall|j: int|
            0 <= j < filtered(votes, t, k).len() implies !equivocates(
            votes,
            t,
            #[trigger] filtered(votes, t, k)[j].validator_id,
        ) by {
            if j < before.len() {
                assert(filtered(votes, t, k)[j] == before[j]);
            }
        }
    }
}

/// An equivocating validator has no vote among those that count for fork choice at slot `t`,
/// so its votes add no weight to any block there.
pub proof fn lemma_equivocator_excluded(v: ViewModel, t: u64, id: u64)
    requires
        equivocates(v.votes, t, id),
    ensures
        forall|j: int|
            0 <= j < filter_spec(v, t).len() ==> #[trigger] filter_spec(v, t)[j].validator_id
                != id,
{
    lemma_filtered_honest(v.votes, t, v.votes.len());
}

/// How many votes of `fv` count for the subtree of block `c`.
pub open spec fn subtree_weight(c: BlockModel, fv: Seq<VoteModel>, v: ViewModel) -> nat {
    weight(c, fv, v, fv.len())
}

/// Block `a` wins over block `b`: more weight, or equal weight and a smaller hash.
pub open spec fn heavier(a: BlockModel, b: BlockModel, fv: Seq<VoteModel>, v: ViewModel) -> bool {
    subtree_weight(a, fv, v) > subtree_weight(b, fv, v) || (subtree_weight(a, fv, v)
        == subtree_weight(b, fv, v) && hash_lt(a.hash, b.hash))
}

/// The winning child of hash `cur` among the first `k` block entries of `v`.
pub open spec fn best_child(v: ViewModel, fv: Seq<VoteModel>, cur: Seq<char>, k: nat) -> Option<
    BlockModel,
>
    decreases k,
{
    if k == 0 || k > v.blocks.len() {
        None
    } else {
        let before = best_child(v, fv, cur, (k - 1) as nat);
        let b = v.blocks[k - 1];
        if b.parent_hash == cur && (before is None || heavier(b, before.unwrap(), fv, v)) {
            Some(b)
        } else {
            before
        }
    }
}

/// From `cur`, steps down to the winning child at most `fuel` times, stopping at a block with
/// no child.
pub open spec fn ghost_walk(v: ViewModel, fv: Seq<VoteModel>, cur: Seq<char>, fuel: nat) -> Seq<
    char,
>
    decreases fuel,
{
    if fuel == 0 {
        cur
    } else {
        match best_child(v, fv, cur, v.blocks.len()) {
            None => cur,
            Some(c) => ghost_walk(v, fv, c.hash, (fuel - 1) as nat),
        }
    }
}

/// The head that GHOST picks from `start` with votes `fv`: one step per block entry at most.
pub open spec fn ghost_head(v: ViewModel, fv: Seq<VoteModel>, start: Seq<char>) -> Seq<char> {
    ghost_walk(v, fv, start, v.blocks.len())
}

/// The latest fresh vote of validator `id`, by position.
fn latest_index(votes: &Vec<Vote>, t: u64, id: u64) -> (r: Option<usize>)
    ensures
        match r {
            Some(j) => j < votes@.len() && latest_vote(votes_model(votes@), t, id) == Some(
                votes@[j as int]@,
            ),
            None => latest_vote(votes_model(votes@), t, id) is None,
        },
{
    let ghost vs = votes_model(votes@);
    let floor = t.saturating_sub(ETA);
    let mut best: Option<usize> = None;
    let mut i: usize = 0;
    while i < votes.len()
        invariant
            i <= votes@.len(),
            vs == votes_model(votes@),
            floor == expiry_floor(t),
            match best {
                Some(j) => j < i && latest(vs, t, id, i as nat) == Some(votes@[j as int]@),
                None => latest(vs, t, id, i as nat) is None,
            },
        decreases votes.len() - i,
    {
        let x = &votes[i];
        if x.validator_id == id && x.slot >= floor {
            match best {
                None => {
                    best = Some(i);
                },
                Some(j) => {
                    if x.slot > votes[j].slot {
                        best = Some(i);
                    }
                },
            }
        }
        i = i + 1;
    }
    best
}

/// Whether validator `id`, whose latest fresh vote is at position `l`, equivocates.
fn equivocates_exec(votes: &Vec<Vote>, t: u64, id: u64, l: usize) -> (r: bool)
    requires
        l < votes@.len(),
        latest_vote(votes_model(votes@), t, id) == Some(votes@[l as int]@),
    ensures
        r == equivocates(votes_model(votes@), t, id),
{
    let ghost vs = votes_model(votes@);
    let floor = t.saturating_sub(ETA);
    let mut i: usize = 0;
    while i < votes.len()
        invariant
            i <= votes@.len(),
            l < votes@.len(),
            vs == votes_model(votes@),
            latest_vote(vs, t, id) == Some(vs[l as int]),
            floor == expiry_floor(t),
            forall|j: int|
                0 <= j < i ==> !(#[trigger] vs[j].validator_id == id && fresh(vs[j], t)
                    && vs[j].slot == vs[l as int].slot && vs[j].chain_head_hash
                    != vs[l as int].chain_head_hash),
        decreases votes.len() - i,
    {
        let x = &votes[i];
        if x.validator_id == id && x.slot >= floor && x.slot == votes[l].slot && !(x.chain_head_hash
            == votes[l].chain_head_hash) {
            assert(vs[i as int].validator_id == id && fresh(vs[i as int], t) && vs[i as int].slot
                == vs[l as int].slot && vs[i as int].chain_head_hash != vs[l as int].chain_head_hash);
            assert(latest_vote(vs, t, id) == Some(vs[l as int]));
            assert(equivocates(vs, t, id));
            return true;
        }
        i = i + 1;
    }
    false
}

/// Whether vote `i` is the first fresh vote of its validator.
fn first_fresh_exec(votes: &Vec<Vote>, t: u64, i: usize) -> (r: bool)
    requires
        i < votes@.len(),
    ensures
        r == first_fresh(votes_model(votes@), t, i as int),
{
    let ghost vs = votes_model(votes@);
    let floor = t.saturating_sub(ETA);
    if votes[i].slot < floor {
        return false;
    }
    let id = votes[i].validator_id;
    let mut j: usize = 0;
    while j < i
        invariant
            j <= i < votes@.len(),
            vs == votes_model(votes@),
            floor == expiry_floor(t),
            id == vs[i as int].validator_id,
            forall|k: int| 0 <= k < j ==> !(#[trigger] vs[k].validator_id == id && fresh(vs[k], t)),
        decreases i - j,
    {
        if votes[j].validator_id == id && votes[j].slot >= floor {
            assert(vs[j as int].validator_id == id);
            return false;
        }
        j = j + 1;
    }
    true
}

/// The votes of `view` that count for fork choice at `current_slot`: for each validator, in
/// the order of its first unexpired vote, its latest unexpired vote (the earliest one at that
/// slot); validators that name two heads at their latest slot are left out.
pub fn filter_rlmd_votes(view: &View, current_slot: u64) -> (r: Vec<Vote>)
    ensures
        votes_model(r@) == filter_spec(view@, current_slot),
{
    let ghost vs = view@.votes;
    let mut out: Vec<Vote> = Vec::new();
    let mut i: usize = 0;
    while i < view.votes.len()
        invariant
            i <= view.votes@.len(),
            vs == view@.votes,
            votes_model(out@) == filtered(vs, current_slot, i as nat),
        decreases view.votes.len() - i,
    {
        if first_fresh_exec(&view.votes, current_slot, i) {
            let id = view.votes[i].validator_id;
            match latest_index(&view.votes, current_slot, id) {
                Some(l) => {
                    if !equivocates_exec(&view.votes, current_slot, id, l) {
                        let x = view.votes[l].clone();
                        let ghost prev = out@;
                        out.push(x);
                        assert(votes_model(out@) =~= votes_model(prev).push(x@));
                    }
                },
                None => {
                    proof {
                        lemma_fresh_has_latest(vs, current_slot, i as int, vs.len());
                    }
                },
            }
        }
        i = i + 1;
    }
    out
}

/// A fresh vote among the first `k` gives its validator a latest vote.
proof fn lemma_fresh_has_latest(votes: Seq<VoteModel>, t: u64, i: int, k: nat)
    requires
        0 <= i < k <= votes.len(),
        fresh(votes[i], t),
    ensures
        latest(votes, t, votes[i].validator_id, k) is Some,
    decreases k,
{
    if i < k - 1 {
        lemma_fresh_has_latest(votes, t, i, (k - 1) as nat);
    }
}

/// How many votes of `fv` count for the subtree of block `c` of `view`.
fn weight_exec(view: &View, fv: &Vec<Vote>, c: &Block) -> (r: usize)
    ensures
        r == subtree_weight(c@, votes_model(fv@), view@),
{
    let ghost f = votes_model(fv@);
    let mut count: usize = 0;
    let mut i: usize = 0;
    while i < fv.len()
        invariant
            i <= fv@.len(),
            f == votes_model(fv@),
            count == weight(c@, f, view@, i as nat),
            count <= i,
        decreases fv.len() - i,
    {
        let counts = match find_block(view, &fv[i].chain_head_hash) {
            Some(h) => {
                let hb = &view.blocks[h];
                c.hash == hb.hash || match c.is_ancestor_of(hb, view) {
                    Ok(b) => b,
                    Err(_) => false,
                }
            },
            None => false,
        };
        if counts {
            count = count + 1;
        }
        i = i + 1;
    }
    count
}

/// The position of the winning child of `cur` in `view`, if `cur` has a child.
fn best_child_exec(view: &View, fv: &Vec<Vote>, cur: &crate::types::Hash) -> (r: Option<usize>)
    ensures
        match r {
            Some(i) => i < view.blocks@.len() && best_child(
                view@,
                votes_model(fv@),
                cur@,
                view@.blocks.len(),
            ) == Some(view@.blocks[i as int]),
            None => best_child(view@, votes_model(fv@), cur@, view@.blocks.len()) is None,
        },
{
    let ghost f = votes_model(fv@);
    let mut best: Option<(usize, usize)> = None;
    let mut k: usize = 0;
    while k < view.blocks.len()
        invariant
            k <= view.blocks@.len(),
            f == votes_model(fv@),
            match best {
                Some((i, w)) => i < k && best_child(view@, f, cur@, k as nat) == Some(
                    view@.blocks[i as int],
                ) && w == subtree_weight(view@.blocks[i as int], f, view@),
                None => best_child(view@, f, cur@, k as nat) is None,
            },
        decreases view.blocks.len() - k,
    {
        let b = &view.blocks[k];
        if b.parent_hash == *cur {
            let w = weight_exec(view, fv, b);
            match best {
                None => {
                    best = Some((k, w));
                },
                Some((i, bw)) => {
                    if w > bw || (w == bw && hash_less(&b.hash, &view.blocks[i].hash)) {
                        best = Some((k, w));
                    }
                },
            }
        }
        k = k + 1;
    }
    match best {
        Some((i, _)) => Some(i),
        None => None,
    }
}

/// The GHOST rule: from `start_hash`, step to the child whose subtree the votes `filtered_votes`
/// support most (ties to the smaller hash) until a block has no child; at most one step per
/// block entry of `view`.
pub fn ghost(view: &View, filtered_votes: &Vec<Vote>, start_hash: crate::types::Hash) -> (r: crate::types::Hash)
    ensures
        r@ == ghost_head(view@, votes_model(filtered_votes@), start_hash@),
{
    let ghost f = votes_model(filtered_votes@);
    let mut current = start_hash;
    let mut fuel: usize = view.blocks.len();
    loop
        invariant
            fuel <= view.blocks@.len(),
            f == votes_model(filtered_votes@),
            ghost_walk(view@, f, current@, fuel as nat) == ghost_head(view@, f, start_hash@),
        decreases fuel,
    {
        if fuel == 0 {
            return current;
        }
        match best_child_exec(view, filtered_votes, &current) {
            None => {
                return current;
            },
            Some(i) => {
                current = view.blocks[i].hash.clone();
                fuel = fuel - 1;
            },
        }
    }
}

/// RLMD-GHOST: filter the votes of `view` for `current_slot`, then run GHOST from `start_hash`.
pub fn rlmd_ghost_fork_choice(view: &View, start_hash: crate::types::Hash, current_slot: u64) -> (r:
    crate::types::Hash)
    ensures
        r@ == ghost_head(view@, filter_spec(view@, current_slot), start_hash@),
{
    let filtered_votes = filter_rlmd_votes(view, current_slot);
    ghost(view, &filtered_votes, start_hash)
}

} // verus!
