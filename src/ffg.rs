//! Checkpoint justification: which checkpoints a view justifies, and the greatest of them.
use vstd::prelude::*;
use vstd::view::View as HasView;
use crate::types::{
    ancestor_result, ancestry_walk, null_hash, genesis_hash, genesis_string, hash_less, hash_lt, lookup, find_block,
    BlockModel, Checkpoint, CheckpointModel, View, ViewError, ViewModel,
};

verus! {

/// The number of distinct supporters a checkpoint must exceed: two thirds of `n`, rounded down.
pub open spec fn threshold(n: u64) -> int {
    (2 * n as int) / 3
}

/// The genesis checkpoint.
pub open spec fn genesis_checkpoint() -> CheckpointModel {
    CheckpointModel { block_hash: genesis_hash(), slot: 0 }
}

/// `lo` is `hi` or one of its ancestors.
pub open spec fn at_or_before(lo: BlockModel, hi: BlockModel, v: ViewModel) -> bool {
    lo.hash == hi.hash || ancestor_result(lo, hi, v) == Ok::<bool, ViewError>(true)
}

/// Vote `vote` links into checkpoint `c` in view `v`, leaving aside whether its source is
/// justified: it targets `c`'s slot, its source lies in an earlier slot, the three blocks are in
/// the view, and source block <= `c`'s block <= target block in ancestry order.
pub open spec fn link_fits(c: CheckpointModel, vote: crate::types::VoteModel, v: ViewModel) -> bool {
    &&& vote.target.slot == c.slot
    &&& vote.source.slot < c.slot
    &&& match (
        lookup(v.blocks, vote.source.block_hash),
        lookup(v.blocks, c.block_hash),
        lookup(v.blocks, vote.target.block_hash),
    ) {
        (Some(sb), Some(cb), Some(tb)) => at_or_before(sb, cb, v) && at_or_before(cb, tb, v),
        _ => false,
    }
}

/// The validators that cast one of the first `k` votes of `v` in support of checkpoint `c`.
pub open spec fn supporters(c: CheckpointModel, v: ViewModel, n: u64, k: nat) -> Set<u64>
    decreases c.slot, k,
{
    if k == 0 || k > v.votes.len() {
        Set::empty()
    } else {
        let before = supporters(c, v, n, (k - 1) as nat);
        let vote = v.votes[k - 1];
        if link_fits(c, vote, v) && justified(vote.source, v, n) {
            before.insert(vote.validator_id)
        } else {
            before
        }
    }
}

/// Checkpoint `c` is justified in view `v` with `n` validators: it is the genesis checkpoint,
/// or more than two thirds of `n` distinct validators voted a link into it from a justified
/// source.
pub open spec fn justified(c: CheckpointModel, v: ViewModel, n: u64) -> bool
    decreases c.slot, v.votes.len() + 1,
{
    c == genesis_checkpoint() || supporters(c, v, n, v.votes.len() as nat).len() > threshold(n)
}

/// Checkpoint `a` ranks above `b`: a later slot, or the same slot and a smaller hash.
pub open spec fn better(a: CheckpointModel, b: CheckpointModel) -> bool {
    a.slot > b.slot || (a.slot == b.slot && hash_lt(a.block_hash, b.block_hash))
}

/// The highest-ranked justified source among the first `k` votes of `v`; on equal rank the
/// earlier vote's source.
pub open spec fn best_source(v: ViewModel, n: u64, k: nat) -> Option<CheckpointModel>
    decreases k,
{
    if k == 0 || k > v.votes.len() {
        None
    } else {
        let before = best_source(v, n, (k - 1) as nat);
        let s = v.votes[k - 1].source;
        if justified(s, v, n) && (before is None || better(s, before.unwrap())) {
            Some(s)
        } else {
            before
        }
    }
}

/// The greatest justified checkpoint of `v`: the highest-ranked justified vote source, or the
/// genesis checkpoint when there is none.
pub open spec fn greatest_justified(v: ViewModel, n: u64) -> CheckpointModel {
    match best_source(v, n, v.votes.len() as nat) {
        Some(c) => c,
        None => genesis_checkpoint(),
    }
}

/// Memoized justification results, each one true of the view it was computed for.
pub struct JustificationCache {
    entries: Vec<(Checkpoint, bool)>,
}

impl JustificationCache {
    /// Every recorded result is the justification of its checkpoint in `v` with `n` validators.
    pub closed spec fn valid_for(&self, v: ViewModel, n: u64) -> bool {
        forall|i: int|
            0 <= i < self.entries@.len() ==> #[trigger] self.entries@[i].1 == justified(
                self.entries@[i].0@,
                v,
                n,
            )
    }

    /// An empty cache, valid for every view.
    pub fn new() -> (r: JustificationCache)
        ensures
            forall|v: ViewModel, n: u64| #[trigger] r.valid_for(v, n),
    {
        JustificationCache { entries: Vec::new() }
    }

    /// Forgets every result; the cache is then valid for every view.
    pub fn clear(&mut self)
        ensures
            forall|v: ViewModel, n: u64| #[trigger] final(self).valid_for(v, n),
    {
        self.entries = Vec::new();
    }

    /// The number of recorded results.
    pub fn len(&self) -> usize {
        self.entries.len()
    }

    fn get(&self, c: &Checkpoint, Ghost(v): Ghost<ViewModel>, Ghost(n): Ghost<u64>) -> (r: Option<
        bool,
    >)
        requires
            self.valid_for(v, n),
        ensures
            r matches Some(b) ==> b == justified(c@, v, n),
    {
        let mut i: usize = 0;
        while i < self.entries.len()
            invariant
                self.valid_for(v, n),
            decreases self.entries.len() - i,
        {
            if self.entries[i].0 == *c {
                return Some(self.entries[i].1);
            }
            i = i + 1;
        }
        None
    }

    fn record(&mut self, c: Checkpoint, b: bool, Ghost(v): Ghost<ViewModel>, Ghost(n): Ghost<u64>)
        requires
            old(self).valid_for(v, n),
            b == justified(c@, v, n),
        ensures
            final(self).valid_for(v, n),
    {
        self.entries.push((c, b));
    }
}

fn contains_id(ids: &Vec<u64>, x: u64) -> (r: bool)
    ensures
        r == ids@.contains(x),
{
    let mut i: usize = 0;
    while i < ids.len()
        invariant
            forall|j: int| 0 <= j < i ==> ids@[j] != x,
        decreases ids.len() - i,
    {
        if ids[i] == x {
            return true;
        }
        i = i + 1;
    }
    false
}

/// Whether `lo` is `hi` or one of its ancestors; false where ancestry cannot be decided.
fn at_or_before_exec(lo: &crate::types::Block, hi: &crate::types::Block, view: &View) -> (r: bool)
    ensures
        r == at_or_before(lo@, hi@, view@),
{
    if lo.hash == hi.hash {
        return true;
    }
    match lo.is_ancestor_of(hi, view) {
        Ok(b) => b,
        Err(_) => false,
    }
}

/// Whether vote `i` of `view` links into `checkpoint`, leaving aside its source.
fn link_fits_exec(checkpoint: &Checkpoint, view: &View, i: usize) -> (r: bool)
    requires
        i < view.votes@.len(),
    ensures
        r == link_fits(checkpoint@, view@.votes[i as int], view@),
{
    let vote = &view.votes[i];
    if vote.target.slot != checkpoint.slot || vote.source.slot >= checkpoint.slot {
        return false;
    }
    let sb = find_block(view, &vote.source.block_hash);
    let cb = find_block(view, &checkpoint.block_hash);
    let tb = find_block(view, &vote.target.block_hash);
    match (sb, cb, tb) {
        (Some(s), Some(c), Some(t)) => {
            at_or_before_exec(&view.blocks[s], &view.blocks[c], view) && at_or_before_exec(
                &view.blocks[c],
                &view.blocks[t],
                view,
            )
        },
        _ => false,
    }
}

/// Whether `checkpoint` is justified in `view` with `n_validators` validators, using and
/// extending `justification_cache`, which must hold results for this view only.
pub fn is_justified(
    checkpoint: &Checkpoint,
    view: &View,
    n_validators: u64,
    justification_cache: &mut JustificationCache,
) -> (r: bool)
    requires
        old(justification_cache).valid_for(view@, n_validators),
    ensures
        r == justified(checkpoint@, view@, n_validators),
        final(justification_cache).valid_for(view@, n_validators),
    decreases checkpoint.slot,
{
    if let Some(b) = justification_cache.get(checkpoint, Ghost(view@), Ghost(n_validators)) {
        return b;
    }
    let genesis = genesis_string();
    if checkpoint.block_hash == genesis && checkpoint.slot == 0 {
        justification_cache.record(checkpoint.clone(), true, Ghost(view@), Ghost(n_validators));
        return true;
    }
    let ghost c = checkpoint@;
    let ghost v = view@;
    let mut voters: Vec<u64> = Vec::new();
    let mut i: usize = 0;
    while i < view.votes.len()
        invariant
            i <= view.votes@.len(),
            v == view@,
            c == checkpoint@,
            justification_cache.valid_for(v, n_validators),
            voters@.no_duplicates(),
            voters@.to_set() == supporters(c, v, n_validators, i as nat),
        decreases view.votes.len() - i,
    {
        if link_fits_exec(checkpoint, view, i) {
            if is_justified(&view.votes[i].source, view, n_validators, justification_cache) {
                let id = view.votes[i].validator_id;
                if !contains_id(&voters, id) {
                    let ghost prev = voters@;
                    voters.push(id);
                    proof {
                        prev.lemma_push_to_set_commute(id);
                    }
                } else {
                    assert(voters@.to_set() =~= voters@.to_set().insert(id));
                }
            }
        }
        i = i + 1;
    }
    proof {
        voters@.unique_seq_to_set();
    }
    let result = (voters.len() as u128) > (2 * (n_validators as u128)) / 3;
    justification_cache.record(checkpoint.clone(), result, Ghost(view@), Ghost(n_validators));
    result
}

/// The greatest justified checkpoint of `view`: the highest-ranked justified vote source (later
/// slot first, then smaller hash, then earlier vote), or the genesis checkpoint when no vote
/// source is justified.
pub fn greatest_justified_checkpoint(
    view: &View,
    n_validators: u64,
    justification_cache: &mut JustificationCache,
) -> (r: Checkpoint)
    requires
        old(justification_cache).valid_for(view@, n_validators),
    ensures
        r@ == greatest_justified(view@, n_validators),
        final(justification_cache).valid_for(view@, n_validators),
{
    let mut best: Option<Checkpoint> = None;
    let mut i: usize = 0;
    while i < view.votes.len()
        invariant
            i <= view.votes@.len(),
            justification_cache.valid_for(view@, n_validators),
            match best {
                Some(b) => best_source(view@, n_validators, i as nat) == Some(b@),
                None => best_source(view@, n_validators, i as nat) is None,
            },
        decreases view.votes.len() - i,
    {
        let s = &view.votes[i].source;
        if is_justified(s, view, n_validators, justification_cache) {
            let replace = match &best {
                None => true,
                Some(b) => s.slot > b.slot || (s.slot == b.slot && hash_less(
                    &s.block_hash,
                    &b.block_hash,
                )),
            };
            if replace {
                best = Some(s.clone());
            }
        }
        i = i + 1;
    }
    match best {
        Some(b) => b,
        None => Checkpoint { block_hash: genesis_string(), slot: 0 },
    }
}

/// The genesis checkpoint is justified in every view, with any number of validators.
pub proof fn lemma_genesis_justified(v: ViewModel, n: u64)
    ensures
        justified(genesis_checkpoint(), v, n),
{
}

/// View `v2` holds everything that view `v1` holds: each hash with a block in `v1` stands for
/// the same block in `v2`, `v2` has at least as many block entries, and each vote of `v1` is a
/// vote of `v2`.
pub open spec fn extends(v2: ViewModel, v1: ViewModel) -> bool {
    &&& v1.blocks.len() <= v2.blocks.len()
    &&& forall|h: Seq<char>|
        (#[trigger] lookup(v1.blocks, h)) is Some ==> lookup(v2.blocks, h) == lookup(v1.blocks, h)
    &&& forall|i: int| 0 <= i < v1.votes.len() ==> v2.votes.contains(#[trigger] v1.votes[i])
}

/// An ancestry walk that ends without error ends the same way in a larger view.
proof fn lemma_walk_extends(
    b1: Seq<BlockModel>,
    b2: Seq<BlockModel>,
    cur: Seq<char>,
    target: Seq<char>,
    f1: nat,
    f2: nat,
)
    requires
        forall|h: Seq<char>| (#[trigger] lookup(b1, h)) is Some ==> lookup(b2, h) == lookup(b1, h),
        f1 <= f2,
        ancestry_walk(b1, cur, target, f1) is Ok,
    ensures
        ancestry_walk(b2, cur, target, f2) == ancestry_walk(b1, cur, target, f1),
    decreases f1,
{
    if cur != null_hash() && cur != target {
        let p = lookup(b1, cur).unwrap();
        lemma_walk_extends(b1, b2, p.parent_hash, target, (f1 - 1) as nat, (f2 - 1) as nat);
    }
}

/// A vote that links into a checkpoint still does in a larger view.
proof fn lemma_link_fits_extends(
    c: CheckpointModel,
    x: crate::types::VoteModel,
    v1: ViewModel,
    v2: ViewModel,
)
    requires
        extends(v2, v1),
        link_fits(c, x, v1),
    ensures
        link_fits(c, x, v2),
{
    let sb = lookup(v1.blocks, x.source.block_hash).unwrap();
    let cb = lookup(v1.blocks, c.block_hash).unwrap();
    let tb = lookup(v1.blocks, x.target.block_hash).unwrap();
    assert(lookup(v2.blocks, x.source.block_hash) == Some(sb));
    assert(lookup(v2.blocks, c.block_hash) == Some(cb));
    assert(lookup(v2.blocks, x.target.block_hash) == Some(tb));
    if sb.hash != cb.hash {
        lemma_walk_extends(
            v1.blocks,
            v2.blocks,
            cb.parent_hash,
            sb.hash,
            v1.blocks.len(),
            v2.blocks.len(),
        );
    }
    if cb.hash != tb.hash {
        lemma_walk_extends(
            v1.blocks,
            v2.blocks,
            tb.parent_hash,
            cb.hash,
            v1.blocks.len(),
            v2.blocks.len(),
        );
    }
}

/// Each supporter cast a vote that links into the checkpoint from a justified source.
proof fn lemma_supporters_member(c: CheckpointModel, v: ViewModel, n: u64, k: nat, id: u64)
    requires
        supporters(c, v, n, k).contains(id),
    ensures
        exists|j: int|
            0 <= j < k && j < v.votes.len() && (#[trigger] v.votes[j]).validator_id == id
                && link_fits(c, v.votes[j], v) && justified(v.votes[j].source, v, n),
    decreases k,
{
    let x = v.votes[k - 1];
    if !(x.validator_id == id && link_fits(c, x, v) && justified(x.source, v, n)) {
        lemma_supporters_member(c, v, n, (k - 1) as nat, id);
    }
}

/// A vote that links into the checkpoint from a justified source makes its validator a
/// supporter.
proof fn lemma_supporters_include(c: CheckpointModel, v: ViewModel, n: u64, k: nat, j: int)
    requires
        0 <= j < k <= v.votes.len(),
        link_fits(c, v.votes[j], v),
        justified(v.votes[j].source, v, n),
    ensures
        supporters(c, v, n, k).contains(v.votes[j].validator_id),
    decreases k,
{
    if j < k - 1 {
        lemma_supporters_include(c, v, n, (k - 1) as nat, j);
    }
}

proof fn lemma_supporters_finite(c: CheckpointModel, v: ViewModel, n: u64, k: nat)
    ensures
        supporters(c, v, n, k).finite(),
    decreases k,
{
    if k > 0 && k <= v.votes.len() {
        lemma_supporters_finite(c, v, n, (k - 1) as nat);
    }
}

/// A checkpoint justified in a view stays justified in every view that holds all of its blocks
/// and votes: adding information never un-justifies.
pub proof fn lemma_justified_monotone(c: CheckpointModel, v1: ViewModel, v2: ViewModel, n: u64)
    requires
        extends(v2, v1),
        justified(c, v1, n),
    ensures
        justified(c, v2, n),
    decreases c.slot,
{
    if c != genesis_checkpoint() {
        let s1 = supporters(c, v1, n, v1.votes.len());
        let s2 = supporters(c, v2, n, v2.votes.len());
        assert forall|id: u64| s1.contains(id) implies s2.contains(id) by {
            lemma_supporters_member(c, v1, n, v1.votes.len(), id);
            let j = choose|j: int|
                0 <= j < v1.votes.len() && (#[trigger] v1.votes[j]).validator_id == id
                    && link_fits(c, v1.votes[j], v1) && justified(v1.votes[j].source, v1, n);
            let x = v1.votes[j];
            assert(v2.votes.contains(x));
            let j2 = choose|j2: int| 0 <= j2 < v2.votes.len() && v2.votes[j2] == x;
            lemma_link_fits_extends(c, x, v1, v2);
            lemma_justified_monotone(x.source, v1, v2, n);
            lemma_supporters_include(c, v2, n, v2.votes.len(), j2);
        }
        lemma_supporters_finite(c, v2, n, v2.votes.len());
        vstd::set_lib::lemma_len_subset(s1, s2);
    }
}

/// What the best justified source among the first `k` votes is: a justified source of one of
/// them, at a slot no earlier than any other justified source among them.
proof fn lemma_best_source(v: ViewModel, n: u64, k: nat)
    requires
        k <= v.votes.len(),
    ensures
        match best_source(v, n, k) {
            Some(b) => {
                &&& justified(b, v, n)
                &&& forall|j: int|
                    0 <= j < k && j < v.votes.len() && justified((#[trigger] v.votes[j]).source, v, n)
                        ==> v.votes[j].source.slot <= b.slot
            },
            None => forall|j: int|
                0 <= j < k && j < v.votes.len() ==> !justified((#[trigger] v.votes[j]).source, v, n),
        },
    decreases k,
{
    if k > 0 {
        lemma_best_source(v, n, (k - 1) as nat);
        let before = best_source(v, n, (k - 1) as nat);
        let s = v.votes[k - 1].source;
        if justified(s, v, n) {
            if let Some(b) = before {
                if !better(s, b) {
                    assert(s.slot <= b.slot);
                }
            }
        }
    }
}

/// Along a growing sequence of views, the greatest justified checkpoint never moves to an
/// earlier slot.
pub proof fn lemma_greatest_justified_monotone(v1: ViewModel, v2: ViewModel, n: u64)
    requires
        extends(v2, v1),
    ensures
        greatest_justified(v1, n).slot <= greatest_justified(v2, n).slot,
{
    lemma_best_source(v1, n, v1.votes.len());
    lemma_best_source(v2, n, v2.votes.len());
    lemma_best_source_is_a_source(v1, n, v1.votes.len());
    if let Some(b) = best_source(v1, n, v1.votes.len()) {
        let j = choose|j: int| 0 <= j < v1.votes.len() && (#[trigger] v1.votes[j]).source == b;
        let x = v1.votes[j];
        assert(v2.votes.contains(x));
        let j2 = choose|j2: int| 0 <= j2 < v2.votes.len() && v2.votes[j2] == x;
        lemma_justified_monotone(b, v1, v2, n);
        assert(justified(v2.votes[j2].source, v2, n));
    }
}

/// The best justified source is the source of one of the votes.
proof fn lemma_best_source_is_a_source(v: ViewModel, n: u64, k: nat)
    ensures
        best_source(v, n, k) matches Some(b) ==> exists|j: int|
            0 <= j < k && j < v.votes.len() && (#[trigger] v.votes[j]).source == b,
    decreases k,
{
    if k > 0 && k <= v.votes.len() {
        lemma_best_source_is_a_source(v, n, (k - 1) as nat);
        if best_source(v, n, k) != best_source(v, n, (k - 1) as nat) {
            assert(v.votes[k - 1].source == best_source(v, n, k).unwrap());
        }
    }
}

} // verus!
