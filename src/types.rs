//! Blocks, checkpoints, votes, proposals and views, with their mathematical models, block
//! lookup and ancestry.
use vstd::prelude::*;
use vstd::view::View as HasView;

verus! {

/// A block's identity.
pub type Hash = String;

/// A validator's identity.
pub type ValidatorId = u64;

/// The hash of the genesis block.
pub open spec fn genesis_hash() -> Seq<char> {
    "genesis_hash"@
}

/// The parent hash that marks the root of the chain.
pub open spec fn null_hash() -> Seq<char> {
    "null"@
}

/// A placeholder transaction.
#[derive(Debug, Clone, Copy, PartialEq, Eq, Structural, Hash)]
pub struct Transaction {
    pub id: u64,
}

/// What a block is: plain values.
pub struct BlockModel {
    pub hash: Seq<char>,
    pub parent_hash: Seq<char>,
    pub slot: u64,
    pub proposer_id: u64,
    pub transactions: Seq<Transaction>,
}

/// What a checkpoint is: a block hash and a slot.
pub struct CheckpointModel {
    pub block_hash: Seq<char>,
    pub slot: u64,
}

/// What a vote is: a fork-choice head and an FFG link.
pub struct VoteModel {
    pub chain_head_hash: Seq<char>,
    pub source: CheckpointModel,
    pub target: CheckpointModel,
    pub slot: u64,
    pub validator_id: u64,
}

/// What a view is: its block entries in order of arrival and its votes.
pub struct ViewModel {
    pub blocks: Seq<BlockModel>,
    pub votes: Seq<VoteModel>,
}

/// A block, identified by its hash, pointing to its parent by hash.
#[derive(Debug)]
pub struct Block {
    pub hash: Hash,
    pub parent_hash: Hash,
    pub slot: u64,
    pub proposer_id: ValidatorId,
    pub transactions: Vec<Transaction>,
}

impl HasView for Block {
    type V = BlockModel;

    open spec fn view(&self) -> BlockModel {
        BlockModel {
            hash: self.hash@,
            parent_hash: self.parent_hash@,
            slot: self.slot,
            proposer_id: self.proposer_id,
            transactions: self.transactions@,
        }
    }
}

impl Clone for Block {
    fn clone(&self) -> (r: Self)
        ensures
            r@ == self@,
    {
        let transactions = self.transactions.clone();
        assert(transactions@ =~= self.transactions@);
        Block {
            hash: self.hash.clone(),
            parent_hash: self.parent_hash.clone(),
            slot: self.slot,
            proposer_id: self.proposer_id,
            transactions,
        }
    }
}

/// A checkpoint: a block hash and a slot.
#[derive(Debug)]
pub struct Checkpoint {
    pub block_hash: Hash,
    pub slot: u64,
}

impl HasView for Checkpoint {
    type V = CheckpointModel;

    open spec fn view(&self) -> CheckpointModel {
        CheckpointModel { block_hash: self.block_hash@, slot: self.slot }
    }
}

impl Clone for Checkpoint {
    fn clone(&self) -> (r: Self)
        ensures
            r@ == self@,
    {
        Checkpoint { block_hash: self.block_hash.clone(), slot: self.slot }
    }
}

impl PartialEq for Checkpoint {
    fn eq(&self, other: &Checkpoint) -> (r: bool)
        ensures
            r == (self@ == other@),
    {
        self.slot == other.slot && self.block_hash == other.block_hash
    }
}

impl vstd::std_specs::cmp::PartialEqSpecImpl for Checkpoint {
    open spec fn obeys_eq_spec() -> bool {
        true
    }

    open spec fn eq_spec(&self, other: &Checkpoint) -> bool {
        self@ == other@
    }
}

/// A validator's vote in a slot: a fork-choice head and an FFG link from `source` to `target`.
#[derive(Debug)]
pub struct Vote {
    pub chain_head_hash: Hash,
    pub source: Checkpoint,
    pub target: Checkpoint,
    pub slot: u64,
    pub validator_id: ValidatorId,
}

impl HasView for Vote {
    type V = VoteModel;

    open spec fn view(&self) -> VoteModel {
        VoteModel {
            chain_head_hash: self.chain_head_hash@,
            source: self.source@,
            target: self.target@,
            slot: self.slot,
            validator_id: self.validator_id,
        }
    }
}

impl Clone for Vote {
    fn clone(&self) -> (r: Self)
        ensures
            r@ == self@,
    {
        Vote {
            chain_head_hash: self.chain_head_hash.clone(),
            source: self.source.clone(),
            target: self.target.clone(),
            slot: self.slot,
            validator_id: self.validator_id,
        }
    }
}

/// A validator's view: the blocks it has seen, first arrival first, and the votes it has seen.
///
/// A hash stands for the first block entry that carries it; later entries with the same hash
/// are never consulted.
#[derive(Debug)]
pub struct View {
    pub blocks: Vec<Block>,
    pub votes: Vec<Vote>,
}

pub open spec fn blocks_model(bs: Seq<Block>) -> Seq<BlockModel> {
    bs.map_values(|b: Block| b@)
}

pub open spec fn votes_model(vs: Seq<Vote>) -> Seq<VoteModel> {
    vs.map_values(|v: Vote| v@)
}

impl HasView for View {
    type V = ViewModel;

    open spec fn view(&self) -> ViewModel {
        ViewModel { blocks: blocks_model(self.blocks@), votes: votes_model(self.votes@) }
    }
}

impl Clone for View {
    fn clone(&self) -> (r: Self)
        ensures
            r@ == self@,
    {
        let mut blocks: Vec<Block> = Vec::new();
        let mut i: usize = 0;
        while i < self.blocks.len()
            invariant
                i <= self.blocks.len(),
                blocks_model(blocks@) =~= blocks_model(self.blocks@.take(i as int)),
            decreases self.blocks.len() - i,
        {
            let b = self.blocks[i].clone();
            let ghost prev = blocks@;
            blocks.push(b);
            assert(self.blocks@.take(i + 1) =~= self.blocks@.take(i as int).push(self.blocks@[i as int]));
            assert(blocks_model(blocks@) =~= blocks_model(prev).push(b@));
            assert(blocks_model(self.blocks@.take(i + 1)) =~= blocks_model(self.blocks@.take(i as int)).push(b@));
            i = i + 1;
        }
        assert(self.blocks@.take(i as int) =~= self.blocks@);
        let mut votes: Vec<Vote> = Vec::new();
        let mut j: usize = 0;
        while j < self.votes.len()
            invariant
                j <= self.votes.len(),
                votes_model(votes@) =~= votes_model(self.votes@.take(j as int)),
            decreases self.votes.len() - j,
        {
            let v = self.votes[j].clone();
            let ghost prev = votes@;
            votes.push(v);
            assert(self.votes@.take(j + 1) =~= self.votes@.take(j as int).push(self.votes@[j as int]));
            assert(votes_model(votes@) =~= votes_model(prev).push(v@));
            assert(votes_model(self.votes@.take(j + 1)) =~= votes_model(self.votes@.take(j as int)).push(v@));
            j = j + 1;
        }
        assert(self.votes@.take(j as int) =~= self.votes@);
        View { blocks, votes }
    }
}

impl Default for View {
    fn default() -> (r: View)
        ensures
            r@.blocks.len() == 0,
            r@.votes.len() == 0,
    {
        View::empty()
    }
}

impl View {
    /// A view with no blocks and no votes.
    pub fn empty() -> (r: View)
        ensures
            r@.blocks.len() == 0,
            r@.votes.len() == 0,
    {
        View { blocks: Vec::new(), votes: Vec::new() }
    }
}

/// A proposal: a new head and the proposer's whole view.
#[derive(Debug)]
pub struct Proposal {
    pub chain_head_hash: Hash,
    pub view: View,
    pub slot: u64,
    pub proposer_id: ValidatorId,
}

/// Validator status; recorded, not consulted by the engines.
#[derive(Debug, Clone, Copy, PartialEq, Eq, Structural)]
pub enum ValidatorStatus {
    Active,
    Inactive,
    Adversary,
}

/// A validator's identity and status.
#[derive(Debug, Clone, Copy)]
pub struct Validator {
    pub id: ValidatorId,
    pub status: ValidatorStatus,
}

/// A view that cannot answer a question about ancestry.
#[derive(Debug, Clone, Copy, PartialEq, Eq, Structural)]
pub enum ViewError {
    /// A walk up the parent chain met a hash with no block in the view.
    MissingAncestor,
    /// A walk up the parent chain took more steps than the view has block entries, so the
    /// chain loops.
    AncestryCycle,
}

/// The block that a hash stands for among entries `bs`: the first entry that carries it.
pub open spec fn lookup(bs: Seq<BlockModel>, h: Seq<char>) -> Option<BlockModel>
    decreases bs.len(),
{
    if bs.len() == 0 {
        None
    } else if bs[0].hash == h {
        Some(bs[0])
    } else {
        lookup(bs.drop_first(), h)
    }
}

/// An entry's hash stands for some block of the entries.
pub proof fn lemma_lookup_entry(bs: Seq<BlockModel>, i: int)
    requires
        0 <= i < bs.len(),
    ensures
        lookup(bs, bs[i].hash) is Some,
    decreases bs.len(),
{
    if bs[0].hash != bs[i].hash {
        assert(bs.drop_first()[i - 1] == bs[i]);
        lemma_lookup_entry(bs.drop_first(), i - 1);
    }
}

/// What a lookup finds is one of the entries, and carries the hash looked up.
pub proof fn lemma_lookup_found(bs: Seq<BlockModel>, h: Seq<char>)
    requires
        lookup(bs, h) is Some,
    ensures
        lookup(bs, h).unwrap().hash == h,
        exists|i: int| 0 <= i < bs.len() && bs[i] == lookup(bs, h).unwrap(),
    decreases bs.len(),
{
    if bs[0].hash == h {
        assert(bs[0] == lookup(bs, h).unwrap());
    } else {
        lemma_lookup_found(bs.drop_first(), h);
        let j = choose|j: int|
            0 <= j < bs.drop_first().len() && bs.drop_first()[j] == lookup(bs, h).unwrap();
        assert(bs[j + 1] == lookup(bs, h).unwrap());
    }
}

/// Block `b`'s parent is the null hash, or a block of `bs` at an earlier slot.
pub open spec fn parent_before(bs: Seq<BlockModel>, b: BlockModel) -> bool {
    b.parent_hash == null_hash() || (lookup(bs, b.parent_hash) matches Some(p) && p.slot < b.slot)
}

/// A well-formed view: each block entry is the block its hash stands for, and each block's
/// parent is the null hash or a block of the view at an earlier slot, so that parent chains
/// neither loop nor leave the view.
pub open spec fn well_formed(v: ViewModel) -> bool {
    &&& forall|i: int|
        0 <= i < v.blocks.len() ==> lookup(v.blocks, (#[trigger] v.blocks[i]).hash) == Some(
            v.blocks[i],
        )
    &&& forall|i: int| 0 <= i < v.blocks.len() ==> parent_before(v.blocks, #[trigger] v.blocks[i])
}

/// The number of entries of `bs` at slot `s` or earlier.
pub open spec fn count_upto(bs: Seq<BlockModel>, s: int) -> nat
    decreases bs.len(),
{
    if bs.len() == 0 {
        0
    } else {
        count_upto(bs.drop_last(), s) + if bs.last().slot <= s {
            1nat
        } else {
            0nat
        }
    }
}

proof fn lemma_count_upto_bounded(bs: Seq<BlockModel>, s: int)
    ensures
        count_upto(bs, s) <= bs.len(),
    decreases bs.len(),
{
    if bs.len() > 0 {
        lemma_count_upto_bounded(bs.drop_last(), s);
    }
}

proof fn lemma_count_upto_monotone(bs: Seq<BlockModel>, s1: int, s2: int)
    requires
        s1 <= s2,
    ensures
        count_upto(bs, s1) <= count_upto(bs, s2),
    decreases bs.len(),
{
    if bs.len() > 0 {
        lemma_count_upto_monotone(bs.drop_last(), s1, s2);
    }
}

/// An entry with a slot in `(s1, s2]` makes the count at `s2` exceed the count at `s1`.
proof fn lemma_count_upto_strict(bs: Seq<BlockModel>, s1: int, s2: int, i: int)
    requires
        0 <= i < bs.len(),
        s1 < bs[i].slot <= s2,
    ensures
        count_upto(bs, s1) < count_upto(bs, s2),
    decreases bs.len(),
{
    if i == bs.len() - 1 {
        lemma_count_upto_monotone(bs.drop_last(), s1, s2);
    } else {
        assert(bs.drop_last()[i] == bs[i]);
        lemma_count_upto_strict(bs.drop_last(), s1, s2, i);
    }
}

/// Lookups that a walk from `cur` can make in a well-formed view.
pub open spec fn walk_need(bs: Seq<BlockModel>, cur: Seq<char>) -> nat {
    match lookup(bs, cur) {
        Some(p) => count_upto(bs, p.slot as int),
        None => 0,
    }
}

/// A looked-up block of a well-formed view has its parent at an earlier slot, and needs one
/// lookup more than its parent.
proof fn lemma_step_need(v: ViewModel, cur: Seq<char>)
    requires
        well_formed(v),
        lookup(v.blocks, cur) is Some,
    ensures
        parent_before(v.blocks, lookup(v.blocks, cur).unwrap()),
        walk_need(v.blocks, cur) >= 1,
        lookup(v.blocks, cur).unwrap().parent_hash != null_hash() ==> walk_need(
            v.blocks,
            lookup(v.blocks, cur).unwrap().parent_hash,
        ) < walk_need(v.blocks, cur),
{
    let p = lookup(v.blocks, cur).unwrap();
    lemma_lookup_found(v.blocks, cur);
    let i = choose|i: int| 0 <= i < v.blocks.len() && v.blocks[i] == p;
    assert(parent_before(v.blocks, v.blocks[i]));
    lemma_count_upto_strict(v.blocks, -1, p.slot as int, i);
    if p.parent_hash != null_hash() {
        let pp = lookup(v.blocks, p.parent_hash).unwrap();
        lemma_count_upto_strict(v.blocks, pp.slot as int, p.slot as int, i);
    }
}

/// In a well-formed view, a walk that ends without error ends the same way with any fuel that
/// covers what it can need.
proof fn lemma_walk_fuel(v: ViewModel, cur: Seq<char>, t: Seq<char>, f1: nat, f2: nat)
    requires
        well_formed(v),
        ancestry_walk(v.blocks, cur, t, f1) is Ok,
        cur == null_hash() || f2 >= walk_need(v.blocks, cur),
    ensures
        ancestry_walk(v.blocks, cur, t, f2) == ancestry_walk(v.blocks, cur, t, f1),
    decreases f1,
{
    if cur != null_hash() && cur != t {
        let p = lookup(v.blocks, cur).unwrap();
        lemma_step_need(v, cur);
        lemma_walk_fuel(v, p.parent_hash, t, (f1 - 1) as nat, (f2 - 1) as nat);
    }
}

/// In a well-formed view, a walk that finds block `a` starts at a block no earlier than `a`.
proof fn lemma_walk_found_slot(v: ViewModel, cur: Seq<char>, a: BlockModel, fuel: nat)
    requires
        well_formed(v),
        lookup(v.blocks, a.hash) == Some(a),
        ancestry_walk(v.blocks, cur, a.hash, fuel) == Ok::<bool, ViewError>(true),
    ensures
        lookup(v.blocks, cur) is Some,
        a.slot <= lookup(v.blocks, cur).unwrap().slot,
    decreases fuel,
{
    if cur != a.hash {
        let p = lookup(v.blocks, cur).unwrap();
        lemma_walk_found_slot(v, p.parent_hash, a, (fuel - 1) as nat);
        lemma_step_need(v, cur);
    }
}

/// In a well-formed view, a strict ancestor lies at an earlier slot.
proof fn lemma_ancestor_slot(v: ViewModel, a: BlockModel, b: BlockModel)
    requires
        well_formed(v),
        lookup(v.blocks, a.hash) == Some(a),
        lookup(v.blocks, b.hash) == Some(b),
        ancestor_result(a, b, v) == Ok::<bool, ViewError>(true),
    ensures
        a.slot < b.slot,
{
    lemma_walk_found_slot(v, b.parent_hash, a, v.blocks.len());
    lemma_step_need(v, b.hash);
}

/// A walk that reaches `b` and then, from `b`'s parent, reaches `a`, reaches `a` directly.
proof fn lemma_walk_through(
    v: ViewModel,
    cur: Seq<char>,
    a: BlockModel,
    b: BlockModel,
    f: nat,
    g: nat,
)
    requires
        well_formed(v),
        lookup(v.blocks, b.hash) == Some(b),
        ancestry_walk(v.blocks, cur, b.hash, f) == Ok::<bool, ViewError>(true),
        ancestor_result(a, b, v) == Ok::<bool, ViewError>(true),
        g >= walk_need(v.blocks, cur),
    ensures
        ancestry_walk(v.blocks, cur, a.hash, g) == Ok::<bool, ViewError>(true),
    decreases f,
{
    if cur != a.hash {
        lemma_step_need(v, cur);
        let p = lookup(v.blocks, cur).unwrap();
        if cur == b.hash {
            lemma_walk_fuel(v, b.parent_hash, a.hash, v.blocks.len(), (g - 1) as nat);
        } else {
            lemma_walk_through(v, p.parent_hash, a, b, (f - 1) as nat, (g - 1) as nat);
        }
    }
}

/// Over a well-formed view, strict ancestry among its blocks is a strict partial order:
/// no block is its own ancestor, no two blocks are each other's ancestors, and an ancestor
/// of an ancestor is an ancestor.
pub proof fn lemma_ancestry_strict_order(v: ViewModel, a: BlockModel, b: BlockModel, c: BlockModel)
    requires
        well_formed(v),
        lookup(v.blocks, a.hash) == Some(a),
        lookup(v.blocks, b.hash) == Some(b),
        lookup(v.blocks, c.hash) == Some(c),
    ensures
        ancestor_result(a, a, v) != Ok::<bool, ViewError>(true),
        !(ancestor_result(a, b, v) == Ok::<bool, ViewError>(true) && ancestor_result(b, a, v)
            == Ok::<bool, ViewError>(true)),
        ancestor_result(a, b, v) == Ok::<bool, ViewError>(true) && ancestor_result(b, c, v)
            == Ok::<bool, ViewError>(true) ==> ancestor_result(a, c, v) == Ok::<bool, ViewError>(
            true,
        ),
{
    if ancestor_result(a, a, v) == Ok::<bool, ViewError>(true) {
        lemma_ancestor_slot(v, a, a);
    }
    if ancestor_result(a, b, v) == Ok::<bool, ViewError>(true) && ancestor_result(b, a, v) == Ok::<
        bool,
        ViewError,
    >(true) {
        lemma_ancestor_slot(v, a, b);
        lemma_ancestor_slot(v, b, a);
    }
    if ancestor_result(a, b, v) == Ok::<bool, ViewError>(true) && ancestor_result(b, c, v) == Ok::<
        bool,
        ViewError,
    >(true) {
        lemma_walk_found_slot(v, c.parent_hash, b, v.blocks.len());
        let p = lookup(v.blocks, c.parent_hash).unwrap();
        lemma_count_upto_bounded(v.blocks, p.slot as int);
        lemma_walk_through(v, c.parent_hash, a, b, v.blocks.len(), v.blocks.len());
    }
}

/// Entries `bs` after `b` arrives: unchanged when its hash is known, else `b` appended.
pub open spec fn insert_absent(bs: Seq<BlockModel>, b: BlockModel) -> Seq<BlockModel> {
    if lookup(bs, b.hash) is Some {
        bs
    } else {
        bs.push(b)
    }
}

/// Entries `bs` after blocks `new` arrive in order, each one only if its hash is unknown.
pub open spec fn insert_all(bs: Seq<BlockModel>, new: Seq<BlockModel>) -> Seq<BlockModel>
    decreases new.len(),
{
    if new.len() == 0 {
        bs
    } else {
        insert_absent(insert_all(bs, new.drop_last()), new.last())
    }
}

/// Walks the parent chain from `cur`, looking for `target`, with at most `fuel` lookups.
pub open spec fn ancestry_walk(
    bs: Seq<BlockModel>,
    cur: Seq<char>,
    target: Seq<char>,
    fuel: nat,
) -> Result<bool, ViewError>
    decreases fuel,
{
    if cur == null_hash() {
        Ok(false)
    } else if cur == target {
        Ok(true)
    } else if fuel == 0 {
        Err(ViewError::AncestryCycle)
    } else {
        match lookup(bs, cur) {
            None => Err(ViewError::MissingAncestor),
            Some(p) => ancestry_walk(bs, p.parent_hash, target, (fuel - 1) as nat),
        }
    }
}

/// Whether `a` is a strict ancestor of `b` in view `v`: `a`'s hash occurs on `b`'s parent
/// chain, walked with at most as many lookups as `v` has block entries.
pub open spec fn ancestor_result(a: BlockModel, b: BlockModel, v: ViewModel) -> Result<
    bool,
    ViewError,
> {
    ancestry_walk(v.blocks, b.parent_hash, a.hash, v.blocks.len())
}

/// Lexicographic order on hashes, character by character.
pub open spec fn hash_lt(a: Seq<char>, b: Seq<char>) -> bool
    decreases a.len(),
{
    if a.len() == 0 {
        b.len() > 0
    } else if b.len() == 0 {
        false
    } else if a[0] != b[0] {
        (a[0] as u32) < (b[0] as u32)
    } else {
        hash_lt(a.drop_first(), b.drop_first())
    }
}

/// The genesis block.
pub open spec fn genesis_model() -> BlockModel {
    BlockModel {
        hash: genesis_hash(),
        parent_hash: null_hash(),
        slot: 0,
        proposer_id: 0,
        transactions: Seq::empty(),
    }
}

/// The parent hash that marks the root of the chain.
pub fn null_string() -> (r: Hash)
    ensures
        r@ == null_hash(),
{
    "null".to_string()
}

/// The hash of the genesis block.
pub fn genesis_string() -> (r: Hash)
    ensures
        r@ == genesis_hash(),
{
    "genesis_hash".to_string()
}

/// Whether hash `a` comes before hash `b` in lexicographic order.
pub fn hash_less(a: &Hash, b: &Hash) -> (r: bool)
    ensures
        r == hash_lt(a@, b@),
{
    let sa = a.as_str();
    let sb = b.as_str();
    let la = sa.unicode_len();
    let lb = sb.unicode_len();
    let mut i: usize = 0;
    assert(a@.skip(0) =~= a@);
    assert(b@.skip(0) =~= b@);
    loop
        invariant
            sa@ == a@,
            sb@ == b@,
            la == a@.len(),
            lb == b@.len(),
            i <= la,
            i <= lb,
            hash_lt(a@, b@) == hash_lt(a@.skip(i as int), b@.skip(i as int)),
        decreases la - i,
    {
        if i == la {
            return lb > i;
        }
        if i == lb {
            return false;
        }
        let ca = sa.get_char(i);
        let cb = sb.get_char(i);
        if ca != cb {
            return (ca as u32) < (cb as u32);
        }
        assert(a@.skip(i as int).drop_first() =~= a@.skip(i + 1));
        assert(b@.skip(i as int).drop_first() =~= b@.skip(i + 1));
        i = i + 1;
    }
}

/// The position of the block entry that `h` stands for in `view`, if any.
pub fn find_block(view: &View, h: &Hash) -> (r: Option<usize>)
    ensures
        match r {
            Some(i) => i < view.blocks@.len() && lookup(view@.blocks, h@) == Some(
                view@.blocks[i as int],
            ),
            None => lookup(view@.blocks, h@) is None,
        },
{
    let ghost bs = view@.blocks;
    let mut i: usize = 0;
    assert(bs.skip(0) =~= bs);
    while i < view.blocks.len()
        invariant
            i <= view.blocks@.len(),
            bs == view@.blocks,
            lookup(bs, h@) == lookup(bs.skip(i as int), h@),
        decreases view.blocks.len() - i,
    {
        if view.blocks[i].hash == *h {
            return Some(i);
        }
        assert(bs.skip(i as int).drop_first() =~= bs.skip(i + 1));
        i = i + 1;
    }
    None
}

impl Block {
    /// The genesis block: the root of every chain.
    pub fn genesis() -> (r: Block)
        ensures
            r@ == genesis_model(),
    {
        let r = Block {
            hash: genesis_string(),
            parent_hash: null_string(),
            slot: 0,
            proposer_id: 0,
            transactions: Vec::new(),
        };
        assert(r@.transactions =~= Seq::<Transaction>::empty());
        r
    }

    /// Whether this block is a strict ancestor of `other` in `view`; an error where the parent
    /// chain leaves the view or loops.
    pub fn is_ancestor_of(&self, other: &Block, view: &View) -> (r: Result<bool, ViewError>)
        ensures
            r == ancestor_result(self@, other@, view@),
    {
        let null = null_string();
        let mut current = other.parent_hash.clone();
        let mut fuel: usize = view.blocks.len();
        loop
            invariant
                null@ == null_hash(),
                fuel <= view.blocks@.len(),
                ancestry_walk(view@.blocks, current@, self@.hash, fuel as nat) == ancestor_result(
                    self@,
                    other@,
                    view@,
                ),
            decreases fuel,
        {
            if current == null {
                return Ok(false);
            }
            if current == self.hash {
                return Ok(true);
            }
            if fuel == 0 {
                return Err(ViewError::AncestryCycle);
            }
            match find_block(view, &current) {
                None => {
                    return Err(ViewError::MissingAncestor);
                },
                Some(i) => {
                    current = view.blocks[i].parent_hash.clone();
                    fuel = fuel - 1;
                },
            }
        }
    }
}

impl View {
    /// Adds block `b` unless its hash is already known; the first block with a hash wins.
    pub fn insert_block(&mut self, b: Block)
        ensures
            final(self)@.blocks == insert_absent(old(self)@.blocks, b@),
            final(self)@.votes == old(self)@.votes,
    {
        match find_block(self, &b.hash) {
            Some(_) => {},
            None => {
                let ghost prev = self.blocks@;
                self.blocks.push(b);
                assert(blocks_model(self.blocks@) =~= blocks_model(prev).push(b@));
            },
        }
    }

    /// Appends vote `v`.
    pub fn push_vote(&mut self, v: Vote)
        ensures
            final(self)@.votes == old(self)@.votes.push(v@),
            final(self)@.blocks == old(self)@.blocks,
    {
        let ghost prev = self.votes@;
        self.votes.push(v);
        assert(votes_model(self.votes@) =~= votes_model(prev).push(v@));
    }
}

} // verus!
