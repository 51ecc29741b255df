use three_sf::constants::{ETA, KAPPA};
use three_sf::ffg::{greatest_justified_checkpoint, is_justified, JustificationCache};
use three_sf::fork_choice::{filter_rlmd_votes, ghost, rlmd_ghost_fork_choice};
use three_sf::node::{ConfigError, Node, FINALIZATION_IMPLEMENTED};
use three_sf::text::{proposal_hash_string, truncate_hash};
use three_sf::types::{hash_less, Block, Checkpoint, Proposal, View, ViewError, Vote};

fn block(hash: &str, parent: &str, slot: u64) -> Block {
    Block {
        hash: hash.to_string(),
        parent_hash: parent.to_string(),
        slot,
        proposer_id: 0,
        transactions: vec![],
    }
}

fn cp(hash: &str, slot: u64) -> Checkpoint {
    Checkpoint { block_hash: hash.to_string(), slot }
}

fn vote(validator: u64, slot: u64, head: &str, source: Checkpoint, target: Checkpoint) -> Vote {
    Vote {
        chain_head_hash: head.to_string(),
        source,
        target,
        slot,
        validator_id: validator,
    }
}

fn head_vote(validator: u64, slot: u64, head: &str) -> Vote {
    vote(validator, slot, head, cp("genesis_hash", 0), cp(head, slot))
}

fn view_with(blocks: Vec<Block>, votes: Vec<Vote>) -> View {
    View { blocks, votes }
}

/// genesis <- B (slot 1)
fn chain_b() -> Vec<Block> {
    vec![Block::genesis(), block("B", "genesis_hash", 1)]
}

#[test]
fn genesis_justified_in_empty_view() {
    let mut cache = JustificationCache::new();
    let empty = View::empty();
    assert!(is_justified(&cp("genesis_hash", 0), &empty, 4, &mut cache));
    let mut cache = JustificationCache::new();
    let only_genesis = view_with(vec![Block::genesis()], vec![]);
    assert!(is_justified(&cp("genesis_hash", 0), &only_genesis, 100, &mut cache));
}

#[test]
fn three_of_four_votes_justify() {
    let votes: Vec<Vote> = (0..3)
        .map(|i| vote(i, 1, "B", cp("genesis_hash", 0), cp("B", 1)))
        .collect();
    let v = view_with(chain_b(), votes);
    let mut cache = JustificationCache::new();
    assert!(is_justified(&cp("B", 1), &v, 4, &mut cache));
}

#[test]
fn two_of_four_votes_do_not_justify() {
    let votes: Vec<Vote> = (0..2)
        .map(|i| vote(i, 1, "B", cp("genesis_hash", 0), cp("B", 1)))
        .collect();
    let v = view_with(chain_b(), votes);
    let mut cache = JustificationCache::new();
    assert!(!is_justified(&cp("B", 1), &v, 4, &mut cache));
}

#[test]
fn repeated_votes_of_one_validator_count_once() {
    let votes: Vec<Vote> = (0..3)
        .map(|_| vote(7, 1, "B", cp("genesis_hash", 0), cp("B", 1)))
        .collect();
    let v = view_with(chain_b(), votes);
    let mut cache = JustificationCache::new();
    assert!(!is_justified(&cp("B", 1), &v, 4, &mut cache));
}

#[test]
fn adding_votes_keeps_justification() {
    let mut votes: Vec<Vote> = (0..3)
        .map(|i| vote(i, 1, "B", cp("genesis_hash", 0), cp("B", 1)))
        .collect();
    let v = view_with(chain_b(), votes.clone());
    let mut cache = JustificationCache::new();
    assert!(is_justified(&cp("B", 1), &v, 4, &mut cache));
    votes.push(vote(3, 2, "C", cp("B", 1), cp("C", 2)));
    let mut blocks = chain_b();
    blocks.push(block("C", "B", 2));
    let bigger = view_with(blocks, votes);
    let mut cache = JustificationCache::new();
    assert!(is_justified(&cp("B", 1), &bigger, 4, &mut cache));
}

#[test]
fn justification_chains_through_sources() {
    // genesis <- B (1) <- C (2); B justified by 3 votes, then C by 3 votes from B.
    let mut blocks = chain_b();
    blocks.push(block("C", "B", 2));
    let mut votes: Vec<Vote> = (0..3)
        .map(|i| vote(i, 1, "B", cp("genesis_hash", 0), cp("B", 1)))
        .collect();
    for i in 0..3 {
        votes.push(vote(i, 2, "C", cp("B", 1), cp("C", 2)));
    }
    let v = view_with(blocks, votes);
    let mut cache = JustificationCache::new();
    assert!(is_justified(&cp("C", 2), &v, 4, &mut cache));
    assert!(cache.len() > 0);
    let mut cache = JustificationCache::new();
    let g = greatest_justified_checkpoint(&v, 4, &mut cache);
    assert_eq!(g, cp("B", 1));
}

#[test]
fn link_with_unjustified_source_does_not_count() {
    let mut blocks = chain_b();
    blocks.push(block("C", "B", 2));
    let votes: Vec<Vote> = (0..4)
        .map(|i| vote(i, 2, "C", cp("B", 1), cp("C", 2)))
        .collect();
    let v = view_with(blocks, votes);
    let mut cache = JustificationCache::new();
    assert!(!is_justified(&cp("C", 2), &v, 4, &mut cache));
}

#[test]
fn missing_blocks_leave_checkpoint_unjustified() {
    let votes: Vec<Vote> = (0..4)
        .map(|i| vote(i, 1, "X", cp("genesis_hash", 0), cp("X", 1)))
        .collect();
    let v = view_with(vec![Block::genesis()], votes);
    let mut cache = JustificationCache::new();
    assert!(!is_justified(&cp("X", 1), &v, 4, &mut cache));
}

#[test]
fn greatest_justified_falls_back_to_genesis() {
    let v = view_with(vec![Block::genesis()], vec![]);
    let mut cache = JustificationCache::new();
    assert_eq!(greatest_justified_checkpoint(&v, 4, &mut cache), cp("genesis_hash", 0));
}

#[test]
fn greatest_justified_does_not_decrease_as_view_grows() {
    let mut blocks = chain_b();
    blocks.push(block("C", "B", 2));
    let mut votes: Vec<Vote> = (0..3)
        .map(|i| vote(i, 1, "B", cp("genesis_hash", 0), cp("B", 1)))
        .collect();
    let small = view_with(blocks.clone(), votes.clone());
    let mut cache = JustificationCache::new();
    let g1 = greatest_justified_checkpoint(&small, 4, &mut cache);
    assert_eq!(g1, cp("genesis_hash", 0));
    for i in 0..3 {
        votes.push(vote(i, 2, "C", cp("B", 1), cp("C", 2)));
    }
    let big = view_with(blocks, votes);
    let mut cache = JustificationCache::new();
    let g2 = greatest_justified_checkpoint(&big, 4, &mut cache);
    assert_eq!(g2, cp("B", 1));
    assert!(g1.slot <= g2.slot);
}

#[test]
fn ancestry_is_strict() {
    let mut blocks = chain_b();
    blocks.push(block("C", "B", 2));
    let v = view_with(blocks, vec![]);
    let g = Block::genesis();
    let b = block("B", "genesis_hash", 1);
    let c = block("C", "B", 2);
    assert_eq!(g.is_ancestor_of(&c, &v), Ok(true));
    assert_eq!(b.is_ancestor_of(&c, &v), Ok(true));
    assert_eq!(c.is_ancestor_of(&b, &v), Ok(false));
    assert_eq!(b.is_ancestor_of(&b, &v), Ok(false));
    assert_eq!(g.is_ancestor_of(&b, &v), Ok(true));
}

#[test]
fn ancestry_reports_missing_ancestor() {
    let v = view_with(vec![Block::genesis()], vec![]);
    let orphan = block("D", "nowhere", 3);
    let g = Block::genesis();
    assert_eq!(g.is_ancestor_of(&orphan, &v), Err(ViewError::MissingAncestor));
}

#[test]
fn ancestry_reports_cycle() {
    let v = view_with(vec![block("P", "Q", 1), block("Q", "P", 2)], vec![]);
    let g = Block::genesis();
    let p = block("P", "Q", 1);
    assert_eq!(g.is_ancestor_of(&p, &v), Err(ViewError::AncestryCycle));
}

#[test]
fn fork_choice_follows_heavier_subtree() {
    // genesis <- A (1) <- A2 (2); genesis <- B (1)
    let blocks = vec![
        Block::genesis(),
        block("A", "genesis_hash", 1),
        block("B", "genesis_hash", 1),
        block("A2", "A", 2),
    ];
    let votes = vec![head_vote(0, 2, "A2"), head_vote(1, 2, "A2"), head_vote(2, 2, "B")];
    let v = view_with(blocks, votes);
    let head = rlmd_ghost_fork_choice(&v, "genesis_hash".to_string(), 2);
    assert_eq!(head, "A2");
}

#[test]
fn fork_choice_breaks_ties_by_smaller_hash() {
    let blocks = vec![
        Block::genesis(),
        block("Y", "genesis_hash", 1),
        block("X", "genesis_hash", 1),
    ];
    let votes = vec![head_vote(0, 1, "Y"), head_vote(1, 1, "X")];
    let v = view_with(blocks, votes);
    assert_eq!(rlmd_ghost_fork_choice(&v, "genesis_hash".to_string(), 1), "X");
}

#[test]
fn fork_choice_ends_in_view() {
    let blocks = vec![Block::genesis(), block("A", "genesis_hash", 1)];
    let v = view_with(blocks, vec![]);
    let head = rlmd_ghost_fork_choice(&v, "genesis_hash".to_string(), 1);
    assert!(v.blocks.iter().any(|b| b.hash == head));
    assert_eq!(head, "A");
}

#[test]
fn ghost_with_no_votes_takes_smallest_child() {
    let blocks = vec![
        Block::genesis(),
        block("m", "genesis_hash", 1),
        block("k", "genesis_hash", 1),
    ];
    let v = view_with(blocks, vec![]);
    assert_eq!(ghost(&v, &vec![], "genesis_hash".to_string()), "k");
}

#[test]
fn equivocators_are_excluded() {
    let votes = vec![
        head_vote(0, 2, "A"),
        head_vote(0, 2, "B"),
        head_vote(1, 2, "B"),
        head_vote(1, 2, "A"),
        head_vote(2, 2, "A"),
    ];
    let v = view_with(vec![Block::genesis()], votes);
    let filtered = filter_rlmd_votes(&v, 2);
    assert_eq!(filtered.len(), 1);
    assert_eq!(filtered[0].validator_id, 2);
}

#[test]
fn equivocators_weigh_nothing_in_fork_choice() {
    // Validators 0 and 1 equivocate between A and B; validator 2 votes A. B would win with
    // the equivocators' votes counted for B only; with them dropped, A wins.
    let blocks = vec![
        Block::genesis(),
        block("A", "genesis_hash", 1),
        block("B", "genesis_hash", 1),
    ];
    let votes = vec![
        head_vote(0, 2, "B"),
        head_vote(0, 2, "A"),
        head_vote(1, 2, "B"),
        head_vote(1, 2, "A"),
        head_vote(2, 2, "B"),
        head_vote(3, 2, "A"),
        head_vote(4, 2, "A"),
    ];
    let v = view_with(blocks, votes);
    assert_eq!(rlmd_ghost_fork_choice(&v, "genesis_hash".to_string(), 2), "A");
}

#[test]
fn expired_votes_are_excluded() {
    let votes = vec![head_vote(0, 1, "A"), head_vote(1, 9, "B")];
    let v = view_with(vec![Block::genesis()], votes);
    let now = 1 + ETA + 1;
    let filtered = filter_rlmd_votes(&v, now);
    assert_eq!(filtered.len(), 1);
    assert_eq!(filtered[0].validator_id, 1);
    // At the boundary slot the vote still counts.
    let filtered = filter_rlmd_votes(&v, 1 + ETA);
    assert_eq!(filtered.len(), 2);
}

#[test]
fn expired_heavy_vote_does_not_steer_fork_choice() {
    let blocks = vec![
        Block::genesis(),
        block("A", "genesis_hash", 1),
        block("B", "genesis_hash", 1),
    ];
    let votes = vec![
        head_vote(0, 1, "A"),
        head_vote(1, 1, "A"),
        head_vote(2, 1, "A"),
        head_vote(3, 9, "B"),
    ];
    let v = view_with(blocks, votes);
    assert_eq!(rlmd_ghost_fork_choice(&v, "genesis_hash".to_string(), 9), "B");
}

#[test]
fn latest_vote_per_validator_is_kept() {
    let votes = vec![head_vote(0, 1, "A"), head_vote(0, 3, "B"), head_vote(0, 2, "C")];
    let v = view_with(vec![Block::genesis()], votes);
    let filtered = filter_rlmd_votes(&v, 3);
    assert_eq!(filtered.len(), 1);
    assert_eq!(filtered[0].chain_head_hash, "B");
}

#[test]
fn node_new_rejects_bad_configuration() {
    assert!(matches!(Node::new(0, 0), Err(ConfigError::EmptyValidatorSet)));
    assert!(matches!(Node::new(4, 4), Err(ConfigError::UnknownValidator)));
    let node = Node::new(3, 4).unwrap();
    assert_eq!(node.view.blocks.len(), 1);
    assert_eq!(node.frozen_view().blocks.len(), 1);
    assert_eq!(node.ch_ava, "genesis_hash");
    assert_eq!(node.ch_fin, "genesis_hash");
    assert_eq!(node.n_validators(), 4);
    assert!(!FINALIZATION_IMPLEMENTED);
}

#[test]
fn receive_message_keeps_first_block_and_appends_votes() {
    let mut node = Node::new(0, 4).unwrap();
    node.receive_message(Some(block("A", "genesis_hash", 1)), None);
    node.receive_message(Some(block("A", "other", 5)), Some(head_vote(1, 1, "A")));
    node.receive_message(None, Some(head_vote(1, 1, "A")));
    assert_eq!(node.view.blocks.len(), 2);
    assert_eq!(node.view.blocks[1].parent_hash, "genesis_hash");
    assert_eq!(node.view.votes.len(), 2);
    assert_eq!(node.frozen_view().blocks.len(), 1);
}

#[test]
fn propose_extends_fork_choice_head() {
    let mut node = Node::new(3, 4).unwrap();
    let p: Proposal = node.propose(12);
    assert_eq!(p.chain_head_hash, "block_slot_12_proposer_3");
    assert_eq!(p.slot, 12);
    assert_eq!(p.proposer_id, 3);
    assert_eq!(p.view.blocks.len(), 2);
    assert_eq!(node.view.blocks[1].parent_hash, "genesis_hash");
    assert_eq!(proposal_hash_string(0, 10), "block_slot_0_proposer_10");
}

#[test]
fn proposal_reaches_frozen_view() {
    let mut proposer = Node::new(0, 4).unwrap();
    let p = proposer.propose(1);
    let mut other = Node::new(1, 4).unwrap();
    other.on_receive_proposal(&p);
    assert_eq!(other.frozen_view().blocks.len(), 2);
    assert_eq!(other.view.blocks.len(), 1);
    let v = other.vote(1).unwrap();
    assert_eq!(v.chain_head_hash, "block_slot_1_proposer_0");
    assert_eq!(v.source, cp("genesis_hash", 0));
    assert_eq!(v.target, cp("genesis_hash", 1));
    assert_eq!(v.validator_id, 1);
}

#[test]
fn vote_selects_k_deep_prefix() {
    // genesis <- b1 <- b2 <- b3 <- b4 <- b5, slots 1..5.
    let mut node = Node::new(0, 4).unwrap();
    let mut parent = "genesis_hash".to_string();
    for s in 1..=5u64 {
        let h = format!("b{}", s);
        node.receive_message(Some(block(&h, &parent, s)), None);
        parent = h;
    }
    node.merge();
    let v = node.vote(5).unwrap();
    assert_eq!(v.chain_head_hash, "b5");
    assert_eq!(KAPPA, 4);
    assert_eq!(node.ch_ava, "b1");
    let prefix_slot = node
        .frozen_view()
        .blocks
        .iter()
        .find(|b| b.hash == node.ch_ava)
        .unwrap()
        .slot;
    assert!(prefix_slot <= 1);
    assert_eq!(v.target, cp("b1", 5));
}

#[test]
fn vote_reports_missing_available_head() {
    let mut node = Node::new(0, 4).unwrap();
    node.ch_ava = "unknown".to_string();
    assert!(matches!(node.vote(1), Err(ViewError::MissingAncestor)));
    assert_eq!(node.ch_ava, "unknown");
}

#[test]
fn fast_confirm_above_two_thirds() {
    let mut node = Node::new(0, 4).unwrap();
    for i in 0..3 {
        node.receive_message(None, Some(head_vote(i, 2, "H")));
    }
    node.fast_confirm(2);
    assert_eq!(node.ch_ava, "H");
    assert_eq!(node.ch_fin, "genesis_hash");
}

#[test]
fn fast_confirm_not_at_exactly_two_thirds() {
    let mut node = Node::new(0, 6).unwrap();
    for i in 0..4 {
        node.receive_message(None, Some(head_vote(i, 2, "H")));
    }
    node.fast_confirm(2);
    assert_eq!(node.ch_ava, "genesis_hash");
    node.receive_message(None, Some(head_vote(4, 2, "H")));
    node.fast_confirm(2);
    assert_eq!(node.ch_ava, "H");
}

#[test]
fn fast_confirm_counts_only_current_slot() {
    let mut node = Node::new(0, 4).unwrap();
    for i in 0..3 {
        node.receive_message(None, Some(head_vote(i, 1, "H")));
    }
    node.fast_confirm(2);
    assert_eq!(node.ch_ava, "genesis_hash");
}

#[test]
fn merge_copies_view() {
    let mut node = Node::new(0, 4).unwrap();
    node.receive_message(Some(block("A", "genesis_hash", 1)), Some(head_vote(0, 1, "A")));
    node.merge();
    assert_eq!(node.frozen_view().blocks.len(), 2);
    assert_eq!(node.frozen_view().votes.len(), 1);
    assert_eq!(node.justification_cache.len(), 0);
}

#[test]
fn truncates_long_hashes() {
    assert_eq!(truncate_hash("block_slot_1_proposer_0"), "block_slot_1...");
    assert_eq!(truncate_hash("genesis_hash"), "genesis_hash");
    assert_eq!(truncate_hash(""), "");
}

#[test]
fn hash_order_is_lexicographic() {
    assert!(hash_less(&"a".to_string(), &"b".to_string()));
    assert!(hash_less(&"ab".to_string(), &"abc".to_string()));
    assert!(!hash_less(&"abc".to_string(), &"abc".to_string()));
    assert!(!hash_less(&"b".to_string(), &"abc".to_string()));
}

#[test]
fn clones_are_equal() {
    let c = cp("B", 1);
    assert_eq!(c.clone(), c);
    let v = view_with(chain_b(), vec![head_vote(0, 1, "B")]);
    let w = v.clone();
    assert_eq!(w.blocks.len(), 2);
    assert_eq!(w.votes[0].chain_head_hash, "B");
    assert_ne!(cp("B", 1), cp("B", 2));
}

#[test]
fn default_view_is_empty() {
    let v = View::default();
    assert!(v.blocks.is_empty());
    assert!(v.votes.is_empty());
}
