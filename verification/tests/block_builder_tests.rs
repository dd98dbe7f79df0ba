use mev_shield::block_builder::{
    verify_mev_protection_proof, BlockBuilderCoordinator, BlockProposal, BuilderError, BuilderInfo, CoordinationConfig,
    MEVProtectionProof, ProposalAggregator,
};
use mev_shield::types::Address;

const NOW: i64 = 1_700_000_000_000;
const ETHER: u128 = 1_000_000_000_000_000_000;

fn proposal_from(builder: u8, full: bool) -> BlockProposal {
    BlockProposal {
        builder: Address([builder; 20]),
        block_hash: mev_shield::types::Hash([9u8; 32]),
        transactions: Vec::new(),
        mev_protection_proof: MEVProtectionProof {
            fair_ordering_proof: vec![1],
            no_sandwich_proof: vec![1],
            no_frontrun_proof: if full { vec![1] } else { Vec::new() },
            encryption_proof: vec![1],
        },
        timestamp: 0,
        signature: Vec::new(),
    }
}

fn proposal(full: bool) -> BlockProposal {
    proposal_from(7, full)
}

fn builder(id: u8, score: u64, active: bool) -> BuilderInfo {
    BuilderInfo {
        address: Address([id; 20]),
        reputation_score: score,
        blocks_built: 0,
        blocks_accepted: 0,
        last_active: NOW,
        stake: 2 * ETHER,
        is_active: active,
    }
}

fn config(min_builders: usize) -> CoordinationConfig {
    CoordinationConfig { min_builders, ..CoordinationConfig::default() }
}

#[test]
fn proposals_need_full_proofs_and_active_builders() {
    assert!(verify_mev_protection_proof(&proposal(true).mev_protection_proof));
    assert!(!verify_mev_protection_proof(&proposal(false).mev_protection_proof));
    let mut c = BlockBuilderCoordinator::new(config(1));
    assert_eq!(c.verify_proposal(&proposal(true)), Err(BuilderError::UnknownBuilder));
    c.register_builder(builder(7, 5000, false)).unwrap();
    assert_eq!(c.verify_proposal(&proposal(true)), Ok(false));
    c.register_builder(builder(7, 5000, true)).unwrap();
    assert_eq!(c.verify_proposal(&proposal(true)), Ok(true));
    assert_eq!(c.verify_proposal(&proposal(false)), Ok(false));
}

#[test]
fn best_proposal_and_block() {
    let mut c = BlockBuilderCoordinator::new(config(1));
    assert!(matches!(c.select_best_proposal(Vec::new()), Err(BuilderError::NoProposals)));
    let mut pool = ProposalAggregator::new();
    pool.add_proposal(proposal(true));
    pool.add_proposal(proposal(false));
    let all = pool.collect_proposals();
    assert_eq!(all.len(), 2);
    assert!(pool.collect_proposals().is_empty());
    c.register_builder(builder(7, 5000, true)).unwrap();
    let best = c.select_best_proposal(all).unwrap();
    let block = c.finalize_block(best, NOW);
    assert_eq!(block.hash.0, [9u8; 32]);
    assert_eq!(block.base_fee, 1_000_000_000);
    assert_eq!(block.number, 0);
    assert_eq!(block.timestamp, NOW / 1000);
    assert_eq!(c.builders[0].blocks_built, 1);
    assert_eq!(c.builders[0].blocks_accepted, 1);
}

#[test]
fn registration_needs_stake_and_replaces_by_address() {
    let mut c = BlockBuilderCoordinator::new(CoordinationConfig::default());
    let mut poor = builder(1, 5000, true);
    poor.stake = ETHER - 1;
    assert_eq!(c.register_builder(poor), Err(BuilderError::InsufficientStake));
    assert!(c.builders.is_empty());
    c.register_builder(builder(1, 5000, true)).unwrap();
    c.register_builder(builder(1, 6000, true)).unwrap();
    assert_eq!(c.builders.len(), 1);
    assert_eq!(c.builders[0].reputation_score, 6000);
}

#[test]
fn selection_takes_the_best_eligible_builders() {
    let mut c = BlockBuilderCoordinator::new(config(2));
    c.register_builder(builder(1, 4000, true)).unwrap();
    c.register_builder(builder(2, 9000, false)).unwrap();
    c.register_builder(builder(3, 2000, true)).unwrap();
    match c.select_builders() {
        Err(BuilderError::InsufficientBuilders { found, required }) => {
            assert_eq!(found, 1);
            assert_eq!(required, 2);
        }
        _ => panic!("too few eligible builders"),
    }
    c.register_builder(builder(4, 7000, true)).unwrap();
    c.register_builder(builder(5, 5000, true)).unwrap();
    let chosen = c.select_builders().unwrap();
    assert_eq!(chosen, vec![Address([4u8; 20]), Address([5u8; 20])]);
    c.rotate_builders().unwrap();
    let active: Vec<u8> = c.builders.iter().filter(|b| b.is_active).map(|b| b.address.0[0]).collect();
    assert_eq!(active, vec![4, 5]);
}

#[test]
fn slashing_and_cleanup() {
    let mut c = BlockBuilderCoordinator::new(CoordinationConfig::default());
    c.register_builder(builder(1, 5000, true)).unwrap();
    let mut old = builder(2, 5000, true);
    old.last_active = NOW - 8 * 24 * 3600 * 1000;
    c.register_builder(old).unwrap();
    c.slash_builder(Address([1u8; 20]), "double signing");
    assert_eq!(c.builders[0].stake, ETHER);
    assert!(!c.builders[0].is_active);
    c.slash_builder(Address([9u8; 20]), "unknown");
    assert_eq!(c.builders.len(), 2);
    c.cleanup_inactive_builders_at(NOW);
    assert_eq!(c.builders.len(), 1);
    c.slash_builder(Address([1u8; 20]), "again");
    assert!(c.builders.is_empty());
}

#[test]
fn collection_keeps_accepted_proposals() {
    let mut c = BlockBuilderCoordinator::new(config(1));
    c.register_builder(builder(7, 5000, true)).unwrap();
    c.register_builder(builder(8, 5000, false)).unwrap();
    c.proposal_aggregator.add_proposal(proposal_from(7, true));
    c.proposal_aggregator.add_proposal(proposal_from(8, true));
    c.proposal_aggregator.add_proposal(proposal_from(7, false));
    let kept = c.collect_proposals().unwrap();
    assert_eq!(kept.len(), 1);
    assert_eq!(kept[0].builder, Address([7u8; 20]));
    assert!(c.proposal_aggregator.proposals.is_empty());
    c.proposal_aggregator.add_proposal(proposal_from(3, true));
    assert!(matches!(c.collect_proposals(), Err(BuilderError::UnknownBuilder)));
}
