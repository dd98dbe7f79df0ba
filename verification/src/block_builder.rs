//! Block proposals from builders: the checks a proposal passes, the choice among them, the
//! block a chosen proposal becomes, and the pool that collects proposals.
use vstd::prelude::*;
use crate::detection::Block;
use crate::types::{secs_of, seconds_of, Address, Transaction};

verus! {

/// The evidence a builder attaches that a block protects against MEV.
#[derive(Debug, Clone)]
pub struct MEVProtectionProof {
    pub fair_ordering_proof: Vec<u8>,
    pub no_sandwich_proof: Vec<u8>,
    pub no_frontrun_proof: Vec<u8>,
    pub encryption_proof: Vec<u8>,
}

/// A block proposed by a builder; `timestamp` is in milliseconds since the epoch.
#[derive(Debug, Clone)]
pub struct BlockProposal {
    pub builder: Address,
    pub block_hash: crate::types::Hash,
    pub transactions: Vec<Transaction>,
    pub mev_protection_proof: MEVProtectionProof,
    pub timestamp: i64,
    pub signature: Vec<u8>,
}

/// Errors of the builder coordination.
#[derive(Debug, Clone, PartialEq, Eq, Structural)]
pub enum BuilderError {
    /// The proposal names a builder that is not registered.
    UnknownBuilder,
    /// There is no proposal to choose from.
    NoProposals,
    /// A builder's stake is below the slashing amount.
    InsufficientStake,
    /// Fewer eligible builders than the coordination needs.
    InsufficientBuilders { found: usize, required: usize },
}

/// A proof is accepted when each of its four parts is present (non-empty).
pub open spec fn proof_present(p: MEVProtectionProof) -> bool {
    p.fair_ordering_proof@.len() > 0 && p.no_sandwich_proof@.len() > 0 && p.no_frontrun_proof@.len() > 0
        && p.encryption_proof@.len() > 0
}

/// A proof with any of its four parts empty (the encryption proof among them) is
/// rejected, and one with all four present is accepted.
pub proof fn lemma_proof_needs_every_part(p: MEVProtectionProof)
    ensures
        p.fair_ordering_proof@.len() == 0 ==> !proof_present(p),
        p.no_sandwich_proof@.len() == 0 ==> !proof_present(p),
        p.no_frontrun_proof@.len() == 0 ==> !proof_present(p),
        p.encryption_proof@.len() == 0 ==> !proof_present(p),
        p.fair_ordering_proof@.len() > 0 && p.no_sandwich_proof@.len() > 0 && p.no_frontrun_proof@.len() > 0
            && p.encryption_proof@.len() > 0 ==> proof_present(p),
{
}

/// Whether a protection proof is accepted: all four parts present.
pub fn verify_mev_protection_proof(proof: &MEVProtectionProof) -> (r: bool)
    ensures
        r == proof_present(*proof),
{
    !proof.fair_ordering_proof.is_empty() && !proof.no_sandwich_proof.is_empty()
        && !proof.no_frontrun_proof.is_empty() && !proof.encryption_proof.is_empty()
}

/// Whether a proposal is accepted, given whether its builder is registered and active
/// (`None` for a builder that is not registered): an unknown builder is an error; an
/// inactive builder's proposal, or one without a full proof, is refused.
fn proposal_verdict(proposal: &BlockProposal, builder_active: Option<bool>) -> (r: Result<bool, BuilderError>)
    ensures
        match builder_active {
            None => r == Err::<bool, BuilderError>(BuilderError::UnknownBuilder),
            Some(active) => r == Ok::<bool, BuilderError>(active && proof_present(proposal.mev_protection_proof)),
        },
{
    match builder_active {
        None => Err(BuilderError::UnknownBuilder),
        Some(active) => {
            if !active {
                return Ok(false);
            }
            Ok(verify_mev_protection_proof(&proposal.mev_protection_proof))
        },
    }
}

/// The block a chosen proposal becomes at `now` (seconds): its hash and transactions,
/// number and parent left for consensus (zero), the base fee of one gwei.
fn block_of_proposal(proposal: BlockProposal, now: i64) -> (b: Block)
    ensures
        b.hash == proposal.block_hash,
        b.transactions == proposal.transactions,
        b.number == 0,
        b.timestamp == now,
        b.base_fee == 1_000_000_000,
        forall|i: int| 0 <= i < 32 ==> b.parent_hash.0@[i] == 0,
{
    Block {
        number: 0,
        hash: proposal.block_hash,
        parent_hash: crate::types::Hash([0u8; 32]),
        timestamp: now,
        base_fee: 1_000_000_000,
        transactions: proposal.transactions,
    }
}

/// Proposals received since the last collection, in arrival order.
pub struct ProposalAggregator {
    pub proposals: Vec<BlockProposal>,
}

impl ProposalAggregator {
    pub fn new() -> (a: Self)
        ensures
            a.proposals@.len() == 0,
    {
        ProposalAggregator { proposals: Vec::new() }
    }

    /// Adds a proposal.
    pub fn add_proposal(&mut self, proposal: BlockProposal)
        ensures
            final(self).proposals@ == old(self).proposals@.push(proposal),
    {
        self.proposals.push(proposal);
    }

    /// Hands out every proposal received, in arrival order, and empties the pool.
    pub fn collect_proposals(&mut self) -> (r: Vec<BlockProposal>)
        ensures
            r@ == old(self).proposals@,
            final(self).proposals@.len() == 0,
    {
        let mut collected: Vec<BlockProposal> = Vec::new();
        std::mem::swap(&mut collected, &mut self.proposals);
        collected
    }
}

/// Settings of the builder coordination: how many builders a block needs, how often
/// they rotate and how long proposals are awaited (seconds), the reputation a builder
/// needs (as the reputation system's order key) and the stake a slash takes (wei).
#[derive(Debug, Clone, Copy, PartialEq, Eq, Structural)]
pub struct CoordinationConfig {
    pub min_builders: usize,
    pub rotation_interval: u64,
    pub proposal_timeout: u64,
    pub reputation_threshold: u64,
    pub slashing_amount: u128,
}

impl Default for CoordinationConfig {
    /// Five builders, rotated every five minutes, proposals awaited ten seconds, a
    /// reputation of 30 (in hundredths of a point: 3000), a slash of one ether.
    fn default() -> (c: Self)
        ensures
            c == (CoordinationConfig {
                min_builders: 5,
                rotation_interval: 300,
                proposal_timeout: 10,
                reputation_threshold: 3000,
                slashing_amount: 1_000_000_000_000_000_000,
            }),
    {
        CoordinationConfig {
            min_builders: 5,
            rotation_interval: 300,
            proposal_timeout: 10,
            reputation_threshold: 3000,
            slashing_amount: 1_000_000_000_000_000_000,
        }
    }
}

/// A registered builder. `reputation_score` is the order key of its reputation (higher is
/// better); `last_active` is in milliseconds since the epoch; `stake` is in wei.
#[derive(Debug, Clone, Copy)]
pub struct BuilderInfo {
    pub address: Address,
    pub reputation_score: u64,
    pub blocks_built: u64,
    pub blocks_accepted: u64,
    pub last_active: i64,
    pub stake: u128,
    pub is_active: bool,
}

/// How long a builder may stay inactive before it is removed: seven days, in milliseconds.
pub const BUILDER_INACTIVITY_LIMIT: i64 = 604_800_000;

/// The index of the builder with address `a`, if any.
pub open spec fn builder_index(bs: Seq<BuilderInfo>, a: Seq<u8>) -> Option<int> {
    if exists|i: int| 0 <= i < bs.len() && (#[trigger] bs[i]).address.0@ == a {
        Some(choose|i: int| 0 <= i < bs.len() && (#[trigger] bs[i]).address.0@ == a)
    } else {
        None
    }
}

/// No two builders share an address.
pub open spec fn unique_builders(bs: Seq<BuilderInfo>) -> bool {
    forall|i: int, j: int|
        0 <= i < j < bs.len() ==> (#[trigger] bs[i]).address.0@ != (#[trigger] bs[j]).address.0@
}

/// A builder may build when it is active and its reputation reaches the threshold.
pub open spec fn eligible(b: BuilderInfo, threshold: u64) -> bool {
    b.is_active && b.reputation_score >= threshold
}

/// The indices of the eligible builders, in registry order.
pub open spec fn eligible_indices(bs: Seq<BuilderInfo>, threshold: u64) -> Seq<int>
    decreases bs.len(),
{
    if bs.len() == 0 {
        Seq::empty()
    } else if eligible(bs.last(), threshold) {
        eligible_indices(bs.drop_last(), threshold).push(bs.len() - 1)
    } else {
        eligible_indices(bs.drop_last(), threshold)
    }
}

/// `idx` picks distinct eligible builders, best reputation first, and no eligible builder
/// left out has a better reputation than one picked.
pub open spec fn top_builders(bs: Seq<BuilderInfo>, threshold: u64, idx: Seq<int>) -> bool {
    &&& forall|k: int| 0 <= k < idx.len() ==> 0 <= #[trigger] idx[k] < bs.len() && eligible(bs[idx[k]], threshold)
    &&& forall|a: int, b: int| 0 <= a < b < idx.len() ==> idx[a] != idx[b]
    &&& forall|a: int, b: int|
        0 <= a < b < idx.len() ==> bs[#[trigger] idx[a]].reputation_score >= bs[#[trigger] idx[b]].reputation_score
    &&& forall|j: int|
        0 <= j < bs.len() && eligible(bs[j], threshold) && !idx.contains(j) ==> forall|k: int|
            0 <= k < idx.len() ==> bs[j].reputation_score <= bs[#[trigger] idx[k]].reputation_score
}

/// The eligible indices are in range, eligible and increasing.
proof fn lemma_eligible_indices(bs: Seq<BuilderInfo>, threshold: u64)
    ensures
        forall|k: int|
            0 <= k < eligible_indices(bs, threshold).len() ==> 0 <= #[trigger] eligible_indices(bs, threshold)[k]
                < bs.len() && eligible(bs[eligible_indices(bs, threshold)[k]], threshold),
        forall|a: int, b: int|
            0 <= a < b < eligible_indices(bs, threshold).len() ==> #[trigger] eligible_indices(bs, threshold)[a]
                < #[trigger] eligible_indices(bs, threshold)[b],
        eligible_indices(bs, threshold).len() <= bs.len(),
    decreases bs.len(),
{
    if bs.len() > 0 {
        lemma_eligible_indices(bs.drop_last(), threshold);
        let p = eligible_indices(bs.drop_last(), threshold);
        assert forall|k: int| 0 <= k < p.len() implies bs[p[k]] == bs.drop_last()[p[k]] by {}
    }
}

/// Every eligible builder has a position among the eligible indices.
proof fn lemma_eligible_position(bs: Seq<BuilderInfo>, threshold: u64, j: int)
    requires
        0 <= j < bs.len(),
        eligible(bs[j], threshold),
    ensures
        exists|z: int| 0 <= z < eligible_indices(bs, threshold).len() && eligible_indices(bs, threshold)[z] == j,
    decreases bs.len(),
{
    let e = eligible_indices(bs, threshold);
    if j == bs.len() - 1 {
        assert(e[e.len() - 1] == j);
    } else {
        assert(bs.drop_last()[j] == bs[j]);
        lemma_eligible_position(bs.drop_last(), threshold, j);
        let p = eligible_indices(bs.drop_last(), threshold);
        let z = choose|z: int| 0 <= z < p.len() && p[z] == j;
        assert(e[z] == p[z]);
    }
}

/// How many flags are not set.
pub open spec fn untaken_count(t: Seq<bool>) -> nat
    decreases t.len(),
{
    if t.len() == 0 {
        0
    } else {
        untaken_count(t.drop_last()) + if t.last() { 0nat } else { 1nat }
    }
}

/// With no flag set, all are untaken.
proof fn lemma_untaken_all(t: Seq<bool>)
    requires
        forall|q: int| 0 <= q < t.len() ==> !#[trigger] t[q],
    ensures
        untaken_count(t) == t.len(),
    decreases t.len(),
{
    if t.len() > 0 {
        lemma_untaken_all(t.drop_last());
    }
}

/// Some flag is unset while the count is positive.
proof fn lemma_untaken_exists(t: Seq<bool>)
    requires
        untaken_count(t) > 0,
    ensures
        exists|q: int| 0 <= q < t.len() && !t[q],
    decreases t.len(),
{
    if !t.last() {
        assert(!t[t.len() - 1]);
    } else {
        lemma_untaken_exists(t.drop_last());
        let q = choose|q: int| 0 <= q < t.drop_last().len() && !t.drop_last()[q];
        assert(!t[q]);
    }
}

/// Setting an unset flag takes one off the count.
proof fn lemma_untaken_take(t: Seq<bool>, p: int)
    requires
        0 <= p < t.len(),
        !t[p],
    ensures
        untaken_count(t.update(p, true)) == untaken_count(t) - 1,
    decreases t.len(),
{
    if p == t.len() - 1 {
        assert(t.update(p, true).drop_last() =~= t.drop_last());
    } else {
        assert(t.update(p, true).drop_last() =~= t.drop_last().update(p, true));
        lemma_untaken_take(t.drop_last(), p);
    }
}

/// A builder with its active flag set to `act`.
pub open spec fn with_active(b: BuilderInfo, act: bool) -> BuilderInfo {
    BuilderInfo { is_active: act, ..b }
}

/// Whether an address is among `v`.
fn holds_address(v: &Vec<Address>, a: &Address) -> (r: bool)
    ensures
        r == exists|j: int| 0 <= j < v@.len() && (#[trigger] v@[j]).0@ == a.0@,
{
    let mut j: usize = 0;
    while j < v.len()
        invariant
            j <= v@.len(),
            forall|k: int| 0 <= k < j ==> (#[trigger] v@[k]).0@ != a.0@,
        decreases v@.len() - j,
    {
        if v[j] == *a {
            return true;
        }
        j = j + 1;
    }
    false
}

/// The builders active within seven days of `now`, in order.
pub open spec fn recently_active(bs: Seq<BuilderInfo>, now: i64) -> Seq<BuilderInfo>
    decreases bs.len(),
{
    if bs.len() == 0 {
        Seq::empty()
    } else if now - bs.last().last_active <= BUILDER_INACTIVITY_LIMIT {
        recently_active(bs.drop_last(), now).push(bs.last())
    } else {
        recently_active(bs.drop_last(), now)
    }
}

/// Keeping some builders keeps addresses unique.
proof fn lemma_recently_active_unique(bs: Seq<BuilderInfo>, now: i64)
    requires
        unique_builders(bs),
    ensures
        unique_builders(recently_active(bs, now)),
        forall|k: int|
            0 <= k < recently_active(bs, now).len() ==> bs.contains(#[trigger] recently_active(bs, now)[k]),
    decreases bs.len(),
{
    if bs.len() > 0 {
        let d = bs.drop_last();
        assert(unique_builders(d)) by {
            assert forall|i: int, j: int| 0 <= i < j < d.len() implies (#[trigger] d[i]).address.0@
                != (#[trigger] d[j]).address.0@ by {
                assert(d[i] == bs[i] && d[j] == bs[j]);
            }
        }
        lemma_recently_active_unique(d, now);
        let p = recently_active(d, now);
        assert forall|k: int| 0 <= k < p.len() implies bs.contains(#[trigger] p[k]) by {
            let w = choose|w: int| 0 <= w < d.len() && d[w] == p[k];
            assert(bs[w] == p[k]);
        }
        if now - bs.last().last_active <= BUILDER_INACTIVITY_LIMIT {
            let r = p.push(bs.last());
            assert forall|i: int, j: int| 0 <= i < j < r.len() implies (#[trigger] r[i]).address.0@
                != (#[trigger] r[j]).address.0@ by {
                if j == r.len() - 1 {
                    let w = choose|w: int| 0 <= w < d.len() && d[w] == p[i];
                    assert(bs[w] == p[i]);
                    assert(bs[w].address.0@ != bs[bs.len() - 1].address.0@);
                } else {
                    assert(r[i] == p[i] && r[j] == p[j]);
                }
            }
            assert(bs.contains(bs.last())) by {
                assert(bs[bs.len() - 1] == bs.last());
            }
        }
    }
}

/// What checking a proposal against the registry gives: an unknown builder is an error,
/// else whether its builder is active and its proof complete.
pub open spec fn proposal_outcome(bs: Seq<BuilderInfo>, p: BlockProposal) -> Result<bool, BuilderError> {
    match builder_index(bs, p.builder.0@) {
        None => Err(BuilderError::UnknownBuilder),
        Some(i) => Ok(bs[i].is_active && proof_present(p.mev_protection_proof)),
    }
}

/// The accepted proposals of `ps`, in order, or the error of the first one whose builder
/// is unknown.
pub open spec fn accepted_proposals(bs: Seq<BuilderInfo>, ps: Seq<BlockProposal>) -> Result<
    Seq<BlockProposal>,
    BuilderError,
>
    decreases ps.len(),
{
    if ps.len() == 0 {
        Ok(Seq::empty())
    } else {
        match accepted_proposals(bs, ps.drop_last()) {
            Err(e) => Err(e),
            Ok(v) => match proposal_outcome(bs, ps.last()) {
                Err(e) => Err(e),
                Ok(true) => Ok(v.push(ps.last())),
                Ok(false) => Ok(v),
            },
        }
    }
}

/// Once the proposals up to `i` are accepted and the one at `i` fails, every longer
/// prefix, and the whole, fails with that error.
proof fn lemma_accepted_error(bs: Seq<BuilderInfo>, ps: Seq<BlockProposal>, i: int)
    requires
        0 <= i < ps.len(),
        accepted_proposals(bs, ps.subrange(0, i)) is Ok,
        proposal_outcome(bs, ps[i]) is Err,
    ensures
        accepted_proposals(bs, ps) == Err::<Seq<BlockProposal>, BuilderError>(proposal_outcome(bs, ps[i])->Err_0),
    decreases ps.len() - i,
{
    if i == ps.len() - 1 {
        assert(ps.drop_last() =~= ps.subrange(0, i));
    } else {
        assert(ps.drop_last().subrange(0, i) =~= ps.subrange(0, i));
        lemma_accepted_error(bs, ps.drop_last(), i);
    }
}

/// A builder just registered is known: a proposal of its address is judged by the
/// registered builder's activity and the proposal's proof, never refused as unknown.
pub proof fn lemma_registered_builder_known(
    before: Seq<BuilderInfo>,
    b: BuilderInfo,
    after: Seq<BuilderInfo>,
    p: BlockProposal,
)
    requires
        unique_builders(before),
        p.builder.0@ == b.address.0@,
        match builder_index(before, b.address.0@) {
            Some(i) => after == before.update(i, b),
            None => after == before.push(b),
        },
    ensures
        proposal_outcome(after, p) == Ok::<bool, BuilderError>(b.is_active && proof_present(p.mev_protection_proof)),
{
    let a = b.address.0@;
    let w: int = match builder_index(before, a) {
        Some(i) => i,
        None => before.len() as int,
    };
    assert(after[w] == b);
    assert(builder_index(after, a) is Some);
    let j = builder_index(after, a).unwrap();
    if j != w {
        assert(after[j] == before[j]);
        if builder_index(before, a) is None {
            assert(before[j].address.0@ == a);
        } else {
            let i = builder_index(before, a).unwrap();
            assert(before[i].address.0@ == a);
            if j < i {
                assert(before[j].address.0@ != before[i].address.0@);
            } else {
                assert(before[i].address.0@ != before[j].address.0@);
            }
        }
    }
}

/// The coordinator: its settings, the registered builders (each address once) and the
/// pool of proposals.
pub struct BlockBuilderCoordinator {
    pub config: CoordinationConfig,
    pub builders: Vec<BuilderInfo>,
    pub proposal_aggregator: ProposalAggregator,
}

impl BlockBuilderCoordinator {
    /// The registry is well formed: each address once.
    pub open spec fn wf(&self) -> bool {
        unique_builders(self.builders@)
    }

    /// A coordinator with no builders and no proposals.
    pub fn new(config: CoordinationConfig) -> (c: Self)
        ensures
            c.wf(),
            c.config == config,
            c.builders@.len() == 0,
            c.proposal_aggregator.proposals@.len() == 0,
    {
        BlockBuilderCoordinator { config, builders: Vec::new(), proposal_aggregator: ProposalAggregator::new() }
    }

    /// The index of the builder with the given address.
    fn find_builder(&self, address: &Address) -> (r: Option<usize>)
        requires
            self.wf(),
        ensures
            match r {
                Some(i) => builder_index(self.builders@, address.0@) == Some(i as int),
                None => builder_index(self.builders@, address.0@) is None,
            },
    {
        let mut i: usize = 0;
        while i < self.builders.len()
            invariant
                i <= self.builders@.len(),
                unique_builders(self.builders@),
                forall|k: int| 0 <= k < i ==> (#[trigger] self.builders@[k]).address.0@ != address.0@,
            decreases self.builders@.len() - i,
        {
            if self.builders[i].address == *address {
                proof {
                    let bs = self.builders@;
                    assert(bs[i as int].address.0@ == address.0@);
                    let c = choose|c: int| 0 <= c < bs.len() && (#[trigger] bs[c]).address.0@ == address.0@;
                    if c != i {
                        if c < i {
                            assert(bs[c].address.0@ != bs[i as int].address.0@);
                        } else {
                            assert(bs[i as int].address.0@ != bs[c].address.0@);
                        }
                    }
                }
                return Some(i);
            }
            i = i + 1;
        }
        None
    }

    /// Registers a builder, replacing one with the same address; a stake below the
    /// slashing amount is refused.
    pub fn register_builder(&mut self, builder: BuilderInfo) -> (r: Result<(), BuilderError>)
        requires
            old(self).wf(),
        ensures
            final(self).wf(),
            final(self).config == old(self).config,
            builder.stake < old(self).config.slashing_amount ==> r == Err::<(), BuilderError>(
                BuilderError::InsufficientStake,
            ) && final(self).builders@ == old(self).builders@,
            builder.stake >= old(self).config.slashing_amount ==> r is Ok && match builder_index(
                old(self).builders@,
                builder.address.0@,
            ) {
                Some(i) => final(self).builders@ == old(self).builders@.update(i, builder),
                None => final(self).builders@ == old(self).builders@.push(builder),
            },
    {
        if builder.stake < self.config.slashing_amount {
            return Err(BuilderError::InsufficientStake);
        }
        match self.find_builder(&builder.address) {
            Some(i) => {
                self.builders.set(i, builder);
            },
            None => {
                self.builders.push(builder);
            },
        }
        Ok(())
    }

    /// The addresses of the builders for the next block: the `min_builders` eligible
    /// builders with the highest reputation, best first (among equal reputations any may
    /// come first); fewer eligible builders than that is an error that says how many
    /// there are.
    pub fn select_builders(&self) -> (r: Result<Vec<Address>, BuilderError>)
        ensures
            eligible_indices(self.builders@, self.config.reputation_threshold).len() < self.config.min_builders ==> r
                == Err::<Vec<Address>, BuilderError>(
                BuilderError::InsufficientBuilders {
                    found: eligible_indices(self.builders@, self.config.reputation_threshold).len() as usize,
                    required: self.config.min_builders,
                },
            ),
            eligible_indices(self.builders@, self.config.reputation_threshold).len() >= self.config.min_builders ==> (
            r matches Ok(v) && exists|idx: Seq<int>|
                #[trigger] top_builders(self.builders@, self.config.reputation_threshold, idx) && idx.len()
                    == self.config.min_builders && v@.len() == idx.len() && forall|k: int|
                    0 <= k < idx.len() ==> #[trigger] v@[k].0@ == self.builders@[idx[k]].address.0@),
    {
        let ghost bs = self.builders@;
        let threshold = self.config.reputation_threshold;
        let min = self.config.min_builders;
        let mut elig: Vec<usize> = Vec::new();
        let mut i: usize = 0;
        while i < self.builders.len()
            invariant
                i <= bs.len(),
                bs == self.builders@,
                threshold == self.config.reputation_threshold,
                elig@.len() == eligible_indices(bs.subrange(0, i as int), threshold).len(),
                forall|k: int| 0 <= k < elig@.len() ==> #[trigger] elig@[k] as int == eligible_indices(bs.subrange(0, i as int), threshold)[k],
            decreases bs.len() - i,
        {
            let ghost before = eligible_indices(bs.subrange(0, i as int), threshold);
            proof {
                assert(bs.subrange(0, i + 1).drop_last() =~= bs.subrange(0, i as int));
            }
            if self.builders[i].is_active && self.builders[i].reputation_score >= threshold {
                elig.push(i);
            }
            i = i + 1;
        }
        proof {
            assert(bs.subrange(0, bs.len() as int) =~= bs);
            lemma_eligible_indices(bs, threshold);
        }
        let ghost e = eligible_indices(bs, threshold);
        if elig.len() < min {
            return Err(BuilderError::InsufficientBuilders { found: elig.len(), required: min });
        }
        let m = elig.len();
        let mut taken: Vec<bool> = Vec::new();
        let mut t: usize = 0;
        while t < m
            invariant
                t <= m,
                taken@.len() == t,
                forall|q: int| 0 <= q < t ==> !#[trigger] taken@[q],
            decreases m - t,
        {
            taken.push(false);
            t = t + 1;
        }
        proof {
            lemma_untaken_all(taken@);
        }
        let mut picks: Vec<usize> = Vec::new();
        let mut out: Vec<Address> = Vec::new();
        while picks.len() < min
            invariant
                bs == self.builders@,
                m == elig@.len(),
                e == eligible_indices(bs, threshold),
                e.len() == m,
                forall|k: int| 0 <= k < m ==> #[trigger] elig@[k] as int == e[k],
                forall|k: int| 0 <= k < m ==> 0 <= #[trigger] e[k] < bs.len() && eligible(bs[e[k]], threshold),
                forall|a: int, b: int| 0 <= a < b < m ==> #[trigger] e[a] < #[trigger] e[b],
                min <= m,
                taken@.len() == m,
                untaken_count(taken@) == m - picks@.len(),
                picks@.len() <= min,
                out@.len() == picks@.len(),
                forall|k: int| 0 <= k < picks@.len() ==> #[trigger] picks@[k] < m && taken@[picks@[k] as int],
                forall|k: int| 0 <= k < picks@.len() ==> #[trigger] out@[k].0@ == bs[e[picks@[k] as int]].address.0@,
                forall|a: int, b: int| 0 <= a < b < picks@.len() ==> #[trigger] picks@[a] != #[trigger] picks@[b],
                forall|q: int| 0 <= q < m && taken@[q] ==> picks@.contains(q as usize),
                forall|a: int, b: int|
                    0 <= a < b < picks@.len() ==> bs[e[#[trigger] picks@[a] as int]].reputation_score >= bs[e[#[trigger] picks@[b] as int]].reputation_score,
                forall|q: int, k: int| #![trigger taken@[q], picks@[k]]
                    0 <= q < m && !taken@[q] && 0 <= k < picks@.len() ==> bs[e[q]].reputation_score <= bs[e[picks@[k] as int]].reputation_score,
            decreases min - picks@.len(),
        {
            proof {
                lemma_untaken_exists(taken@);
            }
            let mut best: usize = m;
            let mut q: usize = 0;
            while q < m
                invariant
                    q <= m,
                    m == elig@.len(),
                    taken@.len() == m,
                    best == m || (best < q && !taken@[best as int]),
                    best == m ==> forall|z: int| 0 <= z < q ==> taken@[z],
                    best < m ==> forall|z: int|
                        0 <= z < q && !taken@[z] ==> bs[e[z]].reputation_score <= bs[e[best as int]].reputation_score,
                    bs == self.builders@,
                    forall|k: int| 0 <= k < m ==> #[trigger] elig@[k] as int == e[k],
                    forall|k: int| 0 <= k < m ==> 0 <= #[trigger] e[k] < bs.len(),
                decreases m - q,
            {
                if !taken[q] {
                    if best == m || self.builders[elig[q]].reputation_score > self.builders[elig[best]].reputation_score {
                        best = q;
                    }
                }
                q = q + 1;
            }
            let ghost old_taken = taken@;
            let ghost old_picks = picks@;
            proof {
                if best == m {
                    let z = choose|z: int| 0 <= z < old_taken.len() && !old_taken[z];
                    assert(old_taken[z]);
                }
                lemma_untaken_take(taken@, best as int);
            }
            taken.set(best, true);
            picks.push(best);
            out.push(self.builders[elig[best]].address);
            proof {
                assert forall|z: int| 0 <= z < m && taken@[z] implies picks@.contains(z as usize) by {
                    if z == best as int {
                        assert(picks@[picks@.len() - 1] == best);
                    } else {
                        assert(old_taken[z]);
                        let k = choose|k: int| 0 <= k < old_picks.len() && old_picks[k] == z as usize;
                        assert(picks@[k] == old_picks[k]);
                    }
                }
                assert forall|a: int, b: int| 0 <= a < b < picks@.len() implies #[trigger] picks@[a] != #[trigger] picks@[b] by {
                    if b == picks@.len() - 1 {
                        assert(old_taken[old_picks[a] as int]);
                    } else {
                        assert(picks@[a] == old_picks[a] && picks@[b] == old_picks[b]);
                    }
                }
                assert forall|a: int, b: int|
                    0 <= a < b < picks@.len() implies bs[e[#[trigger] picks@[a] as int]].reputation_score >= bs[e[#[trigger] picks@[b] as int]].reputation_score by {
                    if b == picks@.len() - 1 {
                        assert(picks@[a] == old_picks[a]);
                        assert(!old_taken[best as int]);
                    } else {
                        assert(picks@[a] == old_picks[a] && picks@[b] == old_picks[b]);
                    }
                }
                assert forall|z: int, k: int| #![trigger taken@[z], picks@[k]]
                    0 <= z < m && !taken@[z] && 0 <= k < picks@.len() implies bs[e[z]].reputation_score <= bs[e[picks@[k] as int]].reputation_score by {
                    assert(!old_taken[z]);
                    if k == picks@.len() - 1 {
                    } else {
                        assert(picks@[k] == old_picks[k]);
                    }
                }
            }
        }
        proof {
            let idx = Seq::new(picks@.len(), |k: int| e[picks@[k] as int]);
            assert forall|j: int|
                0 <= j < bs.len() && eligible(bs[j], threshold) && !idx.contains(j) implies forall|k: int|
                0 <= k < idx.len() ==> bs[j].reputation_score <= bs[#[trigger] idx[k]].reputation_score by {
                lemma_eligible_position(bs, threshold, j);
                let z = choose|z: int| 0 <= z < e.len() && e[z] == j;
                if taken@[z] {
                    let k = choose|k: int| 0 <= k < picks@.len() && picks@[k] == z as usize;
                    assert(idx[k] == j);
                }
            }
            assert forall|a: int, b: int| 0 <= a < b < idx.len() implies idx[a] != idx[b] by {
                assert(picks@[a] != picks@[b]);
                if e[picks@[a] as int] == e[picks@[b] as int] {
                    if picks@[a] < picks@[b] {
                        assert(e[picks@[a] as int] < e[picks@[b] as int]);
                    } else {
                        assert(e[picks@[b] as int] < e[picks@[a] as int]);
                    }
                }
            }
            assert(top_builders(bs, threshold, idx));
            assert(idx.len() == min && out@.len() == idx.len());
            assert forall|k: int| 0 <= k < idx.len() implies #[trigger] out@[k].0@ == bs[idx[k]].address.0@ by {}
        }
        Ok(out)
    }

    /// Sets which builders are active: the ones selected for the next block, no other.
    /// When too few are eligible, nothing changes.
    pub fn rotate_builders(&mut self) -> (r: Result<(), BuilderError>)
        requires
            old(self).wf(),
        ensures
            final(self).wf(),
            final(self).config == old(self).config,
            final(self).proposal_aggregator == old(self).proposal_aggregator,
            eligible_indices(old(self).builders@, old(self).config.reputation_threshold).len() < old(
                self,
            ).config.min_builders ==> r is Err && final(self).builders@ == old(self).builders@,
            eligible_indices(old(self).builders@, old(self).config.reputation_threshold).len() >= old(
                self,
            ).config.min_builders ==> (r is Ok && exists|idx: Seq<int>|
                #[trigger] top_builders(old(self).builders@, old(self).config.reputation_threshold, idx) && idx.len()
                    == old(self).config.min_builders && final(self).builders@ == Seq::new(
                    old(self).builders@.len(),
                    |k: int| with_active(old(self).builders@[k], idx.contains(k)),
                )),
    {
        let selected = match self.select_builders() {
            Ok(v) => v,
            Err(e) => return Err(e),
        };
        let ghost bs = self.builders@;
        let ghost idx = choose|idx: Seq<int>|
            #[trigger] top_builders(bs, self.config.reputation_threshold, idx) && idx.len() == self.config.min_builders
                && selected@.len() == idx.len() && forall|k: int|
                0 <= k < idx.len() ==> #[trigger] selected@[k].0@ == bs[idx[k]].address.0@;
        let mut i: usize = 0;
        while i < self.builders.len()
            invariant
                i <= bs.len(),
                self.config == old(self).config,
                self.proposal_aggregator == old(self).proposal_aggregator,
                self.builders@.len() == bs.len(),
                unique_builders(bs),
                top_builders(bs, self.config.reputation_threshold, idx),
                selected@.len() == idx.len(),
                forall|k: int| 0 <= k < idx.len() ==> #[trigger] selected@[k].0@ == bs[idx[k]].address.0@,
                forall|k: int| 0 <= k < i ==> #[trigger] self.builders@[k] == with_active(bs[k], idx.contains(k)),
                forall|k: int| i <= k < bs.len() ==> #[trigger] self.builders@[k] == bs[k],
            decreases bs.len() - i,
        {
            let mut b = self.builders[i];
            let act = holds_address(&selected, &b.address);
            proof {
                if act {
                    let j = choose|j: int| 0 <= j < selected@.len() && selected@[j].0@ == b.address.0@;
                    assert(bs[idx[j]].address.0@ == bs[i as int].address.0@);
                    if idx[j] != i {
                        if idx[j] < i {
                            assert(bs[idx[j]].address.0@ != bs[i as int].address.0@);
                        } else {
                            assert(bs[i as int].address.0@ != bs[idx[j]].address.0@);
                        }
                    }
                    assert(idx[j] == i);
                } else {
                    if idx.contains(i as int) {
                        let j = choose|j: int| 0 <= j < idx.len() && idx[j] == i;
                        assert(selected@[j].0@ == b.address.0@);
                    }
                }
            }
            b.is_active = act;
            self.builders.set(i, b);
            i = i + 1;
        }
        proof {
            let target = Seq::new(bs.len(), |k: int| with_active(bs[k], idx.contains(k)));
            assert(self.builders@ =~= target);
            assert forall|a: int, b: int|
                0 <= a < b < self.builders@.len() implies (#[trigger] self.builders@[a]).address.0@
                != (#[trigger] self.builders@[b]).address.0@ by {
                assert(self.builders@[a].address == bs[a].address);
                assert(self.builders@[b].address == bs[b].address);
            }
        }
        Ok(())
    }

    /// Slashes a builder: its stake loses the slashing amount (down to zero) and it is
    /// deactivated; a builder left with no stake is removed. An unknown address changes
    /// nothing.
    pub fn slash_builder(&mut self, builder: Address, reason: &str)
        requires
            old(self).wf(),
        ensures
            final(self).wf(),
            final(self).config == old(self).config,
            final(self).proposal_aggregator == old(self).proposal_aggregator,
            match builder_index(old(self).builders@, builder.0@) {
                None => final(self).builders@ == old(self).builders@,
                Some(i) => {
                    let b = old(self).builders@[i];
                    let stake = if b.stake >= old(self).config.slashing_amount {
                        (b.stake - old(self).config.slashing_amount) as u128
                    } else {
                        0u128
                    };
                    if stake == 0 {
                        final(self).builders@ == old(self).builders@.remove(i)
                    } else {
                        final(self).builders@ == old(self).builders@.update(
                            i,
                            BuilderInfo { stake, is_active: false, ..b },
                        )
                    }
                },
            },
    {
        match self.find_builder(&builder) {
            None => {},
            Some(i) => {
                let mut b = self.builders[i];
                b.stake = b.stake.saturating_sub(self.config.slashing_amount);
                b.is_active = false;
                let ghost bs = self.builders@;
                if b.stake == 0 {
                    self.builders.remove(i);
                    proof {
                        assert forall|x: int, y: int|
                            0 <= x < y < self.builders@.len() implies (#[trigger] self.builders@[x]).address.0@
                            != (#[trigger] self.builders@[y]).address.0@ by {
                            let xo = if x < i { x } else { x + 1 };
                            let yo = if y < i { y } else { y + 1 };
                            assert(self.builders@[x] == bs[xo]);
                            assert(self.builders@[y] == bs[yo]);
                        }
                    }
                } else {
                    self.builders.set(i, b);
                    proof {
                        assert forall|x: int, y: int|
                            0 <= x < y < self.builders@.len() implies (#[trigger] self.builders@[x]).address.0@
                            != (#[trigger] self.builders@[y]).address.0@ by {
                            assert(self.builders@[x].address == bs[x].address);
                            assert(self.builders@[y].address == bs[y].address);
                        }
                    }
                }
            },
        }
    }

    /// Removes the builders inactive for more than seven days at `now` (milliseconds).
    pub fn cleanup_inactive_builders_at(&mut self, now: i64)
        requires
            old(self).wf(),
        ensures
            final(self).wf(),
            final(self).config == old(self).config,
            final(self).proposal_aggregator == old(self).proposal_aggregator,
            final(self).builders@ == recently_active(old(self).builders@, now),
    {
        let ghost bs = self.builders@;
        let mut kept: Vec<BuilderInfo> = Vec::new();
        let mut i: usize = 0;
        while i < self.builders.len()
            invariant
                i <= bs.len(),
                bs == self.builders@,
                kept@ == recently_active(bs.subrange(0, i as int), now),
            decreases bs.len() - i,
        {
            let b = self.builders[i];
            proof {
                assert(bs.subrange(0, i + 1).drop_last() =~= bs.subrange(0, i as int));
            }
            if (now as i128) - (b.last_active as i128) <= BUILDER_INACTIVITY_LIMIT as i128 {
                kept.push(b);
            }
            i = i + 1;
        }
        proof {
            assert(bs.subrange(0, bs.len() as int) =~= bs);
            lemma_recently_active_unique(bs, now);
        }
        self.builders = kept;
    }

    /// Whether a proposal is accepted: its builder must be registered (an unknown one is
    /// an error) and active, and its proof complete.
    pub fn verify_proposal(&self, proposal: &BlockProposal) -> (r: Result<bool, BuilderError>)
        requires
            self.wf(),
        ensures
            r == proposal_outcome(self.builders@, *proposal),
    {
        match self.find_builder(&proposal.builder) {
            None => proposal_verdict(proposal, None),
            Some(i) => proposal_verdict(proposal, Some(self.builders[i].is_active)),
        }
    }

    /// Takes the proposals received and keeps the accepted ones, in arrival order; a
    /// proposal from an unknown builder makes the whole collection fail. The pool is
    /// emptied either way.
    pub fn collect_proposals(&mut self) -> (r: Result<Vec<BlockProposal>, BuilderError>)
        requires
            old(self).wf(),
        ensures
            final(self).wf(),
            final(self).config == old(self).config,
            final(self).builders == old(self).builders,
            final(self).proposal_aggregator.proposals@.len() == 0,
            match accepted_proposals(old(self).builders@, old(self).proposal_aggregator.proposals@) {
                Ok(v) => r matches Ok(w) && w@ == v,
                Err(e) => r == Err::<Vec<BlockProposal>, BuilderError>(e),
            },
    {
        let ghost all = self.proposal_aggregator.proposals@;
        let mut rest = self.proposal_aggregator.collect_proposals();
        let n = rest.len();
        let mut valid: Vec<BlockProposal> = Vec::new();
        let mut i: usize = 0;
        while rest.len() > 0
            invariant
                self.wf(),
                self.config == old(self).config,
                self.builders == old(self).builders,
                self.proposal_aggregator.proposals@.len() == 0,
                all == old(self).proposal_aggregator.proposals@,
                n == all.len(),
                i + rest@.len() == all.len(),
                rest@ == all.subrange(i as int, all.len() as int),
                accepted_proposals(self.builders@, all.subrange(0, i as int)) == Ok::<Seq<BlockProposal>, BuilderError>(valid@),
            decreases rest@.len(),
        {
            let p = rest.remove(0);
            assert(p == all[i as int]);
            proof {
                assert(all.subrange(0, i + 1).drop_last() =~= all.subrange(0, i as int));
            }
            match self.verify_proposal(&p) {
                Ok(true) => valid.push(p),
                Ok(false) => {},
                Err(e) => {
                    proof {
                        lemma_accepted_error(self.builders@, all, i as int);
                    }
                    return Err(e);
                },
            }
            i = i + 1;
            assert(rest@ =~= all.subrange(i as int, all.len() as int));
        }
        assert(all.subrange(0, all.len() as int) =~= all);
        Ok(valid)
    }

    /// The proposal chosen among `proposals`: the first one.
    pub fn select_best_proposal(&self, proposals: Vec<BlockProposal>) -> (r: Result<BlockProposal, BuilderError>)
        ensures
            proposals@.len() == 0 ==> r == Err::<BlockProposal, BuilderError>(BuilderError::NoProposals),
            proposals@.len() > 0 ==> r == Ok::<BlockProposal, BuilderError>(proposals@[0]),
    {
        let mut proposals = proposals;
        if proposals.len() == 0 {
            return Err(BuilderError::NoProposals);
        }
        Ok(proposals.remove(0))
    }

    /// Finalizes a chosen proposal at `now` (milliseconds): its builder, if registered,
    /// counts one more block built and accepted and is active now; the block is the
    /// proposal's, stamped with `now` in seconds.
    pub fn finalize_block(&mut self, proposal: BlockProposal, now: i64) -> (b: Block)
        requires
            old(self).wf(),
            forall|k: int|
                0 <= k < old(self).builders@.len() && (#[trigger] old(self).builders@[k]).address.0@
                    == proposal.builder.0@ ==> old(self).builders@[k].blocks_built < u64::MAX
                    && old(self).builders@[k].blocks_accepted < u64::MAX,
        ensures
            final(self).wf(),
            final(self).config == old(self).config,
            final(self).proposal_aggregator == old(self).proposal_aggregator,
            match builder_index(old(self).builders@, proposal.builder.0@) {
                None => final(self).builders@ == old(self).builders@,
                Some(i) => {
                    let o = old(self).builders@[i];
                    final(self).builders@ == old(self).builders@.update(
                        i,
                        BuilderInfo {
                            blocks_built: (o.blocks_built + 1) as u64,
                            blocks_accepted: (o.blocks_accepted + 1) as u64,
                            last_active: now,
                            ..o
                        },
                    )
                },
            },
            b.hash == proposal.block_hash,
            b.transactions == proposal.transactions,
            b.number == 0,
            b.timestamp == secs_of(now),
            b.base_fee == 1_000_000_000,
            forall|i: int| 0 <= i < 32 ==> b.parent_hash.0@[i] == 0,
    {
        match self.find_builder(&proposal.builder) {
            None => {},
            Some(i) => {
                let ghost bs = self.builders@;
                let mut info = self.builders[i];
                info.blocks_built = info.blocks_built + 1;
                info.blocks_accepted = info.blocks_accepted + 1;
                info.last_active = now;
                self.builders.set(i, info);
                proof {
                    assert forall|x: int, y: int|
                        0 <= x < y < self.builders@.len() implies (#[trigger] self.builders@[x]).address.0@
                        != (#[trigger] self.builders@[y]).address.0@ by {
                        assert(self.builders@[x].address == bs[x].address);
                        assert(self.builders@[y].address == bs[y].address);
                    }
                }
            },
        }
        block_of_proposal(proposal, seconds_of(now))
    }
}

} // verus!
