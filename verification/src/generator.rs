//! The growth loop: serve the next proposal, accept it where it is legal,
//! enqueue its followers, until nothing is pending.

use vstd::prelude::*;
use crate::geometry::{
    Segment, crosses, crossing_free, proper, lemma_crosses_symmetric,
    lemma_crosses_irreflexive,
};
use crate::road::{RoadQuery, Config, accept, expand};
use crate::scheduler::{Scheduler, next_index, lemma_next_unique};

verus! {

/// The number of roads in a lineage that branches three ways for `depth`
/// generations beyond its first road.
pub open spec fn tree_size(depth: nat) -> nat
    decreases depth,
{
    if depth == 0 {
        1
    } else {
        1 + 3 * tree_size((depth - 1) as nat)
    }
}

/// Three to the power `depth`: the number of roads in the last generation of
/// such a lineage.
pub open spec fn pow3(depth: nat) -> nat
    decreases depth,
{
    if depth == 0 {
        1
    } else {
        3 * pow3((depth - 1) as nat)
    }
}

/// The generations that may still follow `query` under a depth limit of
/// `max_lifetime`.
pub open spec fn remaining_depth(query: RoadQuery, max_lifetime: u32) -> nat {
    if query.lifetime <= max_lifetime {
        (max_lifetime - query.lifetime) as nat
    } else {
        0
    }
}

/// What a pending proposal can still bring about: with `whole`, the
/// proposals that will ever be served on its account, itself included;
/// without, the proposals of its lineage that can be pending at one time.
pub open spec fn weight(query: RoadQuery, max_lifetime: u32, whole: bool) -> nat {
    if whole {
        tree_size(remaining_depth(query, max_lifetime))
    } else {
        pow3(remaining_depth(query, max_lifetime))
    }
}

/// The sum of the weights of the pending proposals.
pub open spec fn total(queue: Seq<RoadQuery>, max_lifetime: u32, whole: bool) -> nat
    decreases queue.len(),
{
    if queue.len() == 0 {
        0
    } else {
        total(queue.drop_last(), max_lifetime, whole) + weight(queue.last(), max_lifetime, whole)
    }
}

/// An upper bound on the proposals that are still to be served.
pub open spec fn work(queue: Seq<RoadQuery>, max_lifetime: u32) -> nat {
    total(queue, max_lifetime, true)
}

/// An upper bound on the proposals that the queue's lineages can have pending
/// at one time.
pub open spec fn load(queue: Seq<RoadQuery>, max_lifetime: u32) -> nat {
    total(queue, max_lifetime, false)
}

/// The proposal is accepted against `network`: it is within the depth limit
/// and legal.
pub open spec fn accepted(query: RoadQuery, network: Seq<Segment>, config: Config) -> bool {
    query.lifetime <= config.max_lifetime && query.legal_in(network)
}

/// The accepted proposal's followers are enqueued: they are within the depth
/// limit and can be represented.
pub open spec fn spawns(query: RoadQuery, config: Config) -> bool {
    query.lifetime < config.max_lifetime && query.expandable(config)
}

/// The network after the next proposal of a queue that is not empty was
/// served.
pub open spec fn network_after(
    queue: Seq<RoadQuery>,
    network: Seq<Segment>,
    config: Config,
) -> Seq<Segment> {
    let query = queue[next_index(queue)];
    if accepted(query, network, config) {
        network.push(query.segment()->Some_0)
    } else {
        network
    }
}

/// The queue after its next proposal was served.
pub open spec fn queue_after(
    queue: Seq<RoadQuery>,
    network: Seq<Segment>,
    config: Config,
) -> Seq<RoadQuery> {
    let query = queue[next_index(queue)];
    let rest = queue.remove(next_index(queue));
    if accepted(query, network, config) && spawns(query, config) {
        let (straight, left, right) = query.children(config);
        rest.push(straight).push(left).push(right)
    } else {
        rest
    }
}

/// The network that growth ends with when it starts from `queue` and
/// `network`.
pub open spec fn grown(queue: Seq<RoadQuery>, network: Seq<Segment>, config: Config) -> Seq<
    Segment,
>
    decreases work(queue, config.max_lifetime),
    via grown_terminates
{
    if queue.len() == 0 {
        network
    } else {
        grown(
            queue_after(queue, network, config),
            network_after(queue, network, config),
            config,
        )
    }
}

#[via_fn]
proof fn grown_terminates(queue: Seq<RoadQuery>, network: Seq<Segment>, config: Config) {
    if queue.len() != 0 {
        lemma_step_accounts(queue, network, config);
    }
}

/// A lineage of greater depth is no smaller.
pub proof fn lemma_sizes_monotone(shallow: nat, deep: nat)
    requires
        shallow <= deep,
    ensures
        1 <= tree_size(shallow) <= tree_size(deep),
        1 <= pow3(shallow) <= pow3(deep),
    decreases deep,
{
    if shallow == 0 {
        if deep > 0 {
            lemma_sizes_monotone(0, (deep - 1) as nat);
        }
    } else {
        lemma_sizes_monotone((shallow - 1) as nat, (deep - 1) as nat);
    }
}

/// Enqueueing a proposal adds its weight.
pub proof fn lemma_total_push(queue: Seq<RoadQuery>, query: RoadQuery, max: u32, whole: bool)
    ensures
        total(queue.push(query), max, whole) == total(queue, max, whole) + weight(
            query,
            max,
            whole,
        ),
{
    assert(queue.push(query).drop_last() =~= queue);
}

/// Taking a proposal out removes its weight.
pub proof fn lemma_total_remove(queue: Seq<RoadQuery>, i: int, max: u32, whole: bool)
    requires
        0 <= i < queue.len(),
    ensures
        total(queue.remove(i), max, whole) + weight(queue[i], max, whole) == total(
            queue,
            max,
            whole,
        ),
    decreases queue.len(),
{
    if i == queue.len() - 1 {
        assert(queue.remove(i) =~= queue.drop_last());
    } else {
        lemma_total_remove(queue.drop_last(), i, max, whole);
        assert(queue.remove(i).drop_last() =~= queue.drop_last().remove(i));
        assert(queue.remove(i).last() == queue.last());
    }
}

/// Every pending proposal weighs at least one.
pub proof fn lemma_total_covers_len(queue: Seq<RoadQuery>, max: u32, whole: bool)
    ensures
        queue.len() <= total(queue, max, whole),
    decreases queue.len(),
{
    if queue.len() > 0 {
        lemma_total_covers_len(queue.drop_last(), max, whole);
        lemma_sizes_monotone(0, remaining_depth(queue.last(), max));
    }
}

/// Serving one proposal uses up at least one unit of work, pays for the
/// segment that it may add, and does not raise the load.
pub proof fn lemma_step_accounts(queue: Seq<RoadQuery>, network: Seq<Segment>, config: Config)
    requires
        queue.len() > 0,
    ensures
        work(queue_after(queue, network, config), config.max_lifetime) < work(
            queue,
            config.max_lifetime,
        ),
        network_after(queue, network, config).len() + work(
            queue_after(queue, network, config),
            config.max_lifetime,
        ) <= network.len() + work(queue, config.max_lifetime),
        load(queue_after(queue, network, config), config.max_lifetime) <= load(
            queue,
            config.max_lifetime,
        ),
{
    let max = config.max_lifetime;
    let i = next_index(queue);
    lemma_next_unique(queue, i);
    let query = queue[i];
    let rest = queue.remove(i);
    lemma_total_remove(queue, i, max, true);
    lemma_total_remove(queue, i, max, false);
    lemma_sizes_monotone(0, remaining_depth(query, max));
    if accepted(query, network, config) && spawns(query, config) {
        let (straight, left, right) = query.children(config);
        lemma_total_push(rest, straight, max, true);
        lemma_total_push(rest.push(straight), left, max, true);
        lemma_total_push(rest.push(straight).push(left), right, max, true);
        lemma_total_push(rest, straight, max, false);
        lemma_total_push(rest.push(straight), left, max, false);
        lemma_total_push(rest.push(straight).push(left), right, max, false);
        assert(remaining_depth(straight, max) == remaining_depth(query, max) - 1);
        assert(remaining_depth(left, max) == remaining_depth(query, max) - 1);
        assert(remaining_depth(right, max) == remaining_depth(query, max) - 1);
    }
}

/// Adding a segment that crosses none of a crossing-free network leaves it
/// crossing-free.
pub proof fn lemma_push_keeps_crossing_free(network: Seq<Segment>, segment: Segment)
    requires
        crossing_free(network),
        forall|i: int| 0 <= i < network.len() ==> !crosses(segment, #[trigger] network[i]),
    ensures
        crossing_free(network.push(segment)),
{
    let grown = network.push(segment);
    assert forall|i: int, j: int| 0 <= i < grown.len() && 0 <= j < grown.len() implies !crosses(
        #[trigger] grown[i],
        #[trigger] grown[j],
    ) by {
        if i < network.len() && j < network.len() {
            assert(!crosses(network[i], network[j]));
        } else if i < network.len() {
            assert(!crosses(segment, network[i]));
            lemma_crosses_symmetric(segment, network[i]);
        } else if j < network.len() {
            assert(!crosses(segment, network[j]));
        } else {
            lemma_crosses_irreflexive(segment);
        }
    }
}

/// A generator in mid-growth: the policy, the pending proposals and the
/// segments accepted so far.
pub struct Generator {
    pub config: Config,
    pub queue: Scheduler,
    pub network: Vec<Segment>,
}

impl Generator {
    /// The state is one that growth from a single seed can reach: the policy
    /// is usable, no two accepted segments cross, none of them is a single
    /// point, and the pending proposals stay within what one lineage under
    /// the depth limit allows.
    pub open spec fn wf(&self) -> bool {
        &&& self.config.wf()
        &&& self.queue.wf()
        &&& self.queue.issued() <= 1 + 3 * self.network@.len()
        &&& crossing_free(self.network@)
        &&& proper(self.network@)
        &&& load(self.queue@, self.config.max_lifetime) <= pow3(self.config.max_lifetime as nat)
        &&& self.network@.len() + work(self.queue@, self.config.max_lifetime) <= tree_size(
            self.config.max_lifetime as nat,
        )
    }

    /// The network that growth from this state ends with.
    pub open spec fn outcome(&self) -> Seq<Segment> {
        grown(self.queue@, self.network@, self.config)
    }

    /// A generator with an empty network and `seed` as its only pending
    /// proposal.
    pub fn new(config: Config, seed: RoadQuery) -> (g: Generator)
        requires
            config.wf(),
        ensures
            g.wf(),
            g.config == config,
            g.queue@ == seq![seed],
            g.network@ == Seq::<Segment>::empty(),
    {
        let mut queue = Scheduler::new();
        queue.push(seed);
        proof {
            assert(queue@ =~= seq![seed]);
            lemma_total_push(Seq::empty(), seed, config.max_lifetime, true);
            lemma_total_push(Seq::empty(), seed, config.max_lifetime, false);
            lemma_sizes_monotone(
                remaining_depth(seed, config.max_lifetime),
                config.max_lifetime as nat,
            );
        }
        Generator { config, queue, network: Vec::new() }
    }

    /// Serves the next pending proposal. Where it is within the depth limit
    /// and legal against the network, its segment joins the network, and its
    /// three followers are enqueued unless they would exceed the depth limit
    /// or cannot be represented. Returns whether anything was pending.
    pub fn step(&mut self) -> (served: bool)
        requires
            old(self).wf(),
        ensures
            final(self).wf(),
            final(self).config == old(self).config,
            served == (old(self).queue@.len() > 0),
            !served ==> final(self).queue@ == old(self).queue@ && final(self).network@ == old(
                self,
            ).network@,
            served ==> final(self).queue@ == queue_after(
                old(self).queue@,
                old(self).network@,
                old(self).config,
            ),
            served ==> final(self).network@ == network_after(
                old(self).queue@,
                old(self).network@,
                old(self).config,
            ),
            final(self).outcome() == old(self).outcome(),
            served ==> work(final(self).queue@, final(self).config.max_lifetime) < work(
                old(self).queue@,
                old(self).config.max_lifetime,
            ),
    {
        let ghost queue_before = self.queue@;
        let ghost network_before = self.network@;
        match self.queue.pop() {
            None => false,
            Some(query) => {
                proof {
                    lemma_step_accounts(queue_before, network_before, self.config);
                }
                if query.lifetime <= self.config.max_lifetime {
                    match accept(&query, &self.network) {
                        None => {},
                        Some(segment) => {
                            proof {
                                lemma_push_keeps_crossing_free(network_before, segment);
                            }
                            self.network.push(segment);
                            if query.lifetime < self.config.max_lifetime {
                                self.enqueue_followers(&query);
                            }
                        },
                    }
                }
                true
            },
        }
    }

    /// Enqueues the three followers of the proposal that was just accepted,
    /// where they can be represented.
    fn enqueue_followers(&mut self, parent: &RoadQuery)
        requires
            old(self).config.wf(),
            old(self).queue.wf(),
            old(self).queue.issued() + 3 <= 1 + 3 * old(self).network@.len(),
        ensures
            final(self).config == old(self).config,
            final(self).network@ == old(self).network@,
            final(self).queue.wf(),
            final(self).queue.issued() <= 1 + 3 * final(self).network@.len(),
            final(self).queue@ == (if parent.expandable(old(self).config) {
                old(self).queue@.push(parent.children(old(self).config).0).push(
                    parent.children(old(self).config).1,
                ).push(parent.children(old(self).config).2)
            } else {
                old(self).queue@
            }),
    {
        match expand(parent, &self.config) {
            None => {},
            Some((straight, left, right)) => {
                // Three tickets for each accepted segment: the tickets cannot
                // run out before the network is longer than a `Vec` can be.
                let accepted: usize = self.network.len();
                assert(self.queue.issued() + 3 <= 1 + 3 * accepted);
                self.queue.push(straight);
                self.queue.push(left);
                self.queue.push(right);
            },
        }
    }

    /// Grows the network until nothing is pending, and hands it out.
    pub fn run(self) -> (network: Vec<Segment>)
        requires
            self.wf(),
        ensures
            network@ == self.outcome(),
            crossing_free(network@),
            proper(network@),
            network@.len() <= tree_size(self.config.max_lifetime as nat),
    {
        let mut state = self;
        while !state.queue.is_empty()
            invariant
                state.wf(),
                state.config == self.config,
                state.outcome() == self.outcome(),
            decreases work(state.queue@, state.config.max_lifetime),
        {
            state.step();
        }
        state.network
    }
}

/// The network grown from `seed` under `config`: the segments in the order
/// in which they were accepted. No two of them cross and none is a single
/// point.
pub fn generate(seed: RoadQuery, config: Config) -> (network: Vec<Segment>)
    requires
        config.wf(),
    ensures
        network@ == grown(seq![seed], Seq::empty(), config),
        crossing_free(network@),
        proper(network@),
        network@.len() <= tree_size(config.max_lifetime as nat),
        config.max_lifetime == 0 ==> network@.len() <= 1,
{
    let generator = Generator::new(config, seed);
    generator.run()
}

/// While a network grows from one seed, the number of pending proposals
/// never exceeds three to the power of the depth limit.
pub proof fn lemma_queue_bounded(generator: &Generator)
    requires
        generator.wf(),
    ensures
        generator.queue@.len() <= pow3(generator.config.max_lifetime as nat),
{
    lemma_total_covers_len(generator.queue@, generator.config.max_lifetime, false);
}

/// Growth is a function of the seed and the policy: two networks grown from
/// the same seed under the same policy are equal, segment by segment.
pub proof fn lemma_growth_deterministic(
    seed: RoadQuery,
    config: Config,
    first: Seq<Segment>,
    second: Seq<Segment>,
)
    requires
        first == grown(seq![seed], Seq::empty(), config),
        second == grown(seq![seed], Seq::empty(), config),
    ensures
        first == second,
{
}

/// Growth never adds a segment that is a single point: a network of
/// segments with two different end points each grows into such a network.
pub proof fn lemma_grown_proper(queue: Seq<RoadQuery>, network: Seq<Segment>, config: Config)
    requires
        proper(network),
    ensures
        proper(grown(queue, network, config)),
    decreases work(queue, config.max_lifetime),
{
    if queue.len() != 0 {
        lemma_step_accounts(queue, network, config);
        lemma_grown_proper(
            queue_after(queue, network, config),
            network_after(queue, network, config),
            config,
        );
    }
}

/// Growth only appends: the network that it starts from is the beginning of
/// the network that it ends with.
pub proof fn lemma_grown_extends(queue: Seq<RoadQuery>, network: Seq<Segment>, config: Config)
    ensures
        network.is_prefix_of(grown(queue, network, config)),
    decreases work(queue, config.max_lifetime),
{
    if queue.len() != 0 {
        lemma_step_accounts(queue, network, config);
        lemma_grown_extends(
            queue_after(queue, network, config),
            network_after(queue, network, config),
            config,
        );
    }
}

/// Growth ends with a network in which no two segments cross, of at most as
/// many segments as a lineage under the depth limit has roads.
pub proof fn lemma_grown_crossing_free(
    queue: Seq<RoadQuery>,
    network: Seq<Segment>,
    config: Config,
)
    requires
        crossing_free(network),
    ensures
        crossing_free(grown(queue, network, config)),
        grown(queue, network, config).len() <= network.len() + work(queue, config.max_lifetime),
    decreases work(queue, config.max_lifetime),
{
    if queue.len() != 0 {
        lemma_step_accounts(queue, network, config);
        let query = queue[next_index(queue)];
        if accepted(query, network, config) {
            lemma_push_keeps_crossing_free(network, query.segment()->Some_0);
        }
        lemma_grown_crossing_free(
            queue_after(queue, network, config),
            network_after(queue, network, config),
            config,
        );
    }
}

} // verus!
