//! Chained HotStuff: a leader proposes a node on top of the highest node
//! that it knows, the others vote for it, and a node is final once three
//! nodes in a row stand on top of it.

use std::rc::Rc;
use vstd::prelude::*;

use crate::combiner::Combiner;
use crate::context::Context;
use crate::jiffies::capped_sum;
use crate::jiffies::Jiffies;
use crate::kv::counter;
use crate::kv::Value;
use crate::message::Destination;
use crate::message::Message;
use crate::process::ProcessHandle;
use crate::timer::TimerId;
use crate::topology::Rank;

verus! {

/// The pool of the processes that run the protocol.
pub const HOTSTUFF_POOL: &'static str = "HotstuffCluster";

/// The key under which the latencies of the nodes that became final are
/// added up, each counted by the process that made the node.
pub const LATENCY_TOTAL: &'static str = "latency_total";

/// The key under which the nodes that became final are counted, each by
/// the process that made it.
pub const ORDERED_TOTAL: &'static str = "ordered_total";

/// The number of a node.
pub type NodeId = usize;

/// A node of the chain.
pub struct Node {
    pub id: NodeId,
    pub parent: Option<Rc<Node>>,
    pub height: usize,
    pub creator: Rank,
    pub creation_time: Jiffies,
}

/// What the processes send each other.
pub enum HSMessage {
    /// The leader proposes a node.
    Propose(Rc<Node>),
    /// A process votes for a node.
    Vote(Rc<Node>),
}

impl Message for HSMessage {
    open spec fn is_free() -> bool {
        true
    }
}

/// The node that every chain starts from.
pub open spec fn genesis() -> Node {
    Node { id: 0, parent: None, height: 0, creator: 0, creation_time: Jiffies(0) }
}

/// The node `steps` below `node`, if the chain goes down that far.
pub open spec fn ancestor(node: Node, steps: nat) -> Option<Node>
    decreases steps,
{
    if steps == 0 {
        Some(node)
    } else {
        match node.parent {
            Some(parent) => ancestor(*parent, (steps - 1) as nat),
            None => None,
        }
    }
}

/// The time that has passed at `now` since `node` was made.
pub open spec fn age(node: Node, now: Jiffies) -> usize {
    if now.0 >= node.creation_time.0 {
        (now.0 - node.creation_time.0) as usize
    } else {
        0
    }
}

/// `store` after the process with rank `rank` has taken note, at `now`,
/// of the nodes that became final with `node`: those from `node` down that
/// stand higher than `floor`, the lowest first. The process counts the
/// nodes that it made itself and adds up their ages.
pub open spec fn committed(
    store: Map<Seq<char>, Value>,
    node: Node,
    floor: usize,
    rank: Rank,
    now: Jiffies,
) -> Map<Seq<char>, Value>
    decreases node,
{
    if floor < node.height {
        let below = match node.parent {
            Some(parent) => committed(store, *parent, floor, rank, now),
            None => store,
        };
        if rank == node.creator {
            let aged = below.insert(
                LATENCY_TOTAL@,
                Value::Usize(capped_sum(counter(below, LATENCY_TOTAL@), age(node, now))),
            );
            aged.insert(ORDERED_TOTAL@, Value::Usize(capped_sum(counter(aged, ORDERED_TOTAL@), 1)))
        } else {
            below
        }
    } else {
        store
    }
}

/// The votes that are being collected for the node `id`, if any are: the
/// last collector that was set up for it.
pub open spec fn quorum_of(quorums: Seq<(NodeId, Combiner<()>)>, id: NodeId) -> Option<
    Combiner<()>,
>
    decreases quorums.len(),
{
    if quorums.len() == 0 {
        None
    } else if quorums.last().0 == id {
        Some(quorums.last().1)
    } else {
        quorum_of(quorums.drop_last(), id)
    }
}

/// The number of votes that make a quorum among `proc_num` processes: more
/// than two thirds.
pub open spec fn quorum(proc_num: usize) -> int {
    (proc_num * 2) / 3 + 1
}

/// A process of the protocol.
pub struct ChainedHotstuff {
    pending_quorums: Vec<(NodeId, Combiner<()>)>,
    vheight: usize,
    b_lock: Rc<Node>,
    b_exec: Rc<Node>,
    b_leaf: Rc<Node>,
}

impl ChainedHotstuff {
    /// The height of the last node that the process voted for.
    pub closed spec fn voted_height(&self) -> usize {
        self.vheight
    }

    /// The node that the process is locked on.
    pub closed spec fn locked(&self) -> Node {
        *self.b_lock
    }

    /// The highest node that the process knows to be final.
    pub closed spec fn executed(&self) -> Node {
        *self.b_exec
    }

    /// The highest node that the process knows.
    pub closed spec fn leaf(&self) -> Node {
        *self.b_leaf
    }

    /// The votes that the process has collected for the node `id`.
    pub closed spec fn votes(&self, id: NodeId) -> nat {
        match quorum_of(self.pending_quorums@, id) {
            Some(collector) => collector.collected().len(),
            None => 0,
        }
    }

    /// The number of votes at which the node `id` has a quorum, once votes
    /// are being collected for it.
    pub closed spec fn votes_needed(&self, id: NodeId) -> Option<nat> {
        match quorum_of(self.pending_quorums@, id) {
            Some(collector) => Some(collector.threshold()),
            None => None,
        }
    }

    #[verifier::type_invariant]
    spec fn inv(self) -> bool {
        forall|i: int|
            0 <= i < self.pending_quorums@.len() ==> (#[trigger] self.pending_quorums@[i]).1.wf()
    }

    /// A process that knows nothing but `genesis_node`.
    pub fn new(genesis_node: Rc<Node>) -> (process: Self)
        ensures
            process.voted_height() == 0,
            process.locked() == *genesis_node,
            process.executed() == *genesis_node,
            process.leaf() == *genesis_node,
            forall|id: NodeId| process.votes(id) == 0 && process.votes_needed(id) is None,
    {
        ChainedHotstuff {
            pending_quorums: Vec::new(),
            vheight: 0,
            b_lock: Rc::clone(&genesis_node),
            b_exec: Rc::clone(&genesis_node),
            b_leaf: genesis_node,
        }
    }

    /// The process that leads once this process has voted at the height
    /// that it voted at last.
    pub fn get_next_leader(&self, proc_num: usize) -> (leader: Rank)
        requires
            proc_num > 0,
        ensures
            leader == self.voted_height() % proc_num + 1,
    {
        (self.vheight % proc_num) + 1
    }

    /// The number of votes that make a quorum.
    pub fn quorum_size(proc_num: usize) -> (size: usize)
        requires
            proc_num * 2 <= usize::MAX,
        ensures
            size == quorum(proc_num),
            size > 0,
    {
        (proc_num * 2) / 3 + 1
    }

    /// Whether `child` stands right on top of the node that the process is
    /// locked on.
    pub open spec fn is_extended_by(&self, child: Node) -> bool {
        match child.parent {
            Some(parent) => parent.id == self.locked().id,
            None => false,
        }
    }

    /// Whether `child` stands right on top of the node that the process is
    /// locked on.
    pub fn extends(&self, child: &Rc<Node>) -> (on_top: bool)
        ensures
            on_top == self.is_extended_by(**child),
    {
        match &child.parent {
            Some(parent) => parent.id == self.b_lock.id,
            None => false,
        }
    }

    /// A new node on top of the highest node that the process knows, made
    /// by the process whose callback runs, at the present instant.
    pub fn create_leaf(&self, ctx: &mut Context<HSMessage>) -> (leaf: Rc<Node>)
        requires
            old(ctx).ids_issued() < usize::MAX,
            self.leaf().height < usize::MAX,
        ensures
            leaf.id == old(ctx).ids_issued(),
            leaf.parent == Some(Rc::new(self.leaf())),
            leaf.height == self.leaf().height + 1,
            leaf.creator == old(ctx).current(),
            leaf.creation_time == old(ctx).time(),
            final(ctx).ids_issued() == old(ctx).ids_issued() + 1,
            final(ctx).time() == old(ctx).time(),
            final(ctx).current() == old(ctx).current(),
            final(ctx).store() == old(ctx).store(),
            final(ctx).topology() == old(ctx).topology(),
            final(ctx).outgoing() == old(ctx).outgoing(),
            final(ctx).timers() == old(ctx).timers(),
    {
        let parent = Rc::clone(&self.b_leaf);
        let height = parent.height + 1;
        let creator = ctx.rank();
        let creation_time = ctx.now();
        let id = ctx.global_unique_id();
        Rc::new(Node { id, parent: Some(parent), height, creator, creation_time })
    }

    /// Takes note of the nodes that became final with `b`: from `b` down
    /// to the highest node that was final before, the lowest first.
    pub fn on_commit(&self, ctx: &mut Context<HSMessage>, b: &Node)
        ensures
            final(ctx).store() == committed(
                old(ctx).store(),
                *b,
                self.executed().height,
                old(ctx).current(),
                old(ctx).time(),
            ),
            final(ctx).time() == old(ctx).time(),
            final(ctx).current() == old(ctx).current(),
            final(ctx).ids_issued() == old(ctx).ids_issued(),
            final(ctx).topology() == old(ctx).topology(),
            final(ctx).outgoing() == old(ctx).outgoing(),
            final(ctx).timers() == old(ctx).timers(),
        decreases b,
    {
        if self.b_exec.height < b.height {
            match &b.parent {
                Some(parent) => self.on_commit(ctx, parent),
                None => {},
            }
            if ctx.rank() == b.creator {
                let present = ctx.now();
                let vertex_latency: usize = if present.0 >= b.creation_time.0 {
                    present.0 - b.creation_time.0
                } else {
                    0
                };
                crate::kv::add_to(ctx.kv_mut(), LATENCY_TOTAL, vertex_latency);
                crate::kv::add_to(ctx.kv_mut(), ORDERED_TOTAL, 1);
            }
        }
    }

    /// The node that the process is locked on once it has seen `b_star`:
    /// the node two below `b_star` where that stands higher than the lock.
    pub open spec fn lock_after(&self, b_star: Node) -> Node {
        match ancestor(b_star, 2) {
            Some(b1) => if b1.height > self.locked().height {
                b1
            } else {
                self.locked()
            },
            None => self.locked(),
        }
    }

    /// The highest node that the process knows once it has seen `b_star`.
    pub open spec fn leaf_after(&self, b_star: Node) -> Node {
        if b_star.height > self.leaf().height {
            b_star
        } else {
            self.leaf()
        }
    }

    /// The highest node that the process knows to be final once it has
    /// seen `b_star`: the node three below `b_star`, where there is one.
    pub open spec fn executed_after(&self, b_star: Node) -> Node {
        match ancestor(b_star, 3) {
            Some(b) => b,
            None => self.executed(),
        }
    }

    /// Takes `b_star` in: it may be the highest node that the process
    /// knows, the node two below it may be the new lock, and the node
    /// three below it becomes final.
    pub fn update(&mut self, ctx: &mut Context<HSMessage>, b_star: Rc<Node>)
        ensures
            final(self).voted_height() == old(self).voted_height(),
            final(self).leaf() == old(self).leaf_after(*b_star),
            final(self).locked() == old(self).lock_after(*b_star),
            final(self).executed() == old(self).executed_after(*b_star),
            forall|id: NodeId|
                final(self).votes(id) == old(self).votes(id)
                    && final(self).votes_needed(id) == old(self).votes_needed(id),
            final(ctx).store() == match ancestor(*b_star, 3) {
                Some(b) => committed(
                    old(ctx).store(),
                    b,
                    old(self).executed().height,
                    old(ctx).current(),
                    old(ctx).time(),
                ),
                None => old(ctx).store(),
            },
            final(ctx).time() == old(ctx).time(),
            final(ctx).current() == old(ctx).current(),
            final(ctx).ids_issued() == old(ctx).ids_issued(),
            final(ctx).topology() == old(ctx).topology(),
            final(ctx).outgoing() == old(ctx).outgoing(),
            final(ctx).timers() == old(ctx).timers(),
    {
        proof {
            use_type_invariant(&*self);
        }
        let b2: Option<Rc<Node>> = match &b_star.parent {
            Some(p) => Some(Rc::clone(p)),
            None => None,
        };
        let b1: Option<Rc<Node>> = match &b2 {
            Some(n) => match &n.parent {
                Some(p) => Some(Rc::clone(p)),
                None => None,
            },
            None => None,
        };
        let b: Option<Rc<Node>> = match &b1 {
            Some(n) => match &n.parent {
                Some(p) => Some(Rc::clone(p)),
                None => None,
            },
            None => None,
        };
        proof {
            reveal_with_fuel(ancestor, 4);
            assert(ancestor(*b_star, 2) == match b1 {
                Some(n) => Some(*n),
                None => None,
            });
            assert(ancestor(*b_star, 3) == match b {
                Some(n) => Some(*n),
                None => None,
            });
        }
        if b_star.height > self.b_leaf.height {
            self.b_leaf = b_star;
        }
        match b1 {
            Some(b1) => {
                if b1.height > self.b_lock.height {
                    self.b_lock = b1;
                }
            },
            None => {},
        }
        match b {
            Some(b) => {
                self.on_commit(ctx, &b);
                self.b_exec = b;
            },
            None => {},
        }
    }

    /// Whether the process votes for the proposed node `b_new`: the node
    /// stands higher than what the process voted for last, and it stands
    /// right on top of the lock or higher than the lock.
    pub open spec fn accepts(&self, b_new: Node) -> bool {
        b_new.height > self.voted_height() && (self.is_extended_by(b_new) || b_new.height
            > self.locked().height)
    }

    /// Whether the process `self`, handed the proposal `b_new` in the
    /// surroundings `handed`, comes out as `after` and leaves the
    /// surroundings as `left`: where it accepts the node, it has voted for
    /// it with the next leader and taken the node in; else nothing has
    /// changed.
    pub open spec fn proposal_taken(
        &self,
        after: &Self,
        handed: &Context<HSMessage>,
        left: &Context<HSMessage>,
        b_new: Rc<Node>,
    ) -> bool {
        &&& (left.time() == handed.time())
        &&& (left.current() == handed.current())
        &&& (left.ids_issued() == handed.ids_issued())
        &&& (left.topology() == handed.topology())
        &&& (left.timers() == handed.timers())
        &&& (forall|id: NodeId|
            after.votes(id) == self.votes(id)
                && after.votes_needed(id) == self.votes_needed(id))
        &&& (!(self.accepts(*b_new) && handed.topology().size() > 0) ==> {
            &&& after.voted_height() == self.voted_height()
            &&& after.leaf() == self.leaf()
            &&& after.locked() == self.locked()
            &&& after.executed() == self.executed()
            &&& left.store() == handed.store()
            &&& left.outgoing() == handed.outgoing()
            })
        &&& (self.accepts(*b_new) && handed.topology().size() > 0 ==> {
            &&& after.voted_height() == b_new.height
            &&& after.leaf() == self.leaf_after(*b_new)
            &&& after.locked() == self.lock_after(*b_new)
            &&& after.executed() == self.executed_after(*b_new)
            &&& left.store() == match ancestor(*b_new, 3) {
                Some(b) => committed(
                    handed.store(),
                    b,
                    self.executed().height,
                    handed.current(),
                    handed.time(),
                ),
                None => handed.store(),
            }
            &&& left.outgoing().len() == handed.outgoing().len() + 1
            &&& left.outgoing().drop_last() == handed.outgoing()
            &&& left.outgoing().last().destination == Destination::To(
                (b_new.height % (handed.topology().size() as usize) + 1) as usize,
            )
            &&& *left.outgoing().last().message == HSMessage::Vote(b_new)
            })
    }

    /// Takes a proposal. Where the process accepts the node, it votes for
    /// it with the next leader and takes the node in.
    pub fn on_propose(&mut self, ctx: &mut Context<HSMessage>, b_new: Rc<Node>)
        ensures
            old(self).proposal_taken(final(self), old(ctx), final(ctx), b_new),
    {
        proof {
            use_type_invariant(&*self);
        }
        let proc_num = ctx.process_number();
        if proc_num > 0 && b_new.height > self.vheight && (self.extends(&b_new) || b_new.height
            > self.b_lock.height) {
            self.vheight = b_new.height;
            let leader = self.get_next_leader(proc_num);
            ctx.send_to(leader, HSMessage::Vote(Rc::clone(&b_new)));
            self.update(ctx, b_new);
        }
    }

    /// The index of the collector of votes for the node `id`.
    fn position(quorums: &Vec<(NodeId, Combiner<()>)>, id: NodeId) -> (at: Option<usize>)
        ensures
            at is None <==> quorum_of(quorums@, id) is None,
            at matches Some(i) ==> i < quorums@.len() && quorums@[i as int].0 == id && quorum_of(
                quorums@,
                id,
            ) == Some(quorums@[i as int].1) && forall|j: int|
                i < j < quorums@.len() ==> quorums@[j].0 != id,
    {
        let mut i: usize = quorums.len();
        assert(quorums@.take(i as int) == quorums@);
        while i > 0
            invariant
                i <= quorums@.len(),
                quorum_of(quorums@, id) == quorum_of(quorums@.take(i as int), id),
                forall|j: int| i <= j < quorums@.len() ==> quorums@[j].0 != id,
            decreases i,
        {
            proof {
                let upto = quorums@.take(i as int);
                assert(upto.last() == quorums@[i - 1]);
                assert(upto.drop_last() == quorums@.take(i - 1));
            }
            i = i - 1;
            if quorums[i].0 == id {
                return Some(i);
            }
        }
        None
    }

    /// Whether the process can count a vote for `node` and propose on top
    /// of it: the numbers that it needs for that can be held.
    pub open spec fn can_count(ctx: &Context<HSMessage>, node: Node) -> bool {
        &&& ctx.topology().size() * 2 <= usize::MAX
        &&& ctx.ids_issued() < usize::MAX
        &&& node.height < usize::MAX
    }

    /// Whether the process `self`, handed a vote for `node` in the
    /// surroundings `handed`, comes out as `after` and leaves the
    /// surroundings as `left`: the vote is counted unless the quorum is
    /// complete already, and the vote that completes it has made `node` the
    /// highest node that the process knows and brought a proposal on top
    /// of it to everyone.
    pub open spec fn vote_taken(
        &self,
        after: &Self,
        handed: &Context<HSMessage>,
        left: &Context<HSMessage>,
        node: Rc<Node>,
    ) -> bool {
        &&& (after.voted_height() == self.voted_height())
        &&& (after.locked() == self.locked())
        &&& (after.executed() == self.executed())
        &&& (left.time() == handed.time())
        &&& (left.current() == handed.current())
        &&& (left.store() == handed.store())
        &&& (left.topology() == handed.topology())
        &&& (left.timers() == handed.timers())
        &&& (forall|id: NodeId|
            id != node.id ==> after.votes(id) == self.votes(id)
                && after.votes_needed(id) == self.votes_needed(id))
        &&& (!Self::can_count(handed, *node) ==> {
            &&& after.leaf() == self.leaf()
            &&& after.votes(node.id) == self.votes(node.id)
            &&& after.votes_needed(node.id) == self.votes_needed(node.id)
            &&& left.outgoing() == handed.outgoing()
            &&& left.ids_issued() == handed.ids_issued()
            })
        &&& (Self::can_count(handed, *node) ==> {
            let needed = match self.votes_needed(node.id) {
                Some(n) => n as int,
                None => quorum(handed.topology().size() as usize),
            };
            let had = self.votes(node.id);
            &&& after.votes_needed(node.id) == Some(needed as nat)
            &&& had <= needed
            &&& after.votes(node.id) == if had < needed {
                had + 1
            } else {
                had
            }
            &&& had + 1 != needed ==> after.leaf() == self.leaf()
                && left.outgoing() == handed.outgoing()
                && left.ids_issued() == handed.ids_issued()
            &&& had + 1 == needed ==> {
                &&& after.leaf() == *node
                &&& left.ids_issued() == handed.ids_issued() + 1
                &&& left.outgoing().len() == handed.outgoing().len() + 1
                &&& left.outgoing().drop_last() == handed.outgoing()
                &&& left.outgoing().last().destination == Destination::Broadcast
                &&& *left.outgoing().last().message == HSMessage::Propose(
                    Rc::new(
                        Node {
                            id: handed.ids_issued() as usize,
                            parent: Some(node),
                            height: (node.height + 1) as usize,
                            creator: handed.current(),
                            creation_time: handed.time(),
                        },
                    ),
                )
            }
            })
    }

    /// Takes a vote for `node`. The vote that completes a quorum makes
    /// `node` the highest node that the process knows, and the process
    /// proposes a new node on top of it to everyone. Votes that come after
    /// that are not counted.
    pub fn on_vote(&mut self, ctx: &mut Context<HSMessage>, node: Rc<Node>)
        ensures
            old(self).vote_taken(final(self), old(ctx), final(ctx), node),
    {
        proof {
            use_type_invariant(&*self);
        }
        let proc_num = ctx.process_number();
        if proc_num > usize::MAX / 2 || !ctx.has_unique_id() || node.height == usize::MAX {
            return ;
        }
        let combiner_size = Self::quorum_size(proc_num);
        let mut quorums: Vec<(NodeId, Combiner<()>)> = Vec::new();
        core::mem::swap(&mut self.pending_quorums, &mut quorums);
        let ghost before = quorums@;
        let at = match Self::position(&quorums, node.id) {
            Some(i) => i,
            None => {
                quorums.push((node.id, Combiner::new(combiner_size)));
                proof {
                    assert(quorums@.drop_last() == before);
                    assert forall|id: NodeId| id != node.id implies quorum_of(quorums@, id)
                        == quorum_of(before, id) by {}
                }
                quorums.len() - 1
            },
        };
        let ghost ready = quorums@;
        let gathered = quorums[at].1.combine(()).is_some();
        proof {
            lemma_replaced(ready, at as int, quorums@[at as int].1);
            assert(quorums@ =~= ready.update(at as int, (node.id, quorums@[at as int].1)));
            assert forall|i: int| 0 <= i < quorums@.len() implies (
            #[trigger] quorums@[i]).1.wf() by {
                if i != at {
                    assert(quorums@[i] == ready[i]);
                    if i < before.len() {
                        assert(ready[i] == before[i]);
                    }
                }
            }
            assert forall|id: NodeId| id != node.id implies quorum_of(quorums@, id) == quorum_of(
                before,
                id,
            ) by {}
        }
        self.pending_quorums = quorums;
        if gathered {
            self.b_leaf = node;
            let leaf = self.create_leaf(ctx);
            ctx.broadcast(HSMessage::Propose(leaf));
        }
    }
}

/// Replacing the collector that counts for a node replaces what is found
/// for that node and nothing else.
proof fn lemma_replaced(quorums: Seq<(NodeId, Combiner<()>)>, at: int, collector: Combiner<()>)
    requires
        0 <= at < quorums.len(),
        forall|j: int| at < j < quorums.len() ==> quorums[j].0 != quorums[at].0,
    ensures
        quorum_of(quorums, quorums[at].0) == Some(quorums[at].1),
        quorum_of(quorums.update(at, (quorums[at].0, collector)), quorums[at].0) == Some(collector),
        forall|id: NodeId|
            id != quorums[at].0 ==> quorum_of(
                quorums.update(at, (quorums[at].0, collector)),
                id,
            ) == quorum_of(quorums, id),
    decreases quorums.len(),
{
    let key = quorums[at].0;
    let changed = quorums.update(at, (key, collector));
    if at == quorums.len() - 1 {
        assert(changed.drop_last() =~= quorums.drop_last());
        assert(changed.last() == (key, collector));
        assert forall|id: NodeId| id != key implies quorum_of(changed, id) == quorum_of(
            quorums,
            id,
        ) by {}
    } else {
        assert(quorums.last().0 != key);
        assert(changed.last() == quorums.last());
        assert(changed.drop_last() =~= quorums.drop_last().update(at, (key, collector)));
        assert(quorums.drop_last()[at] == quorums[at]);
        assert forall|j: int| at < j < quorums.drop_last().len() implies quorums.drop_last()[j].0
            != quorums.drop_last()[at].0 by {
            assert(quorums.drop_last()[j] == quorums[j]);
        }
        lemma_replaced(quorums.drop_last(), at, collector);
        assert forall|id: NodeId| id != key implies quorum_of(changed, id) == quorum_of(
            quorums,
            id,
        ) by {
            if quorums.last().0 != id {
                assert(quorum_of(changed.drop_last(), id) == quorum_of(quorums.drop_last(), id));
            }
        }
    }
}

impl Default for ChainedHotstuff {
    /// A process that knows nothing but the node that every chain starts
    /// from.
    fn default() -> (process: Self)
        ensures
            process.voted_height() == 0,
            process.locked() == genesis(),
            process.executed() == genesis(),
            process.leaf() == genesis(),
    {
        ChainedHotstuff::new(
            Rc::new(
                Node { id: 0, parent: None, height: 0, creator: 0, creation_time: Jiffies(0) },
            ),
        )
    }
}

impl ProcessHandle<HSMessage> for ChainedHotstuff {
    /// The process with rank one proposes the first node to everyone;
    /// every other process does nothing.
    open spec fn started(
        &self,
        after: &Self,
        handed: &Context<HSMessage>,
        left: &Context<HSMessage>,
    ) -> bool {
        if handed.current() == 1 && handed.ids_issued() < usize::MAX && self.leaf().height
            < usize::MAX {
            &&& *after == *self
            &&& left.time() == handed.time()
            &&& left.current() == handed.current()
            &&& left.store() == handed.store()
            &&& left.topology() == handed.topology()
            &&& left.timers() == handed.timers()
            &&& left.ids_issued() == handed.ids_issued() + 1
            &&& left.outgoing().len() == handed.outgoing().len() + 1
            &&& left.outgoing().drop_last() == handed.outgoing()
            &&& left.outgoing().last().destination == Destination::Broadcast
            &&& left.outgoing().last().size == 0
            &&& *left.outgoing().last().message == HSMessage::Propose(
                Rc::new(
                    Node {
                        id: handed.ids_issued() as usize,
                        parent: Some(Rc::new(self.leaf())),
                        height: (self.leaf().height + 1) as usize,
                        creator: handed.current(),
                        creation_time: handed.time(),
                    },
                ),
            )
        } else {
            *after == *self && *left == *handed
        }
    }

    /// A proposal is taken as `proposal_taken` says, a vote as
    /// `vote_taken` says.
    open spec fn received(
        &self,
        after: &Self,
        handed: &Context<HSMessage>,
        left: &Context<HSMessage>,
        from: Rank,
        message: Rc<HSMessage>,
    ) -> bool {
        match *message {
            HSMessage::Propose(b_new) => self.proposal_taken(after, handed, left, b_new),
            HSMessage::Vote(node) => self.vote_taken(after, handed, left, node),
        }
    }

    /// A timer changes nothing: the protocol sets none.
    open spec fn fired(
        &self,
        after: &Self,
        handed: &Context<HSMessage>,
        left: &Context<HSMessage>,
        id: TimerId,
    ) -> bool {
        *after == *self && *left == *handed
    }

    /// The process with rank one proposes the first node.
    fn start(&mut self, ctx: &mut Context<HSMessage>) {
        if ctx.rank() == 1 && ctx.has_unique_id() && self.b_leaf.height < usize::MAX {
            let leaf = self.create_leaf(ctx);
            ctx.broadcast(HSMessage::Propose(leaf));
        }
    }

    /// Takes a proposal or a vote.
    fn on_message(&mut self, ctx: &mut Context<HSMessage>, from: Rank, message: Rc<HSMessage>) {
        match &*message {
            HSMessage::Propose(b_new) => self.on_propose(ctx, Rc::clone(b_new)),
            HSMessage::Vote(node) => self.on_vote(ctx, Rc::clone(node)),
        }
    }

    /// The protocol sets no timer.
    fn on_timer(&mut self, ctx: &mut Context<HSMessage>, id: TimerId) {
    }
}

} // verus!
