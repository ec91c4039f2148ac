//! The per-node consensus engine: a deterministic state machine over role,
//! term, peer set, leader hint and the replicated log.  The owner drives it
//! with explicit clock readings: each `tick` exchanges envelopes with the
//! fabric, reacts to at most one incoming envelope, runs election and
//! heartbeat timing, and advances the commit frontier on the leader.

use vstd::prelude::*;
use vstd::pervasive::unreached;

use core::marker::PhantomData;

use crate::intercommunication::{
    AppendLog, AppendLogEntry, Endpoint, Intercommunication, Package, PackageDetails,
};
use crate::replication::{
    clamped_target, host_views, Committable, Queriable, Receivable, ReplicationLog,
};

verus! {

/// How long a leader may stay silent before its followers start an
/// election, in milliseconds.  It must stay below every election timeout.
pub const HEARTBEAT_INTERVAL_MS: u64 = 70;

/// The role a node currently plays.
#[derive(Clone, Copy, Debug, PartialEq, Eq, Structural)]
pub enum State {
    Follower,
    Candidate,
    Leader,
}

/// A cluster member's name.
#[derive(Debug)]
pub struct NodeHost {
    pub host: String,
}

impl PartialEq for NodeHost {
    fn eq(&self, other: &NodeHost) -> (r: bool) {
        self.host.eq(&other.host)
    }
}

impl vstd::std_specs::cmp::PartialEqSpecImpl for NodeHost {
    open spec fn obeys_eq_spec() -> bool {
        true
    }

    open spec fn eq_spec(&self, other: &NodeHost) -> bool {
        self.host@ == other.host@
    }
}

/// The host-name views of a list of cluster members.
pub open spec fn node_views(nodes: Seq<NodeHost>) -> Seq<Seq<char>> {
    nodes.map_values(|n: NodeHost| n.host@)
}

/// Milliseconds passed since `since`; zero when the clock reads earlier.
pub open spec fn spec_elapsed(now: u64, since: u64) -> u64 {
    if now >= since {
        (now - since) as u64
    } else {
        0
    }
}

fn elapsed(now: u64, since: u64) -> (r: u64)
    ensures
        r == spec_elapsed(now, since),
{
    if now >= since {
        now - since
    } else {
        0
    }
}

/// The peer list after an announcement from `from`: appended unless already
/// present.
pub open spec fn ack_peers(peers: Seq<Seq<char>>, from: Seq<char>) -> Seq<Seq<char>> {
    if peers.contains(from) {
        peers
    } else {
        peers.push(from)
    }
}

/// A host list with later repetitions of a host removed.
pub open spec fn dedup_hosts(list: Seq<Seq<char>>) -> Seq<Seq<char>>
    decreases list.len(),
{
    if list.len() == 0 {
        Seq::empty()
    } else {
        let rest = dedup_hosts(list.drop_last());
        if rest.contains(list.last()) {
            rest
        } else {
            rest.push(list.last())
        }
    }
}

/// The peer list a node adopts from a leader's replication message: the
/// leader's list de-duplicated, with the node itself appended when missing.
pub open spec fn adopted_peers(list: Seq<Seq<char>>, me: Seq<char>) -> Seq<Seq<char>> {
    if dedup_hosts(list).contains(me) {
        dedup_hosts(list)
    } else {
        dedup_hosts(list).push(me)
    }
}

/// De-duplication keeps exactly the hosts of the original list.
proof fn lemma_dedup_hosts(list: Seq<Seq<char>>)
    ensures
        dedup_hosts(list).no_duplicates(),
        forall|h: Seq<char>| dedup_hosts(list).contains(h) <==> list.contains(h),
    decreases list.len(),
{
    if list.len() == 0 {
    } else {
        lemma_dedup_hosts(list.drop_last());
        let rest = dedup_hosts(list.drop_last());
        assert forall|h: Seq<char>| #[trigger] dedup_hosts(list).contains(h)
            implies list.contains(h) by {
            if rest.contains(h) || h == list.last() {
                if h == list.last() {
                    assert(list[list.len() - 1] == h);
                } else {
                    assert(list.drop_last().contains(h));
                    let k = choose|k: int|
                        0 <= k < list.drop_last().len() && list.drop_last()[k] == h;
                    assert(list[k] == h);
                }
            } else {
                let out = dedup_hosts(list);
                let k = choose|k: int| 0 <= k < out.len() && out[k] == h;
                assert(rest.contains(h) || h == list.last());
            }
        }
        assert forall|h: Seq<char>| #[trigger] list.contains(h) implies dedup_hosts(
            list,
        ).contains(h) by {
            let k = choose|k: int| 0 <= k < list.len() && list[k] == h;
            if k < list.len() - 1 {
                assert(list.drop_last()[k] == h);
                assert(list.drop_last().contains(h));
                if !rest.contains(list.last()) {
                    assert(dedup_hosts(list)[choose|m: int|
                        0 <= m < rest.len() && rest[m] == h] == h);
                }
            } else {
                if rest.contains(list.last()) {
                } else {
                    assert(dedup_hosts(list).last() == h);
                }
            }
        }
        if !rest.contains(list.last()) {
            assert forall|i: int, j: int|
                0 <= i < j < dedup_hosts(list).len() implies dedup_hosts(list)[i] != dedup_hosts(
                list,
            )[j] by {
                if j < rest.len() {
                } else {
                    assert(dedup_hosts(list)[j] == list.last());
                    assert(rest[i] == dedup_hosts(list)[i]);
                    if rest[i] == list.last() {
                        assert(rest.contains(list.last()));
                    }
                }
            }
        }
    }
}

/// Whether `nodes` holds a member named `host`.
#[verifier::loop_isolation(false)]
fn contains_node(nodes: &Vec<NodeHost>, host: &String) -> (r: bool)
    ensures
        r == node_views(nodes@).contains(host@),
{
    let mut i: usize = 0;
    while i < nodes.len()
        invariant
            i <= nodes@.len(),
            forall|j: int| 0 <= j < i ==> nodes@[j].host@ != host@,
        decreases nodes@.len() - i,
    {
        if nodes[i].host.eq(host) {
            proof {
                assert(node_views(nodes@)[i as int] == nodes@[i as int].host@);
                assert(node_views(nodes@).contains(host@));
            }
            return true;
        }
        i = i + 1;
    }
    proof {
        assert forall|j: int| 0 <= j < node_views(nodes@).len() implies node_views(nodes@)[j]
            != host@ by {
            assert(node_views(nodes@)[j] == nodes@[j].host@);
        }
    }
    false
}

/// A copy of the member list as plain host names.
#[verifier::loop_isolation(false)]
fn clone_host_list(nodes: &Vec<NodeHost>) -> (r: Vec<String>)
    ensures
        host_views(r@) == node_views(nodes@),
{
    let mut result: Vec<String> = Vec::new();
    let mut i: usize = 0;
    while i < nodes.len()
        invariant
            i <= nodes@.len(),
            host_views(result@) =~= node_views(nodes@).take(i as int),
        decreases nodes@.len() - i,
    {
        result.push(nodes[i].host.clone());
        proof {
            assert(host_views(result@) =~= node_views(nodes@).take(i + 1));
        }
        i = i + 1;
    }
    proof {
        assert(node_views(nodes@).take(nodes@.len() as int) =~= node_views(nodes@));
    }
    result
}

/// A copy of the member list.
#[verifier::loop_isolation(false)]
fn clone_nodes(nodes: &Vec<NodeHost>) -> (r: Vec<NodeHost>)
    ensures
        node_views(r@) == node_views(nodes@),
{
    let mut result: Vec<NodeHost> = Vec::new();
    let mut i: usize = 0;
    while i < nodes.len()
        invariant
            i <= nodes@.len(),
            node_views(result@) =~= node_views(nodes@).take(i as int),
        decreases nodes@.len() - i,
    {
        result.push(NodeHost { host: nodes[i].host.clone() });
        proof {
            assert(node_views(result@) =~= node_views(nodes@).take(i + 1));
        }
        i = i + 1;
    }
    proof {
        assert(node_views(nodes@).take(nodes@.len() as int) =~= node_views(nodes@));
    }
    result
}

/// The member list adopted from a leader's message: de-duplicated, with
/// this node itself appended when the leader's list misses it.
#[verifier::loop_isolation(false)]
fn adopt_node_list(list: &Vec<String>, me: &String) -> (r: Vec<NodeHost>)
    ensures
        node_views(r@) == adopted_peers(host_views(list@), me@),
        node_views(r@).no_duplicates(),
        node_views(r@).contains(me@),
{
    let mut result: Vec<NodeHost> = Vec::new();
    let mut i: usize = 0;
    proof {
        assert(host_views(list@).take(0) =~= Seq::<Seq<char>>::empty());
        assert(node_views(result@) =~= dedup_hosts(host_views(list@).take(0)));
    }
    while i < list.len()
        invariant
            i <= list@.len(),
            node_views(result@) == dedup_hosts(host_views(list@).take(i as int)),
            node_views(result@).no_duplicates(),
        decreases list@.len() - i,
    {
        let seen = contains_node(&result, &list[i]);
        proof {
            assert(host_views(list@).take(i + 1).drop_last() =~= host_views(list@).take(i as int));
            assert(host_views(list@).take(i + 1).last() == list@[i as int]@);
        }
        if !seen {
            result.push(NodeHost { host: list[i].clone() });
            proof {
                assert(node_views(result@) =~= dedup_hosts(host_views(list@).take(i as int)).push(
                    list@[i as int]@,
                ));
            }
        }
        i = i + 1;
    }
    proof {
        assert(host_views(list@).take(list@.len() as int) =~= host_views(list@));
        lemma_dedup_hosts(host_views(list@));
    }
    let mine = contains_node(&result, me);
    if !mine {
        let ghost before = node_views(result@);
        result.push(NodeHost { host: me.clone() });
        proof {
            assert(node_views(result@) =~= before.push(me@));
            assert(node_views(result@).last() == me@);
            assert(node_views(result@).contains(me@));
        }
    }
    result
}

/// The view of an optional host name.
pub open spec fn opt_host_view(h: Option<String>) -> Option<Seq<char>> {
    match h {
        Some(s) => Some(s@),
        None => None,
    }
}

/// The view of an optional cluster member.
pub open spec fn opt_node_view(h: Option<NodeHost>) -> Option<Seq<char>> {
    match h {
        Some(n) => Some(n.host@),
        None => None,
    }
}

/// Appending a host that a duplicate-free list misses keeps it
/// duplicate-free, and adds exactly that host.
proof fn lemma_push_fresh(s: Seq<Seq<char>>, x: Seq<char>)
    requires
        s.no_duplicates(),
        !s.contains(x),
    ensures
        s.push(x).no_duplicates(),
        forall|h: Seq<char>| s.push(x).contains(h) <==> s.contains(h) || h == x,
{
    assert forall|i: int, j: int| 0 <= i < j < s.push(x).len() implies s.push(x)[i] != s.push(
        x,
    )[j] by {
        if j == s.len() {
            if s[i] == x {
                assert(s.contains(x));
            }
        }
    }
    assert forall|h: Seq<char>| #[trigger] s.push(x).contains(h) implies s.contains(h) || h
        == x by {
        let k = choose|k: int| 0 <= k < s.push(x).len() && s.push(x)[k] == h;
        if k < s.len() {
            assert(s[k] == h);
        }
    }
    assert forall|h: Seq<char>| #[trigger] s.contains(h) implies s.push(x).contains(h) by {
        let k = choose|k: int| 0 <= k < s.len() && s[k] == h;
        assert(s.push(x)[k] == h);
    }
    assert(s.push(x)[s.len() as int] == x);
    assert(s.push(x).contains(x));
}

/// The term after a self-promotion: one higher, held at the numeric limit.
pub open spec fn bump_term(term: u64) -> u64 {
    if term == u64::MAX {
        term
    } else {
        (term + 1) as u64
    }
}

/// Whether `p` is a replication message from `service` to one of its peers
/// other than itself, carrying its committed offset, its member list, and
/// the given entry (none for a heartbeat).
pub open spec fn append_query_to_peer<T, R, Q, Rcv>(
    p: Package<T>,
    service: NodeService<T, R, Q, Rcv>,
    enqueue: Option<AppendLogEntry<T>>,
) -> bool where
    T: Committable + Copy,
    R: ReplicationLog<T, Q, Rcv>,
    Q: Queriable,
    Rcv: Receivable,
{
    match p {
        Package::Pack(f, t, PackageDetails::AppendQuery(al)) => {
            &&& f@ == service.host_name()
            &&& service.peers().contains(t@)
            &&& t@ != service.host_name()
            &&& al.committed_offset == service.the_log().committed()
            &&& host_views(al.node_list@) == service.peers()
            &&& match (al.enqueue, enqueue) {
                (Some(e1), Some(e2)) => e1.offset == e2.offset && e1.entry == e2.entry,
                (None, None) => true,
                _ => false,
            }
        },
        _ => false,
    }
}

/// How many of the first `k` hosts of `peers` are not `me`: the fan-out
/// position of the envelope addressed to the peer at position `k`.
pub open spec fn others_before(peers: Seq<Seq<char>>, me: Seq<char>, k: int) -> int
    decreases k,
{
    if k <= 0 {
        0
    } else {
        others_before(peers, me, k - 1) + if peers[k - 1] == me {
            0int
        } else {
            1int
        }
    }
}

/// Among the first `k` hosts, the count of others is `k` less one when `me`
/// stands among them; over a duplicate-free list that holds `me`, the
/// others number one less than the whole list.
proof fn lemma_others_before(peers: Seq<Seq<char>>, me: Seq<char>, k: int)
    requires
        peers.no_duplicates(),
        0 <= k <= peers.len(),
    ensures
        others_before(peers, me, k) == k - (if exists|j: int| 0 <= j < k && peers[j] == me {
            1int
        } else {
            0int
        }),
    decreases k,
{
    if k > 0 {
        lemma_others_before(peers, me, k - 1);
        if peers[k - 1] == me {
            assert forall|j: int| 0 <= j < k - 1 implies peers[j] != me by {}
        } else {
            if exists|j: int| 0 <= j < k && peers[j] == me {
                let j = choose|j: int| 0 <= j < k && peers[j] == me;
                assert(0 <= j < k - 1 && peers[j] == me);
            }
        }
    }
}

/// Counting others never decreases along the list.
proof fn lemma_others_before_mono(peers: Seq<Seq<char>>, me: Seq<char>, a: int, b: int)
    requires
        0 <= a <= b,
    ensures
        others_before(peers, me, a) <= others_before(peers, me, b),
    decreases b - a,
{
    if a < b {
        lemma_others_before_mono(peers, me, a, b - 1);
    }
}

/// Appending the envelope addressed to the peer at position `i` extends
/// per-peer coverage of a fan-out by that peer.
proof fn lemma_fanout_extend<T: Committable>(
    pre_out: Seq<Package<T>>,
    post_out: Seq<Package<T>>,
    peers: Seq<Seq<char>>,
    me: Seq<char>,
    base: int,
    i: int,
)
    requires
        0 <= base,
        0 <= i < peers.len(),
        peers[i] != me,
        pre_out.len() == base + others_before(peers, me, i),
        post_out.len() == pre_out.len() + 1,
        forall|j: int| 0 <= j < pre_out.len() ==> post_out[j] == pre_out[j],
        post_out[pre_out.len() as int].dest() == peers[i],
        forall|k: int|
            0 <= k < i && peers[k] != me ==> (#[trigger] pre_out[base + others_before(
                peers,
                me,
                k,
            )]).dest() == peers[k],
    ensures
        forall|k: int|
            0 <= k < i + 1 && peers[k] != me ==> (#[trigger] post_out[base + others_before(
                peers,
                me,
                k,
            )]).dest() == peers[k],
{
    assert forall|k: int|
        0 <= k < i + 1 && peers[k] != me implies (#[trigger] post_out[base + others_before(
        peers,
        me,
        k,
    )]).dest() == peers[k] by {
        if k < i {
            lemma_others_before_mono(peers, me, 0, k);
            lemma_others_before_mono(peers, me, k + 1, i);
            assert(others_before(peers, me, k + 1) == others_before(peers, me, k) + 1);
            assert(base + others_before(peers, me, k) < pre_out.len());
            assert(pre_out[base + others_before(peers, me, k)].dest() == peers[k]);
            assert(post_out[base + others_before(peers, me, k)] == pre_out[base + others_before(
                peers,
                me,
                k,
            )]);
        } else {
            assert(others_before(peers, me, i) == pre_out.len() - base);
        }
    }
}

/// One replication envelope per peer other than this node, appended to
/// `out` from position `base` on, in peer order: each envelope passes
/// `append_query_to_peer`, and the peer at position `k` of the peer list is
/// the destination of the envelope at `base + others_before(k)`.
pub open spec fn append_fanout<T, R, Q, Rcv>(
    service: NodeService<T, R, Q, Rcv>,
    out: Seq<Package<T>>,
    base: int,
    enqueue: Option<AppendLogEntry<T>>,
) -> bool where
    T: Committable + Copy,
    R: ReplicationLog<T, Q, Rcv>,
    Q: Queriable,
    Rcv: Receivable,
{
    &&& out.len() == base + service.peers().len() - 1
    &&& (forall|j: int|
        base <= j < out.len() ==> append_query_to_peer(#[trigger] out[j], service, enqueue))
    &&& (forall|k: int|
        0 <= k < service.peers().len() && service.peers()[k] != service.host_name() ==> (
        #[trigger] out[base + others_before(service.peers(), service.host_name(), k)]).dest()
            == service.peers()[k])
}

/// The per-node engine.  It owns the node's endpoint on the fabric: what it
/// sends gathers in the endpoint's outbox until the next `tick` hands it to
/// the fabric and fetches what the fabric routed here.
pub struct NodeService<T, R, Q, Rcv> where
    T: Committable + Copy,
    R: ReplicationLog<T, Q, Rcv>,
    Q: Queriable,
    Rcv: Receivable,
{
    state: State,
    my_host: NodeHost,
    leader_host: Option<NodeHost>,
    nodes: Vec<NodeHost>,
    comm: Endpoint<T>,
    last_append_log_seen_at: u64,
    last_sent_heartbeat: u64,
    term: u64,
    votes: usize,
    already_requested: bool,
    dead: bool,
    log: R,
    election_timeout: u64,
    marker: PhantomData<(Q, Rcv)>,
}

impl<T, R, Q, Rcv> NodeService<T, R, Q, Rcv> where
    T: Committable + Copy,
    R: ReplicationLog<T, Q, Rcv>,
    Q: Queriable,
    Rcv: Receivable,
{
    /// The role this node currently plays.
    pub closed spec fn role(&self) -> State {
        self.state
    }

    /// This node's own host name.
    pub closed spec fn host_name(&self) -> Seq<char> {
        self.my_host.host@
    }

    /// The election term this node believes current.
    pub closed spec fn current_term(&self) -> u64 {
        self.term
    }

    /// The votes counted for this node in the current term.
    pub closed spec fn vote_count(&self) -> nat {
        self.votes as nat
    }

    /// The host this node believes leads, before the leader-side masking of
    /// `fetch_leader_host`.
    pub closed spec fn hint(&self) -> Option<Seq<char>> {
        match self.leader_host {
            Some(h) => Some(h.host@),
            None => None,
        }
    }

    /// The leader hint as reported to others: a leader names none.
    pub open spec fn public_hint(&self) -> Option<Seq<char>> {
        if self.role() == State::Leader {
            None
        } else {
            self.hint()
        }
    }

    /// The hosts this node believes compose the cluster.
    pub closed spec fn peers(&self) -> Seq<Seq<char>> {
        node_views(self.nodes@)
    }

    /// This node's replicated log.
    pub closed spec fn the_log(&self) -> R {
        self.log
    }

    /// Whether this node has been stopped.
    pub closed spec fn is_dead(&self) -> bool {
        self.dead
    }

    /// The envelopes handed to the fabric at the next tick.
    pub closed spec fn outgoing(&self) -> Seq<Package<T>> {
        self.comm.outbox@
    }

    /// The envelopes fetched from the fabric and not yet processed.
    pub closed spec fn incoming(&self) -> Seq<Package<T>> {
        self.comm.inbox@
    }

    /// When this node last saw a leader's replication message.
    pub closed spec fn last_seen(&self) -> u64 {
        self.last_append_log_seen_at
    }

    /// When this leader last broadcast a heartbeat.
    pub closed spec fn last_heartbeat(&self) -> u64 {
        self.last_sent_heartbeat
    }

    /// The election timeout this node was configured with.
    pub closed spec fn timeout(&self) -> u64 {
        self.election_timeout
    }

    /// Whether a fresh candidacy has already requested votes.
    pub closed spec fn requested(&self) -> bool {
        self.already_requested
    }

    /// Internal well-formedness: the log is sound, the peer set is free of
    /// repetition and holds this node itself, and the endpoint is the one
    /// registered under this node's name.
    pub closed spec fn wf(&self) -> bool {
        &&& self.log.wf()
        &&& node_views(self.nodes@).no_duplicates()
        &&& node_views(self.nodes@).contains(self.my_host.host@)
        &&& self.comm.host@ == self.my_host.host@
    }

    fn new(host: String, comm: Endpoint<T>, log: R, election_timeout: u64, now: u64) -> (service:
        NodeService<T, R, Q, Rcv>)
        requires
            log.wf(),
            comm.host@ == host@,
        ensures
            service.wf(),
            service.role() == State::Follower,
            service.host_name() == host@,
            service.hint() is None,
            service.peers() == seq![host@],
            service.current_term() == 0,
            service.vote_count() == 0,
            !service.requested(),
            !service.is_dead(),
            service.the_log() == log,
            service.timeout() == election_timeout,
            service.last_seen() == now,
            service.last_heartbeat() == now,
            service.outgoing() == comm.outbox@,
            service.incoming() == comm.inbox@,
    {
        let my_name = host.clone();
        let mut nodes: Vec<NodeHost> = Vec::new();
        nodes.push(NodeHost { host: my_name });
        let service = NodeService {
            state: State::Follower,
            my_host: NodeHost { host },
            leader_host: None,
            nodes,
            comm,
            last_append_log_seen_at: now,
            last_sent_heartbeat: now,
            term: 0,
            votes: 0,
            already_requested: false,
            dead: false,
            log,
            election_timeout,
            marker: PhantomData,
        };
        proof {
            assert(node_views(service.nodes@) =~= seq![service.my_host.host@]);
            assert(node_views(service.nodes@)[0] == service.my_host.host@);
            assert(node_views(service.nodes@).contains(service.my_host.host@));
        }
        service
    }

    /// Whether `other` agrees with this service on everything but the two
    /// endpoint queues.
    pub open spec fn same_but_endpoint(self, other: Self) -> bool {
        &&& other.role() == self.role()
        &&& other.host_name() == self.host_name()
        &&& other.current_term() == self.current_term()
        &&& other.vote_count() == self.vote_count()
        &&& other.hint() == self.hint()
        &&& other.peers() == self.peers()
        &&& other.the_log() == self.the_log()
        &&& other.is_dead() == self.is_dead()
        &&& other.last_seen() == self.last_seen()
        &&& other.last_heartbeat() == self.last_heartbeat()
        &&& other.timeout() == self.timeout()
        &&& other.requested() == self.requested()
    }

    /// Whether `other` agrees with this service on everything but what
    /// stands in the endpoint's outbox.
    pub open spec fn same_core(self, other: Self) -> bool {
        &&& self.same_but_endpoint(other)
        &&& other.incoming() == self.incoming()
    }

    /// One replication message to every peer but this node itself: the
    /// committed offset, the member list, and at most one new entry.
    #[verifier::loop_isolation(false)]
    #[verifier::rlimit(60)]
    fn send_append_log(&mut self, enqueue: Option<AppendLogEntry<T>>)
        requires
            old(self).wf(),
        ensures
            final(self).wf(),
            old(self).same_core(*final(self)),
            old(self).outgoing().is_prefix_of(final(self).outgoing()),
            append_fanout(
                *old(self),
                final(self).outgoing(),
                old(self).outgoing().len() as int,
                enqueue,
            ),
    {
        let committed_offset = self.log.committed_offset();
        proof {
            let k = choose|k: int|
                0 <= k < node_views(self.nodes@).len() && node_views(self.nodes@)[k]
                    == self.my_host.host@;
            assert(self.nodes@[k].host@ == self.my_host.host@);
        }
        let ghost m = choose|m: int|
            0 <= m < self.nodes@.len() && self.nodes@[m].host@ == self.my_host.host@;
        proof {
            assert(0 <= m < self.nodes@.len() && self.nodes@[m].host@ == self.my_host.host@);
        }
        let ghost base = self.comm.outbox@.len() as int;
        let mut i: usize = 0;
        while i < self.nodes.len()
            invariant
                i <= self.nodes@.len(),
                self.wf(),
                old(self).same_core(*self),
                old(self).outgoing().is_prefix_of(self.outgoing()),
                self.outgoing().len() == base + others_before(
                    old(self).peers(),
                    old(self).host_name(),
                    i as int,
                ),
                forall|k: int|
                    base <= k < self.outgoing().len() ==> append_query_to_peer(
                        #[trigger] self.outgoing()[k],
                        *old(self),
                        enqueue,
                    ),
                forall|k: int|
                    0 <= k < i && old(self).peers()[k] != old(self).host_name() ==> (
                    #[trigger] self.outgoing()[base + others_before(
                        old(self).peers(),
                        old(self).host_name(),
                        k,
                    )]).dest() == old(self).peers()[k],
            decreases self.nodes@.len() - i,
        {
            let to = self.nodes[i].host.clone();
            if !to.eq(&self.my_host.host) {
                proof {
                    assert(node_views(self.nodes@)[i as int] == self.nodes@[i as int].host@);
                    if i == m {
                        assert(false);
                    }
                }
                let msg_list = clone_host_list(&self.nodes);
                let msg_enqueue = match &enqueue {
                    Some(e) => Some(AppendLogEntry { offset: e.offset, entry: e.entry }),
                    None => None,
                };
                let ghost outlen = self.comm.outbox@.len();
                let ghost preout = self.comm.outbox@;
                self.comm.send(
                    to,
                    PackageDetails::AppendQuery(
                        AppendLog {
                            committed_offset,
                            node_list: msg_list,
                            enqueue: msg_enqueue,
                        },
                    ),
                );
                proof {
                    assert(node_views(self.nodes@)[i as int] == self.nodes@[i as int].host@);
                    assert(old(self).peers().contains(self.nodes@[i as int].host@));
                    assert(append_query_to_peer(
                        self.outgoing()[outlen as int],
                        *old(self),
                        enqueue,
                    ));
                    assert(self.outgoing()[outlen as int].dest() == old(self).peers()[i as int]);
                    lemma_fanout_extend(
                        preout,
                        self.comm.outbox@,
                        old(self).peers(),
                        old(self).host_name(),
                        base,
                        i as int,
                    );
                }
            } else {
                proof {
                    assert(node_views(self.nodes@)[i as int] == self.nodes@[i as int].host@);
                    assert(node_views(self.nodes@)[m] == self.nodes@[m].host@);
                    if i != m {
                        assert(false);
                    }
                }
            }
            i = i + 1;
        }
        proof {
            lemma_others_before(
                old(self).peers(),
                old(self).host_name(),
                old(self).peers().len() as int,
            );
            assert(old(self).peers()[m] == old(self).host_name());
        }
    }

    /// Runs the election clock: a silent leader turns its followers into
    /// candidates; a fresh candidate raises the term and asks every known
    /// peer for a vote, once per candidacy; a stale candidacy falls back to
    /// follower; a leader clears its own leader hint and broadcasts a
    /// heartbeat once the heartbeat interval has passed.
    #[verifier::loop_isolation(false)]
    fn election_handler(&mut self, now: u64)
        requires
            old(self).wf(),
        ensures
            old(self).election_step(*final(self), now),
    {
        let passed = elapsed(now, self.last_append_log_seen_at);
        let passed_since_heartbeat = elapsed(now, self.last_sent_heartbeat);
        let duration = self.election_timeout;

        match self.state {
            State::Follower => {
                if passed > duration {
                    self.state = State::Candidate;
                    self.votes = 0;
                    self.already_requested = false;
                    self.last_append_log_seen_at = now;
                }
            },
            State::Candidate => {
                if passed > duration {
                    self.state = State::Follower;
                    self.votes = 0;
                    self.last_append_log_seen_at = now;
                }

                if !self.already_requested && self.state == State::Candidate {
                    self.already_requested = true;
                    if self.term < u64::MAX {
                        self.term = self.term + 1;
                    }
                    let my = self.my_host.host.clone();
                    self.comm.send(my, PackageDetails::Vote(self.term));

                    let ghost oldlen = old(self).comm.outbox@.len() as int;
                    let ghost base = self.comm.outbox@.len() as int;
                    let mut i: usize = 0;
                    while i < self.nodes.len()
                        invariant
                            i <= self.nodes@.len(),
                            self.wf(),
                            self.comm.outbox@.len() == base + i,
                            self.comm.outbox@.take(oldlen) =~= old(self).comm.outbox@,
                            (self.comm.outbox@[oldlen] matches Package::Pack(
                                f,
                                t,
                                PackageDetails::Vote(tm),
                            ) && f@ == old(self).my_host.host@ && t@ == old(self).my_host.host@
                                && tm == bump_term(old(self).term)),
                            self.state == old(self).state,
                            self.my_host == old(self).my_host,
                            self.leader_host == old(self).leader_host,
                            self.nodes == old(self).nodes,
                            self.comm.host == old(self).comm.host,
                            self.comm.inbox == old(self).comm.inbox,
                            self.last_append_log_seen_at == old(self).last_append_log_seen_at,
                            self.last_sent_heartbeat == old(self).last_sent_heartbeat,
                            self.term == bump_term(old(self).term),
                            self.votes == old(self).votes,
                            self.already_requested,
                            self.dead == old(self).dead,
                            self.log == old(self).log,
                            self.election_timeout == old(self).election_timeout,
                            forall|k: int|
                                0 <= k < i ==> (#[trigger] self.comm.outbox@[base + k] matches
                                    Package::Pack(f, t, PackageDetails::RequestVote(tm)) && f@
                                    == old(self).my_host.host@ && t@ == node_views(
                                    old(self).nodes@,
                                )[k] && tm == bump_term(old(self).term)),
                        decreases self.nodes@.len() - i,
                    {
                        let to = self.nodes[i].host.clone();
                        self.comm.send(to, PackageDetails::RequestVote(self.term));
                        proof {
                            assert(self.comm.outbox@.take(oldlen) =~= old(self).comm.outbox@);
                            assert(node_views(self.nodes@)[i as int] == self.nodes@[i as int].host@);
                        }
                        i = i + 1;
                    }
                }
            },
            State::Leader => {
                self.leader_host = None;

                if passed_since_heartbeat > HEARTBEAT_INTERVAL_MS {
                    self.send_append_log(None);
                    self.last_sent_heartbeat = now;
                }
            },
        }
    }

    /// On the leader, advances the commit frontier by at most one entry,
    /// exactly when the entry at the frontier is persisted on a majority of
    /// the known cluster; each advance is followed by a heartbeat so
    /// followers learn the new committed offset promptly.
    fn autocommit(&mut self)
        requires
            old(self).wf(),
        ensures
            old(self).commit_step(*final(self)),
    {
        let n = self.nodes.len();
        let majority_size = n / 2 + n % 2;
        proof {
            assert(majority_size == (node_views(old(self).nodes@).len() + 1) / 2);
        }
        let committed_offset_was = self.log.committed_offset();

        match self.state {
            State::Leader => self.log.autocommit_if_safe(majority_size),
            _ => {},
        }

        let committed_offset_now = self.log.committed_offset();
        if committed_offset_was < committed_offset_now {
            self.send_append_log(None);
        }
    }


    /// One reaction step: how `post` stands to `self` after
    /// `react_to_intercommunication` has run at clock reading `now`.
    pub open spec fn react_step(self, post: Self, now: u64) -> bool {
        &&& (post.wf())
        &&& (post.host_name() == self.host_name())
        &&& (post.timeout() == self.timeout())
        &&& (post.is_dead() == self.is_dead())
        &&& (post.last_heartbeat() == self.last_heartbeat())
        &&& (post.requested() == self.requested())
        &&& (post.current_term() >= self.current_term())
        &&& (self.the_log().committed() <= post.the_log().committed())
        &&& (self.the_log().entries().len() <= post.the_log().entries().len())
        &&& (post.the_log().entries().take(self.the_log().entries().len() as int)
                    =~= self.the_log().entries())
        &&& (self.outgoing().len() <= post.outgoing().len())
        &&& (post.outgoing().take(self.outgoing().len() as int) =~= self.outgoing())
        &&& (self.incoming().len() == 0 ==> post == self)
        &&& (self.incoming().len() > 0 ==> post.incoming() == self.incoming().drop_first())
        &&& (self.incoming().len() > 0 ==> match self.incoming()[0] {
                    Package::Pack(from, _, details) => match details {
                        PackageDetails::Ack => {
                            &&& post.peers() == ack_peers(self.peers(), from@)
                            &&& post.role() == self.role()
                            &&& post.current_term() == self.current_term()
                            &&& post.the_log() == self.the_log()
                            &&& post.hint() == self.hint()
                            &&& post.outgoing() == self.outgoing()
                            &&& post.vote_count() == self.vote_count()
                            &&& post.last_seen() == self.last_seen()
                        },
                        PackageDetails::LeaderQuery => {
                            &&& post.peers() == self.peers()
                            &&& post.role() == self.role()
                            &&& post.current_term() == self.current_term()
                            &&& post.the_log() == self.the_log()
                            &&& post.hint() == self.hint()
                            &&& post.vote_count() == self.vote_count()
                            &&& post.last_seen() == self.last_seen()
                            &&& post.outgoing().len() == self.outgoing().len() + 1
                            &&& (post.outgoing().last() matches Package::Pack(
                                f,
                                t,
                                PackageDetails::LeaderQueryResponse(h),
                            ) && f@ == self.host_name() && t@ == from@ && opt_host_view(h) == self.public_hint())
                        },
                        PackageDetails::LeaderQueryResponse(lh) => {
                            &&& post.peers() == self.peers()
                            &&& post.role() == self.role()
                            &&& post.current_term() == self.current_term()
                            &&& post.the_log() == self.the_log()
                            &&& post.hint() == self.hint()
                            &&& post.vote_count() == self.vote_count()
                            &&& post.last_seen() == self.last_seen()
                            &&& match lh {
                                Some(h) => post.outgoing().len() == self.outgoing().len()
                                    + 1 && (post.outgoing().last() matches Package::Pack(
                                    f,
                                    t,
                                    PackageDetails::Ack,
                                ) && f@ == self.host_name() && t@ == h@),
                                None => post.outgoing() == self.outgoing(),
                            }
                        },
                        PackageDetails::AppendQuery(al) => {
                            &&& post.role() == self.role()
                            &&& post.current_term() == self.current_term()
                            &&& post.vote_count() == self.vote_count()
                            &&& post.hint() == Some(from@)
                            &&& post.last_seen() == now
                            &&& post.peers() == adopted_peers(
                                host_views(al.node_list@),
                                self.host_name(),
                            )
                            &&& post.the_log().committed() <= clamped_target(
                                self.the_log().committed(),
                                al.committed_offset as nat,
                                self.the_log().entries().len(),
                            )
                            &&& match al.enqueue {
                                Some(e) => (e.offset == self.the_log().entries().len() && post.the_log().entries() == self.the_log().entries().push(e.entry)
                                    && post.outgoing().len() == self.outgoing().len() + 1
                                    && (post.outgoing().last() matches Package::Pack(
                                    f,
                                    t,
                                    PackageDetails::Persisted(off),
                                ) && f@ == self.host_name() && t@ == from@ && off == e.offset)) || (
                                post.the_log().entries() == self.the_log().entries()
                                    && post.outgoing() == self.outgoing()),
                                None => post.the_log().entries() == self.the_log().entries() && post.outgoing() == self.outgoing(),
                            }
                        },
                        PackageDetails::Persisted(off) => {
                            &&& post.peers() == self.peers()
                            &&& post.role() == self.role()
                            &&& post.current_term() == self.current_term()
                            &&& post.hint() == self.hint()
                            &&& post.vote_count() == self.vote_count()
                            &&& post.last_seen() == self.last_seen()
                            &&& post.outgoing() == self.outgoing()
                            &&& post.the_log().entries() == self.the_log().entries()
                            &&& post.the_log().committed() == self.the_log().committed()
                            &&& (off < self.the_log().entries().len() ==> post.the_log().witnesses(off as int) == self.the_log().witnesses(
                                off as int,
                            ).insert(from@) || post.the_log().witnesses(off as int) == self.the_log().witnesses(off as int))
                            &&& (off >= self.the_log().entries().len() ==> post.the_log()
                                == self.the_log())
                            &&& forall|i: int|
                                i != off ==> post.the_log().witnesses(i) == self.the_log().witnesses(i)
                        },
                        PackageDetails::RequestVote(t) => {
                            &&& post.peers() == self.peers()
                            &&& post.role() == self.role()
                            &&& post.the_log() == self.the_log()
                            &&& post.hint() == self.hint()
                            &&& (t > self.current_term() ==> {
                                &&& post.current_term() == t
                                &&& post.vote_count() == 0
                                &&& post.last_seen() == now
                                &&& post.outgoing().len() == self.outgoing().len() + 1
                                &&& (post.outgoing().last() matches Package::Pack(
                                    f,
                                    tt,
                                    PackageDetails::Vote(tm),
                                ) && f@ == self.host_name() && tt@ == from@ && tm == t)
                            })
                            &&& (t <= self.current_term() ==> post.current_term() == self.current_term() && post.vote_count() == self.vote_count()
                                && post.last_seen() == self.last_seen() && post.outgoing() == self.outgoing())
                        },
                        PackageDetails::Vote(t) => {
                            &&& post.peers() == self.peers()
                            &&& post.current_term() == self.current_term()
                            &&& post.hint() == self.hint()
                            &&& post.last_seen() == self.last_seen()
                            &&& post.the_log().entries() == self.the_log().entries()
                            &&& post.the_log().committed() == self.the_log().committed()
                            &&& (!(t == self.current_term() && self.role()
                                == State::Candidate) ==> post.role() == self.role()
                                && post.vote_count() == self.vote_count() && post.outgoing() == self.outgoing())
                            &&& ((t == self.current_term() && self.role()
                                == State::Candidate) ==> {
                                let v: nat = if self.vote_count() < usize::MAX {
                                    self.vote_count() + 1
                                } else {
                                    self.vote_count()
                                };
                                &&& post.vote_count() == v
                                &&& (v > self.peers().len() / 2 ==> post.role()
                                    == State::Leader && append_fanout(
                                    post,
                                    post.outgoing(),
                                    self.outgoing().len() as int,
                                    None,
                                ))
                                &&& (v <= self.peers().len() / 2 ==> post.role()
                                    == State::Candidate && post.outgoing() == self.outgoing())
                            })
                        },
                    },
                })
    }

    /// One election step: how `post` stands to `self` after
    /// `election_handler` has run at clock reading `now`.
    pub open spec fn election_step(self, post: Self, now: u64) -> bool {
        &&& (post.wf())
        &&& (post.current_term() >= self.current_term())
        &&& (post.host_name() == self.host_name())
        &&& (post.peers() == self.peers())
        &&& (post.the_log() == self.the_log())
        &&& (post.incoming() == self.incoming())
        &&& (post.is_dead() == self.is_dead())
        &&& (post.timeout() == self.timeout())
        &&& (self.outgoing().is_prefix_of(post.outgoing()))
        &&& (self.role() == State::Follower ==> (if spec_elapsed(now, self.last_seen())
                    > self.timeout() {
                    &&& post.role() == State::Candidate
                    &&& post.vote_count() == 0
                    &&& !post.requested()
                    &&& post.last_seen() == now
                    &&& post.current_term() == self.current_term()
                    &&& post.hint() == self.hint()
                    &&& post.outgoing() == self.outgoing()
                    &&& post.last_heartbeat() == self.last_heartbeat()
                } else {
                    post == self
                }))
        &&& (self.role() == State::Candidate ==> post.hint() == self.hint()
                    && post.last_heartbeat() == self.last_heartbeat() && (if spec_elapsed(
                    now,
                    self.last_seen(),
                ) > self.timeout() {
                    &&& post.role() == State::Follower
                    &&& post.vote_count() == 0
                    &&& post.last_seen() == now
                    &&& post.current_term() == self.current_term()
                    &&& post.outgoing() == self.outgoing()
                } else if !self.requested() {
                    &&& post.role() == State::Candidate
                    &&& post.requested()
                    &&& post.current_term() == bump_term(self.current_term())
                    &&& post.vote_count() == self.vote_count()
                    &&& post.last_seen() == self.last_seen()
                    &&& post.outgoing().len() == self.outgoing().len() + 1 + self.peers().len()
                    &&& (post.outgoing()[self.outgoing().len() as int] matches
                        Package::Pack(f, t, PackageDetails::Vote(tm)) && f@ == self.host_name()
                        && t@ == self.host_name() && tm == bump_term(self.current_term()))
                    &&& forall|k: int|
                        0 <= k < self.peers().len() ==> (#[trigger] post.outgoing()[self.outgoing().len() + 1 + k] matches Package::Pack(
                            f,
                            t,
                            PackageDetails::RequestVote(tm),
                        ) && f@ == self.host_name() && t@ == self.peers()[k] && tm
                            == bump_term(self.current_term()))
                } else {
                    post == self
                }))
        &&& (self.role() == State::Leader ==> {
                    &&& post.role() == State::Leader
                    &&& post.hint() is None
                    &&& post.current_term() == self.current_term()
                    &&& post.vote_count() == self.vote_count()
                    &&& post.requested() == self.requested()
                    &&& post.last_seen() == self.last_seen()
                    &&& (if spec_elapsed(now, self.last_heartbeat()) > HEARTBEAT_INTERVAL_MS {
                        &&& post.last_heartbeat() == now
                        &&& append_fanout(
                            post,
                            post.outgoing(),
                            self.outgoing().len() as int,
                            None,
                        )
                    } else {
                        &&& post.last_heartbeat() == self.last_heartbeat()
                        &&& post.outgoing() == self.outgoing()
                    })
                })
    }

    /// One commit step: how `post` stands to `self` after `autocommit` has
    /// run.
    pub open spec fn commit_step(self, post: Self) -> bool {
        &&& (post.wf())
        &&& (post.role() == self.role())
        &&& (post.host_name() == self.host_name())
        &&& (post.current_term() == self.current_term())
        &&& (post.vote_count() == self.vote_count())
        &&& (post.hint() == self.hint())
        &&& (post.peers() == self.peers())
        &&& (post.is_dead() == self.is_dead())
        &&& (post.incoming() == self.incoming())
        &&& (post.last_seen() == self.last_seen())
        &&& (post.last_heartbeat() == self.last_heartbeat())
        &&& (post.timeout() == self.timeout())
        &&& (post.requested() == self.requested())
        &&& (post.the_log().entries() == self.the_log().entries())
        &&& (forall|i: int|
                    post.the_log().witnesses(i) == self.the_log().witnesses(i))
        &&& (self.the_log().committed() <= post.the_log().committed() <= self.the_log().committed() + 1)
        &&& (post.the_log().committed() > self.the_log().committed() ==> self.role() == State::Leader && self.the_log().witnesses(
                    self.the_log().committed() as int,
                ).len() >= (self.peers().len() + 1) / 2)
        &&& (self.outgoing().is_prefix_of(post.outgoing()))
        &&& (post.the_log().committed() == self.the_log().committed() ==> post.outgoing() == self.outgoing())
        &&& (post.the_log().committed() > self.the_log().committed() ==> append_fanout(
                    post,
                    post.outgoing(),
                    self.outgoing().len() as int,
                    None,
                ))
    }

    /// The fabric exchange at the head of a turn: everything buffered in
    /// the outbox leaves for the fabric, and everything the fabric had
    /// routed here (`delivered`) lands at the tail of the inbox.
    pub open spec fn exchange_step(self, post: Self, delivered: Seq<Package<T>>) -> bool {
        &&& self.same_but_endpoint(post)
        &&& post.outgoing() == Seq::<Package<T>>::empty()
        &&& post.incoming() == self.incoming() + delivered
    }

    /// One whole turn of the node's loop, as the composition of its four
    /// phases: the fabric exchange, the reaction to at most one envelope,
    /// the election clock, and the leader's commit step — each phase
    /// exactly as its own contract states it.
    pub open spec fn tick_step(self, post: Self, delivered: Seq<Package<T>>, now: u64) -> bool {
        exists|after_exchange: Self, after_react: Self, after_election: Self|
            #![trigger self.exchange_step(after_exchange, delivered), after_exchange.react_step(after_react, now), after_react.election_step(after_election, now)]
            {
                &&& self.exchange_step(after_exchange, delivered)
                &&& after_exchange.react_step(after_react, now)
                &&& after_react.election_step(after_election, now)
                &&& after_election.commit_step(post)
            }
    }

    /// Reacts to the oldest envelope fetched from the fabric, if any: peer
    /// announcements grow the peer set; leader-discovery queries are
    /// answered; a leader's replication message refreshes the election
    /// timer, adopts the leader and its member list, advances the committed
    /// offset and appends the enclosed entry when it is the next one;
    /// persistence reports grow witness sets; vote requests with a higher
    /// term are granted; votes are counted, and a majority makes this node
    /// the leader.
    #[verifier::rlimit(100)]
    fn react_to_intercommunication(&mut self, now: u64)
        requires
            old(self).wf(),
        ensures
            old(self).react_step(*final(self), now),
    {
        let package = self.comm.listen();
        match package {
            None => {
            },
            Some(Package::Pack(from, _to, details)) => {
                match details {
                    PackageDetails::Ack => {
                        let seen = contains_node(&self.nodes, &from);
                        if !seen {
                            let ghost fv = from@;
                            let ghost oldviews = node_views(self.nodes@);
                            self.nodes.push(NodeHost { host: from });
                            proof {
                                assert(node_views(self.nodes@) =~= oldviews.push(fv));
                                lemma_push_fresh(oldviews, fv);
                            }
                        }
                    },
                    PackageDetails::LeaderQuery => {
                        let leader_host = match self.fetch_leader_host() {
                            Some(h) => Some(h.host),
                            None => None,
                        };
                        self.comm.send(from, PackageDetails::LeaderQueryResponse(leader_host));
                    },
                    PackageDetails::LeaderQueryResponse(leader_host) => {
                        match leader_host {
                            Some(host) => self.comm.send(host, PackageDetails::Ack),
                            None => {
                            },
                        }
                    },
                    PackageDetails::AppendQuery(log_msg) => {
                        let new_nodes = adopt_node_list(&log_msg.node_list, &self.my_host.host);
                        self.nodes = new_nodes;
                        self.last_append_log_seen_at = now;
                        self.leader_host = Some(NodeHost { host: from.clone() });
                        let _ = self.log.commit_upto(log_msg.committed_offset);
                        match log_msg.enqueue {
                            Some(log_entry) => {
                                let len = self.log.len();
                                if log_entry.offset == len {
                                    let res = self.log.enqueue(log_entry.entry);
                                    match res {
                                        Ok(_) => {
                                            self.comm.send(
                                                from,
                                                PackageDetails::Persisted(log_entry.offset),
                                            );
                                        },
                                        Err(_) => {
                                        },
                                    }
                                }
                            },
                            None => {
                            },
                        }
                    },
                    PackageDetails::Persisted(offset) => {
                        let len = self.log.len();
                        if offset < len {
                            let _ = self.log.persisted(offset, from);
                        }
                    },
                    PackageDetails::RequestVote(term) => {
                        if term > self.term {
                            self.term = term;
                            self.votes = 0;
                            self.last_append_log_seen_at = now;
                            self.comm.send(from, PackageDetails::Vote(term));
                        }
                    },
                    PackageDetails::Vote(term) => {
                        if term == self.term && self.state == State::Candidate {
                            if self.votes < usize::MAX {
                                self.votes = self.votes + 1;
                            }
                            if self.votes > self.nodes.len() / 2 {
                                self.state = State::Leader;
                                self.send_append_log(None);
                            }
                        }
                    },
                }
            },
        }
    }

    /// The election term this node believes current.
    pub fn term(&self) -> (r: u64)
        ensures
            r == self.current_term(),
    {
        self.term
    }

    /// The leader hint handed to callers and peers: a leader reports None,
    /// saying "ask me, I am".
    fn fetch_leader_host(&self) -> (r: Option<NodeHost>)
        ensures
            self.role() == State::Leader ==> r is None,
            self.role() != State::Leader ==> (match r {
                Some(h) => self.hint() == Some(h.host@),
                None => self.hint() is None,
            }),
    {
        match self.state {
            State::Leader => None,
            _ => match &self.leader_host {
                Some(h) => Some(NodeHost { host: h.host.clone() }),
                None => None,
            },
        }
    }

    /// Registers `host` on the fabric and builds the node's engine around
    /// the endpoint handed back.
    fn start_service<I: Intercommunication<T>>(
        host: String,
        intercommunication: &mut I,
        log: R,
        election_timeout: u64,
        now: u64,
    ) -> (service: NodeService<T, R, Q, Rcv>)
        requires
            old(intercommunication).wf(),
            log.wf(),
        ensures
            final(intercommunication).wf(),
            final(intercommunication).pending() == old(intercommunication).pending(),
            final(intercommunication).registered() == old(intercommunication).registered().insert(
                host@,
            ),
            final(intercommunication).mailbox(host@) == Seq::<Package<T>>::empty(),
            forall|h: Seq<char>|
                h != host@ ==> final(intercommunication).mailbox(h) == old(intercommunication).mailbox(h),
            service.wf(),
            service.role() == State::Follower,
            service.host_name() == host@,
            service.hint() is None,
            service.peers() == seq![host@],
            service.current_term() == 0,
            service.vote_count() == 0,
            !service.requested(),
            !service.is_dead(),
            service.the_log() == log,
            service.timeout() == election_timeout,
            service.last_seen() == now,
            service.last_heartbeat() == now,
            service.outgoing() == Seq::<Package<T>>::empty(),
            service.incoming() == Seq::<Package<T>>::empty(),
    {
        let name = host.clone();
        let comm = intercommunication.register(host);
        NodeService::new(name, comm, log, election_timeout, now)
    }

    /// Applies one command from the owning handle and builds its reply.
    fn react_to_commands(&mut self, command: Command<T, Q>) -> (r: Option<CommandResponse<Rcv>>)
        requires
            old(self).wf(),
        ensures
            final(self).wf(),
            final(self).host_name() == old(self).host_name(),
            final(self).current_term() == old(self).current_term(),
            final(self).timeout() == old(self).timeout(),
            final(self).incoming() == old(self).incoming(),
            final(self).last_seen() == old(self).last_seen(),
            final(self).last_heartbeat() == old(self).last_heartbeat(),
            final(self).requested() == old(self).requested(),
            final(self).the_log().committed() == old(self).the_log().committed(),
            old(self).outgoing().len() <= final(self).outgoing().len(),
            final(self).outgoing().take(old(self).outgoing().len() as int) == old(self).outgoing(),
            match command {
                Command::FetchState => *final(self) == *old(self) && r == Some(
                    CommandResponse::<Rcv>::FetchedState(old(self).role()),
                ),
                Command::AssignState(s) => {
                    &&& final(self).role() == s
                    &&& final(self).peers() == old(self).peers()
                    &&& final(self).hint() == old(self).hint()
                    &&& final(self).vote_count() == old(self).vote_count()
                    &&& final(self).the_log() == old(self).the_log()
                    &&& final(self).is_dead() == old(self).is_dead()
                    &&& final(self).outgoing() == old(self).outgoing()
                    &&& r == Some(CommandResponse::<Rcv>::FetchedState(s))
                },
                Command::FetchLeader => *final(self) == *old(self) && (r matches Some(
                    CommandResponse::FetchedLeader(h),
                ) && opt_node_view(h) == old(self).public_hint()),
                Command::AssignLeader(l) => {
                    &&& final(self).role() == old(self).role()
                    &&& final(self).peers() == old(self).peers()
                    &&& final(self).vote_count() == old(self).vote_count()
                    &&& final(self).the_log() == old(self).the_log()
                    &&& final(self).is_dead() == old(self).is_dead()
                    &&& final(self).hint() == opt_node_view(l)
                    &&& match l {
                        Some(h) => final(self).outgoing().len() == old(self).outgoing().len() + 1
                            && (final(self).outgoing().last() matches Package::Pack(
                            f,
                            t,
                            PackageDetails::Ack,
                        ) && f@ == old(self).host_name() && t@ == h.host@),
                        None => final(self).outgoing() == old(self).outgoing(),
                    }
                    &&& (r matches Some(CommandResponse::FetchedLeader(h)) && opt_node_view(h)
                        == final(self).public_hint())
                },
                Command::FetchNodes => *final(self) == *old(self) && (r matches Some(
                    CommandResponse::FetchedNodes(v),
                ) && node_views(v@) == old(self).peers()),
                Command::ExitCommand => {
                    &&& final(self).is_dead()
                    &&& final(self).role() == old(self).role()
                    &&& final(self).peers() == old(self).peers()
                    &&& final(self).hint() == old(self).hint()
                    &&& final(self).vote_count() == old(self).vote_count()
                    &&& final(self).the_log() == old(self).the_log()
                    &&& final(self).outgoing() == old(self).outgoing()
                    &&& r is None
                },
                Command::Introduce(h) => {
                    &&& final(self).role() == old(self).role()
                    &&& final(self).peers() == old(self).peers()
                    &&& final(self).hint() == old(self).hint()
                    &&& final(self).vote_count() == old(self).vote_count()
                    &&& final(self).the_log() == old(self).the_log()
                    &&& final(self).is_dead() == old(self).is_dead()
                    &&& final(self).outgoing().len() == old(self).outgoing().len() + 2
                    &&& (final(self).outgoing()[old(self).outgoing().len() as int] matches
                        Package::Pack(f, t, PackageDetails::Ack) && f@ == old(self).host_name()
                        && t@ == h@)
                    &&& (final(self).outgoing().last() matches Package::Pack(
                        f,
                        t,
                        PackageDetails::LeaderQuery,
                    ) && f@ == old(self).host_name() && t@ == h@)
                    &&& r is None
                },
                Command::Enqueue(cmd) => {
                    &&& r is None
                    &&& final(self).role() == old(self).role()
                    &&& final(self).hint() == old(self).hint()
                    &&& final(self).vote_count() == old(self).vote_count()
                    &&& final(self).is_dead() == old(self).is_dead()
                    &&& final(self).peers() == old(self).peers()
                    &&& (old(self).role() != State::Leader ==> *final(self) == *old(self))
                    &&& (old(self).role() == State::Leader ==> (
                    {
                        &&& final(self).the_log().entries() == old(self).the_log().entries().push(
                            cmd,
                        )
                        &&& (final(self).the_log().witnesses(
                            old(self).the_log().entries().len() as int,
                        ) == Set::<Seq<char>>::empty().insert(old(self).host_name()) || final(self).the_log().witnesses(old(self).the_log().entries().len() as int) == Set::<
                            Seq<char>,
                        >::empty())
                        &&& (forall|i: int|
                            0 <= i < old(self).the_log().entries().len() ==> final(self).the_log().witnesses(i) == old(self).the_log().witnesses(i))
                        &&& append_fanout(
                            *final(self),
                            final(self).outgoing(),
                            old(self).outgoing().len() as int,
                            Some(
                                (AppendLogEntry {
                                    offset: old(self).the_log().entries().len() as usize,
                                    entry: cmd,
                                }),
                            ),
                        )
                    } || (final(self).the_log().entries() == old(self).the_log().entries()
                        && (forall|i: int|
                        final(self).the_log().witnesses(i) == old(self).the_log().witnesses(i))
                        && final(self).outgoing() == old(self).outgoing())))
                },
                Command::Query(_) => {
                    &&& (r matches Some(CommandResponse::Queried(_)))
                    &&& final(self).role() == old(self).role()
                    &&& final(self).peers() == old(self).peers()
                    &&& final(self).hint() == old(self).hint()
                    &&& final(self).vote_count() == old(self).vote_count()
                    &&& final(self).is_dead() == old(self).is_dead()
                    &&& final(self).outgoing() == old(self).outgoing()
                    &&& final(self).the_log().entries() == old(self).the_log().entries()
                    &&& forall|i: int|
                        final(self).the_log().witnesses(i) == old(self).the_log().witnesses(i)
                },
            },
    {
        match command {
            Command::FetchState => Some(CommandResponse::FetchedState(self.state)),
            Command::AssignState(state) => {
                self.state = state;
                Some(CommandResponse::FetchedState(self.state))
            },
            Command::FetchLeader => Some(
                CommandResponse::FetchedLeader(self.fetch_leader_host()),
            ),
            Command::AssignLeader(leader) => {
                match &leader {
                    Some(h) => {
                        let to = h.host.clone();
                        self.comm.send(to, PackageDetails::Ack);
                    },
                    None => {
                    },
                }
                self.leader_host = leader;
                Some(CommandResponse::FetchedLeader(self.fetch_leader_host()))
            },
            Command::FetchNodes => Some(CommandResponse::FetchedNodes(clone_nodes(&self.nodes))),
            Command::ExitCommand => {
                self.dead = true;
                None
            },
            Command::Introduce(host) => {
                let again = host.clone();
                self.comm.send(host, PackageDetails::Ack);
                self.comm.send(again, PackageDetails::LeaderQuery);
                None
            },
            Command::Enqueue(command) => {
                if self.state == State::Leader {
                    let res = self.log.enqueue(command);
                    match res {
                        Ok(entry_offset) => {
                            self.send_append_log(
                                Some(AppendLogEntry { offset: entry_offset, entry: command }),
                            );
                            let me = self.my_host.host.clone();
                            let _ = self.log.persisted(entry_offset, me);
                        },
                        Err(_) => {
                        },
                    }
                }
                None
            },
            Command::Query(query) => Some(
                CommandResponse::Queried(self.log.query_persistance(query)),
            ),
        }
    }

    /// One turn of the node's loop: hand buffered envelopes to the fabric
    /// and fetch what it routed here, react to at most one incoming
    /// envelope, run the election clock, and advance the commit frontier
    /// when leading.  A stopped node does nothing.
    #[verifier::loop_isolation(false)]
    fn tick<I: Intercommunication<T>>(&mut self, intercommunication: &mut I, now: u64)
        requires
            old(self).wf(),
            old(intercommunication).wf(),
        ensures
            final(self).wf(),
            final(intercommunication).wf(),
            final(intercommunication).registered() == old(intercommunication).registered(),
            final(self).host_name() == old(self).host_name(),
            final(self).is_dead() == old(self).is_dead(),
            final(self).timeout() == old(self).timeout(),
            final(self).current_term() >= old(self).current_term(),
            old(self).the_log().committed() <= final(self).the_log().committed(),
            old(self).the_log().entries().len() <= final(self).the_log().entries().len(),
            final(self).the_log().entries().take(old(self).the_log().entries().len() as int)
                == old(self).the_log().entries(),
            old(self).is_dead() ==> *final(self) == *old(self) && *final(intercommunication)
                == *old(intercommunication),
            !old(self).is_dead() ==> final(intercommunication).pending() == old(intercommunication).pending() + old(self).outgoing(),
            !old(self).is_dead() ==> final(intercommunication).mailbox(old(self).host_name())
                == Seq::<Package<T>>::empty(),
            forall|h: Seq<char>|
                h != old(self).host_name() ==> final(intercommunication).mailbox(h) == old(intercommunication).mailbox(h),
            !old(self).is_dead() ==> old(self).tick_step(
                *final(self),
                old(intercommunication).mailbox(old(self).host_name()),
                now,
            ),
    {
        if self.dead {
            return ;
        }
        let ghost out0 = self.comm.outbox@;
        let ghost sent: int = 0;
        while self.comm.outbox.len() > 0
            invariant
                self.wf(),
                intercommunication.wf(),
                0 <= sent <= out0.len(),
                self.comm.outbox@ == out0.skip(sent),
                intercommunication.pending() == old(intercommunication).pending() + out0.take(
                    sent,
                ),
                intercommunication.registered() == old(intercommunication).registered(),
                forall|h: Seq<char>|
                    intercommunication.mailbox(h) == old(intercommunication).mailbox(h),
                old(self).same_core(*self),
            decreases self.comm.outbox@.len(),
        {
            let package = self.comm.outbox.remove(0);
            intercommunication.submit(package);
            proof {
                assert(out0.skip(sent).drop_first() =~= out0.skip(sent + 1));
                assert(out0.take(sent).push(out0[sent]) =~= out0.take(sent + 1));
                sent = sent + 1;
            }
        }
        proof {
            assert(out0.take(sent) =~= out0);
        }
        let ghost in0 = self.comm.inbox@;
        let ghost mb0 = intercommunication.mailbox(old(self).host_name());
        let ghost got: int = 0;
        loop
            invariant
                self.wf(),
                intercommunication.wf(),
                0 <= got <= mb0.len(),
                intercommunication.mailbox(old(self).host_name()) == mb0.skip(got),
                self.comm.inbox@ == in0 + mb0.take(got),
                intercommunication.pending() == old(intercommunication).pending() + out0,
                intercommunication.registered() == old(intercommunication).registered(),
                forall|h: Seq<char>|
                    h != old(self).host_name() ==> intercommunication.mailbox(h) == old(intercommunication).mailbox(h),
                old(self).same_but_endpoint(*self),
                self.comm.outbox@ == Seq::<Package<T>>::empty(),
            decreases intercommunication.mailbox(old(self).host_name()).len(),
        {
            let next = intercommunication.fetch(&self.comm.host);
            match next {
                Some(package) => {
                    self.comm.inbox.push(package);
                    proof {
                        assert(mb0.skip(got).drop_first() =~= mb0.skip(got + 1));
                        assert(mb0.skip(got)[0] == mb0[got]);
                        assert(in0 + mb0.take(got + 1) =~= (in0 + mb0.take(got)).push(mb0[got]));
                        got = got + 1;
                    }
                },
                None => {
                    proof {
                        assert(mb0.skip(got) =~= Seq::<Package<T>>::empty());
                    }
                    break ;
                },
            }
        }

        let ghost after_exchange = *self;
        proof {
            assert(self.comm.inbox@ =~= in0 + mb0);
            assert(old(self).exchange_step(after_exchange, mb0));
        }
        self.react_to_intercommunication(now);
        let ghost after_react = *self;
        self.election_handler(now);
        let ghost after_election = *self;
        self.autocommit();
        proof {
            assert(after_exchange.react_step(after_react, now));
            assert(after_react.election_step(after_election, now));
            assert(after_election.commit_step(*self));
            assert(old(self).tick_step(*self, mb0, now));
        }
    }
}

/// A request from the owning handle to its node.
enum Command<T: Committable + Copy, Q: Queriable> {
    Introduce(String),
    FetchNodes,
    AssignLeader(Option<NodeHost>),
    FetchLeader,
    AssignState(State),
    FetchState,
    Enqueue(T),
    Query(Q),
    ExitCommand,
}

/// A node's reply to its owning handle.
enum CommandResponse<Rcv: Receivable> {
    FetchedLeader(Option<NodeHost>),
    FetchedState(State),
    FetchedNodes(Vec<NodeHost>),
    Queried(Option<Rcv>),
}

/// The caller-facing handle of one cluster member.  Until `start` is
/// called it holds no engine, and every other operation is a caller error.
pub struct Node<T, Q, Rcv, L> where
    T: Committable + Copy,
    Q: Queriable,
    Rcv: Receivable,
    L: ReplicationLog<T, Q, Rcv>,
{
    contact: Option<NodeService<T, L, Q, Rcv>>,
}

impl<T, Q, Rcv, L> Node<T, Q, Rcv, L> where
    T: Committable + Copy,
    Q: Queriable,
    Rcv: Receivable,
    L: ReplicationLog<T, Q, Rcv>,
{
    /// Whether `start` has been called.
    pub closed spec fn started(&self) -> bool {
        self.contact is Some
    }

    /// The engine behind this handle.
    pub closed spec fn service(&self) -> NodeService<T, L, Q, Rcv>
        recommends
            self.started(),
    {
        match self.contact {
            Some(s) => s,
            None => vstd::pervasive::arbitrary(),
        }
    }

    /// A started node's engine is well-formed.
    pub closed spec fn inv(&self) -> bool {
        match self.contact {
            Some(s) => s.wf(),
            None => true,
        }
    }

    pub fn new() -> (node: Node<T, Q, Rcv, L>)
        ensures
            !node.started(),
            node.inv(),
    {
        Node { contact: None }
    }

    /// Brings the node to life: registers `host` on the fabric and sets the
    /// engine up as a follower with itself as the only known peer.  A node
    /// already started is left as it is.
    pub fn start<I: Intercommunication<T>>(
        &mut self,
        host: &str,
        intercommunication: &mut I,
        log: L,
        election_timeout_ms: u64,
        now_ms: u64,
    )
        requires
            old(self).inv(),
            old(intercommunication).wf(),
            log.wf(),
        ensures
            final(self).inv(),
            final(self).started(),
            final(intercommunication).wf(),
            old(self).started() ==> *final(self) == *old(self) && *final(intercommunication)
                == *old(intercommunication),
            !old(self).started() ==> {
                &&& final(intercommunication).pending() == old(intercommunication).pending()
                &&& final(intercommunication).registered() == old(intercommunication).registered().insert(host@)
                &&& final(intercommunication).mailbox(host@) == Seq::<Package<T>>::empty()
                &&& (forall|h: Seq<char>|
                    h != host@ ==> final(intercommunication).mailbox(h) == old(intercommunication).mailbox(h))
                &&& final(self).service().role() == State::Follower
                &&& final(self).service().host_name() == host@
                &&& final(self).service().hint() is None
                &&& final(self).service().peers() == seq![host@]
                &&& final(self).service().current_term() == 0
                &&& final(self).service().vote_count() == 0
                &&& !final(self).service().is_dead()
                &&& final(self).service().the_log() == log
                &&& final(self).service().timeout() == election_timeout_ms
                &&& final(self).service().last_seen() == now_ms
                &&& final(self).service().last_heartbeat() == now_ms
                &&& final(self).service().outgoing() == Seq::<Package<T>>::empty()
                &&& final(self).service().incoming() == Seq::<Package<T>>::empty()
            },
    {
        if self.contact.is_none() {
            let service = NodeService::start_service(
                host.to_owned(),
                intercommunication,
                log,
                election_timeout_ms,
                now_ms,
            );
            self.contact = Some(service);
        }
    }

    /// One turn of this node's loop; see `NodeService::tick`.
    pub fn tick<I: Intercommunication<T>>(&mut self, intercommunication: &mut I, now_ms: u64)
        requires
            old(self).inv(),
            old(self).started(),
            old(intercommunication).wf(),
        ensures
            final(self).inv(),
            final(self).started(),
            final(intercommunication).wf(),
            final(intercommunication).registered() == old(intercommunication).registered(),
            final(self).service().host_name() == old(self).service().host_name(),
            final(self).service().is_dead() == old(self).service().is_dead(),
            final(self).service().current_term() >= old(self).service().current_term(),
            old(self).service().the_log().committed() <= final(self).service().the_log().committed(),
            old(self).service().the_log().entries().len() <= final(self).service().the_log().entries().len(),
            final(self).service().the_log().entries().take(
                old(self).service().the_log().entries().len() as int,
            ) == old(self).service().the_log().entries(),
            old(self).service().is_dead() ==> *final(self) == *old(self) && *final(intercommunication) == *old(intercommunication),
            !old(self).service().is_dead() ==> old(self).service().tick_step(
                final(self).service(),
                old(intercommunication).mailbox(old(self).service().host_name()),
                now_ms,
            ),
            !old(self).service().is_dead() ==> final(intercommunication).pending() == old(intercommunication).pending() + old(self).service().outgoing(),
            !old(self).service().is_dead() ==> final(intercommunication).mailbox(
                old(self).service().host_name(),
            ) == Seq::<Package<T>>::empty(),
            forall|h: Seq<char>|
                h != old(self).service().host_name() ==> final(intercommunication).mailbox(h)
                    == old(intercommunication).mailbox(h),
    {
        match &mut self.contact {
            Some(service) => service.tick(intercommunication, now_ms),
            None => {
            },
        }
    }

    /// The role this node currently plays.
    pub fn state(&mut self) -> (r: State)
        requires
            old(self).inv(),
            old(self).started(),
        ensures
            *final(self) == *old(self),
            r == old(self).service().role(),
    {
        let response = match &mut self.contact {
            Some(service) => service.react_to_commands(Command::FetchState),
            None => unreached(),
        };
        match response {
            Some(CommandResponse::FetchedState(state)) => state,
            _ => unreached(),
        }
    }

    /// Forces the node into `state` and reports the role it then plays.
    pub fn forced_state(&mut self, state: State) -> (r: State)
        requires
            old(self).inv(),
            old(self).started(),
        ensures
            final(self).inv(),
            final(self).started(),
            r == state,
            final(self).service().role() == state,
            final(self).service().peers() == old(self).service().peers(),
            final(self).service().hint() == old(self).service().hint(),
            final(self).service().current_term() == old(self).service().current_term(),
            final(self).service().vote_count() == old(self).service().vote_count(),
            final(self).service().the_log() == old(self).service().the_log(),
            final(self).service().is_dead() == old(self).service().is_dead(),
            final(self).service().outgoing() == old(self).service().outgoing(),
            final(self).service().incoming() == old(self).service().incoming(),
            final(self).service().host_name() == old(self).service().host_name(),
            final(self).service().last_seen() == old(self).service().last_seen(),
            final(self).service().last_heartbeat() == old(self).service().last_heartbeat(),
            final(self).service().timeout() == old(self).service().timeout(),
            final(self).service().requested() == old(self).service().requested(),
    {
        let response = match &mut self.contact {
            Some(service) => service.react_to_commands(Command::AssignState(state)),
            None => unreached(),
        };
        match response {
            Some(CommandResponse::FetchedState(state)) => state,
            _ => unreached(),
        }
    }

    /// The host this node believes leads the cluster; a leader reports
    /// None, saying "ask me, I am".
    pub fn fetch_leader(&mut self) -> (r: Option<NodeHost>)
        requires
            old(self).inv(),
            old(self).started(),
        ensures
            *final(self) == *old(self),
            opt_node_view(r) == old(self).service().public_hint(),
            old(self).service().role() == State::Leader ==> r is None,
    {
        let response = match &mut self.contact {
            Some(service) => service.react_to_commands(Command::FetchLeader),
            None => unreached(),
        };
        match response {
            Some(CommandResponse::FetchedLeader(leader)) => leader,
            _ => unreached(),
        }
    }

    /// Forces the node to follow `host`: it becomes a follower, takes
    /// `host` as its leader hint, and queues an announcement to it.
    pub fn force_follow(&mut self, host: &str) -> (r: Option<NodeHost>)
        requires
            old(self).inv(),
            old(self).started(),
        ensures
            final(self).inv(),
            final(self).started(),
            final(self).service().role() == State::Follower,
            final(self).service().hint() == Some(host@),
            opt_node_view(r) == Some(host@),
            final(self).service().peers() == old(self).service().peers(),
            final(self).service().current_term() == old(self).service().current_term(),
            final(self).service().the_log() == old(self).service().the_log(),
            final(self).service().is_dead() == old(self).service().is_dead(),
            final(self).service().host_name() == old(self).service().host_name(),
            final(self).service().incoming() == old(self).service().incoming(),
            final(self).service().outgoing().len() == old(self).service().outgoing().len() + 1,
            (final(self).service().outgoing().last() matches Package::Pack(
                f,
                t,
                PackageDetails::Ack,
            ) && f@ == old(self).service().host_name() && t@ == host@),
    {
        self.forced_state(State::Follower);
        let response = match &mut self.contact {
            Some(service) => service.react_to_commands(
                Command::AssignLeader(Some(NodeHost { host: host.to_owned() })),
            ),
            None => unreached(),
        };
        match response {
            Some(CommandResponse::FetchedLeader(leader)) => leader,
            _ => unreached(),
        }
    }

    /// Introduces this node to the cluster member `host`: it becomes a
    /// follower and queues an announcement and a leader query to `host`.
    pub fn introduce(&mut self, host: &str)
        requires
            old(self).inv(),
            old(self).started(),
        ensures
            final(self).inv(),
            final(self).started(),
            final(self).service().role() == State::Follower,
            final(self).service().hint() == old(self).service().hint(),
            final(self).service().peers() == old(self).service().peers(),
            final(self).service().current_term() == old(self).service().current_term(),
            final(self).service().the_log() == old(self).service().the_log(),
            final(self).service().is_dead() == old(self).service().is_dead(),
            final(self).service().host_name() == old(self).service().host_name(),
            final(self).service().incoming() == old(self).service().incoming(),
            final(self).service().vote_count() == old(self).service().vote_count(),
            final(self).service().last_seen() == old(self).service().last_seen(),
            final(self).service().last_heartbeat() == old(self).service().last_heartbeat(),
            final(self).service().timeout() == old(self).service().timeout(),
            final(self).service().requested() == old(self).service().requested(),
            final(self).service().outgoing().len() == old(self).service().outgoing().len() + 2,
            final(self).service().outgoing().take(old(self).service().outgoing().len() as int)
                == old(self).service().outgoing(),
            (final(self).service().outgoing()[old(self).service().outgoing().len() as int]
                matches Package::Pack(f, t, PackageDetails::Ack) && f@ == old(self).service().host_name() && t@ == host@),
            (final(self).service().outgoing().last() matches Package::Pack(
                f,
                t,
                PackageDetails::LeaderQuery,
            ) && f@ == old(self).service().host_name() && t@ == host@),
    {
        self.forced_state(State::Follower);
        match &mut self.contact {
            Some(service) => {
                let _ = service.react_to_commands(Command::Introduce(host.to_owned()));
            },
            None => unreached(),
        }
    }

    /// The hosts this node believes compose the cluster.
    pub fn fetch_nodes(&mut self) -> (r: Vec<NodeHost>)
        requires
            old(self).inv(),
            old(self).started(),
        ensures
            *final(self) == *old(self),
            node_views(r@) == old(self).service().peers(),
    {
        let response = match &mut self.contact {
            Some(service) => service.react_to_commands(Command::FetchNodes),
            None => unreached(),
        };
        match response {
            Some(CommandResponse::FetchedNodes(nodes)) => nodes,
            _ => unreached(),
        }
    }

    /// Hands a command to the node.  A leader appends it to its log, queues
    /// its replication to every peer, and counts itself as the entry's
    /// first persistence witness; on any other role the command is ignored.
    pub fn enqueue(&mut self, command: T)
        requires
            old(self).inv(),
            old(self).started(),
        ensures
            final(self).inv(),
            final(self).started(),
            final(self).service().role() == old(self).service().role(),
            final(self).service().current_term() == old(self).service().current_term(),
            final(self).service().peers() == old(self).service().peers(),
            final(self).service().host_name() == old(self).service().host_name(),
            final(self).service().is_dead() == old(self).service().is_dead(),
            final(self).service().the_log().committed() == old(self).service().the_log().committed(),
            final(self).service().hint() == old(self).service().hint(),
            final(self).service().vote_count() == old(self).service().vote_count(),
            final(self).service().incoming() == old(self).service().incoming(),
            final(self).service().last_seen() == old(self).service().last_seen(),
            final(self).service().last_heartbeat() == old(self).service().last_heartbeat(),
            final(self).service().timeout() == old(self).service().timeout(),
            final(self).service().requested() == old(self).service().requested(),
            old(self).service().role() != State::Leader ==> *final(self) == *old(self),
            old(self).service().role() == State::Leader ==> (
            {
                &&& final(self).service().the_log().entries() == old(self).service().the_log().entries().push(command)
                &&& (final(self).service().the_log().witnesses(
                    old(self).service().the_log().entries().len() as int,
                ) == Set::<Seq<char>>::empty().insert(old(self).service().host_name()) || final(self).service().the_log().witnesses(
                    old(self).service().the_log().entries().len() as int,
                ) == Set::<Seq<char>>::empty())
                &&& (forall|i: int|
                    0 <= i < old(self).service().the_log().entries().len() ==> final(self).service().the_log().witnesses(i) == old(self).service().the_log().witnesses(i))
                &&& append_fanout(
                    final(self).service(),
                    final(self).service().outgoing(),
                    old(self).service().outgoing().len() as int,
                    Some(
                        (AppendLogEntry {
                            offset: old(self).service().the_log().entries().len() as usize,
                            entry: command,
                        }),
                    ),
                )
            } || (final(self).service().the_log().entries() == old(self).service().the_log().entries() && (forall|i: int|
                final(self).service().the_log().witnesses(i) == old(self).service().the_log().witnesses(i)) && final(self).service().outgoing() == old(self).service().outgoing())),
    {
        match &mut self.contact {
            Some(service) => {
                let _ = service.react_to_commands(Command::Enqueue(command));
            },
            None => unreached(),
        }
    }

    /// Forwards a read query to the node's persistence sink and hands back
    /// its answer, if one is ready.
    pub fn query(&mut self, query: Q) -> (r: Option<Rcv>)
        requires
            old(self).inv(),
            old(self).started(),
        ensures
            final(self).inv(),
            final(self).started(),
            final(self).service().role() == old(self).service().role(),
            final(self).service().current_term() == old(self).service().current_term(),
            final(self).service().peers() == old(self).service().peers(),
            final(self).service().host_name() == old(self).service().host_name(),
            final(self).service().is_dead() == old(self).service().is_dead(),
            final(self).service().outgoing() == old(self).service().outgoing(),
            final(self).service().the_log().entries() == old(self).service().the_log().entries(),
            final(self).service().the_log().committed() == old(self).service().the_log().committed(),
    {
        let response = match &mut self.contact {
            Some(service) => service.react_to_commands(Command::Query(query)),
            None => unreached(),
        };
        match response {
            Some(CommandResponse::Queried(answer)) => answer,
            _ => unreached(),
        }
    }

    /// Stops the node: later ticks do nothing, and envelopes addressed to
    /// it pile up unread at the fabric.
    pub fn stop(&mut self)
        requires
            old(self).inv(),
            old(self).started(),
        ensures
            final(self).inv(),
            final(self).started(),
            final(self).service().is_dead(),
            final(self).service().role() == old(self).service().role(),
            final(self).service().current_term() == old(self).service().current_term(),
            final(self).service().peers() == old(self).service().peers(),
            final(self).service().the_log() == old(self).service().the_log(),
    {
        match &mut self.contact {
            Some(service) => {
                let _ = service.react_to_commands(Command::ExitCommand);
            },
            None => unreached(),
        }
    }

    /// Whether `start` has been called on this handle.
    pub fn is_started(&self) -> (r: bool)
        ensures
            r == self.started(),
    {
        self.contact.is_some()
    }

    /// The engine behind this handle; calling this on a node that was
    /// never started is the caller's error.
    pub fn contact(&self) -> (r: &NodeService<T, L, Q, Rcv>)
        requires
            self.inv(),
            self.started(),
        ensures
            *r == self.service(),
    {
        match &self.contact {
            Some(service) => service,
            None => unreached(),
        }
    }
}

} // verus!
