//! The message fabric: an in-process bus that routes envelopes between
//! registered endpoints.  An endpoint buffers what it sends in an outbox;
//! submitted envelopes wait in a shared ingress queue until the router moves
//! each to the mailbox registered under its destination host; envelopes to
//! unknown hosts are dropped silently.  Queueing gives FIFO delivery per
//! (sender, receiver) pair and nothing more.

use vstd::prelude::*;

use crate::replication::Committable;

verus! {

/// One entry of the leader's replication fan-out: a log offset and the
/// command enqueued there.
pub struct AppendLogEntry<T: Committable> {
    pub offset: usize,
    pub entry: T,
}

/// The leader-to-follower replication message: the leader's committed
/// offset, the authoritative peer list, and at most one new log entry.
/// Without an entry it serves as a heartbeat.
pub struct AppendLog<T: Committable> {
    pub committed_offset: usize,
    pub node_list: Vec<String>,
    pub enqueue: Option<AppendLogEntry<T>>,
}

/// What one node says to another.
pub enum PackageDetails<T: Committable> {
    /// Announce presence: the recipient adds the sender to its peer set.
    Ack,
    /// Ask the recipient who it believes the leader is.
    LeaderQuery,
    /// The recipient's leader hint, or None when it knows of no leader or is
    /// itself the leader.
    LeaderQueryResponse(Option<String>),
    /// Replication fan-out and heartbeat.
    AppendQuery(AppendLog<T>),
    /// A follower reports durable acceptance of the entry at this offset.
    Persisted(usize),
    /// A candidate asks for a vote in this term.
    RequestVote(u64),
    /// A vote granted for this term.
    Vote(u64),
}

/// An envelope: sender host, destination host, payload.
pub enum Package<T: Committable> {
    Pack(String, String, PackageDetails<T>),
}

impl<T: Committable> Package<T> {
    /// The host the envelope is addressed to.
    pub open spec fn dest(&self) -> Seq<char> {
        match self {
            Package::Pack(_, to, _) => to@,
        }
    }

    /// The host the envelope was sent from.
    pub open spec fn source(&self) -> Seq<char> {
        match self {
            Package::Pack(from, _, _) => from@,
        }
    }
}

/// A node's attachment to the fabric: the host name it registered under, the
/// envelopes it has handed over that the fabric has not yet taken in, and
/// the envelopes delivered to it that it has not yet read.
pub struct Endpoint<T: Committable> {
    pub host: String,
    pub outbox: Vec<Package<T>>,
    pub inbox: Vec<Package<T>>,
}

impl<T: Committable> Endpoint<T> {
    /// Wraps the payload in an envelope from this endpoint's host and hands
    /// it over for routing; it waits in the outbox until the owner next
    /// exchanges messages with the fabric.  Sending never fails.
    pub fn send(&mut self, host: String, package: PackageDetails<T>)
        ensures
            final(self).host == old(self).host,
            final(self).inbox == old(self).inbox,
            final(self).outbox@ == old(self).outbox@.push(
                Package::Pack(old(self).host, host, package),
            ),
    {
        let from = self.host.clone();
        self.outbox.push(Package::Pack(from, host, package));
    }

    /// Reads the oldest envelope delivered to this endpoint, if any.
    pub fn listen(&mut self) -> (r: Option<Package<T>>)
        ensures
            final(self).host == old(self).host,
            final(self).outbox == old(self).outbox,
            old(self).inbox@.len() == 0 ==> r is None && final(self).inbox == old(self).inbox,
            old(self).inbox@.len() > 0 ==> r == Some(old(self).inbox@[0]) && final(self).inbox@
                == old(self).inbox@.drop_first(),
    {
        if self.inbox.len() == 0 {
            None
        } else {
            Some(self.inbox.remove(0))
        }
    }
}

/// The fabric seen from the routing side: a shared ingress queue of
/// submitted envelopes and one mailbox per registered host.
pub trait Intercommunication<T: Committable> {
    /// Internal well-formedness; established by `new`, preserved throughout.
    spec fn wf(&self) -> bool;

    /// The submitted envelopes the router has not routed yet, oldest first.
    spec fn pending(&self) -> Seq<Package<T>>;

    /// The hosts with a registered mailbox.
    spec fn registered(&self) -> Set<Seq<char>>;

    /// The envelopes routed to `host` and not yet fetched, oldest first.
    spec fn mailbox(&self, host: Seq<char>) -> Seq<Package<T>>;

    fn new() -> (comm: Self) where Self: Sized
        ensures
            comm.wf(),
            comm.pending() == Seq::<Package<T>>::empty(),
            comm.registered() == Set::<Seq<char>>::empty(),
            forall|h: Seq<char>| comm.mailbox(h) == Seq::<Package<T>>::empty(),
    ;

    /// Registers `host`, handing back a fresh endpoint.  Re-registration
    /// replaces the mailbox: whatever waited there is gone.
    fn register(&mut self, host: String) -> (endpoint: Endpoint<T>)
        requires
            old(self).wf(),
        ensures
            final(self).wf(),
            final(self).pending() == old(self).pending(),
            final(self).registered() == old(self).registered().insert(host@),
            final(self).mailbox(host@) == Seq::<Package<T>>::empty(),
            forall|h: Seq<char>| h != host@ ==> final(self).mailbox(h) == old(self).mailbox(h),
            endpoint.host == host,
            endpoint.outbox@ == Seq::<Package<T>>::empty(),
            endpoint.inbox@ == Seq::<Package<T>>::empty(),
    ;

    /// Router intake: takes the oldest submitted envelope, if any.
    fn receive(&mut self) -> (r: Option<Package<T>>)
        requires
            old(self).wf(),
        ensures
            final(self).wf(),
            final(self).registered() == old(self).registered(),
            forall|h: Seq<char>| final(self).mailbox(h) == old(self).mailbox(h),
            old(self).pending().len() == 0 ==> r is None && final(self).pending() == old(self).pending(),
            old(self).pending().len() > 0 ==> r == Some(old(self).pending()[0]) && final(self).pending() == old(self).pending().drop_first(),
    ;

    /// Router delivery: appends the envelope to the mailbox registered under
    /// `recipient`; if no such mailbox exists, the envelope is dropped.
    fn send(&mut self, recipient: String, package: Package<T>)
        requires
            old(self).wf(),
        ensures
            final(self).wf(),
            final(self).pending() == old(self).pending(),
            final(self).registered() == old(self).registered(),
            old(self).registered().contains(recipient@) ==> final(self).mailbox(recipient@)
                == old(self).mailbox(recipient@).push(package),
            !old(self).registered().contains(recipient@) ==> final(self).mailbox(recipient@)
                == old(self).mailbox(recipient@),
            forall|h: Seq<char>|
                h != recipient@ ==> final(self).mailbox(h) == old(self).mailbox(h),
    ;

    /// Endpoint ingress: submits an envelope for routing.
    fn submit(&mut self, package: Package<T>)
        requires
            old(self).wf(),
        ensures
            final(self).wf(),
            final(self).registered() == old(self).registered(),
            forall|h: Seq<char>| final(self).mailbox(h) == old(self).mailbox(h),
            final(self).pending() == old(self).pending().push(package),
    ;

    /// Endpoint egress: takes the oldest envelope routed to `host`, if any.
    fn fetch(&mut self, host: &String) -> (r: Option<Package<T>>)
        requires
            old(self).wf(),
        ensures
            final(self).wf(),
            final(self).pending() == old(self).pending(),
            final(self).registered() == old(self).registered(),
            forall|h: Seq<char>| h != host@ ==> final(self).mailbox(h) == old(self).mailbox(h),
            old(self).mailbox(host@).len() == 0 ==> r is None && final(self).mailbox(host@)
                == old(self).mailbox(host@),
            old(self).mailbox(host@).len() > 0 ==> r == Some(old(self).mailbox(host@)[0])
                && final(self).mailbox(host@) == old(self).mailbox(host@).drop_first(),
    ;

    /// Whether the fabric logs routed envelopes (a hook for an unverified
    /// router loop; the fabric itself never prints).
    fn is_debug(&self) -> bool;
}

/// One registered host's mailbox: envelopes routed to it, oldest first.
struct Mailbox<T: Committable> {
    host: String,
    queue: Vec<Package<T>>,
}

/// The host names of a row of mailboxes.
spec fn mailbox_hosts<T: Committable>(boxes: Seq<Mailbox<T>>) -> Seq<Seq<char>> {
    boxes.map_values(|m: Mailbox<T>| m.host@)
}

/// The queue of the first mailbox registered under `host`, or empty when
/// none is.
spec fn mailbox_of<T: Committable>(boxes: Seq<Mailbox<T>>, host: Seq<char>) -> Seq<Package<T>>
    decreases boxes.len(),
{
    if boxes.len() == 0 {
        Seq::empty()
    } else if boxes[0].host@ == host {
        boxes[0].queue@
    } else {
        mailbox_of(boxes.drop_first(), host)
    }
}

/// When `i` is the first index whose mailbox is registered under its host,
/// `mailbox_of` reads that mailbox's queue.
proof fn lemma_mailbox_of_found<T: Committable>(boxes: Seq<Mailbox<T>>, i: int)
    requires
        0 <= i < boxes.len(),
        forall|j: int| 0 <= j < i ==> boxes[j].host@ != boxes[i].host@,
    ensures
        mailbox_of(boxes, boxes[i].host@) == boxes[i].queue@,
    decreases i,
{
    if i > 0 {
        assert(boxes.drop_first()[i - 1] == boxes[i]);
        assert forall|j: int| 0 <= j < i - 1 implies (#[trigger] boxes.drop_first()[j]).host@
            != boxes.drop_first()[i - 1].host@ by {
            assert(boxes.drop_first()[j] == boxes[j + 1]);
        }
        lemma_mailbox_of_found(boxes.drop_first(), i - 1);
    }
}

/// When no mailbox is registered under `host`, `mailbox_of` reads empty.
proof fn lemma_mailbox_of_absent<T: Committable>(boxes: Seq<Mailbox<T>>, host: Seq<char>)
    requires
        forall|j: int| 0 <= j < boxes.len() ==> boxes[j].host@ != host,
    ensures
        mailbox_of(boxes, host) == Seq::<Package<T>>::empty(),
    decreases boxes.len(),
{
    if boxes.len() > 0 {
        assert forall|j: int|
            0 <= j < boxes.drop_first().len() implies (#[trigger] boxes.drop_first()[j]).host@
            != host by {
            assert(boxes.drop_first()[j] == boxes[j + 1]);
        }
        lemma_mailbox_of_absent(boxes.drop_first(), host);
    }
}

/// Replacing the first mailbox of some host changes `mailbox_of` for that
/// host alone.
proof fn lemma_mailbox_of_update<T: Committable>(boxes: Seq<Mailbox<T>>, i: int, mb: Mailbox<T>)
    requires
        0 <= i < boxes.len(),
        mb.host@ == boxes[i].host@,
        forall|j: int| 0 <= j < i ==> boxes[j].host@ != boxes[i].host@,
    ensures
        mailbox_of(boxes.update(i, mb), boxes[i].host@) == mb.queue@,
        forall|h: Seq<char>|
            h != boxes[i].host@ ==> mailbox_of(boxes.update(i, mb), h) == mailbox_of(boxes, h),
    decreases boxes.len(),
{
    let updated = boxes.update(i, mb);
    assert forall|j: int| 0 <= j < i implies (#[trigger] updated[j]).host@ != updated[i].host@
        by {}
    lemma_mailbox_of_found(updated, i);
    assert forall|h: Seq<char>| h != boxes[i].host@ implies mailbox_of(updated, h) == mailbox_of(
        boxes,
        h,
    ) by {
        lemma_mailbox_of_other(boxes, i, mb, h);
    }
}

/// Helper for `lemma_mailbox_of_update`: hosts other than the updated one
/// read the same queue.
proof fn lemma_mailbox_of_other<T: Committable>(
    boxes: Seq<Mailbox<T>>,
    i: int,
    mb: Mailbox<T>,
    h: Seq<char>,
)
    requires
        0 <= i < boxes.len(),
        mb.host@ == boxes[i].host@,
        h != boxes[i].host@,
    ensures
        mailbox_of(boxes.update(i, mb), h) == mailbox_of(boxes, h),
    decreases boxes.len(),
{
    let updated = boxes.update(i, mb);
    if i == 0 {
        assert(updated.drop_first() =~= boxes.drop_first());
    } else {
        assert(updated[0] == boxes[0]);
        if boxes[0].host@ == h {
        } else {
            assert(updated.drop_first() =~= boxes.drop_first().update(i - 1, mb));
            assert(boxes.drop_first()[i - 1] == boxes[i]);
            lemma_mailbox_of_other(boxes.drop_first(), i - 1, mb, h);
        }
    }
}

/// The reference fabric: the shared ingress queue and one mailbox per
/// registered host.
pub struct DefaultIntercommunication<T: Committable> {
    central: Vec<Package<T>>,
    mailboxes: Vec<Mailbox<T>>,
    pub is_debug: bool,
}

/// The index of the first mailbox registered under `host`, if any.
fn find_mailbox<T: Committable>(boxes: &Vec<Mailbox<T>>, host: &String) -> (r: Option<usize>)
    ensures
        r matches Some(i) ==> i < boxes@.len() && boxes@[i as int].host@ == host@ && (forall|
            j: int,
        | 0 <= j < i ==> boxes@[j].host@ != host@),
        r is None ==> forall|j: int| 0 <= j < boxes@.len() ==> boxes@[j].host@ != host@,
{
    let mut i: usize = 0;
    while i < boxes.len()
        invariant
            i <= boxes@.len(),
            forall|j: int| 0 <= j < i ==> boxes@[j].host@ != host@,
        decreases boxes@.len() - i,
    {
        if boxes[i].host.eq(host) {
            return Some(i);
        }
        i = i + 1;
    }
    None
}

impl<T: Committable> Intercommunication<T> for DefaultIntercommunication<T> {
    closed spec fn wf(&self) -> bool {
        mailbox_hosts(self.mailboxes@).no_duplicates()
    }

    closed spec fn pending(&self) -> Seq<Package<T>> {
        self.central@
    }

    closed spec fn registered(&self) -> Set<Seq<char>> {
        mailbox_hosts(self.mailboxes@).to_set()
    }

    closed spec fn mailbox(&self, host: Seq<char>) -> Seq<Package<T>> {
        mailbox_of(self.mailboxes@, host)
    }

    fn new() -> (comm: DefaultIntercommunication<T>) {
        let comm = DefaultIntercommunication {
            central: Vec::new(),
            mailboxes: Vec::new(),
            is_debug: false,
        };
        proof {
            assert(mailbox_hosts(comm.mailboxes@) =~= Seq::<Seq<char>>::empty());
            assert(mailbox_hosts(comm.mailboxes@).to_set() =~= Set::<Seq<char>>::empty());
        }
        comm
    }

    fn register(&mut self, host: String) -> (endpoint: Endpoint<T>) {
        let found = find_mailbox(&self.mailboxes, &host);
        match found {
            Some(i) => {
                let ghost oldboxes = self.mailboxes@;
                let slot = vstd::std_specs::vec::vec_index_mut(&mut self.mailboxes, i);
                slot.queue = Vec::new();
                proof {
                    let mb = self.mailboxes@[i as int];
                    lemma_mailbox_of_update(oldboxes, i as int, mb);
                    assert(mailbox_hosts(self.mailboxes@) =~= mailbox_hosts(oldboxes));
                    assert(mailbox_hosts(oldboxes)[i as int] == host@);
                    assert(mailbox_hosts(oldboxes).contains(host@));
                    assert(mailbox_hosts(oldboxes).to_set().insert(host@) =~= mailbox_hosts(
                        oldboxes,
                    ).to_set());
                }
            },
            None => {
                let ghost oldboxes = self.mailboxes@;
                let mailbox_host = host.clone();
                self.mailboxes.push(Mailbox { host: mailbox_host, queue: Vec::new() });
                proof {
                    let oldhosts = mailbox_hosts(oldboxes);
                    let newhosts = mailbox_hosts(self.mailboxes@);
                    assert(newhosts =~= oldhosts.push(host@));
                    assert forall|k: int|
                        0 <= k < oldhosts.len() implies #[trigger] oldhosts[k] != host@ by {
                        assert(oldboxes[k].host@ != host@);
                    }
                    assert(newhosts.no_duplicates());
                    assert forall|x: Seq<char>| #[trigger] newhosts.contains(x)
                        implies oldhosts.to_set().insert(host@).contains(x) by {
                        let k = choose|k: int|
                            0 <= k < newhosts.len() && newhosts[k] == x;
                        if k < oldhosts.len() {
                            assert(oldhosts[k] == x);
                            assert(oldhosts.contains(x));
                        }
                    }
                    assert forall|x: Seq<char>| #[trigger] oldhosts.contains(x)
                        implies newhosts.contains(x) by {
                        let k = choose|k: int|
                            0 <= k < oldhosts.len() && oldhosts[k] == x;
                        assert(newhosts[k] == x);
                    }
                    assert(newhosts[newhosts.len() - 1] == host@);
                    assert(newhosts.contains(host@));
                    assert(newhosts.to_set() =~= oldhosts.to_set().insert(host@));
                    lemma_mailbox_of_found(self.mailboxes@, self.mailboxes@.len() - 1);
                    assert forall|h: Seq<char>| h != host@ implies mailbox_of(
                        self.mailboxes@,
                        h,
                    ) == mailbox_of(oldboxes, h) by {
                        lemma_mailbox_of_push_other(oldboxes, self.mailboxes@[oldboxes.len() as int], h);
                    }
                }
            },
        }
        Endpoint { host, outbox: Vec::new(), inbox: Vec::new() }
    }

    fn receive(&mut self) -> (r: Option<Package<T>>) {
        if self.central.len() == 0 {
            None
        } else {
            Some(self.central.remove(0))
        }
    }

    fn send(&mut self, recipient: String, package: Package<T>) {
        let found = find_mailbox(&self.mailboxes, &recipient);
        match found {
            Some(i) => {
                let ghost oldboxes = self.mailboxes@;
                let slot = vstd::std_specs::vec::vec_index_mut(&mut self.mailboxes, i);
                slot.queue.push(package);
                proof {
                    let mb = self.mailboxes@[i as int];
                    lemma_mailbox_of_update(oldboxes, i as int, mb);
                    lemma_mailbox_of_found(oldboxes, i as int);
                    assert(mailbox_hosts(self.mailboxes@) =~= mailbox_hosts(oldboxes));
                    assert(mailbox_hosts(oldboxes)[i as int] == recipient@);
                    assert(mailbox_hosts(oldboxes).contains(recipient@));
                }
            },
            None => {
                proof {
                    let hosts = mailbox_hosts(self.mailboxes@);
                    assert forall|k: int|
                        0 <= k < hosts.len() implies #[trigger] hosts[k] != recipient@ by {
                        assert(self.mailboxes@[k].host@ != recipient@);
                    }
                    if hosts.to_set().contains(recipient@) {
                        let k = choose|k: int| 0 <= k < hosts.len() && hosts[k] == recipient@;
                    }
                }
            },
        }
    }

    fn submit(&mut self, package: Package<T>) {
        self.central.push(package);
    }

    fn fetch(&mut self, host: &String) -> (r: Option<Package<T>>) {
        let found = find_mailbox(&self.mailboxes, host);
        match found {
            Some(i) => {
                let ghost oldboxes = self.mailboxes@;
                proof {
                    lemma_mailbox_of_found(oldboxes, i as int);
                }
                let slot = vstd::std_specs::vec::vec_index_mut(&mut self.mailboxes, i);
                if slot.queue.len() == 0 {
                    proof {
                        assert(self.mailboxes@ =~= oldboxes);
                    }
                    None
                } else {
                    let package = slot.queue.remove(0);
                    proof {
                        let mb = self.mailboxes@[i as int];
                        lemma_mailbox_of_update(oldboxes, i as int, mb);
                        assert(mailbox_hosts(self.mailboxes@) =~= mailbox_hosts(oldboxes));
                    }
                    Some(package)
                }
            },
            None => {
                proof {
                    lemma_mailbox_of_absent(self.mailboxes@, host@);
                }
                None
            },
        }
    }

    fn is_debug(&self) -> (r: bool)
        ensures
            r == self.debug(),
    {
        self.is_debug
    }
}

/// Appending a mailbox for a new host leaves every other host's queue as it
/// was.
proof fn lemma_mailbox_of_push_other<T: Committable>(
    boxes: Seq<Mailbox<T>>,
    mb: Mailbox<T>,
    h: Seq<char>,
)
    requires
        h != mb.host@,
    ensures
        mailbox_of(boxes.push(mb), h) == mailbox_of(boxes, h),
    decreases boxes.len(),
{
    reveal_with_fuel(mailbox_of, 3);
    if boxes.len() == 0 {
        assert(boxes.push(mb)[0] == mb);
        assert(boxes.push(mb).drop_first() =~= Seq::<Mailbox<T>>::empty());
    } else {
        assert(boxes.push(mb)[0] == boxes[0]);
        if boxes[0].host@ == h {
        } else {
            assert(boxes.push(mb).drop_first() =~= boxes.drop_first().push(mb));
            lemma_mailbox_of_push_other(boxes.drop_first(), mb, h);
        }
    }
}

impl<T: Committable> DefaultIntercommunication<T> {
    /// Whether routed envelopes are logged by an (unverified) router loop.
    pub closed spec fn debug(&self) -> bool {
        self.is_debug
    }

    /// Routes every pending envelope to the mailbox of its destination, in
    /// submission order; envelopes addressed to unregistered hosts are
    /// dropped.  This is the work the fabric's router performs on each turn.
    #[verifier::loop_isolation(false)]
    pub fn route_pending(&mut self)
        requires
            old(self).wf(),
        ensures
            final(self).wf(),
            final(self).pending().len() == 0,
            final(self).registered() == old(self).registered(),
            forall|h: Seq<char>|
                old(self).registered().contains(h) ==> final(self).mailbox(h) == old(self).mailbox(h) + old(self).pending().filter(|p: Package<T>| p.dest() == h),
    {
        let ghost all = old(self).pending();
        let ghost routed: int = 0;
        loop
            invariant
                self.wf(),
                0 <= routed <= all.len(),
                self.pending() == all.skip(routed),
                self.registered() == old(self).registered(),
                forall|h: Seq<char>|
                    old(self).registered().contains(h) ==> self.mailbox(h) == old(self).mailbox(h)
                        + all.take(routed).filter(|p: Package<T>| p.dest() == h),
            decreases all.len() - routed,
        {
            let next = self.receive();
            match next {
                Some(package) => {
                    proof {
                        assert(all.skip(routed)[0] == all[routed]);
                        assert(all.skip(routed).drop_first() =~= all.skip(routed + 1));
                    }
                    match package {
                        Package::Pack(from, to, details) => {
                            let recipient = to.clone();
                            let ghost pre = *self;
                            self.send(recipient, Package::Pack(from, to, details));
                            proof {
                                let p = all[routed];
                                assert(all.take(routed + 1) =~= all.take(routed).push(p));
                                assert forall|h: Seq<char>| old(self).registered().contains(h)
                                    implies self.mailbox(h) == old(self).mailbox(h) + all.take(
                                    routed + 1,
                                ).filter(|q: Package<T>| q.dest() == h) by {
                                    let pred = |q: Package<T>| q.dest() == h;
                                    assert(all.take(routed).push(p) =~= all.take(routed)
                                        + seq![p]);
                                    Seq::filter_distributes_over_add(
                                        all.take(routed),
                                        seq![p],
                                        pred,
                                    );
                                    reveal_with_fuel(Seq::filter, 2);
                                    if p.dest() == h {
                                        assert(seq![p].filter(pred) =~= seq![p]);
                                        assert(self.mailbox(h) == pre.mailbox(h).push(p));
                                        assert(pre.mailbox(h) + seq![p].filter(pred)
                                            =~= pre.mailbox(h).push(p));
                                    } else {
                                        assert(seq![p].filter(pred) =~= Seq::<
                                            Package<T>,
                                        >::empty());
                                        assert(pre.mailbox(h) + seq![p].filter(pred)
                                            =~= pre.mailbox(h));
                                    }
                                    assert((old(self).mailbox(h) + all.take(routed).filter(pred))
                                        + seq![p].filter(pred) =~= old(self).mailbox(h) + (
                                    all.take(routed).filter(pred) + seq![p].filter(pred)));
                                }
                                routed = routed + 1;
                            }
                        },
                    }
                },
                None => {
                    proof {
                        assert(all.skip(routed) =~= Seq::<Package<T>>::empty());
                        assert(routed == all.len());
                    }
                    break ;
                },
            }
        }
        proof {
            assert forall|h: Seq<char>| old(self).registered().contains(h) implies self.mailbox(h)
                == old(self).mailbox(h) + all.filter(|p: Package<T>| p.dest() == h) by {
            assert(all.take(all.len() as int) =~= all);
            }
        }
    }
}

} // verus!
