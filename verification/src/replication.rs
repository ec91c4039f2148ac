//! The replicated log: an ordered sequence of commands, per-entry
//! persistence-witness sets, and a non-decreasing committed offset.  Entries
//! below the committed offset have been applied, in order, to a persistence
//! sink.  The reference sink is an accumulator that publishes its running
//! value after each applied command.

use vstd::prelude::*;

verus! {

/// A command that can be stored in a replicated log and applied to a
/// persistence sink.
pub trait Committable {

}

/// A value a persistence sink can hand back in answer to a read query.
pub trait Receivable {

}

/// A read query addressed to a persistence sink.
pub trait Queriable {

}

/// Why a log or sink operation failed.  The in-memory reference
/// implementation never fails; a durable implementation would report its
/// faults through this type.
#[derive(Debug, PartialEq, Eq, Structural, Clone, Copy)]
pub enum ReplicationError {
    PersistenceFailed,
}

/// A sink that receives committed log entries, in commit order.
pub trait LogPersistence<T: Committable> {
    fn commit(&mut self, entry: T) -> Result<(), ReplicationError>;
}

/// A command of the reference sink: set the accumulator, or add to it
/// (wrapping on overflow).
#[derive(Debug, PartialEq, Eq, Structural, Clone, Copy)]
pub enum DefaultCommand {
    TestSet(i64),
    TestAdd(i64),
}

/// The payload type the reference log replicates.
#[derive(Debug, PartialEq, Eq, Structural, Clone, Copy)]
pub struct DefaultCommandContainer {
    pub command: DefaultCommand,
}

impl Committable for DefaultCommandContainer {

}

/// The reference sink's answer to a read query: one published accumulator
/// value.
#[derive(Debug, PartialEq, Eq, Structural, Clone, Copy)]
pub enum DefaultReceivable {
    ReceivableInt(i64),
}

impl Receivable for DefaultReceivable {

}

/// The reference read query: hand out the oldest published value.
pub struct DefaultQuery;

impl Queriable for DefaultQuery {

}

/// The accumulator value after applying one command.
pub open spec fn apply_command(value: i64, command: DefaultCommand) -> i64 {
    match command {
        DefaultCommand::TestSet(x) => x,
        DefaultCommand::TestAdd(dx) => vstd::wrapping::i64_specs::wrapping_add(value, dx),
    }
}

/// The accumulator value after applying a sequence of commands in order.
pub open spec fn apply_commands(value: i64, entries: Seq<DefaultCommandContainer>) -> i64
    decreases entries.len(),
{
    if entries.len() == 0 {
        value
    } else {
        apply_commands(apply_command(value, entries[0].command), entries.drop_first())
    }
}

/// The values the sink publishes while applying a sequence of commands in
/// order: the accumulator value after each command.
pub open spec fn published_trace(value: i64, entries: Seq<DefaultCommandContainer>) -> Seq<i64>
    decreases entries.len(),
{
    if entries.len() == 0 {
        Seq::empty()
    } else {
        let next = apply_command(value, entries[0].command);
        seq![next] + published_trace(next, entries.drop_first())
    }
}

/// Applying one more command after a sequence applies it to the sequence's
/// final value.
pub proof fn lemma_apply_commands_push(
    value: i64,
    entries: Seq<DefaultCommandContainer>,
    entry: DefaultCommandContainer,
)
    ensures
        apply_commands(value, entries.push(entry)) == apply_command(
            apply_commands(value, entries),
            entry.command,
        ),
    decreases entries.len(),
{
    reveal_with_fuel(apply_commands, 2);
    if entries.len() == 0 {
        assert(entries.push(entry).drop_first() =~= Seq::<DefaultCommandContainer>::empty());
        assert(entries.push(entry)[0] == entry);
    } else {
        assert(entries.push(entry).drop_first() =~= entries.drop_first().push(entry));
        assert(entries.push(entry)[0] == entries[0]);
        lemma_apply_commands_push(
            apply_command(value, entries[0].command),
            entries.drop_first(),
            entry,
        );
    }
}

/// The publication trace of a sequence extended by one command is the trace
/// of the sequence, then the value reached after the new command.
pub proof fn lemma_published_trace_push(
    value: i64,
    entries: Seq<DefaultCommandContainer>,
    entry: DefaultCommandContainer,
)
    ensures
        published_trace(value, entries.push(entry)) == published_trace(value, entries).push(
            apply_command(apply_commands(value, entries), entry.command),
        ),
    decreases entries.len(),
{
    reveal_with_fuel(published_trace, 2);
    reveal_with_fuel(apply_commands, 2);
    if entries.len() == 0 {
        assert(entries.push(entry).drop_first() =~= Seq::<DefaultCommandContainer>::empty());
        assert(entries.push(entry)[0] == entry);
        assert(published_trace(value, entries.push(entry)) =~= published_trace(
            value,
            entries,
        ).push(apply_command(apply_commands(value, entries), entry.command)));
    } else {
        assert(entries.push(entry).drop_first() =~= entries.drop_first().push(entry));
        assert(entries.push(entry)[0] == entries[0]);
        let next = apply_command(value, entries[0].command);
        lemma_published_trace_push(next, entries.drop_first(), entry);
        lemma_apply_commands_push(next, entries.drop_first(), entry);
        assert(published_trace(value, entries.push(entry)) =~= published_trace(
            value,
            entries,
        ).push(apply_command(apply_commands(value, entries), entry.command)));
    }
}

/// The views of a list of host names.
pub open spec fn host_views(list: Seq<String>) -> Seq<Seq<char>> {
    list.map_values(|s: String| s@)
}

/// The offset reached when moving from `committed` toward `requested`: it
/// never retreats and never passes `len`.
pub open spec fn clamped_target(committed: nat, requested: nat, len: nat) -> nat {
    let capped: nat = if requested <= len {
        requested
    } else {
        len
    };
    if capped <= committed {
        committed
    } else {
        capped
    }
}

/// The reference persistence sink: an accumulator over `DefaultCommand`s.
/// After each applied command the running value is published onto a queue,
/// where it waits until a query consumes it.
pub struct DefaultPersistence {
    value: i64,
    pending: Vec<i64>,
}

impl DefaultPersistence {
    /// The accumulator value after every command applied so far.
    pub closed spec fn state(&self) -> i64 {
        self.value
    }

    /// The published values not yet consumed by a query, oldest first.
    pub closed spec fn outputs(&self) -> Seq<i64> {
        self.pending@
    }

    pub fn start() -> (sink: DefaultPersistence)
        ensures
            sink.state() == 0,
            sink.outputs() == Seq::<i64>::empty(),
    {
        DefaultPersistence { value: 0, pending: Vec::new() }
    }

    /// Hands out the oldest published value, if one is waiting.
    pub fn recv(&mut self) -> (r: Option<i64>)
        ensures
            final(self).state() == old(self).state(),
            old(self).outputs().len() == 0 ==> r is None && *final(self) == *old(self),
            old(self).outputs().len() > 0 ==> r == Some(old(self).outputs()[0])
                && final(self).outputs() == old(self).outputs().drop_first(),
    {
        if self.pending.len() == 0 {
            None
        } else {
            Some(self.pending.remove(0))
        }
    }
}

impl LogPersistence<DefaultCommandContainer> for DefaultPersistence {
    fn commit(&mut self, entry: DefaultCommandContainer) -> (r: Result<(), ReplicationError>)
        ensures
            r is Ok,
            final(self).state() == apply_command(old(self).state(), entry.command),
            final(self).outputs() == old(self).outputs().push(final(self).state()),
    {
        match entry.command {
            DefaultCommand::TestSet(x) => {
                self.value = x;
            },
            DefaultCommand::TestAdd(dx) => {
                self.value = self.value.wrapping_add(dx);
            },
        }
        self.pending.push(self.value);
        Ok(())
    }
}

/// An ordered log of commands with per-entry persistence-witness sets and a
/// non-decreasing committed offset.  Witness sets hold the hosts that have
/// reported durable acceptance of an entry; an entry may only be committed
/// once enough witnesses stand behind it (`autocommit_if_safe`), or on the
/// word of a leader (`commit_upto`).
pub trait ReplicationLog<T: Committable, Q: Queriable, R: Receivable> {
    /// The commands enqueued so far, oldest first.
    spec fn entries(&self) -> Seq<T>;

    /// How many entries have been committed, that is applied to the
    /// persistence sink.
    spec fn committed(&self) -> nat;

    /// The hosts that have reported persistence of the entry at `offset`.
    spec fn witnesses(&self, offset: int) -> Set<Seq<char>>;

    /// Internal well-formedness; established by `new`, preserved throughout.
    spec fn wf(&self) -> bool;

    fn new() -> (log: Self) where Self: Sized
        ensures
            log.wf(),
            log.entries() == Seq::<T>::empty(),
            log.committed() == 0,
    ;

    fn len(&self) -> (n: usize)
        requires
            self.wf(),
        ensures
            n == self.entries().len(),
    ;

    fn committed_offset(&self) -> (c: usize)
        requires
            self.wf(),
        ensures
            c == self.committed(),
    ;

    /// Advances the committed offset toward `new_committed_offset`, never
    /// past the end of the log and never backward, applying each newly
    /// committed entry to the persistence sink in order.
    fn commit_upto(&mut self, new_committed_offset: usize) -> (r: Result<(), ReplicationError>)
        requires
            old(self).wf(),
        ensures
            final(self).wf(),
            final(self).entries() == old(self).entries(),
            forall|i: int| final(self).witnesses(i) == old(self).witnesses(i),
            old(self).committed() <= final(self).committed(),
            final(self).committed() <= clamped_target(
                old(self).committed(),
                new_committed_offset as nat,
                old(self).entries().len(),
            ),
            r is Ok ==> final(self).committed() == clamped_target(
                old(self).committed(),
                new_committed_offset as nat,
                old(self).entries().len(),
            ),
    ;

    /// Truncates uncommitted tail entries until the log is no longer than
    /// `new_len`; entries below the committed offset are never dropped.
    fn discard_downto(&mut self, new_len: usize) -> (r: Result<(), ReplicationError>)
        requires
            old(self).wf(),
        ensures
            final(self).wf(),
            final(self).committed() == old(self).committed(),
            final(self).entries() == old(self).entries().take(
                clamped_target(
                    old(self).committed(),
                    new_len as nat,
                    old(self).entries().len(),
                ) as int,
            ),
            forall|i: int|
                0 <= i < final(self).entries().len() ==> final(self).witnesses(i) == old(self).witnesses(i),
    ;

    /// Advances the committed offset by at most one: exactly when the entry
    /// at the committed offset has at least `majority_size` persistence
    /// witnesses, that entry is committed.
    fn autocommit_if_safe(&mut self, majority_size: usize)
        requires
            old(self).wf(),
        ensures
            final(self).wf(),
            final(self).entries() == old(self).entries(),
            forall|i: int| final(self).witnesses(i) == old(self).witnesses(i),
            old(self).committed() <= final(self).committed() <= old(self).committed() + 1,
            final(self).committed() > old(self).committed() ==> old(self).committed() < old(self).entries().len() && old(self).witnesses(old(self).committed() as int).len()
                >= majority_size,
    ;

    /// Appends an entry, giving it an empty witness set, and returns its
    /// offset.
    fn enqueue(&mut self, entry: T) -> (r: Result<usize, ReplicationError>)
        requires
            old(self).wf(),
        ensures
            final(self).wf(),
            final(self).committed() == old(self).committed(),
            r matches Ok(offset) ==> offset as int == old(self).entries().len() && final(self).entries() == old(self).entries().push(entry) && final(self).witnesses(
                offset as int,
            ) == Set::<Seq<char>>::empty() && (forall|i: int|
                0 <= i < old(self).entries().len() ==> final(self).witnesses(i) == old(self).witnesses(i)),
            r is Err ==> final(self).entries() == old(self).entries() && (forall|i: int|
                final(self).witnesses(i) == old(self).witnesses(i)),
    ;

    /// Records `node` as a persistence witness for the entry at `offset`;
    /// a host already recorded is not recorded twice.
    fn persisted(&mut self, offset: usize, node: String) -> (r: Result<usize, ReplicationError>)
        requires
            old(self).wf(),
            offset < old(self).entries().len(),
        ensures
            final(self).wf(),
            final(self).entries() == old(self).entries(),
            final(self).committed() == old(self).committed(),
            r is Ok ==> r == Ok::<usize, ReplicationError>(offset) && final(self).witnesses(
                offset as int,
            ) == old(self).witnesses(offset as int).insert(node@) && (forall|i: int|
                i != offset ==> final(self).witnesses(i) == old(self).witnesses(i)),
            r is Err ==> forall|i: int| final(self).witnesses(i) == old(self).witnesses(i),
    ;

    /// Forwards a read query to the persistence sink; the log itself is not
    /// touched.
    fn query_persistance(&mut self, query: Q) -> (r: Option<R>)
        requires
            old(self).wf(),
        ensures
            final(self).wf(),
            final(self).entries() == old(self).entries(),
            final(self).committed() == old(self).committed(),
            forall|i: int| final(self).witnesses(i) == old(self).witnesses(i),
    ;
}

/// The persistence witnesses of one log entry: a duplicate-free list of
/// host names.
struct DefaultPersistedBy {
    node_list: Vec<String>,
}

/// The in-memory reference log: commands and witness lists in vectors, the
/// committed offset, and the reference sink the committed prefix is applied
/// to.
pub struct DefaultReplicationLog {
    log: Vec<DefaultCommandContainer>,
    persisted_by: Vec<DefaultPersistedBy>,
    offset: usize,
    pub persistence: DefaultPersistence,
}

/// Whether `list@` holds a host whose view equals `host@`.
#[verifier::loop_isolation(false)]
fn contains_host(list: &Vec<String>, host: &String) -> (r: bool)
    ensures
        r == host_views(list@).contains(host@),
{
    let mut i: usize = 0;
    while i < list.len()
        invariant
            i <= list@.len(),
            forall|j: int| 0 <= j < i ==> list@[j]@ != host@,
        decreases list@.len() - i,
    {
        if list[i].eq(host) {
            proof {
                assert(host_views(list@)[i as int] == list@[i as int]@);
                assert(host_views(list@).contains(host@));
            }
            return true;
        }
        i = i + 1;
    }
    assert forall|j: int| 0 <= j < host_views(list@).len() implies host_views(list@)[j] != host@ by {
        assert(host_views(list@)[j] == list@[j]@);
    }
    false
}

impl DefaultReplicationLog {
    /// The persistence sink this log applies committed entries to.
    pub closed spec fn sink(&self) -> DefaultPersistence {
        self.persistence
    }

    /// Whether the entry at `offset` has at least `majority_size`
    /// persistence witnesses, so that it may be committed.
    pub fn safe_to_commit(&self, offset: usize, majority_size: usize) -> (r: bool)
        requires
            self.wf(),
        ensures
            r == (offset < self.entries().len() && self.witnesses(offset as int).len()
                >= majority_size),
    {
        if self.persisted_by.len() > offset {
            let count = self.persisted_by[offset].node_list.len();
            proof {
                host_views(self.persisted_by@[offset as int].node_list@).unique_seq_to_set();
            }
            count >= majority_size
        } else {
            false
        }
    }
}

impl ReplicationLog<DefaultCommandContainer, DefaultQuery, DefaultReceivable> for DefaultReplicationLog {
    closed spec fn entries(&self) -> Seq<DefaultCommandContainer> {
        self.log@
    }

    closed spec fn committed(&self) -> nat {
        self.offset as nat
    }

    closed spec fn witnesses(&self, offset: int) -> Set<Seq<char>> {
        if 0 <= offset < self.persisted_by@.len() {
            host_views(self.persisted_by@[offset].node_list@).to_set()
        } else {
            Set::empty()
        }
    }

    closed spec fn wf(&self) -> bool {
        &&& self.offset <= self.log@.len()
        &&& self.persisted_by@.len() == self.log@.len()
        &&& forall|i: int|
            0 <= i < self.persisted_by@.len() ==> host_views(
                #[trigger] self.persisted_by@[i].node_list@,
            ).no_duplicates()
        &&& self.persistence.state() == apply_commands(0, self.log@.take(self.offset as int))
    }

    fn new() -> (log: DefaultReplicationLog)
        ensures
            log.sink().state() == 0,
            log.sink().outputs() == Seq::<i64>::empty(),
    {
        let log = DefaultReplicationLog {
            log: Vec::new(),
            persisted_by: Vec::new(),
            offset: 0,
            persistence: DefaultPersistence::start(),
        };
        proof {
            assert(log.log@.take(0) =~= Seq::<DefaultCommandContainer>::empty());
        }
        log
    }

    fn len(&self) -> (n: usize) {
        self.log.len()
    }

    fn committed_offset(&self) -> (c: usize) {
        self.offset
    }

    #[verifier::loop_isolation(false)]
    fn commit_upto(&mut self, new_committed_offset: usize) -> (r: Result<(), ReplicationError>)
        ensures
            r is Ok,
            final(self).sink().state() == apply_commands(
                old(self).sink().state(),
                old(self).entries().subrange(
                    old(self).committed() as int,
                    final(self).committed() as int,
                ),
            ),
            final(self).sink().outputs() == old(self).sink().outputs()
                + published_trace(
                old(self).sink().state(),
                old(self).entries().subrange(
                    old(self).committed() as int,
                    final(self).committed() as int,
                ),
            ),
    {
        let ghost start = old(self).offset as int;
        let ghost startstate = old(self).sink().state();
        while self.offset < new_committed_offset && self.offset < self.log.len()
            invariant
                self.wf(),
                old(self).offset <= self.offset,
                self.offset as nat <= clamped_target(
                    old(self).offset as nat,
                    new_committed_offset as nat,
                    old(self).log@.len(),
                ),
                self.log@ == old(self).log@,
                self.persisted_by@ == old(self).persisted_by@,
                self.persistence.state() == apply_commands(
                    startstate,
                    self.log@.subrange(start, self.offset as int),
                ),
                self.persistence.outputs() == old(self).sink().outputs() + published_trace(
                    startstate,
                    self.log@.subrange(start, self.offset as int),
                ),
            decreases self.log@.len() - self.offset,
        {
            let entry = self.log[self.offset];
            let ghost before = self.log@.subrange(start, self.offset as int);
            let res = self.persistence.commit(entry);
            match res {
                Ok(_) => {},
                Err(e) => {
                    return Err(e);
                },
            }
            proof {
                assert(self.log@.subrange(start, self.offset + 1) =~= before.push(entry));
                lemma_apply_commands_push(startstate, before, entry);
                lemma_published_trace_push(startstate, before, entry);
                assert(self.log@.take(self.offset as int).push(entry) =~= self.log@.take(
                    self.offset + 1,
                ));
                lemma_apply_commands_push(
                    0,
                    self.log@.take(self.offset as int),
                    entry,
                );
            }
            self.offset = self.offset + 1;
        }
        proof {
            assert(self.offset as nat == clamped_target(
                old(self).offset as nat,
                new_committed_offset as nat,
                old(self).log@.len(),
            ));
        }
        Ok(())
    }

    #[verifier::loop_isolation(false)]
    fn discard_downto(&mut self, new_len: usize) -> (r: Result<(), ReplicationError>)
        ensures
            r is Ok,
            final(self).sink() == old(self).sink(),
    {
        while self.log.len() > new_len && self.log.len() > self.offset
            invariant
                self.wf(),
                self.offset == old(self).offset,
                self.persistence == old(self).persistence,
                self.log@.len() <= old(self).log@.len(),
                self.log@.len() >= clamped_target(
                    old(self).offset as nat,
                    new_len as nat,
                    old(self).log@.len(),
                ),
                self.log@ == old(self).log@.take(self.log@.len() as int),
                self.persisted_by@ == old(self).persisted_by@.take(self.log@.len() as int),
            decreases self.log@.len(),
        {
            let ghost sh = self.log@.len() - 1;
            self.log.pop();
            self.persisted_by.pop();
            proof {
                assert(self.log@ =~= old(self).log@.take(sh));
                assert(self.persisted_by@ =~= old(self).persisted_by@.take(sh));
                assert(self.log@.take(self.offset as int) =~= old(self).log@.take(
                    self.offset as int,
                ));
            }
        }
        proof {
            assert(self.log@ =~= old(self).log@.take(
                clamped_target(
                    old(self).offset as nat,
                    new_len as nat,
                    old(self).log@.len(),
                ) as int,
            ));
        }
        Ok(())
    }

    fn autocommit_if_safe(&mut self, majority_size: usize)
        ensures
            (final(self).committed() == old(self).committed() + 1) <==> (old(self).committed()
                < old(self).entries().len() && old(self).witnesses(
                old(self).committed() as int,
            ).len() >= majority_size),
            final(self).committed() > old(self).committed() ==> final(self).sink().state() == apply_command(
                old(self).sink().state(),
                old(self).entries()[old(self).committed() as int].command,
            ) && final(self).sink().outputs() == old(self).sink().outputs().push(
                final(self).sink().state(),
            ),
            final(self).committed() == old(self).committed() ==> final(self).sink() == old(self).sink(),
    {
        let target_offset = self.committed_offset();
        let total = self.len();
        let safe = self.safe_to_commit(target_offset, majority_size);

        if safe {
            assert(target_offset < total);
            let ghost pre = *self;
            let _ = self.commit_upto(target_offset + 1);
            proof {
                assert(pre.log@.subrange(target_offset as int, target_offset + 1) =~= Seq::<
                    DefaultCommandContainer,
                >::empty().push(pre.log@[target_offset as int]));
                reveal_with_fuel(apply_commands, 2);
                reveal_with_fuel(published_trace, 2);
                assert(self.persistence.outputs() =~= pre.persistence.outputs().push(
                    self.persistence.state(),
                ));
            }
        }
    }

    fn enqueue(&mut self, entry: DefaultCommandContainer) -> (r: Result<usize, ReplicationError>)
        ensures
            r is Ok,
            final(self).sink() == old(self).sink(),
    {
        let off = self.log.len();
        self.log.push(entry);
        self.persisted_by.push(DefaultPersistedBy { node_list: Vec::new() });
        proof {
            assert(host_views(Seq::<String>::empty()) =~= Seq::<Seq<char>>::empty());
            assert(host_views(Seq::<String>::empty()).to_set() =~= Set::<Seq<char>>::empty());
            assert(self.log@.take(self.offset as int) =~= old(self).log@.take(self.offset as int));
        }
        Ok(off)
    }

    fn persisted(&mut self, offset: usize, node: String) -> (r: Result<usize, ReplicationError>)
        ensures
            r is Ok,
            final(self).sink() == old(self).sink(),
    {
        let ghost nodeview = node@;
        let already = contains_host(&self.persisted_by[offset].node_list, &node);
        if !already {
            let ghost oldviews = host_views(self.persisted_by@[offset as int].node_list@);
            let slot = vstd::std_specs::vec::vec_index_mut(&mut self.persisted_by, offset);
            slot.node_list.push(node);
            proof {
                let newviews = host_views(self.persisted_by@[offset as int].node_list@);
                assert(newviews =~= oldviews.push(nodeview));
                assert forall|x: Seq<char>| #[trigger] newviews.contains(x)
                    implies oldviews.to_set().insert(nodeview).contains(x) by {
                    let k = choose|k: int| 0 <= k < newviews.len() && newviews[k] == x;
                    if k < oldviews.len() {
                        assert(oldviews[k] == x);
                        assert(oldviews.contains(x));
                    }
                }
                assert forall|x: Seq<char>| #[trigger] oldviews.contains(x)
                    implies newviews.contains(x) by {
                    let k = choose|k: int| 0 <= k < oldviews.len() && oldviews[k] == x;
                    assert(newviews[k] == x);
                }
                assert(newviews[newviews.len() - 1] == nodeview);
                assert(newviews.contains(nodeview));
                assert(newviews.to_set() =~= oldviews.to_set().insert(nodeview));
                assert forall|k: int| 0 <= k < oldviews.len() implies oldviews[k] != nodeview by {
                    if oldviews[k] == nodeview {
                        assert(oldviews.contains(nodeview));
                    }
                }
                assert(newviews.no_duplicates());
                assert(self.log@.take(self.offset as int) == old(self).log@.take(
                    self.offset as int,
                ));
            }
        } else {
            proof {
                let views = host_views(self.persisted_by@[offset as int].node_list@);
                assert(views.to_set().contains(nodeview));
                assert(views.to_set() =~= views.to_set().insert(nodeview));
            }
        }
        Ok(offset)
    }

    fn query_persistance(&mut self, query: DefaultQuery) -> (r: Option<DefaultReceivable>)
        ensures
            old(self).sink().outputs().len() == 0 ==> r is None && final(self).sink()
                == old(self).sink(),
            old(self).sink().outputs().len() > 0 ==> r == Some(
                DefaultReceivable::ReceivableInt(old(self).sink().outputs()[0]),
            ) && final(self).sink().outputs() == old(self).sink().outputs().drop_first()
                && final(self).sink().state() == old(self).sink().state(),
    {
        match self.persistence.recv() {
            Some(value) => Some(DefaultReceivable::ReceivableInt(value)),
            None => None,
        }
    }
}

/// What a log has applied is exactly its committed prefix: the sink's
/// accumulator equals the result of applying, in order, the entries below
/// the committed offset to the initial accumulator value.
pub proof fn lemma_sink_reflects_committed_prefix(log: DefaultReplicationLog)
    requires
        log.wf(),
    ensures
        log.sink().state() == apply_commands(0, log.entries().take(log.committed() as int)),
{
}

/// Log-prefix agreement: two well-formed logs whose shared entries are
/// identical agree on every entry below both committed offsets, and when
/// both have committed equally much, their sinks hold the same accumulator
/// value.
pub proof fn lemma_committed_prefix_agreement(a: DefaultReplicationLog, b: DefaultReplicationLog)
    requires
        a.wf(),
        b.wf(),
        forall|i: int|
            0 <= i < a.entries().len() && i < b.entries().len() ==> a.entries()[i]
                == b.entries()[i],
    ensures
        forall|i: int|
            0 <= i < a.committed() && i < b.committed() ==> a.entries()[i] == b.entries()[i],
        a.committed() == b.committed() ==> a.sink().state() == b.sink().state(),
{
    assert forall|j: int| 0 <= j < a.offset && j < b.offset implies a.log@[j] == b.log@[j] by {
        assert(a.entries()[j] == b.entries()[j]);
    }
    if a.committed() == b.committed() {
        assert(a.log@.take(a.offset as int) =~= b.log@.take(b.offset as int));
    }
}

} // verus!
