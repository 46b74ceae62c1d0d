//! Calls that a host makes on its observers outside the hooks.
use crate::entry::Entry;
use crate::messages::CmdBatch;
use crate::observer::{BoxCmdObserver, Coprocessor, Seat};
use vstd::prelude::*;

verus! {

/// A call on an observer.
pub enum Call {
    /// The observer was started.
    Started(Seat),
    /// The observer was stopped.
    Stopped(Seat),
    /// The observer was told of the executed commands.
    Executed(Seat, Seq<CmdBatch>),
}

/// The calls that were made through the journal, in their order.
///
/// It is kept for proofs alone and takes no room. Only the methods that make
/// the calls write in it, one line for each call. It says nothing of calls that
/// are made past it: those it does not rule out.
pub struct Journal {
    calls: Ghost<Seq<Call>>,
}

impl View for Journal {
    type V = Seq<Call>;

    closed spec fn view(&self) -> Seq<Call> {
        self.calls@
    }
}

/// A stop for each observer of the entries, in the order in which they stand.
pub open spec fn stops<T: Coprocessor>(entries: Seq<Entry<T>>) -> Seq<Call> {
    Seq::new(entries.len(), |i: int| Call::Stopped(entries[i].observer.seat()))
}

/// The batch for each observer of the entries, in the order in which they
/// stand.
pub open spec fn executions(entries: Seq<Entry<BoxCmdObserver>>, batch: Seq<CmdBatch>) -> Seq<
    Call,
> {
    Seq::new(entries.len(), |i: int| Call::Executed(entries[i].observer.seat(), batch))
}

/// All observers of the entries have been stopped.
pub open spec fn all_stopped<T: Coprocessor>(entries: Seq<Entry<T>>) -> bool {
    forall|i: int| 0 <= i < entries.len() ==> (#[trigger] entries[i]).observer.stopped()
}

/// All observers of the entries have been told of the executed commands.
pub open spec fn all_executed(entries: Seq<Entry<BoxCmdObserver>>, batch: Seq<CmdBatch>) -> bool {
    forall|i: int|
        0 <= i < entries.len() ==> (#[trigger] entries[i]).observer.inner.batch_executed(batch)
}

impl Journal {
    /// A journal of no calls.
    pub fn new() -> (journal: Journal)
        ensures
            journal@ == Seq::<Call>::empty(),
    {
        Journal { calls: Ghost(Seq::empty()) }
    }

    /// Starts one observer.
    pub fn start<T: Coprocessor>(&mut self, observer: &T)
        ensures
            observer.started(),
            final(self)@ == old(self)@.push(Call::Started(observer.seat())),
    {
        observer.start();
        self.calls = Ghost(self.calls@.push(Call::Started(observer.seat())));
    }

    /// Stops one observer.
    fn stop<T: Coprocessor>(&mut self, observer: &T)
        ensures
            observer.stopped(),
            final(self)@ == old(self)@.push(Call::Stopped(observer.seat())),
    {
        observer.stop();
        self.calls = Ghost(self.calls@.push(Call::Stopped(observer.seat())));
    }

    /// Tells one observer of executed commands.
    fn execute(&mut self, observer: &BoxCmdObserver, batch: &[CmdBatch])
        ensures
            observer.inner.batch_executed(batch@),
            final(self)@ == old(self)@.push(Call::Executed(observer.seat(), batch@)),
    {
        observer.inner.on_batch_executed(batch);
        self.calls = Ghost(self.calls@.push(Call::Executed(observer.seat(), batch@)));
    }

    /// Stops the observers of the entries, one after the other.
    pub fn stop_all<T: Coprocessor>(&mut self, entries: &Vec<Entry<T>>)
        ensures
            all_stopped(entries@),
            final(self)@ == old(self)@ + stops(entries@),
    {
        let mut i: usize = 0;
        while i < entries.len()
            invariant
                i <= entries.len(),
                all_stopped(entries@.take(i as int)),
                self@ == old(self)@ + stops(entries@.take(i as int)),
            decreases entries.len() - i,
        {
            let ghost before = entries@.take(i as int);
            self.stop(&entries[i].observer);
            i = i + 1;
            proof {
                let after = entries@.take(i as int);
                assert(after == before.push(entries@[i - 1]));
                assert forall|k: int| 0 <= k < after.len() implies (
                #[trigger] after[k]).observer.stopped() by {
                    if k < before.len() {
                        assert(before[k].observer.stopped());
                    }
                }
                assert(stops(after) == stops(before).push(
                    Call::Stopped(entries@[i - 1].observer.seat()),
                ));
            }
        }
        assert(entries@.take(i as int) == entries@);
    }

    /// Tells the observers of the entries of executed commands, one after the
    /// other.
    pub fn execute_all(&mut self, entries: &Vec<Entry<BoxCmdObserver>>, batch: &[CmdBatch])
        ensures
            all_executed(entries@, batch@),
            final(self)@ == old(self)@ + executions(entries@, batch@),
    {
        let mut i: usize = 0;
        while i < entries.len()
            invariant
                i <= entries.len(),
                all_executed(entries@.take(i as int), batch@),
                self@ == old(self)@ + executions(entries@.take(i as int), batch@),
            decreases entries.len() - i,
        {
            let ghost before = entries@.take(i as int);
            self.execute(&entries[i].observer, batch);
            i = i + 1;
            proof {
                let after = entries@.take(i as int);
                assert(after == before.push(entries@[i - 1]));
                assert forall|k: int| 0 <= k < after.len() implies (
                #[trigger] after[k]).observer.inner.batch_executed(batch@) by {
                    if k < before.len() {
                        assert(before[k].observer.inner.batch_executed(batch@));
                    }
                }
                assert(executions(after, batch@) == executions(before, batch@).push(
                    Call::Executed(entries@[i - 1].observer.seat(), batch@),
                ));
            }
        }
        assert(entries@.take(i as int) == entries@);
    }
}

} // verus!
