//! Where the registered observers of one kind sit.
use crate::dispatch::{dispatch, dispatched, traced, try_dispatch, unfailing, Moment, Trace};
use crate::entry::{enlist, enlisted, ordered, Entry};
use crate::hook::Hook;
use crate::journal::{all_executed, all_stopped, executions, stops, Journal};
use crate::messages::CmdBatch;
use crate::observer::{BoxCmdObserver, Coprocessor, Error, ObserverContext};
use vstd::prelude::*;

verus! {

/// The registered observers of one kind, in the order in which they are run.
///
/// Whoever holds a bench can take a hook through its observers, stop them or tell
/// them of executed commands, all of them and in order. It hands none of them
/// out.
pub struct Bench<T> {
    entries: Vec<Entry<T>>,
}

impl<T> View for Bench<T> {
    type V = Seq<Entry<T>>;

    closed spec fn view(&self) -> Seq<Entry<T>> {
        self.entries@
    }
}

impl<T> Bench<T> {
    /// A bench of no observers.
    pub fn new() -> (bench: Bench<T>)
        ensures
            bench@ == Seq::<Entry<T>>::empty(),
    {
        Bench { entries: Vec::new() }
    }

    /// Puts an observer in its place.
    pub fn enlist(&mut self, priority: u32, observer: T)
        requires
            ordered(old(self)@),
        ensures
            final(self)@ == enlisted(old(self)@, Entry { priority, observer }),
            ordered(final(self)@),
    {
        enlist(&mut self.entries, priority, observer);
    }

    /// Runs a hook through the observers until one answers with an error or sets
    /// the bypass.
    pub fn try_dispatch<'a, S, H: Hook<T, S>>(
        &self,
        hook: &H,
        ctx: &mut ObserverContext<'a>,
        state: &mut S,
    ) -> (out: (Result<(), Error>, Trace))
        ensures
            dispatched(
                self@,
                *hook,
                Moment { ctx: *old(ctx), state: *old(state) },
                Moment { ctx: *final(ctx), state: *final(state) },
                out.0,
            ),
            traced(
                self@,
                *hook,
                Moment { ctx: *old(ctx), state: *old(state) },
                Moment { ctx: *final(ctx), state: *final(state) },
                out.0,
                out.1@,
            ),
            final(ctx).region == old(ctx).region,
    {
        try_dispatch(&self.entries, hook, ctx, state)
    }

    /// Runs a hook that never answers with an error through the observers until
    /// one sets the bypass.
    pub fn dispatch<'a, S, H: Hook<T, S>>(
        &self,
        hook: &H,
        ctx: &mut ObserverContext<'a>,
        state: &mut S,
    ) -> (trace: Trace)
        requires
            unfailing::<T, S, H>(*hook),
        ensures
            dispatched(
                self@,
                *hook,
                Moment { ctx: *old(ctx), state: *old(state) },
                Moment { ctx: *final(ctx), state: *final(state) },
                Ok::<(), Error>(()),
            ),
            traced(
                self@,
                *hook,
                Moment { ctx: *old(ctx), state: *old(state) },
                Moment { ctx: *final(ctx), state: *final(state) },
                Ok::<(), Error>(()),
                trace@,
            ),
            final(ctx).region == old(ctx).region,
    {
        dispatch(&self.entries, hook, ctx, state)
    }
}

impl<T: Coprocessor> Bench<T> {
    /// Stops the observers, one after the other.
    pub fn stop_all(&self, journal: &mut Journal)
        ensures
            all_stopped(self@),
            final(journal)@ == old(journal)@ + stops(self@),
    {
        journal.stop_all(&self.entries);
    }
}

impl Bench<BoxCmdObserver> {
    /// Tells the observers of executed commands, one after the other.
    pub fn execute_all(&self, journal: &mut Journal, batch: &[CmdBatch])
        ensures
            all_executed(self@, batch@),
            final(journal)@ == old(journal)@ + executions(self@, batch@),
    {
        journal.execute_all(&self.entries, batch);
    }
}

} // verus!
