//! The supervisor that drives scrape cycles: it owns the lifecycle
//! `Starting -> Running -> Draining -> Stopped`, fans `Run` commands out to
//! the scraper tasks, drains their results one at a time, and decides when
//! to shut the pool down.
//!
//! With a schedule, `Run` commands come from the scheduler's timer and the
//! supervisor runs until an external shutdown signal. Without one — a
//! normal, expected control path, not an error — the supervisor emits one
//! `Run` itself, waits for exactly one result per scraper, then drains.
//! Each received result is disposed of immediately, before the next receive:
//! a successful scrape is handed out to be applied to persistence, a failed
//! one is discarded with its error — one site's failure never stops the
//! loop or its siblings.

use crate::scrape::{ScrapeCommand, ScrapeError, SiteScrapeResult};
use vstd::prelude::*;

verus! {

/// How the supervisor was started: under a cron schedule, or for exactly
/// one scrape cycle.
#[derive(Debug, Clone, Copy, PartialEq, Eq, Structural)]
pub enum Mode {
    Scheduled,
    OneShot,
}

/// Where the supervisor is in its lifecycle.
#[derive(Debug, Clone, Copy, PartialEq, Eq, Structural)]
pub enum Phase {
    /// Resolving scraper identities, building the cache, spawning tasks.
    Starting,
    /// Waiting for results or a shutdown signal.
    Running,
    /// Stopping the scheduler, broadcasting `Shutdown`, joining tasks.
    Draining,
    /// Persistence closed, cache flushed.
    Stopped,
}

/// What the supervisor can observe while running.
#[derive(Debug)]
pub enum Event {
    /// The external shutdown signal fired.
    ShutdownSignal,
    /// One scraper's result arrived on the result channel.
    ResultReceived(Result<SiteScrapeResult, ScrapeError>),
    /// The result channel closed: every sender is gone.
    ResultChannelClosed,
}

/// What to do with one observed event.
#[derive(Debug)]
pub enum Disposition {
    /// Apply this result to persistence now, then keep receiving. A failure
    /// to apply is logged and does not halt the loop.
    Apply(SiteScrapeResult),
    /// Log this scrape failure, then keep receiving.
    Discard(ScrapeError),
    /// Leave the receive loop and drain.
    Quit,
}

/// The supervisor's state. `results_handled` counts the results of the
/// one-shot cycle; under a schedule the count is not kept, since the loop
/// runs until a signal.
#[derive(Debug, Clone, Copy, PartialEq)]
pub struct Supervisor {
    pub mode: Mode,
    pub n_scrapers: usize,
    pub results_handled: usize,
    pub phase: Phase,
}

/// How one event moves the supervisor's state while it is running.
pub open spec fn spec_step(s: Supervisor, e: Event) -> Supervisor {
    match e {
        Event::ShutdownSignal => Supervisor { phase: Phase::Draining, ..s },
        Event::ResultChannelClosed => Supervisor { phase: Phase::Draining, ..s },
        Event::ResultReceived(_) => {
            if s.mode is OneShot {
                let handled = (s.results_handled + 1) as usize;
                Supervisor {
                    results_handled: handled,
                    phase: if handled == s.n_scrapers {
                        Phase::Draining
                    } else {
                        Phase::Running
                    },
                    ..s
                }
            } else {
                s
            }
        },
    }
}

/// The supervisor after a sequence of events.
pub open spec fn spec_run_events(s: Supervisor, events: Seq<Event>) -> Supervisor
    decreases events.len(),
{
    if events.len() == 0 {
        s
    } else {
        spec_run_events(spec_step(s, events[0]), events.drop_first())
    }
}

impl Supervisor {
    /// The supervisor's invariant: in one-shot mode the result count never
    /// passes the scraper count, and while the loop runs, some results are
    /// still owed.
    pub open spec fn wf(self) -> bool {
        self.mode is OneShot ==> self.results_handled <= self.n_scrapers && (self.phase is Running
            ==> self.results_handled < self.n_scrapers)
    }

    /// A supervisor for the given scraper pool. A supplied schedule
    /// expression selects scheduled mode; its absence selects the one-shot
    /// cycle. (Whether the expression itself is valid cron is the
    /// scheduler's business: a malformed one aborts startup there.)
    pub fn new(schedule: &Option<String>, n_scrapers: usize) -> (s: Supervisor)
        ensures
            s.wf(),
            s.mode == (if schedule is Some {
                Mode::Scheduled
            } else {
                Mode::OneShot
            }),
            s.n_scrapers == n_scrapers,
            s.results_handled == 0,
            s.phase is Starting,
    {
        let mode = match schedule {
            Some(_) => Mode::Scheduled,
            None => Mode::OneShot,
        };
        Supervisor { mode, n_scrapers, results_handled: 0, phase: Phase::Starting }
    }

    /// Enter the receive loop, once the scraper tasks are spawned. In
    /// one-shot mode this emits the single `Run` for the whole cycle — and
    /// with no scrapers at all the cycle is already complete, so the
    /// supervisor goes straight to draining. Under a schedule the timer
    /// emits every `Run`.
    pub fn start(&mut self) -> (cmd: Option<ScrapeCommand>)
        requires
            old(self).wf(),
            old(self).phase is Starting,
            old(self).results_handled == 0,
        ensures
            final(self).wf(),
            final(self).mode == old(self).mode,
            final(self).n_scrapers == old(self).n_scrapers,
            final(self).results_handled == old(self).results_handled,
            cmd == (if old(self).mode is OneShot {
                Some(ScrapeCommand::Run)
            } else {
                Option::<ScrapeCommand>::None
            }),
            final(self).phase == (if old(self).mode is OneShot && old(self).n_scrapers == 0 {
                Phase::Draining
            } else {
                Phase::Running
            }),
    {
        match self.mode {
            Mode::OneShot => {
                if self.n_scrapers == 0 {
                    self.phase = Phase::Draining;
                } else {
                    self.phase = Phase::Running;
                }
                Some(ScrapeCommand::Run)
            },
            Mode::Scheduled => {
                self.phase = Phase::Running;
                None
            },
        }
    }

    /// Dispose of one observed event. A successful result is handed out to
    /// be applied immediately; a failed scrape is discarded with its error
    /// and the loop goes on; a shutdown signal or a closed result channel
    /// ends the loop. In one-shot mode the loop also ends exactly when the
    /// last owed result has been handled.
    pub fn handle_result(&mut self, event: Event) -> (d: Disposition)
        requires
            old(self).wf(),
            old(self).phase is Running,
        ensures
            final(self).wf(),
            *final(self) == spec_step(*old(self), event),
            match event {
                Event::ShutdownSignal => d is Quit,
                Event::ResultChannelClosed => d is Quit,
                Event::ResultReceived(r) => match r {
                    Ok(res) => d == Disposition::Apply(res),
                    Err(err) => d == Disposition::Discard(err),
                },
            },
    {
        match event {
            Event::ShutdownSignal => {
                self.phase = Phase::Draining;
                Disposition::Quit
            },
            Event::ResultChannelClosed => {
                self.phase = Phase::Draining;
                Disposition::Quit
            },
            Event::ResultReceived(r) => {
                match self.mode {
                    Mode::OneShot => {
                        self.results_handled = self.results_handled + 1;
                        if self.results_handled == self.n_scrapers {
                            self.phase = Phase::Draining;
                        }
                    },
                    Mode::Scheduled => {},
                }
                match r {
                    Ok(res) => Disposition::Apply(res),
                    Err(err) => Disposition::Discard(err),
                }
            },
        }
    }

    /// Close out the lifecycle once the scheduler is stopped, `Shutdown`
    /// is broadcast, and every scraper task has terminated: persistence is
    /// closed and the cache flushed (best-effort) by the caller.
    pub fn finish(&mut self)
        requires
            old(self).phase is Draining,
        ensures
            *final(self) == (Supervisor { phase: Phase::Stopped, ..*old(self) }),
    {
        self.phase = Phase::Stopped;
    }
}

/// A one-shot supervisor that is owed `k` more results
/// handles exactly those `k` — an error counts like a success, so one bad
/// site never ends the cycle early — and then drains, without waiting for
/// any external signal. Before the last owed result it is still running.
pub proof fn lemma_one_shot_exit(s: Supervisor, events: Seq<Event>)
    requires
        s.wf(),
        s.mode is OneShot,
        s.phase is Running,
        events.len() == s.n_scrapers - s.results_handled,
        forall|i: int| 0 <= i < events.len() ==> (#[trigger] events[i]) is ResultReceived,
    ensures
        spec_run_events(s, events).phase is Draining,
        spec_run_events(s, events).results_handled == s.n_scrapers,
        spec_run_events(s, events).mode == s.mode,
        spec_run_events(s, events).n_scrapers == s.n_scrapers,
        forall|k: int|
            0 <= k < events.len() ==> (#[trigger] spec_run_events(s, events.take(k))).phase
                is Running,
    decreases events.len(),
{
    assert(events.len() > 0);
    assert(events[0] is ResultReceived);
    let s1 = spec_step(s, events[0]);
    assert(s1.results_handled == s.results_handled + 1);
    if events.len() == 1 {
        assert(s1.phase is Draining);
        assert(events.drop_first().len() == 0);
        assert(spec_run_events(s1, events.drop_first()) == s1);
        assert(spec_run_events(s, events) == s1);
    } else {
        assert(s1.phase is Running);
        assert(s1.wf());
        assert(forall|i: int|
            0 <= i < events.drop_first().len() ==> (#[trigger] events.drop_first()[i])
                is ResultReceived);
        lemma_one_shot_exit(s1, events.drop_first());
    }
    assert forall|k: int| 0 <= k < events.len() implies (#[trigger] spec_run_events(
        s,
        events.take(k),
    )).phase is Running by {
        if k == 0 {
            assert(events.take(0) =~= Seq::<Event>::empty());
        } else {
            assert(events.take(k)[0] == events[0]);
            assert(events.take(k).drop_first() =~= events.drop_first().take(k - 1));
            assert(spec_run_events(s, events.take(k)) == spec_run_events(
                s1,
                events.drop_first().take(k - 1),
            ));
        }
    }
}

} // verus!
