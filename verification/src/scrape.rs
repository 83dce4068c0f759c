//! The scraping side of the command/result bus: the commands broadcast to
//! every scraper task, one task's reaction to what it receives, and the
//! result a scraper hands back to the supervisor.
//!
//! A scraper task loops: receive a command, act, repeat. `Run` starts one
//! scrape whose result is sent on the result channel; falling behind the
//! broadcast buffer only skips the missed commands; `Shutdown` or a closed
//! channel ends the loop. The loop reads one command at a time, so a
//! shutdown that arrives mid-scrape takes effect only after that scrape and
//! its result send complete.

use crate::models::Restaurant;
use vstd::prelude::*;

verus! {

/// What one scrape of one site produced: the site and its restaurants with
/// their dishes. Immutable after construction; ownership moves from the
/// scraper task to the supervisor over the result channel.
#[derive(Debug, Clone, PartialEq)]
pub struct SiteScrapeResult {
    pub site_id: u128,
    pub restaurants: Vec<Restaurant>,
}

/// The total number of dishes across a list of restaurants.
pub open spec fn spec_num_dishes(rs: Seq<Restaurant>) -> int
    decreases rs.len(),
{
    if rs.len() == 0 {
        0
    } else {
        spec_num_dishes(rs.drop_last()) + rs.last().dishes@.len()
    }
}

/// A prefix never counts more dishes than the whole.
proof fn lemma_num_dishes_prefix(rs: Seq<Restaurant>, i: int)
    requires
        0 <= i <= rs.len(),
    ensures
        spec_num_dishes(rs.take(i)) <= spec_num_dishes(rs),
    decreases rs.len() - i,
{
    if i < rs.len() {
        assert(rs.take(i + 1).drop_last() =~= rs.take(i));
        assert(rs.take(i + 1).last() == rs[i]);
        lemma_num_dishes_prefix(rs, i + 1);
    } else {
        assert(rs.take(i) =~= rs);
    }
}

impl SiteScrapeResult {
    /// How many restaurants this scrape found.
    pub fn num_restaurants(&self) -> (n: usize)
        ensures
            n == self.restaurants@.len(),
    {
        self.restaurants.len()
    }

    /// How many dishes this scrape found, over all its restaurants.
    pub fn num_dishes(&self) -> (n: usize)
        requires
            spec_num_dishes(self.restaurants@) <= usize::MAX,
        ensures
            n == spec_num_dishes(self.restaurants@),
    {
        let rs = &self.restaurants;
        let mut sum: usize = 0;
        let mut i: usize = 0;
        while i < rs.len()
            invariant
                i <= rs@.len(),
                sum == spec_num_dishes(rs@.take(i as int)),
                spec_num_dishes(rs@) <= usize::MAX,
            decreases rs@.len() - i,
        {
            proof {
                assert(rs@.take(i + 1).drop_last() =~= rs@.take(i as int));
                assert(rs@.take(i + 1).last() == rs@[i as int]);
                lemma_num_dishes_prefix(rs@, i + 1);
            }
            sum = sum + rs[i].dishes.len();
            i = i + 1;
        }
        proof {
            assert(rs@.take(rs@.len() as int) =~= rs@);
        }
        sum
    }
}

/// Why one scrape failed. The supervisor does not distinguish root causes —
/// a network failure and an unexpected page shape surface identically.
#[derive(Debug, Clone, PartialEq)]
pub struct ScrapeError {
    pub message: String,
}

impl ScrapeError {
    /// An error carrying the given message.
    pub fn new(message: &str) -> (e: ScrapeError)
        ensures
            e.message@ == message@,
    {
        ScrapeError { message: message.to_owned() }
    }
}

/// A command broadcast to every scraper task.
#[derive(Debug, Clone, Copy, PartialEq, Eq, Structural)]
pub enum ScrapeCommand {
    Run,
    Shutdown,
}

/// What one receive on a task's command subscription can yield: a command,
/// a lag notice (the task fell behind the broadcast buffer and missed some
/// commands), or a closed channel.
#[derive(Debug, Clone, Copy, PartialEq, Eq, Structural)]
pub enum CommandRecv {
    Received(ScrapeCommand),
    Lagged,
    Closed,
}

/// What a scraper task does next after one receive.
#[derive(Debug, Clone, Copy, PartialEq, Eq, Structural)]
pub enum ScraperStep {
    /// Run one scrape and send its result on the result channel.
    StartScrape,
    /// Keep listening: a lag only skips the missed commands.
    KeepWaiting,
    /// Leave the loop: shutdown was commanded or the bus is gone.
    Exit,
}

/// The task's reaction to one receive.
pub open spec fn spec_scraper_step(r: CommandRecv) -> ScraperStep {
    match r {
        CommandRecv::Received(ScrapeCommand::Run) => ScraperStep::StartScrape,
        CommandRecv::Received(ScrapeCommand::Shutdown) => ScraperStep::Exit,
        CommandRecv::Lagged => ScraperStep::KeepWaiting,
        CommandRecv::Closed => ScraperStep::Exit,
    }
}

/// Decide what a scraper task does with one received command. A lag is not
/// fatal; only `Shutdown` or a closed channel ends the loop.
pub fn scraper_step(r: &CommandRecv) -> (s: ScraperStep)
    ensures
        s == spec_scraper_step(*r),
{
    match r {
        CommandRecv::Received(ScrapeCommand::Run) => ScraperStep::StartScrape,
        CommandRecv::Received(ScrapeCommand::Shutdown) => ScraperStep::Exit,
        CommandRecv::Lagged => ScraperStep::KeepWaiting,
        CommandRecv::Closed => ScraperStep::Exit,
    }
}

/// How many scrapes a task starts over a sequence of receives: one for each
/// `Run` until the first receive that ends the loop.
pub open spec fn spec_session_runs(events: Seq<CommandRecv>) -> nat
    decreases events.len(),
{
    if events.len() == 0 {
        0
    } else if spec_scraper_step(events[0]) is Exit {
        0
    } else if spec_scraper_step(events[0]) is StartScrape {
        1 + spec_session_runs(events.drop_first())
    } else {
        spec_session_runs(events.drop_first())
    }
}

/// How many `Run` commands a sequence of receives holds.
pub open spec fn count_runs(events: Seq<CommandRecv>) -> nat
    decreases events.len(),
{
    if events.len() == 0 {
        0
    } else {
        count_runs(events.drop_first()) + if events[0]
            == CommandRecv::Received(ScrapeCommand::Run) {
            1nat
        } else {
            0nat
        }
    }
}

/// One scraper task's command loop, played over a sequence of receives:
/// each `Run` starts one scrape, a lag is skipped, and the first `Shutdown`
/// or channel-close ends the loop. Returns how many scrapes were started.
pub fn scraper_session(events: &Vec<CommandRecv>) -> (runs: usize)
    ensures
        runs == spec_session_runs(events@),
{
    let mut runs: usize = 0;
    let mut done = false;
    let mut i: usize = 0;
    proof {
        assert(events@.skip(0) =~= events@);
    }
    while i < events.len() && !done
        invariant
            i <= events@.len(),
            runs <= i,
            spec_session_runs(events@) == (if done {
                runs as int
            } else {
                runs + spec_session_runs(events@.skip(i as int))
            }),
        decreases events@.len() - i,
    {
        proof {
            assert(events@.skip(i as int)[0] == events@[i as int]);
            assert(events@.skip(i as int).drop_first() =~= events@.skip(i + 1));
        }
        match scraper_step(&events[i]) {
            ScraperStep::StartScrape => {
                runs = runs + 1;
            },
            ScraperStep::KeepWaiting => {},
            ScraperStep::Exit => {
                done = true;
            },
        }
        i = i + 1;
    }
    proof {
        if !done {
            assert(events@.skip(events@.len() as int) =~= Seq::<CommandRecv>::empty());
        }
    }
    runs
}

/// A scraper task leaves its loop exactly
/// at the first `Shutdown` or channel-close it receives. Every `Run` before
/// that point is carried out — the loop reads commands one at a time, so a
/// scrape in progress always completes before the stop is seen — and
/// nothing after that point is acted on.
pub proof fn lemma_session_stops_at_first_exit(events: Seq<CommandRecv>, k: int)
    requires
        0 <= k <= events.len(),
        forall|j: int| 0 <= j < k ==> !((#[trigger] spec_scraper_step(events[j])) is Exit),
        k < events.len() ==> spec_scraper_step(events[k]) is Exit,
    ensures
        spec_session_runs(events) == count_runs(events.take(k)),
    decreases events.len(),
{
    if events.len() == 0 {
        assert(events.take(k) =~= events);
    } else if k == 0 {
        assert(events.take(0) =~= Seq::<CommandRecv>::empty());
    } else {
        assert(!(spec_scraper_step(events[0]) is Exit));
        assert(events.drop_first().take(k - 1) =~= events.take(k).drop_first());
        assert(forall|j: int|
            0 <= j < k - 1 ==> !((#[trigger] spec_scraper_step(events.drop_first()[j])) is Exit));
        lemma_session_stops_at_first_exit(events.drop_first(), k - 1);
        assert(count_runs(events.take(k)) == count_runs(events.take(k).drop_first()) + if events[0]
            == CommandRecv::Received(ScrapeCommand::Run) {
            1nat
        } else {
            0nat
        });
    }
}

} // verus!
