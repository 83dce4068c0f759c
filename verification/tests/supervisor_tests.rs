use rlunch::db::{update_restaurants, SiteStore};
use rlunch::models::Restaurant;
use rlunch::scrape::{ScrapeCommand, ScrapeError, SiteScrapeResult};
use rlunch::supervisor::{Disposition, Event, Mode, Phase, Supervisor};

fn result_a() -> SiteScrapeResult {
    // two restaurants, five dishes in total
    let mut r1 = Restaurant::new_for_site("Pasta House", 7);
    let mut r2 = Restaurant::new_for_site("Burger Barn", 7);
    for name in ["carbonara", "arrabbiata", "lasagne"] {
        r1.dishes.push(rlunch::models::Dish::new(name).for_restaurant(r1.restaurant_id));
    }
    for name in ["cheese", "double"] {
        r2.dishes.push(rlunch::models::Dish::new(name).for_restaurant(r2.restaurant_id));
    }
    SiteScrapeResult { site_id: 7, restaurants: vec![r1, r2] }
}

#[test]
fn absent_schedule_selects_one_shot_mode() {
    let s = Supervisor::new(&None, 3);
    assert_eq!(s.mode, Mode::OneShot);
    assert_eq!(s.phase, Phase::Starting);
    let s2 = Supervisor::new(&Some(String::from("0 * * * * *")), 3);
    assert_eq!(s2.mode, Mode::Scheduled);
}

#[test]
fn one_shot_start_emits_single_run() {
    let mut s = Supervisor::new(&None, 2);
    let cmd = s.start();
    assert_eq!(cmd, Some(ScrapeCommand::Run));
    assert_eq!(s.phase, Phase::Running);
}

#[test]
fn scheduled_start_emits_nothing() {
    let mut s = Supervisor::new(&Some(String::from("0 * * * * *")), 2);
    let cmd = s.start();
    assert_eq!(cmd, None);
    assert_eq!(s.phase, Phase::Running);
}

#[test]
fn one_shot_with_no_scrapers_drains_immediately() {
    let mut s = Supervisor::new(&None, 0);
    s.start();
    assert_eq!(s.phase, Phase::Draining);
}

#[test]
fn one_shot_processes_exactly_n_results_then_drains() {
    // P-style: with no schedule and N scrapers the supervisor handles
    // exactly N results, then transitions to draining with no external
    // signal involved
    let n = 3;
    let mut s = Supervisor::new(&None, n);
    s.start();
    for i in 0..n {
        assert_eq!(s.phase, Phase::Running);
        let event = Event::ResultReceived(Err(ScrapeError::new("boom")));
        match s.handle_result(event) {
            Disposition::Discard(e) => assert_eq!(e.message, "boom"),
            _ => panic!("expected a discard"),
        }
        assert_eq!(s.results_handled, i + 1);
    }
    assert_eq!(s.phase, Phase::Draining);
    s.finish();
    assert_eq!(s.phase, Phase::Stopped);
}

#[test]
fn scraper_failure_is_isolated() {
    // one failing and one succeeding scraper yield one Err and one Ok, in
    // either order, and the loop never ends early on the failure
    for err_first in [true, false] {
        let mut s = Supervisor::new(&None, 2);
        s.start();
        let ok_event = Event::ResultReceived(Ok(result_a()));
        let err_event = Event::ResultReceived(Err(ScrapeError::new("site unreachable")));
        let (first, second) = if err_first { (err_event, ok_event) } else { (ok_event, err_event) };

        let mut applied = 0;
        let mut discarded = 0;
        for event in [first, second] {
            assert_eq!(s.phase, Phase::Running);
            match s.handle_result(event) {
                Disposition::Apply(res) => {
                    assert_eq!(res.num_restaurants(), 2);
                    applied += 1;
                }
                Disposition::Discard(e) => {
                    assert_eq!(e.message, "site unreachable");
                    discarded += 1;
                }
                Disposition::Quit => panic!("loop ended early"),
            }
        }
        assert_eq!((applied, discarded), (1, 1));
        assert_eq!(s.phase, Phase::Draining);
    }
}

#[test]
fn one_shot_cycle_with_mixed_results_updates_store_once() {
    // schedule = none, scrapers = {A: 2 restaurants and 5 dishes, B: error}.
    // persistence receives exactly one apply; the run is an overall success.
    let mut s = Supervisor::new(&None, 2);
    let cmd = s.start();
    assert_eq!(cmd, Some(ScrapeCommand::Run));

    let mut store = SiteStore::new();
    let mut applies = 0;
    let events = [
        Event::ResultReceived(Ok(result_a())),
        Event::ResultReceived(Err(ScrapeError::new("site unreachable"))),
    ];
    for event in events {
        match s.handle_result(event) {
            Disposition::Apply(res) => {
                assert_eq!(res.num_dishes(), 5);
                update_restaurants(&mut store, res);
                applies += 1;
            }
            Disposition::Discard(_) => {}
            Disposition::Quit => panic!("loop ended early"),
        }
    }
    assert_eq!(applies, 1);
    assert_eq!(store.restaurants.len(), 2);
    assert_eq!(s.phase, Phase::Draining);
    s.finish();
    assert_eq!(s.phase, Phase::Stopped);
}

#[test]
fn shutdown_signal_quits_the_loop() {
    let mut s = Supervisor::new(&Some(String::from("0 * * * * *")), 2);
    s.start();
    match s.handle_result(Event::ShutdownSignal) {
        Disposition::Quit => {}
        _ => panic!("expected quit"),
    }
    assert_eq!(s.phase, Phase::Draining);
}

#[test]
fn closed_result_channel_quits_the_loop() {
    let mut s = Supervisor::new(&Some(String::from("0 * * * * *")), 2);
    s.start();
    match s.handle_result(Event::ResultChannelClosed) {
        Disposition::Quit => {}
        _ => panic!("expected quit"),
    }
    assert_eq!(s.phase, Phase::Draining);
}

#[test]
fn scheduled_mode_keeps_running_across_results() {
    let mut s = Supervisor::new(&Some(String::from("0 * * * * *")), 1);
    s.start();
    for _ in 0..5 {
        match s.handle_result(Event::ResultReceived(Ok(result_a()))) {
            Disposition::Apply(_) => {}
            _ => panic!("expected apply"),
        }
        assert_eq!(s.phase, Phase::Running);
    }
}
