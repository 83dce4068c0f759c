use rlunch::models::{Dish, Restaurant};
use rlunch::scrape::{
    scraper_session, scraper_step, CommandRecv, ScrapeCommand, ScraperStep, SiteScrapeResult,
};

#[test]
fn step_reactions() {
    assert_eq!(
        scraper_step(&CommandRecv::Received(ScrapeCommand::Run)),
        ScraperStep::StartScrape
    );
    assert_eq!(
        scraper_step(&CommandRecv::Received(ScrapeCommand::Shutdown)),
        ScraperStep::Exit
    );
    // lagging behind the broadcast buffer only skips the missed commands
    assert_eq!(scraper_step(&CommandRecv::Lagged), ScraperStep::KeepWaiting);
    // a closed command channel ends the loop cleanly
    assert_eq!(scraper_step(&CommandRecv::Closed), ScraperStep::Exit);
}

#[test]
fn session_runs_every_run_before_the_shutdown_and_none_after() {
    let events = vec![
        CommandRecv::Received(ScrapeCommand::Run),
        CommandRecv::Lagged,
        CommandRecv::Received(ScrapeCommand::Run),
        CommandRecv::Received(ScrapeCommand::Shutdown),
        CommandRecv::Received(ScrapeCommand::Run),
    ];
    assert_eq!(scraper_session(&events), 2);
}

#[test]
fn session_exits_on_closed_channel() {
    let events = vec![
        CommandRecv::Received(ScrapeCommand::Run),
        CommandRecv::Closed,
        CommandRecv::Received(ScrapeCommand::Run),
    ];
    assert_eq!(scraper_session(&events), 1);
}

#[test]
fn session_with_no_stop_runs_everything() {
    let events = vec![
        CommandRecv::Lagged,
        CommandRecv::Received(ScrapeCommand::Run),
        CommandRecv::Received(ScrapeCommand::Run),
    ];
    assert_eq!(scraper_session(&events), 2);
    assert_eq!(scraper_session(&Vec::new()), 0);
}

#[test]
fn result_counts() {
    let mut r1 = Restaurant::new_for_site("A", 1);
    r1.dishes.push(Dish::new("d1").for_restaurant(r1.restaurant_id));
    r1.dishes.push(Dish::new("d2").for_restaurant(r1.restaurant_id));
    let r2 = Restaurant::new_for_site("B", 1);
    let res = SiteScrapeResult { site_id: 1, restaurants: vec![r1, r2] };
    assert_eq!(res.num_restaurants(), 2);
    assert_eq!(res.num_dishes(), 2);
    let empty = SiteScrapeResult { site_id: 1, restaurants: Vec::new() };
    assert_eq!(empty.num_restaurants(), 0);
    assert_eq!(empty.num_dishes(), 0);
}
