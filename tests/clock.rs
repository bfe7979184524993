use game_core::clock::Clock;

#[test]
fn test_set_ups() {
    let clock = Clock::new(10);
    assert_eq!(clock.aim(), 1e8 as u128);
}

#[test]
fn test_get_ups() {
    let clock = Clock::new(10);
    assert_eq!(clock.get_ups(), 10);
}

#[test]
fn test_tick() {
    let mut clock = Clock::new(10);
    assert_eq!(clock.tick().as_nanos(), clock.aim());
}

#[test]
fn set_ups_resets_and_retargets() {
    let mut clock = Clock::new(10);
    clock.set_ups(4);
    assert_eq!(clock.aim(), 250_000_000);
    assert_eq!(clock.get_ups(), 4);
    clock.set_ups(255);
    assert_eq!(clock.aim(), 3_921_568);
    assert_eq!(clock.get_ups(), 255);
}

#[test]
fn first_tick_waits_the_aim() {
    let mut clock = Clock::new(10);
    assert_eq!(clock.record_tick(None), 100_000_000);
}

#[test]
fn slow_ticks_shorten_the_wait() {
    let mut clock = Clock::new(10);
    // first tick seeds the average with the aim
    assert_eq!(clock.record_tick(None), 100_000_000);
    // second tick took 160 ms: average (100 * 1 + 160) / 2 = 130 ms, wait 200 - 130
    assert_eq!(clock.record_tick(Some(160_000_000)), 70_000_000);
    // third tick took 40 ms: average (130 * 2 + 40) / 3 = 100 ms
    assert_eq!(clock.record_tick(Some(40_000_000)), 100_000_000);
}

#[test]
fn a_very_slow_tick_gives_no_wait() {
    let mut clock = Clock::new(10);
    clock.record_tick(None);
    // average (100 + 500) / 2 = 300 ms, more than twice the aim
    assert_eq!(clock.record_tick(Some(500_000_000)), 0);
}

#[test]
fn mean_of_three_ticks() {
    let mut clock = Clock::new(10);
    clock.record_tick(None);
    clock.record_tick(Some(100_000_000));
    // average (100_000_000 * 2 + 1) / 3 = 66_666_667
    assert_eq!(clock.record_tick(Some(1)), 200_000_000 - 66_666_667);
}

#[test]
fn pause_makes_next_tick_start_afresh() {
    let mut clock = Clock::new(10);
    clock.tick();
    clock.pause();
    assert_eq!(clock.tick().as_nanos(), 100_000_000);
}
