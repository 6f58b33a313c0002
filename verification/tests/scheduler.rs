use stotris::scheduler::TickScheduler;

#[test]
fn no_tick_before_one_period() {
    let mut s = TickScheduler::new(150);
    assert_eq!(s.advance(0), 0);
    assert_eq!(s.advance(100), 0);
    assert_eq!(s.advance(49), 0);
}

#[test]
fn one_tick_per_whole_period_with_carry() {
    let mut s = TickScheduler::new(150);
    assert_eq!(s.advance(100), 0);
    // 100 + 100 = 200 = 1 * 150 + 50
    assert_eq!(s.advance(100), 1);
    // 50 + 100 = 150 exactly: one tick, nothing carried
    assert_eq!(s.advance(100), 1);
    assert_eq!(s.advance(149), 0);
    assert_eq!(s.advance(1), 1);
}

#[test]
fn slow_frame_fires_multiple_ticks() {
    let mut s = TickScheduler::new(150);
    // 50 carried, then a very slow frame: 50 + 700 = 750 = 5 * 150
    assert_eq!(s.advance(200), 1);
    assert_eq!(s.advance(700), 5);
    assert_eq!(s.advance(149), 0);
}

#[test]
fn exact_multiples_never_drift() {
    let mut s = TickScheduler::new(150);
    let mut total_ticks: u64 = 0;
    for _ in 0..100 {
        total_ticks += s.advance(37);
    }
    // 100 * 37 = 3700 = 24 * 150 + 100: every whole period is accounted for
    assert_eq!(total_ticks, 24);
    assert_eq!(s.advance(50), 1);
}

#[test]
fn period_one_ticks_every_millisecond() {
    let mut s = TickScheduler::new(1);
    assert_eq!(s.advance(5), 5);
    assert_eq!(s.advance(0), 0);
    assert_eq!(s.advance(1), 1);
}
