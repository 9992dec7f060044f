use lowering::timer::Timer;

#[test]
fn test_new() {
    let timer = Timer::new();

    assert!(timer.start.is_none());
    assert!(timer.stop.is_none());
}

#[test]
fn test_start() {
    let mut timer = Timer::new();

    timer.start();

    assert!(timer.start.is_some());
}

#[test]
fn test_stop() {
    let mut timer = Timer::new();

    timer.stop();

    assert!(timer.stop.is_some());
}

#[test]
fn test_finished() {
    let mut timer = Timer::new();

    assert_eq!(timer.finished(), false);

    timer.start();

    assert_eq!(timer.finished(), false);

    timer.stop();

    assert_eq!(timer.finished(), true);
}

#[test]
fn test_duration_nanosec_unfinished_is_zero() {
    let mut timer = Timer::new();

    assert_eq!(timer.duration_nanosec(), 0);

    timer.start();

    assert_eq!(timer.duration_nanosec(), 0);
}

#[test]
fn test_duration_nanosec_finished() {
    let mut timer = Timer::new();

    timer.start();
    timer.stop();

    // Without sleeping, only the trivial lower bound can be checked.
    let nanos = timer.duration_nanosec();
    assert!(nanos < 1_000_000_000);
}
