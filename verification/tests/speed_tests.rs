use typing_reader::speed::SpeedWindow;
use typing_reader::typing::SPEED_WINDOW_CAP;

#[test]
fn average_of_two_samples_is_their_mean() {
    // 4 chars in one second and 6 chars in one second average to 5 chars
    // per second, i.e. 5000 milli-characters per second.
    let mut w = SpeedWindow::new(SPEED_WINDOW_CAP);
    w.push(1000, 4);
    w.push(1000, 6);
    assert_eq!(w.average(), Some(5000));
}

#[test]
fn sixth_push_evicts_the_oldest_sample() {
    let mut w = SpeedWindow::new(SPEED_WINDOW_CAP);
    for chars in 1..=6u64 {
        w.push(1000, chars);
    }
    // Rates 1000..=6000 were pushed; 1000 was evicted, leaving an average
    // of (2000 + 3000 + 4000 + 5000 + 6000) / 5.
    assert_eq!(w.average(), Some(4000));
}

#[test]
fn empty_window_has_no_average() {
    let w = SpeedWindow::new(SPEED_WINDOW_CAP);
    assert_eq!(w.average(), None);
}

#[test]
fn zero_duration_sample_is_skipped() {
    let mut w = SpeedWindow::new(SPEED_WINDOW_CAP);
    w.push(0, 5);
    assert_eq!(w.average(), None);
}

#[test]
fn zero_char_sample_is_skipped() {
    let mut w = SpeedWindow::new(SPEED_WINDOW_CAP);
    w.push(1000, 0);
    assert_eq!(w.average(), None);
}

#[test]
fn rate_is_rounded_down_to_milli_chars_per_second() {
    let mut w = SpeedWindow::new(SPEED_WINDOW_CAP);
    // 1 char in 3 seconds: 333 milli-characters per second.
    w.push(3000, 1);
    assert_eq!(w.average(), Some(333));
}

#[test]
fn finish_without_start_records_nothing() {
    let mut w = SpeedWindow::new(SPEED_WINDOW_CAP);
    w.finish_timing(10);
    assert_eq!(w.average(), None);
}

#[test]
fn cancel_discards_the_measurement() {
    let mut w = SpeedWindow::new(SPEED_WINDOW_CAP);
    w.start_timing();
    w.cancel_timing();
    w.finish_timing(10);
    assert_eq!(w.average(), None);
}
