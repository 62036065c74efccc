use hexsnake::fps_control::{FpsControl, FpsCounter, State};

#[test]
fn the_counter_stores_an_instant_every_step_frames() {
    let mut counter = FpsCounter::new(3);
    assert_eq!(counter.span(), None);
    counter.register_frames(1, 100);
    assert_eq!(counter.span(), None);
    counter.register_frames(1, 200);
    counter.register_frames(1, 300);
    assert_eq!(counter.span(), None);
    counter.register_frames(1, 400);
    // the second instant stands for three frames
    assert_eq!(counter.span(), Some((3, 300)));
    counter.register_frames(5, 900);
    assert_eq!(counter.span(), Some((3 + 5, 800)));
    counter.reset();
    assert_eq!(counter.span(), None);
}

#[test]
fn the_counter_keeps_the_last_ten_instants() {
    let mut counter = FpsCounter::new(0);
    for t in 0..15u64 {
        counter.register_frames(1, t * 10);
    }
    // instants 5 to 14 are kept, each standing for one frame
    assert_eq!(counter.span(), Some((9, 90)));
}

#[test]
fn pacing_smooths_and_caps() {
    let mut control = FpsControl::new();
    assert_eq!(control.pace(1000), 1000);
    assert_eq!(control.pace(2000), 1100);
    // a stall counts as four times the average at most
    assert_eq!(control.pace(1_000_000), (9 * 1100 + 4400) / 10);
    assert_eq!(control.pace(0), 1430 * 9 / 10);
}

#[test]
fn states() {
    let mut control = FpsControl::new();
    assert_eq!(control.state(), State::Playing);
    assert!(control.update().is_some());
    control.pause();
    assert_eq!(control.state(), State::Paused);
    assert_eq!(control.update(), None);
    control.game_over();
    assert_eq!(control.state(), State::GameOver);
    control.play();
    assert_eq!(control.state(), State::Playing);
    control.graphics_frame();
    assert!(control.elapsed_total() < 60_000_000_000);
}
