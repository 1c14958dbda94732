use rando_kanji::clock::{elapsed, now_secs, Timer};
use rando_kanji::kanji_fall::{KanjiFall, COLUMNS_NUM};

#[test]
fn elapsed_clamps_backward_clock() {
    assert_eq!(elapsed(100, 250), 150);
    assert_eq!(elapsed(250, 100), 0);
    assert!(now_secs() > 1_600_000_000);
}

#[test]
fn timer_fires_after_its_duration() {
    let mut t = Timer::started_at(1_000, 100);
    assert!(!t.check_at(1_050));
    assert!(!t.check_at(1_100));
    assert!(t.check_at(1_101));
    assert!(!t.check_at(1_150));
    assert!(t.check_at(1_202));
}

#[test]
fn timer_treats_backward_clock_as_no_time() {
    let mut t = Timer::started_at(1_000, 0);
    assert!(!t.check_at(500));
    t.reset_at(10);
    assert!(t.check_at(11));
}

#[test]
fn timer_duration_can_change() {
    let mut t = Timer::started_at(0, 1_000);
    t.set_duration(10);
    assert!(t.check_at(11));
    let mut fresh = Timer::new(60_000);
    assert!(!fresh.check());
    fresh.reset();
    assert!(!fresh.check());
    let mut zero = Timer::default();
    zero.reset_at(0);
    assert!(zero.check_at(1));
}

#[test]
fn fall_starts_with_free_columns() {
    let fall = KanjiFall::new();
    assert_eq!(fall.columns.len(), COLUMNS_NUM as usize);
    assert_eq!(COLUMNS_NUM, 32);
    assert!(fall.columns.iter().all(|c| !c.is_in_use));
}

#[test]
fn spawned_column_is_taken_until_released() {
    let mut fall = KanjiFall::new();
    fall.spawn_timer = Timer::started_at(0, 100);
    let c = fall.spawn_column_at(1_000).expect("a free column");
    assert!(fall.columns[c as usize].is_in_use);
    assert_eq!(fall.columns.iter().filter(|c| c.is_in_use).count(), 1);
    assert_eq!(fall.spawn_column_at(1_050), None);
    for col in fall.columns.iter_mut() {
        col.timer = Timer::started_at(0, 10_000);
    }
    fall.release_columns_at(5_000);
    assert!(fall.columns[c as usize].is_in_use);
    fall.release_columns_at(10_001);
    assert!(fall.columns.iter().all(|c| !c.is_in_use));
    fall.release_columns();
}

#[test]
fn default_column_is_free() {
    let c = rando_kanji::kanji_fall::Column::default();
    assert!(!c.is_in_use);
}
