use somr::word::checked_increment_observers;
use somr::word::decrement_observers;
use somr::word::increment_observers;
use somr::word::mark_storage_released;
use somr::word::mark_value_dropped;
use somr::word::observer_count;
use somr::word::storage_released;
use somr::word::value_dropped;
use somr::word::COUNT_MASK;

#[test]
fn fresh_word_is_all_clear() {
    assert_eq!(observer_count(0), 0);
    assert!(!value_dropped(0));
    assert!(!storage_released(0));
}

#[test]
fn flags_preserve_count_and_each_other() {
    let w = increment_observers(increment_observers(increment_observers(0)));
    assert_eq!(observer_count(w), 3);
    let w = mark_value_dropped(w);
    assert_eq!(observer_count(w), 3);
    assert!(value_dropped(w));
    assert!(!storage_released(w));
    let w = mark_storage_released(w);
    assert_eq!(observer_count(w), 3);
    assert!(value_dropped(w));
    assert!(storage_released(w));
}

#[test]
fn count_round_trip() {
    let up = increment_observers(0);
    assert_eq!(observer_count(up), 1);
    let down = decrement_observers(up);
    assert_eq!(observer_count(down), 0);
    assert!(!value_dropped(down));
    assert!(!storage_released(down));
}

#[test]
fn count_changes_touch_no_flag() {
    let w = mark_value_dropped(mark_storage_released(0));
    let w = increment_observers(w);
    assert!(value_dropped(w));
    assert!(storage_released(w));
    assert_eq!(observer_count(w), 1);
    let w = decrement_observers(w);
    assert!(value_dropped(w));
    assert!(storage_released(w));
    assert_eq!(observer_count(w), 0);
}

#[test]
fn observer_overflow_is_detected_not_wrapped() {
    // A word whose count field is saturated: one more observer is the fatal
    // overflow condition and must be reported, never wrapped into the flags.
    assert!(checked_increment_observers(COUNT_MASK).is_none());

    let almost_full = COUNT_MASK - 1;
    let bumped = checked_increment_observers(almost_full).expect("one slot was left");
    assert_eq!(observer_count(bumped), COUNT_MASK);
    assert!(!value_dropped(bumped));
    assert!(!storage_released(bumped));
    assert!(checked_increment_observers(bumped).is_none());
}
