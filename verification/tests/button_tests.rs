use hydro::button::{Button, ButtonEvent, ButtonState, Level, WhenPressed};

#[test]
fn new_starts_released_active_low() {
    let b = Button::new();
    assert_eq!(b.button_state, ButtonState::Released);
    assert_eq!(b.when_pressed, WhenPressed::Low);
    assert_eq!(b.long_press_duration, 500);
}

#[test]
fn defaults_match_the_machine() {
    assert_eq!(ButtonState::default(), ButtonState::Released);
    assert_eq!(WhenPressed::default(), WhenPressed::Low);
}

#[test]
fn short_press_cycle_fires_one_short_event() {
    let mut b = Button::new();
    assert_eq!(b.poll(Level::Low, 0), None);
    assert_eq!(b.button_state, ButtonState::Pressed);
    assert_eq!(b.poll(Level::High, 100), Some(ButtonEvent::ShortPress));
    assert_eq!(b.button_state, ButtonState::Released);
}

#[test]
fn long_press_cycle_fires_one_long_event() {
    let mut b = Button::new();
    assert_eq!(b.poll(Level::Low, 10), None);
    assert_eq!(b.poll(Level::High, 800), Some(ButtonEvent::LongPress));
    assert_eq!(b.button_state, ButtonState::Released);
}

#[test]
fn threshold_boundary_is_inclusive_for_long() {
    let mut b = Button::new();
    b.poll(Level::Low, 0);
    assert_eq!(b.poll(Level::High, 500), Some(ButtonEvent::LongPress));

    let mut b = Button::new();
    b.poll(Level::Low, 0);
    assert_eq!(b.poll(Level::High, 499), Some(ButtonEvent::ShortPress));
}

#[test]
fn no_event_while_released_or_held() {
    let mut b = Button::new();
    // Idle in Released: the line never reads pressed.
    assert_eq!(b.poll(Level::High, 0), None);
    assert_eq!(b.poll(Level::High, 50), None);
    assert_eq!(b.button_state, ButtonState::Released);
    // Held in Pressed: no repeated events during the hold.
    assert_eq!(b.poll(Level::Low, 100), None);
    assert_eq!(b.poll(Level::Low, 200), None);
    assert_eq!(b.poll(Level::Low, 5000), None);
    assert_eq!(b.button_state, ButtonState::Pressed);
    assert_eq!(b.press_time, 100);
}

#[test]
fn hold_then_release_classifies_from_press_start() {
    let mut b = Button::new();
    b.poll(Level::Low, 100);
    b.poll(Level::Low, 300);
    b.poll(Level::Low, 550);
    // Elapsed is measured from the press edge at 100, not the last hold.
    assert_eq!(b.poll(Level::High, 700), Some(ButtonEvent::LongPress));
}

#[test]
fn active_high_polarity_inverts_reading() {
    let mut b = Button::new().set_high();
    assert!(b.is_pressed(Level::High));
    assert!(!b.is_pressed(Level::Low));
    assert_eq!(b.poll(Level::High, 0), None);
    assert_eq!(b.button_state, ButtonState::Pressed);
    assert_eq!(b.poll(Level::Low, 30), Some(ButtonEvent::ShortPress));
}

#[test]
fn set_low_restores_active_low() {
    let b = Button::new().set_high().set_low();
    assert!(b.is_pressed(Level::Low));
    assert!(!b.is_pressed(Level::High));
}

#[test]
fn custom_long_press_duration() {
    let mut b = Button::new().set_long_press_duration(1000);
    b.poll(Level::Low, 0);
    assert_eq!(b.poll(Level::High, 999), Some(ButtonEvent::ShortPress));
    let mut b = Button::new().set_long_press_duration(1000);
    b.poll(Level::Low, 0);
    assert_eq!(b.poll(Level::High, 1000), Some(ButtonEvent::LongPress));
}

#[test]
fn second_cycle_uses_new_press_start() {
    let mut b = Button::new();
    b.poll(Level::Low, 0);
    assert_eq!(b.poll(Level::High, 600), Some(ButtonEvent::LongPress));
    // A fresh press overwrites the episode start.
    b.poll(Level::Low, 1000);
    assert_eq!(b.poll(Level::High, 1100), Some(ButtonEvent::ShortPress));
}
