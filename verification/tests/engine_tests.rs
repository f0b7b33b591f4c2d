use event_bindings::descriptor::EventType;
use event_bindings::descriptor::Key;
use event_bindings::descriptor::Modifiers;
use event_bindings::descriptor::MouseButton;
use event_bindings::engine::Events;
use event_bindings::engine::RawEvent;

#[derive(Debug, Clone, PartialEq)]
enum AppEvent {
    First((f64, f64), Option<String>),
    Second((f64, f64), Option<String>),
    Third((f64, f64), Option<String>),
}

type Ctor = fn((f64, f64), Option<String>) -> AppEvent;

type Engine = Events<(f64, f64), String, AppEvent, Ctor>;

fn first(pos: (f64, f64), path: Option<String>) -> AppEvent {
    AppEvent::First(pos, path)
}

fn second(pos: (f64, f64), path: Option<String>) -> AppEvent {
    AppEvent::Second(pos, path)
}

fn third(pos: (f64, f64), path: Option<String>) -> AppEvent {
    AppEvent::Third(pos, path)
}

fn engine() -> Engine {
    Events::new((0.0, 0.0))
}

fn no_mods() -> Modifiers {
    Modifiers { shift: false, ctrl: false, alt: false, logo: false }
}

fn shift_only() -> Modifiers {
    Modifiers { shift: true, ctrl: false, alt: false, logo: false }
}

fn left_press(modifiers: Modifiers) -> RawEvent<(f64, f64), String> {
    RawEvent::MouseInput { pressed: true, button: MouseButton::Left, modifiers }
}

#[test]
fn bind_dispatch_returns_registered_value() {
    let mut ev = engine();
    ev.add_binding(EventType::MousePress(MouseButton::Left, no_mods()), first);
    ev.dispatch(left_press(no_mods()));
    assert_eq!(ev.buffered_len(), 1);
    assert_eq!(ev.next(Vec::new()), Some(AppEvent::First((0.0, 0.0), None)));
    assert_eq!(ev.next(Vec::new()), None);
}

#[test]
fn bind_unbind_round_trip_dispatches_nothing() {
    let mut ev = engine();
    let d = EventType::MousePress(MouseButton::Left, no_mods());
    ev.add_binding(d, first);
    ev.remove_binding(d);
    ev.dispatch(left_press(no_mods()));
    assert_eq!(ev.buffered_len(), 0);
    assert_eq!(ev.next(Vec::new()), None);
}

#[test]
fn rebind_overwrites_previous_constructor() {
    let mut ev = engine();
    let d = EventType::MousePress(MouseButton::Left, no_mods());
    ev.add_binding(d, first);
    ev.add_binding(d, second);
    ev.dispatch(left_press(no_mods()));
    assert_eq!(ev.buffered_len(), 1);
    assert_eq!(ev.next(Vec::new()), Some(AppEvent::Second((0.0, 0.0), None)));
}

#[test]
fn remove_absent_binding_is_a_no_op() {
    let mut ev = engine();
    ev.remove_binding(EventType::Refresh);
    ev.remove_binding_modifier_ignorant(EventType::KeyPress(Key::Q, no_mods()));
    ev.dispatch(RawEvent::Refresh);
    assert_eq!(ev.next(Vec::new()), None);
}

#[test]
fn silent_miss_appends_nothing() {
    let mut ev = engine();
    ev.add_binding(EventType::MousePress(MouseButton::Left, no_mods()), first);
    ev.dispatch(left_press(shift_only()));
    ev.dispatch(RawEvent::MouseInput {
        pressed: true,
        button: MouseButton::Right,
        modifiers: no_mods(),
    });
    ev.dispatch(RawEvent::Refresh);
    assert_eq!(ev.buffered_len(), 0);
}

#[test]
fn modifier_agnostic_bind_fires_under_every_combination() {
    let mut ev = engine();
    ev.add_binding_modifier_ignorant(EventType::MousePress(MouseButton::Left, no_mods()), first);
    for i in 0..16usize {
        let modifiers = Modifiers {
            shift: i & 1 != 0,
            ctrl: i & 2 != 0,
            alt: i & 4 != 0,
            logo: i & 8 != 0,
        };
        ev.dispatch(left_press(modifiers));
    }
    assert_eq!(ev.buffered_len(), 16);
}

#[test]
fn modifier_agnostic_unbind_silences_every_combination() {
    let mut ev = engine();
    let d = EventType::MousePress(MouseButton::Left, no_mods());
    ev.add_binding_modifier_ignorant(d, first);
    ev.remove_binding_modifier_ignorant(d);
    for i in 0..16usize {
        let modifiers = Modifiers {
            shift: i & 1 != 0,
            ctrl: i & 2 != 0,
            alt: i & 4 != 0,
            logo: i & 8 != 0,
        };
        ev.dispatch(left_press(modifiers));
    }
    assert_eq!(ev.buffered_len(), 0);
}

#[test]
fn lifo_pull_ordering() {
    let mut ev = engine();
    ev.add_binding(EventType::Focused, first);
    ev.add_binding(EventType::UnFocused, second);
    ev.add_binding(EventType::Refresh, third);
    ev.fill_buffer(vec![RawEvent::Focused(true), RawEvent::Focused(false), RawEvent::Refresh]);
    assert_eq!(ev.buffered_len(), 3);
    assert_eq!(ev.next(Vec::new()), Some(AppEvent::Third((0.0, 0.0), None)));
    assert_eq!(ev.next(Vec::new()), Some(AppEvent::Second((0.0, 0.0), None)));
    assert_eq!(ev.next(Vec::new()), Some(AppEvent::First((0.0, 0.0), None)));
    assert_eq!(ev.next(Vec::new()), None);
}

#[test]
fn next_runs_one_pass_when_buffer_is_empty() {
    let mut ev = engine();
    ev.add_binding(EventType::Refresh, first);
    let got = ev.next(vec![RawEvent::Refresh, RawEvent::Refresh]);
    assert_eq!(got, Some(AppEvent::First((0.0, 0.0), None)));
    assert_eq!(ev.buffered_len(), 1);
}

#[test]
fn scenario_left_plain_then_right_shifted() {
    let mut ev = engine();
    ev.add_binding(EventType::MousePress(MouseButton::Left, no_mods()), first);
    ev.add_binding_modifier_ignorant(EventType::MousePress(MouseButton::Right, no_mods()), second);
    ev.fill_buffer(vec![
        left_press(no_mods()),
        RawEvent::MouseInput { pressed: true, button: MouseButton::Right, modifiers: shift_only() },
    ]);
    assert_eq!(ev.buffered_len(), 2);
    assert_eq!(ev.next(Vec::new()), Some(AppEvent::Second((0.0, 0.0), None)));
    assert_eq!(ev.next(Vec::new()), Some(AppEvent::First((0.0, 0.0), None)));
    assert_eq!(ev.next(Vec::new()), None);
}

#[test]
fn key_event_consults_symbolic_and_scan_code_bindings() {
    let mut ev = engine();
    ev.add_binding(EventType::KeyPress(Key::A, no_mods()), first);
    ev.add_binding(EventType::ScanCodePress(30, no_mods()), second);
    ev.dispatch(RawEvent::KeyboardInput {
        pressed: true,
        scancode: 30,
        key: Some(Key::A),
        modifiers: no_mods(),
    });
    assert_eq!(ev.buffered_len(), 2);
    assert_eq!(ev.next(Vec::new()), Some(AppEvent::Second((0.0, 0.0), None)));
    assert_eq!(ev.next(Vec::new()), Some(AppEvent::First((0.0, 0.0), None)));
}

#[test]
fn key_event_without_symbolic_key_still_hits_scan_code() {
    let mut ev = engine();
    ev.add_binding(EventType::KeyPress(Key::A, no_mods()), first);
    ev.add_binding(EventType::ScanCodeRelease(57, no_mods()), second);
    ev.dispatch(RawEvent::KeyboardInput {
        pressed: false,
        scancode: 57,
        key: None,
        modifiers: no_mods(),
    });
    assert_eq!(ev.buffered_len(), 1);
    assert_eq!(ev.next(Vec::new()), Some(AppEvent::Second((0.0, 0.0), None)));
}

#[test]
fn resized_and_moved_share_the_resized_descriptor() {
    let mut ev = engine();
    ev.add_binding(EventType::WindowResized, first);
    ev.dispatch(RawEvent::Resized((800.0, 600.0)));
    ev.dispatch(RawEvent::Moved((15.0, 25.0)));
    assert_eq!(ev.buffered_len(), 2);
    assert_eq!(ev.next(Vec::new()), Some(AppEvent::First((15.0, 25.0), None)));
    assert_eq!(ev.next(Vec::new()), Some(AppEvent::First((800.0, 600.0), None)));
}

#[test]
fn close_requested_and_destroyed_share_the_closed_descriptor() {
    let mut ev = engine();
    ev.add_binding(EventType::Closed, first);
    ev.dispatch(RawEvent::CloseRequested);
    ev.dispatch(RawEvent::Destroyed);
    assert_eq!(ev.buffered_len(), 2);
}

#[test]
fn dropped_file_carries_the_path_hovered_does_not() {
    let mut ev = engine();
    ev.add_binding(EventType::DroppedFile, first);
    ev.add_binding(EventType::HoveredFile, second);
    ev.dispatch(RawEvent::DroppedFile(String::from("notes.txt")));
    ev.dispatch(RawEvent::HoveredFile(String::from("ignored.txt")));
    assert_eq!(ev.next(Vec::new()), Some(AppEvent::Second((0.0, 0.0), None)));
    assert_eq!(
        ev.next(Vec::new()),
        Some(AppEvent::First((0.0, 0.0), Some(String::from("notes.txt"))))
    );
}

#[test]
fn cursor_and_wheel_positions_reach_the_constructor() {
    let mut ev = engine();
    ev.add_binding(EventType::MouseMoved, first);
    ev.add_binding(EventType::MouseWheel, second);
    ev.add_binding(EventType::MouseEntered, third);
    ev.dispatch(RawEvent::CursorMoved((3.5, 4.5)));
    ev.dispatch(RawEvent::MouseWheel((0.0, -1.0)));
    ev.dispatch(RawEvent::CursorEntered);
    assert_eq!(ev.next(Vec::new()), Some(AppEvent::Third((0.0, 0.0), None)));
    assert_eq!(ev.next(Vec::new()), Some(AppEvent::Second((0.0, -1.0), None)));
    assert_eq!(ev.next(Vec::new()), Some(AppEvent::First((3.5, 4.5), None)));
}

#[test]
fn focus_events_use_distinct_descriptors() {
    let mut ev = engine();
    ev.add_binding(EventType::Focused, first);
    ev.add_binding(EventType::UnFocused, second);
    ev.dispatch(RawEvent::Focused(false));
    assert_eq!(ev.next(Vec::new()), Some(AppEvent::Second((0.0, 0.0), None)));
    ev.dispatch(RawEvent::Focused(true));
    assert_eq!(ev.next(Vec::new()), Some(AppEvent::First((0.0, 0.0), None)));
}

#[test]
fn character_recording_toggle() {
    let mut ev = engine();
    ev.dispatch(RawEvent::ReceivedCharacter('x'));
    ev.start_recording_chars();
    ev.dispatch(RawEvent::ReceivedCharacter('a'));
    ev.dispatch(RawEvent::ReceivedCharacter('b'));
    assert_eq!(ev.char_buf(), Some(vec!['a', 'b']));
    assert_eq!(ev.char_buf(), Some(Vec::new()));
    ev.dispatch(RawEvent::ReceivedCharacter('c'));
    ev.stop_recording_chars();
    ev.dispatch(RawEvent::ReceivedCharacter('d'));
    ev.start_recording_chars();
    assert_eq!(ev.char_buf(), Some(Vec::new()));
}

#[test]
fn char_buf_while_inactive_returns_nothing_and_activates_recording() {
    let mut ev = engine();
    assert_eq!(ev.char_buf(), None);
    ev.dispatch(RawEvent::ReceivedCharacter('a'));
    assert_eq!(ev.char_buf(), Some(vec!['a']));
}

#[test]
fn start_recording_twice_keeps_the_buffer() {
    let mut ev = engine();
    ev.start_recording_chars();
    ev.dispatch(RawEvent::ReceivedCharacter('a'));
    ev.start_recording_chars();
    assert_eq!(ev.char_buf(), Some(vec!['a']));
}

#[test]
fn characters_do_not_touch_the_event_buffer() {
    let mut ev = engine();
    ev.add_binding(EventType::Refresh, first);
    ev.start_recording_chars();
    ev.dispatch(RawEvent::ReceivedCharacter('a'));
    assert_eq!(ev.buffered_len(), 0);
    ev.dispatch(RawEvent::Refresh);
    ev.dispatch(RawEvent::ReceivedCharacter('b'));
    assert_eq!(ev.buffered_len(), 1);
    assert_eq!(ev.char_buf(), Some(vec!['a', 'b']));
}

#[test]
fn ignored_raw_events_produce_nothing() {
    let mut ev = engine();
    ev.add_binding(EventType::Refresh, first);
    ev.dispatch(RawEvent::Ignored);
    ev.dispatch(RawEvent::HoveredFileCancelled);
    assert_eq!(ev.buffered_len(), 0);
}
