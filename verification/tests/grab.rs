use mouse_actions::config::Config;
use mouse_actions::event::{
    ButtonState, ClickEvent, Edge, Key, KeyboardModifier, MouseButton, PressState, Screen,
};
use mouse_actions::geometry::Angle;
use mouse_actions::grab::{
    grab_event_fn, GrabContext, InputEvent, Outcome, Propagation, TAP_THRESHOLD,
};
use mouse_actions::point::{Point, PointHistory};

fn p(x: i32, y: i32) -> Point {
    Point { x, y }
}

fn config() -> Config {
    Config { shape_button: MouseButton::Right, bindings: vec![] }
}

fn screen() -> Screen {
    Screen { width: 1920, height: 1080, margin: 0 }
}

fn step(context: &mut GrabContext, event: InputEvent) -> Outcome {
    grab_event_fn(event, context, &config(), &screen())
}

fn click(outcome: Outcome) -> ClickEvent {
    outcome.click_event.expect("the step asks the resolver")
}

#[test]
fn context_starts_at_rest() {
    let c = GrabContext::new(true);
    assert!(c.point_history.is_empty());
    assert_eq!(c.point_history.capacity(), 1024);
    assert_eq!(c.button_state, ButtonState::Idle);
    assert_eq!(KeyboardModifier::from_keyboard_state(c.keyboard_state), vec![]);
    assert_eq!(c.last_point, p(0, 0));
    assert!(c.no_listen);
    assert!(!GrabContext::new(false).no_listen);
}

#[test]
fn gesture_with_the_shape_button() {
    let mut c = GrabContext::new(true);
    let o = step(&mut c, InputEvent::MouseMove { x: 10, y: 10 });
    assert!(o.click_event.is_none());
    assert_eq!(o.propagation, Propagation::Always);
    assert!(c.point_history.is_empty());

    let o = step(&mut c, InputEvent::ButtonPress(MouseButton::Right));
    assert_eq!(o.propagation, Propagation::Never);
    assert!(!o.point_dropped);
    assert_eq!(c.button_state, ButtonState::Pressed(MouseButton::Right));
    assert_eq!(c.point_history.to_vec(), vec![p(10, 10)]);
    let press = click(o);
    assert_eq!(press.button, MouseButton::Right);
    assert_eq!(press.event_type, PressState::Press);
    assert!(press.shape_angles.is_empty());
    assert!(press.shape_xy.is_empty());

    let o = step(&mut c, InputEvent::MouseMove { x: 20, y: 10 });
    assert!(o.click_event.is_none());
    assert_eq!(o.propagation, Propagation::Always);
    let o = step(&mut c, InputEvent::MouseMove { x: 20, y: 20 });
    assert!(o.click_event.is_none());
    assert_eq!(c.point_history.to_vec(), vec![p(10, 10), p(20, 10), p(20, 20)]);

    let o = step(&mut c, InputEvent::ButtonRelease(MouseButton::Right));
    assert_eq!(o.propagation, Propagation::AsResolved);
    let release = click(o);
    assert_eq!(release.button, MouseButton::Right);
    assert_eq!(release.event_type, PressState::Release);
    assert_eq!(release.shape_xy.to_vec(), vec![p(10, 10), p(20, 10), p(20, 20)]);
    assert_eq!(release.shape_angles.len(), 2);
    assert_eq!(
        release.shape_angles,
        vec![Angle { dx: 10, dy: 0 }, Angle { dx: 0, dy: 10 }]
    );
    assert!(release.edges.is_empty());
    assert!(release.modifiers.is_empty());
    assert!(c.point_history.is_empty());
    assert_eq!(c.button_state, ButtonState::Idle);
}

#[test]
fn click_with_another_button() {
    let mut c = GrabContext::new(true);
    step(&mut c, InputEvent::MouseMove { x: 5, y: 5 });

    let o = step(&mut c, InputEvent::ButtonPress(MouseButton::Left));
    assert_eq!(o.propagation, Propagation::AsResolved);
    assert!(!o.point_dropped);
    let press = click(o);
    assert_eq!(press.button, MouseButton::Left);
    assert_eq!(press.event_type, PressState::Press);
    assert!(press.shape_angles.is_empty());
    assert!(press.shape_xy.is_empty());
    assert_eq!(press.edges, Edge::edges_from_pos(5, 5, &screen()));
    assert!(press.modifiers.is_empty());
    assert_eq!(c.button_state, ButtonState::Pressed(MouseButton::Left));
    assert!(c.point_history.is_empty());

    let o = step(&mut c, InputEvent::ButtonRelease(MouseButton::Left));
    assert_eq!(o.propagation, Propagation::AsResolved);
    let release = click(o);
    assert_eq!(release.button, MouseButton::Left);
    assert_eq!(release.event_type, PressState::Release);
    assert!(release.shape_angles.is_empty());
    assert!(release.shape_xy.is_empty());
    assert_eq!(release.edges, Edge::edges_from_pos(5, 5, &screen()));
    assert!(release.modifiers.is_empty());
    assert_eq!(c.button_state, ButtonState::Idle);
}

#[test]
fn edges_come_from_the_last_position_not_the_trace() {
    let mut c = GrabContext::new(true);
    step(&mut c, InputEvent::MouseMove { x: 500, y: 500 });
    step(&mut c, InputEvent::ButtonPress(MouseButton::Right));
    step(&mut c, InputEvent::MouseMove { x: 300, y: 200 });
    step(&mut c, InputEvent::MouseMove { x: 0, y: 0 });
    let release = click(step(&mut c, InputEvent::ButtonRelease(MouseButton::Right)));
    assert_eq!(release.edges, vec![Edge::Top, Edge::Left]);
    assert_eq!(release.shape_xy.to_vec(), vec![p(500, 500), p(300, 200), p(0, 0)]);
}

#[test]
fn history_holds_exactly_its_capacity() {
    let n: usize = 7;
    let mut c = GrabContext::new(true);
    c.point_history = PointHistory::with_capacity(n);
    c.button_state = ButtonState::Pressed(MouseButton::Right);
    for i in 0..(n as i32 + 5) {
        let o = step(&mut c, InputEvent::MouseMove { x: i, y: 2 * i });
        assert_eq!(o.point_dropped, i as usize >= n);
        assert_eq!(o.propagation, Propagation::Always);
        assert!(o.click_event.is_none());
    }
    assert_eq!(c.point_history.len(), n);
    let expected: Vec<Point> = (0..n as i32).map(|i| p(i, 2 * i)).collect();
    assert_eq!(c.point_history.to_vec(), expected);
    assert_eq!(c.last_point, p(11, 22));
}

#[test]
fn press_of_the_shape_button_on_a_full_history_drops_the_point() {
    let mut c = GrabContext::new(true);
    c.point_history = PointHistory::with_capacity(1);
    step(&mut c, InputEvent::ButtonPress(MouseButton::Right));
    assert_eq!(c.point_history.len(), 1);
    let o = step(&mut c, InputEvent::ButtonPress(MouseButton::Right));
    assert!(o.point_dropped);
    assert_eq!(o.propagation, Propagation::Never);
    assert!(o.click_event.is_some());
    assert_eq!(c.point_history.len(), 1);
}

#[test]
fn moves_without_the_shape_button_record_nothing() {
    let mut c = GrabContext::new(true);
    step(&mut c, InputEvent::MouseMove { x: 1, y: 1 });
    step(&mut c, InputEvent::ButtonPress(MouseButton::Left));
    step(&mut c, InputEvent::MouseMove { x: 2, y: 2 });
    step(&mut c, InputEvent::MouseMove { x: 3, y: 3 });
    assert!(c.point_history.is_empty());
    assert_eq!(c.last_point, p(3, 3));
}

#[test]
fn moves_with_an_independent_tracker_keep_the_position() {
    let mut c = GrabContext::new(false);
    c.last_point = p(40, 50);
    step(&mut c, InputEvent::ButtonPress(MouseButton::Right));
    step(&mut c, InputEvent::MouseMove { x: 1, y: 1 });
    assert_eq!(c.last_point, p(40, 50));
    c.last_point = p(41, 51);
    step(&mut c, InputEvent::MouseMove { x: 2, y: 2 });
    assert_eq!(c.point_history.to_vec(), vec![p(40, 50), p(40, 50), p(41, 51)]);
}

#[test]
fn last_press_wins_and_stops_recording() {
    let mut c = GrabContext::new(true);
    step(&mut c, InputEvent::ButtonPress(MouseButton::Right));
    step(&mut c, InputEvent::MouseMove { x: 1, y: 0 });
    let o = step(&mut c, InputEvent::ButtonPress(MouseButton::Left));
    assert_eq!(o.propagation, Propagation::AsResolved);
    assert_eq!(c.button_state, ButtonState::Pressed(MouseButton::Left));
    assert_eq!(c.point_history.to_vec(), vec![p(0, 0), p(1, 0)]);
    step(&mut c, InputEvent::MouseMove { x: 2, y: 0 });
    assert_eq!(c.point_history.to_vec(), vec![p(0, 0), p(1, 0)]);
    let release = click(step(&mut c, InputEvent::ButtonRelease(MouseButton::Left)));
    assert_eq!(release.shape_xy.to_vec(), vec![p(0, 0), p(1, 0)]);
    assert_eq!(release.shape_angles, vec![Angle { dx: 1, dy: 0 }]);
    assert!(c.point_history.is_empty());
    assert_eq!(c.button_state, ButtonState::Idle);
}

#[test]
fn press_of_the_shape_button_is_a_click_only_while_the_history_is_short() {
    let mut c = GrabContext::new(true);
    for i in 0..TAP_THRESHOLD {
        let o = step(&mut c, InputEvent::ButtonPress(MouseButton::Right));
        assert_eq!(o.propagation, Propagation::Never);
        assert_eq!(c.point_history.len(), i + 1);
        assert_eq!(o.click_event.is_some(), i + 1 < TAP_THRESHOLD);
    }
    assert_eq!(TAP_THRESHOLD, 10);
    let o = step(&mut c, InputEvent::ButtonPress(MouseButton::Right));
    assert!(o.click_event.is_none());
    assert_eq!(c.point_history.len(), 11);
}

#[test]
fn release_without_a_gesture_has_no_shape() {
    let mut c = GrabContext::new(true);
    let release = click(step(&mut c, InputEvent::ButtonRelease(MouseButton::Middle)));
    assert_eq!(release.button, MouseButton::Middle);
    assert_eq!(release.event_type, PressState::Release);
    assert!(release.shape_angles.is_empty());
    assert!(release.shape_xy.is_empty());
    assert_eq!(c.button_state, ButtonState::Idle);
}

#[test]
fn wheel_is_a_release_click_of_a_pseudo_button() {
    let mut c = GrabContext::new(true);
    step(&mut c, InputEvent::ButtonPress(MouseButton::Right));
    step(&mut c, InputEvent::MouseMove { x: 1919, y: 7 });
    let o = step(&mut c, InputEvent::Wheel { delta_x: 0, delta_y: 1 });
    assert_eq!(o.propagation, Propagation::AsResolved);
    let up = click(o);
    assert_eq!(up.button, MouseButton::WheelUp);
    assert_eq!(up.event_type, PressState::Release);
    assert!(up.shape_angles.is_empty());
    assert!(up.shape_xy.is_empty());
    assert_eq!(up.edges, vec![Edge::Right]);
    let down = click(step(&mut c, InputEvent::Wheel { delta_x: 3, delta_y: -2 }));
    assert_eq!(down.button, MouseButton::WheelDown);
    // The wheel leaves the gesture in progress as it is.
    assert_eq!(c.button_state, ButtonState::Pressed(MouseButton::Right));
    assert_eq!(c.point_history.to_vec(), vec![p(0, 0), p(1919, 7)]);
}

#[test]
fn keys_update_the_modifiers_and_always_go_on() {
    let mut c = GrabContext::new(true);
    let o = step(&mut c, InputEvent::KeyPress(Key::Modifier(KeyboardModifier::ControlLeft)));
    assert_eq!(o.propagation, Propagation::Always);
    assert!(o.click_event.is_none());
    assert!(c.keyboard_state.control_left);
    step(&mut c, InputEvent::KeyPress(Key::Modifier(KeyboardModifier::ShiftLeft)));
    step(&mut c, InputEvent::KeyPress(Key::Other));
    let press = click(step(&mut c, InputEvent::ButtonPress(MouseButton::Left)));
    assert_eq!(
        press.modifiers,
        vec![KeyboardModifier::ShiftLeft, KeyboardModifier::ControlLeft]
    );
    let o = step(&mut c, InputEvent::KeyRelease(Key::Modifier(KeyboardModifier::ControlLeft)));
    assert_eq!(o.propagation, Propagation::Always);
    assert!(o.click_event.is_none());
    let release = click(step(&mut c, InputEvent::ButtonRelease(MouseButton::Left)));
    assert_eq!(release.modifiers, vec![KeyboardModifier::ShiftLeft]);
}

#[test]
fn shape_button_comes_from_the_configuration() {
    let left = Config { shape_button: MouseButton::Left, bindings: vec![] };
    let mut c = GrabContext::new(true);
    let o = grab_event_fn(InputEvent::ButtonPress(MouseButton::Left), &mut c, &left, &screen());
    assert_eq!(o.propagation, Propagation::Never);
    assert_eq!(c.point_history.len(), 1);
    let o = grab_event_fn(InputEvent::ButtonPress(MouseButton::Right), &mut c, &left, &screen());
    assert_eq!(o.propagation, Propagation::AsResolved);
    assert_eq!(c.point_history.len(), 1);
}

#[test]
fn propagation_follows_the_resolver_only_where_asked() {
    assert!(Propagation::Always.decide(true));
    assert!(Propagation::Always.decide(false));
    assert!(!Propagation::Never.decide(true));
    assert!(!Propagation::Never.decide(false));
    assert!(Propagation::AsResolved.decide(true));
    assert!(!Propagation::AsResolved.decide(false));
}
