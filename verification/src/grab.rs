//! The event classifier: one step per raw input event. A step updates the
//! input state and the point history and says what is to be done with the
//! event: whether the resolver is asked about a click, and whether the event
//! goes on to the rest of the system.

use crate::config::Config;
use crate::event::{
    ButtonState, ClickEvent, ClickEventView, Edge, Key, KeyboardModifier, KeyboardState,
    MouseButton, PressState, Screen,
};
use crate::geometry::{angles, points_to_angles, Angle};
use crate::point::{offered, offered_all, Point, PointHistory};
use vstd::prelude::*;

verus! {

/// A press of the shape button is reported as a click of its own only while
/// the history holds fewer points than this.
pub const TAP_THRESHOLD: usize = 10;

/// A raw input event, as far as the classifier reads it.
#[derive(Clone, Copy, Debug, PartialEq, Eq, Structural)]
pub enum InputEvent {
    /// The pointer moved to `(x, y)`.
    MouseMove { x: i32, y: i32 },
    ButtonPress(MouseButton),
    ButtonRelease(MouseButton),
    /// The wheel turned; a positive `delta_y` scrolls up.
    Wheel { delta_x: i64, delta_y: i64 },
    KeyPress(Key),
    KeyRelease(Key),
}

/// What the classifier carries from one event to the next.
#[derive(Debug)]
pub struct GrabContext {
    /// The points of the gesture in progress.
    pub point_history: PointHistory,
    pub button_state: ButtonState,
    pub keyboard_state: KeyboardState,
    /// The last known position of the pointer.
    pub last_point: Point,
    /// Whether the pointer is followed through the move events themselves.
    /// Where it is not, an independent tracker keeps `last_point`.
    pub no_listen: bool,
}

/// The state of the classifier, as plain values.
pub struct GrabState {
    pub history: Seq<Point>,
    pub capacity: nat,
    pub button_state: ButtonState,
    pub keyboard_state: KeyboardState,
    pub last_point: Point,
    pub no_listen: bool,
}

impl View for GrabContext {
    type V = GrabState;

    open spec fn view(&self) -> GrabState {
        GrabState {
            history: self.point_history@,
            capacity: self.point_history.spec_capacity() as nat,
            button_state: self.button_state,
            keyboard_state: self.keyboard_state,
            last_point: self.last_point,
            no_listen: self.no_listen,
        }
    }
}

/// Whether an event goes on to the rest of the system.
#[derive(Clone, Copy, Debug, PartialEq, Eq, Structural)]
pub enum Propagation {
    /// It goes on, whatever the resolver says.
    Always,
    /// It is held back, whatever the resolver says.
    Never,
    /// It goes on exactly if the resolver allows it.
    AsResolved,
}

impl Propagation {
    /// Whether the event goes on, given the resolver's answer.
    pub open spec fn spec_decide(self, resolver_allows: bool) -> bool {
        match self {
            Propagation::Always => true,
            Propagation::Never => false,
            Propagation::AsResolved => resolver_allows,
        }
    }

    /// Whether the event goes on, given the resolver's answer.
    #[verifier::when_used_as_spec(spec_decide)]
    pub fn decide(self, resolver_allows: bool) -> (goes_on: bool)
        ensures
            goes_on == self.spec_decide(resolver_allows),
    {
        match self {
            Propagation::Always => true,
            Propagation::Never => false,
            Propagation::AsResolved => resolver_allows,
        }
    }
}

/// What a step asks of its caller.
#[derive(Debug)]
pub struct Outcome {
    /// The click to ask the resolver about, if any.
    pub click_event: Option<ClickEvent>,
    /// Whether the event goes on to the rest of the system.
    pub propagation: Propagation,
    /// Whether a point was refused because the history was full.
    pub point_dropped: bool,
}

/// What a step asks of its caller, as plain values.
pub struct OutcomeView {
    pub click_event: Option<ClickEventView>,
    pub propagation: Propagation,
    pub point_dropped: bool,
}

impl View for Outcome {
    type V = OutcomeView;

    open spec fn view(&self) -> OutcomeView {
        OutcomeView {
            click_event: match self.click_event {
                Some(click) => Some(click@),
                None => None,
            },
            propagation: self.propagation,
            point_dropped: self.point_dropped,
        }
    }
}

impl GrabState {
    /// Whether a shape is being drawn: the shape button is the held one.
    pub open spec fn is_drawing(self, shape_button: MouseButton) -> bool {
        self.button_state == ButtonState::Pressed(shape_button)
    }

    /// The position of the pointer once `event` is taken in: a move sets it
    /// where the pointer is followed through the events, and nothing else
    /// does.
    pub open spec fn position_after(self, event: InputEvent) -> Point {
        match event {
            InputEvent::MouseMove { x, y } => if self.no_listen {
                Point { x, y }
            } else {
                self.last_point
            },
            _ => self.last_point,
        }
    }

    /// The state after `event`.
    pub open spec fn after(self, shape_button: MouseButton, event: InputEvent) -> GrabState {
        match event {
            InputEvent::MouseMove { .. } => GrabState {
                last_point: self.position_after(event),
                history: if self.is_drawing(shape_button) {
                    offered(self.history, self.capacity, self.position_after(event))
                } else {
                    self.history
                },
                ..self
            },
            InputEvent::ButtonPress(button) => GrabState {
                button_state: self.button_state.recorded(button, true),
                history: if button == shape_button {
                    offered(self.history, self.capacity, self.last_point)
                } else {
                    self.history
                },
                ..self
            },
            InputEvent::ButtonRelease(button) => GrabState {
                button_state: self.button_state.recorded(button, false),
                history: Seq::empty(),
                ..self
            },
            InputEvent::Wheel { .. } => self,
            InputEvent::KeyPress(key) => GrabState {
                keyboard_state: self.keyboard_state.recorded(key, true),
                ..self
            },
            InputEvent::KeyRelease(key) => GrabState {
                keyboard_state: self.keyboard_state.recorded(key, false),
                ..self
            },
        }
    }

    /// A click of `button` in phase `event_type` as the state classifies it:
    /// the edges of the last known position, the held modifiers, and the
    /// given signature and trace.
    pub open spec fn click(
        self,
        screen: Screen,
        button: MouseButton,
        event_type: PressState,
        shape_angles: Seq<Angle>,
        shape_xy: Seq<Point>,
    ) -> ClickEventView {
        ClickEventView {
            button,
            edges: Edge::edges_at(screen, self.last_point.x as int, self.last_point.y as int),
            modifiers: KeyboardModifier::held_in(self.keyboard_state),
            event_type,
            shape_angles,
            shape_xy,
        }
    }

    /// The click that the resolver is asked about on `event`, if any.
    ///
    /// A press gives a press click with no shape; the press of the shape
    /// button only while the history, the press included, is short of
    /// `TAP_THRESHOLD` points. A release gives a release click with the
    /// recorded trace and its signature. A wheel movement gives a release
    /// click of the wheel's pseudo-button with no shape. Nothing else gives
    /// a click.
    pub open spec fn click_on(
        self,
        shape_button: MouseButton,
        screen: Screen,
        event: InputEvent,
    ) -> Option<ClickEventView> {
        match event {
            InputEvent::ButtonPress(button) => if button == shape_button && self.after(
                shape_button,
                event,
            ).history.len() >= TAP_THRESHOLD {
                None
            } else {
                Some(self.click(screen, button, PressState::Press, Seq::empty(), Seq::empty()))
            },
            InputEvent::ButtonRelease(button) => Some(
                self.click(
                    screen,
                    button,
                    PressState::Release,
                    angles(self.history),
                    self.history,
                ),
            ),
            InputEvent::Wheel { delta_x, delta_y } => Some(
                self.click(
                    screen,
                    MouseButton::from_wheel(delta_y),
                    PressState::Release,
                    Seq::empty(),
                    Seq::empty(),
                ),
            ),
            _ => None,
        }
    }

    /// Whether `event` offers a point to a history that is full.
    pub open spec fn drops_point(self, shape_button: MouseButton, event: InputEvent) -> bool {
        let offers = match event {
            InputEvent::MouseMove { .. } => self.is_drawing(shape_button),
            InputEvent::ButtonPress(button) => button == shape_button,
            _ => false,
        };
        offers && self.history.len() >= self.capacity
    }

    /// What the step on `event` asks of its caller.
    pub open spec fn outcome_of(
        self,
        shape_button: MouseButton,
        screen: Screen,
        event: InputEvent,
    ) -> OutcomeView {
        OutcomeView {
            click_event: self.click_on(shape_button, screen, event),
            propagation: propagation_of(shape_button, event),
            point_dropped: self.drops_point(shape_button, event),
        }
    }

    /// The state after every event of `events`, first to last.
    pub open spec fn after_all(
        self,
        shape_button: MouseButton,
        events: Seq<InputEvent>,
    ) -> GrabState
        decreases events.len(),
    {
        if events.len() == 0 {
            self
        } else {
            self.after_all(shape_button, events.drop_last()).after(shape_button, events.last())
        }
    }
}

/// Whether `event` goes on to the rest of the system: moves and keys always
/// do, a press of the shape button never does, and every other press, every
/// release and every wheel movement does exactly if the resolver allows it.
pub open spec fn propagation_of(shape_button: MouseButton, event: InputEvent) -> Propagation {
    match event {
        InputEvent::MouseMove { .. } => Propagation::Always,
        InputEvent::KeyPress(_) => Propagation::Always,
        InputEvent::KeyRelease(_) => Propagation::Always,
        InputEvent::ButtonPress(button) => if button == shape_button {
            Propagation::Never
        } else {
            Propagation::AsResolved
        },
        InputEvent::ButtonRelease(_) => Propagation::AsResolved,
        InputEvent::Wheel { .. } => Propagation::AsResolved,
    }
}

impl GrabContext {
    /// The context at start: an empty history of the default capacity, no
    /// button and no modifier held, the pointer at the origin.
    pub fn new(no_listen: bool) -> (context: GrabContext)
        ensures
            context@.history == Seq::<Point>::empty(),
            context@.capacity == crate::point::DEFAULT_CAPACITY,
            context@.button_state == ButtonState::Idle,
            forall|m: KeyboardModifier| !context@.keyboard_state.is_held(m),
            context@.last_point == (Point { x: 0, y: 0 }),
            context@.no_listen == no_listen,
    {
        GrabContext {
            point_history: PointHistory::new(),
            button_state: ButtonState::Idle,
            keyboard_state: KeyboardState::default(),
            last_point: Point { x: 0, y: 0 },
            no_listen,
        }
    }

    /// Classifies a click of `button` at the last known position with the
    /// modifiers now held.
    fn classify(
        &self,
        screen: &Screen,
        button: MouseButton,
        event_type: PressState,
        shape_angles: Vec<Angle>,
        shape_xy: PointHistory,
    ) -> (click: ClickEvent)
        ensures
            click@ == self@.click(*screen, button, event_type, shape_angles@, shape_xy@),
    {
        ClickEvent {
            button,
            edges: Edge::edges_from_pos(self.last_point.x, self.last_point.y, screen),
            modifiers: KeyboardModifier::from_keyboard_state(self.keyboard_state),
            event_type,
            shape_angles,
            shape_xy,
        }
    }
}

/// Takes one raw input event in. The context moves to the state after the
/// event, and the outcome says which click, if any, the resolver is to be
/// asked about and whether the event goes on to the rest of the system. The
/// configuration is only read.
///
/// The step itself never asks the resolver: the caller does, once it has
/// let go of the context, and hands the answer to `Propagation::decide`.
pub fn grab_event_fn(
    event: InputEvent,
    context: &mut GrabContext,
    config: &Config,
    screen: &Screen,
) -> (outcome: Outcome)
    ensures
        final(context)@ == old(context)@.after(config.shape_button, event),
        outcome@ == old(context)@.outcome_of(config.shape_button, *screen, event),
{
    let shape_button = config.shape_button;
    match event {
        InputEvent::MouseMove { x, y } => {
            if context.no_listen {
                context.last_point.set(x, y);
            }
            let mut point_dropped = false;
            if context.button_state.is_pressed(shape_button) {
                let stored = context.point_history.push(context.last_point);
                point_dropped = !stored;
            }
            Outcome { click_event: None, propagation: Propagation::Always, point_dropped }
        },
        InputEvent::ButtonPress(button) => {
            context.button_state.record_button(button, true);
            let click = context.classify(
                screen,
                button,
                PressState::Press,
                Vec::new(),
                PointHistory::new(),
            );
            if button == shape_button {
                let stored = context.point_history.push(context.last_point);
                let click_event = if context.point_history.len() < TAP_THRESHOLD {
                    Some(click)
                } else {
                    None
                };
                Outcome { click_event, propagation: Propagation::Never, point_dropped: !stored }
            } else {
                Outcome {
                    click_event: Some(click),
                    propagation: Propagation::AsResolved,
                    point_dropped: false,
                }
            }
        },
        InputEvent::ButtonRelease(button) => {
            let signature = points_to_angles(&context.point_history);
            let trace = context.point_history.clone();
            let click = context.classify(screen, button, PressState::Release, signature, trace);
            context.point_history.clear();
            context.button_state.record_button(button, false);
            Outcome {
                click_event: Some(click),
                propagation: Propagation::AsResolved,
                point_dropped: false,
            }
        },
        InputEvent::Wheel { delta_x, delta_y } => {
            let click = context.classify(
                screen,
                MouseButton::from_wheel(delta_y),
                PressState::Release,
                Vec::new(),
                PointHistory::new(),
            );
            Outcome {
                click_event: Some(click),
                propagation: Propagation::AsResolved,
                point_dropped: false,
            }
        },
        InputEvent::KeyPress(key) => {
            context.keyboard_state.record_key(key, true);
            Outcome { click_event: None, propagation: Propagation::Always, point_dropped: false }
        },
        InputEvent::KeyRelease(key) => {
            context.keyboard_state.record_key(key, false);
            Outcome { click_event: None, propagation: Propagation::Always, point_dropped: false }
        },
    }
}

/// The move events that take the pointer through `positions`, in order.
pub open spec fn moves_through(positions: Seq<Point>) -> Seq<InputEvent> {
    Seq::new(
        positions.len(),
        |i: int| InputEvent::MouseMove { x: positions[i].x, y: positions[i].y },
    )
}

/// Whatever events come in, the history stays within its capacity, and the
/// capacity and the way the pointer is followed stay as they were.
pub proof fn lemma_history_stays_bounded(
    state: GrabState,
    shape_button: MouseButton,
    events: Seq<InputEvent>,
)
    requires
        state.history.len() <= state.capacity,
    ensures
        state.after_all(shape_button, events).history.len() <= state.capacity,
        state.after_all(shape_button, events).capacity == state.capacity,
        state.after_all(shape_button, events).no_listen == state.no_listen,
    decreases events.len(),
{
    if events.len() > 0 {
        lemma_history_stays_bounded(state, shape_button, events.drop_last());
    }
}

/// While a shape is drawn and the pointer is followed through the events,
/// moving the pointer through some positions offers each of them to the
/// history in turn: the history then holds what it held, followed by the
/// positions, cut off at the capacity. Positions beyond the capacity change
/// nothing, and the shape button stays the held one.
pub proof fn lemma_moves_fill_history(
    state: GrabState,
    shape_button: MouseButton,
    positions: Seq<Point>,
)
    requires
        state.is_drawing(shape_button),
        state.no_listen,
        state.history.len() <= state.capacity,
    ensures
        state.after_all(shape_button, moves_through(positions)).history == offered_all(
            state.history,
            state.capacity,
            positions,
        ),
        state.after_all(shape_button, moves_through(positions)).history == (state.history
            + positions).take(
            if state.history.len() + positions.len() <= state.capacity {
                (state.history.len() + positions.len()) as int
            } else {
                state.capacity as int
            },
        ),
        state.after_all(shape_button, moves_through(positions)).is_drawing(shape_button),
        state.after_all(shape_button, moves_through(positions)).no_listen,
        state.after_all(shape_button, moves_through(positions)).capacity == state.capacity,
    decreases positions.len(),
{
    crate::point::lemma_offered_all_is_prefix(state.history, state.capacity, positions);
    if positions.len() > 0 {
        let init = positions.drop_last();
        lemma_moves_fill_history(state, shape_button, init);
        assert(moves_through(positions).drop_last() == moves_through(init));
        assert(moves_through(positions).last() == (InputEvent::MouseMove {
            x: positions.last().x,
            y: positions.last().y,
        }));
    }
}

/// A release of any button, in any state, ends the gesture: no button is
/// held afterwards and the history is empty, and the click handed to the
/// resolver is a release click that carries the whole recorded trace and its
/// signature, which has one angle less than the trace has points.
pub proof fn lemma_release_ends_gesture(
    state: GrabState,
    shape_button: MouseButton,
    screen: Screen,
    button: MouseButton,
)
    ensures
        state.after(shape_button, InputEvent::ButtonRelease(button)).button_state
            == ButtonState::Idle,
        state.after(shape_button, InputEvent::ButtonRelease(button)).history == Seq::<
            Point,
        >::empty(),
        state.click_on(shape_button, screen, InputEvent::ButtonRelease(button)) matches Some(click)
            && click.button == button && click.event_type == PressState::Release && click.shape_xy
            == state.history && click.shape_angles == angles(state.history)
            && click.shape_angles.len() == (if state.history.len() > 0 {
            state.history.len() - 1
        } else {
            0
        }),
{
}

/// A press while another button is held makes the pressed button the held
/// one, and leaves the history as the rules of recording leave it: untouched
/// unless the pressed button is the shape button, in which case the current
/// position is offered to it.
pub proof fn lemma_last_press_wins(
    state: GrabState,
    shape_button: MouseButton,
    button: MouseButton,
)
    ensures
        state.after(shape_button, InputEvent::ButtonPress(button)).button_state
            == ButtonState::Pressed(button),
        button != shape_button ==> state.after(
            shape_button,
            InputEvent::ButtonPress(button),
        ).history == state.history,
        button == shape_button ==> state.after(
            shape_button,
            InputEvent::ButtonPress(button),
        ).history == offered(state.history, state.capacity, state.last_point),
{
}

} // verus!
