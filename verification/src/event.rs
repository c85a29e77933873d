//! The vocabulary of classified input: buttons, modifier keys, screen edges,
//! the two input state trackers and the click event handed to the resolver.

use crate::geometry::Angle;
use crate::point::PointHistory;
use vstd::prelude::*;

verus! {

/// A mouse button, or a wheel direction standing in for one.
#[derive(Clone, Copy, Debug, PartialEq, Eq, Structural)]
pub enum MouseButton {
    Left,
    Right,
    Middle,
    WheelUp,
    WheelDown,
    /// A button the daemon has no name for, by its device code.
    Unknown(u8),
}

impl MouseButton {
    /// The pseudo-button of a vertical wheel movement.
    pub open spec fn spec_from_wheel(delta_y: i64) -> MouseButton {
        if delta_y > 0 {
            MouseButton::WheelUp
        } else {
            MouseButton::WheelDown
        }
    }

    /// The pseudo-button of a wheel movement: scrolling up is `WheelUp`, any
    /// other movement is `WheelDown`.
    #[verifier::when_used_as_spec(spec_from_wheel)]
    pub fn from_wheel(delta_y: i64) -> (b: MouseButton)
        ensures
            b == Self::spec_from_wheel(delta_y),
    {
        if delta_y > 0 {
            MouseButton::WheelUp
        } else {
            MouseButton::WheelDown
        }
    }
}

/// The phase of a click.
#[derive(Clone, Copy, Debug, PartialEq, Eq, Structural)]
pub enum PressState {
    Press,
    Release,
}

/// A modifier key whose state the daemon follows.
#[derive(Clone, Copy, Debug, PartialEq, Eq, Structural)]
pub enum KeyboardModifier {
    ShiftLeft,
    ShiftRight,
    ControlLeft,
    ControlRight,
    MetaLeft,
    Alt,
    AltGr,
}

/// A key of the keyboard, as far as the daemon tells keys apart.
#[derive(Clone, Copy, Debug, PartialEq, Eq, Structural)]
pub enum Key {
    Modifier(KeyboardModifier),
    /// Any key that is no followed modifier.
    Other,
}

/// Which modifier keys are held down.
#[derive(Clone, Copy, Debug, PartialEq, Eq, Structural)]
pub struct KeyboardState {
    pub shift_left: bool,
    pub shift_right: bool,
    pub control_left: bool,
    pub control_right: bool,
    pub meta_left: bool,
    pub alt: bool,
    pub alt_gr: bool,
}

impl Default for KeyboardState {
    /// No modifier is held.
    fn default() -> (s: Self)
        ensures
            forall|m: KeyboardModifier| !s.is_held(m),
    {
        KeyboardState {
            shift_left: false,
            shift_right: false,
            control_left: false,
            control_right: false,
            meta_left: false,
            alt: false,
            alt_gr: false,
        }
    }
}

impl KeyboardState {
    /// Whether `modifier` is held down.
    pub open spec fn is_held(self, modifier: KeyboardModifier) -> bool {
        match modifier {
            KeyboardModifier::ShiftLeft => self.shift_left,
            KeyboardModifier::ShiftRight => self.shift_right,
            KeyboardModifier::ControlLeft => self.control_left,
            KeyboardModifier::ControlRight => self.control_right,
            KeyboardModifier::MetaLeft => self.meta_left,
            KeyboardModifier::Alt => self.alt,
            KeyboardModifier::AltGr => self.alt_gr,
        }
    }

    /// The state after `key` went down (`pressed`) or up: the flag of a
    /// modifier follows its key, every other flag stays, and any other key
    /// changes nothing.
    pub open spec fn recorded(self, key: Key, pressed: bool) -> KeyboardState {
        match key {
            Key::Modifier(KeyboardModifier::ShiftLeft) => KeyboardState { shift_left: pressed, ..self },
            Key::Modifier(KeyboardModifier::ShiftRight) => KeyboardState {
                shift_right: pressed,
                ..self
            },
            Key::Modifier(KeyboardModifier::ControlLeft) => KeyboardState {
                control_left: pressed,
                ..self
            },
            Key::Modifier(KeyboardModifier::ControlRight) => KeyboardState {
                control_right: pressed,
                ..self
            },
            Key::Modifier(KeyboardModifier::MetaLeft) => KeyboardState { meta_left: pressed, ..self },
            Key::Modifier(KeyboardModifier::Alt) => KeyboardState { alt: pressed, ..self },
            Key::Modifier(KeyboardModifier::AltGr) => KeyboardState { alt_gr: pressed, ..self },
            Key::Other => self,
        }
    }

    /// Records that `key` went down (`pressed`) or up.
    pub fn record_key(&mut self, key: Key, pressed: bool)
        ensures
            *final(self) == old(self).recorded(key, pressed),
    {
        match key {
            Key::Modifier(KeyboardModifier::ShiftLeft) => self.shift_left = pressed,
            Key::Modifier(KeyboardModifier::ShiftRight) => self.shift_right = pressed,
            Key::Modifier(KeyboardModifier::ControlLeft) => self.control_left = pressed,
            Key::Modifier(KeyboardModifier::ControlRight) => self.control_right = pressed,
            Key::Modifier(KeyboardModifier::MetaLeft) => self.meta_left = pressed,
            Key::Modifier(KeyboardModifier::Alt) => self.alt = pressed,
            Key::Modifier(KeyboardModifier::AltGr) => self.alt_gr = pressed,
            Key::Other => {},
        }
    }
}

/// Recording a key sets the flag of that key alone: a modifier is held
/// afterwards exactly if it was the key and went down, or was another key's
/// modifier and was held before.
pub proof fn lemma_record_key_touches_one_flag(
    state: KeyboardState,
    key: Key,
    pressed: bool,
    modifier: KeyboardModifier,
)
    ensures
        state.recorded(key, pressed).is_held(modifier) == (if key == Key::Modifier(modifier) {
            pressed
        } else {
            state.is_held(modifier)
        }),
{
}

/// Whether a mouse button is held, and which.
#[derive(Clone, Copy, Debug, PartialEq, Eq, Structural)]
pub enum ButtonState {
    Idle,
    Pressed(MouseButton),
}

impl ButtonState {
    /// The state after `button` went down (`pressed`) or up: a press makes
    /// `button` the held one whatever was held before, a release of any
    /// button leaves none held.
    pub open spec fn recorded(self, button: MouseButton, pressed: bool) -> ButtonState {
        if pressed {
            ButtonState::Pressed(button)
        } else {
            ButtonState::Idle
        }
    }

    /// Records that `button` went down (`pressed`) or up.
    pub fn record_button(&mut self, button: MouseButton, pressed: bool)
        ensures
            *final(self) == old(self).recorded(button, pressed),
    {
        if pressed {
            *self = ButtonState::Pressed(button);
        } else {
            *self = ButtonState::Idle;
        }
    }

    /// Whether `button` is the held one.
    pub fn is_pressed(&self, button: MouseButton) -> (b: bool)
        ensures
            b == (*self == ButtonState::Pressed(button)),
    {
        match *self {
            ButtonState::Pressed(held) => held == button,
            ButtonState::Idle => false,
        }
    }
}

/// The transitions of the button state: from rest a press of `b` holds `b`;
/// a press of `b2` while `b1` is held holds `b2`; a release of any button,
/// from any state, returns to rest.
pub proof fn lemma_button_state_transitions(
    state: ButtonState,
    b1: MouseButton,
    b2: MouseButton,
    any: MouseButton,
)
    ensures
        ButtonState::Idle.recorded(b1, true) == ButtonState::Pressed(b1),
        ButtonState::Pressed(b1).recorded(b2, true) == ButtonState::Pressed(b2),
        ButtonState::Pressed(b1).recorded(any, false) == ButtonState::Idle,
        state.recorded(any, false) == ButtonState::Idle,
        state.recorded(b2, true) == ButtonState::Pressed(b2),
{
}

impl KeyboardModifier {
    /// Every followed modifier, in the order in which held modifiers are
    /// listed.
    pub open spec fn all() -> Seq<KeyboardModifier> {
        seq![
            KeyboardModifier::ShiftLeft,
            KeyboardModifier::ShiftRight,
            KeyboardModifier::ControlLeft,
            KeyboardModifier::ControlRight,
            KeyboardModifier::MetaLeft,
            KeyboardModifier::Alt,
            KeyboardModifier::AltGr,
        ]
    }

    /// The modifiers that `state` holds, in the order of `all`.
    pub open spec fn held_in(state: KeyboardState) -> Seq<KeyboardModifier> {
        Self::all().filter(|m: KeyboardModifier| state.is_held(m))
    }

    /// Lists the modifiers that `state` holds.
    pub fn from_keyboard_state(state: KeyboardState) -> (held: Vec<KeyboardModifier>)
        ensures
            held@ == Self::held_in(state),
    {
        let ghost held_by = |m: KeyboardModifier| state.is_held(m);
        let ghost all = Self::all();
        let mut held: Vec<KeyboardModifier> = Vec::new();
        proof {
            lemma_filter_empty(held_by);
        }
        if state.shift_left {
            held.push(KeyboardModifier::ShiftLeft);
        }
        proof {
            lemma_filter_push(all.take(0), all[0], held_by);
            assert(all.take(1) == all.take(0).push(all[0]));
        }
        if state.shift_right {
            held.push(KeyboardModifier::ShiftRight);
        }
        proof {
            lemma_filter_push(all.take(1), all[1], held_by);
            assert(all.take(2) == all.take(1).push(all[1]));
        }
        if state.control_left {
            held.push(KeyboardModifier::ControlLeft);
        }
        proof {
            lemma_filter_push(all.take(2), all[2], held_by);
            assert(all.take(3) == all.take(2).push(all[2]));
        }
        if state.control_right {
            held.push(KeyboardModifier::ControlRight);
        }
        proof {
            lemma_filter_push(all.take(3), all[3], held_by);
            assert(all.take(4) == all.take(3).push(all[3]));
        }
        if state.meta_left {
            held.push(KeyboardModifier::MetaLeft);
        }
        proof {
            lemma_filter_push(all.take(4), all[4], held_by);
            assert(all.take(5) == all.take(4).push(all[4]));
        }
        if state.alt {
            held.push(KeyboardModifier::Alt);
        }
        proof {
            lemma_filter_push(all.take(5), all[5], held_by);
            assert(all.take(6) == all.take(5).push(all[5]));
        }
        if state.alt_gr {
            held.push(KeyboardModifier::AltGr);
        }
        proof {
            lemma_filter_push(all.take(6), all[6], held_by);
            assert(all.take(7) == all.take(6).push(all[6]));
            assert(all.take(7) == all);
        }
        held
    }
}

/// Filtering the empty sequence leaves it empty.
proof fn lemma_filter_empty<A>(pred: spec_fn(A) -> bool)
    ensures
        Seq::<A>::empty().filter(pred) == Seq::<A>::empty(),
        Seq::<A>::empty().take(0).filter(pred) == Seq::<A>::empty(),
{
    reveal(Seq::filter);
    assert(Seq::<A>::empty().take(0) == Seq::<A>::empty());
}

/// Filtering a sequence with one more item at its end filters that item and
/// leaves the rest as it was filtered before.
proof fn lemma_filter_push<A>(s: Seq<A>, x: A, pred: spec_fn(A) -> bool)
    ensures
        s.push(x).filter(pred) == (if pred(x) {
            s.filter(pred).push(x)
        } else {
            s.filter(pred)
        }),
{
    reveal(Seq::filter);
    assert(s.push(x).drop_last() == s);
}

/// Filtering a sequence without duplicates leaves one without duplicates,
/// holding exactly the items of the sequence that pass the filter.
proof fn lemma_filter_distinct<A>(s: Seq<A>, pred: spec_fn(A) -> bool)
    requires
        s.no_duplicates(),
    ensures
        s.filter(pred).no_duplicates(),
        forall|x: A| #[trigger] s.filter(pred).contains(x) <==> s.contains(x) && pred(x),
    decreases s.len(),
{
    reveal(Seq::filter);
    if s.len() > 0 {
        let init = s.drop_last();
        let last = s.last();
        let kept = init.filter(pred);
        lemma_filter_distinct(init, pred);
        lemma_filter_push(init, last, pred);
        assert(init.push(last) == s);
        assert forall|x: A| s.contains(x) <==> init.contains(x) || x == last by {
            if s.contains(x) {
                let k = choose|k: int| 0 <= k < s.len() && s[k] == x;
                if k < init.len() {
                    assert(init[k] == x);
                }
            }
            if init.contains(x) {
                let k = choose|k: int| 0 <= k < init.len() && init[k] == x;
                assert(s[k] == x);
            }
            assert(s[s.len() - 1] == last);
        }
        if init.contains(last) {
            let k = choose|k: int| 0 <= k < init.len() && init[k] == last;
            assert(s[k] == s[s.len() - 1]);
        }
        if pred(last) {
            let all = kept.push(last);
            assert forall|x: A| #[trigger] all.contains(x) <==> kept.contains(x) || x == last by {
                if all.contains(x) {
                    let k = choose|k: int| 0 <= k < all.len() && all[k] == x;
                    if k < kept.len() {
                        assert(kept[k] == x);
                    }
                }
                if kept.contains(x) {
                    let k = choose|k: int| 0 <= k < kept.len() && kept[k] == x;
                    assert(all[k] == x);
                }
                assert(all[all.len() - 1] == last);
            }
            assert forall|i: int, j: int| 0 <= i < j < all.len() implies all[i] != all[j] by {
                if j == kept.len() {
                    assert(kept[i] == all[i]);
                    assert(kept.contains(all[i]));
                } else {
                    assert(kept[i] == all[i] && kept[j] == all[j]);
                }
            }
        }
    }
}

/// The modifiers listed for a keyboard state are exactly those it holds, each
/// once.
pub proof fn lemma_held_modifiers(state: KeyboardState, modifier: KeyboardModifier)
    ensures
        KeyboardModifier::held_in(state).contains(modifier) == state.is_held(modifier),
        KeyboardModifier::held_in(state).no_duplicates(),
{
    let held_by = |m: KeyboardModifier| state.is_held(m);
    let all = KeyboardModifier::all();
    lemma_filter_distinct(all, held_by);
    let rank: int = match modifier {
        KeyboardModifier::ShiftLeft => 0,
        KeyboardModifier::ShiftRight => 1,
        KeyboardModifier::ControlLeft => 2,
        KeyboardModifier::ControlRight => 3,
        KeyboardModifier::MetaLeft => 4,
        KeyboardModifier::Alt => 5,
        KeyboardModifier::AltGr => 6,
    };
    assert(all[rank] == modifier);
}

/// The edges listed for a position are exactly those it is on, each once.
pub proof fn lemma_edges_of_position(screen: Screen, x: int, y: int, edge: Edge)
    ensures
        Edge::edges_at(screen, x, y).contains(edge) == screen.is_near(edge, x, y),
        Edge::edges_at(screen, x, y).no_duplicates(),
{
    let near = |e: Edge| screen.is_near(e, x, y);
    let all = Edge::all();
    lemma_filter_distinct(all, near);
    let rank: int = match edge {
        Edge::Top => 0,
        Edge::Left => 1,
        Edge::Bottom => 2,
        Edge::Right => 3,
    };
    assert(all[rank] == edge);
}

/// An edge of the screen.
#[derive(Clone, Copy, Debug, PartialEq, Eq, Structural)]
pub enum Edge {
    Top,
    Left,
    Bottom,
    Right,
}

/// The geometry against which edges are told: the size of the display in
/// pixels and how close to a border, in pixels, counts as on the edge.
#[derive(Clone, Copy, Debug, PartialEq, Eq, Structural)]
pub struct Screen {
    pub width: u64,
    pub height: u64,
    pub margin: u64,
}

impl Screen {
    /// Whether the position `(x, y)` is on `edge`: within `margin` pixels of
    /// that border of the display, or beyond it.
    pub open spec fn is_near(self, edge: Edge, x: int, y: int) -> bool {
        match edge {
            Edge::Top => y <= self.margin,
            Edge::Left => x <= self.margin,
            Edge::Bottom => y >= self.height - 1 - self.margin,
            Edge::Right => x >= self.width - 1 - self.margin,
        }
    }

    /// Whether opposite edges lie apart: no position is on both the left and
    /// the right edge, nor on both the top and the bottom edge.
    pub open spec fn has_interior(self) -> bool {
        self.width > 2 * self.margin + 1 && self.height > 2 * self.margin + 1
    }
}

impl Edge {
    /// Every edge, in the order in which the edges of a position are listed.
    pub open spec fn all() -> Seq<Edge> {
        seq![Edge::Top, Edge::Left, Edge::Bottom, Edge::Right]
    }

    /// The edges that the position `(x, y)` is on, in the order of `all`.
    pub open spec fn edges_at(screen: Screen, x: int, y: int) -> Seq<Edge> {
        Self::all().filter(|e: Edge| screen.is_near(e, x, y))
    }

    /// Lists the edges of `screen` that the position `(x, y)` is on. On a
    /// screen whose opposite edges lie apart these are none, one, or the two
    /// of a corner.
    pub fn edges_from_pos(x: i32, y: i32, screen: &Screen) -> (edges: Vec<Edge>)
        ensures
            edges@ == Self::edges_at(*screen, x as int, y as int),
            screen.has_interior() ==> edges@.len() <= 2,
    {
        let ghost near = |e: Edge| screen.is_near(e, x as int, y as int);
        let ghost all = Self::all();
        let far_x: i128 = screen.width as i128 - 1 - screen.margin as i128;
        let far_y: i128 = screen.height as i128 - 1 - screen.margin as i128;
        let mut edges: Vec<Edge> = Vec::new();
        proof {
            lemma_filter_empty(near);
        }
        if y as i128 <= screen.margin as i128 {
            edges.push(Edge::Top);
        }
        proof {
            lemma_filter_push(all.take(0), all[0], near);
            assert(all.take(1) == all.take(0).push(all[0]));
        }
        if x as i128 <= screen.margin as i128 {
            edges.push(Edge::Left);
        }
        proof {
            lemma_filter_push(all.take(1), all[1], near);
            assert(all.take(2) == all.take(1).push(all[1]));
        }
        if y as i128 >= far_y {
            edges.push(Edge::Bottom);
        }
        proof {
            lemma_filter_push(all.take(2), all[2], near);
            assert(all.take(3) == all.take(2).push(all[2]));
        }
        if x as i128 >= far_x {
            edges.push(Edge::Right);
        }
        proof {
            lemma_filter_push(all.take(3), all[3], near);
            assert(all.take(4) == all.take(3).push(all[3]));
            assert(all.take(4) == all);
        }
        edges
    }
}

/// A classified input: what the resolver is asked about. It is made afresh
/// for each click, wheel movement or finished gesture.
#[derive(Debug)]
pub struct ClickEvent {
    /// The button, or the wheel direction standing in for one.
    pub button: MouseButton,
    /// The screen edges that the pointer was on.
    pub edges: Vec<Edge>,
    /// The modifier keys that were held.
    pub modifiers: Vec<KeyboardModifier>,
    /// Whether the button went down or up.
    pub event_type: PressState,
    /// The angle signature of the gesture; empty unless a gesture ended.
    pub shape_angles: Vec<Angle>,
    /// The trace that the signature was taken from; empty unless a gesture
    /// ended.
    pub shape_xy: PointHistory,
}

/// What a click event holds, as plain values.
pub struct ClickEventView {
    pub button: MouseButton,
    pub edges: Seq<Edge>,
    pub modifiers: Seq<KeyboardModifier>,
    pub event_type: PressState,
    pub shape_angles: Seq<Angle>,
    pub shape_xy: Seq<crate::point::Point>,
}

impl View for ClickEvent {
    type V = ClickEventView;

    open spec fn view(&self) -> ClickEventView {
        ClickEventView {
            button: self.button,
            edges: self.edges@,
            modifiers: self.modifiers@,
            event_type: self.event_type,
            shape_angles: self.shape_angles@,
            shape_xy: self.shape_xy@,
        }
    }
}

} // verus!
