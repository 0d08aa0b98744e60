//! The retained UI state of the canvas front end and the messages that
//! update it: a small state machine over window size and mouse state.

use vstd::prelude::*;

verus! {

/// Canvas size, in pixels.
#[derive(Clone, Copy, Debug, PartialEq, Eq, Structural)]
pub struct Dimensions {
    pub width: u32,
    pub height: u32,
}

impl Default for Dimensions {
    fn default() -> (r: Dimensions)
        ensures
            r.width == 0 && r.height == 0,
    {
        Dimensions { width: 0, height: 0 }
    }
}

/// A position on the canvas.
#[derive(Clone, Copy, Debug, PartialEq, Eq, Structural)]
pub struct Coordinates {
    pub x: i32,
    pub y: i32,
}

impl Default for Coordinates {
    fn default() -> (r: Coordinates)
        ensures
            r.x == 0 && r.y == 0,
    {
        Coordinates { x: 0, y: 0 }
    }
}

/// A mouse button, as the browser numbers them.
#[derive(Clone, Copy, Debug, PartialEq, Eq, Structural)]
pub enum MouseButton {
    Main,
    Auxiliary,
    Secondary,
    Fourth,
    Fifth,
}

impl MouseButton {
    /// The button with the given browser code; codes above four do not
    /// name a button.
    pub fn from(input: i16) -> (r: MouseButton)
        requires
            0 <= input <= 4,
        ensures
            input == 0 ==> r == MouseButton::Main,
            input == 1 ==> r == MouseButton::Auxiliary,
            input == 2 ==> r == MouseButton::Secondary,
            input == 3 ==> r == MouseButton::Fourth,
            input == 4 ==> r == MouseButton::Fifth,
    {
        match input {
            0 => MouseButton::Main,
            1 => MouseButton::Auxiliary,
            2 => MouseButton::Secondary,
            3 => MouseButton::Fourth,
            _ => MouseButton::Fifth,
        }
    }
}

/// The mouse: which buttons are down, and where the pointer is.
#[derive(Debug)]
pub struct MouseState {
    buttons: Vec<MouseButton>,
    position: Coordinates,
}

impl MouseState {
    pub closed spec fn spec_buttons(&self) -> Seq<MouseButton> {
        self.buttons@
    }

    pub closed spec fn spec_position(&self) -> Coordinates {
        self.position
    }

    /// Where the pointer is.
    pub fn position(&self) -> (r: Coordinates)
        ensures
            r == self.spec_position(),
    {
        self.position
    }

    /// How many buttons are down.
    pub fn buttons_len(&self) -> (r: usize)
        ensures
            r == self.spec_buttons().len(),
    {
        self.buttons.len()
    }
}

impl Default for MouseState {
    fn default() -> (r: MouseState)
        ensures
            r.spec_buttons() =~= Seq::<MouseButton>::empty(),
            r.spec_position() == (Coordinates { x: 0, y: 0 }),
    {
        MouseState { buttons: Vec::new(), position: Coordinates::default() }
    }
}

/// A message from the host event loop.
pub enum Msg {
    WindowResized(Dimensions),
    MouseMoved((Coordinates, MouseButton)),
}

/// Everything the front end retains between events.
#[derive(Debug)]
pub struct State {
    pub canvas_dimensions: Dimensions,
    pub mouse: MouseState,
}

impl Default for State {
    fn default() -> (r: State)
        ensures
            r.canvas_dimensions == (Dimensions { width: 0, height: 0 }),
            r.mouse.spec_buttons() =~= Seq::<MouseButton>::empty(),
            r.mouse.spec_position() == (Coordinates { x: 0, y: 0 }),
    {
        State { canvas_dimensions: Dimensions::default(), mouse: MouseState::default() }
    }
}

/// What a message does to the state: a resize replaces the canvas size
/// and leaves the mouse alone; a move replaces the pointer position and
/// clears the pressed buttons, leaving the canvas size alone.
pub open spec fn msg_spec(old: State, msg: Msg, new: State) -> bool {
    match msg {
        Msg::WindowResized(d) => {
            &&& new.canvas_dimensions == d
            &&& new.mouse.spec_buttons() == old.mouse.spec_buttons()
            &&& new.mouse.spec_position() == old.mouse.spec_position()
        },
        Msg::MouseMoved((pos, _button)) => {
            &&& new.canvas_dimensions == old.canvas_dimensions
            &&& new.mouse.spec_buttons() =~= Seq::<MouseButton>::empty()
            &&& new.mouse.spec_position() == pos
        },
    }
}

impl State {
    /// Applies one message to the state.
    pub fn msg(&mut self, msg: &Msg)
        ensures
            msg_spec(*old(self), *msg, *final(self)),
    {
        match msg {
            Msg::WindowResized(dimensions) => {
                self.canvas_dimensions.width = dimensions.width;
                self.canvas_dimensions.height = dimensions.height;
            },
            Msg::MouseMoved((position, _button)) => {
                self.mouse = MouseState { buttons: Vec::new(), position: *position };
            },
        }
    }
}

/// The state behind a read-only face: writes go through `msg` alone.
pub struct StateWrapper(State);

impl StateWrapper {
    /// The wrapped state, as contracts see it.
    pub closed spec fn spec_state(&self) -> State {
        self.0
    }

    /// Read access to the wrapped state.
    pub fn state(&self) -> (r: &State)
        ensures
            *r == self.spec_state(),
    {
        &self.0
    }

    /// Applies one message to the wrapped state.
    pub fn msg(&mut self, msg: &Msg)
        ensures
            msg_spec(old(self).spec_state(), *msg, final(self).spec_state()),
    {
        self.0.msg(msg);
    }
}

/// The single store the front end keeps its state in.
pub struct Store {
    pub state: StateWrapper,
}

impl Store {
    /// A store holding the default state.
    pub fn new() -> (r: Store)
        ensures
            r.state.spec_state().canvas_dimensions == (Dimensions { width: 0, height: 0 }),
            r.state.spec_state().mouse.spec_buttons() =~= Seq::<MouseButton>::empty(),
            r.state.spec_state().mouse.spec_position() == (Coordinates { x: 0, y: 0 }),
    {
        Store { state: StateWrapper(State::default()) }
    }

    /// Routes one message to the state.
    pub fn msg(&mut self, msg: &Msg)
        ensures
            msg_spec(old(self).state.spec_state(), *msg, final(self).state.spec_state()),
    {
        match msg {
            _ => self.state.msg(msg),
        }
    }
}

} // verus!
