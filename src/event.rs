use vstd::prelude::*;

verus! {

/// A mouse button, as reported by the terminal.
#[derive(Clone, Copy, Debug, PartialEq, Eq, Structural)]
pub enum MouseButton {
    Left,
    Right,
    Middle,
    WheelUp,
    WheelDown,
}

/// A key press, as decoded from the terminal's byte stream.
#[derive(Clone, Copy, Debug, PartialEq, Eq, Structural)]
pub enum Key {
    Backspace,
    Left,
    Right,
    Up,
    Down,
    Home,
    End,
    PageUp,
    PageDown,
    BackTab,
    Delete,
    Insert,
    F(u8),
    Char(char),
    Alt(char),
    Ctrl(char),
    Null,
    Esc,
}

/// One decoded input event.
#[derive(Clone, Debug, PartialEq, Eq)]
pub enum InputEvent {
    Key(Key),
    MousePress(MouseButton, u16, u16),
    MouseRelease(u16, u16),
    MouseHold(u16, u16),
    Unsupported(Vec<u8>),
}

/// The value of an event, with its raw bytes as a sequence.
pub enum EventView {
    Key(Key),
    MousePress(MouseButton, u16, u16),
    MouseRelease(u16, u16),
    MouseHold(u16, u16),
    Unsupported(Seq<u8>),
}

impl View for InputEvent {
    type V = EventView;

    open spec fn view(&self) -> EventView {
        match self {
            InputEvent::Key(k) => EventView::Key(*k),
            InputEvent::MousePress(b, x, y) => EventView::MousePress(*b, *x, *y),
            InputEvent::MouseRelease(x, y) => EventView::MouseRelease(*x, *y),
            InputEvent::MouseHold(x, y) => EventView::MouseHold(*x, *y),
            InputEvent::Unsupported(v) => EventView::Unsupported(v@),
        }
    }
}

/// The values of a sequence of events.
pub open spec fn events_view(es: Seq<InputEvent>) -> Seq<EventView> {
    es.map_values(|e: InputEvent| e@)
}

/// The value of the empty unsupported event.
pub open spec fn sentinel_view() -> EventView {
    EventView::Unsupported(Seq::empty())
}

impl InputEvent {
    /// A copy of the event with the same value.
    pub fn duplicate(&self) -> (r: InputEvent)
        ensures
            r@ == self@,
    {
        match self {
            InputEvent::Key(k) => InputEvent::Key(*k),
            InputEvent::MousePress(b, x, y) => InputEvent::MousePress(*b, *x, *y),
            InputEvent::MouseRelease(x, y) => InputEvent::MouseRelease(*x, *y),
            InputEvent::MouseHold(x, y) => InputEvent::MouseHold(*x, *y),
            InputEvent::Unsupported(v) => {
                let mut w: Vec<u8> = Vec::new();
                let mut i: usize = 0;
                while i < v.len()
                    invariant
                        i <= v@.len(),
                        w@ == v@.take(i as int),
                    decreases v.len() - i,
                {
                    w.push(v[i]);
                    i = i + 1;
                    assert(w@ =~= v@.take(i as int));
                }
                assert(v@.take(i as int) =~= v@);
                InputEvent::Unsupported(w)
            },
        }
    }

    /// A pointer press opens a drag gesture.
    pub open spec fn is_press(self) -> bool {
        self is MousePress
    }

    /// A pointer release closes a drag gesture.
    pub open spec fn is_release(self) -> bool {
        self is MouseRelease
    }

    /// The empty unsupported event.
    pub open spec fn is_sentinel(self) -> bool {
        self is Unsupported && self->Unsupported_0@.len() == 0
    }

    /// Whether this event opens or closes a drag gesture.
    pub fn is_gesture_edge(&self) -> (r: bool)
        ensures
            r == (self.is_press() || self.is_release()),
    {
        match self {
            InputEvent::MousePress(_, _, _) => true,
            InputEvent::MouseRelease(_, _) => true,
            _ => false,
        }
    }

    /// The event with no content that forces the first render of a static driver.
    pub fn sentinel() -> (r: InputEvent)
        ensures
            r.is_sentinel(),
            r@ == sentinel_view(),
    {
        InputEvent::Unsupported(Vec::new())
    }
}

} // verus!
