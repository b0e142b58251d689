use vstd::prelude::*;

verus! {

/// What the player asks for.
#[derive(Copy, Clone, Debug, PartialEq, Eq, Structural)]
pub enum Action {
    Left,
    Right,
    Down,
    RotateLeft,
    RotateRight,
    Quit,
    LostFocus,
    GainedFocus,
}

/// The keys that the game reads; every other key is `Other`.
#[derive(Copy, Clone, Debug, PartialEq, Eq, Structural)]
pub enum Key {
    A,
    S,
    D,
    Q,
    E,
    Escape,
    Other,
}

/// A window event, as far as the game reads it.
#[derive(Copy, Clone, Debug, PartialEq, Eq, Structural)]
pub enum Event {
    KeyPressed(Key),
    KeyReleased(Key),
    Closed,
    LostFocus,
    GainedFocus,
    Other,
}

/// The action that a key stands for, if any.
pub open spec fn key_action(k: Key) -> Option<Action> {
    match k {
        Key::A => Some(Action::Left),
        Key::S => Some(Action::Down),
        Key::D => Some(Action::Right),
        Key::Q => Some(Action::RotateLeft),
        Key::E => Some(Action::RotateRight),
        Key::Escape => Some(Action::Quit),
        Key::Other => None,
    }
}

/// Whether `a` is set after the event `ev`, where `was` is whether it was
/// set before: a key sets its action when pressed and clears it when
/// released; closing the window asks to quit; losing or gaining the focus
/// sets one of the two focus actions and clears the other.
pub open spec fn after_event(ev: Option<Event>, a: Action, was: bool) -> bool {
    match ev {
        Some(Event::KeyPressed(k)) => if key_action(k) == Some(a) {
            true
        } else {
            was
        },
        Some(Event::KeyReleased(k)) => if key_action(k) == Some(a) {
            false
        } else {
            was
        },
        Some(Event::Closed) => if a == Action::Quit {
            true
        } else {
            was
        },
        Some(Event::LostFocus) => if a == Action::LostFocus {
            true
        } else if a == Action::GainedFocus {
            false
        } else {
            was
        },
        Some(Event::GainedFocus) => if a == Action::GainedFocus {
            true
        } else if a == Action::LostFocus {
            false
        } else {
            was
        },
        _ => was,
    }
}

/// One flag for each action.
pub struct Actions {
    left: bool,
    right: bool,
    down: bool,
    rotate_left: bool,
    rotate_right: bool,
    quit: bool,
    lost_focus: bool,
    gained_focus: bool,
}

impl Actions {
    /// Whether the action `a` is set.
    pub closed spec fn flag(&self, a: Action) -> bool {
        match a {
            Action::Left => self.left,
            Action::Right => self.right,
            Action::Down => self.down,
            Action::RotateLeft => self.rotate_left,
            Action::RotateRight => self.rotate_right,
            Action::Quit => self.quit,
            Action::LostFocus => self.lost_focus,
            Action::GainedFocus => self.gained_focus,
        }
    }

    /// No action set.
    pub fn new() -> (r: Actions)
        ensures
            forall|a: Action| !r.flag(a),
    {
        Actions {
            left: false,
            right: false,
            down: false,
            rotate_left: false,
            rotate_right: false,
            quit: false,
            lost_focus: false,
            gained_focus: false,
        }
    }

    /// Sets the flag of `a` to `b`, and no other.
    pub fn set(&mut self, a: Action, b: bool)
        ensures
            final(self).flag(a) == b,
            forall|o: Action| o != a ==> final(self).flag(o) == old(self).flag(o),
    {
        match a {
            Action::Left => self.left = b,
            Action::Right => self.right = b,
            Action::Down => self.down = b,
            Action::RotateLeft => self.rotate_left = b,
            Action::RotateRight => self.rotate_right = b,
            Action::Quit => self.quit = b,
            Action::LostFocus => self.lost_focus = b,
            Action::GainedFocus => self.gained_focus = b,
        }
    }

    /// The flag of `a`.
    pub fn get(&self, a: Action) -> (r: &bool)
        ensures
            *r == self.flag(a),
    {
        match a {
            Action::Left => &self.left,
            Action::Right => &self.right,
            Action::Down => &self.down,
            Action::RotateLeft => &self.rotate_left,
            Action::RotateRight => &self.rotate_right,
            Action::Quit => &self.quit,
            Action::LostFocus => &self.lost_focus,
            Action::GainedFocus => &self.gained_focus,
        }
    }
}

pub open spec fn listed_if(b: bool, a: Action) -> Seq<Action> {
    if b {
        seq![a]
    } else {
        Seq::empty()
    }
}

/// The actions set in `f`, in a fixed order: left, down, right, the two
/// turns, quit, and the two focus actions.
pub open spec fn listed(f: spec_fn(Action) -> bool) -> Seq<Action> {
    listed_if(f(Action::Left), Action::Left) + listed_if(f(Action::Down), Action::Down) + listed_if(
        f(Action::Right),
        Action::Right,
    ) + listed_if(f(Action::RotateLeft), Action::RotateLeft) + listed_if(
        f(Action::RotateRight),
        Action::RotateRight,
    ) + listed_if(f(Action::Quit), Action::Quit) + listed_if(
        f(Action::LostFocus),
        Action::LostFocus,
    ) + listed_if(f(Action::GainedFocus), Action::GainedFocus)
}

fn push_if(vec: &mut Vec<Action>, b: bool, a: Action)
    ensures
        final(vec)@ == old(vec)@ + listed_if(b, a),
{
    if b {
        vec.push(a);
    }
    assert(vec@ =~= old(vec)@ + listed_if(b, a));
}

/// The player's input: the last event read and the actions it left set.
pub struct Input {
    window: Option<Event>,
    actions: Actions,
}

impl Input {
    /// Whether the action `a` is set.
    pub closed spec fn flag(&self, a: Action) -> bool {
        self.actions.flag(a)
    }

    pub closed spec fn last_event(&self) -> Option<Event> {
        self.window
    }

    /// No event read and no action set.
    pub fn new() -> (r: Input)
        ensures
            forall|a: Action| !r.flag(a),
            r.last_event() is None,
    {
        Input { window: None, actions: Actions::new() }
    }

    /// Reads the event `events` (none where the window had none) and updates
    /// the actions (see `after_event`).
    pub fn process(&mut self, events: Option<Event>)
        ensures
            final(self).last_event() == events,
            forall|a: Action| #[trigger] final(self).flag(a) == after_event(events, a, old(self).flag(a)),
    {
        self.window = events;
        self.match_actions();
    }

    fn match_actions(&mut self)
        ensures
            final(self).last_event() == old(self).last_event(),
            forall|a: Action| #[trigger] final(self).flag(a) == after_event(
                old(self).last_event(),
                a,
                old(self).flag(a),
            ),
    {
        let x = match self.window {
            Some(Event::KeyPressed(c)) => Some((c, true)),
            Some(Event::KeyReleased(c)) => Some((c, false)),
            Some(Event::Closed) => {
                self.set_action(Action::Quit, true);
                None
            },
            Some(Event::LostFocus) => {
                self.set_action(Action::LostFocus, true);
                self.set_action(Action::GainedFocus, false);
                None
            },
            Some(Event::GainedFocus) => {
                self.set_action(Action::GainedFocus, true);
                self.set_action(Action::LostFocus, false);
                None
            },
            _ => None,
        };
        match x {
            Some((Key::A, n)) => self.set_action(Action::Left, n),
            Some((Key::S, n)) => self.set_action(Action::Down, n),
            Some((Key::D, n)) => self.set_action(Action::Right, n),
            Some((Key::Q, n)) => self.set_action(Action::RotateLeft, n),
            Some((Key::E, n)) => self.set_action(Action::RotateRight, n),
            Some((Key::Escape, n)) => self.set_action(Action::Quit, n),
            _ => (),
        }
    }

    /// Sets the flag of `a` to `b`, and no other.
    pub fn set_action(&mut self, a: Action, b: bool)
        ensures
            final(self).flag(a) == b,
            forall|o: Action| o != a ==> final(self).flag(o) == old(self).flag(o),
            final(self).last_event() == old(self).last_event(),
    {
        self.actions.set(a, b);
    }

    /// The flag of `a`.
    pub fn get_action(&self, a: Action) -> (r: &bool)
        ensures
            *r == self.flag(a),
    {
        self.actions.get(a)
    }

    /// The actions that are set, in the order of `listed`.
    pub fn get_iter(&self) -> (r: Vec<Action>)
        ensures
            r@ == listed(|a: Action| self.flag(a)),
    {
        let mut vec: Vec<Action> = Vec::new();
        push_if(&mut vec, *self.get_action(Action::Left), Action::Left);
        push_if(&mut vec, *self.get_action(Action::Down), Action::Down);
        push_if(&mut vec, *self.get_action(Action::Right), Action::Right);
        push_if(&mut vec, *self.get_action(Action::RotateLeft), Action::RotateLeft);
        push_if(&mut vec, *self.get_action(Action::RotateRight), Action::RotateRight);
        push_if(&mut vec, *self.get_action(Action::Quit), Action::Quit);
        push_if(&mut vec, *self.get_action(Action::LostFocus), Action::LostFocus);
        push_if(&mut vec, *self.get_action(Action::GainedFocus), Action::GainedFocus);
        assert(Seq::<Action>::empty() + listed_if(self.flag(Action::Left), Action::Left) =~= listed_if(
            self.flag(Action::Left),
            Action::Left,
        ));
        vec
    }
}

} // verus!
