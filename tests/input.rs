use tetris::input::{Action, Actions, Event, Input, Key};

#[test]
fn actions_start_unset() {
    let a = Actions::new();
    for x in [Action::Left, Action::Right, Action::Down, Action::Quit, Action::GainedFocus] {
        assert!(!*a.get(x));
    }
}

#[test]
fn actions_set_one_flag() {
    let mut a = Actions::new();
    a.set(Action::RotateLeft, true);
    assert!(*a.get(Action::RotateLeft));
    assert!(!*a.get(Action::RotateRight));
    a.set(Action::RotateLeft, false);
    assert!(!*a.get(Action::RotateLeft));
}

#[test]
fn keys_press_and_release_actions() {
    let mut i = Input::new();
    i.process(Some(Event::KeyPressed(Key::A)));
    i.process(Some(Event::KeyPressed(Key::E)));
    assert_eq!(i.get_iter(), vec![Action::Left, Action::RotateRight]);
    i.process(Some(Event::KeyReleased(Key::A)));
    assert_eq!(i.get_iter(), vec![Action::RotateRight]);
    i.process(Some(Event::KeyPressed(Key::Other)));
    i.process(None);
    assert_eq!(i.get_iter(), vec![Action::RotateRight]);
}

#[test]
fn closing_and_focus_events() {
    let mut i = Input::new();
    i.process(Some(Event::LostFocus));
    assert!(*i.get_action(Action::LostFocus));
    assert!(!*i.get_action(Action::GainedFocus));
    i.process(Some(Event::GainedFocus));
    assert!(!*i.get_action(Action::LostFocus));
    assert!(*i.get_action(Action::GainedFocus));
    i.process(Some(Event::Closed));
    assert_eq!(i.get_iter(), vec![Action::Quit, Action::GainedFocus]);
}

#[test]
fn listed_in_fixed_order() {
    let mut i = Input::new();
    for a in [Action::GainedFocus, Action::Quit, Action::Right, Action::Down, Action::Left] {
        i.set_action(a, true);
    }
    assert_eq!(
        i.get_iter(),
        vec![Action::Left, Action::Down, Action::Right, Action::Quit, Action::GainedFocus]
    );
    i.process(Some(Event::KeyReleased(Key::Escape)));
    i.process(Some(Event::KeyPressed(Key::S)));
    i.process(Some(Event::KeyPressed(Key::Q)));
    assert_eq!(
        i.get_iter(),
        vec![Action::Left, Action::Down, Action::Right, Action::RotateLeft, Action::GainedFocus]
    );
}
