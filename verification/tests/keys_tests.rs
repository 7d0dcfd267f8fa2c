use bookmarks::keys::{Command, Gesture, Key};

fn run(keys: &[Key]) -> Vec<Command> {
    let mut gesture = Gesture::new();
    let mut commands = Vec::new();
    for key in keys {
        let (next, command) = gesture.press(*key);
        gesture = next;
        commands.push(command);
    }
    commands
}

#[test]
fn characters_map_to_keys() {
    assert_eq!(Key::from_char('q'), Key::Quit);
    assert_eq!(Key::from_char('d'), Key::Delete);
    assert_eq!(Key::from_char('y'), Key::Yank);
    assert_eq!(Key::from_char('p'), Key::Paste);
    assert_eq!(Key::from_char('k'), Key::Up);
    assert_eq!(Key::from_char('j'), Key::Down);
    assert_eq!(Key::from_char('x'), Key::Other);
    assert_eq!(Key::from_char('D'), Key::Other);
    assert_eq!(Key::from_char('\n'), Key::Other);
}

#[test]
fn new_gesture_is_idle() {
    assert_eq!(Gesture::new(), Gesture::Idle);
}

#[test]
fn single_keys_give_their_commands() {
    assert_eq!(run(&[Key::Quit]), vec![Command::Quit]);
    assert_eq!(run(&[Key::Paste]), vec![Command::PasteAfterSelected]);
    assert_eq!(run(&[Key::Up]), vec![Command::SelectPrevious]);
    assert_eq!(run(&[Key::Down]), vec![Command::SelectNext]);
    assert_eq!(run(&[Key::Other]), vec![Command::Nothing]);
    assert_eq!(run(&[Key::Delete]), vec![Command::Nothing]);
    assert_eq!(run(&[Key::Yank]), vec![Command::Nothing]);
}

#[test]
fn double_delete_fires_on_second_press() {
    assert_eq!(
        run(&[Key::Delete, Key::Delete]),
        vec![Command::Nothing, Command::DeleteSelected]
    );
}

#[test]
fn double_yank_fires_on_second_press() {
    assert_eq!(
        run(&[Key::Yank, Key::Yank]),
        vec![Command::Nothing, Command::YankSelected]
    );
}

#[test]
fn yank_with_key_between_does_not_fire() {
    let between = [
        Key::Other,
        Key::Up,
        Key::Down,
        Key::Paste,
        Key::Delete,
        Key::Quit,
    ];
    for key in between {
        let commands = run(&[Key::Yank, key, Key::Yank]);
        assert_ne!(commands[0], Command::YankSelected);
        assert_ne!(commands[2], Command::YankSelected);
        assert_eq!(commands[2], Command::Nothing);
    }
}

#[test]
fn delete_with_key_between_does_not_fire() {
    let commands = run(&[Key::Delete, Key::Other, Key::Delete]);
    assert_eq!(
        commands,
        vec![Command::Nothing, Command::Nothing, Command::Nothing]
    );
    let commands = run(&[Key::Delete, Key::Yank, Key::Delete]);
    assert_eq!(
        commands,
        vec![Command::Nothing, Command::Nothing, Command::Nothing]
    );
}

#[test]
fn third_press_starts_a_new_gesture() {
    assert_eq!(
        run(&[Key::Delete, Key::Delete, Key::Delete, Key::Delete]),
        vec![
            Command::Nothing,
            Command::DeleteSelected,
            Command::Nothing,
            Command::DeleteSelected
        ]
    );
}

#[test]
fn gesture_states_follow_the_presses() {
    let (g, _) = Gesture::Idle.press(Key::Delete);
    assert_eq!(g, Gesture::ArmedDelete);
    let (g, _) = Gesture::Idle.press(Key::Yank);
    assert_eq!(g, Gesture::ArmedYank);
    let (g, _) = Gesture::Idle.press(Key::Down);
    assert_eq!(g, Gesture::Idle);
    let (g, c) = Gesture::ArmedYank.press(Key::Delete);
    assert_eq!(g, Gesture::Idle);
    assert_eq!(c, Command::Nothing);
    let (g, c) = Gesture::ArmedDelete.press(Key::Down);
    assert_eq!(g, Gesture::Idle);
    assert_eq!(c, Command::SelectNext);
}

#[test]
fn mixed_triggers_do_not_fire() {
    assert_eq!(
        run(&[Key::Delete, Key::Yank, Key::Yank]),
        vec![Command::Nothing, Command::Nothing, Command::Nothing]
    );
}
