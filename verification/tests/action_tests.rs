use tetris_rl::action::{ComposedAction, SingularAction};

fn play_out(start: ComposedAction) -> Vec<SingularAction> {
    let mut action = start;
    let mut commands = Vec::new();
    while !action.is_empty() {
        let (command, rest) = action.decompose();
        commands.push(command);
        action = rest;
    }
    commands
}

#[test]
fn new_action_is_empty() {
    let action = ComposedAction::new();
    assert_eq!(action.rotation, 0);
    assert_eq!(action.shift, 0);
    assert!(action.is_empty());
}

#[test]
fn is_empty_needs_both_parts_zero() {
    assert!(!ComposedAction { rotation: 1, shift: 0 }.is_empty());
    assert!(!ComposedAction { rotation: 0, shift: -1 }.is_empty());
    assert!(!ComposedAction { rotation: 0, shift: 1 }.is_empty());
    assert!(ComposedAction { rotation: 0, shift: 0 }.is_empty());
}

#[test]
fn decompose_emits_rotations_before_left_shifts() {
    let commands = play_out(ComposedAction { rotation: 2, shift: -3 });
    assert_eq!(
        commands,
        vec![
            SingularAction::Rotate,
            SingularAction::Rotate,
            SingularAction::Left,
            SingularAction::Left,
            SingularAction::Left,
        ]
    );
}

#[test]
fn decompose_emits_rotations_before_right_shifts() {
    let commands = play_out(ComposedAction { rotation: 3, shift: 2 });
    assert_eq!(
        commands,
        vec![
            SingularAction::Rotate,
            SingularAction::Rotate,
            SingularAction::Rotate,
            SingularAction::Right,
            SingularAction::Right,
        ]
    );
}

#[test]
fn decompose_emits_rotation_count_plus_shift_magnitude() {
    for rotation in 0..4 {
        for shift in -6..7 {
            let commands = play_out(ComposedAction { rotation, shift });
            let magnitude = if shift < 0 { -shift } else { shift };
            assert_eq!(commands.len() as i32, rotation + magnitude);
            for (k, command) in commands.iter().enumerate() {
                let expected = if (k as i32) < rotation {
                    SingularAction::Rotate
                } else if shift < 0 {
                    SingularAction::Left
                } else {
                    SingularAction::Right
                };
                assert_eq!(*command, expected);
            }
        }
    }
}

#[test]
fn decompose_single_steps() {
    let (command, rest) = ComposedAction { rotation: 1, shift: 4 }.decompose();
    assert_eq!(command, SingularAction::Rotate);
    assert_eq!(rest, ComposedAction { rotation: 0, shift: 4 });

    let (command, rest) = ComposedAction { rotation: 0, shift: 4 }.decompose();
    assert_eq!(command, SingularAction::Right);
    assert_eq!(rest, ComposedAction { rotation: 0, shift: 3 });

    let (command, rest) = ComposedAction { rotation: 0, shift: -4 }.decompose();
    assert_eq!(command, SingularAction::Left);
    assert_eq!(rest, ComposedAction { rotation: 0, shift: -3 });
}

#[test]
fn decompose_of_empty_action_changes_nothing() {
    let (command, rest) = ComposedAction::new().decompose();
    assert_eq!(command, SingularAction::Idle);
    assert!(rest.is_empty());
    let (command, rest) = rest.decompose();
    assert_eq!(command, SingularAction::Idle);
    assert_eq!(rest, ComposedAction { rotation: 0, shift: 0 });
}
