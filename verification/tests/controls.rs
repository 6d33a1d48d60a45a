use rusty_abacus::controls::{
    add_curve, calc_key_action, graph_key_action, push_history, remove_curve, update_curve,
    CalcKeyAction, GraphKeyAction, KeyInput, HISTORY_LIMIT, MAX_ADDITIONAL_CURVES,
};

#[test]
fn calculator_keys() {
    assert_eq!(calc_key_action(KeyInput::Character('7')), CalcKeyAction::Append('7'));
    assert_eq!(calc_key_action(KeyInput::Character('^')), CalcKeyAction::Append('^'));
    assert_eq!(calc_key_action(KeyInput::Character('.')), CalcKeyAction::Append('.'));
    assert_eq!(calc_key_action(KeyInput::Character('S')), CalcKeyAction::Append('s'));
    assert_eq!(calc_key_action(KeyInput::Character('x')), CalcKeyAction::Append('x'));
    // modulo and factorial are typed
    assert_eq!(calc_key_action(KeyInput::Character('%')), CalcKeyAction::Append('%'));
    assert_eq!(calc_key_action(KeyInput::Character('!')), CalcKeyAction::Append('!'));
    assert_eq!(calc_key_action(KeyInput::Character('(')), CalcKeyAction::Append('('));
    assert_eq!(calc_key_action(KeyInput::Character(')')), CalcKeyAction::Append(')'));
    // `?` shows the keyboard help
    assert_eq!(calc_key_action(KeyInput::Character('?')), CalcKeyAction::ToggleHelp);
    // one-byte keys that are neither typed nor letters only re-evaluate
    assert_eq!(calc_key_action(KeyInput::Character('#')), CalcKeyAction::Reevaluate);
    assert_eq!(calc_key_action(KeyInput::Character(' ')), CalcKeyAction::Reevaluate);
    // a character of more than one byte is ignored
    assert_eq!(calc_key_action(KeyInput::Character('é')), CalcKeyAction::Ignore);
    assert_eq!(calc_key_action(KeyInput::Text), CalcKeyAction::Ignore);
    assert_eq!(calc_key_action(KeyInput::Backspace), CalcKeyAction::DeleteLast);
    assert_eq!(calc_key_action(KeyInput::Escape), CalcKeyAction::Clear);
    assert_eq!(calc_key_action(KeyInput::Tab), CalcKeyAction::ToggleMode);
    assert_eq!(calc_key_action(KeyInput::ArrowUp), CalcKeyAction::Ignore);
}

#[test]
fn graph_keys() {
    assert_eq!(graph_key_action(KeyInput::Character('+')), GraphKeyAction::ZoomIn);
    assert_eq!(graph_key_action(KeyInput::Character('=')), GraphKeyAction::ZoomIn);
    assert_eq!(graph_key_action(KeyInput::Character('-')), GraphKeyAction::ZoomOut);
    assert_eq!(graph_key_action(KeyInput::Character('r')), GraphKeyAction::ResetView);
    assert_eq!(graph_key_action(KeyInput::Character('R')), GraphKeyAction::ResetView);
    assert_eq!(graph_key_action(KeyInput::Character('?')), GraphKeyAction::ToggleHelp);
    assert_eq!(graph_key_action(KeyInput::Character('x')), GraphKeyAction::Ignore);
    assert_eq!(graph_key_action(KeyInput::ArrowUp), GraphKeyAction::PanUp);
    assert_eq!(graph_key_action(KeyInput::ArrowDown), GraphKeyAction::PanDown);
    assert_eq!(graph_key_action(KeyInput::ArrowLeft), GraphKeyAction::PanLeft);
    assert_eq!(graph_key_action(KeyInput::ArrowRight), GraphKeyAction::PanRight);
    assert_eq!(graph_key_action(KeyInput::Tab), GraphKeyAction::ShowCalculator);
    assert_eq!(graph_key_action(KeyInput::Escape), GraphKeyAction::Ignore);
}

#[test]
fn history_keeps_the_last_twenty() {
    let mut history: Vec<u32> = Vec::new();
    for i in 0..25u32 {
        push_history(&mut history, i);
        assert!(history.len() <= HISTORY_LIMIT);
        assert_eq!(*history.last().unwrap(), i);
    }
    assert_eq!(history.len(), 20);
    assert_eq!(history[0], 5);
    assert_eq!(history[19], 24);
}

#[test]
fn curves_are_limited() {
    let mut curves: Vec<String> = Vec::new();
    for _ in 0..MAX_ADDITIONAL_CURVES {
        assert!(add_curve(&mut curves));
    }
    assert!(!add_curve(&mut curves));
    assert_eq!(curves.len(), 4);
    assert!(curves.iter().all(|c| c.is_empty()));

    assert!(update_curve(&mut curves, 1, String::from("x^2")));
    assert!(!update_curve(&mut curves, 4, String::from("x")));
    assert_eq!(curves[1], "x^2");

    assert!(remove_curve(&mut curves, 0));
    assert!(!remove_curve(&mut curves, 3));
    assert_eq!(curves.len(), 3);
    assert_eq!(curves[0], "x^2");
    assert!(add_curve(&mut curves));
    assert_eq!(curves.len(), 4);
}
