use rusty_abacus::plot::{linked_pairs, path_commands, PathCommand};

#[test]
fn path_breaks_at_undrawable_points() {
    let drawable = vec![true, true, false, true, true, true, false, false, true];
    assert_eq!(
        path_commands(&drawable),
        vec![
            PathCommand::MoveTo(0),
            PathCommand::LineTo(1),
            PathCommand::MoveTo(3),
            PathCommand::LineTo(4),
            PathCommand::LineTo(5),
            PathCommand::MoveTo(8),
        ]
    );
    assert!(path_commands(&vec![]).is_empty());
    assert!(path_commands(&vec![false, false]).is_empty());
}

#[test]
fn pairs_join_consecutive_valid_points() {
    let valid = vec![true, true, false, true, true, true, false];
    assert_eq!(linked_pairs(&valid), vec![0, 3, 4]);
    assert!(linked_pairs(&vec![true]).is_empty());
    assert!(linked_pairs(&vec![]).is_empty());
}
