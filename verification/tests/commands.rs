use fair_assignment::editor::Command;
use fair_assignment::editor::EditTarget;
use fair_assignment::editor::Workspace;
use fair_assignment::model::Category;
use fair_assignment::model::FieldError;

#[test]
fn commands_drive_the_whole_state() {
    let mut ws = Workspace::new();
    assert_eq!(ws.apply(Command::AddCategory { name: "Chess".to_string(), max_placements: 2 }), Ok(()));
    assert_eq!(ws.apply(Command::AddStudent { name: "Ann".to_string() }), Ok(()));
    assert_eq!(
        ws.apply(Command::AddPreference { student: "Ann".to_string(), category: "Chess".to_string() }),
        Ok(())
    );
    assert_eq!(ws.state.categories.len(), 1);
    assert_eq!(ws.state.students[0].preferences.len(), 1);

    assert_eq!(ws.apply(Command::ToggleMode), Ok(()));
    assert!(ws.state.multi_match_mode);

    assert_eq!(ws.apply(Command::RequestMatch), Ok(()));
    assert!(ws.state.result.is_some());
    assert_eq!(ws.apply(Command::ClearMatch), Ok(()));
    assert!(ws.state.result.is_none());

    assert_eq!(ws.apply(Command::ResetAll), Ok(()));
    assert!(ws.state.categories.is_empty());
    assert!(ws.state.students.is_empty());
    assert!(!ws.state.multi_match_mode);
}

#[test]
fn a_rejected_command_reports_its_error() {
    let mut ws = Workspace::new();
    ws.apply(Command::AddCategory { name: "Chess".to_string(), max_placements: 2 }).unwrap();
    assert_eq!(
        ws.apply(Command::AddCategory { name: "Chess".to_string(), max_placements: 1 }),
        Err(FieldError::DuplicateName)
    );
    assert_eq!(
        ws.apply(Command::AddCategory { name: "".to_string(), max_placements: 1 }),
        Err(FieldError::EmptyField)
    );
}

#[test]
fn edit_mode_holds_at_most_one_row_and_ends_with_the_commit() {
    let mut ws = Workspace::new();
    ws.apply(Command::AddCategory { name: "Chess".to_string(), max_placements: 2 }).unwrap();
    ws.apply(Command::AddStudent { name: "Ann".to_string() }).unwrap();

    ws.begin_edit(EditTarget::Category("Chess".to_string()));
    assert_eq!(ws.edit_mode, Some(EditTarget::Category("Chess".to_string())));

    // a second edit supersedes the first: one row at most is ever open
    ws.begin_edit(EditTarget::Student("Ann".to_string()));
    assert_eq!(ws.edit_mode, Some(EditTarget::Student("Ann".to_string())));

    assert_eq!(ws.rename_student(&"Ann".to_string(), &"Anna".to_string()), Ok(()));
    assert_eq!(ws.edit_mode, None);
    assert_eq!(ws.state.students[0].name, "Anna");
}

#[test]
fn a_rejected_rename_still_leaves_edit_mode() {
    let mut ws = Workspace::new();
    ws.apply(Command::AddCategory { name: "Chess".to_string(), max_placements: 2 }).unwrap();
    ws.apply(Command::AddCategory { name: "Art".to_string(), max_placements: 1 }).unwrap();
    ws.begin_edit(EditTarget::Category("Chess".to_string()));
    assert_eq!(
        ws.rename_category(&"Chess".to_string(), &"Art".to_string(), None),
        Err(FieldError::DuplicateName)
    );
    assert_eq!(ws.edit_mode, None);
    assert_eq!(ws.state.categories[0].name, "Chess");
}

#[test]
fn remove_commands_cascade() {
    let mut ws = Workspace::new();
    ws.apply(Command::AddCategory { name: "Chess".to_string(), max_placements: 2 }).unwrap();
    ws.apply(Command::AddStudent { name: "Ann".to_string() }).unwrap();
    ws.apply(Command::AddPreference { student: "Ann".to_string(), category: "Chess".to_string() })
        .unwrap();
    ws.apply(Command::RemoveCategory {
        category: Category { name: "Chess".to_string(), max_placements: 2 },
    }).unwrap();
    assert!(ws.state.categories.is_empty());
    assert!(ws.state.students[0].preferences.is_empty());
    ws.apply(Command::RemoveStudent { name: "Ann".to_string() }).unwrap();
    assert!(ws.state.students.is_empty());
}

#[test]
fn move_command_reorders() {
    let mut ws = Workspace::new();
    for name in ["A", "B", "C"] {
        ws.apply(Command::AddCategory { name: name.to_string(), max_placements: 1 }).unwrap();
    }
    ws.apply(Command::AddStudent { name: "Ann".to_string() }).unwrap();
    for name in ["A", "B", "C"] {
        ws.apply(Command::AddPreference { student: "Ann".to_string(), category: name.to_string() })
            .unwrap();
    }
    ws.apply(Command::MovePreference {
        student: "Ann".to_string(),
        dragged: "A".to_string(),
        target: "B".to_string(),
    }).unwrap();
    let names: Vec<String> = ws.state.students[0].preferences.iter().map(|c| c.name.clone()).collect();
    assert_eq!(names, vec!["B", "A", "C"]);
}
