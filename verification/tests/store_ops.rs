use fair_assignment::model::Category;
use fair_assignment::model::FieldError;
use fair_assignment::model::WorkingState;

fn cat(name: &str, max: usize) -> Category {
    Category { name: name.to_string(), max_placements: max }
}

#[test]
fn add_category_appends() {
    let mut st = WorkingState::new();
    assert_eq!(st.add_category("Cooking".to_string(), 10), Ok(()));
    assert_eq!(st.add_category("Reading".to_string(), 5), Ok(()));
    assert_eq!(st.categories.len(), 2);
    assert_eq!(st.categories[0], cat("Cooking", 10));
    assert_eq!(st.categories[1], cat("Reading", 5));
}

#[test]
fn add_category_rejects_blank_name() {
    let mut st = WorkingState::new();
    assert_eq!(st.add_category("".to_string(), 3), Err(FieldError::EmptyField));
    assert!(st.categories.is_empty());
}

#[test]
fn add_category_rejects_zero_capacity() {
    let mut st = WorkingState::new();
    assert_eq!(st.add_category("Cooking".to_string(), 0), Err(FieldError::EmptyField));
    assert!(st.categories.is_empty());
}

#[test]
fn add_category_rejects_duplicate_name_even_with_other_capacity() {
    let mut st = WorkingState::new();
    assert_eq!(st.add_category("Cooking".to_string(), 10), Ok(()));
    assert_eq!(st.add_category("Cooking".to_string(), 10), Err(FieldError::DuplicateName));
    assert_eq!(st.add_category("Cooking".to_string(), 7), Err(FieldError::DuplicateName));
    assert_eq!(st.categories.len(), 1);
}

#[test]
fn capacity_total_beyond_the_machine_is_rejected() {
    let mut st = WorkingState::new();
    assert_eq!(st.add_category("Big".to_string(), usize::MAX).unwrap(), ());
    assert_eq!(st.add_category("One More".to_string(), 1), Err(FieldError::EmptyField));
    assert_eq!(st.categories.len(), 1);
}

#[test]
fn rename_capacity_beyond_the_machine_total_is_rejected() {
    let mut st = WorkingState::new();
    st.add_category("A".to_string(), usize::MAX - 1).unwrap();
    st.add_category("B".to_string(), 1).unwrap();
    assert_eq!(
        st.rename_category(&"B".to_string(), &"B".to_string(), Some(2)),
        Err(FieldError::EmptyField)
    );
    assert_eq!(st.categories[1], cat("B", 1));
    // shrinking the big one first makes room
    assert_eq!(
        st.rename_category(&"A".to_string(), &"A".to_string(), Some(1)),
        Ok(())
    );
    assert_eq!(st.rename_category(&"B".to_string(), &"B".to_string(), Some(2)), Ok(()));
    assert_eq!(st.categories[1], cat("B", 2));
}

#[test]
fn add_student_unique_names() {
    let mut st = WorkingState::new();
    assert_eq!(st.add_student("Bert".to_string()), Ok(()));
    assert_eq!(st.add_student("Suze".to_string()), Ok(()));
    assert_eq!(st.add_student("Bert".to_string()), Err(FieldError::DuplicateName));
    assert_eq!(st.add_student("".to_string()), Err(FieldError::EmptyField));
    assert_eq!(st.students.len(), 2);
    assert_eq!(st.students[0].name, "Bert");
    assert_eq!(st.students[1].name, "Suze");
    assert!(st.students[0].preferences.is_empty());
    assert!(st.students[0].exclude.is_empty());
}

#[test]
fn rename_category_cascades_into_student_lists() {
    let mut st = WorkingState::new();
    st.add_category("Chess".to_string(), 2).unwrap();
    st.add_category("Art".to_string(), 1).unwrap();
    st.add_student("Ann".to_string()).unwrap();
    st.add_student("Bo".to_string()).unwrap();
    st.add_preference(&"Ann".to_string(), &"Chess".to_string()).unwrap();
    st.add_preference(&"Ann".to_string(), &"Art".to_string()).unwrap();
    st.add_exclude(&"Bo".to_string(), &"Chess".to_string()).unwrap();

    assert_eq!(st.rename_category(&"Chess".to_string(), &"Chess Club".to_string(), Some(4)), Ok(()));

    assert_eq!(st.categories[0], cat("Chess Club", 4));
    assert_eq!(st.categories[1], cat("Art", 1));
    assert_eq!(st.students[0].preferences[0], cat("Chess Club", 4));
    assert_eq!(st.students[0].preferences[1], cat("Art", 1));
    assert_eq!(st.students[1].exclude[0], cat("Chess Club", 4));
}

#[test]
fn rename_category_capacity_only_change_keeps_name() {
    let mut st = WorkingState::new();
    st.add_category("Chess".to_string(), 2).unwrap();
    st.add_student("Ann".to_string()).unwrap();
    st.add_preference(&"Ann".to_string(), &"Chess".to_string()).unwrap();
    assert_eq!(st.rename_category(&"Chess".to_string(), &"Chess".to_string(), Some(9)), Ok(()));
    assert_eq!(st.categories[0], cat("Chess", 9));
    assert_eq!(st.students[0].preferences[0], cat("Chess", 9));
}

#[test]
fn rename_category_collision_is_rejected_and_state_unchanged() {
    let mut st = WorkingState::new();
    st.add_category("Chess".to_string(), 2).unwrap();
    st.add_category("Art".to_string(), 1).unwrap();
    st.add_student("Ann".to_string()).unwrap();
    st.add_preference(&"Ann".to_string(), &"Chess".to_string()).unwrap();

    assert_eq!(
        st.rename_category(&"Chess".to_string(), &"Art".to_string(), None),
        Err(FieldError::DuplicateName)
    );
    assert_eq!(st.categories[0], cat("Chess", 2));
    assert_eq!(st.categories[1], cat("Art", 1));
    assert_eq!(st.students[0].preferences[0], cat("Chess", 2));
}

#[test]
fn rename_category_missing_old_name_is_silent() {
    let mut st = WorkingState::new();
    st.add_category("Chess".to_string(), 2).unwrap();
    assert_eq!(st.rename_category(&"Nowhere".to_string(), &"Somewhere".to_string(), None), Ok(()));
    assert_eq!(st.categories.len(), 1);
    assert_eq!(st.categories[0], cat("Chess", 2));
}

#[test]
fn rename_category_rejects_blank_or_zero() {
    let mut st = WorkingState::new();
    st.add_category("Chess".to_string(), 2).unwrap();
    assert_eq!(
        st.rename_category(&"Chess".to_string(), &"".to_string(), None),
        Err(FieldError::EmptyField)
    );
    assert_eq!(
        st.rename_category(&"Chess".to_string(), &"Chess".to_string(), Some(0)),
        Err(FieldError::EmptyField)
    );
    assert_eq!(st.categories[0], cat("Chess", 2));
}

#[test]
fn rename_student_changes_only_the_name() {
    let mut st = WorkingState::new();
    st.add_category("Chess".to_string(), 2).unwrap();
    st.add_student("Ann".to_string()).unwrap();
    st.add_student("Bo".to_string()).unwrap();
    st.add_preference(&"Ann".to_string(), &"Chess".to_string()).unwrap();
    assert_eq!(st.rename_student(&"Ann".to_string(), &"Anna".to_string()), Ok(()));
    assert_eq!(st.students[0].name, "Anna");
    assert_eq!(st.students[0].preferences[0], cat("Chess", 2));
    assert_eq!(
        st.rename_student(&"Anna".to_string(), &"Bo".to_string()),
        Err(FieldError::DuplicateName)
    );
    assert_eq!(st.students[0].name, "Anna");
}

#[test]
fn remove_category_cascades_everywhere() {
    let mut st = WorkingState::new();
    st.add_category("Chess".to_string(), 2).unwrap();
    st.add_category("Art".to_string(), 1).unwrap();
    st.add_student("Ann".to_string()).unwrap();
    st.add_student("Bo".to_string()).unwrap();
    st.add_preference(&"Ann".to_string(), &"Chess".to_string()).unwrap();
    st.add_preference(&"Ann".to_string(), &"Art".to_string()).unwrap();
    st.add_exclude(&"Bo".to_string(), &"Chess".to_string()).unwrap();

    st.remove_category(&cat("Chess", 2));

    assert_eq!(st.categories.len(), 1);
    assert_eq!(st.categories[0], cat("Art", 1));
    assert_eq!(st.students[0].preferences, vec![cat("Art", 1)]);
    assert!(st.students[1].exclude.is_empty());
}

#[test]
fn remove_category_matches_by_value() {
    let mut st = WorkingState::new();
    st.add_category("Chess".to_string(), 2).unwrap();
    st.remove_category(&cat("Chess", 5));
    assert_eq!(st.categories.len(), 1);
    st.remove_category(&cat("Chess", 2));
    assert!(st.categories.is_empty());
}

#[test]
fn remove_student_removes_only_that_student() {
    let mut st = WorkingState::new();
    st.add_student("Ann".to_string()).unwrap();
    st.add_student("Bo".to_string()).unwrap();
    st.remove_student(&"Ann".to_string());
    assert_eq!(st.students.len(), 1);
    assert_eq!(st.students[0].name, "Bo");
    st.remove_student(&"Nobody".to_string());
    assert_eq!(st.students.len(), 1);
}

#[test]
fn uniqueness_holds_after_any_sequence_of_adds() {
    let mut st = WorkingState::new();
    let names = ["a", "b", "a", "c", "b", "d"];
    for n in names.iter() {
        let _ = st.add_category(n.to_string(), 1);
        let _ = st.add_student(n.to_string());
        for i in 0..st.categories.len() {
            for j in (i + 1)..st.categories.len() {
                assert_ne!(st.categories[i].name, st.categories[j].name);
            }
        }
        for i in 0..st.students.len() {
            for j in (i + 1)..st.students.len() {
                assert_ne!(st.students[i].name, st.students[j].name);
            }
        }
    }
    assert_eq!(st.categories.len(), 4);
    assert_eq!(st.students.len(), 4);
}
