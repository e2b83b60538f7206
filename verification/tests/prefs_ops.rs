use fair_assignment::model::Category;
use fair_assignment::model::FieldError;
use fair_assignment::model::WorkingState;

fn cat(name: &str, max: usize) -> Category {
    Category { name: name.to_string(), max_placements: max }
}

fn state_with_prefs() -> WorkingState {
    let mut st = WorkingState::new();
    st.add_category("A".to_string(), 1).unwrap();
    st.add_category("B".to_string(), 1).unwrap();
    st.add_category("C".to_string(), 1).unwrap();
    st.add_student("Ann".to_string()).unwrap();
    st.add_preference(&"Ann".to_string(), &"A".to_string()).unwrap();
    st.add_preference(&"Ann".to_string(), &"B".to_string()).unwrap();
    st.add_preference(&"Ann".to_string(), &"C".to_string()).unwrap();
    st
}

fn pref_names(st: &WorkingState) -> Vec<String> {
    st.students[0].preferences.iter().map(|c| c.name.clone()).collect()
}

#[test]
fn add_preference_appends_store_value_at_tail() {
    let st = state_with_prefs();
    assert_eq!(st.students[0].preferences, vec![cat("A", 1), cat("B", 1), cat("C", 1)]);
}

#[test]
fn add_preference_rejects_duplicates_and_conflicts() {
    let mut st = state_with_prefs();
    assert_eq!(
        st.add_preference(&"Ann".to_string(), &"A".to_string()),
        Err(FieldError::DuplicateName)
    );
    st.add_student("Bo".to_string()).unwrap();
    st.add_exclude(&"Bo".to_string(), &"A".to_string()).unwrap();
    assert_eq!(
        st.add_preference(&"Bo".to_string(), &"A".to_string()),
        Err(FieldError::DuplicateName)
    );
    assert_eq!(
        st.add_exclude(&"Bo".to_string(), &"A".to_string()),
        Err(FieldError::DuplicateName)
    );
}

#[test]
fn add_preference_missing_targets_are_silent() {
    let mut st = state_with_prefs();
    assert_eq!(st.add_preference(&"Nobody".to_string(), &"A".to_string()), Ok(()));
    assert_eq!(st.add_preference(&"Ann".to_string(), &"Nothing".to_string()), Ok(()));
    assert_eq!(st.students[0].preferences.len(), 3);
}

#[test]
fn add_exclude_appends() {
    let mut st = WorkingState::new();
    st.add_category("A".to_string(), 1).unwrap();
    st.add_student("Ann".to_string()).unwrap();
    st.add_exclude(&"Ann".to_string(), &"A".to_string()).unwrap();
    assert_eq!(st.students[0].exclude, vec![cat("A", 1)]);
}

#[test]
fn move_preference_dragged_takes_targets_former_slot() {
    let mut st = state_with_prefs();
    st.move_preference(&"Ann".to_string(), &"A".to_string(), &"B".to_string());
    assert_eq!(pref_names(&st), vec!["B", "A", "C"]);
}

#[test]
fn move_preference_moving_last_onto_first() {
    let mut st = state_with_prefs();
    st.move_preference(&"Ann".to_string(), &"C".to_string(), &"A".to_string());
    assert_eq!(pref_names(&st), vec!["C", "A", "B"]);
}

#[test]
fn move_preference_missing_entry_is_a_no_op() {
    let mut st = state_with_prefs();
    st.move_preference(&"Ann".to_string(), &"Z".to_string(), &"A".to_string());
    assert_eq!(pref_names(&st), vec!["A", "B", "C"]);
    st.move_preference(&"Ann".to_string(), &"A".to_string(), &"Z".to_string());
    assert_eq!(pref_names(&st), vec!["A", "B", "C"]);
    st.move_preference(&"Nobody".to_string(), &"A".to_string(), &"B".to_string());
    assert_eq!(pref_names(&st), vec!["A", "B", "C"]);
}

#[test]
fn remove_preference_removes_the_entry() {
    let mut st = state_with_prefs();
    st.remove_preference(&"Ann".to_string(), &"B".to_string());
    assert_eq!(pref_names(&st), vec!["A", "C"]);
}

#[test]
fn remove_preference_absent_entry_changes_nothing() {
    let mut st = state_with_prefs();
    st.remove_preference(&"Ann".to_string(), &"Z".to_string());
    assert_eq!(pref_names(&st), vec!["A", "B", "C"]);
    st.remove_preference(&"Nobody".to_string(), &"A".to_string());
    assert_eq!(pref_names(&st), vec!["A", "B", "C"]);
}

#[test]
fn remove_exclude_is_symmetric() {
    let mut st = WorkingState::new();
    st.add_category("A".to_string(), 1).unwrap();
    st.add_category("B".to_string(), 1).unwrap();
    st.add_student("Ann".to_string()).unwrap();
    st.add_exclude(&"Ann".to_string(), &"A".to_string()).unwrap();
    st.add_exclude(&"Ann".to_string(), &"B".to_string()).unwrap();
    st.remove_exclude(&"Ann".to_string(), &"A".to_string());
    assert_eq!(st.students[0].exclude, vec![cat("B", 1)]);
    st.remove_exclude(&"Ann".to_string(), &"Z".to_string());
    assert_eq!(st.students[0].exclude, vec![cat("B", 1)]);
}
