use fair_assignment::model::Category;
use fair_assignment::model::WorkingState;

fn scenario() -> WorkingState {
    let mut st = WorkingState::new();
    st.add_category("Chess".to_string(), 2).unwrap();
    st.add_category("Art".to_string(), 1).unwrap();
    st.add_student("Ann".to_string()).unwrap();
    st.add_student("Bo".to_string()).unwrap();
    st.add_student("Cy".to_string()).unwrap();
    st.add_preference(&"Ann".to_string(), &"Chess".to_string()).unwrap();
    st.add_preference(&"Ann".to_string(), &"Art".to_string()).unwrap();
    st.add_preference(&"Bo".to_string(), &"Chess".to_string()).unwrap();
    st.add_preference(&"Cy".to_string(), &"Art".to_string()).unwrap();
    st.add_preference(&"Cy".to_string(), &"Chess".to_string()).unwrap();
    st
}

#[test]
fn single_assignment_fills_both_categories() {
    let mut st = scenario();
    st.request_match();
    let result = st.result.as_ref().expect("a match was requested");

    let chess = result.placed_for(&"Chess".to_string()).expect("Chess is filled");
    let art = result.placed_for(&"Art".to_string()).expect("Art is filled");
    assert_eq!(chess.len(), 2);
    assert_eq!(art.len(), 1);
    assert!(result.not_placable.is_empty());

    let mut placed_names: Vec<String> = chess.iter().chain(art.iter()).map(|s| s.name.clone()).collect();
    placed_names.sort();
    assert_eq!(placed_names, vec!["Ann", "Bo", "Cy"]);
}

#[test]
fn rename_after_match_rewrites_every_preference() {
    let mut st = scenario();
    st.request_match();
    st.rename_category(&"Chess".to_string(), &"Chess Club".to_string(), None).unwrap();

    // the stored result is discarded by the edit
    assert!(st.result.is_none());
    let renamed = Category { name: "Chess Club".to_string(), max_placements: 2 };
    assert_eq!(st.students[0].preferences[0], renamed);
    assert_eq!(st.students[1].preferences[0], renamed);
    assert_eq!(st.students[2].preferences[1], renamed);
    for s in st.students.iter() {
        assert!(s.preferences.iter().all(|c| c.name != "Chess"));
    }
}

#[test]
fn multi_assignment_can_place_a_student_twice() {
    let mut st = WorkingState::new();
    st.add_category("Cooking".to_string(), 2).unwrap();
    st.add_category("Reading".to_string(), 2).unwrap();
    st.add_student("Bert".to_string()).unwrap();
    st.add_preference(&"Bert".to_string(), &"Cooking".to_string()).unwrap();
    st.add_preference(&"Bert".to_string(), &"Reading".to_string()).unwrap();
    st.toggle_mode();
    assert!(st.multi_match_mode);
    st.request_match();
    let result = st.result.as_ref().expect("a match was requested");
    let cooking = result.placed_for(&"Cooking".to_string()).expect("Cooking is filled");
    let reading = result.placed_for(&"Reading".to_string()).expect("Reading is filled");
    assert_eq!(cooking.len(), 1);
    assert_eq!(reading.len(), 1);
    assert!(result.not_placable.is_empty());
}

#[test]
fn excluded_category_never_receives_the_student() {
    let mut st = WorkingState::new();
    st.add_category("Chess".to_string(), 5).unwrap();
    st.add_category("Art".to_string(), 5).unwrap();
    st.add_student("Ann".to_string()).unwrap();
    st.add_preference(&"Ann".to_string(), &"Art".to_string()).unwrap();
    st.add_exclude(&"Ann".to_string(), &"Chess".to_string()).unwrap();
    st.request_match();
    let result = st.result.as_ref().expect("a match was requested");
    if let Some(chess) = result.placed_for(&"Chess".to_string()) {
        assert!(chess.iter().all(|s| s.name != "Ann"));
    }
    let art = result.placed_for(&"Art".to_string()).expect("Art is filled");
    assert_eq!(art.len(), 1);
    assert_eq!(art[0].name, "Ann");
}

#[test]
fn silent_no_ops_keep_the_stored_assignment() {
    let mut st = scenario();
    st.request_match();
    assert!(st.result.is_some());
    st.rename_category(&"Nowhere".to_string(), &"Elsewhere".to_string(), None).unwrap();
    assert!(st.result.is_some());
    st.rename_student(&"Nobody".to_string(), &"Someone".to_string()).unwrap();
    assert!(st.result.is_some());
    st.remove_category(&Category { name: "Chess".to_string(), max_placements: 99 });
    assert!(st.result.is_some());
    st.remove_student(&"Nobody".to_string());
    assert!(st.result.is_some());
    // an edit that changes an entity still discards it
    st.remove_student(&"Cy".to_string());
    assert!(st.result.is_none());
}

#[test]
fn clear_match_discards_the_result() {
    let mut st = scenario();
    st.request_match();
    assert!(st.result.is_some());
    st.clear_match();
    assert!(st.result.is_none());
    assert_eq!(st.categories.len(), 2);
    assert_eq!(st.students.len(), 3);
}
