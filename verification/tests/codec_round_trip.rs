use fair_assignment::codec::load;
use fair_assignment::codec::save;
use fair_assignment::model::AssignmentResult;
use fair_assignment::model::Category;
use fair_assignment::model::Placement;
use fair_assignment::model::Student;
use fair_assignment::model::WorkingState;

fn cat(name: &str, max: usize) -> Category {
    Category { name: name.to_string(), max_placements: max }
}

fn num(n: usize) -> String {
    format!("{:020}", n)
}

#[test]
fn save_produces_the_documented_layout() {
    let mut st = WorkingState::new();
    st.add_category("A".to_string(), 2).unwrap();
    let expected = format!(
        "{}{}A{}{}00",
        num(1), // one category
        num(1), // its name is one character
        num(2), // its capacity
        num(0), // no students
    );
    // trailing "00": single-assignment mode, no stored result
    assert_eq!(save(&st), expected);
}

#[test]
fn empty_state_round_trips() {
    let st = WorkingState::new();
    let text = save(&st);
    assert_eq!(load(Some(text.as_str())), st);
}

#[test]
fn populated_state_round_trips() {
    let mut st = WorkingState::new();
    st.add_category("Chess".to_string(), 2).unwrap();
    st.add_category("Art & Crafts".to_string(), 1).unwrap();
    st.add_student("Ann".to_string()).unwrap();
    st.add_student("Bo".to_string()).unwrap();
    st.add_preference(&"Ann".to_string(), &"Chess".to_string()).unwrap();
    st.add_preference(&"Ann".to_string(), &"Art & Crafts".to_string()).unwrap();
    st.add_exclude(&"Bo".to_string(), &"Art & Crafts".to_string()).unwrap();
    st.toggle_mode();
    let text = save(&st);
    assert_eq!(load(Some(text.as_str())), st);
}

#[test]
fn tricky_names_round_trip() {
    let mut st = WorkingState::new();
    st.add_category("00000000000000000001".to_string(), 3).unwrap();
    st.add_category("name with spaces".to_string(), 1).unwrap();
    st.add_category("émilie's übung 数学".to_string(), 7).unwrap();
    st.add_student("1".to_string()).unwrap();
    st.add_preference(&"1".to_string(), &"émilie's übung 数学".to_string()).unwrap();
    let text = save(&st);
    assert_eq!(load(Some(text.as_str())), st);
}

#[test]
fn stored_result_round_trips() {
    let mut st = WorkingState::new();
    st.add_category("Chess".to_string(), 2).unwrap();
    st.add_student("Ann".to_string()).unwrap();
    st.result = Some(AssignmentResult {
        placed: vec![Placement {
            category_name: "Chess".to_string(),
            students: vec![Student {
                name: "Ann".to_string(),
                preferences: vec![cat("Chess", 2)],
                exclude: vec![],
            }],
        }],
        not_placable: vec![Student {
            name: "Bo".to_string(),
            preferences: vec![],
            exclude: vec![],
        }],
    });
    let text = save(&st);
    assert_eq!(load(Some(text.as_str())), st);
}

#[test]
fn engine_result_round_trips() {
    let mut st = WorkingState::new();
    st.add_category("Chess".to_string(), 2).unwrap();
    st.add_student("Ann".to_string()).unwrap();
    st.add_student("Bo".to_string()).unwrap();
    st.add_preference(&"Ann".to_string(), &"Chess".to_string()).unwrap();
    st.add_preference(&"Bo".to_string(), &"Chess".to_string()).unwrap();
    st.request_match();
    assert!(st.result.is_some());
    let text = save(&st);
    assert_eq!(load(Some(text.as_str())), st);
}

#[test]
fn largest_capacity_round_trips() {
    let mut st = WorkingState::new();
    st.add_category("Big".to_string(), usize::MAX).unwrap();
    let text = save(&st);
    assert_eq!(load(Some(text.as_str())), st);
}

#[test]
fn missing_store_falls_back_to_empty() {
    assert_eq!(load(None), WorkingState::new());
}

#[test]
fn malformed_text_falls_back_to_empty() {
    assert_eq!(load(Some("")), WorkingState::new());
    assert_eq!(load(Some("not a saved state")), WorkingState::new());
    assert_eq!(load(Some("0000000000000000000x")), WorkingState::new());
    // a count that promises more items than the text holds
    assert_eq!(load(Some(&format!("{}", num(3)))), WorkingState::new());
}

#[test]
fn trailing_text_is_rejected() {
    let st = WorkingState::new();
    let mut text = save(&st);
    text.push('!');
    assert_eq!(load(Some(text.as_str())), WorkingState::new());
}

#[test]
fn text_with_an_uncountable_capacity_total_is_rejected() {
    // two capacities whose total overflows the machine word: parses,
    // but breaks the invariant
    let st = WorkingState {
        categories: vec![cat("A", usize::MAX), cat("B", usize::MAX)],
        students: vec![],
        multi_match_mode: false,
        result: None,
    };
    let text = save(&st);
    assert_eq!(load(Some(text.as_str())), WorkingState::new());
}

#[test]
fn text_encoding_an_ill_formed_state_is_rejected() {
    // two categories sharing a name: parses, but breaks the invariant
    let mut st = WorkingState::new();
    st.add_category("A".to_string(), 2).unwrap();
    st.categories.push(cat("A", 3));
    let text = save(&st);
    assert_eq!(load(Some(text.as_str())), WorkingState::new());
}
