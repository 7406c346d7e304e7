use desktopper::trello::{check_state_from_str, check_state_str, Board, CheckItem, Checklist, ID};

#[test]
fn state_strings_round_trip() {
    assert_eq!(check_state_str(true), "complete");
    assert_eq!(check_state_str(false), "incomplete");
    assert!(check_state_from_str("complete"));
    assert!(!check_state_from_str("incomplete"));
    // the reader keys on "in": anything else counts as complete
    assert!(check_state_from_str("done"));
    assert!(!check_state_from_str("pending"));
}

#[test]
fn identifiers_come_back_from_each_record() {
    let board = Board {
        name: "planning".to_string(),
        url: "about:blank".to_string(),
        id: "0000".to_string(),
        desc: String::new(),
    };
    assert_eq!(board.get_id(), "0000");
    let item = CheckItem {
        id_checklist: "1234".to_string(),
        state: false,
        id: "abcd".to_string(),
        name: "Jackson".to_string(),
    };
    assert_eq!(item.get_id(), "abcd");
    let list = Checklist {
        id: "xyz".to_string(),
        name: "steps".to_string(),
        check_items: vec![item],
    };
    assert_eq!(list.get_id(), "xyz");
    assert!(!list.check_items[0].state);
}
