use rc_voting::ballot::{
    add_item_vote, down_arrow_hidden, move_item_down, move_item_up, remove_item_vote,
    up_arrow_hidden, voted_item_uuids, Ballot, Item,
};

fn item(uuid: &str) -> Item {
    Item {
        uuid: uuid.to_string(),
        election_uuid: "e-1".to_string(),
        title: format!("title {}", uuid),
        body: String::new(),
        done: false,
    }
}

/// Options a, b, c ranked in that order, and d unranked.
fn ballot_items() -> Vec<(Item, Option<i32>)> {
    vec![(item("a"), Some(0)), (item("b"), Some(1)), (item("c"), Some(2)), (item("d"), None)]
}

fn votes(b: Option<Ballot>) -> Vec<String> {
    let b = b.expect("a ballot to save");
    assert_eq!(b.election_uuid, "e-1");
    b.votes
}

fn strings(v: &[&str]) -> Vec<String> {
    v.iter().map(|s| s.to_string()).collect()
}

#[test]
fn voted_item_uuids_keeps_ranked_options_in_order() {
    assert_eq!(voted_item_uuids(&ballot_items()), strings(&["a", "b", "c"]));
}

#[test]
fn moving_up_swaps_with_the_previous_option() {
    assert_eq!(votes(move_item_up(&ballot_items(), &item("c"), true, "e-1")), strings(&["a", "c", "b"]));
}

#[test]
fn moving_up_the_first_option_saves_nothing() {
    assert!(move_item_up(&ballot_items(), &item("a"), true, "e-1").is_none());
}

#[test]
fn moving_an_unranked_option_saves_nothing() {
    assert!(move_item_up(&ballot_items(), &item("d"), false, "e-1").is_none());
    assert!(move_item_down(&ballot_items(), &item("d"), false, "e-1").is_none());
    assert!(remove_item_vote(&ballot_items(), &item("d"), false, "e-1").is_none());
}

#[test]
fn moving_down_swaps_with_the_next_option() {
    assert_eq!(votes(move_item_down(&ballot_items(), &item("a"), true, "e-1")), strings(&["b", "a", "c"]));
}

#[test]
fn moving_down_the_last_option_saves_nothing() {
    assert!(move_item_down(&ballot_items(), &item("c"), true, "e-1").is_none());
}

#[test]
fn moving_an_option_missing_from_the_ranking_saves_nothing() {
    assert!(move_item_up(&ballot_items(), &item("x"), true, "e-1").is_none());
    assert!(move_item_down(&ballot_items(), &item("x"), true, "e-1").is_none());
}

#[test]
fn removing_a_vote_drops_the_option() {
    assert_eq!(votes(remove_item_vote(&ballot_items(), &item("b"), true, "e-1")), strings(&["a", "c"]));
}

#[test]
fn adding_a_vote_appends_the_option() {
    assert_eq!(votes(add_item_vote(&ballot_items(), &item("d"), false, "e-1")), strings(&["a", "b", "c", "d"]));
}

#[test]
fn adding_a_vote_for_a_ranked_option_saves_nothing() {
    assert!(add_item_vote(&ballot_items(), &item("a"), true, "e-1").is_none());
}

#[test]
fn move_down_then_up_restores_the_ranking() {
    let moved = votes(move_item_down(&ballot_items(), &item("b"), true, "e-1"));
    assert_eq!(moved, strings(&["a", "c", "b"]));
    let reloaded: Vec<(Item, Option<i32>)> =
        moved.iter().enumerate().map(|(i, u)| (item(u), Some(i as i32))).collect();
    assert_eq!(votes(move_item_up(&reloaded, &item("b"), true, "e-1")), strings(&["a", "b", "c"]));
}

#[test]
fn add_then_remove_restores_the_ranking() {
    let added = votes(add_item_vote(&ballot_items(), &item("d"), false, "e-1"));
    let reloaded: Vec<(Item, Option<i32>)> =
        added.iter().enumerate().map(|(i, u)| (item(u), Some(i as i32))).collect();
    assert_eq!(votes(remove_item_vote(&reloaded, &item("d"), true, "e-1")), strings(&["a", "b", "c"]));
}

#[test]
fn the_up_arrow_is_hidden_for_the_first_option_only() {
    assert!(up_arrow_hidden(Some(0)));
    assert!(!up_arrow_hidden(Some(1)));
    assert!(!up_arrow_hidden(None));
}

#[test]
fn the_down_arrow_is_hidden_for_the_last_option() {
    assert!(down_arrow_hidden(Some(2), 3));
    assert!(!down_arrow_hidden(Some(1), 3));
    assert!(!down_arrow_hidden(None, 3));
    assert!(down_arrow_hidden(None, 1));
}

use rc_voting::ballot::ballot_sections;

#[test]
fn ballot_sections_split_ranked_and_unranked() {
    let items = vec![(item("a"), None), (item("b"), Some(0)), (item("c"), None), (item("d"), Some(1))];
    assert_eq!(ballot_sections(&items), (vec![1, 3], vec![0, 2]));
}

#[test]
fn ballot_sections_of_no_options_are_empty() {
    assert_eq!(ballot_sections(&Vec::new()), (Vec::new(), Vec::new()));
}
