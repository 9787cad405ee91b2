use rc_voting::graphql::{Mutation, Query, Subscription};

#[test]
fn echo_answers_with_the_room() {
    assert_eq!(Query::echo("lobby".to_string()), "lobby");
}

#[test]
fn test_mutation_answers_with_its_input() {
    assert_eq!(Mutation::test("payload".to_string()), "payload");
}

#[test]
fn hello_world_sends_two_messages() {
    assert_eq!(Subscription::hello_world(), vec!["Hello".to_string(), "World!".to_string()]);
}
