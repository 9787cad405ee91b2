//! The operations of the GraphQL schema.

use vstd::prelude::*;
use vstd::string::*;

verus! {

/// The root of GraphQL queries.
pub struct Query;

/// The root of GraphQL mutations.
pub struct Mutation;

/// The root of GraphQL subscriptions.
pub struct Subscription;

impl Query {
    /// The `echo` query answers with the room it was given.
    pub fn echo(room: String) -> (r: String)
        ensures
            r == room,
    {
        room
    }
}

impl Mutation {
    /// The `test` mutation answers with its input.
    pub fn test(input: String) -> (r: String)
        ensures
            r == input,
    {
        input
    }
}

impl Subscription {
    /// The messages of the `helloWorld` subscription, in the order sent.
    pub fn hello_world() -> (r: Vec<String>)
        ensures
            r@.len() == 2,
            r@[0]@ == "Hello"@,
            r@[1]@ == "World!"@,
    {
        let mut r: Vec<String> = Vec::new();
        r.push(String::from_str("Hello"));
        r.push(String::from_str("World!"));
        r
    }
}

} // verus!
