//! Looking up configuration values in a snapshot of the process environment.
//!
//! The environment is handed in as the list of `(key, value)` pairs in the
//! order in which the process reports them.

use vstd::prelude::*;

verus! {

/// The value of the first entry whose key is `key`, if there is one.
pub open spec fn env_lookup(vars: Seq<(Seq<char>, Seq<char>)>, key: Seq<char>) -> Option<Seq<char>>
    decreases vars.len(),
{
    if vars.len() == 0 {
        None
    } else if vars[0].0 == key {
        Some(vars[0].1)
    } else {
        env_lookup(vars.drop_first(), key)
    }
}

/// The view of an environment snapshot: each pair of strings by its characters.
pub open spec fn env_view(vars: Seq<(String, String)>) -> Seq<(Seq<char>, Seq<char>)> {
    vars.map_values(|p: (String, String)| (p.0@, p.1@))
}

/// Finds the position of the first entry whose key is `key`.
fn find_key(vars: &Vec<(String, String)>, key: &String) -> (r: Option<usize>)
    ensures
        env_lookup(env_view(vars@), key@) == (match r {
            Some(i) => Some(vars@[i as int].1@),
            None => None::<Seq<char>>,
        }),
        r matches Some(i) ==> i < vars@.len(),
{
    let mut i: usize = 0;
    assert(env_view(vars@).skip(0) =~= env_view(vars@));
    while i < vars.len()
        invariant
            i <= vars@.len(),
            env_lookup(env_view(vars@), key@) == env_lookup(env_view(vars@).skip(i as int), key@),
        decreases vars@.len() - i,
    {
        let ghost rest = env_view(vars@).skip(i as int);
        assert(rest[0] == (vars@[i as int].0@, vars@[i as int].1@));
        if vars[i].0 == *key {
            return Some(i);
        }
        assert(rest.drop_first() =~= env_view(vars@).skip(i + 1));
        i = i + 1;
    }
    assert(env_view(vars@).skip(i as int).len() == 0);
    None
}

/// Returns the value of the environment variable `search_key`, or `default`
/// when the environment has no such variable.
pub fn get_env(vars: &Vec<(String, String)>, search_key: &str, default: &str) -> (r: String)
    ensures
        r@ == (match env_lookup(env_view(vars@), search_key@) {
            Some(v) => v,
            None => default@,
        }),
{
    let key = String::from_str(search_key);
    match find_key(vars, &key) {
        Some(i) => vars[i].1.clone(),
        None => String::from_str(default),
    }
}

} // verus!

verus! {

/// Calls `str::parse::<T>`, keeping the value when parsing succeeds.
///
/// What comes back depends on `T`'s `FromStr` implementation, so nothing is
/// promised of it.
#[verifier::external_body]
fn parse_value<T: core::str::FromStr>(text: &str) -> Option<T> {
    text.parse::<T>().ok()
}

/// The value that a parse gave, or `default` when the parse failed.
pub fn value_or_default<T>(parsed: Option<T>, default: T) -> (r: T)
    ensures
        r == (match parsed {
            Some(v) => v,
            None => default,
        }),
{
    match parsed {
        Some(value) => value,
        None => default,
    }
}

/// Returns the environment variable `search_key` parsed as a `T`, or
/// `default` when the variable is absent or does not parse.
pub fn get_env_typed<T: core::str::FromStr>(vars: &Vec<(String, String)>, search_key: &str, default: T) -> (r: T)
    ensures
        env_lookup(env_view(vars@), search_key@) is None ==> r == default,
{
    let key = String::from_str(search_key);
    match find_key(vars, &key) {
        Some(i) => value_or_default(parse_value::<T>(vars[i].1.as_str()), default),
        None => default,
    }
}

} // verus!
