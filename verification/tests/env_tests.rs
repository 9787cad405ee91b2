use rc_voting::env::{get_env, get_env_typed};

fn environment() -> Vec<(String, String)> {
    vec![
        ("HOME".to_string(), "/root".to_string()),
        ("PATH".to_string(), "/usr/local/bin:/usr/bin:/bin".to_string()),
        ("SHLVL".to_string(), "1".to_string()),
        ("PORT".to_string(), "not-a-number".to_string()),
    ]
}

#[test]
fn it_gets_env_variabls() {
    assert!(get_env(&environment(), "PATH", "test").len() > 4);
}

#[test]
fn it_gets_env_variabls_default() {
    assert!(get_env(&environment(), "FOOBAR", "test").eq("test"));
}

#[test]
fn it_gets_typed_env_variables() {
    assert!(get_env_typed::<u16>(&environment(), "SHLVL", 9) > 0);
}

#[test]
fn it_gets_typed_env_variables_default() {
    assert!(get_env_typed::<u16>(&environment(), "FOOBAR", 9) == 9);
}

#[test]
fn get_env_returns_the_value() {
    assert_eq!(get_env(&environment(), "PATH", "test"), "/usr/local/bin:/usr/bin:/bin");
}

#[test]
fn get_env_takes_the_first_of_repeated_keys() {
    let vars = vec![
        ("KEY".to_string(), "first".to_string()),
        ("KEY".to_string(), "second".to_string()),
    ];
    assert_eq!(get_env(&vars, "KEY", "none"), "first");
}

#[test]
fn get_env_in_empty_environment_gives_default() {
    assert_eq!(get_env(&Vec::new(), "PATH", "fallback"), "fallback");
}

#[test]
fn get_env_typed_parses_the_value() {
    assert_eq!(get_env_typed::<u16>(&environment(), "SHLVL", 9), 1);
}

#[test]
fn get_env_typed_falls_back_on_unparsable_value() {
    assert_eq!(get_env_typed::<u16>(&environment(), "PORT", 7000), 7000);
}

use rc_voting::env::value_or_default;

#[test]
fn value_or_default_keeps_a_parsed_value() {
    assert_eq!(value_or_default(Some(5u16), 9), 5);
    assert_eq!(value_or_default(None, 9u16), 9);
}
