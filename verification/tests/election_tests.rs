use rc_voting::election::Election;

fn election() -> Election {
    Election {
        uuid: "e-7".to_string(),
        name: "Lunch".to_string(),
        owner_uuid: "u-1".to_string(),
    }
}

#[test]
fn election_page_path() {
    assert_eq!(election().page_path(), "/elections/e-7");
}

#[test]
fn election_voting_path() {
    assert_eq!(election().voting_path(), "/voting/e-7");
}
