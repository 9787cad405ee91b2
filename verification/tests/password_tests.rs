use rc_voting::user_data::{decode_hex, LoginError, User, UserData};

// PBKDF2-HMAC-SHA1 test vectors of RFC 6070: password "password", salt "salt"
// ("73616c74"), 20-byte keys.
const RFC6070_ONE_ITERATION: &str = "1:73616c74:0c60c80f961f0e71f3a9b524af6012062fe037a6";
const RFC6070_TWO_ITERATIONS: &str = "2:73616c74:ea6c014dc72d6f8ccd1ed92ace1d41f0d8de8957";
const RFC6070_4096_ITERATIONS: &str = "4096:73616c74:4b007901b765489abead49d926f721d065a429c1";

#[test]
fn decode_hex_reads_pairs_in_either_case() {
    assert_eq!(decode_hex("0aFf").unwrap(), vec![0x0a, 0xff]);
    assert_eq!(decode_hex("00017f80").unwrap(), vec![0x00, 0x01, 0x7f, 0x80]);
}

#[test]
fn decode_hex_of_empty_text_is_empty() {
    assert_eq!(decode_hex("").unwrap(), Vec::<u8>::new());
}

#[test]
fn decode_hex_accepts_a_plus_sign_in_a_pair() {
    assert_eq!(decode_hex("+f00").unwrap(), vec![0x0f, 0x00]);
}

#[test]
fn decode_hex_refuses_non_hex_digits() {
    assert!(decode_hex("zz").is_err());
    assert!(decode_hex("0g").is_err());
    assert!(decode_hex("-1").is_err());
    assert!(decode_hex("00zz").is_err());
}

#[test]
fn validate_password_accepts_rfc6070_vectors() {
    assert!(UserData::validate_password("password", RFC6070_ONE_ITERATION));
    assert!(UserData::validate_password("password", RFC6070_TWO_ITERATIONS));
    assert!(UserData::validate_password("password", RFC6070_4096_ITERATIONS));
}

#[test]
fn validate_password_refuses_a_wrong_password() {
    assert!(!UserData::validate_password("passwore", RFC6070_ONE_ITERATION));
    assert!(!UserData::validate_password("", RFC6070_TWO_ITERATIONS));
}

#[test]
fn validate_password_trims_the_key_field() {
    let hash = format!("{}\n", RFC6070_ONE_ITERATION);
    assert!(UserData::validate_password("password", &hash));
}

#[test]
fn validate_password_ignores_fields_after_the_key() {
    let hash = format!("{}:extra", RFC6070_ONE_ITERATION);
    assert!(UserData::validate_password("password", &hash));
}

#[test]
fn validate_password_refuses_an_empty_key() {
    assert!(!UserData::validate_password("password", "1:73616c74:"));
}

#[test]
fn parse_password_hash_reads_the_fields() {
    let fields = UserData::parse_password_hash(RFC6070_4096_ITERATIONS).unwrap();
    assert_eq!(fields.iterations, 4096);
    assert_eq!(fields.salt, b"salt".to_vec());
    assert_eq!(fields.key.len(), 20);
    assert_eq!(fields.key[0], 0x4b);
    assert_eq!(fields.key[19], 0xc1);
}

#[test]
fn parse_password_hash_accepts_a_plus_before_the_iterations() {
    assert_eq!(UserData::parse_password_hash("+12:00:ff").unwrap().iterations, 12);
}

#[test]
fn parse_password_hash_refuses_unreadable_hashes() {
    assert!(UserData::parse_password_hash("1000").is_none());
    assert!(UserData::parse_password_hash("1000:abcd").is_none());
    assert!(UserData::parse_password_hash("0:ab:cd").is_none());
    assert!(UserData::parse_password_hash("x:ab:cd").is_none());
    assert!(UserData::parse_password_hash("4294967296:ab:cd").is_none());
    assert!(UserData::parse_password_hash("10:abc:cd").is_none());
    assert!(UserData::parse_password_hash("10:ab:zz").is_none());
}

#[test]
fn hash_password_with_salt_writes_the_fields() {
    let hash = UserData::hash_password_with_salt("password", b"salt");
    assert!(hash.starts_with("1000:73616c74:"));
    let key = &hash["1000:73616c74:".len()..];
    assert_eq!(key.len(), 40);
    assert!(key.chars().all(|c| c.is_ascii_hexdigit() && !c.is_ascii_uppercase()));
    assert_ne!(key, "0000000000000000000000000000000000000000");
}

#[test]
fn a_hash_with_salt_accepts_its_password_only() {
    let hash = UserData::hash_password_with_salt("correct horse", &[7u8; 24]);
    assert!(UserData::validate_password("correct horse", &hash));
    assert!(!UserData::validate_password("correct horsf", &hash));
}

#[test]
fn generated_hash_accepts_its_password_only() {
    let hash = UserData::generate_password_hash("s3cret").unwrap();
    assert!(UserData::validate_password("s3cret", &hash));
    assert!(!UserData::validate_password("s3cret!", &hash));
    let fields = UserData::parse_password_hash(&hash).unwrap();
    assert_eq!(fields.iterations, 1000);
    assert_eq!(fields.salt.len(), 24);
    assert_eq!(fields.key.len(), 20);
}

#[test]
fn generated_hashes_use_fresh_salts() {
    let first = UserData::generate_password_hash("same").unwrap();
    let second = UserData::generate_password_hash("same").unwrap();
    assert_ne!(first, second);
}

fn user_with_hash(hash: &str) -> User {
    User {
        uuid: "u-1".to_string(),
        email: "voter@example.com".to_string(),
        password_hash: hash.to_string(),
    }
}

#[test]
fn check_credentials_without_a_user_is_refused() {
    assert!(matches!(UserData::check_credentials(None, "password"), Err(LoginError::NoUserFound)));
}

#[test]
fn check_credentials_with_a_wrong_password_is_refused() {
    let found = Some(user_with_hash(RFC6070_ONE_ITERATION));
    assert!(matches!(UserData::check_credentials(found, "guess"), Err(LoginError::WrongPassword)));
}

#[test]
fn check_credentials_with_the_right_password_gives_the_user() {
    let found = Some(user_with_hash(RFC6070_ONE_ITERATION));
    match UserData::check_credentials(found, "password") {
        Ok(user) => assert_eq!(user.uuid, "u-1"),
        Err(_) => panic!("the right password was refused"),
    }
}

#[test]
fn login_errors_have_their_messages() {
    assert_eq!(LoginError::NoUserFound.message(), "no user found");
    assert_eq!(LoginError::WrongPassword.message(), "wrong password");
}
