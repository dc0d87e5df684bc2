use kem_session::user::{fixed_bytes_to_string, string_to_fixed_bytes, UserData, UserLogin};

#[test]
fn test_str_to_u8_arr() {
    let mut expected1 = [0u8; 256];
    let bytes1 = b"Hello World!";
    expected1[..bytes1.len()].copy_from_slice(bytes1);
    assert_eq!(
        string_to_fixed_bytes("Hello World!"),
        expected1,
        "Failed on input: 'Hello World!'"
    );

    assert_eq!(string_to_fixed_bytes(""), [0u8; 256], "Failed on empty string");

    let input_256 = "a".repeat(256);
    let mut expected2 = [0u8; 256];
    expected2.copy_from_slice(input_256.as_bytes());
    assert_eq!(
        string_to_fixed_bytes(&input_256),
        expected2,
        "Failed on 256-character string"
    );

    let input_long = "b".repeat(300);
    let mut expected3 = [0u8; 256];
    expected3.copy_from_slice(&input_long.as_bytes()[..256]);
    assert_eq!(
        string_to_fixed_bytes(&input_long),
        expected3,
        "Failed on string longer than 256 characters"
    );

    let special = "Rüst!";
    let mut expected4 = [0u8; 256];
    let special_bytes = special.as_bytes();
    expected4[..special_bytes.len()].copy_from_slice(special_bytes);
    assert_eq!(
        string_to_fixed_bytes(special),
        expected4,
        "Failed on special character string"
    );
}

#[test]
fn test_u8_to_str() {
    let mut expected1 = [0u8; 256];
    let bytes1 = b"Hello World!";
    expected1[..bytes1.len()].copy_from_slice(bytes1);
    assert_eq!(
        fixed_bytes_to_string(&expected1),
        "Hello World!",
        "Failed on input: 'Hello World!'"
    );

    assert_eq!(fixed_bytes_to_string(&[0u8; 256]), "", "Failed on empty string");

    let input_256 = "a".repeat(256);
    let mut expected2 = [0u8; 256];
    expected2.copy_from_slice(input_256.as_bytes());
    assert_eq!(
        fixed_bytes_to_string(&expected2),
        input_256,
        "Failed on 256-character string"
    );

    let mut input_long = "b".repeat(300);
    let mut expected3 = [0u8; 256];
    expected3.copy_from_slice(&input_long.as_bytes()[..256]);
    input_long.truncate(256);
    assert_eq!(
        fixed_bytes_to_string(&expected3),
        input_long,
        "Failed on string longer than 256 characters"
    );

    let special = "Rüst!";
    let mut expected4 = [0u8; 256];
    let special_bytes = special.as_bytes();
    expected4[..special_bytes.len()].copy_from_slice(special_bytes);
    assert_eq!(
        fixed_bytes_to_string(&expected4),
        special,
        "Failed on special character string"
    );
}

#[test]
fn fixed_bytes_to_string_replaces_invalid_utf8() {
    let mut field = [0u8; 256];
    field[0] = b'a';
    field[1] = 0xff;
    field[2] = b'b';
    assert_eq!(fixed_bytes_to_string(&field), "a\u{fffd}b");
}

#[test]
fn fixed_bytes_to_string_stops_at_first_zero() {
    let mut field = [0u8; 256];
    field[0] = b'x';
    field[2] = b'y';
    assert_eq!(fixed_bytes_to_string(&field), "x");
}

#[test]
fn user_data_from_str_pads_and_truncates() {
    let data = UserData::from_str("Anon");
    assert_eq!(&data.0[..4], b"Anon");
    assert!(data.0[4..].iter().all(|b| *b == 0));
    let long = "z".repeat(400);
    assert_eq!(UserData::from_str(&long).0, [b'z'; 256]);
}

#[test]
fn to_username_keeps_padding_and_falls_back_on_invalid_utf8() {
    let data = UserData::from_str("Bob");
    let name = data.to_username();
    assert_eq!(name.len(), 256);
    assert!(name.starts_with("Bob\0"));
    let mut bad = [0u8; 256];
    bad[0] = 0xc3;
    assert_eq!(UserData(bad).to_username(), "Null");
}

#[test]
fn login_state_decides_token_metadata() {
    let named = UserData::from_str("carol");
    assert_eq!(UserLogin::LoggedIn(named).token_metadata(), named);
    assert_eq!(
        UserLogin::NotLoggedIn.token_metadata(),
        UserData::from_str("Anon")
    );
}
