use kem_session::key_text::get_private_key_env;

const SAMPLE: &str = "[12, 250, 3, 4, 5, 6, 7, 8, 9, 10, 11, 12, 13, 14, 15, 16, \
17, 18, 19, 20, 21, 22, 23, 24, 25, 26, 27, 28, 29, 30, 31, 255]";

#[test]
fn test_private_key() {
    assert_ne!(
        get_private_key_env(SAMPLE).unwrap(),
        [0u8; 32],
        "Environment key or file does not exist, using a ZERO array key. Unsafe."
    );
}

#[test]
fn key_text_is_read_byte_by_byte() {
    let key = get_private_key_env(SAMPLE).unwrap();
    assert_eq!(key[0], 12);
    assert_eq!(key[1], 250);
    assert_eq!(key[30], 31);
    assert_eq!(key[31], 255);
}

#[test]
fn key_text_accepts_plus_sign_spacing_and_no_brackets() {
    let fields: Vec<String> = (0..32).map(|i| format!("\t+{:03} ", i)).collect();
    let key = get_private_key_env(&fields.join(",")).unwrap();
    for i in 0..32 {
        assert_eq!(key[i], i as u8);
    }
    let bracketed = format!("[[{}]]", fields.join(","));
    assert_eq!(get_private_key_env(&bracketed), Some(key));
}

#[test]
fn key_text_rejects_malformed_input() {
    assert_eq!(get_private_key_env(""), None);
    assert_eq!(get_private_key_env("[]"), None);
    let short: Vec<String> = (0..31).map(|i| i.to_string()).collect();
    assert_eq!(get_private_key_env(&short.join(",")), None);
    let long: Vec<String> = (0..33).map(|i| i.to_string()).collect();
    assert_eq!(get_private_key_env(&long.join(",")), None);
    let mut big: Vec<String> = (0..32).map(|i| i.to_string()).collect();
    big[5] = "256".to_string();
    assert_eq!(get_private_key_env(&big.join(",")), None);
    big[5] = "-1".to_string();
    assert_eq!(get_private_key_env(&big.join(",")), None);
    big[5] = "1 2".to_string();
    assert_eq!(get_private_key_env(&big.join(",")), None);
    big[5] = "".to_string();
    assert_eq!(get_private_key_env(&big.join(",")), None);
    big[5] = "+".to_string();
    assert_eq!(get_private_key_env(&big.join(",")), None);
}
