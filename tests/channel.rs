use kem_session::channel::SecureChannel;
use kem_session::error::SessionError;
use kem_session::nonce::{increment_nonce, zero_nonce};

fn pair(key: [u8; 32]) -> (SecureChannel, SecureChannel) {
    (SecureChannel::new(key), SecureChannel::new(key))
}

fn value(n: &[u8; 12]) -> u128 {
    n.iter().fold(0u128, |acc, b| acc * 256 + *b as u128)
}

#[test]
fn increment_carries_from_last_byte() {
    let mut n = zero_nonce();
    increment_nonce(&mut n);
    assert_eq!(n, [0, 0, 0, 0, 0, 0, 0, 0, 0, 0, 0, 1]);
    let mut n = [0, 0, 0, 0, 0, 0, 0, 0, 0, 7, 0xff, 0xff];
    increment_nonce(&mut n);
    assert_eq!(n, [0, 0, 0, 0, 0, 0, 0, 0, 0, 8, 0, 0]);
}

#[test]
fn increment_wraps_the_last_nonce_to_zero() {
    let mut n = [0xffu8; 12];
    increment_nonce(&mut n);
    assert_eq!(n, [0u8; 12]);
}

#[test]
fn send_nonce_counts_encryptions() {
    let mut tx = SecureChannel::new([9u8; 32]);
    for i in 0..300u128 {
        assert_eq!(value(&tx.send_nonce), i);
        tx.encrypt(b"x").unwrap();
    }
    assert_eq!(value(&tx.send_nonce), 300);
    assert_eq!(tx.send_nonce, [0, 0, 0, 0, 0, 0, 0, 0, 0, 0, 1, 44]);
    assert_eq!(value(&tx.recv_nonce), 0);
}

#[test]
fn no_two_frames_share_a_nonce() {
    let mut tx = SecureChannel::new([1u8; 32]);
    let mut frames = Vec::new();
    for _ in 0..50 {
        frames.push(tx.encrypt(b"same plaintext").unwrap());
    }
    for i in 0..frames.len() {
        for j in (i + 1)..frames.len() {
            assert_ne!(frames[i], frames[j]);
        }
    }
}

#[test]
fn round_trip_for_lengths_up_to_4096() {
    let (mut tx, mut rx) = pair([42u8; 32]);
    for len in [0usize, 1, 15, 16, 17, 255, 1000, 4095, 4096] {
        let plain: Vec<u8> = (0..len).map(|i| (i * 7 + 3) as u8).collect();
        let frame = tx.encrypt(&plain).unwrap();
        assert_eq!(frame.len(), len + 16);
        if len > 0 {
            assert_ne!(&frame[..len], &plain[..]);
        }
        assert_eq!(rx.decrypt(&frame).unwrap(), plain);
    }
    assert_eq!(value(&rx.recv_nonce), 9);
}

#[test]
fn flipping_any_bit_is_rejected() {
    let (mut tx, rx) = pair([5u8; 32]);
    let frame = tx.encrypt(b"ping!").unwrap();
    for byte in 0..frame.len() {
        for bit in 0..8 {
            let mut bad = frame.clone();
            bad[byte] ^= 1 << bit;
            let mut r = SecureChannel::new(rx.key);
            assert_eq!(r.decrypt(&bad), Err(SessionError::DecryptFailure));
            assert_eq!(value(&r.recv_nonce), 0);
        }
    }
}

#[test]
fn short_frame_and_wrong_key_are_rejected() {
    let (mut tx, _) = pair([5u8; 32]);
    let mut rx = SecureChannel::new([6u8; 32]);
    assert_eq!(rx.decrypt(&[0u8; 15]), Err(SessionError::DecryptFailure));
    let frame = tx.encrypt(b"hello").unwrap();
    assert_eq!(rx.decrypt(&frame), Err(SessionError::DecryptFailure));
}

#[test]
fn out_of_order_frame_is_rejected() {
    let (mut tx, mut rx) = pair([8u8; 32]);
    let _first = tx.encrypt(b"one").unwrap();
    let second = tx.encrypt(b"two").unwrap();
    assert_eq!(rx.decrypt(&second), Err(SessionError::DecryptFailure));
}

#[test]
fn last_nonce_refuses_to_encrypt() {
    let mut tx = SecureChannel::new([3u8; 32]);
    tx.send_nonce = [0xff; 12];
    assert_eq!(tx.encrypt(b"x"), Err(SessionError::NonceExhausted));
    assert_eq!(tx.send_nonce, [0xff; 12]);
    let mut rx = SecureChannel::new([3u8; 32]);
    rx.recv_nonce = [0xff; 12];
    assert_eq!(rx.decrypt(&[0u8; 20]), Err(SessionError::NonceExhausted));
}

#[test]
fn erase_zeroes_key_and_counters() {
    let mut ch = SecureChannel::new([7u8; 32]);
    ch.encrypt(b"a").unwrap();
    ch.erase();
    assert_eq!(ch.key, [0u8; 32]);
    assert_eq!(ch.send_nonce, [0u8; 12]);
    assert_eq!(ch.recv_nonce, [0u8; 12]);
}
