use captcha_core::config::{CaptchaConfig, ConfigError};
use captcha_core::encoding::{
    double_bits_of, hex_digit_str, hex_prefix_of, is_hex_prefix, nibble_at, push_be_bytes,
};
use captcha_core::layout::{plan_layout, x_bounds};
use captcha_core::token::{
    derive_code, derive_digest, digest_message, issue_request, time_window_of, verify_code,
    verify_request, RequestError,
};

fn config(width: usize, padding_x: usize, spacing: usize) -> CaptchaConfig {
    CaptchaConfig::new(vec![7u8; 32], 6, 100, width, 60, padding_x, 10, spacing, -30, 30).unwrap()
}

fn sample_config() -> CaptchaConfig {
    config(200, 20, 10)
}

fn blake3_hex(data: &[u8]) -> String {
    blake3::hash(data).to_hex().to_string()
}

#[test]
fn config_accepts_valid_settings() {
    let c = sample_config();
    assert_eq!(c.width, 200);
    assert_eq!(c.code_length, 6);
    assert_eq!(c.secret.len(), 32);
}

#[test]
fn config_rejects_short_secret() {
    let r = CaptchaConfig::new(vec![1u8; 31], 6, 100, 200, 60, 20, 10, 10, -30, 30);
    assert_eq!(r.unwrap_err(), ConfigError::SecretTooShort);
}

#[test]
fn config_rejects_bad_code_length() {
    let r = CaptchaConfig::new(vec![1u8; 32], 0, 100, 200, 60, 20, 10, 10, -30, 30);
    assert_eq!(r.unwrap_err(), ConfigError::CodeLengthOutOfRange);
    let r = CaptchaConfig::new(vec![1u8; 32], 65, 100, 200, 60, 20, 10, 10, -30, 30);
    assert_eq!(r.unwrap_err(), ConfigError::CodeLengthOutOfRange);
    assert!(CaptchaConfig::new(vec![1u8; 32], 64, 100, 200, 60, 20, 10, 10, -30, 30).is_ok());
}

#[test]
fn config_rejects_zero_expiry() {
    let r = CaptchaConfig::new(vec![1u8; 32], 6, 0, 200, 60, 20, 10, 10, -30, 30);
    assert_eq!(r.unwrap_err(), ConfigError::ZeroExpiry);
}

#[test]
fn config_rejects_paddings_and_spacing() {
    let r = CaptchaConfig::new(vec![1u8; 32], 6, 100, 200, 60, 200, 10, 10, -30, 30);
    assert_eq!(r.unwrap_err(), ConfigError::PaddingXTooWide);
    let r = CaptchaConfig::new(vec![1u8; 32], 6, 100, 200, 60, 20, 60, 10, -30, 30);
    assert_eq!(r.unwrap_err(), ConfigError::PaddingYTooTall);
    let r = CaptchaConfig::new(vec![1u8; 32], 6, 100, 200, 60, 20, 10, 200, -30, 30);
    assert_eq!(r.unwrap_err(), ConfigError::SpacingTooWide);
}

#[test]
fn time_windows_at_sample_times() {
    assert_eq!(time_window_of(250, 100, 0), 2);
    assert_eq!(time_window_of(330, 100, 0), 3);
    assert_eq!(time_window_of(330, 100, -1), 2);
    assert_eq!(time_window_of(430, 100, 0), 4);
    assert_eq!(time_window_of(430, 100, -1), 3);
    assert_eq!(time_window_of(50, 100, -1), -1);
}

#[test]
fn double_bits_match_std() {
    for n in [0i64, 1, -1, 2, 3, -7, 1000, 17_000_000, -123_456_789, (1i64 << 53) - 1] {
        assert_eq!(double_bits_of(n), (n as f64).to_bits(), "n = {}", n);
    }
    assert_eq!(double_bits_of(2), 0x4000_0000_0000_0000);
}

#[test]
fn big_endian_bytes() {
    let mut out = vec![9u8];
    push_be_bytes(0x0102_0304_0506_0708, 8, &mut out);
    assert_eq!(out, vec![9, 1, 2, 3, 4, 5, 6, 7, 8]);
    let mut short = Vec::new();
    push_be_bytes(0x0102_0304_0506_0708, 2, &mut short);
    assert_eq!(short, vec![7, 8]);
}

#[test]
fn hex_digits_and_prefixes() {
    assert_eq!(hex_digit_str(0), "0");
    assert_eq!(hex_digit_str(9), "9");
    assert_eq!(hex_digit_str(10), "a");
    assert_eq!(hex_digit_str(15), "f");
    let bytes = vec![0xab, 0x01, 0xf0];
    assert_eq!(nibble_at(&bytes, 0), 0xa);
    assert_eq!(nibble_at(&bytes, 1), 0xb);
    assert_eq!(hex_prefix_of(&bytes, 6), "ab01f0");
    assert_eq!(hex_prefix_of(&bytes, 3), "ab0");
    assert_eq!(hex_prefix_of(&bytes, 0), "");
    assert!(is_hex_prefix(&bytes, "ab01"));
    assert!(is_hex_prefix(&bytes, ""));
    assert!(!is_hex_prefix(&bytes, "ab02"));
    assert!(!is_hex_prefix(&bytes, "AB01"));
}

#[test]
fn digest_input_layout() {
    let secret = vec![7u8; 32];
    let message = digest_message("salt1", &secret, 2);
    let mut expected = b"salt1".to_vec();
    expected.extend_from_slice(&secret);
    expected.extend_from_slice(&(2.0f64).to_be_bytes());
    assert_eq!(message, expected);
    let negative = digest_message("s", &secret, -1);
    assert_eq!(&negative[33..], &(-1.0f64).to_be_bytes());
}

#[test]
fn digest_is_blake3_of_input() {
    let c = sample_config();
    let digest = derive_digest(&c, "salt1", 250, 0);
    let message = digest_message("salt1", &c.secret, 2);
    assert_eq!(digest.len(), 32);
    assert_eq!(digest, blake3::hash(&message).as_bytes().to_vec());
    assert_ne!(digest, message);
    let previous = derive_digest(&c, "salt1", 350, -1);
    assert_eq!(previous, digest);
}

#[test]
fn code_is_prefix_of_digest_hex() {
    let c = sample_config();
    let code = derive_code(&c, "salt1", 250);
    let message = digest_message("salt1", &c.secret, 2);
    assert_eq!(code.len(), 6);
    assert_eq!(code, blake3_hex(&message)[0..6]);
}

#[test]
fn same_window_same_code() {
    let c = sample_config();
    assert_eq!(derive_code(&c, "salt1", 250), derive_code(&c, "salt1", 250));
    assert_eq!(derive_code(&c, "salt1", 200), derive_code(&c, "salt1", 299));
}

#[test]
fn distinct_salts_give_distinct_codes() {
    let c = sample_config();
    assert_ne!(derive_code(&c, "salt1", 250), derive_code(&c, "salt2", 250));
}

#[test]
fn code_valid_for_one_extra_window() {
    let c = sample_config();
    let code = derive_code(&c, "salt1", 250);
    assert!(verify_code(&c, "salt1", &code, 250));
    assert!(verify_code(&c, "salt1", &code, 330));
    assert!(!verify_code(&c, "salt1", &code, 430));
    assert!(!verify_code(&c, "salt2", &code, 250));
    assert!(verify_code(&c, "salt1", &code[0..3], 330));
}

#[test]
fn issue_rejects_empty_salt() {
    let c = sample_config();
    assert_eq!(issue_request(&c, "", 250), Err(RequestError::EmptySalt));
    assert_eq!(issue_request(&c, "salt1", 250), Ok(derive_code(&c, "salt1", 250)));
}

#[test]
fn verify_rejects_bad_lengths_first() {
    let c = sample_config();
    let code = derive_code(&c, "salt1", 250);
    let long = format!("{}0", code);
    assert_eq!(verify_request(&c, "salt1", &long, 250), Err(RequestError::CodeTooLong));
    assert_eq!(verify_request(&c, "salt1", "", 250), Err(RequestError::EmptyCode));
    assert_eq!(verify_request(&c, "", &code, 250), Err(RequestError::EmptySalt));
    assert_eq!(verify_request(&c, "salt1", &code, 330), Ok(true));
    assert_eq!(verify_request(&c, "salt1", &code, 430), Ok(false));
}

#[test]
fn two_glyph_layout_intervals() {
    let c = sample_config();
    assert_eq!(x_bounds(&c, 20, 0, 2), Some((20, 100)));
    assert_eq!(x_bounds(&c, 60, 1, 2), Some((70, 180)));
    assert_eq!(x_bounds(&c, 175, 1, 2), None);
    assert_eq!(x_bounds(&c, 178, 0, 3), None);
}

#[test]
fn layout_stays_in_bounds() {
    let c = sample_config();
    for _ in 0..200 {
        let v = plan_layout(&c, "a1b2").unwrap();
        assert_eq!(v.len(), 4);
        let chars: Vec<char> = "a1b2".chars().collect();
        for (i, g) in v.iter().enumerate() {
            assert_eq!(g.character, chars[i]);
            assert!(g.x >= 20 && g.x < 180);
            assert!(g.y >= 10 && g.y < 50);
            assert!(g.rotation >= -30 && g.rotation < 30);
            if i > 0 {
                assert!(g.x >= v[i - 1].x + 10);
            }
        }
    }
}

#[test]
fn layout_of_empty_code_and_empty_ranges() {
    let c = sample_config();
    assert_eq!(plan_layout(&c, ""), Some(vec![]));
    let tall = CaptchaConfig::new(vec![7u8; 32], 6, 100, 200, 60, 20, 30, 10, -30, 30).unwrap();
    assert_eq!(plan_layout(&tall, "ab"), None);
    let flat = CaptchaConfig::new(vec![7u8; 32], 6, 100, 200, 60, 20, 10, 10, 5, 5).unwrap();
    assert_eq!(plan_layout(&flat, "ab"), None);
}

#[test]
fn grace_window_edges() {
    let c = sample_config();
    let code = derive_code(&c, "salt1", 250);
    assert!(verify_code(&c, "salt1", &code, 200));
    assert!(verify_code(&c, "salt1", &code, 399));
    assert!(!verify_code(&c, "salt1", &code, 400));
}

#[test]
fn distinct_windows_hash_distinct_inputs() {
    let secret = vec![7u8; 32];
    assert_ne!(digest_message("salt1", &secret, 2), digest_message("salt1", &secret, 4));
    assert_ne!(digest_message("salt1", &secret, 2), digest_message("salt1", &secret, 3));
    assert_ne!(digest_message("salt1", &secret, 0), digest_message("salt1", &secret, -1));
}

#[test]
fn candidate_length_counts_bytes() {
    let c = sample_config();
    assert_eq!(verify_request(&c, "salt1", "éééé", 250), Err(RequestError::CodeTooLong));
    assert_eq!(verify_request(&c, "salt1", "ééé", 250), Ok(false));
    assert_eq!(verify_request(&c, "salt1", "ab€", 250), Ok(false));
    assert_eq!(verify_request(&c, "salt1", "abcd€", 250), Err(RequestError::CodeTooLong));
}

#[test]
fn times_past_exact_range_are_refused() {
    let c = sample_config();
    let far = captcha_core::token::MAX_EXACT_SECONDS;
    assert_eq!(issue_request(&c, "salt1", far), Err(RequestError::TimeOutOfRange));
    assert_eq!(verify_request(&c, "salt1", "abc", far), Err(RequestError::TimeOutOfRange));
    assert_eq!(verify_request(&c, "salt1", "", far), Err(RequestError::EmptyCode));
    assert_eq!(issue_request(&c, "", far), Err(RequestError::EmptySalt));
    assert!(issue_request(&c, "salt1", far - 1).is_ok());
}
