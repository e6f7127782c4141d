//! Time-windowed answer codes: derivation from salt, secret and time window,
//! and the tolerant check of a submitted answer.
use vstd::prelude::*;
use vstd::string::StringSliceAdditionalSpecFns;
use vstd::utf8::{encode_scalar, encode_utf8};
use crate::config::CaptchaConfig;
use crate::encoding::{
    be_bytes, double_bits, double_bits_of, hex_prefix, hex_prefix_of, is_hex_prefix,
    lemma_be_bytes_injective, lemma_be_bytes_len, lemma_double_bits_fit, lemma_double_bits_injective, push_be_bytes,
};

verus! {

/// Times (in seconds) and window offsets up to this bound keep every time
/// window exactly representable as a double.
pub const MAX_EXACT_SECONDS: u64 = 0x10_0000_0000_0000;

/// The time bucket `floor(now / expire_eta + offset)`.
pub open spec fn time_window(now: nat, expire_eta: nat, offset: int) -> int {
    (now / expire_eta) as int + offset
}

/// The bytes hashed for a window: salt, then secret, then the window as a
/// big-endian double.
pub open spec fn digest_input(salt: Seq<u8>, secret: Seq<u8>, window: int) -> Seq<u8> {
    salt + secret + be_bytes(double_bits(window), 8)
}

/// The BLAKE3 hash of a byte string.
pub uninterp spec fn blake3_of(data: Seq<u8>) -> Seq<u8>;

/// Relies on blake3::hash: the 32-byte BLAKE3 hash of the whole input, which
/// is what a hasher fed the same bytes in pieces returns as well.
#[verifier::external_body]
fn blake3_hash(data: &Vec<u8>) -> (r: Vec<u8>)
    ensures
        r@ == blake3_of(data@),
        r@.len() == 32,
{
    blake3::hash(data.as_slice()).as_bytes().to_vec()
}

/// The digest for `salt` at time `now`, shifted by `offset` windows.
pub open spec fn digest_of(cfg: CaptchaConfig, salt: Seq<u8>, now: nat, offset: int) -> Seq<u8> {
    blake3_of(digest_input(salt, cfg.secret@, time_window(now, cfg.expire_eta as nat, offset)))
}

/// The code issued for `salt` at time `now`.
pub open spec fn code_of(cfg: CaptchaConfig, salt: Seq<u8>, now: nat) -> Seq<char> {
    hex_prefix(digest_of(cfg, salt, now, 0), cfg.code_length as nat)
}

/// Whether `candidate` is the start of the hexadecimal text of `digest`.
pub open spec fn prefix_matches(digest: Seq<u8>, candidate: Seq<char>) -> bool {
    candidate == hex_prefix(digest, candidate.len())
}

/// Whether `candidate` is accepted at time `now`: it matches the digest of
/// the current window or of the one before.
pub open spec fn accepts(cfg: CaptchaConfig, salt: Seq<u8>, candidate: Seq<char>, now: nat) -> bool {
    prefix_matches(digest_of(cfg, salt, now, 0), candidate) || prefix_matches(
        digest_of(cfg, salt, now, -1),
        candidate,
    )
}

/// Why a request is turned away before any digest is computed.
#[derive(Debug, Clone, Copy, PartialEq, Eq, Structural)]
pub enum RequestError {
    EmptySalt,
    EmptyCode,
    CodeTooLong,
    /// The clock reads a time past the range whose windows a double holds exactly.
    TimeOutOfRange,
}

/// A string has at least as many bytes in UTF-8 as it has characters, and
/// only the empty string has none.
pub proof fn lemma_chars_at_most_bytes(chars: Seq<char>)
    ensures
        chars.len() <= encode_utf8(chars).len(),
        chars.len() > 0 ==> encode_utf8(chars).len() > 0,
    decreases chars.len(),
{
    if chars.len() > 0 {
        lemma_chars_at_most_bytes(chars.drop_first());
        assert(encode_scalar(chars[0] as u32).len() >= 1);
    }
}

/// The time bucket of `now`, shifted by `offset`.
pub fn time_window_of(now: u64, expire_eta: u64, offset: i64) -> (r: i64)
    requires
        expire_eta > 0,
        now < MAX_EXACT_SECONDS,
        -(MAX_EXACT_SECONDS as int) <= offset <= MAX_EXACT_SECONDS,
    ensures
        r == time_window(now as nat, expire_eta as nat, offset as int),
        -0x20_0000_0000_0000 < r < 0x20_0000_0000_0000,
{
    assert(now / expire_eta <= now) by (nonlinear_arith)
        requires
            expire_eta > 0,
    ;
    (now / expire_eta) as i64 + offset
}

/// The bytes hashed for `salt` in `window`.
pub fn digest_message(salt: &str, secret: &Vec<u8>, window: i64) -> (r: Vec<u8>)
    requires
        -0x20_0000_0000_0000 < window < 0x20_0000_0000_0000,
    ensures
        r@ == digest_input(salt.spec_bytes(), secret@, window as int),
{
    let sb = salt.as_bytes();
    let mut out: Vec<u8> = Vec::new();
    let mut i: usize = 0;
    while i < sb.len()
        invariant
            i <= sb@.len(),
            sb@ == salt.spec_bytes(),
            out@ == sb@.take(i as int),
        decreases sb@.len() - i,
    {
        out.push(sb[i]);
        i = i + 1;
        assert(out@ =~= sb@.take(i as int));
    }
    assert(out@ =~= sb@);
    let mut j: usize = 0;
    while j < secret.len()
        invariant
            j <= secret@.len(),
            out@ == sb@ + secret@.take(j as int),
        decreases secret@.len() - j,
    {
        out.push(secret[j]);
        j = j + 1;
        assert(out@ =~= sb@ + secret@.take(j as int));
    }
    assert(secret@.take(secret@.len() as int) =~= secret@);
    push_be_bytes(double_bits_of(window), 8, &mut out);
    out
}

/// The digest for `salt` at time `now`, shifted by `offset` windows.
pub fn derive_digest(cfg: &CaptchaConfig, salt: &str, now: u64, offset: i64) -> (r: Vec<u8>)
    requires
        cfg.wf(),
        now < MAX_EXACT_SECONDS,
        -(MAX_EXACT_SECONDS as int) <= offset <= MAX_EXACT_SECONDS,
    ensures
        r@ == digest_of(*cfg, salt.spec_bytes(), now as nat, offset as int),
        r@.len() == 32,
{
    let window = time_window_of(now, cfg.expire_eta, offset);
    let message = digest_message(salt, &cfg.secret, window);
    blake3_hash(&message)
}

/// The code issued for `salt` at time `now`.
pub fn derive_code(cfg: &CaptchaConfig, salt: &str, now: u64) -> (r: String)
    requires
        cfg.wf(),
        now < MAX_EXACT_SECONDS,
    ensures
        r@ == code_of(*cfg, salt.spec_bytes(), now as nat),
        r@.len() == cfg.code_length,
{
    let digest = derive_digest(cfg, salt, now, 0);
    hex_prefix_of(&digest, cfg.code_length)
}

/// Checks `candidate` against the current window, then the one before.
pub fn verify_code(cfg: &CaptchaConfig, salt: &str, candidate: &str, now: u64) -> (r: bool)
    requires
        cfg.wf(),
        now < MAX_EXACT_SECONDS,
        1 <= candidate@.len() <= cfg.code_length,
    ensures
        r == accepts(*cfg, salt.spec_bytes(), candidate@, now as nat),
{
    let current = derive_digest(cfg, salt, now, 0);
    if is_hex_prefix(&current, candidate) {
        return true;
    }
    let previous = derive_digest(cfg, salt, now, -1);
    is_hex_prefix(&previous, candidate)
}

/// Issues the code for a request, turning away an empty salt.
pub fn issue_request(cfg: &CaptchaConfig, salt: &str, now: u64) -> (r: Result<String, RequestError>)
    requires
        cfg.wf(),
    ensures
        salt@.len() == 0 ==> r == Err::<String, RequestError>(RequestError::EmptySalt),
        salt@.len() > 0 && now >= MAX_EXACT_SECONDS ==> r == Err::<String, RequestError>(
            RequestError::TimeOutOfRange,
        ),
        salt@.len() > 0 && now < MAX_EXACT_SECONDS ==> (r matches Ok(code) && code@ == code_of(
            *cfg,
            salt.spec_bytes(),
            now as nat,
        )),
{
    if salt.is_empty() {
        return Err(RequestError::EmptySalt);
    }
    if now >= MAX_EXACT_SECONDS {
        return Err(RequestError::TimeOutOfRange);
    }
    Ok(derive_code(cfg, salt, now))
}

/// Answers a verification request; a candidate of the wrong length in bytes
/// is turned away before any digest is computed.
pub fn verify_request(cfg: &CaptchaConfig, salt: &str, candidate: &str, now: u64) -> (r: Result<
    bool,
    RequestError,
>)
    requires
        cfg.wf(),
    ensures
        salt@.len() == 0 ==> r == Err::<bool, RequestError>(RequestError::EmptySalt),
        salt@.len() > 0 && candidate.spec_bytes().len() == 0 ==> r == Err::<bool, RequestError>(
            RequestError::EmptyCode,
        ),
        salt@.len() > 0 && candidate.spec_bytes().len() > cfg.code_length ==> r == Err::<
            bool,
            RequestError,
        >(RequestError::CodeTooLong),
        salt@.len() > 0 && 1 <= candidate.spec_bytes().len() <= cfg.code_length && now
            >= MAX_EXACT_SECONDS ==> r == Err::<bool, RequestError>(RequestError::TimeOutOfRange),
        salt@.len() > 0 && 1 <= candidate.spec_bytes().len() <= cfg.code_length && now
            < MAX_EXACT_SECONDS ==> r == Ok::<bool, RequestError>(
            accepts(*cfg, salt.spec_bytes(), candidate@, now as nat),
        ),
{
    if salt.is_empty() {
        return Err(RequestError::EmptySalt);
    }
    let n = candidate.as_bytes().len();
    if n == 0 {
        return Err(RequestError::EmptyCode);
    }
    if n > cfg.code_length {
        return Err(RequestError::CodeTooLong);
    }
    if now >= MAX_EXACT_SECONDS {
        return Err(RequestError::TimeOutOfRange);
    }
    proof {
        lemma_chars_at_most_bytes(candidate@);
    }
    Ok(verify_code(cfg, salt, candidate, now))
}

/// Determinism: for a fixed secret and window width, issuing for one salt at
/// two moments of the same time window gives the same code.
pub proof fn lemma_same_window_same_code(cfg: CaptchaConfig, salt: Seq<u8>, t1: nat, t2: nat)
    requires
        cfg.wf(),
        t1 / (cfg.expire_eta as nat) == t2 / (cfg.expire_eta as nat),
    ensures
        code_of(cfg, salt, t1) == code_of(cfg, salt, t2),
{
    assert(time_window(t1, cfg.expire_eta as nat, 0) == time_window(t2, cfg.expire_eta as nat, 0));
}

/// Window tolerance: a code issued in window `W` is accepted while the
/// current window is `W` or `W + 1`.
pub proof fn lemma_code_accepted_in_grace(cfg: CaptchaConfig, salt: Seq<u8>, issued: nat, now: nat)
    requires
        cfg.wf(),
        now / (cfg.expire_eta as nat) == issued / (cfg.expire_eta as nat) || now / (
        cfg.expire_eta as nat) == issued / (cfg.expire_eta as nat) + 1,
    ensures
        accepts(cfg, salt, code_of(cfg, salt, issued), now),
{
    let eta = cfg.expire_eta as nat;
    let code = code_of(cfg, salt, issued);
    assert(code.len() == cfg.code_length);
    if now / eta == issued / eta {
        assert(time_window(now, eta, 0) == time_window(issued, eta, 0));
        assert(prefix_matches(digest_of(cfg, salt, now, 0), code));
    } else {
        assert(time_window(now, eta, -1) == time_window(issued, eta, 0));
        assert(prefix_matches(digest_of(cfg, salt, now, -1), code));
    }
}

/// For one salt and secret, distinct windows give distinct hashed inputs.
pub proof fn lemma_windows_give_distinct_inputs(salt: Seq<u8>, secret: Seq<u8>, w1: int, w2: int)
    requires
        -0x20_0000_0000_0000 < w1 < 0x20_0000_0000_0000,
        -0x20_0000_0000_0000 < w2 < 0x20_0000_0000_0000,
        w1 != w2,
    ensures
        digest_input(salt, secret, w1) != digest_input(salt, secret, w2),
{
    let i1 = digest_input(salt, secret, w1);
    let i2 = digest_input(salt, secret, w2);
    if i1 == i2 {
        let start = salt.len() + secret.len();
        assert(i1.subrange(start as int, i1.len() as int) =~= be_bytes(double_bits(w1), 8));
        assert(i2.subrange(start as int, i2.len() as int) =~= be_bytes(double_bits(w2), 8));
        lemma_double_bits_fit(w1);
        lemma_double_bits_fit(w2);
        lemma_be_bytes_injective(double_bits(w1), double_bits(w2), 8);
        lemma_double_bits_injective(w1, w2);
    }
}

/// Two distinct salts, hashed with one secret in one window, give distinct
/// hashed inputs; that their codes differ then rests on the hash alone.
pub proof fn lemma_salts_give_distinct_inputs(s1: Seq<u8>, s2: Seq<u8>, secret: Seq<u8>, w: int)
    requires
        s1 != s2,
    ensures
        digest_input(s1, secret, w) != digest_input(s2, secret, w),
{
    let i1 = digest_input(s1, secret, w);
    let i2 = digest_input(s2, secret, w);
    if i1 == i2 {
        lemma_be_bytes_len(double_bits(w), 8);
        assert(i1.len() == s1.len() + secret.len() + 8);
        assert(i2.len() == s2.len() + secret.len() + 8);
        assert(i1.take(s1.len() as int) =~= s1);
        assert(i2.take(s2.len() as int) =~= s2);
    }
}

/// Once the current window is `W + 2` or later, neither window that
/// verification checks is the window `W` in which a code was issued, so
/// neither digest it compares against is computed from the input hashed at
/// issue.
pub proof fn lemma_grace_ends(cfg: CaptchaConfig, salt: Seq<u8>, issued: nat, now: nat)
    requires
        cfg.wf(),
        issued < MAX_EXACT_SECONDS,
        now < MAX_EXACT_SECONDS,
        now / (cfg.expire_eta as nat) >= issued / (cfg.expire_eta as nat) + 2,
    ensures
        time_window(now, cfg.expire_eta as nat, 0) != time_window(issued, cfg.expire_eta as nat, 0),
        time_window(now, cfg.expire_eta as nat, -1) != time_window(
            issued,
            cfg.expire_eta as nat,
            0,
        ),
        digest_input(salt, cfg.secret@, time_window(now, cfg.expire_eta as nat, 0))
            != digest_input(salt, cfg.secret@, time_window(issued, cfg.expire_eta as nat, 0)),
        digest_input(salt, cfg.secret@, time_window(now, cfg.expire_eta as nat, -1))
            != digest_input(salt, cfg.secret@, time_window(issued, cfg.expire_eta as nat, 0)),
{
    let eta = cfg.expire_eta as nat;
    assert(now / eta <= now && issued / eta <= issued) by (nonlinear_arith)
        requires
            eta > 0,
    ;
    lemma_windows_give_distinct_inputs(
        salt,
        cfg.secret@,
        time_window(now, eta, 0),
        time_window(issued, eta, 0),
    );
    lemma_windows_give_distinct_inputs(
        salt,
        cfg.secret@,
        time_window(now, eta, -1),
        time_window(issued, eta, 0),
    );
}

} // verus!
