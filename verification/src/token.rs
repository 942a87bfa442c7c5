use crate::config::{AuthData, AuthView};
use crate::json::{integer_member, json_parsed, member_integer, opt_view, parse};
use crate::text::{chars_of, string_of};
use vstd::prelude::*;
use vstd::utf8::encode_utf8;

verus! {

/// A token is renewed this many seconds before it expires.
pub const TOKEN_REFRESH_LEEWAY: i64 = 120;

/// No renewal is tried within this many seconds of the last one.
pub const TOKEN_REFRESH_MIN_INTERVAL: i64 = 30;

/// The bytes that a text in the URL-safe base64 alphabet, with padding, stands
/// for; `None` where the text is no such encoding.
pub uninterp spec fn base64_url_decoded(text: Seq<char>) -> Option<Seq<u8>>;

/// `base64::Engine::decode` of the engine `general_purpose::URL_SAFE`: the
/// decoded bytes, or `None` where the text is rejected. The result depends on
/// the text alone.
#[verifier::external_body]
fn decode_base64_url(text: &str) -> (r: Option<Vec<u8>>)
    ensures
        match r {
            Some(bytes) => base64_url_decoded(text@) == Some(bytes@),
            None => base64_url_decoded(text@) is None,
        },
{
    base64::Engine::decode(&base64::engine::general_purpose::URL_SAFE, text).ok()
}

/// A renewal is due: the expiry is known, it is no more than the leeway away,
/// and the session is at least the minimum interval old.
pub open spec fn refresh_due(auth: AuthView, now: int) -> bool {
    &&& auth.token_exp is Some
    &&& auth.token_exp->0 - TOKEN_REFRESH_LEEWAY <= now
    &&& now - auth.updated_at >= TOKEN_REFRESH_MIN_INTERVAL
}

/// No renewal is due within the minimum interval of the last one, however long
/// ago the token expired; and once that interval has passed, a renewal is due
/// from the leeway before the expiry on.
pub proof fn lemma_refresh_floor(auth: AuthView, now: int)
    ensures
        now - auth.updated_at < TOKEN_REFRESH_MIN_INTERVAL ==> !refresh_due(auth, now),
        auth.token_exp is None ==> !refresh_due(auth, now),
        auth.token_exp is Some && now - auth.updated_at >= TOKEN_REFRESH_MIN_INTERVAL ==> (
        refresh_due(auth, now) <==> now >= auth.token_exp->0 - TOKEN_REFRESH_LEEWAY),
{
}

/// The place of the first `.` in `s` at or after `from`, or the length of `s`.
pub open spec fn next_dot(s: Seq<char>, from: int) -> int
    decreases s.len() - from,
{
    if from >= s.len() {
        s.len() as int
    } else if from >= 0 && s[from] == '.' {
        from
    } else {
        next_dot(s, from + 1)
    }
}

/// The second of the segments that `.` divides a token into, if it has two.
pub open spec fn payload_segment(token: Seq<char>) -> Option<Seq<char>> {
    let first = next_dot(token, 0);
    if first >= token.len() {
        None
    } else {
        Some(token.subrange(first + 1, next_dot(token, first + 1)))
    }
}

/// `n` padding characters.
pub open spec fn padding(n: nat) -> Seq<char> {
    Seq::new(n, |i: int| '=')
}

/// A segment with the padding that brings its length in bytes to a multiple of
/// four.
pub open spec fn padded(segment: Seq<char>) -> Seq<char> {
    segment + padding(((4 - encode_utf8(segment).len() % 4) % 4) as nat)
}

/// The expiry that a token claims: the integer member `exp` of the JSON document
/// that its second segment encodes. A token that is not so made claims none.
pub open spec fn jwt_expiry(token: Seq<char>) -> Option<i64> {
    match payload_segment(token) {
        None => None,
        Some(segment) => match base64_url_decoded(padded(segment)) {
            None => None,
            Some(bytes) => match json_parsed(bytes) {
                None => None,
                Some(doc) => integer_member(doc, "exp"@),
            },
        },
    }
}

/// A token without a `.` claims no expiry.
pub proof fn lemma_no_segment_no_expiry(token: Seq<char>)
    requires
        !token.contains('.'),
    ensures
        jwt_expiry(token) is None,
{
    lemma_next_dot(token, 0);
}

/// `next_dot` finds the first `.` at or after `from`.
pub proof fn lemma_next_dot(s: Seq<char>, from: int)
    requires
        0 <= from <= s.len(),
    ensures
        from <= next_dot(s, from) <= s.len(),
        next_dot(s, from) < s.len() ==> s[next_dot(s, from)] == '.',
        forall|i: int| from <= i < next_dot(s, from) ==> s[i] != '.',
    decreases s.len() - from,
{
    if from < s.len() && s[from] != '.' {
        lemma_next_dot(s, from + 1);
    }
}

/// The session that a fresh token gives.
pub open spec fn session_of(token: Seq<char>, username: Option<Seq<char>>, now: int) -> AuthView {
    AuthView {
        mode: "token"@,
        token,
        updated_at: now,
        username,
        token_exp: match jwt_expiry(token) {
            Some(e) => Some(e as int),
            None => None,
        },
    }
}

/// Whether the session is due for renewal at the time `now`.
pub fn should_refresh_token(auth: &AuthData, now: i64) -> (r: bool)
    ensures
        r == refresh_due(auth@, now as int),
{
    match auth.token_exp {
        Some(exp) => {
            let exp_wide: i128 = exp as i128;
            let now_wide: i128 = now as i128;
            let updated_wide: i128 = auth.updated_at as i128;
            exp_wide - (TOKEN_REFRESH_LEEWAY as i128) <= now_wide && now_wide - updated_wide >= (
            TOKEN_REFRESH_MIN_INTERVAL as i128)
        },
        None => false,
    }
}

/// Finds the first `.` in `chars` at or after `from`.
pub fn find_dot(chars: &Vec<char>, from: usize) -> (r: usize)
    requires
        from <= chars.len(),
    ensures
        r == next_dot(chars@, from as int),
        from <= r <= chars.len(),
{
    let mut i: usize = from;
    while i < chars.len() && chars[i] != '.'
        invariant
            from <= i <= chars.len(),
            next_dot(chars@, from as int) == next_dot(chars@, i as int),
        decreases chars.len() - i,
    {
        i = i + 1;
    }
    i
}

/// The text that holds a token's claims: its second segment, padded so that it
/// can be decoded. A token without a `.` has none.
pub open spec fn payload_text_of(token: Seq<char>) -> Option<Seq<char>> {
    match payload_segment(token) {
        Some(segment) => Some(padded(segment)),
        None => None,
    }
}

/// The expiry that decoded claims hold: the integer member `exp` of the JSON
/// document that the bytes are.
pub open spec fn claimed_expiry(bytes: Seq<u8>) -> Option<i64> {
    match json_parsed(bytes) {
        None => None,
        Some(doc) => integer_member(doc, "exp"@),
    }
}

/// Cuts the second segment out of a token and pads it for decoding.
pub fn payload_text(token: &str) -> (r: Option<String>)
    ensures
        opt_view(r) == payload_text_of(token@),
{
    let chars = chars_of(token);
    let first = find_dot(&chars, 0);
    if first >= chars.len() {
        return None;
    }
    let second = find_dot(&chars, first + 1);
    let mut text = string_of(&chars, first + 1, second);
    let ghost segment = text@;
    let used = text.as_str().as_bytes().len() % 4;
    let missing = (4 - used) % 4;
    let mut i: usize = 0;
    assert(text@ =~= segment + padding(0));
    while i < missing
        invariant
            i <= missing,
            text@ == segment + padding(i as nat),
        decreases missing - i,
    {
        text.push('=');
        assert(text@ =~= segment + padding((i + 1) as nat));
        i = i + 1;
    }
    Some(text)
}

/// Reads the expiry out of decoded claims.
pub fn expiry_claim(bytes: &[u8]) -> (r: Option<i64>)
    ensures
        r == claimed_expiry(bytes@),
{
    match parse(bytes) {
        None => None,
        Some(doc) => member_integer(&doc, "exp"),
    }
}

/// Reads the expiry that a token claims. Nothing about the token is verified:
/// the expiry only serves to plan a renewal.
pub fn decode_jwt_exp(token: &str) -> (r: Option<i64>)
    ensures
        r == jwt_expiry(token@),
{
    match payload_text(token) {
        None => None,
        Some(text) => match decode_base64_url(text.as_str()) {
            None => None,
            Some(bytes) => expiry_claim(bytes.as_slice()),
        },
    }
}

/// Makes the session for a token received at the time `now`.
pub fn new_session(token: &str, username: Option<&str>, now: i64) -> (r: AuthData)
    ensures
        r@ == session_of(
            token@,
            match username {
                Some(u) => Some(u@),
                None => None,
            },
            now as int,
        ),
{
    AuthData {
        mode: "token".to_owned(),
        token: token.to_owned(),
        updated_at: now,
        username: match username {
            Some(u) => Some(u.to_owned()),
            None => None,
        },
        token_exp: decode_jwt_exp(token),
    }
}

} // verus!
