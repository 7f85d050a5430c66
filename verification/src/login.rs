//! PKCE login material and the authorization URL: the CSRF state string,
//! the code verifier, and the deterministic, percent-encoded login URL
//! built from them.

use base64::Engine;
use rand::distributions::DistString;
use rand::Rng;
use vstd::prelude::*;

verus! {

/// An optionally customisable value for the SSO state string: either a
/// request to generate a fresh token, or a caller-supplied one.
pub enum StateString {
    Standard,
    Custom(String),
}

/// An optionally customisable value for the PKCE code verifier: either a
/// request to generate fresh bytes, or caller-supplied ones.
pub enum CodeVerifier {
    Standard,
    Custom([u8; 32]),
}

/// An alphanumeric character: the alphabet of generated state strings.
pub open spec fn is_alnum_char(c: char) -> bool {
    ||| ('0' as int) <= (c as int) <= ('9' as int)
    ||| ('a' as int) <= (c as int) <= ('z' as int)
    ||| ('A' as int) <= (c as int) <= ('Z' as int)
}

/// A sequence of alphanumeric characters.
pub open spec fn is_alnum_seq(s: Seq<char>) -> bool {
    forall|i: int| 0 <= i < s.len() ==> is_alnum_char(#[trigger] s[i])
}

/// Relies on rand's `Alphanumeric` distribution with `thread_rng`:
/// `sample_string` returns exactly `len` characters, each drawn from
/// A-Z, a-z, 0-9.
#[verifier::external_body]
fn random_alphanumeric(len: usize) -> (r: String)
    ensures
        r@.len() == len as int,
        is_alnum_seq(r@),
{
    rand::distributions::Alphanumeric.sample_string(&mut rand::thread_rng(), len)
}

/// Relies on rand's `thread_rng`: `gen` fills a 32-byte array from the
/// generator. Nothing is promised of the bytes; they are random.
#[verifier::external_body]
fn random_verifier_bytes() -> (r: [u8; 32]) {
    rand::thread_rng().gen::<[u8; 32]>()
}

impl Default for StateString {
    /// Generates a fresh 16-character alphanumeric state string, always a
    /// concrete `Custom` value.
    fn default() -> (r: Self)
        ensures
            r matches StateString::Custom(s) && s@.len() == 16 && is_alnum_seq(s@),
    {
        StateString::Custom(random_alphanumeric(16))
    }
}

impl Default for CodeVerifier {
    /// Generates fresh 32-byte verifier material, always a concrete
    /// `Custom` value.
    fn default() -> (r: Self)
        ensures
            r matches CodeVerifier::Custom(v),
    {
        CodeVerifier::Custom(random_verifier_bytes())
    }
}

impl StateString {
    /// Materializes the state string: a `Custom` value is returned as it
    /// is, a `Standard` request becomes a freshly generated 16-character
    /// alphanumeric token. The result is always concrete, so no state
    /// exists that would have to be ruled out at run time.
    pub fn resolve(self) -> (r: String)
        ensures
            self matches StateString::Custom(s) ==> r == s,
            self is Standard ==> r@.len() == 16 && is_alnum_seq(r@),
    {
        match self {
            StateString::Standard => random_alphanumeric(16),
            StateString::Custom(val) => val,
        }
    }
}

impl CodeVerifier {
    /// Materializes the code verifier: a `Custom` value is returned as it
    /// is, a `Standard` request becomes freshly generated random bytes.
    pub fn resolve(self) -> (r: [u8; 32])
        ensures
            self matches CodeVerifier::Custom(v) ==> r == v,
    {
        match self {
            CodeVerifier::Standard => random_verifier_bytes(),
            CodeVerifier::Custom(val) => val,
        }
    }
}

/// What `urlencoding::encode` returns for a given input; a pure function
/// of the characters alone.
pub uninterp spec fn percent_encoded(s: Seq<char>) -> Seq<char>;

/// A character that percent-encoding passes through unchanged.
pub open spec fn keeps_plain(c: char) -> bool {
    ||| is_alnum_char(c)
    ||| c == '-'
    ||| c == '.'
    ||| c == '_'
    ||| c == '~'
}

/// The upper-case hexadecimal digit for a value below 16.
pub open spec fn hex_digit_upper(n: int) -> char {
    "0123456789ABCDEF"@[n]
}

/// Percent-encoding of one ASCII character: kept verbatim, or `%XX` with
/// upper-case hex digits.
pub open spec fn percent_encode_char(c: char) -> Seq<char> {
    if keeps_plain(c) {
        seq![c]
    } else {
        seq!['%', hex_digit_upper((c as int) / 16), hex_digit_upper((c as int) % 16)]
    }
}

/// All characters below 128, so that characters and UTF-8 bytes coincide.
pub open spec fn seq_is_ascii(s: Seq<char>) -> bool {
    forall|i: int| 0 <= i < s.len() ==> (#[trigger] s[i] as int) < 128
}

/// Percent-encoding of an ASCII character sequence.
pub open spec fn percent_encode_ascii(s: Seq<char>) -> Seq<char>
    decreases s.len(),
{
    if s.len() == 0 {
        Seq::empty()
    } else {
        percent_encode_char(s[0]) + percent_encode_ascii(s.skip(1))
    }
}

/// Relies on urlencoding::encode: every byte outside A-Z, a-z, 0-9 and
/// `-`, `.`, `_`, `~` becomes `%XX` with upper-case hex digits; the result
/// depends on the input characters alone. On ASCII input, where bytes and
/// characters coincide, the result is stated exactly.
#[verifier::external_body]
fn url_encode(s: &str) -> (r: String)
    ensures
        r@ == percent_encoded(s@),
        seq_is_ascii(s@) ==> r@ == percent_encode_ascii(s@),
{
    urlencoding::encode(s).into_owned()
}

/// The standard base64 alphabet, indexed by a 6-bit value.
pub open spec fn base64_char(n: int) -> char {
    "ABCDEFGHIJKLMNOPQRSTUVWXYZabcdefghijklmnopqrstuvwxyz0123456789+/"@[n]
}

/// One full 3-byte group: four alphabet characters.
pub open spec fn base64_group(b0: u8, b1: u8, b2: u8) -> Seq<char> {
    seq![
        base64_char((b0 as int) / 4),
        base64_char(((b0 as int) % 4) * 16 + (b1 as int) / 16),
        base64_char(((b1 as int) % 16) * 4 + (b2 as int) / 64),
        base64_char((b2 as int) % 64),
    ]
}

/// RFC 4648 base64 with the standard alphabet and `=` padding.
pub open spec fn base64_std(bytes: Seq<u8>) -> Seq<char>
    decreases bytes.len(),
{
    if bytes.len() >= 3 {
        base64_group(bytes[0], bytes[1], bytes[2]) + base64_std(bytes.skip(3))
    } else if bytes.len() == 2 {
        seq![
            base64_char((bytes[0] as int) / 4),
            base64_char(((bytes[0] as int) % 4) * 16 + (bytes[1] as int) / 16),
            base64_char(((bytes[1] as int) % 16) * 4),
            '=',
        ]
    } else if bytes.len() == 1 {
        seq![base64_char((bytes[0] as int) / 4), base64_char(((bytes[0] as int) % 4) * 16), '=', '=']
    } else {
        Seq::empty()
    }
}

/// Relies on base64's `STANDARD` engine: RFC 4648 base64 with the standard
/// alphabet and `=` padding.
#[verifier::external_body]
fn base64_encode(bytes: &[u8]) -> (r: String)
    ensures
        r@ == base64_std(bytes@),
{
    base64::engine::general_purpose::STANDARD.encode(bytes)
}

/// The full authorization URL for the provider's authorize endpoint:
/// fixed base and `response_type=code` and `code_challenge_method=S256`
/// parameters, every variable component percent-encoded independently,
/// and the code challenge carrying the base64 encoding of the raw
/// verifier bytes.
pub open spec fn auth_url(
    client_id: Seq<char>,
    callback_url: Seq<char>,
    scope: Seq<char>,
    state_str: Seq<char>,
    code_ver: Seq<u8>,
) -> Seq<char> {
    "https://login.eveonline.com/v2/oauth/authorize/?response_type=code&redirect_uri="@
        + percent_encoded(callback_url) + "&client_id="@ + percent_encoded(client_id) + "&scope="@
        + percent_encoded(scope) + "&code_challenge="@ + percent_encoded(base64_std(code_ver))
        + "&code_challenge_method=S256&state="@ + percent_encoded(state_str)
}

/// Builds the login URL for the provider SSO. Deterministic in its inputs:
/// each variable component is percent-encoded exactly once and placed in a
/// fixed parameter order. Although the URL declares the `S256` challenge
/// method, the challenge sent is the base64 encoding of the raw verifier
/// bytes, not of a SHA-256 digest: this matches the deployed provider
/// configuration and is pinned by the contract and the tests.
pub fn gen_url(
    client_id: &str,
    callback_url: &str,
    scope: &str,
    state_str: &str,
    code_ver: &[u8; 32],
) -> (url: String)
    ensures
        url@ == auth_url(client_id@, callback_url@, scope@, state_str@, code_ver@),
{
    let mut url: String =
        "https://login.eveonline.com/v2/oauth/authorize/?response_type=code&redirect_uri=".to_owned();
    let enc_cb = url_encode(callback_url);
    url.append(enc_cb.as_str());
    url.append("&client_id=");
    let enc_id = url_encode(client_id);
    url.append(enc_id.as_str());
    url.append("&scope=");
    let enc_scope = url_encode(scope);
    url.append(enc_scope.as_str());
    url.append("&code_challenge=");
    let challenge = base64_encode(code_ver.as_slice());
    let enc_challenge = url_encode(challenge.as_str());
    url.append(enc_challenge.as_str());
    url.append("&code_challenge_method=S256&state=");
    let enc_state = url_encode(state_str);
    url.append(enc_state.as_str());
    proof {
        assert(url@ =~= auth_url(client_id@, callback_url@, scope@, state_str@, code_ver@));
    }
    url
}

} // verus!
