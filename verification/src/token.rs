use vstd::prelude::*;
use vstd::utf8::{decode_utf8, encode_utf8, valid_utf8};

verus! {

/// What `String::from_utf8_lossy` makes of `bytes`: their UTF-8 decoding, with
/// each invalid sequence replaced by U+FFFD.
pub uninterp spec fn utf8_lossy(bytes: Seq<u8>) -> Seq<char>;

/// The MD5 digest of `data`, as `md5::compute` gives it.
pub uninterp spec fn md5_digest(data: Seq<u8>) -> Seq<u8>;

/// Whether `c` has the Unicode White_Space property, as `char::is_whitespace`
/// tests it.
pub open spec fn is_unicode_whitespace(c: char) -> bool {
    let n = c as u32;
    ||| 9 <= n <= 13
    ||| n == 32
    ||| n == 0x85
    ||| n == 0xA0
    ||| n == 0x1680
    ||| 0x2000 <= n <= 0x200A
    ||| n == 0x2028
    ||| n == 0x2029
    ||| n == 0x202F
    ||| n == 0x205F
    ||| n == 0x3000
}

/// `s` without its leading whitespace.
pub open spec fn trim_start(s: Seq<char>) -> Seq<char>
    decreases s.len(),
{
    if s.len() > 0 && is_unicode_whitespace(s[0]) {
        trim_start(s.drop_first())
    } else {
        s
    }
}

/// `s` without its trailing whitespace.
pub open spec fn trim_end(s: Seq<char>) -> Seq<char>
    decreases s.len(),
{
    if s.len() > 0 && is_unicode_whitespace(s.last()) {
        trim_end(s.drop_last())
    } else {
        s
    }
}

/// `s` without its leading and trailing whitespace.
pub open spec fn trimmed(s: Seq<char>) -> Seq<char> {
    trim_end(trim_start(s))
}

/// The lowercase hex digit of `n` (`0 <= n < 16`).
pub open spec fn hex_digit(n: nat) -> char {
    if n < 10 {
        (48 + n) as char
    } else {
        (87 + n) as char
    }
}

/// `bytes` in lowercase hex, two digits per byte, high half first.
pub open spec fn hex_lower(bytes: Seq<u8>) -> Seq<char>
    decreases bytes.len(),
{
    if bytes.len() == 0 {
        Seq::empty()
    } else {
        seq![hex_digit((bytes[0] / 16) as nat), hex_digit((bytes[0] % 16) as nat)] + hex_lower(bytes.drop_first())
    }
}

/// Whether `c` is one of `0-9a-f`.
pub open spec fn is_lower_hex_char(c: char) -> bool {
    ('0' <= c <= '9') || ('a' <= c <= 'f')
}

/// The text a team's token is known by: the lowercase hex of the MD5 digest of
/// the token's UTF-8 bytes.
pub open spec fn team_token_digest(token: Seq<char>) -> Seq<char> {
    hex_lower(md5_digest(encode_utf8(token)))
}

/// Whether `digest` is among the digests of the registered teams.
pub open spec fn digest_listed(digest: Seq<char>, team_digests: Seq<Seq<char>>) -> bool {
    exists|i: int| 0 <= i < team_digests.len() && team_digests[i] == digest
}

/// Calls `String::from_utf8_lossy`. Claimed: the result is the function's
/// lossy decoding of `bytes`, which for valid UTF-8 is the plain decoding.
#[verifier::external_body]
fn from_utf8_lossy(bytes: &[u8]) -> (s: String)
    ensures
        s@ == utf8_lossy(bytes@),
        valid_utf8(bytes@) ==> s@ == decode_utf8(bytes@),
{
    String::from_utf8_lossy(bytes).into_owned()
}

/// Calls `str::trim`. Claimed: the result is `s` without the leading and
/// trailing characters that have the White_Space property.
#[verifier::external_body]
fn trim(s: &str) -> (t: &str)
    ensures
        t@ == trimmed(s@),
{
    s.trim()
}

/// Calls `md5::compute`. Claimed: the 16 bytes returned are the digest of `data`
/// (what that digest is, is not stated).
#[verifier::external_body]
fn md5_compute(data: &[u8]) -> (digest: [u8; 16])
    ensures
        digest@ == md5_digest(data@),
{
    md5::compute(data).0
}

/// Calls `hex::encode`. Claimed: the result spells each byte of `data` as two
/// lowercase hex digits, high half first, as the crate's source does.
#[verifier::external_body]
fn hex_encode(data: &[u8]) -> (s: String)
    ensures
        s@ == hex_lower(data@),
{
    hex::encode(data)
}

/// The team token carried by the bytes a challenger typed before the line
/// feed: the bytes decoded as UTF-8 (invalid sequences replaced) and trimmed.
pub fn decode_team_token(bytes: &Vec<u8>) -> (token: String)
    ensures
        token@ == trimmed(utf8_lossy(bytes@)),
        valid_utf8(bytes@) ==> token@ == trimmed(decode_utf8(bytes@)),
{
    let text = from_utf8_lossy(bytes.as_slice());
    let t = trim(text.as_str());
    String::from_str(t)
}

/// The digest a team token is listed under.
pub fn team_token_hash(token: &String) -> (digest: String)
    ensures
        digest@ == team_token_digest(token@),
        digest@.len() == 32,
        forall|i: int| 0 <= i < digest@.len() ==> is_lower_hex_char(#[trigger] digest@[i]),
{
    let bytes = token.as_str().as_bytes();
    let d = md5_compute(bytes);
    proof {
        lemma_hex_lower_shape(d@);
    }
    hex_encode(d.as_slice())
}

/// Whether `digest` is among `team_digests`.
pub fn digest_in_list(digest: &String, team_digests: &Vec<String>) -> (found: bool)
    ensures
        found == digest_listed(digest@, team_digests@.map_values(|s: String| s@)),
{
    let ghost listed = team_digests@.map_values(|s: String| s@);
    let n = team_digests.len();
    let mut i: usize = 0;
    while i < n
        invariant
            n == team_digests@.len(),
            listed == team_digests@.map_values(|s: String| s@),
            0 <= i <= n,
            forall|j: int| 0 <= j < i ==> listed[j] != digest@,
        decreases n - i,
    {
        if team_digests[i] == *digest {
            assert(listed[i as int] == digest@);
            return true;
        }
        i = i + 1;
    }
    false
}

/// Whether the team token is valid, given the digests of the registered teams
/// (fetched from the contest's team service): the token's digest is among them.
pub fn token_checker(token: &String, team_digests: &Vec<String>) -> (valid: bool)
    ensures
        valid == digest_listed(team_token_digest(token@), team_digests@.map_values(|s: String| s@)),
{
    let digest = team_token_hash(token);
    digest_in_list(&digest, team_digests)
}

/// Lowercase hex spends two digits per byte, all of them from `0-9a-f`.
pub proof fn lemma_hex_lower_shape(bytes: Seq<u8>)
    ensures
        hex_lower(bytes).len() == 2 * bytes.len(),
        forall|i: int| 0 <= i < hex_lower(bytes).len() ==> is_lower_hex_char(#[trigger] hex_lower(bytes)[i]),
    decreases bytes.len(),
{
    if bytes.len() > 0 {
        lemma_hex_lower_shape(bytes.drop_first());
        let b = bytes[0];
        assert(b / 16 < 16 && b % 16 < 16);
        let head = seq![hex_digit((b / 16) as nat), hex_digit((b % 16) as nat)];
        assert forall|i: int| 0 <= i < hex_lower(bytes).len() implies is_lower_hex_char(#[trigger] hex_lower(bytes)[i]) by {
            if i >= 2 {
                assert(hex_lower(bytes)[i] == hex_lower(bytes.drop_first())[i - 2]);
            }
        }
    }
}

/// Trimming leaves no whitespace at either end and never adds characters.
pub proof fn lemma_trimmed_has_no_outer_whitespace(s: Seq<char>)
    ensures
        trimmed(s).len() <= s.len(),
        trimmed(s).len() > 0 ==> !is_unicode_whitespace(trimmed(s)[0]) && !is_unicode_whitespace(trimmed(s).last()),
{
    lemma_trim_start(s);
    lemma_trim_end(trim_start(s));
}

proof fn lemma_trim_start(s: Seq<char>)
    ensures
        trim_start(s).len() <= s.len(),
        trim_start(s) == s.subrange(s.len() - trim_start(s).len(), s.len() as int),
        trim_start(s).len() > 0 ==> !is_unicode_whitespace(trim_start(s)[0]),
    decreases s.len(),
{
    if s.len() > 0 && is_unicode_whitespace(s[0]) {
        lemma_trim_start(s.drop_first());
        assert(s.drop_first().subrange(s.len() - 1 - trim_start(s).len(), s.len() - 1)
            =~= s.subrange(s.len() - trim_start(s).len(), s.len() as int));
    } else {
        assert(s.subrange(0, s.len() as int) =~= s);
    }
}

proof fn lemma_trim_end(s: Seq<char>)
    ensures
        trim_end(s).len() <= s.len(),
        trim_end(s) == s.subrange(0, trim_end(s).len() as int),
        trim_end(s).len() > 0 ==> !is_unicode_whitespace(trim_end(s).last()) && trim_end(s)[0] == s[0],
    decreases s.len(),
{
    if s.len() > 0 && is_unicode_whitespace(s.last()) {
        lemma_trim_end(s.drop_last());
        assert(s.drop_last().subrange(0, trim_end(s).len() as int) =~= s.subrange(0, trim_end(s).len() as int));
    } else {
        assert(s.subrange(0, s.len() as int) =~= s);
    }
}

} // verus!
