//! Session cookies and bearer tokens: what the client holds, what is stored,
//! and how a stored record answers a presented credential.
use vstd::prelude::*;
use vstd::utf8::{decode_utf8, encode_utf8, valid_utf8};
use crate::error::CentraleError;
use crate::text::{before, chars_of, find_first, first_where, one_of, push_char, Stop};
use rand::RngCore;
use sha2::Digest;

verus! {

/// A stored session cookie.
#[derive(Debug)]
pub struct CentraleCookie {
    pub id: Option<i64>,
    pub user_id: i64,
    pub hash: String,
    pub expires: u64,
}

/// A stored bearer token.
#[derive(Debug)]
pub struct CentraleBearer {
    pub id: Option<i64>,
    pub user_id: i64,
    pub hash: String,
    pub expires: u64,
}

/// A lowercase hexadecimal digit.
pub open spec fn hex_digit(d: int) -> char {
    if d < 10 {
        (48 + d) as char
    } else {
        (87 + d) as char
    }
}

/// Whether `c` is a lowercase hexadecimal digit.
pub open spec fn is_hex_char(c: char) -> bool {
    ('0' <= c && c <= '9') || ('a' <= c && c <= 'f')
}

/// Lowercase hexadecimal, two digits per byte (`{:02x}` per byte).
pub open spec fn hex_lower(bytes: Seq<u8>) -> Seq<char>
    decreases bytes.len(),
{
    if bytes.len() == 0 {
        Seq::empty()
    } else {
        hex_lower(bytes.drop_last()) + seq![
            hex_digit(bytes.last() as int / 16),
            hex_digit(bytes.last() as int % 16),
        ]
    }
}

/// The SHA-256 digest of the bytes.
pub uninterp spec fn sha256(data: Seq<u8>) -> Seq<u8>;

/// The stored form of a token: hexadecimal SHA-256 of its UTF-8 bytes.
pub open spec fn spec_hash_token(token: Seq<char>) -> Seq<char> {
    hex_lower(sha256(encode_utf8(token)))
}

/// SHA-256 of a byte string.
///
/// Trusted: calls `sha2::Sha256::digest`. The digest itself is not restated;
/// the result is the name [`sha256`] of the input, and has the 32 bytes of the
/// output size `U32` that the crate declares for `Sha256`.
#[verifier::external_body]
fn sha256_digest(data: &[u8]) -> (r: Vec<u8>)
    ensures
        r@ == sha256(data@),
        r@.len() == 32,
{
    sha2::Sha256::digest(data).to_vec()
}

/// Thirty-two bytes from the operating system's random source.
///
/// Trusted: calls `RngCore::fill_bytes` on `rand::rngs::OsRng`, which fills the
/// buffer or panics when the operating system cannot supply randomness. Nothing
/// is stated of the bytes: they come by chance.
#[verifier::external_body]
fn random_token_bytes() -> (r: [u8; 32]) {
    let mut raw = [0u8; 32];
    rand::rngs::OsRng.fill_bytes(&mut raw);
    raw
}

/// Bytes read as UTF-8.
///
/// Trusted: calls `String::from_utf8`, which std documents as succeeding
/// exactly when the bytes are valid UTF-8, with the string they encode.
#[verifier::external_body]
fn string_from_utf8(bytes: Vec<u8>) -> (r: Option<String>)
    ensures
        r matches Some(s) ==> valid_utf8(bytes@) && s@ == decode_utf8(bytes@),
        r is None ==> !valid_utf8(bytes@),
{
    String::from_utf8(bytes).ok()
}

fn hex_digit_of(d: u8) -> (c: char)
    requires
        d < 16,
    ensures
        c == hex_digit(d as int),
{
    if d < 10 {
        (48 + d) as char
    } else {
        (87 + d) as char
    }
}

/// Lowercase hexadecimal of the bytes.
fn hex_encode(bytes: &[u8]) -> (r: String)
    ensures
        r@ == hex_lower(bytes@),
{
    let mut out = String::new();
    let mut i: usize = 0;
    while i < bytes.len()
        invariant
            i <= bytes@.len(),
            out@ == hex_lower(bytes@.take(i as int)),
        decreases bytes.len() - i,
    {
        let b = bytes[i];
        push_char(&mut out, hex_digit_of(b / 16));
        push_char(&mut out, hex_digit_of(b % 16));
        assert(bytes@.take(i + 1).drop_last() =~= bytes@.take(i as int));
        assert(bytes@.take(i + 1).last() == b);
        i = i + 1;
        assert(out@ =~= hex_lower(bytes@.take(i as int)));
    }
    assert(bytes@.take(bytes@.len() as int) =~= bytes@);
    out
}

/// The stored form of a token.
fn hash_token_text(token: &str) -> (r: String)
    ensures
        r@ == spec_hash_token(token@),
        is_token_hash(r@),
{
    let digest = sha256_digest(token.as_bytes());
    proof {
        lemma_hex_lower_shape(digest@);
    }
    hex_encode(digest.as_slice())
}

/// The shape of a stored hash: 64 lowercase hex digits.
pub open spec fn is_token_hash(h: Seq<char>) -> bool {
    h.len() == 64 && forall|i: int| 0 <= i < h.len() ==> is_hex_char(#[trigger] h[i])
}

/// A session cookie as handed to the client and as stored.
pub struct IssuedCookie {
    /// What the browser stores.
    pub cookie: String,
    /// What the database stores.
    pub hash: String,
    /// Unix time after which the cookie is refused.
    pub expires: i64,
}

impl CentraleCookie {
    /// The stored form of a cookie value.
    pub fn hash_token(token: &str) -> (r: String)
        ensures
            r@ == spec_hash_token(token@),
            is_token_hash(r@),
    {
        hash_token_text(token)
    }

    /// Hex-encode the raw random token.
    pub fn hash_token_bytes(bytes: &[u8]) -> (r: String)
        ensures
            r@ == hex_lower(bytes@),
    {
        hex_encode(bytes)
    }

    /// The cookie for given random bytes: their hexadecimal is handed out, its
    /// hash is stored, and it expires `timeout` seconds after `now`.
    pub fn client_cookie_from_random(raw: &[u8], now: i64, timeout: i64) -> (r: IssuedCookie)
        requires
            i64::MIN <= now + timeout <= i64::MAX,
        ensures
            r.cookie@ == hex_lower(raw@),
            r.hash@ == spec_hash_token(r.cookie@),
            r.expires == now + timeout,
    {
        let cookie = hex_encode(raw);
        let hash = hash_token_text(cookie.as_str());
        IssuedCookie { cookie, hash, expires: timeout + now }
    }

    /// A fresh 256-bit session cookie that expires `timeout` seconds after `now`.
    pub fn issue_client_cookie(now: i64, timeout: i64) -> (r: IssuedCookie)
        requires
            i64::MIN <= now + timeout <= i64::MAX,
        ensures
            exists|raw: Seq<u8>| raw.len() == 32 && r.cookie@ == hex_lower(raw),
            r.cookie@.len() == 64,
            forall|i: int| 0 <= i < r.cookie@.len() ==> is_hex_char(#[trigger] r.cookie@[i]),
            r.hash@ == spec_hash_token(r.cookie@),
            r.expires == now + timeout,
    {
        let raw = random_token_bytes();
        let issued = Self::client_cookie_from_random(&raw, now, timeout);
        proof {
            lemma_hex_lower_shape(raw@);
        }
        issued
    }
}

/// A bearer token as handed to the client and as stored.
pub struct IssuedBearer {
    /// What the client presents.
    pub token: String,
    /// What the database stores.
    pub hash: String,
}

impl CentraleBearer {
    /// The stored form of a bearer token.
    pub fn hash_token(token: &str) -> (r: String)
        ensures
            r@ == spec_hash_token(token@),
            is_token_hash(r@),
    {
        hash_token_text(token)
    }

    /// The bearer token for random bytes: the bytes read as UTF-8 (an error
    /// when they are not), and its hash for storage.
    pub fn bearer_from_random(bytes: Vec<u8>) -> (r: Result<IssuedBearer, CentraleError>)
        ensures
            r is Ok <==> valid_utf8(bytes@),
            r matches Ok(b) ==> b.token@ == decode_utf8(bytes@) && b.hash@ == spec_hash_token(b.token@),
            r is Err ==> r == Err::<IssuedBearer, CentraleError>(CentraleError::InvalidUtf8),
    {
        match string_from_utf8(bytes) {
            Some(token) => {
                let hash = hash_token_text(token.as_str());
                Ok(IssuedBearer { token, hash })
            },
            None => Err(CentraleError::InvalidUtf8),
        }
    }
}

/// The value of the `centrale` cookie in a `Set-Cookie` header: the first
/// attribute, between its first and second `=`.
pub open spec fn spec_centrale_cookie_value(set_cookie: Seq<char>) -> Seq<char> {
    let first = before(set_cookie, ';');
    before(first.skip(first_where(first, one_of(seq!['='])) + 1int), '=')
}

/// Whether the first attribute of a `Set-Cookie` header has a `=`.
pub open spec fn has_cookie_value(set_cookie: Seq<char>) -> bool {
    let first = before(set_cookie, ';');
    first_where(first, one_of(seq!['='])) < first.len()
}

/// Read the cookie value out of a `Set-Cookie` header value.
pub fn get_centrale_cookie(set_cookie: &str) -> (r: Result<String, CentraleError>)
    requires
        has_cookie_value(set_cookie@),
    ensures
        r matches Ok(v) && v@ == spec_centrale_cookie_value(set_cookie@),
{
    let v = chars_of(set_cookie);
    let n = v.len();
    let semi = [';'];
    let eq = ['='];
    assert(semi@ =~= seq![';']);
    assert(eq@ =~= seq!['=']);
    assert(v@.subrange(0, n as int) =~= set_cookie@);
    let a = find_first(&v, 0, n, &Stop::OneOf(&semi));
    let ghost first = v@.subrange(0, a as int);
    assert(first =~= before(set_cookie@, ';'));
    let b = find_first(&v, 0, a, &Stop::OneOf(&eq));
    let c = find_first(&v, b + 1, a, &Stop::OneOf(&eq));
    assert(v@.subrange(b + 1, a as int) =~= first.skip(b + 1));
    Ok(set_cookie.substring_char(b + 1, c).to_owned())
}

/// A stored cookie answers for its user until its expiry time has passed.
pub fn cookie_owner_if_current(user_id: i64, timeout: i64, now: i64) -> (r: Result<i64, CentraleError>)
    ensures
        timeout < now ==> r == Err::<i64, CentraleError>(CentraleError::Unauthorized),
        timeout >= now ==> r == Ok::<i64, CentraleError>(user_id),
{
    if timeout < now {
        Err(CentraleError::Unauthorized)
    } else {
        Ok(user_id)
    }
}

/// The hexadecimal of `n` bytes has `2n` digits, each a lowercase hex digit.
pub proof fn lemma_hex_lower_shape(bytes: Seq<u8>)
    ensures
        hex_lower(bytes).len() == 2 * bytes.len(),
        forall|i: int| 0 <= i < hex_lower(bytes).len() ==> is_hex_char(#[trigger] hex_lower(bytes)[i]),
    decreases bytes.len(),
{
    if bytes.len() > 0 {
        lemma_hex_lower_shape(bytes.drop_last());
        let hi = bytes.last() as int / 16;
        let lo = bytes.last() as int % 16;
        lemma_hex_digit(hi);
        lemma_hex_digit(lo);
        let prev = hex_lower(bytes.drop_last());
        assert forall|i: int| 0 <= i < hex_lower(bytes).len() implies is_hex_char(#[trigger] hex_lower(bytes)[i]) by {
            if i < prev.len() {
                assert(hex_lower(bytes)[i] == prev[i]);
            }
        }
    }
}

/// A digit value below 16 gives a hex digit character whose code encodes it.
proof fn lemma_hex_digit(d: int)
    requires
        0 <= d < 16,
    ensures
        is_hex_char(hex_digit(d)),
        d < 10 ==> hex_digit(d) as int == 48 + d,
        d >= 10 ==> hex_digit(d) as int == 87 + d,
{
}

/// Hexadecimal encoding loses nothing: equal encodings come from equal bytes.
pub proof fn lemma_hex_lower_injective(a: Seq<u8>, b: Seq<u8>)
    requires
        hex_lower(a) == hex_lower(b),
    ensures
        a == b,
    decreases a.len(),
{
    lemma_hex_lower_shape(a);
    lemma_hex_lower_shape(b);
    if a.len() > 0 {
        let ha = hex_lower(a);
        let n = ha.len();
        let x = a.last() as int;
        let y = b.last() as int;
        lemma_hex_digit(x / 16);
        lemma_hex_digit(x % 16);
        lemma_hex_digit(y / 16);
        lemma_hex_digit(y % 16);
        assert(ha[n - 2] == hex_digit(x / 16));
        assert(ha[n - 1] == hex_digit(x % 16));
        assert(hex_lower(b)[n - 2] == hex_digit(y / 16));
        assert(hex_lower(b)[n - 1] == hex_digit(y % 16));
        assert(x / 16 == y / 16);
        assert(x % 16 == y % 16);
        assert(x == y);
        assert(hex_lower(a.drop_last()) =~= ha.take(n - 2));
        assert(hex_lower(b.drop_last()) =~= hex_lower(b).take(n - 2));
        lemma_hex_lower_injective(a.drop_last(), b.drop_last());
        assert(a =~= a.drop_last().push(a.last()));
        assert(b =~= b.drop_last().push(b.last()));
    }
}

/// The owner of the first stored cookie, of those found for a hash, whose
/// expiry time `.1` lies after `now`; `None` when every one has expired.
pub open spec fn spec_first_current_owner(rows: Seq<(i64, i64)>, now: i64) -> Option<i64>
    decreases rows.len(),
{
    if rows.len() == 0 {
        None
    } else if rows[0].1 > now {
        Some(rows[0].0)
    } else {
        spec_first_current_owner(rows.drop_first(), now)
    }
}

/// The user that a client cookie stands for, from the `(user id, expiry)`
/// rows stored under its hash: a cookie counts only while its expiry time is
/// after `now`.
pub fn first_current_cookie_owner(rows: &Vec<(i64, i64)>, now: i64) -> (r: Option<i64>)
    ensures
        r == spec_first_current_owner(rows@, now),
        r is Some <==> exists|i: int| 0 <= i < rows@.len() && (#[trigger] rows@[i]).1 > now,
{
    let mut i: usize = 0;
    assert(rows@.skip(0) =~= rows@);
    while i < rows.len()
        invariant
            i <= rows@.len(),
            spec_first_current_owner(rows@, now) == spec_first_current_owner(rows@.skip(i as int), now),
            forall|j: int| 0 <= j < i ==> (#[trigger] rows@[j]).1 <= now,
        decreases rows.len() - i,
    {
        let (user_id, expires) = rows[i];
        assert(rows@.skip(i as int)[0] == rows@[i as int]);
        if expires > now {
            return Some(user_id);
        }
        assert(rows@.skip(i as int).drop_first() =~= rows@.skip(i + 1));
        i = i + 1;
    }
    assert(rows@.skip(i as int).len() == 0);
    None
}

/// The `(user id, expiry)` rows stored under the hash `h` in a cookie table
/// of `(user id, hash, expiry)` rows, in table order: what the query by hash
/// hands to [`first_current_cookie_owner`].
pub open spec fn rows_under_hash(table: Seq<(i64, Seq<char>, i64)>, h: Seq<char>) -> Seq<(i64, i64)>
    decreases table.len(),
{
    if table.len() == 0 {
        Seq::empty()
    } else {
        let rest = rows_under_hash(table.drop_last(), h);
        if table.last().1 == h {
            rest.push((table.last().0, table.last().2))
        } else {
            rest
        }
    }
}

/// The user that a presented cookie stands for at `now`: its hash is looked
/// up, and the first row under it that has not expired answers.
pub open spec fn spec_cookie_user(table: Seq<(i64, Seq<char>, i64)>, cookie: Seq<char>, now: i64) -> Option<i64> {
    spec_first_current_owner(rows_under_hash(table, spec_hash_token(cookie)), now)
}

/// A hash that no row holds has no rows under it.
proof fn lemma_no_rows_under_hash(table: Seq<(i64, Seq<char>, i64)>, h: Seq<char>)
    requires
        forall|j: int| 0 <= j < table.len() ==> (#[trigger] table[j]).1 != h,
    ensures
        rows_under_hash(table, h) == Seq::<(i64, i64)>::empty(),
    decreases table.len(),
{
    if table.len() > 0 {
        assert(table.last() == table[table.len() - 1]);
        assert forall|j: int| 0 <= j < table.drop_last().len() implies (#[trigger] table.drop_last()[j]).1 != h by {
            assert(table.drop_last()[j] == table[j]);
        }
        lemma_no_rows_under_hash(table.drop_last(), h);
    }
}

/// An issued cookie, stored with its user under its hash in a table where no
/// other row has that hash (the hash column is unique), stands for that user
/// while `now` is before its expiry time and for nobody from then on; a
/// presented text whose hash no row holds stands for nobody.
pub proof fn lemma_issued_cookie_round_trip(
    table: Seq<(i64, Seq<char>, i64)>,
    issued: IssuedCookie,
    user_id: i64,
    issued_at: i64,
    timeout: i64,
    now: i64,
    other: Seq<char>,
)
    requires
        issued.hash@ == spec_hash_token(issued.cookie@),
        issued.expires == issued_at + timeout,
        forall|j: int| 0 <= j < table.len() ==> (#[trigger] table[j]).1 != issued.hash@,
    ensures
        ({
            let stored = table.push((user_id, issued.hash@, issued.expires));
            &&& spec_cookie_user(stored, issued.cookie@, now) == (if now < issued_at + timeout {
                Some(user_id)
            } else {
                None
            })
            &&& (forall|j: int| 0 <= j < stored.len() ==> (#[trigger] stored[j]).1 != spec_hash_token(other))
                ==> spec_cookie_user(stored, other, now) is None
        }),
{
    let stored = table.push((user_id, issued.hash@, issued.expires));
    assert(stored.drop_last() =~= table);
    lemma_no_rows_under_hash(table, issued.hash@);
    let rows = rows_under_hash(stored, issued.hash@);
    assert(rows =~= seq![(user_id, issued.expires)]);
    assert(rows.drop_first() =~= Seq::<(i64, i64)>::empty());
    if forall|j: int| 0 <= j < stored.len() ==> (#[trigger] stored[j]).1 != spec_hash_token(other) {
        lemma_no_rows_under_hash(stored, spec_hash_token(other));
    }
}

} // verus!
