//! Player profiles as the session server and the login success packet
//! carry them, and the request that asks the session server whether a
//! player joined.
use vstd::prelude::*;
use vstd::arithmetic::power2::pow2;
use vstd::utf8::encode_utf8;

use crate::util::push_str;

verus! {

/// A property of a player profile (such as the skin), with its signature
/// when the session server signed it.
#[derive(Debug, Clone)]
pub struct Property {
    pub name: String,
    pub value: String,
    pub signature: Option<String>,
}

/// The text of an optional string, as a spec value.
pub open spec fn opt_text(o: Option<String>) -> Option<Seq<char>> {
    match o {
        Some(s) => Some(s@),
        None => None,
    }
}

impl Property {
    /// The property's name, value and signature as spec values.
    pub open spec fn fields(&self) -> (Seq<char>, Seq<char>, Option<Seq<char>>) {
        (self.name@, self.value@, opt_text(self.signature))
    }
}

/// A player's profile: UUID (as text), name and properties.
#[derive(Debug, Clone)]
pub struct GameProfile {
    pub id: String,
    pub name: String,
    pub properties: Vec<Property>,
}

impl GameProfile {
    /// The properties' fields, in order.
    pub open spec fn property_fields(&self) -> Seq<(Seq<char>, Seq<char>, Option<Seq<char>>)> {
        self.properties@.map_values(|p: Property| p.fields())
    }

    /// The same profile without its properties.
    pub fn clone_without_properties(&self) -> (r: Self)
        ensures
            r.id == self.id,
            r.name == self.name,
            r.properties@.len() == 0,
    {
        GameProfile { id: self.id.clone(), name: self.name.clone(), properties: Vec::new() }
    }
}

// ---------------------------------------------------------------------------
// Asking the session server
// ---------------------------------------------------------------------------

/// The SHA-1 digest of some bytes.
pub uninterp spec fn sha1_of(data: Seq<u8>) -> Seq<u8>;

/// `Digest::digest` of the `sha1` crate: the twenty-byte SHA-1 digest of
/// `data`, a function of the bytes alone.
#[verifier::external_body]
fn sha1_digest(data: &[u8]) -> (r: Vec<u8>)
    ensures
        r@ == sha1_of(data@),
        r@.len() == 20,
{
    <sha1::Sha1 as digest::Digest>::digest(data).to_vec()
}

/// The value of bytes read as an unsigned big-endian number.
pub open spec fn be_unsigned(b: Seq<u8>) -> nat
    decreases b.len(),
{
    if b.len() == 0 {
        0
    } else {
        (be_unsigned(b.drop_last()) * 256 + b.last()) as nat
    }
}

/// The value of bytes read as a two's-complement big-endian number.
pub open spec fn be_signed(b: Seq<u8>) -> int {
    if b.len() > 0 && b[0] >= 128 {
        be_unsigned(b) - pow2(8 * b.len())
    } else {
        be_unsigned(b) as int
    }
}

/// The lowercase hexadecimal digit of a value below 16.
pub open spec fn hex_digit_lower(d: nat) -> char {
    if d < 10 {
        ('0' as nat + d) as char
    } else {
        ('a' as nat + d - 10) as char
    }
}

/// A natural number in lowercase hexadecimal, without leading zeros.
pub open spec fn hex_text(n: nat) -> Seq<char>
    decreases n,
{
    if n < 16 {
        seq![hex_digit_lower(n)]
    } else {
        hex_text(n / 16) + seq![hex_digit_lower(n % 16)]
    }
}

/// An integer in hexadecimal, with a minus sign when negative.
pub open spec fn signed_hex(v: int) -> Seq<char> {
    if v < 0 {
        seq!['-'] + hex_text((-v) as nat)
    } else {
        hex_text(v as nat)
    }
}

/// `num_bigint::BigInt::from_signed_bytes_be` followed by `to_str_radix(16)`:
/// the two's-complement big-endian value of the bytes in lowercase
/// hexadecimal, with a minus sign when negative.
#[verifier::external_body]
fn signed_bytes_hex(bytes: &[u8]) -> (r: String)
    ensures
        r@ == signed_hex(be_signed(bytes@)),
{
    num_bigint::BigInt::from_signed_bytes_be(bytes).to_str_radix(16)
}

/// The server hash of a login: the SHA-1 of the server id, the shared
/// secret and the proxy's public key (DER), as a signed hexadecimal number.
pub fn server_hash(server_id: &str, secret_key: &[u8; 16], public_key_der: &[u8]) -> (r: String)
    ensures
        r@ == signed_hex(be_signed(sha1_of(encode_utf8(server_id@) + secret_key@ + public_key_der@))),
{
    let mut data: Vec<u8> = Vec::new();
    data.extend_from_slice(server_id.as_bytes());
    data.extend_from_slice(secret_key.as_slice());
    data.extend_from_slice(public_key_der);
    proof { assert(data@ =~= encode_utf8(server_id@) + secret_key@ + public_key_der@); }
    let hash = sha1_digest(data.as_slice());
    signed_bytes_hex(hash.as_slice())
}

/// Whether a byte stands for itself in a URL: ASCII letters, digits, and
/// `-`, `.`, `_`, `~`.
pub open spec fn url_unreserved(b: u8) -> bool {
    (0x30 <= b <= 0x39) || (0x41 <= b <= 0x5A) || (0x61 <= b <= 0x7A) || b == 0x2D || b == 0x2E || b == 0x5F
        || b == 0x7E
}

/// The uppercase hexadecimal digit of a value below 16.
pub open spec fn hex_digit_upper(d: u8) -> char {
    if d < 10 {
        ('0' as u8 + d) as char
    } else {
        ('A' as u8 + d - 10) as char
    }
}

/// Bytes percent-encoded: unreserved bytes as their characters, every
/// other byte as `%` and two uppercase hexadecimal digits.
pub open spec fn percent_encoded(b: Seq<u8>) -> Seq<char>
    decreases b.len(),
{
    if b.len() == 0 {
        Seq::empty()
    } else {
        percent_encoded(b.drop_last()) + if url_unreserved(b.last()) {
            seq![b.last() as char]
        } else {
            seq!['%', hex_digit_upper(b.last() / 16), hex_digit_upper(b.last() % 16)]
        }
    }
}

/// `urlencoding::encode`: the UTF-8 bytes of the text percent-encoded.
#[verifier::external_body]
fn url_encode(text: &str) -> (r: String)
    ensures
        r@ == percent_encoded(encode_utf8(text@)),
{
    urlencoding::encode(text).into_owned()
}

/// The address of the session server's `hasJoined` query.
pub open spec fn has_joined_base() -> Seq<char> {
    "https://sessionserver.mojang.com/session/minecraft/hasJoined?username="@
}

/// The `hasJoined` query for a player name, server hash and (when the
/// proxy checks it) the player's address.
pub open spec fn spec_has_joined_url(name: Seq<char>, hash: Seq<char>, ip: Option<Seq<char>>) -> Seq<char> {
    has_joined_base() + percent_encoded(encode_utf8(name)) + "&serverId="@ + percent_encoded(encode_utf8(hash))
        + match ip {
        Some(a) => "&ip="@ + percent_encoded(encode_utf8(a)),
        None => Seq::empty(),
    }
}

/// The session server query that asks whether a player joined: the name,
/// the server hash of the login, and the address when given.
pub fn has_joined_url(name: &str, server_id: &str, secret_key: &[u8; 16], public_key_der: &[u8], ip: Option<&str>) -> (r:
    String)
    ensures
        r@ == spec_has_joined_url(
            name@,
            signed_hex(be_signed(sha1_of(encode_utf8(server_id@) + secret_key@ + public_key_der@))),
            match ip {
                Some(a) => Some(a@),
                None => None,
            },
        ),
{
    let hash = server_hash(server_id, secret_key, public_key_der);
    let mut url = "https://sessionserver.mojang.com/session/minecraft/hasJoined?username=".to_owned();
    let n = url_encode(name);
    push_str(&mut url, n.as_str());
    push_str(&mut url, "&serverId=");
    let h = url_encode(hash.as_str());
    push_str(&mut url, h.as_str());
    match ip {
        Some(a) => {
            push_str(&mut url, "&ip=");
            let e = url_encode(a);
            push_str(&mut url, e.as_str());
        },
        None => {},
    }
    url
}

} // verus!
