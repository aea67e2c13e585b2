//! Secrets: comparing them, minting them, and the viewers' cookie.
use crate::text::{
    chars_of, hex, law_trimming, lemma_hex_digits, lemma_hex_injective, lemma_trimmed_fixed,
    lemma_utf8_determines_text, to_hex, trim, trimmed, trimmed_at, trimmed_start, white_space,
};
use rand::RngCore;
use sha2::Digest;
use vstd::prelude::*;
use vstd::string::*;
use vstd::utf8::*;

verus! {

/// Whether two byte strings are the same, looking at every byte of both when
/// their lengths agree.
pub fn ct_eq(a: &[u8], b: &[u8]) -> (r: bool)
    ensures
        r == (a@ == b@),
{
    if a.len() != b.len() {
        return false;
    }
    let mut acc: u8 = 0;
    for i in 0..a.len()
        invariant
            a.len() == b.len(),
            acc == 0 <==> (forall|k: int| 0 <= k < i ==> a@[k] == b@[k]),
    {
        let x = a[i];
        let y = b[i];
        let before = acc;
        acc = acc | (x ^ y);
        assert(before | (x ^ y) == 0 <==> before == 0 && x == y) by (bit_vector);
    }
    assert(acc == 0 ==> a@ =~= b@);
    acc == 0
}

/// Whether two texts are the same.
pub fn same_secret(a: &str, b: &str) -> (r: bool)
    ensures
        r == (a@ == b@),
{
    proof {
        lemma_utf8_determines_text(a@, b@);
    }
    ct_eq(a.as_bytes(), b.as_bytes())
}

/// The SHA-256 digest of a byte string.
pub uninterp spec fn sha256_digest(data: Seq<u8>) -> Seq<u8>;

/// `Sha256::digest` of the sha2 crate: its result is a function of the data
/// alone and is 32 bytes long.
#[verifier::external_body]
fn sha256(data: &[u8]) -> (r: Vec<u8>)
    ensures
        r@ == sha256_digest(data@),
        r@.len() == 32,
{
    sha2::Sha256::digest(data).to_vec()
}

/// The cookie value that proves a viewer key: the SHA-256 of its bytes, in hex.
pub open spec fn cookie_of(key: Seq<char>) -> Seq<char> {
    hex(sha256_digest(encode_utf8(key)))
}

/// The cookie value that proves a viewer key.
pub fn cookie_value(key: &str) -> (r: String)
    ensures
        r@ == cookie_of(key@),
        r@.len() == 64,
{
    to_hex(sha256(key.as_bytes()).as_slice())
}

/// Why the operating system's generator gave no bytes.
#[verifier::external_type_specification]
#[verifier::external_body]
pub struct ExRandError(rand::Error);

/// `OsRng::try_fill_bytes` of the rand crate fills the buffer from the
/// operating system's generator or reports that it could not. Nothing is
/// claimed of the bytes.
#[verifier::external_body]
fn random_bytes() -> (r: Result<[u8; 32], rand::Error>) {
    let mut bytes = [0u8; 32];
    rand::rngs::OsRng.try_fill_bytes(&mut bytes)?;
    Ok(bytes)
}

/// The characters of a viewer key: no 0/o/1/l/i.
pub open spec fn key_alphabet() -> Seq<char> {
    "abcdefghjkmnpqrstuvwxyz23456789"@
}

/// A viewer key made of the first five of some random bytes.
pub open spec fn short_secret(bytes: Seq<u8>) -> Seq<char> {
    Seq::new(5, |i: int| key_alphabet()[bytes[i] as int % 31])
}

/// The secret made of 32 random bytes: five characters that can be typed on a
/// TV remote, or all the bytes in hex.
pub open spec fn minted(bytes: Seq<u8>, short: bool) -> Seq<char> {
    if short {
        short_secret(bytes)
    } else {
        hex(bytes)
    }
}

/// The secret made of the given random bytes.
pub fn mint_secret(bytes: &[u8; 32], short: bool) -> (r: String)
    ensures
        r@ == minted(bytes@, short),
{
    if short {
        proof {
            reveal_strlit("abcdefghjkmnpqrstuvwxyz23456789");
        }
        let alphabet = chars_of("abcdefghjkmnpqrstuvwxyz23456789");
        let mut r = String::new();
        for i in 0..5
            invariant
                alphabet@ == key_alphabet(),
                alphabet@.len() == 31,
                r@ == short_secret(bytes@).take(i as int),
        {
            r.push(alphabet[bytes[i] as usize % 31]);
        }
        r
    } else {
        to_hex(bytes.as_slice())
    }
}

/// A secret, and whether its file has to be created.
pub enum Secret {
    /// The file holds it.
    Kept { secret: String },
    /// It was minted and is to be written to a new file.
    Minted { secret: String },
}

/// The operating system gave no random bytes.
#[derive(Clone, Copy, Debug, PartialEq, Eq, Structural)]
pub struct NoRandomness;

/// Whether a secret file, if it could be read, holds a secret.
pub open spec fn holds_secret(contents: Option<&str>) -> bool {
    contents is Some && trimmed(contents->0@).len() > 0
}

/// Take the secret its file holds, or mint one. A viewer key (`short`) is five
/// characters, because it gets typed on a TV remote; the admin token is 32
/// random bytes as hex.
pub fn load_or_create_secret(contents: Option<&str>, short: bool) -> (r: Result<
    Secret,
    NoRandomness,
>)
    ensures
        holds_secret(contents) ==> (r matches Ok(Secret::Kept { secret }) && secret@ == trimmed(
            contents->0@,
        )),
        !holds_secret(contents) ==> match r {
            Ok(Secret::Minted { secret }) => exists|bytes: [u8; 32]|
                secret@ == #[trigger] minted(bytes@, short),
            Ok(Secret::Kept { .. }) => false,
            Err(NoRandomness) => true,
        },
        r matches Ok(Secret::Kept { secret }) ==> presentable(secret@),
        r matches Ok(Secret::Minted { secret }) ==> presentable(secret@),
{
    if let Some(text) = contents {
        let s = trim(text);
        if !s.is_empty() {
            proof {
                lemma_trimmed_fixed(text@);
            }
            return Ok(Secret::Kept { secret: s.to_owned() });
        }
    }
    match random_bytes() {
        Ok(bytes) => {
            proof {
                lemma_minted_presentable(bytes, short);
            }
            Ok(Secret::Minted { secret: mint_secret(&bytes, short) })
        },
        Err(_) => Err(NoRandomness),
    }
}

/// The text of a new secret file: the secret on a line of its own.
pub fn secret_line(secret: &str) -> (r: String)
    ensures
        r@ == secret@.push('\n'),
{
    let mut r = secret.to_owned();
    r.push('\n');
    r
}

/// A secret that was minted and written to its file is what the next start
/// finds there.
pub proof fn law_a_written_secret_is_read_back(secret: Seq<char>, file: &str)
    requires
        presentable(secret),
        file@ == secret.push('\n'),
    ensures
        holds_secret(Some(file)),
        trimmed(file@) == secret,
{
    lemma_trimmed_fixed(secret);
    assert(trimmed_start(file@) == file@);
    assert(file@.drop_last() =~= secret);
    assert(trimmed_start(secret) == secret);
}

/// A secret that can be presented: not empty, and the same once trimmed.
pub open spec fn presentable(secret: Seq<char>) -> bool {
    secret.len() > 0 && trimmed(secret) == secret
}

/// The characters of a viewer key are small letters and digits, none of them
/// easily taken for another.
pub proof fn law_key_alphabet(i: int)
    requires
        0 <= i < key_alphabet().len(),
    ensures
        key_alphabet().len() == 31,
        ({
            let c = key_alphabet()[i];
            ('a' <= c <= 'z' || '2' <= c <= '9') && c != 'o' && c != 'l' && c != 'i'
        }),
{
    reveal_strlit("abcdefghjkmnpqrstuvwxyz23456789");
}

/// A minted viewer key is five characters of the alphabet; a minted admin
/// token is 64 hexadecimal digits.
pub proof fn law_minted_shape(bytes: [u8; 32])
    ensures
        minted(bytes@, true).len() == 5,
        forall|i: int| 0 <= i < 5 ==> key_alphabet().contains(#[trigger] minted(bytes@, true)[i]),
        minted(bytes@, false).len() == 64,
        forall|i: int|
            0 <= i < 64 ==> ('0' <= #[trigger] minted(bytes@, false)[i] <= '9' || 'a' <= minted(
                bytes@,
                false,
            )[i] <= 'f'),
{
    reveal_strlit("abcdefghjkmnpqrstuvwxyz23456789");
    assert forall|i: int| 0 <= i < 64 implies '0' <= #[trigger] minted(bytes@, false)[i] <= '9'
        || 'a' <= minted(bytes@, false)[i] <= 'f' by {
        lemma_hex_digits(bytes@, i);
    }
}

/// Every five characters of the alphabet can be minted as a viewer key.
pub proof fn law_every_short_key_can_be_minted(key: Seq<char>)
    requires
        key.len() == 5,
        forall|i: int| 0 <= i < 5 ==> key_alphabet().contains(#[trigger] key[i]),
    ensures
        exists|bytes: Seq<u8>| bytes.len() == 32 && #[trigger] minted(bytes, true) == key,
{
    reveal_strlit("abcdefghjkmnpqrstuvwxyz23456789");
    let bytes: Seq<u8> = Seq::new(
        32,
        |i: int|
            if i < 5 {
                key_alphabet().index_of(key[i]) as u8
            } else {
                0u8
            },
    );
    assert forall|i: int| 0 <= i < 5 implies minted(bytes, true)[i] == key[i] by {
        assert(key_alphabet().contains(key[i]));
        let at = key_alphabet().index_of(key[i]);
        assert(0 <= at < 31 && key_alphabet()[at] == key[i]);
        assert(bytes[i] as int % 31 == at);
    }
    assert(minted(bytes, true) =~= key);
}

/// Different random bytes give different admin tokens.
pub proof fn law_tokens_tell_bytes_apart(a: [u8; 32], b: [u8; 32])
    requires
        minted(a@, false) == minted(b@, false),
    ensures
        a@ == b@,
{
    lemma_hex_injective(a@, b@);
}

proof fn lemma_minted_presentable(bytes: [u8; 32], short: bool)
    ensures
        presentable(minted(bytes@, short)),
{
    let s = minted(bytes@, short);
    law_minted_shape(bytes);
    lemma_trimmed_fixed(s);
    if short {
        assert(key_alphabet().contains(s[0]) && key_alphabet().contains(s[4]));
        law_key_alphabet(key_alphabet().index_of(s[0]));
        law_key_alphabet(key_alphabet().index_of(s[4]));
    } else {
        assert('0' <= s[0] <= '9' || 'a' <= s[0] <= 'f');
        assert('0' <= s[63] <= '9' || 'a' <= s[63] <= 'f');
    }
}

/// A minted viewer key spells the first five bytes: each, divided by 31, leaves
/// the place of its character in the alphabet. A minted admin token spells all
/// the bytes in hexadecimal.
pub proof fn law_minting_spells_the_bytes(bytes: [u8; 32], i: int)
    requires
        0 <= i < 5,
    ensures
        minted(bytes@, true).len() == 5,
        minted(bytes@, true)[i] == "abcdefghjkmnpqrstuvwxyz23456789"@[bytes@[i] as int % 31],
        minted(bytes@, false) == hex(bytes@),
{
}

/// The cookie value of a key is the SHA-256 digest of its UTF-8 bytes in
/// hexadecimal, and that alone decides it.
pub proof fn law_cookie_is_the_digest_in_hex(key: Seq<char>, other: Seq<char>)
    ensures
        cookie_of(key) == hex(sha256_digest(encode_utf8(key))),
        cookie_of(key) == cookie_of(other) <==> sha256_digest(encode_utf8(key)) == sha256_digest(
            encode_utf8(other),
        ),
{
    if cookie_of(key) == cookie_of(other) {
        lemma_hex_injective(
            sha256_digest(encode_utf8(key)),
            sha256_digest(encode_utf8(other)),
        );
    }
}

/// A file holds a secret exactly when it could be read and some character of it
/// is no white space.
pub proof fn law_what_holds_a_secret(text: &str)
    ensures
        !holds_secret(None),
        holds_secret(Some(text)) <==> exists|i: int|
            0 <= i < text@.len() && !white_space(#[trigger] text@[i]),
{
    let s = text@;
    let t = trimmed(s);
    law_trimming(s);
    let lead = choose|lead: int| #[trigger] trimmed_at(s, t, lead);
    if t.len() > 0 {
        assert(s.subrange(lead, lead + t.len())[0] == s[lead]);
        assert(!white_space(s[lead]));
    }
}

/// A secret can be presented exactly when it neither is empty nor begins or
/// ends with white space.
pub proof fn law_presentable_secrets(secret: Seq<char>)
    ensures
        presentable(secret) <==> secret.len() > 0 && !white_space(secret.first()) && !white_space(
            secret.last(),
        ),
{
    lemma_trimmed_fixed(secret);
}

} // verus!
