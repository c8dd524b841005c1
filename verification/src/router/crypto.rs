//! Digests, encodings and encryption of what is sent to the router.

use crate::addr;
use base64::Engine;
use rsa::pkcs8::DecodePublicKey;
use rsa::traits::PublicKeyParts;
use sha2::Digest;
use vstd::arithmetic::power;
use vstd::prelude::*;
use vstd::utf8;

verus! {

/// The error of a text that is no public key.
#[verifier::external_type_specification]
#[verifier::external_body]
pub struct ExKeyError(rsa::pkcs8::spki::Error);

/// The error of an encryption.
#[verifier::external_type_specification]
#[verifier::external_body]
pub struct ExRsaError(rsa::Error);

// ---------------------------------------------------------------------------------------------
// Digests and encodings

/// The SHA-256 digest of `data`.
pub uninterp spec fn sha256_digest(data: Seq<u8>) -> Seq<u8>;

/// `sha2::Sha256` over `data`: the digest depends on the data alone and has 32 bytes.
#[verifier::external_body]
pub(crate) fn sha256(data: &[u8]) -> (digest: Vec<u8>)
    ensures
        digest@ == sha256_digest(data@),
        digest@.len() == 32,
{
    sha2::Sha256::digest(data).to_vec()
}

/// Two hexadecimal digits in lower case for each byte, the high one first.
pub open spec fn hex_encoding(bytes: Seq<u8>) -> Seq<char> {
    Seq::new(
        2 * bytes.len(),
        |i: int|
            if i % 2 == 0 {
                addr::hex_char((bytes[i / 2] / 16) as nat)
            } else {
                addr::hex_char((bytes[i / 2] % 16) as nat)
            },
    )
}

/// `hex::encode` gives two hexadecimal digits in lower case for each byte.
#[verifier::external_body]
pub(crate) fn hex_text(bytes: &[u8]) -> (r: String)
    ensures
        r@ == hex_encoding(bytes@),
{
    hex::encode(bytes)
}

/// The character of the standard base64 alphabet for the value `n`.
pub open spec fn base64_char(n: int) -> char {
    if n < 26 {
        ('A' as u32 + n) as char
    } else if n < 52 {
        ('a' as u32 + n - 26) as char
    } else if n < 62 {
        ('0' as u32 + n - 52) as char
    } else if n == 62 {
        '+'
    } else {
        '/'
    }
}

/// The byte at `i`, or zero behind the end.
pub open spec fn byte_at(bytes: Seq<u8>, i: int) -> int {
    if i < bytes.len() {
        bytes[i] as int
    } else {
        0
    }
}

/// The character at `i` of the base64 text of `bytes`: every three bytes give four characters of
/// six bits each, and an equals sign stands where no bit of the bytes falls.
pub open spec fn base64_at(bytes: Seq<u8>, i: int) -> char {
    let g = i / 4 * 3;
    let (a, b, c) = (byte_at(bytes, g), byte_at(bytes, g + 1), byte_at(bytes, g + 2));
    if i % 4 == 0 {
        base64_char(a / 4)
    } else if i % 4 == 1 {
        base64_char(a % 4 * 16 + b / 16)
    } else if i % 4 == 2 {
        if g + 1 < bytes.len() {
            base64_char(b % 16 * 4 + c / 64)
        } else {
            '='
        }
    } else {
        if g + 2 < bytes.len() {
            base64_char(c % 64)
        } else {
            '='
        }
    }
}

/// The base64 text of `bytes` with the standard alphabet and padding.
pub open spec fn base64_encoding(bytes: Seq<u8>) -> Seq<char> {
    Seq::new((bytes.len() + 2) / 3 * 4, |i: int| base64_at(bytes, i))
}

/// `base64::engine::general_purpose::STANDARD.encode` gives the base64 text with the standard
/// alphabet and padding.
#[verifier::external_body]
pub(crate) fn base64_text(bytes: &[u8]) -> (r: String)
    ensures
        r@ == base64_encoding(bytes@),
{
    base64::engine::general_purpose::STANDARD.encode(bytes)
}

// ---------------------------------------------------------------------------------------------
// Encryption

/// The number that the bytes are, with the highest byte first.
pub open spec fn big_endian(bytes: Seq<u8>) -> nat
    decreases bytes.len(),
{
    if bytes.len() == 0 {
        0
    } else {
        256 * big_endian(bytes.drop_last()) + bytes.last() as nat
    }
}

/// A modulus without leading zeros and an exponent that can be used for encryption: both odd, the
/// exponent at least two, below the modulus and of at most 33 bits.
pub open spec fn is_key(modulus: Seq<u8>, exponent: Seq<u8>) -> bool {
    &&& modulus.len() > 0 && modulus[0] != 0
    &&& big_endian(modulus) % 2 == 1
    &&& big_endian(exponent) % 2 == 1
    &&& 2 <= big_endian(exponent) < big_endian(modulus)
    &&& big_endian(exponent) < 0x2_0000_0000
}

/// The modulus and the exponent of the public key of RSA that `pem` is the text of; none where it
/// is not one.
pub uninterp spec fn public_key_numbers(pem: Seq<char>) -> Option<(Seq<u8>, Seq<u8>)>;

/// `RsaPublicKey::from_public_key_pem` and the numbers of the key that it reads, in big-endian
/// bytes.
///
/// What is claimed is that they depend on the text alone, and that the key passed the checks that
/// `RsaPublicKey::new` makes. Which texts are keys is left to that function.
#[verifier::external_body]
fn load_public_key(pem: &str) -> (r: Result<(Vec<u8>, Vec<u8>), rsa::pkcs8::spki::Error>)
    ensures
        match r {
            Ok(k) => public_key_numbers(pem@) == Some((k.0@, k.1@)) && is_key(k.0@, k.1@),
            Err(_) => public_key_numbers(pem@) is None,
        },
{
    match rsa::RsaPublicKey::from_public_key_pem(pem) {
        Ok(key) => Ok((key.n().to_bytes_be(), key.e().to_bytes_be())),
        Err(e) => Err(e),
    }
}

/// The block that is encrypted for `message`.
pub open spec fn padded_block(padding: Seq<u8>, message: Seq<u8>) -> Seq<u8> {
    seq![0u8, 2u8] + padding + seq![0u8] + message
}

/// `cipher` is the message in encrypted form, in as many bytes as the modulus has: for some padding
/// of eight bytes or more, none of them zero, it is the power of the padded block.
pub open spec fn is_cipher(
    modulus: Seq<u8>,
    exponent: Seq<u8>,
    message: Seq<u8>,
    cipher: Seq<u8>,
) -> bool {
    &&& cipher.len() == modulus.len()
    &&& exists|padding: Seq<u8>|
        {
            &&& padding.len() >= 8
            &&& !padding.contains(0u8)
            &&& (#[trigger] padded_block(padding, message)).len() == modulus.len()
            &&& big_endian(cipher) == power::pow(
                big_endian(padded_block(padding, message)) as int,
                big_endian(exponent),
            ) % (big_endian(modulus) as int)
        }
}

/// `RsaPublicKey::encrypt` with the padding of PKCS #1 v1.5.
///
/// It fails exactly where the modulus has no room for the message and eleven bytes more. The padding
/// is drawn from the operating system, so the cipher text differs from call to call; which of them
/// comes is not stated. Where the operating system has no random bytes to give, it panics.
#[verifier::external_body]
fn encrypt(modulus: &[u8], exponent: &[u8], message: &[u8]) -> (r: Result<Vec<u8>, rsa::Error>)
    requires
        is_key(modulus@, exponent@),
    ensures
        match r {
            Ok(cipher) => is_cipher(modulus@, exponent@, message@, cipher@),
            Err(_) => modulus@.len() < message@.len() + 11,
        },
{
    let n = rsa::BigUint::from_bytes_be(modulus);
    let e = rsa::BigUint::from_bytes_be(exponent);
    let key = rsa::RsaPublicKey::new_unchecked(n, e);
    key.encrypt(&mut rand::rngs::OsRng, rsa::Pkcs1v15Encrypt, message)
}

/// A public key of RSA.
pub struct PublicKey {
    modulus: Vec<u8>,
    exponent: Vec<u8>,
}

/// The model of a public key.
pub struct PublicKeyView {
    pub modulus: Seq<u8>,
    pub exponent: Seq<u8>,
}

impl View for PublicKey {
    type V = PublicKeyView;

    closed spec fn view(&self) -> PublicKeyView {
        PublicKeyView { modulus: self.modulus@, exponent: self.exponent@ }
    }
}

/// The key that `pem` is the text of.
pub open spec fn key_of_pem(pem: Seq<char>) -> Option<PublicKeyView> {
    match public_key_numbers(pem) {
        Some((modulus, exponent)) => Some(PublicKeyView { modulus, exponent }),
        None => None,
    }
}

impl PublicKey {
    #[verifier::type_invariant]
    spec fn wf(self) -> bool {
        is_key(self.modulus@, self.exponent@)
    }

    /// Reads the key that `pem` is the text of.
    pub fn from_pem(pem: &str) -> (r: Option<PublicKey>)
        ensures
            match r {
                Some(key) => key_of_pem(pem@) == Some(key@),
                None => key_of_pem(pem@) is None,
            },
    {
        match load_public_key(pem) {
            Ok((modulus, exponent)) => Some(PublicKey { modulus, exponent }),
            Err(_) => None,
        }
    }
}

// ---------------------------------------------------------------------------------------------
// What the router is sent

/// The password as the login form carries it: the digest of the password followed by the token.
pub open spec fn hashed_password(password: Seq<char>, token: Seq<char>) -> Seq<char> {
    hex_encoding(sha256_digest(utf8::encode_utf8(password) + utf8::encode_utf8(token)))
}

/// The password as the login form carries it.
pub fn hash_password(password: &str, token: &str) -> (r: String)
    ensures
        r@ == hashed_password(password@, token@),
{
    let mut data: Vec<u8> = password.as_bytes_vec();
    let mut tail: Vec<u8> = token.as_bytes_vec();
    data.append(&mut tail);
    hex_text(sha256(data.as_slice()).as_slice())
}

/// What the check of a form holds in encrypted form: the digest of the form in hexadecimal digits.
pub open spec fn check_message(body: Seq<char>) -> Seq<u8> {
    utf8::encode_utf8(hex_encoding(sha256_digest(utf8::encode_utf8(body))))
}

/// What the check of a form holds in encrypted form.
pub fn check_message_of(body: &str) -> (r: Vec<u8>)
    ensures
        r@ == check_message(body@),
{
    let digest: Vec<u8> = sha256(body.as_bytes());
    hex_text(digest.as_slice()).as_str().as_bytes_vec()
}

/// The check of a form from what the encryption gave.
pub fn check_text(cipher: &Result<Vec<u8>, rsa::Error>) -> (r: Result<String, String>)
    ensures
        match *cipher {
            Ok(c) => r matches Ok(t) && t@ == base64_encoding(c@),
            Err(_) => r matches Err(e) && e@ == "RSA encrypt Check header"@,
        },
{
    match cipher {
        Ok(c) => Ok(base64_text(c.as_slice())),
        Err(_) => Err("RSA encrypt Check header".to_owned()),
    }
}

/// `check` is a check of the form `body`: its digest, encrypted with `key`, in base64.
pub open spec fn is_check(key: PublicKeyView, body: Seq<char>, check: Seq<char>) -> bool {
    exists|cipher: Seq<u8>|
        is_cipher(key.modulus, key.exponent, check_message(body), cipher) && check
            == #[trigger] base64_encoding(cipher)
}

/// The check of the form `body`: its digest, encrypted with `key`, in base64.
///
/// [`check_text`] says what becomes of the cipher text that came.
pub fn make_check_header(key: &PublicKey, body: &str) -> (r: Result<String, String>)
    ensures
        match r {
            Ok(t) => is_check(key@, body@, t@),
            Err(e) => key@.modulus.len() < check_message(body@).len() + 11 && e@
                == "RSA encrypt Check header"@,
        },
{
    proof {
        use_type_invariant(key);
    }
    let message: Vec<u8> = check_message_of(body);
    let cipher: Result<Vec<u8>, rsa::Error> = encrypt(
        key.modulus.as_slice(),
        key.exponent.as_slice(),
        message.as_slice(),
    );
    check_text(&cipher)
}

/// The digits of a byte: the first weighs sixteen, and the letters are in lower case.
pub proof fn law_hex_encoding(bytes: Seq<u8>, i: int)
    requires
        0 <= i < bytes.len(),
    ensures
        hex_encoding(bytes).len() == 2 * bytes.len(),
        bytes[i] / 16 < 10 ==> hex_encoding(bytes)[2 * i] == ('0' as u8 + bytes[i] / 16) as char,
        bytes[i] / 16 >= 10 ==> hex_encoding(bytes)[2 * i] == ('a' as u8 + bytes[i] / 16
            - 10) as char,
        bytes[i] % 16 < 10 ==> hex_encoding(bytes)[2 * i + 1] == ('0' as u8 + bytes[i] % 16) as char,
        bytes[i] % 16 >= 10 ==> hex_encoding(bytes)[2 * i + 1] == ('a' as u8 + bytes[i] % 16
            - 10) as char,
{
}

/// The place of a character in the alphabet of base64.
pub open spec fn base64_value(c: char) -> int {
    if 'A' <= c <= 'Z' {
        c as int - 'A' as int
    } else if 'a' <= c <= 'z' {
        c as int - 'a' as int + 26
    } else if '0' <= c <= '9' {
        c as int - '0' as int + 52
    } else if c == '+' {
        62
    } else {
        63
    }
}

proof fn lemma_base64_char(n: int)
    requires
        0 <= n < 64,
    ensures
        base64_value(base64_char(n)) == n,
        base64_char(n) != '=',
{
}

/// Four characters of base64 hold three bytes; at the end two characters and two `=` hold one
/// byte, three and one `=` two.
pub proof fn law_base64_encoding(bytes: Seq<u8>, g: int)
    requires
        0 <= 3 * g < bytes.len(),
    ensures
        base64_encoding(bytes).len() == 4 * ((bytes.len() + 2) / 3),
        ({
            let t = base64_encoding(bytes);
            let (p, q) = (base64_value(t[4 * g]), base64_value(t[4 * g + 1]));
            let (r, s) = (base64_value(t[4 * g + 2]), base64_value(t[4 * g + 3]));
            &&& 3 * g + 2 < bytes.len() ==> 262144 * p + 4096 * q + 64 * r + s == 65536 * bytes[3
                * g] + 256 * bytes[3 * g + 1] + bytes[3 * g + 2] && t[4 * g + 2] != '=' && t[4 * g
                + 3] != '='
            &&& 3 * g + 2 == bytes.len() ==> 4096 * p + 64 * q + r == 4 * (256 * bytes[3 * g]
                + bytes[3 * g + 1]) && t[4 * g + 2] != '=' && t[4 * g + 3] == '='
            &&& 3 * g + 1 == bytes.len() ==> 64 * p + q == 16 * bytes[3 * g] && t[4 * g + 2] == '='
                && t[4 * g + 3] == '='
        }),
{
    let t = base64_encoding(bytes);
    let (a, b, c) = (
        byte_at(bytes, 3 * g),
        byte_at(bytes, 3 * g + 1),
        byte_at(bytes, 3 * g + 2),
    );
    assert(4 * g / 4 == g && (4 * g + 1) / 4 == g && (4 * g + 2) / 4 == g && (4 * g + 3) / 4 == g);
    assert(0 <= a < 256 && 0 <= b < 256 && 0 <= c < 256);
    lemma_base64_char(a / 4);
    lemma_base64_char(a % 4 * 16 + b / 16);
    lemma_base64_char(b % 16 * 4 + c / 64);
    lemma_base64_char(c % 64);
}

proof fn lemma_encode_add(a: Seq<char>, b: Seq<char>)
    ensures
        utf8::encode_utf8(a + b) == utf8::encode_utf8(a) + utf8::encode_utf8(b),
    decreases a.len(),
{
    if a.len() == 0 {
        assert(a + b =~= b);
        assert(utf8::encode_utf8(a) + utf8::encode_utf8(b) =~= utf8::encode_utf8(b));
    } else {
        lemma_encode_add(a.drop_first(), b);
        assert((a + b).drop_first() =~= a.drop_first() + b);
        assert((a + b)[0] == a[0]);
        assert(utf8::encode_utf8(a + b) =~= utf8::encode_utf8(a) + utf8::encode_utf8(b));
    }
}

/// A password is hashed with the token directly behind it, and a form is checked by the digits of
/// its own digest.
pub proof fn law_hashes(password: Seq<char>, a: Seq<char>, b: Seq<char>)
    ensures
        hashed_password(password, a + b) == hashed_password(password + a, b),
        hashed_password(password, seq![]) == hex_encoding(
            sha256_digest(utf8::encode_utf8(password)),
        ),
        check_message(password) == utf8::encode_utf8(hashed_password(password, seq![])),
{
    let none = Seq::<char>::empty();
    lemma_encode_add(password, a);
    lemma_encode_add(a, b);
    let (p, x, y) = (utf8::encode_utf8(password), utf8::encode_utf8(a), utf8::encode_utf8(b));
    assert(p + (x + y) =~= (p + x) + y);
    assert(utf8::encode_utf8(none) =~= seq![]);
    assert(p + utf8::encode_utf8(none) =~= p);
}

/// The number that bytes write: every further byte weighs 256 times less than the one before it.
pub proof fn law_big_endian(bytes: Seq<u8>, b: u8)
    ensures
        big_endian(seq![]) == 0,
        big_endian(bytes.push(b)) == 256 * big_endian(bytes) + b,
{
    assert(bytes.push(b).drop_last() =~= bytes);
}

/// A cipher text is as long as the modulus, and the power, modulo it, of the message behind a zero,
/// a two, eight or more bytes that are not zero, and another zero.
pub proof fn law_cipher(modulus: Seq<u8>, exponent: Seq<u8>, message: Seq<u8>, cipher: Seq<u8>)
    requires
        is_cipher(modulus, exponent, message, cipher),
    ensures
        cipher.len() == modulus.len(),
        exists|padding: Seq<u8>|
            {
                let block = #[trigger] padded_block(padding, message);
                &&& padding.len() >= 8
                &&& forall|i: int| 0 <= i < padding.len() ==> #[trigger] padding[i] != 0
                &&& block.len() == modulus.len() && padding.len() + message.len() + 3
                    == modulus.len()
                &&& block[0] == 0 && block[1] == 2
                &&& block.subrange(2, 2 + padding.len() as int) == padding
                &&& block[2 + padding.len() as int] == 0
                &&& block.subrange(3 + padding.len() as int, block.len() as int) == message
                &&& big_endian(cipher) == power::pow(
                    big_endian(block) as int,
                    big_endian(exponent),
                ) % (big_endian(modulus) as int)
            },
{
    let padding = choose|padding: Seq<u8>|
        {
            &&& padding.len() >= 8
            &&& !padding.contains(0u8)
            &&& (#[trigger] padded_block(padding, message)).len() == modulus.len()
            &&& big_endian(cipher) == power::pow(
                big_endian(padded_block(padding, message)) as int,
                big_endian(exponent),
            ) % (big_endian(modulus) as int)
        };
    let block = padded_block(padding, message);
    assert forall|i: int| 0 <= i < padding.len() implies #[trigger] padding[i] != 0 by {
        assert(padding.contains(padding[i]));
    }
    assert(block.subrange(2, 2 + padding.len() as int) =~= padding);
    assert(block.subrange(3 + padding.len() as int, block.len() as int) =~= message);
}

/// The check of a form is the base64 text of a cipher text of the digits of its digest.
pub proof fn law_check(key: PublicKeyView, body: Seq<char>, check: Seq<char>)
    requires
        is_check(key, body, check),
    ensures
        check.len() == 4 * ((key.modulus.len() + 2) / 3),
        exists|cipher: Seq<u8>|
            check == #[trigger] base64_encoding(cipher) && is_cipher(
                key.modulus,
                key.exponent,
                utf8::encode_utf8(hex_encoding(sha256_digest(utf8::encode_utf8(body)))),
                cipher,
            ),
{
}

/// A key has an odd modulus without a leading zero, and an odd exponent from 2 on that is smaller
/// and has 33 bits at most.
pub proof fn law_key(modulus: Seq<u8>, exponent: Seq<u8>)
    requires
        is_key(modulus, exponent),
    ensures
        modulus.len() > 0,
        modulus[0] != 0,
        big_endian(modulus) % 2 == 1,
        big_endian(exponent) % 2 == 1,
        big_endian(exponent) > 2,
        big_endian(exponent) < big_endian(modulus),
        big_endian(exponent) < 8_589_934_592,
{
}

} // verus!
