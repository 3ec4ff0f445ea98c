//! How texts travel: in addresses, in forms and as base64, and how a password is sealed.
use vstd::prelude::*;
use vstd::utf8::encode_utf8;

use crate::failure::Failure;

verus! {

// ---------------------------------------------------------------------------
// Percent encoding
// ---------------------------------------------------------------------------
/// A hexadecimal digit, in upper case.
pub open spec fn hex_digit(n: int) -> char {
    if n < 10 {
        ('0' as int + n) as char
    } else {
        ('A' as int + (n - 10)) as char
    }
}

/// A byte as a percent sign and two hexadecimal digits.
pub open spec fn percent(b: u8) -> Seq<char> {
    seq!['%', hex_digit(b as int / 16), hex_digit(b as int % 16)]
}

/// Whether a byte is an ASCII letter or digit.
pub open spec fn is_alphanumeric(b: u8) -> bool {
    0x30 <= b <= 0x39 || 0x41 <= b <= 0x5a || 0x61 <= b <= 0x7a
}

/// A byte in an address: letters, digits and the characters `-._~` stand for themselves, all
/// other bytes are written with a percent sign.
pub open spec fn address_byte(b: u8) -> Seq<char> {
    if is_alphanumeric(b) || b == 0x2d || b == 0x2e || b == 0x5f || b == 0x7e {
        seq![b as char]
    } else {
        percent(b)
    }
}

/// A byte in a form: letters, digits and the characters `*-._` stand for themselves, a space is
/// written as a plus sign, all other bytes with a percent sign.
pub open spec fn form_byte(b: u8) -> Seq<char> {
    if is_alphanumeric(b) || b == 0x2a || b == 0x2d || b == 0x2e || b == 0x5f {
        seq![b as char]
    } else if b == 0x20 {
        seq!['+']
    } else {
        percent(b)
    }
}

/// Bytes in an address.
pub open spec fn in_address(bytes: Seq<u8>) -> Seq<char>
    decreases bytes.len(),
{
    if bytes.len() == 0 {
        seq![]
    } else {
        in_address(bytes.drop_last()) + address_byte(bytes.last())
    }
}

/// Bytes in a form.
pub open spec fn in_form(bytes: Seq<u8>) -> Seq<char>
    decreases bytes.len(),
{
    if bytes.len() == 0 {
        seq![]
    } else {
        in_form(bytes.drop_last()) + form_byte(bytes.last())
    }
}

/// The fields of a form: name and value with an equals sign between them, and an ampersand
/// between each two fields.
pub open spec fn form_text(fields: Seq<(Seq<char>, Seq<char>)>) -> Seq<char>
    decreases fields.len(),
{
    if fields.len() == 0 {
        seq![]
    } else {
        let last = fields.last();
        let field = in_form(encode_utf8(last.0)) + seq!['='] + in_form(encode_utf8(last.1));
        if fields.len() == 1 {
            field
        } else {
            form_text(fields.drop_last()) + seq!['&'] + field
        }
    }
}

/// The views of the fields of a form.
pub open spec fn pairs_view(fields: Seq<(&str, &str)>) -> Seq<(Seq<char>, Seq<char>)> {
    fields.map_values(|f: (&str, &str)| (f.0@, f.1@))
}

/// `urlencoding::encode` writes the bytes of a text so that they can stand in an address.
#[verifier::external_body]
pub(crate) fn encode_for_address(text: &str) -> (r: String)
    ensures
        r@ == in_address(encode_utf8(text@)),
{
    urlencoding::encode(text).into_owned()
}

/// The error of a form that cannot be written.
#[verifier::external_type_specification]
#[verifier::external_body]
pub struct ExFormError(serde_urlencoded::ser::Error);

/// `serde_urlencoded::to_string` writes fields of texts as a form; with texts alone it does not
/// fail.
#[verifier::external_body]
fn write_form(fields: &Vec<(&str, &str)>) -> (r: Result<String, serde_urlencoded::ser::Error>)
    ensures
        r is Ok,
        r->Ok_0@ == form_text(pairs_view(fields@)),
{
    serde_urlencoded::to_string(fields)
}

/// Writes fields as a form.
pub fn encode_form(fields: &Vec<(&str, &str)>) -> (r: String)
    ensures
        r@ == form_text(pairs_view(fields@)),
{
    match write_form(fields) {
        Ok(t) => t,
        Err(_) => String::new(),
    }
}

// ---------------------------------------------------------------------------
// Base64 and RSA
// ---------------------------------------------------------------------------
/// The bytes that the base64 crate's standard engine decodes from a text.
pub uninterp spec fn base64_decoded(text: Seq<char>) -> Option<Seq<u8>>;

/// The text that the base64 crate's standard engine encodes bytes to.
pub uninterp spec fn base64_encoded(bytes: Seq<u8>) -> Seq<char>;

/// The length in bytes of the modulus of the RSA key that the rsa crate reads from a document.
pub uninterp spec fn rsa_key_length(der: Seq<u8>) -> Option<int>;

/// Whether PKCS #1 v1.5 encryption of a message under the key of a document can give a cipher.
pub uninterp spec fn rsa_seals(der: Seq<u8>, message: Seq<u8>, cipher: Seq<u8>) -> bool;

/// The error of a text that is not base64.
#[verifier::external_type_specification]
#[verifier::external_body]
pub struct ExDecodeError(base64::DecodeError);

/// The error of a document that is no public key.
#[verifier::external_type_specification]
#[verifier::external_body]
pub struct ExSpkiError(rsa::pkcs8::spki::Error);

/// The error of an encryption.
#[verifier::external_type_specification]
#[verifier::external_body]
pub struct ExRsaError(rsa::Error);

/// `base64::Engine::decode` with the standard engine.
#[verifier::external_body]
fn decode_base64(text: &str) -> (r: Result<Vec<u8>, base64::DecodeError>)
    ensures
        match r {
            Ok(bytes) => base64_decoded(text@) == Some(bytes@),
            Err(_) => base64_decoded(text@) is None,
        },
{
    base64::Engine::decode(&base64::engine::general_purpose::STANDARD, text)
}

/// `base64::Engine::encode` with the standard engine, whose text the same engine decodes to the
/// same bytes.
#[verifier::external_body]
fn encode_base64(bytes: &Vec<u8>) -> (r: String)
    ensures
        r@ == base64_encoded(bytes@),
        base64_decoded(r@) == Some(bytes@),
{
    base64::Engine::encode(&base64::engine::general_purpose::STANDARD, bytes)
}

/// `rsa::pkcs8::DecodePublicKey::from_public_key_der` reads a public key from a document; the
/// length of its modulus is what a cipher has.
#[verifier::external_body]
fn read_key_length(der: &Vec<u8>) -> (r: Result<usize, rsa::pkcs8::spki::Error>)
    ensures
        match r {
            Ok(n) => rsa_key_length(der@) == Some(n as int),
            Err(_) => rsa_key_length(der@) is None,
        },
{
    let key: rsa::RsaPublicKey = rsa::pkcs8::DecodePublicKey::from_public_key_der(der)?;
    Ok(rsa::traits::PublicKeyParts::size(&key))
}

/// `rsa::RsaPublicKey::encrypt` with PKCS #1 v1.5 padding and the random numbers of the
/// operating system. It encrypts a message that leaves eleven bytes of the modulus free, and the
/// cipher is as long as the modulus. Which of the possible ciphers it gives is left to chance;
/// that the private key opens it again is not stated.
#[verifier::external_body]
fn seal(der: &Vec<u8>, message: &[u8]) -> (r: Result<Vec<u8>, rsa::Error>)
    requires
        rsa_key_length(der@) is Some,
    ensures
        match r {
            Ok(cipher) => {
                &&& message@.len() + 11 <= rsa_key_length(der@)->0
                &&& cipher@.len() == rsa_key_length(der@)->0
                &&& rsa_seals(der@, message@, cipher@)
            },
            Err(_) => message@.len() + 11 > rsa_key_length(der@)->0,
        },
{
    let key: rsa::RsaPublicKey = rsa::pkcs8::DecodePublicKey::from_public_key_der(der).unwrap();
    key.encrypt(&mut rsa::rand_core::OsRng, rsa::Pkcs1v15Encrypt, message)
}

/// Why a password cannot be sealed for a key that is given as base64 text, if it cannot.
pub open spec fn seal_refusal(password: Seq<char>, pubkey_b64: Seq<char>) -> Option<Failure> {
    match base64_decoded(pubkey_b64) {
        None => Some(Failure::KeyEncoding),
        Some(der) => match rsa_key_length(der) {
            None => Some(Failure::KeyFormat),
            Some(n) => if encode_utf8(password).len() + 11 > n {
                Some(Failure::Encryption)
            } else {
                None
            },
        },
    }
}

/// Whether a text is the base64 text of a cipher of a password, as long as the key.
pub open spec fn seals_password(
    password: Seq<char>,
    pubkey_b64: Seq<char>,
    sealed: Seq<char>,
) -> bool {
    &&& base64_decoded(pubkey_b64) matches Some(der)
    &&& base64_decoded(sealed) matches Some(cipher)
    &&& sealed == base64_encoded(cipher)
    &&& rsa_key_length(der) == Some(cipher.len() as int)
    &&& rsa_seals(der, encode_utf8(password), cipher)
}

/// Seals a password for the key that a login form brings.
pub fn rsa_encrypt_password(password: &str, pubkey_b64: &str) -> (r: Result<String, Failure>)
    ensures
        match r {
            Ok(t) => seal_refusal(password@, pubkey_b64@) is None && seals_password(
                password@,
                pubkey_b64@,
                t@,
            ),
            Err(e) => seal_refusal(password@, pubkey_b64@) == Some(e),
        },
{
    let der = match decode_base64(pubkey_b64) {
        Ok(bytes) => bytes,
        Err(_) => {
            return Err(Failure::KeyEncoding);
        },
    };
    match read_key_length(&der) {
        Ok(_) => {},
        Err(_) => {
            return Err(Failure::KeyFormat);
        },
    }
    match seal(&der, password.as_bytes()) {
        Ok(cipher) => Ok(encode_base64(&cipher)),
        Err(_) => Err(Failure::Encryption),
    }
}

/// A password is sealed wherever the key is base64 text of a public key whose modulus leaves eleven
/// bytes free beside the password; else the first of these that fails is told.
pub proof fn passwords_are_sealed_where_the_key_allows(password: Seq<char>, pubkey_b64: Seq<char>)
    ensures
        base64_decoded(pubkey_b64) is None ==> seal_refusal(password, pubkey_b64) == Some(
            Failure::KeyEncoding,
        ),
        base64_decoded(pubkey_b64) matches Some(der) ==> match rsa_key_length(der) {
            None => seal_refusal(password, pubkey_b64) == Some(Failure::KeyFormat),
            Some(n) => {
                &&& encode_utf8(password).len() <= n - 11 ==> seal_refusal(
                    password,
                    pubkey_b64,
                ) is None
                &&& encode_utf8(password).len() > n - 11 ==> seal_refusal(password, pubkey_b64)
                    == Some(Failure::Encryption)
            },
        },
{
}

/// A sealed password is base64 text that decodes to a cipher of the password under the key, as
/// long as the modulus of the key.
pub proof fn sealed_password_is_a_cipher(
    password: Seq<char>,
    pubkey_b64: Seq<char>,
    sealed: Seq<char>,
)
    requires
        seals_password(password, pubkey_b64, sealed),
    ensures
        base64_decoded(pubkey_b64) is Some,
        base64_decoded(sealed) is Some,
        sealed == base64_encoded(base64_decoded(sealed)->0),
        rsa_seals(
            base64_decoded(pubkey_b64)->0,
            encode_utf8(password),
            base64_decoded(sealed)->0,
        ),
        rsa_key_length(base64_decoded(pubkey_b64)->0) == Some(
            base64_decoded(sealed)->0.len() as int,
        ),
{
}

} // verus!
