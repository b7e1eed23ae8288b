//! The key pair of the speaker: which one is good, and where a new one comes from.

use base64::prelude::BASE64_STANDARD;
use base64::Engine;
use iroh::{KeyParsingError, PublicKey, SecretKey};
use vstd::prelude::*;

use crate::conf::KeypairConf;
use crate::util::same_bytes;

verus! {

/// `iroh::KeyParsingError`: what is wrong with the bytes of a public key.
#[verifier::external_type_specification]
#[verifier::external_body]
pub struct ExKeyParsingError(KeyParsingError);

/// Why there is no key pair. What a file or a parser said is kept as a text.
#[allow(inconsistent_fields)]
pub enum KeypairError {
    DirectoryNotFound { fp: String },
    OpenFile { source: String, fp: String },
    ReadFile { source: String, fp: String },
    WriteFile { source: String, fp: String },
    ParseJson { source: String, fp: String },
    SerializeJson { source: String },
    /// The public part is no public key.
    ParsePublicKey { pub_bytes: Vec<u8>, source: KeyParsingError },
    /// The public part is not that of the private part.
    KeypairMismatch { pub_bytes: Vec<u8>, pri_bytes: Vec<u8> },
}

/// The character that stands for six bits.
pub open spec fn base64_char(v: int) -> char {
    if v < 26 {
        (v + 65) as char
    } else if v < 52 {
        (v - 26 + 97) as char
    } else if v < 62 {
        (v - 52 + 48) as char
    } else if v == 62 {
        '+'
    } else {
        '/'
    }
}

/// The byte at an index, and zero behind the end.
pub open spec fn byte_or_zero(data: Seq<u8>, i: int) -> int {
    if i < data.len() {
        data[i] as int
    } else {
        0
    }
}

/// Three bytes from `3 * group` on as one number.
pub open spec fn base64_group(data: Seq<u8>, group: int) -> int {
    byte_or_zero(data, 3 * group) * 0x10000 + byte_or_zero(data, 3 * group + 1) * 0x100
        + byte_or_zero(data, 3 * group + 2)
}

/// Bytes in base64 with the standard alphabet: four characters for every three bytes, and `=`
/// for characters of which no bit is left.
pub open spec fn base64_of(data: Seq<u8>) -> Seq<char> {
    Seq::new(
        ((data.len() + 2) / 3 * 4) as nat,
        |i: int|
            {
                let v = base64_group(data, i / 4);
                if i % 4 > data.len() - 3 * (i / 4) {
                    '='
                } else if i % 4 == 0 {
                    base64_char(v / 0x40000)
                } else if i % 4 == 1 {
                    base64_char(v / 0x1000 % 64)
                } else if i % 4 == 2 {
                    base64_char(v / 64 % 64)
                } else {
                    base64_char(v % 64)
                }
            },
    )
}

/// A key in base64.
///
/// Calls `BASE64_STANDARD.encode`, which writes the bytes in the standard alphabet, with
/// padding. It panics where the text would not fit into memory, which is left out.
#[verifier::external_body]
pub fn key_encode(data: &[u8]) -> (r: String)
    requires
        (data@.len() + 2) / 3 * 4 <= isize::MAX,
    ensures
        r@ == base64_of(data@),
{
    BASE64_STANDARD.encode(data)
}

/// The bytes are a public key.
pub uninterp spec fn is_public_key(bytes: Seq<u8>) -> bool;

/// The public key of a secret key, both as bytes.
pub uninterp spec fn public_key_of(secret: Seq<u8>) -> Seq<u8>;

/// Calls `PublicKey::from_bytes`, which fails exactly on bytes that are no point on the curve.
/// What it says of them is not stated.
#[verifier::external_body]
fn parse_public_key(bytes: &[u8; 32]) -> (r: Result<(), KeyParsingError>)
    ensures
        r is Ok <==> is_public_key(bytes@),
{
    PublicKey::from_bytes(bytes).map(|_| ())
}

/// Calls `SecretKey::public` on the secret key of these bytes. What it gives depends on the
/// bytes alone, and is a public key: `PublicKey::from_bytes` never fails on it.
#[verifier::external_body]
fn derive_public_key(secret: &[u8; 32]) -> (r: [u8; 32])
    ensures
        r@ == public_key_of(secret@),
        is_public_key(r@),
{
    *SecretKey::from_bytes(secret).public().as_bytes()
}

/// Calls `SecretKey::generate`, which draws a secret key at random. Nothing is said of its bytes.
#[verifier::external_body]
fn generate_secret_key() -> (r: [u8; 32]) {
    SecretKey::generate().to_bytes()
}

/// The public part is the public key of the private part.
pub open spec fn matches_up(conf: KeypairConf) -> bool {
    is_public_key(conf.public_part@) && public_key_of(conf.private_part@) == conf.public_part@
}

fn to_vec(bytes: &[u8; 32]) -> (r: Vec<u8>)
    ensures
        r@ == bytes@,
{
    let mut v: Vec<u8> = Vec::new();
    let mut i: usize = 0;
    while i < 32
        invariant
            i <= 32,
            v@ == bytes@.take(i as int),
        decreases 32 - i,
    {
        v.push(bytes[i]);
        assert(bytes@.take(i + 1) =~= bytes@.take(i as int).push(bytes@[i as int]));
        i = i + 1;
    }
    assert(bytes@.take(32) =~= bytes@);
    v
}

/// Whether a pair is good, where it is known whether its public part is a public key and what
/// the public key of its private part is.
pub fn check_pair(conf: KeypairConf, parsed: Result<(), KeyParsingError>, derived: &[u8; 32]) -> (r:
    Result<KeypairConf, KeypairError>)
    ensures
        match parsed {
            Err(e) => r matches Err(KeypairError::ParsePublicKey { pub_bytes, source })
                && pub_bytes@ == conf.public_part@ && source == e,
            Ok(_) => if derived@ == conf.public_part@ {
                r == Ok::<KeypairConf, KeypairError>(conf)
            } else {
                r matches Err(KeypairError::KeypairMismatch { pub_bytes, pri_bytes }) && pub_bytes@
                    == conf.public_part@ && pri_bytes@ == conf.private_part@
            },
        },
{
    if let Err(source) = parsed {
        return Err(KeypairError::ParsePublicKey { pub_bytes: to_vec(&conf.public_part), source });
    }
    if !same_bytes(derived.as_slice(), conf.public_part.as_slice()) {
        return Err(
            KeypairError::KeypairMismatch {
                pub_bytes: to_vec(&conf.public_part),
                pri_bytes: to_vec(&conf.private_part),
            },
        );
    }
    Ok(conf)
}

/// The pair that was read, if it was read and is good.
pub fn load_conf(read: Result<KeypairConf, KeypairError>) -> (r: Result<KeypairConf, KeypairError>)
    ensures
        match read {
            Err(e) => r == Err::<KeypairConf, KeypairError>(e),
            Ok(conf) => if !is_public_key(conf.public_part@) {
                r matches Err(KeypairError::ParsePublicKey { pub_bytes, .. }) && pub_bytes@
                    == conf.public_part@
            } else if public_key_of(conf.private_part@) != conf.public_part@ {
                r matches Err(KeypairError::KeypairMismatch { pub_bytes, pri_bytes }) && pub_bytes@
                    == conf.public_part@ && pri_bytes@ == conf.private_part@
            } else {
                r == Ok::<KeypairConf, KeypairError>(conf)
            },
        },
{
    match read {
        Ok(conf) => {
            let parsed = parse_public_key(&conf.public_part);
            let derived = derive_public_key(&conf.private_part);
            check_pair(conf, parsed, &derived)
        },
        Err(e) => Err(e),
    }
}

/// The pair of a secret key.
pub fn pair_of(private_part: [u8; 32]) -> (r: KeypairConf)
    ensures
        r.private_part == private_part,
        r.public_part@ == public_key_of(private_part@),
        matches_up(r),
{
    KeypairConf { public_part: derive_public_key(&private_part), private_part }
}

/// A new pair: that of a secret key drawn at random. Whatever key is drawn, the pair is good.
pub fn generate_new_keypair() -> (r: KeypairConf)
    ensures
        matches_up(r),
{
    pair_of(generate_secret_key())
}

/// The pair that is used.
pub struct Recovered {
    pub conf: KeypairConf,
    /// The pair is new and has to be written.
    pub rotated: bool,
}

/// `r` is the pair that is used after `read` was read: that pair if it is good, and a new one
/// otherwise, which is good whatever it is.
pub open spec fn recovers(read: Result<KeypairConf, KeypairError>, r: Recovered) -> bool {
    &&& matches_up(r.conf)
    &&& match read {
        Ok(conf) if matches_up(conf) => r == (Recovered { conf, rotated: false }),
        _ => r.rotated,
    }
}

/// The pair that was read if that is good, and a new one otherwise.
pub fn load_or_recover(read: Result<KeypairConf, KeypairError>) -> (r: Recovered)
    ensures
        recovers(read, r),
{
    match load_conf(read) {
        Ok(conf) => Recovered { conf, rotated: false },
        Err(_) => Recovered { conf: generate_new_keypair(), rotated: true },
    }
}

/// How the key pair is found when the speaker starts: not at all without the directory that it
/// is kept in, and otherwise as [`load_or_recover`] finds it.
pub fn start(is_dir: bool, dir: String, read: Result<KeypairConf, KeypairError>) -> (r: Result<
    Recovered,
    KeypairError,
>)
    ensures
        if is_dir {
            r matches Ok(found) && recovers(read, found)
        } else {
            r == Err::<Recovered, KeypairError>(KeypairError::DirectoryNotFound { fp: dir })
        },
{
    if !is_dir {
        return Err(KeypairError::DirectoryNotFound { fp: dir });
    }
    Ok(load_or_recover(read))
}

/// The public key of a pair.
pub fn read_public_key(conf: &KeypairConf) -> (r: Result<[u8; 32], KeypairError>)
    ensures
        if is_public_key(conf.public_part@) {
            r == Ok::<[u8; 32], KeypairError>(conf.public_part)
        } else {
            r matches Err(KeypairError::ParsePublicKey { pub_bytes, .. }) && pub_bytes@
                == conf.public_part@
        },
{
    match parse_public_key(&conf.public_part) {
        Ok(_) => Ok(conf.public_part),
        Err(source) => Err(
            KeypairError::ParsePublicKey { pub_bytes: to_vec(&conf.public_part), source },
        ),
    }
}

/// The secret key of a pair.
pub fn read_secret_key(conf: &KeypairConf) -> (r: [u8; 32])
    ensures
        r == conf.private_part,
{
    conf.private_part
}

/// The public part of the pair that is used is the public key of its private part, whatever was
/// read. A pair of which that is not true is replaced, and one of which it is true is not.
pub proof fn law_used_pair_belongs_together(
    read: Result<KeypairConf, KeypairError>,
    used: Recovered,
)
    requires
        recovers(read, used),
    ensures
        public_key_of(used.conf.private_part@) == used.conf.public_part@,
        is_public_key(used.conf.public_part@),
        read is Err ==> used.rotated,
        read matches Ok(conf) ==> {
            if public_key_of(conf.private_part@) == conf.public_part@ && is_public_key(
                conf.public_part@,
            ) {
                used.conf == conf && !used.rotated
            } else {
                used.rotated && used.conf != conf
            }
        },
{
}

/// A pair that is used and written is kept: when it is read again it is used again, and not
/// replaced.
pub proof fn law_pair_is_kept(
    read: Result<KeypairConf, KeypairError>,
    first: Recovered,
    second: Recovered,
)
    requires
        recovers(read, first),
        recovers(Ok(first.conf), second),
    ensures
        second == (Recovered { conf: first.conf, rotated: false }),
{
}

} // verus!
