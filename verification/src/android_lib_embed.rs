//! What is appended to the launcher: the app and its native library, each with its digest.
//!
//! The launcher ends in a trailer: the length of the payload in eight bytes, the least
//! significant first, and eight bytes by which the trailer is known. The payload stands before
//! it.

use sha2::{Digest, Sha256};
use vstd::prelude::*;

use crate::util::same_bytes;

verus! {

/// How long a trailer is.
pub const TRAILER_LEN: u64 = 16;

/// How long a digest is.
pub const DIGEST_LEN: usize = 32;

/// The bytes by which a trailer is known.
pub open spec fn magic() -> Seq<u8> {
    seq![0x4du8, 0x52u8, 0x53u8, 0x2du8, 0x44u8, 0x61u8, 0x74u8, 0x61u8]
}

/// A part of the payload.
#[derive(Debug, Clone, Copy, PartialEq, Eq, Structural)]
pub enum Field {
    JarDigest,
    LibDigest,
}

impl Field {
    /// The name of the part.
    pub fn name(&self) -> (r: &'static str)
        ensures
            r@ == (match *self {
                Field::JarDigest => "jar_digest"@,
                Field::LibDigest => "lib_digest"@,
            }),
    {
        match self {
            Field::JarDigest => "jar_digest",
            Field::LibDigest => "lib_digest",
        }
    }
}

/// What is wrong with a payload, or with where it is read from.
#[derive(Debug, Clone, Copy, PartialEq, Eq, Structural)]
pub enum EmbedError {
    /// The file is too small for a trailer.
    FileSmall,
    /// The file has no trailer.
    NoMagic,
    /// The file is too small for its payload.
    IncorrectSize,
    InvalidDigestLength { field: Field, actual: usize },
    EmptyData { field: Field },
    DigestMismatch { field: Field },
}

/// The app and its native library, each with its digest.
#[derive(Debug)]
pub struct Payload {
    pub jar_digest: Vec<u8>,
    pub jar_data: Vec<u8>,
    pub lib_digest: Vec<u8>,
    pub lib_data: Vec<u8>,
}

/// The SHA-256 digest of some bytes.
pub uninterp spec fn sha256(data: Seq<u8>) -> Seq<u8>;

/// Calls `Sha256::digest`. The digest depends on the bytes alone and is 32 bytes long.
#[verifier::external_body]
fn sha256_digest(data: &Vec<u8>) -> (r: Vec<u8>)
    ensures
        r@ == sha256(data@),
        r@.len() == DIGEST_LEN,
{
    Sha256::digest(data).to_vec()
}

/// What is wrong with the shape of a payload: the first of its digests that has another length,
/// else the first of its parts that is empty.
pub open spec fn misshapen(p: Payload) -> Option<EmbedError> {
    if p.jar_digest@.len() != DIGEST_LEN {
        Some(
            EmbedError::InvalidDigestLength {
                field: Field::JarDigest,
                actual: p.jar_digest.len(),
            },
        )
    } else if p.lib_digest@.len() != DIGEST_LEN {
        Some(
            EmbedError::InvalidDigestLength {
                field: Field::LibDigest,
                actual: p.lib_digest.len(),
            },
        )
    } else if p.jar_data@.len() == 0 {
        Some(EmbedError::EmptyData { field: Field::JarDigest })
    } else if p.lib_data@.len() == 0 {
        Some(EmbedError::EmptyData { field: Field::LibDigest })
    } else {
        None
    }
}

/// What is wrong with a payload whose parts have the given digests: its shape, else the first
/// digest that it does not have.
pub open spec fn flaw(p: Payload, jar: Seq<u8>, lib: Seq<u8>) -> Option<EmbedError> {
    if misshapen(p) is Some {
        misshapen(p)
    } else if jar != p.jar_digest@ {
        Some(EmbedError::DigestMismatch { field: Field::JarDigest })
    } else if lib != p.lib_digest@ {
        Some(EmbedError::DigestMismatch { field: Field::LibDigest })
    } else {
        None
    }
}

impl Payload {
    fn check_shape(&self) -> (r: Result<(), EmbedError>)
        ensures
            r == (match misshapen(*self) {
                Some(e) => Err(e),
                None => Ok(()),
            }),
    {
        if self.jar_digest.len() != DIGEST_LEN {
            return Err(
                EmbedError::InvalidDigestLength {
                    field: Field::JarDigest,
                    actual: self.jar_digest.len(),
                },
            );
        }
        if self.lib_digest.len() != DIGEST_LEN {
            return Err(
                EmbedError::InvalidDigestLength {
                    field: Field::LibDigest,
                    actual: self.lib_digest.len(),
                },
            );
        }
        if self.jar_data.len() == 0 {
            return Err(EmbedError::EmptyData { field: Field::JarDigest });
        }
        if self.lib_data.len() == 0 {
            return Err(EmbedError::EmptyData { field: Field::LibDigest });
        }
        Ok(())
    }

    /// Whether the payload is as it should be, where its parts have the given digests.
    pub fn validate_against(&self, jar: &Vec<u8>, lib: &Vec<u8>) -> (r: Result<(), EmbedError>)
        ensures
            r == (match flaw(*self, jar@, lib@) {
                Some(e) => Err(e),
                None => Ok(()),
            }),
    {
        match self.check_shape() {
            Ok(_) => {},
            Err(e) => {
                return Err(e);
            },
        }
        if !same_bytes(jar.as_slice(), self.jar_digest.as_slice()) {
            return Err(EmbedError::DigestMismatch { field: Field::JarDigest });
        }
        if !same_bytes(lib.as_slice(), self.lib_digest.as_slice()) {
            return Err(EmbedError::DigestMismatch { field: Field::LibDigest });
        }
        Ok(())
    }

    /// Whether the payload is as it should be.
    pub fn validate(&self) -> (r: Result<(), EmbedError>)
        ensures
            r == (match flaw(*self, sha256(self.jar_data@), sha256(self.lib_data@)) {
                Some(e) => Err(e),
                None => Ok(()),
            }),
    {
        match self.check_shape() {
            Ok(_) => {},
            Err(e) => {
                return Err(e);
            },
        }
        let calculated_jar_digest = sha256_digest(&self.jar_data);
        let calculated_lib_digest = sha256_digest(&self.lib_data);
        self.validate_against(&calculated_jar_digest, &calculated_lib_digest)
    }
}

/// A payload in which nothing is wrong has all its parts, and each is what its digest was made
/// of. A payload of which that is true has nothing wrong with it.
pub proof fn law_sound_payload_is_whole(p: Payload, jar: Seq<u8>, lib: Seq<u8>)
    ensures
        flaw(p, jar, lib) is None <==> {
            &&& p.jar_digest@.len() == 32
            &&& p.lib_digest@.len() == 32
            &&& p.jar_data@.len() > 0
            &&& p.lib_data@.len() > 0
            &&& p.jar_digest@ == jar
            &&& p.lib_digest@ == lib
        },
{
}

/// What is said to be wrong with a payload is wrong with the part that is named.
pub proof fn law_flaw_is_where_it_is_said(p: Payload, jar: Seq<u8>, lib: Seq<u8>)
    ensures
        match flaw(p, jar, lib) {
            Some(EmbedError::InvalidDigestLength { field, actual }) => actual != 32 && match field {
                Field::JarDigest => actual == p.jar_digest@.len(),
                Field::LibDigest => actual == p.lib_digest@.len(),
            },
            Some(EmbedError::EmptyData { field }) => match field {
                Field::JarDigest => p.jar_data@.len() == 0,
                Field::LibDigest => p.lib_data@.len() == 0,
            },
            Some(EmbedError::DigestMismatch { field }) => match field {
                Field::JarDigest => p.jar_digest@ != jar && p.jar_data@.len() > 0,
                Field::LibDigest => p.lib_digest@ != lib && p.lib_data@.len() > 0,
            },
            Some(_) => false,
            None => true,
        },
{
}

/// A number in eight bytes, the least significant first.
pub open spec fn le_value(b: Seq<u8>) -> int {
    b[0] + b[1] * 0x100 + b[2] * 0x1_0000 + b[3] * 0x100_0000 + b[4] * 0x1_0000_0000 + b[5]
        * 0x100_0000_0000 + b[6] * 0x1_0000_0000_0000 + b[7] * 0x100_0000_0000_0000
}

/// The eight bytes of a number, the least significant first.
pub open spec fn le_bytes(n: int) -> Seq<u8> {
    seq![
        (n % 0x100) as u8,
        (n / 0x100 % 0x100) as u8,
        (n / 0x1_0000 % 0x100) as u8,
        (n / 0x100_0000 % 0x100) as u8,
        (n / 0x1_0000_0000 % 0x100) as u8,
        (n / 0x100_0000_0000 % 0x100) as u8,
        (n / 0x1_0000_0000_0000 % 0x100) as u8,
        (n / 0x100_0000_0000_0000 % 0x100) as u8,
    ]
}

/// The number that the trailer gives, as far as this machine can address it.
pub open spec fn trailer_size(tail: Seq<u8>) -> int {
    le_value(tail) % (usize::MAX + 1)
}

/// Whether a file of this length can have a trailer.
pub fn check_file_len(file_len: u64) -> (r: Result<(), EmbedError>)
    ensures
        r == (if file_len < TRAILER_LEN {
            Err(EmbedError::FileSmall)
        } else {
            Ok(())
        }),
{
    if file_len < TRAILER_LEN {
        return Err(EmbedError::FileSmall);
    }
    Ok(())
}

/// A part of a file.
#[derive(Debug, Clone, Copy, PartialEq, Eq, Structural)]
pub struct FileRange {
    pub start: u64,
    pub len: u64,
}

/// Where the payload stands in a file of this length that ends in these sixteen bytes.
pub fn payload_range(file_len: u64, tail: &[u8; 16]) -> (r: Result<FileRange, EmbedError>)
    requires
        trailer_size(tail@) + TRAILER_LEN <= u64::MAX,
    ensures
        match r {
            Ok(range) => {
                &&& tail@.skip(8) == magic()
                &&& range.len == trailer_size(tail@)
                &&& range.start + range.len + TRAILER_LEN == file_len
            },
            Err(e) => if tail@.skip(8) != magic() {
                e == EmbedError::NoMagic
            } else {
                &&& e == EmbedError::IncorrectSize
                &&& trailer_size(tail@) + TRAILER_LEN > file_len
            },
        },
{
    let known = tail[8] == 0x4d && tail[9] == 0x52 && tail[10] == 0x53 && tail[11] == 0x2d
        && tail[12] == 0x44 && tail[13] == 0x61 && tail[14] == 0x74 && tail[15] == 0x61;
    proof {
        let m = tail@.skip(8);
        assert forall|i: int| 0 <= i < 8 implies #[trigger] m[i] == tail@[i + 8] by {}
        if known {
            assert(m =~= magic());
        } else {
            assert(m[0] != magic()[0] || m[1] != magic()[1] || m[2] != magic()[2] || m[3]
                != magic()[3] || m[4] != magic()[4] || m[5] != magic()[5] || m[6] != magic()[6]
                || m[7] != magic()[7]);
        }
    }
    if !known {
        return Err(EmbedError::NoMagic);
    }
    let value: u64 = tail[0] as u64 + tail[1] as u64 * 0x100 + tail[2] as u64 * 0x1_0000 + tail[3] as u64
        * 0x100_0000 + tail[4] as u64 * 0x1_0000_0000 + tail[5] as u64 * 0x100_0000_0000
        + tail[6] as u64 * 0x1_0000_0000_0000 + tail[7] as u64 * 0x100_0000_0000_0000;
    assert(value == le_value(tail@));
    let n: u64 = if value > usize::MAX as u64 {
        value % (usize::MAX as u64 + 1)
    } else {
        value
    };
    assert(n == trailer_size(tail@)) by {
        if value <= usize::MAX {
            vstd::arithmetic::div_mod::lemma_small_mod(value as nat, (usize::MAX + 1) as nat);
        }
    }
    if n + TRAILER_LEN > file_len {
        return Err(EmbedError::IncorrectSize);
    }
    Ok(FileRange { start: file_len - TRAILER_LEN - n, len: n })
}

/// A launcher with a payload and its trailer appended.
pub open spec fn with_payload(launcher: Seq<u8>, payload: Seq<u8>) -> Seq<u8> {
    launcher + payload + le_bytes(payload.len() as int) + magic()
}

/// What was appended is found again: in a launcher with a payload, the range that the trailer
/// gives is exactly the payload, whatever the launcher and the payload hold.
pub proof fn law_payload_is_found(
    launcher: Seq<u8>,
    payload: Seq<u8>,
    tail: Seq<u8>,
    range: FileRange,
)
    requires
        payload.len() <= usize::MAX,
        tail == with_payload(launcher, payload).skip(
            (launcher.len() + payload.len()) as int,
        ),
        range.len == trailer_size(tail),
        range.start + range.len + TRAILER_LEN == with_payload(launcher, payload).len(),
    ensures
        tail.len() == TRAILER_LEN,
        tail.skip(8) == magic(),
        range.start == launcher.len(),
        with_payload(launcher, payload).subrange(
            range.start as int,
            range.start + range.len as int,
        ) == payload,
{
    let n = payload.len() as int;
    let file = with_payload(launcher, payload);
    assert(tail =~= le_bytes(n) + magic());
    assert(tail.skip(8) =~= magic());
    lemma_le_round_trip(n);
    assert(le_value(tail) == le_value(le_bytes(n)));
    vstd::arithmetic::div_mod::lemma_small_mod(n as nat, (usize::MAX + 1) as nat);
    assert(file.subrange(range.start as int, range.start + range.len as int) =~= payload);
}

proof fn lemma_le_round_trip(n: int)
    requires
        0 <= n <= u64::MAX,
    ensures
        le_value(le_bytes(n)) == n,
{
    let b = le_bytes(n);
    let n1 = n / 0x100;
    let n2 = n1 / 0x100;
    let n3 = n2 / 0x100;
    let n4 = n3 / 0x100;
    let n5 = n4 / 0x100;
    let n6 = n5 / 0x100;
    let n7 = n6 / 0x100;
    assert(n / 0x1_0000 == n2);
    assert(n / 0x100_0000 == n3);
    assert(n / 0x1_0000_0000 == n4);
    assert(n / 0x100_0000_0000 == n5);
    assert(n / 0x1_0000_0000_0000 == n6);
    assert(n / 0x100_0000_0000_0000 == n7);
    assert(n7 < 0x100);
}

} // verus!
