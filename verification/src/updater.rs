//! The game updater's decisions: whether to install the version that the
//! update server announces, and whether a downloaded executable is the one
//! announced, by size and SHA-256 digest.
use vstd::prelude::*;
use crate::assoc::str_eq;

verus! {

/// The version announced by the update server.
pub struct VersionManifest {
    pub version: String,
    pub exe_url: String,
    pub exe_size: u64,
    pub exe_sha256: String,
    pub required: bool,
}

/// Errors of the updater.
#[derive(Debug, PartialEq, Eq)]
pub enum UpdateError {
    Network(String),
    Io(String),
    Json(String),
    HashMismatch,
    SizeMismatch { expected: u64, actual: u64 },
    Timeout,
    UpdateRequired,
}

/// The SHA-256 digest of a byte string.
pub uninterp spec fn sha256(data: Seq<u8>) -> Seq<u8>;

/// The lowercase hexadecimal digit of a value below 16.
pub open spec fn hex_digit(v: int) -> char {
    if v < 10 {
        (v + '0' as int) as char
    } else {
        (v - 10 + 'a' as int) as char
    }
}

/// Bytes written as lowercase hexadecimal, two digits a byte, high digit first.
pub open spec fn lower_hex(b: Seq<u8>) -> Seq<char>
    decreases b.len(),
{
    if b.len() == 0 {
        Seq::empty()
    } else {
        lower_hex(b.drop_last()) + seq![hex_digit(b.last() as int / 16), hex_digit(b.last() as int % 16)]
    }
}

/// The bytes of the chunks, one after another.
pub open spec fn concat_chunks(chunks: Seq<Vec<u8>>) -> Seq<u8>
    decreases chunks.len(),
{
    if chunks.len() == 0 {
        Seq::empty()
    } else {
        concat_chunks(chunks.drop_last()) + chunks.last()@
    }
}

/// The SHA-256 digest of `data` in lowercase hexadecimal
/// (`sha2::Sha256::digest`, written with `{:x}`, which the digest's
/// `LowerHex` implements two digits a byte). The contract names the digest,
/// and states the hexadecimal writing in full.
#[verifier::external_body]
fn sha256_hex(data: &[u8]) -> (r: String)
    ensures
        r@ == lower_hex(sha256(data@)),
{
    format!("{:x}", <sha2::Sha256 as sha2::Digest>::digest(data))
}

/// Whether to install the announced version: not when the installed version
/// (`"0.0.0"` when unknown) is the announced one; an error when an update is
/// required; else yes.
pub fn update_decision(local_version: Option<String>, remote: &VersionManifest) -> (r: Result<
    bool,
    UpdateError,
>)
    ensures
        ({
            let local = match local_version {
                Some(v) => v@,
                None => "0.0.0"@,
            };
            &&& local == remote.version@ ==> r == Ok::<bool, UpdateError>(false)
            &&& local != remote.version@ && remote.required ==> r == Err::<bool, UpdateError>(
                UpdateError::UpdateRequired,
            )
            &&& local != remote.version@ && !remote.required ==> r == Ok::<bool, UpdateError>(true)
        }),
{
    let same = match &local_version {
        Some(v) => str_eq(v.as_str(), remote.version.as_str()),
        None => str_eq("0.0.0", remote.version.as_str()),
    };
    if same {
        return Ok(false);
    }
    if remote.required {
        return Err(UpdateError::UpdateRequired);
    }
    Ok(true)
}

/// Checks the size that the server gives for the download, if it gives one,
/// against the announced size.
pub fn check_size(content_length: Option<u64>, expected_size: u64) -> (r: Result<(), UpdateError>)
    ensures
        match content_length {
            Some(len) => if len != expected_size {
                r == Err::<(), UpdateError>(
                    UpdateError::SizeMismatch { expected: expected_size, actual: len },
                )
            } else {
                r == Ok::<(), UpdateError>(())
            },
            None => r == Ok::<(), UpdateError>(()),
        },
{
    match content_length {
        Some(len) => {
            if len != expected_size {
                return Err(UpdateError::SizeMismatch { expected: expected_size, actual: len });
            }
            Ok(())
        },
        None => Ok(()),
    }
}

/// Checks the downloaded chunks, taken together, against the announced
/// SHA-256 digest in lowercase hexadecimal.
pub fn verify_download(chunks: &Vec<Vec<u8>>, expected_hash: &str) -> (r: Result<(), UpdateError>)
    ensures
        lower_hex(sha256(concat_chunks(chunks@))) == expected_hash@ ==> r == Ok::<(), UpdateError>(()),
        lower_hex(sha256(concat_chunks(chunks@))) != expected_hash@ ==> r == Err::<(), UpdateError>(
            UpdateError::HashMismatch,
        ),
{
    let mut data: Vec<u8> = Vec::new();
    let mut i: usize = 0;
    while i < chunks.len()
        invariant
            i <= chunks@.len(),
            data@ == concat_chunks(chunks@.take(i as int)),
        decreases chunks@.len() - i,
    {
        let chunk = &chunks[i];
        let ghost d0 = data@;
        let mut k: usize = 0;
        while k < chunk.len()
            invariant
                k <= chunk@.len(),
                data@ == d0 + chunk@.take(k as int),
            decreases chunk@.len() - k,
        {
            data.push(chunk[k]);
            k = k + 1;
            proof {
                assert(data@ =~= d0 + chunk@.take(k as int));
            }
        }
        proof {
            assert(chunk@.take(chunk@.len() as int) =~= chunk@);
            assert(chunks@.take(i + 1).drop_last() =~= chunks@.take(i as int));
        }
        i = i + 1;
    }
    proof {
        assert(chunks@.take(chunks@.len() as int) =~= chunks@);
    }
    let hex = sha256_hex(data.as_slice());
    if str_eq(hex.as_str(), expected_hash) {
        Ok(())
    } else {
        Err(UpdateError::HashMismatch)
    }
}

} // verus!
