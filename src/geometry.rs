use vstd::prelude::*;

use crate::config::{ENCRYPTION_CHUNK_SIZE, MAX_OBJECT_SIZE, TAG_SIZE};

verus! {

/// `a / b` rounded up.
pub open spec fn ceil_div(a: nat, b: nat) -> nat
    recommends
        b > 0,
{
    if a % b == 0 {
        a / b
    } else {
        a / b + 1
    }
}

/// Number of cipher chunks of a plaintext of `p` bytes.
pub open spec fn chunk_count(p: nat) -> nat {
    ceil_div(p, ENCRYPTION_CHUNK_SIZE as nat)
}

/// Bytes of the uploaded stream: the plaintext, plus a tag per cipher chunk
/// where it is encrypted.
pub open spec fn upload_size_spec(p: nat, encrypted: bool) -> nat {
    if encrypted {
        p + chunk_count(p) * (TAG_SIZE as nat)
    } else {
        p
    }
}

/// Number of parts of a stream of `size` bytes; an empty stream has one empty
/// part where empty objects are wanted.
pub open spec fn total_parts_spec(size: nat, create_empty_objects: bool) -> nat {
    let n = ceil_div(size, MAX_OBJECT_SIZE as nat);
    if n == 0 && create_empty_objects {
        1
    } else {
        n
    }
}

/// Bytes of part `index` of a stream of `size` bytes.
pub open spec fn part_len_spec(size: nat, index: nat) -> nat {
    let start = index * MAX_OBJECT_SIZE;
    if size <= start {
        0
    } else if size - start < MAX_OBJECT_SIZE {
        (size - start) as nat
    } else {
        MAX_OBJECT_SIZE as nat
    }
}

/// Bytes of the uploaded stream, or `None` where that does not fit in 64 bits.
pub fn upload_size(plaintext_size: u64, encrypted: bool) -> (r: Option<u64>)
    ensures
        match r {
            Some(n) => n == upload_size_spec(plaintext_size as nat, encrypted),
            None => upload_size_spec(plaintext_size as nat, encrypted) > u64::MAX,
        },
{
    if !encrypted {
        return Some(plaintext_size);
    }
    let c: u64 = ENCRYPTION_CHUNK_SIZE as u64;
    let chunks: u64 = if plaintext_size % c == 0 {
        plaintext_size / c
    } else {
        plaintext_size / c + 1
    };
    assert(chunks <= plaintext_size / c + 1);
    assert(chunks * 16 <= u64::MAX) by (nonlinear_arith)
        requires
            chunks <= plaintext_size / c + 1,
            c == 10_000_000,
            plaintext_size <= u64::MAX,
    ;
    let tags: u64 = chunks * 16;
    if plaintext_size > u64::MAX - tags {
        None
    } else {
        Some(plaintext_size + tags)
    }
}

/// Number of cipher chunks of a plaintext of `plaintext_size` bytes: the
/// chunk count the encryptor is made with.
pub fn total_chunks(plaintext_size: u64) -> (r: u64)
    ensures
        r == chunk_count(plaintext_size as nat),
{
    let c: u64 = ENCRYPTION_CHUNK_SIZE as u64;
    if plaintext_size % c == 0 {
        plaintext_size / c
    } else {
        plaintext_size / c + 1
    }
}

/// Number of parts of a stream of `size` bytes.
pub fn total_parts(size: u64, create_empty_objects: bool) -> (r: u64)
    ensures
        r == total_parts_spec(size as nat, create_empty_objects),
{
    let n: u64 = if size % MAX_OBJECT_SIZE == 0 {
        size / MAX_OBJECT_SIZE
    } else {
        size / MAX_OBJECT_SIZE + 1
    };
    if n == 0 && create_empty_objects {
        1
    } else {
        n
    }
}

/// Bytes of part `index` of a stream of `size` bytes.
pub fn part_len(size: u64, index: u64) -> (r: u64)
    ensures
        r == part_len_spec(size as nat, index as nat),
{
    if index > size / MAX_OBJECT_SIZE {
        proof {
            assert(index * MAX_OBJECT_SIZE >= size) by (nonlinear_arith)
                requires
                    index > size / 5_000_000_000,
            ;
        }
        return 0;
    }
    proof {
        assert(index * MAX_OBJECT_SIZE <= size) by (nonlinear_arith)
            requires
                index <= size / 5_000_000_000,
        ;
    }
    let start: u64 = index * MAX_OBJECT_SIZE;
    if size - start < MAX_OBJECT_SIZE {
        size - start
    } else {
        MAX_OBJECT_SIZE
    }
}

/// Why a stream cannot be resumed where it stopped.
#[derive(Debug, Clone, Copy, PartialEq, Eq, Structural)]
pub enum GeometryError {
    /// The resume point is not on a cipher chunk boundary.
    IncompatibleChunkGeometry,
}

/// Where a lost encrypted stream is rebuilt to resume at part
/// `uploaded_parts`: the plaintext offset and the index of the first cipher
/// chunk. The part boundary must fall on a ciphertext chunk boundary.
pub fn encrypted_resume_point(uploaded_parts: u64) -> (r: Result<(u64, u64), GeometryError>)
    requires
        uploaded_parts * MAX_OBJECT_SIZE <= u64::MAX,
    ensures
        match r {
            Ok((offset, chunk)) => {
                &&& (uploaded_parts * MAX_OBJECT_SIZE) % (ENCRYPTION_CHUNK_SIZE + TAG_SIZE) == 0
                &&& chunk == (uploaded_parts * MAX_OBJECT_SIZE) / (ENCRYPTION_CHUNK_SIZE + TAG_SIZE)
                &&& offset == chunk * ENCRYPTION_CHUNK_SIZE
            },
            Err(_) => (uploaded_parts * MAX_OBJECT_SIZE) % (ENCRYPTION_CHUNK_SIZE + TAG_SIZE) != 0,
        },
{
    let start: u64 = uploaded_parts * MAX_OBJECT_SIZE;
    let sealed_chunk: u64 = ENCRYPTION_CHUNK_SIZE as u64 + TAG_SIZE;
    if start % sealed_chunk != 0 {
        return Err(GeometryError::IncompatibleChunkGeometry);
    }
    let chunk: u64 = start / sealed_chunk;
    proof {
        assert(chunk * 10_000_000 <= start) by (nonlinear_arith)
            requires
                chunk == start / 10_000_016,
        ;
    }
    Ok((chunk * ENCRYPTION_CHUNK_SIZE as u64, chunk))
}

/// Why no stream nonce is left.
#[derive(Debug, Clone, Copy, PartialEq, Eq, Structural)]
pub enum NonceError {
    NonceExhausted,
}

/// The `k` low bytes of `n`, big-endian.
pub open spec fn be_bytes(n: nat, k: nat) -> Seq<u8>
    decreases k,
{
    if k == 0 {
        Seq::empty()
    } else {
        be_bytes(n / 256, (k - 1) as nat).push((n % 256) as u8)
    }
}

fn be_bytes_exec(n: u64, k: usize) -> (r: Vec<u8>)
    ensures
        r@ == be_bytes(n as nat, k as nat),
    decreases k,
{
    if k == 0 {
        Vec::new()
    } else {
        let mut v = be_bytes_exec(n / 256, k - 1);
        v.push((n % 256) as u8);
        v
    }
}

/// The 7-byte stream nonce of the snapshot that follows `committed` committed
/// snapshots: the count, big-endian. Counts of 2^56 or more have none.
pub fn stream_nonce(committed: u64) -> (r: Result<Vec<u8>, NonceError>)
    ensures
        match r {
            Ok(n) => committed < 0x100_0000_0000_0000 && n@ == be_bytes(committed as nat, 7),
            Err(_) => committed >= 0x100_0000_0000_0000,
        },
{
    if committed >= 0x100_0000_0000_0000 {
        Err(NonceError::NonceExhausted)
    } else {
        Ok(be_bytes_exec(committed, 7))
    }
}

} // verus!
