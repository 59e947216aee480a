use vstd::prelude::*;

use crate::bytes::{append_bytes, copy_from};
use crate::config::ENCRYPTION_CHUNK_SIZE;
use crate::crypto::{stream_seal, stream_seal_chunk, GCM_MAX_PLAINTEXT};

verus! {

/// A byte buffer that hands out exactly sized pieces of what was pushed into
/// it, in order.
pub struct Rechunker {
    buffer: Vec<u8>,
}

impl View for Rechunker {
    type V = Seq<u8>;

    closed spec fn view(&self) -> Seq<u8> {
        self.buffer@
    }
}

impl Rechunker {
    /// An empty buffer.
    pub fn new() -> (r: Self)
        ensures
            r@ == Seq::<u8>::empty(),
    {
        Rechunker { buffer: Vec::new() }
    }

    /// Number of bytes held.
    pub fn len(&self) -> (r: usize)
        ensures
            r == self@.len(),
    {
        self.buffer.len()
    }

    /// Appends `data` to what is held.
    pub fn push(&mut self, data: &[u8])
        ensures
            final(self)@ == old(self)@ + data@,
    {
        append_bytes(&mut self.buffer, data);
    }

    /// Hands out the first `n` bytes held, or all of them where fewer are held.
    pub fn take(&mut self, n: usize) -> (r: Vec<u8>)
        ensures
            n <= old(self)@.len() ==> r@ == old(self)@.take(n as int) && final(self)@ == old(
                self,
            )@.skip(n as int),
            n > old(self)@.len() ==> r@ == old(self)@ && final(self)@ == Seq::<u8>::empty(),
    {
        if n >= self.buffer.len() {
            let mut out: Vec<u8> = Vec::new();
            std::mem::swap(&mut out, &mut self.buffer);
            proof {
                if n == old(self)@.len() {
                    assert(old(self)@.take(n as int) =~= old(self)@);
                    assert(old(self)@.skip(n as int) =~= Seq::<u8>::empty());
                }
            }
            return out;
        }
        let mut head = copy_from(self.buffer.as_slice(), n);
        std::mem::swap(&mut head, &mut self.buffer);
        head.truncate(n);
        proof {
            assert(head@ =~= old(self)@.take(n as int));
        }
        head
    }
}

/// The ciphertext of the first `n` full chunks of `data`, numbered from
/// `first`; the chunk numbered `total - 1` carries the last-chunk marker.
pub open spec fn sealed_chunks(
    key: Seq<u8>,
    nonce: Seq<u8>,
    total: nat,
    first: nat,
    data: Seq<u8>,
    n: nat,
) -> Seq<u8>
    decreases n,
{
    if n == 0 {
        Seq::empty()
    } else {
        let c = ENCRYPTION_CHUNK_SIZE as int;
        sealed_chunks(key, nonce, total, first, data, (n - 1) as nat) + stream_seal(
            key,
            nonce,
            (first + n - 1) as nat,
            first + n == total,
            data.subrange((n - 1) * c, n * c),
        )
    }
}

/// Why a chunk could not be encrypted.
#[derive(Debug, Clone, Copy, PartialEq, Eq, Structural)]
pub enum CipherError {
    /// Every chunk of the stream was already encrypted.
    StreamFinished,
    /// The chunk count does not fit the 32-bit chunk counter.
    TooManyChunks,
    /// The cipher refused the chunk.
    CipherFailed,
}

/// The encryptor of one snapshot stream: it numbers chunks from `next` on and
/// marks chunk `total_chunks - 1` as the last.
pub struct ChunkEncryptor {
    pub key: Vec<u8>,
    pub nonce: Vec<u8>,
    pub total_chunks: u64,
    pub next: u64,
}

impl ChunkEncryptor {
    /// A 32-byte key, a 7-byte nonce, and a chunk count that the 32-bit
    /// counter can number.
    pub open spec fn wf(&self) -> bool {
        &&& self.key@.len() == 32
        &&& self.nonce@.len() == 7
        &&& self.total_chunks <= 0x1_0000_0000
    }

    /// An encryptor that starts at chunk `first_chunk` of `total_chunks`.
    pub fn new(key: Vec<u8>, nonce: Vec<u8>, total_chunks: u64, first_chunk: u64) -> (r: Result<
        Self,
        CipherError,
    >)
        requires
            key@.len() == 32,
            nonce@.len() == 7,
        ensures
            match r {
                Ok(e) => e.wf() && e.key == key && e.nonce == nonce && e.total_chunks
                    == total_chunks && e.next == first_chunk,
                Err(e) => e == CipherError::TooManyChunks && total_chunks > 0x1_0000_0000,
            },
    {
        if total_chunks > 0x1_0000_0000 {
            return Err(CipherError::TooManyChunks);
        }
        Ok(ChunkEncryptor { key, nonce, total_chunks, next: first_chunk })
    }

    /// Cuts the plaintext held in `plain` into chunks of the chunk size and
    /// appends their ciphertext to `out`; what is left in `plain` is shorter
    /// than a chunk.
    #[verifier::rlimit(40)]
    pub fn encrypt_full_chunks(&mut self, plain: &mut Rechunker, out: &mut Rechunker) -> (r: Result<
        (),
        CipherError,
    >)
        requires
            old(self).wf(),
        ensures
            final(self).wf(),
            final(self).key == old(self).key,
            final(self).nonce == old(self).nonce,
            final(self).total_chunks == old(self).total_chunks,
            r is Ok ==> {
                let n = old(plain)@.len() / ENCRYPTION_CHUNK_SIZE as nat;
                &&& final(plain)@ == old(plain)@.skip(n * ENCRYPTION_CHUNK_SIZE)
                &&& final(out)@ == old(out)@ + sealed_chunks(
                    old(self).key@,
                    old(self).nonce@,
                    old(self).total_chunks as nat,
                    old(self).next as nat,
                    old(plain)@,
                    n,
                )
                &&& final(self).next == old(self).next + n
            },
            old(self).next + old(plain)@.len() / ENCRYPTION_CHUNK_SIZE as nat <= old(self).total_chunks
                ==> r is Ok,
    {
        let ghost p0 = plain@;
        let ghost o0 = out@;
        let ghost first = self.next as nat;
        let ghost key = self.key@;
        let ghost nonce = self.nonce@;
        let ghost total = self.total_chunks as nat;
        let ghost c = ENCRYPTION_CHUNK_SIZE as int;
        let ghost k0 = self.key;
        let ghost n0 = self.nonce;
        let mut done: u64 = 0;
        proof {
            assert(p0.skip(0) =~= p0);
            assert(o0 + sealed_chunks(key, nonce, total, first, p0, 0) =~= o0);
        }
        while plain.len() >= ENCRYPTION_CHUNK_SIZE
            invariant
                self.wf(),
                self.key@ == key,
                self.nonce@ == nonce,
                self.key == k0,
                self.nonce == n0,
                k0 == old(self).key,
                n0 == old(self).nonce,
                total == old(self).total_chunks,
                first == old(self).next,
                p0 == old(plain)@,
                self.total_chunks == total,
                self.next == first + done,
                done * c <= p0.len(),
                c == 10_000_000,
                plain@ == p0.skip(done * c),
                out@ == o0 + sealed_chunks(key, nonce, total, first, p0, done as nat),
                first + p0.len() / ENCRYPTION_CHUNK_SIZE as nat <= total ==> first + p0.len()
                    / ENCRYPTION_CHUNK_SIZE as nat >= self.next + plain@.len()
                    / ENCRYPTION_CHUNK_SIZE as nat,
            decreases plain@.len(),
        {
            proof {
                assert((plain@.len() as int) / c >= 1) by (nonlinear_arith)
                    requires
                        plain@.len() >= c,
                        c > 0,
                ;
            }
            let chunk = plain.take(ENCRYPTION_CHUNK_SIZE);
            proof {
                assert(chunk@ =~= p0.subrange(done * c, (done + 1) * c));
                assert(plain@ =~= p0.skip((done + 1) * c));
            }
            let ghost before = self.next;
            let sealed = self.encrypt_next(chunk.as_slice())?;
            out.push(sealed.as_slice());
            proof {
                assert(sealed_chunks(key, nonce, total, first, p0, (done + 1) as nat) == sealed_chunks(
                    key,
                    nonce,
                    total,
                    first,
                    p0,
                    done as nat,
                ) + stream_seal(
                    key,
                    nonce,
                    (first + done) as nat,
                    first + done + 1 == total,
                    p0.subrange(done * c, (done + 1) * c),
                ));
                assert(out@ =~= o0 + sealed_chunks(key, nonce, total, first, p0, (done + 1) as nat));
                assert((plain@.len() as int) / c == (p0.skip(done * c).len() as int) / c - 1) by {
                    assert(p0.skip(done * c).len() == plain@.len() + c);
                }
            }
            done = done + 1;
        }
        proof {
            assert(done == (p0.len() as int) / c) by (nonlinear_arith)
                requires
                    done * c <= p0.len(),
                    p0.len() - done * c < c,
                    c == 10_000_000,
            ;
        }
        Ok(())
    }

    /// Seals what is left in `plain`, shorter than a chunk, as the next chunk
    /// and appends its ciphertext to `out`; nothing happens when `plain` is
    /// empty.
    pub fn encrypt_rest(&mut self, plain: &mut Rechunker, out: &mut Rechunker) -> (r: Result<
        (),
        CipherError,
    >)
        requires
            old(self).wf(),
            old(plain)@.len() < ENCRYPTION_CHUNK_SIZE,
        ensures
            final(self).wf(),
            final(self).key == old(self).key,
            final(self).nonce == old(self).nonce,
            final(self).total_chunks == old(self).total_chunks,
            old(plain)@.len() == 0 ==> r is Ok && final(out)@ == old(out)@ && final(self).next
                == old(self).next && final(plain)@.len() == 0,
            old(plain)@.len() > 0 ==> (r is Ok ==> {
                &&& final(out)@ == old(out)@ + stream_seal(
                    old(self).key@,
                    old(self).nonce@,
                    old(self).next as nat,
                    old(self).next + 1 == old(self).total_chunks,
                    old(plain)@,
                )
                &&& final(plain)@.len() == 0
                &&& final(self).next == old(self).next + 1
            }) && (old(self).next < old(self).total_chunks ==> r is Ok),
    {
        if plain.len() == 0 {
            return Ok(());
        }
        let n = plain.len();
        let chunk = plain.take(n);
        proof {
            assert(chunk@ =~= old(plain)@);
        }
        let sealed = self.encrypt_next(chunk.as_slice())?;
        out.push(sealed.as_slice());
        Ok(())
    }

    /// Encrypts what `plain` holds: every full chunk and, once the plaintext
    /// has ended, what is left as the last, shorter chunk.
    pub fn encrypt_available(
        &mut self,
        plain: &mut Rechunker,
        out: &mut Rechunker,
        ended: bool,
    ) -> (r: Result<(), CipherError>)
        requires
            old(self).wf(),
        ensures
            final(self).wf(),
            final(self).key == old(self).key,
            final(self).nonce == old(self).nonce,
            final(self).total_chunks == old(self).total_chunks,
            r is Ok ==> {
                let n = old(plain)@.len() / ENCRYPTION_CHUNK_SIZE as nat;
                let rest = old(plain)@.skip(n * ENCRYPTION_CHUNK_SIZE);
                let full = old(out)@ + sealed_chunks(
                    old(self).key@,
                    old(self).nonce@,
                    old(self).total_chunks as nat,
                    old(self).next as nat,
                    old(plain)@,
                    n,
                );
                &&& !ended ==> final(plain)@ == rest && final(out)@ == full && final(self).next
                    == old(self).next + n
                &&& ended && rest.len() == 0 ==> final(plain)@.len() == 0 && final(out)@ == full
                    && final(self).next == old(self).next + n
                &&& ended && rest.len() > 0 ==> final(plain)@.len() == 0 && final(out)@ == full
                    + stream_seal(
                    old(self).key@,
                    old(self).nonce@,
                    (old(self).next + n) as nat,
                    old(self).next + n + 1 == old(self).total_chunks,
                    rest,
                ) && final(self).next == old(self).next + n + 1
            },
            old(self).next + old(plain)@.len() / ENCRYPTION_CHUNK_SIZE as nat + (if ended
                && old(plain)@.len() % ENCRYPTION_CHUNK_SIZE as nat != 0 {
                1int
            } else {
                0int
            }) <= old(self).total_chunks ==> r is Ok,
    {
        self.encrypt_full_chunks(plain, out)?;
        proof {
            let c = ENCRYPTION_CHUNK_SIZE as int;
            let l = old(plain)@.len() as int;
            assert(l - (l / c) * c == l % c) by (nonlinear_arith)
                requires
                    c > 0,
            ;
            assert(0 <= l % c < c) by (nonlinear_arith)
                requires
                    c > 0,
            ;
        }
        if ended {
            self.encrypt_rest(plain, out)?;
        }
        Ok(())
    }

    /// Encrypts the next chunk; the chunk numbered `total_chunks - 1` is sealed
    /// as the last one.
    pub fn encrypt_next(&mut self, chunk: &[u8]) -> (r: Result<Vec<u8>, CipherError>)
        requires
            old(self).wf(),
        ensures
            final(self).wf(),
            final(self).key == old(self).key,
            final(self).nonce == old(self).nonce,
            final(self).total_chunks == old(self).total_chunks,
            match r {
                Ok(c) => {
                    &&& old(self).next < old(self).total_chunks
                    &&& c@ == stream_seal(
                        old(self).key@,
                        old(self).nonce@,
                        old(self).next as nat,
                        old(self).next + 1 == old(self).total_chunks,
                        chunk@,
                    )
                    &&& c@.len() == chunk@.len() + 16
                    &&& final(self).next == old(self).next + 1
                },
                Err(e) => final(self).next == old(self).next && (e == CipherError::StreamFinished
                    <==> old(self).next >= old(self).total_chunks),
            },
            old(self).next < old(self).total_chunks && chunk@.len() <= GCM_MAX_PLAINTEXT ==> r is Ok,
    {
        if self.next >= self.total_chunks {
            return Err(CipherError::StreamFinished);
        }
        let last = self.next + 1 == self.total_chunks;
        match stream_seal_chunk(self.key.as_slice(), self.nonce.as_slice(), self.next as u32, last, chunk) {
            Some(c) => {
                self.next = self.next + 1;
                Ok(c)
            },
            None => Err(CipherError::CipherFailed),
        }
    }
}

} // verus!
