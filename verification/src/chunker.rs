//! The upload pipeline's re-chunking engine.
//!
//! An inbound byte stream arrives as frames of arbitrary sizes. The
//! [`Chunker`] regroups those bytes into backend-mandated fixed-size
//! chunks: every chunk it emits is exactly `chunk_size` bytes except the
//! final one, offsets are contiguous from zero, each chunk carries its own
//! MD5 and SHA-256 in the manifest, and a whole-object MD5 runs over every
//! byte in order. The backend calls themselves (session start, chunk
//! upload, finalize) happen outside; the caller pushes frames in, uploads
//! the emitted chunks in order, and finishes with the manifest.

use vstd::prelude::*;
use vstd::arithmetic::mul::{
    lemma_mul_inequality, lemma_mul_is_distributive_add_other_way, lemma_mul_nonnegative,
    lemma_mul_strict_inequality,
};
use crate::digests::{
    md5_absorbed, md5_digest, md5_finalize, md5_new, md5_of, md5_update, sha256_digest, sha256_of,
};
use crate::error::S3Error;

verus! {

/// One manifest entry: the byte range of a chunk within the object, with
/// the chunk's checksums.
#[derive(Clone, Debug)]
pub struct ChunkRecord {
    pub start: u64,
    pub end: u64,
    pub md5: Vec<u8>,
    pub sha256: Vec<u8>,
}

/// A chunk ready to be sent to the backend: its offset within the object
/// and its bytes.
#[derive(Debug)]
pub struct Chunk {
    pub offset: u64,
    pub bytes: Vec<u8>,
}

/// The number of chunks an object of `n` bytes splits into.
pub open spec fn chunk_count(n: int, cs: int) -> int
    recommends
        cs >= 1,
{
    (n + cs - 1) / cs
}

/// Where chunk `i` of an object of `n` bytes ends.
pub open spec fn chunk_end(n: int, cs: int, i: int) -> int {
    if (i + 1) * cs <= n {
        (i + 1) * cs
    } else {
        n
    }
}

/// Manifest entry `i` describes chunk `i` of `data`: the range
/// `[i*cs, chunk_end)` and the checksums of exactly those bytes.
pub open spec fn record_ok(r: ChunkRecord, data: Seq<u8>, cs: int, i: int) -> bool {
    &&& r.start == i * cs
    &&& r.end == chunk_end(data.len() as int, cs, i)
    &&& r.md5@ == md5_of(data.subrange(i * cs, r.end as int))
    &&& r.md5@.len() == 16
    &&& r.sha256@ == sha256_of(data.subrange(i * cs, r.end as int))
    &&& r.sha256@.len() == 32
}

/// The manifest describes `data` completely: one entry per chunk, in
/// order, each over its exact range.
pub open spec fn records_ok(rs: Seq<ChunkRecord>, data: Seq<u8>, cs: int) -> bool {
    &&& rs.len() == chunk_count(data.len() as int, cs)
    &&& forall|i: int| 0 <= i < rs.len() ==> record_ok(#[trigger] rs[i], data, cs, i)
}

/// The ranges of a manifest tile `[0, size)`: non-empty, contiguous,
/// starting at zero and ending at `size`, with no gaps or overlaps.
pub open spec fn ranges_tile(rs: Seq<ChunkRecord>, size: int) -> bool {
    &&& forall|i: int| 0 <= i < rs.len() ==> (#[trigger] rs[i]).start < rs[i].end
    &&& forall|i: int| 1 <= i < rs.len() ==> (#[trigger] rs[i]).start == rs[i - 1].end
    &&& rs.len() >= 1 ==> rs[0].start == 0 && rs[rs.len() - 1].end == size
    &&& rs.len() == 0 ==> size == 0
}

/// The bytes of a sequence of chunks, concatenated in order.
pub open spec fn chunks_bytes(out: Seq<Chunk>) -> Seq<u8>
    decreases out.len(),
{
    if out.len() == 0 {
        Seq::<u8>::empty()
    } else {
        chunks_bytes(out.drop_last()) + out.last().bytes@
    }
}

proof fn lemma_chunks_bytes_push(s: Seq<Chunk>, c: Chunk)
    ensures
        chunks_bytes(s.push(c)) == chunks_bytes(s) + c.bytes@,
{
    assert(s.push(c).drop_last() =~= s);
    assert(s.push(c).last() == c);
}

proof fn lemma_count_full(k: int, cs: int)
    requires
        cs >= 1,
        k >= 0,
    ensures
        chunk_count(k * cs, cs) == k,
{
    assert((k * cs + cs - 1) / cs == k) by (nonlinear_arith)
        requires
            cs >= 1,
            k >= 0,
    ;
}

proof fn lemma_count_partial(k: int, b: int, cs: int)
    requires
        cs >= 1,
        k >= 0,
        1 <= b <= cs,
    ensures
        chunk_count(k * cs + b, cs) == k + 1,
{
    assert((k * cs + b + cs - 1) / cs == k + 1) by (nonlinear_arith)
        requires
            cs >= 1,
            k >= 0,
            1 <= b <= cs,
    ;
}

/// When `n >= 1`, the last chunk begins strictly before `n` and the
/// object ends within the last chunk's full span.
proof fn lemma_count_bounds(n: int, cs: int)
    requires
        cs >= 1,
        n >= 1,
    ensures
        (chunk_count(n, cs) - 1) * cs < n,
        n <= chunk_count(n, cs) * cs,
        chunk_count(n, cs) >= 1,
{
    assert(((n + cs - 1) / cs - 1) * cs < n && n <= ((n + cs - 1) / cs) * cs && (n + cs - 1) / cs
        >= 1) by (nonlinear_arith)
        requires
            cs >= 1,
            n >= 1,
    ;
}

/// Extending the data past every recorded range leaves each record valid.
proof fn lemma_records_extend(rs: Seq<ChunkRecord>, f: Seq<u8>, ext: Seq<u8>, cs: int)
    requires
        cs >= 1,
        f.len() == rs.len() * cs,
        forall|i: int| 0 <= i < rs.len() ==> record_ok(#[trigger] rs[i], f, cs, i),
    ensures
        forall|i: int| 0 <= i < rs.len() ==> record_ok(#[trigger] rs[i], f + ext, cs, i),
{
    let n = f.len() as int;
    assert forall|i: int| 0 <= i < rs.len() implies record_ok(#[trigger] rs[i], f + ext, cs, i) by {
        lemma_mul_nonnegative(i, cs);
        lemma_mul_inequality(i, i + 1, cs);
        lemma_mul_inequality(i + 1, rs.len() as int, cs);
        assert((i + 1) * cs <= n);
        assert(chunk_end(n, cs, i) == (i + 1) * cs);
        assert(chunk_end((f + ext).len() as int, cs, i) == (i + 1) * cs);
        assert((f + ext).subrange(i * cs, (i + 1) * cs) =~= f.subrange(i * cs, (i + 1) * cs));
    }
}

/// A manifest over `data` tiles `[0, data.len())`.
pub proof fn lemma_records_tile(rs: Seq<ChunkRecord>, data: Seq<u8>, cs: int)
    requires
        cs >= 1,
        records_ok(rs, data, cs),
    ensures
        ranges_tile(rs, data.len() as int),
{
    let n = data.len() as int;
    if n == 0 {
        lemma_count_full(0, cs);
        assert(rs.len() == 0);
    } else {
        lemma_count_bounds(n, cs);
        let c = chunk_count(n, cs);
        assert forall|i: int| 0 <= i < rs.len() implies (#[trigger] rs[i]).start < rs[i].end by {
            lemma_mul_nonnegative(i, cs);
            lemma_mul_strict_inequality(i, i + 1, cs);
            lemma_mul_inequality(i, c - 1, cs);
            assert(i * cs <= (c - 1) * cs < n);
        }
        assert forall|i: int| 1 <= i < rs.len() implies (#[trigger] rs[i]).start == rs[i - 1].end by {
            lemma_mul_inequality(i, c - 1, cs);
            assert(i * cs <= (c - 1) * cs < n);
            assert(chunk_end(n, cs, i - 1) == i * cs);
        }
        assert(rs[0].start == 0 * cs);
        assert(rs[c - 1].end == chunk_end(n, cs, c - 1));
        assert(c * cs >= n);
        assert(rs[c - 1].end == n);
    }
}

/// The byte ranges of a manifest, each sliced out of `data`, concatenated
/// in order.
pub open spec fn slices_concat(rs: Seq<ChunkRecord>, data: Seq<u8>) -> Seq<u8>
    decreases rs.len(),
{
    if rs.len() == 0 {
        Seq::<u8>::empty()
    } else {
        slices_concat(rs.drop_last(), data) + data.subrange(
            rs.last().start as int,
            rs.last().end as int,
        )
    }
}

/// Slicing against a long-enough prefix gives the same concatenation.
proof fn lemma_slices_prefix(rs: Seq<ChunkRecord>, data: Seq<u8>, cut: int)
    requires
        0 <= cut <= data.len(),
        forall|i: int| 0 <= i < rs.len() ==> (#[trigger] rs[i]).start <= rs[i].end,
        forall|i: int| 0 <= i < rs.len() ==> (#[trigger] rs[i]).end <= cut,
    ensures
        slices_concat(rs, data.take(cut)) == slices_concat(rs, data),
    decreases rs.len(),
{
    if rs.len() > 0 {
        lemma_slices_prefix(rs.drop_last(), data, cut);
        assert(data.take(cut).subrange(rs.last().start as int, rs.last().end as int) =~= data
            .subrange(rs.last().start as int, rs.last().end as int));
    }
}

/// Law: the manifest's chunk ranges reconstruct the object. Concatenating
/// the bytes of each recorded range, in order, yields exactly the
/// original byte sequence.
pub proof fn lemma_manifest_reconstructs(rs: Seq<ChunkRecord>, data: Seq<u8>, cs: int)
    requires
        cs >= 1,
        records_ok(rs, data, cs),
    ensures
        slices_concat(rs, data) == data,
    decreases rs.len(),
{
    let n = data.len() as int;
    if rs.len() == 0 {
        lemma_count_full(0, cs);
        assert(chunk_count(n, cs) == 0);
        assert(n == 0) by (nonlinear_arith)
            requires
                cs >= 1,
                n >= 0,
                (n + cs - 1) / cs == 0,
        ;
        assert(data =~= Seq::<u8>::empty());
    } else {
        let c = rs.len() as int;
        assert(chunk_count(n, cs) == c);
        assert(n >= 1) by (nonlinear_arith)
            requires
                cs >= 1,
                n >= 0,
                (n + cs - 1) / cs >= 1,
        ;
        lemma_count_bounds(n, cs);
        let k = c - 1;
        let head = rs.drop_last();
        lemma_mul_nonnegative(k, cs);
        assert(k * cs < n);
        let prefix = data.take(k * cs);
        lemma_count_full(k, cs);
        assert forall|i: int| 0 <= i < head.len() implies record_ok(
            #[trigger] head[i],
            prefix,
            cs,
            i,
        ) by {
            assert(head[i] == rs[i]);
            assert(record_ok(rs[i], data, cs, i));
            lemma_mul_nonnegative(i, cs);
            lemma_mul_inequality(i, i + 1, cs);
            lemma_mul_inequality(i + 1, k, cs);
            assert((i + 1) * cs <= k * cs);
            assert(chunk_end(n, cs, i) == (i + 1) * cs);
            assert(chunk_end(prefix.len() as int, cs, i) == (i + 1) * cs);
            assert(prefix.subrange(i * cs, (i + 1) * cs) =~= data.subrange(i * cs, (i + 1) * cs));
        }
        assert(records_ok(head, prefix, cs));
        lemma_manifest_reconstructs(head, prefix, cs);
        assert forall|i: int| 0 <= i < head.len() implies (#[trigger] head[i]).start <= head[i].end
            && head[i].end <= k * cs by {
            assert(head[i] == rs[i]);
            assert(record_ok(rs[i], data, cs, i));
            lemma_mul_nonnegative(i, cs);
            lemma_mul_inequality(i, i + 1, cs);
            lemma_mul_inequality(i + 1, k, cs);
            assert(chunk_end(n, cs, i) == (i + 1) * cs);
        }
        lemma_slices_prefix(head, data, k * cs);
        assert(rs.last() == rs[k]);
        assert(record_ok(rs[k], data, cs, k));
        lemma_mul_is_distributive_add_other_way(cs, k, 1);
        assert((k + 1) * cs == c * cs);
        assert(rs.last().start == k * cs);
        assert(rs.last().end == n);
        assert(slices_concat(rs, data) == prefix + data.subrange(k * cs, n));
        assert(prefix + data.subrange(k * cs, n) =~= data);
    }
}

/// The finished upload, before the backend's finalize call: the final
/// (possibly undersized) chunk still to send, the whole-object MD5, the
/// total size, and the per-chunk manifest.
#[derive(Debug)]
pub struct FinishedUpload {
    pub last_chunk: Chunk,
    pub md5: Vec<u8>,
    pub size: u64,
    pub chunks: Vec<ChunkRecord>,
}

/// The upload pipeline's product: the backend's opaque content
/// reference, the whole-object MD5 (16 bytes), the total size, and the
/// ordered per-chunk manifest.
#[derive(Debug)]
pub struct UploadResult {
    pub backend_ref: String,
    pub md5: Vec<u8>,
    pub size: u64,
    pub chunks: Vec<ChunkRecord>,
}

impl UploadResult {
    /// A manifest fit to commit: checksum lengths as the digests give
    /// them, at least one byte, and chunk ranges tiling `[0, size)`.
    pub open spec fn wf(self) -> bool {
        &&& self.md5@.len() == 16
        &&& self.size >= 1
        &&& ranges_tile(self.chunks@, self.size as int)
    }
}

impl FinishedUpload {
    /// Attach the backend reference obtained from the finalize call.
    pub fn into_result(self, backend_ref: String) -> (r: UploadResult)
        ensures
            r.backend_ref == backend_ref,
            r.md5 == self.md5,
            r.size == self.size,
            r.chunks == self.chunks,
    {
        UploadResult { backend_ref, md5: self.md5, size: self.size, chunks: self.chunks }
    }
}

/// The re-chunking state machine. Frames go in; exactly-`chunk_size`
/// chunks come out, each recorded in the manifest, while the whole-object
/// MD5 absorbs every flushed byte in order.
pub struct Chunker {
    chunk_size: usize,
    offset: u64,
    buf: Vec<u8>,
    hasher: md5::Md5,
    records: Vec<ChunkRecord>,
    flushed: Ghost<Seq<u8>>,
}

impl Chunker {
    /// The bytes already emitted as chunks, in order.
    pub closed spec fn flushed_bytes(self) -> Seq<u8> {
        self.flushed@
    }

    /// The bytes accepted but not yet emitted.
    pub closed spec fn buffered(self) -> Seq<u8> {
        self.buf@
    }

    /// Every byte accepted so far, in arrival order.
    pub open spec fn accepted(self) -> Seq<u8> {
        self.flushed_bytes() + self.buffered()
    }

    pub closed spec fn chunk_size_spec(self) -> int {
        self.chunk_size as int
    }

    /// The core invariant, except that the buffer may sit empty after a
    /// flush while a frame remainder is still to be appended.
    closed spec fn wf_core(self) -> bool {
        &&& self.chunk_size >= 1
        &&& self.buf@.len() <= self.chunk_size
        &&& self.flushed@.len() + self.buf@.len() <= u64::MAX
        &&& self.offset == self.flushed@.len()
        &&& md5_absorbed(self.hasher) == self.flushed@
        &&& self.flushed@.len() == self.records@.len() * self.chunk_size
        &&& records_ok(self.records@, self.flushed@, self.chunk_size as int)
    }

    /// The chunker at rest: additionally, the buffer is empty only while
    /// nothing at all has been accepted, so the final flush is never
    /// empty.
    pub closed spec fn wf(self) -> bool {
        &&& self.wf_core()
        &&& self.buf@.len() == 0 ==> self.flushed@.len() == 0
    }

    /// Open a chunking session for the backend's mandated chunk size. A
    /// chunk size below one is a fatal backend-contract violation.
    pub fn start(chunk_size: usize) -> (r: Result<Chunker, S3Error>)
        ensures
            r is Ok <==> chunk_size >= 1,
            r matches Err(e) ==> e == S3Error::InternalError,
            r matches Ok(c) ==> {
                &&& c.wf()
                &&& c.accepted() == Seq::<u8>::empty()
                &&& c.chunk_size_spec() == chunk_size
            },
    {
        if chunk_size < 1 {
            Err(S3Error::InternalError)
        } else {
            let c = Chunker {
                chunk_size,
                offset: 0,
                buf: Vec::new(),
                hasher: md5_new(),
                records: Vec::new(),
                flushed: Ghost(Seq::<u8>::empty()),
            };
            proof {
                lemma_count_full(0, chunk_size as int);
                assert(c.accepted() =~= Seq::<u8>::empty());
            }
            Ok(c)
        }
    }

    /// Accept one inbound frame. Whenever the buffer would exceed the
    /// chunk size, a full chunk is split off and emitted; the returned
    /// chunks are exactly `chunk_size` bytes each, their offsets
    /// contiguous where flushing left off, and their concatenation is
    /// what moved from the stream into flushed storage. An empty frame
    /// changes nothing.
    pub fn push_frame(&mut self, frame: &[u8]) -> (out: Vec<Chunk>)
        requires
            old(self).wf(),
            old(self).accepted().len() + frame@.len() <= u64::MAX,
        ensures
            final(self).wf(),
            final(self).chunk_size_spec() == old(self).chunk_size_spec(),
            final(self).accepted() == old(self).accepted() + frame@,
            final(self).flushed_bytes() == old(self).flushed_bytes() + chunks_bytes(out@),
            forall|i: int|
                0 <= i < out@.len() ==> {
                    &&& (#[trigger] out@[i]).bytes@.len() == old(self).chunk_size_spec()
                    &&& out@[i].offset == old(self).flushed_bytes().len() + i * old(
                        self,
                    ).chunk_size_spec()
                },
    {
        let mut out: Vec<Chunk> = Vec::new();
        let mut pos: usize = 0;
        let flen: usize = frame.len();
        proof {
            assert(chunks_bytes(out@) =~= Seq::<u8>::empty());
            assert(self.flushed@ + self.buf@ + frame@.subrange(0, frame@.len() as int) =~= old(
                self,
            ).accepted() + frame@);
        }
        while frame.len() - pos > self.chunk_size - self.buf.len()
            invariant
                self.wf_core(),
                self.chunk_size == old(self).chunk_size,
                pos <= frame@.len(),
                flen == frame@.len(),
                old(self).accepted().len() + frame@.len() <= u64::MAX,
                self.flushed@ == old(self).flushed_bytes() + chunks_bytes(out@),
                self.flushed@.len() == old(self).flushed_bytes().len() + out@.len()
                    * self.chunk_size,
                self.flushed@ + self.buf@ + frame@.subrange(pos as int, frame@.len() as int) == old(
                    self,
                ).accepted() + frame@,
                forall|i: int|
                    0 <= i < out@.len() ==> {
                        &&& (#[trigger] out@[i]).bytes@.len() == old(self).chunk_size_spec()
                        &&& out@[i].offset == old(self).flushed_bytes().len() + i * old(
                            self,
                        ).chunk_size_spec()
                    },
                pos == frame@.len() ==> (self.buf@.len() > 0 || self.flushed@.len() == 0),
            decreases frame@.len() - pos + self.buf@.len(),
        {
            let take = self.chunk_size - self.buf.len();
            let ghost snap = *self;
            let ghost buf0 = self.buf@;
            let mut j: usize = 0;
            proof {
                assert(self.buf@ =~= buf0 + frame@.subrange(pos as int, pos as int));
            }
            while j < take
                invariant
                    j <= take,
                    take == snap.chunk_size - buf0.len(),
                    buf0 == snap.buf@,
                    flen == frame@.len(),
                    pos + take < frame@.len(),
                    self.buf@ == buf0 + frame@.subrange(pos as int, pos + j),
                    self.chunk_size == snap.chunk_size,
                    self.offset == snap.offset,
                    self.hasher == snap.hasher,
                    self.records == snap.records,
                    self.flushed == snap.flushed,
                decreases take - j,
            {
                self.buf.push(frame[pos + j]);
                j += 1;
                proof {
                    assert(self.buf@ =~= buf0 + frame@.subrange(pos as int, pos + j));
                }
            }
            proof {
                assert(self.buf@.len() == self.chunk_size);
                assert((snap.flushed@ + snap.buf@ + frame@.subrange(
                    pos as int,
                    frame@.len() as int,
                )).len() == snap.flushed@.len() + snap.buf@.len() + (frame@.len() - pos));
                assert(snap.flushed@.len() + snap.chunk_size <= u64::MAX);
            }
            md5_update(&mut self.hasher, &self.buf);
            let md5c = md5_digest(&self.buf);
            let shac = sha256_digest(&self.buf);
            let clen = self.buf.len() as u64;
            let rec = ChunkRecord {
                start: self.offset,
                end: self.offset + clen,
                md5: md5c,
                sha256: shac,
            };
            let ghost k = self.records@.len() as int;
            let ghost f0 = self.flushed@;
            let ghost recs0 = self.records@;
            let ghost cs = self.chunk_size as int;
            self.records.push(rec);
            let mut chunk_data: Vec<u8> = Vec::new();
            core::mem::swap(&mut chunk_data, &mut self.buf);
            let ghost cbytes = chunk_data@;
            let ghost out0 = out@;
            out.push(Chunk { offset: self.offset, bytes: chunk_data });
            self.offset = self.offset + clen;
            pos = pos + take;
            proof {
                self.flushed@ = f0 + cbytes;
                assert(out@ == out0.push(out@.last()));
                lemma_chunks_bytes_push(out0, out@.last());
                assert(self.flushed@ =~= old(self).flushed_bytes() + chunks_bytes(out@));
                lemma_mul_is_distributive_add_other_way(cs, out0.len() as int, 1);
                lemma_mul_is_distributive_add_other_way(cs, k, 1);
                lemma_records_extend(recs0, f0, cbytes, cs);
                lemma_count_full(k, cs);
                lemma_count_partial(k, cs, cs);
                assert(self.flushed@.len() == (k + 1) * cs);
                assert(chunk_end(self.flushed@.len() as int, cs, k) == (k + 1) * cs);
                assert(self.flushed@.subrange(k * cs, (k + 1) * cs) =~= cbytes);
                assert(self.records@ == recs0.push(rec));
                assert(record_ok(self.records@[k], self.flushed@, cs, k));
                assert forall|i: int| 0 <= i < self.records@.len() implies record_ok(
                    #[trigger] self.records@[i],
                    self.flushed@,
                    cs,
                    i,
                ) by {
                    if i < k {
                        assert(self.records@[i] == recs0[i]);
                        assert(record_ok(recs0[i], f0 + cbytes, cs, i));
                    }
                }
                assert forall|i: int|
                    0 <= i < out@.len() implies ((#[trigger] out@[i]).bytes@.len() == old(
                    self,
                ).chunk_size_spec() && out@[i].offset == old(self).flushed_bytes().len() + i * old(
                    self,
                ).chunk_size_spec()) by {
                    if i < out0.len() {
                        assert(out@[i] == out0[i]);
                    } else {
                        assert(out@[i] == out@.last());
                        assert(out@[i].offset == snap.offset);
                    }
                }
                assert(self.flushed@ + self.buf@ + frame@.subrange(pos as int, frame@.len() as int)
                    =~= f0 + buf0 + frame@.subrange((pos - take) as int, frame@.len() as int));
            }
        }
        let rest = frame.len() - pos;
        let ghost snap2 = *self;
        let ghost buf1 = self.buf@;
        let mut j: usize = 0;
        proof {
            assert(self.buf@ =~= buf1 + frame@.subrange(pos as int, pos as int));
        }
        while j < rest
            invariant
                j <= rest,
                rest + pos == frame@.len(),
                flen == frame@.len(),
                buf1 == snap2.buf@,
                buf1.len() + rest <= snap2.chunk_size,
                self.buf@ == buf1 + frame@.subrange(pos as int, pos + j),
                self.chunk_size == snap2.chunk_size,
                self.offset == snap2.offset,
                self.hasher == snap2.hasher,
                self.records == snap2.records,
                self.flushed == snap2.flushed,
            decreases rest - j,
        {
            self.buf.push(frame[pos + j]);
            j += 1;
            proof {
                assert(self.buf@ =~= buf1 + frame@.subrange(pos as int, pos + j));
            }
        }
        proof {
            assert(self.buf@ =~= buf1 + frame@.subrange(pos as int, frame@.len() as int));
            assert(self.accepted() =~= old(self).accepted() + frame@);
        }
        out
    }

    /// End of stream. If nothing was ever accepted this is the distinct
    /// "no content" outcome, `None` — never a manifest with zero chunks.
    /// Otherwise the remaining buffer becomes the final (possibly
    /// undersized) chunk, and the result carries the whole-object MD5 of
    /// every accepted byte, the exact total size, and a manifest whose
    /// ranges tile `[0, size)`.
    pub fn finish(self) -> (r: Option<FinishedUpload>)
        requires
            self.wf(),
        ensures
            r is None <==> self.accepted().len() == 0,
            r matches Some(f) ==> {
                &&& f.size == self.accepted().len()
                &&& f.md5@ == md5_of(self.accepted())
                &&& f.md5@.len() == 16
                &&& records_ok(f.chunks@, self.accepted(), self.chunk_size_spec())
                &&& ranges_tile(f.chunks@, f.size as int)
                &&& f.chunks@.len() >= 1
                &&& f.last_chunk.offset == self.flushed_bytes().len()
                &&& f.last_chunk.bytes@ == self.buffered()
                &&& 1 <= f.last_chunk.bytes@.len() <= self.chunk_size_spec()
            },
    {
        if self.buf.len() == 0 {
            proof {
                assert(self.accepted() =~= Seq::<u8>::empty());
            }
            return None;
        }
        let Chunker { chunk_size, offset, buf, mut hasher, mut records, flushed } = self;
        let ghost f0 = flushed@;
        let ghost cs = chunk_size as int;
        let ghost k = records@.len() as int;
        let ghost acc = f0 + buf@;
        md5_update(&mut hasher, &buf);
        let md5c = md5_digest(&buf);
        let shac = sha256_digest(&buf);
        let clen = buf.len() as u64;
        records.push(ChunkRecord { start: offset, end: offset + clen, md5: md5c, sha256: shac });
        let whole = md5_finalize(hasher);
        let size = offset + clen;
        proof {
            lemma_records_extend(records@.drop_last(), f0, buf@, cs);
            lemma_count_full(k, cs);
            lemma_count_partial(k, buf@.len() as int, cs);
            lemma_mul_is_distributive_add_other_way(cs, k, 1);
            assert(acc.subrange(k * cs, acc.len() as int) =~= buf@);
            assert(chunk_end(acc.len() as int, cs, k) == acc.len());
            assert(record_ok(records@.last(), acc, cs, k));
            assert forall|i: int| 0 <= i < records@.len() implies record_ok(
                #[trigger] records@[i],
                acc,
                cs,
                i,
            ) by {
                if i < k {
                    assert(records@[i] == records@.drop_last()[i]);
                    assert(record_ok(records@[i], f0 + buf@, cs, i));
                }
            }
            assert(records_ok(records@, acc, cs));
            lemma_records_tile(records@, acc, cs);
        }
        Some(
            FinishedUpload {
                last_chunk: Chunk { offset, bytes: buf },
                md5: whole,
                size,
                chunks: records,
            },
        )
    }
}

} // verus!
