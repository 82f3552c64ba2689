//! A hosted file: its (possibly zstd-compressed) bytes split into a fixed
//! number of chunks, the last of which also carries the remainder.
use vstd::prelude::*;
use vstd::arithmetic::div_mod::*;
use vstd::arithmetic::mul::*;

verus! {

/// The abstract content of a hosted file.
pub struct FileView {
    /// The bytes that are served, compressed or not.
    pub bytes: Seq<u8>,
    /// Whether `bytes` is a zstd frame of the original file.
    pub compressed: bool,
    /// The number of chunks the bytes are split into.
    pub segments: nat,
    /// The name under which the file is advertised.
    pub name: Seq<char>,
}

impl FileView {
    /// A file is split into at least one chunk.
    pub open spec fn wf(self) -> bool {
        self.segments > 0
    }

    /// The UTF-8 bytes of the name.
    pub open spec fn name_bytes(self) -> Seq<u8> {
        vstd::utf8::encode_utf8(self.name)
    }

    /// Size of every chunk but the last one.
    pub open spec fn chunk_size(self) -> nat {
        self.bytes.len() / self.segments
    }

    /// Size of the last chunk: the base size plus the remainder.
    pub open spec fn last_chunk_size(self) -> nat {
        self.chunk_size() + self.bytes.len() % self.segments
    }

    /// The flags word sent for this file: bit 0 set when compressed.
    pub open spec fn flags(self) -> u32 {
        if self.compressed {
            1
        } else {
            0
        }
    }

    /// Offset of chunk `c`.
    pub open spec fn chunk_start(self, c: int) -> int {
        self.chunk_size() * c
    }

    /// End offset (exclusive) of chunk `c`.
    pub open spec fn chunk_end(self, c: int) -> int {
        if c + 1 == self.segments {
            self.chunk_start(c) + self.last_chunk_size()
        } else {
            self.chunk_start(c) + self.chunk_size()
        }
    }

    /// The bytes of chunk `c`.
    pub open spec fn chunk(self, c: int) -> Seq<u8> {
        self.bytes.subrange(self.chunk_start(c), self.chunk_end(c))
    }

    /// The first `n` chunks laid end to end.
    pub open spec fn assembled(self, n: nat) -> Seq<u8>
        decreases n,
    {
        if n == 0 {
            seq![]
        } else {
            self.assembled((n - 1) as nat) + self.chunk(n - 1)
        }
    }
}

/// Chunk `c` lies inside the file, starts where the previous one ends, and
/// the last one ends at the end of the file.
pub proof fn lemma_chunk_bounds(v: FileView, c: int)
    requires
        v.wf(),
        0 <= c < v.segments,
    ensures
        0 <= v.chunk_start(c) <= v.chunk_end(c) <= v.bytes.len(),
        v.chunk_end(c) - v.chunk_start(c) == (if c + 1 == v.segments {
            v.last_chunk_size()
        } else {
            v.chunk_size()
        }),
        c + 1 < v.segments ==> v.chunk_end(c) == v.chunk_start(c + 1),
        c + 1 == v.segments ==> v.chunk_end(c) == v.bytes.len(),
{
    let len = v.bytes.len() as int;
    let s = v.segments as int;
    let cs = v.chunk_size() as int;
    lemma_fundamental_div_mod(len, s);
    lemma_mul_is_commutative(s, cs);
    lemma_mul_is_distributive_add(cs, c, 1);
    lemma_mul_nonnegative(cs, c);
    lemma_mul_is_distributive_add(cs, s - 1, 1);
    lemma_mod_bound(len, s);
    if c + 1 < s {
        lemma_mul_inequality(c + 1, s - 1, cs);
    } else {
        assert(cs * c == cs * (s - 1));
    }
}

/// The chunks of a file, laid end to end in order, give back exactly its bytes.
pub proof fn lemma_chunks_reassemble(v: FileView)
    requires
        v.wf(),
    ensures
        v.assembled(v.segments) == v.bytes,
{
    lemma_assembled_prefix(v, v.segments);
    lemma_chunk_bounds(v, v.segments - 1);
    assert(v.bytes.subrange(0, v.bytes.len() as int) =~= v.bytes);
}

/// The first `n` chunks are the prefix of the file up to where chunk `n - 1` ends.
proof fn lemma_assembled_prefix(v: FileView, n: nat)
    requires
        v.wf(),
        n <= v.segments,
    ensures
        n == 0 ==> v.assembled(n) == Seq::<u8>::empty(),
        n > 0 ==> v.assembled(n) == v.bytes.subrange(0, v.chunk_end(n - 1)),
    decreases n,
{
    if n == 0 {
    } else {
        lemma_assembled_prefix(v, (n - 1) as nat);
        lemma_chunk_bounds(v, n - 1);
        if n == 1 {
            lemma_mul_basics(v.chunk_size() as int);
            assert(v.assembled(n) =~= v.bytes.subrange(0, v.chunk_end(n - 1)));
        } else {
            lemma_chunk_bounds(v, n - 2);
            assert(v.assembled(n) =~= v.bytes.subrange(0, v.chunk_end(n - 1)));
        }
    }
}

/// Errors when building a hosted file.
#[derive(Debug)]
pub enum CFileError {
    /// A file must be split into at least one chunk.
    ZeroSegments,
    /// The compressor or decompressor reported an error.
    Compression(std::io::Error),
}

/// The standard I/O error, which the compressor reports.
#[verifier::external_type_specification]
#[verifier::external_body]
pub struct ExIoError(std::io::Error);

/// A name for the zstd frame that `zstd::stream::encode_all` produces from
/// `data` at compression `level`: a deterministic function of its inputs.
pub uninterp spec fn zstd_frame(data: Seq<u8>, level: i32) -> Seq<u8>;

/// Calls `zstd::stream::encode_all` on the bytes. It reads the slice into a
/// fresh encoder (zstd clamps any `level` into its supported range) and
/// writes the frame into a `Vec`; neither step can fail, so the call gives
/// the zstd frame of `data` at `level`. An allocation failure, which aborts
/// the process, is outside what this contract speaks of.
#[verifier::external_body]
fn zstd_encode_all(data: &[u8], level: i32) -> (res: Result<Vec<u8>, std::io::Error>)
    ensures
        res is Ok,
        res matches Ok(v) ==> v@ == zstd_frame(data@, level),
{
    zstd::stream::encode_all(data, level)
}

/// `frame` is a zstd frame that `encode_all` made from `raw`, at some level.
pub open spec fn is_frame_of(frame: Seq<u8>, raw: Seq<u8>) -> bool {
    exists|level: i32| frame == #[trigger] zstd_frame(raw, level)
}

/// A name for what `zstd::stream::decode_all` makes of `frame`: the
/// decoded bytes, or `None` where it reports an error. A deterministic
/// function of the bytes.
pub uninterp spec fn zstd_decoded(frame: Seq<u8>) -> Option<Seq<u8>>;

/// Calls `zstd::stream::decode_all` on the bytes; the outcome is the named
/// decoding of the bytes. zstd is lossless, and the decoder's default window
/// limit admits every frame that `encode_all` writes: decoding such a frame
/// succeeds and gives back the data it was made from.
#[verifier::external_body]
fn zstd_decode_all(frame: &[u8]) -> (res: Result<Vec<u8>, std::io::Error>)
    ensures
        zstd_decoded(frame@) == (match res {
            Ok(v) => Some(v@),
            Err(_) => None::<Seq<u8>>,
        }),
        forall|raw: Seq<u8>, level: i32|
            frame@ == #[trigger] zstd_frame(raw, level) ==> res is Ok && res->Ok_0@ == raw,
{
    zstd::stream::decode_all(frame)
}

/// Decompresses a downloaded zstd stream: the result is its decoding, and a
/// compression error where the stream does not decode; a frame made from
/// some data gives back that data.
pub fn decompress(frame: &[u8]) -> (res: Result<Vec<u8>, CFileError>)
    ensures
        res is Err <==> zstd_decoded(frame@) is None,
        res matches Ok(v) ==> zstd_decoded(frame@) == Some(v@),
        forall|raw: Seq<u8>| #[trigger] is_frame_of(frame@, raw) ==> (res matches Ok(v) && v@ == raw),
        res matches Err(e) ==> e is Compression,
{
    match zstd_decode_all(frame) {
        Ok(v) => Ok(v),
        Err(e) => Err(CFileError::Compression(e)),
    }
}

/// A file compressed with zstd and split into chunks is, once its chunks are
/// joined again, the frame of the original data: `decompress` on it gives
/// that data back.
pub proof fn lemma_compressed_transfer(v: FileView, raw: Seq<u8>, level: i32)
    requires
        v.wf(),
        v.bytes == zstd_frame(raw, level),
    ensures
        is_frame_of(v.assembled(v.segments), raw),
{
    lemma_chunks_reassemble(v);
    assert(v.assembled(v.segments) == zstd_frame(raw, level));
}

/// A file hosted by a server, split into chunks.
pub struct CompressedFile {
    bytes: Vec<u8>,
    compressed: bool,
    segments: usize,
    chunk_size: usize,
    last_chunk_size: usize,
    name: String,
}

impl View for CompressedFile {
    type V = FileView;

    closed spec fn view(&self) -> FileView {
        FileView {
            bytes: self.bytes@,
            compressed: self.compressed,
            segments: self.segments as nat,
            name: self.name@,
        }
    }
}

impl CompressedFile {
    #[verifier::type_invariant]
    spec fn inv(self) -> bool {
        &&& self.segments > 0
        &&& self.chunk_size == self.bytes@.len() / (self.segments as nat)
        &&& self.last_chunk_size == self.chunk_size + self.bytes@.len() % (self.segments as nat)
    }

    /// Splits `bytes` into `segments` chunks; fails when `segments` is zero.
    pub fn from_bytes(bytes: Vec<u8>, compressed: bool, segments: usize, name: String) -> (res:
        Result<CompressedFile, CFileError>)
        ensures
            segments == 0 <==> res is Err,
            res matches Err(e) ==> e is ZeroSegments,
            res matches Ok(f) ==> f@ == (FileView {
                bytes: bytes@,
                compressed,
                segments: segments as nat,
                name: name@,
            }),
    {
        if segments == 0 {
            return Err(CFileError::ZeroSegments);
        }
        let len = bytes.len();
        let base = len / segments;
        let rem = len % segments;
        proof {
            lemma_fundamental_div_mod(len as int, segments as int);
            lemma_mul_nonnegative(segments as int, base as int);
            lemma_mul_inequality(1, segments as int, base as int);
            lemma_mul_basics(base as int);
            lemma_mul_is_commutative(segments as int, base as int);
        }
        let last = base + rem;
        Ok(CompressedFile { bytes, compressed, segments, chunk_size: base, last_chunk_size: last, name })
    }

    /// Builds a file as the server hosts it: split into 40 chunks, and
    /// compressed with zstd at level 6 first when `compressed`.
    pub fn hosted(bytes: Vec<u8>, name: String, compressed: bool) -> (res: Result<
        CompressedFile,
        CFileError,
    >)
        ensures
            res matches Ok(f) && f@ == (FileView {
                bytes: if compressed {
                    zstd_frame(bytes@, 6)
                } else {
                    bytes@
                },
                compressed,
                segments: 40,
                name: name@,
            }),
    {
        if compressed {
            CompressedFile::from_bytes_zstd(bytes, 40, name, 6)
        } else {
            CompressedFile::from_bytes(bytes, false, 40, name)
        }
    }

    /// Compresses `raw` with zstd at `level` and splits the frame into
    /// `segments` chunks.
    pub fn from_bytes_zstd(raw: Vec<u8>, segments: usize, name: String, level: i32) -> (res:
        Result<CompressedFile, CFileError>)
        ensures
            res matches Ok(f) ==> f@ == (FileView {
                bytes: zstd_frame(raw@, level),
                compressed: true,
                segments: segments as nat,
                name: name@,
            }),
            segments > 0 <==> res is Ok,
            res matches Err(e) ==> e is ZeroSegments,
    {
        if segments == 0 {
            return Err(CFileError::ZeroSegments);
        }
        match zstd_encode_all(raw.as_slice(), level) {
            Ok(frame) => CompressedFile::from_bytes(frame, true, segments, name),
            Err(e) => Err(CFileError::Compression(e)),
        }
    }

    /// The advertised name.
    pub fn name(&self) -> (res: &str)
        ensures
            res@ == self@.name,
    {
        self.name.as_str()
    }

    /// Whether the served bytes are a zstd frame.
    pub fn is_compressed(&self) -> (res: bool)
        ensures
            res == self@.compressed,
    {
        self.compressed
    }

    /// The flags word of the protocol: 1 for compressed, 0 otherwise.
    pub fn flags(&self) -> (res: u32)
        ensures
            res == self@.flags(),
    {
        if self.compressed {
            1
        } else {
            0
        }
    }

    /// The number of chunks, as sent on the wire (truncated to 32 bits).
    pub fn chunks(&self) -> (res: u32)
        ensures
            res == self@.segments as u32,
            self@.wf(),
    {
        proof {
            use_type_invariant(self);
        }
        self.segments as u32
    }

    /// The size of every chunk but the last (truncated to 32 bits).
    pub fn chunk_size(&self) -> (res: u32)
        ensures
            res == self@.chunk_size() as u32,
            self@.wf(),
    {
        proof {
            use_type_invariant(self);
        }
        self.chunk_size as u32
    }

    /// The size of the last chunk (truncated to 32 bits).
    pub fn last_chunk_size(&self) -> (res: u32)
        ensures
            res == self@.last_chunk_size() as u32,
            self@.wf(),
    {
        proof {
            use_type_invariant(self);
        }
        self.last_chunk_size as u32
    }

    /// The bytes of chunk `chunk`, or `None` past the last chunk.
    pub fn get_chunk(&self, chunk: u32) -> (res: Option<&[u8]>)
        ensures
            self@.wf(),
            res is None <==> chunk as nat >= self@.segments,
            res matches Some(s) ==> s@ == self@.chunk(chunk as int),
    {
        proof {
            use_type_invariant(self);
        }
        let c = chunk as usize;
        let total = self.bytes.len();
        if c >= self.segments {
            return None;
        }
        proof {
            lemma_chunk_bounds(self@, c as int);
            assert(self@.chunk_size() == self.chunk_size as nat);
            assert(self@.last_chunk_size() == self.last_chunk_size as nat);
            assert(self@.chunk_start(c as int) == self.chunk_size * c);
            assert(self@.bytes.len() == total);
        }
        let start = self.chunk_size * c;
        let end = if c + 1 == self.segments {
            start + self.last_chunk_size
        } else {
            start + self.chunk_size
        };
        let s = self.bytes.as_slice();
        Some(&s[start..end])
    }

    /// The number of bytes served.
    pub fn len(&self) -> (res: usize)
        ensures
            res == self@.bytes.len(),
    {
        self.bytes.len()
    }
}

} // verus!
