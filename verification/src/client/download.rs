//! The client's side of a download: the request, the file header it reads
//! back, and the sizes of the chunks it then asks for.
use vstd::prelude::*;
use vstd::string::*;
use vstd::utf8::*;
use crate::cfile::{lemma_chunk_bounds, FileView};
use crate::server::upload::{header_bytes, name_end, requested_name_of};
use crate::util::{is_fitting_prefix_len, padded_field, write_str_utf8};
use crate::wire::{be_bytes, be_value, lemma_be_roundtrip, u32_from_be_bytes, VERSION};

verus! {

/// The description of a file that a server sends before its chunks.
#[derive(Debug, Clone, Copy, PartialEq, Eq, Structural)]
pub struct FileHeader {
    /// Bit 0 set when the chunks form a zstd frame.
    pub flags: u32,
    /// Number of chunks.
    pub chunks: u32,
    /// Size of every chunk but the last.
    pub chunk_size: u32,
    /// Size of the last chunk.
    pub last_chunk_size: u32,
}

/// Why a download cannot go on.
#[derive(Debug, Clone, Copy, PartialEq, Eq, Structural)]
pub enum DownloadError {
    /// The server answered with another version word (or with the
    /// not-found word `u32::MAX`).
    UnsupportedVersion(u32),
}

impl DownloadError {
    /// The message reported for this error.
    pub fn message(&self) -> (res: &'static str)
        ensures
            res@ == "Server version unsupported"@,
    {
        "Server version unsupported"
    }
}

/// A download request for `name`: the longest whole-character prefix of
/// its UTF-8 bytes that fits, in a zero-padded 256-byte field.
pub open spec fn is_download_request(name: Seq<char>, req: Seq<u8>) -> bool {
    exists|k: int|
        is_fitting_prefix_len(encode_utf8(name), 256, k) && req == padded_field(
            encode_utf8(name),
            k,
        )
}

/// Builds the 256-byte request for the file `name`.
pub fn download_request(name: &str) -> (res: Vec<u8>)
    ensures
        is_download_request(name@, res@),
        res@.len() == 256,
{
    let mut field = [0u8; 256];
    let k = write_str_utf8(&mut field, name);
    let mut out: Vec<u8> = Vec::new();
    let mut i: usize = 0;
    while i < 256
        invariant
            i <= 256,
            field@.len() == 256,
            out@ == field@.subrange(0, i as int),
        decreases 256 - i,
    {
        out.push(field[i]);
        proof {
            assert(field@.subrange(0, i + 1) =~= field@.subrange(0, i as int).push(field@[i as int]));
        }
        i = i + 1;
    }
    proof {
        assert(field@.subrange(0, 256) =~= field@);
        assert(is_fitting_prefix_len(encode_utf8(name@), 256, k as int));
    }
    out
}

/// Accepts the server's version word only when it is this protocol's.
pub fn check_version(version: u32) -> (res: Result<(), DownloadError>)
    ensures
        res is Ok <==> version == VERSION,
        res matches Err(e) ==> e == DownloadError::UnsupportedVersion(version),
{
    if version != VERSION {
        Err(DownloadError::UnsupportedVersion(version))
    } else {
        Ok(())
    }
}

/// The header that the four big-endian words at the front of `b` describe.
pub open spec fn header_of(b: Seq<u8>) -> FileHeader {
    FileHeader {
        flags: be_value(b.subrange(0, 4)),
        chunks: be_value(b.subrange(4, 8)),
        chunk_size: be_value(b.subrange(8, 12)),
        last_chunk_size: be_value(b.subrange(12, 16)),
    }
}

impl FileHeader {
    /// Reads a header from the 16 bytes that follow the version word.
    pub fn read(b: &[u8]) -> (res: FileHeader)
        requires
            b@.len() >= 16,
        ensures
            res == header_of(b@),
    {
        FileHeader {
            flags: u32_from_be_bytes(b, 0),
            chunks: u32_from_be_bytes(b, 4),
            chunk_size: u32_from_be_bytes(b, 8),
            last_chunk_size: u32_from_be_bytes(b, 12),
        }
    }

    /// Whether the file comes as a zstd frame (bit 0 of the flags).
    pub fn is_compressed(&self) -> (res: bool)
        ensures
            res == (self.flags & 1u32 == 1u32),
    {
        self.flags & 1u32 == 1u32
    }

    /// The size of chunk `c`: the last chunk has its own size.
    pub open spec fn chunk_len(self, c: int) -> u32 {
        if c == self.chunks - 1 {
            self.last_chunk_size
        } else {
            self.chunk_size
        }
    }

    /// The number of bytes to read for chunk `c`.
    pub fn chunk_read_len(&self, c: u32) -> (res: u32)
        requires
            c < self.chunks,
        ensures
            res == self.chunk_len(c as int),
    {
        if c == self.chunks - 1 {
            self.last_chunk_size
        } else {
            self.chunk_size
        }
    }

    /// The size of a buffer that holds any chunk.
    pub fn buffer_len(&self) -> (res: u32)
        ensures
            res >= self.chunk_size,
            res >= self.last_chunk_size,
            res == self.chunk_size || res == self.last_chunk_size,
    {
        if self.chunk_size < self.last_chunk_size {
            self.last_chunk_size
        } else {
            self.chunk_size
        }
    }
}

/// Where the compressed chunks are stored before decompression.
pub fn compressed_path(save_name: &str) -> (res: String)
    ensures
        res@ == save_name@ + ".trent"@,
{
    let mut p = save_name.to_owned();
    p.append(".trent");
    p
}

/// Where the chunks of a download are written: beside `save_name`, to be
/// decompressed into it, when the file comes compressed; `save_name` itself
/// otherwise.
pub fn download_path(header: &FileHeader, save_name: &str) -> (res: String)
    ensures
        res@ == (if header.flags & 1u32 == 1u32 {
            save_name@ + ".trent"@
        } else {
            save_name@
        }),
{
    if header.is_compressed() {
        compressed_path(save_name)
    } else {
        save_name.to_owned()
    }
}

/// A server reading a client's download request for `name` decodes exactly
/// `name`, when its UTF-8 form is at most 255 bytes and holds no zero byte.
pub proof fn lemma_request_names_file(name: Seq<char>, req: Seq<u8>)
    requires
        is_download_request(name, req),
        encode_utf8(name).len() <= 255,
        !encode_utf8(name).contains(0u8),
    ensures
        requested_name_of(req) == name,
{
    let bytes = encode_utf8(name);
    let n = bytes.len() as int;
    let k = choose|k: int|
        is_fitting_prefix_len(bytes, 256, k) && req == padded_field(bytes, k);
    encode_utf8_valid_utf8(name);
    is_char_boundary_start_end_of_seq(bytes);
    assert(k == n);
    assert forall|j: int| 0 <= j < n implies req[j] != 0u8 by {
        assert(req[j] == bytes[j]);
        if req[j] == 0u8 {
            assert(bytes.contains(0u8));
        }
    }
    assert(req[n] == 0u8);
    let c = choose|i: int|
        0 <= i < req.len() && req[i] == 0u8 && forall|j: int| 0 <= j < i ==> req[j] != 0u8;
    assert(0 <= n < req.len() && req[n] == 0u8 && forall|j: int| 0 <= j < n ==> req[j] != 0u8);
    assert(c == n) by {
        if c < n {
            assert(req[c] != 0u8);
        } else if c > n {
            assert(req[n] != 0u8);
        }
    }
    assert(name_end(req) == n);
    assert(req.subrange(0, n) =~= bytes);
    encode_utf8_decode_utf8(name);
}

/// A client reading the header a server sends for a file gets this
/// protocol's version, the file's flags and chunk geometry, asks for chunk
/// sizes that are exactly the sizes of the file's chunks, and — laying the
/// chunks end to end — gets back exactly the file's bytes. This holds when
/// the geometry fits the 32-bit words of the header.
pub proof fn lemma_header_describes_chunks(v: FileView)
    requires
        v.wf(),
        v.segments <= u32::MAX,
        v.bytes.len() <= u32::MAX,
    ensures
        ({
            let h = header_bytes(v);
            let header = header_of(h.subrange(4, 20));
            &&& h.len() == 20
            &&& be_value(h.subrange(0, 4)) == VERSION
            &&& header.flags == v.flags()
            &&& (header.flags & 1u32 == 1u32) == v.compressed
            &&& header.chunks == v.segments
            &&& forall|c: int| 0 <= c < v.segments ==> #[trigger] header.chunk_len(c) == v.chunk(c).len()
            &&& v.assembled(v.segments) == v.bytes
        }),
{
    let h = header_bytes(v);
    lemma_be_roundtrip(VERSION);
    lemma_be_roundtrip(v.flags());
    lemma_be_roundtrip(v.segments as u32);
    lemma_be_roundtrip(v.chunk_size() as u32);
    lemma_be_roundtrip(v.last_chunk_size() as u32);
    let rest = h.subrange(4, 20);
    assert(h.subrange(0, 4) =~= be_bytes(VERSION));
    assert(rest.subrange(0, 4) =~= be_bytes(v.flags()));
    assert(rest.subrange(4, 8) =~= be_bytes(v.segments as u32));
    assert(rest.subrange(8, 12) =~= be_bytes(v.chunk_size() as u32));
    assert(rest.subrange(12, 16) =~= be_bytes(v.last_chunk_size() as u32));
    let header = header_of(rest);
    lemma_chunk_bounds(v, v.segments - 1);
    assert(v.last_chunk_size() <= v.bytes.len());
    assert(v.chunk_size() <= v.last_chunk_size());
    assert forall|c: int| 0 <= c < v.segments implies #[trigger] header.chunk_len(c) == v.chunk(
        c,
    ).len() by {
        lemma_chunk_bounds(v, c);
    }
    assert(1u32 & 1u32 == 1u32) by (bit_vector);
    assert(0u32 & 1u32 == 0u32) by (bit_vector);
    crate::cfile::lemma_chunks_reassemble(v);
}

} // verus!
