//! The server's side of a download: which file is asked for, the header
//! that describes it, and the chunks it serves.
use vstd::prelude::*;
use vstd::string::*;
use crate::cfile::{CompressedFile, FileView};
use crate::util::{is_fitting_prefix_len, padded_field, lossy_text, string_from_utf8_lossy, write_str_utf8};
use crate::wire::{be_bytes, push_be_u32, VERSION};

verus! {

/// Where the requested name ends inside the 256-byte request: at the first
/// zero byte, or after 255 bytes when there is none.
pub open spec fn name_end(buf: Seq<u8>) -> int {
    if exists|i: int| 0 <= i < buf.len() && buf[i] == 0u8 {
        choose|i: int|
            0 <= i < buf.len() && buf[i] == 0u8 && forall|j: int| 0 <= j < i ==> buf[j] != 0u8
    } else {
        255
    }
}

/// The name that a 256-byte request asks for, decoded leniently.
pub open spec fn requested_name_of(buf: Seq<u8>) -> Seq<char> {
    lossy_text(buf.subrange(0, name_end(buf)))
}

/// Decodes the file name that a client's 256-byte request carries.
pub fn requested_name(buf: &[u8]) -> (res: String)
    requires
        buf@.len() == 256,
    ensures
        res@ == requested_name_of(buf@),
{
    let mut i: usize = 0;
    while i < 256 && buf[i] != 0u8
        invariant
            i <= 256,
            buf@.len() == 256,
            forall|j: int| 0 <= j < i ==> buf@[j] != 0u8,
        decreases 256 - i,
    {
        i = i + 1;
    }
    let terminator: usize = if i < 256 {
        i
    } else {
        255
    };
    proof {
        let b = buf@;
        if i < 256 {
            let c = choose|k: int|
                0 <= k < b.len() && b[k] == 0u8 && forall|j: int| 0 <= j < k ==> b[j] != 0u8;
            assert(0 <= i < b.len() && b[i as int] == 0u8 && forall|j: int|
                0 <= j < i ==> b[j] != 0u8);
            assert(c == i as int) by {
                if c < i {
                    assert(b[c] != 0u8);
                } else if c > i {
                    assert(b[i as int] != 0u8);
                }
            }
        } else {
            assert(!(exists|k: int| 0 <= k < b.len() && b[k] == 0u8));
        }
    }
    string_from_utf8_lossy(&buf[0..terminator])
}

/// The index of the first hosted file named `name`.
pub fn find_file(files: &[CompressedFile], name: &String) -> (res: Option<usize>)
    ensures
        res is None <==> forall|i: int| 0 <= i < files@.len() ==> files@[i]@.name != name@,
        res matches Some(i) ==> i < files@.len() && files@[i as int]@.name == name@ && forall|
            j: int,
        | 0 <= j < i ==> files@[j]@.name != name@,
{
    let n = files.len();
    let mut i: usize = 0;
    while i < n
        invariant
            n == files@.len(),
            i <= n,
            forall|j: int| 0 <= j < i ==> files@[j]@.name != name@,
        decreases n - i,
    {
        let candidate = files[i].name();
        if str_eq(candidate, name.as_str()) {
            return Some(i);
        }
        i = i + 1;
    }
    None
}

/// Compares two string slices by their characters.
fn str_eq(a: &str, b: &str) -> (res: bool)
    ensures
        res == (a@ == b@),
{
    let x = a.to_owned();
    let y = b.to_owned();
    x == y
}

/// The text that reports a missing file.
pub open spec fn not_found_message(name: Seq<char>) -> Seq<char> {
    "File '"@ + name + "' not found"@
}

/// The reply to a request for a file that is not hosted: the word
/// `u32::MAX`, then the report as a 256-byte field.
pub open spec fn is_not_found_reply(name: Seq<char>, reply: Seq<u8>) -> bool {
    let msg = vstd::utf8::encode_utf8(not_found_message(name));
    exists|k: int|
        is_fitting_prefix_len(msg, 256, k) && reply == be_bytes(u32::MAX) + padded_field(msg, k)
}

/// Builds the reply to a request for a file named `name` that is not hosted.
pub fn not_found_reply(name: &str) -> (res: Vec<u8>)
    ensures
        is_not_found_reply(name@, res@),
{
    let mut msg = "File '".to_owned();
    msg.append(name);
    msg.append("' not found");
    let mut field = [0u8; 256];
    let k = write_str_utf8(&mut field, msg.as_str());
    let mut out: Vec<u8> = Vec::new();
    push_be_u32(&mut out, u32::MAX);
    let mut i: usize = 0;
    while i < 256
        invariant
            i <= 256,
            field@.len() == 256,
            out@ == be_bytes(u32::MAX) + field@.subrange(0, i as int),
        decreases 256 - i,
    {
        out.push(field[i]);
        proof {
            assert(field@.subrange(0, i + 1) =~= field@.subrange(0, i as int).push(field@[i as int]));
        }
        i = i + 1;
    }
    proof {
        assert(field@.subrange(0, 256) =~= field@);
        assert(msg@ == not_found_message(name@));
        assert(is_fitting_prefix_len(vstd::utf8::encode_utf8(not_found_message(name@)), 256, k as int));
    }
    out
}

/// The header that describes a file to the client: version, flags, number
/// of chunks, chunk size and last chunk size, each a big-endian word.
pub open spec fn header_bytes(v: FileView) -> Seq<u8> {
    be_bytes(VERSION) + be_bytes(v.flags()) + be_bytes(v.segments as u32) + be_bytes(
        v.chunk_size() as u32,
    ) + be_bytes(v.last_chunk_size() as u32)
}

/// Builds the header that describes `file` to the client.
pub fn file_header(file: &CompressedFile) -> (res: Vec<u8>)
    ensures
        res@ == header_bytes(file@),
{
    let mut out: Vec<u8> = Vec::new();
    push_be_u32(&mut out, VERSION);
    push_be_u32(&mut out, file.flags());
    push_be_u32(&mut out, file.chunks());
    push_be_u32(&mut out, file.chunk_size());
    push_be_u32(&mut out, file.last_chunk_size());
    out
}

/// The server's answer to a download request: the bytes to send, and the
/// index of the file whose chunks it then serves (none when not found).
pub struct NameLookup {
    /// Header or not-found report.
    pub reply: Vec<u8>,
    /// The file to serve.
    pub file: Option<usize>,
}

/// Answers the 256-byte download request `buf` against the hosted `files`.
pub fn upload_file(files: &[CompressedFile], buf: &[u8]) -> (res: NameLookup)
    requires
        buf@.len() == 256,
    ensures
        ({
            let name = requested_name_of(buf@);
            match res.file {
                Some(i) => {
                    &&& i < files@.len()
                    &&& files@[i as int]@.name == name
                    &&& forall|j: int| 0 <= j < i ==> files@[j]@.name != name
                    &&& res.reply@ == header_bytes(files@[i as int]@)
                },
                None => {
                    &&& forall|j: int| 0 <= j < files@.len() ==> files@[j]@.name != name
                    &&& is_not_found_reply(name, res.reply@)
                },
            }
        }),
{
    let name = requested_name(buf);
    match find_file(files, &name) {
        Some(i) => NameLookup { reply: file_header(&files[i]), file: Some(i) },
        None => NameLookup { reply: not_found_reply(name.as_str()), file: None },
    }
}

/// Why a chunk request was refused.
#[derive(Debug, Clone, Copy, PartialEq, Eq, Structural)]
pub enum UploadError {
    /// The requested chunk index is past the last chunk.
    InvalidChunk(u32),
}

/// The bytes of the requested chunk, or an error past the last chunk.
pub fn serve_chunk(file: &CompressedFile, chunk: u32) -> (res: Result<&[u8], UploadError>)
    ensures
        res is Err <==> chunk as nat >= file@.segments,
        res matches Err(e) ==> e == UploadError::InvalidChunk(chunk),
        res matches Ok(s) ==> s@ == file@.chunk(chunk as int),
{
    match file.get_chunk(chunk) {
        Some(s) => Ok(s),
        None => Err(UploadError::InvalidChunk(chunk)),
    }
}

} // verus!
