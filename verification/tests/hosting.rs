use trent::cfile::{decompress, CFileError, CompressedFile};
use trent::client::getfiles::parse_bytes;
use trent::server::config::ServerData;
use trent::server::getfiles::get_files;
use trent::server::upload::{file_header, find_file, not_found_reply, requested_name, serve_chunk, upload_file, UploadError};
use trent::client::download::{download_path, download_request, FileHeader};

fn file(bytes: &[u8], compressed: bool, segments: usize, name: &str) -> CompressedFile {
    CompressedFile::from_bytes(bytes.to_vec(), compressed, segments, name.to_string()).unwrap()
}

#[test]
fn zero_segments_is_refused() {
    let r = CompressedFile::from_bytes(vec![1, 2, 3], false, 0, "x".to_string());
    assert!(matches!(r, Err(CFileError::ZeroSegments)));
    let r = CompressedFile::from_bytes_zstd(vec![1, 2, 3], 0, "x".to_string(), 3);
    assert!(matches!(r, Err(CFileError::ZeroSegments)));
}

#[test]
fn chunk_geometry() {
    let f = file(b"0123456789", false, 3, "digits");
    assert_eq!(f.chunks(), 3);
    assert_eq!(f.chunk_size(), 3);
    assert_eq!(f.last_chunk_size(), 4);
    assert_eq!(f.len(), 10);
    assert_eq!(f.name(), "digits");
    assert!(!f.is_compressed());
    assert_eq!(f.flags(), 0);
    assert_eq!(f.get_chunk(0), Some(&b"012"[..]));
    assert_eq!(f.get_chunk(1), Some(&b"345"[..]));
    assert_eq!(f.get_chunk(2), Some(&b"6789"[..]));
    assert_eq!(f.get_chunk(3), None);
}

#[test]
fn chunks_reassemble_file() {
    let data: Vec<u8> = (0..1000u32).map(|i| (i * 7 % 251) as u8).collect();
    let f = file(&data, false, 40, "big");
    let mut joined = Vec::new();
    for c in 0..f.chunks() {
        joined.extend_from_slice(f.get_chunk(c).unwrap());
    }
    assert_eq!(joined, data);
}

#[test]
fn more_chunks_than_bytes() {
    let f = file(b"abc", true, 5, "tiny");
    assert_eq!(f.chunk_size(), 0);
    assert_eq!(f.last_chunk_size(), 3);
    assert_eq!(f.flags(), 1);
    assert_eq!(f.get_chunk(0), Some(&b""[..]));
    assert_eq!(f.get_chunk(4), Some(&b"abc"[..]));
}

#[test]
fn compressed_file_holds_zstd_frame() {
    let raw: Vec<u8> = b"hello hello hello hello hello hello".to_vec();
    let f = CompressedFile::from_bytes_zstd(raw.clone(), 4, "greeting".to_string(), 6).unwrap();
    assert!(f.is_compressed());
    let mut frame = Vec::new();
    for c in 0..f.chunks() {
        frame.extend_from_slice(f.get_chunk(c).unwrap());
    }
    assert_ne!(frame, raw);
    assert_eq!(zstd::stream::decode_all(frame.as_slice()).unwrap(), raw);
}

#[test]
fn server_listing_and_reply() {
    let data = ServerData::from_files(vec![file(b"xyz", false, 1, "dogdog"), file(b"q", true, 1, "video")]);
    let mut expected = b"dogdog\0".to_vec();
    expected.extend_from_slice(&[0, 0, 0, 0]);
    expected.extend_from_slice(b"video\0");
    expected.extend_from_slice(&[0, 0, 0, 1]);
    assert_eq!(data.file_information(), &expected[..]);
    assert_eq!(data.get_files().len(), 2);
    assert_eq!(data.get_files()[1].name(), "video");
    let reply = get_files(&data);
    assert_eq!(&reply[..4], &[0, 0, 0, 21]);
    assert_eq!(&reply[4..], &expected[..]);
    assert_eq!(parse_bytes(&reply[4..]), "[*] dogdog: Uncompressed\n[*] video: Compressed\n");
}

#[test]
fn empty_server_listing() {
    let data = ServerData::from_files(Vec::new());
    assert!(data.file_information().is_empty());
    assert_eq!(get_files(&data), vec![0, 0, 0, 0]);
}

#[test]
fn requested_names() {
    let mut buf = vec![0u8; 256];
    buf[..5].copy_from_slice(b"video");
    assert_eq!(requested_name(&buf), "video");
    let full = vec![b'n'; 256];
    assert_eq!(requested_name(&full), "n".repeat(255));
    let mut bad = vec![0u8; 256];
    bad[0] = 0xff;
    assert_eq!(requested_name(&bad), "\u{fffd}");
}

#[test]
fn finding_files() {
    let files = vec![file(b"1", false, 1, "a"), file(b"2", false, 1, "b"), file(b"3", false, 1, "b")];
    assert_eq!(find_file(&files, &"b".to_string()), Some(1));
    assert_eq!(find_file(&files, &"a".to_string()), Some(0));
    assert_eq!(find_file(&files, &"c".to_string()), None);
}

#[test]
fn header_for_file() {
    let f = file(b"0123456789", true, 3, "digits");
    let h = file_header(&f);
    assert_eq!(h, vec![0, 0, 0, 0, 0, 0, 0, 1, 0, 0, 0, 3, 0, 0, 0, 3, 0, 0, 0, 4]);
    let read = FileHeader::read(&h[4..]);
    assert_eq!(read, FileHeader { flags: 1, chunks: 3, chunk_size: 3, last_chunk_size: 4 });
}

#[test]
fn not_found_report() {
    let r = not_found_reply("nope");
    assert_eq!(r.len(), 260);
    assert_eq!(&r[..4], &[0xff, 0xff, 0xff, 0xff]);
    let msg = b"File 'nope' not found";
    assert_eq!(&r[4..4 + msg.len()], &msg[..]);
    assert!(r[4 + msg.len()..].iter().all(|b| *b == 0));
}

#[test]
fn upload_lookup() {
    let files = vec![file(b"0123456789", false, 3, "digits"), file(b"zz", true, 1, "video")];
    let found = upload_file(&files, &download_request("video"));
    assert_eq!(found.file, Some(1));
    assert_eq!(found.reply, file_header(&files[1]));
    let missing = upload_file(&files, &download_request("other"));
    assert_eq!(missing.file, None);
    assert_eq!(missing.reply, not_found_reply("other"));
}

#[test]
fn serving_chunks() {
    let f = file(b"0123456789", false, 3, "digits");
    assert_eq!(serve_chunk(&f, 1), Ok(&b"345"[..]));
    assert_eq!(serve_chunk(&f, 2), Ok(&b"6789"[..]));
    assert_eq!(serve_chunk(&f, 3), Err(UploadError::InvalidChunk(3)));
}

#[test]
fn compressed_download_roundtrip() {
    let raw: Vec<u8> = (0..5000u32).map(|i| (i % 13) as u8).collect();
    let f = CompressedFile::from_bytes_zstd(raw.clone(), 40, "data".to_string(), 6).unwrap();
    let header = FileHeader::read(&file_header(&f)[4..]);
    assert!(header.is_compressed());
    let mut frame = Vec::new();
    for c in 0..header.chunks {
        let chunk = serve_chunk(&f, c).unwrap();
        assert_eq!(chunk.len() as u32, header.chunk_read_len(c));
        frame.extend_from_slice(chunk);
    }
    assert_eq!(decompress(&frame).unwrap(), raw);
    assert!(matches!(decompress(b"not a frame"), Err(CFileError::Compression(_))));
}

#[test]
fn compressing_one_segment_succeeds() {
    let f = CompressedFile::from_bytes_zstd(vec![1, 2, 3], 1, "abc".to_string(), 3).unwrap();
    assert_eq!(f.name(), "abc");
    assert!(f.is_compressed());
    let frame = serve_chunk(&f, 0).unwrap().to_vec();
    assert_eq!(decompress(&frame).unwrap(), vec![1, 2, 3]);
}

#[test]
fn download_paths() {
    let plain = FileHeader::read(&file_header(&file(b"0123456789", false, 3, "digits"))[4..]);
    assert_eq!(download_path(&plain, "out.bin"), "out.bin");
    let packed = CompressedFile::from_bytes_zstd(b"0123456789".to_vec(), 2, "digits".to_string(), 3).unwrap();
    let packed = FileHeader::read(&file_header(&packed)[4..]);
    assert_eq!(download_path(&packed, "out.bin"), "out.bin.trent");
}

#[test]
fn hosted_files_use_forty_chunks() {
    let raw: Vec<u8> = (0..1000u32).map(|i| (i % 7) as u8).collect();
    let plain = CompressedFile::hosted(raw.clone(), "plain".to_string(), false).unwrap();
    assert_eq!(plain.chunks(), 40);
    assert!(!plain.is_compressed());
    assert_eq!(plain.len(), 1000);
    let packed = CompressedFile::hosted(raw.clone(), "packed".to_string(), true).unwrap();
    assert_eq!(packed.chunks(), 40);
    assert!(packed.is_compressed());
    assert_eq!(packed.name(), "packed");
    let mut frame = Vec::new();
    for c in 0..packed.chunks() {
        frame.extend_from_slice(serve_chunk(&packed, c).unwrap());
    }
    assert_eq!(frame, zstd::stream::encode_all(&raw[..], 6).unwrap());
    assert_eq!(decompress(&frame).unwrap(), raw);
}
