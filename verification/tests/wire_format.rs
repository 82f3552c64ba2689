use trent::client::download::{check_version, compressed_path, download_request, DownloadError, FileHeader};
use trent::client::getfiles::{listing_is_well_formed, parse_bytes};
use trent::client::isalive::{is_alive as client_is_alive, AliveError};
use trent::client::standard::{route_header, ClientRoute};
use trent::server::isalive::{is_alive as server_is_alive, ALIVE_TOKEN};
use trent::server::standard::{check_version as server_check_version, route, route_action, RouteError, ServerRoute};
use trent::util::{read_str_utf8, write_str_utf8};
use trent::wire::{push_be_u32, u32_from_be_bytes, u32_to_be_bytes, VERSION};

#[test]
fn be_bytes_of_alive_token() {
    assert_eq!(u32_to_be_bytes(80085), vec![0x00, 0x01, 0x38, 0xd5]);
    assert_eq!(u32_from_be_bytes(&[9, 0x00, 0x01, 0x38, 0xd5], 1), 80085);
    let mut out = vec![7u8];
    push_be_u32(&mut out, 0x01020304);
    assert_eq!(out, vec![7, 1, 2, 3, 4]);
}

#[test]
fn write_short_ascii_field() {
    let mut buf = [0xffu8; 256];
    let len = write_str_utf8(&mut buf, "dogdog");
    assert_eq!(len, 6);
    assert_eq!(&buf[..6], b"dogdog");
    assert!(buf[6..].iter().all(|b| *b == 0));
}

#[test]
fn write_long_text_stops_on_char_boundary() {
    // 85 three-byte characters fill 255 bytes; the 86th would reach 258.
    let s = "\u{9ed1}".repeat(100);
    let mut buf = [1u8; 256];
    let len = write_str_utf8(&mut buf, &s);
    assert_eq!(len, 255);
    assert_eq!(&buf[..255], &s.as_bytes()[..255]);
    assert_eq!(buf[255], 0);
}

#[test]
fn write_exactly_full_field() {
    let s = "a".repeat(300);
    let mut buf = [1u8; 256];
    assert_eq!(write_str_utf8(&mut buf, &s), 256);
    assert!(buf.iter().all(|b| *b == b'a'));
}

#[test]
fn read_back_written_field() {
    let mut buf = [0u8; 256];
    write_str_utf8(&mut buf, "héllo wörld");
    assert_eq!(read_str_utf8(&buf), "héllo wörld");
}

#[test]
fn read_field_without_terminator() {
    let buf = [b'z'; 256];
    assert_eq!(read_str_utf8(&buf), "z".repeat(256));
}

#[test]
fn read_invalid_field() {
    let mut buf = [0u8; 256];
    buf[0] = 0xc3;
    buf[1] = 0x28;
    assert_eq!(read_str_utf8(&buf), "Invalid UTF-8");
}

#[test]
fn route_headers() {
    let d = ClientRoute::DownloadFile { name: "a".to_string(), save_name: "b".to_string() };
    assert_eq!(d.action_code(), 0);
    assert_eq!(route_header(&d), vec![0, 0, 0, 0, 0, 0, 0, 0]);
    assert_eq!(route_header(&ClientRoute::GetFiles), vec![0, 0, 0, 0, 0, 0, 0, 1]);
    assert_eq!(route_header(&ClientRoute::IsAlive), vec![0, 0, 0, 0, 0, 0, 0, 2]);
}

#[test]
fn routing() {
    assert_eq!(route(VERSION, 0), Ok(ServerRoute::Upload));
    assert_eq!(route(0, 1), Ok(ServerRoute::GetFiles));
    assert_eq!(route(0, 2), Ok(ServerRoute::IsAlive));
    assert_eq!(route(0, 3), Ok(ServerRoute::Unknown));
    assert_eq!(route(1, 0), Err(RouteError::UnsupportedVersion));
    assert_eq!(server_check_version(5), Err(RouteError::UnsupportedVersion));
    assert_eq!(route_action(u32::MAX), ServerRoute::Unknown);
    assert_eq!(RouteError::UnsupportedVersion.message(), "Unsupported client version!");
}

#[test]
fn alive_handshake() {
    assert_eq!(ALIVE_TOKEN, 80085);
    let reply = server_is_alive();
    let word = u32_from_be_bytes(&reply, 0);
    assert_eq!(client_is_alive(word), Ok(()));
    assert_eq!(client_is_alive(80086), Err(AliveError::WrongToken(80086)));
}

#[test]
fn listing_text() {
    let mut bytes = b"dogdog".to_vec();
    bytes.push(0);
    bytes.extend_from_slice(&[0, 0, 0, 0]);
    bytes.extend_from_slice(b"video");
    bytes.push(0);
    bytes.extend_from_slice(&[0, 0, 0, 1]);
    assert_eq!(parse_bytes(&bytes), "[*] dogdog: Uncompressed\n[*] video: Compressed\n");
}

#[test]
fn listing_text_ignores_trailing_partial_name() {
    let mut bytes = b"a".to_vec();
    bytes.extend_from_slice(&[0, 0, 0, 0, 3]);
    bytes.extend_from_slice(b"tail");
    assert_eq!(parse_bytes(&bytes), "[*] a: Compressed\n");
    assert_eq!(parse_bytes(&[]), "");
}

#[test]
fn listing_text_with_invalid_utf8_name() {
    let bytes = vec![0xff, 0, 0, 0, 0, 0];
    assert_eq!(parse_bytes(&bytes), "[*] \u{fffd}: Uncompressed\n");
}

#[test]
fn download_request_field() {
    let req = download_request("video");
    assert_eq!(req.len(), 256);
    assert_eq!(&req[..5], b"video");
    assert!(req[5..].iter().all(|b| *b == 0));
}

#[test]
fn download_header_reading() {
    assert_eq!(check_version(0), Ok(()));
    assert_eq!(check_version(u32::MAX), Err(DownloadError::UnsupportedVersion(u32::MAX)));
    assert_eq!(DownloadError::UnsupportedVersion(3).message(), "Server version unsupported");
    let bytes = [0, 0, 0, 1, 0, 0, 0, 40, 0, 0, 1, 0, 0, 0, 1, 7];
    let h = FileHeader::read(&bytes);
    assert_eq!(h, FileHeader { flags: 1, chunks: 40, chunk_size: 256, last_chunk_size: 263 });
    assert!(h.is_compressed());
    assert_eq!(h.chunk_read_len(0), 256);
    assert_eq!(h.chunk_read_len(38), 256);
    assert_eq!(h.chunk_read_len(39), 263);
    assert_eq!(h.buffer_len(), 263);
    let plain = FileHeader { flags: 2, chunks: 1, chunk_size: 9, last_chunk_size: 4 };
    assert!(!plain.is_compressed());
    assert_eq!(plain.buffer_len(), 9);
    assert_eq!(compressed_path("out.mp4"), "out.mp4.trent");
}

#[test]
fn listing_well_formedness() {
    assert!(listing_is_well_formed(&[]));
    assert!(listing_is_well_formed(b"no terminator"));
    assert!(listing_is_well_formed(&[b'a', 0, 0, 0, 0, 1, b'b']));
    assert!(!listing_is_well_formed(&[b'a', 0, 0, 0, 1]));
    assert!(!listing_is_well_formed(&[b'a', 0, 0, 0, 0, 1, 0, 1]));
}
