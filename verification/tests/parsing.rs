use std::io::Write;

use flate2::write::ZlibEncoder;
use flate2::Compression;

use wispet::bytes::{read_u32_be, read_u64_be, LzoFault, MdxError};
use wispet::cipher::{decrypt_key_block_info, mdict_keyword_index_decrypt_in_place};
use wispet::compress::{decompress_block, COMP_LZO, COMP_NONE, COMP_ZLIB};
use wispet::dict::decode_content;
use wispet::header::{parse_header_attr, parse_u8, utf16_le_lossy};
use wispet::text::trim_chars;
use wispet::keys::{parse_key_block, parse_key_block_info, KeyEntry};

fn block(comp_type: u32, payload: &[u8]) -> Vec<u8> {
    let mut v = comp_type.to_be_bytes().to_vec();
    v.extend_from_slice(&[0u8; 4]);
    v.extend_from_slice(payload);
    v
}

#[test]
fn stored_block_is_returned_as_is() {
    let data = block(COMP_NONE, b"plain bytes");
    assert_eq!(decompress_block(&data, 11).unwrap(), b"plain bytes".to_vec());
}

#[test]
fn zlib_block_is_inflated() {
    let mut enc = ZlibEncoder::new(Vec::new(), Compression::default());
    enc.write_all(b"hello hello hello").unwrap();
    let data = block(COMP_ZLIB, &enc.finish().unwrap());
    assert_eq!(decompress_block(&data, 17).unwrap(), b"hello hello hello".to_vec());
}

#[test]
fn corrupt_zlib_block_is_an_error() {
    let data = block(COMP_ZLIB, &[1, 2, 3, 4, 5]);
    assert!(matches!(decompress_block(&data, 5), Err(MdxError::ZlibFailed)));
}

#[test]
fn corrupt_lzo_block_is_an_error() {
    let data = block(COMP_LZO, &[0xff, 0xff, 0xff]);
    match decompress_block(&data, 64) {
        Err(MdxError::LzoFailed { fault }) => {
            assert!(fault == LzoFault::InvalidInput || fault == LzoFault::OutputLength)
        }
        other => panic!("unexpected {:?}", other),
    }
}

#[test]
fn short_and_unknown_blocks_are_errors() {
    assert!(matches!(
        decompress_block(&[0, 0, 0], 0),
        Err(MdxError::BlockTooShort { size: 3 })
    ));
    let data = block(0x0300_0000, b"xx");
    match decompress_block(&data, 2) {
        Err(e @ MdxError::UnsupportedCompression { comp_type: 0x0300_0000 }) => {
            assert_eq!(e.message(), "Unsupported MDX compression type: 0x03000000");
        }
        other => panic!("unexpected {:?}", other),
    }
    assert!(matches!(
        decompress_block(&block(COMP_NONE, b""), u64::MAX),
        Err(MdxError::SectionTooLarge { .. })
    ));
}

#[test]
fn big_endian_fields() {
    let data = [0x00, 0x00, 0x0a, 0xf8, 1, 2, 3, 4, 5, 6, 7, 8];
    assert_eq!(read_u32_be(&data, 0).unwrap(), 2808);
    assert_eq!(read_u64_be(&data, 4).unwrap(), 0x0102030405060708);
    assert!(matches!(read_u64_be(&data, 5), Err(MdxError::UnexpectedEof)));
}

fn kbi_entry(word: &str, comp: u64, decomp: u64) -> Vec<u8> {
    let units: Vec<u16> = word.encode_utf16().collect();
    let mut v = 1u64.to_be_bytes().to_vec();
    for _ in 0..2 {
        v.extend_from_slice(&(units.len() as u16).to_be_bytes());
        for u in &units {
            v.extend_from_slice(&u.to_le_bytes());
        }
        v.extend_from_slice(&[0, 0]);
    }
    v.extend_from_slice(&comp.to_be_bytes());
    v.extend_from_slice(&decomp.to_be_bytes());
    v
}

#[test]
fn key_block_info_lists_each_block() {
    let mut data = kbi_entry("apple", 30, 40);
    data.extend(kbi_entry("zoo", 7, 9));
    assert_eq!(parse_key_block_info(&data, 2).unwrap(), vec![(30, 40), (7, 9)]);
}

#[test]
fn key_block_info_truncations_are_reported() {
    let data = kbi_entry("apple", 30, 40);
    match parse_key_block_info(&data, 2) {
        Err(MdxError::KeyBlockInfoTruncated { expected: 2, parsed: 1 }) => {}
        other => panic!("unexpected {:?}", other),
    }
    assert!(matches!(parse_key_block_info(&data[..9], 1), Err(MdxError::FirstSizeTruncated)));
    match parse_key_block_info(&data[..14], 1) {
        Err(MdxError::FirstWordOverflow { span: 12, pos: 10, size: 14 }) => {}
        other => panic!("unexpected {:?}", other),
    }
    assert!(matches!(parse_key_block_info(&data[..23], 1), Err(MdxError::LastSizeTruncated)));
    assert!(matches!(
        parse_key_block_info(&data[..30], 1),
        Err(MdxError::LastWordOverflow { span: 12, pos: 24, size: 30 })
    ));
    assert!(matches!(
        parse_key_block_info(&data[..40], 1),
        Err(MdxError::BlockSizesTruncated)
    ));
}

#[test]
fn key_block_pairs_offsets_with_headwords() {
    let mut data = Vec::new();
    for (off, word) in [(0u64, "Alpha"), (17u64, "beta")] {
        data.extend_from_slice(&off.to_be_bytes());
        for u in word.encode_utf16() {
            data.extend_from_slice(&u.to_le_bytes());
        }
        data.extend_from_slice(&[0, 0]);
    }
    let mut index: Vec<KeyEntry> = Vec::new();
    parse_key_block(&data, &mut index);
    assert_eq!(index.len(), 2);
    assert_eq!(index[0].headword, "Alpha");
    assert_eq!(index[0].headword_lower, "alpha".chars().collect::<Vec<char>>());
    assert_eq!(index[0].record_start, 0);
    assert_eq!(index[1].headword, "beta");
    assert_eq!(index[1].record_start, 17);
}

#[test]
fn header_attributes_are_read_from_the_xml() {
    let header = "<Dictionary GeneratedByEngineVersion=\"2.0\" Encrypted=\"2\" Title=\"T\"/>";
    assert_eq!(parse_header_attr(header, "Encrypted").as_deref(), Some("2"));
    assert_eq!(parse_header_attr(header, "GeneratedByEngineVersion").as_deref(), Some("2.0"));
    assert_eq!(parse_header_attr(header, "Missing"), None);
}

#[test]
fn utf16_header_text_is_decoded() {
    let bytes: Vec<u8> = "Ab€".encode_utf16().flat_map(|u| u.to_le_bytes()).collect();
    assert_eq!(utf16_le_lossy(&bytes), "Ab€");
    assert_eq!(utf16_le_lossy(&[0x00, 0xd8, 0x41, 0x00]), "\u{FFFD}A");
}

#[test]
fn keyword_cipher_with_empty_key_changes_nothing() {
    let mut data = vec![1, 2, 3, 4];
    mdict_keyword_index_decrypt_in_place(&[], &mut data, 1);
    assert_eq!(data, vec![1, 2, 3, 4]);
}

#[test]
fn keyword_cipher_deciphers_from_the_start_offset() {
    let key = [0x10u8, 0x20];
    let mut data = vec![0xaa, 0x12, 0x34];
    mdict_keyword_index_decrypt_in_place(&key, &mut data, 1);
    let swap = |b: u8| (b >> 4) | (b << 4);
    let first = swap(0x12) ^ 0 ^ 0x10 ^ 0x36;
    let second = swap(0x34) ^ 1 ^ 0x20 ^ 0x12;
    assert_eq!(data, vec![0xaa, first, second]);
}

#[test]
fn short_encrypted_info_is_an_error() {
    match decrypt_key_block_info(&[1, 2, 3]) {
        Err(e @ MdxError::EncryptedInfoTooShort { size: 3 }) => {
            assert_eq!(
                e.message(),
                "Encrypted key block info is too short to contain a header (3 bytes)"
            );
        }
        other => panic!("unexpected {:?}", other),
    }
    let out = decrypt_key_block_info(&[1, 2, 3, 4, 5, 6, 7, 8]).unwrap();
    assert_eq!(out, vec![1, 2, 3, 4, 5, 6, 7, 8]);
}

#[test]
fn error_messages() {
    assert_eq!(MdxError::UnexpectedEof.message(), "failed to fill whole buffer");
    assert_eq!(
        MdxError::BlockTooShort { size: 5 }.message(),
        "MDX block too short to contain a compression header (5 bytes)"
    );
    assert_eq!(
        MdxError::KeyBlockInfoTruncated { expected: 4, parsed: 1 }.message(),
        "MDX key block info truncated: expected 4 blocks, ran out of data after 1"
    );
    assert_eq!(
        MdxError::FirstWordOverflow { span: 12, pos: 10, size: 14 }.message(),
        "MDX key block info: first_word span (12 bytes at offset 10) exceeds section length (14) — the section may not actually be encrypted the way this parser assumed, or the file is corrupt"
    );
    assert_eq!(
        MdxError::LastWordOverflow { span: 2, pos: 30, size: 31 }.message(),
        "MDX key block info: last_word span (2 bytes at offset 30) exceeds section length (31)"
    );
    assert_eq!(
        MdxError::LzoFailed { fault: LzoFault::OutputLength }.message(),
        "LZO decompression failed: OutputLength"
    );
    assert_eq!(
        MdxError::UnsupportedCompression { comp_type: 0xdeadbeef }.message(),
        "Unsupported MDX compression type: 0xDEADBEEF"
    );
    assert_eq!(
        MdxError::RecordNotFound { headword: "cat".into() }.message(),
        "Record not found in any block for entry: cat"
    );
    assert_eq!(
        MdxError::ResourceNotFound { name: "\\a.mp3".into() }.message(),
        "MDD resource not found in any block: \\a.mp3"
    );
}

fn chars(s: &str) -> Vec<char> {
    s.chars().collect()
}

#[test]
fn u8_fields_parse_like_std() {
    for text in ["0", "7", "+42", "255", "007", "256", "", "+", "-1", "1a", " 1", "999999"] {
        assert_eq!(parse_u8(&chars(text)), text.parse::<u8>().ok(), "{text:?}");
    }
}

#[test]
fn trimming_is_str_trim() {
    for text in ["", "  ", " a b ", "\u{3000}x\t\n", "x", "\u{85}y\u{2029}"] {
        assert_eq!(trim_chars(&chars(text)), chars(text.trim()), "{text:?}");
    }
}

#[test]
fn key_block_info_keeps_its_sizes_when_more_follows_or_fewer_are_read() {
    let mut data = kbi_entry("apple", 30, 40);
    data.extend(kbi_entry("zoo", 7, 9));
    let all = parse_key_block_info(&data, 2).unwrap();
    let mut longer = data.clone();
    longer.extend_from_slice(&[1, 2, 3, 4, 5]);
    assert_eq!(parse_key_block_info(&longer, 2).unwrap(), all);
    assert_eq!(parse_key_block_info(&data, 1).unwrap(), all[..1].to_vec());
    assert_eq!(parse_key_block_info(&data, 0).unwrap(), Vec::<(u64, u64)>::new());
}

#[test]
fn utf16_records_are_decoded_like_encoding_rs() {
    assert_eq!(decode_content(&[b'h', 0, b'i', 0]), "hi");
    assert_eq!(decode_content(&[b'h', 0, b'i', 0, 0x41]), "hi\u{FFFD}");
    assert_eq!(decode_content(&[b'h', 0, 0x00, 0xd8, 0x41]), "h\u{FFFD}");
    assert_eq!(decode_content(&[b'h', 0, 0x00, 0xdc, b'x', 0]), "h\u{FFFD}x");
    assert_eq!(decode_content(&[b'h', 0, 0x3d, 0xd8, 0x00, 0xde]), "h\u{1F600}");
    assert_eq!(decode_content(&[b'h', 0, 0, 0, 0, 0]), "h");
    assert_eq!(decode_content("héllo\0".as_bytes()), "héllo");
}
