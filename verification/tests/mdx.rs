use std::io::Read;
use std::io::Write;

use flate2::read::ZlibDecoder;
use flate2::write::ZlibEncoder;
use flate2::Compression;
use ripemd::{Digest, Ripemd128};

use wispet::bytes::{checked_len, MdxError, MAX_SECTION_BYTES};
use wispet::compress::COMP_ZLIB;
use wispet::dict::{MddDict, MdxDict};
use wispet::header::read_header;
use wispet::provider::{mdx_lookup, ResultKind};

fn zlib_compress(data: &[u8]) -> Vec<u8> {
    let mut encoder = ZlibEncoder::new(Vec::new(), Compression::default());
    encoder.write_all(data).unwrap();
    encoder.finish().unwrap()
}

fn kbi_wrapped_decomp_len(kbi_wrapped: &[u8]) -> usize {
    let decoder_payload = &kbi_wrapped[8..];
    let mut decoder = ZlibDecoder::new(decoder_payload);
    let mut out = Vec::new();
    decoder.read_to_end(&mut out).unwrap();
    out.len()
}

/// The keyword-index encryption that real dictionaries apply to the
/// key-block-info section (the forward direction of the cipher).
fn encrypt_key_block_info_for_test(data: &[u8]) -> Vec<u8> {
    let mut key_material = [0u8; 8];
    key_material[0..4].copy_from_slice(&data[4..8]);
    key_material[4..8].copy_from_slice(&[0x95, 0x36, 0x00, 0x00]);
    let key = Ripemd128::digest(key_material);

    let mut out = data.to_vec();
    let mut previous: u8 = 0x36;
    for (i, byte) in out[8..].iter_mut().enumerate() {
        let plain_byte = *byte;
        let x = plain_byte ^ (i as u8) ^ key[i % key.len()] ^ previous;
        let cipher_byte = (x >> 4) | (x << 4);
        previous = cipher_byte;
        *byte = cipher_byte;
    }
    out
}

fn utf16_le(s: &str) -> Vec<u8> {
    s.encode_utf16().flat_map(|u| u.to_le_bytes()).collect()
}

fn zlib_block(plain: &[u8]) -> Vec<u8> {
    let mut wrapped = Vec::new();
    wrapped.extend_from_slice(&COMP_ZLIB.to_be_bytes());
    wrapped.extend_from_slice(&[0u8; 4]);
    wrapped.extend_from_slice(&zlib_compress(plain));
    wrapped
}

/// A minimal, well-formed MDict v2.0 container with one entry whose record
/// is `record`.
fn build_synthetic(encrypted: bool, version: &str, headword: &str, record: &[u8]) -> Vec<u8> {
    build_synthetic_many(encrypted, version, &[(headword, record)])
}

/// A well-formed MDict v2.0 container with one key block holding the
/// entries in the given order, and one record block holding their records
/// one after the other.
fn build_synthetic_many(encrypted: bool, version: &str, entries: &[(&str, &[u8])]) -> Vec<u8> {
    let encrypted_attr = if encrypted { "2" } else { "0" };
    let header_xml = format!(
        "<Dictionary GeneratedByEngineVersion=\"{version}\" RequiredEngineVersion=\"2.0\" \
         Encrypted=\"{encrypted_attr}\" Format=\"Html\" Encoding=\"UTF-8\"/>\r\n"
    );
    let mut header_utf16 = utf16_le(&header_xml);
    header_utf16.extend_from_slice(&0u16.to_le_bytes());

    let mut out = Vec::new();
    out.extend_from_slice(&(header_utf16.len() as u32).to_be_bytes());
    out.extend_from_slice(&header_utf16);
    out.extend_from_slice(&[0u8; 4]);

    let mut key_block_plain = Vec::new();
    let mut record_plain = Vec::new();
    for (headword, record) in entries {
        key_block_plain.extend_from_slice(&(record_plain.len() as u64).to_be_bytes());
        key_block_plain.extend(utf16_le(headword));
        key_block_plain.extend_from_slice(&0u16.to_le_bytes());
        record_plain.extend_from_slice(record);
    }
    let key_block_wrapped = zlib_block(&key_block_plain);

    let mut kbi_plain = Vec::new();
    kbi_plain.extend_from_slice(&(entries.len() as u64).to_be_bytes());
    for word in [entries[0].0, entries[entries.len() - 1].0] {
        let units: Vec<u16> = word.encode_utf16().collect();
        kbi_plain.extend_from_slice(&(units.len() as u16).to_be_bytes());
        for u in &units {
            kbi_plain.extend_from_slice(&u.to_le_bytes());
        }
        kbi_plain.extend_from_slice(&0u16.to_le_bytes());
    }
    kbi_plain.extend_from_slice(&(key_block_wrapped.len() as u64).to_be_bytes());
    kbi_plain.extend_from_slice(&(key_block_plain.len() as u64).to_be_bytes());
    let kbi_wrapped = zlib_block(&kbi_plain);
    let kbi_final = if encrypted {
        encrypt_key_block_info_for_test(&kbi_wrapped)
    } else {
        kbi_wrapped.clone()
    };

    out.extend_from_slice(&1u64.to_be_bytes());
    out.extend_from_slice(&(entries.len() as u64).to_be_bytes());
    out.extend_from_slice(&(kbi_wrapped_decomp_len(&kbi_wrapped) as u64).to_be_bytes());
    out.extend_from_slice(&(kbi_final.len() as u64).to_be_bytes());
    out.extend_from_slice(&(key_block_wrapped.len() as u64).to_be_bytes());
    out.extend_from_slice(&[0u8; 4]);
    out.extend_from_slice(&kbi_final);
    out.extend_from_slice(&key_block_wrapped);

    let record_wrapped = zlib_block(&record_plain);
    out.extend_from_slice(&1u64.to_be_bytes());
    out.extend_from_slice(&(entries.len() as u64).to_be_bytes());
    out.extend_from_slice(&8u64.to_be_bytes());
    out.extend_from_slice(&(record_wrapped.len() as u64).to_be_bytes());
    out.extend_from_slice(&(record_wrapped.len() as u64).to_be_bytes());
    out.extend_from_slice(&(record_plain.len() as u64).to_be_bytes());
    out.extend_from_slice(&record_wrapped);
    out
}

fn build_synthetic_mdx(encrypted: bool, headword: &str, html: &str) -> Vec<u8> {
    build_synthetic(encrypted, "2.0", headword, html.as_bytes())
}

#[test]
fn header_len_is_read_as_big_endian() {
    let bytes = build_synthetic_mdx(false, "hello", "<b>hi</b>");
    let declared_be = u32::from_be_bytes(bytes[0..4].try_into().unwrap());
    assert!(declared_be < 10_000, "header_len should be small, got {declared_be}");
}

#[test]
fn parses_unencrypted_synthetic_dictionary() {
    let bytes = build_synthetic_mdx(false, "hello", "<b>hi there</b>");
    let dict = MdxDict::from_bytes(bytes).expect("unencrypted MDX should parse");
    let html = dict.lookup_exact("hello").unwrap();
    assert_eq!(html.as_deref(), Some("<b>hi there</b>"));
}

#[test]
fn parses_encrypted_synthetic_dictionary() {
    let bytes = build_synthetic_mdx(true, "hello", "<b>hi there</b>");
    let dict = MdxDict::from_bytes(bytes).expect("encrypted MDX should parse");
    let html = dict.lookup_exact("hello").unwrap();
    assert_eq!(html.as_deref(), Some("<b>hi there</b>"));
}

#[test]
fn lookup_is_case_insensitive_and_missing_word_returns_none() {
    let bytes = build_synthetic_mdx(true, "Hello", "<b>hi</b>");
    let dict = MdxDict::from_bytes(bytes).unwrap();
    assert!(dict.lookup_exact("HELLO").unwrap().is_some());
    assert!(dict.lookup_exact("goodbye").unwrap().is_none());
}

#[test]
fn implausible_length_field_fails_fast_instead_of_allocating() {
    let err = checked_len("test_field", 50 * 1024 * 1024 * 1024).unwrap_err();
    assert!(err.message().contains("implausibly large"));
}

#[test]
fn checked_len_accepts_the_limit_and_names_the_field() {
    assert_eq!(checked_len("x", MAX_SECTION_BYTES).unwrap(), MAX_SECTION_BYTES as usize);
    let err = checked_len("key_index_comp_size", MAX_SECTION_BYTES + 1).unwrap_err();
    match &err {
        MdxError::SectionTooLarge { label, len } => {
            assert_eq!(label, "key_index_comp_size");
            assert_eq!(*len, MAX_SECTION_BYTES + 1);
        }
        other => panic!("unexpected error {:?}", other),
    }
    assert_eq!(
        err.message(),
        "MDX key_index_comp_size field is implausibly large (536870913 bytes) — file is corrupt or its format differs from what this parser expects"
    );
}

#[test]
fn lookup_ignores_case_in_both_directions() {
    let dict = MdxDict::from_bytes(build_synthetic_mdx(false, "hello", "<i>x</i>")).unwrap();
    assert_eq!(dict.lookup_exact("HeLLo").unwrap().as_deref(), Some("<i>x</i>"));
    assert_eq!(dict.lookup_exact("hello").unwrap(), dict.lookup_exact("HELLO").unwrap());
}

#[test]
fn utf8_records_survive_decoding() {
    let dict = MdxDict::from_bytes(build_synthetic_mdx(true, "café", "<p>咖啡 — café</p>")).unwrap();
    assert_eq!(dict.lookup_exact("CAFÉ").unwrap().as_deref(), Some("<p>咖啡 — café</p>"));
}

#[test]
fn header_reports_version_and_encryption() {
    let bytes = build_synthetic(true, "1.2", "w", b"r");
    let header = read_header(&bytes).unwrap();
    assert_eq!(header.engine_version.as_deref(), Some("1.2"));
    assert_eq!(header.encrypted, 2);
    let declared = u32::from_be_bytes(bytes[0..4].try_into().unwrap()) as usize;
    assert_eq!(header.body_start, declared + 8);
}

#[test]
fn truncated_file_is_reported_not_panicking() {
    let bytes = build_synthetic_mdx(false, "hello", "<b>hi</b>");
    for cut in [0usize, 3, 10, 200] {
        let err = MdxDict::from_bytes(bytes[..cut].to_vec());
        assert!(err.is_err(), "cut at {cut} should fail");
    }
    // Record blocks are only read on lookup: a cut inside the last block
    // shows there.
    let dict = MdxDict::from_bytes(bytes[..bytes.len() - 1].to_vec()).unwrap();
    assert!(dict.lookup_exact("hello").is_err());
    match MdxDict::from_bytes(Vec::new()) {
        Err(MdxError::UnexpectedEof) => {}
        other => panic!("unexpected {:?}", other.err()),
    }
}

#[test]
fn mdx_provider_result_is_sanitized() {
    let html = "<b onclick=\"evil()\">hi</b><script>alert(1)</script><a href=\"sound://a.mp3\">s</a><a href=\"entry://other\">o</a>";
    let dict = MdxDict::from_bytes(build_synthetic_mdx(false, "word", html)).unwrap();
    let res = mdx_lookup(&dict, "mdx_0", "Vocab", "Word").unwrap().unwrap();
    assert_eq!(res.provider_id, "mdx_0");
    assert_eq!(res.provider_label, "Vocab");
    assert_eq!(res.kind, ResultKind::Dict);
    assert_eq!(
        res.content,
        "<b>hi</b><a href=\"wispet://mdd/sound/a.mp3\">s</a><a href=\"#other\">o</a>"
    );
    assert!(res.phonetic.is_none());
    assert!(res.source_lang.is_none());
    assert!(mdx_lookup(&dict, "mdx_0", "Vocab", "missing").unwrap().is_none());
}

#[test]
fn mdd_resources_are_found_under_any_separator_form() {
    let audio: Vec<u8> = vec![0x49, 0x44, 0x33, 0x00, 0xff, 0x10];
    let bytes = build_synthetic(false, "2.0", "\\sound\\Hello.mp3", &audio);
    let mdd = MddDict::from_bytes(bytes).unwrap();
    assert_eq!(mdd.lookup_resource("sound/hello.mp3").unwrap(), Some(audio.clone()));
    assert_eq!(mdd.lookup_resource("/sound/HELLO.mp3").unwrap(), Some(audio.clone()));
    assert_eq!(mdd.lookup_resource("\\sound\\hello.mp3").unwrap(), Some(audio.clone()));
    assert_eq!(mdd.lookup_resource("sound/other.mp3").unwrap(), None);
}

#[test]
fn mdd_resource_stored_with_forward_slash() {
    let bytes = build_synthetic(true, "2.0", "/img/a.png", b"PNGDATA");
    let mdd = MddDict::from_bytes(bytes).unwrap();
    assert_eq!(mdd.lookup_resource("img/a.png").unwrap(), Some(b"PNGDATA".to_vec()));
    assert_eq!(mdd.lookup_resource("//img/a.png").unwrap(), Some(b"PNGDATA".to_vec()));
}

#[test]
fn index_is_searched_by_lower_case_name_first_in_file_order() {
    let entries: &[(&str, &[u8])] = &[
        ("pear", b"<p>pear</p>"),
        ("Apple", b"<p>first apple</p>"),
        ("banana", b"<p>banana</p>"),
        ("apple", b"<p>second apple</p>"),
        ("Zebra", b"<p>zebra</p>"),
    ];
    let dict = MdxDict::from_bytes(build_synthetic_many(false, "2.0", entries)).unwrap();
    assert_eq!(dict.lookup_exact("APPLE").unwrap().as_deref(), Some("<p>first apple</p>"));
    assert_eq!(dict.lookup_exact("pear").unwrap().as_deref(), Some("<p>pear</p>"));
    assert_eq!(dict.lookup_exact("banana").unwrap().as_deref(), Some("<p>banana</p>"));
    assert_eq!(dict.lookup_exact("zebra").unwrap().as_deref(), Some("<p>zebra</p>"));
    assert_eq!(dict.lookup_exact("cherry").unwrap(), None);
}

#[test]
fn encrypted_dictionary_reads_like_its_plain_twin() {
    let entries: &[(&str, &[u8])] = &[("one", b"1"), ("two", b"22"), ("three", b"333")];
    let plain = MdxDict::from_bytes(build_synthetic_many(false, "2.0", entries)).unwrap();
    let secret = MdxDict::from_bytes(build_synthetic_many(true, "2.0", entries)).unwrap();
    for word in ["one", "TWO", "three", "four"] {
        assert_eq!(plain.lookup_exact(word).unwrap(), secret.lookup_exact(word).unwrap());
    }
    assert_eq!(secret.lookup_exact("three").unwrap().as_deref(), Some("333"));
}
