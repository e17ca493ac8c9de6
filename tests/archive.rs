use gma::binary::BinaryWriter;
use gma::{AddonTag, AddonType, Error, GMABuilder};

#[test]
fn build_parse_gma() {
    const VERSION: u8 = 3;
    const STEAMID: u64 = 123456;
    const TIMESTAMP: u64 = 987654;
    const NAME: &str = "ADDON_NAME";
    const DESC: &str = "ADDON_DESC";
    const AUTHOR: &str = "AUTHOR_NAME";
    const TYPE: AddonType = AddonType::Model;
    const TAG1: AddonTag = AddonTag::Build;
    const TAG2: AddonTag = AddonTag::Fun;
    const ENTRY_NAME: &str = "file1";
    const ENTRY_DATA: &[u8] = b"hello";

    let mut builder = GMABuilder::new();
    builder
        .version(VERSION)
        .steamid(STEAMID)
        .timestamp(TIMESTAMP)
        .name(NAME)
        .description(DESC)
        .addon_type(TYPE)
        .addon_tag(TAG1)
        .addon_tag(TAG2)
        .author(AUTHOR)
        .file_from_bytes(ENTRY_NAME, ENTRY_DATA.to_vec());
    let buffer = builder.write_to().unwrap();

    let archive = gma::load_from_memory(&buffer).unwrap();
    assert_eq!(archive.version(), VERSION);
    assert_eq!(archive.author_steamid(), STEAMID);
    assert_eq!(archive.timestamp(), TIMESTAMP);
    assert_eq!(archive.name(), NAME);
    assert_eq!(archive.description(), DESC);
    assert_eq!(archive.addon_type().unwrap(), TYPE);
    assert!(archive.contains_tag(TAG1));
    assert!(archive.contains_tag(TAG2));
    //this fields isnt currently used and is hardcoded to this
    assert_eq!(archive.author(), AUTHOR);

    let entry = archive
        .entries()
        .iter()
        .next()
        .expect("Archive should countain one entry");
    assert_eq!(entry.filename(), ENTRY_NAME);
    assert_eq!(entry.size(), ENTRY_DATA.len() as u64);
    assert_eq!(entry.crc(), 0907060870);
    let entry_buffer = archive.read_entry(entry);
    assert_eq!(entry_buffer.as_slice(), ENTRY_DATA);
}

fn sample_builder() -> GMABuilder {
    let mut builder = GMABuilder::new();
    builder
        .timestamp(42)
        .name("n")
        .description("d")
        .addon_type(AddonType::Weapon)
        .file_from_bytes("a.txt", b"first".to_vec())
        .file_from_bytes("b/c.lua", Vec::new())
        .file_from_bytes("d.bin", vec![0, 1, 2, 255]);
    builder
}

#[test]
fn several_entries_round_trip() {
    let bytes = sample_builder().write_to().unwrap();
    let archive = gma::load_from_memory(&bytes).unwrap();
    assert!(!archive.compressed());
    assert_eq!(archive.appid(), 4000);
    assert_eq!(archive.author(), "unknown");
    assert_eq!(archive.addon_type(), Some(AddonType::Weapon));
    assert!(archive.addon_tags().is_empty());
    let entries = archive.entries();
    assert_eq!(entries.len(), 3);
    let names: Vec<&str> = entries.iter().map(|e| e.filename()).collect();
    assert_eq!(names, vec!["a.txt", "b/c.lua", "d.bin"]);
    assert_eq!(entries[0].offset(), 0);
    assert_eq!(entries[1].offset(), 5);
    assert_eq!(entries[2].offset(), 5);
    assert_eq!(entries[2].size(), 4);
    assert_eq!(archive.read_entry(&entries[0]), b"first".to_vec());
    assert_eq!(archive.read_entry(&entries[1]), Vec::<u8>::new());
    assert_eq!(archive.read_entry(&entries[2]), vec![0, 1, 2, 255]);
    assert_eq!(entries[1].crc(), 0);
}

#[test]
fn exact_bytes_of_small_archive() {
    let mut builder = GMABuilder::new();
    builder.version(1).timestamp(2).steamid(1).name("x").author("y");
    let bytes = builder.write_to().unwrap();
    let meta = "{\"title\":\"x\",\"description\":\"\",\"type\":\"tool\",\"tags\":[]}";
    let mut expected: Vec<u8> = b"GMAD".to_vec();
    expected.push(1);
    expected.extend_from_slice(&[1, 0, 0, 0, 0, 0, 0, 0]);
    expected.extend_from_slice(&[2, 0, 0, 0, 0, 0, 0, 0]);
    expected.extend_from_slice(b"x\0");
    expected.extend_from_slice(meta.as_bytes());
    expected.push(0);
    expected.extend_from_slice(b"y\0");
    expected.extend_from_slice(&[1, 0, 0, 0]);
    expected.extend_from_slice(&[0, 0, 0, 0]);
    assert_eq!(bytes, expected);
}

#[test]
fn version_gating_of_required_content() {
    for version in [1u8, 2, 3] {
        let mut builder = GMABuilder::new();
        builder.version(version).timestamp(7).name("N");
        let bytes = builder.write_to().unwrap();
        // magic, version, author id, timestamp
        let after = 4 + 1 + 8 + 8;
        if version == 1 {
            assert_eq!(bytes[after], b'N');
        } else {
            assert_eq!(bytes[after], 0);
            assert_eq!(bytes[after + 1], b'N');
        }
        let archive = gma::load_from_memory(&bytes).unwrap();
        assert_eq!(archive.version(), version);
        assert_eq!(archive.name(), "N");
        assert_eq!(archive.timestamp(), 7);
    }
}

#[test]
fn tag_eviction_keeps_two_latest() {
    let mut builder = GMABuilder::new();
    builder
        .name("t")
        .addon_tag(AddonTag::Fun)
        .addon_tag(AddonTag::Water)
        .addon_tag(AddonTag::Comic);
    let archive = gma::load_from_memory(&builder.write_to().unwrap()).unwrap();
    assert_eq!(archive.addon_tags(), &[AddonTag::Comic, AddonTag::Water]);
    assert!(!archive.contains_tag(AddonTag::Fun));

    let mut builder = GMABuilder::new();
    builder.name("t").addon_tag(AddonTag::Fun);
    let archive = gma::load_from_memory(&builder.write_to().unwrap()).unwrap();
    assert_eq!(archive.addon_tags(), &[AddonTag::Fun]);
}

#[test]
fn tag_eviction_after_four_tags() {
    let mut builder = GMABuilder::new();
    builder
        .name("t")
        .addon_tag(AddonTag::Fun)
        .addon_tag(AddonTag::Water)
        .addon_tag(AddonTag::Comic)
        .addon_tag(AddonTag::Movie);
    let archive = gma::load_from_memory(&builder.write_to().unwrap()).unwrap();
    assert_eq!(archive.addon_tags(), &[AddonTag::Movie, AddonTag::Comic]);
}

#[test]
fn compressed_archive_round_trip() {
    let mut builder = sample_builder();
    builder.compression(true);
    let bytes = builder.write_to().unwrap();
    assert_ne!(&bytes[0..4], b"GMAD");
    let archive = gma::load_from_memory(&bytes).unwrap();
    assert!(archive.compressed());
    assert_eq!(archive.name(), "n");
    assert_eq!(archive.description(), "d");
    let entries = archive.entries();
    assert_eq!(entries.len(), 3);
    assert_eq!(archive.read_entry(&entries[2]), vec![0, 1, 2, 255]);
}

#[test]
fn malformed_header_fails_with_compression_error() {
    let data = b"XXXX this is neither an archive nor lzma".to_vec();
    assert_eq!(gma::load(data).unwrap_err(), Error::CompressionError);
}

#[test]
fn short_stream_is_io_error() {
    assert_eq!(gma::load_from_memory(b"GM").unwrap_err(), Error::IOError);
    assert_eq!(gma::load_from_memory(b"GMAD\x03").unwrap_err(), Error::IOError);
}

#[test]
fn invalid_version_is_rejected() {
    let mut builder = GMABuilder::new();
    builder.version(4).name("v");
    let bytes = builder.write_to().unwrap();
    assert_eq!(gma::load_from_memory(&bytes).unwrap_err(), Error::InvalidVersion(4));
}

#[test]
fn invalid_ident_inside_compressed_stream() {
    let mut input: &[u8] = b"ZZZZ not an archive";
    let mut packed: Vec<u8> = Vec::new();
    lzma_rs::lzma_compress(&mut input, &mut packed).unwrap();
    assert_eq!(gma::load(packed).unwrap_err(), Error::InvalidIdent);
}

#[test]
fn null_byte_in_name_is_invalid_string() {
    let mut builder = GMABuilder::new();
    builder.name("bad\0name");
    assert_eq!(builder.write_to().unwrap_err(), Error::InvalidString);
    let mut builder = GMABuilder::new();
    builder.name("ok").file_from_bytes("f\0", vec![1]);
    assert_eq!(builder.write_to().unwrap_err(), Error::InvalidString);
}

fn raw_archive(metadata: &str, name_bytes: &[u8]) -> Vec<u8> {
    raw_archive_by(metadata, name_bytes, 9, 10, "someone")
}

fn raw_archive_by(metadata: &str, name_bytes: &[u8], steamid: u64, timestamp: u64, author: &str) -> Vec<u8> {
    let mut w: Vec<u8> = b"GMAD".to_vec();
    w.write_u8(3).unwrap();
    w.write_u64(steamid).unwrap();
    w.write_u64(timestamp).unwrap();
    w.write_u8(0).unwrap();
    w.extend_from_slice(name_bytes);
    w.push(0);
    w.write_c_string(metadata).unwrap();
    w.write_c_string(author).unwrap();
    w.write_u32(1).unwrap();
    w.write_u32(1).unwrap();
    w.write_c_string("lua/hello.lua").unwrap();
    w.write_u64(3).unwrap();
    w.write_u32(0).unwrap();
    w.write_u32(0).unwrap();
    w.extend_from_slice(b"abc");
    w
}

#[test]
fn plain_metadata_falls_back_to_description() {
    let bytes = raw_archive("just some plain text", b"Plain");
    let archive = gma::load_from_memory(&bytes).unwrap();
    assert_eq!(archive.description(), "just some plain text");
    assert_eq!(archive.addon_type(), None);
    assert!(archive.addon_tags().is_empty());
    assert_eq!(archive.name(), "Plain");
    assert_eq!(archive.author(), "someone");
}

#[test]
fn pretty_printed_metadata_is_decoded() {
    let meta = "{\n\t\"description\": \"My Description\",\n\t\"type\": \"Gamemode\",\n\t\"tags\": [\n\t\t\"fun\",\n\t\t\"CARTOON\"\n\t]\n}";
    let bytes = raw_archive_by(meta, b"My Test Addon", 0, 1595515015, "Author Name");
    let archive = gma::load_from_memory(&bytes).unwrap();
    assert_eq!(archive.version(), 3);
    assert_eq!(archive.author_steamid(), 0);
    assert_eq!(archive.timestamp(), 1595515015);
    assert_eq!(archive.author(), "Author Name");
    assert_eq!(archive.name(), "My Test Addon");
    assert_eq!(archive.description(), "My Description");
    assert_eq!(archive.addon_type(), Some(AddonType::Gamemode));
    assert!(archive.contains_tag(AddonTag::Fun));
    assert!(archive.contains_tag(AddonTag::Cartoon));
    let entry = &archive.entries()[0];
    assert_eq!(entry.filename(), "lua/hello.lua");
    assert_eq!(entry.size(), 3);
    assert_eq!(archive.read_entry(entry), b"abc".to_vec());
}

#[test]
fn unknown_type_and_tags_are_absent() {
    let meta = "{\"description\":\"x\",\"type\":\"spaceship\",\"tags\":[\"nope\",\"build\",\"fun\"]}";
    let archive = gma::load_from_memory(&raw_archive(meta, b"u")).unwrap();
    assert_eq!(archive.description(), "x");
    assert_eq!(archive.addon_type(), None);
    assert_eq!(archive.addon_tags(), &[AddonTag::Build]);
}

#[test]
fn invalid_utf8_name_is_utf8_error() {
    let bytes = raw_archive("m", &[0xC3, 0x28]);
    assert_eq!(gma::load_from_memory(&bytes).unwrap_err(), Error::UTF8Error);
}

#[test]
fn entry_larger_than_data_is_cut_short() {
    let mut bytes = raw_archive("m", b"short");
    bytes.truncate(bytes.len() - 1);
    let archive = gma::load_from_memory(&bytes).unwrap();
    let entry = &archive.entries()[0];
    assert_eq!(entry.size(), 3);
    assert_eq!(archive.read_entry(entry), b"ab".to_vec());
}

#[test]
fn checksum_matches_reference_implementation() {
    let mut builder = GMABuilder::new();
    builder.name("c").file_from_bytes("h", b"hello".to_vec());
    let archive = gma::load_from_memory(&builder.write_to().unwrap()).unwrap();
    let reference = crc::Crc::<u32>::new(&crc::CRC_32_ISO_HDLC).checksum(b"hello");
    assert_eq!(archive.entries()[0].crc(), reference);
    assert_eq!(reference, 0x3610a686);
}

#[test]
fn required_content_strings_are_skipped() {
    let mut w: Vec<u8> = b"GMAD".to_vec();
    w.write_u8(2).unwrap();
    w.write_u64(5).unwrap();
    w.write_u64(6).unwrap();
    w.write_c_string("first").unwrap();
    w.write_c_string("second").unwrap();
    w.write_u8(0).unwrap();
    w.write_c_string("Name").unwrap();
    w.write_c_string("meta").unwrap();
    w.write_c_string("Author").unwrap();
    w.write_u32(1).unwrap();
    w.write_u32(0).unwrap();
    let archive = gma::load_from_memory(&w).unwrap();
    assert_eq!(archive.version(), 2);
    assert_eq!(archive.name(), "Name");
    assert_eq!(archive.description(), "meta");
    assert_eq!(archive.author(), "Author");
    assert!(archive.entries().is_empty());
}
