use gpt_reader::args::get_path;
use gpt_reader::gpt::{
    get_gpt_header, get_partition_table, get_partition_table_buf, verify_mbr, GPTError, GptHeader,
    Partition,
};
use gpt_reader::guid::bytes_to_guid;
use gpt_reader::name::read_name;

fn put(buf: &mut Vec<u8>, off: usize, bytes: &[u8]) {
    for (k, b) in bytes.iter().enumerate() {
        buf[off + k] = *b;
    }
}

/// A minimal image: protective boot sector, a header at byte 512 declaring
/// `count` partition slots of 128 bytes at block 2, and room for the slots.
fn base_image(count: u32) -> Vec<u8> {
    let mut buf = vec![0u8; 1024 + 128 * count as usize];
    buf[510] = 0x55;
    buf[511] = 0xaa;
    put(&mut buf, 512, b"EFI PART");
    put(&mut buf, 520, &[0x00, 0x00, 0x01, 0x00]); // revision
    put(&mut buf, 524, &92u32.to_le_bytes()); // header size
    put(&mut buf, 528, &0xdeadbeefu32.to_le_bytes()); // header crc (unchecked)
    put(&mut buf, 536, &1u64.to_le_bytes()); // my lba
    put(&mut buf, 544, &33u64.to_le_bytes()); // alt lba
    put(&mut buf, 552, &34u64.to_le_bytes()); // first usable
    put(&mut buf, 560, &2014u64.to_le_bytes()); // last usable
    put(&mut buf, 568, &[0xab; 16]); // disk guid
    put(&mut buf, 584, &2u64.to_le_bytes()); // partition array lba
    put(&mut buf, 592, &count.to_le_bytes()); // slot count
    put(&mut buf, 596, &128u32.to_le_bytes()); // entry size
    put(&mut buf, 600, &0x0badf00du32.to_le_bytes()); // array crc (unchecked)
    buf
}

fn put_entry(
    buf: &mut Vec<u8>,
    slot: usize,
    type_guid: &[u8; 16],
    unique_guid: &[u8; 16],
    start_lba: u64,
    end_lba: u64,
    attributes: u64,
    name_utf16le: &[u8],
) {
    let off = 1024 + 128 * slot;
    put(buf, off, type_guid);
    put(buf, off + 16, unique_guid);
    put(buf, off + 0x20, &start_lba.to_le_bytes());
    put(buf, off + 0x28, &end_lba.to_le_bytes());
    put(buf, off + 0x30, &attributes.to_le_bytes());
    put(buf, off + 0x38, name_utf16le);
}

fn utf16le(s: &str) -> Vec<u8> {
    let mut out = Vec::new();
    for u in s.encode_utf16() {
        out.push((u & 0xff) as u8);
        out.push((u >> 8) as u8);
    }
    out
}

#[test]
fn mbr_rejects_short_buffers() {
    assert!(matches!(verify_mbr(&vec![]), Err(GPTError::BufferTooShort)));
    assert!(matches!(
        verify_mbr(&vec![0u8; 511]),
        Err(GPTError::BufferTooShort)
    ));
}

#[test]
fn mbr_rejects_bad_signature() {
    let mut buf = vec![0u8; 512];
    assert!(matches!(
        verify_mbr(&buf),
        Err(GPTError::InvalidBootSignature)
    ));
    buf[510] = 0x55;
    buf[511] = 0xab;
    assert!(matches!(
        verify_mbr(&buf),
        Err(GPTError::InvalidBootSignature)
    ));
}

#[test]
fn mbr_accepts_signature_regardless_of_other_bytes() {
    let mut buf = vec![0x5au8; 512];
    buf[510] = 0x55;
    buf[511] = 0xaa;
    assert!(verify_mbr(&buf).is_ok());
}

#[test]
fn header_rejects_short_buffer() {
    assert!(matches!(
        get_gpt_header(&vec![0u8; 0x20f]),
        Err(GPTError::BufferTooShort)
    ));
}

#[test]
fn header_rejects_bad_signature() {
    let mut buf = vec![0u8; 0x210];
    buf[510] = 0x55;
    buf[511] = 0xaa;
    assert!(matches!(
        get_gpt_header(&buf),
        Err(GPTError::InvalidGptSignature)
    ));
    put(&mut buf, 512, b"EFI PARU");
    assert!(matches!(
        get_gpt_header(&buf),
        Err(GPTError::InvalidGptSignature)
    ));
}

#[test]
fn header_rejects_undersized_declared_length() {
    let mut buf = base_image(0);
    put(&mut buf, 524, &91u32.to_le_bytes()); // too small for the fixed fields
    assert!(matches!(
        get_gpt_header(&buf),
        Err(GPTError::BufferTooShort)
    ));
}

#[test]
fn header_rejects_declared_length_past_buffer() {
    let mut buf = base_image(0);
    let claim = (buf.len() - 512 + 1) as u32;
    put(&mut buf, 524, &claim.to_le_bytes());
    assert!(matches!(
        get_gpt_header(&buf),
        Err(GPTError::BufferTooShort)
    ));
}

#[test]
fn header_fields_decode_exactly() {
    let buf = base_image(1);
    let h = get_gpt_header(&buf).unwrap();
    assert_eq!(h.signature, b"EFI PART".to_vec());
    assert_eq!(h.revision, vec![0x00, 0x00, 0x01, 0x00]);
    assert_eq!(h.size, 92);
    assert_eq!(h.head_crc32, 0xdeadbeef);
    assert_eq!(h.my_lba, 1);
    assert_eq!(h.alt_lba, 33);
    assert_eq!(h.first_usable_lba, 34);
    assert_eq!(h.last_usable_lba, 2014);
    assert_eq!(h.guid, vec![0xab; 16]);
    assert_eq!(h.partition_lba, 2);
    assert_eq!(h.num_partitions, 1);
    assert_eq!(h.size_part_entry, 128);
    assert_eq!(h.part_crc32, 0x0badf00d);
}

#[test]
fn zero_slot_count_gives_empty_list() {
    let buf = base_image(0);
    let h = get_gpt_header(&buf).unwrap();
    let t = get_partition_table(&buf, h).unwrap();
    assert_eq!(t.partitions.len(), 0);
}

#[test]
fn unused_slot_is_filtered_out() {
    let mut buf = base_image(2);
    // slot 0 keeps an all-zero type identifier: unused
    put_entry(
        &mut buf,
        0,
        &[0u8; 16],
        &[7u8; 16],
        11,
        12,
        13,
        &utf16le("ghost"),
    );
    put_entry(
        &mut buf,
        1,
        &[1u8; 16],
        &[9u8; 16],
        100,
        200,
        4,
        &utf16le("kept"),
    );
    let h = get_gpt_header(&buf).unwrap();
    let t = get_partition_table(&buf, h).unwrap();
    assert_eq!(t.partitions.len(), 1);
    let p = &t.partitions[0];
    assert_eq!(p.type_guid, vec![1u8; 16]);
    assert_eq!(p.guid, vec![9u8; 16]);
    assert_eq!(p.start_lba, 100);
    assert_eq!(p.end_lba, 200);
    assert_eq!(p.attributes, 4);
    assert!(p.name.starts_with("kept"));
}

#[test]
fn table_past_buffer_end_is_rejected() {
    let mut buf = base_image(1);
    put(&mut buf, 592, &2u32.to_le_bytes()); // two slots declared, room for one
    let h = get_gpt_header(&buf).unwrap();
    assert!(matches!(
        get_partition_table(&buf, h),
        Err(GPTError::BufferTooShort)
    ));
}

#[test]
fn table_at_huge_address_is_rejected() {
    let mut buf = base_image(1);
    put(&mut buf, 584, &u64::MAX.to_le_bytes());
    let h = get_gpt_header(&buf).unwrap();
    let hb = get_gpt_header(&buf).unwrap();
    assert!(matches!(
        get_partition_table_buf(&buf, &hb),
        Err(GPTError::BufferTooShort)
    ));
    assert!(matches!(
        get_partition_table(&buf, h),
        Err(GPTError::BufferTooShort)
    ));
}

#[test]
fn table_buf_is_exact_slice() {
    let mut buf = base_image(1);
    put_entry(&mut buf, 0, &[3u8; 16], &[4u8; 16], 1, 2, 3, &[0u8; 72]);
    let h = get_gpt_header(&buf).unwrap();
    let t = get_partition_table_buf(&buf, &h).unwrap();
    assert_eq!(t, buf[1024..1152].to_vec());
}

#[test]
fn size_mb_is_exact_integer_arithmetic() {
    let p = Partition {
        type_guid: vec![1; 16],
        guid: vec![2; 16],
        start_lba: 2048,
        end_lba: 206847,
        attributes: 0,
        name: String::new(),
    };
    assert_eq!(p.size_mb(), 99);
}

#[test]
fn guid_formats_in_buffer_order() {
    let bytes: [u8; 16] = [
        0x00, 0x11, 0x22, 0x33, 0x44, 0x55, 0x66, 0x77, 0x88, 0x99, 0xaa, 0xbb, 0xcc, 0xdd, 0xee,
        0xff,
    ];
    let s = bytes_to_guid(&bytes).unwrap();
    assert_eq!(s, "00112233-4455-6677-8899-AABBCCDDEEFF");
}

#[test]
fn guid_rejects_other_lengths() {
    assert!(matches!(
        bytes_to_guid(&[0u8; 15]),
        Err(GPTError::InvalidGuidLength)
    ));
    assert!(matches!(
        bytes_to_guid(&[0u8; 17]),
        Err(GPTError::InvalidGuidLength)
    ));
    assert!(matches!(
        bytes_to_guid(&[]),
        Err(GPTError::InvalidGuidLength)
    ));
}

#[test]
fn name_keeps_trailing_padding() {
    let mut field = utf16le("boot");
    field.resize(16, 0);
    let s = read_name(&field).unwrap();
    assert_eq!(s, "boot\0\0\0\0");
}

#[test]
fn name_rejects_odd_byte_count() {
    assert!(matches!(
        read_name(&[0x41, 0x00, 0x42]),
        Err(GPTError::InvalidNameEncoding)
    ));
}

#[test]
fn name_rejects_lone_surrogate() {
    // a high surrogate (0xD800) with no low surrogate after it
    assert!(matches!(
        read_name(&[0x00, 0xd8, 0x41, 0x00]),
        Err(GPTError::InvalidNameEncoding)
    ));
    // a low surrogate (0xDC00) on its own
    assert!(matches!(
        read_name(&[0x00, 0xdc]),
        Err(GPTError::InvalidNameEncoding)
    ));
}

#[test]
fn name_decodes_surrogate_pairs() {
    let field = utf16le("disk \u{1F600}");
    let s = read_name(&field).unwrap();
    assert_eq!(s, "disk \u{1F600}");
}

#[test]
fn invalid_name_in_table_is_reported() {
    let mut buf = base_image(1);
    let mut field = vec![0u8; 72];
    field[1] = 0xd8; // lone high surrogate at the front of the name
    put_entry(&mut buf, 0, &[1u8; 16], &[2u8; 16], 1, 2, 0, &field);
    let h = get_gpt_header(&buf).unwrap();
    assert!(matches!(
        get_partition_table(&buf, h),
        Err(GPTError::InvalidNameEncoding)
    ));
}

#[test]
fn round_trip_reproduces_all_fields() {
    let mut buf = base_image(1);
    let mut name_field = utf16le("primary");
    name_field.resize(72, 0);
    let type_guid: [u8; 16] = [
        0x28, 0x73, 0x2a, 0xc1, 0x1f, 0xf8, 0xd2, 0x11, 0xba, 0x4b, 0x00, 0xa0, 0xc9, 0x3e, 0xc9,
        0x3b,
    ];
    let unique_guid: [u8; 16] = [
        0x01, 0x02, 0x03, 0x04, 0x05, 0x06, 0x07, 0x08, 0x09, 0x0a, 0x0b, 0x0c, 0x0d, 0x0e, 0x0f,
        0x10,
    ];
    put_entry(
        &mut buf,
        0,
        &type_guid,
        &unique_guid,
        2048,
        206847,
        0x8000000000000001,
        &name_field,
    );
    let h: GptHeader = get_gpt_header(&buf).unwrap();
    assert_eq!(h.partition_lba, 2);
    assert_eq!(h.num_partitions, 1);
    assert_eq!(h.size_part_entry, 128);
    let t = get_partition_table(&buf, h).unwrap();
    assert_eq!(t.partitions.len(), 1);
    let p = &t.partitions[0];
    assert_eq!(p.type_guid, type_guid.to_vec());
    assert_eq!(p.guid, unique_guid.to_vec());
    assert_eq!(p.start_lba, 2048);
    assert_eq!(p.end_lba, 206847);
    assert_eq!(p.attributes, 0x8000000000000001);
    let mut expected_name = String::from("primary");
    for _ in 0..((72 - 2 * "primary".len()) / 2) {
        expected_name.push('\0');
    }
    assert_eq!(p.name, expected_name);
    assert_eq!(
        bytes_to_guid(&p.type_guid).unwrap(),
        "28732AC1-1FF8-D211-BA4B-00A0C93EC93B"
    );
}

#[test]
fn path_needs_a_real_argument() {
    assert_eq!(get_path(vec!["prog".to_string()]), None);
    assert_eq!(get_path(vec![]), None);
}

#[test]
fn path_is_the_second_argument() {
    let args = vec![
        "prog".to_string(),
        "disk.img".to_string(),
        "extra".to_string(),
    ];
    assert_eq!(get_path(args), Some("disk.img".to_string()));
}
