use s3d::{ByteCursor, S3d, S3dError};

fn le(value: u32) -> Vec<u8> {
    value.to_le_bytes().to_vec()
}

fn chunk(raw: &[u8]) -> Vec<u8> {
    let packed = deflate::deflate_bytes_zlib(raw);
    let mut out = le(packed.len() as u32);
    out.extend(le(raw.len() as u32));
    out.extend(packed);
    out
}

fn name_table(names: &[&[u8]]) -> Vec<u8> {
    let mut out = le(names.len() as u32);
    for name in names {
        out.extend(le(name.len() as u32));
        out.extend(name.iter());
    }
    out
}

fn header(table_offset: u32, magic: u32) -> Vec<u8> {
    let mut out = le(table_offset);
    out.extend(le(magic));
    out.extend(le(0x20000));
    out
}

/// Lays the payloads out one after another behind the header and lists them
/// in the descriptor table in the order given by `listing`.
fn archive(payloads: &[(Vec<u8>, u32)], listing: &[usize]) -> Vec<u8> {
    let mut body: Vec<u8> = Vec::new();
    let mut offsets: Vec<u32> = Vec::new();
    for (bytes, _) in payloads {
        offsets.push(12 + body.len() as u32);
        body.extend(bytes.iter());
    }
    let mut out = header(12 + body.len() as u32, 0x20534650);
    out.extend(body);
    out.extend(le(listing.len() as u32));
    for &index in listing {
        out.extend(le(100 + index as u32));
        out.extend(le(offsets[index]));
        out.extend(le(payloads[index].1));
    }
    out
}

fn single_file(names: &[&[u8]]) -> Vec<u8> {
    let table = name_table(names);
    archive(&[(chunk(b"hello"), 5), (chunk(&table), table.len() as u32)], &[0, 1])
}

#[test]
fn new_s3d_is_empty() {
    let empty = S3d::new();
    assert_eq!(empty.header.offset, 0);
    assert_eq!(empty.file_count(), 0);
    assert_eq!(empty.file_descriptors.len(), 0);
}

#[test]
fn new_s3d_carries_magic_and_version() {
    let empty = S3d::new();
    assert_eq!(empty.header.magic_number, 0x20534650);
    assert_eq!(empty.header.version_number, 0x20000);
}

#[test]
fn empty_but_valid_archive_is_rejected() {
    let mut data = header(12, 0x20534650);
    data.extend(le(0));
    assert_eq!(S3d::read(&data).err(), Some(S3dError::EmptyArchive));
}

#[test]
fn single_file_archive_is_read() {
    let data = single_file(&[b"a.txt\0"]);
    let archive = S3d::read(&data).unwrap();
    assert_eq!(archive.file_count(), 1);
    assert_eq!(archive.file_descriptors.len(), 2);
    assert_eq!(archive.file_descriptors[0].file_name, "a.txt");
    assert_eq!(archive.file_descriptors[0].crc, 100);
    assert_eq!(archive.file_descriptors[0].offset, 12);
    assert_eq!(archive.file_descriptors[0].decompressed_size, 5);
    assert_eq!(archive.file_descriptors[0].data.len(), 1);
    assert_eq!(
        inflate::inflate_bytes_zlib(&archive.file_descriptors[0].data[0]).unwrap(),
        b"hello".to_vec()
    );
    assert_eq!(archive.file_descriptors[1].file_name, "");
    assert_eq!(archive.header.magic_number, 0x20534650);
    assert_eq!(archive.header.version_number, 0x20000);
    assert_eq!(archive.header.offset as usize, data.len() - 4 - 24);
}

#[test]
fn out_of_order_descriptors_are_sorted() {
    let table = name_table(&[b"b.dds\0"]);
    let file = chunk(b"hello");
    let directory = chunk(&table);
    let mut data = header(0, 0x20534650);
    data.resize(37, 0);
    data.extend(file);
    assert!(data.len() <= 487);
    data.resize(487, 0);
    data.extend(directory);
    let table_offset = data.len() as u32;
    data[0..4].copy_from_slice(&le(table_offset));
    data.extend(le(2));
    data.extend(le(7));
    data.extend(le(487));
    data.extend(le(table.len() as u32));
    data.extend(le(9));
    data.extend(le(37));
    data.extend(le(5));
    let archive = S3d::read(&data).unwrap();
    assert_eq!(archive.file_descriptors[0].offset, 37);
    assert_eq!(archive.file_descriptors[0].crc, 9);
    assert_eq!(archive.file_descriptors[0].file_name, "b.dds");
    assert_eq!(archive.file_descriptors[1].offset, 487);
    assert_eq!(archive.file_descriptors[1].crc, 7);
    assert_eq!(archive.file_count(), 1);
}

#[test]
fn multi_chunk_payload_is_collected() {
    let payload: Vec<u8> = (0..16384u32).map(|i| (i % 251) as u8).collect();
    let mut chunks = chunk(&payload[0..8192]);
    chunks.extend(chunk(&payload[8192..16192]));
    chunks.extend(chunk(&payload[16192..16384]));
    let table = name_table(&[b"big.bmp\0"]);
    let data = archive(&[(chunks, 16384), (chunk(&table), table.len() as u32)], &[1, 0]);
    let archive = S3d::read(&data).unwrap();
    let entry = &archive.file_descriptors[0];
    assert_eq!(entry.file_name, "big.bmp");
    assert_eq!(entry.data.len(), 3);
    let mut joined: Vec<u8> = Vec::new();
    for block in &entry.data {
        joined.extend(inflate::inflate_bytes_zlib(block).unwrap());
    }
    assert_eq!(joined, payload);
}

#[test]
fn payload_walk_stops_at_declared_size() {
    let payload: Vec<u8> = vec![7; 16384];
    let mut chunks = chunk(&payload[0..8192]);
    chunks.extend(chunk(&payload[8192..16384]));
    chunks.extend(chunk(&[]));
    let mut cursor = ByteCursor::new(&chunks);
    let blocks = S3d::read_data(&mut cursor, 0, 16384).unwrap();
    assert_eq!(blocks.len(), 2);
}

#[test]
fn chunk_that_overshoots_is_rejected() {
    let payload: Vec<u8> = vec![7; 16384];
    let mut chunks = chunk(&payload[0..8192]);
    chunks.extend(chunk(&payload[8192..16384]));
    let mut cursor = ByteCursor::new(&chunks);
    assert_eq!(S3d::read_data(&mut cursor, 0, 16383).err(), Some(S3dError::InvalidFormat));
    let table = name_table(&[b"a\0"]);
    let data = archive(&[(chunks, 10000), (chunk(&table), table.len() as u32)], &[0, 1]);
    assert_eq!(S3d::read(&data).err(), Some(S3dError::InvalidFormat));
}

#[test]
fn empty_chunk_inside_a_payload_is_walked() {
    let mut chunks = chunk(b"abc");
    chunks.extend(chunk(&[]));
    chunks.extend(chunk(b"de"));
    let mut cursor = ByteCursor::new(&chunks);
    let blocks = S3d::read_data(&mut cursor, 0, 5).unwrap();
    assert_eq!(blocks.len(), 3);
    assert_eq!(cursor.position, chunks.len());
}

#[test]
fn zero_size_payload_has_no_chunks() {
    let data: Vec<u8> = vec![1, 2, 3];
    let mut cursor = ByteCursor::new(&data);
    assert_eq!(S3d::read_data(&mut cursor, 900, 0).unwrap().len(), 0);
}

#[test]
fn truncated_chunk_is_unexpected_eof() {
    let mut data = le(1000);
    data.extend(le(10));
    data.extend(vec![0u8; 500]);
    let mut cursor = ByteCursor::new(&data);
    assert_eq!(S3d::read_data(&mut cursor, 0, 10).err(), Some(S3dError::UnexpectedEof));
}

#[test]
fn missing_chunk_header_is_unexpected_eof() {
    let data = le(3);
    let mut cursor = ByteCursor::new(&data);
    assert_eq!(S3d::read_data(&mut cursor, 0, 1).err(), Some(S3dError::UnexpectedEof));
    let mut past = ByteCursor::new(&data);
    assert_eq!(S3d::read_data(&mut past, 4000, 1).err(), Some(S3dError::UnexpectedEof));
}

#[test]
fn bad_magic_is_invalid_format() {
    let mut data = header(12, 0);
    data.extend(le(0));
    assert_eq!(&data[4..8], &[0, 0, 0, 0]);
    assert_eq!(S3d::read(&data).err(), Some(S3dError::InvalidFormat));
}

#[test]
fn any_wrong_magic_byte_is_invalid_format() {
    let good = single_file(&[b"a.txt\0"]);
    assert!(S3d::read(&good).is_ok());
    for index in 4..8 {
        let mut data = good.clone();
        data[index] ^= 1;
        assert_eq!(S3d::read(&data).err(), Some(S3dError::InvalidFormat));
    }
}

#[test]
fn short_header_is_unexpected_eof() {
    assert_eq!(S3d::read(&[]).err(), Some(S3dError::UnexpectedEof));
    let data = header(12, 0);
    assert_eq!(S3d::read(&data[0..11]).err(), Some(S3dError::UnexpectedEof));
}

#[test]
fn short_descriptor_table_is_unexpected_eof() {
    let data = header(12, 0x20534650);
    assert_eq!(S3d::read(&data).err(), Some(S3dError::UnexpectedEof));
    let mut listed = header(12, 0x20534650);
    listed.extend(le(2));
    listed.extend(vec![0u8; 23]);
    assert_eq!(S3d::read(&listed).err(), Some(S3dError::UnexpectedEof));
}

#[test]
fn header_is_decoded_field_by_field() {
    let mut data = le(0x01020304);
    data.extend(le(0x20534650));
    data.extend(le(0x0a0b0c0d));
    let mut cursor = ByteCursor::new(&data);
    cursor.set_position(5);
    let header = S3d::read_header(&mut cursor).unwrap();
    assert_eq!(header.offset, 0x01020304);
    assert_eq!(header.magic_number, 0x20534650);
    assert_eq!(header.version_number, 0x0a0b0c0d);
    assert_eq!(cursor.position, 12);
}

#[test]
fn descriptor_and_chunk_header_are_decoded() {
    let mut data = le(11);
    data.extend(le(22));
    data.extend(le(33));
    let mut cursor = ByteCursor::new(&data);
    let block = S3d::read_descriptor(&mut cursor).unwrap();
    assert_eq!((block.crc, block.offset, block.decompressed_size), (11, 22, 33));
    assert_eq!(block.file_name, "");
    assert!(block.data.is_empty());
    cursor.set_position(4);
    let chunk_header = S3d::read_chunk_header(&mut cursor).unwrap();
    assert_eq!(chunk_header.compressed_size, 22);
    assert_eq!(chunk_header.decompressed_size, 33);
    assert_eq!(S3d::read_chunk_header(&mut cursor).err(), Some(S3dError::UnexpectedEof));
}

#[test]
fn descriptor_table_keeps_stored_order() {
    let mut data = vec![0u8; 3];
    data.extend(le(2));
    for value in [5u32, 487, 1, 6, 37, 2] {
        data.extend(le(value));
    }
    let mut cursor = ByteCursor::new(&data);
    let blocks = S3d::read_all_descriptors(&mut cursor, 3).unwrap();
    assert_eq!(blocks.len(), 2);
    assert_eq!(blocks[0].offset, 487);
    assert_eq!(blocks[1].offset, 37);
}

#[test]
fn file_count_is_descriptors_less_one() {
    let table = name_table(&[b"one\0", b"two\0", b"three\0"]);
    let data = archive(
        &[
            (chunk(b"1"), 1),
            (chunk(b"22"), 2),
            (chunk(b"333"), 3),
            (chunk(&table), table.len() as u32),
        ],
        &[2, 3, 0, 1],
    );
    let archive = S3d::read(&data).unwrap();
    assert_eq!(archive.file_descriptors.len(), 4);
    assert_eq!(archive.file_count(), 3);
    let names: Vec<&str> =
        archive.file_descriptors.iter().map(|block| block.file_name.as_str()).collect();
    assert_eq!(names, vec!["one", "two", "three", ""]);
    let offsets: Vec<u32> = archive.file_descriptors.iter().map(|block| block.offset).collect();
    let mut ordered = offsets.clone();
    ordered.sort();
    assert_eq!(offsets, ordered);
    let mut directory: Vec<u8> = Vec::new();
    for piece in &archive.file_descriptors[3].data {
        directory.extend(inflate::inflate_bytes_zlib(piece).unwrap());
    }
    assert_eq!(&directory[0..4], &[3, 0, 0, 0]);
    assert_eq!(directory, table);
    for block in &archive.file_descriptors {
        let mut total = 0;
        for piece in &block.data {
            total += inflate::inflate_bytes_zlib(piece).unwrap().len();
        }
        assert_eq!(total as u32, block.decompressed_size);
    }
}

#[test]
fn name_count_that_disagrees_is_invalid_format() {
    let table = name_table(&[b"one\0", b"two\0"]);
    let data = archive(&[(chunk(b"1"), 1), (chunk(&table), table.len() as u32)], &[0, 1]);
    assert_eq!(S3d::read(&data).err(), Some(S3dError::InvalidFormat));
    let none = name_table(&[]);
    let short = archive(&[(chunk(b"1"), 1), (chunk(&none), none.len() as u32)], &[0, 1]);
    assert_eq!(S3d::read(&short).err(), Some(S3dError::InvalidFormat));
}

#[test]
fn directory_that_does_not_inflate_fails() {
    let mut garbage = le(4);
    garbage.extend(le(10));
    garbage.extend([0xff, 0xff, 0xff, 0xff]);
    let data = archive(&[(chunk(b"1"), 1), (garbage, 10)], &[0, 1]);
    assert_eq!(S3d::read(&data).err(), Some(S3dError::DecompressionFailed));
}

#[test]
fn name_that_is_not_utf8_fails() {
    let data = single_file(&[&[0xff, 0xfe, 0x00]]);
    assert_eq!(S3d::read(&data).err(), Some(S3dError::NameDecodingFailed));
}

#[test]
fn name_without_terminator_is_invalid_format() {
    let data = single_file(&[b"a.txt"]);
    assert_eq!(S3d::read(&data).err(), Some(S3dError::InvalidFormat));
    let empty = single_file(&[b""]);
    assert_eq!(S3d::read(&empty).err(), Some(S3dError::InvalidFormat));
}

#[test]
fn names_are_trimmed() {
    let data = single_file(&[b"  a.txt \t\0"]);
    let archive = S3d::read(&data).unwrap();
    assert_eq!(archive.file_descriptors[0].file_name, "a.txt");
}

#[test]
fn truncated_name_table_is_unexpected_eof() {
    let mut table = le(1);
    table.extend(le(9));
    table.extend(b"a.txt\0".iter());
    let data = archive(&[(chunk(b"1"), 1), (chunk(&table), table.len() as u32)], &[0, 1]);
    assert_eq!(S3d::read(&data).err(), Some(S3dError::UnexpectedEof));
}

#[test]
fn payloads_are_attached_in_order() {
    let mut data = chunk(b"abc");
    let second = data.len() as u32;
    data.extend(chunk(b"de"));
    let blocks = vec![
        s3d::DescriptorBlock {
            crc: 1,
            offset: 0,
            decompressed_size: 3,
            file_name: String::new(),
            data: vec![],
        },
        s3d::DescriptorBlock {
            crc: 2,
            offset: second,
            decompressed_size: 2,
            file_name: String::new(),
            data: vec![],
        },
    ];
    let mut cursor = ByteCursor::new(&data);
    let attached = S3d::attach_payloads(&mut cursor, blocks).unwrap();
    assert_eq!(attached.len(), 2);
    assert_eq!(attached[0].data, vec![deflate::deflate_bytes_zlib(b"abc")]);
    assert_eq!(attached[1].data, vec![deflate::deflate_bytes_zlib(b"de")]);
    assert_eq!((attached[1].crc, attached[1].offset), (2, second));
    let named = S3d::assign_names(attached, &vec!["first".to_string()]);
    assert_eq!(named[0].file_name, "first");
    assert_eq!(named[1].file_name, "");
    assert_eq!(named[0].data.len(), 1);
}

#[test]
fn first_failing_payload_decides_the_error() {
    let mut short = le(1000);
    short.extend(le(10));
    let table = name_table(&[b"a\0", b"b\0"]);
    let mut over = chunk(b"abcdef");
    over.extend(vec![0u8; 4]);
    let data = archive(
        &[(over, 5), (short, 10), (chunk(&table), table.len() as u32)],
        &[2, 1, 0],
    );
    assert_eq!(S3d::read(&data).err(), Some(S3dError::InvalidFormat));
}
