use tsfile::bloom_filter::BloomFilter;
use tsfile::murmur128::Murmur128;
use tsfile::{
    CompressionType, DeviceBuilder, IoTDBValue, Path, TSDataType, TSEncoding,
    TsFileSchemaBuilder, TsFileWriter,
};

#[test]
fn murmur_reference_values() {
    assert_eq!(Murmur128::hash(b"d1.s1", 5), 1869522858);
    assert_eq!(Murmur128::hash(b"d1.s1", 7), 909484003);
    assert_eq!(Murmur128::hash(b"d1.s1", 11), 898820454);
    assert_eq!(Murmur128::hash(b"d1.s1", 19), -113125776);
    assert_eq!(Murmur128::hash(b"d1.s1", 31), -2032371388);
    assert_eq!(Murmur128::hash(b"", 5), -1795273567);
}

#[test]
fn build_contains_every_path() {
    let paths = vec![
        Path { path: b"d1.s1".to_vec() },
        Path { path: b"d1.s2".to_vec() },
        Path { path: b"d2.s1".to_vec() },
        Path { path: b"d2.s2".to_vec() },
    ];
    let filter = BloomFilter::build(paths);
    assert_eq!(filter.size, 256);
    assert_eq!(filter.hash_function_size, 5);
    assert!(filter.contains(b"d1.s1"));
    assert!(filter.contains(b"d1.s2"));
    assert!(filter.contains(b"d2.s1"));
    assert!(filter.contains(b"d2.s2"));
}

#[test]
fn serialized_bits_pack_lsb_first() {
    let mut filter = BloomFilter::new(16, 1);
    filter.bit_set[0] = true;
    filter.bit_set[3] = true;
    filter.bit_set[9] = true;
    let bytes = filter.serialize_bits();
    assert_eq!(bytes, vec![0b0000_1001, 0b0000_0010]);
}

#[test]
fn filter_roundtrips_through_bytes() {
    let paths = vec![Path { path: b"d1.s1".to_vec() }, Path { path: b"d9.s9".to_vec() }];
    let filter = BloomFilter::build(paths);
    let bytes = filter.serialize_bits();
    let back = BloomFilter::from_bytes(bytes.as_slice(), filter.size, filter.hash_function_size);
    assert!(back.contains(b"d1.s1"));
    assert!(back.contains(b"d9.s9"));
}

#[test]
fn reader_of_on_disk_filter_reports_written_paths() {
    let schema = TsFileSchemaBuilder::new()
        .add(
            "d1",
            DeviceBuilder::new()
                .add("s1", TSDataType::INT32, TSEncoding::PLAIN, CompressionType::UNCOMPRESSED)
                .add("s2", TSDataType::INT32, TSEncoding::PLAIN, CompressionType::UNCOMPRESSED)
                .build(),
        )
        .add(
            "d2",
            DeviceBuilder::new()
                .add("s1", TSDataType::INT32, TSEncoding::PLAIN, CompressionType::UNCOMPRESSED)
                .add("s2", TSDataType::INT32, TSEncoding::PLAIN, CompressionType::UNCOMPRESSED)
                .build(),
        )
        .build();
    let mut writer = TsFileWriter::new("bloom.tsfile", schema);
    writer.write("d1", "s1", 1, IoTDBValue::INT(1)).unwrap();
    writer.write("d1", "s2", 1, IoTDBValue::INT(2)).unwrap();
    writer.write("d2", "s1", 1, IoTDBValue::INT(3)).unwrap();
    writer.write("d2", "s2", 1, IoTDBValue::INT(4)).unwrap();
    let file = writer.close();
    let bytes = &file.writer;
    let n = bytes.len();
    // Four paths keep the filter at its 256-bit floor with five hash
    // functions, so the tail is: 32 filter bytes, varuint(256) = [0x80, 2],
    // varuint(5) = [5], the 4-byte footer length, and the 6 magic bytes.
    assert_eq!(&bytes[n - 13..n - 10], &[0x80, 0x02, 0x05]);
    let bitset = &bytes[n - 13 - 32..n - 13];
    let filter = BloomFilter::from_bytes(bitset, 256, 5);
    assert!(filter.contains(b"d1.s1"));
    assert!(filter.contains(b"d1.s2"));
    assert!(filter.contains(b"d2.s1"));
    assert!(filter.contains(b"d2.s2"));
}
