use std::time::{SystemTime, UNIX_EPOCH};

use tsfile::{
    write_file_3, CompressionType, DeviceBuilder, IoTDBValue, TSDataType, TSEncoding,
    TsFileError, TsFileSchemaBuilder, TsFileWriter, WriteWrapper,
};

#[test]
fn it_works() {
    let result = 2 + 2;
    assert_eq!(result, 4);
}

#[test]
fn write_file_test_3() {
    write_file_3()
}

#[test]
fn write_file_test_4() {
    let expectation = [
        0x54, 0x73, 0x46, 0x69, 0x6C, 0x65, 0x03, 0x00, 0x04, 0x64, 0x31, 0x05, 0x04, 0x73,
        0x31, 0x20, 0x01, 0x00, 0x00, 0x1E, 0x1E, 0x1A, 0x00, 0x00, 0x00, 0x02, 0x00, 0x00,
        0x00, 0x07, 0x00, 0x00, 0x00, 0x00, 0x00, 0x00, 0x00, 0x09, 0x00, 0x00, 0x00, 0x00,
        0x00, 0x00, 0x00, 0x01, 0x01, 0x44, 0x1A, 0x1C, 0x1E, 0x02, 0x00, 0x04, 0x73, 0x31,
        0x01, 0x08, 0x03, 0x00, 0x00, 0x00, 0x00, 0x00, 0x00, 0x00, 0x01, 0x00, 0x00, 0x00,
        0x00, 0x00, 0x00, 0x00, 0x64, 0x00, 0x00, 0x00, 0x0D, 0x00, 0x00, 0x00, 0x0F, 0x00,
        0x00, 0x00, 0x0D, 0x00, 0x00, 0x00, 0x0F, 0x00, 0x00, 0x00, 0x00, 0x00, 0x00, 0x00,
        0x2A, 0x00, 0x00, 0x00, 0x00, 0x00, 0x00, 0x00, 0x0B, 0x01, 0x04, 0x73, 0x31, 0x00,
        0x00, 0x00, 0x00, 0x00, 0x00, 0x00, 0x34, 0x00, 0x00, 0x00, 0x00, 0x00, 0x00, 0x00,
        0x6B, 0x03, 0x01, 0x04, 0x64, 0x31, 0x00, 0x00, 0x00, 0x00, 0x00, 0x00, 0x00, 0x6B,
        0x00, 0x00, 0x00, 0x00, 0x00, 0x00, 0x00, 0x80, 0x01, 0x00, 0x00, 0x00, 0x00, 0x00,
        0x00, 0x00, 0x33, 0x20, 0x00, 0x00, 0x00, 0x00, 0x00, 0x00, 0x00, 0x00, 0x00, 0x00,
        0x00, 0x00, 0x40, 0x00, 0x00, 0x00, 0x00, 0x00, 0x01, 0x00, 0x00, 0x04, 0x00, 0x10,
        0x00, 0x00, 0x00, 0x00, 0x08, 0x00, 0x00, 0x00, 0x80, 0x02, 0x05, 0x00, 0x00, 0x00,
        0x41, 0x54, 0x73, 0x46, 0x69, 0x6C, 0x65,
    ];

    let schema = TsFileSchemaBuilder::new()
        .add(
            "d1",
            DeviceBuilder::new()
                .add(
                    "s1",
                    TSDataType::INT32,
                    TSEncoding::PLAIN,
                    CompressionType::UNCOMPRESSED,
                )
                .build(),
        )
        .build();
    let mut writer = TsFileWriter::new("data3.tsfile", schema);

    writer.write("d1", "s1", 1, IoTDBValue::INT(13)).unwrap();
    writer.write("d1", "s1", 10, IoTDBValue::INT(14)).unwrap();
    writer.write("d1", "s1", 100, IoTDBValue::INT(15)).unwrap();

    let buffer: Vec<u8> = vec![];

    let mut buffer_writer = WriteWrapper::new(buffer);

    writer._flush(&mut buffer_writer);

    assert_eq!(buffer_writer.writer, expectation);
    assert_eq!(buffer_writer.position, 203);
}

#[test]
fn write_file_5() {
    let device = "root.sg.d1";
    let schema = TsFileSchemaBuilder::new()
        .add(
            device,
            DeviceBuilder::new()
                .add(
                    "s1",
                    TSDataType::INT32,
                    TSEncoding::PLAIN,
                    CompressionType::UNCOMPRESSED,
                )
                .add(
                    "s2",
                    TSDataType::INT32,
                    TSEncoding::PLAIN,
                    CompressionType::UNCOMPRESSED,
                )
                .build(),
        )
        .build();

    let epoch_time_ms = SystemTime::now()
        .duration_since(UNIX_EPOCH)
        .unwrap()
        .as_millis();

    let mut writer =
        TsFileWriter::new(format!("{}-1-0-0.tsfile", epoch_time_ms).as_str(), schema);

    for i in 0..100 {
        writer.write(device, "s1", i, IoTDBValue::INT(i as i32)).unwrap();
        writer.write(device, "s2", i, IoTDBValue::INT(i as i32)).unwrap();
    }

    let file = writer.flush();
    assert!(file.position > 0);
}

#[test]
fn write_i64() {
    let schema = TsFileSchemaBuilder::new()
        .add(
            "d1",
            DeviceBuilder::new()
                .add(
                    "s1",
                    TSDataType::INT64,
                    TSEncoding::PLAIN,
                    CompressionType::UNCOMPRESSED,
                )
                .build(),
        )
        .build();

    let mut writer = TsFileWriter::new("write_long.tsfile", schema);

    let result = writer.write("d1", "s1", 0, IoTDBValue::LONG(0));

    match result {
        Ok(_) => {}
        Err(_) => {
            assert!(false);
        }
    }

    writer.flush();
}

#[test]
fn write_float() {
    let schema = TsFileSchemaBuilder::new()
        .add(
            "d1",
            DeviceBuilder::new()
                .add(
                    "s1",
                    TSDataType::FLOAT,
                    TSEncoding::PLAIN,
                    CompressionType::UNCOMPRESSED,
                )
                .build(),
        )
        .build();

    let mut writer = TsFileWriter::new("write_float.tsfile", schema);

    let result = writer.write("d1", "s1", 0, IoTDBValue::FLOAT((3.141f32).to_bits()));

    match result {
        Ok(_) => {}
        Err(_) => {
            assert!(false);
        }
    }

    writer.flush();
}

#[test]
fn write_multiple_types() {
    let schema = TsFileSchemaBuilder::new()
        .add(
            "d1",
            DeviceBuilder::new()
                .add(
                    "s1",
                    TSDataType::INT32,
                    TSEncoding::PLAIN,
                    CompressionType::UNCOMPRESSED,
                )
                .add(
                    "s2",
                    TSDataType::INT64,
                    TSEncoding::PLAIN,
                    CompressionType::UNCOMPRESSED,
                )
                .add(
                    "s3",
                    TSDataType::FLOAT,
                    TSEncoding::PLAIN,
                    CompressionType::UNCOMPRESSED,
                )
                .build(),
        )
        .build();

    let mut writer = TsFileWriter::new("data123.tsfile", schema);

    writer.write("d1", "s1", 1, IoTDBValue::INT(13)).unwrap();
    writer.write("d1", "s2", 1, IoTDBValue::LONG(14)).unwrap();
    writer.write("d1", "s3", 1, IoTDBValue::FLOAT((15.0f32).to_bits())).unwrap();

    writer.flush();

    let buffer: Vec<u8> = vec![];

    let mut buffer_writer = WriteWrapper::new(buffer);

    writer._flush(&mut buffer_writer);
    assert_eq!(buffer_writer.position as usize, buffer_writer.writer.len());
}

#[test]
fn file_starts_and_ends_with_magic() {
    let schema = TsFileSchemaBuilder::new()
        .add(
            "d1",
            DeviceBuilder::new()
                .add(
                    "s1",
                    TSDataType::INT32,
                    TSEncoding::PLAIN,
                    CompressionType::UNCOMPRESSED,
                )
                .build(),
        )
        .build();
    let mut writer = TsFileWriter::new("magic.tsfile", schema);
    writer.write("d1", "s1", 1, IoTDBValue::INT(13)).unwrap();
    let file = writer.close();
    let bytes = &file.writer;
    assert_eq!(&bytes[0..7], &[0x54, 0x73, 0x46, 0x69, 0x6C, 0x65, 0x03]);
    assert_eq!(&bytes[bytes.len() - 6..], &[0x54, 0x73, 0x46, 0x69, 0x6C, 0x65]);
    // The chunk-group marker and the framed device id follow the header.
    assert_eq!(&bytes[7..11], &[0x00, 0x04, 0x64, 0x31]);
    // The chunk marker and the framed measurement id follow the group header.
    assert_eq!(&bytes[11..15], &[0x05, 0x04, 0x73, 0x31]);
}

#[test]
fn footer_length_counts_back_to_footer() {
    let schema = TsFileSchemaBuilder::new()
        .add(
            "d1",
            DeviceBuilder::new()
                .add(
                    "s1",
                    TSDataType::INT32,
                    TSEncoding::PLAIN,
                    CompressionType::UNCOMPRESSED,
                )
                .build(),
        )
        .build();
    let mut writer = TsFileWriter::new("footer.tsfile", schema);
    writer.write("d1", "s1", 7, IoTDBValue::INT(21)).unwrap();
    let file = writer.close();
    let bytes = &file.writer;
    let n = bytes.len();
    let flen = u32::from_be_bytes([bytes[n - 10], bytes[n - 9], bytes[n - 8], bytes[n - 7]]);
    let footer_index = n - 10 - flen as usize;
    // The footer starts with the root index node; its node-type byte (the
    // 21st byte of a one-entry leaf-device node) closes the node.
    assert_eq!(bytes[footer_index + 20], 0x01);
}

#[test]
fn type_mismatch_leaves_file_unchanged() {
    let build = || {
        TsFileSchemaBuilder::new()
            .add(
                "d1",
                DeviceBuilder::new()
                    .add(
                        "s1",
                        TSDataType::INT32,
                        TSEncoding::PLAIN,
                        CompressionType::UNCOMPRESSED,
                    )
                    .build(),
            )
            .build()
    };

    let mut rejected = TsFileWriter::new("mismatch.tsfile", build());
    let result = rejected.write("d1", "s1", 0, IoTDBValue::FLOAT((1.0f32).to_bits()));
    assert_eq!(result, Err(TsFileError::TypeMismatch));
    let rejected_file = rejected.close();

    let mut untouched = TsFileWriter::new("mismatch.tsfile", build());
    let untouched_file = untouched.close();

    assert_eq!(rejected_file.writer, untouched_file.writer);
}

#[test]
fn routing_errors() {
    let schema = TsFileSchemaBuilder::new()
        .add(
            "d1",
            DeviceBuilder::new()
                .add(
                    "s1",
                    TSDataType::INT32,
                    TSEncoding::PLAIN,
                    CompressionType::UNCOMPRESSED,
                )
                .build(),
        )
        .build();
    let mut writer = TsFileWriter::new("errors.tsfile", schema);
    assert_eq!(
        writer.write("nope", "s1", 0, IoTDBValue::INT(1)),
        Err(TsFileError::UnknownDevice)
    );
    assert_eq!(
        writer.write("d1", "nope", 0, IoTDBValue::INT(1)),
        Err(TsFileError::UnknownMeasurement)
    );
    writer.close();
    assert_eq!(
        writer.write("d1", "s1", 0, IoTDBValue::INT(1)),
        Err(TsFileError::AlreadyClosed)
    );
}

#[test]
fn write_many_routes_each_point() {
    let schema = TsFileSchemaBuilder::new()
        .add(
            "d1",
            DeviceBuilder::new()
                .add(
                    "s1",
                    TSDataType::INT32,
                    TSEncoding::PLAIN,
                    CompressionType::UNCOMPRESSED,
                )
                .add(
                    "s2",
                    TSDataType::INT64,
                    TSEncoding::PLAIN,
                    CompressionType::UNCOMPRESSED,
                )
                .build(),
        )
        .build();
    let mut writer = TsFileWriter::new("row.tsfile", schema);
    let points = vec![
        tsfile::DataPoint::new("s1", IoTDBValue::INT(1)),
        tsfile::DataPoint::new("s2", IoTDBValue::LONG(2)),
    ];
    assert!(writer.write_many("d1", 9, points).is_ok());
    let bad = vec![tsfile::DataPoint::new("s1", IoTDBValue::LONG(3))];
    assert_eq!(writer.write_many("d1", 10, bad), Err(TsFileError::TypeMismatch));
}

#[test]
fn long_series_crosses_delta_blocks() {
    // More than 128 deltas: the time encoder flushes full blocks mid-page.
    let schema = TsFileSchemaBuilder::new()
        .add(
            "d1",
            DeviceBuilder::new()
                .add(
                    "s1",
                    TSDataType::INT32,
                    TSEncoding::PLAIN,
                    CompressionType::UNCOMPRESSED,
                )
                .build(),
        )
        .build();
    let mut writer = TsFileWriter::new("long.tsfile", schema);
    for i in 0..300i64 {
        writer.write("d1", "s1", i, IoTDBValue::INT(i as i32)).unwrap();
    }
    let file = writer.close();
    assert_eq!(file.writer.len(), 786);
    assert_eq!(file.position, 786);
    assert_eq!(&file.writer[0..7], &[0x54, 0x73, 0x46, 0x69, 0x6C, 0x65, 0x03]);
    assert_eq!(&file.writer[file.writer.len() - 6..], b"TsFile");
}
