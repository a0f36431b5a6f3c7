use tsfile::{read_var_u32, write_var_u32};

#[test]
fn read_var_int() {
    for number in [1, 12, 123, 1234, 12345, 123456, 1234567, 12345678, 123456789] {
        let mut result: Vec<u8> = vec![];

        // Write it
        write_var_u32(number, &mut result);
        // Read it back
        let result: u32 = read_var_u32(result.as_slice());

        assert_eq!(number, result);
    }
}

#[test]
fn write_var_int() {
    let number: u32 = 123456789;
    let mut result: Vec<u8> = vec![];
    let position = write_var_u32(number, &mut result);

    assert_eq!(position, 4);
    assert_eq!(
        result.as_slice(),
        [0b10010101, 0b10011010, 0b11101111, 0b00111010]
    );
}

#[test]
fn write_var_int_2() {
    let number: u32 = 128;
    let mut result: Vec<u8> = vec![];
    let position = write_var_u32(number, &mut result);

    assert_eq!(position, 2);
    assert_eq!(result.as_slice(), [128, 1]);
}

#[test]
fn write_var_int_3() {
    let number: u32 = 13;
    let mut result: Vec<u8> = vec![];
    let position = write_var_u32(number, &mut result);

    assert_eq!(position, 1);
    assert_eq!(result.as_slice(), [13]);
}

#[test]
fn pre_write_var_int() {
    let mut number: u32 = 123456789;
    let bytes: [u8; 4] = number.to_be_bytes();
    assert_eq!(bytes, [0b00000111, 0b01011011, 0b11001101, 0b00010101]);

    let mut buffer: Vec<u8> = vec![];

    // Now compress them
    let mut position: u8 = 1;

    while (number & 0xFFFFFF80) != 0 {
        buffer.push(((number & 0x7F) | 0x80) as u8);
        number = number >> 7;
        position = position + 1;
    }

    buffer.push((number & 0x7F) as u8);

    assert_eq!(buffer, [0b10010101, 0b10011010, 0b11101111, 0b00111010]);
    assert!(position >= 1);
}

#[test]
fn varuint_boundaries() {
    let mut one_byte: Vec<u8> = vec![];
    write_var_u32(13, &mut one_byte);
    assert_eq!(one_byte, vec![0x0D]);

    let mut two_bytes: Vec<u8> = vec![];
    write_var_u32(128, &mut two_bytes);
    assert_eq!(two_bytes, vec![0x80, 0x01]);

    let mut four_bytes: Vec<u8> = vec![];
    write_var_u32(123456789, &mut four_bytes);
    assert_eq!(four_bytes, vec![0x95, 0x9A, 0xEF, 0x3A]);

    let mut max: Vec<u8> = vec![];
    let n = write_var_u32(u32::MAX, &mut max);
    assert_eq!(n, 5);
    assert_eq!(read_var_u32(max.as_slice()), u32::MAX);

    let mut zero: Vec<u8> = vec![];
    assert_eq!(write_var_u32(0, &mut zero), 1);
    assert_eq!(zero, vec![0x00]);
}

#[test]
fn signed_varint_zigzag() {
    let mut buf: Vec<u8> = vec![];
    tsfile::write_var_i32(2, &mut buf);
    assert_eq!(buf, vec![4]);

    let mut buf2: Vec<u8> = vec![];
    tsfile::write_var_i32(-1, &mut buf2);
    assert_eq!(buf2, vec![1]);

    let mut buf3: Vec<u8> = vec![];
    tsfile::write_var_i32(-64, &mut buf3);
    assert_eq!(buf3, vec![127]);
}
