use sui_hooks::framing::{length_header, ByteOrder};

#[test]
fn little_header_puts_the_low_byte_first() {
    assert_eq!(length_header(ByteOrder::Little, 0), vec![0, 0, 0, 0]);
    assert_eq!(length_header(ByteOrder::Little, 258), vec![2, 1, 0, 0]);
    assert_eq!(length_header(ByteOrder::Little, 0x0403_0201), vec![1, 2, 3, 4]);
}

#[test]
fn big_header_puts_the_high_byte_first() {
    assert_eq!(length_header(ByteOrder::Big, 258), vec![0, 0, 1, 2]);
    assert_eq!(length_header(ByteOrder::Big, 0x0403_0201), vec![4, 3, 2, 1]);
}

#[test]
fn headers_agree_with_the_integer_encoding() {
    for len in [0usize, 1, 255, 256, 65535, 65536, 16777215, 16777216, u32::MAX as usize] {
        assert_eq!(length_header(ByteOrder::Little, len), (len as u32).to_le_bytes().to_vec());
        assert_eq!(length_header(ByteOrder::Big, len), (len as u32).to_be_bytes().to_vec());
    }
}

#[test]
fn header_of_a_length_beyond_four_bytes_wraps() {
    let len = u32::MAX as usize + 6;
    assert_eq!(length_header(ByteOrder::Little, len), (len as u32).to_le_bytes().to_vec());
    assert_eq!(length_header(ByteOrder::Big, len), vec![0, 0, 0, 5]);
}
