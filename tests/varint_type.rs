use mclient::varint::{decode_varint, varint_read, varint_write, WireError};

#[test]
fn test_read() {
    assert_eq!(0, varint_read(vec![0x00].as_mut()).unwrap());
    assert_eq!(1, varint_read(vec![0x01].as_mut()).unwrap());
    assert_eq!(2, varint_read(vec![0x02].as_mut()).unwrap());
    assert_eq!(127, varint_read(vec![0x7f].as_mut()).unwrap());
    assert_eq!(128, varint_read(vec![0x80, 0x01].as_mut()).unwrap());
    assert_eq!(255, varint_read(vec![0xff, 0x01].as_mut()).unwrap());
    assert_eq!(25565, varint_read(vec![0xdd, 0xc7, 0x01].as_mut()).unwrap());
    assert_eq!(
        2097151,
        varint_read(vec![0xff, 0xff, 0x7f].as_mut()).unwrap()
    );
    assert_eq!(
        2147483647,
        varint_read(vec![0xff, 0xff, 0xff, 0xff, 0x07].as_mut()).unwrap()
    );
    assert_eq!(
        -1,
        varint_read(vec![0xff, 0xff, 0xff, 0xff, 0x0f].as_mut()).unwrap()
    );
    assert_eq!(
        -2147483648,
        varint_read(vec![0x80, 0x80, 0x80, 0x80, 0x08].as_mut()).unwrap()
    );
}

#[test]
fn test_write() {
    assert_eq!(vec![0x00], varint_write(0));
    assert_eq!(vec![0x01], varint_write(1));
    assert_eq!(vec![0x02], varint_write(2));
    assert_eq!(vec![0x7f], varint_write(127));
    assert_eq!(vec![0x80, 0x01], varint_write(128));
    assert_eq!(vec![0xff, 0x01], varint_write(255));
    assert_eq!(vec![0xdd, 0xc7, 0x01], varint_write(25565));
    assert_eq!(vec![0xff, 0xff, 0x7f], varint_write(2097151));
    assert_eq!(vec![0xff, 0xff, 0xff, 0xff, 0x07], varint_write(2147483647));
    assert_eq!(vec![0xff, 0xff, 0xff, 0xff, 0x0f], varint_write(-1));
    assert_eq!(
        vec![0x80, 0x80, 0x80, 0x80, 0x08],
        varint_write(-2147483648)
    );
}

#[test]
fn varint_round_trip_on_samples() {
    for v in [0, 1, 127, 128, 25565, -1, 2147483647, -2147483648, -300, 1 << 28] {
        let mut bytes = varint_write(v);
        let len = bytes.len();
        assert_eq!(decode_varint(&bytes, 0), Ok((v, len)));
        assert_eq!(varint_read(&mut bytes), Ok(v));
        assert!(bytes.is_empty());
    }
}

#[test]
fn varint_read_leaves_the_rest() {
    let mut bytes = vec![0xdd, 0xc7, 0x01, 0x2a, 0x07];
    assert_eq!(varint_read(&mut bytes), Ok(25565));
    assert_eq!(bytes, vec![0x2a, 0x07]);
}

#[test]
fn varint_sixth_byte_is_malformed() {
    let mut bytes = vec![0x80, 0x80, 0x80, 0x80, 0x80, 0x01];
    assert_eq!(varint_read(&mut bytes), Err(WireError::MalformedVarInt));
    assert_eq!(bytes, vec![0x01]);
}

#[test]
fn varint_truncated_input() {
    assert_eq!(varint_read(&mut vec![]), Err(WireError::Truncated));
    assert_eq!(varint_read(&mut vec![0x80, 0x80]), Err(WireError::Truncated));
}

#[test]
fn decode_varint_at_offset() {
    let bytes = vec![0x00, 0x80, 0x01, 0x05];
    assert_eq!(decode_varint(&bytes, 1), Ok((128, 2)));
    assert_eq!(decode_varint(&bytes, 4), Err(WireError::Truncated));
}

#[test]
fn varint_fifth_byte_high_bits_wrap() {
    assert_eq!(varint_read(&mut vec![0xff, 0xff, 0xff, 0xff, 0x7f]), Ok(-1));
    assert_eq!(varint_read(&mut vec![0x80, 0x80, 0x80, 0x80, 0x78]), Ok(-2147483648));
}
