use mserver::mserialize::MSerialize;
use mserver::mstring::MString;
use mserver::muuid::Muuid;
use mserver::varint::VarInt;

#[test]
fn integers_are_big_endian() {
    assert_eq!(0xabu8.to_bytes_representation(), vec![0xab]);
    assert_eq!((-2i8).to_bytes_representation(), vec![0xfe]);
    assert_eq!(0x1234u16.to_bytes_representation(), vec![0x12, 0x34]);
    assert_eq!((-2i16).to_bytes_representation(), vec![0xff, 0xfe]);
    assert_eq!(0x0102_0304u32.to_bytes_representation(), vec![1, 2, 3, 4]);
    assert_eq!((-1i32).to_bytes_representation(), vec![0xff; 4]);
    assert_eq!(
        0x0102_0304_0506_0708u64.to_bytes_representation(),
        vec![1, 2, 3, 4, 5, 6, 7, 8]
    );
    assert_eq!(i64::MIN.to_bytes_representation(), vec![0x80, 0, 0, 0, 0, 0, 0, 0]);
    assert_eq!(42u32.size_bytes(), 4);
    assert_eq!(false.size_bytes(), 1);
}

#[test]
fn booleans_are_one_byte() {
    assert_eq!(true.to_bytes_representation(), vec![1]);
    assert_eq!(false.to_bytes_representation(), vec![0]);
}

#[test]
fn strings_are_length_prefixed() {
    assert_eq!("hi".to_string().to_bytes_representation(), vec![2, b'h', b'i']);
    assert_eq!(String::new().to_bytes_representation(), vec![0]);
    // the prefix counts UTF-8 bytes, not characters
    assert_eq!("é".to_string().to_bytes_representation(), vec![2, 0xc3, 0xa9]);
    let long = "x".repeat(64);
    let bytes = long.to_bytes_representation();
    assert_eq!(&bytes[..2], &[0xc0, 0x00]);
    assert_eq!(bytes.len(), 66);
    assert_eq!(long.size_bytes(), 66);
    let m = MString::from_str("abc");
    assert_eq!(m.to_bytes_representation(), vec![3, b'a', b'b', b'c']);
    assert_eq!(MString::new().0, "");
    assert_eq!(MString::from("x".to_string()).0, "x");
    assert_eq!(MString::from_utf8_bytes(vec![0xc3, 0xa9]).0, "é");
}

#[test]
fn vectors_and_options_concatenate() {
    let v: Vec<u16> = vec![1, 0x0203];
    assert_eq!(v.to_bytes_representation(), vec![0, 1, 2, 3]);
    let e: Vec<u16> = vec![];
    assert_eq!(e.to_bytes_representation(), Vec::<u8>::new());
    let s: Vec<String> = vec!["a".to_string(), "bc".to_string()];
    assert_eq!(s.to_bytes_representation(), vec![1, b'a', 2, b'b', b'c']);
    let raw: Vec<u8> = vec![9, 8, 7];
    assert_eq!(raw.to_bytes_representation(), vec![9, 8, 7]);
    let none: Option<u32> = None;
    assert_eq!(none.to_bytes_representation(), Vec::<u8>::new());
    assert_eq!(Some(VarInt(-1)).to_bytes_representation(), vec![0x7f]);
}

#[test]
fn uuid_is_its_sixteen_bytes() {
    let bytes: [u8; 16] = [0, 1, 2, 3, 4, 5, 6, 7, 8, 9, 10, 11, 12, 13, 14, 15];
    let u = Muuid::from_bytes(bytes);
    assert_eq!(u.to_bytes_representation(), bytes.to_vec());
    assert_eq!(u.into_bytes(), bytes);
    assert_eq!(Muuid::nil().into_bytes(), [0u8; 16]);
    assert_eq!(u.size_bytes(), 16);
}

#[test]
fn concatenated_vectors_serialise_to_concatenated_bytes() {
    let a: Vec<u32> = vec![1, 2];
    let b: Vec<u32> = vec![3];
    let mut ab = a.clone();
    ab.extend(b.clone());
    let mut expected = a.to_bytes_representation();
    expected.extend(b.to_bytes_representation());
    assert_eq!(ab.to_bytes_representation(), expected);
    assert_eq!(ab.size_bytes(), 12);
}
