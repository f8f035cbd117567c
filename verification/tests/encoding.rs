//! Values as arguments: what is sent, and whether it is packed.

use redis_lua::types::{script_arg, Value};

fn sent(value: Value) -> (Vec<u8>, bool) {
    let arg = script_arg(&value);
    (arg.bytes().to_vec(), arg.pack())
}

/// What `value` is packed as inside a list of two values: the list's header
/// and the packed nil behind the value are cut off.
fn packed(value: Value) -> Vec<u8> {
    let (bytes, pack) = sent(Value::List(vec![value, Value::Unit]));
    assert!(pack);
    assert_eq!(bytes[0], 0x92);
    assert_eq!(bytes[bytes.len() - 1], 0xc0);
    bytes[1..bytes.len() - 1].to_vec()
}

fn text(s: &str) -> Value {
    Value::Str(s.to_string())
}

#[test]
fn nothing_is_sent_for_no_value() {
    assert_eq!(sent(Value::Unit), (Vec::new(), false));
    assert_eq!(sent(Value::UnitStruct), (Vec::new(), false));
}

#[test]
fn booleans_are_sent_as_one_or_zero() {
    assert_eq!(sent(Value::Bool(true)), (b"1".to_vec(), false));
    assert_eq!(sent(Value::Bool(false)), (b"0".to_vec(), false));
}

#[test]
fn numbers_are_sent_as_decimal_numerals() {
    assert_eq!(sent(Value::Int(0)), (b"0".to_vec(), false));
    assert_eq!(sent(Value::Int(11)), (b"11".to_vec(), false));
    assert_eq!(sent(Value::Int(-23)), (b"-23".to_vec(), false));
    assert_eq!(sent(Value::Int(i64::MAX)), (b"9223372036854775807".to_vec(), false));
    assert_eq!(sent(Value::Int(i64::MIN)), (b"-9223372036854775808".to_vec(), false));
    assert_eq!(sent(Value::Byte(0)), (b"0".to_vec(), false));
    assert_eq!(sent(Value::Byte(255)), (b"255".to_vec(), false));
    assert_eq!(sent(Value::UInt(1000)), (b"1000".to_vec(), false));
    assert_eq!(sent(Value::UInt(u64::MAX)), (b"18446744073709551615".to_vec(), false));
}

#[test]
fn texts_and_bytes_are_sent_as_they_are() {
    assert_eq!(sent(text("hello")), (b"hello".to_vec(), false));
    assert_eq!(sent(text("")), (Vec::new(), false));
    assert_eq!(sent(text("é")), (vec![0xc3, 0xa9], false));
    assert_eq!(sent(Value::Bytes(b"hello".to_vec())), (b"hello".to_vec(), false));
    assert_eq!(sent(Value::Bytes(vec![0, 255, 10])), (vec![0, 255, 10], false));
    assert_eq!(sent(Value::Bytes(Vec::new())), (Vec::new(), false));
}

#[test]
fn variant_is_sent_as_its_name_and_packed_as_its_number() {
    let blue = Value::Variant { index: 2, name: "Blue".to_string() };
    assert_eq!(sent(blue), (b"Blue".to_vec(), false));
    assert_eq!(packed(Value::Variant { index: 2, name: "Blue".to_string() }), vec![0x02]);
    assert_eq!(
        packed(Value::Variant { index: 70000, name: "Far".to_string() }),
        vec![0xce, 0x00, 0x01, 0x11, 0x70]
    );
}

#[test]
fn empty_list_is_an_empty_container_and_bytes_are_a_byte_string() {
    let empty = sent(Value::List(Vec::new()));
    let bytes = sent(Value::List(vec![Value::Byte(1), Value::Byte(2), Value::Byte(3)]));
    assert_eq!(empty, (vec![0x90], true));
    assert_eq!(bytes, (vec![1, 2, 3], false));
    assert_ne!(empty, bytes);
    assert_eq!(sent(Value::List(vec![Value::Byte(0x90)])), (vec![0x90], false));
}

#[test]
fn list_with_anything_but_bytes_is_packed() {
    assert_eq!(
        sent(Value::List(vec![Value::Byte(1), Value::UInt(2)])),
        (vec![0x92, 0x01, 0x02], true)
    );
    assert_eq!(
        sent(Value::List(vec![Value::UInt(1), Value::UInt(2), Value::UInt(3)])),
        (vec![0x93, 0x01, 0x02, 0x03], true)
    );
    assert_eq!(
        sent(Value::List(vec![text("foo"), text("bar"), text("baz")])),
        (b"\x93\xa3foo\xa3bar\xa3baz".to_vec(), true)
    );
    assert_eq!(
        sent(Value::List(vec![Value::Byte(200), Value::Unit])),
        (vec![0x92, 0xcc, 0xc8, 0xc0], true)
    );
}

#[test]
fn list_of_bytes_inside_a_value_is_a_packed_string() {
    assert_eq!(packed(Value::List(vec![Value::Byte(1), Value::Byte(2)])), vec![0xa2, 1, 2]);
    assert_eq!(packed(Value::List(Vec::new())), vec![0x90]);
    assert_eq!(
        sent(Value::List(vec![Value::List(vec![Value::Byte(7)]), Value::List(vec![Value::Byte(8)])])),
        (vec![0x92, 0xa1, 7, 0xa1, 8], true)
    );
}

#[test]
fn table_is_packed_as_a_map() {
    let fields = Value::Table(vec![
        (text("a"), Value::UInt(32)),
        (text("b"), text("hello")),
        (text("c"), Value::Bool(true)),
    ]);
    assert_eq!(sent(fields), (b"\x83\xa1a\x20\xa1b\xa5hello\xa1c\xc3".to_vec(), true));
    assert_eq!(sent(Value::Table(Vec::new())), (vec![0x80], true));
    assert_eq!(
        packed(Value::Table(vec![(Value::Int(3), text("a"))])),
        vec![0x81, 0x03, 0xa1, b'a']
    );
    let wide: Vec<(Value, Value)> = (0..16).map(|i| (Value::UInt(i), Value::Unit)).collect();
    let (bytes, pack) = sent(Value::Table(wide));
    assert!(pack);
    assert_eq!(&bytes[..3], &[0xde, 0x00, 0x10]);
    assert_eq!(bytes.len(), 3 + 32);
}

#[test]
fn plain_values_are_packed_by_their_kind() {
    assert_eq!(packed(Value::Unit), vec![0xc0]);
    assert_eq!(packed(Value::UnitStruct), vec![0x90]);
    assert_eq!(packed(Value::Bool(true)), vec![0xc3]);
    assert_eq!(packed(Value::Bool(false)), vec![0xc2]);
    assert_eq!(packed(text("OK")), vec![0xa2, b'O', b'K']);
    assert_eq!(packed(Value::Bytes(b"OK".to_vec())), vec![0xa2, b'O', b'K']);
    assert_eq!(packed(text("é")), vec![0xa2, 0xc3, 0xa9]);
    assert_eq!(packed(Value::Byte(5)), vec![0x05]);
    assert_eq!(packed(Value::Byte(200)), vec![0xcc, 0xc8]);
}

#[test]
fn unsigned_integers_take_the_shortest_form() {
    assert_eq!(packed(Value::UInt(0)), vec![0x00]);
    assert_eq!(packed(Value::UInt(127)), vec![0x7f]);
    assert_eq!(packed(Value::UInt(128)), vec![0xcc, 0x80]);
    assert_eq!(packed(Value::UInt(255)), vec![0xcc, 0xff]);
    assert_eq!(packed(Value::UInt(256)), vec![0xcd, 0x01, 0x00]);
    assert_eq!(packed(Value::UInt(65535)), vec![0xcd, 0xff, 0xff]);
    assert_eq!(packed(Value::UInt(65536)), vec![0xce, 0x00, 0x01, 0x00, 0x00]);
    assert_eq!(packed(Value::UInt(4294967295)), vec![0xce, 0xff, 0xff, 0xff, 0xff]);
    assert_eq!(
        packed(Value::UInt(4294967296)),
        vec![0xcf, 0x00, 0x00, 0x00, 0x01, 0x00, 0x00, 0x00, 0x00]
    );
    assert_eq!(packed(Value::UInt(u64::MAX)), vec![0xcf, 255, 255, 255, 255, 255, 255, 255, 255]);
    assert_eq!(
        packed(Value::UInt(0x0102030405060708)),
        vec![0xcf, 1, 2, 3, 4, 5, 6, 7, 8]
    );
}

#[test]
fn signed_integers_take_the_shortest_form() {
    assert_eq!(packed(Value::Int(0)), vec![0x00]);
    assert_eq!(packed(Value::Int(127)), vec![0x7f]);
    assert_eq!(packed(Value::Int(128)), vec![0xcc, 0x80]);
    assert_eq!(packed(Value::Int(256)), vec![0xcd, 0x01, 0x00]);
    assert_eq!(packed(Value::Int(65536)), vec![0xce, 0x00, 0x01, 0x00, 0x00]);
    assert_eq!(
        packed(Value::Int(i64::MAX)),
        vec![0xcf, 0x7f, 255, 255, 255, 255, 255, 255, 255]
    );
    assert_eq!(packed(Value::Int(-1)), vec![0xff]);
    assert_eq!(packed(Value::Int(-32)), vec![0xe0]);
    assert_eq!(packed(Value::Int(-33)), vec![0xd0, 0xdf]);
    assert_eq!(packed(Value::Int(-128)), vec![0xd0, 0x80]);
    assert_eq!(packed(Value::Int(-129)), vec![0xd1, 0xff, 0x7f]);
    assert_eq!(packed(Value::Int(-32768)), vec![0xd1, 0x80, 0x00]);
    assert_eq!(packed(Value::Int(-32769)), vec![0xd2, 0xff, 0xff, 0x7f, 0xff]);
    assert_eq!(packed(Value::Int(-2147483648)), vec![0xd2, 0x80, 0x00, 0x00, 0x00]);
    assert_eq!(
        packed(Value::Int(-2147483649)),
        vec![0xd3, 0xff, 0xff, 0xff, 0xff, 0x7f, 0xff, 0xff, 0xff]
    );
    assert_eq!(packed(Value::Int(i64::MIN)), vec![0xd3, 0x80, 0, 0, 0, 0, 0, 0, 0]);
}

#[test]
fn string_headers_grow_with_the_length() {
    let of = |n: usize| packed(Value::Bytes(vec![b'x'; n]));
    assert_eq!(of(0), vec![0xa0]);
    assert_eq!(&of(31)[..1], &[0xbf]);
    assert_eq!(of(31).len(), 32);
    assert_eq!(&of(32)[..2], &[0xd9, 0x20]);
    assert_eq!(&of(255)[..2], &[0xd9, 0xff]);
    assert_eq!(&of(256)[..3], &[0xda, 0x01, 0x00]);
    assert_eq!(&of(65535)[..3], &[0xda, 0xff, 0xff]);
    assert_eq!(&of(65536)[..5], &[0xdb, 0x00, 0x01, 0x00, 0x00]);
    assert_eq!(of(65536).len(), 65541);
}

#[test]
fn array_headers_grow_with_the_length() {
    let of = |n: usize| sent(Value::List((0..n).map(|_| Value::Unit).collect())).0;
    assert_eq!(of(1), vec![0x91, 0xc0]);
    assert_eq!(&of(15)[..1], &[0x9f]);
    assert_eq!(&of(16)[..3], &[0xdc, 0x00, 0x10]);
    assert_eq!(of(16).len(), 19);
    assert_eq!(&of(65535)[..3], &[0xdc, 0xff, 0xff]);
    assert_eq!(&of(65536)[..5], &[0xdd, 0x00, 0x01, 0x00, 0x00]);
}

#[test]
fn long_list_of_bytes_is_one_string() {
    let bytes: Vec<Value> = (0..300).map(|i| Value::Byte((i % 256) as u8)).collect();
    let raw: Vec<u8> = (0..300).map(|i| (i % 256) as u8).collect();
    assert_eq!(sent(Value::List(bytes)), (raw.clone(), false));
    let bytes: Vec<Value> = (0..300).map(|i| Value::Byte((i % 256) as u8)).collect();
    let inside = packed(Value::List(bytes));
    assert_eq!(&inside[..3], &[0xda, 0x01, 0x2c]);
    assert_eq!(&inside[3..], &raw[..]);
}

#[test]
fn encoded_value_is_taken_as_given() {
    let half = || Value::Encoded { arg: b"0.5".to_vec(), packed: vec![0xca, 0x3f, 0, 0, 0] };
    assert_eq!(sent(half()), (b"0.5".to_vec(), false));
    assert_eq!(packed(half()), vec![0xca, 0x3f, 0, 0, 0]);
}

#[test]
fn argument_can_be_copied() {
    let arg = script_arg(&Value::List(vec![text("a")]));
    let copy = arg.clone();
    assert_eq!(copy.bytes(), arg.bytes());
    assert_eq!(copy.pack(), arg.pack());
}
