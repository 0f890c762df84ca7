use brahmaputra::codec::{ByteBuff, CodecError, Endianness};

fn buff(endian: Endianness) -> ByteBuff {
    ByteBuff::new(endian, 10000)
}

fn rewound(bb: &ByteBuff) -> ByteBuff {
    let mut rd = ByteBuff::new(bb.endian, bb.multiplier);
    rd.wrap(bb.to_array());
    rd
}

#[test]
fn short_round_trip_big_endian() {
    let mut bb = buff(Endianness::Big);
    bb.put_short(12345);
    bb.put_short(-12345);
    bb.put_short(0);
    bb.put_short(i16::MIN);
    bb.put_short(i16::MAX);
    let mut rd = rewound(&bb);
    assert_eq!(rd.get_short(), Ok(12345));
    assert_eq!(rd.get_short(), Ok(-12345));
    assert_eq!(rd.get_short(), Ok(0));
    assert_eq!(rd.get_short(), Ok(i16::MIN));
    assert_eq!(rd.get_short(), Ok(i16::MAX));
    assert_eq!(rd.get_short(), Err(CodecError::Underflow));
}

#[test]
fn short_round_trip_little_endian() {
    let mut bb = buff(Endianness::Little);
    bb.put_short(-2);
    bb.put_short(517);
    let mut rd = rewound(&bb);
    assert_eq!(rd.get_short(), Ok(-2));
    assert_eq!(rd.get_short(), Ok(517));
}

#[test]
fn int_round_trip_both_endians() {
    for endian in [Endianness::Big, Endianness::Little] {
        let mut bb = buff(endian);
        for v in [0, 1, -1, 100, i32::MIN, i32::MAX, 2_000_000_000] {
            bb.put_int(v);
        }
        let mut rd = rewound(&bb);
        for v in [0, 1, -1, 100, i32::MIN, i32::MAX, 2_000_000_000] {
            assert_eq!(rd.get_int(), Ok(v));
        }
    }
}

#[test]
fn long_round_trip_both_endians() {
    for endian in [Endianness::Big, Endianness::Little] {
        let mut bb = buff(endian);
        for v in [0i64, -1, i64::MIN, i64::MAX, 1 << 40] {
            bb.put_long(v);
        }
        let mut rd = rewound(&bb);
        for v in [0i64, -1, i64::MIN, i64::MAX, 1 << 40] {
            assert_eq!(rd.get_long(), Ok(v));
        }
    }
}

#[test]
fn int_big_endian_wire_bytes_are_network_order() {
    let mut bb = buff(Endianness::Big);
    bb.put_int(0x01020304);
    assert_eq!(bb.to_array(), vec![1, 2, 3, 4]);
    let mut lb = buff(Endianness::Little);
    lb.put_int(0x01020304);
    assert_eq!(lb.to_array(), vec![4, 3, 2, 1]);
}

#[test]
fn bool_round_trip() {
    let mut bb = buff(Endianness::Big);
    bb.put_bool(true);
    bb.put_bool(false);
    assert_eq!(bb.to_array(), vec![1, 0]);
    let mut rd = rewound(&bb);
    assert_eq!(rd.get_bool(), Ok(true));
    assert_eq!(rd.get_bool(), Ok(false));
    assert_eq!(rd.get_bool(), Err(CodecError::Underflow));
}

#[test]
fn fixed_point_float_stores_truncated_units() {
    // with the default multiplier of 10000 the value 3.14159 is carried as
    // the integer 31415 and comes back as 3.1415: truncation toward zero
    let multiplier = 10000.0f64;
    let scaled = (3.14159f64 * multiplier) as u64;
    assert_eq!(scaled, 31415);
    let mut bb = buff(Endianness::Big);
    bb.put_float(scaled);
    let mut rd = rewound(&bb);
    let units = rd.get_float().unwrap();
    assert_eq!(units, 31415);
    assert_eq!(units as f64 / multiplier, 3.1415);
}

#[test]
fn float_units_round_trip_both_endians() {
    for endian in [Endianness::Big, Endianness::Little] {
        let mut bb = buff(endian);
        bb.put_float(0);
        bb.put_float(u64::MAX);
        bb.put_float(31415);
        let mut rd = rewound(&bb);
        assert_eq!(rd.get_float(), Ok(0));
        assert_eq!(rd.get_float(), Ok(u64::MAX));
        assert_eq!(rd.get_float(), Ok(31415));
    }
}

#[test]
fn blob_round_trip() {
    let payload = vec![1u8, 2, 3, 255, 0, 128];
    let mut bb = buff(Endianness::Big);
    bb.put(payload.clone());
    let wire = bb.to_array();
    assert_eq!(wire.len(), 8 + payload.len());
    assert_eq!(&wire[..8], &[0, 0, 0, 0, 0, 0, 0, 6]);
    let mut rd = rewound(&bb);
    assert_eq!(rd.get(), Ok(payload));
}

#[test]
fn empty_blob_round_trip() {
    let mut bb = buff(Endianness::Big);
    bb.put(vec![]);
    assert_eq!(bb.to_array(), vec![0, 0, 0, 0, 0, 0, 0, 0]);
    let mut rd = rewound(&bb);
    assert_eq!(rd.get(), Ok(vec![]));
}

#[test]
fn blob_with_short_body_is_underflow() {
    let mut rd = buff(Endianness::Big);
    rd.wrap(vec![0, 0, 0, 0, 0, 0, 0, 9, 1, 2, 3]);
    assert_eq!(rd.get(), Err(CodecError::Underflow));
    let mut rd2 = buff(Endianness::Big);
    rd2.wrap(vec![0, 0, 1]);
    assert_eq!(rd2.get(), Err(CodecError::Underflow));
}

fn string_round_trip(s: &str, expected_tag: Option<u8>) {
    for endian in [Endianness::Big, Endianness::Little] {
        let mut bb = buff(endian);
        bb.put_string(s.to_string());
        if let Some(tag) = expected_tag {
            assert_eq!(bb.to_array()[0], tag);
        }
        let mut rd = rewound(&bb);
        assert_eq!(rd.get_string(), Ok(s.to_string()));
    }
}

#[test]
fn string_round_trip_boundary_lengths() {
    // tag 1 covers byte lengths 1..=127, tag 2 up to 32767, tag 3 beyond
    string_round_trip("a", Some(1));
    string_round_trip(&"b".repeat(127), Some(1));
    string_round_trip(&"c".repeat(128), Some(2));
    string_round_trip(&"d".repeat(32767), Some(2));
    string_round_trip(&"e".repeat(32768), Some(3));
    string_round_trip(&"f".repeat(100_000), Some(3));
    string_round_trip("héllo wörld ✓", None);
}

#[test]
fn empty_string_uses_sentinel() {
    let mut bb = buff(Endianness::Big);
    bb.put_string(String::new());
    assert_eq!(bb.to_array(), vec![1, 1, 88]);
    let mut rd = rewound(&bb);
    assert_eq!(rd.get_string(), Ok(String::new()));
}

#[test]
fn sentinel_collision_decodes_x_as_empty() {
    // the one collision of the sentinel design: the one-byte string "X"
    // shares its encoding with the empty string and decodes back to ""
    let mut bb = buff(Endianness::Big);
    bb.put_string("X".to_string());
    assert_eq!(bb.to_array(), vec![1, 1, 88]);
    let mut rd = rewound(&bb);
    assert_eq!(rd.get_string(), Ok(String::new()));
}

#[test]
fn string_tag_two_length_field_is_two_bytes() {
    let s = "c".repeat(128);
    let mut bb = buff(Endianness::Big);
    bb.put_string(s.clone());
    let wire = bb.to_array();
    assert_eq!(&wire[..3], &[2, 0, 128]);
    assert_eq!(wire.len(), 3 + 128);
}

#[test]
fn invalid_utf8_string_is_a_decode_error() {
    let mut rd = buff(Endianness::Big);
    rd.wrap(vec![1, 2, 0xff, 0xfe]);
    assert_eq!(rd.get_string(), Err(CodecError::InvalidUtf8));
}

#[test]
fn truncated_string_is_underflow() {
    let mut rd = buff(Endianness::Big);
    rd.wrap(vec![1, 5, 104, 105]);
    assert_eq!(rd.get_string(), Err(CodecError::Underflow));
    let mut rd2 = buff(Endianness::Big);
    rd2.wrap(vec![2, 0]);
    assert_eq!(rd2.get_string(), Err(CodecError::Underflow));
    let mut rd3 = buff(Endianness::Big);
    rd3.wrap(vec![]);
    assert_eq!(rd3.get_string(), Err(CodecError::Underflow));
}

#[test]
fn fields_read_back_in_write_order() {
    let mut bb = buff(Endianness::Big);
    bb.put_string("topic".to_string());
    bb.put_int(7);
    bb.put_bool(true);
    bb.put(vec![9, 8, 7]);
    bb.put_short(-3);
    let mut rd = rewound(&bb);
    assert_eq!(rd.get_string(), Ok("topic".to_string()));
    assert_eq!(rd.get_int(), Ok(7));
    assert_eq!(rd.get_bool(), Ok(true));
    assert_eq!(rd.get(), Ok(vec![9, 8, 7]));
    assert_eq!(rd.get_short(), Ok(-3));
}

#[test]
fn init_applies_default_multiplier() {
    let mut bb = ByteBuff::new(Endianness::Little, 500);
    assert_eq!(bb.multiplier, 500);
    bb.init(Endianness::Big);
    assert_eq!(bb.multiplier, 500);
    assert_eq!(bb.endian, Endianness::Big);
    let mut unset = ByteBuff::new(Endianness::Big, 0);
    assert_eq!(unset.multiplier, 10000);
    unset.multiplier = 0;
    unset.init(Endianness::Little);
    assert_eq!(unset.multiplier, 10000);
    assert_eq!(unset.endian, Endianness::Little);
}
