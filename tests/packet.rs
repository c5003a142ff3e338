use sustenet::packet::{Packet, PacketError};

#[test]
fn integers_round_trip_in_order() {
    let mut p = Packet::new();
    p.write_byte(7);
    p.write_short(-2);
    p.write_ushort(0x1989);
    p.write_int(-100_000);
    p.write_uint(0xDEAD_BEEF);
    p.write_long(i64::MIN + 5);
    p.write_bool(true);
    p.write_bool(false);
    assert_eq!(p.read_byte(None), Ok(7));
    assert_eq!(p.read_short(None), Ok(-2));
    assert_eq!(p.read_ushort(None), Ok(0x1989));
    assert_eq!(p.read_int(None), Ok(-100_000));
    assert_eq!(p.read_uint(None), Ok(0xDEAD_BEEF));
    assert_eq!(p.read_long(None), Ok(i64::MIN + 5));
    assert_eq!(p.read_bool(None), Ok(true));
    assert_eq!(p.read_bool(None), Ok(false));
    assert_eq!(p.unread_length(), 0);
    assert_eq!(p.read_byte(None), Err(PacketError::ReadError));
}

#[test]
fn integers_are_big_endian() {
    let mut p = Packet::new();
    p.write_ushort(6257);
    p.write_uint(100);
    let mut q = Packet::new_with_data(vec![0x18, 0x71, 0, 0, 0, 0x64]);
    assert_eq!(q.read_ushort(None), Ok(6257));
    assert_eq!(q.read_uint(None), Ok(100));
    assert_eq!(p.read_bytes(6, None), Ok(vec![0x18, 0x71, 0, 0, 0, 0x64]));
}

#[test]
fn strings_round_trip() {
    let mut p = Packet::new();
    p.write_string("srv-main".to_string());
    p.write_string(String::new());
    p.write_string("héllo".to_string());
    assert_eq!(p.read_string(None), Ok("srv-main".to_string()));
    assert_eq!(p.read_string(None), Ok(String::new()));
    assert_eq!(p.read_string(None), Ok("héllo".to_string()));
    let mut q = Packet::new_with_data(vec![2, 0xff, 0xfe]);
    assert_eq!(q.read_string(None), Err(PacketError::ReadError));
    assert_eq!(q.unread_length(), 3);
}

#[test]
fn strings_take_one_length_byte() {
    let mut p = Packet::new();
    p.write_string("srv-main".to_string());
    assert_eq!(p.unread_length(), 9);
    assert_eq!(p.read_byte(Some(false)), Ok(8));
    assert_eq!(p.read_string(Some(false)), Ok("srv-main".to_string()));
    assert_eq!(p.unread_length(), 9);
    assert_eq!(p.read_string(None), Ok("srv-main".to_string()));
    assert_eq!(p.unread_length(), 0);
    let long = "x".repeat(255);
    p.write_string(long.clone());
    assert_eq!(p.read_string(None), Ok(long));
    let mut short = Packet::new_with_data(vec![5, b'a', b'b']);
    assert_eq!(short.read_string(None), Err(PacketError::ReadError));
}

#[test]
fn unsigned_longs_round_trip() {
    let mut p = Packet::new();
    p.write_ulong(u64::MAX - 1);
    p.write_ulong(0x0102_0304_0506_0708);
    assert_eq!(p.read_ulong(None), Ok(u64::MAX - 1));
    assert_eq!(p.read_bytes(8, None), Ok(vec![1, 2, 3, 4, 5, 6, 7, 8]));
    assert_eq!(p.unread_length(), 0);
}

#[test]
fn peeking_does_not_move_the_cursor() {
    let mut p = Packet::new_with_data(vec![1, 2, 3]);
    assert_eq!(p.read_byte(Some(false)), Ok(1));
    assert_eq!(p.read_byte(Some(true)), Ok(1));
    assert_eq!(p.read_bytes(2, Some(false)), Ok(vec![2, 3]));
    assert_eq!(p.unread_length(), 2);
    assert_eq!(p.read_bytes(3, None), Err(PacketError::ReadError));
    assert_eq!(p.unread_length(), 2);
}

#[test]
fn length_and_id_go_in_front() {
    let mut p = Packet::new_with_id(258);
    p.write_byte(9);
    p.write_length();
    assert_eq!(p.read_uint(None), Ok(5));
    assert_eq!(p.read_int(None), Ok(258));
    let mut q = Packet::new();
    q.write_byte(1);
    q.insert_int(-1);
    assert_eq!(q.read_bytes(5, None), Ok(vec![0xff, 0xff, 0xff, 0xff, 1]));
}

#[test]
fn reset_moves_back_or_empties() {
    let mut p = Packet::new();
    p.write_int(5);
    p.write_int(6);
    assert_eq!(p.read_int(None), Ok(5));
    assert_eq!(p.read_int(None), Ok(6));
    p.reset(false);
    assert_eq!(p.read_int(None), Ok(6));
    p.reset(true);
    assert_eq!(p.unread_length(), 0);
    assert_eq!(p.read_byte(None), Err(PacketError::ReadError));
    p.write_byte(1);
    p.deinit();
    assert_eq!(p.unread_length(), 0);
    assert_eq!(PacketError::ReadError.message(), "Failed to read packet.");
}

#[test]
fn floats_round_trip_by_bit_pattern() {
    let mut p = Packet::new();
    p.write_uint(1.5f32.to_bits());
    p.write_long((-2.25f64).to_bits() as i64);
    assert_eq!(p.read_uint(None).map(f32::from_bits), Ok(1.5f32));
    assert_eq!(p.read_long(None).map(|x| f64::from_bits(x as u64)), Ok(-2.25f64));
}
