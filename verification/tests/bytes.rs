use broforce::bytes::{
    low_word, to_signed32, to_word32, u16_from_le, u32_from_le, u32_to_le, u64_from_le, u64_to_le,
};

#[test]
fn little_endian_values_come_back() {
    for v in [0u64, 1, 0x80, 0x1122_3344_5566_7788, u64::MAX] {
        assert_eq!(u64_to_le(v), v.to_le_bytes());
        assert_eq!(u64_from_le(&u64_to_le(v), 0), v);
        let w = v as u32;
        assert_eq!(u32_to_le(w), w.to_le_bytes());
        let b = u32_to_le(w);
        assert_eq!(u32_from_le(b[0], b[1], b[2], b[3]), w);
        assert_eq!(low_word(v), w);
    }
    assert_eq!(u16_from_le(0x34, 0x12), 0x1234);
    assert_eq!(u64_from_le(&[9, 1, 0, 0, 0, 0, 0, 0, 0x80, 9], 1), 0x8000_0000_0000_0001);
}

#[test]
fn signed_words_come_back() {
    for v in [0, 1, -1, 999, i32::MIN, i32::MAX] {
        assert_eq!(to_word32(v), v as u32);
        assert_eq!(to_signed32(to_word32(v)), v);
    }
}
