use termine::cell::{decode, encode, get_v, is_e, is_mine, is_o, set_o, Cell};

#[test]
fn test_a() {
    assert_eq!(true, true);
}

#[test]
fn encode_packs_flags_and_value() {
    assert_eq!(encode(false, false, 0), 0x00);
    assert_eq!(encode(true, false, 3), 0x13);
    assert_eq!(encode(false, true, 15), 0x8f);
    assert_eq!(encode(true, true, 8), 0x98);
}

#[test]
fn decode_reads_every_byte() {
    for u in 0..=255u8 {
        let d = decode(u);
        assert_eq!(d.opened, u & 0x10 != 0);
        assert_eq!(d.forced, u & 0x80 != 0);
        assert_eq!(d.value, u & 0x0f);
    }
    assert_eq!(decode(0x9f), Cell { opened: true, forced: true, value: 15 });
}

#[test]
fn decode_undoes_encode() {
    for v in 0..=15u8 {
        for o in [false, true] {
            for e in [false, true] {
                assert_eq!(decode(encode(o, e, v)), Cell { opened: o, forced: e, value: v });
            }
        }
    }
}

#[test]
fn encode_of_decode_drops_only_the_two_marks() {
    for u in 0..=255u8 {
        let d = decode(u);
        assert_eq!(encode(d.opened, d.forced, d.value), u & 0x9f);
    }
}

#[test]
fn cell_queries() {
    assert!(is_mine(0x0f));
    assert!(is_mine(0x1f));
    assert!(!is_mine(0x08));
    assert!(is_o(0x10));
    assert!(!is_o(0x8f));
    assert!(is_e(0x90));
    assert!(!is_e(0x10));
    assert_eq!(get_v(0x97), 7);
}

#[test]
fn set_o_opens_and_marks_forced_only_closed_cells() {
    assert_eq!(set_o(0x03, false), 0x13);
    assert_eq!(set_o(0x13, false), 0x13);
    assert_eq!(set_o(0x03, true), 0x93);
    assert_eq!(set_o(0x13, true), 0x13);
    assert_eq!(set_o(0x0f, true), 0x9f);
}
