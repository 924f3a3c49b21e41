use e131_codec::e1_31_pkt;

fn sample() -> e1_31_pkt {
    let mut p = e1_31_pkt::new();
    p.cid = [
        1, 2, 3, 4, 5, 6, 7, 8, 9, 10, 11, 12, 13, 14, 15, 16,
    ];
    p.source_name = "Console A".to_string();
    p.priority = 150;
    p.sync_addr = 0x1234;
    p.seq = 42;
    p.options = 0x40;
    p.universe = 0x0102;
    p.values = vec![0, 10, 20, 255];
    p.property_value_count = 4;
    p
}

fn assert_same(a: &e1_31_pkt, b: &e1_31_pkt) {
    assert_eq!(a.cid, b.cid);
    assert_eq!(a.source_name, b.source_name);
    assert_eq!(a.priority, b.priority);
    assert_eq!(a.sync_addr, b.sync_addr);
    assert_eq!(a.seq, b.seq);
    assert_eq!(a.options, b.options);
    assert_eq!(a.universe, b.universe);
    assert_eq!(a.property_value_count, b.property_value_count);
    assert_eq!(a.values, b.values);
}

#[test]
fn new_has_defaults() {
    let p = e1_31_pkt::new();
    assert_eq!(p.cid, [0u8; 16]);
    assert_eq!(p.source_name, "");
    assert_eq!(p.priority, 100);
    assert_eq!(p.sync_addr, 0);
    assert_eq!(p.seq, 0);
    assert_eq!(p.options, 0);
    assert_eq!(p.universe, 0);
    assert_eq!(p.property_value_count, 0);
    assert!(p.values.is_empty());
}

#[test]
fn serialize_layout() {
    let b = sample().serialize();
    assert_eq!(b.len(), 125 + 4);
    assert_eq!(&b[0..4], &[0x00, 0x10, 0x00, 0x00]);
    assert_eq!(&b[4..16], b"ASC-E1.17\0\0\0");
    // root layer: 0x7000 | (4 + 109)
    assert_eq!(&b[16..18], &[0x70, 0x71]);
    assert_eq!(&b[18..22], &[0, 0, 0, 4]);
    assert_eq!(&b[22..38], &[1, 2, 3, 4, 5, 6, 7, 8, 9, 10, 11, 12, 13, 14, 15, 16]);
    // framing layer: 0x7000 | (4 + 87)
    assert_eq!(&b[38..40], &[0x70, 0x5b]);
    assert_eq!(&b[40..44], &[0, 0, 0, 2]);
    assert_eq!(&b[44..53], b"Console A");
    assert!(b[53..108].iter().all(|&x| x == 0));
    assert_eq!(b[108], 150);
    assert_eq!(&b[109..111], &[0x12, 0x34]);
    assert_eq!(b[111], 42);
    assert_eq!(b[112], 0x40);
    assert_eq!(&b[113..115], &[0x01, 0x02]);
    // DMP layer: 0x7000 | (4 + 10)
    assert_eq!(&b[115..117], &[0x70, 0x0e]);
    assert_eq!(&b[117..123], &[0x02, 0xa1, 0x00, 0x00, 0x00, 0x01]);
    assert_eq!(&b[123..125], &[0x00, 0x04]);
    assert_eq!(&b[125..], &[0, 10, 20, 255]);
}

#[test]
fn length_fields_keep_twelve_bits() {
    let mut p = e1_31_pkt::new();
    p.property_value_count = 4000;
    p.values = vec![7; 4000];
    let b = p.serialize();
    assert_eq!(b.len(), 4125);
    // (4000 + 109) % 4096 = 13
    assert_eq!(&b[16..18], &[0x70, 0x0d]);
    // 4000 + 87 = 4087 = 0xff7
    assert_eq!(&b[38..40], &[0x7f, 0xf7]);
    // 4000 + 10 = 4010 = 0xfaa
    assert_eq!(&b[115..117], &[0x7f, 0xaa]);
}

#[test]
fn round_trip() {
    let p = sample();
    let q = e1_31_pkt::deserialize(p.serialize()).expect("decodes");
    assert_same(&p, &q);
}

#[test]
fn round_trip_multibyte_name() {
    let mut p = sample();
    p.source_name = "Bühne – Licht ✓".to_string();
    let q = e1_31_pkt::deserialize(p.serialize()).expect("decodes");
    assert_same(&p, &q);
}

#[test]
fn every_truncation_is_refused() {
    let b = sample().serialize();
    for k in 0..b.len() {
        assert!(e1_31_pkt::deserialize(b[..k].to_vec()).is_none(), "prefix {}", k);
    }
    assert!(e1_31_pkt::deserialize(b).is_some());
}

#[test]
fn identifier_change_is_refused() {
    let b = sample().serialize();
    for i in 4..16 {
        let mut c = b.clone();
        c[i] ^= 0x01;
        assert!(e1_31_pkt::deserialize(c).is_none(), "byte {}", i);
    }
}

#[test]
fn unterminated_name_is_refused() {
    let mut b = sample().serialize();
    for i in 44..108 {
        b[i] = b'x';
    }
    assert!(e1_31_pkt::deserialize(b).is_none());
}

#[test]
fn empty_payload() {
    let mut p = sample();
    p.values = Vec::new();
    p.property_value_count = 0;
    let b = p.serialize();
    assert_eq!(b.len(), 125);
    let q = e1_31_pkt::deserialize(b).expect("decodes");
    assert_eq!(q.property_value_count, 0);
    assert!(q.values.is_empty());
    assert_same(&p, &q);
}

#[test]
fn name_of_63_chars_round_trips() {
    let mut p = sample();
    p.source_name = "n".repeat(63);
    let b = p.serialize();
    assert_eq!(b[107], 0);
    let q = e1_31_pkt::deserialize(b).expect("decodes");
    assert_eq!(q.source_name, "n".repeat(63));
}

#[test]
fn long_name_is_cut_to_63() {
    for len in [64usize, 65, 100] {
        let mut p = sample();
        p.source_name = "abcdefghij".repeat(10)[..len].to_string();
        let b = p.serialize();
        assert_eq!(b.len(), 125 + 4);
        assert_eq!(b[107], 0);
        let q = e1_31_pkt::deserialize(b).expect("decodes");
        assert_eq!(q.source_name, p.source_name[..63]);
        assert_eq!(q.priority, p.priority);
    }
}

#[test]
fn sequence_255_round_trips() {
    let mut p = sample();
    p.seq = 255;
    let b = p.serialize();
    assert_eq!(b[111], 255);
    let q = e1_31_pkt::deserialize(b).expect("decodes");
    assert_eq!(q.seq, 255);
}

#[test]
fn invalid_utf8_name_is_replaced() {
    let mut b = sample().serialize();
    b[44] = b'A';
    b[45] = 0xff;
    b[46] = b'B';
    b[47] = 0;
    let q = e1_31_pkt::deserialize(b).expect("decodes");
    assert_eq!(q.source_name, "A\u{fffd}B");
}

#[test]
fn decodes_big_endian_fields() {
    let mut b = e1_31_pkt::new().serialize();
    b[109] = 0xab;
    b[110] = 0xcd;
    b[113] = 0x80;
    b[114] = 0x01;
    b[123] = 0x00;
    b[124] = 0x02;
    b.push(9);
    b.push(8);
    let q = e1_31_pkt::deserialize(b).expect("decodes");
    assert_eq!(q.sync_addr, 0xabcd);
    assert_eq!(q.universe, 0x8001);
    assert_eq!(q.property_value_count, 2);
    assert_eq!(q.values, vec![9, 8]);
}

#[test]
fn trailing_bytes_are_ignored() {
    let p = sample();
    let mut b = p.serialize();
    b.extend_from_slice(&[1, 2, 3]);
    let q = e1_31_pkt::deserialize(b).expect("decodes");
    assert_same(&p, &q);
}

#[test]
fn count_is_written_as_it_stands() {
    let mut p = e1_31_pkt::new();
    p.property_value_count = 2;
    p.values = vec![5, 6, 7];
    let b = p.serialize();
    assert_eq!(b.len(), 128);
    assert_eq!(&b[123..125], &[0, 2]);
    let q = e1_31_pkt::deserialize(b).expect("decodes");
    assert_eq!(q.values, vec![5, 6]);
}

#[test]
fn missing_values_are_refused() {
    let mut b = e1_31_pkt::new().serialize();
    b[124] = 3;
    b.push(1);
    b.push(2);
    assert!(e1_31_pkt::deserialize(b).is_none());
}
