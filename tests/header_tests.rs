use plt_reader::{
    construct_qword, find_end_of_header, find_zones, get_title, i16s, i32s, i32u,
    read_header, read_magic_number, read_tec_str, read_var_names,
};

fn packed(text: &str) -> Vec<u8> {
    let mut out = Vec::new();
    for b in text.bytes() {
        out.extend_from_slice(&[b, 0, 0, 0]);
    }
    out.extend_from_slice(&[0, 0, 0, 0]);
    out
}

fn words(values: &[f32]) -> Vec<u8> {
    let mut out = Vec::new();
    for v in values {
        out.extend_from_slice(&v.to_le_bytes());
    }
    out
}

#[test]
fn test_construct_qword() {
    let bytes = b"\x01\x00\x00\x00\x00\x00\x00\x01";
    let res = construct_qword(bytes);
    assert!(res.correct);
    assert_eq!(res.qword, 72057594037927937u64);
}

#[test]
fn test_construct_qword_tecstr() {
    let bytes = b"\x2e\x00\x00\x00\x2e\x00\x00\x00";
    let res = construct_qword(bytes);
    assert!(res.correct);
    assert_eq!(res.tec_str, "..");
}

#[test]
fn test_read_magic_number() {
    let bytes = b"\x23\x21\x54\x44\x56\x31\x31\x32";
    let res = read_magic_number(bytes);
    assert!(res.correct);
    assert_eq!(res.uni_chars, "#!TDV112");
}

#[test]
fn test_read_header() {
    let data = b"\x23\x21\x54\x44\x56\x31\x31\x32\x01\x00\x00\x00\x00\x00\x00\x00\x2e\x00\x00\x00\x2e\x00\x00\x00\x2e\x00\x00\x00\x00\x00\x00\x00\x2f\x00\x00\x00\x50\x00\x00\x00\x69\x00\x00\x00\x63\x00\x00\x00\x74\x00\x00\x00\x75\x00\x00\x00\x72\x00\x00\x00\x65\x00\x00\x00\x00\x00\x00\x00\x78\x00\x00\x00";
    let hdr = read_header(data);
    assert!(hdr.correct);
    assert_eq!(hdr.magic_num.uni_chars, "#!TDV112");
    assert_eq!(hdr.byte_order, 1);
    assert_eq!(hdr.file_type, "FULL");
    assert_eq!(hdr.num_vars, 47);
    assert_eq!(hdr.title, "...");
}

#[test]
fn primitive_decoders_read_little_endian() {
    assert_eq!(i32u(&[0x78, 0x56, 0x34, 0x12]), 0x1234_5678);
    assert_eq!(i32u(&[0xff, 0xff, 0xff, 0xff, 0x09]), u32::MAX);
    assert_eq!(i32s(&[0xff, 0xff, 0xff, 0xff]), -1);
    assert_eq!(i32s(&[0x00, 0x00, 0x00, 0x80]), i32::MIN);
    assert_eq!(i32s(&[0x2f, 0x00, 0x00, 0x00]), 47);
    assert_eq!(i16s(&[0x01, 0x00]), 1);
    assert_eq!(i16s(&[0xfe, 0xff]), -2);
    assert_eq!(i16s(&[0x00, 0x80, 0x55]), i16::MIN);
}

#[test]
fn packed_char_needs_exactly_four_bytes() {
    for len in [0usize, 1, 2, 3, 5, 8] {
        let data = vec![0x41u8; len];
        let res = read_tec_str(&data);
        assert!(!res.correct);
        assert_eq!(res.ch, None);
        assert!(!res.end);
    }
}

#[test]
fn packed_char_terminator_and_character() {
    let t = read_tec_str(&[0, 0, 0, 0]);
    assert!(t.correct && t.end);
    assert_eq!(t.ch, None);
    let c = read_tec_str(&[0x41, 0, 0, 0]);
    assert!(c.correct && !c.end);
    assert_eq!(c.ch, Some('A'));
    let high = read_tec_str(&[0, 0, 0, 1]);
    assert!(high.correct && !high.end);
    assert_eq!(high.ch, Some('\0'));
}

#[test]
fn packed_char_classification_is_repeatable() {
    for group in [[0x2eu8, 0, 0, 0], [0, 0, 0, 0], [0, 7, 0, 0], [0xc3, 0x01, 0x02, 0x03]] {
        let a = read_tec_str(&group);
        let b = read_tec_str(&group);
        assert_eq!(a, b);
    }
}

#[test]
fn signature_short_input_is_invalid() {
    let res = construct_qword(&[1, 2, 3, 4, 5, 6, 7]);
    assert!(!res.correct);
    assert_eq!(res.qword, 0);
    assert_eq!(res.uni_chars, "");
    let res = read_magic_number(&[]);
    assert!(!res.correct);
}

#[test]
fn signature_fields() {
    let res = construct_qword(&[0x41, 0, 0, 0, 0, 0, 0, 0, 0x99]);
    assert!(res.correct);
    assert_eq!(res.qword, 0x4100_0000_0000_0000);
    assert_eq!(res.i32ul, 0x41);
    assert_eq!(res.tec_str, "A");
    assert_eq!(res.uni_chars, "A\0\0\0\0\0\0\0");
    let neg = construct_qword(&[0xff, 0xff, 0xff, 0xff, 0, 0, 0, 0]);
    assert_eq!(neg.i32ul, -1);
    assert_eq!(neg.qword, 0xffff_ffff_0000_0000);
    assert_eq!(neg.tec_str, "\u{ff}");
    let magic = read_magic_number(&[0x23, 0x21, 0x54, 0x44, 0x56, 0x31, 0x31, 0x32, 0x01]);
    assert_eq!(magic.qword, 0x2321_5444_5631_3132);
}

#[test]
fn title_odd_and_even_lengths() {
    let odd = get_title(&packed("abc"));
    assert!(odd.correct);
    assert_eq!(odd.title, "abc");
    assert_eq!(odd.next_byte, 16);
    let mut even_bytes = packed("ab");
    even_bytes.extend_from_slice(&[9, 9, 9, 9]);
    let even = get_title(&even_bytes);
    assert!(even.correct);
    assert_eq!(even.title, "ab");
    assert_eq!(even.next_byte, 12);
    let empty = get_title(&[0, 0, 0, 0, 0x41, 0, 0, 0]);
    assert!(empty.correct);
    assert_eq!(empty.title, "");
    assert_eq!(empty.next_byte, 4);
}

#[test]
fn title_needs_the_whole_stride() {
    let res = get_title(&packed("ab"));
    assert!(!res.correct);
    assert_eq!(res.title, "ab");
    assert_eq!(res.next_byte, 0);
    let short = get_title(&[0, 0, 0, 0]);
    assert!(!short.correct);
    let none = get_title(&[0x41, 0, 0, 0, 0x42, 0, 0, 0]);
    assert!(!none.correct);
    assert_eq!(none.title, "AB");
}

#[test]
fn var_names_consume_consecutive_strings() {
    let mut bytes = packed("x");
    bytes.extend(packed("yz"));
    bytes.extend_from_slice(&[0, 0, 0, 0]);
    let (names, used) = read_var_names(&bytes, 2);
    assert_eq!(names, vec!["x".to_string(), "yz".to_string()]);
    assert_eq!(used, 8 + 12);
    let (names, used) = read_var_names(&bytes, 5);
    assert_eq!(names.len(), 2);
    assert_eq!(used, 20);
    let (names, used) = read_var_names(&bytes, -3);
    assert!(names.is_empty());
    assert_eq!(used, 0);
    let (names, used) = read_var_names(&bytes, 0);
    assert!(names.is_empty());
    assert_eq!(used, 0);
}

#[test]
fn end_of_header_at_single_marker() {
    let bytes = words(&[1.0, 2.0, 357.0, 4.0]);
    assert_eq!(find_end_of_header(&bytes), 12);
    let first = words(&[357.0]);
    assert_eq!(find_end_of_header(&first), 4);
}

#[test]
fn end_of_header_defaults_to_length() {
    let mut bytes = words(&[1.0, 357.00003, 356.99997]);
    bytes.extend_from_slice(&[0x00, 0x80, 0xb2]);
    assert_eq!(find_end_of_header(&bytes), 15);
    assert_eq!(find_end_of_header(&[]), 0);
}

#[test]
fn zones_stop_at_end_of_header() {
    let bytes = words(&[299.0, 1.0, 299.0, 357.0, 299.0]);
    let eoh = find_end_of_header(&bytes);
    assert_eq!(eoh, 16);
    let zones = find_zones(&bytes, eoh);
    assert_eq!(zones, vec![0, 8]);
    for z in &zones {
        assert!(*z < eoh);
    }
    assert_eq!(find_zones(&bytes, 0), Vec::<usize>::new());
    assert_eq!(find_zones(&bytes, 100), vec![0, 8, 16]);
}

#[test]
fn header_with_short_signature_is_invalid() {
    let hdr = read_header(&[0x23, 0x21, 0x54]);
    assert!(!hdr.correct);
    assert!(!hdr.magic_num.correct);
    assert_eq!(hdr.file_type, "");
    assert!(hdr.var_names.is_empty());
}

#[test]
fn header_with_unknown_file_type() {
    let mut bytes = vec![0x23, 0x21, 0x54, 0x44, 0x56, 0x31, 0x31, 0x32, 1, 0, 0, 0, 5, 0, 0, 0];
    bytes.extend(packed("T"));
    let hdr = read_header(&bytes);
    assert!(hdr.correct);
    assert_eq!(hdr.file_type, "UNKNOWN");
    assert_eq!(hdr.title, "T");
    assert_eq!(hdr.num_vars, 0);
    assert_eq!(hdr.eof_header, 24);
    let solution = {
        let mut b = bytes.clone();
        b[12] = 2;
        read_header(&b)
    };
    assert_eq!(solution.file_type, "SOLUTION");
}

#[test]
fn header_offsets_are_absolute() {
    let mut bytes = vec![0x23, 0x21, 0x54, 0x44, 0x56, 0x31, 0x31, 0x32, 1, 0, 0, 0, 1, 0, 0, 0];
    bytes.extend(packed("T"));
    bytes.extend_from_slice(&[2, 0, 0, 0]);
    bytes.extend(packed("u"));
    bytes.extend(packed("v"));
    let vars_end = bytes.len();
    assert_eq!(vars_end, 44);
    bytes.extend(words(&[299.0, 0.5, 299.0, 357.0, 299.0]));
    let hdr = read_header(&bytes);
    assert!(hdr.correct);
    assert_eq!(hdr.file_type, "GRID");
    assert_eq!(hdr.title, "T");
    assert_eq!(hdr.num_vars, 2);
    assert_eq!(hdr.var_names, vec!["u".to_string(), "v".to_string()]);
    assert_eq!(hdr.eof_header, vars_end + 16);
    assert_eq!(hdr.zone_markers, vec![vars_end, vars_end + 8]);
}

#[test]
fn header_signature_only() {
    let hdr = read_header(&[0x23, 0x21, 0x54, 0x44, 0x56, 0x31, 0x31, 0x32]);
    assert!(hdr.correct);
    assert_eq!(hdr.byte_order, 0);
    assert_eq!(hdr.file_type, "UNKNOWN");
    assert_eq!(hdr.title, "");
    assert_eq!(hdr.eof_header, 8);
    assert!(hdr.zone_markers.is_empty());
}
