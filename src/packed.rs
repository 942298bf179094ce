//! Packed characters: a 4-byte group holds one character or a terminator.
use vstd::prelude::*;
use crate::decode::{i32s, i32u, le_i32, le_u32};

verus! {

/// Relies on `String::push`: the character is appended at the end.
pub assume_specification[ String::push ](s: &mut String, ch: char)
    ensures
        final(s)@ == old(s)@.push(ch),
;

/// A group is a terminator when its four bytes read as zero.
pub open spec fn is_terminator(g: Seq<u8>) -> bool {
    le_u32(g) == 0
}

/// The character a group stands for: its first byte, unless it terminates.
pub open spec fn packed_char(g: Seq<u8>) -> Option<char> {
    if is_terminator(g) {
        None
    } else {
        Some(g[0] as char)
    }
}

/// The characters an optional character contributes: none or one.
pub open spec fn opt_chars(c: Option<char>) -> Seq<char> {
    match c {
        Some(ch) => seq![ch],
        None => Seq::empty(),
    }
}

/// Every byte taken as a character, in order.
pub open spec fn byte_chars(b: Seq<u8>) -> Seq<char> {
    b.map_values(|x: u8| x as char)
}

/// The first eight bytes read as a big-endian unsigned integer.
pub open spec fn be_u64(b: Seq<u8>) -> int {
    b[0] as int * 0x100_0000_0000_0000 + b[1] as int * 0x1_0000_0000_0000 + b[2] as int
        * 0x100_0000_0000 + b[3] as int * 0x1_0000_0000 + b[4] as int * 0x100_0000 + b[5] as int
        * 0x1_0000 + b[6] as int * 0x100 + b[7] as int
}

/// The characters of the two packed groups within the first eight bytes.
pub open spec fn packed_chars(b: Seq<u8>) -> Seq<char> {
    opt_chars(packed_char(b.subrange(0, 4))) + opt_chars(packed_char(b.subrange(4, 8)))
}

/// Outcome of decoding one 4-byte group.
#[derive(Debug, PartialEq)]
pub struct TecStrRes {
    pub correct: bool,
    pub ch: Option<char>,
    pub end: bool,
}

/// Outcome of decoding an 8-byte signature.
#[derive(Debug, PartialEq)]
pub struct QWordRes {
    pub correct: bool,
    pub qword: u64,
    pub i32ul: i32,
    pub uni_chars: String,
    pub tec_str: String,
}

/// `r` is what decoding the signature at the start of `b` gives.
pub open spec fn describes_qword(r: QWordRes, b: Seq<u8>) -> bool {
    if b.len() >= 8 {
        &&& r.correct
        &&& r.qword as int == be_u64(b)
        &&& r.i32ul as int == le_i32(b)
        &&& r.uni_chars@ == byte_chars(b.subrange(0, 8))
        &&& r.tec_str@ == packed_chars(b)
    } else {
        &&& !r.correct
        &&& r.qword == 0
        &&& r.i32ul == 0
        &&& r.uni_chars@ == Seq::<char>::empty()
        &&& r.tec_str@ == Seq::<char>::empty()
    }
}

/// Decodes one packed group; valid only on exactly four bytes.
pub fn read_tec_str(data: &[u8]) -> (r: TecStrRes)
    ensures
        r.correct == (data@.len() == 4),
        r.correct ==> r.end == is_terminator(data@) && r.ch == packed_char(data@),
        !r.correct ==> r.ch is None && !r.end,
{
    if data.len() != 4 {
        return TecStrRes { correct: false, ch: None, end: false };
    }
    let check = i32u(data);
    if check != 0 {
        TecStrRes { correct: true, ch: Some(data[0] as char), end: false }
    } else {
        TecStrRes { correct: true, ch: None, end: true }
    }
}

/// A group's classification depends on its four bytes alone: groups with the
/// same bytes are classified alike, a group terminates exactly when all four
/// bytes are zero, and otherwise stands for its first byte.
pub proof fn packed_classification_is_stable(g: Seq<u8>, h: Seq<u8>)
    requires
        g.len() == 4,
        h.len() == 4,
        forall|i: int| 0 <= i < 4 ==> g[i] == h[i],
    ensures
        is_terminator(g) == is_terminator(h),
        packed_char(g) == packed_char(h),
        is_terminator(g) <==> (g[0] == 0 && g[1] == 0 && g[2] == 0 && g[3] == 0),
        !is_terminator(g) ==> packed_char(g) == Some(g[0] as char),
{
    assert(g =~= h);
}

fn invalid_qword() -> (r: QWordRes)
    ensures
        describes_qword(r, Seq::empty()),
{
    QWordRes { correct: false, qword: 0, i32ul: 0, uni_chars: String::new(), tec_str: String::new() }
}

/// Appends the character of a decoded group, if it has one.
fn push_packed(s: &mut String, g: &TecStrRes)
    ensures
        final(s)@ == old(s)@ + (if g.correct { opt_chars(g.ch) } else { Seq::empty() }),
{
    if g.correct {
        if let Some(c) = g.ch {
            s.push(c);
        }
    }
    proof {
        assert(final(s)@ =~= old(s)@ + (if g.correct { opt_chars(g.ch) } else { Seq::empty() }));
    }
}

/// Decodes an 8-byte signature; invalid when fewer than eight bytes are given.
pub fn construct_qword(bytes: &[u8]) -> (r: QWordRes)
    ensures
        describes_qword(r, bytes@),
{
    if bytes.len() < 8 {
        let r = invalid_qword();
        return r;
    }
    let first = read_tec_str(&bytes[0..4]);
    let second = read_tec_str(&bytes[4..8]);
    let mut tec = String::new();
    push_packed(&mut tec, &first);
    push_packed(&mut tec, &second);
    let qword: u64 = bytes[0] as u64 * 0x100_0000_0000_0000 + bytes[1] as u64 * 0x1_0000_0000_0000
        + bytes[2] as u64 * 0x100_0000_0000 + bytes[3] as u64 * 0x1_0000_0000 + bytes[4] as u64
        * 0x100_0000 + bytes[5] as u64 * 0x1_0000 + bytes[6] as u64 * 0x100 + bytes[7] as u64;
    let mut uni = String::new();
    let mut i: usize = 0;
    while i < 8
        invariant
            8 <= bytes@.len(),
            i <= 8,
            uni@ == byte_chars(bytes@.subrange(0, i as int)),
        decreases 8 - i,
    {
        uni.push(bytes[i] as char);
        i += 1;
        assert(uni@ =~= byte_chars(bytes@.subrange(0, i as int)));
    }
    let i32ul = i32s(&bytes[0..4]);
    assert(tec@ =~= packed_chars(bytes@));
    QWordRes { correct: true, qword, i32ul, uni_chars: uni, tec_str: tec }
}

/// Decodes the file signature from the first eight bytes of the buffer.
pub fn read_magic_number(bytes: &[u8]) -> (r: QWordRes)
    ensures
        describes_qword(r, bytes@),
{
    if bytes.len() < 8 {
        let r = invalid_qword();
        return r;
    }
    let r = construct_qword(&bytes[0..8]);
    assert(bytes@.subrange(0, 8).subrange(0, 4) =~= bytes@.subrange(0, 4));
    assert(bytes@.subrange(0, 8).subrange(4, 8) =~= bytes@.subrange(4, 8));
    assert(bytes@.subrange(0, 8).subrange(0, 8) =~= bytes@.subrange(0, 8));
    r
}

} // verus!
