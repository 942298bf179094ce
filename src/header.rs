//! Assembly of the file header from its fixed-offset fields.
use vstd::prelude::*;
use crate::decode::{i16s, i32s, le_i16, le_i32};
use crate::packed::{describes_qword, read_magic_number, QWordRes};
use crate::sentinel::{end_of_header_from, find_end_of_header, find_zones, zones_from};
use crate::title::{
    get_title, lemma_names_scan_bounds, lemma_title_scan_bounds, names_scan, read_var_names,
    title_scan,
};

verus! {

/// Offset of the byte-order field.
pub const BYTE_ORDER_OFFSET: usize = 8;

/// Offset of the file-type field.
pub const FILE_TYPE_OFFSET: usize = 12;

/// Offset at which the title starts.
pub const TITLE_OFFSET: usize = 16;

/// The decoded header of a file.
#[derive(Debug, PartialEq)]
pub struct Header {
    pub correct: bool,
    pub magic_num: QWordRes,
    pub byte_order: i16,
    pub file_type: String,
    pub title: String,
    pub num_vars: i32,
    pub var_names: Vec<String>,
    pub eof_header: usize,
    pub zone_markers: Vec<usize>,
}

/// Name of a file-type index; indices outside the table are `UNKNOWN`.
pub open spec fn file_type_name(idx: int) -> Seq<char> {
    if idx == 0 {
        seq!['F', 'U', 'L', 'L']
    } else if idx == 1 {
        seq!['G', 'R', 'I', 'D']
    } else if idx == 2 {
        seq!['S', 'O', 'L', 'U', 'T', 'I', 'O', 'N']
    } else {
        seq!['U', 'N', 'K', 'N', 'O', 'W', 'N']
    }
}

/// Byte order field, or zero when the buffer ends before it.
pub open spec fn byte_order_of(b: Seq<u8>) -> int {
    if b.len() >= 10 {
        le_i16(b.subrange(8, 10))
    } else {
        0
    }
}

/// File type name, `UNKNOWN` when the buffer ends before the field.
pub open spec fn file_type_of(b: Seq<u8>) -> Seq<char> {
    if b.len() >= 14 {
        file_type_name(le_i16(b.subrange(12, 14)))
    } else {
        file_type_name(-1)
    }
}

/// The bytes from the title's start on.
pub open spec fn title_region(b: Seq<u8>) -> Seq<u8> {
    if b.len() >= 16 {
        b.subrange(16, b.len() as int)
    } else {
        Seq::empty()
    }
}

/// The title, empty when it is not terminated.
pub open spec fn title_of(b: Seq<u8>) -> Seq<char> {
    if title_scan(title_region(b), 0).0 {
        title_scan(title_region(b), 0).1
    } else {
        Seq::empty()
    }
}

/// Absolute offset just past the title's terminator (the title's start when
/// it is not terminated).
pub open spec fn title_end(b: Seq<u8>) -> int {
    16 + title_scan(title_region(b), 0).2
}

/// Whether the variable count lies within the buffer.
pub open spec fn has_var_count(b: Seq<u8>) -> bool {
    title_end(b) + 4 <= b.len()
}

/// The declared number of variables, zero when the buffer ends before it.
pub open spec fn var_count(b: Seq<u8>) -> int {
    if has_var_count(b) {
        le_i32(b.subrange(title_end(b), title_end(b) + 4))
    } else {
        0
    }
}

/// Absolute offset at which the variable names start.
pub open spec fn vars_start(b: Seq<u8>) -> int {
    if has_var_count(b) {
        title_end(b) + 4
    } else {
        b.len() as int
    }
}

/// The bytes from the variable names on.
pub open spec fn names_region(b: Seq<u8>) -> Seq<u8> {
    b.subrange(vars_start(b), b.len() as int)
}

/// Absolute offset just past the variable names.
pub open spec fn vars_end(b: Seq<u8>) -> int {
    vars_start(b) + names_scan(names_region(b), var_count(b)).1
}

/// The bytes after the variable names, where the sentinels are sought.
pub open spec fn marker_region(b: Seq<u8>) -> Seq<u8> {
    b.subrange(vars_end(b), b.len() as int)
}

/// End of the header, relative to the marker region.
pub open spec fn rel_end_of_header(b: Seq<u8>) -> int {
    end_of_header_from(marker_region(b), 0)
}

/// Absolute offsets of the zone markers before the end of the header.
pub open spec fn zone_offsets(b: Seq<u8>) -> Seq<usize> {
    zones_from(marker_region(b), rel_end_of_header(b), 0).map_values(
        |z: usize| (z + vars_end(b)) as usize,
    )
}

/// `h` is the header decoded from the buffer `b`.
pub open spec fn describes_header(h: Header, b: Seq<u8>) -> bool {
    &&& h.correct == (b.len() >= 8)
    &&& describes_qword(h.magic_num, b)
    &&& if h.correct {
        &&& h.byte_order as int == byte_order_of(b)
        &&& h.file_type@ == file_type_of(b)
        &&& h.title@ == title_of(b)
        &&& h.num_vars as int == var_count(b)
        &&& h.var_names@.map_values(|s: String| s@) == names_scan(
            names_region(b),
            var_count(b),
        ).0
        &&& h.eof_header as int == vars_end(b) + rel_end_of_header(b)
        &&& h.zone_markers@ == zone_offsets(b)
    } else {
        &&& h.byte_order == 0
        &&& h.file_type@ == Seq::<char>::empty()
        &&& h.title@ == Seq::<char>::empty()
        &&& h.num_vars == 0
        &&& h.var_names@.len() == 0
        &&& h.eof_header == 0
        &&& h.zone_markers@.len() == 0
    }
}

fn file_type_string(idx: i16) -> (r: String)
    ensures
        r@ == file_type_name(idx as int),
{
    proof {
        reveal_strlit("FULL");
        reveal_strlit("GRID");
        reveal_strlit("SOLUTION");
        reveal_strlit("UNKNOWN");
    }
    if idx == 0 {
        "FULL".to_owned()
    } else if idx == 1 {
        "GRID".to_owned()
    } else if idx == 2 {
        "SOLUTION".to_owned()
    } else {
        "UNKNOWN".to_owned()
    }
}

/// Adds `by` to every offset.
fn shift_offsets(v: &Vec<usize>, by: usize) -> (r: Vec<usize>)
    requires
        forall|i: int| 0 <= i < v@.len() ==> #[trigger] v@[i] + by <= usize::MAX,
    ensures
        r@ == v@.map_values(|z: usize| (z + by) as usize),
{
    let mut r: Vec<usize> = Vec::new();
    let mut i: usize = 0;
    while i < v.len()
        invariant
            i <= v@.len(),
            forall|j: int| 0 <= j < v@.len() ==> #[trigger] v@[j] + by <= usize::MAX,
            r@ == v@.subrange(0, i as int).map_values(|z: usize| (z + by) as usize),
        decreases v@.len() - i,
    {
        r.push(v[i] + by);
        i += 1;
        assert(r@ =~= v@.subrange(0, i as int).map_values(|z: usize| (z + by) as usize));
    }
    assert(v@.subrange(0, v@.len() as int) =~= v@);
    r
}

/// Decodes the header at the start of the buffer. Only a signature cut
/// short makes the header invalid; the later fields are read as far as the
/// buffer allows.
pub fn read_header(bytes: &[u8]) -> (r: Header)
    ensures
        describes_header(r, bytes@),
        r.correct ==> forall|i: int|
            0 <= i < r.zone_markers@.len() ==> #[trigger] r.zone_markers@[i] < r.eof_header,
{
    let len = bytes.len();
    let magic_num = read_magic_number(bytes);
    if !magic_num.correct {
        return Header {
            correct: false,
            magic_num,
            byte_order: 0,
            file_type: String::new(),
            title: String::new(),
            num_vars: 0,
            var_names: Vec::new(),
            eof_header: 0,
            zone_markers: Vec::new(),
        };
    }
    let byte_order: i16 = if len >= BYTE_ORDER_OFFSET + 2 {
        i16s(&bytes[BYTE_ORDER_OFFSET..BYTE_ORDER_OFFSET + 2])
    } else {
        0
    };
    let file_type = if len >= FILE_TYPE_OFFSET + 2 {
        file_type_string(i16s(&bytes[FILE_TYPE_OFFSET..FILE_TYPE_OFFSET + 2]))
    } else {
        file_type_string(-1)
    };
    let region = if len >= TITLE_OFFSET {
        &bytes[TITLE_OFFSET..len]
    } else {
        &bytes[0..0]
    };
    assert(region@ =~= title_region(bytes@));
    let title_res = get_title(region);
    proof {
        lemma_title_scan_bounds(region@, 0);
    }
    let title_end = TITLE_OFFSET + title_res.next_byte;
    let has_count = title_end <= len && len - title_end >= 4;
    let num_vars: i32 = if has_count {
        i32s(&bytes[title_end..title_end + 4])
    } else {
        0
    };
    let start = if has_count {
        title_end + 4
    } else {
        len
    };
    let names_bytes = &bytes[start..len];
    proof {
        lemma_names_scan_bounds(names_bytes@, num_vars as int);
    }
    let (var_names, used) = read_var_names(names_bytes, num_vars);
    let vars_end = start + used;
    let tail = &bytes[vars_end..len];
    let eoh = find_end_of_header(tail);
    let zones = find_zones(tail, eoh);
    let zone_markers = shift_offsets(&zones, vars_end);
    let title = if title_res.correct {
        title_res.title
    } else {
        String::new()
    };
    Header {
        correct: true,
        magic_num,
        byte_order,
        file_type,
        title,
        num_vars,
        var_names,
        eof_header: vars_end + eoh,
        zone_markers,
    }
}

} // verus!
