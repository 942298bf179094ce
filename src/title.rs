//! Terminated strings of packed characters: titles and variable names.
use vstd::prelude::*;
use crate::packed::{byte_chars, is_terminator, read_tec_str};

verus! {

/// The 4-byte group of `b` that starts at offset `a`.
pub open spec fn group(b: Seq<u8>, a: int) -> Seq<u8> {
    b.subrange(a, a + 4)
}

/// Scans `b` from stride `k` (two groups per stride) for a terminated string.
/// Gives whether a terminator was found, the characters read, and the offset
/// just past the terminator (zero when none was found).
pub open spec fn title_scan(b: Seq<u8>, k: int) -> (bool, Seq<char>, int)
    decreases b.len() - 8 * k,
{
    let a = 8 * k;
    if k < 0 || a + 8 > b.len() {
        (false, Seq::empty(), 0)
    } else if is_terminator(group(b, a)) {
        (true, Seq::empty(), a + 4)
    } else if is_terminator(group(b, a + 4)) {
        (true, seq![b[a] as char], a + 8)
    } else {
        let rest = title_scan(b, k + 1);
        (rest.0, seq![b[a] as char, b[a + 4] as char] + rest.1, rest.2)
    }
}

/// A terminated scan never ends past the bytes it was given.
pub proof fn lemma_title_scan_bounds(b: Seq<u8>, k: int)
    ensures
        title_scan(b, k).0 ==> 8 * k + 4 <= title_scan(b, k).2 <= b.len(),
        !title_scan(b, k).0 ==> title_scan(b, k).2 == 0,
    decreases b.len() - 8 * k,
{
    let a = 8 * k;
    if k < 0 || a + 8 > b.len() {
    } else if is_terminator(group(b, a)) {
    } else if is_terminator(group(b, a + 4)) {
    } else {
        lemma_title_scan_bounds(b, k + 1);
    }
}

/// `b` holds the bytes of `t` one per 4-byte group (the group's other three
/// bytes zero), followed by a zero group.
pub open spec fn holds_packed_title(b: Seq<u8>, t: Seq<u8>) -> bool {
    &&& forall|i: int|
        0 <= i < t.len() ==> #[trigger] t[i] == b[4 * i] && b[4 * i + 1] == 0 && b[4 * i + 2] == 0
            && b[4 * i + 3] == 0
    &&& b[4 * t.len() as int] == 0
    &&& b[4 * t.len() as int + 1] == 0
    &&& b[4 * t.len() as int + 2] == 0
    &&& b[4 * t.len() as int + 3] == 0
}

proof fn lemma_packed_title_from(b: Seq<u8>, t: Seq<u8>, k: int)
    requires
        forall|i: int| 0 <= i < t.len() ==> 1 <= #[trigger] t[i] <= 127,
        holds_packed_title(b, t),
        b.len() >= 8 * (t.len() / 2) + 8,
        0 <= k,
        2 * k <= t.len(),
    ensures
        title_scan(b, k).0,
        title_scan(b, k).1 == byte_chars(t.subrange(2 * k, t.len() as int)),
        title_scan(b, k).2 == 4 * (t.len() + 1),
    decreases t.len() - 2 * k,
{
    let n = t.len() as int;
    let a = 8 * k;
    if 2 * k == n {
        assert(group(b, a) =~= seq![0u8, 0u8, 0u8, 0u8]);
        assert(byte_chars(t.subrange(2 * k, n)) =~= Seq::<char>::empty());
    } else {
        assert(t[2 * k] == b[4 * (2 * k)]);
        assert(group(b, a)[0] == t[2 * k]);
        if 2 * k + 1 == n {
            assert(group(b, a + 4) =~= seq![0u8, 0u8, 0u8, 0u8]);
            assert(byte_chars(t.subrange(2 * k, n)) =~= seq![b[a] as char]);
        } else {
            assert(t[2 * k + 1] == b[4 * (2 * k + 1)]);
            assert(group(b, a + 4)[0] == t[2 * k + 1]);
            lemma_packed_title_from(b, t, k + 1);
            assert(byte_chars(t.subrange(2 * k, n)) =~= seq![b[a] as char, b[a + 4] as char]
                + byte_chars(t.subrange(2 * k + 2, n)));
        }
    }
}

/// A title of nonzero ASCII characters stored one per group and closed by a
/// zero group is read back whole, and the scan consumes four bytes for each
/// group it read, the terminator included.
pub proof fn packed_title_consumes_whole_groups(b: Seq<u8>, t: Seq<u8>)
    requires
        forall|i: int| 0 <= i < t.len() ==> 1 <= #[trigger] t[i] <= 127,
        holds_packed_title(b, t),
        b.len() >= 8 * (t.len() / 2) + 8,
    ensures
        title_scan(b, 0).0,
        title_scan(b, 0).1 == byte_chars(t),
        title_scan(b, 0).2 == 4 * (t.len() + 1),
{
    lemma_packed_title_from(b, t, 0);
    assert(t.subrange(0, t.len() as int) =~= t);
}

/// Outcome of scanning one terminated string.
#[derive(Debug, PartialEq)]
pub struct TitleRes {
    pub correct: bool,
    pub title: String,
    pub next_byte: usize,
}

/// Reads a string of packed characters, two groups per 8-byte stride, up to
/// the first terminator group.
pub fn get_title(bytes: &[u8]) -> (r: TitleRes)
    ensures
        r.correct == title_scan(bytes@, 0).0,
        r.title@ == title_scan(bytes@, 0).1,
        r.next_byte as int == title_scan(bytes@, 0).2,
        bytes@.len() < 8 ==> !r.correct,
{
    let mut title = String::new();
    let mut counter: usize = 0;
    let len = bytes.len();
    loop
        invariant
            len == bytes@.len(),
            8 * counter <= len,
            title_scan(bytes@, 0).0 == title_scan(bytes@, counter as int).0,
            title_scan(bytes@, 0).1 == title@ + title_scan(bytes@, counter as int).1,
            title_scan(bytes@, 0).2 == title_scan(bytes@, counter as int).2,
        decreases bytes@.len() - 8 * counter,
    {
        let first = counter * 8;
        if len - first < 8 {
            assert(title@ + Seq::<char>::empty() =~= title@);
            return TitleRes { correct: false, title, next_byte: 0 };
        }
        let second = first + 4;
        let a = read_tec_str(&bytes[first..second]);
        let b = read_tec_str(&bytes[second..second + 4]);
        if !a.correct || !b.correct {
            return TitleRes { correct: false, title, next_byte: 0 };
        }
        if a.end {
            assert(title@ + Seq::<char>::empty() =~= title@);
            return TitleRes { correct: true, title, next_byte: second };
        }
        let ghost before = title@;
        if let Some(c) = a.ch {
            title.push(c);
        }
        if b.end {
            assert(before + seq![bytes@[first as int] as char] =~= title@);
            assert(title@ + Seq::<char>::empty() =~= title@);
            return TitleRes { correct: true, title, next_byte: second + 4 };
        }
        if let Some(c) = b.ch {
            title.push(c);
        }
        assert(before + (seq![bytes@[first as int] as char, bytes@[second as int] as char]
            + title_scan(bytes@, counter + 1).1) =~= title@ + title_scan(bytes@, counter + 1).1);
        counter += 1;
    }
}

/// The names read by up to `n` scans, each starting where the last one
/// ended, and the bytes they consumed; stops at the first unterminated scan.
pub open spec fn names_scan(b: Seq<u8>, n: int) -> (Seq<Seq<char>>, int)
    decreases n,
{
    if n <= 0 {
        (Seq::empty(), 0)
    } else {
        let t = title_scan(b, 0);
        if !t.0 {
            (Seq::empty(), 0)
        } else {
            let rest = names_scan(b.subrange(t.2, b.len() as int), n - 1);
            (seq![t.1] + rest.0, t.2 + rest.1)
        }
    }
}

/// The names never consume more bytes than they were given, nor outnumber
/// the scans asked for.
pub proof fn lemma_names_scan_bounds(b: Seq<u8>, n: int)
    ensures
        0 <= names_scan(b, n).1 <= b.len(),
        names_scan(b, n).0.len() <= (if n > 0 { n } else { 0 }),
    decreases n,
{
    if n > 0 {
        lemma_title_scan_bounds(b, 0);
        let t = title_scan(b, 0);
        if t.0 {
            lemma_names_scan_bounds(b.subrange(t.2, b.len() as int), n - 1);
        }
    }
}

/// Reads up to `num_vars` consecutive names; returns them with the number of
/// bytes consumed.
pub fn read_var_names(bytes: &[u8], num_vars: i32) -> (r: (Vec<String>, usize))
    ensures
        r.0@.map_values(|s: String| s@) == names_scan(bytes@, num_vars as int).0,
        r.1 as int == names_scan(bytes@, num_vars as int).1,
        r.0@.len() <= (if num_vars > 0 { num_vars as int } else { 0 }),
{
    proof {
        lemma_names_scan_bounds(bytes@, num_vars as int);
    }
    let mut names: Vec<String> = Vec::new();
    let mut next: usize = 0;
    let mut i: i32 = 0;
    assert(bytes@.subrange(0, bytes@.len() as int) =~= bytes@);
    assert(names@.map_values(|s: String| s@) =~= Seq::<Seq<char>>::empty());
    assert(Seq::<Seq<char>>::empty() + names_scan(bytes@, num_vars as int).0 =~= names_scan(
        bytes@,
        num_vars as int,
    ).0);
    while i < num_vars
        invariant
            0 <= i,
            num_vars >= 0 ==> i <= num_vars,
            next <= bytes@.len(),
            names_scan(bytes@, num_vars as int).0 == names@.map_values(|s: String| s@)
                + names_scan(bytes@.subrange(next as int, bytes@.len() as int), num_vars - i).0,
            names_scan(bytes@, num_vars as int).1 == next + names_scan(
                bytes@.subrange(next as int, bytes@.len() as int),
                num_vars - i,
            ).1,
        ensures
            names_scan(bytes@, num_vars as int).0 == names@.map_values(|s: String| s@),
            names_scan(bytes@, num_vars as int).1 == next,
        decreases num_vars - i,
    {
        let rest = &bytes[next..bytes.len()];
        let res = get_title(rest);
        proof {
            lemma_title_scan_bounds(rest@, 0);
        }
        if !res.correct {
            assert(names@.map_values(|s: String| s@) + Seq::empty() =~= names@.map_values(
                |s: String| s@,
            ));
            break;
        }
        let ghost old_names = names@.map_values(|s: String| s@);
        let ghost tail = rest@.subrange(res.next_byte as int, rest@.len() as int);
        assert(tail =~= bytes@.subrange(next + res.next_byte, bytes@.len() as int));
        names.push(res.title);
        assert(names@.map_values(|s: String| s@) =~= old_names.push(title_scan(rest@, 0).1));
        assert(old_names + (seq![title_scan(rest@, 0).1] + names_scan(tail, num_vars - i - 1).0)
            =~= names@.map_values(|s: String| s@) + names_scan(tail, num_vars - i - 1).0);
        next += res.next_byte;
        i += 1;
    }
    (names, next)
}

} // verus!
