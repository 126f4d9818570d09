//! Byte-level text helpers.
//!
//! Source text is handled as its UTF-8 bytes, so that every position is a
//! byte offset, as in the parser. The delimiters the parser looks for are
//! ASCII, and an ASCII byte never occurs inside the encoding of another
//! character, so byte-level matching finds exactly the character matches.
use vstd::prelude::*;

verus! {

/// Whether `s` starts with `p`.
pub open spec fn starts_with(s: Seq<u8>, p: Seq<u8>) -> bool {
    p.len() <= s.len() && s.take(p.len() as int) == p
}

/// Whether `s` holds `p` at position `i`.
pub open spec fn has_at(s: Seq<u8>, i: int, p: Seq<u8>) -> bool {
    0 <= i && i + p.len() <= s.len() && s.subrange(i, i + p.len()) == p
}

/// Whether byte string `s` starts with byte string `p`.
pub fn bytes_start_with(s: &[u8], p: &[u8]) -> (r: bool)
    ensures
        r == starts_with(s@, p@),
{
    if p.len() > s.len() {
        return false;
    }
    let mut i: usize = 0;
    while i < p.len()
        invariant
            p@.len() <= s@.len(),
            i <= p@.len(),
            forall|k: int| 0 <= k < i ==> s@[k] == p@[k],
        decreases p@.len() - i,
    {
        if s[i] != p[i] {
            proof {
                assert(s@.take(p@.len() as int)[i as int] != p@[i as int]);
            }
            return false;
        }
        i = i + 1;
    }
    proof {
        assert(s@.take(p@.len() as int) =~= p@);
    }
    true
}

/// Whether byte string `s` holds `p` at position `i`.
pub fn bytes_have_at(s: &[u8], i: usize, p: &[u8]) -> (r: bool)
    ensures
        r == has_at(s@, i as int, p@),
{
    if i > s.len() || p.len() > s.len() - i {
        return false;
    }
    let mut k: usize = 0;
    while k < p.len()
        invariant
            i + p@.len() <= s@.len(),
            s@.len() == s.len(),
            k <= p@.len(),
            forall|j: int| 0 <= j < k ==> s@[i + j] == p@[j],
        decreases p@.len() - k,
    {
        if s[i + k] != p[k] {
            proof {
                assert(s@.subrange(i as int, i + p@.len())[k as int] != p@[k as int]);
            }
            return false;
        }
        k = k + 1;
    }
    proof {
        assert(s@.subrange(i as int, i + p@.len()) =~= p@);
    }
    true
}

/// Whether `s` holds the two bytes `a b` at position `i`.
pub fn at2(s: &[u8], i: usize, a: u8, b: u8) -> (r: bool)
    ensures
        r == has_at(s@, i as int, seq![a, b]),
{
    if i < s.len() && s.len() - i >= 2 && s[i] == a && s[i + 1] == b {
        proof {
            assert(s@.subrange(i as int, i + 2) =~= seq![a, b]);
        }
        true
    } else {
        proof {
            if has_at(s@, i as int, seq![a, b]) {
                assert(s@.subrange(i as int, i + 2)[0] == a);
                assert(s@.subrange(i as int, i + 2)[1] == b);
            }
        }
        false
    }
}

/// Whether `s` holds the three bytes `a b c` at position `i`.
pub fn at3(s: &[u8], i: usize, a: u8, b: u8, c: u8) -> (r: bool)
    ensures
        r == has_at(s@, i as int, seq![a, b, c]),
{
    if i < s.len() && s.len() - i >= 3 && s[i] == a && s[i + 1] == b && s[i + 2] == c {
        proof {
            assert(s@.subrange(i as int, i + 3) =~= seq![a, b, c]);
        }
        true
    } else {
        proof {
            if has_at(s@, i as int, seq![a, b, c]) {
                assert(s@.subrange(i as int, i + 3)[0] == a);
                assert(s@.subrange(i as int, i + 3)[1] == b);
                assert(s@.subrange(i as int, i + 3)[2] == c);
            }
        }
        false
    }
}

/// Whether `s` holds the four bytes `a b c d` at position `i`.
pub fn at4(s: &[u8], i: usize, a: u8, b: u8, c: u8, d: u8) -> (r: bool)
    ensures
        r == has_at(s@, i as int, seq![a, b, c, d]),
{
    if i < s.len() && s.len() - i >= 4 && s[i] == a && s[i + 1] == b && s[i + 2] == c && s[i + 3]
        == d {
        proof {
            assert(s@.subrange(i as int, i + 4) =~= seq![a, b, c, d]);
        }
        true
    } else {
        proof {
            if has_at(s@, i as int, seq![a, b, c, d]) {
                assert(s@.subrange(i as int, i + 4)[0] == a);
                assert(s@.subrange(i as int, i + 4)[1] == b);
                assert(s@.subrange(i as int, i + 4)[2] == c);
                assert(s@.subrange(i as int, i + 4)[3] == d);
            }
        }
        false
    }
}

/// The first position at or after `from`, where the two-byte string `a b`
/// starts and ends at or before `end`.
pub open spec fn find_pair(s: Seq<u8>, from: int, end: int, a: u8, b: u8) -> Option<int>
    decreases end - from,
{
    if from < 0 || from + 2 > end || end > s.len() {
        None
    } else if s[from] == a && s[from + 1] == b {
        Some(from)
    } else {
        find_pair(s, from + 1, end, a, b)
    }
}

/// Finds the first position at or after `from` where the two bytes `a b`
/// occur, ending at or before `end`.
pub fn find_pair_in(s: &[u8], from: usize, end: usize, a: u8, b: u8) -> (r: Option<usize>)
    requires
        end <= s@.len(),
    ensures
        match r {
            Some(i) => find_pair(s@, from as int, end as int, a, b) == Some(i as int),
            None => find_pair(s@, from as int, end as int, a, b) is None,
        },
        r matches Some(i) ==> from <= i && i + 2 <= end,
{
    let mut i = from;
    while i < end && end - i >= 2
        invariant
            end <= s@.len(),
            from <= i,
            find_pair(s@, from as int, end as int, a, b) == find_pair(s@, i as int, end as int, a, b),
        decreases end - i,
    {
        if s[i] == a && s[i + 1] == b {
            return Some(i);
        }
        i = i + 1;
    }
    None
}

/// The first position at or after `from` holding byte `c`.
pub open spec fn find_byte(s: Seq<u8>, from: int, c: u8) -> Option<int>
    decreases s.len() - from,
{
    if from < 0 || from >= s.len() {
        None
    } else if s[from] == c {
        Some(from)
    } else {
        find_byte(s, from + 1, c)
    }
}

/// Finds the first position at or after `from` holding byte `c`.
pub fn find_byte_in(s: &[u8], from: usize, c: u8) -> (r: Option<usize>)
    ensures
        match r {
            Some(i) => find_byte(s@, from as int, c) == Some(i as int),
            None => find_byte(s@, from as int, c) is None,
        },
        r matches Some(i) ==> from <= i < s@.len() && s@[i as int] == c,
{
    let mut i = from;
    while i < s.len()
        invariant
            from <= i,
            find_byte(s@, from as int, c) == find_byte(s@, i as int, c),
        decreases s@.len() - i,
    {
        if s[i] == c {
            return Some(i);
        }
        i = i + 1;
    }
    None
}

/// The last position before `end` holding byte `c`.
pub open spec fn rfind_byte(s: Seq<u8>, end: int, c: u8) -> Option<int>
    decreases end,
{
    if end <= 0 || end > s.len() {
        None
    } else if s[end - 1] == c {
        Some(end - 1)
    } else {
        rfind_byte(s, end - 1, c)
    }
}

/// Finds the last position before `end` holding byte `c`.
pub fn rfind_byte_in(s: &[u8], end: usize, c: u8) -> (r: Option<usize>)
    requires
        end <= s@.len(),
    ensures
        match r {
            Some(i) => rfind_byte(s@, end as int, c) == Some(i as int),
            None => rfind_byte(s@, end as int, c) is None,
        },
        r matches Some(i) ==> i < end && s@[i as int] == c,
{
    let mut e = end;
    while e > 0
        invariant
            e <= end <= s@.len(),
            rfind_byte(s@, end as int, c) == rfind_byte(s@, e as int, c),
        decreases e,
    {
        if s[e - 1] == c {
            return Some(e - 1);
        }
        e = e - 1;
    }
    None
}

/// Number of occurrences of byte `c` in `s`.
pub open spec fn count_byte(s: Seq<u8>, c: u8) -> nat
    decreases s.len(),
{
    if s.len() == 0 {
        0
    } else {
        count_byte(s.drop_last(), c) + if s.last() == c { 1nat } else { 0nat }
    }
}

/// Counts the occurrences of byte `c` among the first `end` bytes of `s`.
pub fn count_byte_in(s: &[u8], end: usize, c: u8) -> (r: usize)
    requires
        end <= s@.len(),
    ensures
        r == count_byte(s@.take(end as int), c),
{
    let mut i: usize = 0;
    let mut n: usize = 0;
    while i < end
        invariant
            i <= end <= s@.len(),
            n == count_byte(s@.take(i as int), c),
            n <= i,
        decreases end - i,
    {
        proof {
            assert(s@.take(i as int + 1).drop_last() =~= s@.take(i as int));
        }
        if s[i] == c {
            n = n + 1;
        }
        i = i + 1;
    }
    n
}

/// The width, in bytes, of a Unicode whitespace character whose UTF-8
/// encoding starts at position `i` of `s`; zero when none starts there.
///
/// The whitespace characters are those with the Unicode `White_Space`
/// property: U+0009 to U+000D, U+0020, U+0085, U+00A0, U+1680, U+2000 to
/// U+200A, U+2028, U+2029, U+202F, U+205F and U+3000.
pub open spec fn ws_width(s: Seq<u8>, i: int) -> nat {
    if i < 0 || i >= s.len() {
        0
    } else if (0x09 <= s[i] <= 0x0d) || s[i] == 0x20 {
        1
    } else if s[i] == 0xc2 && i + 1 < s.len() && (s[i + 1] == 0x85 || s[i + 1] == 0xa0) {
        2
    } else if i + 2 < s.len() && (
        (s[i] == 0xe1 && s[i + 1] == 0x9a && s[i + 2] == 0x80)
        || (s[i] == 0xe2 && s[i + 1] == 0x80 && ((0x80 <= s[i + 2] <= 0x8a) || s[i + 2] == 0xa8 || s[i + 2] == 0xa9 || s[i + 2] == 0xaf))
        || (s[i] == 0xe2 && s[i + 1] == 0x81 && s[i + 2] == 0x9f)
        || (s[i] == 0xe3 && s[i + 1] == 0x80 && s[i + 2] == 0x80)
    ) {
        3
    } else {
        0
    }
}

/// The width of the whitespace character starting at `i`, or zero.
pub fn ws_width_at(s: &[u8], i: usize) -> (r: usize)
    ensures
        r == ws_width(s@, i as int),
{
    if i >= s.len() {
        return 0;
    }
    let c = s[i];
    if (0x09 <= c && c <= 0x0d) || c == 0x20 {
        1
    } else if c == 0xc2 && s.len() - i > 1 && (s[i + 1] == 0x85 || s[i + 1] == 0xa0) {
        2
    } else if s.len() - i > 2 {
        let c1 = s[i + 1];
        let c2 = s[i + 2];
        if (c == 0xe1 && c1 == 0x9a && c2 == 0x80) || (c == 0xe2 && c1 == 0x80 && ((0x80 <= c2
            && c2 <= 0x8a) || c2 == 0xa8 || c2 == 0xa9 || c2 == 0xaf)) || (c == 0xe2 && c1 == 0x81
            && c2 == 0x9f) || (c == 0xe3 && c1 == 0x80 && c2 == 0x80) {
            3
        } else {
            0
        }
    } else {
        0
    }
}

/// The end of the run of whitespace characters that starts at `i`.
pub open spec fn skip_ws(s: Seq<u8>, i: int) -> int
    decreases s.len() - i,
{
    if 0 <= i < s.len() && ws_width(s, i) > 0 {
        skip_ws(s, i + ws_width(s, i))
    } else {
        i
    }
}

/// Skips the whitespace characters starting at `from`, returning the
/// position after them.
pub fn skip_ws_from(s: &[u8], from: usize) -> (r: usize)
    requires
        from <= s@.len(),
    ensures
        r == skip_ws(s@, from as int),
        from <= r <= s@.len(),
{
    let mut i = from;
    while i < s.len()
        invariant
            from <= i <= s@.len(),
            s@.len() == s.len(),
            skip_ws(s@, from as int) == skip_ws(s@, i as int),
        decreases s@.len() - i,
    {
        let w = ws_width_at(s, i);
        if w == 0 {
            return i;
        }
        assert(i + w <= s@.len());
        i = i + w;
    }
    i
}

} // verus!
