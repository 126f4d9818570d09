//! Abstract syntax tree strings.
//!
//! An [`AstStr`] is a piece of output text, held in one of several compact
//! representations ([`AstStrRepr`]). Its meaning is the byte string that
//! [`AstStrRepr::text`] gives.
use vstd::prelude::*;
use vstd::utf8::*;
use vstd::string::StringSliceAdditionalSpecFns;
use crate::text::{count_byte, count_byte_in};

verus! {

/// `n` copies of the byte string `s`, one after another.
pub open spec fn repeat(s: Seq<u8>, n: nat) -> Seq<u8>
    decreases n,
{
    if n == 0 {
        Seq::empty()
    } else {
        repeat(s, (n - 1) as nat) + s
    }
}

/// The length of `n` copies of `s`.
pub proof fn lemma_repeat_len(s: Seq<u8>, n: nat)
    ensures
        repeat(s, n).len() == n * s.len(),
    decreases n,
{
    if n > 0 {
        let m = (n - 1) as nat;
        let l = s.len();
        lemma_repeat_len(s, m);
        assert(n * l == m * l + l) by (nonlinear_arith)
            requires
                n == m + 1,
        ;
        assert(repeat(s, n) == repeat(s, m) + s);
    } else {
        assert(n * s.len() == 0) by (nonlinear_arith)
            requires
                n == 0,
        ;
    }
}

/// Ast string representation
pub enum AstStrRepr {
    /// Bytes copied from the input
    Input(Vec<u8>),
    /// An owned string
    String(String),
    /// A static string
    Static(&'static str),
    /// A single character
    Char(char),
    /// A run of spaces
    Spaces { len: u16 },
    /// `newlines` newlines followed by `depth` copies of `indent`
    Indentation { indent: String, newlines: usize, depth: usize },
    /// Two strings, one after the other
    Join { lhs: Box<AstStr>, rhs: Box<AstStr> },
}

/// Ast string
pub struct AstStr {
    /// What the string currently is
    pub repr: AstStrRepr,
    /// The input bytes it was parsed from, if any
    pub input: Option<Vec<u8>>,
}

/// The UTF-8 bytes of a `String`.
pub open spec fn string_bytes(s: String) -> Seq<u8> {
    encode_utf8(s@)
}

impl AstStrRepr {
    /// The bytes this representation stands for.
    pub open spec fn text(self) -> Seq<u8>
        decreases self,
    {
        match self {
            AstStrRepr::Input(b) => b@,
            AstStrRepr::String(s) => string_bytes(s),
            AstStrRepr::Static(s) => s.spec_bytes(),
            AstStrRepr::Char(c) => encode_scalar(c as u32),
            AstStrRepr::Spaces { len } => Seq::new(len as nat, |_i: int| 0x20u8),
            AstStrRepr::Indentation { indent, newlines, depth } => Seq::new(
                newlines as nat,
                |_i: int| 0x0au8,
            ) + repeat(string_bytes(indent), depth as nat),
            AstStrRepr::Join { lhs, rhs } => lhs.repr.text() + rhs.repr.text(),
        }
    }
}

impl AstStr {
    /// The bytes this string stands for.
    pub open spec fn text(self) -> Seq<u8> {
        self.repr.text()
    }

    /// Returns the representation of this string
    pub fn repr(&self) -> (r: &AstStrRepr)
        ensures
            *r == self.repr,
    {
        &self.repr
    }

    /// Returns the length of this string, in bytes
    pub fn len(&self) -> (r: usize)
        requires
            self.text().len() <= usize::MAX,
        ensures
            r == self.text().len(),
        decreases self,
    {
        match &self.repr {
            AstStrRepr::Input(b) => b.len(),
            AstStrRepr::String(s) => s.as_str().len(),
            AstStrRepr::Static(s) => s.len(),
            AstStrRepr::Char(c) => char_len_utf8(*c),
            AstStrRepr::Spaces { len } => *len as usize,
            AstStrRepr::Indentation { indent, newlines, depth } => {
                proof {
                    lemma_repeat_len(string_bytes(*indent), *depth as nat);
                }
                if *depth == 0 {
                    return *newlines;
                }
                proof {
                    let l = string_bytes(*indent).len();
                    let d = *depth as nat;
                    assert(l <= d * l) by (nonlinear_arith)
                        requires
                            d >= 1,
                    ;
                }
                let indent_len = indent.as_str().len();
                *newlines + *depth * indent_len
            },
            AstStrRepr::Join { lhs, rhs } => {
                let l = lhs.len();
                let r = rhs.len();
                l + r
            },
        }
    }
}

/// The number of newlines in a byte string.
pub open spec fn newlines(b: Seq<u8>) -> nat {
    count_byte(b, 0x0a)
}

/// Counting bytes distributes over concatenation.
pub proof fn lemma_count_byte_concat(a: Seq<u8>, b: Seq<u8>, c: u8)
    ensures
        count_byte(a + b, c) == count_byte(a, c) + count_byte(b, c),
    decreases b.len(),
{
    if b.len() == 0 {
        assert(a + b =~= a);
    } else {
        assert((a + b).drop_last() =~= a + b.drop_last());
        lemma_count_byte_concat(a, b.drop_last(), c);
    }
}

/// A byte string holds no more of a byte than its length.
pub proof fn lemma_count_byte_bound(a: Seq<u8>, c: u8)
    ensures
        count_byte(a, c) <= a.len(),
    decreases a.len(),
{
    if a.len() > 0 {
        lemma_count_byte_bound(a.drop_last(), c);
    }
}

pub proof fn lemma_count_repeat(s: Seq<u8>, n: nat, c: u8)
    ensures
        count_byte(repeat(s, n), c) == n * count_byte(s, c),
    decreases n,
{
    if n > 0 {
        let m = (n - 1) as nat;
        let k = count_byte(s, c);
        lemma_count_repeat(s, m, c);
        lemma_count_byte_concat(repeat(s, m), s, c);
        assert(n * k == m * k + k) by (nonlinear_arith)
            requires
                n == m + 1,
        ;
    } else {
        assert(n * count_byte(s, c) == 0) by (nonlinear_arith)
            requires
                n == 0,
        ;
    }
}

pub proof fn lemma_count_constant(n: nat, b: u8, c: u8)
    ensures
        count_byte(Seq::new(n, |_i: int| b), c) == if b == c { n } else { 0 },
    decreases n,
{
    if n > 0 {
        assert(Seq::new(n, |_i: int| b).drop_last() =~= Seq::new((n - 1) as nat, |_i: int| b));
        lemma_count_constant((n - 1) as nat, b, c);
    }
}

pub proof fn lemma_count_char_newline(c: char)
    ensures
        count_byte(encode_scalar(c as u32), 0x0a) == if c == '\n' { 1nat } else { 0nat },
{
    let e = encode_scalar(c as u32);
    char_is_scalar(c);
    let v = c as u32;
    assert(forall|x: u32| #![auto] (0x80u8 | (x & 0x3F) as u8) != 10u8) by (bit_vector);
    assert(forall|x: u32| #![auto] (0x80u8 | ((x >> 6) & 0x3F) as u8) != 10u8) by (bit_vector);
    assert(forall|x: u32| #![auto] (0x80u8 | ((x >> 12) & 0x3F) as u8) != 10u8) by (bit_vector);
    assert(forall|x: u32| #![auto] (0xC0u8 | ((x >> 6) & 0x1F) as u8) != 10u8) by (bit_vector);
    assert(forall|x: u32| #![auto] (0xE0u8 | ((x >> 12) & 0x0F) as u8) != 10u8) by (bit_vector);
    assert(forall|x: u32| #![auto] (0xF0u8 | ((x >> 18) & 0x7) as u8) != 10u8) by (bit_vector);
    assert(forall|x: u32| x <= 0x7f ==> ((x & 0x7F) as u8 == 10u8 <==> x == 10)) by (bit_vector);
    reveal_with_fuel(count_byte, 5);
    assert(e.drop_last().len() < 4);
    if e.len() >= 2 {
        assert(e.drop_last().drop_last().len() < 3);
    }
    if e.len() >= 3 {
        assert(e.drop_last().drop_last().drop_last().len() < 2);
    }
}

impl AstStr {
    /// A string parsed from the input bytes `b`.
    pub fn new_input(b: Vec<u8>) -> (r: Self)
        ensures
            r.text() == b@,
            r.input == Some(b),
    {
        let repr = AstStrRepr::Input(b.clone());
        AstStr { repr, input: Some(b) }
    }

    /// Returns whether this string is empty
    pub fn is_empty(&self) -> (r: bool)
        requires
            self.text().len() <= usize::MAX,
        ensures
            r == (self.text().len() == 0),
    {
        self.len() == 0
    }

    /// Replaces what this string is, keeping the input it was parsed from.
    pub fn replace(&mut self, repr: AstStrRepr)
        ensures
            final(self).repr == repr,
            final(self).input == old(self).input,
    {
        self.repr = repr;
    }

    /// Returns the number of newlines in this string
    pub fn count_newlines(&self) -> (r: usize)
        requires
            self.text().len() <= usize::MAX,
        ensures
            r == newlines(self.text()),
        decreases self,
    {
        proof {
            lemma_count_byte_bound(self.text(), 0x0a);
        }
        match &self.repr {
            AstStrRepr::Input(b) => {
                proof {
                    assert(b@.take(b@.len() as int) =~= b@);
                }
                count_byte_in(b.as_slice(), b.len(), 0x0a)
            },
            AstStrRepr::String(s) => {
                let b = s.as_str().as_bytes();
                proof {
                    assert(b@.take(b@.len() as int) =~= b@);
                }
                count_byte_in(b, b.len(), 0x0a)
            },
            AstStrRepr::Static(s) => {
                let b = s.as_bytes();
                proof {
                    assert(b@.take(b@.len() as int) =~= b@);
                }
                count_byte_in(b, b.len(), 0x0a)
            },
            AstStrRepr::Char(c) => {
                proof {
                    lemma_count_char_newline(*c);
                }
                if *c == '\n' {
                    1
                } else {
                    0
                }
            },
            AstStrRepr::Spaces { len } => {
                proof {
                    lemma_count_constant(*len as nat, 0x20, 0x0a);
                }
                0
            },
            AstStrRepr::Indentation { indent, newlines, depth } => {
                let ib = indent.as_str().as_bytes();
                proof {
                    assert(ib@.take(ib@.len() as int) =~= ib@);
                    lemma_count_constant(*newlines as nat, 0x0a, 0x0a);
                    lemma_count_repeat(string_bytes(*indent), *depth as nat, 0x0a);
                    lemma_count_byte_concat(
                        Seq::new(*newlines as nat, |_i: int| 0x0au8),
                        repeat(string_bytes(*indent), *depth as nat),
                        0x0a,
                    );
                    lemma_count_byte_bound(repeat(string_bytes(*indent), *depth as nat), 0x0a);
                    lemma_repeat_len(string_bytes(*indent), *depth as nat);
                }
                if *depth == 0 {
                    return *newlines;
                }
                proof {
                    let l = count_byte(string_bytes(*indent), 0x0a);
                    let d = *depth as nat;
                    assert(l <= d * l) by (nonlinear_arith)
                        requires
                            d >= 1,
                    ;
                    lemma_count_byte_bound(string_bytes(*indent), 0x0a);
                }
                let per = count_byte_in(ib, ib.len(), 0x0a);
                *newlines + *depth * per
            },
            AstStrRepr::Join { lhs, rhs } => {
                proof {
                    lemma_count_byte_concat(lhs.text(), rhs.text(), 0x0a);
                }
                let l = lhs.count_newlines();
                let r = rhs.count_newlines();
                l + r
            },
        }
    }

    /// Returns whether this string has any newlines
    pub fn has_newlines(&self) -> (r: bool)
        requires
            self.text().len() <= usize::MAX,
        ensures
            r == (newlines(self.text()) > 0),
    {
        self.count_newlines() != 0
    }

    /// Joins two strings into one.
    pub fn join(lhs: Self, rhs: Self) -> (r: Self)
        ensures
            r.text() == lhs.text() + rhs.text(),
            r.input is None,
    {
        AstStr { repr: AstStrRepr::Join { lhs: Box::new(lhs), rhs: Box::new(rhs) }, input: None }
    }

    /// Appends a newline to this string, keeping the input it was parsed
    /// from.
    pub fn push_newline(&mut self)
        ensures
            final(self).text() == old(self).text() + seq![0x0au8],
            final(self).input == old(self).input,
            final(self).repr == (AstStrRepr::Join {
                lhs: Box::new(AstStr { repr: old(self).repr, input: None }),
                rhs: Box::new(AstStr { repr: AstStrRepr::Char('\n'), input: None }),
            }),
    {
        let mut repr = AstStrRepr::Spaces { len: 0 };
        std::mem::swap(&mut repr, &mut self.repr);
        let lhs = AstStr { repr, input: None };
        let rhs = AstStr { repr: AstStrRepr::Char('\n'), input: None };
        proof {
            assert(encode_scalar('\n' as u32) =~= seq![0x0au8]) by {
                assert(('\n' as u32) == 10u32);
                assert((10u32 & 0x7F) as u8 == 10u8) by (bit_vector);
            }
        }
        self.repr = AstStrRepr::Join { lhs: Box::new(lhs), rhs: Box::new(rhs) };
        proof {
            assert(self.repr.text() == lhs.repr.text() + rhs.repr.text());
        }
    }
}

/// The number of bytes in the UTF-8 encoding of `c`.
pub fn char_len_utf8(c: char) -> (r: usize)
    ensures
        r == encode_scalar(c as u32).len(),
        1 <= r <= 4,
{
    let v = c as u32;
    proof {
        char_is_scalar(c);
    }
    if v <= 0x7f {
        1
    } else if v <= 0x7ff {
        2
    } else if v <= 0xffff {
        3
    } else {
        4
    }
}

} // verus!
