//! Printing syntax back to text.
use vstd::prelude::*;
use std::marker::PhantomData;
use vstd::utf8::*;
use crate::ast_str::{AstStr, AstStrRepr, repeat, string_bytes};
use crate::whitespace::{BlockComment, Comment, LineComment, PureWhitespace, Whitespace, WhitespaceInner, rest_text};

verus! {

/// Print formatter: the text printed so far
pub struct PrintFmt {
    output: Vec<u8>,
}

impl PrintFmt {
    /// The text printed so far.
    pub closed spec fn text(&self) -> Seq<u8> {
        self.output@
    }

    /// Creates a new formatter
    pub fn new() -> (r: Self)
        ensures
            r.text() == Seq::<u8>::empty(),
    {
        PrintFmt { output: Vec::new() }
    }

    /// Returns the output
    pub fn output(&self) -> (r: &[u8])
        ensures
            r@ == self.text(),
    {
        self.output.as_slice()
    }

    /// Appends bytes to the output
    pub fn write_bytes(&mut self, b: &[u8])
        ensures
            final(self).text() == old(self).text() + b@,
    {
        let mut i: usize = 0;
        while i < b.len()
            invariant
                i <= b@.len(),
                self.output@ == old(self).output@ + b@.take(i as int),
            decreases b@.len() - i,
        {
            self.output.push(b[i]);
            proof {
                assert(b@.take(i as int + 1) =~= b@.take(i as int).push(b@[i as int]));
            }
            i = i + 1;
        }
        proof {
            assert(b@.take(b@.len() as int) =~= b@);
        }
    }

    /// Appends `n` copies of byte `c` to the output
    pub fn write_repeated(&mut self, c: u8, n: usize)
        ensures
            final(self).text() == old(self).text() + Seq::new(n as nat, |_i: int| c),
    {
        let mut i: usize = 0;
        while i < n
            invariant
                i <= n,
                self.output@ == old(self).output@ + Seq::new(i as nat, |_i: int| c),
            decreases n - i,
        {
            self.output.push(c);
            proof {
                assert(Seq::new((i + 1) as nat, |_i: int| c) =~= Seq::new(i as nat, |_i: int| c).push(c));
            }
            i = i + 1;
        }
    }

    /// Appends the UTF-8 encoding of a character to the output
    pub fn write_char(&mut self, ch: char)
        ensures
            final(self).text() == old(self).text() + encode_scalar(ch as u32),
    {
        let v = ch as u32;
        proof {
            char_is_scalar(ch);
        }
        if v <= 0x7f {
            self.output.push((v & 0x7f) as u8);
        } else if v <= 0x7ff {
            self.output.push(0xc0 | ((v >> 6) & 0x1f) as u8);
            self.output.push(0x80 | (v & 0x3f) as u8);
        } else if v <= 0xffff {
            self.output.push(0xe0 | ((v >> 12) & 0x0f) as u8);
            self.output.push(0x80 | ((v >> 6) & 0x3f) as u8);
            self.output.push(0x80 | (v & 0x3f) as u8);
        } else {
            self.output.push(0xf0 | ((v >> 18) & 0x7) as u8);
            self.output.push(0x80 | ((v >> 12) & 0x3f) as u8);
            self.output.push(0x80 | ((v >> 6) & 0x3f) as u8);
            self.output.push(0x80 | (v & 0x3f) as u8);
        }
        proof {
            assert(self.output@ =~= old(self).output@ + encode_scalar(ch as u32));
        }
    }
}

impl Default for PrintFmt {
    fn default() -> (r: Self)
        ensures
            r.text() == Seq::<u8>::empty(),
    {
        PrintFmt::new()
    }
}

/// Printable types
pub trait Print: Sized {
    /// The text this value prints.
    spec fn printed(&self) -> Seq<u8>;

    /// The text this value prints, without whitespace.
    spec fn printed_non_ws(&self) -> Seq<u8>;

    /// Prints this type onto a formatter
    fn print(&self, f: &mut PrintFmt)
        ensures
            final(f).text() == old(f).text() + self.printed(),
    ;

    /// Prints this type onto a formatter excluding whitespace
    fn print_non_ws(&self, f: &mut PrintFmt)
        ensures
            final(f).text() == old(f).text() + self.printed_non_ws(),
    ;
}

/// Prints a value into a new byte string
pub fn print_to_bytes<T: Print>(value: &T) -> (r: Vec<u8>)
    ensures
        r@ == value.printed(),
{
    let mut f = PrintFmt::new();
    value.print(&mut f);
    proof {
        assert(Seq::<u8>::empty() + value.printed() =~= value.printed());
    }
    f.output
}

impl AstStr {
    /// Writes this string onto a formatter
    pub fn write(&self, f: &mut PrintFmt)
        ensures
            final(f).text() == old(f).text() + self.text(),
        decreases self,
    {
        match &self.repr {
            AstStrRepr::Input(b) => f.write_bytes(b.as_slice()),
            AstStrRepr::String(s) => f.write_bytes(s.as_str().as_bytes()),
            AstStrRepr::Static(s) => f.write_bytes(s.as_bytes()),
            AstStrRepr::Char(c) => f.write_char(*c),
            AstStrRepr::Spaces { len } => f.write_repeated(0x20, *len as usize),
            AstStrRepr::Indentation { indent, newlines, depth } => {
                f.write_repeated(0x0a, *newlines);
                let ib = indent.as_str().as_bytes();
                let mut i: usize = 0;
                let ghost before = f.text();
                while i < *depth
                    invariant
                        i <= *depth,
                        ib@ == string_bytes(*indent),
                        f.text() == before + repeat(string_bytes(*indent), i as nat),
                    decreases *depth - i,
                {
                    f.write_bytes(ib);
                    proof {
                        assert(before + repeat(string_bytes(*indent), (i + 1) as nat) =~= before + repeat(string_bytes(*indent), i as nat) + string_bytes(*indent));
                    }
                    i = i + 1;
                }
                proof {
                    assert(old(f).text() + self.text() =~= before + repeat(string_bytes(*indent), *depth as nat));
                }
            },
            AstStrRepr::Join { lhs, rhs } => {
                lhs.write(f);
                rhs.write(f);
                proof {
                    assert(old(f).text() + self.text() =~= old(f).text() + lhs.text() + rhs.text());
                }
            },
        }
    }
}

impl Print for AstStr {
    open spec fn printed(&self) -> Seq<u8> {
        self.text()
    }

    open spec fn printed_non_ws(&self) -> Seq<u8> {
        self.text()
    }

    fn print(&self, f: &mut PrintFmt) {
        self.write(f);
    }

    fn print_non_ws(&self, f: &mut PrintFmt) {
        self.write(f);
    }
}

impl Print for PureWhitespace {
    open spec fn printed(&self) -> Seq<u8> {
        self.0.text()
    }

    open spec fn printed_non_ws(&self) -> Seq<u8> {
        Seq::empty()
    }

    fn print(&self, f: &mut PrintFmt) {
        self.0.write(f);
    }

    fn print_non_ws(&self, f: &mut PrintFmt) {
        proof {
            assert(old(f).text() + Seq::<u8>::empty() =~= old(f).text());
        }
    }
}

impl Print for Comment {
    open spec fn printed(&self) -> Seq<u8> {
        self.str().text()
    }

    open spec fn printed_non_ws(&self) -> Seq<u8> {
        Seq::empty()
    }

    fn print(&self, f: &mut PrintFmt) {
        match self {
            Comment::Line(c) => c.0.write(f),
            Comment::Block(c) => c.0.write(f),
        }
    }

    fn print_non_ws(&self, f: &mut PrintFmt) {
        proof {
            assert(old(f).text() + Seq::<u8>::empty() =~= old(f).text());
        }
    }
}

impl Print for Whitespace {
    open spec fn printed(&self) -> Seq<u8> {
        self.text()
    }

    open spec fn printed_non_ws(&self) -> Seq<u8> {
        Seq::empty()
    }

    fn print(&self, f: &mut PrintFmt) {
        let ghost before = f.text();
        self.0.first.0.write(f);
        let rest = &self.0.rest;
        let mut i: usize = 0;
        while i < rest.len()
            invariant
                i <= rest@.len(),
                f.text() == before + self.0.first.0.text() + rest_text(rest@.take(i as int)),
            decreases rest@.len() - i,
        {
            let (comment, pure) = &rest[i];
            comment.print(f);
            pure.0.write(f);
            proof {
                assert(rest@.take(i as int + 1).drop_last() =~= rest@.take(i as int));
                assert(before + self.0.first.0.text() + rest_text(rest@.take(i as int + 1)) =~= before + self.0.first.0.text() + rest_text(rest@.take(i as int)) + comment.str().text() + pure.0.text());
            }
            i = i + 1;
        }
        proof {
            assert(rest@.take(rest@.len() as int) =~= rest@);
            assert(before + self.text() =~= before + self.0.first.0.text() + rest_text(rest@));
        }
    }

    fn print_non_ws(&self, f: &mut PrintFmt) {
        proof {
            assert(old(f).text() + Seq::<u8>::empty() =~= old(f).text());
        }
    }
}

/// A boxed value prints as the value; printing it without whitespace prints
/// the value whole, whitespace included.
impl<T: Print> Print for Box<T> {
    open spec fn printed(&self) -> Seq<u8> {
        (**self).printed()
    }

    open spec fn printed_non_ws(&self) -> Seq<u8> {
        (**self).printed()
    }

    fn print(&self, f: &mut PrintFmt) {
        (**self).print(f)
    }

    fn print_non_ws(&self, f: &mut PrintFmt) {
        (**self).print(f)
    }
}

impl<T> Print for PhantomData<T> {
    open spec fn printed(&self) -> Seq<u8> {
        Seq::empty()
    }

    open spec fn printed_non_ws(&self) -> Seq<u8> {
        Seq::empty()
    }

    fn print(&self, f: &mut PrintFmt) {
        proof {
            assert(old(f).text() + Seq::<u8>::empty() =~= old(f).text());
        }
    }

    fn print_non_ws(&self, f: &mut PrintFmt) {
        proof {
            assert(old(f).text() + Seq::<u8>::empty() =~= old(f).text());
        }
    }
}

impl<T: Print> Print for Option<T> {
    open spec fn printed(&self) -> Seq<u8> {
        match self {
            Some(v) => v.printed(),
            None => Seq::empty(),
        }
    }

    open spec fn printed_non_ws(&self) -> Seq<u8> {
        match self {
            Some(v) => v.printed_non_ws(),
            None => Seq::empty(),
        }
    }

    fn print(&self, f: &mut PrintFmt) {
        match self {
            Some(v) => v.print(f),
            None => {
                proof {
                    assert(old(f).text() + Seq::<u8>::empty() =~= old(f).text());
                }
            },
        }
    }

    fn print_non_ws(&self, f: &mut PrintFmt) {
        match self {
            Some(v) => v.print_non_ws(f),
            None => {
                proof {
                    assert(old(f).text() + Seq::<u8>::empty() =~= old(f).text());
                }
            },
        }
    }
}

/// The concatenated printed texts of a sequence of values.
pub open spec fn printed_all<T: Print>(s: Seq<T>) -> Seq<u8>
    decreases s.len(),
{
    if s.len() == 0 {
        Seq::empty()
    } else {
        printed_all(s.drop_last()) + s.last().printed()
    }
}

/// The concatenated printed texts, without whitespace, of a sequence of values.
pub open spec fn printed_all_non_ws<T: Print>(s: Seq<T>) -> Seq<u8>
    decreases s.len(),
{
    if s.len() == 0 {
        Seq::empty()
    } else {
        printed_all_non_ws(s.drop_last()) + s.last().printed_non_ws()
    }
}

impl<T: Print> Print for Vec<T> {
    open spec fn printed(&self) -> Seq<u8> {
        printed_all(self@)
    }

    open spec fn printed_non_ws(&self) -> Seq<u8> {
        printed_all_non_ws(self@)
    }

    fn print(&self, f: &mut PrintFmt) {
        let ghost before = f.text();
        let mut i: usize = 0;
        while i < self.len()
            invariant
                i <= self@.len(),
                f.text() == before + printed_all(self@.take(i as int)),
            decreases self@.len() - i,
        {
            self[i].print(f);
            proof {
                assert(self@.take(i as int + 1).drop_last() =~= self@.take(i as int));
                assert(before + printed_all(self@.take(i as int + 1)) =~= before + printed_all(self@.take(i as int)) + self@[i as int].printed());
            }
            i = i + 1;
        }
        proof {
            assert(self@.take(self@.len() as int) =~= self@);
        }
    }

    fn print_non_ws(&self, f: &mut PrintFmt) {
        let ghost before = f.text();
        let mut i: usize = 0;
        while i < self.len()
            invariant
                i <= self@.len(),
                f.text() == before + printed_all_non_ws(self@.take(i as int)),
            decreases self@.len() - i,
        {
            self[i].print_non_ws(f);
            proof {
                assert(self@.take(i as int + 1).drop_last() =~= self@.take(i as int));
                assert(before + printed_all_non_ws(self@.take(i as int + 1)) =~= before + printed_all_non_ws(self@.take(i as int)) + self@[i as int].printed_non_ws());
            }
            i = i + 1;
        }
        proof {
            assert(self@.take(self@.len() as int) =~= self@);
        }
    }
}

} // verus!
