//! Formattable values: their format output without formatting, and access
//! to their prefix whitespace.
use vstd::prelude::*;
use std::marker::PhantomData;
use crate::ast_str::{AstStr, newlines, lemma_count_byte_concat, lemma_count_byte_bound};
use crate::format_output::{FormatOutput, spec_join_all, total_len, total_newlines, lemma_join_all_totals, lemma_totals_prefix, spec_join, joinable, spec_default};
use crate::print::PrintFmt;
use crate::text::{skip_ws, skip_ws_from};
use crate::whitespace::{Whitespace, Comment, PureWhitespace, rest_text};

verus! {

/// Whether a byte string is blank: whitespace characters only.
pub open spec fn blank(t: Seq<u8>) -> bool {
    skip_ws(t, 0) == t.len()
}

/// The format output of a string of text `t`.
pub open spec fn str_output(t: Seq<u8>) -> FormatOutput {
    FormatOutput {
        prefix_ws_len: None,
        len: t.len() as usize,
        newlines: newlines(t) as usize,
        is_empty: t.len() == 0,
        is_blank: blank(t),
    }
}

impl AstStr {
    /// Returns whether this string is blank: whitespace characters only
    pub fn is_blank(&self) -> (r: bool)
        ensures
            r == blank(self.text()),
    {
        let mut f = PrintFmt::new();
        self.write(&mut f);
        let bytes = f.output();
        proof {
            assert(bytes@ =~= self.text());
        }
        skip_ws_from(bytes, 0) == bytes.len()
    }
}

/// Whether every piece of a whitespace is blank.
pub open spec fn pieces_blank(ws: Whitespace) -> bool {
    &&& blank(ws.0.first.0.text())
    &&& forall|i: int| 0 <= i < ws.0.rest@.len() ==> {
        &&& blank((#[trigger] ws.0.rest@[i]).0.str().text())
        &&& blank(ws.0.rest@[i].1.0.text())
    }
}

/// The format output of whitespace: all of it is prefix whitespace.
pub open spec fn ws_output(ws: Whitespace) -> FormatOutput {
    FormatOutput {
        prefix_ws_len: Some(ws.text().len() as usize),
        len: ws.text().len() as usize,
        newlines: newlines(ws.text()) as usize,
        is_empty: ws.text().len() == 0,
        is_blank: pieces_blank(ws),
    }
}

/// Where a value's prefix whitespace is
pub enum PrefixWs {
    /// It has this prefix whitespace
    Present(Whitespace),
    /// It is empty: the prefix whitespace is in what follows it
    Empty,
    /// It is not empty but starts without whitespace
    Missing,
}

/// Which of the cases of [`PrefixWs`] holds, without the whitespace
#[derive(Clone, Copy, Debug, PartialEq, Eq, Structural)]
pub enum PrefixWsKind {
    Present,
    Empty,
    Missing,
}

/// The case of a prefix whitespace lookup.
pub open spec fn prefix_ws_kind_of(p: PrefixWs) -> PrefixWsKind {
    match p {
        PrefixWs::Present(_) => PrefixWsKind::Present,
        PrefixWs::Empty => PrefixWsKind::Empty,
        PrefixWs::Missing => PrefixWsKind::Missing,
    }
}

/// Whether the prefix whitespace found is pure, when one is found.
pub open spec fn prefix_ws_pure(p: PrefixWs) -> Option<bool> {
    match p {
        PrefixWs::Present(ws) => Some(ws.0.rest@.len() == 0),
        _ => None,
    }
}

/// Formattable types
pub trait Formattable: Sized {
    /// The format output of this value.
    spec fn spec_format_output(&self) -> FormatOutput;

    /// Whether this value's counters fit a `usize`.
    spec fn output_fits(&self) -> bool;

    /// This value's prefix whitespace.
    spec fn spec_prefix_ws(&self) -> PrefixWs;

    /// Returns the formatting output for this type, without formatting it.
    fn format_output(&self) -> (r: FormatOutput)
        requires
            self.output_fits(),
        ensures
            r == self.spec_format_output(),
    ;

    /// Returns which case of the prefix whitespace lookup holds
    fn prefix_ws_kind(&self) -> (r: PrefixWsKind)
        ensures
            r == prefix_ws_kind_of(self.spec_prefix_ws()),
    ;

    /// Returns if the prefix whitespace is pure, or `None` without one.
    fn prefix_ws_is_pure(&self) -> (r: Option<bool>)
        ensures
            r == prefix_ws_pure(self.spec_prefix_ws()),
    ;

    /// Joins whitespace as a prefix onto the prefix whitespace of this type,
    /// handing it back when there is none.
    fn prefix_ws_join_prefix(&mut self, ws: Whitespace) -> (r: Result<(), Whitespace>)
        ensures
            match old(self).spec_prefix_ws() {
                PrefixWs::Present(p) => r is Ok && (final(self).spec_prefix_ws() matches PrefixWs::Present(q)
                    && q.text() == ws.text() + p.text()),
                _ => r matches Err(w) && (w == ws && *final(self) == *old(self)),
            },
    ;
}

impl Formattable for AstStr {
    open spec fn spec_format_output(&self) -> FormatOutput {
        str_output(self.text())
    }

    open spec fn output_fits(&self) -> bool {
        self.text().len() <= usize::MAX
    }

    open spec fn spec_prefix_ws(&self) -> PrefixWs {
        if self.text().len() == 0 { PrefixWs::Empty } else { PrefixWs::Missing }
    }

    fn format_output(&self) -> (r: FormatOutput) {
        proof {
            assert(self.output_fits());
            lemma_count_byte_bound(self.text(), 0x0a);
        }
        let len = self.len();
        let newlines = self.count_newlines();
        let is_empty = self.is_empty();
        let is_blank = self.is_blank();
        let output = FormatOutput { prefix_ws_len: None, len, newlines, is_empty, is_blank };
        proof {
            assert(output == str_output(self.text()));
            assert(self.spec_format_output() == str_output(self.text()));
        }
        output
    }

    fn prefix_ws_kind(&self) -> (r: PrefixWsKind) {
        let mut f = PrintFmt::new();
        self.write(&mut f);
        if f.output().len() == 0 {
            PrefixWsKind::Empty
        } else {
            PrefixWsKind::Missing
        }
    }

    fn prefix_ws_is_pure(&self) -> (r: Option<bool>) {
        None
    }

    fn prefix_ws_join_prefix(&mut self, ws: Whitespace) -> (r: Result<(), Whitespace>) {
        Err(ws)
    }
}

/// The text of a whitespace's first piece and its first `n` comments with
/// their whitespace.
pub open spec fn ws_prefix_text(ws: Whitespace, n: int) -> Seq<u8> {
    ws.0.first.0.text() + rest_text(ws.0.rest@.take(n))
}

impl Formattable for Whitespace {
    open spec fn spec_format_output(&self) -> FormatOutput {
        ws_output(*self)
    }

    open spec fn output_fits(&self) -> bool {
        self.text().len() <= usize::MAX
    }

    open spec fn spec_prefix_ws(&self) -> PrefixWs {
        PrefixWs::Present(*self)
    }

    fn format_output(&self) -> (r: FormatOutput) {
        let ghost ws = *self;
        proof {
            assert(ws.0.rest@.take(0) =~= Seq::<(Comment, PureWhitespace)>::empty());
            assert(ws_prefix_text(ws, 0) =~= ws.0.first.0.text());
            lemma_rest_prefix_len(ws.0.rest@, 0);
            lemma_count_byte_bound(ws.0.first.0.text(), 0x0a);
            assert(ws.0.first.0.text().len() <= ws.text().len());
        }
        let mut output = self.0.first.0.format_output();
        let mut i: usize = 0;
        while i < self.0.rest.len()
            invariant
                ws == *self,
                ws.text().len() <= usize::MAX,
                i <= ws.0.rest@.len(),
                output.prefix_ws_len is None,
                output.len == ws_prefix_text(ws, i as int).len(),
                output.newlines == newlines(ws_prefix_text(ws, i as int)),
                output.is_empty == (ws_prefix_text(ws, i as int).len() == 0),
                output.is_blank == (blank(ws.0.first.0.text()) && forall|k: int| 0 <= k < i ==> {
                    &&& blank((#[trigger] ws.0.rest@[k]).0.str().text())
                    &&& blank(ws.0.rest@[k].1.0.text())
                }),
            decreases ws.0.rest@.len() - i,
        {
            let ghost before = ws_prefix_text(ws, i as int);
            let ghost c = ws.0.rest@[i as int].0.str().text();
            let ghost p = ws.0.rest@[i as int].1.0.text();
            proof {
                assert(ws.0.rest@.take(i + 1).drop_last() =~= ws.0.rest@.take(i as int));
                assert(ws_prefix_text(ws, i + 1) =~= before + c + p);
                lemma_rest_prefix_len(ws.0.rest@, i + 1);
                lemma_count_byte_concat(before, c, 0x0a);
                lemma_count_byte_concat(before + c, p, 0x0a);
                lemma_count_byte_bound(before + c + p, 0x0a);
            }
            let (comment, pure) = &self.0.rest[i];
            let comment_output = match comment {
                Comment::Line(line) => line.0.format_output(),
                Comment::Block(block) => block.0.format_output(),
            };
            output.append(comment_output);
            output.append(pure.0.format_output());
            i = i + 1;
        }
        proof {
            assert(ws.0.rest@.take(ws.0.rest@.len() as int) =~= ws.0.rest@);
        }
        output.prefix_ws_len = Some(output.len);
        output
    }

    fn prefix_ws_kind(&self) -> (r: PrefixWsKind) {
        PrefixWsKind::Present
    }

    fn prefix_ws_is_pure(&self) -> (r: Option<bool>) {
        Some(self.is_pure())
    }

    fn prefix_ws_join_prefix(&mut self, ws: Whitespace) -> (r: Result<(), Whitespace>)
        ensures
            r is Ok,
            final(self).text() == ws.text() + old(self).text(),
    {
        self.join_prefix(ws);
        Ok(())
    }
}

/// The text of the first comments of a whitespace is no longer than all of
/// them.
proof fn lemma_rest_prefix_len(rest: Seq<(Comment, PureWhitespace)>, n: int)
    requires
        0 <= n <= rest.len(),
    ensures
        rest_text(rest.take(n)).len() <= rest_text(rest).len(),
    decreases rest.len(),
{
    if n < rest.len() {
        lemma_rest_prefix_len(rest.drop_last(), n);
        assert(rest.drop_last().take(n) =~= rest.take(n));
    } else {
        assert(rest.take(n) =~= rest);
    }
}

impl<T: Formattable> Formattable for Option<T> {
    open spec fn spec_format_output(&self) -> FormatOutput {
        match self {
            Some(value) => value.spec_format_output(),
            None => FormatOutput { prefix_ws_len: None, len: 0, newlines: 0, is_empty: true, is_blank: true },
        }
    }

    open spec fn output_fits(&self) -> bool {
        match self {
            Some(value) => value.output_fits(),
            None => true,
        }
    }

    open spec fn spec_prefix_ws(&self) -> PrefixWs {
        match self {
            Some(value) => value.spec_prefix_ws(),
            None => PrefixWs::Empty,
        }
    }

    fn format_output(&self) -> (r: FormatOutput) {
        match self {
            Some(value) => value.format_output(),
            None => FormatOutput::default(),
        }
    }

    fn prefix_ws_kind(&self) -> (r: PrefixWsKind) {
        match self {
            Some(value) => value.prefix_ws_kind(),
            None => PrefixWsKind::Empty,
        }
    }

    fn prefix_ws_is_pure(&self) -> (r: Option<bool>) {
        match self {
            Some(value) => value.prefix_ws_is_pure(),
            None => None,
        }
    }

    fn prefix_ws_join_prefix(&mut self, ws: Whitespace) -> (r: Result<(), Whitespace>) {
        match self {
            Some(value) => value.prefix_ws_join_prefix(ws),
            None => Err(ws),
        }
    }
}


/// The prefix whitespace of values one after another: that of the first
/// value that is not empty, or empty when all are.
pub open spec fn seq_prefix_ws<T: Formattable>(v: Seq<T>) -> PrefixWs
    decreases v.len(),
{
    if v.len() == 0 {
        PrefixWs::Empty
    } else {
        match v[0].spec_prefix_ws() {
            PrefixWs::Empty => seq_prefix_ws(v.drop_first()),
            other => other,
        }
    }
}

/// The format outputs of values.
pub open spec fn element_outputs<T: Formattable>(v: Seq<T>) -> Seq<FormatOutput> {
    v.map_values(|x: T| x.spec_format_output())
}

/// When the values before `i` are empty, the prefix whitespace of values is
/// that of the value at `i`, or empty when there is none.
proof fn lemma_seq_prefix_ws_first<T: Formattable>(v: Seq<T>, i: int)
    requires
        0 <= i <= v.len(),
        forall|j: int| 0 <= j < i ==> (#[trigger] v[j].spec_prefix_ws()) is Empty,
        i < v.len() ==> !(v[i].spec_prefix_ws() is Empty),
    ensures
        seq_prefix_ws(v) == (if i == v.len() { PrefixWs::Empty } else { v[i].spec_prefix_ws() }),
    decreases i,
{
    if i > 0 {
        assert(v[0].spec_prefix_ws() is Empty);
        let w = v.drop_first();
        assert forall|j: int| 0 <= j < i - 1 implies (#[trigger] w[j].spec_prefix_ws()) is Empty by {
            assert(w[j] == v[j + 1]);
        }
        lemma_seq_prefix_ws_first(w, i - 1);
        if i < v.len() {
            assert(w[i - 1] == v[i]);
        }
    }
}

/// Finds the first value that is not empty, with its case.
fn first_non_empty<T: Formattable>(v: &Vec<T>) -> (r: (usize, PrefixWsKind))
    ensures
        r.0 <= v@.len(),
        forall|j: int| 0 <= j < r.0 ==> (#[trigger] v@[j].spec_prefix_ws()) is Empty,
        r.0 < v@.len() ==> r.1 == prefix_ws_kind_of(v@[r.0 as int].spec_prefix_ws()) && r.1 != PrefixWsKind::Empty,
        r.0 == v@.len() ==> r.1 == PrefixWsKind::Empty,
{
    let mut i: usize = 0;
    while i < v.len()
        invariant
            i <= v@.len(),
            forall|j: int| 0 <= j < i ==> (#[trigger] v@[j].spec_prefix_ws()) is Empty,
        decreases v@.len() - i,
    {
        let kind = v[i].prefix_ws_kind();
        if kind != PrefixWsKind::Empty {
            return (i, kind);
        }
        i = i + 1;
    }
    (i, PrefixWsKind::Empty)
}

impl<T: Formattable> Formattable for Vec<T> {
    open spec fn spec_format_output(&self) -> FormatOutput {
        spec_join_all(element_outputs(self@))
    }

    open spec fn output_fits(&self) -> bool {
        &&& forall|i: int| 0 <= i < self@.len() ==> (#[trigger] self@[i]).output_fits()
        &&& total_len(element_outputs(self@)) <= usize::MAX
        &&& total_newlines(element_outputs(self@)) <= usize::MAX
    }

    open spec fn spec_prefix_ws(&self) -> PrefixWs {
        seq_prefix_ws(self@)
    }

    fn format_output(&self) -> (r: FormatOutput) {
        let ghost outs = element_outputs(self@);
        let mut output = FormatOutput::default();
        let mut i: usize = 0;
        proof {
            assert(outs.take(0) =~= Seq::<FormatOutput>::empty());
        }
        while i < self.len()
            invariant
                i <= self@.len(),
                outs == element_outputs(self@),
                self.output_fits(),
                output == spec_join_all(outs.take(i as int)),
            decreases self@.len() - i,
        {
            proof {
                lemma_totals_prefix(outs, i as int);
                lemma_totals_prefix(outs, i + 1);
                lemma_join_all_totals(outs.take(i as int));
                assert(outs.take(i + 1).drop_last() =~= outs.take(i as int));
                assert(outs.take(i + 1).last() == outs[i as int]);
                assert(total_len(outs.take(i + 1)) == total_len(outs.take(i as int)) + outs[i as int].len);
                assert(total_newlines(outs.take(i + 1)) == total_newlines(outs.take(i as int)) + outs[i as int].newlines);
            }
            let value_output = self[i].format_output();
            output.append(value_output);
            i = i + 1;
        }
        proof {
            assert(outs.take(self@.len() as int) =~= outs);
        }
        output
    }

    fn prefix_ws_kind(&self) -> (r: PrefixWsKind) {
        let (i, kind) = first_non_empty(self);
        proof {
            lemma_seq_prefix_ws_first(self@, i as int);
        }
        kind
    }

    fn prefix_ws_is_pure(&self) -> (r: Option<bool>) {
        let (i, _kind) = first_non_empty(self);
        proof {
            lemma_seq_prefix_ws_first(self@, i as int);
        }
        if i < self.len() {
            self[i].prefix_ws_is_pure()
        } else {
            None
        }
    }

    fn prefix_ws_join_prefix(&mut self, ws: Whitespace) -> (r: Result<(), Whitespace>) {
        let (i, kind) = first_non_empty(self);
        proof {
            lemma_seq_prefix_ws_first(self@, i as int);
        }
        if kind != PrefixWsKind::Present {
            return Err(ws);
        }
        let ghost before = self@;
        let mut value = self.remove(i);
        let r = value.prefix_ws_join_prefix(ws);
        self.insert(i, value);
        proof {
            assert(self@ =~= before.update(i as int, value));
            assert forall|j: int| 0 <= j < i implies (#[trigger] self@[j].spec_prefix_ws()) is Empty by {
                assert(self@[j] == before[j]);
            }
            lemma_seq_prefix_ws_first(self@, i as int);
        }
        r
    }
}

impl<T: Formattable> Formattable for Box<T> {
    open spec fn spec_format_output(&self) -> FormatOutput {
        (**self).spec_format_output()
    }

    open spec fn output_fits(&self) -> bool {
        (**self).output_fits()
    }

    open spec fn spec_prefix_ws(&self) -> PrefixWs {
        (**self).spec_prefix_ws()
    }

    fn format_output(&self) -> (r: FormatOutput) {
        (**self).format_output()
    }

    fn prefix_ws_kind(&self) -> (r: PrefixWsKind) {
        (**self).prefix_ws_kind()
    }

    fn prefix_ws_is_pure(&self) -> (r: Option<bool>) {
        (**self).prefix_ws_is_pure()
    }

    fn prefix_ws_join_prefix(&mut self, ws: Whitespace) -> (r: Result<(), Whitespace>) {
        (**self).prefix_ws_join_prefix(ws)
    }
}

impl<T> Formattable for PhantomData<T> {
    open spec fn spec_format_output(&self) -> FormatOutput {
        spec_default()
    }

    open spec fn output_fits(&self) -> bool {
        true
    }

    open spec fn spec_prefix_ws(&self) -> PrefixWs {
        PrefixWs::Empty
    }

    fn format_output(&self) -> (r: FormatOutput) {
        FormatOutput::default()
    }

    fn prefix_ws_kind(&self) -> (r: PrefixWsKind) {
        PrefixWsKind::Empty
    }

    fn prefix_ws_is_pure(&self) -> (r: Option<bool>) {
        None
    }

    fn prefix_ws_join_prefix(&mut self, ws: Whitespace) -> (r: Result<(), Whitespace>) {
        Err(ws)
    }
}

impl Formattable for () {
    open spec fn spec_format_output(&self) -> FormatOutput {
        spec_default()
    }

    open spec fn output_fits(&self) -> bool {
        true
    }

    open spec fn spec_prefix_ws(&self) -> PrefixWs {
        PrefixWs::Empty
    }

    fn format_output(&self) -> (r: FormatOutput) {
        FormatOutput::default()
    }

    fn prefix_ws_kind(&self) -> (r: PrefixWsKind) {
        PrefixWsKind::Empty
    }

    fn prefix_ws_is_pure(&self) -> (r: Option<bool>) {
        None
    }

    fn prefix_ws_join_prefix(&mut self, ws: Whitespace) -> (r: Result<(), Whitespace>) {
        Err(ws)
    }
}

} // verus!
