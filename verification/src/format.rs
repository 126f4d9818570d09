//! Formatting values: the [`Format`] trait, its impls for whitespace,
//! options, boxes, vectors and the empty types, and [`Context::format`].
use vstd::prelude::*;
use std::marker::PhantomData;
use crate::context::{Config, Context, FormatTag, FormatTags, spec_offset_depth, offset_depth};
use crate::format_output::{FormatOutput, spec_default, spec_join_all, total_len, total_newlines};
use crate::formattable::Formattable;
use crate::attr::{apply_config_attrs, config_after_attrs};
use crate::with_attrs::WithOuterAttributes;
use crate::whitespace::{Whitespace, WhitespaceConfig, config_ok, ws_fits, is_formatted};

verus! {

/// Type formatting, with prefix whitespace `P` and arguments `A`
pub trait Format<P, A>: Formattable {
    /// Whether this value can be formatted under configuration `cfg` at
    /// indentation `depth`: what formatting gives fits the counters of a
    /// format output.
    spec fn format_ok(&self, cfg: Config, depth: usize, prefix_ws: P, args: A) -> bool;

    /// Whether formatting `before` in `ctx_before` may give `after`, leaving
    /// the context as `ctx_after` and returning `output`.
    spec fn formats(
        before: Self,
        ctx_before: Context,
        prefix_ws: P,
        args: A,
        after: Self,
        ctx_after: Context,
        output: FormatOutput,
    ) -> bool;

    /// Formats this value.
    fn format(&mut self, ctx: &mut Context, prefix_ws: P, args: A) -> (r: FormatOutput)
        requires
            old(self).format_ok(*old(ctx).spec_config(), old(ctx).depth(), prefix_ws, args),
        ensures
            Self::formats(*old(self), *old(ctx), prefix_ws, args, *final(self), *final(ctx), r),
            *final(ctx).spec_config() == *old(ctx).spec_config(),
            final(ctx).depth() == old(ctx).depth(),
            final(ctx).spec_input() == old(ctx).spec_input(),
    ;
}

/// Whether a value and its context are left as they were, with the empty
/// output.
pub open spec fn untouched<T>(before: T, ctx_before: Context, after: T, ctx_after: Context, output: FormatOutput) -> bool {
    &&& after == before
    &&& ctx_after == ctx_before
    &&& output == spec_default()
}

impl Format<WhitespaceConfig, ()> for Whitespace {
    /// The configuration is sound, the whitespace's pieces fit, and so does
    /// the text it is formatted into.
    open spec fn format_ok(&self, cfg: Config, depth: usize, prefix_ws: WhitespaceConfig, args: ()) -> bool {
        &&& config_ok(cfg)
        &&& ws_fits(*self)
        &&& match prefix_ws.format {
            None => self.output_fits(),
            Some(kind) => forall|after: Whitespace, after_newline: bool|
                #[trigger] is_formatted(*self, after, kind, cfg, depth, after_newline) ==> after.output_fits(),
        }
    }

    /// Without a format the whitespace is kept; with one it is formatted
    /// and the after-newline tag consumed. The output is that of the result.
    open spec fn formats(
        before: Whitespace,
        ctx_before: Context,
        prefix_ws: WhitespaceConfig,
        args: (),
        after: Whitespace,
        ctx_after: Context,
        output: FormatOutput,
    ) -> bool {
        &&& output == after.spec_format_output()
        &&& match prefix_ws.format {
            None => after == before && ctx_after == ctx_before,
            Some(kind) => {
                &&& is_formatted(
                    before,
                    after,
                    kind,
                    *ctx_before.spec_config(),
                    ctx_before.depth(),
                    ctx_before.spec_tags().after_newline,
                )
                &&& ctx_after.spec_tags() == ctx_before.spec_tags().spec_set(FormatTag::AfterNewline, false)
            },
        }
    }

    fn format(&mut self, ctx: &mut Context, prefix_ws: WhitespaceConfig, args: ()) -> (r: FormatOutput) {
        if let Some(kind) = prefix_ws.format {
            crate::whitespace::format(self, ctx, kind);
        }
        self.format_output()
    }
}

impl Format<(), ()> for Whitespace {
    /// Always possible.
    open spec fn format_ok(&self, cfg: Config, depth: usize, prefix_ws: (), args: ()) -> bool {
        true
    }

    /// Whitespace that is to be empty is left alone, with the empty output.
    open spec fn formats(
        before: Whitespace,
        ctx_before: Context,
        prefix_ws: (),
        args: (),
        after: Whitespace,
        ctx_after: Context,
        output: FormatOutput,
    ) -> bool {
        untouched(before, ctx_before, after, ctx_after, output)
    }

    fn format(&mut self, ctx: &mut Context, prefix_ws: (), args: ()) -> (r: FormatOutput) {
        FormatOutput::default()
    }
}

impl<T: Format<P, A>, P, A> Format<P, A> for Option<T> {
    /// A value, if there is one, can be formatted.
    open spec fn format_ok(&self, cfg: Config, depth: usize, prefix_ws: P, args: A) -> bool {
        match self {
            Some(value) => value.format_ok(cfg, depth, prefix_ws, args),
            None => true,
        }
    }

    /// A value is formatted; nothing is left alone.
    open spec fn formats(
        before: Option<T>,
        ctx_before: Context,
        prefix_ws: P,
        args: A,
        after: Option<T>,
        ctx_after: Context,
        output: FormatOutput,
    ) -> bool {
        match (before, after) {
            (Some(b), Some(a)) => T::formats(b, ctx_before, prefix_ws, args, a, ctx_after, output),
            (None, None) => ctx_after == ctx_before && output == spec_default(),
            _ => false,
        }
    }

    fn format(&mut self, ctx: &mut Context, prefix_ws: P, args: A) -> (r: FormatOutput) {
        match self {
            Some(value) => value.format(ctx, prefix_ws, args),
            None => FormatOutput::default(),
        }
    }
}

impl<T: Format<P, A>, P, A> Format<P, A> for Box<T> {
    /// The boxed value can be formatted.
    open spec fn format_ok(&self, cfg: Config, depth: usize, prefix_ws: P, args: A) -> bool {
        (**self).format_ok(cfg, depth, prefix_ws, args)
    }

    /// The boxed value is formatted.
    open spec fn formats(
        before: Box<T>,
        ctx_before: Context,
        prefix_ws: P,
        args: A,
        after: Box<T>,
        ctx_after: Context,
        output: FormatOutput,
    ) -> bool {
        T::formats(*before, ctx_before, prefix_ws, args, *after, ctx_after, output)
    }

    fn format(&mut self, ctx: &mut Context, prefix_ws: P, args: A) -> (r: FormatOutput) {
        (**self).format(ctx, prefix_ws, args)
    }
}

impl<T> Format<(), ()> for PhantomData<T> {
    /// Always possible.
    open spec fn format_ok(&self, cfg: Config, depth: usize, prefix_ws: (), args: ()) -> bool {
        true
    }

    /// Nothing to format.
    open spec fn formats(
        before: PhantomData<T>,
        ctx_before: Context,
        prefix_ws: (),
        args: (),
        after: PhantomData<T>,
        ctx_after: Context,
        output: FormatOutput,
    ) -> bool {
        untouched(before, ctx_before, after, ctx_after, output)
    }

    fn format(&mut self, ctx: &mut Context, prefix_ws: (), args: ()) -> (r: FormatOutput) {
        FormatOutput::default()
    }
}

impl Format<(), ()> for () {
    /// Always possible.
    open spec fn format_ok(&self, cfg: Config, depth: usize, prefix_ws: (), args: ()) -> bool {
        true
    }

    /// Nothing to format.
    open spec fn formats(
        before: (),
        ctx_before: Context,
        prefix_ws: (),
        args: (),
        after: (),
        ctx_after: Context,
        output: FormatOutput,
    ) -> bool {
        untouched(before, ctx_before, after, ctx_after, output)
    }

    fn format(&mut self, ctx: &mut Context, prefix_ws: (), args: ()) -> (r: FormatOutput) {
        FormatOutput::default()
    }
}

/// Arguments for formatting a [`Vec<T>`]
#[derive(Clone, Copy, Debug)]
pub struct Args<A> {
    /// Whitespace formatter for the rest of the vector
    pub rest_prefix_ws: WhitespaceConfig,
    /// Arguments for the values
    pub args: A,
}

/// Creates vector arguments
pub fn args<A>(rest_prefix_ws: WhitespaceConfig, value_args: A) -> (r: Args<A>)
    ensures
        r == (Args { rest_prefix_ws, args: value_args }),
{
    Args { rest_prefix_ws, args: value_args }
}

/// Creates vector arguments from just the prefix whitespace
pub fn args_prefix_ws(rest_prefix_ws: WhitespaceConfig) -> (r: Args<()>)
    ensures
        r == (Args { rest_prefix_ws, args: () }),
{
    Args { rest_prefix_ws, args: () }
}

/// Whether any of the outputs has prefix whitespace.
pub open spec fn any_prefix_ws(outputs: Seq<FormatOutput>) -> bool {
    exists|j: int| 0 <= j < outputs.len() && (#[trigger] outputs[j]).prefix_ws_len is Some
}

/// The prefix whitespace a value of a vector is formatted with, after the
/// values that gave `outputs`: the vector's own until one of them had prefix
/// whitespace, the rest's after.
pub open spec fn value_prefix_ws<A>(outputs: Seq<FormatOutput>, prefix_ws: WhitespaceConfig, args: Args<A>) -> WhitespaceConfig {
    if any_prefix_ws(outputs) { args.rest_prefix_ws } else { prefix_ws }
}

/// Whether formatting the values `before` in turn, starting in context
/// `ctxs[0]`, may give the values `after`: value `i` is formatted in
/// context `ctxs[i]`, leaving `ctxs[i + 1]` and returning `outputs[i]`.
pub open spec fn formats_values<T: Format<WhitespaceConfig, A>, A>(
    before: Seq<T>,
    ctxs: Seq<Context>,
    prefix_ws: WhitespaceConfig,
    args: Args<A>,
    after: Seq<T>,
    outputs: Seq<FormatOutput>,
) -> bool {
    &&& after.len() == before.len()
    &&& outputs.len() == before.len()
    &&& ctxs.len() == before.len() + 1
    &&& forall|i: int| 0 <= i < before.len() ==> T::formats(
        #[trigger] before[i],
        ctxs[i],
        value_prefix_ws(outputs.take(i), prefix_ws, args),
        args.args,
        after[i],
        ctxs[i + 1],
        outputs[i],
    )
}

impl<T: Format<WhitespaceConfig, A>, A: Copy> Format<WhitespaceConfig, Args<A>> for Vec<T> {
    /// Each value can be formatted with either prefix whitespace, and the
    /// outputs of the values formatted so far, at every point, fit the
    /// counters of a format output.
    open spec fn format_ok(&self, cfg: Config, depth: usize, prefix_ws: WhitespaceConfig, args: Args<A>) -> bool {
        &&& forall|i: int| 0 <= i < self@.len() ==> {
            &&& (#[trigger] self@[i]).format_ok(cfg, depth, prefix_ws, args.args)
            &&& self@[i].format_ok(cfg, depth, args.rest_prefix_ws, args.args)
        }
        &&& forall|k: int, ctxs: Seq<Context>, after: Seq<T>, outputs: Seq<FormatOutput>|
            0 <= k <= self@.len() && #[trigger] formats_values(self@.take(k), ctxs, prefix_ws, args, after, outputs)
                && ctxs[0].spec_config() == cfg && ctxs[0].depth() == depth
                ==> total_len(outputs) <= usize::MAX && total_newlines(outputs) <= usize::MAX
    }

    /// The values are formatted in order: with the vector's prefix
    /// whitespace until one of them has prefix whitespace, with the rest's
    /// after. The output joins theirs.
    open spec fn formats(
        before: Vec<T>,
        ctx_before: Context,
        prefix_ws: WhitespaceConfig,
        args: Args<A>,
        after: Vec<T>,
        ctx_after: Context,
        output: FormatOutput,
    ) -> bool {
        exists|ctxs: Seq<Context>, outputs: Seq<FormatOutput>| {
            &&& #[trigger] formats_values(before@, ctxs, prefix_ws, args, after@, outputs)
            &&& ctxs[0] == ctx_before
            &&& ctxs.last() == ctx_after
            &&& output == spec_join_all(outputs)
        }
    }

    fn format(&mut self, ctx: &mut Context, prefix_ws: WhitespaceConfig, args: Args<A>) -> (r: FormatOutput) {
        let ghost before = self@;
        let ghost ctx0 = *ctx;
        let ghost mut ctxs: Seq<Context> = seq![*ctx];
        let ghost mut outputs: Seq<FormatOutput> = Seq::empty();
        let mut output = FormatOutput::default();
        let mut has_prefix_ws = true;
        let mut i: usize = 0;
        proof {
            assert(before.take(0) =~= Seq::<T>::empty());
            assert(self@.take(0) =~= Seq::<T>::empty());
        }
        while i < self.len()
            invariant
                i <= self@.len(),
                self@.len() == before.len(),
                forall|j: int| i <= j < before.len() ==> self@[j] == before[j],
                old(self).format_ok(*ctx0.spec_config(), ctx0.depth(), prefix_ws, args),
                before == old(self)@,
                formats_values(before.take(i as int), ctxs, prefix_ws, args, self@.take(i as int), outputs),
                ctxs[0] == ctx0,
                ctxs.last() == *ctx,
                *ctx.spec_config() == *ctx0.spec_config(),
                ctx.depth() == ctx0.depth(),
                ctx.spec_input() == ctx0.spec_input(),
                output == spec_join_all(outputs),
                output.len == total_len(outputs),
                output.newlines == total_newlines(outputs),
                has_prefix_ws == !any_prefix_ws(outputs),
            decreases self@.len() - i,
        {
            let ghost prev = self@;
            let ghost ctx_i = *ctx;
            let ghost ws = value_prefix_ws(outputs, prefix_ws, args);
            proof {
                assert(prev[i as int] == before[i as int]);
                assert(before[i as int] == old(self)@[i as int]);
                assert(old(self)@[i as int].format_ok(*ctx0.spec_config(), ctx0.depth(), prefix_ws, args.args));
            }
            let value_output = if has_prefix_ws {
                self[i].format(ctx, prefix_ws, args.args)
            } else {
                self[i].format(ctx, args.rest_prefix_ws, args.args)
            };
            let ghost next_ctxs = ctxs.push(*ctx);
            let ghost next_outputs = outputs.push(value_output);
            proof {
                assert(T::formats(prev[i as int], ctx_i, ws, args.args, self@[i as int], *ctx, value_output));
                assert(next_outputs.take(i as int) =~= outputs);
                assert(next_outputs.drop_last() =~= outputs);
                assert forall|j: int| 0 <= j < i implies next_outputs.take(j) =~= outputs.take(j) by {}
                assert(before.take(i + 1).drop_last() =~= before.take(i as int));
                assert forall|j: int| 0 <= j < i + 1 implies T::formats(
                    #[trigger] before.take(i + 1)[j],
                    next_ctxs[j],
                    value_prefix_ws(next_outputs.take(j), prefix_ws, args),
                    args.args,
                    self@.take(i + 1)[j],
                    next_ctxs[j + 1],
                    next_outputs[j],
                ) by {
                    if j < i {
                        assert(before.take(i + 1)[j] == before.take(i as int)[j]);
                        assert(self@.take(i + 1)[j] == prev.take(i as int)[j]);
                        assert(next_outputs.take(j) =~= outputs.take(j));
                        assert(T::formats(
                            before.take(i as int)[j],
                            ctxs[j],
                            value_prefix_ws(outputs.take(j), prefix_ws, args),
                            args.args,
                            prev.take(i as int)[j],
                            ctxs[j + 1],
                            outputs[j],
                        ));
                    } else {
                        assert(before.take(i + 1)[j] == prev[i as int]);
                        assert(next_outputs.take(j) =~= outputs);
                    }
                }
                assert(formats_values(before.take(i + 1), next_ctxs, prefix_ws, args, self@.take(i + 1), next_outputs));
                assert(old(self)@.take(i + 1) == before.take(i + 1));
                assert(next_ctxs[0] == ctx0);
                assert(total_len(next_outputs) == total_len(outputs) + value_output.len);
                assert(total_newlines(next_outputs) == total_newlines(outputs) + value_output.newlines);
            }
            output.append(value_output);
            if has_prefix_ws && value_output.has_prefix_ws() {
                has_prefix_ws = false;
            }
            proof {
                if any_prefix_ws(next_outputs) && !any_prefix_ws(outputs) {
                    let j = choose|j: int| 0 <= j < next_outputs.len() && (#[trigger] next_outputs[j]).prefix_ws_len is Some;
                    assert(j == i);
                }
                if any_prefix_ws(outputs) {
                    let j = choose|j: int| 0 <= j < outputs.len() && (#[trigger] outputs[j]).prefix_ws_len is Some;
                    assert(next_outputs[j] == outputs[j]);
                }
                if value_output.prefix_ws_len is Some {
                    assert(next_outputs[i as int] == value_output);
                }
                ctxs = next_ctxs;
                outputs = next_outputs;
            }
            i = i + 1;
        }
        proof {
            assert(before.take(i as int) =~= before);
            assert(self@.take(i as int) =~= self@);
            assert(formats_values(old(self)@, ctxs, prefix_ws, args, self@, outputs));
        }
        output
    }
}

impl Context {
    /// Formats a value, unless formatting is skipped: then the value is left
    /// as it is and its format output returned.
    pub fn format<T: Format<P, ()>, P>(&mut self, value: &mut T, prefix_ws: P) -> (r: FormatOutput)
        requires
            old(self).spec_config().skip ==> old(value).output_fits(),
            !old(self).spec_config().skip ==> old(value).format_ok(*old(self).spec_config(), old(self).depth(), prefix_ws, ()),
        ensures
            old(self).spec_config().skip ==> {
                &&& *final(value) == *old(value)
                &&& *final(self) == *old(self)
                &&& r == old(value).spec_format_output()
            },
            !old(self).spec_config().skip ==> T::formats(*old(value), *old(self), prefix_ws, (), *final(value), *final(self), r),
    {
        self.format_with(value, prefix_ws, ())
    }

    /// Formats a value with arguments, unless formatting is skipped: then
    /// the value is left as it is and its format output returned.
    pub fn format_with<T: Format<P, A>, P, A>(&mut self, value: &mut T, prefix_ws: P, args: A) -> (r: FormatOutput)
        requires
            old(self).spec_config().skip ==> old(value).output_fits(),
            !old(self).spec_config().skip ==> old(value).format_ok(*old(self).spec_config(), old(self).depth(), prefix_ws, args),
        ensures
            old(self).spec_config().skip ==> {
                &&& *final(value) == *old(value)
                &&& *final(self) == *old(self)
                &&& r == old(value).spec_format_output()
            },
            !old(self).spec_config().skip ==> T::formats(*old(value), *old(self), prefix_ws, args, *final(value), *final(self), r),
    {
        if self.config().skip {
            value.format_output()
        } else {
            value.format(self, prefix_ws, args)
        }
    }
}

/// Whether `before` was formatted into `after`, returning `output`, in a
/// context like `ctx` but with indentation depth `depth` and tags `tags`,
/// which the formatting left as `end_tags`.
pub open spec fn formats_within<T: Format<P, A>, P, A>(
    before: T,
    ctx: Context,
    depth: usize,
    tags: FormatTags,
    prefix_ws: P,
    args: A,
    after: T,
    end_tags: FormatTags,
    output: FormatOutput,
) -> bool {
    exists|mid: Context, end: Context| {
        &&& mid.spec_input() == ctx.spec_input()
        &&& *mid.spec_config() == *ctx.spec_config()
        &&& mid.depth() == depth
        &&& mid.spec_tags() == tags
        &&& #[trigger] T::formats(before, mid, prefix_ws, args, after, end, output)
        &&& end.spec_tags() == end_tags
    }
}

impl Context {
    /// Formats `value` with the indentation depth `offset` levels away,
    /// saturating, then restores the depth.
    pub fn with_indent_offset<T: Format<P, A>, P, A>(&mut self, offset: i16, value: &mut T, prefix_ws: P, args: A) -> (r: FormatOutput)
        requires
            old(value).format_ok(*old(self).spec_config(), spec_offset_depth(old(self).depth(), offset), prefix_ws, args),
        ensures
            formats_within(
                *old(value),
                *old(self),
                spec_offset_depth(old(self).depth(), offset),
                old(self).spec_tags(),
                prefix_ws,
                args,
                *final(value),
                final(self).spec_tags(),
                r,
            ),
            final(self).depth() == old(self).depth(),
            *final(self).spec_config() == *old(self).spec_config(),
            final(self).spec_input() == old(self).spec_input(),
    {
        let prev = self.indent();
        self.set_indent_depth(offset_depth(prev, offset));
        let ghost mid = *self;
        let output = value.format(self, prefix_ws, args);
        let ghost end = *self;
        self.set_indent_depth(prev);
        proof {
            assert(T::formats(*old(value), mid, prefix_ws, args, *value, end, output));
        }
        output
    }

    /// Formats `value` with the indentation depth `offset` levels away if
    /// `pred` holds, at the current depth otherwise.
    pub fn with_indent_offset_if<T: Format<P, A>, P, A>(&mut self, offset: i16, pred: bool, value: &mut T, prefix_ws: P, args: A) -> (r: FormatOutput)
        requires
            old(value).format_ok(
                *old(self).spec_config(),
                if pred { spec_offset_depth(old(self).depth(), offset) } else { old(self).depth() },
                prefix_ws,
                args,
            ),
        ensures
            formats_within(
                *old(value),
                *old(self),
                if pred { spec_offset_depth(old(self).depth(), offset) } else { old(self).depth() },
                old(self).spec_tags(),
                prefix_ws,
                args,
                *final(value),
                final(self).spec_tags(),
                r,
            ),
            final(self).depth() == old(self).depth(),
            *final(self).spec_config() == *old(self).spec_config(),
            final(self).spec_input() == old(self).spec_input(),
    {
        if pred {
            self.with_indent_offset(offset, value, prefix_ws, args)
        } else {
            let ghost mid = *self;
            let output = value.format(self, prefix_ws, args);
            proof {
                assert(T::formats(*old(value), mid, prefix_ws, args, *value, *self, output));
            }
            output
        }
    }

    /// Formats `value` one indentation level further in.
    pub fn with_indent<T: Format<P, A>, P, A>(&mut self, value: &mut T, prefix_ws: P, args: A) -> (r: FormatOutput)
        requires
            old(value).format_ok(*old(self).spec_config(), spec_offset_depth(old(self).depth(), 1i16), prefix_ws, args),
        ensures
            formats_within(
                *old(value),
                *old(self),
                spec_offset_depth(old(self).depth(), 1i16),
                old(self).spec_tags(),
                prefix_ws,
                args,
                *final(value),
                final(self).spec_tags(),
                r,
            ),
            final(self).depth() == old(self).depth(),
            *final(self).spec_config() == *old(self).spec_config(),
            final(self).spec_input() == old(self).spec_input(),
    {
        self.with_indent_offset(1, value, prefix_ws, args)
    }

    /// Formats `value` one indentation level further in if `pred` holds.
    pub fn with_indent_if<T: Format<P, A>, P, A>(&mut self, pred: bool, value: &mut T, prefix_ws: P, args: A) -> (r: FormatOutput)
        requires
            old(value).format_ok(
                *old(self).spec_config(),
                if pred { spec_offset_depth(old(self).depth(), 1i16) } else { old(self).depth() },
                prefix_ws,
                args,
            ),
        ensures
            formats_within(
                *old(value),
                *old(self),
                if pred { spec_offset_depth(old(self).depth(), 1i16) } else { old(self).depth() },
                old(self).spec_tags(),
                prefix_ws,
                args,
                *final(value),
                final(self).spec_tags(),
                r,
            ),
            final(self).depth() == old(self).depth(),
            *final(self).spec_config() == *old(self).spec_config(),
            final(self).spec_input() == old(self).spec_input(),
    {
        self.with_indent_offset_if(1, pred, value, prefix_ws, args)
    }

    /// Formats `value` one indentation level further out, saturating at
    /// zero.
    pub fn without_indent<T: Format<P, A>, P, A>(&mut self, value: &mut T, prefix_ws: P, args: A) -> (r: FormatOutput)
        requires
            old(value).format_ok(*old(self).spec_config(), spec_offset_depth(old(self).depth(), -1i16), prefix_ws, args),
        ensures
            formats_within(
                *old(value),
                *old(self),
                spec_offset_depth(old(self).depth(), -1i16),
                old(self).spec_tags(),
                prefix_ws,
                args,
                *final(value),
                final(self).spec_tags(),
                r,
            ),
            final(self).depth() == old(self).depth(),
            *final(self).spec_config() == *old(self).spec_config(),
            final(self).spec_input() == old(self).spec_input(),
    {
        self.with_indent_offset(-1, value, prefix_ws, args)
    }

    /// Formats `value` one indentation level further out if `pred` holds.
    pub fn without_indent_if<T: Format<P, A>, P, A>(&mut self, pred: bool, value: &mut T, prefix_ws: P, args: A) -> (r: FormatOutput)
        requires
            old(value).format_ok(
                *old(self).spec_config(),
                if pred { spec_offset_depth(old(self).depth(), -1i16) } else { old(self).depth() },
                prefix_ws,
                args,
            ),
        ensures
            formats_within(
                *old(value),
                *old(self),
                if pred { spec_offset_depth(old(self).depth(), -1i16) } else { old(self).depth() },
                old(self).spec_tags(),
                prefix_ws,
                args,
                *final(value),
                final(self).spec_tags(),
                r,
            ),
            final(self).depth() == old(self).depth(),
            *final(self).spec_config() == *old(self).spec_config(),
            final(self).spec_input() == old(self).spec_input(),
    {
        self.with_indent_offset_if(-1, pred, value, prefix_ws, args)
    }
}

impl Context {
    /// Formats `value` with `tag` present, then sets the tag back to
    /// whether it was present before.
    pub fn with_tag<T: Format<P, A>, P, A>(&mut self, tag: FormatTag, value: &mut T, prefix_ws: P, args: A) -> (r: FormatOutput)
        requires
            old(value).format_ok(*old(self).spec_config(), old(self).depth(), prefix_ws, args),
        ensures
            exists|end_tags: FormatTags| {
                &&& #[trigger] formats_within(
                    *old(value),
                    *old(self),
                    old(self).depth(),
                    old(self).spec_tags().spec_set(tag, true),
                    prefix_ws,
                    args,
                    *final(value),
                    end_tags,
                    r,
                )
                &&& final(self).spec_tags() == end_tags.spec_set(tag, old(self).spec_tags().spec_has(tag))
            },
            final(self).depth() == old(self).depth(),
            *final(self).spec_config() == *old(self).spec_config(),
            final(self).spec_input() == old(self).spec_input(),
    {
        let was_present = self.add_tag(tag);
        let ghost mid = *self;
        let output = value.format(self, prefix_ws, args);
        let ghost end = *self;
        self.set_tag(tag, was_present);
        proof {
            assert(T::formats(*old(value), mid, prefix_ws, args, *value, end, output));
            assert(formats_within(
                *old(value),
                *old(self),
                old(self).depth(),
                old(self).spec_tags().spec_set(tag, true),
                prefix_ws,
                args,
                *value,
                end.spec_tags(),
                output,
            ));
        }
        output
    }

    /// Formats `value` with `tag` present if `pred` holds, as it is
    /// otherwise.
    pub fn with_tag_if<T: Format<P, A>, P, A>(&mut self, pred: bool, tag: FormatTag, value: &mut T, prefix_ws: P, args: A) -> (r: FormatOutput)
        requires
            old(value).format_ok(*old(self).spec_config(), old(self).depth(), prefix_ws, args),
        ensures
            pred ==> exists|end_tags: FormatTags| {
                &&& #[trigger] formats_within(
                    *old(value),
                    *old(self),
                    old(self).depth(),
                    old(self).spec_tags().spec_set(tag, true),
                    prefix_ws,
                    args,
                    *final(value),
                    end_tags,
                    r,
                )
                &&& final(self).spec_tags() == end_tags.spec_set(tag, old(self).spec_tags().spec_has(tag))
            },
            !pred ==> T::formats(*old(value), *old(self), prefix_ws, args, *final(value), *final(self), r),
            final(self).depth() == old(self).depth(),
            *final(self).spec_config() == *old(self).spec_config(),
            final(self).spec_input() == old(self).spec_input(),
    {
        if pred {
            self.with_tag(tag, value, prefix_ws, args)
        } else {
            value.format(self, prefix_ws, args)
        }
    }

    /// Formats `value` with `tag` absent, then sets the tag back to whether
    /// it was present before.
    pub fn without_tag<T: Format<P, A>, P, A>(&mut self, tag: FormatTag, value: &mut T, prefix_ws: P, args: A) -> (r: FormatOutput)
        requires
            old(value).format_ok(*old(self).spec_config(), old(self).depth(), prefix_ws, args),
        ensures
            exists|end_tags: FormatTags| {
                &&& #[trigger] formats_within(
                    *old(value),
                    *old(self),
                    old(self).depth(),
                    old(self).spec_tags().spec_set(tag, false),
                    prefix_ws,
                    args,
                    *final(value),
                    end_tags,
                    r,
                )
                &&& final(self).spec_tags() == end_tags.spec_set(tag, old(self).spec_tags().spec_has(tag))
            },
            final(self).depth() == old(self).depth(),
            *final(self).spec_config() == *old(self).spec_config(),
            final(self).spec_input() == old(self).spec_input(),
    {
        let was_present = self.remove_tag(tag);
        let ghost mid = *self;
        let output = value.format(self, prefix_ws, args);
        let ghost end = *self;
        self.set_tag(tag, was_present);
        proof {
            assert(T::formats(*old(value), mid, prefix_ws, args, *value, end, output));
            assert(formats_within(
                *old(value),
                *old(self),
                old(self).depth(),
                old(self).spec_tags().spec_set(tag, false),
                prefix_ws,
                args,
                *value,
                end.spec_tags(),
                output,
            ));
        }
        output
    }

    /// Formats `value` with `tag` absent if `pred` holds, as it is
    /// otherwise.
    pub fn without_tag_if<T: Format<P, A>, P, A>(&mut self, pred: bool, tag: FormatTag, value: &mut T, prefix_ws: P, args: A) -> (r: FormatOutput)
        requires
            old(value).format_ok(*old(self).spec_config(), old(self).depth(), prefix_ws, args),
        ensures
            pred ==> exists|end_tags: FormatTags| {
                &&& #[trigger] formats_within(
                    *old(value),
                    *old(self),
                    old(self).depth(),
                    old(self).spec_tags().spec_set(tag, false),
                    prefix_ws,
                    args,
                    *final(value),
                    end_tags,
                    r,
                )
                &&& final(self).spec_tags() == end_tags.spec_set(tag, old(self).spec_tags().spec_has(tag))
            },
            !pred ==> T::formats(*old(value), *old(self), prefix_ws, args, *final(value), *final(self), r),
            final(self).depth() == old(self).depth(),
            *final(self).spec_config() == *old(self).spec_config(),
            final(self).spec_input() == old(self).spec_input(),
    {
        if pred {
            self.without_tag(tag, value, prefix_ws, args)
        } else {
            value.format(self, prefix_ws, args)
        }
    }
}


/// Returns a copy of a configuration
fn config_copy(cfg: &Config) -> (r: Config)
    ensures
        r == *cfg,
{
    Config {
        indent: cfg.indent.clone(),
        min_empty_lines: cfg.min_empty_lines,
        max_empty_lines: cfg.max_empty_lines,
        max_use_tree_len: cfg.max_use_tree_len,
        max_inline_tuple_struct_len: cfg.max_inline_tuple_struct_len,
        max_array_expr_len: cfg.max_array_expr_len,
        array_expr_cols: cfg.array_expr_cols,
        skip: cfg.skip,
    }
}

impl<T> WithOuterAttributes<T> {
    /// Formats the value under the configuration its `rustidy::config(...)`
    /// attributes set, which holds for this value only: afterwards the
    /// configuration is as it was, while tags changed by formatting stay
    /// changed. The attributes themselves are kept as they are.
    pub fn format<P, A>(&mut self, ctx: &mut Context, prefix_ws: P, args: A) -> (r: FormatOutput)
        where
            T: Format<P, A>,
        requires
            old(self).inner.format_ok(
                config_after_attrs(old(self).attrs@, *old(ctx).spec_config()),
                old(ctx).depth(),
                prefix_ws,
                args,
            ),
        ensures
            final(self).attrs == old(self).attrs,
            exists|mid: Context, end: Context| {
                &&& mid.spec_input() == old(ctx).spec_input()
                &&& *mid.spec_config() == config_after_attrs(old(self).attrs@, *old(ctx).spec_config())
                &&& mid.depth() == old(ctx).depth()
                &&& mid.spec_tags() == old(ctx).spec_tags()
                &&& #[trigger] T::formats(old(self).inner, mid, prefix_ws, args, final(self).inner, end, r)
                &&& final(ctx).spec_tags() == end.spec_tags()
            },
            *final(ctx).spec_config() == *old(ctx).spec_config(),
            final(ctx).depth() == old(ctx).depth(),
            final(ctx).spec_input() == old(ctx).spec_input(),
    {
        let saved = config_copy(ctx.config());
        let _ = apply_config_attrs(self.attrs.as_slice(), ctx);
        let ghost mid = *ctx;
        let output = self.inner.format(ctx, prefix_ws, args);
        let ghost end = *ctx;
        ctx.set_config(saved);
        proof {
            assert(T::formats(old(self).inner, mid, prefix_ws, args, self.inner, end, output));
        }
        output
    }
}

} // verus!
