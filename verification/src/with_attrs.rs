//! Values with attributes.
use vstd::prelude::*;
use crate::attr::{InnerAttrOrDocComment, OuterAttrOrDocComment};
use crate::context::Context;

verus! {

/// A type with outer attributes
pub struct WithOuterAttributes<T> {
    pub attrs: Vec<OuterAttrOrDocComment>,
    pub inner: T,
}

/// A type with inner attributes
pub struct WithInnerAttributes<T> {
    pub attrs: Vec<InnerAttrOrDocComment>,
    pub inner: T,
}

impl<T> WithOuterAttributes<T> {
    /// Creates a new value without any attributes
    pub fn without_attributes(inner: T) -> (r: Self)
        ensures
            r.attrs@.len() == 0,
            r.inner == inner,
    {
        WithOuterAttributes { attrs: Vec::new(), inner }
    }

    /// Maps the inner value, keeping the attributes
    pub fn map<U, F: FnOnce(T) -> U>(self, f: F) -> (r: WithOuterAttributes<U>)
        requires
            call_requires(f, (self.inner,)),
        ensures
            r.attrs == self.attrs,
            call_ensures(f, (self.inner,), r.inner),
    {
        WithOuterAttributes { attrs: self.attrs, inner: f(self.inner) }
    }
}

/// A formatting function for values of type `T`
pub trait FormatFn<T>: Sized {
    /// Whether formatting `before` in `ctx_before` may give `after`, leaving
    /// the context as `ctx_after`.
    spec fn formats(&self, before: T, ctx_before: Context, after: T, ctx_after: Context) -> bool;

    /// Formats `value`
    fn call(&self, value: &mut T, ctx: &mut Context)
        ensures
            self.formats(*old(value), *old(ctx), *final(value), *final(ctx)),
    ;
}

/// Formats the inner value of a `WithOuterAttributes<T>` with `f`, only if
/// it has at least one attribute
pub struct FormatOuterValueNonEmpty<F> {
    pub f: F,
}

/// Formats the inner value of a `WithInnerAttributes<T>` with `f`, only if
/// it has at least one attribute
pub struct FormatInnerValueNonEmpty<F> {
    pub f: F,
}

impl<T, F: FormatFn<T>> FormatFn<WithOuterAttributes<T>> for FormatOuterValueNonEmpty<F> {
    /// The attributes stay; with none, nothing changes, otherwise the inner
    /// value is formatted by `f`.
    open spec fn formats(
        &self,
        before: WithOuterAttributes<T>,
        ctx_before: Context,
        after: WithOuterAttributes<T>,
        ctx_after: Context,
    ) -> bool {
        &&& after.attrs == before.attrs
        &&& if before.attrs@.len() == 0 {
            after == before && ctx_after == ctx_before
        } else {
            self.f.formats(before.inner, ctx_before, after.inner, ctx_after)
        }
    }

    fn call(&self, value: &mut WithOuterAttributes<T>, ctx: &mut Context)
        ensures
            final(value).attrs == old(value).attrs,
            old(value).attrs@.len() == 0 ==> *final(value) == *old(value) && *final(ctx) == *old(ctx),
    {
        if value.attrs.len() != 0 {
            self.f.call(&mut value.inner, ctx);
        }
    }
}

impl<T, F: FormatFn<T>> FormatFn<WithInnerAttributes<T>> for FormatInnerValueNonEmpty<F> {
    /// The attributes stay; with none, nothing changes, otherwise the inner
    /// value is formatted by `f`.
    open spec fn formats(
        &self,
        before: WithInnerAttributes<T>,
        ctx_before: Context,
        after: WithInnerAttributes<T>,
        ctx_after: Context,
    ) -> bool {
        &&& after.attrs == before.attrs
        &&& if before.attrs@.len() == 0 {
            after == before && ctx_after == ctx_before
        } else {
            self.f.formats(before.inner, ctx_before, after.inner, ctx_after)
        }
    }

    fn call(&self, value: &mut WithInnerAttributes<T>, ctx: &mut Context)
        ensures
            final(value).attrs == old(value).attrs,
            old(value).attrs@.len() == 0 ==> *final(value) == *old(value) && *final(ctx) == *old(ctx),
    {
        if value.attrs.len() != 0 {
            self.f.call(&mut value.inner, ctx);
        }
    }
}

/// Formats the value of a `WithOuterAttributes<T>` if at least 1 attribute exists
pub fn format_outer_value_non_empty<F>(f: F) -> (r: FormatOuterValueNonEmpty<F>)
    ensures
        r.f == f,
{
    FormatOuterValueNonEmpty { f }
}

/// Formats the value of a `WithInnerAttributes<T>` if at least 1 attribute exists
pub fn format_inner_value_non_empty<F>(f: F) -> (r: FormatInnerValueNonEmpty<F>)
    ensures
        r.f == f,
{
    FormatInnerValueNonEmpty { f }
}

impl<T> From<T> for WithOuterAttributes<T> {
    /// A value without attributes
    fn from(inner: T) -> (r: Self)
        ensures
            r.attrs@.len() == 0,
            r.inner == inner,
    {
        WithOuterAttributes::without_attributes(inner)
    }
}

impl<T> vstd::std_specs::convert::FromSpecImpl<T> for WithOuterAttributes<T> {
    /// A value's attribute list is a `Vec`, which no spec function builds,
    /// so `from` states its result by its own `ensures` (no attributes, the
    /// given inner value) rather than through `from_spec`.
    open spec fn obeys_from_spec() -> bool {
        false
    }

    open spec fn from_spec(v: T) -> Self {
        choose|w: Self| w.attrs@.len() == 0 && w.inner == v
    }
}

} // verus!
