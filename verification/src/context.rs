//! Formatting context: configuration, indentation depth and tags.
use vstd::prelude::*;

verus! {

/// Formatter configuration
pub struct Config {
    /// The indentation string
    pub indent: String,
    /// Minimum number of empty lines kept between items
    pub min_empty_lines: usize,
    /// Maximum number of empty lines kept between items
    pub max_empty_lines: usize,
    /// Maximum length of a use tree group kept on one line
    pub max_use_tree_len: usize,
    /// Maximum length of tuple struct fields kept on one line
    pub max_inline_tuple_struct_len: usize,
    /// Maximum length of an array expression kept on one line
    pub max_array_expr_len: usize,
    /// Number of columns of an array expression split over lines
    pub array_expr_cols: usize,
    /// Whether formatting is skipped
    pub skip: bool,
}

/// Formatter tag
#[derive(Clone, Copy, Debug, PartialEq, Eq, Structural)]
pub enum FormatTag {
    /// Inside a method chain
    InsideChain,
    /// Right after a newline
    AfterNewline,
}

/// Data of the inside-chain tag
#[derive(Clone, Copy, Debug)]
pub struct InsideChainData {
    pub indent: bool,
}

/// The set of formatter tags present
#[derive(Clone, Copy, Debug)]
pub struct FormatTags {
    pub inside_chain: bool,
    pub after_newline: bool,
}

impl FormatTags {
    /// Creates new, empty, tags
    pub fn new() -> (r: Self)
        ensures
            !r.inside_chain,
            !r.after_newline,
    {
        FormatTags { inside_chain: false, after_newline: false }
    }

    /// Whether a tag is present.
    pub open spec fn spec_has(self, tag: FormatTag) -> bool {
        match tag {
            FormatTag::InsideChain => self.inside_chain,
            FormatTag::AfterNewline => self.after_newline,
        }
    }

    /// These tags, with `tag` set to `present`.
    pub open spec fn spec_set(self, tag: FormatTag, present: bool) -> FormatTags {
        match tag {
            FormatTag::InsideChain => FormatTags { inside_chain: present, ..self },
            FormatTag::AfterNewline => FormatTags { after_newline: present, ..self },
        }
    }

    /// Sets whether a tag is present, returning if it was
    pub fn set(&mut self, tag: FormatTag, present: bool) -> (r: bool)
        ensures
            r == old(self).spec_has(tag),
            *final(self) == old(self).spec_set(tag, present),
    {
        match tag {
            FormatTag::InsideChain => {
                let was = self.inside_chain;
                self.inside_chain = present;
                was
            },
            FormatTag::AfterNewline => {
                let was = self.after_newline;
                self.after_newline = present;
                was
            },
        }
    }

    /// Returns if a tag is present
    pub fn contains(&self, tag: FormatTag) -> (r: bool)
        ensures
            r == self.spec_has(tag),
    {
        match tag {
            FormatTag::InsideChain => self.inside_chain,
            FormatTag::AfterNewline => self.after_newline,
        }
    }
}

/// Format context
pub struct Context {
    input: String,
    config: Config,
    indent_depth: usize,
    tags: FormatTags,
}

/// The depth `offset` levels away from `depth`, saturating at the bounds.
pub open spec fn spec_offset_depth(depth: usize, offset: i16) -> usize {
    if depth + offset < 0 {
        0
    } else if depth + offset > usize::MAX {
        usize::MAX
    } else {
        (depth + offset) as usize
    }
}

/// The depth `offset` levels away from `depth`, saturating at the bounds.
pub fn offset_depth(depth: usize, offset: i16) -> (r: usize)
    ensures
        r == spec_offset_depth(depth, offset),
{
    if offset < 0 {
        let down = (0i32 - offset as i32) as usize;
        if depth < down {
            0
        } else {
            depth - down
        }
    } else {
        let up = offset as usize;
        if depth > usize::MAX - up {
            usize::MAX
        } else {
            depth + up
        }
    }
}

impl Context {
    /// The input.
    pub closed spec fn spec_input(&self) -> Seq<char> {
        self.input@
    }

    /// The configuration.
    pub closed spec fn spec_config(&self) -> &Config {
        &self.config
    }

    /// The indentation depth.
    pub closed spec fn depth(&self) -> usize {
        self.indent_depth
    }

    /// The tags present.
    pub closed spec fn spec_tags(&self) -> FormatTags {
        self.tags
    }

    /// Creates a new context
    pub fn new(input: &str, config: Config) -> (r: Self)
        ensures
            r.spec_input() == input@,
            *r.spec_config() == config,
            r.depth() == 0,
            r.spec_tags() == FormatTags::new_spec(),
    {
        Context { input: input.to_owned(), config, indent_depth: 0, tags: FormatTags::new() }
    }

    /// Returns the input
    pub fn input(&self) -> (r: &String)
        ensures
            r@ == self.spec_input(),
    {
        &self.input
    }

    /// Returns the config
    pub fn config(&self) -> (r: &Config)
        ensures
            *r == *self.spec_config(),
    {
        &self.config
    }

    /// Returns the config mutably
    pub fn config_mut(&mut self) -> (r: &mut Config)
        ensures
            *r == *old(self).spec_config(),
            *final(self).spec_config() == *final(r),
            final(self).spec_input() == old(self).spec_input(),
            final(self).depth() == old(self).depth(),
            final(self).spec_tags() == old(self).spec_tags(),
    {
        &mut self.config
    }

    /// Replaces the config
    pub fn set_config(&mut self, config: Config)
        ensures
            *final(self).spec_config() == config,
            final(self).spec_input() == old(self).spec_input(),
            final(self).depth() == old(self).depth(),
            final(self).spec_tags() == old(self).spec_tags(),
    {
        self.config = config;
    }

    /// Sets the indentation string of the config
    pub fn set_indent_str(&mut self, indent: String)
        ensures
            final(self).spec_config().indent == indent,
            final(self).spec_config().min_empty_lines == old(self).spec_config().min_empty_lines,
            final(self).spec_config().max_empty_lines == old(self).spec_config().max_empty_lines,
            final(self).spec_config().max_use_tree_len == old(self).spec_config().max_use_tree_len,
            final(self).spec_config().max_inline_tuple_struct_len == old(self).spec_config().max_inline_tuple_struct_len,
            final(self).spec_config().skip == old(self).spec_config().skip,
            final(self).spec_input() == old(self).spec_input(),
            final(self).depth() == old(self).depth(),
            final(self).spec_tags() == old(self).spec_tags(),
    {
        self.config.indent = indent;
    }

    /// Returns the indentation level
    pub fn indent(&self) -> (r: usize)
        ensures
            r == self.depth(),
    {
        self.indent_depth
    }

    /// Sets the indentation level
    pub fn set_indent_depth(&mut self, indent_depth: usize)
        ensures
            final(self).depth() == indent_depth,
            final(self).spec_input() == old(self).spec_input(),
            *final(self).spec_config() == *old(self).spec_config(),
            final(self).spec_tags() == old(self).spec_tags(),
    {
        self.indent_depth = indent_depth;
    }

    /// Adds a tag, returning if it was present
    pub fn add_tag(&mut self, tag: FormatTag) -> (r: bool)
        ensures
            r == old(self).spec_tags().spec_has(tag),
            final(self).spec_tags() == old(self).spec_tags().spec_set(tag, true),
            final(self).spec_input() == old(self).spec_input(),
            *final(self).spec_config() == *old(self).spec_config(),
            final(self).depth() == old(self).depth(),
    {
        self.tags.set(tag, true)
    }

    /// Removes a tag, returning if it was present
    pub fn remove_tag(&mut self, tag: FormatTag) -> (r: bool)
        ensures
            r == old(self).spec_tags().spec_has(tag),
            final(self).spec_tags() == old(self).spec_tags().spec_set(tag, false),
            final(self).spec_input() == old(self).spec_input(),
            *final(self).spec_config() == *old(self).spec_config(),
            final(self).depth() == old(self).depth(),
    {
        self.tags.set(tag, false)
    }

    /// Sets whether a tag is present, returning if it was
    pub fn set_tag(&mut self, tag: FormatTag, present: bool) -> (r: bool)
        ensures
            r == old(self).spec_tags().spec_has(tag),
            final(self).spec_tags() == old(self).spec_tags().spec_set(tag, present),
            final(self).spec_input() == old(self).spec_input(),
            *final(self).spec_config() == *old(self).spec_config(),
            final(self).depth() == old(self).depth(),
    {
        self.tags.set(tag, present)
    }

    /// Removes a tag, returning if it was present
    pub fn take_tag(&mut self, tag: FormatTag) -> (r: bool)
        ensures
            r == old(self).spec_tags().spec_has(tag),
            final(self).spec_tags() == old(self).spec_tags().spec_set(tag, false),
            final(self).spec_input() == old(self).spec_input(),
            *final(self).spec_config() == *old(self).spec_config(),
            final(self).depth() == old(self).depth(),
    {
        self.tags.set(tag, false)
    }

    /// Returns if a tag exists
    pub fn has_tag(&self, tag: FormatTag) -> (r: bool)
        ensures
            r == self.spec_tags().spec_has(tag),
    {
        self.tags.contains(tag)
    }
}

impl FormatTags {
    /// No tags.
    pub open spec fn new_spec() -> FormatTags {
        FormatTags { inside_chain: false, after_newline: false }
    }
}

} // verus!
