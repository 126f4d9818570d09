//! Use declarations: their trees, and how trees are merged and sorted.
use vstd::prelude::*;
use crate::path::{SimplePath, SimplePathSegment, segment_texts};

verus! {

/// The result of comparing two values
#[derive(Clone, Copy, Debug, PartialEq, Eq, Structural)]
pub enum Order {
    Less,
    Equal,
    Greater,
}

/// `UseTree`
pub enum UseTree {
    Glob(UseTreeGlob),
    Group(UseTreeGroup),
    Simple(UseTreeSimple),
}

/// `path::*`, `::*` or `*`
pub struct UseTreeGlob {
    pub prefix: Option<UseTreeGlobPrefix>,
}

/// The `path::` of a glob
pub struct UseTreeGlobPrefix {
    pub path: Option<SimplePath>,
}

/// `path::{...}`, `::{...}` or `{...}`
pub struct UseTreeGroup {
    pub prefix: Option<UseTreeGroupPrefix>,
    /// The trees inside the braces; `None` when the braces are empty
    pub trees: Option<Vec<UseTree>>,
}

/// The `path::` of a group
pub struct UseTreeGroupPrefix {
    pub path: Option<SimplePath>,
}

/// `path` or `path as name`
pub struct UseTreeSimple {
    pub path: SimplePath,
    pub as_: Option<UseTreeSimpleAsValue>,
}

/// The name after `as`
pub enum UseTreeSimpleAsValue {
    Ident(Vec<u8>),
    Underscore,
}

/// `UseDeclaration`
pub struct UseDeclaration {
    pub tree: UseTree,
}

/// Comparison of naturals.
pub open spec fn order_int(a: int, b: int) -> Order {
    if a < b {
        Order::Less
    } else if a == b {
        Order::Equal
    } else {
        Order::Greater
    }
}

/// Lexicographic comparison of byte strings.
pub open spec fn order_bytes(a: Seq<u8>, b: Seq<u8>) -> Order
    decreases a.len(),
{
    if a.len() == 0 && b.len() == 0 {
        Order::Equal
    } else if a.len() == 0 {
        Order::Less
    } else if b.len() == 0 {
        Order::Greater
    } else if a[0] != b[0] {
        order_int(a[0] as int, b[0] as int)
    } else {
        order_bytes(a.drop_first(), b.drop_first())
    }
}

/// The sort rank of a path segment: `crate`, `super`, `self`, `$crate`,
/// then identifiers.
pub open spec fn segment_rank(s: SimplePathSegment) -> int {
    match s {
        SimplePathSegment::Crate => 0,
        SimplePathSegment::Super => 1,
        SimplePathSegment::SelfLower => 2,
        SimplePathSegment::DollarCrate => 3,
        SimplePathSegment::Ident(_) => 4,
    }
}

/// Sort comparison of two path segments: by rank, then identifiers by text.
pub open spec fn order_segment(a: SimplePathSegment, b: SimplePathSegment) -> Order {
    match (a, b) {
        (SimplePathSegment::Ident(x), SimplePathSegment::Ident(y)) => order_bytes(x@, y@),
        _ => order_int(segment_rank(a), segment_rank(b)),
    }
}

/// Sort comparison of segment lists: segment by segment; where one list is
/// a prefix of the other, the longer one comes first.
pub open spec fn order_segments(a: Seq<SimplePathSegment>, b: Seq<SimplePathSegment>) -> Order
    decreases a.len(),
{
    if a.len() == 0 && b.len() == 0 {
        Order::Equal
    } else if b.len() == 0 {
        Order::Less
    } else if a.len() == 0 {
        Order::Greater
    } else if order_segment(a[0], b[0]) != Order::Equal {
        order_segment(a[0], b[0])
    } else {
        order_segments(a.drop_first(), b.drop_first())
    }
}

/// Sort comparison of paths: paths without a `::` prefix first, then by
/// segments.
pub open spec fn order_path(a: SimplePath, b: SimplePath) -> Order {
    if a.prefix != b.prefix {
        if !a.prefix { Order::Less } else { Order::Greater }
    } else {
        order_segments(a.segments@, b.segments@)
    }
}

/// The sort rank of a use tree: groups with a bare `::` prefix, globs, trees
/// with a path, then groups without a prefix.
pub open spec fn tree_rank(t: UseTree) -> int {
    match t {
        UseTree::Glob(_) => 1,
        UseTree::Group(g) => match g.prefix {
            Some(p) => match p.path {
                Some(_) => 2,
                None => 0,
            },
            None => 3,
        },
        UseTree::Simple(_) => 2,
    }
}

/// The path a use tree is sorted by, for trees of rank 2.
pub open spec fn tree_path(t: UseTree) -> SimplePath
    recommends
        tree_rank(t) == 2,
{
    match t {
        UseTree::Group(g) => g.prefix.unwrap().path.unwrap(),
        UseTree::Simple(s) => s.path,
        _ => arbitrary(),
    }
}

/// Sort comparison of use trees: by rank, then trees with paths by path.
#[verifier::opaque]
pub open spec fn order_tree(a: UseTree, b: UseTree) -> Order {
    if tree_rank(a) != tree_rank(b) {
        order_int(tree_rank(a), tree_rank(b))
    } else if tree_rank(a) == 2 {
        order_path(tree_path(a), tree_path(b))
    } else {
        Order::Equal
    }
}

/// The opposite outcome of a comparison.
pub open spec fn flip(c: Order) -> Order {
    match c {
        Order::Less => Order::Greater,
        Order::Equal => Order::Equal,
        Order::Greater => Order::Less,
    }
}

proof fn lemma_order_bytes_flip(a: Seq<u8>, b: Seq<u8>)
    ensures
        order_bytes(b, a) == flip(order_bytes(a, b)),
    decreases a.len(),
{
    if a.len() > 0 && b.len() > 0 && a[0] == b[0] {
        lemma_order_bytes_flip(a.drop_first(), b.drop_first());
    }
}

proof fn lemma_order_segment_flip(a: SimplePathSegment, b: SimplePathSegment)
    ensures
        order_segment(b, a) == flip(order_segment(a, b)),
{
    match (a, b) {
        (SimplePathSegment::Ident(x), SimplePathSegment::Ident(y)) => lemma_order_bytes_flip(x@, y@),
        _ => {},
    }
}

proof fn lemma_order_segments_flip(a: Seq<SimplePathSegment>, b: Seq<SimplePathSegment>)
    ensures
        order_segments(b, a) == flip(order_segments(a, b)),
    decreases a.len(),
{
    if a.len() > 0 && b.len() > 0 {
        lemma_order_segment_flip(a[0], b[0]);
        lemma_order_segments_flip(a.drop_first(), b.drop_first());
    }
}

/// Comparing the other way round gives the opposite outcome.
pub proof fn lemma_order_tree_flip(a: UseTree, b: UseTree)
    ensures
        order_tree(b, a) == flip(order_tree(a, b)),
{
    reveal(order_tree);
    if tree_rank(a) == tree_rank(b) && tree_rank(a) == 2 {
        lemma_order_segments_flip(tree_path(a).segments@, tree_path(b).segments@);
    }
}

/// Compares two byte strings lexicographically
pub fn compare_bytes(a: &[u8], b: &[u8]) -> (r: Order)
    ensures
        r == order_bytes(a@, b@),
{
    let mut i: usize = 0;
    proof {
        assert(a@.skip(0) =~= a@);
        assert(b@.skip(0) =~= b@);
    }
    while i < a.len() && i < b.len() && a[i] == b[i]
        invariant
            i <= a@.len(),
            i <= b@.len(),
            order_bytes(a@, b@) == order_bytes(a@.skip(i as int), b@.skip(i as int)),
        decreases a@.len() - i,
    {
        proof {
            assert(a@.skip(i as int).drop_first() =~= a@.skip(i + 1));
            assert(b@.skip(i as int).drop_first() =~= b@.skip(i + 1));
        }
        i = i + 1;
    }
    if i == a.len() && i == b.len() {
        Order::Equal
    } else if i == a.len() {
        Order::Less
    } else if i == b.len() {
        Order::Greater
    } else if a[i] < b[i] {
        Order::Less
    } else {
        Order::Greater
    }
}

fn segment_rank_of(s: &SimplePathSegment) -> (r: u8)
    ensures
        r == segment_rank(*s),
{
    match s {
        SimplePathSegment::Crate => 0,
        SimplePathSegment::Super => 1,
        SimplePathSegment::SelfLower => 2,
        SimplePathSegment::DollarCrate => 3,
        SimplePathSegment::Ident(_) => 4,
    }
}

fn compare_u8(a: u8, b: u8) -> (r: Order)
    ensures
        r == order_int(a as int, b as int),
{
    if a < b {
        Order::Less
    } else if a == b {
        Order::Equal
    } else {
        Order::Greater
    }
}

/// Compares two path segments in sort order
pub fn compare_segment(a: &SimplePathSegment, b: &SimplePathSegment) -> (r: Order)
    ensures
        r == order_segment(*a, *b),
{
    match (a, b) {
        (SimplePathSegment::Ident(x), SimplePathSegment::Ident(y)) => compare_bytes(x.as_slice(), y.as_slice()),
        _ => compare_u8(segment_rank_of(a), segment_rank_of(b)),
    }
}

/// Compares two paths in sort order
pub fn compare_path(a: &SimplePath, b: &SimplePath) -> (r: Order)
    ensures
        r == order_path(*a, *b),
{
    if a.prefix != b.prefix {
        return if !a.prefix { Order::Less } else { Order::Greater };
    }
    let mut i: usize = 0;
    proof {
        assert(a.segments@.skip(0) =~= a.segments@);
        assert(b.segments@.skip(0) =~= b.segments@);
    }
    loop
        invariant
            i <= a.segments@.len(),
            i <= b.segments@.len(),
            order_segments(a.segments@, b.segments@) == order_segments(a.segments@.skip(i as int), b.segments@.skip(i as int)),
            a.prefix == b.prefix,
        decreases a.segments@.len() - i,
    {
        if i == a.segments.len() && i == b.segments.len() {
            return Order::Equal;
        } else if i == b.segments.len() {
            return Order::Less;
        } else if i == a.segments.len() {
            return Order::Greater;
        }
        let c = compare_segment(&a.segments[i], &b.segments[i]);
        proof {
            assert(a.segments@.skip(i as int)[0] == a.segments@[i as int]);
            assert(b.segments@.skip(i as int)[0] == b.segments@[i as int]);
        }
        if c != Order::Equal {
            return c;
        }
        proof {
            assert(a.segments@.skip(i as int).drop_first() =~= a.segments@.skip(i + 1));
            assert(b.segments@.skip(i as int).drop_first() =~= b.segments@.skip(i + 1));
        }
        i = i + 1;
    }
}

fn tree_rank_of(t: &UseTree) -> (r: u8)
    ensures
        r == tree_rank(*t),
{
    match t {
        UseTree::Glob(_) => 1,
        UseTree::Group(g) => match &g.prefix {
            Some(p) => match &p.path {
                Some(_) => 2,
                None => 0,
            },
            None => 3,
        },
        UseTree::Simple(_) => 2,
    }
}

fn tree_path_of(t: &UseTree) -> (r: Option<&SimplePath>)
    ensures
        r is Some <==> tree_rank(*t) == 2,
        r matches Some(p) ==> *p == tree_path(*t),
{
    match t {
        UseTree::Group(g) => match &g.prefix {
            Some(p) => match &p.path {
                Some(path) => Some(path),
                None => None,
            },
            None => None,
        },
        UseTree::Simple(s) => Some(&s.path),
        UseTree::Glob(_) => None,
    }
}

/// Compares two use trees in sort order
pub fn compare_tree(a: &UseTree, b: &UseTree) -> (r: Order)
    ensures
        r == order_tree(*a, *b),
{
    reveal(order_tree);
    let ra = tree_rank_of(a);
    let rb = tree_rank_of(b);
    if ra != rb {
        compare_u8(ra, rb)
    } else if ra == 2 {
        match (tree_path_of(a), tree_path_of(b)) {
            (Some(pa), Some(pb)) => compare_path(pa, pb),
            _ => Order::Equal,
        }
    } else {
        Order::Equal
    }
}

/// Whether each tree of a sequence sorts no later than the next one.
pub open spec fn sorted_trees(s: Seq<UseTree>) -> bool {
    forall|i: int| 0 <= i < s.len() - 1 ==> tree_le(#[trigger] s[i], s[i + 1])
}

proof fn lemma_move_keeps_multiset(s: Seq<UseTree>, i: int, j: int)
    requires
        0 <= j <= i < s.len(),
    ensures
        s.remove(i).insert(j, s[i]).to_multiset() == s.to_multiset(),
{
    broadcast use vstd::seq_lib::to_multiset_remove, vstd::seq_lib::to_multiset_insert, vstd::seq_lib::to_multiset_contains;
    assert(s.remove(i).insert(j, s[i]).to_multiset() == s.remove(i).to_multiset().insert(s[i]));
    assert(s.remove(i).to_multiset() == s.to_multiset().remove(s[i]));
    assert(s.contains(s[i]));
    assert(s.to_multiset().remove(s[i]).insert(s[i]) =~= s.to_multiset());
}

/// Inserting `x` after the last element that does not sort after it keeps
/// a run of adjacent pairs in order.
proof fn lemma_insert_keeps_sorted<T>(removed: Seq<T>, x: T, i: int, j: int, le: spec_fn(T, T) -> bool)
    requires
        0 <= j <= i <= removed.len(),
        forall|k: int| 0 <= k && k + 1 < i ==> le(#[trigger] removed[k], removed[k + 1]),
        forall|k: int| j <= k < i ==> le(x, #[trigger] removed[k]),
        j > 0 ==> le(removed[j - 1], x),
    ensures
        forall|k: int| 0 <= k && k + 1 < i + 1 ==> le(#[trigger] removed.insert(j, x)[k], removed.insert(j, x)[k + 1]),
{
    let t = removed.insert(j, x);
    assert forall|k: int| 0 <= k && k + 1 < i + 1 implies le(#[trigger] t[k], t[k + 1]) by {
        if k + 1 < j {
            assert(t[k] == removed[k] && t[k + 1] == removed[k + 1]);
        } else if k + 1 == j {
            assert(t[k] == removed[k] && t[k + 1] == x);
        } else if k == j {
            assert(t[k] == x && t[k + 1] == removed[k]);
        } else {
            assert(t[k] == removed[k - 1] && t[k + 1] == removed[k]);
        }
    }
}

/// Whether `a` sorts no later than `b`.
pub open spec fn tree_le(a: UseTree, b: UseTree) -> bool {
    order_tree(a, b) != Order::Greater
}

/// Whether the first `n` trees each sort no later than the next.
pub open spec fn sorted_prefix(s: Seq<UseTree>, n: int) -> bool {
    forall|k: int| 0 <= k && k + 1 < n ==> tree_le(#[trigger] s[k], s[k + 1])
}

/// Inserts `x` into `sorted` after the last tree that does not sort after it.
pub open spec fn spec_insert_sorted(sorted: Seq<UseTree>, x: UseTree) -> Seq<UseTree>
    decreases sorted.len(),
{
    if sorted.len() == 0 {
        seq![x]
    } else if order_tree(sorted.last(), x) == Order::Greater {
        spec_insert_sorted(sorted.drop_last(), x).push(sorted.last())
    } else {
        sorted.push(x)
    }
}

/// The stable sort of use trees: each tree in turn inserted after the trees
/// before it that do not sort after it.
pub open spec fn spec_sort_trees(s: Seq<UseTree>) -> Seq<UseTree>
    decreases s.len(),
{
    if s.len() == 0 {
        s
    } else {
        spec_insert_sorted(spec_sort_trees(s.drop_last()), s.last())
    }
}

/// Inserting at `j`, where every tree from `j` on sorts after `x` and the
/// one before does not, is the sorted insertion.
proof fn lemma_insert_at(p: Seq<UseTree>, x: UseTree, j: int)
    requires
        0 <= j <= p.len(),
        forall|k: int| j <= k < p.len() ==> order_tree(#[trigger] p[k], x) == Order::Greater,
        j > 0 ==> order_tree(p[j - 1], x) != Order::Greater,
    ensures
        spec_insert_sorted(p, x) == p.insert(j, x),
    decreases p.len() - j,
{
    if j == p.len() {
        if p.len() == 0 {
            assert(p.insert(j, x) =~= seq![x]);
        } else {
            assert(p.insert(j, x) =~= p.push(x));
        }
    } else {
        assert(order_tree(p[p.len() - 1], x) == Order::Greater);
        lemma_insert_at(p.drop_last(), x, j);
        assert(p.drop_last().insert(j, x).push(p.last()) =~= p.insert(j, x));
    }
}

/// Moves the tree at `i` back past the trees before it that sort after it.
fn insert_sorted_step(trees: &mut Vec<UseTree>, i: usize)
    requires
        0 < i < old(trees)@.len(),
        sorted_prefix(old(trees)@, i as int),
    ensures
        final(trees)@.len() == old(trees)@.len(),
        final(trees)@.to_multiset() == old(trees)@.to_multiset(),
        sorted_prefix(final(trees)@, i + 1),
        final(trees)@ == spec_insert_sorted(old(trees)@.take(i as int), old(trees)@[i as int]) + old(trees)@.skip(i + 1),
{
    let ghost before = trees@;
    let x = trees.remove(i);
    let mut j = i;
    while j > 0 && compare_tree(&trees[j - 1], &x) == Order::Greater
        invariant
            j <= i,
            i <= trees@.len(),
            trees@ == before.remove(i as int),
            forall|k: int| j <= k < i ==> tree_le(x, #[trigger] trees@[k]),
            forall|k: int| j <= k < i ==> order_tree(#[trigger] trees@[k], x) == Order::Greater,
            x == before[i as int],
        decreases j,
    {
        proof {
            lemma_order_tree_flip(trees@[j - 1], x);
        }
        j = j - 1;
    }
    let ghost removed = trees@;
    trees.insert(j, x);
    proof {
        let p = before.take(i as int);
        assert forall|k: int| j <= k < p.len() implies order_tree(#[trigger] p[k], x) == Order::Greater by {
            assert(p[k] == removed[k]);
        }
        if j > 0 {
            assert(p[j - 1] == removed[j - 1]);
        }
        lemma_insert_at(p, x, j as int);
        assert(trees@ =~= p.insert(j as int, x) + before.skip(i + 1));
        lemma_move_keeps_multiset(before, i as int, j as int);
        assert forall|k: int| 0 <= k && k + 1 < i implies tree_le(#[trigger] removed[k], removed[k + 1]) by {
            assert(removed[k] == before[k] && removed[k + 1] == before[k + 1]);
        }
        lemma_insert_keeps_sorted(removed, x, i as int, j as int, |a: UseTree, b: UseTree| tree_le(a, b));
    }
}

/// Sorts use trees in their sort order, keeping the order of trees that
/// compare equal.
pub fn sort_trees(trees: &mut Vec<UseTree>)
    ensures
        final(trees)@ == spec_sort_trees(old(trees)@),
        final(trees)@.to_multiset() == old(trees)@.to_multiset(),
        sorted_trees(final(trees)@),
{
    let ghost orig = trees@;
    let n = trees.len();
    if n == 0 {
        return;
    }
    proof {
        assert(orig.take(1).drop_last() =~= orig.take(0));
        assert(spec_sort_trees(orig.take(0)) =~= Seq::<UseTree>::empty());
        assert(spec_sort_trees(orig.take(1)) + orig.skip(1) =~= orig);
    }
    let mut i: usize = 1;
    while i < n
        invariant
            orig == old(trees)@,
            trees@.len() == n,
            n == orig.len(),
            trees@.to_multiset() == old(trees)@.to_multiset(),
            1 <= i <= n,
            sorted_prefix(trees@, i as int),
            trees@ == spec_sort_trees(orig.take(i as int)) + orig.skip(i as int),
        decreases n - i,
    {
        proof {
            lemma_sort_len(orig.take(i as int));
            assert(trees@.take(i as int) =~= spec_sort_trees(orig.take(i as int)));
            assert(trees@[i as int] == orig[i as int]);
            assert(trees@.skip(i + 1) =~= orig.skip(i + 1));
            assert(orig.take(i + 1).drop_last() =~= orig.take(i as int));
        }
        insert_sorted_step(trees, i);
        i = i + 1;
    }
    proof {
        assert(orig.take(n as int) =~= orig);
        assert(trees@ =~= spec_sort_trees(orig));
    }
}

/// Inserting adds one tree.
proof fn lemma_insert_len(p: Seq<UseTree>, x: UseTree)
    ensures
        spec_insert_sorted(p, x).len() == p.len() + 1,
    decreases p.len(),
{
    if p.len() > 0 && order_tree(p.last(), x) == Order::Greater {
        lemma_insert_len(p.drop_last(), x);
    }
}

/// Sorting keeps the number of trees.
proof fn lemma_sort_len(s: Seq<UseTree>)
    ensures
        spec_sort_trees(s).len() == s.len(),
    decreases s.len(),
{
    if s.len() > 0 {
        lemma_sort_len(s.drop_last());
        lemma_insert_len(spec_sort_trees(s.drop_last()), s.last());
    }
}


/// Whether two optional paths are the same: both absent, or both present
/// with the same `::` prefix and segment texts.
pub open spec fn same_path(a: Option<SimplePath>, b: Option<SimplePath>) -> bool {
    match (a, b) {
        (None, None) => true,
        (Some(x), Some(y)) => x.prefix == y.prefix && segment_texts(x.segments@) == segment_texts(y.segments@),
        _ => false,
    }
}

/// Whether two group prefixes are the same.
pub open spec fn same_prefix(a: Option<UseTreeGroupPrefix>, b: Option<UseTreeGroupPrefix>) -> bool {
    match (a, b) {
        (None, None) => true,
        (Some(x), Some(y)) => same_path(x.path, y.path),
        _ => false,
    }
}

fn path_eq(a: &SimplePath, b: &SimplePath) -> (r: bool)
    ensures
        r == (a.prefix == b.prefix && segment_texts(a.segments@) == segment_texts(b.segments@)),
{
    if a.prefix != b.prefix || a.segments.len() != b.segments.len() {
        proof {
            if a.segments@.len() != b.segments@.len() {
                assert(segment_texts(a.segments@).len() != segment_texts(b.segments@).len());
            }
        }
        return false;
    }
    let mut i: usize = 0;
    while i < a.segments.len()
        invariant
            a.segments@.len() == b.segments@.len(),
            i <= a.segments@.len(),
            forall|k: int| 0 <= k < i ==> a.segments@[k].text() == b.segments@[k].text(),
        decreases a.segments@.len() - i,
    {
        let ta = a.segments[i].as_str();
        if !b.segments[i].is_str(ta.as_slice(), 0, ta.len()) {
            proof {
                assert(ta@.subrange(0, ta@.len() as int) =~= ta@);
                assert(segment_texts(a.segments@)[i as int] != segment_texts(b.segments@)[i as int]);
            }
            return false;
        }
        proof {
            assert(ta@.subrange(0, ta@.len() as int) =~= ta@);
        }
        i = i + 1;
    }
    proof {
        assert(segment_texts(a.segments@) =~= segment_texts(b.segments@));
    }
    true
}

/// Returns whether two group prefixes are the same
pub fn prefix_eq(a: &Option<UseTreeGroupPrefix>, b: &Option<UseTreeGroupPrefix>) -> (r: bool)
    ensures
        r == same_prefix(*a, *b),
{
    match (a, b) {
        (None, None) => true,
        (Some(x), Some(y)) => match (&x.path, &y.path) {
            (None, None) => true,
            (Some(p), Some(q)) => path_eq(p, q),
            _ => false,
        },
        _ => false,
    }
}

/// The trees a group of trees stands for once groups without a prefix are
/// dissolved into their contents.
pub open spec fn flat(v: Seq<UseTree>) -> Seq<UseTree>
    decreases v,
{
    if v.len() == 0 {
        Seq::empty()
    } else {
        flat_one(v[0]) + flat(v.drop_first())
    }
}

/// The trees one tree stands for once groups without a prefix are dissolved
/// into their contents.
pub open spec fn flat_one(t: UseTree) -> Seq<UseTree>
    decreases t,
{
    match t {
        UseTree::Group(g) => if g.prefix is None {
            match g.trees {
                Some(c) => flat(c@),
                None => Seq::empty(),
            }
        } else {
            seq![t]
        },
        _ => seq![t],
    }
}

/// The contents of a group, as a sequence.
pub open spec fn contents(g: UseTreeGroup) -> Seq<UseTree> {
    match g.trees {
        Some(v) => v@,
        None => Seq::empty(),
    }
}

/// A group is viewed as its prefix and its contents.
impl View for UseTreeGroup {
    type V = (Option<UseTreeGroupPrefix>, Option<Seq<UseTree>>);

    open spec fn view(&self) -> (Option<UseTreeGroupPrefix>, Option<Seq<UseTree>>) {
        (self.prefix, match self.trees {
            Some(v) => Some(v@),
            None => None,
        })
    }
}

/// What pushing `tree` at the back of group `g` gives: a group with the same
/// prefix has its contents appended (or taken, when `g` is empty); a group
/// with another prefix makes a new group holding both; any other tree is
/// appended.
pub open spec fn spec_push_back(g: UseTreeGroup, tree: UseTree) -> (Option<UseTreeGroupPrefix>, Option<Seq<UseTree>>) {
    match tree {
        UseTree::Group(rhs) => if same_prefix(g.prefix, rhs.prefix) {
            match (g.trees, rhs.trees) {
                (Some(l), Some(r)) => (g.prefix, Some(l@ + r@)),
                (Some(l), None) => (g.prefix, Some(l@)),
                (None, _) => (g.prefix, rhs@.1),
            }
        } else {
            (None, Some(seq![UseTree::Group(g), UseTree::Group(rhs)]))
        },
        _ => match g.trees {
            Some(l) => (g.prefix, Some(l@.push(tree))),
            None => (g.prefix, Some(seq![tree])),
        },
    }
}

/// What pushing `tree` at the front of group `g` gives: a group with the
/// same prefix has its contents prepended (or taken, when `g` is empty); a
/// group with another prefix makes a new group holding both; any other tree
/// is prepended.
pub open spec fn spec_push_front(g: UseTreeGroup, tree: UseTree) -> (Option<UseTreeGroupPrefix>, Option<Seq<UseTree>>) {
    match tree {
        UseTree::Group(rhs) => if same_prefix(g.prefix, rhs.prefix) {
            match (g.trees, rhs.trees) {
                (Some(l), Some(r)) => (g.prefix, Some(r@ + l@)),
                (Some(l), None) => (g.prefix, Some(l@)),
                (None, _) => (g.prefix, rhs@.1),
            }
        } else {
            (None, Some(seq![UseTree::Group(rhs), UseTree::Group(g)]))
        },
        _ => match g.trees {
            Some(l) => (g.prefix, Some(seq![tree] + l@)),
            None => (g.prefix, Some(seq![tree])),
        },
    }
}

/// Pushing a tree at the back of a group keeps every tree, in order: a
/// group with the same prefix has its trees appended after the group's own;
/// a group with another prefix is kept whole beside the group, both inside
/// a new group without a prefix; any other tree is appended.
pub proof fn lemma_push_back_keeps_trees(g: UseTreeGroup, tree: UseTree, r: UseTreeGroup)
    requires
        r@ == spec_push_back(g, tree),
    ensures
        tree matches UseTree::Group(h) ==> (same_prefix(g.prefix, h.prefix) ==> r.prefix == g.prefix
            && contents(r) == contents(g) + contents(h)),
        tree matches UseTree::Group(h) ==> (!same_prefix(g.prefix, h.prefix) ==> r.prefix is None
            && contents(r) == seq![UseTree::Group(g), UseTree::Group(h)]),
        !(tree is Group) ==> r.prefix == g.prefix && contents(r) == contents(g).push(tree),
{
    if let UseTree::Group(h) = tree {
        if same_prefix(g.prefix, h.prefix) {
            match (g.trees, h.trees) {
                (Some(l), None) => assert(contents(g) + contents(h) =~= contents(g)),
                (None, _) => assert(contents(g) + contents(h) =~= contents(h)),
                _ => {},
            }
        }
    } else {
        if g.trees is None {
            assert(contents(g).push(tree) =~= seq![tree]);
        }
    }
}

/// Pushing a tree at the front of a group keeps every tree, in order: a
/// group with the same prefix has its trees put before the group's own; a
/// group with another prefix is kept whole before the group, both inside a
/// new group without a prefix; any other tree is put first.
pub proof fn lemma_push_front_keeps_trees(g: UseTreeGroup, tree: UseTree, r: UseTreeGroup)
    requires
        r@ == spec_push_front(g, tree),
    ensures
        tree matches UseTree::Group(h) ==> (same_prefix(g.prefix, h.prefix) ==> r.prefix == g.prefix
            && contents(r) == contents(h) + contents(g)),
        tree matches UseTree::Group(h) ==> (!same_prefix(g.prefix, h.prefix) ==> r.prefix is None
            && contents(r) == seq![UseTree::Group(h), UseTree::Group(g)]),
        !(tree is Group) ==> r.prefix == g.prefix && contents(r) == seq![tree] + contents(g),
{
    if let UseTree::Group(h) = tree {
        if same_prefix(g.prefix, h.prefix) {
            match (g.trees, h.trees) {
                (Some(l), None) => assert(contents(h) + contents(g) =~= contents(g)),
                (None, _) => assert(contents(h) + contents(g) =~= contents(h)),
                _ => {},
            }
        }
    } else {
        if g.trees is None {
            assert(seq![tree] + contents(g) =~= seq![tree]);
        }
    }
}

impl UseTreeGroup {
    /// Pushes a tree at the back of this group
    pub fn push_back(&mut self, tree: UseTree)
        ensures
            (*final(self))@ == spec_push_back(*old(self), tree),
    {
        match tree {
            UseTree::Group(rhs) => {
                if prefix_eq(&self.prefix, &rhs.prefix) {
                    let UseTreeGroup { prefix: _, trees: rhs_trees } = rhs;
                    match rhs_trees {
                        Some(mut r) => {
                            let mut lhs_trees: Option<Vec<UseTree>> = None;
                            std::mem::swap(&mut lhs_trees, &mut self.trees);
                            match lhs_trees {
                                Some(mut l) => {
                                    l.append(&mut r);
                                    self.trees = Some(l);
                                },
                                None => {
                                    self.trees = Some(r);
                                },
                            }
                        },
                        None => {},
                    }
                } else {
                    let mut lhs = UseTreeGroup { prefix: None, trees: None };
                    std::mem::swap(&mut lhs, self);
                    let mut values = Vec::new();
                    values.push(UseTree::Group(lhs));
                    values.push(UseTree::Group(rhs));
                    self.trees = Some(values);
                    proof {
                        assert(values@ =~= seq![UseTree::Group(*old(self)), UseTree::Group(rhs)]);
                    }
                }
            },
            tree => {
                let mut lhs_trees: Option<Vec<UseTree>> = None;
                std::mem::swap(&mut lhs_trees, &mut self.trees);
                match lhs_trees {
                    Some(mut l) => {
                        l.push(tree);
                        self.trees = Some(l);
                    },
                    None => {
                        let mut v = Vec::new();
                        v.push(tree);
                        self.trees = Some(v);
                        proof {
                            assert(v@ =~= seq![tree]);
                        }
                    },
                }
            },
        }
    }

    /// Pushes a tree at the front of this group
    pub fn push_front(&mut self, tree: UseTree)
        ensures
            (*final(self))@ == spec_push_front(*old(self), tree),
    {
        match tree {
            UseTree::Group(rhs) => {
                if prefix_eq(&self.prefix, &rhs.prefix) {
                    let UseTreeGroup { prefix: _, trees: rhs_trees } = rhs;
                    match rhs_trees {
                        Some(mut r) => {
                            let mut lhs_trees: Option<Vec<UseTree>> = None;
                            std::mem::swap(&mut lhs_trees, &mut self.trees);
                            match lhs_trees {
                                Some(mut l) => {
                                    r.append(&mut l);
                                    self.trees = Some(r);
                                },
                                None => {
                                    self.trees = Some(r);
                                },
                            }
                        },
                        None => {},
                    }
                } else {
                    let mut lhs = UseTreeGroup { prefix: None, trees: None };
                    std::mem::swap(&mut lhs, self);
                    let mut values = Vec::new();
                    values.push(UseTree::Group(rhs));
                    values.push(UseTree::Group(lhs));
                    self.trees = Some(values);
                    proof {
                        assert(values@ =~= seq![UseTree::Group(rhs), UseTree::Group(*old(self))]);
                    }
                }
            },
            tree => {
                let mut lhs_trees: Option<Vec<UseTree>> = None;
                std::mem::swap(&mut lhs_trees, &mut self.trees);
                match lhs_trees {
                    Some(mut l) => {
                        l.insert(0, tree);
                        self.trees = Some(l);
                        proof {
                            assert(l@ =~= seq![tree] + old(self).trees.unwrap()@);
                        }
                    },
                    None => {
                        let mut v = Vec::new();
                        v.push(tree);
                        self.trees = Some(v);
                        proof {
                            assert(v@ =~= seq![tree]);
                        }
                    },
                }
            },
        }
    }

    /// Sorts all trees inside
    pub fn sort(&mut self)
        ensures
            final(self).prefix == old(self).prefix,
            old(self).trees is None ==> final(self).trees is None,
            old(self).trees matches Some(v) ==> final(self).trees matches Some(w)
                && (w@ == spec_sort_trees(v@) && w@.to_multiset() == v@.to_multiset() && sorted_trees(w@)),
    {
        match &mut self.trees {
            Some(trees) => sort_trees(trees),
            None => {},
        }
    }
}

impl UseTree {
    /// Converts this tree into a group.
    pub fn into_group(self) -> (r: UseTreeGroup)
        ensures
            self matches UseTree::Group(g) ==> r == g,
            !(self is Group) ==> r@ == (None::<UseTreeGroupPrefix>, Some(seq![self])),
    {
        match self {
            UseTree::Group(tree) => tree,
            _ => {
                let mut v = Vec::new();
                v.push(self);
                proof {
                    assert(v@ =~= seq![self]);
                }
                UseTreeGroup { prefix: None, trees: Some(v) }
            },
        }
    }

    /// Merges another tree into this one
    pub fn merge(&mut self, other: Self)
        ensures
            *final(self) is Group,
            *old(self) is Group ==> ((*final(self))->Group_0)@ == spec_push_back((*old(self))->Group_0, other),
            !(*old(self) is Group) && other is Group ==> ((*final(self))->Group_0)@ == spec_push_front(other->Group_0, *old(self)),
            !(*old(self) is Group) && !(other is Group) ==> ((*final(self))->Group_0)@ == (None::<UseTreeGroupPrefix>, Some(seq![*old(self), other])),
    {
        let mut lhs = UseTree::Glob(UseTreeGlob { prefix: None });
        std::mem::swap(&mut lhs, self);
        match lhs {
            UseTree::Group(mut g) => {
                g.push_back(other);
                *self = UseTree::Group(g);
            },
            lhs => match other {
                UseTree::Group(mut rhs) => {
                    rhs.push_front(lhs);
                    *self = UseTree::Group(rhs);
                },
                rhs => {
                    let mut values = Vec::new();
                    values.push(lhs);
                    values.push(rhs);
                    proof {
                        assert(values@ =~= seq![lhs, rhs]);
                    }
                    *self = UseTree::Group(UseTreeGroup { prefix: None, trees: Some(values) });
                },
            },
        }
    }
}

impl UseDeclaration {
    /// Merges another use declaration into this one
    pub fn merge(&mut self, other: Self)
        ensures
            final(self).tree is Group,
            old(self).tree is Group ==> (final(self).tree->Group_0)@ == spec_push_back(old(self).tree->Group_0, other.tree),
            !(old(self).tree is Group) && other.tree is Group ==> (final(self).tree->Group_0)@ == spec_push_front(other.tree->Group_0, old(self).tree),
            !(old(self).tree is Group) && !(other.tree is Group) ==> (final(self).tree->Group_0)@ == (None::<UseTreeGroupPrefix>, Some(seq![old(self).tree, other.tree])),
    {
        self.tree.merge(other.tree);
    }
}


/// Whether a tree is a group without a prefix, which flattening dissolves.
pub open spec fn is_bare_group(t: UseTree) -> bool {
    t matches UseTree::Group(g) && g.prefix is None
}

/// Whether no tree of a sequence is a group without a prefix.
pub open spec fn no_bare_groups(v: Seq<UseTree>) -> bool {
    forall|i: int| 0 <= i < v.len() ==> !is_bare_group(#[trigger] v[i])
}

proof fn lemma_no_bare_concat(a: Seq<UseTree>, b: Seq<UseTree>)
    requires
        no_bare_groups(a),
        no_bare_groups(b),
    ensures
        no_bare_groups(a + b),
{
    assert forall|i: int| 0 <= i < (a + b).len() implies !is_bare_group(#[trigger] (a + b)[i]) by {
        if i < a.len() {
            assert((a + b)[i] == a[i]);
        } else {
            assert((a + b)[i] == b[i - a.len()]);
        }
    }
}

/// Flattening leaves no group without a prefix.
proof fn lemma_flat_no_bare(v: Seq<UseTree>)
    ensures
        no_bare_groups(flat(v)),
    decreases v,
{
    if v.len() > 0 {
        lemma_flat_one_no_bare(v[0]);
        lemma_flat_no_bare(v.drop_first());
        lemma_no_bare_concat(flat_one(v[0]), flat(v.drop_first()));
    }
}

proof fn lemma_flat_one_no_bare(t: UseTree)
    ensures
        no_bare_groups(flat_one(t)),
    decreases t,
{
    match t {
        UseTree::Group(g) => if g.prefix is None {
            match g.trees {
                Some(c) => lemma_flat_no_bare(c@),
                None => {},
            }
        },
        _ => {},
    }
}

/// Flattening trees with no group to dissolve changes nothing.
proof fn lemma_flat_of_no_bare(w: Seq<UseTree>)
    requires
        no_bare_groups(w),
    ensures
        flat(w) == w,
    decreases w.len(),
{
    if w.len() > 0 {
        assert(!is_bare_group(w[0]));
        assert(no_bare_groups(w.drop_first())) by {
            assert forall|i: int| 0 <= i < w.drop_first().len() implies !is_bare_group(#[trigger] w.drop_first()[i]) by {
                assert(w.drop_first()[i] == w[i + 1]);
            }
        }
        lemma_flat_of_no_bare(w.drop_first());
        assert(flat_one(w[0]) == seq![w[0]]);
        assert(seq![w[0]] + w.drop_first() =~= w);
    }
}

/// Flattening is idempotent: flattened trees stay as they are when
/// flattened again.
pub proof fn lemma_flat_idempotent(v: Seq<UseTree>)
    ensures
        flat(flat(v)) == flat(v),
{
    lemma_flat_no_bare(v);
    lemma_flat_of_no_bare(flat(v));
}

/// The last tree after a sorted insertion is the inserted one or the last
/// one before.
proof fn lemma_insert_last(p: Seq<UseTree>, x: UseTree)
    ensures
        spec_insert_sorted(p, x).len() > 0,
        spec_insert_sorted(p, x).last() == x || (p.len() > 0 && spec_insert_sorted(p, x).last() == p.last()
            && order_tree(p.last(), x) == Order::Greater),
    decreases p.len(),
{
    if p.len() > 0 && order_tree(p.last(), x) == Order::Greater {
        lemma_insert_last(p.drop_last(), x);
    }
}

/// A sorted insertion into sorted trees gives sorted trees.
proof fn lemma_insert_sorted_sorted(p: Seq<UseTree>, x: UseTree)
    requires
        sorted_trees(p),
    ensures
        sorted_trees(spec_insert_sorted(p, x)),
    decreases p.len(),
{
    let r = spec_insert_sorted(p, x);
    if p.len() == 0 {
    } else if order_tree(p.last(), x) == Order::Greater {
        let q = p.drop_last();
        assert(sorted_trees(q)) by {
            assert forall|i: int| 0 <= i < q.len() - 1 implies tree_le(#[trigger] q[i], q[i + 1]) by {
                assert(q[i] == p[i] && q[i + 1] == p[i + 1]);
            }
        }
        lemma_insert_sorted_sorted(q, x);
        lemma_insert_last(q, x);
        let rq = spec_insert_sorted(q, x);
        lemma_order_tree_flip(p.last(), x);
        if rq.last() != x {
            assert(q.last() == p[p.len() - 2]);
            assert(tree_le(p[p.len() - 2], p[p.len() - 1]));
        }
        assert(tree_le(rq.last(), p.last()));
        assert forall|i: int| 0 <= i < r.len() - 1 implies tree_le(#[trigger] r[i], r[i + 1]) by {
            if i < rq.len() - 1 {
                assert(r[i] == rq[i] && r[i + 1] == rq[i + 1]);
            } else {
                assert(r[i] == rq.last() && r[i + 1] == p.last());
            }
        }
    } else {
        assert forall|i: int| 0 <= i < r.len() - 1 implies tree_le(#[trigger] r[i], r[i + 1]) by {
            if i < p.len() - 1 {
                assert(r[i] == p[i] && r[i + 1] == p[i + 1]);
            } else {
                assert(r[i] == p.last() && r[i + 1] == x);
            }
        }
    }
}

/// Sorting gives sorted trees.
proof fn lemma_sort_sorted(s: Seq<UseTree>)
    ensures
        sorted_trees(spec_sort_trees(s)),
    decreases s.len(),
{
    if s.len() > 0 {
        lemma_sort_sorted(s.drop_last());
        lemma_insert_sorted_sorted(spec_sort_trees(s.drop_last()), s.last());
    }
}

/// Sorting sorted trees changes nothing.
proof fn lemma_sort_of_sorted(s: Seq<UseTree>)
    requires
        sorted_trees(s),
    ensures
        spec_sort_trees(s) == s,
    decreases s.len(),
{
    if s.len() > 0 {
        let q = s.drop_last();
        assert(sorted_trees(q)) by {
            assert forall|i: int| 0 <= i < q.len() - 1 implies tree_le(#[trigger] q[i], q[i + 1]) by {
                assert(q[i] == s[i] && q[i + 1] == s[i + 1]);
            }
        }
        lemma_sort_of_sorted(q);
        if q.len() > 0 {
            assert(tree_le(s[s.len() - 2], s[s.len() - 1]));
            assert(q.last() == s[s.len() - 2]);
        }
        assert(q.push(s.last()) =~= s);
    }
}

/// Sorting is idempotent: sorted use trees stay in place when sorted again.
pub proof fn lemma_sort_idempotent(s: Seq<UseTree>)
    ensures
        spec_sort_trees(spec_sort_trees(s)) == spec_sort_trees(s),
{
    lemma_sort_sorted(s);
    lemma_sort_of_sorted(spec_sort_trees(s));
}

/// Sorting keeps trees that are not bare groups free of them.
proof fn lemma_sort_no_bare(s: Seq<UseTree>)
    requires
        no_bare_groups(s),
    ensures
        no_bare_groups(spec_sort_trees(s)),
    decreases s.len(),
{
    if s.len() > 0 {
        let q = s.drop_last();
        assert(no_bare_groups(q)) by {
            assert forall|i: int| 0 <= i < q.len() implies !is_bare_group(#[trigger] q[i]) by {
                assert(q[i] == s[i]);
            }
        }
        lemma_sort_no_bare(q);
        lemma_insert_no_bare(spec_sort_trees(q), s.last());
    }
}

proof fn lemma_insert_no_bare(p: Seq<UseTree>, x: UseTree)
    requires
        no_bare_groups(p),
        !is_bare_group(x),
    ensures
        no_bare_groups(spec_insert_sorted(p, x)),
    decreases p.len(),
{
    if p.len() > 0 && order_tree(p.last(), x) == Order::Greater {
        let q = p.drop_last();
        assert(no_bare_groups(q)) by {
            assert forall|i: int| 0 <= i < q.len() implies !is_bare_group(#[trigger] q[i]) by {
                assert(q[i] == p[i]);
            }
        }
        lemma_insert_no_bare(q, x);
        lemma_no_bare_concat(spec_insert_sorted(q, x), seq![p.last()]);
        assert(spec_insert_sorted(q, x).push(p.last()) =~= spec_insert_sorted(q, x) + seq![p.last()]);
    } else if p.len() > 0 {
        lemma_no_bare_concat(p, seq![x]);
        assert(p.push(x) =~= p + seq![x]);
    }
}

/// Tidying a group's trees (flattening, then sorting) a second time changes
/// nothing.
pub proof fn lemma_tidy_idempotent(v: Seq<UseTree>)
    ensures
        spec_sort_trees(flat(spec_sort_trees(flat(v)))) == spec_sort_trees(flat(v)),
{
    lemma_flat_no_bare(v);
    lemma_sort_no_bare(flat(v));
    lemma_flat_of_no_bare(spec_sort_trees(flat(v)));
    lemma_sort_idempotent(flat(v));
}

/// Dissolving groups distributes over concatenation.
pub proof fn lemma_flat_concat(a: Seq<UseTree>, b: Seq<UseTree>)
    ensures
        flat(a + b) == flat(a) + flat(b),
    decreases a.len(),
{
    if a.len() == 0 {
        assert(a + b =~= b);
        assert(flat(a) + flat(b) =~= flat(b));
    } else {
        assert((a + b).drop_first() =~= a.drop_first() + b);
        assert((a + b)[0] == a[0]);
        lemma_flat_concat(a.drop_first(), b);
        assert(flat(a + b) =~= flat(a) + flat(b));
    }
}

proof fn lemma_flat_single(t: UseTree)
    ensures
        flat(seq![t]) == flat_one(t),
{
    assert(seq![t].drop_first() =~= Seq::<UseTree>::empty());
    assert(seq![t][0] == t);
    assert(flat(seq![t].drop_first()) == Seq::<UseTree>::empty());
    assert(flat_one(t) + Seq::<UseTree>::empty() =~= flat_one(t));
}

/// The trees a group's contents stand for once dissolved.
pub open spec fn flat_view(v: Option<Seq<UseTree>>) -> Seq<UseTree> {
    match v {
        Some(s) => flat(s),
        None => Seq::empty(),
    }
}

/// Merging two trees, neither of which puts the other under a prefix, joins
/// what they stand for once groups without a prefix are dissolved: the
/// trees of the first, then those of the second.
pub proof fn lemma_merge_flat(a: UseTree, b: UseTree, merged: (Option<UseTreeGroupPrefix>, Option<Seq<UseTree>>))
    requires
        a matches UseTree::Group(g) ==> g.prefix is None,
        !(a is Group) && b is Group ==> b->Group_0.prefix is None,
        a matches UseTree::Group(g) ==> merged == spec_push_back(g, b),
        !(a is Group) && b is Group ==> merged == spec_push_front(b->Group_0, a),
        !(a is Group) && !(b is Group) ==> merged == (None::<UseTreeGroupPrefix>, Some(seq![a, b])),
    ensures
        merged.0 is None,
        flat_view(merged.1) == flat_one(a) + flat_one(b),
{
    match a {
        UseTree::Group(g) => {
            match b {
                UseTree::Group(h) => {
                    if same_prefix(g.prefix, h.prefix) {
                        match (g.trees, h.trees) {
                            (Some(l), Some(r)) => lemma_flat_concat(l@, r@),
                            (Some(l), None) => {
                                assert(flat(l@) + Seq::<UseTree>::empty() =~= flat(l@));
                            },
                            (None, _) => {
                                assert(Seq::<UseTree>::empty() + flat_one(b) =~= flat_one(b));
                            },
                        }
                    } else {
                        lemma_flat_concat(seq![UseTree::Group(g)], seq![UseTree::Group(h)]);
                        assert(seq![UseTree::Group(g)] + seq![UseTree::Group(h)] =~= seq![UseTree::Group(g), UseTree::Group(h)]);
                        lemma_flat_single(UseTree::Group(g));
                        lemma_flat_single(UseTree::Group(h));
                    }
                },
                _ => {
                    match g.trees {
                        Some(l) => {
                            assert(l@.push(b) =~= l@ + seq![b]);
                            lemma_flat_concat(l@, seq![b]);
                            lemma_flat_single(b);
                        },
                        None => {
                            lemma_flat_single(b);
                            assert(Seq::<UseTree>::empty() + flat_one(b) =~= flat_one(b));
                        },
                    }
                },
            }
        },
        _ => {
            match b {
                UseTree::Group(h) => {
                    match h.trees {
                        Some(r) => {
                            lemma_flat_concat(seq![a], r@);
                            lemma_flat_single(a);
                        },
                        None => {
                            lemma_flat_single(a);
                            assert(flat_one(a) + Seq::<UseTree>::empty() =~= flat_one(a));
                        },
                    }
                },
                _ => {
                    lemma_flat_concat(seq![a], seq![b]);
                    assert(seq![a] + seq![b] =~= seq![a, b]);
                    lemma_flat_single(a);
                    lemma_flat_single(b);
                },
            }
        },
    }
}

/// Appends to `out` the trees `v` stands for once groups without a prefix
/// are dissolved.
fn flatten_into(v: Vec<UseTree>, out: &mut Vec<UseTree>)
    ensures
        final(out)@ == old(out)@ + flat(v@),
    decreases v@,
{
    let ghost orig = v@;
    let n = v.len();
    let mut rest = v;
    let mut rev: Vec<UseTree> = Vec::new();
    while rest.len() > 0
        invariant
            rest@.len() + rev@.len() == n,
            n == orig.len(),
            forall|k: int| 0 <= k < rest@.len() ==> rest@[k] == orig[k],
            forall|k: int| 0 <= k < rev@.len() ==> rev@[k] == orig[n - 1 - k],
        decreases rest@.len(),
    {
        let item = rest.pop().unwrap();
        rev.push(item);
    }
    let mut i: usize = 0;
    while i < n
        invariant
            i <= n,
            n == orig.len(),
            orig == v@,
            rev@.len() == n - i,
            forall|k: int| 0 <= k < rev@.len() ==> rev@[k] == orig[n - 1 - k],
            out@ == old(out)@ + flat(orig.take(i as int)),
        decreases n - i,
    {
        let t = rev.pop().unwrap();
        proof {
            assert(t == orig[i as int]);
            assert(orig.take(i + 1) =~= orig.take(i as int) + seq![t]);
            lemma_flat_concat(orig.take(i as int), seq![t]);
            lemma_flat_single(t);
        }
        match t {
            UseTree::Group(g) => {
                if g.prefix.is_none() {
                    match g.trees {
                        Some(c) => {
                            proof {
                                let e = orig[i as int];
                                assert(decreases_to!(orig => e));
                                assert(decreases_to!(e => e->Group_0));
                                assert(decreases_to!(e->Group_0 => e->Group_0.trees));
                                assert(decreases_to!(e->Group_0.trees => e->Group_0.trees->Some_0));
                                assert(decreases_to!(e->Group_0.trees->Some_0 => e->Group_0.trees->Some_0@));
                                assert(c == e->Group_0.trees->Some_0);
                                assert(decreases_to!(orig => c@));
                            }
                            flatten_into(c, out);
                        },
                        None => {
                            proof {
                                assert(out@ + Seq::<UseTree>::empty() =~= out@);
                            }
                        },
                    }
                } else {
                    out.push(UseTree::Group(g));
                }
            },
            t => {
                out.push(t);
            },
        }
        proof {
            assert(out@ =~= old(out)@ + flat(orig.take(i + 1)));
        }
        i = i + 1;
    }
    proof {
        assert(orig.take(n as int) =~= orig);
    }
}

impl UseTreeGroup {
    /// Flattens this group: groups without a prefix inside it are dissolved
    /// into their contents; a group left with no trees has empty braces.
    pub fn flatten(&mut self)
        ensures
            final(self).prefix == old(self).prefix,
            (*final(self))@.1 == match (*old(self))@.1 {
                Some(v) => if flat(v).len() == 0 { None } else { Some(flat(v)) },
                None => None::<Seq<UseTree>>,
            },
    {
        let mut trees: Option<Vec<UseTree>> = None;
        std::mem::swap(&mut trees, &mut self.trees);
        match trees {
            Some(v) => {
                let mut out = Vec::new();
                flatten_into(v, &mut out);
                proof {
                    assert(Seq::<UseTree>::empty() + flat(v@) =~= flat(v@));
                }
                if out.len() == 0 {
                    self.trees = None;
                } else {
                    self.trees = Some(out);
                }
            },
            None => {},
        }
    }
}

} // verus!
