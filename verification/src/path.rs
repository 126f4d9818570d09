//! Simple paths (`a::b::c`) and their comparison with strings.
use vstd::prelude::*;
use crate::text::{has_at, find_pair, find_pair_in, at2};

verus! {

/// `SimplePathSegment`
#[derive(Clone, Debug)]
pub enum SimplePathSegment {
    Super,
    SelfLower,
    Crate,
    DollarCrate,
    /// An identifier, by its text
    Ident(Vec<u8>),
}

/// `SimplePath`
#[derive(Clone, Debug)]
pub struct SimplePath {
    /// Whether the path starts with `::`
    pub prefix: bool,
    /// The segments, of which there is at least one
    pub segments: Vec<SimplePathSegment>,
}

/// The text of `super`.
pub open spec fn kw_super() -> Seq<u8> {
    seq![0x73u8, 0x75, 0x70, 0x65, 0x72]
}

/// The text of `self`.
pub open spec fn kw_self() -> Seq<u8> {
    seq![0x73u8, 0x65, 0x6c, 0x66]
}

/// The text of `crate`.
pub open spec fn kw_crate() -> Seq<u8> {
    seq![0x63u8, 0x72, 0x61, 0x74, 0x65]
}

/// The text of `$crate`.
pub open spec fn kw_dollar_crate() -> Seq<u8> {
    seq![0x24u8, 0x63, 0x72, 0x61, 0x74, 0x65]
}

impl SimplePathSegment {
    /// The text of this segment.
    pub open spec fn text(self) -> Seq<u8> {
        match self {
            SimplePathSegment::Super => kw_super(),
            SimplePathSegment::SelfLower => kw_self(),
            SimplePathSegment::Crate => kw_crate(),
            SimplePathSegment::DollarCrate => kw_dollar_crate(),
            SimplePathSegment::Ident(b) => b@,
        }
    }

    /// Returns this segment as a string
    pub fn as_str(&self) -> (r: Vec<u8>)
        ensures
            r@ == self.text(),
    {
        match self {
            SimplePathSegment::Super => {
                let v = vec![0x73u8, 0x75, 0x70, 0x65, 0x72];
                proof {
                    assert(v@ =~= kw_super());
                }
                v
            },
            SimplePathSegment::SelfLower => {
                let v = vec![0x73u8, 0x65, 0x6c, 0x66];
                proof {
                    assert(v@ =~= kw_self());
                }
                v
            },
            SimplePathSegment::Crate => {
                let v = vec![0x63u8, 0x72, 0x61, 0x74, 0x65];
                proof {
                    assert(v@ =~= kw_crate());
                }
                v
            },
            SimplePathSegment::DollarCrate => {
                let v = vec![0x24u8, 0x63, 0x72, 0x61, 0x74, 0x65];
                proof {
                    assert(v@ =~= kw_dollar_crate());
                }
                v
            },
            SimplePathSegment::Ident(b) => b.clone(),
        }
    }

    /// Returns if this segment is the same as the bytes `segment[lo..hi]`.
    pub fn is_str(&self, segment: &[u8], lo: usize, hi: usize) -> (r: bool)
        requires
            lo <= hi <= segment@.len(),
        ensures
            r == (self.text() == segment@.subrange(lo as int, hi as int)),
    {
        let t = self.as_str();
        if t.len() != hi - lo {
            return false;
        }
        let mut i: usize = 0;
        while i < t.len()
            invariant
                t@ == self.text(),
                t@.len() == hi - lo,
                lo <= hi <= segment@.len(),
                i <= t@.len(),
                forall|k: int| 0 <= k < i ==> t@[k] == segment@[lo + k],
            decreases t@.len() - i,
        {
            if t[i] != segment[lo + i] {
                proof {
                    assert(segment@.subrange(lo as int, hi as int)[i as int] != t@[i as int]);
                }
                return false;
            }
            i = i + 1;
        }
        proof {
            assert(t@ =~= segment@.subrange(lo as int, hi as int));
        }
        true
    }
}

/// The pieces of `s[from..]` between occurrences of `::`, left to right.
pub open spec fn split_path(s: Seq<u8>, from: int) -> Seq<Seq<u8>>
    decreases s.len() - from,
{
    if from < 0 || from > s.len() {
        Seq::empty()
    } else {
        match find_pair(s, from, s.len() as int, 0x3a, 0x3a) {
            Some(i) => {
                proof {
                    crate::lex::lemma_find_pair_bounds(s, from, s.len() as int, 0x3a, 0x3a);
                }
                seq![s.subrange(from, i)] + split_path(s, i + 2)
            },
            None => seq![s.subrange(from, s.len() as int)],
        }
    }
}

/// The text of `path` without a leading `::`, split at each `::`.
pub open spec fn path_pieces(path: Seq<u8>) -> Seq<Seq<u8>> {
    if has_at(path, 0, seq![0x3au8, 0x3a]) {
        split_path(path, 2)
    } else {
        split_path(path, 0)
    }
}

/// The texts of a sequence of segments.
pub open spec fn segment_texts(segments: Seq<SimplePathSegment>) -> Seq<Seq<u8>> {
    segments.map_values(|s: SimplePathSegment| s.text())
}

impl SimplePath {
    /// Returns if the first segment of this path is the bytes `segment`
    pub fn starts_with(&self, segment: &[u8]) -> (r: bool)
        requires
            self.segments@.len() > 0,
        ensures
            r == (self.segments@[0].text() == segment@),
    {
        proof {
            assert(segment@.subrange(0, segment@.len() as int) =~= segment@);
        }
        self.segments[0].is_str(segment, 0, segment.len())
    }

    /// Returns if this path is the same as the text `path`: the same `::`
    /// prefix, and the same segments, one for each piece between `::`s.
    pub fn is_str(&self, path: &[u8]) -> (r: bool)
        ensures
            r == (self.prefix == has_at(path@, 0, seq![0x3au8, 0x3a]) && segment_texts(self.segments@) == path_pieces(path@)),
    {
        let has_prefix = at2(path, 0, 0x3a, 0x3a);
        if self.prefix != has_prefix {
            return false;
        }
        let mut pos: usize = if has_prefix { 2 } else { 0 };
        let mut i: usize = 0;
        let n = path.len();
        let ghost start = pos as int;
        loop
            invariant
                n == path@.len(),
                pos <= n,
                i <= self.segments@.len(),
                start == (if has_prefix { 2int } else { 0int }),
                has_prefix == has_at(path@, 0, seq![0x3au8, 0x3a]),
                self.prefix == has_prefix,
                path_pieces(path@) == segment_texts(self.segments@).take(i as int) + split_path(path@, pos as int),
            decreases n - pos, self.segments@.len() - i,
        {
            let next = find_pair_in(path, pos, n, 0x3a, 0x3a);
            let end = match next {
                Some(k) => k,
                None => n,
            };
            if i == self.segments.len() {
                proof {
                    assert(split_path(path@, pos as int).len() > 0);
                    assert(segment_texts(self.segments@).take(i as int) =~= segment_texts(self.segments@));
                    assert(path_pieces(path@).len() > segment_texts(self.segments@).len());
                }
                return false;
            }
            if !self.segments[i].is_str(path, pos, end) {
                proof {
                    assert(path_pieces(path@)[i as int] == path@.subrange(pos as int, end as int));
                    assert(segment_texts(self.segments@)[i as int] == self.segments@[i as int].text());
                }
                return false;
            }
            proof {
                assert(segment_texts(self.segments@).take(i + 1) =~= segment_texts(self.segments@).take(i as int).push(self.segments@[i as int].text()));
            }
            match next {
                Some(k) => {
                    proof {
                        assert(split_path(path@, pos as int) == seq![path@.subrange(pos as int, k as int)] + split_path(path@, k + 2));
                        assert(path_pieces(path@) =~= segment_texts(self.segments@).take(i + 1) + split_path(path@, k + 2));
                    }
                    pos = k + 2;
                    i = i + 1;
                },
                None => {
                    proof {
                        assert(path_pieces(path@) =~= segment_texts(self.segments@).take(i + 1));
                    }
                    let r = i + 1 == self.segments.len();
                    proof {
                        if r {
                            assert(segment_texts(self.segments@).take(i + 1) =~= segment_texts(self.segments@));
                        } else {
                            assert(segment_texts(self.segments@).len() > i + 1);
                        }
                    }
                    return r;
                },
            }
        }
    }

    /// The text of this path: its `::` prefix, if any, then its segments
    /// joined by `::`.
    pub open spec fn text(self) -> Seq<u8> {
        (if self.prefix { path_sep() } else { Seq::empty() }) + join_segments(segment_texts(self.segments@))
    }

    /// Returns this path as a string
    pub fn as_str(&self) -> (r: Vec<u8>)
        ensures
            r@ == self.text(),
    {
        let mut out: Vec<u8> = Vec::new();
        if self.prefix {
            out.push(0x3a);
            out.push(0x3a);
        }
        let ghost start = out@;
        proof {
            assert(start =~= (if self.prefix { path_sep() } else { Seq::empty() }));
            assert(segment_texts(self.segments@).take(0) =~= Seq::<Seq<u8>>::empty());
            assert(start + join_segments(segment_texts(self.segments@).take(0)) =~= start);
        }
        let mut i: usize = 0;
        while i < self.segments.len()
            invariant
                i <= self.segments@.len(),
                start == (if self.prefix { path_sep() } else { Seq::<u8>::empty() }),
                out@ == start + join_segments(segment_texts(self.segments@).take(i as int)),
            decreases self.segments@.len() - i,
        {
            let ghost texts = segment_texts(self.segments@);
            proof {
                assert(texts.take(i + 1).drop_last() =~= texts.take(i as int));
                assert(texts.take(i + 1).last() == self.segments@[i as int].text());
            }
            if i > 0 {
                out.push(0x3a);
                out.push(0x3a);
            }
            let seg = self.segments[i].as_str();
            let mut k: usize = 0;
            let ghost before = out@;
            while k < seg.len()
                invariant
                    k <= seg@.len(),
                    out@ == before + seg@.take(k as int),
                decreases seg@.len() - k,
            {
                out.push(seg[k]);
                proof {
                    assert(seg@.take(k + 1) =~= seg@.take(k as int).push(seg@[k as int]));
                }
                k = k + 1;
            }
            proof {
                assert(seg@.take(seg@.len() as int) =~= seg@);
                if i > 0 {
                    assert(out@ =~= start + (join_segments(texts.take(i as int)) + path_sep() + texts.take(i + 1).last()));
                } else {
                    assert(texts.take(1) =~= seq![texts[0]]);
                    assert(out@ =~= start + texts[0]);
                }
            }
            i = i + 1;
        }
        proof {
            assert(segment_texts(self.segments@).take(i as int) =~= segment_texts(self.segments@));
        }
        out
    }
}

/// The bytes of `::`.
pub open spec fn path_sep() -> Seq<u8> {
    seq![0x3au8, 0x3a]
}

/// Texts joined by `::`.
pub open spec fn join_segments(texts: Seq<Seq<u8>>) -> Seq<u8>
    decreases texts.len(),
{
    if texts.len() == 0 {
        Seq::empty()
    } else if texts.len() == 1 {
        texts[0]
    } else {
        join_segments(texts.drop_last()) + path_sep() + texts.last()
    }
}

} // verus!
