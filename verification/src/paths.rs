//! Slash-separated paths as lists of segments.
//!
//! A path is read as an optional leading slash and the non-empty pieces
//! between slashes. Every path that the library produces is written in that
//! normal form: one slash between segments and none at the end.

use vstd::prelude::*;
use crate::text::{
    chars_of, copy_range, last_index_of, push_chars, rfind_char, same_text, string_of,
};

verus! {

/// What a path text means: whether it starts at the root, and its segments.
pub struct PathView {
    pub absolute: bool,
    pub segments: Seq<Seq<char>>,
}

/// The list holding `cur` if `cur` is not empty, else the empty list.
pub open spec fn flush(cur: Seq<char>) -> Seq<Seq<char>> {
    if cur.len() == 0 {
        Seq::empty()
    } else {
        seq![cur]
    }
}

/// The segments of `cur` followed by `s`, where `cur` is the part of a segment
/// already read and holds no slash.
pub open spec fn split_path(s: Seq<char>, cur: Seq<char>) -> Seq<Seq<char>>
    decreases s.len(),
{
    if s.len() == 0 {
        flush(cur)
    } else if s[0] == '/' {
        flush(cur) + split_path(s.skip(1), Seq::empty())
    } else {
        split_path(s.skip(1), cur.push(s[0]))
    }
}

/// The non-empty pieces of `s` between slashes, in order.
pub open spec fn segments(s: Seq<char>) -> Seq<Seq<char>> {
    split_path(s, Seq::empty())
}

/// `s` starts with a slash.
pub open spec fn is_absolute(s: Seq<char>) -> bool {
    s.len() > 0 && s[0] == '/'
}

/// What the text `s` means as a path.
pub open spec fn path_view(s: Seq<char>) -> PathView {
    PathView { absolute: is_absolute(s), segments: segments(s) }
}

/// Each segment preceded by a slash, all in one text.
pub open spec fn slash_join(segs: Seq<Seq<char>>) -> Seq<char>
    decreases segs.len(),
{
    if segs.len() == 0 {
        Seq::empty()
    } else {
        seq!['/'] + segs[0] + slash_join(segs.skip(1))
    }
}

/// The normal form of a path: its segments with one slash between them, and a
/// slash in front where it is absolute.
pub open spec fn path_text(p: PathView) -> Seq<char> {
    if p.absolute {
        if p.segments.len() == 0 {
            seq!['/']
        } else {
            slash_join(p.segments)
        }
    } else {
        if p.segments.len() == 0 {
            Seq::empty()
        } else {
            p.segments[0] + slash_join(p.segments.skip(1))
        }
    }
}

/// `seg` can stand as a segment: it is not empty and holds no slash.
pub open spec fn is_segment(seg: Seq<char>) -> bool {
    seg.len() > 0 && forall|i: int| 0 <= i < seg.len() ==> seg[i] != '/'
}

/// Every member of `segs` can stand as a segment.
pub open spec fn all_segments(segs: Seq<Seq<char>>) -> bool {
    forall|i: int| 0 <= i < segs.len() ==> is_segment(#[trigger] segs[i])
}

/// `b` appended to `a`: `b` alone where `b` is absolute.
pub open spec fn join(a: PathView, b: PathView) -> PathView {
    if b.absolute {
        b
    } else {
        PathView { absolute: a.absolute, segments: a.segments + b.segments }
    }
}

/// What is left of `p` below `base`, where `p` lies at or below `base`.
pub open spec fn strip_prefix(p: PathView, base: PathView) -> Option<PathView> {
    if p.absolute == base.absolute && base.segments.is_prefix_of(p.segments) {
        Some(PathView { absolute: false, segments: p.segments.skip(base.segments.len() as int) })
    } else {
        None
    }
}

/// The part of a file name before its extension: the name up to its last dot,
/// or the whole name where it has no dot but the one it starts with.
pub open spec fn stem_of(name: Seq<char>) -> Seq<char> {
    match last_index_of(name, '.') {
        Some(i) => if i > 0 {
            name.take(i)
        } else {
            name
        },
        None => name,
    }
}

/// The segment `..`, which names the parent directory.
pub open spec fn parent_segment() -> Seq<char> {
    seq!['.', '.']
}

/// `p` with the extension of its last segment set to `ext`. A path without
/// segments, or one that ends in `..`, has no file name and stays as it is.
pub open spec fn with_extension(p: PathView, ext: Seq<char>) -> PathView {
    if p.segments.len() == 0 || p.segments.last() == parent_segment() {
        p
    } else {
        PathView {
            absolute: p.absolute,
            segments: p.segments.drop_last().push(stem_of(p.segments.last()) + seq!['.'] + ext),
        }
    }
}

/// The extension of pages.
pub open spec fn html() -> Seq<char> {
    seq!['h', 't', 'm', 'l']
}

/// `p` with the extension of its last segment set to `html`.
pub open spec fn with_html_extension(p: PathView) -> PathView {
    with_extension(p, html())
}

/// `ext` can stand as an extension: it holds no slash.
pub open spec fn is_extension(ext: Seq<char>) -> bool {
    forall|i: int| 0 <= i < ext.len() ==> ext[i] != '/'
}

/// `p` with one more segment at its end.
pub open spec fn push_segment(p: PathView, seg: Seq<char>) -> PathView {
    PathView { absolute: p.absolute, segments: p.segments.push(seg) }
}

/// The views of the members of `v`.
pub open spec fn views(v: Seq<Vec<char>>) -> Seq<Seq<char>> {
    v.map_values(|x: Vec<char>| x@)
}

/// Reading slash-free text continues the segment in hand.
pub proof fn lemma_split_plain(x: Seq<char>, rest: Seq<char>, cur: Seq<char>)
    requires
        forall|i: int| 0 <= i < x.len() ==> x[i] != '/',
    ensures
        split_path(x + rest, cur) == split_path(rest, cur + x),
    decreases x.len(),
{
    if x.len() == 0 {
        assert(x + rest == rest);
        assert(cur + x == cur);
    } else {
        assert((x + rest)[0] == x[0]);
        assert((x + rest).skip(1) == x.skip(1) + rest);
        lemma_split_plain(x.skip(1), rest, cur.push(x[0]));
        assert(cur.push(x[0]) + x.skip(1) == cur + x);
    }
}

/// The segments of a joined list are the list itself.
pub proof fn lemma_split_slash_join(segs: Seq<Seq<char>>, cur: Seq<char>)
    requires
        all_segments(segs),
    ensures
        split_path(slash_join(segs), cur) == flush(cur) + segs,
    decreases segs.len(),
{
    if segs.len() == 0 {
        assert(flush(cur) + segs == flush(cur));
    } else {
        let rest = slash_join(segs.skip(1));
        let t = seq!['/'] + segs[0] + rest;
        assert(t[0] == '/');
        assert(t.skip(1) == segs[0] + rest);
        assert(is_segment(segs[0]));
        lemma_split_plain(segs[0], rest, Seq::empty());
        assert(Seq::<char>::empty() + segs[0] == segs[0]);
        assert(all_segments(segs.skip(1))) by {
            assert forall|i: int| 0 <= i < segs.skip(1).len() implies is_segment(
                #[trigger] segs.skip(1)[i],
            ) by {
                assert(segs.skip(1)[i] == segs[i + 1]);
            }
        }
        lemma_split_slash_join(segs.skip(1), segs[0]);
        assert(flush(segs[0]) + segs.skip(1) == segs);
    }
}

/// Reading the normal form of a path gives the path back.
pub proof fn lemma_path_round_trip(p: PathView)
    requires
        all_segments(p.segments),
    ensures
        path_view(path_text(p)) == p,
{
    let t = path_text(p);
    if p.absolute {
        if p.segments.len() == 0 {
            assert(t.skip(1).len() == 0);
            assert(split_path(t.skip(1), Seq::empty()) == Seq::<Seq<char>>::empty());
            assert(segments(t) =~= p.segments);
        } else {
            lemma_split_slash_join(p.segments, Seq::empty());
            assert(flush(Seq::<char>::empty()) + p.segments == p.segments);
        }
    } else {
        if p.segments.len() == 0 {
            assert(segments(t) =~= p.segments);
        } else {
            let first = p.segments[0];
            let rest = p.segments.skip(1);
            assert(is_segment(first));
            assert(t[0] == first[0]);
            lemma_split_plain(first, slash_join(rest), Seq::empty());
            assert(Seq::<char>::empty() + first == first);
            assert(all_segments(rest)) by {
                assert forall|i: int| 0 <= i < rest.len() implies is_segment(#[trigger] rest[i]) by {
                    assert(rest[i] == p.segments[i + 1]);
                }
            }
            lemma_split_slash_join(rest, first);
            assert(flush(first) + rest == p.segments);
        }
    }
}

/// A text that can stand as a segment is a relative path of that one segment.
pub proof fn lemma_segment_alone(seg: Seq<char>)
    requires
        is_segment(seg),
    ensures
        segments(seg) == seq![seg],
        !is_absolute(seg),
{
    lemma_split_plain(seg, Seq::empty(), Seq::empty());
    assert(seg + Seq::<char>::empty() == seg);
    assert(Seq::<char>::empty() + seg == seg);
}

/// What `split_path` returns can stand as segments, given that `cur` holds no slash.
pub proof fn lemma_split_gives_segments(s: Seq<char>, cur: Seq<char>)
    requires
        forall|i: int| 0 <= i < cur.len() ==> cur[i] != '/',
    ensures
        all_segments(split_path(s, cur)),
    decreases s.len(),
{
    if s.len() == 0 {
    } else if s[0] == '/' {
        lemma_split_gives_segments(s.skip(1), Seq::empty());
    } else {
        lemma_split_gives_segments(s.skip(1), cur.push(s[0]));
    }
}

/// A path held as its segments.
pub struct SitePath {
    pub absolute: bool,
    pub segments: Vec<Vec<char>>,
}

impl View for SitePath {
    type V = PathView;

    open spec fn view(&self) -> PathView {
        PathView { absolute: self.absolute, segments: views(self.segments@) }
    }
}

impl SitePath {
    /// Every segment held is non-empty and free of slashes.
    pub open spec fn well_formed(&self) -> bool {
        all_segments(self@.segments)
    }

    /// Reads a path from its text.
    pub fn parse(text: &[char]) -> (p: SitePath)
        ensures
            p@ == path_view(text@),
            p.well_formed(),
    {
        let mut out: Vec<Vec<char>> = Vec::new();
        let mut cur: Vec<char> = Vec::new();
        let mut i: usize = 0;
        assert(text@.skip(0) == text@);
        assert(views(out@) + split_path(text@, cur@) == segments(text@));
        while i < text.len()
            invariant
                i <= text.len(),
                segments(text@) == views(out@) + split_path(text@.skip(i as int), cur@),
            decreases text.len() - i,
        {
            let c = text[i];
            let ghost rest = text@.skip(i as int);
            let ghost before = views(out@);
            let ghost held = cur@;
            let ghost tail = split_path(text@.skip(i + 1), Seq::empty());
            assert(rest[0] == c);
            assert(rest.skip(1) == text@.skip(i + 1));
            if c == '/' {
                assert(split_path(rest, held) == flush(held) + tail);
                if cur.len() > 0 {
                    out.push(cur);
                    assert(views(out@) == before + flush(held));
                    cur = Vec::new();
                } else {
                    assert(before + flush(held) == before);
                    assert(cur@ == Seq::<char>::empty());
                }
                assert(views(out@) + tail == before + (flush(held) + tail));
            } else {
                cur.push(c);
            }
            i += 1;
        }
        assert(text@.skip(i as int).len() == 0);
        let ghost before = views(out@);
        let ghost held = cur@;
        if cur.len() > 0 {
            out.push(cur);
        }
        assert(views(out@) == before + flush(held));
        let absolute = text.len() > 0 && text[0] == '/';
        proof {
            lemma_split_gives_segments(text@, Seq::empty());
        }
        SitePath { absolute, segments: out }
    }

    /// Reads a path from a string.
    pub fn from_text(text: &str) -> (p: SitePath)
        ensures
            p@ == path_view(text@),
            p.well_formed(),
    {
        let chars = chars_of(text);
        SitePath::parse(chars.as_slice())
    }

    /// `other` appended to `self`: `other` alone where it is absolute.
    pub fn join(self, other: SitePath) -> (r: SitePath)
        requires
            self.well_formed(),
            other.well_formed(),
        ensures
            r@ == join(self@, other@),
            r.well_formed(),
    {
        if other.absolute {
            return other;
        }
        let mut segments = self.segments;
        let mut tail = other.segments;
        let ghost a = views(segments@);
        let ghost b = views(tail@);
        segments.append(&mut tail);
        assert(views(segments@) == a + b);
        SitePath { absolute: self.absolute, segments }
    }

    /// `self` with `seg` as one more segment at its end.
    pub fn push(self, seg: Vec<char>) -> (r: SitePath)
        requires
            self.well_formed(),
            is_segment(seg@),
        ensures
            r@ == push_segment(self@, seg@),
            r.well_formed(),
    {
        let mut segments = self.segments;
        let ghost a = views(segments@);
        segments.push(seg);
        assert(views(segments@) == a.push(seg@));
        SitePath { absolute: self.absolute, segments }
    }

    /// What is left of `self` below `base`, where `self` lies at or below it.
    pub fn strip_prefix(&self, base: &SitePath) -> (r: Option<SitePath>)
        requires
            self.well_formed(),
        ensures
            match r {
                Some(rest) => strip_prefix(self@, base@) == Some(rest@) && rest.well_formed(),
                None => strip_prefix(self@, base@) is None,
            },
    {
        let n = base.segments.len();
        if self.absolute != base.absolute || n > self.segments.len() {
            return None;
        }
        let mut k: usize = 0;
        while k < n
            invariant
                k <= n,
                n == base.segments.len(),
                n <= self.segments.len(),
                forall|j: int| 0 <= j < k ==> self.segments[j]@ == base.segments[j]@,
            decreases n - k,
        {
            if !same_text(self.segments[k].as_slice(), base.segments[k].as_slice()) {
                assert(views(self.segments@).subrange(0, n as int)[k as int] != views(
                    base.segments@,
                )[k as int]);
                return None;
            }
            k += 1;
        }
        assert(views(base.segments@) =~= views(self.segments@).subrange(0, n as int));
        let mut rest: Vec<Vec<char>> = Vec::new();
        let mut i: usize = n;
        while i < self.segments.len()
            invariant
                n <= i <= self.segments.len(),
                views(rest@) == views(self.segments@).subrange(n as int, i as int),
            decreases self.segments.len() - i,
        {
            let seg = &self.segments[i];
            let copy = copy_range(seg.as_slice(), 0, seg.len());
            assert(copy@ == seg@);
            let ghost before = views(rest@);
            rest.push(copy);
            assert(views(rest@) == before.push(seg@));
            i += 1;
        }
        assert(views(self.segments@).subrange(n as int, i as int) == views(self.segments@).skip(
            n as int,
        ));
        Some(SitePath { absolute: false, segments: rest })
    }

    /// `self` with the extension of its last segment set to `ext`.
    pub fn with_extension(self, ext: &[char]) -> (r: SitePath)
        requires
            self.well_formed(),
            is_extension(ext@),
        ensures
            r@ == with_extension(self@, ext@),
            r.well_formed(),
    {
        let n = self.segments.len();
        if n == 0 {
            return self;
        }
        let last = &self.segments[n - 1];
        assert(views(self.segments@).last() == last@);
        if last.len() == 2 && last[0] == '.' && last[1] == '.' {
            assert(last@ =~= parent_segment());
            return self;
        }
        assert(last@ != parent_segment());
        let keep: usize = match rfind_char(last.as_slice(), '.') {
            Some(i) => if i > 0 {
                i
            } else {
                last.len()
            },
            None => last.len(),
        };
        let mut name = copy_range(last.as_slice(), 0, keep);
        assert(name@ == stem_of(last@)) by {
            assert(last@.take(last@.len() as int) == last@);
        }
        assert(is_segment(last@));
        name.push('.');
        push_chars(&mut name, ext);
        assert(name@ == stem_of(last@) + seq!['.'] + ext@);
        assert(is_segment(name@)) by {
            assert forall|i: int| 0 <= i < name@.len() implies name@[i] != '/' by {
                if i < keep {
                    assert(name@[i] == last@[i]);
                } else if i == keep {
                } else {
                    assert(name@[i] == ext@[i - keep - 1]);
                }
            }
        }
        let ghost old_view = self@;
        let mut segments = self.segments;
        segments.pop();
        assert(views(segments@) == old_view.segments.drop_last());
        let ghost a = views(segments@);
        segments.push(name);
        assert(views(segments@) == a.push(name@));
        SitePath { absolute: self.absolute, segments }
    }

    /// `self` with the extension of its last segment set to `html`.
    pub fn with_html_extension(self) -> (r: SitePath)
        requires
            self.well_formed(),
        ensures
            r@ == with_html_extension(self@),
            r.well_formed(),
    {
        let ext = vec!['h', 't', 'm', 'l'];
        assert(ext@ =~= html());
        self.with_extension(ext.as_slice())
    }

    /// A copy of `self`.
    pub fn duplicate(&self) -> (r: SitePath)
        ensures
            r@ == self@,
    {
        let mut segments: Vec<Vec<char>> = Vec::new();
        let mut i: usize = 0;
        while i < self.segments.len()
            invariant
                i <= self.segments.len(),
                views(segments@) == views(self.segments@).take(i as int),
            decreases self.segments.len() - i,
        {
            let seg = &self.segments[i];
            let copy = copy_range(seg.as_slice(), 0, seg.len());
            assert(copy@ == seg@);
            let ghost before = views(segments@);
            segments.push(copy);
            assert(views(segments@) == before.push(seg@));
            i += 1;
        }
        assert(views(self.segments@).take(i as int) == views(self.segments@));
        SitePath { absolute: self.absolute, segments }
    }

    /// The last segment, where there is one.
    pub fn file_name(&self) -> (r: Option<&Vec<char>>)
        ensures
            match r {
                Some(name) => self@.segments.len() > 0 && name@ == self@.segments.last(),
                None => self@.segments.len() == 0,
            },
    {
        let n = self.segments.len();
        if n == 0 {
            None
        } else {
            assert(views(self.segments@).last() == self.segments[n - 1]@);
            Some(&self.segments[n - 1])
        }
    }

    /// The path in normal form.
    pub fn to_chars(&self) -> (v: Vec<char>)
        ensures
            v@ == path_text(self@),
    {
        let mut v: Vec<char> = Vec::new();
        let n = self.segments.len();
        let mut i: usize = 0;
        if self.absolute {
            if n == 0 {
                v.push('/');
                assert(v@ == path_text(self@));
                return v;
            }
        } else {
            if n == 0 {
                return v;
            }
            push_chars(&mut v, self.segments[0].as_slice());
            i = 1;
        }
        assert(self@.segments.skip(0) == self@.segments);
        while i < n
            invariant
                i <= n,
                n == self.segments.len(),
                v@ + slash_join(self@.segments.skip(i as int)) == path_text(self@),
            decreases n - i,
        {
            let ghost rest = self@.segments.skip(i as int);
            assert(rest[0] == self.segments[i as int]@);
            assert(rest.skip(1) == self@.segments.skip(i + 1));
            let ghost before = v@;
            v.push('/');
            push_chars(&mut v, self.segments[i].as_slice());
            assert(v@ + slash_join(rest.skip(1)) == before + slash_join(rest));
            i += 1;
        }
        assert(slash_join(self@.segments.skip(i as int)) == Seq::<char>::empty());
        v
    }

    /// The path in normal form, as a string.
    pub fn to_text(&self) -> (s: String)
        ensures
            s@ == path_text(self@),
    {
        let v = self.to_chars();
        string_of(v.as_slice())
    }
}

} // verus!
