//! Lexical paths: a path is an absolute/relative flag plus a sequence of
//! segments, with no filesystem meaning attached.

use vstd::prelude::*;
use vstd::string::StringExecFns;

verus! {

/// One segment of a lexical path: a plain name, the same-directory
/// marker `.`, or the parent-directory marker `..`.
#[derive(Debug, PartialEq, Eq)]
pub enum Segment {
    Here,
    Up,
    Name(String),
}

/// The mathematical model of a `Segment`: a name is a sequence of characters.
#[verifier::ext_equal]
pub enum SegModel {
    Here,
    Up,
    Name(Seq<char>),
}

impl View for Segment {
    type V = SegModel;

    open spec fn view(&self) -> SegModel {
        match self {
            Segment::Here => SegModel::Here,
            Segment::Up => SegModel::Up,
            Segment::Name(s) => SegModel::Name(s@),
        }
    }
}

/// The models of a sequence of segments.
pub open spec fn seg_views(s: Seq<Segment>) -> Seq<SegModel> {
    s.map_values(|g: Segment| g@)
}

/// Modelling segments commutes with appending one.
pub proof fn lemma_seg_views_push(s: Seq<Segment>, g: Segment)
    ensures
        seg_views(s.push(g)) =~= seg_views(s).push(g@),
{
    assert forall|i: int| 0 <= i < s.len() + 1 implies seg_views(s.push(g))[i] == seg_views(
        s,
    ).push(g@)[i] by {
        if i < s.len() {
            assert(s.push(g)[i] == s[i]);
        } else {
            assert(s.push(g)[i] == g);
        }
    }
}

/// A lexical path. `absolute` stands for a leading root; the segments
/// never include the root itself.
#[derive(Debug, PartialEq, Eq)]
pub struct LexPath {
    pub absolute: bool,
    pub segments: Vec<Segment>,
}

/// The mathematical model of a `LexPath`.
#[verifier::ext_equal]
pub struct PathModel {
    pub absolute: bool,
    pub segments: Seq<SegModel>,
}

impl View for LexPath {
    type V = PathModel;

    open spec fn view(&self) -> PathModel {
        PathModel { absolute: self.absolute, segments: seg_views(self.segments@) }
    }
}

/// Copies one segment; the copy models the same value.
pub fn clone_segment(g: &Segment) -> (r: Segment)
    ensures
        r == *g,
{
    match g {
        Segment::Here => Segment::Here,
        Segment::Up => Segment::Up,
        Segment::Name(s) => Segment::Name(s.clone()),
    }
}

/// Copies a segment vector element by element.
pub fn clone_segments(v: &Vec<Segment>) -> (r: Vec<Segment>)
    ensures
        r@ == v@,
{
    let mut out: Vec<Segment> = Vec::new();
    let mut i: usize = 0;
    while i < v.len()
        invariant
            i <= v.len(),
            out@ =~= v@.take(i as int),
        decreases v.len() - i,
    {
        out.push(clone_segment(&v[i]));
        proof {
            assert(v@.take(i as int).push(v@[i as int]) =~= v@.take(i as int + 1));
        }
        i += 1;
    }
    proof {
        assert(v@.take(v@.len() as int) =~= v@);
    }
    out
}

/// Copies a lexical path; the copy models the same path.
pub fn clone_lexpath(p: &LexPath) -> (r: LexPath)
    ensures
        r@ == p@,
{
    let r = LexPath { absolute: p.absolute, segments: clone_segments(&p.segments) };
    proof {
        assert(r@ =~= p@);
    }
    r
}

/// Decides whether two segments model the same value.
pub fn segment_eq(a: &Segment, b: &Segment) -> (r: bool)
    ensures
        r == (a@ == b@),
{
    match (a, b) {
        (Segment::Here, Segment::Here) => true,
        (Segment::Up, Segment::Up) => true,
        (Segment::Name(x), Segment::Name(y)) => *x == *y,
        _ => false,
    }
}

/// The characters a single segment displays as.
pub open spec fn seg_chars(g: SegModel) -> Seq<char> {
    match g {
        SegModel::Here => "."@,
        SegModel::Up => ".."@,
        SegModel::Name(s) => s,
    }
}

/// The characters a segment sequence displays as: segments joined by `/`.
pub open spec fn render_segs(s: Seq<SegModel>) -> Seq<char>
    decreases s.len(),
{
    if s.len() <= 0 {
        Seq::empty()
    } else if s.len() == 1 {
        seg_chars(s[0])
    } else {
        seg_chars(s[0]) + "/"@ + render_segs(s.drop_first())
    }
}

/// The characters a whole path displays as: a leading `/` when absolute,
/// then the segments joined by `/`.
pub open spec fn render_path(m: PathModel) -> Seq<char> {
    if m.absolute {
        "/"@ + render_segs(m.segments)
    } else {
        render_segs(m.segments)
    }
}

/// Appending one segment extends the rendering by a separator (when
/// anything was rendered before) and the segment's characters.
pub proof fn lemma_render_push(s: Seq<SegModel>, g: SegModel)
    ensures
        render_segs(s.push(g)) == if s.len() == 0 {
            seg_chars(g)
        } else {
            render_segs(s) + "/"@ + seg_chars(g)
        },
    decreases s.len(),
{
    if s.len() == 0 {
        assert(s.push(g)[0] == g);
    } else if s.len() == 1 {
        assert(s.push(g).drop_first() =~= seq![g]);
        assert(render_segs(seq![g]) == seg_chars(g));
    } else {
        assert(s.push(g).drop_first() =~= s.drop_first().push(g));
        lemma_render_push(s.drop_first(), g);
        assert(render_segs(s.push(g)) =~= render_segs(s) + "/"@ + seg_chars(g));
    }
}

impl LexPath {
    /// Renders the path as a string: `/`-separated segments, with a
    /// leading `/` when the path is absolute. The empty relative path
    /// renders as the empty string; the bare root renders as `/`.
    pub fn to_path_string(&self) -> (r: String)
        ensures
            r@ == render_path(self@),
    {
        let mut out = String::new();
        if self.absolute {
            out.append("/");
        }
        let ghost lead: Seq<char> = if self.absolute {
            "/"@
        } else {
            Seq::<char>::empty()
        };
        proof {
            assert(out@ =~= lead + render_segs(seg_views(self.segments@).take(0)));
        }
        let mut i: usize = 0;
        while i < self.segments.len()
            invariant
                i <= self.segments.len(),
                out@ == lead + render_segs(seg_views(self.segments@).take(i as int)),
            decreases self.segments.len() - i,
        {
            proof {
                assert(seg_views(self.segments@).take(i as int).len() == i as int);
            }
            if i > 0 {
                out.append("/");
            }
            match &self.segments[i] {
                Segment::Here => out.append("."),
                Segment::Up => out.append(".."),
                Segment::Name(s) => out.append(s.as_str()),
            }
            proof {
                let pre = seg_views(self.segments@).take(i as int);
                let g = self.segments@[i as int]@;
                lemma_render_push(pre, g);
                assert(pre.push(g) =~= seg_views(self.segments@).take(i as int + 1));
                assert(out@ =~= lead + render_segs(seg_views(self.segments@).take(i as int + 1)));
            }
            i += 1;
        }
        proof {
            assert(seg_views(self.segments@).take(self.segments@.len() as int) =~= seg_views(
                self.segments@,
            ));
        }
        out
    }
}

} // verus!
