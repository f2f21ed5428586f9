//! Lexical relative-path computation: given a target path and a base
//! path of the same kind, compute how to reach the target from the base
//! using `..` steps, without consulting the filesystem.

use vstd::prelude::*;
use crate::path::{LexPath, PathModel, SegModel, Segment, clone_lexpath, clone_segment,
    lemma_seg_views_push, seg_views, segment_eq};

verus! {

/// Length of the longest shared prefix of identical segments.
pub open spec fn common_len(a: Seq<SegModel>, b: Seq<SegModel>) -> int
    decreases a.len(),
{
    if a.len() == 0 || b.len() == 0 || a[0] != b[0] {
        0
    } else {
        1 + common_len(a.drop_first(), b.drop_first())
    }
}

/// How many `..` steps the remainder of a base path demands: each plain
/// name costs one step, `.` costs nothing, and `..` makes the climb
/// impossible.
pub open spec fn climb_steps(rest: Seq<SegModel>) -> Option<int>
    decreases rest.len(),
{
    if rest.len() == 0 {
        Some(0int)
    } else if rest[0] == SegModel::Up {
        None
    } else if rest[0] == SegModel::Here {
        climb_steps(rest.drop_first())
    } else {
        match climb_steps(rest.drop_first()) {
            Some(n) => Some(n + 1),
            None => None,
        }
    }
}

/// A run of `n` parent-directory segments.
pub open spec fn ups(n: int) -> Seq<SegModel> {
    Seq::new(if n >= 0 { n as nat } else { 0 }, |i: int| SegModel::Up)
}

/// The relative path from `base` to `target`, or `None` when it cannot
/// be computed. Paths of mixed kind are not comparable: an absolute
/// target is returned unchanged, a relative one yields `None`. For
/// paths of the same kind the shared prefix is skipped, each remaining
/// plain name of `base` becomes one `..` step (`.` contributes nothing,
/// `..` in the base remainder makes the result undefined), and the
/// remaining segments of `target` follow.
pub open spec fn spec_relativize(target: PathModel, base: PathModel) -> Option<PathModel> {
    if target.absolute != base.absolute {
        if target.absolute {
            Some(target)
        } else {
            None
        }
    } else {
        let k = common_len(target.segments, base.segments);
        match climb_steps(base.segments.skip(k)) {
            None => None,
            Some(n) => Some(
                PathModel { absolute: false, segments: ups(n) + target.segments.skip(k) },
            ),
        }
    }
}

/// The path shown to a caller for a located file: the relative form
/// when it is computable, the located path itself otherwise.
pub open spec fn spec_display(found: PathModel, cwd: PathModel) -> PathModel {
    match spec_relativize(found, cwd) {
        Some(p) => p,
        None => found,
    }
}

/// A position where both paths still agree on everything before it, and
/// disagree at it or exhaust one path, is the shared prefix length.
pub proof fn lemma_common_len_is(a: Seq<SegModel>, b: Seq<SegModel>, k: int)
    requires
        0 <= k <= a.len(),
        k <= b.len(),
        forall|j: int| 0 <= j < k ==> a[j] == b[j],
        k < a.len() && k < b.len() ==> a[k] != b[k],
    ensures
        common_len(a, b) == k,
    decreases k,
{
    if k == 0 {
    } else {
        assert(a[0] == b[0]);
        assert forall|j: int| 0 <= j < k - 1 implies a.drop_first()[j] == b.drop_first()[j] by {
            assert(a.drop_first()[j] == a[j + 1]);
            assert(b.drop_first()[j] == b[j + 1]);
        }
        if k - 1 < a.drop_first().len() && k - 1 < b.drop_first().len() {
            assert(a.drop_first()[k - 1] == a[k]);
            assert(b.drop_first()[k - 1] == b[k]);
        }
        lemma_common_len_is(a.drop_first(), b.drop_first(), k - 1);
    }
}

/// Computes the lexical relative path from `base` to `path`, exactly as
/// `spec_relativize` states it.
#[verifier::loop_isolation(false)]
pub fn path_relative_from(path: &LexPath, base: &LexPath) -> (r: Option<LexPath>)
    ensures
        match r {
            Some(p) => spec_relativize(path@, base@) == Some(p@),
            None => spec_relativize(path@, base@) is None,
        },
{
    if path.absolute != base.absolute {
        if path.absolute {
            Some(clone_lexpath(path))
        } else {
            None
        }
    } else {
        let ghost ta = seg_views(path.segments@);
        let ghost ba = seg_views(base.segments@);

        // Length of the shared prefix.
        let mut k: usize = 0;
        while k < path.segments.len() && k < base.segments.len() && segment_eq(
            &path.segments[k],
            &base.segments[k],
        )
            invariant
                k <= ta.len(),
                k <= ba.len(),
                forall|j: int| 0 <= j < k ==> ta[j] == ba[j],
            decreases ta.len() - k,
        {
            k += 1;
        }
        proof {
            lemma_common_len_is(ta, ba, k as int);
        }

        // Count the `..` steps the base remainder demands.
        let mut n: usize = 0;
        let mut j: usize = k;
        while j < base.segments.len()
            invariant
                k <= j <= ba.len(),
                n <= j,
                match climb_steps(ba.skip(j as int)) {
                    Some(m) => climb_steps(ba.skip(k as int)) == Some(m + n),
                    None => climb_steps(ba.skip(k as int)) is None,
                },
            decreases ba.len() - j,
        {
            proof {
                assert(ba.skip(j as int)[0] == ba[j as int]);
                assert(ba.skip(j as int).drop_first() =~= ba.skip(j as int + 1));
            }
            match &base.segments[j] {
                Segment::Up => {
                    proof {
                        assert(climb_steps(ba.skip(j as int)) is None);
                    }
                    return None;
                },
                Segment::Here => {},
                Segment::Name(_) => {
                    n += 1;
                },
            }
            j += 1;
        }
        proof {
            assert(ba.skip(ba.len() as int) =~= Seq::<SegModel>::empty());
            assert(climb_steps(ba.skip(k as int)) == Some(n as int));
        }

        // Emit the `..` steps, then the target remainder.
        let mut out: Vec<Segment> = Vec::new();
        let mut c: usize = 0;
        while c < n
            invariant
                c <= n,
                seg_views(out@) =~= ups(c as int),
            decreases n - c,
        {
            proof {
                lemma_seg_views_push(out@, Segment::Up);
            }
            out.push(Segment::Up);
            proof {
                assert(seg_views(out@) =~= ups(c as int + 1));
            }
            c += 1;
        }
        let mut t: usize = k;
        while t < path.segments.len()
            invariant
                k <= t <= ta.len(),
                seg_views(out@) =~= ups(n as int) + ta.subrange(k as int, t as int),
            decreases ta.len() - t,
        {
            let g = clone_segment(&path.segments[t]);
            proof {
                lemma_seg_views_push(out@, g);
                assert(ta.subrange(k as int, t as int).push(ta[t as int]) =~= ta.subrange(
                    k as int,
                    t as int + 1,
                ));
            }
            out.push(g);
            proof {
                assert(seg_views(out@) =~= ups(n as int) + ta.subrange(k as int, t as int + 1));
            }
            t += 1;
        }
        let r = LexPath { absolute: false, segments: out };
        proof {
            assert(ta.subrange(k as int, ta.len() as int) =~= ta.skip(k as int));
            assert(r@ =~= PathModel { absolute: false, segments: ups(n as int) + ta.skip(k as int) });
        }
        Some(r)
    }
}

/// The display path for a located file: the relative form from `cwd`
/// when computable, the located path itself otherwise. Failure to
/// relativize never fails the lookup.
pub fn display_path(found: &LexPath, cwd: &LexPath) -> (r: LexPath)
    ensures
        r@ == spec_display(found@, cwd@),
{
    match path_relative_from(found, cwd) {
        Some(p) => p,
        None => clone_lexpath(found),
    }
}

/// Relativizing any path against itself yields the empty relative path.
pub proof fn lemma_relativize_identity(p: PathModel)
    ensures
        spec_relativize(p, p) == Some(PathModel { absolute: false, segments: Seq::<SegModel>::empty() }),
{
    lemma_common_len_self(p.segments);
    assert(p.segments.skip(p.segments.len() as int) =~= Seq::<SegModel>::empty());
    assert(ups(0) + Seq::<SegModel>::empty() =~= Seq::<SegModel>::empty());
    assert(PathModel {
        absolute: false,
        segments: ups(0) + p.segments.skip(common_len(p.segments, p.segments)),
    } =~= PathModel { absolute: false, segments: Seq::<SegModel>::empty() });
}

/// A path shares its whole length with itself.
pub proof fn lemma_common_len_self(s: Seq<SegModel>)
    ensures
        common_len(s, s) == s.len(),
    decreases s.len(),
{
    if s.len() > 0 {
        lemma_common_len_self(s.drop_first());
    }
}

/// When `base` is a prefix of `target`, the relative path is simply the
/// remaining suffix of `target`, with no `..` steps.
pub proof fn lemma_relativize_descendant(t: PathModel, b: PathModel)
    requires
        t.absolute == b.absolute,
        b.segments.len() <= t.segments.len(),
        b.segments =~= t.segments.take(b.segments.len() as int),
    ensures
        spec_relativize(t, b) == Some(
            PathModel { absolute: false, segments: t.segments.skip(b.segments.len() as int) },
        ),
{
    let m = b.segments.len() as int;
    assert forall|j: int| 0 <= j < m implies t.segments[j] == b.segments[j] by {
        assert(b.segments[j] == t.segments.take(m)[j]);
    }
    lemma_common_len_is(t.segments, b.segments, m);
    assert(b.segments.skip(m) =~= Seq::<SegModel>::empty());
    assert(ups(0) + t.segments.skip(m) =~= t.segments.skip(m));
    assert(PathModel { absolute: false, segments: ups(0) + t.segments.skip(m) } =~= PathModel {
        absolute: false,
        segments: t.segments.skip(m),
    });
}

/// Paths of mixed kind are not comparable: an absolute target passes
/// through unchanged, a relative target against an absolute base has no
/// relative form.
pub proof fn lemma_relativize_mixed(t: PathModel, b: PathModel)
    requires
        t.absolute != b.absolute,
    ensures
        t.absolute ==> spec_relativize(t, b) == Some(t),
        !t.absolute ==> spec_relativize(t, b) is None,
{
}

} // verus!
