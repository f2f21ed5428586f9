//! Upward search for a configuration file: the ordered candidate list,
//! and the selection of the first candidate the host found on disk.

use vstd::arithmetic::mul::{lemma_mul_inequality, lemma_mul_is_distributive_add_other_way};
use vstd::prelude::*;
use vstd::string::StringExecFns;
use crate::error::{ErrorModel, LocateError};
use crate::path::{LexPath, PathModel, SegModel, Segment, clone_lexpath, clone_segments,
    lemma_seg_views_push, seg_views};
use crate::relative::{display_path, spec_display};

verus! {

/// Describes a file sourced from a file: a basename without extension,
/// optionally joined under a subdirectory.
pub struct FileSourceFile {
    /// Basename of the configuration file, without extension.
    name: String,
    /// Subdirectory the file lives in, joined in front of the basename
    /// before each probe. When absent the basename is probed directly.
    path: Option<String>,
}

/// The mathematical model of a `FileSourceFile`.
#[verifier::ext_equal]
pub struct SourceModel {
    pub name: Seq<char>,
    pub subdir: Option<Seq<char>>,
}

impl View for FileSourceFile {
    type V = SourceModel;

    closed spec fn view(&self) -> SourceModel {
        SourceModel {
            name: self.name@,
            subdir: match self.path {
                Some(p) => Some(p@),
                None => None,
            },
        }
    }
}

/// The basename shown in diagnostics: `subdir/name`, or `name` alone.
pub open spec fn spec_basename_display(m: SourceModel) -> Seq<char> {
    match m.subdir {
        Some(d) => d + "/"@ + m.name,
        None => m.name,
    }
}

/// The file name probed for one extension: `name.ext`.
pub open spec fn candidate_file_name(m: SourceModel, ext: Seq<char>) -> Seq<char> {
    m.name + "."@ + ext
}

/// The segments joined under a probed directory: the subdirectory when
/// one was given, then `name.ext`.
pub open spec fn base_segments(m: SourceModel, ext: Seq<char>) -> Seq<SegModel> {
    match m.subdir {
        Some(d) => seq![SegModel::Name(d), SegModel::Name(candidate_file_name(m, ext))],
        None => seq![SegModel::Name(candidate_file_name(m, ext))],
    }
}

/// The directory probed `d` steps above the working directory.
pub open spec fn dir_at(cwd: Seq<SegModel>, d: int) -> Seq<SegModel> {
    cwd.take(cwd.len() - d)
}

/// The candidate probed in the directory `d` steps up, for one extension.
pub open spec fn candidate_model(cwd: PathModel, m: SourceModel, ext: Seq<char>, d: int) -> PathModel {
    PathModel { absolute: cwd.absolute, segments: dir_at(cwd.segments, d) + base_segments(m, ext) }
}

/// Where the candidate for directory step `d` and extension position `e`
/// sits in the flat candidate list: nearer directories come first, and
/// within one directory the extensions keep their supplied order.
pub open spec fn candidate_index(n_ext: int, d: int, e: int) -> int {
    d * n_ext + e
}

/// A candidate of a nearer directory always precedes every candidate of
/// a farther one in the flat list.
pub proof fn lemma_candidate_index_order(n_ext: int, d1: int, e1: int, d2: int, e2: int)
    requires
        0 <= e1 < n_ext,
        0 <= e2 < n_ext,
        0 <= d1 < d2,
    ensures
        candidate_index(n_ext, d1, e1) < candidate_index(n_ext, d2, e2),
{
    lemma_mul_is_distributive_add_other_way(n_ext, d1, 1);
    lemma_mul_inequality(d1 + 1, d2, n_ext);
}

/// The position of the first `true` in a probe sequence, if any.
pub open spec fn spec_first_true(s: Seq<bool>) -> Option<int>
    decreases s.len(),
{
    if s.len() == 0 {
        None
    } else if s[0] {
        Some(0int)
    } else {
        match spec_first_true(s.drop_first()) {
            Some(i) => Some(i + 1),
            None => None,
        }
    }
}

/// What `spec_first_true` returns: a position that holds `true` with
/// nothing but `false` before it, or `None` when nothing holds `true`.
pub proof fn lemma_first_true_characterization(s: Seq<bool>)
    ensures
        match spec_first_true(s) {
            Some(i) => 0 <= i < s.len() && s[i] && forall|j: int| 0 <= j < i ==> !s[j],
            None => forall|j: int| 0 <= j < s.len() ==> !s[j],
        },
    decreases s.len(),
{
    if s.len() > 0 && !s[0] {
        lemma_first_true_characterization(s.drop_first());
        match spec_first_true(s.drop_first()) {
            Some(i) => {
                assert forall|j: int| 0 <= j < i + 1 implies !s[j] by {
                    if j > 0 {
                        assert(s.drop_first()[j - 1] == s[j]);
                    }
                }
            },
            None => {
                assert forall|j: int| 0 <= j < s.len() implies !s[j] by {
                    if j > 0 {
                        assert(s.drop_first()[j - 1] == s[j]);
                    }
                }
            },
        }
    }
}

/// A position that holds `true` with nothing but `false` before it is
/// the first `true`.
pub proof fn lemma_first_true_is(s: Seq<bool>, i: int)
    requires
        0 <= i < s.len(),
        s[i],
        forall|j: int| 0 <= j < i ==> !s[j],
    ensures
        spec_first_true(s) == Some(i),
    decreases i,
{
    if i == 0 {
    } else {
        assert(s.drop_first()[i - 1] == s[i]);
        assert forall|j: int| 0 <= j < i - 1 implies !s.drop_first()[j] by {
            assert(s.drop_first()[j] == s[j + 1]);
        }
        lemma_first_true_is(s.drop_first(), i - 1);
    }
}

/// Upward exhaustion: when no probe anywhere up to the root found a
/// file, nothing is selected, and `select` then reports `NotFound`.
pub proof fn lemma_upward_exhaustion(s: Seq<bool>)
    requires
        forall|j: int| 0 <= j < s.len() ==> !s[j],
    ensures
        spec_first_true(s) is None,
    decreases s.len(),
{
    if s.len() > 0 {
        assert forall|j: int| 0 <= j < s.len() - 1 implies !s.drop_first()[j] by {
            assert(s.drop_first()[j] == s[j + 1]);
        }
        lemma_upward_exhaustion(s.drop_first());
    }
}

/// While a probe anywhere up to the root found a file, a candidate is
/// selected — one that a probe found, no later in the priority order
/// than the hit — and `select` then returns its path and display form.
pub proof fn lemma_probe_hit_selects(probes: Seq<bool>, j: int)
    requires
        0 <= j < probes.len(),
        probes[j],
    ensures
        spec_first_true(probes) matches Some(i) && 0 <= i <= j && probes[i],
{
    lemma_first_true_characterization(probes);
}

/// Extension priority: while the file with the earlier-listed extension
/// exists in a directory, the later-listed one in the same directory is
/// never the file selected.
pub proof fn lemma_extension_priority(probes: Seq<bool>, n_ext: int, d: int, e1: int, e2: int)
    requires
        0 <= d,
        0 <= e1 < e2 < n_ext,
        candidate_index(n_ext, d, e2) < probes.len(),
        probes[candidate_index(n_ext, d, e1)],
    ensures
        spec_first_true(probes) matches Some(i) && i <= candidate_index(n_ext, d, e1) && i
            != candidate_index(n_ext, d, e2),
{
    lemma_first_true_characterization(probes);
}

/// Directory priority: while a file exists in a nearer directory, no
/// candidate of a farther directory is ever the file selected.
pub proof fn lemma_directory_priority(probes: Seq<bool>, n_ext: int, d1: int, e1: int, d2: int)
    requires
        0 <= e1 < n_ext,
        0 <= d1 < d2,
        candidate_index(n_ext, d1, e1) < probes.len(),
        probes[candidate_index(n_ext, d1, e1)],
    ensures
        spec_first_true(probes) matches Some(i) && i <= candidate_index(n_ext, d1, e1) && forall|
            e2: int,
        |
            0 <= e2 < n_ext ==> i != candidate_index(n_ext, d2, e2),
{
    lemma_first_true_characterization(probes);
    let i = spec_first_true(probes).unwrap();
    assert forall|e2: int| 0 <= e2 < n_ext implies i != candidate_index(n_ext, d2, e2) by {
        lemma_candidate_index_order(n_ext, d1, e1, d2, e2);
    }
}

/// Returns the position of the first `true` in `probes`, or `None` when
/// every probe failed.
pub fn first_match(probes: &Vec<bool>) -> (r: Option<usize>)
    ensures
        match r {
            Some(i) => i < probes@.len() && probes@[i as int] && forall|j: int|
                0 <= j < i ==> !probes@[j],
            None => forall|j: int| 0 <= j < probes@.len() ==> !probes@[j],
        },
{
    let mut i: usize = 0;
    while i < probes.len()
        invariant
            i <= probes@.len(),
            forall|j: int| 0 <= j < i ==> !probes@[j],
        decreases probes@.len() - i,
    {
        if probes[i] {
            return Some(i);
        }
        i += 1;
    }
    None
}

impl FileSourceFile {
    /// A source for the file `name.<ext>`, searched for directly in each
    /// probed directory.
    pub fn new(name: &str) -> (r: FileSourceFile)
        ensures
            r@.name == name@,
            r@.subdir is None,
    {
        FileSourceFile { name: name.to_owned(), path: None }
    }

    /// A source for the file `subdirectory/name.<ext>`, searched for
    /// under `subdirectory` in each probed directory.
    pub fn with_subdirectory(name: &str, subdirectory: &str) -> (r: FileSourceFile)
        ensures
            r@.name == name@,
            r@.subdir == Some(subdirectory@),
    {
        FileSourceFile { name: name.to_owned(), path: Some(subdirectory.to_owned()) }
    }

    /// The basename shown in diagnostics: `subdir/name`, or `name` alone.
    pub fn basename_display(&self) -> (r: String)
        ensures
            r@ == spec_basename_display(self@),
    {
        match &self.path {
            Some(p) => {
                let mut s = p.clone();
                s.append("/");
                s.append(self.name.as_str());
                s
            },
            None => self.name.clone(),
        }
    }

    /// The file name probed for one extension: `name.ext`.
    fn candidate_filename(&self, ext: &String) -> (r: String)
        ensures
            r@ == candidate_file_name(self@, ext@),
    {
        let mut s = self.name.clone();
        s.append(".");
        s.append(ext.as_str());
        s
    }

    /// The full ordered candidate list for an upward search that starts
    /// in `cwd`: for each directory from `cwd` up to and including the
    /// root, one candidate per extension, in the supplied extension
    /// order. The host probes these in order; the first that exists as
    /// a file wins.
    #[verifier::loop_isolation(false)]
    pub fn candidate_paths(&self, cwd: &LexPath, extensions: &Vec<String>) -> (r: Vec<LexPath>)
        ensures
            r@.len() == (cwd@.segments.len() + 1) * extensions@.len(),
            forall|d: int, e: int|
                0 <= d <= cwd@.segments.len() && 0 <= e < extensions@.len() ==> (#[trigger] r@[
                    candidate_index(extensions@.len() as int, d, e)
                ])@ =~= candidate_model(cwd@, self@, extensions@[e]@, d),
    {
        let n_ext = extensions.len();
        let cwd_len = cwd.segments.len();
        let mut out: Vec<LexPath> = Vec::new();
        let mut dir: Vec<Segment> = clone_segments(&cwd.segments);
        let mut d: usize = 0;
        let mut done = false;
        while !done
            invariant
                d <= cwd_len,
                done ==> d == cwd_len,
                out@.len() == (d + if done {
                    1int
                } else {
                    0int
                }) * (n_ext as int),
                !done ==> seg_views(dir@) =~= dir_at(cwd@.segments, d as int),
                forall|d2: int, e2: int|
                    0 <= d2 < d + (if done {
                        1int
                    } else {
                        0int
                    }) && 0 <= e2 < n_ext ==> (#[trigger] out@[candidate_index(
                        n_ext as int,
                        d2,
                        e2,
                    )])@ =~= candidate_model(cwd@, self@, extensions@[e2]@, d2),
            decreases cwd_len - d + (if done {
                0int
            } else {
                1int
            }),
        {
            let mut e: usize = 0;
            while e < n_ext
                invariant
                    d <= cwd_len,
                    e <= n_ext,
                    out@.len() == d * (n_ext as int) + e,
                    seg_views(dir@) =~= dir_at(cwd@.segments, d as int),
                    forall|d2: int, e2: int|
                        0 <= d2 < d && 0 <= e2 < n_ext ==> (#[trigger] out@[candidate_index(
                            n_ext as int,
                            d2,
                            e2,
                        )])@ =~= candidate_model(cwd@, self@, extensions@[e2]@, d2),
                    forall|e2: int|
                        0 <= e2 < e ==> (#[trigger] out@[candidate_index(
                            n_ext as int,
                            d as int,
                            e2,
                        )])@ =~= candidate_model(cwd@, self@, extensions@[e2]@, d as int),
                decreases n_ext - e,
            {
                let mut segs = clone_segments(&dir);
                match &self.path {
                    Some(p) => {
                        let sub_seg = Segment::Name(p.clone());
                        proof {
                            lemma_seg_views_push(segs@, sub_seg);
                        }
                        segs.push(sub_seg);
                    },
                    None => {},
                }
                let file_seg = Segment::Name(self.candidate_filename(&extensions[e]));
                proof {
                    lemma_seg_views_push(segs@, file_seg);
                }
                segs.push(file_seg);
                proof {
                    assert(seg_views(segs@) =~= dir_at(cwd@.segments, d as int) + base_segments(
                        self@,
                        extensions@[e as int]@,
                    ));
                }
                let cand = LexPath { absolute: cwd.absolute, segments: segs };
                proof {
                    assert(cand@ =~= candidate_model(cwd@, self@, extensions@[e as int]@, d as int));
                    assert(candidate_index(n_ext as int, d as int, e as int) == out@.len());
                    assert forall|d2: int, e2: int|
                        0 <= d2 < d && 0 <= e2 < n_ext implies candidate_index(n_ext as int, d2, e2)
                        < out@.len() by {
                        lemma_candidate_index_order(n_ext as int, d2, e2, d as int, e as int);
                    }
                }
                out.push(cand);
                e += 1;
            }
            proof {
                lemma_mul_is_distributive_add_other_way(n_ext as int, d as int, 1);
            }
            if d < cwd_len {
                let _ = dir.pop();
                proof {
                    assert(seg_views(dir@) =~= dir_at(cwd@.segments, d as int + 1));
                }
                d += 1;
            } else {
                done = true;
            }
        }
        proof {
            assert(out@.len() == (cwd@.segments.len() + 1) * (n_ext as int));
        }
        out
    }

    /// Rejects an empty extension list, and otherwise plans the upward
    /// search as the full ordered candidate list.
    pub fn plan(&self, cwd: &LexPath, extensions: &Vec<String>) -> (r: Result<
        Vec<LexPath>,
        LocateError,
    >)
        ensures
            match r {
                Ok(c) => extensions@.len() > 0 && c@.len() == (cwd@.segments.len() + 1)
                    * extensions@.len() && forall|d: int, e: int|
                    0 <= d <= cwd@.segments.len() && 0 <= e < extensions@.len() ==> (#[trigger] c@[
                        candidate_index(extensions@.len() as int, d, e)
                    ])@ =~= candidate_model(cwd@, self@, extensions@[e]@, d),
                Err(er) => extensions@.len() == 0 && er@ == ErrorModel::EmptyExtensionList,
            },
    {
        if extensions.len() == 0 {
            Err(LocateError::EmptyExtensionList)
        } else {
            Ok(self.candidate_paths(cwd, extensions))
        }
    }

    /// Selects the first candidate the host's probes found on disk, and
    /// pairs it with its display path relative to `cwd`; when every
    /// probe failed, reports `NotFound` carrying the requested basename.
    pub fn select(&self, candidates: &Vec<LexPath>, probes: &Vec<bool>, cwd: &LexPath) -> (r:
        Result<(LexPath, LexPath), LocateError>)
        requires
            probes@.len() == candidates@.len(),
        ensures
            match r {
                Ok(pair) => spec_first_true(probes@) matches Some(i) && pair.0@ == candidates@[i]@
                    && pair.1@ == spec_display(candidates@[i]@, cwd@),
                Err(er) => spec_first_true(probes@) is None && er@ == ErrorModel::NotFound(
                    spec_basename_display(self@),
                ),
            },
    {
        match first_match(probes) {
            Some(i) => {
                proof {
                    lemma_first_true_is(probes@, i as int);
                }
                let found = clone_lexpath(&candidates[i]);
                let shown = display_path(&found, cwd);
                Ok((found, shown))
            },
            None => {
                proof {
                    lemma_upward_exhaustion(probes@);
                }
                Err(LocateError::NotFound(self.basename_display()))
            },
        }
    }
}

} // verus!
