use vstd::prelude::*;

use crate::fs_tree::{FsTree, WalkConfig};

verus! {

/// The path sequence held by a list of owned strings.
pub open spec fn paths_view(v: Seq<String>) -> Seq<Seq<char>> {
    v.map_values(|s: String| s@)
}

/// The path sequence held by a list of string slices.
pub open spec fn strs_view(v: Seq<&str>) -> Seq<Seq<char>> {
    v.map_values(|s: &str| s@)
}

/// Collects the configuration of a walk: its root, the paths to ignore and
/// the depth bounds.
pub struct FsTreeBuilder {
    path: String,
    ignore_files: Option<Vec<String>>,
    ignore_paths: Option<Vec<String>>,
    max_depth: Option<usize>,
    min_depth: usize,
}

impl View for FsTreeBuilder {
    type V = WalkConfig;

    closed spec fn view(&self) -> WalkConfig {
        WalkConfig {
            root: self.path@,
            ignore_files: match self.ignore_files {
                Some(v) => Some(paths_view(v@)),
                None => None,
            },
            ignore_paths: match self.ignore_paths {
                Some(v) => Some(paths_view(v@)),
                None => None,
            },
            max_depth: self.max_depth,
            min_depth: self.min_depth,
        }
    }
}

impl FsTreeBuilder {
    /// A builder for a walk rooted at `path`, with no ignore lists, no maximum
    /// depth and a minimum depth of zero.
    pub fn new(path: &str) -> (r: FsTreeBuilder)
        ensures
            r@ == (WalkConfig {
                root: path@,
                ignore_files: None,
                ignore_paths: None,
                max_depth: None,
                min_depth: 0,
            }),
    {
        FsTreeBuilder {
            path: path.to_owned(),
            ignore_files: None,
            ignore_paths: None,
            max_depth: None,
            min_depth: 0,
        }
    }

    /// Replaces the list of paths that are neither yielded nor descended into
    /// (chainable).
    pub fn ignore_files(self, paths: &[&str]) -> (r: FsTreeBuilder)
        ensures
            r@ == (WalkConfig { ignore_files: Some(strs_view(paths@)), ..self@ }),
    {
        let mut b = self;
        b._set_ignore_files(paths);
        b
    }

    /// Replaces the list of paths that are neither yielded nor descended into.
    pub fn set_ignore_files(&mut self, paths: &[&str])
        ensures
            final(self)@ == (WalkConfig { ignore_files: Some(strs_view(paths@)), ..old(self)@ }),
    {
        self._set_ignore_files(paths);
    }

    /// Replaces the list of paths that are yielded but not descended into
    /// (chainable).
    pub fn ignore_paths(self, paths: &[&str]) -> (r: FsTreeBuilder)
        ensures
            r@ == (WalkConfig { ignore_paths: Some(strs_view(paths@)), ..self@ }),
    {
        let mut b = self;
        b._set_ignore_paths(paths);
        b
    }

    /// Replaces the list of paths that are yielded but not descended into.
    pub fn set_ignore_paths(&mut self, paths: &[&str])
        ensures
            final(self)@ == (WalkConfig { ignore_paths: Some(strs_view(paths@)), ..old(self)@ }),
    {
        self._set_ignore_paths(paths);
    }

    /// Sets the maximum depth: directories at this depth are yielded but not
    /// opened (chainable).
    pub fn max_depth(self, value: usize) -> (r: FsTreeBuilder)
        ensures
            r@ == (WalkConfig { max_depth: Some(value), ..self@ }),
    {
        let mut b = self;
        b.max_depth = Some(value);
        b
    }

    /// Sets the maximum depth: directories at this depth are yielded but not
    /// opened.
    pub fn set_max_depth(&mut self, value: usize)
        ensures
            final(self)@ == (WalkConfig { max_depth: Some(value), ..old(self)@ }),
    {
        self.max_depth = Some(value);
    }

    /// Sets the minimum depth: shallower entries are walked through but not
    /// yielded (chainable).
    pub fn min_depth(self, value: usize) -> (r: FsTreeBuilder)
        ensures
            r@ == (WalkConfig { min_depth: value, ..self@ }),
    {
        let mut b = self;
        b.min_depth = value;
        b
    }

    /// Sets the minimum depth: shallower entries are walked through but not
    /// yielded.
    pub fn set_min_depth(&mut self, value: usize)
        ensures
            final(self)@ == (WalkConfig { min_depth: value, ..old(self)@ }),
    {
        self.min_depth = value;
    }

    /// The walk over this configuration, not yet started. No I/O happens here.
    pub fn build(self) -> (r: FsTree)
        ensures
            r@ == FsTree::fresh_state(self@),
            r@.wf(),
    {
        FsTree::start(self.path, self.ignore_files, self.ignore_paths, self.max_depth, self.min_depth)
    }

    fn _set_ignore_files(&mut self, paths: &[&str])
        ensures
            final(self)@ == (WalkConfig { ignore_files: Some(strs_view(paths@)), ..old(self)@ }),
    {
        let v = Self::_path_buf_collect(paths);
        self.ignore_files = Some(v);
    }

    fn _set_ignore_paths(&mut self, paths: &[&str])
        ensures
            final(self)@ == (WalkConfig { ignore_paths: Some(strs_view(paths@)), ..old(self)@ }),
    {
        let v = Self::_path_buf_collect(paths);
        self.ignore_paths = Some(v);
    }

    /// Owned copies of `paths`, in order.
    fn _path_buf_collect(paths: &[&str]) -> (r: Vec<String>)
        ensures
            paths_view(r@) == strs_view(paths@),
    {
        let mut r: Vec<String> = Vec::new();
        let n = paths.len();
        let mut i: usize = 0;
        while i < n
            invariant
                n == paths@.len(),
                i <= n,
                paths_view(r@) == strs_view(paths@.subrange(0, i as int)),
            decreases n - i,
        {
            let ghost old_r = r@;
            let s = paths[i].to_owned();
            assert(s@ == paths@[i as int]@);
            r.push(s);
            proof {
                assert(paths_view(r@) =~= paths_view(old_r).push(s@));
                assert(paths@.subrange(0, i + 1) =~= paths@.subrange(0, i as int).push(paths@[i as int]));
                assert(paths_view(r@) =~= strs_view(paths@.subrange(0, i + 1)));
            }
            i = i + 1;
        }
        assert(paths@.subrange(0, n as int) =~= paths@);
        r
    }
}

} // verus!
