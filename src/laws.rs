//! Properties of every step of a walk, each proved from the step relation
//! that [`crate::FsTree::step`] meets.
use vstd::prelude::*;

use crate::fs_tree::{opens, yields_failure, yields_path, Action, Event, PhaseView, WalkState};

verus! {

/// The depth of the path that a step from `s` may yield: zero for the root,
/// otherwise the depth of the entries read from the deepest open directory.
pub open spec fn yield_depth(s: WalkState) -> nat {
    if s.phase is OpeningRoot {
        0
    } else {
        s.depth()
    }
}

/// The number of directory handles that the caller holds after carrying out
/// `act`, having held `before` when it reported `ev`.
pub open spec fn handles_after(before: int, ev: Event, act: Action) -> int {
    before + (if ev is Opened { 1int } else { 0int }) - (if act is CloseTop { 1int } else { 0int })
}

/// A yielded path is the root, just opened, or the entry that was being
/// inspected or opened; it is never on the ignore-files list, and its depth
/// lies within the depth bounds.
pub proof fn lemma_yields_only_walked_paths(
    s: WalkState,
    ev: Event,
    t: WalkState,
    act: Action,
    p: Seq<char>,
)
    requires
        s.wf(),
        s.expects(ev),
        s.step(ev, t, act),
        yields_path(act, p),
    ensures
        (s.phase is OpeningRoot && p == s.config.root) || s.phase == PhaseView::Inspecting(p)
            || s.phase == PhaseView::OpeningChild(p),
        !s.config.ignores_file(p),
        s.config.deep_enough(yield_depth(s)),
        s.config.within_max(yield_depth(s)),
        t.yielded == s.yielded.push(p),
{
}

/// Every yielded path lies between the minimum and the maximum depth.
pub proof fn lemma_yield_depth_in_bounds(
    s: WalkState,
    ev: Event,
    t: WalkState,
    act: Action,
    p: Seq<char>,
)
    requires
        s.wf(),
        s.expects(ev),
        s.step(ev, t, act),
        yields_path(act, p),
    ensures
        s.config.min_depth <= yield_depth(s),
        match s.config.max_depth {
            Some(m) => yield_depth(s) <= m,
            None => true,
        },
{
}

/// Pre-order: when an entry is yielded, the directory it was read from has
/// been yielded before it, unless that directory lies above the minimum depth
/// or is the root on the ignore-files list.
pub proof fn lemma_parent_yielded_first(
    s: WalkState,
    ev: Event,
    t: WalkState,
    act: Action,
    p: Seq<char>,
)
    requires
        s.wf(),
        s.expects(ev),
        s.step(ev, t, act),
        yields_path(act, p),
        !(s.phase is OpeningRoot),
    ensures
        s.depth() >= 1,
        ({
            let parent = s.stack[s.depth() - 1];
            ||| s.yielded.contains(parent)
            ||| !s.config.deep_enough((s.depth() - 1) as nat)
            ||| (s.depth() == 1 && s.config.ignores_file(s.config.root))
        }),
{
    let d = s.depth() - 1;
    if d >= 1 && s.config.deep_enough(d as nat) {
        assert(s.yielded.contains(s.stack[d]));
    }
}

/// A path on the ignore-files list is never yielded, and never opened unless
/// it is the root.
pub proof fn lemma_ignored_file_hidden(
    s: WalkState,
    ev: Event,
    t: WalkState,
    act: Action,
    p: Seq<char>,
)
    requires
        s.wf(),
        s.expects(ev),
        s.step(ev, t, act),
        s.config.ignores_file(p),
    ensures
        !yields_path(act, p),
        p != s.config.root ==> !opens(act, p),
{
}

/// A path on the ignore-paths list other than the root is never opened; once
/// it is inspected at a depth that may be yielded, it is yielded.
pub proof fn lemma_ignored_path_kept(
    s: WalkState,
    ev: Event,
    t: WalkState,
    act: Action,
    p: Seq<char>,
)
    requires
        s.wf(),
        s.expects(ev),
        s.step(ev, t, act),
        s.config.ignores_path(p),
        p != s.config.root,
    ensures
        !opens(act, p),
        (s.phase == PhaseView::Inspecting(p) && ev is Metadata && s.config.deep_enough(s.depth()))
            ==> yields_path(act, p),
{
}

/// A symbolic link is a leaf: it is never opened, whatever it points to, and
/// it is yielded when deep enough.
pub proof fn lemma_symlink_is_leaf(
    s: WalkState,
    t: WalkState,
    act: Action,
    p: Seq<char>,
    is_dir: bool,
)
    requires
        s.wf(),
        s.phase == PhaseView::Inspecting(p),
        s.step(Event::Metadata { is_symlink: true, is_dir }, t, act),
    ensures
        !(act is OpenDir),
        s.config.deep_enough(s.depth()) ==> yields_path(act, p),
{
}

/// Once the walk has signalled its end, every later step signals it again.
pub proof fn lemma_end_is_final(s: WalkState, ev: Event, t: WalkState, act: Action)
    requires
        s.step(ev, t, act),
    ensures
        act is Finish ==> t.phase is Done,
        s.phase is Done ==> act is Finish && t == s,
{
}

/// The caller's open handles, counted as it opens and closes directories on
/// the walk's request, always number as many as the walk's stack holds.
pub proof fn lemma_handles_match_stack(
    s: WalkState,
    ev: Event,
    t: WalkState,
    act: Action,
    before: int,
)
    requires
        s.wf(),
        s.expects(ev),
        s.step(ev, t, act),
        before == s.stack.len(),
    ensures
        handles_after(before, ev, act) == t.stack.len(),
{
}

/// With a maximum depth of zero nothing is read from any directory, and only
/// the root can be yielded.
pub proof fn lemma_depth_zero_reads_nothing(
    s: WalkState,
    ev: Event,
    t: WalkState,
    act: Action,
    p: Seq<char>,
)
    requires
        s.wf(),
        s.expects(ev),
        s.step(ev, t, act),
        s.config.max_depth == Some(0usize),
    ensures
        !(act is ReadTop),
        yields_path(act, p) ==> p == s.config.root,
{
}

/// A root that cannot be opened is reported as a failure of the root, and
/// the walk ends.
pub proof fn lemma_root_failure_ends(s: WalkState, e: std::io::Error, t: WalkState, act: Action)
    requires
        s.phase is OpeningRoot,
        s.step(Event::OpenFailed(e), t, act),
    ensures
        yields_failure(act, s.config.root, e),
        t.phase is Done,
{
}

/// A subdirectory that cannot be opened is still yielded when deep enough,
/// its failure is reported on the next draw, and the walk then reads on in the
/// directory it was found in.
pub proof fn lemma_unreadable_dir_reported(
    s: WalkState,
    e: std::io::Error,
    t: WalkState,
    act: Action,
    u: WalkState,
    act2: Action,
    p: Seq<char>,
)
    requires
        s.wf(),
        s.phase == PhaseView::OpeningChild(p),
        s.step(Event::OpenFailed(e), t, act),
        s.config.deep_enough(s.depth()),
        t.step(Event::Draw, u, act2),
    ensures
        yields_path(act, p),
        yields_failure(act2, p, e),
        u.stack == s.stack,
        u.phase is Idle && u.pending is None,
{
}

} // verus!
