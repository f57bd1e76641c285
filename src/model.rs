//! A model of an unchanging directory tree in which nothing fails, of a
//! caller that answers the walk from it, and the proof that the walk then
//! yields exactly the tree's listing: pre-order, ignored files and what lies
//! below them left out, depth bounds applied.
use vstd::prelude::*;

use crate::fs_tree::{Event, PhaseView, WalkConfig, WalkState};

verus! {

/// An unchanging directory tree in which every operation succeeds. Each node
/// carries its full path, as the platform's directory reads hand it out.
pub ghost enum Node {
    File(Seq<char>),
    Link(Seq<char>),
    Dir(Seq<char>, Seq<Node>),
}

impl Node {
    pub open spec fn path(self) -> Seq<char> {
        match self {
            Node::File(p) => p,
            Node::Link(p) => p,
            Node::Dir(p, _) => p,
        }
    }

    pub open spec fn kids(self) -> Seq<Node> {
        match self {
            Node::Dir(_, k) => k,
            _ => Seq::empty(),
        }
    }
}

/// The paths yielded from the subtree `n` found at `depth`, in pre-order.
pub open spec fn listing(c: WalkConfig, n: Node, depth: nat) -> Seq<Seq<char>>
    decreases n, 0nat,
{
    if c.ignores_file(n.path()) {
        Seq::empty()
    } else {
        let own = if c.deep_enough(depth) {
            seq![n.path()]
        } else {
            Seq::empty()
        };
        match n {
            Node::Dir(p, kids) => if c.descends(p, depth, false, true) {
                own + listing_from(c, kids, 0, depth + 1)
            } else {
                own
            },
            _ => own,
        }
    }
}

/// The paths yielded from the siblings `kids[i..]`, all found at `depth`.
pub open spec fn listing_from(c: WalkConfig, kids: Seq<Node>, i: int, depth: nat) -> Seq<Seq<char>>
    decreases kids, (kids.len() - i) as nat,
{
    if 0 <= i < kids.len() {
        listing(c, kids[i], depth) + listing_from(c, kids, i + 1, depth)
    } else {
        Seq::empty()
    }
}

/// The paths that a walk over the tree `root` yields: the root, unless it is
/// ignored or above the minimum depth, then the listing of its entries.
pub open spec fn walk_listing(c: WalkConfig, root: Node) -> Seq<Seq<char>> {
    let own = if c.min_depth == 0 && !c.ignores_file(c.root) {
        seq![c.root]
    } else {
        Seq::empty()
    };
    own + frame_rest(c, (root.kids(), 0), 1)
}

/// What remains to be yielded from one open directory whose entries, found at
/// `depth`, are `f.0` and of which `f.1` were read.
pub open spec fn frame_rest(c: WalkConfig, f: (Seq<Node>, int), depth: nat) -> Seq<Seq<char>> {
    if c.within_max(depth) {
        listing_from(c, f.0, f.1, depth)
    } else {
        Seq::empty()
    }
}

/// What remains to be yielded from all open directories, deepest first.
pub open spec fn rest(c: WalkConfig, frames: Seq<(Seq<Node>, int)>) -> Seq<Seq<char>>
    decreases frames.len(),
{
    if frames.len() == 0 {
        Seq::empty()
    } else {
        frame_rest(c, frames.last(), frames.len()) + rest(c, frames.drop_last())
    }
}


/// The event that a caller walking the tree answers with, given the walk's
/// state `s` after its last step, the caller's open directories `frames`
/// (entries, and how many were read) and the entry `n` it handed out last;
/// `frames2` and `n2` are the caller's state afterwards.
pub open spec fn answers(
    root: Node,
    s: WalkState,
    frames: Seq<(Seq<Node>, int)>,
    n: Node,
    ev: Event,
    frames2: Seq<(Seq<Node>, int)>,
    n2: Node,
) -> bool {
    match s.phase {
        PhaseView::Fresh | PhaseView::Idle | PhaseView::Done => ev is Draw && frames2 == frames
            && n2 == n,
        PhaseView::OpeningRoot => ev is Opened && frames2 == seq![(root.kids(), 0int)] && n2 == n,
        PhaseView::OpeningChild(_) => ev is Opened && frames2 == frames.push((n.kids(), 0int))
            && n2 == n,
        PhaseView::Reading => {
            let top = frames.last();
            if top.1 < top.0.len() {
                &&& ev matches Event::Entry(q)
                &&& q@ == top.0[top.1].path()
                &&& frames2 == frames.update(frames.len() - 1, (top.0, top.1 + 1))
                &&& n2 == top.0[top.1]
            } else {
                ev is Exhausted && frames2 == frames && n2 == n
            }
        },
        PhaseView::Inspecting(_) => {
            &&& ev matches Event::Metadata { is_symlink, is_dir }
            &&& is_symlink == (n is Link)
            &&& is_dir == (n is Dir)
            &&& frames2 == frames
            &&& n2 == n
        },
        PhaseView::Closing => ev is Closed && frames2 == frames.drop_last() && n2 == n,
    }
}

/// The walk `s` and a caller holding `frames` and `n` are in step over the
/// tree `root`: what was yielded, followed by what remains, is the walk's
/// listing of the tree.
pub open spec fn in_step(root: Node, s: WalkState, frames: Seq<(Seq<Node>, int)>, n: Node) -> bool {
    let c = s.config;
    let total = walk_listing(c, root);
    &&& s.wf()
    &&& root is Dir && root.path() == c.root
    &&& s.pending is None
    &&& forall|k: int| 0 <= k < frames.len() ==> 0 <= #[trigger] frames[k].1 <= frames[k].0.len()
    &&& match s.phase {
        PhaseView::Fresh | PhaseView::OpeningRoot => frames.len() == 0 && s.yielded.len() == 0,
        PhaseView::Idle | PhaseView::Reading => frames.len() == s.stack.len() && s.yielded + rest(
            c,
            frames,
        ) == total,
        PhaseView::Inspecting(p) => {
            &&& frames.len() == s.stack.len()
            &&& n.path() == p
            &&& s.yielded + listing(c, n, s.depth()) + rest(c, frames) == total
        },
        PhaseView::OpeningChild(p) => {
            &&& frames.len() == s.stack.len()
            &&& n.path() == p
            &&& n is Dir
            &&& c.descends(p, s.depth(), false, true)
            &&& s.yielded + listing(c, n, s.depth()) + rest(c, frames) == total
        },
        PhaseView::Closing => frames.len() == s.stack.len() + 1 && s.yielded + rest(
            c,
            frames.drop_last(),
        ) == total,
        PhaseView::Done => frames.len() == 0 && s.yielded == total,
    }
}

/// A walk that has not started is in step with a caller that holds nothing.
pub proof fn lemma_fresh_in_step(c: WalkConfig, root: Node, n: Node)
    requires
        root is Dir,
        root.path() == c.root,
    ensures
        in_step(root, crate::fs_tree::FsTree::fresh_state(c), Seq::empty(), n),
{
}

proof fn lemma_rest_push(c: WalkConfig, frames: Seq<(Seq<Node>, int)>, f: (Seq<Node>, int))
    ensures
        rest(c, frames.push(f)) == frame_rest(c, f, frames.len() + 1) + rest(c, frames),
{
    assert(frames.push(f).drop_last() =~= frames);
}

proof fn lemma_rest_empty(c: WalkConfig, frames: Seq<(Seq<Node>, int)>)
    requires
        frames.len() == 0,
    ensures
        rest(c, frames) == Seq::<Seq<char>>::empty(),
{
}

proof fn lemma_frames_bounded(
    frames: Seq<(Seq<Node>, int)>,
    frames2: Seq<(Seq<Node>, int)>,
    root: Node,
    n: Node,
)
    requires
        forall|k: int| 0 <= k < frames.len() ==> 0 <= #[trigger] frames[k].1 <= frames[k].0.len(),
        frames2 == frames || (frames.len() > 0 && frames2 == frames.drop_last()) || frames2 == frames.push(
            (n.kids(), 0int),
        ) || frames2 == seq![(root.kids(), 0int)] || (frames.len() > 0 && frames.last().1
            < frames.last().0.len() && frames2 == frames.update(
            frames.len() - 1,
            (frames.last().0, frames.last().1 + 1),
        )),
    ensures
        forall|k: int| 0 <= k < frames2.len() ==> 0 <= #[trigger] frames2[k].1 <= frames2[k].0.len(),
{
    assert forall|k: int| 0 <= k < frames2.len() implies 0 <= #[trigger] frames2[k].1
        <= frames2[k].0.len() by {
        if frames.len() > 0 && frames2 == frames.drop_last() {
            assert(frames2[k] == frames[k]);
        } else if frames2 == frames.push((n.kids(), 0int)) {
            if k < frames.len() {
                assert(frames2[k] == frames[k]);
            }
        } else if frames2 != frames && frames2 != seq![(root.kids(), 0int)] {
            if k < frames.len() - 1 {
                assert(frames2[k] == frames[k]);
            }
        }
    }
}

/// With the walk's stack at most the root, under a maximum depth of zero,
/// nothing remains to be yielded from the open directories.
proof fn lemma_nothing_rest_at_depth_zero(c: WalkConfig, frames: Seq<(Seq<Node>, int)>)
    requires
        c.max_depth == Some(0usize),
        frames.len() <= 1,
    ensures
        rest(c, frames) == Seq::<Seq<char>>::empty(),
{
    if frames.len() == 1 {
        lemma_rest_empty(c, frames.drop_last());
        assert(frame_rest(c, frames.last(), 1) =~= Seq::<Seq<char>>::empty());
        assert(rest(c, frames) =~= Seq::<Seq<char>>::empty());
    }
}

proof fn lemma_step_opening_root(
    root: Node,
    s: WalkState,
    frames: Seq<(Seq<Node>, int)>,
    n: Node,
    ev: Event,
    frames2: Seq<(Seq<Node>, int)>,
    n2: Node,
    t: WalkState,
    act: crate::fs_tree::Action,
)
    requires
        in_step(root, s, frames, n),
        answers(root, s, frames, n, ev, frames2, n2),
        s.step(ev, t, act),
        t.wf(),
        s.phase is OpeningRoot,
    ensures
        in_step(root, t, frames2, n2),
{
    let c = s.config;
    let total = walk_listing(c, root);
    assert(frames2 =~= Seq::<(Seq<Node>, int)>::empty().push((root.kids(), 0int)));
    lemma_rest_push(c, Seq::empty(), (root.kids(), 0int));
    lemma_rest_empty(c, Seq::empty());
    assert(rest(c, frames2) =~= frame_rest(c, (root.kids(), 0int), 1));
    assert(frames2.drop_last() =~= Seq::<(Seq<Node>, int)>::empty());
    if t.phase is Idle {
        assert(t.yielded + rest(c, frames2) =~= total);
    } else if t.phase is Reading {
        assert(t.yielded + rest(c, frames2) =~= total);
    } else if t.phase is Closing {
        assert(c.max_depth == Some(0usize));
        assert(frame_rest(c, (root.kids(), 0int), 1) =~= Seq::<Seq<char>>::empty());
        assert(t.yielded + rest(c, frames2.drop_last()) =~= total);
    }
}

proof fn lemma_step_reading(
    root: Node,
    s: WalkState,
    frames: Seq<(Seq<Node>, int)>,
    n: Node,
    ev: Event,
    frames2: Seq<(Seq<Node>, int)>,
    n2: Node,
    t: WalkState,
    act: crate::fs_tree::Action,
)
    requires
        in_step(root, s, frames, n),
        answers(root, s, frames, n, ev, frames2, n2),
        s.step(ev, t, act),
        t.wf(),
        s.phase is Reading,
    ensures
        in_step(root, t, frames2, n2),
{
    let c = s.config;
    let total = walk_listing(c, root);
    let top = frames.last();
    let d = s.depth();
    assert(frames.drop_last().push(top) =~= frames);
    lemma_rest_push(c, frames.drop_last(), top);
    assert(0 <= frames[frames.len() - 1].1);
    if top.1 < top.0.len() {
        let next = (top.0, top.1 + 1);
        assert(frames2 =~= frames.drop_last().push(next));
        lemma_rest_push(c, frames.drop_last(), next);
        assert(listing_from(c, top.0, top.1, d) =~= listing(c, top.0[top.1], d) + listing_from(
            c,
            top.0,
            top.1 + 1,
            d,
        ));
        assert(rest(c, frames) =~= listing(c, top.0[top.1], d) + rest(c, frames2));
        assert(s.yielded + rest(c, frames) =~= s.yielded + listing(c, top.0[top.1], d) + rest(
            c,
            frames2,
        ));
        if c.ignores_file(top.0[top.1].path()) {
            assert(listing(c, top.0[top.1], d) =~= Seq::<Seq<char>>::empty());
            assert(s.yielded + listing(c, top.0[top.1], d) + rest(c, frames2) =~= s.yielded + rest(
                c,
                frames2,
            ));
        }
    } else {
        assert(listing_from(c, top.0, top.1, d) =~= Seq::<Seq<char>>::empty());
        assert(rest(c, frames) =~= rest(c, frames.drop_last()));
    }
}

proof fn lemma_step_inspecting(
    root: Node,
    s: WalkState,
    frames: Seq<(Seq<Node>, int)>,
    n: Node,
    ev: Event,
    frames2: Seq<(Seq<Node>, int)>,
    n2: Node,
    t: WalkState,
    act: crate::fs_tree::Action,
)
    requires
        in_step(root, s, frames, n),
        answers(root, s, frames, n, ev, frames2, n2),
        s.step(ev, t, act),
        t.wf(),
        s.phase is Inspecting,
    ensures
        in_step(root, t, frames2, n2),
{
    let c = s.config;
    let p = n.path();
    let d = s.depth();
    if t.phase is Idle {
        assert(listing(c, n, d) =~= seq![p]);
        assert(s.yielded + listing(c, n, d) =~= s.yielded.push(p));
    } else if t.phase is Reading {
        assert(listing(c, n, d) =~= Seq::<Seq<char>>::empty());
        assert(s.yielded + listing(c, n, d) =~= s.yielded);
    }
}

proof fn lemma_step_opening_child(
    root: Node,
    s: WalkState,
    frames: Seq<(Seq<Node>, int)>,
    n: Node,
    ev: Event,
    frames2: Seq<(Seq<Node>, int)>,
    n2: Node,
    t: WalkState,
    act: crate::fs_tree::Action,
)
    requires
        in_step(root, s, frames, n),
        answers(root, s, frames, n, ev, frames2, n2),
        s.step(ev, t, act),
        t.wf(),
        s.phase is OpeningChild,
    ensures
        in_step(root, t, frames2, n2),
{
    let c = s.config;
    let p = n.path();
    let d = s.depth();
    lemma_rest_push(c, frames, (n.kids(), 0int));
    assert(rest(c, frames2) =~= listing_from(c, n.kids(), 0, d + 1) + rest(c, frames));
    if t.phase is Idle {
        assert(listing(c, n, d) =~= seq![p] + listing_from(c, n.kids(), 0, d + 1));
        assert(s.yielded + listing(c, n, d) + rest(c, frames) =~= s.yielded.push(p) + rest(
            c,
            frames2,
        ));
    } else {
        assert(listing(c, n, d) =~= listing_from(c, n.kids(), 0, d + 1));
        assert(s.yielded + listing(c, n, d) + rest(c, frames) =~= s.yielded + rest(c, frames2));
    }
}

/// The step from an idle or closing walk, whose caller holds as many
/// directories as the walk's stack, goes on as the remaining listing says.
proof fn lemma_step_going_on(
    root: Node,
    s: WalkState,
    frames: Seq<(Seq<Node>, int)>,
    t: WalkState,
    act: crate::fs_tree::Action,
)
    requires
        s.wf(),
        t.wf(),
        s.pending is None,
        s.goes_on(t, act),
        frames.len() == s.stack.len(),
        s.yielded + rest(s.config, frames) == walk_listing(s.config, root),
    ensures
        t.phase is Done ==> frames.len() == 0 && t.yielded == walk_listing(s.config, root),
        t.phase is Closing ==> frames.len() == t.stack.len() + 1 && t.yielded + rest(
            s.config,
            frames.drop_last(),
        ) == walk_listing(s.config, root),
{
    let c = s.config;
    if t.phase is Done {
        assert(s.yielded + rest(c, frames) =~= s.yielded);
    } else if t.phase is Closing {
        lemma_nothing_rest_at_depth_zero(c, frames);
        lemma_nothing_rest_at_depth_zero(c, frames.drop_last());
        assert(s.yielded + rest(c, frames) =~= s.yielded);
        assert(s.yielded + rest(c, frames.drop_last()) =~= s.yielded);
    }
}

/// Over an unchanging tree in which nothing fails, every step of the walk,
/// answered as the tree says, keeps the walk in step with the caller.
pub proof fn lemma_step_in_step(
    root: Node,
    s: WalkState,
    frames: Seq<(Seq<Node>, int)>,
    n: Node,
    ev: Event,
    frames2: Seq<(Seq<Node>, int)>,
    n2: Node,
    t: WalkState,
    act: crate::fs_tree::Action,
)
    requires
        in_step(root, s, frames, n),
        answers(root, s, frames, n, ev, frames2, n2),
        s.step(ev, t, act),
    ensures
        in_step(root, t, frames2, n2),
{
    crate::fs_tree::lemma_step_keeps_wf(s, ev, t, act);
    lemma_frames_bounded(frames, frames2, root, n);
    match s.phase {
        PhaseView::OpeningRoot => lemma_step_opening_root(root, s, frames, n, ev, frames2, n2, t, act),
        PhaseView::Reading => lemma_step_reading(root, s, frames, n, ev, frames2, n2, t, act),
        PhaseView::Inspecting(_) => lemma_step_inspecting(root, s, frames, n, ev, frames2, n2, t, act),
        PhaseView::OpeningChild(_) => lemma_step_opening_child(root, s, frames, n, ev, frames2, n2, t, act),
        PhaseView::Idle => lemma_step_going_on(root, s, frames, t, act),
        PhaseView::Closing => lemma_step_going_on(root, s, frames.drop_last(), t, act),
        _ => {},
    }
}

/// What was yielded so far is a prefix of the listing.
pub proof fn lemma_yielded_is_prefix(root: Node, s: WalkState, frames: Seq<(Seq<Node>, int)>, n: Node)
    requires
        in_step(root, s, frames, n),
    ensures
        s.yielded.len() <= walk_listing(s.config, root).len(),
        s.yielded == walk_listing(s.config, root).subrange(0, s.yielded.len() as int),
{
    let c = s.config;
    let total = walk_listing(c, root);
    let y = s.yielded;
    let more = match s.phase {
        PhaseView::Fresh | PhaseView::OpeningRoot => total,
        PhaseView::Done => Seq::<Seq<char>>::empty(),
        PhaseView::Idle | PhaseView::Reading => rest(c, frames),
        PhaseView::Inspecting(_) | PhaseView::OpeningChild(_) => listing(c, n, s.depth()) + rest(
            c,
            frames,
        ),
        PhaseView::Closing => rest(c, frames.drop_last()),
    };
    if s.phase is Fresh || s.phase is OpeningRoot {
        assert(y + more =~= total);
    } else if s.phase is Done {
        assert(y + more =~= y);
    } else if s.phase is Inspecting || s.phase is OpeningChild {
        assert(y + listing(c, n, s.depth()) + rest(c, frames) =~= y + more);
    }
    assert(y + more == total);
    assert((y + more).subrange(0, y.len() as int) =~= y);
}

/// A run of the walk over the tree `root`: it starts fresh, and each step
/// takes the event that a caller walking the tree answers with.
pub open spec fn is_run(
    root: Node,
    c: WalkConfig,
    states: Seq<WalkState>,
    frames: Seq<Seq<(Seq<Node>, int)>>,
    entries: Seq<Node>,
    events: Seq<Event>,
    actions: Seq<crate::fs_tree::Action>,
) -> bool {
    &&& states.len() == events.len() + 1
    &&& frames.len() == states.len()
    &&& entries.len() == states.len()
    &&& actions.len() == events.len()
    &&& states[0] == crate::fs_tree::FsTree::fresh_state(c)
    &&& frames[0].len() == 0
    &&& forall|i: int|
        0 <= i < events.len() ==> answers(
            root,
            states[i],
            frames[i],
            entries[i],
            #[trigger] events[i],
            frames[i + 1],
            entries[i + 1],
        ) && states[i].step(events[i], states[i + 1], actions[i])
}

/// Over an unchanging tree in which nothing fails, everything that a run of
/// the walk has yielded is a prefix of the tree's listing (pre-order, ignored
/// files and what lies below them left out, depth bounds applied), and once
/// the run has ended it has yielded the whole listing.
pub proof fn lemma_run_yields_listing(
    root: Node,
    c: WalkConfig,
    states: Seq<WalkState>,
    frames: Seq<Seq<(Seq<Node>, int)>>,
    entries: Seq<Node>,
    events: Seq<Event>,
    actions: Seq<crate::fs_tree::Action>,
)
    requires
        root is Dir,
        root.path() == c.root,
        is_run(root, c, states, frames, entries, events, actions),
    ensures
        states.last().yielded == walk_listing(c, root).subrange(
            0,
            states.last().yielded.len() as int,
        ),
        states.last().phase is Done ==> states.last().yielded == walk_listing(c, root),
    decreases events.len(),
{
    if events.len() == 0 {
        lemma_fresh_in_step(c, root, entries[0]);
        assert(frames[0] =~= Seq::<(Seq<Node>, int)>::empty());
        lemma_yielded_is_prefix(root, states[0], frames[0], entries[0]);
    } else {
        let k = events.len() - 1;
        lemma_run_in_step(root, c, states, frames, entries, events, actions, k + 1);
        lemma_yielded_is_prefix(root, states[k + 1], frames[k + 1], entries[k + 1]);
        assert(states[k + 1].config == c);
    }
}

/// Every state of a run is in step with the caller.
proof fn lemma_run_in_step(
    root: Node,
    c: WalkConfig,
    states: Seq<WalkState>,
    frames: Seq<Seq<(Seq<Node>, int)>>,
    entries: Seq<Node>,
    events: Seq<Event>,
    actions: Seq<crate::fs_tree::Action>,
    i: int,
)
    requires
        root is Dir,
        root.path() == c.root,
        is_run(root, c, states, frames, entries, events, actions),
        0 <= i < states.len(),
    ensures
        in_step(root, states[i], frames[i], entries[i]),
        states[i].config == c,
    decreases i,
{
    if i == 0 {
        lemma_fresh_in_step(c, root, entries[0]);
        assert(frames[0] =~= Seq::<(Seq<Node>, int)>::empty());
    } else {
        lemma_run_in_step(root, c, states, frames, entries, events, actions, i - 1);
        assert(answers(
            root,
            states[i - 1],
            frames[i - 1],
            entries[i - 1],
            events[i - 1],
            frames[i],
            entries[i],
        ));
        lemma_step_in_step(
            root,
            states[i - 1],
            frames[i - 1],
            entries[i - 1],
            events[i - 1],
            frames[i],
            entries[i],
            states[i],
            actions[i - 1],
        );
    }
}

} // verus!
