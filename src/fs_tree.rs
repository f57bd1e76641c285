use vstd::prelude::*;

use crate::error::Error;
use crate::fs_tree_builder::paths_view;

verus! {

/// What a walk is configured with.
pub ghost struct WalkConfig {
    pub root: Seq<char>,
    pub ignore_files: Option<Seq<Seq<char>>>,
    pub ignore_paths: Option<Seq<Seq<char>>>,
    pub max_depth: Option<usize>,
    pub min_depth: usize,
}

impl WalkConfig {
    /// `p` is neither yielded nor descended into.
    pub open spec fn ignores_file(self, p: Seq<char>) -> bool {
        match self.ignore_files {
            Some(v) => v.contains(p),
            None => false,
        }
    }

    /// `p` is yielded but never descended into.
    pub open spec fn ignores_path(self, p: Seq<char>) -> bool {
        match self.ignore_paths {
            Some(v) => v.contains(p),
            None => false,
        }
    }

    /// A directory entry found at `depth` is opened and walked into.
    pub open spec fn descends(self, p: Seq<char>, depth: nat, is_symlink: bool, is_dir: bool) -> bool {
        &&& !is_symlink
        &&& is_dir
        &&& !self.ignores_path(p)
        &&& match self.max_depth {
            Some(m) => depth < m,
            None => true,
        }
    }

    /// An entry found at `depth` is deep enough to be yielded.
    pub open spec fn deep_enough(self, depth: nat) -> bool {
        depth >= self.min_depth
    }

    /// `depth` lies within the maximum depth, if one is set.
    pub open spec fn within_max(self, depth: nat) -> bool {
        match self.max_depth {
            Some(m) => depth <= m,
            None => true,
        }
    }
}

/// Where a walk stands between two steps.
pub enum Phase {
    /// Not started: the root has not been opened yet.
    Fresh,
    /// The caller was asked to open the root.
    OpeningRoot,
    /// Waiting for the caller to draw the next item.
    Idle,
    /// The caller was asked to read the next entry of the deepest open
    /// directory.
    Reading,
    /// The caller was asked for the metadata of this entry, without following
    /// symbolic links.
    Inspecting(String),
    /// The caller was asked to open this entry as a directory.
    OpeningChild(String),
    /// The caller was asked to close the deepest open directory.
    Closing,
    /// The walk has ended.
    Done,
}

/// The model of [`Phase`], with paths as character sequences.
pub ghost enum PhaseView {
    Fresh,
    OpeningRoot,
    Idle,
    Reading,
    Inspecting(Seq<char>),
    OpeningChild(Seq<char>),
    Closing,
    Done,
}

impl View for Phase {
    type V = PhaseView;

    open spec fn view(&self) -> PhaseView {
        match self {
            Phase::Fresh => PhaseView::Fresh,
            Phase::OpeningRoot => PhaseView::OpeningRoot,
            Phase::Idle => PhaseView::Idle,
            Phase::Reading => PhaseView::Reading,
            Phase::Inspecting(p) => PhaseView::Inspecting(p@),
            Phase::OpeningChild(p) => PhaseView::OpeningChild(p@),
            Phase::Closing => PhaseView::Closing,
            Phase::Done => PhaseView::Done,
        }
    }
}

/// The outcome of the operation that the walk last asked for, or a draw.
pub enum Event {
    /// The consumer asks for the next item.
    Draw,
    /// The directory to open was opened; its handle now sits on top.
    Opened,
    /// The directory to open could not be opened.
    OpenFailed(std::io::Error),
    /// The deepest open directory yielded this child path.
    Entry(String),
    /// Reading the deepest open directory failed at this step.
    ReadFailed(std::io::Error),
    /// The deepest open directory has no more entries.
    Exhausted,
    /// The deepest open directory was closed.
    Closed,
    /// The metadata of the entry, read without following symbolic links.
    Metadata { is_symlink: bool, is_dir: bool },
    /// The metadata of the entry could not be read.
    MetadataFailed(std::io::Error),
}

/// What the walk asks of its caller next.
pub enum Action {
    /// Open this path for reading as a directory and push its handle.
    OpenDir(String),
    /// Read the next entry of the directory handle on top.
    ReadTop,
    /// Read this path's metadata without following symbolic links.
    Inspect(String),
    /// Close the directory handle on top and drop it.
    CloseTop,
    /// Hand this item to the consumer.
    Yield(Result<String, Error>),
    /// The walk has ended.
    Finish,
}

/// The state of a walk, as the contracts see it.
pub ghost struct WalkState {
    pub config: WalkConfig,
    /// The paths of the open directories, the root first.
    pub stack: Seq<Seq<char>>,
    pub phase: PhaseView,
    /// A failure to report on the next draw.
    pub pending: Option<Error>,
    /// Every path yielded so far, in order.
    pub yielded: Seq<Seq<char>>,
}

/// `act` hands the path `p` to the consumer.
pub open spec fn yields_path(act: Action, p: Seq<char>) -> bool {
    act matches Action::Yield(Ok(q)) && q@ == p
}

/// `act` hands the consumer a failure of `p` with cause `cause`.
pub open spec fn yields_failure(act: Action, p: Seq<char>, cause: std::io::Error) -> bool {
    act matches Action::Yield(Err(e)) && e.entry_view() == p && e.source_view() == cause
}

/// `act` asks for `p` to be opened as a directory.
pub open spec fn opens(act: Action, p: Seq<char>) -> bool {
    act matches Action::OpenDir(q) && q@ == p
}

impl WalkState {
    /// The depth of the entries read from the deepest open directory.
    pub open spec fn depth(self) -> nat {
        self.stack.len()
    }

    /// Invariant of every walk.
    pub open spec fn wf(self) -> bool {
        let c = self.config;
        &&& self.stack.len() > 0 ==> self.stack[0] == c.root
        &&& (self.phase is Fresh || self.phase is OpeningRoot) ==> self.stack.len() == 0
        &&& self.phase is Done ==> self.stack.len() == 0
        &&& !(self.phase is Idle) ==> self.pending is None
        &&& (self.phase is Reading || self.phase is Inspecting || self.phase is OpeningChild)
            ==> self.stack.len() > 0
        &&& c.within_max(self.depth()) || (c.max_depth == Some(0usize) && self.depth() == 1
            && self.phase is Idle)
        &&& self.phase matches PhaseView::Inspecting(q) ==> !c.ignores_file(q)
        &&& self.phase matches PhaseView::OpeningChild(q) ==> !c.ignores_file(q)
        &&& self.phase is OpeningChild ==> match c.max_depth {
            Some(m) => self.depth() < m,
            None => true,
        }
        &&& forall|i: int|
            1 <= i < self.stack.len() && c.deep_enough(i as nat) ==> #[trigger] self.yielded.contains(
                self.stack[i],
            )
        &&& (self.stack.len() > 0 && c.min_depth == 0 && !c.ignores_file(c.root))
            ==> self.yielded.contains(c.root)
    }

    /// After a directory was closed, or when nothing else is owed: end the
    /// walk on an empty stack, close the root when nothing may be read from
    /// it, and read on otherwise.
    pub open spec fn goes_on(self, t: WalkState, act: Action) -> bool {
        if self.stack.len() == 0 {
            act is Finish && t == WalkState { phase: PhaseView::Done, ..self }
        } else if self.config.max_depth == Some(0usize) {
            act is CloseTop && t == WalkState {
                phase: PhaseView::Closing,
                stack: self.stack.drop_last(),
                ..self
            }
        } else {
            act is ReadTop && t == WalkState { phase: PhaseView::Reading, ..self }
        }
    }

    /// `ev` is an answer that the walk is waiting for.
    pub open spec fn expects(self, ev: Event) -> bool {
        match self.phase {
            PhaseView::Fresh | PhaseView::Idle | PhaseView::Done => ev is Draw,
            PhaseView::OpeningRoot | PhaseView::OpeningChild(_) => ev is Opened || ev is OpenFailed,
            PhaseView::Reading => ev is Entry || ev is ReadFailed || ev is Exhausted,
            PhaseView::Inspecting(_) => ev is Metadata || ev is MetadataFailed,
            PhaseView::Closing => ev is Closed,
        }
    }

    /// One step of the walk: in state `self`, event `ev` leads to state `t`
    /// and action `act`.
    pub open spec fn step(self, ev: Event, t: WalkState, act: Action) -> bool {
        let c = self.config;
        match self.phase {
            PhaseView::Fresh => opens(act, c.root) && t == WalkState {
                phase: PhaseView::OpeningRoot,
                ..self
            },
            PhaseView::OpeningRoot => match ev {
                Event::Opened => {
                    let s1 = WalkState { stack: self.stack.push(c.root), ..self };
                    if c.min_depth == 0 && !c.ignores_file(c.root) {
                        yields_path(act, c.root) && t == WalkState {
                            phase: PhaseView::Idle,
                            yielded: self.yielded.push(c.root),
                            ..s1
                        }
                    } else {
                        s1.goes_on(t, act)
                    }
                },
                Event::OpenFailed(e) => yields_failure(act, c.root, e) && t == WalkState {
                    phase: PhaseView::Done,
                    ..self
                },
                _ => false,
            },
            PhaseView::Idle => match self.pending {
                Some(e) => act == Action::Yield(Err(e)) && t == WalkState {
                    phase: PhaseView::Idle,
                    pending: None,
                    ..self
                },
                None => self.goes_on(t, act),
            },
            PhaseView::Reading => match ev {
                Event::Entry(p) => if c.ignores_file(p@) {
                    act is ReadTop && t == self
                } else {
                    act matches Action::Inspect(q) && q@ == p@ && t == WalkState {
                        phase: PhaseView::Inspecting(p@),
                        ..self
                    }
                },
                Event::ReadFailed(e) => yields_failure(act, self.stack.last(), e) && t == WalkState {
                    phase: PhaseView::Idle,
                    ..self
                },
                Event::Exhausted => act is CloseTop && t == WalkState {
                    phase: PhaseView::Closing,
                    stack: self.stack.drop_last(),
                    ..self
                },
                _ => false,
            },
            PhaseView::Inspecting(p) => match ev {
                Event::Metadata { is_symlink, is_dir } => if c.descends(
                    p,
                    self.depth(),
                    is_symlink,
                    is_dir,
                ) {
                    opens(act, p) && t == WalkState { phase: PhaseView::OpeningChild(p), ..self }
                } else if c.deep_enough(self.depth()) {
                    yields_path(act, p) && t == WalkState {
                        phase: PhaseView::Idle,
                        yielded: self.yielded.push(p),
                        ..self
                    }
                } else {
                    act is ReadTop && t == WalkState { phase: PhaseView::Reading, ..self }
                },
                Event::MetadataFailed(e) => yields_failure(act, p, e) && t == WalkState {
                    phase: PhaseView::Idle,
                    ..self
                },
                _ => false,
            },
            PhaseView::OpeningChild(p) => match ev {
                Event::Opened => {
                    let s1 = WalkState { stack: self.stack.push(p), ..self };
                    if c.deep_enough(self.depth()) {
                        yields_path(act, p) && t == WalkState {
                            phase: PhaseView::Idle,
                            yielded: self.yielded.push(p),
                            ..s1
                        }
                    } else {
                        act is ReadTop && t == WalkState { phase: PhaseView::Reading, ..s1 }
                    }
                },
                Event::OpenFailed(e) => if c.deep_enough(self.depth()) {
                    &&& yields_path(act, p)
                    &&& t.phase == PhaseView::Idle
                    &&& t.config == c
                    &&& t.stack == self.stack
                    &&& t.yielded == self.yielded.push(p)
                    &&& t.pending matches Some(x)
                    &&& x.entry_view() == p
                    &&& x.source_view() == e
                } else {
                    yields_failure(act, p, e) && t == WalkState { phase: PhaseView::Idle, ..self }
                },
                _ => false,
            },
            PhaseView::Closing => self.goes_on(t, act),
            PhaseView::Done => act is Finish && t == self,
        }
    }
}

/// Every step from a well-formed state, on an event that the walk waits for,
/// leads to a well-formed state.
pub proof fn lemma_step_keeps_wf(s: WalkState, ev: Event, t: WalkState, act: Action)
    requires
        s.wf(),
        s.expects(ev),
        s.step(ev, t, act),
    ensures
        t.wf(),
{
    let c = s.config;
    assert(t.yielded == s.yielded || t.yielded == s.yielded.push(t.yielded.last()));
    assert(t.stack == s.stack || t.stack == s.stack.push(t.stack.last()) || t.stack
        == s.stack.drop_last());
    assert forall|i: int|
        1 <= i < t.stack.len() && c.deep_enough(i as nat) implies #[trigger] t.yielded.contains(
        t.stack[i],
    ) by {
        if i < s.stack.len() {
            assert(t.stack[i] == s.stack[i]);
            assert(s.yielded.contains(s.stack[i]));
            let k = choose|k: int| 0 <= k < s.yielded.len() && s.yielded[k] == s.stack[i];
            assert(t.yielded[k] == s.yielded[k]);
        } else {
            assert(t.yielded[t.yielded.len() - 1] == t.stack[i]);
        }
    }
    if t.stack.len() > 0 && c.min_depth == 0 && !c.ignores_file(c.root) {
        if s.stack.len() > 0 {
            let k = choose|k: int| 0 <= k < s.yielded.len() && s.yielded[k] == c.root;
            assert(t.yielded[k] == s.yielded[k]);
        } else {
            assert(t.yielded[t.yielded.len() - 1] == c.root);
        }
    }
}

/// A walk over a directory tree: depth-first, pre-order, never following
/// symbolic links.
///
/// The walk does no I/O itself. Each call of [`FsTree::step`] takes the
/// outcome of the operation it asked for last (or a draw) and returns the next
/// operation, an item, or the end.
pub struct FsTree {
    top: String,
    stack: Vec<String>,
    ignore_files: Option<Vec<String>>,
    ignore_paths: Option<Vec<String>>,
    max_depth: Option<usize>,
    min_depth: usize,
    phase: Phase,
    pending: Option<Error>,
    yielded: Ghost<Seq<Seq<char>>>,
}

impl View for FsTree {
    type V = WalkState;

    closed spec fn view(&self) -> WalkState {
        WalkState {
            config: WalkConfig {
                root: self.top@,
                ignore_files: match self.ignore_files {
                    Some(v) => Some(paths_view(v@)),
                    None => None,
                },
                ignore_paths: match self.ignore_paths {
                    Some(v) => Some(paths_view(v@)),
                    None => None,
                },
                max_depth: self.max_depth,
                min_depth: self.min_depth,
            },
            stack: paths_view(self.stack@),
            phase: self.phase@,
            pending: self.pending,
            yielded: self.yielded@,
        }
    }
}

/// `p` is one of the paths in `v`.
fn list_contains(v: &Vec<String>, p: &String) -> (r: bool)
    ensures
        r == paths_view(v@).contains(p@),
{
    let n = v.len();
    let mut i: usize = 0;
    while i < n
        invariant
            n == v@.len(),
            i <= n,
            forall|j: int| 0 <= j < i ==> v@[j]@ != p@,
        decreases n - i,
    {
        if v[i].eq(p) {
            assert(paths_view(v@)[i as int] == p@);
            return true;
        }
        i = i + 1;
    }
    proof {
        if paths_view(v@).contains(p@) {
            let k = choose|k: int| 0 <= k < paths_view(v@).len() && paths_view(v@)[k] == p@;
            assert(v@[k]@ == p@);
        }
    }
    false
}

/// `p` is on the optional list `v`.
fn listed(v: &Option<Vec<String>>, p: &String) -> (r: bool)
    ensures
        r == match *v {
            Some(v) => paths_view(v@).contains(p@),
            None => false,
        },
{
    match v {
        Some(v) => list_contains(v, p),
        None => false,
    }
}

impl FsTree {
    /// The state of a walk over `c` that has not started.
    pub open spec fn fresh_state(c: WalkConfig) -> WalkState {
        WalkState {
            config: c,
            stack: Seq::empty(),
            phase: PhaseView::Fresh,
            pending: None,
            yielded: Seq::empty(),
        }
    }

    pub(crate) fn start(
        top: String,
        ignore_files: Option<Vec<String>>,
        ignore_paths: Option<Vec<String>>,
        max_depth: Option<usize>,
        min_depth: usize,
    ) -> (r: FsTree)
        ensures
            r@ == FsTree::fresh_state(
                WalkConfig {
                    root: top@,
                    ignore_files: match ignore_files {
                        Some(v) => Some(paths_view(v@)),
                        None => None,
                    },
                    ignore_paths: match ignore_paths {
                        Some(v) => Some(paths_view(v@)),
                        None => None,
                    },
                    max_depth,
                    min_depth,
                },
            ),
            r@.wf(),
    {
        let r = FsTree {
            top,
            stack: Vec::new(),
            ignore_files,
            ignore_paths,
            max_depth,
            min_depth,
            phase: Phase::Fresh,
            pending: None,
            yielded: Ghost(Seq::empty()),
        };
        assert(paths_view(r.stack@) =~= Seq::<Seq<char>>::empty());
        r
    }

    /// The number of directories open: the depth of the entries read next.
    pub fn depth(&self) -> (r: usize)
        ensures
            r == self@.depth(),
    {
        self.stack.len()
    }

    /// `path` is on the list of paths that are neither yielded nor descended
    /// into.
    pub fn ignore_file(&self, path: &String) -> (r: bool)
        ensures
            r == self@.config.ignores_file(path@),
    {
        listed(&self.ignore_files, path)
    }

    /// `path` is on the list of paths that are yielded but not descended into.
    pub fn ignore_path(&self, path: &String) -> (r: bool)
        ensures
            r == self@.config.ignores_path(path@),
    {
        listed(&self.ignore_paths, path)
    }

    /// The configured maximum depth.
    pub fn max_depth(&self) -> (r: Option<usize>)
        ensures
            r == self@.config.max_depth,
    {
        self.max_depth
    }

    /// The configured minimum depth.
    pub fn min_depth(&self) -> (r: usize)
        ensures
            r == self@.config.min_depth,
    {
        self.min_depth
    }

    /// The root of the walk.
    pub fn top(&self) -> (r: &str)
        ensures
            r@ == self@.config.root,
    {
        self.top.as_str()
    }

    /// `ev` is an answer that the walk is waiting for.
    pub fn expects(&self, ev: &Event) -> (r: bool)
        ensures
            r == self@.expects(*ev),
    {
        match &self.phase {
            Phase::Fresh | Phase::Idle | Phase::Done => matches!(ev, Event::Draw),
            Phase::OpeningRoot | Phase::OpeningChild(_) => matches!(ev, Event::Opened | Event::OpenFailed(_)),
            Phase::Reading => matches!(ev, Event::Entry(_) | Event::ReadFailed(_) | Event::Exhausted),
            Phase::Inspecting(_) => matches!(ev, Event::Metadata { .. } | Event::MetadataFailed(_)),
            Phase::Closing => matches!(ev, Event::Closed),
        }
    }

    fn push_dir(&mut self, p: String)
        ensures
            final(self)@ == (WalkState { stack: old(self)@.stack.push(p@), ..old(self)@ }),
    {
        let ghost old_stack = self.stack@;
        self.stack.push(p);
        assert(paths_view(self.stack@) =~= paths_view(old_stack).push(p@));
    }

    fn record_yield(&mut self, p: &String)
        ensures
            final(self)@ == (WalkState { yielded: old(self)@.yielded.push(p@), ..old(self)@ }),
    {
        self.yielded = Ghost(self.yielded@.push(p@));
    }

    fn go_on(&mut self) -> (act: Action)
        ensures
            old(self)@.goes_on(final(self)@, act),
    {
        if self.stack.len() == 0 {
            self.phase = Phase::Done;
            return Action::Finish;
        }
        let close = match self.max_depth {
            Some(m) => m == 0,
            None => false,
        };
        if close {
            let ghost old_stack = self.stack@;
            self.stack.pop();
            assert(paths_view(self.stack@) =~= paths_view(old_stack).drop_last());
            self.phase = Phase::Closing;
            Action::CloseTop
        } else {
            self.phase = Phase::Reading;
            Action::ReadTop
        }
    }

    /// Takes the outcome of the operation asked for last (or a draw, when the
    /// walk is idle) and returns what the caller is to do next.
    pub fn step(&mut self, ev: Event) -> (act: Action)
        requires
            old(self)@.wf(),
            old(self)@.expects(ev),
        ensures
            old(self)@.step(ev, final(self)@, act),
            final(self)@.wf(),
    {
        let ghost s = self@;
        let mut phase = Phase::Idle;
        std::mem::swap(&mut self.phase, &mut phase);
        let act = match phase {
            Phase::Fresh => {
                self.phase = Phase::OpeningRoot;
                Action::OpenDir(self.top.clone())
            },
            Phase::OpeningRoot => match ev {
                Event::Opened => {
                    let root = self.top.clone();
                    self.push_dir(root);
                    let top = self.top.clone();
                    if self.min_depth == 0 && !self.ignore_file(&top) {
                        self.record_yield(&top);
                        Action::Yield(Ok(top))
                    } else {
                        self.go_on()
                    }
                },
                Event::OpenFailed(e) => {
                    self.phase = Phase::Done;
                    Action::Yield(Err(Error::new(self.top.as_str(), e)))
                },
                _ => Action::Finish,
            },
            Phase::Idle => match self.pending.take() {
                Some(e) => Action::Yield(Err(e)),
                None => self.go_on(),
            },
            Phase::Reading => match ev {
                Event::Entry(p) => {
                    if self.ignore_file(&p) {
                        self.phase = Phase::Reading;
                        Action::ReadTop
                    } else {
                        let q = p.clone();
                        self.phase = Phase::Inspecting(p);
                        Action::Inspect(q)
                    }
                },
                Event::ReadFailed(e) => {
                    let n = self.stack.len();
                    let err = Error::new(self.stack[n - 1].as_str(), e);
                    Action::Yield(Err(err))
                },
                Event::Exhausted => {
                    let ghost old_stack = self.stack@;
                    self.stack.pop();
                    assert(paths_view(self.stack@) =~= paths_view(old_stack).drop_last());
                    self.phase = Phase::Closing;
                    Action::CloseTop
                },
                _ => Action::Finish,
            },
            Phase::Inspecting(p) => match ev {
                Event::Metadata { is_symlink, is_dir } => {
                    let depth = self.stack.len();
                    let within = match self.max_depth {
                        Some(m) => depth < m,
                        None => true,
                    };
                    if !is_symlink && is_dir && !self.ignore_path(&p) && within {
                        let q = p.clone();
                        self.phase = Phase::OpeningChild(p);
                        Action::OpenDir(q)
                    } else if depth >= self.min_depth {
                        self.record_yield(&p);
                        Action::Yield(Ok(p))
                    } else {
                        self.phase = Phase::Reading;
                        Action::ReadTop
                    }
                },
                Event::MetadataFailed(e) => Action::Yield(Err(Error::new(p.as_str(), e))),
                _ => Action::Finish,
            },
            Phase::OpeningChild(p) => match ev {
                Event::Opened => {
                    let depth = self.stack.len();
                    let q = p.clone();
                    self.push_dir(q);
                    if depth >= self.min_depth {
                        self.record_yield(&p);
                        Action::Yield(Ok(p))
                    } else {
                        self.phase = Phase::Reading;
                        Action::ReadTop
                    }
                },
                Event::OpenFailed(e) => {
                    let err = Error::new(p.as_str(), e);
                    if self.stack.len() >= self.min_depth {
                        self.pending = Some(err);
                        self.record_yield(&p);
                        Action::Yield(Ok(p))
                    } else {
                        Action::Yield(Err(err))
                    }
                },
                _ => Action::Finish,
            },
            Phase::Closing => self.go_on(),
            Phase::Done => {
                self.phase = Phase::Done;
                Action::Finish
            },
        };
        proof {
            lemma_step_keeps_wf(s, ev, self@, act);
        }
        act
    }
}

} // verus!
