//! Call paths, run states, and the tracer that maps one to the other.

use crate::library::FunctionId;
use vstd::prelude::*;

verus! {

/// One step of a call path: entering a function, evaluating an argument, or
/// executing a statement, each by its position.
#[derive(Clone, Copy, PartialEq, Eq, Structural, Hash, Debug)]
pub enum StackFrame {
    Function(FunctionId),
    Argument(usize),
    Statement(usize),
}

/// The address of a point of execution: the frames from the entry point down
/// to it.
#[derive(Clone, PartialEq, Eq, Hash, Debug)]
pub struct CallStack {
    frames: Vec<StackFrame>,
}

impl View for CallStack {
    type V = Seq<StackFrame>;

    closed spec fn view(&self) -> Seq<StackFrame> {
        self.frames@
    }
}

impl CallStack {
    /// The empty path.
    pub fn new() -> (r: CallStack)
        ensures
            r@ == Seq::<StackFrame>::empty(),
    {
        CallStack { frames: Vec::new() }
    }

    pub fn push(&mut self, frame: StackFrame)
        ensures
            final(self)@ == old(self)@.push(frame),
    {
        self.frames.push(frame);
    }

    /// Remove the last frame, if there is one.
    pub fn pop(&mut self) -> (r: Option<StackFrame>)
        ensures
            old(self)@.len() == 0 ==> r is None && final(self)@ == old(self)@,
            old(self)@.len() > 0 ==> r == Some(old(self)@.last()) && final(self)@
                == old(self)@.drop_last(),
    {
        self.frames.pop()
    }

    /// The frames, from the outermost.
    pub fn frames(&self) -> (r: &[StackFrame])
        ensures
            r@ == self@,
    {
        self.frames.as_slice()
    }

    /// Whether the two paths hold the same frames.
    pub fn same_path(&self, other: &CallStack) -> (r: bool)
        ensures
            r == (self@ == other@),
    {
        if self.frames.len() != other.frames.len() {
            return false;
        }
        let mut i: usize = 0;
        while i < self.frames.len()
            invariant
                i <= self.frames.len(),
                self.frames.len() == other.frames.len(),
                forall|j: int| 0 <= j < i ==> self.frames@[j] == other.frames@[j],
            decreases self.frames.len() - i,
        {
            if self.frames[i] != other.frames[i] {
                return false;
            }
            i = i + 1;
        }
        assert(self.frames@ =~= other.frames@);
        true
    }

    /// A path with the same frames.
    pub fn duplicate(&self) -> (r: CallStack)
        ensures
            r@ == self@,
    {
        let mut frames: Vec<StackFrame> = Vec::new();
        let mut i: usize = 0;
        while i < self.frames.len()
            invariant
                i <= self.frames.len(),
                frames@ == self.frames@.subrange(0, i as int),
            decreases self.frames.len() - i,
        {
            frames.push(self.frames[i]);
            i = i + 1;
        }
        assert(frames@ =~= self.frames@);
        CallStack { frames }
    }
}

/// The progress of one point of execution.
#[derive(Clone, Copy, PartialEq, Eq, Structural, Debug)]
pub enum RunState {
    NotRun,
    Running,
    Successful,
    /// A branch condition was evaluated to this value.
    PredicateSuccessful(bool),
    Failed,
}

/// The state of `path` in `trace`: `NotRun` where nothing was recorded.
pub open spec fn state_of(trace: Map<Seq<StackFrame>, RunState>, path: Seq<StackFrame>) -> RunState {
    if trace.contains_key(path) {
        trace[path]
    } else {
        RunState::NotRun
    }
}

/// The run state of every call path that one run has reached so far.
#[derive(Debug)]
pub struct RunTracer {
    paths: Vec<CallStack>,
    states: Vec<RunState>,
}

impl View for RunTracer {
    type V = Map<Seq<StackFrame>, RunState>;

    closed spec fn view(&self) -> Map<Seq<StackFrame>, RunState> {
        Map::new(
            |k: Seq<StackFrame>| self.index_of(k) >= 0,
            |k: Seq<StackFrame>| self.states@[self.index_of(k)],
        )
    }
}

impl RunTracer {
    /// Position of `k` among the recorded paths, or -1.
    closed spec fn index_of(&self, k: Seq<StackFrame>) -> int {
        if exists|i: int| 0 <= i < self.paths.len() && #[trigger] self.paths@[i]@ == k {
            choose|i: int| 0 <= i < self.paths.len() && #[trigger] self.paths@[i]@ == k
        } else {
            -1
        }
    }

    /// Every path is recorded once, with one state.
    #[verifier::type_invariant]
    pub closed spec fn wf(&self) -> bool {
        &&& self.paths.len() == self.states.len()
        &&& forall|i: int, j: int|
            0 <= i < j < self.paths.len() ==> #[trigger] self.paths@[i]@ != #[trigger] self.paths@[j]@
    }

    proof fn lemma_index_of(&self, i: int)
        requires
            self.wf(),
            0 <= i < self.paths.len(),
        ensures
            self.index_of(self.paths@[i]@) == i,
    {
        let k = self.paths@[i]@;
        assert(exists|j: int| 0 <= j < self.paths.len() && #[trigger] self.paths@[j]@ == k);
        let j = self.index_of(k);
        if j != i {
            if j < i {
                assert(self.paths@[j]@ != self.paths@[i]@);
            } else {
                assert(self.paths@[i]@ != self.paths@[j]@);
            }
        }
    }

    proof fn lemma_len(&self)
        requires
            self.wf(),
        ensures
            self@.len() == self.paths.len(),
    {
        let dom = self@.dom();
        let s = Seq::new(self.paths.len() as nat, |i: int| self.paths@[i]@);
        assert forall|i: int| 0 <= i < self.paths.len() implies #[trigger] self@.dom().contains(
            self.paths@[i]@,
        ) by {
            self.lemma_index_of(i);
        }
        assert(s.to_set() =~= dom) by {
            assert forall|k: Seq<StackFrame>| dom.contains(k) implies s.to_set().contains(k) by {
                let i = self.index_of(k);
                assert(s[i] == k);
            }
        }
        assert(s.no_duplicates());
        s.unique_seq_to_set();
    
    }

    /// A tracer in which every path is `NotRun`.
    pub fn new() -> (r: RunTracer)
        ensures
            r@ == Map::<Seq<StackFrame>, RunState>::empty(),
    {
        let r = RunTracer { paths: Vec::new(), states: Vec::new() };
        assert(r@ =~= Map::<Seq<StackFrame>, RunState>::empty());
        r
    }

    /// The number of paths with a recorded state.
    pub fn len(&self) -> (r: usize)
        ensures
            r == self@.len(),
    {
        proof {
            use_type_invariant(self);
            self.lemma_len();
        }
        self.paths.len()
    }

    /// The state of `call_stack`: `NotRun` unless one was recorded.
    pub fn status(&self, call_stack: &CallStack) -> (r: RunState)
        ensures
            r == state_of(self@, call_stack@),
    {
        proof {
            use_type_invariant(self);
        }
        let mut i: usize = 0;
        while i < self.paths.len()
            invariant
                self.wf(),
                i <= self.paths.len(),
                forall|j: int| 0 <= j < i ==> #[trigger] self.paths@[j]@ != call_stack@,
            decreases self.paths.len() - i,
        {
            if self.paths[i].same_path(call_stack) {
                proof {
                    self.lemma_index_of(i as int);
                }
                return self.states[i];
            }
            i = i + 1;
        }
        RunState::NotRun
    }

    /// Record `status` for `call_stack`.
    pub fn set_status(&mut self, call_stack: &CallStack, status: RunState)
        ensures
            final(self)@ == old(self)@.insert(call_stack@, status),
    {
        proof {
            use_type_invariant(&*self);
        }
        let ghost old_self = *self;
        let mut i: usize = 0;
        while i < self.paths.len()
            invariant
                self.wf(),
                *self == old_self,
                old_self == *old(self),
                i <= self.paths.len(),
                forall|j: int| 0 <= j < i ==> #[trigger] self.paths@[j]@ != call_stack@,
            decreases self.paths.len() - i,
        {
            if self.paths[i].same_path(call_stack) {
                let mut taken = RunTracer::new();
                core::mem::swap(self, &mut taken);
                let RunTracer { paths, mut states } = taken;
                states[i] = status;
                *self = RunTracer { paths, states };
                proof {
                    old_self.lemma_index_of(i as int);
                    assert forall|k: Seq<StackFrame>| k != call_stack@ implies
                        self.index_of(k) == old_self.index_of(k) by {}
                    assert(self.index_of(call_stack@) == i);
                    assert(self@ =~= old_self@.insert(call_stack@, status));
                }
                return;
            }
            i = i + 1;
        }
        let mut taken = RunTracer::new();
        core::mem::swap(self, &mut taken);
        let RunTracer { mut paths, mut states } = taken;
        paths.push(call_stack.duplicate());
        states.push(status);
        proof {
            let n = old_self.paths.len() as int;
            assert forall|a: int, b: int|
                0 <= a < b < paths.len() implies #[trigger] paths@[a]@ != #[trigger] paths@[b]@ by {
                if b == n {
                    assert(old_self.paths@[a] == paths@[a]);
                } else {
                    assert(old_self.paths@[a] == paths@[a]);
                    assert(old_self.paths@[b] == paths@[b]);
                }
            }
        }
        *self = RunTracer { paths, states };
        proof {
            let n = old_self.paths.len() as int;
            assert(self.paths@[n]@ == call_stack@);
            assert forall|k: Seq<StackFrame>| k != call_stack@ implies
                #[trigger] self.index_of(k) == old_self.index_of(k) by {
                if old_self.index_of(k) >= 0 {
                    let j = old_self.index_of(k);
                    assert(self.paths@[j] == old_self.paths@[j]);
                    self.lemma_index_of(j);
                } else {
                    assert forall|j: int| 0 <= j < self.paths.len() implies
                        #[trigger] self.paths@[j]@ != k by {
                        if j < n {
                            assert(self.paths@[j] == old_self.paths@[j]);
                        }
                    }
                }
            }
            self.lemma_index_of(n);
            assert(self@ =~= old_self@.insert(call_stack@, status));
        }
    }

    /// A copy of the current mapping, to publish.
    pub fn snapshot(&self) -> (r: RunTracer)
        ensures
            r@ == self@,
    {
        proof {
            use_type_invariant(self);
        }
        let mut paths: Vec<CallStack> = Vec::new();
        let mut i: usize = 0;
        while i < self.paths.len()
            invariant
                i <= self.paths.len(),
                paths.len() == i,
                forall|j: int| 0 <= j < i ==> #[trigger] paths@[j]@ == self.paths@[j]@,
            decreases self.paths.len() - i,
        {
            paths.push(self.paths[i].duplicate());
            i = i + 1;
        }
        let r = RunTracer { paths, states: self.states.clone() };
        proof {
            assert(r.states@ =~= self.states@);
            assert forall|k: Seq<StackFrame>| #[trigger] r.index_of(k) == self.index_of(k) by {
                if self.index_of(k) >= 0 {
                    self.lemma_index_of(self.index_of(k));
                    r.lemma_index_of(self.index_of(k));
                } else {
                    assert forall|j: int| 0 <= j < r.paths.len() implies #[trigger] r.paths@[j]@ != k by {
                        assert(self.paths@[j]@ == r.paths@[j]@);
                    }
                }
            }
            assert(r@ =~= self@);
        }
        r
    }

    /// The recorded paths with their states, each path once.
    pub fn entries(&self) -> (r: Vec<(CallStack, RunState)>)
        ensures
            r.len() == self@.len(),
            forall|i: int|
                0 <= i < r.len() ==> self@.contains_key(#[trigger] r@[i].0@) && self@[r@[i].0@]
                    == r@[i].1,
            forall|k: Seq<StackFrame>|
                self@.contains_key(k) ==> exists|i: int| 0 <= i < r.len() && #[trigger] r@[i].0@ == k,
    {
        proof {
            use_type_invariant(self);
        }
        let mut out: Vec<(CallStack, RunState)> = Vec::new();
        let mut i: usize = 0;
        while i < self.paths.len()
            invariant
                self.wf(),
                i <= self.paths.len(),
                out.len() == i,
                forall|j: int| 0 <= j < i ==> #[trigger] out@[j].0@ == self.paths@[j]@,
                forall|j: int| 0 <= j < i ==> #[trigger] out@[j].1 == self.states@[j],
            decreases self.paths.len() - i,
        {
            let entry = (self.paths[i].duplicate(), self.states[i]);
            out.push(entry);
            assert(out@[i as int] == entry);
            i = i + 1;
        }
        proof {
            assert forall|j: int| 0 <= j < out.len() implies self@.contains_key(
                #[trigger] out@[j].0@,
            ) && self@[out@[j].0@] == out@[j].1 by {
                self.lemma_index_of(j);
            }
            assert forall|k: Seq<StackFrame>| self@.contains_key(k) implies exists|j: int|
                0 <= j < out.len() && #[trigger] out@[j].0@ == k by {
                let j = self.index_of(k);
                assert(out@[j].0@ == k);
            }
        }
        proof {
            self.lemma_len();
        }
        out
    }
}

/// Calling `status` twice on one tracer, with nothing recorded in between,
/// gives the same state: the state depends on the mapping and the frames of
/// the path alone.
pub proof fn status_is_repeatable(
    a: Map<Seq<StackFrame>, RunState>,
    b: Map<Seq<StackFrame>, RunState>,
    p: Seq<StackFrame>,
    q: Seq<StackFrame>,
)
    requires
        a == b,
        p == q,
    ensures
        state_of(a, p) == state_of(b, q),
{
}

/// Building call paths frame by frame is injective: two paths are equal only
/// when they extend equal paths by equal frames.
pub proof fn call_paths_are_injective(
    s1: Seq<StackFrame>,
    f1: StackFrame,
    s2: Seq<StackFrame>,
    f2: StackFrame,
)
    ensures
        s1.push(f1) == s2.push(f2) <==> (s1 == s2 && f1 == f2),
{
    if s1.push(f1) == s2.push(f2) {
        assert(s1 =~= s1.push(f1).drop_last());
        assert(s2 =~= s2.push(f2).drop_last());
        assert(s1.push(f1).last() == f1);
    }
}

} // verus!
