use vstd::prelude::*;

use crate::partition::{BatchRequest, batch_size_spec, chunked, chunks_view};
use crate::request::{Request, pairs_view, requests_view};
use crate::text::{chars_of, push_char, push_chars};

verus! {

broadcast use vstd::seq_lib::lemma_seq_contains_after_push;

/// The outcome of one request of a run, tagged with the request's index.
pub enum RunResult {
    Success { index: usize, version: String, status: String, headers: String, body: String },
    Failure { index: usize, error: String },
}

pub enum RunResultView {
    Success {
        index: nat,
        version: Seq<char>,
        status: Seq<char>,
        headers: Seq<char>,
        body: Seq<char>,
    },
    Failure { index: nat, error: Seq<char> },
}

impl RunResultView {
    pub open spec fn index(self) -> nat {
        match self {
            RunResultView::Success { index, .. } => index,
            RunResultView::Failure { index, .. } => index,
        }
    }
}

impl View for RunResult {
    type V = RunResultView;

    open spec fn view(&self) -> RunResultView {
        match self {
            RunResult::Success { index, version, status, headers, body } => RunResultView::Success {
                index: *index as nat,
                version: version@,
                status: status@,
                headers: headers@,
                body: body@,
            },
            RunResult::Failure { index, error } => RunResultView::Failure {
                index: *index as nat,
                error: error@,
            },
        }
    }
}

pub open spec fn results_view(v: Seq<RunResult>) -> Seq<RunResultView> {
    v.map_values(|r: RunResult| r@)
}

/// Response headers as `"Name: Value\r\n"` each, in order.
pub open spec fn header_block(hs: Seq<(Seq<char>, Seq<char>)>) -> Seq<char>
    decreases hs.len(),
{
    if hs.len() == 0 {
        Seq::empty()
    } else {
        header_block(hs.drop_last()) + hs.last().0 + seq![':', ' '] + hs.last().1 + seq![
            '\r',
            '\n',
        ]
    }
}

/// `"code reason"`.
pub open spec fn status_text(code: Seq<char>, reason: Seq<char>) -> Seq<char> {
    code + seq![' '] + reason
}

/// A response as one text: status line, headers, an empty line, the body.
pub open spec fn response_spec(r: RunResultView) -> Seq<char> {
    match r {
        RunResultView::Success { version, status, headers, body, .. } => version + seq![' ']
            + status + seq!['\r', '\n'] + headers + seq!['\r', '\n'] + body,
        RunResultView::Failure { error, .. } => error,
    }
}

/// What a results table shows as status: the status text, or the error.
pub open spec fn status_or_error(r: RunResultView) -> Seq<char> {
    match r {
        RunResultView::Success { status, .. } => status,
        RunResultView::Failure { error, .. } => error,
    }
}

/// The header block of `hs`.
pub fn header_block_of(hs: &Vec<(String, String)>) -> (r: String)
    ensures
        r@ == header_block(pairs_view(hs@)),
{
    let mut out = String::new();
    let mut i: usize = 0;
    while i < hs.len()
        invariant
            i <= hs.len(),
            out@ == header_block(pairs_view(hs@).subrange(0, i as int)),
        decreases hs.len() - i,
    {
        let name = chars_of(hs[i].0.as_str());
        let value = chars_of(hs[i].1.as_str());
        push_chars(&mut out, &name);
        push_char(&mut out, ':');
        push_char(&mut out, ' ');
        push_chars(&mut out, &value);
        push_char(&mut out, '\r');
        push_char(&mut out, '\n');
        let ghost sub = pairs_view(hs@).subrange(0, i + 1);
        assert(sub.drop_last() =~= pairs_view(hs@).subrange(0, i as int));
        assert(sub.last() == pairs_view(hs@)[i as int]);
        i = i + 1;
        assert(out@ =~= header_block(sub));
    }
    assert(pairs_view(hs@).subrange(0, i as int) =~= pairs_view(hs@));
    out
}

impl RunResult {
    /// The result of a request that was answered.
    pub fn success(
        index: usize,
        version: String,
        code: &str,
        reason: &str,
        headers: &Vec<(String, String)>,
        body: String,
    ) -> (r: RunResult)
        ensures
            r@ == (RunResultView::Success {
                index: index as nat,
                version: version@,
                status: status_text(code@, reason@),
                headers: header_block(pairs_view(headers@)),
                body: body@,
            }),
    {
        let mut status = String::new();
        push_chars(&mut status, &chars_of(code));
        push_char(&mut status, ' ');
        push_chars(&mut status, &chars_of(reason));
        assert(status@ =~= status_text(code@, reason@));
        RunResult::Success { index, version, status, headers: header_block_of(headers), body }
    }

    /// The result of a request that could not be completed.
    pub fn failure(index: usize, error: String) -> (r: RunResult)
        ensures
            r@ == (RunResultView::Failure { index: index as nat, error: error@ }),
    {
        RunResult::Failure { index, error }
    }

    pub fn index(&self) -> (r: usize)
        ensures
            r as nat == self@.index(),
    {
        match self {
            RunResult::Success { index, .. } => *index,
            RunResult::Failure { index, .. } => *index,
        }
    }

    pub fn is_failure(&self) -> (r: bool)
        ensures
            r == self@ is Failure,
    {
        match self {
            RunResult::Success { .. } => false,
            RunResult::Failure { .. } => true,
        }
    }

    /// The status line text; for a failure, the error description.
    pub fn status_or_error(&self) -> (r: &String)
        ensures
            r@ == status_or_error(self@),
    {
        match self {
            RunResult::Success { status, .. } => status,
            RunResult::Failure { error, .. } => error,
        }
    }

    /// The response as one text; for a failure, the error description.
    pub fn response_text(&self) -> (r: String)
        ensures
            r@ == response_spec(self@),
    {
        match self {
            RunResult::Success { version, status, headers, body, .. } => {
                let mut out = String::new();
                push_chars(&mut out, &chars_of(version.as_str()));
                push_char(&mut out, ' ');
                push_chars(&mut out, &chars_of(status.as_str()));
                push_char(&mut out, '\r');
                push_char(&mut out, '\n');
                push_chars(&mut out, &chars_of(headers.as_str()));
                push_char(&mut out, '\r');
                push_char(&mut out, '\n');
                push_chars(&mut out, &chars_of(body.as_str()));
                assert(out@ =~= response_spec(self@));
                out
            },
            RunResult::Failure { error, .. } => error.clone(),
        }
    }
}

pub struct CoordinatorView {
    pub pending: Set<u64>,
    pub next_task: nat,
    pub results: Seq<RunResultView>,
}

/// Effect of handing the coordinator the results of `task`: taken once,
/// while the task is pending; ignored otherwise.
pub open spec fn drained(v: CoordinatorView, task: u64, batch: Seq<RunResultView>) -> CoordinatorView {
    if v.pending.contains(task) {
        CoordinatorView { pending: v.pending.remove(task), results: v.results + batch, ..v }
    } else {
        v
    }
}

/// Owns the runs in flight and the results of the finished ones. Each chunk
/// of a run is a task with an id of its own; its results are appended once,
/// when it is drained, in whatever order tasks finish.
pub struct RunCoordinator {
    pending: Vec<u64>,
    next_task: u64,
    results: Vec<RunResult>,
}

impl View for RunCoordinator {
    type V = CoordinatorView;

    closed spec fn view(&self) -> CoordinatorView {
        CoordinatorView {
            pending: self.pending@.to_set(),
            next_task: self.next_task as nat,
            results: results_view(self.results@),
        }
    }
}

impl RunCoordinator {
    /// Every pending task has an id below the next one handed out.
    pub open spec fn wf(&self) -> bool {
        forall|t: u64| #[trigger] self@.pending.contains(t) ==> (t as nat) < self@.next_task
    }

    pub fn new() -> (r: RunCoordinator)
        ensures
            r.wf(),
            r@.pending == Set::<u64>::empty(),
            r@.next_task == 0,
            r@.results == Seq::<RunResultView>::empty(),
    {
        let r = RunCoordinator { pending: Vec::new(), next_task: 0, results: Vec::new() };
        assert(r@.pending =~= Set::<u64>::empty());
        assert(r@.results =~= Seq::<RunResultView>::empty());
        r
    }

    /// Starts a run: `payloads` cut into chunks, each chunk a new pending
    /// task. Returns the tasks, in chunk order, for the caller to execute;
    /// `None`, with nothing changed, when task ids would run out.
    pub fn dispatch(&mut self, payloads: &Vec<Request>) -> (r: Option<Vec<(u64, Vec<Request>)>>)
        requires
            old(self).wf(),
        ensures
            final(self).wf(),
            final(self)@.results == old(self)@.results,
            match r {
                Some(tasks) => {
                    let cs = chunked(
                        requests_view(payloads@),
                        batch_size_spec(payloads.len() as nat),
                    );
                    &&& tasks.len() == cs.len()
                    &&& final(self)@.next_task == old(self)@.next_task + cs.len()
                    &&& forall|j: int|
                        0 <= j < tasks.len() ==> (#[trigger] tasks[j]).0 as nat
                            == old(self)@.next_task + j && requests_view(tasks[j].1@) == cs[j]
                    &&& forall|t: u64|
                        #[trigger] final(self)@.pending.contains(t) <==> (old(self)@.pending.contains(
                            t,
                        ) || (old(self)@.next_task <= t as nat && (t as nat) < final(self)@.next_task))
                },
                None => *final(self) == *old(self),
            },
            r is None <==> old(self)@.next_task + chunked(
                requests_view(payloads@),
                batch_size_spec(payloads.len() as nat),
            ).len() > u64::MAX,
    {
        let chunks = BatchRequest::partition(payloads);
        let ghost cs = chunks_view(chunks@);
        let count = chunks.len();
        if count as u64 > u64::MAX - self.next_task {
            return None;
        }
        let ghost old_pending = self.pending@;
        let ghost start = self.next_task;
        let mut tasks: Vec<(u64, Vec<Request>)> = Vec::new();
        let mut rest = chunks;
        let mut j: usize = 0;
        while j < count
            invariant
                rest.len() == count - j,
                j <= count,
                count == cs.len(),
                start as nat + count <= u64::MAX,
                self.next_task == start + j,
                self.results == old(self).results,
                forall|k: int|
                    0 <= k < rest.len() ==> requests_view(#[trigger] rest@[k]@) == cs[j + k],
                tasks.len() == j,
                forall|k: int|
                    0 <= k < j ==> (#[trigger] tasks[k]).0 as nat == start + k && requests_view(
                        tasks[k].1@,
                    ) == cs[k],
                forall|t: u64|
                    #[trigger] self.pending@.contains(t) <==> (old_pending.contains(t) || (start
                        <= t && t < start + j)),
            decreases count - j,
        {
            let chunk = rest.remove(0);
            let id = self.next_task;
            self.pending.push(id);
            tasks.push((id, chunk));
            self.next_task = self.next_task + 1;
            j = j + 1;
        }
        proof {
            assert forall|t: u64| #[trigger] self@.pending.contains(t) implies (t as nat)
                < self@.next_task by {
                assert(self.pending@.contains(t));
                if old_pending.contains(t) {
                    assert(old(self)@.pending.contains(t));
                }
            }
            assert forall|t: u64| #[trigger] self@.pending.contains(t) <==> (old(self)@.pending.contains(t) || (old(self)@.next_task <= t as nat && (t as nat)
                < self@.next_task)) by {
                assert(self@.pending.contains(t) == self.pending@.contains(t));
                assert(old(self)@.pending.contains(t) == old_pending.contains(t));
            }
        }
        Some(tasks)
    }

    /// Hands over the results of `task`. They are appended, and the task
    /// leaves the pending set, only if it was pending; a task drained before
    /// leaves everything as it is. Returns whether the results were taken.
    pub fn drain(&mut self, task: u64, batch: Vec<RunResult>) -> (taken: bool)
        requires
            old(self).wf(),
        ensures
            final(self).wf(),
            final(self)@ == drained(old(self)@, task, results_view(batch@)),
            taken == old(self)@.pending.contains(task),
    {
        let mut found = false;
        let mut i: usize = 0;
        while i < self.pending.len()
            invariant
                i <= self.pending.len(),
                found == self.pending@.subrange(0, i as int).contains(task),
            decreases self.pending.len() - i,
        {
            if self.pending[i] == task {
                found = true;
            }
            i = i + 1;
            assert(self.pending@.subrange(0, i as int) =~= self.pending@.subrange(
                0,
                i - 1,
            ).push(self.pending@[i - 1]));
        }
        assert(self.pending@.subrange(0, i as int) =~= self.pending@);
        assert(found == self@.pending.contains(task));
        if !found {
            return false;
        }
        let mut kept: Vec<u64> = Vec::new();
        let mut i: usize = 0;
        while i < self.pending.len()
            invariant
                i <= self.pending.len(),
                forall|t: u64|
                    #[trigger] kept@.contains(t) <==> (self.pending@.subrange(0, i as int).contains(t)
                        && t != task),
            decreases self.pending.len() - i,
        {
            let t = self.pending[i];
            if t != task {
                kept.push(t);
            }
            i = i + 1;
            assert(self.pending@.subrange(0, i as int) =~= self.pending@.subrange(
                0,
                i - 1,
            ).push(t));
        }
        assert(self.pending@.subrange(0, i as int) =~= self.pending@);
        let ghost old_results = self.results@;
        let ghost handed = batch@;
        let mut batch = batch;
        self.results.append(&mut batch);
        self.pending = kept;
        assert(self@.pending =~= old(self)@.pending.remove(task));
        assert(results_view(self.results@) =~= results_view(old_results) + results_view(handed));
        true
    }

    /// Whether `task` is still pending.
    pub fn is_pending(&self, task: u64) -> (r: bool)
        ensures
            r == self@.pending.contains(task),
    {
        let mut i: usize = 0;
        while i < self.pending.len()
            invariant
                i <= self.pending.len(),
                !self.pending@.subrange(0, i as int).contains(task),
            decreases self.pending.len() - i,
        {
            if self.pending[i] == task {
                assert(self.pending@[i as int] == task);
                return true;
            }
            i = i + 1;
            assert(self.pending@.subrange(0, i as int) =~= self.pending@.subrange(
                0,
                i - 1,
            ).push(self.pending@[i - 1]));
        }
        assert(self.pending@.subrange(0, i as int) =~= self.pending@);
        false
    }

    /// Whether no task is pending.
    pub fn is_idle(&self) -> (r: bool)
        ensures
            r == (self@.pending == Set::<u64>::empty()),
    {
        if self.pending.len() == 0 {
            assert(self@.pending =~= Set::<u64>::empty());
            true
        } else {
            assert(self@.pending.contains(self.pending@[0]));
            false
        }
    }

    /// The results drained so far, in the order they were drained.
    pub fn results(&self) -> (r: &Vec<RunResult>)
        ensures
            results_view(r@) == self@.results,
    {
        &self.results
    }

    /// Position in the results of the first one for request `index`.
    pub fn result_for(&self, index: usize) -> (r: Option<usize>)
        ensures
            match r {
                Some(p) => p < self@.results.len() && self@.results[p as int].index()
                    == index as nat && forall|q: int|
                    0 <= q < p ==> (#[trigger] self@.results[q]).index() != index as nat,
                None => forall|q: int|
                    0 <= q < self@.results.len() ==> (#[trigger] self@.results[q]).index()
                        != index as nat,
            },
    {
        let mut i: usize = 0;
        while i < self.results.len()
            invariant
                i <= self.results.len(),
                forall|q: int| 0 <= q < i ==> (#[trigger] self@.results[q]).index() != index as nat,
            decreases self.results.len() - i,
        {
            if self.results[i].index() == index {
                return Some(i);
            }
            i = i + 1;
        }
        None
    }
}

/// Draining is idempotent: handing over a task's results a second time
/// changes nothing, whatever is handed over.
pub proof fn lemma_drain_idempotent(
    v: CoordinatorView,
    task: u64,
    first: Seq<RunResultView>,
    second: Seq<RunResultView>,
)
    ensures
        drained(drained(v, task, first), task, second) == drained(v, task, first),
{
}

/// A pending task's results are appended exactly once, after those drained
/// before.
pub proof fn lemma_drain_appends_once(v: CoordinatorView, task: u64, batch: Seq<RunResultView>)
    requires
        v.pending.contains(task),
    ensures
        drained(v, task, batch).results == v.results + batch,
        !drained(v, task, batch).pending.contains(task),
{
}

} // verus!
