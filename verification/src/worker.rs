//! Background jobs: what the front end asks of its worker threads, what they
//! answer, and how each answer finds the tab that asked for it.
use vstd::prelude::*;
use std::collections::HashMap;
use std::sync::mpsc;
use base64::Engine;
use crate::git::GitInfo;
use crate::tab::TabId;
use crate::text::{char_utf8_len, contains_seq, contains_str, push_char, utf8_len};

verus! {

broadcast use vstd::std_specs::hash::group_hash_axioms;

#[verifier::external_type_specification]
#[verifier::external_body]
#[verifier::reject_recursive_types(T)]
pub struct ExSender<T>(mpsc::Sender<T>);

#[verifier::external_type_specification]
#[verifier::external_body]
#[verifier::reject_recursive_types(T)]
pub struct ExReceiver<T>(mpsc::Receiver<T>);

/// A job's id: a random number, so that two jobs in flight almost surely
/// have different ids.
#[derive(Clone, Copy, Debug, PartialEq, Eq, Hash, Structural)]
pub struct JobId(pub u64);

/// `rand::random::<u64>()`, from the thread-local generator. Nothing is
/// promised of the number.
#[verifier::external_body]
fn random_u64() -> u64 {
    rand::random::<u64>()
}

impl JobId {
    /// A fresh random id.
    pub fn new() -> JobId {
        JobId(random_u64())
    }
}

/// A job for a worker thread.
#[derive(Clone, Debug)]
pub struct Job {
    pub id: JobId,
    pub kind: JobKind,
}

#[derive(Clone, Debug)]
pub enum JobKind {
    /// Searches `path` with ripgrep.
    Rg { path: String, regex: String },
    /// Lists the files under `path` that match a glob pattern.
    Glob { path: String, pattern: String },
    /// Runs a shell-like command in `path`.
    Run { path: String, command: String },
    /// Sends the next turn of a chat to the model.
    AddChatTurn { chat_id: u64, api_keys: Vec<(String, String)>, input: String },
    FindInChats { regex: String },
    CalcDirectorySize { path: String },
    GetFilePreview { path: String },
    GetGitInfo { path: String },
    SynchronizeSkillsConfig,
}

/// What a command printed.
#[derive(Clone, Debug)]
pub struct RunOutput {
    pub stdout: Vec<u8>,
    pub stderr: Vec<u8>,
    pub status: Option<i32>,
    pub timeout: bool,
}

/// A short look at a file, for the file browser.
#[derive(Clone, Debug)]
pub enum FilePreview {
    NoPreview,
    Text { preview: String, truncated: bool },
    Image { thumbnail_path: String, width: u32, height: u32 },
    Pdf { thumbnail_path: String, total_pages: usize },
}

/// A worker's answer. `id` is `None` only for a failure of the worker
/// itself, which answers no particular job.
#[derive(Clone, Debug)]
pub struct JobResult {
    pub id: Option<JobId>,
    pub kind: JobResultKind,
}

#[derive(Clone, Debug)]
pub enum JobResultKind {
    Rg { regex: String, matches: Vec<RgMatch>, count: usize },
    RgTimeout,
    RgError(String),
    Glob { pattern: String, matches: Vec<GlobMatch>, timeout: bool },
    GlobError(String),
    Run(RunOutput),
    RunError(String),
    InvalidCommand { error: String },
    AddChatTurnSuccess,
    AddChatTurnError(String),
    CannotAttachFileToChat { file: String, error: String },
    FindInChats { regex: String, matches: Vec<(u64, Vec<String>)> },
    FindInChatsError(String),
    CalcDirectorySize(u64),
    CalcDirectorySizeError(String),
    GetFilePreview { path: String, preview: FilePreview },
    GetGitInfo(GitInfo),
    GetGitInfoError(String),
    WorkerError(String),
}

/// One line that ripgrep matched, with the byte ranges of the matches in it.
#[derive(Clone, Debug)]
pub struct RgMatch {
    pub path: String,
    pub line: String,
    pub line_number: usize,
    pub submatches: Vec<(usize, usize)>,
}

/// A path that matched a glob pattern.
#[derive(Clone, Debug)]
pub struct GlobMatch {
    pub path: String,
    pub is_symlink: bool,
    pub is_dir: bool,
}

/// A job that could not be handed to a worker, because its thread has
/// gone: the job comes back.
#[derive(Debug)]
pub struct JobNotSent(pub Job);

/// The two ends of the channels to one worker thread, and the jobs offered
/// to it so far (see `handed`).
pub struct Worker {
    pub tx_from_main: mpsc::Sender<Job>,
    pub rx_to_main: mpsc::Receiver<JobResult>,
    /// The jobs offered to the channel, in order: every send records its
    /// job, also one that failed because the thread had gone.
    pub handed: Ghost<Seq<Job>>,
}

impl Worker {
    /// A worker on these channels, with no job handed to it yet.
    pub fn new(tx_from_main: mpsc::Sender<Job>, rx_to_main: mpsc::Receiver<JobResult>) -> (r: Worker)
        ensures
            r.tx_from_main == tx_from_main,
            r.rx_to_main == rx_to_main,
            r.handed().len() == 0,
    {
        Worker { tx_from_main, rx_to_main, handed: Ghost(Seq::empty()) }
    }

    /// The jobs offered to this worker's channel, in order (see `handed`).
    pub open spec fn handed(&self) -> Seq<Job> {
        self.handed@
    }

    /// `mpsc::Sender::send`: hands the job to the worker thread's channel,
    /// which the contract records; the channels stay the same. The send
    /// fails when the thread has gone, and then the error gives the job
    /// back; nothing is claimed of which of the two happens.
    #[verifier::external_body]
    pub fn send(&mut self, msg: Job) -> (r: Result<(), JobNotSent>)
        ensures
            final(self).handed() == old(self).handed().push(msg),
            final(self).tx_from_main == old(self).tx_from_main,
            final(self).rx_to_main == old(self).rx_to_main,
            r matches Err(e) ==> e.0 == msg,
    {
        match self.tx_from_main.send(msg) {
            Ok(()) => Ok(()),
            Err(mpsc::SendError(job)) => Err(JobNotSent(job)),
        }
    }

    /// `mpsc::Receiver::try_recv`, its outcome told apart by variant: an
    /// answer of the worker thread, `Empty` where none is waiting, `Gone`
    /// where the thread has dropped its end. Which of them comes depends
    /// on the thread, and nothing is claimed of it.
    #[verifier::external_body]
    pub fn try_recv(&self) -> WorkerPoll {
        match self.rx_to_main.try_recv() {
            Ok(msg) => WorkerPoll::Answer(msg),
            Err(mpsc::TryRecvError::Empty) => WorkerPoll::Empty,
            Err(mpsc::TryRecvError::Disconnected) => WorkerPoll::Gone,
        }
    }
}

/// The pool of worker threads.
pub struct Workers {
    /// How many jobs were handed out; the next one goes to worker
    /// `(round_robin + 1) % workers.len()`.
    pub round_robin: usize,
    /// The tab that asked for each job in flight, by job id.
    pub tab_id_by_job_id: HashMap<u64, Option<TabId>>,
    pub workers: Vec<Worker>,
}

/// Routing one answer: the tab that asked for the job is looked up and the
/// job is forgotten. An answer with no id, or with an id that is not in
/// flight, goes to no tab.
pub open spec fn route_step(m: Map<u64, Option<TabId>>, id: Option<JobId>) -> (Map<u64, Option<TabId>>, Option<TabId>) {
    match id {
        Some(j) => if m.contains_key(j.0) {
            (m.remove(j.0), m[j.0])
        } else {
            (m, None)
        },
        None => (m, None),
    }
}

/// Routing answers in order: the table left at the end, and the tab of each answer.
pub open spec fn route(m: Map<u64, Option<TabId>>, ids: Seq<Option<JobId>>) -> (Map<u64, Option<TabId>>, Seq<Option<TabId>>)
    decreases ids.len(),
{
    if ids.len() == 0 {
        (m, Seq::empty())
    } else {
        let prev = route(m, ids.drop_last());
        let (m2, t) = route_step(prev.0, ids.last());
        (m2, prev.1.push(t))
    }
}

pub open spec fn answer_ids(r: Seq<(JobResult, Option<TabId>)>) -> Seq<Option<JobId>> {
    r.map_values(|p: (JobResult, Option<TabId>)| p.0.id)
}

/// Law: the answer to a job that was handed out for a tab goes to that
/// tab, and the job is forgotten.
pub proof fn lemma_answer_goes_to_asking_tab(m: Map<u64, Option<TabId>>, id: JobId, tab: Option<TabId>)
    ensures
        route(m.insert(id.0, tab), seq![Some(id)]) == (m.insert(id.0, tab).remove(id.0), seq![tab]),
{
    let m2 = m.insert(id.0, tab);
    let ids = seq![Some(id)];
    assert(ids.drop_last() =~= Seq::<Option<JobId>>::empty());
    assert(ids.last() == Some(id));
    let prev = route(m2, ids.drop_last());
    assert(prev == (m2, Seq::<Option<TabId>>::empty()));
    assert(route_step(prev.0, Some(id)) == (m2.remove(id.0), tab));
    assert(Seq::<Option<TabId>>::empty().push(tab) =~= seq![tab]);
}

proof fn lemma_route_len(m: Map<u64, Option<TabId>>, ids: Seq<Option<JobId>>)
    ensures
        route(m, ids).1.len() == ids.len(),
    decreases ids.len(),
{
    if ids.len() > 0 {
        lemma_route_len(m, ids.drop_last());
    }
}

fn take_tab(map: &mut HashMap<u64, Option<TabId>>, id: Option<JobId>) -> (r: Option<TabId>)
    ensures
        (final(map)@, r) == route_step(old(map)@, id),
{
    match id {
        Some(j) => {
            let removed = map.remove(&j.0);
            proof {
                if !old(map)@.contains_key(j.0) {
                    assert(old(map)@.remove(j.0) =~= old(map)@);
                }
            }
            match removed {
                Some(t) => t,
                None => None,
            }
        },
        None => None,
    }
}

/// What a look at one worker's channel finds.
pub enum WorkerPoll {
    Answer(JobResult),
    /// Nothing is waiting.
    Empty,
    /// The worker thread has gone.
    Gone,
}

/// The answers among the looks, in order.
pub open spec fn answers(polls: Seq<WorkerPoll>) -> Seq<JobResult>
    decreases polls.len(),
{
    if polls.len() == 0 {
        Seq::empty()
    } else {
        match polls.last() {
            WorkerPoll::Answer(m) => answers(polls.drop_last()).push(m),
            _ => answers(polls.drop_last()),
        }
    }
}

pub open spec fn answer_results(r: Seq<(JobResult, Option<TabId>)>) -> Seq<JobResult> {
    r.map_values(|p: (JobResult, Option<TabId>)| p.0)
}

/// What `deliver` does: the answers are handed out in order, each with the
/// tab that the table names for its job, and the table forgets them; a
/// worker whose thread has gone is one that `spawn` made; nothing else
/// changes.
pub open spec fn delivered<F: Fn() -> Worker>(
    before: Workers,
    polls: Seq<WorkerPoll>,
    spawn: F,
    after: Workers,
    r: Seq<(JobResult, Option<TabId>)>,
) -> bool {
    &&& answer_results(r) == answers(polls)
    &&& after.round_robin == before.round_robin
    &&& after.tab_id_by_job_id@ == route(before.tab_id_by_job_id@, answer_ids(r)).0
    &&& forall|k: int|
        0 <= k < r.len() ==> (#[trigger] r[k]).1 == route(before.tab_id_by_job_id@, answer_ids(r)).1[k]
    &&& after.workers@.len() == before.workers@.len()
    &&& forall|j: int|
        0 <= j < before.workers@.len() ==> if polls[j] is Gone {
            call_ensures(spawn, (), #[trigger] after.workers@[j])
        } else {
            after.workers@[j] == before.workers@[j]
        }
}

impl Workers {
    /// Hands a job to the next worker in turn, remembering which tab asked:
    /// the job goes to worker `(round_robin + 1) % workers.len()`, and to no
    /// other, so that consecutive jobs reach the workers in turn.
    pub fn push(&mut self, tab_id: Option<TabId>, job: Job) -> (r: Result<(), JobNotSent>)
        requires
            old(self).workers@.len() > 0,
            old(self).round_robin < usize::MAX,
        ensures
            final(self).round_robin == old(self).round_robin + 1,
            final(self).tab_id_by_job_id@ == old(self).tab_id_by_job_id@.insert(job.id.0, tab_id),
            final(self).workers@.len() == old(self).workers@.len(),
            ({
                let t = (old(self).round_robin + 1) % (old(self).workers@.len() as int);
                forall|j: int|
                    0 <= j < old(self).workers@.len() ==> if j == t {
                        &&& (#[trigger] final(self).workers@[j]).handed() == old(self).workers@[j].handed().push(job)
                        &&& final(self).workers@[j].tx_from_main == old(self).workers@[j].tx_from_main
                        &&& final(self).workers@[j].rx_to_main == old(self).workers@[j].rx_to_main
                    } else {
                        final(self).workers@[j] == old(self).workers@[j]
                    }
            }),
            // A job that could not be sent comes back.
            r matches Err(e) ==> e.0 == job,
    {
        self.round_robin += 1;
        self.tab_id_by_job_id.insert(job.id.0, tab_id);
        let i = self.round_robin % self.workers.len();
        let ghost before = self.workers@;
        let mut w = self.workers.remove(i);
        let r = w.send(job);
        self.workers.insert(i, w);
        assert(self.workers@ =~= before.update(i as int, w));
        r
    }

    /// Takes what a look at each worker's channel found, in the order of the
    /// workers: every answer, in order, with the tab that asked for it (the
    /// job is then forgotten), and each worker whose thread has gone is
    /// replaced with one from `spawn`.
    pub fn deliver<F: Fn() -> Worker>(&mut self, polls: Vec<WorkerPoll>, spawn: F) -> (r: Vec<(JobResult, Option<TabId>)>)
        requires
            call_requires(spawn, ()),
            polls@.len() == old(self).workers@.len(),
        ensures
            delivered(*old(self), polls@, spawn, *final(self), r@),
    {
        let ghost m0 = self.tab_id_by_job_id@;
        let ghost w0 = self.workers@;
        let ghost p0 = polls@;
        let mut polls = polls;
        let mut result: Vec<(JobResult, Option<TabId>)> = Vec::new();
        let n = polls.len();
        let mut i: usize = 0;
        while i < n
            invariant
                i <= n,
                n == polls@.len(),
                n == p0.len(),
                n == self.workers@.len(),
                forall|j: int| i <= j < n ==> #[trigger] polls@[j] == p0[j],
                self.round_robin == old(self).round_robin,
                m0 == old(self).tab_id_by_job_id@,
                w0 == old(self).workers@,
                call_requires(spawn, ()),
                answers(p0.take(i as int)) == answer_results(result@),
                self.tab_id_by_job_id@ == route(m0, answer_ids(result@)).0,
                forall|k: int|
                    0 <= k < result@.len() ==> (#[trigger] result@[k]).1 == route(
                        m0,
                        answer_ids(result@),
                    ).1[k],
                forall|j: int|
                    0 <= j < n ==> if j < i && p0[j] is Gone {
                        call_ensures(spawn, (), #[trigger] self.workers@[j])
                    } else {
                        self.workers@[j] == w0[j]
                    },
            decreases n - i,
        {
            let mut poll = WorkerPoll::Empty;
            std::mem::swap(&mut poll, &mut polls[i]);
            assert(poll == p0[i as int]);
            assert(p0.take(i + 1).drop_last() =~= p0.take(i as int));
            match poll {
                WorkerPoll::Answer(msg) => {
                    let ghost before = result@;
                    let tab = take_tab(&mut self.tab_id_by_job_id, msg.id);
                    result.push((msg, tab));
                    proof {
                        assert(answer_ids(result@).drop_last() =~= answer_ids(before));
                        assert(answer_results(result@).drop_last() =~= answer_results(before));
                        lemma_route_len(m0, answer_ids(before));
                        assert forall|k: int| 0 <= k < result@.len() implies (#[trigger] result@[k]).1
                            == route(m0, answer_ids(result@)).1[k] by {
                            if k < before.len() {
                                assert(result@[k] == before[k]);
                            }
                        }
                    }
                },
                WorkerPoll::Empty => {},
                WorkerPoll::Gone => {
                    let fresh = spawn();
                    self.workers.set(i, fresh);
                },
            }
            i += 1;
        }
        assert(p0.take(n as int) =~= p0);
        result
    }

    /// Collects the answers that are waiting, at most one per worker, each
    /// with the tab that asked for it, and replaces each worker whose thread
    /// has gone with one from `spawn`. What each channel holds is up to the
    /// worker threads: the result is what `deliver` makes of some look at
    /// each of them.
    pub fn poll<F: Fn() -> Worker>(&mut self, spawn: F) -> (r: Vec<(JobResult, Option<TabId>)>)
        requires
            call_requires(spawn, ()),
        ensures
            exists|polls: Seq<WorkerPoll>|
                polls.len() == old(self).workers@.len() && delivered(
                    *old(self),
                    polls,
                    spawn,
                    *final(self),
                    r@,
                ),
    {
        let mut polls: Vec<WorkerPoll> = Vec::new();
        let n = self.workers.len();
        let mut i: usize = 0;
        while i < n
            invariant
                i <= n,
                n == self.workers@.len(),
                polls@.len() == i,
            decreases n - i,
        {
            let poll = self.workers[i].try_recv();
            polls.push(poll);
            i += 1;
        }
        let ghost p = polls@;
        let r = self.deliver(polls, spawn);
        assert(delivered(*old(self), p, spawn, *self, r@));
        r
    }
}

/// A pool of `count` workers, each made by `spawn`, with no job in flight.
pub fn init_workers<F: Fn() -> Worker>(count: usize, spawn: F) -> (r: Workers)
    requires
        call_requires(spawn, ()),
    ensures
        r.round_robin == 0,
        r.tab_id_by_job_id@ == Map::<u64, Option<TabId>>::empty(),
        r.workers@.len() == count,
        forall|j: int| 0 <= j < count ==> call_ensures(spawn, (), #[trigger] r.workers@[j]),
{
    let mut workers: Vec<Worker> = Vec::new();
    let mut i: usize = 0;
    while i < count
        invariant
            i <= count,
            workers@.len() == i,
            call_requires(spawn, ()),
            forall|j: int| 0 <= j < i ==> call_ensures(spawn, (), #[trigger] workers@[j]),
        decreases count - i,
    {
        let w = spawn();
        workers.push(w);
        i += 1;
    }
    Workers { round_robin: 0, tab_id_by_job_id: HashMap::new(), workers }
}

/// A text field of ripgrep's JSON output: the text itself, or, where it is
/// not UTF-8, its bytes in standard base64.
#[derive(Clone, Debug)]
pub struct RgText {
    pub text: Option<String>,
    pub bytes: Option<String>,
}

/// One match inside a line, as byte offsets.
#[derive(Clone, Debug)]
pub struct RgSubmatch {
    pub start: usize,
    pub end: usize,
}

#[derive(Clone, Debug)]
pub struct RgMatchData {
    pub path: RgText,
    pub lines: RgText,
    pub line_number: usize,
    pub submatches: Vec<RgSubmatch>,
}

/// A "match" record of `rg --json`.
#[derive(Clone, Debug)]
pub struct RgMatchLine {
    pub data: RgMatchData,
}

/// What `base64::prelude::BASE64_STANDARD.decode` gives for a text: the
/// bytes, or `None` where the text is not valid standard base64.
pub uninterp spec fn base64_standard_decode(s: Seq<char>) -> Option<Seq<u8>>;

/// What `String::from_utf8_lossy` gives for some bytes.
pub uninterp spec fn utf8_lossy(bytes: Seq<u8>) -> Seq<char>;

/// `BASE64_STANDARD.decode` (base64 crate): the contract claims only that
/// the result is the named decoding of the text.
#[verifier::external_body]
fn decode_base64(s: &str) -> (r: Option<Vec<u8>>)
    ensures
        match base64_standard_decode(s@) {
            Some(b) => r matches Some(v) && v@ == b,
            None => r is None,
        },
{
    base64::prelude::BASE64_STANDARD.decode(s).ok()
}

/// `String::from_utf8_lossy`, made an owned `String`: the contract claims
/// that the result is the named decoding of the bytes, and that bytes of
/// valid UTF-8 (see `utf8_text`) give their own text, as the function's
/// documentation says (it then borrows the input as a `str`).
#[verifier::external_body]
pub(crate) fn lossy_text(bytes: &[u8]) -> (r: String)
    ensures
        r@ == utf8_lossy(bytes@),
        utf8_text(bytes@) matches Some(t) ==> r@ == t,
{
    String::from_utf8_lossy(bytes).to_string()
}

/// The text that a field stands for, where it can be recovered.
pub open spec fn rg_text_view(t: RgText) -> Option<Seq<char>> {
    match t.text {
        Some(s) => Some(s@),
        None => match t.bytes {
            Some(b) => match base64_standard_decode(b@) {
                Some(v) => Some(utf8_lossy(v)),
                None => None,
            },
            None => None,
        },
    }
}

/// A match as plain values: path, line, line number and byte ranges.
pub open spec fn rg_match_view(m: RgMatch) -> (Seq<char>, Seq<char>, usize, Seq<(usize, usize)>) {
    (m.path@, m.line@, m.line_number, m.submatches@)
}

pub open spec fn submatch_ranges(s: Seq<RgSubmatch>) -> Seq<(usize, usize)> {
    s.map_values(|m: RgSubmatch| (m.start, m.end))
}

/// The match that a record stands for, where both its texts can be recovered.
pub open spec fn rg_match_of(l: RgMatchLine) -> Option<(Seq<char>, Seq<char>, usize, Seq<(usize, usize)>)> {
    match (rg_text_view(l.data.path), rg_text_view(l.data.lines)) {
        (Some(p), Some(t)) => Some((p, t, l.data.line_number, submatch_ranges(l.data.submatches@))),
        _ => None,
    }
}

/// The matches of a run of ripgrep, in order: one per output line that is a
/// match record whose texts can be recovered.
pub open spec fn rg_matches(lines: Seq<Option<RgMatchLine>>) -> Seq<(Seq<char>, Seq<char>, usize, Seq<(usize, usize)>)>
    decreases lines.len(),
{
    if lines.len() == 0 {
        Seq::empty()
    } else {
        let prev = rg_matches(lines.drop_last());
        match lines.last() {
            Some(l) => match rg_match_of(l) {
                Some(m) => prev.push(m),
                None => prev,
            },
            None => prev,
        }
    }
}

/// How many byte ranges the matches hold in all.
pub open spec fn rg_count(ms: Seq<(Seq<char>, Seq<char>, usize, Seq<(usize, usize)>)>) -> nat
    decreases ms.len(),
{
    if ms.len() == 0 {
        0
    } else {
        rg_count(ms.drop_last()) + ms.last().3.len()
    }
}

/// How many byte ranges the match records hold in all.
pub open spec fn submatch_total(lines: Seq<Option<RgMatchLine>>) -> nat
    decreases lines.len(),
{
    if lines.len() == 0 {
        0
    } else {
        submatch_total(lines.drop_last()) + match lines.last() {
            Some(l) => l.data.submatches@.len(),
            None => 0,
        }
    }
}

proof fn lemma_rg_count_bound(lines: Seq<Option<RgMatchLine>>)
    ensures
        rg_count(rg_matches(lines)) <= submatch_total(lines),
    decreases lines.len(),
{
    if lines.len() > 0 {
        lemma_rg_count_bound(lines.drop_last());
        let prev = rg_matches(lines.drop_last());
        match lines.last() {
            Some(l) => match rg_match_of(l) {
                Some(m) => {
                    assert(prev.push(m).drop_last() =~= prev);
                },
                None => {},
            },
            None => {},
        }
    }
}

proof fn lemma_submatch_total_prefix(lines: Seq<Option<RgMatchLine>>, j: int)
    requires
        0 <= j <= lines.len(),
    ensures
        submatch_total(lines.take(j)) <= submatch_total(lines),
    decreases lines.len() - j,
{
    if j < lines.len() {
        lemma_submatch_total_prefix(lines, j + 1);
        assert(lines.take(j + 1).drop_last() =~= lines.take(j));
    } else {
        assert(lines.take(j) =~= lines);
    }
}

/// How many byte ranges the match records hold in all, where that fits in
/// a `usize` (what `parse_rg_output` requires).
pub fn submatch_total_of(lines: &Vec<Option<RgMatchLine>>) -> (r: Option<usize>)
    ensures
        match r {
            Some(n) => n == submatch_total(lines@),
            None => submatch_total(lines@) > usize::MAX,
        },
{
    let mut total: usize = 0;
    let mut i: usize = 0;
    while i < lines.len()
        invariant
            i <= lines@.len(),
            total == submatch_total(lines@.take(i as int)),
        decreases lines@.len() - i,
    {
        assert(lines@.take(i + 1).drop_last() =~= lines@.take(i as int));
        let n = match &lines[i] {
            Some(l) => l.data.submatches.len(),
            None => 0,
        };
        if n > usize::MAX - total {
            proof {
                lemma_submatch_total_prefix(lines@, i + 1);
            }
            return None;
        }
        total = total + n;
        i += 1;
    }
    assert(lines@.take(lines@.len() as int) =~= lines@);
    Some(total)
}

fn text_of(t: &RgText) -> (r: Option<String>)
    ensures
        match rg_text_view(*t) {
            Some(s) => r matches Some(v) && v@ == s,
            None => r is None,
        },
{
    match &t.text {
        Some(s) => Some(s.clone()),
        None => match &t.bytes {
            Some(b) => match decode_base64(b.as_str()) {
                Some(v) => Some(lossy_text(v.as_slice())),
                None => None,
            },
            None => None,
        },
    }
}

fn ranges_of(s: &Vec<RgSubmatch>) -> (r: Vec<(usize, usize)>)
    ensures
        r@ == submatch_ranges(s@),
{
    let mut r: Vec<(usize, usize)> = Vec::new();
    let mut i: usize = 0;
    while i < s.len()
        invariant
            i <= s@.len(),
            r@ == submatch_ranges(s@.take(i as int)),
        decreases s@.len() - i,
    {
        r.push((s[i].start, s[i].end));
        proof {
            assert(submatch_ranges(s@.take(i + 1)) =~= submatch_ranges(s@.take(i as int)).push(
                (s@[i as int].start, s@[i as int].end),
            ));
        }
        i += 1;
    }
    assert(s@.take(s@.len() as int) =~= s@);
    r
}

/// Reads the output of `rg --json`. `lines` holds, for each line of the
/// standard output, the match record that it parses to, or `None` where
/// it is another kind of record. A run that timed out, or whose standard
/// error (read as lossy UTF-8) mentions an error, has no matches.
pub fn parse_rg_output(regex: String, timeout: bool, stderr: &[u8], lines: Vec<Option<RgMatchLine>>) -> (r: JobResultKind)
    requires
        submatch_total(lines@) <= usize::MAX,
    ensures
        timeout ==> r is RgTimeout,
        !timeout ==> (utf8_text(stderr@) matches Some(t) ==> utf8_lossy(stderr@) == t),
        !timeout && contains_seq(utf8_lossy(stderr@), "error"@) ==> (r matches JobResultKind::RgError(e) && e@
            == utf8_lossy(stderr@)),
        !timeout && !contains_seq(utf8_lossy(stderr@), "error"@) ==> (r matches JobResultKind::Rg {
            regex: g,
            matches,
            count,
        } && g@ == regex@ && matches@.len() == rg_matches(lines@).len() && (forall|k: int|
            0 <= k < matches@.len() ==> rg_match_view(#[trigger] matches@[k]) == rg_matches(
                lines@,
            )[k]) && count == rg_count(rg_matches(lines@))),
{
    if timeout {
        return JobResultKind::RgTimeout;
    }
    let stderr = lossy_text(stderr);
    if contains_str(stderr.as_str(), "error") {
        return JobResultKind::RgError(stderr);
    }
    let mut matches: Vec<RgMatch> = Vec::new();
    let mut count: usize = 0;
    let mut i: usize = 0;
    while i < lines.len()
        invariant
            i <= lines@.len(),
            submatch_total(lines@) <= usize::MAX,
            matches@.len() == rg_matches(lines@.take(i as int)).len(),
            forall|k: int|
                0 <= k < matches@.len() ==> rg_match_view(#[trigger] matches@[k]) == rg_matches(
                    lines@.take(i as int),
                )[k],
            count == rg_count(rg_matches(lines@.take(i as int))),
        decreases lines@.len() - i,
    {
        let ghost pre = lines@.take(i as int);
        let ghost prev = rg_matches(pre);
        proof {
            assert(lines@.take(i + 1).drop_last() =~= pre);
            lemma_rg_count_bound(lines@.take(i + 1));
            lemma_submatch_total_prefix(lines@, i + 1);
        }
        match &lines[i] {
            Some(l) => {
                let path = text_of(&l.data.path);
                let text = text_of(&l.data.lines);
                match (path, text) {
                    (Some(p), Some(t)) => {
                        let ranges = ranges_of(&l.data.submatches);
                        let n = ranges.len();
                        let m = RgMatch { path: p, line: t, line_number: l.data.line_number, submatches: ranges };
                        proof {
                            assert(prev.push(rg_match_view(m)).drop_last() =~= prev);
                        }
                        count = count + n;
                        let ghost before = matches@;
                        matches.push(m);
                        proof {
                            assert forall|k: int| 0 <= k < matches@.len() implies rg_match_view(
                                #[trigger] matches@[k],
                            ) == rg_matches(lines@.take(i + 1))[k] by {
                                if k < prev.len() {
                                    assert(matches@[k] == before[k]);
                                }
                            }
                        }
                    },
                    _ => {},
                }
            },
            None => {},
        }
        i += 1;
    }
    assert(lines@.take(lines@.len() as int) =~= lines@);
    JobResultKind::Rg { regex, matches, count }
}

/// A UTF-8 continuation byte.
pub open spec fn is_continuation(b: u8) -> bool {
    0x80 <= b <= 0xBF
}

/// The character that UTF-8 bytes start with, as its scalar value, and how
/// many bytes it takes: one of the well-formed byte sequences of the
/// Unicode standard (no overlong form, no surrogate, nothing above
/// U+10FFFF), or `None`.
pub open spec fn utf8_first(b: Seq<u8>) -> Option<(int, int)> {
    if b.len() == 0 {
        None
    } else if b[0] < 0x80 {
        Some((b[0] as int, 1))
    } else if 0xC2 <= b[0] <= 0xDF {
        if b.len() >= 2 && is_continuation(b[1]) {
            Some(((b[0] - 0xC0) * 64 + (b[1] - 0x80), 2))
        } else {
            None
        }
    } else if 0xE0 <= b[0] <= 0xEF {
        let lo: int = if b[0] == 0xE0 { 0xA0 } else { 0x80 };
        let hi: int = if b[0] == 0xED { 0x9F } else { 0xBF };
        if b.len() >= 3 && lo <= b[1] <= hi && is_continuation(b[2]) {
            Some(((b[0] - 0xE0) * 4096 + (b[1] - 0x80) * 64 + (b[2] - 0x80), 3))
        } else {
            None
        }
    } else if 0xF0 <= b[0] <= 0xF4 {
        let lo: int = if b[0] == 0xF0 { 0x90 } else { 0x80 };
        let hi: int = if b[0] == 0xF4 { 0x8F } else { 0xBF };
        if b.len() >= 4 && lo <= b[1] <= hi && is_continuation(b[2]) && is_continuation(b[3]) {
            Some(
                (
                    (b[0] - 0xF0) * 262144 + (b[1] - 0x80) * 4096 + (b[2] - 0x80) * 64 + (b[3] - 0x80),
                    4,
                ),
            )
        } else {
            None
        }
    } else {
        None
    }
}

/// The text that bytes encode in UTF-8, or `None` where they are not valid
/// UTF-8: one character after another, each from its well-formed sequence.
pub open spec fn utf8_text(bytes: Seq<u8>) -> Option<Seq<char>>
    decreases bytes.len(),
{
    if bytes.len() == 0 {
        Some(Seq::empty())
    } else {
        match utf8_first(bytes) {
            Some((v, n)) => if 1 <= n <= bytes.len() {
                match utf8_text(bytes.skip(n)) {
                    Some(rest) => Some(seq![v as char] + rest),
                    None => None,
                }
            } else {
                None
            },
            None => None,
        }
    }
}

/// A decoded character is a Unicode scalar value, and its UTF-8 encoding
/// takes the bytes it was decoded from.
proof fn lemma_utf8_first(b: Seq<u8>)
    requires
        utf8_first(b) is Some,
    ensures
        ({
            let (v, n) = utf8_first(b)->0;
            &&& 1 <= n <= 4 && n <= b.len()
            &&& 0 <= v < 0xD800 || 0xE000 <= v <= 0x10FFFF
            &&& char_utf8_len(v as char) == n
            &&& (v as char) as int == v
        }),
{
}

proof fn lemma_char_of_scalar(c: char, v: u32)
    requires
        c as u32 == v,
    ensures
        c == ((v as int) as char),
{
}

/// `char::from_u32`: the character with scalar value `v`, or `None` where
/// `v` is a surrogate or above U+10FFFF.
#[verifier::external_body]
fn char_from_u32(v: u32) -> (r: Option<char>)
    ensures
        r is Some == (v < 0xD800 || 0xE000 <= v <= 0x10FFFF),
        r matches Some(c) ==> c as u32 == v,
{
    char::from_u32(v)
}

/// The first character of `bytes[i..]` (see `utf8_first`).
fn utf8_first_at(bytes: &[u8], i: usize) -> (r: Option<(u32, usize)>)
    requires
        i <= bytes@.len(),
    ensures
        match utf8_first(bytes@.skip(i as int)) {
            Some((v, n)) => r matches Some((x, m)) && x == v && m == n,
            None => r is None,
        },
{
    let len = bytes.len();
    let ghost b = bytes@.skip(i as int);
    if i >= len {
        return None;
    }
    let b0 = bytes[i];
    assert(b[0] == b0);
    if b0 < 0x80 {
        return Some((b0 as u32, 1));
    }
    let rest = len - i;
    if 0xC2 <= b0 && b0 <= 0xDF {
        if rest >= 2 && 0x80 <= bytes[i + 1] && bytes[i + 1] <= 0xBF {
            assert(b[1] == bytes[i + 1]);
            return Some(((b0 as u32 - 0xC0) * 64 + (bytes[i + 1] as u32 - 0x80), 2));
        }
        proof {
            if rest >= 2 {
                assert(b[1] == bytes@[i + 1]);
            }
        }
        return None;
    }
    if 0xE0 <= b0 && b0 <= 0xEF {
        let lo: u8 = if b0 == 0xE0 { 0xA0 } else { 0x80 };
        let hi: u8 = if b0 == 0xED { 0x9F } else { 0xBF };
        if rest >= 3 {
            let b1 = bytes[i + 1];
            let b2 = bytes[i + 2];
            assert(b[1] == b1 && b[2] == b2);
            if lo <= b1 && b1 <= hi && 0x80 <= b2 && b2 <= 0xBF {
                return Some(
                    ((b0 as u32 - 0xE0) * 4096 + (b1 as u32 - 0x80) * 64 + (b2 as u32 - 0x80), 3),
                );
            }
        }
        return None;
    }
    if 0xF0 <= b0 && b0 <= 0xF4 {
        let lo: u8 = if b0 == 0xF0 { 0x90 } else { 0x80 };
        let hi: u8 = if b0 == 0xF4 { 0x8F } else { 0xBF };
        if rest >= 4 {
            let b1 = bytes[i + 1];
            let b2 = bytes[i + 2];
            let b3 = bytes[i + 3];
            assert(b[1] == b1 && b[2] == b2 && b[3] == b3);
            if lo <= b1 && b1 <= hi && 0x80 <= b2 && b2 <= 0xBF && 0x80 <= b3 && b3 <= 0xBF {
                return Some(
                    (
                        (b0 as u32 - 0xF0) * 262144 + (b1 as u32 - 0x80) * 4096 + (b2 as u32 - 0x80) * 64
                            + (b3 as u32 - 0x80),
                        4,
                    ),
                );
            }
        }
        return None;
    }
    None
}

/// The text before `p`, then what `rest` decodes to, or `None`.
pub open spec fn text_after(p: Seq<char>, rest: Option<Seq<char>>) -> Option<Seq<char>> {
    match rest {
        Some(r) => Some(p + r),
        None => None,
    }
}

/// Decodes UTF-8 (what `String::from_utf8` does): the text of the bytes,
/// which takes those bytes again in UTF-8, or `None` where they are not
/// valid UTF-8.
pub(crate) fn decode_utf8(bytes: &[u8]) -> (r: Option<String>)
    ensures
        match utf8_text(bytes@) {
            Some(t) => r matches Some(s) && s@ == t && utf8_len(t) == bytes@.len(),
            None => r is None,
        },
{
    let mut s = String::new();
    let mut i: usize = 0;
    proof {
        assert(bytes@.skip(0) =~= bytes@);
        assert(s@ + utf8_text(bytes@)->0 =~= utf8_text(bytes@)->0);
    }
    while i < bytes.len()
        invariant
            i <= bytes@.len(),
            utf8_len(s@) == i,
            utf8_text(bytes@) == text_after(s@, utf8_text(bytes@.skip(i as int))),
        decreases bytes@.len() - i,
    {
        let ghost b = bytes@.skip(i as int);
        match utf8_first_at(bytes, i) {
            None => {
                return None;
            },
            Some((v, n)) => {
                proof {
                    lemma_utf8_first(b);
                }
                let c = match char_from_u32(v) {
                    Some(c) => c,
                    None => {
                        return None;
                    },
                };
                let ghost before = s@;
                push_char(&mut s, c);
                proof {
                    lemma_char_of_scalar(c, v);
                    assert(b.skip(n as int) =~= bytes@.skip(i + n));
                    assert(s@.drop_last() =~= before);
                    match utf8_text(bytes@.skip(i + n)) {
                        Some(r) => {
                            assert(before + (seq![c] + r) =~= s@ + r);
                        },
                        None => {},
                    }
                }
                i = i + n;
            },
        }
    }
    proof {
        assert(bytes@.skip(i as int).len() == 0);
        assert(s@ + Seq::<char>::empty() =~= s@);
    }
    Some(s)
}

/// A file of at most this many bytes is previewed whole; of a larger one,
/// a prefix of at most this many bytes.
pub const TEXT_PREVIEW_LEN: usize = 512;

/// A file larger than this is not previewed at all.
pub const PREVIEW_SIZE_LIMIT: u64 = 0x07ff_ffff;

/// How many bytes of a file of `file_size` bytes the preview reads first,
/// or `None` where the file is too large to be previewed.
pub open spec fn spec_preview_read_len(file_size: u64) -> Option<usize> {
    if file_size <= TEXT_PREVIEW_LEN {
        Some(file_size as usize)
    } else if file_size > PREVIEW_SIZE_LIMIT {
        None
    } else {
        Some(TEXT_PREVIEW_LEN)
    }
}

pub fn preview_read_len(file_size: u64) -> (r: Option<usize>)
    ensures
        r == spec_preview_read_len(file_size),
{
    if file_size <= 512 {
        Some(file_size as usize)
    } else if file_size > PREVIEW_SIZE_LIMIT {
        None
    } else {
        Some(TEXT_PREVIEW_LEN)
    }
}

/// The text of the longest of the prefixes of 512, 511, 510 and 509 bytes
/// that is valid UTF-8. A cut in the middle of a character of valid UTF-8
/// drops at most three bytes, so one of them is valid where the file is.
pub open spec fn truncated_text(head: Seq<u8>) -> Option<Seq<char>> {
    if utf8_text(head.take(512)) is Some {
        utf8_text(head.take(512))
    } else if utf8_text(head.take(511)) is Some {
        utf8_text(head.take(511))
    } else if utf8_text(head.take(510)) is Some {
        utf8_text(head.take(510))
    } else {
        utf8_text(head.take(509))
    }
}

/// The outcome of the text preview of a file.
#[derive(Clone, Debug)]
pub enum TextPreview {
    Done(FilePreview),
    /// The file is no text: an image or a PDF preview of its bytes may
    /// be tried.
    NotText,
}

/// The first `n` bytes.
fn prefix_of(v: &Vec<u8>, n: usize) -> (r: Vec<u8>)
    requires
        n <= v@.len(),
    ensures
        r@ == v@.take(n as int),
{
    let mut r: Vec<u8> = Vec::new();
    let mut i: usize = 0;
    while i < n
        invariant
            i <= n <= v@.len(),
            r@ == v@.take(i as int),
        decreases n - i,
    {
        r.push(v[i]);
        assert(v@.take(i + 1) =~= v@.take(i as int).push(v@[i as int]));
        i += 1;
    }
    r
}

/// The text preview of a file of `file_size` bytes, from `head`: the first
/// bytes of the file, as many as `preview_read_len` asks for.
pub fn text_preview(file_size: u64, head: Vec<u8>) -> (r: TextPreview)
    requires
        spec_preview_read_len(file_size) matches Some(n) ==> head@.len() == n,
    ensures
        file_size > PREVIEW_SIZE_LIMIT ==> r matches TextPreview::Done(FilePreview::NoPreview),
        file_size <= TEXT_PREVIEW_LEN ==> match utf8_text(head@) {
            Some(t) => r matches TextPreview::Done(FilePreview::Text { preview, truncated }) && preview@
                == t && !truncated,
            None => r is NotText,
        },
        TEXT_PREVIEW_LEN < file_size <= PREVIEW_SIZE_LIMIT ==> match truncated_text(head@) {
            Some(t) => r matches TextPreview::Done(FilePreview::Text { preview, truncated }) && preview@
                == t && truncated,
            None => r is NotText,
        },
{
    if file_size <= 512 {
        match decode_utf8(head.as_slice()) {
            Some(preview) => TextPreview::Done(FilePreview::Text { preview, truncated: false }),
            None => TextPreview::NotText,
        }
    } else if file_size > PREVIEW_SIZE_LIMIT {
        TextPreview::Done(FilePreview::NoPreview)
    } else {
        let mut len: usize = 512;
        while len >= 509
            invariant
                TEXT_PREVIEW_LEN < file_size <= PREVIEW_SIZE_LIMIT,
                head@.len() == 512,
                508 <= len <= 512,
                forall|k: int| len < k <= 512 ==> utf8_text(#[trigger] head@.take(k)) is None,
            decreases len,
        {
            let prefix = prefix_of(&head, len);
            match decode_utf8(prefix.as_slice()) {
                Some(preview) => {
                    return TextPreview::Done(FilePreview::Text { preview, truncated: true });
                },
                None => {},
            }
            len -= 1;
        }
        assert(utf8_text(head@.take(512)) is None);
        assert(utf8_text(head@.take(511)) is None);
        assert(utf8_text(head@.take(510)) is None);
        assert(utf8_text(head@.take(509)) is None);
        TextPreview::NotText
    }
}

} // verus!
