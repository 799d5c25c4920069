//! Glob matching under a directory: the walk that lists the directories
//! one at a time and keeps the paths that match a pattern.
use vstd::prelude::*;
use crate::worker::{GlobMatch, JobResultKind};

verus! {

broadcast use {vstd::seq_lib::group_to_multiset_ensures, vstd::multiset::group_multiset_axioms};

#[verifier::external_type_specification]
#[verifier::external_body]
pub struct ExGlobSet(globset::GlobSet);

/// The longest pattern, in characters, that a glob is built from: its
/// literal parts then stay below the state limit of the set's
/// Aho-Corasick automata, whose build the crate unwraps.
pub const GLOB_PATTERN_MAX: usize = 0x1000_0000;

/// The message of the error that building a pattern, and the set of that
/// one pattern, gives, or `None` where both build (with `*` and `?` not
/// matching `/`).
pub uninterp spec fn glob_error(pattern: Seq<char>) -> Option<Seq<char>>;

/// Whether the set of one valid pattern (with `*` and `?` not matching
/// `/`) matches a path.
pub uninterp spec fn glob_matches(pattern: Seq<char>, path: Seq<char>) -> bool;

/// `GlobBuilder::new(pattern).literal_separator(true).build()`, then
/// `GlobSetBuilder::new().add(glob).build()` on success, and
/// `Error::to_string` on either failure (globset). Building the set returns
/// an error where the pattern's regex does not build (too deep a nesting of
/// alternates, too large an automaton); its Aho-Corasick parts, which the
/// crate unwraps, fail only past about 2^31 states, which a pattern within
/// `GLOB_PATTERN_MAX` characters (at most 4 bytes each) does not reach. The
/// contract claims only that the outcome is the named one of the pattern.
#[verifier::external_body]
fn compile_glob(pattern: &str) -> (r: Result<globset::GlobSet, String>)
    requires
        pattern@.len() <= GLOB_PATTERN_MAX,
    ensures
        match r {
            Ok(_) => glob_error(pattern@) is None,
            Err(e) => glob_error(pattern@) == Some(e@),
        },
{
    match globset::GlobBuilder::new(pattern).literal_separator(true).build() {
        Ok(glob) => globset::GlobSetBuilder::new().add(glob).build().map_err(|e| e.to_string()),
        Err(e) => Err(e.to_string()),
    }
}

/// A valid pattern and the set of it alone. Only `Glob::new` makes one,
/// so the set is always the one of the pattern.
pub struct Glob {
    pattern: String,
    matcher: globset::GlobSet,
}

impl Glob {
    pub closed spec fn pattern(&self) -> Seq<char> {
        self.pattern@
    }

    /// The matcher of a pattern, in which `*` and `?` do not match `/`, or
    /// the message of the error where the pattern is invalid.
    pub fn new(pattern: &str) -> (r: Result<Glob, String>)
        requires
            pattern@.len() <= GLOB_PATTERN_MAX,
        ensures
            match r {
                Ok(g) => glob_error(pattern@) is None && g.pattern() == pattern@,
                Err(e) => glob_error(pattern@) == Some(e@),
            },
    {
        match compile_glob(pattern) {
            Ok(matcher) => Ok(Glob { pattern: pattern.to_string(), matcher }),
            Err(e) => Err(e),
        }
    }
}

/// `GlobSet::is_match` (globset), on the set that `Glob::new` built from the
/// glob's pattern: the contract claims only that the result is the named
/// match of that pattern against the path.
#[verifier::external_body]
fn glob_is_match(glob: &Glob, path: &str) -> (r: bool)
    ensures
        r == glob_matches(glob.pattern(), path@),
{
    glob.matcher.is_match(path)
}

/// A directory entry as plain values: its path, whether it is a symlink,
/// whether it is a directory.
pub open spec fn entry_view(e: GlobMatch) -> (Seq<char>, bool, bool) {
    (e.path@, e.is_symlink, e.is_dir)
}

pub open spec fn entries_view(s: Seq<GlobMatch>) -> Seq<(Seq<char>, bool, bool)> {
    s.map_values(|e: GlobMatch| entry_view(e))
}

/// The walk lists a directory entry in its turn where it is a directory
/// and no symlink: a symlink could lead it round in a loop.
pub open spec fn descends(e: (Seq<char>, bool, bool)) -> bool {
    !e.1 && e.2
}

/// The entries whose paths the pattern matches, in order.
pub open spec fn matching(pattern: Seq<char>, s: Seq<(Seq<char>, bool, bool)>) -> Seq<(Seq<char>, bool, bool)>
    decreases s.len(),
{
    if s.len() == 0 {
        Seq::empty()
    } else if glob_matches(pattern, s.last().0) {
        matching(pattern, s.drop_last()).push(s.last())
    } else {
        matching(pattern, s.drop_last())
    }
}

/// The directory at depth `k` waits at an entry that the walk descended into.
pub open spec fn frame_waits(dirs: Seq<Vec<GlobMatch>>, pos: Seq<usize>, k: int) -> bool {
    pos[k] < dirs[k]@.len() && descends(entry_view(dirs[k]@[pos[k] as int]))
}

/// The walk asked for the entry at which the directory at depth `k` waits.
pub open spec fn frame_asked(dirs: Seq<Vec<GlobMatch>>, pos: Seq<usize>, asked: Seq<Seq<char>>, k: int) -> bool {
    asked.contains(dirs[k]@[pos[k] as int].path@)
}

/// The entries of the directories being listed that are not tested yet.
spec fn pending_of(dirs: Seq<Vec<GlobMatch>>, pos: Seq<usize>) -> Seq<(Seq<char>, bool, bool)>
    decreases dirs.len(),
{
    if dirs.len() == 0 {
        Seq::empty()
    } else {
        pending_of(dirs.drop_last(), pos.drop_last()) + entries_view(dirs.last()@).skip(
            pos.last() as int,
        )
    }
}

/// A walk through the directories under a root, depth first and in the
/// order of each listing: the entries of a directory that the walk descends
/// into are tested before that directory itself.
pub struct GlobWalk {
    glob: Glob,
    /// The directories being listed, outermost first.
    dirs: Vec<Vec<GlobMatch>>,
    /// For each of them, how many of its entries are done.
    positions: Vec<usize>,
    matches: Vec<GlobMatch>,
    /// Every entry of the listings handed to the walk.
    listed: Ghost<Seq<(Seq<char>, bool, bool)>>,
    /// The entries tested so far, in the order they were tested.
    handled: Ghost<Seq<(Seq<char>, bool, bool)>>,
    /// The directories asked for so far, the root first.
    asked: Ghost<Seq<Seq<char>>>,
}

/// What the walk asks for next.
pub enum WalkStep {
    /// List this directory and hand its entries to `step`.
    ReadDir(GlobWalk, String),
    Finished(JobResultKind),
}

impl GlobWalk {
    pub closed spec fn pattern(&self) -> Seq<char> {
        self.glob.pattern()
    }

    pub closed spec fn listed(&self) -> Seq<(Seq<char>, bool, bool)> {
        self.listed@
    }

    pub closed spec fn handled(&self) -> Seq<(Seq<char>, bool, bool)> {
        self.handled@
    }

    pub closed spec fn asked(&self) -> Seq<Seq<char>> {
        self.asked@
    }

    pub closed spec fn matched(&self) -> Seq<(Seq<char>, bool, bool)> {
        entries_view(self.matches@)
    }

    /// The entries listed but not tested yet.
    pub closed spec fn pending(&self) -> Seq<(Seq<char>, bool, bool)> {
        pending_of(self.dirs@, self.positions@)
    }

    /// Each directory being listed waits at the entry that the walk
    /// descended into, which was asked for; every tested entry that the
    /// walk descends into was asked for.
    pub closed spec fn frames_wf(&self) -> bool {
        &&& self.dirs@.len() == self.positions@.len()
        &&& forall|k: int|
            0 <= k < self.dirs@.len() ==> #[trigger] frame_waits(self.dirs@, self.positions@, k)
                && frame_asked(self.dirs@, self.positions@, self.asked@, k)
        &&& forall|i: int|
            0 <= i < self.handled@.len() && descends(#[trigger] self.handled@[i]) ==> self.asked@.contains(
                self.handled@[i].0,
            )
    }

    /// The walk's invariant: the matches are the tested entries that match,
    /// and every listed entry is tested or pending, once.
    pub open spec fn wf(&self) -> bool {
        &&& self.frames_wf()
        &&& self.matched() == matching(self.pattern(), self.handled())
        &&& self.listed().to_multiset() == (self.handled() + self.pending()).to_multiset()
    }

    /// A walk of the directory `root`, which is the first to list; the
    /// message of the error where the pattern is invalid.
    pub fn start(pattern: &str, root: String) -> (r: Result<(GlobWalk, String), JobResultKind>)
        requires
            pattern@.len() <= GLOB_PATTERN_MAX,
        ensures
            match r {
                Ok((w, dir)) => {
                    &&& glob_error(pattern@) is None
                    &&& w.wf()
                    &&& w.pattern() == pattern@
                    &&& w.listed().len() == 0
                    &&& w.handled().len() == 0
                    &&& w.asked() == seq![root@]
                    &&& dir@ == root@
                },
                Err(k) => glob_error(pattern@) matches Some(e) && k matches JobResultKind::GlobError(
                    m,
                ) && m@ == e,
            },
    {
        match Glob::new(pattern) {
            Ok(glob) => {
                let ghost first: Seq<Seq<char>> = seq![root@];
                let w = GlobWalk {
                    glob,
                    dirs: Vec::new(),
                    positions: Vec::new(),
                    matches: Vec::new(),
                    listed: Ghost(Seq::empty()),
                    handled: Ghost(Seq::empty()),
                    asked: Ghost(first),
                };
                proof {
                    assert(w.matched() =~= Seq::empty());
                    assert(w.handled() + w.pending() =~= Seq::empty());
                }
                Ok((w, root))
            },
            Err(e) => Err(JobResultKind::GlobError(e)),
        }
    }

    /// Goes on with the listing of the directory asked for last, or stops
    /// where it is `None` (the time is up): then the result holds the
    /// matches found so far. A finished walk has tested every listed entry
    /// once, and its matches are the entries that match, in the order they
    /// were tested; it has asked for every listed directory that is no
    /// symlink. A walk asks for a directory as soon as it comes to it, and
    /// tests it after its own entries.
    #[verifier::spinoff_prover]
    #[verifier::rlimit(40)]
    pub fn step(self, listing: Option<Vec<GlobMatch>>) -> (r: WalkStep)
        requires
            self.wf(),
        ensures
            match r {
                WalkStep::ReadDir(w, dir) => {
                    &&& listing matches Some(es)
                    &&& w.wf()
                    &&& w.pattern() == self.pattern()
                    &&& w.listed() == self.listed() + entries_view(es@)
                    &&& w.handled().take(self.handled().len() as int) == self.handled()
                    &&& w.listed().contains((dir@, false, true))
                    &&& w.asked() == self.asked().push(dir@)
                },
                WalkStep::Finished(k) => k matches JobResultKind::Glob { pattern, matches, timeout }
                    && pattern@ == self.pattern() && timeout == (listing is None) && match listing {
                    None => entries_view(matches@) == self.matched(),
                    Some(es) => exists|h: Seq<(Seq<char>, bool, bool)>|
                        {
                            &&& h.take(self.handled().len() as int) == self.handled()
                            &&& h.to_multiset() == (self.listed() + entries_view(
                                es@,
                            )).to_multiset()
                            &&& entries_view(matches@) == matching(self.pattern(), h)
                        } && forall|e: (Seq<char>, bool, bool)|
                        #[trigger] (self.listed() + entries_view(es@)).contains(e) && descends(e)
                            ==> self.asked().contains(e.0),
                },
            },
    {
        let mut w = self;
        let es = match listing {
            None => {
                let pattern = w.glob.pattern.clone();
                return WalkStep::Finished(
                    JobResultKind::Glob { pattern, matches: w.matches, timeout: true },
                );
            },
            Some(es) => es,
        };
        let ghost h0 = w.handled@;
        let ghost p0 = w.pending();
        let ghost e0 = entries_view(es@);
        let ghost new_listed = w.listed@ + e0;
        let ghost dirs0 = w.dirs@;
        let ghost pos0 = w.positions@;
        proof {
            vstd::seq_lib::lemma_multiset_commutative(w.listed@, e0);
            vstd::seq_lib::lemma_multiset_commutative(h0 + p0, e0);
            vstd::seq_lib::lemma_multiset_commutative(h0, p0);
            vstd::seq_lib::lemma_multiset_commutative(h0, p0 + e0);
            vstd::seq_lib::lemma_multiset_commutative(p0, e0);
        }
        w.dirs.push(es);
        w.positions.push(0);
        w.listed = Ghost(new_listed);
        proof {
            assert(w.dirs@.drop_last() =~= dirs0);
            assert(w.positions@.drop_last() =~= pos0);
            assert(e0.skip(0) =~= e0);
            assert(w.pending() == p0 + e0);
            assert forall|k: int| 0 <= k < w.dirs@.len() - 1 implies #[trigger] frame_waits(
                w.dirs@,
                w.positions@,
                k,
            ) && frame_asked(w.dirs@, w.positions@, w.asked@, k) by {
                assert(w.dirs@[k] == dirs0[k]);
                assert(w.positions@[k] == pos0[k]);
                assert(frame_waits(dirs0, pos0, k));
            }
        }
        // Whether the last directory waits at an entry whose own entries are
        // all done: that entry is tested next.
        let mut returning = false;
        loop
            invariant
                w.dirs@.len() == w.positions@.len(),
                w.dirs@.len() >= 1,
                forall|d: int|
                    0 <= d < w.dirs@.len() - 1 ==> #[trigger] frame_waits(w.dirs@, w.positions@, d)
                        && frame_asked(w.dirs@, w.positions@, w.asked@, d),
                w.positions@.last() <= w.dirs@.last()@.len(),
                returning ==> w.positions@.last() < w.dirs@.last()@.len() && w.asked@.contains(
                    w.dirs@.last()@[w.positions@.last() as int].path@,
                ),
                forall|i: int|
                    0 <= i < w.handled@.len() && descends(#[trigger] w.handled@[i]) ==> w.asked@.contains(
                        w.handled@[i].0,
                    ),
                w.asked@ == self.asked@,
                w.matched() == matching(w.pattern(), w.handled()),
                w.listed() == new_listed,
                new_listed.to_multiset() == (w.handled() + w.pending()).to_multiset(),
                h0.len() <= w.handled().len(),
                w.handled().take(h0.len() as int) == h0,
                w.pattern() == self.pattern(),
                h0 == self.handled(),
                new_listed == self.listed() + e0,
                listing matches Some(l) && entries_view(l@) == e0,
            decreases w.pending().len() + w.dirs@.len(),
        {
            let k = w.dirs.len() - 1;
            let p = w.positions[k];
            if p < w.dirs[k].len() {
                let e = copy_entry(&w.dirs[k][p]);
                if !returning && !e.is_symlink && e.is_dir {
                    proof {
                        let v = entry_view(e);
                        let pp = w.pending();
                        lemma_pending_last(w.dirs@, w.positions@);
                        assert(pp[pp.len() - (w.dirs@[k as int]@.len() - p)] == v);
                        assert((w.handled() + pp)[w.handled().len() + pp.len() - (w.dirs@[k as int]@.len()
                            - p)] == v);
                        assert(new_listed.to_multiset().count(v) > 0);
                        assert(v == (e.path@, false, true));
                        assert(frame_waits(w.dirs@, w.positions@, k as int));
                    }
                    let ghost a0 = w.asked@;
                    w.asked = Ghost(a0.push(e.path@));
                    proof {
                        assert(w.asked@.contains(e.path@)) by {
                            assert(w.asked@[a0.len() as int] == e.path@);
                        }
                        assert forall|j: int| 0 <= j < w.dirs@.len() implies #[trigger] frame_waits(
                            w.dirs@,
                            w.positions@,
                            j,
                        ) && frame_asked(w.dirs@, w.positions@, w.asked@, j) by {
                            let x = w.dirs@[j]@[w.positions@[j] as int].path@;
                            if j < k {
                                assert(frame_waits(w.dirs@, w.positions@, j));
                                assert(a0.contains(x));
                                let q = choose|q: int| 0 <= q < a0.len() && a0[q] == x;
                                assert(w.asked@[q] == x);
                            } else {
                                assert(entry_view(w.dirs@[j]@[w.positions@[j] as int]) == entry_view(e));
                            }
                        }
                        assert forall|i: int|
                            0 <= i < w.handled@.len() && descends(#[trigger] w.handled@[i]) implies w.asked@.contains(
                            w.handled@[i].0) by {
                            let x = w.handled@[i].0;
                            assert(a0.contains(x));
                            let q = choose|q: int| 0 <= q < a0.len() && a0[q] == x;
                            assert(w.asked@[q] == x);
                        }
                        assert(w.frames_wf());
                    }
                    return WalkStep::ReadDir(w, e.path);
                }
                let ghost v = entry_view(e);
                let ghost hb = w.handled@;
                let ghost pb = w.pending();
                let ghost dirs_b = w.dirs@;
                let ghost pos_b = w.positions@;
                proof {
                    lemma_pending_last(dirs_b, pos_b);
                    lemma_test_first(hb, pending_of(dirs_b.drop_last(), pos_b.drop_last()),
                        entries_view(dirs_b.last()@).skip(p as int));
                    assert(entries_view(dirs_b.last()@).skip(p as int)[0] == v);
                    assert(entries_view(dirs_b.last()@).skip(p as int).drop_first()
                        =~= entries_view(dirs_b.last()@).skip(p + 1));
                    assert(hb.push(v).drop_last() =~= hb);
                    assert(hb.push(v).take(h0.len() as int) =~= hb.take(h0.len() as int));
                }
                let found = glob_is_match(&w.glob, e.path.as_str());
                let ghost mb = w.matches@;
                if found {
                    w.matches.push(e);
                    assert(entries_view(w.matches@) =~= entries_view(mb).push(v));
                }
                w.handled = Ghost(hb.push(v));
                w.positions.set(k, p + 1);
                returning = false;
                proof {
                    assert(w.positions@.drop_last() =~= pos_b.drop_last());
                    lemma_pending_last(w.dirs@, w.positions@);
                    assert forall|j: int| 0 <= j < w.dirs@.len() - 1 implies #[trigger] frame_waits(
                        w.dirs@,
                        w.positions@,
                        j,
                    ) && frame_asked(w.dirs@, w.positions@, w.asked@, j) by {
                        assert(w.positions@[j] == pos_b[j]);
                        assert(w.dirs@[j] == dirs_b[j]);
                        assert(frame_waits(dirs_b, pos_b, j));
                        assert(frame_asked(dirs_b, pos_b, w.asked@, j));
                    }
                    assert forall|i: int|
                        0 <= i < w.handled@.len() && descends(#[trigger] w.handled@[i]) implies w.asked@.contains(
                        w.handled@[i].0) by {
                        if i < hb.len() {
                            assert(w.handled@[i] == hb[i]);
                        } else {
                            assert(w.handled@[i] == v);
                        }
                    }
                }
            } else {
                let ghost dirs_b = w.dirs@;
                let ghost pos_b = w.positions@;
                proof {
                    lemma_pending_last(dirs_b, pos_b);
                    assert(entries_view(dirs_b.last()@).skip(p as int) =~= Seq::empty());
                }
                let _ = w.dirs.pop();
                let _ = w.positions.pop();
                proof {
                    assert(w.dirs@ =~= dirs_b.drop_last());
                    assert(w.positions@ =~= pos_b.drop_last());
                    assert(pending_of(dirs_b, pos_b) =~= w.pending());
                    assert forall|j: int| 0 <= j < w.dirs@.len() implies #[trigger] frame_waits(
                        w.dirs@,
                        w.positions@,
                        j,
                    ) by {
                        assert(w.positions@[j] == pos_b[j]);
                        assert(w.dirs@[j] == dirs_b[j]);
                        assert(frame_waits(dirs_b, pos_b, j));
                    }
                    assert forall|j: int| 0 <= j < w.dirs@.len() - 1 implies #[trigger] frame_waits(
                        w.dirs@,
                        w.positions@,
                        j,
                    ) && frame_asked(w.dirs@, w.positions@, w.asked@, j) by {
                        assert(w.positions@[j] == pos_b[j]);
                        assert(w.dirs@[j] == dirs_b[j]);
                        assert(frame_waits(dirs_b, pos_b, j));
                        assert(frame_asked(dirs_b, pos_b, w.asked@, j));
                    }
                    if dirs_b.len() >= 2 {
                        let j = dirs_b.len() - 2;
                        assert(frame_waits(dirs_b, pos_b, j));
                        assert(w.positions@[j] == pos_b[j]);
                        assert(w.dirs@[j] == dirs_b[j]);
                        assert(w.positions@.last() == pos_b[j]);
                        assert(w.dirs@.last() == dirs_b[j]);
                    }
                }
                if w.dirs.len() == 0 {
                    proof {
                        assert(w.pending() =~= Seq::empty());
                        assert(w.handled() + w.pending() =~= w.handled());
                        let h = w.handled@;
                        assert(h.take(h0.len() as int) == h0);
                        assert(h.to_multiset() == new_listed.to_multiset());
                        assert(entries_view(w.matches@) == matching(w.pattern(), h));
                        assert forall|x: (Seq<char>, bool, bool)|
                            #[trigger] new_listed.contains(x) && descends(x) implies self.asked().contains(x.0) by {
                            assert(new_listed.to_multiset().count(x) > 0);
                            assert(h.contains(x));
                            let i = choose|i: int| 0 <= i < h.len() && h[i] == x;
                            assert(descends(w.handled@[i]));
                        }
                    }
                    let pattern = w.glob.pattern.clone();
                    return WalkStep::Finished(
                        JobResultKind::Glob { pattern, matches: w.matches, timeout: false },
                    );
                }
                returning = true;
            }
        }
    }
}

/// The first `n` entries of the last directory are done; the pending
/// entries end with the rest of them.
proof fn lemma_pending_last(dirs: Seq<Vec<GlobMatch>>, pos: Seq<usize>)
    requires
        dirs.len() >= 1,
        dirs.len() == pos.len(),
        pos.last() <= dirs.last()@.len(),
    ensures
        pending_of(dirs, pos) == pending_of(dirs.drop_last(), pos.drop_last()) + entries_view(
            dirs.last()@,
        ).skip(pos.last() as int),
        pending_of(dirs, pos).len() == pending_of(dirs.drop_last(), pos.drop_last()).len() + (
        dirs.last()@.len() - pos.last()),
{
}

/// Testing the first pending entry of the last directory keeps the
/// multiset of tested and pending entries.
proof fn lemma_test_first<A>(h: Seq<A>, p: Seq<A>, s: Seq<A>)
    requires
        s.len() > 0,
    ensures
        (h.push(s[0]) + (p + s.drop_first())).to_multiset() == (h + (p + s)).to_multiset(),
{
    vstd::seq_lib::lemma_multiset_commutative(h.push(s[0]), p + s.drop_first());
    vstd::seq_lib::lemma_multiset_commutative(p, s.drop_first());
    vstd::seq_lib::lemma_multiset_commutative(h, p + s);
    vstd::seq_lib::lemma_multiset_commutative(p, s);
    assert(s =~= s.drop_first().insert(0, s[0]));
}

/// A copy of an entry.
fn copy_entry(e: &GlobMatch) -> (r: GlobMatch)
    ensures
        entry_view(r) == entry_view(*e),
{
    GlobMatch { path: e.path.clone(), is_symlink: e.is_symlink, is_dir: e.is_dir }
}

} // verus!
