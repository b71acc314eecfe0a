//! Collecting pattern files: every file is given an index, its content is
//! kept, and whether parsing it or collecting its symbol tables reported an
//! error is recorded.

use vstd::prelude::*;

verus! {

/// The index of a pattern file.
pub type RplIdx = usize;

/// What parsing one pattern file and collecting its symbol tables gave.
#[derive(Clone, Copy, Debug, PartialEq, Eq, Structural)]
pub enum CollectOutcome {
    /// The file parsed; `has_error` tells whether collecting its symbol
    /// tables reported an error.
    Collected { has_error: bool },
    /// The file did not parse.
    ParseFailed,
}

/// Whether an outcome counts as an error.
pub open spec fn is_error(o: CollectOutcome) -> bool {
    match o {
        CollectOutcome::Collected { has_error } => has_error,
        CollectOutcome::ParseFailed => true,
    }
}

/// The pattern files collected so far.
#[derive(Debug)]
pub struct MetaContext {
    /// `id2path[idx]` is the path of the file with index `idx`.
    id2path: Vec<String>,
    /// `contents[idx]` is the content of the file with index `idx`.
    contents: Vec<String>,
    /// `outcomes[idx]` is what collecting the file with index `idx` gave.
    outcomes: Vec<CollectOutcome>,
}

/// The files of a [`MetaContext`], by index.
pub struct MetaContextView {
    pub paths: Seq<Seq<char>>,
    pub contents: Seq<Seq<char>>,
    pub outcomes: Seq<CollectOutcome>,
}

pub open spec fn strings_view(v: Seq<String>) -> Seq<Seq<char>> {
    v.map_values(|s: String| s@)
}

impl View for MetaContext {
    type V = MetaContextView;

    closed spec fn view(&self) -> MetaContextView {
        MetaContextView {
            paths: strings_view(self.id2path@),
            contents: strings_view(self.contents@),
            outcomes: self.outcomes@,
        }
    }
}

/// The first index at which `paths` holds `path`.
pub open spec fn index_of_path(paths: Seq<Seq<char>>, path: Seq<char>) -> Option<int>
    decreases paths.len(),
{
    if paths.len() == 0 {
        None
    } else {
        match index_of_path(paths.drop_last(), path) {
            Some(k) => Some(k),
            None => if paths.last() == path {
                Some(paths.len() - 1)
            } else {
                None
            },
        }
    }
}

/// Records one file: a path seen before keeps its index and takes the new
/// content and outcome; a new path takes the next index.
pub open spec fn register_step(
    v: MetaContextView,
    path: Seq<char>,
    content: Seq<char>,
    outcome: CollectOutcome,
) -> MetaContextView {
    match index_of_path(v.paths, path) {
        Some(k) => MetaContextView {
            paths: v.paths,
            contents: v.contents.update(k, content),
            outcomes: v.outcomes.update(k, outcome),
        },
        None => MetaContextView {
            paths: v.paths.push(path),
            contents: v.contents.push(content),
            outcomes: v.outcomes.push(outcome),
        },
    }
}

pub open spec fn empty_context() -> MetaContextView {
    MetaContextView { paths: Seq::empty(), contents: Seq::empty(), outcomes: Seq::empty() }
}

/// The files given, recorded in order.
pub open spec fn register_scan(
    path_and_content: Seq<(String, String)>,
    outcomes: Seq<CollectOutcome>,
) -> MetaContextView
    decreases path_and_content.len(),
{
    if path_and_content.len() == 0 || outcomes.len() < path_and_content.len() {
        empty_context()
    } else {
        let n = path_and_content.len() - 1;
        register_step(
            register_scan(path_and_content.drop_last(), outcomes.take(n)),
            path_and_content[n].0@,
            path_and_content[n].1@,
            outcomes[n],
        )
    }
}

/// Some recorded file failed to parse or to collect.
pub open spec fn any_error(v: MetaContextView) -> bool {
    exists|k: int| 0 <= k < v.outcomes.len() && is_error(#[trigger] v.outcomes[k])
}

impl MetaContextView {
    /// Every file has a path, a content and an outcome.
    pub open spec fn wf(self) -> bool {
        self.paths.len() == self.contents.len() && self.paths.len() == self.outcomes.len()
    }
}

impl MetaContext {
    /// A context without files.
    pub fn new() -> (r: Self)
        ensures
            r@ == empty_context(),
            r@.wf(),
    {
        let r = MetaContext { id2path: Vec::new(), contents: Vec::new(), outcomes: Vec::new() };
        assert(r@.paths =~= Seq::<Seq<char>>::empty());
        assert(r@.contents =~= Seq::<Seq<char>>::empty());
        r
    }

    /// The path of the file with index `idx`.
    pub fn path(&self, idx: RplIdx) -> (r: &String)
        requires
            idx < self@.paths.len(),
        ensures
            r@ == self@.paths[idx as int],
    {
        &self.id2path[idx]
    }

    /// The content of the file with index `idx`.
    pub fn content(&self, idx: RplIdx) -> (r: &String)
        requires
            idx < self@.contents.len(),
        ensures
            r@ == self@.contents[idx as int],
    {
        &self.contents[idx]
    }

    /// The number of files.
    pub fn len(&self) -> (r: usize)
        ensures
            r == self@.paths.len(),
    {
        self.id2path.len()
    }

    /// The index of a path, given the next free index the first time the
    /// path is requested.
    pub fn request_rpl_idx(&mut self, path: &String) -> (r: RplIdx)
        requires
            old(self)@.wf(),
        ensures
            final(self)@.wf(),
            match index_of_path(old(self)@.paths, path@) {
                Some(k) => r == k && final(self)@ == old(self)@,
                None => r == old(self)@.paths.len() && final(self)@.paths == old(self)@.paths.push(
                    path@,
                ) && final(self)@.contents == old(self)@.contents.push(Seq::empty())
                    && final(self)@.outcomes == old(self)@.outcomes.push(
                    CollectOutcome::Collected { has_error: false },
                ),
            },
    {
        let ghost paths = self@.paths;
        let mut i: usize = 0;
        while i < self.id2path.len()
            invariant
                paths == self@.paths,
                self@.wf(),
                i <= paths.len(),
                index_of_path(paths.take(i as int), path@) is None,
            decreases paths.len() - i,
        {
            assert(paths.take(i + 1).drop_last() =~= paths.take(i as int));
            if self.id2path[i] == *path {
                proof {
                    lemma_index_prefix(paths, path@, i as int + 1);
                }
                return i;
            }
            i += 1;
        }
        assert(paths.take(i as int) =~= paths);
        let ghost old_view = self@;
        self.id2path.push(path.clone());
        self.contents.push(String::new());
        self.outcomes.push(CollectOutcome::Collected { has_error: false });
        assert(self@.paths =~= old_view.paths.push(path@));
        assert(self@.contents =~= old_view.contents.push(Seq::empty()));
        i
    }
}

proof fn lemma_index_prefix(paths: Seq<Seq<char>>, path: Seq<char>, k: int)
    requires
        0 <= k <= paths.len(),
        index_of_path(paths.take(k), path) is Some,
    ensures
        index_of_path(paths, path) == index_of_path(paths.take(k), path),
    decreases paths.len() - k,
{
    if k < paths.len() {
        assert(paths.take(k + 1).drop_last() =~= paths.take(k));
        lemma_index_prefix(paths, path, k + 1);
    } else {
        assert(paths.take(k) =~= paths);
    }
}

proof fn lemma_index_of_path_bounds(paths: Seq<Seq<char>>, path: Seq<char>)
    ensures
        index_of_path(paths, path) matches Some(k) ==> 0 <= k < paths.len() && paths[k] == path,
    decreases paths.len(),
{
    if paths.len() > 0 {
        lemma_index_of_path_bounds(paths.drop_last(), path);
    }
}

/// Collects the pattern files `path_and_content`: every path gets an index
/// (a path given twice keeps its first index and its last content), and
/// `outcomes[i]` is what parsing the content of entry `i` and collecting its
/// symbol tables gave. Returns the context and whether the outcome kept for
/// some file is an error.
pub fn parse_and_collect(
    path_and_content: &Vec<(String, String)>,
    outcomes: &Vec<CollectOutcome>,
) -> (r: (MetaContext, bool))
    requires
        outcomes@.len() == path_and_content@.len(),
    ensures
        r.0@ == register_scan(path_and_content@, outcomes@),
        r.1 == any_error(r.0@),
{
    let mut mctx = MetaContext::new();
    let n = path_and_content.len();
    for i in 0..n
        invariant
            n == path_and_content@.len(),
            outcomes@.len() == n,
            mctx@ == register_scan(path_and_content@.take(i as int), outcomes@.take(i as int)),
            mctx@.wf(),
    {
        let (path, content) = &path_and_content[i];
        let ghost before = mctx@;
        proof {
            lemma_index_of_path_bounds(before.paths, path@);
            assert(path_and_content@.take(i + 1).drop_last() =~= path_and_content@.take(i as int));
            assert(outcomes@.take(i + 1).take(i as int) =~= outcomes@.take(i as int));
        }
        let idx = mctx.request_rpl_idx(path);
        assert(mctx@.contents.len() == mctx.contents@.len());
        assert(mctx@.outcomes.len() == mctx.outcomes@.len());
        assert(idx < mctx@.paths.len());
        let ghost after_req = mctx@;
        mctx.contents.set(idx, content.clone());
        assert(strings_view(mctx.contents@) =~= after_req.contents.update(idx as int, content@));
        assert(after_req.contents.update(idx as int, content@) =~= register_step(
            before,
            path@,
            content@,
            outcomes@[i as int],
        ).contents);
        mctx.outcomes.set(idx, outcomes[i]);
        assert(mctx@.paths =~= register_step(before, path@, content@, outcomes@[i as int]).paths);
        assert(strings_view(mctx.contents@) =~= register_step(
            before,
            path@,
            content@,
            outcomes@[i as int],
        ).contents);
        assert(mctx@.outcomes =~= register_step(before, path@, content@, outcomes@[i as int]).outcomes);
    }
    assert(path_and_content@.take(n as int) =~= path_and_content@);
    assert(outcomes@.take(n as int) =~= outcomes@);
    let mut has_error = false;
    for k in 0..mctx.outcomes.len()
        invariant
            has_error == exists|j: int| 0 <= j < k && is_error(#[trigger] mctx.outcomes@[j]),
    {
        let failed = match mctx.outcomes[k] {
            CollectOutcome::Collected { has_error } => has_error,
            CollectOutcome::ParseFailed => true,
        };
        has_error = has_error || failed;
    }
    (mctx, has_error)
}


proof fn lemma_index_of_path_distinct(paths: Seq<Seq<char>>, path: Seq<char>, k: int)
    requires
        paths.no_duplicates(),
        0 <= k < paths.len(),
        paths[k] == path,
    ensures
        index_of_path(paths, path) == Some(k),
    decreases paths.len(),
{
    lemma_index_of_path_bounds(paths, path);
    if k < paths.len() - 1 {
        lemma_index_of_path_distinct(paths.drop_last(), path, k);
    } else {
        lemma_index_of_path_bounds(paths.drop_last(), path);
        if index_of_path(paths.drop_last(), path) is Some {
            let j = index_of_path(paths.drop_last(), path)->0;
            assert(paths[j] == paths[k]);
        }
    }
}

proof fn lemma_index_of_path_missing(paths: Seq<Seq<char>>, path: Seq<char>)
    requires
        index_of_path(paths, path) is None,
    ensures
        !paths.contains(path),
    decreases paths.len(),
{
    if paths.len() > 0 {
        lemma_index_of_path_missing(paths.drop_last(), path);
        if paths.contains(path) {
            let j = choose|j: int| 0 <= j < paths.len() && paths[j] == path;
            if j < paths.len() - 1 {
                assert(paths.drop_last()[j] == path);
            }
        }
    }
}

proof fn lemma_register_step(u: MetaContextView, path: Seq<char>, content: Seq<char>, outcome: CollectOutcome)
    requires
        u.paths.no_duplicates(),
        u.paths.len() == u.contents.len(),
        u.paths.len() == u.outcomes.len(),
    ensures
        ({
            let v = register_step(u, path, content, outcome);
            &&& v.paths.no_duplicates()
            &&& v.paths.len() == v.contents.len()
            &&& v.paths.len() == v.outcomes.len()
            &&& u.paths.len() <= v.paths.len() <= u.paths.len() + 1
            &&& forall|k: int| 0 <= k < u.paths.len() ==> #[trigger] v.paths[k] == u.paths[k]
            &&& v.paths.len() == u.paths.len() + 1 ==> v.paths.last() == path
            &&& index_of_path(v.paths, path) matches Some(k) && 0 <= k < v.paths.len()
                && v.paths[k] == path && v.contents[k] == content && v.outcomes[k] == outcome
            &&& forall|q: Seq<char>|
                q != path ==> #[trigger] index_of_path(v.paths, q) == index_of_path(u.paths, q)
            &&& forall|k: int|
                0 <= k < u.paths.len() && u.paths[k] != path ==> #[trigger] v.contents[k]
                    == u.contents[k] && v.outcomes[k] == u.outcomes[k]
        }),
{
    let v = register_step(u, path, content, outcome);
    lemma_index_of_path_bounds(u.paths, path);
    match index_of_path(u.paths, path) {
        Some(k) => {
            assert forall|q: Seq<char>| q != path implies #[trigger] index_of_path(v.paths, q)
                == index_of_path(u.paths, q) by {}
        },
        None => {
            lemma_index_of_path_missing(u.paths, path);
            assert forall|a: int, b: int| 0 <= a < b < v.paths.len() implies v.paths[a] != v.paths[b] by {
                if b == v.paths.len() - 1 {
                    assert(u.paths[a] == v.paths[a]);
                    assert(u.paths.contains(u.paths[a]));
                } else {
                    assert(u.paths[a] != u.paths[b]);
                }
            }
            assert(v.paths.drop_last() =~= u.paths);
            assert forall|q: Seq<char>| q != path implies #[trigger] index_of_path(v.paths, q)
                == index_of_path(u.paths, q) by {}
            lemma_index_of_path_distinct(v.paths, path, v.paths.len() - 1);
        },
    }
}

/// Collecting keeps the files' shape: distinct paths, one content and one
/// outcome per path; every path given has an index and every indexed path was
/// given.
#[verifier::spinoff_prover]
pub proof fn lemma_collect_shape(path_and_content: Seq<(String, String)>, outcomes: Seq<CollectOutcome>)
    requires
        outcomes.len() == path_and_content.len(),
    ensures
        ({
            let v = register_scan(path_and_content, outcomes);
            &&& v.paths.no_duplicates()
            &&& v.paths.len() == v.contents.len()
            &&& v.paths.len() == v.outcomes.len()
            &&& forall|k: int|
                0 <= k < v.paths.len() ==> exists|i: int|
                    0 <= i < path_and_content.len() && (#[trigger] path_and_content[i]).0@
                        == #[trigger] v.paths[k]
            &&& forall|i: int|
                0 <= i < path_and_content.len() ==> (#[trigger] index_of_path(
                    v.paths,
                    path_and_content[i].0@,
                )) is Some
        }),
    decreases path_and_content.len(),
{
    let pc = path_and_content;
    let n = pc.len();
    if n > 0 {
        let front = pc.drop_last();
        let fouts = outcomes.take(n - 1);
        lemma_collect_shape(front, fouts);
        let u = register_scan(front, fouts);
        let v = register_scan(pc, outcomes);
        let path = pc[n - 1].0@;
        lemma_register_step(u, path, pc[n - 1].1@, outcomes[n - 1]);
        assert forall|k: int| 0 <= k < v.paths.len() implies exists|i: int|
            0 <= i < pc.len() && (#[trigger] pc[i]).0@ == #[trigger] v.paths[k] by {
            if k < u.paths.len() {
                let i = choose|i: int|
                    0 <= i < front.len() && (#[trigger] front[i]).0@ == #[trigger] u.paths[k];
                assert(pc[i] == front[i]);
            } else {
                assert(pc[n - 1].0@ == v.paths[k]);
            }
        }
        assert forall|i: int| 0 <= i < pc.len() implies (#[trigger] index_of_path(v.paths, pc[i].0@)) is Some by {
            if i < n - 1 && pc[i].0@ != path {
                assert(front[i] == pc[i]);
            }
        }
    }
}

/// The file of a path holds the content and outcome of the last entry that
/// gave the path.
#[verifier::spinoff_prover]
#[verifier::rlimit(40)]
pub proof fn lemma_collect_keeps_last(path_and_content: Seq<(String, String)>, outcomes: Seq<CollectOutcome>)
    requires
        outcomes.len() == path_and_content.len(),
    ensures
        ({
            let v = register_scan(path_and_content, outcomes);
            forall|i: int|
                #![trigger path_and_content[i]]
                0 <= i < path_and_content.len() && (forall|j: int|
                    i < j < path_and_content.len() ==> path_and_content[j].0@
                        != path_and_content[i].0@) ==> {
                    let k = index_of_path(v.paths, path_and_content[i].0@)->0;
                    v.contents[k] == path_and_content[i].1@ && v.outcomes[k] == outcomes[i]
                }
        }),
    decreases path_and_content.len(),
{
    let pc = path_and_content;
    let n = pc.len();
    if n > 0 {
        let front = pc.drop_last();
        let fouts = outcomes.take(n - 1);
        lemma_collect_keeps_last(front, fouts);
        lemma_collect_shape(front, fouts);
        let u = register_scan(front, fouts);
        let v = register_scan(pc, outcomes);
        let path = pc[n - 1].0@;
        lemma_register_step(u, path, pc[n - 1].1@, outcomes[n - 1]);
        assert forall|i: int|
            #![trigger pc[i]]
            0 <= i < pc.len() && (forall|j: int| i < j < pc.len() ==> pc[j].0@ != pc[i].0@) implies {
            let k = index_of_path(v.paths, pc[i].0@)->0;
            v.contents[k] == pc[i].1@ && v.outcomes[k] == outcomes[i]
        } by {
            if i < n - 1 {
                assert(front[i] == pc[i]);
                assert(pc[n - 1].0@ != pc[i].0@);
                assert(forall|j: int| i < j < front.len() ==> front[j] == pc[j]);
                assert(fouts[i] == outcomes[i]);
                let k = index_of_path(u.paths, pc[i].0@)->0;
                lemma_index_of_path_bounds(u.paths, pc[i].0@);
                assert(index_of_path(u.paths, front[i].0@) is Some);
            }
        }
    }
}

} // verus!
