use vstd::multiset::Multiset;
use vstd::prelude::*;
use vstd::seq_lib::group_to_multiset_ensures;

use crate::gitio::{
    canonical_of, commit_message, commit_time_seconds, commit_touches, discover_repo,
    walk_from_head, workdir_of,
};
use crate::paths::{parent_dir, relative_to_root};
use crate::text::{first_line, first_line_spec, str_eq};

verus! {

/// One entry of a file's history: the commit's time in seconds since the
/// Unix epoch (absent when the commit's time could not be read), the first
/// line of the commit message, and the full message.
pub struct Edit {
    pub datetime: Option<i64>,
    pub summary: String,
    pub message: String,
}

/// The mathematical content of an `Edit`.
pub struct EditV {
    pub datetime: Option<i64>,
    pub summary: Seq<char>,
    pub message: Seq<char>,
}

impl View for Edit {
    type V = EditV;

    open spec fn view(&self) -> EditV {
        EditV { datetime: self.datetime, summary: self.summary@, message: self.message@ }
    }
}

/// What one commit contributes to change detection: the tree locations it
/// changed relative to its first parent (relative to an empty tree for a
/// root commit), with its time and message.
pub struct CommitRecord {
    pub changed_paths: Vec<String>,
    pub datetime: Option<i64>,
    pub message: String,
}

/// The mathematical content of a `CommitRecord`.
pub struct CommitRecordV {
    pub changed_paths: Seq<Seq<char>>,
    pub datetime: Option<i64>,
    pub message: Seq<char>,
}

impl View for CommitRecord {
    type V = CommitRecordV;

    open spec fn view(&self) -> CommitRecordV {
        CommitRecordV {
            changed_paths: self.changed_paths@.map_values(|p: String| p@),
            datetime: self.datetime,
            message: self.message@,
        }
    }
}

/// Whether the commit changed exactly the target path.
pub open spec fn record_matches(c: CommitRecordV, target: Seq<char>) -> bool {
    exists|i: int| 0 <= i < c.changed_paths.len() && c.changed_paths[i] == target
}

/// The edit record that one commit turns into.
pub open spec fn edit_of(c: CommitRecordV) -> EditV {
    EditV { datetime: c.datetime, summary: first_line_spec(c.message), message: c.message }
}

/// The sort key of an edit: its time, with an absent time ordered before
/// every recorded time.
pub open spec fn time_key(e: EditV) -> int {
    match e.datetime {
        Some(t) => t as int,
        None => (i64::MIN as int) - 1,
    }
}

/// Edits in non-decreasing time order.
pub open spec fn sorted_by_time(s: Seq<EditV>) -> bool {
    forall|i: int, j: int| 0 <= i <= j < s.len() ==> time_key(s[i]) <= time_key(s[j])
}

/// The views of a list of edits.
pub open spec fn views_of(s: Seq<Edit>) -> Seq<EditV> {
    s.map_values(|e: Edit| e@)
}

/// An edit is well formed when its summary is the first line of its
/// message.
pub open spec fn edit_wf(e: EditV) -> bool {
    e.summary == first_line_spec(e.message)
}

/// Maps a commit to the edit record it contributes for `target`: one
/// record when it changed the path, none otherwise.
pub open spec fn edit_for(target: Seq<char>) -> spec_fn(CommitRecord) -> Option<EditV> {
    |c: CommitRecord|
        if record_matches(c@, target) {
            Some(edit_of(c@))
        } else {
            None::<EditV>
        }
}

/// The edit records that a run of commits contributes for a target path,
/// one for each commit that changed the path, taken without order.
pub open spec fn history_of(commits: Seq<CommitRecord>, target: Seq<char>) -> Multiset<EditV> {
    commits.filter_map(edit_for(target)).to_multiset()
}

/// Whether a commit changed `target`, as a predicate on commits.
pub open spec fn matches_target(target: Seq<char>) -> spec_fn(CommitRecord) -> bool {
    |c: CommitRecord| record_matches(c@, target)
}

/// Builds the edit record of one commit: its time as given, its full
/// message, and the message's first line as the summary.
pub fn make_edit(datetime: Option<i64>, message: &str) -> (e: Edit)
    ensures
        e@ == (EditV {
            datetime: datetime,
            summary: first_line_spec(message@),
            message: message@,
        }),
{
    Edit { datetime, summary: first_line(message), message: message.to_owned() }
}

/// Decides whether the commit changed the target path, comparing each
/// changed location against it and stopping at the first match.
pub fn changed_in_record(c: &CommitRecord, target: &str) -> (r: bool)
    ensures
        r == record_matches(c@, target@),
{
    let n = c.changed_paths.len();
    let mut i: usize = 0;
    while i < n
        invariant
            i <= n,
            n == c.changed_paths@.len(),
            forall|j: int| 0 <= j < i ==> c.changed_paths@[j]@ != target@,
        decreases n - i,
    {
        let p = &c.changed_paths[i];
        if str_eq(p.as_str(), target) {
            assert(c@.changed_paths[i as int] == target@);
            return true;
        }
        i += 1;
    }
    assert forall|i: int| 0 <= i < c@.changed_paths.len() implies c@.changed_paths[i]
        != target@ by {
        assert(c@.changed_paths[i] == c.changed_paths@[i]@);
    }
    false
}

/// Whether `a` comes strictly after `b` in time order.
fn time_key_gt(a: &Edit, b: &Edit) -> (r: bool)
    ensures
        r == (time_key(a@) > time_key(b@)),
{
    match (a.datetime, b.datetime) {
        (Some(x), Some(y)) => x > y,
        (Some(_), None) => true,
        (None, _) => false,
    }
}

/// Orders edits by time, oldest first; edits without a time come first.
/// The result holds exactly the edits given, rearranged.
#[verifier::loop_isolation(false)]
pub fn sort_edits(edits: Vec<Edit>) -> (r: Vec<Edit>)
    ensures
        sorted_by_time(views_of(r@)),
        views_of(r@).to_multiset() == views_of(edits@).to_multiset(),
{
    broadcast use group_to_multiset_ensures;
    broadcast use vstd::multiset::group_multiset_axioms;

    let mut rest = edits;
    let mut out: Vec<Edit> = Vec::new();
    while rest.len() > 0
        invariant
            sorted_by_time(views_of(out@)),
            views_of(out@).to_multiset().add(views_of(rest@).to_multiset()) == views_of(
                edits@,
            ).to_multiset(),
        decreases rest@.len(),
    {
        let ghost prev_out = out@;
        let ghost prev_rest = rest@;
        let e = rest.pop().unwrap();
        proof {
            assert(views_of(rest@).push(e@) =~= views_of(prev_rest));
            assert(views_of(rest@).push(e@).to_multiset() == views_of(rest@).to_multiset().insert(
                e@,
            ));
        }
        let mut pos: usize = out.len();
        while pos > 0 && time_key_gt(&out[pos - 1], &e)
            invariant
                pos <= out@.len(),
                forall|j: int| pos <= j < out@.len() ==> time_key(views_of(out@)[j]) > time_key(
                    e@,
                ),
            decreases pos,
        {
            pos -= 1;
        }
        out.insert(pos, e);
        proof {
            assert(views_of(out@) =~= views_of(prev_out).insert(pos as int, e@));
            assert(views_of(prev_out).insert(pos as int, e@).to_multiset() == views_of(
                prev_out,
            ).to_multiset().insert(e@));
            assert(views_of(out@).to_multiset().add(views_of(rest@).to_multiset()) =~= views_of(
                edits@,
            ).to_multiset());
            assert forall|i: int, j: int| 0 <= i <= j < views_of(out@).len() implies time_key(
                views_of(out@)[i],
            ) <= time_key(views_of(out@)[j]) by {
                if pos > 0 {
                    assert(views_of(prev_out)[pos - 1] == views_of(out@)[pos - 1]);
                }
            }
        }
    }
    proof {
        assert(views_of(rest@) =~= Seq::<EditV>::empty());
        assert(views_of(rest@).to_multiset().len() == 0);
        assert(views_of(out@).to_multiset().add(views_of(rest@).to_multiset()) =~= views_of(
            out@,
        ).to_multiset());
    }
    out
}

/// Turns a run of commits into the history of `target`: one edit for each
/// commit that changed the path, ordered by time, oldest first. The
/// summary of every edit is the first line of its commit's message.
#[verifier::loop_isolation(false)]
pub fn collect_history(commits: &Vec<CommitRecord>, target: &str) -> (r: Vec<Edit>)
    ensures
        sorted_by_time(views_of(r@)),
        views_of(r@).to_multiset() == history_of(commits@, target@),
        r@.len() == history_of(commits@, target@).len(),
        forall|i: int| 0 <= i < r@.len() ==> edit_wf(#[trigger] r@[i]@),
{
    broadcast use group_to_multiset_ensures;

    let ghost f = edit_for(target@);
    let mut out: Vec<Edit> = Vec::new();
    let n = commits.len();
    let mut i: usize = 0;
    while i < n
        invariant
            i <= n,
            n == commits@.len(),
            f == edit_for(target@),
            views_of(out@).to_multiset() == commits@.take(i as int).filter_map(f).to_multiset(),
            forall|k: int| 0 <= k < out@.len() ==> edit_wf(#[trigger] out@[k]@),
        decreases n - i,
    {
        let ghost prev = out@;
        let ghost prev_hist = commits@.take(i as int).filter_map(f);
        let c = &commits[i];
        if changed_in_record(c, target) {
            let e = make_edit(c.datetime, c.message.as_str());
            out.push(e);
            proof {
                commits@.lemma_filter_map_take_succ(f, i as int);
                assert(f(commits@[i as int]) == Some(e@));
                assert(commits@.take(i + 1).filter_map(f) =~= prev_hist.push(e@));
                assert(views_of(out@) =~= views_of(prev).push(e@));
                assert(views_of(prev).push(e@).to_multiset() == views_of(prev).to_multiset().insert(
                    e@,
                ));
                assert(prev_hist.push(e@).to_multiset() == prev_hist.to_multiset().insert(e@));
            }
        } else {
            proof {
                commits@.lemma_filter_map_take_succ(f, i as int);
                assert(f(commits@[i as int]) is None);
                assert(commits@.take(i + 1).filter_map(f) =~= prev_hist);
            }
        }
        i += 1;
    }
    proof {
        assert(commits@.take(n as int) =~= commits@);
    }
    let r = sort_edits(out);
    proof {
        assert forall|i: int| 0 <= i < r@.len() implies edit_wf(#[trigger] r@[i]@) by {
            assert(views_of(r@)[i] == r@[i]@);
            assert(views_of(r@).contains(r@[i]@));
            assert(views_of(r@).to_multiset().count(r@[i]@) > 0);
            assert(views_of(out@).to_multiset().count(r@[i]@) > 0);
            assert(views_of(out@).contains(r@[i]@));
            let j = choose|j: int| 0 <= j < views_of(out@).len() && views_of(out@)[j] == r@[i]@;
            assert(edit_wf(out@[j]@));
        }
    }
    r
}

/// Extracts the edit history of the file at `path`: the commits reachable
/// from the head of the enclosing repository whose tree changed the file
/// relative to their first parent, each turned into an edit record, the
/// whole ordered by time, oldest first. `None` when the path has no
/// parent directory to search from — it is empty or the bare filesystem
/// root — when no repository lies above it, the repository is bare, a
/// path cannot be resolved on disk, the resolved path does not lie under
/// the working-tree root, or the repository has no head; a commit whose
/// trees cannot be read is passed over as unchanged, and one whose time
/// cannot be read keeps its place with no time.
#[verifier::loop_isolation(false)]
pub fn get_file_history(path: &str) -> (r: Option<Vec<Edit>>)
    ensures
        path@.len() == 0 || path@ == seq!['/'] ==> r is None,
        match r {
            Some(edits) => sorted_by_time(views_of(edits@)) && forall|i: int|
                0 <= i < edits@.len() ==> edit_wf(#[trigger] edits@[i]@),
            None => true,
        },
{
    let parent = match parent_dir(path) {
        Some(p) => p,
        None => {
            return None;
        },
    };
    let repo = match discover_repo(parent.as_str()) {
        Some(r) => r,
        None => {
            return None;
        },
    };
    let workdir = match workdir_of(&repo) {
        Some(w) => w,
        None => {
            return None;
        },
    };
    let abs = match canonical_of(path) {
        Some(a) => a,
        None => {
            return None;
        },
    };
    let root = match canonical_of(workdir.as_str()) {
        Some(c) => c,
        None => {
            return None;
        },
    };
    let rel = match relative_to_root(abs.as_str(), root.as_str()) {
        Some(p) => p,
        None => {
            return None;
        },
    };
    let ids = match walk_from_head(&repo) {
        Some(v) => v,
        None => {
            return None;
        },
    };
    let mut edits: Vec<Edit> = Vec::new();
    let n = ids.len();
    let mut i: usize = 0;
    while i < n
        invariant
            i <= n,
            n == ids@.len(),
            forall|k: int| 0 <= k < edits@.len() ==> edit_wf(#[trigger] edits@[k]@),
        decreases n - i,
    {
        let id = &ids[i];
        if matches!(commit_touches(&repo, id, rel.as_str()), Some(true)) {
            if let Some(msg) = commit_message(&repo, id) {
                let t = commit_time_seconds(&repo, id);
                let e = make_edit(t, msg.as_str());
                edits.push(e);
            }
        }
        i += 1;
    }
    let ghost pre = edits@;
    let sorted = sort_edits(edits);
    proof {
        broadcast use group_to_multiset_ensures;

        assert forall|k: int| 0 <= k < sorted@.len() implies edit_wf(#[trigger] sorted@[k]@) by {
            assert(views_of(sorted@)[k] == sorted@[k]@);
            assert(views_of(sorted@).contains(sorted@[k]@));
            assert(views_of(sorted@).to_multiset().count(sorted@[k]@) > 0);
            assert(views_of(pre).to_multiset().count(sorted@[k]@) > 0);
            assert(views_of(pre).contains(sorted@[k]@));
            let j = choose|j: int| 0 <= j < views_of(pre).len() && views_of(pre)[j] == sorted@[k]@;
            assert(edit_wf(pre[j]@));
        }
    }
    Some(sorted)
}

/// A path that no commit in the run changed has an empty history: asking
/// for a path that was never touched yields no edits, not an error.
pub proof fn lemma_no_match_empty(commits: Seq<CommitRecord>, target: Seq<char>)
    requires
        forall|i: int| 0 <= i < commits.len() ==> !record_matches(#[trigger] commits[i]@, target),
    ensures
        history_of(commits, target).len() == 0,
    decreases commits.len(),
{
    broadcast use group_to_multiset_ensures;

    let f = edit_for(target);
    if commits.len() == 0 {
        assert(commits.filter_map(f) =~= Seq::<EditV>::empty());
    } else {
        let rest = commits.drop_last();
        assert forall|i: int| 0 <= i < rest.len() implies !record_matches(
            #[trigger] rest[i]@,
            target,
        ) by {
            assert(rest[i] == commits[i]);
        }
        lemma_no_match_empty(rest, target);
        assert(!record_matches(commits[commits.len() - 1]@, target));
        assert(f(commits.last()) is None);
        assert(commits.filter_map(f) == rest.filter_map(f));
    }
}

/// A path that exactly one commit of the run changed — as a file added in
/// the run's very first commit and never touched again — appears in the
/// history exactly once, carrying that one commit's time and message.
pub proof fn lemma_single_match(commits: Seq<CommitRecord>, target: Seq<char>, i: int)
    requires
        0 <= i < commits.len(),
        record_matches(commits[i]@, target),
        forall|j: int|
            0 <= j < commits.len() && j != i ==> !record_matches(#[trigger] commits[j]@, target),
    ensures
        history_of(commits, target) == Multiset::<EditV>::empty().insert(edit_of(commits[i]@)),
    decreases commits.len(),
{
    broadcast use group_to_multiset_ensures;
    broadcast use vstd::multiset::group_multiset_axioms;
    broadcast use vstd::multiset::lemma_multiset_empty_len;

    let f = edit_for(target);
    let rest = commits.drop_last();
    let x = edit_of(commits[i]@);
    if i == commits.len() - 1 {
        assert forall|j: int| 0 <= j < rest.len() implies !record_matches(
            #[trigger] rest[j]@,
            target,
        ) by {
            assert(rest[j] == commits[j]);
        }
        lemma_no_match_empty(rest, target);
        assert(rest.filter_map(f).len() == 0);
        assert(rest.filter_map(f) =~= Seq::<EditV>::empty());
        assert(f(commits.last()) == Some(x));
        assert(commits.filter_map(f) =~= Seq::<EditV>::empty().push(x));
        assert(Seq::<EditV>::empty().push(x).to_multiset() == Seq::<EditV>::empty().to_multiset()
            .insert(x));
        assert(Seq::<EditV>::empty().to_multiset().len() == 0);
        assert(Seq::<EditV>::empty().to_multiset() =~= Multiset::<EditV>::empty());
    } else {
        assert forall|j: int| 0 <= j < rest.len() && j != i implies !record_matches(
            #[trigger] rest[j]@,
            target,
        ) by {
            assert(rest[j] == commits[j]);
        }
        assert(rest[i] == commits[i]);
        lemma_single_match(rest, target, i);
        assert(!record_matches(commits[commits.len() - 1]@, target));
        assert(f(commits.last()) is None);
        assert(commits.filter_map(f) == rest.filter_map(f));
    }
}

/// Each commit that changed the path contributes exactly one edit record,
/// however many other locations it changed besides: the history is
/// exactly as long as the run of matching commits, with nothing
/// duplicated and nothing left out.
pub proof fn lemma_one_record_per_matching_commit(commits: Seq<CommitRecord>, target: Seq<char>)
    ensures
        history_of(commits, target).len() == commits.filter(matches_target(target)).len(),
    decreases commits.len(),
{
    broadcast use group_to_multiset_ensures;
    broadcast use vstd::seq_lib::group_filter_ensures;

    let f = edit_for(target);
    let p = matches_target(target);
    if commits.len() == 0 {
        assert(commits.filter_map(f) =~= Seq::<EditV>::empty());
        assert(commits.filter(p).len() <= 0);
    } else {
        let rest = commits.drop_last();
        let last = commits.last();
        lemma_one_record_per_matching_commit(rest, target);
        rest.lemma_filter_push(last, p);
        assert(rest.push(last) =~= commits);
        commits.lemma_filter_map_take_succ(f, commits.len() - 1);
        assert(commits.take(commits.len() as int) =~= commits);
        assert(commits.take(commits.len() - 1) =~= rest);
        if p(last) {
            assert(commits.filter(p) == rest.filter(p).push(last));
            assert(f(last) == Some(edit_of(last@)));
            assert(commits.filter_map(f) =~= rest.filter_map(f).push(edit_of(last@)));
        } else {
            assert(commits.filter(p) == rest.filter(p));
            assert(f(last) is None);
            assert(commits.filter_map(f) =~= rest.filter_map(f));
        }
    }
}

/// The least recorded time among the edits, or `None` when no edit has
/// one.
pub fn earliest_time(edits: &Vec<Edit>) -> (r: Option<i64>)
    ensures
        match r {
            Some(t) => (exists|i: int|
                0 <= i < edits@.len() && #[trigger] edits@[i].datetime == Some(t)) && forall|i: int|
                0 <= i < edits@.len() ==> (#[trigger] edits@[i].datetime matches Some(u) ==> t
                    <= u),
            None => forall|i: int| 0 <= i < edits@.len() ==> #[trigger] edits@[i].datetime is None,
        },
{
    let mut best: Option<i64> = None;
    let n = edits.len();
    let mut i: usize = 0;
    while i < n
        invariant
            i <= n,
            n == edits@.len(),
            match best {
                Some(t) => (exists|j: int|
                    0 <= j < i && #[trigger] edits@[j].datetime == Some(t)) && forall|j: int|
                    0 <= j < i ==> (#[trigger] edits@[j].datetime matches Some(u) ==> t <= u),
                None => forall|j: int| 0 <= j < i ==> #[trigger] edits@[j].datetime is None,
            },
        decreases n - i,
    {
        let e = &edits[i];
        match (best, e.datetime) {
            (None, Some(u)) => {
                best = Some(u);
            },
            (Some(t), Some(u)) => {
                if u < t {
                    best = Some(u);
                }
            },
            _ => {},
        }
        i += 1;
    }
    best
}

/// The greatest recorded time among the edits, or `None` when no edit has
/// one.
pub fn latest_time(edits: &Vec<Edit>) -> (r: Option<i64>)
    ensures
        match r {
            Some(t) => (exists|i: int|
                0 <= i < edits@.len() && #[trigger] edits@[i].datetime == Some(t)) && forall|i: int|
                0 <= i < edits@.len() ==> (#[trigger] edits@[i].datetime matches Some(u) ==> t
                    >= u),
            None => forall|i: int| 0 <= i < edits@.len() ==> #[trigger] edits@[i].datetime is None,
        },
{
    let mut best: Option<i64> = None;
    let n = edits.len();
    let mut i: usize = 0;
    while i < n
        invariant
            i <= n,
            n == edits@.len(),
            match best {
                Some(t) => (exists|j: int|
                    0 <= j < i && #[trigger] edits@[j].datetime == Some(t)) && forall|j: int|
                    0 <= j < i ==> (#[trigger] edits@[j].datetime matches Some(u) ==> t >= u),
                None => forall|j: int| 0 <= j < i ==> #[trigger] edits@[j].datetime is None,
            },
        decreases n - i,
    {
        let e = &edits[i];
        match (best, e.datetime) {
            (None, Some(u)) => {
                best = Some(u);
            },
            (Some(t), Some(u)) => {
                if u > t {
                    best = Some(u);
                }
            },
            _ => {},
        }
        i += 1;
    }
    best
}

} // verus!
