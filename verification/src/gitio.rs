use std::ops::ControlFlow;
use vstd::prelude::*;
use vstd::string::StringSliceAdditionalSpecFns;

verus! {

/// Declares `gix::Repository`, the handle to a discovered repository, so
/// that it can be carried through signatures; its inside stays opaque.
#[verifier::external_type_specification]
#[verifier::external_body]
pub struct ExRepository(gix::Repository);

/// Declares `gix::ObjectId`, the hash that names a commit.
#[verifier::external_type_specification]
#[verifier::external_body]
pub struct ExObjectId(gix::ObjectId);

/// Compares the UTF-8 bytes of `target` with a raw location, byte for
/// byte.
pub(crate) fn loc_matches(target: &str, loc: &[u8]) -> (r: bool)
    ensures
        r == (target.spec_bytes() == loc@),
{
    broadcast use vstd::slice::axiom_spec_len;

    let tb = target.as_bytes();
    if tb.len() != loc.len() {
        return false;
    }
    let n = tb.len();
    let mut i: usize = 0;
    while i < n
        invariant
            i <= n,
            n == tb@.len(),
            n == loc@.len(),
            tb@ == target.spec_bytes(),
            forall|j: int| 0 <= j < i ==> tb@[j] == loc@[j],
        decreases n - i,
    {
        if tb[i] != loc[i] {
            return false;
        }
        i += 1;
    }
    proof {
        assert(target.spec_bytes() =~= loc@);
    }
    true
}

/// Relies on `gix::discover`: searches upward from `path` for the
/// enclosing repository, reading the filesystem; `None` on any failure,
/// as when no repository lies above the path.
#[verifier::external_body]
pub(crate) fn discover_repo(path: &str) -> Option<gix::Repository> {
    gix::discover(std::path::Path::new(path)).ok()
}

/// Relies on `gix::Repository::workdir`: the working-tree root of the
/// repository; `None` for a bare repository, or when the root is not
/// representable as text.
#[verifier::external_body]
pub(crate) fn workdir_of(repo: &gix::Repository) -> Option<String> {
    repo.workdir().and_then(|p| p.to_str()).map(|s| s.to_owned())
}

/// Relies on std's `Path::canonicalize`: resolves symlinks and relative
/// segments by reading the filesystem; `None` when the path does not
/// exist, cannot be read, or is not representable as text.
#[verifier::external_body]
pub(crate) fn canonical_of(path: &str) -> Option<String> {
    let canon = std::path::Path::new(path).canonicalize().ok()?;
    canon.to_str().map(|s| s.to_owned())
}

/// Relies on gix's rev walk (`Repository::head_id`, `Repository::rev_walk`):
/// the ids of the commits reachable from the current head by parent links.
/// The walk keeps a seen-set, so each commit is yielded at most once and
/// the ids are pairwise distinct; their order is the walk's own, and an
/// entry the walk cannot read is passed over. `None` when the repository
/// has no head to start from, as on an unborn branch.
#[verifier::external_body]
pub(crate) fn walk_from_head(repo: &gix::Repository) -> (r: Option<Vec<gix::ObjectId>>)
    ensures
        match r {
            Some(ids) => forall|i: int, j: int|
                0 <= i < j < ids@.len() ==> ids@[i] != ids@[j],
            None => true,
        },
{
    let head = repo.head_id().ok()?;
    let walk = repo.rev_walk([head.detach()]).all().ok()?;
    Some(walk.filter_map(|res| res.ok().map(|info| info.id)).collect())
}

/// Relies on gix's tree diff (`Tree::changes`,
/// `Platform::for_each_to_obtain_tree`): enumerates the entries that
/// differ between the commit's tree and its first parent's tree — an
/// empty tree for a root commit; further parents of a merge are never
/// looked at — handing each entry's repository-relative location to
/// `loc_matches` against `target` and stopping at the first match.
/// Rename tracking is switched off, so a moved file shows up as a
/// deletion and an addition under their own locations. Returns whether a
/// changed entry's location matched `target` exactly; `None` when the
/// commit, its tree, or its first parent's tree cannot be loaded.
/// Stopping early surfaces as a cancellation error of the enumeration,
/// so the call's result is dropped and the flag the callback set carries
/// the answer; a diff that fails midway leaves it unset, counting the
/// commit as unchanged.
#[verifier::external_body]
pub(crate) fn commit_touches(repo: &gix::Repository, id: &gix::ObjectId, target: &str) -> Option<
    bool,
> {
    let commit = repo.find_object(*id).ok()?.try_into_commit().ok()?;
    let tree = commit.tree().ok()?;
    let ptree = match commit.parent_ids().next() {
        Some(p) => p.object().ok()?.try_into_commit().ok()?.tree().ok()?,
        None => repo.empty_tree(),
    };
    let mut hit = false;
    let mut platform = ptree.changes().ok()?;
    platform.options(|o| { o.track_rewrites(None); });
    let _ = platform.for_each_to_obtain_tree(&tree, |change| {
        hit = loc_matches(target, change.location().as_ref());
        Ok(if hit { ControlFlow::Break(()) } else { ControlFlow::Continue(()) })
    });
    Some(hit)
}

/// Relies on gix's commit parsing (`Commit::message_raw`): the commit's
/// full message text, made UTF-8 with replacement characters where
/// needed; `None` when the commit cannot be loaded or decoded.
#[verifier::external_body]
pub(crate) fn commit_message(repo: &gix::Repository, id: &gix::ObjectId) -> Option<String> {
    let commit = repo.find_object(*id).ok()?.try_into_commit().ok()?;
    let raw = commit.message_raw().ok()?;
    Some(String::from_utf8_lossy(raw.as_ref()).into_owned())
}

/// Relies on gix's commit parsing (`Commit::time`): the committer time in
/// seconds since the Unix epoch; `None` when the commit cannot be loaded
/// or its time cannot be parsed.
#[verifier::external_body]
pub(crate) fn commit_time_seconds(repo: &gix::Repository, id: &gix::ObjectId) -> Option<i64> {
    let commit = repo.find_object(*id).ok()?.try_into_commit().ok()?;
    Some(commit.time().ok()?.seconds)
}

} // verus!
