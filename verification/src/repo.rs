//! The model of the local repository that the engine reasons over.
//!
//! The repository-access layer owns the real reference store; the engine
//! works on this plain image of it: the local branches, each with its
//! target commit, its tracking configuration and the position of its
//! remote-tracking reference when that reference resolves, and the name of
//! the checked-out branch. The binaries build this image from the real
//! repository, let the engine transform it, and mirror every transformation
//! back as reference updates and branch deletions.

use vstd::prelude::*;

verus! {

/// A branch as the remote currently has it.
pub struct RemoteBranch {
    pub name: String,
    pub target: u64,
}

/// Mathematical image of a `RemoteBranch`.
pub struct RemoteBranchView {
    pub name: Seq<char>,
    pub target: u64,
}

impl View for RemoteBranch {
    type V = RemoteBranchView;

    open spec fn view(&self) -> RemoteBranchView {
        RemoteBranchView { name: self.name@, target: self.target }
    }
}

/// A local branch: its name, the commit it points at, whether an upstream
/// is configured for it, and the target of its remote-tracking reference
/// when that reference resolves.
pub struct Branch {
    pub name: String,
    pub target: u64,
    pub tracking: bool,
    pub upstream: Option<u64>,
}

/// Mathematical image of a `Branch`.
pub struct BranchView {
    pub name: Seq<char>,
    pub target: u64,
    pub tracking: bool,
    pub upstream: Option<u64>,
}

impl View for Branch {
    type V = BranchView;

    open spec fn view(&self) -> BranchView {
        BranchView {
            name: self.name@,
            target: self.target,
            tracking: self.tracking,
            upstream: self.upstream,
        }
    }
}

/// The images of a sequence of branches.
pub open spec fn branch_views(s: Seq<Branch>) -> Seq<BranchView> {
    s.map_values(|b: Branch| b@)
}

/// The images of a sequence of remote branches.
pub open spec fn remote_views(s: Seq<RemoteBranch>) -> Seq<RemoteBranchView> {
    s.map_values(|b: RemoteBranch| b@)
}

/// The images of a sequence of names.
pub open spec fn name_views(s: Seq<String>) -> Seq<Seq<char>> {
    s.map_values(|n: String| n@)
}

/// The local repository as the engine sees it.
pub struct RepoState {
    pub branches: Vec<Branch>,
    pub current: String,
}

/// Mathematical image of a `RepoState`.
pub struct RepoStateView {
    pub branches: Seq<BranchView>,
    pub current: Seq<char>,
}

impl View for RepoState {
    type V = RepoStateView;

    open spec fn view(&self) -> RepoStateView {
        RepoStateView { branches: branch_views(self.branches@), current: self.current@ }
    }
}

/// No two branches share a name.
pub open spec fn unique_names(bs: Seq<BranchView>) -> bool {
    forall|i: int, j: int| 0 <= i < j < bs.len() ==> bs[i].name != bs[j].name
}

/// Some branch bears the given name.
pub open spec fn has_name(bs: Seq<BranchView>, name: Seq<char>) -> bool {
    exists|i: int| 0 <= i < bs.len() && bs[i].name == name
}

/// The index of the branch bearing the given name.
pub open spec fn name_index(bs: Seq<BranchView>, name: Seq<char>) -> int {
    choose|i: int| 0 <= i < bs.len() && bs[i].name == name
}

/// The branch bearing the given name.
pub open spec fn branch_named(bs: Seq<BranchView>, name: Seq<char>) -> BranchView
    recommends
        has_name(bs, name),
{
    bs[name_index(bs, name)]
}

impl RepoState {
    /// The repository image is well formed: branch names are unique and the
    /// checked-out branch is among them.
    pub open spec fn wf(&self) -> bool {
        &&& unique_names(self@.branches)
        &&& has_name(self@.branches, self@.current)
    }

    /// The index of the first branch with the given name, if any.
    pub fn find_branch(&self, name: &String) -> (r: Option<usize>)
        ensures
            r matches Some(i) ==> (i < self@.branches.len() && self@.branches[i as int].name
                == name@),
            r is None ==> !has_name(self@.branches, name@),
    {
        let mut i: usize = 0;
        while i < self.branches.len()
            invariant
                i <= self@.branches.len(),
                forall|j: int| 0 <= j < i ==> self@.branches[j].name != name@,
            decreases self@.branches.len() - i,
        {
            if self.branches[i].name == *name {
                return Some(i);
            }
            i = i + 1;
        }
        None
    }
}

/// Whether pruning would delete this branch: it is not the checked-out
/// branch and its remote-tracking reference does not resolve.
pub fn is_prune_candidate(b: &Branch, current: &String) -> (r: bool)
    ensures
        r == prune_candidate(b@, current@),
{
    !(b.name == *current) && b.upstream.is_none()
}

/// The position of the named branch on the remote, if the remote has it:
/// the first entry bearing the name decides.
pub open spec fn lookup_remote(rs: Seq<RemoteBranchView>, name: Seq<char>) -> Option<u64>
    decreases rs.len(),
{
    if rs.len() == 0 {
        Option::None
    } else if rs[0].name == name {
        Option::Some(rs[0].target)
    } else {
        lookup_remote(rs.drop_first(), name)
    }
}

/// Look the named branch up in the fetched remote state.
pub fn lookup_remote_branch(remote: &Vec<RemoteBranch>, name: &String) -> (r: Option<u64>)
    ensures
        r == lookup_remote(remote_views(remote@), name@),
{
    let ghost rvs = remote_views(remote@);
    proof {
        assert(rvs.skip(0) =~= rvs);
    }
    let mut i: usize = 0;
    while i < remote.len()
        invariant
            i <= remote@.len(),
            rvs == remote_views(remote@),
            lookup_remote(rvs, name@) == lookup_remote(rvs.skip(i as int), name@),
        decreases remote@.len() - i,
    {
        proof {
            assert(rvs.skip(i as int)[0] == rvs[i as int]);
            assert(rvs.skip(i as int).drop_first() =~= rvs.skip(i as int + 1));
        }
        if remote[i].name == *name {
            return Some(remote[i].target);
        }
        i = i + 1;
    }
    proof {
        assert(rvs.skip(remote@.len() as int).len() == 0);
    }
    None
}

/// One branch after a fetch of all branches with pruning of stale
/// remote-tracking references: the remote-tracking reference of a tracking
/// branch resolves exactly when the remote still has a branch of that name,
/// and then points where the remote points.
pub open spec fn fetch_one(b: BranchView, rs: Seq<RemoteBranchView>) -> BranchView {
    BranchView {
        name: b.name,
        target: b.target,
        tracking: b.tracking,
        upstream: if b.tracking {
            lookup_remote(rs, b.name)
        } else {
            Option::None
        },
    }
}

/// All branches after such a fetch.
pub open spec fn fetched(bs: Seq<BranchView>, rs: Seq<RemoteBranchView>) -> Seq<BranchView> {
    bs.map_values(|b: BranchView| fetch_one(b, rs))
}

/// Whether pruning keeps a branch: the checked-out branch is never touched,
/// a branch whose remote-tracking reference resolves is kept, and a branch
/// whose deletion fails stays as it was.
pub open spec fn prune_keep(b: BranchView, current: Seq<char>, ok: bool) -> bool {
    b.name == current || b.upstream is Some || !ok
}

/// Whether a branch is up for deletion: not checked out, and no resolvable
/// remote-tracking reference.
pub open spec fn prune_candidate(b: BranchView, current: Seq<char>) -> bool {
    b.name != current && b.upstream is None
}

/// The branches that survive pruning, in their original order.
pub open spec fn pruned(bs: Seq<BranchView>, current: Seq<char>, ok: Seq<bool>) -> Seq<BranchView>
    recommends
        ok.len() == bs.len(),
    decreases bs.len(),
{
    if bs.len() == 0 {
        Seq::empty()
    } else {
        let rest = pruned(bs.drop_last(), current, ok.drop_last());
        if prune_keep(bs.last(), current, ok.last()) {
            rest.push(bs.last())
        } else {
            rest
        }
    }
}

/// The names of the branches pruning deletes.
pub open spec fn deleted_names(bs: Seq<BranchView>, current: Seq<char>, ok: Seq<bool>) -> Seq<
    Seq<char>,
>
    recommends
        ok.len() == bs.len(),
    decreases bs.len(),
{
    if bs.len() == 0 {
        Seq::empty()
    } else {
        let rest = deleted_names(bs.drop_last(), current, ok.drop_last());
        if prune_candidate(bs.last(), current) && ok.last() {
            rest.push(bs.last().name)
        } else {
            rest
        }
    }
}

/// The names of the branches whose deletion was attempted and failed.
pub open spec fn prune_failed_names(bs: Seq<BranchView>, current: Seq<char>, ok: Seq<bool>) -> Seq<
    Seq<char>,
>
    recommends
        ok.len() == bs.len(),
    decreases bs.len(),
{
    if bs.len() == 0 {
        Seq::empty()
    } else {
        let rest = prune_failed_names(bs.drop_last(), current, ok.drop_last());
        if prune_candidate(bs.last(), current) && !ok.last() {
            rest.push(bs.last().name)
        } else {
            rest
        }
    }
}

/// The branches after the default branch is fetched directly into its own
/// local name: an existing branch of that name is moved to the fetched
/// position and tracks it; otherwise such a branch is created.
pub open spec fn upsert(bs: Seq<BranchView>, name: Seq<char>, target: u64) -> Seq<BranchView> {
    let b = BranchView { name: name, target: target, tracking: true, upstream: Option::Some(target) };
    if has_name(bs, name) {
        bs.update(name_index(bs, name), b)
    } else {
        bs.push(b)
    }
}

impl RepoState {
    /// Record the outcome of a fetch of all branches: every branch's
    /// remote-tracking reference now mirrors the fetched remote state.
    pub fn apply_fetch(&mut self, remote: &Vec<RemoteBranch>)
        ensures
            final(self)@.current == old(self)@.current,
            final(self)@.branches == fetched(old(self)@.branches, remote_views(remote@)),
    {
        let ghost rvs = remote_views(remote@);
        let ghost obs = branch_views(self.branches@);
        let mut out: Vec<Branch> = Vec::new();
        let mut i: usize = 0;
        while i < self.branches.len()
            invariant
                obs == branch_views(self.branches@),
                rvs == remote_views(remote@),
                i <= obs.len(),
                branch_views(out@).len() == i,
                forall|j: int| 0 <= j < i ==> branch_views(out@)[j] == fetch_one(obs[j], rvs),
            decreases obs.len() - i,
        {
            let ghost out0 = out@;
            let b = &self.branches[i];
            let up = if b.tracking {
                lookup_remote_branch(remote, &b.name)
            } else {
                None
            };
            out.push(
                Branch { name: b.name.clone(), target: b.target, tracking: b.tracking, upstream: up },
            );
            proof {
                assert(obs[i as int] == self.branches@[i as int]@);
                assert(out@ == out0.push(out@[i as int]));
                assert(out@[i as int]@ == fetch_one(obs[i as int], rvs));
                assert(branch_views(out@)[i as int] == out@[i as int]@);
                assert forall|j: int| 0 <= j < i + 1 implies branch_views(out@)[j] == fetch_one(
                    obs[j],
                    rvs,
                ) by {
                    if j < i {
                        assert(branch_views(out@)[j] == branch_views(out0)[j]);
                    } else {
                        assert(branch_views(out@)[j] == out@[i as int]@);
                    }
                }
            }
            i = i + 1;
        }
        self.branches = out;
        proof {
            assert(self@.branches =~= fetched(obs, rvs));
        }
    }

    /// Advance the branch at the given index to the given commit, as a
    /// fast-forward does to the checked-out branch.
    pub fn advance_branch(&mut self, index: usize, target: u64)
        requires
            index < old(self)@.branches.len(),
        ensures
            final(self)@.current == old(self)@.current,
            final(self)@.branches == old(self)@.branches.update(
                index as int,
                (BranchView { target: target, ..old(self)@.branches[index as int] }),
            ),
    {
        let ghost obs = branch_views(self.branches@);
        let b = &self.branches[index];
        let nb = Branch {
            name: b.name.clone(),
            target: target,
            tracking: b.tracking,
            upstream: b.upstream,
        };
        self.branches.set(index, nb);
        proof {
            assert(self@.branches =~= obs.update(
                index as int,
                (BranchView { target: target, ..obs[index as int] }),
            ));
        }
    }

    /// Remove every branch that is not checked out and whose
    /// remote-tracking reference no longer resolves; a failed deletion is
    /// collected, never fatal. Returns the deleted names and the names
    /// whose deletion failed.
    ///
    /// `delete_ok` holds, per branch, whether deleting that branch would
    /// succeed; only the entries of deletion candidates are consulted.
    pub fn prune(&mut self, delete_ok: &Vec<bool>) -> (outcome: (Vec<String>, Vec<String>))
        requires
            delete_ok@.len() == old(self)@.branches.len(),
        ensures
            final(self)@.current == old(self)@.current,
            final(self)@.branches == pruned(old(self)@.branches, old(self)@.current, delete_ok@),
            name_views(outcome.0@) == deleted_names(
                old(self)@.branches,
                old(self)@.current,
                delete_ok@,
            ),
            name_views(outcome.1@) == prune_failed_names(
                old(self)@.branches,
                old(self)@.current,
                delete_ok@,
            ),
    {
        let ghost obs = branch_views(self.branches@);
        let ghost cur = self.current@;
        let ghost oks = delete_ok@;
        let mut kept: Vec<Branch> = Vec::new();
        let mut deleted: Vec<String> = Vec::new();
        let mut failed: Vec<String> = Vec::new();
        let mut i: usize = 0;
        while i < self.branches.len()
            invariant
                obs == branch_views(self.branches@),
                cur == self.current@,
                oks == delete_ok@,
                oks.len() == obs.len(),
                i <= obs.len(),
                branch_views(kept@) == pruned(obs.take(i as int), cur, oks.take(i as int)),
                name_views(deleted@) == deleted_names(obs.take(i as int), cur, oks.take(i as int)),
                name_views(failed@) == prune_failed_names(
                    obs.take(i as int),
                    cur,
                    oks.take(i as int),
                ),
            decreases obs.len() - i,
        {
            proof {
                assert(obs.take(i as int + 1).drop_last() =~= obs.take(i as int));
                assert(oks.take(i as int + 1).drop_last() =~= oks.take(i as int));
                assert(obs.take(i as int + 1).last() == obs[i as int]);
                assert(oks.take(i as int + 1).last() == oks[i as int]);
            }
            let b = &self.branches[i];
            let ghost kept0 = branch_views(kept@);
            let ghost deleted0 = name_views(deleted@);
            let ghost failed0 = name_views(failed@);
            if b.name == self.current || b.upstream.is_some() {
                kept.push(
                    Branch {
                        name: b.name.clone(),
                        target: b.target,
                        tracking: b.tracking,
                        upstream: b.upstream,
                    },
                );
                proof {
                    assert(branch_views(kept@) =~= kept0.push(obs[i as int]));
                }
            } else if delete_ok[i] {
                deleted.push(b.name.clone());
                proof {
                    assert(name_views(deleted@) =~= deleted0.push(obs[i as int].name));
                }
            } else {
                failed.push(b.name.clone());
                kept.push(
                    Branch {
                        name: b.name.clone(),
                        target: b.target,
                        tracking: b.tracking,
                        upstream: b.upstream,
                    },
                );
                proof {
                    assert(branch_views(kept@) =~= kept0.push(obs[i as int]));
                    assert(name_views(failed@) =~= failed0.push(obs[i as int].name));
                }
            }
            i = i + 1;
        }
        proof {
            assert(obs.take(obs.len() as int) =~= obs);
            assert(oks.take(obs.len() as int) =~= oks);
        }
        self.branches = kept;
        (deleted, failed)
    }

    /// Create or move the branch of the given name to the given commit,
    /// tracking it, as the direct fetch of the default branch does.
    pub fn upsert_branch(&mut self, name: &String, target: u64)
        requires
            unique_names(old(self)@.branches),
        ensures
            final(self)@.current == old(self)@.current,
            final(self)@.branches == upsert(old(self)@.branches, name@, target),
    {
        let ghost obs = branch_views(self.branches@);
        let nb = Branch {
            name: name.clone(),
            target: target,
            tracking: true,
            upstream: Some(target),
        };
        match self.find_branch(name) {
            Some(i) => {
                self.branches.set(i, nb);
                proof {
                    assert(obs[i as int].name == name@);
                    assert(has_name(obs, name@));
                    let j = name_index(obs, name@);
                    assert(0 <= j < obs.len() && obs[j].name == name@);
                    assert(j == i as int) by {
                        if j < i as int {
                            assert(obs[j].name != obs[i as int].name);
                        } else if j > i as int {
                            assert(obs[i as int].name != obs[j].name);
                        }
                    }
                    assert(self@.branches =~= upsert(obs, name@, target));
                }
            },
            None => {
                self.branches.push(nb);
                proof {
                    assert(self@.branches =~= upsert(obs, name@, target));
                }
            },
        }
    }
}

/// Every branch that survives pruning is one of the original branches, at
/// its original value, and pruning had reason to keep it.
pub proof fn lemma_pruned_membership(bs: Seq<BranchView>, current: Seq<char>, ok: Seq<bool>, j: int)
    requires
        ok.len() == bs.len(),
        0 <= j < pruned(bs, current, ok).len(),
    ensures
        exists|k: int|
            0 <= k < bs.len() && bs[k] == pruned(bs, current, ok)[j] && prune_keep(
                bs[k],
                current,
                ok[k],
            ),
    decreases bs.len(),
{
    let p = pruned(bs, current, ok);
    let rest = pruned(bs.drop_last(), current, ok.drop_last());
    if prune_keep(bs.last(), current, ok.last()) && j == p.len() - 1 {
        assert(bs[bs.len() - 1] == p[j] && prune_keep(
            bs[bs.len() - 1],
            current,
            ok[bs.len() - 1],
        ));
    } else {
        assert(0 <= j < rest.len() && rest[j] == p[j]);
        lemma_pruned_membership(bs.drop_last(), current, ok.drop_last(), j);
        let k = choose|k: int|
            0 <= k < bs.drop_last().len() && bs.drop_last()[k] == rest[j] && prune_keep(
                bs.drop_last()[k],
                current,
                ok.drop_last()[k],
            );
        assert(bs[k] == p[j] && prune_keep(bs[k], current, ok[k]));
    }
}

/// A name borne by a surviving branch was borne by an original branch.
pub proof fn lemma_pruned_name_subset(
    bs: Seq<BranchView>,
    current: Seq<char>,
    ok: Seq<bool>,
    name: Seq<char>,
)
    requires
        ok.len() == bs.len(),
        has_name(pruned(bs, current, ok), name),
    ensures
        has_name(bs, name),
{
    let p = pruned(bs, current, ok);
    let j = choose|j: int| 0 <= j < p.len() && p[j].name == name;
    lemma_pruned_membership(bs, current, ok, j);
    let k = choose|k: int|
        0 <= k < bs.len() && bs[k] == p[j] && prune_keep(bs[k], current, ok[k]);
    assert(bs[k].name == name);
}

/// Every deleted name belonged to a deletion candidate whose deletion
/// succeeded.
pub proof fn lemma_deleted_names_are_candidates(
    bs: Seq<BranchView>,
    current: Seq<char>,
    ok: Seq<bool>,
    n: Seq<char>,
)
    requires
        ok.len() == bs.len(),
        deleted_names(bs, current, ok).contains(n),
    ensures
        exists|k: int|
            0 <= k < bs.len() && bs[k].name == n && prune_candidate(bs[k], current) && ok[k],
    decreases bs.len(),
{
    let d = deleted_names(bs, current, ok);
    let rest = deleted_names(bs.drop_last(), current, ok.drop_last());
    let j = choose|j: int| 0 <= j < d.len() && d[j] == n;
    if prune_candidate(bs.last(), current) && ok.last() && j == d.len() - 1 {
        assert(bs[bs.len() - 1].name == n && prune_candidate(bs[bs.len() - 1], current) && ok[bs.len()
            - 1]);
    } else {
        assert(0 <= j < rest.len() && rest[j] == n);
        assert(rest.contains(n));
        lemma_deleted_names_are_candidates(bs.drop_last(), current, ok.drop_last(), n);
        let k = choose|k: int|
            0 <= k < bs.drop_last().len() && bs.drop_last()[k].name == n && prune_candidate(
                bs.drop_last()[k],
                current,
            ) && ok.drop_last()[k];
        assert(bs[k].name == n && prune_candidate(bs[k], current) && ok[k]);
    }
}

/// A branch whose remote-tracking reference resolves is never deleted:
/// pruning keeps it, at its value, and its name is not among the deleted
/// names.
pub proof fn lemma_prune_keeps_upstream(
    bs: Seq<BranchView>,
    current: Seq<char>,
    ok: Seq<bool>,
    i: int,
)
    requires
        ok.len() == bs.len(),
        unique_names(bs),
        0 <= i < bs.len(),
        bs[i].upstream is Some,
    ensures
        pruned(bs, current, ok).contains(bs[i]),
        !deleted_names(bs, current, ok).contains(bs[i].name),
    decreases bs.len(),
{
    let p = pruned(bs, current, ok);
    let rest = pruned(bs.drop_last(), current, ok.drop_last());
    if i == bs.len() - 1 {
        assert(prune_keep(bs.last(), current, ok.last()));
        assert(p[p.len() - 1] == bs[i]);
        assert(p.contains(bs[i]));
    } else {
        assert(unique_names(bs.drop_last()));
        lemma_prune_keeps_upstream(bs.drop_last(), current, ok.drop_last(), i);
        let j = choose|j: int| 0 <= j < rest.len() && rest[j] == bs.drop_last()[i];
        if prune_keep(bs.last(), current, ok.last()) {
            assert(p[j] == bs[i]);
        } else {
            assert(p[j] == bs[i]);
        }
        assert(p.contains(bs[i]));
    }
    if deleted_names(bs, current, ok).contains(bs[i].name) {
        lemma_deleted_names_are_candidates(bs, current, ok, bs[i].name);
        let k = choose|k: int|
            0 <= k < bs.len() && bs[k].name == bs[i].name && prune_candidate(bs[k], current)
                && ok[k];
        assert(k != i);
        if k < i {
            assert(bs[k].name != bs[i].name);
        } else {
            assert(bs[i].name != bs[k].name);
        }
    }
}

/// A deletion candidate whose deletion succeeds is gone afterwards: no
/// surviving branch bears its name, and its name is reported deleted.
pub proof fn lemma_prune_removes_gone(
    bs: Seq<BranchView>,
    current: Seq<char>,
    ok: Seq<bool>,
    i: int,
)
    requires
        ok.len() == bs.len(),
        unique_names(bs),
        0 <= i < bs.len(),
        prune_candidate(bs[i], current),
        ok[i],
    ensures
        !has_name(pruned(bs, current, ok), bs[i].name),
        deleted_names(bs, current, ok).contains(bs[i].name),
    decreases bs.len(),
{
    let p = pruned(bs, current, ok);
    let rest = pruned(bs.drop_last(), current, ok.drop_last());
    let d = deleted_names(bs, current, ok);
    let rest_d = deleted_names(bs.drop_last(), current, ok.drop_last());
    if i == bs.len() - 1 {
        assert(!prune_keep(bs.last(), current, ok.last()));
        assert(p == rest);
        if has_name(p, bs[i].name) {
            lemma_pruned_name_subset(bs.drop_last(), current, ok.drop_last(), bs[i].name);
            let k = choose|k: int|
                0 <= k < bs.drop_last().len() && bs.drop_last()[k].name == bs[i].name;
            assert(bs[k].name != bs[i].name);
        }
        assert(d[d.len() - 1] == bs[i].name);
        assert(d.contains(bs[i].name));
    } else {
        assert(unique_names(bs.drop_last()));
        lemma_prune_removes_gone(bs.drop_last(), current, ok.drop_last(), i);
        if prune_keep(bs.last(), current, ok.last()) {
            if has_name(p, bs[i].name) {
                let j = choose|j: int| 0 <= j < p.len() && p[j].name == bs[i].name;
                if j == p.len() - 1 {
                    assert(bs[bs.len() - 1].name != bs[i].name);
                } else {
                    assert(rest[j].name == bs[i].name);
                    assert(has_name(rest, bs[i].name));
                }
            }
        } else {
            assert(p == rest);
        }
        let jd = choose|jd: int| 0 <= jd < rest_d.len() && rest_d[jd] == bs[i].name;
        assert(d[jd] == bs[i].name);
        assert(d.contains(bs[i].name));
    }
}

/// Pruning preserves well-formedness: surviving names stay unique, and the
/// checked-out branch survives at its original value.
pub proof fn lemma_pruned_wf(bs: Seq<BranchView>, current: Seq<char>, ok: Seq<bool>)
    requires
        ok.len() == bs.len(),
        unique_names(bs),
    ensures
        unique_names(pruned(bs, current, ok)),
        has_name(bs, current) ==> (has_name(pruned(bs, current, ok), current) && branch_named(
            pruned(bs, current, ok),
            current,
        ) == branch_named(bs, current)),
    decreases bs.len(),
{
    let p = pruned(bs, current, ok);
    assert forall|a: int, b: int| 0 <= a < b < p.len() implies p[a].name != p[b].name by {
        lemma_pruned_membership(bs, current, ok, a);
        lemma_pruned_membership(bs, current, ok, b);
        let ka = choose|k: int|
            0 <= k < bs.len() && bs[k] == p[a] && prune_keep(bs[k], current, ok[k]);
        let kb = choose|k: int|
            0 <= k < bs.len() && bs[k] == p[b] && prune_keep(bs[k], current, ok[k]);
        if p[a].name == p[b].name {
            if ka < kb {
                assert(bs[ka].name != bs[kb].name);
            } else if kb < ka {
                assert(bs[kb].name != bs[ka].name);
            } else {
                lemma_pruned_distinct_positions(bs, current, ok, a, b);
            }
        }
    }
    if has_name(bs, current) {
        lemma_pruned_keeps_current(bs, current, ok);
    }
}

/// Two distinct survivor positions never collapse onto one original
/// branch position: the survivors are a subsequence, so equal entries at
/// distinct positions come from distinct positions.
proof fn lemma_pruned_distinct_positions(
    bs: Seq<BranchView>,
    current: Seq<char>,
    ok: Seq<bool>,
    a: int,
    b: int,
)
    requires
        ok.len() == bs.len(),
        unique_names(bs),
        0 <= a < b < pruned(bs, current, ok).len(),
    ensures
        pruned(bs, current, ok)[a].name != pruned(bs, current, ok)[b].name,
    decreases bs.len(),
{
    let p = pruned(bs, current, ok);
    let rest = pruned(bs.drop_last(), current, ok.drop_last());
    assert(unique_names(bs.drop_last()));
    if prune_keep(bs.last(), current, ok.last()) && b == p.len() - 1 {
        assert(p[b] == bs.last());
        assert(0 <= a < rest.len() && rest[a] == p[a]);
        lemma_pruned_membership(bs.drop_last(), current, ok.drop_last(), a);
        let k = choose|k: int|
            0 <= k < bs.drop_last().len() && bs.drop_last()[k] == rest[a] && prune_keep(
                bs.drop_last()[k],
                current,
                ok.drop_last()[k],
            );
        assert(bs[k].name != bs[bs.len() - 1].name);
    } else {
        assert(0 <= a < b < rest.len() && rest[a] == p[a] && rest[b] == p[b]);
        lemma_pruned_distinct_positions(bs.drop_last(), current, ok.drop_last(), a, b);
    }
}

/// With unique names, a position whose branch bears a name is the
/// position `name_index` picks.
pub proof fn lemma_name_index_unique(bs: Seq<BranchView>, name: Seq<char>, i: int)
    requires
        unique_names(bs),
        0 <= i < bs.len(),
        bs[i].name == name,
    ensures
        has_name(bs, name),
        name_index(bs, name) == i,
        branch_named(bs, name) == bs[i],
{
    assert(has_name(bs, name));
    let j = name_index(bs, name);
    assert(0 <= j < bs.len() && bs[j].name == name);
    if j < i {
        assert(bs[j].name != bs[i].name);
    } else if i < j {
        assert(bs[i].name != bs[j].name);
    }
}

/// Pruning a repository none of whose branches is a deletion candidate
/// changes nothing and deletes nothing.
pub proof fn lemma_prune_noop(bs: Seq<BranchView>, current: Seq<char>, ok: Seq<bool>)
    requires
        ok.len() == bs.len(),
        forall|j: int| 0 <= j < bs.len() ==> !prune_candidate(bs[j], current),
    ensures
        pruned(bs, current, ok) == bs,
        deleted_names(bs, current, ok) == Seq::<Seq<char>>::empty(),
        prune_failed_names(bs, current, ok) == Seq::<Seq<char>>::empty(),
    decreases bs.len(),
{
    if bs.len() == 0 {
        assert(pruned(bs, current, ok) =~= bs);
    } else {
        assert(forall|j: int| 0 <= j < bs.len() - 1 ==> bs.drop_last()[j] == bs[j]);
        lemma_prune_noop(bs.drop_last(), current, ok.drop_last());
        assert(!prune_candidate(bs.last(), current));
        assert(prune_keep(bs.last(), current, ok.last()));
        assert(pruned(bs, current, ok) =~= bs);
    }
}

/// Creating or moving a branch keeps names unique and loses no name.
pub proof fn lemma_upsert_wf(bs: Seq<BranchView>, name: Seq<char>, target: u64)
    requires
        unique_names(bs),
    ensures
        unique_names(upsert(bs, name, target)),
        forall|n: Seq<char>| has_name(bs, n) ==> has_name(upsert(bs, name, target), n),
        has_name(upsert(bs, name, target), name),
{
    let u = upsert(bs, name, target);
    let nb = BranchView { name: name, target: target, tracking: true, upstream: Option::Some(target) };
    if has_name(bs, name) {
        let k = name_index(bs, name);
        assert(0 <= k < bs.len() && bs[k].name == name);
        assert(forall|j: int| 0 <= j < bs.len() ==> u[j].name == bs[j].name);
        assert(unique_names(u));
        assert forall|n: Seq<char>| has_name(bs, n) implies has_name(u, n) by {
            let j = choose|j: int| 0 <= j < bs.len() && bs[j].name == n;
            assert(u[j].name == n);
        }
        assert(u[k].name == name);
    } else {
        assert(u == bs.push(nb));
        assert(forall|j: int| 0 <= j < bs.len() ==> u[j] == bs[j]);
        assert(u[bs.len() as int] == nb);
        assert forall|a: int, b: int| 0 <= a < b < u.len() implies u[a].name != u[b].name by {
            if b == bs.len() {
                assert(!(exists|i: int| 0 <= i < bs.len() && bs[i].name == name));
                assert(bs[a].name != name);
            }
        }
        assert forall|n: Seq<char>| has_name(bs, n) implies has_name(u, n) by {
            let j = choose|j: int| 0 <= j < bs.len() && bs[j].name == n;
            assert(u[j].name == n);
        }
        assert(has_name(u, name));
    }
}

/// The checked-out branch survives pruning at its original value.
proof fn lemma_pruned_keeps_current(bs: Seq<BranchView>, current: Seq<char>, ok: Seq<bool>)
    requires
        ok.len() == bs.len(),
        unique_names(bs),
        has_name(bs, current),
    ensures
        has_name(pruned(bs, current, ok), current),
        branch_named(pruned(bs, current, ok), current) == branch_named(bs, current),
    decreases bs.len(),
{
    let p = pruned(bs, current, ok);
    let rest = pruned(bs.drop_last(), current, ok.drop_last());
    let k = name_index(bs, current);
    assert(0 <= k < bs.len() && bs[k].name == current);
    if k == bs.len() - 1 {
        assert(prune_keep(bs.last(), current, ok.last()));
        assert(p[p.len() - 1] == bs[k]);
        assert(has_name(p, current));
        let j = name_index(p, current);
        assert(0 <= j < p.len() && p[j].name == current);
        if j < p.len() - 1 {
            assert(0 <= j < rest.len() && rest[j] == p[j]);
            lemma_pruned_name_subset(bs.drop_last(), current, ok.drop_last(), current);
            let m = choose|m: int|
                0 <= m < bs.drop_last().len() && bs.drop_last()[m].name == current;
            assert(bs[m].name != bs[k].name);
        }
        assert(branch_named(p, current) == bs[k]);
        assert(branch_named(bs, current) == bs[k]);
    } else {
        assert(unique_names(bs.drop_last()));
        assert(bs.drop_last()[k].name == current);
        assert(has_name(bs.drop_last(), current));
        lemma_pruned_keeps_current(bs.drop_last(), current, ok.drop_last());
        assert(branch_named(bs.drop_last(), current) == branch_named(bs, current)) by {
            let m = name_index(bs.drop_last(), current);
            let n = name_index(bs, current);
            assert(0 <= m < bs.drop_last().len() && bs.drop_last()[m].name == current);
            assert(0 <= n < bs.len() && bs[n].name == current);
            if n == bs.len() - 1 {
                assert(bs[m].name != bs[n].name);
            } else if m < n {
                assert(bs[m].name != bs[n].name);
            } else if n < m {
                assert(bs[n].name != bs[m].name);
            }
        }
        let j = name_index(rest, current);
        assert(0 <= j < rest.len() && rest[j].name == current);
        if prune_keep(bs.last(), current, ok.last()) {
            assert(p[j] == rest[j]);
            assert(has_name(p, current));
            let j2 = name_index(p, current);
            assert(0 <= j2 < p.len() && p[j2].name == current);
            if j2 == p.len() - 1 {
                if bs.last().name == current {
                    assert(bs[bs.len() - 1].name == bs[k].name);
                    assert(bs[k].name != bs[bs.len() - 1].name);
                }
                assert(p[j2] == bs.last());
            } else {
                assert(p[j2] == rest[j2]);
                if j < j2 {
                    lemma_pruned_distinct_positions(bs.drop_last(), current, ok.drop_last(), j, j2);
                } else if j2 < j {
                    lemma_pruned_distinct_positions(bs.drop_last(), current, ok.drop_last(), j2, j);
                }
                assert(branch_named(p, current) == branch_named(rest, current));
            }
        } else {
            assert(p == rest);
            assert(has_name(p, current));
        }
    }
}

} // verus!
