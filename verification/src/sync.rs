//! The synchronization sequence and its partial-failure policy.
//!
//! A synchronization runs through fixed stages: resolve the remote's
//! default branch and the checked-out branch, fetch all branches under the
//! authentication dispatcher, classify the checked-out branch against its
//! remote-tracking reference and fast-forward when possible, prune gone
//! branches, and — when the checked-out branch is not the default branch —
//! fetch the default branch directly into its own local name. Any stage
//! can abort the run with its error, except that divergence is a no-op and
//! individual deletion failures are collected, never fatal; a failure of
//! the final default-branch fetch is fatal.
//!
//! The stages that talk to the network or the working tree are performed
//! by the repository-access layer; their outcomes arrive here as a
//! `SyncEnv`, and the whole effect of the run on the repository image is
//! pinned down by `sync_spec`.

use vstd::prelude::*;

use crate::errors::CommandError;
use crate::merge::MergeClassification;
use crate::merge::analyze;
use crate::merge::classify;
use crate::repo::Branch;
use crate::repo::BranchView;
use crate::repo::RemoteBranch;
use crate::repo::RemoteBranchView;
use crate::repo::RepoState;
use crate::repo::RepoStateView;
use crate::repo::branch_named;
use crate::repo::branch_views;
use crate::repo::deleted_names;
use crate::repo::fetch_one;
use crate::repo::fetched;
use crate::repo::has_name;
use crate::repo::lookup_remote;
use crate::repo::lookup_remote_branch;
use crate::repo::name_index;
use crate::repo::name_views;
use crate::repo::prune_failed_names;
use crate::repo::pruned;
use crate::repo::remote_views;
use crate::repo::unique_names;
use crate::repo::upsert;
use crate::repo::lemma_name_index_unique;
use crate::repo::lemma_prune_noop;
use crate::repo::lemma_pruned_membership;
use crate::repo::lemma_pruned_wf;
use crate::repo::lemma_upsert_wf;
use crate::repo::prune_candidate;
use crate::repo::prune_keep;

verus! {

/// The outcomes of the outside work one synchronization run needs: what
/// the remote advertised and what each repository or transport operation
/// reported. The engine decides; the repository-access layer acts and
/// fills this in.
pub struct SyncEnv {
    /// The default branch the remote advertised during the handshake, or
    /// nothing if it could not be resolved.
    pub default_branch: Option<String>,
    /// The remote's branches as the fetch left them.
    pub remote_branches: Vec<RemoteBranch>,
    /// The error of the fetch of all branches, if it failed.
    pub fetch_error: Option<CommandError>,
    /// Whether the checked-out branch's commit is a strict ancestor of its
    /// remote-tracking target; consulted only when the two differ.
    pub head_is_ancestor: bool,
    /// Whether force-checkout of the working tree would succeed.
    pub checkout_ok: bool,
    /// Per local branch, whether deleting it would succeed; consulted only
    /// for deletion candidates.
    pub delete_ok: Vec<bool>,
    /// The error of the direct default-branch fetch, if it failed.
    pub default_fetch_error: Option<CommandError>,
}

/// Mathematical image of a `SyncEnv`.
pub struct SyncEnvView {
    pub default_branch: Option<Seq<char>>,
    pub remote_branches: Seq<RemoteBranchView>,
    pub fetch_error: Option<CommandError>,
    pub head_is_ancestor: bool,
    pub checkout_ok: bool,
    pub delete_ok: Seq<bool>,
    pub default_fetch_error: Option<CommandError>,
}

impl View for SyncEnv {
    type V = SyncEnvView;

    open spec fn view(&self) -> SyncEnvView {
        SyncEnvView {
            default_branch: match self.default_branch {
                Option::Some(ref d) => Option::Some(d@),
                Option::None => Option::None,
            },
            remote_branches: remote_views(self.remote_branches@),
            fetch_error: self.fetch_error,
            head_is_ancestor: self.head_is_ancestor,
            checkout_ok: self.checkout_ok,
            delete_ok: self.delete_ok@,
            default_fetch_error: self.default_fetch_error,
        }
    }
}

/// What a successful synchronization reports.
#[derive(Debug)]
pub struct SyncReport {
    /// How the checked-out branch stood against its remote-tracking
    /// reference, or nothing if no such reference resolved.
    pub classification: Option<MergeClassification>,
    /// The names of the branches pruning deleted.
    pub deleted: Vec<String>,
    /// The names of the branches whose deletion failed; reported, never
    /// fatal.
    pub prune_failures: Vec<String>,
}

/// The full effect of one synchronization run on the repository image.
pub struct SyncOutcome {
    pub branches: Seq<BranchView>,
    pub error: Option<CommandError>,
    pub classification: Option<MergeClassification>,
    pub deleted: Seq<Seq<char>>,
    pub prune_failures: Seq<Seq<char>>,
}

/// What one synchronization run does, stage by stage.
///
/// Either required name failing to resolve aborts untouched; a failed
/// fetch of all branches aborts untouched; after a successful fetch the
/// remote-tracking references mirror the remote. A fast-forwardable
/// checked-out branch advances to its remote-tracking target together with
/// the working tree, and a failing checkout aborts there; divergence and a
/// missing remote-tracking reference change nothing. Pruning then removes
/// the gone branches. Finally, when the checked-out branch is not the
/// default branch, the default branch is fetched directly into its own
/// local name, and a failure there is the result of the whole run.
pub open spec fn sync_spec(r: RepoStateView, e: SyncEnvView) -> SyncOutcome {
    if e.default_branch is None {
        SyncOutcome {
            branches: r.branches,
            error: Option::Some(CommandError::RefResolutionFailure),
            classification: Option::None,
            deleted: Seq::empty(),
            prune_failures: Seq::empty(),
        }
    } else if e.fetch_error is Some {
        SyncOutcome {
            branches: r.branches,
            error: Option::Some(e.fetch_error->0),
            classification: Option::None,
            deleted: Seq::empty(),
            prune_failures: Seq::empty(),
        }
    } else {
        let bs1 = fetched(r.branches, e.remote_branches);
        let cur = branch_named(bs1, r.current);
        let cls = match cur.upstream {
            Option::None => Option::None,
            Option::Some(u) => Option::Some(classify(cur.target, u, e.head_is_ancestor)),
        };
        if (cls matches Option::Some(MergeClassification::FastForwardable(u))) && !e.checkout_ok {
            SyncOutcome {
                branches: bs1,
                error: Option::Some(CommandError::CheckoutFailure),
                classification: cls,
                deleted: Seq::empty(),
                prune_failures: Seq::empty(),
            }
        } else {
            let bs2 = match cls {
                Option::Some(MergeClassification::FastForwardable(u)) => bs1.update(
                    name_index(bs1, r.current),
                    (BranchView { target: u, ..cur }),
                ),
                _ => bs1,
            };
            let del = deleted_names(bs2, r.current, e.delete_ok);
            let pf = prune_failed_names(bs2, r.current, e.delete_ok);
            let bs3 = pruned(bs2, r.current, e.delete_ok);
            let dbn = e.default_branch->0;
            if r.current == dbn {
                SyncOutcome {
                    branches: bs3,
                    error: Option::None,
                    classification: cls,
                    deleted: del,
                    prune_failures: pf,
                }
            } else if e.default_fetch_error is Some {
                SyncOutcome {
                    branches: bs3,
                    error: Option::Some(e.default_fetch_error->0),
                    classification: cls,
                    deleted: del,
                    prune_failures: pf,
                }
            } else {
                match lookup_remote(e.remote_branches, dbn) {
                    Option::Some(t) => SyncOutcome {
                        branches: upsert(bs3, dbn, t),
                        error: Option::None,
                        classification: cls,
                        deleted: del,
                        prune_failures: pf,
                    },
                    Option::None => SyncOutcome {
                        branches: bs3,
                        error: Option::Some(CommandError::FetchFailure),
                        classification: cls,
                        deleted: del,
                        prune_failures: pf,
                    },
                }
            }
        }
    }
}

/// Run one synchronization over the repository image, given the outcomes
/// of the outside work, exactly as `sync_spec` says.
pub fn sync(repo: &mut RepoState, env: SyncEnv) -> (r: Result<SyncReport, CommandError>)
    requires
        old(repo).wf(),
        env.delete_ok@.len() == old(repo)@.branches.len(),
    ensures
        final(repo)@.current == old(repo)@.current,
        final(repo).wf(),
        final(repo)@.branches == sync_spec(old(repo)@, env@).branches,
        (match sync_spec(old(repo)@, env@).error {
            Option::Some(e) => r matches Err(e2) && e2 == e,
            Option::None => ({
                let o = sync_spec(old(repo)@, env@);
                &&& r matches Ok(rep)
                &&& rep.classification == o.classification
                &&& name_views(rep.deleted@) == o.deleted
                &&& name_views(rep.prune_failures@) == o.prune_failures
            }),
        }),
{
    let ghost r0 = repo@;
    let ghost e0 = env@;
    let SyncEnv {
        default_branch,
        remote_branches,
        fetch_error,
        head_is_ancestor,
        checkout_ok,
        delete_ok,
        default_fetch_error,
    } = env;

    // Resolve the default branch; the checked-out branch is part of the
    // repository image itself.
    let default_branch = match default_branch {
        Some(d) => d,
        None => {
            return Err(CommandError::RefResolutionFailure);
        },
    };

    // Fetch all branches, pruning stale remote-tracking references; a
    // failure here aborts the whole run before anything changes.
    if let Some(e) = fetch_error {
        return Err(e);
    }
    repo.apply_fetch(&remote_branches);
    let ghost bs1 = repo@.branches;
    proof {
        assert(bs1 == fetched(r0.branches, e0.remote_branches));
        assert(forall|j: int| 0 <= j < bs1.len() ==> bs1[j].name == r0.branches[j].name);
        assert(unique_names(bs1));
        let k = name_index(r0.branches, r0.current);
        assert(0 <= k < r0.branches.len() && r0.branches[k].name == r0.current);
        assert(bs1[k].name == r0.current);
        assert(has_name(bs1, r0.current));
    }

    // Classify the checked-out branch against its remote-tracking
    // reference and fast-forward when possible.
    let ci = match repo.find_branch(&repo.current) {
        Some(i) => i,
        None => {
            // A well-formed image always holds its checked-out branch.
            return Err(CommandError::RefResolutionFailure);
        },
    };
    proof {
        assert(name_index(bs1, r0.current) == ci as int) by {
            let j = name_index(bs1, r0.current);
            assert(0 <= j < bs1.len() && bs1[j].name == r0.current);
            if j < ci as int {
                assert(bs1[j].name != bs1[ci as int].name);
            } else if j > ci as int {
                assert(bs1[ci as int].name != bs1[j].name);
            }
        }
        assert(branch_named(bs1, r0.current) == bs1[ci as int]);
    }
    let cur_target = repo.branches[ci].target;
    let cur_upstream = repo.branches[ci].upstream;
    let classification: Option<MergeClassification> = match cur_upstream {
        None => None,
        Some(u) => {
            let c = analyze(cur_target, u, head_is_ancestor);
            if let MergeClassification::FastForwardable(t) = c {
                if !checkout_ok {
                    return Err(CommandError::CheckoutFailure);
                }
                repo.advance_branch(ci, t);
            }
            Some(c)
        },
    };
    let ghost bs2 = repo@.branches;
    proof {
        assert(forall|j: int| 0 <= j < bs2.len() ==> bs2[j].name == bs1[j].name);
        assert(unique_names(bs2));
        assert(has_name(bs2, r0.current));
    }

    // Prune the gone branches; failures are collected, never fatal.
    let (deleted, prune_failures) = repo.prune(&delete_ok);
    proof {
        lemma_pruned_wf(bs2, r0.current, e0.delete_ok);
    }

    // Catch the default branch up into its own local name when it is not
    // the one checked out; a failure here is the result of the whole run.
    if !(repo.current == default_branch) {
        if let Some(e) = default_fetch_error {
            return Err(e);
        }
        match lookup_remote_branch(&remote_branches, &default_branch) {
            Some(t) => {
                proof {
                    lemma_upsert_wf(
                        pruned(bs2, r0.current, e0.delete_ok),
                        default_branch@,
                        t,
                    );
                }
                repo.upsert_branch(&default_branch, t);
            },
            None => {
                return Err(CommandError::FetchFailure);
            },
        }
    }
    Ok(SyncReport { classification, deleted, prune_failures })
}

/// A branch whose remote-tracking reference already mirrors the remote: a
/// fetch leaves it as it is.
pub open spec fn mirrors_remote(b: BranchView, rs: Seq<RemoteBranchView>) -> bool {
    b.upstream == (if b.tracking {
        lookup_remote(rs, b.name)
    } else {
        Option::<u64>::None
    })
}

/// Synchronizing is idempotent: after a successful run whose checked-out
/// branch tracked a branch the remote still has and was not diverged, a
/// second run against the unchanged remote classifies the checked-out
/// branch as up to date, deletes no further branch, and leaves the
/// repository image exactly where the first run left it.
pub proof fn lemma_sync_idempotent(r: RepoStateView, e1: SyncEnvView, e2: SyncEnvView)
    requires
        unique_names(r.branches),
        has_name(r.branches, r.current),
        e1.default_branch is Some,
        e1.fetch_error is None,
        e1.default_fetch_error is None,
        e1.checkout_ok,
        e1.delete_ok.len() == r.branches.len(),
        forall|j: int| 0 <= j < e1.delete_ok.len() ==> e1.delete_ok[j],
        e2.default_branch == e1.default_branch,
        e2.remote_branches == e1.remote_branches,
        e2.fetch_error is None,
        e2.default_fetch_error is None,
        e2.delete_ok.len() == sync_spec(r, e1).branches.len(),
        branch_named(r.branches, r.current).tracking,
        lookup_remote(e1.remote_branches, r.current) is Some,
        branch_named(r.branches, r.current).target == lookup_remote(
            e1.remote_branches,
            r.current,
        )->0 || e1.head_is_ancestor,
        r.current == e1.default_branch->0 || lookup_remote(
            e1.remote_branches,
            e1.default_branch->0,
        ) is Some,
    ensures
        sync_spec(r, e1).error is None,
        ({
            let o2 = sync_spec(
                (RepoStateView { branches: sync_spec(r, e1).branches, current: r.current }),
                e2,
            );
            &&& o2.error is None
            &&& o2.classification == Option::Some(MergeClassification::UpToDate)
            &&& o2.deleted == Seq::<Seq<char>>::empty()
            &&& o2.branches == sync_spec(r, e1).branches
        }),
{
    let rs = e1.remote_branches;
    let cur = r.current;
    let dbn = e1.default_branch->0;
    let u = lookup_remote(rs, cur)->0;
    let ok1 = e1.delete_ok;
    let o1 = sync_spec(r, e1);

    // Run one, stage by stage.
    let bs1 = fetched(r.branches, rs);
    assert(forall|j: int| 0 <= j < bs1.len() ==> bs1[j] == fetch_one(r.branches[j], rs));
    assert(forall|j: int| 0 <= j < bs1.len() ==> bs1[j].name == r.branches[j].name);
    assert forall|a: int, b: int| 0 <= a < b < bs1.len() implies bs1[a].name != bs1[b].name by {
        assert(r.branches[a].name != r.branches[b].name);
    }
    let k0 = name_index(r.branches, cur);
    assert(0 <= k0 < r.branches.len() && r.branches[k0].name == cur);
    lemma_name_index_unique(r.branches, cur, k0);
    assert(branch_named(r.branches, cur) == r.branches[k0]);
    lemma_name_index_unique(bs1, cur, k0);
    let cur1 = branch_named(bs1, cur);
    assert(cur1 == fetch_one(r.branches[k0], rs));
    assert(cur1.tracking);
    assert(cur1.upstream == Option::Some(u));
    let cls1 = classify(cur1.target, u, e1.head_is_ancestor);
    assert(cls1 != MergeClassification::Diverged);
    let bs2 = if cls1 is FastForwardable {
        bs1.update(k0, (BranchView { target: u, ..cur1 }))
    } else {
        bs1
    };
    assert(o1.classification == Option::Some(cls1));
    assert(bs2.len() == bs1.len());
    assert(forall|j: int| 0 <= j < bs2.len() ==> bs2[j].name == bs1[j].name);
    assert(unique_names(bs2));
    assert(bs2[k0].name == cur && bs2[k0].tracking && bs2[k0].target == u && bs2[k0].upstream
        == Option::Some(u));
    assert forall|j: int| 0 <= j < bs2.len() implies mirrors_remote(bs2[j], rs) by {
        if j != k0 || cls1 !is FastForwardable {
            assert(bs2[j] == fetch_one(r.branches[j], rs));
        }
    }
    lemma_name_index_unique(bs2, cur, k0);

    let bs3 = pruned(bs2, cur, ok1);
    let del1 = deleted_names(bs2, cur, ok1);
    lemma_pruned_wf(bs2, cur, ok1);
    assert(branch_named(bs3, cur) == bs2[k0]);
    assert forall|j: int| 0 <= j < bs3.len() implies (mirrors_remote(bs3[j], rs)
        && !prune_candidate(bs3[j], cur)) by {
        lemma_pruned_membership(bs2, cur, ok1, j);
        let k = choose|k: int|
            0 <= k < bs2.len() && bs2[k] == bs3[j] && prune_keep(bs2[k], cur, ok1[k]);
        assert(ok1[k]);
    }

    // Stage five of run one.
    let nb = BranchView {
        name: dbn,
        target: lookup_remote(rs, dbn)->0,
        tracking: true,
        upstream: Option::Some(lookup_remote(rs, dbn)->0),
    };
    if cur == dbn {
        assert(o1.branches == bs3);
        assert(o1.error is None);
    } else {
        let td = lookup_remote(rs, dbn)->0;
        assert(o1.branches == upsert(bs3, dbn, td));
        assert(o1.error is None);
        lemma_upsert_wf(bs3, dbn, td);
    }
    let f1 = o1.branches;

    // What run one leaves behind: unique names, the checked-out branch at
    // its fast-forwarded position, every branch mirroring the remote and
    // none of them a deletion candidate, and — off the default branch —
    // the default branch at its fetched position.
    assert(unique_names(f1));
    assert(has_name(f1, cur));
    assert(branch_named(f1, cur) == bs2[k0]) by {
        if cur != dbn {
            let kc = name_index(bs3, cur);
            assert(0 <= kc < bs3.len() && bs3[kc].name == cur);
            if has_name(bs3, dbn) {
                let kd = name_index(bs3, dbn);
                assert(0 <= kd < bs3.len() && bs3[kd].name == dbn);
                assert(kc != kd);
                assert(f1[kc] == bs3[kc]);
            } else {
                assert(f1[kc] == bs3[kc]);
            }
            lemma_name_index_unique(f1, cur, kc);
            lemma_name_index_unique(bs3, cur, kc);
        }
    }
    assert forall|j: int| 0 <= j < f1.len() implies (mirrors_remote(f1[j], rs)
        && !prune_candidate(f1[j], cur)) by {
        if cur != dbn {
            if has_name(bs3, dbn) {
                let kd = name_index(bs3, dbn);
                if j == kd {
                    assert(f1[j] == nb);
                } else {
                    assert(f1[j] == bs3[j]);
                }
            } else {
                if j == f1.len() - 1 {
                    assert(f1[j] == nb);
                } else {
                    assert(f1[j] == bs3[j]);
                }
            }
        }
    }
    assert(cur != dbn ==> has_name(f1, dbn) && branch_named(f1, dbn) == nb) by {
        if cur != dbn {
            if has_name(bs3, dbn) {
                let kd = name_index(bs3, dbn);
                assert(0 <= kd < bs3.len() && bs3[kd].name == dbn);
                assert(f1[kd] == nb);
                lemma_name_index_unique(f1, dbn, kd);
            } else {
                assert(f1[f1.len() - 1] == nb);
                lemma_name_index_unique(f1, dbn, f1.len() - 1);
            }
        }
    }

    // Run two, against the unchanged remote.
    let r1 = RepoStateView { branches: f1, current: cur };
    let o2 = sync_spec(r1, e2);
    let bs1p = fetched(f1, e2.remote_branches);
    assert(bs1p =~= f1) by {
        assert(forall|j: int| 0 <= j < f1.len() ==> bs1p[j] == fetch_one(f1[j], rs));
    }
    assert(branch_named(bs1p, cur) == bs2[k0]);
    let cls2 = classify(bs2[k0].target, u, e2.head_is_ancestor);
    assert(cls2 == MergeClassification::UpToDate);
    assert(o2.classification == Option::Some(MergeClassification::UpToDate));
    lemma_prune_noop(bs1p, cur, e2.delete_ok);
    assert(o2.deleted == Seq::<Seq<char>>::empty());
    if cur == dbn {
        assert(o2.branches == f1);
        assert(o2.error is None);
    } else {
        let td = lookup_remote(rs, dbn)->0;
        assert(o2.branches == upsert(f1, dbn, td));
        assert(o2.error is None);
        let kd = name_index(f1, dbn);
        assert(0 <= kd < f1.len() && f1[kd].name == dbn);
        assert(f1[kd] == nb);
        assert(o2.branches =~= f1);
    }
}

} // verus!
