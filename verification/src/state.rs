//! The process-wide daemon state: the registry mapping each project root
//! to its entry and client reference count. All mutation happens while
//! the caller holds the daemon's single coarse-grained lock, so the
//! operations here are plain sequential transitions. Invariants: at most
//! one entry per root, a reference count never below one, and an entry is
//! removed exactly when its count reaches zero.

use crate::text::str_eq;
use crate::DaemonError;
use vstd::prelude::*;
use vstd::string::*;

verus! {

/// One registered project: its root and how many clients hold it open.
pub struct ProjectEntry {
    pub root: String,
    pub num_clients: i32,
}

/// The mathematical content of a `ProjectEntry`.
pub ghost struct EntryModel {
    pub root: Seq<char>,
    pub num_clients: int,
}

impl View for ProjectEntry {
    type V = EntryModel;

    open spec fn view(&self) -> EntryModel {
        EntryModel { root: self.root@, num_clients: self.num_clients as int }
    }
}

/// The count registered under a root: that of its first entry, or zero
/// when no entry carries the root. Under the registry invariant the first
/// entry is the only one.
pub open spec fn root_count(ms: Seq<EntryModel>, root: Seq<char>) -> int
    decreases ms.len(),
{
    if ms.len() == 0 {
        0
    } else if ms.first().root == root {
        ms.first().num_clients
    } else {
        root_count(ms.drop_first(), root)
    }
}

proof fn lemma_root_count_at(ms: Seq<EntryModel>, i: int, r: Seq<char>)
    requires
        forall|a: int, b: int| 0 <= a < b < ms.len() ==> ms[a].root != ms[b].root,
        0 <= i < ms.len(),
        ms[i].root == r,
    ensures
        root_count(ms, r) == ms[i].num_clients,
    decreases ms.len(),
{
    if i == 0 {
    } else {
        assert(ms[0].root != ms[i].root);
        lemma_root_count_at(ms.drop_first(), i - 1, r);
    }
}

proof fn lemma_root_count_absent(ms: Seq<EntryModel>, r: Seq<char>)
    requires
        forall|k: int| 0 <= k < ms.len() ==> ms[k].root != r,
    ensures
        root_count(ms, r) == 0,
    decreases ms.len(),
{
    if ms.len() > 0 {
        lemma_root_count_absent(ms.drop_first(), r);
    }
}

proof fn lemma_root_count_update(ms: Seq<EntryModel>, i: int, e: EntryModel, r: Seq<char>)
    requires
        0 <= i < ms.len(),
        ms[i].root != r,
        e.root != r,
    ensures
        root_count(ms.update(i, e), r) == root_count(ms, r),
    decreases ms.len(),
{
    let post = ms.update(i, e);
    if i == 0 {
        assert(post.drop_first() =~= ms.drop_first());
    } else {
        assert(post.first() == ms.first());
        assert(post.drop_first() =~= ms.drop_first().update(i - 1, e));
        lemma_root_count_update(ms.drop_first(), i - 1, e, r);
    }
}

proof fn lemma_root_count_push(ms: Seq<EntryModel>, e: EntryModel, r: Seq<char>)
    requires
        e.root != r,
    ensures
        root_count(ms.push(e), r) == root_count(ms, r),
    decreases ms.len(),
{
    let post = ms.push(e);
    assert(post.len() == ms.len() + 1);
    if ms.len() == 0 {
        assert(post.first() == e);
        assert(post.first().root != r);
        assert(post.drop_first() =~= Seq::<EntryModel>::empty());
        assert(root_count(post, r) == root_count(post.drop_first(), r));
        assert(root_count(post.drop_first(), r) == 0);
    } else {
        assert(post.first() == ms.first());
        assert(post.drop_first() =~= ms.drop_first().push(e));
        lemma_root_count_push(ms.drop_first(), e, r);
        if post.first().root == r {
            assert(root_count(post, r) == post.first().num_clients);
            assert(root_count(ms, r) == ms.first().num_clients);
        } else {
            assert(root_count(post, r) == root_count(post.drop_first(), r));
            assert(root_count(ms, r) == root_count(ms.drop_first(), r));
        }
    }
}

proof fn lemma_root_count_remove(ms: Seq<EntryModel>, i: int, r: Seq<char>)
    requires
        0 <= i < ms.len(),
        ms[i].root != r,
    ensures
        root_count(ms.remove(i), r) == root_count(ms, r),
    decreases ms.len(),
{
    let post = ms.remove(i);
    if i == 0 {
        assert(post =~= ms.drop_first());
    } else {
        assert(post.first() == ms.first());
        assert(post.drop_first() =~= ms.drop_first().remove(i - 1));
        lemma_root_count_remove(ms.drop_first(), i - 1, r);
    }
}

/// The registry of open projects.
pub struct DaemonState {
    pub projects: Vec<ProjectEntry>,
}

impl DaemonState {
    pub open spec fn models(self) -> Seq<EntryModel> {
        self.projects@.map_values(|e: ProjectEntry| e@)
    }

    /// Registry invariant: roots are pairwise distinct and every count is
    /// at least one — an entry whose count would reach zero is removed.
    pub open spec fn wf(self) -> bool {
        &&& forall|i: int, j: int|
            0 <= i < j < self.models().len() ==> self.models()[i].root != self.models()[j].root
        &&& forall|i: int| 0 <= i < self.models().len() ==> self.models()[i].num_clients >= 1
    }

    pub open spec fn contains_root(self, root: Seq<char>) -> bool {
        exists|i: int| 0 <= i < self.models().len() && self.models()[i].root == root
    }

    /// The count registered under a root, zero when the root is unknown.
    pub open spec fn count_of(self, root: Seq<char>) -> int {
        root_count(self.models(), root)
    }

    /// The empty registry, constructed once at daemon start and torn down
    /// at shutdown; no state lives in ambient globals.
    pub fn new() -> (s: DaemonState)
        ensures
            s.wf(),
            s.models() == Seq::<EntryModel>::empty(),
    {
        let s = DaemonState { projects: Vec::new() };
        proof {
            assert(s.models() =~= Seq::<EntryModel>::empty());
        }
        s
    }

    fn find_root(&self, root: &str) -> (r: Option<usize>)
        ensures
            r matches Some(i) ==> i < self.models().len() && self.models()[i as int].root == root@,
            r is None ==> forall|k: int|
                0 <= k < self.models().len() ==> self.models()[k].root != root@,
    {
        let n = self.projects.len();
        let mut i: usize = 0;
        while i < n
            invariant
                0 <= i <= n,
                n == self.models().len(),
                forall|k: int| 0 <= k < i ==> self.models()[k].root != root@,
            decreases n - i,
        {
            if str_eq(self.projects[i].root.as_str(), root) {
                return Some(i);
            }
            i += 1;
        }
        None
    }

    /// Registers one more client on a project: a known root's count goes
    /// up by one; an unknown root joins with a count of one, and `created`
    /// reports that the caller owes the project a broadcast hub and
    /// watcher.
    pub fn add_client(&mut self, root: &str) -> (created: bool)
        requires
            old(self).wf(),
            old(self).count_of(root@) < i32::MAX,
        ensures
            final(self).wf(),
            created <==> !old(self).contains_root(root@),
            final(self).contains_root(root@),
            final(self).count_of(root@) == old(self).count_of(root@) + 1,
            forall|q: Seq<char>|
                q != root@ ==> final(self).count_of(q) == old(self).count_of(q),
    {
        let ghost pre = self.models();
        let found = self.find_root(root);
        match found {
            Some(i) => {
                proof {
                    lemma_root_count_at(pre, i as int, root@);
                }
                let count = self.projects[i].num_clients;
                let fresh = ProjectEntry { root: String::from_str(root), num_clients: count + 1 };
                let ghost em = EntryModel { root: root@, num_clients: count + 1 };
                self.projects.remove(i);
                self.projects.insert(i, fresh);
                proof {
                    assert(self.models() =~= pre.update(i as int, em));
                    assert(self.models()[i as int].root == root@);
                    lemma_root_count_at(self.models(), i as int, root@);
                    assert forall|q: Seq<char>|
                        q != root@ implies root_count(self.models(), q) == root_count(pre, q) by {
                        lemma_root_count_update(pre, i as int, em, q);
                    }
                }
                false
            },
            None => {
                proof {
                    lemma_root_count_absent(pre, root@);
                }
                self.projects.push(ProjectEntry { root: String::from_str(root), num_clients: 1 });
                let ghost em = EntryModel { root: root@, num_clients: 1 };
                proof {
                    assert(self.models() =~= pre.push(em));
                    assert(self.models()[pre.len() as int].root == root@);
                    lemma_root_count_at(self.models(), pre.len() as int, root@);
                    assert forall|q: Seq<char>|
                        q != root@ implies root_count(self.models(), q) == root_count(pre, q) by {
                        lemma_root_count_push(pre, em, q);
                    }
                }
                true
            },
        }
    }

    /// Deregisters one client of a project. `Ok(true)` says the last
    /// client left: the entry is gone and the caller owes the project a
    /// teardown (hub closed, endpoint removed). An unknown root is the
    /// requesting client's own `StateError` and touches nothing else.
    pub fn drop_client(&mut self, root: &str) -> (r: Result<bool, DaemonError>)
        requires
            old(self).wf(),
        ensures
            final(self).wf(),
            r matches Ok(removed) ==> {
                &&& old(self).contains_root(root@)
                &&& (removed <==> old(self).count_of(root@) == 1)
                &&& (removed ==> !final(self).contains_root(root@))
                &&& (!removed ==> final(self).count_of(root@) == old(self).count_of(root@) - 1
                    && final(self).contains_root(root@))
                &&& forall|q: Seq<char>|
                    q != root@ ==> final(self).count_of(q) == old(self).count_of(q)
            },
            r matches Err(e) ==> e is StateError && !old(self).contains_root(root@) && *final(self)
                == *old(self),
    {
        let ghost pre = self.models();
        let found = self.find_root(root);
        match found {
            Some(i) => {
                proof {
                    lemma_root_count_at(pre, i as int, root@);
                }
                let count = self.projects[i].num_clients;
                if count == 1 {
                    self.projects.remove(i);
                    proof {
                        assert(self.models() =~= pre.remove(i as int));
                        if self.contains_root(root@) {
                            let w = choose|w: int|
                                0 <= w < self.models().len() && self.models()[w].root == root@;
                            if w < i {
                                assert(pre[w].root == root@);
                            } else {
                                assert(pre[w + 1].root == root@);
                            }
                            assert(false);
                        }
                        assert forall|q: Seq<char>|
                            q != root@ implies root_count(self.models(), q) == root_count(
                            pre,
                            q,
                        ) by {
                            lemma_root_count_remove(pre, i as int, q);
                        }
                    }
                    Ok(true)
                } else {
                    let fresh = ProjectEntry {
                        root: String::from_str(root),
                        num_clients: count - 1,
                    };
                    let ghost em = EntryModel { root: root@, num_clients: count - 1 };
                    self.projects.remove(i);
                    self.projects.insert(i, fresh);
                    proof {
                        assert(self.models() =~= pre.update(i as int, em));
                        assert(self.models()[i as int].root == root@);
                        lemma_root_count_at(self.models(), i as int, root@);
                        assert forall|q: Seq<char>|
                            q != root@ implies root_count(self.models(), q) == root_count(
                            pre,
                            q,
                        ) by {
                            lemma_root_count_update(pre, i as int, em, q);
                        }
                    }
                    Ok(false)
                }
            },
            None => Err(DaemonError::StateError),
        }
    }
}

} // verus!
