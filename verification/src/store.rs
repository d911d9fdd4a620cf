use vstd::prelude::*;

use crate::errors::TwigError;
use crate::id::TaskId;
use crate::task::Task;

verus! {

/// `i` is the first position holding the identifier.
pub open spec fn is_first_id_match(s: Seq<Task>, id: TaskId, i: int) -> bool {
    &&& 0 <= i < s.len()
    &&& s[i].id == id
    &&& forall|j: int| 0 <= j < i ==> (#[trigger] s[j]).id != id
}

/// Some task carries the identifier.
pub open spec fn has_id(s: Seq<Task>, id: TaskId) -> bool {
    exists|i: int| 0 <= i < s.len() && (#[trigger] s[i]).id == id
}

/// `i` is the first position whose task renders the given short form.
pub open spec fn is_first_short_match(s: Seq<Task>, short: Seq<char>, i: int) -> bool {
    &&& 0 <= i < s.len()
    &&& s[i].id.short_spec() == short
    &&& forall|j: int| 0 <= j < i ==> (#[trigger] s[j]).id.short_spec() != short
}

/// Some task renders the given short form.
pub open spec fn has_short(s: Seq<Task>, short: Seq<char>) -> bool {
    exists|i: int| 0 <= i < s.len() && (#[trigger] s[i]).id.short_spec() == short
}

/// The tasks without a parent, in store order.
pub open spec fn roots_of(s: Seq<Task>) -> Seq<Task> {
    s.filter(|t: Task| t.parent_id is None)
}

/// The tasks naming `pid` as parent, in store order.
pub open spec fn children_of(s: Seq<Task>, pid: TaskId) -> Seq<Task> {
    s.filter(|t: Task| t.parent_id == Some(pid))
}

/// The first task carrying the identifier, if any.
pub open spec fn find_first(s: Seq<Task>, id: TaskId) -> Option<Task>
    decreases s.len(),
{
    if s.len() == 0 {
        None
    } else if s[0].id == id {
        Some(s[0])
    } else {
        find_first(s.drop_first(), id)
    }
}

/// `find_first` returns exactly the first match.
pub proof fn lemma_find_first(s: Seq<Task>, id: TaskId)
    ensures
        match find_first(s, id) {
            Some(t) => exists|i: int| #[trigger] is_first_id_match(s, id, i) && t == s[i],
            None => !has_id(s, id),
        },
    decreases s.len(),
{
    if s.len() == 0 {
    } else if s[0].id == id {
        assert(is_first_id_match(s, id, 0));
    } else {
        let d = s.drop_first();
        lemma_find_first(d, id);
        match find_first(s, id) {
            Some(t) => {
                let i = choose|i: int| #[trigger] is_first_id_match(d, id, i) && t == d[i];
                assert(s[i + 1] == d[i]);
                assert forall|j: int| 0 <= j < i + 1 implies (#[trigger] s[j]).id != id by {
                    if j > 0 {
                        assert(d[j - 1] == s[j]);
                    }
                }
                assert(is_first_id_match(s, id, i + 1));
            },
            None => {
                assert forall|i: int| 0 <= i < s.len() implies (#[trigger] s[i]).id != id by {
                    if i > 0 {
                        assert(d[i - 1] == s[i]);
                    }
                }
            },
        }
    }
}

/// The ancestor chain of a task, root first, ending with the task's own
/// identifier. A dangling parent reference is included and stops the
/// walk; the fuel bounds the walk so that a parent cycle, which the store
/// does not rule out, truncates instead of running forever.
pub open spec fn chain_spec(s: Seq<Task>, t: Task, fuel: nat) -> Seq<TaskId>
    decreases fuel,
{
    match t.parent_id {
        None => seq![t.id],
        Some(pid) => {
            if fuel == 0 {
                seq![pid, t.id]
            } else {
                match find_first(s, pid) {
                    Some(p) => chain_spec(s, p, (fuel - 1) as nat).push(t.id),
                    None => seq![pid, t.id],
                }
            }
        },
    }
}

/// A chain holds at least the task's own identifier and at most one
/// identifier per unit of fuel, plus the two ends.
pub proof fn lemma_chain_len(s: Seq<Task>, t: Task, fuel: nat)
    ensures
        1 <= chain_spec(s, t, fuel).len() <= fuel + 2,
    decreases fuel,
{
    match t.parent_id {
        None => {},
        Some(pid) => {
            if fuel > 0 {
                match find_first(s, pid) {
                    Some(p) => {
                        lemma_chain_len(s, p, (fuel - 1) as nat);
                    },
                    None => {},
                }
            }
        },
    }
}

/// The in-memory task collection for one owner, with the path its
/// persisted copy lives at.
pub struct Storage {
    pub tasks: Vec<Task>,
    pub file_path: String,
}

impl Storage {
    /// An empty store bound to a persistence path.
    pub fn new(file_path: String) -> (r: Storage)
        ensures
            r.tasks@ == Seq::<Task>::empty(),
            r.file_path == file_path,
    {
        Storage { tasks: Vec::new(), file_path }
    }

    /// Replaces the whole collection, as a reload from persistence does.
    pub fn set_tasks(&mut self, tasks: Vec<Task>)
        ensures
            final(self).tasks == tasks,
            final(self).file_path == old(self).file_path,
    {
        self.tasks = tasks;
    }

    pub fn get_all_tasks(&self) -> (r: &Vec<Task>)
        ensures
            *r == self.tasks,
    {
        &self.tasks
    }

    pub fn get_all_tasks_mut(&mut self) -> (r: &mut Vec<Task>)
        ensures
            *r == old(self).tasks,
            final(self).tasks == *final(r),
            final(self).file_path == old(self).file_path,
    {
        &mut self.tasks
    }

    /// Appends a task to the collection.
    pub fn add_task(&mut self, task: Task)
        ensures
            final(self).tasks@ == old(self).tasks@.push(task),
            final(self).file_path == old(self).file_path,
    {
        self.tasks.push(task);
    }

    /// The position of the first task carrying the identifier.
    pub fn get_task_index(&self, id: TaskId) -> (r: Option<usize>)
        ensures
            match r {
                Some(i) => is_first_id_match(self.tasks@, id, i as int),
                None => !has_id(self.tasks@, id),
            },
    {
        let n = self.tasks.len();
        let mut i: usize = 0;
        while i < n
            invariant
                n == self.tasks@.len(),
                0 <= i <= n,
                forall|j: int| 0 <= j < i ==> (#[trigger] self.tasks@[j]).id != id,
            decreases n - i,
        {
            if self.tasks[i].id == id {
                return Some(i);
            }
            i += 1;
        }
        None
    }

    /// The first task carrying the identifier, if any.
    pub fn get_task(&self, id: TaskId) -> (r: Option<&Task>)
        ensures
            match r {
                Some(t) => exists|i: int| #[trigger] is_first_id_match(self.tasks@, id, i) && *t
                    == self.tasks@[i],
                None => !has_id(self.tasks@, id),
            },
            r is Some <==> has_id(self.tasks@, id),
            r is Some <==> find_first(self.tasks@, id) is Some,
            r is Some ==> *r->0 == find_first(self.tasks@, id)->0,
    {
        proof {
            lemma_find_first(self.tasks@, id);
        }
        match self.get_task_index(id) {
            Some(i) => {
                let t = &self.tasks[i];
                proof {
                    let w = choose|w: int|
                        #[trigger] is_first_id_match(self.tasks@, id, w) && find_first(
                            self.tasks@,
                            id,
                        )->0 == self.tasks@[w];
                    assert(w == i as int);
                }
                Some(t)
            },
            None => None,
        }
    }

    /// Mutable access to the task at a known position.
    pub fn task_at_mut(&mut self, i: usize) -> (r: &mut Task)
        requires
            i < old(self).tasks@.len(),
        ensures
            *r == old(self).tasks@[i as int],
            final(self).tasks@ == old(self).tasks@.update(i as int, *final(r)),
            final(self).file_path == old(self).file_path,
    {
        &mut self.tasks[i]
    }

    /// Replaces the stored task that carries `task.id` with `task`.
    pub fn update_task(&mut self, task: Task) -> (r: Result<(), TwigError>)
        ensures
            r is Ok <==> has_id(old(self).tasks@, task.id),
            r is Ok ==> exists|i: int|
                #[trigger] is_first_id_match(old(self).tasks@, task.id, i) && final(self).tasks@
                    == old(self).tasks@.update(i, task),
            r is Err ==> *final(self) == *old(self) && r->Err_0 == TwigError::NotFound,
            final(self).file_path == old(self).file_path,
    {
        match self.get_task_index(task.id) {
            Some(i) => {
                let slot = self.task_at_mut(i);
                *slot = task;
                Ok(())
            },
            None => Err(TwigError::NotFound),
        }
    }

    /// Removes the first task carrying the identifier. Children are not
    /// touched: deletion orphans them by design.
    pub fn delete_task(&mut self, id: TaskId) -> (r: Result<(), TwigError>)
        ensures
            r is Ok <==> has_id(old(self).tasks@, id),
            r is Ok ==> exists|i: int|
                #[trigger] is_first_id_match(old(self).tasks@, id, i) && final(self).tasks@ == old(
                    self,
                ).tasks@.remove(i),
            r is Err ==> *final(self) == *old(self) && r->Err_0 == TwigError::NotFound,
            final(self).file_path == old(self).file_path,
    {
        match self.get_task_index(id) {
            Some(i) => {
                self.tasks.remove(i);
                Ok(())
            },
            None => Err(TwigError::NotFound),
        }
    }

    /// The first task whose short identifier reads `short_id`, if any.
    pub fn find_task_by_short_id(&self, short_id: &str) -> (r: Option<&Task>)
        ensures
            match r {
                Some(t) => exists|i: int|
                    #[trigger] is_first_short_match(self.tasks@, short_id@, i) && *t
                        == self.tasks@[i],
                None => !has_short(self.tasks@, short_id@),
            },
            r is Some <==> has_short(self.tasks@, short_id@),
    {
        let n = self.tasks.len();
        let mut i: usize = 0;
        while i < n
            invariant
                n == self.tasks@.len(),
                0 <= i <= n,
                forall|j: int| 0 <= j < i ==> (#[trigger] self.tasks@[j]).id.short_spec()
                    != short_id@,
            decreases n - i,
        {
            let hex = self.tasks[i].short_id();
            if crate::strutil::str_eq(hex.as_str(), short_id) {
                proof {
                    assert(is_first_short_match(self.tasks@, short_id@, i as int));
                }
                return Some(&self.tasks[i]);
            }
            i += 1;
        }
        None
    }

    /// The tasks with no parent, in store order.
    pub fn get_root_tasks(&self) -> (r: Vec<&Task>)
        ensures
            r@.len() == roots_of(self.tasks@).len(),
            forall|k: int| 0 <= k < r@.len() ==> *(#[trigger] r@[k]) == roots_of(self.tasks@)[k],
    {
        proof {
            reveal(Seq::filter);
        }
        let ghost s = self.tasks@;
        let n = self.tasks.len();
        let mut out: Vec<&Task> = Vec::new();
        let mut i: usize = 0;
        while i < n
            invariant
                n == s.len(),
                s == self.tasks@,
                0 <= i <= n,
                out@.len() == roots_of(s.take(i as int)).len(),
                forall|k: int| 0 <= k < out@.len() ==> *(#[trigger] out@[k]) == roots_of(
                    s.take(i as int),
                )[k],
            decreases n - i,
        {
            proof {
                reveal(Seq::filter);
                assert(s.take(i + 1).drop_last() =~= s.take(i as int));
                assert(s.take(i + 1).last() == s[i as int]);
            }
            if self.tasks[i].parent_id.is_none() {
                out.push(&self.tasks[i]);
            }
            i += 1;
        }
        proof {
            assert(s.take(n as int) =~= s);
        }
        out
    }

    /// The tasks whose parent is `parent_id`, in store order.
    pub fn get_children(&self, parent_id: TaskId) -> (r: Vec<&Task>)
        ensures
            r@.len() == children_of(self.tasks@, parent_id).len(),
            forall|k: int| 0 <= k < r@.len() ==> *(#[trigger] r@[k]) == children_of(
                self.tasks@,
                parent_id,
            )[k],
    {
        proof {
            reveal(Seq::filter);
        }
        let ghost s = self.tasks@;
        let n = self.tasks.len();
        let mut out: Vec<&Task> = Vec::new();
        let mut i: usize = 0;
        while i < n
            invariant
                n == s.len(),
                s == self.tasks@,
                0 <= i <= n,
                out@.len() == children_of(s.take(i as int), parent_id).len(),
                forall|k: int| 0 <= k < out@.len() ==> *(#[trigger] out@[k]) == children_of(
                    s.take(i as int),
                    parent_id,
                )[k],
            decreases n - i,
        {
            proof {
                reveal(Seq::filter);
                assert(s.take(i + 1).drop_last() =~= s.take(i as int));
                assert(s.take(i + 1).last() == s[i as int]);
            }
            let is_child = match &self.tasks[i].parent_id {
                Some(p) => *p == parent_id,
                None => false,
            };
            if is_child {
                out.push(&self.tasks[i]);
            }
            i += 1;
        }
        proof {
            assert(s.take(n as int) =~= s);
        }
        out
    }

    /// Whether any task names `id` as its parent.
    pub fn has_children(&self, id: TaskId) -> (r: bool)
        ensures
            r == (children_of(self.tasks@, id).len() > 0),
    {
        let n = self.tasks.len();
        let mut i: usize = 0;
        while i < n
            invariant
                n == self.tasks@.len(),
                0 <= i <= n,
                forall|j: int| 0 <= j < i ==> (#[trigger] self.tasks@[j]).parent_id != Some(id),
            decreases n - i,
        {
            let is_child = match &self.tasks[i].parent_id {
                Some(p) => *p == id,
                None => false,
            };
            if is_child {
                proof {
                    self.tasks@.lemma_filter_contains(|t: Task| t.parent_id == Some(id), i as int);
                }
                return true;
            }
            i += 1;
        }
        proof {
            lemma_filter_empty(self.tasks@, |t: Task| t.parent_id == Some(id));
        }
        false
    }

    fn chain_rec(&self, t: &Task, fuel: usize) -> (r: Vec<TaskId>)
        ensures
            r@ == chain_spec(self.tasks@, *t, fuel as nat),
        decreases fuel,
    {
        let mut out: Vec<TaskId> = Vec::new();
        match &t.parent_id {
            None => {
                out.push(t.id);
                proof {
                    assert(out@ =~= chain_spec(self.tasks@, *t, fuel as nat));
                }
            },
            Some(pid) => {
                let pid = *pid;
                if fuel == 0 {
                    out.push(pid);
                    out.push(t.id);
                    proof {
                        assert(out@ =~= chain_spec(self.tasks@, *t, fuel as nat));
                    }
                } else {
                    match self.get_task(pid) {
                        Some(p) => {
                            out = self.chain_rec(p, fuel - 1);
                            out.push(t.id);
                        },
                        None => {
                            out.push(pid);
                            out.push(t.id);
                            proof {
                                assert(out@ =~= chain_spec(self.tasks@, *t, fuel as nat));
                            }
                        },
                    }
                }
            },
        }
        out
    }

    /// The ancestor chain of `task`, root first and ending with `task`'s
    /// own identifier; a dangling parent reference is included and stops
    /// the walk without error.
    pub fn get_task_hierarchy(&self, task: &Task) -> (r: Vec<TaskId>)
        ensures
            r@ == chain_spec(self.tasks@, *task, self.tasks@.len() as nat),
            r@.len() >= 1,
    {
        proof {
            lemma_chain_len(self.tasks@, *task, self.tasks@.len() as nat);
        }
        self.chain_rec(task, self.tasks.len())
    }

    /// The depth of `task` below its root: the number of parent links the
    /// ancestor walk crosses.
    pub fn task_depth(&self, task: &Task) -> (r: usize)
        ensures
            r == chain_spec(self.tasks@, *task, self.tasks@.len() as nat).len() - 1,
    {
        let chain = self.get_task_hierarchy(task);
        chain.len() - 1
    }
}

/// A sequence none of whose elements passes the predicate filters to
/// nothing.
proof fn lemma_filter_empty<A>(s: Seq<A>, pred: spec_fn(A) -> bool)
    requires
        forall|i: int| 0 <= i < s.len() ==> !pred(#[trigger] s[i]),
    ensures
        s.filter(pred).len() == 0,
    decreases s.len(),
{
    reveal(Seq::filter);
    if s.len() > 0 {
        let d = s.drop_last();
        assert(forall|i: int| 0 <= i < d.len() ==> !pred(#[trigger] d[i]));
        lemma_filter_empty(d, pred);
        assert(!pred(s.last()));
    }
}

/// Deleting a task leaves every other record untouched: a child of the
/// deleted task keeps its `parent_id` (it is orphaned), remains
/// retrievable by direct lookup, and, carrying a parent, is never among
/// the roots.
pub proof fn lemma_delete_orphans_children(pre: Seq<Task>, id: TaskId, i: int, c: int)
    requires
        is_first_id_match(pre, id, i),
        0 <= c < pre.len(),
        c != i,
    ensures
        ({
            let post = pre.remove(i);
            let c2 = if c < i {
                c
            } else {
                c - 1
            };
            &&& 0 <= c2 < post.len()
            &&& post[c2] == pre[c]
            &&& has_id(post, pre[c].id)
            &&& (pre[c].parent_id is Some ==> !roots_of(post).contains(post[c2]))
        }),
{
    let post = pre.remove(i);
    let c2: int = if c < i {
        c
    } else {
        c - 1
    };
    assert(post[c2] == pre[c]);
    assert(has_id(post, pre[c].id));
    if pre[c].parent_id is Some {
        if roots_of(post).contains(post[c2]) {
            let k = choose|k: int| 0 <= k < roots_of(post).len() && roots_of(post)[k] == post[c2];
            post.lemma_filter_pred(|t: Task| t.parent_id is None, k);
        }
    }
}

} // verus!
