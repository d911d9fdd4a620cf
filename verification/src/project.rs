use vstd::prelude::*;

use crate::clock;
use crate::id::TaskId;
use crate::store::{children_of, has_id, is_first_id_match, roots_of, Storage};
use crate::task::{Task, TaskStatus};

verus! {

/// Whether a finishing timestamp falls inside today's local bounds.
pub open spec fn finished_today(at: Option<i64>, today_start: i64, today_end: i64) -> bool {
    match at {
        Some(ts) => today_start <= ts < today_end,
        None => false,
    }
}

/// The visibility rule: a completed task is shown if it was completed
/// today or the completed toggle is on; likewise for cancelled tasks and
/// their toggle; and the optional tag and assignee filters must match.
pub open spec fn task_visible(
    t: Task,
    show_completed: bool,
    show_cancelled: bool,
    tag: Option<Seq<char>>,
    assignee: Option<Seq<char>>,
    today_start: i64,
    today_end: i64,
) -> bool {
    &&& (t.status == TaskStatus::Completed ==> finished_today(t.completed_at, today_start, today_end)
        || show_completed)
    &&& (t.status == TaskStatus::Cancelled ==> finished_today(t.cancelled_at, today_start, today_end)
        || show_cancelled)
    &&& match tag {
        Some(tg) => t.has_tag_spec(tg),
        None => true,
    }
    &&& match assignee {
        Some(a) => match t.assigned_to {
            Some(x) => x@ == a,
            None => false,
        },
        None => true,
    }
}

/// The flat projection of one task: its identifier, then, if it is in
/// the expand set and fuel remains, the projections of its visible
/// children in store order.
pub open spec fn project_node_spec(
    s: Seq<Task>,
    t: Task,
    show_completed: bool,
    show_cancelled: bool,
    tag: Option<Seq<char>>,
    assignee: Option<Seq<char>>,
    today_start: i64,
    today_end: i64,
    expanded: Seq<TaskId>,
    fuel: nat,
) -> Seq<TaskId>
    decreases fuel, 0int, 0int,
{
    seq![t.id] + if expanded.contains(t.id) && fuel > 0 {
        project_list_spec(
            s,
            children_of(s, t.id),
            show_completed,
            show_cancelled,
            tag,
            assignee,
            today_start,
            today_end,
            expanded,
            (fuel - 1) as nat,
            0,
        )
    } else {
        Seq::empty()
    }
}

/// The concatenated projections of the visible tasks of `list` from
/// position `i` on; an invisible task contributes nothing, subtree
/// included.
pub open spec fn project_list_spec(
    s: Seq<Task>,
    list: Seq<Task>,
    show_completed: bool,
    show_cancelled: bool,
    tag: Option<Seq<char>>,
    assignee: Option<Seq<char>>,
    today_start: i64,
    today_end: i64,
    expanded: Seq<TaskId>,
    fuel: nat,
    i: int,
) -> Seq<TaskId>
    decreases fuel, 1int, list.len() - i,
{
    if i < 0 || i >= list.len() {
        Seq::empty()
    } else {
        (if task_visible(list[i], show_completed, show_cancelled, tag, assignee, today_start, today_end) {
            project_node_spec(
                s,
                list[i],
                show_completed,
                show_cancelled,
                tag,
                assignee,
                today_start,
                today_end,
                expanded,
                fuel,
            )
        } else {
            Seq::empty()
        }) + project_list_spec(
            s,
            list,
            show_completed,
            show_cancelled,
            tag,
            assignee,
            today_start,
            today_end,
            expanded,
            fuel,
            i + 1,
        )
    }
}

/// The whole projection: the visible roots in store order, each expanded
/// as `project_node_spec` says.
pub open spec fn project_spec(
    s: Seq<Task>,
    show_completed: bool,
    show_cancelled: bool,
    tag: Option<Seq<char>>,
    assignee: Option<Seq<char>>,
    today_start: i64,
    today_end: i64,
    expanded: Seq<TaskId>,
) -> Seq<TaskId> {
    project_list_spec(
        s,
        roots_of(s),
        show_completed,
        show_cancelled,
        tag,
        assignee,
        today_start,
        today_end,
        expanded,
        s.len() as nat,
        0,
    )
}

/// A task outside the expand set contributes exactly its own identifier
/// to the projection: its children stay hidden.
pub proof fn lemma_collapsed_node(
    s: Seq<Task>,
    t: Task,
    show_completed: bool,
    show_cancelled: bool,
    tag: Option<Seq<char>>,
    assignee: Option<Seq<char>>,
    today_start: i64,
    today_end: i64,
    expanded: Seq<TaskId>,
    fuel: nat,
)
    requires
        !expanded.contains(t.id),
    ensures
        project_node_spec(
            s,
            t,
            show_completed,
            show_cancelled,
            tag,
            assignee,
            today_start,
            today_end,
            expanded,
            fuel,
        ) == seq![t.id],
{
    assert(project_node_spec(
        s,
        t,
        show_completed,
        show_cancelled,
        tag,
        assignee,
        today_start,
        today_end,
        expanded,
        fuel,
    ) =~= seq![t.id]);
}

/// The daily-standup exception, for a completed task under no tag
/// filter: completed on a prior day it is hidden exactly when the
/// completed toggle is off; completed today it is shown either way.
pub proof fn lemma_today_exception(
    t: Task,
    show_cancelled: bool,
    today_start: i64,
    today_end: i64,
)
    requires
        t.status == TaskStatus::Completed,
    ensures
        !finished_today(t.completed_at, today_start, today_end) ==> !task_visible(
            t,
            false,
            show_cancelled,
            None,
            None,
            today_start,
            today_end,
        ),
        task_visible(t, true, show_cancelled, None, None, today_start, today_end),
        finished_today(t.completed_at, today_start, today_end) ==> task_visible(
            t,
            false,
            show_cancelled,
            None,
            None,
            today_start,
            today_end,
        ),
{
}

/// Whether the task belongs to a history window: it was completed or
/// cancelled inside `[window_start, window_end)`.
pub open spec fn in_history_window(t: Task, window_start: i64, window_end: i64) -> bool {
    finished_today(t.completed_at, window_start, window_end) || finished_today(
        t.cancelled_at,
        window_start,
        window_end,
    )
}

/// Decides membership in a history window given its timestamp bounds.
pub fn task_in_history_range(t: &Task, window_start: i64, window_end: i64) -> (r: bool)
    ensures
        r == in_history_window(*t, window_start, window_end),
{
    let completed = match t.completed_at {
        Some(ts) => window_start <= ts && ts < window_end,
        None => false,
    };
    let cancelled = match t.cancelled_at {
        Some(ts) => window_start <= ts && ts < window_end,
        None => false,
    };
    completed || cancelled
}

/// The state the interactive view keeps for one store: the toggles, the
/// tag filter, the expand set, the selection, and the projection that was
/// last rebuilt from them.
pub struct ViewState {
    pub selected_index: usize,
    pub show_completed: bool,
    pub show_cancelled: bool,
    pub filter_tag: Option<String>,
    pub filter_assignee: Option<String>,
    pub expanded_tasks: Vec<TaskId>,
    pub visible: Vec<TaskId>,
}

impl ViewState {
    /// The tag filter as a character sequence.
    pub open spec fn tag_view(self) -> Option<Seq<char>> {
        match self.filter_tag {
            Some(tg) => Some(tg@),
            None => None,
        }
    }

    /// The assignee filter as a character sequence.
    pub open spec fn assignee_view(self) -> Option<Seq<char>> {
        match self.filter_assignee {
            Some(a) => Some(a@),
            None => None,
        }
    }

    /// The projection this state asks for over the given store at the
    /// given bounds of today.
    pub open spec fn projection(
        self,
        s: Seq<Task>,
        today_start: i64,
        today_end: i64,
    ) -> Seq<TaskId> {
        project_spec(
            s,
            self.show_completed,
            self.show_cancelled,
            self.tag_view(),
            self.assignee_view(),
            today_start,
            today_end,
            self.expanded_tasks@,
        )
    }

    /// A fresh view: completed tasks shown, cancelled ones hidden, no
    /// filter, nothing expanded, nothing visible yet.
    pub fn new() -> (r: ViewState)
        ensures
            r.selected_index == 0,
            r.show_completed == true,
            r.show_cancelled == false,
            r.filter_tag is None,
            r.filter_assignee is None,
            r.expanded_tasks@ == Seq::<TaskId>::empty(),
            r.visible@ == Seq::<TaskId>::empty(),
    {
        ViewState {
            selected_index: 0,
            show_completed: true,
            show_cancelled: false,
            filter_tag: None,
            filter_assignee: None,
            expanded_tasks: Vec::new(),
            visible: Vec::new(),
        }
    }

    /// Whether the filters let a task be shown, at the given bounds of
    /// today.
    pub fn should_show_task(&self, t: &Task, today_start: i64, today_end: i64) -> (r: bool)
        ensures
            r == task_visible(
                *t,
                self.show_completed,
                self.show_cancelled,
                self.tag_view(),
                self.assignee_view(),
                today_start,
                today_end,
            ),
    {
        if matches!(t.status, TaskStatus::Completed) {
            let today = match t.completed_at {
                Some(ts) => today_start <= ts && ts < today_end,
                None => false,
            };
            if !today && !self.show_completed {
                return false;
            }
        }
        if matches!(t.status, TaskStatus::Cancelled) {
            let today = match t.cancelled_at {
                Some(ts) => today_start <= ts && ts < today_end,
                None => false,
            };
            if !today && !self.show_cancelled {
                return false;
            }
        }
        let tag_ok = match &self.filter_tag {
            Some(tg) => t.has_tag(tg.as_str()),
            None => true,
        };
        let assignee_ok = match &self.filter_assignee {
            Some(a) => match &t.assigned_to {
                Some(x) => crate::strutil::str_eq(x.as_str(), a.as_str()),
                None => false,
            },
            None => true,
        };
        tag_ok && assignee_ok
    }

    fn project_node_into(
        &self,
        storage: &Storage,
        t: &Task,
        today_start: i64,
        today_end: i64,
        out: &mut Vec<TaskId>,
        fuel: usize,
    )
        ensures
            final(out)@ == old(out)@ + project_node_spec(
                storage.tasks@,
                *t,
                self.show_completed,
                self.show_cancelled,
                self.tag_view(),
                self.assignee_view(),
                today_start,
                today_end,
                self.expanded_tasks@,
                fuel as nat,
            ),
        decreases fuel,
    {
        let ghost s = storage.tasks@;
        let ghost full = project_node_spec(
            s,
            *t,
            self.show_completed,
            self.show_cancelled,
            self.tag_view(),
            self.assignee_view(),
            today_start,
            today_end,
            self.expanded_tasks@,
            fuel as nat,
        );
        out.push(t.id);
        if fuel > 0 && self.is_expanded(t.id) {
            let kids = storage.get_children(t.id);
            let ghost ks = children_of(s, t.id);
            let ghost mut done: Seq<TaskId> = Seq::empty();
            let n = kids.len();
            let mut i: usize = 0;
            while i < n
                invariant
                    n == kids@.len(),
                    n == ks.len(),
                    ks == children_of(storage.tasks@, t.id),
                    s == storage.tasks@,
                    forall|k: int| 0 <= k < n ==> *(#[trigger] kids@[k]) == ks[k],
                    fuel >= 1,
                    0 <= i <= n,
                    out@ == old(out)@ + seq![t.id] + done,
                    done + project_list_spec(
                        s,
                        ks,
                        self.show_completed,
                        self.show_cancelled,
                        self.tag_view(),
                        self.assignee_view(),
                        today_start,
                        today_end,
                        self.expanded_tasks@,
                        (fuel - 1) as nat,
                        i as int,
                    ) == project_list_spec(
                        s,
                        ks,
                        self.show_completed,
                        self.show_cancelled,
                        self.tag_view(),
                        self.assignee_view(),
                        today_start,
                        today_end,
                        self.expanded_tasks@,
                        (fuel - 1) as nat,
                        0,
                    ),
                decreases n - i,
            {
                let ghost cur = if task_visible(
                    ks[i as int],
                    self.show_completed,
                    self.show_cancelled,
                    self.tag_view(),
                    self.assignee_view(),
                    today_start,
                    today_end,
                ) {
                    project_node_spec(
                        s,
                        ks[i as int],
                        self.show_completed,
                        self.show_cancelled,
                        self.tag_view(),
                        self.assignee_view(),
                        today_start,
                        today_end,
                        self.expanded_tasks@,
                        (fuel - 1) as nat,
                    )
                } else {
                    Seq::<TaskId>::empty()
                };
                if self.should_show_task(kids[i], today_start, today_end) {
                    self.project_node_into(storage, kids[i], today_start, today_end, out, fuel - 1);
                }
                proof {
                    assert((done + cur) + project_list_spec(
                        s,
                        ks,
                        self.show_completed,
                        self.show_cancelled,
                        self.tag_view(),
                        self.assignee_view(),
                        today_start,
                        today_end,
                        self.expanded_tasks@,
                        (fuel - 1) as nat,
                        i + 1,
                    ) =~= done + (cur + project_list_spec(
                        s,
                        ks,
                        self.show_completed,
                        self.show_cancelled,
                        self.tag_view(),
                        self.assignee_view(),
                        today_start,
                        today_end,
                        self.expanded_tasks@,
                        (fuel - 1) as nat,
                        i + 1,
                    )));
                    assert(out@ =~= old(out)@ + seq![t.id] + (done + cur));
                    done = done + cur;
                }
                i += 1;
            }
            proof {
                assert(done =~= done + project_list_spec(
                    s,
                    ks,
                    self.show_completed,
                    self.show_cancelled,
                    self.tag_view(),
                    self.assignee_view(),
                    today_start,
                    today_end,
                    self.expanded_tasks@,
                    (fuel - 1) as nat,
                    n as int,
                ));
                assert(full == seq![t.id] + done);
                assert(final(out)@ =~= old(out)@ + full);
            }
        } else {
            proof {
                assert(full =~= seq![t.id]);
                assert(final(out)@ =~= old(out)@ + full);
            }
        }
    }

    /// Rebuilds the projection from the store at the given bounds of
    /// today. Everything else, the selection included, stays as it is.
    pub fn rebuild_at(&mut self, storage: &Storage, today_start: i64, today_end: i64)
        ensures
            final(self).visible@ == old(self).projection(storage.tasks@, today_start, today_end),
            final(self).selected_index == old(self).selected_index,
            final(self).show_completed == old(self).show_completed,
            final(self).show_cancelled == old(self).show_cancelled,
            final(self).filter_tag == old(self).filter_tag,
            final(self).filter_assignee == old(self).filter_assignee,
            final(self).expanded_tasks == old(self).expanded_tasks,
    {
        let ghost s = storage.tasks@;
        let roots = storage.get_root_tasks();
        let ghost rs = roots_of(s);
        let fuel = storage.tasks.len();
        let mut out: Vec<TaskId> = Vec::new();
        let ghost mut done: Seq<TaskId> = Seq::empty();
        let n = roots.len();
        let mut i: usize = 0;
        while i < n
            invariant
                n == roots@.len(),
                n == rs.len(),
                rs == roots_of(storage.tasks@),
                s == storage.tasks@,
                fuel == storage.tasks@.len(),
                forall|k: int| 0 <= k < n ==> *(#[trigger] roots@[k]) == rs[k],
                *self == *old(self),
                0 <= i <= n,
                out@ == done,
                done + project_list_spec(
                    s,
                    rs,
                    self.show_completed,
                    self.show_cancelled,
                    self.tag_view(),
                    self.assignee_view(),
                    today_start,
                    today_end,
                    self.expanded_tasks@,
                    fuel as nat,
                    i as int,
                ) == project_list_spec(
                    s,
                    rs,
                    self.show_completed,
                    self.show_cancelled,
                    self.tag_view(),
                    self.assignee_view(),
                    today_start,
                    today_end,
                    self.expanded_tasks@,
                    fuel as nat,
                    0,
                ),
            decreases n - i,
        {
            let ghost cur = if task_visible(
                rs[i as int],
                self.show_completed,
                self.show_cancelled,
                self.tag_view(),
                self.assignee_view(),
                today_start,
                today_end,
            ) {
                project_node_spec(
                    s,
                    rs[i as int],
                    self.show_completed,
                    self.show_cancelled,
                    self.tag_view(),
                    self.assignee_view(),
                    today_start,
                    today_end,
                    self.expanded_tasks@,
                    fuel as nat,
                )
            } else {
                Seq::<TaskId>::empty()
            };
            if self.should_show_task(roots[i], today_start, today_end) {
                self.project_node_into(storage, roots[i], today_start, today_end, &mut out, fuel);
            }
            proof {
                assert((done + cur) + project_list_spec(
                    s,
                    rs,
                    self.show_completed,
                    self.show_cancelled,
                    self.tag_view(),
                    self.assignee_view(),
                    today_start,
                    today_end,
                    self.expanded_tasks@,
                    fuel as nat,
                    i + 1,
                ) =~= done + (cur + project_list_spec(
                    s,
                    rs,
                    self.show_completed,
                    self.show_cancelled,
                    self.tag_view(),
                    self.assignee_view(),
                    today_start,
                    today_end,
                    self.expanded_tasks@,
                    fuel as nat,
                    i + 1,
                )));
                assert(out@ =~= done + cur);
                done = done + cur;
            }
            i += 1;
        }
        proof {
            assert(done =~= done + project_list_spec(
                s,
                rs,
                self.show_completed,
                self.show_cancelled,
                self.tag_view(),
                self.assignee_view(),
                today_start,
                today_end,
                self.expanded_tasks@,
                fuel as nat,
                n as int,
            ));
        }
        self.visible = out;
    }

    /// `rebuild_at` at the machine's current local day bounds.
    pub fn rebuild_visible_task_list(&mut self, storage: &Storage)
        ensures
            exists|ts: i64, te: i64|
                final(self).visible@ == old(self).projection(storage.tasks@, ts, te),
            final(self).selected_index == old(self).selected_index,
            final(self).show_completed == old(self).show_completed,
            final(self).show_cancelled == old(self).show_cancelled,
            final(self).filter_tag == old(self).filter_tag,
            final(self).filter_assignee == old(self).filter_assignee,
            final(self).expanded_tasks == old(self).expanded_tasks,
    {
        let (ts, te) = clock::today_local_bounds();
        self.rebuild_at(storage, ts, te);
    }

    /// Whether a task's identifier is in the expand set.
    pub fn is_expanded(&self, id: TaskId) -> (r: bool)
        ensures
            r == self.expanded_tasks@.contains(id),
    {
        let n = self.expanded_tasks.len();
        let mut i: usize = 0;
        while i < n
            invariant
                n == self.expanded_tasks@.len(),
                0 <= i <= n,
                forall|j: int| 0 <= j < i ==> self.expanded_tasks@[j] != id,
            decreases n - i,
        {
            if self.expanded_tasks[i] == id {
                return true;
            }
            i += 1;
        }
        false
    }

    /// The identifier under the cursor, if the cursor is on the list.
    pub fn get_selected_item(&self) -> (r: Option<TaskId>)
        ensures
            r is Some <==> self.selected_index < self.visible@.len(),
            r is Some ==> r->0 == self.visible@[self.selected_index as int],
    {
        if self.selected_index < self.visible.len() {
            Some(self.visible[self.selected_index])
        } else {
            None
        }
    }

    /// The task under the cursor, looked up in the store.
    pub fn get_selected_task<'a>(&self, storage: &'a Storage) -> (r: Option<&'a Task>)
        ensures
            match r {
                Some(t) => self.selected_index < self.visible@.len() && exists|i: int|
                    #[trigger] is_first_id_match(
                        storage.tasks@,
                        self.visible@[self.selected_index as int],
                        i,
                    ) && *t == storage.tasks@[i],
                None => self.selected_index >= self.visible@.len() || !has_id(
                    storage.tasks@,
                    self.visible@[self.selected_index as int],
                ),
            },
    {
        match self.get_selected_item() {
            Some(id) => storage.get_task(id),
            None => None,
        }
    }

    /// Moves the cursor one step up, stopping at the top.
    pub fn move_selection_up(&mut self)
        ensures
            final(self).selected_index == (if old(self).selected_index > 0 {
                old(self).selected_index - 1
            } else {
                0int
            }),
            final(self).visible == old(self).visible,
            final(self).show_completed == old(self).show_completed,
            final(self).show_cancelled == old(self).show_cancelled,
            final(self).filter_tag == old(self).filter_tag,
            final(self).filter_assignee == old(self).filter_assignee,
            final(self).expanded_tasks == old(self).expanded_tasks,
    {
        if self.selected_index > 0 {
            self.selected_index = self.selected_index - 1;
        }
    }

    /// Moves the cursor one step down, stopping at the last entry.
    pub fn move_selection_down(&mut self)
        ensures
            final(self).selected_index == (if old(self).selected_index + 1 < old(
                self,
            ).visible@.len() {
                old(self).selected_index + 1
            } else {
                old(self).selected_index as int
            }),
            final(self).visible == old(self).visible,
            final(self).show_completed == old(self).show_completed,
            final(self).show_cancelled == old(self).show_cancelled,
            final(self).filter_tag == old(self).filter_tag,
            final(self).filter_assignee == old(self).filter_assignee,
            final(self).expanded_tasks == old(self).expanded_tasks,
    {
        let len = self.visible.len();
        if len > 0 && self.selected_index < len - 1 {
            self.selected_index = self.selected_index + 1;
        }
    }

    /// Flips the completed toggle and rebuilds at the given bounds.
    pub fn toggle_completed_at(&mut self, storage: &Storage, today_start: i64, today_end: i64)
        ensures
            final(self).show_completed == !old(self).show_completed,
            final(self).show_cancelled == old(self).show_cancelled,
            final(self).filter_tag == old(self).filter_tag,
            final(self).filter_assignee == old(self).filter_assignee,
            final(self).expanded_tasks == old(self).expanded_tasks,
            final(self).selected_index == old(self).selected_index,
            final(self).visible@ == final(self).projection(storage.tasks@, today_start, today_end),
    {
        self.show_completed = !self.show_completed;
        self.rebuild_at(storage, today_start, today_end);
    }

    /// Flips the cancelled toggle and rebuilds at the given bounds.
    pub fn toggle_cancelled_at(&mut self, storage: &Storage, today_start: i64, today_end: i64)
        ensures
            final(self).show_cancelled == !old(self).show_cancelled,
            final(self).show_completed == old(self).show_completed,
            final(self).filter_tag == old(self).filter_tag,
            final(self).filter_assignee == old(self).filter_assignee,
            final(self).expanded_tasks == old(self).expanded_tasks,
            final(self).selected_index == old(self).selected_index,
            final(self).visible@ == final(self).projection(storage.tasks@, today_start, today_end),
    {
        self.show_cancelled = !self.show_cancelled;
        self.rebuild_at(storage, today_start, today_end);
    }

    /// `toggle_completed_at` at the machine's current local day bounds.
    pub fn toggle_completed(&mut self, storage: &Storage)
        ensures
            final(self).show_completed == !old(self).show_completed,
            final(self).show_cancelled == old(self).show_cancelled,
            final(self).filter_tag == old(self).filter_tag,
            final(self).filter_assignee == old(self).filter_assignee,
            final(self).expanded_tasks == old(self).expanded_tasks,
            final(self).selected_index == old(self).selected_index,
            exists|ts: i64, te: i64|
                final(self).visible@ == final(self).projection(storage.tasks@, ts, te),
    {
        let (ts, te) = clock::today_local_bounds();
        self.toggle_completed_at(storage, ts, te);
    }

    /// `toggle_cancelled_at` at the machine's current local day bounds.
    pub fn toggle_cancelled(&mut self, storage: &Storage)
        ensures
            final(self).show_cancelled == !old(self).show_cancelled,
            final(self).show_completed == old(self).show_completed,
            final(self).filter_tag == old(self).filter_tag,
            final(self).filter_assignee == old(self).filter_assignee,
            final(self).expanded_tasks == old(self).expanded_tasks,
            final(self).selected_index == old(self).selected_index,
            exists|ts: i64, te: i64|
                final(self).visible@ == final(self).projection(storage.tasks@, ts, te),
    {
        let (ts, te) = clock::today_local_bounds();
        self.toggle_cancelled_at(storage, ts, te);
    }

    /// Toggles the expand mark of the task under the cursor, provided it
    /// has children, and rebuilds at the given bounds.
    pub fn toggle_expand_at(&mut self, storage: &Storage, today_start: i64, today_end: i64)
        ensures
            final(self).show_completed == old(self).show_completed,
            final(self).show_cancelled == old(self).show_cancelled,
            final(self).filter_tag == old(self).filter_tag,
            final(self).filter_assignee == old(self).filter_assignee,
            final(self).selected_index == old(self).selected_index,
            ({
                let sel = old(self).selected_index as int;
                if sel < old(self).visible@.len() && children_of(
                    storage.tasks@,
                    old(self).visible@[sel],
                ).len() > 0 {
                    let id = old(self).visible@[sel];
                    &&& (old(self).expanded_tasks@.contains(id) ==> final(self).expanded_tasks@
                        == remove_first(old(self).expanded_tasks@, id))
                    &&& (!old(self).expanded_tasks@.contains(id) ==> final(self).expanded_tasks@
                        == old(self).expanded_tasks@.push(id))
                    &&& final(self).visible@ == final(self).projection(
                        storage.tasks@,
                        today_start,
                        today_end,
                    )
                } else {
                    *final(self) == *old(self)
                }
            }),
    {
        match self.get_selected_item() {
            Some(id) => {
                if !storage.has_children(id) {
                    return ;
                }
                match self.find_expanded(id) {
                    Some(pos) => {
                        self.expanded_tasks.remove(pos);
                    },
                    None => {
                        self.expanded_tasks.push(id);
                    },
                }
                self.rebuild_at(storage, today_start, today_end);
            },
            None => {},
        }
    }

    /// `toggle_expand_at` at the machine's current local day bounds.
    pub fn toggle_expand(&mut self, storage: &Storage)
        ensures
            final(self).show_completed == old(self).show_completed,
            final(self).show_cancelled == old(self).show_cancelled,
            final(self).filter_tag == old(self).filter_tag,
            final(self).filter_assignee == old(self).filter_assignee,
            final(self).selected_index == old(self).selected_index,
            ({
                let sel = old(self).selected_index as int;
                if sel < old(self).visible@.len() && children_of(
                    storage.tasks@,
                    old(self).visible@[sel],
                ).len() > 0 {
                    let id = old(self).visible@[sel];
                    &&& (old(self).expanded_tasks@.contains(id) ==> final(self).expanded_tasks@
                        == remove_first(old(self).expanded_tasks@, id))
                    &&& (!old(self).expanded_tasks@.contains(id) ==> final(self).expanded_tasks@
                        == old(self).expanded_tasks@.push(id))
                    &&& exists|ts: i64, te: i64|
                        final(self).visible@ == final(self).projection(storage.tasks@, ts, te)
                } else {
                    *final(self) == *old(self)
                }
            }),
    {
        let (ts, te) = clock::today_local_bounds();
        self.toggle_expand_at(storage, ts, te);
    }

    /// The position of `id` in the expand set, if present.
    fn find_expanded(&self, id: TaskId) -> (r: Option<usize>)
        ensures
            match r {
                Some(i) => 0 <= i < self.expanded_tasks@.len() && self.expanded_tasks@[i as int]
                    == id && forall|j: int| 0 <= j < i ==> self.expanded_tasks@[j] != id,
                None => !self.expanded_tasks@.contains(id),
            },
            r is Some <==> self.expanded_tasks@.contains(id),
            r is Some ==> self.expanded_tasks@.remove(r->0 as int) == remove_first(
                self.expanded_tasks@,
                id,
            ),
    {
        let n = self.expanded_tasks.len();
        let mut i: usize = 0;
        while i < n
            invariant
                n == self.expanded_tasks@.len(),
                0 <= i <= n,
                forall|j: int| 0 <= j < i ==> self.expanded_tasks@[j] != id,
            decreases n - i,
        {
            if self.expanded_tasks[i] == id {
                proof {
                    lemma_remove_first_at(self.expanded_tasks@, id, i as int);
                }
                return Some(i);
            }
            i += 1;
        }
        None
    }
}

/// Removing the first occurrence by index is `remove_first`.
proof fn lemma_remove_first_at(s: Seq<TaskId>, id: TaskId, i: int)
    requires
        0 <= i < s.len(),
        s[i] == id,
        forall|j: int| 0 <= j < i ==> s[j] != id,
    ensures
        s.remove(i) == remove_first(s, id),
    decreases i,
{
    if i == 0 {
        assert(s.remove(0) =~= s.drop_first());
    } else {
        let d = s.drop_first();
        assert(d[i - 1] == s[i]);
        assert forall|j: int| 0 <= j < i - 1 implies d[j] != id by {
            assert(d[j] == s[j + 1]);
        }
        lemma_remove_first_at(d, id, i - 1);
        assert(s.remove(i) =~= seq![s[0]] + d.remove(i - 1));
    }
}

/// The sequence with the first occurrence of `id` removed; unchanged
/// when `id` does not occur.
pub open spec fn remove_first(s: Seq<TaskId>, id: TaskId) -> Seq<TaskId>
    decreases s.len(),
{
    if s.len() == 0 {
        s
    } else if s[0] == id {
        s.drop_first()
    } else {
        seq![s[0]] + remove_first(s.drop_first(), id)
    }
}

} // verus!
