use vstd::prelude::*;

use crate::effort::from_hours_spec;
use crate::store::{children_of, roots_of, Storage};
use crate::task::{task_like, Task, TaskStatus};
use crate::timefmt::duration_spec;

verus! {

/// One node of the display forest: a copy of its task, the child nodes
/// in store order, and the node's depth.
pub struct TreeNode {
    pub task: Task,
    pub children: Vec<TreeNode>,
    pub level: usize,
}

/// The node tree mirrors the store: the node sits at `level`, and, fuel
/// permitting, its children are exactly the store's children of its task,
/// in store order, each built the same way one level further down.
pub open spec fn is_built(s: Seq<Task>, n: TreeNode, level: nat, fuel: nat) -> bool
    decreases fuel,
{
    let kids = children_of(s, n.task.id);
    &&& n.level == level
    &&& if fuel == 0 {
        n.children@.len() == 0
    } else {
        &&& n.children@.len() == kids.len()
        &&& forall|i: int|
            0 <= i < kids.len() ==> task_like(#[trigger] n.children@[i].task, kids[i]) && is_built(
                s,
                n.children@[i],
                level + 1,
                (fuel - 1) as nat,
            )
    }
}

impl TreeNode {
    /// One tree per root task, in store order.
    pub fn build_forest(storage: &Storage) -> (r: Vec<TreeNode>)
        ensures
            r@.len() == roots_of(storage.tasks@).len(),
            forall|i: int|
                0 <= i < r@.len() ==> task_like(
                    (#[trigger] r@[i]).task,
                    roots_of(storage.tasks@)[i],
                ) && is_built(storage.tasks@, r@[i], 0, storage.tasks@.len() as nat),
    {
        let roots = storage.get_root_tasks();
        let fuel = storage.tasks.len();
        let n = roots.len();
        let mut out: Vec<TreeNode> = Vec::new();
        let mut i: usize = 0;
        while i < n
            invariant
                n == roots@.len(),
                n == roots_of(storage.tasks@).len(),
                forall|k: int| 0 <= k < n ==> *(#[trigger] roots@[k]) == roots_of(
                    storage.tasks@,
                )[k],
                fuel == storage.tasks@.len(),
                0 <= i <= n,
                out@.len() == i,
                forall|k: int|
                    0 <= k < i ==> task_like((#[trigger] out@[k]).task, roots_of(storage.tasks@)[k])
                        && is_built(storage.tasks@, out@[k], 0, fuel as nat),
            decreases n - i,
        {
            let node = Self::build_tree(roots[i], storage, 0, fuel);
            out.push(node);
            i += 1;
        }
        out
    }

    /// Builds the subtree rooted at `task`. The fuel bounds the descent:
    /// the store does not rule out parent cycles, and an exhausted budget
    /// truncates instead of descending forever.
    fn build_tree(task: &Task, storage: &Storage, level: usize, fuel: usize) -> (r: TreeNode)
        requires
            level + fuel <= usize::MAX,
        ensures
            task_like(r.task, *task),
            is_built(storage.tasks@, r, level as nat, fuel as nat),
        decreases fuel,
    {
        let mut children: Vec<TreeNode> = Vec::new();
        if fuel > 0 {
            let kids = storage.get_children(task.id);
            let n = kids.len();
            let ghost ks = children_of(storage.tasks@, task.id);
            let mut i: usize = 0;
            while i < n
                invariant
                    n == kids@.len(),
                    n == ks.len(),
                    ks == children_of(storage.tasks@, task.id),
                    forall|k: int| 0 <= k < n ==> *(#[trigger] kids@[k]) == ks[k],
                    level + fuel <= usize::MAX,
                    fuel >= 1,
                    0 <= i <= n,
                    children@.len() == i,
                    forall|k: int|
                        0 <= k < i ==> task_like((#[trigger] children@[k]).task, ks[k]) && is_built(
                            storage.tasks@,
                            children@[k],
                            (level + 1) as nat,
                            (fuel - 1) as nat,
                        ),
                decreases n - i,
            {
                let node = Self::build_tree(kids[i], storage, level + 1, fuel - 1);
                children.push(node);
                i += 1;
            }
        }
        let r = TreeNode { task: task.duplicate(), children, level };
        proof {
            assert(children_of(storage.tasks@, r.task.id) == children_of(
                storage.tasks@,
                task.id,
            ));
        }
        r
    }
}

/// The status glyph each lifecycle state renders as.
pub open spec fn icon_spec(st: TaskStatus) -> char {
    match st {
        TaskStatus::NotStarted => '\u{25cb}',
        TaskStatus::InProgress => '\u{25d0}',
        TaskStatus::Completed => '\u{25cf}',
        TaskStatus::Cancelled => '\u{2717}',
    }
}

/// The ` [..]` total-time suffix, shown only when time was tracked.
pub open spec fn time_info_spec(t: Task) -> Seq<char> {
    if t.total_time_seconds > 0 {
        seq![' ', '['] + duration_spec(t.total_time_seconds as int) + seq![']']
    } else {
        Seq::empty()
    }
}

/// The ` (~..)` estimate suffix, shown only when an estimate is stored.
pub open spec fn estimate_info_spec(t: Task) -> Seq<char> {
    match t.estimated_effort_millihours {
        Some(v) => seq![' ', '(', '~'] + from_hours_spec(v as int) + seq![')'],
        None => Seq::empty(),
    }
}

/// The ` #a #b` tag suffix, one ` #tag` per stored tag.
pub open spec fn tags_info_spec(tags: Seq<String>) -> Seq<char>
    decreases tags.len(),
{
    if tags.len() == 0 {
        Seq::empty()
    } else {
        tags_info_spec(tags.drop_last()) + seq![' ', '#'] + tags.last()@
    }
}

/// One rendered line: the ancestor prefix, the sibling connector, the
/// status glyph, the title, the bracketed short identifier, and the
/// optional time, estimate and tag suffixes.
pub open spec fn node_line_spec(t: Task, prefix: Seq<char>, is_last: bool) -> Seq<char> {
    prefix + (if is_last {
        seq!['\u{2514}', '\u{2500}']
    } else {
        seq!['\u{251c}', '\u{2500}']
    }) + seq![' ', icon_spec(t.status), ' '] + t.title@ + seq![' ', '['] + t.id.short_spec()
        + seq![']'] + time_info_spec(t) + estimate_info_spec(t) + tags_info_spec(t.tags@)
}

/// The prefix handed to a node's children: continuing ancestors draw a
/// vertical bar, exhausted ones blank space.
pub open spec fn child_prefix_spec(prefix: Seq<char>, is_last: bool) -> Seq<char> {
    prefix + (if is_last {
        seq![' ', ' ']
    } else {
        seq!['\u{2502}', ' ']
    })
}

/// The depth-first rendering of a subtree: the node's own line, then
/// each child's rendering in order, the last sibling marked as such.
pub open spec fn render_node_spec(n: TreeNode, prefix: Seq<char>, is_last: bool) -> Seq<Seq<char>>
    decreases n, 0int,
{
    seq![node_line_spec(n.task, prefix, is_last)] + render_kids_spec(
        n.children@,
        child_prefix_spec(prefix, is_last),
        0,
    )
}

/// The renderings of the siblings from position `i` on, concatenated.
pub open spec fn render_kids_spec(cs: Seq<TreeNode>, prefix: Seq<char>, i: int) -> Seq<Seq<char>>
    decreases cs, cs.len() - i,
{
    if i < 0 || i >= cs.len() {
        Seq::empty()
    } else {
        render_node_spec(cs[i], prefix, i == cs.len() - 1) + render_kids_spec(cs, prefix, i + 1)
    }
}

/// The rendering of a whole forest with an empty prefix.
pub open spec fn render_forest_spec(forest: Seq<TreeNode>) -> Seq<Seq<char>> {
    render_kids_spec(forest, Seq::empty(), 0)
}

#[verifier::rlimit(60)]
fn build_line(t: &Task, prefix: &str, is_last: bool) -> (r: String)
    ensures
        r@ == node_line_spec(*t, prefix@, is_last),
{
    let mut line: String = prefix.to_owned();
    proof {
        reveal_strlit("\u{2514}\u{2500}");
        reveal_strlit("\u{251c}\u{2500}");
        reveal_strlit(" ");
        reveal_strlit("\u{25cb}");
        reveal_strlit("\u{25d0}");
        reveal_strlit("\u{25cf}");
        reveal_strlit("\u{2717}");
        reveal_strlit("[");
        reveal_strlit("]");
        reveal_strlit(" [");
        reveal_strlit(" (~");
        reveal_strlit(")");
        reveal_strlit(" #");
    }
    if is_last {
        line.append("\u{2514}\u{2500}");
    } else {
        line.append("\u{251c}\u{2500}");
    }
    line.append(" ");
    match t.status {
        TaskStatus::NotStarted => line.append("\u{25cb}"),
        TaskStatus::InProgress => line.append("\u{25d0}"),
        TaskStatus::Completed => line.append("\u{25cf}"),
        TaskStatus::Cancelled => line.append("\u{2717}"),
    }
    line.append(" ");
    line.append(t.title.as_str());
    line.append(" [");
    let short = t.short_id();
    line.append(short.as_str());
    line.append("]");
    if t.total_time_seconds > 0 {
        line.append(" [");
        let d = crate::timefmt::format_duration_human(t.total_time_seconds);
        line.append(d.as_str());
        line.append("]");
    }
    match &t.estimated_effort_millihours {
        Some(v) => {
            line.append(" (~");
            let e = crate::effort::from_hours(*v);
            line.append(e.as_str());
            line.append(")");
        },
        None => {},
    }
    let ghost tags = t.tags@;
    let n = t.tags.len();
    let mut i: usize = 0;
    while i < n
        invariant
            n == tags.len(),
            tags == t.tags@,
            0 <= i <= n,
            line@ == node_line_spec(*t, prefix@, is_last).subrange(
                0,
                node_line_spec(*t, prefix@, is_last).len() - tags_info_spec(tags).len(),
            ) + tags_info_spec(tags.take(i as int)),
        decreases n - i,
    {
        proof {
            reveal_strlit(" #");
            assert(tags.take(i + 1).drop_last() =~= tags.take(i as int));
        }
        line.append(" #");
        line.append(t.tags[i].as_str());
        i += 1;
    }
    proof {
        assert(tags.take(n as int) =~= tags);
        assert(line@ =~= node_line_spec(*t, prefix@, is_last));
    }
    line
}

fn format_tree_node(node: &TreeNode, prefix: &str, is_last: bool, lines: &mut Vec<String>)
    ensures
        final(lines)@.len() == old(lines)@.len() + render_node_spec(*node, prefix@, is_last).len(),
        forall|k: int| 0 <= k < old(lines)@.len() ==> final(lines)@[k] == old(lines)@[k],
        forall|k: int|
            0 <= k < render_node_spec(*node, prefix@, is_last).len()
                ==> (#[trigger] final(lines)@[old(lines)@.len() + k])@
                == render_node_spec(*node, prefix@, is_last)[k],
    decreases *node,
{
    broadcast use vstd::seq_lib::group_seq_properties;

    let line = build_line(&node.task, prefix, is_last);
    lines.push(line);
    let mut cpfx: String = prefix.to_owned();
    proof {
        reveal_strlit("  ");
        reveal_strlit("\u{2502} ");
    }
    if is_last {
        cpfx.append("  ");
    } else {
        cpfx.append("\u{2502} ");
    }
    proof {
        assert(cpfx@ =~= child_prefix_spec(prefix@, is_last));
    }
    let ghost kids = node.children@;
    let ghost mut done: Seq<Seq<char>> = Seq::empty();
    let n = node.children.len();
    let mut i: usize = 0;
    while i < n
        invariant
            n == kids.len(),
            kids == node.children@,
            cpfx@ == child_prefix_spec(prefix@, is_last),
            0 <= i <= n,
            lines@.len() == old(lines)@.len() + 1 + done.len(),
            forall|k: int| 0 <= k < old(lines)@.len() ==> lines@[k] == old(lines)@[k],
            (lines@[old(lines)@.len() as int])@ == node_line_spec(node.task, prefix@, is_last),
            forall|k: int|
                0 <= k < done.len() ==> (#[trigger] lines@[old(lines)@.len() + 1 + k])@ == done[k],
            done + render_kids_spec(kids, cpfx@, i as int) == render_kids_spec(kids, cpfx@, 0),
        decreases n - i,
    {
        let ghost pre_len = lines@.len();
        let ghost lines_pre = lines@;
        let ghost cur = render_node_spec(kids[i as int], cpfx@, i as int == kids.len() - 1);
        format_tree_node(&node.children[i], cpfx.as_str(), i == n - 1, lines);
        proof {
            assert(render_kids_spec(kids, cpfx@, i as int) == cur + render_kids_spec(
                kids,
                cpfx@,
                i + 1,
            ));
            assert((done + cur) + render_kids_spec(kids, cpfx@, i + 1) =~= done + (cur
                + render_kids_spec(kids, cpfx@, i + 1)));
            assert forall|k: int| 0 <= k < (done + cur).len() implies (#[trigger] lines@[old(
                lines,
            )@.len() + 1 + k])@ == (done + cur)[k] by {
                if k < done.len() {
                    assert((done + cur)[k] == done[k]);
                    assert(old(lines)@.len() + 1 + k < pre_len);
                    assert(lines@[old(lines)@.len() + 1 + k] == lines_pre[old(lines)@.len() + 1
                        + k]);
                } else {
                    assert((done + cur)[k] == cur[k - done.len()]);
                    assert((lines@[pre_len + (k - done.len())])@ == cur[k - done.len()]);
                    assert(old(lines)@.len() + 1 + k == pre_len + (k - done.len()));
                }
            }
            done = done + cur;
        }
        i += 1;
    }
    proof {
        assert(render_kids_spec(kids, cpfx@, n as int) == Seq::<Seq<char>>::empty());
        assert(done =~= done + render_kids_spec(kids, cpfx@, n as int));
        let full = render_node_spec(*node, prefix@, is_last);
        assert(full == seq![node_line_spec(node.task, prefix@, is_last)] + render_kids_spec(
            kids,
            cpfx@,
            0,
        ));
        assert(done == render_kids_spec(kids, cpfx@, 0));
        assert(full.len() == 1 + done.len());
        assert forall|k: int| 0 <= k < full.len() implies (#[trigger] lines@[old(lines)@.len()
            + k])@ == full[k] by {
            if k == 0 {
                assert(full[0] == node_line_spec(node.task, prefix@, is_last));
                assert(old(lines)@.len() + 0 == old(lines)@.len() as int);
            } else {
                assert(full[k] == done[k - 1]);
                assert((lines@[old(lines)@.len() + 1 + (k - 1)])@ == done[k - 1]);
                assert(old(lines)@.len() + k == old(lines)@.len() + 1 + (k - 1));
            }
        }
    }
}

/// Renders a forest depth-first, one line per node, with box-drawing
/// connectors and ancestor bars.
pub fn format_tree(forest: &Vec<TreeNode>) -> (r: Vec<String>)
    ensures
        r@.len() == render_forest_spec(forest@).len(),
        forall|k: int| 0 <= k < r@.len() ==> (#[trigger] r@[k])@ == render_forest_spec(forest@)[k],
{
    broadcast use vstd::seq_lib::group_seq_properties;

    let ghost fs = forest@;
    let ghost mut done: Seq<Seq<char>> = Seq::empty();
    let n = forest.len();
    let mut lines: Vec<String> = Vec::new();
    let mut i: usize = 0;
    while i < n
        invariant
            n == fs.len(),
            fs == forest@,
            0 <= i <= n,
            lines@.len() == done.len(),
            forall|k: int| 0 <= k < done.len() ==> (#[trigger] lines@[k])@ == done[k],
            done + render_kids_spec(fs, Seq::empty(), i as int) == render_kids_spec(
                fs,
                Seq::empty(),
                0,
            ),
        decreases n - i,
    {
        let empty_prefix: &str = "";
        proof {
            reveal_strlit("");
            assert(empty_prefix@ =~= Seq::<char>::empty());
        }
        let ghost lines_pre = lines@;
        let ghost cur = render_node_spec(fs[i as int], Seq::empty(), i as int == fs.len() - 1);
        format_tree_node(&forest[i], empty_prefix, i == n - 1, &mut lines);
        proof {
            assert(render_kids_spec(fs, Seq::empty(), i as int) == cur + render_kids_spec(
                fs,
                Seq::empty(),
                i + 1,
            ));
            assert((done + cur) + render_kids_spec(fs, Seq::empty(), i + 1) =~= done + (cur
                + render_kids_spec(fs, Seq::empty(), i + 1)));
            assert forall|k: int| 0 <= k < (done + cur).len() implies (#[trigger] lines@[k])@ == (
            done + cur)[k] by {
                if k < done.len() {
                    assert((done + cur)[k] == done[k]);
                    assert(lines@[k] == lines_pre[k]);
                } else {
                    assert((done + cur)[k] == cur[k - done.len()]);
                    assert((lines@[lines_pre.len() + (k - done.len())])@ == cur[k - done.len()]);
                    assert(k == lines_pre.len() + (k - done.len()));
                }
            }
            done = done + cur;
        }
        i += 1;
    }
    proof {
        assert(render_kids_spec(fs, Seq::empty(), n as int) == Seq::<Seq<char>>::empty());
        assert(done =~= done + render_kids_spec(fs, Seq::empty(), n as int));
    }
    lines
}

/// Whether a task passes the optional status and tag filters.
pub open spec fn passes_filter(t: Task, status: Option<TaskStatus>, tag: Option<Seq<char>>) -> bool {
    &&& match status {
        Some(st) => t.status == st,
        None => true,
    }
    &&& match tag {
        Some(tg) => t.has_tag_spec(tg),
        None => true,
    }
}

/// The tasks passing the filters, in order.
pub open spec fn filtered_spec(
    s: Seq<Task>,
    status: Option<TaskStatus>,
    tag: Option<Seq<char>>,
) -> Seq<Task> {
    s.filter(|t: Task| passes_filter(t, status, tag))
}

/// Keeps the tasks matching the optional status and tag filters, in
/// their given order.
pub fn filter_tasks<'a>(tasks: &'a Vec<Task>, status: Option<TaskStatus>, tag: Option<&str>) -> (r:
    Vec<&'a Task>)
    ensures
        ({
            let tg = match tag {
                Some(x) => Some(x@),
                None => None,
            };
            &&& r@.len() == filtered_spec(tasks@, status, tg).len()
            &&& forall|k: int|
                0 <= k < r@.len() ==> *(#[trigger] r@[k]) == filtered_spec(tasks@, status, tg)[k]
        }),
{
    proof {
        reveal(Seq::filter);
    }
    let ghost tg: Option<Seq<char>> = match tag {
        Some(x) => Some(x@),
        None => None,
    };
    let ghost s = tasks@;
    let n = tasks.len();
    let mut out: Vec<&Task> = Vec::new();
    let mut i: usize = 0;
    while i < n
        invariant
            n == s.len(),
            s == tasks@,
            tg == (match tag {
                Some(x) => Some(x@),
                None => None,
            }),
            0 <= i <= n,
            out@.len() == filtered_spec(s.take(i as int), status, tg).len(),
            forall|k: int| 0 <= k < out@.len() ==> *(#[trigger] out@[k]) == filtered_spec(
                s.take(i as int),
                status,
                tg,
            )[k],
        decreases n - i,
    {
        proof {
            reveal(Seq::filter);
            assert(s.take(i + 1).drop_last() =~= s.take(i as int));
            assert(s.take(i + 1).last() == s[i as int]);
        }
        let t = &tasks[i];
        let status_ok = match &status {
            Some(st) => t.status == *st,
            None => true,
        };
        let tag_ok = match tag {
            Some(tg_str) => t.has_tag(tg_str),
            None => true,
        };
        if status_ok && tag_ok {
            out.push(t);
        }
        i += 1;
    }
    proof {
        assert(s.take(n as int) =~= s);
    }
    out
}

} // verus!
