use twig::effort::EffortEstimate;
use twig::id::{parse_task_id, TaskId};
use twig::resolve::resolve_task_id;
use twig::store::Storage;
use twig::task::Task;
use twig::tree::{filter_tasks, format_tree, TreeNode};
use twig::TwigError;

fn named(title: &str) -> Task {
    Task::new(title.to_string())
}

#[test]
fn store_crud_roundtrip() {
    let mut storage = Storage::new("unused".to_string());
    let a = named("A");
    let a_id = a.id;
    storage.add_task(a);
    assert!(storage.get_task(a_id).is_some());

    let mut a2 = storage.get_task(a_id).unwrap().duplicate();
    a2.title = "A2".to_string();
    storage.update_task(a2).unwrap();
    assert_eq!(storage.get_task(a_id).unwrap().title, "A2");

    storage.delete_task(a_id).unwrap();
    assert!(storage.get_task(a_id).is_none());
    assert_eq!(storage.delete_task(a_id).unwrap_err(), TwigError::NotFound);

    let ghost_task = named("ghost");
    assert_eq!(
        storage.update_task(ghost_task).unwrap_err(),
        TwigError::NotFound
    );
}

#[test]
fn mutate_through_index() {
    let mut storage = Storage::new(String::new());
    let t = named("tick");
    let id = t.id;
    storage.add_task(t);
    let i = storage.get_task_index(id).unwrap();
    storage.task_at_mut(i).start_at(100);
    storage.task_at_mut(i).pause_at(160);
    assert_eq!(storage.get_task(id).unwrap().total_time_seconds, 60);
}

#[test]
fn roots_children_and_hierarchy() {
    let mut storage = Storage::new(String::new());
    let a = named("A");
    let mut b = named("B");
    let mut c = named("C");
    b.parent_id = Some(a.id);
    c.parent_id = Some(b.id);
    let (ai, bi, ci) = (a.id, b.id, c.id);
    storage.add_task(a);
    storage.add_task(b);
    storage.add_task(c);

    let roots = storage.get_root_tasks();
    assert_eq!(roots.len(), 1);
    assert_eq!(roots[0].id, ai);

    let kids = storage.get_children(ai);
    assert_eq!(kids.len(), 1);
    assert_eq!(kids[0].id, bi);

    let leaf = storage.get_task(ci).unwrap();
    let chain = storage.get_task_hierarchy(leaf);
    assert_eq!(chain, vec![ai, bi, ci]);
    assert_eq!(storage.task_depth(leaf), 2);
}

#[test]
fn hierarchy_tolerates_dangling_parent() {
    let mut storage = Storage::new(String::new());
    let missing = TaskId { hi: 7, lo: 9 };
    let mut o = named("orphan");
    o.parent_id = Some(missing);
    let oi = o.id;
    storage.add_task(o);
    let t = storage.get_task(oi).unwrap();
    let chain = storage.get_task_hierarchy(t);
    assert_eq!(chain, vec![missing, oi]);
}

#[test]
fn deleting_parent_orphans_children() {
    let mut storage = Storage::new(String::new());
    let p = named("parent");
    let mut k = named("kid");
    k.parent_id = Some(p.id);
    let (pi, ki) = (p.id, k.id);
    storage.add_task(p);
    storage.add_task(k);

    storage.delete_task(pi).unwrap();

    let kid = storage.get_task(ki).expect("child still retrievable");
    assert_eq!(kid.parent_id, Some(pi));
    assert!(storage.get_root_tasks().iter().all(|t| t.id != ki));
}

#[test]
fn short_id_resolution_finds_prefix() {
    let mut storage = Storage::new(String::new());
    let t = named("target");
    let full = t.id.to_canonical();
    let tid = t.id;
    storage.add_task(t);
    storage.add_task(named("noise"));

    let prefix = &full[..8];
    assert_eq!(prefix.len(), 8);
    let got = resolve_task_id(&storage, prefix).unwrap();
    assert_eq!(got, tid);

    assert_eq!(
        resolve_task_id(&storage, "00000000").unwrap_err(),
        TwigError::NotFound
    );
}

#[test]
fn full_id_resolution_parses_canonical_and_simple() {
    let storage = Storage::new(String::new());
    let id = TaskId {
        hi: 0xa1a2a3a4b1b2c1c2,
        lo: 0xd1d2d3d4d5d6d7d8,
    };
    let canonical = id.to_canonical();
    assert_eq!(canonical, "a1a2a3a4-b1b2-c1c2-d1d2-d3d4d5d6d7d8");
    assert_eq!(resolve_task_id(&storage, &canonical).unwrap(), id);
    assert_eq!(
        resolve_task_id(&storage, "a1a2a3a4b1b2c1c2d1d2d3d4d5d6d7d8").unwrap(),
        id
    );
    assert_eq!(
        resolve_task_id(&storage, "A1A2A3A4-B1B2-C1C2-D1D2-D3D4D5D6D7D8").unwrap(),
        id
    );
    assert_eq!(
        resolve_task_id(&storage, "not-an-identifier").unwrap_err(),
        TwigError::InvalidFormat
    );
    assert!(parse_task_id("a1a2a3a4-b1b2-c1c2-d1d2-d3d4d5d6d7dg").is_err());
}

#[test]
fn short_id_is_canonical_prefix() {
    let t = named("anything");
    let canonical = t.id.to_canonical();
    assert_eq!(t.short_id(), canonical[..8]);
}

#[test]
fn random_ids_carry_version_four() {
    let id = TaskId::random();
    let canonical = id.to_canonical();
    // the character after the second hyphen block names the version
    assert_eq!(&canonical[14..15], "4");
}

#[test]
fn short_id_collision_first_match_wins() {
    let mut storage = Storage::new(String::new());
    // two identifiers sharing the 8-character prefix
    let mut first = named("first");
    first.id = TaskId { hi: 0x1234abcd_00000001, lo: 1 };
    let mut second = named("second");
    second.id = TaskId { hi: 0x1234abcd_00000002, lo: 2 };
    assert_eq!(first.short_id(), second.short_id());
    let short = first.short_id();
    storage.add_task(first);
    storage.add_task(second);

    let got = resolve_task_id(&storage, &short).unwrap();
    assert_eq!(got, TaskId { hi: 0x1234abcd_00000001, lo: 1 });
}

#[test]
fn empty_store_has_empty_views() {
    let storage = Storage::new(String::new());
    assert!(storage.get_root_tasks().is_empty());
    assert!(format_tree(&TreeNode::build_forest(&storage)).is_empty());
    let t = named("outsider");
    assert_eq!(storage.get_task_hierarchy(&t), vec![t.id]);
}

#[test]
fn effort_values_at_the_size_bound() {
    let e = EffortEstimate::parse("999999999999h").unwrap();
    assert_eq!(e.value_milli, 999_999_999_999_000);
    assert!(EffortEstimate::parse("1000000000000h").is_err());
}

#[test]
fn tree_builder_orders_children() {
    let mut storage = Storage::new(String::new());
    let a = named("A");
    let mut b = named("B");
    let mut c = named("C");
    b.parent_id = Some(a.id);
    c.parent_id = Some(a.id);
    storage.add_task(a);
    storage.add_task(b);
    storage.add_task(c);

    let forest = TreeNode::build_forest(&storage);
    assert_eq!(forest.len(), 1);
    assert_eq!(forest[0].task.title, "A");
    assert_eq!(forest[0].level, 0);
    assert_eq!(forest[0].children.len(), 2);
    assert_eq!(forest[0].children[0].task.title, "B");
    assert_eq!(forest[0].children[1].task.title, "C");
    assert_eq!(forest[0].children[0].level, 1);

    let lines = format_tree(&forest);
    assert_eq!(lines.len(), 3);
    assert!(lines[0].starts_with("└─ "));
    assert!(lines[0].contains("A"));
    assert!(lines[1].starts_with("  ├─ "));
    assert!(lines[1].contains("B"));
    assert!(lines[2].starts_with("  └─ "));
    assert!(lines[2].contains("C"));
}

#[test]
fn tree_lines_carry_details() {
    let mut storage = Storage::new(String::new());
    let mut a = named("Deep work");
    a.set_estimate("1h").unwrap();
    a.start_at(0);
    a.pause_at(90);
    a.add_tag("focus".to_string());
    let short = a.short_id();
    storage.add_task(a);

    let lines = format_tree(&TreeNode::build_forest(&storage));
    assert_eq!(
        lines[0],
        format!("└─ ◐ Deep work [{}] [1m] (~1.0h) #focus", short)
    );
}

#[test]
fn sibling_bars_continue_for_nonlast_ancestors() {
    let mut storage = Storage::new(String::new());
    let a = named("A");
    let mut b = named("B");
    let d = named("D");
    b.parent_id = Some(a.id);
    storage.add_task(a);
    storage.add_task(b);
    storage.add_task(d);

    let lines = format_tree(&TreeNode::build_forest(&storage));
    assert_eq!(lines.len(), 3);
    assert!(lines[0].starts_with("├─ "));
    assert!(lines[1].starts_with("│ └─ "));
    assert!(lines[2].starts_with("└─ "));
}

#[test]
fn filter_tasks_by_status_and_tag() {
    let mut one = named("one");
    one.start_at(0);
    let mut two = named("two");
    two.add_tag("work".to_string());
    let tasks = vec![one, two];

    let started = filter_tasks(&tasks, Some(twig::task::TaskStatus::InProgress), None);
    assert_eq!(started.len(), 1);
    assert_eq!(started[0].title, "one");

    let tagged = filter_tasks(&tasks, None, Some("work"));
    assert_eq!(tagged.len(), 1);
    assert_eq!(tagged[0].title, "two");

    let both = filter_tasks(&tasks, Some(twig::task::TaskStatus::InProgress), Some("work"));
    assert!(both.is_empty());
}
