use todo_core::store::Core;
use todo_core::topology::Position;
use todo_core::tree::{NodeInfo, TreeError};

fn done(core: &Core, id: usize) -> bool {
    core.get_entry(id).unwrap().complete
}

/// Groceries with Milk, and Dairy with Cheese.
fn groceries() -> (Core, usize, usize, usize) {
    let mut core = Core::new(String::from("Groceries"));
    let root = core.current_root();
    let milk = core.new_entry(String::from("Milk"), Position::LastChild, root).unwrap();
    let dairy = core.new_entry(String::from("Dairy"), Position::LastChild, root).unwrap();
    let cheese = core.new_entry(String::from("Cheese"), Position::LastChild, dairy).unwrap();
    (core, milk, dairy, cheese)
}

#[test]
fn a_new_list() {
    let core = Core::new(String::from("List"));
    assert_eq!(core.name(), "List");
    assert_eq!(core.depth(), 2);
    assert_eq!(core.current_root(), 0);
    assert_eq!(core.get_entry_ids(), vec![0]);
    assert_eq!(core.get_entries_info(), vec![NodeInfo { id: 0, depth: 0, child_count: 0 }]);
    assert!(!done(&core, 0));
    assert!(matches!(core.get_entry(5), Err(TreeError::NotFound)));
}

#[test]
fn completion_rises_when_all_children_are_done() {
    let (mut core, milk, dairy, cheese) = groceries();
    let root = core.current_root();
    assert!(!done(&core, root));
    core.toggle_comp(milk).unwrap();
    assert!(done(&core, milk));
    assert!(!done(&core, root));
    assert!(!done(&core, dairy));
    core.toggle_comp(cheese).unwrap();
    assert!(done(&core, cheese));
    assert!(done(&core, dairy));
    assert!(done(&core, root));
    assert_eq!(
        core.get_entries_info(),
        vec![
            NodeInfo { id: root, depth: 0, child_count: 2 },
            NodeInfo { id: milk, depth: 1, child_count: 0 },
            NodeInfo { id: dairy, depth: 1, child_count: 1 },
            NodeInfo { id: cheese, depth: 2, child_count: 0 },
        ]
    );
    let names: Vec<String> =
        core.get_entry_ids().iter().map(|&i| core.get_entry(i).unwrap().name.clone()).collect();
    assert_eq!(names, vec!["Groceries", "Milk", "Dairy", "Cheese"]);
}

#[test]
fn a_moved_task_stays_below_the_root() {
    let (mut core, milk, dairy, cheese) = groceries();
    let root = core.current_root();
    assert_eq!(core.move_entry(milk, Position::FirstChild, dairy), Ok(()));
    assert!(core.descendants_of(root).unwrap().contains(&milk));
    assert_eq!(core.get_entry_ids(), vec![root, dairy, milk, cheese]);
    assert_eq!(core.parent_id(milk), dairy);
    assert_eq!(core.get_entries_info()[0].child_count, 1);
    assert_eq!(core.move_entry(dairy, Position::LastChild, milk), Err(TreeError::CycleError));
    assert_eq!(core.move_entry(dairy, Position::LastChild, dairy), Err(TreeError::CycleError));
}

#[test]
fn completion_goes_down() {
    let (mut core, milk, dairy, cheese) = groceries();
    let root = core.current_root();
    core.toggle_comp(root).unwrap();
    for id in [root, milk, dairy, cheese] {
        assert!(done(&core, id));
    }
    core.toggle_comp(dairy).unwrap();
    assert!(!done(&core, dairy));
    assert!(!done(&core, cheese));
    assert!(!done(&core, root));
    assert!(done(&core, milk));
    core.toggle_comp(root).unwrap();
    for id in [root, milk, dairy, cheese] {
        assert!(done(&core, id));
    }
    core.toggle_comp(root).unwrap();
    for id in [root, milk, dairy, cheese] {
        assert!(!done(&core, id));
    }
}

#[test]
fn toggling_twice_restores() {
    let (mut core, milk, dairy, cheese) = groceries();
    let root = core.current_root();
    core.toggle_comp(milk).unwrap();
    core.toggle_comp(cheese).unwrap();
    let all = [root, milk, dairy, cheese];
    let before: Vec<bool> = all.iter().map(|&i| done(&core, i)).collect();
    assert_eq!(before, vec![true, true, true, true]);
    core.toggle_comp(dairy).unwrap();
    let between: Vec<bool> = all.iter().map(|&i| done(&core, i)).collect();
    assert_eq!(between, vec![false, true, false, false]);
    core.toggle_comp(dairy).unwrap();
    let after: Vec<bool> = all.iter().map(|&i| done(&core, i)).collect();
    assert_eq!(after, before);
}

#[test]
fn the_way_up_stops_at_the_first_that_stays() {
    let (mut core, milk, dairy, cheese) = groceries();
    let root = core.current_root();
    let brie = core.new_entry(String::from("Brie"), Position::LastChild, dairy).unwrap();
    core.toggle_comp(cheese).unwrap();
    assert!(done(&core, cheese));
    assert!(!done(&core, dairy));
    assert!(!done(&core, root));
    core.toggle_comp(milk).unwrap();
    assert!(!done(&core, root));
    core.toggle_comp(brie).unwrap();
    assert!(done(&core, dairy));
    assert!(done(&core, root));
    core.toggle_comp(brie).unwrap();
    assert!(!done(&core, brie));
    assert!(!done(&core, dairy));
    assert!(!done(&core, root));
    assert!(done(&core, cheese));
    assert!(done(&core, milk));
}

#[test]
fn set_to_the_state_it_has_changes_nothing() {
    let (mut core, milk, dairy, cheese) = groceries();
    core.toggle_comp(cheese).unwrap();
    assert!(done(&core, dairy));
    let brie = core.new_entry(String::from("Brie"), Position::LastChild, dairy).unwrap();
    assert_eq!(core.set_complete(dairy), Ok(()));
    assert!(!done(&core, brie));
    assert_eq!(core.set_incomplete(milk), Ok(()));
    assert!(done(&core, dairy));
    assert_eq!(core.set_incomplete(99), Err(TreeError::NotFound));
    assert_eq!(core.set_complete(99), Err(TreeError::NotFound));
    assert_eq!(core.toggle_comp(99), Err(TreeError::NotFound));
}

#[test]
fn depth_of_the_listing() {
    let (mut core, milk, dairy, _cheese) = groceries();
    let root = core.current_root();
    core.dec_depth(1);
    assert_eq!(core.depth(), 1);
    assert_eq!(core.get_entry_ids(), vec![root, milk, dairy]);
    core.dec_depth(5);
    assert_eq!(core.depth(), 0);
    assert_eq!(core.get_entry_ids(), vec![root]);
    core.dec_depth(1);
    assert_eq!(core.depth(), 0);
    core.inc_depth(7);
    assert_eq!(core.depth(), 7);
    assert_eq!(core.get_entry_ids().len(), 4);
}

#[test]
fn focus_on_a_task() {
    let (mut core, milk, dairy, cheese) = groceries();
    let root = core.current_root();
    assert_eq!(core.change_root(dairy), Ok(()));
    assert_eq!(core.current_root(), dairy);
    assert_eq!(
        core.get_entries_info(),
        vec![
            NodeInfo { id: dairy, depth: 0, child_count: 1 },
            NodeInfo { id: cheese, depth: 1, child_count: 0 },
        ]
    );
    assert_eq!(core.name(), "Groceries");
    assert_eq!(core.change_root(99), Err(TreeError::NotFound));
    assert_eq!(core.delete(dairy), Err(TreeError::CannotRemoveRoot));
    assert_eq!(core.delete(root), Err(TreeError::CannotRemoveRoot));
    assert_eq!(core.delete(milk), Ok(()));
    assert_eq!(core.delete(milk), Err(TreeError::NotFound));
    assert_eq!(core.delete(cheese), Ok(()));
    core.prev_root();
    assert_eq!(core.current_root(), root);
    core.prev_root();
    assert_eq!(core.current_root(), root);
    assert_eq!(core.get_entry_ids(), vec![root, dairy]);
    assert_eq!(core.delete(dairy), Ok(()));
    assert_eq!(core.get_entry_ids(), vec![root]);
}

#[test]
fn new_entry_is_refused() {
    let (mut core, _milk, _dairy, _cheese) = groceries();
    let root = core.current_root();
    assert_eq!(
        core.new_entry(String::from("x"), Position::SiblingAfter, root),
        Err(TreeError::InvalidPosition)
    );
    assert_eq!(
        core.new_entry(String::from("x"), Position::FirstChild, 99),
        Err(TreeError::NotFound)
    );
    assert_eq!(core.get_entry_ids().len(), 4);
}

#[test]
fn copy_and_rename() {
    let (mut core, milk, dairy, cheese) = groceries();
    let root = core.current_root();
    core.toggle_comp(cheese).unwrap();
    let copy = core.copy_entry(dairy, Position::SiblingBefore, milk).unwrap();
    assert_eq!(core.get_entry(copy).unwrap().name, "Dairy");
    assert!(done(&core, copy));
    let ids = core.get_entry_ids();
    assert_eq!(ids.len(), 6);
    assert_eq!(&ids[..2], &[root, copy]);
    assert_eq!(&ids[3..], &[milk, dairy, cheese]);
    assert_eq!(core.get_entry(ids[2]).unwrap().name, "Cheese");
    assert_eq!(core.rename(copy, String::from("Bakery")), Ok(()));
    assert_eq!(core.get_entry(copy).unwrap().name, "Bakery");
    assert_eq!(core.get_entry(dairy).unwrap().name, "Dairy");
    assert_eq!(core.rename(99, String::from("x")), Err(TreeError::NotFound));
    assert_eq!(
        core.copy_entry(dairy, Position::SiblingBefore, root),
        Err(TreeError::InvalidPosition)
    );
    assert_eq!(core.copy_entry(99, Position::LastChild, root), Err(TreeError::NotFound));
}

#[test]
fn save_and_load() {
    let (mut core, milk, dairy, _cheese) = groceries();
    core.toggle_comp(milk).unwrap();
    core.change_root(dairy).unwrap();
    core.inc_depth(3);
    assert!(core.can_save());
    let bytes = core.save();
    assert_eq!(&bytes[..13], &[0u8, 0, 0, 9, b'G', b'r', b'o', b'c', b'e', b'r', b'i', b'e', b's']);
    let back = Core::load(&bytes).unwrap();
    assert_eq!(back.depth(), 2);
    assert_eq!(back.current_root(), 0);
    assert_eq!(back.name(), "Groceries");
    let names: Vec<(String, bool)> = back
        .get_entry_ids()
        .iter()
        .map(|&i| {
            let e = back.get_entry(i).unwrap();
            (e.name.clone(), e.complete)
        })
        .collect();
    assert_eq!(
        names,
        vec![
            (String::from("Groceries"), false),
            (String::from("Milk"), true),
            (String::from("Dairy"), false),
            (String::from("Cheese"), false),
        ]
    );
    assert_eq!(back.save(), bytes);
    assert!(matches!(Core::load(&bytes[..bytes.len() - 1]), Err(TreeError::CorruptData)));
}
