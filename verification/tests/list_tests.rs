use todo_md::TodoItem;
use todo_md::TodoList;

#[test]
fn lib_parse_line_list_item_unchecked() {
    let line = "- [ ] Item 1";
    let expected = TodoItem::new("Item 1".to_string());
    assert_eq!(TodoItem::from_string(line), expected);
}

#[test]
fn lib_parse_line_list_item_checked() {
    let line = "- [X] Item 1";
    let mut expected = TodoItem::new("Item 1".to_string());
    expected.done();
    assert_eq!(TodoItem::from_string(line), expected);
}

#[test]
fn lib_write_line_list_item_unchecked() {
    let item = TodoItem::new("Item 1".to_string());
    let expected = "- [ ] Item 1";
    assert_eq!(item.to_string(), expected);
}

#[test]
fn lib_write_line_list_item_checked() {
    let mut item = TodoItem::new("Item 1".to_string());
    item.done();
    let expected = "- [X] Item 1";
    assert_eq!(item.to_string(), expected);
}

#[test]
fn add_then_list_numbers_from_one() {
    let mut list = TodoList::from_text("");
    list.add_item("X".to_string());
    assert_eq!(list.list_items(), vec!["1: - [ ] X".to_string()]);
}

#[test]
fn mark_done_out_of_range_changes_nothing() {
    let mut list = TodoList::from_text("# TODO\n\n- [ ] A\n- [ ] B\n");
    let before = list.list_items();
    assert!(!list.mark_done(0));
    assert!(!list.mark_done(3));
    assert_eq!(list.list_items(), before);
}

#[test]
fn mark_done_is_idempotent() {
    let mut list = TodoList::from_text("# TODO\n\n- [ ] A\n");
    assert!(list.mark_done(1));
    assert!(list.mark_done(1));
    assert_eq!(list.list_items(), vec!["1: - [X] A".to_string()]);
}

#[test]
fn remove_out_of_range_changes_nothing() {
    let mut list = TodoList::from_text("# TODO\n\n- [ ] A\n- [ ] B\n");
    let before = list.list_items();
    assert!(!list.remove(0));
    assert!(!list.remove(3));
    assert_eq!(list.list_items(), before);
}

#[test]
fn remove_first_shifts_numbers_down() {
    let mut list = TodoList::from_text("# TODO\n\n- [ ] A\n- [ ] B\n");
    assert!(list.remove(1));
    assert_eq!(list.list_items(), vec!["1: - [ ] B".to_string()]);
    assert!(list.remove(1));
    assert!(list.list_items().is_empty());
}

#[test]
fn remove_completed_keeps_order() {
    let mut list = TodoList::from_text("# TODO\n\n- [X] A\n- [ ] B\n- [X] C\n");
    list.remove_completed();
    assert_eq!(list.list_items(), vec!["1: - [ ] B".to_string()]);
}

#[test]
fn remove_all_empties_the_list() {
    let mut list = TodoList::from_text("# TODO\n\n- [ ] A\n- [X] B\n");
    list.remove_all();
    assert!(list.list_items().is_empty());
    assert_eq!(list.to_text(), "# TODO\n\n");
}

#[test]
fn load_list_mark_save_reload() {
    let stored = "# TODO\n\n- [ ] Buy milk\n- [X] Pay bills\n".to_string();
    let mut list = TodoList::from_text(&stored);
    assert_eq!(
        list.list_items(),
        vec![
            "1: - [ ] Buy milk".to_string(),
            "2: - [X] Pay bills".to_string(),
        ]
    );
    assert!(list.mark_done(1));
    let stored = list.to_text();
    let reloaded = TodoList::from_text(&stored);
    assert_eq!(
        reloaded.list_items(),
        vec![
            "1: - [X] Buy milk".to_string(),
            "2: - [X] Pay bills".to_string(),
        ]
    );
}

#[test]
fn to_text_reproduces_a_canonical_file() {
    let text = "# TODO\n\n- [ ] A\n- [X] B\n- [ ] C\n";
    assert_eq!(TodoList::from_text(text).to_text(), text);
}

#[test]
fn numbering_reaches_two_digits() {
    let mut list = TodoList::from_text("");
    for _ in 0..12 {
        list.add_item("T".to_string());
    }
    let lines = list.list_items();
    assert_eq!(lines.len(), 12);
    assert_eq!(lines[9], "10: - [ ] T".to_string());
    assert_eq!(lines[11], "12: - [ ] T".to_string());
}
