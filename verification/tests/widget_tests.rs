use rmus::widget::StatefulList;

#[test]
fn next_wraps_around_a_three_item_list() {
    let mut list = StatefulList::from_vec(vec![10, 20, 30]);
    assert_eq!(list.selected, None);
    list.next();
    assert_eq!(list.selected, Some(0));
    list.next();
    assert_eq!(list.selected, Some(1));
    list.next();
    assert_eq!(list.selected, Some(2));
    list.next();
    assert_eq!(list.selected, Some(0));
}

#[test]
fn previous_wraps_around_a_three_item_list() {
    let mut list = StatefulList::from_vec(vec![10, 20, 30]);
    list.next();
    assert_eq!(list.selected, Some(0));
    list.previous();
    assert_eq!(list.selected, Some(2));
    list.previous();
    assert_eq!(list.selected, Some(1));
}

#[test]
fn navigation_on_an_empty_list_is_a_no_op() {
    let mut list: StatefulList<u32> = StatefulList::from_vec(vec![]);
    list.next();
    assert_eq!(list.selected, None);
    list.previous();
    assert_eq!(list.selected, None);
    assert_eq!(list.current(), None);
}

#[test]
fn unselect_is_idempotent() {
    let mut list = StatefulList::from_vec(vec![1, 2, 3]);
    list.next();
    assert_eq!(list.selected, Some(0));
    list.unselect();
    assert_eq!(list.selected, None);
    list.unselect();
    assert_eq!(list.selected, None);
}

#[test]
fn current_returns_the_item_under_the_cursor() {
    let mut list = StatefulList::from_vec(vec!["a", "b", "c"]);
    assert_eq!(list.current(), None);
    list.next();
    list.next();
    assert_eq!(list.current(), Some(&"b"));
    assert_eq!(list.selected_index(), Some(1));
}
