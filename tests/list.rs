use ledit::list::StatefulList;

fn three() -> StatefulList<u32> {
    let mut l = StatefulList::new();
    l.items = vec![10, 20, 30];
    l
}

#[test]
fn previous_without_selection_selects_first() {
    let mut l = three();
    l.previous();
    assert_eq!(l.selected, Some(0));
}

#[test]
fn next_without_selection_selects_first() {
    let mut l = three();
    l.next();
    assert_eq!(l.selected, Some(0));
}

#[test]
fn next_three_times_wraps_back() {
    let mut l = three();
    l.next();
    l.next();
    assert_eq!(l.selected, Some(1));
    l.next();
    assert_eq!(l.selected, Some(2));
    l.next();
    assert_eq!(l.selected, Some(0));
}

#[test]
fn previous_wraps_to_last() {
    let mut l = three();
    l.selected = Some(0);
    l.previous();
    assert_eq!(l.selected, Some(2));
    l.previous();
    assert_eq!(l.selected, Some(1));
}

#[test]
fn unselect_clears() {
    let mut l = three();
    l.next();
    l.unselect();
    assert_eq!(l.selected, None);
    assert_eq!(l.items, vec![10, 20, 30]);
}

#[test]
fn empty_list_stays_unselected() {
    let mut l: StatefulList<u32> = StatefulList::new();
    l.next();
    assert_eq!(l.selected, None);
    l.previous();
    assert_eq!(l.selected, None);
}

#[test]
fn set_items_clamps_cursor() {
    let mut l = three();
    l.selected = Some(2);
    l.set_items(vec![1]);
    assert_eq!(l.selected, Some(0));
    l.set_items(vec![]);
    assert_eq!(l.selected, None);
    l.selected = Some(1);
    l.set_items(vec![5, 6, 7]);
    assert_eq!(l.selected, Some(1));
}
