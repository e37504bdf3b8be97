use profiler::signal_safe_linked_list::SignalSafeLinkedList;

#[test]
fn the_list_can_be_read_and_changed_when_no_change_is_under_way() {
    let mut list: SignalSafeLinkedList<u32> = SignalSafeLinkedList::new();
    assert_eq!(list.get().map(|l| l.len()), Some(0));
    list.mutate(|maybe_list| {
        let l = maybe_list.expect("no change is under way");
        l.push_back(1);
        l.push_back(2);
    });
    let values: Vec<u32> = list.get().expect("readable").iter().copied().collect();
    assert_eq!(values, vec![1, 2]);
}

#[test]
fn a_list_under_change_cannot_be_read() {
    let list: std::collections::VecDeque<u32> = vec![4, 5].into_iter().collect();
    assert!(SignalSafeLinkedList::list_unless_mutating(true, &list).is_none());
    assert_eq!(
        SignalSafeLinkedList::list_unless_mutating(false, &list).map(|l| l.len()),
        Some(2)
    );
}

#[test]
fn a_change_while_another_is_under_way_gets_no_list() {
    let mut list: SignalSafeLinkedList<u32> = SignalSafeLinkedList::new();
    list.mutate(|maybe_list| maybe_list.expect("no change is under way").push_back(7));
    let mut handed_none = false;
    list.mutate_unless_mutating(true, |maybe_list| handed_none = maybe_list.is_none());
    assert!(handed_none);
    let values: Vec<u32> = list.get().expect("readable").iter().copied().collect();
    assert_eq!(values, vec![7]);
    list.mutate_unless_mutating(false, |maybe_list| maybe_list.expect("handed the list").push_back(8));
    let values: Vec<u32> = list.get().expect("readable after the change").iter().copied().collect();
    assert_eq!(values, vec![7, 8]);
}
