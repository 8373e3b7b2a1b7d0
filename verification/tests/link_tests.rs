use kitties::link::LinkedList;

#[test]
fn empty_list_has_no_members() {
    let ll = LinkedList::new();
    assert_eq!(ll.members(7), Vec::<u64>::new());
    assert!(!ll.contains(7, 1));
}

#[test]
fn append_inserts_at_head() {
    let mut ll = LinkedList::new();
    assert!(ll.append(7, 1));
    assert!(ll.append(7, 2));
    assert!(ll.append(7, 3));
    assert_eq!(ll.members(7), vec![3, 2, 1]);
    assert!(ll.contains(7, 1));
    assert!(ll.contains(7, 2));
    assert!(ll.contains(7, 3));
    assert!(!ll.contains(7, 4));
    assert!(!ll.contains(8, 1));
}

#[test]
fn duplicate_append_is_rejected() {
    let mut ll = LinkedList::new();
    assert!(ll.append(7, 1));
    assert!(!ll.append(7, 1));
    assert_eq!(ll.members(7), vec![1]);
}

#[test]
fn backward_walk_reverses_forward_walk() {
    let mut ll = LinkedList::new();
    ll.append(7, 1);
    ll.append(7, 2);
    ll.append(7, 3);
    assert_eq!(ll.members(7), vec![3, 2, 1]);
    assert_eq!(ll.members_back(7), vec![1, 2, 3]);
}

#[test]
fn remove_head_relinks() {
    let mut ll = LinkedList::new();
    ll.append(7, 1);
    ll.append(7, 2);
    ll.append(7, 3);
    assert!(ll.remove(7, 3));
    assert_eq!(ll.members(7), vec![2, 1]);
    assert_eq!(ll.members_back(7), vec![1, 2]);
}

#[test]
fn remove_middle_relinks() {
    let mut ll = LinkedList::new();
    ll.append(7, 1);
    ll.append(7, 2);
    ll.append(7, 3);
    assert!(ll.remove(7, 2));
    assert_eq!(ll.members(7), vec![3, 1]);
    assert_eq!(ll.members_back(7), vec![1, 3]);
    assert!(!ll.contains(7, 2));
}

#[test]
fn remove_tail_relinks() {
    let mut ll = LinkedList::new();
    ll.append(7, 1);
    ll.append(7, 2);
    ll.append(7, 3);
    assert!(ll.remove(7, 1));
    assert_eq!(ll.members(7), vec![3, 2]);
    assert_eq!(ll.members_back(7), vec![2, 3]);
}

#[test]
fn remove_only_member_empties_list() {
    let mut ll = LinkedList::new();
    ll.append(7, 1);
    assert!(ll.remove(7, 1));
    assert_eq!(ll.members(7), Vec::<u64>::new());
    assert!(!ll.contains(7, 1));
    assert!(ll.append(7, 1));
    assert_eq!(ll.members(7), vec![1]);
}

#[test]
fn remove_absent_is_reported_and_harmless() {
    let mut ll = LinkedList::new();
    ll.append(7, 1);
    assert!(!ll.remove(7, 9));
    assert!(!ll.remove(8, 1));
    assert_eq!(ll.members(7), vec![1]);
}

#[test]
fn lists_under_different_identities_are_independent() {
    let mut ll = LinkedList::new();
    ll.append(1, 10);
    ll.append(2, 20);
    ll.append(1, 11);
    assert_eq!(ll.members(1), vec![11, 10]);
    assert_eq!(ll.members(2), vec![20]);
    ll.remove(1, 10);
    assert_eq!(ll.members(1), vec![11]);
    assert_eq!(ll.members(2), vec![20]);
}

#[test]
fn interleaved_appends_and_removes_keep_the_walk_exact() {
    let mut ll = LinkedList::new();
    for v in [1u64, 2, 3, 4, 5] {
        assert!(ll.append(0, v));
    }
    assert_eq!(ll.members(0), vec![5, 4, 3, 2, 1]);
    assert!(ll.remove(0, 3));
    assert!(ll.remove(0, 5));
    assert!(ll.append(0, 6));
    assert_eq!(ll.members(0), vec![6, 4, 2, 1]);
    assert_eq!(ll.members_back(0), vec![1, 2, 4, 6]);
    assert!(ll.remove(0, 1));
    assert!(ll.remove(0, 4));
    assert_eq!(ll.members(0), vec![6, 2]);
    assert_eq!(ll.members_back(0), vec![2, 6]);
}
