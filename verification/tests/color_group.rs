use butabuti::color_group::{ColorGroup, ThreadGrouping};

#[test]
fn test_color_group_creation() {
    let group = ColorGroup::new("Test Group");
    assert_eq!(group.name, "Test Group");
    assert_eq!(group.thread_count(), 0);
    assert!(group.visible);
    assert!(!group.locked);
}

#[test]
fn test_color_group_with_threads() {
    let group = ColorGroup::with_threads("Test", vec![0, 1, 2]);
    assert_eq!(group.thread_count(), 3);
    assert!(group.contains_thread(0));
    assert!(group.contains_thread(1));
    assert!(group.contains_thread(2));
    assert!(!group.contains_thread(3));
}

#[test]
fn test_color_group_builder() {
    let group = ColorGroup::new("Test")
        .with_description("Test description")
        .with_display_order(5)
        .with_visibility(false)
        .with_locked(true);

    assert_eq!(group.description.unwrap(), "Test description");
    assert_eq!(group.display_order, 5);
    assert!(!group.visible);
    assert!(group.locked);
}

#[test]
fn test_add_remove_threads() {
    let mut group = ColorGroup::new("Test");
    assert!(group.add_thread(0));
    assert!(!group.add_thread(0));

    assert!(group.contains_thread(0));
    assert!(group.remove_thread(0));
    assert!(!group.contains_thread(0));
    assert!(!group.remove_thread(0));
}

#[test]
fn test_thread_indices_sorted() {
    let mut group = ColorGroup::new("Test");
    group.add_thread(5);
    group.add_thread(1);
    group.add_thread(3);

    let sorted = group.thread_indices_sorted();
    assert_eq!(sorted, vec![1, 3, 5]);
}

#[test]
fn test_metadata() {
    let mut group = ColorGroup::new("Test");
    group.set_metadata("key1", "value1");
    group.set_metadata("key2", "value2");

    assert_eq!(group.get_metadata("key1"), Some("value1"));
    assert_eq!(group.get_metadata("key2"), Some("value2"));
    assert_eq!(group.get_metadata("key3"), None);

    let removed = group.remove_metadata("key1");
    assert_eq!(removed, Some("value1".to_string()));
    assert_eq!(group.get_metadata("key1"), None);
}

#[test]
fn test_thread_grouping_creation() {
    let grouping = ThreadGrouping::new();
    assert_eq!(grouping.group_count(), 0);
    assert!(!grouping.has_default_group());
}

#[test]
fn test_thread_grouping_with_default() {
    let grouping = ThreadGrouping::with_default_group("Default");
    assert!(grouping.has_default_group());
    assert_eq!(grouping.default_group(), Some("Default"));
    assert_eq!(grouping.group_count(), 1);
}

#[test]
fn test_add_remove_groups() {
    let mut grouping = ThreadGrouping::new();
    grouping.add_group(ColorGroup::new("Group1"));
    grouping.add_group(ColorGroup::new("Group2"));

    assert_eq!(grouping.group_count(), 2);
    assert!(grouping.has_group("Group1"));
    assert!(grouping.has_group("Group2"));

    grouping.remove_group("Group1");
    assert_eq!(grouping.group_count(), 1);
    assert!(!grouping.has_group("Group1"));
}

#[test]
fn test_add_thread_to_group() {
    let mut grouping = ThreadGrouping::new();
    grouping.add_group(ColorGroup::new("Test"));

    let result = grouping.add_thread_to_group("Test", 5);
    assert!(result.is_ok());
    assert!(result.unwrap());

    let group = grouping.get_group("Test").unwrap();
    assert!(group.contains_thread(5));
}

#[test]
fn test_add_thread_to_nonexistent_group() {
    let mut grouping = ThreadGrouping::new();
    let result = grouping.add_thread_to_group("NonExistent", 0);
    assert!(result.is_err());
}

#[test]
fn test_find_groups_with_thread() {
    let mut grouping = ThreadGrouping::new();

    let mut group1 = ColorGroup::new("Group1");
    group1.add_thread(5);
    group1.add_thread(10);

    let mut group2 = ColorGroup::new("Group2");
    group2.add_thread(5);
    group2.add_thread(15);

    grouping.add_group(group1);
    grouping.add_group(group2);

    let groups = grouping.find_groups_with_thread(5);
    assert_eq!(groups.len(), 2);

    let groups = grouping.find_groups_with_thread(10);
    assert_eq!(groups.len(), 1);

    let groups = grouping.find_groups_with_thread(99);
    assert_eq!(groups.len(), 0);
}

#[test]
fn test_ungrouped_threads() {
    let mut grouping = ThreadGrouping::new();
    let mut group = ColorGroup::new("Test");
    group.add_thread(0);
    group.add_thread(2);
    group.add_thread(4);
    grouping.add_group(group);

    let ungrouped = grouping.ungrouped_threads(6);
    assert_eq!(ungrouped, vec![1, 3, 5]);
}

#[test]
fn test_assign_to_default_group() {
    let mut grouping = ThreadGrouping::with_default_group("Default");
    let mut group = ColorGroup::new("Custom");
    group.add_thread(0);
    group.add_thread(1);
    grouping.add_group(group);

    let assigned = grouping.assign_to_default_group(5).unwrap();
    assert_eq!(assigned, 3);

    let default_group = grouping.get_group("Default").unwrap();
    assert!(default_group.contains_thread(2));
    assert!(default_group.contains_thread(3));
    assert!(default_group.contains_thread(4));
}

#[test]
fn test_groups_sorted_by_order() {
    let mut grouping = ThreadGrouping::new();
    grouping.add_group(ColorGroup::new("C").with_display_order(3));
    grouping.add_group(ColorGroup::new("A").with_display_order(1));
    grouping.add_group(ColorGroup::new("B").with_display_order(2));

    let sorted = grouping.groups_sorted_by_order();
    assert_eq!(sorted[0].name, "A");
    assert_eq!(sorted[1].name, "B");
    assert_eq!(sorted[2].name, "C");
}

#[test]
fn test_validation() {
    let mut grouping = ThreadGrouping::new();
    grouping.add_group(ColorGroup::new("Valid"));
    grouping.add_group(ColorGroup::new("Child").with_parent("Valid"));
    grouping.add_group(ColorGroup::new("Orphan").with_parent("NonExistent"));

    let errors = grouping.validate();
    assert!(!errors.is_empty());
    assert!(errors.iter().any(|e| e.contains("invalid parent")));
}

#[test]
fn validation_reports_cycles_and_missing_default() {
    let mut grouping = ThreadGrouping::with_default_group("Gone");
    grouping.remove_group("Gone");
    grouping.add_group(ColorGroup::new("A").with_parent("B"));
    grouping.add_group(ColorGroup::new("B").with_parent("A"));
    let errors = grouping.validate();
    assert_eq!(errors.len(), 3);
    assert_eq!(
        errors[0],
        "Circular reference detected in group 'A' (chain involves: A → B)"
    );
    assert_eq!(
        errors[1],
        "Circular reference detected in group 'B' (chain involves: B → A)"
    );
    assert_eq!(errors[2], "Default group 'Gone' does not exist");
}

#[test]
fn validation_of_sound_grouping_is_empty() {
    let mut grouping = ThreadGrouping::with_default_group("Default");
    grouping.add_group(ColorGroup::new("Child").with_parent("Default"));
    assert!(grouping.validate().is_empty());
}

#[test]
fn add_group_replaces_same_name() {
    let mut grouping = ThreadGrouping::new();
    assert!(grouping.add_group(ColorGroup::with_threads("G", vec![1])).is_none());
    let old = grouping.add_group(ColorGroup::with_threads("G", vec![2, 3]));
    assert_eq!(old.unwrap().thread_count(), 1);
    assert_eq!(grouping.group_count(), 1);
    assert_eq!(grouping.get_group("G").unwrap().thread_count(), 2);
}

#[test]
fn remove_thread_from_group_reports_presence() {
    let mut grouping = ThreadGrouping::new();
    grouping.add_group(ColorGroup::with_threads("G", vec![4]));
    assert_eq!(grouping.remove_thread_from_group("G", 4), Ok(true));
    assert_eq!(grouping.remove_thread_from_group("G", 4), Ok(false));
    assert!(grouping.remove_thread_from_group("Missing", 4).is_err());
}

#[test]
fn assign_without_default_group_fails() {
    let mut grouping = ThreadGrouping::new();
    assert!(grouping.assign_to_default_group(3).is_err());
}

#[test]
fn all_grouped_threads_is_union() {
    let mut grouping = ThreadGrouping::new();
    grouping.add_group(ColorGroup::with_threads("A", vec![1, 2]));
    grouping.add_group(ColorGroup::with_threads("B", vec![2, 7]));
    let all = grouping.all_grouped_threads();
    assert_eq!(all.len(), 3);
    assert!(all.contains(&1) && all.contains(&2) && all.contains(&7));
    assert!(grouping.is_thread_grouped(7));
    assert!(!grouping.is_thread_grouped(3));
}

#[test]
fn merge_takes_other_groups() {
    let mut a = ThreadGrouping::new();
    a.add_group(ColorGroup::with_threads("X", vec![1]));
    let mut b = ThreadGrouping::new();
    b.add_group(ColorGroup::with_threads("X", vec![5, 6]));
    b.add_group(ColorGroup::new("Y"));
    a.merge(b);
    assert_eq!(a.group_count(), 2);
    assert_eq!(a.get_group("X").unwrap().thread_count(), 2);
}
