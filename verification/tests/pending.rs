use std::collections::HashMap;
use switcheroo::icon::IconData;
use switcheroo::inventory::AppReport;
use switcheroo::pending::{group_by_pid, iconless_apps, unresolved_entries, Group};
use switcheroo::types::Handle;

#[test]
fn entries_are_grouped_by_owner_in_order_of_first_appearance() {
    let groups = group_by_pid(&vec![(3, 30), (1, 10), (3, 31), (2, 20), (1, 11), (3, 32)]);
    assert_eq!(
        groups,
        vec![
            Group { pid: 3, windows: vec![30, 31, 32] },
            Group { pid: 1, windows: vec![10, 11] },
            Group { pid: 2, windows: vec![20] },
        ]
    );
    assert_eq!(group_by_pid(&Vec::new()), Vec::new());
}

#[test]
fn only_windows_without_a_handle_are_unresolved() {
    let mut handles = HashMap::new();
    handles.insert(11u32, Handle { pid: 1, index: 0 });
    let roster = vec![(1, 10), (1, 11), (2, 20)];
    assert_eq!(unresolved_entries(&roster, &handles), vec![(1, 10), (2, 20)]);
    assert_eq!(unresolved_entries(&roster, &HashMap::new()), roster);
}

#[test]
fn each_kept_application_without_icon_is_named_once() {
    let report = |pid: i32, regular: bool, terminated: bool| AppReport {
        pid,
        name: None,
        regular,
        terminated,
    };
    let reports = vec![
        report(5, true, false),
        report(6, false, false),
        report(7, true, true),
        report(8, true, false),
        report(5, true, false),
        report(9, true, false),
    ];
    let mut icons = HashMap::new();
    icons.insert(8, IconData { width: 0, height: 0, rgba: Vec::new() });
    assert_eq!(iconless_apps(&reports, &icons), vec![5, 9]);
}
