use std::collections::HashMap;
use switcheroo::catalog::{DisplayReport, SpaceReport};
use switcheroo::inventory::{
    get_apps, get_open_app_windows, take_inventory, AppReport, Snapshot, WindowReport,
};
use switcheroo::types::{Bounds, Error, Handle, Space, Window};

fn bounds(n: u64) -> Bounds {
    Bounds { x: n, y: n + 1, width: n + 2, height: n + 3 }
}

fn app(pid: i32, name: &str) -> AppReport {
    AppReport { pid, name: Some(name.to_string()), regular: true, terminated: false }
}

fn window(pid: i32, id: u32, title: &str) -> WindowReport {
    WindowReport {
        layer: 0,
        pid,
        title: Some(title.to_string()),
        id,
        bounds: Some(bounds(id as u64)),
    }
}

fn one_display(windows: &[u32]) -> Option<Vec<DisplayReport>> {
    Some(vec![DisplayReport {
        uuid: "Main".to_string(),
        spaces: vec![SpaceReport { id: 7, kind: 0, windows: Some(windows.to_vec()) }],
    }])
}

fn main_space() -> Space {
    Space { display: 1, display_uuid: "Main".to_string(), index: Some(1), id: 7 }
}

#[test]
fn windows_are_attached_to_their_applications() {
    let snapshot = Snapshot {
        displays: one_display(&[1, 2, 3]),
        apps: vec![app(10, "Editor"), app(20, "Browser")],
        windows: Some(vec![window(10, 1, "a.rs"), window(20, 2, "News"), window(10, 3, "b.rs")]),
    };
    let apps = get_open_app_windows(&snapshot).unwrap();
    assert_eq!(apps.len(), 2);
    assert_eq!(apps[&10].pid, 10);
    assert_eq!(apps[&10].name, "Editor");
    assert_eq!(
        apps[&10].windows,
        vec![
            Window {
                title: "a.rs".to_string(),
                id: 1,
                bounds: bounds(1),
                space: main_space(),
                handle: None
            },
            Window {
                title: "b.rs".to_string(),
                id: 3,
                bounds: bounds(3),
                space: main_space(),
                handle: None
            },
        ]
    );
    assert_eq!(apps[&20].windows.len(), 1);
    assert_eq!(apps[&20].windows[0].title, "News");
}

#[test]
fn a_menu_never_appears() {
    let mut menu = window(10, 2, "menu");
    menu.layer = 3;
    let snapshot = Snapshot {
        displays: one_display(&[1, 2]),
        apps: vec![app(10, "Editor")],
        windows: Some(vec![window(10, 1, "a.rs"), menu]),
    };
    let apps = get_open_app_windows(&snapshot).unwrap();
    assert_eq!(apps[&10].windows.len(), 1);
    assert_eq!(apps[&10].windows[0].id, 1);
}

#[test]
fn windows_outside_the_catalog_are_dropped() {
    let snapshot = Snapshot {
        displays: one_display(&[1]),
        apps: vec![app(10, "Editor")],
        windows: Some(vec![window(10, 1, "shown"), window(10, 9, "offscreen")]),
    };
    let apps = get_open_app_windows(&snapshot).unwrap();
    assert_eq!(apps[&10].windows.len(), 1);
    assert_eq!(apps[&10].windows[0].title, "shown");
}

#[test]
fn only_regular_running_applications_are_kept() {
    let mut agent = app(20, "Agent");
    agent.regular = false;
    let mut gone = app(30, "Gone");
    gone.terminated = true;
    let snapshot = Snapshot {
        displays: one_display(&[1, 2, 3]),
        apps: vec![app(10, "Editor"), agent, gone],
        windows: Some(vec![window(10, 1, "a"), window(20, 2, "b"), window(30, 3, "c")]),
    };
    let apps = get_open_app_windows(&snapshot).unwrap();
    assert_eq!(apps.len(), 1);
    assert!(apps.contains_key(&10));
}

#[test]
fn an_application_without_windows_is_still_listed() {
    let snapshot = Snapshot {
        displays: one_display(&[]),
        apps: vec![app(10, "Editor")],
        windows: Some(Vec::new()),
    };
    let apps = get_open_app_windows(&snapshot).unwrap();
    assert_eq!(apps[&10].windows.len(), 0);
}

#[test]
fn missing_texts_become_empty() {
    let snapshot = Snapshot {
        displays: one_display(&[1]),
        apps: vec![AppReport { pid: 10, name: None, regular: true, terminated: false }],
        windows: Some(vec![WindowReport {
            layer: 0,
            pid: 10,
            title: None,
            id: 1,
            bounds: Some(bounds(1)),
        }]),
    };
    let apps = get_open_app_windows(&snapshot).unwrap();
    assert_eq!(apps[&10].name, "");
    assert_eq!(apps[&10].windows[0].title, "");
}

#[test]
fn a_window_id_is_listed_once() {
    let snapshot = Snapshot {
        displays: one_display(&[1]),
        apps: vec![app(10, "Editor"), app(20, "Browser")],
        windows: Some(vec![window(10, 1, "first"), window(20, 1, "second"), window(10, 1, "third")]),
    };
    let apps = get_open_app_windows(&snapshot).unwrap();
    assert_eq!(apps[&10].windows.len(), 1);
    assert_eq!(apps[&10].windows[0].title, "first");
    assert_eq!(apps[&20].windows.len(), 0);
}

#[test]
fn an_entry_that_fails_the_filter_does_not_claim_its_id() {
    let mut panel = window(10, 1, "panel");
    panel.layer = 25;
    let snapshot = Snapshot {
        displays: one_display(&[1]),
        apps: vec![app(10, "Editor")],
        windows: Some(vec![panel, window(10, 1, "window")]),
    };
    let apps = get_open_app_windows(&snapshot).unwrap();
    assert_eq!(apps[&10].windows.len(), 1);
    assert_eq!(apps[&10].windows[0].title, "window");
}

#[test]
fn unreadable_bounds_of_a_listed_window_fail_the_enumeration() {
    let mut broken = window(10, 2, "broken");
    broken.bounds = None;
    let snapshot = Snapshot {
        displays: one_display(&[1, 2]),
        apps: vec![app(10, "Editor")],
        windows: Some(vec![window(10, 1, "fine"), broken]),
    };
    assert_eq!(get_open_app_windows(&snapshot), Err(Error::QueryFailure));
}

#[test]
fn unreadable_bounds_of_a_dropped_window_do_not_matter() {
    let mut menu = window(10, 2, "menu");
    menu.layer = 3;
    menu.bounds = None;
    let mut foreign = window(99, 1, "foreign");
    foreign.bounds = None;
    let snapshot = Snapshot {
        displays: one_display(&[1, 2]),
        apps: vec![app(10, "Editor")],
        windows: Some(vec![menu, foreign, window(10, 1, "fine")]),
    };
    let apps = get_open_app_windows(&snapshot).unwrap();
    assert_eq!(apps[&10].windows.len(), 1);
}

#[test]
fn invalid_queries_fail_the_enumeration() {
    let no_displays = Snapshot {
        displays: None,
        apps: vec![app(10, "Editor")],
        windows: Some(vec![window(10, 1, "a")]),
    };
    assert_eq!(get_open_app_windows(&no_displays), Err(Error::QueryFailure));
    let no_windows =
        Snapshot { displays: one_display(&[1]), apps: vec![app(10, "Editor")], windows: None };
    assert_eq!(get_open_app_windows(&no_windows), Err(Error::QueryFailure));
    let no_listing = Snapshot {
        displays: Some(vec![DisplayReport {
            uuid: "Main".to_string(),
            spaces: vec![SpaceReport { id: 7, kind: 0, windows: None }],
        }]),
        apps: vec![app(10, "Editor")],
        windows: Some(Vec::new()),
    };
    assert_eq!(get_open_app_windows(&no_listing), Err(Error::QueryFailure));
}

#[test]
fn the_later_report_of_a_process_counts() {
    let apps = get_apps(&vec![app(10, "Old"), app(20, "Other"), app(10, "New")]);
    assert_eq!(apps.len(), 2);
    assert_eq!(apps[&10].name, "New");
    assert_eq!(apps[&10].pid, 10);
    assert!(apps[&10].windows.is_empty());
}

#[test]
fn cached_handles_are_attached_and_the_roster_is_returned() {
    let snapshot = Snapshot {
        displays: one_display(&[1, 2]),
        apps: vec![app(10, "Editor"), app(20, "Browser")],
        windows: Some(vec![window(20, 2, "News"), window(10, 1, "a.rs"), window(30, 3, "x")]),
    };
    let mut handles = HashMap::new();
    handles.insert(1u32, Handle { pid: 10, index: 4 });
    handles.insert(8u32, Handle { pid: 10, index: 5 });
    let (apps, roster) = take_inventory(&snapshot, &handles).unwrap();
    assert_eq!(roster, vec![(20, 2), (10, 1)]);
    assert_eq!(apps[&10].windows[0].handle, Some(Handle { pid: 10, index: 4 }));
    assert_eq!(apps[&20].windows[0].handle, None);
}
