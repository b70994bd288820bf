use switcheroo::catalog::{build_catalog, is_countable, DisplayReport, SpaceReport};
use switcheroo::types::{Error, Space};

fn space(id: i64, kind: i64, windows: &[u32]) -> SpaceReport {
    SpaceReport { id, kind, windows: Some(windows.to_vec()) }
}

fn display(uuid: &str, spaces: Vec<SpaceReport>) -> DisplayReport {
    DisplayReport { uuid: uuid.to_string(), spaces }
}

#[test]
fn ordinals_run_across_displays() {
    let displays = vec![
        display("A", vec![space(10, 0, &[1]), space(11, 0, &[2]), space(12, 0, &[3])]),
        display("B", vec![space(20, 0, &[4]), space(21, 0, &[5]), space(22, 0, &[6])]),
    ];
    assert!(is_countable(&displays));
    let catalog = build_catalog(&displays).unwrap();
    assert_eq!(catalog.len(), 6);
    for window in 1u32..=6 {
        assert_eq!(catalog[&window].index, Some(window as u8));
    }
    assert_eq!(
        catalog[&1],
        Space { display: 1, display_uuid: "A".to_string(), index: Some(1), id: 10 }
    );
    assert_eq!(
        catalog[&6],
        Space { display: 2, display_uuid: "B".to_string(), index: Some(6), id: 22 }
    );
}

#[test]
fn other_spaces_get_no_ordinal_and_do_not_count() {
    let displays = vec![
        display("A", vec![space(10, 0, &[1]), space(11, 4, &[2]), space(12, 0, &[3])]),
        display("B", vec![space(20, 2, &[4]), space(21, 0, &[5])]),
    ];
    let catalog = build_catalog(&displays).unwrap();
    assert_eq!(catalog[&1].index, Some(1));
    assert_eq!(catalog[&2].index, None);
    assert_eq!(catalog[&3].index, Some(2));
    assert_eq!(catalog[&4].index, None);
    assert_eq!(catalog[&5].index, Some(3));
    assert_eq!(catalog[&2].id, 11);
    assert_eq!(catalog[&4].display, 2);
}

#[test]
fn a_window_listed_twice_belongs_to_the_last_space() {
    let displays = vec![
        display("A", vec![space(10, 0, &[1, 2]), space(11, 0, &[2])]),
        display("B", vec![space(20, 0, &[1])]),
    ];
    let catalog = build_catalog(&displays).unwrap();
    assert_eq!(catalog.len(), 2);
    assert_eq!(catalog[&2].id, 11);
    assert_eq!(catalog[&2].index, Some(2));
    assert_eq!(catalog[&1].id, 20);
    assert_eq!(catalog[&1].display, 2);
    assert_eq!(catalog[&1].display_uuid, "B");
}

#[test]
fn an_invalid_listing_aborts_the_catalog() {
    let displays = vec![
        display("A", vec![space(10, 0, &[1])]),
        display("B", vec![SpaceReport { id: 20, kind: 0, windows: None }, space(21, 0, &[2])]),
    ];
    assert_eq!(build_catalog(&displays), Err(Error::QueryFailure));
}

#[test]
fn empty_topology_gives_an_empty_catalog() {
    assert_eq!(build_catalog(&Vec::new()).unwrap().len(), 0);
    let displays = vec![display("A", Vec::new()), display("B", vec![space(1, 0, &[])])];
    assert_eq!(build_catalog(&displays).unwrap().len(), 0);
}

#[test]
fn counters_must_fit_eight_bits() {
    let mut many_displays = Vec::new();
    for i in 0..256 {
        many_displays.push(display("D", vec![space(i, 1, &[])]));
    }
    assert!(!is_countable(&many_displays));
    many_displays.pop();
    assert!(is_countable(&many_displays));

    let mut spaces = Vec::new();
    for i in 0..255 {
        spaces.push(space(i, 0, &[i as u32]));
    }
    let full = vec![display("A", spaces)];
    assert!(is_countable(&full));
    let catalog = build_catalog(&full).unwrap();
    assert_eq!(catalog[&254].index, Some(255));

    let mut spaces = Vec::new();
    for i in 0..200 {
        spaces.push(space(i, 0, &[]));
    }
    let mut more = Vec::new();
    for i in 0..56 {
        more.push(space(1000 + i, 0, &[]));
    }
    let over = vec![display("A", spaces), display("B", more)];
    assert!(!is_countable(&over));
}
