use std::collections::HashMap;
use nucleo_matcher::{Config, Matcher, Utf32String};
use switcheroo::picker::{
    get_filtered_items, is_askable, is_matchable, is_searchable, make_item, match_window,
    select_first, select_next, select_prev, QUERY_LIMIT,
};
use switcheroo::ranking::{bytes_before, item_before, rank, text_before, Item};
use switcheroo::types::{App, Bounds, Space, Window};

fn window(id: u32, title: &str) -> Window {
    Window {
        title: title.to_string(),
        id,
        bounds: Bounds { x: 0, y: 0, width: 0, height: 0 },
        space: Space { display: 1, display_uuid: String::new(), index: Some(1), id: 1 },
        handle: None,
    }
}

fn inventory() -> HashMap<i32, App> {
    let mut apps = HashMap::new();
    apps.insert(
        10,
        App {
            pid: 10,
            name: "Firefox".to_string(),
            windows: vec![window(1, "Rust documentation"), window(2, "Weather")],
        },
    );
    apps.insert(
        20,
        App { pid: 20, name: "Terminal".to_string(), windows: vec![window(3, "cargo build")] },
    );
    apps.insert(30, App { pid: 30, name: "Finder".to_string(), windows: Vec::new() });
    apps
}

fn item(score: u32, name: &str, title: &str, window: u32) -> Item {
    Item {
        pid: 1,
        window,
        name: name.to_string(),
        title: title.to_string(),
        score,
        indices: Vec::new(),
    }
}

fn reference(haystack: &str, needle: &str) -> Option<(u16, Vec<u32>)> {
    let mut matcher = Matcher::new(Config::DEFAULT);
    let haystack = Utf32String::from(haystack);
    let needle = Utf32String::from(needle);
    let mut indices = Vec::new();
    matcher
        .fuzzy_indices(haystack.slice(..), needle.slice(..), &mut indices)
        .map(|score| (score, indices))
}

#[test]
fn without_a_query_every_window_is_listed() {
    let items = get_filtered_items(&inventory(), &String::new());
    assert_eq!(
        items,
        vec![
            Item {
                pid: 10,
                window: 1,
                name: "Firefox".to_string(),
                title: "Rust documentation".to_string(),
                score: 0,
                indices: Vec::new()
            },
            Item {
                pid: 10,
                window: 2,
                name: "Firefox".to_string(),
                title: "Weather".to_string(),
                score: 0,
                indices: Vec::new()
            },
            Item {
                pid: 20,
                window: 3,
                name: "Terminal".to_string(),
                title: "cargo build".to_string(),
                score: 0,
                indices: Vec::new()
            },
        ]
    );
}

#[test]
fn a_query_keeps_the_matching_windows_with_score_and_positions() {
    let items = get_filtered_items(&inventory(), &"rust".to_string());
    assert_eq!(items.len(), 1);
    let (score, indices) = reference("Firefox Rust documentation", "rust").unwrap();
    assert!(score > 0);
    assert_eq!(indices, vec![8, 9, 10, 11]);
    assert_eq!(
        items[0],
        Item {
            pid: 10,
            window: 1,
            name: "Firefox".to_string(),
            title: "Rust documentation".to_string(),
            score: score as u32,
            indices,
        }
    );
}

#[test]
fn a_query_ranks_by_score_first() {
    let items = get_filtered_items(&inventory(), &"r".to_string());
    let mut expected: Vec<(u32, String, String)> = Vec::new();
    for (name, title) in
        [("Firefox", "Rust documentation"), ("Firefox", "Weather"), ("Terminal", "cargo build")]
    {
        if let Some((score, _)) = reference(&format!("{} {}", name, title), "r") {
            expected.push((score as u32, name.to_string(), title.to_string()));
        }
    }
    expected.sort_by(|a, b| b.0.cmp(&a.0).then_with(|| a.1.cmp(&b.1)).then_with(|| a.2.cmp(&b.2)));
    let got: Vec<(u32, String, String)> =
        items.iter().map(|i| (i.score, i.name.clone(), i.title.clone())).collect();
    assert_eq!(got, expected);
    assert_eq!(got.len(), 3);
}

#[test]
fn a_query_that_matches_nothing_lists_nothing() {
    assert!(get_filtered_items(&inventory(), &"zzzz".to_string()).is_empty());
    assert_eq!(reference("Firefox Weather", "zzzz"), None);
}

#[test]
fn one_window_against_the_matcher() {
    let shown = window(7, "Inbox");
    let name = "Mail".to_string();
    let hit = match_window(5, &name, &shown, &"mi".to_string()).unwrap();
    let (score, indices) = reference("Mail Inbox", "mi").unwrap();
    assert_eq!(hit.score, score as u32);
    assert_eq!(hit.indices, indices);
    assert_eq!((hit.pid, hit.window), (5, 7));
    assert_eq!(match_window(5, &name, &shown, &"xq".to_string()), None);
    let plain = match_window(5, &name, &shown, &String::new()).unwrap();
    assert_eq!((plain.score, plain.indices.len()), (0, 0));
}

#[test]
fn items_are_made_from_what_the_matcher_found() {
    let shown = window(7, "Inbox");
    let name = "Mail".to_string();
    let query = "in".to_string();
    assert_eq!(make_item(5, &name, &shown, &query, None), None);
    assert_eq!(
        make_item(5, &name, &shown, &query, Some((65535, vec![5, 6]))),
        Some(Item {
            pid: 5,
            window: 7,
            name: "Mail".to_string(),
            title: "Inbox".to_string(),
            score: 65535,
            indices: vec![5, 6]
        })
    );
    assert_eq!(
        make_item(5, &name, &shown, &String::new(), Some((9, vec![1]))),
        Some(Item {
            pid: 5,
            window: 7,
            name: "Mail".to_string(),
            title: "Inbox".to_string(),
            score: 0,
            indices: Vec::new()
        })
    );
}

#[test]
fn ranking_orders_by_score_then_name_then_title() {
    let ranked = rank(vec![
        item(10, "Mail", "b", 1),
        item(30, "Zed", "z", 2),
        item(10, "Mail", "a", 3),
        item(10, "Atom", "z", 4),
        item(30, "Zed", "a", 5),
        item(20, "Mail", "a", 6),
    ]);
    let order: Vec<u32> = ranked.iter().map(|i| i.window).collect();
    assert_eq!(order, vec![5, 2, 6, 4, 3, 1]);
}

#[test]
fn ranking_is_stable() {
    let ranked = rank(vec![
        item(5, "Same", "same", 1),
        item(9, "Top", "", 2),
        item(5, "Same", "same", 3),
        item(5, "Same", "same", 4),
    ]);
    let order: Vec<u32> = ranked.iter().map(|i| i.window).collect();
    assert_eq!(order, vec![2, 1, 3, 4]);
    assert!(rank(Vec::new()).is_empty());
}

#[test]
fn texts_are_ordered_as_strings_are() {
    let texts = ["", "a", "A", "ab", "abc", "b", "Zed", "zed", "é", "e", "ez", "日本", "~", "a b"];
    for a in texts {
        for b in texts {
            assert_eq!(text_before(&a.to_string(), &b.to_string()), a < b, "{:?} {:?}", a, b);
            assert_eq!(bytes_before(a.as_bytes(), b.as_bytes()), a.as_bytes() < b.as_bytes());
        }
    }
}

#[test]
fn items_compare_by_their_keys() {
    assert!(item_before(&item(2, "b", "b", 0), &item(1, "a", "a", 0)));
    assert!(!item_before(&item(1, "a", "a", 0), &item(2, "b", "b", 0)));
    assert!(item_before(&item(1, "a", "z", 0), &item(1, "b", "a", 0)));
    assert!(item_before(&item(1, "a", "a", 0), &item(1, "a", "b", 0)));
    assert!(!item_before(&item(1, "a", "a", 1), &item(1, "a", "a", 2)));
}

#[test]
fn the_selection_moves_within_the_list() {
    assert_eq!(select_first(0), None);
    assert_eq!(select_first(3), Some(0));

    assert_eq!(select_next(None, 3), Some(0));
    assert_eq!(select_next(Some(0), 3), Some(1));
    assert_eq!(select_next(Some(2), 3), Some(2));
    assert_eq!(select_next(Some(7), 3), Some(2));
    assert_eq!(select_next(Some(usize::MAX), 3), Some(2));
    assert_eq!(select_next(Some(1), 0), Some(1));
    assert_eq!(select_next(None, 0), None);

    assert_eq!(select_prev(Some(2), 3), Some(1));
    assert_eq!(select_prev(Some(0), 3), Some(0));
    assert_eq!(select_prev(None, 3), Some(0));
    assert_eq!(select_prev(Some(2), 0), None);
}

#[test]
fn ordinary_inventories_are_searchable() {
    assert!(is_searchable(&inventory()));
    assert!(is_searchable(&HashMap::new()));
    assert!(is_matchable(&"Firefox".to_string(), &"日本語".to_string()));
}

#[test]
fn queries_that_the_matcher_takes() {
    assert_eq!(QUERY_LIMIT, 2520);
    assert!(is_askable(&String::new()));
    assert!(is_askable(&"rust docs 42".to_string()));
    assert!(is_askable(&"é日本 [x]".to_string()));
    assert!(is_askable(&"É".to_string()));
    assert!(!is_askable(&"Rust".to_string()));
    assert!(!is_askable(&"rusT".to_string()));
    assert!(!is_askable(&"A".to_string()));
    assert!(!is_askable(&"Z".to_string()));
    assert!(is_askable(&"@[`{".to_string()));
    assert!(is_askable(&"a".repeat(2520)));
    assert!(!is_askable(&"a".repeat(2521)));
    assert!(is_askable(&"é".repeat(2520)));
    assert!(!is_askable(&"é".repeat(2521)));
}

#[test]
fn the_longest_query_is_scored_without_overflow() {
    let shown = window(7, &"a".repeat(2519));
    let query = format!(" {}", "a".repeat(2519));
    assert!(is_askable(&query));
    let hit = match_window(5, &String::new(), &shown, &query).unwrap();
    assert_eq!(hit.score, 65530);
    assert_eq!(hit.indices.len(), 2520);
}

#[test]
fn askable_queries_meet_names_in_any_case() {
    let names = ["Abab", "ABAB", "abab", "Ab Cd", "aB-cD", "Émile Zola", "日本語 Abc", "a_b.C/d"];
    let queries = ["ab", "abab", "b", "a b", "ac", "bd", "é", "émile", "zola", "日", "abc", "-", "e z"];
    for name in names {
        for query in queries {
            let shown = window(1, "");
            let got = match_window(1, &name.to_string(), &shown, &query.to_string());
            let expected = reference(&format!("{} ", name), query);
            assert_eq!(got.map(|i| (i.score, i.indices)), expected.map(|(s, i)| (s as u32, i)));
        }
    }
    let hit = match_window(1, &"Abab".to_string(), &window(1, ""), &"ab".to_string()).unwrap();
    assert_eq!(hit.indices, vec![0, 1]);
}
