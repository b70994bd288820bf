use switcheroo::picker::{is_askable, match_window};
use switcheroo::types::{Bounds, Space, Window};

fn titled(title: &str) -> Window {
    Window {
        title: title.to_string(),
        id: 1,
        bounds: Bounds { x: 0, y: 0, width: 0, height: 0 },
        space: Space { display: 1, display_uuid: String::new(), index: Some(1), id: 1 },
        handle: None,
    }
}

struct Rng(u64);
impl Rng {
    fn next(&mut self) -> u64 {
        self.0 = self.0.wrapping_mul(6364136223846793005).wrapping_add(1442695040888963407);
        self.0 >> 33
    }
    fn pick<'a>(&mut self, items: &'a [&'a str]) -> &'a str {
        items[(self.next() % items.len() as u64) as usize]
    }
}

const HAY: &[&str] = &[
    "a", "b", "c", "A", "B", "C", "z", "Z", " ", "/", ",", ":", ";", "|", "-", "_", ".", "1", "9",
    "é", "É", "ß", "ǅ", "日", "本", "e\u{301}", "\u{301}", "ñ", "Ñ", "İ", "ı", "Ω", "ω", "\t", "a", "b",
    "👨\u{200d}👩", "🇩🇪", "\u{0}", "\u{7f}", "@", "[", "`", "{",
];
const NEEDLE: &[&str] = &[
    "a", "b", "c", "z", " ", "/", ",", ":", "-", "_", ".", "1", "9", "é", "É", "ß", "ǅ", "日",
    "e\u{301}", "\u{301}", "ñ", "Ñ", "İ", "ı", "Ω", "ω", "a", "b", "a", "b", "👨\u{200d}👩", "🇩🇪",
    "\u{0}", "@", "[", "`", "{", "\t",
];

/// Matches random askable queries against random names and titles.
fn sample(seed: u64, rounds: usize, max_hay: u64, max_needle: u64) {
    let mut rng = Rng(seed);
    for _ in 0..rounds {
        let mut name = String::new();
        for _ in 0..rng.next() % max_hay {
            name.push_str(rng.pick(HAY));
        }
        let mut title = String::new();
        for _ in 0..rng.next() % max_hay {
            title.push_str(rng.pick(HAY));
        }
        let mut query = String::new();
        let from_hay = rng.next() % 3 == 0;
        for _ in 0..rng.next() % max_needle {
            if from_hay {
                query.push_str(&rng.pick(HAY).to_lowercase());
            } else {
                query.push_str(rng.pick(NEEDLE));
            }
        }
        if !is_askable(&query) {
            continue;
        }
        let _ = match_window(1, &name, &titled(&title), &query);
    }
}

#[test]
fn short_askable_queries_are_taken() {
    sample(1, 50000, 8, 5);
}

#[test]
fn longer_askable_queries_are_taken() {
    sample(2, 10000, 40, 12);
}

#[test]
fn folded_subsequences_of_the_name_are_taken() {
    let mut rng = Rng(3);
    for _ in 0..15000 {
        let mut name = String::new();
        let mut query = String::new();
        for _ in 0..rng.next() % 30 {
            let piece = rng.pick(HAY);
            name.push_str(piece);
            if rng.next() % 3 == 0 {
                for c in piece.chars() {
                    query.push(c.to_ascii_lowercase());
                }
            }
        }
        assert!(is_askable(&query));
        let _ = match_window(1, &name, &titled(""), &query);
    }
}

#[test]
fn queries_at_the_limit_are_taken() {
    for n in [2519usize, 2520] {
        let query = " ".repeat(n);
        for name in [" ".repeat(n), " ".repeat(n + 5), format!("a{}", " ".repeat(n))] {
            assert!(match_window(1, &name, &titled(""), &query).is_some());
        }
    }
    for n in [2047usize, 2048, 2049, 2520] {
        let query = "a".repeat(n);
        for name in [" a".repeat(n), "/a".repeat(n), "A".repeat(n + 1)] {
            let hit = match_window(1, &name, &titled(""), &query).unwrap();
            assert_eq!(hit.indices.len(), n);
            assert!(hit.score <= 65535);
        }
    }
}
