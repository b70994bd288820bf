//! The picker's list: the windows that match a query, ranked, and the moves
//! of the selection through that list.

use std::collections::HashMap;
use nucleo_matcher::{Config, Matcher, Utf32String};
use vstd::prelude::*;
use vstd::std_specs::iter::IteratorSpec;
use vstd::string::{StrSliceExecFns, StringExecFns};
use crate::inventory::app_views;
use crate::ranking::{item_views, rank, ranked, Item, ItemView};
use crate::types::{App, AppView, Window, WindowView};

verus! {

/// What the fuzzy matcher makes of a haystack and a needle: nothing where the
/// needle does not match, else the score of the best match and the positions
/// of the matches in the haystack. The matcher counts positions in grapheme
/// clusters, of each of which it reads the first code point: in a text with
/// combining marks they are not positions of characters.
pub uninterp spec fn fuzzy_match(haystack: Seq<char>, needle: Seq<char>) -> Option<
    (u16, Seq<u32>),
>;

/// The number of characters that a query may have at most. The matcher adds
/// up to 26 to a 16-bit score for each matched character and 10 more for the
/// first, so a longer query can overflow the score.
pub const QUERY_LIMIT: usize = 2520;

/// Whether the matcher takes the query: it has at most `QUERY_LIMIT`
/// characters and no upper-case letter from `A` to `Z`. The matcher folds the
/// case of the haystack and expects a needle that is folded already.
pub open spec fn askable(query: Seq<char>) -> bool {
    query.len() <= QUERY_LIMIT && forall|i: int|
        0 <= i < query.len() ==> !('A' <= #[trigger] query[i] <= 'Z')
}

/// Runs `nucleo_matcher::Matcher::fuzzy_indices` of a matcher with the default
/// configuration on the haystack and the needle, each turned into a
/// `Utf32String`, with an empty vector for the indices. The contract claims
/// that the outcome depends on the two texts alone and gives it the name
/// `fuzzy_match`. It leaves out the inputs on which the matcher panics: a
/// haystack of more than `u32::MAX` characters, a needle with an upper-case
/// letter from `A` to `Z`, and a needle so long that its score can overflow.
#[verifier::external_body]
fn fuzzy_indices(haystack: &str, needle: &str) -> (out: Option<(u16, Vec<u32>)>)
    requires
        haystack@.len() <= u32::MAX,
        askable(needle@),
    ensures
        out is Some <==> fuzzy_match(haystack@, needle@) is Some,
        out matches Some(found) ==> fuzzy_match(haystack@, needle@) == Some((found.0, found.1@)),
{
    let mut matcher = Matcher::new(Config::DEFAULT);
    let haystack = Utf32String::from(haystack);
    let needle = Utf32String::from(needle);
    let mut indices: Vec<u32> = Vec::new();
    match matcher.fuzzy_indices(haystack.slice(..), needle.slice(..), &mut indices) {
        Some(score) => Some((score, indices)),
        None => None,
    }
}

/// The text that a query is matched against: the application's name, a blank
/// and the window's title.
pub open spec fn search_text(name: Seq<char>, title: Seq<char>) -> Seq<char> {
    name + seq![' '] + title
}

/// Whether the matcher takes the search text of this name and title.
pub open spec fn matchable(name: Seq<char>, title: Seq<char>) -> bool {
    search_text(name, title).len() <= u32::MAX
}

/// The item that a window becomes, given what the matcher found in its search
/// text: without a query every window is an item of score 0 with nothing
/// marked; with a query a window is an item exactly when the matcher found a
/// match, with the score and the positions it found.
pub open spec fn item_from(
    pid: i32,
    name: Seq<char>,
    window: WindowView,
    query: Seq<char>,
    found: Option<(u16, Seq<u32>)>,
) -> Option<ItemView> {
    if query.len() == 0 {
        Some(
            ItemView {
                pid,
                window: window.id,
                name,
                title: window.title,
                score: 0,
                indices: Seq::empty(),
            },
        )
    } else {
        match found {
            Some((score, indices)) => Some(
                ItemView {
                    pid,
                    window: window.id,
                    name,
                    title: window.title,
                    score: score as u32,
                    indices,
                },
            ),
            None => None,
        }
    }
}

/// The item that a window becomes for a query.
pub open spec fn item_of(pid: i32, name: Seq<char>, window: WindowView, query: Seq<char>) -> Option<
    ItemView,
> {
    item_from(pid, name, window, query, fuzzy_match(search_text(name, window.title), query))
}

/// The items of the first `n` windows of an application, in their order.
pub open spec fn app_items(pid: i32, app: AppView, query: Seq<char>, n: int) -> Seq<ItemView>
    decreases n,
{
    if n <= 0 {
        Seq::empty()
    } else {
        match item_of(pid, app.name, app.windows[n - 1], query) {
            Some(item) => app_items(pid, app, query, n - 1).push(item),
            None => app_items(pid, app, query, n - 1),
        }
    }
}

/// The items of the first `n` applications of a walk through the inventory.
pub open spec fn candidates_before(
    apps: Map<i32, AppView>,
    walk: Seq<i32>,
    query: Seq<char>,
    n: int,
) -> Seq<ItemView>
    decreases n,
{
    if n <= 0 {
        Seq::empty()
    } else {
        candidates_before(apps, walk, query, n - 1) + app_items(
            walk[n - 1],
            apps[walk[n - 1]],
            query,
            apps[walk[n - 1]].windows.len() as int,
        )
    }
}

/// The items of all applications, visited in the order of `walk`.
pub open spec fn candidates(apps: Map<i32, AppView>, walk: Seq<i32>, query: Seq<char>) -> Seq<
    ItemView,
> {
    candidates_before(apps, walk, query, walk.len() as int)
}

/// Whether the matcher takes the search text of every window.
pub open spec fn searchable(apps: Map<i32, AppView>) -> bool {
    forall|pid: i32, i: int|
        apps.contains_key(pid) && 0 <= i < apps[pid].windows.len() ==> matchable(
            apps[pid].name,
            (#[trigger] apps[pid].windows[i]).title,
        )
}

/// Tells whether the matcher takes the query, which `get_filtered_items` asks
/// of it.
pub fn is_askable(query: &String) -> (ok: bool)
    ensures
        ok == askable(query@),
{
    let text = query.as_str();
    let len = text.unicode_len();
    if len > QUERY_LIMIT {
        return false;
    }
    let mut i: usize = 0;
    while i < len
        invariant
            i <= len,
            len == text@.len(),
            text@ == query@,
            len <= QUERY_LIMIT,
            forall|k: int| 0 <= k < i ==> !('A' <= #[trigger] query@[k] <= 'Z'),
        decreases len - i,
    {
        let c = text.get_char(i);
        if 'A' <= c && c <= 'Z' {
            return false;
        }
        i = i + 1;
    }
    true
}

/// Tells whether the matcher takes the search text of this name and title.
pub fn is_matchable(name: &String, title: &String) -> (ok: bool)
    ensures
        ok == matchable(name@, title@),
{
    let name_len = name.as_str().unicode_len();
    let title_len = title.as_str().unicode_len();
    name_len < 0xffff_ffff && title_len < 0xffff_ffff && name_len as u64 + 1 + title_len as u64
        <= 0xffff_ffff
}

/// Tells whether the matcher takes the search text of every window, which
/// `get_filtered_items` asks of the inventory.
pub fn is_searchable(apps: &HashMap<i32, App>) -> (ok: bool)
    ensures
        ok == searchable(app_views(apps@)),
{
    broadcast use vstd::std_specs::hash::group_hash_axioms;

    let ghost keys = apps.keys().remaining();
    let ghost views = app_views(apps@);
    proof {
        assert forall|k: int| 0 <= k < keys.len() implies views.contains_key(
            *#[trigger] keys[k],
        ) by {
            assert(keys.unref()[k] == *keys[k]);
            assert(keys.unref().to_set().contains(*keys[k]));
        }
    }
    for pid in it: apps.keys()
        invariant
            it.seq() == keys,
            keys.unref().to_set() == apps@.dom(),
            views == app_views(apps@),
            forall|k: int| 0 <= k < keys.len() ==> views.contains_key(*#[trigger] keys[k]),
            forall|k: int, i: int|
                0 <= k < it.index() && 0 <= i < views[*keys[k]].windows.len() ==> matchable(
                    views[*keys[k]].name,
                    (#[trigger] views[*keys[k]].windows[i]).title,
                ),
    {
        assert(keys.unref()[it.index() as int] == *pid);
        assert(keys.unref().to_set().contains(*pid));
        let app = apps.get(pid).unwrap();
        assert(views.contains_key(*pid));
        assert(views[*pid] == app@);
        let mut i: usize = 0;
        while i < app.windows.len()
            invariant
                i <= app.windows.len(),
                app@.windows.len() == app.windows.len(),
                views == app_views(apps@),
                views.contains_key(*pid),
                views[*pid] == app@,
                forall|k: int|
                    0 <= k < i ==> matchable(app@.name, (#[trigger] app@.windows[k]).title),
            decreases app.windows.len() - i,
        {
            assert(app@.windows[i as int] == app.windows@[i as int]@);
            if !is_matchable(&app.name, &app.windows[i].title) {
                assert(views.contains_key(*pid) && 0 <= i < views[*pid].windows.len()
                    && !matchable(views[*pid].name, views[*pid].windows[i as int].title));
                return false;
            }
            i = i + 1;
        }
    }
    assert forall|pid: i32, i: int|
        views.contains_key(pid) && 0 <= i < views[pid].windows.len() implies matchable(
        views[pid].name,
        (#[trigger] views[pid].windows[i]).title,
    ) by {
        assert(keys.unref().to_set().contains(pid));
        let k = choose|k: int| 0 <= k < keys.unref().len() && keys.unref()[k] == pid;
        assert(*keys[k] == pid);
    }
    true
}

/// Makes the item of a window from what the matcher found in its search
/// text.
pub fn make_item(
    pid: i32,
    name: &String,
    window: &Window,
    query: &String,
    found: Option<(u16, Vec<u32>)>,
) -> (out: Option<Item>)
    ensures
        out is Some <==> item_from(
            pid,
            name@,
            window@,
            query@,
            match found {
                Some(pair) => Some((pair.0, pair.1@)),
                None => None,
            },
        ) is Some,
        out matches Some(item) ==> Some(item@) == item_from(
            pid,
            name@,
            window@,
            query@,
            match found {
                Some(pair) => Some((pair.0, pair.1@)),
                None => None,
            },
        ),
{
    if query.as_str().is_empty() {
        Some(
            Item {
                pid,
                window: window.id,
                name: name.clone(),
                title: window.title.clone(),
                score: 0,
                indices: Vec::new(),
            },
        )
    } else {
        match found {
            Some((score, indices)) => Some(
                Item {
                    pid,
                    window: window.id,
                    name: name.clone(),
                    title: window.title.clone(),
                    score: score as u32,
                    indices,
                },
            ),
            None => None,
        }
    }
}

/// The item of a window for a query, if the window matches it.
pub fn match_window(pid: i32, name: &String, window: &Window, query: &String) -> (out: Option<
    Item,
>)
    requires
        matchable(name@, window@.title),
        askable(query@),
    ensures
        out is Some <==> item_of(pid, name@, window@, query@) is Some,
        out matches Some(item) ==> Some(item@) == item_of(pid, name@, window@, query@),
{
    let found = if query.as_str().is_empty() {
        None
    } else {
        proof {
            reveal_strlit(" ");
            assert(" "@ =~= seq![' ']);
        }
        let text = name.clone().concat(" ").concat(window.title.as_str());
        assert(text@ =~= search_text(name@, window@.title));
        fuzzy_indices(text.as_str(), query.as_str())
    };
    make_item(pid, name, window, query, found)
}

/// The items of one application for a query, in the order of its windows.
pub fn match_app(pid: i32, app: &App, query: &String) -> (out: Vec<Item>)
    requires
        forall|i: int|
            0 <= i < app@.windows.len() ==> matchable(app@.name, (#[trigger] app@.windows[i]).title),
        askable(query@),
    ensures
        item_views(out@) == app_items(pid, app@, query@, app@.windows.len() as int),
{
    let mut out: Vec<Item> = Vec::new();
    let mut i: usize = 0;
    assert(item_views(out@) =~= app_items(pid, app@, query@, 0));
    while i < app.windows.len()
        invariant
            i <= app.windows.len(),
            app@.windows.len() == app.windows.len(),
            forall|k: int|
                0 <= k < app@.windows.len() ==> matchable(
                    app@.name,
                    (#[trigger] app@.windows[k]).title,
                ),
            askable(query@),
            item_views(out@) == app_items(pid, app@, query@, i as int),
        decreases app.windows.len() - i,
    {
        assert(app@.windows[i as int] == app.windows@[i as int]@);
        let ghost before = out@;
        match match_window(pid, &app.name, &app.windows[i], query) {
            Some(item) => {
                out.push(item);
                assert(item_views(out@) =~= item_views(before).push(item@));
            },
            None => {},
        }
        i = i + 1;
    }
    out
}

/// The windows of the inventory that match the query, ranked: by descending
/// score, then by application name, then by window title. Without a query
/// every window is listed. The inventory must be searchable and the query
/// askable, which `is_searchable` and `is_askable` tell. The applications are visited in the order in which
/// the inventory hands them out; items that agree in score, name and title
/// stay in the order of that visit.
pub fn get_filtered_items(apps: &HashMap<i32, App>, query: &String) -> (out: Vec<Item>)
    requires
        searchable(app_views(apps@)),
        askable(query@),
    ensures
        exists|walk: Seq<i32>|
            walk.no_duplicates() && walk.to_set() == apps@.dom() && ranked(
                #[trigger] candidates(app_views(apps@), walk, query@),
                item_views(out@),
            ),
{
    broadcast use vstd::std_specs::hash::group_hash_axioms;

    let mut items: Vec<Item> = Vec::new();
    let ghost keys = apps.keys().remaining();
    let ghost walk = keys.unref();
    let ghost views = app_views(apps@);
    assert(item_views(items@) =~= candidates_before(views, walk, query@, 0));
    for pid in it: apps.keys()
        invariant
            it.seq() == keys,
            walk == keys.unref(),
            walk.to_set() == apps@.dom(),
            views == app_views(apps@),
            searchable(views),
            askable(query@),
            item_views(items@) == candidates_before(views, walk, query@, it.index() as int),
    {
        assert(walk[it.index() as int] == *pid);
        assert(walk.to_set().contains(*pid));
        let app = apps.get(pid).unwrap();
        proof {
            assert(views[*pid] == app@);
            assert forall|i: int| 0 <= i < app@.windows.len() implies matchable(
                app@.name,
                (#[trigger] app@.windows[i]).title,
            ) by {
                assert(matchable(views[*pid].name, views[*pid].windows[i].title));
            }
        }
        let ghost before = items@;
        let mut found = match_app(*pid, app, query);
        let ghost added = found@;
        items.append(&mut found);
        assert(item_views(items@) =~= item_views(before) + item_views(added));
    }
    let out = rank(items);
    assert(ranked(candidates(views, walk, query@), item_views(out@)));
    out
}

/// The selection for a fresh list of `count` items: the first item, or
/// nothing where the list is empty.
pub fn select_first(count: usize) -> (selected: Option<usize>)
    ensures
        selected == if count > 0 {
            Some(0usize)
        } else {
            None
        },
{
    if count > 0 {
        Some(0)
    } else {
        None
    }
}

/// The position after a position in a list of `count` items: the next one, or
/// the last where there is no next.
pub open spec fn next_position(position: usize, count: usize) -> usize {
    if position + 1 < count {
        (position + 1) as usize
    } else {
        (count - 1) as usize
    }
}

/// The selection after a move down in a list of `count` items. In an empty
/// list nothing changes; else the move goes to the next item and stops at the
/// last, and from no selection to the first item.
pub fn select_next(selected: Option<usize>, count: usize) -> (moved: Option<usize>)
    ensures
        moved == if count == 0 {
            selected
        } else {
            match selected {
                Some(position) => Some(next_position(position, count)),
                None => Some(0usize),
            }
        },
{
    if count == 0 {
        return selected;
    }
    match selected {
        Some(position) => if position < count - 1 {
            Some(position + 1)
        } else {
            Some(count - 1)
        },
        None => Some(0),
    }
}

/// The selection after a move up in a list of `count` items. In an empty list
/// nothing is selected; else the move goes to the item before and stops at
/// the first, and from no selection to the first item.
pub fn select_prev(selected: Option<usize>, count: usize) -> (moved: Option<usize>)
    ensures
        moved == if count == 0 {
            None
        } else {
            match selected {
                Some(position) if position > 0 => Some((position - 1) as usize),
                _ => Some(0usize),
            }
        },
{
    if count == 0 {
        return None;
    }
    match selected {
        Some(position) => if position > 0 {
            Some(position - 1)
        } else {
            Some(0)
        },
        None => Some(0),
    }
}

} // verus!
