//! The space and display catalog: which space each on-screen window is
//! assigned to.

use std::collections::HashMap;
use vstd::prelude::*;
use crate::types::{Error, Space, SpaceView};

verus! {

/// The type code of a user space; only such spaces receive an ordinal.
pub const USER_SPACE: i64 = 0;

/// The tag that asks the window server for the on-screen windows of a space,
/// at all window levels.
pub const ON_SCREEN_WINDOWS: u32 = 0x2;

/// One space as the window server reported it.
#[derive(Debug, PartialEq, Eq)]
pub struct SpaceReport {
    pub id: i64,
    /// The space's type code.
    pub kind: i64,
    /// The ids of the windows assigned to the space, or `None` where the
    /// query for them came back invalid.
    pub windows: Option<Vec<u32>>,
}

/// One display with its spaces, in the order the window server reported them.
#[derive(Debug, PartialEq, Eq)]
pub struct DisplayReport {
    pub uuid: String,
    pub spaces: Vec<SpaceReport>,
}

/// The window ids that a space report lists; none where its query failed.
pub open spec fn listed(report: SpaceReport) -> Seq<u32> {
    match report.windows {
        Some(ids) => ids@,
        None => Seq::empty(),
    }
}

/// The number of user spaces among the first `s` spaces of display `d` and
/// all spaces of the displays before it.
pub open spec fn user_spaces_before(displays: Seq<DisplayReport>, d: int, s: int) -> nat
    decreases d, s,
{
    if s > 0 {
        user_spaces_before(displays, d, s - 1) + if displays[d].spaces@[s - 1].kind
            == USER_SPACE {
            1nat
        } else {
            0nat
        }
    } else if d > 0 {
        user_spaces_before(displays, d - 1, displays[d - 1].spaces@.len() as int)
    } else {
        0
    }
}

/// The number of user spaces on all displays.
pub open spec fn user_space_count(displays: Seq<DisplayReport>) -> nat {
    user_spaces_before(displays, displays.len() as int, 0)
}

/// The descriptor of space `s` of display `d`: the display's position counted
/// from 1, and for a user space its rank among all user spaces in enumeration
/// order, counted from 1.
pub open spec fn space_at(displays: Seq<DisplayReport>, d: int, s: int) -> SpaceView {
    let report = displays[d].spaces@[s];
    SpaceView {
        display: (d + 1) as u8,
        display_uuid: displays[d].uuid@,
        index: if report.kind == USER_SPACE {
            Some((user_spaces_before(displays, d, s) + 1) as u8)
        } else {
            None
        },
        id: report.id,
    }
}

/// `entries` with every id of `ids` assigned to `space`, whatever it was
/// assigned to before.
pub open spec fn assign(entries: Map<u32, SpaceView>, space: SpaceView, ids: Seq<u32>) -> Map<
    u32,
    SpaceView,
> {
    Map::new(
        |w: u32| entries.contains_key(w) || ids.contains(w),
        |w: u32|
            if ids.contains(w) {
                space
            } else {
                entries[w]
            },
    )
}

/// The catalog made of the first `s` spaces of display `d` and all spaces of
/// the displays before it. A window listed by several spaces belongs to the
/// last of them.
pub open spec fn catalog_before(displays: Seq<DisplayReport>, d: int, s: int) -> Map<
    u32,
    SpaceView,
>
    decreases d, s,
{
    if s > 0 {
        assign(
            catalog_before(displays, d, s - 1),
            space_at(displays, d, s - 1),
            listed(displays[d].spaces@[s - 1]),
        )
    } else if d > 0 {
        catalog_before(displays, d - 1, displays[d - 1].spaces@.len() as int)
    } else {
        Map::empty()
    }
}

/// The catalog of all displays.
pub open spec fn catalog_of(displays: Seq<DisplayReport>) -> Map<u32, SpaceView> {
    catalog_before(displays, displays.len() as int, 0)
}

/// Whether the window query of some space came back invalid.
pub open spec fn some_listing_failed(displays: Seq<DisplayReport>) -> bool {
    exists|d: int, s: int|
        0 <= d < displays.len() && 0 <= s < displays[d].spaces@.len()
            && (#[trigger] displays[d].spaces@[s]).windows is None
}

/// Whether display positions and user-space ordinals fit their 8-bit fields.
pub open spec fn countable(displays: Seq<DisplayReport>) -> bool {
    displays.len() <= u8::MAX && user_space_count(displays) <= u8::MAX
}

/// The views of the spaces of a catalog.
pub open spec fn space_views(catalog: Map<u32, Space>) -> Map<u32, SpaceView> {
    catalog.map_values(|space: Space| space@)
}

/// Entering a space into a catalog enters its view into the catalog's views.
pub proof fn lemma_space_views_insert(catalog: Map<u32, Space>, id: u32, space: Space)
    ensures
        space_views(catalog.insert(id, space)) == space_views(catalog).insert(id, space@),
{
    assert(space_views(catalog.insert(id, space)) =~= space_views(catalog).insert(id, space@));
}

/// Assigning one more id is an insertion into the catalog.
pub proof fn lemma_assign_push(entries: Map<u32, SpaceView>, space: SpaceView, ids: Seq<u32>, id: u32)
    ensures
        assign(entries, space, ids.push(id)) == assign(entries, space, ids).insert(id, space),
{
    let longer = ids.push(id);
    assert forall|w: u32| longer.contains(w) <==> (ids.contains(w) || w == id) by {
        if ids.contains(w) {
            let i = choose|i: int| 0 <= i < ids.len() && ids[i] == w;
            assert(longer[i] == w);
        }
        if w == id {
            assert(longer[ids.len() as int] == w);
        }
    }
    assert(assign(entries, space, longer) =~= assign(entries, space, ids).insert(id, space));
}

/// The count of user spaces never shrinks along the enumeration.
pub proof fn lemma_user_spaces_monotonic(displays: Seq<DisplayReport>, d: int, s: int)
    requires
        0 <= d <= displays.len(),
        d < displays.len() ==> 0 <= s <= displays[d].spaces@.len(),
        d == displays.len() ==> s == 0,
    ensures
        user_spaces_before(displays, d, s) <= user_space_count(displays),
    decreases displays.len() - d, (if d < displays.len() { displays[d].spaces@.len() - s } else { 0 }),
{
    if d < displays.len() {
        if s < displays[d].spaces@.len() {
            lemma_user_spaces_monotonic(displays, d, s + 1);
        } else {
            if d + 1 < displays.len() {
                lemma_user_spaces_monotonic(displays, d + 1, 0);
            }
        }
    }
}

/// Tells whether display positions and user-space ordinals fit their 8-bit
/// fields, which `build_catalog` asks of its input.
pub fn is_countable(displays: &Vec<DisplayReport>) -> (ok: bool)
    ensures
        ok == countable(displays@),
{
    if displays.len() > 255 {
        return false;
    }
    let mut count: usize = 0;
    let mut d: usize = 0;
    while d < displays.len()
        invariant
            d <= displays.len() <= 255,
            count == user_spaces_before(displays@, d as int, 0),
            count <= 255,
        decreases displays.len() - d,
    {
        let spaces = &displays[d].spaces;
        let mut s: usize = 0;
        while s < spaces.len()
            invariant
                d < displays.len() <= 255,
                spaces == &displays@[d as int].spaces,
                s <= spaces.len(),
                count == user_spaces_before(displays@, d as int, s as int),
                count <= 255,
            decreases spaces.len() - s,
        {
            if spaces[s].kind == USER_SPACE {
                if count == 255 {
                    proof {
                        lemma_user_spaces_monotonic(displays@, d as int, s as int + 1);
                    }
                    return false;
                }
                count = count + 1;
            }
            s = s + 1;
        }
        d = d + 1;
    }
    true
}

/// Builds the catalog from the displays and spaces that the window server
/// reported. Fails with `QueryFailure`, and returns no partial catalog, exactly
/// when the window query of some space came back invalid.
pub fn build_catalog(displays: &Vec<DisplayReport>) -> (out: Result<HashMap<u32, Space>, Error>)
    requires
        countable(displays@),
    ensures
        some_listing_failed(displays@) <==> out is Err,
        out matches Err(e) ==> e == Error::QueryFailure,
        out matches Ok(catalog) ==> space_views(catalog@) == catalog_of(displays@),
{
    broadcast use vstd::std_specs::hash::group_hash_axioms;

    let mut catalog: HashMap<u32, Space> = HashMap::new();
    let mut count: u8 = 0;
    let mut d: usize = 0;
    assert(space_views(catalog@) =~= catalog_before(displays@, 0, 0));
    while d < displays.len()
        invariant
            countable(displays@),
            d <= displays.len(),
            count == user_spaces_before(displays@, d as int, 0),
            space_views(catalog@) == catalog_before(displays@, d as int, 0),
            forall|i: int, j: int|
                0 <= i < d && 0 <= j < displays@[i].spaces@.len()
                    ==> (#[trigger] displays@[i].spaces@[j]).windows is Some,
        decreases displays.len() - d,
    {
        let display = &displays[d];
        let mut s: usize = 0;
        while s < display.spaces.len()
            invariant
                countable(displays@),
                d < displays.len(),
                display == &displays@[d as int],
                s <= display.spaces.len(),
                count == user_spaces_before(displays@, d as int, s as int),
                space_views(catalog@) == catalog_before(displays@, d as int, s as int),
                forall|i: int, j: int|
                    0 <= i < d && 0 <= j < displays@[i].spaces@.len()
                        ==> (#[trigger] displays@[i].spaces@[j]).windows is Some,
                forall|j: int|
                    0 <= j < s ==> (#[trigger] displays@[d as int].spaces@[j]).windows is Some,
            decreases display.spaces.len() - s,
        {
            let report = &display.spaces[s];
            proof {
                lemma_user_spaces_monotonic(displays@, d as int, s as int + 1);
            }
            let index: Option<u8> = if report.kind == USER_SPACE {
                count = count + 1;
                Some(count)
            } else {
                None
            };
            match &report.windows {
                None => {
                    return Err(Error::QueryFailure);
                },
                Some(ids) => {
                    let ghost before = space_views(catalog@);
                    let ghost space = space_at(displays@, d as int, s as int);
                    let mut k: usize = 0;
                    assert(before =~= assign(before, space, ids@.take(0)));
                    while k < ids.len()
                        invariant
                            d < displays.len() <= u8::MAX,
                            display == &displays@[d as int],
                            s < display.spaces.len(),
                            report == &display.spaces@[s as int],
                            space == space_at(displays@, d as int, s as int),
                            index == space.index,
                            k <= ids.len(),
                            space_views(catalog@) == assign(before, space, ids@.take(k as int)),
                        decreases ids.len() - k,
                    {
                        let entry = Space {
                            display: (d + 1) as u8,
                            display_uuid: display.uuid.clone(),
                            index,
                            id: report.id,
                        };
                        let ghost prev = catalog@;
                        let ghost entered = entry;
                        catalog.insert(ids[k], entry);
                        proof {
                            assert(entered@ == space);
                            assert(ids@.take(k + 1) =~= ids@.take(k as int).push(ids@[k as int]));
                            lemma_space_views_insert(prev, ids@[k as int], entered);
                            lemma_assign_push(before, space, ids@.take(k as int), ids@[k as int]);
                        }
                        k = k + 1;
                    }
                    assert(ids@.take(ids.len() as int) =~= ids@);
                },
            }
            s = s + 1;
        }
        d = d + 1;
    }
    Ok(catalog)
}

/// Whether space `s` of display `d` exists and lists window `id`.
pub open spec fn lists(displays: Seq<DisplayReport>, d: int, s: int, id: u32) -> bool {
    0 <= d < displays.len() && 0 <= s < displays[d].spaces@.len() && listed(
        displays[d].spaces@[s],
    ).contains(id)
}

/// Whether position `(a, b)` comes before position `(d, s)` in enumeration
/// order.
pub open spec fn precedes(a: int, b: int, d: int, s: int) -> bool {
    a < d || (a == d && b < s)
}

/// The catalog made of the spaces before a position knows exactly the windows
/// that one of those spaces lists, and assigns each to the last of the spaces
/// that list it.
pub proof fn lemma_catalog_before(displays: Seq<DisplayReport>, d: int, s: int, id: u32)
    requires
        0 <= d <= displays.len(),
        d < displays.len() ==> 0 <= s <= displays[d].spaces@.len(),
        d == displays.len() ==> s == 0,
    ensures
        catalog_before(displays, d, s).contains_key(id) <==> exists|a: int, b: int|
            #[trigger] lists(displays, a, b, id) && precedes(a, b, d, s),
        catalog_before(displays, d, s).contains_key(id) ==> exists|a: int, b: int|
            #[trigger] lists(displays, a, b, id) && precedes(a, b, d, s) && catalog_before(
                displays,
                d,
                s,
            )[id] == space_at(displays, a, b) && forall|c: int, e: int|
                #[trigger] lists(displays, c, e, id) && precedes(c, e, d, s) ==> !precedes(
                    a,
                    b,
                    c,
                    e,
                ),
    decreases d, s,
{
    if s > 0 {
        lemma_catalog_before(displays, d, s - 1, id);
        let earlier = catalog_before(displays, d, s - 1);
        if listed(displays[d].spaces@[s - 1]).contains(id) {
            assert(lists(displays, d, s - 1, id) && precedes(d, s - 1, d, s));
            assert forall|c: int, e: int|
                #[trigger] lists(displays, c, e, id) && precedes(c, e, d, s) implies !precedes(
                d,
                s - 1,
                c,
                e,
            ) by {}
        } else {
            if earlier.contains_key(id) {
                let (a, b) = choose|a: int, b: int|
                    #[trigger] lists(displays, a, b, id) && precedes(a, b, d, s - 1) && earlier[id]
                        == space_at(displays, a, b) && forall|c: int, e: int|
                        #[trigger] lists(displays, c, e, id) && precedes(c, e, d, s - 1)
                            ==> !precedes(a, b, c, e);
                assert(lists(displays, a, b, id) && precedes(a, b, d, s));
                assert forall|c: int, e: int|
                    #[trigger] lists(displays, c, e, id) && precedes(
                        c,
                        e,
                        d,
                        s,
                    ) implies !precedes(a, b, c, e) by {
                    assert(precedes(c, e, d, s - 1));
                }
            }
            if exists|a: int, b: int| #[trigger]
                lists(displays, a, b, id) && precedes(a, b, d, s) {
                let (a, b) = choose|a: int, b: int| #[trigger]
                    lists(displays, a, b, id) && precedes(a, b, d, s);
                assert(lists(displays, a, b, id) && precedes(a, b, d, s - 1));
            }
        }
    } else if d > 0 {
        let last = displays[d - 1].spaces@.len() as int;
        lemma_catalog_before(displays, d - 1, last, id);
        let earlier = catalog_before(displays, d - 1, last);
        if earlier.contains_key(id) {
            let (a, b) = choose|a: int, b: int|
                #[trigger] lists(displays, a, b, id) && precedes(a, b, d - 1, last) && earlier[id]
                    == space_at(displays, a, b) && forall|c: int, e: int|
                    #[trigger] lists(displays, c, e, id) && precedes(c, e, d - 1, last)
                        ==> !precedes(a, b, c, e);
            assert(lists(displays, a, b, id) && precedes(a, b, d, s));
            assert forall|c: int, e: int|
                #[trigger] lists(displays, c, e, id) && precedes(c, e, d, s) implies !precedes(
                a,
                b,
                c,
                e,
            ) by {
                assert(precedes(c, e, d - 1, last));
            }
        }
        if exists|a: int, b: int| #[trigger] lists(displays, a, b, id) && precedes(a, b, d, s) {
            let (a, b) = choose|a: int, b: int| #[trigger]
                lists(displays, a, b, id) && precedes(a, b, d, s);
            assert(lists(displays, a, b, id) && precedes(a, b, d - 1, last));
        }
    }
}

/// The catalog knows exactly the windows that some space lists, and assigns
/// each to the last space, in enumeration order, that lists it.
pub proof fn lemma_last_space_wins(displays: Seq<DisplayReport>, id: u32)
    ensures
        catalog_of(displays).contains_key(id) <==> exists|a: int, b: int| #[trigger]
            lists(displays, a, b, id),
        catalog_of(displays).contains_key(id) ==> exists|a: int, b: int|
            #[trigger] lists(displays, a, b, id) && catalog_of(displays)[id] == space_at(
                displays,
                a,
                b,
            ) && forall|c: int, e: int| #[trigger]
                lists(displays, c, e, id) ==> !precedes(a, b, c, e),
{
    let end = displays.len() as int;
    lemma_catalog_before(displays, end, 0, id);
    if catalog_of(displays).contains_key(id) {
        let (a, b) = choose|a: int, b: int|
            #[trigger] lists(displays, a, b, id) && precedes(a, b, end, 0) && catalog_before(
                displays,
                end,
                0,
            )[id] == space_at(displays, a, b) && forall|c: int, e: int|
                #[trigger] lists(displays, c, e, id) && precedes(c, e, end, 0) ==> !precedes(
                    a,
                    b,
                    c,
                    e,
                );
        assert forall|c: int, e: int| #[trigger] lists(displays, c, e, id) implies !precedes(
            a,
            b,
            c,
            e,
        ) by {
            assert(precedes(c, e, end, 0));
        }
    }
    if exists|a: int, b: int| #[trigger] lists(displays, a, b, id) {
        let (a, b) = choose|a: int, b: int| #[trigger] lists(displays, a, b, id);
        assert(lists(displays, a, b, id) && precedes(a, b, end, 0));
    }
}

/// A user space gets the next ordinal and moves the counter on by one; a space
/// of another type gets no ordinal and leaves the counter as it is. So the
/// user spaces bear the ordinals 1, 2, 3 and so on, in enumeration order
/// across all displays.
pub proof fn lemma_ordinals_count_user_spaces(displays: Seq<DisplayReport>, d: int, s: int)
    requires
        0 <= d < displays.len(),
        0 <= s < displays[d].spaces@.len(),
        countable(displays),
    ensures
        displays[d].spaces@[s].kind == USER_SPACE ==> space_at(displays, d, s).index == Some(
            user_spaces_before(displays, d, s + 1) as u8,
        ) && user_spaces_before(displays, d, s + 1) == user_spaces_before(displays, d, s) + 1,
        displays[d].spaces@[s].kind != USER_SPACE ==> space_at(displays, d, s).index is None
            && user_spaces_before(displays, d, s + 1) == user_spaces_before(displays, d, s),
        space_at(displays, d, s).display == d + 1,
        user_spaces_before(displays, d, s + 1) <= u8::MAX,
{
    lemma_user_spaces_monotonic(displays, d, s + 1);
}

} // verus!
