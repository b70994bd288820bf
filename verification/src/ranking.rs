//! The order in which matching windows are presented: by descending score,
//! then by application name, then by window title, and otherwise as they
//! came.

use vstd::prelude::*;
use vstd::utf8::encode_utf8;

verus! {

/// A window that matches the query.
#[derive(Debug, PartialEq, Eq)]
pub struct Item {
    /// The process that owns the window.
    pub pid: i32,
    /// The window's id.
    pub window: u32,
    /// The name of the application.
    pub name: String,
    /// The title of the window.
    pub title: String,
    /// How well the window matches; 0 where there is no query.
    pub score: u32,
    /// The positions of the matches in the name, a blank and the title, as
    /// the matcher counts them: in grapheme clusters, not in characters.
    pub indices: Vec<u32>,
}

/// What an `Item` is.
pub struct ItemView {
    pub pid: i32,
    pub window: u32,
    pub name: Seq<char>,
    pub title: Seq<char>,
    pub score: u32,
    pub indices: Seq<u32>,
}

impl View for Item {
    type V = ItemView;

    open spec fn view(&self) -> ItemView {
        ItemView {
            pid: self.pid,
            window: self.window,
            name: self.name@,
            title: self.title@,
            score: self.score,
            indices: self.indices@,
        }
    }
}

/// The views of a sequence of items, in the same order.
pub open spec fn item_views(items: Seq<Item>) -> Seq<ItemView> {
    Seq::new(items.len(), |i: int| items[i]@)
}

/// Whether `a` comes before `b` in the lexicographic order of bytes: at the
/// first position where they differ `a` has the smaller byte, or `a` ends
/// there and `b` goes on.
pub open spec fn bytes_less(a: Seq<u8>, b: Seq<u8>) -> bool
    decreases a.len(),
{
    if b.len() == 0 {
        false
    } else if a.len() == 0 {
        true
    } else if a[0] != b[0] {
        a[0] < b[0]
    } else {
        bytes_less(a.drop_first(), b.drop_first())
    }
}

/// Whether text `a` comes before text `b`: texts are ordered by the bytes of
/// their UTF-8 form, as strings are.
pub open spec fn text_less(a: Seq<char>, b: Seq<char>) -> bool {
    bytes_less(encode_utf8(a), encode_utf8(b))
}

/// Whether item `a` ranks strictly before item `b`: it has the higher score;
/// or the same score and the earlier name; or the same score and name and the
/// earlier title.
pub open spec fn ranks_before(a: ItemView, b: ItemView) -> bool {
    a.score > b.score || (a.score == b.score && (text_less(a.name, b.name) || (a.name == b.name
        && text_less(a.title, b.title))))
}

/// No sequence comes before itself, and of two sequences at most one comes
/// before the other.
pub proof fn lemma_bytes_less_asymmetric(a: Seq<u8>, b: Seq<u8>)
    ensures
        !(bytes_less(a, b) && bytes_less(b, a)),
    decreases a.len(),
{
    if a.len() > 0 && b.len() > 0 && a[0] == b[0] {
        lemma_bytes_less_asymmetric(a.drop_first(), b.drop_first());
    }
}

/// Of two different sequences one comes before the other.
pub proof fn lemma_bytes_less_total(a: Seq<u8>, b: Seq<u8>)
    ensures
        bytes_less(a, b) || bytes_less(b, a) || a == b,
    decreases a.len(),
{
    if a.len() > 0 && b.len() > 0 && a[0] == b[0] {
        lemma_bytes_less_total(a.drop_first(), b.drop_first());
        if a.drop_first() == b.drop_first() {
            assert(a =~= seq![a[0]] + a.drop_first());
            assert(b =~= seq![b[0]] + b.drop_first());
        }
    } else if a.len() == 0 && b.len() == 0 {
        assert(a =~= b);
    }
}

/// What comes before a sequence comes before everything behind it.
pub proof fn lemma_bytes_less_transitive(a: Seq<u8>, b: Seq<u8>, c: Seq<u8>)
    requires
        bytes_less(a, b),
        bytes_less(b, c),
    ensures
        bytes_less(a, c),
    decreases a.len(),
{
    if a.len() > 0 && a[0] == b[0] && b[0] == c[0] {
        lemma_bytes_less_transitive(a.drop_first(), b.drop_first(), c.drop_first());
    }
}

/// Two texts with the same UTF-8 form are the same text.
pub proof fn lemma_same_bytes_same_text(a: Seq<char>, b: Seq<char>)
    requires
        encode_utf8(a) == encode_utf8(b),
    ensures
        a == b,
{
    vstd::utf8::encode_utf8_decode_utf8(a);
    vstd::utf8::encode_utf8_decode_utf8(b);
}

/// Ranking is asymmetric: of two items at most one ranks before the other.
pub proof fn lemma_ranks_asymmetric(a: ItemView, b: ItemView)
    ensures
        !(ranks_before(a, b) && ranks_before(b, a)),
{
    lemma_bytes_less_asymmetric(encode_utf8(a.name), encode_utf8(b.name));
    lemma_bytes_less_asymmetric(encode_utf8(a.title), encode_utf8(b.title));
}

/// What ranks before an item ranks before every item that does not rank
/// before that one.
pub proof fn lemma_ranks_through(a: ItemView, b: ItemView, c: ItemView)
    requires
        ranks_before(a, b),
        !ranks_before(c, b),
    ensures
        ranks_before(a, c),
{
    let (an, bn, cn) = (encode_utf8(a.name), encode_utf8(b.name), encode_utf8(c.name));
    let (at, bt, ct) = (encode_utf8(a.title), encode_utf8(b.title), encode_utf8(c.title));
    lemma_bytes_less_total(cn, bn);
    lemma_bytes_less_total(ct, bt);
    lemma_bytes_less_total(an, cn);
    lemma_bytes_less_total(at, ct);
    if an != cn {
        if bytes_less(cn, an) {
            if bytes_less(an, bn) {
                lemma_bytes_less_transitive(cn, an, bn);
            }
        }
    }
    if at != ct && bytes_less(ct, at) && bytes_less(at, bt) {
        lemma_bytes_less_transitive(ct, at, bt);
    }
    if cn == bn {
        lemma_same_bytes_same_text(c.name, b.name);
    }
    if an == cn {
        lemma_same_bytes_same_text(a.name, c.name);
    }
    lemma_bytes_less_asymmetric(an, bn);
    lemma_bytes_less_asymmetric(cn, bn);
    lemma_bytes_less_asymmetric(at, bt);
    lemma_bytes_less_asymmetric(ct, bt);
}

/// Tells whether the bytes `a` come before the bytes `b`.
pub fn bytes_before(a: &[u8], b: &[u8]) -> (less: bool)
    ensures
        less == bytes_less(a@, b@),
{
    let mut i: usize = 0;
    assert(a@.skip(0) =~= a@ && b@.skip(0) =~= b@);
    while i < a.len() && i < b.len()
        invariant
            i <= a.len(),
            i <= b.len(),
            bytes_less(a@, b@) == bytes_less(a@.skip(i as int), b@.skip(i as int)),
        decreases a.len() - i,
    {
        proof {
            assert(a@.skip(i as int)[0] == a@[i as int]);
            assert(b@.skip(i as int)[0] == b@[i as int]);
            assert(a@.skip(i as int).drop_first() =~= a@.skip(i + 1));
            assert(b@.skip(i as int).drop_first() =~= b@.skip(i + 1));
        }
        if a[i] != b[i] {
            return a[i] < b[i];
        }
        i = i + 1;
    }
    i < b.len()
}

/// Tells whether text `a` comes before text `b`.
pub fn text_before(a: &String, b: &String) -> (less: bool)
    ensures
        less == text_less(a@, b@),
{
    bytes_before(a.as_str().as_bytes(), b.as_str().as_bytes())
}

/// Tells whether item `a` ranks strictly before item `b`.
pub fn item_before(a: &Item, b: &Item) -> (before: bool)
    ensures
        before == ranks_before(a@, b@),
{
    if a.score != b.score {
        a.score > b.score
    } else if text_before(&a.name, &b.name) {
        true
    } else if a.name == b.name {
        text_before(&a.title, &b.title)
    } else {
        false
    }
}

/// Whether `output` holds the items of `input` in ranked order, with
/// `origin[i]` the position in `input` of the item at position `i` of
/// `output`: every item of `input` stands once in `output`; no item stands
/// behind one that it ranks before; and items of which neither ranks before
/// the other stand as they came.
pub open spec fn arranges(origin: Seq<int>, input: Seq<ItemView>, output: Seq<ItemView>) -> bool {
    &&& origin.len() == output.len()
    &&& input.len() == output.len()
    &&& forall|i: int|
        0 <= i < output.len() ==> 0 <= #[trigger] origin[i] < input.len() && output[i]
            == input[origin[i]]
    &&& forall|i: int, j: int|
        0 <= i < j < output.len() ==> #[trigger] origin[i] != #[trigger] origin[j]
    &&& forall|i: int, j: int|
        0 <= i < j < output.len() ==> ranks_before(#[trigger] output[i], #[trigger] output[j]) || (
        !ranks_before(output[j], output[i]) && origin[i] < origin[j])
}

/// Whether `output` is `input` in ranked order: sorted by descending score,
/// then name, then title, and stable.
pub open spec fn ranked(input: Seq<ItemView>, output: Seq<ItemView>) -> bool {
    exists|origin: Seq<int>| arranges(origin, input, output)
}

/// Puts items in ranked order: by descending score, then by name, then by
/// title; items that agree in all three stay in the order they came in.
pub fn rank(items: Vec<Item>) -> (out: Vec<Item>)
    ensures
        ranked(item_views(items@), item_views(out@)),
{
    let ghost input = item_views(items@);
    let ghost total = items@.len() as int;
    let mut rest = items;
    let mut out: Vec<Item> = Vec::new();
    let ghost mut origin: Seq<int> = Seq::empty();
    while rest.len() > 0
        invariant
            rest@.len() <= total,
            total == input.len(),
            forall|i: int| 0 <= i < rest@.len() ==> (#[trigger] rest@[i])@ == input[i],
            origin.len() == out@.len(),
            out@.len() + rest@.len() == total,
            forall|i: int|
                0 <= i < out@.len() ==> rest@.len() <= #[trigger] origin[i] < total && out@[i]@
                    == input[origin[i]],
            forall|i: int, j: int|
                0 <= i < j < out@.len() ==> #[trigger] origin[i] != #[trigger] origin[j],
            forall|i: int, j: int|
                0 <= i < j < out@.len() ==> ranks_before(
                    (#[trigger] out@[i])@,
                    (#[trigger] out@[j])@,
                ) || (!ranks_before(out@[j]@, out@[i]@) && origin[i] < origin[j]),
        decreases rest.len(),
    {
        let ghost place = rest@.len() - 1;
        let item = rest.pop().unwrap();
        let mut p: usize = 0;
        while p < out.len() && item_before(&out[p], &item)
            invariant
                p <= out.len(),
                forall|k: int| 0 <= k < p ==> ranks_before((#[trigger] out@[k])@, item@),
            decreases out.len() - p,
        {
            p = p + 1;
        }
        let ghost before = out@;
        let ghost origin_before = origin;
        let ghost entered = item;
        out.insert(p, item);
        proof {
            origin = origin_before.insert(p as int, place);
            assert forall|i: int, j: int| 0 <= i < j < out@.len() implies ranks_before(
                (#[trigger] out@[i])@,
                (#[trigger] out@[j])@,
            ) || (!ranks_before(out@[j]@, out@[i]@) && origin[i] < origin[j]) by {
                if j == p {
                    assert(out@[i] == before[i]);
                } else if i == p {
                    let behind = before[j - 1]@;
                    let first = before[p as int]@;
                    if ranks_before(behind, entered@) {
                        if j - 1 > p {
                            lemma_ranks_through(behind, entered@, first);
                            lemma_ranks_asymmetric(first, behind);
                            assert(ranks_before(before[p as int]@, before[j - 1]@)
                                || !ranks_before(before[j - 1]@, before[p as int]@));
                        }
                    }
                } else {
                    let a = if i < p { i } else { i - 1 };
                    let b = if j < p { j } else { j - 1 };
                    assert(out@[i] == before[a] && out@[j] == before[b]);
                    assert(ranks_before(before[a]@, before[b]@) || (!ranks_before(
                        before[b]@,
                        before[a]@,
                    ) && origin_before[a] < origin_before[b]));
                }
            }
            assert forall|i: int, j: int| 0 <= i < j < out@.len() implies #[trigger] origin[i]
                != #[trigger] origin[j] by {
                let a = if i < p { i } else { i - 1 };
                let b = if j < p { j } else { j - 1 };
                if i != p && j != p {
                    assert(origin_before[a] != origin_before[b]);
                } else if i == p {
                    assert(origin[j] == origin_before[b]);
                } else {
                    assert(origin[i] == origin_before[a]);
                }
            }
            assert forall|i: int| 0 <= i < out@.len() implies rest@.len() <= #[trigger] origin[i]
                < total && out@[i]@ == input[origin[i]] by {
                if i != p {
                    let a = if i < p { i } else { i - 1 };
                    assert(origin[i] == origin_before[a] && out@[i] == before[a]);
                }
            }
        }
    }
    proof {
        assert(item_views(out@).len() == out@.len());
        assert(arranges(origin, input, item_views(out@)));
    }
    out
}

} // verus!
