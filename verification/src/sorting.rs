//! The order of texts by code point, and sorting by it.

use vstd::prelude::*;
use vstd::relations::{sorted_by, total_ordering};
use vstd::seq_lib::lemma_sorted_unique;

use crate::text::{chars_of, texts};

verus! {

/// Whether `a` comes before `b` or is the same, character by character.
pub open spec fn text_le(a: Seq<char>, b: Seq<char>) -> bool
    decreases a.len(),
{
    if a.len() == 0 {
        true
    } else if b.len() == 0 {
        false
    } else if a[0] as int != b[0] as int {
        (a[0] as int) < (b[0] as int)
    } else {
        text_le(a.skip(1), b.skip(1))
    }
}

/// The order of texts.
pub open spec fn text_order() -> spec_fn(Seq<char>, Seq<char>) -> bool {
    |a: Seq<char>, b: Seq<char>| text_le(a, b)
}

proof fn lemma_reflexive(a: Seq<char>)
    ensures
        text_le(a, a),
    decreases a.len(),
{
    if a.len() > 0 {
        lemma_reflexive(a.skip(1));
    }
}

proof fn lemma_antisymmetric(a: Seq<char>, b: Seq<char>)
    requires
        text_le(a, b),
        text_le(b, a),
    ensures
        a == b,
    decreases a.len(),
{
    if a.len() > 0 && b.len() > 0 {
        lemma_antisymmetric(a.skip(1), b.skip(1));
        assert(a =~= seq![a[0]] + a.skip(1));
        assert(b =~= seq![b[0]] + b.skip(1));
    } else {
        assert(a =~= b);
    }
}

proof fn lemma_transitive(a: Seq<char>, b: Seq<char>, c: Seq<char>)
    requires
        text_le(a, b),
        text_le(b, c),
    ensures
        text_le(a, c),
    decreases a.len(),
{
    if a.len() > 0 && b.len() > 0 && c.len() > 0 && a[0] as int == b[0] as int && b[0] as int
        == c[0] as int {
        lemma_transitive(a.skip(1), b.skip(1), c.skip(1));
    }
}

proof fn lemma_total(a: Seq<char>, b: Seq<char>)
    ensures
        text_le(a, b) || text_le(b, a),
    decreases a.len(),
{
    if a.len() > 0 && b.len() > 0 {
        lemma_total(a.skip(1), b.skip(1));
    }
}

/// Texts are totally ordered.
pub proof fn lemma_text_order()
    ensures
        total_ordering(text_order()),
{
    let r = text_order();
    assert forall|x: Seq<char>| #[trigger] r(x, x) by {
        lemma_reflexive(x);
    }
    assert forall|x: Seq<char>, y: Seq<char>| #[trigger] r(x, y) && #[trigger] r(y, x) implies x
        == y by {
        lemma_antisymmetric(x, y);
    }
    assert forall|x: Seq<char>, y: Seq<char>, z: Seq<char>| #[trigger] r(x, y) && #[trigger] r(
        y,
        z,
    ) implies r(x, z) by {
        lemma_transitive(x, y, z);
    }
    assert forall|x: Seq<char>, y: Seq<char>| #[trigger] r(x, y) || #[trigger] r(y, x) by {
        lemma_total(x, y);
    }
}

/// The texts in order.
pub open spec fn sorted(items: Seq<Seq<char>>) -> Seq<Seq<char>> {
    items.sort_by(text_order())
}

/// Sorting keeps the texts and does not depend on how they were ordered before.
pub proof fn lemma_sorted(items: Seq<Seq<char>>)
    ensures
        sorted(items).len() == items.len(),
        sorted(items).to_multiset() == items.to_multiset(),
        sorted_by(sorted(items), text_order()),
        forall|x: Seq<char>| #[trigger] sorted(items).contains(x) ==> items.contains(x),
{
    lemma_text_order();
    items.lemma_sort_by_ensures(text_order());
    broadcast use vstd::seq_lib::group_to_multiset_ensures;

    assert(sorted(items).to_multiset().len() == items.to_multiset().len());
}

/// The order in which the same texts come does not matter to sorting.
pub proof fn lemma_sorted_same(a: Seq<Seq<char>>, b: Seq<Seq<char>>)
    requires
        a.to_multiset() == b.to_multiset(),
    ensures
        sorted(a) == sorted(b),
{
    lemma_sorted(a);
    lemma_sorted(b);
    lemma_text_order();
    lemma_sorted_unique(sorted(a), sorted(b), text_order());
}

/// Whether `a` comes before `b` or is the same.
fn is_le(a: &str, b: &str) -> (r: bool)
    ensures
        r == text_le(a@, b@),
{
    let v = chars_of(a);
    let w = chars_of(b);
    let mut i: usize = 0;
    assert(v@.skip(0) =~= v@);
    assert(w@.skip(0) =~= w@);
    while i < v.len() && i < w.len()
        invariant
            i <= v@.len(),
            i <= w@.len(),
            v@ == a@,
            w@ == b@,
            text_le(a@, b@) == text_le(v@.skip(i as int), w@.skip(i as int)),
        decreases v@.len() - i,
    {
        assert(v@.skip(i as int)[0] == v@[i as int]);
        assert(w@.skip(i as int)[0] == w@[i as int]);
        let c: char = v[i];
        let d: char = w[i];
        let x: u32 = c as u32;
        let y: u32 = d as u32;
        proof {
            vstd::utf8::char_u32_cast(c, x);
            vstd::utf8::char_u32_cast(d, y);
        }
        if x != y {
            return x < y;
        }
        assert(v@.skip(i as int).skip(1) =~= v@.skip(i + 1));
        assert(w@.skip(i as int).skip(1) =~= w@.skip(i + 1));
        i = i + 1;
    }
    i == v.len()
}

/// A text put between those before it and those after it keeps a list sorted.
proof fn lemma_insert_sorted(before: Seq<Seq<char>>, i: int, item: Seq<char>)
    requires
        sorted_by(before, text_order()),
        0 <= i <= before.len(),
        forall|k: int| 0 <= k < i ==> text_le(#[trigger] before[k], item),
        i < before.len() ==> text_le(item, before[i]),
    ensures
        sorted_by(before.insert(i, item), text_order()),
        before.insert(i, item).to_multiset() == before.to_multiset().insert(item),
{
    let after = before.insert(i, item);
    let r = text_order();
    vstd::seq_lib::to_multiset_insert(before, i, item);
    assert forall|j: int, k: int| 0 <= j < k < after.len() implies #[trigger] r(
        after[j],
        after[k],
    ) by {
        if j < i && k < i {
            assert(r(before[j], before[k]));
        } else if j < i && k > i {
            assert(r(before[j], before[k - 1]));
        } else if j == i {
            if k - 1 > i {
                assert(r(before[i], before[k - 1]));
                lemma_transitive(item, before[i], before[k - 1]);
            }
        } else if j > i {
            assert(r(before[j - 1], before[k - 1]));
        }
    }
}

/// Put `item` at its place in a sorted list.
fn insert_sorted(items: &mut Vec<String>, item: String)
    requires
        sorted_by(texts(old(items)@), text_order()),
    ensures
        sorted_by(texts(final(items)@), text_order()),
        texts(final(items)@).to_multiset() == texts(old(items)@).to_multiset().insert(item@),
{
    let ghost before = texts(items@);
    let mut i: usize = 0;
    while i < items.len() && is_le(items[i].as_str(), item.as_str())
        invariant
            i <= items@.len(),
            texts(items@) == before,
            forall|k: int| 0 <= k < i ==> text_le(#[trigger] before[k], item@),
        decreases items@.len() - i,
    {
        assert(before[i as int] == items@[i as int]@);
        i = i + 1;
    }
    proof {
        if i < items@.len() {
            assert(before[i as int] == items@[i as int]@);
            lemma_total(before[i as int], item@);
        }
        lemma_insert_sorted(before, i as int, item@);
    }
    let ghost added = item@;
    items.insert(i, item);
    assert(texts(items@) =~= before.insert(i as int, added));
}

/// Sort texts by code point.
pub fn sort_texts(items: Vec<String>) -> (out: Vec<String>)
    ensures
        texts(out@) == sorted(texts(items@)),
{
    broadcast use vstd::seq_lib::group_to_multiset_ensures;

    let mut out: Vec<String> = Vec::new();
    let mut i: usize = 0;
    proof {
        assert(texts(out@) =~= texts(items@).take(0));
    }
    while i < items.len()
        invariant
            i <= items@.len(),
            sorted_by(texts(out@), text_order()),
            texts(out@).to_multiset() == texts(items@).take(i as int).to_multiset(),
        decreases items@.len() - i,
    {
        proof {
            broadcast use vstd::seq_lib::group_to_multiset_ensures;

            assert(texts(items@).take(i + 1) =~= texts(items@).take(i as int).push(
                items@[i as int]@,
            ));
        }
        insert_sorted(&mut out, items[i].clone());
        i = i + 1;
    }
    proof {
        assert(texts(items@).take(i as int) =~= texts(items@));
        lemma_sorted(texts(items@));
        lemma_text_order();
        lemma_sorted_unique(texts(out@), sorted(texts(items@)), text_order());
    }
    out
}

/// Texts are ordered by the first character in which they differ, and one that goes
/// on comes after one that does not.
pub proof fn law_texts_are_ordered_by_the_first_difference(
    same: Seq<char>,
    a: char,
    b: char,
    x: Seq<char>,
    y: Seq<char>,
)
    ensures
        (a as int) < (b as int) ==> text_le(same.push(a) + x, same.push(b) + y) && !text_le(
            same.push(b) + y,
            same.push(a) + x,
        ),
        text_le(same, same + x),
        x.len() > 0 ==> !text_le(same + x, same),
    decreases same.len(),
{
    let p = same.push(a) + x;
    let q = same.push(b) + y;
    if same.len() > 0 {
        let rest = same.skip(1);
        law_texts_are_ordered_by_the_first_difference(rest, a, b, x, y);
        assert(p.skip(1) =~= rest.push(a) + x);
        assert(q.skip(1) =~= rest.push(b) + y);
        assert((same + x).skip(1) =~= rest + x);
    } else {
        assert(p[0] == a && q[0] == b);
    }
}

} // verus!
