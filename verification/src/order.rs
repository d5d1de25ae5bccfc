//! The stable order of plugin menu items: by plugin id, then by action id.
use vstd::multiset::Multiset;
use vstd::prelude::*;

use crate::menu::{items_view, MenuItemView, WorkspaceMenuPluginItem};
use crate::text::{
    lemma_text_less_irreflexive, lemma_text_less_transitive, lemma_text_less_trichotomy, same_text,
    text_less, text_lt,
};

verus! {

broadcast use vstd::seq_lib::group_to_multiset_ensures;

/// `a` sorts strictly before `b`: the pair (plugin id, action id) is
/// lexicographically smaller.
pub open spec fn item_less(a: MenuItemView, b: MenuItemView) -> bool {
    ||| text_less(a.plugin_id, b.plugin_id)
    ||| (a.plugin_id == b.plugin_id && text_less(a.action_id, b.action_id))
}

/// Inserts `x` into `s` after every element that does not sort after it.
pub open spec fn insert_sorted(s: Seq<MenuItemView>, x: MenuItemView) -> Seq<MenuItemView>
    decreases s.len(),
{
    if s.len() == 0 {
        seq![x]
    } else if item_less(x, s.last()) {
        insert_sorted(s.drop_last(), x).push(s.last())
    } else {
        s.push(x)
    }
}

/// The stable sort of `s` by [`item_less`]: items that compare equal keep
/// their relative order.
pub open spec fn sort_items(s: Seq<MenuItemView>) -> Seq<MenuItemView>
    decreases s.len(),
{
    if s.len() == 0 {
        s
    } else {
        insert_sorted(sort_items(s.drop_last()), s.last())
    }
}

/// No item of `s` sorts strictly before an earlier one.
pub open spec fn is_sorted(s: Seq<MenuItemView>) -> bool {
    forall|i: int, j: int| 0 <= i < j < s.len() ==> !item_less(#[trigger] s[j], #[trigger] s[i])
}

/// [`item_less`] is a strict weak order: irreflexive, asymmetric, and its
/// complement is transitive.
pub proof fn lemma_item_less_strict_weak(a: MenuItemView, b: MenuItemView, c: MenuItemView)
    ensures
        !item_less(a, a),
        !(item_less(a, b) && item_less(b, a)),
        item_less(a, b) && item_less(b, c) ==> item_less(a, c),
        !item_less(a, b) && !item_less(b, c) ==> !item_less(a, c),
{
    lemma_text_less_irreflexive(a.plugin_id);
    lemma_text_less_irreflexive(a.action_id);
    lemma_text_less_trichotomy(a.plugin_id, b.plugin_id);
    lemma_text_less_trichotomy(a.action_id, b.action_id);
    lemma_text_less_trichotomy(b.plugin_id, c.plugin_id);
    lemma_text_less_trichotomy(b.action_id, c.action_id);
    lemma_text_less_trichotomy(a.plugin_id, c.plugin_id);
    lemma_text_less_trichotomy(a.action_id, c.action_id);
    if text_less(a.plugin_id, b.plugin_id) && text_less(b.plugin_id, c.plugin_id) {
        lemma_text_less_transitive(a.plugin_id, b.plugin_id, c.plugin_id);
    }
    if text_less(a.action_id, b.action_id) && text_less(b.action_id, c.action_id) {
        lemma_text_less_transitive(a.action_id, b.action_id, c.action_id);
    }
    if text_less(c.plugin_id, b.plugin_id) && text_less(b.plugin_id, a.plugin_id) {
        lemma_text_less_transitive(c.plugin_id, b.plugin_id, a.plugin_id);
    }
    if text_less(c.action_id, b.action_id) && text_less(b.action_id, a.action_id) {
        lemma_text_less_transitive(c.action_id, b.action_id, a.action_id);
    }
}

/// Inserting keeps the multiset of items and keeps a sorted sequence sorted.
pub proof fn lemma_insert_sorted(s: Seq<MenuItemView>, x: MenuItemView)
    ensures
        insert_sorted(s, x).to_multiset() =~= s.to_multiset().insert(x),
        is_sorted(s) ==> is_sorted(insert_sorted(s, x)),
    decreases s.len(),
{
    if s.len() == 0 {
        assert(seq![x] =~= Seq::<MenuItemView>::empty().push(x));
    } else {
        let init = s.drop_last();
        let last = s.last();
        assert(s =~= init.push(last));
        lemma_insert_sorted(init, x);
        let r = insert_sorted(init, x);
        if item_less(x, last) {
            if is_sorted(s) {
                assert forall|i: int, j: int|
                    0 <= i < j < r.push(last).len() implies !item_less(
                    #[trigger] r.push(last)[j],
                    #[trigger] r.push(last)[i],
                ) by {
                    if j == r.len() {
                        let e = r[i];
                        assert(r.to_multiset().count(e) > 0);
                        assert(s.to_multiset().insert(x).count(e) > 0);
                        if e == x {
                            lemma_item_less_strict_weak(x, last, x);
                        } else {
                            assert(init.to_multiset().count(e) > 0);
                            assert(init.contains(e));
                            let k = choose|k: int| 0 <= k < init.len() && init[k] == e;
                            assert(s[k] == e);
                            assert(s[s.len() - 1] == last);
                        }
                    }
                }
            }
        } else {
            if is_sorted(s) {
                assert forall|i: int, j: int|
                    0 <= i < j < s.push(x).len() implies !item_less(
                    #[trigger] s.push(x)[j],
                    #[trigger] s.push(x)[i],
                ) by {
                    if j == s.len() && i < s.len() - 1 {
                        lemma_item_less_strict_weak(x, last, s[i]);
                        assert(!item_less(s[s.len() - 1], s[i]));
                    }
                }
            }
        }
    }
}

/// Sorting keeps the multiset of items and yields a sorted sequence.
pub proof fn lemma_sort_items(s: Seq<MenuItemView>)
    ensures
        sort_items(s).to_multiset() =~= s.to_multiset(),
        is_sorted(sort_items(s)),
    decreases s.len(),
{
    if s.len() > 0 {
        lemma_sort_items(s.drop_last());
        lemma_insert_sorted(sort_items(s.drop_last()), s.last());
        assert(s =~= s.drop_last().push(s.last()));
    }
}

/// Whether `a` sorts strictly before `b`.
pub fn item_lt(a: &WorkspaceMenuPluginItem, b: &WorkspaceMenuPluginItem) -> (res: bool)
    ensures
        res == item_less(a@, b@),
{
    if text_lt(a.plugin_id.as_str(), b.plugin_id.as_str()) {
        true
    } else if same_text(a.plugin_id.as_str(), b.plugin_id.as_str()) {
        text_lt(a.action_id.as_str(), b.action_id.as_str())
    } else {
        false
    }
}

/// Puts `x` into the sorted position of `out`, after every item that does
/// not sort after it.
fn insert_item(out: &mut Vec<WorkspaceMenuPluginItem>, x: WorkspaceMenuPluginItem)
    ensures
        items_view(final(out)@) == insert_sorted(
items_view(old(out)@), x@),
{
    let ghost s = items_view(old(out)@);
    let mut pos = out.len();
    assert(s.take(pos as int) =~= s);
    assert(s.skip(pos as int) =~= Seq::<MenuItemView>::empty());
    while pos > 0 && item_lt(&x, &out[pos - 1])
        invariant
            out@ == old(out)@,
            s == items_view(out@),
            pos <= out@.len(),
            insert_sorted(s, x@) == insert_sorted(s.take(pos as int), x@) + s.skip(pos as int),
        decreases pos,
    {
        let ghost t = s.take(pos as int);
        assert(t.last() == out@[pos - 1]@);
        assert(t.drop_last() =~= s.take(pos - 1));
        assert(s.skip(pos - 1) =~= seq![t.last()] + s.skip(pos as int));
        assert(insert_sorted(t.drop_last(), x@).push(t.last()) + s.skip(pos as int)
            =~= insert_sorted(t.drop_last(), x@) + (seq![t.last()] + s.skip(pos as int)));
        pos = pos - 1;
    }
    let ghost t = s.take(pos as int);
    if pos > 0 {
        assert(t.last() == out@[pos - 1]@);
        assert(t =~= t.drop_last().push(t.last()));
    }
    out.insert(pos, x);
    assert(items_view(out@) =~= insert_sorted(s, x@));
}

/// The items in stable order by plugin id, then action id.
pub fn sort_menu_items(items: &Vec<WorkspaceMenuPluginItem>) -> (res: Vec<WorkspaceMenuPluginItem>)
    ensures
        items_view(res@) == sort_items(
            items_view(items@),
        ),
{
    let ghost s = items_view(items@);
    let mut out: Vec<WorkspaceMenuPluginItem> = Vec::new();
    let n = items.len();
    let mut i: usize = 0;
    assert(s.take(0) =~= Seq::<MenuItemView>::empty());
    assert(items_view(out@) =~= Seq::<MenuItemView>::empty());
    while i < n
        invariant
            n == items@.len(),
            s == items_view(items@),
            i <= n,
            items_view(out@) == sort_items(s.take(i as int)),
        decreases n - i,
    {
        let x = items[i].duplicate();
        insert_item(&mut out, x);
        assert(s.take(i + 1).drop_last() =~= s.take(i as int));
        assert(s.take(i + 1).last() == x@);
        i = i + 1;
    }
    assert(s.take(n as int) =~= s);
    out
}

/// The items of `s` whose plugin id is `pid` and whose action id is `aid`,
/// in order.
pub open spec fn with_key(s: Seq<MenuItemView>, pid: Seq<char>, aid: Seq<char>) -> Seq<
    MenuItemView,
>
    decreases s.len(),
{
    if s.len() == 0 {
        Seq::empty()
    } else {
        with_key(s.drop_last(), pid, aid) + if s.last().plugin_id == pid && s.last().action_id
            == aid {
            seq![s.last()]
        } else {
            Seq::empty()
        }
    }
}

/// Items with the same plugin id and action id do not sort before one another.
proof fn lemma_same_key_not_less(a: MenuItemView, b: MenuItemView)
    requires
        a.plugin_id == b.plugin_id,
        a.action_id == b.action_id,
    ensures
        !item_less(a, b),
{
    lemma_text_less_irreflexive(a.plugin_id);
    lemma_text_less_irreflexive(a.action_id);
}

/// Items with different keys are ordered one way or the other.
proof fn lemma_different_keys_ordered(a: MenuItemView, b: MenuItemView)
    requires
        !(a.plugin_id == b.plugin_id && a.action_id == b.action_id),
    ensures
        item_less(a, b) || item_less(b, a),
{
    lemma_text_less_trichotomy(a.plugin_id, b.plugin_id);
    lemma_text_less_trichotomy(a.action_id, b.action_id);
}

/// Inserting moves an item only past items with other keys.
proof fn lemma_insert_sorted_with_key(
    s: Seq<MenuItemView>,
    x: MenuItemView,
    pid: Seq<char>,
    aid: Seq<char>,
)
    ensures
        with_key(insert_sorted(s, x), pid, aid) =~= with_key(s.push(x), pid, aid),
    decreases s.len(),
{
    if s.len() == 0 {
        assert(seq![x] =~= s.push(x));
    } else {
        let init = s.drop_last();
        let last = s.last();
        if item_less(x, last) {
            lemma_insert_sorted_with_key(init, x, pid, aid);
            let r = insert_sorted(init, x);
            assert(r.push(last).drop_last() =~= r);
            assert(init.push(x).drop_last() =~= init);
            assert(s.push(x).drop_last() =~= s);
            if x.plugin_id == last.plugin_id && x.action_id == last.action_id {
                lemma_same_key_not_less(x, last);
            }
            let lx = if x.plugin_id == pid && x.action_id == aid {
                seq![x]
            } else {
                Seq::<MenuItemView>::empty()
            };
            let ll = if last.plugin_id == pid && last.action_id == aid {
                seq![last]
            } else {
                Seq::<MenuItemView>::empty()
            };
            assert(with_key(r.push(last), pid, aid) == with_key(r, pid, aid) + ll);
            assert(with_key(init.push(x), pid, aid) == with_key(init, pid, aid) + lx);
            assert(with_key(s, pid, aid) == with_key(init, pid, aid) + ll);
            assert(with_key(s.push(x), pid, aid) == with_key(s, pid, aid) + lx);
            assert(lx + ll =~= ll + lx);
            assert(with_key(init, pid, aid) + lx + ll =~= with_key(init, pid, aid) + ll + lx);
        }
    }
}

/// Sorting keeps the relative order of the items that share a key.
pub proof fn lemma_sort_items_with_key(s: Seq<MenuItemView>, pid: Seq<char>, aid: Seq<char>)
    ensures
        with_key(sort_items(s), pid, aid) == with_key(s, pid, aid),
    decreases s.len(),
{
    if s.len() > 0 {
        let init = s.drop_last();
        lemma_sort_items_with_key(init, pid, aid);
        lemma_insert_sorted_with_key(sort_items(init), s.last(), pid, aid);
        assert(sort_items(init).push(s.last()).drop_last() =~= sort_items(init));
    }
}

proof fn lemma_with_key_contains(s: Seq<MenuItemView>, pid: Seq<char>, aid: Seq<char>, e: MenuItemView)
    ensures
        with_key(s, pid, aid).contains(e) <==> (s.contains(e) && e.plugin_id == pid && e.action_id
            == aid),
    decreases s.len(),
{
    if s.len() > 0 {
        let init = s.drop_last();
        lemma_with_key_contains(init, pid, aid, e);
        assert(s =~= init.push(s.last()));
        let w = with_key(init, pid, aid);
        if s.contains(e) && e.plugin_id == pid && e.action_id == aid {
            if e != s.last() {
                let k = choose|k: int| 0 <= k < s.len() && s[k] == e;
                assert(init[k] == e);
                let m = choose|m: int| 0 <= m < w.len() && w[m] == e;
                assert(with_key(s, pid, aid)[m] == e);
            } else {
                assert(with_key(s, pid, aid)[w.len() as int] == e);
            }
        }
        if with_key(s, pid, aid).contains(e) {
            let m = choose|m: int| 0 <= m < with_key(s, pid, aid).len() && with_key(s, pid, aid)[m]
                == e;
            if m < w.len() {
                assert(w[m] == e);
                let k = choose|k: int| 0 <= k < init.len() && init[k] == e;
                assert(s[k] == e);
            } else {
                assert(s[s.len() - 1] == e);
            }
        }
    }
}

/// Two sorted sequences that hold, for every key, the same items in the same
/// order are equal.
pub proof fn lemma_sorted_equal_by_keys(x: Seq<MenuItemView>, y: Seq<MenuItemView>)
    requires
        is_sorted(x),
        is_sorted(y),
        forall|pid: Seq<char>, aid: Seq<char>| #[trigger]
            with_key(x, pid, aid) == with_key(y, pid, aid),
    ensures
        x == y,
    decreases x.len() + y.len(),
{
    if x.len() == 0 && y.len() == 0 {
        assert(x =~= y);
    } else if x.len() == 0 {
        let e = y.last();
        lemma_with_key_contains(y, e.plugin_id, e.action_id, e);
        lemma_with_key_contains(x, e.plugin_id, e.action_id, e);
        assert(y[y.len() - 1] == e);
        assert(with_key(x, e.plugin_id, e.action_id) == with_key(y, e.plugin_id, e.action_id));
    } else if y.len() == 0 {
        let e = x.last();
        lemma_with_key_contains(y, e.plugin_id, e.action_id, e);
        lemma_with_key_contains(x, e.plugin_id, e.action_id, e);
        assert(x[x.len() - 1] == e);
        assert(with_key(x, e.plugin_id, e.action_id) == with_key(y, e.plugin_id, e.action_id));
    } else {
        let a = x.last();
        let b = y.last();
        // Each last item occurs in the other sequence.
        lemma_with_key_contains(x, a.plugin_id, a.action_id, a);
        lemma_with_key_contains(y, a.plugin_id, a.action_id, a);
        lemma_with_key_contains(x, b.plugin_id, b.action_id, b);
        lemma_with_key_contains(y, b.plugin_id, b.action_id, b);
        assert(x[x.len() - 1] == a);
        assert(y[y.len() - 1] == b);
        assert(with_key(x, a.plugin_id, a.action_id) == with_key(y, a.plugin_id, a.action_id));
        assert(with_key(x, b.plugin_id, b.action_id) == with_key(y, b.plugin_id, b.action_id));
        assert(y.contains(a));
        assert(x.contains(b));
        // Neither sorts before the other, so they share a key.
        let i = choose|i: int| 0 <= i < y.len() && y[i] == a;
        let j = choose|j: int| 0 <= j < x.len() && x[j] == b;
        if i < y.len() - 1 {
            assert(!item_less(y[y.len() - 1], y[i]));
        } else {
            lemma_same_key_not_less(b, a);
        }
        if j < x.len() - 1 {
            assert(!item_less(x[x.len() - 1], x[j]));
        } else {
            lemma_same_key_not_less(a, b);
        }
        if !(a.plugin_id == b.plugin_id && a.action_id == b.action_id) {
            lemma_different_keys_ordered(a, b);
        }
        let pid = a.plugin_id;
        let aid = a.action_id;
        // The last items are the last of their key, so they are equal.
        assert(with_key(x, pid, aid).last() == a);
        assert(with_key(y, pid, aid).last() == b);
        let xi = x.drop_last();
        let yi = y.drop_last();
        assert forall|p: Seq<char>, q: Seq<char>| #[trigger]
            with_key(xi, p, q) == with_key(yi, p, q) by {
            assert(with_key(x, p, q) == with_key(y, p, q));
            if p == pid && q == aid {
                assert(with_key(xi, p, q) =~= with_key(x, p, q).drop_last());
                assert(with_key(yi, p, q) =~= with_key(y, p, q).drop_last());
            } else {
                assert(with_key(xi, p, q) =~= with_key(x, p, q));
                assert(with_key(yi, p, q) =~= with_key(y, p, q));
            }
        }
        lemma_sorted_equal_by_keys(xi, yi);
        assert(x =~= xi.push(a));
        assert(y =~= yi.push(b));
    }
}

/// Items of `m` that share a plugin id and an action id are the same item.
pub open spec fn keys_identify(m: Multiset<MenuItemView>) -> bool {
    forall|a: MenuItemView, b: MenuItemView|
        #![trigger m.count(a), m.count(b)]
        m.count(a) > 0 && m.count(b) > 0 && a.plugin_id == b.plugin_id && a.action_id
            == b.action_id ==> a == b
}

/// Two sorted sequences of the same items, in which items sharing a key are
/// the same item, are equal.
pub proof fn lemma_sorted_equal_by_multiset(x: Seq<MenuItemView>, y: Seq<MenuItemView>)
    requires
        is_sorted(x),
        is_sorted(y),
        x.to_multiset() == y.to_multiset(),
        keys_identify(x.to_multiset()),
    ensures
        x == y,
    decreases x.len(),
{
    broadcast use vstd::multiset::group_multiset_axioms;

    if x.len() == 0 || y.len() == 0 {
        assert(x.to_multiset().len() == x.len());
        assert(y.to_multiset().len() == y.len());
        assert(x =~= y);
    } else {
        let a = x[0];
        let b = y[0];
        assert(y.contains(b));
        assert(x.contains(a));
        assert(x.to_multiset().count(b) > 0);
        assert(y.to_multiset().count(a) > 0);
        assert(x.contains(b));
        assert(y.contains(a));
        let i = choose|i: int| 0 <= i < x.len() && x[i] == b;
        let j = choose|j: int| 0 <= j < y.len() && y[j] == a;
        if i > 0 && j > 0 {
            assert(!item_less(x[i], x[0]));
            assert(!item_less(y[j], y[0]));
            if !(a.plugin_id == b.plugin_id && a.action_id == b.action_id) {
                lemma_different_keys_ordered(a, b);
            }
            assert(x.to_multiset().count(a) > 0);
        }
        assert(a == b);
        let xs = x.drop_first();
        let ys = y.drop_first();
        assert(x.remove(0) =~= xs);
        assert(y.remove(0) =~= ys);
        assert(xs.to_multiset() =~= x.to_multiset().remove(a));
        assert(ys.to_multiset() =~= y.to_multiset().remove(b));
        assert forall|c: MenuItemView, d: MenuItemView|
            #![trigger xs.to_multiset().count(c), xs.to_multiset().count(d)]
            xs.to_multiset().count(c) > 0 && xs.to_multiset().count(d) > 0 && c.plugin_id
                == d.plugin_id && c.action_id == d.action_id implies c == d by {
            assert(x.to_multiset().count(c) > 0);
            assert(x.to_multiset().count(d) > 0);
        }
        assert forall|p: int, q: int| 0 <= p < q < xs.len() implies !item_less(
            #[trigger] xs[q],
            #[trigger] xs[p],
        ) by {
            assert(xs[q] == x[q + 1] && xs[p] == x[p + 1]);
        }
        assert forall|p: int, q: int| 0 <= p < q < ys.len() implies !item_less(
            #[trigger] ys[q],
            #[trigger] ys[p],
        ) by {
            assert(ys[q] == y[q + 1] && ys[p] == y[p + 1]);
        }
        lemma_sorted_equal_by_multiset(xs, ys);
        assert(x =~= seq![a] + xs);
        assert(y =~= seq![b] + ys);
    }
}

} // verus!
