//! What holds of every workspace menu resolution.
use vstd::multiset::Multiset;
use vstd::prelude::*;

use crate::menu::{
    action_item, action_offered, allowlisted, claims, claims_in, first_from, gets_plugin_section,
    hidden_labels, menu_hidden_builtins, menu_items, offered_in, offers, plugin_claims,
    plugin_items, plugin_usable, registry_claims, registry_items, AppStateView, Claim,
    MenuItemView, WorkspaceMenuConfig,
};
use crate::order::{
    is_sorted, keys_identify, lemma_sort_items, lemma_sort_items_with_key,
    lemma_sorted_equal_by_keys, lemma_sorted_equal_by_multiset, sort_items, with_key,
};
use crate::plugin::{builtin_label, PluginActionView, PluginPlatform, PluginView};

verus! {

broadcast use vstd::seq_lib::group_to_multiset_ensures, vstd::multiset::group_multiset_axioms;

/// The concatenation of `f` over `s`, in order.
pub open spec fn gather<A, T>(s: Seq<A>, f: spec_fn(A) -> Seq<T>) -> Seq<T>
    decreases s.len(),
{
    if s.len() == 0 {
        Seq::empty()
    } else {
        gather(s.drop_last(), f) + f(s.last())
    }
}

proof fn lemma_gather_append<A, T>(a: Seq<A>, b: Seq<A>, f: spec_fn(A) -> Seq<T>)
    ensures
        gather(a + b, f) =~= gather(a, f) + gather(b, f),
    decreases b.len(),
{
    if b.len() == 0 {
        assert(a + b =~= a);
    } else {
        lemma_gather_append(a, b.drop_last(), f);
        assert((a + b).drop_last() =~= a + b.drop_last());
        assert((a + b).last() == b.last());
    }
}

/// Gathering over two orders of the same elements gives the same multiset.
proof fn lemma_gather_permutation<A, T>(x: Seq<A>, y: Seq<A>, f: spec_fn(A) -> Seq<T>)
    requires
        x.to_multiset() == y.to_multiset(),
    ensures
        gather(x, f).to_multiset() =~= gather(y, f).to_multiset(),
    decreases x.len(),
{
    if x.len() == 0 {
        assert(y.to_multiset().len() == 0);
        assert(y =~= Seq::<A>::empty());
    } else {
        let e = x.last();
        let xi = x.drop_last();
        assert(x =~= xi.push(e));
        assert(x.to_multiset().count(e) > 0);
        assert(y.contains(e));
        let k = choose|k: int| 0 <= k < y.len() && y[k] == e;
        let a = y.subrange(0, k);
        let c = y.subrange(k + 1, y.len() as int);
        let yr = y.remove(k);
        assert(yr =~= a + c);
        assert(y =~= a + seq![e] + c);
        assert(yr.to_multiset() =~= y.to_multiset().remove(e));
        assert(xi.to_multiset() =~= x.to_multiset().remove(e));
        lemma_gather_permutation(xi, yr, f);
        lemma_gather_append(a, c, f);
        lemma_gather_append(a + seq![e], c, f);
        lemma_gather_append(a, seq![e], f);
        assert(seq![e].drop_last() =~= Seq::<A>::empty());
        assert(seq![e].last() == e);
        assert(gather(Seq::<A>::empty(), f) =~= Seq::<T>::empty());
        assert(gather(seq![e], f) =~= f(e));
        vstd::seq_lib::lemma_multiset_commutative(gather(a, f), gather(c, f));
        vstd::seq_lib::lemma_multiset_commutative(gather(a, f), f(e));
        vstd::seq_lib::lemma_multiset_commutative(gather(a, f) + f(e), gather(c, f));
        vstd::seq_lib::lemma_multiset_commutative(gather(xi, f), f(e));
    }
}

proof fn lemma_registry_items_gather(ps: Seq<PluginView>, host: PluginPlatform)
    ensures
        registry_items(ps, host) == gather(ps, |p: PluginView| plugin_items(p, host)),
    decreases ps.len(),
{
    if ps.len() > 0 {
        lemma_registry_items_gather(ps.drop_last(), host);
    }
}

proof fn lemma_registry_claims_gather(ps: Seq<PluginView>, host: PluginPlatform)
    ensures
        registry_claims(ps, host) == gather(ps, |p: PluginView| plugin_claims(p, host)),
    decreases ps.len(),
{
    if ps.len() > 0 {
        lemma_registry_claims_gather(ps.drop_last(), host);
    }
}

proof fn lemma_hidden_labels_gather(cs: Seq<Claim>, items: Seq<MenuItemView>)
    ensures
        hidden_labels(cs, items) == gather(
            cs,
            |c: Claim|
                if offers(items, c.0) {
                    seq![c.1]
                } else {
                    Seq::<Seq<char>>::empty()
                },
        ),
    decreases cs.len(),
{
    if cs.len() > 0 {
        lemma_hidden_labels_gather(cs.drop_last(), items);
    }
}

/// No two plugins of the registry share a plugin id: the registry is keyed
/// by it.
pub open spec fn plugin_ids_distinct(ps: Seq<PluginView>) -> bool {
    forall|i: int, j: int|
        0 <= i < ps.len() && 0 <= j < ps.len() && i != j ==> ps[i].plugin_id != ps[j].plugin_id
}

proof fn lemma_with_key_append(a: Seq<MenuItemView>, b: Seq<MenuItemView>, pid: Seq<char>, aid: Seq<char>)
    ensures
        with_key(a + b, pid, aid) =~= with_key(a, pid, aid) + with_key(b, pid, aid),
    decreases b.len(),
{
    if b.len() == 0 {
        assert(a + b =~= a);
    } else {
        lemma_with_key_append(a, b.drop_last(), pid, aid);
        assert((a + b).drop_last() =~= a + b.drop_last());
        assert((a + b).last() == b.last());
    }
}

proof fn lemma_with_key_other_plugin(s: Seq<MenuItemView>, pid: Seq<char>, aid: Seq<char>)
    requires
        forall|k: int| 0 <= k < s.len() ==> #[trigger] s[k].plugin_id != pid,
    ensures
        with_key(s, pid, aid) =~= Seq::<MenuItemView>::empty(),
    decreases s.len(),
{
    if s.len() > 0 {
        assert(s[s.len() - 1].plugin_id != pid);
        lemma_with_key_other_plugin(s.drop_last(), pid, aid);
    }
}

/// The items offered among `acts` carry the plugin's id.
proof fn lemma_offered_in_plugin_id(p: PluginView, acts: Seq<PluginActionView>, host: PluginPlatform)
    ensures
        forall|k: int|
            0 <= k < offered_in(p, acts, host).len() ==> #[trigger] offered_in(
                p,
                acts,
                host,
            )[k].plugin_id == p.plugin_id,
    decreases acts.len(),
{
    if acts.len() > 0 {
        let init = offered_in(p, acts.drop_last(), host);
        lemma_offered_in_plugin_id(p, acts.drop_last(), host);
        assert forall|k: int| 0 <= k < offered_in(p, acts, host).len() implies #[trigger] offered_in(
            p,
            acts,
            host,
        )[k].plugin_id == p.plugin_id by {
            if k < init.len() {
                assert(offered_in(p, acts, host)[k] == init[k]);
            }
        }
    }
}

proof fn lemma_plugin_items_other_key(p: PluginView, host: PluginPlatform, pid: Seq<char>, aid: Seq<char>)
    requires
        p.plugin_id != pid,
    ensures
        with_key(plugin_items(p, host), pid, aid) =~= Seq::<MenuItemView>::empty(),
{
    lemma_offered_in_plugin_id(p, p.actions, host);
    lemma_with_key_other_plugin(plugin_items(p, host), pid, aid);
}

proof fn lemma_registry_with_key_absent(
    ps: Seq<PluginView>,
    host: PluginPlatform,
    pid: Seq<char>,
    aid: Seq<char>,
)
    requires
        forall|i: int| 0 <= i < ps.len() ==> #[trigger] ps[i].plugin_id != pid,
    ensures
        with_key(registry_items(ps, host), pid, aid) =~= Seq::<MenuItemView>::empty(),
    decreases ps.len(),
{
    if ps.len() > 0 {
        let init = ps.drop_last();
        assert(ps[ps.len() - 1].plugin_id != pid);
        assert forall|i: int| 0 <= i < init.len() implies #[trigger] init[i].plugin_id != pid by {
            assert(init[i] == ps[i]);
        }
        lemma_registry_with_key_absent(init, host, pid, aid);
        lemma_plugin_items_other_key(ps.last(), host, pid, aid);
        lemma_with_key_append(registry_items(init, host), plugin_items(ps.last(), host), pid, aid);
    }
}

proof fn lemma_registry_with_key(
    ps: Seq<PluginView>,
    host: PluginPlatform,
    pid: Seq<char>,
    aid: Seq<char>,
    i: int,
)
    requires
        plugin_ids_distinct(ps),
        0 <= i < ps.len(),
        ps[i].plugin_id == pid,
    ensures
        with_key(registry_items(ps, host), pid, aid) =~= with_key(
            plugin_items(ps[i], host),
            pid,
            aid,
        ),
    decreases ps.len(),
{
    let init = ps.drop_last();
    let last = ps.last();
    lemma_with_key_append(registry_items(init, host), plugin_items(last, host), pid, aid);
    if i == ps.len() - 1 {
        assert forall|k: int| 0 <= k < init.len() implies #[trigger] init[k].plugin_id != pid by {
            assert(init[k] == ps[k]);
            assert(ps[k].plugin_id != ps[i].plugin_id);
        }
        lemma_registry_with_key_absent(init, host, pid, aid);
    } else {
        assert(last.plugin_id != pid) by {
            assert(ps[ps.len() - 1].plugin_id != ps[i].plugin_id);
        }
        assert(plugin_ids_distinct(init)) by {
            assert forall|a: int, b: int|
                0 <= a < init.len() && 0 <= b < init.len() && a != b implies init[a].plugin_id
                != init[b].plugin_id by {
                assert(init[a] == ps[a]);
                assert(init[b] == ps[b]);
            }
        }
        assert(init[i] == ps[i]);
        lemma_registry_with_key(init, host, pid, aid, i);
        lemma_plugin_items_other_key(last, host, pid, aid);
    }
}

/// Two walks of the same registry hold, for every key, the same offered
/// items in the same order.
proof fn lemma_registry_walks_agree_by_key(
    ps1: Seq<PluginView>,
    ps2: Seq<PluginView>,
    host: PluginPlatform,
    pid: Seq<char>,
    aid: Seq<char>,
)
    requires
        ps1.to_multiset() == ps2.to_multiset(),
        plugin_ids_distinct(ps1),
        plugin_ids_distinct(ps2),
    ensures
        with_key(registry_items(ps1, host), pid, aid) == with_key(
            registry_items(ps2, host),
            pid,
            aid,
        ),
{
    if exists|i: int| 0 <= i < ps1.len() && ps1[i].plugin_id == pid {
        let i = choose|i: int| 0 <= i < ps1.len() && ps1[i].plugin_id == pid;
        assert(ps1.to_multiset().count(ps1[i]) > 0);
        assert(ps2.contains(ps1[i]));
        let j = choose|j: int| 0 <= j < ps2.len() && ps2[j] == ps1[i];
        lemma_registry_with_key(ps1, host, pid, aid, i);
        lemma_registry_with_key(ps2, host, pid, aid, j);
    } else {
        assert forall|j: int| 0 <= j < ps2.len() implies #[trigger] ps2[j].plugin_id != pid by {
            if ps2[j].plugin_id == pid {
                assert(ps2.to_multiset().count(ps2[j]) > 0);
                assert(ps1.contains(ps2[j]));
                let i = choose|i: int| 0 <= i < ps1.len() && ps1[i] == ps2[j];
                assert(ps1[i].plugin_id == pid);
            }
        }
        lemma_registry_with_key_absent(ps1, host, pid, aid);
        lemma_registry_with_key_absent(ps2, host, pid, aid);
    }
}

/// Without an allowlist the menu does not depend on the order in which the
/// registry is walked: two walks of the same registry (the same plugins, no
/// two sharing an id, in any order) list the same items in the same order,
/// and hide the same built-in labels.
pub proof fn lemma_menu_ignores_registry_order(s1: AppStateView, s2: AppStateView, is_git_workspace: bool)
    requires
        s1.mode == s2.mode,
        s1.host == s2.host,
        s1.allowlist.len() == 0,
        s2.allowlist.len() == 0,
        s1.plugins.to_multiset() == s2.plugins.to_multiset(),
        plugin_ids_distinct(s1.plugins),
        plugin_ids_distinct(s2.plugins),
    ensures
        menu_items(s1, is_git_workspace) == menu_items(s2, is_git_workspace),
        menu_hidden_builtins(s1, is_git_workspace).to_multiset() == menu_hidden_builtins(
            s2,
            is_git_workspace,
        ).to_multiset(),
{
    if gets_plugin_section(s1.mode, is_git_workspace) {
        let host = s1.host;
        let r1 = registry_items(s1.plugins, host);
        let r2 = registry_items(s2.plugins, host);
        lemma_sort_items(r1);
        lemma_sort_items(r2);
        assert forall|pid: Seq<char>, aid: Seq<char>| #[trigger]
            with_key(sort_items(r1), pid, aid) == with_key(sort_items(r2), pid, aid) by {
            lemma_sort_items_with_key(r1, pid, aid);
            lemma_sort_items_with_key(r2, pid, aid);
            lemma_registry_walks_agree_by_key(s1.plugins, s2.plugins, host, pid, aid);
        }
        lemma_sorted_equal_by_keys(sort_items(r1), sort_items(r2));
        let items = sort_items(r1);
        lemma_registry_claims_gather(s1.plugins, host);
        lemma_registry_claims_gather(s2.plugins, host);
        lemma_gather_permutation(s1.plugins, s2.plugins, |p: PluginView| plugin_claims(p, host));
        let c1 = registry_claims(s1.plugins, host);
        let c2 = registry_claims(s2.plugins, host);
        lemma_hidden_labels_gather(c1, items);
        lemma_hidden_labels_gather(c2, items);
        lemma_gather_permutation(
            c1,
            c2,
            |c: Claim|
                if offers(items, c.0) {
                    seq![c.1]
                } else {
                    Seq::<Seq<char>>::empty()
                },
        );
    }
}

/// The `j`-th action of the `i`-th plugin exists and is on offer: the plugin
/// is enabled with a readable manifest, and the action declares the
/// workspace context and runs on `host`.
pub open spec fn offered_at(ps: Seq<PluginView>, host: PluginPlatform, i: int, j: int) -> bool {
    &&& 0 <= i < ps.len()
    &&& 0 <= j < ps[i].actions.len()
    &&& plugin_usable(ps[i])
    &&& action_offered(ps[i], ps[i].actions[j], host)
}

/// The menu item of the `j`-th action of the `i`-th plugin.
pub open spec fn item_at(ps: Seq<PluginView>, i: int, j: int) -> MenuItemView {
    action_item(ps[i], ps[i].actions[j])
}

/// Some registry action on offer has this item.
pub open spec fn registry_offers(ps: Seq<PluginView>, host: PluginPlatform, it: MenuItemView) -> bool {
    exists|i: int, j: int| #[trigger] offered_at(ps, host, i, j) && item_at(ps, i, j) == it
}

/// One of the action's `replaces` ids names the built-in labelled `label`.
pub open spec fn action_claims_label(a: PluginActionView, label: Seq<char>) -> bool {
    exists|k: int| 0 <= k < a.replaces.len() && builtin_label(#[trigger] a.replaces[k]) == Some(label)
}

proof fn lemma_offered_in_contains(
    p: PluginView,
    acts: Seq<PluginActionView>,
    host: PluginPlatform,
    it: MenuItemView,
)
    ensures
        offered_in(p, acts, host).contains(it) <==> exists|j: int|
            0 <= j < acts.len() && action_offered(p, #[trigger] acts[j], host) && it
                == action_item(p, acts[j]),
    decreases acts.len(),
{
    broadcast use vstd::seq_lib::group_seq_properties;

    if acts.len() > 0 {
        let init = acts.drop_last();
        lemma_offered_in_contains(p, init, host, it);
        if exists|j: int|
            0 <= j < init.len() && action_offered(p, #[trigger] init[j], host) && it
                == action_item(p, init[j]) {
            let j = choose|j: int|
                0 <= j < init.len() && action_offered(p, #[trigger] init[j], host) && it
                    == action_item(p, init[j]);
            assert(acts[j] == init[j]);
        }
        if exists|j: int|
            0 <= j < acts.len() && action_offered(p, #[trigger] acts[j], host) && it
                == action_item(p, acts[j]) {
            let j = choose|j: int|
                0 <= j < acts.len() && action_offered(p, #[trigger] acts[j], host) && it
                    == action_item(p, acts[j]);
            if j < init.len() {
                assert(init[j] == acts[j]);
            }
        }
    }
}

proof fn lemma_registry_items_contains(ps: Seq<PluginView>, host: PluginPlatform, it: MenuItemView)
    ensures
        registry_items(ps, host).contains(it) <==> registry_offers(ps, host, it),
    decreases ps.len(),
{
    broadcast use vstd::seq_lib::group_seq_properties;

    if ps.len() > 0 {
        let init = ps.drop_last();
        let last = ps.last();
        let n = ps.len() - 1;
        lemma_registry_items_contains(init, host, it);
        lemma_offered_in_contains(last, last.actions, host, it);
        if registry_offers(init, host, it) {
            let (i, j) = choose|i: int, j: int| #[trigger]
                offered_at(init, host, i, j) && item_at(init, i, j) == it;
            assert(init[i] == ps[i]);
            assert(offered_at(ps, host, i, j));
        }
        if plugin_usable(last) && offered_in(last, last.actions, host).contains(it) {
            let j = choose|j: int|
                0 <= j < last.actions.len() && action_offered(last, #[trigger] last.actions[j], host)
                    && it == action_item(last, last.actions[j]);
            assert(ps[n] == last);
            assert(offered_at(ps, host, n, j));
        }
        if registry_offers(ps, host, it) {
            let (i, j) = choose|i: int, j: int| #[trigger]
                offered_at(ps, host, i, j) && item_at(ps, i, j) == it;
            if i < n {
                assert(init[i] == ps[i]);
                assert(offered_at(init, host, i, j));
            } else {
                assert(ps[i] == last);
                assert(action_offered(last, last.actions[j], host));
            }
        }
    }
}

proof fn lemma_first_from_found(items: Seq<MenuItemView>, id: Seq<char>, k: int)
    requires
        0 <= k,
    ensures
        first_from(items, id, k) matches Some(e) ==> items.contains(e) && e.qualified_id() == id,
        first_from(items, id, k) is None ==> forall|m: int|
            k <= m < items.len() ==> #[trigger] items[m].qualified_id() != id,
    decreases items.len() - k,
{
    if 0 <= k < items.len() && items[k].qualified_id() != id {
        lemma_first_from_found(items, id, k + 1);
    }
}

proof fn lemma_allowlisted_contains(items: Seq<MenuItemView>, allow: Seq<Seq<char>>, e: MenuItemView)
    ensures
        allowlisted(items, allow).contains(e) ==> items.contains(e) && allow.contains(
            e.qualified_id(),
        ),
    decreases allow.len(),
{
    broadcast use vstd::seq_lib::group_seq_properties;

    if allow.len() > 0 {
        let init = allow.drop_last();
        lemma_allowlisted_contains(items, init, e);
        lemma_first_from_found(items, allow.last(), 0);
        if init.contains(e.qualified_id()) {
            let k = choose|k: int| 0 <= k < init.len() && init[k] == e.qualified_id();
            assert(allow[k] == init[k]);
        }
        assert(allow[allow.len() - 1] == allow.last());
    }
}

/// Every item a menu lists is an action that could actually run: a
/// registry action on offer (enabled plugin, readable manifest, workspace
/// context, supported platform). Under an allowlist its qualified id is
/// one the allowlist names.
pub proof fn lemma_listed_items_could_run(s: AppStateView, is_git_workspace: bool, it: MenuItemView)
    requires
        menu_items(s, is_git_workspace).contains(it),
    ensures
        registry_offers(s.plugins, s.host, it),
        s.allowlist.len() > 0 ==> s.allowlist.contains(it.qualified_id()),
{
    broadcast use vstd::seq_lib::group_seq_properties;

    let r = registry_items(s.plugins, s.host);
    lemma_registry_items_contains(s.plugins, s.host, it);
    if s.allowlist.len() > 0 {
        lemma_allowlisted_contains(r, s.allowlist, it);
    } else {
        lemma_sort_items(r);
        assert(sort_items(r).to_multiset().count(it) > 0);
    }
}

/// Without an allowlist, every registry action on offer is listed in a
/// workspace that gets a plugin section.
pub proof fn lemma_offered_actions_listed_without_allowlist(
    s: AppStateView,
    is_git_workspace: bool,
    it: MenuItemView,
)
    requires
        gets_plugin_section(s.mode, is_git_workspace),
        s.allowlist.len() == 0,
        registry_offers(s.plugins, s.host, it),
    ensures
        menu_items(s, is_git_workspace).contains(it),
{
    broadcast use vstd::seq_lib::group_seq_properties;

    let r = registry_items(s.plugins, s.host);
    lemma_registry_items_contains(s.plugins, s.host, it);
    lemma_sort_items(r);
    assert(r.to_multiset().count(it) > 0);
}

proof fn lemma_allowlisted_names(items: Seq<MenuItemView>, allow: Seq<Seq<char>>, id: Seq<char>)
    requires
        allow.contains(id),
        exists|m: int| 0 <= m < items.len() && #[trigger] items[m].qualified_id() == id,
    ensures
        exists|e: MenuItemView| allowlisted(items, allow).contains(e) && e.qualified_id() == id,
    decreases allow.len(),
{
    broadcast use vstd::seq_lib::group_seq_properties;

    let init = allow.drop_last();
    let out = allowlisted(items, allow);
    lemma_first_from_found(items, allow.last(), 0);
    if allow.last() == id {
        let e = first_from(items, id, 0)->0;
        assert(out[out.len() - 1] == e);
    } else {
        let k = choose|k: int| 0 <= k < allow.len() && allow[k] == id;
        assert(k < init.len());
        assert(init[k] == id);
        lemma_allowlisted_names(items, init, id);
        let e = choose|e: MenuItemView| allowlisted(items, init).contains(e) && e.qualified_id() == id;
        assert(out.contains(e));
    }
}

/// An allowlisted id keeps a place in the menu exactly when it names an
/// action on offer; ids that name nothing the session can run are dropped.
pub proof fn lemma_allowlist_keeps_ids_that_name_offered_actions(
    s: AppStateView,
    is_git_workspace: bool,
    id: Seq<char>,
)
    requires
        gets_plugin_section(s.mode, is_git_workspace),
        s.allowlist.contains(id),
    ensures
        (exists|e: MenuItemView| #[trigger]
            menu_items(s, is_git_workspace).contains(e) && e.qualified_id() == id) <==> (exists|
            it: MenuItemView,
        | #[trigger] registry_offers(s.plugins, s.host, it) && it.qualified_id() == id),
{
    broadcast use vstd::seq_lib::group_seq_properties;

    let r = registry_items(s.plugins, s.host);
    if exists|it: MenuItemView| #[trigger] registry_offers(s.plugins, s.host, it) && it.qualified_id() == id {
        let it = choose|it: MenuItemView| #[trigger] registry_offers(s.plugins, s.host, it) && it.qualified_id() == id;
        lemma_registry_items_contains(s.plugins, s.host, it);
        let m = choose|m: int| 0 <= m < r.len() && r[m] == it;
        assert(r[m].qualified_id() == id);
        lemma_allowlisted_names(r, s.allowlist, id);
        let e = choose|e: MenuItemView| allowlisted(r, s.allowlist).contains(e) && e.qualified_id() == id;
        assert(menu_items(s, is_git_workspace).contains(e));
    }
    if exists|e: MenuItemView| #[trigger] menu_items(s, is_git_workspace).contains(e) && e.qualified_id() == id {
        let e = choose|e: MenuItemView| #[trigger] menu_items(s, is_git_workspace).contains(e) && e.qualified_id() == id;
        lemma_listed_items_could_run(s, is_git_workspace, e);
    }
}

/// A workspace without a plugin section (the mode is `Off`, or `Git` on a
/// plain directory) lists no plugin action and hides no built-in item,
/// whatever the allowlist says.
pub proof fn lemma_no_section_no_plugin_items(s: AppStateView, is_git_workspace: bool)
    requires
        s.mode == WorkspaceMenuConfig::Off || (s.mode == WorkspaceMenuConfig::Git
            && !is_git_workspace),
    ensures
        menu_items(s, is_git_workspace).len() == 0,
        menu_hidden_builtins(s, is_git_workspace).len() == 0,
{
}

/// The mode and the allowlist are orthogonal: the mode only decides which
/// workspaces get a plugin section, and every workspace that gets one gets
/// the same section.
pub proof fn lemma_mode_only_gates_the_section(
    s1: AppStateView,
    s2: AppStateView,
    is_git1: bool,
    is_git2: bool,
)
    requires
        s1.allowlist == s2.allowlist,
        s1.plugins == s2.plugins,
        s1.host == s2.host,
        gets_plugin_section(s1.mode, is_git1),
        gets_plugin_section(s2.mode, is_git2),
    ensures
        menu_items(s1, is_git1) == menu_items(s2, is_git2),
        menu_hidden_builtins(s1, is_git1) == menu_hidden_builtins(s2, is_git2),
{
}

proof fn lemma_claims_contains(qid: Seq<char>, rs: Seq<Seq<char>>, c: Claim)
    ensures
        claims(qid, rs).contains(c) <==> (c.0 == qid && exists|k: int|
            0 <= k < rs.len() && builtin_label(#[trigger] rs[k]) == Some(c.1)),
    decreases rs.len(),
{
    broadcast use vstd::seq_lib::group_seq_properties;

    if rs.len() > 0 {
        let init = rs.drop_last();
        lemma_claims_contains(qid, init, c);
        if exists|k: int| 0 <= k < init.len() && builtin_label(#[trigger] init[k]) == Some(c.1) {
            let k = choose|k: int| 0 <= k < init.len() && builtin_label(#[trigger] init[k]) == Some(c.1);
            assert(rs[k] == init[k]);
        }
        if c.0 == qid && exists|k: int| 0 <= k < rs.len() && builtin_label(#[trigger] rs[k]) == Some(c.1) {
            let k = choose|k: int| 0 <= k < rs.len() && builtin_label(#[trigger] rs[k]) == Some(c.1);
            if k < init.len() {
                assert(init[k] == rs[k]);
            } else {
                assert(rs.last() == rs[k]);
                assert(claims(qid, rs)[claims(qid, init).len() as int] == c);
            }
        }
    }
}

proof fn lemma_claims_in_contains(
    p: PluginView,
    acts: Seq<PluginActionView>,
    host: PluginPlatform,
    c: Claim,
)
    ensures
        claims_in(p, acts, host).contains(c) <==> exists|j: int|
            0 <= j < acts.len() && action_offered(p, #[trigger] acts[j], host) && c.0
                == action_item(p, acts[j]).qualified_id() && action_claims_label(acts[j], c.1),
    decreases acts.len(),
{
    broadcast use vstd::seq_lib::group_seq_properties;

    if acts.len() > 0 {
        let init = acts.drop_last();
        let last = acts.last();
        lemma_claims_in_contains(p, init, host, c);
        lemma_claims_contains(action_item(p, last).qualified_id(), last.replaces, c);
        if exists|j: int|
            0 <= j < init.len() && action_offered(p, #[trigger] init[j], host) && c.0
                == action_item(p, init[j]).qualified_id() && action_claims_label(init[j], c.1) {
            let j = choose|j: int|
                0 <= j < init.len() && action_offered(p, #[trigger] init[j], host) && c.0
                    == action_item(p, init[j]).qualified_id() && action_claims_label(init[j], c.1);
            assert(acts[j] == init[j]);
        }
        if exists|j: int|
            0 <= j < acts.len() && action_offered(p, #[trigger] acts[j], host) && c.0
                == action_item(p, acts[j]).qualified_id() && action_claims_label(acts[j], c.1) {
            let j = choose|j: int|
                0 <= j < acts.len() && action_offered(p, #[trigger] acts[j], host) && c.0
                    == action_item(p, acts[j]).qualified_id() && action_claims_label(acts[j], c.1);
            if j < init.len() {
                assert(init[j] == acts[j]);
            } else {
                assert(acts[j] == last);
            }
        }
    }
}

/// A claim on a built-in made by the `j`-th action of the `i`-th plugin.
pub open spec fn claim_at(ps: Seq<PluginView>, host: PluginPlatform, i: int, j: int, c: Claim) -> bool {
    &&& offered_at(ps, host, i, j)
    &&& c.0 == item_at(ps, i, j).qualified_id()
    &&& action_claims_label(ps[i].actions[j], c.1)
}

proof fn lemma_registry_claims_contains(ps: Seq<PluginView>, host: PluginPlatform, c: Claim)
    ensures
        registry_claims(ps, host).contains(c) <==> exists|i: int, j: int| #[trigger]
            claim_at(ps, host, i, j, c),
    decreases ps.len(),
{
    broadcast use vstd::seq_lib::group_seq_properties;

    if ps.len() > 0 {
        let init = ps.drop_last();
        let last = ps.last();
        let n = ps.len() - 1;
        lemma_registry_claims_contains(init, host, c);
        lemma_claims_in_contains(last, last.actions, host, c);
        if exists|i: int, j: int| #[trigger] claim_at(init, host, i, j, c) {
            let (i, j) = choose|i: int, j: int| #[trigger] claim_at(init, host, i, j, c);
            assert(init[i] == ps[i]);
            assert(claim_at(ps, host, i, j, c));
        }
        if plugin_usable(last) && claims_in(last, last.actions, host).contains(c) {
            let j = choose|j: int|
                0 <= j < last.actions.len() && action_offered(last, #[trigger] last.actions[j], host)
                    && c.0 == action_item(last, last.actions[j]).qualified_id()
                    && action_claims_label(last.actions[j], c.1);
            assert(ps[n] == last);
            assert(claim_at(ps, host, n, j, c));
        }
        if exists|i: int, j: int| #[trigger] claim_at(ps, host, i, j, c) {
            let (i, j) = choose|i: int, j: int| #[trigger] claim_at(ps, host, i, j, c);
            if i < n {
                assert(init[i] == ps[i]);
                assert(claim_at(init, host, i, j, c));
            } else {
                assert(ps[i] == last);
                assert(action_offered(last, last.actions[j], host));
            }
        }
    }
}

proof fn lemma_hidden_labels_contains(cs: Seq<Claim>, items: Seq<MenuItemView>, label: Seq<char>)
    ensures
        hidden_labels(cs, items).contains(label) <==> exists|c: Claim|
            #[trigger] cs.contains(c) && offers(items, c.0) && c.1 == label,
    decreases cs.len(),
{
    broadcast use vstd::seq_lib::group_seq_properties;

    if cs.len() > 0 {
        let init = cs.drop_last();
        lemma_hidden_labels_contains(init, items, label);
        assert(cs[cs.len() - 1] == cs.last());
        if exists|c: Claim| #[trigger] init.contains(c) && offers(items, c.0) && c.1 == label {
            let c = choose|c: Claim| #[trigger] init.contains(c) && offers(items, c.0) && c.1 == label;
            let k = choose|k: int| 0 <= k < init.len() && init[k] == c;
            assert(cs[k] == c);
        }
        let h = hidden_labels(cs, items);
        let hi = hidden_labels(init, items);
        if exists|c: Claim| #[trigger] cs.contains(c) && offers(items, c.0) && c.1 == label {
            let c = choose|c: Claim| #[trigger] cs.contains(c) && offers(items, c.0) && c.1 == label;
            let k = choose|k: int| 0 <= k < cs.len() && cs[k] == c;
            if k < init.len() {
                assert(init[k] == c);
                assert(init.contains(c));
                let m = choose|m: int| 0 <= m < hi.len() && hi[m] == label;
                assert(h[m] == label);
            } else {
                assert(h[hi.len() as int] == label);
            }
        }
        if h.contains(label) {
            let m = choose|m: int| 0 <= m < h.len() && h[m] == label;
            if m < hi.len() {
                assert(hi[m] == label);
                assert(hi.contains(label));
                let c = choose|c: Claim| #[trigger] init.contains(c) && offers(items, c.0) && c.1 == label;
                let k = choose|k: int| 0 <= k < init.len() && init[k] == c;
                assert(cs[k] == c);
                assert(cs.contains(c));
            } else {
                assert(offers(items, cs.last().0));
                assert(h[m] == cs.last().1);
                assert(cs.contains(cs.last()));
            }
        }
    }
}

/// A built-in item is hidden exactly while an action that claims it is
/// listed in the menu: the label is hidden if and only if some registry
/// action on offer names that built-in among its `replaces` ids and an item
/// with that action's qualified id is in the menu. An allowlist that leaves
/// the action out gets the built-in back.
pub proof fn lemma_builtin_hidden_while_claimant_listed(
    s: AppStateView,
    is_git_workspace: bool,
    label: Seq<char>,
)
    requires
        gets_plugin_section(s.mode, is_git_workspace),
    ensures
        menu_hidden_builtins(s, is_git_workspace).contains(label) <==> exists|i: int, j: int|
            #[trigger] offered_at(s.plugins, s.host, i, j) && action_claims_label(
                s.plugins[i].actions[j],
                label,
            ) && offers(menu_items(s, is_git_workspace), item_at(s.plugins, i, j).qualified_id()),
{
    let ps = s.plugins;
    let host = s.host;
    let items = menu_items(s, is_git_workspace);
    let cs = registry_claims(ps, host);
    lemma_hidden_labels_contains(cs, items, label);
    if menu_hidden_builtins(s, is_git_workspace).contains(label) {
        let c = choose|c: Claim| #[trigger] cs.contains(c) && offers(items, c.0) && c.1 == label;
        lemma_registry_claims_contains(ps, host, c);
        let (i, j) = choose|i: int, j: int| #[trigger] claim_at(ps, host, i, j, c);
        assert(offered_at(ps, host, i, j));
    }
    if exists|i: int, j: int|
        #[trigger] offered_at(ps, host, i, j) && action_claims_label(ps[i].actions[j], label)
            && offers(items, item_at(ps, i, j).qualified_id()) {
        let (i, j) = choose|i: int, j: int|
            #[trigger] offered_at(ps, host, i, j) && action_claims_label(ps[i].actions[j], label)
                && offers(items, item_at(ps, i, j).qualified_id());
        let c: Claim = (item_at(ps, i, j).qualified_id(), label);
        assert(claim_at(ps, host, i, j, c));
        lemma_registry_claims_contains(ps, host, c);
        assert(cs.contains(c));
    }
}

/// Nothing is hidden where nothing is listed.
pub proof fn lemma_nothing_listed_nothing_hidden(s: AppStateView, is_git_workspace: bool)
    requires
        menu_items(s, is_git_workspace).len() == 0,
    ensures
        menu_hidden_builtins(s, is_git_workspace).len() == 0,
{
    if gets_plugin_section(s.mode, is_git_workspace) {
        let h = menu_hidden_builtins(s, is_git_workspace);
        if h.len() > 0 {
            lemma_hidden_labels_contains(
                registry_claims(s.plugins, s.host),
                menu_items(s, is_git_workspace),
                h[0],
            );
            assert(h.contains(h[0]));
        }
    }
}

/// Without an allowlist the menu lists every offered item exactly as often
/// as the registry offers it, in stable order: no item sorts before one
/// listed earlier, by plugin id and then action id.
pub proof fn lemma_menu_sorted_without_allowlist(s: AppStateView, is_git_workspace: bool)
    requires
        gets_plugin_section(s.mode, is_git_workspace),
        s.allowlist.len() == 0,
    ensures
        is_sorted(menu_items(s, is_git_workspace)),
        menu_items(s, is_git_workspace).to_multiset() == registry_items(
            s.plugins,
            s.host,
        ).to_multiset(),
{
    lemma_sort_items(registry_items(s.plugins, s.host));
}

/// Items of `m` that share a qualified id are the same item.
pub open spec fn qualified_ids_identify(m: Multiset<MenuItemView>) -> bool {
    forall|a: MenuItemView, b: MenuItemView|
        #![trigger m.count(a), m.count(b)]
        m.count(a) > 0 && m.count(b) > 0 && a.qualified_id() == b.qualified_id() ==> a == b
}

/// Two orders of the same items, in which items sharing a qualified id are
/// the same item, name the same first item for every id.
proof fn lemma_first_from_agree(r1: Seq<MenuItemView>, r2: Seq<MenuItemView>, id: Seq<char>)
    requires
        r1.to_multiset() == r2.to_multiset(),
        qualified_ids_identify(r1.to_multiset()),
    ensures
        first_from(r1, id, 0) == first_from(r2, id, 0),
{
    broadcast use vstd::seq_lib::group_seq_properties;

    lemma_first_from_found(r1, id, 0);
    lemma_first_from_found(r2, id, 0);
    match first_from(r1, id, 0) {
        Some(e1) => {
            assert(r1.to_multiset().count(e1) > 0);
            assert(r2.contains(e1));
            let m = choose|m: int| 0 <= m < r2.len() && r2[m] == e1;
            assert(r2[m].qualified_id() == id);
            let e2 = first_from(r2, id, 0)->0;
            assert(r2.to_multiset().count(e2) > 0);
        },
        None => {
            if first_from(r2, id, 0) is Some {
                let e2 = first_from(r2, id, 0)->0;
                assert(r2.to_multiset().count(e2) > 0);
                assert(r1.contains(e2));
                let m = choose|m: int| 0 <= m < r1.len() && r1[m] == e2;
                assert(r1[m].qualified_id() == id);
            }
        },
    }
}

proof fn lemma_allowlisted_agree(r1: Seq<MenuItemView>, r2: Seq<MenuItemView>, allow: Seq<Seq<char>>)
    requires
        r1.to_multiset() == r2.to_multiset(),
        qualified_ids_identify(r1.to_multiset()),
    ensures
        allowlisted(r1, allow) == allowlisted(r2, allow),
    decreases allow.len(),
{
    if allow.len() > 0 {
        lemma_allowlisted_agree(r1, r2, allow.drop_last());
        lemma_first_from_agree(r1, r2, allow.last());
    }
}

/// The menu does not reshuffle between opens: two walks of the same registry
/// (the same plugins in any order), in which offered actions that share a
/// qualified id are the same action, list the same items in the same order,
/// with or without an allowlist, and hide the same built-in labels.
pub proof fn lemma_menu_ignores_registry_order_for_distinct_actions(
    s1: AppStateView,
    s2: AppStateView,
    is_git_workspace: bool,
)
    requires
        s1.mode == s2.mode,
        s1.host == s2.host,
        s1.allowlist == s2.allowlist,
        s1.plugins.to_multiset() == s2.plugins.to_multiset(),
        qualified_ids_identify(registry_items(s1.plugins, s1.host).to_multiset()),
    ensures
        menu_items(s1, is_git_workspace) == menu_items(s2, is_git_workspace),
        menu_hidden_builtins(s1, is_git_workspace).to_multiset() == menu_hidden_builtins(
            s2,
            is_git_workspace,
        ).to_multiset(),
{
    if gets_plugin_section(s1.mode, is_git_workspace) {
        let host = s1.host;
        let r1 = registry_items(s1.plugins, host);
        let r2 = registry_items(s2.plugins, host);
        lemma_registry_items_gather(s1.plugins, host);
        lemma_registry_items_gather(s2.plugins, host);
        lemma_gather_permutation(s1.plugins, s2.plugins, |p: PluginView| plugin_items(p, host));
        assert(r1.to_multiset() == r2.to_multiset());
        if s1.allowlist.len() > 0 {
            lemma_allowlisted_agree(r1, r2, s1.allowlist);
        } else {
            lemma_sort_items(r1);
            lemma_sort_items(r2);
            let m = r1.to_multiset();
            assert forall|a: MenuItemView, b: MenuItemView|
                #![trigger m.count(a), m.count(b)]
                m.count(a) > 0 && m.count(b) > 0 && a.plugin_id == b.plugin_id && a.action_id
                    == b.action_id implies a == b by {
                assert(a.qualified_id() == b.qualified_id());
            }
            assert(keys_identify(sort_items(r1).to_multiset()));
            lemma_sorted_equal_by_multiset(sort_items(r1), sort_items(r2));
        }
        let items = menu_items(s1, is_git_workspace);
        lemma_registry_claims_gather(s1.plugins, host);
        lemma_registry_claims_gather(s2.plugins, host);
        lemma_gather_permutation(s1.plugins, s2.plugins, |p: PluginView| plugin_claims(p, host));
        let c1 = registry_claims(s1.plugins, host);
        let c2 = registry_claims(s2.plugins, host);
        lemma_hidden_labels_gather(c1, items);
        lemma_hidden_labels_gather(c2, items);
        lemma_gather_permutation(
            c1,
            c2,
            |c: Claim|
                if offers(items, c.0) {
                    seq![c.1]
                } else {
                    Seq::<Seq<char>>::empty()
                },
        );
    }
}

} // verus!
