//! What each step of the menu resolution means, stated directly over
//! characters, sequences and indices.
use vstd::prelude::*;

use crate::menu::{
    action_offered, allowlisted, claims, claims_in, first_from, gets_plugin_section,
    hidden_labels, menu_hidden_builtins, menu_items, offered_in, offers, plugin_usable,
    registry_claims, registry_items, AppStateView, Claim, MenuItemView, WorkspaceMenuConfig,
};
use crate::order::{item_less, sort_items};
use crate::plugin::{
    builtin_label, manifest_available, supported_on, PluginActionContext,
    PluginActionView, PluginPlatform, PluginView, MANIFEST_UNAVAILABLE_WARNING_PREFIX,
};
use crate::text::text_less;

verus! {

broadcast use vstd::seq_lib::group_to_multiset_ensures, vstd::multiset::group_multiset_axioms;

/// A platform list admits `host` exactly when one of its entries is `host`;
/// no list admits every platform.
pub proof fn lemma_platform_list_admits_host(list: Seq<PluginPlatform>, host: PluginPlatform)
    ensures
        supported_on(Some(list), host) <==> exists|k: int| 0 <= k < list.len() && list[k] == host,
        supported_on(None, host),
{
}

/// An action is on offer exactly when it declares the workspace context and
/// the host is named by its own platform list, or, where it has none, by its
/// plugin's list, or neither has a list.
pub proof fn lemma_action_offered_meaning(p: PluginView, a: PluginActionView, host: PluginPlatform)
    ensures
        action_offered(p, a, host) <==> {
            &&& exists|k: int|
                0 <= k < a.contexts.len() && a.contexts[k] == PluginActionContext::Workspace
            &&& match a.platforms {
                Some(own) => exists|k: int| 0 <= k < own.len() && own[k] == host,
                None => match p.platforms {
                    Some(inherited) => exists|k: int|
                        0 <= k < inherited.len() && inherited[k] == host,
                    None => true,
                },
            }
        },
{
}

/// A warning that marks the manifest unreadable begins with the prefix.
pub open spec fn marks_manifest_unavailable(w: Seq<char>) -> bool {
    let prefix = MANIFEST_UNAVAILABLE_WARNING_PREFIX@;
    &&& prefix.len() <= w.len()
    &&& forall|k: int| 0 <= k < prefix.len() ==> w[k] == prefix[k]
}

/// A manifest is available exactly when no warning, wherever it stands in the
/// list, begins with the prefix; a plugin can run exactly when it is enabled
/// and its manifest is available.
pub proof fn lemma_manifest_availability_meaning(p: PluginView)
    ensures
        manifest_available(p) <==> !exists|i: int|
            0 <= i < p.warnings.len() && marks_manifest_unavailable(#[trigger] p.warnings[i]),
        plugin_usable(p) <==> (p.enabled && manifest_available(p)),
{
    let prefix = MANIFEST_UNAVAILABLE_WARNING_PREFIX@;
    assert forall|i: int| 0 <= i < p.warnings.len() implies prefix.is_prefix_of(
        #[trigger] p.warnings[i],
    ) == marks_manifest_unavailable(p.warnings[i]) by {
        let w = p.warnings[i];
        if marks_manifest_unavailable(w) {
            assert(prefix =~= w.subrange(0, prefix.len() as int));
        }
        if prefix.is_prefix_of(w) {
            assert forall|k: int| 0 <= k < prefix.len() implies w[k] == prefix[k] by {
                assert(w.subrange(0, prefix.len() as int)[k] == w[k]);
            }
        }
    }
}

/// Reordering a plugin's warnings does not change whether its manifest is
/// available.
pub proof fn lemma_manifest_availability_ignores_warning_order(p1: PluginView, p2: PluginView)
    requires
        p1.warnings.to_multiset() == p2.warnings.to_multiset(),
    ensures
        manifest_available(p1) == manifest_available(p2),
{
    lemma_manifest_availability_meaning(p1);
    lemma_manifest_availability_meaning(p2);
    if exists|i: int|
        0 <= i < p1.warnings.len() && marks_manifest_unavailable(#[trigger] p1.warnings[i]) {
        let i = choose|i: int|
            0 <= i < p1.warnings.len() && marks_manifest_unavailable(#[trigger] p1.warnings[i]);
        let w = p1.warnings[i];
        assert(p1.warnings.contains(w));
        assert(p2.warnings.to_multiset().count(w) > 0);
        assert(p2.warnings.contains(w));
        let j = choose|j: int| 0 <= j < p2.warnings.len() && p2.warnings[j] == w;
        assert(marks_manifest_unavailable(p2.warnings[j]));
    }
    if exists|i: int|
        0 <= i < p2.warnings.len() && marks_manifest_unavailable(#[trigger] p2.warnings[i]) {
        let i = choose|i: int|
            0 <= i < p2.warnings.len() && marks_manifest_unavailable(#[trigger] p2.warnings[i]);
        let w = p2.warnings[i];
        assert(p2.warnings.contains(w));
        assert(p1.warnings.to_multiset().count(w) > 0);
        assert(p1.warnings.contains(w));
        let j = choose|j: int| 0 <= j < p1.warnings.len() && p1.warnings[j] == w;
        assert(marks_manifest_unavailable(p1.warnings[j]));
    }
}

/// The qualified id of an item is its plugin id, a dot, and its action id.
pub proof fn lemma_qualified_id_meaning(x: MenuItemView)
    ensures
        x.qualified_id() == x.plugin_id + seq!['.'] + x.action_id,
{
}

/// Some listed item is named `qid`: its plugin id, a dot and its action id
/// spell `qid` exactly (an id that merely begins with `qid` does not count).
pub proof fn lemma_offers_meaning(items: Seq<MenuItemView>, qid: Seq<char>)
    ensures
        offers(items, qid) <==> exists|k: int|
            0 <= k < items.len() && (#[trigger] items[k]).plugin_id + seq!['.'] + items[k].action_id
                == qid,
{
    if offers(items, qid) {
        let k = choose|k: int| 0 <= k < items.len() && #[trigger] items[k].qualified_id() == qid;
        assert(items[k].plugin_id + seq!['.'] + items[k].action_id == qid);
    }
    if exists|k: int|
        0 <= k < items.len() && (#[trigger] items[k]).plugin_id + seq!['.'] + items[k].action_id
            == qid {
        let k = choose|k: int|
            0 <= k < items.len() && (#[trigger] items[k]).plugin_id + seq!['.'] + items[k].action_id
                == qid;
        assert(items[k].qualified_id() == qid);
    }
}

/// Claims are kept in order, each labelled claim hiding its built-in while an
/// item spelled exactly as its claimant's id is listed, and no other.
pub proof fn lemma_hidden_labels_step(cs: Seq<Claim>, c: Claim, items: Seq<MenuItemView>)
    ensures
        hidden_labels(Seq::<Claim>::empty(), items) == Seq::<Seq<char>>::empty(),
        hidden_labels(cs.push(c), items) == hidden_labels(cs, items) + if exists|k: int|
            0 <= k < items.len() && (#[trigger] items[k]).plugin_id + seq!['.'] + items[k].action_id
                == c.0 {
            seq![c.1]
        } else {
            Seq::<Seq<char>>::empty()
        },
{
    lemma_offers_meaning(items, c.0);
    assert(cs.push(c).drop_last() =~= cs);
}

/// The `replaces` ids that name a built-in become claims, in order, and no
/// other id does; only the worktree items can be claimed.
pub proof fn lemma_claims_step(qid: Seq<char>, rs: Seq<Seq<char>>, r: Seq<char>)
    ensures
        claims(qid, Seq::<Seq<char>>::empty()) == Seq::<Claim>::empty(),
        claims(qid, rs.push(r)) == claims(qid, rs) + match builtin_label(r) {
            Some(label) => seq![(qid, label)],
            None => Seq::<Claim>::empty(),
        },
        r == "new_worktree"@ ==> builtin_label(r) == Some("New worktree"@),
        r == "open_worktree"@ ==> builtin_label(r) == Some("Open worktree..."@),
        r != "new_worktree"@ && r != "open_worktree"@ ==> builtin_label(r) is None,
{
    assert(rs.push(r).drop_last() =~= rs);
    reveal_strlit("new_worktree");
    reveal_strlit("open_worktree");
    assert("new_worktree"@[0] != "open_worktree"@[0]);
}

/// The offered items of a plugin's actions come in manifest order, one per
/// offered action, carrying the plugin id and the action's id and title.
pub proof fn lemma_offered_in_step(
    p: PluginView,
    acts: Seq<PluginActionView>,
    a: PluginActionView,
    host: PluginPlatform,
)
    ensures
        offered_in(p, Seq::<PluginActionView>::empty(), host) == Seq::<MenuItemView>::empty(),
        offered_in(p, acts.push(a), host) == offered_in(p, acts, host) + if action_offered(
            p,
            a,
            host,
        ) {
            seq![MenuItemView { plugin_id: p.plugin_id, action_id: a.id, title: a.title }]
        } else {
            Seq::<MenuItemView>::empty()
        },
        claims_in(p, acts.push(a), host) == claims_in(p, acts, host) + if action_offered(
            p,
            a,
            host,
        ) {
            claims(p.plugin_id + seq!['.'] + a.id, a.replaces)
        } else {
            Seq::<Claim>::empty()
        },
{
    assert(acts.push(a).drop_last() =~= acts);
}

/// The registry's offered items and claims come plugin by plugin in walk
/// order; a plugin that is disabled or whose manifest is unavailable adds
/// nothing.
pub proof fn lemma_registry_step(ps: Seq<PluginView>, p: PluginView, host: PluginPlatform)
    ensures
        registry_items(Seq::<PluginView>::empty(), host) == Seq::<MenuItemView>::empty(),
        registry_items(ps.push(p), host) == registry_items(ps, host) + if p.enabled
            && manifest_available(p) {
            offered_in(p, p.actions, host)
        } else {
            Seq::<MenuItemView>::empty()
        },
        registry_claims(ps.push(p), host) == registry_claims(ps, host) + if p.enabled
            && manifest_available(p) {
            claims_in(p, p.actions, host)
        } else {
            Seq::<Claim>::empty()
        },
{
    assert(ps.push(p).drop_last() =~= ps);
}

/// An allowlisted id adds the first item spelled exactly as that id, after
/// the items of the ids before it.
pub proof fn lemma_allowlist_appends_first_match(
    items: Seq<MenuItemView>,
    allow: Seq<Seq<char>>,
    id: Seq<char>,
    m: int,
)
    requires
        0 <= m < items.len(),
        items[m].plugin_id + seq!['.'] + items[m].action_id == id,
        forall|n: int|
            0 <= n < m ==> (#[trigger] items[n]).plugin_id + seq!['.'] + items[n].action_id != id,
    ensures
        allowlisted(items, allow.push(id)) == allowlisted(items, allow).push(items[m]),
{
    assert(allow.push(id).drop_last() =~= allow);
    assert(items[m].qualified_id() == id);
    assert forall|n: int| 0 <= n <= m implies first_from(items, id, n) == Some(items[m]) by {
        lemma_first_from_from(items, id, n, m);
    }
}

proof fn lemma_first_from_from(items: Seq<MenuItemView>, id: Seq<char>, n: int, m: int)
    requires
        0 <= n <= m < items.len(),
        items[m].qualified_id() == id,
        forall|q: int|
            0 <= q < m ==> (#[trigger] items[q]).plugin_id + seq!['.'] + items[q].action_id != id,
    ensures
        first_from(items, id, n) == Some(items[m]),
    decreases m - n,
{
    if n < m {
        assert(items[n].plugin_id + seq!['.'] + items[n].action_id != id);
        assert(items[n].qualified_id() != id);
        lemma_first_from_from(items, id, n + 1, m);
    }
}

proof fn lemma_first_from_none(items: Seq<MenuItemView>, id: Seq<char>, n: int)
    requires
        0 <= n,
        forall|q: int|
            0 <= q < items.len() ==> (#[trigger] items[q]).plugin_id + seq!['.'] + items[q].action_id
                != id,
    ensures
        first_from(items, id, n) is None,
    decreases items.len() - n,
{
    if n < items.len() {
        assert(items[n].plugin_id + seq!['.'] + items[n].action_id != id);
        lemma_first_from_none(items, id, n + 1);
    }
}

/// An allowlisted id that names no item adds nothing; an empty allowlist
/// picks nothing.
pub proof fn lemma_allowlist_drops_unknown_ids(
    items: Seq<MenuItemView>,
    allow: Seq<Seq<char>>,
    id: Seq<char>,
)
    requires
        forall|n: int|
            0 <= n < items.len() ==> (#[trigger] items[n]).plugin_id + seq!['.'] + items[n].action_id
                != id,
    ensures
        allowlisted(items, allow.push(id)) == allowlisted(items, allow),
        allowlisted(items, Seq::<Seq<char>>::empty()) == Seq::<MenuItemView>::empty(),
{
    assert(allow.push(id).drop_last() =~= allow);
    lemma_first_from_none(items, id, 0);
    assert(allowlisted(items, allow) + Seq::<MenuItemView>::empty() =~= allowlisted(items, allow));
}

/// Items sort by plugin id, and by action id between items of one plugin.
pub proof fn lemma_item_order_meaning(a: MenuItemView, b: MenuItemView)
    ensures
        item_less(a, b) <==> (text_less(a.plugin_id, b.plugin_id) || (a.plugin_id == b.plugin_id
            && text_less(a.action_id, b.action_id))),
{
}

/// A workspace gets a plugin section under `All`, and under `Git` exactly when
/// it is a git workspace; under `Off` it never does. With a section, the menu
/// lists the allowlisted items when there is an allowlist and otherwise every
/// offered item in stable order, and hides the labels claimed by listed
/// actions; without one it lists and hides nothing.
pub proof fn lemma_menu_meaning(s: AppStateView, is_git_workspace: bool)
    ensures
        gets_plugin_section(s.mode, is_git_workspace) <==> (s.mode == WorkspaceMenuConfig::All || (
        s.mode == WorkspaceMenuConfig::Git && is_git_workspace)),
        gets_plugin_section(s.mode, is_git_workspace) && s.allowlist.len() > 0 ==> menu_items(
            s,
            is_git_workspace,
        ) == allowlisted(registry_items(s.plugins, s.host), s.allowlist),
        gets_plugin_section(s.mode, is_git_workspace) && s.allowlist.len() == 0 ==> menu_items(
            s,
            is_git_workspace,
        ) == sort_items(registry_items(s.plugins, s.host)),
        gets_plugin_section(s.mode, is_git_workspace) ==> menu_hidden_builtins(s, is_git_workspace)
            == hidden_labels(registry_claims(s.plugins, s.host), menu_items(s, is_git_workspace)),
        !gets_plugin_section(s.mode, is_git_workspace) ==> menu_items(s, is_git_workspace)
            == Seq::<MenuItemView>::empty() && menu_hidden_builtins(s, is_git_workspace)
            == Seq::<Seq<char>>::empty(),
{
}

} // verus!
