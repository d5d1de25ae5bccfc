//! Resolution of the plugin actions that a workspace context menu offers.
//!
//! A plugin action may declare the workspace context. The actions resolved
//! here are drawn after Herdr's own menu items, and a pick is dispatched back
//! to the plugin.
use vstd::prelude::*;
use vstd::string::*;

use crate::order::{sort_items, sort_menu_items};
use crate::plugin::{
    action_supported_on, builtin_label, builtin_menu_item_label, declares_workspace_context,
    effective_platforms, manifest_available, plugin_manifest_available, supported_on,
    texts_view, InstalledPluginInfo, PluginActionContext, PluginActionView, PluginPlatform,
    PluginView,
};

verus! {

/// A plugin action offered in a workspace menu.
#[derive(Clone, Debug, PartialEq, Eq)]
pub struct WorkspaceMenuPluginItem {
    pub plugin_id: String,
    pub action_id: String,
    pub title: String,
}

/// The mathematical value of a [`WorkspaceMenuPluginItem`].
pub struct MenuItemView {
    pub plugin_id: Seq<char>,
    pub action_id: Seq<char>,
    pub title: Seq<char>,
}

/// The id under which an action is named: `plugin.action`.
pub open spec fn qualified(plugin_id: Seq<char>, action_id: Seq<char>) -> Seq<char> {
    plugin_id + seq!['.'] + action_id
}

impl MenuItemView {
    pub open spec fn qualified_id(self) -> Seq<char> {
        qualified(self.plugin_id, self.action_id)
    }
}

/// The values of a sequence of items.
pub open spec fn items_view(v: Seq<WorkspaceMenuPluginItem>) -> Seq<MenuItemView> {
    v.map_values(|it: WorkspaceMenuPluginItem| it@)
}

impl View for WorkspaceMenuPluginItem {
    type V = MenuItemView;

    open spec fn view(&self) -> MenuItemView {
        MenuItemView { plugin_id: self.plugin_id@, action_id: self.action_id@, title: self.title@ }
    }
}

impl WorkspaceMenuPluginItem {
    /// The action's qualified id, `plugin_id.action_id`.
    pub fn qualified_id(&self) -> (res: String)
        ensures
            res@ == self@.qualified_id(),
    {
        let mut id = self.plugin_id.clone();
        id.append(".");
        id.append(self.action_id.as_str());
        proof {
            reveal_strlit(".");
        }
        id
    }

    /// A copy of the item, equal to it in value.
    pub fn duplicate(&self) -> (res: Self)
        ensures
            res@ == self@,
    {
        WorkspaceMenuPluginItem {
            plugin_id: self.plugin_id.clone(),
            action_id: self.action_id.clone(),
            title: self.title.clone(),
        }
    }
}

/// Which workspaces get a plugin section in their context menu.
#[derive(Clone, Copy, Debug, PartialEq, Eq, Structural)]
pub enum WorkspaceMenuConfig {
    /// No workspace does.
    Off,
    /// Git workspaces only.
    Git,
    /// Every workspace.
    All,
}

/// What plugins contribute to one workspace context menu.
#[derive(Debug)]
pub struct WorkspaceMenuPlugins {
    /// Actions to list after Herdr's own items.
    pub items: Vec<WorkspaceMenuPluginItem>,
    /// Built-in item labels to leave out, because a listed action replaces them.
    pub hidden_builtins: Vec<&'static str>,
}

/// The mathematical value of a [`WorkspaceMenuPlugins`].
pub struct MenuView {
    pub items: Seq<MenuItemView>,
    pub hidden_builtins: Seq<Seq<char>>,
}

impl View for WorkspaceMenuPlugins {
    type V = MenuView;

    open spec fn view(&self) -> MenuView {
        MenuView {
            items: items_view(self.items@),
            hidden_builtins: self.hidden_builtins@.map_values(|l: &'static str| l@),
        }
    }
}

impl Default for WorkspaceMenuPlugins {
    fn default() -> (res: Self)
        ensures
            res@.items.len() == 0,
            res@.hidden_builtins.len() == 0,
    {
        WorkspaceMenuPlugins { items: Vec::new(), hidden_builtins: Vec::new() }
    }
}

/// The part of the application state that plugin menu resolution reads.
#[derive(Debug)]
pub struct AppState {
    /// `plugins.workspace_menu`: which workspaces get plugin actions at all.
    pub plugin_workspace_menu: WorkspaceMenuConfig,
    /// `plugins.workspace_menu_actions`: qualified ids of the actions to
    /// offer, in order; empty means every action, in stable order.
    pub plugin_workspace_menu_actions: Vec<String>,
    /// The cached plugin registry, in the order it happens to be walked.
    pub installed_plugins: Vec<InstalledPluginInfo>,
    /// The platform this build runs on.
    pub host_platform: PluginPlatform,
}

/// The mathematical value of an [`AppState`].
pub struct AppStateView {
    pub mode: WorkspaceMenuConfig,
    pub allowlist: Seq<Seq<char>>,
    pub plugins: Seq<PluginView>,
    pub host: PluginPlatform,
}

impl View for AppState {
    type V = AppStateView;

    open spec fn view(&self) -> AppStateView {
        AppStateView {
            mode: self.plugin_workspace_menu,
            allowlist: texts_view(self.plugin_workspace_menu_actions@),
            plugins: self.installed_plugins@.map_values(|p: InstalledPluginInfo| p@),
            host: self.host_platform,
        }
    }
}

/// A claim that an action replaces a built-in: (qualified action id, label).
pub type Claim = (Seq<char>, Seq<char>);

pub open spec fn claims_view(v: Seq<(String, &'static str)>) -> Seq<Claim> {
    v.map_values(|c: (String, &'static str)| (c.0@, c.1@))
}

/// The plugin can run at all: enabled, with a readable manifest.
pub open spec fn plugin_usable(p: PluginView) -> bool {
    p.enabled && manifest_available(p)
}

/// The action declares the workspace context and runs on `host`.
pub open spec fn action_offered(p: PluginView, a: PluginActionView, host: PluginPlatform) -> bool {
    &&& a.contexts.contains(PluginActionContext::Workspace)
    &&& supported_on(effective_platforms(p, a), host)
}

/// The menu item for an action.
pub open spec fn action_item(p: PluginView, a: PluginActionView) -> MenuItemView {
    MenuItemView { plugin_id: p.plugin_id, action_id: a.id, title: a.title }
}

/// The claims made by an action named `qid`: one for each of its `replaces`
/// ids that names a built-in, in order.
pub open spec fn claims(qid: Seq<char>, replaces: Seq<Seq<char>>) -> Seq<Claim>
    decreases replaces.len(),
{
    if replaces.len() == 0 {
        Seq::empty()
    } else {
        claims(qid, replaces.drop_last()) + match builtin_label(replaces.last()) {
            Some(label) => seq![(qid, label)],
            None => Seq::empty(),
        }
    }
}

/// The items of the offered actions among `acts`, in order.
pub open spec fn offered_in(p: PluginView, acts: Seq<PluginActionView>, host: PluginPlatform) -> Seq<
    MenuItemView,
>
    decreases acts.len(),
{
    if acts.len() == 0 {
        Seq::empty()
    } else {
        offered_in(p, acts.drop_last(), host) + if action_offered(p, acts.last(), host) {
            seq![action_item(p, acts.last())]
        } else {
            Seq::empty()
        }
    }
}

/// The claims of the offered actions among `acts`, in order.
pub open spec fn claims_in(p: PluginView, acts: Seq<PluginActionView>, host: PluginPlatform) -> Seq<
    Claim,
>
    decreases acts.len(),
{
    if acts.len() == 0 {
        Seq::empty()
    } else {
        claims_in(p, acts.drop_last(), host) + if action_offered(p, acts.last(), host) {
            claims(action_item(p, acts.last()).qualified_id(), acts.last().replaces)
        } else {
            Seq::empty()
        }
    }
}

/// The items a plugin offers.
pub open spec fn plugin_items(p: PluginView, host: PluginPlatform) -> Seq<MenuItemView> {
    if plugin_usable(p) {
        offered_in(p, p.actions, host)
    } else {
        Seq::empty()
    }
}

/// The claims a plugin's offered actions make.
pub open spec fn plugin_claims(p: PluginView, host: PluginPlatform) -> Seq<Claim> {
    if plugin_usable(p) {
        claims_in(p, p.actions, host)
    } else {
        Seq::empty()
    }
}

/// Every offered item of the registry, plugin by plugin in registry order.
pub open spec fn registry_items(ps: Seq<PluginView>, host: PluginPlatform) -> Seq<MenuItemView>
    decreases ps.len(),
{
    if ps.len() == 0 {
        Seq::empty()
    } else {
        registry_items(ps.drop_last(), host) + plugin_items(ps.last(), host)
    }
}

/// Every claim of the registry's offered actions, in registry order.
pub open spec fn registry_claims(ps: Seq<PluginView>, host: PluginPlatform) -> Seq<Claim>
    decreases ps.len(),
{
    if ps.len() == 0 {
        Seq::empty()
    } else {
        registry_claims(ps.drop_last(), host) + plugin_claims(ps.last(), host)
    }
}

/// The first item at or after position `k` whose qualified id is `id`.
pub open spec fn first_from(items: Seq<MenuItemView>, id: Seq<char>, k: int) -> Option<MenuItemView>
    decreases items.len() - k,
{
    if k < 0 || k >= items.len() {
        None
    } else if items[k].qualified_id() == id {
        Some(items[k])
    } else {
        first_from(items, id, k + 1)
    }
}

/// For each allowlisted id in order, the first item it names; ids that name
/// nothing are dropped.
pub open spec fn allowlisted(items: Seq<MenuItemView>, allow: Seq<Seq<char>>) -> Seq<MenuItemView>
    decreases allow.len(),
{
    if allow.len() == 0 {
        Seq::empty()
    } else {
        allowlisted(items, allow.drop_last()) + match first_from(items, allow.last(), 0) {
            Some(item) => seq![item],
            None => Seq::empty(),
        }
    }
}

/// Some item of `items` is named `qid`.
pub open spec fn offers(items: Seq<MenuItemView>, qid: Seq<char>) -> bool {
    exists|i: int| 0 <= i < items.len() && #[trigger] items[i].qualified_id() == qid
}

/// The labels of the claims whose action is among `items`, in claim order.
pub open spec fn hidden_labels(cs: Seq<Claim>, items: Seq<MenuItemView>) -> Seq<Seq<char>>
    decreases cs.len(),
{
    if cs.len() == 0 {
        Seq::empty()
    } else {
        hidden_labels(cs.drop_last(), items) + if offers(items, cs.last().0) {
            seq![cs.last().1]
        } else {
            Seq::empty()
        }
    }
}

/// Whether a workspace gets a plugin section under `mode`.
pub open spec fn gets_plugin_section(mode: WorkspaceMenuConfig, is_git_workspace: bool) -> bool {
    match mode {
        WorkspaceMenuConfig::Off => false,
        WorkspaceMenuConfig::Git => is_git_workspace,
        WorkspaceMenuConfig::All => true,
    }
}

/// The plugin items of a workspace menu: none without a plugin section;
/// with an allowlist, the allowlisted actions in its order; else every
/// offered action in stable order.
pub open spec fn menu_items(s: AppStateView, is_git_workspace: bool) -> Seq<MenuItemView> {
    if !gets_plugin_section(s.mode, is_git_workspace) {
        Seq::empty()
    } else if s.allowlist.len() > 0 {
        allowlisted(registry_items(s.plugins, s.host), s.allowlist)
    } else {
        sort_items(registry_items(s.plugins, s.host))
    }
}

/// The built-in labels a workspace menu leaves out: those claimed by an
/// action that is on offer in the menu.
pub open spec fn menu_hidden_builtins(s: AppStateView, is_git_workspace: bool) -> Seq<Seq<char>> {
    if !gets_plugin_section(s.mode, is_git_workspace) {
        Seq::empty()
    } else {
        hidden_labels(registry_claims(s.plugins, s.host), menu_items(s, is_git_workspace))
    }
}

/// Appends the claims of the action named `qid` whose `replaces` list is
/// `replaces`.
fn collect_claims(
    qid: &String,
    replaces: &Vec<String>,
    replaced: &mut Vec<(String, &'static str)>,
)
    ensures
        claims_view(final(replaced)@) == claims_view(old(replaced)@) + claims(
            qid@,
            texts_view(replaces@),
        ),
{
    let ghost start = claims_view(replaced@);
    let ghost r = texts_view(replaces@);
    let n = replaces.len();
    let mut i: usize = 0;
    assert(r.take(0) =~= Seq::<Seq<char>>::empty());
    assert(start + Seq::<Claim>::empty() =~= start);
    while i < n
        invariant
            n == replaces@.len(),
            r == texts_view(replaces@),
            i <= n,
            claims_view(replaced@) == start + claims(qid@, r.take(i as int)),
        decreases n - i,
    {
        let ghost before = replaced@;
        let label = builtin_menu_item_label(replaces[i].as_str());
        assert(r.take(i + 1).drop_last() =~= r.take(i as int));
        assert(r.take(i + 1).last() == replaces@[i as int]@);
        match label {
            Some(label) => {
                replaced.push((qid.clone(), label));
                assert(claims_view(replaced@) =~= claims_view(before).push((qid@, label@)));
            },
            None => {},
        }
        assert(claims_view(replaced@) =~= start + claims(qid@, r.take(i + 1)));
        i = i + 1;
    }
    assert(r.take(n as int) =~= r);
}

/// Appends the items and claims of the plugin's offered actions.
fn collect_plugin(
    plugin: &InstalledPluginInfo,
    host: PluginPlatform,
    items: &mut Vec<WorkspaceMenuPluginItem>,
    replaced: &mut Vec<(String, &'static str)>,
)
    requires
        plugin_usable(plugin@),
    ensures
        items_view(final(items)@) == items_view(old(items)@) + plugin_items(plugin@, host),
        claims_view(final(replaced)@) == claims_view(old(replaced)@) + plugin_claims(
            plugin@,
            host,
        ),
{
    let ghost items0 = items_view(items@);
    let ghost claims0 = claims_view(replaced@);
    let ghost p = plugin@;
    let ghost acts = p.actions;
    let n = plugin.actions.len();
    let mut i: usize = 0;
    assert(acts.take(0) =~= Seq::<PluginActionView>::empty());
    assert(items0 + Seq::<MenuItemView>::empty() =~= items0);
    assert(claims0 + Seq::<Claim>::empty() =~= claims0);
    while i < n
        invariant
            n == plugin.actions@.len(),
            p == plugin@,
            acts == p.actions,
            i <= n,
            items_view(items@) == items0 + offered_in(p, acts.take(i as int), host),
            claims_view(replaced@) == claims0 + claims_in(p, acts.take(i as int), host),
        decreases n - i,
    {
        let action = &plugin.actions[i];
        assert(acts[i as int] == action@);
        assert(acts.take(i + 1).drop_last() =~= acts.take(i as int));
        assert(acts.take(i + 1).last() == action@);
        let ghost items_before = items_view(items@);
        let ghost claims_before = claims_view(replaced@);
        if declares_workspace_context(action) && action_supported_on(plugin, action, host) {
            let item = WorkspaceMenuPluginItem {
                plugin_id: plugin.plugin_id.clone(),
                action_id: action.id.clone(),
                title: action.title.clone(),
            };
            assert(item@ == action_item(p, action@));
            let qid = item.qualified_id();
            collect_claims(&qid, &action.replaces, replaced);
            items.push(item);
            assert(items_view(items@) =~= items_before.push(item@));
        }
        assert(items_view(items@) =~= items0 + offered_in(p, acts.take(i + 1), host));
        assert(claims_view(replaced@) =~= claims0 + claims_in(p, acts.take(i + 1), host));
        i = i + 1;
    }
    assert(acts.take(n as int) =~= acts);
}

/// Whether some item is named `qid`.
fn offers_qualified_id(items: &Vec<WorkspaceMenuPluginItem>, qid: &String) -> (res: bool)
    ensures
        res == offers(items_view(items@), qid@),
{
    let ghost s = items_view(items@);
    let n = items.len();
    let mut i: usize = 0;
    while i < n
        invariant
            n == items@.len(),
            s == items_view(items@),
            i <= n,
            forall|k: int| 0 <= k < i ==> #[trigger] s[k].qualified_id() != qid@,
        decreases n - i,
    {
        let id = items[i].qualified_id();
        assert(s[i as int] == items@[i as int]@);
        if id == *qid {
            return true;
        }
        i = i + 1;
    }
    false
}

/// The index of the first item named `id`, if any.
fn find_qualified_id(items: &Vec<WorkspaceMenuPluginItem>, id: &String) -> (res: Option<usize>)
    ensures
        match res {
            Some(k) => k < items@.len() && first_from(items_view(items@), id@, 0) == Some(
                items@[k as int]@,
            ),
            None => first_from(items_view(items@), id@, 0) is None,
        },
{
    let ghost s = items_view(items@);
    let n = items.len();
    let mut i: usize = 0;
    while i < n
        invariant
            n == items@.len(),
            s == items_view(items@),
            i <= n,
            first_from(s, id@, 0) == first_from(s, id@, i as int),
        decreases n - i,
    {
        let q = items[i].qualified_id();
        assert(s[i as int] == items@[i as int]@);
        if q == *id {
            return Some(i);
        }
        i = i + 1;
    }
    None
}

/// The allowlisted items, in allowlist order.
fn pick_allowlisted(items: &Vec<WorkspaceMenuPluginItem>, allowlist: &Vec<String>) -> (res: Vec<
    WorkspaceMenuPluginItem,
>)
    ensures
        items_view(res@) == allowlisted(items_view(items@), texts_view(allowlist@)),
{
    let ghost s = items_view(items@);
    let ghost a = texts_view(allowlist@);
    let mut out: Vec<WorkspaceMenuPluginItem> = Vec::new();
    let n = allowlist.len();
    let mut i: usize = 0;
    assert(a.take(0) =~= Seq::<Seq<char>>::empty());
    assert(items_view(out@) =~= Seq::<MenuItemView>::empty());
    while i < n
        invariant
            n == allowlist@.len(),
            s == items_view(items@),
            a == texts_view(allowlist@),
            i <= n,
            items_view(out@) == allowlisted(s, a.take(i as int)),
        decreases n - i,
    {
        let ghost before = items_view(out@);
        assert(a.take(i + 1).drop_last() =~= a.take(i as int));
        assert(a.take(i + 1).last() == allowlist@[i as int]@);
        match find_qualified_id(items, &allowlist[i]) {
            Some(k) => {
                let item = items[k].duplicate();
                out.push(item);
                assert(items_view(out@) =~= before.push(item@));
            },
            None => {},
        }
        assert(items_view(out@) =~= allowlisted(s, a.take(i + 1)));
        i = i + 1;
    }
    assert(a.take(n as int) =~= a);
    out
}

/// The labels of the claims whose action is among `items`.
fn hidden_builtin_labels(
    replaced: &Vec<(String, &'static str)>,
    items: &Vec<WorkspaceMenuPluginItem>,
) -> (res: Vec<&'static str>)
    ensures
        res@.map_values(|l: &'static str| l@) == hidden_labels(
            claims_view(replaced@),
            items_view(items@),
        ),
{
    let ghost cs = claims_view(replaced@);
    let mut out: Vec<&'static str> = Vec::new();
    let n = replaced.len();
    let mut i: usize = 0;
    assert(cs.take(0) =~= Seq::<Claim>::empty());
    assert(out@.map_values(|l: &'static str| l@) =~= Seq::<Seq<char>>::empty());
    while i < n
        invariant
            n == replaced@.len(),
            cs == claims_view(replaced@),
            i <= n,
            out@.map_values(|l: &'static str| l@) == hidden_labels(
                cs.take(i as int),
                items_view(items@),
            ),
        decreases n - i,
    {
        let ghost before = out@.map_values(|l: &'static str| l@);
        assert(cs.take(i + 1).drop_last() =~= cs.take(i as int));
        assert(cs.take(i + 1).last() == (replaced@[i as int].0@, replaced@[i as int].1@));
        let (qid, label) = &replaced[i];
        if offers_qualified_id(items, qid) {
            out.push(*label);
            assert(out@.map_values(|l: &'static str| l@) =~= before.push(label@));
        }
        assert(out@.map_values(|l: &'static str| l@) =~= hidden_labels(
            cs.take(i + 1),
            items_view(items@),
        ));
        i = i + 1;
    }
    assert(cs.take(n as int) =~= cs);
    out
}

impl AppState {
    /// A state with the default settings (plugin actions on git workspaces
    /// only, no allowlist) and an empty registry.
    pub fn new(host_platform: PluginPlatform) -> (res: Self)
        ensures
            res@.mode == WorkspaceMenuConfig::Git,
            res@.allowlist.len() == 0,
            res@.plugins.len() == 0,
            res@.host == host_platform,
    {
        AppState {
            plugin_workspace_menu: WorkspaceMenuConfig::Git,
            plugin_workspace_menu_actions: Vec::new(),
            installed_plugins: Vec::new(),
            host_platform,
        }
    }

    /// The plugin actions to append to a workspace context menu, in the
    /// order they should appear, and the built-in items they replace.
    ///
    /// Actions are filtered to the ones that could actually run: an enabled
    /// plugin whose manifest is readable, declaring the workspace context,
    /// and supported on this platform. `plugins.workspace_menu` decides which
    /// workspaces get them at all; by default that is git ones only.
    pub fn workspace_menu_plugins(&self, is_git_workspace: bool) -> (res: WorkspaceMenuPlugins)
        ensures
            res@.items == menu_items(self@, is_git_workspace),
            res@.hidden_builtins == menu_hidden_builtins(self@, is_git_workspace),
    {
        match self.plugin_workspace_menu {
            WorkspaceMenuConfig::Off => {
                return WorkspaceMenuPlugins::default();
            },
            WorkspaceMenuConfig::Git => {
                if !is_git_workspace {
                    return WorkspaceMenuPlugins::default();
                }
            },
            WorkspaceMenuConfig::All => {},
        }
        let ghost st = self@;
        let mut replaced: Vec<(String, &'static str)> = Vec::new();
        let mut items: Vec<WorkspaceMenuPluginItem> = Vec::new();
        let n = self.installed_plugins.len();
        let mut i: usize = 0;
        assert(st.plugins.take(0) =~= Seq::<PluginView>::empty());
        assert(items_view(items@) =~= Seq::<MenuItemView>::empty());
        assert(claims_view(replaced@) =~= Seq::<Claim>::empty());
        while i < n
            invariant
                n == self.installed_plugins@.len(),
                st == self@,
                i <= n,
                items_view(items@) == registry_items(st.plugins.take(i as int), st.host),
                claims_view(replaced@) == registry_claims(st.plugins.take(i as int), st.host),
            decreases n - i,
        {
            let plugin = &self.installed_plugins[i];
            assert(st.plugins[i as int] == plugin@);
            assert(st.plugins.take(i + 1).drop_last() =~= st.plugins.take(i as int));
            assert(st.plugins.take(i + 1).last() == plugin@);
            let ghost items_before = items_view(items@);
            let ghost claims_before = claims_view(replaced@);
            if plugin.enabled && plugin_manifest_available(plugin) {
                collect_plugin(plugin, self.host_platform, &mut items, &mut replaced);
            } else {
                assert(items_before + plugin_items(plugin@, st.host) =~= items_before);
                assert(claims_before + plugin_claims(plugin@, st.host) =~= claims_before);
            }
            i = i + 1;
        }
        assert(st.plugins.take(n as int) =~= st.plugins);
        let items = if self.plugin_workspace_menu_actions.len() > 0 {
            pick_allowlisted(&items, &self.plugin_workspace_menu_actions)
        } else {
            sort_menu_items(&items)
        };
        let hidden_builtins = hidden_builtin_labels(&replaced, &items);
        WorkspaceMenuPlugins { items, hidden_builtins }
    }
}

} // verus!
