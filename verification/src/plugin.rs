//! Installed plugins and the actions their manifests declare, as far as the
//! workspace menu reads them.
use vstd::prelude::*;
use vstd::string::*;

use crate::text::{same_text, starts_with_text};

verus! {

/// Where a plugin action may be invoked from.
#[derive(Clone, Copy, Debug, PartialEq, Eq, Structural)]
pub enum PluginActionContext {
    Workspace,
    Pane,
}

/// An operating system a plugin or one of its actions supports.
#[derive(Clone, Copy, Debug, PartialEq, Eq, Structural)]
pub enum PluginPlatform {
    Linux,
    Macos,
    Windows,
}

/// A warning that starts with this prefix says the plugin's manifest could
/// not be read; such a plugin offers no actions.
pub const MANIFEST_UNAVAILABLE_WARNING_PREFIX: &'static str = "manifest unavailable: ";

/// One action declared in a plugin manifest.
#[derive(Clone, Debug)]
pub struct PluginManifestAction {
    pub id: String,
    pub title: String,
    pub contexts: Vec<PluginActionContext>,
    /// Platforms the action runs on; `None` defers to the plugin's own list.
    pub platforms: Option<Vec<PluginPlatform>>,
    /// Ids of built-in menu items that this action supersedes.
    pub replaces: Vec<String>,
}

/// An installed plugin, as the registry holds it.
#[derive(Clone, Debug)]
pub struct InstalledPluginInfo {
    pub plugin_id: String,
    pub enabled: bool,
    /// Platforms the plugin runs on; `None` means every platform.
    pub platforms: Option<Vec<PluginPlatform>>,
    pub actions: Vec<PluginManifestAction>,
    pub warnings: Vec<String>,
}

/// The mathematical value of a [`PluginManifestAction`].
pub struct PluginActionView {
    pub id: Seq<char>,
    pub title: Seq<char>,
    pub contexts: Seq<PluginActionContext>,
    pub platforms: Option<Seq<PluginPlatform>>,
    pub replaces: Seq<Seq<char>>,
}

/// The mathematical value of an [`InstalledPluginInfo`].
pub struct PluginView {
    pub plugin_id: Seq<char>,
    pub enabled: bool,
    pub platforms: Option<Seq<PluginPlatform>>,
    pub actions: Seq<PluginActionView>,
    pub warnings: Seq<Seq<char>>,
}

pub open spec fn platforms_view(p: Option<Vec<PluginPlatform>>) -> Option<Seq<PluginPlatform>> {
    match p {
        Some(v) => Some(v@),
        None => None,
    }
}

pub open spec fn texts_view(v: Seq<String>) -> Seq<Seq<char>> {
    v.map_values(|s: String| s@)
}

impl View for PluginManifestAction {
    type V = PluginActionView;

    open spec fn view(&self) -> PluginActionView {
        PluginActionView {
            id: self.id@,
            title: self.title@,
            contexts: self.contexts@,
            platforms: platforms_view(self.platforms),
            replaces: texts_view(self.replaces@),
        }
    }
}

impl View for InstalledPluginInfo {
    type V = PluginView;

    open spec fn view(&self) -> PluginView {
        PluginView {
            plugin_id: self.plugin_id@,
            enabled: self.enabled,
            platforms: platforms_view(self.platforms),
            actions: self.actions@.map_values(|a: PluginManifestAction| a@),
            warnings: texts_view(self.warnings@),
        }
    }
}

/// The plugin's manifest is readable: no warning says otherwise.
pub open spec fn manifest_available(p: PluginView) -> bool {
    forall|i: int|
        0 <= i < p.warnings.len() ==> !MANIFEST_UNAVAILABLE_WARNING_PREFIX@.is_prefix_of(
            #[trigger] p.warnings[i],
        )
}

/// The platforms that govern an action: its own list, else its plugin's.
pub open spec fn effective_platforms(p: PluginView, a: PluginActionView) -> Option<
    Seq<PluginPlatform>,
> {
    if a.platforms is Some {
        a.platforms
    } else {
        p.platforms
    }
}

/// A platform list admits `host`: no list at all, or one that names it.
pub open spec fn supported_on(platforms: Option<Seq<PluginPlatform>>, host: PluginPlatform) -> bool {
    match platforms {
        Some(list) => list.contains(host),
        None => true,
    }
}

/// The label of the built-in workspace menu item that a `replaces` id names,
/// if it names one.
pub open spec fn builtin_label(id: Seq<char>) -> Option<Seq<char>> {
    if id == "new_worktree"@ {
        Some("New worktree"@)
    } else if id == "open_worktree"@ {
        Some("Open worktree..."@)
    } else {
        None
    }
}

/// Whether the plugin's manifest can be read, judged by its warnings.
pub fn plugin_manifest_available(plugin: &InstalledPluginInfo) -> (res: bool)
    ensures
        res == manifest_available(plugin@),
{
    let n = plugin.warnings.len();
    let mut i: usize = 0;
    while i < n
        invariant
            n == plugin.warnings@.len(),
            i <= n,
            forall|k: int|
                0 <= k < i ==> !MANIFEST_UNAVAILABLE_WARNING_PREFIX@.is_prefix_of(
                    #[trigger] plugin@.warnings[k],
                ),
        decreases n - i,
    {
        if starts_with_text(plugin.warnings[i].as_str(), MANIFEST_UNAVAILABLE_WARNING_PREFIX) {
            assert(plugin@.warnings[i as int] == plugin.warnings@[i as int]@);
            return false;
        }
        assert(plugin@.warnings[i as int] == plugin.warnings@[i as int]@);
        i = i + 1;
    }
    true
}

/// Whether an action declares the workspace context.
pub fn declares_workspace_context(action: &PluginManifestAction) -> (res: bool)
    ensures
        res == action@.contexts.contains(PluginActionContext::Workspace),
{
    let n = action.contexts.len();
    let mut i: usize = 0;
    while i < n
        invariant
            n == action.contexts@.len(),
            i <= n,
            forall|k: int| 0 <= k < i ==> action.contexts@[k] != PluginActionContext::Workspace,
        decreases n - i,
    {
        if action.contexts[i] == PluginActionContext::Workspace {
            assert(action@.contexts[i as int] == PluginActionContext::Workspace);
            return true;
        }
        i = i + 1;
    }
    false
}

/// Whether an action runs on `host`, judged by its own platform list or,
/// where it has none, by its plugin's.
pub fn action_supported_on(
    plugin: &InstalledPluginInfo,
    action: &PluginManifestAction,
    host: PluginPlatform,
) -> (res: bool)
    ensures
        res == supported_on(effective_platforms(plugin@, action@), host),
{
    let platforms = if action.platforms.is_some() {
        &action.platforms
    } else {
        &plugin.platforms
    };
    assert(platforms_view(*platforms) == effective_platforms(plugin@, action@));
    match platforms {
        None => true,
        Some(list) => {
            let n = list.len();
            let mut i: usize = 0;
            while i < n
                invariant
                    n == list@.len(),
                    i <= n,
                    forall|k: int| 0 <= k < i ==> list@[k] != host,
                    supported_on(effective_platforms(plugin@, action@), host) == list@.contains(
                        host,
                    ),
                decreases n - i,
            {
                if list[i] == host {
                    assert(list@[i as int] == host);
                    assert(list@.contains(host));
                    return true;
                }
                i = i + 1;
            }
            false
        },
    }
}

/// The label of the built-in workspace menu item that `id` names, if any.
pub fn builtin_menu_item_label(id: &str) -> (res: Option<&'static str>)
    ensures
        match res {
            Some(label) => builtin_label(id@) == Some(label@),
            None => builtin_label(id@) is None,
        },
{
    if same_text(id, "new_worktree") {
        Some("New worktree")
    } else if same_text(id, "open_worktree") {
        Some("Open worktree...")
    } else {
        None
    }
}

} // verus!
