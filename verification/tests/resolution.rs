use lib::menu::{AppState, WorkspaceMenuConfig, WorkspaceMenuPluginItem, WorkspaceMenuPlugins};
use lib::order::{item_lt, sort_menu_items};
use lib::plugin::{
    action_supported_on, builtin_menu_item_label, declares_workspace_context,
    plugin_manifest_available, InstalledPluginInfo, PluginActionContext, PluginManifestAction,
    PluginPlatform, MANIFEST_UNAVAILABLE_WARNING_PREFIX,
};
use lib::text::{same_text, starts_with_text, text_lt};

fn workspace_action(id: &str, title: &str) -> PluginManifestAction {
    PluginManifestAction {
        id: id.to_string(),
        title: title.to_string(),
        contexts: vec![PluginActionContext::Workspace],
        platforms: None,
        replaces: Vec::new(),
    }
}

fn claiming(id: &str, title: &str, replaces: &[&str]) -> PluginManifestAction {
    let mut a = workspace_action(id, title);
    a.replaces = replaces.iter().map(|r| r.to_string()).collect();
    a
}

fn installed(id: &str, actions: Vec<PluginManifestAction>) -> InstalledPluginInfo {
    InstalledPluginInfo {
        plugin_id: id.to_string(),
        enabled: true,
        platforms: None,
        actions,
        warnings: Vec::new(),
    }
}

fn linux_state(plugins: Vec<InstalledPluginInfo>) -> AppState {
    let mut state = AppState::new(PluginPlatform::Linux);
    state.installed_plugins = plugins;
    state
}

fn item(plugin_id: &str, action_id: &str, title: &str) -> WorkspaceMenuPluginItem {
    WorkspaceMenuPluginItem {
        plugin_id: plugin_id.to_string(),
        action_id: action_id.to_string(),
        title: title.to_string(),
    }
}

fn listed_titles(menu: &WorkspaceMenuPlugins) -> Vec<String> {
    menu.items.iter().map(|i| i.title.clone()).collect()
}

#[test]
fn qualified_id_joins_plugin_and_action_with_a_dot() {
    assert_eq!(item("worktrunk", "from-issue", "T").qualified_id(), "worktrunk.from-issue");
    assert_eq!(item("", "", "T").qualified_id(), ".");
}

#[test]
fn a_new_state_offers_plugins_on_git_workspaces_without_an_allowlist() {
    let state = AppState::new(PluginPlatform::Macos);
    assert_eq!(state.plugin_workspace_menu, WorkspaceMenuConfig::Git);
    assert!(state.plugin_workspace_menu_actions.is_empty());
    assert!(state.installed_plugins.is_empty());
    assert_eq!(state.host_platform, PluginPlatform::Macos);
    let menu = state.workspace_menu_plugins(true);
    assert!(menu.items.is_empty());
    assert!(menu.hidden_builtins.is_empty());
}

#[test]
fn default_contribution_is_empty() {
    let menu = WorkspaceMenuPlugins::default();
    assert!(menu.items.is_empty());
    assert!(menu.hidden_builtins.is_empty());
}

#[test]
fn text_order_is_by_code_point_and_a_prefix_comes_first() {
    assert!(text_lt("a", "b"));
    assert!(!text_lt("b", "a"));
    assert!(text_lt("ab", "abc"));
    assert!(!text_lt("abc", "ab"));
    assert!(!text_lt("same", "same"));
    assert!(text_lt("Zebra", "alpha"));
    assert!(text_lt("z", "é"));
    assert!(text_lt("", "a"));
    assert!(!text_lt("", ""));
}

#[test]
fn text_equality_and_prefixes() {
    assert!(same_text("open", "open"));
    assert!(!same_text("open", "opened"));
    assert!(!same_text("open", "opEn"));
    assert!(starts_with_text("manifest unavailable: x", "manifest unavailable: "));
    assert!(starts_with_text("abc", ""));
    assert!(!starts_with_text("ab", "abc"));
    assert!(!starts_with_text("xabc", "abc"));
}

#[test]
fn items_sort_by_plugin_id_then_action_id() {
    let a = item("alpha", "b", "1");
    let b = item("alpha", "a", "2");
    let c = item("alpha-x", "a", "3");
    assert!(item_lt(&b, &a));
    assert!(!item_lt(&a, &b));
    assert!(item_lt(&a, &c));
    assert!(!item_lt(&a, &a));
    let sorted = sort_menu_items(&vec![c, a, b]);
    let titles: Vec<&str> = sorted.iter().map(|i| i.title.as_str()).collect();
    assert_eq!(titles, ["2", "1", "3"]);
}

#[test]
fn items_sharing_a_key_keep_their_manifest_order() {
    let state = linux_state(vec![installed(
        "p",
        vec![
            workspace_action("x", "Second key"),
            workspace_action("dup", "First dup"),
            workspace_action("dup", "Second dup"),
        ],
    )]);
    let menu = state.workspace_menu_plugins(true);
    assert_eq!(listed_titles(&menu), ["First dup", "Second dup", "Second key"]);
}

#[test]
fn registry_order_does_not_change_the_menu() {
    let make = |first: bool| {
        let a = installed("beta", vec![claiming("b", "Beta", &["new_worktree"])]);
        let b = installed("alpha", vec![claiming("a", "Alpha", &["open_worktree"])]);
        if first {
            linux_state(vec![a, b])
        } else {
            linux_state(vec![b, a])
        }
    };
    let one = make(true).workspace_menu_plugins(true);
    let two = make(false).workspace_menu_plugins(true);
    assert_eq!(one.items, two.items);
    assert_eq!(listed_titles(&one), ["Alpha", "Beta"]);
    let mut h1 = one.hidden_builtins.clone();
    let mut h2 = two.hidden_builtins.clone();
    assert_eq!(h1, ["New worktree", "Open worktree..."]);
    assert_eq!(h2, ["Open worktree...", "New worktree"]);
    h1.sort();
    h2.sort();
    assert_eq!(h1, h2);
}

#[test]
fn an_action_platform_list_overrides_the_plugins() {
    let mut plugin = installed("p", vec![workspace_action("a", "A")]);
    plugin.platforms = Some(vec![PluginPlatform::Windows]);
    assert!(!action_supported_on(&plugin, &plugin.actions[0], PluginPlatform::Linux));
    plugin.actions[0].platforms = Some(vec![PluginPlatform::Macos, PluginPlatform::Linux]);
    assert!(action_supported_on(&plugin, &plugin.actions[0], PluginPlatform::Linux));
    assert!(!action_supported_on(&plugin, &plugin.actions[0], PluginPlatform::Windows));

    let state = linux_state(vec![plugin]);
    assert_eq!(listed_titles(&state.workspace_menu_plugins(true)), ["A"]);
}

#[test]
fn a_plugin_platform_list_governs_actions_without_one() {
    let mut plugin = installed("p", vec![workspace_action("a", "A")]);
    assert!(action_supported_on(&plugin, &plugin.actions[0], PluginPlatform::Windows));
    plugin.platforms = Some(Vec::new());
    assert!(!action_supported_on(&plugin, &plugin.actions[0], PluginPlatform::Linux));
    let state = linux_state(vec![plugin]);
    assert!(state.workspace_menu_plugins(true).items.is_empty());
}

#[test]
fn only_a_warning_that_starts_with_the_prefix_hides_a_plugin() {
    let mut plugin = installed("p", vec![workspace_action("a", "A")]);
    plugin.warnings = vec![format!("note: {}", MANIFEST_UNAVAILABLE_WARNING_PREFIX)];
    assert!(plugin_manifest_available(&plugin));
    plugin
        .warnings
        .push(format!("{}moved", MANIFEST_UNAVAILABLE_WARNING_PREFIX));
    assert!(!plugin_manifest_available(&plugin));
}

#[test]
fn the_workspace_context_must_be_declared() {
    let mut a = workspace_action("a", "A");
    assert!(declares_workspace_context(&a));
    a.contexts = vec![PluginActionContext::Pane, PluginActionContext::Workspace];
    assert!(declares_workspace_context(&a));
    a.contexts = Vec::new();
    assert!(!declares_workspace_context(&a));
}

#[test]
fn only_the_worktree_items_can_be_replaced() {
    assert_eq!(builtin_menu_item_label("new_worktree"), Some("New worktree"));
    assert_eq!(builtin_menu_item_label("open_worktree"), Some("Open worktree..."));
    assert_eq!(builtin_menu_item_label("rename_workspace"), None);
    assert_eq!(builtin_menu_item_label("new_worktree "), None);
    assert_eq!(builtin_menu_item_label(""), None);
}

#[test]
fn each_claim_of_a_listed_action_hides_its_builtin() {
    let state = linux_state(vec![installed(
        "p",
        vec![
            claiming("a", "A", &["new_worktree", "rename_workspace"]),
            claiming("b", "B", &["new_worktree"]),
        ],
    )]);
    let menu = state.workspace_menu_plugins(true);
    assert_eq!(menu.hidden_builtins, ["New worktree", "New worktree"]);
}

#[test]
fn an_action_that_cannot_run_hides_nothing() {
    let mut pane = claiming("a", "A", &["new_worktree"]);
    pane.contexts = vec![PluginActionContext::Pane];
    let state = linux_state(vec![installed("p", vec![pane])]);
    let menu = state.workspace_menu_plugins(true);
    assert!(menu.items.is_empty());
    assert!(menu.hidden_builtins.is_empty());
}

#[test]
fn an_allowlist_lists_an_id_as_often_as_it_names_it() {
    let mut state = linux_state(vec![installed("p", vec![workspace_action("a", "A")])]);
    state.plugin_workspace_menu_actions = vec!["p.a".into(), "p.b".into(), "p.a".into()];
    assert_eq!(listed_titles(&state.workspace_menu_plugins(true)), ["A", "A"]);
}

#[test]
fn an_allowlisted_id_takes_the_first_action_it_names() {
    let mut state = linux_state(vec![
        installed("a.b", vec![workspace_action("c", "Dotted plugin")]),
        installed("a", vec![workspace_action("b.c", "Dotted action")]),
    ]);
    state.plugin_workspace_menu_actions = vec!["a.b.c".into()];
    assert_eq!(listed_titles(&state.workspace_menu_plugins(true)), ["Dotted plugin"]);
}

#[test]
fn mode_only_gates_the_section() {
    let mut state = linux_state(vec![installed(
        "p",
        vec![claiming("b", "B", &["open_worktree"]), workspace_action("a", "A")],
    )]);
    let git = state.workspace_menu_plugins(true);
    state.plugin_workspace_menu = WorkspaceMenuConfig::All;
    let all_plain = state.workspace_menu_plugins(false);
    assert_eq!(git.items, all_plain.items);
    assert_eq!(git.hidden_builtins, all_plain.hidden_builtins);
    assert_eq!(listed_titles(&git), ["A", "B"]);
    assert_eq!(git.hidden_builtins, ["Open worktree..."]);
    state.plugin_workspace_menu = WorkspaceMenuConfig::Off;
    let off = state.workspace_menu_plugins(true);
    assert!(off.items.is_empty());
    assert!(off.hidden_builtins.is_empty());
}

#[test]
fn a_duplicate_has_the_same_value() {
    let source = item("p", "a", "Title");
    assert_eq!(source.duplicate(), source);
}

#[test]
fn registry_order_does_not_change_an_allowlisted_menu() {
    let make = |first: bool| {
        let a = installed("beta", vec![claiming("b", "Beta", &["new_worktree"])]);
        let b = installed(
            "alpha",
            vec![claiming("a", "Alpha", &["open_worktree"]), workspace_action("z", "Zed")],
        );
        let mut state = if first {
            linux_state(vec![a, b])
        } else {
            linux_state(vec![b, a])
        };
        state.plugin_workspace_menu_actions =
            vec!["beta.b".into(), "alpha.z".into(), "alpha.a".into()];
        state
    };
    let one = make(true).workspace_menu_plugins(true);
    let two = make(false).workspace_menu_plugins(true);
    assert_eq!(one.items, two.items);
    assert_eq!(listed_titles(&one), ["Beta", "Zed", "Alpha"]);
    let mut h1 = one.hidden_builtins.clone();
    let mut h2 = two.hidden_builtins.clone();
    h1.sort();
    h2.sort();
    assert_eq!(h1, ["New worktree", "Open worktree..."]);
    assert_eq!(h1, h2);
}
