use lib::menu::{AppState, WorkspaceMenuConfig};
use lib::plugin::{
    InstalledPluginInfo, PluginActionContext, PluginManifestAction, PluginPlatform,
    MANIFEST_UNAVAILABLE_WARNING_PREFIX,
};

/// The platform the test states run on.
const HOST: PluginPlatform = PluginPlatform::Linux;

fn action(id: &str, title: &str, contexts: Vec<PluginActionContext>) -> PluginManifestAction {
    PluginManifestAction {
        id: id.to_string(),
        title: title.to_string(),
        contexts,
        platforms: None,
        replaces: Vec::new(),
    }
}

fn plugin(id: &str, actions: Vec<PluginManifestAction>) -> InstalledPluginInfo {
    InstalledPluginInfo {
        plugin_id: id.to_string(),
        enabled: true,
        platforms: None,
        actions,
        warnings: Vec::new(),
    }
}

fn replacing_action(id: &str, title: &str, replaces: Vec<&str>) -> PluginManifestAction {
    let mut declared = action(id, title, vec![PluginActionContext::Workspace]);
    declared.replaces = replaces.into_iter().map(str::to_string).collect();
    declared
}

/// A platform the test states are definitely not running on.
fn foreign_platform() -> PluginPlatform {
    PluginPlatform::Windows
}

fn state_with(plugins: Vec<InstalledPluginInfo>) -> AppState {
    let mut state = AppState::new(HOST);
    state.installed_plugins = plugins;
    state
}

fn titles(state: &AppState) -> Vec<String> {
    titles_for(state, true)
}

fn titles_for(state: &AppState, is_git_workspace: bool) -> Vec<String> {
    state
        .workspace_menu_plugins(is_git_workspace)
        .items
        .into_iter()
        .map(|item| item.title)
        .collect()
}

#[test]
fn workspace_actions_are_listed_in_a_stable_order() {
    let state = state_with(vec![
        plugin(
            "zebra",
            vec![action("b", "Zebra B", vec![PluginActionContext::Workspace])],
        ),
        plugin(
            "alpha",
            vec![
                action("b", "Alpha B", vec![PluginActionContext::Workspace]),
                action("a", "Alpha A", vec![PluginActionContext::Workspace]),
            ],
        ),
    ]);

    assert_eq!(titles(&state), ["Alpha A", "Alpha B", "Zebra B"]);
}

#[test]
fn actions_that_could_not_run_are_left_out() {
    let pane_only = plugin(
        "pane-only",
        vec![action("p", "Pane", vec![PluginActionContext::Pane])],
    );

    let mut disabled = plugin(
        "disabled",
        vec![action(
            "d",
            "Disabled",
            vec![PluginActionContext::Workspace],
        )],
    );
    disabled.enabled = false;

    let mut unavailable = plugin(
        "unavailable",
        vec![action(
            "u",
            "Unavailable",
            vec![PluginActionContext::Workspace],
        )],
    );
    unavailable.warnings = vec![format!(
        "{}manifest is gone",
        MANIFEST_UNAVAILABLE_WARNING_PREFIX
    )];

    let mut foreign = plugin(
        "foreign",
        vec![action("f", "Foreign", vec![PluginActionContext::Workspace])],
    );
    foreign.actions[0].platforms = Some(vec![foreign_platform()]);

    let ok = plugin(
        "ok",
        vec![action("o", "Kept", vec![PluginActionContext::Workspace])],
    );

    let state = state_with(vec![pane_only, disabled, unavailable, foreign, ok]);

    assert_eq!(titles(&state), ["Kept"]);
}

#[test]
fn none_hides_every_plugin_action() {
    let mut state = state_with(vec![plugin(
        "worktrunk",
        vec![action("open", "Open", vec![PluginActionContext::Workspace])],
    )]);
    state.plugin_workspace_menu = WorkspaceMenuConfig::Off;

    assert!(state.workspace_menu_plugins(true).items.is_empty());
}

#[test]
fn an_allowlist_picks_the_actions_and_their_order() {
    let mut state = state_with(vec![plugin(
        "worktrunk",
        vec![
            action("open", "Open", vec![PluginActionContext::Workspace]),
            action("issue", "Issue", vec![PluginActionContext::Workspace]),
            action("pr", "PR", vec![PluginActionContext::Workspace]),
        ],
    )]);
    state.plugin_workspace_menu_actions = vec![
        "worktrunk.pr".into(),
        "worktrunk.issue".into(),
        "worktrunk.missing".into(),
    ];

    assert_eq!(titles(&state), ["PR", "Issue"]);
}

/// The two settings are orthogonal: the mode says which workspaces get a
/// plugin section at all, the list says which actions go in it.
#[test]
fn none_hides_plugin_actions_even_when_an_allowlist_names_them() {
    let mut state = state_with(vec![plugin(
        "worktrunk",
        vec![action("open", "Open", vec![PluginActionContext::Workspace])],
    )]);
    state.plugin_workspace_menu = WorkspaceMenuConfig::Off;
    state.plugin_workspace_menu_actions = vec!["worktrunk.open".into()];

    assert!(state.workspace_menu_plugins(true).items.is_empty());
}

/// A plugin that supersedes a built-in says so, and Herdr drops the entry
/// rather than offering two ways to do the same thing.
#[test]
fn a_listed_action_hides_the_builtin_it_replaces() {
    let state = state_with(vec![plugin(
        "worktrunk",
        vec![replacing_action(
            "open",
            "Worktree: switch / create",
            vec!["new_worktree", "open_worktree"],
        )],
    )]);

    let plugins = state.workspace_menu_plugins(true);

    assert_eq!(
        plugins.hidden_builtins,
        ["New worktree", "Open worktree..."]
    );
}

/// The claim rides with the action: filter the action out and the built-in
/// comes back, rather than leaving no way to make a worktree at all.
#[test]
fn an_allowlist_that_drops_the_action_keeps_the_builtin() {
    let mut state = state_with(vec![plugin(
        "worktrunk",
        vec![
            replacing_action("open", "Worktree: switch / create", vec!["new_worktree"]),
            action(
                "from-issue",
                "Worktree: from an issue",
                vec![PluginActionContext::Workspace],
            ),
        ],
    )]);
    state.plugin_workspace_menu_actions = vec!["worktrunk.from-issue".into()];

    let plugins = state.workspace_menu_plugins(true);

    assert_eq!(titles(&state), ["Worktree: from an issue"]);
    assert!(plugins.hidden_builtins.is_empty());
}

/// An id Herdr does not know hides nothing.
#[test]
fn an_unknown_replaces_id_hides_nothing() {
    let state = state_with(vec![plugin(
        "worktrunk",
        vec![replacing_action("open", "Open", vec!["rename_workspace"])],
    )]);

    assert!(state
        .workspace_menu_plugins(true)
        .hidden_builtins
        .is_empty());
}

/// Nothing is hidden where nothing is offered.
#[test]
fn a_plain_directory_keeps_its_builtins() {
    let state = state_with(vec![plugin(
        "worktrunk",
        vec![replacing_action("open", "Open", vec!["new_worktree"])],
    )]);

    let plugins = state.workspace_menu_plugins(false);

    assert!(plugins.items.is_empty());
    assert!(plugins.hidden_builtins.is_empty());
}

/// The default: a plain directory has nothing for a worktree action to do.
#[test]
fn plugin_actions_are_offered_on_git_workspaces_only_by_default() {
    let state = state_with(vec![plugin(
        "worktrunk",
        vec![action("open", "Open", vec![PluginActionContext::Workspace])],
    )]);
    assert_eq!(state.plugin_workspace_menu, WorkspaceMenuConfig::Git);

    assert_eq!(titles_for(&state, true), ["Open"]);
    assert!(titles_for(&state, false).is_empty());
}

#[test]
fn all_offers_them_on_a_plain_directory_too() {
    let mut state = state_with(vec![plugin(
        "worktrunk",
        vec![action("open", "Open", vec![PluginActionContext::Workspace])],
    )]);
    state.plugin_workspace_menu = WorkspaceMenuConfig::All;

    assert_eq!(titles_for(&state, false), ["Open"]);
}
