# Workspace menu plugin actions

Resolves which plugin actions a workspace's right-click menu offers, in what
order, and which built-in items they replace, with the behaviour proved by
Verus.

- `src/text.rs`: character-level equality, prefix test and lexicographic order.
- `src/plugin.rs`: installed plugins and manifest actions, manifest
  availability, platform support, built-in item labels.
- `src/order.rs`: the stable order by plugin id then action id, and its sort.
- `src/menu.rs`: the application state read by the menu and
  `AppState::workspace_menu_plugins`, specified by `menu_items` and
  `menu_hidden_builtins`.
- `src/laws.rs`: properties of every resolution (the order the registry is
  walked in does not matter, with or without an allowlist; every listed action
  could run; built-ins are hidden exactly while their claimant is listed; the
  mode only gates the section).
- `app/lib.rs`: the host platform and the registry map of the application.
