use hydock::config::{ConfigSettings, Edge, Orientation, Toggle};
use hydock::dock::{
    build_app_launcher, build_app_widget, build_apps, build_dock, fetch_hyprland_clients,
    icon_or_default, tick, AppWidget, DockSetup, LauncherButton, QueryOutcome,
};
use hydock::reconcile::HyprlandClient;
use hydock::visibility::{PointerEvent, Surfaces, Visibility, VisibilityController};

fn windows(classes: &[&str]) -> Vec<HyprlandClient> {
    classes.iter().map(|c| HyprlandClient { class: c.to_string() }).collect()
}

fn widget(class: &str, icon: &str, dots: usize) -> AppWidget {
    AppWidget { class: class.to_string(), icon: icon.to_string(), dots }
}

fn sample_settings() -> ConfigSettings {
    let mut cfg = ConfigSettings::default();
    cfg.pinned_applications = vec!["discord".to_string()];
    cfg.ignore_applications = vec!["kitty".to_string()];
    cfg.override_app_icons.insert("firefox".to_string(), "web-browser".to_string());
    cfg.override_app_icons.insert("Discord".to_string(), "never-used".to_string());
    cfg
}

#[test]
fn failed_query_means_no_windows() {
    assert_eq!(fetch_hyprland_clients(QueryOutcome::Unreachable), Vec::new());
    assert_eq!(fetch_hyprland_clients(QueryOutcome::Failed), Vec::new());
    assert_eq!(fetch_hyprland_clients(QueryOutcome::Malformed), Vec::new());
}

#[test]
fn listed_windows_are_kept() {
    let listed = windows(&["Firefox", "kitty", "Firefox"]);
    assert_eq!(fetch_hyprland_clients(QueryOutcome::Listed(listed.clone())), listed);
    assert_eq!(fetch_hyprland_clients(QueryOutcome::Listed(Vec::new())), Vec::new());
}

#[test]
fn widget_uses_override_icon() {
    let cfg = sample_settings();
    assert_eq!(build_app_widget("firefox", 2, &cfg), widget("firefox", "web-browser", 2));
    assert_eq!(build_app_widget("discord", 0, &cfg), widget("discord", "discord", 0));
    assert_eq!(build_app_widget("mpv", 1, &cfg), widget("mpv", "mpv", 1));
}

#[test]
fn unknown_icon_becomes_the_stock_icon() {
    assert_eq!(icon_or_default(None), "application-default-icon");
    assert_eq!(icon_or_default(Some("firefox".to_string())), "firefox");
}

#[test]
fn apps_follow_the_entries() {
    let cfg = sample_settings();
    let apps = build_apps(&windows(&["Firefox", "firefox", "Kitty"]), &cfg);
    assert_eq!(apps, vec![widget("discord", "discord", 0), widget("firefox", "web-browser", 2)]);
}

#[test]
fn launcher_button_follows_the_settings() {
    let mut cfg = ConfigSettings::default();
    assert_eq!(
        build_app_launcher(&cfg),
        LauncherButton {
            separator: true,
            icon: "applications-all-symbolic".to_string(),
            command: "rofi -show drun".to_string(),
        }
    );
    cfg.show_separator = Toggle::Off;
    cfg.app_launcher_icon = "start-here".to_string();
    cfg.app_launcher_command = "wofi --show drun".to_string();
    assert_eq!(
        build_app_launcher(&cfg),
        LauncherButton {
            separator: false,
            icon: "start-here".to_string(),
            command: "wofi --show drun".to_string(),
        }
    );
}

fn setup_at(position: &str) -> DockSetup {
    let mut cfg = ConfigSettings::default();
    cfg.dock_position = position.to_string();
    build_dock(&cfg)
}

#[test]
fn setup_of_a_horizontal_dock() {
    let expected = DockSetup {
        edge: Edge::Bottom,
        dock_orientation: Orientation::Horizontal,
        dots_orientation: Orientation::Vertical,
        trigger_width: 2147483647,
        trigger_height: 1,
    };
    assert_eq!(setup_at("bottom"), expected);
    assert_eq!(setup_at("nowhere"), expected);
    assert_eq!(setup_at("Top"), DockSetup { edge: Edge::Top, ..expected });
}

#[test]
fn setup_of_a_vertical_dock() {
    let expected = DockSetup {
        edge: Edge::Left,
        dock_orientation: Orientation::Vertical,
        dots_orientation: Orientation::Horizontal,
        trigger_width: 1,
        trigger_height: 2147483647,
    };
    assert_eq!(setup_at("left"), expected);
    assert_eq!(setup_at("RIGHT"), DockSetup { edge: Edge::Right, ..expected });
}

#[test]
fn tick_builds_the_whole_dock() {
    let cfg = sample_settings();
    let plan = tick(VisibilityController::new(), &cfg, &windows(&["Firefox", "firefox", "Kitty"]));
    assert_eq!(plan.controller, VisibilityController { state: Visibility::Shown, auto_hide: false });
    assert_eq!(plan.setup, setup_at("bottom"));
    assert_eq!(
        plan.surfaces,
        Surfaces { dock_visible: true, trigger_visible: false, hover_listeners: false }
    );
    assert_eq!(plan.apps, vec![widget("discord", "discord", 0), widget("firefox", "web-browser", 2)]);
    assert_eq!(
        plan.launcher,
        Some(LauncherButton {
            separator: true,
            icon: "applications-all-symbolic".to_string(),
            command: "rofi -show drun".to_string(),
        })
    );
    assert!(plan.keep_running);
}

#[test]
fn tick_without_launcher_has_no_separator_either() {
    let mut cfg = ConfigSettings::default();
    cfg.show_app_launcher = Toggle::Off;
    cfg.show_separator = Toggle::On;
    let plan = tick(VisibilityController::new(), &cfg, &windows(&["mpv"]));
    assert_eq!(plan.launcher, None);
    assert_eq!(plan.apps, vec![widget("mpv", "mpv", 1)]);
    assert!(plan.keep_running);
}

#[test]
fn tick_twice_builds_the_same_dock() {
    let cfg = sample_settings();
    let snapshot = windows(&["b", "Firefox", "a", "B", "kitty"]);
    let first = tick(VisibilityController::new(), &cfg, &snapshot);
    let second = tick(first.controller, &cfg, &snapshot);
    assert_eq!(first.apps, second.apps);
    assert_eq!(first, second);
    let third = tick(VisibilityController::new(), &cfg, &snapshot);
    assert_eq!(first, third);
}

#[test]
fn tick_twice_in_chaos_mode_builds_the_same_dock() {
    let mut cfg = sample_settings();
    cfg.chaos_mode = Toggle::On;
    let snapshot = windows(&["b", "Firefox", "a", "B", "kitty"]);
    let first = tick(VisibilityController::new(), &cfg, &snapshot);
    let second = tick(first.controller, &cfg, &snapshot);
    assert_eq!(first, second);
    assert_eq!(
        first.apps,
        vec![
            widget("b", "b", 2),
            widget("firefox", "web-browser", 1),
            widget("a", "a", 1),
            widget("discord", "discord", 0),
        ]
    );
}

#[test]
fn tick_heals_after_a_failed_query() {
    let cfg = sample_settings();
    let failed = tick(
        VisibilityController::new(),
        &cfg,
        &fetch_hyprland_clients(QueryOutcome::Malformed),
    );
    assert_eq!(failed.apps, vec![widget("discord", "discord", 0)]);
    let healed = tick(
        failed.controller,
        &cfg,
        &fetch_hyprland_clients(QueryOutcome::Listed(windows(&["mpv"]))),
    );
    assert_eq!(healed.apps, vec![widget("discord", "discord", 0), widget("mpv", "mpv", 1)]);
}

#[test]
fn tick_keeps_a_hidden_dock_hidden_under_auto_hide() {
    let mut cfg = ConfigSettings::default();
    cfg.auto_hide = Toggle::On;
    let first = tick(VisibilityController::new(), &cfg, &Vec::new());
    assert_eq!(
        first.surfaces,
        Surfaces { dock_visible: true, trigger_visible: true, hover_listeners: true }
    );
    let left = first.controller.pointer(PointerEvent::LeaveDock);
    cfg.dock_position = "left".to_string();
    let second = tick(left, &cfg, &Vec::new());
    assert_eq!(second.controller.state, Visibility::Hidden);
    assert_eq!(second.setup.edge, Edge::Left);
    assert_eq!(
        second.surfaces,
        Surfaces { dock_visible: false, trigger_visible: true, hover_listeners: true }
    );
    cfg.auto_hide = Toggle::Off;
    let third = tick(second.controller, &cfg, &Vec::new());
    assert_eq!(third.controller.state, Visibility::Shown);
    assert_eq!(
        third.surfaces,
        Surfaces { dock_visible: true, trigger_visible: false, hover_listeners: false }
    );
}
