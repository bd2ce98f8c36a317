use hydock::config::{
    config_path, layout_named, load_config, parse_dock_position, style_path, ConfigSettings, Edge,
    IconOverride, IconOverrides, Orientation, Toggle,
};

#[test]
fn defaults_are_exact() {
    let cfg = ConfigSettings::default();
    assert_eq!(cfg.app_launcher_command, "rofi -show drun");
    assert_eq!(cfg.app_launcher_icon, "applications-all-symbolic");
    assert_eq!(cfg.auto_hide, Toggle::Off);
    assert_eq!(cfg.chaos_mode, Toggle::Off);
    assert_eq!(cfg.dock_position, "bottom");
    assert!(cfg.ignore_applications.is_empty());
    assert!(cfg.override_app_icons.entries().is_empty());
    assert!(cfg.pinned_applications.is_empty());
    assert_eq!(cfg.show_app_launcher, Toggle::On);
    assert_eq!(cfg.show_separator, Toggle::On);
}

#[test]
fn toggle_default_is_off() {
    assert_eq!(Toggle::default(), Toggle::Off);
}

#[test]
fn toggle_is_a_bool() {
    assert_eq!(Toggle::from_bool(true), Toggle::On);
    assert_eq!(Toggle::from_bool(false), Toggle::Off);
    assert!(Toggle::On.is_on());
    assert!(!Toggle::Off.is_on());
}

#[test]
fn load_config_falls_back_to_defaults() {
    let cfg = load_config(None);
    assert_eq!(cfg.app_launcher_command, "rofi -show drun");
    assert_eq!(cfg.dock_position, "bottom");
    assert_eq!(cfg.show_separator, Toggle::On);
    assert!(cfg.pinned_applications.is_empty());
}

#[test]
fn load_config_keeps_what_was_read() {
    let mut read = ConfigSettings::default();
    read.dock_position = "left".to_string();
    read.auto_hide = Toggle::On;
    read.pinned_applications = vec!["firefox".to_string()];
    read.override_app_icons.insert("firefox".to_string(), "web-browser".to_string());
    let cfg = load_config(Some(read));
    assert_eq!(cfg.dock_position, "left");
    assert_eq!(cfg.auto_hide, Toggle::On);
    assert_eq!(cfg.pinned_applications, vec!["firefox".to_string()]);
    assert_eq!(cfg.override_app_icons.get("firefox"), Some(&"web-browser".to_string()));
}

#[test]
fn paths_below_home() {
    assert_eq!(config_path("/home/u"), "/home/u/.config/hydock/config.toml");
    assert_eq!(style_path("/home/u"), "/home/u/.config/hydock/style.css");
    assert_eq!(config_path(""), "/.config/hydock/config.toml");
}

fn at(position: &str) -> (Edge, Orientation, Orientation) {
    let mut cfg = ConfigSettings::default();
    cfg.dock_position = position.to_string();
    parse_dock_position(&cfg)
}

#[test]
fn dock_position_names_an_edge() {
    assert_eq!(at("left"), (Edge::Left, Orientation::Vertical, Orientation::Horizontal));
    assert_eq!(at("right"), (Edge::Right, Orientation::Vertical, Orientation::Horizontal));
    assert_eq!(at("top"), (Edge::Top, Orientation::Horizontal, Orientation::Vertical));
    assert_eq!(at("bottom"), (Edge::Bottom, Orientation::Horizontal, Orientation::Vertical));
}

#[test]
fn dock_position_ignores_case() {
    assert_eq!(at("LEFT"), (Edge::Left, Orientation::Vertical, Orientation::Horizontal));
    assert_eq!(at("Right"), (Edge::Right, Orientation::Vertical, Orientation::Horizontal));
    assert_eq!(at("tOp"), (Edge::Top, Orientation::Horizontal, Orientation::Vertical));
}

#[test]
fn dock_position_falls_back_to_bottom() {
    let bottom = (Edge::Bottom, Orientation::Horizontal, Orientation::Vertical);
    assert_eq!(at(""), bottom);
    assert_eq!(at("middle"), bottom);
    assert_eq!(at(" left"), bottom);
    assert_eq!(at("lef"), bottom);
    assert_eq!(at("leftt"), bottom);
}

#[test]
fn layout_named_wants_lower_case() {
    assert_eq!(layout_named("left"), (Edge::Left, Orientation::Vertical, Orientation::Horizontal));
    assert_eq!(layout_named("Left"), (Edge::Bottom, Orientation::Horizontal, Orientation::Vertical));
}

#[test]
fn icon_overrides_insert_and_get() {
    let mut icons = IconOverrides::new();
    assert_eq!(icons.get("firefox"), None);
    assert_eq!(icons.insert("firefox".to_string(), "web".to_string()), None);
    assert_eq!(icons.insert("kitty".to_string(), "term".to_string()), None);
    assert_eq!(icons.get("firefox"), Some(&"web".to_string()));
    assert_eq!(icons.get("kitty"), Some(&"term".to_string()));
    assert_eq!(icons.get("Kitty"), None);
    assert_eq!(icons.insert("firefox".to_string(), "browser".to_string()), Some("web".to_string()));
    assert_eq!(icons.get("firefox"), Some(&"browser".to_string()));
    assert_eq!(
        icons.entries(),
        &vec![
            IconOverride { class: "firefox".to_string(), icon: "browser".to_string() },
            IconOverride { class: "kitty".to_string(), icon: "term".to_string() },
        ]
    );
}
