//! The settings of the dock, their defaults, and what a dock position means
//! for the layout.

use crate::text::{joined, lowercase, same_text, texts, to_lowercase};
use vstd::prelude::*;

verus! {

/// A setting that is either off or on.
#[derive(Clone, Copy, Debug, PartialEq, Eq, Structural)]
pub enum Toggle {
    Off,
    On,
}

impl Toggle {
    /// `On` for `true`, `Off` for `false`.
    pub fn from_bool(b: bool) -> (r: Toggle)
        ensures
            r == (if b { Toggle::On } else { Toggle::Off }),
    {
        if b {
            Toggle::On
        } else {
            Toggle::Off
        }
    }

    /// Whether the setting is on.
    pub fn is_on(self) -> (r: bool)
        ensures
            r == (self == Toggle::On),
    {
        match self {
            Toggle::On => true,
            Toggle::Off => false,
        }
    }
}

impl Default for Toggle {
    fn default() -> (r: Toggle)
        ensures
            r == Toggle::Off,
    {
        Toggle::Off
    }
}

/// The icon to show for one application class, in place of the icon that
/// carries the class's name.
#[derive(Clone, Debug, PartialEq, Eq)]
pub struct IconOverride {
    pub class: String,
    pub icon: String,
}

/// Icons by application class. Of two entries for one class the first
/// counts; `insert` never makes a second one.
#[derive(Clone, Debug)]
pub struct IconOverrides {
    entries: Vec<IconOverride>,
}

/// Whether entry `i` is the first one for `class`.
pub open spec fn first_for(entries: Seq<IconOverride>, i: int, class: Seq<char>) -> bool {
    &&& 0 <= i < entries.len()
    &&& entries[i].class@ == class
    &&& forall|k: int| 0 <= k < i ==> entries[k].class@ != class
}

/// The place of the first entry for `class`, if there is one.
fn position(entries: &Vec<IconOverride>, class: &str) -> (r: Option<usize>)
    ensures
        match r {
            Some(i) => first_for(entries@, i as int, class@),
            None => forall|k: int| 0 <= k < entries.len() ==> entries[k].class@ != class@,
        },
{
    let mut i: usize = 0;
    while i < entries.len()
        invariant
            i <= entries.len(),
            forall|k: int| 0 <= k < i ==> entries[k].class@ != class@,
        decreases entries.len() - i,
    {
        if same_text(entries[i].class.as_str(), class) {
            return Some(i);
        }
        i += 1;
    }
    None
}

impl View for IconOverrides {
    type V = Map<Seq<char>, Seq<char>>;

    closed spec fn view(&self) -> Map<Seq<char>, Seq<char>> {
        Map::new(
            |c: Seq<char>| exists|i: int| first_for(self.entries@, i, c),
            |c: Seq<char>| self.entries[choose|i: int| first_for(self.entries@, i, c)].icon@,
        )
    }
}

impl IconOverrides {
    /// Whether every class has one entry only.
    pub closed spec fn wf(&self) -> bool {
        forall|i: int, j: int|
            0 <= i < j < self.entries.len() ==> self.entries[i].class@ != self.entries[j].class@
    }

    /// No overrides.
    pub fn new() -> (r: IconOverrides)
        ensures
            r.wf(),
            r@ == Map::<Seq<char>, Seq<char>>::empty(),
    {
        let r = IconOverrides { entries: Vec::new() };
        assert(r@ =~= Map::<Seq<char>, Seq<char>>::empty());
        r
    }

    /// Gives `class` the icon `icon`, and returns the icon it had before.
    pub fn insert(&mut self, class: String, icon: String) -> (r: Option<String>)
        ensures
            final(self)@ == old(self)@.insert(class@, icon@),
            old(self).wf() ==> final(self).wf(),
            match r {
                Some(previous) => old(self)@.contains_key(class@) && previous@ == old(self)@[class@],
                None => !old(self)@.contains_key(class@),
            },
    {
        let ghost before = self.entries@;
        let ghost key = class@;
        let ghost value = icon@;
        match position(&self.entries, class.as_str()) {
            Some(i) => {
                let previous = self.entries.remove(i);
                self.entries.insert(i, IconOverride { class, icon });
                proof {
                    let after = self.entries@;
                    assert(after.len() == before.len());
                    assert forall|k: int|
                        #![trigger after[k]]
                        #![trigger before[k]]
                        0 <= k < after.len() implies after[k].class@ == before[k].class@ by {}
                    assert forall|c: Seq<char>, k: int|
                        first_for(after, k, c) <==> first_for(before, k, c) by {}
                    assert(first_for(after, i as int, key));
                    assert(self@ =~= old(self)@.insert(key, value));
                }
                Some(previous.icon)
            },
            None => {
                self.entries.push(IconOverride { class, icon });
                proof {
                    let after = self.entries@;
                    let n = before.len() as int;
                    assert forall|k: int|
                        #![trigger after[k]]
                        #![trigger before[k]]
                        0 <= k < n implies after[k] == before[k] by {}
                    assert(first_for(after, n, key));
                    assert forall|c: Seq<char>, k: int| first_for(before, k, c) implies first_for(
                        after,
                        k,
                        c,
                    ) by {}
                    assert forall|c: Seq<char>, k: int| c != key && first_for(after, k, c)
                        implies first_for(before, k, c) by {}
                    assert(self@ =~= old(self)@.insert(key, value));
                }
                None
            },
        }
    }

    /// The icon of `class`, if it has one.
    pub fn get(&self, class: &str) -> (r: Option<&String>)
        ensures
            match r {
                Some(icon) => self@.contains_key(class@) && icon@ == self@[class@],
                None => !self@.contains_key(class@),
            },
    {
        match position(&self.entries, class) {
            Some(i) => Some(&self.entries[i].icon),
            None => None,
        }
    }

    /// The overrides one by one.
    pub fn entries(&self) -> (r: &Vec<IconOverride>)
        ensures
            forall|c: Seq<char>|
                self@.contains_key(c) <==> exists|i: int| 0 <= i < r.len() && #[trigger] r[i].class@ == c,
            forall|i: int| first_for(r@, i, r[i].class@) ==> self@[#[trigger] r[i].class@] == r[i].icon@,
            self.wf() ==> forall|i: int, j: int| 0 <= i < j < r.len() ==> r[i].class@ != r[j].class@,
    {
        proof {
            assert forall|c: Seq<char>| (exists|i: int|
                0 <= i < self.entries.len() && #[trigger] self.entries[i].class@ == c)
                implies self@.contains_key(c) by {
                let i = choose|i: int| 0 <= i < self.entries.len() && #[trigger] self.entries[i].class@ == c;
                lemma_first_exists(self.entries@, i, c);
            }
        }
        &self.entries
    }
}

/// Where some entry is for `class`, there is a first one.
proof fn lemma_first_exists(entries: Seq<IconOverride>, i: int, class: Seq<char>)
    requires
        0 <= i < entries.len(),
        entries[i].class@ == class,
    ensures
        exists|k: int| first_for(entries, k, class),
    decreases i,
{
    if exists|k: int| 0 <= k < i && entries[k].class@ == class {
        let k = choose|k: int| 0 <= k < i && entries[k].class@ == class;
        lemma_first_exists(entries, k, class);
    } else {
        assert(first_for(entries, i, class));
    }
}

/// The settings of the dock.
#[derive(Clone, Debug)]
pub struct ConfigSettings {
    /// Shell command to run when the launcher button is clicked.
    pub app_launcher_command: String,
    /// Icon of the launcher button.
    pub app_launcher_icon: String,
    /// Hide the dock when the pointer leaves it.
    pub auto_hide: Toggle,
    /// Leave the entries unsorted.
    pub chaos_mode: Toggle,
    /// The screen edge that the dock sits on.
    pub dock_position: String,
    /// Classes that never appear in the dock.
    pub ignore_applications: Vec<String>,
    /// Icons to use for given classes.
    pub override_app_icons: IconOverrides,
    /// Classes that always appear in the dock.
    pub pinned_applications: Vec<String>,
    /// Show the launcher button after the entries.
    pub show_app_launcher: Toggle,
    /// Show a separator between the entries and the launcher button.
    pub show_separator: Toggle,
}

/// The settings as mathematical values.
pub struct ConfigModel {
    pub app_launcher_command: Seq<char>,
    pub app_launcher_icon: Seq<char>,
    pub auto_hide: bool,
    pub chaos_mode: bool,
    pub dock_position: Seq<char>,
    pub ignore_applications: Seq<Seq<char>>,
    pub override_app_icons: Map<Seq<char>, Seq<char>>,
    pub pinned_applications: Seq<Seq<char>>,
    pub show_app_launcher: bool,
    pub show_separator: bool,
}

impl View for ConfigSettings {
    type V = ConfigModel;

    open spec fn view(&self) -> ConfigModel {
        ConfigModel {
            app_launcher_command: self.app_launcher_command@,
            app_launcher_icon: self.app_launcher_icon@,
            auto_hide: self.auto_hide == Toggle::On,
            chaos_mode: self.chaos_mode == Toggle::On,
            dock_position: self.dock_position@,
            ignore_applications: texts(self.ignore_applications@),
            override_app_icons: self.override_app_icons@,
            pinned_applications: texts(self.pinned_applications@),
            show_app_launcher: self.show_app_launcher == Toggle::On,
            show_separator: self.show_separator == Toggle::On,
        }
    }
}

/// The settings that hold where the user has written none.
pub open spec fn default_settings() -> ConfigModel {
    ConfigModel {
        app_launcher_command: "rofi -show drun"@,
        app_launcher_icon: "applications-all-symbolic"@,
        auto_hide: false,
        chaos_mode: false,
        dock_position: "bottom"@,
        ignore_applications: Seq::empty(),
        override_app_icons: Map::empty(),
        pinned_applications: Seq::empty(),
        show_app_launcher: true,
        show_separator: true,
    }
}

impl Default for ConfigSettings {
    fn default() -> (r: ConfigSettings)
        ensures
            r@ == default_settings(),
            r.override_app_icons.wf(),
    {
        let r = ConfigSettings {
            app_launcher_command: "rofi -show drun".to_owned(),
            app_launcher_icon: "applications-all-symbolic".to_owned(),
            auto_hide: Toggle::Off,
            chaos_mode: Toggle::Off,
            dock_position: "bottom".to_owned(),
            ignore_applications: Vec::new(),
            override_app_icons: IconOverrides::new(),
            pinned_applications: Vec::new(),
            show_app_launcher: Toggle::On,
            show_separator: Toggle::On,
        };
        assert(r@.ignore_applications =~= Seq::empty());
        assert(r@.pinned_applications =~= Seq::empty());
        r
    }
}

/// The settings to work with, given what reading the user's file gave:
/// the settings read, or the defaults where the file was missing or
/// malformed.
pub fn load_config(read: Option<ConfigSettings>) -> (r: ConfigSettings)
    ensures
        match read {
            Some(settings) => r == settings,
            None => r@ == default_settings(),
        },
{
    match read {
        Some(settings) => settings,
        None => ConfigSettings::default(),
    }
}

/// The place of the settings file below the user's home directory.
pub fn config_path(home: &str) -> (r: String)
    ensures
        r@ == home@ + "/.config/hydock/config.toml"@,
{
    joined(home, "/.config/hydock/config.toml")
}

/// The place of the style sheet below the user's home directory.
pub fn style_path(home: &str) -> (r: String)
    ensures
        r@ == home@ + "/.config/hydock/style.css"@,
{
    joined(home, "/.config/hydock/style.css")
}

/// A screen edge.
#[derive(Clone, Copy, Debug, PartialEq, Eq, Structural)]
pub enum Edge {
    Left,
    Right,
    Top,
    Bottom,
}

/// The axis along which widgets are laid out.
#[derive(Clone, Copy, Debug, PartialEq, Eq, Structural)]
pub enum Orientation {
    Horizontal,
    Vertical,
}

/// The edge that a lower-case position name stands for. Any name but
/// `left`, `right` and `top` stands for the bottom edge.
pub open spec fn edge_named(name: Seq<char>) -> Edge {
    if name == "left"@ {
        Edge::Left
    } else if name == "right"@ {
        Edge::Right
    } else if name == "top"@ {
        Edge::Top
    } else {
        Edge::Bottom
    }
}

/// The axis along which the entries of a dock on edge `edge` follow each
/// other: along the edge.
pub open spec fn dock_axis(edge: Edge) -> Orientation {
    match edge {
        Edge::Left | Edge::Right => Orientation::Vertical,
        Edge::Top | Edge::Bottom => Orientation::Horizontal,
    }
}

/// The axis along which an entry's icon and its dots follow each other:
/// across the edge.
pub open spec fn dots_axis(edge: Edge) -> Orientation {
    match edge {
        Edge::Left | Edge::Right => Orientation::Horizontal,
        Edge::Top | Edge::Bottom => Orientation::Vertical,
    }
}

/// The edge, the dock's axis and the dots' axis for a given edge.
pub open spec fn layout_on(edge: Edge) -> (Edge, Orientation, Orientation) {
    (edge, dock_axis(edge), dots_axis(edge))
}

/// The layout for a position name that is already in lower case.
pub fn layout_named(name: &str) -> (r: (Edge, Orientation, Orientation))
    ensures
        r == layout_on(edge_named(name@)),
{
    if same_text(name, "left") {
        (Edge::Left, Orientation::Vertical, Orientation::Horizontal)
    } else if same_text(name, "right") {
        (Edge::Right, Orientation::Vertical, Orientation::Horizontal)
    } else if same_text(name, "top") {
        (Edge::Top, Orientation::Horizontal, Orientation::Vertical)
    } else {
        (Edge::Bottom, Orientation::Horizontal, Orientation::Vertical)
    }
}

/// The layout that the settings ask for: the edge named by `dock_position`,
/// whatever its case, and the two axes that go with it. A name that is no
/// edge gives the bottom edge.
pub fn parse_dock_position(cfg: &ConfigSettings) -> (r: (Edge, Orientation, Orientation))
    ensures
        r == layout_on(edge_named(lowercase(cfg@.dock_position))),
{
    let name = to_lowercase(cfg.dock_position.as_str());
    layout_named(name.as_str())
}

} // verus!
