//! What the dock shows, and what one refresh tick does.
//!
//! Every tick the dock is rebuilt from nothing: the settings are read again,
//! the windows are listed again, and the surfaces and widgets are set up
//! from the two. The plan of a tick depends on nothing else, so two ticks
//! over the same windows and settings build the same dock.

use crate::config::{
    dock_axis, edge_named, layout_on, parse_dock_position, ConfigModel, ConfigSettings, Edge,
    Orientation, Toggle,
};
use crate::reconcile::{
    client_classes, lemma_reconciles_unique, models, normalized, reconcile, reconciles, DockEntry,
    EntryModel, HyprlandClient,
};
use crate::text::lowercase;
use crate::visibility::{Surfaces, VisibilityController};
use vstd::prelude::*;

verus! {

/// What came of asking the window manager for its windows.
#[derive(Clone, Debug)]
pub enum QueryOutcome {
    /// The query could not be run.
    Unreachable,
    /// The query ran and reported a failure.
    Failed,
    /// The query's answer was no list of windows.
    Malformed,
    /// The windows that are open.
    Listed(Vec<HyprlandClient>),
}

/// The windows to reconcile with after a query: those it listed, and none
/// where it failed in any way.
pub fn fetch_hyprland_clients(outcome: QueryOutcome) -> (r: Vec<HyprlandClient>)
    ensures
        match outcome {
            QueryOutcome::Listed(clients) => r == clients,
            _ => r@ == Seq::<HyprlandClient>::empty(),
        },
{
    match outcome {
        QueryOutcome::Listed(clients) => clients,
        _ => Vec::new(),
    }
}

/// One application in the dock, as it is drawn.
#[derive(Clone, Debug, PartialEq, Eq)]
pub struct AppWidget {
    /// The class, which a click on the widget acts on.
    pub class: String,
    /// The name of the icon.
    pub icon: String,
    /// The number of dots below the icon, one per open window.
    pub dots: usize,
}

/// A widget as mathematical values.
pub struct AppWidgetModel {
    pub class: Seq<char>,
    pub icon: Seq<char>,
    pub dots: nat,
}

impl View for AppWidget {
    type V = AppWidgetModel;

    open spec fn view(&self) -> AppWidgetModel {
        AppWidgetModel { class: self.class@, icon: self.icon@, dots: self.dots as nat }
    }
}

/// The widgets of a list as mathematical values.
pub open spec fn widget_models(widgets: Seq<AppWidget>) -> Seq<AppWidgetModel> {
    widgets.map_values(|w: AppWidget| w@)
}

/// The icon of a class: the one that the settings give it, else the one of
/// its own name.
pub open spec fn icon_for(overrides: Map<Seq<char>, Seq<char>>, class: Seq<char>) -> Seq<char> {
    if overrides.contains_key(class) {
        overrides[class]
    } else {
        class
    }
}

/// The widget of a dock entry.
pub open spec fn widget_for(entry: EntryModel, overrides: Map<Seq<char>, Seq<char>>) -> AppWidgetModel {
    AppWidgetModel {
        class: entry.class,
        icon: icon_for(overrides, entry.class),
        dots: entry.window_count,
    }
}

/// The dock entry that a widget shows.
pub open spec fn entry_of(widget: AppWidgetModel) -> EntryModel {
    EntryModel { class: widget.class, window_count: widget.dots }
}

/// The dock entries that a list of widgets shows.
pub open spec fn entries_of(widgets: Seq<AppWidgetModel>) -> Seq<EntryModel> {
    widgets.map_values(|w: AppWidgetModel| entry_of(w))
}

/// Whether `widgets` is the row of application widgets for the given
/// classes, all in lower case, and icon overrides: one widget for each dock
/// entry, in the order of the entries, each with its icon.
pub open spec fn renders(
    widgets: Seq<AppWidgetModel>,
    live: Seq<Seq<char>>,
    pinned: Seq<Seq<char>>,
    ignored: Seq<Seq<char>>,
    chaos: bool,
    overrides: Map<Seq<char>, Seq<char>>,
) -> bool {
    &&& reconciles(entries_of(widgets), live, pinned, ignored, chaos)
    &&& forall|i: int|
        0 <= i < widgets.len() ==> (#[trigger] widgets[i]).icon == icon_for(
            overrides,
            widgets[i].class,
        )
}

/// The widget for the application `class` with `count` open windows.
pub fn build_app_widget(class: &str, count: usize, cfg: &ConfigSettings) -> (r: AppWidget)
    ensures
        r@ == widget_for(
            EntryModel { class: class@, window_count: count as nat },
            cfg@.override_app_icons,
        ),
{
    let icon = match cfg.override_app_icons.get(class) {
        Some(icon) => icon.clone(),
        None => class.to_owned(),
    };
    AppWidget { class: class.to_owned(), icon, dots: count }
}

/// The icon to draw, given the name under which the icon theme knows the
/// wanted one: that name, or the stock application icon where it knows none.
pub fn icon_or_default(known: Option<String>) -> (r: String)
    ensures
        r@ == (match known {
            Some(name) => name@,
            None => "application-default-icon"@,
        }),
{
    match known {
        Some(name) => name,
        None => "application-default-icon".to_owned(),
    }
}

/// The row of application widgets for the open windows `clients` under the
/// settings `cfg`: one for each dock entry, in the order of the entries.
pub fn build_apps(clients: &Vec<HyprlandClient>, cfg: &ConfigSettings) -> (r: Vec<AppWidget>)
    ensures
        renders(
            widget_models(r@),
            normalized(client_classes(clients@)),
            normalized(cfg@.pinned_applications),
            normalized(cfg@.ignore_applications),
            cfg@.chaos_mode,
            cfg@.override_app_icons,
        ),
{
    let entries = reconcile(clients, cfg);
    let mut widgets: Vec<AppWidget> = Vec::new();
    let mut i: usize = 0;
    while i < entries.len()
        invariant
            i <= entries.len(),
            widgets.len() == i,
            forall|k: int|
                0 <= k < i ==> (#[trigger] widgets[k])@ == widget_for(
                    entries[k]@,
                    cfg@.override_app_icons,
                ),
        decreases entries.len() - i,
    {
        widgets.push(build_app_widget(entries[i].class.as_str(), entries[i].window_count, cfg));
        i += 1;
    }
    proof {
        assert(entries_of(widget_models(widgets@)) =~= models(entries@));
        assert forall|k: int| 0 <= k < widgets.len() implies (#[trigger] widget_models(
            widgets@,
        )[k]).icon == icon_for(cfg@.override_app_icons, widget_models(widgets@)[k].class) by {
            assert(widget_models(widgets@)[k] == widgets[k]@);
        }
    }
    widgets
}

/// The launcher button, as it is drawn.
#[derive(Clone, Debug, PartialEq, Eq)]
pub struct LauncherButton {
    /// A separator stands between the applications and the button.
    pub separator: bool,
    /// The name of the button's icon.
    pub icon: String,
    /// The shell command that a press on the button runs.
    pub command: String,
}

/// A launcher button as mathematical values.
pub struct LauncherModel {
    pub separator: bool,
    pub icon: Seq<char>,
    pub command: Seq<char>,
}

impl View for LauncherButton {
    type V = LauncherModel;

    open spec fn view(&self) -> LauncherModel {
        LauncherModel { separator: self.separator, icon: self.icon@, command: self.command@ }
    }
}

/// The launcher button that the settings describe.
pub open spec fn launcher_for(cfg: ConfigModel) -> LauncherModel {
    LauncherModel {
        separator: cfg.show_separator,
        icon: cfg.app_launcher_icon,
        command: cfg.app_launcher_command,
    }
}

/// The launcher button under the settings `cfg`.
pub fn build_app_launcher(cfg: &ConfigSettings) -> (r: LauncherButton)
    ensures
        r@ == launcher_for(cfg@),
{
    LauncherButton {
        separator: cfg.show_separator.is_on(),
        icon: cfg.app_launcher_icon.clone(),
        command: cfg.app_launcher_command.clone(),
    }
}

/// Where the two surfaces sit and how their contents are laid out.
#[derive(Clone, Copy, Debug, PartialEq, Eq, Structural)]
pub struct DockSetup {
    /// The edge that the dock and the trigger strip are anchored to.
    pub edge: Edge,
    /// The axis along which the applications follow each other.
    pub dock_orientation: Orientation,
    /// The axis along which an icon and its dots follow each other.
    pub dots_orientation: Orientation,
    /// The width of the trigger strip.
    pub trigger_width: i32,
    /// The height of the trigger strip.
    pub trigger_height: i32,
}

/// The setup of a dock on the edge `edge`. The trigger strip is one pixel
/// thick and as long as the edge allows.
pub open spec fn setup_on(edge: Edge) -> DockSetup {
    DockSetup {
        edge,
        dock_orientation: layout_on(edge).1,
        dots_orientation: layout_on(edge).2,
        trigger_width: if dock_axis(edge) == Orientation::Horizontal {
            i32::MAX
        } else {
            1
        },
        trigger_height: if dock_axis(edge) == Orientation::Horizontal {
            1
        } else {
            i32::MAX
        },
    }
}

/// The setup that the settings ask for.
pub open spec fn setup_for(cfg: ConfigModel) -> DockSetup {
    setup_on(edge_named(lowercase(cfg.dock_position)))
}

/// The setup of the dock under the settings `cfg`.
pub fn build_dock(cfg: &ConfigSettings) -> (r: DockSetup)
    ensures
        r == setup_for(cfg@),
{
    let (edge, dock_orientation, dots_orientation) = parse_dock_position(cfg);
    let along = match dock_orientation {
        Orientation::Horizontal => true,
        Orientation::Vertical => false,
    };
    DockSetup {
        edge,
        dock_orientation,
        dots_orientation,
        trigger_width: if along {
            i32::MAX
        } else {
            1
        },
        trigger_height: if along {
            1
        } else {
            i32::MAX
        },
    }
}

/// All that one tick sets up.
#[derive(Clone, Debug, PartialEq, Eq)]
pub struct TickPlan {
    /// The visibility controller after the tick.
    pub controller: VisibilityController,
    /// Where the surfaces sit.
    pub setup: DockSetup,
    /// Which surfaces are on screen.
    pub surfaces: Surfaces,
    /// The application widgets, first to last. They replace all that the dock
    /// held before.
    pub apps: Vec<AppWidget>,
    /// The launcher button behind the applications, if there is one.
    pub launcher: Option<LauncherButton>,
    /// Whether the timer goes on. It always does.
    pub keep_running: bool,
}

/// A tick's plan as mathematical values.
pub struct TickModel {
    pub controller: VisibilityController,
    pub setup: DockSetup,
    pub surfaces: Surfaces,
    pub apps: Seq<AppWidgetModel>,
    pub launcher: Option<LauncherModel>,
    pub keep_running: bool,
}

impl View for TickPlan {
    type V = TickModel;

    open spec fn view(&self) -> TickModel {
        TickModel {
            controller: self.controller,
            setup: self.setup,
            surfaces: self.surfaces,
            apps: widget_models(self.apps@),
            launcher: match self.launcher {
                Some(button) => Some(button@),
                None => None,
            },
            keep_running: self.keep_running,
        }
    }
}

/// Whether `plan` is the plan of a tick that starts with the controller
/// `controller`, reads the settings `cfg` and finds windows of the classes
/// `windows`, as the window manager reports them.
pub open spec fn is_tick_plan(
    plan: TickModel,
    controller: VisibilityController,
    cfg: ConfigModel,
    windows: Seq<Seq<char>>,
) -> bool {
    &&& plan.controller == controller.after_tick(cfg.auto_hide)
    &&& plan.setup == setup_for(cfg)
    &&& plan.surfaces == plan.controller.surfaces_model()
    &&& renders(
        plan.apps,
        normalized(windows),
        normalized(cfg.pinned_applications),
        normalized(cfg.ignore_applications),
        cfg.chaos_mode,
        cfg.override_app_icons,
    )
    &&& plan.launcher == (if cfg.show_app_launcher {
        Some(launcher_for(cfg))
    } else {
        None
    })
    &&& plan.keep_running
}

/// One tick: from the controller as it stands, the settings as they were
/// just read and the windows as they were just listed, to all that the dock
/// is rebuilt from.
pub fn tick(controller: VisibilityController, cfg: &ConfigSettings, clients: &Vec<
    HyprlandClient,
>) -> (r: TickPlan)
    ensures
        is_tick_plan(r@, controller, cfg@, client_classes(clients@)),
        r.controller.wf(),
{
    let next = controller.tick(cfg.auto_hide);
    let apps = build_apps(clients, cfg);
    let launcher = if cfg.show_app_launcher.is_on() {
        Some(build_app_launcher(cfg))
    } else {
        None
    };
    TickPlan {
        controller: next,
        setup: build_dock(cfg),
        surfaces: next.surfaces(),
        apps,
        launcher,
        keep_running: true,
    }
}

/// The row of widgets is determined by the classes and the settings: two
/// rows that both meet the description are the same row.
pub proof fn lemma_renders_unique(
    a: Seq<AppWidgetModel>,
    b: Seq<AppWidgetModel>,
    live: Seq<Seq<char>>,
    pinned: Seq<Seq<char>>,
    ignored: Seq<Seq<char>>,
    chaos: bool,
    overrides: Map<Seq<char>, Seq<char>>,
)
    requires
        renders(a, live, pinned, ignored, chaos, overrides),
        renders(b, live, pinned, ignored, chaos, overrides),
    ensures
        a == b,
{
    lemma_reconciles_unique(entries_of(a), entries_of(b), live, pinned, ignored, chaos);
    assert(a.len() == entries_of(a).len() && b.len() == entries_of(b).len());
    assert forall|i: int| 0 <= i < a.len() implies a[i] == b[i] by {
        assert(entries_of(a)[i] == entry_of(a[i]));
        assert(entries_of(b)[i] == entry_of(b[i]));
    }
    assert(a =~= b);
}

/// A tick is a rebuild from nothing: its plan is determined by the
/// controller, the settings and the windows. Two ticks over the same
/// windows and settings build the same dock, entry for entry.
pub proof fn lemma_tick_is_idempotent(
    first: TickModel,
    second: TickModel,
    controller: VisibilityController,
    cfg: ConfigModel,
    windows: Seq<Seq<char>>,
)
    requires
        is_tick_plan(first, controller, cfg, windows),
        is_tick_plan(second, controller, cfg, windows),
    ensures
        first == second,
{
    lemma_renders_unique(
        first.apps,
        second.apps,
        normalized(windows),
        normalized(cfg.pinned_applications),
        normalized(cfg.ignore_applications),
        cfg.chaos_mode,
        cfg.override_app_icons,
    );
}

/// The applications that a tick shows do not depend on the controller it
/// starts with: a second tick, run on the controller that the first one
/// left, shows the same row.
pub proof fn lemma_second_tick_same_apps(
    first: TickModel,
    second: TickModel,
    controller: VisibilityController,
    cfg: ConfigModel,
    windows: Seq<Seq<char>>,
)
    requires
        is_tick_plan(first, controller, cfg, windows),
        is_tick_plan(second, first.controller, cfg, windows),
    ensures
        second.apps == first.apps,
        second.launcher == first.launcher,
        second.setup == first.setup,
        second.controller == first.controller,
{
    lemma_renders_unique(
        first.apps,
        second.apps,
        normalized(windows),
        normalized(cfg.pinned_applications),
        normalized(cfg.ignore_applications),
        cfg.chaos_mode,
        cfg.override_app_icons,
    );
}

} // verus!
