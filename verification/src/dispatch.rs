//! What a click on the dock does.
//!
//! A click on an application asks the window manager for the address of the
//! first window of its class, then focuses or closes that window. Where the
//! window manager knows no such window, at the first or at the second step,
//! the application is launched in its place.
//!
//! The library runs no command. It hands out the next thing to do as an
//! [`Action`], and takes what came of it as a [`Reply`].

use crate::text::{from_utf8_lossy, joined, lossy_text, same_text, trim, trimmed};
use vstd::prelude::*;

verus! {

/// What a click asks of the window.
#[derive(Clone, Copy, Debug, PartialEq, Eq, Structural)]
pub enum WindowOp {
    Focus,
    Close,
}

/// The step of a dispatch at which a process could not be run.
#[derive(Clone, Copy, Debug, PartialEq, Eq, Structural)]
pub enum DispatchError {
    /// The query for the window's address.
    Lookup,
    /// The command that focuses or closes the window.
    Command,
    /// The application itself.
    Launch,
}

/// How a dispatch ended.
#[derive(Clone, Copy, Debug, PartialEq, Eq, Structural)]
pub enum Outcome {
    /// Every process that was due was run.
    Done,
    /// A process could not be run.
    Failed(DispatchError),
}

/// How far a dispatch has come.
#[derive(Clone, Copy, Debug, PartialEq, Eq, Structural)]
pub enum Phase {
    /// The query for the window's address is running.
    Lookup,
    /// The command that focuses or closes the window is running.
    Command,
    /// The application is being launched.
    Launching,
    /// Nothing is left to do.
    Finished(Outcome),
}

/// One click on an application, under way.
#[derive(Clone, Debug, PartialEq, Eq)]
pub struct Dispatch {
    pub op: WindowOp,
    pub class: String,
    pub phase: Phase,
}

/// A dispatch as mathematical values.
pub struct DispatchModel {
    pub op: WindowOp,
    pub class: Seq<char>,
    pub phase: Phase,
}

impl View for Dispatch {
    type V = DispatchModel;

    open spec fn view(&self) -> DispatchModel {
        DispatchModel { op: self.op, class: self.class@, phase: self.phase }
    }
}

/// What came of the last action.
#[derive(Clone, Debug, PartialEq, Eq)]
pub enum Reply {
    /// It was carried out. For a shell command these are the bytes that it
    /// wrote to its standard output; for a launch they are empty.
    Completed(Vec<u8>),
    /// The process could not be run.
    Failed,
}

/// The next thing to do.
#[derive(Clone, Debug, PartialEq, Eq)]
pub enum Action {
    /// Run the command with `sh -c`, wait for it, and reply with its output.
    RunShell(String),
    /// Start the program at this path in the background, and reply.
    Launch(String),
    /// Start the command with `sh -c` in the background. No reply is due.
    SpawnShell(String),
    /// The dispatch is over, with this outcome.
    Finish(Outcome),
}

/// An action as mathematical values.
pub enum ActionModel {
    RunShell(Seq<char>),
    Launch(Seq<char>),
    SpawnShell(Seq<char>),
    Finish(Outcome),
}

impl View for Action {
    type V = ActionModel;

    open spec fn view(&self) -> ActionModel {
        match self {
            Action::RunShell(command) => ActionModel::RunShell(command@),
            Action::Launch(path) => ActionModel::Launch(path@),
            Action::SpawnShell(command) => ActionModel::SpawnShell(command@),
            Action::Finish(outcome) => ActionModel::Finish(*outcome),
        }
    }
}

/// The shell command that prints the address of the first window of `class`.
pub open spec fn lookup_command(class: Seq<char>) -> Seq<char> {
    "hyprctl clients -j | jq -r '[.[] | select(.class == \""@ + class
        + "\")][0].address'"@
}

/// The shell command that focuses or closes the window at `address`.
pub open spec fn window_command(op: WindowOp, address: Seq<char>) -> Seq<char> {
    match op {
        WindowOp::Focus => "hyprctl dispatch focuswindow address:"@ + address,
        WindowOp::Close => "hyprctl dispatch closewindow address:"@ + address,
    }
}

/// The program that is launched for `class`.
pub open spec fn launch_path(class: Seq<char>) -> Seq<char> {
    "/usr/bin/"@ + class
}

/// What the window manager says when it knows no such window.
pub open spec fn not_found() -> Seq<char> {
    "No such window found"@
}

/// Whether the answer to the address query names no window: it is empty, or
/// it is the window manager's "not found".
pub open spec fn no_window(answer: Seq<char>) -> bool {
    answer.len() == 0 || answer == not_found()
}

/// The text of a reply: the output of the command, decoded leniently and
/// without the white space around it. A failed action has none.
pub open spec fn reply_text(reply: Reply) -> Option<Seq<char>> {
    match reply {
        Reply::Completed(bytes) => Some(trimmed(lossy_text(bytes@))),
        Reply::Failed => None,
    }
}

/// A dispatch that has just sent its address query.
pub open spec fn started(op: WindowOp, class: Seq<char>) -> DispatchModel {
    DispatchModel { op, class, phase: Phase::Lookup }
}

/// The dispatch `d` at the end, with the action that says so.
pub open spec fn finished(d: DispatchModel, outcome: Outcome) -> (
    DispatchModel,
    ActionModel,
) {
    (
        DispatchModel { op: d.op, class: d.class, phase: Phase::Finished(outcome) },
        ActionModel::Finish(outcome),
    )
}

/// The dispatch `d` launching its application.
pub open spec fn launching(d: DispatchModel) -> (DispatchModel, ActionModel) {
    (
        DispatchModel { op: d.op, class: d.class, phase: Phase::Launching },
        ActionModel::Launch(launch_path(d.class)),
    )
}

/// One step of a dispatch: where it stands after a reply with the text
/// `reply` (`None` for an action that failed), and what to do next.
///
/// - After the address query: with no window the application is launched
///   and no command is sent to a window; else the window at the address is
///   focused or closed.
/// - After that command: if the window manager found no such window after
///   all, the application is launched; else the dispatch is over.
/// - After the launch the dispatch is over.
/// - A process that could not be run ends the dispatch with the error of
///   its step.
pub open spec fn step(d: DispatchModel, reply: Option<Seq<char>>) -> (DispatchModel, ActionModel) {
    match d.phase {
        Phase::Lookup => match reply {
            None => finished(d, Outcome::Failed(DispatchError::Lookup)),
            Some(address) => if no_window(address) {
                launching(d)
            } else {
                (
                    DispatchModel { op: d.op, class: d.class, phase: Phase::Command },
                    ActionModel::RunShell(window_command(d.op, address)),
                )
            },
        },
        Phase::Command => match reply {
            None => finished(d, Outcome::Failed(DispatchError::Command)),
            Some(answer) => if answer == not_found() {
                launching(d)
            } else {
                finished(d, Outcome::Done)
            },
        },
        Phase::Launching => match reply {
            None => finished(d, Outcome::Failed(DispatchError::Launch)),
            Some(_) => finished(d, Outcome::Done),
        },
        Phase::Finished(outcome) => (d, ActionModel::Finish(outcome)),
    }
}

/// The shell command that prints the address of the first window of `class`.
pub fn build_lookup_command(class: &str) -> (r: String)
    ensures
        r@ == lookup_command(class@),
{
    let mut command = joined("hyprctl clients -j | jq -r '[.[] | select(.class == \"", class);
    command.append("\")][0].address'");
    command
}

/// The shell command that focuses or closes the window at `address`.
pub fn build_window_command(op: WindowOp, address: &str) -> (r: String)
    ensures
        r@ == window_command(op, address@),
{
    match op {
        WindowOp::Focus => joined("hyprctl dispatch focuswindow address:", address),
        WindowOp::Close => joined("hyprctl dispatch closewindow address:", address),
    }
}

/// The program that is launched for `class`.
pub fn build_launch_path(class: &str) -> (r: String)
    ensures
        r@ == launch_path(class@),
{
    joined("/usr/bin/", class)
}

/// Whether `answer` is the window manager's "not found".
pub fn is_not_found(answer: &str) -> (r: bool)
    ensures
        r == (answer@ == not_found()),
{
    same_text(answer, "No such window found")
}

/// Whether the answer to the address query names no window.
pub fn names_no_window(answer: &str) -> (r: bool)
    ensures
        r == no_window(answer@),
{
    answer.is_empty() || is_not_found(answer)
}

/// Starts a dispatch: the first action is the address query.
pub fn begin(op: WindowOp, class: &str) -> (r: (Dispatch, Action))
    ensures
        r.0@ == started(op, class@),
        r.1@ == ActionModel::RunShell(lookup_command(class@)),
{
    let dispatch = Dispatch { op, class: class.to_owned(), phase: Phase::Lookup };
    (dispatch, Action::RunShell(build_lookup_command(class)))
}

/// Starts to focus the first window of `class`, or to launch the
/// application if it has none.
pub fn focus_or_launch(class: &str) -> (r: (Dispatch, Action))
    ensures
        r.0@ == started(WindowOp::Focus, class@),
        r.1@ == ActionModel::RunShell(lookup_command(class@)),
{
    begin(WindowOp::Focus, class)
}

/// Starts to close the first window of `class`, or to launch the
/// application if it has none.
pub fn close_or_launch(class: &str) -> (r: (Dispatch, Action))
    ensures
        r.0@ == started(WindowOp::Close, class@),
        r.1@ == ActionModel::RunShell(lookup_command(class@)),
{
    begin(WindowOp::Close, class)
}

impl Dispatch {
    fn finish(self, outcome: Outcome) -> (r: (Dispatch, Action))
        ensures
            (r.0@, r.1@) == finished(self@, outcome),
    {
        (
            Dispatch { op: self.op, class: self.class, phase: Phase::Finished(outcome) },
            Action::Finish(outcome),
        )
    }

    fn launch(self) -> (r: (Dispatch, Action))
        ensures
            (r.0@, r.1@) == launching(self@),
    {
        let path = build_launch_path(self.class.as_str());
        (Dispatch { op: self.op, class: self.class, phase: Phase::Launching }, Action::Launch(path))
    }

    /// Takes a reply whose text is at hand: `Some` with the output of the
    /// command, decoded and trimmed, or `None` where the action failed.
    pub fn advance_with(self, reply: Option<&str>) -> (r: (Dispatch, Action))
        ensures
            (r.0@, r.1@) == step(
                self@,
                match reply {
                    Some(text) => Some(text@),
                    None => None,
                },
            ),
    {
        match self.phase {
            Phase::Lookup => match reply {
                None => self.finish(Outcome::Failed(DispatchError::Lookup)),
                Some(address) => {
                    if names_no_window(address) {
                        self.launch()
                    } else {
                        let command = build_window_command(self.op, address);
                        (
                            Dispatch { op: self.op, class: self.class, phase: Phase::Command },
                            Action::RunShell(command),
                        )
                    }
                },
            },
            Phase::Command => match reply {
                None => self.finish(Outcome::Failed(DispatchError::Command)),
                Some(answer) => {
                    if is_not_found(answer) {
                        self.launch()
                    } else {
                        self.finish(Outcome::Done)
                    }
                },
            },
            Phase::Launching => match reply {
                None => self.finish(Outcome::Failed(DispatchError::Launch)),
                Some(_) => self.finish(Outcome::Done),
            },
            Phase::Finished(outcome) => (self, Action::Finish(outcome)),
        }
    }

    /// Takes the reply to the last action and says what to do next.
    pub fn advance(self, reply: Reply) -> (r: (Dispatch, Action))
        ensures
            (r.0@, r.1@) == step(self@, reply_text(reply)),
    {
        match reply {
            Reply::Completed(bytes) => {
                let decoded = from_utf8_lossy(bytes.as_slice());
                let text = trim(decoded.as_str());
                self.advance_with(Some(text))
            },
            Reply::Failed => self.advance_with(None),
        }
    }

    /// Whether nothing is left to do.
    pub fn is_finished(&self) -> (r: bool)
        ensures
            r == (self.phase is Finished),
    {
        match self.phase {
            Phase::Finished(_) => true,
            _ => false,
        }
    }
}

/// What a press of a pointer button on an application starts: the first
/// button focuses, the second closes, any other does nothing.
pub fn click(button: u32, class: &str) -> (r: Option<(Dispatch, Action)>)
    ensures
        match r {
            Some(begun) => {
                &&& button == 1 || button == 2
                &&& begun.0@ == started(
                    if button == 1 {
                        WindowOp::Focus
                    } else {
                        WindowOp::Close
                    },
                    class@,
                )
                &&& begun.1@ == ActionModel::RunShell(lookup_command(class@))
            },
            None => button != 1 && button != 2,
        },
{
    if button == 1 {
        Some(focus_or_launch(class))
    } else if button == 2 {
        Some(close_or_launch(class))
    } else {
        None
    }
}

/// Runs the launcher: the command is started in the background.
pub fn run_launcher(command: &str) -> (r: Action)
    ensures
        r@ == ActionModel::SpawnShell(command@),
{
    Action::SpawnShell(command.to_owned())
}

/// What a press on the launcher button starts: a single press runs the
/// launcher, the further presses of a double or triple click do nothing.
pub fn launcher_pressed(n_press: i32, command: &str) -> (r: Option<Action>)
    ensures
        match r {
            Some(action) => n_press == 1 && action@ == ActionModel::SpawnShell(command@),
            None => n_press != 1,
        },
{
    if n_press == 1 {
        Some(run_launcher(command))
    } else {
        None
    }
}

/// Where the address query finds no window, the application is launched and
/// no command is sent to any window.
pub proof fn lemma_no_address_launches(op: WindowOp, class: Seq<char>, answer: Seq<char>)
    requires
        no_window(answer),
    ensures
        step(started(op, class), Some(answer)).1 == ActionModel::Launch(launch_path(class)),
        step(started(op, class), Some(answer)).0.phase == Phase::Launching,
{
}

/// Where the window has gone between the query and the command, the
/// application is launched.
pub proof fn lemma_vanished_window_launches(op: WindowOp, class: Seq<char>, address: Seq<char>)
    requires
        !no_window(address),
    ensures
        step(started(op, class), Some(address)).1 == ActionModel::RunShell(
            window_command(op, address),
        ),
        step(step(started(op, class), Some(address)).0, Some(not_found())).1 == ActionModel::Launch(
            launch_path(class),
        ),
{
}

/// A dispatch is over after three replies at most, whatever they are, and
/// it launches its application once at most.
pub proof fn lemma_dispatch_ends(
    op: WindowOp,
    class: Seq<char>,
    first: Option<Seq<char>>,
    second: Option<Seq<char>>,
    third: Option<Seq<char>>,
)
    ensures
        step(step(step(started(op, class), first).0, second).0, third).0.phase is Finished,
        step(started(op, class), first).1 is Launch ==> !(step(
            step(started(op, class), first).0,
            second,
        ).1 is Launch),
        !(step(step(step(started(op, class), first).0, second).0, third).1 is Launch)
            || !(step(step(started(op, class), first).0, second).1 is Launch),
{
}

/// A dispatch that is over stays over, with the same outcome.
pub proof fn lemma_finished_stays(d: DispatchModel, reply: Option<Seq<char>>)
    requires
        d.phase is Finished,
    ensures
        step(d, reply).0 == d,
        step(d, reply).1 == ActionModel::Finish(d.phase->Finished_0),
{
}

} // verus!
