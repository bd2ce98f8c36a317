use hydock::dispatch::{
    begin, build_launch_path, build_lookup_command, build_window_command, click, close_or_launch,
    focus_or_launch, is_not_found, launcher_pressed, names_no_window, run_launcher, Action,
    Dispatch, DispatchError, Outcome, Phase, Reply, WindowOp,
};

fn output(text: &str) -> Reply {
    Reply::Completed(text.as_bytes().to_vec())
}

const LOOKUP_FOO: &str = "hyprctl clients -j | jq -r '[.[] | select(.class == \"foo\")][0].address'";

#[test]
fn focus_with_empty_address_launches_without_focusing() {
    let (dispatch, first) = focus_or_launch("foo");
    assert_eq!(first, Action::RunShell(LOOKUP_FOO.to_string()));
    let (dispatch, second) = dispatch.advance(output(""));
    assert_eq!(second, Action::Launch("/usr/bin/foo".to_string()));
    assert_eq!(dispatch.phase, Phase::Launching);
    let (dispatch, third) = dispatch.advance(Reply::Completed(Vec::new()));
    assert_eq!(third, Action::Finish(Outcome::Done));
    assert!(dispatch.is_finished());
}

#[test]
fn focus_of_a_vanished_window_launches() {
    let (dispatch, first) = focus_or_launch("foo");
    assert_eq!(first, Action::RunShell(LOOKUP_FOO.to_string()));
    let (dispatch, second) = dispatch.advance(output("0x123"));
    assert_eq!(second, Action::RunShell("hyprctl dispatch focuswindow address:0x123".to_string()));
    let (dispatch, third) = dispatch.advance(output("No such window found"));
    assert_eq!(third, Action::Launch("/usr/bin/foo".to_string()));
    let (dispatch, fourth) = dispatch.advance(Reply::Completed(Vec::new()));
    assert_eq!(fourth, Action::Finish(Outcome::Done));
    assert_eq!(dispatch.phase, Phase::Finished(Outcome::Done));
}

#[test]
fn focus_of_an_open_window_does_not_launch() {
    let (dispatch, _) = focus_or_launch("foo");
    let (dispatch, second) = dispatch.advance(output("0x55d0c8a1\n"));
    assert_eq!(
        second,
        Action::RunShell("hyprctl dispatch focuswindow address:0x55d0c8a1".to_string())
    );
    let (dispatch, third) = dispatch.advance(output("ok\n"));
    assert_eq!(third, Action::Finish(Outcome::Done));
    assert_eq!(dispatch.phase, Phase::Finished(Outcome::Done));
    assert_eq!(dispatch.class, "foo");
    assert_eq!(dispatch.op, WindowOp::Focus);
}

#[test]
fn close_sends_the_close_command() {
    let (dispatch, first) = close_or_launch("kitty");
    assert_eq!(
        first,
        Action::RunShell(
            "hyprctl clients -j | jq -r '[.[] | select(.class == \"kitty\")][0].address'".to_string()
        )
    );
    let (dispatch, second) = dispatch.advance(output("0xabc"));
    assert_eq!(second, Action::RunShell("hyprctl dispatch closewindow address:0xabc".to_string()));
    let (_, third) = dispatch.advance(output("ok"));
    assert_eq!(third, Action::Finish(Outcome::Done));
}

#[test]
fn close_without_window_launches() {
    let (dispatch, _) = close_or_launch("kitty");
    let (_, second) = dispatch.advance(output("\n"));
    assert_eq!(second, Action::Launch("/usr/bin/kitty".to_string()));
    let (dispatch, _) = close_or_launch("kitty");
    let (dispatch, _) = dispatch.advance(output("0x1"));
    let (_, third) = dispatch.advance(output("  No such window found\n"));
    assert_eq!(third, Action::Launch("/usr/bin/kitty".to_string()));
}

#[test]
fn not_found_answer_to_the_query_launches() {
    let (dispatch, _) = focus_or_launch("foo");
    let (dispatch, second) = dispatch.advance(output("No such window found\n"));
    assert_eq!(second, Action::Launch("/usr/bin/foo".to_string()));
    assert_eq!(dispatch.phase, Phase::Launching);
}

#[test]
fn replies_are_trimmed() {
    let (dispatch, _) = focus_or_launch("foo");
    let (_, second) = dispatch.advance(output(" \t0x123 \r\n"));
    assert_eq!(second, Action::RunShell("hyprctl dispatch focuswindow address:0x123".to_string()));
    let (dispatch, _) = focus_or_launch("foo");
    let (_, second) = dispatch.advance(output(" \n\t "));
    assert_eq!(second, Action::Launch("/usr/bin/foo".to_string()));
}

#[test]
fn replies_are_decoded_leniently() {
    let (dispatch, _) = focus_or_launch("foo");
    let (_, second) = dispatch.advance(Reply::Completed(vec![b'0', b'x', 0xff, b'1', b'\n']));
    assert_eq!(
        second,
        Action::RunShell("hyprctl dispatch focuswindow address:0x\u{fffd}1".to_string())
    );
}

#[test]
fn not_found_must_match_exactly() {
    let (dispatch, _) = focus_or_launch("foo");
    let (dispatch, _) = dispatch.advance(output("0x1"));
    let (_, third) = dispatch.advance(output("no such window found"));
    assert_eq!(third, Action::Finish(Outcome::Done));
    let (dispatch, _) = focus_or_launch("foo");
    let (dispatch, _) = dispatch.advance(output("0x1"));
    let (_, third) = dispatch.advance(output("No such window found."));
    assert_eq!(third, Action::Finish(Outcome::Done));
}

#[test]
fn failed_query_ends_with_lookup_error() {
    let (dispatch, _) = focus_or_launch("foo");
    let (dispatch, second) = dispatch.advance(Reply::Failed);
    assert_eq!(second, Action::Finish(Outcome::Failed(DispatchError::Lookup)));
    assert_eq!(dispatch.phase, Phase::Finished(Outcome::Failed(DispatchError::Lookup)));
}

#[test]
fn failed_command_ends_with_command_error() {
    let (dispatch, _) = close_or_launch("foo");
    let (dispatch, _) = dispatch.advance(output("0x1"));
    let (dispatch, third) = dispatch.advance(Reply::Failed);
    assert_eq!(third, Action::Finish(Outcome::Failed(DispatchError::Command)));
    assert!(dispatch.is_finished());
}

#[test]
fn failed_launch_ends_with_launch_error() {
    let (dispatch, _) = focus_or_launch("foo");
    let (dispatch, _) = dispatch.advance(output(""));
    let (dispatch, third) = dispatch.advance(Reply::Failed);
    assert_eq!(third, Action::Finish(Outcome::Failed(DispatchError::Launch)));
    assert_eq!(dispatch.phase, Phase::Finished(Outcome::Failed(DispatchError::Launch)));
}

#[test]
fn finished_dispatch_stays_finished() {
    let (dispatch, _) = focus_or_launch("foo");
    let (dispatch, _) = dispatch.advance(Reply::Failed);
    let (dispatch, again) = dispatch.advance(output("0x1"));
    assert_eq!(again, Action::Finish(Outcome::Failed(DispatchError::Lookup)));
    let (dispatch, again) = dispatch.advance(Reply::Failed);
    assert_eq!(again, Action::Finish(Outcome::Failed(DispatchError::Lookup)));
    assert!(dispatch.is_finished());
}

#[test]
fn dispatch_is_over_after_three_replies() {
    let replies = [output(""), output("0x1"), output("No such window found"), Reply::Failed];
    for a in &replies {
        for b in &replies {
            for c in &replies {
                let (dispatch, _) = focus_or_launch("foo");
                let (dispatch, first) = dispatch.advance(a.clone());
                let (dispatch, second) = dispatch.advance(b.clone());
                let (dispatch, third) = dispatch.advance(c.clone());
                assert!(dispatch.is_finished());
                let launches = [&first, &second, &third]
                    .iter()
                    .filter(|action| matches!(action, Action::Launch(_)))
                    .count();
                assert!(launches <= 1);
            }
        }
    }
}

#[test]
fn advance_with_takes_text_as_it_is() {
    let (dispatch, _) = begin(WindowOp::Focus, "foo");
    let (_, second) = dispatch.advance_with(Some(" 0x1 "));
    assert_eq!(second, Action::RunShell("hyprctl dispatch focuswindow address: 0x1 ".to_string()));
    let (dispatch, _) = begin(WindowOp::Close, "foo");
    let (_, second) = dispatch.advance_with(Some(""));
    assert_eq!(second, Action::Launch("/usr/bin/foo".to_string()));
    let (dispatch, _) = begin(WindowOp::Close, "foo");
    let (_, second) = dispatch.advance_with(None);
    assert_eq!(second, Action::Finish(Outcome::Failed(DispatchError::Lookup)));
}

#[test]
fn begin_keeps_the_class_as_given() {
    let (dispatch, first) = begin(WindowOp::Close, "Foo Bar");
    assert_eq!(
        dispatch,
        Dispatch { op: WindowOp::Close, class: "Foo Bar".to_string(), phase: Phase::Lookup }
    );
    assert_eq!(
        first,
        Action::RunShell(
            "hyprctl clients -j | jq -r '[.[] | select(.class == \"Foo Bar\")][0].address'"
                .to_string()
        )
    );
    let (_, second) = dispatch.advance(output(""));
    assert_eq!(second, Action::Launch("/usr/bin/Foo Bar".to_string()));
}

#[test]
fn command_texts() {
    assert_eq!(build_lookup_command("foo"), LOOKUP_FOO);
    assert_eq!(build_window_command(WindowOp::Focus, "0x9"), "hyprctl dispatch focuswindow address:0x9");
    assert_eq!(build_window_command(WindowOp::Close, "0x9"), "hyprctl dispatch closewindow address:0x9");
    assert_eq!(build_launch_path("foo"), "/usr/bin/foo");
    assert_eq!(build_launch_path(""), "/usr/bin/");
}

#[test]
fn not_found_sentinel() {
    assert!(is_not_found("No such window found"));
    assert!(!is_not_found("No such window found "));
    assert!(!is_not_found(""));
    assert!(names_no_window(""));
    assert!(names_no_window("No such window found"));
    assert!(!names_no_window("0x123"));
    assert!(!names_no_window("null"));
}

#[test]
fn click_maps_buttons() {
    let (dispatch, action) = click(1, "foo").unwrap();
    assert_eq!(dispatch.op, WindowOp::Focus);
    assert_eq!(action, Action::RunShell(LOOKUP_FOO.to_string()));
    let (dispatch, action) = click(2, "foo").unwrap();
    assert_eq!(dispatch.op, WindowOp::Close);
    assert_eq!(dispatch.class, "foo");
    assert_eq!(action, Action::RunShell(LOOKUP_FOO.to_string()));
    assert_eq!(click(0, "foo"), None);
    assert_eq!(click(3, "foo"), None);
    assert_eq!(click(u32::MAX, "foo"), None);
}

#[test]
fn launcher_runs_on_single_press() {
    assert_eq!(run_launcher("rofi -show drun"), Action::SpawnShell("rofi -show drun".to_string()));
    assert_eq!(
        launcher_pressed(1, "rofi -show drun"),
        Some(Action::SpawnShell("rofi -show drun".to_string()))
    );
    assert_eq!(launcher_pressed(2, "rofi -show drun"), None);
    assert_eq!(launcher_pressed(0, "rofi -show drun"), None);
    assert_eq!(launcher_pressed(-1, "rofi -show drun"), None);
}
