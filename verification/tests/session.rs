use kanata_appvk::appvk::{Appvk, Change, Watch};
use kanata_appvk::kanata::Kanata;
use kanata_appvk::message::{Action, Command};

fn set(ids: &[&str]) -> Vec<String> {
    ids.iter().map(|id| id.to_string()).collect()
}

fn press(name: &str) -> Command {
    Command { name: name.to_string(), action: Action::Press }
}

fn release(name: &str) -> Command {
    Command { name: name.to_string(), action: Action::Release }
}

fn drain(kanata: &mut Kanata) -> Vec<Command> {
    let mut taken = Vec::new();
    while let Some(command) = kanata.next_command() {
        taken.push(command);
    }
    taken
}

fn some(id: &str) -> Option<String> {
    Some(id.to_string())
}

#[test]
fn diff_sequence_on_one_set() {
    let mut kanata = Kanata::new(5829);
    let mut watch = Watch::new(set(&["A", "B"]), some("A"), &mut kanata);
    assert_eq!(drain(&mut kanata), vec![release("B"), press("A")]);
    assert_eq!(watch.active(), &some("A"));

    watch.update("A".to_string(), &mut kanata);
    assert_eq!(drain(&mut kanata), Vec::new());
    assert_eq!(watch.active(), &some("A"));

    watch.update("B".to_string(), &mut kanata);
    assert_eq!(drain(&mut kanata), vec![release("A"), press("B")]);
    assert_eq!(watch.active(), &some("B"));

    watch.update("C".to_string(), &mut kanata);
    assert_eq!(drain(&mut kanata), vec![release("B")]);
    assert_eq!(watch.active(), &None);

    watch.update("A".to_string(), &mut kanata);
    assert_eq!(drain(&mut kanata), vec![press("A")]);
    assert_eq!(watch.active(), &some("A"));
}

#[test]
fn same_identifier_twice_acts_once() {
    let mut kanata = Kanata::new(5829);
    let mut watch = Watch::new(set(&["A", "B"]), None, &mut kanata);
    drain(&mut kanata);
    watch.update("B".to_string(), &mut kanata);
    assert_eq!(drain(&mut kanata), vec![press("B")]);
    watch.update("B".to_string(), &mut kanata);
    assert_eq!(drain(&mut kanata), Vec::new());
    assert_eq!(watch.active(), &some("B"));
}

#[test]
fn stranger_twice_acts_once() {
    let mut kanata = Kanata::new(5829);
    let mut watch = Watch::new(set(&["A"]), some("A"), &mut kanata);
    drain(&mut kanata);
    watch.update("X".to_string(), &mut kanata);
    assert_eq!(drain(&mut kanata), vec![release("A")]);
    watch.update("X".to_string(), &mut kanata);
    assert_eq!(drain(&mut kanata), Vec::new());
    watch.update("Y".to_string(), &mut kanata);
    assert_eq!(drain(&mut kanata), Vec::new());
    assert_eq!(watch.active(), &None);
}

#[test]
fn at_most_one_key_is_held() {
    let mut kanata = Kanata::new(5829);
    let mut watch = Watch::new(set(&["A", "B", "C"]), None, &mut kanata);
    assert_eq!(
        drain(&mut kanata),
        vec![release("A"), release("B"), release("C")]
    );
    let mut held: i32 = 0;
    let mut holding: Option<String> = None;
    for id in ["A", "A", "B", "X", "X", "C", "A", "", "B", "B", "Y", "C", "C"] {
        watch.update(id.to_string(), &mut kanata);
        for command in drain(&mut kanata) {
            match command.action {
                Action::Press => {
                    assert_eq!(holding, None);
                    holding = Some(command.name);
                    held += 1;
                }
                Action::Release => {
                    assert_eq!(holding, Some(command.name));
                    holding = None;
                    held -= 1;
                }
            }
            assert!(held == 0 || held == 1);
        }
        assert_eq!(&holding, watch.active());
        assert_eq!(held, if watch.active().is_some() { 1 } else { 0 });
    }
    assert_eq!(held, 1);
    assert_eq!(watch.active(), &some("C"));
}

#[test]
fn watch_without_a_report_at_startup_is_inactive() {
    let mut kanata = Kanata::new(5829);
    let watch = Watch::new(set(&["A", "B"]), None, &mut kanata);
    assert_eq!(watch.active(), &None);
    assert_eq!(watch.ids(), &set(&["A", "B"]));
    assert_eq!(drain(&mut kanata), vec![release("A"), release("B")]);
}

#[test]
fn watch_with_a_stranger_at_startup_is_inactive() {
    let mut kanata = Kanata::new(5829);
    let watch = Watch::new(set(&["A", "B"]), some("Z"), &mut kanata);
    assert_eq!(watch.active(), &None);
    assert_eq!(drain(&mut kanata), vec![release("A"), release("B")]);
}

#[test]
fn watch_on_an_empty_set_never_acts() {
    let mut kanata = Kanata::new(5829);
    let mut watch = Watch::new(Vec::new(), some("A"), &mut kanata);
    assert_eq!(watch.active(), &None);
    watch.update("A".to_string(), &mut kanata);
    watch.update(String::new(), &mut kanata);
    assert_eq!(drain(&mut kanata), Vec::new());
    assert_eq!(watch.active(), &None);
}

#[test]
fn empty_identifier_as_a_configured_key() {
    let mut kanata = Kanata::new(5829);
    let mut watch = Watch::new(set(&["", "A"]), some("A"), &mut kanata);
    assert_eq!(drain(&mut kanata), vec![release(""), press("A")]);
    watch.update(String::new(), &mut kanata);
    assert_eq!(drain(&mut kanata), vec![release("A"), press("")]);
    assert_eq!(watch.active(), &some(""));
}

#[test]
fn session_starts_with_the_application_set() {
    let mut kanata = Kanata::new(5829);
    let session = Appvk::new(
        set(&["A", "B"]),
        set(&["abc", "kr"]),
        some("B"),
        some("kr"),
        &mut kanata,
    );
    assert_eq!(
        drain(&mut kanata),
        vec![release("A"), press("B"), release("abc"), press("kr")]
    );
    assert_eq!(session.app().active(), &some("B"));
    assert_eq!(session.input_source().active(), &some("kr"));
    assert_eq!(session.app().ids(), &set(&["A", "B"]));
    assert_eq!(session.input_source().ids(), &set(&["abc", "kr"]));
}

#[test]
fn session_with_silent_sources_at_startup() {
    let mut kanata = Kanata::new(5829);
    let session = Appvk::new(set(&["A"]), set(&["abc"]), None, None, &mut kanata);
    assert_eq!(drain(&mut kanata), vec![release("A"), release("abc")]);
    assert_eq!(session.app().active(), &None);
    assert_eq!(session.input_source().active(), &None);
}

#[test]
fn change_on_one_source_leaves_the_other_set_alone() {
    let mut kanata = Kanata::new(5829);
    let mut session = Appvk::new(
        set(&["A", "B"]),
        set(&["abc", "kr"]),
        some("A"),
        some("abc"),
        &mut kanata,
    );
    drain(&mut kanata);

    session.handle(Change::App("B".to_string()), &mut kanata);
    assert_eq!(drain(&mut kanata), vec![release("A"), press("B")]);
    assert_eq!(session.input_source().active(), &some("abc"));

    session.handle(Change::InputSource("kr".to_string()), &mut kanata);
    assert_eq!(drain(&mut kanata), vec![release("abc"), press("kr")]);
    assert_eq!(session.app().active(), &some("B"));

    session.handle(Change::InputSource("B".to_string()), &mut kanata);
    assert_eq!(drain(&mut kanata), vec![release("kr")]);
    assert_eq!(session.app().active(), &some("B"));
    assert_eq!(session.input_source().active(), &None);

    session.handle(Change::App("kr".to_string()), &mut kanata);
    assert_eq!(drain(&mut kanata), vec![release("B")]);
    assert_eq!(session.app().active(), &None);
    assert_eq!(session.input_source().active(), &None);
}

fn run_alone(ids: &[&str], start: &str, changes: &[&str]) -> (Vec<Command>, Option<String>) {
    let mut kanata = Kanata::new(5829);
    let mut watch = Watch::new(set(ids), some(start), &mut kanata);
    drain(&mut kanata);
    for id in changes {
        watch.update(id.to_string(), &mut kanata);
    }
    (drain(&mut kanata), watch.active().clone())
}

#[test]
fn interleaving_gives_each_set_what_it_would_have_had_alone() {
    let apps = ["A", "B"];
    let sources = ["abc", "kr"];
    let app_changes = ["B", "B", "X", "A"];
    let source_changes = ["kr", "abc", "abc", "Y", "kr"];
    let (app_alone, app_end) = run_alone(&apps, "A", &app_changes);
    let (source_alone, source_end) = run_alone(&sources, "abc", &source_changes);

    // two different interleavings of the same changes
    let orders: [[bool; 9]; 2] = [
        [true, false, true, false, true, false, true, false, false],
        [false, false, false, true, true, false, true, true, false],
    ];
    for order in orders {
        let mut kanata = Kanata::new(5829);
        let mut session = Appvk::new(set(&apps), set(&sources), some("A"), some("abc"), &mut kanata);
        drain(&mut kanata);
        let mut from_app = Vec::new();
        let mut from_source = Vec::new();
        let (mut a, mut s) = (0, 0);
        for is_app in order {
            if is_app {
                session.handle(Change::App(app_changes[a].to_string()), &mut kanata);
                from_app.extend(drain(&mut kanata));
                a += 1;
            } else {
                session.handle(Change::InputSource(source_changes[s].to_string()), &mut kanata);
                from_source.extend(drain(&mut kanata));
                s += 1;
            }
        }
        assert_eq!(from_app, app_alone);
        assert_eq!(from_source, source_alone);
        assert_eq!(session.app().active(), &app_end);
        assert_eq!(session.input_source().active(), &source_end);
    }
    assert_eq!(
        app_alone,
        vec![release("A"), press("B"), release("B"), press("A")]
    );
    assert_eq!(
        source_alone,
        vec![release("abc"), press("kr"), release("kr"), press("abc"), release("abc"), press("kr")]
    );
}

#[test]
fn same_identifier_in_both_sets_is_two_keys() {
    let mut kanata = Kanata::new(5829);
    let mut session = Appvk::new(set(&["K"]), set(&["K"]), None, None, &mut kanata);
    assert_eq!(drain(&mut kanata), vec![release("K"), release("K")]);
    session.handle(Change::App("K".to_string()), &mut kanata);
    assert_eq!(drain(&mut kanata), vec![press("K")]);
    session.handle(Change::InputSource("K".to_string()), &mut kanata);
    assert_eq!(drain(&mut kanata), vec![press("K")]);
    session.handle(Change::App("other".to_string()), &mut kanata);
    assert_eq!(drain(&mut kanata), vec![release("K")]);
    assert_eq!(session.input_source().active(), &some("K"));
}
