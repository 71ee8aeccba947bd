use indexmap::IndexMap;
use workstyle::backend::{connect_order, first_failure, permits, rename_command, workspace_id, Backend, EnforceWindowManager};
use workstyle::config::{Config, Other};
use workstyle::event::{needs_rename, Event, WindowChange, WorkspaceChange};
use workstyle::supervisor::{Action, Outcome, Phase, Supervisor, RETRY_DELAY_MS};
use workstyle::window::Window;

#[test]
fn window_events_that_trigger() {
    for c in [WindowChange::New, WindowChange::Close, WindowChange::Title, WindowChange::Move, WindowChange::Urgent, WindowChange::Mark] {
        assert!(needs_rename(Event::Window(c)), "{c:?}");
    }
    for c in [WindowChange::Focus, WindowChange::FullscreenMode, WindowChange::Floating] {
        assert!(!needs_rename(Event::Window(c)), "{c:?}");
    }
}

#[test]
fn workspace_events_that_trigger() {
    assert!(needs_rename(Event::Workspace(WorkspaceChange::Focus)));
    for c in [WorkspaceChange::Init, WorkspaceChange::Empty, WorkspaceChange::Move, WorkspaceChange::Rename, WorkspaceChange::Urgent, WorkspaceChange::Reload] {
        assert!(!needs_rename(Event::Workspace(c)), "{c:?}");
    }
    assert!(needs_rename(Event::Hook));
}

#[test]
fn connect_order_and_permits() {
    assert_eq!(connect_order(None), vec![Backend::SwayOrI3, Backend::Hyprland]);
    assert_eq!(connect_order(Some(EnforceWindowManager::Hyprland)), vec![Backend::Hyprland]);
    assert_eq!(connect_order(Some(EnforceWindowManager::SwayOrI3)), vec![Backend::SwayOrI3]);
    assert!(permits(None, Backend::Hyprland));
    assert!(!permits(Some(EnforceWindowManager::SwayOrI3), Backend::Hyprland));
    assert!(permits(Some(EnforceWindowManager::Hyprland), Backend::Hyprland));
}

#[test]
fn rename_command_text() {
    assert_eq!(rename_command("1: a", "1: F "), "rename workspace \"1: a\" to \"1: F \"");
}

#[test]
fn first_failure_of_sub_results() {
    assert_eq!(first_failure::<String>(Vec::new()), Ok(()));
    assert_eq!(first_failure::<String>(vec![Ok(()), Ok(())]), Ok(()));
    assert_eq!(first_failure(vec![Ok(()), Err("a".to_string()), Err("b".to_string())]), Err("a".to_string()));
}

#[test]
fn workspace_ids_parse_as_decimal() {
    assert_eq!(workspace_id("3"), Some(3));
    assert_eq!(workspace_id("-98"), Some(-98));
    assert_eq!(workspace_id("+7"), Some(7));
    assert_eq!(workspace_id("3: F "), None);
    assert_eq!(workspace_id(""), None);
    assert_eq!(workspace_id("99999999999"), None);
}

fn config() -> Config {
    let mut mappings = IndexMap::new();
    mappings.insert("foot".to_string(), "T".to_string());
    Config { mappings, other: Other::default() }
}

fn foot() -> Window {
    Window { name: None, app_id: Some("foot".to_string()), window_properties_class: None }
}

#[test]
fn supervisor_tries_candidates_then_pauses() {
    let mut s = Supervisor::new(None);
    assert_eq!(s.step(Outcome::Started), Action::Connect(Backend::SwayOrI3));
    assert_eq!(s.step(Outcome::Failed), Action::Connect(Backend::Hyprland));
    assert_eq!(s.step(Outcome::Failed), Action::Sleep(RETRY_DELAY_MS));
    assert_eq!(RETRY_DELAY_MS, 1000);
    assert_eq!(s.step(Outcome::Slept), Action::Connect(Backend::SwayOrI3));
}

#[test]
fn supervisor_forced_backend_only() {
    let mut s = Supervisor::new(Some(EnforceWindowManager::Hyprland));
    assert_eq!(s.step(Outcome::Started), Action::Connect(Backend::Hyprland));
    assert_eq!(s.step(Outcome::Failed), Action::Sleep(RETRY_DELAY_MS));
}

#[test]
fn supervisor_rename_cycle_and_event_filter() {
    let mut s = Supervisor::new(None);
    s.step(Outcome::Started);
    assert_eq!(s.step(Outcome::Connected), Action::Enumerate);
    let ws = vec![("1".to_string(), vec![foot()]), ("2: T ".to_string(), Vec::new())];
    assert_eq!(s.step(Outcome::Enumerated(config(), ws)), Action::Rename("1".to_string(), "1: T ".to_string()));
    assert_eq!(s.step(Outcome::Renamed), Action::Rename("2: T ".to_string(), "2".to_string()));
    assert_eq!(s.step(Outcome::Renamed), Action::WaitForEvent);
    assert_eq!(s.step(Outcome::Event(Event::Window(WindowChange::Focus))), Action::WaitForEvent);
    assert_eq!(s.phase, Phase::Waiting);
    assert_eq!(s.step(Outcome::Event(Event::Window(WindowChange::New))), Action::Enumerate);
    assert_eq!(s.step(Outcome::Enumerated(config(), Vec::new())), Action::WaitForEvent);
}

#[test]
fn supervisor_reconnects_when_stream_ends() {
    let mut s = Supervisor::new(None);
    s.step(Outcome::Started);
    s.step(Outcome::Connected);
    s.step(Outcome::Enumerated(config(), Vec::new()));
    assert_eq!(s.phase, Phase::Waiting);
    assert_eq!(s.step(Outcome::Failed), Action::Sleep(RETRY_DELAY_MS));
    assert_eq!(s.step(Outcome::Slept), Action::Connect(Backend::SwayOrI3));
}

#[test]
fn supervisor_rename_failure_abandons_pass() {
    let mut s = Supervisor::new(None);
    s.step(Outcome::Started);
    s.step(Outcome::Connected);
    let ws = vec![("1".to_string(), vec![foot()]), ("2".to_string(), vec![foot()])];
    s.step(Outcome::Enumerated(config(), ws));
    assert_eq!(s.step(Outcome::Failed), Action::Sleep(RETRY_DELAY_MS));
    assert_eq!(s.step(Outcome::Renamed), Action::Sleep(RETRY_DELAY_MS));
}

#[test]
fn supervisor_outcome_out_of_turn_counts_as_failure() {
    let mut s = Supervisor::new(None);
    s.step(Outcome::Started);
    assert_eq!(s.step(Outcome::Renamed), Action::Connect(Backend::Hyprland));
}
