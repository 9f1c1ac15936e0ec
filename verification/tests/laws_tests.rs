use zr_proxy::config::{App, Config};
use zr_proxy::key::{KeyCode, KeyInput};
use zr_proxy::path::paths_equal;
use zr_proxy::state::{filter_apps_by_name, lower_query, select_matching, AppState, Mode};

fn app(name: &str, path: &str) -> App {
    App { name: name.to_string(), path: path.to_string() }
}

fn installed() -> Vec<App> {
    vec![
        app("Arc", "/Applications/Arc.app"),
        app("Firefox", "/Applications/Firefox.app"),
        app("Firefox Nightly", "/Applications/Firefox Nightly.app"),
    ]
}

fn wf(s: &AppState) -> bool {
    (s.selected_index == 0 || s.selected_index < s.config.apps.len())
        && (s.app_selector_index == 0 || s.app_selector_index < s.filtered_apps.len())
        && s.filtered_apps == filter_apps_by_name(&s.all_apps, &s.search_query)
}

fn distinct(apps: &[App]) -> bool {
    for i in 0..apps.len() {
        for j in 0..apps.len() {
            if i != j && paths_equal(&apps[i].path, &apps[j].path) {
                return false;
            }
        }
    }
    true
}

#[test]
fn random_walk_keeps_the_state_well_formed() {
    let keys = [
        KeyCode::Char('a'), KeyCode::Char('f'), KeyCode::Down, KeyCode::Down, KeyCode::Enter,
        KeyCode::Char('a'), KeyCode::Down, KeyCode::Enter, KeyCode::Char('a'), KeyCode::Enter,
        KeyCode::Down, KeyCode::Down, KeyCode::Char('d'), KeyCode::Up, KeyCode::Char('d'),
        KeyCode::Char('a'), KeyCode::Char('x'), KeyCode::Backspace, KeyCode::Up, KeyCode::Esc,
        KeyCode::Char('v'), KeyCode::Char('Z'), KeyCode::Enter, KeyCode::Char('e'),
        KeyCode::Backspace, KeyCode::Esc,
    ];
    let mut s = AppState::new(Config::default(), installed());
    assert!(wf(&s));
    for k in keys.iter() {
        s.handle_key(KeyInput::plain(*k));
        assert!(wf(&s));
        assert!(distinct(&s.config.apps));
        assert!(!s.should_quit);
    }
}

#[test]
fn env_editor_round_trip_keeps_the_commands() {
    let mut config = Config::default();
    config.env_commands = vec!["NO_PROXY=localhost".to_string(), "A = b".to_string()];
    let mut s = AppState::new(config.clone(), Vec::new());
    s.handle_key(KeyInput::with_ctrl(KeyCode::Char('v')));
    s.handle_key(KeyInput::plain(KeyCode::Enter));
    assert_eq!(s.config, config);
    assert_eq!(s.mode, Mode::Normal);
}

#[test]
fn proxy_editor_round_trip_keeps_the_configuration() {
    let config = Config::default();
    let mut s = AppState::new(config.clone(), Vec::new());
    s.handle_key(KeyInput::plain(KeyCode::Char('e')));
    s.handle_key(KeyInput::plain(KeyCode::Enter));
    assert_eq!(s.config, config);
}

#[test]
fn quitting_is_final() {
    let mut s = AppState::new(Config::default(), Vec::new());
    s.handle_key(KeyInput::plain(KeyCode::Char('q')));
    s.handle_key(KeyInput::with_ctrl(KeyCode::Char('c')));
    assert!(s.should_quit);
    s.handle_key(KeyInput::plain(KeyCode::Down));
    s.handle_key(KeyInput::plain(KeyCode::Char('a')));
    assert!(s.should_quit);
}

#[test]
fn filter_shows_exactly_the_matches() {
    let apps = installed();
    assert_eq!(filter_apps_by_name(&apps, "FIREFOX"), apps[1..].to_vec());
    assert_eq!(filter_apps_by_name(&apps, "nightly"), apps[2..].to_vec());
    assert_eq!(filter_apps_by_name(&apps, ""), apps);
    assert!(filter_apps_by_name(&apps, "zz").is_empty());
}

#[test]
fn typing_then_erasing_restores_the_list() {
    let mut s = AppState::new(Config::default(), installed());
    s.handle_key(KeyInput::plain(KeyCode::Char('a')));
    for c in "FOX".chars() {
        s.handle_key(KeyInput::plain(KeyCode::Char(c)));
    }
    let before = s.filtered_apps.clone();
    assert_eq!(before, installed()[1..].to_vec());
    s.handle_key(KeyInput::plain(KeyCode::Char(' ')));
    assert_eq!(s.filtered_apps, vec![app("Firefox Nightly", "/Applications/Firefox Nightly.app")]);
    s.handle_key(KeyInput::plain(KeyCode::Backspace));
    assert_eq!(s.filtered_apps, before);
    assert_eq!(s.search_query, "FOX");
}

#[test]
fn ascii_search_is_lowered_letter_by_letter() {
    assert_eq!(lower_query("FireFOX 2"), "firefox 2");
    assert_eq!(lower_query("ÄRC"), "ärc");
    assert_eq!(lower_query(""), "");
}

#[test]
fn matching_by_given_lowered_names() {
    let apps = installed();
    let names = vec!["arc".to_string(), "firefox".to_string(), "firefox nightly".to_string()];
    assert_eq!(select_matching(&apps, &names, "fox n"), apps[2..].to_vec());
    assert_eq!(select_matching(&apps, &names, "r"), apps.clone());
    let shouted = vec!["ARC".to_string(), "X".to_string(), "Y".to_string()];
    assert_eq!(select_matching(&apps, &shouted, "arc"), Vec::<App>::new());
}
