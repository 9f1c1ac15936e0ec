use zr_proxy::config::{App, Config};
use zr_proxy::key::{KeyCode, KeyInput};
use zr_proxy::state::{AppState, Effect, Mode};

fn app(name: &str, path: &str) -> App {
    App { name: name.to_string(), path: path.to_string() }
}

fn installed() -> Vec<App> {
    vec![
        app("Firefox", "/Applications/Firefox.app"),
        app("Google Chrome", "/Applications/Google Chrome.app"),
        app("Slack", "/Applications/Slack.app"),
    ]
}

fn press(s: &mut AppState, c: char) -> Effect {
    s.handle_key(KeyInput::plain(KeyCode::Char(c)))
}

fn key(s: &mut AppState, code: KeyCode) -> Effect {
    s.handle_key(KeyInput::plain(code))
}

#[test]
fn new_state_starts_on_the_list() {
    let s = AppState::new(Config::default(), installed());
    assert_eq!(s.mode, Mode::Normal);
    assert_eq!(s.selected_index, 0);
    assert_eq!(s.app_selector_index, 0);
    assert!(!s.should_quit);
    assert!(!s.pending_quit);
    assert_eq!(s.filtered_apps, installed());
    assert_eq!(s.search_query, "");
}

#[test]
fn quit_needs_two_presses() {
    let mut s = AppState::new(Config::default(), installed());
    assert_eq!(press(&mut s, 'q'), Effect::Nothing);
    assert!(!s.should_quit);
    assert!(s.pending_quit);
    assert_eq!(s.pending_quit_message, "再按一次 Ctrl+C 或 Q 退出");
    press(&mut s, 'q');
    assert!(s.should_quit);
}

#[test]
fn ctrl_c_twice_quits_from_an_editor() {
    let mut s = AppState::new(Config::default(), installed());
    press(&mut s, 'e');
    assert_eq!(s.mode, Mode::ProxyEditor);
    s.handle_key(KeyInput::with_ctrl(KeyCode::Char('c')));
    assert!(!s.should_quit);
    s.handle_key(KeyInput::with_ctrl(KeyCode::Char('c')));
    assert!(s.should_quit);
}

#[test]
fn another_key_withdraws_the_quit_request() {
    let mut s = AppState::new(Config::default(), installed());
    press(&mut s, 'q');
    key(&mut s, KeyCode::Down);
    assert!(!s.pending_quit);
    assert_eq!(s.pending_quit_message, "");
    press(&mut s, 'q');
    assert!(!s.should_quit);
}

#[test]
fn unknown_key_keeps_the_quit_request() {
    let mut s = AppState::new(Config::default(), installed());
    press(&mut s, 'q');
    press(&mut s, 'z');
    assert!(s.pending_quit);
    press(&mut s, 'q');
    assert!(s.should_quit);
}

#[test]
fn adding_an_app_from_the_picker() {
    let mut s = AppState::new(Config::default(), installed());
    press(&mut s, 'a');
    assert_eq!(s.mode, Mode::AppSelector);
    key(&mut s, KeyCode::Down);
    assert_eq!(s.app_selector_index, 1);
    let e = key(&mut s, KeyCode::Enter);
    assert_eq!(e, Effect::SaveConfig);
    assert_eq!(s.mode, Mode::Normal);
    assert_eq!(s.config.apps, vec![app("Google Chrome", "/Applications/Google Chrome.app")]);
}

#[test]
fn adding_the_same_path_twice_is_refused() {
    let mut config = Config::default();
    config.apps.push(app("Firefox", "/Applications//Firefox.app/"));
    let mut s = AppState::new(config, installed());
    press(&mut s, 'a');
    let e = key(&mut s, KeyCode::Enter);
    assert_eq!(e, Effect::Nothing);
    assert_eq!(s.config.apps.len(), 1);
    assert_eq!(s.mode, Mode::Normal);
}

#[test]
fn searching_ignores_case_and_resets_the_selection() {
    let mut s = AppState::new(Config::default(), installed());
    press(&mut s, 'a');
    key(&mut s, KeyCode::Down);
    press(&mut s, 'C');
    press(&mut s, 'H');
    assert_eq!(s.search_query, "CH");
    assert_eq!(s.app_selector_index, 0);
    assert_eq!(s.filtered_apps, vec![app("Google Chrome", "/Applications/Google Chrome.app")]);
    key(&mut s, KeyCode::Backspace);
    key(&mut s, KeyCode::Backspace);
    assert_eq!(s.search_query, "");
    assert_eq!(s.filtered_apps, installed());
    key(&mut s, KeyCode::Backspace);
    assert_eq!(s.search_query, "");
}

#[test]
fn navigation_keys_are_not_typed_into_the_search() {
    let mut s = AppState::new(Config::default(), installed());
    press(&mut s, 'a');
    press(&mut s, 'j');
    press(&mut s, 'j');
    press(&mut s, 'j');
    assert_eq!(s.app_selector_index, 2);
    assert_eq!(s.search_query, "");
    press(&mut s, 'k');
    assert_eq!(s.app_selector_index, 1);
    press(&mut s, 'q');
    assert_eq!(s.search_query, "q");
    assert!(!s.pending_quit);
    assert!(s.filtered_apps.is_empty());
}

#[test]
fn escape_leaves_the_picker_without_adding() {
    let mut s = AppState::new(Config::default(), installed());
    press(&mut s, 'a');
    assert_eq!(key(&mut s, KeyCode::Esc), Effect::Nothing);
    assert_eq!(s.mode, Mode::Normal);
    assert!(s.config.apps.is_empty());
}

#[test]
fn list_selection_stays_in_bounds() {
    let mut config = Config::default();
    config.apps = installed();
    let mut s = AppState::new(config, Vec::new());
    key(&mut s, KeyCode::Up);
    assert_eq!(s.selected_index, 0);
    for _ in 0..5 {
        key(&mut s, KeyCode::Down);
    }
    assert_eq!(s.selected_index, 2);
    press(&mut s, 'k');
    assert_eq!(s.selected_index, 1);
}

#[test]
fn deleting_the_last_app_moves_the_selection_up() {
    let mut config = Config::default();
    config.apps = installed();
    let mut s = AppState::new(config, Vec::new());
    key(&mut s, KeyCode::Down);
    key(&mut s, KeyCode::Down);
    assert_eq!(press(&mut s, 'd'), Effect::Nothing);
    assert_eq!(press(&mut s, 'd'), Effect::SaveConfig);
    assert_eq!(s.config.apps.len(), 2);
    assert_eq!(s.selected_index, 1);
    for _ in 0..4 {
        press(&mut s, 'd');
    }
    assert!(s.config.apps.is_empty());
    assert_eq!(s.selected_index, 0);
    assert_eq!(press(&mut s, 'd'), Effect::Nothing);
    assert!(!s.pending_delete);
}

#[test]
fn deleting_in_the_middle_keeps_the_index() {
    let mut config = Config::default();
    config.apps = installed();
    let mut s = AppState::new(config, Vec::new());
    key(&mut s, KeyCode::Down);
    press(&mut s, 'd');
    press(&mut s, 'd');
    assert_eq!(s.selected_index, 1);
    assert_eq!(s.config.apps[1].name, "Slack");
}

#[test]
fn enter_launches_the_selected_app() {
    let mut config = Config::default();
    config.apps = installed();
    let mut s = AppState::new(config, Vec::new());
    key(&mut s, KeyCode::Down);
    let e = key(&mut s, KeyCode::Enter);
    assert_eq!(
        e,
        Effect::Launch(vec![
            "HTTP_PROXY=http://127.0.0.1:7890".to_string(),
            "HTTPS_PROXY=http://127.0.0.1:7890".to_string(),
            "ALL_PROXY=http://127.0.0.1:7890".to_string(),
            "open".to_string(),
            "-na".to_string(),
            "Google Chrome.app".to_string(),
            "--args".to_string(),
            "--proxy-server=http://127.0.0.1:7890".to_string(),
        ])
    );
}

#[test]
fn enter_with_no_apps_does_nothing() {
    let mut s = AppState::new(Config::default(), Vec::new());
    assert_eq!(key(&mut s, KeyCode::Enter), Effect::Nothing);
    assert_eq!(press(&mut s, 'c'), Effect::Nothing);
}

#[test]
fn c_copies_the_launch_command() {
    let mut config = Config::default();
    config.apps = installed();
    let mut s = AppState::new(config, Vec::new());
    let e = press(&mut s, 'c');
    assert_eq!(
        e,
        Effect::CopyToClipboard(
            "env HTTP_PROXY=http://127.0.0.1:7890 HTTPS_PROXY=http://127.0.0.1:7890 ALL_PROXY=http://127.0.0.1:7890 open -na \"Firefox.app\" --args --proxy-server=\"http://127.0.0.1:7890\"".to_string()
        )
    );
    assert!(!s.should_quit);
}

#[test]
fn editing_the_proxy() {
    let mut s = AppState::new(Config::default(), Vec::new());
    press(&mut s, 'e');
    assert_eq!(s.proxy_input, "http://127.0.0.1:7890");
    for _ in 0..4 {
        key(&mut s, KeyCode::Backspace);
    }
    for c in "1080".chars() {
        press(&mut s, c);
    }
    assert_eq!(key(&mut s, KeyCode::Enter), Effect::SaveConfig);
    assert_eq!(s.config.proxy_url, "http://127.0.0.1:1080");
    assert_eq!(s.mode, Mode::Normal);
}

#[test]
fn escape_discards_proxy_edits() {
    let mut s = AppState::new(Config::default(), Vec::new());
    press(&mut s, 'e');
    press(&mut s, 'x');
    assert_eq!(key(&mut s, KeyCode::Esc), Effect::Nothing);
    assert_eq!(s.config.proxy_url, "http://127.0.0.1:7890");
}

#[test]
fn env_editor_shows_one_command_per_line() {
    let mut s = AppState::new(Config::default(), Vec::new());
    press(&mut s, 'v');
    assert_eq!(s.mode, Mode::EnvEditor);
    assert_eq!(
        s.env_input,
        "HTTP_PROXY=http://127.0.0.1:7890\nHTTPS_PROXY=http://127.0.0.1:7890\nALL_PROXY=http://127.0.0.1:7890"
    );
    assert_eq!(key(&mut s, KeyCode::Enter), Effect::SaveConfig);
    assert_eq!(s.config.env_commands, Config::default().env_commands);
}

#[test]
fn env_editor_trims_and_drops_blank_lines() {
    let mut s = AppState::new(Config::default(), Vec::new());
    s.config.env_commands.clear();
    press(&mut s, 'v');
    assert_eq!(s.env_input, "");
    for c in "  A=1 \r\n\n\t\nB=2\n".chars() {
        if c == '\n' {
            s.env_input.push('\n');
        } else {
            press(&mut s, c);
        }
    }
    key(&mut s, KeyCode::Enter);
    assert_eq!(s.config.env_commands, vec!["A=1".to_string(), "B=2".to_string()]);
}

#[test]
fn other_keys_in_editors_are_ignored() {
    let mut s = AppState::new(Config::default(), Vec::new());
    press(&mut s, 'v');
    let before = s.env_input.clone();
    assert_eq!(key(&mut s, KeyCode::Up), Effect::Nothing);
    assert_eq!(s.env_input, before);
    assert_eq!(s.mode, Mode::EnvEditor);
}

#[test]
fn deletion_asks_first() {
    let mut config = Config::default();
    config.apps = installed();
    let mut s = AppState::new(config, Vec::new());
    assert_eq!(press(&mut s, 'd'), Effect::Nothing);
    assert!(s.pending_delete);
    assert_eq!(s.status_message, "确认删除「Firefox」？再按一次 D 删除");
    assert_eq!(s.config.apps, installed());
    key(&mut s, KeyCode::Down);
    assert!(!s.pending_delete);
    assert_eq!(s.status_message, "");
    assert_eq!(press(&mut s, 'd'), Effect::Nothing);
    assert_eq!(press(&mut s, 'd'), Effect::SaveConfig);
    assert_eq!(s.config.apps.len(), 2);
    assert_eq!(s.config.apps[1].name, "Slack");
}

#[test]
fn failed_launch_offers_removal() {
    let mut config = Config::default();
    config.apps = installed();
    let mut s = AppState::new(config, Vec::new());
    key(&mut s, KeyCode::Down);
    key(&mut s, KeyCode::Enter);
    s.report_launch(false);
    assert_eq!(s.status_message, "启动「Google Chrome」失败，应用可能已被删除\n按 D 从列表中移除");
    assert_eq!(s.config.apps, installed());
    assert_eq!(press(&mut s, 'd'), Effect::SaveConfig);
    assert_eq!(s.config.apps.len(), 2);
    assert_eq!(s.config.apps[1].name, "Slack");
}

#[test]
fn successful_launch_changes_nothing() {
    let mut config = Config::default();
    config.apps = installed();
    let mut s = AppState::new(config, Vec::new());
    key(&mut s, KeyCode::Enter);
    s.report_launch(true);
    assert!(!s.pending_delete);
    assert_eq!(s.status_message, "");
}

#[test]
fn invalid_proxy_is_refused() {
    let mut s = AppState::new(Config::default(), Vec::new());
    press(&mut s, 'e');
    for _ in 0..30 {
        key(&mut s, KeyCode::Backspace);
    }
    for c in "not a url".chars() {
        press(&mut s, c);
    }
    assert_eq!(key(&mut s, KeyCode::Enter), Effect::Nothing);
    assert_eq!(s.mode, Mode::ProxyEditor);
    assert_eq!(s.config.proxy_url, "http://127.0.0.1:7890");
    assert_eq!(
        s.status_message,
        "代理地址无效：须以 http://、https://、socks4:// 或 socks5:// 开头，后接不含空白的地址"
    );
    key(&mut s, KeyCode::Esc);
    assert_eq!(s.status_message, "");
}

#[test]
fn notice_is_shown() {
    let mut s = AppState::new(Config::default(), Vec::new());
    s.show_notice("配置文件格式错误".to_string());
    assert_eq!(s.status_message, "配置文件格式错误");
}
