use zr_proxy::config::App;
use zr_proxy::launch::{app_open_target, get_launch_command, launch_arguments};

fn app(name: &str, path: &str) -> App {
    App { name: name.to_string(), path: path.to_string() }
}

#[test]
fn launch_command_quotes_bundle_and_proxy() {
    let a = app("Google Chrome", "/Applications/Google Chrome.app");
    assert_eq!(
        get_launch_command(&a, "socks5://127.0.0.1:1080", &Vec::new()),
        "open -na \"Google Chrome.app\" --args --proxy-server=\"socks5://127.0.0.1:1080\""
    );
}

#[test]
fn launch_command_sets_the_environment_commands() {
    let a = app("Slack", "/Applications/Slack.app");
    let env = vec!["HTTP_PROXY=http://p:1".to_string(), "ALL_PROXY=http://p:1".to_string()];
    assert_eq!(
        get_launch_command(&a, "http://p:1", &env),
        "env HTTP_PROXY=http://p:1 ALL_PROXY=http://p:1 open -na \"Slack.app\" --args --proxy-server=\"http://p:1\""
    );
}

#[test]
fn launch_target_falls_back_to_app() {
    let a = app("Nothing", "/");
    assert_eq!(app_open_target(&a), "App");
    assert_eq!(
        get_launch_command(&a, "http://p", &Vec::new()),
        "open -na \"App\" --args --proxy-server=\"http://p\""
    );
}

#[test]
fn launch_arguments_for_env() {
    let a = app("Slack", "/Applications/Slack.app/");
    let env = vec!["HTTP_PROXY=http://127.0.0.1:7890".to_string()];
    assert_eq!(
        launch_arguments(&a, "http://127.0.0.1:7890", &env),
        vec![
            "HTTP_PROXY=http://127.0.0.1:7890".to_string(),
            "open".to_string(),
            "-na".to_string(),
            "Slack.app".to_string(),
            "--args".to_string(),
            "--proxy-server=http://127.0.0.1:7890".to_string(),
        ]
    );
}
