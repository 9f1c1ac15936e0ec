use zr_proxy::config::{App, Config};
use zr_proxy::screen::{
    decimal_text, details_text, editor_cursor, popup_percentages, list_item_text, picker_item_text,
    proxy_label_text, search_title_text,
};
use zr_proxy::terminal::TerminalGuard;
use zr_proxy::theme::{Rgb, Style, Theme};

fn app(name: &str, path: &str) -> App {
    App { name: name.to_string(), path: path.to_string() }
}

#[test]
fn decimal_digits() {
    assert_eq!(decimal_text(0), "0");
    assert_eq!(decimal_text(7), "7");
    assert_eq!(decimal_text(10), "10");
    assert_eq!(decimal_text(1234567890), "1234567890");
}

#[test]
fn labels() {
    assert_eq!(proxy_label_text("http://x"), "[代理: http://x]");
    assert_eq!(list_item_text(&app("Arc", "/a")), "●  Arc");
    assert_eq!(search_title_text(12), " 搜索 (找到 12 个应用) [Esc 取消]");
}

#[test]
fn picker_marks_apps_already_listed() {
    let mut c = Config::default();
    c.apps.push(app("Arc", "/Applications/Arc.app"));
    assert_eq!(picker_item_text(&c, &app("Arc", "/Applications/Arc.app/")), "[x]  Arc");
    assert_eq!(picker_item_text(&c, &app("Zed", "/Applications/Zed.app")), "[ ]  Zed");
}

#[test]
fn details_of_the_selected_app() {
    let mut c = Config::default();
    c.apps.push(app("Arc", "/Applications/Arc.app"));
    assert_eq!(
        details_text(&c, 0, &Some("1.2.3".to_string())),
        "名称: Arc\n版本: 1.2.3\n路径: /Applications/Arc.app\n环境命令: HTTP_PROXY=http://127.0.0.1:7890, HTTPS_PROXY=http://127.0.0.1:7890, ALL_PROXY=http://127.0.0.1:7890\n\n[Enter] 通过代理启动\n[C]     复制启动命令"
    );
    c.env_commands.clear();
    c.global_commands.push("echo hi".to_string());
    c.global_commands.push("echo ho".to_string());
    assert_eq!(
        details_text(&c, 0, &None),
        "名称: Arc\n版本: 未知\n路径: /Applications/Arc.app\n环境命令: 无\n全局命令: 2 条\n\n[Enter] 通过代理启动\n[C]     复制启动命令"
    );
    assert_eq!(details_text(&c, 1, &None), "暂无应用\n按 [A] 添加应用");
}

#[test]
fn cursor_of_the_multi_line_editor() {
    assert_eq!(editor_cursor(""), (0, 0));
    assert_eq!(editor_cursor("abc"), (0, 3));
    assert_eq!(editor_cursor("abc\n"), (0, 3));
    assert_eq!(editor_cursor("abc\nde"), (1, 2));
    assert_eq!(editor_cursor("abc\r\nde\r\n"), (1, 2));
    assert_eq!(editor_cursor("a\n代"), (1, 3));
    assert_eq!(editor_cursor("\n"), (0, 0));
    assert_eq!(editor_cursor("ab\r"), (0, 3));
    assert_eq!(editor_cursor("ab\r\n"), (0, 2));
    assert_eq!(editor_cursor("\n\n"), (1, 0));
}

#[test]
fn theme_colours() {
    assert_eq!(Theme::bg(), Style { fg: None, bg: Some(Rgb { r: 26, g: 27, b: 38 }) });
    assert_eq!(Theme::bg_dark(), Style { fg: None, bg: Some(Rgb { r: 0x16, g: 0x16, b: 0x1e }) });
    assert_eq!(Theme::text(), Style { fg: Some(Rgb { r: 192, g: 202, b: 245 }), bg: None });
    assert_eq!(Theme::dim(), Style { fg: Some(Rgb { r: 86, g: 95, b: 137 }), bg: None });
    assert_eq!(Theme::purple(), Style { fg: Some(Rgb { r: 187, g: 154, b: 247 }), bg: None });
    assert_eq!(Theme::pink(), Style { fg: Some(Rgb { r: 255, g: 121, b: 198 }), bg: None });
    assert_eq!(
        Theme::selected(),
        Style { fg: Some(Rgb { r: 192, g: 202, b: 245 }), bg: Some(Rgb { r: 38, g: 40, b: 59 }) }
    );
    assert_eq!(Theme::border(), Style { fg: Some(Rgb { r: 59, g: 66, b: 97 }), bg: None });
}

#[test]
fn terminal_guard_remembers_cleanup() {
    let mut g = TerminalGuard::new();
    assert!(g.needs_cleanup());
    g.mark_cleaned_up();
    assert!(!g.needs_cleanup());
}

#[test]
fn pop_up_margins() {
    assert_eq!(popup_percentages(70), (15, 70, 15));
    assert_eq!(popup_percentages(15), (42, 15, 42));
    assert_eq!(popup_percentages(100), (0, 100, 0));
}
