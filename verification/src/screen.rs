//! The texts the screens show, computed from the state.
use vstd::prelude::*;

use crate::config::{App, AppView, Config, ConfigView};
use crate::state::{has_app_at, has_app_with_path};
use crate::text::{
    chars_of, join_strings, join_text, lemma_split_nonempty, pieces_view, push_char, split_chars,
    split_on, string_from_chars,
};

verus! {

broadcast use vstd::string::group_string_axioms;

/// The character of a decimal digit.
pub open spec fn digit_char(d: nat) -> char {
    seq!['0', '1', '2', '3', '4', '5', '6', '7', '8', '9'][d as int]
}

/// The decimal digits of `n`, as `usize`'s `Display` writes them.
pub open spec fn decimal(n: nat) -> Seq<char>
    decreases n,
{
    if n < 10 {
        seq![digit_char(n)]
    } else {
        decimal(n / 10).push(digit_char(n % 10))
    }
}

/// The proxy address as the header shows it.
pub open spec fn proxy_label(proxy_url: Seq<char>) -> Seq<char> {
    "[代理: "@ + proxy_url + "]"@
}

/// An application as the main list shows it.
pub open spec fn list_item(app: AppView) -> Seq<char> {
    "●  "@ + app.name
}

/// The version as the details panel shows it: the bundle's version, or
/// "unknown" when it could not be read.
pub open spec fn version_label(version: Option<Seq<char>>) -> Seq<char> {
    match version {
        Some(v) => v,
        None => "未知"@,
    }
}

/// The details panel for the selected application (its name, the version
/// read from its bundle, its path and the environment commands), or the hint
/// to add one when the selection points at none.
pub open spec fn details(config: ConfigView, selected: nat, version: Option<Seq<char>>) -> Seq<char> {
    if selected < config.apps.len() {
        let app = config.apps[selected as int];
        let env = if config.env_commands.len() == 0 {
            "无"@
        } else {
            join_text(config.env_commands, ", "@)
        };
        let global = if config.global_commands.len() == 0 {
            Seq::<char>::empty()
        } else {
            "\n全局命令: "@ + decimal(config.global_commands.len()) + " 条"@
        };
        "名称: "@ + app.name + "\n版本: "@ + version_label(version) + "\n路径: "@ + app.path + "\n环境命令: "@ + env + global
            + "\n\n[Enter] 通过代理启动\n[C]     复制启动命令"@
    } else {
        "暂无应用\n按 [A] 添加应用"@
    }
}

/// The title of the picker's search box.
pub open spec fn search_title(found: nat) -> Seq<char> {
    " 搜索 (找到 "@ + decimal(found) + " 个应用) [Esc 取消]"@
}

/// An installed application as the picker shows it, marked when it is in
/// the user's list already.
pub open spec fn picker_item(config_apps: Seq<AppView>, app: AppView) -> Seq<char> {
    (if has_app_at(config_apps, app.path) {
        "[x]"@
    } else {
        "[ ]"@
    }) + "  "@ + app.name
}

/// A line without the carriage return that ends it, if any.
pub open spec fn without_cr(line: Seq<char>) -> Seq<char> {
    if line.len() > 0 && line.last() == '\r' {
        line.drop_last()
    } else {
        line
    }
}

/// The lines of a text as `str::lines` yields them: line breaks removed,
/// with the carriage return just before a line break; a final line break
/// ends the last line rather than starting an empty one, and a last line
/// with no line break after it is kept whole.
pub open spec fn text_lines(s: Seq<char>) -> Seq<Seq<char>> {
    let pieces = split_on(s, '\n');
    let ended = pieces.drop_last().map_values(|l: Seq<char>| without_cr(l));
    if pieces.last().len() == 0 {
        ended
    } else {
        ended.push(pieces.last())
    }
}

/// Where the cursor of a multi-line editor stands: on the last line (the
/// first when there is none), after the UTF-8 bytes of that line.
pub open spec fn cursor_at_end(s: Seq<char>) -> (nat, nat) {
    let lines = text_lines(s);
    if lines.len() == 0 {
        (0, 0)
    } else {
        ((lines.len() - 1) as nat, vstd::utf8::encode_utf8(lines.last()).len())
    }
}

/// The character of the digit `d`.
fn digit(d: usize) -> (c: char)
    requires
        d < 10,
    ensures
        c == digit_char(d as nat),
{
    if d == 0 { '0' }
    else if d == 1 { '1' }
    else if d == 2 { '2' }
    else if d == 3 { '3' }
    else if d == 4 { '4' }
    else if d == 5 { '5' }
    else if d == 6 { '6' }
    else if d == 7 { '7' }
    else if d == 8 { '8' }
    else { '9' }
}

/// The decimal digits of `n`.
pub fn decimal_text(n: usize) -> (s: String)
    ensures
        s@ == decimal(n as nat),
    decreases n,
{
    if n < 10 {
        let mut s = String::new();
        push_char(&mut s, digit(n));
        assert(s@ =~= seq![digit_char(n as nat)]);
        s
    } else {
        let mut s = decimal_text(n / 10);
        push_char(&mut s, digit(n % 10));
        s
    }
}

/// The header's proxy label.
pub fn proxy_label_text(proxy_url: &str) -> (s: String)
    ensures
        s@ == proxy_label(proxy_url@),
{
    let mut s = String::from_str("[代理: ");
    s.append(proxy_url);
    s.append("]");
    s
}

/// The main list's line for `app`.
pub fn list_item_text(app: &App) -> (s: String)
    ensures
        s@ == list_item(app@),
{
    let mut s = String::from_str("●  ");
    s.append(app.name.as_str());
    s
}

/// The details panel for the application at `selected`, whose bundle gives
/// `version`.
pub fn details_text(config: &Config, selected: usize, version: &Option<String>) -> (s: String)
    ensures
        s@ == details(
            config@,
            selected as nat,
            match version {
                Some(v) => Some(v@),
                None => None,
            },
        ),
{
    if selected < config.apps.len() {
        let app = &config.apps[selected];
        let env = if config.env_commands.len() == 0 {
            String::from_str("无")
        } else {
            join_strings(&config.env_commands, ", ")
        };
        let mut s = String::from_str("名称: ");
        s.append(app.name.as_str());
        s.append("\n版本: ");
        match version {
            Some(v) => s.append(v.as_str()),
            None => s.append("未知"),
        }
        s.append("\n路径: ");
        s.append(app.path.as_str());
        s.append("\n环境命令: ");
        s.append(env.as_str());
        if config.global_commands.len() > 0 {
            let count = decimal_text(config.global_commands.len());
            s.append("\n全局命令: ");
            s.append(count.as_str());
            s.append(" 条");
        }
        s.append("\n\n[Enter] 通过代理启动\n[C]     复制启动命令");
        s
    } else {
        String::from_str("暂无应用\n按 [A] 添加应用")
    }
}

/// The title of the picker's search box when `found` applications match.
pub fn search_title_text(found: usize) -> (s: String)
    ensures
        s@ == search_title(found as nat),
{
    let count = decimal_text(found);
    let mut s = String::from_str(" 搜索 (找到 ");
    s.append(count.as_str());
    s.append(" 个应用) [Esc 取消]");
    s
}

/// The picker's line for `app`.
pub fn picker_item_text(config: &Config, app: &App) -> (s: String)
    ensures
        s@ == picker_item(config@.apps, app@),
{
    let mut s = if has_app_with_path(&config.apps, app.path.as_str()) {
        String::from_str("[x]")
    } else {
        String::from_str("[ ]")
    };
    s.append("  ");
    s.append(app.name.as_str());
    s
}

/// Where the cursor of the environment editor stands: the line and the byte
/// offset in it (a byte count, as `str::len` gives it).
pub fn editor_cursor(text: &str) -> (r: (usize, usize))
    ensures
        r.0 as nat == cursor_at_end(text@).0,
        r.1 == cursor_at_end(text@).1 as usize,
{
    let chars = chars_of(text);
    let pieces = split_chars(&chars, '\n');
    let ghost pv = pieces_view(pieces@);
    proof {
        lemma_split_nonempty(text@, '\n');
    }
    let count = pieces.len();
    let ghost ended = pv.drop_last().map_values(|l: Seq<char>| without_cr(l));
    let ghost tl = text_lines(text@);
    assert(pv.last() == pieces@[count - 1]@);
    if pieces[count - 1].len() > 0 {
        let last = &pieces[count - 1];
        assert(tl == ended.push(last@));
        let line = string_from_chars(last, 0, last.len());
        assert(line@ =~= last@);
        let n = line.as_str().len();
        return (count - 1, n);
    }
    assert(tl == ended);
    if count == 1 {
        return (0, 0);
    }
    let last = &pieces[count - 2];
    assert(tl.last() == without_cr(last@));
    let mut end = last.len();
    if end > 0 && last[end - 1] == '\r' {
        end -= 1;
    }
    let line = string_from_chars(last, 0, end);
    assert(line@ =~= without_cr(last@));
    let n = line.as_str().len();
    (count - 2, n)
}

/// The percentages that centre a pop-up taking `percent` of a side: the
/// margin before it, the pop-up, and the margin after it.
pub fn popup_percentages(percent: u16) -> (r: (u16, u16, u16))
    requires
        percent <= 100,
    ensures
        r.0 == (100 - percent) / 2,
        r.1 == percent,
        r.2 == (100 - percent) / 2,
{
    let margin = (100 - percent) / 2;
    (margin, percent, margin)
}

} // verus!
