//! The application's state and what each key press does to it.
use vstd::prelude::*;

use crate::config::{apps_view, duplicate_apps, App, AppView, Config, ConfigView};
use crate::key::{KeyCode, KeyInput};
use crate::launch::{get_launch_command, launch_args, launch_arguments, launch_command};
use crate::path::{paths_equal, same_path};
use crate::proxy::{is_valid_proxy_url, valid_proxy_url};
use crate::text::{
    chars_of, contains_chars, has_substring, join_strings, join_with, lowercase, pop_char,
    push_char, strings_view, to_lowercase, trimmed_lines, trimmed_nonblank_lines,
};

verus! {

broadcast use vstd::string::group_string_axioms;

/// Which screen has the keyboard.
#[derive(Debug, Clone, Copy, PartialEq, Eq, Structural)]
pub enum Mode {
    /// The list of the user's applications.
    Normal,
    /// The picker that adds an installed application to the list.
    AppSelector,
    /// The editor of the proxy address.
    ProxyEditor,
    /// The editor of the environment commands, one per line.
    EnvEditor,
}

/// What the surrounding program is asked to do after a key press.
#[derive(Debug, Clone, PartialEq, Eq)]
pub enum Effect {
    /// Nothing.
    Nothing,
    /// Run `env` with these arguments (the environment commands, then the
    /// `open` command line), and report whether it succeeded with
    /// `report_launch`.
    Launch(Vec<String>),
    /// Put this text on the clipboard.
    CopyToClipboard(String),
    /// Write the configuration to disk.
    SaveConfig,
}

/// What an effect is, as plain values.
pub enum EffectView {
    Nothing,
    Launch(Seq<Seq<char>>),
    CopyToClipboard(Seq<char>),
    SaveConfig,
}

impl View for Effect {
    type V = EffectView;

    open spec fn view(&self) -> EffectView {
        match self {
            Effect::Nothing => EffectView::Nothing,
            Effect::Launch(args) => EffectView::Launch(strings_view(args@)),
            Effect::CopyToClipboard(text) => EffectView::CopyToClipboard(text@),
            Effect::SaveConfig => EffectView::SaveConfig,
        }
    }
}

/// The state of the application.
pub struct AppState {
    pub config: Config,
    pub mode: Mode,
    pub selected_index: usize,
    pub all_apps: Vec<App>,
    pub app_selector_index: usize,
    pub proxy_input: String,
    pub env_input: String,
    pub should_quit: bool,
    pub pending_quit: bool,
    pub pending_quit_message: String,
    pub search_query: String,
    pub filtered_apps: Vec<App>,
    pub pending_delete: bool,
    pub status_message: String,
}

/// What the state is, as plain values.
pub struct AppStateView {
    pub config: ConfigView,
    pub mode: Mode,
    pub selected_index: nat,
    pub all_apps: Seq<AppView>,
    pub app_selector_index: nat,
    pub proxy_input: Seq<char>,
    pub env_input: Seq<char>,
    pub should_quit: bool,
    pub pending_quit: bool,
    pub pending_quit_message: Seq<char>,
    pub search_query: Seq<char>,
    pub filtered_apps: Seq<AppView>,
    pub pending_delete: bool,
    pub status_message: Seq<char>,
}

impl View for AppState {
    type V = AppStateView;

    open spec fn view(&self) -> AppStateView {
        AppStateView {
            config: self.config@,
            mode: self.mode,
            selected_index: self.selected_index as nat,
            all_apps: apps_view(self.all_apps@),
            app_selector_index: self.app_selector_index as nat,
            proxy_input: self.proxy_input@,
            env_input: self.env_input@,
            should_quit: self.should_quit,
            pending_quit: self.pending_quit,
            pending_quit_message: self.pending_quit_message@,
            search_query: self.search_query@,
            filtered_apps: apps_view(self.filtered_apps@),
            pending_delete: self.pending_delete,
            status_message: self.status_message@,
        }
    }
}

// ---------------------------------------------------------------------------
// Specification of the behaviour
// ---------------------------------------------------------------------------

/// The notice shown after a first quit request.
pub open spec fn quit_prompt() -> Seq<char> {
    "再按一次 Ctrl+C 或 Q 退出"@
}

/// The question asked before an application is removed from the list.
pub open spec fn delete_prompt(name: Seq<char>) -> Seq<char> {
    "确认删除「"@ + name + "」？再按一次 D 删除"@
}

/// The message shown when an application could not be started, with the
/// offer to remove it.
pub open spec fn launch_failure(name: Seq<char>) -> Seq<char> {
    "启动「"@ + name + "」失败，应用可能已被删除\n按 D 从列表中移除"@
}

/// The message shown when the typed proxy address is refused.
pub open spec fn invalid_proxy_message() -> Seq<char> {
    "代理地址无效：须以 http://、https://、socks4:// 或 socks5:// 开头，后接不含空白的地址"@
}

/// Whether the application's lower-cased name contains the lower-cased query.
pub open spec fn name_matches(name: Seq<char>, lowered_query: Seq<char>) -> bool {
    has_substring(lowercase(name), lowered_query)
}

/// The applications whose names match the lower-cased query, in order.
pub open spec fn matching_apps(apps: Seq<AppView>, lowered_query: Seq<char>) -> Seq<AppView>
    decreases apps.len(),
{
    if apps.len() == 0 {
        Seq::<AppView>::empty()
    } else {
        let kept = matching_apps(apps.drop_last(), lowered_query);
        if name_matches(apps.last().name, lowered_query) {
            kept.push(apps.last())
        } else {
            kept
        }
    }
}

/// The applications the picker shows for a search query: all of them for an
/// empty query, else those whose names contain the query, ignoring case.
pub open spec fn filter_apps(apps: Seq<AppView>, query: Seq<char>) -> Seq<AppView> {
    if query.len() == 0 {
        apps
    } else {
        matching_apps(apps, lowered_query(query))
    }
}

/// Whether every character of `s` is ASCII.
pub open spec fn is_ascii_text(s: Seq<char>) -> bool {
    forall|i: int| 0 <= i < s.len() ==> (#[trigger] s[i] as u32) < 128
}

/// An ASCII character in lower case: `A`–`Z` become `a`–`z`, the others
/// stay.
pub open spec fn ascii_lower(c: char) -> char {
    if 65 <= (c as u32) <= 90 {
        (((c as u32) + 32) as u8) as char
    } else {
        c
    }
}

/// The search text in lower case: an ASCII one letter by letter (which is
/// what Unicode's lower-case mapping does to ASCII text), any other by
/// `str::to_lowercase`.
pub open spec fn lowered_query(q: Seq<char>) -> Seq<char> {
    if is_ascii_text(q) {
        q.map_values(|c: char| ascii_lower(c))
    } else {
        lowercase(q)
    }
}

/// The applications whose given lower-cased names contain the lower-cased
/// query, in order; `names[i]` belongs to `apps[i]`.
pub open spec fn matching_by_names(apps: Seq<AppView>, names: Seq<Seq<char>>, lowered_query: Seq<char>) -> Seq<AppView>
    decreases apps.len(),
{
    if apps.len() == 0 {
        Seq::<AppView>::empty()
    } else {
        let kept = matching_by_names(apps.drop_last(), names.drop_last(), lowered_query);
        if has_substring(names[apps.len() - 1], lowered_query) {
            kept.push(apps.last())
        } else {
            kept
        }
    }
}

/// With each name lower-cased as `str::to_lowercase` does, matching by the
/// given names is matching by name.
pub proof fn lemma_matching_by_lowered_names(apps: Seq<AppView>, names: Seq<Seq<char>>, lq: Seq<char>)
    requires
        names.len() == apps.len(),
        forall|i: int| 0 <= i < apps.len() ==> #[trigger] names[i] == lowercase(apps[i].name),
    ensures
        matching_by_names(apps, names, lq) == matching_apps(apps, lq),
    decreases apps.len(),
{
    if apps.len() > 0 {
        let a2 = apps.drop_last();
        let n2 = names.drop_last();
        assert forall|i: int| 0 <= i < a2.len() implies #[trigger] n2[i] == lowercase(a2[i].name) by {
            assert(n2[i] == names[i] && a2[i] == apps[i]);
        }
        lemma_matching_by_lowered_names(a2, n2, lq);
        assert(names[apps.len() - 1] == lowercase(apps[apps.len() - 1].name));
    }
}

/// Whether one of `apps` has the same path as `path`.
pub open spec fn has_app_at(apps: Seq<AppView>, path: Seq<char>) -> bool {
    exists|i: int| 0 <= i < apps.len() && same_path(#[trigger] apps[i].path, path)
}

/// The state a program starts in.
pub open spec fn initial_state(config: ConfigView, all_apps: Seq<AppView>) -> AppStateView {
    AppStateView {
        config,
        mode: Mode::Normal,
        selected_index: 0,
        all_apps,
        app_selector_index: 0,
        proxy_input: Seq::<char>::empty(),
        env_input: Seq::<char>::empty(),
        should_quit: false,
        pending_quit: false,
        pending_quit_message: Seq::<char>::empty(),
        search_query: Seq::<char>::empty(),
        filtered_apps: all_apps,
        pending_delete: false,
        status_message: Seq::<char>::empty(),
    }
}

/// A quit request: the second one in a row quits, the first one asks for
/// confirmation. Either withdraws a pending deletion and clears the status
/// line.
pub open spec fn quit_requested(s: AppStateView) -> AppStateView {
    let t = AppStateView { pending_delete: false, status_message: Seq::<char>::empty(), ..s };
    if s.pending_quit {
        AppStateView { should_quit: true, ..t }
    } else {
        AppStateView { pending_quit: true, pending_quit_message: quit_prompt(), ..t }
    }
}

/// Any other handled key withdraws a pending quit request and a pending
/// deletion, and clears the status line.
pub open spec fn quit_withdrawn(s: AppStateView) -> AppStateView {
    AppStateView {
        pending_quit: false,
        pending_quit_message: Seq::<char>::empty(),
        pending_delete: false,
        status_message: Seq::<char>::empty(),
        ..s
    }
}

/// `s` with one character typed (`Some`) or erased (`None`) at its end.
pub open spec fn edited(s: Seq<char>, typed: Option<char>) -> Seq<char> {
    match typed {
        Some(c) => s.push(c),
        None => if s.len() > 0 {
            s.drop_last()
        } else {
            s
        },
    }
}

/// Whether the key moves the selection up.
pub open spec fn is_up(key: KeyInput) -> bool {
    key.code == KeyCode::Up || key.code == KeyCode::Char('k')
}

/// Whether the key moves the selection down.
pub open spec fn is_down(key: KeyInput) -> bool {
    key.code == KeyCode::Down || key.code == KeyCode::Char('j')
}

/// One step up, stopping at the top.
pub open spec fn moved_up(i: nat) -> nat {
    if i > 0 {
        (i - 1) as nat
    } else {
        i
    }
}

/// One step down, stopping at the last of `len` entries.
pub open spec fn moved_down(i: nat, len: nat) -> nat {
    if i + 1 < len {
        i + 1
    } else {
        i
    }
}

/// A key press on the list of the user's applications.
pub open spec fn normal_step(s: AppStateView, key: KeyInput) -> (AppStateView, EffectView) {
    let c = quit_withdrawn(s);
    let apps = s.config.apps;
    let sel = s.selected_index;
    if key.is_ctrl_c() || key.code == KeyCode::Char('q') {
        (quit_requested(s), EffectView::Nothing)
    } else if is_up(key) {
        (AppStateView { selected_index: moved_up(sel), ..c }, EffectView::Nothing)
    } else if is_down(key) {
        (AppStateView { selected_index: moved_down(sel, apps.len()), ..c }, EffectView::Nothing)
    } else if key.code == KeyCode::Enter {
        (
            c,
            if sel < apps.len() {
                EffectView::Launch(launch_args(apps[sel as int], s.config.proxy_url, s.config.env_commands))
            } else {
                EffectView::Nothing
            },
        )
    } else if key.code == KeyCode::Char('c') {
        (
            c,
            if sel < apps.len() {
                EffectView::CopyToClipboard(
                    launch_command(apps[sel as int], s.config.proxy_url, s.config.env_commands),
                )
            } else {
                EffectView::Nothing
            },
        )
    } else if key.code == KeyCode::Char('a') {
        (
            AppStateView {
                mode: Mode::AppSelector,
                app_selector_index: 0,
                search_query: Seq::<char>::empty(),
                filtered_apps: s.all_apps,
                ..c
            },
            EffectView::Nothing,
        )
    } else if key.code == KeyCode::Char('e') {
        (AppStateView { mode: Mode::ProxyEditor, proxy_input: s.config.proxy_url, ..c }, EffectView::Nothing)
    } else if key.code == KeyCode::Char('v') {
        (
            AppStateView { mode: Mode::EnvEditor, env_input: join_with(s.config.env_commands, '\n'), ..c },
            EffectView::Nothing,
        )
    } else if key.code == KeyCode::Char('d') {
        if sel < apps.len() && !s.pending_delete {
            (
                AppStateView { pending_delete: true, status_message: delete_prompt(apps[sel as int].name), ..c },
                EffectView::Nothing,
            )
        } else if sel < apps.len() {
            let rest = apps.remove(sel as int);
            (
                AppStateView {
                    config: ConfigView { apps: rest, ..s.config },
                    selected_index: if sel >= rest.len() && rest.len() > 0 {
                        (rest.len() - 1) as nat
                    } else {
                        sel
                    },
                    ..c
                },
                EffectView::SaveConfig,
            )
        } else {
            (c, EffectView::Nothing)
        }
    } else {
        (s, EffectView::Nothing)
    }
}

/// A key press in the application picker.
pub open spec fn selector_step(s: AppStateView, key: KeyInput) -> (AppStateView, EffectView) {
    let c = quit_withdrawn(s);
    let idx = s.app_selector_index;
    if key.is_ctrl_c() {
        (quit_requested(s), EffectView::Nothing)
    } else if key.code == KeyCode::Esc {
        (AppStateView { mode: Mode::Normal, ..c }, EffectView::Nothing)
    } else if is_up(key) {
        (AppStateView { app_selector_index: moved_up(idx), ..c }, EffectView::Nothing)
    } else if is_down(key) {
        (
            AppStateView { app_selector_index: moved_down(idx, s.filtered_apps.len()), ..c },
            EffectView::Nothing,
        )
    } else if key.code == KeyCode::Enter {
        if idx < s.filtered_apps.len() && !has_app_at(s.config.apps, s.filtered_apps[idx as int].path) {
            (
                AppStateView {
                    config: ConfigView { apps: s.config.apps.push(s.filtered_apps[idx as int]), ..s.config },
                    mode: Mode::Normal,
                    ..c
                },
                EffectView::SaveConfig,
            )
        } else {
            (AppStateView { mode: Mode::Normal, ..c }, EffectView::Nothing)
        }
    } else if key.code == KeyCode::Backspace || key.code is Char {
        let typed = if key.code is Char { Some(key.code->Char_0) } else { None };
        let q = edited(s.search_query, typed);
        (
            AppStateView {
                search_query: q,
                filtered_apps: filter_apps(s.all_apps, q),
                app_selector_index: 0,
                ..c
            },
            EffectView::Nothing,
        )
    } else {
        (s, EffectView::Nothing)
    }
}

/// A key press in the proxy address editor.
pub open spec fn proxy_editor_step(s: AppStateView, key: KeyInput) -> (AppStateView, EffectView) {
    let c = quit_withdrawn(s);
    if key.is_ctrl_c() {
        (quit_requested(s), EffectView::Nothing)
    } else if key.code == KeyCode::Esc {
        (AppStateView { mode: Mode::Normal, ..c }, EffectView::Nothing)
    } else if key.code == KeyCode::Enter {
        if valid_proxy_url(s.proxy_input) {
            (
                AppStateView {
                    config: ConfigView { proxy_url: s.proxy_input, ..s.config },
                    mode: Mode::Normal,
                    ..c
                },
                EffectView::SaveConfig,
            )
        } else {
            (AppStateView { status_message: invalid_proxy_message(), ..c }, EffectView::Nothing)
        }
    } else if key.code == KeyCode::Backspace {
        (AppStateView { proxy_input: edited(s.proxy_input, None), ..c }, EffectView::Nothing)
    } else if key.code is Char {
        (AppStateView { proxy_input: edited(s.proxy_input, Some(key.code->Char_0)), ..c }, EffectView::Nothing)
    } else {
        (s, EffectView::Nothing)
    }
}

/// A key press in the environment commands editor.
pub open spec fn env_editor_step(s: AppStateView, key: KeyInput) -> (AppStateView, EffectView) {
    let c = quit_withdrawn(s);
    if key.is_ctrl_c() {
        (quit_requested(s), EffectView::Nothing)
    } else if key.code == KeyCode::Esc {
        (AppStateView { mode: Mode::Normal, ..c }, EffectView::Nothing)
    } else if key.code == KeyCode::Enter {
        (
            AppStateView {
                config: ConfigView { env_commands: trimmed_lines(s.env_input), ..s.config },
                mode: Mode::Normal,
                ..c
            },
            EffectView::SaveConfig,
        )
    } else if key.code == KeyCode::Backspace {
        (AppStateView { env_input: edited(s.env_input, None), ..c }, EffectView::Nothing)
    } else if key.code is Char {
        (AppStateView { env_input: edited(s.env_input, Some(key.code->Char_0)), ..c }, EffectView::Nothing)
    } else {
        (s, EffectView::Nothing)
    }
}

/// The outcome of a launch asked for on the application list: a failure
/// is reported and the application offered for removal (a further `d`
/// removes it); a success changes nothing.
pub open spec fn launch_reported(s: AppStateView, succeeded: bool) -> AppStateView {
    if !succeeded && s.mode == Mode::Normal && s.selected_index < s.config.apps.len() {
        AppStateView {
            pending_delete: true,
            status_message: launch_failure(s.config.apps[s.selected_index as int].name),
            ..s
        }
    } else {
        s
    }
}

/// A key press, handled by the screen that has the keyboard.
pub open spec fn step(s: AppStateView, key: KeyInput) -> (AppStateView, EffectView) {
    match s.mode {
        Mode::Normal => normal_step(s, key),
        Mode::AppSelector => selector_step(s, key),
        Mode::ProxyEditor => proxy_editor_step(s, key),
        Mode::EnvEditor => env_editor_step(s, key),
    }
}

// ---------------------------------------------------------------------------
// Implementation
// ---------------------------------------------------------------------------

/// The applications whose names contain `query`, ignoring case; all of them
/// when `query` is empty.
pub fn filter_apps_by_name(apps: &Vec<App>, query: &str) -> (r: Vec<App>)
    ensures
        apps_view(r@) == filter_apps(apps_view(apps@), query@),
{
    if query.is_empty() {
        return duplicate_apps(apps);
    }
    let lowered = lower_query(query);
    let mut names: Vec<String> = Vec::new();
    let n = apps.len();
    for k in 0..n
        invariant
            n == apps.len(),
            names.len() == k,
            forall|i: int| 0 <= i < k ==> #[trigger] strings_view(names@)[i] == lowercase(apps_view(apps@)[i].name),
    {
        let ghost prev = names@;
        names.push(to_lowercase(apps[k].name.as_str()));
        assert forall|i: int| 0 <= i < k + 1 implies #[trigger] strings_view(names@)[i] == lowercase(
            apps_view(apps@)[i].name,
        ) by {
            assert(strings_view(names@)[i] == names@[i]@);
            if i < k {
                assert(names@[i] == prev[i]);
                assert(strings_view(prev)[i] == prev[i]@);
            }
        }
    }
    let r = select_matching(apps, &names, lowered.as_str());
    proof {
        lemma_matching_by_lowered_names(apps_view(apps@), strings_view(names@), lowered@);
    }
    r
}

/// The search text in lower case.
pub fn lower_query(query: &str) -> (r: String)
    ensures
        r@ == lowered_query(query@),
{
    let chars = chars_of(query);
    let mut ascii = true;
    let n = chars.len();
    for k in 0..n
        invariant
            n == chars.len(),
            chars@ == query@,
            ascii == (forall|i: int| 0 <= i < k ==> (#[trigger] chars@[i] as u32) < 128),
    {
        if (chars[k] as u32) >= 128 {
            ascii = false;
        }
    }
    if !ascii {
        return to_lowercase(query);
    }
    let mut out = String::new();
    for k in 0..n
        invariant
            n == chars.len(),
            chars@ == query@,
            is_ascii_text(query@),
            out@ == query@.take(k as int).map_values(|c: char| ascii_lower(c)),
    {
        let c = chars[k];
        let code = c as u32;
        let lower = if 65 <= code && code <= 90 {
            ((code + 32) as u8) as char
        } else {
            c
        };
        push_char(&mut out, lower);
        assert(query@.take(k + 1).map_values(|c: char| ascii_lower(c)) =~= query@.take(k as int).map_values(
            |c: char| ascii_lower(c),
        ).push(ascii_lower(query@[k as int])));
    }
    assert(query@.take(n as int) =~= query@);
    out
}

/// The applications whose lower-cased names (`lowered_names[i]` for
/// `apps[i]`) contain the lower-cased query, in order.
pub fn select_matching(apps: &Vec<App>, lowered_names: &Vec<String>, lowered_query: &str) -> (r: Vec<App>)
    requires
        lowered_names.len() == apps.len(),
    ensures
        apps_view(r@) == matching_by_names(apps_view(apps@), strings_view(lowered_names@), lowered_query@),
{
    let needle = chars_of(lowered_query);
    let mut out: Vec<App> = Vec::new();
    let n = apps.len();
    for k in 0..n
        invariant
            n == apps.len(),
            n == lowered_names.len(),
            needle@ == lowered_query@,
            apps_view(out@) == matching_by_names(
                apps_view(apps@).take(k as int),
                strings_view(lowered_names@).take(k as int),
                needle@,
            ),
    {
        let ghost av = apps_view(apps@);
        let ghost nv = strings_view(lowered_names@);
        assert(av.take(k + 1).drop_last() =~= av.take(k as int));
        assert(nv.take(k + 1).drop_last() =~= nv.take(k as int));
        assert(av.take(k + 1).last() == apps@[k as int]@);
        assert(nv.take(k + 1)[k as int] == lowered_names@[k as int]@);
        let hay = chars_of(lowered_names[k].as_str());
        if contains_chars(&hay, &needle) {
            let ghost prev = apps_view(out@);
            out.push(apps[k].duplicate());
            assert(apps_view(out@) =~= prev.push(apps@[k as int]@));
        }
    }
    assert(apps_view(apps@).take(n as int) =~= apps_view(apps@));
    assert(strings_view(lowered_names@).take(n as int) =~= strings_view(lowered_names@));
    out
}

/// Whether one of `apps` has the same path as `path`.
pub fn has_app_with_path(apps: &Vec<App>, path: &str) -> (r: bool)
    ensures
        r == has_app_at(apps_view(apps@), path@),
{
    let n = apps.len();
    for k in 0..n
        invariant
            n == apps.len(),
            forall|i: int| 0 <= i < k ==> !same_path(#[trigger] apps_view(apps@)[i].path, path@),
    {
        if paths_equal(apps[k].path.as_str(), path) {
            assert(apps_view(apps@)[k as int].path == apps@[k as int].path@);
            return true;
        }
    }
    false
}

impl AppState {
    /// The state a program starts in, with the loaded configuration and the
    /// installed applications.
    pub fn new(config: Config, all_apps: Vec<App>) -> (s: AppState)
        ensures
            s@ == initial_state(config@, apps_view(all_apps@)),
    {
        let filtered_apps = duplicate_apps(&all_apps);
        AppState {
            config,
            mode: Mode::Normal,
            selected_index: 0,
            all_apps,
            app_selector_index: 0,
            proxy_input: String::new(),
            env_input: String::new(),
            should_quit: false,
            pending_quit: false,
            pending_quit_message: String::new(),
            search_query: String::new(),
            filtered_apps,
            pending_delete: false,
            status_message: String::new(),
        }
    }

    /// Shows a notice on the status line (such as a warning that the saved
    /// configuration could not be read).
    pub fn show_notice(&mut self, text: String)
        ensures
            final(self)@ == (AppStateView { status_message: text@, ..old(self)@ }),
    {
        self.status_message = text;
    }

    /// Takes the outcome of the launch the last `Effect::Launch` asked for.
    pub fn report_launch(&mut self, succeeded: bool)
        ensures
            final(self)@ == launch_reported(old(self)@, succeeded),
    {
        if !succeeded && self.mode == Mode::Normal && self.selected_index < self.config.apps.len() {
            let mut msg = String::from_str("启动「");
            msg.append(self.config.apps[self.selected_index].name.as_str());
            msg.append("」失败，应用可能已被删除\n按 D 从列表中移除");
            self.pending_delete = true;
            self.status_message = msg;
        }
    }

    /// A quit request: quits when one is already pending, else asks for
    /// confirmation.
    fn try_quit(&mut self)
        ensures
            final(self)@ == quit_requested(old(self)@),
    {
        self.pending_delete = false;
        self.status_message = String::new();
        if self.pending_quit {
            self.should_quit = true;
        } else {
            self.pending_quit = true;
            self.pending_quit_message = String::from_str("再按一次 Ctrl+C 或 Q 退出");
        }
    }

    /// Withdraws a pending quit request.
    fn cancel_pending_quit(&mut self)
        ensures
            final(self)@ == quit_withdrawn(old(self)@),
    {
        self.pending_quit = false;
        self.pending_quit_message = String::new();
        self.pending_delete = false;
        self.status_message = String::new();
    }

    /// Handles a key press and says what the surrounding program must do.
    pub fn handle_key(&mut self, key: KeyInput) -> (e: Effect)
        ensures
            (final(self)@, e@) == step(old(self)@, key),
    {
        match self.mode {
            Mode::Normal => self.handle_normal_key(key),
            Mode::AppSelector => self.handle_app_selector_key(key),
            Mode::ProxyEditor => self.handle_proxy_editor_key(key),
            Mode::EnvEditor => self.handle_env_editor_key(key),
        }
    }

    pub fn handle_normal_key(&mut self, key: KeyInput) -> (e: Effect)
        ensures
            (final(self)@, e@) == normal_step(old(self)@, key),
    {
        match key.code {
            KeyCode::Char('c') if key.ctrl => {
                self.try_quit();
                Effect::Nothing
            },
            KeyCode::Char('q') => {
                self.try_quit();
                Effect::Nothing
            },
            KeyCode::Up | KeyCode::Char('k') => {
                self.cancel_pending_quit();
                if self.selected_index > 0 {
                    self.selected_index -= 1;
                }
                Effect::Nothing
            },
            KeyCode::Down | KeyCode::Char('j') => {
                self.cancel_pending_quit();
                if self.config.apps.len() > 0 && self.selected_index < self.config.apps.len() - 1 {
                    self.selected_index += 1;
                }
                Effect::Nothing
            },
            KeyCode::Enter => {
                self.cancel_pending_quit();
                if self.selected_index < self.config.apps.len() {
                    Effect::Launch(
                        launch_arguments(
                            &self.config.apps[self.selected_index],
                            self.config.proxy_url.as_str(),
                            &self.config.env_commands,
                        ),
                    )
                } else {
                    Effect::Nothing
                }
            },
            KeyCode::Char('c') => {
                self.cancel_pending_quit();
                if self.selected_index < self.config.apps.len() {
                    Effect::CopyToClipboard(
                        get_launch_command(
                            &self.config.apps[self.selected_index],
                            self.config.proxy_url.as_str(),
                            &self.config.env_commands,
                        ),
                    )
                } else {
                    Effect::Nothing
                }
            },
            KeyCode::Char('a') => {
                self.cancel_pending_quit();
                self.mode = Mode::AppSelector;
                self.app_selector_index = 0;
                self.search_query = String::new();
                self.filtered_apps = duplicate_apps(&self.all_apps);
                Effect::Nothing
            },
            KeyCode::Char('e') => {
                self.cancel_pending_quit();
                self.mode = Mode::ProxyEditor;
                self.proxy_input = self.config.proxy_url.clone();
                Effect::Nothing
            },
            KeyCode::Char('v') => {
                self.cancel_pending_quit();
                self.mode = Mode::EnvEditor;
                self.env_input = join_strings(&self.config.env_commands, "\n");
                proof {
                    reveal_strlit("\n");
                    assert("\n"@ =~= seq!['\n']);
                }
                Effect::Nothing
            },
            KeyCode::Char('d') => {
                let confirmed = self.pending_delete;
                self.cancel_pending_quit();
                if self.selected_index < self.config.apps.len() && !confirmed {
                    let mut msg = String::from_str("确认删除「");
                    msg.append(self.config.apps[self.selected_index].name.as_str());
                    msg.append("」？再按一次 D 删除");
                    self.pending_delete = true;
                    self.status_message = msg;
                    Effect::Nothing
                } else if !self.config.apps.is_empty() && self.selected_index < self.config.apps.len() {
                    let ghost before = apps_view(self.config.apps@);
                    self.config.apps.remove(self.selected_index);
                    assert(apps_view(self.config.apps@) =~= before.remove(self.selected_index as int));
                    if self.selected_index >= self.config.apps.len() && !self.config.apps.is_empty() {
                        self.selected_index = self.config.apps.len() - 1;
                    }
                    Effect::SaveConfig
                } else {
                    Effect::Nothing
                }
            },
            _ => Effect::Nothing,
        }
    }

    pub fn handle_app_selector_key(&mut self, key: KeyInput) -> (e: Effect)
        ensures
            (final(self)@, e@) == selector_step(old(self)@, key),
    {
        match key.code {
            KeyCode::Char('c') if key.ctrl => {
                self.try_quit();
                Effect::Nothing
            },
            KeyCode::Esc => {
                self.cancel_pending_quit();
                self.mode = Mode::Normal;
                Effect::Nothing
            },
            KeyCode::Up | KeyCode::Char('k') => {
                self.cancel_pending_quit();
                if self.app_selector_index > 0 {
                    self.app_selector_index -= 1;
                }
                Effect::Nothing
            },
            KeyCode::Down | KeyCode::Char('j') => {
                self.cancel_pending_quit();
                if self.filtered_apps.len() > 0 && self.app_selector_index < self.filtered_apps.len() - 1 {
                    self.app_selector_index += 1;
                }
                Effect::Nothing
            },
            KeyCode::Enter => {
                self.cancel_pending_quit();
                let mut effect = Effect::Nothing;
                if self.app_selector_index < self.filtered_apps.len() {
                    let picked = self.filtered_apps[self.app_selector_index].duplicate();
                    if !has_app_with_path(&self.config.apps, picked.path.as_str()) {
                        let ghost before = apps_view(self.config.apps@);
                        self.config.apps.push(picked);
                        assert(apps_view(self.config.apps@) =~= before.push(picked@));
                        effect = Effect::SaveConfig;
                    }
                }
                self.mode = Mode::Normal;
                effect
            },
            KeyCode::Backspace => {
                self.cancel_pending_quit();
                pop_char(&mut self.search_query);
                self.update_filtered_apps();
                Effect::Nothing
            },
            KeyCode::Char(c) => {
                self.cancel_pending_quit();
                push_char(&mut self.search_query, c);
                self.update_filtered_apps();
                Effect::Nothing
            },
            _ => Effect::Nothing,
        }
    }

    fn update_filtered_apps(&mut self)
        ensures
            final(self)@ == (AppStateView {
                filtered_apps: filter_apps(old(self)@.all_apps, old(self)@.search_query),
                app_selector_index: 0,
                ..old(self)@
            }),
    {
        self.filtered_apps = filter_apps_by_name(&self.all_apps, self.search_query.as_str());
        self.app_selector_index = 0;
    }

    pub fn handle_proxy_editor_key(&mut self, key: KeyInput) -> (e: Effect)
        ensures
            (final(self)@, e@) == proxy_editor_step(old(self)@, key),
    {
        match key.code {
            KeyCode::Char('c') if key.ctrl => {
                self.try_quit();
                Effect::Nothing
            },
            KeyCode::Esc => {
                self.cancel_pending_quit();
                self.mode = Mode::Normal;
                Effect::Nothing
            },
            KeyCode::Enter => {
                self.cancel_pending_quit();
                if is_valid_proxy_url(self.proxy_input.as_str()) {
                    self.config.proxy_url = self.proxy_input.clone();
                    self.mode = Mode::Normal;
                    Effect::SaveConfig
                } else {
                    self.status_message = String::from_str(
                        "代理地址无效：须以 http://、https://、socks4:// 或 socks5:// 开头，后接不含空白的地址",
                    );
                    Effect::Nothing
                }
            },
            KeyCode::Backspace => {
                self.cancel_pending_quit();
                pop_char(&mut self.proxy_input);
                Effect::Nothing
            },
            KeyCode::Char(c) => {
                self.cancel_pending_quit();
                push_char(&mut self.proxy_input, c);
                Effect::Nothing
            },
            _ => Effect::Nothing,
        }
    }

    pub fn handle_env_editor_key(&mut self, key: KeyInput) -> (e: Effect)
        ensures
            (final(self)@, e@) == env_editor_step(old(self)@, key),
    {
        match key.code {
            KeyCode::Char('c') if key.ctrl => {
                self.try_quit();
                Effect::Nothing
            },
            KeyCode::Esc => {
                self.cancel_pending_quit();
                self.mode = Mode::Normal;
                Effect::Nothing
            },
            KeyCode::Enter => {
                self.cancel_pending_quit();
                self.config.env_commands = trimmed_nonblank_lines(self.env_input.as_str());
                self.mode = Mode::Normal;
                Effect::SaveConfig
            },
            KeyCode::Backspace => {
                self.cancel_pending_quit();
                pop_char(&mut self.env_input);
                Effect::Nothing
            },
            KeyCode::Char(c) => {
                self.cancel_pending_quit();
                push_char(&mut self.env_input, c);
                Effect::Nothing
            },
            _ => Effect::Nothing,
        }
    }
}

} // verus!
