//! What each key does, stated over the inputs and results rather than by
//! the step function's own cases.
use vstd::prelude::*;

use crate::apps::bundles_among;
use crate::config::{default_config, AppView, ConfigView};
use crate::key::{KeyCode, KeyInput};
use crate::launch::launch_command;
use crate::laws::clean_command;
use crate::path::{bundle_name, path_file_name, same_path};
use crate::proxy::{after_prefix, valid_proxy_url};
use crate::screen::{cursor_at_end, decimal, details, digit_char, picker_item, text_lines, without_cr};
use crate::state::{is_ascii_text, lowered_query, step, AppStateView, EffectView, Mode};
use crate::text::{
    is_white_space, join_text, lemma_split_append, lemma_split_no_sep, lemma_split_nonempty,
    non_blank_trimmed, split_on, trim, trim_end, trim_start, trimmed_lines,
};

verus! {

/// The name `open` is asked to start for an application: the last name in
/// its path, or `"App"` when the path has none.
pub open spec fn target_of(app: AppView) -> Seq<char> {
    match path_file_name(app.path) {
        Some(f) => f,
        None => "App"@,
    }
}

/// Enter on the list starts the selected application, and only asks for
/// that: the arguments of `env` are the environment commands, then
/// `open -na <the selected bundle> --args --proxy-server=<proxy>`; nothing
/// else changes but the withdrawal of pending questions.
pub proof fn lemma_enter_launches_selected(s: AppStateView, key: KeyInput)
    requires
        s.mode == Mode::Normal,
        key.code == KeyCode::Enter,
        s.selected_index < s.config.apps.len(),
    ensures
        step(s, key).1 is Launch,
        ({
            let args = step(s, key).1->Launch_0;
            let env = s.config.env_commands;
            let n = env.len() as int;
            &&& args.len() == n + 5
            &&& args.take(n) == env
            &&& args[n] == "open"@
            &&& args[n + 1] == "-na"@
            &&& args[n + 2] == target_of(s.config.apps[s.selected_index as int])
            &&& args[n + 3] == "--args"@
            &&& args[n + 4] == "--proxy-server="@ + s.config.proxy_url
            &&& args.last() == "--proxy-server="@ + s.config.proxy_url
        }),
        step(s, key).0.config == s.config,
        step(s, key).0.selected_index == s.selected_index,
        step(s, key).0.mode == Mode::Normal,
{
    let args = step(s, key).1->Launch_0;
    let n = s.config.env_commands.len() as int;
    assert(args.take(n) =~= s.config.env_commands);
}

/// Enter on an empty selection starts nothing.
pub proof fn lemma_enter_without_selection(s: AppStateView, key: KeyInput)
    requires
        s.mode == Mode::Normal,
        key.code == KeyCode::Enter,
        s.selected_index >= s.config.apps.len(),
    ensures
        step(s, key).1 == EffectView::Nothing,
        step(s, key).0.config == s.config,
{
}

/// `c` on the list copies the command that starts the selected
/// application: the environment commands after `env` (when there are any),
/// then `open -na "<the selected bundle>" --args --proxy-server="<proxy>"`.
pub proof fn lemma_copy_selected(s: AppStateView, key: KeyInput)
    requires
        s.mode == Mode::Normal,
        key.code == KeyCode::Char('c'),
        !key.ctrl,
        s.selected_index < s.config.apps.len(),
    ensures
        step(s, key).1 == EffectView::CopyToClipboard(
            (if s.config.env_commands.len() == 0 {
                Seq::<char>::empty()
            } else {
                "env "@ + join_text(s.config.env_commands, " "@) + " "@
            }) + "open -na \""@ + target_of(s.config.apps[s.selected_index as int]) + "\" --args --proxy-server=\""@
                + s.config.proxy_url + "\""@,
        ),
        step(s, key).0.config == s.config,
        step(s, key).0.selected_index == s.selected_index,
{
    let env = s.config.env_commands;
    let app = s.config.apps[s.selected_index as int];
    let prefix = if env.len() == 0 {
        Seq::<char>::empty()
    } else {
        "env "@ + join_text(env, " "@) + " "@
    };
    let stated = prefix + "open -na \""@ + target_of(app) + "\" --args --proxy-server=\""@ + s.config.proxy_url
        + "\""@;
    assert(launch_command(app, s.config.proxy_url, env) =~= stated);
}

/// Up and Down on the list move the selection by one, staying on the list,
/// and change nothing else that is kept.
pub proof fn lemma_list_navigation(s: AppStateView, key: KeyInput)
    requires
        s.mode == Mode::Normal,
        key.code == KeyCode::Up || key.code == KeyCode::Down || key.code == KeyCode::Char('k')
            || key.code == KeyCode::Char('j'),
    ensures
        (key.code == KeyCode::Up || key.code == KeyCode::Char('k')) ==> step(s, key).0.selected_index == (
        if s.selected_index > 0 {
            (s.selected_index - 1) as nat
        } else {
            0nat
        }),
        (key.code == KeyCode::Down || key.code == KeyCode::Char('j')) ==> step(s, key).0.selected_index == (
        if s.selected_index + 1 < s.config.apps.len() {
            s.selected_index + 1
        } else {
            s.selected_index
        }),
        step(s, key).0.config == s.config,
        step(s, key).0.mode == Mode::Normal,
        step(s, key).1 == EffectView::Nothing,
{
}

/// Up and Down in the picker move its selection by one, staying on the
/// shown list.
pub proof fn lemma_picker_navigation(s: AppStateView, key: KeyInput)
    requires
        s.mode == Mode::AppSelector,
        key.code == KeyCode::Up || key.code == KeyCode::Down || key.code == KeyCode::Char('k')
            || key.code == KeyCode::Char('j'),
    ensures
        (key.code == KeyCode::Up || key.code == KeyCode::Char('k')) ==> step(s, key).0.app_selector_index == (
        if s.app_selector_index > 0 {
            (s.app_selector_index - 1) as nat
        } else {
            0nat
        }),
        (key.code == KeyCode::Down || key.code == KeyCode::Char('j')) ==> step(s, key).0.app_selector_index == (
        if s.app_selector_index + 1 < s.filtered_apps.len() {
            s.app_selector_index + 1
        } else {
            s.app_selector_index
        }),
        step(s, key).0.config == s.config,
        step(s, key).0.search_query == s.search_query,
        step(s, key).0.filtered_apps == s.filtered_apps,
        step(s, key).0.mode == Mode::AppSelector,
{
}

/// Enter in the picker adds the highlighted application to the list and
/// saves, unless an application with the same path is listed already; either
/// way the picker closes.
pub proof fn lemma_picker_adds_highlighted(s: AppStateView, key: KeyInput)
    requires
        s.mode == Mode::AppSelector,
        key.code == KeyCode::Enter,
    ensures
        step(s, key).0.mode == Mode::Normal,
        ({
            let i = s.app_selector_index as int;
            let listed = exists|k: int| 0 <= k < s.config.apps.len()
                && same_path(#[trigger] s.config.apps[k].path, s.filtered_apps[i].path);
            if i < s.filtered_apps.len() && !listed {
                &&& step(s, key).0.config.apps == s.config.apps.push(s.filtered_apps[i])
                &&& step(s, key).1 == EffectView::SaveConfig
            } else {
                &&& step(s, key).0.config.apps == s.config.apps
                &&& step(s, key).1 == EffectView::Nothing
            }
        }),
        step(s, key).0.config.proxy_url == s.config.proxy_url,
        step(s, key).0.config.env_commands == s.config.env_commands,
{
}

/// `a`, `e` and `v` on the list open the picker (on every installed
/// application, with an empty search), the proxy editor (on the current
/// address) and the environment editor (on the commands, one per line).
pub proof fn lemma_opening_screens(s: AppStateView, key: KeyInput)
    requires
        s.mode == Mode::Normal,
        !key.ctrl,
        key.code == KeyCode::Char('a') || key.code == KeyCode::Char('e') || key.code == KeyCode::Char('v'),
    ensures
        key.code == KeyCode::Char('a') ==> {
            &&& step(s, key).0.mode == Mode::AppSelector
            &&& step(s, key).0.filtered_apps == s.all_apps
            &&& step(s, key).0.search_query.len() == 0
            &&& step(s, key).0.app_selector_index == 0
        },
        key.code == KeyCode::Char('e') ==> step(s, key).0.mode == Mode::ProxyEditor
            && step(s, key).0.proxy_input == s.config.proxy_url,
        key.code == KeyCode::Char('v') ==> step(s, key).0.mode == Mode::EnvEditor
            && step(s, key).0.env_input == join_text(s.config.env_commands, seq!['\n']),
        step(s, key).0.config == s.config,
        step(s, key).1 == EffectView::Nothing,
{
}

/// In the environment editor a character is added at the end of the text and
/// Backspace erases the last one (nothing on an empty text); the
/// configuration is untouched and the editor stays open.
pub proof fn lemma_env_editor_edits(s: AppStateView, key: KeyInput)
    requires
        s.mode == Mode::EnvEditor,
        key.code == KeyCode::Backspace || (key.code is Char && !key.is_ctrl_c()),
    ensures
        key.code == KeyCode::Backspace && s.env_input.len() > 0 ==> step(s, key).0.env_input
            == s.env_input.drop_last() && step(s, key).0.env_input.len() + 1 == s.env_input.len(),
        key.code == KeyCode::Backspace && s.env_input.len() == 0 ==> step(s, key).0.env_input == s.env_input,
        key.code is Char ==> step(s, key).0.env_input == s.env_input.push(key.code->Char_0),
        step(s, key).0.mode == Mode::EnvEditor,
        step(s, key).0.config == s.config,
        step(s, key).1 == EffectView::Nothing,
{
}

/// Typing a character into the environment editor and erasing it gives the
/// text back.
pub proof fn lemma_env_type_then_erase(s: AppStateView, typed: KeyInput, erase: KeyInput)
    requires
        s.mode == Mode::EnvEditor,
        typed.code is Char,
        !typed.is_ctrl_c(),
        erase.code == KeyCode::Backspace,
    ensures
        step(step(s, typed).0, erase).0.env_input == s.env_input,
        step(step(s, typed).0, erase).0.mode == Mode::EnvEditor,
        step(step(s, typed).0, erase).0.config == s.config,
{
    assert(s.env_input.push(typed.code->Char_0).drop_last() =~= s.env_input);
}

/// In the proxy editor a character is added at the end of the address and
/// Backspace erases the last one (nothing on an empty address); the
/// configuration is untouched and the editor stays open.
pub proof fn lemma_proxy_editor_edits(s: AppStateView, key: KeyInput)
    requires
        s.mode == Mode::ProxyEditor,
        key.code == KeyCode::Backspace || (key.code is Char && !key.is_ctrl_c()),
    ensures
        key.code == KeyCode::Backspace && s.proxy_input.len() > 0 ==> step(s, key).0.proxy_input
            == s.proxy_input.drop_last() && step(s, key).0.proxy_input.len() + 1 == s.proxy_input.len(),
        key.code == KeyCode::Backspace && s.proxy_input.len() == 0 ==> step(s, key).0.proxy_input == s.proxy_input,
        key.code is Char ==> step(s, key).0.proxy_input == s.proxy_input.push(key.code->Char_0),
        step(s, key).0.mode == Mode::ProxyEditor,
        step(s, key).0.config == s.config,
        step(s, key).1 == EffectView::Nothing,
{
}

/// Typing a character into the proxy editor and erasing it gives the
/// address back.
pub proof fn lemma_proxy_type_then_erase(s: AppStateView, typed: KeyInput, erase: KeyInput)
    requires
        s.mode == Mode::ProxyEditor,
        typed.code is Char,
        !typed.is_ctrl_c(),
        erase.code == KeyCode::Backspace,
    ensures
        step(step(s, typed).0, erase).0.proxy_input == s.proxy_input,
        step(step(s, typed).0, erase).0.config == s.config,
{
    assert(s.proxy_input.push(typed.code->Char_0).drop_last() =~= s.proxy_input);
}

/// Enter in the proxy editor on an accepted address stores it, saves and
/// closes the editor.
pub proof fn lemma_valid_proxy_stored(s: AppStateView, key: KeyInput)
    requires
        s.mode == Mode::ProxyEditor,
        key.code == KeyCode::Enter,
        valid_proxy_url(s.proxy_input),
    ensures
        step(s, key).0.config.proxy_url == s.proxy_input,
        step(s, key).0.config.apps == s.config.apps,
        step(s, key).0.config.env_commands == s.config.env_commands,
        step(s, key).0.mode == Mode::Normal,
        step(s, key).1 == EffectView::SaveConfig,
{
}

// ---------------------------------------------------------------------------
// Paths, bundles and proxy addresses
// ---------------------------------------------------------------------------

/// The file name of `dir/name` is `name`, for any name that is not empty,
/// holds no `/` and is neither `.` nor `..`.
pub proof fn lemma_file_name_of_joined(dir: Seq<char>, name: Seq<char>)
    requires
        name.len() > 0,
        !name.contains('/'),
        name != seq!['.'],
        name != seq!['.', '.'],
    ensures
        path_file_name(dir + seq!['/'] + name) == Some(name),
{
    lemma_split_append(dir, name, '/');
    let pieces = split_on(dir, '/').push(name);
    assert(pieces.drop_last() =~= split_on(dir, '/'));
    assert(pieces.last() == name);
}

/// The bundle `dir/<stem>.app` is named `<stem>`, for any stem that is not
/// empty and holds no `/` (spaces and dots included).
pub proof fn lemma_bundle_name_of_joined(dir: Seq<char>, stem: Seq<char>)
    requires
        stem.len() > 0,
        !stem.contains('/'),
    ensures
        bundle_name(dir + seq!['/'] + (stem + seq!['.', 'a', 'p', 'p'])) == Some(stem),
{
    let f = stem + seq!['.', 'a', 'p', 'p'];
    assert(!f.contains('/')) by {
        if f.contains('/') {
            let k = choose|k: int| 0 <= k < f.len() && f[k] == '/';
            if k < stem.len() {
                assert(stem[k] == '/');
            }
        }
    }
    assert(f != seq!['.']) by {
        assert(f.len() != 1);
    }
    assert(f != seq!['.', '.']) by {
        assert(f.len() != 2);
    }
    lemma_file_name_of_joined(dir, f);
    assert(f.skip(f.len() - 4) =~= seq!['.', 'a', 'p', 'p']);
    assert(f.take(f.len() - 4) =~= stem);
}

/// Every directory entry that is an application bundle is found, under the
/// name its path gives; everything found is such an entry; nothing else is.
pub proof fn lemma_bundles_complete(entries: Seq<Seq<char>>)
    ensures
        forall|i: int|
            0 <= i < entries.len() && #[trigger] bundle_name(entries[i]) is Some ==> bundles_among(entries).contains(
                AppView { name: bundle_name(entries[i])->Some_0, path: entries[i] },
            ),
        forall|k: int|
            0 <= k < bundles_among(entries).len() ==> exists|i: int|
                0 <= i < entries.len() && entries[i] == (#[trigger] bundles_among(entries)[k]).path
                    && bundle_name(entries[i]) == Some(bundles_among(entries)[k].name),
        bundles_among(entries).len() <= entries.len(),
    decreases entries.len(),
{
    if entries.len() > 0 {
        let init = entries.drop_last();
        lemma_bundles_complete(init);
        let found = bundles_among(init);
        let r = bundles_among(entries);
        let e = entries.last();
        assert forall|i: int|
            0 <= i < entries.len() && #[trigger] bundle_name(entries[i]) is Some implies r.contains(
                AppView { name: bundle_name(entries[i])->Some_0, path: entries[i] },
            ) by {
            let a = AppView { name: bundle_name(entries[i])->Some_0, path: entries[i] };
            if i < entries.len() - 1 {
                assert(entries[i] == init[i]);
                assert(bundle_name(init[i]) is Some);
                assert(found.contains(a));
                let k = choose|k: int| 0 <= k < found.len() && found[k] == a;
                assert(r[k] == found[k]);
            } else {
                assert(r[r.len() - 1] == a);
            }
        }
        assert forall|k: int| 0 <= k < r.len() implies exists|i: int|
            0 <= i < entries.len() && entries[i] == (#[trigger] r[k]).path && bundle_name(entries[i]) == Some(
                r[k].name,
            ) by {
            if k < found.len() {
                assert(r[k] == found[k]);
                let i = choose|i: int|
                    0 <= i < init.len() && init[i] == (#[trigger] found[k]).path && bundle_name(init[i]) == Some(
                        found[k].name,
                    );
                assert(entries[i] == init[i]);
            } else {
                assert(entries[entries.len() - 1] == e);
            }
        }
    }
}

/// The schemes of the proxy addresses the editor accepts.
pub open spec fn proxy_schemes() -> Seq<Seq<char>> {
    seq!["http://"@, "https://"@, "socks4://"@, "socks5://"@]
}

/// Whether `h` can follow a scheme: not empty, and no white space in it.
pub open spec fn acceptable_host(h: Seq<char>) -> bool {
    h.len() > 0 && forall|i: int| 0 <= i < h.len() ==> !is_white_space(#[trigger] h[i])
}

/// Every HTTP, HTTPS, SOCKS4 or SOCKS5 address with a host that is not
/// empty and holds no white space is accepted, with a port or without.
pub proof fn lemma_proxy_accepts(k: int, h: Seq<char>)
    requires
        0 <= k < 4,
        acceptable_host(h),
    ensures
        valid_proxy_url(proxy_schemes()[k] + h),
{
    reveal_strlit("http://");
    reveal_strlit("https://");
    reveal_strlit("socks4://");
    reveal_strlit("socks5://");
    let p = proxy_schemes()[k];
    let s = p + h;
    assert(s.take(p.len() as int) =~= p);
    assert(s.skip(p.len() as int) =~= h);
    if k == 1 {
        assert(s[4] == 's');
        assert(s.take(7)[4] != "http://"@[4]);
    } else if k >= 2 {
        assert(s[0] == 's');
        assert(s.take(7)[0] != "http://"@[0]);
        assert(s.take(8)[0] != "https://"@[0]);
        if k == 3 {
            assert(s[5] == '5');
            assert(s.take(9)[5] != "socks4://"@[5]);
        }
    }
}

/// An accepted address is one of the schemes followed by a host that is not
/// empty and holds no white space.
pub proof fn lemma_proxy_accepted_form(s: Seq<char>)
    requires
        valid_proxy_url(s),
    ensures
        exists|k: int, h: Seq<char>| #![trigger proxy_schemes()[k], acceptable_host(h)] 0 <= k < 4 && acceptable_host(h) && s == proxy_schemes()[k] + h,
{
    let schemes = proxy_schemes();
    let k: int = if after_prefix(s, "http://"@) is Some {
        0
    } else if after_prefix(s, "https://"@) is Some {
        1
    } else if after_prefix(s, "socks4://"@) is Some {
        2
    } else {
        3
    };
    let p = schemes[k];
    let h = s.skip(p.len() as int);
    assert(s =~= p + h);
    assert(acceptable_host(h));
}

/// An ASCII search is lowered letter by letter: `A`–`Z` become `a`–`z`
/// (code point plus 32), every other character stays, and the length is
/// kept.
pub proof fn lemma_ascii_search_lowered(q: Seq<char>)
    requires
        is_ascii_text(q),
    ensures
        lowered_query(q).len() == q.len(),
        forall|i: int|
            0 <= i < q.len() && 65 <= (#[trigger] q[i] as u32) <= 90 ==> (lowered_query(q)[i] as u32) == (q[i] as u32)
                + 32,
        forall|i: int|
            0 <= i < q.len() && !(65 <= (#[trigger] q[i] as u32) <= 90) ==> lowered_query(q)[i] == q[i],
{
    assert forall|i: int| 0 <= i < q.len() && 65 <= (#[trigger] q[i] as u32) <= 90 implies (lowered_query(q)[i] as u32)
        == (q[i] as u32) + 32 by {
        let x: u32 = q[i] as u32;
        let b: u8 = (x + 32) as u8;
        assert(b as u32 == x + 32);
        vstd::utf8::char_u32_cast(b as char, (b as char) as u32);
    }
}

// ---------------------------------------------------------------------------
// What the environment editor keeps
// ---------------------------------------------------------------------------

proof fn lemma_trim_start_shape(x: Seq<char>)
    ensures
        exists|k: int| 0 <= k <= x.len() && trim_start(x) == #[trigger] x.skip(k),
        trim_start(x).len() == 0 || !is_white_space(trim_start(x)[0]),
    decreases x.len(),
{
    if x.len() > 0 && is_white_space(x[0]) {
        lemma_trim_start_shape(x.drop_first());
        let k = choose|k: int| 0 <= k <= x.drop_first().len() && trim_start(x.drop_first()) == #[trigger] x.drop_first().skip(k);
        assert(x.drop_first().skip(k) =~= x.skip(k + 1));
    } else {
        assert(x.skip(0) =~= x);
    }
}

proof fn lemma_trim_end_shape(y: Seq<char>)
    ensures
        exists|m: int| 0 <= m <= y.len() && trim_end(y) == #[trigger] y.take(m),
        trim_end(y).len() == 0 || !is_white_space(trim_end(y).last()),
    decreases y.len(),
{
    if y.len() > 0 && is_white_space(y.last()) {
        lemma_trim_end_shape(y.drop_last());
        let m = choose|m: int| 0 <= m <= y.drop_last().len() && trim_end(y.drop_last()) == #[trigger] y.drop_last().take(m);
        assert(y.drop_last().take(m) =~= y.take(m));
    } else {
        assert(y.take(y.len() as int) =~= y);
    }
}

/// A trimmed text begins and ends with something other than white space and
/// is part of the text it came from.
pub proof fn lemma_trim_shape(x: Seq<char>)
    ensures
        trim(x).len() > 0 ==> !is_white_space(trim(x)[0]) && !is_white_space(trim(x).last()),
        trim(trim(x)) == trim(x),
        forall|c: char| #[trigger] trim(x).contains(c) ==> x.contains(c),
{
    lemma_trim_start_shape(x);
    let y = trim_start(x);
    lemma_trim_end_shape(y);
    let t = trim_end(y);
    let k = choose|k: int| 0 <= k <= x.len() && y == #[trigger] x.skip(k);
    let m = choose|m: int| 0 <= m <= y.len() && t == #[trigger] y.take(m);
    if t.len() > 0 {
        assert(t[0] == y[0]);
        assert(trim_start(t) == t);
        assert(trim_end(t) == t);
    } else {
        assert(trim_start(t) == t);
        assert(trim_end(t) == t);
    }
    assert forall|c: char| #[trigger] t.contains(c) implies x.contains(c) by {
        let i = choose|i: int| 0 <= i < t.len() && t[i] == c;
        assert(t[i] == y[i]);
        assert(y[i] == x[i + k]);
    }
}

proof fn lemma_pieces_have_no_sep(s: Seq<char>, sep: char)
    ensures
        forall|i: int| 0 <= i < split_on(s, sep).len() ==> !(#[trigger] split_on(s, sep)[i]).contains(sep),
    decreases s.len(),
{
    if s.len() > 0 {
        let init = s.drop_last();
        lemma_pieces_have_no_sep(init, sep);
        lemma_split_nonempty(init, sep);
        let p = split_on(init, sep);
        let r = split_on(s, sep);
        assert forall|i: int| 0 <= i < r.len() implies !(#[trigger] r[i]).contains(sep) by {
            if s.last() == sep {
                if i < p.len() {
                    assert(r[i] == p[i]);
                } else {
                    assert(r[i] =~= Seq::<char>::empty());
                }
            } else if i < p.len() - 1 {
                assert(r[i] == p[i]);
            } else {
                let q = p.last().push(s.last());
                assert(r[i] == q);
                if q.contains(sep) {
                    let j = choose|j: int| 0 <= j < q.len() && q[j] == sep;
                    if j < q.len() - 1 {
                        assert(p[p.len() - 1][j] == sep);
                    }
                }
            }
        }
    }
}

proof fn lemma_kept_lines(pieces: Seq<Seq<char>>)
    requires
        forall|i: int| 0 <= i < pieces.len() ==> !(#[trigger] pieces[i]).contains('\n'),
    ensures
        forall|i: int| 0 <= i < non_blank_trimmed(pieces).len() ==> clean_command(#[trigger] non_blank_trimmed(pieces)[i]),
        forall|j: int| 0 <= j < pieces.len() && trim(#[trigger] pieces[j]).len() > 0 ==> non_blank_trimmed(pieces).contains(
            trim(pieces[j]),
        ),
    decreases pieces.len(),
{
    if pieces.len() > 0 {
        let init = pieces.drop_last();
        assert forall|i: int| 0 <= i < init.len() implies !(#[trigger] init[i]).contains('\n') by {
            assert(init[i] == pieces[i]);
        }
        lemma_kept_lines(init);
        let kept = non_blank_trimmed(init);
        let r = non_blank_trimmed(pieces);
        let last = pieces.last();
        lemma_trim_shape(last);
        assert(!pieces[pieces.len() - 1].contains('\n'));
        assert forall|i: int| 0 <= i < r.len() implies clean_command(#[trigger] r[i]) by {
            if i < kept.len() {
                assert(r[i] == kept[i]);
            } else {
                assert(r[i] == trim(last));
                if trim(last).contains('\n') {
                    assert(last.contains('\n'));
                }
            }
        }
        assert forall|j: int| 0 <= j < pieces.len() && trim(#[trigger] pieces[j]).len() > 0 implies r.contains(
            trim(pieces[j]),
        ) by {
            if j < pieces.len() - 1 {
                assert(pieces[j] == init[j]);
                let k = choose|k: int| 0 <= k < kept.len() && kept[k] == trim(init[j]);
                assert(r[k] == kept[k]);
            } else {
                assert(r[r.len() - 1] == trim(last));
            }
        }
    }
}

/// What the environment editor keeps of its text: every command is
/// trimmed, not blank and on one line, and every line that is not blank is
/// kept, trimmed.
pub proof fn lemma_env_lines_kept(s: Seq<char>)
    ensures
        forall|i: int| 0 <= i < trimmed_lines(s).len() ==> clean_command(#[trigger] trimmed_lines(s)[i]),
        forall|j: int| 0 <= j < split_on(s, '\n').len() && trim(#[trigger] split_on(s, '\n')[j]).len() > 0
            ==> trimmed_lines(s).contains(trim(split_on(s, '\n')[j])),
        forall|i: int| 0 <= i < trimmed_lines(s).len() ==> (#[trigger] trimmed_lines(s)[i]).len() > 0
            && !is_white_space(trimmed_lines(s)[i][0]) && !is_white_space(trimmed_lines(s)[i].last()),
{
    lemma_pieces_have_no_sep(s, '\n');
    lemma_kept_lines(split_on(s, '\n'));
    assert forall|i: int| 0 <= i < trimmed_lines(s).len() implies (#[trigger] trimmed_lines(s)[i]).len() > 0
        && !is_white_space(trimmed_lines(s)[i][0]) && !is_white_space(trimmed_lines(s)[i].last()) by {
        let c = trimmed_lines(s)[i];
        assert(clean_command(c));
        lemma_trim_shape(c);
    }
}

/// Enter in the environment editor stores what `lemma_env_lines_kept`
/// describes, saves and closes the editor.
pub proof fn lemma_env_enter_stores(s: AppStateView, key: KeyInput)
    requires
        s.mode == Mode::EnvEditor,
        key.code == KeyCode::Enter,
    ensures
        step(s, key).0.config.env_commands == trimmed_lines(s.env_input),
        step(s, key).0.config.apps == s.config.apps,
        step(s, key).0.config.proxy_url == s.config.proxy_url,
        step(s, key).0.mode == Mode::Normal,
        step(s, key).1 == EffectView::SaveConfig,
{
}

// ---------------------------------------------------------------------------
// Comparing paths
// ---------------------------------------------------------------------------

/// A trailing `/` does not change which path is meant.
pub proof fn lemma_trailing_slash_same_path(p: Seq<char>)
    requires
        p.len() > 0,
    ensures
        same_path(p, p + seq!['/']),
{
    let q = p + seq!['/'];
    lemma_split_nonempty(p, '/');
    assert(q.drop_last() =~= p);
    assert(q.last() == '/');
    let pieces = split_on(p, '/').push(Seq::<char>::empty());
    assert(pieces.drop_last() =~= split_on(p, '/'));
    assert(q[0] == p[0]);
}

/// Two bundles whose file names differ are different paths, whatever
/// folders they are in.
pub proof fn lemma_different_names_different_paths(d1: Seq<char>, n1: Seq<char>, d2: Seq<char>, n2: Seq<char>)
    requires
        n1.len() > 0,
        !n1.contains('/'),
        n1 != seq!['.'],
        n1 != seq!['.', '.'],
        n2.len() > 0,
        !n2.contains('/'),
        n2 != seq!['.'],
        n2 != seq!['.', '.'],
        n1 != n2,
    ensures
        !same_path(d1 + seq!['/'] + n1, d2 + seq!['/'] + n2),
{
    lemma_file_name_of_joined(d1, n1);
    lemma_file_name_of_joined(d2, n2);
}

// ---------------------------------------------------------------------------
// Screen texts
// ---------------------------------------------------------------------------

/// The picker marks an application `[x]` exactly when one with the same path
/// is in the user's list, and `[ ]` otherwise, then shows its name.
pub proof fn lemma_picker_marks_listed(config_apps: Seq<AppView>, app: AppView)
    ensures
        picker_item(config_apps, app) == (if exists|k: int|
            0 <= k < config_apps.len() && same_path(#[trigger] config_apps[k].path, app.path) {
            "[x]"@
        } else {
            "[ ]"@
        }) + "  "@ + app.name,
{
}

/// The details panel of a selected application starts with its name, its
/// version (or "unknown") and its path, each on a line of its own.
pub proof fn lemma_details_of_selected(config: ConfigView, selected: nat, version: Option<Seq<char>>)
    requires
        selected < config.apps.len(),
    ensures
        ({
            let app = config.apps[selected as int];
            let head = "名称: "@ + app.name + "\n版本: "@ + (match version {
                Some(v) => v,
                None => "未知"@,
            }) + "\n路径: "@ + app.path;
            details(config, selected, version).take(head.len() as int) == head
        }),
{
    let app = config.apps[selected as int];
    let label = match version {
        Some(v) => v,
        None => "未知"@,
    };
    let head = "名称: "@ + app.name + "\n版本: "@ + label + "\n路径: "@ + app.path;
    let env = if config.env_commands.len() == 0 {
        "无"@
    } else {
        join_text(config.env_commands, ", "@)
    };
    let global = if config.global_commands.len() == 0 {
        Seq::<char>::empty()
    } else {
        "\n全局命令: "@ + decimal(config.global_commands.len()) + " 条"@
    };
    let rest = "\n环境命令: "@ + env + global + "\n\n[Enter] 通过代理启动\n[C]     复制启动命令"@;
    assert(details(config, selected, version) =~= head + rest);
    assert((head + rest).take(head.len() as int) =~= head);
}

/// The number the digits stand for.
pub open spec fn digits_value(s: Seq<char>) -> int
    decreases s.len(),
{
    if s.len() == 0 {
        0
    } else {
        digits_value(s.drop_last()) * 10 + ((s.last() as u32) - 48)
    }
}

/// The decimal text of a number is made of the digits `0`–`9`, reads back as
/// that number, and has no leading zero (except for zero itself).
pub proof fn lemma_decimal_reads_back(n: nat)
    ensures
        digits_value(decimal(n)) == n,
        decimal(n).len() > 0,
        forall|i: int| 0 <= i < decimal(n).len() ==> 48 <= (#[trigger] decimal(n)[i] as u32) <= 57,
        decimal(n).len() > 1 ==> decimal(n)[0] != '0',
        n >= 10 ==> decimal(n).len() > 1,
    decreases n,
{
    let digits = seq!['0', '1', '2', '3', '4', '5', '6', '7', '8', '9'];
    assert forall|d: int| 0 <= d < 10 implies (#[trigger] digits[d] as u32) == 48 + d by {
        if d == 0 { assert(digits[0] == '0'); }
        else if d == 1 { assert(digits[1] == '1'); }
        else if d == 2 { assert(digits[2] == '2'); }
        else if d == 3 { assert(digits[3] == '3'); }
        else if d == 4 { assert(digits[4] == '4'); }
        else if d == 5 { assert(digits[5] == '5'); }
        else if d == 6 { assert(digits[6] == '6'); }
        else if d == 7 { assert(digits[7] == '7'); }
        else if d == 8 { assert(digits[8] == '8'); }
        else { assert(digits[9] == '9'); }
    }
    if n < 10 {
        assert(digit_char(n) == digits[n as int]);
        assert((digits[n as int] as u32) == 48 + n);
        assert(decimal(n) =~= seq![digit_char(n)]);
        assert(decimal(n).drop_last() =~= Seq::<char>::empty());
        assert(decimal(n).last() == digit_char(n));
        assert(digits_value(decimal(n)) == digits_value(Seq::<char>::empty()) * 10 + ((digit_char(n) as u32) - 48));
    } else {
        let hi = (n / 10) as nat;
        let lo = (n % 10) as nat;
        lemma_decimal_reads_back(hi);
        assert(digit_char(lo) == digits[lo as int]);
        let d = decimal(n);
        assert(d == decimal(hi).push(digit_char(lo)));
        assert(d.drop_last() =~= decimal(hi));
        assert(d.last() == digit_char(lo));
        assert((digits[lo as int] as u32) == 48 + lo);
        assert(n == hi * 10 + lo);
        assert(digits_value(d) == digits_value(decimal(hi)) * 10 + ((digit_char(lo) as u32) - 48));
        assert forall|i: int| 0 <= i < d.len() implies 48 <= (#[trigger] d[i] as u32) <= 57 by {
            if i < decimal(hi).len() {
                assert(d[i] == decimal(hi)[i]);
            }
        }
        if decimal(hi).len() > 1 {
            assert(d[0] == decimal(hi)[0]);
        } else {
            assert(d[0] == decimal(hi)[0]);
            assert(hi >= 1);
            assert(hi < 10);
            assert(decimal(hi) =~= seq![digit_char(hi)]);
            assert(digit_char(hi) == digits[hi as int]);
            assert((digits[hi as int] as u32) == 48 + hi);
        }
    }
}

/// The cursor of the environment editor on a single line stands on the first
/// line, after its bytes.
pub proof fn lemma_cursor_single_line(s: Seq<char>)
    requires
        s.len() > 0,
        !s.contains('\n'),
    ensures
        cursor_at_end(s) == (0nat, vstd::utf8::encode_utf8(s).len()),
{
    lemma_split_no_sep(s, '\n');
    let pieces = seq![s];
    assert(pieces.drop_last().map_values(|l: Seq<char>| without_cr(l)) =~= Seq::<Seq<char>>::empty());
    assert(text_lines(s) =~= seq![s]);
}

/// A fresh configuration points the three proxy variables at the default
/// proxy address, which the proxy editor accepts, and lists no applications.
pub proof fn lemma_default_config_consistent()
    ensures
        default_config().env_commands == seq![
            "HTTP_PROXY="@ + default_config().proxy_url,
            "HTTPS_PROXY="@ + default_config().proxy_url,
            "ALL_PROXY="@ + default_config().proxy_url,
        ],
        valid_proxy_url(default_config().proxy_url),
        default_config().apps.len() == 0,
        default_config().global_commands.len() == 0,
{
    reveal_strlit("http://127.0.0.1:7890");
    reveal_strlit("HTTP_PROXY=http://127.0.0.1:7890");
    reveal_strlit("HTTPS_PROXY=http://127.0.0.1:7890");
    reveal_strlit("ALL_PROXY=http://127.0.0.1:7890");
    reveal_strlit("HTTP_PROXY=");
    reveal_strlit("HTTPS_PROXY=");
    reveal_strlit("ALL_PROXY=");
    reveal_strlit("http://");
    reveal_strlit("127.0.0.1:7890");
    let url = "http://127.0.0.1:7890"@;
    assert("HTTP_PROXY=http://127.0.0.1:7890"@ =~= "HTTP_PROXY="@ + url);
    assert("HTTPS_PROXY=http://127.0.0.1:7890"@ =~= "HTTPS_PROXY="@ + url);
    assert("ALL_PROXY=http://127.0.0.1:7890"@ =~= "ALL_PROXY="@ + url);
    let host = "127.0.0.1:7890"@;
    assert(url =~= proxy_schemes()[0] + host);
    assert forall|i: int| 0 <= i < host.len() implies !is_white_space(#[trigger] host[i]) by {
        assert(48 <= (host[i] as u32) <= 58 || host[i] == '.');
    }
    lemma_proxy_accepts(0, host);
}

} // verus!
