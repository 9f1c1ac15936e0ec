//! What holds of every run of the application, whatever the keys pressed.
use vstd::prelude::*;

use crate::apps::{
    dedup_paths, lemma_dedup_paths, lemma_sort_by_name, no_adjacent_same_path, sort_by_name,
    sorted_by_name,
};
use crate::config::{AppView, ConfigView};
use crate::key::{KeyCode, KeyInput};
use crate::path::same_path;
use crate::proxy::valid_proxy_url;
use crate::state::{
    ascii_lower, delete_prompt, filter_apps, is_ascii_text, lowered_query, initial_state, invalid_proxy_message, launch_failure,
    launch_reported, matching_apps, name_matches, quit_prompt, step, AppStateView, EffectView, Mode,
};
use crate::screen::{text_lines, without_cr};
use crate::text::{
    is_white_space, join_with, lemma_split_join, lemma_split_nonempty, lowercase, non_blank_trimmed, split_on, trim, trim_end,
    trim_start, trimmed_lines,
};

verus! {

/// The state's indices point into their lists (or are zero), and the picker
/// shows exactly the installed applications that match the search.
pub open spec fn state_wf(s: AppStateView) -> bool {
    &&& (s.selected_index == 0 || s.selected_index < s.config.apps.len())
    &&& (s.app_selector_index == 0 || s.app_selector_index < s.filtered_apps.len())
    &&& s.filtered_apps == filter_apps(s.all_apps, s.search_query)
}

/// No two of the applications have the same path.
pub open spec fn distinct_paths(apps: Seq<AppView>) -> bool {
    forall|i: int, j: int|
        0 <= i < apps.len() && 0 <= j < apps.len() && i != j ==> !same_path(
            #[trigger] apps[i].path,
            #[trigger] apps[j].path,
        )
}

/// Whether the key asks to quit on the screen that has the keyboard.
pub open spec fn is_quit_key(s: AppStateView, key: KeyInput) -> bool {
    key.is_ctrl_c() || (s.mode == Mode::Normal && key.code == KeyCode::Char('q'))
}

/// The state a program starts in is well formed.
pub proof fn lemma_initial_state_wf(config: ConfigView, all_apps: Seq<AppView>)
    ensures
        state_wf(initial_state(config, all_apps)),
{
}

/// Every key press keeps the state well formed: the selection never leaves
/// the list, and the picker always shows what the search selects.
pub proof fn lemma_step_keeps_wf(s: AppStateView, key: KeyInput)
    requires
        state_wf(s),
    ensures
        state_wf(step(s, key).0),
{
}

/// A single quit request never quits: the first one only asks for
/// confirmation.
pub proof fn lemma_quit_needs_confirmation(s: AppStateView, key: KeyInput)
    requires
        !s.pending_quit,
        !s.should_quit,
    ensures
        !step(s, key).0.should_quit,
        is_quit_key(s, key) ==> step(s, key).0.pending_quit && step(s, key).0.pending_quit_message
            == quit_prompt(),
{
}

/// A quit request while one is pending quits.
pub proof fn lemma_confirmed_quit(s: AppStateView, key: KeyInput)
    requires
        s.pending_quit,
        is_quit_key(s, key),
    ensures
        step(s, key).0.should_quit,
{
}

/// Once the program is to quit, no key press changes that.
pub proof fn lemma_quit_is_final(s: AppStateView, key: KeyInput)
    requires
        s.should_quit,
    ensures
        step(s, key).0.should_quit,
{
}

/// Two quit presses in a row on the application list quit the program.
pub proof fn lemma_double_quit(s: AppStateView, key1: KeyInput, key2: KeyInput)
    requires
        s.mode == Mode::Normal,
        is_quit_key(s, key1),
        key2.is_ctrl_c() || key2.code == KeyCode::Char('q'),
    ensures
        step(step(s, key1).0, key2).0.should_quit,
{
}

/// Adding and removing applications never puts two with the same path in
/// the list.
pub proof fn lemma_paths_stay_distinct(s: AppStateView, key: KeyInput)
    requires
        distinct_paths(s.config.apps),
    ensures
        distinct_paths(step(s, key).0.config.apps),
{
    let t = step(s, key).0;
    if s.mode == Mode::Normal && key.code == KeyCode::Char('d') && !key.is_ctrl_c()
        && s.selected_index < s.config.apps.len() && s.pending_delete {
        let k = s.selected_index as int;
        let a = s.config.apps;
        let r = a.remove(k);
        assert(t.config.apps == r);
        assert forall|i: int, j: int|
            0 <= i < r.len() && 0 <= j < r.len() && i != j implies !same_path(
                #[trigger] r[i].path,
                #[trigger] r[j].path,
            ) by {
            let i2 = if i < k { i } else { i + 1 };
            let j2 = if j < k { j } else { j + 1 };
            assert(r[i] == a[i2]);
            assert(r[j] == a[j2]);
            assert(!same_path(a[i2].path, a[j2].path));
        }
    }
}

/// Every application the picker shows is installed and, for a non-empty
/// search, has the search text in its name, ignoring case; every installed
/// application that matches is shown.
pub proof fn lemma_filter_apps(apps: Seq<AppView>, query: Seq<char>)
    ensures
        forall|i: int| 0 <= i < filter_apps(apps, query).len() ==> apps.contains(#[trigger] filter_apps(apps, query)[i]),
        query.len() > 0 ==> forall|i: int| 0 <= i < filter_apps(apps, query).len()
            ==> name_matches(#[trigger] filter_apps(apps, query)[i].name, lowered_query(query)),
        forall|i: int| 0 <= i < apps.len() && (query.len() == 0 || name_matches(apps[i].name, lowered_query(query)))
            ==> filter_apps(apps, query).contains(#[trigger] apps[i]),
{
    if query.len() > 0 {
        lemma_matching_apps(apps, lowered_query(query));
    } else {
        assert forall|i: int| 0 <= i < apps.len() implies apps.contains(#[trigger] apps[i]) by {}
    }
}

proof fn lemma_matching_apps(apps: Seq<AppView>, lq: Seq<char>)
    ensures
        forall|i: int| 0 <= i < matching_apps(apps, lq).len() ==> apps.contains(#[trigger] matching_apps(apps, lq)[i]),
        forall|i: int| 0 <= i < matching_apps(apps, lq).len() ==> name_matches(#[trigger] matching_apps(apps, lq)[i].name, lq),
        forall|i: int| 0 <= i < apps.len() && name_matches(apps[i].name, lq) ==> matching_apps(apps, lq).contains(#[trigger] apps[i]),
    decreases apps.len(),
{
    if apps.len() > 0 {
        let init = apps.drop_last();
        lemma_matching_apps(init, lq);
        let m = matching_apps(apps, lq);
        let mi = matching_apps(init, lq);
        assert forall|i: int| 0 <= i < m.len() implies apps.contains(#[trigger] m[i]) by {
            if i < mi.len() {
                assert(m[i] == mi[i]);
                let k = choose|k: int| 0 <= k < init.len() && init[k] == mi[i];
                assert(apps[k] == init[k]);
            } else {
                assert(apps[apps.len() - 1] == m[i]);
            }
        }
        assert forall|i: int| 0 <= i < m.len() implies name_matches(#[trigger] m[i].name, lq) by {
            if i < mi.len() {
                assert(m[i] == mi[i]);
            }
        }
        assert forall|i: int| 0 <= i < apps.len() && name_matches(apps[i].name, lq) implies m.contains(#[trigger] apps[i]) by {
            if i < apps.len() - 1 {
                assert(apps[i] == init[i]);
                assert(mi.contains(init[i]));
                let k = choose|k: int| 0 <= k < mi.len() && mi[k] == init[i];
                assert(m[k] == mi[k]);
            } else {
                assert(m[m.len() - 1] == apps[i]);
            }
        }
    }
}

/// Removing an application takes two presses of `d`: a single key press on
/// the list never changes the configuration unless a removal was offered.
pub proof fn lemma_delete_needs_confirmation(s: AppStateView, key: KeyInput)
    requires
        s.mode == Mode::Normal,
        !s.pending_delete,
    ensures
        step(s, key).0.config == s.config,
        key.code == KeyCode::Char('d') && !key.is_ctrl_c() && s.selected_index < s.config.apps.len()
            ==> step(s, key).0.pending_delete && step(s, key).0.status_message == delete_prompt(
            s.config.apps[s.selected_index as int].name,
        ),
{
}

/// A second `d` after the question removes the selected application, and
/// only it, and saves.
pub proof fn lemma_confirmed_delete(s: AppStateView, key: KeyInput)
    requires
        s.mode == Mode::Normal,
        s.pending_delete,
        s.selected_index < s.config.apps.len(),
        key.code == KeyCode::Char('d'),
    ensures
        step(s, key).0.config.apps == s.config.apps.remove(s.selected_index as int),
        step(s, key).0.config.apps.len() + 1 == s.config.apps.len(),
        forall|i: int| 0 <= i < s.selected_index ==> step(s, key).0.config.apps[i] == #[trigger] s.config.apps[i],
        forall|i: int|
            s.selected_index < i < s.config.apps.len() ==> step(s, key).0.config.apps[i - 1] == #[trigger] s.config.apps[i],
        step(s, key).0.selected_index == if s.selected_index + 1 < s.config.apps.len() || s.selected_index == 0 {
            s.selected_index
        } else {
            (s.selected_index - 1) as nat
        },
        step(s, key).1 == EffectView::SaveConfig,
        !step(s, key).0.pending_delete,
        step(s, key).0.config.proxy_url == s.config.proxy_url,
        step(s, key).0.config.env_commands == s.config.env_commands,
{
}

/// A failed launch is reported with the application's name and its removal
/// offered: a following `d` removes it. The list is unchanged until then.
pub proof fn lemma_failed_launch_offers_removal(s: AppStateView, key: KeyInput)
    requires
        s.mode == Mode::Normal,
        s.selected_index < s.config.apps.len(),
        key.code == KeyCode::Char('d'),
    ensures
        launch_reported(s, false).config == s.config,
        launch_reported(s, false).status_message == launch_failure(s.config.apps[s.selected_index as int].name),
        step(launch_reported(s, false), key).0.config.apps == s.config.apps.remove(s.selected_index as int),
        launch_reported(s, true) == s,
{
}

/// Reporting a launch keeps the state well formed.
pub proof fn lemma_report_keeps_wf(s: AppStateView, succeeded: bool)
    requires
        state_wf(s),
    ensures
        state_wf(launch_reported(s, succeeded)),
{
}

/// An address that is not an HTTP or SOCKS proxy is refused: the editor
/// stays open with an error, the configuration is kept and nothing is saved.
pub proof fn lemma_invalid_proxy_refused(s: AppStateView, key: KeyInput)
    requires
        s.mode == Mode::ProxyEditor,
        key.code == KeyCode::Enter,
        !valid_proxy_url(s.proxy_input),
    ensures
        step(s, key).0.config == s.config,
        step(s, key).0.mode == Mode::ProxyEditor,
        step(s, key).0.status_message == invalid_proxy_message(),
        step(s, key).1 == EffectView::Nothing,
{
}

/// Every proxy address the editor stores is an HTTP or SOCKS one.
pub proof fn lemma_stored_proxy_valid(s: AppStateView, key: KeyInput)
    requires
        s.mode == Mode::ProxyEditor,
        step(s, key).0.config.proxy_url != s.config.proxy_url,
    ensures
        valid_proxy_url(step(s, key).0.config.proxy_url),
{
}

/// Typing a character into the picker's search and erasing it again gives
/// back the search and the list shown.
pub proof fn lemma_type_then_erase(s: AppStateView, typed: KeyInput, erase: KeyInput)
    requires
        state_wf(s),
        s.mode == Mode::AppSelector,
        typed.code is Char,
        typed.code != KeyCode::Char('j'),
        typed.code != KeyCode::Char('k'),
        !typed.is_ctrl_c(),
        erase.code == KeyCode::Backspace,
    ensures
        step(step(s, typed).0, erase).0.search_query == s.search_query,
        step(step(s, typed).0, erase).0.filtered_apps == s.filtered_apps,
        step(step(s, typed).0, erase).0.app_selector_index == 0,
        step(step(s, typed).0, erase).0.config == s.config,
        step(step(s, typed).0, erase).0.mode == Mode::AppSelector,
{
    let c = typed.code->Char_0;
    assert(s.search_query.push(c).drop_last() =~= s.search_query);
}

proof fn lemma_matching_narrows(apps: Seq<AppView>, l1: Seq<char>, l2: Seq<char>)
    requires
        l1.len() <= l2.len(),
        l2.take(l1.len() as int) == l1,
    ensures
        matching_apps(matching_apps(apps, l1), l2) == matching_apps(apps, l2),
    decreases apps.len(),
{
    if apps.len() > 0 {
        let init = apps.drop_last();
        lemma_matching_narrows(init, l1, l2);
        let a = apps.last();
        if name_matches(a.name, l2) {
            let hay = lowercase(a.name);
            let i = choose|i: int| 0 <= i && i + l2.len() <= hay.len() && #[trigger] hay.subrange(i, i + l2.len()) == l2;
            assert(hay.subrange(i, i + l1.len()) =~= l2.take(l1.len() as int));
            assert(name_matches(a.name, l1));
        }
        let m1 = matching_apps(apps, l1);
        if name_matches(a.name, l1) {
            assert(m1.drop_last() =~= matching_apps(init, l1));
        }
    }
}

/// Typing one more ASCII character into an ASCII search only narrows the
/// picker's list: the new list is the old one with the applications that no
/// longer match dropped, so each of them was shown before, in the same order.
pub proof fn lemma_typing_narrows(s: AppStateView, typed: KeyInput)
    requires
        state_wf(s),
        s.mode == Mode::AppSelector,
        typed.code is Char,
        typed.code != KeyCode::Char('j'),
        typed.code != KeyCode::Char('k'),
        !typed.is_ctrl_c(),
        is_ascii_text(s.search_query),
        (typed.code->Char_0 as u32) < 128,
    ensures
        step(s, typed).0.filtered_apps == matching_apps(
            s.filtered_apps,
            lowered_query(s.search_query.push(typed.code->Char_0)),
        ),
        forall|i: int| 0 <= i < step(s, typed).0.filtered_apps.len()
            ==> s.filtered_apps.contains(#[trigger] step(s, typed).0.filtered_apps[i]),
{
    let q = s.search_query;
    let c = typed.code->Char_0;
    let q2 = q.push(c);
    assert(is_ascii_text(q2)) by {
        assert forall|i: int| 0 <= i < q2.len() implies (#[trigger] q2[i] as u32) < 128 by {
            if i < q.len() {
                assert(q2[i] == q[i]);
            }
        }
    }
    let l1 = q.map_values(|x: char| ascii_lower(x));
    let l2 = q2.map_values(|x: char| ascii_lower(x));
    assert(l2.take(l1.len() as int) =~= l1);
    if q.len() > 0 {
        lemma_matching_narrows(s.all_apps, l1, l2);
    }
    lemma_matching_apps(s.filtered_apps, l2);
}

/// A command as the environment editor keeps it: trimmed, not blank, on one
/// line.
pub open spec fn clean_command(c: Seq<char>) -> bool {
    trim(c) == c && c.len() > 0 && !c.contains('\n')
}

proof fn lemma_trim_empty()
    ensures
        trim(Seq::<char>::empty()) == Seq::<char>::empty(),
{
    assert(trim_start(Seq::<char>::empty()) == Seq::<char>::empty());
    assert(trim_end(Seq::<char>::empty()) == Seq::<char>::empty());
}

proof fn lemma_clean_pieces_kept(pieces: Seq<Seq<char>>)
    requires
        forall|i: int| 0 <= i < pieces.len() ==> clean_command(#[trigger] pieces[i]),
    ensures
        non_blank_trimmed(pieces) == pieces,
    decreases pieces.len(),
{
    if pieces.len() > 0 {
        let init = pieces.drop_last();
        assert forall|i: int| 0 <= i < init.len() implies clean_command(#[trigger] init[i]) by {
            assert(init[i] == pieces[i]);
        }
        lemma_clean_pieces_kept(init);
        assert(clean_command(pieces[pieces.len() - 1]));
        assert(init.push(pieces.last()) =~= pieces);
    }
}

/// Appending white space changes nothing that trimming keeps.
proof fn lemma_trim_push_white(p: Seq<char>, c: char)
    requires
        is_white_space(c),
    ensures
        trim(p.push(c)) == trim(p),
    decreases p.len(),
{
    if p.len() == 0 {
        assert(p.push(c).drop_first() =~= Seq::<char>::empty());
        assert(trim_start(Seq::<char>::empty()) == Seq::<char>::empty());
    } else if is_white_space(p[0]) {
        assert(p.push(c).drop_first() =~= p.drop_first().push(c));
        lemma_trim_push_white(p.drop_first(), c);
    } else {
        assert(p.push(c)[0] == p[0]);
        assert(trim_start(p.push(c)) == p.push(c));
        assert(p.push(c).drop_last() =~= p);
    }
}

proof fn lemma_non_blank_without_cr(pieces: Seq<Seq<char>>)
    ensures
        non_blank_trimmed(pieces.map_values(|l: Seq<char>| without_cr(l))) == non_blank_trimmed(pieces),
    decreases pieces.len(),
{
    let mapped = pieces.map_values(|l: Seq<char>| without_cr(l));
    if pieces.len() > 0 {
        let init = pieces.drop_last();
        lemma_non_blank_without_cr(init);
        assert(mapped.drop_last() =~= init.map_values(|l: Seq<char>| without_cr(l)));
        let last = pieces.last();
        assert(mapped.last() == without_cr(last));
        if last.len() > 0 && last.last() == '\r' {
            assert(last.drop_last().push('\r') =~= last);
            lemma_trim_push_white(last.drop_last(), '\r');
        }
    }
}

/// What the environment editor keeps of its text is what `str::lines`
/// yields of it, each line trimmed and blank lines dropped.
pub proof fn lemma_trimmed_lines_are_lines(s: Seq<char>)
    ensures
        non_blank_trimmed(text_lines(s)) == trimmed_lines(s),
{
    let pieces = split_on(s, '\n');
    lemma_split_nonempty(s, '\n');
    let init = pieces.drop_last();
    let ended = init.map_values(|l: Seq<char>| without_cr(l));
    lemma_non_blank_without_cr(init);
    assert(pieces.drop_last() == init);
    if pieces.last().len() == 0 {
        lemma_trim_empty();
        assert(text_lines(s) == ended);
    } else {
        assert(text_lines(s) == ended.push(pieces.last()));
        assert(ended.push(pieces.last()).drop_last() =~= ended);
        assert(ended.push(pieces.last()).last() == pieces.last());
    }
}

/// Reading back what the environment editor shows gives the commands it was
/// given, when each is trimmed, not blank and on one line.
pub proof fn lemma_env_text_round_trip(cmds: Seq<Seq<char>>)
    requires
        forall|i: int| 0 <= i < cmds.len() ==> clean_command(#[trigger] cmds[i]),
    ensures
        trimmed_lines(join_with(cmds, '\n')) == cmds,
{
    if cmds.len() == 0 {
        lemma_trim_empty();
        assert(split_on(Seq::<char>::empty(), '\n') == seq![Seq::<char>::empty()]);
        let one = seq![Seq::<char>::empty()];
        assert(one.drop_last() =~= Seq::<Seq<char>>::empty());
        assert(one.last() == Seq::<char>::empty());
        assert(non_blank_trimmed(one.drop_last()) == Seq::<Seq<char>>::empty());
        assert(non_blank_trimmed(seq![Seq::<char>::empty()]) =~= Seq::<Seq<char>>::empty());
    } else {
        assert forall|i: int| 0 <= i < cmds.len() implies !(#[trigger] cmds[i]).contains('\n') by {
            assert(clean_command(cmds[i]));
        }
        lemma_split_join(cmds, '\n');
        lemma_clean_pieces_kept(cmds);
    }
}

/// Opening the environment editor and confirming at once leaves the
/// configuration as it was, when its commands are as the editor keeps them.
pub proof fn lemma_env_editor_round_trip(s: AppStateView, open: KeyInput, confirm: KeyInput)
    requires
        s.mode == Mode::Normal,
        open.code == KeyCode::Char('v'),
        confirm.code == KeyCode::Enter,
        forall|i: int| 0 <= i < s.config.env_commands.len() ==> clean_command(#[trigger] s.config.env_commands[i]),
    ensures
        step(step(s, open).0, confirm).0.config == s.config,
        step(step(s, open).0, confirm).0.mode == Mode::Normal,
{
    lemma_env_text_round_trip(s.config.env_commands);
}

/// Opening the proxy editor and confirming at once leaves the configuration
/// as it was, when its proxy address is one the editor accepts.
pub proof fn lemma_proxy_editor_round_trip(s: AppStateView, open: KeyInput, confirm: KeyInput)
    requires
        s.mode == Mode::Normal,
        valid_proxy_url(s.config.proxy_url),
        open.code == KeyCode::Char('e'),
        confirm.code == KeyCode::Enter,
    ensures
        step(step(s, open).0, confirm).0.config == s.config,
        step(step(s, open).0, confirm).0.mode == Mode::Normal,
{
}

/// Escape leaves the picker or an editor for the application list, and the
/// configuration unchanged.
pub proof fn lemma_escape_keeps_config(s: AppStateView, key: KeyInput)
    requires
        s.mode != Mode::Normal,
        key.code == KeyCode::Esc,
    ensures
        step(s, key).0.config == s.config,
        step(s, key).0.mode == Mode::Normal,
{
}

/// The applications found on disk come out in order of name, with no two
/// neighbours at the same path, and each of them was found.
pub proof fn lemma_scan_order(found: Seq<AppView>)
    ensures
        sorted_by_name(dedup_paths(sort_by_name(found))),
        no_adjacent_same_path(dedup_paths(sort_by_name(found))),
        forall|i: int| 0 <= i < dedup_paths(sort_by_name(found)).len()
            ==> found.contains(#[trigger] dedup_paths(sort_by_name(found))[i]),
{
    broadcast use vstd::seq_lib::group_seq_properties;
    lemma_sort_by_name(found);
    lemma_dedup_paths(sort_by_name(found));
    let sorted = sort_by_name(found);
    let r = dedup_paths(sorted);
    assert forall|i: int| 0 <= i < r.len() implies found.contains(#[trigger] r[i]) by {
        assert(sorted.contains(r[i]));
        assert(sorted.to_multiset().count(r[i]) > 0);
        assert(found.to_multiset().count(r[i]) > 0);
    }
}

proof fn lemma_dedup_covers(s: Seq<AppView>)
    ensures
        forall|i: int| 0 <= i < s.len() ==> exists|k: int|
            0 <= k < dedup_paths(s).len() && same_path(#[trigger] dedup_paths(s)[k].path, (#[trigger] s[i]).path),
    decreases s.len(),
{
    if s.len() > 0 {
        let init = s.drop_last();
        lemma_dedup_covers(init);
        let kept = dedup_paths(init);
        let r = dedup_paths(s);
        assert forall|i: int| 0 <= i < s.len() implies exists|k: int|
            0 <= k < r.len() && same_path(#[trigger] r[k].path, (#[trigger] s[i]).path) by {
            if i < s.len() - 1 {
                assert(s[i] == init[i]);
                let k = choose|k: int| 0 <= k < kept.len() && same_path(#[trigger] kept[k].path, init[i].path);
                assert(r[k] == kept[k]);
                assert(same_path(r[k].path, s[i].path));
            } else if kept.len() > 0 && same_path(s.last().path, kept.last().path) {
                assert(r[kept.len() - 1] == kept.last());
                assert(same_path(r[kept.len() - 1].path, s[i].path));
            } else {
                assert(r[r.len() - 1] == s.last());
                assert(same_path(r[r.len() - 1].path, s[i].path));
            }
        }
    }
}

/// Nothing found on disk is lost: every found application's path is in the
/// scan's result.
pub proof fn lemma_scan_keeps_every_path(found: Seq<AppView>)
    ensures
        forall|i: int| 0 <= i < found.len() ==> exists|k: int|
            0 <= k < dedup_paths(sort_by_name(found)).len() && same_path(
                #[trigger] dedup_paths(sort_by_name(found))[k].path,
                (#[trigger] found[i]).path,
            ),
{
    broadcast use vstd::seq_lib::group_seq_properties;
    lemma_sort_by_name(found);
    let sorted = sort_by_name(found);
    lemma_dedup_covers(sorted);
    let r = dedup_paths(sorted);
    assert forall|i: int| 0 <= i < found.len() implies exists|k: int|
        0 <= k < r.len() && same_path(#[trigger] r[k].path, (#[trigger] found[i]).path) by {
        assert(found.contains(found[i]));
        assert(found.to_multiset().count(found[i]) > 0);
        assert(sorted.to_multiset().count(found[i]) > 0);
        assert(sorted.contains(found[i]));
        let j = choose|j: int| 0 <= j < sorted.len() && sorted[j] == found[i];
        let k = choose|k: int| 0 <= k < r.len() && same_path(#[trigger] r[k].path, sorted[j].path);
    }
}

} // verus!
