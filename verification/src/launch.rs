//! How an application is started through the proxy, and the shell command
//! that does the same.
use vstd::prelude::*;

use crate::config::{App, AppView};
use crate::path::{file_name, path_file_name};
use crate::text::{join_strings, join_text, strings_view};

verus! {

broadcast use vstd::string::group_string_axioms;

/// The name `open` is given for an application: the file name of its
/// bundle, or `"App"` when the path has none.
pub open spec fn open_target(app: AppView) -> Seq<char> {
    match path_file_name(app.path) {
        Some(f) => f,
        None => "App"@,
    }
}

/// The arguments of `env` that start a new instance of the application with
/// the environment commands (`KEY=VALUE`) set and the proxy server passed on
/// its command line: `env K=V… open -na <bundle> --args --proxy-server=<url>`.
pub open spec fn launch_args(app: AppView, proxy_url: Seq<char>, env_commands: Seq<Seq<char>>) -> Seq<Seq<char>> {
    env_commands + seq!["open"@, "-na"@, open_target(app), "--args"@, "--proxy-server="@ + proxy_url]
}

/// The `open` part of the shell command.
pub open spec fn open_command(app: AppView, proxy_url: Seq<char>) -> Seq<char> {
    "open -na \""@ + open_target(app) + "\" --args --proxy-server=\""@ + proxy_url + "\""@
}

/// The shell command that starts the application through the proxy, with the
/// environment commands set in front through `env` when there are any.
pub open spec fn launch_command(app: AppView, proxy_url: Seq<char>, env_commands: Seq<Seq<char>>) -> Seq<char> {
    if env_commands.len() == 0 {
        open_command(app, proxy_url)
    } else {
        "env "@ + join_text(env_commands, " "@) + " "@ + open_command(app, proxy_url)
    }
}

/// The name `open` is given for `app`.
pub fn app_open_target(app: &App) -> (r: String)
    ensures
        r@ == open_target(app@),
{
    match file_name(app.path.as_str()) {
        Some(f) => f,
        None => String::from_str("App"),
    }
}

/// The arguments for `env` that start `app` with the environment commands
/// set and `--proxy-server=<proxy_url>` passed.
pub fn launch_arguments(app: &App, proxy_url: &str, env_commands: &Vec<String>) -> (r: Vec<String>)
    ensures
        strings_view(r@) == launch_args(app@, proxy_url@, strings_view(env_commands@)),
{
    let mut args: Vec<String> = Vec::new();
    let n = env_commands.len();
    for k in 0..n
        invariant
            n == env_commands.len(),
            strings_view(args@) == strings_view(env_commands@).take(k as int),
    {
        let ghost prev = strings_view(args@);
        args.push(env_commands[k].clone());
        assert(strings_view(args@) =~= prev.push(env_commands@[k as int]@));
        assert(strings_view(env_commands@).take(k + 1) =~= strings_view(env_commands@).take(k as int).push(
            env_commands@[k as int]@,
        ));
    }
    assert(strings_view(env_commands@).take(n as int) =~= strings_view(env_commands@));
    args.push(String::from_str("open"));
    args.push(String::from_str("-na"));
    args.push(app_open_target(app));
    args.push(String::from_str("--args"));
    let mut flag = String::from_str("--proxy-server=");
    flag.append(proxy_url);
    args.push(flag);
    assert(strings_view(args@) =~= launch_args(app@, proxy_url@, strings_view(env_commands@)));
    args
}

/// The shell command that starts `app` through the proxy at `proxy_url`:
/// `open -na "<bundle>" --args --proxy-server="<proxy_url>"`, preceded by
/// `env` and the environment commands when there are any.
pub fn get_launch_command(app: &App, proxy_url: &str, env_commands: &Vec<String>) -> (r: String)
    ensures
        r@ == launch_command(app@, proxy_url@, strings_view(env_commands@)),
{
    let target = app_open_target(app);
    let mut cmd = if env_commands.len() == 0 {
        String::new()
    } else {
        let mut prefix = String::from_str("env ");
        let joined = join_strings(env_commands, " ");
        prefix.append(joined.as_str());
        prefix.append(" ");
        prefix
    };
    cmd.append("open -na \"");
    cmd.append(target.as_str());
    cmd.append("\" --args --proxy-server=\"");
    cmd.append(proxy_url);
    cmd.append("\"");
    cmd
}

} // verus!
