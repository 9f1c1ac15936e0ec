//! The saved configuration: the proxy address, the environment commands and
//! the applications the user keeps at hand.
use vstd::prelude::*;

use crate::text::strings_view;

verus! {

broadcast use vstd::string::group_string_axioms;

/// An application bundle: its display name and the path of the bundle.
#[derive(Clone, Debug, PartialEq, Eq)]
pub struct App {
    pub name: String,
    pub path: String,
}

/// What an application is, as plain values.
pub struct AppView {
    pub name: Seq<char>,
    pub path: Seq<char>,
}

impl View for App {
    type V = AppView;

    open spec fn view(&self) -> AppView {
        AppView { name: self.name@, path: self.path@ }
    }
}

/// The views of a sequence of applications.
pub open spec fn apps_view(v: Seq<App>) -> Seq<AppView> {
    v.map_values(|a: App| a@)
}

impl App {
    /// A copy of this application.
    pub fn duplicate(&self) -> (r: App)
        ensures
            r@ == self@,
    {
        App { name: self.name.clone(), path: self.path.clone() }
    }
}

/// A copy of a list of applications.
pub fn duplicate_apps(v: &Vec<App>) -> (r: Vec<App>)
    ensures
        apps_view(r@) == apps_view(v@),
{
    let mut out: Vec<App> = Vec::new();
    let n = v.len();
    for k in 0..n
        invariant
            n == v.len(),
            apps_view(out@) == apps_view(v@).take(k as int),
    {
        let ghost prev = apps_view(out@);
        out.push(v[k].duplicate());
        assert(apps_view(out@) =~= prev.push(v@[k as int]@));
        assert(apps_view(v@).take(k + 1) =~= apps_view(v@).take(k as int).push(v@[k as int]@));
    }
    assert(apps_view(v@).take(n as int) =~= apps_view(v@));
    out
}

/// The saved configuration.
#[derive(Clone, Debug, PartialEq, Eq)]
pub struct Config {
    pub proxy_url: String,
    pub env_commands: Vec<String>,
    pub global_commands: Vec<String>,
    pub apps: Vec<App>,
}

/// What a configuration is, as plain values.
pub struct ConfigView {
    pub proxy_url: Seq<char>,
    pub env_commands: Seq<Seq<char>>,
    pub global_commands: Seq<Seq<char>>,
    pub apps: Seq<AppView>,
}

impl View for Config {
    type V = ConfigView;

    open spec fn view(&self) -> ConfigView {
        ConfigView {
            proxy_url: self.proxy_url@,
            env_commands: strings_view(self.env_commands@),
            global_commands: strings_view(self.global_commands@),
            apps: apps_view(self.apps@),
        }
    }
}

/// The proxy address a fresh configuration uses.
pub open spec fn default_proxy_url() -> Seq<char> {
    "http://127.0.0.1:7890"@
}

/// The environment commands a fresh configuration uses: the HTTP, HTTPS and
/// catch-all proxy variables, all set to the default proxy address.
pub open spec fn default_env_commands() -> Seq<Seq<char>> {
    seq![
        "HTTP_PROXY=http://127.0.0.1:7890"@,
        "HTTPS_PROXY=http://127.0.0.1:7890"@,
        "ALL_PROXY=http://127.0.0.1:7890"@,
    ]
}

/// The configuration used when none was saved, or the saved one cannot be read.
pub open spec fn default_config() -> ConfigView {
    ConfigView {
        proxy_url: default_proxy_url(),
        env_commands: default_env_commands(),
        global_commands: Seq::<Seq<char>>::empty(),
        apps: Seq::<AppView>::empty(),
    }
}

impl Default for Config {
    fn default() -> (c: Config)
        ensures
            c@ == default_config(),
    {
        let mut env_commands: Vec<String> = Vec::new();
        env_commands.push(String::from_str("HTTP_PROXY=http://127.0.0.1:7890"));
        env_commands.push(String::from_str("HTTPS_PROXY=http://127.0.0.1:7890"));
        env_commands.push(String::from_str("ALL_PROXY=http://127.0.0.1:7890"));
        let c = Config {
            proxy_url: String::from_str("http://127.0.0.1:7890"),
            env_commands,
            global_commands: Vec::new(),
            apps: Vec::new(),
        };
        assert(c@.env_commands =~= default_env_commands());
        assert(c@.global_commands =~= Seq::<Seq<char>>::empty());
        assert(c@.apps =~= Seq::<AppView>::empty());
        c
    }
}

} // verus!
