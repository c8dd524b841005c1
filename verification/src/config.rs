//! Settings.

use crate::text;
use vstd::prelude::*;

verus! {

/// The settings of the program.
#[derive(Debug, Clone)]
pub struct Config {
    /// The wireless interface; found by itself where there is none.
    pub interface: Option<String>,
    pub router: RouterConfig,
}

/// The settings of the access to the router.
#[derive(Debug, Clone)]
pub struct RouterConfig {
    pub enabled: bool,
    pub base_url: String,
    pub username: String,
    /// The password in the file; one in the environment comes first.
    pub password: Option<String>,
    /// The environment variable that holds the password.
    pub password_env: Option<String>,
    /// The kind of router.
    pub backend: String,
}

/// The model of a [`Config`].
pub struct ConfigView {
    pub interface: Option<Seq<char>>,
    pub router: RouterConfigView,
}

/// The model of a [`RouterConfig`].
pub struct RouterConfigView {
    pub enabled: bool,
    pub base_url: Seq<char>,
    pub username: Seq<char>,
    pub password: Option<Seq<char>>,
    pub password_env: Option<Seq<char>>,
    pub backend: Seq<char>,
}

impl View for Config {
    type V = ConfigView;

    open spec fn view(&self) -> ConfigView {
        ConfigView { interface: text::opt_text(self.interface), router: self.router@ }
    }
}

impl View for RouterConfig {
    type V = RouterConfigView;

    open spec fn view(&self) -> RouterConfigView {
        RouterConfigView {
            enabled: self.enabled,
            base_url: self.base_url@,
            username: self.username@,
            password: text::opt_text(self.password),
            password_env: text::opt_text(self.password_env),
            backend: self.backend@,
        }
    }
}

// ---------------------------------------------------------------------------------------------
// Defaults

/// Whether the router is used.
pub fn default_true() -> (r: bool)
    ensures
        r,
{
    true
}

/// Where the router is found.
pub fn default_router_url() -> (r: String)
    ensures
        r@ == "http://192.168.1.1"@,
{
    "http://192.168.1.1".to_owned()
}

/// The user of the router.
pub fn default_username() -> (r: String)
    ensures
        r@ == "admin"@,
{
    "admin".to_owned()
}

/// The kind of router.
pub fn default_backend() -> (r: String)
    ensures
        r@ == "zte_f670l"@,
{
    "zte_f670l".to_owned()
}

/// The settings of the router where nothing is set.
pub open spec fn default_router() -> RouterConfigView {
    RouterConfigView {
        enabled: true,
        base_url: "http://192.168.1.1"@,
        username: "admin"@,
        password: None,
        password_env: None,
        backend: "zte_f670l"@,
    }
}

/// The settings where nothing is set.
pub open spec fn default_config() -> ConfigView {
    ConfigView { interface: None, router: default_router() }
}

impl Default for RouterConfig {
    fn default() -> (r: RouterConfig)
        ensures
            r@ == default_router(),
    {
        RouterConfig {
            enabled: default_true(),
            base_url: default_router_url(),
            username: default_username(),
            password: None,
            password_env: None,
            backend: default_backend(),
        }
    }
}

impl Default for Config {
    fn default() -> (r: Config)
        ensures
            r@ == default_config(),
    {
        Config { interface: None, router: RouterConfig::default() }
    }
}

// ---------------------------------------------------------------------------------------------
// The environment

/// The environment variables that override settings, where they are set.
pub struct Environment {
    /// `MYWIFISTATS_INTERFACE`
    pub interface: Option<String>,
    /// `MYWIFISTATS_ROUTER_URL`
    pub router_url: Option<String>,
    /// `MYWIFISTATS_ROUTER_USER`
    pub router_user: Option<String>,
    /// `MYWIFISTATS_ROUTER_ENABLED`
    pub router_enabled: Option<String>,
}

/// What an environment variable overrides a setting with: nothing where it is not set or empty.
pub open spec fn given(variable: Option<Seq<char>>) -> Option<Seq<char>> {
    match variable {
        Some(v) if v.len() > 0 => Some(v),
        _ => None,
    }
}

/// A text that stands for a yes.
pub open spec fn is_yes(s: Seq<char>) -> bool {
    let low = text::lower(s);
    low == "1"@ || low == "true"@ || low == "yes"@
}

/// The settings `c` with those of the environment in their place.
pub open spec fn overridden(c: ConfigView, env: Environment) -> ConfigView {
    let interface = given(text::opt_text(env.interface));
    let url = given(text::opt_text(env.router_url));
    let user = given(text::opt_text(env.router_user));
    ConfigView {
        interface: if interface is Some {
            interface
        } else {
            c.interface
        },
        router: RouterConfigView {
            base_url: if url is Some {
                url.unwrap()
            } else {
                c.router.base_url
            },
            username: if user is Some {
                user.unwrap()
            } else {
                c.router.username
            },
            enabled: match env.router_enabled {
                Some(v) => is_yes(v@),
                None => c.router.enabled,
            },
            ..c.router
        },
    }
}

/// The password: from the environment, else from the settings. An empty one is none.
pub open spec fn password(c: ConfigView, variable: Option<Seq<char>>) -> Option<Seq<char>> {
    match given(variable) {
        Some(p) => Some(p),
        None => given(c.router.password),
    }
}

fn given_of(variable: &Option<String>) -> (r: Option<String>)
    ensures
        text::opt_text(r) == given(text::opt_text(*variable)),
{
    match variable {
        Some(v) => {
            if v.as_str().is_empty() {
                None
            } else {
                Some(v.clone())
            }
        },
        None => None,
    }
}

/// A directory as the beginning of a path.
pub open spec fn as_prefix(dir: Seq<char>) -> Seq<char> {
    if dir.len() == 0 || dir.last() == '/' {
        dir
    } else {
        dir + "/"@
    }
}

/// Where the settings are kept; `dir` is the directory of the user for settings.
pub open spec fn settings_path(dir: Option<Seq<char>>) -> Seq<char> {
    as_prefix(text::given_or(dir, "."@)) + "mywifistats/config.toml"@
}

impl Config {
    /// Where the settings are kept; `dir` is the directory of the user for settings, where there is
    /// one.
    pub fn config_path(dir: &Option<String>) -> (r: String)
        ensures
            r@ == settings_path(text::opt_text(*dir)),
    {
        let dir: String = text::text_or(dir, ".");
        let chars: Vec<char> = text::chars_of(dir.as_str());
        if chars.len() == 0 || chars[chars.len() - 1] == '/' {
            dir.concat("mywifistats/config.toml")
        } else {
            dir.concat("/").concat("mywifistats/config.toml")
        }
    }

    /// A copy.
    pub fn copy(&self) -> (r: Config)
        ensures
            r@ == self@,
    {
        Config {
            interface: self.interface.clone(),
            router: RouterConfig {
                enabled: self.router.enabled,
                base_url: self.router.base_url.clone(),
                username: self.router.username.clone(),
                password: self.router.password.clone(),
                password_env: self.router.password_env.clone(),
                backend: self.router.backend.clone(),
            },
        }
    }

    /// The settings in force: those of the file, or the defaults where there is no file, with those
    /// of the environment in their place.
    pub fn load(stored: Option<Config>, env: &Environment) -> (r: Config)
        ensures
            r@ == overridden(
                match stored {
                    Some(c) => c@,
                    None => default_config(),
                },
                *env,
            ),
    {
        let mut c: Config = match stored {
            Some(c) => c,
            None => Config::default(),
        };
        if let Some(v) = given_of(&env.interface) {
            c.interface = Some(v);
        }
        if let Some(v) = given_of(&env.router_url) {
            c.router.base_url = v;
        }
        if let Some(v) = given_of(&env.router_user) {
            c.router.username = v;
        }
        if let Some(v) = &env.router_enabled {
            let low: String = text::lower_str(v.as_str());
            c.router.enabled = text::same_text(low.as_str(), "1") || text::same_text(
                low.as_str(),
                "true",
            ) || text::same_text(low.as_str(), "yes");
        }
        c
    }

    /// The environment variable in which the password is looked for.
    pub fn password_variable(&self) -> (r: String)
        ensures
            r@ == match self@.router.password_env {
                Some(name) => name,
                None => "MYWIFISTATS_ROUTER_PASSWORD"@,
            },
    {
        match &self.router.password_env {
            Some(name) => name.clone(),
            None => "MYWIFISTATS_ROUTER_PASSWORD".to_owned(),
        }
    }

    /// The password; `variable` is the value of [`Config::password_variable`], where that is set.
    pub fn router_password(&self, variable: &Option<String>) -> (r: Option<String>)
        ensures
            text::opt_text(r) == password(self@, text::opt_text(*variable)),
    {
        match given_of(variable) {
            Some(p) => Some(p),
            None => given_of(&self.router.password),
        }
    }

    /// Whether the user should be told to set a password: the router is used and there is none.
    pub fn needs_setup_hint(&self, variable: &Option<String>) -> (r: bool)
        ensures
            r <==> self@.router.enabled && password(self@, text::opt_text(*variable)) is None,
    {
        self.router.enabled && self.router_password(variable).is_none()
    }
}

// ---------------------------------------------------------------------------------------------
// Laws

/// An environment without these variables overrides nothing, and neither do empty names.
pub proof fn law_empty_environment(c: ConfigView, env: Environment)
    requires
        given(text::opt_text(env.interface)) is None,
        given(text::opt_text(env.router_url)) is None,
        given(text::opt_text(env.router_user)) is None,
        env.router_enabled is None,
    ensures
        overridden(c, env) == c,
{
}

/// The environment overrides the same settings however often, and never the password or the kind
/// of router.
pub proof fn law_override_once(c: ConfigView, env: Environment)
    ensures
        overridden(overridden(c, env), env) == overridden(c, env),
        overridden(c, env).router.password == c.router.password,
        overridden(c, env).router.password_env == c.router.password_env,
        overridden(c, env).router.backend == c.router.backend,
{
}

/// The password of the environment comes before that of the file, and no password is empty.
pub proof fn law_password(c: ConfigView, variable: Option<Seq<char>>)
    ensures
        variable is Some && variable.unwrap().len() > 0 ==> password(c, variable) == variable,
        password(c, variable) matches Some(p) ==> p.len() > 0,
{
}

/// Each variable of the environment overrides its own setting, where it is not empty; the switch of
/// the router is on exactly where it says 1, true or yes in any letter case.
pub proof fn law_overridden(c: ConfigView, env: Environment)
    ensures
        ({
            let o = overridden(c, env);
            &&& env.interface matches Some(v) ==> (v@.len() > 0 ==> o.interface == Some(v@))
            &&& env.interface is None ==> o.interface == c.interface
            &&& env.interface matches Some(v) ==> (v@.len() == 0 ==> o.interface == c.interface)
            &&& env.router_url matches Some(v) ==> (v@.len() > 0 ==> o.router.base_url == v@)
            &&& env.router_url is None ==> o.router.base_url == c.router.base_url
            &&& env.router_url matches Some(v) ==> (v@.len() == 0 ==> o.router.base_url
                == c.router.base_url)
            &&& env.router_user matches Some(v) ==> (v@.len() > 0 ==> o.router.username == v@)
            &&& env.router_user is None ==> o.router.username == c.router.username
            &&& env.router_user matches Some(v) ==> (v@.len() == 0 ==> o.router.username
                == c.router.username)
            &&& env.router_enabled is None ==> o.router.enabled == c.router.enabled
            &&& env.router_enabled matches Some(v) ==> (o.router.enabled <==> text::lower(v@)
                == "1"@ || text::lower(v@) == "true"@ || text::lower(v@) == "yes"@)
        }),
{
}

/// What is set where nothing is set.
pub proof fn law_defaults()
    ensures
        default_config().interface is None,
        default_config().router.enabled,
        default_config().router.base_url == "http://192.168.1.1"@,
        default_config().router.username == "admin"@,
        default_config().router.backend == "zte_f670l"@,
        default_config().router.password is None,
        default_config().router.password_env is None,
{
}

/// The password is the one of the environment, where that is not empty; else the one of the file,
/// where that is not empty; else there is none.
pub proof fn law_password_order(c: ConfigView, variable: Option<Seq<char>>)
    ensures
        variable matches Some(v) ==> (v.len() > 0 ==> password(c, variable) == Some(v)),
        (variable is None || variable.unwrap().len() == 0) ==> (c.router.password matches Some(p)
            ==> (p.len() > 0 ==> password(c, variable) == Some(p))),
        (variable is None || variable.unwrap().len() == 0) && (c.router.password is None
            || c.router.password.unwrap().len() == 0) ==> password(c, variable) is None,
{
}

/// The settings stand in one file of the directory for settings, or of the current one where there
/// is none.
pub proof fn law_settings_path(dir: Seq<char>)
    ensures
        settings_path(None) == "."@ + "/"@ + "mywifistats/config.toml"@,
        dir.len() > 0 && dir.last() != '/' ==> settings_path(Some(dir)) == dir + "/"@
            + "mywifistats/config.toml"@,
        settings_path(Some(dir + "/"@)) == dir + "/"@ + "mywifistats/config.toml"@,
{
    reveal_strlit(".");
    reveal_strlit("/");
    assert((dir + "/"@).last() == '/');
}

} // verus!
