//! The interactive setup: what its keys do, what it saves and what it shows.

use crate::collect::Opening;
use crate::config;
use crate::config::{Config, RouterConfig};
use crate::keys::Key;
use crate::number;
use crate::text;
use crate::view;
use crate::view::{Span, Style, Tint};
use crate::wifi;
use vstd::prelude::*;

verus! {

// ---------------------------------------------------------------------------------------------
// Fields

/// A field of the form.
#[derive(Debug, Clone, Copy, PartialEq, Eq, Structural)]
pub enum Field {
    Interface,
    RouterEnabled,
    BaseUrl,
    Username,
    Password,
    Backend,
}

/// The fields in the order in which they stand.
pub open spec fn fields() -> Seq<Field> {
    seq![
        Field::Interface,
        Field::RouterEnabled,
        Field::BaseUrl,
        Field::Username,
        Field::Password,
        Field::Backend,
    ]
}

/// The fields in the order in which they stand.
pub fn fields_of() -> (r: Vec<Field>)
    ensures
        r@ == fields(),
{
    let r: Vec<Field> = vec![
        Field::Interface,
        Field::RouterEnabled,
        Field::BaseUrl,
        Field::Username,
        Field::Password,
        Field::Backend,
    ];
    assert(r@ =~= fields());
    r
}

impl Field {
    /// The place of the field.
    pub open spec fn index(self) -> int {
        match self {
            Field::Interface => 0,
            Field::RouterEnabled => 1,
            Field::BaseUrl => 2,
            Field::Username => 3,
            Field::Password => 4,
            Field::Backend => 5,
        }
    }

    /// What the field is called.
    pub open spec fn name(self) -> Seq<char> {
        match self {
            Field::Interface => "Interface"@,
            Field::RouterEnabled => "Router enabled"@,
            Field::BaseUrl => "Router URL"@,
            Field::Username => "Username"@,
            Field::Password => "Password"@,
            Field::Backend => "Backend"@,
        }
    }

    /// What the field is for.
    pub open spec fn hint(self) -> Seq<char> {
        match self {
            Field::Interface => "Wireless interface (empty = auto-detect)"@,
            Field::RouterEnabled => "Space to toggle · fetch clients from home router"@,
            Field::BaseUrl => "Usually http://192.168.1.1"@,
            Field::Username => "Router admin username (often admin)"@,
            Field::Password => "Router admin password · stored in config (mode 0600)"@,
            Field::Backend => "zte_f670l for ZTE F670L / F670LV9.0"@,
        }
    }

    pub fn label(self) -> (r: &'static str)
        ensures
            r@ == self.name(),
    {
        match self {
            Field::Interface => "Interface",
            Field::RouterEnabled => "Router enabled",
            Field::BaseUrl => "Router URL",
            Field::Username => "Username",
            Field::Password => "Password",
            Field::Backend => "Backend",
        }
    }

    pub fn help(self) -> (r: &'static str)
        ensures
            r@ == self.hint(),
    {
        match self {
            Field::Interface => "Wireless interface (empty = auto-detect)",
            Field::RouterEnabled => "Space to toggle · fetch clients from home router",
            Field::BaseUrl => "Usually http://192.168.1.1",
            Field::Username => "Router admin username (often admin)",
            Field::Password => "Router admin password · stored in config (mode 0600)",
            Field::Backend => "zte_f670l for ZTE F670L / F670LV9.0",
        }
    }

    /// The field behind this one, the first one behind the last.
    pub fn next(self) -> (r: Field)
        ensures
            r == fields()[(self.index() + 1) % 6],
    {
        match self {
            Field::Interface => Field::RouterEnabled,
            Field::RouterEnabled => Field::BaseUrl,
            Field::BaseUrl => Field::Username,
            Field::Username => Field::Password,
            Field::Password => Field::Backend,
            Field::Backend => Field::Interface,
        }
    }

    /// The field before this one, the last one before the first.
    pub fn prev(self) -> (r: Field)
        ensures
            r == fields()[(self.index() + 5) % 6],
    {
        match self {
            Field::Interface => Field::Backend,
            Field::RouterEnabled => Field::Interface,
            Field::BaseUrl => Field::RouterEnabled,
            Field::Username => Field::BaseUrl,
            Field::Password => Field::Username,
            Field::Backend => Field::Password,
        }
    }

    /// Whether the field holds a text.
    pub fn is_text(self) -> (r: bool)
        ensures
            r == (self != Field::RouterEnabled),
    {
        match self {
            Field::RouterEnabled => false,
            _ => true,
        }
    }
}

/// The field behind this one.
pub open spec fn field_after(f: Field) -> Field {
    fields()[(f.index() + 1) % 6]
}

/// The field before this one.
pub open spec fn field_before(f: Field) -> Field {
    fields()[(f.index() + 5) % 6]
}

/// Going on and going back undo one another, and six steps lead round.
pub proof fn law_fields_cycle(f: Field)
    ensures
        fields()[f.index()] == f,
        field_before(field_after(f)) == f,
        field_after(field_before(f)) == f,
        field_after(field_after(field_after(field_after(field_after(field_after(f)))))) == f,
{
}

// ---------------------------------------------------------------------------------------------
// The state

/// The state of the setup.
pub struct SetupState {
    pub interface: String,
    pub router_enabled: bool,
    pub base_url: String,
    pub username: String,
    pub password: String,
    pub backend: String,
    pub focus: Field,
    pub editing: bool,
    pub status: String,
    pub status_ok: bool,
    pub saved: bool,
    /// There was a password, or one was entered.
    pub password_was_set: bool,
}

/// The model of a [`SetupState`].
pub struct SetupView {
    pub interface: Seq<char>,
    pub router_enabled: bool,
    pub base_url: Seq<char>,
    pub username: Seq<char>,
    pub password: Seq<char>,
    pub backend: Seq<char>,
    pub focus: Field,
    pub editing: bool,
    pub status: Seq<char>,
    pub status_ok: bool,
    pub saved: bool,
    pub password_was_set: bool,
}

impl View for SetupState {
    type V = SetupView;

    open spec fn view(&self) -> SetupView {
        SetupView {
            interface: self.interface@,
            router_enabled: self.router_enabled,
            base_url: self.base_url@,
            username: self.username@,
            password: self.password@,
            backend: self.backend@,
            focus: self.focus,
            editing: self.editing,
            status: self.status@,
            status_ok: self.status_ok,
            saved: self.saved,
            password_was_set: self.password_was_set,
        }
    }
}

/// `s`, or `other` where it is empty.
pub open spec fn or_default(s: Seq<char>, other: Seq<char>) -> Seq<char> {
    if s.len() == 0 {
        other
    } else {
        s
    }
}

/// The setup as it opens on the settings `c`. `variable` is the password of the environment, and
/// `detected` the interface that was found, if any.
pub open spec fn opened(
    c: config::ConfigView,
    variable: Option<Seq<char>>,
    detected: Option<Seq<char>>,
) -> SetupView {
    let stored = text::given_or(c.router.password, seq![]);
    let known = config::password(c, variable) is Some;
    SetupView {
        interface: text::given_or(c.interface, seq![]),
        router_enabled: c.router.enabled,
        base_url: or_default(c.router.base_url, "http://192.168.1.1"@),
        username: or_default(c.router.username, "admin"@),
        password: stored,
        backend: or_default(c.router.backend, "zte_f670l"@),
        focus: Field::Interface,
        editing: false,
        status: if stored.len() == 0 && known {
            "Password currently set via environment variable."@
        } else {
            "Detected interface: "@ + text::given_or(detected, "wlan0"@)
                + " · Tab fields · Enter edit · s save"@
        },
        status_ok: true,
        saved: false,
        password_was_set: stored.len() > 0 || known,
    }
}

/// `n` dots.
pub open spec fn dots(n: nat) -> Seq<char> {
    Seq::new(n, |i: int| '•')
}

/// The number of dots for a password of `n` characters, so that short and long ones cannot be told
/// apart.
pub open spec fn dot_count(n: nat) -> nat {
    if n < 4 {
        4
    } else if n > 24 {
        24
    } else {
        n
    }
}

/// What the form shows in a field. A password is shown only while it is edited.
pub open spec fn shown_value(s: SetupView, f: Field) -> Seq<char> {
    match f {
        Field::Interface => or_default(s.interface, "(auto)"@),
        Field::RouterEnabled => if s.router_enabled {
            "Yes"@
        } else {
            "No"@
        },
        Field::BaseUrl => s.base_url,
        Field::Username => s.username,
        Field::Password => if s.editing && s.focus == Field::Password {
            s.password
        } else if s.password.len() == 0 {
            if s.password_was_set {
                "(set — enter to change)"@
            } else {
                "(empty)"@
            }
        } else {
            dots(dot_count(s.password.len()))
        },
        Field::Backend => s.backend,
    }
}

/// The text that is edited.
pub open spec fn buffer(s: SetupView) -> Option<Seq<char>> {
    match s.focus {
        Field::Interface => Some(s.interface),
        Field::RouterEnabled => None,
        Field::BaseUrl => Some(s.base_url),
        Field::Username => Some(s.username),
        Field::Password => Some(s.password),
        Field::Backend => Some(s.backend),
    }
}

/// The state with another text in place of the one that is edited.
pub open spec fn with_buffer(s: SetupView, t: Seq<char>) -> SetupView {
    match s.focus {
        Field::Interface => SetupView { interface: t, ..s },
        Field::RouterEnabled => s,
        Field::BaseUrl => SetupView { base_url: t, ..s },
        Field::Username => SetupView { username: t, ..s },
        Field::Password => SetupView { password: t, ..s },
        Field::Backend => SetupView { backend: t, ..s },
    }
}

/// The settings that the form describes. Where no password was entered, that of the settings
/// before, `before`, stays.
pub open spec fn settings(s: SetupView, before: Option<config::ConfigView>) -> config::ConfigView {
    let interface = text::trim(s.interface);
    config::ConfigView {
        interface: if interface.len() == 0 {
            None
        } else {
            Some(interface)
        },
        router: config::RouterConfigView {
            enabled: s.router_enabled,
            base_url: text::trim(s.base_url),
            username: text::trim(s.username),
            password: if s.password.len() > 0 {
                Some(s.password)
            } else {
                match before {
                    Some(c) => config::given(c.router.password),
                    None => None,
                }
            },
            password_env: None,
            backend: or_default(text::trim(s.backend), "zte_f670l"@),
        },
    }
}

/// The model of settings that may be missing.
pub open spec fn opt_config(c: Option<Config>) -> Option<config::ConfigView> {
    match c {
        Some(c) => Some(c@),
        None => None,
    }
}

fn or_default_of(s: &str, other: &str) -> (r: String)
    ensures
        r@ == or_default(s@, other@),
{
    if s.is_empty() {
        other.to_owned()
    } else {
        s.to_owned()
    }
}

fn text_or_empty(o: &Option<String>) -> (r: String)
    ensures
        r@ == text::given_or(text::opt_text(*o), seq![]),
{
    match o {
        Some(s) => s.clone(),
        None => {
            let e: String = String::new();
            assert(e@ =~= seq![]);
            e
        },
    }
}

fn dots_of(n: usize) -> (r: String)
    ensures
        r@ == dots(n as nat),
{
    let mut r: String = String::new();
    let mut i: usize = 0;
    assert(r@ =~= dots(0));
    while i < n
        invariant
            i <= n,
            r@ == dots(i as nat),
        decreases n - i,
    {
        r.push('•');
        i = i + 1;
        assert(dots(i as nat) =~= dots((i - 1) as nat).push('•'));
    }
    r
}

/// What a test of the connection found.
pub enum TestOutcome {
    /// No connection could be set up.
    NoClient(String),
    NoLogin(String),
    NoDevices(String),
    Listed { devices: usize, per_host_traffic: bool },
}

/// The message of a test, and whether it went well.
pub open spec fn test_message(o: TestOutcome) -> (Seq<char>, bool) {
    match o {
        TestOutcome::NoClient(e) => ("Client error: "@ + e@, false),
        TestOutcome::NoLogin(e) => ("Login failed: "@ + e@, false),
        TestOutcome::NoDevices(e) => ("Login OK but device list failed: "@ + e@, false),
        TestOutcome::Listed { devices, per_host_traffic } => (
            "OK — ZTE F670L · "@ + number::decimal(devices as nat) + " device(s) · "@ + if per_host_traffic {
                "per-host traffic available"@
            } else {
                "device list only (no per-host traffic)"@
            },
            true,
        ),
    }
}

/// What a test of the connection needs: the router switched on, and a password.
pub open spec fn test_start(
    s: SetupView,
    before: Option<config::ConfigView>,
    variable: Option<Seq<char>>,
) -> SetupView {
    if !s.router_enabled {
        SetupView { status: "Router disabled — enable it to test."@, status_ok: false, ..s }
    } else if config::password(settings(s, before), variable) is None {
        SetupView { status: "No password set — enter password first."@, status_ok: false, ..s }
    } else {
        SetupView { status: "Testing login…"@, status_ok: true, ..s }
    }
}

/// The settings may be written: they name no interface, or one that exists.
pub open spec fn may_save(c: config::ConfigView, exists: bool) -> bool {
    c.interface is None || exists
}

/// The form after it was asked to save.
pub open spec fn save_start(
    s: SetupView,
    before: Option<config::ConfigView>,
    exists: bool,
) -> SetupView {
    let c = settings(s, before);
    if may_save(c, exists) {
        s
    } else {
        SetupView {
            status: "Interface '"@ + c.interface.unwrap() + "' not found"@,
            status_ok: false,
            ..s
        }
    }
}

/// The form after its settings were written to `path`.
pub open spec fn after_writing(s: SetupView, path: Seq<char>) -> SetupView {
    SetupView {
        saved: true,
        status: "Saved "@ + path,
        status_ok: true,
        password_was_set: s.password_was_set || s.password.len() > 0,
        ..s
    }
}

/// The form after saving failed with the message `e`.
pub open spec fn after_failure(s: SetupView, e: Seq<char>, leaving: bool) -> SetupView {
    if leaving || !text::contains(s.status, "not found"@) {
        SetupView { status: "Save failed: "@ + e, status_ok: false, ..s }
    } else {
        s
    }
}

impl SetupState {
    /// The setup as it opens on the settings `cfg`. `variable` is the password of the environment,
    /// and `detected` the interface that was found, or why there is none.
    pub fn from_config(
        cfg: &Config,
        variable: &Option<String>,
        detected: &Result<String, String>,
    ) -> (r: SetupState)
        ensures
            r@ == opened(
                cfg@,
                text::opt_text(*variable),
                match *detected {
                    Ok(i) => Some(i@),
                    Err(_) => None,
                },
            ),
    {
        let stored: String = text_or_empty(&cfg.router.password);
        let known: bool = cfg.router_password(variable).is_some();
        let found: &str = match detected {
            Ok(i) => i.as_str(),
            Err(_) => "wlan0",
        };
        let status: String = if stored.as_str().is_empty() && known {
            "Password currently set via environment variable.".to_owned()
        } else {
            text::join3("Detected interface: ", found, " · Tab fields · Enter edit · s save")
        };
        let password_was_set: bool = !stored.as_str().is_empty() || known;
        SetupState {
            interface: text_or_empty(&cfg.interface),
            router_enabled: cfg.router.enabled,
            base_url: or_default_of(cfg.router.base_url.as_str(), "http://192.168.1.1"),
            username: or_default_of(cfg.router.username.as_str(), "admin"),
            password: stored,
            backend: or_default_of(cfg.router.backend.as_str(), "zte_f670l"),
            focus: Field::Interface,
            editing: false,
            status,
            status_ok: true,
            saved: false,
            password_was_set,
        }
    }

    /// What the form shows in a field.
    pub fn field_value(&self, f: Field) -> (r: String)
        ensures
            r@ == shown_value(self@, f),
    {
        match f {
            Field::Interface => or_default_of(self.interface.as_str(), "(auto)"),
            Field::RouterEnabled => {
                if self.router_enabled {
                    "Yes".to_owned()
                } else {
                    "No".to_owned()
                }
            },
            Field::BaseUrl => self.base_url.clone(),
            Field::Username => self.username.clone(),
            Field::Password => {
                if self.editing && self.focus == Field::Password {
                    self.password.clone()
                } else if self.password.as_str().is_empty() {
                    if self.password_was_set {
                        "(set — enter to change)".to_owned()
                    } else {
                        "(empty)".to_owned()
                    }
                } else {
                    let n: usize = self.password.as_str().unicode_len();
                    let shown: usize = if n < 4 {
                        4
                    } else if n > 24 {
                        24
                    } else {
                        n
                    };
                    dots_of(shown)
                }
            },
            Field::Backend => self.backend.clone(),
        }
    }

    /// The text that is edited.
    pub fn active_buffer_mut(&mut self) -> (r: Option<&mut String>)
        ensures
            match r {
                Some(b) => buffer(old(self)@) == Some(b@) && final(self)@ == with_buffer(
                    old(self)@,
                    final(b)@,
                ),
                None => buffer(old(self)@) is None && final(self)@ == old(self)@,
            },
    {
        match self.focus {
            Field::Interface => Some(&mut self.interface),
            Field::RouterEnabled => None,
            Field::BaseUrl => Some(&mut self.base_url),
            Field::Username => Some(&mut self.username),
            Field::Password => Some(&mut self.password),
            Field::Backend => Some(&mut self.backend),
        }
    }

    /// The settings that the form describes; `before` are the earlier settings, where they could be
    /// read.
    pub fn to_config(&self, before: &Option<Config>) -> (r: Config)
        ensures
            r@ == settings(self@, opt_config(*before)),
    {
        let interface: String = text::trim_str(self.interface.as_str());
        let password: Option<String> = if self.password.as_str().is_empty() {
            match before {
                Some(c) => match &c.router.password {
                    Some(p) => {
                        if p.as_str().is_empty() {
                            None
                        } else {
                            Some(p.clone())
                        }
                    },
                    None => None,
                },
                None => None,
            }
        } else {
            Some(self.password.clone())
        };
        Config {
            interface: if interface.as_str().is_empty() {
                None
            } else {
                Some(interface)
            },
            router: RouterConfig {
                enabled: self.router_enabled,
                base_url: text::trim_str(self.base_url.as_str()),
                username: text::trim_str(self.username.as_str()),
                password,
                password_env: None,
                backend: or_default_of(
                    text::trim_str(self.backend.as_str()).as_str(),
                    "zte_f670l",
                ),
            },
        }
    }

    /// Begins a test of the connection: with what to log in, where there is enough to do so.
    pub fn test_connection(&mut self, before: &Option<Config>, variable: &Option<String>) -> (r: Option<
        Opening,
    >)
        ensures
            final(self)@ == test_start(
                old(self)@,
                opt_config(*before),
                text::opt_text(*variable),
            ),
            ({
                let c = settings(old(self)@, opt_config(*before));
                let p = config::password(c, text::opt_text(*variable));
                match r {
                    Some(o) => old(self)@.router_enabled && p == Some(o.password@) && o.base_url@
                        == c.router.base_url && o.username@ == c.router.username,
                    None => !old(self)@.router_enabled || p is None,
                }
            }),
    {
        if !self.router_enabled {
            self.status = "Router disabled — enable it to test.".to_owned();
            self.status_ok = false;
            return None;
        }
        let cfg: Config = self.to_config(before);
        match cfg.router_password(variable) {
            None => {
                self.status = "No password set — enter password first.".to_owned();
                self.status_ok = false;
                None
            },
            Some(password) => {
                self.status = "Testing login…".to_owned();
                self.status_ok = true;
                Some(
                    Opening {
                        base_url: cfg.router.base_url,
                        username: cfg.router.username,
                        password,
                    },
                )
            },
        }
    }

    /// Ends a test of the connection.
    pub fn tested(&mut self, o: &TestOutcome)
        ensures
            final(self)@ == (SetupView {
                status: test_message(*o).0,
                status_ok: test_message(*o).1,
                ..old(self)@
            }),
    {
        match o {
            TestOutcome::NoClient(e) => {
                self.status = text::join2("Client error: ", e.as_str());
                self.status_ok = false;
            },
            TestOutcome::NoLogin(e) => {
                self.status = text::join2("Login failed: ", e.as_str());
                self.status_ok = false;
            },
            TestOutcome::NoDevices(e) => {
                self.status = text::join2("Login OK but device list failed: ", e.as_str());
                self.status_ok = false;
            },
            TestOutcome::Listed { devices, per_host_traffic } => {
                let traffic: &str = if *per_host_traffic {
                    "per-host traffic available"
                } else {
                    "device list only (no per-host traffic)"
                };
                self.status =
                "OK — ZTE F670L · ".to_owned().concat(
                    number::decimal_of(*devices as u64).as_str(),
                ).concat(" device(s) · ").concat(traffic);
                self.status_ok = true;
            },
        }
    }

    /// The place of the interface that has to exist before the settings are saved, where they name
    /// one.
    pub fn interface_path(&self) -> (r: Option<String>)
        ensures
            text::opt_text(r) == match settings(self@, None).interface {
                Some(i) => Some(wifi::iface_path(i)),
                None => None,
            },
    {
        let interface: String = text::trim_str(self.interface.as_str());
        if interface.as_str().is_empty() {
            None
        } else {
            Some(wifi::iface_path_of(interface.as_str()))
        }
    }

    /// Begins to save: the settings to write, unless they name an interface that does not exist.
    pub fn save(&mut self, before: &Option<Config>, exists: bool) -> (r: Result<Config, String>)
        ensures
            r is Ok <==> may_save(settings(old(self)@, opt_config(*before)), exists),
            r matches Ok(w) ==> w@ == settings(old(self)@, opt_config(*before)),
            final(self)@ == save_start(old(self)@, opt_config(*before), exists),
            ({
                let c = settings(old(self)@, opt_config(*before));
                if c.interface is Some && !exists {
                    &&& r matches Err(e) && e@ == "interface not found"@
                    &&& final(self)@ == (SetupView {
                        status: "Interface '"@ + c.interface.unwrap() + "' not found"@,
                        status_ok: false,
                        ..old(self)@
                    })
                } else {
                    r matches Ok(w) && w@ == c && final(self)@ == old(self)@
                }
            }),
    {
        let cfg: Config = self.to_config(before);
        if let Some(i) = &cfg.interface {
            if !exists {
                self.status = text::join3("Interface '", i.as_str(), "' not found");
                self.status_ok = false;
                return Err("interface not found".to_owned());
            }
        }
        Ok(cfg)
    }

    /// The settings were written to `path`.
    pub fn written(&mut self, path: &str)
        ensures
            final(self)@ == after_writing(old(self)@, path@),
            final(self)@ == (SetupView {
                saved: true,
                status: "Saved "@ + path@,
                status_ok: true,
                password_was_set: old(self)@.password_was_set || old(self)@.password.len() > 0,
                ..old(self)@
            }),
    {
        self.saved = true;
        self.status = text::join2("Saved ", path);
        self.status_ok = true;
        if !self.password.as_str().is_empty() {
            self.password_was_set = true;
        }
    }

    /// Saving failed with the message `e`. A message on the interface stays, unless the setup was to
    /// be left.
    pub fn save_failed(&mut self, e: &str, leaving: bool)
        ensures
            final(self)@ == after_failure(old(self)@, e@, leaving),
            final(self)@ == if leaving || !text::contains(old(self)@.status, "not found"@) {
                SetupView { status: "Save failed: "@ + e@, status_ok: false, ..old(self)@ }
            } else {
                old(self)@
            },
    {
        if leaving || !text::contains_str(self.status.as_str(), "not found") {
            self.status = text::join2("Save failed: ", e);
            self.status_ok = false;
        }
    }
}

// ---------------------------------------------------------------------------------------------
// Keys

/// What a key asks for.
#[derive(Debug, Clone, Copy, PartialEq, Eq, Structural)]
pub enum Action {
    Nothing,
    /// Leave; the settings were saved or not.
    Quit { saved: bool },
    /// Test the connection.
    Test,
    /// Save.
    Save,
    /// Save and, where that succeeds, leave.
    SaveAndQuit,
}

/// `s` without its last character.
pub open spec fn without_last(s: Seq<char>) -> Seq<char> {
    if s.len() > 0 {
        s.drop_last()
    } else {
        s
    }
}

/// What a key does while a field is edited.
pub open spec fn pressed_editing(s: SetupView, key: Key) -> SetupView {
    match key {
        Key::Esc => SetupView {
            editing: false,
            status: "Edit cancelled"@,
            status_ok: true,
            ..s
        },
        Key::Enter => SetupView {
            editing: false,
            status: s.focus.name() + " updated"@,
            status_ok: true,
            password_was_set: s.password_was_set || (s.focus == Field::Password && s.password.len()
                > 0),
            ..s
        },
        Key::Backspace => match buffer(s) {
            Some(t) => with_buffer(s, without_last(t)),
            None => s,
        },
        Key::Char(c) => match buffer(s) {
            Some(t) => with_buffer(s, t.push(c)),
            None => s,
        },
        _ => s,
    }
}

/// What a key does while no field is edited.
pub open spec fn pressed_idle(s: SetupView, key: Key) -> (SetupView, Action) {
    match key {
        Key::Char('q') | Key::Esc => (s, Action::Quit { saved: s.saved }),
        Key::Tab | Key::Down | Key::Char('j') => (
            SetupView { focus: field_after(s.focus), ..s },
            Action::Nothing,
        ),
        Key::BackTab | Key::Up | Key::Char('k') => (
            SetupView { focus: field_before(s.focus), ..s },
            Action::Nothing,
        ),
        Key::Enter => if s.focus != Field::RouterEnabled {
            (
                SetupView {
                    editing: true,
                    status: "Editing "@ + s.focus.name() + " — Enter confirm · Esc cancel"@,
                    status_ok: true,
                    ..s
                },
                Action::Nothing,
            )
        } else {
            (SetupView { router_enabled: !s.router_enabled, ..s }, Action::Nothing)
        },
        Key::Char(' ') => if s.focus == Field::RouterEnabled {
            (SetupView { router_enabled: !s.router_enabled, ..s }, Action::Nothing)
        } else {
            (s, Action::Nothing)
        },
        Key::Char('t') | Key::Char('T') => (s, Action::Test),
        Key::Char('s') | Key::Char('S') => (s, Action::Save),
        Key::Char('w') | Key::Char('W') => (s, Action::SaveAndQuit),
        _ => (s, Action::Nothing),
    }
}

/// What a key does.
pub open spec fn pressed(s: SetupView, key: Key) -> (SetupView, Action) {
    if s.editing {
        (pressed_editing(s, key), Action::Nothing)
    } else {
        pressed_idle(s, key)
    }
}

fn without_last_of(s: &str) -> (r: String)
    ensures
        r@ == without_last(s@),
{
    let a: Vec<char> = text::chars_of(s);
    let n: usize = a.len();
    if n > 0 {
        assert(a@.subrange(0, n - 1) =~= a@.drop_last());
        text::slice_string(&a, 0, n - 1)
    } else {
        s.to_owned()
    }
}

impl SetupState {
    fn press_editing(&mut self, key: Key)
        ensures
            final(self)@ == pressed_editing(old(self)@, key),
    {
        match key {
            Key::Esc => {
                self.editing = false;
                self.status = "Edit cancelled".to_owned();
                self.status_ok = true;
            },
            Key::Enter => {
                self.editing = false;
                self.status = text::join2(self.focus.label(), " updated");
                self.status_ok = true;
                if self.focus == Field::Password && !self.password.as_str().is_empty() {
                    self.password_was_set = true;
                }
            },
            Key::Backspace => {
                if let Some(b) = self.active_buffer_mut() {
                    *b = without_last_of(b.as_str());
                }
            },
            Key::Char(c) => {
                if let Some(b) = self.active_buffer_mut() {
                    b.push(c);
                }
            },
            _ => {},
        }
    }

    fn press_idle(&mut self, key: Key) -> (r: Action)
        ensures
            (final(self)@, r) == pressed_idle(old(self)@, key),
    {
        match key {
            Key::Char('q') | Key::Esc => Action::Quit { saved: self.saved },
            Key::Tab | Key::Down | Key::Char('j') => {
                self.focus = self.focus.next();
                Action::Nothing
            },
            Key::BackTab | Key::Up | Key::Char('k') => {
                self.focus = self.focus.prev();
                Action::Nothing
            },
            Key::Enter => {
                if self.focus.is_text() {
                    self.editing = true;
                    self.status =
                    text::join3(
                        "Editing ",
                        self.focus.label(),
                        " — Enter confirm · Esc cancel",
                    );
                    self.status_ok = true;
                } else {
                    self.router_enabled = !self.router_enabled;
                }
                Action::Nothing
            },
            Key::Char(' ') => {
                if self.focus == Field::RouterEnabled {
                    self.router_enabled = !self.router_enabled;
                }
                Action::Nothing
            },
            Key::Char('t') | Key::Char('T') => Action::Test,
            Key::Char('s') | Key::Char('S') => Action::Save,
            Key::Char('w') | Key::Char('W') => Action::SaveAndQuit,
            _ => Action::Nothing,
        }
    }

    /// What the key asks for.
    pub fn press(&mut self, key: Key) -> (r: Action)
        ensures
            (final(self)@, r) == pressed(old(self)@, key),
    {
        if self.editing {
            self.press_editing(key);
            Action::Nothing
        } else {
            self.press_idle(key)
        }
    }
}

// ---------------------------------------------------------------------------------------------
// The form

/// The mark before a field.
pub open spec fn marker(selected: bool, editing: bool) -> Seq<char> {
    if editing {
        "▸"@
    } else if selected {
        "›"@
    } else {
        " "@
    }
}

/// The line of a field.
pub open spec fn field_line(s: SetupView, f: Field) -> Seq<view::SpanView> {
    let selected = s.focus == f;
    let editing = selected && s.editing;
    let label_style = if selected {
        view::bold(Tint::Yellow)
    } else {
        view::fg(Tint::Gray)
    };
    let value = if f == Field::RouterEnabled {
        if s.router_enabled {
            view::piece(" ● Yes "@, view::on(Tint::Black, Tint::Green))
        } else {
            view::piece(" ○ No  "@, view::on(Tint::Black, Tint::DarkGray))
        }
    } else if editing {
        view::piece(
            " "@ + shown_value(s, f) + "█ "@,
            Style { fg: Tint::Black, bg: Tint::Yellow, bold: true },
        )
    } else if selected {
        view::piece(" "@ + shown_value(s, f) + " "@, view::bold(Tint::White))
    } else {
        view::piece(" "@ + shown_value(s, f) + " "@, view::fg(Tint::Cyan))
    };
    seq![
        view::piece(marker(selected, editing) + " "@, label_style),
        view::piece(text::padded(f.name(), 16), label_style),
        value,
    ]
}

/// The lines of the fields.
pub open spec fn field_lines(s: SetupView) -> Seq<Seq<view::SpanView>> {
    fields().map_values(|f: Field| field_line(s, f))
}

/// The lines above the fields, for settings that are kept at `config_path`.
pub open spec fn intro(config_path: Seq<char>) -> Seq<Seq<view::SpanView>> {
    seq![
        seq![
            view::piece(
                "Configure WiFi interface and home router access"@,
                view::fg(Tint::White),
            ),
        ],
        seq![view::piece("Config file: "@ + config_path, view::fg(Tint::DarkGray))],
    ]
}

/// The line that explains a field.
pub open spec fn help_line(s: SetupView) -> Seq<view::SpanView> {
    seq![
        view::piece("  "@, view::fg(Tint::Plain)),
        view::piece(s.focus.hint(), view::fg(Tint::DarkGray)),
    ]
}

/// The colour of the status.
pub open spec fn status_tint(s: SetupView) -> Tint {
    if s.status_ok {
        Tint::Green
    } else {
        Tint::Red
    }
}

/// The line of the status.
pub open spec fn status_line(s: SetupView) -> Seq<view::SpanView> {
    seq![
        view::piece(" Status "@, view::on(Tint::Black, status_tint(s))),
        view::piece("  "@, view::fg(Tint::Plain)),
        view::piece(s.status, view::fg(status_tint(s))),
    ]
}

/// The lines that name the keys.
pub open spec fn actions() -> Seq<Seq<view::SpanView>> {
    seq![
        seq![
            view::piece(" t "@, view::on(Tint::Black, Tint::Blue)),
            view::piece(" Test login   "@, view::fg(Tint::Plain)),
            view::piece(" s "@, view::on(Tint::Black, Tint::Green)),
            view::piece(" Save   "@, view::fg(Tint::Plain)),
            view::piece(" w "@, view::on(Tint::Black, Tint::Cyan)),
            view::piece(" Save & quit   "@, view::fg(Tint::Plain)),
            view::piece(" q "@, view::on(Tint::Black, Tint::DarkGray)),
            view::piece(" Quit"@, view::fg(Tint::Plain)),
        ],
        seq![
            view::piece(
                " Tab/↑↓ move · Enter edit (or toggle) · Esc cancel edit"@,
                view::fg(Tint::DarkGray),
            ),
        ],
    ]
}

/// What the setup shows.
pub struct SetupScreen {
    pub intro: Vec<Vec<Span>>,
    pub fields: Vec<Vec<Span>>,
    pub help: Vec<Span>,
    pub status: Vec<Span>,
    pub actions: Vec<Vec<Span>>,
}

fn field_line_of(s: &SetupState, f: Field) -> (line: Vec<Span>)
    ensures
        view::line_view(line@) == field_line(s@, f),
{
    let selected: bool = s.focus == f;
    let editing: bool = selected && s.editing;
    let mark: &str = if editing {
        "▸"
    } else if selected {
        "›"
    } else {
        " "
    };
    let label_style: Style = if selected {
        view::bold_of(Tint::Yellow)
    } else {
        view::fg_of(Tint::Gray)
    };
    let shown: String = s.field_value(f);
    let value: Span = if f == Field::RouterEnabled {
        if s.router_enabled {
            view::span(" ● Yes ", view::on_of(Tint::Black, Tint::Green))
        } else {
            view::span(" ○ No  ", view::on_of(Tint::Black, Tint::DarkGray))
        }
    } else if editing {
        view::span(
            text::join3(" ", shown.as_str(), "█ ").as_str(),
            Style { fg: Tint::Black, bg: Tint::Yellow, bold: true },
        )
    } else if selected {
        view::span(text::join3(" ", shown.as_str(), " ").as_str(), view::bold_of(Tint::White))
    } else {
        view::span(text::join3(" ", shown.as_str(), " ").as_str(), view::fg_of(Tint::Cyan))
    };
    let line: Vec<Span> = vec![
        view::span(text::join2(mark, " ").as_str(), label_style),
        view::span(text::pad(f.label(), 16).as_str(), label_style),
        value,
    ];
    assert(view::line_view(line@) =~= field_line(s@, f));
    line
}

fn actions_of() -> (lines: Vec<Vec<Span>>)
    ensures
        view::lines_view(lines@) == actions(),
{
    let keys: Vec<Span> = vec![
        view::span(" t ", view::on_of(Tint::Black, Tint::Blue)),
        view::span(" Test login   ", view::fg_of(Tint::Plain)),
        view::span(" s ", view::on_of(Tint::Black, Tint::Green)),
        view::span(" Save   ", view::fg_of(Tint::Plain)),
        view::span(" w ", view::on_of(Tint::Black, Tint::Cyan)),
        view::span(" Save & quit   ", view::fg_of(Tint::Plain)),
        view::span(" q ", view::on_of(Tint::Black, Tint::DarkGray)),
        view::span(" Quit", view::fg_of(Tint::Plain)),
    ];
    assert(view::line_view(keys@) =~= actions()[0]);
    let lines: Vec<Vec<Span>> = vec![
        keys,
        view::styled_line(
            " Tab/↑↓ move · Enter edit (or toggle) · Esc cancel edit",
            view::fg_of(Tint::DarkGray),
        ),
    ];
    assert(view::lines_view(lines@) =~= actions());
    lines
}

/// What the setup shows, for settings that are kept at `config_path`.
pub fn draw_setup(s: &SetupState, config_path: &str) -> (r: SetupScreen)
    ensures
        view::lines_view(r.intro@) == intro(config_path@),
        view::lines_view(r.fields@) == field_lines(s@),
        view::line_view(r.help@) == help_line(s@),
        view::line_view(r.status@) == status_line(s@),
        view::lines_view(r.actions@) == actions(),
{
    let intro_lines: Vec<Vec<Span>> = vec![
        view::styled_line(
            "Configure WiFi interface and home router access",
            view::fg_of(Tint::White),
        ),
        view::styled_line(
            text::join2("Config file: ", config_path).as_str(),
            view::fg_of(Tint::DarkGray),
        ),
    ];
    assert(view::lines_view(intro_lines@) =~= intro(config_path@));
    let all: Vec<Field> = fields_of();
    let mut lines: Vec<Vec<Span>> = Vec::new();
    let mut i: usize = 0;
    while i < all.len()
        invariant
            i <= all@.len(),
            all@ == fields(),
            lines@.len() == i,
            forall|k: int|
                0 <= k < i ==> view::line_view((#[trigger] lines@[k])@) == field_line(s@, all@[k]),
        decreases all@.len() - i,
    {
        lines.push(field_line_of(s, all[i]));
        i = i + 1;
    }
    assert(view::lines_view(lines@) =~= field_lines(s@));
    let help: Vec<Span> = vec![
        view::span("  ", view::fg_of(Tint::Plain)),
        view::span(s.focus.help(), view::fg_of(Tint::DarkGray)),
    ];
    assert(view::line_view(help@) =~= help_line(s@));
    let tint: Tint = if s.status_ok {
        Tint::Green
    } else {
        Tint::Red
    };
    let status: Vec<Span> = vec![
        view::span(" Status ", view::on_of(Tint::Black, tint)),
        view::span("  ", view::fg_of(Tint::Plain)),
        view::span(s.status.as_str(), view::fg_of(tint)),
    ];
    assert(view::line_view(status@) =~= status_line(s@));
    SetupScreen { intro: intro_lines, fields: lines, help, status, actions: actions_of() }
}

// ---------------------------------------------------------------------------------------------
// Laws

/// A password is shown as dots or not at all, except while it is edited: what the form shows of it
/// then depends on its length alone.
pub proof fn law_password_is_hidden(s: SetupView, other: SetupView)
    requires
        !(s.editing && s.focus == Field::Password),
        other == (SetupView { password: other.password, ..s }),
        dot_count(other.password.len()) == dot_count(s.password.len()),
        other.password.len() == 0 <==> s.password.len() == 0,
    ensures
        shown_value(other, Field::Password) == shown_value(s, Field::Password),
{
}

/// Saving what the setup opened with keeps the settings, as long as none of them is empty or padded
/// with white space; only the name of the variable for the password is dropped.
pub proof fn law_untouched_settings(
    c: config::ConfigView,
    variable: Option<Seq<char>>,
    detected: Option<Seq<char>>,
)
    requires
        c.interface matches Some(i) ==> i.len() > 0 && text::trim(i) == i,
        c.router.base_url.len() > 0 && text::trim(c.router.base_url) == c.router.base_url,
        c.router.username.len() > 0 && text::trim(c.router.username) == c.router.username,
        c.router.backend.len() > 0 && text::trim(c.router.backend) == c.router.backend,
        c.router.password matches Some(p) ==> p.len() > 0,
    ensures
        settings(opened(c, variable, detected), Some(c)) == (config::ConfigView {
            router: config::RouterConfigView { password_env: None, ..c.router },
            ..c
        }),
{
    assert(text::trim(Seq::<char>::empty()).len() == 0);
}

/// A blank password leaves the one that was stored, and one that was entered replaces it.
pub proof fn law_password_kept(s: SetupView, before: config::ConfigView)
    ensures
        s.password.len() == 0 ==> settings(s, Some(before)).router.password == config::given(
            before.router.password,
        ),
        s.password.len() > 0 ==> settings(s, Some(before)).router.password == Some(s.password),
{
}

/// What is typed into a field can be taken back.
pub proof fn law_typed_and_erased(s: SetupView, c: char)
    requires
        s.editing,
        s.focus != Field::RouterEnabled,
    ensures
        pressed(pressed(s, Key::Char(c)).0, Key::Backspace).0 == s,
{
    let t = buffer(s).unwrap();
    assert(t.push(c).drop_last() =~= t);
}

/// While a field is edited no key leaves the setup, saves or tests, and only typing and erasing
/// change the field.
pub proof fn law_editing(s: SetupView, key: Key)
    requires
        s.editing,
    ensures
        pressed(s, key).1 == Action::Nothing,
        key !is Char && key != Key::Backspace ==> buffer(pressed(s, key).0) == buffer(s),
{
}

/// Leaving the setup says whether it saved.
pub proof fn law_quit(s: SetupView, key: Key)
    ensures
        pressed(s, key).1 matches Action::Quit { saved } ==> saved == s.saved,
{
}

/// The fields, from the first to the last, what they are called and what they are for.
pub proof fn law_fields()
    ensures
        fields().len() == 6,
        fields()[0] == Field::Interface && fields()[0].name() == "Interface"@,
        fields()[1] == Field::RouterEnabled && fields()[1].name() == "Router enabled"@,
        fields()[2] == Field::BaseUrl && fields()[2].name() == "Router URL"@,
        fields()[3] == Field::Username && fields()[3].name() == "Username"@,
        fields()[4] == Field::Password && fields()[4].name() == "Password"@,
        fields()[5] == Field::Backend && fields()[5].name() == "Backend"@,
        Field::Interface.hint() == "Wireless interface (empty = auto-detect)"@,
        Field::RouterEnabled.hint() == "Space to toggle · fetch clients from home router"@,
        Field::BaseUrl.hint() == "Usually http://192.168.1.1"@,
        Field::Username.hint() == "Router admin username (often admin)"@,
        Field::Password.hint() == "Router admin password · stored in config (mode 0600)"@,
        Field::Backend.hint() == "zte_f670l for ZTE F670L / F670LV9.0"@,
{
}

/// The setup opens on what is set, on the usual values where a text is empty, and on the password
/// that is stored. It says so where the password comes from the environment alone, and names the
/// interface that was found else.
pub proof fn law_opened(
    c: config::ConfigView,
    variable: Option<Seq<char>>,
    detected: Option<Seq<char>>,
)
    ensures
        ({
            let s = opened(c, variable, detected);
            &&& c.interface matches Some(i) ==> s.interface == i
            &&& c.interface is None ==> s.interface.len() == 0
            &&& s.router_enabled == c.router.enabled
            &&& c.router.base_url.len() > 0 ==> s.base_url == c.router.base_url
            &&& c.router.base_url.len() == 0 ==> s.base_url == "http://192.168.1.1"@
            &&& c.router.username.len() > 0 ==> s.username == c.router.username
            &&& c.router.username.len() == 0 ==> s.username == "admin"@
            &&& c.router.backend.len() > 0 ==> s.backend == c.router.backend
            &&& c.router.backend.len() == 0 ==> s.backend == "zte_f670l"@
            &&& c.router.password matches Some(p) ==> s.password == p
            &&& c.router.password is None ==> s.password.len() == 0
            &&& s.focus == Field::Interface && !s.editing && s.status_ok && !s.saved
            &&& s.password_was_set <==> s.password.len() > 0 || (variable matches Some(v)
                && v.len() > 0)
            &&& s.password.len() == 0 && (variable matches Some(v) && v.len() > 0) ==> s.status
                == "Password currently set via environment variable."@
            &&& s.password.len() > 0 || variable is None ==> s.status == "Detected interface: "@
                + match detected {
                Some(i) => i,
                None => "wlan0"@,
            } + " · Tab fields · Enter edit · s save"@
        }),
{
}

/// What the form shows: each field its own value, an interface that is to be found as `(auto)`, and
/// of a password that is not edited at least 4 and at most 24 dots, or whether there is one.
pub proof fn law_shown(s: SetupView)
    ensures
        s.interface.len() > 0 ==> shown_value(s, Field::Interface) == s.interface,
        s.interface.len() == 0 ==> shown_value(s, Field::Interface) == "(auto)"@,
        shown_value(s, Field::RouterEnabled) == if s.router_enabled {
            "Yes"@
        } else {
            "No"@
        },
        shown_value(s, Field::BaseUrl) == s.base_url,
        shown_value(s, Field::Username) == s.username,
        shown_value(s, Field::Backend) == s.backend,
        s.editing && s.focus == Field::Password ==> shown_value(s, Field::Password) == s.password,
        !(s.editing && s.focus == Field::Password) ==> {
            let t = shown_value(s, Field::Password);
            &&& s.password.len() == 0 && s.password_was_set ==> t == "(set — enter to change)"@
            &&& s.password.len() == 0 && !s.password_was_set ==> t == "(empty)"@
            &&& s.password.len() > 0 ==> {
                &&& 4 <= t.len() <= 24
                &&& 4 <= s.password.len() <= 24 ==> t.len() == s.password.len()
                &&& s.password.len() < 4 ==> t.len() == 4
                &&& s.password.len() > 24 ==> t.len() == 24
                &&& forall|i: int| 0 <= i < t.len() ==> #[trigger] t[i] == '•'
            }
        },
{
}

/// The settings of a form: each field without white space at the ends, but for the password; an
/// interface only where one is left, and the usual kind of router where none is.
pub proof fn law_settings(s: SetupView, before: Option<config::ConfigView>)
    ensures
        ({
            let c = settings(s, before);
            &&& text::trim(s.interface).len() > 0 ==> c.interface == Some(text::trim(s.interface))
            &&& text::trim(s.interface).len() == 0 ==> c.interface is None
            &&& c.router.enabled == s.router_enabled
            &&& c.router.base_url == text::trim(s.base_url)
            &&& c.router.username == text::trim(s.username)
            &&& text::trim(s.backend).len() > 0 ==> c.router.backend == text::trim(s.backend)
            &&& text::trim(s.backend).len() == 0 ==> c.router.backend == "zte_f670l"@
            &&& c.router.password_env is None
            &&& s.password.len() > 0 ==> c.router.password == Some(s.password)
            &&& s.password.len() == 0 ==> {
                &&& before is None ==> c.router.password is None
                &&& before matches Some(b) ==> {
                    &&& b.router.password matches Some(p) ==> (p.len() > 0 ==> c.router.password
                        == Some(p))
                    &&& b.router.password matches Some(p) ==> (p.len() == 0
                        ==> c.router.password is None)
                    &&& b.router.password is None ==> c.router.password is None
                }
            }
        }),
{
}

/// The keys while no field is edited: `q` and Esc leave, `t` tests, `s` saves, `w` saves and
/// leaves; Tab, down and `j` go on to the next field, back-tab, up and `k` go back; Enter edits a
/// field or, like the space, turns the switch. Any other key does nothing.
pub proof fn law_keys(s: SetupView, key: Key)
    requires
        !s.editing,
    ensures
        key == Key::Char('q') || key == Key::Esc ==> pressed(s, key) == (
            s,
            Action::Quit { saved: s.saved },
        ),
        key == Key::Char('t') || key == Key::Char('T') ==> pressed(s, key) == (s, Action::Test),
        key == Key::Char('s') || key == Key::Char('S') ==> pressed(s, key) == (s, Action::Save),
        key == Key::Char('w') || key == Key::Char('W') ==> pressed(s, key) == (
            s,
            Action::SaveAndQuit,
        ),
        key == Key::Tab || key == Key::Down || key == Key::Char('j') ==> {
            let (t, a) = pressed(s, key);
            &&& a == Action::Nothing
            &&& t == (SetupView { focus: t.focus, ..s })
            &&& s.focus.index() < 5 ==> t.focus == fields()[s.focus.index() + 1]
            &&& s.focus == Field::Backend ==> t.focus == Field::Interface
        },
        key == Key::BackTab || key == Key::Up || key == Key::Char('k') ==> {
            let (t, a) = pressed(s, key);
            &&& a == Action::Nothing
            &&& t == (SetupView { focus: t.focus, ..s })
            &&& s.focus.index() > 0 ==> t.focus == fields()[s.focus.index() - 1]
            &&& s.focus == Field::Interface ==> t.focus == Field::Backend
        },
        key == Key::Enter && s.focus != Field::RouterEnabled ==> pressed(s, key) == (
            SetupView {
                editing: true,
                status: "Editing "@ + s.focus.name() + " — Enter confirm · Esc cancel"@,
                status_ok: true,
                ..s
            },
            Action::Nothing,
        ),
        (key == Key::Enter || key == Key::Char(' ')) && s.focus == Field::RouterEnabled ==> pressed(
            s,
            key,
        ) == (SetupView { router_enabled: !s.router_enabled, ..s }, Action::Nothing),
        key == Key::Char(' ') && s.focus != Field::RouterEnabled ==> pressed(s, key) == (
            s,
            Action::Nothing,
        ),
        pressed(s, key) != (s, Action::Nothing) ==> key == Key::Esc || key == Key::Tab || key
            == Key::Down || key == Key::BackTab || key == Key::Up || key == Key::Enter || (
        key matches Key::Char(c) && (c == 'q' || c == 'j' || c == 'k' || c == ' ' || c == 't' || c
            == 'T' || c == 's' || c == 'S' || c == 'w' || c == 'W')),
{
}

/// While a field is edited, characters go to the end of its text, whichever they are, and
/// Backspace takes the last one away; Enter and Esc end the edit, and both keep what was typed.
pub proof fn law_typing(s: SetupView, c: char)
    requires
        s.editing,
    ensures
        ({
            let t = pressed(s, Key::Char(c)).0;
            let b = pressed(s, Key::Backspace).0;
            &&& s.focus == Field::Interface ==> t == (SetupView {
                interface: s.interface.push(c),
                ..s
            }) && (s.interface.len() > 0 ==> b == (SetupView {
                interface: s.interface.drop_last(),
                ..s
            }))
            &&& s.focus == Field::BaseUrl ==> t == (SetupView { base_url: s.base_url.push(c), ..s })
                && (s.base_url.len() > 0 ==> b == (SetupView {
                base_url: s.base_url.drop_last(),
                ..s
            }))
            &&& s.focus == Field::Username ==> t == (SetupView { username: s.username.push(c), ..s })
                && (s.username.len() > 0 ==> b == (SetupView {
                username: s.username.drop_last(),
                ..s
            }))
            &&& s.focus == Field::Password ==> t == (SetupView { password: s.password.push(c), ..s })
                && (s.password.len() > 0 ==> b == (SetupView {
                password: s.password.drop_last(),
                ..s
            }))
            &&& s.focus == Field::Backend ==> t == (SetupView { backend: s.backend.push(c), ..s })
                && (s.backend.len() > 0 ==> b == (SetupView { backend: s.backend.drop_last(), ..s }))
            &&& s.focus == Field::RouterEnabled ==> t == s && b == s
        }),
        pressed(s, Key::Esc).0 == (SetupView {
            editing: false,
            status: "Edit cancelled"@,
            status_ok: true,
            ..s
        }),
        ({
            let e = pressed(s, Key::Enter).0;
            &&& e == (SetupView {
                editing: false,
                status: s.focus.name() + " updated"@,
                status_ok: true,
                password_was_set: e.password_was_set,
                ..s
            })
            &&& s.focus == Field::Password && s.password.len() > 0 ==> e.password_was_set
            &&& s.focus != Field::Password || s.password.len() == 0 ==> e.password_was_set
                == s.password_was_set
        }),
{
}

/// A test of the connection begins only with the router switched on and with a password, of the
/// form, of the settings before or of the environment; else it says what is missing.
pub proof fn law_test_start(
    s: SetupView,
    before: Option<config::ConfigView>,
    variable: Option<Seq<char>>,
)
    ensures
        ({
            let t = test_start(s, before, variable);
            &&& t == (SetupView { status: t.status, status_ok: t.status_ok, ..s })
            &&& !s.router_enabled ==> t.status == "Router disabled — enable it to test."@
                && !t.status_ok
            &&& s.router_enabled && (s.password.len() > 0 || (variable matches Some(v) && v.len()
                > 0)) ==> t.status == "Testing login…"@ && t.status_ok
            &&& s.router_enabled && s.password.len() == 0 && before is None && variable is None
                ==> t.status == "No password set — enter password first."@ && !t.status_ok
            &&& s.router_enabled && (before matches Some(b) && (b.router.password matches Some(p)
                && p.len() > 0)) ==> t.status == "Testing login…"@ && t.status_ok
        }),
{
}

/// How a test of the connection ended.
pub proof fn law_test_message(o: TestOutcome)
    ensures
        o matches TestOutcome::NoClient(e) ==> test_message(o) == ("Client error: "@ + e@, false),
        o matches TestOutcome::NoLogin(e) ==> test_message(o) == ("Login failed: "@ + e@, false),
        o matches TestOutcome::NoDevices(e) ==> test_message(o) == (
            "Login OK but device list failed: "@ + e@,
            false,
        ),
        o matches TestOutcome::Listed { devices, per_host_traffic } ==> test_message(o) == (
            "OK — ZTE F670L · "@ + number::decimal(devices as nat) + " device(s) · "@ + if per_host_traffic {
                "per-host traffic available"@
            } else {
                "device list only (no per-host traffic)"@
            },
            true,
        ),
{
}

/// The form shows the fields in their order, each with its name and value; the one that is selected
/// has a mark, and a cursor while it is edited. The status is green or red as it is good or bad.
pub proof fn law_form(s: SetupView, i: int, path: Seq<char>)
    requires
        0 <= i < 6,
    ensures
        ({
            let f = fields()[i];
            let l = field_lines(s)[i];
            &&& field_lines(s).len() == 6 && l.len() == 3
            &&& s.focus == f && s.editing ==> l[0].text == "▸"@ + " "@
            &&& s.focus == f && !s.editing ==> l[0].text == "›"@ + " "@
            &&& s.focus != f ==> l[0].text == " "@ + " "@
            &&& l[1].text == text::padded(f.name(), 16)
            &&& f == Field::RouterEnabled ==> l[2].text == if s.router_enabled {
                " ● Yes "@
            } else {
                " ○ No  "@
            }
            &&& f != Field::RouterEnabled && s.focus == f && s.editing ==> l[2].text == " "@
                + shown_value(s, f) + "█ "@
            &&& f != Field::RouterEnabled && !(s.focus == f && s.editing) ==> l[2].text == " "@
                + shown_value(s, f) + " "@
        }),
        help_line(s)[1].text == s.focus.hint(),
        status_line(s)[0].text == " Status "@,
        status_line(s)[2].text == s.status,
        s.status_ok ==> status_line(s)[0].style.bg == Tint::Green && status_line(s)[2].style.fg
            == Tint::Green,
        !s.status_ok ==> status_line(s)[0].style.bg == Tint::Red && status_line(s)[2].style.fg
            == Tint::Red,
        intro(path)[0][0].text == "Configure WiFi interface and home router access"@,
        intro(path)[1][0].text == "Config file: "@ + path,
        actions()[0][0].text == " t "@ && actions()[0][1].text == " Test login   "@,
        actions()[0][2].text == " s "@ && actions()[0][3].text == " Save   "@,
        actions()[0][4].text == " w "@ && actions()[0][5].text == " Save & quit   "@,
        actions()[0][6].text == " q "@ && actions()[0][7].text == " Quit"@,
        actions()[1][0].text == " Tab/↑↓ move · Enter edit (or toggle) · Esc cancel edit"@,
{
}

/// An interface that does not exist is named and nothing is saved; what was written is said to be
/// saved, and leaving says so; a failure takes the place of the status, unless that names an
/// interface and the setup stays open.
pub proof fn law_saving(
    s: SetupView,
    before: Option<config::ConfigView>,
    path: Seq<char>,
    e: Seq<char>,
)
    ensures
        text::trim(s.interface).len() > 0 ==> {
            let t = save_start(s, before, false);
            &&& t.status == "Interface '"@ + text::trim(s.interface) + "' not found"@
            &&& !t.status_ok && t.saved == s.saved
            &&& after_failure(t, e, false) == t
            &&& after_failure(t, e, true).status == "Save failed: "@ + e
        },
        text::trim(s.interface).len() == 0 ==> save_start(s, before, false) == s,
        save_start(s, before, true) == s,
        ({
            let t = after_writing(s, path);
            &&& t.saved && t.status_ok && t.status == "Saved "@ + path
            &&& s.password.len() > 0 ==> t.password_was_set
            &&& settings(t, before) == settings(s, before)
            &&& !s.editing ==> pressed(t, Key::Esc).1 == (Action::Quit { saved: true })
        }),
        text::absent(s.status, "not found"@) ==> {
            let t = after_failure(s, e, false);
            &&& t.status == "Save failed: "@ + e && !t.status_ok && t.saved == s.saved
            &&& settings(t, before) == settings(s, before)
        },
{
    reveal_strlit("' not found");
    reveal_strlit("not found");
    text::law_find(s.status, "not found"@, 0);
    let n = text::trim(s.interface);
    let m = "Interface '"@ + n + "' not found"@;
    let k = "Interface '"@.len() + n.len() + 2;
    assert(m.subrange(k as int, k as int + "not found"@.len()) =~= "not found"@);
    assert(text::occurs_at(m, "not found"@, k as int));
    text::lemma_find_from(m, "not found"@, 0);
}

} // verus!
