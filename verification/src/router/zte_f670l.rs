//! A session with the admin pages of a ZTE F670L.
//!
//! The session decides which request comes next and what each reply means; sending is left to the
//! caller. An operation begins with one of the methods named after it, which gives the first
//! [`Step`]. While a step is a request, the caller sends it and hands the [`Reply`] back through
//! [`ZteF670l::resume`] together with the [`Job`] that came with the request.

use crate::model;
use crate::model::{BlockedDevice, Device, LinkKind, MacFilterStatus};
use crate::number;
use crate::router;
use crate::router::crypto;
use crate::router::crypto::{PublicKey, PublicKeyView};
use crate::router::devices;
use crate::router::filter;
use crate::router::json;
use crate::router::json::JsonMember;
use crate::router::page;
use crate::router::xml;
use crate::router::xml::XmlNode;
use crate::router::RouterCaps;
use crate::text;
use vstd::prelude::*;

verus! {

/// The key for which the admin pages encrypt the check of a form.
pub const ZTE_PUBKEY_PEM: &'static str = "-----BEGIN PUBLIC KEY-----
MIIBIjANBgkqhkiG9w0BAQEFAAOCAQ8AMIIBCgKCAQEAodPTerkUVCYmv28SOfRV
7UKHVujx/HjCUTAWy9l0L5H0JV0LfDudTdMNPEKloZsNam3YrtEnq6jqMLJV4ASb
1d6axmIgJ636wyTUS99gj4BKs6bQSTUSE8h/QkUYv4gEIt3saMS0pZpd90y6+B/9
hZxZE/RKU8e+zgRqp1/762TB7vcjtjOwXRDEL0w71Jk9i8VUQ59MR1Uj5E8X3WIc
fYSK5RWBkMhfaTRM6ozS9Bqhi40xlSOb3GBxCmliCifOJNLoO9kFoWgAIw5hkSIb
GH+4Csop9Uy8VvmmB+B3ubFLN35qIa5OG5+SDXn4L7FeAA5lRiGxRi8tsWrtew8w
nwIDAQAB
-----END PUBLIC KEY-----";

// ---------------------------------------------------------------------------------------------
// Requests, replies and what an operation does in between

/// What is asked of the router.
pub enum Task {
    Login,
    ListDevices,
    ListBlocked,
    FilterStatus,
    Block { mac: String, name: String },
    Unblock { inst_id: String },
}

/// The model of a [`Task`].
pub enum TaskView {
    Login,
    ListDevices,
    ListBlocked,
    FilterStatus,
    Block { mac: Seq<char>, name: Seq<char> },
    Unblock { inst_id: Seq<char> },
}

impl View for Task {
    type V = TaskView;

    open spec fn view(&self) -> TaskView {
        match *self {
            Task::Login => TaskView::Login,
            Task::ListDevices => TaskView::ListDevices,
            Task::ListBlocked => TaskView::ListBlocked,
            Task::FilterStatus => TaskView::FilterStatus,
            Task::Block { mac, name } => TaskView::Block { mac: mac@, name: name@ },
            Task::Unblock { inst_id } => TaskView::Unblock { inst_id: inst_id@ },
        }
    }
}

/// The pages that list devices, in the order in which they are tried.
#[derive(Debug, Clone, Copy, PartialEq, Eq, Structural)]
pub enum DevicePage {
    Homepage,
    All,
    Wlan,
}

/// Which reply an operation waits for.
#[derive(Debug, Clone, Copy, PartialEq, Eq, Structural)]
pub enum Stage {
    /// The front page before the login.
    Front,
    /// The token with which the password is hashed.
    Token,
    /// The answer to the login form.
    Entry,
    /// The front page after the login.
    Home { refreshed: bool },
    /// The filter page, to see whether devices can be blocked.
    ProbePage,
    /// The block list, to see whether devices can be blocked.
    ProbeList,
    /// A page that lists devices.
    Devices { page: DevicePage },
    /// The filter page before the block list.
    BlockedPage,
    /// The block list.
    BlockedList,
    /// The filter page before its switches.
    SwitchPage,
    /// The switches of the filter.
    Switches,
    /// The filter page before a change.
    FormPage,
    /// The answer to a change.
    Form,
}

/// An operation between two steps.
pub struct Job {
    task: Task,
    stage: Stage,
    /// Why the operation logged in again, where it did.
    was: Option<String>,
}

/// The model of a [`Job`].
pub struct JobView {
    pub task: TaskView,
    pub stage: Stage,
    pub was: Option<Seq<char>>,
}

impl View for Job {
    type V = JobView;

    closed spec fn view(&self) -> JobView {
        JobView { task: self.task@, stage: self.stage, was: text::opt_text(self.was) }
    }
}

/// A request to the router. Every request names the front page as its referrer.
pub enum Request {
    Get { url: String, referer: String },
    /// A form whose fields are sent encoded.
    Login { url: String, referer: String, form: Vec<(String, String)> },
    /// A form that is sent as it is, with the check of [`ZteF670l::post_filter`].
    Filter { body: String },
}

/// The model of a [`Request`].
pub enum RequestView {
    Get { url: Seq<char>, referer: Seq<char> },
    Login { url: Seq<char>, referer: Seq<char>, form: Seq<(Seq<char>, Seq<char>)> },
    Filter { body: Seq<char> },
}

/// The model of the fields of a form.
pub open spec fn form_view(form: Seq<(String, String)>) -> Seq<(Seq<char>, Seq<char>)> {
    form.map_values(|e: (String, String)| (e.0@, e.1@))
}

impl View for Request {
    type V = RequestView;

    open spec fn view(&self) -> RequestView {
        match *self {
            Request::Get { url, referer } => RequestView::Get { url: url@, referer: referer@ },
            Request::Login { url, referer, form } => RequestView::Login {
                url: url@,
                referer: referer@,
                form: form_view(form@),
            },
            Request::Filter { body } => RequestView::Filter { body: body@ },
        }
    }
}

/// What became of a request.
pub enum Reply {
    /// It could not be put together, and why.
    Unmade(String),
    /// It could not be sent or was not answered.
    Unsent,
    /// It was answered.
    Answer {
        success: bool,
        /// The status code and its reason.
        status: String,
        /// The body, where it could be read.
        body: Option<String>,
    },
}

/// The model of a [`Reply`].
pub enum ReplyView {
    Unmade(Seq<char>),
    Unsent,
    Answer { success: bool, status: Seq<char>, body: Option<Seq<char>> },
}

impl View for Reply {
    type V = ReplyView;

    open spec fn view(&self) -> ReplyView {
        match *self {
            Reply::Unmade(e) => ReplyView::Unmade(e@),
            Reply::Unsent => ReplyView::Unsent,
            Reply::Answer { success, status, body } => ReplyView::Answer {
                success,
                status: status@,
                body: text::opt_text(body),
            },
        }
    }
}

/// How an operation ended.
pub enum Outcome {
    LoggedIn,
    Devices(Vec<Device>),
    Blocked(Vec<BlockedDevice>),
    Status(MacFilterStatus),
    Changed,
    Failed(String),
}

/// The model of an [`Outcome`].
pub enum OutcomeView {
    LoggedIn,
    Devices(Seq<model::DeviceView>),
    Blocked(Seq<model::BlockedDeviceView>),
    Status(model::MacFilterStatusView),
    Changed,
    Failed(Seq<char>),
}

impl View for Outcome {
    type V = OutcomeView;

    open spec fn view(&self) -> OutcomeView {
        match *self {
            Outcome::LoggedIn => OutcomeView::LoggedIn,
            Outcome::Devices(v) => OutcomeView::Devices(model::device_views(v@)),
            Outcome::Blocked(v) => OutcomeView::Blocked(model::blocked_views(v@)),
            Outcome::Status(s) => OutcomeView::Status(s@),
            Outcome::Changed => OutcomeView::Changed,
            Outcome::Failed(e) => OutcomeView::Failed(e@),
        }
    }
}

/// The next step of an operation.
pub enum Step {
    /// Send the request and hand the reply back with the job.
    Send(Request, Job),
    Done(Outcome),
}

/// The model of a [`Step`].
pub enum StepView {
    Send(RequestView, JobView),
    Done(OutcomeView),
}

impl View for Step {
    type V = StepView;

    open spec fn view(&self) -> StepView {
        match *self {
            Step::Send(r, j) => StepView::Send(r@, j@),
            Step::Done(o) => StepView::Done(o@),
        }
    }
}

/// The model of a session.
pub struct SessionView {
    pub base_url: Seq<char>,
    pub username: Seq<char>,
    pub password: Seq<char>,
    pub session_token: Seq<char>,
    pub logged_in: bool,
    pub per_host_traffic: bool,
    pub can_block: bool,
    pub last_message: Seq<char>,
    pub key: PublicKeyView,
}

// ---------------------------------------------------------------------------------------------
// The protocol

/// The page on which the address filter is set up.
pub open spec fn filter_page() -> Seq<char> {
    "/?_type=menuView&_tag=filterCriteria"@
}

/// The page of the block list, which also takes changes to it.
pub open spec fn block_page() -> Seq<char> {
    "/?_type=menuData&_tag=firewall_macfilterv3_lua.lua"@
}

/// The place of a page that lists devices.
pub open spec fn device_path(page: DevicePage) -> Seq<char> {
    match page {
        DevicePage::Homepage => "/?_type=menuData&_tag=wlan_homepage_lua.lua"@,
        DevicePage::All => "/?_type=hiddenData&_tag=accessdev_data&DeveiceType=ALL"@,
        DevicePage::Wlan => "/?_type=hiddenData&_tag=accessdev_data&DeveiceType=WLAN"@,
    }
}

/// The link of the devices on a page.
pub open spec fn device_link(page: DevicePage) -> LinkKind {
    match page {
        DevicePage::Homepage => LinkKind::Wifi,
        DevicePage::All => LinkKind::Unknown,
        DevicePage::Wlan => LinkKind::Wifi,
    }
}

/// The page to try after `page`.
pub open spec fn next_page(page: DevicePage) -> Option<DevicePage> {
    match page {
        DevicePage::Homepage => Some(DevicePage::All),
        DevicePage::All => Some(DevicePage::Wlan),
        DevicePage::Wlan => None,
    }
}

/// Ask for a page.
pub open spec fn get(s: SessionView, path: Seq<char>, job: JobView) -> StepView {
    StepView::Send(
        RequestView::Get { url: s.base_url + path, referer: s.base_url + "/"@ },
        job,
    )
}

/// Give up.
pub open spec fn fail(s: SessionView, message: Seq<char>) -> (SessionView, StepView) {
    (s, StepView::Done(OutcomeView::Failed(message)))
}

/// The page that a reply brought, or why there is none.
pub open spec fn page_text(s: SessionView, path: Seq<char>, reply: ReplyView) -> Result<
    Seq<char>,
    Seq<char>,
> {
    let url = s.base_url + path;
    match reply {
        ReplyView::Unmade(e) => Err(e),
        ReplyView::Unsent => Err("GET "@ + url),
        ReplyView::Answer { success, status, body } => if !success {
            Err("GET "@ + url + " -> HTTP "@ + status)
        } else {
            match body {
                Some(b) => Ok(b),
                None => Err("reading response body"@),
            }
        },
    }
}

/// The body of a reply to a form, empty where it could not be read.
pub open spec fn body_text(reply: ReplyView) -> Seq<char> {
    match reply {
        ReplyView::Answer { success, status, body: Some(b) } => b,
        _ => seq![],
    }
}

/// The session after it saw a page, whose token it takes over.
pub open spec fn with_token(s: SessionView, body: Seq<char>) -> SessionView {
    match page::session_token(body) {
        Some(t) => SessionView { session_token: t, ..s },
        None => s,
    }
}

/// The session after the filter page was asked for, and whether that page was shown.
pub open spec fn primed(s: SessionView, reply: ReplyView) -> (SessionView, Result<(), Seq<char>>) {
    match page_text(s, filter_page(), reply) {
        Err(e) => (s, Err(e)),
        Ok(body) => (
            with_token(s, body),
            if text::contains(body, "SessionTimeout"@) {
                Err("session timeout opening filter page"@)
            } else {
                Ok(())
            },
        ),
    }
}

/// The block list page that a reply brought, or why there is none.
pub open spec fn block_text(s: SessionView, reply: ReplyView) -> Result<Seq<char>, Seq<char>> {
    match page_text(s, block_page(), reply) {
        Err(e) => Err(e),
        Ok(body) => if text::contains(body, "SessionTimeout"@) {
            Err("session timeout fetching MAC filter"@)
        } else {
            Ok(body)
        },
    }
}

/// Log in.
pub open spec fn login_start(s: SessionView, task: TaskView, was: Option<Seq<char>>) -> (
    SessionView,
    StepView,
) {
    (
        SessionView { logged_in: false, can_block: false, ..s },
        get(s, "/"@, JobView { task, stage: Stage::Front, was }),
    )
}

/// The token in the answer `body`, whose nodes are `nodes` where it is a document.
pub open spec fn login_token(body: Seq<char>, nodes: Option<Seq<xml::XmlNodeView>>) -> Option<
    Seq<char>,
> {
    let in_document = match nodes {
        Some(n) => xml::first_text(n, "ajax_response_xml_root"@, 0),
        None => None,
    };
    match in_document {
        Some(t) if t.len() > 0 => Some(t),
        _ => match page::between(body, ">"@, "<"@) {
            Some(t) if text::trim(t).len() > 0 => Some(text::trim(t)),
            _ => None,
        },
    }
}

/// The login form.
pub open spec fn login_form(s: SessionView, token: Seq<char>) -> Seq<(Seq<char>, Seq<char>)> {
    seq![
        ("action"@, "login"@),
        ("Username"@, s.username),
        ("Password"@, crypto::hashed_password(s.password, token)),
        ("_sessionTOKEN"@, s.session_token),
    ]
}

/// The front page came: ask for the token.
pub open spec fn after_front(s: SessionView, job: JobView, reply: ReplyView) -> (
    SessionView,
    StepView,
) {
    match page_text(s, "/"@, reply) {
        Err(e) => fail(s, e),
        Ok(body) => {
            let t = with_token(s, body);
            (
                t,
                get(
                    t,
                    "/?_type=loginData&_tag=login_token"@,
                    JobView { stage: Stage::Token, ..job },
                ),
            )
        },
    }
}

/// The token came: send the login form.
pub open spec fn after_token(
    s: SessionView,
    job: JobView,
    reply: ReplyView,
    nodes: Option<Seq<xml::XmlNodeView>>,
) -> (SessionView, StepView) {
    match page_text(s, "/?_type=loginData&_tag=login_token"@, reply) {
        Err(e) => fail(s, e),
        Ok(body) => match login_token(body, nodes) {
            None => fail(s, "could not parse login token from router response"@),
            Some(token) => (
                s,
                StepView::Send(
                    RequestView::Login {
                        url: s.base_url + "/?_type=loginData&_tag=login_entry"@,
                        referer: s.base_url + "/"@,
                        form: login_form(s, token),
                    },
                    JobView { stage: Stage::Entry, ..job },
                ),
            ),
        },
    }
}

/// What the members of the answer to the login form say.
pub open spec fn after_members(
    s: SessionView,
    job: JobView,
    members: Seq<json::JsonMemberView>,
) -> (SessionView, StepView) {
    let t = match json::text_member(members, "sess_token"@) {
        Some(token) => SessionView { session_token: token, ..s },
        None => s,
    };
    let error = json::text_member(members, "loginErrMsg"@);
    let lock = json::integer_member(members, "lockingTime"@);
    if error is Some && text::trim(error.unwrap()).len() > 0 {
        let message = "login failed: "@ + error.unwrap();
        fail(SessionView { last_message: message, ..t }, message)
    } else if lock is Some && lock.unwrap() > 0 {
        let prompt = match json::text_member(members, "promptMsg"@) {
            Some(p) => p,
            None => "locked out"@,
        };
        let message = "login locked ("@ + number::decimal(lock.unwrap() as nat) + "s): "@ + prompt;
        fail(SessionView { last_message: message, ..t }, message)
    } else {
        let refreshed = json::boolean_member(members, "login_need_refresh"@) == Some(true);
        (t, get(t, "/"@, JobView { stage: Stage::Home { refreshed }, ..job }))
    }
}

/// The answer to the login form came, with the members `members` where it is JSON.
pub open spec fn after_entry(
    s: SessionView,
    job: JobView,
    reply: ReplyView,
    members: Option<Seq<json::JsonMemberView>>,
) -> (SessionView, StepView) {
    let url = s.base_url + "/?_type=loginData&_tag=login_entry"@;
    match reply {
        ReplyView::Unmade(e) => fail(s, e),
        ReplyView::Unsent => fail(s, "POST login "@ + url),
        ReplyView::Answer { success, status, body } => if !success {
            fail(
                s,
                "login HTTP "@ + status + ": "@ + page::truncated(body_text(reply), 200),
            )
        } else {
            match members {
                None => fail(
                    s,
                    "login response not JSON: "@ + page::truncated(body_text(reply), 180),
                ),
                Some(m) => after_members(s, job, m),
            }
        },
    }
}

/// The front page `body` shows that the login worked, or the answer to the form already did.
pub open spec fn is_home(body: Seq<char>, refreshed: bool) -> bool {
    text::contains(body, "Logout"@) || !text::contains(body, "Frm_Password"@) || refreshed
}

/// The front page came again: the session is logged in, unless the page asks for the password.
/// After the first login of an operation the router is probed; after another one the operation
/// goes on.
pub open spec fn after_home(s: SessionView, job: JobView, reply: ReplyView, refreshed: bool) -> (
    SessionView,
    StepView,
) {
    match page_text(s, "/"@, reply) {
        Err(e) => fail(s, e),
        Ok(body) => if !is_home(body, refreshed) {
            let message = "login response unclear (still on login page)"@;
            fail(SessionView { last_message: message, ..s }, message)
        } else {
            let t = SessionView {
                logged_in: true,
                last_message: "login OK"@,
                ..with_token(s, body)
            };
            match job.was {
                None => {
                    let u = SessionView { per_host_traffic: false, ..t };
                    (u, get(u, filter_page(), JobView { stage: Stage::ProbePage, ..job }))
                },
                Some(_) => go_on(t, job.task, job.was),
            }
        },
    }
}

/// The session after it was probed whether devices can be blocked.
pub open spec fn probed(s: SessionView, can_block: bool) -> SessionView {
    SessionView {
        can_block,
        last_message: if can_block {
            "login OK · block supported · no per-host traffic on this firmware"@
        } else {
            "login OK · device list only"@
        },
        ..s
    }
}

/// The filter page came in answer to the probe.
pub open spec fn after_probe_page(s: SessionView, job: JobView, reply: ReplyView) -> (
    SessionView,
    StepView,
) {
    let (t, shown) = primed(s, reply);
    match shown {
        Err(_) => go_on(probed(t, false), job.task, None),
        Ok(_) => (t, get(t, block_page(), JobView { stage: Stage::ProbeList, ..job })),
    }
}

/// The block list came in answer to the probe.
pub open spec fn after_probe_list(s: SessionView, job: JobView, reply: ReplyView) -> (
    SessionView,
    StepView,
) {
    go_on(probed(s, block_text(s, reply) is Ok), job.task, None)
}

/// The session is logged in: do what was asked.
pub open spec fn go_on(s: SessionView, task: TaskView, was: Option<Seq<char>>) -> (
    SessionView,
    StepView,
) {
    match task {
        TaskView::Login => (s, StepView::Done(OutcomeView::LoggedIn)),
        TaskView::ListDevices => (
            s,
            get(
                s,
                device_path(DevicePage::Homepage),
                JobView { task, stage: Stage::Devices { page: DevicePage::Homepage }, was },
            ),
        ),
        TaskView::ListBlocked => (
            s,
            get(s, filter_page(), JobView { task, stage: Stage::BlockedPage, was }),
        ),
        TaskView::FilterStatus => (
            s,
            get(s, filter_page(), JobView { task, stage: Stage::SwitchPage, was }),
        ),
        TaskView::Block { mac, name } => if model::normalized(mac) is None {
            fail(s, "invalid MAC address"@)
        } else {
            (s, get(s, filter_page(), JobView { task, stage: Stage::BlockedPage, was }))
        },
        TaskView::Unblock { inst_id } => if inst_id.len() == 0 {
            fail(s, "missing rule id"@)
        } else {
            (s, get(s, filter_page(), JobView { task, stage: Stage::FormPage, was }))
        },
    }
}

/// Why a page lists no devices, or its text.
pub open spec fn device_text(s: SessionView, page: DevicePage, reply: ReplyView) -> Result<
    Seq<char>,
    Seq<char>,
> {
    let path = device_path(page);
    match page_text(s, path, reply) {
        Err(e) => Err(e),
        Ok(body) => if text::contains(body, "SessionTimeout"@) {
            Err("session timeout on "@ + path)
        } else if text::contains(body, "OBJ_ACCESSDEV"@) || text::contains(body, "HostName"@) {
            Ok(body)
        } else {
            Err(
                "unexpected device payload on "@ + path + ": "@ + page::truncated(body, 120),
            )
        },
    }
}

/// The message after `n` devices were listed.
pub open spec fn devices_message(n: nat) -> Seq<char> {
    "login OK · "@ + number::decimal(n)
        + " client(s) · rates: this PC only (no per-host traffic on firmware)"@
}

/// A page came that should list devices, with the nodes `nodes` where it is a document. Where it
/// lists none the next one is tried; where none is left the operation logs in again, once.
pub open spec fn after_devices(
    s: SessionView,
    job: JobView,
    page: DevicePage,
    reply: ReplyView,
    nodes: Option<Seq<xml::XmlNodeView>>,
) -> (SessionView, StepView) {
    match device_text(s, page, reply) {
        Ok(body) => match devices::access_devices(body, nodes, device_link(page)) {
            Err(e) => fail(s, e),
            Ok(found) => (
                SessionView { last_message: devices_message(found.len()), ..s },
                StepView::Done(OutcomeView::Devices(found)),
            ),
        },
        Err(e) => match next_page(page) {
            Some(next) => (
                s,
                get(
                    s,
                    device_path(next),
                    JobView { stage: Stage::Devices { page: next }, ..job },
                ),
            ),
            None => match job.was {
                None => login_start(s, job.task, Some(e)),
                Some(was) => fail(
                    s,
                    "device list failed after re-login: "@ + e + " (was: "@ + was + ")"@,
                ),
            },
        },
    }
}

/// The block list could not be had: the operation logs in again, once.
pub open spec fn blocked_failed(s: SessionView, job: JobView, e: Seq<char>) -> (
    SessionView,
    StepView,
) {
    match job.was {
        None => login_start(s, job.task, Some(e)),
        Some(_) => fail(s, e),
    }
}

/// The filter page came before the block list.
pub open spec fn after_blocked_page(s: SessionView, job: JobView, reply: ReplyView) -> (
    SessionView,
    StepView,
) {
    let (t, shown) = primed(s, reply);
    match shown {
        Err(e) => blocked_failed(t, job, e),
        Ok(_) => (t, get(t, block_page(), JobView { stage: Stage::BlockedList, ..job })),
    }
}

/// The block list came. An address that it holds is not blocked again.
pub open spec fn after_blocked_list(s: SessionView, job: JobView, reply: ReplyView) -> (
    SessionView,
    StepView,
) {
    match block_text(s, reply) {
        Err(e) => blocked_failed(s, job, e),
        Ok(body) => {
            let t = SessionView { can_block: true, ..s };
            let list = filter::block_list(body);
            match job.task {
                TaskView::Block { mac, name } => {
                    let m = filter::or_empty(model::normalized(mac));
                    if filter::blocks(list, m) {
                        fail(t, "device "@ + m + " is already blocked"@)
                    } else {
                        (t, get(t, filter_page(), JobView { stage: Stage::FormPage, ..job }))
                    }
                },
                _ => (t, StepView::Done(OutcomeView::Blocked(list))),
            }
        },
    }
}

/// The filter page came before its switches, which are asked for in any case.
pub open spec fn after_switch_page(s: SessionView, job: JobView, reply: ReplyView) -> (
    SessionView,
    StepView,
) {
    let t = primed(s, reply).0;
    (
        t,
        get(
            t,
            "/?_type=menuData&_tag=firewall_filterglobal_lua.lua"@,
            JobView { stage: Stage::Switches, ..job },
        ),
    )
}

/// The switches of the filter came; without them the filter counts as switched off.
pub open spec fn after_switches(s: SessionView, reply: ReplyView) -> (SessionView, StepView) {
    let off = model::MacFilterStatusView { enabled: false, mode: seq![], can_block: s.can_block };
    let status = match page_text(s, "/?_type=menuData&_tag=firewall_filterglobal_lua.lua"@, reply) {
        Err(_) => off,
        Ok(body) => if text::contains(body, "SessionTimeout"@) {
            off
        } else {
            filter::filter_status(body, s.can_block)
        },
    };
    (s, StepView::Done(OutcomeView::Status(status)))
}

/// The form that blocks a device.
pub open spec fn apply_form(mac: Seq<char>, name: Seq<char>, token: Seq<char>) -> Seq<char> {
    "IF_ACTION=Apply&_InstID=-1&Name="@ + name + "&SrcMacAddr="@ + mac + "&DstMacAddr="@ + mac
        + "&Type=Bridge%2BRoute&Protocol=IP&_sessionTOKEN="@ + token
}

/// The form that removes a rule.
pub open spec fn delete_form(inst_id: Seq<char>, token: Seq<char>) -> Seq<char> {
    "IF_ACTION=Delete&_InstID="@ + inst_id + "&_sessionTOKEN="@ + token
}

/// The form of a change.
pub open spec fn change_form(task: TaskView, token: Seq<char>) -> Seq<char> {
    match task {
        TaskView::Block { mac, name } => apply_form(
            filter::or_empty(model::normalized(mac)),
            page::sanitized(name),
            token,
        ),
        TaskView::Unblock { inst_id } => delete_form(inst_id, token),
        _ => seq![],
    }
}

/// The message after a change.
pub open spec fn change_message(task: TaskView, before: Seq<char>) -> Seq<char> {
    match task {
        TaskView::Block { mac, name } => "blocked "@ + page::sanitized(name) + " ("@
            + filter::or_empty(model::normalized(mac)) + ")"@,
        TaskView::Unblock { inst_id } => "unblocked rule "@ + inst_id,
        _ => before,
    }
}

/// The filter page came with the token that a change needs: send the change.
pub open spec fn after_form_page(s: SessionView, job: JobView, reply: ReplyView) -> (
    SessionView,
    StepView,
) {
    let (t, shown) = primed(s, reply);
    match shown {
        Err(e) => fail(t, e),
        Ok(_) => (
            t,
            StepView::Send(
                RequestView::Filter { body: change_form(job.task, t.session_token) },
                JobView { stage: Stage::Form, ..job },
            ),
        ),
    }
}

/// A message of the router with its entities spelled out.
pub open spec fn plain_message(s: Seq<char>) -> Seq<char> {
    text::replace(
        text::replace(
            text::replace(text::replace(s, "&#32;"@, " "@), "&amp;"@, "&"@),
            "&lt;"@,
            "<"@,
        ),
        "&gt;"@,
        ">"@,
    )
}

/// Why the router refused a change, if it did.
pub open spec fn refusal(body: Seq<char>) -> Option<Seq<char>> {
    match page::xml_text(body, "IF_ERRORID"@) {
        Some(id) if id != "0"@ => {
            let message = match page::xml_text(body, "IF_ERRORSTR"@) {
                Some(m) => m,
                None => "error id "@ + id,
            };
            Some("router rejected change: "@ + plain_message(message) + " ("@ + id + ")"@)
        },
        _ => None,
    }
}

/// The answer to a change came.
pub open spec fn after_form(s: SessionView, job: JobView, reply: ReplyView) -> (
    SessionView,
    StepView,
) {
    match reply {
        ReplyView::Unmade(e) => fail(s, e),
        ReplyView::Unsent => fail(s, "POST "@ + (s.base_url + block_page())),
        ReplyView::Answer { success, status, body } => {
            let b = body_text(reply);
            if !success {
                fail(s, "POST filter HTTP "@ + status + ": "@ + page::truncated(b, 200))
            } else if text::contains(b, "SessionTimeout"@) {
                fail(s, "session timeout on filter POST"@)
            } else if refusal(b) is Some {
                fail(s, refusal(b).unwrap())
            } else {
                (
                    SessionView { last_message: change_message(job.task, s.last_message), ..s },
                    StepView::Done(OutcomeView::Changed),
                )
            }
        },
    }
}

/// The first step of an operation: do it, after a login where the session is not logged in.
pub open spec fn begun(s: SessionView, task: TaskView) -> (SessionView, StepView) {
    if task is Login || !s.logged_in {
        login_start(s, task, None)
    } else {
        go_on(s, task, None)
    }
}

/// The step after a reply, whose body has the members `members` where it is JSON and the nodes
/// `nodes` where it is a document.
#[verifier::opaque]
pub open spec fn resumed(
    s: SessionView,
    job: JobView,
    reply: ReplyView,
    members: Option<Seq<json::JsonMemberView>>,
    nodes: Option<Seq<xml::XmlNodeView>>,
) -> (SessionView, StepView) {
    match job.stage {
        Stage::Front => after_front(s, job, reply),
        Stage::Token => after_token(s, job, reply, nodes),
        Stage::Entry => after_entry(s, job, reply, members),
        Stage::Home { refreshed } => after_home(s, job, reply, refreshed),
        Stage::ProbePage => after_probe_page(s, job, reply),
        Stage::ProbeList => after_probe_list(s, job, reply),
        Stage::Devices { page } => after_devices(s, job, page, reply, nodes),
        Stage::BlockedPage => after_blocked_page(s, job, reply),
        Stage::BlockedList => after_blocked_list(s, job, reply),
        Stage::SwitchPage => after_switch_page(s, job, reply),
        Stage::Switches => after_switches(s, reply),
        Stage::FormPage => after_form_page(s, job, reply),
        Stage::Form => after_form(s, job, reply),
    }
}

/// The stage looks for a session token in the page `body`.
pub open spec fn reads_token(stage: Stage, body: Seq<char>) -> bool {
    match stage {
        Stage::Front
        | Stage::ProbePage
        | Stage::BlockedPage
        | Stage::SwitchPage
        | Stage::FormPage => true,
        Stage::Home { refreshed } => is_home(body, refreshed),
        _ => false,
    }
}

/// The stage reads the page `body` as a document.
pub open spec fn reads_document(stage: Stage, body: Seq<char>) -> bool {
    match stage {
        Stage::Token => true,
        Stage::Devices { .. } => !text::contains(body, "SessionTimeout"@) && (text::contains(
            body,
            "OBJ_ACCESSDEV"@,
        ) || text::contains(body, "HostName"@)),
        _ => false,
    }
}

/// The stage can read the reply. Where it looks for a session token, no window in which it does ends
/// within a character; where it reads a document, that does not go too deep.
pub open spec fn readable(stage: Stage, reply: ReplyView) -> bool {
    match reply {
        ReplyView::Answer { success: true, status, body: Some(body) } => {
            &&& reads_token(stage, body) ==> page::token_readable(body)
            &&& reads_document(stage, body) ==> xml::shallow(body)
        },
        _ => true,
    }
}

// ---------------------------------------------------------------------------------------------
// The session

/// A session with the admin pages of a ZTE F670L.
pub struct ZteF670l {
    base_url: String,
    username: String,
    password: String,
    session_token: String,
    logged_in: bool,
    per_host_traffic: bool,
    can_block: bool,
    last_message: String,
    pub_key: PublicKey,
}

impl View for ZteF670l {
    type V = SessionView;

    closed spec fn view(&self) -> SessionView {
        SessionView {
            base_url: self.base_url@,
            username: self.username@,
            password: self.password@,
            session_token: self.session_token@,
            logged_in: self.logged_in,
            per_host_traffic: self.per_host_traffic,
            can_block: self.can_block,
            last_message: self.last_message@,
            key: self.pub_key@,
        }
    }
}

/// A session that was just opened.
pub open spec fn opened(
    base_url: Seq<char>,
    username: Seq<char>,
    password: Seq<char>,
    key: PublicKeyView,
) -> SessionView {
    SessionView {
        base_url: text::trim_end_char(base_url, '/'),
        username,
        password,
        session_token: seq![],
        logged_in: false,
        per_host_traffic: false,
        can_block: false,
        last_message: "not connected"@,
        key,
    }
}

/// A change as it is sent.
pub struct FilterPost {
    pub url: String,
    pub referer: String,
    /// The encrypted digest of the body.
    pub check: String,
    pub body: String,
}

fn device_path_of(page: DevicePage) -> (r: &'static str)
    ensures
        r@ == device_path(page),
{
    match page {
        DevicePage::Homepage => "/?_type=menuData&_tag=wlan_homepage_lua.lua",
        DevicePage::All => "/?_type=hiddenData&_tag=accessdev_data&DeveiceType=ALL",
        DevicePage::Wlan => "/?_type=hiddenData&_tag=accessdev_data&DeveiceType=WLAN",
    }
}

fn device_link_of(page: DevicePage) -> (r: LinkKind)
    ensures
        r == device_link(page),
{
    match page {
        DevicePage::Homepage => LinkKind::Wifi,
        DevicePage::All => LinkKind::Unknown,
        DevicePage::Wlan => LinkKind::Wifi,
    }
}

fn next_page_of(page: DevicePage) -> (r: Option<DevicePage>)
    ensures
        r == next_page(page),
{
    match page {
        DevicePage::Homepage => Some(DevicePage::All),
        DevicePage::All => Some(DevicePage::Wlan),
        DevicePage::Wlan => None,
    }
}

fn failed(message: &str) -> (r: Step)
    ensures
        r@ == StepView::Done(OutcomeView::Failed(message@)),
{
    Step::Done(Outcome::Failed(message.to_owned()))
}

fn body_text_of(reply: &Reply) -> (r: String)
    ensures
        r@ == body_text(reply@),
{
    match reply {
        Reply::Answer { success: _, status: _, body: Some(b) } => b.clone(),
        _ => {
            let e: String = String::new();
            assert(e@ =~= seq![]);
            e
        },
    }
}

fn login_token_of(body: &str, nodes: &Option<Vec<XmlNode>>) -> (r: Option<String>)
    ensures
        text::opt_text(r) == login_token(body@, xml::opt_node_views(*nodes)),
{
    if let Some(n) = nodes {
        if let Some(t) = xml::first_text_of(n, "ajax_response_xml_root") {
            if !t.as_str().is_empty() {
                return Some(t);
            }
        }
    }
    match page::between_of(body, ">", "<") {
        Some(t) => {
            let t: String = text::trim_str(t.as_str());
            if t.as_str().is_empty() {
                None
            } else {
                Some(t)
            }
        },
        None => None,
    }
}

fn normalized_or_empty(mac: &str) -> (r: String)
    ensures
        r@ == filter::or_empty(model::normalized(mac@)),
{
    filter::or_empty_of(model::normalize_mac(mac))
}

fn is_home_of(body: &str, refreshed: bool) -> (r: bool)
    ensures
        r == is_home(body@, refreshed),
{
    text::contains_str(body, "Logout") || !text::contains_str(body, "Frm_Password") || refreshed
}

fn change_form_of(task: &Task, token: &str) -> (r: String)
    ensures
        r@ == change_form(task@, token@),
{
    match task {
        Task::Block { mac, name } => {
            let m: String = normalized_or_empty(mac.as_str());
            "IF_ACTION=Apply&_InstID=-1&Name=".to_owned().concat(
                page::sanitize_name(name.as_str()).as_str(),
            ).concat("&SrcMacAddr=").concat(m.as_str()).concat("&DstMacAddr=").concat(
                m.as_str(),
            ).concat("&Type=Bridge%2BRoute&Protocol=IP&_sessionTOKEN=").concat(token)
        },
        Task::Unblock { inst_id } => "IF_ACTION=Delete&_InstID=".to_owned().concat(
            inst_id.as_str(),
        ).concat("&_sessionTOKEN=").concat(token),
        _ => {
            let e: String = String::new();
            assert(e@ =~= seq![]);
            e
        },
    }
}

fn change_message_of(task: &Task, before: &str) -> (r: String)
    ensures
        r@ == change_message(task@, before@),
{
    match task {
        Task::Block { mac, name } => "blocked ".to_owned().concat(
            page::sanitize_name(name.as_str()).as_str(),
        ).concat(" (").concat(normalized_or_empty(mac.as_str()).as_str()).concat(")"),
        Task::Unblock { inst_id } => text::join2("unblocked rule ", inst_id.as_str()),
        _ => before.to_owned(),
    }
}

fn plain_message_of(s: &str) -> (r: String)
    ensures
        r@ == plain_message(s@),
{
    proof {
        reveal_strlit("&#32;");
        reveal_strlit("&amp;");
        reveal_strlit("&lt;");
        reveal_strlit("&gt;");
    }
    let a: String = text::replace_str(s, "&#32;", " ");
    let b: String = text::replace_str(a.as_str(), "&amp;", "&");
    let c: String = text::replace_str(b.as_str(), "&lt;", "<");
    text::replace_str(c.as_str(), "&gt;", ">")
}

fn refusal_of(body: &str) -> (r: Option<String>)
    ensures
        text::opt_text(r) == refusal(body@),
{
    match page::extract_xml_text(body, "IF_ERRORID") {
        Some(id) => {
            if text::same_text(id.as_str(), "0") {
                return None;
            }
            let message: String = match page::extract_xml_text(body, "IF_ERRORSTR") {
                Some(m) => m,
                None => text::join2("error id ", id.as_str()),
            };
            Some(
                "router rejected change: ".to_owned().concat(
                    plain_message_of(message.as_str()).as_str(),
                ).concat(" (").concat(id.as_str()).concat(")"),
            )
        },
        None => None,
    }
}

fn reads_document_of(stage: Stage, body: &str) -> (r: bool)
    ensures
        r == reads_document(stage, body@),
{
    match stage {
        Stage::Token => true,
        Stage::Devices { .. } => !text::contains_str(body, "SessionTimeout") && (
        text::contains_str(body, "OBJ_ACCESSDEV") || text::contains_str(body, "HostName")),
        _ => false,
    }
}

/// Whether the session can read the reply. Where it looks for a token, no window in which it does
/// may end within a character; where it reads a document, that may not go too deep.
pub fn can_resume(job: &Job, reply: &Reply) -> (r: bool)
    ensures
        r == readable(job@.stage, reply@),
{
    match reply {
        Reply::Answer { success: true, status: _, body: Some(body) } => {
            let reads: bool = match job.stage {
                Stage::Front
                | Stage::ProbePage
                | Stage::BlockedPage
                | Stage::SwitchPage
                | Stage::FormPage => true,
                Stage::Home { refreshed } => is_home_of(body.as_str(), refreshed),
                _ => false,
            };
            (!reads || page::token_readable_of(body.as_str())) && (!reads_document_of(
                job.stage,
                body.as_str(),
            ) || xml::shallow_of(body.as_str()))
        },
        _ => true,
    }
}

impl ZteF670l {
    /// Opens a session with the router at `base_url`.
    pub fn new(base_url: &str, username: &str, password: &str) -> (r: Result<ZteF670l, String>)
        ensures
            match crypto::key_of_pem(ZTE_PUBKEY_PEM@) {
                Some(key) => r matches Ok(s) && s@ == opened(base_url@, username@, password@, key),
                None => r matches Err(e) && e@ == "loading ZTE RSA public key"@,
            },
    {
        let pub_key: PublicKey = match PublicKey::from_pem(ZTE_PUBKEY_PEM) {
            Some(k) => k,
            None => {
                return Err("loading ZTE RSA public key".to_owned());
            },
        };
        let session_token: String = String::new();
        assert(session_token@ =~= seq![]);
        Ok(
            ZteF670l {
                base_url: text::trim_end_char_of(base_url, '/'),
                username: username.to_owned(),
                password: password.to_owned(),
                session_token,
                logged_in: false,
                per_host_traffic: false,
                can_block: false,
                last_message: "not connected".to_owned(),
                pub_key,
            },
        )
    }

    /// The name of the model.
    pub fn name(&self) -> (r: &'static str)
        ensures
            r@ == "ZTE F670L"@,
    {
        "ZTE F670L"
    }

    pub fn is_logged_in(&self) -> (r: bool)
        ensures
            r == self@.logged_in,
    {
        self.logged_in
    }

    /// What the router can do, and what the session last learned.
    pub fn capabilities(&self) -> (r: RouterCaps)
        ensures
            r@ == (router::RouterCapsView {
                per_host_traffic: self@.per_host_traffic,
                can_block: self@.can_block,
                message: self@.last_message,
            }),
    {
        RouterCaps {
            per_host_traffic: self.per_host_traffic,
            can_block: self.can_block,
            message: self.last_message.clone(),
        }
    }

    fn referer(&self) -> (r: String)
        ensures
            r@ == self@.base_url + "/"@,
    {
        text::join2(self.base_url.as_str(), "/")
    }

    fn ask(&self, path: &str, task: Task, stage: Stage, was: Option<String>) -> (r: Step)
        ensures
            r@ == get(
                self@,
                path@,
                JobView { task: task@, stage, was: text::opt_text(was) },
            ),
    {
        Step::Send(
            Request::Get {
                url: text::join2(self.base_url.as_str(), path),
                referer: self.referer(),
            },
            Job { task, stage, was },
        )
    }

    fn get_text(&self, path: &str, reply: &Reply) -> (r: Result<String, String>)
        ensures
            match r {
                Ok(b) => page_text(self@, path@, reply@) == Ok::<Seq<char>, Seq<char>>(b@) && (
                reply@ matches ReplyView::Answer { success, status, body } && success && body
                    == Some(b@)),
                Err(e) => page_text(self@, path@, reply@) == Err::<Seq<char>, Seq<char>>(e@),
            },
    {
        match reply {
            Reply::Unmade(e) => Err(e.clone()),
            Reply::Unsent => {
                let url: String = text::join2(self.base_url.as_str(), path);
                Err(text::join2("GET ", url.as_str()))
            },
            Reply::Answer { success, status, body } => {
                if !*success {
                    let url: String = text::join2(self.base_url.as_str(), path);
                    Err(
                        "GET ".to_owned().concat(url.as_str()).concat(" -> HTTP ").concat(
                            status.as_str(),
                        ),
                    )
                } else {
                    match body {
                        Some(b) => Ok(b.clone()),
                        None => Err("reading response body".to_owned()),
                    }
                }
            },
        }
    }

    fn take_token(&mut self, body: &str)
        requires
            page::token_readable(body@),
        ensures
            final(self)@ == with_token(old(self)@, body@),
    {
        if let Some(t) = page::extract_session_token_from_html(body) {
            self.session_token = t;
        }
    }

    fn prime_filter_menu(&mut self, reply: &Reply) -> (r: Result<(), String>)
        requires
            readable(Stage::FormPage, reply@),
        ensures
            primed(old(self)@, reply@).0 == final(self)@,
            match r {
                Ok(_) => primed(old(self)@, reply@).1 is Ok,
                Err(e) => primed(old(self)@, reply@).1 == Err::<(), Seq<char>>(e@),
            },
    {
        match self.get_text("/?_type=menuView&_tag=filterCriteria", reply) {
            Err(e) => Err(e),
            Ok(body) => {
                self.take_token(body.as_str());
                if text::contains_str(body.as_str(), "SessionTimeout") {
                    Err("session timeout opening filter page".to_owned())
                } else {
                    Ok(())
                }
            },
        }
    }

    fn fetch_blocked_xml(&self, reply: &Reply) -> (r: Result<String, String>)
        ensures
            match r {
                Ok(b) => block_text(self@, reply@) == Ok::<Seq<char>, Seq<char>>(b@),
                Err(e) => block_text(self@, reply@) == Err::<Seq<char>, Seq<char>>(e@),
            },
    {
        match self.get_text("/?_type=menuData&_tag=firewall_macfilterv3_lua.lua", reply) {
            Err(e) => Err(e),
            Ok(body) => {
                if text::contains_str(body.as_str(), "SessionTimeout") {
                    Err("session timeout fetching MAC filter".to_owned())
                } else {
                    Ok(body)
                }
            },
        }
    }

    fn do_login(&mut self, task: Task, was: Option<String>) -> (r: Step)
        ensures
            (final(self)@, r@) == login_start(old(self)@, task@, text::opt_text(was)),
    {
        self.logged_in = false;
        self.can_block = false;
        self.ask("/", task, Stage::Front, was)
    }

    fn ensure_logged_in(&mut self, task: Task) -> (r: Step)
        ensures
            (final(self)@, r@) == begun(old(self)@, task@),
    {
        let login: bool = matches!(task, Task::Login);
        if login || !self.logged_in {
            self.do_login(task, None)
        } else {
            self.go_on(task, None)
        }
    }

    fn go_on(&mut self, task: Task, was: Option<String>) -> (r: Step)
        ensures
            (final(self)@, r@) == go_on(old(self)@, task@, text::opt_text(was)),
    {
        let page: &str = "/?_type=menuView&_tag=filterCriteria";
        match task {
            Task::Login => Step::Done(Outcome::LoggedIn),
            Task::ListDevices => self.ask(
                device_path_of(DevicePage::Homepage),
                Task::ListDevices,
                Stage::Devices { page: DevicePage::Homepage },
                was,
            ),
            Task::ListBlocked => self.ask(page, Task::ListBlocked, Stage::BlockedPage, was),
            Task::FilterStatus => self.ask(page, Task::FilterStatus, Stage::SwitchPage, was),
            Task::Block { mac, name } => {
                if model::normalize_mac(mac.as_str()).is_none() {
                    failed("invalid MAC address")
                } else {
                    self.ask(page, Task::Block { mac, name }, Stage::BlockedPage, was)
                }
            },
            Task::Unblock { inst_id } => {
                if inst_id.as_str().is_empty() {
                    failed("missing rule id")
                } else {
                    self.ask(page, Task::Unblock { inst_id }, Stage::FormPage, was)
                }
            },
        }
    }

    // -----------------------------------------------------------------------------------------
    // Beginning

    /// Logs in, and finds out what the router can do.
    pub fn login(&mut self) -> (r: Step)
        ensures
            (final(self)@, r@) == begun(old(self)@, TaskView::Login),
    {
        self.ensure_logged_in(Task::Login)
    }

    /// Lists the devices that are connected to the router.
    pub fn list_devices(&mut self) -> (r: Step)
        ensures
            (final(self)@, r@) == begun(old(self)@, TaskView::ListDevices),
    {
        self.ensure_logged_in(Task::ListDevices)
    }

    /// Lists the devices that are blocked.
    pub fn list_blocked(&mut self) -> (r: Step)
        ensures
            (final(self)@, r@) == begun(old(self)@, TaskView::ListBlocked),
    {
        self.ensure_logged_in(Task::ListBlocked)
    }

    /// Asks for the state of the address filter.
    pub fn mac_filter_status(&mut self) -> (r: Step)
        ensures
            (final(self)@, r@) == begun(old(self)@, TaskView::FilterStatus),
    {
        self.ensure_logged_in(Task::FilterStatus)
    }

    /// Blocks the device with the address `mac`, under a name made of `name`.
    pub fn block_device(&mut self, mac: &str, name: &str) -> (r: Step)
        ensures
            (final(self)@, r@) == begun(old(self)@, TaskView::Block { mac: mac@, name: name@ }),
    {
        self.ensure_logged_in(Task::Block { mac: mac.to_owned(), name: name.to_owned() })
    }

    /// Removes the rule `inst_id`.
    pub fn unblock_device(&mut self, inst_id: &str) -> (r: Step)
        ensures
            (final(self)@, r@) == begun(old(self)@, TaskView::Unblock { inst_id: inst_id@ }),
    {
        self.ensure_logged_in(Task::Unblock { inst_id: inst_id.to_owned() })
    }

    // -----------------------------------------------------------------------------------------
    // Going on

    fn after_front(&mut self, job: Job, reply: &Reply) -> (r: Step)
        requires
            job@.stage == Stage::Front,
            readable(job@.stage, reply@),
        ensures
            (final(self)@, r@) == after_front(old(self)@, job@, reply@),
    {
        match self.get_text("/", reply) {
            Err(e) => failed(e.as_str()),
            Ok(body) => {
                self.take_token(body.as_str());
                self.ask(
                    "/?_type=loginData&_tag=login_token",
                    job.task,
                    Stage::Token,
                    job.was,
                )
            },
        }
    }

    fn after_token(&mut self, job: Job, reply: &Reply, nodes: &Option<Vec<XmlNode>>) -> (r: Step)
        ensures
            (final(self)@, r@) == after_token(
                old(self)@,
                job@,
                reply@,
                xml::opt_node_views(*nodes),
            ),
    {
        match self.get_text("/?_type=loginData&_tag=login_token", reply) {
            Err(e) => failed(e.as_str()),
            Ok(body) => match login_token_of(body.as_str(), nodes) {
                None => failed("could not parse login token from router response"),
                Some(token) => {
                    let hashed: String = crypto::hash_password(
                        self.password.as_str(),
                        token.as_str(),
                    );
                    let form: Vec<(String, String)> = vec![
                        ("action".to_owned(), "login".to_owned()),
                        ("Username".to_owned(), self.username.clone()),
                        ("Password".to_owned(), hashed),
                        ("_sessionTOKEN".to_owned(), self.session_token.clone()),
                    ];
                    assert(form_view(form@) =~= login_form(self@, token@));
                    Step::Send(
                        Request::Login {
                            url: text::join2(
                                self.base_url.as_str(),
                                "/?_type=loginData&_tag=login_entry",
                            ),
                            referer: self.referer(),
                            form,
                        },
                        Job { task: job.task, stage: Stage::Entry, was: job.was },
                    )
                },
            },
        }
    }

    fn after_members(&mut self, job: Job, members: &Vec<JsonMember>) -> (r: Step)
        ensures
            (final(self)@, r@) == after_members(old(self)@, job@, json::member_views(members@)),
    {
        if let Some(token) = json::text_member_of(members, "sess_token") {
            self.session_token = token;
        }
        if let Some(error) = json::text_member_of(members, "loginErrMsg") {
            if !text::trim_str(error.as_str()).as_str().is_empty() {
                self.last_message = text::join2("login failed: ", error.as_str());
                return failed(self.last_message.as_str());
            }
        }
        if let Some(lock) = json::integer_member_of(members, "lockingTime") {
            if lock > 0 {
                let prompt: String = match json::text_member_of(members, "promptMsg") {
                    Some(p) => p,
                    None => "locked out".to_owned(),
                };
                self.last_message =
                "login locked (".to_owned().concat(
                    number::decimal_of(lock as u64).as_str(),
                ).concat("s): ").concat(prompt.as_str());
                return failed(self.last_message.as_str());
            }
        }
        let refreshed: bool = match json::boolean_member_of(members, "login_need_refresh") {
            Some(b) => b,
            None => false,
        };
        self.ask("/", job.task, Stage::Home { refreshed }, job.was)
    }

    fn after_entry(
        &mut self,
        job: Job,
        reply: &Reply,
        members: &Option<Vec<JsonMember>>,
    ) -> (r: Step)
        ensures
            (final(self)@, r@) == after_entry(
                old(self)@,
                job@,
                reply@,
                json::opt_member_views(*members),
            ),
    {
        match reply {
            Reply::Unmade(e) => failed(e.as_str()),
            Reply::Unsent => {
                let url: String = text::join2(
                    self.base_url.as_str(),
                    "/?_type=loginData&_tag=login_entry",
                );
                failed(text::join2("POST login ", url.as_str()).as_str())
            },
            Reply::Answer { success, status, body: _ } => {
                let body: String = body_text_of(reply);
                if !*success {
                    let short: String = page::truncate(body.as_str(), 200);
                    return failed(
                        "login HTTP ".to_owned().concat(status.as_str()).concat(": ").concat(
                            short.as_str(),
                        ).as_str(),
                    );
                }
                match members {
                    None => failed(
                        text::join2(
                            "login response not JSON: ",
                            page::truncate(body.as_str(), 180).as_str(),
                        ).as_str(),
                    ),
                    Some(m) => self.after_members(job, m),
                }
            },
        }
    }

    fn after_home(&mut self, job: Job, reply: &Reply, refreshed: bool) -> (r: Step)
        requires
            readable(Stage::Home { refreshed }, reply@),
        ensures
            (final(self)@, r@) == after_home(old(self)@, job@, reply@, refreshed),
    {
        match self.get_text("/", reply) {
            Err(e) => failed(e.as_str()),
            Ok(body) => {
                if !is_home_of(body.as_str(), refreshed) {
                    self.last_message = "login response unclear (still on login page)".to_owned();
                    return failed(self.last_message.as_str());
                }
                self.take_token(body.as_str());
                self.logged_in = true;
                self.last_message = "login OK".to_owned();
                match job.was {
                    None => {
                        self.per_host_traffic = false;
                        self.ask(
                            "/?_type=menuView&_tag=filterCriteria",
                            job.task,
                            Stage::ProbePage,
                            None,
                        )
                    },
                    Some(was) => self.go_on(job.task, Some(was)),
                }
            },
        }
    }

    fn probed(&mut self, can_block: bool)
        ensures
            final(self)@ == probed(old(self)@, can_block),
    {
        self.can_block = can_block;
        self.last_message = if can_block {
            "login OK · block supported · no per-host traffic on this firmware".to_owned()
        } else {
            "login OK · device list only".to_owned()
        };
    }

    fn after_probe_page(&mut self, job: Job, reply: &Reply) -> (r: Step)
        requires
            readable(Stage::ProbePage, reply@),
        ensures
            (final(self)@, r@) == after_probe_page(old(self)@, job@, reply@),
    {
        match self.prime_filter_menu(reply) {
            Err(_) => {
                self.probed(false);
                self.go_on(job.task, None)
            },
            Ok(_) => self.ask(
                "/?_type=menuData&_tag=firewall_macfilterv3_lua.lua",
                job.task,
                Stage::ProbeList,
                job.was,
            ),
        }
    }

    fn after_probe_list(&mut self, job: Job, reply: &Reply) -> (r: Step)
        ensures
            (final(self)@, r@) == after_probe_list(old(self)@, job@, reply@),
    {
        let can_block: bool = self.fetch_blocked_xml(reply).is_ok();
        self.probed(can_block);
        self.go_on(job.task, None)
    }

    fn fetch_devices_xml(&self, page: DevicePage, reply: &Reply) -> (r: Result<String, String>)
        ensures
            match r {
                Ok(b) => device_text(self@, page, reply@) == Ok::<Seq<char>, Seq<char>>(b@),
                Err(e) => device_text(self@, page, reply@) == Err::<Seq<char>, Seq<char>>(e@),
            },
    {
        let path: &'static str = device_path_of(page);
        match self.get_text(path, reply) {
            Err(e) => Err(e),
            Ok(body) => {
                if text::contains_str(body.as_str(), "SessionTimeout") {
                    Err(text::join2("session timeout on ", path))
                } else if text::contains_str(body.as_str(), "OBJ_ACCESSDEV") || text::contains_str(
                    body.as_str(),
                    "HostName",
                ) {
                    Ok(body)
                } else {
                    Err(
                        "unexpected device payload on ".to_owned().concat(path).concat(": ").concat(
                            page::truncate(body.as_str(), 120).as_str(),
                        ),
                    )
                }
            },
        }
    }

    fn after_devices(
        &mut self,
        job: Job,
        page: DevicePage,
        reply: &Reply,
        nodes: &Option<Vec<XmlNode>>,
    ) -> (r: Step)
        ensures
            (final(self)@, r@) == after_devices(
                old(self)@,
                job@,
                page,
                reply@,
                xml::opt_node_views(*nodes),
            ),
    {
        match self.fetch_devices_xml(page, reply) {
            Ok(body) => match devices::devices_of_page(
                body.as_str(),
                nodes,
                device_link_of(page),
            ) {
                Err(e) => failed(e.as_str()),
                Ok(found) => {
                    assert(model::device_views(found@).len() == found@.len());
                    self.last_message =
                    "login OK · ".to_owned().concat(
                        number::decimal_of(found.len() as u64).as_str(),
                    ).concat(
                        " client(s) · rates: this PC only (no per-host traffic on firmware)",
                    );
                    Step::Done(Outcome::Devices(found))
                },
            },
            Err(e) => match next_page_of(page) {
                Some(next) => self.ask(
                    device_path_of(next),
                    job.task,
                    Stage::Devices { page: next },
                    job.was,
                ),
                None => match job.was {
                    None => self.do_login(job.task, Some(e)),
                    Some(was) => failed(
                        "device list failed after re-login: ".to_owned().concat(
                            e.as_str(),
                        ).concat(" (was: ").concat(was.as_str()).concat(")").as_str(),
                    ),
                },
            },
        }
    }

    fn blocked_failed(&mut self, job: Job, e: String) -> (r: Step)
        ensures
            (final(self)@, r@) == blocked_failed(old(self)@, job@, e@),
    {
        match job.was {
            None => self.do_login(job.task, Some(e)),
            Some(_) => failed(e.as_str()),
        }
    }

    fn after_blocked_page(&mut self, job: Job, reply: &Reply) -> (r: Step)
        requires
            readable(Stage::BlockedPage, reply@),
        ensures
            (final(self)@, r@) == after_blocked_page(old(self)@, job@, reply@),
    {
        match self.prime_filter_menu(reply) {
            Err(e) => self.blocked_failed(job, e),
            Ok(_) => self.ask(
                "/?_type=menuData&_tag=firewall_macfilterv3_lua.lua",
                job.task,
                Stage::BlockedList,
                job.was,
            ),
        }
    }

    fn after_blocked_list(&mut self, job: Job, reply: &Reply) -> (r: Step)
        ensures
            (final(self)@, r@) == after_blocked_list(old(self)@, job@, reply@),
    {
        match self.fetch_blocked_xml(reply) {
            Err(e) => self.blocked_failed(job, e),
            Ok(body) => {
                self.can_block = true;
                let list: Vec<BlockedDevice> = filter::parse_mac_filter_xml(body.as_str());
                match job.task {
                    Task::Block { mac, name } => {
                        let m: String = normalized_or_empty(mac.as_str());
                        if filter::blocks_of(&list, m.as_str()) {
                            failed(
                                text::join3("device ", m.as_str(), " is already blocked").as_str(),
                            )
                        } else {
                            self.ask(
                                "/?_type=menuView&_tag=filterCriteria",
                                Task::Block { mac, name },
                                Stage::FormPage,
                                job.was,
                            )
                        }
                    },
                    _ => Step::Done(Outcome::Blocked(list)),
                }
            },
        }
    }

    fn after_switch_page(&mut self, job: Job, reply: &Reply) -> (r: Step)
        requires
            readable(Stage::SwitchPage, reply@),
        ensures
            (final(self)@, r@) == after_switch_page(old(self)@, job@, reply@),
    {
        let _shown: Result<(), String> = self.prime_filter_menu(reply);
        self.ask(
            "/?_type=menuData&_tag=firewall_filterglobal_lua.lua",
            job.task,
            Stage::Switches,
            job.was,
        )
    }

    fn after_switches(&mut self, reply: &Reply) -> (r: Step)
        ensures
            (final(self)@, r@) == after_switches(old(self)@, reply@),
    {
        let mode: String = String::new();
        assert(mode@ =~= seq![]);
        let off: MacFilterStatus = MacFilterStatus {
            enabled: false,
            mode,
            can_block: self.can_block,
        };
        let status: MacFilterStatus = match self.get_text(
            "/?_type=menuData&_tag=firewall_filterglobal_lua.lua",
            reply,
        ) {
            Err(_) => off,
            Ok(body) => {
                if text::contains_str(body.as_str(), "SessionTimeout") {
                    off
                } else {
                    filter::parse_filter_status(body.as_str(), self.can_block)
                }
            },
        };
        Step::Done(Outcome::Status(status))
    }

    fn after_form_page(&mut self, job: Job, reply: &Reply) -> (r: Step)
        requires
            readable(Stage::FormPage, reply@),
        ensures
            (final(self)@, r@) == after_form_page(old(self)@, job@, reply@),
    {
        match self.prime_filter_menu(reply) {
            Err(e) => failed(e.as_str()),
            Ok(_) => {
                let body: String = change_form_of(&job.task, self.session_token.as_str());
                Step::Send(
                    Request::Filter { body },
                    Job { task: job.task, stage: Stage::Form, was: job.was },
                )
            },
        }
    }

    fn after_form(&mut self, job: Job, reply: &Reply) -> (r: Step)
        ensures
            (final(self)@, r@) == after_form(old(self)@, job@, reply@),
    {
        match reply {
            Reply::Unmade(e) => failed(e.as_str()),
            Reply::Unsent => {
                let url: String = text::join2(
                    self.base_url.as_str(),
                    "/?_type=menuData&_tag=firewall_macfilterv3_lua.lua",
                );
                failed(text::join2("POST ", url.as_str()).as_str())
            },
            Reply::Answer { success, status, body: _ } => {
                let body: String = body_text_of(reply);
                if !*success {
                    let short: String = page::truncate(body.as_str(), 200);
                    return failed(
                        "POST filter HTTP ".to_owned().concat(status.as_str()).concat(": ").concat(
                            short.as_str(),
                        ).as_str(),
                    );
                }
                if text::contains_str(body.as_str(), "SessionTimeout") {
                    return failed("session timeout on filter POST");
                }
                if let Some(e) = refusal_of(body.as_str()) {
                    return failed(e.as_str());
                }
                self.last_message = change_message_of(&job.task, self.last_message.as_str());
                Step::Done(Outcome::Changed)
            },
        }
    }

    /// The step after a reply, whose body has the members `members` where it is JSON and the nodes
    /// `nodes` where it is a document.
    pub fn resume_with(
        &mut self,
        job: Job,
        reply: &Reply,
        members: &Option<Vec<JsonMember>>,
        nodes: &Option<Vec<XmlNode>>,
    ) -> (r: Step)
        requires
            readable(job@.stage, reply@),
        ensures
            (final(self)@, r@) == resumed(
                old(self)@,
                job@,
                reply@,
                json::opt_member_views(*members),
                xml::opt_node_views(*nodes),
            ),
    {
        proof {
            reveal(resumed);
        }
        match job.stage {
            Stage::Front => self.after_front(job, reply),
            Stage::Token => self.after_token(job, reply, nodes),
            Stage::Entry => self.after_entry(job, reply, members),
            Stage::Home { refreshed } => self.after_home(job, reply, refreshed),
            Stage::ProbePage => self.after_probe_page(job, reply),
            Stage::ProbeList => self.after_probe_list(job, reply),
            Stage::Devices { page } => self.after_devices(job, page, reply, nodes),
            Stage::BlockedPage => self.after_blocked_page(job, reply),
            Stage::BlockedList => self.after_blocked_list(job, reply),
            Stage::SwitchPage => self.after_switch_page(job, reply),
            Stage::Switches => self.after_switches(reply),
            Stage::FormPage => self.after_form_page(job, reply),
            Stage::Form => self.after_form(job, reply),
        }
    }

    /// The step after the reply to the request that came with `job`.
    pub fn resume(&mut self, job: Job, reply: &Reply) -> (r: Step)
        requires
            readable(job@.stage, reply@),
        ensures
            (final(self)@, r@) == resumed(
                old(self)@,
                job@,
                reply@,
                json::json_members(body_text(reply@)),
                xml::document_nodes(body_text(reply@)),
            ),
    {
        proof {
            reveal(resumed);
        }
        let mut members: Option<Vec<JsonMember>> = None;
        let mut nodes: Option<Vec<XmlNode>> = None;
        if let Reply::Answer { success: true, status: _, body: _ } = reply {
            if let Stage::Entry = job.stage {
                members = json::parse_members(body_text_of(reply).as_str());
            }
        }
        if let Reply::Answer { success: true, status: _, body: Some(body) } = reply {
            if reads_document_of(job.stage, body.as_str()) {
                nodes = xml::parse_document(body.as_str());
            }
        }
        self.resume_with(job, reply, &members, &nodes)
    }

    /// The change `body` as it is sent: with the check of its digest, or why that cannot be had.
    pub fn post_filter(&self, body: &str) -> (r: Result<FilterPost, String>)
        ensures
            match r {
                Ok(p) => {
                    &&& p.url@ == self@.base_url + block_page()
                    &&& p.referer@ == self@.base_url + "/"@
                    &&& p.body@ == body@
                    &&& crypto::is_check(self@.key, body@, p.check@)
                },
                Err(e) => self@.key.modulus.len() < crypto::check_message(body@).len() + 11 && e@
                    == "RSA encrypt Check header"@,
            },
    {
        match crypto::make_check_header(&self.pub_key, body) {
            Ok(check) => Ok(
                FilterPost {
                    url: text::join2(
                        self.base_url.as_str(),
                        "/?_type=menuData&_tag=firewall_macfilterv3_lua.lua",
                    ),
                    referer: self.referer(),
                    check,
                    body: body.to_owned(),
                },
            ),
            Err(e) => Err(e),
        }
    }
}

// ---------------------------------------------------------------------------------------------
// Laws

/// The operation can change the block list: it has an address or a rule to do so with.
pub open spec fn is_change(task: TaskView) -> bool {
    match task {
        TaskView::Block { mac, name } => model::normalized(mac) is Some,
        TaskView::Unblock { inst_id } => inst_id.len() > 0,
        _ => false,
    }
}

/// A task for which an operation may log in a second time.
pub open spec fn may_log_in_again(task: TaskView) -> bool {
    task is ListDevices || task is ListBlocked || (task is Block && is_change(task))
}

/// The session and the job are those of one operation: while it logs in, the session is not logged
/// in; afterwards it is, and the operation waits for a reply that it needs.
pub open spec fn consistent(s: SessionView, job: JobView) -> bool {
    &&& job.was is Some ==> may_log_in_again(job.task)
    &&& match job.stage {
        Stage::Front | Stage::Token | Stage::Entry | Stage::Home { .. } => !s.logged_in,
        Stage::ProbePage | Stage::ProbeList => s.logged_in && job.was is None,
        Stage::Devices { .. } => s.logged_in && job.task is ListDevices,
        Stage::BlockedPage | Stage::BlockedList => s.logged_in && (job.task is ListBlocked || (
        job.task is Block && is_change(job.task))),
        Stage::SwitchPage | Stage::Switches => s.logged_in && job.task is FilterStatus,
        Stage::FormPage | Stage::Form => s.logged_in && is_change(job.task),
    }
}

/// The stage belongs to a login.
pub open spec fn is_login(stage: Stage) -> bool {
    stage is Front || stage is Token || stage is Entry || stage is Home
}

/// The outcome answers the task.
pub open spec fn fits(o: OutcomeView, task: TaskView) -> bool {
    match task {
        TaskView::Login => o is LoggedIn,
        TaskView::ListDevices => o is Devices,
        TaskView::ListBlocked => o is Blocked,
        TaskView::FilterStatus => o is Status,
        TaskView::Block { .. } => o is Changed,
        TaskView::Unblock { .. } => o is Changed,
    }
}

/// The two sessions belong to the same user of the same router, and use the same key.
pub open spec fn same_account(a: SessionView, b: SessionView) -> bool {
    &&& a.base_url == b.base_url
    &&& a.username == b.username
    &&& a.password == b.password
    &&& a.key == b.key
}

/// The request goes to the router of the session, with the front page as its referrer.
pub open spec fn on_router(s: SessionView, r: RequestView) -> bool {
    match r {
        RequestView::Get { url, referer } => text::starts_with(url, s.base_url) && referer
            == s.base_url + "/"@,
        RequestView::Login { url, referer, form } => text::starts_with(url, s.base_url) && referer
            == s.base_url + "/"@,
        RequestView::Filter { .. } => true,
    }
}

/// A login form carries the digest of the password and a token in place of the password.
pub open spec fn hides_password(s: SessionView, r: RequestView) -> bool {
    r matches RequestView::Login { url, referer, form } ==> exists|token: Seq<char>|
        form == #[trigger] login_form(s, token)
}

/// A change says exactly what the task asks for: the address in colon notation and the harmless
/// name, or the rule to remove.
pub open spec fn says_change(t: SessionView, r: RequestView, task: TaskView) -> bool {
    r matches RequestView::Filter { body } ==> match task {
        TaskView::Block { mac, name } => model::normalized(mac) is Some && body == apply_form(
            model::normalized(mac).unwrap(),
            page::sanitized(name),
            t.session_token,
        ),
        TaskView::Unblock { inst_id } => inst_id.len() > 0 && body == delete_form(
            inst_id,
            t.session_token,
        ),
        _ => false,
    }
}

/// How many replies the stage waits for at most, without another login.
pub open spec fn stage_rank(stage: Stage) -> nat {
    match stage {
        Stage::Front => 10,
        Stage::Token => 9,
        Stage::Entry => 8,
        Stage::Home { .. } => 7,
        Stage::ProbePage => 6,
        Stage::ProbeList => 5,
        Stage::Devices { page: DevicePage::Homepage } => 3,
        Stage::Devices { page: DevicePage::All } => 2,
        Stage::Devices { page: DevicePage::Wlan } => 1,
        Stage::BlockedPage => 4,
        Stage::BlockedList => 3,
        Stage::SwitchPage => 2,
        Stage::Switches => 1,
        Stage::FormPage => 2,
        Stage::Form => 1,
    }
}

/// How many replies an operation waits for at most.
pub open spec fn rank(job: JobView) -> nat {
    if job.was is None {
        stage_rank(job.stage) + 10
    } else {
        stage_rank(job.stage)
    }
}

/// What is true of the step that the session `s` takes for the task `task` to become `t`.
pub open spec fn sound(s: SessionView, t: SessionView, step: StepView, task: TaskView) -> bool {
    &&& same_account(s, t)
    &&& match step {
        StepView::Send(r, next) => {
            &&& next.task == task
            &&& consistent(t, next)
            &&& on_router(s, r)
            &&& hides_password(s, r)
            &&& says_change(t, r, task)
        },
        StepView::Done(o) => o is Failed || (fits(o, task) && t.logged_in),
    }
}

/// What is true of the step after a reply to `job` on the session `s`.
pub open spec fn sound_after(s: SessionView, job: JobView, after: (SessionView, StepView)) -> bool {
    &&& sound(s, after.0, after.1, job.task)
    &&& after.1 matches StepView::Send(_, next) ==> rank(next) < rank(job)
    &&& is_login(job.stage) && after.1 is Done && after.1->Done_0 is Failed ==> !after.0.logged_in
}

proof fn lemma_begins(s: SessionView, path: Seq<char>)
    ensures
        text::starts_with(s.base_url + path, s.base_url),
{
    assert((s.base_url + path).take(s.base_url.len() as int) =~= s.base_url);
}

proof fn lemma_begin_all(s: SessionView)
    ensures
        forall|path: Seq<char>| #[trigger] text::starts_with(s.base_url + path, s.base_url),
{
    assert forall|path: Seq<char>| #[trigger] text::starts_with(s.base_url + path, s.base_url) by {
        lemma_begins(s, path);
    }
}

proof fn lemma_after_front(
    s: SessionView,
    job: JobView,
    reply: ReplyView,
)
    requires
        consistent(s, job),
        job.stage is Front,
    ensures
        sound_after(s, job, after_front(s, job, reply)),
{
    lemma_begin_all(s);
}

proof fn lemma_after_token(
    s: SessionView,
    job: JobView,
    reply: ReplyView,
    nodes: Option<Seq<xml::XmlNodeView>>,
)
    requires
        consistent(s, job),
        job.stage is Token,
    ensures
        sound_after(s, job, after_token(s, job, reply, nodes)),
{
    lemma_begin_all(s);
    if let Ok(body) = page_text(s, "/?_type=loginData&_tag=login_token"@, reply) {
        if let Some(token) = login_token(body, nodes) {
            assert(login_form(s, token) == login_form(s, token));
        }
    }
}

proof fn lemma_after_entry(
    s: SessionView,
    job: JobView,
    reply: ReplyView,
    members: Option<Seq<json::JsonMemberView>>,
)
    requires
        consistent(s, job),
        job.stage is Entry,
    ensures
        sound_after(s, job, after_entry(s, job, reply, members)),
{
    lemma_begin_all(s);
}

proof fn lemma_after_home(
    s: SessionView,
    job: JobView,
    reply: ReplyView,
    refreshed: bool,
)
    requires
        consistent(s, job),
        job.stage == (Stage::Home { refreshed }),
    ensures
        sound_after(s, job, after_home(s, job, reply, refreshed)),
{
    lemma_begin_all(s);
}

proof fn lemma_after_probe_page(
    s: SessionView,
    job: JobView,
    reply: ReplyView,
)
    requires
        consistent(s, job),
        job.stage is ProbePage,
    ensures
        sound_after(s, job, after_probe_page(s, job, reply)),
{
    lemma_begin_all(s);
}

proof fn lemma_after_probe_list(
    s: SessionView,
    job: JobView,
    reply: ReplyView,
)
    requires
        consistent(s, job),
        job.stage is ProbeList,
    ensures
        sound_after(s, job, after_probe_list(s, job, reply)),
{
    lemma_begin_all(s);
}

proof fn lemma_after_devices(
    s: SessionView,
    job: JobView,
    reply: ReplyView,
    nodes: Option<Seq<xml::XmlNodeView>>,
    page: DevicePage,
)
    requires
        consistent(s, job),
        job.stage == (Stage::Devices { page }),
    ensures
        sound_after(s, job, after_devices(s, job, page, reply, nodes)),
{
    lemma_begin_all(s);
}

proof fn lemma_after_blocked_page(
    s: SessionView,
    job: JobView,
    reply: ReplyView,
)
    requires
        consistent(s, job),
        job.stage is BlockedPage,
    ensures
        sound_after(s, job, after_blocked_page(s, job, reply)),
{
    lemma_begin_all(s);
}

proof fn lemma_after_blocked_list(
    s: SessionView,
    job: JobView,
    reply: ReplyView,
)
    requires
        consistent(s, job),
        job.stage is BlockedList,
    ensures
        sound_after(s, job, after_blocked_list(s, job, reply)),
{
    lemma_begin_all(s);
}

proof fn lemma_after_switch_page(
    s: SessionView,
    job: JobView,
    reply: ReplyView,
)
    requires
        consistent(s, job),
        job.stage is SwitchPage,
    ensures
        sound_after(s, job, after_switch_page(s, job, reply)),
{
    lemma_begin_all(s);
}

proof fn lemma_after_switches(
    s: SessionView,
    job: JobView,
    reply: ReplyView,
)
    requires
        consistent(s, job),
        job.stage is Switches,
    ensures
        sound_after(s, job, after_switches(s, reply)),
{
    lemma_begin_all(s);
}

proof fn lemma_after_form_page(
    s: SessionView,
    job: JobView,
    reply: ReplyView,
)
    requires
        consistent(s, job),
        job.stage is FormPage,
    ensures
        sound_after(s, job, after_form_page(s, job, reply)),
{
    lemma_begin_all(s);
}

proof fn lemma_after_form(
    s: SessionView,
    job: JobView,
    reply: ReplyView,
)
    requires
        consistent(s, job),
        job.stage is Form,
    ensures
        sound_after(s, job, after_form(s, job, reply)),
{
    lemma_begin_all(s);
}

/// What is true of the first step of an operation.
pub proof fn law_begun(s: SessionView, task: TaskView)
    ensures
        sound(s, begun(s, task).0, begun(s, task).1, task),
        begun(s, task).1 matches StepView::Send(_, first) ==> rank(first) <= 20,
{
    lemma_begin_all(s);
}

/// What is true of every later step: the operation keeps to its account and its task; it asks only
/// the router, sends the password only as a digest, and changes only what was asked for; every
/// reply brings it nearer to its end; it ends in a failure, or with what was asked for on a session
/// that is logged in; and a login that fails leaves the session logged out.
pub proof fn law_resumed(
    s: SessionView,
    job: JobView,
    reply: ReplyView,
    members: Option<Seq<json::JsonMemberView>>,
    nodes: Option<Seq<xml::XmlNodeView>>,
)
    requires
        consistent(s, job),
    ensures
        sound_after(s, job, resumed(s, job, reply, members, nodes)),
{
    reveal(resumed);
    match job.stage {
        Stage::Front => lemma_after_front(s, job, reply),
        Stage::Token => lemma_after_token(s, job, reply, nodes),
        Stage::Entry => lemma_after_entry(s, job, reply, members),
        Stage::Home { refreshed } => lemma_after_home(s, job, reply, refreshed),
        Stage::ProbePage => lemma_after_probe_page(s, job, reply),
        Stage::ProbeList => lemma_after_probe_list(s, job, reply),
        Stage::Devices { page } => lemma_after_devices(s, job, reply, nodes, page),
        Stage::BlockedPage => lemma_after_blocked_page(s, job, reply),
        Stage::BlockedList => lemma_after_blocked_list(s, job, reply),
        Stage::SwitchPage => lemma_after_switch_page(s, job, reply),
        Stage::Switches => lemma_after_switches(s, job, reply),
        Stage::FormPage => lemma_after_form_page(s, job, reply),
        Stage::Form => lemma_after_form(s, job, reply),
    }
}

/// An address that the router blocks already is not blocked again, and the session says so.
pub proof fn law_blocked_once(
    s: SessionView,
    job: JobView,
    reply: ReplyView,
    members: Option<Seq<json::JsonMemberView>>,
    nodes: Option<Seq<xml::XmlNodeView>>,
    mac: Seq<char>,
    name: Seq<char>,
)
    requires
        job.stage is BlockedList,
        job.task == (TaskView::Block { mac, name }),
        model::normalized(mac) is Some,
        block_text(s, reply) matches Ok(body) && filter::blocks(
            filter::block_list(body),
            model::normalized(mac).unwrap(),
        ),
    ensures
        resumed(s, job, reply, members, nodes).1 == StepView::Done(
            OutcomeView::Failed(
                "device "@ + model::normalized(mac).unwrap() + " is already blocked"@,
            ),
        ),
{
    reveal(resumed);
}

/// A reply with the members and nodes of its body.
pub struct Answer {
    pub reply: ReplyView,
    pub members: Option<Seq<json::JsonMemberView>>,
    pub nodes: Option<Seq<xml::XmlNodeView>>,
}

/// Where a session and a step stand after the answers came, one after the other.
pub open spec fn run(s: SessionView, step: StepView, answers: Seq<Answer>) -> (
    SessionView,
    StepView,
)
    decreases answers.len(),
{
    match step {
        StepView::Send(_, job) if answers.len() > 0 => {
            let a = answers[0];
            let (t, next) = resumed(s, job, a.reply, a.members, a.nodes);
            run(t, next, answers.drop_first())
        },
        _ => (s, step),
    }
}

proof fn lemma_run(s: SessionView, t: SessionView, step: StepView, task: TaskView, answers: Seq<Answer>)
    requires
        sound(s, t, step, task),
    ensures
        same_account(s, run(t, step, answers).0),
        run(t, step, answers).1 matches StepView::Done(o) ==> (o is Failed || (fits(o, task) && run(
            t,
            step,
            answers,
        ).0.logged_in)),
        step matches StepView::Send(_, job) && rank(job) <= answers.len() ==> run(
            t,
            step,
            answers,
        ).1 is Done,
    decreases answers.len(),
{
    if let StepView::Send(_, job) = step {
        if answers.len() > 0 {
            let a = answers[0];
            law_resumed(t, job, a.reply, a.members, a.nodes);
            let (u, next) = resumed(t, job, a.reply, a.members, a.nodes);
            lemma_run(t, u, next, task, answers.drop_first());
        }
    }
}

/// Whatever the router answers, an operation asks at most twenty times, keeps to its account, and
/// ends with what was asked for on a session that is logged in, or with a message.
pub proof fn law_operation(s: SessionView, task: TaskView, answers: Seq<Answer>)
    requires
        answers.len() >= 20,
    ensures
        ({
            let (t, step) = run(begun(s, task).0, begun(s, task).1, answers);
            &&& same_account(s, t)
            &&& step matches StepView::Done(o) && (o is Failed || (fits(o, task) && t.logged_in))
        }),
{
    law_begun(s, task);
    lemma_run(s, begun(s, task).0, begun(s, task).1, task, answers);
}

/// The step asks the router for the page at `path`, and hands the reply to the stage.
pub open spec fn asks(
    s: SessionView,
    step: StepView,
    path: Seq<char>,
    task: TaskView,
    stage: Stage,
    was: Option<Seq<char>>,
) -> bool {
    step == StepView::Send(
        RequestView::Get { url: s.base_url + path, referer: s.base_url + "/"@ },
        JobView { task, stage, was },
    )
}

/// The operation ends with the message.
pub open spec fn fails(step: StepView, message: Seq<char>) -> bool {
    step == StepView::Done(OutcomeView::Failed(message))
}

/// A page that came.
pub open spec fn came(reply: ReplyView, body: Seq<char>) -> bool {
    reply matches ReplyView::Answer { success, status, body: b } && success && b == Some(body)
}

/// A session that was just opened is logged out; its address is the one that was given, without a
/// slash at its end.
pub proof fn law_opened(
    url: Seq<char>,
    username: Seq<char>,
    password: Seq<char>,
    key: PublicKeyView,
)
    ensures
        url.len() > 0 && url.last() != '/' ==> opened(url, username, password, key).base_url == url,
        opened(url.push('/'), username, password, key) == opened(url, username, password, key),
        opened(url, username, password, key).username == username,
        opened(url, username, password, key).password == password,
        opened(url, username, password, key).session_token.len() == 0,
        !opened(url, username, password, key).logged_in,
        !opened(url, username, password, key).can_block,
        !opened(url, username, password, key).per_host_traffic,
        opened(url, username, password, key).last_message == "not connected"@,
        opened(url, username, password, key).key == key,
{
    assert(url.push('/').drop_last() =~= url);
}

/// A login, and any operation on a session that is logged out, begins with the front page; the
/// other operations begin with the page they need, unless what they are asked to change is no
/// address or no rule.
pub proof fn law_first_request(s: SessionView, task: TaskView)
    ensures
        ({
            let (t, step) = begun(s, task);
            &&& task is Login || !s.logged_in ==> asks(s, step, "/"@, task, Stage::Front, None) && t
                == (SessionView { logged_in: false, can_block: false, ..s })
            &&& s.logged_in && task !is Login ==> t == s
            &&& s.logged_in && task is ListDevices ==> asks(
                s,
                step,
                "/?_type=menuData&_tag=wlan_homepage_lua.lua"@,
                task,
                Stage::Devices { page: DevicePage::Homepage },
                None,
            )
            &&& s.logged_in && task is ListBlocked ==> asks(
                s,
                step,
                "/?_type=menuView&_tag=filterCriteria"@,
                task,
                Stage::BlockedPage,
                None,
            )
            &&& s.logged_in && task is FilterStatus ==> asks(
                s,
                step,
                "/?_type=menuView&_tag=filterCriteria"@,
                task,
                Stage::SwitchPage,
                None,
            )
            &&& s.logged_in ==> (task matches TaskView::Block { mac, name } ==> {
                &&& model::hex_digits(mac).len() != 12 ==> fails(step, "invalid MAC address"@)
                &&& model::hex_digits(mac).len() == 12 ==> asks(
                    s,
                    step,
                    "/?_type=menuView&_tag=filterCriteria"@,
                    task,
                    Stage::BlockedPage,
                    None,
                )
            })
            &&& s.logged_in ==> (task matches TaskView::Unblock { inst_id } ==> {
                &&& inst_id.len() == 0 ==> fails(step, "missing rule id"@)
                &&& inst_id.len() > 0 ==> asks(
                    s,
                    step,
                    "/?_type=menuView&_tag=filterCriteria"@,
                    task,
                    Stage::FormPage,
                    None,
                )
            })
        }),
{
}

/// A page that the login needs and that does not come ends it, with what was asked for, or with the
/// status.
pub proof fn law_page_missing(
    s: SessionView,
    job: JobView,
    reply: ReplyView,
    members: Option<Seq<json::JsonMemberView>>,
    nodes: Option<Seq<xml::XmlNodeView>>,
    path: Seq<char>,
)
    requires
        (job.stage is Front && path == "/"@) || (job.stage is Token && path
            == "/?_type=loginData&_tag=login_token"@) || (job.stage is Home && path == "/"@) || (
        job.stage is FormPage && path == "/?_type=menuView&_tag=filterCriteria"@),
    ensures
        ({
            let step = resumed(s, job, reply, members, nodes).1;
            &&& reply is Unsent ==> fails(step, "GET "@ + (s.base_url + path))
            &&& reply matches ReplyView::Unmade(e) ==> fails(step, e)
            &&& reply matches ReplyView::Answer { success, status, body } ==> {
                &&& !success ==> fails(step, "GET "@ + (s.base_url + path) + " -> HTTP "@ + status)
                &&& success && body is None ==> fails(step, "reading response body"@)
            }
        }),
{
    reveal(resumed);
}

/// The front page may set a token; then the token for the password is asked for.
pub proof fn law_front_page(
    s: SessionView,
    job: JobView,
    reply: ReplyView,
    members: Option<Seq<json::JsonMemberView>>,
    nodes: Option<Seq<xml::XmlNodeView>>,
    body: Seq<char>,
)
    requires
        job.stage is Front,
        came(reply, body),
    ensures
        ({
            let (t, step) = resumed(s, job, reply, members, nodes);
            &&& asks(
                s,
                step,
                "/?_type=loginData&_tag=login_token"@,
                job.task,
                Stage::Token,
                job.was,
            )
            &&& t == (SessionView { session_token: t.session_token, ..s })
            &&& page::session_token(body) matches Some(x) ==> t.session_token == x
            &&& page::session_token(body) is None ==> t.session_token == s.session_token
        }),
{
    reveal(resumed);
}

/// The login form says who logs in, and proves the password by its digest with the token that just
/// came: the text of the document, or else the first text between brackets.
pub proof fn law_login_form(
    s: SessionView,
    job: JobView,
    reply: ReplyView,
    members: Option<Seq<json::JsonMemberView>>,
    nodes: Option<Seq<xml::XmlNodeView>>,
    body: Seq<char>,
    token: Seq<char>,
)
    requires
        job.stage is Token,
        came(reply, body),
        token.len() > 0,
        (nodes matches Some(n) && xml::first_text(n, "ajax_response_xml_root"@, 0) == Some(token))
            || (nodes is None && (page::between(body, ">"@, "<"@) matches Some(t) && text::trim(t)
            == token)),
    ensures
        ({
            let (t, step) = resumed(s, job, reply, members, nodes);
            &&& t == s
            &&& step matches StepView::Send(RequestView::Login { url, referer, form }, next) && {
                &&& url == s.base_url + "/?_type=loginData&_tag=login_entry"@
                &&& referer == s.base_url + "/"@
                &&& form.len() == 4
                &&& form[0] == ("action"@, "login"@)
                &&& form[1] == ("Username"@, s.username)
                &&& form[2] == ("Password"@, crypto::hashed_password(s.password, token))
                &&& form[3] == ("_sessionTOKEN"@, s.session_token)
                &&& next == (JobView { stage: Stage::Entry, ..job })
            }
        }),
{
    reveal(resumed);
}

/// Without a token there is no login.
pub proof fn law_no_login_token(
    s: SessionView,
    job: JobView,
    reply: ReplyView,
    members: Option<Seq<json::JsonMemberView>>,
    body: Seq<char>,
)
    requires
        job.stage is Token,
        came(reply, body),
        text::absent(body, ">"@),
    ensures
        resumed(s, job, reply, members, None).0 == s,
        fails(
            resumed(s, job, reply, members, None).1,
            "could not parse login token from router response"@,
        ),
{
    reveal(resumed);
    text::law_find(body, ">"@, 0);
}

/// The answer to the login form: an error that is not blank and a lock refuse the login, and else
/// the front page is asked for again. A token in the answer is kept in any case.
pub proof fn law_login_answer(
    s: SessionView,
    job: JobView,
    reply: ReplyView,
    m: Seq<json::JsonMemberView>,
    nodes: Option<Seq<xml::XmlNodeView>>,
    status: Seq<char>,
    body: Option<Seq<char>>,
)
    requires
        job.stage is Entry,
        reply == (ReplyView::Answer { success: true, status, body }),
    ensures
        ({
            let (t, step) = resumed(s, job, reply, Some(m), nodes);
            let error = json::text_member(m, "loginErrMsg"@);
            let lock = json::integer_member(m, "lockingTime"@);
            let refused = error is Some && text::trim(error.unwrap()).len() > 0;
            let locked = lock is Some && lock.unwrap() > 0;
            &&& json::text_member(m, "sess_token"@) matches Some(x) ==> t.session_token == x
            &&& json::text_member(m, "sess_token"@) is None ==> t.session_token == s.session_token
            &&& t.logged_in == s.logged_in && t.can_block == s.can_block
            &&& refused ==> fails(step, "login failed: "@ + error.unwrap()) && t.last_message
                == "login failed: "@ + error.unwrap()
            &&& !refused && locked ==> ({
                let said = "login locked ("@ + number::decimal(lock.unwrap() as nat) + "s): "@
                    + match json::text_member(m, "promptMsg"@) {
                    Some(p) => p,
                    None => "locked out"@,
                };
                fails(step, said) && t.last_message == said
            })
            &&& !refused && !locked ==> asks(
                s,
                step,
                "/"@,
                job.task,
                Stage::Home {
                    refreshed: json::boolean_member(m, "login_need_refresh"@) == Some(true),
                },
                job.was,
            ) && t.last_message == s.last_message
        }),
{
    reveal(resumed);
}

/// An answer to the login form that cannot be read says so, with its beginning.
pub proof fn law_login_unanswered(
    s: SessionView,
    job: JobView,
    reply: ReplyView,
    members: Option<Seq<json::JsonMemberView>>,
    nodes: Option<Seq<xml::XmlNodeView>>,
)
    requires
        job.stage is Entry,
    ensures
        ({
            let (t, step) = resumed(s, job, reply, members, nodes);
            &&& reply is Unsent ==> t == s && fails(
                step,
                "POST login "@ + (s.base_url + "/?_type=loginData&_tag=login_entry"@),
            )
            &&& reply matches ReplyView::Unmade(e) ==> t == s && fails(step, e)
            &&& reply matches ReplyView::Answer { success, status, body } ==> {
                let b = match body {
                    Some(b) => b,
                    None => Seq::<char>::empty(),
                };
                &&& !success ==> t == s && fails(
                    step,
                    "login HTTP "@ + status + ": "@ + page::truncated(b, 200),
                )
                &&& success && members is None ==> t == s && fails(
                    step,
                    "login response not JSON: "@ + page::truncated(b, 180),
                )
            }
        }),
{
    reveal(resumed);
}

/// The login worked where the front page offers to log out, does not ask for the password, or was
/// to be loaded again; it did not on a page that only asks for the password. The first login of an
/// operation is followed by a look at the filter, another one by the operation.
pub proof fn law_login_shown(
    s: SessionView,
    job: JobView,
    reply: ReplyView,
    members: Option<Seq<json::JsonMemberView>>,
    nodes: Option<Seq<xml::XmlNodeView>>,
    body: Seq<char>,
    refreshed: bool,
)
    requires
        job.stage == (Stage::Home { refreshed }),
        came(reply, body),
    ensures
        ({
            let (t, step) = resumed(s, job, reply, members, nodes);
            let home = text::contains(body, "Logout"@) || !text::contains(body, "Frm_Password"@)
                || refreshed;
            &&& !home ==> {
                &&& fails(step, "login response unclear (still on login page)"@)
                &&& t.last_message == "login response unclear (still on login page)"@
                &&& t.logged_in == s.logged_in && t.session_token == s.session_token
            }
            &&& home ==> {
                &&& t.logged_in && t.last_message == "login OK"@
                &&& page::session_token(body) matches Some(x) ==> t.session_token == x
                &&& page::session_token(body) is None ==> t.session_token == s.session_token
            }
            &&& home && job.was is None ==> !t.per_host_traffic && asks(
                s,
                step,
                "/?_type=menuView&_tag=filterCriteria"@,
                job.task,
                Stage::ProbePage,
                None,
            )
            &&& home && job.was is Some && job.task is ListDevices ==> asks(
                s,
                step,
                "/?_type=menuData&_tag=wlan_homepage_lua.lua"@,
                job.task,
                Stage::Devices { page: DevicePage::Homepage },
                job.was,
            )
            &&& home && job.was is Some && job.task is ListBlocked ==> asks(
                s,
                step,
                "/?_type=menuView&_tag=filterCriteria"@,
                job.task,
                Stage::BlockedPage,
                job.was,
            )
        }),
{
    reveal(resumed);
}

/// The router can block where both the filter page and its block list come without a timeout; a
/// login ends with that, whatever came of it.
pub proof fn law_probe(
    s: SessionView,
    job: JobView,
    reply: ReplyView,
    members: Option<Seq<json::JsonMemberView>>,
    nodes: Option<Seq<xml::XmlNodeView>>,
)
    requires
        job.stage is ProbePage || job.stage is ProbeList,
    ensures
        ({
            let (t, step) = resumed(s, job, reply, members, nodes);
            let fine = reply matches ReplyView::Answer { success, status, body } && success && (
            body matches Some(b) && !text::contains(b, "SessionTimeout"@));
            &&& job.stage is ProbePage && fine ==> asks(
                s,
                step,
                "/?_type=menuData&_tag=firewall_macfilterv3_lua.lua"@,
                job.task,
                Stage::ProbeList,
                job.was,
            )
            &&& !fine ==> !t.can_block && t.last_message == "login OK · device list only"@
            &&& job.stage is ProbeList && fine ==> t.can_block && t.last_message
                == "login OK · block supported · no per-host traffic on this firmware"@
            &&& (!fine || job.stage is ProbeList) && job.task is Login ==> step == StepView::Done(
                OutcomeView::LoggedIn,
            )
            &&& (!fine || job.stage is ProbeList) && job.task is ListDevices ==> asks(
                s,
                step,
                "/?_type=menuData&_tag=wlan_homepage_lua.lua"@,
                job.task,
                Stage::Devices { page: DevicePage::Homepage },
                None,
            )
            &&& t.logged_in == s.logged_in
        }),
{
    reveal(resumed);
}

/// The devices stand on the first page that lists any: the one of the wireless network, the one of
/// all devices, or the other one of the wireless network. A page of devices is told by its object or
/// by a name.
pub proof fn law_devices_listed(
    s: SessionView,
    job: JobView,
    reply: ReplyView,
    members: Option<Seq<json::JsonMemberView>>,
    nodes: Option<Seq<xml::XmlNodeView>>,
    body: Seq<char>,
    page: DevicePage,
)
    requires
        job.stage == (Stage::Devices { page }),
        came(reply, body),
        !text::contains(body, "SessionTimeout"@),
        text::contains(body, "OBJ_ACCESSDEV"@) || text::contains(body, "HostName"@),
    ensures
        ({
            let (t, step) = resumed(s, job, reply, members, nodes);
            let listed = devices::access_devices(
                body,
                nodes,
                match page {
                    DevicePage::All => LinkKind::Unknown,
                    _ => LinkKind::Wifi,
                },
            );
            &&& listed matches Ok(found) ==> step == StepView::Done(OutcomeView::Devices(found))
                && t == (SessionView {
                last_message: "login OK · "@ + number::decimal(found.len())
                    + " client(s) · rates: this PC only (no per-host traffic on firmware)"@,
                ..s
            })
            &&& listed matches Err(e) ==> t == s && fails(step, e)
        }),
{
    reveal(resumed);
}

/// A page without devices is followed by the next one, and the last one by a new login, once; after
/// that the operation fails with both reasons.
pub proof fn law_devices_missing(
    s: SessionView,
    job: JobView,
    reply: ReplyView,
    members: Option<Seq<json::JsonMemberView>>,
    nodes: Option<Seq<xml::XmlNodeView>>,
    page: DevicePage,
)
    requires
        job.stage == (Stage::Devices { page }),
        reply matches ReplyView::Answer { success, status, body } ==> !success || body is None
            || text::contains(body.unwrap(), "SessionTimeout"@) || (!text::contains(
            body.unwrap(),
            "OBJ_ACCESSDEV"@,
        ) && !text::contains(body.unwrap(), "HostName"@)),
    ensures
        ({
            let (t, step) = resumed(s, job, reply, members, nodes);
            let path = "/?_type=hiddenData&_tag=accessdev_data&DeveiceType=WLAN"@;
            let reason = match reply {
                ReplyView::Unmade(e) => e,
                ReplyView::Unsent => "GET "@ + (s.base_url + path),
                ReplyView::Answer { success, status, body } => if !success {
                    "GET "@ + (s.base_url + path) + " -> HTTP "@ + status
                } else if body is None {
                    "reading response body"@
                } else if text::contains(body.unwrap(), "SessionTimeout"@) {
                    "session timeout on "@ + path
                } else {
                    "unexpected device payload on "@ + path + ": "@ + page::truncated(
                        body.unwrap(),
                        120,
                    )
                },
            };
            &&& page == DevicePage::Homepage ==> t == s && asks(
                s,
                step,
                "/?_type=hiddenData&_tag=accessdev_data&DeveiceType=ALL"@,
                job.task,
                Stage::Devices { page: DevicePage::All },
                job.was,
            )
            &&& page == DevicePage::All ==> t == s && asks(
                s,
                step,
                path,
                job.task,
                Stage::Devices { page: DevicePage::Wlan },
                job.was,
            )
            &&& page == DevicePage::Wlan && job.was is None ==> asks(
                s,
                step,
                "/"@,
                job.task,
                Stage::Front,
                Some(reason),
            ) && t == (SessionView { logged_in: false, can_block: false, ..s })
            &&& page == DevicePage::Wlan ==> (job.was matches Some(was) ==> t == s && fails(
                step,
                "device list failed after re-login: "@ + reason + " (was: "@ + was + ")"@,
            ))
        }),
{
    reveal(resumed);
}

/// The block list follows the filter page. Where either does not come, or comes with a timeout, the
/// operation logs in again, once, and then fails with the reason.
pub proof fn law_block_list_missing(
    s: SessionView,
    job: JobView,
    reply: ReplyView,
    members: Option<Seq<json::JsonMemberView>>,
    nodes: Option<Seq<xml::XmlNodeView>>,
)
    requires
        job.stage is BlockedPage || job.stage is BlockedList,
        reply matches ReplyView::Answer { success, status, body } ==> !success || body is None
            || text::contains(body.unwrap(), "SessionTimeout"@),
    ensures
        ({
            let (t, step) = resumed(s, job, reply, members, nodes);
            let path = if job.stage is BlockedPage {
                "/?_type=menuView&_tag=filterCriteria"@
            } else {
                "/?_type=menuData&_tag=firewall_macfilterv3_lua.lua"@
            };
            let reason = match reply {
                ReplyView::Unmade(e) => e,
                ReplyView::Unsent => "GET "@ + (s.base_url + path),
                ReplyView::Answer { success, status, body } => if !success {
                    "GET "@ + (s.base_url + path) + " -> HTTP "@ + status
                } else if body is None {
                    "reading response body"@
                } else if job.stage is BlockedPage {
                    "session timeout opening filter page"@
                } else {
                    "session timeout fetching MAC filter"@
                },
            };
            &&& job.was is None ==> asks(s, step, "/"@, job.task, Stage::Front, Some(reason))
                && !t.logged_in && !t.can_block
            &&& job.was is Some ==> fails(step, reason)
        }),
{
    reveal(resumed);
}

/// A block list that came answers a question for it. To block a device goes on to the filter page,
/// where the form gets its token, unless the list holds its address.
pub proof fn law_block_list_came(
    s: SessionView,
    job: JobView,
    reply: ReplyView,
    members: Option<Seq<json::JsonMemberView>>,
    nodes: Option<Seq<xml::XmlNodeView>>,
    body: Seq<char>,
)
    requires
        job.stage is BlockedPage || job.stage is BlockedList,
        came(reply, body),
        !text::contains(body, "SessionTimeout"@),
    ensures
        ({
            let (t, step) = resumed(s, job, reply, members, nodes);
            let list = filter::block_list(body);
            &&& job.stage is BlockedPage ==> asks(
                s,
                step,
                "/?_type=menuData&_tag=firewall_macfilterv3_lua.lua"@,
                job.task,
                Stage::BlockedList,
                job.was,
            )
            &&& job.stage is BlockedList ==> t == (SessionView { can_block: true, ..s })
            &&& job.stage is BlockedList && job.task is ListBlocked ==> step == StepView::Done(
                OutcomeView::Blocked(list),
            )
            &&& job.stage is BlockedList ==> (job.task matches TaskView::Block { mac, name } ==> (
            model::normalized(mac) matches Some(m) ==> if exists|k: int|
                0 <= k < list.len() && (#[trigger] list[k]).mac == m {
                fails(step, "device "@ + m + " is already blocked"@)
            } else {
                asks(
                    s,
                    step,
                    "/?_type=menuView&_tag=filterCriteria"@,
                    job.task,
                    Stage::FormPage,
                    job.was,
                )
            }))
        }),
{
    reveal(resumed);
}

/// The state of the filter is the one on its page; where that does not come, or comes with a
/// timeout, the filter counts as off. Whether devices can be blocked is known from the session.
pub proof fn law_switches(
    s: SessionView,
    job: JobView,
    reply: ReplyView,
    members: Option<Seq<json::JsonMemberView>>,
    nodes: Option<Seq<xml::XmlNodeView>>,
)
    requires
        job.stage is SwitchPage || job.stage is Switches,
    ensures
        ({
            let (t, step) = resumed(s, job, reply, members, nodes);
            let fine = reply matches ReplyView::Answer { success, status, body } && success && (
            body matches Some(b) && !text::contains(b, "SessionTimeout"@));
            &&& job.stage is SwitchPage ==> asks(
                s,
                step,
                "/?_type=menuData&_tag=firewall_filterglobal_lua.lua"@,
                job.task,
                Stage::Switches,
                job.was,
            )
            &&& job.stage is Switches ==> t == s && (step matches StepView::Done(
                OutcomeView::Status(f),
            ) && {
                &&& f.can_block == s.can_block
                &&& !fine ==> !f.enabled && f.mode.len() == 0
                &&& reply matches ReplyView::Answer { success, status, body: Some(b) } ==> (fine
                    ==> {
                    &&& f.enabled <==> page::para_value(b, "MacFilterEnable"@) == Some("1"@)
                    &&& page::para_value(b, "MacFilterTarget"@) matches Some(m) ==> f.mode == m
                    &&& page::para_value(b, "MacFilterTarget"@) is None ==> f.mode == "unknown"@
                })
            })
        }),
{
    reveal(resumed);
}

/// The form of a change, sent with the token of the filter page that just came: a new rule that
/// matches the address both as source and as target, or the rule to delete.
pub proof fn law_change_sent(
    s: SessionView,
    job: JobView,
    reply: ReplyView,
    members: Option<Seq<json::JsonMemberView>>,
    nodes: Option<Seq<xml::XmlNodeView>>,
    body: Seq<char>,
)
    requires
        job.stage is FormPage,
        came(reply, body),
    ensures
        ({
            let (t, step) = resumed(s, job, reply, members, nodes);
            let token = match page::session_token(body) {
                Some(x) => x,
                None => s.session_token,
            };
            &&& text::contains(body, "SessionTimeout"@) ==> fails(
                step,
                "session timeout opening filter page"@,
            )
            &&& !text::contains(body, "SessionTimeout"@) ==> (step matches StepView::Send(
                RequestView::Filter { body: sent },
                next,
            ) && {
                &&& next == (JobView { stage: Stage::Form, ..job })
                &&& job.task matches TaskView::Block { mac, name } ==> (model::normalized(
                    mac,
                ) matches Some(m) ==> sent == "IF_ACTION=Apply&_InstID=-1&Name="@ + page::sanitized(
                    name,
                ) + "&SrcMacAddr="@ + m + "&DstMacAddr="@ + m
                    + "&Type=Bridge%2BRoute&Protocol=IP&_sessionTOKEN="@ + token)
                &&& job.task matches TaskView::Unblock { inst_id } ==> sent
                    == "IF_ACTION=Delete&_InstID="@ + inst_id + "&_sessionTOKEN="@ + token
            })
        }),
{
    reveal(resumed);
}

/// A change is done where the router answers without a timeout and without an error but 0; else the
/// operation fails with what the router said, its entities spelled out.
pub proof fn law_change_answered(
    s: SessionView,
    job: JobView,
    reply: ReplyView,
    members: Option<Seq<json::JsonMemberView>>,
    nodes: Option<Seq<xml::XmlNodeView>>,
)
    requires
        job.stage is Form,
    ensures
        ({
            let (t, step) = resumed(s, job, reply, members, nodes);
            &&& reply matches ReplyView::Unmade(e) ==> t == s && fails(step, e)
            &&& reply is Unsent ==> t == s && fails(
                step,
                "POST "@ + (s.base_url + "/?_type=menuData&_tag=firewall_macfilterv3_lua.lua"@),
            )
            &&& reply matches ReplyView::Answer { success, status, body } ==> {
                let b = match body {
                    Some(b) => b,
                    None => Seq::<char>::empty(),
                };
                let id = page::xml_text(b, "IF_ERRORID"@);
                let done = success && !text::contains(b, "SessionTimeout"@) && (id is None || id
                    == Some("0"@));
                &&& !success ==> t == s && fails(
                    step,
                    "POST filter HTTP "@ + status + ": "@ + page::truncated(b, 200),
                )
                &&& success && text::contains(b, "SessionTimeout"@) ==> t == s && fails(
                    step,
                    "session timeout on filter POST"@,
                )
                &&& success && !text::contains(b, "SessionTimeout"@) && id is Some && id != Some(
                    "0"@,
                ) ==> t == s && fails(
                    step,
                    "router rejected change: "@ + plain_message(
                        match page::xml_text(b, "IF_ERRORSTR"@) {
                            Some(m) => m,
                            None => "error id "@ + id.unwrap(),
                        },
                    ) + " ("@ + id.unwrap() + ")"@,
                )
                &&& done ==> step == StepView::Done(OutcomeView::Changed)
                &&& done ==> (job.task matches TaskView::Block { mac, name } ==> (model::normalized(
                    mac,
                ) matches Some(m) ==> t.last_message == "blocked "@ + page::sanitized(name) + " ("@
                    + m + ")"@))
                &&& done ==> (job.task matches TaskView::Unblock { inst_id } ==> t.last_message
                    == "unblocked rule "@ + inst_id)
                &&& t == (SessionView { last_message: t.last_message, ..s })
            }
        }),
{
    reveal(resumed);
}

/// The entities of a message that stand for a space, an ampersand and the two brackets are spelled
/// out, and the rest stays as it is.
pub proof fn law_plain_message(a: Seq<char>, b: Seq<char>)
    requires
        !a.contains('&'),
        !b.contains('&'),
    ensures
        plain_message(a) == a,
        plain_message(a + "&#32;"@ + b) == a + " "@ + b,
        plain_message(a + "&lt;"@ + b) == a + "<"@ + b,
        plain_message(a + "&gt;"@ + b) == a + ">"@ + b,
        b.len() == 0 || (b[0] != 'l' && b[0] != 'g') ==> plain_message(a + "&amp;"@ + b) == a + "&"@
            + b,
{
    reveal_strlit("&#32;");
    reveal_strlit("&amp;");
    reveal_strlit("&lt;");
    reveal_strlit("&gt;");
    reveal_strlit(" ");
    reveal_strlit("&");
    reveal_strlit("<");
    reveal_strlit(">");
    let none = Seq::<char>::empty();
    let e = seq!["&#32;"@, "&amp;"@, "&lt;"@, "&gt;"@];
    let p = seq![" "@, "&"@, "<"@, ">"@];
    assert(a + none + none =~= a);
    lemma_entity(a, none, none, e[0], p[0]);
    lemma_entity(a, none, none, e[1], p[1]);
    lemma_entity(a, none, none, e[2], p[2]);
    lemma_entity(a, none, none, e[3], p[3]);
    lemma_entity(a, e[0], b, e[0], p[0]);
    lemma_entity(a, p[0], b, e[1], p[1]);
    lemma_entity(a, p[0], b, e[2], p[2]);
    lemma_entity(a, p[0], b, e[3], p[3]);
    lemma_entity(a, e[2], b, e[0], p[0]);
    lemma_entity(a, e[2], b, e[1], p[1]);
    lemma_entity(a, e[2], b, e[2], p[2]);
    lemma_entity(a, p[2], b, e[3], p[3]);
    lemma_entity(a, e[3], b, e[0], p[0]);
    lemma_entity(a, e[3], b, e[1], p[1]);
    lemma_entity(a, e[3], b, e[2], p[2]);
    lemma_entity(a, e[3], b, e[3], p[3]);
    lemma_entity(a, e[1], b, e[0], p[0]);
    lemma_entity(a, e[1], b, e[1], p[1]);
    lemma_entity(a, p[1], b, e[2], p[2]);
    lemma_entity(a, p[1], b, e[3], p[3]);
}

/// Replacing an entity in a text whose only ampersand, if any, begins `m`.
proof fn lemma_entity(
    a: Seq<char>,
    m: Seq<char>,
    b: Seq<char>,
    entity: Seq<char>,
    plain: Seq<char>,
)
    requires
        !a.contains('&'),
        !b.contains('&'),
        forall|k: int| 0 < k < m.len() ==> #[trigger] m[k] != '&',
        entity.len() > 1,
        entity[0] == '&',
    ensures
        m == entity ==> text::replace(a + m + b, entity, plain) == a + plain + b,
        m.len() == 0 || m[0] != '&' || (m + b).len() < 2 || (m + b)[1] != entity[1]
            ==> text::replace(a + m + b, entity, plain) == a + m + b,
{
    let s = a + m + b;
    assert forall|j: int| 0 <= j < s.len() && j != a.len() implies #[trigger] s[j] != '&' by {
        if j < a.len() {
            assert(a.contains(a[j]));
        } else if j < a.len() + m.len() {
            assert(s[j] == m[j - a.len()]);
        } else {
            assert(b.contains(b[j - a.len() - m.len()]));
        }
    }
    assert forall|j: int|
        0 <= j && j + entity.len() <= s.len() && j != a.len() implies #[trigger] s.subrange(
        j,
        j + entity.len(),
    ) != entity by {
        assert(s.subrange(j, j + entity.len())[0] == s[j]);
    }
    if m == entity {
        assert(s.subrange(a.len() as int, a.len() as int + entity.len()) =~= entity);
        assert forall|j: int| 0 <= j < a.len() implies #[trigger] s.subrange(
            j,
            j + entity.len(),
        ) != entity by {
            assert(j + entity.len() <= s.len());
        }
        assert(text::first_at(s, entity, a.len() as int));
        text::law_split_and_replace(s, entity, plain, a.len() as int);
        assert(s.subrange(0, a.len() as int) =~= a);
        assert(s.subrange(a.len() as int + entity.len(), s.len() as int) =~= b);
        assert(text::absent(b, entity)) by {
            assert forall|j: int|
                0 <= j && j + entity.len() <= b.len() implies #[trigger] b.subrange(
                j,
                j + entity.len(),
            ) != entity by {
                assert(b.contains(b[j]));
                assert(b.subrange(j, j + entity.len())[0] == b[j]);
            }
        }
        text::law_split_and_replace(b, entity, plain, 0);
    }
    if m.len() == 0 || m[0] != '&' || (m + b).len() < 2 || (m + b)[1] != entity[1] {
        assert(text::absent(s, entity)) by {
            assert forall|j: int|
                0 <= j && j + entity.len() <= s.len() implies #[trigger] s.subrange(
                j,
                j + entity.len(),
            ) != entity by {
                if j == a.len() {
                    assert(s.subrange(j, j + entity.len())[0] == (m + b)[0]);
                    assert(s.subrange(j, j + entity.len())[1] == (m + b)[1]);
                    if m.len() == 0 {
                        assert(b.contains(b[0]));
                    }
                }
            }
        }
        text::law_split_and_replace(s, entity, plain, 0);
    }
}

/// What is read in a page that came: the token for the password and the lists of devices are
/// documents; the front page, once it shows that the login worked or before that, and the filter
/// page may set the token of the session.
pub proof fn law_what_is_read(stage: Stage, body: Seq<char>)
    ensures
        stage is Token ==> reads_document(stage, body),
        stage is Devices ==> (reads_document(stage, body) <==> !text::contains(
            body,
            "SessionTimeout"@,
        ) && (text::contains(body, "OBJ_ACCESSDEV"@) || text::contains(body, "HostName"@))),
        stage !is Token && stage !is Devices ==> !reads_document(stage, body),
        stage is Front || stage is ProbePage || stage is BlockedPage || stage is SwitchPage || stage
            is FormPage ==> reads_token(stage, body),
        stage matches Stage::Home { refreshed } ==> (reads_token(stage, body) <==> text::contains(
            body,
            "Logout"@,
        ) || !text::contains(body, "Frm_Password"@) || refreshed),
        stage is Token || stage is Entry || stage is ProbeList || stage is Devices || stage
            is BlockedList || stage is Switches || stage is Form ==> !reads_token(stage, body),
{
}

} // verus!
