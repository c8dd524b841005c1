use base64::Engine;
use mywifistats::model::LinkKind;
use mywifistats::router::crypto;
use mywifistats::router::json::JsonMember;
use mywifistats::router::zte_f670l::{can_resume, Job, Outcome, Reply, Request, Step, ZteF670l};

fn page(body: &str) -> Reply {
    Reply::Answer { success: true, status: "200 OK".to_owned(), body: Some(body.to_owned()) }
}

fn refused(status: &str, body: &str) -> Reply {
    Reply::Answer { success: false, status: status.to_owned(), body: Some(body.to_owned()) }
}

fn open() -> ZteF670l {
    ZteF670l::new("http://router///", "admin", "secret").unwrap()
}

fn sent(step: Step) -> (Request, Job) {
    match step {
        Step::Send(r, j) => (r, j),
        Step::Done(_) => panic!("the operation is over"),
    }
}

fn url(r: &Request) -> String {
    match r {
        Request::Get { url, referer } => {
            assert_eq!(referer, "http://router/");
            url.clone()
        },
        Request::Login { url, .. } => url.clone(),
        Request::Filter { body } => body.clone(),
    }
}

fn done(step: Step) -> Outcome {
    match step {
        Step::Send(r, _) => panic!("waiting for {}", url(&r)),
        Step::Done(o) => o,
    }
}

fn message(step: Step) -> String {
    match done(step) {
        Outcome::Failed(e) => e,
        _ => panic!("the operation did not fail"),
    }
}

/// Checks where the step goes and answers it.
fn answer(s: &mut ZteF670l, step: Step, path: &str, reply: Reply) -> Step {
    let (r, job) = sent(step);
    assert_eq!(url(&r), format!("http://router{path}"));
    assert!(can_resume(&job, &reply));
    s.resume(job, &reply)
}

const TOKEN: &str = "/?_type=loginData&_tag=login_token";
const ENTRY: &str = "/?_type=loginData&_tag=login_entry";
const FILTER: &str = "/?_type=menuView&_tag=filterCriteria";
const BLOCKED: &str = "/?_type=menuData&_tag=firewall_macfilterv3_lua.lua";
const SWITCHES: &str = "/?_type=menuData&_tag=firewall_filterglobal_lua.lua";
const HOMEPAGE: &str = "/?_type=menuData&_tag=wlan_homepage_lua.lua";
const ALL: &str = "/?_type=hiddenData&_tag=accessdev_data&DeveiceType=ALL";
const WLAN: &str = "/?_type=hiddenData&_tag=accessdev_data&DeveiceType=WLAN";

/// Answers a login up to the probe.
fn enter(s: &mut ZteF670l, step: Step) -> Step {
    let step = answer(s, step, "/", page("_sessionTmpToken = \"one\""));
    let step = answer(
        s,
        step,
        TOKEN,
        page("<ajax_response_xml_root> 777 </ajax_response_xml_root>"),
    );
    let step = answer(s, step, ENTRY, page("{\"sess_token\":\"two\",\"loginErrMsg\":\"\"}"));
    answer(s, step, "/", page("Logout"))
}

/// A session that is logged in and can block.
fn logged_in() -> ZteF670l {
    let mut s = open();
    let step = s.login();
    let step = enter(&mut s, step);
    let step = answer(&mut s, step, FILTER, page("filter"));
    let step = answer(&mut s, step, BLOCKED, page("<x/>"));
    assert!(matches!(done(step), Outcome::LoggedIn));
    s
}

#[test]
fn a_new_session() {
    let s = open();
    assert!(!s.is_logged_in());
    assert_eq!(s.name(), "ZTE F670L");
    let caps = s.capabilities();
    assert_eq!(caps.message, "not connected");
    assert!(!caps.can_block && !caps.per_host_traffic);
}

#[test]
fn a_login() {
    let mut s = open();
    let step = s.login();
    let step = answer(&mut s, step, "/", page("_sessionTmpToken = \"\\x6f\\x6e\""));
    let step = answer(
        &mut s,
        step,
        TOKEN,
        page("<?xml version=\"1.0\"?><ajax_response_xml_root> 777 </ajax_response_xml_root>"),
    );
    let (r, job) = sent(step);
    match &r {
        Request::Login { url, referer, form } => {
            assert_eq!(url, "http://router/?_type=loginData&_tag=login_entry");
            assert_eq!(referer, "http://router/");
            let hash = crypto::hash_password("secret", "777");
            let expected = [
                ("action", "login"),
                ("Username", "admin"),
                ("Password", hash.as_str()),
                ("_sessionTOKEN", "on"),
            ];
            assert_eq!(form.len(), 4);
            for (got, want) in form.iter().zip(expected.iter()) {
                assert_eq!((got.0.as_str(), got.1.as_str()), *want);
            }
        },
        _ => panic!("no login form"),
    }
    let step = s.resume(job, &page("{\"sess_token\": \"two\"}"));
    let step = answer(&mut s, step, "/", page("Welcome"));
    assert!(s.is_logged_in());
    assert_eq!(s.capabilities().message, "login OK");
    let step = answer(&mut s, step, FILTER, page("x"));
    let step = answer(&mut s, step, BLOCKED, page("x"));
    assert!(matches!(done(step), Outcome::LoggedIn));
    assert!(s.capabilities().can_block);
    assert_eq!(
        s.capabilities().message,
        "login OK · block supported · no per-host traffic on this firmware"
    );
}

#[test]
fn a_login_without_block_list() {
    let mut s = open();
    let step = s.login();
    let step = enter(&mut s, step);
    let step = answer(&mut s, step, FILTER, page("SessionTimeout"));
    assert!(matches!(done(step), Outcome::LoggedIn));
    assert!(!s.capabilities().can_block);
    assert_eq!(s.capabilities().message, "login OK · device list only");

    let mut s = open();
    let step = s.login();
    let step = enter(&mut s, step);
    let step = answer(&mut s, step, FILTER, page("x"));
    let step = answer(&mut s, step, BLOCKED, refused("500 Internal Server Error", ""));
    assert!(matches!(done(step), Outcome::LoggedIn));
    assert!(!s.capabilities().can_block);
}

#[test]
fn tokens_outside_of_documents() {
    let mut s = open();
    let step = s.login();
    let step = answer(&mut s, step, "/", page(""));
    // Not well-formed, so the text between the first brackets counts.
    let step = answer(&mut s, step, TOKEN, page("<a> 42 <b>"));
    let (r, _) = sent(step);
    match r {
        Request::Login { form, .. } => {
            assert_eq!(form[2].1, crypto::hash_password("secret", "42"));
            assert_eq!(form[3].1, "");
        },
        _ => panic!("no login form"),
    }
    let mut s = open();
    let step = s.login();
    let step = answer(&mut s, step, "/", page(""));
    let step = answer(&mut s, step, TOKEN, page("<a></a>"));
    assert_eq!(message(step), "could not parse login token from router response");
}

#[test]
fn pages_that_do_not_come() {
    let mut s = open();
    let step = s.login();
    let step = answer(&mut s, step, "/", Reply::Unsent);
    assert_eq!(message(step), "GET http://router/");
    let step = s.login();
    let step = answer(&mut s, step, "/", refused("404 Not Found", "x"));
    assert_eq!(message(step), "GET http://router/ -> HTTP 404 Not Found");
    let step = s.login();
    let none = Reply::Answer { success: true, status: "200 OK".to_owned(), body: None };
    let step = answer(&mut s, step, "/", none);
    assert_eq!(message(step), "reading response body");
    assert!(!s.is_logged_in());
}

fn at_entry(s: &mut ZteF670l) -> Step {
    let step = s.login();
    let step = answer(s, step, "/", page(""));
    answer(s, step, TOKEN, page("<a>1</a>"))
}

#[test]
fn refused_logins() {
    let mut s = open();
    let step = at_entry(&mut s);
    let step = answer(&mut s, step, ENTRY, Reply::Unsent);
    assert_eq!(message(step), "POST login http://router/?_type=loginData&_tag=login_entry");

    let step = at_entry(&mut s);
    let step = answer(&mut s, step, ENTRY, refused("500 Internal Server Error", "oops"));
    assert_eq!(message(step), "login HTTP 500 Internal Server Error: oops");

    let step = at_entry(&mut s);
    let step = answer(&mut s, step, ENTRY, page("<html>"));
    assert_eq!(message(step), "login response not JSON: <html>");

    let step = at_entry(&mut s);
    let step = answer(&mut s, step, ENTRY, page("{\"loginErrMsg\":\" wrong \"}"));
    assert_eq!(message(step), "login failed:  wrong ");
    assert_eq!(s.capabilities().message, "login failed:  wrong ");

    let step = at_entry(&mut s);
    let step = answer(&mut s, step, ENTRY, page("{\"lockingTime\":60}"));
    assert_eq!(message(step), "login locked (60s): locked out");

    let step = at_entry(&mut s);
    let locked = "{\"lockingTime\":5,\"promptMsg\":\"wait\"}";
    let step = answer(&mut s, step, ENTRY, page(locked));
    assert_eq!(message(step), "login locked (5s): wait");

    let step = at_entry(&mut s);
    let step = answer(&mut s, step, ENTRY, page("{\"lockingTime\":0}"));
    let step = answer(&mut s, step, "/", page("Frm_Password"));
    assert_eq!(message(step), "login response unclear (still on login page)");
    assert!(!s.is_logged_in());
}

#[test]
fn refreshed_logins() {
    let mut s = open();
    let step = at_entry(&mut s);
    let step = answer(&mut s, step, ENTRY, page("{\"login_need_refresh\":true}"));
    let step = answer(&mut s, step, "/", page("Frm_Password"));
    assert!(s.is_logged_in());
    let (r, _) = sent(step);
    assert_eq!(url(&r), format!("http://router{FILTER}"));
}

#[test]
fn members_given_by_hand() {
    let mut s = open();
    let step = at_entry(&mut s);
    let (_, job) = sent(step);
    let members = vec![
        JsonMember {
            key: "loginErrMsg".to_owned(),
            text: Some("no".to_owned()),
            integer: None,
            boolean: None,
        },
    ];
    let step = s.resume_with(job, &page("ignored"), &Some(members), &None);
    assert_eq!(message(step), "login failed: no");
}

const LIST: &str = "<r><OBJ_ACCESSDEV_ID><Instance>\
    <ParaName>HostName</ParaName><ParaValue>tv</ParaValue></Instance></OBJ_ACCESSDEV_ID></r>";

#[test]
fn listing_devices() {
    let mut s = logged_in();
    let step = s.list_devices();
    let step = answer(&mut s, step, HOMEPAGE, page(LIST));
    match done(step) {
        Outcome::Devices(d) => {
            assert_eq!(d.len(), 1);
            assert_eq!(d[0].hostname.as_deref(), Some("tv"));
            assert_eq!(d[0].link, LinkKind::Wifi);
        },
        _ => panic!("no devices"),
    }
    assert_eq!(
        s.capabilities().message,
        "login OK · 1 client(s) · rates: this PC only (no per-host traffic on firmware)"
    );
}

#[test]
fn listing_devices_on_other_pages() {
    let mut s = logged_in();
    let step = s.list_devices();
    let step = answer(&mut s, step, HOMEPAGE, page("SessionTimeout"));
    let step = answer(&mut s, step, ALL, page(LIST));
    match done(step) {
        Outcome::Devices(d) => assert_eq!(d[0].link, LinkKind::Unknown),
        _ => panic!("no devices"),
    }
}

#[test]
fn listing_devices_after_another_login() {
    let mut s = logged_in();
    let step = s.list_devices();
    let step = answer(&mut s, step, HOMEPAGE, page("SessionTimeout"));
    let step = answer(&mut s, step, ALL, page("something else"));
    let step = answer(&mut s, step, WLAN, page("SessionTimeout"));
    assert!(!s.is_logged_in());
    let step = enter(&mut s, step);
    // The second login is not followed by a probe.
    let step = answer(&mut s, step, HOMEPAGE, Reply::Unsent);
    let step = answer(&mut s, step, ALL, page("SessionTimeout"));
    let step = answer(&mut s, step, WLAN, page("odd"));
    assert_eq!(
        message(step),
        format!(
            "device list failed after re-login: unexpected device payload on {WLAN}: odd \
             (was: session timeout on {WLAN})"
        )
    );
    assert!(s.is_logged_in());
}

#[test]
fn listing_logs_in_first() {
    let mut s = open();
    let step = s.list_devices();
    let step = enter(&mut s, step);
    let step = answer(&mut s, step, FILTER, page("x"));
    let step = answer(&mut s, step, BLOCKED, page("x"));
    let step = answer(&mut s, step, HOMEPAGE, page(LIST));
    assert!(matches!(done(step), Outcome::Devices(_)));
}

const RULES: &str = "OBJ_MACFILTER<Instance><ParaName>_InstID</ParaName><ParaValue>R1</ParaValue>\
    <ParaName>SrcMacAddr</ParaName><ParaValue>00:11:22:33:44:55</ParaValue></Instance>";

#[test]
fn listing_blocked_devices() {
    let mut s = logged_in();
    let step = s.list_blocked();
    let step = answer(&mut s, step, FILTER, page("x"));
    let step = answer(&mut s, step, BLOCKED, page(RULES));
    match done(step) {
        Outcome::Blocked(list) => {
            assert_eq!(list.len(), 1);
            assert_eq!(list[0].inst_id, "R1");
        },
        _ => panic!("no list"),
    }
    let step = s.list_blocked();
    let step = answer(&mut s, step, FILTER, page("SessionTimeout"));
    let step = enter(&mut s, step);
    let step = answer(&mut s, step, FILTER, page("x"));
    let step = answer(&mut s, step, BLOCKED, page("SessionTimeout"));
    assert_eq!(message(step), "session timeout fetching MAC filter");
}

#[test]
fn the_state_of_the_filter() {
    let mut s = logged_in();
    let step = s.mac_filter_status();
    let step = answer(&mut s, step, FILTER, Reply::Unsent);
    let step = answer(
        &mut s,
        step,
        SWITCHES,
        page("<ParaName>MacFilterEnable</ParaName><ParaValue>1</ParaValue>"),
    );
    match done(step) {
        Outcome::Status(st) => {
            assert!(st.enabled && st.can_block);
            assert_eq!(st.mode, "unknown");
        },
        _ => panic!("no state"),
    }
    let step = s.mac_filter_status();
    let step = answer(&mut s, step, FILTER, page("x"));
    let step = answer(&mut s, step, SWITCHES, page("SessionTimeout"));
    match done(step) {
        Outcome::Status(st) => {
            assert!(!st.enabled && st.can_block);
            assert_eq!(st.mode, "");
        },
        _ => panic!("no state"),
    }
}

#[test]
fn blocking_a_device() {
    let mut s = logged_in();
    let step = s.block_device("AABBCCDDEEFF", "My TV!");
    let step = answer(&mut s, step, FILTER, page("x"));
    let step = answer(&mut s, step, BLOCKED, page(RULES));
    let step = answer(&mut s, step, FILTER, page("_sessionTmpToken = \"t9\""));
    let (r, job) = sent(step);
    assert_eq!(
        url(&r),
        "IF_ACTION=Apply&_InstID=-1&Name=My%20TV&SrcMacAddr=aa:bb:cc:dd:ee:ff\
         &DstMacAddr=aa:bb:cc:dd:ee:ff&Type=Bridge%2BRoute&Protocol=IP&_sessionTOKEN=t9"
    );
    let step = s.resume(job, &page("<IF_ERRORID>0</IF_ERRORID>"));
    assert!(matches!(done(step), Outcome::Changed));
    assert_eq!(s.capabilities().message, "blocked My%20TV (aa:bb:cc:dd:ee:ff)");
}

#[test]
fn blocking_twice() {
    let mut s = logged_in();
    let step = s.block_device("00-11-22-33-44-55", "x");
    let step = answer(&mut s, step, FILTER, page("x"));
    let step = answer(&mut s, step, BLOCKED, page(RULES));
    assert_eq!(message(step), "device 00:11:22:33:44:55 is already blocked");
    let step = s.block_device("12345", "x");
    assert_eq!(message(step), "invalid MAC address");
}

#[test]
fn removing_a_rule() {
    let mut s = logged_in();
    let step = s.unblock_device("");
    assert_eq!(message(step), "missing rule id");
    let step = s.unblock_device("R1");
    let step = answer(&mut s, step, FILTER, page("x"));
    let (r, job) = sent(step);
    assert_eq!(url(&r), "IF_ACTION=Delete&_InstID=R1&_sessionTOKEN=two");
    let step = s.resume(job, &page(""));
    assert!(matches!(done(step), Outcome::Changed));
    assert_eq!(s.capabilities().message, "unblocked rule R1");
}

#[test]
fn refused_changes() {
    let mut s = logged_in();
    let replies = [
        (Reply::Unsent, format!("POST http://router{BLOCKED}")),
        (Reply::Unmade("RSA encrypt Check header".to_owned()), "RSA encrypt Check header".to_owned()),
        (refused("403 Forbidden", "no"), "POST filter HTTP 403 Forbidden: no".to_owned()),
        (page("SessionTimeout"), "session timeout on filter POST".to_owned()),
        (
            page("<IF_ERRORID>7</IF_ERRORID><IF_ERRORSTR>a&#32;&lt;b&gt;&amp;c</IF_ERRORSTR>"),
            "router rejected change: a <b>&c (7)".to_owned(),
        ),
        (page("<IF_ERRORID>7</IF_ERRORID>"), "router rejected change: error id 7 (7)".to_owned()),
    ];
    for (reply, expected) in replies {
        let step = s.unblock_device("R1");
        let step = answer(&mut s, step, FILTER, page("x"));
        let (_, job) = sent(step);
        let step = s.resume(job, &reply);
        assert_eq!(message(step), expected);
    }
    let step = s.unblock_device("R1");
    let step = answer(&mut s, step, FILTER, page("SessionTimeout"));
    assert_eq!(message(step), "session timeout opening filter page");
}

#[test]
fn forms_carry_a_check() {
    let s = open();
    let a = s.post_filter("x=1").unwrap();
    let b = s.post_filter("x=1").unwrap();
    assert_eq!(a.url, format!("http://router{BLOCKED}"));
    assert_eq!(a.referer, "http://router/");
    assert_eq!(a.body, "x=1");
    // A key of 2048 bits, and new padding each time.
    let cipher = base64::engine::general_purpose::STANDARD.decode(&a.check).unwrap();
    assert_eq!(cipher.len(), 256);
    assert_ne!(a.check, b.check);
}

#[test]
fn an_unreadable_page() {
    let mut s = open();
    let (_, job) = sent(s.login());
    let mut body = String::from("x_sessionTmpToken");
    for _ in 0..300 {
        body.push('é');
    }
    assert!(can_resume(&job, &page(&body)));
    let odd = body.replace("Token", "Tokenx");
    assert!(!can_resume(&job, &page(&odd)));
    assert!(can_resume(&job, &refused("404 Not Found", &odd)));
}

#[test]
fn pages_that_go_too_deep() {
    let deep = "<a>".repeat(100_000);
    // A page without devices is not read as a document.
    let mut s = logged_in();
    let first = s.list_devices();
    let (_, job) = sent(first);
    assert!(can_resume(&job, &page(&deep)));
    assert!(can_resume(&job, &page(&format!("{deep}HostName SessionTimeout"))));
    assert!(can_resume(&job, &refused("404 Not Found", &format!("{deep}HostName"))));
    assert!(!can_resume(&job, &page(&format!("{deep}HostName"))));
    let next = s.resume(job, &page(&deep));
    let (r, _) = sent(next);
    assert_eq!(
        url(&r),
        "http://router/?_type=hiddenData&_tag=accessdev_data&DeveiceType=ALL"
    );
    // The token is looked for in a document.
    let mut s = open();
    let first = s.login();
    let step = answer(&mut s, first, "/", page("hello"));
    let (_, job) = sent(step);
    assert!(!can_resume(&job, &page(&deep)));
    assert!(can_resume(&job, &page("<a>1</a>")));
}

#[test]
fn an_operation_asks_twenty_times_at_most() {
    let mut s = logged_in();
    let mut asked = 0;
    let mut step = s.block_device("001122334466", "x");
    // Every page is answered with a time-out, every form with success.
    let over = loop {
        match step {
            Step::Done(o) => break o,
            Step::Send(r, job) => {
                asked += 1;
                let reply = match r {
                    Request::Get { url, .. } => {
                        if url.contains("login_token") {
                            page("<a>1</a>")
                        } else if url == "http://router/" {
                            page("Logout")
                        } else {
                            page("SessionTimeout")
                        }
                    },
                    _ => page("{}"),
                };
                step = s.resume(job, &reply);
            },
        }
    };
    assert!(asked <= 20);
    assert!(matches!(over, Outcome::Failed(_)));
}
