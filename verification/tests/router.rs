use base64::Engine;
use mywifistats::addr::IpAddr;
use mywifistats::model::{DeviceSource, LinkKind};
use mywifistats::router::crypto;
use mywifistats::router::devices;
use mywifistats::router::filter;
use mywifistats::router::page;
use mywifistats::router::xml;
use mywifistats::router::zte_f670l;
use rsa::pkcs8::{EncodePublicKey, LineEnding};

#[test]
fn parse_blocked() {
    let xml = r#"<ajax_response_xml_root><OBJ_MACFILTER_ID>
        <Instance>
        <ParaName>_InstID</ParaName><ParaValue>DEV.FW.CHAIN1.MACF1</ParaValue>
        <ParaName>Type</ParaName><ParaValue>Bridge+Route</ParaValue>
        <ParaName>Protocol</ParaName><ParaValue>IP</ParaValue>
        <ParaName>Name</ParaName><ParaValue>Opppo</ParaValue>
        <ParaName>SrcMacAddr</ParaName><ParaValue>3e:17:6d:4f:fa:bd</ParaValue>
        <ParaName>DstMacAddr</ParaName><ParaValue>3e:17:6d:4f:fa:bd</ParaValue>
        </Instance></OBJ_MACFILTER_ID></ajax_response_xml_root>"#;
    let list = filter::parse_mac_filter_xml(xml);
    assert_eq!(list.len(), 1);
    assert_eq!(list[0].name, "Opppo");
    assert_eq!(list[0].mac, "3e:17:6d:4f:fa:bd");
}

#[test]
fn parse_luquid_fields() {
    let xml = r#"<?xml version="1.0"?><ajax_response_xml_root>
        <OBJ_ACCESSDEV_ID>
        <Instance>
        <ParaName>_LuQUID_MACAddress</ParaName><ParaValue>a6:54:f2:99:de:68</ParaValue>
        <ParaName>_LuQUID_HostName</ParaName><ParaValue>OnePlus-11R-5G</ParaValue>
        <ParaName>_LuQUID_IPAddress</ParaName><ParaValue>192.168.1.5</ParaValue>
        </Instance>
        </OBJ_ACCESSDEV_ID></ajax_response_xml_root>"#;
    let devs = devices::parse_accessdev_xml(xml, LinkKind::Wifi).unwrap();
    assert_eq!(devs.len(), 1);
    assert_eq!(devs[0].hostname.as_deref(), Some("OnePlus-11R-5G"));
}

#[test]
fn decode_token() {
    let s = r#"\x59\x66\x59\x4a"#;
    assert_eq!(page::decode_js_hex_string(s).as_deref(), Some("YfYJ"));
}

#[test]
fn escapes_in_literals() {
    assert_eq!(page::decode_js_hex_string("").as_deref(), Some(""));
    assert_eq!(page::decode_js_hex_string("a\\x42c").as_deref(), Some("aBc"));
    assert_eq!(page::decode_js_hex_string("\\xc3\\xa9").as_deref(), Some("é"));
    assert_eq!(page::decode_js_hex_string("\\x+f").as_deref(), Some("\u{f}"));
    assert_eq!(page::decode_js_hex_string("\\x4"), None);
    assert_eq!(page::decode_js_hex_string("\\xzz"), None);
    assert_eq!(page::decode_js_hex_string("\\xff"), None);
    assert_eq!(page::decode_js_hex_string("\\y"), Some("\\y".to_owned()));
    // A character outside of one byte keeps its low byte only.
    assert_eq!(page::decode_js_hex_string("\u{141}").as_deref(), Some("A"));
}

#[test]
fn blocked_rules_with_gaps() {
    let page = "SrcMacAddr <Instance><ParaName> Name </ParaName><ParaValue></ParaValue>\
        <ParaName>DstMacAddr</ParaName><ParaValue>AA-BB-CC-DD-EE-FF</ParaValue></Instance>\
        <Instance><ParaName>SrcMacAddr</ParaName><ParaValue>broken</ParaValue></Instance>\
        <Instance><ParaName>SrcMacAddr</ParaName></Instance>";
    let list = filter::parse_mac_filter_xml(page);
    assert_eq!(list.len(), 1);
    assert_eq!(list[0].mac, "aa:bb:cc:dd:ee:ff");
    assert_eq!(list[0].name, "aa:bb:cc:dd:ee:ff");
    assert_eq!(list[0].inst_id, "");
    assert_eq!(list[0].protocol, None);
    assert_eq!(list[0].filter_type, None);
    assert!(filter::blocks_of(&list, "aa:bb:cc:dd:ee:ff"));
    assert!(!filter::blocks_of(&list, "aa:bb:cc:dd:ee:f0"));
    assert!(filter::parse_mac_filter_xml("<Instance>nothing</Instance>").is_empty());
}

#[test]
fn rule_fields() {
    let page = "OBJ_MACFILTER<Instance>\
        <ParaName>_InstID</ParaName><ParaValue>DEV.1</ParaValue>\
        <ParaName>Type</ParaName><ParaValue>Bridge+Route</ParaValue>\
        <ParaName>Protocol</ParaName><ParaValue>IP</ParaValue>\
        <ParaName>SrcMacAddr</ParaName><ParaValue>001122334455</ParaValue>";
    let list = filter::parse_mac_filter_xml(page);
    assert_eq!(list.len(), 1);
    assert_eq!(list[0].inst_id, "DEV.1");
    assert_eq!(list[0].filter_type.as_deref(), Some("Bridge+Route"));
    assert_eq!(list[0].protocol.as_deref(), Some("IP"));
    assert_eq!(list[0].mac, "00:11:22:33:44:55");
}

#[test]
fn devices_of_documents() {
    let xml = r#"<root>
        <Instance>
          <paraname>hostname</paraname><PARAVALUE> tv </PARAVALUE>
          <group><ParaName>MyMacAddress</ParaName><ParaValue>00:11:22:33:44:55</ParaValue></group>
          <ParaName>IPAddress</ParaName><Other/><ParaValue>10.0.0.9</ParaValue>
        </Instance>
        <Instance><ParaName>HostName</ParaName><ParaValue>Unknown</ParaValue>
          <ParaName>IpAddress</ParaName><ParaValue>not an address</ParaValue></Instance>
        <Instance><ParaName>Other</ParaName><ParaValue>1</ParaValue></Instance>
      </root>"#;
    let devs = devices::parse_accessdev_xml(xml, LinkKind::Unknown).unwrap();
    assert_eq!(devs.len(), 2);
    assert_eq!(devs[0].hostname.as_deref(), Some("tv"));
    assert_eq!(devs[0].mac.as_deref(), Some("00:11:22:33:44:55"));
    assert_eq!(devs[0].ip, None);
    assert_eq!(devs[0].source, DeviceSource::Router);
    assert_eq!(devs[0].link, LinkKind::Unknown);
    assert!(devs[0].online);
    assert_eq!(devs[1].hostname, None);
    assert_eq!(devs[1].ip, None);
    assert_eq!(devs[1].mac, None);
}

#[test]
fn devices_of_text() {
    // Not a document: the root is never closed.
    let page = "<root>x<Instance><ParaName>HostName</ParaName><ParaValue>phone</ParaValue>\
        <ParaName>IPAddress</ParaName><ParaValue>192.168.1.7</ParaValue>\
        <Instance><ParaName>_LuQUID_MACAddress</ParaName><ParaValue>0011.2233.4455</ParaValue>\
        <Instance><ParaName>Nothing</ParaName><ParaValue>x</ParaValue>";
    let devs = devices::parse_accessdev_xml(page, LinkKind::Wifi).unwrap();
    assert_eq!(devs.len(), 2);
    assert_eq!(devs[0].hostname.as_deref(), Some("phone"));
    assert_eq!(devs[0].ip, Some(IpAddr::V4(192, 168, 1, 7)));
    assert_eq!(devs[1].mac.as_deref(), Some("00:11:22:33:44:55"));
    let whole = devices::scrape_devices_loose(
        "<ParaName>HostName</ParaName><ParaValue>x</ParaValue>",
        LinkKind::Wifi,
    );
    assert_eq!(whole.len(), 1);
}

#[test]
fn empty_and_expired_pages() {
    assert!(devices::parse_accessdev_xml("  \n", LinkKind::Wifi).unwrap().is_empty());
    assert_eq!(
        devices::parse_accessdev_xml("<x>SessionTimeout</x>", LinkKind::Wifi).unwrap_err(),
        "session timeout"
    );
}

#[test]
fn short_texts() {
    assert_eq!(page::truncate("abc", 3), "abc");
    assert_eq!(page::truncate("abcd", 3), "abc…");
    assert_eq!(page::truncate("ééé", 2), "éé…");
    assert_eq!(page::truncate("", 0), "");
}

#[test]
fn names_of_rules() {
    assert_eq!(page::sanitize_name("My Phone"), "My%20Phone");
    assert_eq!(page::sanitize_name("a&b=c%d"), "abcd");
    assert_eq!(page::sanitize_name(" \t "), "blocked");
    assert_eq!(page::sanitize_name("é"), "blocked");
    assert_eq!(page::sanitize_name("0123456789012345678901234567890123456789"), "01234567890123456789012345678901");
    assert_eq!(page::sanitize_name("a-b_c.d"), "a-b_c.d");
}

#[test]
fn session_tokens() {
    let script = r#"x _sessionTmpToken = "\x41\x42"; y"#;
    assert_eq!(page::extract_session_token_from_html(script).as_deref(), Some("AB"));
    let plain = r#"_sessionTmpToken = "tok";"#;
    assert_eq!(page::extract_session_token_from_html(plain).as_deref(), Some("tok"));
    let broken = r#"_sessionTmpToken = "\xzz"; id="_sessionTOKEN" value="v""#;
    assert_eq!(page::extract_session_token_from_html(broken), None);
    let field = r#"<input id="_sessionTOKEN" type="hidden" value="v1">"#;
    assert_eq!(page::extract_session_token_from_html(field).as_deref(), Some("v1"));
    let named = r#"<input name="_sessionTOKEN" value="">"#;
    assert_eq!(page::extract_session_token_from_html(named).as_deref(), Some(""));
    assert_eq!(page::extract_session_token_from_html("nothing"), None);
    let empty = r#"_sessionTmpToken = ""; <input name="_sessionTOKEN" value="w">"#;
    assert_eq!(page::extract_session_token_from_html(empty).as_deref(), Some("w"));
}

#[test]
fn windows_of_tokens() {
    // The quote is looked for within 400 bytes only.
    let mut far = String::from("_sessionTmpToken");
    for _ in 0..400 {
        far.push('x');
    }
    far.push_str("\"t\"");
    assert!(page::token_readable_of(&far));
    assert_eq!(page::extract_session_token_from_html(&far), None);
    // A window that ends within a character cannot be read.
    let mut odd = String::from("_sessionTmpToken");
    for _ in 0..300 {
        odd.push('é');
    }
    assert!(page::token_readable_of(&odd));
    odd.insert(0, ' ');
    assert!(page::token_readable_of(&odd));
    let cut = odd.replace("Token", "Tokenx");
    assert!(page::token_readable_of(&cut) == cut.is_char_boundary(1 + 400));
}

#[test]
fn single_values() {
    assert_eq!(page::extract_xml_text("<a> 1 </a><a>2</a>", "a").as_deref(), Some("1"));
    assert_eq!(page::extract_xml_text("<a>1", "a"), None);
    assert_eq!(page::extract_xml_text("<b>1</b>", "a"), None);
    let page = "<ParaName>On</ParaName><ParaValue> 1 </ParaValue><ParaName>X</ParaName>";
    assert_eq!(page::extract_para_value(page, "On").as_deref(), Some("1"));
    assert_eq!(page::extract_para_value(page, "X"), None);
    assert_eq!(page::extract_para_value(page, "Off"), None);
}

#[test]
fn lists_of_parameters() {
    let map = page::para_map_from_chunk(
        "<ParaName>a</ParaName><ParaValue>1</ParaValue><ParaName> b </ParaName>\
         <ParaValue> 2 </ParaValue><ParaName>a</ParaName><ParaValue>3</ParaValue>",
    );
    assert_eq!(map.len(), 2);
    assert_eq!(map.get("a").map(|s| s.as_str()), Some("3"));
    assert_eq!(map.get("b").map(|s| s.as_str()), Some("2"));
    assert!(map.get("c").is_none());
}

#[test]
fn switches_of_the_filter() {
    let page = "<ParaName>MacFilterEnable</ParaName><ParaValue>1</ParaValue>\
        <ParaName>MacFilterTarget</ParaName><ParaValue>Discard</ParaValue>";
    let s = filter::parse_filter_status(page, true);
    assert!(s.enabled && s.can_block);
    assert_eq!(s.mode, "Discard");
    let off = filter::parse_filter_status("", false);
    assert!(!off.enabled && !off.can_block);
    assert_eq!(off.mode, "unknown");
}

#[test]
fn digests() {
    // SHA-256 of "passwordtoken".
    assert_eq!(
        crypto::hash_password("password", "token"),
        "d4b37d007cb3cb0dcbcbe457fe5a464543bc41dc0256118fa6f7d41cb3782ddf"
    );
    assert_eq!(crypto::hash_password("", ""), "e3b0c44298fc1c149afbf4c8996fb92427ae41e4649b934ca495991b7852b855");
    assert_eq!(
        crypto::check_message_of("abc"),
        b"ba7816bf8f01cfea414140de5dae2223b00361a396177a9cb410ff61f20015ad".to_vec()
    );
}

#[test]
fn checks_in_base64() {
    assert_eq!(crypto::check_text(&Ok(vec![])).unwrap(), "");
    assert_eq!(crypto::check_text(&Ok(b"f".to_vec())).unwrap(), "Zg==");
    assert_eq!(crypto::check_text(&Ok(b"fo".to_vec())).unwrap(), "Zm8=");
    assert_eq!(crypto::check_text(&Ok(b"foobar".to_vec())).unwrap(), "Zm9vYmFy");
    assert_eq!(crypto::check_text(&Ok(vec![0xfb, 0xff, 0xfe])).unwrap(), "+//+");
    assert_eq!(
        crypto::check_text(&Err(rsa::Error::MessageTooLong)).unwrap_err(),
        "RSA encrypt Check header"
    );
}

fn private_key(bits: usize) -> (rsa::RsaPrivateKey, crypto::PublicKey) {
    let private = rsa::RsaPrivateKey::new(&mut rand::rngs::OsRng, bits).unwrap();
    let pem = private.to_public_key().to_public_key_pem(LineEnding::LF).unwrap();
    (private, crypto::PublicKey::from_pem(&pem).unwrap())
}

#[test]
fn checks_can_be_decrypted() {
    let (private, public) = private_key(768);
    let first = crypto::make_check_header(&public, "IF_ACTION=Delete").unwrap();
    let second = crypto::make_check_header(&public, "IF_ACTION=Delete").unwrap();
    assert_ne!(first, second);
    for check in [first, second] {
        let cipher = base64::engine::general_purpose::STANDARD.decode(check).unwrap();
        assert_eq!(cipher.len(), 96);
        let message = private.decrypt(rsa::Pkcs1v15Encrypt, &cipher).unwrap();
        assert_eq!(message, crypto::check_message_of("IF_ACTION=Delete"));
    }
}

#[test]
fn checks_need_room() {
    let (_, public) = private_key(512);
    assert_eq!(
        crypto::make_check_header(&public, "").unwrap_err(),
        "RSA encrypt Check header"
    );
}

#[test]
fn keys_that_are_none() {
    assert!(crypto::PublicKey::from_pem("").is_none());
    assert!(crypto::PublicKey::from_pem("-----BEGIN PUBLIC KEY-----").is_none());
    assert!(crypto::PublicKey::from_pem(zte_f670l::ZTE_PUBKEY_PEM).is_some());
}

fn nested(tag: &str, n: usize) -> String {
    format!("<{tag}>").repeat(n) + "x" + &format!("</{tag}>").repeat(n)
}

#[test]
fn how_deep_a_text_goes() {
    assert!(xml::shallow_of(""));
    assert!(xml::shallow_of("plain text"));
    assert!(xml::shallow_of(&nested("a", xml::OPEN_LIMIT)));
    assert!(!xml::shallow_of(&nested("a", xml::OPEN_LIMIT + 1)));
    assert!(!xml::shallow_of(&"<a>".repeat(100_000)));
    // Elements side by side do not count, whatever they hold.
    let flat = "<b>1</b><c/><d e='>' f=\"/>\"/><!-- <x> --><![CDATA[<x></x>]]><?p <x>?>";
    assert!(xml::shallow_of(&format!("<?xml version=\"1.0\"?><a>{}</a>", flat.repeat(1000))));
    // What only looks like an end tag closes nothing.
    for fake in ["<!-- </a> -->", "<![CDATA[</a>]]>", "<?p </a>?>", "<b c=\"/>\">"] {
        let step = format!("<a>{fake}");
        assert!(!xml::shallow_of(&step.repeat(xml::OPEN_LIMIT + 1)), "{fake}");
    }
    // Behind the first element, and behind what no parser reads, nothing is opened.
    assert!(xml::shallow_of(&format!("<r/>{}", "<a>".repeat(1000))));
    assert!(xml::shallow_of(&format!("<!DOCTYPE html>{}", "<a>".repeat(1000))));
    assert!(xml::shallow_of("<a b="));
}

#[test]
fn a_deep_page_of_devices() {
    let device = "<Instance><ParaName>HostName</ParaName><ParaValue>deep</ParaValue></Instance>";
    let n = xml::OPEN_LIMIT - 2;
    let page = "<a>".repeat(n) + device + &"</a>".repeat(n);
    assert!(xml::shallow_of(&page));
    let devs = devices::parse_accessdev_xml(&page, LinkKind::Wifi).unwrap();
    assert_eq!(devs.len(), 1);
    assert_eq!(devs[0].hostname.as_deref(), Some("deep"));
    let late = "<a>".repeat(100_000) + "SessionTimeout";
    assert_eq!(
        devices::parse_accessdev_xml(&late, LinkKind::Wifi).unwrap_err(),
        "session timeout"
    );
}
