use mcping::lan::parse_lan_announcement;
use mcping::numtext::fmt_i64;
use mcping::numtext::fmt_u64;
use mcping::numtext::parse_i32;
use mcping::numtext::parse_u16;
use mcping::status::classify_favicon;
use mcping::status::favicon_payload;
use mcping::status::parse_status_response;
use mcping::status::status_report;
use mcping::status::FaviconKind;
use mcping::wire::ProtocolError;

#[test]
fn test_parse_status_full_document() {
    let json = "{\"version\":{\"name\":\"1.20.4\",\"protocol\":765},\
                \"players\":{\"max\":20,\"online\":3},\
                \"description\":{\"text\":\"A server\"},\
                \"favicon\":\"data:image/png;base64,AAAA\",\
                \"enforcesSecureChat\":true,\"previewsChat\":false}";
    let response = parse_status_response(json).unwrap();
    assert_eq!(response.version.name, "1.20.4");
    assert_eq!(response.version.protocol, 765);
    assert_eq!(response.players.max, 20);
    assert_eq!(response.players.online, 3);
    assert_eq!(response.favicon, Some(String::from("data:image/png;base64,AAAA")));
    assert_eq!(response.enforces_secure_chat, Some(true));
    assert_eq!(response.previews_chat, Some(false));
    assert_eq!(mcping::chat::chat_to_str(&response.description, false), "A server");
}

#[test]
fn test_parse_status_missing_description() {
    let json = "{\"version\":{\"name\":\"x\",\"protocol\":1},\
                \"players\":{\"max\":1,\"online\":0}}";
    assert!(matches!(parse_status_response(json), Err(ProtocolError::Malformed)));
}

#[test]
fn test_parse_status_fractional_protocol_rejected() {
    let json = "{\"version\":{\"name\":\"x\",\"protocol\":1.5},\
                \"players\":{\"max\":1,\"online\":0},\"description\":\"\"}";
    assert!(matches!(parse_status_response(json), Err(ProtocolError::Malformed)));
}

#[test]
fn test_parse_status_malformed_json() {
    assert!(matches!(parse_status_response("{nope"), Err(ProtocolError::Malformed)));
}

#[test]
fn test_status_report_layout() {
    let json = "{\"version\":{\"name\":\"1.0\",\"protocol\":1},\
                \"players\":{\"max\":2,\"online\":1},\"description\":\"hi\"}";
    let response = parse_status_response(json).unwrap();
    let report = status_report(&response, "hi", 42);
    let mut expected = String::from("hi\n");
    expected.push_str(&format!("{:<24} {}\n", "Server version", "1.0"));
    expected.push_str(&format!("{:<24} {}\n", "Protocol", 1));
    expected.push_str(&format!("{:<24} {}/{}\n", "Players", 1, 2));
    expected.push_str(&format!("{:<24} {}\n", "Favicon", "(No data available)"));
    expected.push_str(&format!("{:<24} {}\n", "Enforces secure chat", "No"));
    expected.push_str(&format!("{:<24} {}\n", "Previews chat", "No"));
    expected.push_str(&format!("{:<24} {} ms\n", "Server latency", 42));
    assert_eq!(report, expected);
}

#[test]
fn test_classify_favicon_kinds() {
    assert_eq!(classify_favicon(&None), FaviconKind::NoData);
    assert_eq!(classify_favicon(&Some(String::new())), FaviconKind::NoData);
    let png = String::from("data:image/png;base64,QUJD");
    assert_eq!(classify_favicon(&Some(png.clone())), FaviconKind::Png);
    assert_eq!(favicon_payload(&png), "QUJD");
    assert_eq!(
        classify_favicon(&Some(String::from("hello"))),
        FaviconKind::UnknownFormat
    );
}

#[test]
fn test_parse_lan_announcement_basic() {
    let message = "[MOTD]A Minecraft Server[/MOTD][AD]25565[/AD]";
    let (motd, port) = parse_lan_announcement(message).unwrap();
    assert_eq!(motd, "A Minecraft Server");
    assert_eq!(port, "25565");
}

#[test]
fn test_parse_lan_announcement_trims_whitespace() {
    let message = "  \n[MOTD]hi[/MOTD][AD]1000[/AD]\t ";
    let (motd, port) = parse_lan_announcement(message).unwrap();
    assert_eq!(motd, "hi");
    assert_eq!(port, "1000");
}

#[test]
fn test_parse_lan_announcement_rejects_bad_shapes() {
    assert!(parse_lan_announcement("hello").is_none());
    assert!(parse_lan_announcement("[MOTD]x[/MOTD][AD]1[/AD]extra").is_none());
    assert!(parse_lan_announcement("[MOTD]x[/AD]").is_none());
    // a second delimiter makes the message ambiguous and invalid
    assert!(
        parse_lan_announcement("[MOTD]a[/MOTD][AD]b[/MOTD][AD]c[/AD]").is_none()
    );
}

#[test]
fn test_fmt_decimal() {
    assert_eq!(fmt_u64(0), "0");
    assert_eq!(fmt_u64(25565), "25565");
    assert_eq!(fmt_u64(u64::MAX), "18446744073709551615");
    assert_eq!(fmt_i64(-123), "-123");
    assert_eq!(fmt_i64(i64::MIN), "-9223372036854775808");
    assert_eq!(fmt_i64(7), "7");
}

#[test]
fn test_parse_port_numbers() {
    assert_eq!(parse_u16("0"), Some(0));
    assert_eq!(parse_u16("65535"), Some(65535));
    assert_eq!(parse_u16("+25565"), Some(25565));
    assert_eq!(parse_u16("65536"), None);
    assert_eq!(parse_u16(""), None);
    assert_eq!(parse_u16("+"), None);
    assert_eq!(parse_u16("12a"), None);
    assert_eq!(parse_u16("-1"), None);
}

#[test]
fn test_parse_i32_numbers() {
    assert_eq!(parse_i32("2147483647"), Some(2147483647));
    assert_eq!(parse_i32("-2147483648"), Some(-2147483648));
    assert_eq!(parse_i32("2147483648"), None);
    assert_eq!(parse_i32("-2147483649"), None);
    assert_eq!(parse_i32("1.5"), None);
    assert_eq!(parse_i32("0"), Some(0));
}
