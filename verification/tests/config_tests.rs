use oneway::Config;
use oneway::Error;

#[test]
fn parse_config() {
    let config_content = "
mtu = 1400
; A comment
remission_count = 2
# An other one
";

    let maybe_config = Config::parse_stream(config_content);

    assert!(maybe_config.is_ok());
    assert_eq!(
        maybe_config.unwrap(),
        Config {
            remission_count: 2,
            mtu: 1400,
            ..Default::default()
        }
    );
}

#[test]
fn defaults() {
    let c = Config::default();
    assert_eq!(c.remission_count, 3);
    assert_eq!(c.mtu, 1024);
    assert_eq!(c.recv_timeout, 3);
}

#[test]
fn empty_input_yields_defaults() {
    let c = Config::parse_stream("").unwrap();
    assert_eq!(c, Config::default());
}

#[test]
fn all_keys_recognized() {
    let text = "mtu = 512\nremission_count = 5\nrecv_timeout = 9\nchannel_size = 7\nroot = /srv/files\naddress = 127.0.0.1:9000\n";
    let c = Config::parse_stream(text).unwrap();
    assert_eq!(c.mtu, 512);
    assert_eq!(c.remission_count, 5);
    assert_eq!(c.recv_timeout, 9);
    assert_eq!(c.channel_size, 7);
    assert_eq!(c.root, "/srv/files");
    assert_eq!(c.address, "127.0.0.1:9000");
}

#[test]
fn keys_match_case_insensitively() {
    let c = Config::parse_stream("MTU = 77\nRemission_Count = 4\n").unwrap();
    assert_eq!(c.mtu, 77);
    assert_eq!(c.remission_count, 4);
}

#[test]
fn unknown_key_is_not_fatal() {
    let c = Config::parse_stream("shiny = yes\nmtu = 600\n").unwrap();
    assert_eq!(c.mtu, 600);
}

#[test]
fn bare_key_and_section_are_ignored() {
    let c = Config::parse_stream("[transport]\nverbose\nmtu = 80\n").unwrap();
    assert_eq!(c.mtu, 80);
}

#[test]
fn reserved_key_is_ignored() {
    let c = Config::parse_stream("key = SECRET-REDACTED\nmtu = 99\n").unwrap();
    assert_eq!(c.mtu, 99);
}

#[test]
fn invalid_line_reports_line_number_and_text() {
    let r = Config::parse_stream("mtu = 1400\nbad key = 3\n");
    match r {
        Err(Error::InvalidConfig { linenum, line }) => {
            assert_eq!(linenum, 2);
            assert_eq!(line, "bad key = 3");
        }
        other => panic!("expected InvalidConfig, got {:?}", other),
    }
}

#[test]
fn empty_value_is_invalid() {
    let r = Config::parse_stream("mtu =\n");
    assert!(matches!(r, Err(Error::InvalidConfig { linenum: 1, .. })));
}

#[test]
fn numeric_overflow_is_parse_int_error() {
    let r = Config::parse_stream("mtu = 99999999999999999999999999\n");
    assert!(matches!(r, Err(Error::ParseInt)));
}

#[test]
fn non_numeric_value_is_parse_int_error() {
    let r = Config::parse_stream("mtu = twelve\n");
    assert!(matches!(r, Err(Error::ParseInt)));
}

#[test]
fn leading_plus_is_accepted() {
    let c = Config::parse_stream("mtu = +123\n").unwrap();
    assert_eq!(c.mtu, 123);
}

#[test]
fn later_value_wins() {
    let c = Config::parse_stream("mtu = 100\nmtu = 200\n").unwrap();
    assert_eq!(c.mtu, 200);
}

#[test]
fn no_trailing_newline() {
    let c = Config::parse_stream("mtu = 333").unwrap();
    assert_eq!(c.mtu, 333);
}
