use scrying::argparse::mode_from_str;
use scrying::argparse::webmode_from_str;
use scrying::Mode;
use scrying::Mode::Auto;
use scrying::Mode::Rdp;
use scrying::Mode::Web;
use scrying::WebMode;

#[test]
fn mode_filter() {
    let auto = Auto;
    let rdp = Rdp;
    let web = Web;

    assert!(auto.selected(Auto));
    assert!(auto.selected(Rdp));
    assert!(auto.selected(Web));

    assert!(rdp.selected(Auto));
    assert!(rdp.selected(Rdp));
    assert!(!rdp.selected(Web));

    assert!(web.selected(Auto));
    assert!(!web.selected(Rdp));
    assert!(web.selected(Web));
}

#[test]
fn mode_names_parse() {
    assert_eq!(mode_from_str("web"), Ok(Mode::Web));
    assert_eq!(mode_from_str("rdp"), Ok(Mode::Rdp));
    assert_eq!(mode_from_str("vnc"), Ok(Mode::Vnc));
    assert_eq!(mode_from_str("auto"), Ok(Mode::Auto));
    assert!(mode_from_str("ssh").is_err());
    assert!(mode_from_str("").is_err());
}

#[test]
fn web_mode_names_parse() {
    assert_eq!(webmode_from_str("chrome"), Ok(WebMode::Chrome));
    assert_eq!(webmode_from_str("native"), Ok(WebMode::Native));
    assert!(webmode_from_str("edge").is_err());
}

#[test]
fn socks5_proxy_uris_are_required() {
    assert!(scrying::argparse::is_socks5("socks5://[::1]:1080").is_ok());
    assert_eq!(
        scrying::argparse::is_socks5("http://[::1]:8080"),
        Err("Global or RDP proxy must be a socks5:// URI".to_owned())
    );
}

#[test]
fn size_arguments_parse() {
    assert_eq!(scrying::argparse::parse_size("1280x1024"), Some((1280, 1024)));
    assert_eq!(scrying::argparse::parse_size("1x1"), Some((1, 1)));
    assert_eq!(scrying::argparse::parse_size("1280x"), None);
    assert_eq!(scrying::argparse::parse_size("x1024"), None);
    assert_eq!(scrying::argparse::parse_size("12a0x4"), None);
    assert_eq!(scrying::argparse::parse_size("800x600x2"), None);
    assert_eq!(scrying::argparse::parse_size(""), None);
    assert_eq!(
        scrying::argparse::parse_size("99999999999999999999999x2"),
        None
    );
}
