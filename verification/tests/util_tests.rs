use scrying::parsing::AddrV4;
use scrying::parsing::AddrV6;
use scrying::parsing::SocketAddress;
use scrying::target_to_filename;
use scrying::Target;
use url::Url;

fn url_target(s: &str) -> Target {
    Target::Url(Url::parse(s).unwrap().as_str().to_owned())
}

fn v6_target(segments: [u16; 8], port: u16) -> Target {
    Target::Address(SocketAddress::V6(AddrV6 { segments, port }))
}

fn v4_target(octets: [u8; 4], port: u16) -> Target {
    Target::Address(SocketAddress::V4(AddrV4 { octets, port }))
}

#[test]
fn test_target_to_filename() {
    let test_cases: Vec<(Target, &str)> = vec![
        (url_target("http://example.com///"), "http_example.com"),
        (url_target("http://example.com:8443"), "http_example.com_8443"),
        (
            url_target("http://example.com:8443/this/is/a/path/"),
            "http_example.com_8443-this-is-a-path",
        ),
        (url_target("http://192.0.2.65_8443/"), "http_192.0.2.65_8443"),
        (url_target("http://[2001:db8::56]:8443/"), "http_2001_db8__56_8443"),
        (v6_target([0, 0, 0, 0, 0, 0, 0, 1], 3389), "__1-3389"),
        (v6_target([0x2001, 0xdb8, 0, 0, 0, 0, 0, 1], 3389), "2001_db8__1-3389"),
        (v4_target([192, 0, 2, 45], 3389), "192.0.2.45-3389"),
    ];

    for case in test_cases {
        println!("Test case: {:?}", case);
        let parsed = target_to_filename(&case.0);
        assert_eq!(parsed, case.1);
    }
}

#[test]
fn filenames_distinguish_port_from_path() {
    let with_port = target_to_filename(&url_target("http://x:8080/path"));
    let with_path = target_to_filename(&url_target("http://x/8080/path"));
    assert_ne!(with_port, with_path);
    assert_eq!(with_port, "http_x_8080-path");
    assert_eq!(with_path, "http_x-8080-path");
}

#[test]
fn filenames_hold_no_metacharacters() {
    let cases = vec![
        url_target("https://[2001:db8::5]:8080/a/b?q=1"),
        url_target("http://example.com///"),
        v6_target([0, 0, 0, 0, 0, 0xffff, 0xc000, 0x0201], 5900),
        v4_target([10, 0, 0, 1], 3389),
    ];
    for t in cases {
        let name = target_to_filename(&t);
        assert!(!name.contains('/'));
        assert!(!name.contains(':'));
        assert!(!name.contains('['));
        assert!(!name.contains(']'));
        assert!(!name.ends_with('-'));
    }
}
