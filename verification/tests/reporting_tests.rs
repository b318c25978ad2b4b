use scrying::FileError;
use scrying::Mode;
use scrying::ReportMessage;
use scrying::ReportMessageContent;
use scrying::ReportSink;
use scrying::VncOutput;
use scrying::parsing::Target;
use scrying::web::save_message;

fn output(mode: Mode, target: &str, output: FileError) -> ReportMessage {
    ReportMessage::Output(ReportMessageContent {
        mode,
        target: target.to_owned(),
        output,
    })
}

#[test]
fn sink_sorts_messages_into_their_lists() {
    let mut sink = ReportSink::new();
    assert!(!sink.handle_message(output(
        Mode::Rdp,
        "192.0.2.1:3389",
        FileError::File("rdp/a.png".to_owned()),
    )));
    assert!(!sink.handle_message(output(
        Mode::Web,
        "http://example.com/",
        FileError::Error("timeout".to_owned()),
    )));
    assert!(!sink.handle_message(output(
        Mode::Vnc,
        "192.0.2.2:5900",
        FileError::File("vnc/b.png".to_owned()),
    )));
    assert!(!sink.handle_message(output(
        Mode::Rdp,
        "192.0.2.3:3389",
        FileError::Error("refused".to_owned()),
    )));

    assert_eq!(sink.rdp_outputs.len(), 1);
    assert_eq!(sink.rdp_errors.len(), 1);
    assert_eq!(sink.web_outputs.len(), 0);
    assert_eq!(sink.web_errors.len(), 1);
    assert_eq!(sink.vnc_outputs.len(), 1);
    assert_eq!(sink.vnc_errors.len(), 0);
    assert_eq!(sink.rdp_outputs[0].target, "192.0.2.1:3389");
    assert_eq!(sink.rdp_outputs[0].file, "rdp/a.png");
    assert_eq!(sink.rdp_errors[0].error, "refused");

    // the render signal stops the loop without touching the lists
    assert!(sink.handle_message(ReportMessage::GenerateReport));
    assert_eq!(sink.rdp_outputs.len(), 1);
}

#[test]
fn vnc_output_becomes_a_file_message() {
    let out = VncOutput {
        target: "192.0.2.2:5900".to_owned(),
        file: "vnc/b.png".to_owned(),
    };
    assert_eq!(out.target(), "192.0.2.2:5900");
    assert_eq!(out.file(), "vnc/b.png");
    match out.as_report_message() {
        ReportMessage::Output(c) => {
            assert_eq!(c.mode, Mode::Vnc);
            assert_eq!(c.target, "192.0.2.2:5900");
            assert!(matches!(c.output, FileError::File(f) if f == "vnc/b.png"));
        }
        other => panic!("expected an output message, got {:?}", other),
    }
}

#[test]
fn web_saves_land_under_their_own_directory() {
    let target = Target::Url("http://example.com:8443/a/".to_owned());
    let (rel, msg) = save_message(&target);
    assert_eq!(rel, "web/http_example.com_8443-a.png");
    match msg {
        ReportMessage::Output(c) => {
            assert_eq!(c.mode, Mode::Web);
            assert_eq!(c.target, "http://example.com:8443/a/");
            assert!(matches!(c.output, FileError::File(f) if f == "web/http_example.com_8443-a.png"));
        }
        other => panic!("expected an output message, got {:?}", other),
    }
}
