use scrying::parsing::AddrV4;
use scrying::parsing::SocketAddress;
use scrying::rdp::error_report;
use scrying::rdp::finalise_capture;
use scrying::rdp::target_address;
use scrying::rdp::BitmapChunk;
use scrying::rdp::Error;
use scrying::rdp::Image;
use scrying::rdp::ImageMode;
use scrying::FileError;
use scrying::Mode;
use scrying::Opts;
use scrying::ReportMessage;
use scrying::ReportSink;
use scrying::Target;
use scrying::WorkerPool;
use scrying::rdp::RdpEvent;
use scrying::rdp::RdpSession;
use scrying::rdp::RdpState;
use scrying::rdp::credential_plan;

fn opts_with_size(w: usize, h: usize) -> Opts {
    let mut opts = Opts::default();
    opts.size = (w, h);
    opts
}

fn rdp_target() -> Target {
    Target::Address(SocketAddress::V4(AddrV4 { octets: [192, 0, 2, 9], port: 3389 }))
}

/// A solid-colour chunk covering `[left, right) x [top, bottom)`, with
/// the wire's BGRA byte order.
fn solid_chunk(left: u32, top: u32, right: u32, bottom: u32, bgr: [u8; 3]) -> BitmapChunk {
    let px = ((right - left) * (bottom - top)) as usize;
    let mut data = Vec::new();
    for _ in 0..px {
        data.extend_from_slice(&[bgr[0], bgr[1], bgr[2], 0x00]);
    }
    BitmapChunk {
        width: right - left,
        height: bottom - top,
        left,
        top,
        right,
        bottom,
        bpp: 32,
        data,
    }
}

fn fb_bytes(image: &Image) -> Vec<u8> {
    match &image.image {
        Some(ImageMode::Rgba32(fb)) => fb.data.clone(),
        None => Vec::new(),
    }
}

#[test]
fn degenerate_chunks_are_rejected() {
    let opts = opts_with_size(4, 4);
    let target = rdp_target();
    let mut image = Image::default();
    assert!(image.add_chunk(&opts, &target, &solid_chunk(0, 0, 2, 2, [1, 2, 3])).is_ok());
    let before = fb_bytes(&image);

    let mut zero_width = solid_chunk(1, 0, 1, 2, [9, 9, 9]);
    zero_width.data = vec![9; 16];
    assert!(image.add_chunk(&opts, &target, &zero_width).is_err());
    assert_eq!(fb_bytes(&image), before);

    let mut zero_height = solid_chunk(0, 1, 2, 1, [9, 9, 9]);
    zero_height.data = vec![9; 16];
    assert!(image.add_chunk(&opts, &target, &zero_height).is_err());
    assert_eq!(fb_bytes(&image), before);
}

#[test]
fn chunk_replay_is_idempotent() {
    let opts = opts_with_size(4, 4);
    let target = rdp_target();
    let mut image = Image::default();
    let chunk = solid_chunk(1, 1, 3, 3, [10, 20, 30]);
    assert!(image.add_chunk(&opts, &target, &chunk).is_ok());
    let first = fb_bytes(&image);
    assert!(image.add_chunk(&opts, &target, &chunk).is_ok());
    assert_eq!(fb_bytes(&image), first);
}

#[test]
fn chunk_pixels_land_in_their_rectangle() {
    let opts = opts_with_size(3, 2);
    let target = rdp_target();
    let mut image = Image::default();
    // wire BGR (5, 6, 7) becomes stored RGB (7, 6, 5) with full alpha
    assert!(image.add_chunk(&opts, &target, &solid_chunk(1, 0, 2, 1, [5, 6, 7])).is_ok());
    let bytes = fb_bytes(&image);
    assert_eq!(bytes.len(), 3 * 2 * 4);
    assert_eq!(&bytes[4..8], &[7, 6, 5, 0xff]);
    assert_eq!(&bytes[0..4], &[0, 0, 0, 0]);
    assert_eq!(&bytes[8..12], &[0, 0, 0, 0]);
}

#[test]
fn out_of_bounds_chunk_is_dropped() {
    let opts = opts_with_size(4, 4);
    let target = rdp_target();
    let mut image = Image::default();
    assert!(image.add_chunk(&opts, &target, &solid_chunk(0, 0, 1, 1, [1, 1, 1])).is_ok());
    let before = fb_bytes(&image);
    assert!(image.add_chunk(&opts, &target, &solid_chunk(2, 2, 6, 6, [9, 9, 9])).is_err());
    assert_eq!(fb_bytes(&image), before);
}

#[test]
fn three_chunks_then_silence_yield_one_file_report() {
    let opts = opts_with_size(6, 4);
    let target = rdp_target();
    let mut image = Image::default();
    assert!(image.add_chunk(&opts, &target, &solid_chunk(0, 0, 2, 2, [255, 0, 0])).is_ok());
    assert!(image.add_chunk(&opts, &target, &solid_chunk(2, 0, 4, 2, [0, 255, 0])).is_ok());
    assert!(image.add_chunk(&opts, &target, &solid_chunk(0, 2, 2, 4, [0, 0, 255])).is_ok());

    // silence: the inactivity timeout fires and the capture finalises
    let out = finalise_capture(image, &target).unwrap();
    assert_eq!(out.relative_path, "rdp/192.0.2.9-3389.png");

    let decoded = image::load_from_memory(&out.png).unwrap().to_rgba8();
    assert_eq!((decoded.width(), decoded.height()), (6, 4));
    // blue region (wire BGR 255,0,0 -> stored RGB 0,0,255)
    assert_eq!(decoded.get_pixel(0, 0).0, [0, 0, 255, 255]);
    assert_eq!(decoded.get_pixel(1, 1).0, [0, 0, 255, 255]);
    // green region
    assert_eq!(decoded.get_pixel(2, 0).0, [0, 255, 0, 255]);
    assert_eq!(decoded.get_pixel(3, 1).0, [0, 255, 0, 255]);
    // red region (wire BGR 0,0,255 -> stored RGB 255,0,0)
    assert_eq!(decoded.get_pixel(0, 2).0, [255, 0, 0, 255]);
    // untouched background
    assert_eq!(decoded.get_pixel(5, 3).0, [0, 0, 0, 0]);

    // exactly one report message, and it is a file entry
    let mut sink = ReportSink::new();
    match &out.report {
        ReportMessage::Output(c) => {
            assert_eq!(c.mode, Mode::Rdp);
            assert_eq!(c.target, "192.0.2.9:3389");
            assert!(matches!(&c.output, FileError::File(f) if f == "rdp/192.0.2.9-3389.png"));
        }
        other => panic!("expected an output message, got {:?}", other),
    }
    assert!(!sink.handle_message(out.report));
    assert_eq!(sink.rdp_outputs.len(), 1);
    assert_eq!(sink.rdp_errors.len(), 0);
}

#[test]
fn no_chunks_means_a_disconnect_error() {
    let image = Image::default();
    let target = rdp_target();
    match finalise_capture(image, &target) {
        Err(Error::Rdp(m)) => {
            assert_eq!(m, "Error receiving image, perhaps the server disconnected");
        }
        other => panic!("expected an RDP error, got {:?}", other),
    }
}

#[test]
fn failed_connect_reports_once_and_the_pool_moves_on() {
    let target = rdp_target();
    // the connect failed before any chunk arrived
    let err = Error::Other("connection refused".to_owned());
    let report = error_report(&target, &err);

    let mut sink = ReportSink::new();
    assert!(!sink.handle_message(report));
    assert_eq!(sink.rdp_errors.len(), 1);
    assert_eq!(sink.rdp_outputs.len(), 0);
    assert_eq!(sink.rdp_errors[0].target, "192.0.2.9:3389");
    assert_eq!(sink.rdp_errors[0].error, "connection refused");

    // the supervisor reaps the failure and admits the next target
    let mut pool = WorkerPool::new(1, 3);
    assert!(matches!(pool.step(false, false), scrying::pool::PoolAction::Spawn(0)));
    assert!(matches!(pool.step(true, false), scrying::pool::PoolAction::Spawn(1)));
    assert_eq!(pool.active, 1);
}

#[test]
fn xp_era_disconnects_get_a_clearer_message() {
    let target = rdp_target();
    let err = Error::Rdp("IO error: failed to fill whole buffer".to_owned());
    let report = error_report(&target, &err);
    match report {
        ReportMessage::Output(c) => match c.output {
            FileError::Error(m) => {
                assert_eq!(
                    m,
                    "Unexpected disconnection, target may be XP-era which is currently unsupported"
                );
            }
            other => panic!("expected an error entry, got {:?}", other),
        },
        other => panic!("expected an output message, got {:?}", other),
    }

    let err = Error::Rdp("some other protocol failure".to_owned());
    match error_report(&target, &err) {
        ReportMessage::Output(c) => match c.output {
            FileError::Error(m) => assert_eq!(m, "RDP error: some other protocol failure"),
            other => panic!("expected an error entry, got {:?}", other),
        },
        other => panic!("expected an output message, got {:?}", other),
    }
}

#[test]
fn rdp_url_target_is_rejected() {
    let target = Target::Url("http://example.com/".to_owned());
    match target_address(&target) {
        Err(Error::Rdp(m)) => assert_eq!(m, "Invalid RDP target: http://example.com/"),
        other => panic!("expected an RDP error, got {:?}", other),
    }
    match target_address(&rdp_target()) {
        Ok(SocketAddress::V4(a)) => {
            assert_eq!(a.octets, [192, 0, 2, 9]);
            assert_eq!(a.port, 3389);
        }
        other => panic!("expected an address, got {:?}", other),
    }
}

#[test]
fn rdp_session_walks_the_capture_states() {

    let opts = opts_with_size(4, 4);
    let target = rdp_target();
    let mut session = RdpSession::new();
    assert_eq!(session.state, RdpState::Connecting);
    session.on_event(&opts, &target, RdpEvent::Connected);
    assert_eq!(session.state, RdpState::Handshaking);
    session.on_event(&opts, &target, RdpEvent::HandshakeDone);
    assert_eq!(session.state, RdpState::Streaming);
    session.on_event(&opts, &target, RdpEvent::Chunk(solid_chunk(0, 0, 2, 2, [1, 2, 3])));
    assert_eq!(session.state, RdpState::Streaming);
    // a degenerate chunk is dropped without ending the stream
    session.on_event(&opts, &target, RdpEvent::Chunk(solid_chunk(1, 1, 1, 3, [9, 9, 9])));
    assert_eq!(session.state, RdpState::Streaming);
    session.on_event(&opts, &target, RdpEvent::Silence);
    assert_eq!(session.state, RdpState::Finalizing);
    assert!(session.error.is_none());
    assert!(finalise_capture(session.image, &target).is_ok());
}

#[test]
fn rdp_session_fails_on_connect_and_handshake_errors() {

    let opts = opts_with_size(4, 4);
    let target = rdp_target();
    let mut session = RdpSession::new();
    session.on_event(&opts, &target, RdpEvent::ConnectFailed("refused".to_owned()));
    assert_eq!(session.state, RdpState::Failed);
    assert!(matches!(session.error, Some(Error::Other(ref m)) if m == "refused"));

    let mut session = RdpSession::new();
    session.on_event(&opts, &target, RdpEvent::Connected);
    session.on_event(&opts, &target, RdpEvent::HandshakeFailed("bad cert".to_owned()));
    assert_eq!(session.state, RdpState::Failed);
    assert!(matches!(session.error, Some(Error::Rdp(ref m)) if m == "bad cert"));
}

#[test]
fn credentials_fall_back_to_blank_with_nla_off() {

    let mut opts = opts_with_size(4, 4);
    let plan = credential_plan(&opts);
    assert_eq!(plan.user, "");
    assert_eq!(plan.pass, "");
    assert_eq!(plan.domain, "");
    assert!(!plan.use_nla);
    assert!(plan.blank_creds);

    opts.rdp_user = Some("operator".to_owned());
    opts.rdp_pass = Some("SECRET-REDACTED".to_owned());
    let plan = credential_plan(&opts);
    assert_eq!(plan.user, "operator");
    assert_eq!(plan.pass, "SECRET-REDACTED");
    assert_eq!(plan.domain, "");
    assert!(plan.use_nla);
    assert!(!plan.blank_creds);

    opts.rdp_domain = Some("corp".to_owned());
    let plan = credential_plan(&opts);
    assert_eq!(plan.domain, "corp");
}
