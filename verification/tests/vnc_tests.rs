use scrying::error::Error;
use scrying::parsing::AddrV4;
use scrying::parsing::SocketAddress;
use scrying::vnc::finalise_capture;
use scrying::vnc::pixel_to_rgb;
use scrying::vnc::Colour;
use scrying::vnc::ColourFormat;
use scrying::vnc::PixelFormat;
use scrying::vnc::Rect;
use scrying::vnc::VncEvent;
use scrying::vnc::VncSession;
use scrying::vnc::VncSessionEvent;
use scrying::vnc::VncState;
use scrying::vnc::VncStep;
use scrying::Target;
use scrying::VncImage;
use scrying::vnc::AuthChoice;
use scrying::vnc::AuthMethod;
use scrying::vnc::Encoding;
use scrying::vnc::choose_auth;
use scrying::vnc::preferred_encodings;

fn format16() -> PixelFormat {
    PixelFormat {
        bits_per_pixel: 16,
        depth: 16,
        big_endian: false,
        true_colour: true,
        red_max: 31,
        green_max: 63,
        blue_max: 31,
        red_shift: 11,
        green_shift: 5,
        blue_shift: 0,
    }
}

fn format32() -> PixelFormat {
    PixelFormat {
        bits_per_pixel: 32,
        depth: 24,
        big_endian: false,
        true_colour: true,
        red_max: 255,
        green_max: 255,
        blue_max: 255,
        red_shift: 16,
        green_shift: 8,
        blue_shift: 0,
    }
}

fn format8() -> PixelFormat {
    PixelFormat {
        bits_per_pixel: 8,
        depth: 8,
        big_endian: false,
        true_colour: false,
        red_max: 0,
        green_max: 0,
        blue_max: 0,
        red_shift: 0,
        green_shift: 0,
        blue_shift: 0,
    }
}

fn grey_palette() -> Vec<Colour> {
    let mut colours = Vec::new();
    for i in 0..256u32 {
        let v = (i * 257) as u16;
        colours.push(Colour { red: v, green: v, blue: v });
    }
    colours
}

#[test]
fn pixel_decode_16_bit_round_trip() {
    // r=16, g=32, b=8 packed as RGB565: 16<<11 | 32<<5 | 8 = 0x8408
    let bytes = [0x08u8, 0x84u8];
    let got = pixel_to_rgb(&format16(), &None, &bytes).unwrap();
    match got {
        ColourFormat::U8((r, g, b)) => {
            assert_eq!(r, 128);
            assert_eq!(g, 128);
            assert_eq!(b, 64);
        }
        other => panic!("expected 8-bit colours, got {:?}", other),
    }
}

#[test]
fn pixel_decode_16_bit_big_endian() {
    let mut f = format16();
    f.big_endian = true;
    let bytes = [0x84u8, 0x08u8];
    match pixel_to_rgb(&f, &None, &bytes).unwrap() {
        ColourFormat::U8((r, g, b)) => {
            assert_eq!((r, g, b), (128, 128, 64));
        }
        other => panic!("expected 8-bit colours, got {:?}", other),
    }
}

#[test]
fn pixel_decode_32_bit() {
    // little endian BGRA-style layout: blue in the low byte
    let bytes = [0x10u8, 0x20u8, 0x30u8, 0x00u8];
    match pixel_to_rgb(&format32(), &None, &bytes).unwrap() {
        ColourFormat::U8((r, g, b)) => {
            assert_eq!((r, g, b), (0x30, 0x20, 0x10));
        }
        other => panic!("expected 8-bit colours, got {:?}", other),
    }
}

#[test]
fn palette_decode_requires_prior_colour_map() {
    let got = pixel_to_rgb(&format8(), &None, &[7u8]);
    match got {
        Err(Error::Vnc(m)) => {
            assert_eq!(m, "No colour map supplied for 8-bit mode!");
        }
        other => panic!("expected a VNC error, got {:?}", other),
    }
}

#[test]
fn palette_decode_reads_the_map() {
    let map = scrying::vnc::ColourMap { first_colour: 0, colours: grey_palette() };
    match pixel_to_rgb(&format8(), &Some(map), &[3u8]).unwrap() {
        ColourFormat::U16((r, g, b)) => {
            assert_eq!((r, g, b), (771, 771, 771));
        }
        other => panic!("expected 16-bit colours, got {:?}", other),
    }
}

#[test]
fn unsupported_depth_is_an_error_not_a_panic() {
    let mut f = format16();
    f.depth = 12;
    assert!(matches!(pixel_to_rgb(&f, &None, &[0u8, 0u8]), Err(Error::Vnc(_))));
}

#[test]
fn put_pixels_before_colour_map_fails_without_writing() {
    let mut image = VncImage::new(format8(), 4, 4).unwrap();
    let rect = Rect { left: 0, top: 0, width: 2, height: 2 };
    let r = image.handle_event(VncEvent::PutPixels(rect, vec![1, 2, 3, 4]));
    match r {
        Err(Error::Vnc(m)) => assert_eq!(m, "No colour map supplied for 8-bit mode!"),
        other => panic!("expected a VNC error, got {:?}", other),
    }
}

#[test]
fn put_pixels_after_colour_map_blits() {
    let mut image = VncImage::new(format8(), 4, 4).unwrap();
    let step = image
        .handle_event(VncEvent::SetColourMap(0, grey_palette()))
        .unwrap();
    assert_eq!(step, VncStep::Continue);
    let rect = Rect { left: 1, top: 1, width: 2, height: 1 };
    let step = image
        .handle_event(VncEvent::PutPixels(rect, vec![255, 0]))
        .unwrap();
    assert_eq!(step, VncStep::Continue);
    match &image.image {
        scrying::vnc::FrameBuffer::Rgb16(v) => {
            // cell (1,1) holds palette entry 255, cell (2,1) entry 0
            let base = (1 * 4 + 1) * 3;
            assert_eq!(&v[base..base + 3], &[65535, 65535, 65535]);
            assert_eq!(&v[base + 3..base + 6], &[0, 0, 0]);
            // an untouched cell stays at the background value
            assert_eq!(&v[0..3], &[0, 0, 0]);
        }
        other => panic!("expected a 16-bit framebuffer, got {:?}", other),
    }
}

#[test]
fn oversized_rectangle_is_rejected() {
    let mut image = VncImage::new(format32(), 4, 4).unwrap();
    let rect = Rect { left: 3, top: 0, width: 2, height: 1 };
    assert!(matches!(
        image.handle_event(VncEvent::PutPixels(rect, vec![0; 8])),
        Err(Error::Vnc(_))
    ));
}

#[test]
fn immediate_end_of_frame_saves_a_blank_image() {
    let mut image = VncImage::new(format32(), 5, 4).unwrap();
    let step = image.handle_event(VncEvent::EndOfFrame).unwrap();
    assert_eq!(step, VncStep::Finished);
    let target = Target::Address(SocketAddress::V4(AddrV4 { octets: [192, 0, 2, 7], port: 5900 }));
    let (out, png) = finalise_capture(image, &target).unwrap();
    assert_eq!(out.file, "vnc/192.0.2.7-5900.png");
    assert_eq!(out.target, "192.0.2.7:5900");
    let decoded = image::load_from_memory(&png).unwrap().to_rgb8();
    assert_eq!(decoded.width(), 5);
    assert_eq!(decoded.height(), 4);
    for px in decoded.pixels() {
        assert_eq!(px.0, [0, 0, 0]);
    }
}

#[test]
fn disconnect_finishes_the_frame() {
    let mut image = VncImage::new(format16(), 2, 2).unwrap();
    assert_eq!(image.handle_event(VncEvent::Disconnected).unwrap(), VncStep::Finished);
}

#[test]
fn unknown_events_are_ignored() {
    let mut image = VncImage::new(format16(), 2, 2).unwrap();
    assert_eq!(image.handle_event(VncEvent::Other).unwrap(), VncStep::Continue);
}

#[test]
fn vnc_url_target_is_rejected() {
    let target = Target::Url("vnc://example.com/".to_owned());
    match scrying::vnc::target_address(&target) {
        Err(Error::Vnc(m)) => assert_eq!(m, "Invalid VNC target: vnc://example.com/"),
        other => panic!("expected a VNC error, got {:?}", other),
    }
}

#[test]
fn only_no_auth_is_chosen() {

    assert_eq!(choose_auth(&vec![AuthMethod::NoAuth]), Some(AuthChoice::NoAuth));
    assert_eq!(
        choose_auth(&vec![AuthMethod::Password, AuthMethod::NoAuth]),
        Some(AuthChoice::NoAuth)
    );
    assert_eq!(choose_auth(&vec![AuthMethod::Password, AuthMethod::Other]), None);
    assert_eq!(choose_auth(&vec![]), None);
}

#[test]
fn encodings_are_requested_in_preference_order() {

    assert_eq!(
        preferred_encodings(),
        vec![
            Encoding::Zrle,
            Encoding::CopyRect,
            Encoding::Raw,
            Encoding::Cursor,
            Encoding::DesktopSize,
        ]
    );
}

#[test]
fn vnc_session_walks_the_capture_states() {
    let mut session = VncSession::new();
    assert_eq!(session.state, VncState::Connecting);
    session.on_event(VncSessionEvent::Connected);
    assert_eq!(session.state, VncState::Authenticating);
    session.on_event(VncSessionEvent::AuthOffer(vec![AuthMethod::NoAuth]));
    assert_eq!(session.state, VncState::Negotiating);
    session.on_event(VncSessionEvent::ServerInit(format16(), 4, 4));
    assert_eq!(session.state, VncState::Polling);
    session.on_event(VncSessionEvent::Frame(VncEvent::Other));
    assert_eq!(session.state, VncState::Polling);
    session.on_event(VncSessionEvent::Frame(VncEvent::EndOfFrame));
    assert_eq!(session.state, VncState::Finalizing);
    assert!(session.error.is_none());
}

#[test]
fn vnc_session_fails_without_no_auth() {
    let mut session = VncSession::new();
    session.on_event(VncSessionEvent::Connected);
    session.on_event(VncSessionEvent::AuthOffer(vec![AuthMethod::Password]));
    assert_eq!(session.state, VncState::Failed);
    assert!(matches!(
        session.error,
        Some(Error::Vnc(ref m)) if m == "Server requires authentication, only no-auth is supported"
    ));
}

#[test]
fn vnc_session_fails_on_unsupported_format() {
    let mut session = VncSession::new();
    session.on_event(VncSessionEvent::Connected);
    session.on_event(VncSessionEvent::AuthOffer(vec![AuthMethod::NoAuth]));
    let mut bad = format16();
    bad.depth = 12;
    session.on_event(VncSessionEvent::ServerInit(bad, 4, 4));
    assert_eq!(session.state, VncState::Failed);
    assert!(matches!(session.error, Some(Error::Vnc(_))));
}

#[test]
fn vnc_session_fails_on_decode_errors() {
    let mut session = VncSession::new();
    session.on_event(VncSessionEvent::Connected);
    session.on_event(VncSessionEvent::AuthOffer(vec![AuthMethod::NoAuth]));
    session.on_event(VncSessionEvent::ServerInit(format8(), 4, 4));
    assert_eq!(session.state, VncState::Polling);
    // an 8-bit rectangle before any colour map is the fatal decode error
    let rect = Rect { left: 0, top: 0, width: 1, height: 1 };
    session.on_event(VncSessionEvent::Frame(VncEvent::PutPixels(rect, vec![0])));
    assert_eq!(session.state, VncState::Failed);
    assert!(matches!(session.error, Some(Error::Vnc(_))));
}

#[test]
fn palette_capture_round_trips_through_the_png() {
    let mut image = VncImage::new(format8(), 2, 2).unwrap();
    image
        .handle_event(VncEvent::SetColourMap(0, grey_palette()))
        .unwrap();
    let rect = Rect { left: 0, top: 0, width: 2, height: 2 };
    image
        .handle_event(VncEvent::PutPixels(rect, vec![0, 64, 128, 255]))
        .unwrap();
    assert_eq!(image.handle_event(VncEvent::EndOfFrame).unwrap(), VncStep::Finished);
    let target = Target::Address(SocketAddress::V4(AddrV4 { octets: [10, 0, 0, 5], port: 5901 }));
    let (out, png) = finalise_capture(image, &target).unwrap();
    assert_eq!(out.file, "vnc/10.0.0.5-5901.png");
    let decoded = image::load_from_memory(&png).unwrap().to_rgb16();
    assert_eq!((decoded.width(), decoded.height()), (2, 2));
    assert_eq!(decoded.get_pixel(0, 0).0, [0, 0, 0]);
    assert_eq!(decoded.get_pixel(1, 0).0, [64 * 257, 64 * 257, 64 * 257]);
    assert_eq!(decoded.get_pixel(0, 1).0, [128 * 257, 128 * 257, 128 * 257]);
    assert_eq!(decoded.get_pixel(1, 1).0, [65535, 65535, 65535]);
}
