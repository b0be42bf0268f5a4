use editor_server::readback::{pad_row, readback_layout, strip_padding, ReadbackLayout};
use editor_server::stream::{
    frame_message, on_socket_event, Frame, SocketAction, SocketEvent,
};
use editor_server::video::{
    finish_frame, frame_input, make_frame, next_frame, rgba_to_planes, rgba_to_yuv, to_frame,
    Encoded, FrameCounter, FrameKind, VideoError,
};
use editor_server::viewport::{
    index_html, viewport_frame, viewport_layout, viewport_pixels, HEIGHT, WIDTH,
};
use openh264::encoder::{Encoder, EncoderConfig};
use openh264::formats::YUVSource;
use openh264::OpenH264API;

fn luma(r: u8, g: u8, b: u8) -> u8 {
    let (r, g, b) = (r as f32, g as f32, b as f32);
    (0.299 * r + 0.587 * g + 0.114 * b).clamp(0.0, 255.0) as u8
}

fn blue(r: u8, g: u8, b: u8) -> u8 {
    let (r, g, b) = (r as f32, g as f32, b as f32);
    (-0.169 * r - 0.331 * g + 0.500 * b + 128.0).clamp(0.0, 255.0) as u8
}

fn red(r: u8, g: u8, b: u8) -> u8 {
    let (r, g, b) = (r as f32, g as f32, b as f32);
    (0.500 * r - 0.419 * g - 0.081 * b + 128.0).clamp(0.0, 255.0) as u8
}

fn encoder() -> Encoder {
    let config = EncoderConfig::new().set_bitrate_bps(2_000_000).max_frame_rate(30.0);
    Encoder::with_api_config(OpenH264API::from_source(), config).unwrap()
}

/// A picture of this size, each pixel of which says where it stands.
fn pixels(width: usize, height: usize) -> Vec<u8> {
    let mut out = Vec::new();
    for row in 0..height {
        for column in 0..width {
            out.extend_from_slice(&[row as u8, column as u8, (row * width + column) as u8, 255]);
        }
    }
    out
}

#[test]
fn rows_are_padded_to_the_alignment() {
    assert_eq!(pad_row(0, 256), 0);
    assert_eq!(pad_row(1, 256), 256);
    assert_eq!(pad_row(256, 256), 256);
    assert_eq!(pad_row(257, 256), 512);
    assert_eq!(pad_row(10, 3), 12);
    assert_eq!(pad_row(u32::MAX, 1), u32::MAX);
}

#[test]
fn readback_buffer_has_padded_rows() {
    assert_eq!(readback_layout(100, 3), ReadbackLayout { bytes_per_row: 512, size: 1536 });
    assert_eq!(readback_layout(64, 2), ReadbackLayout { bytes_per_row: 256, size: 512 });
    assert_eq!(readback_layout(0, 7), ReadbackLayout { bytes_per_row: 0, size: 0 });
}

#[test]
fn viewport_rows_need_no_padding() {
    assert_eq!((WIDTH, HEIGHT), (512, 384));
    let layout = viewport_layout();
    assert_eq!(layout.bytes_per_row, WIDTH * 4);
    assert_eq!(layout.size, 786432);
    let data: Vec<u8> = (0..786432u32).map(|i| (i % 251) as u8).collect();
    assert_eq!(viewport_pixels(&data), data);
}

#[test]
fn padding_is_stripped() {
    let data = [1, 2, 3, 4, 0, 0, 5, 6, 7, 8, 0, 0, 9, 10, 11, 12];
    assert_eq!(strip_padding(&data, 1, 3, 6), vec![1, 2, 3, 4, 5, 6, 7, 8, 9, 10, 11, 12]);
    assert!(strip_padding(&data, 1, 0, 6).is_empty());
    assert!(strip_padding(&data, 0, 2, 6).is_empty());
    let other = [1, 2, 3, 4, 9, 9, 5, 6, 7, 8, 9, 9, 9, 10, 11, 12];
    assert_eq!(strip_padding(&data, 1, 3, 6), strip_padding(&other, 1, 3, 6));
}

#[test]
fn planes_follow_one_another() {
    let planes = rgba_to_planes(
        &pixels(4, 4),
        4,
        4,
        |_r: u8, _g: u8, b: u8| b,
        |r: u8, g: u8, _b: u8| 10 * r + g,
        |r: u8, g: u8, _b: u8| 100 + 10 * r + g,
    );
    let mut expected: Vec<u8> = (0..16).collect();
    expected.extend_from_slice(&[0, 2, 20, 22]);
    expected.extend_from_slice(&[100, 102, 120, 122]);
    assert_eq!(planes, expected);
}

#[test]
fn planes_of_a_wide_picture() {
    let planes = rgba_to_planes(
        &pixels(6, 2),
        6,
        2,
        |_r: u8, _g: u8, b: u8| b,
        |_r: u8, g: u8, _b: u8| g,
        |r: u8, _g: u8, _b: u8| r,
    );
    let mut expected: Vec<u8> = (0..12).collect();
    expected.extend_from_slice(&[0, 2, 4, 0, 0, 0]);
    assert_eq!(planes, expected);
}

#[test]
fn colours_become_planes() {
    for (colour, expected) in [
        ([0, 0, 0], [0, 128, 128]),
        ([255, 0, 0], [76, 84, 255]),
        ([0, 255, 0], [149, 43, 21]),
        ([0, 0, 255], [29, 255, 107]),
    ] {
        let picture: Vec<u8> = (0..4).flat_map(|_| [colour[0], colour[1], colour[2], 9]).collect();
        let yuv = rgba_to_yuv(&picture, 2, 2, luma, blue, red);
        assert_eq!(yuv.dimensions(), (2, 2));
        assert_eq!(yuv.y(), [expected[0]; 4]);
        assert_eq!(yuv.u(), [expected[1]]);
        assert_eq!(yuv.v(), [expected[2]]);
    }
}

#[test]
fn empty_picture_has_empty_planes() {
    let yuv = rgba_to_yuv(&[], 0, 2, luma, blue, red);
    assert_eq!(yuv.dimensions(), (0, 2));
    assert!(yuv.y().is_empty());
}

#[test]
fn key_frames_are_asked_for_at_intervals() {
    let mut counter = FrameCounter::new();
    let mut wanted = Vec::new();
    for frame in 0..65 {
        if counter.wants_keyframe() {
            wanted.push(frame);
        }
        counter.advance();
    }
    assert_eq!(wanted, vec![0, 30, 60]);
}

#[test]
fn frame_count_starts_over() {
    let mut counter = FrameCounter { index: u32::MAX - 15 };
    assert!(counter.wants_keyframe());
    for _ in 0..16 {
        counter.advance();
    }
    assert_eq!(counter.index, 0);
    assert!(counter.wants_keyframe());
}

#[test]
fn intra_kinds_are_key_frames() {
    for (kind, is_key) in [
        (FrameKind::Invalid, false),
        (FrameKind::Idr, true),
        (FrameKind::I, true),
        (FrameKind::P, false),
        (FrameKind::Skip, false),
        (FrameKind::IpMixed, false),
    ] {
        let frame = to_frame(Encoded { kind, data: vec![1, 2] });
        assert_eq!(frame, Frame { is_key, data: vec![1, 2] });
    }
}

#[test]
fn encoded_picture_ends_its_frame() {
    let mut counter = FrameCounter { index: 29 };
    let key = Encoded { kind: FrameKind::Idr, data: vec![4, 5] };
    match finish_frame(&mut counter, Ok(key)) {
        Ok(frame) => assert_eq!(frame, Frame { is_key: true, data: vec![4, 5] }),
        Err(VideoError::Codec(error)) => panic!("{error}"),
    }
    assert_eq!(counter.index, 30);
    let skipped = Encoded { kind: FrameKind::Skip, data: Vec::new() };
    match finish_frame(&mut counter, Ok(skipped)) {
        Ok(frame) => assert_eq!(frame, Frame { is_key: false, data: Vec::new() }),
        Err(VideoError::Codec(error)) => panic!("{error}"),
    }
    assert_eq!(counter.index, 31);
}

#[test]
fn encoder_error_is_handed_on() {
    let mut counter = FrameCounter { index: 7 };
    match finish_frame(&mut counter, Err(openh264::Error::msg("no picture"))) {
        Ok(_) => panic!("there is no frame"),
        Err(VideoError::Codec(error)) => assert!(format!("{error:?}").contains("no picture")),
    }
    assert_eq!(counter.index, 7);
}

#[test]
fn frames_are_encoded() {
    let mut encoder = encoder();
    let mut counter = FrameCounter::new();
    let mut keys = Vec::new();
    for number in 0..32u32 {
        let picture = pixels(64, 48);
        let input = frame_input(&counter, &picture, 64, 48, luma, blue, red);
        assert_eq!(input.force_key, number % 30 == 0);
        assert_eq!(input.yuv.dimensions(), (64, 48));
        let frame = match next_frame(&mut encoder, &mut counter, &input) {
            Ok(frame) => frame,
            Err(VideoError::Codec(error)) => panic!("{error}"),
        };
        assert_eq!(counter.index, number + 1);
        if frame.is_key {
            assert_eq!(frame.data[..4], [0, 0, 0, 1]);
            keys.push(number);
        }
    }
    assert_eq!(keys, vec![0, 30]);
}

/// The frame that `counter` stands at, of a picture of 64 by 48 pixels.
fn frame_of(encoder: &mut Encoder, counter: &mut FrameCounter, picture: &[u8]) -> Frame {
    match make_frame(encoder, counter, picture, 64, 48, luma, blue, red) {
        Ok(frame) => frame,
        Err(VideoError::Codec(error)) => panic!("{error}"),
    }
}

#[test]
fn frame_depends_on_its_picture() {
    let first = pixels(64, 48);
    let mut second = first.clone();
    second.reverse();
    let a = frame_of(&mut encoder(), &mut FrameCounter::new(), &first);
    let b = frame_of(&mut encoder(), &mut FrameCounter::new(), &second);
    assert!(a.is_key && b.is_key);
    assert!(!a.data.is_empty() && !b.data.is_empty());
    assert_ne!(a.data, b.data);
}

#[test]
fn frame_depends_on_the_colour_operations() {
    let picture = pixels(64, 48);
    let a = frame_of(&mut encoder(), &mut FrameCounter::new(), &picture);
    let b = make_frame(
        &mut encoder(), &mut FrameCounter::new(), &picture, 64, 48, luma, red, blue,
    );
    match b {
        Ok(b) => assert_ne!(a.data, b.data),
        Err(VideoError::Codec(error)) => panic!("{error}"),
    }
}

#[test]
fn frames_rest_on_encoder_and_picture_alone() {
    let (mut encoder1, mut encoder2) = (encoder(), encoder());
    let (mut counter1, mut counter2) = (FrameCounter::new(), FrameCounter::new());
    for number in 0..40u8 {
        let mut picture = pixels(64, 48);
        for byte in picture.iter_mut().take(2000) {
            *byte = byte.wrapping_add(3 * number);
        }
        let a = frame_of(&mut encoder1, &mut counter1, &picture);
        for pixel in 0..64 * 48 {
            picture[4 * pixel + 3] = number;
        }
        let b = frame_of(&mut encoder2, &mut counter2, &picture);
        assert_eq!(a.is_key, b.is_key);
        assert_eq!(a.data, b.data);
    }
}

#[test]
fn key_frame_is_asked_for_by_number() {
    let picture = pixels(64, 48);
    let mut encoder = encoder();
    let mut counter = FrameCounter { index: 28 };
    assert!(frame_of(&mut encoder, &mut counter, &picture).is_key);
    assert!(!frame_of(&mut encoder, &mut counter, &picture).is_key);
    assert!(frame_of(&mut encoder, &mut counter, &picture).is_key);
    assert!(!frame_of(&mut encoder, &mut counter, &picture).is_key);
    assert_eq!(counter.index, 32);
}

#[test]
fn viewport_frame_is_made_of_the_copied_picture() {
    let data = pixels(WIDTH as usize, HEIGHT as usize);
    let mut longer = data.clone();
    longer.extend_from_slice(&[1, 2, 3]);
    let mut counter = FrameCounter::new();
    let frame = viewport_frame(&mut encoder(), &mut counter, &longer, luma, blue, red);
    assert_eq!(counter.index, 1);
    let same = make_frame(
        &mut encoder(), &mut FrameCounter::new(), &data, WIDTH, HEIGHT, luma, blue, red,
    );
    let mut turned = data.clone();
    turned.reverse();
    let other =
        viewport_frame(&mut encoder(), &mut FrameCounter::new(), &turned, luma, blue, red);
    match (frame, same, other) {
        (Ok(frame), Ok(same), Ok(other)) => {
            assert!(frame.is_key);
            assert_eq!(frame.data, same.data);
            assert_ne!(frame.data, other.data);
        }
        _ => panic!("a picture was refused"),
    }
}

#[test]
fn every_thirtieth_frame_is_a_key_frame() {
    let mut encoder = encoder();
    let mut counter = FrameCounter { index: u32::MAX - 20 };
    let mut frames = Vec::new();
    for number in 0..100u32 {
        let mut picture = pixels(64, 48);
        picture[0] = number as u8;
        let index = counter.index;
        match make_frame(&mut encoder, &mut counter, &picture, 64, 48, luma, blue, red) {
            Ok(frame) => {
                if index % 30 == 0 && !frame.data.is_empty() {
                    assert!(frame.is_key, "frame {index}");
                }
                frames.push(frame);
            }
            Err(VideoError::Codec(error)) => panic!("{error}"),
        }
    }
    assert!(frames.iter().all(|frame| !frame.data.is_empty()));
    for from in 0..70 {
        assert!(frames[from..from + 30].iter().any(|frame| frame.is_key));
    }
}

#[test]
fn too_small_pictures_are_refused() {
    let mut encoder = encoder();
    let mut counter = FrameCounter::new();
    for (width, height) in [(14, 64), (64, 14), (0, 0)] {
        let picture = pixels(width as usize, height as usize);
        let frame =
            make_frame(&mut encoder, &mut counter, &picture, width, height, luma, blue, red);
        assert!(matches!(frame, Err(VideoError::Codec(_))));
        assert_eq!(counter.index, 0);
    }
    let picture = pixels(16, 16);
    assert!(make_frame(&mut encoder, &mut counter, &picture, 16, 16, luma, blue, red).is_ok());
}

#[test]
fn last_alpha_byte_may_be_missing() {
    let mut picture = pixels(4, 2);
    let whole = rgba_to_planes(&picture, 4, 2, luma, blue, red);
    picture.pop();
    assert_eq!(rgba_to_planes(&picture, 4, 2, luma, blue, red), whole);
}

#[test]
fn alpha_and_what_follows_do_not_show() {
    let picture = pixels(4, 4);
    let mut other = picture.clone();
    for pixel in 0..16 {
        other[4 * pixel + 3] = pixel as u8;
    }
    other.extend_from_slice(&[7, 7, 7]);
    assert_eq!(
        rgba_to_planes(&picture, 4, 4, luma, blue, red),
        rgba_to_planes(&other, 4, 4, luma, blue, red)
    );
}

#[test]
fn pixel_shows_in_its_own_values() {
    let picture = pixels(4, 4);
    let before = rgba_to_planes(&picture, 4, 4, luma, blue, red);
    for row in 0..4 {
        for column in 0..4 {
            let mut other = picture.clone();
            let at = 4 * (row * 4 + column);
            other[at] = 255;
            other[at + 2] = 200;
            let after = rgba_to_planes(&other, 4, 4, luma, blue, red);
            let changed: Vec<usize> = (0..24).filter(|i| before[*i] != after[*i]).collect();
            let mut expected = vec![row * 4 + column];
            if row % 2 == 0 && column % 2 == 0 {
                let sample = (row / 2) * 2 + column / 2;
                expected.push(16 + sample);
                expected.push(20 + sample);
            }
            assert_eq!(changed, expected);
        }
    }
}

#[test]
fn too_large_pictures_are_refused() {
    let mut encoder = encoder();
    let mut counter = FrameCounter { index: 5 };
    let picture = vec![0u8; 3842 * 2 * 4];
    let input = frame_input(&counter, &picture, 3842, 2, luma, blue, red);
    let frame = next_frame(&mut encoder, &mut counter, &input);
    assert!(matches!(frame, Err(VideoError::Codec(_))));
    assert_eq!(counter.index, 5);
}

#[test]
fn message_starts_with_the_key_byte() {
    let key = Frame { is_key: true, data: vec![9, 8] };
    let delta = Frame { is_key: false, data: vec![9, 8] };
    assert_eq!(frame_message(&key), Some(vec![1, 9, 8]));
    assert_eq!(frame_message(&delta), Some(vec![0, 9, 8]));
    assert_eq!(frame_message(&Frame { is_key: true, data: Vec::new() }), None);
}

#[test]
fn connection_goes_on_or_closes() {
    let frame = Frame { is_key: true, data: vec![3] };
    let empty = Frame { is_key: true, data: Vec::new() };
    assert!(matches!(on_socket_event(SocketEvent::FramesEnded), SocketAction::Close));
    match on_socket_event(SocketEvent::NewFrame(&frame)) {
        SocketAction::Send(bytes) => assert_eq!(bytes, vec![1, 3]),
        _ => panic!("frame not sent"),
    }
    assert!(matches!(on_socket_event(SocketEvent::NewFrame(&empty)), SocketAction::Wait));
    assert!(matches!(on_socket_event(SocketEvent::Sent(true)), SocketAction::Wait));
    assert!(matches!(on_socket_event(SocketEvent::Sent(false)), SocketAction::Close));
    match on_socket_event(SocketEvent::Text("hello")) {
        SocketAction::Input(text) => assert_eq!(text, "hello"),
        _ => panic!("text not handled"),
    }
    assert!(matches!(on_socket_event(SocketEvent::Other), SocketAction::Wait));
    assert!(matches!(on_socket_event(SocketEvent::Gone), SocketAction::Close));
}

#[test]
fn joining_viewer_waits_for_a_key_frame() {
    let frames = [
        Frame { is_key: true, data: Vec::new() },
        Frame { is_key: false, data: vec![1] },
        Frame { is_key: true, data: vec![2] },
        Frame { is_key: false, data: vec![3] },
    ];
    let mut synced = false;
    let mut decoded = Vec::new();
    for frame in &frames {
        if let Some(message) = frame_message(frame) {
            let is_key = message[0] == 1;
            if !synced && !is_key {
                continue;
            }
            synced = true;
            decoded.push((is_key, message[1..].to_vec()));
        }
    }
    assert_eq!(decoded, vec![(true, vec![2]), (false, vec![3])]);
}

#[test]
fn page_shows_the_viewport() {
    let page = index_html();
    assert!(page.starts_with("<!doctype html>"));
    assert!(page.ends_with("</html>"));
    assert!(page.contains("<canvas id=\"c\" width=\"512\" height=\"384\""));
    assert!(page.contains("ws://localhost:5813/ws"));
    assert!(page.contains("JSON.stringify({ type: 'keydown', key: e.key })"));
}
