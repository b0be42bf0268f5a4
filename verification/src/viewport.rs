//! The viewport: its size, and the page that shows it in a browser.

use openh264::encoder::Encoder;
use vstd::prelude::*;
use crate::readback::{picture, readback_layout, strip_padding, ReadbackLayout};
use crate::stream::Frame;
use crate::video::{
    frame_shows, index_after, is_key_kind, is_keyframe_index, last_picture, make_frame,
    FrameCounter, VideoError,
};

verus! {

/// The width of the viewport in pixels.
pub const WIDTH: u32 = 512;

/// The height of the viewport in pixels.
pub const HEIGHT: u32 = 384;

/// The page that shows the viewport. It opens the stream of frames, waits for
/// the first key frame, decodes from there on, and sends back the keys that are
/// pressed.
pub const INDEX_PAGE: &'static str = r#"<!doctype html>
<html>
<head><title>shinra editor</title></head>
<body style="margin:0;background:#111;color:#888;font-family:monospace">
  <canvas id="c" width="512" height="384" style="display:block;width:100%;height:auto"></canvas>
  <p style="padding:6px">arrow keys: move object &middot; n: next game</p>
  <script>
    const canvas = document.getElementById('c');
    const ctx = canvas.getContext('2d');
    const decoder = new VideoDecoder({
      output(frame) { ctx.drawImage(frame, 0, 0); frame.close(); },
      error(e) { console.warn('decoder:', e); },
    });
    decoder.configure({ codec: 'avc1.42E01E', codedWidth: 512, codedHeight: 384 });
    let synced = false;
    const ws = new WebSocket('ws://localhost:5813/ws');
    ws.binaryType = 'arraybuffer';
    ws.onmessage = ({ data }) => {
      if (typeof data === 'string') return;
      const buf = new Uint8Array(data);
      const isKey = buf[0] === 1;
      if (!synced && !isKey) return;
      synced = true;
      decoder.decode(new EncodedVideoChunk({
        type: isKey ? 'key' : 'delta',
        timestamp: performance.now() * 1000,
        data: buf.subarray(1),
      }));
    };
    document.addEventListener('keydown', e => {
      if (ws.readyState === WebSocket.OPEN) {
        ws.send(JSON.stringify({ type: 'keydown', key: e.key }));
      }
    });
  </script>
</body>
</html>"#;

/// The page that shows the viewport.
pub fn index_html() -> (page: &'static str)
    ensures
        page@ == INDEX_PAGE@,
{
    INDEX_PAGE
}

/// The buffer that the viewport is copied into. Its rows need no padding.
pub fn viewport_layout() -> (layout: ReadbackLayout)
    ensures
        layout.bytes_per_row == 2048,
        layout.size == 786432,
{
    readback_layout(WIDTH, HEIGHT)
}

/// The pixels of the viewport, of the buffer that it was copied into.
pub fn viewport_pixels(data: &[u8]) -> (pixels: Vec<u8>)
    requires
        data@.len() >= 786432,
    ensures
        pixels@ == picture(data@, WIDTH as int, HEIGHT as int, 2048),
        pixels@.len() == 786432,
{
    strip_padding(data, WIDTH as usize, HEIGHT as usize, viewport_layout().bytes_per_row as usize)
}

/// Makes the frame that `counter` stands at of the buffer that the viewport was
/// copied into: the encoding of the planes of its pixels, row by row and without
/// their padding.
pub fn viewport_frame<
    L: Fn(u8, u8, u8) -> u8,
    B: Fn(u8, u8, u8) -> u8,
    R: Fn(u8, u8, u8) -> u8,
>(
    encoder: &mut Encoder,
    counter: &mut FrameCounter,
    data: &[u8],
    luma: L,
    blue: B,
    red: R,
) -> (frame: Result<Frame, VideoError>)
    requires
        data@.len() >= 786432,
        forall|r: u8, g: u8, b: u8| call_requires(luma, (r, g, b)),
        forall|r: u8, g: u8, b: u8| call_requires(blue, (r, g, b)),
        forall|r: u8, g: u8, b: u8| call_requires(red, (r, g, b)),
    ensures
        frame_shows(
            *old(encoder),
            old(counter).index as int,
            picture(data@, WIDTH as int, HEIGHT as int, 2048),
            WIDTH,
            HEIGHT,
            luma,
            blue,
            red,
            frame,
        ),
        frame is Ok ==> final(counter).index == index_after(old(counter).index as int),
        frame is Err ==> *final(counter) == *old(counter),
        frame matches Ok(made) ==> {
            &&& made.is_key == is_key_kind(last_picture(*final(encoder)).0)
            &&& made.data@ == last_picture(*final(encoder)).1
        },
        frame matches Ok(made) ==> is_keyframe_index(old(counter).index as int)
            && made.data@.len() > 0 ==> made.is_key,
{
    let pixels = viewport_pixels(data);
    make_frame(encoder, counter, pixels.as_slice(), WIDTH, HEIGHT, luma, blue, red)
}

} // verus!
