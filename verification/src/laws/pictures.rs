//! Laws of pictures: how rows are read back, and which byte of a picture shows in
//! which byte of its planes and in which frame.

use openh264::encoder::Encoder;
use openh264::formats::YUVBuffer;
use vstd::prelude::*;
use crate::readback::{
    padded_is_next_multiple, pad_row, picture, readback_layout, strip_padding, ReadbackLayout,
};
use crate::stream::Frame;
use crate::video::{
    asked_for_key, colour, encoding, every_block_is_sampled, finish_frame, frame_input, frame_shows,
    is_frame_of, is_keyframe_index, is_yuv, last_picture, make_frame, next_frame, prepared, rgba_to_planes,
    rgba_to_yuv, sampled_pixel, to_frame, yuv_bytes, yuv_size, Encoded, FrameCounter, FrameInput,
    VideoError,
};
use crate::viewport::{viewport_frame, viewport_layout, viewport_pixels};

verus! {

/// Law: a padded row is a multiple of the alignment, as long as the row or longer
/// by less than the alignment.
pub proof fn padded_row_is_next_multiple(bytes: u32, alignment: u32, row: u32)
    requires
        0 < alignment,
        call_ensures(pad_row, (bytes, alignment), row),
    ensures
        row % alignment == 0,
        bytes <= row < bytes + alignment,
{
    padded_is_next_multiple(bytes as int, alignment as int);
}

/// Law: the buffer for a picture has rows of four bytes to a pixel, padded to the
/// next multiple of 256, and as many as the picture is high.
pub proof fn readback_buffer_fits_picture(width: u32, height: u32, layout: ReadbackLayout)
    requires
        call_ensures(readback_layout, (width, height), layout),
    ensures
        layout.bytes_per_row % 256 == 0,
        4 * width <= layout.bytes_per_row < 4 * width + 256,
        layout.size == layout.bytes_per_row * height,
{
    padded_is_next_multiple(4 * width, 256);
}

/// A byte of a picture that was read back.
proof fn lemma_picture_byte(
    data: Seq<u8>,
    width: int,
    height: int,
    stride: int,
    row: int,
    column: int,
)
    requires
        0 <= row < height,
        0 <= column < 4 * width,
    ensures
        0 <= row * (4 * width) + column < picture(data, width, height, stride).len(),
        picture(data, width, height, stride)[row * (4 * width) + column] == data[row * stride
            + column],
{
    let len = 4 * width;
    let i = row * len + column;
    assert(0 <= row * len && row * len + len <= len * height) by (nonlinear_arith)
        requires
            0 <= row,
            row + 1 <= height,
            0 <= len,
    ;
    vstd::arithmetic::div_mod::lemma_fundamental_div_mod_converse(i, len, row, column);
}

/// Law: the pixels of a picture are its rows in order, each without its padding:
/// byte `column` of row `row` is the one that stands there in the data.
pub proof fn rows_are_read_in_order(
    data: &[u8],
    width: usize,
    height: usize,
    stride: usize,
    pixels: Vec<u8>,
    row: int,
    column: int,
)
    requires
        call_ensures(strip_padding, (data, width, height, stride), pixels),
        0 <= row < height,
        0 <= column < 4 * width,
    ensures
        pixels@.len() == 4 * width * height,
        pixels@[row * (4 * width) + column] == data@[row * stride + column],
{
    vstd::arithmetic::mul::lemma_mul_nonnegative(4 * width, height as int);
    lemma_picture_byte(data@, width as int, height as int, stride as int, row, column);
}

/// Law: the viewport is copied into 384 rows of 2048 bytes.
pub proof fn viewport_buffer_fits_viewport(layout: ReadbackLayout)
    requires
        call_ensures(viewport_layout, (), layout),
    ensures
        layout.bytes_per_row == 4 * 512,
        layout.size == 4 * 512 * 384,
{
}

/// Law: the pixels of the viewport are the bytes that it was copied into, one for
/// one.
pub proof fn viewport_pixels_are_copied_bytes(data: &[u8], pixels: Vec<u8>, i: int)
    requires
        data@.len() >= 786432,
        call_ensures(viewport_pixels, (data,), pixels),
        0 <= i < 4 * 512 * 384,
    ensures
        pixels@.len() == 4 * 512 * 384,
        pixels@[i] == data@[i],
{
    lemma_picture_byte(data@, 512, 384, 2048, i / 2048, i % 2048);
}

/// Law: the colour of a pixel is in the three bytes at four times its number.
pub proof fn colour_is_at_four_times_the_pixel(pixels: Seq<u8>, pixel: int, r: u8, g: u8, b: u8)
    requires
        0 <= pixel,
        4 * pixel + 3 <= pixels.len(),
        pixels.subrange(4 * pixel, 4 * pixel + 3) == seq![r, g, b],
    ensures
        colour(pixels, pixel) == (r, g, b),
{
    let three = pixels.subrange(4 * pixel, 4 * pixel + 3);
    assert(three[0] == r && three[1] == g && three[2] == b);
    assert(three[0] == pixels[4 * pixel]);
    assert(three[1] == pixels[4 * pixel + 1]);
    assert(three[2] == pixels[4 * pixel + 2]);
}

/// What the pixel in a row and a column shows in, of the brightness.
proof fn lemma_brightness<
    L: Fn(u8, u8, u8) -> u8,
    B: Fn(u8, u8, u8) -> u8,
    R: Fn(u8, u8, u8) -> u8,
>(
    pixels: Seq<u8>,
    width: int,
    height: int,
    luma: L,
    blue: B,
    red: R,
    bytes: Seq<u8>,
    row: int,
    column: int,
)
    requires
        is_yuv(pixels, width, height, luma, blue, red, bytes),
        0 <= row < height,
        0 <= column < width,
    ensures
        call_ensures(
            luma,
            (
                pixels[4 * (row * width + column)],
                pixels[4 * (row * width + column) + 1],
                pixels[4 * (row * width + column) + 2],
            ),
            bytes[row * width + column],
        ),
{
    let pixel = row * width + column;
    let size = width * height;
    assert(0 <= pixel < size) by (nonlinear_arith)
        requires
            pixel == row * width + column,
            size == width * height,
            0 <= row < height,
            0 <= column < width,
    ;
    assert(call_ensures(luma, colour(pixels, pixel), bytes[pixel]));
}

/// What the upper left pixel of a block of four shows in, of the colours.
proof fn lemma_colours<
    L: Fn(u8, u8, u8) -> u8,
    B: Fn(u8, u8, u8) -> u8,
    R: Fn(u8, u8, u8) -> u8,
>(
    pixels: Seq<u8>,
    width: int,
    height: int,
    luma: L,
    blue: B,
    red: R,
    bytes: Seq<u8>,
    row: int,
    column: int,
)
    requires
        width % 2 == 0,
        height % 2 == 0,
        is_yuv(pixels, width, height, luma, blue, red, bytes),
        0 <= row < height / 2,
        0 <= column < width / 2,
    ensures
        call_ensures(
            blue,
            (
                pixels[4 * ((2 * row) * width + 2 * column)],
                pixels[4 * ((2 * row) * width + 2 * column) + 1],
                pixels[4 * ((2 * row) * width + 2 * column) + 2],
            ),
            bytes[width * height + row * (width / 2) + column],
        ),
        call_ensures(
            red,
            (
                pixels[4 * ((2 * row) * width + 2 * column)],
                pixels[4 * ((2 * row) * width + 2 * column) + 1],
                pixels[4 * ((2 * row) * width + 2 * column) + 2],
            ),
            bytes[width * height + (width * height) / 4 + row * (width / 2) + column],
        ),
{
    every_block_is_sampled(width, height, row, column);
    let size = width * height;
    let sample = row * (width / 2) + column;
    let c = colour(pixels, sampled_pixel(width, sample));
    assert(call_ensures(blue, c, bytes[size + sample]));
    assert(call_ensures(red, c, bytes[size + size / 4 + sample]));
    assert(size + row * (width / 2) + column == size + sample);
    assert(size + size / 4 + row * (width / 2) + column == size + size / 4 + sample);
}

/// The planes of a picture, byte by byte.
proof fn lemma_planes<
    L: Fn(u8, u8, u8) -> u8,
    B: Fn(u8, u8, u8) -> u8,
    R: Fn(u8, u8, u8) -> u8,
>(
    pixels: Seq<u8>,
    width: int,
    height: int,
    luma: L,
    blue: B,
    red: R,
    bytes: Seq<u8>,
)
    requires
        0 <= width,
        0 <= height,
        width % 2 == 0,
        height % 2 == 0,
        is_yuv(pixels, width, height, luma, blue, red, bytes),
    ensures
        bytes.len() == (width * height) + (width * height) / 4 + (width * height) / 4,
        forall|row: int, column: int|
            #![trigger bytes[row * width + column]]
            0 <= row < height && 0 <= column < width ==> call_ensures(
                luma,
                (
                    pixels[4 * (row * width + column)],
                    pixels[4 * (row * width + column) + 1],
                    pixels[4 * (row * width + column) + 2],
                ),
                bytes[row * width + column],
            ),
        forall|row: int, column: int|
            #![trigger bytes[width * height + row * (width / 2) + column]]
            0 <= row < height / 2 && 0 <= column < width / 2 ==> call_ensures(
                blue,
                (
                    pixels[4 * ((2 * row) * width + 2 * column)],
                    pixels[4 * ((2 * row) * width + 2 * column) + 1],
                    pixels[4 * ((2 * row) * width + 2 * column) + 2],
                ),
                bytes[width * height + row * (width / 2) + column],
            ),
        forall|row: int, column: int|
            #![trigger bytes[width * height + (width * height) / 4 + row * (width / 2) + column]]
            0 <= row < height / 2 && 0 <= column < width / 2 ==> call_ensures(
                red,
                (
                    pixels[4 * ((2 * row) * width + 2 * column)],
                    pixels[4 * ((2 * row) * width + 2 * column) + 1],
                    pixels[4 * ((2 * row) * width + 2 * column) + 2],
                ),
                bytes[width * height + (width * height) / 4 + row * (width / 2) + column],
            ),
{
    assert forall|row: int, column: int|
        #![trigger bytes[row * width + column]]
        0 <= row < height && 0 <= column < width implies call_ensures(
        luma,
        (
            pixels[4 * (row * width + column)],
            pixels[4 * (row * width + column) + 1],
            pixels[4 * (row * width + column) + 2],
        ),
        bytes[row * width + column],
    ) by {
        lemma_brightness(pixels, width, height, luma, blue, red, bytes, row, column);
    }
    assert forall|row: int, column: int|
        #![trigger bytes[width * height + row * (width / 2) + column]]
        0 <= row < height / 2 && 0 <= column < width / 2 implies call_ensures(
        blue,
        (
            pixels[4 * ((2 * row) * width + 2 * column)],
            pixels[4 * ((2 * row) * width + 2 * column) + 1],
            pixels[4 * ((2 * row) * width + 2 * column) + 2],
        ),
        bytes[width * height + row * (width / 2) + column],
    ) by {
        lemma_colours(pixels, width, height, luma, blue, red, bytes, row, column);
    }
    assert forall|row: int, column: int|
        #![trigger bytes[width * height + (width * height) / 4 + row * (width / 2) + column]]
        0 <= row < height / 2 && 0 <= column < width / 2 implies call_ensures(
        red,
        (
            pixels[4 * ((2 * row) * width + 2 * column)],
            pixels[4 * ((2 * row) * width + 2 * column) + 1],
            pixels[4 * ((2 * row) * width + 2 * column) + 2],
        ),
        bytes[width * height + (width * height) / 4 + row * (width / 2) + column],
    ) by {
        lemma_colours(pixels, width, height, luma, blue, red, bytes, row, column);
    }
}

/// Law: the planes of a picture follow one another: first the brightness of the
/// pixel in every row and column, which `luma` makes of the three bytes of that
/// pixel; then what `blue` and then what `red` makes of the pixel in every second
/// row and column. They hold nothing else.
pub proof fn planes_are_of_their_pixels<
    L: Fn(u8, u8, u8) -> u8,
    B: Fn(u8, u8, u8) -> u8,
    R: Fn(u8, u8, u8) -> u8,
>(
    pixels: &[u8],
    width: usize,
    height: usize,
    luma: L,
    blue: B,
    red: R,
    bytes: Vec<u8>,
)
    requires
        width % 2 == 0,
        height % 2 == 0,
        call_ensures(
            rgba_to_planes::<L, B, R>,
            (pixels, width, height, luma, blue, red),
            bytes,
        ),
    ensures
        bytes@.len() == (width * height) + (width * height) / 4 + (width * height) / 4,
        forall|row: int, column: int|
            #![trigger bytes@[row * width + column]]
            0 <= row < height && 0 <= column < width ==> call_ensures(
                luma,
                (
                    pixels@[4 * (row * width + column)],
                    pixels@[4 * (row * width + column) + 1],
                    pixels@[4 * (row * width + column) + 2],
                ),
                bytes@[row * width + column],
            ),
        forall|row: int, column: int|
            #![trigger bytes@[width * height + row * (width / 2) + column]]
            0 <= row < height / 2 && 0 <= column < width / 2 ==> call_ensures(
                blue,
                (
                    pixels@[4 * ((2 * row) * width + 2 * column)],
                    pixels@[4 * ((2 * row) * width + 2 * column) + 1],
                    pixels@[4 * ((2 * row) * width + 2 * column) + 2],
                ),
                bytes@[width * height + row * (width / 2) + column],
            ),
        forall|row: int, column: int|
            #![trigger bytes@[width * height + (width * height) / 4 + row * (width / 2) + column]]
            0 <= row < height / 2 && 0 <= column < width / 2 ==> call_ensures(
                red,
                (
                    pixels@[4 * ((2 * row) * width + 2 * column)],
                    pixels@[4 * ((2 * row) * width + 2 * column) + 1],
                    pixels@[4 * ((2 * row) * width + 2 * column) + 2],
                ),
                bytes@[width * height + (width * height) / 4 + row * (width / 2) + column],
            ),
{
    lemma_planes(pixels@, width as int, height as int, luma, blue, red, bytes@);
}

/// Law: the buffer that an encoder takes has the size of the picture and its
/// planes, byte by byte.
pub proof fn buffer_holds_planes_of_its_pixels<
    L: Fn(u8, u8, u8) -> u8,
    B: Fn(u8, u8, u8) -> u8,
    R: Fn(u8, u8, u8) -> u8,
>(
    pixels: &[u8],
    width: u32,
    height: u32,
    luma: L,
    blue: B,
    red: R,
    yuv: YUVBuffer,
)
    requires
        width % 2 == 0,
        height % 2 == 0,
        call_ensures(rgba_to_yuv::<L, B, R>, (pixels, width, height, luma, blue, red), yuv),
    ensures
        yuv_size(yuv) == (width as usize, height as usize),
        yuv_bytes(yuv).len() == (width * height) + (width * height) / 4 + (width * height) / 4,
        forall|row: int, column: int|
            #![trigger yuv_bytes(yuv)[row * width + column]]
            0 <= row < height && 0 <= column < width ==> call_ensures(
                luma,
                (
                    pixels@[4 * (row * width + column)],
                    pixels@[4 * (row * width + column) + 1],
                    pixels@[4 * (row * width + column) + 2],
                ),
                yuv_bytes(yuv)[row * width + column],
            ),
        forall|row: int, column: int|
            #![trigger yuv_bytes(yuv)[width * height + row * (width / 2) + column]]
            0 <= row < height / 2 && 0 <= column < width / 2 ==> call_ensures(
                blue,
                (
                    pixels@[4 * ((2 * row) * width + 2 * column)],
                    pixels@[4 * ((2 * row) * width + 2 * column) + 1],
                    pixels@[4 * ((2 * row) * width + 2 * column) + 2],
                ),
                yuv_bytes(yuv)[width * height + row * (width / 2) + column],
            ),
        forall|row: int, column: int|
            #![trigger yuv_bytes(yuv)[width * height + (width * height) / 4 + row * (width / 2) + column]]
            0 <= row < height / 2 && 0 <= column < width / 2 ==> call_ensures(
                red,
                (
                    pixels@[4 * ((2 * row) * width + 2 * column)],
                    pixels@[4 * ((2 * row) * width + 2 * column) + 1],
                    pixels@[4 * ((2 * row) * width + 2 * column) + 2],
                ),
                yuv_bytes(yuv)[width * height + (width * height) / 4 + row * (width / 2) + column],
            ),
{
    lemma_planes(pixels@, width as int, height as int, luma, blue, red, yuv_bytes(yuv));
}

/// Law: for every frame the encoder is given the planes of its pixels, byte by
/// byte, and for every thirtieth one the wish for a key frame.
pub proof fn encoder_is_given_planes_of_pixels<
    L: Fn(u8, u8, u8) -> u8,
    B: Fn(u8, u8, u8) -> u8,
    R: Fn(u8, u8, u8) -> u8,
>(
    counter: &FrameCounter,
    pixels: &[u8],
    width: u32,
    height: u32,
    luma: L,
    blue: B,
    red: R,
    input: FrameInput,
)
    requires
        width % 2 == 0,
        height % 2 == 0,
        call_ensures(
            frame_input::<L, B, R>,
            (counter, pixels, width, height, luma, blue, red),
            input,
        ),
    ensures
        input.force_key <==> counter.index % 30 == 0,
        yuv_size(input.yuv) == (width as usize, height as usize),
        yuv_bytes(input.yuv).len() == (width * height) + (width * height) / 4 + (width * height) / 4,
        forall|row: int, column: int|
            #![trigger yuv_bytes(input.yuv)[row * width + column]]
            0 <= row < height && 0 <= column < width ==> call_ensures(
                luma,
                (
                    pixels@[4 * (row * width + column)],
                    pixels@[4 * (row * width + column) + 1],
                    pixels@[4 * (row * width + column) + 2],
                ),
                yuv_bytes(input.yuv)[row * width + column],
            ),
        forall|row: int, column: int|
            #![trigger yuv_bytes(input.yuv)[width * height + row * (width / 2) + column]]
            0 <= row < height / 2 && 0 <= column < width / 2 ==> call_ensures(
                blue,
                (
                    pixels@[4 * ((2 * row) * width + 2 * column)],
                    pixels@[4 * ((2 * row) * width + 2 * column) + 1],
                    pixels@[4 * ((2 * row) * width + 2 * column) + 2],
                ),
                yuv_bytes(input.yuv)[width * height + row * (width / 2) + column],
            ),
        forall|row: int, column: int|
            #![trigger yuv_bytes(input.yuv)[width * height + (width * height) / 4 + row * (width / 2) + column]]
            0 <= row < height / 2 && 0 <= column < width / 2 ==> call_ensures(
                red,
                (
                    pixels@[4 * ((2 * row) * width + 2 * column)],
                    pixels@[4 * ((2 * row) * width + 2 * column) + 1],
                    pixels@[4 * ((2 * row) * width + 2 * column) + 2],
                ),
                yuv_bytes(input.yuv)[width * height + (width * height) / 4 + row * (width / 2) + column],
            ),
{
    lemma_planes(pixels@, width as int, height as int, luma, blue, red, yuv_bytes(input.yuv));
}

/// Law: a frame is what the encoder makes of the picture that it is given, asked
/// for a key frame first if so wished, and by no other encoder and of no other
/// picture. It is marked as a key frame exactly if it is one, and is one if that was
/// wished for, unless it has no data. It is the picture that the encoder made last.
/// Only a frame counts.
pub proof fn frame_is_encoding_of_its_input(
    encoder: &mut Encoder,
    counter: &mut FrameCounter,
    input: &FrameInput,
    frame: Result<Frame, VideoError>,
)
    requires
        call_ensures(next_frame, (encoder, counter, input), frame),
    ensures
        input.force_key ==> match encoding(
            asked_for_key(*old(encoder)),
            yuv_bytes(input.yuv),
            yuv_size(input.yuv),
        ) {
            Some((kind, data)) => {
                &&& frame is Ok
                &&& frame->Ok_0.is_key == (kind is Idr || kind is I)
                &&& frame->Ok_0.data@ == data
            },
            None => frame is Err,
        },
        !input.force_key ==> match encoding(
            *old(encoder),
            yuv_bytes(input.yuv),
            yuv_size(input.yuv),
        ) {
            Some((kind, data)) => {
                &&& frame is Ok
                &&& frame->Ok_0.is_key == (kind is Idr || kind is I)
                &&& frame->Ok_0.data@ == data
            },
            None => frame is Err,
        },
        frame is Ok ==> frame->Ok_0.data@ == last_picture(*final(encoder)).1,
        frame is Ok ==> frame->Ok_0.is_key == (last_picture(*final(encoder)).0 is Idr
            || last_picture(*final(encoder)).0 is I),
        input.force_key && frame is Ok && frame->Ok_0.data@.len() > 0 ==> frame->Ok_0.is_key,
        frame is Ok ==> final(counter).index == (old(counter).index + 1) % 0x1_0000_0000,
        frame is Err ==> final(counter).index == old(counter).index,
{
}

/// Law: an encoded picture goes out with its own bytes, marked as a key frame
/// exactly if it is one, and counts; an error is handed on and does not.
pub proof fn encoded_picture_goes_out_unchanged(
    counter: &mut FrameCounter,
    encoded: Result<Encoded, openh264::Error>,
    frame: Result<Frame, VideoError>,
)
    requires
        call_ensures(finish_frame, (counter, encoded), frame),
    ensures
        frame is Ok <==> encoded is Ok,
        encoded is Ok ==> frame->Ok_0.is_key == (encoded->Ok_0.kind is Idr || encoded->Ok_0.kind
            is I),
        encoded is Ok ==> frame->Ok_0.data@ == encoded->Ok_0.data@,
        encoded is Err ==> frame->Err_0 == VideoError::Codec(encoded->Err_0),
        frame is Ok ==> final(counter).index == (old(counter).index + 1) % 0x1_0000_0000,
        frame is Err ==> final(counter).index == old(counter).index,
{
}

/// Law: a frame has the bytes of the encoded picture, and is a key frame exactly
/// if the picture is one that needs none before it.
pub proof fn intra_picture_is_key_frame(encoded: Encoded, frame: Frame)
    requires
        call_ensures(to_frame, (encoded,), frame),
    ensures
        frame.is_key <==> encoded.kind is Idr || encoded.kind is I,
        frame.data@ == encoded.data@,
{
}

/// Law: the first frame and every thirtieth one after it are to be key frames,
/// and no others; the count goes up by one and starts over after the last number.
pub proof fn every_thirtieth_frame_is_wanted_key(
    first: FrameCounter,
    counter: &mut FrameCounter,
    wanted: bool,
)
    requires
        call_ensures(FrameCounter::new, (), first),
        call_ensures(FrameCounter::wants_keyframe, (&*old(counter),), wanted),
        call_ensures(FrameCounter::advance, (counter,), ()),
    ensures
        first.index == 0,
        wanted <==> old(counter).index % 30 == 0,
        final(counter).index == (old(counter).index + 1) % 0x1_0000_0000,
{
}

/// The planes that a frame shows, and what it is of them.
proof fn lemma_frame_shows<
    L: Fn(u8, u8, u8) -> u8,
    B: Fn(u8, u8, u8) -> u8,
    R: Fn(u8, u8, u8) -> u8,
>(
    encoder: Encoder,
    index: int,
    pixels: Seq<u8>,
    width: u32,
    height: u32,
    luma: L,
    blue: B,
    red: R,
    frame: Result<Frame, VideoError>,
) -> (bytes: Seq<u8>)
    requires
        frame_shows(encoder, index, pixels, width, height, luma, blue, red, frame),
    ensures
        is_yuv(pixels, width as int, height as int, luma, blue, red, bytes),
        is_frame_of(
            encoding(
                prepared(encoder, is_keyframe_index(index)),
                bytes,
                (width as usize, height as usize),
            ),
            frame,
        ),
{
    choose|bytes: Seq<u8>|
        #[trigger] is_yuv(pixels, width as int, height as int, luma, blue, red, bytes)
            && is_frame_of(
            encoding(
                prepared(encoder, is_keyframe_index(index)),
                bytes,
                (width as usize, height as usize),
            ),
            frame,
        )
}

/// Law: a frame is what the encoder, asked for a key frame every thirtieth time,
/// makes of `bytes`, and these are the planes of the pixels: the brightness that
/// `luma` makes of the three bytes of every pixel, then what `blue` and then what
/// `red` makes of the pixel in every second row and column. Every thirtieth frame
/// with data is a key frame, and pictures too small or too large give none.
pub proof fn frame_is_encoding_of_its_pixels<
    L: Fn(u8, u8, u8) -> u8,
    B: Fn(u8, u8, u8) -> u8,
    R: Fn(u8, u8, u8) -> u8,
>(
    encoder: &mut Encoder,
    counter: &mut FrameCounter,
    pixels: &[u8],
    width: u32,
    height: u32,
    luma: L,
    blue: B,
    red: R,
    frame: Result<Frame, VideoError>,
) -> (bytes: Seq<u8>)
    requires
        width % 2 == 0,
        height % 2 == 0,
        call_ensures(
            make_frame::<L, B, R>,
            (encoder, counter, pixels, width, height, luma, blue, red),
            frame,
        ),
    ensures
        bytes.len() == (width * height) + (width * height) / 4 + (width * height) / 4,
        forall|row: int, column: int|
            #![trigger bytes[row * width + column]]
            0 <= row < height && 0 <= column < width ==> call_ensures(
                luma,
                (
                    pixels@[4 * (row * width + column)],
                    pixels@[4 * (row * width + column) + 1],
                    pixels@[4 * (row * width + column) + 2],
                ),
                bytes[row * width + column],
            ),
        forall|row: int, column: int|
            #![trigger bytes[width * height + row * (width / 2) + column]]
            0 <= row < height / 2 && 0 <= column < width / 2 ==> call_ensures(
                blue,
                (
                    pixels@[4 * ((2 * row) * width + 2 * column)],
                    pixels@[4 * ((2 * row) * width + 2 * column) + 1],
                    pixels@[4 * ((2 * row) * width + 2 * column) + 2],
                ),
                bytes[width * height + row * (width / 2) + column],
            ),
        forall|row: int, column: int|
            #![trigger bytes[width * height + (width * height) / 4 + row * (width / 2) + column]]
            0 <= row < height / 2 && 0 <= column < width / 2 ==> call_ensures(
                red,
                (
                    pixels@[4 * ((2 * row) * width + 2 * column)],
                    pixels@[4 * ((2 * row) * width + 2 * column) + 1],
                    pixels@[4 * ((2 * row) * width + 2 * column) + 2],
                ),
                bytes[width * height + (width * height) / 4 + row * (width / 2) + column],
            ),
        (old(counter).index) % 30 == 0 ==> match encoding(asked_for_key(*old(encoder)), bytes, (width as usize, height as usize)) {
            Some((kind, data)) => {
                &&& frame is Ok
                &&& frame->Ok_0.is_key == (kind is Idr || kind is I)
                &&& frame->Ok_0.data@ == data
            },
            None => frame is Err,
        },
        (old(counter).index) % 30 != 0 ==> match encoding(*old(encoder), bytes, (width as usize, height as usize)) {
            Some((kind, data)) => {
                &&& frame is Ok
                &&& frame->Ok_0.is_key == (kind is Idr || kind is I)
                &&& frame->Ok_0.data@ == data
            },
            None => frame is Err,
        },
        frame is Ok ==> frame->Ok_0.data@ == last_picture(*final(encoder)).1,
        frame is Ok ==> frame->Ok_0.is_key == (last_picture(*final(encoder)).0 is Idr
            || last_picture(*final(encoder)).0 is I),
        old(counter).index % 30 == 0 && frame is Ok && frame->Ok_0.data@.len() > 0
            ==> frame->Ok_0.is_key,
        width <= i32::MAX && height <= i32::MAX && (width < 16 || height < 16 || width > 3840
            || height > 3840 || width > 2160 && height > 2160) ==> frame is Err,
        frame is Ok ==> final(counter).index == (old(counter).index + 1) % 0x1_0000_0000,
        frame is Err ==> final(counter).index == old(counter).index,
{
    let bytes = lemma_frame_shows(
        *old(encoder),
        old(counter).index as int,
        pixels@,
        width,
        height,
        luma,
        blue,
        red,
        frame,
    );
    lemma_planes(pixels@, width as int, height as int, luma, blue, red, bytes);
    bytes
}

/// Law: where each of the three operations makes one value only of a colour, a
/// frame is what the encoder makes of the very buffer that the pixels are
/// converted to with the same operations.
pub proof fn frame_is_encoding_of_converted_pixels<
    L: Fn(u8, u8, u8) -> u8,
    B: Fn(u8, u8, u8) -> u8,
    R: Fn(u8, u8, u8) -> u8,
>(
    encoder: &mut Encoder,
    counter: &mut FrameCounter,
    pixels: &[u8],
    width: u32,
    height: u32,
    luma: L,
    blue: B,
    red: R,
    frame: Result<Frame, VideoError>,
    yuv: YUVBuffer,
)
    requires
        width % 2 == 0,
        height % 2 == 0,
        forall|c: (u8, u8, u8), x: u8, y: u8|
            #[trigger] call_ensures(luma, c, x) && #[trigger] call_ensures(luma, c, y) ==> x == y,
        forall|c: (u8, u8, u8), x: u8, y: u8|
            #[trigger] call_ensures(blue, c, x) && #[trigger] call_ensures(blue, c, y) ==> x == y,
        forall|c: (u8, u8, u8), x: u8, y: u8|
            #[trigger] call_ensures(red, c, x) && #[trigger] call_ensures(red, c, y) ==> x == y,
        call_ensures(
            make_frame::<L, B, R>,
            (encoder, counter, pixels, width, height, luma, blue, red),
            frame,
        ),
        call_ensures(rgba_to_yuv::<L, B, R>, (pixels, width, height, luma, blue, red), yuv),
    ensures
        (old(counter).index) % 30 == 0 ==> match encoding(asked_for_key(*old(encoder)), yuv_bytes(yuv), yuv_size(yuv)) {
            Some((kind, data)) => {
                &&& frame is Ok
                &&& frame->Ok_0.is_key == (kind is Idr || kind is I)
                &&& frame->Ok_0.data@ == data
            },
            None => frame is Err,
        },
        (old(counter).index) % 30 != 0 ==> match encoding(*old(encoder), yuv_bytes(yuv), yuv_size(yuv)) {
            Some((kind, data)) => {
                &&& frame is Ok
                &&& frame->Ok_0.is_key == (kind is Idr || kind is I)
                &&& frame->Ok_0.data@ == data
            },
            None => frame is Err,
        },
{
    let bytes = lemma_frame_shows(
        *old(encoder),
        old(counter).index as int,
        pixels@,
        width,
        height,
        luma,
        blue,
        red,
        frame,
    );
    crate::video::planes_are_unique(
        pixels@,
        width as int,
        height as int,
        luma,
        blue,
        red,
        bytes,
        yuv_bytes(yuv),
    );
}

/// The three bytes of a pixel of the viewport.
proof fn lemma_viewport_pixel(data: Seq<u8>, row: int, column: int)
    requires
        0 <= row < 384,
        0 <= column < 512,
    ensures
        ({
            let pixels = picture(data, 512, 384, 2048);
            &&& pixels[4 * (row * 512 + column)] == data[row * 2048 + 4 * column]
            &&& pixels[4 * (row * 512 + column) + 1] == data[row * 2048 + 4 * column + 1]
            &&& pixels[4 * (row * 512 + column) + 2] == data[row * 2048 + 4 * column + 2]
        }),
{
    lemma_picture_byte(data, 512, 384, 2048, row, 4 * column);
    lemma_picture_byte(data, 512, 384, 2048, row, 4 * column + 1);
    lemma_picture_byte(data, 512, 384, 2048, row, 4 * column + 2);
}

/// Law: a frame of the viewport is what the encoder, asked for a key frame every
/// thirtieth time, makes of `bytes`, and these are the planes of the 384 rows of
/// 512 pixels that were copied: each pixel shows in its own place.
pub proof fn viewport_frame_is_encoding_of_copied_rows<
    L: Fn(u8, u8, u8) -> u8,
    B: Fn(u8, u8, u8) -> u8,
    R: Fn(u8, u8, u8) -> u8,
>(
    encoder: &mut Encoder,
    counter: &mut FrameCounter,
    data: &[u8],
    luma: L,
    blue: B,
    red: R,
    frame: Result<Frame, VideoError>,
) -> (bytes: Seq<u8>)
    requires
        data@.len() >= 786432,
        call_ensures(
            viewport_frame::<L, B, R>,
            (encoder, counter, data, luma, blue, red),
            frame,
        ),
    ensures
        bytes.len() == 196608 + 49152 + 49152,
        forall|row: int, column: int|
            #![trigger bytes[row * 512 + column]]
            0 <= row < 384 && 0 <= column < 512 ==> call_ensures(
                luma,
                (
                    data@[row * 2048 + 4 * column],
                    data@[row * 2048 + 4 * column + 1],
                    data@[row * 2048 + 4 * column + 2],
                ),
                bytes[row * 512 + column],
            ),
        forall|row: int, column: int|
            #![trigger bytes[196608 + row * 256 + column]]
            0 <= row < 192 && 0 <= column < 256 ==> call_ensures(
                blue,
                (
                    data@[row * 4096 + 8 * column],
                    data@[row * 4096 + 8 * column + 1],
                    data@[row * 4096 + 8 * column + 2],
                ),
                bytes[196608 + row * 256 + column],
            ),
        forall|row: int, column: int|
            #![trigger bytes[196608 + 49152 + row * 256 + column]]
            0 <= row < 192 && 0 <= column < 256 ==> call_ensures(
                red,
                (
                    data@[row * 4096 + 8 * column],
                    data@[row * 4096 + 8 * column + 1],
                    data@[row * 4096 + 8 * column + 2],
                ),
                bytes[196608 + 49152 + row * 256 + column],
            ),
        (old(counter).index) % 30 == 0 ==> match encoding(asked_for_key(*old(encoder)), bytes, (512usize, 384usize)) {
            Some((kind, data)) => {
                &&& frame is Ok
                &&& frame->Ok_0.is_key == (kind is Idr || kind is I)
                &&& frame->Ok_0.data@ == data
            },
            None => frame is Err,
        },
        (old(counter).index) % 30 != 0 ==> match encoding(*old(encoder), bytes, (512usize, 384usize)) {
            Some((kind, data)) => {
                &&& frame is Ok
                &&& frame->Ok_0.is_key == (kind is Idr || kind is I)
                &&& frame->Ok_0.data@ == data
            },
            None => frame is Err,
        },
        frame is Ok ==> frame->Ok_0.data@ == last_picture(*final(encoder)).1,
        frame is Ok ==> frame->Ok_0.is_key == (last_picture(*final(encoder)).0 is Idr
            || last_picture(*final(encoder)).0 is I),
        old(counter).index % 30 == 0 && frame is Ok && frame->Ok_0.data@.len() > 0
            ==> frame->Ok_0.is_key,
        frame is Ok ==> final(counter).index == (old(counter).index + 1) % 0x1_0000_0000,
        frame is Err ==> final(counter).index == old(counter).index,
{
    let pixels = picture(data@, 512, 384, 2048);
    let bytes = lemma_frame_shows(
        *old(encoder),
        old(counter).index as int,
        pixels,
        512,
        384,
        luma,
        blue,
        red,
        frame,
    );
    assert forall|row: int, column: int|
        #![trigger bytes[row * 512 + column]]
        0 <= row < 384 && 0 <= column < 512 implies call_ensures(
        luma,
        (
            data@[row * 2048 + 4 * column],
            data@[row * 2048 + 4 * column + 1],
            data@[row * 2048 + 4 * column + 2],
        ),
        bytes[row * 512 + column],
    ) by {
        lemma_brightness(pixels, 512, 384, luma, blue, red, bytes, row, column);
        lemma_viewport_pixel(data@, row, column);
    }
    assert forall|row: int, column: int|
        #![trigger bytes[196608 + row * 256 + column]]
        0 <= row < 192 && 0 <= column < 256 implies call_ensures(
        blue,
        (
            data@[row * 4096 + 8 * column],
            data@[row * 4096 + 8 * column + 1],
            data@[row * 4096 + 8 * column + 2],
        ),
        bytes[196608 + row * 256 + column],
    ) by {
        lemma_colours(pixels, 512, 384, luma, blue, red, bytes, row, column);
        lemma_viewport_pixel(data@, 2 * row, 2 * column);
    }
    assert forall|row: int, column: int|
        #![trigger bytes[196608 + 49152 + row * 256 + column]]
        0 <= row < 192 && 0 <= column < 256 implies call_ensures(
        red,
        (
            data@[row * 4096 + 8 * column],
            data@[row * 4096 + 8 * column + 1],
            data@[row * 4096 + 8 * column + 2],
        ),
        bytes[196608 + 49152 + row * 256 + column],
    ) by {
        lemma_colours(pixels, 512, 384, luma, blue, red, bytes, row, column);
        lemma_viewport_pixel(data@, 2 * row, 2 * column);
    }
    bytes
}

} // verus!
