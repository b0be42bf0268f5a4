//! From rendered pixels to encoded frames.

use openh264::encoder::{Encoder, FrameType};
use openh264::formats::YUVBuffer;
use vstd::prelude::*;
use crate::stream::Frame;

verus! {

/// The number of frames from one that is asked to be a key frame to the next.
pub const KEYFRAME_INTERVAL: u32 = 30;

/// `openh264::encoder::Encoder`, an H.264 encoder with the state that it keeps
/// from frame to frame.
#[verifier::external_type_specification]
#[verifier::external_body]
pub struct ExEncoder(Encoder);

/// `openh264::formats::YUVBuffer`, the planes of a picture.
#[verifier::external_type_specification]
#[verifier::external_body]
pub struct ExYuvBuffer(YUVBuffer);

/// `openh264::Error`, why a picture could not be encoded.
#[verifier::external_type_specification]
#[verifier::external_body]
pub struct ExCodecError(openh264::Error);

/// The bytes that a buffer of planes holds.
pub uninterp spec fn yuv_bytes(buffer: YUVBuffer) -> Seq<u8>;

/// The width and the height that a buffer of planes was made with.
pub uninterp spec fn yuv_size(buffer: YUVBuffer) -> (usize, usize);

/// Makes a buffer of planes with `openh264::formats::YUVBuffer::from_vec`, which
/// keeps the bytes and the size as they are. It panics where the sides are odd
/// or the number of bytes is not one and a half times the number of pixels.
#[verifier::external_body]
fn yuv_buffer(yuv: Vec<u8>, width: usize, height: usize) -> (buffer: YUVBuffer)
    requires
        width % 2 == 0,
        height % 2 == 0,
        3 * (width * height) <= usize::MAX,
        yuv@.len() == (3 * (width * height)) / 2,
    ensures
        yuv_bytes(buffer) == yuv@,
        yuv_size(buffer) == (width, height),
{
    YUVBuffer::from_vec(yuv, width, height)
}

/// The kinds of encoded frames.
#[derive(Clone, Copy, Debug, PartialEq, Eq)]
pub enum FrameKind {
    Invalid,
    Idr,
    I,
    P,
    Skip,
    IpMixed,
}

/// An encoded picture.
#[derive(Debug)]
pub struct Encoded {
    pub kind: FrameKind,
    pub data: Vec<u8>,
}

/// The encoder takes no picture of this size: its longer side is over 3840, or
/// its shorter one over 2160 or below 16.
pub open spec fn refused(size: (usize, usize)) -> bool {
    &&& size.0 <= i32::MAX && size.1 <= i32::MAX
    &&& {
        ||| size.0 > 3840 || size.1 > 3840
        ||| size.0 > 2160 && size.1 > 2160
        ||| size.0 < 16 || size.1 < 16
    }
}

/// A frame of this kind can be decoded without the ones before it.
pub open spec fn is_key_kind(kind: FrameKind) -> bool {
    kind is Idr || kind is I
}

/// The next picture that an encoder makes, unless it leaves it out, is to be a
/// key frame.
pub uninterp spec fn key_forced(encoder: Encoder) -> bool;

/// The picture that an encoder made last, which it holds on to until the next
/// one: its kind and its bytes.
pub uninterp spec fn last_picture(encoder: Encoder) -> (FrameKind, Seq<u8>);

/// What an encoder becomes when it is asked for a key frame.
pub uninterp spec fn asked_for_key(encoder: Encoder) -> Encoder;

/// What an encoder makes of a picture, given as the bytes of its planes and its
/// size: the kind and the bytes of the encoded picture, or `None` if the encoder
/// refuses it.
pub uninterp spec fn encoding(encoder: Encoder, bytes: Seq<u8>, size: (usize, usize)) -> Option<
    (FrameKind, Seq<u8>),
>;

/// Asks for a key frame with `openh264::encoder::Encoder::force_intra_frame`,
/// which makes the encoder emit one for the next picture, and what the encoder
/// becomes depends on what it was alone. An encoder that has made no picture yet
/// starts with a key frame in any case.
#[verifier::external_body]
fn force_intra_frame(encoder: &mut Encoder)
    ensures
        *final(encoder) == asked_for_key(*old(encoder)),
        key_forced(*final(encoder)),
{
    encoder.force_intra_frame()
}

/// Encodes a picture with `openh264::encoder::Encoder::encode`, and takes its
/// kind and its bytes with `frame_type` and `to_vec` of the bitstream.
///
/// What comes back depends on the encoder, with all that it keeps from earlier
/// pictures, and on the picture alone: a picture is one slice, which one thread
/// codes, and the time that the rate control goes by is counted in pictures.
/// (That the machine has the memory for it is taken for granted.) A picture of a
/// size that the encoder does not take is always refused. What comes back
/// otherwise is the bitstream that the encoder now holds. If a key frame was
/// asked for, it is one, unless the picture was left out; a picture that was left
/// out has no bytes. Of the encoder afterwards no more is stated: it also keeps
/// how long the coding took.
#[verifier::external_body]
fn encode(encoder: &mut Encoder, yuv: &YUVBuffer) -> (encoded: Result<Encoded, openh264::Error>)
    ensures
        match encoded {
            Ok(made) => encoding(*old(encoder), yuv_bytes(*yuv), yuv_size(*yuv)) == Some(
                (made.kind, made.data@),
            ),
            Err(_) => encoding(*old(encoder), yuv_bytes(*yuv), yuv_size(*yuv)) is None,
        },
        refused(yuv_size(*yuv)) ==> encoded is Err,
        encoded matches Ok(made) ==> last_picture(*final(encoder)) == (made.kind, made.data@),
        encoded matches Ok(made) ==> (made.kind is Skip || made.kind is Invalid)
            ==> made.data@.len() == 0,
        encoded matches Ok(made) ==> key_forced(*old(encoder)) && made.kind !is Skip
            && made.kind !is Invalid ==> is_key_kind(made.kind),
{
    let stream = encoder.encode(yuv)?;
    let kind = match stream.frame_type() {
        FrameType::Invalid => FrameKind::Invalid,
        FrameType::IDR => FrameKind::Idr,
        FrameType::I => FrameKind::I,
        FrameType::P => FrameKind::P,
        FrameType::Skip => FrameKind::Skip,
        FrameType::IPMixed => FrameKind::IpMixed,
    };
    Ok(Encoded { kind, data: stream.to_vec() })
}

/// Why there is no frame.
#[derive(Debug)]
pub enum VideoError {
    /// The encoder refused the picture.
    Codec(openh264::Error),
}

/// Counts frames; after the last number it starts over.
#[derive(Clone, Copy, Debug, PartialEq, Eq)]
pub struct FrameCounter {
    pub index: u32,
}

/// The number after `index`.
pub open spec fn index_after(index: int) -> int {
    if index == u32::MAX {
        0
    } else {
        index + 1
    }
}

/// The frame with this number is asked to be a key frame.
pub open spec fn is_keyframe_index(index: int) -> bool {
    index % KEYFRAME_INTERVAL as int == 0
}

impl FrameCounter {
    /// A counter that stands at the first frame.
    pub fn new() -> (counter: Self)
        ensures
            counter.index == 0,
    {
        FrameCounter { index: 0 }
    }

    /// Whether this frame is to be a key frame.
    pub fn wants_keyframe(&self) -> (wanted: bool)
        ensures
            wanted == is_keyframe_index(self.index as int),
    {
        self.index % KEYFRAME_INTERVAL == 0
    }

    /// Goes on to the next frame.
    pub fn advance(&mut self)
        ensures
            final(self).index == index_after(old(self).index as int),
    {
        self.index = self.index.wrapping_add(1);
    }
}

/// The number that is reached from `index` in `frames` frames.
pub open spec fn index_in(index: int, frames: nat) -> int
    decreases frames,
{
    if frames == 0 {
        index
    } else {
        index_after(index_in(index, (frames - 1) as nat))
    }
}

proof fn lemma_index_in(index: int, frames: nat)
    requires
        0 <= index,
        index + frames <= u32::MAX,
    ensures
        index_in(index, frames) == index + frames,
    decreases frames,
{
    if frames > 0 {
        lemma_index_in(index, (frames - 1) as nat);
    }
}

/// Law: whatever number a counter stands at, one of the frames of the interval
/// that starts there is asked to be a key frame, also where the count starts
/// over.
pub proof fn keyframe_within_interval(index: u32) -> (frames: nat)
    ensures
        frames < KEYFRAME_INTERVAL,
        is_keyframe_index(index_in(index as int, frames)),
{
    let i = index as int;
    let missing = (30 - i % 30) % 30;
    if i + missing <= u32::MAX {
        lemma_index_in(i, missing as nat);
        missing as nat
    } else {
        let frames = (u32::MAX - i) as nat;
        lemma_index_in(i, frames);
        assert(index_in(i, frames + 1) == 0);
        frames + 1
    }
}

proof fn lemma_index_in_adds_up(index: int, first: nat, second: nat)
    ensures
        index_in(index_in(index, first), second) == index_in(index, first + second),
    decreases second,
{
    if second > 0 {
        lemma_index_in_adds_up(index, first, (second - 1) as nat);
    }
}

proof fn lemma_index_in_range(index: int, frames: nat)
    requires
        0 <= index <= u32::MAX,
    ensures
        0 <= index_in(index, frames) <= u32::MAX,
    decreases frames,
{
    if frames > 0 {
        lemma_index_in_range(index, (frames - 1) as nat);
    }
}

/// Each of these frames, of which the first has the number `first`, is a key
/// frame if its number asks for one, unless it was left out: what `make_frame`
/// gives when it is called once for each.
pub open spec fn keys_as_asked(frames: Seq<Frame>, first: u32) -> bool {
    forall|i: int|
        0 <= i < frames.len() && is_keyframe_index(index_in(first as int, i as nat))
            && frames[i].data@.len() > 0 ==> (#[trigger] frames[i]).is_key
}

/// Law: an interval of frames that were not left out has a key frame among them,
/// wherever it starts.
pub proof fn key_frame_in_every_interval(frames: Seq<Frame>, first: u32, from: nat) -> (at: int)
    requires
        keys_as_asked(frames, first),
        from + KEYFRAME_INTERVAL <= frames.len(),
        forall|i: int|
            from <= i < from + KEYFRAME_INTERVAL ==> (#[trigger] frames[i]).data@.len() > 0,
    ensures
        from <= at < from + KEYFRAME_INTERVAL,
        frames[at].is_key,
{
    lemma_index_in_range(first as int, from);
    let start = index_in(first as int, from) as u32;
    let after = keyframe_within_interval(start);
    lemma_index_in_adds_up(first as int, from, after);
    let at = (from + after) as int;
    assert(frames[at].data@.len() > 0);
    at
}

/// The colour of a pixel of an RGBA picture: red, green and blue.
pub open spec fn colour(pixels: Seq<u8>, pixel: int) -> (u8, u8, u8) {
    (pixels[4 * pixel], pixels[4 * pixel + 1], pixels[4 * pixel + 2])
}

/// The pixel that the `sample`th value of a colour plane is taken from. A colour
/// plane has half as many rows and columns as the picture, and takes the upper
/// left pixel of each block of four.
pub open spec fn sampled_pixel(width: int, sample: int) -> int {
    2 * (sample / (width / 2)) * width + 2 * (sample % (width / 2))
}

/// Law: the upper left pixel of every block of four is sampled, and blocks are
/// sampled row by row: the block in block row `row` and block column `column` is
/// sample `row * (width / 2) + column`.
pub proof fn every_block_is_sampled(width: int, height: int, row: int, column: int)
    requires
        width % 2 == 0,
        height % 2 == 0,
        0 <= row < height / 2,
        0 <= column < width / 2,
    ensures
        0 <= row * (width / 2) + column < (width * height) / 4,
        sampled_pixel(width, row * (width / 2) + column) == (2 * row) * width + 2 * column,
{
    let columns = width / 2;
    let rows = height / 2;
    let sample = row * columns + column;
    assert(0 <= row * columns && row * columns + columns <= columns * rows) by (nonlinear_arith)
        requires
            0 <= row,
            row + 1 <= rows,
            0 <= columns,
    ;
    assert(width * height == 4 * (columns * rows)) by (nonlinear_arith)
        requires
            width == 2 * columns,
            height == 2 * rows,
    ;
    vstd::arithmetic::div_mod::lemma_fundamental_div_mod_converse(sample, columns, row, column);
}

/// Law: every sample is taken from the upper left pixel of a block of four
/// within the picture.
pub proof fn samples_are_of_blocks(width: int, height: int, sample: int)
    requires
        0 <= width,
        0 <= height,
        width % 2 == 0,
        height % 2 == 0,
        0 <= sample < (width * height) / 4,
    ensures
        0 <= sampled_pixel(width, sample) < width * height,
        (sampled_pixel(width, sample) / width) % 2 == 0,
        (sampled_pixel(width, sample) % width) % 2 == 0,
{
    let columns = width / 2;
    let rows = height / 2;
    assert(width * height == 4 * (columns * rows)) by (nonlinear_arith)
        requires
            width == 2 * columns,
            height == 2 * rows,
    ;
    assert(columns > 0 && 0 <= sample / columns < rows && 0 <= sample % columns < columns)
        by (nonlinear_arith)
        requires
            0 <= sample < columns * rows,
            0 <= columns,
            0 <= rows,
    ;
    let row = sample / columns;
    let column = sample % columns;
    let pixel = sampled_pixel(width, sample);
    assert(pixel == (2 * row) * width + 2 * column);
    vstd::arithmetic::div_mod::lemma_fundamental_div_mod_converse(
        pixel,
        width,
        2 * row,
        2 * column,
    );
    assert((2 * row) * width + width <= width * height && 0 <= (2 * row) * width)
        by (nonlinear_arith)
        requires
            0 <= 2 * row,
            2 * row + 1 <= height,
            0 <= width,
    ;
}

/// `bytes` are the planes of a picture, one after the other: the brightness of
/// every pixel, as `luma` makes it of the pixel's colour, and then the two
/// colour planes, as `blue` and `red` make them of the sampled pixels.
pub open spec fn is_yuv<
    L: Fn(u8, u8, u8) -> u8,
    B: Fn(u8, u8, u8) -> u8,
    R: Fn(u8, u8, u8) -> u8,
>(pixels: Seq<u8>, width: int, height: int, luma: L, blue: B, red: R, bytes: Seq<u8>) -> bool {
    let size = width * height;
    &&& bytes.len() == size + 2 * (size / 4)
    &&& forall|pixel: int|
        0 <= pixel < size ==> call_ensures(
            luma,
            colour(pixels, pixel),
            #[trigger] bytes[pixel],
        )
    &&& forall|sample: int|
        0 <= sample < size / 4 ==> call_ensures(
            blue,
            colour(pixels, #[trigger] sampled_pixel(width, sample)),
            bytes[size + sample],
        )
    &&& forall|sample: int|
        0 <= sample < size / 4 ==> call_ensures(
            red,
            colour(pixels, #[trigger] sampled_pixel(width, sample)),
            bytes[size + size / 4 + sample],
        )
}

/// An operation that makes one value only of a colour.
pub open spec fn makes_one_value<C: Fn(u8, u8, u8) -> u8>(convert: C) -> bool {
    forall|c: (u8, u8, u8), x: u8, y: u8|
        call_ensures(convert, c, x) && call_ensures(convert, c, y) ==> x == y
}

/// Law: where each of the three operations makes one value only of a colour,
/// the planes of a picture depend on the colours of its pixels and on nothing
/// else: neither on how opaque they are nor on what follows the picture.
pub proof fn planes_show_colours_only<
    L: Fn(u8, u8, u8) -> u8,
    B: Fn(u8, u8, u8) -> u8,
    R: Fn(u8, u8, u8) -> u8,
>(
    pixels1: Seq<u8>,
    pixels2: Seq<u8>,
    width: int,
    height: int,
    luma: L,
    blue: B,
    red: R,
    bytes1: Seq<u8>,
    bytes2: Seq<u8>,
)
    requires
        0 <= width,
        0 <= height,
        width % 2 == 0,
        height % 2 == 0,
        makes_one_value(luma),
        makes_one_value(blue),
        makes_one_value(red),
        forall|pixel: int|
            0 <= pixel < width * height ==> #[trigger] colour(pixels1, pixel) == colour(
                pixels2,
                pixel,
            ),
        is_yuv(pixels1, width, height, luma, blue, red, bytes1),
        is_yuv(pixels2, width, height, luma, blue, red, bytes2),
    ensures
        bytes1 == bytes2,
{
    let size = width * height;
    assert forall|i: int| 0 <= i < bytes1.len() implies bytes1[i] == bytes2[i] by {
        if i < size {
            lemma_pixel_shows(pixels1, pixels2, width, height, luma, blue, red, bytes1, bytes2, i);
        } else if i < size + size / 4 {
            let sample = i - size;
            samples_are_of_blocks(width, height, sample);
            lemma_sample_shows(
                pixels1, pixels2, width, height, luma, blue, red, bytes1, bytes2, sample,
            );
        } else {
            let sample = i - size - size / 4;
            samples_are_of_blocks(width, height, sample);
            lemma_sample_shows(
                pixels1, pixels2, width, height, luma, blue, red, bytes1, bytes2, sample,
            );
        }
    }
    assert(bytes1 =~= bytes2);
}

/// Two pictures with the same colour in a pixel have the same brightness there.
proof fn lemma_pixel_shows<
    L: Fn(u8, u8, u8) -> u8,
    B: Fn(u8, u8, u8) -> u8,
    R: Fn(u8, u8, u8) -> u8,
>(
    pixels1: Seq<u8>,
    pixels2: Seq<u8>,
    width: int,
    height: int,
    luma: L,
    blue: B,
    red: R,
    bytes1: Seq<u8>,
    bytes2: Seq<u8>,
    pixel: int,
)
    requires
        makes_one_value(luma),
        is_yuv(pixels1, width, height, luma, blue, red, bytes1),
        is_yuv(pixels2, width, height, luma, blue, red, bytes2),
        0 <= pixel < width * height,
        colour(pixels1, pixel) == colour(pixels2, pixel),
    ensures
        bytes1[pixel] == bytes2[pixel],
{
    let c = colour(pixels1, pixel);
    assert(call_ensures(luma, c, bytes1[pixel]));
    assert(call_ensures(luma, c, bytes2[pixel]));
}

/// Two series of planes of `size` pixels agree in a sample, in both colours.
pub open spec fn same_sample(bytes1: Seq<u8>, bytes2: Seq<u8>, size: int, sample: int) -> bool {
    &&& bytes1[size + sample] == bytes2[size + sample]
    &&& bytes1[size + size / 4 + sample] == bytes2[size + size / 4 + sample]
}

/// Two pictures with the same colour in a sampled pixel have the same values in
/// both colour planes there.
proof fn lemma_sample_shows<
    L: Fn(u8, u8, u8) -> u8,
    B: Fn(u8, u8, u8) -> u8,
    R: Fn(u8, u8, u8) -> u8,
>(
    pixels1: Seq<u8>,
    pixels2: Seq<u8>,
    width: int,
    height: int,
    luma: L,
    blue: B,
    red: R,
    bytes1: Seq<u8>,
    bytes2: Seq<u8>,
    sample: int,
)
    requires
        makes_one_value(blue),
        makes_one_value(red),
        is_yuv(pixels1, width, height, luma, blue, red, bytes1),
        is_yuv(pixels2, width, height, luma, blue, red, bytes2),
        0 <= sample < (width * height) / 4,
        colour(pixels1, sampled_pixel(width, sample)) == colour(
            pixels2,
            sampled_pixel(width, sample),
        ),
    ensures
        same_sample(bytes1, bytes2, width * height, sample),
{
    let size = width * height;
    let c = colour(pixels1, sampled_pixel(width, sample));
    assert(call_ensures(blue, c, bytes1[size + sample]));
    assert(call_ensures(blue, c, bytes2[size + sample]));
    assert(call_ensures(red, c, bytes1[size + size / 4 + sample]));
    assert(call_ensures(red, c, bytes2[size + size / 4 + sample]));
}

/// Law: a picture has one series of planes only.
pub proof fn planes_are_unique<
    L: Fn(u8, u8, u8) -> u8,
    B: Fn(u8, u8, u8) -> u8,
    R: Fn(u8, u8, u8) -> u8,
>(
    pixels: Seq<u8>,
    width: int,
    height: int,
    luma: L,
    blue: B,
    red: R,
    bytes1: Seq<u8>,
    bytes2: Seq<u8>,
)
    requires
        0 <= width,
        0 <= height,
        width % 2 == 0,
        height % 2 == 0,
        makes_one_value(luma),
        makes_one_value(blue),
        makes_one_value(red),
        is_yuv(pixels, width, height, luma, blue, red, bytes1),
        is_yuv(pixels, width, height, luma, blue, red, bytes2),
    ensures
        bytes1 == bytes2,
{
    planes_show_colours_only(pixels, pixels, width, height, luma, blue, red, bytes1, bytes2);
}

/// Law: the pixel in row `row` and column `column` shows in one value of the
/// brightness, at `row * width + column`, and, if both are even, in one value of
/// each colour plane, at `(row / 2) * (width / 2) + column / 2`. Two pictures
/// that differ in that pixel alone differ nowhere else in their planes.
pub proof fn pixel_shows_in_its_own_values<
    L: Fn(u8, u8, u8) -> u8,
    B: Fn(u8, u8, u8) -> u8,
    R: Fn(u8, u8, u8) -> u8,
>(
    pixels1: Seq<u8>,
    pixels2: Seq<u8>,
    width: int,
    height: int,
    luma: L,
    blue: B,
    red: R,
    bytes1: Seq<u8>,
    bytes2: Seq<u8>,
    row: int,
    column: int,
)
    requires
        width % 2 == 0,
        height % 2 == 0,
        0 <= row < height,
        0 <= column < width,
        makes_one_value(luma),
        makes_one_value(blue),
        makes_one_value(red),
        forall|pixel: int|
            0 <= pixel < width * height && pixel != row * width + column
                ==> #[trigger] colour(pixels1, pixel) == colour(pixels2, pixel),
        is_yuv(pixels1, width, height, luma, blue, red, bytes1),
        is_yuv(pixels2, width, height, luma, blue, red, bytes2),
    ensures
        bytes1.len() == bytes2.len(),
        forall|pixel: int|
            0 <= pixel < width * height && pixel != row * width + column
                ==> #[trigger] bytes1[pixel] == bytes2[pixel],
        forall|sample: int|
            0 <= sample < (width * height) / 4 && !(row % 2 == 0 && column % 2 == 0 && sample
                == (row / 2) * (width / 2) + column / 2) ==> #[trigger] same_sample(
                bytes1,
                bytes2,
                width * height,
                sample,
            ),
{
    let changed = row * width + column;
    assert forall|pixel: int| 0 <= pixel < width * height && pixel != changed implies #[trigger]
        bytes1[pixel] == bytes2[pixel] by {
        lemma_pixel_shows(pixels1, pixels2, width, height, luma, blue, red, bytes1, bytes2, pixel);
    }
    assert forall|sample: int|
        0 <= sample < (width * height) / 4 && !(row % 2 == 0 && column % 2 == 0 && sample == (row
            / 2) * (width / 2) + column / 2) implies #[trigger] same_sample(
        bytes1,
        bytes2,
        width * height,
        sample,
    ) by {
        samples_are_of_blocks(width, height, sample);
        if sampled_pixel(width, sample) == changed {
            let columns = width / 2;
            let r = sample / columns;
            let c = sample % columns;
            vstd::arithmetic::div_mod::lemma_fundamental_div_mod(sample, columns);
            vstd::arithmetic::mul::lemma_mul_is_commutative(columns, r);
            vstd::arithmetic::div_mod::lemma_fundamental_div_mod_converse(
                changed,
                width,
                row,
                column,
            );
            vstd::arithmetic::div_mod::lemma_fundamental_div_mod_converse(
                changed,
                width,
                2 * r,
                2 * c,
            );
            assert(row == 2 * r && column == 2 * c);
        }
        lemma_sample_shows(
            pixels1, pixels2, width, height, luma, blue, red, bytes1, bytes2, sample,
        );
    }
}

/// The value of every pixel, in order.
fn full_plane<C: Fn(u8, u8, u8) -> u8>(pixels: &[u8], size: usize, convert: C) -> (plane: Vec<u8>)
    requires
        4 * size <= pixels@.len() + 1,
        forall|r: u8, g: u8, b: u8| call_requires(convert, (r, g, b)),
    ensures
        plane@.len() == size,
        forall|pixel: int|
            0 <= pixel < size ==> call_ensures(
                convert,
                colour(pixels@, pixel),
                #[trigger] plane@[pixel],
            ),
{
    let mut plane: Vec<u8> = Vec::new();
    let mut pixel: usize = 0;
    while pixel < size
        invariant
            pixel <= size,
            4 * size <= pixels@.len() + 1,
            forall|r: u8, g: u8, b: u8| call_requires(convert, (r, g, b)),
            plane@.len() == pixel,
            forall|p: int|
                0 <= p < pixel ==> call_ensures(
                    convert,
                    colour(pixels@, p),
                    #[trigger] plane@[p],
                ),
        decreases size - pixel,
    {
        assert(pixels@.len() == pixels.len());
        let at: usize = 4 * pixel;
        plane.push(convert(pixels[at], pixels[at + 1], pixels[at + 2]));
        pixel += 1;
    }
    plane
}

/// The values of the sampled pixels, in order.
fn sampled_plane<C: Fn(u8, u8, u8) -> u8>(
    pixels: &[u8],
    width: usize,
    height: usize,
    convert: C,
) -> (plane: Vec<u8>)
    requires
        width % 2 == 0,
        height % 2 == 0,
        4 * (width * height) <= pixels@.len() + 1,
        forall|r: u8, g: u8, b: u8| call_requires(convert, (r, g, b)),
    ensures
        plane@.len() == (width * height) / 4,
        forall|sample: int|
            0 <= sample < plane@.len() ==> call_ensures(
                convert,
                colour(pixels@, #[trigger] sampled_pixel(width as int, sample)),
                plane@[sample],
            ),
{
    let mut plane: Vec<u8> = Vec::new();
    let columns: usize = width / 2;
    let rows: usize = height / 2;
    let mut row: usize = 0;
    proof {
        assert(columns * 0 == 0);
    }
    while row < rows
        invariant
            row <= rows,
            width == 2 * columns,
            height == 2 * rows,
            4 * (width * height) <= pixels@.len() + 1,
            forall|r: u8, g: u8, b: u8| call_requires(convert, (r, g, b)),
            plane@.len() == columns * row,
            forall|sample: int|
                0 <= sample < plane@.len() ==> call_ensures(
                    convert,
                    colour(pixels@, #[trigger] sampled_pixel(width as int, sample)),
                    plane@[sample],
                ),
        decreases rows - row,
    {
        let mut column: usize = 0;
        while column < columns
            invariant
                row < rows,
                column <= columns,
                width == 2 * columns,
                height == 2 * rows,
                4 * (width * height) <= pixels@.len() + 1,
                forall|r: u8, g: u8, b: u8| call_requires(convert, (r, g, b)),
                plane@.len() == columns * row + column,
                forall|sample: int|
                    0 <= sample < plane@.len() ==> call_ensures(
                        convert,
                        colour(pixels@, #[trigger] sampled_pixel(width as int, sample)),
                        plane@[sample],
                    ),
            decreases columns - column,
        {
            proof {
                let sample = plane@.len() as int;
                vstd::arithmetic::mul::lemma_mul_is_commutative(columns as int, row as int);
                vstd::arithmetic::div_mod::lemma_fundamental_div_mod_converse(
                    sample,
                    columns as int,
                    row as int,
                    column as int,
                );
                assert(sampled_pixel(width as int, sample) == 2 * row * width + 2 * column);
                assert(0 <= 2 * row * width) by (nonlinear_arith);
                assert(2 * row * width + width <= width * height) by (nonlinear_arith)
                    requires
                        2 * row + 1 <= height,
                        0 <= width,
                ;
                assert(pixels@.len() == pixels.len());
                assert(2 * row <= usize::MAX);
            }
            let at: usize = 4 * (2 * row * width + 2 * column);
            plane.push(convert(pixels[at], pixels[at + 1], pixels[at + 2]));
            column += 1;
        }
        proof {
            assert(columns * row + columns == columns * (row + 1)) by (nonlinear_arith);
        }
        row += 1;
    }
    proof {
        assert(4 * (columns * rows) == width * height) by (nonlinear_arith)
            requires
                width == 2 * columns,
                height == 2 * rows,
        ;
    }
    plane
}

/// The planes of an RGBA picture as bytes, one after the other: brightness in
/// full, then the two colours at half the width and half the height. The three
/// operations make a value of a red, a green and a blue.
pub fn rgba_to_planes<
    L: Fn(u8, u8, u8) -> u8,
    B: Fn(u8, u8, u8) -> u8,
    R: Fn(u8, u8, u8) -> u8,
>(pixels: &[u8], width: usize, height: usize, luma: L, blue: B, red: R) -> (bytes: Vec<u8>)
    requires
        width % 2 == 0,
        height % 2 == 0,
        4 * (width * height) <= pixels@.len() + 1,
        forall|r: u8, g: u8, b: u8| call_requires(luma, (r, g, b)),
        forall|r: u8, g: u8, b: u8| call_requires(blue, (r, g, b)),
        forall|r: u8, g: u8, b: u8| call_requires(red, (r, g, b)),
    ensures
        is_yuv(pixels@, width as int, height as int, luma, blue, red, bytes@),
{
    proof {
        assert(0 <= width * height) by (nonlinear_arith);
        assert(pixels@.len() == pixels.len());
    }
    let size: usize = width * height;
    let mut bytes = full_plane(pixels, size, luma);
    let mut blues = sampled_plane(pixels, width, height, blue);
    let mut reds = sampled_plane(pixels, width, height, red);
    let ghost y = bytes@;
    let ghost u = blues@;
    let ghost v = reds@;
    bytes.append(&mut blues);
    bytes.append(&mut reds);
    proof {
        assert forall|pixel: int| 0 <= pixel < size implies call_ensures(
            luma,
            colour(pixels@, pixel),
            #[trigger] bytes@[pixel],
        ) by {
            assert(bytes@[pixel] == y[pixel]);
        }
        assert forall|sample: int| 0 <= sample < size / 4 implies call_ensures(
            blue,
            colour(pixels@, #[trigger] sampled_pixel(width as int, sample)),
            bytes@[size + sample],
        ) by {
            assert(bytes@[size + sample] == u[sample]);
        }
        assert forall|sample: int| 0 <= sample < size / 4 implies call_ensures(
            red,
            colour(pixels@, #[trigger] sampled_pixel(width as int, sample)),
            bytes@[size + size / 4 + sample],
        ) by {
            assert(bytes@[size + size / 4 + sample] == v[sample]);
        }
    }
    bytes
}

/// The planes of an RGBA picture, in a buffer that an encoder takes.
pub fn rgba_to_yuv<
    L: Fn(u8, u8, u8) -> u8,
    B: Fn(u8, u8, u8) -> u8,
    R: Fn(u8, u8, u8) -> u8,
>(pixels: &[u8], width: u32, height: u32, luma: L, blue: B, red: R) -> (yuv: YUVBuffer)
    requires
        width % 2 == 0,
        height % 2 == 0,
        4 * (width * height) <= pixels@.len() + 1,
        forall|r: u8, g: u8, b: u8| call_requires(luma, (r, g, b)),
        forall|r: u8, g: u8, b: u8| call_requires(blue, (r, g, b)),
        forall|r: u8, g: u8, b: u8| call_requires(red, (r, g, b)),
    ensures
        yuv_size(yuv) == (width as usize, height as usize),
        is_yuv(pixels@, width as int, height as int, luma, blue, red, yuv_bytes(yuv)),
{
    let w = width as usize;
    let h = height as usize;
    proof {
        assert((w * h) % 4 == 0) by (nonlinear_arith)
            requires
                w % 2 == 0,
                h % 2 == 0,
        {
            let a = w / 2;
            let b = h / 2;
            assert(w * h == 4 * (a * b));
        }
        assert(0 <= w * h) by (nonlinear_arith);
        assert(pixels@.len() == pixels.len());
    }
    let bytes = rgba_to_planes(pixels, w, h, luma, blue, red);
    yuv_buffer(bytes, w, h)
}

/// The frame that an encoded picture is sent out as.
pub fn to_frame(encoded: Encoded) -> (frame: Frame)
    ensures
        frame.is_key == is_key_kind(encoded.kind),
        frame.data == encoded.data,
{
    let is_key = match encoded.kind {
        FrameKind::Idr | FrameKind::I => true,
        _ => false,
    };
    Frame { is_key, data: encoded.data }
}

/// What the encoder is given for a frame.
pub struct FrameInput {
    /// Whether it is first asked for a key frame.
    pub force_key: bool,
    /// The picture.
    pub yuv: YUVBuffer,
}

/// What the encoder is given for the frame that `counter` stands at: the planes
/// of the picture, and every so many frames the wish for a key frame.
pub fn frame_input<
    L: Fn(u8, u8, u8) -> u8,
    B: Fn(u8, u8, u8) -> u8,
    R: Fn(u8, u8, u8) -> u8,
>(
    counter: &FrameCounter,
    pixels: &[u8],
    width: u32,
    height: u32,
    luma: L,
    blue: B,
    red: R,
) -> (input: FrameInput)
    requires
        width % 2 == 0,
        height % 2 == 0,
        4 * (width * height) <= pixels@.len() + 1,
        forall|r: u8, g: u8, b: u8| call_requires(luma, (r, g, b)),
        forall|r: u8, g: u8, b: u8| call_requires(blue, (r, g, b)),
        forall|r: u8, g: u8, b: u8| call_requires(red, (r, g, b)),
    ensures
        input.force_key == is_keyframe_index(counter.index as int),
        yuv_size(input.yuv) == (width as usize, height as usize),
        is_yuv(pixels@, width as int, height as int, luma, blue, red, yuv_bytes(input.yuv)),
{
    FrameInput {
        force_key: counter.wants_keyframe(),
        yuv: rgba_to_yuv(pixels, width, height, luma, blue, red),
    }
}

/// An encoder that is about to be given a picture: asked for a key frame first,
/// if `force` says so.
pub open spec fn prepared(encoder: Encoder, force: bool) -> Encoder {
    if force {
        asked_for_key(encoder)
    } else {
        encoder
    }
}

/// `frame` is what an encoding goes out as: its bytes, marked as a key frame if
/// it is one, and an error if there is no encoding.
pub open spec fn is_frame_of(
    made: Option<(FrameKind, Seq<u8>)>,
    frame: Result<Frame, VideoError>,
) -> bool {
    match made {
        Some((kind, data)) => {
            &&& frame is Ok
            &&& frame->Ok_0.is_key == is_key_kind(kind)
            &&& frame->Ok_0.data@ == data
        },
        None => frame is Err,
    }
}

/// Makes a frame of what the encoder is given for it: the encoding of the
/// picture, by the encoder as it stands, or asked for a key frame first. There
/// is a frame exactly if the encoder makes something of the picture, and it is
/// marked as a key frame exactly if it is one. If a key frame was asked for, it
/// is one, unless the picture was left out and the frame has no data. The
/// counter goes on if there is a frame, and stays if the encoder refuses the
/// picture.
pub fn next_frame(
    encoder: &mut Encoder,
    counter: &mut FrameCounter,
    input: &FrameInput,
) -> (frame: Result<Frame, VideoError>)
    ensures
        is_frame_of(
            encoding(
                prepared(*old(encoder), input.force_key),
                yuv_bytes(input.yuv),
                yuv_size(input.yuv),
            ),
            frame,
        ),
        frame is Ok ==> final(counter).index == index_after(old(counter).index as int),
        frame is Err ==> *final(counter) == *old(counter),
        refused(yuv_size(input.yuv)) ==> frame is Err,
        frame matches Ok(made) ==> {
            &&& made.is_key == is_key_kind(last_picture(*final(encoder)).0)
            &&& made.data@ == last_picture(*final(encoder)).1
        },
        frame matches Ok(made) ==> input.force_key && made.data@.len() > 0 ==> made.is_key,
{
    if input.force_key {
        force_intra_frame(encoder);
    }
    let encoded = encode(encoder, &input.yuv);
    finish_frame(counter, encoded)
}

/// Ends a frame with what the encoder made of it. An encoded picture becomes a
/// frame, and the counter goes on; an error is handed on, and the counter stays.
pub fn finish_frame(
    counter: &mut FrameCounter,
    encoded: Result<Encoded, openh264::Error>,
) -> (frame: Result<Frame, VideoError>)
    ensures
        match encoded {
            Ok(picture) => {
                &&& frame is Ok
                &&& frame->Ok_0.is_key == is_key_kind(picture.kind)
                &&& frame->Ok_0.data == picture.data
                &&& final(counter).index == index_after(old(counter).index as int)
            },
            Err(error) => {
                &&& frame == Err::<Frame, VideoError>(VideoError::Codec(error))
                &&& *final(counter) == *old(counter)
            },
        },
{
    match encoded {
        Ok(picture) => {
            counter.advance();
            Ok(to_frame(picture))
        },
        Err(error) => Err(VideoError::Codec(error)),
    }
}

/// `frame` is what an encoder that stood at the frame with the number `index`
/// makes of rendered pixels: the encoding of the planes that they become, with a
/// key frame asked for where the number is a multiple of the interval.
pub open spec fn frame_shows<
    L: Fn(u8, u8, u8) -> u8,
    B: Fn(u8, u8, u8) -> u8,
    R: Fn(u8, u8, u8) -> u8,
>(
    encoder: Encoder,
    index: int,
    pixels: Seq<u8>,
    width: u32,
    height: u32,
    luma: L,
    blue: B,
    red: R,
    frame: Result<Frame, VideoError>,
) -> bool {
    exists|bytes: Seq<u8>|
        #[trigger] is_yuv(pixels, width as int, height as int, luma, blue, red, bytes)
            && is_frame_of(
            encoding(
                prepared(encoder, is_keyframe_index(index)),
                bytes,
                (width as usize, height as usize),
            ),
            frame,
        )
}

/// Law: where each of the three operations makes one value only of a colour, an
/// encoder makes the same frame of two pictures with the same colours.
pub proof fn frames_show_colours_only<
    L: Fn(u8, u8, u8) -> u8,
    B: Fn(u8, u8, u8) -> u8,
    R: Fn(u8, u8, u8) -> u8,
>(
    encoder: Encoder,
    index: int,
    pixels1: Seq<u8>,
    pixels2: Seq<u8>,
    width: u32,
    height: u32,
    luma: L,
    blue: B,
    red: R,
    frame1: Result<Frame, VideoError>,
    frame2: Result<Frame, VideoError>,
)
    requires
        width % 2 == 0,
        height % 2 == 0,
        makes_one_value(luma),
        makes_one_value(blue),
        makes_one_value(red),
        forall|pixel: int|
            0 <= pixel < width * height ==> #[trigger] colour(pixels1, pixel) == colour(
                pixels2,
                pixel,
            ),
        frame_shows(encoder, index, pixels1, width, height, luma, blue, red, frame1),
        frame_shows(encoder, index, pixels2, width, height, luma, blue, red, frame2),
    ensures
        frame1 is Ok <==> frame2 is Ok,
        frame1 is Ok ==> frame1->Ok_0.is_key == frame2->Ok_0.is_key,
        frame1 is Ok ==> frame1->Ok_0.data@ == frame2->Ok_0.data@,
{
    let w = width as int;
    let h = height as int;
    let asked = prepared(encoder, is_keyframe_index(index));
    let size = (width as usize, height as usize);
    let bytes1 = choose|bytes: Seq<u8>|
        #[trigger] is_yuv(pixels1, w, h, luma, blue, red, bytes) && is_frame_of(
            encoding(asked, bytes, size),
            frame1,
        );
    let bytes2 = choose|bytes: Seq<u8>|
        #[trigger] is_yuv(pixels2, w, h, luma, blue, red, bytes) && is_frame_of(
            encoding(asked, bytes, size),
            frame2,
        );
    planes_show_colours_only(pixels1, pixels2, w, h, luma, blue, red, bytes1, bytes2);
}

/// Makes the frame that `counter` stands at of rendered pixels. It is the
/// encoding of the planes that the pixels become, and there is one exactly if the
/// encoder makes something of them. Where the number of the frame is a multiple
/// of the interval it is a key frame, unless the encoder left the picture out and
/// the frame has no data.
pub fn make_frame<
    L: Fn(u8, u8, u8) -> u8,
    B: Fn(u8, u8, u8) -> u8,
    R: Fn(u8, u8, u8) -> u8,
>(
    encoder: &mut Encoder,
    counter: &mut FrameCounter,
    pixels: &[u8],
    width: u32,
    height: u32,
    luma: L,
    blue: B,
    red: R,
) -> (frame: Result<Frame, VideoError>)
    requires
        width % 2 == 0,
        height % 2 == 0,
        4 * (width * height) <= pixels@.len() + 1,
        forall|r: u8, g: u8, b: u8| call_requires(luma, (r, g, b)),
        forall|r: u8, g: u8, b: u8| call_requires(blue, (r, g, b)),
        forall|r: u8, g: u8, b: u8| call_requires(red, (r, g, b)),
    ensures
        frame_shows(
            *old(encoder),
            old(counter).index as int,
            pixels@,
            width,
            height,
            luma,
            blue,
            red,
            frame,
        ),
        frame is Ok ==> final(counter).index == index_after(old(counter).index as int),
        frame is Err ==> *final(counter) == *old(counter),
        refused((width as usize, height as usize)) ==> frame is Err,
        frame matches Ok(made) ==> {
            &&& made.is_key == is_key_kind(last_picture(*final(encoder)).0)
            &&& made.data@ == last_picture(*final(encoder)).1
        },
        frame matches Ok(made) ==> is_keyframe_index(old(counter).index as int)
            && made.data@.len() > 0 ==> made.is_key,
{
    let input = frame_input(counter, pixels, width, height, luma, blue, red);
    next_frame(encoder, counter, &input)
}

} // verus!
