//! Reading a rendered picture back from the device: rows there are padded.

use vstd::prelude::*;

verus! {

/// `wgpu::COPY_BYTES_PER_ROW_ALIGNMENT`: rows that are copied out of a texture
/// start at multiples of 256 bytes.
#[verifier::external_body]
fn copy_row_alignment() -> (alignment: u32)
    ensures
        alignment == 256,
{
    wgpu::COPY_BYTES_PER_ROW_ALIGNMENT
}

/// The number of bytes of a row of pixels.
pub open spec fn row_bytes(width: int) -> int {
    4 * width
}

/// The least multiple of `alignment` that is not below `bytes`.
pub open spec fn padded(bytes: int, alignment: int) -> int {
    ((bytes + alignment - 1) / alignment) * alignment
}

/// Law: padding reaches the next multiple of the alignment and goes no further.
pub proof fn padded_is_next_multiple(bytes: int, alignment: int)
    requires
        0 <= bytes,
        0 < alignment,
    ensures
        padded(bytes, alignment) % alignment == 0,
        bytes <= padded(bytes, alignment) < bytes + alignment,
{
    let count = (bytes + alignment - 1) / alignment;
    vstd::arithmetic::div_mod::lemma_mod_multiples_basic(count, alignment);
    vstd::arithmetic::div_mod::lemma_fundamental_div_mod(bytes + alignment - 1, alignment);
    vstd::arithmetic::mul::lemma_mul_is_commutative(count, alignment);
}

/// Law: a row whose length is a multiple of the alignment gets no padding.
pub proof fn aligned_row_is_not_padded(bytes: int, alignment: int)
    requires
        0 <= bytes,
        0 < alignment,
        bytes % alignment == 0,
    ensures
        padded(bytes, alignment) == bytes,
{
    padded_is_next_multiple(bytes, alignment);
    let gap = padded(bytes, alignment) - bytes;
    vstd::arithmetic::div_mod::lemma_sub_mod_noop(padded(bytes, alignment), bytes, alignment);
    vstd::arithmetic::div_mod::lemma_small_mod(0, alignment as nat);
    vstd::arithmetic::div_mod::lemma_small_mod(gap as nat, alignment as nat);
}

/// The least multiple of `alignment` that is not below `bytes`.
pub fn pad_row(bytes: u32, alignment: u32) -> (row: u32)
    requires
        0 < alignment,
        padded(bytes as int, alignment as int) <= u32::MAX,
    ensures
        row == padded(bytes as int, alignment as int),
{
    let whole = bytes / alignment;
    let part = bytes % alignment;
    proof {
        let b = bytes as int;
        let a = alignment as int;
        vstd::arithmetic::div_mod::lemma_fundamental_div_mod(b, a);
        vstd::arithmetic::mul::lemma_mul_is_commutative(a, whole as int);
        vstd::arithmetic::mul::lemma_mul_is_distributive_add_other_way(a, whole as int, 1);
        if part == 0 {
            vstd::arithmetic::div_mod::lemma_fundamental_div_mod_converse(
                b + a - 1,
                a,
                whole as int,
                a - 1,
            );
        } else {
            vstd::arithmetic::div_mod::lemma_fundamental_div_mod_converse(
                b + a - 1,
                a,
                whole + 1,
                part - 1,
            );
        }
    }
    if part == 0 {
        whole * alignment
    } else {
        proof {
            assert(whole + 1 <= u32::MAX) by (nonlinear_arith)
                requires
                    (whole + 1) * alignment <= u32::MAX,
                    alignment > 0,
            ;
        }
        (whole + 1) * alignment
    }
}

/// The shape of the buffer that a picture is copied into.
#[derive(Clone, Copy, Debug, PartialEq, Eq)]
pub struct ReadbackLayout {
    pub bytes_per_row: u32,
    pub size: u64,
}

/// The number of bytes from one row to the next in a copied picture.
pub open spec fn copied_row_bytes(width: int) -> int {
    padded(row_bytes(width), 256)
}

/// The buffer that a picture of this size is copied into: as many rows as the
/// picture is high, each padded as the device wants it.
pub fn readback_layout(width: u32, height: u32) -> (layout: ReadbackLayout)
    requires
        copied_row_bytes(width as int) <= u32::MAX,
        copied_row_bytes(width as int) * height <= u32::MAX,
    ensures
        layout.bytes_per_row == copied_row_bytes(width as int),
        layout.size == copied_row_bytes(width as int) * height,
{
    proof {
        padded_is_next_multiple(row_bytes(width as int), 256);
    }
    let bytes_per_row = pad_row(width * 4, copy_row_alignment());
    ReadbackLayout { bytes_per_row, size: (bytes_per_row * height) as u64 }
}

/// The pixels of a picture whose rows stand `stride` bytes apart in `data`.
pub open spec fn picture(data: Seq<u8>, width: int, height: int, stride: int) -> Seq<u8> {
    Seq::new(
        (row_bytes(width) * height) as nat,
        |i: int| data[(i / row_bytes(width)) * stride + i % row_bytes(width)],
    )
}

/// The pixels of a picture, without the padding of its rows.
pub fn strip_padding(data: &[u8], width: usize, height: usize, stride: usize) -> (pixels: Vec<u8>)
    requires
        row_bytes(width as int) <= usize::MAX,
        height > 0 ==> (height - 1) * stride + row_bytes(width as int) <= data@.len(),
    ensures
        pixels@ == picture(data@, width as int, height as int, stride as int),
{
    let mut pixels: Vec<u8> = Vec::new();
    let row_len: usize = width * 4;
    let ghost all = picture(data@, width as int, height as int, stride as int);
    let mut row: usize = 0;
    proof {
        vstd::arithmetic::mul::lemma_mul_nonnegative(row_len as int, height as int);
        assert(row_len * 0 == 0);
    }
    while row < height
        invariant
            row <= height,
            row_len == row_bytes(width as int),
            height > 0 ==> (height - 1) * stride + row_len <= data@.len(),
            pixels@.len() == row_len * row,
            all == picture(data@, width as int, height as int, stride as int),
            all.len() == row_len * height,
            forall|i: int| 0 <= i < pixels@.len() ==> #[trigger] pixels@[i] == all[i],
        decreases height - row,
    {
        proof {
            assert(row * stride <= (height - 1) * stride) by (nonlinear_arith)
                requires
                    row <= height - 1,
                    0 <= stride,
            ;
            assert(0 <= row * stride) by (nonlinear_arith);
            assert(row_len * (row + 1) == row_len * row + row_len) by (nonlinear_arith);
            assert(row_len * (row + 1) <= row_len * height) by (nonlinear_arith)
                requires
                    row + 1 <= height,
                    0 <= row_len,
            ;
        }
        assert(data@.len() == data.len());
        let start: usize = row * stride;
        let ghost before = pixels@;
        pixels.extend_from_slice(vstd::slice::slice_subrange(data, start, start + row_len));
        proof {
            assert forall|i: int| 0 <= i < pixels@.len() implies #[trigger] pixels@[i] == all[i] by {
                if i < before.len() {
                    assert(pixels@[i] == before[i]);
                } else {
                    let column = i - row_len * row;
                    vstd::arithmetic::mul::lemma_mul_is_commutative(row_len as int, row as int);
                    vstd::arithmetic::div_mod::lemma_fundamental_div_mod_converse(
                        i,
                        row_len as int,
                        row as int,
                        column,
                    );
                    assert(pixels@[i] == data@[start + column]);
                }
            }
        }
        row += 1;
    }
    proof {
        assert(pixels@ =~= all);
    }
    pixels
}

/// Law: a picture whose rows are not padded is all of its data.
pub proof fn unpadded_picture_is_its_data(data: Seq<u8>, width: int, height: int)
    requires
        0 < width,
        0 <= height,
        data.len() == row_bytes(width) * height,
    ensures
        picture(data, width, height, row_bytes(width)) == data,
{
    let row = row_bytes(width);
    assert forall|i: int| 0 <= i < data.len() implies picture(data, width, height, row)[i]
        == data[i] by {
        vstd::arithmetic::div_mod::lemma_fundamental_div_mod(i, row);
        vstd::arithmetic::mul::lemma_mul_is_commutative(row, i / row);
    }
    assert(picture(data, width, height, row) =~= data);
}

/// Law: what stands in the padding of a row does not show in the picture.
pub proof fn padding_does_not_show(
    data1: Seq<u8>,
    data2: Seq<u8>,
    width: int,
    height: int,
    stride: int,
)
    requires
        0 <= width,
        0 <= height,
        forall|row: int, column: int|
            #![trigger data1[row * stride + column]]
            0 <= row < height && 0 <= column < row_bytes(width) ==> data1[row * stride + column]
                == data2[row * stride + column],
    ensures
        picture(data1, width, height, stride) == picture(data2, width, height, stride),
{
    let len = row_bytes(width);
    let p1 = picture(data1, width, height, stride);
    let p2 = picture(data2, width, height, stride);
    assert forall|i: int| 0 <= i < p1.len() implies p1[i] == p2[i] by {
        assert(len > 0 && 0 <= i / len < height && 0 <= i % len < len) by (nonlinear_arith)
            requires
                0 <= i < len * height,
                0 <= len,
                0 <= height,
        ;
        assert(data1[(i / len) * stride + i % len] == data2[(i / len) * stride + i % len]);
    }
    assert(p1 =~= p2);
}

} // verus!
