//! The codec: packing a byte stream into a pixel grid, and unpacking it.

use crate::grid::{
    dimensions, get_pixel, grid_height, grid_samples, grid_width, new_grid, put_pixel,
    sample_offset, PixelGrid,
};
use crate::header::{decode_length, encode_length, lemma_be_value_of_bytes, MAX_LENGTH};
use crate::layout::{
    can_unpack, declared_length, group_at, is_packing_of, lemma_packed_samples, packed_samples,
    payload, supported,
};
use crate::sizing::{
    divide_rounding_up, grid_dimensions, height_for, lemma_ceil_div_is_least, lemma_grid_shape,
    lemma_xy_of, linear_to_xy, pixel_count, width_for,
};
use vstd::prelude::*;

verus! {

/// Why a byte stream could not be packed, or a grid not unpacked.
#[derive(Debug, Clone, Copy, PartialEq, Eq)]
pub enum CodecError {
    /// The grid has no header pixel, or its header declares more bytes than
    /// the pixels after it hold.
    MalformedGrid,
    /// The byte stream is longer than the header can say, or its grid is
    /// larger than this machine can address.
    UnsupportedInput,
}

/// The pixel for the group of bytes that begins at `start`: the bytes that
/// there are, up to four, then zero.
pub fn read_group(bytes: &[u8], start: usize) -> (channels: [u8; 4])
    ensures
        channels@ == group_at(bytes@, start as int),
{
    let n: usize = bytes.len();
    let left: usize = if start < n { n - start } else { 0 };
    let channels: [u8; 4] = [
        if left > 0 { bytes[start] } else { 0 },
        if left > 1 { bytes[start + 1] } else { 0 },
        if left > 2 { bytes[start + 2] } else { 0 },
        if left > 3 { bytes[start + 3] } else { 0 },
    ];
    assert(channels@ =~= group_at(bytes@, start as int));
    channels
}

/// The dimensions `(width, height)` of the grid that carries `n` bytes, or
/// the refusal of a byte count that is not `supported`.
pub fn packed_dimensions(n: usize) -> (r: Result<(u32, u32), CodecError>)
    ensures
        match r {
            Ok(d) => {
                &&& supported(n as nat)
                &&& d.0 == width_for(n as nat)
                &&& d.1 == height_for(n as nat)
            },
            Err(e) => !supported(n as nat) && e is UnsupportedInput,
        },
{
    if n > MAX_LENGTH as usize {
        return Err(CodecError::UnsupportedInput);
    }
    let (width, height) = grid_dimensions(n);
    proof {
        lemma_grid_shape(n as nat);
        assert(width * height <= 0xffff_ffff) by (nonlinear_arith)
            requires
                width * height < pixel_count(n as nat) + width,
                width <= pixel_count(n as nat),
                pixel_count(n as nat) <= 0x4000_0001,
        ;
        assert(4 * width * height == 4 * (width * height)) by (nonlinear_arith);
    }
    let samples: u64 = 4 * (width as u64 * height as u64);
    if samples > isize::MAX as u64 {
        return Err(CodecError::UnsupportedInput);
    }
    Ok((width as u32, height as u32))
}

/// Packs a byte stream into a pixel grid.
///
/// The grid has the dimensions that `width_for` and `height_for` give for
/// the byte count, and its samples are `packed_samples` of the bytes. A
/// stream whose length is not `supported` is refused.
pub fn pack(bytes: &[u8]) -> (r: Result<PixelGrid, CodecError>)
    ensures
        match r {
            Ok(grid) => supported(bytes@.len()) && is_packing_of(grid, bytes@),
            Err(e) => !supported(bytes@.len()) && e is UnsupportedInput,
        },
{
    let n: usize = bytes.len();
    let (width, height) = match packed_dimensions(n) {
        Ok(d) => d,
        Err(e) => {
            return Err(e);
        },
    };
    proof {
        lemma_grid_shape(n as nat);
        lemma_packed_samples(bytes@);
        lemma_be_value_of_bytes(n as nat);
        assert(4 * width * height == 4 * (width * height)) by (nonlinear_arith);
    }
    let mut grid = new_grid(width, height);
    put_pixel(&mut grid, 0, 0, encode_length(n as u32));
    let groups: usize = divide_rounding_up(n, 4);
    let mut k: usize = 0;
    while k < groups
        invariant
            k <= groups == pixel_count(n as nat) - 1,
            n == bytes@.len(),
            width == width_for(n as nat) == grid_width(grid),
            height == height_for(n as nat) == grid_height(grid),
            grid_samples(grid).len() == 4 * (width * height) == packed_samples(bytes@).len(),
            forall|i: int|
                0 <= i < 4 * (width * height) ==> #[trigger] grid_samples(grid)[i] == (if i < 4
                    + 4 * k {
                    packed_samples(bytes@)[i]
                } else {
                    0u8
                }),
        decreases groups - k,
    {
        let channels = read_group(bytes, 4 * k);
        let (x, y) = linear_to_xy(k + 1, width as usize);
        proof {
            lemma_grid_shape(n as nat);
            lemma_packed_samples(bytes@);
            lemma_xy_of(k + 1, width as int, height as int);
            assert(sample_offset(width as int, x as int, y as int) == 4 + 4 * k);
        }
        put_pixel(&mut grid, x as u32, y as u32, channels);
        k = k + 1;
    }
    assert(grid_samples(grid) =~= packed_samples(bytes@)) by {
        lemma_packed_samples(bytes@);
    }
    Ok(grid)
}

/// Unpacks the byte stream that a pixel grid carries.
///
/// Gives exactly the bytes that the header declares, read from the pixels
/// after the header in row-major order. A grid without a header pixel, or
/// with fewer pixels than the declared length needs, is refused.
pub fn unpack(grid: &PixelGrid) -> (r: Result<Vec<u8>, CodecError>)
    ensures
        match r {
            Ok(bytes) => can_unpack(grid_samples(*grid)) && bytes@ == payload(grid_samples(*grid)),
            Err(e) => !can_unpack(grid_samples(*grid)) && e is MalformedGrid,
        },
{
    let (width, height) = dimensions(grid);
    let ghost samples = grid_samples(*grid);
    if width == 0 || height == 0 {
        assert(4 * width * height == 0) by (nonlinear_arith)
            requires
                width == 0 || height == 0,
        ;
        return Err(CodecError::MalformedGrid);
    }
    proof {
        assert(1 <= width * height <= u64::MAX) by (nonlinear_arith)
            requires
                1 <= width <= u32::MAX,
                1 <= height <= u32::MAX,
        ;
        assert(4 * width * height == 4 * (width * height)) by (nonlinear_arith);
        lemma_xy_of(0, width as int, height as int);
    }
    let pixels: u64 = width as u64 * height as u64;
    let n: u32 = decode_length(get_pixel(grid, 0, 0));
    let groups: usize = divide_rounding_up(n as usize, 4);
    proof {
        lemma_ceil_div_is_least(n as int, 4);
        assert(n == declared_length(samples));
    }
    if groups as u64 > pixels - 1 {
        return Err(CodecError::MalformedGrid);
    }
    let mut bytes: Vec<u8> = Vec::new();
    let mut written: usize = 0;
    let mut idx: usize = 1;
    while written < n as usize
        invariant
            samples == grid_samples(*grid),
            samples.len() == 4 * (width * height),
            width == grid_width(*grid) >= 1,
            height == grid_height(*grid),
            4 + n <= samples.len(),
            written <= n,
            written == n || written == 4 * (idx - 1),
            idx >= 1,
            bytes@ == samples.subrange(4, 4 + written),
        decreases n - written,
    {
        let (x, y) = linear_to_xy(idx, width as usize);
        proof {
            lemma_xy_of(idx as int, width as int, height as int);
            assert(sample_offset(width as int, x as int, y as int) == 4 * idx);
        }
        let channels = get_pixel(grid, x as u32, y as u32);
        let left: usize = n as usize - written;
        let take: usize = if left < 4 { left } else { 4 };
        let mut c: usize = 0;
        while c < take
            invariant
                c <= take <= 4,
                4 * idx + 4 <= samples.len(),
                written == 4 * (idx - 1),
                channels@ == samples.subrange(4 * idx, 4 * idx + 4),
                bytes@ == samples.subrange(4, 4 + written + c),
            decreases take - c,
        {
            bytes.push(channels[c]);
            assert(channels@[c as int] == samples[4 * idx + c]);
            assert(bytes@ =~= samples.subrange(4, 4 + written + c + 1));
            c = c + 1;
        }
        written = written + take;
        idx = idx + 1;
    }
    Ok(bytes)
}

} // verus!
