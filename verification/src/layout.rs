//! How a byte stream lies on a pixel grid.
//!
//! The pixel at `(0, 0)` is the header: its four channels spell the byte
//! count. The bytes follow from the next pixel on, four to a pixel in
//! row-major order, and what is left of the grid is zero. Seen as samples,
//! a packed grid is the header, the bytes, and zeros.

use crate::grid::{
    fits_in_memory, grid_height, grid_samples, grid_width, pixel_at, sample_offset, well_formed,
    PixelGrid,
};
use crate::header::{be_bytes, be_value, lemma_be_value_of_bytes, MAX_LENGTH};
use crate::sizing::{height_for, lemma_grid_shape, lemma_xy_of, pixel_count, width_for, xy_of};
use vstd::prelude::*;

verus! {

/// The number of samples in the grid for a payload of `n` bytes.
pub open spec fn sample_count(n: nat) -> nat {
    4 * width_for(n) * height_for(n)
}

/// The samples of the grid that carries `bytes`: the length header, the
/// bytes themselves, then zeros to the end of the grid.
pub open spec fn packed_samples(bytes: Seq<u8>) -> Seq<u8> {
    let n = bytes.len();
    be_bytes(n) + bytes + Seq::new((sample_count(n) - 4 - n) as nat, |i: int| 0u8)
}

/// Whether a payload of `n` bytes can be packed: the header can say `n`, and
/// the grid fits in memory.
pub open spec fn supported(n: nat) -> bool {
    n <= MAX_LENGTH && fits_in_memory(width_for(n) as int, height_for(n) as int)
}

/// Whether `grid` is the grid that carries `bytes`.
pub open spec fn is_packing_of(grid: PixelGrid, bytes: Seq<u8>) -> bool {
    &&& grid_width(grid) == width_for(bytes.len())
    &&& grid_height(grid) == height_for(bytes.len())
    &&& grid_samples(grid) == packed_samples(bytes)
}

/// The four channels that carry the bytes from `start` on: the bytes that
/// there are, then zero.
pub open spec fn group_at(bytes: Seq<u8>, start: int) -> Seq<u8> {
    Seq::new(4, |c: int| if 0 <= start + c < bytes.len() { bytes[start + c] } else { 0u8 })
}

/// The byte count that the header pixel of a grid declares.
pub open spec fn declared_length(samples: Seq<u8>) -> nat
    recommends
        samples.len() >= 4,
{
    be_value(samples.subrange(0, 4))
}

/// Whether the samples are those of a grid that can be unpacked: there is a
/// header pixel, and the pixels after it hold as many bytes as it declares.
pub open spec fn can_unpack(samples: Seq<u8>) -> bool {
    samples.len() >= 4 && declared_length(samples) <= samples.len() - 4
}

/// The bytes that a grid carries: as many samples as the header declares,
/// from the second pixel on.
pub open spec fn payload(samples: Seq<u8>) -> Seq<u8>
    recommends
        can_unpack(samples),
{
    samples.subrange(4, 4 + declared_length(samples) as int)
}

/// The samples of a packed grid, one by one: four header bytes, the payload,
/// and zero from there on.
pub proof fn lemma_packed_samples(bytes: Seq<u8>)
    ensures
        sample_count(bytes.len()) >= 4 * pixel_count(bytes.len()) >= 4 + bytes.len(),
        packed_samples(bytes).len() == sample_count(bytes.len()),
        forall|i: int|
            0 <= i < 4 ==> #[trigger] packed_samples(bytes)[i] == be_bytes(bytes.len())[i],
        forall|i: int|
            4 <= i < 4 + bytes.len() ==> #[trigger] packed_samples(bytes)[i] == bytes[i - 4],
        forall|i: int|
            4 + bytes.len() <= i < sample_count(bytes.len())
                ==> #[trigger] packed_samples(bytes)[i] == 0,
{
    let n = bytes.len();
    lemma_grid_shape(n);
    assert(4 * width_for(n) * height_for(n) == 4 * (width_for(n) * height_for(n)))
        by (nonlinear_arith);
}

/// The header pixel of a packed grid spells the byte count, most
/// significant byte first, and so declares exactly that count.
pub proof fn lemma_header_declares_length(bytes: Seq<u8>)
    requires
        bytes.len() <= MAX_LENGTH,
    ensures
        packed_samples(bytes).subrange(0, 4) == be_bytes(bytes.len()),
        declared_length(packed_samples(bytes)) == bytes.len(),
{
    lemma_packed_samples(bytes);
    lemma_be_value_of_bytes(bytes.len());
    assert(packed_samples(bytes).subrange(0, 4) =~= be_bytes(bytes.len()));
}

/// A packed grid can be unpacked, and what it carries is the bytes that
/// were packed.
pub proof fn lemma_round_trip(bytes: Seq<u8>)
    requires
        bytes.len() <= MAX_LENGTH,
    ensures
        can_unpack(packed_samples(bytes)),
        payload(packed_samples(bytes)) == bytes,
{
    lemma_header_declares_length(bytes);
    lemma_packed_samples(bytes);
    assert(payload(packed_samples(bytes)) =~= bytes);
}

/// What unpacking finds in a grid that carries `bytes`: a header pixel that
/// spells the byte count, and the bytes themselves.
pub proof fn lemma_unpack_inverts_pack(grid: PixelGrid, bytes: Seq<u8>)
    requires
        bytes.len() <= MAX_LENGTH,
        is_packing_of(grid, bytes),
    ensures
        pixel_at(grid, 0, 0) == be_bytes(bytes.len()),
        be_value(pixel_at(grid, 0, 0)) == bytes.len(),
        can_unpack(grid_samples(grid)),
        payload(grid_samples(grid)) == bytes,
{
    lemma_header_declares_length(bytes);
    lemma_round_trip(bytes);
}

/// Packing is a function of the bytes alone: two grids that carry the same
/// bytes have the same dimensions and the same samples.
pub proof fn lemma_packing_is_unique(first: PixelGrid, second: PixelGrid, bytes: Seq<u8>)
    requires
        is_packing_of(first, bytes),
        is_packing_of(second, bytes),
    ensures
        grid_width(first) == grid_width(second),
        grid_height(first) == grid_height(second),
        grid_samples(first) == grid_samples(second),
{
}

/// The pixel at linear index `idx` of a packed grid: after the header, the
/// pixel at `k + 1` carries the `k`-th group of four bytes, the last group
/// filled up with zeros, and the pixels past the last group are zero.
pub proof fn lemma_packed_pixel(grid: PixelGrid, bytes: Seq<u8>, idx: int)
    requires
        is_packing_of(grid, bytes),
        1 <= idx < grid_width(grid) * grid_height(grid),
    ensures
        ({
            let (x, y) = xy_of(idx, grid_width(grid) as int);
            &&& 0 <= x < grid_width(grid)
            &&& 0 <= y < grid_height(grid)
            &&& pixel_at(grid, x, y) == group_at(bytes, 4 * (idx - 1))
        }),
{
    let width = grid_width(grid) as int;
    let height = grid_height(grid) as int;
    let (x, y) = xy_of(idx, width);
    lemma_grid_shape(bytes.len());
    lemma_xy_of(idx, width, height);
    lemma_packed_samples(bytes);
    assert(sample_offset(width, x, y) == 4 * idx);
    assert(4 * width * height == 4 * (width * height)) by (nonlinear_arith);
    assert(pixel_at(grid, x, y) =~= group_at(bytes, 4 * (idx - 1)));
}

/// The samples that unpacking reads: the header and the bytes that it
/// declares.
pub open spec fn read_part(samples: Seq<u8>) -> Seq<u8>
    recommends
        can_unpack(samples),
{
    samples.subrange(0, 4 + declared_length(samples) as int)
}

/// Unpacking reads no sample past the declared length: samples that begin
/// with what is read of a grid carry the same bytes as that grid, whatever
/// follows and whatever the shapes of the two grids.
pub proof fn lemma_payload_ignores_the_rest(first: Seq<u8>, second: Seq<u8>)
    requires
        can_unpack(first),
        read_part(first).is_prefix_of(second),
    ensures
        can_unpack(second),
        payload(second) == payload(first),
{
    let n = declared_length(first) as int;
    let common = read_part(first);
    assert(first.subrange(0, 4) =~= common.subrange(0, 4));
    assert(second.subrange(0, 4) =~= common.subrange(0, 4));
    assert(first.subrange(4, 4 + n) =~= common.subrange(4, 4 + n));
    assert(second.subrange(4, 4 + n) =~= common.subrange(4, 4 + n));
}

/// The `j`-th byte that a grid carries is channel `j % 4` of the pixel at
/// linear index `1 + j / 4`.
pub proof fn lemma_payload_byte(grid: PixelGrid, j: int)
    requires
        well_formed(grid),
        grid_width(grid) > 0,
        can_unpack(grid_samples(grid)),
        0 <= j < declared_length(grid_samples(grid)),
    ensures
        ({
            let (x, y) = xy_of(1 + j / 4, grid_width(grid) as int);
            &&& 0 <= x < grid_width(grid)
            &&& 0 <= y < grid_height(grid)
            &&& payload(grid_samples(grid))[j] == pixel_at(grid, x, y)[j % 4]
        }),
{
    let width = grid_width(grid) as int;
    let height = grid_height(grid) as int;
    let idx = 1 + j / 4;
    let (x, y) = xy_of(idx, width);
    assert(4 * width * height == 4 * (width * height)) by (nonlinear_arith);
    lemma_xy_of(idx, width, height);
    assert(sample_offset(width, x, y) == 4 * idx);
}

/// Where `isize` has 64 bits, every byte count that the header can say is
/// supported.
pub proof fn lemma_supported_on_64_bits(n: nat)
    requires
        n <= MAX_LENGTH,
        isize::MAX >= 0x7fff_ffff_ffff_ffff,
    ensures
        supported(n),
{
    lemma_grid_shape(n);
    let w = width_for(n);
    let h = height_for(n);
    assert(4 * w * h <= isize::MAX) by (nonlinear_arith)
        requires
            w * h < pixel_count(n) + w,
            w <= pixel_count(n),
            pixel_count(n) <= 0x4000_0001,
            isize::MAX >= 0x7fff_ffff_ffff_ffff,
    ;
}

} // verus!
