use png_smuggler::codec::{pack, packed_dimensions, read_group, unpack, CodecError};
use png_smuggler::grid::PixelGrid;

/// The channel values of a grid, pixel after pixel in row-major order.
fn samples_of(grid: &PixelGrid) -> Vec<u8> {
    let mut samples = Vec::new();
    for y in 0..grid.height() {
        for x in 0..grid.width() {
            samples.extend_from_slice(&grid.pixel(x, y).unwrap());
        }
    }
    samples
}

/// A grid of the given width whose pixels are `pixels`, in row-major order.
fn grid_of(width: u32, pixels: &[[u8; 4]]) -> PixelGrid {
    let height = pixels.len() as u32 / width;
    assert_eq!((width * height) as usize, pixels.len());
    let mut grid = PixelGrid::new(width, height).unwrap();
    for (idx, px) in pixels.iter().enumerate() {
        assert!(grid.set_pixel(idx as u32 % width, idx as u32 / width, *px));
    }
    grid
}

/// Bytes that do not repeat with any short period and are never all zero.
fn sample_bytes(n: usize) -> Vec<u8> {
    let mut state: u32 = 0x2545_f491;
    let mut bytes = Vec::with_capacity(n);
    for _ in 0..n {
        state = state.wrapping_mul(1_103_515_245).wrapping_add(12_345);
        bytes.push((state >> 16) as u8 | 1);
    }
    bytes
}

#[test]
fn read_group_takes_four_bytes() {
    let bytes = [1, 2, 3, 4, 5, 6, 7, 8, 9];
    assert_eq!(read_group(&bytes, 0), [1, 2, 3, 4]);
    assert_eq!(read_group(&bytes, 4), [5, 6, 7, 8]);
    assert_eq!(read_group(&bytes, 1), [2, 3, 4, 5]);
}

#[test]
fn read_group_fills_a_short_group_with_zeros() {
    let bytes = [1, 2, 3, 4, 5, 6, 7];
    assert_eq!(read_group(&bytes, 4), [5, 6, 7, 0]);
    assert_eq!(read_group(&bytes, 5), [6, 7, 0, 0]);
    assert_eq!(read_group(&bytes, 6), [7, 0, 0, 0]);
}

#[test]
fn read_group_past_the_end_is_zero() {
    let bytes = [1, 2, 3];
    assert_eq!(read_group(&bytes, 3), [0, 0, 0, 0]);
    assert_eq!(read_group(&bytes, 100), [0, 0, 0, 0]);
    assert_eq!(read_group(&bytes, usize::MAX), [0, 0, 0, 0]);
    assert_eq!(read_group(&[], 0), [0, 0, 0, 0]);
}

#[test]
fn round_trip_of_the_empty_stream() {
    let grid = pack(&[]).unwrap();
    assert_eq!(unpack(&grid), Ok(vec![]));
}

#[test]
fn round_trip_of_one_to_three_bytes() {
    for n in 1..=3 {
        let bytes = sample_bytes(n);
        let grid = pack(&bytes).unwrap();
        assert_eq!(unpack(&grid), Ok(bytes));
    }
}

#[test]
fn round_trip_of_whole_groups() {
    for n in [4usize, 8, 12, 16, 64, 100, 256] {
        let bytes = sample_bytes(n);
        let grid = pack(&bytes).unwrap();
        assert_eq!(unpack(&grid), Ok(bytes));
    }
}

#[test]
fn round_trip_of_every_short_length() {
    for n in 0..300 {
        let bytes = sample_bytes(n);
        let grid = pack(&bytes).unwrap();
        assert_eq!(unpack(&grid), Ok(bytes));
    }
}

#[test]
fn round_trip_of_a_stream_spanning_many_rows() {
    let bytes = sample_bytes(100_003);
    let grid = pack(&bytes).unwrap();
    assert!(grid.width() > 1);
    assert!(grid.height() > 1);
    assert_eq!(unpack(&grid), Ok(bytes));
}

#[test]
fn round_trip_keeps_zero_bytes_and_trailing_zeros() {
    for bytes in [vec![0u8], vec![0, 0, 0], vec![1, 0], vec![0, 0, 0, 0, 0], vec![9, 0, 0, 0, 0, 0, 0]] {
        let grid = pack(&bytes).unwrap();
        assert_eq!(unpack(&grid), Ok(bytes));
    }
}

#[test]
fn header_pixel_holds_the_length_big_endian() {
    for n in [0usize, 1, 3, 4, 100, 255, 256, 257, 65_536, 70_000] {
        let grid = pack(&sample_bytes(n)).unwrap();
        let header = grid.pixel(0, 0).unwrap();
        assert_eq!(u32::from_be_bytes(header) as usize, n);
    }
}

#[test]
fn header_pixel_of_a_known_length() {
    let grid = pack(&sample_bytes(0x0001_0203)).unwrap();
    assert_eq!(grid.pixel(0, 0), Some([0x00, 0x01, 0x02, 0x03]));
}

#[test]
fn sizing_of_an_empty_stream_is_one_by_one() {
    let grid = pack(&[]).unwrap();
    assert_eq!((grid.width(), grid.height()), (1, 1));
    assert_eq!(samples_of(&grid), vec![0, 0, 0, 0]);
}

#[test]
fn sizing_of_four_bytes_is_one_by_two() {
    let grid = pack(&[1, 2, 3, 4]).unwrap();
    assert_eq!((grid.width(), grid.height()), (1, 2));
    assert_eq!(samples_of(&grid), vec![0, 0, 0, 4, 1, 2, 3, 4]);
}

#[test]
fn sizing_of_a_hundred_bytes_is_five_by_six() {
    let grid = pack(&sample_bytes(100)).unwrap();
    assert_eq!((grid.width(), grid.height()), (5, 6));
}

#[test]
fn sizing_follows_the_policy_for_every_short_length() {
    for n in 0usize..2000 {
        let grid = pack(&sample_bytes(n)).unwrap();
        let pixels = 1 + (n + 3) / 4;
        let width = (pixels as f64).sqrt() as usize;
        let height = (pixels + width - 1) / width;
        assert_eq!((grid.width() as usize, grid.height() as usize), (width, height));
    }
}

#[test]
fn sizing_depends_on_the_length_alone() {
    let a = pack(&vec![0u8; 77]).unwrap();
    let b = pack(&sample_bytes(77)).unwrap();
    assert_eq!((a.width(), a.height()), (b.width(), b.height()));
}

#[test]
fn zero_fill_of_a_single_byte() {
    let grid = pack(&[0xab]).unwrap();
    assert_eq!((grid.width(), grid.height()), (1, 2));
    assert_eq!(grid.pixel(0, 0), Some([0, 0, 0, 1]));
    assert_eq!(grid.pixel(0, 1), Some([0xab, 0, 0, 0]));
    assert_eq!(unpack(&grid), Ok(vec![0xab]));
}

#[test]
fn zero_fill_of_two_and_three_bytes() {
    let grid = pack(&[7, 8]).unwrap();
    assert_eq!(grid.pixel(0, 1), Some([7, 8, 0, 0]));
    let grid = pack(&[7, 8, 9]).unwrap();
    assert_eq!(grid.pixel(0, 1), Some([7, 8, 9, 0]));
}

#[test]
fn zero_fill_of_the_last_group_only() {
    let grid = pack(&[1, 2, 3, 4, 5, 6]).unwrap();
    assert_eq!((grid.width(), grid.height()), (1, 3));
    assert_eq!(samples_of(&grid), vec![0, 0, 0, 6, 1, 2, 3, 4, 5, 6, 0, 0]);
}

#[test]
fn pixels_past_the_payload_are_zero() {
    let bytes = sample_bytes(100);
    let grid = pack(&bytes).unwrap();
    let samples = samples_of(&grid);
    assert_eq!(samples.len(), 4 * 5 * 6);
    assert_eq!(&samples[..4], &[0, 0, 0, 100]);
    assert_eq!(&samples[4..104], &bytes[..]);
    assert!(samples[104..].iter().all(|&s| s == 0));
}

#[test]
fn groups_are_laid_out_row_by_row() {
    // 12 bytes take 4 pixels on a grid of 2 by 2.
    let bytes: Vec<u8> = (1..=12).collect();
    let grid = pack(&bytes).unwrap();
    assert_eq!((grid.width(), grid.height()), (2, 2));
    assert_eq!(grid.pixel(0, 0), Some([0, 0, 0, 12]));
    assert_eq!(grid.pixel(1, 0), Some([1, 2, 3, 4]));
    assert_eq!(grid.pixel(0, 1), Some([5, 6, 7, 8]));
    assert_eq!(grid.pixel(1, 1), Some([9, 10, 11, 12]));
}

#[test]
fn packing_twice_gives_identical_grids() {
    for n in [0usize, 1, 5, 100, 4097] {
        let bytes = sample_bytes(n);
        let first = pack(&bytes).unwrap();
        let second = pack(&bytes).unwrap();
        assert_eq!(first, second);
        assert_eq!(samples_of(&first), samples_of(&second));
    }
}

#[test]
fn unpack_rejects_a_header_beyond_the_capacity() {
    // One header pixel and one payload pixel hold four bytes, not five.
    let grid = grid_of(1, &[[0, 0, 0, 5], [1, 2, 3, 4]]);
    assert_eq!(unpack(&grid), Err(CodecError::MalformedGrid));
}

#[test]
fn unpack_rejects_a_header_with_no_payload_pixel() {
    let grid = grid_of(1, &[[0, 0, 0, 1]]);
    assert_eq!(unpack(&grid), Err(CodecError::MalformedGrid));
}

#[test]
fn unpack_rejects_a_huge_declared_length() {
    let grid = grid_of(2, &[[255, 255, 255, 255], [1, 2, 3, 4], [5, 6, 7, 8], [9, 9, 9, 9]]);
    assert_eq!(unpack(&grid), Err(CodecError::MalformedGrid));
    let grid = grid_of(2, &[[1, 0, 0, 0], [1, 2, 3, 4], [5, 6, 7, 8], [9, 9, 9, 9]]);
    assert_eq!(unpack(&grid), Err(CodecError::MalformedGrid));
}

#[test]
fn unpack_rejects_a_grid_without_pixels() {
    assert_eq!(unpack(&PixelGrid::new(0, 0).unwrap()), Err(CodecError::MalformedGrid));
    assert_eq!(unpack(&PixelGrid::new(0, 3).unwrap()), Err(CodecError::MalformedGrid));
    assert_eq!(unpack(&PixelGrid::new(3, 0).unwrap()), Err(CodecError::MalformedGrid));
}

#[test]
fn unpack_rejects_a_truncated_grid() {
    // What `pack` makes of 9 bytes, with the last row cut off.
    let whole = pack(&[1, 2, 3, 4, 5, 6, 7, 8, 9]).unwrap();
    assert_eq!((whole.width(), whole.height()), (2, 2));
    let cut = grid_of(2, &[whole.pixel(0, 0).unwrap(), whole.pixel(1, 0).unwrap()]);
    assert_eq!(unpack(&cut), Err(CodecError::MalformedGrid));
}

#[test]
fn unpack_accepts_a_header_that_fills_the_capacity() {
    let grid = grid_of(1, &[[0, 0, 0, 8], [1, 2, 3, 4], [5, 6, 7, 8]]);
    assert_eq!(unpack(&grid), Ok(vec![1, 2, 3, 4, 5, 6, 7, 8]));
    let grid = grid_of(1, &[[0, 0, 0, 9], [1, 2, 3, 4], [5, 6, 7, 8]]);
    assert_eq!(unpack(&grid), Err(CodecError::MalformedGrid));
}

#[test]
fn unpack_of_a_zero_header_is_empty_whatever_follows() {
    let grid = grid_of(2, &[[0, 0, 0, 0], [1, 2, 3, 4], [5, 6, 7, 8], [9, 9, 9, 9]]);
    assert_eq!(unpack(&grid), Ok(vec![]));
}

#[test]
fn unpack_trims_by_the_header_and_not_by_zeros() {
    // The header says 2: the rest of the pixel and the pixels after it are not read.
    let grid = grid_of(2, &[[0, 0, 0, 2], [1, 2, 3, 4], [5, 6, 7, 8], [9, 9, 9, 9]]);
    assert_eq!(unpack(&grid), Ok(vec![1, 2]));
    // The header says 6: zero bytes inside the payload are data.
    let grid = grid_of(2, &[[0, 0, 0, 6], [0, 0, 0, 0], [0, 0, 7, 8], [9, 9, 9, 9]]);
    assert_eq!(unpack(&grid), Ok(vec![0, 0, 0, 0, 0, 0]));
}

#[test]
fn unpack_reads_rows_before_columns() {
    let grid = grid_of(
        3,
        &[[0, 0, 0, 20], [1, 1, 1, 1], [2, 2, 2, 2], [3, 3, 3, 3], [4, 4, 4, 4], [5, 5, 5, 5]],
    );
    assert_eq!(
        unpack(&grid),
        Ok(vec![1, 1, 1, 1, 2, 2, 2, 2, 3, 3, 3, 3, 4, 4, 4, 4, 5, 5, 5, 5])
    );
}

#[test]
fn unpack_works_on_a_grid_of_another_shape() {
    // The sizing policy gives 1 by 3 for 8 bytes; a grid of 3 by 1 carries them as well.
    let grid = grid_of(3, &[[0, 0, 0, 8], [1, 2, 3, 4], [5, 6, 7, 8]]);
    assert_eq!(unpack(&grid), Ok(vec![1, 2, 3, 4, 5, 6, 7, 8]));
}

#[test]
fn packed_dimensions_refuse_a_length_that_the_header_cannot_say() {
    if usize::BITS > 32 {
        let too_long = (u32::MAX as usize).wrapping_add(1);
        assert_eq!(packed_dimensions(too_long), Err(CodecError::UnsupportedInput));
        assert_eq!(packed_dimensions(too_long + 12_345), Err(CodecError::UnsupportedInput));
        assert_eq!(packed_dimensions(usize::MAX), Err(CodecError::UnsupportedInput));
    }
}

#[test]
fn packed_dimensions_accept_the_longest_length() {
    if usize::BITS > 32 {
        assert_eq!(packed_dimensions(u32::MAX as usize), Ok((32768, 32769)));
    }
}

#[test]
fn packed_dimensions_are_those_of_the_packed_grid() {
    assert_eq!(packed_dimensions(0), Ok((1, 1)));
    assert_eq!(packed_dimensions(4), Ok((1, 2)));
    assert_eq!(packed_dimensions(100), Ok((5, 6)));
    for n in 0usize..500 {
        let grid = pack(&sample_bytes(n)).unwrap();
        assert_eq!(packed_dimensions(n), Ok((grid.width(), grid.height())));
    }
}

#[test]
fn packed_grid_survives_a_png_in_memory() {
    let bytes = sample_bytes(1000);
    let grid = pack(&bytes).unwrap();
    let mut png = Vec::new();
    image::png::PngEncoder::new(&mut png)
        .encode(&samples_of(&grid), grid.width(), grid.height(), image::ColorType::Rgba8)
        .unwrap();
    let loaded = image::load_from_memory(&png).unwrap().to_rgba8();
    let mut back = PixelGrid::new(loaded.width(), loaded.height()).unwrap();
    for (x, y, px) in loaded.enumerate_pixels() {
        assert!(back.set_pixel(x, y, px.0));
    }
    assert_eq!(back, grid);
    assert_eq!(unpack(&back), Ok(bytes));
}
