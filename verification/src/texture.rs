//! Pixel buffers for tiles cut out of a texture atlas.

use vstd::prelude::*;

verus! {

/// A buffer of `size` zero bytes.
pub fn zeros(size: usize) -> (buffer: Vec<u8>)
    ensures
        buffer@ == Seq::new(size as nat, |i: int| 0u8),
{
    let mut zero_vec: Vec<u8> = Vec::with_capacity(size);
    let mut i: usize = 0;
    while i < size
        invariant
            i <= size,
            zero_vec@ == Seq::new(i as nat, |k: int| 0u8),
        decreases size - i,
    {
        zero_vec.push(0);
        assert(zero_vec@ =~= Seq::new((i + 1) as nat, |k: int| 0u8));
        i += 1;
    }
    zero_vec
}

/// Number of tiles that the index into the atlas runs over.
pub const ATLAS_TILES: i64 = 32 * 32;

/// The step through the atlas that the arrow keys ask for: a row of 32
/// tiles down or up, or one tile left or right. Where several keys are
/// pressed, right goes before left, left before up and up before down.
pub open spec fn atlas_step_for(down: bool, up: bool, left: bool, right: bool) -> int {
    if right {
        1
    } else if left {
        -1
    } else if up {
        -32
    } else if down {
        32
    } else {
        0
    }
}

/// The step through the atlas that the arrow keys ask for.
pub fn atlas_step(down: bool, up: bool, left: bool, right: bool) -> (inc: i64)
    ensures
        inc == atlas_step_for(down, up, left, right),
{
    let mut inc: i64 = 0;
    if down {
        inc = 32;
    }
    if up {
        inc = -32;
    }
    if left {
        inc = -1;
    }
    if right {
        inc = 1;
    }
    inc
}

/// The index into the atlas after a step of `inc` tiles from `index`: 0
/// where the step leads below the first tile, otherwise the place reached,
/// counted round the `ATLAS_TILES` tiles of the atlas.
pub fn next_atlas_index(index: usize, inc: i64) -> (next: usize)
    requires
        index <= i64::MAX,
        i64::MIN <= index + inc <= i64::MAX,
    ensures
        next == if index + inc < 0 {
            0
        } else {
            (index + inc) % 1024
        },
{
    let new_index: i64 = index as i64 + inc;
    if new_index < 0 {
        0
    } else {
        (new_index % ATLAS_TILES) as usize
    }
}

/// `buffer` with `patch` written over it from `offset` on.
pub open spec fn overwritten(buffer: Seq<u8>, offset: int, patch: Seq<u8>) -> Seq<u8> {
    Seq::new(
        buffer.len(),
        |k: int|
            if offset <= k < offset + patch.len() {
                patch[k - offset]
            } else {
                buffer[k]
            },
    )
}

/// Bytes per pixel of the buffers: four channels of one byte each.
pub const FORMAT_SIZE: usize = 4;

/// Number of rows from `min_y` up to, not including, `max_y`.
pub open spec fn row_count(min_y: usize, max_y: usize) -> nat {
    if min_y <= max_y {
        (max_y - min_y) as nat
    } else {
        0
    }
}

/// Whether the rows from `min_y` to `max_y` can be copied: the source holds
/// that many rows, and the target holds them from the place of the pixel
/// in column `min_x` of row `min_y` on.
pub open spec fn rows_fit(
    target_len: nat,
    source_len: nat,
    min_x: usize,
    min_y: usize,
    max_y: usize,
    row_pixels: usize,
) -> bool {
    row_count(min_y, max_y) > 0 ==> {
        &&& row_count(min_y, max_y) * row_pixels * FORMAT_SIZE <= source_len
        &&& (min_y * row_pixels + min_x) * FORMAT_SIZE + row_count(min_y, max_y) * row_pixels
            * FORMAT_SIZE <= target_len
    }
}

/// Copies the rows of a tile into a pixel buffer. A row has `row_pixels`
/// pixels of four bytes. Row after row is taken from the start of `data`
/// and written to `image_data`, the first at the place of the pixel in
/// column `min_x` of row `min_y`, each further one a row below.
pub fn copy_rows(
    image_data: &mut Vec<u8>,
    data: &Vec<u8>,
    min_x: usize,
    min_y: usize,
    max_y: usize,
    row_pixels: usize,
)
    requires
        rows_fit(old(image_data)@.len(), data@.len(), min_x, min_y, max_y, row_pixels),
    ensures
        final(image_data)@ == overwritten(
            old(image_data)@,
            (min_y * row_pixels + min_x) * FORMAT_SIZE,
            data@.take(row_count(min_y, max_y) * row_pixels * FORMAT_SIZE),
        ),
{
    let ghost before = image_data@;
    let ghost base = (min_y * row_pixels + min_x) * 4;
    let ghost row_bytes = row_pixels * 4;
    let ghost rows = row_count(min_y, max_y) as int;
    if min_y >= max_y {
        assert(rows * row_pixels * 4 == 0) by (nonlinear_arith)
            requires
                rows == 0,
        ;
        assert(image_data@ =~= overwritten(before, base, data@.take(0)));
        return ;
    }
    let mut texture_y: usize = 0;
    let mut bound_y: usize = min_y;
    assert(before.len() <= usize::MAX && data@.len() <= usize::MAX) by {
        assert(image_data.len() == before.len());
        assert(data.len() == data@.len());
    }
    assert(rows * row_pixels * 4 == rows * row_bytes) by (nonlinear_arith)
        requires
            row_bytes == row_pixels * 4,
    ;
    while bound_y < max_y
        invariant
            min_y < max_y,
            rows == max_y - min_y,
            min_y <= bound_y <= max_y,
            texture_y == bound_y - min_y,
            base == (min_y * row_pixels + min_x) * 4,
            row_bytes == row_pixels * 4,
            rows * row_bytes <= data@.len(),
            base + rows * row_bytes <= before.len(),
            before.len() <= usize::MAX,
            data@.len() <= usize::MAX,
            image_data@.len() == before.len(),
            image_data@ == overwritten(before, base, data@.take(texture_y * row_bytes)),
        decreases max_y - bound_y,
    {
        proof {
            lemma_row_places(
                min_x as int,
                min_y as int,
                texture_y as int,
                rows,
                row_pixels as int,
            );
        }
        let begin: usize = (bound_y * row_pixels + min_x) * FORMAT_SIZE;
        let texture_begin: usize = texture_y * row_pixels * FORMAT_SIZE;
        let width: usize = row_pixels * FORMAT_SIZE;
        let mut k: usize = 0;
        while k < width
            invariant
                k <= width,
                width == row_bytes,
                begin == base + texture_y * row_bytes,
                texture_begin == texture_y * row_bytes,
                texture_begin + width <= data@.len(),
                begin + width <= before.len(),
                before.len() <= usize::MAX,
                data@.len() <= usize::MAX,
                image_data@.len() == before.len(),
                image_data@ == overwritten(before, base, data@.take(texture_begin + k)),
            decreases width - k,
        {
            image_data[begin + k] = data[texture_begin + k];
            assert(image_data@ =~= overwritten(before, base, data@.take(texture_begin + k + 1)));
            k += 1;
        }
        assert((texture_y + 1) * row_bytes == texture_y * row_bytes + row_bytes)
            by (nonlinear_arith);
        texture_y += 1;
        bound_y += 1;
    }
    assert(texture_y * row_bytes == rows * row_pixels * 4) by (nonlinear_arith)
        requires
            texture_y == rows,
            row_bytes == row_pixels * 4,
    ;
}

/// Where row `r` of `rows` lies in the source and in the target.
proof fn lemma_row_places(min_x: int, min_y: int, r: int, rows: int, row_pixels: int)
    requires
        0 <= min_x,
        0 <= min_y,
        0 <= r < rows,
        0 <= row_pixels,
    ensures
        ((min_y + r) * row_pixels + min_x) * 4 == (min_y * row_pixels + min_x) * 4 + r * (
        row_pixels * 4),
        r * row_pixels * 4 == r * (row_pixels * 4),
        0 <= (min_y + r) * row_pixels,
        0 <= r * row_pixels,
        r * (row_pixels * 4) + row_pixels * 4 <= rows * (row_pixels * 4),
{
    assert(((min_y + r) * row_pixels + min_x) * 4 == (min_y * row_pixels + min_x) * 4 + r * (
    row_pixels * 4)) by (nonlinear_arith);
    assert(r * row_pixels * 4 == r * (row_pixels * 4)) by (nonlinear_arith);
    assert(0 <= (min_y + r) * row_pixels && 0 <= r * row_pixels) by (nonlinear_arith)
        requires
            0 <= min_y,
            0 <= r,
            0 <= row_pixels,
    ;
    assert(r * (row_pixels * 4) + row_pixels * 4 <= rows * (row_pixels * 4)) by (nonlinear_arith)
        requires
            0 <= r < rows,
            0 <= row_pixels,
    ;
}

} // verus!
