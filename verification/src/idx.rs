//! The IDX binary layout: a big-endian magic number, a dimension header and
//! the raw payload bytes.

use crate::error::LoadError;
use vstd::prelude::*;
use vstd::slice::slice_subrange;
use vstd::slice::slice_to_vec;

verus! {

/// Magic number that opens a file of labels.
pub const LABELS_MAGIC: u32 = 2049;

/// Magic number that opens a file of images.
pub const IMAGES_MAGIC: u32 = 2051;

/// Length of the header of a file of labels: magic number and count.
pub const LABELS_HEADER: usize = 8;

/// Length of the header of a file of images: magic number, count, rows, columns.
pub const IMAGES_HEADER: usize = 16;

/// The unsigned 32-bit number that the four bytes from `at` on spell,
/// most significant byte first.
pub open spec fn be_u32(bytes: Seq<u8>, at: int) -> int {
    bytes[at] * 0x100_0000 + bytes[at + 1] * 0x1_0000 + bytes[at + 2] * 0x100 + bytes[at + 3]
}

/// What a file of labels decodes to: its bytes after the header, one label
/// each. The count in the header is not consulted.
pub open spec fn decoded_labels(bytes: Seq<u8>) -> Result<Seq<u8>, LoadError> {
    if bytes.len() < 4 {
        Err(LoadError::Truncated)
    } else if be_u32(bytes, 0) != LABELS_MAGIC {
        Err(LoadError::Format { expected: LABELS_MAGIC, found: be_u32(bytes, 0) as u32 })
    } else if bytes.len() < LABELS_HEADER {
        Err(LoadError::Truncated)
    } else {
        Ok(bytes.subrange(LABELS_HEADER as int, bytes.len() as int))
    }
}

/// The number of images that the header of a file of images announces.
pub open spec fn image_count(bytes: Seq<u8>) -> int {
    be_u32(bytes, 4)
}

/// The number of rows of each image, by the header.
pub open spec fn image_rows(bytes: Seq<u8>) -> int {
    be_u32(bytes, 8)
}

/// The number of bytes in each row, by the header.
pub open spec fn image_cols(bytes: Seq<u8>) -> int {
    be_u32(bytes, 12)
}

/// Where row `row` of image `image` starts in a file whose images have
/// `rows` rows of `cols` bytes.
pub open spec fn row_offset(rows: int, cols: int, image: int, row: int) -> int {
    IMAGES_HEADER + (image * rows + row) * cols
}

/// Row `row` of image `image`, as it lies in the file.
pub open spec fn image_row(bytes: Seq<u8>, rows: int, cols: int, image: int, row: int) -> Seq<u8> {
    bytes.subrange(row_offset(rows, cols, image, row), row_offset(rows, cols, image, row) + cols)
}

/// Image `image` of the file, row by row.
pub open spec fn image_grid(bytes: Seq<u8>, rows: int, cols: int, image: int) -> Seq<Seq<u8>> {
    Seq::new(rows as nat, |row: int| image_row(bytes, rows, cols, image, row))
}

/// What a file of images decodes to: as many images as the header counts,
/// each of the header's rows and columns, read in row-major order from the
/// byte after the header on. Bytes after the last image are ignored.
pub open spec fn decoded_images(bytes: Seq<u8>) -> Result<Seq<Seq<Seq<u8>>>, LoadError> {
    if bytes.len() < 4 {
        Err(LoadError::Truncated)
    } else if be_u32(bytes, 0) != IMAGES_MAGIC {
        Err(LoadError::Format { expected: IMAGES_MAGIC, found: be_u32(bytes, 0) as u32 })
    } else if bytes.len() < IMAGES_HEADER {
        Err(LoadError::Truncated)
    } else if IMAGES_HEADER + image_count(bytes) * image_rows(bytes) * image_cols(bytes)
        > bytes.len() {
        Err(LoadError::Truncated)
    } else {
        Ok(
            Seq::new(
                image_count(bytes) as nat,
                |image: int| image_grid(bytes, image_rows(bytes), image_cols(bytes), image),
            ),
        )
    }
}

/// One decoded image as a grid of bytes.
pub open spec fn grid_of(image: Vec<Vec<u8>>) -> Seq<Seq<u8>> {
    Seq::new(image@.len(), |row: int| image@[row]@)
}

/// A list of decoded images as a sequence of grids.
pub open spec fn grids_of(images: Vec<Vec<Vec<u8>>>) -> Seq<Seq<Seq<u8>>> {
    Seq::new(images@.len(), |image: int| grid_of(images@[image]))
}

/// Reads the big-endian 32-bit number that starts at byte `at`.
pub fn read_be_u32(bytes: &[u8], at: usize) -> (value: u32)
    requires
        at + 4 <= bytes@.len(),
    ensures
        value == be_u32(bytes@, at as int),
{
    let b0: u32 = bytes[at] as u32;
    let b1: u32 = bytes[at + 1] as u32;
    let b2: u32 = bytes[at + 2] as u32;
    let b3: u32 = bytes[at + 3] as u32;
    b0 * 0x100_0000 + b1 * 0x1_0000 + b2 * 0x100 + b3
}

/// Decodes a file of labels.
///
/// Fails with `Format` when the file opens with another magic number than
/// that of labels, whatever follows, and with `Truncated` when it is too
/// short to hold the magic number or the header.
pub fn decode_labels(bytes: &[u8]) -> (result: Result<Vec<u8>, LoadError>)
    ensures
        match result {
            Ok(labels) => decoded_labels(bytes@) == Ok::<Seq<u8>, LoadError>(labels@),
            Err(e) => decoded_labels(bytes@) == Err::<Seq<u8>, LoadError>(e),
        },
{
    let len: usize = bytes.len();
    if len < 4 {
        return Err(LoadError::Truncated);
    }
    let magic: u32 = read_be_u32(bytes, 0);
    if magic != LABELS_MAGIC {
        return Err(LoadError::Format { expected: LABELS_MAGIC, found: magic });
    }
    if len < LABELS_HEADER {
        return Err(LoadError::Truncated);
    }
    Ok(slice_to_vec(slice_subrange(bytes, LABELS_HEADER, len)))
}

/// The bytes of row `row` of image `image` lie inside a payload that holds
/// `count` images, and the next row starts where this one ends.
proof fn lemma_row_in_payload(count: int, rows: int, cols: int, image: int, row: int)
    requires
        0 <= image < count,
        0 <= row < rows,
        0 <= cols,
    ensures
        0 <= (image * rows + row) * cols,
        (image * rows + row) * cols + cols == (image * rows + (row + 1)) * cols,
        (image * rows + row) * cols + cols <= count * rows * cols,
{
    assert(0 <= (image * rows + row) * cols) by (nonlinear_arith)
        requires
            0 <= image,
            0 <= row,
            0 <= rows,
            0 <= cols,
    ;
    assert((image * rows + row) * cols + cols == (image * rows + (row + 1)) * cols)
        by (nonlinear_arith);
    assert(image * rows + (row + 1) <= count * rows) by (nonlinear_arith)
        requires
            0 <= image < count,
            0 <= row < rows,
    ;
    assert((image * rows + (row + 1)) * cols <= count * rows * cols) by (nonlinear_arith)
        requires
            image * rows + (row + 1) <= count * rows,
            0 <= cols,
    ;
}

/// Decodes a file of images.
///
/// Fails with `Format` when the file opens with another magic number than
/// that of images, whatever follows, and with `Truncated` when it is too
/// short to hold the magic number, the header, or as many bytes as the
/// header's three dimensions multiply to.
pub fn decode_images(bytes: &[u8]) -> (result: Result<Vec<Vec<Vec<u8>>>, LoadError>)
    ensures
        match result {
            Ok(images) => decoded_images(bytes@) == Ok::<Seq<Seq<Seq<u8>>>, LoadError>(
                grids_of(images),
            ),
            Err(e) => decoded_images(bytes@) == Err::<Seq<Seq<Seq<u8>>>, LoadError>(e),
        },
        result matches Ok(images) ==> {
            &&& images@.len() == image_count(bytes@)
            &&& forall|image: int|
                0 <= image < images@.len() ==> (#[trigger] images@[image])@.len() == image_rows(
                    bytes@,
                )
            &&& forall|image: int, row: int|
                0 <= image < images@.len() && 0 <= row < image_rows(bytes@) ==> (
                #[trigger] images@[image]@[row])@ == image_row(
                    bytes@,
                    image_rows(bytes@),
                    image_cols(bytes@),
                    image,
                    row,
                )
        },
{
    let len: usize = bytes.len();
    if len < 4 {
        return Err(LoadError::Truncated);
    }
    let magic: u32 = read_be_u32(bytes, 0);
    if magic != IMAGES_MAGIC {
        return Err(LoadError::Format { expected: IMAGES_MAGIC, found: magic });
    }
    if len < IMAGES_HEADER {
        return Err(LoadError::Truncated);
    }
    let count: usize = read_be_u32(bytes, 4) as usize;
    let rows: usize = read_be_u32(bytes, 8) as usize;
    let cols: usize = read_be_u32(bytes, 12) as usize;
    assert(count * rows <= 0xffff_ffff * 0xffff_ffff) by (nonlinear_arith)
        requires
            0 <= count <= 0xffff_ffff,
            0 <= rows <= 0xffff_ffff,
    ;
    let cells: u64 = (count as u64) * (rows as u64);
    assert(cells * cols <= 0xffff_ffff * 0xffff_ffff * 0xffff_ffff) by (nonlinear_arith)
        requires
            0 <= cells <= 0xffff_ffff * 0xffff_ffff,
            0 <= cols <= 0xffff_ffff,
    ;
    let payload: u128 = (cells as u128) * (cols as u128);
    if payload > (len - IMAGES_HEADER) as u128 {
        return Err(LoadError::Truncated);
    }
    let mut images: Vec<Vec<Vec<u8>>> = Vec::new();
    let mut index: usize = IMAGES_HEADER;
    let mut i: usize = 0;
    while i < count
        invariant
            len == bytes@.len(),
            i <= count,
            IMAGES_HEADER + count * rows * cols <= len,
            index == row_offset(rows as int, cols as int, i as int, 0),
            images@.len() == i,
            forall|k: int|
                0 <= k < i ==> grid_of(#[trigger] images@[k]) == image_grid(
                    bytes@,
                    rows as int,
                    cols as int,
                    k,
                ),
        decreases count - i,
    {
        let mut image: Vec<Vec<u8>> = Vec::new();
        let mut r: usize = 0;
        while r < rows
            invariant
                len == bytes@.len(),
                i < count,
                r <= rows,
                IMAGES_HEADER + count * rows * cols <= len,
                index == row_offset(rows as int, cols as int, i as int, r as int),
                image@.len() == r,
                forall|q: int|
                    0 <= q < r ==> (#[trigger] image@[q])@ == image_row(
                        bytes@,
                        rows as int,
                        cols as int,
                        i as int,
                        q,
                    ),
            decreases rows - r,
        {
            proof {
                lemma_row_in_payload(count as int, rows as int, cols as int, i as int, r as int);
            }
            let row: Vec<u8> = slice_to_vec(slice_subrange(bytes, index, index + cols));
            index = index + cols;
            image.push(row);
            r = r + 1;
        }
        proof {
            assert((i * rows + rows) * cols == ((i + 1) * rows + 0) * cols) by (nonlinear_arith);
            assert(grid_of(image) =~= image_grid(bytes@, rows as int, cols as int, i as int));
        }
        images.push(image);
        i = i + 1;
    }
    proof {
        assert forall|image: int, row: int|
            0 <= image < images@.len() && 0 <= row < rows implies (
        #[trigger] images@[image]@[row])@ == image_row(
            bytes@,
            rows as int,
            cols as int,
            image,
            row,
        ) && images@[image]@.len() == rows by {
            assert(grid_of(images@[image]) == image_grid(bytes@, rows as int, cols as int, image));
            assert(grid_of(images@[image])[row] == images@[image]@[row]@);
        }
        assert forall|image: int| 0 <= image < images@.len() implies (
        #[trigger] images@[image])@.len() == rows by {
            assert(grid_of(images@[image]) == image_grid(bytes@, rows as int, cols as int, image));
        }
        assert(grids_of(images) =~= Seq::new(
            count as nat,
            |image: int| image_grid(bytes@, rows as int, cols as int, image),
        ));
    }
    Ok(images)
}

/// A file of labels that opens with the magic number of labels decodes to
/// exactly the bytes that follow its header, in their order, however many
/// they are and whatever count the header gives.
pub proof fn lemma_labels_are_the_payload(header: Seq<u8>, payload: Seq<u8>)
    requires
        header.len() == LABELS_HEADER,
        be_u32(header, 0) == LABELS_MAGIC,
    ensures
        decoded_labels(header + payload) == Ok::<Seq<u8>, LoadError>(payload),
{
    let bytes = header + payload;
    assert(be_u32(bytes, 0) == be_u32(header, 0));
    assert(bytes.subrange(LABELS_HEADER as int, bytes.len() as int) =~= payload);
}

/// A file of images that opens with the magic number of images, and whose
/// payload has exactly as many bytes as count, rows and columns multiply
/// to, decodes to that many images of that many rows and columns, and byte
/// `col` of row `row` of image `image` is the payload's byte at
/// `(image * rows + row) * cols + col`.
pub proof fn lemma_images_are_the_payload(header: Seq<u8>, payload: Seq<u8>)
    requires
        header.len() == IMAGES_HEADER,
        be_u32(header, 0) == IMAGES_MAGIC,
        payload.len() == image_count(header) * image_rows(header) * image_cols(header),
    ensures
        decoded_images(header + payload) is Ok,
        ({
            let images = decoded_images(header + payload)->Ok_0;
            let count = image_count(header);
            let rows = image_rows(header);
            let cols = image_cols(header);
            &&& images.len() == count
            &&& forall|image: int| 0 <= image < count ==> (#[trigger] images[image]).len() == rows
            &&& forall|image: int, row: int|
                0 <= image < count && 0 <= row < rows ==> (#[trigger] images[image][row]).len()
                    == cols
            &&& forall|image: int, row: int, col: int|
                0 <= image < count && 0 <= row < rows && 0 <= col < cols
                    ==> #[trigger] images[image][row][col] == payload[(image * rows + row) * cols
                    + col]
        }),
{
    let bytes = header + payload;
    let count = image_count(header);
    let rows = image_rows(header);
    let cols = image_cols(header);
    assert(be_u32(bytes, 0) == be_u32(header, 0));
    assert(image_count(bytes) == count);
    assert(image_rows(bytes) == rows);
    assert(image_cols(bytes) == cols);
    let images = decoded_images(bytes)->Ok_0;
    assert forall|image: int, row: int| 0 <= image < count && 0 <= row < rows implies (
    #[trigger] images[image][row]).len() == cols && forall|col: int|
        0 <= col < cols ==> #[trigger] images[image][row][col] == payload[(image * rows + row)
            * cols + col] by {
        lemma_row_in_payload(count, rows, cols, image, row);
        assert(images[image][row] == image_row(bytes, rows, cols, image, row));
    }
}

/// A file that opens with another magic number than the one of its kind is
/// a `Format` error that names both numbers, whatever its other bytes are.
pub proof fn lemma_wrong_magic_is_format_error(bytes: Seq<u8>)
    requires
        bytes.len() >= 4,
    ensures
        be_u32(bytes, 0) != LABELS_MAGIC ==> decoded_labels(bytes) == Err::<Seq<u8>, LoadError>(
            LoadError::Format { expected: LABELS_MAGIC, found: be_u32(bytes, 0) as u32 },
        ),
        be_u32(bytes, 0) != IMAGES_MAGIC ==> decoded_images(bytes) == Err::<
            Seq<Seq<Seq<u8>>>,
            LoadError,
        >(LoadError::Format { expected: IMAGES_MAGIC, found: be_u32(bytes, 0) as u32 }),
{
}

} // verus!
