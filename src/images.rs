use vstd::prelude::*;

use crate::bytes::{be_u32, copy_range, read_u32};
use crate::dataset::{DatasetError, IMAGE_HEADER_LEN};

verus! {

/// An image file read one image at a time, for looking at its contents.
/// `pos` is the byte offset of the next image.
pub struct TrainingData {
    pub magic_number: u32,
    pub image_count: u32,
    pub rows_count: u32,
    pub cols_count: u32,
    pub bytes: Vec<u8>,
    pub pos: usize,
}

/// The number of pixels in one image.
pub open spec fn image_len(d: TrainingData) -> int {
    d.rows_count * d.cols_count
}

impl TrainingData {
    /// Reads the header and places the position on the first image.
    pub fn new(bytes: Vec<u8>) -> (r: Result<TrainingData, DatasetError>)
        ensures
            match r {
                Ok(d) => {
                    &&& bytes@.len() >= IMAGE_HEADER_LEN
                    &&& d.magic_number == be_u32(bytes@.subrange(0, 4))
                    &&& d.image_count == be_u32(bytes@.subrange(4, 8))
                    &&& d.rows_count == be_u32(bytes@.subrange(8, 12))
                    &&& d.cols_count == be_u32(bytes@.subrange(12, 16))
                    &&& d.bytes@ == bytes@
                    &&& d.pos == IMAGE_HEADER_LEN
                },
                Err(e) => e == DatasetError::ImageHeaderTruncated && bytes@.len()
                    < IMAGE_HEADER_LEN,
            },
    {
        if bytes.len() < IMAGE_HEADER_LEN {
            return Err(DatasetError::ImageHeaderTruncated);
        }
        let magic_number = read_u32(&bytes, 0);
        let image_count = read_u32(&bytes, 4);
        let rows_count = read_u32(&bytes, 8);
        let cols_count = read_u32(&bytes, 12);
        Ok(TrainingData { magic_number, image_count, rows_count, cols_count, bytes, pos: IMAGE_HEADER_LEN })
    }

    /// Reads a big-endian `u32` from four bytes.
    pub fn bytes_to_u32(bytes: [u8; 4]) -> (r: u32)
        ensures
            r == be_u32(bytes@),
    {
        crate::bytes::bytes_to_u32(bytes)
    }

    /// The width of an image: its number of columns.
    pub fn get_width(&mut self) -> (r: u32)
        ensures
            r == old(self).cols_count,
            *final(self) == *old(self),
    {
        self.cols_count
    }

    /// The height of an image: its number of rows.
    pub fn get_height(&mut self) -> (r: u32)
        ensures
            r == old(self).rows_count,
            *final(self) == *old(self),
    {
        self.rows_count
    }

    /// The pixels of the next image, row by row, or `None` once the file no
    /// longer holds a whole image.
    pub fn next(&mut self) -> (r: Option<Vec<u8>>)
        ensures
            old(self).pos + image_len(*old(self)) <= old(self).bytes@.len() ==> match r {
                Some(p) => {
                    &&& p@ == old(self).bytes@.subrange(
                        old(self).pos as int,
                        old(self).pos + image_len(*old(self)),
                    )
                    &&& *final(self) == (TrainingData {
                        pos: (old(self).pos + image_len(*old(self))) as usize,
                        ..*old(self)
                    })
                },
                None => false,
            },
            old(self).pos + image_len(*old(self)) > old(self).bytes@.len() ==> r is None
                && *final(self) == *old(self),
    {
        let rows = self.rows_count as u64;
        let cols = self.cols_count as u64;
        assert(rows * cols <= 0xffff_ffff * 0xffff_ffff) by (nonlinear_arith)
            requires
                rows <= 0xffff_ffff,
                cols <= 0xffff_ffff,
        ;
        let len = rows * cols;
        if self.pos > self.bytes.len() || ((self.bytes.len() - self.pos) as u64) < len {
            return None;
        }
        let pixels = copy_range(&self.bytes, self.pos, len as usize);
        self.pos = self.pos + len as usize;
        Some(pixels)
    }
}

} // verus!
