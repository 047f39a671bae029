use vstd::prelude::*;

use crate::bytes::{be_u32, copy_range, read_u32};

verus! {

/// Length of the header of an image file: magic number, image count, rows, columns.
pub const IMAGE_HEADER_LEN: usize = 16;

/// Length of the header of a label file: magic number, label count.
pub const LABEL_HEADER_LEN: usize = 8;

/// Number of classes, and so the length of a one-hot target.
pub const CLASS_COUNT: u8 = 10;

/// Why a dataset could not be read.
#[derive(Debug, Clone, Copy, PartialEq, Eq)]
pub enum DatasetError {
    /// The image file is shorter than its header.
    ImageHeaderTruncated,
    /// The label file is shorter than its header.
    LabelHeaderTruncated,
    /// A label names no class.
    LabelOutOfRange(u8),
}

/// One record of the dataset: the raw pixel values of an image, row by row,
/// and its label.
pub struct Sample {
    pub pixels: Vec<u8>,
    pub label: u8,
}

/// A pair of image and label files read in lock-step, one record at a time.
/// The positions are byte offsets into the two files; a clone reads on
/// from the same place independently.
pub struct TrainingData {
    pub image_magic_number: u32,
    pub image_count: u32,
    pub rows_count: u32,
    pub cols_count: u32,
    pub label_magic_number: u32,
    pub label_count: u32,
    pub images: Vec<u8>,
    pub labels: Vec<u8>,
    pub image_pos: usize,
    pub label_pos: usize,
}

/// The number of pixels in one image.
pub open spec fn pixel_count(d: TrainingData) -> int {
    d.rows_count * d.cols_count
}

/// Whether both files still hold a whole record at the current positions.
pub open spec fn has_record(d: TrainingData) -> bool {
    d.label_pos < d.labels@.len() && d.image_pos + pixel_count(d) <= d.images@.len()
}

/// The vector that is 1 at `label` and 0 at the other classes.
pub open spec fn one_hot_spec(label: int) -> Seq<u8> {
    Seq::new(CLASS_COUNT as nat, |i: int| if i == label { 1u8 } else { 0u8 })
}

/// The one-hot target of a label.
pub fn one_hot(label: u8) -> (r: Vec<u8>)
    requires
        label < CLASS_COUNT,
    ensures
        r@ == one_hot_spec(label as int),
{
    let mut r: Vec<u8> = Vec::new();
    let mut i: u8 = 0;
    while i < CLASS_COUNT
        invariant
            i <= CLASS_COUNT,
            r@ == one_hot_spec(label as int).subrange(0, i as int),
        decreases CLASS_COUNT - i,
    {
        r.push(if i == label { 1u8 } else { 0u8 });
        i = i + 1;
        assert(r@ =~= one_hot_spec(label as int).subrange(0, i as int));
    }
    assert(r@ =~= one_hot_spec(label as int));
    r
}

impl Clone for TrainingData {
    /// A reader with the same headers, bytes and positions, which reads on
    /// without affecting this one.
    fn clone(&self) -> (r: Self)
        ensures
            r.image_magic_number == self.image_magic_number,
            r.image_count == self.image_count,
            r.rows_count == self.rows_count,
            r.cols_count == self.cols_count,
            r.label_magic_number == self.label_magic_number,
            r.label_count == self.label_count,
            r.images@ == self.images@,
            r.labels@ == self.labels@,
            r.image_pos == self.image_pos,
            r.label_pos == self.label_pos,
    {
        TrainingData {
            image_magic_number: self.image_magic_number,
            image_count: self.image_count,
            rows_count: self.rows_count,
            cols_count: self.cols_count,
            label_magic_number: self.label_magic_number,
            label_count: self.label_count,
            images: copy_range(&self.images, 0, self.images.len()),
            labels: copy_range(&self.labels, 0, self.labels.len()),
            image_pos: self.image_pos,
            label_pos: self.label_pos,
        }
    }
}

impl TrainingData {
    /// Reads the two headers and places both positions on the first record.
    pub fn new(images: Vec<u8>, labels: Vec<u8>) -> (r: Result<TrainingData, DatasetError>)
        ensures
            match r {
                Ok(d) => {
                    &&& images@.len() >= IMAGE_HEADER_LEN && labels@.len() >= LABEL_HEADER_LEN
                    &&& d.image_magic_number == be_u32(images@.subrange(0, 4))
                    &&& d.image_count == be_u32(images@.subrange(4, 8))
                    &&& d.rows_count == be_u32(images@.subrange(8, 12))
                    &&& d.cols_count == be_u32(images@.subrange(12, 16))
                    &&& d.label_magic_number == be_u32(labels@.subrange(0, 4))
                    &&& d.label_count == be_u32(labels@.subrange(4, 8))
                    &&& d.images@ == images@ && d.labels@ == labels@
                    &&& d.image_pos == IMAGE_HEADER_LEN && d.label_pos == LABEL_HEADER_LEN
                },
                Err(DatasetError::ImageHeaderTruncated) => images@.len() < IMAGE_HEADER_LEN,
                Err(DatasetError::LabelHeaderTruncated) => images@.len() >= IMAGE_HEADER_LEN
                    && labels@.len() < LABEL_HEADER_LEN,
                Err(_) => false,
            },
    {
        if images.len() < IMAGE_HEADER_LEN {
            return Err(DatasetError::ImageHeaderTruncated);
        }
        if labels.len() < LABEL_HEADER_LEN {
            return Err(DatasetError::LabelHeaderTruncated);
        }
        let image_magic_number = read_u32(&images, 0);
        let image_count = read_u32(&images, 4);
        let rows_count = read_u32(&images, 8);
        let cols_count = read_u32(&images, 12);
        let label_magic_number = read_u32(&labels, 0);
        let label_count = read_u32(&labels, 4);
        Ok(
            TrainingData {
                image_magic_number,
                image_count,
                rows_count,
                cols_count,
                label_magic_number,
                label_count,
                images,
                labels,
                image_pos: IMAGE_HEADER_LEN,
                label_pos: LABEL_HEADER_LEN,
            },
        )
    }

    /// Reads a big-endian `u32` from four bytes.
    pub fn bytes_to_u32(bytes: [u8; 4]) -> (r: u32)
        ensures
            r == be_u32(bytes@),
    {
        crate::bytes::bytes_to_u32(bytes)
    }

    /// The next record: one label byte and the pixels of one image. `None`
    /// once either file no longer holds a whole record; an error, with
    /// nothing consumed, where the label names no class.
    pub fn next(&mut self) -> (r: Result<Option<Sample>, DatasetError>)
        ensures
            !has_record(*old(self)) ==> r == Ok::<Option<Sample>, DatasetError>(None) && *final(self)
                == *old(self),
            has_record(*old(self)) && old(self).labels@[old(self).label_pos as int]
                >= CLASS_COUNT ==> r == Err::<Option<Sample>, DatasetError>(
                DatasetError::LabelOutOfRange(old(self).labels@[old(self).label_pos as int]),
            ) && *final(self) == *old(self),
            has_record(*old(self)) && old(self).labels@[old(self).label_pos as int]
                < CLASS_COUNT ==> match r {
                Ok(Some(s)) => {
                    &&& s.label == old(self).labels@[old(self).label_pos as int]
                    &&& s.pixels@ == old(self).images@.subrange(
                        old(self).image_pos as int,
                        old(self).image_pos + pixel_count(*old(self)),
                    )
                    &&& final(self).image_pos == old(self).image_pos + pixel_count(*old(self))
                    &&& final(self).label_pos == old(self).label_pos + 1
                    &&& final(self).images == old(self).images
                    &&& final(self).labels == old(self).labels
                    &&& final(self).rows_count == old(self).rows_count
                    &&& final(self).cols_count == old(self).cols_count
                    &&& final(self).image_count == old(self).image_count
                    &&& final(self).label_count == old(self).label_count
                    &&& final(self).image_magic_number == old(self).image_magic_number
                    &&& final(self).label_magic_number == old(self).label_magic_number
                },
                _ => false,
            },
    {
        let rows = self.rows_count as u64;
        let cols = self.cols_count as u64;
        assert(rows * cols <= 0xffff_ffff * 0xffff_ffff) by (nonlinear_arith)
            requires
                rows <= 0xffff_ffff,
                cols <= 0xffff_ffff,
        ;
        let len = rows * cols;
        if self.label_pos >= self.labels.len() || self.image_pos > self.images.len() || ((
        self.images.len() - self.image_pos) as u64) < len {
            return Ok(None);
        }
        let label = self.labels[self.label_pos];
        if label >= CLASS_COUNT {
            return Err(DatasetError::LabelOutOfRange(label));
        }
        let pixels = copy_range(&self.images, self.image_pos, len as usize);
        self.image_pos = self.image_pos + len as usize;
        self.label_pos = self.label_pos + 1;
        Ok(Some(Sample { pixels, label }))
    }
}

} // verus!
