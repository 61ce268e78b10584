//! The MNIST dataset in the IDX file format: an image file (magic 2051,
//! image count, rows, columns, then one byte per pixel) and a label file
//! (magic 2049, label count, then one byte per label), all counts big-endian.
use vstd::prelude::*;

use crate::tensor::{Tensor, lemma_matrix_position, lemma_matrix_product};

verus! {

/// The magic number of an IDX image file.
pub const IMAGE_MAGIC: u32 = 2051;

/// The magic number of an IDX label file.
pub const LABEL_MAGIC: u32 = 2049;

/// Why a pair of IDX files is not an MNIST dataset.
#[derive(Clone, Copy, Debug, PartialEq, Eq, Structural)]
pub enum MnistError {
    /// The image file is shorter than its 16-byte header.
    ImageHeaderTooShort,
    /// The label file is shorter than its 8-byte header.
    LabelHeaderTooShort,
    /// A header field's offset plus its width overflowed.
    HeaderOffsetOverflow,
    /// A header field runs past the end of its file.
    HeaderEnded,
    /// The image file's magic number, which is not 2051.
    ImageMagic(u32),
    /// The image count, the rows or the columns are zero.
    ZeroDimension,
    /// Rows times columns does not fit in `usize`.
    ImageDimensionsTooLarge,
    /// The pixel count does not fit in `usize`.
    ImageFileTooLarge,
    /// The header plus the pixels do not fit in `usize`.
    ImageLengthOverflow,
    /// The image file's length and the length its header asks for.
    ImageLength { actual: usize, expected: usize },
    /// The label file's magic number, which is not 2049.
    LabelMagic(u32),
    /// The image count and the label count, which differ.
    CountMismatch { images: usize, labels: usize },
    /// The header plus the labels do not fit in `usize`.
    LabelLengthOverflow,
    /// The label file's length and the length its header asks for.
    LabelLength { actual: usize, expected: usize },
    /// The first label that is not a digit.
    LabelOutOfRange(u8),
}

/// The big-endian 32-bit number in the four bytes at `offset`.
pub open spec fn be_u32_at(bytes: Seq<u8>, offset: int) -> u32 {
    (bytes[offset] * 0x100_0000 + bytes[offset + 1] * 0x1_0000 + bytes[offset + 2] * 0x100
        + bytes[offset + 3]) as u32
}

/// What `read_be_u32` gives for these bytes and this offset.
pub open spec fn spec_read_be_u32(bytes: Seq<u8>, offset: int) -> Result<u32, MnistError> {
    if offset + 4 > usize::MAX {
        Err(MnistError::HeaderOffsetOverflow)
    } else if offset + 4 > bytes.len() {
        Err(MnistError::HeaderEnded)
    } else {
        Ok(be_u32_at(bytes, offset))
    }
}

/// The first byte from position `from` on that is above 9, if any.
pub open spec fn first_label_above_nine(labels: Seq<u8>, from: int) -> Option<u8>
    decreases labels.len() - from,
{
    if from < 0 || from >= labels.len() {
        None
    } else if labels[from] > 9 {
        Some(labels[from])
    } else {
        first_label_above_nine(labels, from + 1)
    }
}

/// The first check that a pair of IDX files fails, in the order the reader
/// makes them, or `None` when they form a dataset.
pub open spec fn mnist_error(images: Seq<u8>, labels: Seq<u8>) -> Option<MnistError> {
    if images.len() < 16 {
        Some(MnistError::ImageHeaderTooShort)
    } else if labels.len() < 8 {
        Some(MnistError::LabelHeaderTooShort)
    } else {
        let magic = be_u32_at(images, 0);
        let count = be_u32_at(images, 4) as int;
        let rows = be_u32_at(images, 8) as int;
        let columns = be_u32_at(images, 12) as int;
        if magic != IMAGE_MAGIC {
            Some(MnistError::ImageMagic(magic))
        } else if count == 0 || rows == 0 || columns == 0 {
            Some(MnistError::ZeroDimension)
        } else if rows * columns > usize::MAX {
            Some(MnistError::ImageDimensionsTooLarge)
        } else if count * (rows * columns) > usize::MAX {
            Some(MnistError::ImageFileTooLarge)
        } else if 16 + count * (rows * columns) > usize::MAX {
            Some(MnistError::ImageLengthOverflow)
        } else if images.len() != 16 + count * (rows * columns) {
            Some(
                MnistError::ImageLength {
                    actual: images.len() as usize,
                    expected: (16 + count * (rows * columns)) as usize,
                },
            )
        } else {
            let label_magic = be_u32_at(labels, 0);
            let label_count = be_u32_at(labels, 4) as int;
            if label_magic != LABEL_MAGIC {
                Some(MnistError::LabelMagic(label_magic))
            } else if label_count != count {
                Some(
                    MnistError::CountMismatch {
                        images: count as usize,
                        labels: label_count as usize,
                    },
                )
            } else if 8 + label_count > usize::MAX {
                Some(MnistError::LabelLengthOverflow)
            } else if labels.len() != 8 + label_count {
                Some(
                    MnistError::LabelLength {
                        actual: labels.len() as usize,
                        expected: (8 + label_count) as usize,
                    },
                )
            } else {
                match first_label_above_nine(labels, 8) {
                    Some(label) => Some(MnistError::LabelOutOfRange(label)),
                    None => None,
                }
            }
        }
    }
}

/// Reads the big-endian 32-bit number at `offset`.
pub fn read_be_u32(bytes: &[u8], offset: usize) -> (value: Result<u32, MnistError>)
    ensures
        value == spec_read_be_u32(bytes@, offset as int),
{
    let end = match offset.checked_add(4) {
        Some(end) => end,
        None => return Err(MnistError::HeaderOffsetOverflow),
    };
    if end > bytes.len() {
        return Err(MnistError::HeaderEnded);
    }
    let value = (bytes[offset] as u32) * 0x100_0000 + (bytes[offset + 1] as u32) * 0x1_0000
        + (bytes[offset + 2] as u32) * 0x100 + (bytes[offset + 3] as u32);
    Ok(value)
}

/// The MNIST images, as raw pixel bytes in row-major order one image after
/// the other, and their digit labels.
#[derive(Clone, Debug)]
pub struct MnistDataset {
    images: Vec<u8>,
    labels: Vec<usize>,
    rows: usize,
    columns: usize,
}

impl MnistDataset {
    /// All pixels, image after image.
    pub closed spec fn pixels(&self) -> Seq<u8> {
        self.images@
    }

    /// The label of each image.
    pub closed spec fn label_seq(&self) -> Seq<usize> {
        self.labels@
    }

    /// The number of pixel rows of an image.
    pub closed spec fn row_count(&self) -> usize {
        self.rows
    }

    /// The number of pixel columns of an image.
    pub closed spec fn column_count(&self) -> usize {
        self.columns
    }

    /// The number of pixels of an image.
    pub open spec fn pixel_count(&self) -> int {
        self.row_count() * self.column_count()
    }

    /// At least one image of at least one pixel, as many pixels as the
    /// images need, and digit labels.
    pub open spec fn wf(&self) -> bool {
        &&& self.row_count() > 0
        &&& self.column_count() > 0
        &&& self.label_seq().len() > 0
        &&& 1 <= self.pixel_count() <= usize::MAX
        &&& self.pixels().len() == self.label_seq().len() * self.pixel_count()
        &&& self.pixels().len() <= usize::MAX
        &&& forall|i: int| 0 <= i < self.label_seq().len() ==> #[trigger] self.label_seq()[i] <= 9
    }

    /// Parses an IDX image file and an IDX label file.
    pub fn from_bytes(image_bytes: &[u8], label_bytes: &[u8]) -> (dataset: Result<
        MnistDataset,
        MnistError,
    >)
        ensures
            match dataset {
                Err(error) => mnist_error(image_bytes@, label_bytes@) == Some(error),
                Ok(dataset) => {
                    &&& mnist_error(image_bytes@, label_bytes@) is None
                    &&& dataset.wf()
                    &&& dataset.pixels() == image_bytes@.skip(16)
                    &&& dataset.label_seq() == label_bytes@.skip(8).map_values(|b: u8| b as usize)
                    &&& dataset.row_count() == be_u32_at(image_bytes@, 8)
                    &&& dataset.column_count() == be_u32_at(image_bytes@, 12)
                },
            },
    {
        if image_bytes.len() < 16 {
            return Err(MnistError::ImageHeaderTooShort);
        }
        if label_bytes.len() < 8 {
            return Err(MnistError::LabelHeaderTooShort);
        }
        let image_magic = read_be_u32(image_bytes, 0)?;
        let image_count = read_be_u32(image_bytes, 4)? as usize;
        let rows = read_be_u32(image_bytes, 8)? as usize;
        let columns = read_be_u32(image_bytes, 12)? as usize;
        if image_magic != IMAGE_MAGIC {
            return Err(MnistError::ImageMagic(image_magic));
        }
        if image_count == 0 || rows == 0 || columns == 0 {
            return Err(MnistError::ZeroDimension);
        }
        let image_size = match rows.checked_mul(columns) {
            Some(size) => size,
            None => return Err(MnistError::ImageDimensionsTooLarge),
        };
        let pixel_count = match image_count.checked_mul(image_size) {
            Some(count) => count,
            None => return Err(MnistError::ImageFileTooLarge),
        };
        let expected_image_length = match 16usize.checked_add(pixel_count) {
            Some(length) => length,
            None => return Err(MnistError::ImageLengthOverflow),
        };
        if image_bytes.len() != expected_image_length {
            return Err(
                MnistError::ImageLength {
                    actual: image_bytes.len(),
                    expected: expected_image_length,
                },
            );
        }
        let label_magic = read_be_u32(label_bytes, 0)?;
        let label_count = read_be_u32(label_bytes, 4)? as usize;
        if label_magic != LABEL_MAGIC {
            return Err(MnistError::LabelMagic(label_magic));
        }
        if label_count != image_count {
            return Err(MnistError::CountMismatch { images: image_count, labels: label_count });
        }
        let expected_label_length = match 8usize.checked_add(label_count) {
            Some(length) => length,
            None => return Err(MnistError::LabelLengthOverflow),
        };
        if label_bytes.len() != expected_label_length {
            return Err(
                MnistError::LabelLength {
                    actual: label_bytes.len(),
                    expected: expected_label_length,
                },
            );
        }
        let mut images: Vec<u8> = Vec::new();
        let mut position: usize = 16;
        while position < image_bytes.len()
            invariant
                16 <= position <= image_bytes@.len(),
                images@ == image_bytes@.subrange(16, position as int),
            decreases image_bytes@.len() - position,
        {
            images.push(image_bytes[position]);
            position = position + 1;
            assert(images@ =~= image_bytes@.subrange(16, position as int));
        }
        assert(mnist_error(image_bytes@, label_bytes@) == match first_label_above_nine(
            label_bytes@,
            8,
        ) {
            Some(label) => Some(MnistError::LabelOutOfRange(label)),
            None => None,
        });
        let mut labels: Vec<usize> = Vec::new();
        let mut position: usize = 8;
        while position < label_bytes.len()
            invariant
                8 <= position <= label_bytes@.len(),
                labels@ == label_bytes@.subrange(8, position as int).map_values(|b: u8| b as usize),
                first_label_above_nine(label_bytes@, 8) == first_label_above_nine(
                    label_bytes@,
                    position as int,
                ),
                forall|i: int| 0 <= i < labels@.len() ==> #[trigger] labels@[i] <= 9,
                mnist_error(image_bytes@, label_bytes@) == match first_label_above_nine(
                    label_bytes@,
                    8,
                ) {
                    Some(label) => Some(MnistError::LabelOutOfRange(label)),
                    None => None,
                },
            decreases label_bytes@.len() - position,
        {
            let label = label_bytes[position];
            if label > 9 {
                return Err(MnistError::LabelOutOfRange(label));
            }
            labels.push(label as usize);
            position = position + 1;
            assert(labels@ =~= label_bytes@.subrange(8, position as int).map_values(
                |b: u8| b as usize,
            ));
        }
        assert(images@ =~= image_bytes@.skip(16));
        assert(label_bytes@.subrange(8, label_bytes@.len() as int) =~= label_bytes@.skip(8));
        proof {
            assert(image_count * image_size == image_size * image_count) by (nonlinear_arith);
            assert(rows * columns >= 1) by (nonlinear_arith)
                requires
                    rows >= 1,
                    columns >= 1,
            ;
        }
        Ok(MnistDataset { images, labels, rows, columns })
    }

    /// The number of images.
    pub fn len(&self) -> (count: usize)
        ensures
            count == self.label_seq().len(),
    {
        self.labels.len()
    }

    /// Whether there is no image (never, for a well-formed dataset).
    pub fn is_empty(&self) -> (empty: bool)
        ensures
            empty == (self.label_seq().len() == 0),
    {
        self.labels.len() == 0
    }

    /// The number of pixel rows of an image.
    pub fn rows(&self) -> (rows: usize)
        ensures
            rows == self.row_count(),
    {
        self.rows
    }

    /// The number of pixel columns of an image.
    pub fn columns(&self) -> (columns: usize)
        ensures
            columns == self.column_count(),
    {
        self.columns
    }

    /// The number of pixels of an image.
    pub fn image_size(&self) -> (size: usize)
        requires
            self.wf(),
        ensures
            size == self.pixel_count(),
    {
        self.rows * self.columns
    }

    /// The label of each image.
    pub fn labels(&self) -> (labels: &[usize])
        ensures
            labels@ == self.label_seq(),
    {
        self.labels.as_slice()
    }

    /// The pixels of image `index`, each turned into an element by
    /// `normalize`.
    pub fn image<T, F: Fn(u8) -> T>(&self, index: usize, normalize: F) -> (pixels: Vec<T>)
        requires
            self.wf(),
            index < self.label_seq().len(),
            forall|pixel: u8| #[trigger] normalize.requires((pixel,)),
        ensures
            pixels@.len() == self.pixel_count(),
            forall|p: int|
                0 <= p < self.pixel_count() ==> normalize.ensures(
                    (self.pixels()[index * self.pixel_count() + p],),
                    #[trigger] pixels@[p],
                ),
    {
        let image_size = self.rows * self.columns;
        proof {
            lemma_matrix_position(self.label_seq().len() as int, image_size as int, index as int, 0);
        }
        let start = index * image_size;
        let mut pixels: Vec<T> = Vec::new();
        let mut offset: usize = 0;
        while offset < image_size
            invariant
                self.wf(),
                image_size == self.pixel_count(),
                index < self.label_seq().len(),
                start == index * image_size,
                offset <= image_size,
                pixels@.len() == offset,
                forall|pixel: u8| #[trigger] normalize.requires((pixel,)),
                forall|p: int|
                    0 <= p < offset ==> normalize.ensures(
                        (self.pixels()[start + p],),
                        #[trigger] pixels@[p],
                    ),
            decreases image_size - offset,
        {
            proof {
                lemma_matrix_position(
                    self.label_seq().len() as int,
                    image_size as int,
                    index as int,
                    offset as int,
                );
            }
            let value = normalize(self.images[start + offset]);
            pixels.push(value);
            offset = offset + 1;
        }
        pixels
    }

    /// Writes the images at `indices`, in that order and normalized, into
    /// the rows of `inputs`, and their labels into `labels`.
    pub fn fill_batch<T: Copy, F: Fn(u8) -> T>(
        &self,
        indices: &[usize],
        inputs: &mut Tensor<T>,
        labels: &mut Vec<usize>,
        normalize: F,
    )
        requires
            self.wf(),
            indices@.len() > 0,
            old(inputs).wf(),
            old(inputs).dims() == seq![indices@.len() as usize, self.pixel_count() as usize],
            forall|b: int| 0 <= b < indices@.len() ==> #[trigger] indices@[b] < self.label_seq().len(),
            forall|pixel: u8| #[trigger] normalize.requires((pixel,)),
        ensures
            final(inputs).wf(),
            final(inputs).dims() == old(inputs).dims(),
            final(labels)@ == Seq::new(indices@.len(), |b: int| self.label_seq()[indices@[b] as int]),
            forall|b: int, p: int|
                0 <= b < indices@.len() && 0 <= p < self.pixel_count() ==> normalize.ensures(
                    (self.pixels()[indices@[b] * self.pixel_count() + p],),
                    #[trigger] final(inputs).at2(b, p),
                ),
    {
        let image_size = self.rows * self.columns;
        let batch_size = indices.len();
        proof {
            lemma_matrix_product(inputs.dims());
        }
        labels.clear();
        labels.reserve(batch_size);
        let mut row: usize = 0;
        while row < batch_size
            invariant
                self.wf(),
                image_size == self.pixel_count(),
                batch_size == indices@.len(),
                row <= batch_size,
                inputs.wf(),
                inputs.dims() == old(inputs).dims(),
                inputs.dims() == seq![batch_size, image_size],
                inputs@.len() == batch_size * image_size,
                labels@ == Seq::new(row as nat, |b: int| self.label_seq()[indices@[b] as int]),
                forall|b: int| 0 <= b < indices@.len() ==> #[trigger] indices@[b] < self.label_seq().len(),
                forall|pixel: u8| #[trigger] normalize.requires((pixel,)),
                forall|b: int, p: int|
                    0 <= b < row && 0 <= p < image_size ==> normalize.ensures(
                        (self.pixels()[indices@[b] * image_size + p],),
                        #[trigger] inputs.at2(b, p),
                    ),
            decreases batch_size - row,
        {
            let dataset_index = indices[row];
            proof {
                lemma_matrix_position(batch_size as int, image_size as int, row as int, 0);
                lemma_matrix_position(
                    self.label_seq().len() as int,
                    image_size as int,
                    dataset_index as int,
                    0,
                );
            }
            let source_start = dataset_index * image_size;
            let destination_start = row * image_size;
            let mut offset: usize = 0;
            while offset < image_size
                invariant
                    self.wf(),
                    image_size == self.pixel_count(),
                    batch_size == indices@.len(),
                    row < batch_size,
                    dataset_index == indices@[row as int],
                    dataset_index < self.label_seq().len(),
                    source_start == dataset_index * image_size,
                    destination_start == row * image_size,
                    offset <= image_size,
                    inputs.wf(),
                    inputs.dims() == old(inputs).dims(),
                    inputs.dims() == seq![batch_size, image_size],
                    inputs@.len() == batch_size * image_size,
                    forall|pixel: u8| #[trigger] normalize.requires((pixel,)),
                    forall|b: int, p: int|
                        0 <= b < row && 0 <= p < image_size ==> normalize.ensures(
                            (self.pixels()[indices@[b] * image_size + p],),
                            #[trigger] inputs.at2(b, p),
                        ),
                    forall|p: int|
                        0 <= p < offset ==> normalize.ensures(
                            (self.pixels()[source_start + p],),
                            #[trigger] inputs.at2(row as int, p),
                        ),
                decreases image_size - offset,
            {
                proof {
                    lemma_matrix_position(
                        batch_size as int,
                        image_size as int,
                        row as int,
                        offset as int,
                    );
                    lemma_matrix_position(
                        self.label_seq().len() as int,
                        image_size as int,
                        dataset_index as int,
                        offset as int,
                    );
                }
                let value = normalize(self.images[source_start + offset]);
                let ghost before = *inputs;
                inputs.set_flat(destination_start + offset, value);
                proof {
                    assert forall|b: int, p: int|
                        0 <= b < row && 0 <= p < image_size implies normalize.ensures(
                            (self.pixels()[indices@[b] * image_size + p],),
                            #[trigger] inputs.at2(b, p),
                        ) by {
                        crate::tensor::lemma_matrix_positions_distinct(
                            image_size as int,
                            b,
                            p,
                            row as int,
                            offset as int,
                        );
                        lemma_matrix_position(batch_size as int, image_size as int, b, p);
                        assert(inputs.dims()[1] == image_size);
                        assert(before.dims()[1] == image_size);
                        assert(inputs@[b * image_size + p] == before@[b * image_size + p]);
                        assert(inputs.at2(b, p) == before.at2(b, p));
                    }
                    assert forall|p: int|
                        0 <= p < offset + 1 implies normalize.ensures(
                            (self.pixels()[source_start + p],),
                            #[trigger] inputs.at2(row as int, p),
                        ) by {
                        if p < offset {
                            assert(inputs.at2(row as int, p) == before.at2(row as int, p));
                        }
                    }
                }
                offset = offset + 1;
            }
            labels.push(self.labels[dataset_index]);
            proof {
                assert(labels@ =~= Seq::new(
                    (row + 1) as nat,
                    |b: int| self.label_seq()[indices@[b] as int],
                ));
            }
            row = row + 1;
        }
    }

    /// A new batch tensor holding the images at `indices`, in that order and
    /// normalized, one per row, and their labels.
    pub fn batch<T: Copy, F: Fn(u8) -> T>(&self, indices: &[usize], normalize: F) -> (batch: (
        Tensor<T>,
        Vec<usize>,
    ))
        requires
            self.wf(),
            indices@.len() > 0,
            indices@.len() * self.pixel_count() <= usize::MAX,
            forall|b: int| 0 <= b < indices@.len() ==> #[trigger] indices@[b] < self.label_seq().len(),
            forall|pixel: u8| #[trigger] normalize.requires((pixel,)),
        ensures
            batch.0.wf(),
            batch.0.dims() == seq![indices@.len() as usize, self.pixel_count() as usize],
            batch.1@ == Seq::new(indices@.len(), |b: int| self.label_seq()[indices@[b] as int]),
            forall|b: int, p: int|
                0 <= b < indices@.len() && 0 <= p < self.pixel_count() ==> normalize.ensures(
                    (self.pixels()[indices@[b] * self.pixel_count() + p],),
                    #[trigger] batch.0.at2(b, p),
                ),
    {
        let image_size = self.rows * self.columns;
        let first = normalize(0u8);
        let shape: Vec<usize> = vec![indices.len(), image_size];
        proof {
            lemma_matrix_product(shape@);
        }
        let mut inputs = Tensor::filled(shape.as_slice(), first);
        assert(inputs.dims() =~= seq![indices@.len() as usize, self.pixel_count() as usize]);
        let mut labels: Vec<usize> = Vec::new();
        self.fill_batch(indices, &mut inputs, &mut labels, normalize);
        (inputs, labels)
    }

    /// `batch` for the consecutive images `start..end`.
    pub fn batch_range<T: Copy, F: Fn(u8) -> T>(&self, start: usize, end: usize, normalize: F) -> (batch: (
        Tensor<T>,
        Vec<usize>,
    ))
        requires
            self.wf(),
            start < end <= self.label_seq().len(),
            forall|pixel: u8| #[trigger] normalize.requires((pixel,)),
        ensures
            batch.0.wf(),
            batch.0.dims() == seq![(end - start) as usize, self.pixel_count() as usize],
            batch.1@ == self.label_seq().subrange(start as int, end as int),
            forall|b: int, p: int|
                0 <= b < end - start && 0 <= p < self.pixel_count() ==> normalize.ensures(
                    (self.pixels()[(start + b) * self.pixel_count() + p],),
                    #[trigger] batch.0.at2(b, p),
                ),
    {
        let mut indices: Vec<usize> = Vec::new();
        let mut index = start;
        while index < end
            invariant
                start <= index <= end,
                indices@ == Seq::new((index - start) as nat, |b: int| (start + b) as usize),
            decreases end - index,
        {
            indices.push(index);
            index = index + 1;
            assert(indices@ =~= Seq::new((index - start) as nat, |b: int| (start + b) as usize));
        }
        proof {
            let count = (end - start) as int;
            assert(count * self.pixel_count() <= self.label_seq().len() * self.pixel_count())
                by (nonlinear_arith)
                requires
                    count <= self.label_seq().len(),
                    self.pixel_count() >= 0,
            ;
        }
        let batch = self.batch(indices.as_slice(), normalize);
        assert(batch.1@ =~= self.label_seq().subrange(start as int, end as int));
        batch
    }
}

} // verus!
