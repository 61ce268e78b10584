//! The model file format: the magic `MLENG001`, the input, hidden and
//! output sizes as little-endian `u64`, then the four parameter tensors
//! (first weights, first biases, second weights, second biases), each as a
//! little-endian `u64` element count followed by its elements as
//! little-endian 32-bit words (the bit patterns of the numbers).
use vstd::prelude::*;

verus! {

/// The eight little-endian bytes of a `u64`.
pub open spec fn le_bytes_u64(value: u64) -> Seq<u8> {
    seq![
        (value & 0xff) as u8,
        ((value >> 8u64) & 0xff) as u8,
        ((value >> 16u64) & 0xff) as u8,
        ((value >> 24u64) & 0xff) as u8,
        ((value >> 32u64) & 0xff) as u8,
        ((value >> 40u64) & 0xff) as u8,
        ((value >> 48u64) & 0xff) as u8,
        ((value >> 56u64) & 0xff) as u8,
    ]
}

/// The four little-endian bytes of a `u32`.
pub open spec fn le_bytes_u32(value: u32) -> Seq<u8> {
    seq![
        (value & 0xff) as u8,
        ((value >> 8u32) & 0xff) as u8,
        ((value >> 16u32) & 0xff) as u8,
        ((value >> 24u32) & 0xff) as u8,
    ]
}

/// The little-endian `u64` in the eight bytes at `offset`.
pub open spec fn le_u64_at(bytes: Seq<u8>, offset: int) -> u64 {
    (bytes[offset] as u64) | ((bytes[offset + 1] as u64) << 8u64) | ((bytes[offset + 2] as u64)
        << 16u64) | ((bytes[offset + 3] as u64) << 24u64) | ((bytes[offset + 4] as u64) << 32u64)
        | ((bytes[offset + 5] as u64) << 40u64) | ((bytes[offset + 6] as u64) << 48u64) | ((bytes[offset
        + 7] as u64) << 56u64)
}

/// The little-endian `u32` in the four bytes at `offset`.
pub open spec fn le_u32_at(bytes: Seq<u8>, offset: int) -> u32 {
    (bytes[offset] as u32) | ((bytes[offset + 1] as u32) << 8u32) | ((bytes[offset + 2] as u32)
        << 16u32) | ((bytes[offset + 3] as u32) << 24u32)
}

/// Reading back the bytes of a `u64` gives the `u64`.
pub proof fn lemma_le_u64_roundtrip(value: u64)
    ensures
        le_u64_at(le_bytes_u64(value), 0) == value,
{
    let b = le_bytes_u64(value);
    let b0 = (value & 0xff) as u8;
    let b1 = ((value >> 8u64) & 0xff) as u8;
    let b2 = ((value >> 16u64) & 0xff) as u8;
    let b3 = ((value >> 24u64) & 0xff) as u8;
    let b4 = ((value >> 32u64) & 0xff) as u8;
    let b5 = ((value >> 40u64) & 0xff) as u8;
    let b6 = ((value >> 48u64) & 0xff) as u8;
    let b7 = ((value >> 56u64) & 0xff) as u8;
    assert(b[0] == b0 && b[1] == b1 && b[2] == b2 && b[3] == b3 && b[4] == b4 && b[5] == b5
        && b[6] == b6 && b[7] == b7);
    assert((b0 as u64) | ((b1 as u64) << 8u64) | ((b2 as u64) << 16u64) | ((b3 as u64) << 24u64)
        | ((b4 as u64) << 32u64) | ((b5 as u64) << 40u64) | ((b6 as u64) << 48u64) | ((b7 as u64)
        << 56u64) == value) by (bit_vector)
        requires
            b0 == (value & 0xff) as u8,
            b1 == ((value >> 8u64) & 0xff) as u8,
            b2 == ((value >> 16u64) & 0xff) as u8,
            b3 == ((value >> 24u64) & 0xff) as u8,
            b4 == ((value >> 32u64) & 0xff) as u8,
            b5 == ((value >> 40u64) & 0xff) as u8,
            b6 == ((value >> 48u64) & 0xff) as u8,
            b7 == ((value >> 56u64) & 0xff) as u8,
    ;
}

/// Reading back the bytes of a `u32` gives the `u32`.
pub proof fn lemma_le_u32_roundtrip(value: u32)
    ensures
        le_u32_at(le_bytes_u32(value), 0) == value,
{
    let b = le_bytes_u32(value);
    let b0 = (value & 0xff) as u8;
    let b1 = ((value >> 8u32) & 0xff) as u8;
    let b2 = ((value >> 16u32) & 0xff) as u8;
    let b3 = ((value >> 24u32) & 0xff) as u8;
    assert(b[0] == b0 && b[1] == b1 && b[2] == b2 && b[3] == b3);
    assert((b0 as u32) | ((b1 as u32) << 8u32) | ((b2 as u32) << 16u32) | ((b3 as u32) << 24u32)
        == value) by (bit_vector)
        requires
            b0 == (value & 0xff) as u8,
            b1 == ((value >> 8u32) & 0xff) as u8,
            b2 == ((value >> 16u32) & 0xff) as u8,
            b3 == ((value >> 24u32) & 0xff) as u8,
    ;
}

/// The eight magic bytes `MLENG001` that open a model file.
pub open spec fn model_magic() -> Seq<u8> {
    seq![0x4du8, 0x4cu8, 0x45u8, 0x4eu8, 0x47u8, 0x30u8, 0x30u8, 0x31u8]
}

/// The size field that was read.
#[derive(Clone, Copy, Debug, PartialEq, Eq, Structural)]
pub enum ModelField {
    InputSize,
    HiddenSize,
    OutputSize,
    TensorLength,
}

/// Why bytes are not a model file.
#[derive(Clone, Copy, Debug, PartialEq, Eq, Structural)]
pub enum ModelError {
    /// The bytes end before a field does.
    UnexpectedEnd,
    /// The bytes do not start with the magic `MLENG001`.
    NotAModel,
    /// A stored size does not fit in `usize`.
    ValueTooLarge(ModelField),
    /// A layer size is zero.
    ZeroDimension,
    /// The element count of a tensor's shape does not fit in `usize`.
    ShapeTooLarge,
    /// The stored element count and the count the shape asks for.
    LengthMismatch { stored: usize, expected: usize },
}

/// The parameters of a two-layer network, each number held as the bit
/// pattern of the 32-bit float it stands for.
#[derive(Clone, Debug)]
pub struct ModelParameters {
    pub input_size: usize,
    pub hidden_size: usize,
    pub output_size: usize,
    pub dense1_weights: Vec<u32>,
    pub dense1_biases: Vec<u32>,
    pub dense2_weights: Vec<u32>,
    pub dense2_biases: Vec<u32>,
}

/// The words, each as its four little-endian bytes, one after the other.
pub open spec fn words_bytes(words: Seq<u32>) -> Seq<u8>
    decreases words.len(),
{
    if words.len() == 0 {
        Seq::empty()
    } else {
        words_bytes(words.drop_last()) + le_bytes_u32(words.last())
    }
}

/// A tensor as the file stores it: its element count, then its elements.
pub open spec fn tensor_bytes(words: Seq<u32>) -> Seq<u8> {
    le_bytes_u64(words.len() as u64) + words_bytes(words)
}

/// The whole file for these parameters.
#[verifier::opaque]
pub open spec fn model_bytes(
    input_size: usize,
    hidden_size: usize,
    output_size: usize,
    dense1_weights: Seq<u32>,
    dense1_biases: Seq<u32>,
    dense2_weights: Seq<u32>,
    dense2_biases: Seq<u32>,
) -> Seq<u8> {
    model_magic() + le_bytes_u64(input_size as u64) + le_bytes_u64(hidden_size as u64)
        + le_bytes_u64(output_size as u64) + tensor_bytes(dense1_weights) + tensor_bytes(
        dense1_biases,
    ) + tensor_bytes(dense2_weights) + tensor_bytes(dense2_biases)
}

/// The `count` little-endian words starting at `offset`.
pub open spec fn words_at(bytes: Seq<u8>, offset: int, count: nat) -> Seq<u32> {
    Seq::new(count, |i: int| le_u32_at(bytes, offset + 4 * i))
}

/// The product of the first `count` dimensions taken left to right, or
/// `None` as soon as a partial product leaves `usize`.
pub open spec fn checked_product(shape: Seq<usize>, count: nat) -> Option<int>
    decreases count,
{
    if count == 0 {
        Some(1)
    } else {
        match checked_product(shape, (count - 1) as nat) {
            None => None,
            Some(partial) => if partial * shape[count - 1] > usize::MAX {
                None
            } else {
                Some(partial * shape[count - 1])
            },
        }
    }
}

/// What `read_u64` gives at `offset`.
pub open spec fn read_u64_result(bytes: Seq<u8>, offset: int) -> Result<u64, ModelError> {
    if offset + 8 > bytes.len() {
        Err(ModelError::UnexpectedEnd)
    } else {
        Ok(le_u64_at(bytes, offset))
    }
}

/// What `read_usize` gives at `offset`.
pub open spec fn read_usize_result(bytes: Seq<u8>, offset: int, field: ModelField) -> Result<
    usize,
    ModelError,
> {
    if offset + 8 > bytes.len() {
        Err(ModelError::UnexpectedEnd)
    } else if le_u64_at(bytes, offset) > usize::MAX {
        Err(ModelError::ValueTooLarge(field))
    } else {
        Ok(le_u64_at(bytes, offset) as usize)
    }
}

/// The first check that the tensor stored at `offset` fails, for a tensor
/// of this shape, or `None` when it reads.
pub open spec fn tensor_error(bytes: Seq<u8>, offset: int, shape: Seq<usize>) -> Option<ModelError> {
    if offset + 8 > bytes.len() {
        Some(ModelError::UnexpectedEnd)
    } else if le_u64_at(bytes, offset) > usize::MAX {
        Some(ModelError::ValueTooLarge(ModelField::TensorLength))
    } else {
        match checked_product(shape, shape.len()) {
            None => Some(ModelError::ShapeTooLarge),
            Some(expected) => if le_u64_at(bytes, offset) != expected {
                Some(
                    ModelError::LengthMismatch {
                        stored: le_u64_at(bytes, offset) as usize,
                        expected: expected as usize,
                    },
                )
            } else if offset + 8 + 4 * le_u64_at(bytes, offset) > bytes.len() {
                Some(ModelError::UnexpectedEnd)
            } else {
                None
            },
        }
    }
}

/// Where the tensor stored at `offset` ends.
pub open spec fn tensor_end(bytes: Seq<u8>, offset: int) -> int {
    offset + 8 + 4 * le_u64_at(bytes, offset)
}

/// The elements of the tensor stored at `offset`.
pub open spec fn tensor_words(bytes: Seq<u8>, offset: int) -> Seq<u32> {
    words_at(bytes, offset + 8, le_u64_at(bytes, offset) as nat)
}

/// The stored input size.
pub open spec fn stored_input_size(bytes: Seq<u8>) -> usize {
    le_u64_at(bytes, 8) as usize
}

/// The stored hidden size.
pub open spec fn stored_hidden_size(bytes: Seq<u8>) -> usize {
    le_u64_at(bytes, 16) as usize
}

/// The stored output size.
pub open spec fn stored_output_size(bytes: Seq<u8>) -> usize {
    le_u64_at(bytes, 24) as usize
}

/// Where the first weights start.
pub open spec fn dense1_weights_offset(bytes: Seq<u8>) -> int {
    32
}

/// Where the first biases start.
pub open spec fn dense1_biases_offset(bytes: Seq<u8>) -> int {
    tensor_end(bytes, 32)
}

/// Where the second weights start.
pub open spec fn dense2_weights_offset(bytes: Seq<u8>) -> int {
    tensor_end(bytes, dense1_biases_offset(bytes))
}

/// Where the second biases start.
pub open spec fn dense2_biases_offset(bytes: Seq<u8>) -> int {
    tensor_end(bytes, dense2_weights_offset(bytes))
}

/// The first check that a model file fails, in the order the reader makes
/// them, or `None` when it reads. Bytes after the last tensor are ignored.
pub open spec fn decode_error(bytes: Seq<u8>) -> Option<ModelError> {
    if bytes.len() < 8 {
        Some(ModelError::UnexpectedEnd)
    } else if bytes.subrange(0, 8) != model_magic() {
        Some(ModelError::NotAModel)
    } else if read_usize_result(bytes, 8, ModelField::InputSize) is Err {
        Some(read_usize_result(bytes, 8, ModelField::InputSize)->Err_0)
    } else if read_usize_result(bytes, 16, ModelField::HiddenSize) is Err {
        Some(read_usize_result(bytes, 16, ModelField::HiddenSize)->Err_0)
    } else if read_usize_result(bytes, 24, ModelField::OutputSize) is Err {
        Some(read_usize_result(bytes, 24, ModelField::OutputSize)->Err_0)
    } else if stored_input_size(bytes) == 0 || stored_hidden_size(bytes) == 0
        || stored_output_size(bytes) == 0 {
        Some(ModelError::ZeroDimension)
    } else if tensor_error(
        bytes,
        dense1_weights_offset(bytes),
        seq![stored_input_size(bytes), stored_hidden_size(bytes)],
    ) is Some {
        tensor_error(
            bytes,
            dense1_weights_offset(bytes),
            seq![stored_input_size(bytes), stored_hidden_size(bytes)],
        )
    } else if tensor_error(bytes, dense1_biases_offset(bytes), seq![stored_hidden_size(bytes)]) is Some {
        tensor_error(bytes, dense1_biases_offset(bytes), seq![stored_hidden_size(bytes)])
    } else if tensor_error(
        bytes,
        dense2_weights_offset(bytes),
        seq![stored_hidden_size(bytes), stored_output_size(bytes)],
    ) is Some {
        tensor_error(
            bytes,
            dense2_weights_offset(bytes),
            seq![stored_hidden_size(bytes), stored_output_size(bytes)],
        )
    } else {
        tensor_error(bytes, dense2_biases_offset(bytes), seq![stored_output_size(bytes)])
    }
}

/// Appends the eight little-endian bytes of `value`.
pub fn write_u64(out: &mut Vec<u8>, value: u64)
    ensures
        final(out)@ == old(out)@ + le_bytes_u64(value),
{
    out.push((value & 0xff) as u8);
    out.push(((value >> 8u64) & 0xff) as u8);
    out.push(((value >> 16u64) & 0xff) as u8);
    out.push(((value >> 24u64) & 0xff) as u8);
    out.push(((value >> 32u64) & 0xff) as u8);
    out.push(((value >> 40u64) & 0xff) as u8);
    out.push(((value >> 48u64) & 0xff) as u8);
    out.push(((value >> 56u64) & 0xff) as u8);
    assert(out@ =~= old(out)@ + le_bytes_u64(value));
}

/// Appends the four little-endian bytes of `value`.
fn write_u32(out: &mut Vec<u8>, value: u32)
    ensures
        final(out)@ == old(out)@ + le_bytes_u32(value),
{
    out.push((value & 0xff) as u8);
    out.push(((value >> 8u32) & 0xff) as u8);
    out.push(((value >> 16u32) & 0xff) as u8);
    out.push(((value >> 24u32) & 0xff) as u8);
    assert(out@ =~= old(out)@ + le_bytes_u32(value));
}

/// Reads the little-endian `u64` at `offset`.
pub fn read_u64(bytes: &[u8], offset: usize) -> (value: Result<u64, ModelError>)
    requires
        offset <= bytes@.len(),
    ensures
        value == read_u64_result(bytes@, offset as int),
{
    if bytes.len() - offset < 8 {
        return Err(ModelError::UnexpectedEnd);
    }
    Ok((bytes[offset] as u64) | ((bytes[offset + 1] as u64) << 8u64) | ((bytes[offset + 2] as u64)
        << 16u64) | ((bytes[offset + 3] as u64) << 24u64) | ((bytes[offset + 4] as u64) << 32u64)
        | ((bytes[offset + 5] as u64) << 40u64) | ((bytes[offset + 6] as u64) << 48u64) | ((bytes[offset
        + 7] as u64) << 56u64))
}

/// Reads the little-endian `u32` at `offset`.
fn read_u32(bytes: &[u8], offset: usize) -> (value: u32)
    requires
        offset + 4 <= bytes@.len(),
    ensures
        value == le_u32_at(bytes@, offset as int),
{
    (bytes[offset] as u32) | ((bytes[offset + 1] as u32) << 8u32) | ((bytes[offset + 2] as u32)
        << 16u32) | ((bytes[offset + 3] as u32) << 24u32)
}

/// Reads the little-endian `u64` at `offset` as a `usize`.
pub fn read_usize(bytes: &[u8], offset: usize, field: ModelField) -> (value: Result<
    usize,
    ModelError,
>)
    requires
        offset <= bytes@.len(),
    ensures
        value == read_usize_result(bytes@, offset as int, field),
{
    let value = read_u64(bytes, offset)?;
    if value > usize::MAX as u64 {
        return Err(ModelError::ValueTooLarge(field));
    }
    Ok(value as usize)
}

/// Appends a tensor: its element count, then its elements.
pub fn write_tensor(out: &mut Vec<u8>, values: &[u32])
    ensures
        final(out)@ == old(out)@ + tensor_bytes(values@),
{
    write_u64(out, values.len() as u64);
    let ghost start = out@;
    let mut index: usize = 0;
    while index < values.len()
        invariant
            index <= values@.len(),
            out@ == start + words_bytes(values@.subrange(0, index as int)),
        decreases values.len() - index,
    {
        write_u32(out, values[index]);
        index = index + 1;
        proof {
            let taken = values@.subrange(0, index as int);
            assert(taken.drop_last() =~= values@.subrange(0, index - 1));
            assert(out@ =~= start + words_bytes(taken));
        }
    }
    assert(values@.subrange(0, values@.len() as int) =~= values@);
    assert(out@ =~= old(out)@ + tensor_bytes(values@));
}

/// Computes the product of the dimensions, left to right, or `None` when a
/// partial product overflows.
fn shape_element_count(shape: &[usize]) -> (count: Option<usize>)
    ensures
        match checked_product(shape@, shape@.len()) {
            None => count is None,
            Some(product) => count == Some(product as usize) && 0 <= product <= usize::MAX,
        },
{
    let mut total: usize = 1;
    let mut index: usize = 0;
    while index < shape.len()
        invariant
            index <= shape@.len(),
            checked_product(shape@, index as nat) == Some(total as int),
        decreases shape.len() - index,
    {
        match total.checked_mul(shape[index]) {
            Some(next) => {
                total = next;
            },
            None => {
                proof {
                    lemma_checked_product_stays_none(shape@, (index + 1) as nat, shape@.len());
                }
                return None;
            },
        }
        index = index + 1;
    }
    Some(total)
}

/// Once a partial product overflows, every longer one does too.
proof fn lemma_checked_product_stays_none(shape: Seq<usize>, from: nat, to: nat)
    requires
        from <= to,
        checked_product(shape, from) is None,
    ensures
        checked_product(shape, to) is None,
    decreases to - from,
{
    if from < to {
        lemma_checked_product_stays_none(shape, from, (to - 1) as nat);
    }
}

/// Reads the tensor stored at `offset` for the given shape, returning its
/// elements and where it ends.
pub fn read_tensor(bytes: &[u8], offset: usize, shape: &[usize]) -> (tensor: Result<
    (Vec<u32>, usize),
    ModelError,
>)
    requires
        offset <= bytes@.len(),
    ensures
        match tensor {
            Err(error) => tensor_error(bytes@, offset as int, shape@) == Some(error),
            Ok((values, end)) => {
                &&& tensor_error(bytes@, offset as int, shape@) is None
                &&& values@ == tensor_words(bytes@, offset as int)
                &&& end == tensor_end(bytes@, offset as int)
            },
        },
{
    let length = bytes.len();
    let stored_length = read_usize(bytes, offset, ModelField::TensorLength)?;
    let expected_length = match shape_element_count(shape) {
        Some(count) => count,
        None => return Err(ModelError::ShapeTooLarge),
    };
    if stored_length != expected_length {
        return Err(ModelError::LengthMismatch { stored: stored_length, expected: expected_length });
    }
    let start = offset + 8;
    let room = length - start;
    proof {
        let count = stored_length as int;
        assert((room / 4 < count) == (room < 4 * count)) by (nonlinear_arith)
            requires
                room >= 0,
                count >= 0,
        ;
    }
    if room / 4 < stored_length {
        return Err(ModelError::UnexpectedEnd);
    }
    let mut values: Vec<u32> = Vec::new();
    let mut index: usize = 0;
    while index < stored_length
        invariant
            start == offset + 8,
            length == bytes@.len(),
            start + 4 * stored_length <= bytes@.len(),
            index <= stored_length,
            values@ == words_at(bytes@, start as int, index as nat),
        decreases stored_length - index,
    {
        let value = read_u32(bytes, start + 4 * index);
        values.push(value);
        index = index + 1;
        assert(values@ =~= words_at(bytes@, start as int, index as nat));
    }
    Ok((values, start + 4 * stored_length))
}

/// The file bytes of a set of parameters.
pub fn encode_model(parameters: &ModelParameters) -> (bytes: Vec<u8>)
    ensures
        bytes@ == model_bytes(
            parameters.input_size,
            parameters.hidden_size,
            parameters.output_size,
            parameters.dense1_weights@,
            parameters.dense1_biases@,
            parameters.dense2_weights@,
            parameters.dense2_biases@,
        ),
{
    reveal(model_bytes);
    let mut bytes: Vec<u8> = Vec::new();
    bytes.push(0x4du8);
    bytes.push(0x4cu8);
    bytes.push(0x45u8);
    bytes.push(0x4eu8);
    bytes.push(0x47u8);
    bytes.push(0x30u8);
    bytes.push(0x30u8);
    bytes.push(0x31u8);
    assert(bytes@ =~= model_magic());
    write_u64(&mut bytes, parameters.input_size as u64);
    write_u64(&mut bytes, parameters.hidden_size as u64);
    write_u64(&mut bytes, parameters.output_size as u64);
    write_tensor(&mut bytes, parameters.dense1_weights.as_slice());
    write_tensor(&mut bytes, parameters.dense1_biases.as_slice());
    write_tensor(&mut bytes, parameters.dense2_weights.as_slice());
    write_tensor(&mut bytes, parameters.dense2_biases.as_slice());
    bytes
}

/// Reads a model file: the magic, the three layer sizes and the four
/// tensors, whose element counts must match the sizes.
pub fn decode_model(bytes: &[u8]) -> (parameters: Result<ModelParameters, ModelError>)
    ensures
        match parameters {
            Err(error) => decode_error(bytes@) == Some(error),
            Ok(parameters) => {
                &&& decode_error(bytes@) is None
                &&& parameters_fit(
                    parameters.input_size,
                    parameters.hidden_size,
                    parameters.output_size,
                    parameters.dense1_weights@,
                    parameters.dense1_biases@,
                    parameters.dense2_weights@,
                    parameters.dense2_biases@,
                )
                &&& parameters.input_size == stored_input_size(bytes@)
                &&& parameters.hidden_size == stored_hidden_size(bytes@)
                &&& parameters.output_size == stored_output_size(bytes@)
                &&& parameters.dense1_weights@ == tensor_words(bytes@, dense1_weights_offset(bytes@))
                &&& parameters.dense1_biases@ == tensor_words(bytes@, dense1_biases_offset(bytes@))
                &&& parameters.dense2_weights@ == tensor_words(bytes@, dense2_weights_offset(bytes@))
                &&& parameters.dense2_biases@ == tensor_words(bytes@, dense2_biases_offset(bytes@))
            },
        },
{
    if bytes.len() < 8 {
        return Err(ModelError::UnexpectedEnd);
    }
    if bytes[0] != 0x4du8 || bytes[1] != 0x4cu8 || bytes[2] != 0x45u8 || bytes[3] != 0x4eu8
        || bytes[4] != 0x47u8 || bytes[5] != 0x30u8 || bytes[6] != 0x30u8 || bytes[7] != 0x31u8 {
        assert(bytes@.subrange(0, 8) != model_magic()) by {
            let magic = model_magic();
            if bytes@.subrange(0, 8) == magic {
                assert(bytes@.subrange(0, 8)[0] == magic[0]);
                assert(bytes@.subrange(0, 8)[1] == magic[1]);
                assert(bytes@.subrange(0, 8)[2] == magic[2]);
                assert(bytes@.subrange(0, 8)[3] == magic[3]);
                assert(bytes@.subrange(0, 8)[4] == magic[4]);
                assert(bytes@.subrange(0, 8)[5] == magic[5]);
                assert(bytes@.subrange(0, 8)[6] == magic[6]);
                assert(bytes@.subrange(0, 8)[7] == magic[7]);
            }
        }
        return Err(ModelError::NotAModel);
    }
    assert(bytes@.subrange(0, 8) =~= model_magic());
    let input_size = read_usize(bytes, 8, ModelField::InputSize)?;
    let hidden_size = read_usize(bytes, 16, ModelField::HiddenSize)?;
    let output_size = read_usize(bytes, 24, ModelField::OutputSize)?;
    if input_size == 0 || hidden_size == 0 || output_size == 0 {
        return Err(ModelError::ZeroDimension);
    }
    let first_shape: Vec<usize> = vec![input_size, hidden_size];
    let second_shape: Vec<usize> = vec![hidden_size];
    let third_shape: Vec<usize> = vec![hidden_size, output_size];
    let fourth_shape: Vec<usize> = vec![output_size];
    assert(first_shape@ =~= seq![stored_input_size(bytes@), stored_hidden_size(bytes@)]);
    assert(second_shape@ =~= seq![stored_hidden_size(bytes@)]);
    assert(third_shape@ =~= seq![stored_hidden_size(bytes@), stored_output_size(bytes@)]);
    assert(fourth_shape@ =~= seq![stored_output_size(bytes@)]);
    let (dense1_weights, offset) = read_tensor(bytes, 32, first_shape.as_slice())?;
    let (dense1_biases, offset) = read_tensor(bytes, offset, second_shape.as_slice())?;
    let (dense2_weights, offset) = read_tensor(bytes, offset, third_shape.as_slice())?;
    let (dense2_biases, _offset) = read_tensor(bytes, offset, fourth_shape.as_slice())?;
    proof {
        lemma_decoded_parameters_fit(bytes@);
    }
    Ok(
        ModelParameters {
            input_size,
            hidden_size,
            output_size,
            dense1_weights,
            dense1_biases,
            dense2_weights,
            dense2_biases,
        },
    )
}

/// A stored `u64` reads back as the value written.
proof fn lemma_u64_embedded(bytes: Seq<u8>, offset: int, value: u64)
    requires
        0 <= offset,
        offset + 8 <= bytes.len(),
        bytes.subrange(offset, offset + 8) == le_bytes_u64(value),
    ensures
        le_u64_at(bytes, offset) == value,
{
    let field = bytes.subrange(offset, offset + 8);
    lemma_le_u64_roundtrip(value);
    assert(field[0] == bytes[offset] && field[1] == bytes[offset + 1] && field[2] == bytes[offset
        + 2] && field[3] == bytes[offset + 3] && field[4] == bytes[offset + 4] && field[5]
        == bytes[offset + 5] && field[6] == bytes[offset + 6] && field[7] == bytes[offset + 7]);
}

/// A stored `u32` reads back as the value written.
proof fn lemma_u32_embedded(bytes: Seq<u8>, offset: int, value: u32)
    requires
        0 <= offset,
        offset + 4 <= bytes.len(),
        bytes.subrange(offset, offset + 4) == le_bytes_u32(value),
    ensures
        le_u32_at(bytes, offset) == value,
{
    let field = bytes.subrange(offset, offset + 4);
    lemma_le_u32_roundtrip(value);
    assert(field[0] == bytes[offset] && field[1] == bytes[offset + 1] && field[2] == bytes[offset
        + 2] && field[3] == bytes[offset + 3]);
}

/// Each word takes four bytes.
pub proof fn lemma_words_bytes_len(words: Seq<u32>)
    ensures
        words_bytes(words).len() == 4 * words.len(),
    decreases words.len(),
{
    if words.len() > 0 {
        lemma_words_bytes_len(words.drop_last());
    }
}

/// Stored words read back as the words written.
proof fn lemma_words_embedded(bytes: Seq<u8>, offset: int, words: Seq<u32>)
    requires
        0 <= offset,
        offset + 4 * words.len() <= bytes.len(),
        bytes.subrange(offset, offset + 4 * words.len()) == words_bytes(words),
    ensures
        words_at(bytes, offset, words.len()) == words,
    decreases words.len(),
{
    if words.len() > 0 {
        let count = words.len() - 1;
        let front = words.drop_last();
        lemma_words_bytes_len(front);
        let whole = bytes.subrange(offset, offset + 4 * words.len());
        assert(whole == words_bytes(front) + le_bytes_u32(words.last()));
        assert(bytes.subrange(offset, offset + 4 * count) =~= whole.subrange(0, 4 * count));
        assert(whole.subrange(0, 4 * count) =~= words_bytes(front));
        lemma_words_embedded(bytes, offset, front);
        assert(bytes.subrange(offset + 4 * count, offset + 4 * count + 4) =~= whole.subrange(
            4 * count,
            4 * count + 4,
        ));
        assert(whole.subrange(4 * count, 4 * count + 4) =~= le_bytes_u32(words.last()));
        lemma_u32_embedded(bytes, offset + 4 * count, words.last());
        let read = words_at(bytes, offset, words.len());
        let read_front = words_at(bytes, offset, count as nat);
        assert forall|i: int| 0 <= i < words.len() implies read[i] == words[i] by {
            if i < count {
                assert(read[i] == read_front[i]);
                assert(front[i] == words[i]);
            }
        }
        assert(read =~= words);
    }
}

/// A stored tensor of the right length reads back as the tensor written.
proof fn lemma_tensor_embedded(bytes: Seq<u8>, offset: int, words: Seq<u32>, shape: Seq<usize>)
    requires
        0 <= offset,
        words.len() <= usize::MAX,
        offset + 8 + 4 * words.len() <= bytes.len(),
        bytes.subrange(offset, offset + 8 + 4 * words.len()) == tensor_bytes(words),
        checked_product(shape, shape.len()) == Some(words.len() as int),
    ensures
        tensor_error(bytes, offset, shape) is None,
        tensor_words(bytes, offset) == words,
        tensor_end(bytes, offset) == offset + 8 + 4 * words.len(),
{
    lemma_words_bytes_len(words);
    let whole = bytes.subrange(offset, offset + 8 + 4 * words.len());
    assert(bytes.subrange(offset, offset + 8) =~= whole.subrange(0, 8));
    assert(whole.subrange(0, 8) =~= le_bytes_u64(words.len() as u64));
    lemma_u64_embedded(bytes, offset, words.len() as u64);
    assert(bytes.subrange(offset + 8, offset + 8 + 4 * words.len()) =~= whole.subrange(
        8,
        8 + 4 * words.len() as int,
    ));
    assert(whole.subrange(8, 8 + 4 * words.len() as int) =~= words_bytes(words));
    lemma_words_embedded(bytes, offset + 8, words);
}

/// The parameters of a network with these layer sizes.
pub open spec fn parameters_fit(
    input_size: usize,
    hidden_size: usize,
    output_size: usize,
    dense1_weights: Seq<u32>,
    dense1_biases: Seq<u32>,
    dense2_weights: Seq<u32>,
    dense2_biases: Seq<u32>,
) -> bool {
    &&& input_size > 0
    &&& hidden_size > 0
    &&& output_size > 0
    &&& input_size * hidden_size <= usize::MAX
    &&& hidden_size * output_size <= usize::MAX
    &&& dense1_weights.len() == input_size * hidden_size
    &&& dense1_biases.len() == hidden_size
    &&& dense2_weights.len() == hidden_size * output_size
    &&& dense2_biases.len() == output_size
}

/// Reading a model file back gives the parameters that were written: the
/// file of parameters that fit their layer sizes decodes without error to
/// those sizes and those four tensors.
pub proof fn lemma_decode_encode(
    input_size: usize,
    hidden_size: usize,
    output_size: usize,
    dense1_weights: Seq<u32>,
    dense1_biases: Seq<u32>,
    dense2_weights: Seq<u32>,
    dense2_biases: Seq<u32>,
)
    requires
        parameters_fit(
            input_size,
            hidden_size,
            output_size,
            dense1_weights,
            dense1_biases,
            dense2_weights,
            dense2_biases,
        ),
    ensures
        ({
            let bytes = model_bytes(
                input_size,
                hidden_size,
                output_size,
                dense1_weights,
                dense1_biases,
                dense2_weights,
                dense2_biases,
            );
            &&& decode_error(bytes) is None
            &&& stored_input_size(bytes) == input_size
            &&& stored_hidden_size(bytes) == hidden_size
            &&& stored_output_size(bytes) == output_size
            &&& tensor_words(bytes, dense1_weights_offset(bytes)) == dense1_weights
            &&& tensor_words(bytes, dense1_biases_offset(bytes)) == dense1_biases
            &&& tensor_words(bytes, dense2_weights_offset(bytes)) == dense2_weights
            &&& tensor_words(bytes, dense2_biases_offset(bytes)) == dense2_biases
        }),
{
    let bytes = model_bytes(
        input_size,
        hidden_size,
        output_size,
        dense1_weights,
        dense1_biases,
        dense2_weights,
        dense2_biases,
    );
    lemma_words_bytes_len(dense1_weights);
    lemma_words_bytes_len(dense1_biases);
    lemma_words_bytes_len(dense2_weights);
    lemma_words_bytes_len(dense2_biases);
    let start1 = 32int;
    let start2 = start1 + 8 + 4 * dense1_weights.len();
    let start3 = start2 + 8 + 4 * dense1_biases.len();
    let start4 = start3 + 8 + 4 * dense2_weights.len();
    lemma_model_layout(
        input_size,
        hidden_size,
        output_size,
        dense1_weights,
        dense1_biases,
        dense2_weights,
        dense2_biases,
    );
    lemma_u64_embedded(bytes, 8, input_size as u64);
    lemma_u64_embedded(bytes, 16, hidden_size as u64);
    lemma_u64_embedded(bytes, 24, output_size as u64);
    let first_shape = seq![input_size, hidden_size];
    let second_shape = seq![hidden_size];
    let third_shape = seq![hidden_size, output_size];
    let fourth_shape = seq![output_size];
    lemma_pair_product(input_size, hidden_size);
    lemma_single_product(hidden_size);
    lemma_pair_product(hidden_size, output_size);
    lemma_single_product(output_size);
    lemma_tensor_embedded(bytes, start1, dense1_weights, first_shape);
    lemma_tensor_embedded(bytes, start2, dense1_biases, second_shape);
    lemma_tensor_embedded(bytes, start3, dense2_weights, third_shape);
    lemma_tensor_embedded(bytes, start4, dense2_biases, fourth_shape);
    assert(stored_input_size(bytes) == input_size);
    assert(stored_hidden_size(bytes) == hidden_size);
    assert(stored_output_size(bytes) == output_size);
    assert(dense1_biases_offset(bytes) == start2);
    assert(dense2_weights_offset(bytes) == start3);
    assert(dense2_biases_offset(bytes) == start4);
}

/// The checked product of two dimensions whose product fits.
proof fn lemma_pair_product(first: usize, second: usize)
    requires
        first * second <= usize::MAX,
    ensures
        checked_product(seq![first, second], 2) == Some(first * second),
{
    let shape = seq![first, second];
    assert(checked_product(shape, 0) == Some(1int));
    assert(shape[0] == first);
    assert(shape[1] == second);
    reveal_with_fuel(checked_product, 3);
    assert(1 * (first as int) == first as int);
    assert(checked_product(shape, 1) == Some(first as int));
}

/// A little-endian `u64` inside `file` reads the same after bytes are
/// appended.
proof fn lemma_prefix_u64(file: Seq<u8>, extra: Seq<u8>, offset: int)
    requires
        0 <= offset,
        offset + 8 <= file.len(),
    ensures
        le_u64_at(file + extra, offset) == le_u64_at(file, offset),
{
    let longer = file + extra;
    assert(longer[offset] == file[offset] && longer[offset + 1] == file[offset + 1] && longer[offset
        + 2] == file[offset + 2] && longer[offset + 3] == file[offset + 3] && longer[offset + 4]
        == file[offset + 4] && longer[offset + 5] == file[offset + 5] && longer[offset + 6]
        == file[offset + 6] && longer[offset + 7] == file[offset + 7]);
}

/// Words inside `file` read the same after bytes are appended.
proof fn lemma_prefix_words(file: Seq<u8>, extra: Seq<u8>, offset: int, count: nat)
    requires
        0 <= offset,
        offset + 4 * count <= file.len(),
    ensures
        words_at(file + extra, offset, count) == words_at(file, offset, count),
{
    let longer = file + extra;
    assert forall|i: int| 0 <= i < count implies #[trigger] words_at(longer, offset, count)[i]
        == words_at(file, offset, count)[i] by {
        let at = offset + 4 * i;
        assert(longer[at] == file[at] && longer[at + 1] == file[at + 1] && longer[at + 2] == file[at
            + 2] && longer[at + 3] == file[at + 3]);
    }
    assert(words_at(longer, offset, count) =~= words_at(file, offset, count));
}

/// A tensor that reads from `file` reads the same, and ends at the same
/// place, after bytes are appended.
proof fn lemma_prefix_tensor(file: Seq<u8>, extra: Seq<u8>, offset: int, shape: Seq<usize>)
    requires
        0 <= offset,
        tensor_error(file, offset, shape) is None,
    ensures
        tensor_error(file + extra, offset, shape) is None,
        tensor_end(file + extra, offset) == tensor_end(file, offset),
        tensor_end(file, offset) <= file.len(),
        tensor_words(file + extra, offset) == tensor_words(file, offset),
{
    lemma_prefix_u64(file, extra, offset);
    lemma_prefix_words(file, extra, offset + 8, le_u64_at(file, offset) as nat);
}

/// Bytes after the last tensor are ignored: a file that reads reads the
/// same, field for field, with any bytes appended.
pub proof fn lemma_decode_ignores_trailing_bytes(file: Seq<u8>, extra: Seq<u8>)
    requires
        decode_error(file) is None,
    ensures
        decode_error(file + extra) is None,
        stored_input_size(file + extra) == stored_input_size(file),
        stored_hidden_size(file + extra) == stored_hidden_size(file),
        stored_output_size(file + extra) == stored_output_size(file),
        tensor_words(file + extra, dense1_weights_offset(file + extra)) == tensor_words(
            file,
            dense1_weights_offset(file),
        ),
        tensor_words(file + extra, dense1_biases_offset(file + extra)) == tensor_words(
            file,
            dense1_biases_offset(file),
        ),
        tensor_words(file + extra, dense2_weights_offset(file + extra)) == tensor_words(
            file,
            dense2_weights_offset(file),
        ),
        tensor_words(file + extra, dense2_biases_offset(file + extra)) == tensor_words(
            file,
            dense2_biases_offset(file),
        ),
{
    let longer = file + extra;
    assert(longer.subrange(0, 8) =~= file.subrange(0, 8));
    lemma_prefix_u64(file, extra, 8);
    lemma_prefix_u64(file, extra, 16);
    lemma_prefix_u64(file, extra, 24);
    let first_shape = seq![stored_input_size(file), stored_hidden_size(file)];
    let second_shape = seq![stored_hidden_size(file)];
    let third_shape = seq![stored_hidden_size(file), stored_output_size(file)];
    let fourth_shape = seq![stored_output_size(file)];
    assert(seq![stored_input_size(longer), stored_hidden_size(longer)] == first_shape);
    assert(seq![stored_hidden_size(longer)] == second_shape);
    assert(seq![stored_hidden_size(longer), stored_output_size(longer)] == third_shape);
    assert(seq![stored_output_size(longer)] == fourth_shape);
    lemma_prefix_tensor(file, extra, 32, first_shape);
    lemma_prefix_tensor(file, extra, dense1_biases_offset(file), second_shape);
    lemma_prefix_tensor(file, extra, dense2_weights_offset(file), third_shape);
    lemma_prefix_tensor(file, extra, dense2_biases_offset(file), fourth_shape);
}

/// The checked product of two dimensions is their product, or `None` when
/// that leaves `usize`.
proof fn lemma_pair_product_exact(first: usize, second: usize)
    ensures
        checked_product(seq![first, second], 2) == if first * second <= usize::MAX {
            Some(first * second)
        } else {
            None::<int>
        },
{
    let shape = seq![first, second];
    assert(checked_product(shape, 0) == Some(1int));
    assert(shape[0] == first);
    assert(shape[1] == second);
    reveal_with_fuel(checked_product, 3);
    assert(1 * (first as int) == first as int);
    assert(checked_product(shape, 1) == Some(first as int));
}

/// A file that reads gives parameters that fit their layer sizes.
pub proof fn lemma_decoded_parameters_fit(bytes: Seq<u8>)
    requires
        decode_error(bytes) is None,
    ensures
        parameters_fit(
            stored_input_size(bytes),
            stored_hidden_size(bytes),
            stored_output_size(bytes),
            tensor_words(bytes, dense1_weights_offset(bytes)),
            tensor_words(bytes, dense1_biases_offset(bytes)),
            tensor_words(bytes, dense2_weights_offset(bytes)),
            tensor_words(bytes, dense2_biases_offset(bytes)),
        ),
{
    let input_size = stored_input_size(bytes);
    let hidden_size = stored_hidden_size(bytes);
    let output_size = stored_output_size(bytes);
    lemma_pair_product_exact(input_size, hidden_size);
    lemma_pair_product_exact(hidden_size, output_size);
    lemma_single_product(hidden_size);
    lemma_single_product(output_size);
}

/// The checked product of one dimension is that dimension.
proof fn lemma_single_product(only: usize)
    ensures
        checked_product(seq![only], 1) == Some(only as int),
{
    let shape = seq![only];
    reveal_with_fuel(checked_product, 2);
    assert(checked_product(shape, 0) == Some(1int));
    assert(shape[0] == only);
    assert(1 * (only as int) == only as int);
}

/// Where each field of a model file lies.
proof fn lemma_model_layout(
    input_size: usize,
    hidden_size: usize,
    output_size: usize,
    dense1_weights: Seq<u32>,
    dense1_biases: Seq<u32>,
    dense2_weights: Seq<u32>,
    dense2_biases: Seq<u32>,
)
    ensures
        ({
            let bytes = model_bytes(
                input_size,
                hidden_size,
                output_size,
                dense1_weights,
                dense1_biases,
                dense2_weights,
                dense2_biases,
            );
            let start2 = 32 + 8 + 4 * dense1_weights.len() as int;
            let start3 = start2 + 8 + 4 * dense1_biases.len();
            let start4 = start3 + 8 + 4 * dense2_weights.len();
            let end = start4 + 8 + 4 * dense2_biases.len();
            &&& bytes.len() == end
            &&& bytes.subrange(0, 8) == model_magic()
            &&& bytes.subrange(8, 16) == le_bytes_u64(input_size as u64)
            &&& bytes.subrange(16, 24) == le_bytes_u64(hidden_size as u64)
            &&& bytes.subrange(24, 32) == le_bytes_u64(output_size as u64)
            &&& bytes.subrange(32, start2) == tensor_bytes(dense1_weights)
            &&& bytes.subrange(start2, start3) == tensor_bytes(dense1_biases)
            &&& bytes.subrange(start3, start4) == tensor_bytes(dense2_weights)
            &&& bytes.subrange(start4, end) == tensor_bytes(dense2_biases)
        }),
{
    reveal(model_bytes);
    let bytes = model_bytes(
        input_size,
        hidden_size,
        output_size,
        dense1_weights,
        dense1_biases,
        dense2_weights,
        dense2_biases,
    );
    let head = model_magic() + le_bytes_u64(input_size as u64) + le_bytes_u64(hidden_size as u64)
        + le_bytes_u64(output_size as u64);
    let first = tensor_bytes(dense1_weights);
    let second = tensor_bytes(dense1_biases);
    let third = tensor_bytes(dense2_weights);
    let fourth = tensor_bytes(dense2_biases);
    lemma_words_bytes_len(dense1_weights);
    lemma_words_bytes_len(dense1_biases);
    lemma_words_bytes_len(dense2_weights);
    lemma_words_bytes_len(dense2_biases);
    assert(head.len() == 32);
    assert(bytes == head + first + second + third + fourth);
    let start1 = 32int;
    let start2 = start1 + first.len();
    let start3 = start2 + second.len();
    let start4 = start3 + third.len();
    let end = start4 + fourth.len();
    assert(bytes.subrange(0, 8) =~= model_magic());
    assert(bytes.subrange(8, 16) =~= le_bytes_u64(input_size as u64));
    assert(bytes.subrange(16, 24) =~= le_bytes_u64(hidden_size as u64));
    assert(bytes.subrange(24, 32) =~= le_bytes_u64(output_size as u64));
    assert(bytes.subrange(start1, start2) =~= first);
    assert(bytes.subrange(start2, start3) =~= second);
    assert(bytes.subrange(start3, start4) =~= third);
    assert(bytes.subrange(start4, end) =~= fourth);
}

} // verus!
