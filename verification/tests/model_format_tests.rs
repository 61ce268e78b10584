use ml_engine::model_format::{
    ModelError, ModelField, ModelParameters, decode_model, encode_model, read_u64, read_usize,
    write_u64,
};

fn parameters() -> ModelParameters {
    ModelParameters {
        input_size: 2,
        hidden_size: 3,
        output_size: 1,
        dense1_weights: vec![1, 2, 3, 4, 5, 6],
        dense1_biases: vec![7, 8, 9],
        dense2_weights: vec![0x3f80_0000, 0xbf80_0000, 0x4000_0000],
        dense2_biases: vec![u32::MAX],
    }
}

#[test]
fn encode_then_decode_gives_the_parameters_back() {
    let original = parameters();
    let bytes = encode_model(&original);
    assert_eq!(&bytes[..8], b"MLENG001");
    assert_eq!(bytes.len(), 32 + (8 + 24) + (8 + 12) + (8 + 12) + (8 + 4));
    let decoded = decode_model(&bytes).unwrap();
    assert_eq!(decoded.input_size, 2);
    assert_eq!(decoded.hidden_size, 3);
    assert_eq!(decoded.output_size, 1);
    assert_eq!(decoded.dense1_weights, original.dense1_weights);
    assert_eq!(decoded.dense1_biases, original.dense1_biases);
    assert_eq!(decoded.dense2_weights, original.dense2_weights);
    assert_eq!(decoded.dense2_biases, original.dense2_biases);
}

#[test]
fn little_endian_fields() {
    let mut bytes = Vec::new();
    write_u64(&mut bytes, 0x0102_0304_0506_0708);
    assert_eq!(bytes, vec![8, 7, 6, 5, 4, 3, 2, 1]);
    assert_eq!(read_u64(&bytes, 0), Ok(0x0102_0304_0506_0708));
    assert_eq!(read_u64(&bytes, 1), Err(ModelError::UnexpectedEnd));
    assert_eq!(read_usize(&bytes, 0, ModelField::InputSize), Ok(0x0102_0304_0506_0708usize));
}

#[test]
fn decode_reports_each_error() {
    let bytes = encode_model(&parameters());
    assert_eq!(decode_model(&bytes[..5]).unwrap_err(), ModelError::UnexpectedEnd);
    let mut wrong_magic = bytes.clone();
    wrong_magic[7] = b'2';
    assert_eq!(decode_model(&wrong_magic).unwrap_err(), ModelError::NotAModel);
    assert_eq!(decode_model(&bytes[..20]).unwrap_err(), ModelError::UnexpectedEnd);
    let mut zero_hidden = bytes.clone();
    zero_hidden[16] = 0;
    assert_eq!(decode_model(&zero_hidden).unwrap_err(), ModelError::ZeroDimension);
    let mut wrong_length = bytes.clone();
    wrong_length[32] = 5;
    assert_eq!(
        decode_model(&wrong_length).unwrap_err(),
        ModelError::LengthMismatch { stored: 5, expected: 6 }
    );
    assert_eq!(decode_model(&bytes[..bytes.len() - 1]).unwrap_err(), ModelError::UnexpectedEnd);
    let mut huge = bytes.clone();
    for index in 8..16 {
        huge[index] = 0xff;
    }
    let error = decode_model(&huge).unwrap_err();
    if usize::BITS == 64 {
        assert_eq!(error, ModelError::ShapeTooLarge);
    } else {
        assert_eq!(error, ModelError::ValueTooLarge(ModelField::InputSize));
    }
}

#[test]
fn trailing_bytes_are_ignored() {
    let mut bytes = encode_model(&parameters());
    bytes.extend_from_slice(&[1, 2, 3]);
    assert_eq!(decode_model(&bytes).unwrap().dense2_biases, vec![u32::MAX]);
}
