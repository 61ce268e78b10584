use ml_engine::mnist::{MnistDataset, MnistError, read_be_u32};
use ml_engine::tensor::Tensor;

fn synthetic_files() -> (Vec<u8>, Vec<u8>) {
    let mut images = Vec::new();
    images.extend_from_slice(&2051_u32.to_be_bytes());
    images.extend_from_slice(&2_u32.to_be_bytes());
    images.extend_from_slice(&2_u32.to_be_bytes());
    images.extend_from_slice(&2_u32.to_be_bytes());
    images.extend_from_slice(&[0, 255, 128, 64, 10, 20, 30, 40]);

    let mut labels = Vec::new();
    labels.extend_from_slice(&2049_u32.to_be_bytes());
    labels.extend_from_slice(&2_u32.to_be_bytes());
    labels.extend_from_slice(&[3, 7]);
    (images, labels)
}

fn normalize(pixel: u8) -> f32 {
    pixel as f32 / 255.0
}

#[test]
fn parses_images_labels_and_normalizes_pixels() {
    let (images, labels) = synthetic_files();
    let dataset = MnistDataset::from_bytes(&images, &labels).unwrap();

    assert_eq!(dataset.len(), 2);
    assert_eq!(dataset.rows(), 2);
    assert_eq!(dataset.columns(), 2);
    assert_eq!(dataset.labels(), &[3, 7]);
    assert_eq!(dataset.image(0, normalize)[0], 0.0);
    assert_eq!(dataset.image(0, normalize)[1], 1.0);
    assert!((dataset.image(0, normalize)[2] - 128.0 / 255.0).abs() < 0.000001);
}

#[test]
fn fills_reusable_batch_buffer_in_requested_order() {
    let (images, labels) = synthetic_files();
    let dataset = MnistDataset::from_bytes(&images, &labels).unwrap();
    let mut inputs = Tensor::filled(&[2, 4], 0.0f32);
    let mut batch_labels = Vec::new();

    dataset.fill_batch(&[1, 0], &mut inputs, &mut batch_labels, normalize);

    assert_eq!(batch_labels, vec![7, 3]);
    assert!((inputs.data()[0] - 10.0 / 255.0).abs() < 0.000001);
    assert_eq!(inputs.data()[5], 1.0);
}

#[test]
fn rejects_wrong_magic_number() {
    let (mut images, labels) = synthetic_files();
    images[3] = 0;
    assert!(MnistDataset::from_bytes(&images, &labels).is_err());
}

#[test]
fn wrong_magic_reports_the_magic_found() {
    let (mut images, labels) = synthetic_files();
    images[3] = 0;
    assert_eq!(MnistDataset::from_bytes(&images, &labels).unwrap_err(), MnistError::ImageMagic(2048));
    let (images, mut labels) = synthetic_files();
    labels[3] = 2;
    assert_eq!(MnistDataset::from_bytes(&images, &labels).unwrap_err(), MnistError::LabelMagic(2050));
}

#[test]
fn every_header_error_is_reported() {
    let (images, labels) = synthetic_files();
    assert_eq!(MnistDataset::from_bytes(&images[..15], &labels).unwrap_err(), MnistError::ImageHeaderTooShort);
    assert_eq!(MnistDataset::from_bytes(&images, &labels[..7]).unwrap_err(), MnistError::LabelHeaderTooShort);

    let mut zero_rows = images.clone();
    zero_rows[11] = 0;
    assert_eq!(MnistDataset::from_bytes(&zero_rows, &labels).unwrap_err(), MnistError::ZeroDimension);

    let mut short_pixels = images.clone();
    short_pixels.pop();
    assert_eq!(
        MnistDataset::from_bytes(&short_pixels, &labels).unwrap_err(),
        MnistError::ImageLength { actual: 23, expected: 24 }
    );

    let mut three_labels = labels.clone();
    three_labels[7] = 3;
    assert_eq!(
        MnistDataset::from_bytes(&images, &three_labels).unwrap_err(),
        MnistError::CountMismatch { images: 2, labels: 3 }
    );

    let mut extra_label = labels.clone();
    extra_label.push(1);
    assert_eq!(
        MnistDataset::from_bytes(&images, &extra_label).unwrap_err(),
        MnistError::LabelLength { actual: 11, expected: 10 }
    );

    let mut bad_label = labels.clone();
    bad_label[9] = 12;
    assert_eq!(MnistDataset::from_bytes(&images, &bad_label).unwrap_err(), MnistError::LabelOutOfRange(12));
}

#[test]
fn oversized_dimensions_are_reported() {
    let (mut images, labels) = synthetic_files();
    for index in 8..16 {
        images[index] = 0xff;
    }
    let error = MnistDataset::from_bytes(&images, &labels).unwrap_err();
    if usize::BITS == 64 {
        assert_eq!(error, MnistError::ImageFileTooLarge);
    } else {
        assert_eq!(error, MnistError::ImageDimensionsTooLarge);
    }
}

#[test]
fn big_endian_header_fields() {
    let bytes = [0x00, 0x00, 0x08, 0x03, 0x12, 0x34, 0x56, 0x78];
    assert_eq!(read_be_u32(&bytes, 0), Ok(2051));
    assert_eq!(read_be_u32(&bytes, 4), Ok(0x1234_5678));
    assert_eq!(read_be_u32(&bytes, 5), Err(MnistError::HeaderEnded));
    assert_eq!(read_be_u32(&bytes, usize::MAX - 1), Err(MnistError::HeaderOffsetOverflow));
}

#[test]
fn batches_copy_images_and_labels() {
    let (images, labels) = synthetic_files();
    let dataset = MnistDataset::from_bytes(&images, &labels).unwrap();
    assert_eq!(dataset.image_size(), 4);
    assert!(!dataset.is_empty());
    let (inputs, batch_labels) = dataset.batch(&[1, 1, 0], |pixel| pixel);
    assert_eq!(inputs.shape(), &[3, 4]);
    assert_eq!(inputs.data(), &[10, 20, 30, 40, 10, 20, 30, 40, 0, 255, 128, 64]);
    assert_eq!(batch_labels, vec![7, 7, 3]);
    let (range_inputs, range_labels) = dataset.batch_range(1, 2, |pixel| pixel as u32);
    assert_eq!(range_inputs.data(), &[10, 20, 30, 40]);
    assert_eq!(range_labels, vec![7]);
}

#[test]
fn a_header_whose_file_length_overflows_is_reported() {
    let (mut images, labels) = synthetic_files();
    // 0xFFFF_FFFF images of 641 by 6_700_417 pixels: exactly usize::MAX pixels
    // on a 64-bit target, so the header plus the pixels overflows.
    images[4..8].copy_from_slice(&0xFFFF_FFFFu32.to_be_bytes());
    images[8..12].copy_from_slice(&641u32.to_be_bytes());
    images[12..16].copy_from_slice(&6_700_417u32.to_be_bytes());
    let error = MnistDataset::from_bytes(&images, &labels).unwrap_err();
    if usize::BITS == 64 {
        assert_eq!(error, MnistError::ImageLengthOverflow);
    } else {
        assert_eq!(error, MnistError::ImageDimensionsTooLarge);
    }
}
