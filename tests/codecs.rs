use digit_net::bytes::{bytes_to_u32, push_u16, push_u64, read_u16, read_u32, read_u64};
use digit_net::dataset::{one_hot, DatasetError, TrainingData};
use digit_net::images;
use digit_net::model::{count_params, decode_model, encode_model, split_layers, ModelError, ModelParams};

fn header(words: &[u32]) -> Vec<u8> {
    let mut out = Vec::new();
    for w in words {
        out.extend_from_slice(&w.to_be_bytes());
    }
    out
}

fn two_image_files() -> (Vec<u8>, Vec<u8>) {
    let mut images = header(&[2051, 2, 2, 3]);
    images.extend_from_slice(&[0, 1, 2, 3, 4, 255]);
    images.extend_from_slice(&[9, 8, 7, 6, 128, 0]);
    let mut labels = header(&[2049, 2]);
    labels.extend_from_slice(&[7, 0]);
    (images, labels)
}

#[test]
fn bytes_to_u32_is_big_endian() {
    assert_eq!(bytes_to_u32([0, 0, 8, 3]), 2051);
    assert_eq!(bytes_to_u32([0x12, 0x34, 0x56, 0x78]), 0x1234_5678);
    assert_eq!(bytes_to_u32([255, 255, 255, 255]), u32::MAX);
    assert_eq!(TrainingData::bytes_to_u32([0, 0, 0, 1]), 1);
    assert_eq!(images::TrainingData::bytes_to_u32([1, 0, 0, 0]), 1 << 24);
}

#[test]
fn fixed_width_round_trips() {
    let mut out = Vec::new();
    push_u16(&mut out, 0xabcd);
    push_u64(&mut out, 0x0102_0304_0506_0708);
    assert_eq!(out, vec![0xab, 0xcd, 1, 2, 3, 4, 5, 6, 7, 8]);
    assert_eq!(read_u16(&out, 0), 0xabcd);
    assert_eq!(read_u64(&out, 2), 0x0102_0304_0506_0708);
    assert_eq!(read_u32(&out, 2), 0x0102_0304);
}

#[test]
fn dataset_yields_two_raw_records() {
    let (images, labels) = two_image_files();
    let mut data = TrainingData::new(images, labels).unwrap();
    assert_eq!(data.image_magic_number, 2051);
    assert_eq!(data.image_count, 2);
    assert_eq!(data.rows_count, 2);
    assert_eq!(data.cols_count, 3);
    assert_eq!(data.label_magic_number, 2049);
    assert_eq!(data.label_count, 2);

    let first = data.next().unwrap().unwrap();
    assert_eq!(first.label, 7);
    assert_eq!(first.pixels, vec![0, 1, 2, 3, 4, 255]);
    assert_eq!(one_hot(first.label), vec![0, 0, 0, 0, 0, 0, 0, 1, 0, 0]);

    let second = data.next().unwrap().unwrap();
    assert_eq!(second.label, 0);
    assert_eq!(second.pixels, vec![9, 8, 7, 6, 128, 0]);
    assert_eq!(one_hot(second.label), vec![1, 0, 0, 0, 0, 0, 0, 0, 0, 0]);

    assert!(data.next().unwrap().is_none());
    assert!(data.next().unwrap().is_none());
}

#[test]
fn dataset_stops_at_a_short_image() {
    let (mut images, labels) = two_image_files();
    images.pop();
    let mut data = TrainingData::new(images, labels).unwrap();
    assert!(data.next().unwrap().is_some());
    assert!(data.next().unwrap().is_none());
}

#[test]
fn dataset_header_errors() {
    let (images, labels) = two_image_files();
    assert_eq!(
        TrainingData::new(images[..15].to_vec(), labels.clone()).err(),
        Some(DatasetError::ImageHeaderTruncated)
    );
    assert_eq!(
        TrainingData::new(images, labels[..7].to_vec()).err(),
        Some(DatasetError::LabelHeaderTruncated)
    );
}

#[test]
fn dataset_label_out_of_range() {
    let (images, mut labels) = two_image_files();
    labels[8] = 10;
    let mut data = TrainingData::new(images, labels).unwrap();
    assert_eq!(data.next().err(), Some(DatasetError::LabelOutOfRange(10)));
    assert_eq!(data.label_pos, 8);
    assert_eq!(data.image_pos, 16);
}

#[test]
fn image_reader_walks_images() {
    let (images, _) = two_image_files();
    let mut data = images::TrainingData::new(images).unwrap();
    assert_eq!(data.get_width(), 3);
    assert_eq!(data.get_height(), 2);
    assert_eq!(data.next(), Some(vec![0, 1, 2, 3, 4, 255]));
    assert_eq!(data.next(), Some(vec![9, 8, 7, 6, 128, 0]));
    assert_eq!(data.next(), None);
    assert_eq!(
        images::TrainingData::new(vec![0; 3]).err(),
        Some(DatasetError::ImageHeaderTruncated)
    );
}

fn small_model() -> ModelParams {
    let values: Vec<f64> = vec![0.5, -1.25, 3.0, 1e-300, -0.0, 2.5, f64::MAX, 7.0, -8.5];
    ModelParams {
        sizes: vec![2, 2, 1],
        params: values.iter().map(|v| v.to_bits()).collect(),
    }
}

#[test]
fn parameter_count_follows_sizes() {
    assert_eq!(count_params(&vec![2, 2, 1]), 2 * 2 + 2 + 1 * 2 + 1);
    assert_eq!(count_params(&vec![784, 100, 10]), 784 * 100 + 100 + 100 * 10 + 10);
    assert_eq!(count_params(&vec![5]), 0);
    assert_eq!(count_params(&vec![]), 0);
}

#[test]
fn model_exact_bytes() {
    let m = ModelParams {
        sizes: vec![1, 1],
        params: vec![1.0f64.to_bits(), 0.5f64.to_bits()],
    };
    let bytes = encode_model(&m).unwrap();
    assert_eq!(
        bytes,
        vec![0, 2, 0, 1, 0, 1, 0x3f, 0xf0, 0, 0, 0, 0, 0, 0, 0x3f, 0xe0, 0, 0, 0, 0, 0, 0]
    );
}

#[test]
fn model_save_then_load_is_bit_exact() {
    let m = small_model();
    let bytes = encode_model(&m).unwrap();
    assert_eq!(bytes.len(), 2 + 2 * 3 + 8 * 9);
    let back = decode_model(&bytes).unwrap();
    assert_eq!(back.sizes, m.sizes);
    assert_eq!(back.params, m.params);
    let values: Vec<f64> = back.params.iter().map(|b| f64::from_bits(*b)).collect();
    assert_eq!(values[1], -1.25);
    assert!(values[4].is_sign_negative());
}

#[test]
fn model_encode_errors() {
    let mut m = small_model();
    m.params.pop();
    assert_eq!(encode_model(&m).err(), Some(ModelError::ParamCountMismatch));
    let empty = ModelParams { sizes: vec![], params: vec![] };
    assert_eq!(encode_model(&empty).err(), Some(ModelError::NoLayerSizes));
    let many = ModelParams { sizes: vec![0; 0x10000], params: vec![] };
    assert_eq!(encode_model(&many).err(), Some(ModelError::TooManyLayers));
}

#[test]
fn model_decode_errors() {
    let bytes = encode_model(&small_model()).unwrap();
    assert_eq!(decode_model(&vec![0]).err(), Some(ModelError::Truncated));
    assert_eq!(decode_model(&vec![0, 0]).err(), Some(ModelError::NoLayerSizes));
    assert_eq!(decode_model(&bytes[..5].to_vec()).err(), Some(ModelError::Truncated));
    assert_eq!(
        decode_model(&bytes[..bytes.len() - 1].to_vec()).err(),
        Some(ModelError::Truncated)
    );
    let mut longer = bytes.clone();
    longer.push(0);
    assert_eq!(decode_model(&longer).err(), Some(ModelError::TrailingBytes));
    let single = decode_model(&vec![0, 1, 0, 4]).unwrap();
    assert_eq!(single.sizes, vec![4]);
    assert!(single.params.is_empty());
}

#[test]
fn model_splits_into_layers() {
    let m = ModelParams {
        sizes: vec![2, 2, 1],
        params: (10..19).collect(),
    };
    let layers = split_layers(&m);
    assert_eq!(layers.len(), 2);
    assert_eq!((layers[0].size_in, layers[0].size_out), (2, 2));
    assert_eq!(layers[0].weights, vec![vec![10, 11], vec![12, 13]]);
    assert_eq!(layers[0].biases, vec![14, 15]);
    assert_eq!((layers[1].size_in, layers[1].size_out), (2, 1));
    assert_eq!(layers[1].weights, vec![vec![16, 17]]);
    assert_eq!(layers[1].biases, vec![18]);
    let lone = ModelParams { sizes: vec![3], params: vec![] };
    assert!(split_layers(&lone).is_empty());
}

#[test]
fn cloned_dataset_reads_on_independently() {
    let (images, labels) = two_image_files();
    let mut data = TrainingData::new(images, labels).unwrap();
    let first = data.next().unwrap().unwrap();
    let mut copy = data.clone();
    assert_eq!((copy.rows_count, copy.cols_count, copy.image_count), (2, 3, 2));
    assert_eq!((copy.image_pos, copy.label_pos), (data.image_pos, data.label_pos));
    let a = data.next().unwrap().unwrap();
    assert!(data.next().unwrap().is_none());
    let b = copy.next().unwrap().unwrap();
    assert_eq!((a.label, a.pixels.clone()), (b.label, b.pixels.clone()));
    assert_eq!(b.label, 0);
    assert_ne!(first.label, b.label);
    let mut fresh = TrainingData::new(two_image_files().0, two_image_files().1).unwrap();
    let again = fresh.clone();
    fresh.next().unwrap();
    assert_eq!(again.label_pos, 8);
}
