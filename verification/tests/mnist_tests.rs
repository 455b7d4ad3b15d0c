use neural_network::kmeans::KMeansInit;
use neural_network::knn::KNearestNeighborsParam;
use neural_network::mnist::{slice_to_u32, Dataset, DATA_SIZE, DATA_TYPES};

fn be(v: u32) -> [u8; 4] {
    [(v >> 24) as u8, (v >> 16) as u8, (v >> 8) as u8, v as u8]
}

fn idx_files() -> (Vec<u8>, Vec<u8>) {
    // two 2x2 images
    let mut data: Vec<u8> = Vec::new();
    data.extend_from_slice(&be(2051));
    data.extend_from_slice(&be(2));
    data.extend_from_slice(&be(2));
    data.extend_from_slice(&be(2));
    data.extend_from_slice(&[10, 20, 30, 40, 50, 60, 70, 80]);
    let mut label: Vec<u8> = Vec::new();
    label.extend_from_slice(&be(2049));
    label.extend_from_slice(&be(2));
    label.extend_from_slice(&[7, 3]);
    (data, label)
}

#[test]
fn reads_big_endian_words() {
    assert_eq!(slice_to_u32(&[0, 0, 8, 3]), 2051);
    assert_eq!(slice_to_u32(&[1, 2, 3, 4]), 16909060);
    assert_eq!(slice_to_u32(&[255, 255, 255, 255]), u32::MAX);
}

#[test]
fn loads_a_dataset_from_idx_bytes() {
    let (data, label) = idx_files();
    let ds = Dataset::load(data, label);
    assert_eq!(ds.num, 2);
    assert_eq!(ds.size, 4);
    assert_eq!(ds.to_label_vec(), vec![7, 3]);
}

#[test]
fn iterates_examples_in_file_order() {
    let (data, label) = idx_files();
    let ds = Dataset::load(data, label);
    let mut it = ds.iter();
    let first = it.next().unwrap();
    assert_eq!(first.value, &[10, 20, 30, 40]);
    assert_eq!(first.label, 7);
    let second = it.next().unwrap();
    assert_eq!(second.value, &[50, 60, 70, 80]);
    assert_eq!(second.label, 3);
    assert!(it.next().is_none());
}

#[test]
fn mnist_constants() {
    assert_eq!(DATA_SIZE, 784);
    assert_eq!(DATA_TYPES, 10);
}

#[test]
fn knn_parameters_can_be_built() {
    let param = KNearestNeighborsParam::with_default_param();
    let _param = param.k(3);
}

#[test]
fn kmeans_initialisation_has_a_random_strategy() {
    let init = KMeansInit::Random;
    assert!(matches!(init, KMeansInit::Random));
}
