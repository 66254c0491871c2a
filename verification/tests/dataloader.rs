use mnist_net::dataloader::MNISTDataloader;
use mnist_net::error::LoadError;

fn loader() -> MNISTDataloader {
    MNISTDataloader::new(
        String::from("data/train/images"),
        String::from("data/train/labels"),
        String::from("data/test/images"),
        String::from("data/test/labels"),
    )
}

fn labels_file(labels: &[u8]) -> Vec<u8> {
    let mut bytes = Vec::new();
    bytes.extend_from_slice(&2049u32.to_be_bytes());
    bytes.extend_from_slice(&(labels.len() as u32).to_be_bytes());
    bytes.extend_from_slice(labels);
    bytes
}

fn images_file(count: u32, rows: u32, cols: u32, payload: &[u8]) -> Vec<u8> {
    let mut bytes = Vec::new();
    for word in [2051u32, count, rows, cols] {
        bytes.extend_from_slice(&word.to_be_bytes());
    }
    bytes.extend_from_slice(payload);
    bytes
}

#[test]
fn loader_keeps_its_four_paths() {
    let loader = loader();
    assert_eq!(loader.training_images_filepath(), "data/train/images");
    assert_eq!(loader.training_labels_filepath(), "data/train/labels");
    assert_eq!(loader.test_images_filepath(), "data/test/images");
    assert_eq!(loader.test_labels_filepath(), "data/test/labels");
}

#[test]
fn split_pairs_images_with_labels_by_index() {
    let images = images_file(2, 1, 2, &[10, 11, 20, 21]);
    let labels = labels_file(&[3, 8]);
    let split = loader().load_dataset(Some(&images[..]), Some(&labels[..]));
    assert_eq!(
        split,
        Ok((vec![vec![vec![10, 11]], vec![vec![20, 21]]], vec![3, 8]))
    );
}

#[test]
fn split_with_more_labels_than_images_is_rejected() {
    let images = images_file(2, 1, 1, &[1, 2]);
    let labels = labels_file(&[0, 1, 2]);
    assert_eq!(
        loader().load_dataset(Some(&images[..]), Some(&labels[..])),
        Err(LoadError::DimensionMismatch { images: 2, labels: 3 })
    );
}

#[test]
fn split_with_more_images_than_labels_is_rejected() {
    let images = images_file(3, 1, 1, &[1, 2, 3]);
    let labels = labels_file(&[7]);
    assert_eq!(
        loader().load_dataset(Some(&images[..]), Some(&labels[..])),
        Err(LoadError::DimensionMismatch { images: 3, labels: 1 })
    );
}

#[test]
fn split_of_empty_files_is_empty() {
    let images = images_file(0, 28, 28, &[]);
    let labels = labels_file(&[]);
    assert_eq!(
        loader().load_dataset(Some(&images[..]), Some(&labels[..])),
        Ok((Vec::new(), Vec::new()))
    );
}

#[test]
fn split_with_an_unread_file_is_an_io_error() {
    let images = images_file(1, 1, 1, &[1]);
    let labels = labels_file(&[1]);
    assert_eq!(loader().load_dataset(None, Some(&labels[..])), Err(LoadError::Io));
    assert_eq!(loader().load_dataset(Some(&images[..]), None), Err(LoadError::Io));
    assert_eq!(loader().load_dataset(None, None), Err(LoadError::Io));
}

#[test]
fn split_judges_labels_before_images() {
    let bad_labels = [0u8, 0, 4, 210, 0, 0, 0, 0];
    let bad_images = [0u8, 0, 39, 15, 0, 0, 0, 0, 0, 0, 0, 0, 0, 0, 0, 0];
    assert_eq!(
        loader().load_dataset(Some(&bad_images[..]), Some(&bad_labels[..])),
        Err(LoadError::Format { expected: 2049, found: 1234 })
    );
    assert_eq!(
        loader().load_dataset(None, Some(&bad_labels[..])),
        Err(LoadError::Format { expected: 2049, found: 1234 })
    );
    assert_eq!(
        loader().load_dataset(Some(&bad_images[..]), None),
        Err(LoadError::Io)
    );
    let labels = labels_file(&[1]);
    assert_eq!(
        loader().load_dataset(Some(&bad_images[..]), Some(&labels[..])),
        Err(LoadError::Format { expected: 2051, found: 9999 })
    );
    assert_eq!(
        loader().load_dataset(Some(&[0u8, 0, 8][..]), Some(&labels[..])),
        Err(LoadError::Truncated)
    );
}

#[test]
fn all_splits_come_in_order() {
    let train_images = images_file(2, 1, 1, &[1, 2]);
    let train_labels = labels_file(&[5, 6]);
    let test_images = images_file(1, 2, 1, &[3, 4]);
    let test_labels = labels_file(&[9]);
    let all = loader().load_all(
        Some(&train_images[..]),
        Some(&train_labels[..]),
        Some(&test_images[..]),
        Some(&test_labels[..]),
    );
    assert_eq!(
        all,
        Ok((
            (vec![vec![vec![1]], vec![vec![2]]], vec![5, 6]),
            (vec![vec![vec![3], vec![4]]], vec![9]),
        ))
    );
}

#[test]
fn all_splits_fail_on_the_first_failure() {
    let train_images = images_file(2, 1, 1, &[1, 2]);
    let train_labels = labels_file(&[5, 6]);
    let test_images = images_file(1, 1, 1, &[3]);
    let test_labels = labels_file(&[9, 9]);
    let loader = loader();
    assert_eq!(
        loader.load_all(
            Some(&train_images[..]),
            Some(&train_labels[..]),
            Some(&test_images[..]),
            Some(&test_labels[..]),
        ),
        Err(LoadError::DimensionMismatch { images: 1, labels: 2 })
    );
    assert_eq!(
        loader.load_all(Some(&train_images[..]), Some(&train_labels[..]), None, None),
        Err(LoadError::Io)
    );
    assert_eq!(
        loader.load_all(
            Some(&train_images[..]),
            Some(&train_labels[..]),
            None,
            Some(&[1u8, 2, 3, 4][..]),
        ),
        Err(LoadError::Format { expected: 2049, found: 0x0102_0304 })
    );
    assert_eq!(
        loader.load_all(None, Some(&train_labels[..]), Some(&[][..]), Some(&[][..])),
        Err(LoadError::Io)
    );
    assert_eq!(
        loader.load_all(
            Some(&train_images[..]),
            Some(&[0u8, 0, 4, 210][..]),
            Some(&test_images[..]),
            Some(&test_labels[..]),
        ),
        Err(LoadError::Format { expected: 2049, found: 1234 })
    );
}
