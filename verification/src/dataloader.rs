//! Pairing the images of a split with its labels, and the two splits of a
//! dataset with each other.

use crate::error::LoadError;
use crate::idx::decode_images;
use crate::idx::decode_labels;
use crate::idx::decoded_images;
use crate::idx::decoded_labels;
use crate::idx::grids_of;
use vstd::prelude::*;

verus! {

/// One split of a dataset: its images and, index by index, their labels.
pub type Dataset = (Vec<Vec<Vec<u8>>>, Vec<u8>);

/// The mathematical content of a split.
pub type Split = (Seq<Seq<Seq<u8>>>, Seq<u8>);

/// What a split holds.
pub open spec fn split_of(dataset: Dataset) -> Split {
    (grids_of(dataset.0), dataset.1@)
}

/// What was read of a file: its bytes, or nothing where reading failed.
pub open spec fn contents_of(file: Option<&[u8]>) -> Option<Seq<u8>> {
    match file {
        Some(bytes) => Some(bytes@),
        None => None,
    }
}

/// What a file of images and a file of labels make together.
///
/// The labels are looked at first, then the images; the first failure is
/// the result, and what comes after it is not looked at. Two files that
/// decode to different numbers of items are rejected.
pub open spec fn paired_split(images_file: Option<Seq<u8>>, labels_file: Option<Seq<u8>>) -> Result<
    Split,
    LoadError,
> {
    match labels_file {
        None => Err(LoadError::Io),
        Some(label_bytes) => match decoded_labels(label_bytes) {
            Err(e) => Err(e),
            Ok(labels) => match images_file {
                None => Err(LoadError::Io),
                Some(image_bytes) => match decoded_images(image_bytes) {
                    Err(e) => Err(e),
                    Ok(images) => if images.len() != labels.len() {
                        Err(
                            LoadError::DimensionMismatch {
                                images: images.len() as usize,
                                labels: labels.len() as usize,
                            },
                        )
                    } else {
                        Ok((images, labels))
                    },
                },
            },
        },
    }
}

/// What the four files of a dataset make together: the training split,
/// then the test split, or the first failure among them.
pub open spec fn paired_splits(
    training_images: Option<Seq<u8>>,
    training_labels: Option<Seq<u8>>,
    test_images: Option<Seq<u8>>,
    test_labels: Option<Seq<u8>>,
) -> Result<(Split, Split), LoadError> {
    match paired_split(training_images, training_labels) {
        Err(e) => Err(e),
        Ok(training) => match paired_split(test_images, test_labels) {
            Err(e) => Err(e),
            Ok(test) => Ok((training, test)),
        },
    }
}

/// No split pairs images and labels of different numbers: where both files
/// decode and their items differ in number, the outcome is
/// `DimensionMismatch` with the two numbers, and every split that is made
/// has one label for each image.
pub proof fn lemma_split_is_paired(images_file: Option<Seq<u8>>, labels_file: Option<Seq<u8>>)
    ensures
        paired_split(images_file, labels_file) matches Ok(split) ==> split.0.len() == split.1.len(),
        (images_file matches Some(image_bytes) && labels_file matches Some(label_bytes)
            && decoded_images(image_bytes) matches Ok(images) && decoded_labels(label_bytes) matches Ok(
            labels,
        ) && images.len() != labels.len()) ==> paired_split(images_file, labels_file) == Err::<
            Split,
            LoadError,
        >(
            LoadError::DimensionMismatch {
                images: decoded_images(images_file->Some_0)->Ok_0.len() as usize,
                labels: decoded_labels(labels_file->Some_0)->Ok_0.len() as usize,
            },
        ),
{
}

/// Where the labels could not be read or do not decode, the file of images
/// has no part in the outcome.
pub proof fn lemma_labels_are_judged_first(
    images_file: Option<Seq<u8>>,
    labels_file: Option<Seq<u8>>,
)
    requires
        labels_file matches Some(label_bytes) ==> decoded_labels(label_bytes) is Err,
    ensures
        paired_split(images_file, labels_file) == paired_split(None, labels_file),
        paired_split(images_file, labels_file) is Err,
        labels_file is None ==> paired_split(images_file, labels_file) == Err::<Split, LoadError>(
            LoadError::Io,
        ),
{
}

/// Once the training split has failed, the files of the test split have no
/// part in the outcome.
pub proof fn lemma_first_failure_decides(
    training_images: Option<Seq<u8>>,
    training_labels: Option<Seq<u8>>,
    test_images: Option<Seq<u8>>,
    test_labels: Option<Seq<u8>>,
)
    requires
        paired_split(training_images, training_labels) is Err,
    ensures
        paired_splits(training_images, training_labels, test_images, test_labels) == paired_splits(
            training_images,
            training_labels,
            None,
            None,
        ),
        paired_splits(training_images, training_labels, test_images, test_labels) is Err,
{
}

/// Where the four files of a dataset lie, and how their contents become
/// the two splits.
pub struct MNISTDataloader {
    training_images_filepath: String,
    training_labels_filepath: String,
    test_images_filepath: String,
    test_labels_filepath: String,
}

impl MNISTDataloader {
    /// The four paths: training images, training labels, test images, test
    /// labels.
    pub closed spec fn paths(&self) -> (Seq<char>, Seq<char>, Seq<char>, Seq<char>) {
        (
            self.training_images_filepath@,
            self.training_labels_filepath@,
            self.test_images_filepath@,
            self.test_labels_filepath@,
        )
    }

    /// A loader for the files at the four given paths.
    pub fn new(
        training_images_filepath: String,
        training_labels_filepath: String,
        test_images_filepath: String,
        test_labels_filepath: String,
    ) -> (loader: Self)
        ensures
            loader.paths() == (
                training_images_filepath@,
                training_labels_filepath@,
                test_images_filepath@,
                test_labels_filepath@,
            ),
    {
        MNISTDataloader {
            training_images_filepath,
            training_labels_filepath,
            test_images_filepath,
            test_labels_filepath,
        }
    }

    /// Path of the file of training images.
    pub fn training_images_filepath(&self) -> (path: &String)
        ensures
            path@ == self.paths().0,
    {
        &self.training_images_filepath
    }

    /// Path of the file of training labels.
    pub fn training_labels_filepath(&self) -> (path: &String)
        ensures
            path@ == self.paths().1,
    {
        &self.training_labels_filepath
    }

    /// Path of the file of test images.
    pub fn test_images_filepath(&self) -> (path: &String)
        ensures
            path@ == self.paths().2,
    {
        &self.test_images_filepath
    }

    /// Path of the file of test labels.
    pub fn test_labels_filepath(&self) -> (path: &String)
        ensures
            path@ == self.paths().3,
    {
        &self.test_labels_filepath
    }

    /// Decodes the two files of one split and pairs them.
    ///
    /// Each argument is what reading the file gave: its bytes, or `None`
    /// where it could not be read. The result is `Io` for a file that could
    /// not be read, the decoder's error for one that does not decode, and
    /// `DimensionMismatch` where the images and the labels differ in number;
    /// the labels are judged before the images.
    pub fn load_dataset(&self, images_file: Option<&[u8]>, labels_file: Option<&[u8]>) -> (result:
        Result<Dataset, LoadError>)
        ensures
            match result {
                Ok(dataset) => paired_split(contents_of(images_file), contents_of(labels_file))
                    == Ok::<Split, LoadError>(split_of(dataset)),
                Err(e) => paired_split(contents_of(images_file), contents_of(labels_file))
                    == Err::<Split, LoadError>(e),
            },
            result is Ok ==> result->Ok_0.0@.len() == result->Ok_0.1@.len(),
    {
        let label_bytes: &[u8] = match labels_file {
            Some(bytes) => bytes,
            None => { return Err(LoadError::Io); },
        };
        let labels: Vec<u8> = match decode_labels(label_bytes) {
            Ok(labels) => labels,
            Err(e) => { return Err(e); },
        };
        let image_bytes: &[u8] = match images_file {
            Some(bytes) => bytes,
            None => { return Err(LoadError::Io); },
        };
        let images: Vec<Vec<Vec<u8>>> = match decode_images(image_bytes) {
            Ok(images) => images,
            Err(e) => { return Err(e); },
        };
        if images.len() != labels.len() {
            return Err(
                LoadError::DimensionMismatch { images: images.len(), labels: labels.len() },
            );
        }
        Ok((images, labels))
    }

    /// Decodes and pairs the training split, then the test split.
    ///
    /// The first failure is the result: once a file fails, what was read of
    /// the files after it has no part in the outcome.
    pub fn load_all(
        &self,
        training_images: Option<&[u8]>,
        training_labels: Option<&[u8]>,
        test_images: Option<&[u8]>,
        test_labels: Option<&[u8]>,
    ) -> (result: Result<(Dataset, Dataset), LoadError>)
        ensures
            match result {
                Ok(splits) => paired_splits(
                    contents_of(training_images),
                    contents_of(training_labels),
                    contents_of(test_images),
                    contents_of(test_labels),
                ) == Ok::<(Split, Split), LoadError>((split_of(splits.0), split_of(splits.1))),
                Err(e) => paired_splits(
                    contents_of(training_images),
                    contents_of(training_labels),
                    contents_of(test_images),
                    contents_of(test_labels),
                ) == Err::<(Split, Split), LoadError>(e),
            },
    {
        let training: Dataset = match self.load_dataset(training_images, training_labels) {
            Ok(dataset) => dataset,
            Err(e) => { return Err(e); },
        };
        let test: Dataset = match self.load_dataset(test_images, test_labels) {
            Ok(dataset) => dataset,
            Err(e) => { return Err(e); },
        };
        Ok((training, test))
    }
}

} // verus!
