//! The settings of the two commands: vocabulary training and quantization.
use vstd::prelude::*;

verus! {

/// Settings of vocabulary training.
pub struct VocabularyArgs {
    /// The file holding the features.
    pub features: String,
    /// The dataset of the features within that file.
    pub dataset_name: String,
    /// The number of vocabulary entries (centroids).
    pub size: u32,
    /// The file that receives the centroids.
    pub out: String,
    /// Train on the first `n` features only.
    pub n: Option<usize>,
    /// Number of clustering iterations, if not the clustering's default.
    pub niter: Option<u32>,
}

/// Settings of quantization.
pub struct QuantizeArgs {
    /// The file holding the vocabulary.
    pub vocabulary: String,
    /// The file holding the features.
    pub features: String,
    /// The dataset of the features within that file.
    pub features_dataset_name: String,
    /// The dataset of the item id of each feature.
    pub item_id: String,
    /// The dataset of the name of each item.
    pub item_name: String,
    /// The features all belong to one item (item ids and names are not read).
    pub single_item: bool,
    /// The file that receives the histograms.
    pub out: String,
}

impl VocabularyArgs {
    /// Training of `size` centroids on the features of `features`, with the
    /// defaults: dataset `data`, output `vocabulary.h5`, all features, the
    /// clustering's own iteration count.
    pub fn new(features: String, size: u32) -> (r: VocabularyArgs)
        ensures
            r.features == features,
            r.dataset_name@ == "data"@,
            r.size == size,
            r.out@ == "vocabulary.h5"@,
            r.n is None,
            r.niter is None,
    {
        VocabularyArgs {
            features,
            dataset_name: "data".to_owned(),
            size,
            out: "vocabulary.h5".to_owned(),
            n: None,
            niter: None,
        }
    }
}

impl QuantizeArgs {
    /// Quantization of the features of `features` against the vocabulary of
    /// `vocabulary`, with the defaults: datasets `data`, `item_id` and
    /// `id_volume`, several items, output `bows.h5`.
    pub fn new(vocabulary: String, features: String) -> (r: QuantizeArgs)
        ensures
            r.vocabulary == vocabulary,
            r.features == features,
            r.features_dataset_name@ == "data"@,
            r.item_id@ == "item_id"@,
            r.item_name@ == "id_volume"@,
            !r.single_item,
            r.out@ == "bows.h5"@,
    {
        QuantizeArgs {
            vocabulary,
            features,
            features_dataset_name: "data".to_owned(),
            item_id: "item_id".to_owned(),
            item_name: "id_volume".to_owned(),
            single_item: false,
            out: "bows.h5".to_owned(),
        }
    }
}

} // verus!
