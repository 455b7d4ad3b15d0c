//! Centroid initialisation strategies for the k-means peer algorithm.
//! Drawing the random centroids works on floating-point arrays and
//! lives with the training drivers.

use vstd::prelude::*;

verus! {

pub enum KMeansInit {
    Random,
}

} // verus!
