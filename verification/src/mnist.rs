//! The MNIST dataset held as raw bytes: a decoded IDX image file and
//! its label file, combined into one indexable collection.

use vstd::prelude::*;

use vstd::slice::{slice_subrange, slice_to_vec};

verus! {

pub const DATA_SIZE: usize = 28 * 28;

pub const DATA_TYPES: usize = 10;

pub const TRAIN_NUM: usize = 60_000;

pub const TEST_NUM: usize = 10_000;

pub const DATA_MAGIC_NUMBER: u32 = 2051;

pub const LABEL_MAGIC_NUMBER: u32 = 2049;

/// The big-endian 32-bit word at position i of a byte sequence.
pub open spec fn be32(s: Seq<u8>, i: int) -> int {
    s[i] * 0x1000000 + s[i + 1] * 0x10000 + s[i + 2] * 0x100 + s[i + 3]
}

/// Reads a big-endian 32-bit unsigned integer from the first four
/// bytes of a slice.
pub fn slice_to_u32(slice: &[u8]) -> (r: u32)
    requires
        slice@.len() >= 4,
    ensures
        r == be32(slice@, 0),
{
    let b0 = slice[0] as u32;
    let b1 = slice[1] as u32;
    let b2 = slice[2] as u32;
    let b3 = slice[3] as u32;
    b0 * 0x1000000 + b1 * 0x10000 + b2 * 0x100 + b3
}

#[derive(Debug, Clone)]
pub struct Dataset {
    /// Number of Data
    pub num: usize,
    /// Size of Data
    pub size: usize,
    data: Vec<u8>,
    labels: Vec<u8>,
}

impl Dataset {
    /// The image bytes, with the IDX header stripped.
    pub closed spec fn spec_data(&self) -> Seq<u8> {
        self.data@
    }

    /// The label bytes, with the IDX header stripped.
    pub closed spec fn spec_labels(&self) -> Seq<u8> {
        self.labels@
    }

    pub closed spec fn spec_num(&self) -> nat {
        self.num as nat
    }

    pub closed spec fn spec_size(&self) -> nat {
        self.size as nat
    }

    /// The declared counts fit inside the stored bytes.
    pub open spec fn wf_counts(&self) -> bool {
        &&& self.spec_num() * self.spec_size() <= self.spec_data().len()
        &&& self.spec_num() <= self.spec_labels().len()
    }

    /// Combines both MNIST raw data and label into a singular dataset.
    ///
    /// **Copies the data into struct**
    pub fn load(data: Vec<u8>, label: Vec<u8>) -> (r: Self)
        requires
            data@.len() >= 16,
            label@.len() >= 8,
            be32(data@, 0) == DATA_MAGIC_NUMBER,
            be32(label@, 0) == LABEL_MAGIC_NUMBER,
            be32(data@, 4) == be32(label@, 4),
            be32(data@, 8) * be32(data@, 12) <= u32::MAX,
        ensures
            r.spec_num() == be32(data@, 4),
            r.spec_size() == be32(data@, 8) * be32(data@, 12),
            r.spec_data() == data@.skip(16),
            r.spec_labels() == label@.skip(8),
    {
        let dlen = data.len();
        let llen = label.len();
        let num = slice_to_u32(slice_subrange(data.as_slice(), 4, 8));
        let row = slice_to_u32(slice_subrange(data.as_slice(), 8, 12));
        let col = slice_to_u32(slice_subrange(data.as_slice(), 12, 16));
        proof {
            assert(be32(data@.subrange(4, 8), 0) == be32(data@, 4));
            assert(be32(data@.subrange(8, 12), 0) == be32(data@, 8));
            assert(be32(data@.subrange(12, 16), 0) == be32(data@, 12));
        }
        let pixels = slice_to_vec(slice_subrange(data.as_slice(), 16, dlen));
        let labels = slice_to_vec(slice_subrange(label.as_slice(), 8, llen));
        proof {
            assert(data@.subrange(16, data@.len() as int) =~= data@.skip(16));
            assert(label@.subrange(8, label@.len() as int) =~= label@.skip(8));
        }
        Dataset { num: num as usize, size: (row * col) as usize, data: pixels, labels }
    }

    /// An iterator over the examples, in file order.
    pub fn iter(&self) -> (r: DataSetIterator<'_>)
        requires
            self.wf_counts(),
        ensures
            r.wf(),
            r.spec_num() == self.spec_num(),
            r.spec_size() == self.spec_size(),
            r.spec_index() == 0,
            r.spec_data() == self.spec_data(),
            r.spec_labels() == self.spec_labels(),
    {
        DataSetIterator {
            size: self.size,
            num: self.num,
            index: 0,
            data: self.data.as_slice(),
            labels: self.labels.as_slice(),
        }
    }

    /// A copy of the label bytes.
    pub fn to_label_vec(&self) -> (r: Vec<u8>)
        ensures
            r@ == self.spec_labels(),
    {
        slice_to_vec(self.labels.as_slice())
    }
}

pub struct DataSetIterator<'a> {
    size: usize,
    num: usize,
    index: usize,
    data: &'a [u8],
    labels: &'a [u8],
}

impl<'a> DataSetIterator<'a> {
    pub closed spec fn spec_size(&self) -> nat {
        self.size as nat
    }

    pub closed spec fn spec_num(&self) -> nat {
        self.num as nat
    }

    pub closed spec fn spec_index(&self) -> nat {
        self.index as nat
    }

    pub closed spec fn spec_data(&self) -> Seq<u8> {
        self.data@
    }

    pub closed spec fn spec_labels(&self) -> Seq<u8> {
        self.labels@
    }

    /// The declared counts fit inside the borrowed bytes.
    pub open spec fn wf(&self) -> bool {
        &&& self.spec_num() * self.spec_size() <= self.spec_data().len()
        &&& self.spec_num() <= self.spec_labels().len()
    }

    /// The next example: its image bytes and its label.
    pub fn next(&mut self) -> (r: Option<Data<'a, u8>>)
        requires
            old(self).wf(),
        ensures
            final(self).wf(),
            final(self).spec_size() == old(self).spec_size(),
            final(self).spec_num() == old(self).spec_num(),
            final(self).spec_data() == old(self).spec_data(),
            final(self).spec_labels() == old(self).spec_labels(),
            old(self).spec_index() < old(self).spec_num() ==> {
                &&& final(self).spec_index() == old(self).spec_index() + 1
                &&& r matches Some(d) && d.value@ == old(self).spec_data().subrange(
                    (old(self).spec_index() * old(self).spec_size()) as int,
                    ((old(self).spec_index() + 1) * old(self).spec_size()) as int,
                ) && d.label == old(self).spec_labels()[old(self).spec_index() as int]
            },
            old(self).spec_index() >= old(self).spec_num() ==> r is None && *final(self)
                == *old(self),
    {
        if self.index < self.num {
            let dlen = self.data.len();
            proof {
                assert(self.spec_num() * self.spec_size() <= dlen);
                assert((self.index + 1) * self.size <= self.num * self.size && 0 <= self.index
                    * self.size && self.index * self.size <= (self.index + 1) * self.size)
                    by (nonlinear_arith)
                    requires
                        0 <= self.index as int && (self.index as int) < self.num as int,
                        self.size as int >= 0,
                ;
            }
            let lo = self.index * self.size;
            let hi = (self.index + 1) * self.size;
            let value = slice_subrange(self.data, lo, hi);
            let label = self.labels[self.index];
            let index = self.index;
            self.index = index + 1;
            Some(Data { value, label })
        } else {
            None
        }
    }
}

#[derive(Debug)]
pub struct Data<'a, T> {
    pub value: &'a [T],
    pub label: u8,
}

} // verus!
