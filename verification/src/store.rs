use vstd::prelude::*;
use crate::binary::{
    StoreModel, store_fault, store_model, reports, header_rows, labels_offset, check_layout,
    f32_count, VECTOR_DIM, HEADER_SIZE, ROW_BYTES,
};
use crate::error::VectorStoreError;
use crate::label::{Label, byte_label};
use crate::nearest::{count_nearest_fraud, nearest_fraud_count, limit_of};

verus! {

/// A validated store of labelled reference vectors, over the bytes of its file.
pub struct VectorStore {
    bytes: Vec<u8>,
    dim: usize,
    rows: usize,
    vectors_offset: usize,
    labels_offset: usize,
}

impl View for VectorStore {
    type V = StoreModel;

    closed spec fn view(&self) -> StoreModel {
        store_model(self.bytes@)
    }
}

/// The shape every well-formed store's contents have.
pub open spec fn model_shape(m: StoreModel) -> bool {
    &&& m.dim == VECTOR_DIM
    &&& m.vectors.len() == m.rows * ROW_BYTES
    &&& m.labels.len() == m.rows
    &&& m.rows <= u32::MAX
    &&& HEADER_SIZE + m.rows * ROW_BYTES + m.rows <= usize::MAX
}

/// The contents of a well-formed store file have the store shape.
pub proof fn lemma_model_shape(b: Seq<u8>)
    requires
        store_fault(b) is None,
    ensures
        model_shape(store_model(b)),
{
    crate::binary::lemma_le_value_bytes(b, 12);
}

impl VectorStore {
    #[verifier::type_invariant]
    spec fn well_formed(self) -> bool {
        &&& store_fault(self.bytes@) is None
        &&& self.dim == VECTOR_DIM
        &&& self.rows == header_rows(self.bytes@)
        &&& self.vectors_offset == HEADER_SIZE
        &&& self.labels_offset == labels_offset(self.rows as int)
    }

    /// The file bytes the store was built over.
    pub closed spec fn source(&self) -> Seq<u8> {
        self.bytes@
    }

    /// Builds the store over the bytes of a store file (as mapped from disk), checking
    /// its header and size; the store is built exactly when the bytes are well formed.
    pub fn from_mmap(bytes: Vec<u8>) -> (r: Result<VectorStore, VectorStoreError>)
        ensures
            store_fault(bytes@) is None <==> r is Ok,
            r matches Ok(store) ==> store.source() == bytes@ && store@ == store_model(bytes@)
                && model_shape(store@),
            r matches Err(e) ==> reports(e, store_fault(bytes@)->0),
    {
        let rows = match check_layout(bytes.as_slice()) {
            Ok(rows) => rows,
            Err(e) => return Err(e),
        };
        proof {
            lemma_model_shape(bytes@);
        }
        let labels_offset = HEADER_SIZE + rows * ROW_BYTES;
        // The vector section must hold whole `f32` values.
        match f32_count(labels_offset - HEADER_SIZE) {
            Ok(_) => {},
            Err(e) => return Err(e),
        }
        Ok(VectorStore { bytes, dim: VECTOR_DIM, rows, vectors_offset: HEADER_SIZE, labels_offset })
    }

    /// Whether the store holds no rows.
    pub fn is_empty(&self) -> (r: bool)
        ensures
            r == (self@.rows == 0),
    {
        proof {
            use_type_invariant(self);
        }
        self.rows == 0
    }

    /// Number of rows.
    pub fn rows(&self) -> (r: usize)
        ensures
            r == self@.rows,
            model_shape(self@),
    {
        proof {
            use_type_invariant(self);
            lemma_model_shape(self.bytes@);
        }
        self.rows
    }

    /// Number of components of each vector.
    pub fn dim(&self) -> (r: usize)
        ensures
            r == self@.dim,
            r == VECTOR_DIM,
    {
        proof {
            use_type_invariant(self);
        }
        self.dim
    }

    /// The little-endian `f32` bytes of every vector, row after row.
    pub fn vectors(&self) -> (r: &[u8])
        ensures
            r@ == self@.vectors,
    {
        proof {
            use_type_invariant(self);
            lemma_model_shape(self.bytes@);
        }
        &self.bytes.as_slice()[self.vectors_offset..self.labels_offset]
    }

    /// The label byte of every row.
    pub fn labels(&self) -> (r: &[u8])
        ensures
            r@ == self@.labels,
    {
        proof {
            use_type_invariant(self);
            lemma_model_shape(self.bytes@);
        }
        &self.bytes.as_slice()[self.labels_offset..self.bytes.len()]
    }

    /// The little-endian `f32` bytes of the vector of row `row`.
    pub fn vector_bytes(&self, row: usize) -> (r: &[u8])
        requires
            row < self@.rows,
        ensures
            r@ == self@.vectors.subrange(row * ROW_BYTES, (row + 1) * ROW_BYTES),
            r@ == self@.vectors.subrange(56 * row, 56 * row + 56),
    {
        proof {
            use_type_invariant(self);
            lemma_model_shape(self.bytes@);
            assert((row + 1) * ROW_BYTES <= self.rows * ROW_BYTES) by (nonlinear_arith)
                requires
                    row < self.rows,
            ;
        }
        let start = self.vectors_offset + row * ROW_BYTES;
        let r = &self.bytes.as_slice()[start..start + ROW_BYTES];
        assert(r@ =~= self@.vectors.subrange(row * ROW_BYTES, (row + 1) * ROW_BYTES));
        r
    }

    /// The label of row `row`.
    pub fn label(&self, row: usize) -> (r: Label)
        requires
            row < self@.rows,
        ensures
            r == byte_label(self@.labels[row as int]),
    {
        proof {
            use_type_invariant(self);
            lemma_model_shape(self.bytes@);
        }
        Label::from_byte(self.bytes[self.labels_offset + row])
    }

    /// Number of fraud-labelled rows among the `k` nearest to a query of `query_len`
    /// components, given `distance_keys[i]`, the ordering key of row `i`'s distance to
    /// the query (a smaller key is nearer; equal keys go to the earlier row).
    /// Fails when `k` is zero, then when the store is empty, then when the query's
    /// length is not the store's dimension.
    pub fn query_fraud_hits(&self, query_len: usize, distance_keys: &[u32], k: usize) -> (r:
        Result<i8, VectorStoreError>)
        requires
            distance_keys@.len() == self@.rows,
        ensures
            k == 0 ==> r == Err::<i8, VectorStoreError>(VectorStoreError::InvalidK),
            k != 0 && self@.rows == 0 ==> r == Err::<i8, VectorStoreError>(
                VectorStoreError::EmptyDataset,
            ),
            k != 0 && self@.rows != 0 && query_len != VECTOR_DIM ==> r == Err::<
                i8,
                VectorStoreError,
            >(VectorStoreError::InvalidVectorLength { expected: VECTOR_DIM, got: query_len }),
            k != 0 && self@.rows != 0 && query_len == VECTOR_DIM ==> r == Ok::<
                i8,
                VectorStoreError,
            >(nearest_fraud_count(distance_keys@, self@.labels, k as nat) as i8),
            k <= 127 ==> (r matches Ok(h) ==> h as int == nearest_fraud_count(
                distance_keys@,
                self@.labels,
                k as nat,
            )),
            r is Ok ==> nearest_fraud_count(distance_keys@, self@.labels, k as nat) <= limit_of(
                k as int,
                self@.rows as int,
            ),
    {
        proof {
            use_type_invariant(self);
            lemma_model_shape(self.bytes@);
        }
        if k == 0 {
            return Err(VectorStoreError::InvalidK);
        }
        if self.is_empty() {
            return Err(VectorStoreError::EmptyDataset);
        }
        if query_len != self.dim {
            return Err(VectorStoreError::InvalidVectorLength { expected: self.dim, got: query_len });
        }
        let hits = count_nearest_fraud(distance_keys, self.labels(), k);
        Ok(#[verifier::truncate] (hits as i8))
    }
}

} // verus!
