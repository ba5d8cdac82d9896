use vstd::prelude::*;
use crate::binary::{store_fault, reports};
use crate::error::VectorStoreError;
use crate::store::VectorStore;

verus! {

/// Checks that `contents`, the bytes of a store file, load as a vector store.
pub fn load_file(contents: Vec<u8>) -> (r: Result<(), VectorStoreError>)
    ensures
        r is Ok <==> store_fault(contents@) is None,
        r matches Err(e) ==> reports(e, store_fault(contents@)->0),
{
    match VectorStore::from_mmap(contents) {
        Ok(_) => Ok(()),
        Err(e) => Err(e),
    }
}

} // verus!
