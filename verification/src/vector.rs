use vstd::prelude::*;

verus! {

/// A request for the stored vectors of several documents.
#[derive(Debug, Clone)]
pub struct BatchGetRequest {
    pub document_ids: Vec<String>,
    pub fields: Vec<String>,
}

/// The answer to storing a vector.
#[derive(Debug, Clone)]
pub struct VectorResponse {
    pub success: bool,
    pub vector_id: String,
    pub document_id: String,
}

} // verus!
