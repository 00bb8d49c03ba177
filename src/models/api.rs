//! The history feed's listing as data.
use vstd::prelude::*;

verus! {

#[derive(Clone, Debug)]
pub struct HistoryResponse {
    pub kills: Vec<Kill>,
}

#[derive(Clone, Debug)]
pub struct Kill {
    pub id: u64,
    pub hash: String,
}

} // verus!
