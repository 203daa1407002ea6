//! The typed response model of the gateway's transaction endpoints:
//! plain value types, fully populated on decode and immutable afterwards.

use vstd::prelude::*;

verus! {

/// A name/value pair attached to a transaction. The order of a
/// transaction's tags is meaningful and duplicate names are allowed.
#[derive(Debug, PartialEq)]
pub struct Tag {
    pub name: String,
    pub value: String,
}

/// The mathematical value of a `Tag`.
pub struct TagV {
    pub name: Seq<char>,
    pub value: Seq<char>,
}

impl View for Tag {
    type V = TagV;

    open spec fn view(&self) -> TagV {
        TagV { name: self.name@, value: self.value@ }
    }
}

/// A transaction record as the gateway reports it. All string fields other
/// than `id`, `last_tx` and `target` are opaque encoded values that this
/// layer passes through untouched; `data` holds raw bytes.
#[derive(Debug, PartialEq)]
pub struct TransactionData {
    pub format: usize,
    pub id: String,
    pub last_tx: String,
    pub owner: String,
    pub tags: Vec<Tag>,
    pub target: String,
    pub quantity: String,
    pub data: Vec<u8>,
    pub reward: String,
    pub signature: String,
    pub data_size: String,
    pub data_root: String,
}

/// The mathematical value of a `TransactionData`.
pub struct TransactionDataV {
    pub format: usize,
    pub id: Seq<char>,
    pub last_tx: Seq<char>,
    pub owner: Seq<char>,
    pub tags: Seq<TagV>,
    pub target: Seq<char>,
    pub quantity: Seq<char>,
    pub data: Seq<u8>,
    pub reward: Seq<char>,
    pub signature: Seq<char>,
    pub data_size: Seq<char>,
    pub data_root: Seq<char>,
}

impl View for TransactionData {
    type V = TransactionDataV;

    open spec fn view(&self) -> TransactionDataV {
        TransactionDataV {
            format: self.format,
            id: self.id@,
            last_tx: self.last_tx@,
            owner: self.owner@,
            tags: self.tags@.map_values(|t: Tag| t@),
            target: self.target@,
            quantity: self.quantity@,
            data: self.data@,
            reward: self.reward@,
            signature: self.signature@,
            data_size: self.data_size@,
            data_root: self.data_root@,
        }
    }
}

/// Where in a block a confirmed transaction sits.
#[derive(Debug, PartialEq)]
pub struct TransactionConfirmedData {
    pub block_indep_hash: String,
    pub block_height: usize,
    pub number_of_confirmations: usize,
}

/// The mathematical value of a `TransactionConfirmedData`.
pub struct TransactionConfirmedDataV {
    pub block_indep_hash: Seq<char>,
    pub block_height: usize,
    pub number_of_confirmations: usize,
}

impl View for TransactionConfirmedData {
    type V = TransactionConfirmedDataV;

    open spec fn view(&self) -> TransactionConfirmedDataV {
        TransactionConfirmedDataV {
            block_indep_hash: self.block_indep_hash@,
            block_height: self.block_height,
            number_of_confirmations: self.number_of_confirmations,
        }
    }
}

/// The confirmation status of a transaction; `confirmed` is present only
/// once the transaction has entered a block.
#[derive(Debug, PartialEq)]
pub struct TransactionStatusResponse {
    pub status: usize,
    pub confirmed: Option<TransactionConfirmedData>,
}

/// The mathematical value of a `TransactionStatusResponse`.
pub struct TransactionStatusResponseV {
    pub status: usize,
    pub confirmed: Option<TransactionConfirmedDataV>,
}

impl View for TransactionStatusResponse {
    type V = TransactionStatusResponseV;

    open spec fn view(&self) -> TransactionStatusResponseV {
        TransactionStatusResponseV {
            status: self.status,
            confirmed: match self.confirmed {
                Some(c) => Some(c@),
                None => None,
            },
        }
    }
}

} // verus!
