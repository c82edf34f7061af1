//! The records the registry stores: a registration of one identity's claim
//! over a content hash, its transfer history, and the error taxonomy of the
//! operations that act on them.

use vstd::prelude::*;
use vstd::string::StringExecFns;
use crate::identity::Identity;

verus! {

/// Lifecycle state of a registration.
#[derive(Clone, Copy, PartialEq, Eq, Structural, Debug)]
pub enum RegistrationStatus {
    Active,
    Transferred,
    Expired,
}

/// Why an operation failed: no registration under the expected key, or a
/// registration whose stored hash does not match the caller's claim.
#[derive(Clone, Copy, PartialEq, Eq, Structural, Debug)]
pub enum RegistryError {
    NotFound,
    OwnershipMismatch,
}

impl RegistryError {
    /// The message the host surface reports for this error.
    pub fn message(&self) -> (r: String)
        ensures
            *self == RegistryError::NotFound ==> r@ == "IP registration not found"@,
            *self == RegistryError::OwnershipMismatch ==> r@ == "You don't own this IP"@,
    {
        match self {
            RegistryError::NotFound => String::from_str("IP registration not found"),
            RegistryError::OwnershipMismatch => String::from_str("You don't own this IP"),
        }
    }
}

/// Mathematical value of one transfer record.
pub ghost struct TransferRecordView {
    pub from: Seq<u8>,
    pub to: Seq<u8>,
    pub timestamp: u64,
}

/// Immutable log entry of one ownership change.
pub struct TransferRecord {
    pub from: Identity,
    pub to: Identity,
    pub timestamp: u64,
}

impl View for TransferRecord {
    type V = TransferRecordView;

    open spec fn view(&self) -> TransferRecordView {
        TransferRecordView { from: self.from@, to: self.to@, timestamp: self.timestamp }
    }
}

impl Clone for TransferRecord {
    fn clone(&self) -> (r: Self)
        ensures
            r@ == self@,
    {
        TransferRecord {
            from: self.from.clone(),
            to: self.to.clone(),
            timestamp: self.timestamp,
        }
    }
}

/// Mathematical value of one registration.
pub ghost struct RegistrationView {
    pub owner: Seq<u8>,
    pub title: Seq<char>,
    pub description: Seq<char>,
    pub timestamp: u64,
    pub file_hash: Seq<char>,
    pub license_type: Seq<char>,
    pub metadata: Seq<(Seq<char>, Seq<char>)>,
    pub transfer_history: Seq<TransferRecordView>,
    pub status: RegistrationStatus,
}

/// One identity's claim over a content hash. The `owner` field always equals
/// the key under which the registry stores the record.
pub struct Registration {
    pub owner: Identity,
    pub title: String,
    pub description: String,
    pub timestamp: u64,
    pub file_hash: String,
    pub license_type: String,
    pub metadata: Vec<(String, String)>,
    pub transfer_history: Vec<TransferRecord>,
    pub status: RegistrationStatus,
}

/// The mathematical value of a metadata pairing.
pub open spec fn metadata_view(m: Seq<(String, String)>) -> Seq<(Seq<char>, Seq<char>)> {
    m.map_values(|p: (String, String)| (p.0@, p.1@))
}

/// The mathematical value of a transfer history.
pub open spec fn history_view(h: Seq<TransferRecord>) -> Seq<TransferRecordView> {
    h.map_values(|t: TransferRecord| t@)
}

impl View for Registration {
    type V = RegistrationView;

    open spec fn view(&self) -> RegistrationView {
        RegistrationView {
            owner: self.owner@,
            title: self.title@,
            description: self.description@,
            timestamp: self.timestamp,
            file_hash: self.file_hash@,
            license_type: self.license_type@,
            metadata: metadata_view(self.metadata@),
            transfer_history: history_view(self.transfer_history@),
            status: self.status,
        }
    }
}

/// Copies a transfer history element by element.
pub fn clone_history(h: &Vec<TransferRecord>) -> (r: Vec<TransferRecord>)
    ensures
        history_view(r@) == history_view(h@),
{
    let mut r: Vec<TransferRecord> = Vec::new();
    let mut i: usize = 0;
    while i < h.len()
        invariant
            0 <= i <= h@.len(),
            r@.len() == i,
            forall|j: int| 0 <= j < i ==> r@[j]@ == h@[j]@,
        decreases h@.len() - i,
    {
        r.push(h[i].clone());
        i += 1;
    }
    proof {
        assert(history_view(r@) =~= history_view(h@));
    }
    r
}

/// Copies a metadata pairing element by element.
fn clone_metadata(m: &Vec<(String, String)>) -> (r: Vec<(String, String)>)
    ensures
        metadata_view(r@) == metadata_view(m@),
{
    let mut r: Vec<(String, String)> = Vec::new();
    let mut i: usize = 0;
    while i < m.len()
        invariant
            0 <= i <= m@.len(),
            r@.len() == i,
            forall|j: int| 0 <= j < i
                ==> (#[trigger] r@[j]).0@ == m@[j].0@ && r@[j].1@ == m@[j].1@,
        decreases m@.len() - i,
    {
        r.push((m[i].0.clone(), m[i].1.clone()));
        i += 1;
    }
    proof {
        assert(metadata_view(r@) =~= metadata_view(m@));
    }
    r
}

impl Clone for Registration {
    fn clone(&self) -> (r: Self)
        ensures
            r@ == self@,
    {
        Registration {
            owner: self.owner.clone(),
            title: self.title.clone(),
            description: self.description.clone(),
            timestamp: self.timestamp,
            file_hash: self.file_hash.clone(),
            license_type: self.license_type.clone(),
            metadata: clone_metadata(&self.metadata),
            transfer_history: clone_history(&self.transfer_history),
            status: self.status,
        }
    }
}

} // verus!
