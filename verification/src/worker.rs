//! What a worker does with a candidate that matched: whether the key is
//! kept, and what is then reported and stored.

use vstd::prelude::*;
use crate::batch::{is_first_match, no_match, record_first_match, BatchPattern};
use crate::keys::{address_text, KeyMaterial};
use crate::report::{batch_match_line, batch_match_text, immediate_match_report,
    immediate_match_text, keypair_file_text, keypair_json_text, storage_of, StoredKey};
use crate::search::{claim, Claim};

verus! {

/// A key that is kept: the report to print and the file to write.
#[derive(Debug)]
pub struct FoundKey {
    /// The report for the operator.
    pub report: String,
    /// The file that stores the keypair.
    pub file: StoredKey,
}

/// A key that was credited to a target of a batch.
#[derive(Debug)]
pub struct CreditedKey {
    /// The index of the target in the collection.
    pub target: usize,
    /// What to report and to store.
    pub found: FoundKey,
}

/// A key that the immediate search keeps.
#[derive(Debug)]
pub struct ClaimedKey {
    /// What to report and to store.
    pub found: FoundKey,
    /// Whether this was the last key wanted, so that the worker stops.
    pub last: bool,
}

impl FoundKey {
    /// The file is the stored form of `key`.
    pub open spec fn stores(&self, key: KeyMaterial) -> bool {
        &&& self.file.file_name@ == keypair_file_text(address_text(key.public@))
        &&& self.file.contents@ == keypair_json_text(key.secret@)
    }
}

/// Offers a generated key to the targets, under exclusive access to them:
/// the first target in collection order that is not complete and whose
/// pattern the public key satisfies is credited, and the key comes back
/// with its report and its file. A key that no target wants changes nothing
/// and is not stored.
pub fn offer_key(targets: &mut Vec<BatchPattern>, key: &KeyMaterial) -> (r: Option<CreditedKey>)
    ensures
        match r {
            Some(credit) => {
                &&& is_first_match(old(targets)@, key.public@, credit.target as int)
                &&& final(targets)@ == old(targets)@.update(
                    credit.target as int,
                    old(targets)@[credit.target as int].credited(),
                )
                &&& credit.found.report@ == batch_match_text(
                    old(targets)@[credit.target as int].pattern_str@,
                    address_text(key.public@),
                )
                &&& credit.found.stores(*key)
            },
            None => no_match(old(targets)@, key.public@) && final(targets)@ == old(targets)@,
        },
{
    match record_first_match(targets, key.public.as_slice()) {
        None => None,
        Some(target) => {
            let address = key.address();
            let report = batch_match_line(targets[target].pattern_str.as_str(), address.as_str());
            Some(CreditedKey { target, found: FoundKey { report, file: storage_of(key) } })
        },
    }
}

/// Decides on a key of the immediate search whose segment `segment`
/// matched and which got the number `key_number`, counted from one, among
/// the `count` keys wanted. A key with a number above `count` is dropped:
/// nothing is reported or stored for it. Any other key is kept, and the one
/// with the number `count` is the last.
pub fn claim_key(key: &KeyMaterial, segment: usize, key_number: usize, count: usize, worker: usize)
    -> (r: Option<ClaimedKey>)
    requires
        segment < 4,
    ensures
        match r {
            Some(claimed) => {
                &&& key_number <= count
                &&& claimed.last == (key_number == count)
                &&& claimed.found.report@ == immediate_match_text(
                    key_number as nat,
                    count as nat,
                    worker as nat,
                    key.public@,
                    address_text(key.public@),
                    segment as nat,
                )
                &&& claimed.found.stores(*key)
            },
            None => key_number > count,
        },
{
    let decision = claim(key_number, count);
    match decision {
        Claim::Surplus => None,
        _ => {
            let address = key.address();
            let report = immediate_match_report(
                key_number,
                count,
                worker,
                &key.public,
                address.as_str(),
                segment,
            );
            Some(
                ClaimedKey {
                    found: FoundKey { report, file: storage_of(key) },
                    last: match decision {
                        Claim::KeepLast => true,
                        _ => false,
                    },
                },
            )
        },
    }
}

} // verus!
