//! The social-graph collaborator's surface as the core uses it: the read and
//! write requests the core builds, the metered budgets and the fixed storage
//! deposit attached to them, and the badge document a winner is published
//! with.
use vstd::prelude::*;
use crate::json::JsonVal;
use crate::json::entries_of;

verus! {

/// Metered budget attached to the social-graph read.
pub const GAS_FOR_SOCIAL_GET: u64 = 10_000_000_000_000;

/// Metered budget attached to the social-graph write.
pub const GAS_FOR_SOCIAL_SET: u64 = 15_000_000_000_000;

/// Metered budget reserved for the settlement continuation.
pub const GAS_FOR_AFTER_SOCIAL_GET: u64 = 50_000_000_000_000;

/// Fixed storage deposit attached to a badge write.
pub const DEPOSIT_FOR_SOCIAL_SET: u128 = 100_000_000_000_000_000_000_000;

/// Read options of the social-graph collaborator; the core always sends the
/// defaults.
pub struct GetOptions {
    pub with_block_height: Option<bool>,
    pub with_node_id: Option<bool>,
    pub return_deleted: Option<bool>,
}

/// The social-graph collaborator's own operations, as the core relies on
/// them: an asynchronous, metered read of stored keys and a fire-and-forget
/// write of a document. Implemented by the platform adapter, never by the
/// core.
pub trait ExtSocial {
    fn get(self, keys: Vec<String>, options: Option<GetOptions>) -> JsonVal;

    fn set(&mut self, data: JsonVal);
}

/// The core's own continuation surface: the platform schedules it exactly
/// once per settlement fetch, with the fetch's outcome and the deposit the
/// caller attached.
pub trait ExtContract {
    fn after_social_get(
        &mut self,
        value: Result<JsonVal, PromiseFailure>,
        attached_deposit: u128,
    ) -> usize;
}

/// Why a fetch's continuation ran without a document: the promise failed, or
/// its result was not yet available.
#[derive(Clone, Copy, Debug, PartialEq, Eq, Structural)]
pub enum PromiseFailure {
    Failed,
    NotReady,
}

/// The asynchronous read the settlement issues: which account to ask, for
/// which keys, and with what budgets; the caller's attached value travels to
/// the continuation unmodified.
pub struct SocialGetRequest {
    pub target: String,
    pub keys: Vec<String>,
    pub options: Option<GetOptions>,
    pub gas: u64,
    pub callback_gas: u64,
}

/// The one-way write the badge publisher issues, with its fixed deposit and
/// budget.
pub struct SocialSetRequest {
    pub target: String,
    pub data: JsonVal,
    pub deposit: u128,
    pub gas: u64,
}

/// The badge document: { publisher: { "badge": { badge: { "holder": {
/// holder: "" } } } } }.
pub open spec fn is_badge_doc(
    d: JsonVal,
    publisher: Seq<char>,
    badge: Seq<char>,
    holder: Seq<char>,
) -> bool {
    &&& d is Object && entries_of(d).len() == 1 && entries_of(d)[0].0@ == publisher
    &&& {
        let app = entries_of(d)[0].1;
        &&& app is Object && entries_of(app).len() == 1 && entries_of(app)[0].0@ == "badge"@
        &&& {
            let b = entries_of(app)[0].1;
            &&& b is Object && entries_of(b).len() == 1 && entries_of(b)[0].0@ == badge
            &&& {
                let h = entries_of(b)[0].1;
                &&& h is Object && entries_of(h).len() == 1 && entries_of(h)[0].0@ == "holder"@
                &&& {
                    let acc = entries_of(h)[0].1;
                    &&& acc is Object && entries_of(acc).len() == 1 && entries_of(acc)[0].0@
                        == holder
                    &&& entries_of(acc)[0].1 is Text && entries_of(acc)[0].1->Text_0@
                        == Seq::<char>::empty()
                }
            }
        }
    }
}

/// A full badge write request: the badge document, sent to the social-graph
/// account with the fixed deposit and budget.
pub open spec fn social_set_request_ok(
    req: SocialSetRequest,
    publisher: Seq<char>,
    badge: Seq<char>,
    holder: Seq<char>,
) -> bool {
    &&& req.target@ == "social.near"@
    &&& req.deposit == DEPOSIT_FOR_SOCIAL_SET
    &&& req.gas == GAS_FOR_SOCIAL_SET
    &&& is_badge_doc(req.data, publisher, badge, holder)
}

} // verus!
