//! Webhook identity manager: obtaining, and lazily re-provisioning, a
//! channel's posting identity.
//!
//! The unverified shell probes the stored identity against the platform
//! and reports what it found; the decision of what to do with each report
//! is made here. When the shell has provisioned a replacement,
//! `store_identity` persists it onto the channel row — last writer wins,
//! which is safe because identities are interchangeable.

use vstd::prelude::*;
use crate::error::RelayError;
use crate::store::{ChannelRow, Store, WebhookToken};

verus! {

/// What probing the stored identity against the platform reported.
pub enum ProbeResult {
    /// The stored identity answered: it is usable.
    Valid,
    /// The platform reports the identity itself invalid (not a transient
    /// failure): it must be re-provisioned.
    Invalid,
    /// Some other failure: it is propagated unchanged, not repaired.
    Failure,
}

/// What the relay does about a probe report.
#[derive(Clone, Copy, PartialEq, Eq, Structural, Debug)]
pub enum WebhookPlan {
    /// Use the stored identity as it is.
    UseStored,
    /// Provision a fresh identity, persist it, and use that.
    Reprovision,
    /// Fail the operation with the probe's own error.
    Fail,
}

/// Decides what a probe report means for the caller: a usable identity is
/// used, a provider-invalidated one is transparently replaced, and any
/// other failure is propagated unchanged.
pub fn get_webhook(probe: &ProbeResult) -> (r: WebhookPlan)
    ensures
        probe is Valid ==> r == WebhookPlan::UseStored,
        probe is Invalid ==> r == WebhookPlan::Reprovision,
        probe is Failure ==> r == WebhookPlan::Fail,
{
    match probe {
        ProbeResult::Valid => WebhookPlan::UseStored,
        ProbeResult::Invalid => WebhookPlan::Reprovision,
        ProbeResult::Failure => WebhookPlan::Fail,
    }
}

/// Persists a freshly provisioned posting identity onto its channel row.
/// Only the identity fields change; concurrent callers may race, and the
/// last write wins. Fails with `Persistence` when the channel row is gone.
pub fn store_identity(
    store: &mut Store,
    channel_id: u64,
    webhook_id: u64,
    webhook_token: WebhookToken,
) -> (r: Result<(), RelayError>)
    requires
        old(store).wf(),
    ensures
        final(store).wf(),
        r is Ok <==> old(store).spec_has_channel(channel_id),
        r is Err ==> *final(store) == *old(store) && r == Err::<(), RelayError>(
            RelayError::Persistence,
        ),
        r is Ok ==> ({
            &&& final(store).guilds@ == old(store).guilds@
            &&& final(store).groups@ == old(store).groups@
            &&& final(store).messages@ == old(store).messages@
            &&& final(store).channels@.len() == old(store).channels@.len()
            &&& forall|i: int|
                0 <= i < old(store).channels@.len() && old(store).channels@[i].channel_id
                    != channel_id ==> #[trigger] final(store).channels@[i] == old(
                    store,
                ).channels@[i]
            &&& forall|i: int|
                0 <= i < old(store).channels@.len() && old(store).channels@[i].channel_id
                    == channel_id ==> #[trigger] final(store).channels@[i] == (ChannelRow {
                    channel_id: old(store).channels@[i].channel_id,
                    parent_channel_id: old(store).channels@[i].parent_channel_id,
                    group_name: old(store).channels@[i].group_name,
                    lang: old(store).channels@[i].lang,
                    webhook_id: webhook_id,
                    webhook_token: webhook_token,
                })
        }),
{
    let ci = match store.channel_idx(channel_id) {
        Some(ci) => ci,
        None => {
            return Err(RelayError::Persistence);
        },
    };
    let ghost pre = *store;
    store.channels[ci].webhook_id = webhook_id;
    store.channels[ci].webhook_token = webhook_token;
    proof {
        assert forall|i: int, j: int| 0 <= i < j < store.channels@.len() implies store.channels@[
        i].channel_id != store.channels@[j].channel_id by {
            assert(pre.channels@[i].channel_id != pre.channels@[j].channel_id);
        }
        assert forall|i: int| 0 <= i < store.channels@.len() implies crate::store::group_name_in(
            store.groups@,
            #[trigger] store.channels@[i].group_name@,
        ) by {
            assert(crate::store::group_name_in(pre.groups@, pre.channels@[i].group_name@));
        }
        assert forall|i: int| 0 <= i < store.channels@.len() implies crate::lang::recognized_tag(
            #[trigger] store.channels@[i].lang@,
        ) by {
            assert(crate::lang::recognized_tag(pre.channels@[i].lang@));
        }
        assert forall|i: int| 0 <= i < store.messages@.len() implies crate::store::channel_id_in(
            store.channels@,
            #[trigger] store.messages@[i].channel_id,
        ) by {
            assert(crate::store::channel_id_in(pre.channels@, pre.messages@[i].channel_id));
            let w = choose|w: int|
                0 <= w < pre.channels@.len() && pre.channels@[w].channel_id == pre.messages@[
                i].channel_id;
            assert(store.channels@[w].channel_id == store.messages@[i].channel_id);
        }
    }
    Ok(())
}

} // verus!
