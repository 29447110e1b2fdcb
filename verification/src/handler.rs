//! The inbound event boundary: a closed union of the platform's events,
//! with one handler per case and an explicit default that ignores the
//! rest, plus the lifecycle handlers that keep the store in step with the
//! platform (guild and channel removal, with the schema's cascades).

use vstd::prelude::*;
use crate::error::RelayError;
use crate::relay::{
    message, message_delete, message_post, message_update, update_post, delete_post,
    CreateOutcome, DeleteOutcome, EditOutcome, MessageEvent,
};
use crate::store::{
    channel_id_in, group_name_in, keep, lemma_keep_step, lemma_wf_delete_channel,
    lemma_wf_delete_guild, ChannelRow, GroupRow, GuildRow, MessageRow, Store,
};
use crate::threads::{thread_create, thread_post, ThreadEvent, ThreadOutcome};

verus! {

/// What removing a guild leaves: the guild and everything under it are
/// gone, cascading group → channel → mapping row.
pub open spec fn guild_delete_post(pre: Store, post: Store, guild_id: u64) -> bool {
    &&& post.wf()
    &&& post.guilds@ == keep(pre.guilds@, |g: GuildRow| g.guild_id != guild_id)
    &&& post.groups@ == keep(pre.groups@, |g: GroupRow| g.guild_id != guild_id)
    &&& post.channels@ == keep(
        pre.channels@,
        |c: ChannelRow| group_name_in(post.groups@, c.group_name@),
    )
    &&& post.messages@ == keep(
        pre.messages@,
        |m: MessageRow| channel_id_in(post.channels@, m.channel_id),
    )
}

/// Handles a guild's removal upstream. A disconnection (the guild merely
/// unavailable) is not a removal and changes nothing; a real removal
/// cascades to the guild's groups, their channels and their mapping rows.
pub fn guild_delete(store: &mut Store, guild_id: u64, unavailable: bool)
    requires
        old(store).wf(),
    ensures
        final(store).wf(),
        unavailable ==> *final(store) == *old(store),
        !unavailable ==> guild_delete_post(*old(store), *final(store), guild_id),
{
    if unavailable {
        return ;
    }
    let ghost pre = *store;
    let ghost upred = |g: GuildRow| g.guild_id != guild_id;
    let mut kept_guilds: Vec<GuildRow> = Vec::new();
    let n = store.guilds.len();
    let mut i: usize = 0;
    proof {
        assert(store.guilds@.skip(0) =~= store.guilds@);
    }
    while i < n
        invariant
            n == store.guilds@.len(),
            i <= n,
            upred == (|g: GuildRow| g.guild_id != guild_id),
            keep(store.guilds@, upred) == kept_guilds@ + keep(store.guilds@.skip(i as int), upred),
        decreases n - i,
    {
        proof {
            lemma_keep_step(store.guilds@, upred, i as int);
        }
        if store.guilds[i].guild_id != guild_id {
            kept_guilds.push(store.guilds[i].duplicate());
        }
        i = i + 1;
    }
    proof {
        assert(keep(store.guilds@.skip(n as int), upred) =~= Seq::<GuildRow>::empty());
        assert(kept_guilds@ =~= kept_guilds@ + keep(store.guilds@.skip(n as int), upred));
    }
    store.guilds = kept_guilds;

    let ghost gpred = |g: GroupRow| g.guild_id != guild_id;
    let mut kept_groups: Vec<GroupRow> = Vec::new();
    let gn = store.groups.len();
    let mut gi: usize = 0;
    proof {
        assert(store.groups@.skip(0) =~= store.groups@);
    }
    while gi < gn
        invariant
            gn == store.groups@.len(),
            gi <= gn,
            gpred == (|g: GroupRow| g.guild_id != guild_id),
            keep(store.groups@, gpred) == kept_groups@ + keep(
                store.groups@.skip(gi as int),
                gpred,
            ),
        decreases gn - gi,
    {
        proof {
            lemma_keep_step(store.groups@, gpred, gi as int);
        }
        if store.groups[gi].guild_id != guild_id {
            kept_groups.push(store.groups[gi].duplicate());
        }
        gi = gi + 1;
    }
    proof {
        assert(keep(store.groups@.skip(gn as int), gpred) =~= Seq::<GroupRow>::empty());
        assert(kept_groups@ =~= kept_groups@ + keep(store.groups@.skip(gn as int), gpred));
    }
    store.groups = kept_groups;

    let ghost cpred = |c: ChannelRow| group_name_in(store.groups@, c.group_name@);
    let mut kept_channels: Vec<ChannelRow> = Vec::new();
    let cn = store.channels.len();
    let mut ci: usize = 0;
    proof {
        assert(store.channels@.skip(0) =~= store.channels@);
    }
    while ci < cn
        invariant
            cn == store.channels@.len(),
            ci <= cn,
            cpred == (|c: ChannelRow| group_name_in(store.groups@, c.group_name@)),
            keep(store.channels@, cpred) == kept_channels@ + keep(
                store.channels@.skip(ci as int),
                cpred,
            ),
        decreases cn - ci,
    {
        proof {
            lemma_keep_step(store.channels@, cpred, ci as int);
        }
        let group_present = store.has_group(&store.channels[ci].group_name);
        if group_present {
            kept_channels.push(store.channels[ci].duplicate());
        }
        ci = ci + 1;
    }
    proof {
        assert(keep(store.channels@.skip(cn as int), cpred) =~= Seq::<ChannelRow>::empty());
        assert(kept_channels@ =~= kept_channels@ + keep(store.channels@.skip(cn as int), cpred));
    }
    store.channels = kept_channels;

    let ghost mpred = |m: MessageRow| channel_id_in(store.channels@, m.channel_id);
    let mut kept_messages: Vec<MessageRow> = Vec::new();
    let mn = store.messages.len();
    let mut mi: usize = 0;
    proof {
        assert(store.messages@.skip(0) =~= store.messages@);
    }
    while mi < mn
        invariant
            mn == store.messages@.len(),
            mi <= mn,
            mpred == (|m: MessageRow| channel_id_in(store.channels@, m.channel_id)),
            keep(store.messages@, mpred) == kept_messages@ + keep(
                store.messages@.skip(mi as int),
                mpred,
            ),
        decreases mn - mi,
    {
        proof {
            lemma_keep_step(store.messages@, mpred, mi as int);
        }
        let channel_present = store.has_channel(store.messages[mi].channel_id);
        if channel_present {
            kept_messages.push(store.messages[mi].duplicate());
        }
        mi = mi + 1;
    }
    proof {
        assert(keep(store.messages@.skip(mn as int), mpred) =~= Seq::<MessageRow>::empty());
        assert(kept_messages@ =~= kept_messages@ + keep(store.messages@.skip(mn as int), mpred));
    }
    store.messages = kept_messages;

    proof {
        lemma_wf_delete_guild(pre, *store, guild_id);
    }
}

/// What removing a channel leaves: the channel row and every mapping row
/// that lived on it are gone.
pub open spec fn channel_delete_post(pre: Store, post: Store, channel_id: u64) -> bool {
    &&& post.wf()
    &&& post.guilds@ == pre.guilds@
    &&& post.groups@ == pre.groups@
    &&& post.channels@ == keep(pre.channels@, |c: ChannelRow| c.channel_id != channel_id)
    &&& post.messages@ == keep(pre.messages@, |m: MessageRow| m.channel_id != channel_id)
}

/// Handles a channel's removal upstream: the schema cascades to the
/// channel's mapping rows.
pub fn channel_delete(store: &mut Store, channel_id: u64)
    requires
        old(store).wf(),
    ensures
        channel_delete_post(*old(store), *final(store), channel_id),
{
    let ghost pre = *store;
    let ghost cpred = |c: ChannelRow| c.channel_id != channel_id;
    let mut kept_channels: Vec<ChannelRow> = Vec::new();
    let cn = store.channels.len();
    let mut ci: usize = 0;
    proof {
        assert(store.channels@.skip(0) =~= store.channels@);
    }
    while ci < cn
        invariant
            cn == store.channels@.len(),
            ci <= cn,
            cpred == (|c: ChannelRow| c.channel_id != channel_id),
            keep(store.channels@, cpred) == kept_channels@ + keep(
                store.channels@.skip(ci as int),
                cpred,
            ),
        decreases cn - ci,
    {
        proof {
            lemma_keep_step(store.channels@, cpred, ci as int);
        }
        if store.channels[ci].channel_id != channel_id {
            kept_channels.push(store.channels[ci].duplicate());
        }
        ci = ci + 1;
    }
    proof {
        assert(keep(store.channels@.skip(cn as int), cpred) =~= Seq::<ChannelRow>::empty());
        assert(kept_channels@ =~= kept_channels@ + keep(store.channels@.skip(cn as int), cpred));
    }
    store.channels = kept_channels;

    let ghost mpred = |m: MessageRow| m.channel_id != channel_id;
    let mut kept_messages: Vec<MessageRow> = Vec::new();
    let mn = store.messages.len();
    let mut mi: usize = 0;
    proof {
        assert(store.messages@.skip(0) =~= store.messages@);
    }
    while mi < mn
        invariant
            mn == store.messages@.len(),
            mi <= mn,
            mpred == (|m: MessageRow| m.channel_id != channel_id),
            keep(store.messages@, mpred) == kept_messages@ + keep(
                store.messages@.skip(mi as int),
                mpred,
            ),
        decreases mn - mi,
    {
        proof {
            lemma_keep_step(store.messages@, mpred, mi as int);
        }
        if store.messages[mi].channel_id != channel_id {
            kept_messages.push(store.messages[mi].duplicate());
        }
        mi = mi + 1;
    }
    proof {
        assert(keep(store.messages@.skip(mn as int), mpred) =~= Seq::<MessageRow>::empty());
        assert(kept_messages@ =~= kept_messages@ + keep(store.messages@.skip(mn as int), mpred));
    }
    store.messages = kept_messages;

    proof {
        lemma_wf_delete_channel(pre, *store, channel_id);
    }
}

/// The closed union of inbound platform events the relay reacts to. What
/// the platform may add beyond these arrives as `Other`.
pub enum InboundEvent {
    /// The gateway session is up. Connection bookkeeping only.
    Ready,
    /// The guild cache is loaded. Connection bookkeeping only.
    CacheReady { guild_count: u64 },
    /// All shards are up. Connection bookkeeping only.
    ShardsReady { total_shards: u32 },
    /// A guild was removed upstream, or merely became unavailable.
    GuildDelete { guild_id: u64, unavailable: bool },
    /// A channel was removed upstream.
    ChannelDelete { channel_id: u64 },
    /// A sub-conversation was created.
    ThreadCreate { event: ThreadEvent },
    /// A message was posted.
    Message { event: MessageEvent },
    /// A message was edited.
    MessageUpdate { message_id: u64 },
    /// A message was deleted.
    MessageDelete { message_id: u64 },
    /// Anything else: ignored, and logged by the shell.
    Other,
}

/// What handling one event produced.
pub enum EventOutcome {
    /// Bookkeeping, an ignored event, or a completed store-only change.
    NoOp,
    /// A create relay's plan.
    Create(CreateOutcome),
    /// A thread mirror's plan.
    Thread(ThreadOutcome),
    /// An edit relay's mirrors.
    Edit(EditOutcome),
    /// A delete's owed platform calls.
    Delete(DeleteOutcome),
}

/// Dispatches one inbound event to its handler. Every case of the union is
/// decided here; the default is an explicit no-op.
pub fn event_handler(store: &mut Store, ev: &InboundEvent) -> (r: Result<
    EventOutcome,
    RelayError,
>)
    requires
        old(store).wf(),
    ensures
        final(store).wf(),
        match *ev {
            InboundEvent::Ready => r matches Ok(o) && o is NoOp && *final(store) == *old(store),
            InboundEvent::CacheReady { .. } => r matches Ok(o) && o is NoOp && *final(store)
                == *old(store),
            InboundEvent::ShardsReady { .. } => r matches Ok(o) && o is NoOp && *final(store)
                == *old(store),
            InboundEvent::GuildDelete { guild_id, unavailable } => r matches Ok(o) && o is NoOp
                && (unavailable ==> *final(store) == *old(store)) && (!unavailable
                ==> guild_delete_post(*old(store), *final(store), guild_id)),
            InboundEvent::ChannelDelete { channel_id } => r matches Ok(o) && o is NoOp
                && channel_delete_post(*old(store), *final(store), channel_id),
            InboundEvent::ThreadCreate { event } => match r {
                Ok(o) => o matches EventOutcome::Thread(t) && thread_post(
                    *old(store),
                    *final(store),
                    event,
                    Ok(t),
                ),
                Err(e) => thread_post(
                    *old(store),
                    *final(store),
                    event,
                    Err::<ThreadOutcome, RelayError>(e),
                ),
            },
            InboundEvent::Message { event } => match r {
                Ok(o) => o matches EventOutcome::Create(c) && message_post(
                    *old(store),
                    *final(store),
                    event,
                    Ok(c),
                ),
                Err(e) => message_post(
                    *old(store),
                    *final(store),
                    event,
                    Err::<CreateOutcome, RelayError>(e),
                ),
            },
            InboundEvent::MessageUpdate { message_id } => r matches Ok(o) && o matches
                EventOutcome::Edit(e) && update_post(*old(store), message_id, e) && *final(store)
                == *old(store),
            InboundEvent::MessageDelete { message_id } => r matches Ok(o) && o matches
                EventOutcome::Delete(d) && delete_post(*old(store), *final(store), message_id, d),
            InboundEvent::Other => r matches Ok(o) && o is NoOp && *final(store) == *old(store),
        },
{
    match ev {
        InboundEvent::Ready => Ok(EventOutcome::NoOp),
        InboundEvent::CacheReady { .. } => Ok(EventOutcome::NoOp),
        InboundEvent::ShardsReady { .. } => Ok(EventOutcome::NoOp),
        InboundEvent::GuildDelete { guild_id, unavailable } => {
            guild_delete(store, *guild_id, *unavailable);
            Ok(EventOutcome::NoOp)
        },
        InboundEvent::ChannelDelete { channel_id } => {
            channel_delete(store, *channel_id);
            Ok(EventOutcome::NoOp)
        },
        InboundEvent::ThreadCreate { event } => {
            match thread_create(store, event) {
                Ok(t) => Ok(EventOutcome::Thread(t)),
                Err(e) => Err(e),
            }
        },
        InboundEvent::Message { event } => {
            match message(store, event) {
                Ok(c) => Ok(EventOutcome::Create(c)),
                Err(e) => Err(e),
            }
        },
        InboundEvent::MessageUpdate { message_id } => {
            Ok(EventOutcome::Edit(message_update(store, *message_id)))
        },
        InboundEvent::MessageDelete { message_id } => {
            Ok(EventOutcome::Delete(message_delete(store, *message_id)))
        },
        InboundEvent::Other => Ok(EventOutcome::NoOp),
    }
}

} // verus!
