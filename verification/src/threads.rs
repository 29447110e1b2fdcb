//! Thread mirror controller: the relay specialized to sub-conversation
//! creation under an enrolled parent channel.
//!
//! A new thread is promoted to a singleton translation group named after
//! its identity, inheriting only the reaction-proxy flag from the parent's
//! group; the thread itself is enrolled into that group with the parent's
//! language and posting identity. For each sibling of the parent, the
//! unverified shell then creates the mirrored thread (a thread-creating
//! post on a forum-style parent, or a thread anchored to the sibling's
//! mirror of the starter elsewhere) and enrolls the result through
//! `Store::enroll_channel` and `record_mirror`.

use vstd::prelude::*;
use crate::codec::{dec, dec_string};
use crate::error::RelayError;
use crate::registry::sibling_pred;
use crate::lang::recognized_tag;
use crate::store::{keep, lemma_keep_step, ChannelRow, GroupRow, MessageRow, Store, WebhookToken};

verus! {

/// An inbound thread-creation event, as the platform reports it.
pub struct ThreadEvent {
    /// Identity of the new thread (also its channel identity).
    pub thread_id: u64,
    /// Parent channel the thread hangs under, when the platform knows it.
    pub parent_id: Option<u64>,
    /// The thread's title.
    pub name: String,
    /// The creator is the relay's own identity, or could not be resolved:
    /// both are defined no-ops (loop prevention).
    pub owner_is_self: bool,
    /// Thread metadata came with the event.
    pub has_metadata: bool,
}

/// One sibling of the parent channel, for the shell to mirror the thread
/// into.
pub struct ThreadSiblingTarget {
    pub channel_id: u64,
    pub lang: String,
    pub webhook_id: u64,
    pub webhook_token: WebhookToken,
}

/// What a thread-creation event becomes.
pub enum ThreadOutcome {
    /// A defined no-op: loop prevention, an unenrolled parent, or a parent
    /// group with auto-threading disabled.
    Ignored,
    /// The singleton group and the thread's own channel row are persisted;
    /// each target remains to be mirrored.
    Planned {
        group_name: String,
        source_lang: String,
        deepl_key: String,
        targets: Vec<ThreadSiblingTarget>,
    },
}

/// The thread-creation event is a defined no-op.
pub open spec fn thread_filtered(s: Store, ev: ThreadEvent) -> bool {
    ||| ev.owner_is_self
    ||| ev.parent_id is None
    ||| !ev.has_metadata
    ||| !s.spec_has_channel(ev.parent_id->0)
    ||| !s.spec_group(s.spec_channel(ev.parent_id->0).group_name@).auto_threading
}

/// The mirror target a parent-sibling channel row gives rise to.
pub open spec fn target_of(c: ChannelRow) -> ThreadSiblingTarget {
    ThreadSiblingTarget {
        channel_id: c.channel_id,
        lang: c.lang,
        webhook_id: c.webhook_id,
        webhook_token: c.webhook_token,
    }
}

/// Handles a thread-creation event: filters it, then persists the new
/// singleton group (named after the thread, auto-threading and title
/// translation disabled, reaction proxy inherited) and the thread's own
/// channel row (parent's language and posting identity), and plans one
/// Persists a thread's singleton group and the thread's own channel row.
fn promote_thread(
    store: &mut Store,
    guild_id: u64,
    group_name: String,
    reaction_agent: bool,
    thread_id: u64,
    parent_id: u64,
    lang: String,
    webhook_id: u64,
    webhook_token: WebhookToken,
) -> (r: Result<(), RelayError>)
    requires
        old(store).wf(),
        old(store).spec_has_guild(guild_id),
        !old(store).spec_has_group(group_name@),
        !old(store).spec_has_channel(thread_id),
        recognized_tag(lang@),
    ensures
        final(store).wf(),
        r is Ok,
        final(store).guilds@ == old(store).guilds@,
        final(store).messages@ == old(store).messages@,
        final(store).groups@ == old(store).groups@ + seq![
            GroupRow {
                group_name: group_name,
                guild_id,
                auto_threading: false,
                translate_title: false,
                reaction_agent,
            },
        ],
        final(store).channels@ == old(store).channels@ + seq![
            ChannelRow {
                channel_id: thread_id,
                parent_channel_id: Some(parent_id),
                group_name: group_name,
                lang: lang,
                webhook_id,
                webhook_token: webhook_token,
            },
        ],
{
    let created = store.create_group(
        guild_id,
        group_name.clone(),
        false,
        false,
        reaction_agent,
    );
    match created {
        Ok(()) => {},
        Err(_) => {
            proof {
                assert(false);
            }
            return Err(RelayError::Unexpected);
        },
    }
    proof {
        assert(store.spec_has_group(group_name@)) by {
            assert(store.groups@.last().group_name@ == group_name@);
        }
    }
    let enrolled = store.enroll_channel(
        group_name,
        thread_id,
        lang,
        Some(parent_id),
        webhook_id,
        webhook_token,
    );
    match enrolled {
        Ok(()) => {},
        Err(_) => {
            proof {
                assert(false);
            }
            return Err(RelayError::Unexpected);
        },
    }
    Ok(())
}

pub open spec fn thread_post(
    pre: Store,
    post: Store,
    ev: ThreadEvent,
    r: Result<ThreadOutcome, RelayError>,
) -> bool {
    &&& post.wf()
    &&& thread_filtered(pre, ev) ==> (r matches Ok(o) && o is Ignored && post == pre)
    &&& !thread_filtered(pre, ev) && (pre.spec_has_group(dec(ev.thread_id as nat))
        || pre.spec_has_channel(ev.thread_id)) ==> r == Err::<ThreadOutcome, RelayError>(
        RelayError::Persistence,
    ) && post == pre
    &&& !thread_filtered(pre, ev) && !pre.spec_has_group(dec(ev.thread_id as nat))
        && !pre.spec_has_channel(ev.thread_id) ==> ({
        let parent = pre.spec_channel(ev.parent_id->0);
        let pgroup = pre.spec_group(parent.group_name@);
        &&& post.guilds@ == pre.guilds@
        &&& post.messages@ == pre.messages@
        &&& post.groups@.len() == pre.groups@.len() + 1
        &&& post.groups@ == pre.groups@ + seq![post.groups@.last()]
        &&& post.groups@.last().group_name@ == dec(ev.thread_id as nat)
        &&& post.groups@.last().guild_id == pgroup.guild_id
        &&& post.groups@.last().auto_threading == false
        &&& post.groups@.last().translate_title == false
        &&& post.groups@.last().reaction_agent == pgroup.reaction_agent
        &&& post.channels@.len() == pre.channels@.len() + 1
        &&& post.channels@ == pre.channels@ + seq![post.channels@.last()]
        &&& post.channels@.last().channel_id == ev.thread_id
        &&& post.channels@.last().parent_channel_id == ev.parent_id
        &&& post.channels@.last().group_name@ == dec(ev.thread_id as nat)
        &&& post.channels@.last().lang@ == parent.lang@
        &&& post.channels@.last().webhook_id == parent.webhook_id
        &&& post.channels@.last().webhook_token@ == parent.webhook_token@
        &&& (r matches Ok(o) && o matches ThreadOutcome::Planned {
            group_name,
            source_lang,
            deepl_key,
            targets,
        } && {
            &&& group_name@ == dec(ev.thread_id as nat)
            &&& source_lang@ == parent.lang@
            &&& deepl_key@ == pre.spec_guild(pgroup.guild_id).deepl_key@
            &&& targets@ == keep(pre.channels@, sibling_pred(pre, ev.parent_id->0)).map_values(
                |c: ChannelRow| target_of(c),
            )
            &&& forall|i: int|
                0 <= i < targets@.len() ==> (#[trigger] targets@[i]).channel_id != ev.parent_id->0
        })
    })
}

/// Handles a thread-creation event: filters it, then persists the new
/// singleton group (named after the thread, auto-threading and title
/// translation disabled, reaction proxy inherited) and the thread's own
/// channel row (parent's language and posting identity), and plans one
/// mirror per sibling of the parent.
#[verifier::rlimit(50)]
pub fn thread_create(store: &mut Store, ev: &ThreadEvent) -> (r: Result<
    ThreadOutcome,
    RelayError,
>)
    requires
        old(store).wf(),
    ensures
        thread_post(*old(store), *final(store), *ev, r),
{
    // Loop prevention: the relay's own thread creations are not mirrored
    // again.
    if ev.owner_is_self {
        return Ok(ThreadOutcome::Ignored);
    }
    let parent_id = match ev.parent_id {
        Some(p) => p,
        None => {
            return Ok(ThreadOutcome::Ignored);
        },
    };
    if !ev.has_metadata {
        return Ok(ThreadOutcome::Ignored);
    }
    // A thread under an unenrolled parent terminates silently.
    let parent = match store.get_channel(parent_id) {
        Some(c) => c,
        None => {
            return Ok(ThreadOutcome::Ignored);
        },
    };
    let pgroup = match store.get_group(&parent.group_name) {
        Some(g) => g,
        None => {
            // Unreachable under `wf`: the schema's foreign key holds.
            return Err(RelayError::Unexpected);
        },
    };
    if !pgroup.auto_threading {
        return Ok(ThreadOutcome::Ignored);
    }
    let guild = match store.get_guild(pgroup.guild_id) {
        Some(g) => g,
        None => {
            // Unreachable under `wf`: the schema's foreign key holds.
            return Err(RelayError::Unexpected);
        },
    };
    // The singleton group is named after the thread.
    let group_name = dec_string(ev.thread_id);
    if store.has_group(&group_name) {
        return Err(RelayError::Persistence);
    }
    if store.has_channel(ev.thread_id) {
        return Err(RelayError::Persistence);
    }
    // The siblings of the parent, before the thread's own row goes in.
    let siblings = store.find_siblings(parent_id);
    let mut targets: Vec<ThreadSiblingTarget> = Vec::new();
    let n = siblings.len();
    let mut i: usize = 0;
    while i < n
        invariant
            n == siblings@.len(),
            i <= n,
            targets@.len() == i,
            forall|m: int| 0 <= m < i ==> #[trigger] targets@[m] == target_of(siblings@[m]),
        decreases n - i,
    {
        let c = &siblings[i];
        targets.push(
            ThreadSiblingTarget {
                channel_id: c.channel_id,
                lang: c.lang.clone(),
                webhook_id: c.webhook_id,
                webhook_token: c.webhook_token.duplicate(),
            },
        );
        i = i + 1;
    }
    proof {
        assert(targets@ =~= siblings@.map_values(|c: ChannelRow| target_of(c)));
    }
    // Persist the singleton group (inheriting only the reaction proxy
    // flag) and the thread's own channel row (inheriting the parent's
    // language and posting identity).
    let promoted = promote_thread(
        store,
        pgroup.guild_id,
        group_name.clone(),
        pgroup.reaction_agent,
        ev.thread_id,
        parent_id,
        parent.lang.clone(),
        parent.webhook_id,
        parent.webhook_token.duplicate(),
    );
    match promoted {
        Ok(()) => {},
        Err(e) => {
            return Err(e);
        },
    }
    Ok(
        ThreadOutcome::Planned {
            group_name,
            source_lang: parent.lang,
            deepl_key: guild.deepl_key,
            targets,
        },
    )
}

/// The starter's recorded mirror on one sibling: the artifact a non-forum
/// thread must anchor to there. Fails with `MirrorNotFound` when the
/// starter was never mirrored onto that sibling (for example, it predates
/// enrollment); only that sibling's mirroring is abandoned.
pub fn find_starter_mirror(store: &Store, sibling_channel_id: u64, starter_id: u64) -> (r: Result<
    u64,
    RelayError,
>)
    requires
        store.wf(),
    ensures
        ({
            let mirrors = keep(
                store.messages@,
                |m: MessageRow|
                    m.channel_id == sibling_channel_id && m.original_message_id == Some(
                        starter_id,
                    ),
            );
            &&& r is Ok <==> mirrors.len() > 0
            &&& r is Ok ==> r == Ok::<u64, RelayError>(mirrors[0].message_id)
            &&& r is Err ==> r == Err::<u64, RelayError>(RelayError::MirrorNotFound)
        }),
{
    let ghost pred = |m: MessageRow|
        m.channel_id == sibling_channel_id && m.original_message_id == Some(starter_id);
    let n = store.messages.len();
    let mut i: usize = 0;
    proof {
        assert(store.messages@.skip(0) =~= store.messages@);
    }
    while i < n
        invariant
            n == store.messages@.len(),
            i <= n,
            pred == (|m: MessageRow|
                m.channel_id == sibling_channel_id && m.original_message_id == Some(starter_id)),
            keep(store.messages@, pred) == keep(store.messages@.skip(i as int), pred),
        decreases n - i,
    {
        proof {
            lemma_keep_step(store.messages@, pred, i as int);
        }
        let m = &store.messages[i];
        let origin_matches = match m.original_message_id {
            Some(o) => o == starter_id,
            None => false,
        };
        if m.channel_id == sibling_channel_id && origin_matches {
            proof {
                assert(keep(store.messages@.skip(i as int), pred)[0] == store.messages@[i as int]);
            }
            return Ok(m.message_id);
        }
        i = i + 1;
    }
    proof {
        assert(keep(store.messages@.skip(n as int), pred) =~= Seq::<MessageRow>::empty());
    }
    Err(RelayError::MirrorNotFound)
}

} // verus!
