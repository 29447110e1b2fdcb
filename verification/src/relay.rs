//! The relay engine: the per-event state machine for message create, edit
//! and delete.
//!
//! Each inbound artifact is filtered (system messages, forum head
//! artifacts, and anything authored by a channel's own posting identity are
//! defined no-ops), resolved to its channel, group and guild, and turned
//! into a plan: one task per sibling channel. The unverified shell performs
//! the outside calls the plan names (translate, obtain identity, dispatch)
//! and hands the results back to `record_mirror` / `complete_create`, which
//! persist the origin/mirror mapping.

use vstd::prelude::*;
use crate::error::{DatabaseModelError, RelayError};
use crate::intermediate::IntermediateMessage;
use crate::registry::sibling_pred;
use crate::store::{
    channel_id_in, keep, lemma_keep_snoc, lemma_keep_step, lemma_wf_keep_messages,
    lemma_wf_push_message, message_id_in, ChannelRow, MessageRow, Store, WebhookToken,
};

verus! {

/// An inbound message-create event, as the platform reports it.
pub struct MessageEvent {
    /// Identity of the posted artifact.
    pub message_id: u64,
    /// Channel the artifact was posted in.
    pub channel_id: u64,
    /// The posting identity that authored it, when it was posted through
    /// one (a webhook); `None` for an ordinary user message.
    pub author_webhook_id: Option<u64>,
    /// Whether the platform classifies it as a regular message.
    pub is_regular: bool,
    /// The translatable payload.
    pub message: IntermediateMessage,
}

/// One sibling channel's share of a create relay: where to dispatch, in
/// which language, through which posting identity.
pub struct SiblingTask {
    pub channel_id: u64,
    pub lang: String,
    pub webhook_id: u64,
    pub webhook_token: WebhookToken,
    /// The sibling is a thread: the dispatch must address it as one.
    pub in_thread: bool,
}

/// What a create event becomes.
pub enum CreateOutcome {
    /// A defined no-op: filtered out, or the channel is not enrolled.
    Ignored,
    /// The root row is persisted; each task remains to be dispatched.
    Planned { root_id: u64, source_lang: String, deepl_key: String, tasks: Vec<SiblingTask> },
}

/// The result the platform reported for one sibling's dispatch.
#[derive(Clone, Copy, PartialEq, Eq, Structural, Debug)]
pub enum DispatchOutcome {
    /// The mirrored artifact was posted under this identity.
    Delivered(u64),
    /// The sibling's dispatch failed; it gets no mapping row.
    Failed,
}

/// The create event is a defined no-op: not a regular message, the
/// synthetic head artifact of a forum thread, an unenrolled channel, or an
/// artifact authored by the channel's own posting identity (loop
/// prevention).
pub open spec fn create_filtered(s: Store, ev: MessageEvent) -> bool {
    ||| !ev.is_regular
    ||| ev.message_id == ev.channel_id
    ||| !s.spec_has_channel(ev.channel_id)
    ||| ev.author_webhook_id == Some(s.spec_channel(ev.channel_id).webhook_id)
}

/// The task a sibling channel row gives rise to.
pub open spec fn task_of(c: ChannelRow) -> SiblingTask {
    SiblingTask {
        channel_id: c.channel_id,
        lang: c.lang,
        webhook_id: c.webhook_id,
        webhook_token: c.webhook_token,
        in_thread: c.parent_channel_id is Some,
    }
}

/// What handling a create leaves behind, for each kind of event.
pub open spec fn message_post(
    pre: Store,
    post: Store,
    ev: MessageEvent,
    r: Result<CreateOutcome, RelayError>,
) -> bool {
    &&& post.wf()
    &&& create_filtered(pre, ev) ==> (r matches Ok(o) && o is Ignored && post == pre)
    &&& !create_filtered(pre, ev) && pre.spec_has_message(ev.message_id) ==> r == Err::<
        CreateOutcome,
        RelayError,
    >(RelayError::Persistence) && post == pre
    &&& !create_filtered(pre, ev) && !pre.spec_has_message(ev.message_id) ==> ({
        &&& post.messages@ == pre.messages@ + seq![
            MessageRow {
                message_id: ev.message_id,
                original_message_id: None,
                channel_id: ev.channel_id,
            },
        ]
        &&& post.guilds@ == pre.guilds@
        &&& post.groups@ == pre.groups@
        &&& post.channels@ == pre.channels@
        &&& r matches Ok(o) && o matches CreateOutcome::Planned {
            root_id,
            source_lang,
            deepl_key,
            tasks,
        } && {
            let src = pre.spec_channel(ev.channel_id);
            let sibs = keep(pre.channels@, sibling_pred(pre, ev.channel_id));
            &&& root_id == ev.message_id
            &&& source_lang@ == src.lang@
            &&& deepl_key@ == pre.spec_guild(pre.spec_group(src.group_name@).guild_id).deepl_key@
            &&& tasks@ == sibs.map_values(|c: ChannelRow| task_of(c))
            &&& forall|i: int|
                0 <= i < tasks@.len() ==> (#[trigger] tasks@[i]).channel_id != ev.channel_id
        }
    })
}

/// Handles a message-create event: filters it, resolves its channel, group
/// and guild, persists the root mapping row, and plans one dispatch per
/// sibling. The relay never plans a dispatch back to the source channel,
/// and an artifact authored by the channel's own posting identity is never
/// relayed.
pub fn message(store: &mut Store, ev: &MessageEvent) -> (r: Result<CreateOutcome, RelayError>)
    requires
        old(store).wf(),
    ensures
        message_post(*old(store), *final(store), *ev, r),
{
    proof {
        store.lemma_unique_rows();
    }
    // System messages are ignored.
    if !ev.is_regular {
        return Ok(CreateOutcome::Ignored);
    }
    // A forum thread's synthetic head artifact shares the thread's identity.
    if ev.message_id == ev.channel_id {
        return Ok(CreateOutcome::Ignored);
    }
    // An event outside any enrolled channel terminates silently.
    let channel = match store.get_channel(ev.channel_id) {
        Some(c) => c,
        None => {
            return Ok(CreateOutcome::Ignored);
        },
    };
    // Loop prevention: never re-relay what the relay itself posted.
    match ev.author_webhook_id {
        Some(w) => {
            if w == channel.webhook_id {
                return Ok(CreateOutcome::Ignored);
            }
        },
        None => {},
    }
    let group = match store.get_group(&channel.group_name) {
        Some(g) => g,
        None => {
            // Unreachable under `wf`: the schema's foreign key holds.
            return Err(
                RelayError::DatabaseModel(
                    DatabaseModelError::ChannelNotBelongToGroup(ev.channel_id),
                ),
            );
        },
    };
    let guild = match store.get_guild(group.guild_id) {
        Some(g) => g,
        None => {
            // Unreachable under `wf`: the schema's foreign key holds.
            return Err(
                RelayError::DatabaseModel(
                    DatabaseModelError::GroupNotBelongToGuild(group.group_name),
                ),
            );
        },
    };
    if store.has_message(ev.message_id) {
        return Err(RelayError::Persistence);
    }
    // One task per sibling channel.
    let siblings = store.find_siblings(ev.channel_id);
    let mut tasks: Vec<SiblingTask> = Vec::new();
    let n = siblings.len();
    let mut i: usize = 0;
    while i < n
        invariant
            n == siblings@.len(),
            i <= n,
            tasks@.len() == i,
            forall|m: int| 0 <= m < i ==> #[trigger] tasks@[m] == task_of(siblings@[m]),
        decreases n - i,
    {
        let c = &siblings[i];
        let in_thread = match c.parent_channel_id {
            Some(_) => true,
            None => false,
        };
        tasks.push(
            SiblingTask {
                channel_id: c.channel_id,
                lang: c.lang.clone(),
                webhook_id: c.webhook_id,
                webhook_token: c.webhook_token.duplicate(),
                in_thread,
            },
        );
        i = i + 1;
    }
    proof {
        assert(tasks@ =~= siblings@.map_values(|c: ChannelRow| task_of(c)));
    }
    // Persist the root mapping row before any sibling work.
    let root = MessageRow {
        message_id: ev.message_id,
        original_message_id: None,
        channel_id: ev.channel_id,
    };
    let ghost pre = *store;
    let ghost grow = root;
    store.messages.push(root);
    proof {
        assert(store.messages@ =~= pre.messages@ + seq![grow]);
        lemma_wf_push_message(pre, *store, grow);
    }
    Ok(
        CreateOutcome::Planned {
            root_id: ev.message_id,
            source_lang: channel.lang,
            deepl_key: guild.deepl_key,
            tasks,
        },
    )
}

/// Persists the mapping row for one sibling's delivered mirror. Fails with
/// `Persistence`, leaving the store unchanged, when the row would break a
/// key promise: a duplicate artifact identity, an unenrolled channel, or a
/// mirror claiming to be its own origin.
pub fn record_mirror(
    store: &mut Store,
    root_id: u64,
    sibling_channel_id: u64,
    mirror_id: u64,
) -> (r: Result<(), RelayError>)
    requires
        old(store).wf(),
    ensures
        final(store).wf(),
        r is Ok <==> !old(store).spec_has_message(mirror_id) && old(store).spec_has_channel(
            sibling_channel_id,
        ) && mirror_id != root_id,
        r is Err ==> *final(store) == *old(store) && r == Err::<(), RelayError>(
            RelayError::Persistence,
        ),
        r is Ok ==> final(store).messages@ == old(store).messages@ + seq![
            MessageRow {
                message_id: mirror_id,
                original_message_id: Some(root_id),
                channel_id: sibling_channel_id,
            },
        ] && final(store).guilds@ == old(store).guilds@ && final(store).groups@ == old(
            store,
        ).groups@ && final(store).channels@ == old(store).channels@,
{
    if store.has_message(mirror_id) {
        return Err(RelayError::Persistence);
    }
    if !store.has_channel(sibling_channel_id) {
        return Err(RelayError::Persistence);
    }
    if mirror_id == root_id {
        return Err(RelayError::Persistence);
    }
    let row = MessageRow {
        message_id: mirror_id,
        original_message_id: Some(root_id),
        channel_id: sibling_channel_id,
    };
    let ghost pre = *store;
    let ghost grow = row;
    store.messages.push(row);
    proof {
        assert(store.messages@ =~= pre.messages@ + seq![grow]);
        lemma_wf_push_message(pre, *store, grow);
    }
    Ok(())
}

/// The mapping rows that recording the given outcomes adds, in task order:
/// a delivered sibling gets its row exactly when the row keeps the store's
/// key promises; a failed sibling gets none.
pub open spec fn mirror_rows(
    ms: Seq<MessageRow>,
    cs: Seq<ChannelRow>,
    tasks: Seq<SiblingTask>,
    outcomes: Seq<DispatchOutcome>,
    root_id: u64,
) -> Seq<MessageRow>
    decreases tasks.len(),
{
    if tasks.len() == 0 || outcomes.len() == 0 {
        Seq::empty()
    } else {
        match outcomes[0] {
            DispatchOutcome::Failed => mirror_rows(
                ms,
                cs,
                tasks.drop_first(),
                outcomes.drop_first(),
                root_id,
            ),
            DispatchOutcome::Delivered(mid) => {
                if !message_id_in(ms, mid) && channel_id_in(cs, tasks[0].channel_id) && mid
                    != root_id {
                    let row = MessageRow {
                        message_id: mid,
                        original_message_id: Some(root_id),
                        channel_id: tasks[0].channel_id,
                    };
                    seq![row] + mirror_rows(
                        ms + seq![row],
                        cs,
                        tasks.drop_first(),
                        outcomes.drop_first(),
                        root_id,
                    )
                } else {
                    mirror_rows(ms, cs, tasks.drop_first(), outcomes.drop_first(), root_id)
                }
            },
        }
    }
}

/// Records every sibling's outcome. Sibling failures are isolated: a failed
/// or refused row never blocks the rows of the other siblings, and nothing
/// already persisted is rolled back.
pub fn complete_create(
    store: &mut Store,
    root_id: u64,
    tasks: &Vec<SiblingTask>,
    outcomes: &Vec<DispatchOutcome>,
) -> (recorded: usize)
    requires
        old(store).wf(),
        tasks@.len() == outcomes@.len(),
    ensures
        final(store).wf(),
        final(store).messages@ == old(store).messages@ + mirror_rows(
            old(store).messages@,
            old(store).channels@,
            tasks@,
            outcomes@,
            root_id,
        ),
        final(store).guilds@ == old(store).guilds@,
        final(store).groups@ == old(store).groups@,
        final(store).channels@ == old(store).channels@,
        recorded as int == mirror_rows(
            old(store).messages@,
            old(store).channels@,
            tasks@,
            outcomes@,
            root_id,
        ).len(),
{
    let n = tasks.len();
    let mut i: usize = 0;
    let mut recorded: usize = 0;
    let ghost pre = *store;
    proof {
        assert(tasks@.skip(0) =~= tasks@);
        assert(outcomes@.skip(0) =~= outcomes@);
    }
    while i < n
        invariant
            store.wf(),
            n == tasks@.len(),
            tasks@.len() == outcomes@.len(),
            i <= n,
            recorded <= i,
            store.guilds@ == pre.guilds@,
            store.groups@ == pre.groups@,
            store.channels@ == pre.channels@,
            store.messages@.len() == pre.messages@.len() + recorded,
            pre.messages@ + mirror_rows(pre.messages@, pre.channels@, tasks@, outcomes@, root_id)
                == store.messages@ + mirror_rows(
                store.messages@,
                store.channels@,
                tasks@.skip(i as int),
                outcomes@.skip(i as int),
                root_id,
            ),
        decreases n - i,
    {
        let ghost mid_pre = store.messages@;
        match outcomes[i] {
            DispatchOutcome::Delivered(mid) => {
                match record_mirror(store, root_id, tasks[i].channel_id, mid) {
                    Ok(()) => {
                        recorded = recorded + 1;
                    },
                    Err(_) => {},
                }
            },
            DispatchOutcome::Failed => {},
        }
        proof {
            assert(tasks@.skip(i as int)[0] == tasks@[i as int]);
            assert(outcomes@.skip(i as int)[0] == outcomes@[i as int]);
            assert(tasks@.skip(i as int).drop_first() =~= tasks@.skip(i + 1));
            assert(outcomes@.skip(i as int).drop_first() =~= outcomes@.skip(i + 1));
            match outcomes@[i as int] {
                DispatchOutcome::Delivered(m) => {
                    if !message_id_in(mid_pre, m) && channel_id_in(
                        store.channels@,
                        tasks@[i as int].channel_id,
                    ) && m != root_id {
                        let row = MessageRow {
                            message_id: m,
                            original_message_id: Some(root_id),
                            channel_id: tasks@[i as int].channel_id,
                        };
                        assert(store.messages@ =~= mid_pre + seq![row]);
                        assert(mid_pre + (seq![row] + mirror_rows(
                            mid_pre + seq![row],
                            store.channels@,
                            tasks@.skip(i + 1),
                            outcomes@.skip(i + 1),
                            root_id,
                        )) =~= (mid_pre + seq![row]) + mirror_rows(
                            mid_pre + seq![row],
                            store.channels@,
                            tasks@.skip(i + 1),
                            outcomes@.skip(i + 1),
                            root_id,
                        ));
                    } else {
                        assert(store.messages@ == mid_pre);
                    }
                },
                DispatchOutcome::Failed => {
                    assert(store.messages@ == mid_pre);
                },
            }
        }
        i = i + 1;
    }
    proof {
        assert(mirror_rows(
            store.messages@,
            store.channels@,
            tasks@.skip(n as int),
            outcomes@.skip(n as int),
            root_id,
        ) =~= Seq::<MessageRow>::empty());
        assert(store.messages@ =~= store.messages@ + Seq::<MessageRow>::empty());
    }
    recorded
}

/// Number of mapping rows among `rows` that sit on this channel with this
/// origin.
pub open spec fn count_mirrors(rows: Seq<MessageRow>, channel_id: u64, root_id: u64) -> int
    decreases rows.len(),
{
    if rows.len() == 0 {
        0
    } else {
        (if rows[0].channel_id == channel_id && rows[0].original_message_id == Some(root_id) {
            1int
        } else {
            0int
        }) + count_mirrors(rows.drop_first(), channel_id, root_id)
    }
}

/// No recorded outcome can put a row on a channel that no task names.
proof fn lemma_count_mirrors_none(
    ms: Seq<MessageRow>,
    cs: Seq<ChannelRow>,
    tasks: Seq<SiblingTask>,
    outcomes: Seq<DispatchOutcome>,
    root_id: u64,
    c: u64,
)
    requires
        tasks.len() == outcomes.len(),
        forall|j: int| 0 <= j < tasks.len() ==> (#[trigger] tasks[j]).channel_id != c,
    ensures
        count_mirrors(mirror_rows(ms, cs, tasks, outcomes, root_id), c, root_id) == 0,
    decreases tasks.len(),
{
    if tasks.len() == 0 {
    } else {
        let tt = tasks.drop_first();
        let ot = outcomes.drop_first();
        match outcomes[0] {
            DispatchOutcome::Failed => {
                lemma_count_mirrors_none(ms, cs, tt, ot, root_id, c);
            },
            DispatchOutcome::Delivered(mid) => {
                if !message_id_in(ms, mid) && channel_id_in(cs, tasks[0].channel_id) && mid
                    != root_id {
                    let row = MessageRow {
                        message_id: mid,
                        original_message_id: Some(root_id),
                        channel_id: tasks[0].channel_id,
                    };
                    let rest = mirror_rows(ms + seq![row], cs, tt, ot, root_id);
                    lemma_count_mirrors_none(ms + seq![row], cs, tt, ot, root_id, c);
                    assert((seq![row] + rest)[0] == row);
                    assert((seq![row] + rest).drop_first() =~= rest);
                } else {
                    lemma_count_mirrors_none(ms, cs, tt, ot, root_id, c);
                }
            },
        }
    }
}

/// Law: a create relay yields exactly one new mapping row on each sibling
/// whose dispatch was delivered, carrying the root's identity as origin —
/// provided the siblings are distinct channels, the delivered artifact
/// identities are fresh and pairwise distinct, and the sibling is
/// enrolled. These are exactly the conditions the platform's unique
/// artifact identities and `find_siblings` give a real run.
pub proof fn lemma_exactly_one_mirror(
    ms: Seq<MessageRow>,
    cs: Seq<ChannelRow>,
    tasks: Seq<SiblingTask>,
    outcomes: Seq<DispatchOutcome>,
    root_id: u64,
    i: int,
)
    requires
        tasks.len() == outcomes.len(),
        0 <= i < tasks.len(),
        outcomes[i] is Delivered,
        outcomes[i]->0 != root_id,
        channel_id_in(cs, tasks[i].channel_id),
        forall|j: int|
            0 <= j < tasks.len() && j != i ==> (#[trigger] tasks[j]).channel_id
                != tasks[i].channel_id,
        forall|j: int|
            0 <= j < tasks.len() && (#[trigger] outcomes[j]) is Delivered ==> !message_id_in(
                ms,
                outcomes[j]->0,
            ),
        forall|j: int, k: int|
            0 <= j < k < tasks.len() && (#[trigger] outcomes[j]) is Delivered && (
            #[trigger] outcomes[k]) is Delivered ==> outcomes[j]->0 != outcomes[k]->0,
    ensures
        count_mirrors(
            mirror_rows(ms, cs, tasks, outcomes, root_id),
            tasks[i].channel_id,
            root_id,
        ) == 1,
    decreases i,
{
    let c = tasks[i].channel_id;
    let tt = tasks.drop_first();
    let ot = outcomes.drop_first();
    if i == 0 {
        let mid = outcomes[0]->0;
        let row = MessageRow {
            message_id: mid,
            original_message_id: Some(root_id),
            channel_id: c,
        };
        let rest = mirror_rows(ms + seq![row], cs, tt, ot, root_id);
        lemma_count_mirrors_none(ms + seq![row], cs, tt, ot, root_id, c);
        assert((seq![row] + rest)[0] == row);
        assert((seq![row] + rest).drop_first() =~= rest);
    } else {
        match outcomes[0] {
            DispatchOutcome::Failed => {
                assert(tt[i - 1] == tasks[i]);
                assert(ot[i - 1] == outcomes[i]);
                lemma_exactly_one_mirror(ms, cs, tt, ot, root_id, i - 1);
            },
            DispatchOutcome::Delivered(m0) => {
                if !message_id_in(ms, m0) && channel_id_in(cs, tasks[0].channel_id) && m0
                    != root_id {
                    let row0 = MessageRow {
                        message_id: m0,
                        original_message_id: Some(root_id),
                        channel_id: tasks[0].channel_id,
                    };
                    let ms2 = ms + seq![row0];
                    assert forall|j: int|
                        0 <= j < tt.len() && (#[trigger] ot[j]) is Delivered implies !message_id_in(
                        ms2,
                        ot[j]->0,
                    ) by {
                        assert(ot[j] == outcomes[j + 1]);
                        assert(!message_id_in(ms, outcomes[j + 1]->0));
                        assert(outcomes[j + 1]->0 != m0);
                        if message_id_in(ms2, ot[j]->0) {
                            let w = choose|w: int|
                                0 <= w < ms2.len() && ms2[w].message_id == ot[j]->0;
                            if w < ms.len() {
                                assert(ms[w].message_id == ot[j]->0);
                            } else {
                                assert(ms2[w] == row0);
                            }
                        }
                    }
                    assert(tt[i - 1] == tasks[i]);
                    assert(ot[i - 1] == outcomes[i]);
                    lemma_exactly_one_mirror(ms2, cs, tt, ot, root_id, i - 1);
                    let rest = mirror_rows(ms2, cs, tt, ot, root_id);
                    assert((seq![row0] + rest)[0] == row0);
                    assert((seq![row0] + rest).drop_first() =~= rest);
                    assert(row0.channel_id != c);
                } else {
                    assert(tt[i - 1] == tasks[i]);
                    assert(ot[i - 1] == outcomes[i]);
                    lemma_exactly_one_mirror(ms, cs, tt, ot, root_id, i - 1);
                }
            },
        }
    }
}

/// The sibling tasks a well-formed store plans for a create are pairwise
/// distinct channels, every one of them enrolled — what `lemma_exactly_one_mirror`
/// asks of a real run.
pub proof fn lemma_sibling_tasks_distinct(s: Store, channel_id: u64)
    requires
        s.wf(),
    ensures
        ({
            let tasks = keep(s.channels@, sibling_pred(s, channel_id)).map_values(
                |c: ChannelRow| task_of(c),
            );
            &&& forall|j: int, k: int|
                0 <= j < k < tasks.len() ==> (#[trigger] tasks[j]).channel_id != (
                #[trigger] tasks[k]).channel_id
            &&& forall|j: int|
                0 <= j < tasks.len() ==> channel_id_in(
                    s.channels@,
                    (#[trigger] tasks[j]).channel_id,
                )
        }),
{
    let pred = sibling_pred(s, channel_id);
    let sibs = keep(s.channels@, pred);
    let tasks = sibs.map_values(|c: ChannelRow| task_of(c));
    crate::store::lemma_keep(s.channels@, pred);
    assert forall|j: int, k: int| 0 <= j < k < tasks.len() implies (
    #[trigger] tasks[j]).channel_id != (#[trigger] tasks[k]).channel_id by {
        let sj = crate::store::keep_src(s.channels@, pred, j);
        let sk = crate::store::keep_src(s.channels@, pred, k);
        assert(s.channels@[sj] == sibs[j]);
        assert(s.channels@[sk] == sibs[k]);
        assert(sj < sk);
        assert(s.channels@[sj].channel_id != s.channels@[sk].channel_id);
    }
    assert forall|j: int| 0 <= j < tasks.len() implies channel_id_in(
        s.channels@,
        (#[trigger] tasks[j]).channel_id,
    ) by {
        let sj = crate::store::keep_src(s.channels@, pred, j);
        assert(s.channels@[sj] == sibs[j]);
    }
}

/// A recorded mirror of a root artifact: where the copy lives and its
/// identity there.
#[derive(Clone, Copy, PartialEq, Eq, Structural, Debug)]
pub struct MirrorRef {
    pub channel_id: u64,
    pub message_id: u64,
}

/// What an edit event becomes.
pub enum EditOutcome {
    /// The edited artifact is untracked, or is itself a mirror: ignored.
    Ignored,
    /// The artifact is a root: re-translate and re-dispatch an edit to
    /// every recorded mirror. A sibling without a mirror row was never
    /// mirrored and is skipped, not created late.
    Root { mirrors: Vec<MirrorRef>, source_lang: String, deepl_key: String },
}

/// The recorded mirrors of a root artifact, in store order.
pub open spec fn mirrors_of(ms: Seq<MessageRow>, root_id: u64) -> Seq<MessageRow> {
    keep(ms, |m: MessageRow| m.original_message_id == Some(root_id))
}

/// What an edit leaves: nothing in the store, and in the outcome the
/// root's recorded mirrors with what a re-translation needs.
pub open spec fn update_post(s: Store, edited_id: u64, r: EditOutcome) -> bool {
    &&& !s.spec_has_message(edited_id) ==> r is Ignored
    &&& s.spec_has_message(edited_id) && s.spec_message(edited_id).original_message_id is Some
        ==> r is Ignored
    &&& s.spec_has_message(edited_id) && s.spec_message(edited_id).original_message_id is None
        ==> (r matches EditOutcome::Root { mirrors, source_lang, deepl_key } && {
        let src = s.spec_channel(s.spec_message(edited_id).channel_id);
        &&& mirrors@ == mirrors_of(s.messages@, edited_id).map_values(
            |m: MessageRow| MirrorRef { channel_id: m.channel_id, message_id: m.message_id },
        )
        &&& source_lang@ == src.lang@
        &&& deepl_key@ == s.spec_guild(s.spec_group(src.group_name@).guild_id).deepl_key@
    })
}

/// Handles a message-edit event: a read path that finds every recorded
/// mirror of the edited root, with the language and credential a
/// re-translation needs. The store is untouched.
pub fn message_update(store: &Store, edited_id: u64) -> (r: EditOutcome)
    requires
        store.wf(),
    ensures
        update_post(*store, edited_id, r),
{
    proof {
        store.lemma_unique_rows();
    }
    let row = match store.get_message(edited_id) {
        Some(m) => m,
        None => {
            return EditOutcome::Ignored;
        },
    };
    match row.original_message_id {
        Some(_) => {
            return EditOutcome::Ignored;
        },
        None => {},
    }
    let channel = match store.get_channel(row.channel_id) {
        Some(c) => c,
        None => {
            // Unreachable under `wf`: the schema's foreign key holds.
            proof {
                assert(false);
            }
            return EditOutcome::Ignored;
        },
    };
    let group = match store.get_group(&channel.group_name) {
        Some(g) => g,
        None => {
            // Unreachable under `wf`: the schema's foreign key holds.
            proof {
                assert(false);
            }
            return EditOutcome::Ignored;
        },
    };
    let guild = match store.get_guild(group.guild_id) {
        Some(g) => g,
        None => {
            // Unreachable under `wf`: the schema's foreign key holds.
            proof {
                assert(false);
            }
            return EditOutcome::Ignored;
        },
    };
    let ghost pred = |m: MessageRow| m.original_message_id == Some(edited_id);
    let n = store.messages.len();
    let mut mirrors: Vec<MirrorRef> = Vec::new();
    let mut i: usize = 0;
    proof {
        assert(store.messages@.subrange(0, 0) =~= Seq::<MessageRow>::empty());
    }
    while i < n
        invariant
            n == store.messages@.len(),
            i <= n,
            pred == (|m: MessageRow| m.original_message_id == Some(edited_id)),
            mirrors@ == keep(store.messages@.subrange(0, i as int), pred).map_values(
                |m: MessageRow| MirrorRef { channel_id: m.channel_id, message_id: m.message_id },
            ),
        decreases n - i,
    {
        proof {
            lemma_keep_snoc(store.messages@.subrange(0, i + 1), pred);
            assert(store.messages@.subrange(0, i + 1).drop_last() =~= store.messages@.subrange(
                0,
                i as int,
            ));
            assert(store.messages@.subrange(0, i + 1).last() == store.messages@[i as int]);
        }
        let m = &store.messages[i];
        let is_mirror = match m.original_message_id {
            Some(o) => o == edited_id,
            None => false,
        };
        if is_mirror {
            mirrors.push(MirrorRef { channel_id: m.channel_id, message_id: m.message_id });
            proof {
                assert(mirrors@ =~= keep(store.messages@.subrange(0, i + 1), pred).map_values(
                    |m: MessageRow| MirrorRef {
                        channel_id: m.channel_id,
                        message_id: m.message_id,
                    },
                ));
            }
        } else {
            proof {
                assert(keep(store.messages@.subrange(0, i + 1), pred) == keep(
                    store.messages@.subrange(0, i as int),
                    pred,
                ));
            }
        }
        i = i + 1;
    }
    proof {
        assert(store.messages@.subrange(0, n as int) =~= store.messages@);
    }
    EditOutcome::Root { mirrors, source_lang: channel.lang, deepl_key: guild.deepl_key }
}

/// One delete call the shell must issue against a mirror's channel.
#[derive(Clone, Copy, PartialEq, Eq, Structural, Debug)]
pub struct DeleteCall {
    pub channel_id: u64,
    pub message_id: u64,
}

/// What a delete event becomes.
pub enum DeleteOutcome {
    /// The deleted artifact is untracked: nothing to do.
    NotTracked,
    /// The row was removed. For a root, every mirror row went with it and
    /// the shell owes exactly one delete call per removed mirror.
    Removed { was_root: bool, delete_calls: Vec<DeleteCall> },
}

/// What handling a delete leaves behind, for each kind of row.
pub open spec fn delete_post(pre: Store, post: Store, deleted_id: u64, r: DeleteOutcome) -> bool {
    &&& post.wf()
    &&& post.guilds@ == pre.guilds@
    &&& post.groups@ == pre.groups@
    &&& post.channels@ == pre.channels@
    &&& !pre.spec_has_message(deleted_id) ==> r is NotTracked && post == pre
    &&& pre.spec_has_message(deleted_id) && pre.spec_message(deleted_id).original_message_id
        is Some ==> ({
        &&& post.messages@ == keep(pre.messages@, |m: MessageRow| m.message_id != deleted_id)
        &&& (r matches DeleteOutcome::Removed { was_root, delete_calls } && was_root == false
            && delete_calls@ == Seq::<DeleteCall>::empty())
    })
    &&& pre.spec_has_message(deleted_id) && pre.spec_message(deleted_id).original_message_id
        is None ==> ({
        &&& post.messages@ == keep(
            pre.messages@,
            |m: MessageRow|
                m.message_id != deleted_id && m.original_message_id != Some(deleted_id),
        )
        &&& (r matches DeleteOutcome::Removed { was_root, delete_calls } && was_root == true
            && delete_calls@ == mirrors_of(pre.messages@, deleted_id).map_values(
            |m: MessageRow| DeleteCall { channel_id: m.channel_id, message_id: m.message_id },
        ))
    })
}

/// Handles a message-delete event: removes the artifact's mapping row and,
/// when it was a root, every row whose origin it was, returning exactly one
/// delete call per removed mirror. Per-mirror delete failures are the
/// shell's to log; they block nothing here.
pub fn message_delete(store: &mut Store, deleted_id: u64) -> (r: DeleteOutcome)
    requires
        old(store).wf(),
    ensures
        delete_post(*old(store), *final(store), deleted_id, r),
{
    proof {
        store.lemma_unique_rows();
    }
    let row = match store.get_message(deleted_id) {
        Some(m) => m,
        None => {
            return DeleteOutcome::NotTracked;
        },
    };
    let is_root = match row.original_message_id {
        Some(_) => false,
        None => true,
    };
    let n = store.messages.len();
    if !is_root {
        // A mirror: remove just its own row.
        let ghost pred = |m: MessageRow| m.message_id != deleted_id;
        let mut kept_rows: Vec<MessageRow> = Vec::new();
        let mut i: usize = 0;
        proof {
            assert(store.messages@.skip(0) =~= store.messages@);
        }
        while i < n
            invariant
                n == store.messages@.len(),
                i <= n,
                pred == (|m: MessageRow| m.message_id != deleted_id),
                keep(store.messages@, pred) == kept_rows@ + keep(
                    store.messages@.skip(i as int),
                    pred,
                ),
            decreases n - i,
        {
            proof {
                lemma_keep_step(store.messages@, pred, i as int);
            }
            let m = &store.messages[i];
            if m.message_id != deleted_id {
                kept_rows.push(m.duplicate());
            }
            i = i + 1;
        }
        let ghost pre = *store;
        store.messages = kept_rows;
        proof {
            assert(keep(pre.messages@.skip(n as int), pred) =~= Seq::<MessageRow>::empty());
            assert(store.messages@ =~= store.messages@ + keep(pre.messages@.skip(n as int), pred));
            lemma_wf_keep_messages(pre, *store, pred);
        }
        DeleteOutcome::Removed { was_root: false, delete_calls: Vec::new() }
    } else {
        // A root: cascade to every recorded mirror, and owe one delete call
        // per mirror removed.
        let ghost pred = |m: MessageRow|
            m.message_id != deleted_id && m.original_message_id != Some(deleted_id);
        let ghost mpred = |m: MessageRow| m.original_message_id == Some(deleted_id);
        let mut kept_rows: Vec<MessageRow> = Vec::new();
        let mut delete_calls: Vec<DeleteCall> = Vec::new();
        let mut i: usize = 0;
        proof {
            assert(store.messages@.skip(0) =~= store.messages@);
            assert(store.messages@.subrange(0, 0) =~= Seq::<MessageRow>::empty());
        }
        while i < n
            invariant
                n == store.messages@.len(),
                i <= n,
                pred == (|m: MessageRow|
                    m.message_id != deleted_id && m.original_message_id != Some(deleted_id)),
                mpred == (|m: MessageRow| m.original_message_id == Some(deleted_id)),
                keep(store.messages@, pred) == kept_rows@ + keep(
                    store.messages@.skip(i as int),
                    pred,
                ),
                delete_calls@ == keep(store.messages@.subrange(0, i as int), mpred).map_values(
                    |m: MessageRow| DeleteCall {
                        channel_id: m.channel_id,
                        message_id: m.message_id,
                    },
                ),
            decreases n - i,
        {
            proof {
                lemma_keep_step(store.messages@, pred, i as int);
                lemma_keep_snoc(store.messages@.subrange(0, i + 1), mpred);
                assert(store.messages@.subrange(0, i + 1).drop_last() =~= store.messages@.subrange(
                    0,
                    i as int,
                ));
                assert(store.messages@.subrange(0, i + 1).last() == store.messages@[i as int]);
            }
            let m = &store.messages[i];
            let id_matches = m.message_id == deleted_id;
            let origin_matches = match m.original_message_id {
                Some(o) => o == deleted_id,
                None => false,
            };
            if !id_matches && !origin_matches {
                kept_rows.push(m.duplicate());
            }
            if origin_matches {
                delete_calls.push(
                    DeleteCall { channel_id: m.channel_id, message_id: m.message_id },
                );
                proof {
                    assert(delete_calls@ =~= keep(
                        store.messages@.subrange(0, i + 1),
                        mpred,
                    ).map_values(
                        |m: MessageRow| DeleteCall {
                            channel_id: m.channel_id,
                            message_id: m.message_id,
                        },
                    ));
                }
            } else {
                proof {
                    assert(keep(store.messages@.subrange(0, i + 1), mpred) == keep(
                        store.messages@.subrange(0, i as int),
                        mpred,
                    ));
                }
            }
            i = i + 1;
        }
        let ghost pre = *store;
        store.messages = kept_rows;
        proof {
            assert(keep(pre.messages@.skip(n as int), pred) =~= Seq::<MessageRow>::empty());
            assert(store.messages@ =~= store.messages@ + keep(pre.messages@.skip(n as int), pred));
            lemma_wf_keep_messages(pre, *store, pred);
            assert(pre.messages@.subrange(0, n as int) =~= pre.messages@);
        }
        DeleteOutcome::Removed { was_root: true, delete_calls }
    }
}

} // verus!
