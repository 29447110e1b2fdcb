//! The relational model: guilds, translation groups, channels and the
//! origin/mirror message mapping, held as flat tables.
//!
//! The store is the single source of truth for the relay's decisions. Every
//! mutation is a single-row insert, update or delete; the well-formedness
//! predicate [`Store::wf`] captures the schema's key and foreign-key
//! promises, and every operation of the library preserves it.

use vstd::prelude::*;
use crate::lang::recognized_tag;

verus! {

/// A per-channel posting identity secret. Opaque: no display, no
/// serialization; the token leaves the type only through `expose_secret`.
pub struct WebhookToken {
    token: String,
}

impl View for WebhookToken {
    type V = Seq<char>;

    closed spec fn view(&self) -> Seq<char> {
        self.token@
    }
}

impl WebhookToken {
    pub fn new(token: String) -> (r: Self)
        ensures
            r@ == token@,
    {
        WebhookToken { token }
    }

    /// The raw secret, for the dispatch call site only.
    pub fn expose_secret(&self) -> (r: &str)
        ensures
            r@ == self@,
    {
        self.token.as_str()
    }

    pub fn duplicate(&self) -> (r: Self)
        ensures
            r == *self,
    {
        WebhookToken { token: self.token.clone() }
    }
}

/// A registered tenant: one chat server with its translation credential.
pub struct GuildRow {
    pub guild_id: u64,
    pub deepl_key: String,
    pub deepl_pro: bool,
    pub admin_role: Option<u64>,
    pub ignore_role: Option<u64>,
}

/// A named set of channels that mirror one another within a guild.
pub struct GroupRow {
    pub group_name: String,
    pub guild_id: u64,
    pub auto_threading: bool,
    pub translate_title: bool,
    pub reaction_agent: bool,
}

/// A channel enrolled in exactly one group, bound to a language, with its
/// posting identity.
pub struct ChannelRow {
    pub channel_id: u64,
    pub parent_channel_id: Option<u64>,
    pub group_name: String,
    pub lang: String,
    pub webhook_id: u64,
    pub webhook_token: WebhookToken,
}

/// One mapping row per posted artifact. A root row (no origin) stands for a
/// first-authored artifact; a mirror row points at its origin.
pub struct MessageRow {
    pub message_id: u64,
    pub original_message_id: Option<u64>,
    pub channel_id: u64,
}

impl GuildRow {
    pub fn duplicate(&self) -> (r: Self)
        ensures
            r == *self,
    {
        GuildRow {
            guild_id: self.guild_id,
            deepl_key: self.deepl_key.clone(),
            deepl_pro: self.deepl_pro,
            admin_role: self.admin_role,
            ignore_role: self.ignore_role,
        }
    }
}

impl GroupRow {
    pub fn duplicate(&self) -> (r: Self)
        ensures
            r == *self,
    {
        GroupRow {
            group_name: self.group_name.clone(),
            guild_id: self.guild_id,
            auto_threading: self.auto_threading,
            translate_title: self.translate_title,
            reaction_agent: self.reaction_agent,
        }
    }
}

impl ChannelRow {
    pub fn duplicate(&self) -> (r: Self)
        ensures
            r == *self,
    {
        ChannelRow {
            channel_id: self.channel_id,
            parent_channel_id: self.parent_channel_id,
            group_name: self.group_name.clone(),
            lang: self.lang.clone(),
            webhook_id: self.webhook_id,
            webhook_token: self.webhook_token.duplicate(),
        }
    }
}

impl MessageRow {
    pub fn duplicate(&self) -> (r: Self)
        ensures
            r == *self,
    {
        MessageRow {
            message_id: self.message_id,
            original_message_id: self.original_message_id,
            channel_id: self.channel_id,
        }
    }
}

/// The elements of `s` that satisfy `pred`, in order.
pub open spec fn keep<A>(s: Seq<A>, pred: spec_fn(A) -> bool) -> Seq<A>
    decreases s.len(),
{
    if s.len() == 0 {
        Seq::empty()
    } else if pred(s[0]) {
        seq![s[0]] + keep(s.drop_first(), pred)
    } else {
        keep(s.drop_first(), pred)
    }
}

/// The source index of the `i`-th element that `keep` retains.
pub open spec fn keep_src<A>(s: Seq<A>, pred: spec_fn(A) -> bool, i: int) -> int
    decreases s.len(),
{
    if s.len() == 0 {
        0
    } else if pred(s[0]) {
        if i == 0 {
            0
        } else {
            1 + keep_src(s.drop_first(), pred, i - 1)
        }
    } else {
        1 + keep_src(s.drop_first(), pred, i)
    }
}

/// What `keep` guarantees: every kept element satisfies the predicate and
/// comes from its source index, source indices are strictly increasing, and
/// every satisfying element is kept.
pub proof fn lemma_keep<A>(s: Seq<A>, pred: spec_fn(A) -> bool)
    ensures
        keep(s, pred).len() <= s.len(),
        forall|i: int| 0 <= i < keep(s, pred).len() ==> pred(#[trigger] keep(s, pred)[i]),
        forall|i: int|
            0 <= i < keep(s, pred).len() ==> 0 <= #[trigger] keep_src(s, pred, i) < s.len() && s[
                keep_src(s, pred, i)
            ] == keep(s, pred)[i],
        forall|i1: int, i2: int|
            0 <= i1 < i2 < keep(s, pred).len() ==> #[trigger] keep_src(s, pred, i1)
                < #[trigger] keep_src(s, pred, i2),
        forall|j: int|
            0 <= j < s.len() && pred(s[j]) ==> keep(s, pred).contains(#[trigger] s[j]),
    decreases s.len(),
{
    if s.len() == 0 {
    } else {
        let tail = s.drop_first();
        lemma_keep(tail, pred);
        let k = keep(s, pred);
        let kt = keep(tail, pred);
        if pred(s[0]) {
            assert(k == seq![s[0]] + kt);
            assert forall|i: int| 0 <= i < k.len() implies 0 <= #[trigger] keep_src(s, pred, i)
                < s.len() && s[keep_src(s, pred, i)] == k[i] by {
                if i > 0 {
                    assert(s[1 + keep_src(tail, pred, i - 1)] == tail[keep_src(tail, pred, i - 1)]);
                }
            }
            assert forall|i1: int, i2: int| 0 <= i1 < i2 < k.len() implies #[trigger] keep_src(
                s,
                pred,
                i1,
            ) < #[trigger] keep_src(s, pred, i2) by {
                if i1 > 0 {
                    assert(keep_src(tail, pred, i1 - 1) < keep_src(tail, pred, i2 - 1));
                } else {
                    assert(0 <= keep_src(tail, pred, i2 - 1));
                }
            }
            assert forall|j: int| 0 <= j < s.len() && pred(s[j]) implies k.contains(
                #[trigger] s[j],
            ) by {
                if j == 0 {
                    assert(k[0] == s[0]);
                } else {
                    assert(tail[j - 1] == s[j]);
                    assert(kt.contains(tail[j - 1]));
                    let w = choose|w: int| 0 <= w < kt.len() && kt[w] == tail[j - 1];
                    assert(k[w + 1] == s[j]);
                }
            }
        } else {
            assert(k == kt);
            assert forall|i: int| 0 <= i < k.len() implies 0 <= #[trigger] keep_src(s, pred, i)
                < s.len() && s[keep_src(s, pred, i)] == k[i] by {
                assert(s[1 + keep_src(tail, pred, i)] == tail[keep_src(tail, pred, i)]);
            }
            assert forall|i1: int, i2: int| 0 <= i1 < i2 < k.len() implies #[trigger] keep_src(
                s,
                pred,
                i1,
            ) < #[trigger] keep_src(s, pred, i2) by {
                assert(keep_src(tail, pred, i1) < keep_src(tail, pred, i2));
            }
            assert forall|j: int| 0 <= j < s.len() && pred(s[j]) implies k.contains(
                #[trigger] s[j],
            ) by {
                assert(j != 0);
                assert(tail[j - 1] == s[j]);
                assert(kt.contains(tail[j - 1]));
            }
        }
    }
}

/// `keep` over a sequence extended by one element on the right.
pub proof fn lemma_keep_snoc<A>(s: Seq<A>, pred: spec_fn(A) -> bool)
    requires
        s.len() >= 1,
    ensures
        keep(s, pred) == if pred(s.last()) {
            keep(s.drop_last(), pred) + seq![s.last()]
        } else {
            keep(s.drop_last(), pred)
        },
    decreases s.len(),
{
    let last = s.last();
    let head = s[0];
    if s.len() == 1 {
        assert(s.drop_first() =~= Seq::<A>::empty());
        assert(keep(s.drop_first(), pred) == Seq::<A>::empty());
        assert(s.drop_last() =~= Seq::<A>::empty());
        assert(keep(s.drop_last(), pred) == Seq::<A>::empty());
        if pred(head) {
            assert(keep(s, pred) == seq![head] + keep(s.drop_first(), pred));
            assert(keep(s, pred) =~= keep(s.drop_last(), pred) + seq![last]);
        } else {
            assert(keep(s, pred) == keep(s.drop_first(), pred));
        }
    } else {
        let tail = s.drop_first();
        lemma_keep_snoc(tail, pred);
        assert(tail.last() == last);
        assert(tail.drop_last() =~= s.drop_last().drop_first());
        assert(s.drop_last()[0] == head);
        if pred(head) {
            assert(keep(s, pred) == seq![head] + keep(tail, pred));
            assert(keep(s.drop_last(), pred) == seq![head] + keep(
                s.drop_last().drop_first(),
                pred,
            ));
        } else {
            assert(keep(s, pred) == keep(tail, pred));
            assert(keep(s.drop_last(), pred) == keep(s.drop_last().drop_first(), pred));
        }
        assert(keep(s.drop_last().drop_first(), pred) == keep(tail.drop_last(), pred));
        if pred(last) {
            assert(keep(s, pred) =~= keep(s.drop_last(), pred) + seq![last]);
        } else {
            assert(keep(s, pred) =~= keep(s.drop_last(), pred));
        }
    }
}

/// One unfolding step of `keep`, for loops that walk the source from the
/// front.
pub proof fn lemma_keep_step<A>(s: Seq<A>, pred: spec_fn(A) -> bool, i: int)
    requires
        0 <= i < s.len(),
    ensures
        keep(s.skip(i), pred) == if pred(s[i]) {
            seq![s[i]] + keep(s.skip(i + 1), pred)
        } else {
            keep(s.skip(i + 1), pred)
        },
{
    assert(s.skip(i)[0] == s[i]);
    assert(s.skip(i).drop_first() =~= s.skip(i + 1));
}

/// The four tables.
pub struct Store {
    pub guilds: Vec<GuildRow>,
    pub groups: Vec<GroupRow>,
    pub channels: Vec<ChannelRow>,
    pub messages: Vec<MessageRow>,
}

/// A guild row with this identity is in the sequence.
pub open spec fn guild_id_in(gs: Seq<GuildRow>, guild_id: u64) -> bool {
    exists|i: int| 0 <= i < gs.len() && gs[i].guild_id == guild_id
}

/// A group row with this name is in the sequence.
pub open spec fn group_name_in(gs: Seq<GroupRow>, name: Seq<char>) -> bool {
    exists|i: int| 0 <= i < gs.len() && gs[i].group_name@ == name
}

/// A channel row with this identity is in the sequence.
pub open spec fn channel_id_in(cs: Seq<ChannelRow>, channel_id: u64) -> bool {
    exists|i: int| 0 <= i < cs.len() && cs[i].channel_id == channel_id
}

/// A mapping row with this identity is in the sequence.
pub open spec fn message_id_in(ms: Seq<MessageRow>, message_id: u64) -> bool {
    exists|i: int| 0 <= i < ms.len() && ms[i].message_id == message_id
}

impl Store {
    /// A guild with this identity is registered.
    pub open spec fn spec_has_guild(self, guild_id: u64) -> bool {
        guild_id_in(self.guilds@, guild_id)
    }

    /// A group with this name exists.
    pub open spec fn spec_has_group(self, name: Seq<char>) -> bool {
        group_name_in(self.groups@, name)
    }

    /// A channel with this identity is enrolled.
    pub open spec fn spec_has_channel(self, channel_id: u64) -> bool {
        channel_id_in(self.channels@, channel_id)
    }

    /// A mapping row for this artifact exists.
    pub open spec fn spec_has_message(self, message_id: u64) -> bool {
        message_id_in(self.messages@, message_id)
    }

    /// The registered guild row with this identity.
    pub open spec fn spec_guild(self, guild_id: u64) -> GuildRow {
        self.guilds@[choose|i: int|
            0 <= i < self.guilds@.len() && self.guilds@[i].guild_id == guild_id]
    }

    /// The group row with this name.
    pub open spec fn spec_group(self, name: Seq<char>) -> GroupRow {
        self.groups@[choose|i: int|
            0 <= i < self.groups@.len() && self.groups@[i].group_name@ == name]
    }

    /// The channel row with this identity.
    pub open spec fn spec_channel(self, channel_id: u64) -> ChannelRow {
        self.channels@[choose|i: int|
            0 <= i < self.channels@.len() && self.channels@[i].channel_id == channel_id]
    }

    /// The mapping row for this artifact.
    pub open spec fn spec_message(self, message_id: u64) -> MessageRow {
        self.messages@[choose|i: int|
            0 <= i < self.messages@.len() && self.messages@[i].message_id == message_id]
    }

    /// Key and foreign-key promises of the schema, plus the channel-language
    /// invariant.
    pub open spec fn wf(self) -> bool {
        &&& forall|i: int, j: int|
            0 <= i < j < self.guilds@.len() ==> self.guilds@[i].guild_id
                != self.guilds@[j].guild_id
        &&& forall|i: int, j: int|
            0 <= i < j < self.groups@.len() ==> self.groups@[i].group_name@
                != self.groups@[j].group_name@
        &&& forall|i: int, j: int|
            0 <= i < j < self.channels@.len() ==> self.channels@[i].channel_id
                != self.channels@[j].channel_id
        &&& forall|i: int, j: int|
            0 <= i < j < self.messages@.len() ==> self.messages@[i].message_id
                != self.messages@[j].message_id
        &&& forall|i: int|
            0 <= i < self.groups@.len() ==> self.spec_has_guild(
                #[trigger] self.groups@[i].guild_id,
            )
        &&& forall|i: int|
            0 <= i < self.channels@.len() ==> self.spec_has_group(
                #[trigger] self.channels@[i].group_name@,
            )
        &&& forall|i: int|
            0 <= i < self.messages@.len() ==> self.spec_has_channel(
                #[trigger] self.messages@[i].channel_id,
            )
        &&& forall|i: int|
            0 <= i < self.channels@.len() ==> recognized_tag(#[trigger] self.channels@[i].lang@)
        &&& forall|i: int|
            0 <= i < self.messages@.len() ==> (#[trigger] self.messages@[i].original_message_id)
                != Some(self.messages@[i].message_id)
    }

    /// An empty store.
    pub fn new() -> (r: Store)
        ensures
            r.wf(),
            r.guilds@.len() == 0,
            r.groups@.len() == 0,
            r.channels@.len() == 0,
            r.messages@.len() == 0,
    {
        Store { guilds: Vec::new(), groups: Vec::new(), channels: Vec::new(), messages: Vec::new() }
    }

    /// Index of the guild row with this identity.
    pub(crate) fn guild_idx(&self, guild_id: u64) -> (r: Option<usize>)
        ensures
            match r {
                Some(i) => i < self.guilds@.len() && self.guilds@[i as int].guild_id == guild_id
                    && self.spec_has_guild(guild_id),
                None => !self.spec_has_guild(guild_id),
            },
    {
        let n = self.guilds.len();
        let mut i: usize = 0;
        while i < n
            invariant
                n == self.guilds@.len(),
                i <= n,
                forall|m: int| 0 <= m < i ==> self.guilds@[m].guild_id != guild_id,
            decreases n - i,
        {
            if self.guilds[i].guild_id == guild_id {
                return Some(i);
            }
            i = i + 1;
        }
        None
    }

    /// Index of the group row with this name.
    pub(crate) fn group_idx(&self, name: &String) -> (r: Option<usize>)
        ensures
            match r {
                Some(i) => i < self.groups@.len() && self.groups@[i as int].group_name@ == name@
                    && self.spec_has_group(name@),
                None => !self.spec_has_group(name@),
            },
    {
        let n = self.groups.len();
        let mut i: usize = 0;
        while i < n
            invariant
                n == self.groups@.len(),
                i <= n,
                forall|m: int| 0 <= m < i ==> self.groups@[m].group_name@ != name@,
            decreases n - i,
        {
            if self.groups[i].group_name == *name {
                return Some(i);
            }
            i = i + 1;
        }
        None
    }

    /// Index of the channel row with this identity.
    pub(crate) fn channel_idx(&self, channel_id: u64) -> (r: Option<usize>)
        ensures
            match r {
                Some(i) => i < self.channels@.len() && self.channels@[i as int].channel_id
                    == channel_id && self.spec_has_channel(channel_id),
                None => !self.spec_has_channel(channel_id),
            },
    {
        let n = self.channels.len();
        let mut i: usize = 0;
        while i < n
            invariant
                n == self.channels@.len(),
                i <= n,
                forall|m: int| 0 <= m < i ==> self.channels@[m].channel_id != channel_id,
            decreases n - i,
        {
            if self.channels[i].channel_id == channel_id {
                return Some(i);
            }
            i = i + 1;
        }
        None
    }

    /// Index of the mapping row for this artifact.
    pub(crate) fn message_idx(&self, message_id: u64) -> (r: Option<usize>)
        ensures
            match r {
                Some(i) => i < self.messages@.len() && self.messages@[i as int].message_id
                    == message_id && self.spec_has_message(message_id),
                None => !self.spec_has_message(message_id),
            },
    {
        let n = self.messages.len();
        let mut i: usize = 0;
        while i < n
            invariant
                n == self.messages@.len(),
                i <= n,
                forall|m: int| 0 <= m < i ==> self.messages@[m].message_id != message_id,
            decreases n - i,
        {
            if self.messages[i].message_id == message_id {
                return Some(i);
            }
            i = i + 1;
        }
        None
    }

    /// Any row whose identity matches is the row the spec selectors name.
    pub proof fn lemma_unique_rows(self)
        requires
            self.wf(),
        ensures
            forall|i: int|
                0 <= i < self.guilds@.len() ==> #[trigger] self.guilds@[i] == self.spec_guild(
                    self.guilds@[i].guild_id,
                ),
            forall|i: int|
                0 <= i < self.groups@.len() ==> #[trigger] self.groups@[i] == self.spec_group(
                    self.groups@[i].group_name@,
                ),
            forall|i: int|
                0 <= i < self.channels@.len() ==> #[trigger] self.channels@[i] == self.spec_channel(
                    self.channels@[i].channel_id,
                ),
            forall|i: int|
                0 <= i < self.messages@.len() ==> #[trigger] self.messages@[i] == self.spec_message(
                    self.messages@[i].message_id,
                ),
    {
    }

    /// Whether a mapping row for this artifact exists.
    pub fn has_message(&self, message_id: u64) -> (r: bool)
        ensures
            r == self.spec_has_message(message_id),
    {
        self.message_idx(message_id).is_some()
    }

    /// Whether a channel with this identity is enrolled.
    pub fn has_channel(&self, channel_id: u64) -> (r: bool)
        ensures
            r == self.spec_has_channel(channel_id),
    {
        self.channel_idx(channel_id).is_some()
    }

    /// Whether a group with this name exists.
    pub fn has_group(&self, name: &String) -> (r: bool)
        ensures
            r == self.spec_has_group(name@),
    {
        self.group_idx(name).is_some()
    }

    /// Whether a guild with this identity is registered.
    pub fn has_guild(&self, guild_id: u64) -> (r: bool)
        ensures
            r == self.spec_has_guild(guild_id),
    {
        self.guild_idx(guild_id).is_some()
    }

    /// A copy of the channel row with this identity, if enrolled.
    pub fn get_channel(&self, channel_id: u64) -> (r: Option<ChannelRow>)
        requires
            self.wf(),
        ensures
            match r {
                Some(c) => self.spec_has_channel(channel_id) && c == self.spec_channel(channel_id),
                None => !self.spec_has_channel(channel_id),
            },
    {
        proof {
            self.lemma_unique_rows();
        }
        match self.channel_idx(channel_id) {
            Some(i) => Some(self.channels[i].duplicate()),
            None => None,
        }
    }

    /// A copy of the group row with this name, if present.
    pub fn get_group(&self, name: &String) -> (r: Option<GroupRow>)
        requires
            self.wf(),
        ensures
            match r {
                Some(g) => self.spec_has_group(name@) && g == self.spec_group(name@),
                None => !self.spec_has_group(name@),
            },
    {
        proof {
            self.lemma_unique_rows();
        }
        match self.group_idx(name) {
            Some(i) => Some(self.groups[i].duplicate()),
            None => None,
        }
    }

    /// A copy of the guild row with this identity, if registered.
    pub fn get_guild(&self, guild_id: u64) -> (r: Option<GuildRow>)
        requires
            self.wf(),
        ensures
            match r {
                Some(g) => self.spec_has_guild(guild_id) && g == self.spec_guild(guild_id),
                None => !self.spec_has_guild(guild_id),
            },
    {
        proof {
            self.lemma_unique_rows();
        }
        match self.guild_idx(guild_id) {
            Some(i) => Some(self.guilds[i].duplicate()),
            None => None,
        }
    }

    /// A copy of the mapping row for this artifact, if tracked.
    pub fn get_message(&self, message_id: u64) -> (r: Option<MessageRow>)
        requires
            self.wf(),
        ensures
            match r {
                Some(m) => self.spec_has_message(message_id) && m == self.spec_message(message_id),
                None => !self.spec_has_message(message_id),
            },
    {
        proof {
            self.lemma_unique_rows();
        }
        match self.message_idx(message_id) {
            Some(i) => Some(self.messages[i].duplicate()),
            None => None,
        }
    }
}

/// Deleting mapping rows (any selection of them) preserves well-formedness.
pub proof fn lemma_wf_keep_messages(pre: Store, post: Store, pred: spec_fn(MessageRow) -> bool)
    requires
        pre.wf(),
        post.messages@ == keep(pre.messages@, pred),
        post.guilds@ == pre.guilds@,
        post.groups@ == pre.groups@,
        post.channels@ == pre.channels@,
    ensures
        post.wf(),
{
    lemma_keep(pre.messages@, pred);
    let ms = post.messages@;
    assert forall|i: int, j: int| 0 <= i < j < ms.len() implies ms[i].message_id
        != ms[j].message_id by {
        assert(pre.messages@[keep_src(pre.messages@, pred, i)] == ms[i]);
        assert(pre.messages@[keep_src(pre.messages@, pred, j)] == ms[j]);
        assert(keep_src(pre.messages@, pred, i) < keep_src(pre.messages@, pred, j));
    }
    assert forall|i: int| 0 <= i < ms.len() implies channel_id_in(
        post.channels@,
        #[trigger] ms[i].channel_id,
    ) by {
        assert(pre.messages@[keep_src(pre.messages@, pred, i)] == ms[i]);
    }
    assert forall|i: int| 0 <= i < ms.len() implies (#[trigger] ms[i].original_message_id) != Some(
        ms[i].message_id,
    ) by {
        assert(pre.messages@[keep_src(pre.messages@, pred, i)] == ms[i]);
    }
}

/// Removing a guild with everything under it — its groups, their channels,
/// and those channels' mapping rows — preserves well-formedness.
pub proof fn lemma_wf_delete_guild(pre: Store, post: Store, guild_id: u64)
    requires
        pre.wf(),
        post.guilds@ == keep(pre.guilds@, |g: GuildRow| g.guild_id != guild_id),
        post.groups@ == keep(pre.groups@, |g: GroupRow| g.guild_id != guild_id),
        post.channels@ == keep(
            pre.channels@,
            |c: ChannelRow| group_name_in(post.groups@, c.group_name@),
        ),
        post.messages@ == keep(
            pre.messages@,
            |m: MessageRow| channel_id_in(post.channels@, m.channel_id),
        ),
    ensures
        post.wf(),
{
    let upred = |g: GuildRow| g.guild_id != guild_id;
    let gpred = |g: GroupRow| g.guild_id != guild_id;
    let cpred = |c: ChannelRow| group_name_in(post.groups@, c.group_name@);
    let mpred = |m: MessageRow| channel_id_in(post.channels@, m.channel_id);
    lemma_keep(pre.guilds@, upred);
    lemma_keep(pre.groups@, gpred);
    lemma_keep(pre.channels@, cpred);
    lemma_keep(pre.messages@, mpred);
    assert forall|i: int, j: int| 0 <= i < j < post.guilds@.len() implies post.guilds@[i].guild_id
        != post.guilds@[j].guild_id by {
        assert(pre.guilds@[keep_src(pre.guilds@, upred, i)] == post.guilds@[i]);
        assert(pre.guilds@[keep_src(pre.guilds@, upred, j)] == post.guilds@[j]);
        assert(keep_src(pre.guilds@, upred, i) < keep_src(pre.guilds@, upred, j));
    }
    assert forall|i: int, j: int| 0 <= i < j < post.groups@.len() implies post.groups@[
    i].group_name@ != post.groups@[j].group_name@ by {
        assert(pre.groups@[keep_src(pre.groups@, gpred, i)] == post.groups@[i]);
        assert(pre.groups@[keep_src(pre.groups@, gpred, j)] == post.groups@[j]);
        assert(keep_src(pre.groups@, gpred, i) < keep_src(pre.groups@, gpred, j));
    }
    assert forall|i: int, j: int| 0 <= i < j < post.channels@.len() implies post.channels@[
    i].channel_id != post.channels@[j].channel_id by {
        assert(pre.channels@[keep_src(pre.channels@, cpred, i)] == post.channels@[i]);
        assert(pre.channels@[keep_src(pre.channels@, cpred, j)] == post.channels@[j]);
        assert(keep_src(pre.channels@, cpred, i) < keep_src(pre.channels@, cpred, j));
    }
    assert forall|i: int, j: int| 0 <= i < j < post.messages@.len() implies post.messages@[
    i].message_id != post.messages@[j].message_id by {
        assert(pre.messages@[keep_src(pre.messages@, mpred, i)] == post.messages@[i]);
        assert(pre.messages@[keep_src(pre.messages@, mpred, j)] == post.messages@[j]);
        assert(keep_src(pre.messages@, mpred, i) < keep_src(pre.messages@, mpred, j));
    }
    assert forall|i: int| 0 <= i < post.groups@.len() implies guild_id_in(
        post.guilds@,
        #[trigger] post.groups@[i].guild_id,
    ) by {
        assert(pre.groups@[keep_src(pre.groups@, gpred, i)] == post.groups@[i]);
        assert(guild_id_in(pre.guilds@, post.groups@[i].guild_id));
        let w = choose|w: int|
            0 <= w < pre.guilds@.len() && pre.guilds@[w].guild_id == post.groups@[i].guild_id;
        assert(upred(pre.guilds@[w]));
        assert(post.guilds@.contains(pre.guilds@[w]));
        let v = choose|v: int| 0 <= v < post.guilds@.len() && post.guilds@[v] == pre.guilds@[w];
        assert(post.guilds@[v].guild_id == post.groups@[i].guild_id);
    }
    assert forall|i: int| 0 <= i < post.channels@.len() implies group_name_in(
        post.groups@,
        #[trigger] post.channels@[i].group_name@,
    ) by {
        assert(pre.channels@[keep_src(pre.channels@, cpred, i)] == post.channels@[i]);
        assert(cpred(post.channels@[i]));
    }
    assert forall|i: int| 0 <= i < post.messages@.len() implies channel_id_in(
        post.channels@,
        #[trigger] post.messages@[i].channel_id,
    ) by {
        assert(pre.messages@[keep_src(pre.messages@, mpred, i)] == post.messages@[i]);
        assert(mpred(post.messages@[i]));
    }
    assert forall|i: int| 0 <= i < post.channels@.len() implies recognized_tag(
        #[trigger] post.channels@[i].lang@,
    ) by {
        assert(pre.channels@[keep_src(pre.channels@, cpred, i)] == post.channels@[i]);
    }
    assert forall|i: int| 0 <= i < post.messages@.len() implies (
    #[trigger] post.messages@[i].original_message_id) != Some(post.messages@[i].message_id) by {
        assert(pre.messages@[keep_src(pre.messages@, mpred, i)] == post.messages@[i]);
    }
}

/// Removing a channel and every mapping row that lives on it preserves
/// well-formedness.
pub proof fn lemma_wf_delete_channel(pre: Store, post: Store, channel_id: u64)
    requires
        pre.wf(),
        post.channels@ == keep(pre.channels@, |c: ChannelRow| c.channel_id != channel_id),
        post.messages@ == keep(pre.messages@, |m: MessageRow| m.channel_id != channel_id),
        post.guilds@ == pre.guilds@,
        post.groups@ == pre.groups@,
    ensures
        post.wf(),
{
    let cpred = |c: ChannelRow| c.channel_id != channel_id;
    let mpred = |m: MessageRow| m.channel_id != channel_id;
    lemma_keep(pre.channels@, cpred);
    lemma_keep(pre.messages@, mpred);
    let cs = post.channels@;
    let ms = post.messages@;
    assert forall|i: int, j: int| 0 <= i < j < cs.len() implies cs[i].channel_id
        != cs[j].channel_id by {
        assert(pre.channels@[keep_src(pre.channels@, cpred, i)] == cs[i]);
        assert(pre.channels@[keep_src(pre.channels@, cpred, j)] == cs[j]);
        assert(keep_src(pre.channels@, cpred, i) < keep_src(pre.channels@, cpred, j));
    }
    assert forall|i: int, j: int| 0 <= i < j < ms.len() implies ms[i].message_id
        != ms[j].message_id by {
        assert(pre.messages@[keep_src(pre.messages@, mpred, i)] == ms[i]);
        assert(pre.messages@[keep_src(pre.messages@, mpred, j)] == ms[j]);
        assert(keep_src(pre.messages@, mpred, i) < keep_src(pre.messages@, mpred, j));
    }
    assert forall|i: int| 0 <= i < cs.len() implies group_name_in(
        post.groups@,
        #[trigger] cs[i].group_name@,
    ) by {
        assert(pre.channels@[keep_src(pre.channels@, cpred, i)] == cs[i]);
    }
    assert forall|i: int| 0 <= i < cs.len() implies recognized_tag(#[trigger] cs[i].lang@) by {
        assert(pre.channels@[keep_src(pre.channels@, cpred, i)] == cs[i]);
    }
    assert forall|i: int| 0 <= i < ms.len() implies channel_id_in(
        post.channels@,
        #[trigger] ms[i].channel_id,
    ) by {
        assert(pre.messages@[keep_src(pre.messages@, mpred, i)] == ms[i]);
        let w = choose|w: int|
            0 <= w < pre.channels@.len() && pre.channels@[w].channel_id == ms[i].channel_id;
        assert(cpred(pre.channels@[w]));
        assert(cs.contains(pre.channels@[w]));
        let v = choose|v: int| 0 <= v < cs.len() && cs[v] == pre.channels@[w];
        assert(cs[v].channel_id == ms[i].channel_id);
    }
    assert forall|i: int| 0 <= i < ms.len() implies (#[trigger] ms[i].original_message_id) != Some(
        ms[i].message_id,
    ) by {
        assert(pre.messages@[keep_src(pre.messages@, mpred, i)] == ms[i]);
    }
}

/// Inserting a guild row under a fresh identity preserves well-formedness.
pub proof fn lemma_wf_push_guild(pre: Store, post: Store, row: GuildRow)
    requires
        pre.wf(),
        !pre.spec_has_guild(row.guild_id),
        post.guilds@ == pre.guilds@ + seq![row],
        post.groups@ == pre.groups@,
        post.channels@ == pre.channels@,
        post.messages@ == pre.messages@,
    ensures
        post.wf(),
{
    assert forall|i: int, j: int| 0 <= i < j < post.guilds@.len() implies post.guilds@[i].guild_id
        != post.guilds@[j].guild_id by {
        if j == pre.guilds@.len() {
            if post.guilds@[i].guild_id == row.guild_id {
                assert(pre.guilds@[i].guild_id == row.guild_id);
            }
        }
    }
    assert forall|i: int| 0 <= i < post.groups@.len() implies guild_id_in(
        post.guilds@,
        #[trigger] post.groups@[i].guild_id,
    ) by {
        let w = choose|w: int|
            0 <= w < pre.guilds@.len() && pre.guilds@[w].guild_id == pre.groups@[i].guild_id;
        assert(post.guilds@[w].guild_id == post.groups@[i].guild_id);
    }
}

/// Inserting a group row under a fresh name, referencing a registered guild,
/// preserves well-formedness.
pub proof fn lemma_wf_push_group(pre: Store, post: Store, row: GroupRow)
    requires
        pre.wf(),
        !pre.spec_has_group(row.group_name@),
        pre.spec_has_guild(row.guild_id),
        post.groups@ == pre.groups@ + seq![row],
        post.guilds@ == pre.guilds@,
        post.channels@ == pre.channels@,
        post.messages@ == pre.messages@,
    ensures
        post.wf(),
{
    assert forall|i: int, j: int| 0 <= i < j < post.groups@.len() implies post.groups@[
    i].group_name@ != post.groups@[j].group_name@ by {
        if j == pre.groups@.len() {
            if post.groups@[i].group_name@ == row.group_name@ {
                assert(pre.groups@[i].group_name@ == row.group_name@);
            }
        }
    }
    assert forall|i: int| 0 <= i < post.groups@.len() implies guild_id_in(
        post.guilds@,
        #[trigger] post.groups@[i].guild_id,
    ) by {
        if i < pre.groups@.len() {
            assert(guild_id_in(pre.guilds@, pre.groups@[i].guild_id));
        } else {
            assert(post.groups@[i] == row);
        }
    }
    assert forall|i: int| 0 <= i < post.channels@.len() implies group_name_in(
        post.groups@,
        #[trigger] post.channels@[i].group_name@,
    ) by {
        let w = choose|w: int|
            0 <= w < pre.groups@.len() && pre.groups@[w].group_name@ == pre.channels@[
            i].group_name@;
        assert(post.groups@[w].group_name@ == post.channels@[i].group_name@);
    }
}

/// Inserting a channel row under a fresh identity, referencing an existing
/// group, with a recognized language, preserves well-formedness.
pub proof fn lemma_wf_push_channel(pre: Store, post: Store, row: ChannelRow)
    requires
        pre.wf(),
        !pre.spec_has_channel(row.channel_id),
        pre.spec_has_group(row.group_name@),
        recognized_tag(row.lang@),
        post.channels@ == pre.channels@ + seq![row],
        post.guilds@ == pre.guilds@,
        post.groups@ == pre.groups@,
        post.messages@ == pre.messages@,
    ensures
        post.wf(),
{
    assert forall|i: int, j: int| 0 <= i < j < post.channels@.len() implies post.channels@[
    i].channel_id != post.channels@[j].channel_id by {
        if j == pre.channels@.len() {
            if post.channels@[i].channel_id == row.channel_id {
                assert(pre.channels@[i].channel_id == row.channel_id);
            }
        }
    }
    assert forall|i: int| 0 <= i < post.channels@.len() implies group_name_in(
        post.groups@,
        #[trigger] post.channels@[i].group_name@,
    ) by {
        if i < pre.channels@.len() {
            assert(group_name_in(pre.groups@, pre.channels@[i].group_name@));
        } else {
            assert(post.channels@[i] == row);
        }
    }
    assert forall|i: int| 0 <= i < post.messages@.len() implies channel_id_in(
        post.channels@,
        #[trigger] post.messages@[i].channel_id,
    ) by {
        let w = choose|w: int|
            0 <= w < pre.channels@.len() && pre.channels@[w].channel_id == pre.messages@[
            i].channel_id;
        assert(post.channels@[w].channel_id == post.messages@[i].channel_id);
    }
}

/// Inserting a mapping row under a fresh identity, referencing an enrolled
/// channel and not itself, preserves well-formedness.
pub proof fn lemma_wf_push_message(pre: Store, post: Store, row: MessageRow)
    requires
        pre.wf(),
        !pre.spec_has_message(row.message_id),
        pre.spec_has_channel(row.channel_id),
        row.original_message_id != Some(row.message_id),
        post.messages@ == pre.messages@ + seq![row],
        post.guilds@ == pre.guilds@,
        post.groups@ == pre.groups@,
        post.channels@ == pre.channels@,
    ensures
        post.wf(),
{
    assert forall|i: int, j: int| 0 <= i < j < post.messages@.len() implies post.messages@[
    i].message_id != post.messages@[j].message_id by {
        if j == pre.messages@.len() {
            if post.messages@[i].message_id == row.message_id {
                assert(pre.messages@[i].message_id == row.message_id);
            }
        }
    }
    assert forall|i: int| 0 <= i < post.messages@.len() implies channel_id_in(
        post.channels@,
        #[trigger] post.messages@[i].channel_id,
    ) by {
        if i < pre.messages@.len() {
            assert(channel_id_in(pre.channels@, pre.messages@[i].channel_id));
        } else {
            assert(post.messages@[i] == row);
        }
    }
}

} // verus!
