//! Group registry: the guild → group → channel membership model.
//!
//! These are the administrative operations: registering a guild with its
//! translation credential, creating a named translation group, enrolling a
//! channel into a group, and the read paths every relay decision uses.

use vstd::prelude::*;
use crate::error::RelayError;
use crate::lang::{is_recognized_tag, recognized_tag};
use crate::store::{
    keep, lemma_keep, lemma_keep_step, lemma_wf_push_channel, lemma_wf_push_group,
    lemma_wf_push_guild, ChannelRow, GroupRow, GuildRow, Store, WebhookToken,
};

verus! {

/// The channels a relay from this channel must serve: every channel of the
/// same group except the channel itself.
pub open spec fn sibling_pred(s: Store, channel_id: u64) -> spec_fn(ChannelRow) -> bool {
    |c: ChannelRow|
        c.group_name@ == s.spec_channel(channel_id).group_name@ && c.channel_id != channel_id
}

impl Store {
    /// Registers a guild with its translation credential and optional role
    /// gates. Fails with `AlreadyExists` when the guild is present.
    pub fn register_guild(
        &mut self,
        guild_id: u64,
        deepl_key: String,
        deepl_pro: bool,
        admin_role: Option<u64>,
        ignore_role: Option<u64>,
    ) -> (r: Result<(), RelayError>)
        requires
            old(self).wf(),
        ensures
            final(self).wf(),
            r is Ok <==> !old(self).spec_has_guild(guild_id),
            r is Err ==> *final(self) == *old(self) && r == Err::<(), RelayError>(
                RelayError::AlreadyExists,
            ),
            r is Ok ==> final(self).guilds@ == old(self).guilds@ + seq![
                GuildRow {
                    guild_id,
                    deepl_key: deepl_key,
                    deepl_pro,
                    admin_role,
                    ignore_role,
                },
            ] && final(self).groups@ == old(self).groups@ && final(self).channels@ == old(
                self,
            ).channels@ && final(self).messages@ == old(self).messages@,
    {
        if self.has_guild(guild_id) {
            return Err(RelayError::AlreadyExists);
        }
        let row = GuildRow { guild_id, deepl_key, deepl_pro, admin_role, ignore_role };
        let ghost pre = *self;
        let ghost grow = row;
        self.guilds.push(row);
        proof {
            assert(self.guilds@ =~= pre.guilds@ + seq![grow]);
            lemma_wf_push_guild(pre, *self, grow);
        }
        Ok(())
    }

    /// Creates a translation group scoped to a registered guild. Fails with
    /// `UnknownGuild` when the guild is absent and with `DuplicateName` when
    /// the name is taken.
    pub fn create_group(
        &mut self,
        guild_id: u64,
        name: String,
        auto_threading: bool,
        translate_title: bool,
        reaction_agent: bool,
    ) -> (r: Result<(), RelayError>)
        requires
            old(self).wf(),
        ensures
            final(self).wf(),
            r is Ok <==> old(self).spec_has_guild(guild_id) && !old(self).spec_has_group(name@),
            r is Err ==> *final(self) == *old(self),
            !old(self).spec_has_guild(guild_id) ==> r == Err::<(), RelayError>(
                RelayError::UnknownGuild,
            ),
            old(self).spec_has_guild(guild_id) && old(self).spec_has_group(name@) ==> r == Err::<
                (),
                RelayError,
            >(RelayError::DuplicateName),
            r is Ok ==> final(self).groups@ == old(self).groups@ + seq![
                GroupRow { group_name: name, guild_id, auto_threading, translate_title, reaction_agent },
            ] && final(self).guilds@ == old(self).guilds@ && final(self).channels@ == old(
                self,
            ).channels@ && final(self).messages@ == old(self).messages@,
    {
        if !self.has_guild(guild_id) {
            return Err(RelayError::UnknownGuild);
        }
        if self.has_group(&name) {
            return Err(RelayError::DuplicateName);
        }
        let row = GroupRow {
            group_name: name,
            guild_id,
            auto_threading,
            translate_title,
            reaction_agent,
        };
        let ghost pre = *self;
        let ghost grow = row;
        self.groups.push(row);
        proof {
            assert(self.groups@ =~= pre.groups@ + seq![grow]);
            lemma_wf_push_group(pre, *self, grow);
        }
        Ok(())
    }

    /// Enrolls a channel into a group under a language tag, with the posting
    /// identity that was provisioned for it. Fails with `UnknownGroup` when
    /// the group is absent, with `UnsupportedLanguage` when the tag is not
    /// recognized (no channel row is persisted), and with `Persistence` when
    /// a channel row with this identity already exists.
    pub fn enroll_channel(
        &mut self,
        group_name: String,
        channel_id: u64,
        lang: String,
        parent_channel_id: Option<u64>,
        webhook_id: u64,
        webhook_token: WebhookToken,
    ) -> (r: Result<(), RelayError>)
        requires
            old(self).wf(),
        ensures
            final(self).wf(),
            r is Ok <==> old(self).spec_has_group(group_name@) && recognized_tag(lang@) && !old(
                self,
            ).spec_has_channel(channel_id),
            r is Err ==> *final(self) == *old(self),
            !old(self).spec_has_group(group_name@) ==> r == Err::<(), RelayError>(
                RelayError::UnknownGroup,
            ),
            old(self).spec_has_group(group_name@) && !recognized_tag(lang@) ==> r == Err::<
                (),
                RelayError,
            >(RelayError::UnsupportedLanguage),
            old(self).spec_has_group(group_name@) && recognized_tag(lang@) && old(
                self,
            ).spec_has_channel(channel_id) ==> r == Err::<(), RelayError>(RelayError::Persistence),
            r is Ok ==> final(self).channels@ == old(self).channels@ + seq![
                ChannelRow {
                    channel_id,
                    parent_channel_id,
                    group_name: group_name,
                    lang: lang,
                    webhook_id,
                    webhook_token: webhook_token,
                },
            ] && final(self).guilds@ == old(self).guilds@ && final(self).groups@ == old(
                self,
            ).groups@ && final(self).messages@ == old(self).messages@,
    {
        if !self.has_group(&group_name) {
            return Err(RelayError::UnknownGroup);
        }
        if !is_recognized_tag(lang.as_str()) {
            return Err(RelayError::UnsupportedLanguage);
        }
        if self.has_channel(channel_id) {
            return Err(RelayError::Persistence);
        }
        let row = ChannelRow {
            channel_id,
            parent_channel_id,
            group_name,
            lang,
            webhook_id,
            webhook_token,
        };
        let ghost pre = *self;
        let ghost grow = row;
        self.channels.push(row);
        proof {
            assert(self.channels@ =~= pre.channels@ + seq![grow]);
            lemma_wf_push_channel(pre, *self, grow);
        }
        Ok(())
    }

    /// The group that this channel belongs to, or `None` when the channel is
    /// not enrolled. A read path: the store is untouched.
    pub fn find_group_for_channel(&self, channel_id: u64) -> (r: Option<GroupRow>)
        requires
            self.wf(),
        ensures
            match r {
                Some(g) => self.spec_has_channel(channel_id) && self.spec_has_group(
                    self.spec_channel(channel_id).group_name@,
                ) && g == self.spec_group(self.spec_channel(channel_id).group_name@),
                None => !self.spec_has_channel(channel_id),
            },
    {
        proof {
            self.lemma_unique_rows();
        }
        let ci = match self.channel_idx(channel_id) {
            Some(ci) => ci,
            None => {
                return None;
            },
        };
        let gi = match self.group_idx(&self.channels[ci].group_name) {
            Some(gi) => gi,
            None => {
                proof {
                    assert(false);
                }
                return None;
            },
        };
        Some(self.groups[gi].duplicate())
    }

    /// All channels that share this channel's group, except the channel
    /// itself: the targets of any relay from it. A read path.
    pub fn find_siblings(&self, channel_id: u64) -> (r: Vec<ChannelRow>)
        requires
            self.wf(),
            self.spec_has_channel(channel_id),
        ensures
            r@ == keep(self.channels@, sibling_pred(*self, channel_id)),
            forall|i: int| 0 <= i < r@.len() ==> (#[trigger] r@[i]).channel_id != channel_id,
            forall|i: int|
                0 <= i < r@.len() ==> (#[trigger] r@[i]).group_name@ == self.spec_channel(
                    channel_id,
                ).group_name@,
    {
        proof {
            self.lemma_unique_rows();
        }
        let ghost pred = sibling_pred(*self, channel_id);
        let ci = match self.channel_idx(channel_id) {
            Some(ci) => ci,
            None => {
                proof {
                    assert(false);
                }
                return Vec::new();
            },
        };
        let group_name = self.channels[ci].group_name.clone();
        let n = self.channels.len();
        let mut r: Vec<ChannelRow> = Vec::new();
        let mut i: usize = 0;
        proof {
            assert(self.channels@.skip(0) =~= self.channels@);
        }
        while i < n
            invariant
                n == self.channels@.len(),
                i <= n,
                group_name@ == self.spec_channel(channel_id).group_name@,
                keep(self.channels@, pred) == r@ + keep(self.channels@.skip(i as int), pred),
                pred == sibling_pred(*self, channel_id),
            decreases n - i,
        {
            proof {
                lemma_keep_step(self.channels@, pred, i as int);
            }
            let c = &self.channels[i];
            if c.channel_id != channel_id && c.group_name == group_name {
                r.push(c.duplicate());
            }
            i = i + 1;
        }
        proof {
            assert(keep(self.channels@.skip(n as int), pred) =~= Seq::<ChannelRow>::empty());
            assert(r@ =~= r@ + keep(self.channels@.skip(n as int), pred));
            lemma_keep(self.channels@, pred);
        }
        r
    }
}

} // verus!
