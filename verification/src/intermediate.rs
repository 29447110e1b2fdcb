//! The platform-independent shape of a message to be mirrored: what the
//! relay reads, translates and re-dispatches. The unverified shell converts
//! between the chat platform's message type and this one.

use vstd::prelude::*;

verus! {

/// An attachment: only its description is translatable.
pub struct IntermediateAttachement {
    pub description: Option<String>,
    pub url: String,
}

impl IntermediateAttachement {
    pub fn new(description: Option<String>, url: String) -> (r: Self)
        ensures
            r.description == description,
            r.url == url,
    {
        IntermediateAttachement { description, url }
    }

    pub fn duplicate(&self) -> (r: Self)
        ensures
            r == *self,
    {
        IntermediateAttachement {
            description: match &self.description {
                Some(d) => Some(d.clone()),
                None => None,
            },
            url: self.url.clone(),
        }
    }

    /// Applies the provider's output. An attachment without a description
    /// has nothing to translate and is returned unchanged.
    pub fn translate(&self, translated_description: Option<String>) -> (r: Self)
        requires
            translated_description is Some <==> self.description is Some,
        ensures
            r.url == self.url,
            r.description == translated_description,
            self.description is None ==> r == *self,
    {
        IntermediateAttachement {
            description: translated_description,
            url: self.url.clone(),
        }
    }
}

/// An embed: its title and description are the translatable parts.
pub struct IntermediateEmbed {
    pub title: Option<String>,
    pub description: Option<String>,
}

impl IntermediateEmbed {
    pub fn duplicate(&self) -> (r: Self)
        ensures
            r == *self,
    {
        IntermediateEmbed {
            title: match &self.title {
                Some(t) => Some(t.clone()),
                None => None,
            },
            description: match &self.description {
                Some(d) => Some(d.clone()),
                None => None,
            },
        }
    }
}

/// A message to be mirrored: content, speech flag, attachments, embeds and
/// platform flags.
pub struct IntermediateMessage {
    pub content: String,
    pub tts: bool,
    pub attachments: Vec<IntermediateAttachement>,
    pub embeds: Vec<IntermediateEmbed>,
    pub flags: Option<u64>,
}

impl IntermediateMessage {
    pub fn duplicate(&self) -> (r: Self)
        ensures
            r.content == self.content,
            r.tts == self.tts,
            r.attachments@ == self.attachments@,
            r.embeds@ == self.embeds@,
            r.flags == self.flags,
    {
        let mut attachments: Vec<IntermediateAttachement> = Vec::new();
        let mut i: usize = 0;
        let n = self.attachments.len();
        while i < n
            invariant
                n == self.attachments@.len(),
                i <= n,
                attachments@ == self.attachments@.take(i as int),
            decreases n - i,
        {
            attachments.push(self.attachments[i].duplicate());
            i = i + 1;
            proof {
                assert(attachments@ =~= self.attachments@.take(i as int));
            }
        }
        let mut embeds: Vec<IntermediateEmbed> = Vec::new();
        let m = self.embeds.len();
        let mut j: usize = 0;
        while j < m
            invariant
                m == self.embeds@.len(),
                j <= m,
                embeds@ == self.embeds@.take(j as int),
            decreases m - j,
        {
            embeds.push(self.embeds[j].duplicate());
            j = j + 1;
            proof {
                assert(embeds@ =~= self.embeds@.take(j as int));
            }
        }
        proof {
            assert(attachments@ =~= self.attachments@);
            assert(embeds@ =~= self.embeds@);
        }
        IntermediateMessage {
            content: self.content.clone(),
            tts: self.tts,
            attachments,
            embeds,
            flags: self.flags,
        }
    }

    /// Applies the provider's output: the translated content and, for each
    /// embed, the translated title and description (present exactly where
    /// the original part is present). Attachments, speech flag and platform
    /// flags carry over unchanged.
    pub fn translate(
        &self,
        content: String,
        embed_titles: Vec<Option<String>>,
        embed_descriptions: Vec<Option<String>>,
    ) -> (r: Self)
        requires
            embed_titles@.len() == self.embeds@.len(),
            embed_descriptions@.len() == self.embeds@.len(),
            forall|i: int|
                0 <= i < self.embeds@.len() ==> ((#[trigger] embed_titles@[i]) is Some <==> self
                    .embeds@[i].title is Some),
            forall|i: int|
                0 <= i < self.embeds@.len() ==> ((#[trigger] embed_descriptions@[i]) is Some
                    <==> self.embeds@[i].description is Some),
        ensures
            r.content == content,
            r.tts == self.tts,
            r.attachments@ == self.attachments@,
            r.flags == self.flags,
            r.embeds@.len() == self.embeds@.len(),
            forall|i: int|
                0 <= i < self.embeds@.len() ==> (#[trigger] r.embeds@[i]).title == embed_titles@[i]
                    && r.embeds@[i].description == embed_descriptions@[i],
    {
        let base = self.duplicate();
        let mut embeds: Vec<IntermediateEmbed> = Vec::new();
        let m = self.embeds.len();
        let mut j: usize = 0;
        while j < m
            invariant
                m == self.embeds@.len(),
                embed_titles@.len() == m,
                embed_descriptions@.len() == m,
                j <= m,
                embeds@.len() == j,
                forall|i: int|
                    0 <= i < j ==> (#[trigger] embeds@[i]).title == embed_titles@[i] && embeds@[
                    i].description == embed_descriptions@[i],
            decreases m - j,
        {
            let title = match &embed_titles[j] {
                Some(t) => Some(t.clone()),
                None => None,
            };
            let description = match &embed_descriptions[j] {
                Some(d) => Some(d.clone()),
                None => None,
            };
            embeds.push(IntermediateEmbed { title, description });
            j = j + 1;
        }
        IntermediateMessage {
            content,
            tts: base.tts,
            attachments: base.attachments,
            embeds,
            flags: base.flags,
        }
    }
}

} // verus!
