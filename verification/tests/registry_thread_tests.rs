use translation_relay::codec::{convert_placeholder, revert_placeholder};
use translation_relay::error::RelayError;
use translation_relay::handler::{
    channel_delete, event_handler, guild_delete, EventOutcome, InboundEvent,
};
use translation_relay::intermediate::{IntermediateAttachement, IntermediateEmbed,
    IntermediateMessage};
use translation_relay::relay::{record_mirror, MessageEvent};
use translation_relay::store::{Store, WebhookToken};
use translation_relay::threads::{find_starter_mirror, thread_create, ThreadEvent, ThreadOutcome};
use translation_relay::webhook::{get_webhook, store_identity, ProbeResult, WebhookPlan};

fn token(s: &str) -> WebhookToken {
    WebhookToken::new(s.to_string())
}

fn forum_store() -> Store {
    let mut store = Store::new();
    store
        .register_guild(1, "provider-key-1".to_string(), true, Some(5), None)
        .unwrap();
    store.create_group(1, "help".to_string(), true, true, true).unwrap();
    store
        .enroll_channel("help".to_string(), 100, "EN".to_string(), None, 110, token("ta"))
        .unwrap();
    store
        .enroll_channel("help".to_string(), 200, "FR".to_string(), None, 210, token("tb"))
        .unwrap();
    store
}

#[test]
fn registry_rejects_duplicates_and_unknowns() {
    let mut store = Store::new();
    store.register_guild(1, "key".to_string(), false, None, None).unwrap();
    assert!(matches!(
        store.register_guild(1, "key".to_string(), false, None, None),
        Err(RelayError::AlreadyExists)
    ));
    assert!(matches!(
        store.create_group(7, "news".to_string(), true, true, true),
        Err(RelayError::UnknownGuild)
    ));
    store.create_group(1, "news".to_string(), true, true, true).unwrap();
    assert!(matches!(
        store.create_group(1, "news".to_string(), false, false, false),
        Err(RelayError::DuplicateName)
    ));
    assert!(matches!(
        store.enroll_channel(
            "missing".to_string(),
            100,
            "EN".to_string(),
            None,
            110,
            token("t"),
        ),
        Err(RelayError::UnknownGroup)
    ));
    store
        .enroll_channel("news".to_string(), 100, "EN".to_string(), None, 110, token("t"))
        .unwrap();
    assert!(matches!(
        store.enroll_channel("news".to_string(), 100, "DE".to_string(), None, 111, token("t")),
        Err(RelayError::Persistence)
    ));
}

#[test]
fn enrolling_with_an_unrecognized_tag_persists_no_channel_row() {
    let mut store = Store::new();
    store.register_guild(1, "key".to_string(), false, None, None).unwrap();
    store.create_group(1, "news".to_string(), true, true, true).unwrap();
    let r = store.enroll_channel(
        "news".to_string(),
        300,
        "Klingon".to_string(),
        None,
        310,
        token("t"),
    );
    assert!(matches!(r, Err(RelayError::UnsupportedLanguage)));
    assert!(store.get_channel(300).is_none());
    assert_eq!(store.channels.len(), 0);
}

#[test]
fn find_group_and_siblings_read_paths() {
    let store = forum_store();
    let group = store.find_group_for_channel(100).unwrap();
    assert_eq!(group.group_name, "help");
    assert!(store.find_group_for_channel(999).is_none());
    let siblings = store.find_siblings(100);
    assert_eq!(siblings.len(), 1);
    assert_eq!(siblings[0].channel_id, 200);
    assert_eq!(siblings[0].lang, "FR");
}

#[test]
fn forum_thread_creation_mirrors_title_and_starter_with_urls_restored() {
    let mut store = forum_store();
    let event = ThreadEvent {
        thread_id: 500,
        parent_id: Some(100),
        name: "Read https://docs.test first".to_string(),
        owner_is_self: false,
        has_metadata: true,
    };
    let outcome = thread_create(&mut store, &event).unwrap();
    let (group_name, source_lang, targets) = match outcome {
        ThreadOutcome::Planned { group_name, source_lang, targets, .. } => {
            (group_name, source_lang, targets)
        },
        ThreadOutcome::Ignored => panic!("auto-threading is enabled"),
    };
    assert_eq!(group_name, "500");
    assert_eq!(source_lang, "EN");
    assert_eq!(targets.len(), 1);
    assert_eq!(targets[0].channel_id, 200);
    assert_eq!(targets[0].lang, "FR");

    // The singleton group inherits only the reaction-proxy flag.
    let new_group = store.get_group(&"500".to_string()).unwrap();
    assert!(!new_group.auto_threading);
    assert!(!new_group.translate_title);
    assert!(new_group.reaction_agent);

    // The thread itself is enrolled with the parent's language and webhook.
    let thread_channel = store.get_channel(500).unwrap();
    assert_eq!(thread_channel.group_name, "500");
    assert_eq!(thread_channel.lang, "EN");
    assert_eq!(thread_channel.webhook_id, 110);
    assert_eq!(thread_channel.parent_channel_id, Some(100));

    // The title and the starter go through the codec: the URL survives the
    // provider verbatim.
    let mut title = event.name.clone();
    let urls = convert_placeholder(&mut title);
    assert_eq!(title, "Read <p i=\"0\"></p> first");
    let mut translated_title = String::from("Lisez d'abord <p i=\"0\"></p>");
    revert_placeholder(&mut translated_title, urls);
    assert_eq!(translated_title, "Lisez d'abord https://docs.test");

    // The shell posted the translated thread on the sibling (new thread id
    // 901, starter = the forum thread's head artifact 500): enroll the
    // mirrored thread and record the starter's mirror.
    store
        .enroll_channel(
            group_name.clone(),
            901,
            targets[0].lang.clone(),
            Some(targets[0].channel_id),
            targets[0].webhook_id,
            targets[0].webhook_token.duplicate(),
        )
        .unwrap();
    record_mirror(&mut store, 500, 901, 901).unwrap();
    let mirror = store.get_message(901).unwrap();
    assert_eq!(mirror.original_message_id, Some(500));
    assert_eq!(mirror.channel_id, 901);
}

#[test]
fn thread_creation_filters() {
    let mut store = forum_store();
    // The relay's own thread is not mirrored again.
    let own = ThreadEvent {
        thread_id: 501,
        parent_id: Some(100),
        name: "t".to_string(),
        owner_is_self: true,
        has_metadata: true,
    };
    assert!(matches!(
        thread_create(&mut store, &own).unwrap(),
        ThreadOutcome::Ignored
    ));
    // A thread under an unenrolled parent is silently ignored.
    let outside = ThreadEvent {
        thread_id: 502,
        parent_id: Some(777),
        name: "t".to_string(),
        owner_is_self: false,
        has_metadata: true,
    };
    assert!(matches!(
        thread_create(&mut store, &outside).unwrap(),
        ThreadOutcome::Ignored
    ));
    // Auto-threading off: ignored.
    store.create_group(1, "quiet".to_string(), false, true, true).unwrap();
    store
        .enroll_channel("quiet".to_string(), 300, "DE".to_string(), None, 310, token("tc"))
        .unwrap();
    let under_quiet = ThreadEvent {
        thread_id: 503,
        parent_id: Some(300),
        name: "t".to_string(),
        owner_is_self: false,
        has_metadata: true,
    };
    assert!(matches!(
        thread_create(&mut store, &under_quiet).unwrap(),
        ThreadOutcome::Ignored
    ));
    assert_eq!(store.channels.len(), 3);
}

#[test]
fn non_forum_threads_anchor_to_the_starters_mirror() {
    let mut store = forum_store();
    // The starter message in channel 100 was relayed to channel 200 as 901.
    let event = MessageEvent {
        message_id: 900,
        channel_id: 100,
        author_webhook_id: None,
        is_regular: true,
        message: IntermediateMessage {
            content: "starter".to_string(),
            tts: false,
            attachments: Vec::new(),
            embeds: Vec::new(),
            flags: None,
        },
    };
    translation_relay::relay::message(&mut store, &event).unwrap();
    record_mirror(&mut store, 900, 200, 901).unwrap();
    assert_eq!(find_starter_mirror(&store, 200, 900).unwrap(), 901);
    // A starter that was never mirrored aborts only that sibling.
    assert!(matches!(
        find_starter_mirror(&store, 200, 555),
        Err(RelayError::MirrorNotFound)
    ));
}

#[test]
fn guild_delete_cascades_and_unavailable_is_a_no_op() {
    let mut store = forum_store();
    let event = MessageEvent {
        message_id: 900,
        channel_id: 100,
        author_webhook_id: None,
        is_regular: true,
        message: IntermediateMessage {
            content: "starter".to_string(),
            tts: false,
            attachments: Vec::new(),
            embeds: Vec::new(),
            flags: None,
        },
    };
    translation_relay::relay::message(&mut store, &event).unwrap();

    guild_delete(&mut store, 1, true);
    assert_eq!(store.guilds.len(), 1);
    assert_eq!(store.messages.len(), 1);

    guild_delete(&mut store, 1, false);
    assert_eq!(store.guilds.len(), 0);
    assert_eq!(store.groups.len(), 0);
    assert_eq!(store.channels.len(), 0);
    assert_eq!(store.messages.len(), 0);
}

#[test]
fn channel_delete_cascades_to_its_rows_only() {
    let mut store = forum_store();
    let event = MessageEvent {
        message_id: 900,
        channel_id: 100,
        author_webhook_id: None,
        is_regular: true,
        message: IntermediateMessage {
            content: "starter".to_string(),
            tts: false,
            attachments: Vec::new(),
            embeds: Vec::new(),
            flags: None,
        },
    };
    translation_relay::relay::message(&mut store, &event).unwrap();
    record_mirror(&mut store, 900, 200, 901).unwrap();
    channel_delete(&mut store, 100);
    assert!(store.get_channel(100).is_none());
    assert!(store.get_message(900).is_none());
    assert!(store.get_message(901).is_some());
    assert!(store.get_channel(200).is_some());
}

#[test]
fn event_handler_covers_the_union_with_an_explicit_default() {
    let mut store = forum_store();
    assert!(matches!(
        event_handler(&mut store, &InboundEvent::Ready).unwrap(),
        EventOutcome::NoOp
    ));
    assert!(matches!(
        event_handler(&mut store, &InboundEvent::CacheReady { guild_count: 3 }).unwrap(),
        EventOutcome::NoOp
    ));
    assert!(matches!(
        event_handler(&mut store, &InboundEvent::ShardsReady { total_shards: 1 }).unwrap(),
        EventOutcome::NoOp
    ));
    assert!(matches!(
        event_handler(&mut store, &InboundEvent::Other).unwrap(),
        EventOutcome::NoOp
    ));
    let posted = event_handler(
        &mut store,
        &InboundEvent::Message {
            event: MessageEvent {
                message_id: 900,
                channel_id: 100,
                author_webhook_id: None,
                is_regular: true,
                message: IntermediateMessage {
                    content: "hi".to_string(),
                    tts: false,
                    attachments: Vec::new(),
                    embeds: Vec::new(),
                    flags: None,
                },
            },
        },
    )
    .unwrap();
    assert!(matches!(posted, EventOutcome::Create(_)));
    assert!(matches!(
        event_handler(&mut store, &InboundEvent::MessageUpdate { message_id: 900 }).unwrap(),
        EventOutcome::Edit(_)
    ));
    assert!(matches!(
        event_handler(&mut store, &InboundEvent::MessageDelete { message_id: 900 }).unwrap(),
        EventOutcome::Delete(_)
    ));
    assert!(matches!(
        event_handler(&mut store, &InboundEvent::ChannelDelete { channel_id: 200 }).unwrap(),
        EventOutcome::NoOp
    ));
    assert!(matches!(
        event_handler(&mut store, &InboundEvent::GuildDelete { guild_id: 1, unavailable: false })
            .unwrap(),
        EventOutcome::NoOp
    ));
    assert_eq!(store.guilds.len(), 0);
}

#[test]
fn webhook_probe_decisions_and_identity_update() {
    assert_eq!(get_webhook(&ProbeResult::Valid), WebhookPlan::UseStored);
    assert_eq!(get_webhook(&ProbeResult::Invalid), WebhookPlan::Reprovision);
    assert_eq!(get_webhook(&ProbeResult::Failure), WebhookPlan::Fail);

    let mut store = forum_store();
    store_identity(&mut store, 100, 7777, token("fresh")).unwrap();
    let channel = store.get_channel(100).unwrap();
    assert_eq!(channel.webhook_id, 7777);
    assert_eq!(channel.webhook_token.expose_secret(), "fresh");
    // The other channel is untouched.
    assert_eq!(store.get_channel(200).unwrap().webhook_id, 210);
    assert!(matches!(
        store_identity(&mut store, 999, 1, token("x")),
        Err(RelayError::Persistence)
    ));
}

#[test]
fn intermediate_message_translation_applies_provider_output() {
    let message = IntermediateMessage {
        content: "hello".to_string(),
        tts: true,
        attachments: vec![IntermediateAttachement::new(
            Some("a cat".to_string()),
            "https://img.test/cat.png".to_string(),
        )],
        embeds: vec![IntermediateEmbed { title: Some("title".to_string()), description: None }],
        flags: Some(4),
    };
    let translated = message.translate(
        "bonjour".to_string(),
        vec![Some("titre".to_string())],
        vec![None],
    );
    assert_eq!(translated.content, "bonjour");
    assert!(translated.tts);
    assert_eq!(translated.flags, Some(4));
    assert_eq!(translated.embeds.len(), 1);
    assert_eq!(translated.embeds[0].title.as_deref(), Some("titre"));
    assert_eq!(translated.embeds[0].description, None);
    // Attachments carry over unchanged on the message itself.
    assert_eq!(translated.attachments.len(), 1);
    assert_eq!(translated.attachments[0].url, "https://img.test/cat.png");

    // An attachment's own translation touches only its description.
    let attachment = IntermediateAttachement::new(
        Some("a cat".to_string()),
        "https://img.test/cat.png".to_string(),
    );
    let translated_attachment = attachment.translate(Some("un chat".to_string()));
    assert_eq!(translated_attachment.description.as_deref(), Some("un chat"));
    assert_eq!(translated_attachment.url, "https://img.test/cat.png");
    let bare = IntermediateAttachement::new(None, "u".to_string());
    assert_eq!(bare.translate(None).description, None);
}
