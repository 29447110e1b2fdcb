use translation_relay::codec::{convert_placeholder, revert_placeholder};
use translation_relay::error::RelayError;
use translation_relay::intermediate::IntermediateMessage;
use translation_relay::relay::{
    complete_create, message, message_delete, message_update, record_mirror, CreateOutcome,
    DeleteOutcome, DispatchOutcome, EditOutcome, MessageEvent,
};
use translation_relay::store::{Store, WebhookToken};

const GUILD: u64 = 1;
const CHANNEL_A: u64 = 100;
const CHANNEL_B: u64 = 200;
const WEBHOOK_A: u64 = 110;
const WEBHOOK_B: u64 = 210;

fn payload(content: &str) -> IntermediateMessage {
    IntermediateMessage {
        content: content.to_string(),
        tts: false,
        attachments: Vec::new(),
        embeds: Vec::new(),
        flags: None,
    }
}

/// Guild 1 with group `news`: channel A in English, channel B in French.
fn news_store() -> Store {
    let mut store = Store::new();
    store
        .register_guild(GUILD, "provider-key-1".to_string(), false, None, None)
        .unwrap();
    store
        .create_group(GUILD, "news".to_string(), true, true, true)
        .unwrap();
    store
        .enroll_channel(
            "news".to_string(),
            CHANNEL_A,
            "EN".to_string(),
            None,
            WEBHOOK_A,
            WebhookToken::new("token-a".to_string()),
        )
        .unwrap();
    store
        .enroll_channel(
            "news".to_string(),
            CHANNEL_B,
            "FR".to_string(),
            None,
            WEBHOOK_B,
            WebhookToken::new("token-b".to_string()),
        )
        .unwrap();
    store
}

#[test]
fn posting_in_a_reaches_b_translated_with_url_verbatim() {
    let mut store = news_store();
    let event = MessageEvent {
        message_id: 900,
        channel_id: CHANNEL_A,
        author_webhook_id: None,
        is_regular: true,
        message: payload("Check https://x.test now"),
    };
    let outcome = message(&mut store, &event).unwrap();
    let (root_id, source_lang, tasks) = match outcome {
        CreateOutcome::Planned { root_id, source_lang, tasks, .. } => {
            (root_id, source_lang, tasks)
        },
        CreateOutcome::Ignored => panic!("the event must be relayed"),
    };
    assert_eq!(root_id, 900);
    assert_eq!(source_lang, "EN");
    assert_eq!(tasks.len(), 1);
    assert_eq!(tasks[0].channel_id, CHANNEL_B);
    assert_eq!(tasks[0].lang, "FR");
    assert_eq!(tasks[0].webhook_id, WEBHOOK_B);

    // The root mapping row is already persisted, with no origin.
    let root_row = store.get_message(900).unwrap();
    assert_eq!(root_row.original_message_id, None);
    assert_eq!(root_row.channel_id, CHANNEL_A);

    // Protect, "translate", restore: the provider sees only the marker.
    let mut text = event.message.content.clone();
    let urls = convert_placeholder(&mut text);
    assert_eq!(text, "Check <p i=\"0\"></p> now");
    let mut translated = String::from("Vérifiez <p i=\"0\"></p> maintenant");
    revert_placeholder(&mut translated, urls);
    assert_eq!(translated, "Vérifiez https://x.test maintenant");
    assert!(translated.contains("https://x.test"));

    // The sibling's dispatch succeeded: exactly one new row on B, with the
    // root as origin.
    let recorded = complete_create(
        &mut store,
        root_id,
        &tasks,
        &vec![DispatchOutcome::Delivered(901)],
    );
    assert_eq!(recorded, 1);
    let mirror_rows: Vec<_> = store
        .messages
        .iter()
        .filter(|m| m.channel_id == CHANNEL_B && m.original_message_id == Some(900))
        .collect();
    assert_eq!(mirror_rows.len(), 1);
    assert_eq!(mirror_rows[0].message_id, 901);
}

#[test]
fn deleting_the_root_removes_both_rows_and_owes_one_call() {
    let mut store = news_store();
    let event = MessageEvent {
        message_id: 900,
        channel_id: CHANNEL_A,
        author_webhook_id: None,
        is_regular: true,
        message: payload("Check https://x.test now"),
    };
    let outcome = message(&mut store, &event).unwrap();
    let tasks = match outcome {
        CreateOutcome::Planned { tasks, .. } => tasks,
        CreateOutcome::Ignored => panic!("the event must be relayed"),
    };
    complete_create(&mut store, 900, &tasks, &vec![DispatchOutcome::Delivered(901)]);

    let deleted = message_delete(&mut store, 900);
    match deleted {
        DeleteOutcome::Removed { was_root, delete_calls } => {
            assert!(was_root);
            assert_eq!(delete_calls.len(), 1);
            assert_eq!(delete_calls[0].channel_id, CHANNEL_B);
            assert_eq!(delete_calls[0].message_id, 901);
        },
        DeleteOutcome::NotTracked => panic!("the root was tracked"),
    }
    assert!(store.get_message(900).is_none());
    assert!(store.get_message(901).is_none());
    assert_eq!(store.messages.len(), 0);
}

#[test]
fn deleting_a_mirror_removes_only_its_own_row() {
    let mut store = news_store();
    let event = MessageEvent {
        message_id: 900,
        channel_id: CHANNEL_A,
        author_webhook_id: None,
        is_regular: true,
        message: payload("hello"),
    };
    message(&mut store, &event).unwrap();
    record_mirror(&mut store, 900, CHANNEL_B, 901).unwrap();
    match message_delete(&mut store, 901) {
        DeleteOutcome::Removed { was_root, delete_calls } => {
            assert!(!was_root);
            assert!(delete_calls.is_empty());
        },
        DeleteOutcome::NotTracked => panic!("the mirror was tracked"),
    }
    assert!(store.get_message(900).is_some());
    assert!(store.get_message(901).is_none());
}

#[test]
fn deleting_an_untracked_artifact_changes_nothing() {
    let mut store = news_store();
    match message_delete(&mut store, 424242) {
        DeleteOutcome::NotTracked => {},
        DeleteOutcome::Removed { .. } => panic!("nothing was tracked"),
    }
    assert_eq!(store.messages.len(), 0);
}

#[test]
fn a_relay_never_dispatches_back_to_the_source() {
    let mut store = news_store();
    let event = MessageEvent {
        message_id: 900,
        channel_id: CHANNEL_A,
        author_webhook_id: None,
        is_regular: true,
        message: payload("hello"),
    };
    match message(&mut store, &event).unwrap() {
        CreateOutcome::Planned { tasks, .. } => {
            assert!(tasks.iter().all(|t| t.channel_id != CHANNEL_A));
            assert_eq!(tasks.len(), 1);
        },
        CreateOutcome::Ignored => panic!("the event must be relayed"),
    }
}

#[test]
fn a_message_from_the_channels_own_webhook_is_never_relayed() {
    let mut store = news_store();
    let event = MessageEvent {
        message_id: 900,
        channel_id: CHANNEL_A,
        author_webhook_id: Some(WEBHOOK_A),
        is_regular: true,
        message: payload("already a mirror"),
    };
    match message(&mut store, &event).unwrap() {
        CreateOutcome::Ignored => {},
        CreateOutcome::Planned { .. } => panic!("loop prevention must hold"),
    }
    // Nothing was persisted either.
    assert_eq!(store.messages.len(), 0);

    // A message from some other webhook is relayed normally.
    let other = MessageEvent {
        message_id: 901,
        channel_id: CHANNEL_A,
        author_webhook_id: Some(999),
        is_regular: true,
        message: payload("from another bot"),
    };
    match message(&mut store, &other).unwrap() {
        CreateOutcome::Planned { .. } => {},
        CreateOutcome::Ignored => panic!("an unrelated webhook is not the relay"),
    }
}

#[test]
fn system_messages_and_forum_heads_are_ignored() {
    let mut store = news_store();
    let system = MessageEvent {
        message_id: 900,
        channel_id: CHANNEL_A,
        author_webhook_id: None,
        is_regular: false,
        message: payload("user joined"),
    };
    assert!(matches!(
        message(&mut store, &system).unwrap(),
        CreateOutcome::Ignored
    ));
    let head = MessageEvent {
        message_id: CHANNEL_A,
        channel_id: CHANNEL_A,
        author_webhook_id: None,
        is_regular: true,
        message: payload("head"),
    };
    assert!(matches!(
        message(&mut store, &head).unwrap(),
        CreateOutcome::Ignored
    ));
    let unenrolled = MessageEvent {
        message_id: 900,
        channel_id: 12345,
        author_webhook_id: None,
        is_regular: true,
        message: payload("outside any group"),
    };
    assert!(matches!(
        message(&mut store, &unenrolled).unwrap(),
        CreateOutcome::Ignored
    ));
    assert_eq!(store.messages.len(), 0);
}

#[test]
fn editing_a_root_lists_every_recorded_mirror() {
    let mut store = news_store();
    let event = MessageEvent {
        message_id: 900,
        channel_id: CHANNEL_A,
        author_webhook_id: None,
        is_regular: true,
        message: payload("original"),
    };
    message(&mut store, &event).unwrap();
    record_mirror(&mut store, 900, CHANNEL_B, 901).unwrap();
    match message_update(&store, 900) {
        EditOutcome::Root { mirrors, source_lang, deepl_key } => {
            assert_eq!(mirrors.len(), 1);
            assert_eq!(mirrors[0].channel_id, CHANNEL_B);
            assert_eq!(mirrors[0].message_id, 901);
            assert_eq!(source_lang, "EN");
            assert_eq!(deepl_key, "provider-key-1");
        },
        EditOutcome::Ignored => panic!("the root is tracked"),
    }
    // Editing the mirror, or an untracked artifact, is ignored.
    assert!(matches!(message_update(&store, 901), EditOutcome::Ignored));
    assert!(matches!(message_update(&store, 5555), EditOutcome::Ignored));
}

#[test]
fn sibling_failures_are_isolated() {
    let mut store = news_store();
    store
        .enroll_channel(
            "news".to_string(),
            300,
            "DE".to_string(),
            None,
            310,
            WebhookToken::new("token-c".to_string()),
        )
        .unwrap();
    let event = MessageEvent {
        message_id: 900,
        channel_id: CHANNEL_A,
        author_webhook_id: None,
        is_regular: true,
        message: payload("hello"),
    };
    let tasks = match message(&mut store, &event).unwrap() {
        CreateOutcome::Planned { tasks, .. } => tasks,
        CreateOutcome::Ignored => panic!("the event must be relayed"),
    };
    assert_eq!(tasks.len(), 2);
    // B's dispatch fails, the German channel's succeeds: B's failure does
    // not block the other row, and the root row stays.
    let recorded = complete_create(
        &mut store,
        900,
        &tasks,
        &vec![DispatchOutcome::Failed, DispatchOutcome::Delivered(902)],
    );
    assert_eq!(recorded, 1);
    assert!(store.get_message(900).is_some());
    assert!(store.get_message(902).is_some());
    assert_eq!(store.messages.len(), 2);
}

#[test]
fn duplicate_root_insert_is_a_persistence_error() {
    let mut store = news_store();
    let event = MessageEvent {
        message_id: 900,
        channel_id: CHANNEL_A,
        author_webhook_id: None,
        is_regular: true,
        message: payload("hello"),
    };
    message(&mut store, &event).unwrap();
    assert!(matches!(
        message(&mut store, &event),
        Err(RelayError::Persistence)
    ));
}
