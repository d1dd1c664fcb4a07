use remindme::engine::{
    creation_reply, decide_message, decide_message_at, help_text, notification_text,
    rejection_text, run_tick, MessageAction,
};
use remindme::store::{copy_reminder, Reminder, ReminderStore, StoreError};
use remindme::timestamp::Timestamp;

const SECOND: i64 = 1_000_000;

fn at_seconds(s: i64) -> Timestamp {
    Timestamp { micros: s * SECOND }
}

fn reminder(user: &str, text: &str, trigger: Timestamp) -> Reminder {
    Reminder {
        id: None,
        user_id: user.to_string(),
        message_id: format!("m-{}", user),
        message_content: text.to_string(),
        trigger_time: trigger,
        channel_id: "c-1".to_string(),
    }
}

fn ids(v: &[Reminder]) -> Vec<Option<i32>> {
    v.iter().map(|r| r.id).collect()
}

#[test]
fn create_assigns_increasing_identities() {
    let mut store = ReminderStore::new();
    let mut candidate = reminder("u1", "first", at_seconds(10));
    candidate.id = Some(77);
    let a = store.create(candidate).unwrap();
    let b = store.create(reminder("u2", "", at_seconds(5))).unwrap();
    assert_eq!(a.id, Some(1));
    assert_eq!(b.id, Some(2));
    assert_eq!(a.user_id, "u1");
    assert_eq!(a.message_content, "first");
    assert_eq!(b.message_content, "");
    assert_eq!(store.len(), 2);
}

#[test]
fn find_due_is_strict_and_keeps_order() {
    let mut store = ReminderStore::new();
    store.create(reminder("u1", "a", at_seconds(30))).unwrap();
    store.create(reminder("u2", "b", at_seconds(10))).unwrap();
    store.create(reminder("u3", "c", at_seconds(20))).unwrap();
    assert_eq!(ids(&store.find_due(at_seconds(10))), Vec::<Option<i32>>::new());
    assert_eq!(ids(&store.find_due(at_seconds(20))), vec![Some(2)]);
    assert_eq!(ids(&store.find_due(at_seconds(31))), vec![Some(1), Some(2), Some(3)]);
    assert_eq!(store.len(), 3);
}

#[test]
fn find_due_twice_gives_same_result() {
    let mut store = ReminderStore::new();
    store.create(reminder("u1", "a", at_seconds(1))).unwrap();
    store.create(reminder("u2", "b", at_seconds(50))).unwrap();
    store.create(reminder("u3", "c", at_seconds(2))).unwrap();
    let first = store.find_due(at_seconds(40));
    let second = store.find_due(at_seconds(40));
    assert_eq!(ids(&first), ids(&second));
    assert_eq!(ids(&first), vec![Some(1), Some(3)]);
}

#[test]
fn round_trip_keeps_every_field() {
    let mut store = ReminderStore::new();
    let candidate = Reminder {
        id: None,
        user_id: "123456789".to_string(),
        message_id: "987654321".to_string(),
        message_content: "water the plants".to_string(),
        trigger_time: at_seconds(1_000),
        channel_id: "555".to_string(),
    };
    let kept = copy_reminder(&candidate);
    let stored = store.create(candidate).unwrap();
    let found = store.find_due(at_seconds(1_001));
    assert_eq!(found.len(), 1);
    let f = &found[0];
    assert_eq!(f.id, stored.id);
    assert!(f.id.is_some());
    assert_eq!(f.user_id, kept.user_id);
    assert_eq!(f.message_id, kept.message_id);
    assert_eq!(f.message_content, kept.message_content);
    assert_eq!(f.trigger_time, kept.trigger_time);
    assert_eq!(f.channel_id, kept.channel_id);
}

#[test]
fn delete_due_leaves_nothing_due() {
    let mut store = ReminderStore::new();
    store.create(reminder("u1", "a", at_seconds(1))).unwrap();
    store.create(reminder("u2", "b", at_seconds(100))).unwrap();
    store.create(reminder("u3", "c", at_seconds(2))).unwrap();
    let removed = store.delete_due(at_seconds(50));
    assert_eq!(removed, 2);
    assert_eq!(store.find_due(at_seconds(50)).len(), 0);
    assert_eq!(ids(&store.find_due(at_seconds(101))), vec![Some(2)]);
    assert_eq!(store.delete_due(at_seconds(50)), 0);
    let next = store.create(reminder("u4", "d", at_seconds(3))).unwrap();
    assert_eq!(next.id, Some(4));
}

#[test]
fn store_error_variant() {
    let e = StoreError::IdentitiesExhausted;
    assert_eq!(e, StoreError::IdentitiesExhausted);
}

#[test]
fn help_message_is_answered() {
    let a = decide_message_at("!help", false, "u".to_string(), "c".to_string(), "m".to_string(), at_seconds(0));
    assert!(matches!(a, MessageAction::Help));
    assert!(help_text().starts_with("I can remind you about something in the future. "));
    assert!(help_text().ends_with("`!remindme 2021-01-01-12-00 don't forget to call mom`"));
}

#[test]
fn bots_and_other_messages_are_ignored() {
    let now = at_seconds(0);
    let from_bot = decide_message_at("!remindme 1m hi", true, "u".to_string(), "c".to_string(), "m".to_string(), now);
    assert!(matches!(from_bot, MessageAction::Ignore));
    let chatter = decide_message_at("good morning", false, "u".to_string(), "c".to_string(), "m".to_string(), now);
    assert!(matches!(chatter, MessageAction::Ignore));
    let help_with_text = decide_message_at("!help me", false, "u".to_string(), "c".to_string(), "m".to_string(), now);
    assert!(matches!(help_with_text, MessageAction::Ignore));
}

#[test]
fn replies_to_requester() {
    assert_eq!(rejection_text(), "Invalid date format");
    assert_eq!(creation_reply(true), Some("Reminder set successfully".to_string()));
    assert_eq!(creation_reply(false), None);
}

#[test]
fn notification_mentions_text_and_link() {
    let t = notification_text("<@42>", "test message", "https://discord.com/channels/1/7/99");
    assert_eq!(
        t,
        "Hey <@42>, you asked me to remind you about this: test message reference message: https://discord.com/channels/1/7/99"
    );
}

#[test]
fn scenario_reminder_in_one_minute() {
    let t = at_seconds(1_700_000_000);
    let action = decide_message_at(
        "!remindme 1m test message",
        false,
        "42".to_string(),
        "7".to_string(),
        "99".to_string(),
        t,
    );
    let candidate = match action {
        MessageAction::Create(r) => r,
        other => panic!("expected a reminder, got {:?}", other),
    };
    assert_eq!(candidate.trigger_time, at_seconds(1_700_000_060));
    assert_eq!(candidate.message_content, "test message");
    assert_eq!(candidate.user_id, "42");
    assert_eq!(candidate.channel_id, "7");
    assert_eq!(candidate.message_id, "99");
    assert_eq!(candidate.id, None);

    let mut store = ReminderStore::new();
    let stored = store.create(candidate);
    assert!(stored.is_ok());
    assert_eq!(creation_reply(stored.is_ok()), Some("Reminder set successfully".to_string()));

    // Not yet due one second before the trigger time.
    assert_eq!(run_tick(&mut store, at_seconds(1_700_000_059)).len(), 0);
    assert_eq!(store.len(), 1);

    let dispatched = run_tick(&mut store, at_seconds(1_700_000_061));
    assert_eq!(dispatched.len(), 1);
    let text = notification_text("<@42>", &dispatched[0].message_content, "link");
    assert!(text.contains("test message"));
    assert_eq!(store.len(), 0);
    assert_eq!(run_tick(&mut store, at_seconds(1_700_000_121)).len(), 0);
}

#[test]
fn scenario_malformed_date_is_rejected() {
    let mut store = ReminderStore::new();
    let action = decide_message(
        "!remindme not-a-date",
        false,
        "42".to_string(),
        "7".to_string(),
        "99".to_string(),
    );
    assert!(matches!(action, MessageAction::Reject));
    if let MessageAction::Create(r) = action {
        store.create(r).unwrap();
    }
    assert_eq!(store.len(), 0);
    assert_eq!(rejection_text(), "Invalid date format");
    let invalid_day = decide_message(
        "!remindme 2021-02-30-12-00 too late",
        false,
        "42".to_string(),
        "7".to_string(),
        "99".to_string(),
    );
    assert!(matches!(invalid_day, MessageAction::Reject));
}

#[test]
fn scenario_two_requesters_same_instant() {
    let t = at_seconds(2_000);
    let mut store = ReminderStore::new();
    let mut created = Vec::new();
    for (user, expr) in [("alice", "!remindme 1m from alice"), ("bob", "!remindme 2m from bob")] {
        match decide_message_at(expr, false, user.to_string(), "c".to_string(), "m".to_string(), t) {
            MessageAction::Create(r) => created.push(store.create(r).unwrap()),
            other => panic!("expected a reminder, got {:?}", other),
        }
    }
    assert_eq!(created.len(), 2);
    assert_ne!(created[0].id, created[1].id);

    let first = store.find_due(at_seconds(2_061));
    assert_eq!(ids(&first), vec![created[0].id]);
    assert_eq!(first[0].user_id, "alice");
    assert_eq!(store.delete_due(at_seconds(2_061)), 1);

    let second = store.find_due(at_seconds(2_121));
    assert_eq!(ids(&second), vec![created[1].id]);
    assert_eq!(second[0].user_id, "bob");
    assert_eq!(store.delete_due(at_seconds(2_121)), 1);
    assert_eq!(store.len(), 0);
}

#[test]
fn command_without_text_stores_empty_text() {
    let t = at_seconds(1_000);
    match decide_message_at("!remindme 2h", false, "u".to_string(), "c".to_string(), "m".to_string(), t) {
        MessageAction::Create(r) => {
            assert_eq!(r.message_content, "");
            assert_eq!(r.trigger_time, at_seconds(1_000 + 7_200));
        }
        other => panic!("expected a reminder, got {:?}", other),
    }
}
