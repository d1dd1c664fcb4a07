//! The decisions around a reminder's life: what an inbound message asks for,
//! what is said back, how a notification reads, and one scheduler tick over
//! a store: the due sweep, then the cleanup.

use vstd::prelude::*;
use vstd::string::{StrSliceExecFns, StringExecFns};
use crate::command::{optional_text, command_at, command_matches, date_end, date_start, parse_reminder_command};
use crate::date_expr::{date_expression_value, parse_date_str_at};
use crate::store::{due_in, pending_in, Reminder, ReminderStore};
use crate::timestamp::{local_now, Timestamp};

verus! {

pub open spec fn help_token() -> Seq<char> {
    seq!['!', 'h', 'e', 'l', 'p']
}

/// What to do with an inbound message.
#[derive(Debug)]
pub enum MessageAction {
    /// Answer with the help text.
    Help,
    /// Not a reminder command, or sent by a bot: do nothing.
    Ignore,
    /// A reminder command whose date expression could not be read: answer
    /// with the rejection and store nothing.
    Reject,
    /// Store this reminder, which has no identity yet.
    Create(Reminder),
}

/// The action that a message of `content` asks for when read at `now`.
pub open spec fn message_action_matches(
    content: Seq<char>,
    author_is_bot: bool,
    user_id: Seq<char>,
    channel_id: Seq<char>,
    message_id: Seq<char>,
    now: Timestamp,
    a: MessageAction,
) -> bool {
    if content == help_token() {
        a is Help
    } else if author_is_bot || command_matches(content, None) {
        a is Ignore
    } else {
        exists|d: Seq<char>, t: Option<Seq<char>>|
            command_matches(content, Some((d, t))) && match a {
                MessageAction::Reject => date_expression_value(d, now) is None,
                MessageAction::Create(rec) => {
                    &&& date_expression_value(d, now) == Some(rec.trigger_time)
                    &&& rec.id is None
                    &&& rec.user_id@ == user_id
                    &&& rec.channel_id@ == channel_id
                    &&& rec.message_id@ == message_id
                    &&& rec.message_content@ == match t {
                        Some(x) => x,
                        None => Seq::<char>::empty(),
                    }
                },
                _ => false,
            }
    }
}

fn is_help(content: &str) -> (r: bool)
    ensures
        r == (content@ == help_token()),
{
    let n = content.unicode_len();
    if n != 5 {
        return false;
    }
    let token = ['!', 'h', 'e', 'l', 'p'];
    assert(token@ == help_token());
    let mut k: usize = 0;
    while k < 5
        invariant
            n == content@.len() == 5,
            k <= 5,
            token@ == help_token(),
            forall|m: int| 0 <= m < k ==> content@[m] == #[trigger] help_token()[m],
        decreases 5 - k,
    {
        if content.get_char(k) != token[k] {
            return false;
        }
        k = k + 1;
    }
    assert(content@ =~= help_token());
    true
}

/// Decides what an inbound message asks for, reading any relative date
/// expression at `now`.
pub fn decide_message_at(
    content: &str,
    author_is_bot: bool,
    user_id: String,
    channel_id: String,
    message_id: String,
    now: Timestamp,
) -> (r: MessageAction)
    ensures
        message_action_matches(content@, author_is_bot, user_id@, channel_id@, message_id@, now, r),
{
    if is_help(content) {
        return MessageAction::Help;
    }
    if author_is_bot {
        return MessageAction::Ignore;
    }
    match parse_reminder_command(content) {
        None => MessageAction::Ignore,
        Some((date_str, text)) => {
            let ghost d = date_str@;
            let ghost t = optional_text(text);
            assert(!command_matches(content@, None)) by {
                let i = choose|i: int|
                    command_at(content@, i) && d == content@.subrange(
                        date_start(content@, i),
                        date_end(content@, i),
                    );
                assert(command_at(content@, i));
            }
            match parse_date_str_at(date_str.as_str(), now) {
                None => {
                    assert(command_matches(content@, Some((d, t))));
                    MessageAction::Reject
                },
                Some(trigger_time) => {
                    let message_content = match text {
                        Some(x) => x,
                        None => String::new(),
                    };
                    let rec = Reminder {
                        id: None,
                        user_id,
                        message_id,
                        message_content,
                        trigger_time,
                        channel_id,
                    };
                    assert(command_matches(content@, Some((d, t))));
                    MessageAction::Create(rec)
                },
            }
        },
    }
}

/// Decides what an inbound message asks for against the local clock.
pub fn decide_message(
    content: &str,
    author_is_bot: bool,
    user_id: String,
    channel_id: String,
    message_id: String,
) -> (r: MessageAction)
    ensures
        exists|now: Timestamp|
            message_action_matches(
                content@,
                author_is_bot,
                user_id@,
                channel_id@,
                message_id@,
                now,
                r,
            ),
{
    let now = local_now();
    decide_message_at(content, author_is_bot, user_id, channel_id, message_id, now)
}
/// The answer to a `!help` message.
pub fn help_text() -> (r: String)
    ensures
        r@ == "I can remind you about something in the future. To set a reminder, use the `!remindme` command followed by a date and time. For example, `!remindme 2021-01-01-12-00` or `!remindme 1d` You can also add a message to the reminder, like this: `!remindme 2021-01-01-12-00 don't forget to call mom`"@,
{
    String::from_str(
        "I can remind you about something in the future. To set a reminder, use the `!remindme` command followed by a date and time. For example, `!remindme 2021-01-01-12-00` or `!remindme 1d` You can also add a message to the reminder, like this: `!remindme 2021-01-01-12-00 don't forget to call mom`",
    )
}

/// The answer to a reminder command whose date expression could not be read.
pub fn rejection_text() -> (r: String)
    ensures
        r@ == "Invalid date format"@,
{
    String::from_str("Invalid date format")
}

/// The answer once the store has taken a reminder, or not: a confirmation
/// on success; on failure nothing is said to the requester.
pub fn creation_reply(stored: bool) -> (r: Option<String>)
    ensures
        stored ==> r is Some && r->0@ == "Reminder set successfully"@,
        !stored ==> r is None,
{
    if stored {
        Some(String::from_str("Reminder set successfully"))
    } else {
        None
    }
}

/// The text of a notification: it mentions the requester, repeats the
/// reminder's text and links back to the message that asked for it.
pub open spec fn notification_of(mention: Seq<char>, text: Seq<char>, link: Seq<char>) -> Seq<
    char,
> {
    "Hey "@ + mention + ", you asked me to remind you about this: "@ + text + " reference message: "@
        + link
}

/// Writes the notification for a reminder whose text is `text`, given how
/// the requester is mentioned and the link to the message that asked for it.
pub fn notification_text(mention: &str, text: &str, link: &str) -> (r: String)
    ensures
        r@ == notification_of(mention@, text@, link@),
{
    let mut r = String::from_str("Hey ");
    r.append(mention);
    r.append(", you asked me to remind you about this: ");
    r.append(text);
    r.append(" reference message: ");
    r.append(link);
    r
}

/// One tick of the scheduler over a store: the due sweep finds what is due
/// at `now` and hands it out for dispatch, then the cleanup removes it.
/// Whether a dispatch succeeds has no bearing on the removal.
pub fn run_tick(store: &mut ReminderStore, now: Timestamp) -> (r: Vec<Reminder>)
    requires
        old(store).wf(),
    ensures
        final(store).wf(),
        r@.map_values(|x: Reminder| x@) == due_in(old(store)@, now),
        final(store)@ == pending_in(old(store)@, now),
{
    let due = store.find_due(now);
    store.delete_due(now);
    due
}

} // verus!
