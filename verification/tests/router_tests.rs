use reminder_bot::bot::{Bot, Effect};
use reminder_bot::reminder::ParseError;

const OWNER: u64 = 42;
const USER: u64 = 7;
const CHANNEL: u64 = 100;
const MSG: u64 = 200;

#[test]
fn unknown_command_is_ignored() {
    let mut bot = Bot::new(OWNER);
    let e = bot.handle_message(0, USER, CHANNEL, MSG, b"!frobnicate now");
    assert_eq!(e, Effect::UnknownCommand);
    // The router is untouched: a real command still works afterwards.
    let e = bot.handle_message(1, USER, CHANNEL, MSG, b"!hi");
    assert_eq!(
        e,
        Effect::ReplyHi {
            channel_id: CHANNEL,
            message_id: MSG
        }
    );
}

#[test]
fn unprefixed_text_is_no_command() {
    let mut bot = Bot::new(OWNER);
    let e = bot.handle_message(0, USER, CHANNEL, MSG, b"hi everyone");
    assert_eq!(e, Effect::Silent);
}

#[test]
fn rate_limited_second_call_within_delay() {
    let mut bot = Bot::new(OWNER);
    let e = bot.handle_message(0, USER, CHANNEL, MSG, b"!hi");
    assert_eq!(
        e,
        Effect::ReplyHi {
            channel_id: CHANNEL,
            message_id: MSG
        }
    );
    // Second call 3000 ms later: rejected with one notice, 2000 ms remain.
    let e = bot.handle_message(3000, USER, CHANNEL, MSG, b"!hi");
    assert_eq!(
        e,
        Effect::SayTryAgain {
            channel_id: CHANNEL,
            retry_after_ms: 2000
        }
    );
    // The rejection did not advance the bucket: at 5000 ms it succeeds.
    let e = bot.handle_message(5000, USER, CHANNEL, MSG, b"!hi");
    assert_eq!(
        e,
        Effect::ReplyHi {
            channel_id: CHANNEL,
            message_id: MSG
        }
    );
}

#[test]
fn rate_limit_is_per_user() {
    let mut bot = Bot::new(OWNER);
    let e = bot.handle_message(0, USER, CHANNEL, MSG, b"!hi");
    assert!(matches!(e, Effect::ReplyHi { .. }));
    // Another user right away is not limited by the first user's bucket.
    let e = bot.handle_message(1, USER + 1, CHANNEL, MSG, b"!hi");
    assert!(matches!(e, Effect::ReplyHi { .. }));
    // The first user still is.
    let e = bot.handle_message(2, USER, CHANNEL, MSG, b"!hi");
    assert!(matches!(e, Effect::SayTryAgain { .. }));
}

#[test]
fn owner_only_command_denied_for_others() {
    let mut bot = Bot::new(OWNER);
    let e = bot.handle_message(0, USER, CHANNEL, MSG, b"!hal");
    assert_eq!(e, Effect::Silent);
    let e = bot.handle_message(0, OWNER, CHANNEL, MSG, b"!hal");
    assert_eq!(e, Effect::SayHal { channel_id: CHANNEL });
}

#[test]
fn reminder_alias_matches() {
    let mut bot = Bot::new(OWNER);
    let e = bot.handle_message(0, USER, CHANNEL, MSG, b"!rm 1000 false hello");
    assert_eq!(e, Effect::ReminderScheduled { task_id: 0 });
    let e = bot.handle_message(0, USER, CHANNEL, MSG, b"!rme 1000 false hello");
    assert_eq!(e, Effect::ReminderScheduled { task_id: 1 });
}

#[test]
fn reminder_argument_errors() {
    let mut bot = Bot::new(OWNER);
    let e = bot.handle_message(0, USER, CHANNEL, MSG, b"!rm soon false hello");
    assert_eq!(
        e,
        Effect::ReminderRejected {
            reason: ParseError::InvalidDelay
        }
    );
    let e = bot.handle_message(0, USER, CHANNEL, MSG, b"!rm");
    assert_eq!(
        e,
        Effect::ReminderRejected {
            reason: ParseError::InvalidDelay
        }
    );
    let e = bot.handle_message(0, USER, CHANNEL, MSG, b"!rm 18446744073709551616 false x");
    assert_eq!(
        e,
        Effect::ReminderRejected {
            reason: ParseError::DelayTooLarge
        }
    );
    let e = bot.handle_message(0, USER, CHANNEL, MSG, b"!rm 1000 maybe hello");
    assert_eq!(
        e,
        Effect::ReminderRejected {
            reason: ParseError::InvalidRepeat
        }
    );
    let e = bot.handle_message(0, USER, CHANNEL, MSG, b"!rm 1000");
    assert_eq!(
        e,
        Effect::ReminderRejected {
            reason: ParseError::InvalidRepeat
        }
    );
}

#[test]
fn reminder_delay_overflowing_the_clock_is_rejected() {
    let mut bot = Bot::new(OWNER);
    // The delay parses, but now + delay does not fit the clock.
    let e = bot.handle_message(10, USER, CHANNEL, MSG, b"!rm 18446744073709551615 false x");
    assert_eq!(
        e,
        Effect::ReminderRejected {
            reason: ParseError::DelayTooLarge
        }
    );
}
