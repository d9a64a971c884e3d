use reminder_bot::bot::{Bot, Effect};
use reminder_bot::reminder::{SendOutcome, ThanksAction};

const OWNER: u64 = 42;
const USER: u64 = 7;
const CHANNEL: u64 = 100;
const MSG: u64 = 200;

#[test]
fn reminder_once_then_thanks_for_one_reaction() {
    let mut bot = Bot::new(OWNER);
    let e = bot.handle_message(0, USER, CHANNEL, MSG, b"!rm 1000 false hello");
    assert!(matches!(e, Effect::ReminderScheduled { .. }));

    // Never before 1000 ms.
    assert!(bot.scheduler.pop_due(999).is_none());
    let task = bot.scheduler.pop_due(1000).expect("fires at 1000");
    assert_eq!(task.fire_time, 1000);
    assert_eq!(task.action.text, b"hello".to_vec());
    assert_eq!(task.action.channel_id, CHANNEL);
    assert!(!task.action.repeat);

    // The send succeeds; the platform assigned the sent message id 555.
    bot.task_fired(task, SendOutcome::Sent { message_id: 555 }, 1000);

    // Not repeating: no further firing ever.
    assert!(bot.scheduler.pop_due(u64::MAX).is_none());

    // The invoking user reacts to the sent message: exactly one thanks.
    let a = bot.reaction_added(555, USER).expect("trigger fires");
    assert_eq!(a, ThanksAction { channel_id: CHANNEL });

    // A second reaction from the same user produces nothing further.
    assert!(bot.reaction_added(555, USER).is_none());
}

#[test]
fn reaction_by_another_user_or_message_is_ignored() {
    let mut bot = Bot::new(OWNER);
    let _ = bot.handle_message(0, USER, CHANNEL, MSG, b"!rm 100 false hey");
    let task = bot.scheduler.pop_due(100).expect("fires");
    bot.task_fired(task, SendOutcome::Sent { message_id: 555 }, 100);
    assert!(bot.reaction_added(555, USER + 1).is_none());
    assert!(bot.reaction_added(556, USER).is_none());
    assert!(bot.reaction_added(555, USER).is_some());
}

#[test]
fn repeating_reminder_fires_again_with_the_same_delay() {
    let mut bot = Bot::new(OWNER);
    let e = bot.handle_message(0, USER, CHANNEL, MSG, b"!rm 500 true ping");
    assert!(matches!(e, Effect::ReminderScheduled { .. }));

    // First fire at or after 500 ms.
    assert!(bot.scheduler.pop_due(499).is_none());
    let task = bot.scheduler.pop_due(500).expect("first fire");
    assert_eq!(task.action.text, b"ping".to_vec());
    assert!(task.action.repeat);
    let id = task.id;
    bot.task_fired(task, SendOutcome::Sent { message_id: 900 }, 500);

    // Second fire at or after 1000 ms from the first fire's time.
    assert!(bot.scheduler.pop_due(999).is_none());
    let task = bot.scheduler.pop_due(1000).expect("second fire");
    assert_eq!(task.id, id);
    assert_eq!(task.fire_time, 1000);
    bot.task_fired(task, SendOutcome::Sent { message_id: 901 }, 1000);

    // And so on, for a bounded number of ticks.
    let mut now = 1000;
    for _ in 0..5 {
        now += 500;
        let task = bot.scheduler.pop_due(now).expect("keeps repeating");
        bot.task_fired(task, SendOutcome::Sent { message_id: 902 }, now);
    }
}

#[test]
fn failed_send_retries_five_seconds_later() {
    let mut bot = Bot::new(OWNER);
    let _ = bot.handle_message(0, USER, CHANNEL, MSG, b"!rm 1000 false hello");

    let task = bot.scheduler.pop_due(1000).expect("fires at 1000");
    // The send fails: the task retries 5000 ms later, and no trigger is
    // registered for this cycle.
    bot.task_fired(task, SendOutcome::Failed, 1000);
    assert!(bot.reaction_added(555, USER).is_none());

    assert!(bot.scheduler.pop_due(5999).is_none());
    let task = bot.scheduler.pop_due(6000).expect("retries at 6000");
    assert_eq!(task.fire_time, 6000);

    // The retry succeeds: the task is done and the trigger is live.
    bot.task_fired(task, SendOutcome::Sent { message_id: 555 }, 6000);
    assert!(bot.scheduler.pop_due(u64::MAX).is_none());
    assert!(bot.reaction_added(555, USER).is_some());
}

#[test]
fn failed_send_of_a_repeating_reminder_also_retries() {
    let mut bot = Bot::new(OWNER);
    let _ = bot.handle_message(0, USER, CHANNEL, MSG, b"!rm 500 true ping");
    let task = bot.scheduler.pop_due(500).expect("fires");
    // A failed send retries in 5000 ms regardless of the repeat flag.
    bot.task_fired(task, SendOutcome::Failed, 500);
    assert!(bot.scheduler.pop_due(5499).is_none());
    let task = bot.scheduler.pop_due(5500).expect("retry");
    assert_eq!(task.fire_time, 5500);
    // On success it resumes its own period.
    bot.task_fired(task, SendOutcome::Sent { message_id: 1 }, 5500);
    let task = bot.scheduler.pop_due(6000).expect("period resumes");
    assert_eq!(task.fire_time, 6000);
}
