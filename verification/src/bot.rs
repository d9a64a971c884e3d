//! The bot: the standard command table (`hi`, `hal`, `rme`/`rm`), and the
//! glue that routes one inbound message, fires due reminder tasks, and
//! answers reaction events. Every decision is made here on plain values;
//! the caller performs the sends and reports their outcomes back.

use vstd::prelude::*;
use crate::buckets::UserStamps;
use crate::registry::{ListenDecision, ReactionRegistry, TriggerKey};
use crate::reminder::{
    parse_reminder_args,
    spec_fire_outcome,
    spec_fire_trigger,
    spec_parse_reminder,
    on_reminder_fired,
    ParseError,
    ParsedReminder,
    ReminderAction,
    SendOutcome,
    ThanksAction,
    RETRY_DELAY_MS,
};
use crate::router::{
    buckets_view,
    parsed_name,
    route_buckets,
    route_decision,
    CommandSpec,
    Decision,
    Dispatch,
    Router,
    finds,
};
use crate::scheduler::{Scheduler, Task, TaskOutcome};

verus! {

/// Index of the `hi` command in the standard table.
pub const CMD_HI: usize = 0;

/// Index of the owner-only `hal` command.
pub const CMD_HAL: usize = 1;

/// Index of the reminder command `rme` (alias `rm`).
pub const CMD_RME: usize = 2;

/// The `hi` command's rate-limit bucket delay.
pub const HI_BUCKET_DELAY_MS: u64 = 5000;

/// The bytes of the command name `hi`.
pub open spec fn hi_name() -> Seq<u8> {
    seq![104u8, 105u8]
}

/// The bytes of the command name `hal`.
pub open spec fn hal_name() -> Seq<u8> {
    seq![104u8, 97u8, 108u8]
}

/// The bytes of the command name `rme`.
pub open spec fn rme_name() -> Seq<u8> {
    seq![114u8, 109u8, 101u8]
}

/// The bytes of the alias `rm`.
pub open spec fn rm_alias() -> Seq<u8> {
    seq![114u8, 109u8]
}

/// The command prefix `!`.
pub open spec fn bang_prefix() -> Seq<u8> {
    seq![33u8]
}

/// The standard command table: `hi` bucketed at `HI_BUCKET_DELAY_MS` for
/// any user, `hal` owner-only, and `rme` with its alias `rm`, unrestricted.
pub open spec fn standard_commands(r: Router) -> bool {
    &&& r.prefix@ == bang_prefix()
    &&& r.commands@.len() == 3
    &&& r.commands@[CMD_HI as int].name@ == hi_name()
    &&& r.commands@[CMD_HI as int].aliases@.len() == 0
    &&& r.commands@[CMD_HI as int].bucket_delay_ms == Some(HI_BUCKET_DELAY_MS)
    &&& !r.commands@[CMD_HI as int].owner_only
    &&& r.commands@[CMD_HAL as int].name@ == hal_name()
    &&& r.commands@[CMD_HAL as int].aliases@.len() == 0
    &&& r.commands@[CMD_HAL as int].bucket_delay_ms is None
    &&& r.commands@[CMD_HAL as int].owner_only
    &&& r.commands@[CMD_RME as int].name@ == rme_name()
    &&& r.commands@[CMD_RME as int].aliases@.len() == 1
    &&& (r.commands@[CMD_RME as int].aliases@[0])@ == rm_alias()
    &&& r.commands@[CMD_RME as int].bucket_delay_ms is None
    &&& !r.commands@[CMD_RME as int].owner_only
}

/// What the bot asks its caller to do for one inbound message. The fixed
/// reply texts (the greeting, the HAL line, the rate-limit notice, the
/// parse-error notice) belong to the caller's presentation layer.
#[derive(Clone, Copy, PartialEq, Eq, Structural, Debug)]
pub enum Effect {
    /// Reply to the invoking message with the greeting.
    ReplyHi { channel_id: u64, message_id: u64 },
    /// Send the HAL line to the invoking channel.
    SayHal { channel_id: u64 },
    /// Send the one rate-limit notice with the remaining wait.
    SayTryAgain { channel_id: u64, retry_after_ms: u64 },
    /// Surface a reminder argument error to the invoker.
    ReminderRejected { reason: ParseError },
    /// A reminder task was enqueued under this id.
    ReminderScheduled { task_id: u64 },
    /// A prefixed message matching no command: log it, nothing more.
    UnknownCommand,
    /// Nothing to do (unprefixed text, or a denied owner-only command).
    Silent,
}

/// The bot's whole state: the router with its buckets, the pending reminder
/// tasks, and the registered reaction triggers.
pub struct Bot {
    pub router: Router,
    pub scheduler: Scheduler<ReminderAction>,
    pub registry: ReactionRegistry<ThanksAction>,
}

/// The scheduler is untouched between `pre` and `post`.
pub open spec fn sched_unchanged(pre: Bot, post: Bot) -> bool {
    &&& post.scheduler.tasks() == pre.scheduler.tasks()
    &&& post.scheduler.fresh_id() == pre.scheduler.fresh_id()
}

/// One reminder task was enqueued: fire time `now + delay_ms`, under the
/// scheduler's fresh id, carrying the channel, the invoker, the message
/// text and the repeat flag; nothing else changed.
pub open spec fn scheduled_reminder(
    pre: Bot,
    post: Bot,
    now: u64,
    channel_id: u64,
    author_id: u64,
    delay_ms: u64,
    repeat: bool,
    text: Seq<u8>,
) -> bool {
    &&& post.scheduler.fresh_id() == pre.scheduler.fresh_id() + 1
    &&& post.scheduler.tasks().len() == pre.scheduler.tasks().len() + 1
    &&& post.scheduler.tasks().drop_last() == pre.scheduler.tasks()
    &&& ({
        let task = post.scheduler.tasks().last();
        &&& task.id == pre.scheduler.fresh_id()
        &&& task.fire_time == now + delay_ms
        &&& task.action.channel_id == channel_id
        &&& task.action.author_id == author_id
        &&& task.action.repeat == repeat
        &&& task.action.delay_ms == delay_ms
        &&& task.action.text@ == text
    })
}

impl Bot {
    /// All components well-formed, with the standard command table.
    pub open spec fn wf(&self) -> bool {
        &&& self.router.wf()
        &&& standard_commands(self.router)
        &&& self.scheduler.wf()
        &&& self.registry.wf()
    }

    /// A fresh bot for this owner: the standard commands, all buckets
    /// clear, no pending task, no registered trigger.
    pub fn new(owner_id: u64) -> (bot: Bot)
        ensures
            bot.wf(),
            bot.router.owner_id == owner_id,
            forall|i: int|
                0 <= i < buckets_view(bot.router).len() ==> #[trigger] buckets_view(bot.router)[i]
                    == Map::<u64, u64>::empty(),
            bot.scheduler.tasks() == Seq::<Task<ReminderAction>>::empty(),
            bot.registry.triggers() == Map::<TriggerKey, crate::registry::ReactionTrigger<
                ThanksAction,
            >>::empty(),
    {
        let mut hi_n: Vec<u8> = Vec::new();
        hi_n.push(104);
        hi_n.push(105);
        let mut hal_n: Vec<u8> = Vec::new();
        hal_n.push(104);
        hal_n.push(97);
        hal_n.push(108);
        let mut rme_n: Vec<u8> = Vec::new();
        rme_n.push(114);
        rme_n.push(109);
        rme_n.push(101);
        let mut rm_n: Vec<u8> = Vec::new();
        rm_n.push(114);
        rm_n.push(109);
        proof {
            assert(hi_n@ =~= hi_name());
            assert(hal_n@ =~= hal_name());
            assert(rme_n@ =~= rme_name());
            assert(rm_n@ =~= rm_alias());
        }
        let mut rme_aliases: Vec<Vec<u8>> = Vec::new();
        rme_aliases.push(rm_n);
        let mut commands: Vec<CommandSpec> = Vec::new();
        commands.push(
            CommandSpec {
                name: hi_n,
                aliases: Vec::new(),
                bucket_delay_ms: Some(HI_BUCKET_DELAY_MS),
                owner_only: false,
            },
        );
        commands.push(
            CommandSpec { name: hal_n, aliases: Vec::new(), bucket_delay_ms: None, owner_only: true },
        );
        commands.push(
            CommandSpec {
                name: rme_n,
                aliases: rme_aliases,
                bucket_delay_ms: None,
                owner_only: false,
            },
        );
        let mut buckets: Vec<UserStamps> = Vec::new();
        buckets.push(UserStamps::new());
        buckets.push(UserStamps::new());
        buckets.push(UserStamps::new());
        let mut prefix: Vec<u8> = Vec::new();
        prefix.push(33);
        proof {
            assert(prefix@ =~= bang_prefix());
        }
        let router = Router { commands, buckets, prefix, owner_id };
        Bot { router, scheduler: Scheduler::new(), registry: ReactionRegistry::new() }
    }

    /// Handles one inbound message: routes it, and either asks the caller
    /// for the command's one reply, or enqueues the reminder task the
    /// argument text describes. Buckets advance exactly as the router says;
    /// the trigger registry is untouched.
    pub fn handle_message(
        &mut self,
        now: u64,
        author_id: u64,
        channel_id: u64,
        message_id: u64,
        text: &[u8],
    ) -> (e: Effect)
        requires
            old(self).wf(),
            old(self).scheduler.fresh_id() < u64::MAX,
        ensures
            final(self).wf(),
            final(self).router.commands == old(self).router.commands,
            final(self).router.prefix == old(self).router.prefix,
            final(self).router.owner_id == old(self).router.owner_id,
            buckets_view(final(self).router) == route_buckets(
                old(self).router,
                text@,
                now,
                author_id,
            ),
            final(self).registry.triggers() == old(self).registry.triggers(),
            match route_decision(old(self).router, text@, now, author_id) {
                Decision::NotCommand => e == Effect::Silent && sched_unchanged(
                    *old(self),
                    *final(self),
                ),
                Decision::Unknown => e == Effect::UnknownCommand && sched_unchanged(
                    *old(self),
                    *final(self),
                ),
                Decision::DeniedNotOwner => e == Effect::Silent && sched_unchanged(
                    *old(self),
                    *final(self),
                ),
                Decision::RateLimited { retry_after_ms } => e == (Effect::SayTryAgain {
                    channel_id,
                    retry_after_ms,
                }) && sched_unchanged(*old(self), *final(self)),
                Decision::Invoke { index, args } => {
                    if index == CMD_HI as int {
                        e == (Effect::ReplyHi { channel_id, message_id }) && sched_unchanged(
                            *old(self),
                            *final(self),
                        )
                    } else if index == CMD_HAL as int {
                        e == (Effect::SayHal { channel_id }) && sched_unchanged(
                            *old(self),
                            *final(self),
                        )
                    } else {
                        match spec_parse_reminder(args) {
                            ParsedReminder::Rejected { reason } => e == (Effect::ReminderRejected {
                                reason,
                            }) && sched_unchanged(*old(self), *final(self)),
                            ParsedReminder::Parsed { delay_ms, repeat, text: body } => {
                                if now + delay_ms > u64::MAX {
                                    e == (Effect::ReminderRejected {
                                        reason: ParseError::DelayTooLarge,
                                    }) && sched_unchanged(*old(self), *final(self))
                                } else {
                                    e == (Effect::ReminderScheduled {
                                        task_id: old(self).scheduler.fresh_id(),
                                    }) && scheduled_reminder(
                                        *old(self),
                                        *final(self),
                                        now,
                                        channel_id,
                                        author_id,
                                        delay_ms,
                                        repeat,
                                        body,
                                    )
                                }
                            },
                        }
                    }
                },
            },
    {
        let d = self.router.route(text, now, author_id);
        match d {
            Dispatch::NotCommand => Effect::Silent,
            Dispatch::Unknown => Effect::UnknownCommand,
            Dispatch::DeniedNotOwner => Effect::Silent,
            Dispatch::RateLimited { retry_after_ms } => Effect::SayTryAgain {
                channel_id,
                retry_after_ms,
            },
            Dispatch::Invoke { index, args } => {
                proof {
                    let pre = *old(self);
                    let name = parsed_name(text@, pre.router.prefix@);
                    assert(exists|i: int| finds(pre.router.commands@, name, i));
                    let i0 = choose|i: int| finds(pre.router.commands@, name, i);
                    assert(finds(pre.router.commands@, name, i0));
                    assert(index as int == i0);
                    assert(0 <= index < 3);
                }
                if index == CMD_HI {
                    Effect::ReplyHi { channel_id, message_id }
                } else if index == CMD_HAL {
                    Effect::SayHal { channel_id }
                } else {
                    match parse_reminder_args(args.as_slice()) {
                        Err(reason) => Effect::ReminderRejected { reason },
                        Ok(req) => {
                            if req.delay_ms > u64::MAX - now {
                                Effect::ReminderRejected { reason: ParseError::DelayTooLarge }
                            } else {
                                let ghost pre_tasks = self.scheduler.tasks();
                                let task_id = self.scheduler.add_task(
                                    now,
                                    req.delay_ms,
                                    ReminderAction {
                                        channel_id,
                                        author_id,
                                        text: req.text,
                                        repeat: req.repeat,
                                        delay_ms: req.delay_ms,
                                    },
                                );
                                proof {
                                    assert(self.scheduler.tasks().drop_last() =~= pre_tasks);
                                }
                                Effect::ReminderScheduled { task_id }
                            }
                        },
                    }
                }
            },
        }
    }

    /// Settles a reminder task handed out by `pop_due`, given how the send
    /// attempt went: a failed send retries after `RETRY_DELAY_MS` and
    /// registers nothing; a successful send registers the one-shot thanks
    /// trigger for the sent message and the invoking user, and re-enqueues
    /// the task with its own delay when its repeat flag is set.
    pub fn task_fired(&mut self, task: Task<ReminderAction>, send: SendOutcome, now: u64)
        requires
            old(self).wf(),
            !old(self).scheduler.has_task(task.id),
            task.id < old(self).scheduler.fresh_id(),
            now + RETRY_DELAY_MS <= u64::MAX,
            task.action.repeat ==> now + task.action.delay_ms <= u64::MAX,
        ensures
            final(self).wf(),
            final(self).router == old(self).router,
            final(self).scheduler.fresh_id() == old(self).scheduler.fresh_id(),
            final(self).registry.triggers() == (match spec_fire_trigger(task.action, send) {
                Some(kt) => old(self).registry.triggers().insert(kt.0, kt.1),
                None => old(self).registry.triggers(),
            }),
            final(self).scheduler.tasks() == (match spec_fire_outcome(task.action, send, now) {
                TaskOutcome::Done => old(self).scheduler.tasks(),
                TaskOutcome::RepeatAt(t) => old(self).scheduler.tasks().push(
                    Task { id: task.id, fire_time: t, action: task.action },
                ),
            }),
    {
        let step = on_reminder_fired(&task.action, send, now);
        let outcome = step.outcome;
        match step.trigger {
            Some((key, trigger)) => {
                self.registry.register(key, trigger);
            },
            None => {},
        }
        self.scheduler.finish(task, outcome);
    }

    /// Answers one reaction event: when a trigger is registered for this
    /// (message, user) pair, hands its action back — exactly once for a
    /// one-shot trigger, which is deregistered; a second matching event, or
    /// any event with no registered trigger, is a no-op.
    pub fn reaction_added(&mut self, message_id: u64, user_id: u64) -> (r: Option<ThanksAction>)
        requires
            old(self).wf(),
        ensures
            final(self).wf(),
            final(self).router == old(self).router,
            sched_unchanged(*old(self), *final(self)),
            ({
                let key = TriggerKey { message_id, user_id };
                match r {
                    Some(a) => {
                        &&& old(self).registry.triggers().contains_key(key)
                        &&& a == old(self).registry.triggers()[key].action
                        &&& (old(self).registry.triggers()[key].after
                            == ListenDecision::StopListening ==> final(self).registry.triggers()
                            == old(self).registry.triggers().remove(key))
                        &&& (old(self).registry.triggers()[key].after
                            == ListenDecision::KeepListening ==> final(self).registry.triggers()
                            == old(self).registry.triggers())
                    },
                    None => {
                        &&& !old(self).registry.triggers().contains_key(key)
                        &&& final(self).registry.triggers() == old(self).registry.triggers()
                    },
                }
            }),
    {
        let key = TriggerKey { message_id, user_id };
        match self.registry.take(message_id, user_id) {
            None => None,
            Some(t) => {
                let action = t.action;
                match t.after {
                    ListenDecision::StopListening => {},
                    ListenDecision::KeepListening => {
                        self.registry.register(key, t);
                        proof {
                            assert(self.registry.triggers() =~= old(self).registry.triggers());
                        }
                    },
                }
                Some(action)
            },
        }
    }
}

} // verus!
