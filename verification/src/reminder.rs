//! The reminder command: parsing its arguments (`<delay_ms> <repeat>
//! <message text>`) and the decision a fired reminder task makes once the
//! send attempt's outcome is known.

use vstd::prelude::*;
use vstd::slice::{slice_subrange, slice_to_vec};
use crate::registry::{ListenDecision, ReactionTrigger, TriggerKey};
use crate::scheduler::TaskOutcome;
use crate::text::{
    all_digits,
    decimal_value,
    false_bytes,
    find_token_end,
    first_space,
    parse_bool,
    parse_u64,
    true_bytes,
    NumError,
};

verus! {

/// How long a reminder whose send failed waits before it retries.
pub const RETRY_DELAY_MS: u64 = 5000;

/// A parsed reminder request: fire after `delay_ms`, optionally repeating
/// with the same period, sending `text`.
pub struct ReminderRequest {
    pub delay_ms: u64,
    pub repeat: bool,
    pub text: Vec<u8>,
}

/// Why a reminder request was rejected; each is surfaced to the invoker.
#[derive(Clone, Copy, PartialEq, Eq, Structural, Debug)]
pub enum ParseError {
    /// The first token is empty or not all decimal digits.
    InvalidDelay,
    /// The delay does not fit the clock.
    DelayTooLarge,
    /// The second token is neither `true` nor `false`.
    InvalidRepeat,
}

/// Spec-level image of a parse result.
pub enum ParsedReminder {
    Parsed { delay_ms: u64, repeat: bool, text: Seq<u8> },
    Rejected { reason: ParseError },
}

/// The remainder of `s` after its leading token and the one space ending it.
pub open spec fn after_token(s: Seq<u8>) -> Seq<u8> {
    if first_space(s) < s.len() {
        s.skip(first_space(s) + 1)
    } else {
        Seq::empty()
    }
}

/// What the reminder argument text denotes: the leading token must be a
/// decimal delay fitting `u64`, the next token `true` or `false`, and all
/// that follows is the message text (possibly empty).
pub open spec fn spec_parse_reminder(args: Seq<u8>) -> ParsedReminder {
    let tok1 = args.take(first_space(args));
    let rest = after_token(args);
    let tok2 = rest.take(first_space(rest));
    let text = after_token(rest);
    if tok1.len() == 0 || !all_digits(tok1) {
        ParsedReminder::Rejected { reason: ParseError::InvalidDelay }
    } else if decimal_value(tok1) > u64::MAX {
        ParsedReminder::Rejected { reason: ParseError::DelayTooLarge }
    } else if tok2 != true_bytes() && tok2 != false_bytes() {
        ParsedReminder::Rejected { reason: ParseError::InvalidRepeat }
    } else {
        ParsedReminder::Parsed {
            delay_ms: decimal_value(tok1) as u64,
            repeat: tok2 == true_bytes(),
            text,
        }
    }
}

/// The parse an exec result denotes.
pub open spec fn parsed_of(r: Result<ReminderRequest, ParseError>) -> ParsedReminder {
    match r {
        Ok(req) => ParsedReminder::Parsed {
            delay_ms: req.delay_ms,
            repeat: req.repeat,
            text: req.text@,
        },
        Err(reason) => ParsedReminder::Rejected { reason },
    }
}

/// Parses the reminder argument text, exactly as `spec_parse_reminder`
/// says: a malformed input is rejected with its reason, a well-formed one
/// yields the delay, the repeat flag and the message text.
pub fn parse_reminder_args(args: &[u8]) -> (r: Result<ReminderRequest, ParseError>)
    ensures
        parsed_of(r) == spec_parse_reminder(args@),
{
    let fs1 = find_token_end(args);
    let tok1 = slice_subrange(args, 0, fs1);
    proof {
        assert(tok1@ =~= args@.take(first_space(args@)));
    }
    let rest: &[u8] = if fs1 < args.len() {
        slice_subrange(args, fs1 + 1, args.len())
    } else {
        slice_subrange(args, args.len(), args.len())
    };
    proof {
        assert(rest@ =~= after_token(args@));
    }
    let delay_ms = match parse_u64(tok1) {
        Ok(v) => v,
        Err(NumError::Malformed) => {
            return Err(ParseError::InvalidDelay);
        },
        Err(NumError::Overflow) => {
            return Err(ParseError::DelayTooLarge);
        },
    };
    let fs2 = find_token_end(rest);
    let tok2 = slice_subrange(rest, 0, fs2);
    proof {
        assert(tok2@ =~= rest@.take(first_space(rest@)));
    }
    let text_sl: &[u8] = if fs2 < rest.len() {
        slice_subrange(rest, fs2 + 1, rest.len())
    } else {
        slice_subrange(rest, rest.len(), rest.len())
    };
    proof {
        assert(text_sl@ =~= after_token(rest@));
    }
    let repeat = match parse_bool(tok2) {
        Some(b) => b,
        None => {
            return Err(ParseError::InvalidRepeat);
        },
    };
    Ok(ReminderRequest { delay_ms, repeat, text: slice_to_vec(text_sl) })
}

/// What a fired reminder sends and to whom: the message text goes to the
/// invoking channel; the follow-up acknowledgement trigger is keyed to the
/// sent message and the invoking user.
pub struct ReminderAction {
    pub channel_id: u64,
    pub author_id: u64,
    pub text: Vec<u8>,
    pub repeat: bool,
    pub delay_ms: u64,
}

/// The acknowledgement a fired trigger asks for: one fixed thanks message
/// to this channel.
#[derive(Clone, Copy, PartialEq, Eq, Structural, Debug)]
pub struct ThanksAction {
    pub channel_id: u64,
}

/// How the send attempt of a fired reminder went: the platform accepted it
/// and assigned the sent message an id, or it failed.
#[derive(Clone, Copy, PartialEq, Eq, Structural, Debug)]
pub enum SendOutcome {
    Sent { message_id: u64 },
    Failed,
}

/// What a fired reminder decides for its task: a failed send retries after
/// `RETRY_DELAY_MS` whatever the repeat flag says; a successful send repeats
/// with the same delay when the flag is set, else finishes the task.
pub open spec fn spec_fire_outcome(action: ReminderAction, send: SendOutcome, now: u64) -> TaskOutcome {
    match send {
        SendOutcome::Failed => TaskOutcome::RepeatAt((now + RETRY_DELAY_MS) as u64),
        SendOutcome::Sent { message_id } => {
            if action.repeat {
                TaskOutcome::RepeatAt((now + action.delay_ms) as u64)
            } else {
                TaskOutcome::Done
            }
        },
    }
}

/// What a fired reminder registers: after a successful send, the one-shot
/// thanks trigger keyed to the sent message and the invoking user; after a
/// failed send, nothing.
pub open spec fn spec_fire_trigger(action: ReminderAction, send: SendOutcome) -> Option<
    (TriggerKey, ReactionTrigger<ThanksAction>),
> {
    match send {
        SendOutcome::Failed => None,
        SendOutcome::Sent { message_id } => Some(
            (
                TriggerKey { message_id, user_id: action.author_id },
                ReactionTrigger {
                    action: ThanksAction { channel_id: action.channel_id },
                    after: ListenDecision::StopListening,
                },
            ),
        ),
    }
}

/// One step of a fired reminder: the fate of its task, and the trigger to
/// register, if any.
pub struct FireStep {
    pub outcome: TaskOutcome,
    pub trigger: Option<(TriggerKey, ReactionTrigger<ThanksAction>)>,
}

/// The decision a fired reminder task makes once the send attempt's outcome
/// is known: exactly `spec_fire_outcome` and `spec_fire_trigger`.
pub fn on_reminder_fired(action: &ReminderAction, send: SendOutcome, now: u64) -> (step: FireStep)
    requires
        now + RETRY_DELAY_MS <= u64::MAX,
        action.repeat ==> now + action.delay_ms <= u64::MAX,
    ensures
        step.outcome == spec_fire_outcome(*action, send, now),
        step.trigger == spec_fire_trigger(*action, send),
{
    match send {
        SendOutcome::Failed => FireStep {
            outcome: TaskOutcome::RepeatAt(now + RETRY_DELAY_MS),
            trigger: None,
        },
        SendOutcome::Sent { message_id } => {
            let outcome = if action.repeat {
                TaskOutcome::RepeatAt(now + action.delay_ms)
            } else {
                TaskOutcome::Done
            };
            FireStep {
                outcome,
                trigger: Some(
                    (
                        TriggerKey { message_id, user_id: action.author_id },
                        ReactionTrigger {
                            action: ThanksAction { channel_id: action.channel_id },
                            after: ListenDecision::StopListening,
                        },
                    ),
                ),
            }
        },
    }
}

} // verus!
