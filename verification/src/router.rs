//! Command router: maps the leading token of a prefixed chat message to a
//! registered command, enforcing an owner-only check and a per-command,
//! per-user rate-limit bucket before the command is dispatched.

use vstd::prelude::*;
use vstd::slice::{slice_subrange, slice_to_vec};
use crate::buckets::UserStamps;
use crate::text::{bytes_eq, find_token_end, first_space, has_prefix};

verus! {

/// A registered command: its name, its aliases, an optional rate-limit
/// bucket (the delay, in milliseconds, owed between two invocations by the
/// same user), and whether only the owner may invoke it. Immutable once
/// registered.
pub struct CommandSpec {
    pub name: Vec<u8>,
    pub aliases: Vec<Vec<u8>>,
    pub bucket_delay_ms: Option<u64>,
    pub owner_only: bool,
}

/// The router: the registered commands, each command's bucket (the time of
/// each user's last successful invocation), the command prefix, and the
/// owner's user id.
pub struct Router {
    pub commands: Vec<CommandSpec>,
    pub buckets: Vec<UserStamps>,
    pub prefix: Vec<u8>,
    pub owner_id: u64,
}

/// What the router decided for one inbound message.
pub enum Dispatch {
    /// Dispatch the command at this index with the remaining argument text.
    Invoke { index: usize, args: Vec<u8> },
    /// Rate-limited: the one user-facing "try again" notice, with the wait.
    RateLimited { retry_after_ms: u64 },
    /// An owner-only command invoked by someone else; denied silently.
    DeniedNotOwner,
    /// Prefixed, but no registered name or alias matches; logged only.
    Unknown,
    /// Not prefixed: not a command at all; ignored.
    NotCommand,
}

/// Spec-level image of a `Dispatch`.
pub enum Decision {
    Invoke { index: int, args: Seq<u8> },
    RateLimited { retry_after_ms: u64 },
    DeniedNotOwner,
    Unknown,
    NotCommand,
}

/// The decision an exec `Dispatch` denotes.
pub open spec fn decision_of(d: Dispatch) -> Decision {
    match d {
        Dispatch::Invoke { index, args } => Decision::Invoke { index: index as int, args: args@ },
        Dispatch::RateLimited { retry_after_ms } => Decision::RateLimited { retry_after_ms },
        Dispatch::DeniedNotOwner => Decision::DeniedNotOwner,
        Dispatch::Unknown => Decision::Unknown,
        Dispatch::NotCommand => Decision::NotCommand,
    }
}

/// The message body after the command prefix.
pub open spec fn parsed_body(text: Seq<u8>, prefix: Seq<u8>) -> Seq<u8> {
    text.skip(prefix.len() as int)
}

/// The command name: the leading token of the body.
pub open spec fn parsed_name(text: Seq<u8>, prefix: Seq<u8>) -> Seq<u8> {
    let body = parsed_body(text, prefix);
    body.take(first_space(body))
}

/// The argument text: everything after the first space of the body.
pub open spec fn parsed_args(text: Seq<u8>, prefix: Seq<u8>) -> Seq<u8> {
    let body = parsed_body(text, prefix);
    if first_space(body) < body.len() {
        body.skip(first_space(body) + 1)
    } else {
        Seq::empty()
    }
}

/// The name is the command's own name or one of its aliases, byte for byte.
pub open spec fn cmd_matches(c: CommandSpec, name: Seq<u8>) -> bool {
    ||| c.name@ == name
    ||| exists|j: int| 0 <= j < c.aliases@.len() && (#[trigger] c.aliases@[j])@ == name
}

/// `i` is the first registered command matching `name`.
pub open spec fn finds(cmds: Seq<CommandSpec>, name: Seq<u8>, i: int) -> bool {
    &&& 0 <= i < cmds.len()
    &&& cmd_matches(cmds[i], name)
    &&& forall|j: int| 0 <= j < i ==> !cmd_matches(#[trigger] cmds[j], name)
}

/// At most one index is the first match.
pub proof fn lemma_finds_unique(cmds: Seq<CommandSpec>, name: Seq<u8>, i: int, j: int)
    requires
        finds(cmds, name, i),
        finds(cmds, name, j),
    ensures
        i == j,
{
    if i < j {
        assert(!cmd_matches(cmds[i], name));
    } else if j < i {
        assert(!cmd_matches(cmds[j], name));
    }
}

/// Time elapsed since `t`, zero if the clock reads earlier than `t`.
pub open spec fn spec_elapsed(t: u64, now: u64) -> int {
    if now >= t {
        now - t
    } else {
        0
    }
}

/// The bucket state: for each command, each user's last successful
/// invocation time.
pub open spec fn buckets_view(r: Router) -> Seq<Map<u64, u64>> {
    r.buckets@.map_values(|u: UserStamps| u@)
}

/// The routing decision for one message: unprefixed text is no command;
/// an unmatched name is unknown; an owner-only command demands the owner;
/// a bucketed command invoked by a user again before the delay has elapsed
/// since that user's last successful invocation is rejected with the
/// remaining wait; otherwise the command is dispatched with the argument
/// text.
pub open spec fn route_decision(r: Router, text: Seq<u8>, now: u64, author: u64) -> Decision {
    if !r.prefix@.is_prefix_of(text) {
        Decision::NotCommand
    } else {
        let name = parsed_name(text, r.prefix@);
        if exists|i: int| finds(r.commands@, name, i) {
            let i = choose|i: int| finds(r.commands@, name, i);
            let c = r.commands@[i];
            if c.owner_only && author != r.owner_id {
                Decision::DeniedNotOwner
            } else {
                let stamps = buckets_view(r)[i];
                let free = match c.bucket_delay_ms {
                    Some(d) => {
                        if stamps.contains_key(author) {
                            spec_elapsed(stamps[author], now) >= d
                        } else {
                            true
                        }
                    },
                    None => true,
                };
                if free {
                    Decision::Invoke { index: i, args: parsed_args(text, r.prefix@) }
                } else {
                    let d = c.bucket_delay_ms->0;
                    Decision::RateLimited {
                        retry_after_ms: (d - spec_elapsed(stamps[author], now)) as u64,
                    }
                }
            }
        } else {
            Decision::Unknown
        }
    }
}

/// The bucket state after one message: a successful invocation stamps the
/// invoking user in the command's bucket with `now`; everything else leaves
/// the buckets alone.
pub open spec fn route_buckets(r: Router, text: Seq<u8>, now: u64, author: u64) -> Seq<
    Map<u64, u64>,
> {
    match route_decision(r, text, now, author) {
        Decision::Invoke { index, args } => buckets_view(r).update(
            index,
            buckets_view(r)[index].insert(author, now),
        ),
        _ => buckets_view(r),
    }
}

impl Router {
    /// One well-formed bucket per command.
    pub open spec fn wf(&self) -> bool {
        &&& self.buckets@.len() == self.commands@.len()
        &&& forall|i: int| 0 <= i < self.buckets@.len() ==> (#[trigger] self.buckets@[i]).wf()
    }

    /// Does any command match `name`? Returns the first.
    fn find_command(&self, name: &[u8]) -> (r: Option<usize>)
        ensures
            match r {
                Some(i) => finds(self.commands@, name@, i as int),
                None => forall|i: int|
                    0 <= i < self.commands@.len() ==> !cmd_matches(
                        #[trigger] self.commands@[i],
                        name@,
                    ),
            },
    {
        let n = self.commands.len();
        let mut i: usize = 0;
        while i < n
            invariant
                n == self.commands@.len(),
                0 <= i <= n,
                forall|j: int| 0 <= j < i ==> !cmd_matches(#[trigger] self.commands@[j], name@),
            decreases n - i,
        {
            if command_matches(&self.commands[i], name) {
                return Some(i);
            }
            i += 1;
        }
        None
    }

    /// Routes one inbound message: parses the leading token after the
    /// prefix, looks the command up, runs the owner and bucket checks, and
    /// on success stamps the invoking user in the command's bucket with
    /// `now`. Never panics and never touches state except for that stamp.
    pub fn route(&mut self, text: &[u8], now: u64, author: u64) -> (d: Dispatch)
        requires
            old(self).wf(),
        ensures
            final(self).wf(),
            final(self).commands == old(self).commands,
            final(self).prefix == old(self).prefix,
            final(self).owner_id == old(self).owner_id,
            decision_of(d) == route_decision(*old(self), text@, now, author),
            buckets_view(*final(self)) == route_buckets(*old(self), text@, now, author),
    {
        if !has_prefix(text, self.prefix.as_slice()) {
            return Dispatch::NotCommand;
        }
        let body = slice_subrange(text, self.prefix.len(), text.len());
        proof {
            assert(body@ =~= parsed_body(text@, self.prefix@));
        }
        let te = find_token_end(body);
        let name = slice_subrange(body, 0, te);
        proof {
            assert(name@ =~= parsed_name(text@, self.prefix@));
        }
        let ghost spec_name = parsed_name(text@, self.prefix@);
        match self.find_command(name) {
            None => {
                proof {
                    assert(!exists|i: int| finds(self.commands@, spec_name, i));
                }
                Dispatch::Unknown
            },
            Some(i) => {
                proof {
                    let i0 = choose|j: int| finds(self.commands@, spec_name, j);
                    lemma_finds_unique(self.commands@, spec_name, i as int, i0);
                }
                let owner_only = self.commands[i].owner_only;
                let bucket_delay_ms = self.commands[i].bucket_delay_ms;
                if owner_only && author != self.owner_id {
                    return Dispatch::DeniedNotOwner;
                }
                match bucket_delay_ms {
                    Some(d) => {
                        match self.buckets[i].lookup(author) {
                            Some(t) => {
                                let elapsed: u64 = if now >= t {
                                    now - t
                                } else {
                                    0
                                };
                                if elapsed < d {
                                    return Dispatch::RateLimited { retry_after_ms: d - elapsed };
                                }
                            },
                            None => {},
                        }
                    },
                    None => {},
                }
                let args: Vec<u8> = if te < body.len() {
                    slice_to_vec(slice_subrange(body, te + 1, body.len()))
                } else {
                    Vec::new()
                };
                proof {
                    assert(args@ =~= parsed_args(text@, self.prefix@));
                }
                let ghost pre = *self;
                self.buckets[i].stamp(author, now);
                proof {
                    assert(buckets_view(*self) =~= buckets_view(pre).update(
                        i as int,
                        buckets_view(pre)[i as int].insert(author, now),
                    ));
                    assert forall|k: int| 0 <= k < self.buckets@.len() implies (
                    #[trigger] self.buckets@[k]).wf() by {
                        if k != i {
                            assert(self.buckets@[k] == pre.buckets@[k]);
                        }
                    }
                }
                Dispatch::Invoke { index: i, args }
            },
        }
    }
}

/// A command's name or alias matches `name`.
fn command_matches(c: &CommandSpec, name: &[u8]) -> (r: bool)
    ensures
        r == cmd_matches(*c, name@),
{
    if bytes_eq(c.name.as_slice(), name) {
        return true;
    }
    let n = c.aliases.len();
    let mut j: usize = 0;
    while j < n
        invariant
            n == c.aliases@.len(),
            0 <= j <= n,
            forall|k: int| 0 <= k < j ==> (#[trigger] c.aliases@[k])@ != name@,
        decreases n - j,
    {
        if bytes_eq(c.aliases[j].as_slice(), name) {
            return true;
        }
        j += 1;
    }
    false
}

/// An unrecognized command name never dispatches a handler: when no
/// registered name or alias matches, the decision is `Unknown` (or
/// `NotCommand` for unprefixed text), never `Invoke`, and the router's
/// bucket state is untouched. (`route` itself is verified panic-free on
/// every input.)
pub proof fn lemma_unknown_never_invokes(r: Router, text: Seq<u8>, now: u64, author: u64)
    requires
        forall|i: int|
            0 <= i < r.commands@.len() ==> !cmd_matches(
                #[trigger] r.commands@[i],
                parsed_name(text, r.prefix@),
            ),
    ensures
        (!(route_decision(r, text, now, author) is Invoke)),
        route_buckets(r, text, now, author) == buckets_view(r),
{
    if r.prefix@.is_prefix_of(text) {
        assert(!exists|i: int| finds(r.commands@, parsed_name(text, r.prefix@), i));
    }
}

/// An owner-only command is never dispatched for a non-owner author; for
/// the owner it is dispatched (here stated for an unbucketed command, as
/// the owner-only command has no bucket).
pub proof fn lemma_owner_only(r: Router, text: Seq<u8>, now: u64, author: u64, i: int)
    requires
        r.wf(),
        r.prefix@.is_prefix_of(text),
        finds(r.commands@, parsed_name(text, r.prefix@), i),
        r.commands@[i].owner_only,
    ensures
        author != r.owner_id ==> route_decision(r, text, now, author) == Decision::DeniedNotOwner,
        author == r.owner_id && (r.commands@[i].bucket_delay_ms is None) ==> route_decision(
            r,
            text,
            now,
            author,
        ) == (Decision::Invoke { index: i, args: parsed_args(text, r.prefix@) }),
{
    let name = parsed_name(text, r.prefix@);
    let i0 = choose|j: int| finds(r.commands@, name, j);
    lemma_finds_unique(r.commands@, name, i, i0);
}

/// A bucketed command successfully invoked by a user at `t1` and invoked by
/// the same user again within its delay `d` is rejected on the second call,
/// with exactly one "try again" notice carrying the remaining wait
/// `d - (t2 - t1)`, and the rejection does not advance the bucket.
pub proof fn lemma_rate_limited_within_delay(
    r1: Router,
    r2: Router,
    text: Seq<u8>,
    t1: u64,
    t2: u64,
    author: u64,
    i: int,
    d: u64,
)
    requires
        r1.wf(),
        r1.prefix@.is_prefix_of(text),
        finds(r1.commands@, parsed_name(text, r1.prefix@), i),
        (route_decision(r1, text, t1, author) is Invoke),
        r1.commands@[i].bucket_delay_ms == Some(d),
        r2.commands == r1.commands,
        r2.prefix == r1.prefix,
        r2.owner_id == r1.owner_id,
        buckets_view(r2) == route_buckets(r1, text, t1, author),
        t1 <= t2 < t1 + d,
    ensures
        route_decision(r2, text, t2, author) == (Decision::RateLimited {
            retry_after_ms: (d - (t2 - t1)) as u64,
        }),
        route_buckets(r2, text, t2, author) == buckets_view(r2),
{
    let name = parsed_name(text, r1.prefix@);
    let i1 = choose|j: int| finds(r1.commands@, name, j);
    lemma_finds_unique(r1.commands@, name, i, i1);
    let i2 = choose|j: int| finds(r2.commands@, name, j);
    lemma_finds_unique(r2.commands@, name, i, i2);
    assert(buckets_view(r2)[i] == buckets_view(r1)[i].insert(author, t1));
    assert(buckets_view(r2)[i][author] == t1);
}

/// Once the bucket delay has elapsed since that user's last successful
/// invocation, the same command succeeds again for them.
pub proof fn lemma_allowed_after_delay(
    r1: Router,
    r2: Router,
    text: Seq<u8>,
    t1: u64,
    t2: u64,
    author: u64,
    i: int,
    d: u64,
)
    requires
        r1.wf(),
        r1.prefix@.is_prefix_of(text),
        finds(r1.commands@, parsed_name(text, r1.prefix@), i),
        (route_decision(r1, text, t1, author) is Invoke),
        r1.commands@[i].bucket_delay_ms == Some(d),
        r2.commands == r1.commands,
        r2.prefix == r1.prefix,
        r2.owner_id == r1.owner_id,
        buckets_view(r2) == route_buckets(r1, text, t1, author),
        t2 >= t1 + d,
    ensures
        route_decision(r2, text, t2, author) == (Decision::Invoke {
            index: i,
            args: parsed_args(text, r2.prefix@),
        }),
{
    let name = parsed_name(text, r1.prefix@);
    let i1 = choose|j: int| finds(r1.commands@, name, j);
    lemma_finds_unique(r1.commands@, name, i, i1);
    let i2 = choose|j: int| finds(r2.commands@, name, j);
    lemma_finds_unique(r2.commands@, name, i, i2);
    assert(buckets_view(r2)[i] == buckets_view(r1)[i].insert(author, t1));
    assert(buckets_view(r2)[i][author] == t1);
}

/// The bucket limits each user on their own: one user's successful
/// invocation never rate-limits another user, however soon the other
/// invokes the same command.
pub proof fn lemma_bucket_is_per_user(
    r1: Router,
    r2: Router,
    text: Seq<u8>,
    t1: u64,
    t2: u64,
    author: u64,
    other: u64,
    i: int,
    d: u64,
)
    requires
        r1.wf(),
        r1.prefix@.is_prefix_of(text),
        finds(r1.commands@, parsed_name(text, r1.prefix@), i),
        (route_decision(r1, text, t1, author) is Invoke),
        r1.commands@[i].bucket_delay_ms == Some(d),
        !r1.commands@[i].owner_only,
        r2.commands == r1.commands,
        r2.prefix == r1.prefix,
        r2.owner_id == r1.owner_id,
        buckets_view(r2) == route_buckets(r1, text, t1, author),
        other != author,
        !buckets_view(r1)[i].contains_key(other),
    ensures
        route_decision(r2, text, t2, other) == (Decision::Invoke {
            index: i,
            args: parsed_args(text, r2.prefix@),
        }),
{
    let name = parsed_name(text, r1.prefix@);
    let i1 = choose|j: int| finds(r1.commands@, name, j);
    lemma_finds_unique(r1.commands@, name, i, i1);
    let i2 = choose|j: int| finds(r2.commands@, name, j);
    lemma_finds_unique(r2.commands@, name, i, i2);
    assert(buckets_view(r2)[i] == buckets_view(r1)[i].insert(author, t1));
    assert(!buckets_view(r2)[i].contains_key(other));
}

} // verus!
