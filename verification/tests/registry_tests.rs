use reminder_bot::registry::{ListenDecision, ReactionRegistry, ReactionTrigger, TriggerKey};

fn trig(tag: u32, after: ListenDecision) -> ReactionTrigger<u32> {
    ReactionTrigger { action: tag, after }
}

#[test]
fn matching_reaction_fires_once_then_is_gone() {
    let mut reg: ReactionRegistry<u32> = ReactionRegistry::new();
    reg.register(
        TriggerKey {
            message_id: 9,
            user_id: 3,
        },
        trig(1, ListenDecision::StopListening),
    );
    let t = reg.take(9, 3).expect("registered trigger fires");
    assert_eq!(t.action, 1);
    // Removed on firing: the same event again is a no-op.
    assert!(reg.take(9, 3).is_none());
}

#[test]
fn non_matching_reaction_is_ignored() {
    let mut reg: ReactionRegistry<u32> = ReactionRegistry::new();
    reg.register(
        TriggerKey {
            message_id: 9,
            user_id: 3,
        },
        trig(1, ListenDecision::StopListening),
    );
    assert!(reg.take(9, 4).is_none());
    assert!(reg.take(8, 3).is_none());
    // The registered trigger is still there.
    assert!(reg.take(9, 3).is_some());
}

#[test]
fn re_registering_a_key_overwrites() {
    let mut reg: ReactionRegistry<u32> = ReactionRegistry::new();
    let key = TriggerKey {
        message_id: 9,
        user_id: 3,
    };
    reg.register(key, trig(1, ListenDecision::StopListening));
    reg.register(key, trig(2, ListenDecision::StopListening));
    let t = reg.take(9, 3).expect("one trigger left");
    assert_eq!(t.action, 2);
    assert!(reg.take(9, 3).is_none());
}

#[test]
fn distinct_keys_are_independent() {
    let mut reg: ReactionRegistry<u32> = ReactionRegistry::new();
    reg.register(
        TriggerKey {
            message_id: 1,
            user_id: 1,
        },
        trig(1, ListenDecision::StopListening),
    );
    reg.register(
        TriggerKey {
            message_id: 1,
            user_id: 2,
        },
        trig(2, ListenDecision::StopListening),
    );
    assert_eq!(reg.take(1, 2).expect("second key").action, 2);
    assert_eq!(reg.take(1, 1).expect("first key").action, 1);
}
