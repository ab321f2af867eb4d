use lib::aasfile::Vec3Bits;
use lib::goal::{
    bot_goal_s, BotAllocGoalState, BotEmptyGoalStack, BotFreeGoalState, BotGetSecondGoal,
    BotGetTopGoal, BotPopGoal, BotPushGoal, BotResetGoalState, GoalError, GoalStates, MAX_CLIENTS,
    MAX_GOALSTACK,
};

fn goal(number: i32) -> bot_goal_s {
    let p = Vec3Bits { x: 1, y: 2, z: 3 };
    bot_goal_s { areanum: number + 10, origin: p, mins: p, maxs: p, entitynum: 0, number, flags: 0, iteminfo: 0 }
}

#[test]
fn alloc_gives_first_free_handle() {
    let mut t = GoalStates::new();
    assert_eq!(BotAllocGoalState(&mut t, 7), 1);
    assert_eq!(BotAllocGoalState(&mut t, 8), 2);
    assert_eq!(BotFreeGoalState(&mut t, 1), Ok(()));
    assert_eq!(BotAllocGoalState(&mut t, 9), 1);
    assert_eq!(t.states[1].as_ref().unwrap().client, 9);
}

#[test]
fn alloc_fails_when_full() {
    let mut t = GoalStates::new();
    for i in 1..=MAX_CLIENTS {
        assert_eq!(BotAllocGoalState(&mut t, 0), i as i32);
    }
    assert_eq!(BotAllocGoalState(&mut t, 0), 0);
}

#[test]
fn bad_handles_are_refused() {
    let mut t = GoalStates::new();
    assert_eq!(BotPopGoal(&mut t, 0), Err(GoalError::HandleOutOfRange));
    assert_eq!(BotPopGoal(&mut t, 65), Err(GoalError::HandleOutOfRange));
    assert_eq!(BotPopGoal(&mut t, 3), Err(GoalError::InvalidHandle));
    assert_eq!(BotFreeGoalState(&mut t, 3), Err(GoalError::InvalidHandle));
    assert_eq!(BotGetTopGoal(&t, -1), Err(GoalError::HandleOutOfRange));
}

#[test]
fn push_then_top_and_second() {
    let mut t = GoalStates::new();
    let h = BotAllocGoalState(&mut t, 0);
    assert_eq!(BotGetTopGoal(&t, h), Ok(None));
    assert_eq!(BotPushGoal(&mut t, h, &goal(1)), Ok(()));
    assert_eq!(BotGetTopGoal(&t, h), Ok(Some(goal(1))));
    assert_eq!(BotGetSecondGoal(&t, h), Ok(None));
    assert_eq!(BotPushGoal(&mut t, h, &goal(2)), Ok(()));
    assert_eq!(BotGetTopGoal(&t, h), Ok(Some(goal(2))));
    assert_eq!(BotGetSecondGoal(&t, h), Ok(Some(goal(1))));
}

#[test]
fn push_then_pop_restores() {
    let mut t = GoalStates::new();
    let h = BotAllocGoalState(&mut t, 0);
    BotPushGoal(&mut t, h, &goal(1)).unwrap();
    BotPushGoal(&mut t, h, &goal(2)).unwrap();
    BotPopGoal(&mut t, h).unwrap();
    assert_eq!(BotGetTopGoal(&t, h), Ok(Some(goal(1))));
    BotPopGoal(&mut t, h).unwrap();
    assert_eq!(BotGetTopGoal(&t, h), Ok(None));
    // popping an empty stack leaves it empty
    BotPopGoal(&mut t, h).unwrap();
    assert_eq!(t.states[h as usize].as_ref().unwrap().goalstacktop, 0);
}

#[test]
fn stack_overflow_is_refused() {
    let mut t = GoalStates::new();
    let h = BotAllocGoalState(&mut t, 0);
    for i in 0..(MAX_GOALSTACK - 1) {
        assert_eq!(BotPushGoal(&mut t, h, &goal(i as i32)), Ok(()));
    }
    assert_eq!(BotPushGoal(&mut t, h, &goal(99)), Err(GoalError::GoalStackOverflow));
    assert_eq!(BotGetTopGoal(&t, h), Ok(Some(goal(MAX_GOALSTACK as i32 - 2))));
}

#[test]
fn empty_and_reset() {
    let mut t = GoalStates::new();
    let h = BotAllocGoalState(&mut t, 5);
    BotPushGoal(&mut t, h, &goal(1)).unwrap();
    BotEmptyGoalStack(&mut t, h).unwrap();
    assert_eq!(BotGetTopGoal(&t, h), Ok(None));
    BotPushGoal(&mut t, h, &goal(3)).unwrap();
    t.states[h as usize].as_mut().unwrap().avoidgoals[4] = 12;
    BotResetGoalState(&mut t, h).unwrap();
    let s = t.states[h as usize].as_ref().unwrap();
    assert_eq!(s.goalstacktop, 0);
    assert_eq!(s.goalstack[1].number, 0);
    assert_eq!(s.avoidgoals[4], 0);
    assert_eq!(s.client, 5);
}
