//! Goal states of the bots: a stack of goals per bot and the goals it
//! avoids, held in a table indexed by handle.
use vstd::prelude::*;
use crate::aasfile::Vec3Bits;
use crate::weights::weightconfig_t;

verus! {

pub const MAX_CLIENTS: usize = 64;
pub const MAX_GOALSTACK: usize = 32;
pub const MAX_AVOIDGOALS: usize = 32;

/// A goal of a bot.  The coordinates are floats, carried as their bit
/// patterns.
#[derive(Clone, Copy, Debug, PartialEq, Eq, Structural)]
pub struct bot_goal_s {
    /// area the goal is in
    pub areanum: i32,
    /// origin of the goal
    pub origin: Vec3Bits,
    /// mins of the goal
    pub mins: Vec3Bits,
    /// maxs of the goal
    pub maxs: Vec3Bits,
    /// number of the goal entity
    pub entitynum: i32,
    /// goal number
    pub number: i32,
    /// goal flags
    pub flags: i32,
    /// item information
    pub iteminfo: i32,
}

pub type bot_goal_t = bot_goal_s;

/// The goal state of one bot.  Slot zero of the goal stack is never used:
/// the goals on the stack are those of slots `1 ..= goalstacktop`.
pub struct bot_goalstate_s {
    /// client using this goal state
    pub client: i32,
    /// last area with reachabilities the bot was in
    pub lastreachabilityarea: i32,
    /// goal stack
    pub goalstack: Vec<bot_goal_t>,
    /// the top of the goal stack
    pub goalstacktop: i32,
    /// goals to avoid
    pub avoidgoals: Vec<i32>,
    /// times until which the goals are avoided, as float bit patterns
    pub avoidgoaltimes: Vec<u32>,
    /// item weight configuration
    pub itemweightconfig: Option<weightconfig_t>,
    /// for every item kind, the number of its weight
    pub itemweightindex: Vec<i32>,
}

pub type bot_goalstate_t = bot_goalstate_s;

/// Why a goal state operation did nothing.
#[derive(Clone, Copy, Debug, PartialEq, Eq, Structural)]
pub enum GoalError {
    /// the handle is not in `1 ..= MAX_CLIENTS`
    HandleOutOfRange,
    /// no goal state is allocated under the handle
    InvalidHandle,
    /// the goal stack is full
    GoalStackOverflow,
}

/// The table of goal states: slot `h` holds the goal state with handle `h`,
/// for `h` in `1 ..= MAX_CLIENTS`.
pub struct GoalStates {
    pub states: Vec<Option<bot_goalstate_t>>,
}

/// The all-zero goal.
pub open spec fn zero_goal() -> bot_goal_t {
    bot_goal_s {
        areanum: 0,
        origin: Vec3Bits { x: 0, y: 0, z: 0 },
        mins: Vec3Bits { x: 0, y: 0, z: 0 },
        maxs: Vec3Bits { x: 0, y: 0, z: 0 },
        entitynum: 0,
        number: 0,
        flags: 0,
        iteminfo: 0,
    }
}

impl bot_goalstate_s {
    /// The arrays have their fixed sizes and the top is inside the stack.
    pub open spec fn wf(&self) -> bool {
        &&& self.goalstack@.len() == MAX_GOALSTACK
        &&& 0 <= self.goalstacktop < MAX_GOALSTACK
        &&& self.avoidgoals@.len() == MAX_AVOIDGOALS
        &&& self.avoidgoaltimes@.len() == MAX_AVOIDGOALS
    }

    /// The goals on the stack, bottom first.
    pub open spec fn stack(&self) -> Seq<bot_goal_t> {
        self.goalstack@.subrange(1, self.goalstacktop + 1)
    }

    /// A new goal state for `client`: empty stack, no goals avoided.
    pub fn new(client: i32) -> (s: Self)
        ensures
            s.wf(),
            s.client == client,
            s.lastreachabilityarea == 0,
            s.goalstacktop == 0,
            s.stack().len() == 0,
            forall|i: int| 0 <= i < MAX_GOALSTACK ==> #[trigger] s.goalstack@[i] == zero_goal(),
            forall|i: int| 0 <= i < MAX_AVOIDGOALS ==> #[trigger] s.avoidgoals@[i] == 0,
            forall|i: int| 0 <= i < MAX_AVOIDGOALS ==> #[trigger] s.avoidgoaltimes@[i] == 0,
            s.itemweightconfig is None,
            s.itemweightindex@.len() == 0,
    {
        let mut s = bot_goalstate_s {
            client: client,
            lastreachabilityarea: 0,
            goalstack: Vec::new(),
            goalstacktop: 0,
            avoidgoals: Vec::new(),
            avoidgoaltimes: Vec::new(),
            itemweightconfig: None,
            itemweightindex: Vec::new(),
        };
        clear_goals(&mut s.goalstack);
        clear_avoid(&mut s.avoidgoals, &mut s.avoidgoaltimes);
        s
    }
}

/// Makes `stack` hold `MAX_GOALSTACK` zero goals.
fn clear_goals(stack: &mut Vec<bot_goal_t>)
    ensures
        final(stack)@.len() == MAX_GOALSTACK,
        forall|i: int| 0 <= i < MAX_GOALSTACK ==> #[trigger] final(stack)@[i] == zero_goal(),
{
    let zero = Vec3Bits { x: 0, y: 0, z: 0 };
    let mut v: Vec<bot_goal_t> = Vec::new();
    while v.len() < MAX_GOALSTACK
        invariant
            v@.len() <= MAX_GOALSTACK,
            zero == (Vec3Bits { x: 0, y: 0, z: 0 }),
            forall|i: int| 0 <= i < v@.len() ==> #[trigger] v@[i] == zero_goal(),
        decreases MAX_GOALSTACK - v@.len(),
    {
        v.push(bot_goal_s {
            areanum: 0,
            origin: zero,
            mins: zero,
            maxs: zero,
            entitynum: 0,
            number: 0,
            flags: 0,
            iteminfo: 0,
        });
    }
    *stack = v;
}

/// Makes both avoid arrays hold `MAX_AVOIDGOALS` zeros.
fn clear_avoid(goals: &mut Vec<i32>, times: &mut Vec<u32>)
    ensures
        final(goals)@.len() == MAX_AVOIDGOALS,
        final(times)@.len() == MAX_AVOIDGOALS,
        forall|i: int| 0 <= i < MAX_AVOIDGOALS ==> #[trigger] final(goals)@[i] == 0,
        forall|i: int| 0 <= i < MAX_AVOIDGOALS ==> #[trigger] final(times)@[i] == 0,
{
    let mut g: Vec<i32> = Vec::new();
    let mut t: Vec<u32> = Vec::new();
    while g.len() < MAX_AVOIDGOALS
        invariant
            g@.len() <= MAX_AVOIDGOALS,
            t@.len() == g@.len(),
            forall|i: int| 0 <= i < g@.len() ==> #[trigger] g@[i] == 0,
            forall|i: int| 0 <= i < t@.len() ==> #[trigger] t@[i] == 0,
        decreases MAX_AVOIDGOALS - g@.len(),
    {
        g.push(0);
        t.push(0);
    }
    *goals = g;
    *times = t;
}

impl GoalStates {
    /// Every slot exists and every goal state in it is well formed.
    pub open spec fn wf(&self) -> bool {
        &&& self.states@.len() == MAX_CLIENTS + 1
        &&& forall|h: int| 0 <= h <= MAX_CLIENTS && (#[trigger] self.states@[h]) is Some
            ==> self.states@[h]->Some_0.wf()
    }

    /// A goal state is allocated under handle `h`.
    pub open spec fn valid(&self, h: int) -> bool {
        &&& 1 <= h <= MAX_CLIENTS
        &&& self.states@[h] is Some
    }

    /// The goal state under handle `h`.
    pub open spec fn state(&self, h: int) -> bot_goalstate_t {
        self.states@[h]->Some_0
    }

    /// The error for a handle under which no goal state is allocated.
    pub open spec fn handle_error(&self, h: int) -> GoalError {
        if !(1 <= h <= MAX_CLIENTS) { GoalError::HandleOutOfRange } else { GoalError::InvalidHandle }
    }

    /// An empty table: no goal state allocated.
    pub fn new() -> (t: Self)
        ensures
            t.wf(),
            forall|h: int| 0 <= h <= MAX_CLIENTS ==> !(#[trigger] t.states@[h] is Some),
    {
        let mut states: Vec<Option<bot_goalstate_t>> = Vec::new();
        while states.len() <= MAX_CLIENTS
            invariant
                states@.len() <= MAX_CLIENTS + 1,
                forall|h: int| 0 <= h < states@.len() ==> !(#[trigger] states@[h] is Some),
            decreases MAX_CLIENTS + 1 - states@.len(),
        {
            states.push(None);
        }
        GoalStates { states }
    }
}

/// Checks a goal state handle (`BotGoalStateFromHandle`): the handle must be
/// in `1 ..= MAX_CLIENTS` and a goal state must be allocated under it.
pub fn BotGoalStateFromHandle(t: &GoalStates, handle: i32) -> (r: Result<usize, GoalError>)
    requires
        t.wf(),
    ensures
        match r {
            Ok(h) => h == handle && t.valid(h as int),
            Err(e) => !t.valid(handle as int) && e == t.handle_error(handle as int),
        },
{
    if handle <= 0 || handle as usize > MAX_CLIENTS {
        return Err(GoalError::HandleOutOfRange);
    }
    if t.states[handle as usize].is_none() {
        return Err(GoalError::InvalidHandle);
    }
    Ok(handle as usize)
}

/// The table after goal state `h` became `s`.
pub open spec fn with_state(t: GoalStates, h: int, s: bot_goalstate_t) -> Seq<Option<bot_goalstate_t>> {
    t.states@.update(h, Some(s))
}

/// Pushes `goal` on the goal stack of `goalstate` (`BotPushGoal`).  A full
/// stack (`MAX_GOALSTACK - 1` goals) refuses the goal.
pub fn BotPushGoal(t: &mut GoalStates, goalstate: i32, goal: &bot_goal_t) -> (r: Result<(), GoalError>)
    requires
        old(t).wf(),
    ensures
        final(t).wf(),
        !old(t).valid(goalstate as int) ==> r == Err::<(), GoalError>(old(t).handle_error(goalstate as int)),
        old(t).valid(goalstate as int) && old(t).state(goalstate as int).goalstacktop >= MAX_GOALSTACK - 1
            ==> r == Err::<(), GoalError>(GoalError::GoalStackOverflow),
        r is Err ==> final(t).states@ == old(t).states@,
        r is Ok <==> old(t).valid(goalstate as int) && old(t).state(goalstate as int).goalstacktop < MAX_GOALSTACK - 1,
        r is Ok ==> {
            let s = old(t).state(goalstate as int);
            let s2 = final(t).state(goalstate as int);
            &&& final(t).states@ == with_state(*old(t), goalstate as int, s2)
            &&& s2.goalstacktop == s.goalstacktop + 1
            &&& s2.goalstack@ == s.goalstack@.update(s.goalstacktop + 1, *goal)
            &&& s2.stack() == s.stack().push(*goal)
            &&& s2.client == s.client
            &&& s2.lastreachabilityarea == s.lastreachabilityarea
            &&& s2.avoidgoals@ == s.avoidgoals@
            &&& s2.avoidgoaltimes@ == s.avoidgoaltimes@
        },
{
    let h = BotGoalStateFromHandle(t, goalstate)?;
    if t.states[h].as_ref().unwrap().goalstacktop >= (MAX_GOALSTACK - 1) as i32 {
        return Err(GoalError::GoalStackOverflow);
    }
    let mut slot: Option<bot_goalstate_t> = None;
    t.states.set_and_swap(h, &mut slot);
    let mut s = slot.unwrap();
    let ghost s0 = s;
    s.goalstacktop += 1;
    let top = s.goalstacktop as usize;
    s.goalstack.set(top, *goal);
    proof {
        assert(s.stack() =~= s0.stack().push(*goal));
    }
    t.states.set(h, Some(s));
    proof {
        assert(t.states@ =~= with_state(*old(t), h as int, s));
    }
    Ok(())
}

/// Goal state `h` of `t2` is `s2` and every other slot is as in `t1`.
pub open spec fn only_state(t1: GoalStates, t2: GoalStates, h: int, s2: bot_goalstate_t) -> bool {
    &&& t2.states@ == t1.states@.update(h, Some(s2))
}

/// `s2` is `s1` with other goal stack contents or top only.
pub open spec fn same_but_stack(s1: bot_goalstate_t, s2: bot_goalstate_t) -> bool {
    &&& s2.client == s1.client
    &&& s2.lastreachabilityarea == s1.lastreachabilityarea
    &&& s2.avoidgoals@ == s1.avoidgoals@
    &&& s2.avoidgoaltimes@ == s1.avoidgoaltimes@
    &&& s2.itemweightconfig == s1.itemweightconfig
    &&& s2.itemweightindex@ == s1.itemweightindex@
}

/// Takes goal state `h` out of the table, leaving `None` in its slot.
pub(crate) fn take_state(t: &mut GoalStates, h: usize) -> (s: bot_goalstate_t)
    requires
        old(t).wf(),
        old(t).valid(h as int),
    ensures
        s == old(t).state(h as int),
        s.wf(),
        final(t).states@ == old(t).states@.update(h as int, None),
{
    let mut slot: Option<bot_goalstate_t> = None;
    t.states.set_and_swap(h, &mut slot);
    slot.unwrap()
}

/// Puts goal state `s` back in slot `h`.
pub(crate) fn put_state(t: &mut GoalStates, h: usize, s: bot_goalstate_t, Ghost(t0): Ghost<GoalStates>)
    requires
        t0.wf(),
        t0.valid(h as int),
        s.wf(),
        old(t).states@ == t0.states@.update(h as int, None),
    ensures
        final(t).wf(),
        only_state(t0, *final(t), h as int, s),
        final(t).valid(h as int),
        final(t).state(h as int) == s,
{
    t.states.set(h, Some(s));
    proof {
        assert(t.states@ =~= t0.states@.update(h as int, Some(s)));
        assert forall|g: int| 0 <= g <= MAX_CLIENTS && (#[trigger] t.states@[g]) is Some implies
            t.states@[g]->Some_0.wf() by {
            if g != h {
                assert(t.states@[g] == t0.states@[g]);
            }
        }
    }
}

/// Pops the top goal off the goal stack of `goalstate` (`BotPopGoal`); an
/// empty stack stays empty.
pub fn BotPopGoal(t: &mut GoalStates, goalstate: i32) -> (r: Result<(), GoalError>)
    requires
        old(t).wf(),
    ensures
        final(t).wf(),
        r is Ok <==> old(t).valid(goalstate as int),
        r is Err ==> r == Err::<(), GoalError>(old(t).handle_error(goalstate as int))
            && final(t).states@ == old(t).states@,
        r is Ok ==> {
            let s = old(t).state(goalstate as int);
            let s2 = final(t).state(goalstate as int);
            &&& only_state(*old(t), *final(t), goalstate as int, s2)
            &&& same_but_stack(s, s2)
            &&& s2.goalstack@ == s.goalstack@
            &&& s2.goalstacktop == if s.goalstacktop > 0 { s.goalstacktop - 1 } else { 0 }
            &&& s2.stack() == if s.stack().len() > 0 { s.stack().drop_last() } else { s.stack() }
        },
{
    let h = BotGoalStateFromHandle(t, goalstate)?;
    let ghost t0 = *t;
    let mut s = take_state(t, h);
    let ghost s0 = s;
    if s.goalstacktop > 0 {
        s.goalstacktop -= 1;
    }
    proof {
        if s0.goalstacktop > 0 {
            assert(s.stack() =~= s0.stack().drop_last());
        }
    }
    put_state(t, h, s, Ghost(t0));
    Ok(())
}

/// Empties the goal stack of `goalstate` (`BotEmptyGoalStack`).
pub fn BotEmptyGoalStack(t: &mut GoalStates, goalstate: i32) -> (r: Result<(), GoalError>)
    requires
        old(t).wf(),
    ensures
        final(t).wf(),
        r is Ok <==> old(t).valid(goalstate as int),
        r is Err ==> r == Err::<(), GoalError>(old(t).handle_error(goalstate as int))
            && final(t).states@ == old(t).states@,
        r is Ok ==> {
            let s = old(t).state(goalstate as int);
            let s2 = final(t).state(goalstate as int);
            &&& only_state(*old(t), *final(t), goalstate as int, s2)
            &&& same_but_stack(s, s2)
            &&& s2.goalstack@ == s.goalstack@
            &&& s2.goalstacktop == 0
            &&& s2.stack().len() == 0
        },
{
    let h = BotGoalStateFromHandle(t, goalstate)?;
    let ghost t0 = *t;
    let mut s = take_state(t, h);
    s.goalstacktop = 0;
    put_state(t, h, s, Ghost(t0));
    Ok(())
}

/// The goal on top of the goal stack of `goalstate` (`BotGetTopGoal`), or
/// `None` for an empty stack.
pub fn BotGetTopGoal(t: &GoalStates, goalstate: i32) -> (r: Result<Option<bot_goal_t>, GoalError>)
    requires
        t.wf(),
    ensures
        r is Ok <==> t.valid(goalstate as int),
        r is Err ==> r == Err::<Option<bot_goal_t>, GoalError>(t.handle_error(goalstate as int)),
        r is Ok ==> {
            let st = t.state(goalstate as int).stack();
            r == Ok::<Option<bot_goal_t>, GoalError>(if st.len() == 0 { None } else { Some(st.last()) })
        },
{
    let h = BotGoalStateFromHandle(t, goalstate)?;
    let s = t.states[h].as_ref().unwrap();
    if s.goalstacktop == 0 {
        return Ok(None);
    }
    Ok(Some(s.goalstack[s.goalstacktop as usize]))
}

/// The goal just below the top of the goal stack of `goalstate`
/// (`BotGetSecondGoal`), or `None` when the stack holds fewer than two goals.
pub fn BotGetSecondGoal(t: &GoalStates, goalstate: i32) -> (r: Result<Option<bot_goal_t>, GoalError>)
    requires
        t.wf(),
    ensures
        r is Ok <==> t.valid(goalstate as int),
        r is Err ==> r == Err::<Option<bot_goal_t>, GoalError>(t.handle_error(goalstate as int)),
        r is Ok ==> {
            let st = t.state(goalstate as int).stack();
            r == Ok::<Option<bot_goal_t>, GoalError>(if st.len() <= 1 { None } else { Some(st[st.len() - 2]) })
        },
{
    let h = BotGoalStateFromHandle(t, goalstate)?;
    let s = t.states[h].as_ref().unwrap();
    if s.goalstacktop <= 1 {
        return Ok(None);
    }
    Ok(Some(s.goalstack[(s.goalstacktop - 1) as usize]))
}

/// Forgets every goal avoided by `goalstate` (`BotResetAvoidGoals`).
pub fn BotResetAvoidGoals(t: &mut GoalStates, goalstate: i32) -> (r: Result<(), GoalError>)
    requires
        old(t).wf(),
    ensures
        final(t).wf(),
        r is Ok <==> old(t).valid(goalstate as int),
        r is Err ==> r == Err::<(), GoalError>(old(t).handle_error(goalstate as int))
            && final(t).states@ == old(t).states@,
        r is Ok ==> {
            let s = old(t).state(goalstate as int);
            let s2 = final(t).state(goalstate as int);
            &&& only_state(*old(t), *final(t), goalstate as int, s2)
            &&& s2.client == s.client
            &&& s2.lastreachabilityarea == s.lastreachabilityarea
            &&& s2.goalstack@ == s.goalstack@
            &&& s2.goalstacktop == s.goalstacktop
            &&& forall|i: int| 0 <= i < MAX_AVOIDGOALS ==> #[trigger] s2.avoidgoals@[i] == 0
            &&& forall|i: int| 0 <= i < MAX_AVOIDGOALS ==> #[trigger] s2.avoidgoaltimes@[i] == 0
        },
{
    let h = BotGoalStateFromHandle(t, goalstate)?;
    let ghost t0 = *t;
    let mut s = take_state(t, h);
    clear_avoid(&mut s.avoidgoals, &mut s.avoidgoaltimes);
    put_state(t, h, s, Ghost(t0));
    Ok(())
}

/// Resets goal state `goalstate` (`BotResetGoalState`): every goal of the
/// stack is cleared, the stack emptied and no goal avoided any more.
pub fn BotResetGoalState(t: &mut GoalStates, goalstate: i32) -> (r: Result<(), GoalError>)
    requires
        old(t).wf(),
    ensures
        final(t).wf(),
        r is Ok <==> old(t).valid(goalstate as int),
        r is Err ==> r == Err::<(), GoalError>(old(t).handle_error(goalstate as int))
            && final(t).states@ == old(t).states@,
        r is Ok ==> {
            let s = old(t).state(goalstate as int);
            let s2 = final(t).state(goalstate as int);
            &&& only_state(*old(t), *final(t), goalstate as int, s2)
            &&& s2.client == s.client
            &&& s2.lastreachabilityarea == s.lastreachabilityarea
            &&& s2.goalstacktop == 0
            &&& forall|i: int| 0 <= i < MAX_GOALSTACK ==> #[trigger] s2.goalstack@[i] == zero_goal()
            &&& forall|i: int| 0 <= i < MAX_AVOIDGOALS ==> #[trigger] s2.avoidgoals@[i] == 0
            &&& forall|i: int| 0 <= i < MAX_AVOIDGOALS ==> #[trigger] s2.avoidgoaltimes@[i] == 0
        },
{
    let h = BotGoalStateFromHandle(t, goalstate)?;
    let ghost t0 = *t;
    let mut s = take_state(t, h);
    clear_goals(&mut s.goalstack);
    s.goalstacktop = 0;
    clear_avoid(&mut s.avoidgoals, &mut s.avoidgoaltimes);
    put_state(t, h, s, Ghost(t0));
    Ok(())
}

/// Allocates a goal state for `client` (`BotAllocGoalState`) in the first
/// free slot and returns its handle, or zero when every slot is taken.
pub fn BotAllocGoalState(t: &mut GoalStates, client: i32) -> (h: i32)
    requires
        old(t).wf(),
    ensures
        final(t).wf(),
        0 <= h <= MAX_CLIENTS,
        h == 0 <==> forall|g: int| 1 <= g <= MAX_CLIENTS ==> old(t).valid(g),
        h == 0 ==> final(t).states@ == old(t).states@,
        h != 0 ==> {
            &&& !old(t).valid(h as int)
            &&& forall|g: int| 1 <= g < h ==> old(t).valid(g)
            &&& final(t).valid(h as int)
            &&& only_state(*old(t), *final(t), h as int, final(t).state(h as int))
            &&& final(t).state(h as int).client == client
            &&& final(t).state(h as int).lastreachabilityarea == 0
            &&& final(t).state(h as int).stack().len() == 0
        },
{
    let mut i: usize = 1;
    while i <= MAX_CLIENTS
        invariant
            t.wf(),
            *t == *old(t),
            1 <= i <= MAX_CLIENTS + 1,
            forall|g: int| 1 <= g < i ==> t.valid(g),
        decreases MAX_CLIENTS + 1 - i,
    {
        if t.states[i].is_none() {
            assert(!old(t).valid(i as int));
            let s = bot_goalstate_s::new(client);
            t.states.set(i, Some(s));
            proof {
                assert forall|g: int| 0 <= g <= MAX_CLIENTS && (#[trigger] t.states@[g]) is Some implies
                    t.states@[g]->Some_0.wf() by {
                    if g != i {
                        assert(t.states@[g] == old(t).states@[g]);
                    }
                }
            }
            return i as i32;
        }
        i += 1;
    }
    0
}

/// Frees goal state `handle` (`BotFreeGoalState`).
pub fn BotFreeGoalState(t: &mut GoalStates, handle: i32) -> (r: Result<(), GoalError>)
    requires
        old(t).wf(),
    ensures
        final(t).wf(),
        r is Ok <==> old(t).valid(handle as int),
        r is Err ==> r == Err::<(), GoalError>(old(t).handle_error(handle as int))
            && final(t).states@ == old(t).states@,
        r is Ok ==> final(t).states@ == old(t).states@.update(handle as int, None),
{
    let h = BotGoalStateFromHandle(t, handle)?;
    let _ = take_state(t, h);
    proof {
        assert forall|g: int| 0 <= g <= MAX_CLIENTS && (#[trigger] t.states@[g]) is Some implies
            t.states@[g]->Some_0.wf() by {
            assert(t.states@[g] == old(t).states@[g]);
        }
    }
    Ok(())
}

/// A goal pushed on a goal stack is its top goal, and the goal that was on
/// top before is now the second goal.
pub proof fn lemma_push_then_top(s1: bot_goalstate_t, s2: bot_goalstate_t, g: bot_goal_t)
    requires
        s2.stack() == s1.stack().push(g),
    ensures
        s2.stack().len() > 0,
        s2.stack().last() == g,
        s1.stack().len() > 0 ==> s2.stack().len() > 1 && s2.stack()[s2.stack().len() - 2] == s1.stack().last(),
{
}

/// Popping a goal that was just pushed gives back the goal stack as it was.
pub proof fn lemma_push_then_pop(s1: bot_goalstate_t, s2: bot_goalstate_t, s3: bot_goalstate_t, g: bot_goal_t)
    requires
        s2.stack() == s1.stack().push(g),
        s3.stack() == if s2.stack().len() > 0 { s2.stack().drop_last() } else { s2.stack() },
    ensures
        s3.stack() == s1.stack(),
{
    assert(s2.stack().drop_last() =~= s1.stack());
}

} // verus!
