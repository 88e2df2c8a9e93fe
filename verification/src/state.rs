use vstd::prelude::*;

use crate::input::InputState;
use crate::introscene::IntroScene;
use crate::mainscene::MainScene;
use crate::pausescene::PauseScene;

verus! {

/// What a state's update asks the manager to do with the stack.
pub enum Transition {
    /// No change.
    Stay,
    /// Remove the top state; popping the last one ends the session.
    Pop,
    /// Suspend the current top and add a new state above it.
    Push(State),
    /// Replace the top state outright; the stack depth never changes.
    Switch(State),
}

/// The closed set of scene states: the title screen, the running game, and
/// the pause overlay. The manager dispatches to whichever is on top.
pub enum State {
    Intro(IntroScene),
    Main(MainScene),
    Pause(PauseScene),
}

/// Whether the session goes on after a transition was applied.
#[derive(Clone, Copy, Debug, PartialEq, Eq, Structural)]
pub enum SessionStatus {
    Running,
    Ended,
}

impl State {
    /// A state is usable when its concrete data is.
    pub open spec fn wf(self) -> bool {
        match self {
            State::Main(m) => m.wf(),
            _ => true,
        }
    }

    /// What pausing does: the running game records that an overlay
    /// suspended it; other states are unaffected.
    pub open spec fn on_pause_spec(self) -> State {
        match self {
            State::Main(m) => State::Main(MainScene { paused: true, ..m }),
            _ => self,
        }
    }

    /// What resuming does: the running game drops its suspended mark.
    pub open spec fn on_resume_spec(self) -> State {
        match self {
            State::Main(m) => State::Main(MainScene { paused: false, ..m }),
            _ => self,
        }
    }

    /// What starting does: nothing, for every state of this game.
    pub open spec fn on_start_spec(self) -> State {
        self
    }

    /// Lifecycle hook: the state above this one was pushed.
    pub fn on_pause(&mut self)
        ensures
            *final(self) == old(self).on_pause_spec(),
    {
        match self {
            State::Main(m) => {
                m.paused = true;
            },
            _ => {},
        }
    }

    /// Lifecycle hook: the state above this one was popped.
    pub fn on_resume(&mut self)
        ensures
            *final(self) == old(self).on_resume_spec(),
    {
        match self {
            State::Main(m) => {
                m.paused = false;
            },
            _ => {},
        }
    }

    /// Lifecycle hook: this state was placed on the stack.
    pub fn on_start(&mut self)
        ensures
            *final(self) == old(self).on_start_spec(),
    {
    }

    /// Lifecycle hook: this state is about to leave the stack.
    pub fn on_stop(&mut self)
        ensures
            *final(self) == *old(self),
    {
    }

    /// Whether this state wants the state beneath it drawn first: only the
    /// pause overlay, which shows the frozen game through itself.
    pub open spec fn draws_beneath_spec(self) -> bool {
        self is Pause
    }

    /// Exec view of `draws_beneath_spec`.
    pub fn draws_beneath(&self) -> (r: bool)
        ensures
            r == self.draws_beneath_spec(),
    {
        match self {
            State::Pause(_) => true,
            _ => false,
        }
    }

    /// Per-frame dispatch: the sampled input and elapsed time go to this
    /// state's concrete data, which answers with a transition.
    pub fn update(&mut self, input: &InputState, dt_ms: u64) -> (t: Transition)
        requires
            old(self).wf(),
        ensures
            final(self).wf(),
            state_update_rel(*old(self), *input, dt_ms, *final(self), t),
            transition_wf(t),
    {
        match self {
            State::Intro(s) => s.update(input),
            State::Main(m) => m.update(input, dt_ms),
            State::Pause(p) => p.update(input),
        }
    }

    /// The quit-request handler. A state that declines returns `Stay`,
    /// which the manager reports as "not handled" so the caller can apply
    /// its default close action. None of this game's states claims the
    /// event.
    pub fn quit_request(&self) -> (t: Transition)
        ensures
            t == Transition::Stay,
    {
        Transition::Stay
    }
}

/// How one state's update relates its data before and after, and the
/// transition it returns: the intro switches to a fresh game on confirm,
/// the pause overlay pops itself on confirm, and the game steps by one
/// frame as `update_rel` fixes.
pub open spec fn state_update_rel(
    pre: State,
    input: InputState,
    dt: u64,
    post: State,
    t: Transition,
) -> bool {
    match pre {
        State::Intro(_) => post == pre && crate::introscene::intro_update_rel(input, t),
        State::Main(m) => post matches State::Main(m2) && crate::mainscene::update_rel(
            m,
            input,
            dt,
            m2,
            t,
        ),
        State::Pause(_) => post == pre && t == (if input.confirm {
            Transition::Pop
        } else {
            Transition::Stay
        }),
    }
}

/// Any state a transition carries must be usable before the manager may
/// place it on the stack.
pub open spec fn transition_wf(t: Transition) -> bool {
    match t {
        Transition::Push(s) => s.wf(),
        Transition::Switch(s) => s.wf(),
        _ => true,
    }
}

/// How one applied transition relates the stack before to the stack after,
/// and whether the session goes on. The effects follow the dispatch order:
/// `Pop` stops the outgoing top and resumes the state beneath it (or ends
/// the session when none is left); `Push` pauses the current top and
/// starts the new state above it; `Switch` stops the top and starts its
/// replacement in place.
pub open spec fn handle_rel(
    pre: Seq<State>,
    t: Transition,
    post: Seq<State>,
    status: SessionStatus,
) -> bool {
    let n = pre.len() as int;
    match t {
        Transition::Stay => {
            &&& post == pre
            &&& status == SessionStatus::Running
        },
        Transition::Pop => {
            if n == 1 {
                &&& post == pre.drop_last()
                &&& status == SessionStatus::Ended
            } else {
                &&& post == pre.drop_last().update(n - 2, pre[n - 2].on_resume_spec())
                &&& status == SessionStatus::Running
            }
        },
        Transition::Push(s) => {
            &&& post == pre.update(n - 1, pre[n - 1].on_pause_spec()).push(s.on_start_spec())
            &&& status == SessionStatus::Running
        },
        Transition::Switch(s) => {
            &&& post == pre.update(n - 1, s.on_start_spec())
            &&& status == SessionStatus::Running
        },
    }
}

/// The lowest stack index the draw pass reaches when it starts at index
/// `i`: it descends one entry at a time for as long as the entry it came
/// from asks for the one beneath to be drawn first.
pub open spec fn chain_start_from(s: Seq<State>, i: int) -> int
    decreases i,
{
    if i <= 0 {
        0
    } else if s[i].draws_beneath_spec() {
        chain_start_from(s, i - 1)
    } else {
        i
    }
}

/// The lowest stack index the draw pass reaches, starting from the top.
pub open spec fn chain_start(s: Seq<State>) -> int {
    chain_start_from(s, s.len() - 1)
}

/// Law: pushing an overlay and then popping it restores the stack to its
/// original shape, with the original top paused exactly once and then
/// resumed exactly once, in that order; the session keeps running through
/// both steps.
pub proof fn lemma_push_pop_round_trip(
    pre: Seq<State>,
    s: State,
    mid: Seq<State>,
    post: Seq<State>,
    st1: SessionStatus,
    st2: SessionStatus,
)
    requires
        pre.len() >= 1,
        handle_rel(pre, Transition::Push(s), mid, st1),
        handle_rel(mid, Transition::Pop, post, st2),
    ensures
        st1 == SessionStatus::Running,
        st2 == SessionStatus::Running,
        post == pre.update(pre.len() - 1, pre.last().on_pause_spec().on_resume_spec()),
        post.len() == pre.len(),
{
    let n = pre.len() as int;
    assert(mid.len() == n + 1);
    assert(mid.drop_last() =~= pre.update(n - 1, pre.last().on_pause_spec()));
    assert(mid[n - 1] == pre.last().on_pause_spec());
    assert(post =~= pre.update(n - 1, pre.last().on_pause_spec().on_resume_spec()));
}

/// Pausing and then resuming is the identity on every state that is not
/// already marked suspended — and the running top never is.
pub proof fn lemma_pause_resume_identity(s: State)
    requires
        s matches State::Main(m) ==> !m.paused,
    ensures
        s.on_pause_spec().on_resume_spec() == s,
{
}

/// Law: when the running top is not already suspended — and the active
/// top never is — pushing an overlay and popping it again is a complete
/// round trip: the stack afterwards equals the stack before.
pub proof fn lemma_push_pop_identity(
    pre: Seq<State>,
    s: State,
    mid: Seq<State>,
    post: Seq<State>,
    st1: SessionStatus,
    st2: SessionStatus,
)
    requires
        pre.len() >= 1,
        pre.last() matches State::Main(m) ==> !m.paused,
        handle_rel(pre, Transition::Push(s), mid, st1),
        handle_rel(mid, Transition::Pop, post, st2),
    ensures
        post == pre,
{
    lemma_push_pop_round_trip(pre, s, mid, post, st1, st2);
    lemma_pause_resume_identity(pre.last());
    assert(post =~= pre);
}

/// Law: a switch replaces the top state and never changes the stack depth.
pub proof fn lemma_switch_keeps_depth(
    pre: Seq<State>,
    s: State,
    post: Seq<State>,
    st: SessionStatus,
)
    requires
        pre.len() >= 1,
        handle_rel(pre, Transition::Switch(s), post, st),
    ensures
        post.len() == pre.len(),
        st == SessionStatus::Running,
{
}

/// Law: popping the last remaining state is the only transition that ends
/// the session.
pub proof fn lemma_only_last_pop_ends(
    pre: Seq<State>,
    t: Transition,
    post: Seq<State>,
    st: SessionStatus,
)
    requires
        pre.len() >= 1,
        handle_rel(pre, t, post, st),
    ensures
        st == SessionStatus::Ended <==> (t is Pop && pre.len() == 1),
{
}

/// The stack of scene states: the last entry is the active top. The stack
/// is never empty while the session runs; popping the final entry ends it.
pub struct StateManager {
    pub states: Vec<State>,
}

impl StateManager {
    /// At least one state, each of them usable.
    pub open spec fn wf(self) -> bool {
        &&& self.states@.len() >= 1
        &&& forall|i: int| 0 <= i < self.states@.len() ==> (#[trigger] self.states@[i]).wf()
    }

    /// A manager running a single starting state, with its start hook
    /// already delivered.
    pub fn new(st: State) -> (m: StateManager)
        requires
            st.wf(),
        ensures
            m.wf(),
            m.states@ == seq![st.on_start_spec()],
    {
        let mut st = st;
        st.on_start();
        let mut states: Vec<State> = Vec::new();
        states.push(st);
        proof {
            assert(states@ =~= seq![st]);
        }
        StateManager { states }
    }

    /// Apply one transition to the stack, firing the lifecycle hooks in the
    /// order the dispatch contract fixes.
    pub fn handle_transition(&mut self, t: Transition) -> (status: SessionStatus)
        requires
            old(self).wf(),
            transition_wf(t),
        ensures
            handle_rel(old(self).states@, t, final(self).states@, status),
            status == SessionStatus::Running ==> final(self).wf(),
            (status == SessionStatus::Ended <==> (t is Pop && old(self).states@.len() == 1)),
            status == SessionStatus::Ended ==> final(self).states@.len() == 0,
    {
        let ghost pre = self.states@;
        match t {
            Transition::Stay => SessionStatus::Running,
            Transition::Pop => {
                let mut outgoing = self.states.pop().unwrap();
                outgoing.on_stop();
                if self.states.len() == 0 {
                    return SessionStatus::Ended;
                }
                let mut new_top = self.states.pop().unwrap();
                new_top.on_resume();
                self.states.push(new_top);
                proof {
                    assert(self.states@ =~= pre.drop_last().update(
                        pre.len() - 2,
                        pre[pre.len() - 2].on_resume_spec(),
                    ));
                }
                SessionStatus::Running
            },
            Transition::Push(s) => {
                let mut s = s;
                let mut top = self.states.pop().unwrap();
                top.on_pause();
                self.states.push(top);
                let ghost pushed = s;
                s.on_start();
                self.states.push(s);
                proof {
                    assert(self.states@ =~= pre.update(
                        pre.len() - 1,
                        pre.last().on_pause_spec(),
                    ).push(pushed.on_start_spec()));
                }
                SessionStatus::Running
            },
            Transition::Switch(s) => {
                let mut s = s;
                let ghost incoming = s;
                let mut outgoing = self.states.pop().unwrap();
                outgoing.on_stop();
                s.on_start();
                self.states.push(s);
                proof {
                    assert(self.states@ =~= pre.update(pre.len() - 1, incoming.on_start_spec()));
                }
                SessionStatus::Running
            },
        }
    }

    /// The active state: the top of the stack.
    pub fn current_state(&self) -> (s: &State)
        requires
            self.wf(),
        ensures
            *s == self.states@.last(),
    {
        &self.states[self.states.len() - 1]
    }

    /// One frame: the update event is delivered to the active top state
    /// only, and the transition it returns is applied exactly once.
    pub fn update(&mut self, input: &InputState, dt_ms: u64) -> (status: SessionStatus)
        requires
            old(self).wf(),
        ensures
            exists|midtop: State, t: Transition|
                {
                    &&& #[trigger] state_update_rel(
                        old(self).states@.last(),
                        *input,
                        dt_ms,
                        midtop,
                        t,
                    )
                    &&& handle_rel(
                        old(self).states@.update(old(self).states@.len() - 1, midtop),
                        t,
                        final(self).states@,
                        status,
                    )
                },
            status == SessionStatus::Running ==> final(self).wf(),
            status == SessionStatus::Ended ==> final(self).states@.len() == 0,
    {
        let ghost pre = self.states@;
        let mut top = self.states.pop().unwrap();
        let t = top.update(input, dt_ms);
        let ghost midtop = top;
        let ghost tr = t;
        self.states.push(top);
        proof {
            assert(self.states@ =~= pre.update(pre.len() - 1, midtop));
        }
        let status = self.handle_transition(t);
        proof {
            assert(state_update_rel(old(self).states@.last(), *input, dt_ms, midtop, tr));
            assert(handle_rel(
                old(self).states@.update(old(self).states@.len() - 1, midtop),
                tr,
                self.states@,
                status,
            ));
        }
        status
    }

    /// The indices of the states the draw pass renders, in drawing order
    /// (bottom first): the top state, preceded by the chain of states
    /// beneath it for as long as each state above asks for the one below
    /// to be drawn first.
    pub fn draw_order(&self) -> (order: Vec<usize>)
        requires
            self.wf(),
        ensures
            order@.len() == self.states@.len() - chain_start(self.states@),
            forall|k: int|
                0 <= k < order@.len() ==> #[trigger] order@[k] as int == chain_start(self.states@)
                    + k,
    {
        let n = self.states.len();
        let mut start = n - 1;
        let mut cont = if start > 0 {
            self.states[start].draws_beneath()
        } else {
            false
        };
        while cont
            invariant
                self.wf(),
                n == self.states@.len(),
                start < n,
                cont ==> start > 0 && self.states@[start as int].draws_beneath_spec(),
                chain_start(self.states@) == (if cont {
                    chain_start_from(self.states@, start as int - 1)
                } else {
                    start as int
                }),
            decreases start,
        {
            start = start - 1;
            cont = if start > 0 {
                self.states[start].draws_beneath()
            } else {
                false
            };
        }
        let mut order: Vec<usize> = Vec::new();
        let mut i: usize = start;
        while i < n
            invariant
                start <= i <= n,
                order@.len() == i - start,
                forall|k: int| 0 <= k < order@.len() ==> #[trigger] order@[k] as int == start + k,
            decreases n - i,
        {
            order.push(i);
            i += 1;
        }
        order
    }

    /// Deliver a quit request to the active state. A declined request
    /// (transition `Stay`) is reported as not handled, so the caller can
    /// apply its default close action; any other transition is applied and
    /// the request is handled.
    pub fn quit_event(&mut self) -> (handled: bool)
        requires
            old(self).wf(),
        ensures
            !handled,
            *final(self) == *old(self),
    {
        let n = self.states.len();
        let t = self.states[n - 1].quit_request();
        match t {
            Transition::Stay => false,
            _ => {
                self.handle_transition(t);
                true
            },
        }
    }
}

} // verus!
