//! The hook chain: host code consulted, in registration order, before a
//! prompt is submitted and around each tool execution.
//!
//! Hooks may be long-running, so the chain is a state machine: the caller
//! hands the current event to the next hook, records its decision, and
//! repeats until the chain is done.
use vstd::prelude::*;
use crate::error::Error;

verus! {

/// The lifecycle point a chain runs at.
#[derive(Debug, Clone, Copy, PartialEq, Eq)]
pub enum HookPoint {
    UserPromptSubmit,
    PreToolUse,
    PostToolUse,
}

/// A hook's answer: proceed unchanged, refuse with a reason, or proceed
/// with a replaced event (the prompt text, or the tool input).
#[derive(Debug)]
pub enum HookDecision<T> {
    Continue,
    Block(String),
    Modify(T),
}

/// The result of a whole chain: proceed with the (possibly replaced) event,
/// or refuse with the reason of the hook that blocked.
#[derive(Debug)]
pub enum ChainOutcome<T> {
    Continue(T),
    Block(String),
}

/// Model of a running chain.
pub struct ChainModel<T> {
    /// The event the next hook is handed.
    pub event: T,
    /// Hooks registered at this point.
    pub total: nat,
    /// Hooks invoked so far.
    pub invoked: nat,
    /// The reason of the hook that blocked, if one did.
    pub blocked: Option<Seq<char>>,
}

/// A chain of `total` hooks about to hand `event` to the first.
pub open spec fn chain_start<T>(event: T, total: nat) -> ChainModel<T> {
    ChainModel { event, total, invoked: 0, blocked: None }
}

/// No hook is left to invoke: all have run, or one blocked.
pub open spec fn chain_done<T>(s: ChainModel<T>) -> bool {
    s.blocked is Some || s.invoked >= s.total
}

/// The chain after the next hook answered `d`.
pub open spec fn chain_step<T>(s: ChainModel<T>, d: HookDecision<T>) -> ChainModel<T> {
    match d {
        HookDecision::Continue => ChainModel { invoked: s.invoked + 1, ..s },
        HookDecision::Block(reason) => ChainModel { invoked: s.invoked + 1, blocked: Some(reason@), ..s },
        HookDecision::Modify(e) => ChainModel { event: e, invoked: s.invoked + 1, ..s },
    }
}

/// The chain after the hooks answered `ds` in turn; answers after a block
/// are never asked for, so they change nothing.
pub open spec fn chain_run<T>(s: ChainModel<T>, ds: Seq<HookDecision<T>>) -> ChainModel<T>
    decreases ds.len(),
{
    if ds.len() == 0 {
        s
    } else {
        let prev = chain_run(s, ds.drop_last());
        if chain_done(prev) {
            prev
        } else {
            chain_step(prev, ds.last())
        }
    }
}

/// A block stops the chain: of three hooks, when the second blocks, the
/// chain is done after two invocations, so the third is never handed the
/// event, and the chain ends in the second hook's refusal.
pub proof fn lemma_block_stops_chain<T>(event: T, first: HookDecision<T>, reason: String, third: HookDecision<T>)
    requires
        !(first is Block),
    ensures
        ({
            let s = chain_run(chain_start(event, 3), seq![first, HookDecision::Block(reason), third]);
            &&& chain_done(chain_run(chain_start(event, 3), seq![first, HookDecision::Block(reason)]))
            &&& s == chain_run(chain_start(event, 3), seq![first, HookDecision::Block(reason)])
            &&& s.invoked == 2
            &&& s.blocked == Some(reason@)
        }),
{
    let s0 = chain_start(event, 3);
    let ds1 = seq![first];
    let ds2 = seq![first, HookDecision::Block(reason)];
    let ds3 = seq![first, HookDecision::Block(reason), third];
    assert(ds1.drop_last() =~= Seq::<HookDecision<T>>::empty());
    assert(ds2.drop_last() =~= ds1);
    assert(ds3.drop_last() =~= ds2);
    assert(chain_run(s0, Seq::<HookDecision<T>>::empty()) == s0);
    let s1 = chain_run(s0, ds1);
    assert(s1 == chain_step(s0, first));
    assert(s1.invoked == 1 && s1.blocked is None);
    let s2 = chain_run(s0, ds2);
    assert(s2 == chain_step(s1, HookDecision::Block(reason)));
    assert(chain_done(s2));
    assert(chain_run(s0, ds3) == s2);
}

/// A modification is passed on: when the first of two or more hooks answers
/// `Modify(e)`, the second hook is handed `e`, not the original event.
pub proof fn lemma_modify_passes_on<T>(event: T, total: nat, modified: T)
    requires
        total >= 2,
    ensures
        ({
            let s = chain_run(chain_start(event, total), seq![HookDecision::Modify(modified)]);
            &&& !chain_done(s)
            &&& s.event == modified
            &&& s.invoked == 1
        }),
{
    let s0 = chain_start(event, total);
    let ds = seq![HookDecision::Modify(modified)];
    assert(ds.drop_last() =~= Seq::<HookDecision<T>>::empty());
    assert(chain_run(s0, Seq::<HookDecision<T>>::empty()) == s0);
    assert(chain_run(s0, ds) == chain_step(s0, HookDecision::Modify(modified)));
}

/// A chain in progress.
#[derive(Debug)]
pub struct HookChain<T> {
    event: T,
    total: usize,
    invoked: usize,
    blocked: Option<String>,
}

pub open spec fn opt_view(o: Option<String>) -> Option<Seq<char>> {
    match o {
        Some(s) => Some(s@),
        None => None,
    }
}

impl<T> HookChain<T> {
    pub closed spec fn view(&self) -> ChainModel<T> {
        ChainModel {
            event: self.event,
            total: self.total as nat,
            invoked: self.invoked as nat,
            blocked: opt_view(self.blocked),
        }
    }

    /// A chain of `total` hooks for `event`.
    pub fn new(event: T, total: usize) -> (r: HookChain<T>)
        ensures
            r@ == chain_start(event, total as nat),
    {
        HookChain { event, total, invoked: 0, blocked: None }
    }

    /// Whether no hook is left to invoke.
    pub fn is_done(&self) -> (r: bool)
        ensures
            r == chain_done(self@),
    {
        self.blocked.is_some() || self.invoked >= self.total
    }

    /// The event to hand to the next hook, or `None` when the chain is done.
    pub fn next_event(&self) -> (r: Option<&T>)
        ensures
            r is Some <==> !chain_done(self@),
            r matches Some(e) ==> *e == self@.event,
    {
        if self.blocked.is_some() || self.invoked >= self.total {
            None
        } else {
            Some(&self.event)
        }
    }

    /// Records the answer of the hook that was handed the event.
    pub fn record(&mut self, d: HookDecision<T>)
        requires
            !chain_done(old(self)@),
        ensures
            final(self)@ == chain_step(old(self)@, d),
    {
        self.invoked = self.invoked + 1;
        match d {
            HookDecision::Continue => {},
            HookDecision::Block(reason) => {
                self.blocked = Some(reason);
            },
            HookDecision::Modify(e) => {
                self.event = e;
            },
        }
    }

    /// The chain's result: the refusal of the hook that blocked, else the
    /// event as the last hook left it.
    pub fn outcome(self) -> (r: ChainOutcome<T>)
        ensures
            self@.blocked matches Some(reason) ==> (r matches ChainOutcome::Block(m) && m@ == reason),
            self@.blocked is None ==> r == ChainOutcome::Continue(self@.event),
    {
        match self.blocked {
            Some(reason) => ChainOutcome::Block(reason),
            None => ChainOutcome::Continue(self.event),
        }
    }
}

/// The error a refusal surfaces as: invalid input for a prompt, a tool error
/// around tool execution.
pub fn refusal_error(point: HookPoint, reason: &str) -> (r: Error)
    ensures
        point is UserPromptSubmit ==> (r matches Error::InvalidInput(m) && m@ == "blocked by hook: "@
            + reason@),
        !(point is UserPromptSubmit) ==> (r matches Error::Tool(m) && m@ == "blocked by hook: "@
            + reason@),
{
    let m = String::from_str("blocked by hook: ").concat(reason);
    match point {
        HookPoint::UserPromptSubmit => Error::InvalidInput(m),
        _ => Error::Tool(m),
    }
}

} // verus!
