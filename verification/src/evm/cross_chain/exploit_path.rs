//! The steps that led to a bug.

use vstd::prelude::*;

use crate::evm::cross_chain::executor::CrossChainMutationMeta;
use crate::evm::cross_chain::{CrossChainMessage, MessageView};
use crate::evm::types::EVMAddress;

verus! {

/// The two kinds of bridge transactions.
#[derive(Clone, Copy, Debug, PartialEq, Eq, Structural)]
pub enum StepKind {
    Deposit,
    Relay,
}

/// One bridge transaction that took effect, with all that is needed to repeat
/// it.
#[derive(Debug)]
pub struct ExploitStep {
    pub kind: StepKind,
    pub message: CrossChainMessage,
    pub token: EVMAddress,
    pub sig_count: u32,
    pub meta: CrossChainMutationMeta,
}

/// What an [`ExploitStep`] holds.
#[verifier::ext_equal]
pub struct StepView {
    pub kind: StepKind,
    pub message: MessageView,
    pub token: EVMAddress,
    pub sig_count: u32,
    pub meta: CrossChainMutationMeta,
}

impl View for ExploitStep {
    type V = StepView;

    open spec fn view(&self) -> StepView {
        StepView {
            kind: self.kind,
            message: self.message@,
            token: self.token,
            sig_count: self.sig_count,
            meta: self.meta,
        }
    }
}

impl Clone for ExploitStep {
    fn clone(&self) -> (r: ExploitStep)
        ensures
            r@ == self@,
    {
        ExploitStep {
            kind: self.kind,
            message: self.message.clone(),
            token: self.token,
            sig_count: self.sig_count,
            meta: self.meta,
        }
    }
}

impl ExploitStep {
    /// The step of a deposit that was enqueued.
    pub fn deposit(
        msg: &CrossChainMessage,
        token: EVMAddress,
        sig_count: u32,
        meta: CrossChainMutationMeta,
    ) -> (r: ExploitStep)
        ensures
            r@ == (StepView { kind: StepKind::Deposit, message: msg@, token, sig_count, meta }),
    {
        ExploitStep { kind: StepKind::Deposit, message: msg.clone(), token, sig_count, meta }
    }

    /// The step of a relay that was executed.
    pub fn relay(
        msg: &CrossChainMessage,
        token: EVMAddress,
        sig_count: u32,
        meta: CrossChainMutationMeta,
    ) -> (r: ExploitStep)
        ensures
            r@ == (StepView { kind: StepKind::Relay, message: msg@, token, sig_count, meta }),
    {
        ExploitStep { kind: StepKind::Relay, message: msg.clone(), token, sig_count, meta }
    }
}

/// Steps in the order in which they took effect.
#[derive(Debug)]
pub struct ExploitPath {
    pub steps: Vec<ExploitStep>,
}

impl View for ExploitPath {
    type V = Seq<StepView>;

    open spec fn view(&self) -> Seq<StepView> {
        self.steps@.map_values(|s: ExploitStep| s@)
    }
}

impl Clone for ExploitPath {
    fn clone(&self) -> (r: ExploitPath)
        ensures
            r@ == self@,
    {
        let mut steps: Vec<ExploitStep> = Vec::new();
        let mut i: usize = 0;
        while i < self.steps.len()
            invariant
                i <= self.steps@.len(),
                steps@.len() == i,
                forall|j: int| 0 <= j < i ==> (#[trigger] steps@[j])@ == self.steps@[j]@,
            decreases self.steps.len() - i,
        {
            steps.push(self.steps[i].clone());
            i = i + 1;
        }
        let r = ExploitPath { steps };
        assert(r@ =~= self@);
        r
    }
}

impl ExploitPath {
    /// The path without steps.
    pub fn new() -> (r: ExploitPath)
        ensures
            r@ == Seq::<StepView>::empty(),
    {
        let r = ExploitPath { steps: Vec::new() };
        assert(r@ =~= Seq::<StepView>::empty());
        r
    }

    /// Appends a step.
    pub fn push(&mut self, step: ExploitStep)
        ensures
            final(self)@ == old(self)@.push(step@),
    {
        self.steps.push(step);
        assert(self@ =~= old(self)@.push(step@));
    }
}

} // verus!
