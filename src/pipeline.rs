//! The event pipeline: identify the contract, register the event, apply the
//! token event, skipping one event on any failure.

use vstd::prelude::*;
use vstd::seq_lib::group_filter_ensures;
use vstd::set_lib::lemma_set_disjoint_lens;
use crate::felt::Felt;

verus! {

/// The kind of contract that emitted an event; events of `Other` contracts
/// are of no interest to the indexer.
#[derive(PartialEq, Eq, Structural, Clone, Copy, Debug)]
pub enum ContractType {
    Erc721,
    Erc1155,
    Other,
}

/// An event goes on to the event registrar when its contract was identified
/// (`Some`) as a kind of interest.
pub open spec fn admits(identified: Option<ContractType>) -> bool {
    match identified {
        Some(t) => t != ContractType::Other,
        None => false,
    }
}

/// The pipeline's decision after identifying an event's contract:
/// `identified` is `None` when identification failed.
pub fn reaches_registrar(identified: Option<ContractType>) -> (r: bool)
    ensures
        r == admits(identified),
{
    match identified {
        Some(ContractType::Other) => false,
        Some(_) => true,
        None => false,
    }
}

/// Where the pipeline stands on its current event.
#[derive(PartialEq, Eq, Structural, Clone, Copy, Debug)]
pub enum PipelineStage {
    Identify,
    RegisterEvent,
    RegisterToken,
}

/// What the driver must do next for the event pipeline.
#[derive(PartialEq, Eq, Structural, Clone, Copy, Debug)]
pub enum PipelineAction {
    /// Identify the contract that emitted event `index`, at the block's number.
    Identify { index: usize },
    /// Register event `index` as an event of a `contract_type` contract, at
    /// the block's timestamp.
    RegisterEvent { index: usize, contract_type: ContractType },
    /// Apply the token event just registered for event `index`.
    RegisterToken { index: usize },
    /// Every event went through.
    Finished,
}

/// What the driver hands back after performing an action.
#[derive(PartialEq, Eq, Structural, Clone, Copy, Debug)]
pub enum PipelineInput {
    /// The contract's kind, or `None` where identification failed.
    Identified { contract_type: Option<ContractType> },
    Succeeded,
    Failed,
}

/// The pipeline over the `count` events of one block or transaction, in order.
#[derive(PartialEq, Eq, Structural, Clone, Copy, Debug)]
pub struct EventPipeline {
    pub count: usize,
    pub index: usize,
    pub stage: PipelineStage,
    pub contract_type: ContractType,
}

pub open spec fn pipeline_start(count: usize) -> EventPipeline {
    EventPipeline { count, index: 0, stage: PipelineStage::Identify, contract_type: ContractType::Other }
}

/// The action that state `p` asks of the driver.
pub open spec fn pipeline_action(p: EventPipeline) -> PipelineAction {
    if p.index >= p.count {
        PipelineAction::Finished
    } else {
        match p.stage {
            PipelineStage::Identify => PipelineAction::Identify { index: p.index },
            PipelineStage::RegisterEvent => PipelineAction::RegisterEvent { index: p.index, contract_type: p.contract_type },
            PipelineStage::RegisterToken => PipelineAction::RegisterToken { index: p.index },
        }
    }
}

/// On to the next event.
pub open spec fn pipeline_skip(p: EventPipeline) -> EventPipeline {
    EventPipeline { index: (p.index + 1) as usize, stage: PipelineStage::Identify, ..p }
}

/// The state after the driver performed `pipeline_action(p)` and handed
/// back `i`. An input that does not answer the action leaves the state as it is.
pub open spec fn pipeline_next(p: EventPipeline, i: PipelineInput) -> EventPipeline {
    if p.index >= p.count {
        p
    } else {
        match (p.stage, i) {
            (PipelineStage::Identify, PipelineInput::Identified { contract_type }) => {
                if admits(contract_type) {
                    EventPipeline { stage: PipelineStage::RegisterEvent, contract_type: contract_type->Some_0, ..p }
                } else {
                    pipeline_skip(p)
                }
            },
            (PipelineStage::RegisterEvent, PipelineInput::Succeeded) => EventPipeline { stage: PipelineStage::RegisterToken, ..p },
            (PipelineStage::RegisterEvent, PipelineInput::Failed) => pipeline_skip(p),
            (PipelineStage::RegisterToken, PipelineInput::Succeeded) => pipeline_skip(p),
            (PipelineStage::RegisterToken, PipelineInput::Failed) => pipeline_skip(p),
            _ => p,
        }
    }
}

/// Only a contract of interest is ever handed to the registrars.
pub open spec fn pipeline_wf(p: EventPipeline) -> bool {
    &&& p.index <= p.count
    &&& p.stage != PipelineStage::Identify ==> p.contract_type != ContractType::Other
}

impl EventPipeline {
    /// A pipeline over `count` events, starting with the first.
    pub fn new(count: usize) -> (r: EventPipeline)
        ensures
            r == pipeline_start(count),
            pipeline_wf(r),
    {
        EventPipeline { count, index: 0, stage: PipelineStage::Identify, contract_type: ContractType::Other }
    }

    /// The action the driver must perform next.
    pub fn action(&self) -> (r: PipelineAction)
        ensures
            r == pipeline_action(*self),
    {
        if self.index >= self.count {
            PipelineAction::Finished
        } else {
            match self.stage {
                PipelineStage::Identify => PipelineAction::Identify { index: self.index },
                PipelineStage::RegisterEvent => PipelineAction::RegisterEvent {
                    index: self.index,
                    contract_type: self.contract_type,
                },
                PipelineStage::RegisterToken => PipelineAction::RegisterToken { index: self.index },
            }
        }
    }

    fn skip(&mut self)
        requires
            old(self).index < old(self).count,
        ensures
            *final(self) == pipeline_skip(*old(self)),
    {
        self.index = self.index + 1;
        self.stage = PipelineStage::Identify;
    }

    /// Moves on once the driver performed `self.action()` and handed back
    /// `input`; returns the next action.
    pub fn step(&mut self, input: PipelineInput) -> (r: PipelineAction)
        requires
            pipeline_wf(*old(self)),
        ensures
            *final(self) == pipeline_next(*old(self), input),
            pipeline_wf(*final(self)),
            r == pipeline_action(*final(self)),
    {
        if self.index < self.count {
            match (self.stage, input) {
                (PipelineStage::Identify, PipelineInput::Identified { contract_type }) => {
                    if reaches_registrar(contract_type) {
                        if let Some(t) = contract_type {
                            self.stage = PipelineStage::RegisterEvent;
                            self.contract_type = t;
                        }
                    } else {
                        self.skip();
                    }
                },
                (PipelineStage::RegisterEvent, PipelineInput::Succeeded) => {
                    self.stage = PipelineStage::RegisterToken;
                },
                (PipelineStage::RegisterEvent, PipelineInput::Failed) => { self.skip(); },
                (PipelineStage::RegisterToken, PipelineInput::Succeeded) => { self.skip(); },
                (PipelineStage::RegisterToken, PipelineInput::Failed) => { self.skip(); },
                _ => {},
            }
        }
        self.action()
    }
}

/// One event's failure, at whatever stage, never stops the events after it:
/// the pipeline goes on with the next event's identification.
pub proof fn lemma_pipeline_failure_moves_on(p: EventPipeline)
    requires
        pipeline_wf(p),
        p.index < p.count,
    ensures
        p.stage != PipelineStage::Identify ==> pipeline_next(p, PipelineInput::Failed) == pipeline_skip(p),
        p.stage == PipelineStage::Identify ==> pipeline_next(p, PipelineInput::Identified { contract_type: None }) == pipeline_skip(p),
        pipeline_action(pipeline_skip(p)) == if p.index + 1 < p.count {
            PipelineAction::Identify { index: (p.index + 1) as usize }
        } else {
            PipelineAction::Finished
        },
{
}

/// An event whose contract identifies as `Other`, or cannot be identified,
/// never reaches the event registrar; one of interest goes to it with the
/// kind found.
pub proof fn lemma_pipeline_registers_only_relevant(p: EventPipeline, t: Option<ContractType>)
    requires
        pipeline_wf(p),
        p.index < p.count,
        p.stage == PipelineStage::Identify,
    ensures
        pipeline_action(pipeline_next(p, PipelineInput::Identified { contract_type: t })) is RegisterEvent
            <==> admits(t),
        admits(t) ==> pipeline_action(pipeline_next(p, PipelineInput::Identified { contract_type: t }))
            == (PipelineAction::RegisterEvent { index: p.index, contract_type: t->Some_0 }),
{
}

/// The source addresses of the events, in order, that reach the registrar
/// when every contract identifies as `class` says.
pub open spec fn registrar_sources(sources: Seq<Felt>, class: Map<Felt, ContractType>) -> Seq<Felt> {
    sources.filter(|a: Felt| admits(Some(class[a])))
}

/// Of the distinct contracts that emitted a block's events, those of kind
/// `Other` never reach the registrar and all others do: the contracts that
/// reach it number the distinct contracts less the irrelevant ones.
pub proof fn lemma_irrelevant_contracts_skipped(sources: Seq<Felt>, class: Map<Felt, ContractType>)
    requires
        forall|i: int| 0 <= i < sources.len() ==> class.contains_key(#[trigger] sources[i]),
    ensures
        forall|a: Felt| #[trigger] registrar_sources(sources, class).contains(a) ==> class[a] != ContractType::Other,
        registrar_sources(sources, class).to_set() == sources.to_set().filter(|a: Felt| class[a] != ContractType::Other),
        registrar_sources(sources, class).to_set().len()
            == sources.to_set().len() - sources.to_set().filter(|a: Felt| class[a] == ContractType::Other).len(),
{
    broadcast use group_filter_ensures;
    let p = |a: Felt| admits(Some(class[a]));
    let all = sources.to_set();
    let rel = all.filter(|a: Felt| class[a] != ContractType::Other);
    let irr = all.filter(|a: Felt| class[a] == ContractType::Other);
    let reg = registrar_sources(sources, class);
    assert forall|a: Felt| #[trigger] reg.contains(a) implies class[a] != ContractType::Other by {
        let i = choose|i: int| 0 <= i < reg.len() && reg[i] == a;
        assert(p(reg[i]));
    }
    assert forall|a: Felt| reg.to_set().contains(a) <==> #[trigger] rel.contains(a) by {
        if rel.contains(a) {
            let i = choose|i: int| 0 <= i < sources.len() && sources[i] == a;
            sources.lemma_filter_contains(p, i);
        }
        if reg.contains(a) {
            sources.lemma_filter_contains_rev(p, a);
        }
    }
    assert(reg.to_set() =~= rel);
    vstd::seq_lib::seq_to_set_is_finite(sources);
    all.lemma_len_filter(|a: Felt| class[a] != ContractType::Other);
    all.lemma_len_filter(|a: Felt| class[a] == ContractType::Other);
    assert(rel + irr =~= all);
    lemma_set_disjoint_lens(rel, irr);
}

} // verus!
