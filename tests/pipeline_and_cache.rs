use pontos::felt::{contains_felt, Felt};
use pontos::pending::PendingBlockData;
use pontos::pipeline::{reaches_registrar, ContractType, EventPipeline, PipelineAction, PipelineInput};
use pontos::{IndexerError, PontosConfig};
use std::collections::HashSet;

#[test]
fn pipeline_decisions() {
    assert!(reaches_registrar(Some(ContractType::Erc721)));
    assert!(reaches_registrar(Some(ContractType::Erc1155)));
    assert!(!reaches_registrar(Some(ContractType::Other)));
    assert!(!reaches_registrar(None));
}

#[test]
fn pipeline_irrelevant_contracts_never_registered() {
    let class = |a: u128| match a {
        1 | 2 => ContractType::Erc721,
        3 => ContractType::Erc1155,
        _ => ContractType::Other,
    };
    // Events from contracts 1, 2, 3, 4, 5 (some more than once); 4 and 5 are irrelevant.
    let sources = vec![1u128, 4, 2, 1, 5, 3, 4];
    let mut registered = HashSet::new();
    for s in &sources {
        if reaches_registrar(Some(class(*s))) {
            registered.insert(*s);
        }
    }
    let distinct: HashSet<u128> = sources.iter().cloned().collect();
    assert_eq!(distinct.len(), 5);
    assert_eq!(registered.len(), 5 - 2);
    assert!(!registered.contains(&4));
    assert!(!registered.contains(&5));
}

#[test]
fn pending_cache_records_hashes() {
    let mut c = PendingBlockData::new();
    assert_eq!(c.get_timestamp(), 0);
    c.set_timestamp(12);
    let a = Felt::new(1, 2);
    let b = Felt::new(1, 3);
    assert!(!c.is_tx_processed(&a));
    c.add_tx_as_processed(&a);
    c.add_tx_as_processed(&a);
    assert!(c.is_tx_processed(&a));
    assert!(!c.is_tx_processed(&b));
    assert_eq!(c.tx_hashes.len(), 1);
    c.clear_tx_hashes();
    assert!(!c.is_tx_processed(&a));
    assert_eq!(c.get_timestamp(), 12);
    c.add_tx_as_processed(&b);
    c.reset(40);
    assert_eq!(c.get_timestamp(), 40);
    assert!(c.tx_hashes.is_empty());
}

#[test]
fn felt_lookup() {
    let hs = vec![Felt::new(0, 5), Felt::new(7, 5)];
    assert!(contains_felt(&hs, Felt::new(7, 5)));
    assert!(!contains_felt(&hs, Felt::new(5, 7)));
    assert!(!contains_felt(&Vec::new(), Felt::from_u128(0)));
    assert_eq!(Felt::from_u128(9), Felt::new(0, 9));
}

#[test]
fn config_and_errors() {
    let c = PontosConfig { indexer_version: "1".to_string(), indexer_identifier: "main".to_string() };
    assert_eq!(c.clone().indexer_identifier, "main");
    assert_ne!(IndexerError::Anyhow("x".to_string()), IndexerError::StorageError("x".to_string()));
}

#[test]
fn pipeline_runs_every_event_despite_failures() {
    let mut p = EventPipeline::new(4);
    assert_eq!(p.action(), PipelineAction::Identify { index: 0 });
    // Event 0: identification fails.
    assert_eq!(p.step(PipelineInput::Identified { contract_type: None }), PipelineAction::Identify { index: 1 });
    // Event 1: irrelevant contract.
    assert_eq!(
        p.step(PipelineInput::Identified { contract_type: Some(ContractType::Other) }),
        PipelineAction::Identify { index: 2 }
    );
    // Event 2: registration fails.
    assert_eq!(
        p.step(PipelineInput::Identified { contract_type: Some(ContractType::Erc1155) }),
        PipelineAction::RegisterEvent { index: 2, contract_type: ContractType::Erc1155 }
    );
    assert_eq!(p.step(PipelineInput::Failed), PipelineAction::Identify { index: 3 });
    // Event 3: goes all the way.
    assert_eq!(
        p.step(PipelineInput::Identified { contract_type: Some(ContractType::Erc721) }),
        PipelineAction::RegisterEvent { index: 3, contract_type: ContractType::Erc721 }
    );
    assert_eq!(p.step(PipelineInput::Succeeded), PipelineAction::RegisterToken { index: 3 });
    assert_eq!(p.step(PipelineInput::Failed), PipelineAction::Finished);
    assert_eq!(p.step(PipelineInput::Succeeded), PipelineAction::Finished);
}

#[test]
fn pipeline_empty_finishes_at_once() {
    assert_eq!(EventPipeline::new(0).action(), PipelineAction::Finished);
}

#[test]
fn pipeline_irrelevant_contracts_reach_registrar_count() {
    // Five events from contracts 10, 11, 12, 10, 13; 11 and 13 are irrelevant.
    let sources = [10u128, 11, 12, 10, 13];
    let class = |a: u128| if a == 11 || a == 13 { ContractType::Other } else { ContractType::Erc721 };
    let mut p = EventPipeline::new(sources.len());
    let mut registered = HashSet::new();
    let mut action = p.action();
    loop {
        let input = match action {
            PipelineAction::Identify { index } => PipelineInput::Identified { contract_type: Some(class(sources[index])) },
            PipelineAction::RegisterEvent { index, .. } => {
                registered.insert(sources[index]);
                PipelineInput::Succeeded
            }
            PipelineAction::RegisterToken { .. } => PipelineInput::Succeeded,
            PipelineAction::Finished => break,
        };
        action = p.step(input);
    }
    let expected: HashSet<u128> = [10u128, 12].into_iter().collect();
    assert_eq!(registered, expected);
}
