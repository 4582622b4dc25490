use sui_hooks::dry_run::{
    dry_exec_transaction_override_impl, DryRun, DryRunError, DryRunOutcome, DryRunRequest,
    DryRunTypes, Execution, ExecutionOptions, GasCoin, Reply, Stage,
};
use sui_hooks::object::{ObjectId, ObjectRef, Owner, WriteKind};
use sui_hooks::object_map::ObjectMap;
use sui_hooks::written_objects::{refers_to_written, written_with_kind};

struct Node;

impl DryRunTypes for Node {
    type Transaction = &'static str;
    type Signature = &'static str;
    type InputKinds = u8;
    type ReceivingRefs = u16;
    type InputObjects = u32;
    type ReceivingObjects = u64;
    type GasStatus = i8;
    type CheckedInputs = i16;
    type Object = String;
    type Effects = &'static str;
    type Store = &'static str;
    type InputView = &'static str;
    type EffectsView = &'static str;
    type EventsView = &'static str;
    type ObjectChange = ();
    type BalanceChange = ();
    type Error = &'static str;
}

const OPTIONS: ExecutionOptions = ExecutionOptions {
    silent: true,
    expensive_checks: false,
    early_error: false,
    trace: false,
};

fn id(n: u8) -> ObjectId {
    [n; 32]
}

fn oref(n: u8, version: u64) -> (ObjectRef, Owner) {
    ((id(n), version, id(n + 100)), Owner::NotAnAddress)
}

fn request(gas_payment: Vec<ObjectRef>) -> DryRunRequest<Node> {
    DryRunRequest {
        transaction: "tx",
        transaction_digest: id(50),
        sender: id(60),
        object_start_version: 1,
        genesis_marker: id(61),
        gas_payment,
        override_objects: vec![(id(1), "over".to_string())],
    }
}

fn execution(error: Result<(), Option<String>>) -> Execution<Node> {
    let mut written = ObjectMap::new();
    for n in 1..=3u8 {
        written.insert(id(n), format!("object {}", n));
    }
    Execution {
        written,
        created: vec![oref(3, 1)],
        unwrapped: vec![oref(1, 4)],
        mutated: vec![oref(2, 9)],
        effects_digest: id(51),
        effects: "effects",
        store: "store",
        error,
    }
}

/// The reply to the call that is due. The call numbered `fail_at` fails.
fn reply(run: &DryRun<Node>, number: usize, fail_at: Option<usize>) -> Option<Reply<Node>> {
    let fails = fail_at == Some(number);
    Some(match &run.stage {
        Stage::CheckValidity => Reply::Checked(if fails { Err("validity") } else { Ok(()) }),
        Stage::ListInputs => Reply::Inputs(if fails { Err("inputs") } else { Ok((11, 12)) }),
        Stage::CheckDeny { tx_signatures, input_kinds, receiving_refs } => {
            assert!(tx_signatures.is_empty());
            assert_eq!((*input_kinds, *receiving_refs), (11, 12));
            Reply::Checked(if fails { Err("deny") } else { Ok(()) })
        }
        Stage::ReadObjects { input_kinds, receiving_refs, cache_for } => {
            assert_eq!((*input_kinds, *receiving_refs, *cache_for), (11, 12, None));
            Reply::Objects(if fails { Err("read") } else { Ok((13, 14)) })
        }
        Stage::DrawGasId { input_objects, receiving_objects } => {
            assert_eq!((*input_objects, *receiving_objects), (13, 14));
            Reply::GasId(id(99))
        }
        Stage::CheckInputWithGivenGas { input_objects, receiving_objects, gas } => {
            assert_eq!((*input_objects, *receiving_objects), (13, 14));
            let coin = GasCoin {
                id: id(99),
                version: 1,
                value: 1_000_000_000_000_000_000,
                owner: Owner::AddressOwner(id(60)),
                previous_transaction: id(61),
            };
            assert_eq!(*gas, coin);
            Reply::InputChecked(if fails { Err("given gas") } else { Ok((15, 16)) })
        }
        Stage::CheckInput { input_objects, receiving_objects } => {
            assert_eq!((*input_objects, *receiving_objects), (13, 14));
            Reply::InputChecked(if fails { Err("input") } else { Ok((15, 16)) })
        }
        Stage::Execute { transaction_digest, gas_status, checked_inputs, options, .. } => {
            assert_eq!(*transaction_digest, id(50));
            assert_eq!((*gas_status, *checked_inputs), (15, 16));
            assert_eq!(*options, OPTIONS);
            Reply::Executed(execution(Err(Some("out of gas".to_string()))))
        }
        Stage::SuggestGasPrice { .. } => Reply::GasPrice(Some(750)),
        Stage::ConvertInput { executed, .. } => {
            assert_eq!(executed.store, "store");
            Reply::InputConverted(if fails { Err("no module".to_string()) } else { Ok("input") })
        }
        Stage::ConvertEffects { executed, .. } => {
            assert_eq!(executed.effects, "effects");
            Reply::EffectsConverted(if fails { Err("effects") } else { Ok("effects view") })
        }
        Stage::ConvertEvents { timestamp, executed, .. } => {
            assert_eq!(*timestamp, None);
            assert_eq!(executed.effects_digest, id(51));
            assert_eq!(executed.store, "store");
            Reply::EventsConverted(if fails { Err("events") } else { Ok("events view") })
        }
        Stage::Finished(_) => return None,
    })
}

/// Runs to the end; also tells how many calls were made.
fn run(
    gas_payment: Vec<ObjectRef>,
    fail_at: Option<usize>,
) -> (Result<DryRunOutcome<Node>, DryRunError<&'static str>>, usize) {
    let mut run = dry_exec_transaction_override_impl(request(gas_payment));
    let mut calls = 0;
    while let Some(reply) = reply(&run, calls, fail_at) {
        run = run.advance(reply);
        assert_eq!(run.request.transaction, "tx");
        assert_eq!(run.request.override_objects, vec![(id(1), "over".to_string())]);
        calls += 1;
    }
    match run.stage {
        Stage::Finished(result) => (result, calls),
        _ => unreachable!(),
    }
}

fn coin() -> Vec<ObjectRef> {
    vec![(id(70), 1, id(71))]
}

fn node_error(result: Result<DryRunOutcome<Node>, DryRunError<&'static str>>) -> &'static str {
    match result {
        Err(DryRunError::Node(e)) => e,
        _ => panic!("not an error of the node"),
    }
}

#[test]
fn without_gas_payment_a_coin_is_made_up() {
    let (result, calls) = run(vec![], None);
    assert_eq!(calls, 11);
    assert_eq!(result.ok().unwrap().mock_gas, Some(id(99)));
}

#[test]
fn with_gas_payment_no_coin_is_made_up() {
    let (result, calls) = run(coin(), None);
    assert_eq!(calls, 10);
    assert_eq!(result.ok().unwrap().mock_gas, None);
}

#[test]
fn only_reading_and_executing_see_the_overriding_objects() {
    let mut run = dry_exec_transaction_override_impl(request(vec![]));
    let mut calls = 0;
    let mut seen: Vec<usize> = Vec::new();
    while let Some(reply) = reply(&run, calls, None) {
        if let Some(objects) = run.overrides() {
            assert_eq!(*objects, vec![(id(1), "over".to_string())]);
            seen.push(calls);
        }
        run = run.advance(reply);
        calls += 1;
    }
    assert_eq!(seen, vec![3, 6]);
    assert!(run.overrides().is_none());
}

#[test]
fn the_outcome_is_what_the_node_replied() {
    let outcome = run(coin(), None).0.ok().unwrap();
    assert_eq!(outcome.effects, "effects");
    let response = outcome.response;
    assert_eq!(response.suggested_gas_price, Some(750));
    assert_eq!(response.input, "input");
    assert_eq!(response.effects, "effects view");
    assert_eq!(response.events, "events view");
    assert_eq!(response.execution_error_source, Some("out of gas".to_string()));
    assert!(response.object_changes.is_empty());
    assert!(response.balance_changes.is_empty());
    let written = outcome.written_with_kind;
    assert_eq!(written.len(), 3);
    let entry = (oref(1, 4).0, "object 1".to_string(), WriteKind::Unwrap);
    assert_eq!(*written.entry(0), (id(1), entry));
    let entry = (oref(2, 9).0, "object 2".to_string(), WriteKind::Mutate);
    assert_eq!(*written.entry(1), (id(2), entry));
    let entry = (oref(3, 1).0, "object 3".to_string(), WriteKind::Create);
    assert_eq!(*written.entry(2), (id(3), entry));
}

#[test]
fn the_first_failure_ends_the_run() {
    let unpaid = [(0, "validity"), (1, "inputs"), (2, "deny"), (3, "read"), (5, "given gas")];
    for (at, error) in unpaid {
        let (result, calls) = run(vec![], Some(at));
        assert_eq!(node_error(result), error);
        assert_eq!(calls, at + 1);
    }
    for (at, error) in [(4, "input"), (8, "effects"), (9, "events")] {
        let (result, calls) = run(coin(), Some(at));
        assert_eq!(node_error(result), error);
        assert_eq!(calls, at + 1);
    }
}

#[test]
fn a_transaction_that_does_not_convert_is_a_serialisation_error() {
    match run(coin(), Some(7)).0 {
        Err(DryRunError::TransactionSerialization { error }) => assert_eq!(
            error,
            "Failed to convert transaction to SuiTransactionBlockData: no module"
        ),
        _ => panic!("not a serialisation error"),
    }
}

#[test]
fn a_reply_to_another_call_changes_nothing() {
    let run = dry_exec_transaction_override_impl(request(vec![]));
    let run = run.advance(Reply::GasPrice(None));
    assert!(matches!(run.stage, Stage::CheckValidity));
    let run = run.advance(Reply::Checked(Err("validity")));
    let run = run.advance(Reply::Checked(Ok(())));
    assert!(matches!(run.stage, Stage::Finished(Err(DryRunError::Node("validity")))));
}

fn error_source(error: Result<(), Option<String>>) -> Option<String> {
    let stage = Stage::Execute {
        transaction_digest: id(50),
        gas_status: 1,
        checked_inputs: 2,
        options: OPTIONS,
        mock_gas: None,
    };
    let run: DryRun<Node> = DryRun { request: request(coin()), stage };
    match run.advance(Reply::Executed(execution(error))).stage {
        Stage::SuggestGasPrice { executed } => executed.execution_error_source,
        _ => unreachable!(),
    }
}

#[test]
fn the_cause_of_a_failed_execution_is_kept() {
    assert_eq!(error_source(Ok(())), None);
    assert_eq!(error_source(Err(None)), None);
    assert_eq!(error_source(Err(Some("abort".to_string()))), Some("abort".to_string()));
}

#[test]
fn of_several_listings_the_last_counts() {
    let mut written: ObjectMap<&'static str> = ObjectMap::new();
    for n in 1..=3u8 {
        written.insert(id(n), "o");
    }
    let result = written_with_kind(
        &vec![oref(1, 1), oref(2, 1), oref(3, 1), oref(3, 2)],
        &vec![oref(1, 5), oref(2, 5)],
        &vec![oref(1, 7)],
        &written,
    );
    assert_eq!(result.len(), 3);
    assert_eq!(result.get(&id(1)), Some(&(oref(1, 7).0, "o", WriteKind::Mutate)));
    assert_eq!(result.get(&id(2)), Some(&(oref(2, 5).0, "o", WriteKind::Unwrap)));
    assert_eq!(result.get(&id(3)), Some(&(oref(3, 2).0, "o", WriteKind::Create)));
}

#[test]
fn an_execution_is_complete_when_all_listed_objects_were_written() {
    let mut one = execution(Ok(()));
    assert!(one.is_complete());
    one.mutated.push(oref(9, 1));
    assert!(!one.is_complete());
    assert!(refers_to_written(&vec![oref(1, 1)], &one.written));
    assert!(!refers_to_written(&vec![oref(1, 1), oref(8, 1)], &one.written));
}
