//! Dry run of a transaction with some objects overridden.
//!
//! The run is a sequence of calls into the node. Each stage names the call that is due and holds
//! what the call is handed; the node's reply leads to the next stage. The first reply that fails
//! ends the run with its error.

use crate::object::{Digest, ObjectId, ObjectRef, Owner, WriteKind};
use crate::object_map::ObjectMap;
use crate::written_objects::{
    all_present, all_written, lemma_last_listing_counts, lemma_listed_somewhere, pairs_up,
    refers_to_written, written_with_kind,
};
use vstd::prelude::*;
use vstd::string::StringExecFns;

verus! {

/// The values of the node that a dry run carries from call to call without looking inside.
pub trait DryRunTypes {
    type Transaction;

    /// A signature of a transaction.
    type Signature;

    type InputKinds;

    type ReceivingRefs;

    type InputObjects;

    type ReceivingObjects;

    type GasStatus;

    type CheckedInputs;

    type Object: Clone;

    type Effects;

    /// What the execution left in the temporary store, apart from the written objects.
    type Store;

    /// The transaction, the effects and the events in the form in which they are returned.
    type InputView;

    type EffectsView;

    type EventsView;

    type ObjectChange;

    type BalanceChange;

    type Error;
}

/// The smallest units in one coin.
pub const MIST_TO_SUI: u64 = 1_000_000_000;

/// The coins that a dry run without gas payment is given.
pub const DRY_RUN_SUI: u64 = 1_000_000_000;

/// What is to be run.
pub struct DryRunRequest<T: DryRunTypes> {
    pub transaction: T::Transaction,
    pub transaction_digest: Digest,
    pub sender: ObjectId,
    /// The version that the node gives to new objects.
    pub object_start_version: u64,
    /// The digest that the node writes in place of a transaction on objects that none made.
    pub genesis_marker: Digest,
    /// The coins that pay for gas; none if the transaction names none.
    pub gas_payment: Vec<ObjectRef>,
    /// The objects that take the place of the stored ones; see [`DryRun::overrides`].
    pub override_objects: Vec<(ObjectId, T::Object)>,
}

/// A coin made up to pay for gas.
#[derive(Clone, Copy, Debug, PartialEq, Eq)]
pub struct GasCoin {
    pub id: ObjectId,
    pub version: u64,
    pub value: u64,
    pub owner: Owner,
    pub previous_transaction: Digest,
}

/// How the executor is set up.
#[derive(Clone, Copy, Debug, PartialEq, Eq, Structural)]
pub struct ExecutionOptions {
    /// The executor prints nothing.
    pub silent: bool,
    /// The executor repeats costly checks of its own work.
    pub expensive_checks: bool,
    /// The execution is to fail before it starts.
    pub early_error: bool,
    /// The executor records every step.
    pub trace: bool,
}

/// What an execution gave.
pub struct Execution<T: DryRunTypes> {
    pub written: ObjectMap<T::Object>,
    pub created: Vec<(ObjectRef, Owner)>,
    pub unwrapped: Vec<(ObjectRef, Owner)>,
    pub mutated: Vec<(ObjectRef, Owner)>,
    /// The digest of the transaction that the effects name.
    pub effects_digest: Digest,
    pub effects: T::Effects,
    pub store: T::Store,
    /// Whether the transaction itself failed, and the text of the cause, if it has one.
    pub error: Result<(), Option<String>>,
}

impl<T: DryRunTypes> Execution<T> {
    /// Every object that the effects list was written.
    pub open spec fn complete(self) -> bool {
        &&& self.written.wf()
        &&& all_present(self.created@, self.written@)
        &&& all_present(self.unwrapped@, self.written@)
        &&& all_present(self.mutated@, self.written@)
    }

    /// Tells whether every object that the effects list was written.
    pub fn is_complete(&self) -> (complete: bool)
        requires
            self.written.wf(),
        ensures
            complete == self.complete(),
    {
        refers_to_written(&self.created, &self.written) && refers_to_written(
            &self.unwrapped,
            &self.written,
        ) && refers_to_written(&self.mutated, &self.written)
    }
}

/// What is kept of an execution.
pub struct Executed<T: DryRunTypes> {
    pub written_with_kind: ObjectMap<(ObjectRef, T::Object, WriteKind)>,
    pub effects_digest: Digest,
    pub effects: T::Effects,
    pub store: T::Store,
    pub execution_error_source: Option<String>,
    pub mock_gas: Option<ObjectId>,
}

/// What the caller is shown of a dry run.
pub struct DryRunResponse<T: DryRunTypes> {
    pub suggested_gas_price: Option<u64>,
    pub input: T::InputView,
    pub effects: T::EffectsView,
    pub events: T::EventsView,
    /// Left empty: they are worked out again where the response is served.
    pub object_changes: Vec<T::ObjectChange>,
    /// Left empty: they are worked out again where the response is served.
    pub balance_changes: Vec<T::BalanceChange>,
    pub execution_error_source: Option<String>,
}

/// The result of a dry run.
pub struct DryRunOutcome<T: DryRunTypes> {
    pub response: DryRunResponse<T>,
    pub written_with_kind: ObjectMap<(ObjectRef, T::Object, WriteKind)>,
    pub effects: T::Effects,
    /// The coin made up to pay for gas, if one was.
    pub mock_gas: Option<ObjectId>,
}

/// Why a dry run failed.
#[derive(Debug)]
pub enum DryRunError<E> {
    /// A call into the node failed.
    Node(E),
    /// The transaction could not be brought into the form in which it is returned.
    TransactionSerialization { error: String },
}

/// The call that is due, with what it is handed besides the request.
pub enum Stage<T: DryRunTypes> {
    /// Check the transaction by itself, its gas payment excepted.
    CheckValidity,
    /// List the objects that the transaction takes as inputs and those that it receives.
    ListInputs,
    /// Check the transaction, with the given signatures, against what the node refuses to sign. A
    /// dry run is signed by nobody.
    CheckDeny {
        tx_signatures: Vec<T::Signature>,
        input_kinds: T::InputKinds,
        receiving_refs: T::ReceivingRefs,
    },
    /// Read the objects, the overriding ones in place of the stored ones. The reader keeps them for the transaction
    /// `cache_for`; a dry run leaves nothing behind, so there is none.
    ReadObjects {
        input_kinds: T::InputKinds,
        receiving_refs: T::ReceivingRefs,
        cache_for: Option<Digest>,
    },
    /// Draw a fresh identifier for a coin.
    DrawGasId { input_objects: T::InputObjects, receiving_objects: T::ReceivingObjects },
    /// Check the inputs, the given coin paying for gas.
    CheckInputWithGivenGas {
        input_objects: T::InputObjects,
        receiving_objects: T::ReceivingObjects,
        gas: GasCoin,
    },
    /// Check the inputs, the transaction's own coins paying for gas.
    CheckInput { input_objects: T::InputObjects, receiving_objects: T::ReceivingObjects },
    /// Execute the transaction, the overriding objects in place of the stored ones.
    Execute {
        transaction_digest: Digest,
        gas_status: T::GasStatus,
        checked_inputs: T::CheckedInputs,
        options: ExecutionOptions,
        mock_gas: Option<ObjectId>,
    },
    /// Ask which gas price would do.
    SuggestGasPrice { executed: Executed<T> },
    /// Bring the transaction into the form in which it is returned.
    ConvertInput { executed: Executed<T>, suggested_gas_price: Option<u64> },
    /// Bring the effects into the form in which they are returned.
    ConvertEffects {
        executed: Executed<T>,
        suggested_gas_price: Option<u64>,
        input: T::InputView,
    },
    /// Bring the events of the transaction that the effects name into the form in which they are
    /// returned, stamped with the given time. A dry run happens at no time.
    ConvertEvents {
        timestamp: Option<u64>,
        executed: Executed<T>,
        suggested_gas_price: Option<u64>,
        input: T::InputView,
        effects: T::EffectsView,
    },
    /// No call is due any more.
    Finished(Result<DryRunOutcome<T>, DryRunError<T::Error>>),
}

/// A reply of the node.
pub enum Reply<T: DryRunTypes> {
    /// To [`Stage::CheckValidity`] and [`Stage::CheckDeny`].
    Checked(Result<(), T::Error>),
    /// To [`Stage::ListInputs`].
    Inputs(Result<(T::InputKinds, T::ReceivingRefs), T::Error>),
    /// To [`Stage::ReadObjects`].
    Objects(Result<(T::InputObjects, T::ReceivingObjects), T::Error>),
    /// To [`Stage::DrawGasId`].
    GasId(ObjectId),
    /// To [`Stage::CheckInputWithGivenGas`] and [`Stage::CheckInput`].
    InputChecked(Result<(T::GasStatus, T::CheckedInputs), T::Error>),
    /// To [`Stage::Execute`].
    Executed(Execution<T>),
    /// To [`Stage::SuggestGasPrice`].
    GasPrice(Option<u64>),
    /// To [`Stage::ConvertInput`]; an error is given by its text.
    InputConverted(Result<T::InputView, String>),
    /// To [`Stage::ConvertEffects`].
    EffectsConverted(Result<T::EffectsView, T::Error>),
    /// To [`Stage::ConvertEvents`].
    EventsConverted(Result<T::EventsView, T::Error>),
}

/// A dry run: what is to be run, and how far it has got.
pub struct DryRun<T: DryRunTypes> {
    pub request: DryRunRequest<T>,
    pub stage: Stage<T>,
}

/// The coin that pays for the gas of a dry run without gas payment: a new object of the sender
/// that no transaction made.
pub open spec fn mock_gas_coin<T: DryRunTypes>(
    id: ObjectId,
    request: DryRunRequest<T>,
) -> GasCoin {
    GasCoin {
        id,
        version: request.object_start_version,
        value: 1_000_000_000_000_000_000,
        owner: Owner::AddressOwner(request.sender),
        previous_transaction: request.genesis_marker,
    }
}

/// Executions of a dry run are silent, are not checked twice, start and are not recorded.
pub open spec fn dry_run_options() -> ExecutionOptions {
    ExecutionOptions { silent: true, expensive_checks: false, early_error: false, trace: false }
}

/// The call that is due sees the overriding objects in place of the stored ones.
pub open spec fn sees_overrides<T: DryRunTypes>(stage: Stage<T>) -> bool {
    stage is ReadObjects || stage is Execute
}

/// The transaction for which the call that is due keeps what it reads, if there is one.
pub open spec fn kept_for<T: DryRunTypes>(stage: Stage<T>) -> Option<Digest> {
    match stage {
        Stage::ReadObjects { cache_for, .. } => cache_for,
        _ => None,
    }
}

/// The reply is one to the call that is due.
pub open spec fn answers<T: DryRunTypes>(stage: Stage<T>, reply: Reply<T>) -> bool {
    match stage {
        Stage::CheckValidity => reply is Checked,
        Stage::ListInputs => reply is Inputs,
        Stage::CheckDeny { .. } => reply is Checked,
        Stage::ReadObjects { .. } => reply is Objects,
        Stage::DrawGasId { .. } => reply is GasId,
        Stage::CheckInputWithGivenGas { .. } => reply is InputChecked,
        Stage::CheckInput { .. } => reply is InputChecked,
        Stage::Execute { .. } => reply is Executed,
        Stage::SuggestGasPrice { .. } => reply is GasPrice,
        Stage::ConvertInput { .. } => reply is InputConverted,
        Stage::ConvertEffects { .. } => reply is EffectsConverted,
        Stage::ConvertEvents { .. } => reply is EventsConverted,
        Stage::Finished(_) => false,
    }
}

/// The failure that a reply reports: an error of the node, or the text of an error.
pub open spec fn failure<T: DryRunTypes>(reply: Reply<T>) -> Option<Result<T::Error, Seq<char>>> {
    match reply {
        Reply::Checked(Err(e)) => Some(Ok(e)),
        Reply::Inputs(Err(e)) => Some(Ok(e)),
        Reply::Objects(Err(e)) => Some(Ok(e)),
        Reply::InputChecked(Err(e)) => Some(Ok(e)),
        Reply::InputConverted(Err(text)) => Some(Err(text@)),
        Reply::EffectsConverted(Err(e)) => Some(Ok(e)),
        Reply::EventsConverted(Err(e)) => Some(Ok(e)),
        _ => None,
    }
}

/// The run ends with the failure that a reply reported.
pub open spec fn fails_with<T: DryRunTypes>(
    next: Stage<T>,
    failure: Result<T::Error, Seq<char>>,
) -> bool {
    match failure {
        Ok(e) => next == Stage::<T>::Finished(Err(DryRunError::Node(e))),
        Err(text) => next matches Stage::Finished(Err(DryRunError::TransactionSerialization {
            error,
        })) && error@ == "Failed to convert transaction to SuiTransactionBlockData: "@ + text,
    }
}

/// `executed` is what is kept of `execution`.
pub open spec fn kept_of<T: DryRunTypes>(
    execution: Execution<T>,
    mock_gas: Option<ObjectId>,
    executed: Executed<T>,
) -> bool {
    &&& executed.written_with_kind.wf()
    &&& pairs_up(
        all_written(execution.created@, execution.unwrapped@, execution.mutated@),
        execution.written@,
        executed.written_with_kind@,
    )
    &&& executed.effects_digest == execution.effects_digest
    &&& executed.effects == execution.effects
    &&& executed.store == execution.store
    &&& executed.execution_error_source == (match execution.error {
        Ok(_) => None,
        Err(source) => source,
    })
    &&& executed.mock_gas == mock_gas
}

/// `outcome` is made of what was kept of the execution and of the converted parts.
pub open spec fn put_together<T: DryRunTypes>(
    executed: Executed<T>,
    suggested_gas_price: Option<u64>,
    input: T::InputView,
    effects: T::EffectsView,
    events: T::EventsView,
    outcome: DryRunOutcome<T>,
) -> bool {
    &&& outcome.response.suggested_gas_price == suggested_gas_price
    &&& outcome.response.input == input
    &&& outcome.response.effects == effects
    &&& outcome.response.events == events
    &&& outcome.response.object_changes@ == Seq::<T::ObjectChange>::empty()
    &&& outcome.response.balance_changes@ == Seq::<T::BalanceChange>::empty()
    &&& outcome.response.execution_error_source == executed.execution_error_source
    &&& outcome.written_with_kind == executed.written_with_kind
    &&& outcome.effects == executed.effects
    &&& outcome.mock_gas == executed.mock_gas
}

/// The stage that a reply without failure leads to.
pub open spec fn proceeds<T: DryRunTypes>(
    request: DryRunRequest<T>,
    stage: Stage<T>,
    reply: Reply<T>,
    next: Stage<T>,
) -> bool {
    match (stage, reply) {
        (Stage::CheckValidity, Reply::Checked(Ok(_))) => next == Stage::<T>::ListInputs,
        (Stage::ListInputs, Reply::Inputs(Ok((input_kinds, receiving_refs)))) => {
            &&& next is CheckDeny
            &&& next->CheckDeny_tx_signatures@ == Seq::<T::Signature>::empty()
            &&& next->CheckDeny_input_kinds == input_kinds
            &&& next->CheckDeny_receiving_refs == receiving_refs
        },
        (
            Stage::CheckDeny { input_kinds, receiving_refs, .. },
            Reply::Checked(Ok(_)),
        ) => next == Stage::<T>::ReadObjects {
            input_kinds,
            receiving_refs,
            cache_for: None,
        },
        (
            Stage::ReadObjects { .. },
            Reply::Objects(Ok((input_objects, receiving_objects))),
        ) => if request.gas_payment@.len() == 0 {
            next == Stage::<T>::DrawGasId { input_objects, receiving_objects }
        } else {
            next == Stage::<T>::CheckInput { input_objects, receiving_objects }
        },
        (
            Stage::DrawGasId { input_objects, receiving_objects },
            Reply::GasId(id),
        ) => next == Stage::<T>::CheckInputWithGivenGas {
            input_objects,
            receiving_objects,
            gas: mock_gas_coin(id, request),
        },
        (
            Stage::CheckInputWithGivenGas { gas, .. },
            Reply::InputChecked(Ok((gas_status, checked_inputs))),
        ) => next == Stage::<T>::Execute {
            transaction_digest: request.transaction_digest,
            gas_status,
            checked_inputs,
            options: dry_run_options(),
            mock_gas: Some(gas.id),
        },
        (
            Stage::CheckInput { .. },
            Reply::InputChecked(Ok((gas_status, checked_inputs))),
        ) => next == Stage::<T>::Execute {
            transaction_digest: request.transaction_digest,
            gas_status,
            checked_inputs,
            options: dry_run_options(),
            mock_gas: None,
        },
        (
            Stage::Execute { mock_gas, .. },
            Reply::Executed(execution),
        ) => next matches Stage::SuggestGasPrice { executed } && kept_of(
            execution,
            mock_gas,
            executed,
        ),
        (
            Stage::SuggestGasPrice { executed },
            Reply::GasPrice(suggested_gas_price),
        ) => next == Stage::<T>::ConvertInput { executed, suggested_gas_price },
        (
            Stage::ConvertInput { executed, suggested_gas_price },
            Reply::InputConverted(Ok(input)),
        ) => next == Stage::<T>::ConvertEffects { executed, suggested_gas_price, input },
        (
            Stage::ConvertEffects { executed, suggested_gas_price, input },
            Reply::EffectsConverted(Ok(effects)),
        ) => next == Stage::<T>::ConvertEvents {
            timestamp: None,
            executed,
            suggested_gas_price,
            input,
            effects,
        },
        (
            Stage::ConvertEvents { executed, suggested_gas_price, input, effects, .. },
            Reply::EventsConverted(Ok(events)),
        ) => next matches Stage::Finished(Ok(outcome)) && put_together(
            executed,
            suggested_gas_price,
            input,
            effects,
            events,
            outcome,
        ),
        _ => false,
    }
}

/// The stage that a reply leads to. A reply to another call than the one that is due changes
/// nothing.
pub open spec fn leads_to<T: DryRunTypes>(
    request: DryRunRequest<T>,
    stage: Stage<T>,
    reply: Reply<T>,
    next: Stage<T>,
) -> bool {
    if !answers(stage, reply) {
        next == stage
    } else {
        match failure(reply) {
            Some(failed) => fails_with(next, failed),
            None => proceeds(request, stage, reply, next),
        }
    }
}

/// Begins the dry run of a transaction with some objects overridden.
pub fn dry_exec_transaction_override_impl<T: DryRunTypes>(request: DryRunRequest<T>) -> (run:
    DryRun<T>)
    ensures
        run.request == request,
        run.stage == Stage::<T>::CheckValidity,
{
    DryRun { request, stage: Stage::CheckValidity }
}

/// A run that has failed in a call into the node.
fn node_failure<T: DryRunTypes>(e: T::Error) -> (stage: Stage<T>)
    ensures
        stage == Stage::<T>::Finished(Err(DryRunError::Node(e))),
{
    Stage::Finished(Err(DryRunError::Node(e)))
}

/// A run that has failed to bring the transaction into the form in which it is returned.
fn serialization_failure<T: DryRunTypes>(text: String) -> (stage: Stage<T>)
    ensures
        fails_with(stage, Err(text@)),
{
    let message: String = "Failed to convert transaction to SuiTransactionBlockData: ".to_owned();
    Stage::Finished(
        Err(DryRunError::TransactionSerialization { error: message.concat(text.as_str()) }),
    )
}

/// What is kept of an execution.
fn keep<T: DryRunTypes>(execution: Execution<T>, mock_gas: Option<ObjectId>) -> (executed: Executed<
    T,
>)
    requires
        execution.complete(),
    ensures
        kept_of(execution, mock_gas, executed),
{
    let written_with_kind = written_with_kind(
        &execution.created,
        &execution.unwrapped,
        &execution.mutated,
        &execution.written,
    );
    let execution_error_source: Option<String> = match execution.error {
        Ok(_) => None,
        Err(source) => source,
    };
    Executed {
        written_with_kind,
        effects_digest: execution.effects_digest,
        effects: execution.effects,
        store: execution.store,
        execution_error_source,
        mock_gas,
    }
}

impl<T: DryRunTypes> DryRun<T> {
    /// The objects that the call that is due sees in place of the stored ones: all that the
    /// request overrides when inputs are read and when the transaction is executed, and none in
    /// every other call.
    pub fn overrides(&self) -> (overrides: Option<&Vec<(ObjectId, T::Object)>>)
        ensures
            overrides is Some <==> sees_overrides(self.stage),
            overrides matches Some(objects) ==> *objects == self.request.override_objects,
            self.stage is ReadObjects ==> overrides == Some(&self.request.override_objects),
            self.stage is Execute ==> overrides == Some(&self.request.override_objects),
    {
        match &self.stage {
            Stage::ReadObjects { .. } => Some(&self.request.override_objects),
            Stage::Execute { .. } => Some(&self.request.override_objects),
            _ => None,
        }
    }

    /// Takes in a reply of the node.
    pub fn advance(self, reply: Reply<T>) -> (next: Self)
        requires
            self.stage is Execute ==> (reply matches Reply::Executed(execution)
                ==> execution.complete()),
        ensures
            next.request == self.request,
            leads_to(self.request, self.stage, reply, next.stage),
    {
        let request = self.request;
        let stage: Stage<T> = match (self.stage, reply) {
            (Stage::CheckValidity, Reply::Checked(result)) => match result {
                Ok(_) => Stage::ListInputs,
                Err(e) => node_failure(e),
            },
            (Stage::ListInputs, Reply::Inputs(result)) => match result {
                Ok((input_kinds, receiving_refs)) => Stage::CheckDeny {
                    tx_signatures: Vec::new(),
                    input_kinds,
                    receiving_refs,
                },
                Err(e) => node_failure(e),
            },
            (
                Stage::CheckDeny { input_kinds, receiving_refs, .. },
                Reply::Checked(result),
            ) => match result {
                Ok(_) => Stage::ReadObjects { input_kinds, receiving_refs, cache_for: None },
                Err(e) => node_failure(e),
            },
            (Stage::ReadObjects { .. }, Reply::Objects(result)) => match result {
                Ok((input_objects, receiving_objects)) => if request.gas_payment.is_empty() {
                    Stage::DrawGasId { input_objects, receiving_objects }
                } else {
                    Stage::CheckInput { input_objects, receiving_objects }
                },
                Err(e) => node_failure(e),
            },
            (
                Stage::DrawGasId { input_objects, receiving_objects },
                Reply::GasId(id),
            ) => Stage::CheckInputWithGivenGas {
                input_objects,
                receiving_objects,
                gas: GasCoin {
                    id,
                    version: request.object_start_version,
                    value: MIST_TO_SUI * DRY_RUN_SUI,
                    owner: Owner::AddressOwner(request.sender),
                    previous_transaction: request.genesis_marker,
                },
            },
            (
                Stage::CheckInputWithGivenGas { gas, .. },
                Reply::InputChecked(result),
            ) => match result {
                Ok((gas_status, checked_inputs)) => Stage::Execute {
                    transaction_digest: request.transaction_digest,
                    gas_status,
                    checked_inputs,
                    options: ExecutionOptions {
                        silent: true,
                        expensive_checks: false,
                        early_error: false,
                        trace: false,
                    },
                    mock_gas: Some(gas.id),
                },
                Err(e) => node_failure(e),
            },
            (Stage::CheckInput { .. }, Reply::InputChecked(result)) => match result {
                Ok((gas_status, checked_inputs)) => Stage::Execute {
                    transaction_digest: request.transaction_digest,
                    gas_status,
                    checked_inputs,
                    options: ExecutionOptions {
                        silent: true,
                        expensive_checks: false,
                        early_error: false,
                        trace: false,
                    },
                    mock_gas: None,
                },
                Err(e) => node_failure(e),
            },
            (
                Stage::Execute { mock_gas, .. },
                Reply::Executed(execution),
            ) => Stage::SuggestGasPrice { executed: keep(execution, mock_gas) },
            (
                Stage::SuggestGasPrice { executed },
                Reply::GasPrice(suggested_gas_price),
            ) => Stage::ConvertInput { executed, suggested_gas_price },
            (
                Stage::ConvertInput { executed, suggested_gas_price },
                Reply::InputConverted(result),
            ) => match result {
                Ok(input) => Stage::ConvertEffects { executed, suggested_gas_price, input },
                Err(text) => serialization_failure(text),
            },
            (
                Stage::ConvertEffects { executed, suggested_gas_price, input },
                Reply::EffectsConverted(result),
            ) => match result {
                Ok(effects) => Stage::ConvertEvents {
                    timestamp: None,
                    executed,
                    suggested_gas_price,
                    input,
                    effects,
                },
                Err(e) => node_failure(e),
            },
            (
                Stage::ConvertEvents { executed, suggested_gas_price, input, effects, .. },
                Reply::EventsConverted(result),
            ) => match result {
                Ok(events) => Stage::Finished(
                    Ok(
                        DryRunOutcome {
                            response: DryRunResponse {
                                suggested_gas_price,
                                input,
                                effects,
                                events,
                                object_changes: Vec::new(),
                                balance_changes: Vec::new(),
                                execution_error_source: executed.execution_error_source,
                            },
                            written_with_kind: executed.written_with_kind,
                            effects: executed.effects,
                            mock_gas: executed.mock_gas,
                        },
                    ),
                ),
                Err(e) => node_failure(e),
            },
            (stage, _) => stage,
        };
        DryRun { request, stage }
    }
}

/// What holds at every stage of a dry run: nobody has signed it, and nothing is kept for it; a
/// coin is made up exactly when the transaction names none, and it is the fixed one; the executor
/// is set up as for every dry run and told the digest of the request; events are stamped with no
/// time; and a result lists no changes of objects or balances.
pub open spec fn sound<T: DryRunTypes>(request: DryRunRequest<T>, stage: Stage<T>) -> bool {
    let unpaid = request.gas_payment@.len() == 0;
    match stage {
        Stage::CheckDeny { tx_signatures, .. } => tx_signatures@.len() == 0,
        Stage::ReadObjects { cache_for, .. } => cache_for is None,
        Stage::DrawGasId { .. } => unpaid,
        Stage::CheckInputWithGivenGas { gas, .. } => unpaid && gas == mock_gas_coin(
            gas.id,
            request,
        ),
        Stage::CheckInput { .. } => !unpaid,
        Stage::Execute { transaction_digest, options, mock_gas, .. } => {
            &&& transaction_digest == request.transaction_digest
            &&& options == dry_run_options()
            &&& mock_gas is Some <==> unpaid
        },
        Stage::SuggestGasPrice { executed } => executed.mock_gas is Some <==> unpaid,
        Stage::ConvertInput { executed, .. } => executed.mock_gas is Some <==> unpaid,
        Stage::ConvertEffects { executed, .. } => executed.mock_gas is Some <==> unpaid,
        Stage::ConvertEvents { timestamp, executed, .. } => {
            &&& timestamp is None
            &&& executed.mock_gas is Some <==> unpaid
        },
        Stage::Finished(Ok(outcome)) => {
            &&& outcome.mock_gas is Some <==> unpaid
            &&& outcome.response.object_changes@.len() == 0
            &&& outcome.response.balance_changes@.len() == 0
        },
        _ => true,
    }
}

/// Every dry run is sound at every stage, whatever the node replies.
pub proof fn law_dry_run_stays_sound<T: DryRunTypes>(
    request: DryRunRequest<T>,
    stage: Stage<T>,
    reply: Reply<T>,
    next: Stage<T>,
)
    requires
        sound(request, stage),
        leads_to(request, stage, reply, next),
    ensures
        sound(request, Stage::<T>::CheckValidity),
        sound(request, next),
{
}

/// How many calls are still to come if none fails.
pub open spec fn calls_left<T: DryRunTypes>(request: DryRunRequest<T>, stage: Stage<T>) -> nat {
    let draw: nat = if request.gas_payment@.len() == 0 { 1 } else { 0 };
    match stage {
        Stage::CheckValidity => 10 + draw,
        Stage::ListInputs => 9 + draw,
        Stage::CheckDeny { .. } => 8 + draw,
        Stage::ReadObjects { .. } => 7 + draw,
        Stage::DrawGasId { .. } => 7,
        Stage::CheckInputWithGivenGas { .. } => 6,
        Stage::CheckInput { .. } => 6,
        Stage::Execute { .. } => 5,
        Stage::SuggestGasPrice { .. } => 4,
        Stage::ConvertInput { .. } => 3,
        Stage::ConvertEffects { .. } => 2,
        Stage::ConvertEvents { .. } => 1,
        Stage::Finished(_) => 0,
    }
}

/// Every reply to the call that is due brings a dry run exactly one call nearer to its end, or
/// ends it; after its end no reply changes it.
pub proof fn law_dry_run_ends<T: DryRunTypes>(
    request: DryRunRequest<T>,
    stage: Stage<T>,
    reply: Reply<T>,
    next: Stage<T>,
)
    requires
        leads_to(request, stage, reply, next),
    ensures
        calls_left(request, stage) == 0 <==> stage is Finished,
        answers(stage, reply) && failure(reply) is None ==> calls_left(request, stage)
            == calls_left(request, next) + 1,
        answers(stage, reply) && failure(reply) is Some ==> next is Finished,
        stage is Finished ==> next == stage,
{
}

/// The stages of a dry run from its beginning, and the replies that led from one to the next.
pub open spec fn is_run<T: DryRunTypes>(
    request: DryRunRequest<T>,
    stages: Seq<Stage<T>>,
    replies: Seq<Reply<T>>,
) -> bool {
    &&& stages.len() == replies.len() + 1
    &&& stages[0] == Stage::<T>::CheckValidity
    &&& forall|i: int| #![trigger replies[i]]
        0 <= i < replies.len() ==> answers(stages[i], replies[i]) && leads_to(
            request,
            stages[i],
            replies[i],
            stages[i + 1],
        )
}

/// The first failure decides. A dry run that has ended made no call after one that failed: it
/// ends well if and only if no reply reported a failure, which takes ten calls, or eleven if a
/// coin had to be made up; and it ends with the failure of its last reply otherwise.
pub proof fn law_first_failure_decides<T: DryRunTypes>(
    request: DryRunRequest<T>,
    stages: Seq<Stage<T>>,
    replies: Seq<Reply<T>>,
)
    requires
        is_run(request, stages, replies),
        stages.last() is Finished,
    ensures
        replies.len() > 0,
        forall|i: int| 0 <= i < replies.len() - 1 ==> failure(#[trigger] replies[i]) is None,
        match failure(replies.last()) {
            None => {
                &&& stages.last()->Finished_0 is Ok
                &&& replies.len() == calls_left(request, Stage::<T>::CheckValidity)
            },
            Some(failed) => {
                &&& stages.last()->Finished_0 is Err
                &&& fails_with(stages.last(), failed)
            },
        },
{
    let n = replies.len() as int;
    assert(stages.last() == stages[n]);
    assert forall|i: int| 0 <= i < n - 1 implies failure(#[trigger] replies[i]) is None by {
        if failure(replies[i]) is Some {
            law_dry_run_ends(request, stages[i], replies[i], stages[i + 1]);
            assert(answers(stages[i + 1], replies[i + 1]));
        }
    }
    lemma_calls_made(request, stages, replies, n - 1);
    assert(answers(stages[n - 1], replies[n - 1]));
    law_dry_run_ends(request, stages[n - 1], replies[n - 1], stages[n]);
}

/// While no reply reports a failure, every reply is one call made.
proof fn lemma_calls_made<T: DryRunTypes>(
    request: DryRunRequest<T>,
    stages: Seq<Stage<T>>,
    replies: Seq<Reply<T>>,
    made: int,
)
    requires
        is_run(request, stages, replies),
        0 <= made <= replies.len(),
        forall|i: int| 0 <= i < made ==> failure(#[trigger] replies[i]) is None,
    ensures
        calls_left(request, stages[made]) + made == calls_left(
            request,
            Stage::<T>::CheckValidity,
        ),
    decreases made,
{
    if made > 0 {
        lemma_calls_made(request, stages, replies, made - 1);
        assert(failure(replies[made - 1]) is None);
        law_dry_run_ends(request, stages[made - 1], replies[made - 1], stages[made]);
    }
}

/// A dry run leaves nothing behind in what it asks of the node, however it ends. No call keeps
/// anything for a transaction, at most one call executes, and after that call no call sees the
/// overriding objects again; and what the execution wrote leaves the run only as the written
/// objects of a result, not with an error.
pub proof fn law_dry_run_leaves_nothing_behind<T: DryRunTypes>(
    request: DryRunRequest<T>,
    stages: Seq<Stage<T>>,
    replies: Seq<Reply<T>>,
)
    requires
        is_run(request, stages, replies),
    ensures
        forall|i: int| 0 <= i < stages.len() ==> sound(request, #[trigger] stages[i]),
        forall|i: int| 0 <= i < stages.len() ==> kept_for(#[trigger] stages[i]) is None,
        forall|i: int, j: int|
            0 <= i < j < stages.len() && (#[trigger] stages[i]) is Execute ==> !sees_overrides(
                #[trigger] stages[j],
            ),
        stages.last() matches Stage::Finished(Err(_)) ==> exists|failed: Result<
            T::Error,
            Seq<char>,
        >|
            failure(replies.last()) == Some(failed) && #[trigger] fails_with(stages.last(), failed),
{
    assert forall|i: int| 0 <= i < stages.len() implies sound(request, #[trigger] stages[i]) by {
        lemma_sound_at(request, stages, replies, i);
    }
    assert forall|i: int| 0 <= i < stages.len() implies kept_for(#[trigger] stages[i]) is None by {
        assert(sound(request, stages[i]));
    }
    assert forall|i: int, j: int|
        0 <= i < j < stages.len() && (#[trigger] stages[i]) is Execute implies !sees_overrides(
        #[trigger] stages[j],
    ) by {
        lemma_fewer_calls_left(request, stages, replies, i, j);
    }
    if stages.last() is Finished {
        law_first_failure_decides(request, stages, replies);
        if let Some(failed) = failure(replies.last()) {
            assert(fails_with(stages.last(), failed));
        }
    }
}

/// A dry run commits nothing. `stores` are the stores of the node, whatever they are, before each
/// call and at the end. If a call that keeps nothing for a transaction leaves the stores as they
/// are, then at every moment of a dry run they are as they were before it, however it ends.
pub proof fn law_dry_run_keeps_the_stores<T: DryRunTypes, S>(
    request: DryRunRequest<T>,
    stages: Seq<Stage<T>>,
    replies: Seq<Reply<T>>,
    stores: Seq<S>,
)
    requires
        is_run(request, stages, replies),
        stores.len() == stages.len(),
        forall|i: int|
            0 <= i < replies.len() && kept_for(#[trigger] stages[i]) is None ==> stores[i + 1]
                == stores[i],
    ensures
        forall|i: int| 0 <= i < stores.len() ==> #[trigger] stores[i] == stores[0],
{
    assert forall|i: int| 0 <= i < stores.len() implies #[trigger] stores[i] == stores[0] by {
        lemma_stores_at(request, stages, replies, stores, i);
    }
}

/// The stores at one moment of a run are those before it.
proof fn lemma_stores_at<T: DryRunTypes, S>(
    request: DryRunRequest<T>,
    stages: Seq<Stage<T>>,
    replies: Seq<Reply<T>>,
    stores: Seq<S>,
    i: int,
)
    requires
        is_run(request, stages, replies),
        stores.len() == stages.len(),
        forall|k: int|
            0 <= k < replies.len() && kept_for(#[trigger] stages[k]) is None ==> stores[k + 1]
                == stores[k],
        0 <= i < stores.len(),
    ensures
        stores[i] == stores[0],
    decreases i,
{
    if i > 0 {
        lemma_stores_at(request, stages, replies, stores, i - 1);
        lemma_sound_at(request, stages, replies, i - 1);
        assert(kept_for(stages[i - 1]) is None);
    }
}

/// Every stage of a run is sound.
proof fn lemma_sound_at<T: DryRunTypes>(
    request: DryRunRequest<T>,
    stages: Seq<Stage<T>>,
    replies: Seq<Reply<T>>,
    i: int,
)
    requires
        is_run(request, stages, replies),
        0 <= i < stages.len(),
    ensures
        sound(request, stages[i]),
    decreases i,
{
    if i > 0 {
        lemma_sound_at(request, stages, replies, i - 1);
        assert(answers(stages[i - 1], replies[i - 1]));
        law_dry_run_stays_sound(request, stages[i - 1], replies[i - 1], stages[i]);
    }
}

/// A later stage of a run has fewer calls left.
proof fn lemma_fewer_calls_left<T: DryRunTypes>(
    request: DryRunRequest<T>,
    stages: Seq<Stage<T>>,
    replies: Seq<Reply<T>>,
    i: int,
    j: int,
)
    requires
        is_run(request, stages, replies),
        0 <= i < j < stages.len(),
    ensures
        calls_left(request, stages[j]) < calls_left(request, stages[i]),
    decreases j - i,
{
    assert(answers(stages[j - 1], replies[j - 1]));
    law_dry_run_ends(request, stages[j - 1], replies[j - 1], stages[j]);
    if i < j - 1 {
        lemma_fewer_calls_left(request, stages, replies, i, j - 1);
    }
}

/// What a dry run that ends well returns: the coin that was drawn, the objects, the effects and
/// the cause of failure of the one execution, and the parts that the node converted, each as the
/// node replied it. The node checked the inputs with the coin made up for the drawn identifier;
/// it converted the transaction and the events with the store that the execution left, the events
/// under the digest that the effects name and without a time stamp, and it converted the effects
/// that are returned.
pub proof fn law_outcome_is_what_the_node_replied<T: DryRunTypes>(
    request: DryRunRequest<T>,
    stages: Seq<Stage<T>>,
    replies: Seq<Reply<T>>,
    outcome: DryRunOutcome<T>,
)
    requires
        is_run(request, stages, replies),
        stages.last() == Stage::<T>::Finished(Ok(outcome)),
    ensures
        ({
            let unpaid = request.gas_payment@.len() == 0;
            let at: int = if unpaid { 6 } else { 5 };
            &&& replies.len() == at + 5
            &&& unpaid ==> {
                &&& replies[4] is GasId
                &&& outcome.mock_gas == Some(replies[4]->GasId_0)
                &&& stages[5] is CheckInputWithGivenGas
                &&& stages[5]->gas == mock_gas_coin(replies[4]->GasId_0, request)
            }
            &&& !unpaid ==> outcome.mock_gas is None
            &&& replies[at] matches Reply::Executed(execution) && {
                &&& outcome.written_with_kind.wf()
                &&& pairs_up(
                    all_written(execution.created@, execution.unwrapped@, execution.mutated@),
                    execution.written@,
                    outcome.written_with_kind@,
                )
                &&& outcome.effects == execution.effects
                &&& outcome.response.execution_error_source == (match execution.error {
                    Ok(_) => None,
                    Err(source) => source,
                })
                &&& stages[at + 2] is ConvertInput
                &&& stages[at + 2]->ConvertInput_executed.store == execution.store
                &&& stages[at + 3] is ConvertEffects
                &&& stages[at + 3]->ConvertEffects_executed.effects == execution.effects
                &&& stages[at + 4] is ConvertEvents
                &&& stages[at + 4]->timestamp is None
                &&& stages[at + 4]->ConvertEvents_executed.store == execution.store
                &&& stages[at + 4]->ConvertEvents_executed.effects_digest
                    == execution.effects_digest
            }
            &&& replies[at + 1] == Reply::<T>::GasPrice(outcome.response.suggested_gas_price)
            &&& replies[at + 2] == Reply::<T>::InputConverted(Ok(outcome.response.input))
            &&& replies[at + 3] == Reply::<T>::EffectsConverted(Ok(outcome.response.effects))
            &&& replies[at + 4] == Reply::<T>::EventsConverted(Ok(outcome.response.events))
        }),
{
    law_first_failure_decides(request, stages, replies);
    let at: int = if request.gas_payment@.len() == 0 { 6 } else { 5 };
    assert(failure(replies.last()) is None);
    assert(replies.last() == replies[at + 4]);
    assert(failure(replies[0]) is None && stages[1] is ListInputs);
    assert(failure(replies[1]) is None && stages[2] is CheckDeny);
    assert(failure(replies[2]) is None && stages[3] is ReadObjects);
    assert(failure(replies[3]) is None);
    if request.gas_payment@.len() == 0 {
        assert(stages[4] is DrawGasId);
        assert(failure(replies[4]) is None && stages[5] is CheckInputWithGivenGas);
        assert(failure(replies[5]) is None);
    } else {
        assert(stages[4] is CheckInput);
        assert(failure(replies[4]) is None);
    }
    assert(stages[at] is Execute);
    assert(failure(replies[at]) is None && stages[at + 1] is SuggestGasPrice);
    assert(failure(replies[at + 1]) is None && stages[at + 2] is ConvertInput);
    assert(failure(replies[at + 2]) is None && stages[at + 3] is ConvertEffects);
    assert(failure(replies[at + 3]) is None && stages[at + 4] is ConvertEvents);
    assert(stages.last() == stages[at + 5]);
}

/// Reading the inputs and executing the transaction both see every object that the request
/// overrides, whoever pays for gas and whatever else the stage holds; no other call sees any.
pub proof fn law_reading_and_executing_see_the_overrides<T: DryRunTypes>(
    run: &DryRun<T>,
    overrides: Option<&Vec<(ObjectId, T::Object)>>,
)
    requires
        call_ensures(DryRun::<T>::overrides, (run,), overrides),
    ensures
        run.stage is ReadObjects ==> overrides == Some(&run.request.override_objects),
        run.stage is Execute ==> overrides == Some(&run.request.override_objects),
        !(run.stage is ReadObjects) && !(run.stage is Execute) ==> overrides is None,
{
}

/// A dry run begins with the check of the transaction by itself, and its request never changes.
pub proof fn law_request_stays_the_same<T: DryRunTypes>(
    request: DryRunRequest<T>,
    begun: DryRun<T>,
    run: DryRun<T>,
    reply: Reply<T>,
    next: DryRun<T>,
)
    requires
        call_ensures(dry_exec_transaction_override_impl::<T>, (request,), begun),
        call_ensures(DryRun::<T>::advance, (run, reply), next),
    ensures
        begun.request == request,
        begun.stage is CheckValidity,
        next.request == run.request,
{
}

/// A reply to another call than the one that is due changes nothing, and after its end no reply
/// changes a dry run.
pub proof fn law_other_replies_change_nothing<T: DryRunTypes>(
    run: DryRun<T>,
    reply: Reply<T>,
    next: DryRun<T>,
)
    requires
        call_ensures(DryRun::<T>::advance, (run, reply), next),
    ensures
        run.stage is CheckValidity && !(reply is Checked) ==> next.stage == run.stage,
        run.stage is ListInputs && !(reply is Inputs) ==> next.stage == run.stage,
        run.stage is CheckDeny && !(reply is Checked) ==> next.stage == run.stage,
        run.stage is ReadObjects && !(reply is Objects) ==> next.stage == run.stage,
        run.stage is DrawGasId && !(reply is GasId) ==> next.stage == run.stage,
        run.stage is CheckInputWithGivenGas && !(reply is InputChecked) ==> next.stage == run.stage,
        run.stage is CheckInput && !(reply is InputChecked) ==> next.stage == run.stage,
        run.stage is Execute && !(reply is Executed) ==> next.stage == run.stage,
        run.stage is SuggestGasPrice && !(reply is GasPrice) ==> next.stage == run.stage,
        run.stage is ConvertInput && !(reply is InputConverted) ==> next.stage == run.stage,
        run.stage is ConvertEffects && !(reply is EffectsConverted) ==> next.stage == run.stage,
        run.stage is ConvertEvents && !(reply is EventsConverted) ==> next.stage == run.stage,
        run.stage is Finished ==> next.stage == run.stage,
{
}

/// A call that fails ends the run, with the very error of the node, or, when the transaction could
/// not be converted, with a text that ends with that of the error.
pub proof fn law_failed_call_ends_the_run<T: DryRunTypes>(
    run: DryRun<T>,
    reply: Reply<T>,
    next: DryRun<T>,
)
    requires
        call_ensures(DryRun::<T>::advance, (run, reply), next),
    ensures
        run.stage is CheckValidity ==> (reply matches Reply::Checked(Err(e)) ==> next.stage
            == Stage::<T>::Finished(Err(DryRunError::Node(e)))),
        run.stage is ListInputs ==> (reply matches Reply::Inputs(Err(e)) ==> next.stage
            == Stage::<T>::Finished(Err(DryRunError::Node(e)))),
        run.stage is CheckDeny ==> (reply matches Reply::Checked(Err(e)) ==> next.stage
            == Stage::<T>::Finished(Err(DryRunError::Node(e)))),
        run.stage is ReadObjects ==> (reply matches Reply::Objects(Err(e)) ==> next.stage
            == Stage::<T>::Finished(Err(DryRunError::Node(e)))),
        run.stage is CheckInputWithGivenGas ==> (reply matches Reply::InputChecked(Err(e)) ==> next.stage
            == Stage::<T>::Finished(Err(DryRunError::Node(e)))),
        run.stage is CheckInput ==> (reply matches Reply::InputChecked(Err(e)) ==> next.stage
            == Stage::<T>::Finished(Err(DryRunError::Node(e)))),
        run.stage is ConvertEffects ==> (reply matches Reply::EffectsConverted(Err(e)) ==> next.stage
            == Stage::<T>::Finished(Err(DryRunError::Node(e)))),
        run.stage is ConvertEvents ==> (reply matches Reply::EventsConverted(Err(e)) ==> next.stage
            == Stage::<T>::Finished(Err(DryRunError::Node(e)))),
        run.stage is ConvertInput ==> (reply matches Reply::InputConverted(Err(text)) ==> {
            &&& next.stage is Finished
            &&& next.stage->Finished_0 is Err
            &&& next.stage->Finished_0->Err_0 is TransactionSerialization
            &&& next.stage->Finished_0->Err_0->error@
                == "Failed to convert transaction to SuiTransactionBlockData: "@ + text@
        }),
{
}

/// What comes before the execution, when no call fails: the check of the transaction, its inputs,
/// the check against what the node refuses, for which nobody has signed, and the objects, which
/// are kept for no transaction. Each call is handed what the calls before it replied.
pub proof fn law_inputs_are_listed_checked_and_read<T: DryRunTypes>(
    run: DryRun<T>,
    reply: Reply<T>,
    next: DryRun<T>,
)
    requires
        call_ensures(DryRun::<T>::advance, (run, reply), next),
    ensures
        run.stage is CheckValidity ==> (reply matches Reply::Checked(Ok(_)) ==> next.stage
            is ListInputs),
        run.stage is ListInputs ==> (reply matches Reply::Inputs(Ok(inputs)) ==> {
            &&& next.stage is CheckDeny
            &&& next.stage->tx_signatures@.len() == 0
            &&& next.stage->CheckDeny_input_kinds == inputs.0
            &&& next.stage->CheckDeny_receiving_refs == inputs.1
        }),
        run.stage is CheckDeny ==> (reply matches Reply::Checked(Ok(_)) ==> {
            &&& next.stage is ReadObjects
            &&& next.stage->ReadObjects_input_kinds == run.stage->CheckDeny_input_kinds
            &&& next.stage->ReadObjects_receiving_refs == run.stage->CheckDeny_receiving_refs
            &&& next.stage->cache_for is None
        }),
        run.stage is ReadObjects && run.request.gas_payment@.len() > 0 ==> (
        reply matches Reply::Objects(Ok(objects)) ==> {
            &&& next.stage is CheckInput
            &&& next.stage->CheckInput_input_objects == objects.0
            &&& next.stage->CheckInput_receiving_objects == objects.1
        }),
        run.stage is ReadObjects && run.request.gas_payment@.len() == 0 ==> (
        reply matches Reply::Objects(Ok(objects)) ==> {
            &&& next.stage is DrawGasId
            &&& next.stage->DrawGasId_input_objects == objects.0
            &&& next.stage->DrawGasId_receiving_objects == objects.1
        }),
{
}

/// Who pays for gas: without a payment a coin worth a billion coins, each of a billion smallest
/// units, is made up for the drawn identifier. It belongs to the sender, has the version of a new
/// object and was made by no transaction. The identifier of the coin is remembered; with a payment
/// there is none.
pub proof fn law_gas_is_paid_or_made_up<T: DryRunTypes>(
    run: DryRun<T>,
    reply: Reply<T>,
    next: DryRun<T>,
)
    requires
        call_ensures(DryRun::<T>::advance, (run, reply), next),
    ensures
        run.stage is DrawGasId ==> (reply matches Reply::GasId(id) ==> {
            &&& next.stage is CheckInputWithGivenGas
            &&& next.stage->CheckInputWithGivenGas_input_objects
                == run.stage->DrawGasId_input_objects
            &&& next.stage->CheckInputWithGivenGas_receiving_objects
                == run.stage->DrawGasId_receiving_objects
            &&& next.stage->gas.id == id
            &&& next.stage->gas.version == run.request.object_start_version
            &&& next.stage->gas.value == 1_000_000_000 * 1_000_000_000
            &&& next.stage->gas.owner == Owner::AddressOwner(run.request.sender)
            &&& next.stage->gas.previous_transaction == run.request.genesis_marker
        }),
        run.stage is CheckInputWithGivenGas ==> (reply matches Reply::InputChecked(Ok(_))
            ==> next.stage is Execute && next.stage->mock_gas == Some(run.stage->gas.id)),
        run.stage is CheckInput ==> (reply matches Reply::InputChecked(Ok(_)) ==> next.stage
            is Execute && next.stage->mock_gas is None),
{
}

/// The executor is handed the digest of the request and what the check of the inputs replied,
/// whoever pays; it prints nothing, does not check its own work twice, starts, and records nothing.
pub proof fn law_execution_is_set_up_quietly<T: DryRunTypes>(
    run: DryRun<T>,
    reply: Reply<T>,
    next: DryRun<T>,
)
    requires
        call_ensures(DryRun::<T>::advance, (run, reply), next),
    ensures
        run.stage is CheckInputWithGivenGas || run.stage is CheckInput ==> (
        reply matches Reply::InputChecked(Ok(checked)) ==> {
            &&& next.stage is Execute
            &&& next.stage->transaction_digest == run.request.transaction_digest
            &&& next.stage->gas_status == checked.0
            &&& next.stage->checked_inputs == checked.1
            &&& next.stage->options.silent
            &&& !next.stage->options.expensive_checks
            &&& !next.stage->options.early_error
            &&& !next.stage->options.trace
        }),
{
}

/// What is kept of an execution: the digest, the effects and the store as they are, the coin that
/// was made up, and the cause of a failure, if the execution failed and has one.
pub proof fn law_execution_is_kept<T: DryRunTypes>(
    run: DryRun<T>,
    execution: Execution<T>,
    next: DryRun<T>,
)
    requires
        call_ensures(DryRun::<T>::advance, (run, Reply::Executed(execution)), next),
        run.stage is Execute,
    ensures
        next.stage is SuggestGasPrice,
        ({
            let executed = next.stage->SuggestGasPrice_executed;
            &&& executed.effects_digest == execution.effects_digest
            &&& executed.effects == execution.effects
            &&& executed.store == execution.store
            &&& executed.mock_gas == run.stage->mock_gas
            &&& execution.error is Ok ==> executed.execution_error_source is None
            &&& execution.error matches Err(source) ==> executed.execution_error_source == source
        }),
{
}

/// The written objects are kept with the whole references that the effects list. Of an object that
/// was mutated the last mutation counts; of one that was not, the last unwrapping; of one that was
/// neither, the last creation.
pub proof fn law_written_objects_are_kept<T: DryRunTypes>(
    run: DryRun<T>,
    execution: Execution<T>,
    next: DryRun<T>,
    i: int,
)
    requires
        call_ensures(DryRun::<T>::advance, (run, Reply::Executed(execution)), next),
        run.stage is Execute,
    ensures
        ({
            let kept = next.stage->SuggestGasPrice_executed.written_with_kind@;
            let mutated = execution.mutated@;
            0 <= i < mutated.len() && (forall|j: int|
                i < j < mutated.len() ==> (#[trigger] mutated[j]).0.0 != mutated[i].0.0) ==> {
                &&& kept.contains_key(mutated[i].0.0)
                &&& kept[mutated[i].0.0].0 == mutated[i].0
                &&& kept[mutated[i].0.0].2 == WriteKind::Mutate
                &&& cloned(execution.written@[mutated[i].0.0], kept[mutated[i].0.0].1)
            }
        }),
        ({
            let kept = next.stage->SuggestGasPrice_executed.written_with_kind@;
            let unwrapped = execution.unwrapped@;
            let mutated = execution.mutated@;
            0 <= i < unwrapped.len() && (forall|j: int|
                i < j < unwrapped.len() ==> (#[trigger] unwrapped[j]).0.0 != unwrapped[i].0.0) && (
            forall|j: int|
                0 <= j < mutated.len() ==> (#[trigger] mutated[j]).0.0 != unwrapped[i].0.0) ==> {
                &&& kept.contains_key(unwrapped[i].0.0)
                &&& kept[unwrapped[i].0.0].0 == unwrapped[i].0
                &&& kept[unwrapped[i].0.0].2 == WriteKind::Unwrap
                &&& cloned(execution.written@[unwrapped[i].0.0], kept[unwrapped[i].0.0].1)
            }
        }),
        ({
            let kept = next.stage->SuggestGasPrice_executed.written_with_kind@;
            let created = execution.created@;
            let unwrapped = execution.unwrapped@;
            let mutated = execution.mutated@;
            0 <= i < created.len() && (forall|j: int|
                i < j < created.len() ==> (#[trigger] created[j]).0.0 != created[i].0.0) && (forall|
                j: int,
            |
                0 <= j < unwrapped.len() ==> (#[trigger] unwrapped[j]).0.0 != created[i].0.0) && (
            forall|j: int|
                0 <= j < mutated.len() ==> (#[trigger] mutated[j]).0.0 != created[i].0.0) ==> {
                &&& kept.contains_key(created[i].0.0)
                &&& kept[created[i].0.0].0 == created[i].0
                &&& kept[created[i].0.0].2 == WriteKind::Create
                &&& cloned(execution.written@[created[i].0.0], kept[created[i].0.0].1)
            }
        }),
{
    lemma_last_listing_counts(
        execution.created@,
        execution.unwrapped@,
        execution.mutated@,
        execution.written@,
        next.stage->SuggestGasPrice_executed.written_with_kind@,
        i,
    );
}

/// No object is kept that the effects do not list, with its whole reference, in the list that its
/// kind names.
pub proof fn law_only_written_objects_are_kept<T: DryRunTypes>(
    run: DryRun<T>,
    execution: Execution<T>,
    next: DryRun<T>,
    id: ObjectId,
)
    requires
        call_ensures(DryRun::<T>::advance, (run, Reply::Executed(execution)), next),
        run.stage is Execute,
        next.stage->SuggestGasPrice_executed.written_with_kind@.contains_key(id),
    ensures
        ({
            let kept = next.stage->SuggestGasPrice_executed.written_with_kind@[id];
            &&& kept.0.0 == id
            &&& match kept.2 {
                WriteKind::Mutate => exists|i: int|
                    0 <= i < execution.mutated@.len() && (#[trigger] execution.mutated@[i]).0
                        == kept.0,
                WriteKind::Unwrap => exists|i: int|
                    0 <= i < execution.unwrapped@.len() && (#[trigger] execution.unwrapped@[i]).0
                        == kept.0,
                WriteKind::Create => exists|i: int|
                    0 <= i < execution.created@.len() && (#[trigger] execution.created@[i]).0
                        == kept.0,
            }
            &&& cloned(execution.written@[id], kept.1)
        }),
{
    lemma_listed_somewhere(
        execution.created@,
        execution.unwrapped@,
        execution.mutated@,
        execution.written@,
        next.stage->SuggestGasPrice_executed.written_with_kind@,
        id,
    );
}

/// The calls after the execution are handed what was kept of it, unchanged, and what the calls
/// before replied; events are stamped with no time.
pub proof fn law_results_are_converted_one_after_the_other<T: DryRunTypes>(
    run: DryRun<T>,
    reply: Reply<T>,
    next: DryRun<T>,
)
    requires
        call_ensures(DryRun::<T>::advance, (run, reply), next),
    ensures
        run.stage is SuggestGasPrice ==> (reply matches Reply::GasPrice(price) ==> {
            &&& next.stage is ConvertInput
            &&& next.stage->ConvertInput_executed == run.stage->SuggestGasPrice_executed
            &&& next.stage->ConvertInput_suggested_gas_price == price
        }),
        run.stage is ConvertInput ==> (reply matches Reply::InputConverted(Ok(input)) ==> {
            &&& next.stage is ConvertEffects
            &&& next.stage->ConvertEffects_executed == run.stage->ConvertInput_executed
            &&& next.stage->ConvertEffects_suggested_gas_price
                == run.stage->ConvertInput_suggested_gas_price
            &&& next.stage->ConvertEffects_input == input
        }),
        run.stage is ConvertEffects ==> (reply matches Reply::EffectsConverted(Ok(effects)) ==> {
            &&& next.stage is ConvertEvents
            &&& next.stage->timestamp is None
            &&& next.stage->ConvertEvents_executed == run.stage->ConvertEffects_executed
            &&& next.stage->ConvertEvents_suggested_gas_price
                == run.stage->ConvertEffects_suggested_gas_price
            &&& next.stage->ConvertEvents_input == run.stage->ConvertEffects_input
            &&& next.stage->effects == effects
        }),
{
}

/// The result is put together from what was kept of the execution and from what the node
/// converted; the changes of objects and balances are left empty.
pub proof fn law_result_is_put_together<T: DryRunTypes>(
    run: DryRun<T>,
    events: T::EventsView,
    next: DryRun<T>,
)
    requires
        call_ensures(DryRun::<T>::advance, (run, Reply::EventsConverted(Ok(events))), next),
        run.stage is ConvertEvents,
    ensures
        next.stage is Finished,
        next.stage->Finished_0 is Ok,
        ({
            let outcome = next.stage->Finished_0->Ok_0;
            let executed = run.stage->ConvertEvents_executed;
            &&& outcome.response.suggested_gas_price == run.stage->ConvertEvents_suggested_gas_price
            &&& outcome.response.input == run.stage->ConvertEvents_input
            &&& outcome.response.effects == run.stage->effects
            &&& outcome.response.events == events
            &&& outcome.response.object_changes@.len() == 0
            &&& outcome.response.balance_changes@.len() == 0
            &&& outcome.response.execution_error_source == executed.execution_error_source
            &&& outcome.written_with_kind == executed.written_with_kind
            &&& outcome.effects == executed.effects
            &&& outcome.mock_gas == executed.mock_gas
        }),
{
}

/// Every reply can be taken in at every stage. Only of an execution that was asked for is it
/// expected that every object that the effects list was written.
pub proof fn law_every_reply_can_be_taken_in<T: DryRunTypes>(run: DryRun<T>, reply: Reply<T>)
    requires
        run.stage is Execute ==> (reply matches Reply::Executed(execution) ==> {
            &&& execution.written.wf()
            &&& forall|i: int|
                0 <= i < execution.created@.len() ==> execution.written@.contains_key(
                    (#[trigger] execution.created@[i]).0.0,
                )
            &&& forall|i: int|
                0 <= i < execution.unwrapped@.len() ==> execution.written@.contains_key(
                    (#[trigger] execution.unwrapped@[i]).0.0,
                )
            &&& forall|i: int|
                0 <= i < execution.mutated@.len() ==> execution.written@.contains_key(
                    (#[trigger] execution.mutated@[i]).0.0,
                )
        }),
    ensures
        call_requires(DryRun::<T>::advance, (run, reply)),
{
}

/// An execution is complete unless some created, unwrapped or mutated object was not written.
pub proof fn law_complete_unless_an_object_is_missing<T: DryRunTypes>(
    execution: &Execution<T>,
    complete: bool,
)
    requires
        execution.written.wf(),
        call_ensures(Execution::<T>::is_complete, (execution,), complete),
    ensures
        !complete <==> {
            ||| exists|i: int|
                0 <= i < execution.created@.len() && !execution.written@.contains_key(
                    (#[trigger] execution.created@[i]).0.0,
                )
            ||| exists|i: int|
                0 <= i < execution.unwrapped@.len() && !execution.written@.contains_key(
                    (#[trigger] execution.unwrapped@[i]).0.0,
                )
            ||| exists|i: int|
                0 <= i < execution.mutated@.len() && !execution.written@.contains_key(
                    (#[trigger] execution.mutated@[i]).0.0,
                )
        },
{
}

} // verus!
