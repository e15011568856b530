//! What observers of an operation are told.
use vstd::prelude::*;

use crate::error::{error_code, error_is_retryable, Error, ErrorView};
use crate::model::{
    opt_path, opt_path_ref, opt_str, Operation, OperationEvent, OperationEventPhase, Shell,
    ShellView,
};
use crate::path::FilePath;
use crate::text;

verus! {

#[verifier::ext_equal]
pub struct EventView {
    pub operation: Operation,
    pub phase: OperationEventPhase,
    pub shell: ShellView,
    pub program_name: Seq<char>,
    pub trace_id: u64,
    pub target_path: Option<Seq<u8>>,
    pub error_code: Option<Seq<char>>,
    pub retryable: bool,
    pub duration_ms: Option<u128>,
}

impl View for OperationEvent {
    type V = EventView;

    open spec fn view(&self) -> EventView {
        EventView {
            operation: self.operation,
            phase: self.phase,
            shell: self.shell@,
            program_name: self.program_name@,
            trace_id: self.trace_id,
            target_path: opt_path(self.target_path),
            error_code: opt_str(self.error_code),
            retryable: self.retryable,
            duration_ms: self.duration_ms,
        }
    }
}

/// The event that announces an operation.
pub open spec fn started(
    operation: Operation,
    shell: ShellView,
    name: Seq<char>,
    trace_id: u64,
    target: Option<Seq<u8>>,
) -> EventView {
    EventView {
        operation,
        phase: OperationEventPhase::Started,
        shell,
        program_name: name,
        trace_id,
        target_path: target,
        error_code: None,
        retryable: false,
        duration_ms: None,
    }
}

/// The event that ends an operation which succeeded.
pub open spec fn succeeded(start: EventView, target: Option<Seq<u8>>, duration_ms: u128) -> EventView {
    EventView {
        phase: OperationEventPhase::Succeeded,
        target_path: target,
        duration_ms: Some(duration_ms),
        ..start
    }
}

/// The completion path of a failed operation: the one that it was started with, or else the one
/// that its failure report names.
pub open spec fn failed_target(start: EventView, error: ErrorView) -> Option<Seq<u8>> {
    match (start.target_path, error) {
        (Some(path), _) => Some(path),
        (None, ErrorView::Failure { report, .. }) => report.target_path,
        _ => None,
    }
}

/// The event that ends an operation which failed.
pub open spec fn failed(start: EventView, error: ErrorView, duration_ms: u128) -> EventView {
    EventView {
        phase: OperationEventPhase::Failed,
        target_path: failed_target(start, error),
        error_code: Some(error_code(error)),
        retryable: error_is_retryable(error),
        duration_ms: Some(duration_ms),
        ..start
    }
}

/// The event that ends an operation, which succeeded at a place or failed.
pub open spec fn finished(
    start: EventView,
    outcome: Result<Option<Seq<u8>>, ErrorView>,
    duration_ms: u128,
) -> EventView {
    match outcome {
        Ok(target) => succeeded(start, target, duration_ms),
        Err(error) => failed(start, error, duration_ms),
    }
}

fn copy_ref(path: Option<&FilePath>) -> (r: Option<FilePath>)
    ensures
        opt_path(r) == opt_path_ref(path),
{
    match path {
        Some(p) => Some(p.copy()),
        None => None,
    }
}

/// The event that announces an operation.
pub fn started_event(
    operation: Operation,
    shell: &Shell,
    program_name: &str,
    trace_id: u64,
    target_path: Option<&FilePath>,
) -> (r: OperationEvent)
    ensures
        r@ == started(operation, shell@, program_name@, trace_id, opt_path_ref(target_path)),
{
    OperationEvent {
        operation,
        phase: OperationEventPhase::Started,
        shell: shell.copy(),
        program_name: text::copy(program_name),
        trace_id,
        target_path: copy_ref(target_path),
        error_code: None,
        retryable: false,
        duration_ms: None,
    }
}

/// The event that ends an operation which succeeded.
pub fn succeeded_event(
    start: &OperationEvent,
    target_path: Option<&FilePath>,
    duration_ms: u128,
) -> (r: OperationEvent)
    ensures
        r@ == succeeded(start@, opt_path_ref(target_path), duration_ms),
{
    OperationEvent {
        operation: start.operation,
        phase: OperationEventPhase::Succeeded,
        shell: start.shell.copy(),
        program_name: text::copy(&start.program_name),
        trace_id: start.trace_id,
        target_path: copy_ref(target_path),
        error_code: start.error_code,
        retryable: start.retryable,
        duration_ms: Some(duration_ms),
    }
}

/// The event that ends an operation which failed.
pub fn failed_event(start: &OperationEvent, error: &Error, duration_ms: u128) -> (r: OperationEvent)
    ensures
        r@ == failed(start@, error@, duration_ms),
{
    let target_path = match &start.target_path {
        Some(path) => Some(path.copy()),
        None => match error {
            Error::Failure { report, .. } => copy_ref(report.target_path.as_ref()),
            _ => None,
        },
    };
    OperationEvent {
        operation: start.operation,
        phase: OperationEventPhase::Failed,
        shell: start.shell.copy(),
        program_name: text::copy(&start.program_name),
        trace_id: start.trace_id,
        target_path,
        error_code: Some(error.error_code()),
        retryable: error.is_retryable(),
        duration_ms: Some(duration_ms),
    }
}

/// The event that ends an operation, which succeeded at a place or failed.
pub fn finished_event(
    start: &OperationEvent,
    outcome: Result<Option<&FilePath>, &Error>,
    duration_ms: u128,
) -> (r: OperationEvent)
    ensures
        r@ == finished(
            start@,
            (match outcome {
                Ok(target) => Ok::<Option<Seq<u8>>, ErrorView>(opt_path_ref(target)),
                Err(error) => Err::<Option<Seq<u8>>, ErrorView>(error@),
            }),
            duration_ms,
        ),
{
    match outcome {
        Ok(target) => succeeded_event(start, target, duration_ms),
        Err(error) => failed_event(start, error, duration_ms),
    }
}

} // verus!
