//! What is told of failures: laws of the messages.
use crate::platform::{kind_named, wire_event_of, wire_events_of, ActionKind};
use crate::ports::{
    devkitd_error_text, store_error_text, DevkitdErrorModel, StoreErrorModel, StoredEventModel,
};
use crate::run::types::{engine_error_text, EngineErrorModel, HookPhaseModel};
use crate::scheduler::{phase_key, scheduler_error_text, SchedulerErrorModel};
use crate::template::{template_error_text, TemplateErrorModel};
use crate::text::signed_decimal;
use crate::tool_failure::{error_kind_name, names, ErrorKind};
use crate::use_cases::approvals::{approval_error_text, ApprovalErrorModel};
use crate::use_cases::queries::{query_error_text, QueryErrorModel};
use crate::use_cases::start_flow::{start_error_text, StartFlowErrorModel};
use vstd::prelude::*;

verus! {

/// A failure of a tool is described with its exit code and with all that it
/// wrote.
pub proof fn tool_failure_is_described(stdout: Seq<char>, stderr: Seq<char>, exit_code: i32)
    ensures
        ({
            let text = devkitd_error_text(
                DevkitdErrorModel::ToolError { stdout, stderr, exit_code },
            );
            &&& names(text, stdout)
            &&& names(text, stderr)
            &&& names(text, signed_decimal(exit_code as int))
        }),
{
    let text = devkitd_error_text(DevkitdErrorModel::ToolError { stdout, stderr, exit_code });
    let code = signed_decimal(exit_code as int);
    let none = Seq::<char>::empty();
    assert(text =~= (("tool error: exit_code="@ + code) + (" stdout="@ + stdout + " stderr="@
        + stderr)));
    assert(text =~= ((("tool error: exit_code="@ + code + " stdout="@) + stdout) + (" stderr="@
        + stderr)));
    assert(text =~= ((("tool error: exit_code="@ + code + " stdout="@ + stdout + " stderr="@)
        + stderr) + none));
}

/// What cannot be resolved is described with the reference and with the step.
pub proof fn unresolved_reference_is_described(reference: Seq<char>, step: Seq<char>)
    ensures
        names(
            template_error_text(TemplateErrorModel::UnresolvableReference { reference, step }),
            reference,
        ),
        names(
            template_error_text(TemplateErrorModel::UnresolvableReference { reference, step }),
            step,
        ),
        names(
            template_error_text(TemplateErrorModel::UnstructuredOutput { reference, step }),
            reference,
        ),
        names(
            template_error_text(TemplateErrorModel::UnstructuredOutput { reference, step }),
            step,
        ),
        names(template_error_text(TemplateErrorModel::Unterminated { step }), step),
{
    let a = template_error_text(TemplateErrorModel::UnresolvableReference { reference, step });
    assert(a =~= (("unresolvable reference '"@ + reference) + ("' in step '"@ + step + "'"@)));
    assert(a =~= (("unresolvable reference '"@ + reference + "' in step '"@) + step) + "'"@);
    let b = template_error_text(TemplateErrorModel::UnstructuredOutput { reference, step });
    assert(b =~= (("step '"@ + step) + (
    "' output is unstructured text; cannot resolve '"@ + reference + "' into it"@)));
    assert(b =~= (("step '"@ + step + "' output is unstructured text; cannot resolve '"@)
        + reference) + "' into it"@);
    let c = template_error_text(TemplateErrorModel::Unterminated { step });
    assert(c =~= ("unterminated template expression in step '"@ + step)
        + "': missing closing }}"@);
}

/// Other failures are described with what they are about, and those of the store
/// with what the store says.
pub proof fn messages_name_what_they_are_about(id: Seq<char>, e: StoreErrorModel)
    ensures
        names(store_error_text(StoreErrorModel::NotFound(id)), id),
        names(store_error_text(StoreErrorModel::Duplicate(id)), id),
        names(start_error_text(StartFlowErrorModel::FlowNotFound(id)), id),
        names(start_error_text(StartFlowErrorModel::MissingInputs(id)), id),
        names(approval_error_text(ApprovalErrorModel::NotWaiting(id)), id),
        names(approval_error_text(ApprovalErrorModel::Store(e)), store_error_text(e)),
        names(engine_error_text(EngineErrorModel::UnknownStep(id)), id),
        names(scheduler_error_text(SchedulerErrorModel::Engine(id)), id),
        names(scheduler_error_text(SchedulerErrorModel::Store(e)), store_error_text(e)),
        names(query_error_text(QueryErrorModel::StepNotFound(id)), id),
        names(query_error_text(QueryErrorModel::InvalidPhase(id)), id),
{
    let none = Seq::<char>::empty();
    lemma_named("run not found: "@, id, none, store_error_text(StoreErrorModel::NotFound(id)));
    lemma_named(
        "duplicate idempotency key: "@,
        id,
        none,
        store_error_text(StoreErrorModel::Duplicate(id)),
    );
    lemma_named(
        "store error: "@,
        store_error_text(e),
        none,
        approval_error_text(ApprovalErrorModel::Store(e)),
    );
    lemma_named(
        "store error: "@,
        store_error_text(e),
        none,
        scheduler_error_text(SchedulerErrorModel::Store(e)),
    );
    lemma_named(
        "engine error: "@,
        id,
        none,
        scheduler_error_text(SchedulerErrorModel::Engine(id)),
    );
    lemma_named(
        "step '"@,
        id,
        "' is not waiting approval"@,
        approval_error_text(ApprovalErrorModel::NotWaiting(id)),
    );
    lemma_named(
        "unknown step '"@,
        id,
        "' referenced by event"@,
        engine_error_text(EngineErrorModel::UnknownStep(id)),
    );
    lemma_named(
        "flow not found: "@,
        id,
        none,
        start_error_text(StartFlowErrorModel::FlowNotFound(id)),
    );
    lemma_named(
        "missing required input(s): "@,
        id,
        none,
        start_error_text(StartFlowErrorModel::MissingInputs(id)),
    );
    lemma_named(
        "step '"@,
        id,
        "' not found"@,
        query_error_text(QueryErrorModel::StepNotFound(id)),
    );
    lemma_named(
        "invalid phase '"@,
        id,
        "'; expected one of: running, completed, failed, cancelled"@,
        query_error_text(QueryErrorModel::InvalidPhase(id)),
    );
}

proof fn lemma_named(head: Seq<char>, name: Seq<char>, tail: Seq<char>, text: Seq<char>)
    requires
        text =~= (head + name) + tail,
    ensures
        names(text, name),
{
    assert(text == ((head + name) + tail));
}

/// Each kind of failure has a name of its own.
pub proof fn kinds_have_names(kind: ErrorKind)
    ensures
        error_kind_name(kind) == (match kind {
            ErrorKind::RunNotFound => "run_not_found"@,
            ErrorKind::StepNotFound => "step_not_found"@,
            ErrorKind::FlowNotFound => "flow_not_found"@,
            ErrorKind::MissingInputs => "missing_inputs"@,
            ErrorKind::NotApprovable => "not_approvable"@,
            ErrorKind::NoWaitingStep => "no_waiting_step"@,
            ErrorKind::AmbiguousStep => "ambiguous_step"@,
            ErrorKind::InvalidPhase => "invalid_phase"@,
            ErrorKind::ValidationFailed => "validation_failed"@,
            ErrorKind::StoreError => "store_error"@,
            ErrorKind::Internal => "internal"@,
        }),
{
}

/// What the platform asks for is known by these names, and by no others.
pub proof fn actions_are_known_by_name(name: Seq<char>)
    ensures
        kind_named("trigger_run"@) == ActionKind::TriggerRun,
        kind_named("approve"@) == ActionKind::Approve,
        kind_named("reject"@) == ActionKind::Reject,
        kind_named("cancel"@) == ActionKind::Cancel,
        kind_named(name) == ActionKind::Unknown <==> name != "trigger_run"@ && name != "approve"@
            && name != "reject"@ && name != "cancel"@,
{
    reveal_strlit("trigger_run");
    reveal_strlit("approve");
    reveal_strlit("reject");
    reveal_strlit("cancel");
    assert("trigger_run"@.len() == 11 && "approve"@.len() == 7 && "reject"@.len() == 6
        && "cancel"@.len() == 6);
    assert("reject"@[0] == 'r' && "cancel"@[0] == 'c');
}

/// All events of a push reach the platform, in order.
pub proof fn every_event_is_pushed(events: Seq<StoredEventModel>, i: int)
    ensures
        wire_events_of(events).len() == events.len(),
        0 <= i < events.len() ==> wire_events_of(events)[i] == wire_event_of(events[i]),
{
}

/// The hooks of different steps, and of a run before and after it, are told
/// apart.
pub proof fn hooks_are_told_apart(a: Seq<char>, b: Seq<char>)
    ensures
        a != b ==> phase_key(HookPhaseModel::BeforeStep { step_id: a }) != phase_key(
            HookPhaseModel::BeforeStep { step_id: b },
        ),
        a != b ==> phase_key(HookPhaseModel::AfterStep { step_id: a }) != phase_key(
            HookPhaseModel::AfterStep { step_id: b },
        ),
        phase_key(HookPhaseModel::BeforeStep { step_id: a }) != phase_key(
            HookPhaseModel::AfterStep { step_id: b },
        ),
        phase_key(HookPhaseModel::BeforeRun) != phase_key(HookPhaseModel::AfterRun),
{
    reveal_strlit("before_step:");
    reveal_strlit("after_step:");
    reveal_strlit("before_run");
    reveal_strlit("after_run");
    let p = "before_step:"@;
    let q = "after_step:"@;
    assert((p + a).skip(p.len() as int) =~= a);
    assert((p + b).skip(p.len() as int) =~= b);
    assert((q + a).skip(q.len() as int) =~= a);
    assert((q + b).skip(q.len() as int) =~= b);
    assert((p + a)[0] == 'b' && (q + b)[0] == 'a');
    assert("before_run"@.len() != "after_run"@.len());
}

} // verus!
