//! The course of a hook and of a batch of hooks.
use flowspec::flow::types::{FlowDefaults, FlowDefinition, HookCall, LifecycleHooks};
use flowspec::hooks::{
    hook_batch_step, hook_begun, hook_started, hook_waited, HookBatchStep, HookStep,
};
use flowspec::json::{parse_json, JsonValue};
use flowspec::ports::{
    DevkitdError, HookRunRecord, HookStatus, JobHandle, Mutation, RunRecord, StartRequest,
};
use flowspec::run::types::{HookPhase, RunPhase};
use indexmap::IndexMap;

const SECOND: i128 = 1_000_000_000;

fn json(text: &str) -> JsonValue {
    parse_json(text).unwrap()
}

fn hook(name: &str, note: &str, timeout: Option<&str>) -> HookCall {
    let mut args = IndexMap::new();
    args.insert("note".to_string(), JsonValue::Text(note.into()));
    HookCall {
        hook: name.into(),
        args,
        timeout: timeout.map(String::from),
        when: None,
        always_continue: false,
    }
}

fn run() -> RunRecord {
    RunRecord {
        run_id: "run_1".into(),
        flow_name: "empty".into(),
        flow_version: "1.0.0".into(),
        definition: FlowDefinition {
            name: "empty".into(),
            version: "1.0.0".into(),
            description: None,
            inputs: IndexMap::new(),
            outputs: IndexMap::new(),
            defaults: FlowDefaults::default(),
            timeout: None,
            lifecycle: LifecycleHooks::default(),
            metadata: IndexMap::new(),
            flowspec_version: None,
            steps: Vec::new(),
        },
        inputs: json(r#"{"message": "ship it"}"#),
        trigger: JsonValue::Null,
        phase: RunPhase::Running,
        cancelled: false,
        created_at: 0,
        updated_at: 0,
        idempotency_key: None,
        steps: Vec::new(),
    }
}

fn failed(stderr: &str) -> DevkitdError {
    DevkitdError::ToolError {
        stdout: String::new(),
        stderr: stderr.into(),
        exit_code: 1,
    }
}

fn recorded(step: HookStep) -> (HookRunRecord, Result<JsonValue, DevkitdError>) {
    match step {
        HookStep::Finish {
            write: Some(Mutation::RecordHookRun(record)),
            outcome,
        } => (record, outcome),
        other => panic!("the hook has not ended with a record: {other:?}"),
    }
}

fn begun(hook: &HookCall) -> StartRequest {
    match hook_begun(Some(&run()), hook, &HookPhase::BeforeRun, 1, 2) {
        HookStep::Start(request) => request,
        other => panic!("the job of the hook does not start: {other:?}"),
    }
}

#[test]
fn a_hook_goes_from_its_start_to_its_record() {
    let hook = hook("audit", "{{ inputs.message }}", Some("5s"));
    let request = begun(&hook);
    assert_eq!(request.tool, "audit");
    assert_eq!(request.args, json(r#"{"note": "ship it"}"#));
    assert_eq!(request.timeout_seconds, Some(5));

    let phase = HookPhase::BeforeRun;
    let step = hook_started(&hook, &phase, 1, &request, Ok(JobHandle("job_1".into())), 3);
    let HookStep::Wait { handle, deadline } = step else {
        panic!("the job is not waited for: {step:?}");
    };
    assert_eq!(handle.0, "job_1");
    assert_eq!(deadline, Some(3 + 5 * SECOND));

    let step = hook_waited(&hook, &phase, 1, &request, &handle, Ok(json("7")), 9);
    let (record, outcome) = recorded(step);
    assert_eq!(outcome.unwrap(), json("7"));
    assert_eq!(record.hook, "audit");
    assert_eq!(record.status, HookStatus::Completed);
    assert_eq!(record.started_at, 1);
    assert_eq!(record.completed_at, Some(9));
    assert_eq!(record.args_resolved, Some(json(r#"{"note": "ship it"}"#)));
    assert_eq!(record.job_id.as_deref(), Some("job_1"));
    assert_eq!(record.failure_reason, None);
    assert_eq!(record.step_id, None);
}

#[test]
fn a_hook_leaves_one_record_however_early_it_fails() {
    let phase = HookPhase::AfterStep {
        step_id: "build".into(),
    };
    // Its arguments cannot be resolved.
    let bad = hook("audit", "{{ inputs.nothing }}", None);
    let (record, outcome) = recorded(hook_begun(Some(&run()), &bad, &phase, 1, 2));
    assert!(matches!(
        outcome,
        Err(DevkitdError::ToolError { exit_code: 1, .. })
    ));
    assert_eq!(record.status, HookStatus::Failed);
    assert_eq!(record.args_resolved, None);
    assert_eq!(record.job_id, None);
    assert_eq!(record.step_id.as_deref(), Some("build"));
    assert_eq!(record.completed_at, Some(2));

    // Its job is refused.
    let good = hook("audit", "n", None);
    let request = begun(&good);
    let step = hook_started(&good, &phase, 1, &request, Err(DevkitdError::Unreachable), 4);
    let (record, outcome) = recorded(step);
    assert!(matches!(outcome, Err(DevkitdError::Unreachable)));
    assert_eq!(record.status, HookStatus::Failed);
    assert_eq!(record.args_resolved, Some(json(r#"{"note": "n"}"#)));
    assert_eq!(record.job_id, None);
    assert_eq!(
        record.failure_reason,
        Some(DevkitdError::Unreachable.message())
    );

    // Its job fails.
    let handle = JobHandle("job_2".into());
    let step = hook_waited(&good, &phase, 1, &request, &handle, Err(failed("no")), 5);
    let (record, outcome) = recorded(step);
    assert!(outcome.is_err());
    assert_eq!(record.status, HookStatus::Failed);
    assert_eq!(record.job_id.as_deref(), Some("job_2"));
    assert_eq!(
        record.failure_reason.as_deref(),
        Some("tool error: exit_code=1 stdout= stderr=no")
    );
}

#[test]
fn a_hook_without_its_run_is_interrupted_and_leaves_no_record() {
    let hook = hook("audit", "n", None);
    let step = hook_begun(None, &hook, &HookPhase::BeforeRun, 1, 2);
    assert!(matches!(
        step,
        HookStep::Finish {
            write: None,
            outcome: Err(DevkitdError::Interrupted),
        }
    ));
}

/// How many hooks of a batch run where each fails as told, and the reason for
/// which the batch fails.
fn driven(
    phase: HookPhase,
    hooks: Vec<HookCall>,
    failures: Vec<Option<&str>>,
) -> (usize, Option<String>) {
    let mut done = 0;
    let mut last = None;
    loop {
        match hook_batch_step(&phase, &hooks, done, last.as_ref()) {
            HookBatchStep::Run(i) => {
                assert_eq!(i, done);
                last = failures[i].map(failed);
                done += 1;
            }
            HookBatchStep::Finish(reason) => return (done, reason),
        }
    }
}

fn three(tolerant: bool) -> Vec<HookCall> {
    ["a", "b", "c"]
        .into_iter()
        .map(|name| HookCall {
            always_continue: tolerant,
            ..hook(name, "n", None)
        })
        .collect()
}

#[test]
fn hooks_run_in_order_until_one_ends_the_batch() {
    let none = vec![None, None, None];
    assert_eq!(driven(HookPhase::BeforeRun, three(false), none), (3, None));

    let second = || vec![None, Some("no"), Some("late")];
    let reason = Some("tool error: exit_code=1 stdout= stderr=no".to_string());
    assert_eq!(
        driven(HookPhase::BeforeRun, three(false), second()),
        (2, reason.clone())
    );
    assert_eq!(
        driven(HookPhase::BeforeRun, three(true), second()),
        (3, None),
        "a hook that always continues must not end the batch"
    );
    let step = HookPhase::BeforeStep {
        step_id: "build".into(),
    };
    assert_eq!(
        driven(step, three(true), second()),
        (2, reason),
        "a hook of a step ends the batch in any case"
    );
    assert_eq!(
        driven(HookPhase::AfterRun, three(false), second()),
        (3, None),
        "every hook after a run runs"
    );
    assert_eq!(driven(HookPhase::BeforeRun, vec![], vec![]), (0, None));
}
