//! Values, records, rows, configuration and the connections to the outside.
use flowspec::config::{config_path, Config, RawConfig, RawPlatform, Secret};
use flowspec::devkitd::{
    cancel_retry, clamp_to_deadline, deadline_passed, decode_stdout, read_start, shows_life,
    start_arguments, truncate_str, value_or_text, wait, DevkitdClientConfig, JobStatusEnvelope,
    PollReply, PollStep, StartReply,
};
use flowspec::flow::types::{
    FlowDefaults, FlowDefinition, FlowInput, LifecycleHooks, RouteTarget, Step, StepType,
};
use flowspec::flow_source::{list_flows_latest, select_flow};
use flowspec::flows::{flow_files, is_flow_file, DirectoryEntry, FoundFile, FsFlowSource};
use flowspec::graph::{first_cycle, reached};
use flowspec::ids::{new_run_id, RunNumbers};
use flowspec::json::{parse_json, set_entry, JsonValue};
use flowspec::names::{phase_str, read_event_type, read_phase, read_status, status_str};
use flowspec::platform::{
    ack_url, action_kind, action_url, actions_url, advance_pump, base_url, begin_pump,
    check_status, events_url, group_by_run, handle_approve_reject, handle_cancel,
    handle_trigger_run, highest_sequence, is_acknowledged, parse_and_validate_flow_doc,
    platform_trigger, push_events, state_url, wire_event, ActionKind, Disposal, PlatformError,
    PumpState, TriggerOutcome,
};
use flowspec::ports::{
    DevkitdError, HookPhase, HookRunRecord, HookStatus, Mutation, NewRun, RunEventRecord,
    RunEventType, RunFilter, RunRecord, StepRecord, StoreError, StoredRunEvent,
};
use flowspec::recovery::{recovery_plan, RecoveryAction, RecoveryReason};
use flowspec::rows::{
    assignments, from_epoch, list_query, new_run_row, read_event, read_hook, read_run, read_step,
    read_summary, row_change, row_missing, to_epoch, Cell, EventRow, HookRow, RowChange, RunRow,
    StepRow, SummaryRow,
};
use flowspec::run::types::{ApprovalStatus, RunPhase, StepRun, StepStatus};
use flowspec::store::{apply_mutation, InMemoryStateStore};
use flowspec::tool_failure::{error_kind_str, ErrorKind, ToolFailure};
use flowspec::use_cases::approvals::ApprovalError;
use flowspec::use_cases::queries::{
    get_run_tree, list_runs, platform_key, platform_run_id, ListRunsRequest, QueryError,
};
use flowspec::use_cases::start_flow::StartFlowError;
use flowspec::wire::{summarize_output, JobFailure, Timestamp};
use indexmap::IndexMap;

const SECOND: i128 = 1_000_000_000;

fn json(text: &str) -> JsonValue {
    parse_json(text).unwrap()
}

fn empty_flow() -> FlowDefinition {
    FlowDefinition {
        name: "empty".into(),
        version: "1.0.0".into(),
        description: None,
        inputs: IndexMap::new(),
        outputs: IndexMap::new(),
        defaults: FlowDefaults::default(),
        timeout: None,
        lifecycle: LifecycleHooks::default(),
        metadata: IndexMap::new(),
        flowspec_version: None,
        steps: Vec::new(),
    }
}

fn cli_step(id: &str, input: &str, on_success: &str) -> Step {
    Step {
        id: id.into(),
        step_type: StepType::Cli,
        with: JsonValue::Object(vec![
            ("cli".into(), JsonValue::Text("bash".into())),
            ("input".into(), JsonValue::Text(input.into())),
        ]),
        human_loop: false,
        timeout: None,
        retries: 0,
        reject_input: None,
        before: Vec::new(),
        after: Vec::new(),
        on_success: Some(RouteTarget::One(on_success.into())),
        on_failure: None,
        on_approve: None,
        on_reject: None,
        needs: Vec::new(),
    }
}

fn simple_flow(name: &str, version: &str) -> FlowDefinition {
    let mut flow = empty_flow();
    flow.name = name.into();
    flow.version = version.into();
    flow.inputs.insert(
        "message".into(),
        FlowInput {
            ty: "string".into(),
            required: true,
            description: None,
            default: None,
        },
    );
    flow.steps
        .push(cli_step("only", "{{ inputs.message }}", "done"));
    flow
}

// ---------------------------------------------------------------------------
// What is shown
// ---------------------------------------------------------------------------

#[test]
fn timestamp_roundtrips_through_rfc3339() {
    let now = 1_754_640_000 * SECOND;
    let ts = Timestamp(now);
    let text = ts.to_rfc3339().unwrap();
    assert!(text.contains('T') && text.contains('Z'));
    let back = Timestamp::from_rfc3339(&text).unwrap();
    assert_eq!(back.0, now);
    assert_eq!(text, "2025-08-08T08:00:00Z");
    assert_eq!(Timestamp::from_rfc3339("yesterday"), None);
    let fine = Timestamp(now + 120_000_000);
    assert_eq!(fine.to_rfc3339().unwrap(), "2025-08-08T08:00:00.12Z");
}

#[test]
fn summarize_output_passes_short_text_through() {
    let v = JsonValue::Text("hello".into());
    let s = summarize_output(&v, 500);
    assert_eq!(s.text, "hello");
    assert!(!s.truncated);
    assert_eq!(s.bytes, 5);
}

#[test]
fn summarize_output_truncates_at_char_boundary_with_marker() {
    let v = JsonValue::Text("x".repeat(1000));
    let s = summarize_output(&v, 10);
    assert!(s.truncated);
    assert!(s.text.starts_with("xxxxxxxxxx"));
    assert!(s.text.contains("truncated"));
    assert_eq!(s.bytes, 1000);
    assert_eq!(
        s.text,
        "xxxxxxxxxx…[truncated, 1000 bytes total; use get_step_output]"
    );
    let wide = summarize_output(&JsonValue::Text("éé".into()), 1);
    assert_eq!(wide.bytes, 4);
    assert!(wide.text.starts_with("é…"));
}

#[test]
fn summarize_output_serializes_structured_values_as_json_text() {
    let v = json(r#"{"a": 1}"#);
    let s = summarize_output(&v, 500);
    assert_eq!(s.text, r#"{"a":1}"#);
}

#[test]
fn job_failure_from_tool_error_keeps_exit_code_stdout_stderr() {
    let e = DevkitdError::ToolError {
        stdout: "".to_string(),
        stderr: "PROVISIONER_PASSWORD env var is not set".to_string(),
        exit_code: 1,
    };
    let f = JobFailure::from(&e);
    assert_eq!(f.kind, "tool_error");
    assert_eq!(f.exit_code, Some(1));
    assert_eq!(
        f.stderr.as_deref(),
        Some("PROVISIONER_PASSWORD env var is not set")
    );
}

#[test]
fn job_failure_from_non_tool_error_has_no_exit_code() {
    let f = JobFailure::from(&DevkitdError::Timeout);
    assert_eq!(f.kind, "timeout");
    assert_eq!(f.exit_code, None);
    assert_eq!(f.stdout, None);
    assert_eq!(f.stderr, None);
}

#[test]
fn json_texts_are_read_and_written() {
    let v = json(r#"{"b": [true, null, "q\"\n\u0007é"], "a": -12}"#);
    assert_eq!(
        v.to_text(),
        "{\"a\":-12,\"b\":[true,null,\"q\\\"\\n\\u0007é\"]}"
    );
    assert_eq!(parse_json(&v.to_text()).unwrap(), v);
    assert_eq!(v.get("a"), Some(&JsonValue::Number("-12".into())));
    assert_eq!(v.get("c"), None);
    assert!(parse_json("{").is_err());
    let twice = json(r#"{"k": 1, "k": 2}"#);
    assert_eq!(twice.to_text(), r#"{"k":2}"#);
    let mut entries = Vec::new();
    set_entry(&mut entries, "b".into(), JsonValue::Bool(true));
    set_entry(&mut entries, "a".into(), JsonValue::Null);
    set_entry(&mut entries, "b".into(), JsonValue::Bool(false));
    assert_eq!(JsonValue::Object(entries).to_text(), r#"{"a":null,"b":false}"#);
}

#[test]
fn reserved_keys_stand_for_another_value() {
    let raw = JsonValue::Object(vec![(
        "$serde_json::private::RawValue".into(),
        JsonValue::Text("1".into()),
    )]);
    assert_eq!(raw.to_text(), r#"{"$serde_json::private::RawValue":"1"}"#);
    assert_eq!(
        parse_json(&raw.to_text()).unwrap(),
        JsonValue::Number("1".into())
    );
    let near = json(r#"{"$serde_json::private::Raw": "1", "k": "$serde_json::private::RawValue"}"#);
    assert_eq!(parse_json(&near.to_text()).unwrap(), near);
}

#[test]
fn names_ids_and_graphs() {
    assert_eq!(phase_str(RunPhase::Cancelled), "cancelled");
    assert_eq!(read_phase("failed"), Some(RunPhase::Failed));
    assert_eq!(read_phase("Failed"), None);
    assert_eq!(status_str(StepStatus::FailedRejected), "failed_rejected");
    assert_eq!(
        read_status("waiting_on_subflow"),
        Some(StepStatus::WaitingOnSubflow)
    );
    assert_eq!(
        read_event_type("step_stream_delta"),
        Some(RunEventType::StepStreamDelta)
    );
    assert_eq!(new_run_id(1_754_640_000, 26), "run_1754640000_00001a");
    assert_ne!(new_run_id(5, 1), new_run_id(5, 2));
    let mut numbers = RunNumbers::new();
    assert_eq!(numbers.next_id(9), "run_9_000000");
    assert_eq!(numbers.next_id(9), "run_9_000001");
    assert_eq!(numbers.given, 2);
    let graph = vec![
        ("a".to_string(), vec!["b".to_string(), "c".to_string()]),
        ("b".to_string(), vec!["d".to_string()]),
        ("d".to_string(), vec!["b".to_string()]),
    ];
    assert_eq!(
        first_cycle(&graph, &vec!["a".to_string()]),
        Some(vec!["b".to_string(), "d".to_string(), "b".to_string()])
    );
    assert_eq!(first_cycle(&graph, &vec!["c".to_string()]), None);
    let mut all = reached(&graph, &vec!["b".to_string()]);
    all.sort();
    assert_eq!(all, vec!["b".to_string(), "d".to_string()]);
}

// ---------------------------------------------------------------------------
// Recovery
// ---------------------------------------------------------------------------

fn run_with_steps(run_id: &str, steps: Vec<StepRecord>) -> RunRecord {
    RunRecord {
        run_id: run_id.into(),
        flow_name: "empty".into(),
        flow_version: "1.0.0".into(),
        definition: empty_flow(),
        inputs: json("{}"),
        trigger: json("{}"),
        phase: RunPhase::Running,
        cancelled: false,
        created_at: 0,
        updated_at: 0,
        idempotency_key: None,
        steps,
    }
}

fn step(step_id: &str, status: StepStatus, attempt: u32) -> StepRun {
    StepRun {
        status,
        attempt,
        ..StepRun::pending(step_id.to_string())
    }
}

fn record(run: StepRun, job_id: Option<&str>) -> StepRecord {
    StepRecord {
        run,
        job_id: job_id.map(String::from),
        with_resolved: None,
        failure_detail: None,
    }
}

#[test]
fn running_step_with_job_id_reattaches() {
    let mut rec = StepRecord::pending("plan".to_string());
    rec.run = step("plan", StepStatus::Running, 1);
    rec.job_id = Some("job_123".into());

    let run = run_with_steps("run_1", vec![rec]);
    let actions = recovery_plan(vec![run]);

    assert_eq!(
        actions,
        vec![RecoveryAction::ReattachStep {
            run_id: "run_1".into(),
            step_id: "plan".into(),
            attempt: 1,
            job_id: "job_123".into(),
        }]
    );
}

#[test]
fn running_step_without_job_id_fails_as_interrupted() {
    let rec = record(step("plan", StepStatus::Running, 1), None);
    let run = run_with_steps("run_1", vec![rec]);
    let actions = recovery_plan(vec![run]);

    assert_eq!(
        actions,
        vec![RecoveryAction::FailStep {
            run_id: "run_1".into(),
            step_id: "plan".into(),
            attempt: 1,
            reason: RecoveryReason::Interrupted,
        }]
    );
}

#[test]
fn waiting_approval_is_left_alone() {
    let rec = record(step("plan", StepStatus::WaitingApproval, 1), None);
    let run = run_with_steps("run_1", vec![rec]);
    let actions = recovery_plan(vec![run]);

    assert_eq!(
        actions,
        vec![RecoveryAction::LeaveWaitingApproval {
            run_id: "run_1".into(),
            step_id: "plan".into(),
            attempt: 1,
        }]
    );
}

#[test]
fn waiting_on_subflow_rechecks_child() {
    let mut s = step("deploy", StepStatus::WaitingOnSubflow, 1);
    s.child_run_id = Some("child_1".into());
    let run = run_with_steps("run_1", vec![record(s, None)]);
    let actions = recovery_plan(vec![run]);

    assert_eq!(
        actions,
        vec![RecoveryAction::RecheckSubflow {
            run_id: "run_1".into(),
            step_id: "deploy".into(),
            attempt: 1,
            child_run_id: "child_1".into(),
        }]
    );
}

#[test]
fn terminal_steps_produce_no_actions() {
    let rec = record(step("plan", StepStatus::Completed, 1), None);
    let run = run_with_steps("run_1", vec![rec]);
    let actions = recovery_plan(vec![run]);
    assert!(actions.is_empty());
}

#[test]
fn running_run_with_no_step_rows_reissues_run_started() {
    let run = run_with_steps("run_1", vec![]);
    let actions = recovery_plan(vec![run]);
    assert_eq!(
        actions,
        vec![RecoveryAction::ReissueRunStarted {
            run_id: "run_1".into(),
        }]
    );
}

#[test]
fn only_latest_attempt_is_considered() {
    let old = step("plan", StepStatus::Running, 1);
    let latest = step("plan", StepStatus::WaitingApproval, 2);

    let run = run_with_steps(
        "run_1",
        vec![record(old, Some("job_old")), record(latest, None)],
    );
    let actions = recovery_plan(vec![run]);

    assert_eq!(
        actions,
        vec![RecoveryAction::LeaveWaitingApproval {
            run_id: "run_1".into(),
            step_id: "plan".into(),
            attempt: 2,
        }]
    );
}

#[test]
fn runs_are_recovered_in_their_order_and_each_for_itself() {
    let first = || run_with_steps("run_1", vec![]);
    let second = || {
        run_with_steps(
            "run_2",
            vec![
                record(step("plan", StepStatus::Running, 1), Some("job_1")),
                record(step("review", StepStatus::WaitingApproval, 1), None),
            ],
        )
    };
    let mut expected = recovery_plan(vec![first()]);
    expected.extend(recovery_plan(vec![second()]));
    assert_eq!(recovery_plan(vec![first(), second()]), expected);
    assert_eq!(expected.len(), 3);
}

// ---------------------------------------------------------------------------
// The store in memory
// ---------------------------------------------------------------------------

fn new_run(idem: Option<&str>) -> NewRun {
    NewRun {
        flow_name: "empty".into(),
        flow_version: "1.0.0".into(),
        definition: empty_flow(),
        inputs: json(r#"{"message": "hi"}"#),
        trigger: json(r#"{"user": "test"}"#),
        idempotency_key: idem.map(|s| s.into()),
    }
}

fn create(store: &mut InMemoryStateStore, new: NewRun, n: u64) -> Result<String, StoreError> {
    store.create_run(new, new_run_id(1, n), n as i128)
}

#[test]
fn create_run_then_load_round_trips() {
    let mut store = InMemoryStateStore::new();
    let run_id = create(&mut store, new_run(None), 1).unwrap();
    let loaded = store.load_run(&run_id).unwrap();

    assert_eq!(loaded.run_id, run_id);
    assert_eq!(loaded.flow_name, "empty");
    assert_eq!(loaded.phase, RunPhase::Running);
    assert_eq!(loaded.inputs, json(r#"{"message": "hi"}"#));
    assert!(matches!(
        store.load_run("run_0"),
        Err(StoreError::NotFound(id)) if id == "run_0"
    ));
}

#[test]
fn duplicate_idempotency_key_is_rejected() {
    let mut store = InMemoryStateStore::new();
    let run_id = create(&mut store, new_run(Some("idem-1")), 1).unwrap();

    let err = create(&mut store, new_run(Some("idem-1")), 2).unwrap_err();
    assert!(matches!(err, StoreError::Duplicate(_)));

    let loaded = store.load_run(&run_id).unwrap();
    assert_eq!(loaded.idempotency_key, Some("idem-1".into()));
}

#[test]
fn in_memory_store_find_by_idempotency_key_finds_the_owning_run() {
    let mut store = InMemoryStateStore::new();
    let run_id = create(&mut store, new_run(Some("idem-1")), 1).unwrap();

    assert_eq!(store.find_by_idempotency_key("idem-1"), Some(run_id));
    assert_eq!(store.find_by_idempotency_key("no-such-key"), None);
}

#[test]
fn apply_mutations_then_reload_is_equal() {
    let mut store = InMemoryStateStore::new();
    let run_id = create(&mut store, new_run(None), 1).unwrap();

    let step = StepRecord {
        run: StepRun {
            step_id: "plan".into(),
            status: StepStatus::Running,
            attempt: 1,
            input_resolved: Some("build it".into()),
            ..StepRun::pending("plan".to_string())
        },
        job_id: Some("job_1".into()),
        with_resolved: Some(json(r#"{"cli": "bash"}"#)),
        failure_detail: None,
    };

    store
        .apply(&run_id, vec![Mutation::InsertStepRun(step.clone())], 7)
        .unwrap();

    let loaded = store.load_run(&run_id).unwrap();
    assert_eq!(loaded.steps.len(), 1);
    assert_eq!(loaded.steps[0].run.step_id, "plan");
    assert_eq!(loaded.steps[0].run.status, StepStatus::Running);
    assert_eq!(loaded.steps[0].job_id, Some("job_1".into()));
    assert_eq!(loaded.steps[0].run.input_resolved, Some("build it".into()));
    assert_eq!(loaded.updated_at, 7);
}

#[test]
fn apply_batch_is_atomic() {
    let mut store = InMemoryStateStore::new();
    let run_id = create(&mut store, new_run(None), 1).unwrap();

    // First mutation is valid; second references a non-existent step.
    let err = store
        .apply(
            &run_id,
            vec![
                Mutation::InsertStepRun(record(step("plan", StepStatus::Running, 1), None)),
                Mutation::SetStepStatus {
                    step_id: "does-not-exist".into(),
                    attempt: 1,
                    status: StepStatus::Completed,
                },
            ],
            2,
        )
        .unwrap_err();
    assert!(matches!(err, StoreError::NotFound(_)));

    // The first mutation must not have committed.
    let loaded = store.load_run(&run_id).unwrap();
    assert!(loaded.steps.is_empty());
}

#[test]
fn a_refused_write_leaves_the_record_as_it_was() {
    let mut store = InMemoryStateStore::new();
    let run_id = create(&mut store, new_run(None), 1).unwrap();
    let mut run = store.load_run(&run_id).unwrap();
    let first = record(step("plan", StepStatus::Running, 1), None);
    apply_mutation(&mut run, Mutation::InsertStepRun(first)).unwrap();
    let before = format!("{run:?}");
    let refused = apply_mutation(
        &mut run,
        Mutation::SetJobId {
            step_id: "plan".into(),
            attempt: 2,
            job_id: None,
        },
    );
    assert!(matches!(refused, Err(StoreError::NotFound(_))));
    assert_eq!(format!("{run:?}"), before);
}

#[test]
fn list_runs_filters_and_limits() {
    let mut store = InMemoryStateStore::new();
    let a = create(&mut store, new_run(None), 1).unwrap();

    let mut other = new_run(None);
    other.flow_name = "other".into();
    let b = create(&mut store, other, 2).unwrap();

    store
        .apply(&a, vec![Mutation::SetRunPhase(RunPhase::Completed)], 3)
        .unwrap();

    let all = store.list_runs(&RunFilter::default());
    assert_eq!(all.len(), 2);
    assert_eq!(all[0].run_id, b, "the newest run comes first");

    let completed = store.list_runs(&RunFilter {
        phase: Some(RunPhase::Completed),
        ..Default::default()
    });
    assert_eq!(completed.len(), 1);
    assert_eq!(completed[0].run_id, a);

    let other_flows = store.list_runs(&RunFilter {
        flow_name: Some("other".into()),
        ..Default::default()
    });
    assert_eq!(other_flows.len(), 1);
    assert_eq!(other_flows[0].run_id, b);

    let limited = store.list_runs(&RunFilter {
        limit: Some(1),
        ..Default::default()
    });
    assert_eq!(limited.len(), 1);
    assert_eq!(store.runs_in_phase(RunPhase::Running).len(), 1);
}

fn event(event_type: RunEventType) -> Mutation {
    Mutation::AppendEvent(RunEventRecord {
        event_type,
        step_id: None,
        timestamp: 5,
        payload: JsonValue::Null,
    })
}

#[test]
fn events_are_numbered_per_run_and_drained() {
    let mut store = InMemoryStateStore::new();
    let a = create(&mut store, new_run(None), 1).unwrap();
    let b = create(&mut store, new_run(None), 2).unwrap();
    store
        .apply(&b, vec![event(RunEventType::RunStarted)], 3)
        .unwrap();
    store
        .apply(
            &a,
            vec![
                event(RunEventType::RunStarted),
                event(RunEventType::RunCompleted),
            ],
            4,
        )
        .unwrap();
    let pending = store.unpushed_events(10);
    let seen: Vec<(String, u64)> = pending
        .iter()
        .map(|(id, e)| (id.clone(), e.sequence))
        .collect();
    assert_eq!(
        seen,
        vec![(a.clone(), 1), (a.clone(), 2), (b.clone(), 1)]
    );
    assert_eq!(store.unpushed_events(2).len(), 2);
    assert!(store.unpushed_events(0).is_empty());
    store.mark_events_pushed(&a, 1);
    store.mark_events_pushed(&a, 1);
    let left = store.unpushed_events(10);
    assert_eq!(left.len(), 2);
    assert_eq!(left[0].1.event_type, RunEventType::RunCompleted);
    store.mark_events_pushed(&a, 2);
    assert!(store.unpushed_events(10).iter().all(|(id, _)| id != &a));
}

#[test]
fn a_run_tree_has_the_run_at_its_root() {
    let mut store = InMemoryStateStore::new();
    let a = create(&mut store, new_run(None), 1).unwrap();
    let node = get_run_tree(store.load_run_tree(&a)).unwrap();
    assert_eq!(node.run_id, a);
    assert_eq!(node.phase, "running");
    assert!(node.children.is_empty());
    assert!(matches!(
        get_run_tree(store.load_run_tree("nope")),
        Err(QueryError::Store(StoreError::NotFound(_)))
    ));
}

// ---------------------------------------------------------------------------
// Rows
// ---------------------------------------------------------------------------

fn full_step() -> StepRecord {
    StepRecord {
        run: StepRun {
            step_id: "plan".into(),
            status: StepStatus::Failed,
            attempt: 3,
            started_at: Some(100 * SECOND + 5),
            completed_at: Some(160 * SECOND),
            input_resolved: Some("do it".into()),
            output: Some(json(r#"{"b": [1, "x"], "a": null}"#)),
            approval_status: Some(ApprovalStatus::Rejected),
            feedback: Some("again".into()),
            approval_comment: Some("fine".into()),
            failure_reason: Some("boom".into()),
            child_run_id: Some("run_2".into()),
        },
        job_id: Some("job_plan".into()),
        with_resolved: Some(json(r#"{"cli": "bash"}"#)),
        failure_detail: Some(JobFailure {
            kind: "tool_error".into(),
            exit_code: Some(-7),
            stdout: Some("out".into()),
            stderr: None,
        }),
    }
}

fn put_step(s: StepRecord) -> StepRow {
    match row_change(Mutation::InsertStepRun(s)) {
        RowChange::PutStep(row) => row,
        other => panic!("not the row of a step: {other:?}"),
    }
}

#[test]
fn step_rows_read_back_what_was_written() {
    let row = put_step(full_step());
    assert_eq!(row.status, "failed");
    assert_eq!(row.attempt, 3);
    assert_eq!(row.started_at, Some(100));
    assert_eq!(row.output.as_deref(), Some(r#"{"a":null,"b":[1,"x"]}"#));
    assert_eq!(
        row.failure_detail.as_deref(),
        Some(r#"{"kind":"tool_error","exit_code":-7,"stdout":"out","stderr":null}"#)
    );
    let back = read_step(&row).unwrap();
    let sent = full_step();
    assert_eq!(back.run.status, sent.run.status);
    assert_eq!(back.run.attempt, 3);
    assert_eq!(back.run.started_at, Some(100 * SECOND));
    assert_eq!(back.run.completed_at, Some(160 * SECOND));
    assert_eq!(back.run.output, sent.run.output);
    assert_eq!(back.run.approval_status, Some(ApprovalStatus::Rejected));
    assert_eq!(back.run.feedback, sent.run.feedback);
    assert_eq!(back.run.approval_comment, sent.run.approval_comment);
    assert_eq!(back.run.failure_reason, sent.run.failure_reason);
    assert_eq!(back.run.child_run_id, sent.run.child_run_id);
    assert_eq!(back.with_resolved, sent.with_resolved);
    assert_eq!(back.failure_detail, sent.failure_detail);
    assert_eq!(back.job_id, sent.job_id);
}

#[test]
fn bad_rows_are_refused() {
    let mut row = put_step(full_step());
    row.status = "done".into();
    let err = read_step(&row).unwrap_err();
    assert_eq!(
        err.message(),
        "backend error: Conversion error from type Text at index: 0, serialization error: unknown \
         variant `done`, expected one of `pending`, `running`, `waiting_approval`, \
         `waiting_on_subflow`, `completed`, `failed`, `failed_rejected`, `skipped`, `cancelled`"
    );
    let mut row = put_step(full_step());
    row.output = Some("{".into());
    assert!(matches!(read_step(&row), Err(StoreError::Backend(_))));
    let mut row = put_step(full_step());
    row.failure_detail = Some("[]".into());
    assert!(matches!(read_step(&row), Err(StoreError::Backend(_))));
    row.failure_detail = Some("[\"tool_error\", null, null, null, 1]".into());
    assert!(matches!(read_step(&row), Err(StoreError::Backend(_))));
    row.failure_detail = Some("[null, 1, null, null]".into());
    assert!(matches!(read_step(&row), Err(StoreError::Backend(_))));
    row.failure_detail = Some("[\"tool_error\", -7, \"out\", null]".into());
    let listed = read_step(&row).unwrap();
    assert_eq!(listed.failure_detail, full_step().failure_detail);
}

#[test]
fn hook_and_event_rows_read_back_what_was_written() {
    let hook = HookRunRecord {
        hook: "create-feature".into(),
        phase: HookPhase::BeforeRun,
        step_id: None,
        status: HookStatus::Failed,
        started_at: 9 * SECOND,
        completed_at: Some(10 * SECOND + 1),
        args_resolved: Some(json(r#"{"name": "x"}"#)),
        output_ref: None,
        failure_reason: Some("tool error: exit_code=1".into()),
        failure_detail: None,
        job_id: Some("job-1".into()),
    };
    let row: HookRow = match row_change(Mutation::RecordHookRun(hook)) {
        RowChange::AddHook(row) => row,
        other => panic!("not the row of a hook: {other:?}"),
    };
    let back = read_hook(&row).unwrap();
    assert_eq!(back.hook, "create-feature");
    assert_eq!(back.phase, HookPhase::BeforeRun);
    assert_eq!(back.status, HookStatus::Failed);
    assert_eq!(back.completed_at, Some(10 * SECOND));
    assert_eq!(back.args_resolved, Some(json(r#"{"name": "x"}"#)));
    assert!(back.failure_detail.is_none());
    let mut bad = row;
    bad.phase = "during".into();
    assert!(read_hook(&bad).is_err());

    let row: EventRow = match row_change(Mutation::AppendEvent(RunEventRecord {
        event_type: RunEventType::StepFailed,
        step_id: Some("plan".into()),
        timestamp: 3 * SECOND,
        payload: json(r#"{"k": 1}"#),
    })) {
        RowChange::AddEvent(row) => row,
        other => panic!("not the row of an event: {other:?}"),
    };
    let back = read_event(4, &row).unwrap();
    assert_eq!(back.sequence, 4);
    assert_eq!(back.event_type, RunEventType::StepFailed);
    assert_eq!(back.timestamp, 3 * SECOND);
    assert_eq!(back.payload, json(r#"{"k": 1}"#));
    let mut bad = row;
    bad.event_type = "x".into();
    assert!(read_event(1, &bad).is_err());
}

#[test]
fn run_rows_read_back_what_was_written() {
    let row = new_run_row(&new_run(Some("idem-1")), 50 * SECOND + 3);
    assert_eq!(row.phase, "running");
    assert_eq!(row.inputs, r#"{"message":"hi"}"#);
    let back = read_run("run_1", row, &vec![]).unwrap();
    assert_eq!(back.run_id, "run_1");
    assert_eq!(back.phase, RunPhase::Running);
    assert_eq!(back.inputs, json(r#"{"message": "hi"}"#));
    assert_eq!(back.created_at, 50 * SECOND);
    assert_eq!(back.idempotency_key.as_deref(), Some("idem-1"));
    assert!(back.steps.is_empty() && !back.cancelled);

    let row = |phase: &str, trigger: &str| RunRow {
        phase: phase.into(),
        trigger: trigger.into(),
        cancelled: 1,
        ..new_run_row(&new_run(None), 0)
    };
    let with_step = read_run("r", row("failed", "null"), &vec![put_step(full_step())]).unwrap();
    assert_eq!(with_step.steps.len(), 1);
    assert_eq!(with_step.phase, RunPhase::Failed);
    assert!(with_step.cancelled);
    assert!(matches!(
        read_run("r", row("failed", "?"), &vec![]),
        Err(StoreError::Serialization(_))
    ));
    match read_run("r", row("odd", "null"), &vec![]) {
        Err(StoreError::Serialization(why)) => assert_eq!(
            why,
            "unknown variant `odd`, expected one of `running`, `completed`, `failed`, `cancelled`"
        ),
        other => panic!("read a phase that is none: {other:?}"),
    }
}

#[test]
fn rows_follow_the_changes_of_a_record() {
    let mut store = InMemoryStateStore::new();
    let id = create(&mut store, new_run(None), 1).unwrap();
    let mut record = store.load_run(&id).unwrap();
    let mut row = put_step(full_step());
    apply_mutation(&mut record, Mutation::InsertStepRun(full_step())).unwrap();
    let changes = || {
        vec![
            Mutation::SetStepStatus {
                step_id: "plan".into(),
                attempt: 3,
                status: StepStatus::Completed,
            },
            Mutation::SetJobId {
                step_id: "plan".into(),
                attempt: 3,
                job_id: None,
            },
            Mutation::SetStepTimestamps {
                step_id: "plan".into(),
                attempt: 3,
                started_at: None,
                completed_at: Some(200 * SECOND),
            },
        ]
    };
    for m in changes() {
        apply_mutation(&mut record, m).unwrap();
    }
    for m in changes() {
        let updates = match row_change(m) {
            RowChange::UpdateStep { updates, .. } => updates,
            other => panic!("not an update of a step: {other:?}"),
        };
        for u in updates {
            match (u.column, u.cell) {
                ("status", Cell::Text(t)) => row.status = t,
                ("job_id", Cell::Null) => row.job_id = None,
                ("started_at", Cell::Null) => row.started_at = None,
                ("completed_at", Cell::Int(n)) => row.completed_at = Some(n),
                other => panic!("not a column of these changes: {other:?}"),
            }
        }
    }
    let back = read_step(&row).unwrap();
    let kept = &record.steps[0];
    assert_eq!(back.run.status, kept.run.status);
    assert_eq!(back.run.status, StepStatus::Completed);
    assert_eq!(back.job_id, kept.job_id);
    assert_eq!(back.run.started_at, kept.run.started_at);
    assert_eq!(back.run.completed_at, kept.run.completed_at);
    assert_eq!(back.run.output, kept.run.output);
}

#[test]
fn changes_name_their_columns() {
    match row_change(Mutation::SetApproval {
        step_id: "plan".into(),
        attempt: 2,
        approval_status: ApprovalStatus::Approved,
        comment: Some("good".into()),
        feedback: None,
    }) {
        RowChange::UpdateStep {
            step_id,
            attempt,
            updates,
        } => {
            assert_eq!((step_id.as_str(), attempt), ("plan", 2));
            assert_eq!(
                assignments(&updates),
                "approval_status = ?, approval_comment = ?, feedback = ?"
            );
            assert!(matches!(&updates[0].cell, Cell::Text(t) if t == "approved"));
            assert!(matches!(&updates[2].cell, Cell::Null));
        }
        other => panic!("not an update of a step: {other:?}"),
    }
    match row_change(Mutation::SetRunCancelled) {
        RowChange::UpdateRun(updates) => {
            assert_eq!(assignments(&updates), "cancelled = ?");
            assert!(matches!(updates[0].cell, Cell::Int(1)));
        }
        other => panic!("not an update of a run: {other:?}"),
    }
    assert_eq!(
        row_missing("run_1", "plan", 2).message(),
        "run not found: step not found: run_1/plan/2"
    );
}

#[test]
fn list_runs_with_a_partial_filter_combination_does_not_panic() {
    let marks = |filter: RunFilter| {
        let query = list_query(&filter);
        assert_eq!(query.sql.matches('?').count(), query.params.len());
        query
    };
    let flow = || Some("linear".to_string());
    let full = marks(RunFilter {
        flow_name: flow(),
        phase: Some(RunPhase::Running),
        limit: Some(5),
    });
    assert_eq!(
        full.sql,
        "SELECT id, flow_name, flow_version, phase, created_at, updated_at FROM runs WHERE 1=1 \
         AND flow_name = ? AND phase = ? ORDER BY created_at DESC LIMIT ?"
    );
    assert!(matches!(full.params[2], Cell::Int(5)));
    for (flow_name, phase, limit) in [
        (flow(), None, Some(5)),
        (flow(), None, None),
        (None, None, Some(5)),
        (None, Some(RunPhase::Running), Some(5)),
        (None, None, None),
    ] {
        marks(RunFilter {
            flow_name,
            phase,
            limit,
        });
    }
    let row = |phase: &str| SummaryRow {
        run_id: "r".into(),
        flow_name: "f".into(),
        flow_version: "1".into(),
        phase: phase.into(),
        created_at: 2,
        updated_at: 3,
    };
    assert_eq!(
        read_summary(row("completed")).unwrap().created_at,
        Timestamp(2 * SECOND)
    );
    assert!(read_summary(row("?")).is_err());
}

#[test]
fn times_are_kept_to_the_second() {
    assert_eq!(to_epoch(1_500_000_000), 1);
    assert_eq!(to_epoch(-5), 0);
    assert_eq!(to_epoch(i128::MAX), i64::MAX);
    assert_eq!(from_epoch(7), 7 * SECOND);
    assert_eq!(from_epoch(-7), 0);
}

// ---------------------------------------------------------------------------
// Configuration
// ---------------------------------------------------------------------------

fn raw(devkitd_url: Option<&str>) -> RawConfig {
    RawConfig {
        listen_addr: None,
        allowed_hosts: None,
        devkitd_url: devkitd_url.map(String::from),
        devkitd_auth_token: None,
        flows_dir: None,
        db_path: None,
        default_step_timeout_secs: None,
        deadline_margin_secs: None,
        poll_interval_secs: None,
        max_step_output_kb: None,
        max_subflow_depth: None,
        cli_tool: None,
        platform: None,
    }
}

fn loaded(raw: RawConfig) -> Config {
    match Config::load(raw) {
        Ok(config) => config,
        Err(e) => panic!("{}", e.message()),
    }
}

#[test]
fn missing_optional_fields_fall_back_to_defaults() {
    let config = loaded(raw(Some("http://localhost:9000")));

    assert_eq!(config.listen_addr, "127.0.0.1:8080");
    assert_eq!(config.flows_dir, "./flows");
    assert_eq!(config.executor.cli_tool, "agent-run");
    assert_eq!(config.allowed_hosts, vec!["localhost", "127.0.0.1", "::1"]);
    assert_eq!(config.db_path, "./flowspec.db");
    assert_eq!(config.default_step_timeout_secs, 3600);
    assert_eq!(config.deadline_margin_secs, 30);
    assert_eq!(config.poll_interval_secs, 5);
    assert_eq!(config.max_step_output_kb, 256);
    assert_eq!(config.max_subflow_depth, 8);
}

#[test]
fn missing_required_field_fails_fast() {
    let mut given = raw(None);
    given.listen_addr = Some("127.0.0.1:9999".into());
    match Config::load(given) {
        Ok(_) => panic!("devkitd_url is required and has no default"),
        Err(e) => assert_eq!(
            e.message(),
            "configuration error: missing field `devkitd_url`"
        ),
    }
}

#[test]
fn platform_block_absent_disables_the_connector() {
    assert!(loaded(raw(Some("http://localhost:9000"))).platform.is_none());
}

#[test]
fn platform_block_loads_from_yaml() {
    let mut given = raw(Some("http://localhost:9000"));
    given.platform = Some(RawPlatform {
        url: Some("https://devaiflow.example".into()),
        token: Some("dvf_abc123".into()),
        poll_interval_secs: Some(5),
        event_batch_size: None,
    });
    let platform = loaded(given).platform.unwrap();
    assert_eq!(platform.url, "https://devaiflow.example");
    assert_eq!(platform.token.expose(), "dvf_abc123");
    assert_eq!(platform.poll_interval_secs, 5);
    assert_eq!(platform.event_batch_size, 100, "must default to 100");

    let mut given = raw(Some("http://localhost:9000"));
    given.platform = Some(RawPlatform {
        url: Some("https://devaiflow.example".into()),
        token: None,
        poll_interval_secs: None,
        event_batch_size: None,
    });
    assert!(Config::load(given).is_err());
}

#[test]
fn devkitd_auth_token_never_appears_in_debug_output() {
    let mut given = raw(Some("http://localhost:9000"));
    given.devkitd_auth_token = Some("super-secret-token".into());
    let config = loaded(given);
    let shown = config.describe();
    assert!(shown.contains("http://localhost:9000"));
    assert!(!shown.contains("super-secret-token"));
    assert_eq!(
        config.devkitd_config().auth_token.as_deref(),
        Some("super-secret-token")
    );
    assert_eq!(Secret::new("x".into()).expose(), "x");
    assert_eq!(config.scheduler_config().executor_cli_tool, "agent-run");
    assert_eq!(
        config_path(Some("/home/me")),
        "/home/me/.flowspec/config.yaml"
    );
    assert_eq!(config_path(None), ".flowspec/config.yaml");
}

// ---------------------------------------------------------------------------
// The job runner
// ---------------------------------------------------------------------------

fn runner(max_kb: u64) -> DevkitdClientConfig {
    let mut config = DevkitdClientConfig::new("http://stub/mcp".into());
    config.max_step_output_kb = max_kb;
    config
}

fn done(exit_code: i64, stdout: &str, stderr: &str) -> PollReply {
    PollReply::Status(JobStatusEnvelope {
        state: "done".into(),
        stdout: Some(stdout.into()),
        stderr: Some(stderr.into()),
        exit_code: Some(exit_code),
    })
}

fn state(state: &str) -> PollReply {
    PollReply::Status(JobStatusEnvelope {
        state: state.into(),
        stdout: None,
        stderr: None,
        exit_code: None,
    })
}

fn failure(step: PollStep) -> DevkitdError {
    match step {
        PollStep::Failed(e) => e,
        other => panic!("did not fail: {other:?}"),
    }
}

fn output(step: PollStep) -> JsonValue {
    match step {
        PollStep::Succeeded(v) => v,
        other => panic!("did not succeed: {other:?}"),
    }
}

#[test]
fn start_sends_timeout_as_string_and_passes_args_through_unstringified() {
    let args = start_arguments(json(r#"{"count": 3, "cli": "opencode"}"#), Some(42));
    let sent = JsonValue::Object(args);
    assert_eq!(
        sent.get("_timeout_seconds"),
        Some(&JsonValue::Text("42".into()))
    );
    assert_eq!(sent.get("count"), Some(&JsonValue::Number("3".into())));
    assert_eq!(sent.get("cli"), Some(&JsonValue::Text("opencode".into())));
    let handle = read_start(StartReply::Accepted("job-1".into()), 256).unwrap();
    assert_eq!(handle.0, "job-1");
}

#[test]
fn start_without_timeout_omits_arg() {
    let sent = JsonValue::Object(start_arguments(json(r#"{"a": 1}"#), None));
    assert!(sent.get("_timeout_seconds").is_none());
    assert!(start_arguments(JsonValue::Null, None).is_empty());
    let other = JsonValue::Object(start_arguments(json("7"), None));
    assert_eq!(other.to_text(), r#"{"value":7}"#);
}

#[test]
fn start_drops_null_valued_args() {
    let sent = JsonValue::Object(start_arguments(
        json(r#"{"cli": "x", "verbose": null}"#),
        None,
    ));
    assert!(sent.get("verbose").is_none());
    assert_eq!(sent.to_text(), r#"{"cli":"x"}"#);
}

#[test]
fn start_sync_rejection_maps_to_tool_error() {
    let err = read_start(
        StartReply::Refused(Some("missing required argument: cli".into())),
        256,
    )
    .unwrap_err();
    match err {
        DevkitdError::ToolError {
            exit_code, stderr, ..
        } => {
            assert_eq!(exit_code, -1);
            assert!(stderr.contains("missing required argument"));
        }
        other => panic!("unexpected {other:?}"),
    }
    for (reply, message) in [
        (
            StartReply::NoText,
            "devkitd: job creation response had no text content",
        ),
        (
            StartReply::Unreadable("eof".into()),
            "devkitd: unparseable job creation response: eof",
        ),
        (StartReply::Refused(None), ""),
    ] {
        match read_start(reply, 256) {
            Err(DevkitdError::ToolError { stderr, .. }) => assert_eq!(stderr, message),
            other => panic!("unexpected {other:?}"),
        }
    }
}

#[test]
fn wait_polls_until_done_reporting_liveness() {
    let config = runner(256);
    let replies = vec![
        state("received"),
        state("running"),
        state("running"),
        done(0, "ok", ""),
    ];
    let mut pulses = 0;
    let mut result = None;
    for reply in replies {
        if shows_life(&reply) {
            pulses += 1;
        }
        match wait(&config, 0, None, 0, reply) {
            PollStep::Again { delay, failures } => {
                assert_eq!(delay, 5 * SECOND);
                assert_eq!(failures, 0);
            }
            other => result = Some(other),
        }
    }
    assert_eq!(output(result.unwrap()), JsonValue::Text("ok".into()));
    assert_eq!(pulses, 4);
    assert!(!shows_life(&PollReply::UnknownJob));
    assert!(!shows_life(&PollReply::Unreachable));
}

#[test]
fn wait_decodes_json_stdout_to_structured_value() {
    let out = output(wait(&runner(256), 0, None, 0, done(0, "{\"a\": 1}", "")));
    assert_eq!(out, json(r#"{"a": 1}"#));
}

#[test]
fn wait_falls_back_to_string_stdout() {
    let out = output(wait(&runner(256), 0, None, 0, done(0, "plain text", "")));
    assert_eq!(out, JsonValue::Text("plain text".into()));
    assert_eq!(
        value_or_text("raw", Err("no".into())),
        JsonValue::Text("raw".into())
    );
    assert_eq!(value_or_text("1", Ok(JsonValue::Null)), JsonValue::Null);
}

#[test]
fn wait_truncates_oversized_stdout_with_marker() {
    let big = "x".repeat(2000);
    let out = output(wait(&runner(1), 0, None, 0, done(0, &big, "")));
    match out {
        JsonValue::Text(s) => {
            assert!(s.len() < 2000);
            assert!(s.contains("truncated at 1 KB by flowspec"));
        }
        other => panic!("unexpected {other:?}"),
    }
    let wide = "é".repeat(600);
    let cut = truncate_str(&wide, 1);
    assert_eq!(
        cut,
        format!("{}…[truncated at 1 KB by flowspec]", "é".repeat(512))
    );
    let odd = format!("x{}", "é".repeat(600));
    assert!(truncate_str(&odd, 1).starts_with(&format!("x{}…", "é".repeat(511))));
    assert_eq!(truncate_str("short", 1), "short");
    assert_eq!(decode_stdout("[1]", 1), json("[1]"));
}

#[test]
fn wait_maps_nonzero_exit_to_tool_error() {
    match failure(wait(
        &runner(256),
        0,
        None,
        0,
        done(7, "partial out", "boom"),
    )) {
        DevkitdError::ToolError {
            exit_code,
            stdout,
            stderr,
        } => {
            assert_eq!(exit_code, 7);
            assert_eq!(stdout, "partial out");
            assert_eq!(stderr, "boom");
        }
        other => panic!("unexpected {other:?}"),
    }
    match failure(wait(&runner(256), 0, None, 0, done(256, "", ""))) {
        DevkitdError::ToolError {
            exit_code, stderr, ..
        } => {
            assert_eq!(exit_code, -1);
            assert_eq!(stderr, "devkitd: contract violation, exit_code=Some(256)");
        }
        other => panic!("unexpected {other:?}"),
    }
    match failure(wait(&runner(256), 0, None, 0, state("done"))) {
        DevkitdError::ToolError { stderr, .. } => {
            assert_eq!(stderr, "devkitd: contract violation, exit_code=None");
        }
        other => panic!("unexpected {other:?}"),
    }
}

#[test]
fn wait_truncates_tool_error_streams() {
    let big = "e".repeat(2000);
    match failure(wait(&runner(1), 0, None, 0, done(1, "", &big))) {
        DevkitdError::ToolError { stderr, .. } => {
            assert!(stderr.len() < 2000);
            assert!(stderr.contains("truncated at 1 KB by flowspec"));
        }
        other => panic!("unexpected {other:?}"),
    }
}

#[test]
fn wait_maps_sentinel_minus2_to_timeout() {
    let err = failure(wait(&runner(256), 0, None, 0, done(-2, "", "")));
    assert!(matches!(err, DevkitdError::Timeout));
}

#[test]
fn wait_maps_sentinel_minus1_to_spawn_tool_error() {
    match failure(wait(
        &runner(256),
        0,
        None,
        0,
        done(-1, "", "script not found"),
    )) {
        DevkitdError::ToolError {
            exit_code, stderr, ..
        } => {
            assert_eq!(exit_code, -1);
            assert!(stderr.contains("script not found"));
        }
        other => panic!("unexpected {other:?}"),
    }
}

#[test]
fn wait_maps_external_cancel_without_exit_code_to_cancelled() {
    let err = failure(wait(&runner(256), 0, None, 0, state("cancelled")));
    assert!(matches!(err, DevkitdError::Cancelled));
}

#[test]
fn wait_unknown_job_maps_to_interrupted() {
    let err = failure(wait(&runner(256), 0, None, 0, PollReply::UnknownJob));
    assert!(matches!(err, DevkitdError::Interrupted));
    for (reply, message) in [
        (
            PollReply::NoText,
            "devkitd: job-status response had no text content",
        ),
        (
            PollReply::Unreadable("eof".into()),
            "devkitd: unparseable job-status response: eof",
        ),
    ] {
        match failure(wait(&runner(256), 0, None, 0, reply)) {
            DevkitdError::ToolError { stderr, .. } => assert_eq!(stderr, message),
            other => panic!("unexpected {other:?}"),
        }
    }
}

#[test]
fn wait_deadline_exceeded_issues_cancel_then_times_out() {
    assert!(deadline_passed(Some(10), 10));
    assert!(!deadline_passed(Some(10), 9));
    assert!(!deadline_passed(None, i128::MAX));
    assert_eq!(clamp_to_deadline(5, Some(12), 10), 2);
    assert_eq!(clamp_to_deadline(5, Some(100), 10), 5);
    assert_eq!(clamp_to_deadline(5, Some(3), 10), 0);
    assert_eq!(clamp_to_deadline(5, None, 10), 5);
    match wait(&runner(256), 0, Some(12), 10, state("running")) {
        PollStep::Again { delay, .. } => assert_eq!(delay, 2),
        other => panic!("unexpected {other:?}"),
    }
}

#[test]
fn wait_survives_transport_blip_within_backoff() {
    let config = runner(256);
    let mut failures = 0;
    for seconds in [1, 2] {
        match wait(&config, failures, None, 0, PollReply::Unreachable) {
            PollStep::Again { delay, failures: n } => {
                assert_eq!(delay, seconds * SECOND);
                failures = n;
            }
            other => panic!("unexpected {other:?}"),
        }
    }
    assert_eq!(failures, 2);
    let out = output(wait(&config, failures, None, 0, done(0, "ok", "")));
    assert_eq!(out, JsonValue::Text("ok".into()));
}

#[test]
fn wait_unreachable_after_backoff_budget() {
    let err = failure(wait(&runner(256), 6, None, 0, PollReply::Unreachable));
    assert!(matches!(err, DevkitdError::Unreachable));
    assert_eq!(cancel_retry(1), Some(200));
    assert_eq!(cancel_retry(2), Some(400));
    assert_eq!(cancel_retry(3), None);
}

// ---------------------------------------------------------------------------
// Flow files
// ---------------------------------------------------------------------------

fn found(path: &str, flows: Vec<FlowDefinition>) -> FoundFile {
    FoundFile {
        path: path.into(),
        flows: Ok(flows),
    }
}

#[test]
fn loads_single_flow_file() {
    let source =
        FsFlowSource::load(&vec![found("simple.yaml", vec![simple_flow("simple", "1.0.0")])])
            .unwrap();
    let flows = source.list();
    assert_eq!(flows.len(), 1);
    assert_eq!(flows[0].name, "simple");
}

#[test]
fn subdirectories_are_ignored() {
    let entry = |name: &str, is_file: bool| DirectoryEntry {
        name: name.into(),
        is_file,
    };
    let names = flow_files(&vec![entry("simple.yaml", true), entry("nested", false)]);
    assert_eq!(names, vec!["simple.yaml"]);
    let files = names
        .iter()
        .map(|n| found(n, vec![simple_flow("simple", "1.0.0")]))
        .collect();
    assert_eq!(FsFlowSource::load(&files).unwrap().list().len(), 1);

    let names = flow_files(&vec![
        entry("b.yml", true),
        entry("notes.txt", true),
        entry(".yaml", true),
        entry("A.YAML", true),
        entry("dir.yaml", false),
        entry("a.yaml", true),
        entry("yaml", true),
        entry("a.b.yml", true),
    ]);
    assert_eq!(names, vec!["A.YAML", "a.b.yml", "a.yaml", "b.yml"]);
}

#[test]
fn flows_that_call_one_another_in_a_ring_are_refused() {
    let calling = |name: &str, target: &str| {
        let mut flow = simple_flow(name, "1.0.0");
        flow.steps[0].step_type = StepType::Subflow;
        flow.steps[0].with = json(&format!("{{\"flow\": \"{target}\"}}"));
        flow
    };
    let chain = vec![
        found("a.yaml", vec![calling("a", "b")]),
        found("b.yaml", vec![calling("b", "c")]),
    ];
    assert_eq!(FsFlowSource::load(&chain).unwrap().list().len(), 2);
    let ring = vec![
        found("a.yaml", vec![calling("a", "b")]),
        found("b.yaml", vec![calling("b", "a")]),
        found("c.yaml", vec![simple_flow("c", "1.0.0")]),
    ];
    let err = FsFlowSource::load(&ring).unwrap_err();
    assert_eq!(err.path, "b.yaml");
    assert_eq!(
        err.detail,
        "[no_subflow_recursion] flows invoke one another as subflows: a -> b -> a"
    );
}

#[test]
fn loads_multi_flow_file() {
    let source = FsFlowSource::load(&vec![found(
        "multi.yaml",
        vec![simple_flow("a", "1.0.0"), simple_flow("b", "1.0.0")],
    )])
    .unwrap();
    let flows = source.list();
    assert_eq!(flows.len(), 2);
    let mut names: Vec<_> = flows.iter().map(|f| f.name.clone()).collect();
    names.sort();
    assert_eq!(names, vec!["a", "b"]);
}

#[test]
fn highest_version_wins_and_version_req_filters() {
    let source = FsFlowSource::load(&vec![
        found("v1.yaml", vec![simple_flow("simple", "1.0.0")]),
        found("v2.yaml", vec![simple_flow("simple", "2.0.0")]),
    ])
    .unwrap();

    let latest = source.get("simple", None).unwrap();
    assert_eq!(latest.version, "2.0.0");

    let pinned = source.get("simple", Some("^1")).unwrap();
    assert_eq!(pinned.version, "1.0.0");

    assert!(source.get("simple", Some("^3")).is_none());
    assert!(source.get("missing", None).is_none());
}

#[test]
fn versions_are_compared_as_versions() {
    let flows = vec![
        simple_flow("simple", "1.9.0"),
        simple_flow("simple", "1.10.0"),
        simple_flow("other", "odd"),
        simple_flow("other", "older"),
    ];
    assert_eq!(
        select_flow(&flows, "simple", None).unwrap().version,
        "1.10.0"
    );
    assert_eq!(select_flow(&flows, "other", None).unwrap().version, "older");
    assert!(select_flow(&flows, "other", Some("*")).is_none());
    assert!(select_flow(&flows, "simple", Some("not a requirement")).is_none());
    let latest = list_flows_latest(&flows);
    let shown: Vec<(String, String)> = latest
        .into_iter()
        .map(|f| (f.name, f.version))
        .collect();
    assert!(shown.contains(&("simple".into(), "1.10.0".into())));
    assert_eq!(shown.len(), 2);
}

#[test]
fn invalid_yaml_fails_construction() {
    let err = FsFlowSource::load(&vec![FoundFile {
        path: "flows/broken.yaml".into(),
        flows: Err("did not find expected ',' or ']'".into()),
    }])
    .unwrap_err();
    assert!(err.message().contains("broken.yaml"));
    assert_eq!(
        err.message(),
        "flows/broken.yaml: did not find expected ',' or ']'"
    );
}

#[test]
fn invalid_flow_fails_construction() {
    // Two entry steps with no routing between them.
    let mut bad = simple_flow("bad", "1.0.0");
    bad.steps = vec![cli_step("one", "x", "done"), cli_step("two", "x", "done")];
    let err = FsFlowSource::load(&vec![
        found("good.yaml", vec![simple_flow("good", "1.0.0")]),
        found("invalid.yaml", vec![bad]),
    ])
    .unwrap_err();
    assert!(err.message().contains("invalid.yaml"));
    assert_eq!(
        err.detail,
        "[exactly_one_entry_step] flow must have exactly one entry step (no incoming routing \
         edges); found 2: [one, two]"
    );
    assert!(is_flow_file("YAML") && is_flow_file("yml"));
    assert!(!is_flow_file("yamls") && !is_flow_file("json"));
}

// ---------------------------------------------------------------------------
// The platform
// ---------------------------------------------------------------------------

fn stored(sequence: u64, payload: JsonValue) -> StoredRunEvent {
    StoredRunEvent {
        sequence,
        event_type: RunEventType::StepCompleted,
        step_id: Some("plan".into()),
        timestamp: 2 * SECOND,
        payload,
    }
}

#[test]
fn actions_are_disposed_of() {
    assert_eq!(action_kind("trigger_run"), ActionKind::TriggerRun);
    assert_eq!(action_kind("approve"), ActionKind::Approve);
    assert_eq!(action_kind("reject"), ActionKind::Reject);
    assert_eq!(action_kind("cancel"), ActionKind::Cancel);
    assert_eq!(action_kind("dance"), ActionKind::Unknown);
    assert!(matches!(
        handle_trigger_run(TriggerOutcome::Started("run_1".into())),
        Disposal::Acknowledge(Some(id)) if id == "run_1"
    ));
    assert!(matches!(
        handle_trigger_run(TriggerOutcome::AlreadyStarted("run_1".into())),
        Disposal::Acknowledge(Some(id)) if id == "run_1"
    ));
    for outcome in [
        TriggerOutcome::Malformed,
        TriggerOutcome::InvalidFlow,
        TriggerOutcome::Refused(StartFlowError::MissingInputs("message".into())),
    ] {
        assert!(matches!(handle_trigger_run(outcome), Disposal::Delete));
    }
    assert!(matches!(handle_approve_reject(None), Disposal::Delete));
    assert!(matches!(
        handle_approve_reject(Some(Ok(()))),
        Disposal::Acknowledge(None)
    ));
    assert!(matches!(
        handle_approve_reject(Some(Err(ApprovalError::AmbiguousStep))),
        Disposal::Delete
    ));
    for e in [
        ApprovalError::NoWaitingStep,
        ApprovalError::NotWaiting("plan".into()),
        ApprovalError::Store(StoreError::Backend("x".into())),
    ] {
        assert!(matches!(
            handle_approve_reject(Some(Err(e))),
            Disposal::Leave
        ));
    }
    assert!(matches!(handle_cancel(), Disposal::Acknowledge(None)));
}

#[test]
fn flow_documents_are_checked() {
    let flow = parse_and_validate_flow_doc(vec![simple_flow("simple", "1.0.0")]).unwrap();
    assert_eq!(flow.name, "simple");
    assert_eq!(
        parse_and_validate_flow_doc(vec![]).unwrap_err(),
        "flow_doc contains no flow definitions"
    );
    assert_eq!(
        parse_and_validate_flow_doc(vec![empty_flow()]).unwrap_err(),
        "[non_empty_steps] flow must declare at least one step"
    );
}

#[test]
fn addresses_and_answers() {
    let base = base_url("https://platform.example//");
    assert_eq!(base, "https://platform.example");
    assert_eq!(
        actions_url(&base),
        "https://platform.example/api/agent/v1/actions"
    );
    assert_eq!(
        action_url(&base, "a1"),
        "https://platform.example/api/agent/v1/actions/a1"
    );
    assert_eq!(
        ack_url(&base, "a1"),
        "https://platform.example/api/agent/v1/actions/a1/ack"
    );
    assert_eq!(
        state_url(&base, "r1"),
        "https://platform.example/api/agent/v1/runs/r1/state"
    );
    assert_eq!(
        events_url(&base, "r1"),
        "https://platform.example/api/agent/v1/runs/r1/events"
    );
    assert!(is_acknowledged(200) && is_acknowledged(409) && !is_acknowledged(404));
    assert!(matches!(check_status(204, "b".into()), Ok(b) if b == "b"));
    assert_eq!(
        check_status(500, "down".into()).unwrap_err().message(),
        "platform returned 500: down"
    );
    assert_eq!(
        PlatformError::Transport("refused".into()).message(),
        "transport error: refused"
    );
}

#[test]
fn events_go_out_before_the_state_and_the_mark() {
    let events = vec![
        ("run_b".to_string(), stored(1, JsonValue::Null)),
        ("run_a".to_string(), stored(1, JsonValue::Null)),
        ("run_b".to_string(), stored(2, json("{\"k\":1}"))),
    ];
    let groups = group_by_run(&events);
    assert_eq!(groups[0].0, "run_a");
    assert_eq!(groups[1].0, "run_b");
    let numbers: Vec<u64> = groups[1].1.iter().map(|e| e.sequence).collect();
    assert_eq!(numbers, vec![1, 2]);
    assert_eq!(highest_sequence(&groups[1].1), Some(2));
    assert_eq!(highest_sequence(&vec![]), None);
    let wired = wire_event(&stored(2, json("{\"k\":1}")));
    assert_eq!(wired.event_type, "step_completed");
    assert_eq!(wired.payload, Some(json("{\"k\":1}")));
    assert_eq!(wire_event(&stored(1, JsonValue::Null)).payload, None);
    assert!(push_events(&vec![]).is_none());
    assert_eq!(push_events(&groups[1].1).unwrap().len(), 2);

    let key = platform_key("run_abc123");
    assert_eq!(key, "platform:run_abc123");
    assert_eq!(platform_run_id(Some(&key)), Some("run_abc123"));
    assert!(matches!(begin_pump(None), PumpState::Mark));
    assert!(matches!(begin_pump(Some("idem-1")), PumpState::Mark));
    let first = begin_pump(Some(&key));
    assert!(matches!(&first, PumpState::PushEvents(id) if id == "run_abc123"));
    let second = advance_pump(first, true);
    assert!(matches!(&second, PumpState::PushState(id) if id == "run_abc123"));
    assert!(matches!(advance_pump(second, true), PumpState::Mark));
    assert!(matches!(
        advance_pump(begin_pump(Some(&key)), false),
        PumpState::Stop
    ));
    assert_eq!(
        platform_trigger("r1").to_text(),
        r#"{"platform_run_id":"r1","source":"platform"}"#
    );
}

// ---------------------------------------------------------------------------
// Failures of the tools
// ---------------------------------------------------------------------------

#[test]
fn failures_are_told_by_kind() {
    let f = ToolFailure::from(StoreError::NotFound("run_1".into()));
    assert_eq!(f.error_kind, ErrorKind::RunNotFound);
    assert_eq!(
        f.message,
        "Run 'run_1' was not found. Check the run_id, or call list_runs to see known runs."
    );
    assert_eq!(f.detail, JsonValue::Null);
    let f = ToolFailure::from(StoreError::Duplicate("k".into()));
    assert_eq!(f.error_kind, ErrorKind::ValidationFailed);
    let f = ToolFailure::from(StoreError::Backend("disk".into()));
    assert_eq!(f.error_kind, ErrorKind::StoreError);
    assert_eq!(f.message, "backend error: disk");
    let f = ToolFailure::from(StartFlowError::FlowNotFound("x".into()));
    assert_eq!(f.error_kind, ErrorKind::FlowNotFound);
    let f = ToolFailure::from(StartFlowError::MissingInputs("a, b".into()));
    assert_eq!(
        f.message,
        "Missing required input(s): a, b. Call list_flows to see the flow's declared inputs."
    );
    let f = ToolFailure::from(ApprovalError::NotWaiting("plan".into()));
    assert_eq!(f.error_kind, ErrorKind::NotApprovable);
    let f = ToolFailure::from(ApprovalError::AmbiguousStep);
    assert_eq!(f.error_kind, ErrorKind::AmbiguousStep);
    let f = ToolFailure::from(ApprovalError::NoWaitingStep);
    assert_eq!(f.error_kind, ErrorKind::NoWaitingStep);
    let f = ToolFailure::from(QueryError::AttemptNotFound(9, "plan".into()));
    assert!(f.message.starts_with("Attempt 9 of step 'plan' was not found."));
    let f = ToolFailure::from(QueryError::StepNotFound("plan".into()));
    assert_eq!(f.error_kind, ErrorKind::StepNotFound);
    assert_eq!(error_kind_str(ErrorKind::NoWaitingStep), "no_waiting_step");
}

#[test]
fn list_runs_rejects_an_invalid_phase_with_the_legal_values_in_the_message() {
    let err = list_runs(ListRunsRequest {
        flow_name: None,
        phase: Some("not-a-phase".into()),
        limit: None,
    })
    .unwrap_err();
    let message = err.message();
    assert!(message.contains("running"));
    let f = ToolFailure::from(QueryError::InvalidPhase("not-a-phase".into()));
    assert_eq!(f.error_kind, ErrorKind::InvalidPhase);
    assert_eq!(f.message, message);
    match err {
        QueryError::InvalidPhase(raw) => assert_eq!(raw, "not-a-phase"),
        other => panic!("expected InvalidPhase, got {other:?}"),
    }
}
