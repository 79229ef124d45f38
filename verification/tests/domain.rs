//! Flows, templates and the engine.
use flowspec::flow::dag;
use flowspec::flow::schema::{is_valid_id, parse_duration};
use flowspec::flow::types::{
    FlowDefaults, FlowDefinition, FlowFile, FlowInput, HookCall, HookCondition, LifecycleHooks,
    RouteTarget, SingleFlowEntry, Step, StepType, StepWith,
};
use flowspec::flow::validate::{guaranteed_predecessors, list_spans, validate};
use flowspec::json::{parse_json, JsonValue};

use flowspec::run::engine::{decide, is_decidable};
use flowspec::run::types::{
    Command, EngineError, Event, HookPhase, RunPhase, RunState, StepRun, StepStatus,
};
use flowspec::template::{
    resolve, resolve_value, StepContext, TemplateContext, TemplateError,
};
use indexmap::IndexMap;

fn json(text: &str) -> JsonValue {
    parse_json(text).unwrap()
}

fn text(v: &JsonValue) -> String {
    match v {
        JsonValue::Text(t) => t.clone(),
        other => panic!("not a text: {other:?}"),
    }
}

fn optional(v: &JsonValue, key: &str) -> Option<String> {
    v.get(key).map(text)
}

fn items(v: &JsonValue, key: &str) -> Vec<JsonValue> {
    match v.get(key) {
        Some(JsonValue::Array(list)) => list.clone(),
        None => Vec::new(),
        other => panic!("not a list: {other:?}"),
    }
}

fn route(v: &JsonValue, key: &str) -> Option<RouteTarget> {
    v.get(key).map(|r| match r {
        JsonValue::Text(t) => RouteTarget::One(t.clone()),
        JsonValue::Array(list) => RouteTarget::Many(list.iter().map(text).collect()),
        other => panic!("not a route: {other:?}"),
    })
}

fn flag(v: &JsonValue, key: &str) -> bool {
    v.get(key) == Some(&JsonValue::Bool(true))
}

fn hook(v: &JsonValue) -> HookCall {
    let mut args = IndexMap::new();
    if let Some(JsonValue::Object(entries)) = v.get("args") {
        for (k, x) in entries {
            args.insert(k.clone(), x.clone());
        }
    }
    HookCall {
        hook: optional(v, "hook").unwrap(),
        args,
        timeout: optional(v, "timeout"),
        when: optional(v, "when").map(|w| match w.as_str() {
            "succeeded" => HookCondition::Succeeded,
            "failed" => HookCondition::Failed,
            "cancelled" => HookCondition::Cancelled,
            "always" => HookCondition::Always,
            other => panic!("unknown condition {other}"),
        }),
        always_continue: flag(v, "always_continue"),
    }
}

fn step(v: &JsonValue) -> Step {
    Step {
        id: optional(v, "id").unwrap(),
        step_type: match optional(v, "type").unwrap().as_str() {
            "cli" => StepType::Cli,
            "subflow" => StepType::Subflow,
            other => panic!("unknown type {other}"),
        },
        with: v.get("with").cloned().unwrap_or_default(),
        human_loop: flag(v, "human_loop"),
        timeout: optional(v, "timeout"),
        retries: match v.get("retries") {
            Some(JsonValue::Number(n)) => n.parse().unwrap(),
            _ => 0,
        },
        reject_input: optional(v, "reject_input"),
        before: items(v, "before").iter().map(hook).collect(),
        after: items(v, "after").iter().map(hook).collect(),
        on_success: route(v, "on_success"),
        on_failure: route(v, "on_failure"),
        on_approve: route(v, "on_approve"),
        on_reject: route(v, "on_reject"),
        needs: items(v, "needs").iter().map(text).collect(),
    }
}

fn flow(source: &str) -> FlowDefinition {
    let v = json(source);
    let mut inputs = IndexMap::new();
    if let Some(JsonValue::Object(entries)) = v.get("inputs") {
        for (name, x) in entries {
            inputs.insert(
                name.clone(),
                FlowInput {
                    ty: optional(x, "type").unwrap(),
                    required: flag(x, "required"),
                    description: optional(x, "description"),
                    default: x.get("default").cloned(),
                },
            );
        }
    }
    let lifecycle = v.get("lifecycle").cloned().unwrap_or_default();
    FlowDefinition {
        name: optional(&v, "name").unwrap(),
        version: optional(&v, "version").unwrap(),
        description: optional(&v, "description"),
        inputs,
        outputs: IndexMap::new(),
        defaults: FlowDefaults::default(),
        timeout: optional(&v, "timeout"),
        lifecycle: LifecycleHooks {
            before_run: items(&lifecycle, "before_run").iter().map(hook).collect(),
            after_run: items(&lifecycle, "after_run").iter().map(hook).collect(),
        },
        metadata: IndexMap::new(),
        flowspec_version: None,
        steps: items(&v, "steps").iter().map(step).collect(),
    }
}

const LINEAR: &str = r#"{
  "name": "linear", "version": "1.0.0",
  "inputs": {"message": {"type": "string", "required": true}},
  "steps": [
    {"id": "plan", "type": "cli", "with": {"cli": "agent", "input": "Plan: {{ inputs.message }}"},
     "on_success": "implement", "on_failure": "done"},
    {"id": "implement", "type": "cli", "with": {"cli": "agent", "input": "Implement {{ steps.plan.output }}"},
     "on_success": "done", "on_failure": "done"}
  ]}"#;

const HUMAN_LOOP: &str = r#"{
  "name": "human-loop", "version": "1.0.0",
  "inputs": {"message": {"type": "string", "required": true}},
  "steps": [
    {"id": "plan", "type": "cli", "with": {"cli": "agent", "input": "Plan: {{ inputs.message }}"},
     "human_loop": true, "on_approve": "implement", "on_reject": "plan"},
    {"id": "implement", "type": "cli", "with": {"cli": "agent", "input": "Implement {{ steps.plan.output }}"},
     "on_success": "done"}
  ]}"#;

const FAN_OUT: &str = r#"{
  "name": "fan-out", "version": "1.0.0",
  "steps": [
    {"id": "build", "type": "cli", "with": {"cli": "bash", "input": "make"},
     "on_success": ["unit-tests", "integration-tests", "lint"], "on_failure": "report-failure"},
    {"id": "unit-tests", "type": "cli", "with": {"cli": "bash", "input": "make unit"},
     "on_success": "gate", "on_failure": "report-failure"},
    {"id": "integration-tests", "type": "cli", "with": {"cli": "bash", "input": "make it"},
     "on_success": "gate", "on_failure": "report-failure"},
    {"id": "lint", "type": "cli", "with": {"cli": "bash", "input": "make lint"},
     "on_success": "gate", "on_failure": "report-failure"},
    {"id": "gate", "type": "cli",
     "with": {"cli": "bash", "input": "{{ steps.unit-tests.output }} {{ steps.lint.output }}"},
     "needs": ["unit-tests", "integration-tests", "lint"], "on_success": "done"},
    {"id": "report-failure", "type": "cli", "with": {"cli": "bash", "input": "report"},
     "needs": ["build", "unit-tests", "integration-tests", "lint"], "on_success": "done"}
  ]}"#;

const FAILURE_ROUTING: &str = r#"{
  "name": "failure-routing", "version": "1.0.0",
  "steps": [
    {"id": "implement", "type": "cli", "with": {"cli": "agent", "input": "implement"},
     "retries": 2, "on_success": "test", "on_failure": "done"},
    {"id": "test", "type": "cli", "with": {"cli": "bash", "input": "test"},
     "on_success": "done", "on_failure": "implement"}
  ]}"#;

const SUBFLOW_CHILD: &str = r#"{
  "name": "deploy-child", "version": "1.0.0",
  "steps": [
    {"id": "deploy", "type": "cli", "with": {"cli": "bash", "input": "deploy"}, "on_success": "done"}
  ]}"#;

const SUBFLOW_PARENT: &str = r#"{
  "name": "deploy-parent", "version": "1.0.0",
  "steps": [
    {"id": "build", "type": "cli", "with": {"cli": "bash", "input": "make"}, "on_success": "deploy"},
    {"id": "deploy", "type": "subflow", "with": {"flow": "deploy-child", "inputs": {}},
     "on_success": "done"}
  ]}"#;

fn now() -> i128 {
    1_754_640_000_000_000_000
}

fn activated_ids(commands: &[Command]) -> Vec<String> {
    commands
        .iter()
        .flat_map(|c| match c {
            Command::ActivateSteps(v) => v.iter().map(|a| a.step_id.clone()).collect::<Vec<_>>(),
            _ => vec![],
        })
        .collect()
}

fn cancelled_ids(commands: &[Command]) -> Vec<String> {
    let mut ids: Vec<String> = commands
        .iter()
        .flat_map(|c| match c {
            Command::CancelSteps(ids) => ids.clone(),
            _ => vec![],
        })
        .collect();
    ids.sort();
    ids
}

fn ends_in(commands: &[Command], phase: RunPhase) -> bool {
    commands
        .iter()
        .any(|c| matches!(c, Command::MarkRunTerminal(p) if *p == phase))
}

fn mark(state: &mut RunState, step_id: &str, status: StepStatus) {
    if let Some(s) = state.step_mut(step_id) {
        s.status = status;
    } else {
        let mut r = StepRun::pending(step_id.to_string());
        r.status = status;
        r.attempt = 1;
        state.steps.push(r);
    }
}

fn mark_completed_with_output(state: &mut RunState, step_id: &str, output: JsonValue) {
    mark(state, step_id, StepStatus::Completed);
    if let Some(s) = state.step_mut(step_id) {
        s.output = Some(output);
    }
}

#[test]
fn run_started_activates_the_entry_step() {
    let flow = flow(LINEAR);
    let mut state = RunState::default();
    state.inputs = json(r#"{"message": "add feature"}"#);
    let commands = decide(&flow, &state, Event::RunStarted, now()).unwrap();
    assert_eq!(activated_ids(&commands), vec!["plan"]);
}

#[test]
fn step_completed_routes_to_on_success() {
    let flow = flow(LINEAR);
    let mut state = RunState::default();
    mark(&mut state, "plan", StepStatus::Running);

    let commands = decide(
        &flow,
        &state,
        Event::StepCompleted {
            step_id: "plan".into(),
            output: json("\"PLAN.md\""),
        },
        now(),
    )
    .unwrap();

    assert_eq!(activated_ids(&commands), vec!["implement"]);
}

#[test]
fn fan_out_activates_all_branches_and_gate_waits_on_needs() {
    let flow = flow(FAN_OUT);
    let mut state = RunState::default();
    mark(&mut state, "build", StepStatus::Running);

    let commands = decide(
        &flow,
        &state,
        Event::StepCompleted {
            step_id: "build".into(),
            output: json("\"ok\""),
        },
        now(),
    )
    .unwrap();

    let mut activated = activated_ids(&commands);
    activated.sort();
    assert_eq!(activated, vec!["integration-tests", "lint", "unit-tests"]);

    // Completing just one branch must not open the `gate` fan-in yet.
    let mut state2 = RunState::default();
    mark(&mut state2, "build", StepStatus::Completed);
    mark(&mut state2, "unit-tests", StepStatus::Running);
    mark(&mut state2, "integration-tests", StepStatus::Running);
    mark(&mut state2, "lint", StepStatus::Running);
    let commands2 = decide(
        &flow,
        &state2,
        Event::StepCompleted {
            step_id: "unit-tests".into(),
            output: json("\"ok\""),
        },
        now(),
    )
    .unwrap();
    assert!(
        activated_ids(&commands2).is_empty(),
        "gate must not open until all needs are satisfied"
    );
}

#[test]
fn fan_in_gate_opens_once_all_needs_are_completed() {
    let flow = flow(FAN_OUT);
    let mut state = RunState::default();
    mark_completed_with_output(&mut state, "build", json("\"ok\""));
    mark_completed_with_output(&mut state, "unit-tests", json("\"ok\""));
    mark(&mut state, "integration-tests", StepStatus::Running);
    mark_completed_with_output(&mut state, "lint", json("\"ok\""));

    let commands = decide(
        &flow,
        &state,
        Event::StepCompleted {
            step_id: "integration-tests".into(),
            output: json("\"ok\""),
        },
        now(),
    )
    .unwrap();

    assert_eq!(activated_ids(&commands), vec!["gate"]);
}

#[test]
fn fail_fast_cancels_active_siblings() {
    let flow = flow(FAN_OUT);
    let mut state = RunState::default();
    mark(&mut state, "build", StepStatus::Completed);
    mark(&mut state, "unit-tests", StepStatus::Running);
    mark(&mut state, "integration-tests", StepStatus::Running);
    mark(&mut state, "lint", StepStatus::Running);

    let commands = decide(
        &flow,
        &state,
        Event::StepFailed {
            step_id: "unit-tests".into(),
            reason: "boom".into(),
        },
        now(),
    )
    .unwrap();

    assert_eq!(cancelled_ids(&commands), vec!["integration-tests", "lint"]);
}

#[test]
fn retries_reactivate_before_on_failure_routes() {
    let flow = flow(FAILURE_ROUTING);
    let mut state = RunState::default();
    mark(&mut state, "implement", StepStatus::Running);

    let commands = decide(
        &flow,
        &state,
        Event::StepFailed {
            step_id: "implement".into(),
            reason: "boom".into(),
        },
        now(),
    )
    .unwrap();

    match &commands[..] {
        [Command::ActivateSteps(activations)] => {
            assert_eq!(activations.len(), 1);
            assert_eq!(activations[0].step_id, "implement");
            assert_eq!(activations[0].attempt, 2);
        }
        other => panic!("expected a single retry activation, got {other:?}"),
    }
}

#[test]
fn retries_exhausted_routes_via_on_failure() {
    let flow = flow(FAILURE_ROUTING);
    let mut state = RunState::default();
    let mut run = StepRun::pending("implement".to_string());
    run.status = StepStatus::Running;
    run.attempt = 3;
    state.steps.push(run);

    let commands = decide(
        &flow,
        &state,
        Event::StepFailed {
            step_id: "implement".into(),
            reason: "boom".into(),
        },
        now(),
    )
    .unwrap();

    assert!(activated_ids(&commands).is_empty());
    assert!(ends_in(&commands, RunPhase::Failed));
}

#[test]
fn approval_routes_on_approve_and_rejection_self_loops_with_feedback() {
    let flow = flow(HUMAN_LOOP);

    let mut state = RunState::default();
    state.inputs = json(r#"{"message": "add feature"}"#);
    mark(&mut state, "plan", StepStatus::WaitingApproval);
    if let Some(s) = state.step_mut("plan") {
        s.output = Some(json("\"PLAN.md\""));
    }
    let approved = decide(
        &flow,
        &state,
        Event::StepApproved {
            step_id: "plan".into(),
            comment: Some("looks good".into()),
        },
        now(),
    )
    .unwrap();
    assert_eq!(activated_ids(&approved), vec!["implement"]);

    let mut state2 = RunState::default();
    state2.inputs = json(r#"{"message": "add feature"}"#);
    mark(&mut state2, "plan", StepStatus::WaitingApproval);
    if let Some(s) = state2.step_mut("plan") {
        s.attempt = 1;
    }
    let rejected = decide(
        &flow,
        &state2,
        Event::StepRejected {
            step_id: "plan".into(),
            feedback: "missing edge case".into(),
        },
        now(),
    )
    .unwrap();
    match &rejected[..] {
        [Command::MarkStepStatus { .. }, Command::ActivateSteps(activations)] => {
            assert_eq!(activations[0].step_id, "plan");
            assert_eq!(activations[0].attempt, 2);
            assert!(activations[0].input.contains("Feedback: missing edge case"));
            assert_eq!(
                activations[0].input,
                "Plan: add feature\n\nFeedback: missing edge case"
            );
        }
        other => panic!("expected mark + self-loop reactivation, got {other:?}"),
    }
}

#[test]
fn run_deadline_exceeded_cancels_active_steps_and_terminates_failed() {
    let mut state = RunState::default();
    mark(&mut state, "a", StepStatus::Running);
    mark(&mut state, "b", StepStatus::WaitingApproval);

    let empty = flow(r#"{"name": "x", "version": "1.0.0", "steps": []}"#);
    let commands = decide(&empty, &state, Event::RunDeadlineExceeded, now()).unwrap();

    assert_eq!(cancelled_ids(&commands), vec!["a", "b"]);
    assert!(ends_in(&commands, RunPhase::Failed));
}

#[test]
fn cancel_request_cancels_active_steps_and_terminates_cancelled() {
    let mut state = RunState::default();
    mark(&mut state, "a", StepStatus::Running);
    mark(&mut state, "b", StepStatus::Completed);

    let empty = flow(r#"{"name": "x", "version": "1.0.0", "steps": []}"#);
    let commands = decide(&empty, &state, Event::CancelRequested, now()).unwrap();

    assert_eq!(cancelled_ids(&commands), vec!["a"]);
    assert_eq!(commands.len(), 2);
    assert!(ends_in(&commands, RunPhase::Cancelled));
}

#[test]
fn a_step_at_the_last_attempt_can_still_end() {
    let linear = flow(LINEAR);
    let mut state = RunState::default();
    mark(&mut state, "plan", StepStatus::Running);
    state.steps[0].attempt = u32::MAX;

    assert!(is_decidable(&linear, &state, &Event::CancelRequested));
    let stopped = decide(&linear, &state, Event::CancelRequested, now()).unwrap();
    assert_eq!(cancelled_ids(&stopped), vec!["plan"]);

    // Nothing can start it once more.
    assert!(!is_decidable(&linear, &state, &Event::RunStarted));

    let done = Event::StepCompleted {
        step_id: "plan".into(),
        output: JsonValue::Null,
    };
    let commands = decide(&linear, &state, done, now()).unwrap();
    assert_eq!(activated_ids(&commands), vec!["implement"]);
}

#[test]
fn a_subflow_that_ended_badly_is_a_failed_step() {
    let source = flow(FAILURE_ROUTING);
    let mut state = RunState::default();
    mark(&mut state, "test", StepStatus::WaitingOnSubflow);
    let ended = decide(
        &source,
        &state,
        Event::SubflowFinished {
            step_id: "test".into(),
            phase: RunPhase::Cancelled,
            outputs: None,
        },
        now(),
    )
    .unwrap();
    let failed = decide(
        &source,
        &state,
        Event::StepFailed {
            step_id: "test".into(),
            reason: "anything".into(),
        },
        now(),
    )
    .unwrap();
    assert_eq!(format!("{ended:?}"), format!("{failed:?}"));
}

#[test]
fn terminal_transition_marks_never_activated_steps_skipped() {
    let flow = flow(FAN_OUT);
    let mut state = RunState::default();
    mark(&mut state, "build", StepStatus::Completed);
    mark(&mut state, "unit-tests", StepStatus::Running);
    mark(&mut state, "integration-tests", StepStatus::Failed);
    mark(&mut state, "lint", StepStatus::Cancelled);

    let commands = decide(
        &flow,
        &state,
        Event::StepFailed {
            step_id: "unit-tests".into(),
            reason: "boom".into(),
        },
        now(),
    )
    .unwrap();

    let mut skipped: Vec<String> = commands
        .iter()
        .flat_map(|c| match c {
            Command::MarkStepStatus {
                step_id,
                status: StepStatus::Skipped,
            } => vec![step_id.clone()],
            _ => vec![],
        })
        .collect();
    skipped.sort();
    assert_eq!(skipped, vec!["gate", "report-failure"]);
    assert!(ends_in(&commands, RunPhase::Failed));
    assert!(matches!(
        commands.last(),
        Some(Command::MarkRunTerminal(RunPhase::Failed))
    ));
}

#[test]
fn phase_and_active_steps_are_derived_consistently() {
    let mut state = RunState::default();
    mark(&mut state, "a", StepStatus::Running);
    assert_eq!(flowspec::run::derive::phase(&state), RunPhase::Running);
    assert_eq!(flowspec::run::derive::active_steps(&state), vec!["a".to_string()]);

    mark(&mut state, "a", StepStatus::Completed);
    assert_eq!(flowspec::run::derive::phase(&state), RunPhase::Completed);
    assert!(flowspec::run::derive::active_steps(&state).is_empty());
}

#[test]
fn failure_wins_over_completion_and_cancellation_needs_the_flag() {
    let mut state = RunState::default();
    mark(&mut state, "a", StepStatus::Completed);
    mark(&mut state, "b", StepStatus::FailedRejected);
    mark(&mut state, "c", StepStatus::Cancelled);
    assert_eq!(flowspec::run::derive::phase(&state), RunPhase::Failed);
    state.cancelled = true;
    assert_eq!(flowspec::run::derive::phase(&state), RunPhase::Cancelled);
    let mut other = RunState::default();
    mark(&mut other, "c", StepStatus::Cancelled);
    assert_eq!(flowspec::run::derive::phase(&other), RunPhase::Cancelled);
}

#[test]
fn an_event_about_an_unknown_step_is_refused() {
    let flow = flow(LINEAR);
    let err = decide(
        &flow,
        &RunState::default(),
        Event::StepCompleted {
            step_id: "nope".into(),
            output: JsonValue::Null,
        },
        now(),
    )
    .unwrap_err();
    assert_eq!(err, EngineError::UnknownStep("nope".into()));
    assert_eq!(err.message(), "unknown step 'nope' referenced by event");
    let illegal = EngineError::IllegalTransition {
        step: "a".into(),
        from: StepStatus::Pending,
        to: StepStatus::WaitingApproval,
    };
    assert_eq!(
        illegal.message(),
        "illegal transition for step 'a': Pending -> WaitingApproval"
    );
}

#[test]
fn subflow_steps_start_a_child_run_and_its_end_carries_on() {
    let flow = flow(SUBFLOW_PARENT);
    let mut state = RunState::default();
    mark(&mut state, "build", StepStatus::Running);
    let commands = decide(
        &flow,
        &state,
        Event::StepCompleted {
            step_id: "build".into(),
            output: JsonValue::Null,
        },
        now(),
    )
    .unwrap();
    assert!(commands
        .iter()
        .any(|c| matches!(c, Command::StartChildRun { step_id } if step_id == "deploy")));

    mark(&mut state, "build", StepStatus::Completed);
    mark(&mut state, "deploy", StepStatus::WaitingOnSubflow);
    let done = decide(
        &flow,
        &state,
        Event::SubflowFinished {
            step_id: "deploy".into(),
            phase: RunPhase::Completed,
            outputs: None,
        },
        now(),
    )
    .unwrap();
    assert!(ends_in(&done, RunPhase::Completed));
    let failed = decide(
        &flow,
        &state,
        Event::SubflowFinished {
            step_id: "deploy".into(),
            phase: RunPhase::Cancelled,
            outputs: None,
        },
        now(),
    )
    .unwrap();
    assert!(ends_in(&failed, RunPhase::Failed));
}

#[test]
fn hooks_frame_the_run_by_their_condition() {
    let flow = flow(
        r#"{"name": "h", "version": "1.0.0",
            "lifecycle": {
              "before_run": [{"hook": "audit"}],
              "after_run": [
                {"hook": "ok"}, {"hook": "bad", "when": "failed"},
                {"hook": "stopped", "when": "cancelled"}, {"hook": "all", "when": "always"}]},
            "steps": [{"id": "only", "type": "cli", "with": {"cli": "bash", "input": "x"}}]}"#,
    );
    let started = decide(&flow, &RunState::default(), Event::RunStarted, now()).unwrap();
    assert!(matches!(
        &started[0],
        Command::RunHooks { phase: HookPhase::BeforeRun, hooks } if hooks[0].hook == "audit"
    ));
    let mut state = RunState::default();
    mark(&mut state, "only", StepStatus::Running);
    let names = |commands: &[Command]| -> Vec<String> {
        commands
            .iter()
            .flat_map(|c| match c {
                Command::RunHooks { hooks, .. } => hooks.iter().map(|h| h.hook.clone()).collect(),
                _ => Vec::new(),
            })
            .collect()
    };
    let completed = decide(
        &flow,
        &state,
        Event::StepCompleted {
            step_id: "only".into(),
            output: JsonValue::Null,
        },
        now(),
    )
    .unwrap();
    assert_eq!(names(&completed), vec!["ok", "all"]);
    let failed = decide(
        &flow,
        &state,
        Event::StepFailed {
            step_id: "only".into(),
            reason: "boom".into(),
        },
        now(),
    )
    .unwrap();
    assert_eq!(names(&failed), vec!["bad", "all"]);
}

// ---------------------------------------------------------------------------
// Validation
// ---------------------------------------------------------------------------

fn rules(source: &str) -> Vec<&'static str> {
    let f = flow(source);
    validate(&f).iter().map(|v| v.rule).collect()
}

fn assert_valid(source: &str) {
    let f = flow(source);
    let violations = validate(&f);
    assert!(
        violations.is_empty(),
        "expected a valid flow, got violations: {violations:?}"
    );
}

#[test]
fn linear_is_valid() {
    assert_valid(LINEAR);
}

#[test]
fn human_loop_is_valid() {
    assert_valid(HUMAN_LOOP);
}

#[test]
fn fan_out_is_valid() {
    assert_valid(FAN_OUT);
}

#[test]
fn failure_routing_is_valid() {
    assert_valid(FAILURE_ROUTING);
}

#[test]
fn subflow_parent_and_child_are_valid() {
    assert_valid(SUBFLOW_PARENT);
    assert_valid(SUBFLOW_CHILD);
}

#[test]
fn cycle_is_rejected() {
    let source = r#"{"name": "cycle", "version": "1.0.0", "steps": [
      {"id": "start", "type": "cli", "with": {"cli": "bash", "input": "x"}, "on_success": "a"},
      {"id": "a", "type": "cli", "with": {"cli": "bash", "input": "x"},
       "needs": ["start", "b"], "on_success": "b"},
      {"id": "b", "type": "cli", "with": {"cli": "bash", "input": "x"}, "on_success": "a"}]}"#;
    assert!(!rules(source).is_empty());
    assert_eq!(rules(source), vec!["acyclic"]);
    let violations = validate(&flow(source));
    assert_eq!(
        violations[0].message,
        "routing graph contains a cycle: a -> b -> a"
    );
}

#[test]
fn dangling_needs_is_rejected() {
    let source = r#"{"name": "dangling", "version": "1.0.0", "steps": [
      {"id": "a", "type": "cli", "with": {"cli": "bash", "input": "x"}, "on_success": "b"},
      {"id": "b", "type": "cli", "with": {"cli": "bash", "input": "x"},
       "needs": ["ghost"], "on_success": "done"}]}"#;
    assert!(!rules(source).is_empty());
    assert_eq!(
        rules(source),
        vec!["routing_target_exists", "needs_matches_sources"]
    );
}

#[test]
fn cross_sibling_is_rejected() {
    let source = r#"{"name": "siblings", "version": "1.0.0", "steps": [
      {"id": "a", "type": "cli", "with": {"cli": "bash", "input": "x"}, "on_success": ["b", "c"]},
      {"id": "b", "type": "cli", "with": {"cli": "bash", "input": "{{ steps.c.output }}"}},
      {"id": "c", "type": "cli", "with": {"cli": "bash", "input": "{{ steps.a.output }}"}}]}"#;
    assert!(!rules(source).is_empty());
    assert_eq!(rules(source), vec!["no_cross_sibling_references"]);
}

#[test]
fn self_recursive_is_rejected() {
    let source = r#"{"name": "again", "version": "1.0.0", "steps": [
      {"id": "a", "type": "subflow", "with": {"flow": "again"}, "on_success": "done"}]}"#;
    assert!(!rules(source).is_empty());
    assert_eq!(rules(source), vec!["no_subflow_recursion"]);
}

#[test]
fn every_other_rule_is_reported() {
    assert_eq!(
        rules(r#"{"name": "n", "version": "1", "steps": []}"#),
        vec!["non_empty_steps"]
    );
    assert_eq!(
        rules(
            r#"{"name": "n", "version": "1", "timeout": "soon", "steps": [
                {"id": "Bad Id", "type": "cli", "with": {"cli": "b", "input": ""}, "timeout": "5x"}]}"#
        ),
        vec!["valid_step_id", "valid_duration", "valid_duration"]
    );
    assert_eq!(
        rules(
            r#"{"name": "n", "version": "1", "steps": [
                {"id": "a", "type": "cli", "with": {"cli": "b", "input": ""}, "on_success": "a2"},
                {"id": "a2", "type": "cli", "with": {"cli": "b"}},
                {"id": "a2", "type": "cli", "with": {"cli": "b", "input": ""}}]}"#
        ),
        vec!["unique_step_ids", "type_with_consistency"]
    );
    assert_eq!(
        rules(
            r#"{"name": "n", "version": "1", "steps": [
                {"id": "a", "type": "cli", "with": {"cli": "b", "input": ""}},
                {"id": "b", "type": "cli", "with": {"cli": "b", "input": ""}, "human_loop": true,
                 "on_approve": "done"}]}"#
        ),
        vec!["exactly_one_entry_step", "human_loop_routing_pairs"]
    );
    assert_eq!(
        rules(
            r#"{"name": "n", "version": "1", "steps": [
                {"id": "a", "type": "cli", "with": {"cli": "b", "input": ""}, "on_success": ["b", "c"]},
                {"id": "b", "type": "cli", "with": {"cli": "b", "input": ""}, "on_success": "d",
                 "reject_input": "again"},
                {"id": "c", "type": "cli", "with": {"cli": "b", "input": ""}, "on_success": "d",
                 "on_reject": "done"},
                {"id": "d", "type": "cli", "with": {"cli": "b", "input": ""}}]}"#
        ),
        vec![
            "multi_target_needs_join",
            "human_loop_routing_pairs",
            "reject_input_self_loop_only"
        ]
    );
    assert_eq!(
        rules(
            r#"{"name": "n", "version": "1", "steps": [
                {"id": "a", "type": "cli", "with": {"cli": "b", "input": ""}, "on_success": "b"},
                {"id": "b", "type": "cli", "with": {"cli": "b", "input": "{{ steps.a.output.x }}"}}]}"#
        ),
        vec!["output_reference_valid"]
    );
}

#[test]
fn durations_and_ids_are_read() {
    assert_eq!(parse_duration("45s"), Some(45));
    assert_eq!(parse_duration(" 10m "), Some(600));
    assert_eq!(parse_duration("1h"), Some(3600));
    assert_eq!(parse_duration("h"), None);
    assert_eq!(parse_duration("10"), None);
    assert_eq!(parse_duration(""), None);
    assert_eq!(parse_duration("10\u{e9}"), None);
    assert_eq!(parse_duration("18446744073709551615s"), Some(u64::MAX));
    assert_eq!(parse_duration("18446744073709551615m"), None);
    assert_eq!(parse_duration("5124095576030431h"), Some(18446744073709551600));
    assert_eq!(parse_duration("5124095576030432h"), None);
    assert!(is_valid_id("unit-tests_2"));
    assert!(!is_valid_id("Unit"));
    assert!(!is_valid_id(""));
}

#[test]
fn routing_graph_of_the_fan_out() {
    let f = flow(FAN_OUT);
    assert_eq!(dag::entry_steps(&f), vec!["build"]);
    assert_eq!(dag::find_cycle(&f), None);
    assert!(dag::is_fan_out(&f.steps[0].on_success));
    assert!(!dag::is_fan_out(&f.steps[1].on_success));
    assert!(dag::target_is_valid(&f, "done"));
    assert!(!dag::target_is_valid(&f, "ghost"));
    assert_eq!(
        dag::routing_targets(&f.steps[1]),
        vec!["gate", "report-failure"]
    );
    let mut reached = dag::reachable_from(&f, "lint");
    reached.sort();
    assert_eq!(reached, vec!["gate", "lint", "report-failure"]);
    assert!(dag::reachable_from(&f, "ghost").is_empty());
    let mut before = guaranteed_predecessors(&f, "gate");
    before.sort();
    assert_eq!(
        before,
        vec!["build", "integration-tests", "lint", "unit-tests"]
    );
    let incoming = dag::steps_with_incoming_edges(&f);
    let gate = incoming.iter().find(|(t, _)| t == "gate").unwrap();
    assert_eq!(gate.1, vec!["unit-tests", "integration-tests", "lint"]);
    let graph = dag::adjacency(&flow(HUMAN_LOOP));
    assert_eq!(graph[0], ("plan".to_string(), vec!["implement".to_string()]));
    assert!(dag::is_self_reject_loop(&flow(HUMAN_LOOP).steps[0]));
    assert!(dag::find_cycle(&flow(FAILURE_ROUTING)).is_none());
}

#[test]
fn with_blocks_are_read_by_type() {
    let f = flow(SUBFLOW_PARENT);
    match f.steps[0].kind() {
        Some(StepWith::Cli { with }) => {
            assert_eq!(with.cli, "bash");
            assert_eq!(with.input, "make");
            assert!(with.extra.is_empty());
        }
        other => panic!("not a cli block: {other:?}"),
    }
    match f.steps[1].kind() {
        Some(StepWith::Subflow { with }) => assert_eq!(with.flow, "deploy-child"),
        other => panic!("not a subflow block: {other:?}"),
    }
    assert_eq!(f.steps[1].type_label(), "subflow");
    let extra = step(&json(
        r#"{"id": "a", "type": "cli", "with": {"cli": "b", "input": "i", "model": "m", "n": 3}}"#,
    ));
    match extra.kind() {
        Some(StepWith::Cli { with }) => {
            assert_eq!(with.extra["model"], JsonValue::Text("m".into()));
            assert_eq!(with.extra["n"], JsonValue::Number("3".into()));
            assert_eq!(with.extra.len(), 2);
        }
        other => panic!("not a cli block: {other:?}"),
    }
}

#[test]
fn flow_files_hold_one_flow_or_several() {
    let one = FlowFile::Single {
        flow: Box::new(flow(LINEAR)),
    };
    assert_eq!(one.into_definitions().len(), 1);
    let two = FlowFile::Multiple {
        flows: vec![
            SingleFlowEntry { flow: flow(LINEAR) },
            SingleFlowEntry {
                flow: flow(FAN_OUT),
            },
        ],
    };
    let names: Vec<String> = two.into_definitions().into_iter().map(|f| f.name).collect();
    assert_eq!(names, vec!["linear", "fan-out"]);
}

// ---------------------------------------------------------------------------
// Templates
// ---------------------------------------------------------------------------

fn ctx() -> TemplateContext {
    TemplateContext {
        inputs: json(r#"{"message": "add stripe"}"#),
        trigger: json(r#"{"user_id": "u1"}"#),
        env: json(r#"{"PROJECT_NAME": "flowspec"}"#),
        steps: vec![
            (
                "plan".to_string(),
                StepContext {
                    output: Some(json("\"PLAN.md\"")),
                    feedback: Some(json("\"needs more detail\"")),
                    approval_comment: Some(json("\"looks good\"")),
                    run: None,
                },
            ),
            (
                "deploy".to_string(),
                StepContext {
                    output: Some(json(r#"{"id": "dep_123", "url": "https://example.com"}"#)),
                    feedback: None,
                    approval_comment: None,
                    run: Some(json(r#"{"run_id": "run_abc", "status": "completed"}"#)),
                },
            ),
        ],
        run: json(r#"{"id": "run_xyz"}"#),
    }
}

#[test]
fn resolves_inputs_and_trigger_and_env_and_run() {
    assert_eq!(
        resolve("{{ inputs.message }}", &ctx(), "s").unwrap(),
        "add stripe"
    );
    assert_eq!(resolve("{{ trigger.user_id }}", &ctx(), "s").unwrap(), "u1");
    assert_eq!(
        resolve("{{ env.PROJECT_NAME }}", &ctx(), "s").unwrap(),
        "flowspec"
    );
    assert_eq!(resolve("{{ run.id }}", &ctx(), "s").unwrap(), "run_xyz");
}

#[test]
fn resolves_step_output_feedback_and_approval_comment() {
    assert_eq!(
        resolve("{{ steps.plan.output }}", &ctx(), "s").unwrap(),
        "PLAN.md"
    );
    assert_eq!(
        resolve("{{ steps.plan.feedback }}", &ctx(), "s").unwrap(),
        "needs more detail"
    );
    assert_eq!(
        resolve("{{ steps.plan.approval_comment }}", &ctx(), "s").unwrap(),
        "looks good"
    );
}

#[test]
fn resolves_structured_output_dot_path() {
    assert_eq!(
        resolve("{{ steps.deploy.output.id }}", &ctx(), "s").unwrap(),
        "dep_123"
    );
    assert_eq!(
        resolve("{{ steps.deploy.output.url }}", &ctx(), "s").unwrap(),
        "https://example.com"
    );
}

#[test]
fn resolves_subflow_run_metadata_namespace() {
    assert_eq!(
        resolve("{{ steps.deploy.run.run_id }}", &ctx(), "s").unwrap(),
        "run_abc"
    );
    assert_eq!(
        resolve("{{ steps.deploy.run.status }}", &ctx(), "s").unwrap(),
        "completed"
    );
}

#[test]
fn dotted_access_into_unstructured_string_output_errors_precisely() {
    let err = resolve("{{ steps.plan.output.field }}", &ctx(), "implement").unwrap_err();
    assert_eq!(
        err,
        TemplateError::UnstructuredOutput {
            reference: "steps.plan.output.field".to_string(),
            step: "implement".to_string(),
        }
    );
}

#[test]
fn unresolvable_reference_errors_instead_of_substituting_empty_string() {
    let err = resolve("{{ inputs.missing }}", &ctx(), "plan").unwrap_err();
    assert_eq!(
        err,
        TemplateError::UnresolvableReference {
            reference: "inputs.missing".to_string(),
            step: "plan".to_string(),
        }
    );

    let err2 = resolve("{{ steps.unknown-step.output }}", &ctx(), "plan").unwrap_err();
    assert_eq!(
        err2,
        TemplateError::UnresolvableReference {
            reference: "steps.unknown-step.output".to_string(),
            step: "plan".to_string(),
        }
    );
}

#[test]
fn mixed_literal_and_span_text_renders_inline() {
    let text = "Plan output: {{ steps.plan.output }} (say hi to {{ inputs.message }})";
    assert_eq!(
        resolve(text, &ctx(), "s").unwrap(),
        "Plan output: PLAN.md (say hi to add stripe)"
    );
}

#[test]
fn structured_value_embedded_in_mixed_text_is_json_encoded() {
    let text = "id={{ steps.deploy.output.id }} full={{ steps.deploy.output }}";
    let resolved = resolve(text, &ctx(), "s").unwrap();
    assert!(resolved.starts_with("id=dep_123 full="));
    assert!(resolved.contains("\"id\":\"dep_123\"") || resolved.contains("\"id\": \"dep_123\""));
    assert_eq!(
        resolved,
        "id=dep_123 full={\"id\":\"dep_123\",\"url\":\"https://example.com\"}"
    );
}

#[test]
fn plain_text_with_no_templates_passes_through() {
    assert_eq!(
        resolve("just a plain string", &ctx(), "s").unwrap(),
        "just a plain string"
    );
}

#[test]
fn unterminated_span_errors() {
    let err = resolve("{{ inputs.message", &ctx(), "plan").unwrap_err();
    assert_eq!(
        err,
        TemplateError::Unterminated {
            step: "plan".to_string()
        }
    );
}

#[test]
fn every_text_in_a_value_is_resolved() {
    let value = json(r#"{"a": "{{ steps.deploy.output }}", "b": ["x {{ run.id }}", 7, null]}"#);
    let resolved = resolve_value(&value, &ctx(), "s").unwrap();
    assert_eq!(
        resolved,
        json(
            r#"{"a": "{\"id\":\"dep_123\",\"url\":\"https://example.com\"}",
                "b": ["x run_xyz", 7, null]}"#
        )
    );
    assert_eq!(
        list_spans("a {{ x }} b {{y}} {{ open"),
        vec!["x".to_string(), "y".to_string()]
    );
}
