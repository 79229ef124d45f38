//! Whole runs, from their start to their end, with a runner that follows a
//! script.
use flowspec::flow::types::{
    FlowDefaults, FlowDefinition, FlowInput, HookCall, HookCondition, LifecycleHooks, RouteTarget,
    Step, StepType,
};
use flowspec::hooks::{
    hook_batch_step, hook_begun, hook_started, hook_waited, HookBatchStep, HookStep,
};
use flowspec::ids::new_run_id;
use flowspec::json::{parse_json, JsonValue};
use flowspec::ports::{
    DevkitdError, HookRunRecord, JobHandle, Mutation, NewRun, RunEventType, RunFilter, RunRecord,
    SchedulerConfig, StartRequest, StepRecord, StoreError,
};
use flowspec::platform::{
    advance_pump, begin_pump, group_by_run, handle_approve_reject, handle_trigger_run,
    highest_sequence, parse_and_validate_flow_doc, platform_trigger, push_events, Disposal,
    PumpState, TriggerOutcome,
};
use flowspec::recovery::{recovery_plan, RecoveryAction, RecoveryReason};
use flowspec::rows::{new_run_row, read_run, row_change, Cell, RowChange, StepRow};
use flowspec::run::engine::is_decidable;
use flowspec::run::types::{Event, RunPhase, StepRun, StepStatus};
use flowspec::scheduler::{
    deadline_delay, finish_reattached, handle_stored, hook_batch_finished, is_deadline_countable,
    is_delay_countable, job_started, job_waited, reattach, recovery_event, run_locked_commands,
    submit, Action,
    HookVerdict, HooksContinuation, JobStep, Turn,
};
use flowspec::store::InMemoryStateStore;
use flowspec::use_cases::approvals::{
    approve_step, reject_step, ApprovalError, ApproveRequest, RejectRequest,
};
use flowspec::use_cases::cancel_run::cancel_run;
use flowspec::tool_failure::{error_kind_str, ToolFailure};
use flowspec::use_cases::queries::{
    flow_run_snapshot, get_run_status, get_run_tree, get_step_output, list_flows, list_runs,
    pending_approvals, platform_key, ListRunsRequest, QueryError, RunStatus,
};
use flowspec::use_cases::start_flow::{
    after_create, after_duplicate, start_flow, start_flow_with_definition, start_response, Creation, Start,
    StartFlowError, StartFlowRequest, StartFlowResponse,
};
use indexmap::IndexMap;
use std::collections::HashMap;

fn json(text: &str) -> JsonValue {
    parse_json(text).unwrap()
}

fn text(v: &JsonValue) -> String {
    match v {
        JsonValue::Text(t) => t.clone(),
        other => panic!("not a text: {other:?}"),
    }
}

fn optional(v: &JsonValue, key: &str) -> Option<String> {
    v.get(key).map(text)
}

fn items(v: &JsonValue, key: &str) -> Vec<JsonValue> {
    match v.get(key) {
        Some(JsonValue::Array(list)) => list.clone(),
        None => Vec::new(),
        other => panic!("not a list: {other:?}"),
    }
}

fn route(v: &JsonValue, key: &str) -> Option<RouteTarget> {
    v.get(key).map(|r| match r {
        JsonValue::Text(t) => RouteTarget::One(t.clone()),
        JsonValue::Array(list) => RouteTarget::Many(list.iter().map(text).collect()),
        other => panic!("not a route: {other:?}"),
    })
}

fn flag(v: &JsonValue, key: &str) -> bool {
    v.get(key) == Some(&JsonValue::Bool(true))
}

fn hook(v: &JsonValue) -> HookCall {
    let mut args = IndexMap::new();
    if let Some(JsonValue::Object(entries)) = v.get("args") {
        for (k, x) in entries {
            args.insert(k.clone(), x.clone());
        }
    }
    HookCall {
        hook: optional(v, "hook").unwrap(),
        args,
        timeout: optional(v, "timeout"),
        when: optional(v, "when").map(|w| match w.as_str() {
            "succeeded" => HookCondition::Succeeded,
            "failed" => HookCondition::Failed,
            "cancelled" => HookCondition::Cancelled,
            "always" => HookCondition::Always,
            other => panic!("unknown condition {other}"),
        }),
        always_continue: flag(v, "always_continue"),
    }
}

fn step(v: &JsonValue) -> Step {
    Step {
        id: optional(v, "id").unwrap(),
        step_type: match optional(v, "type").unwrap().as_str() {
            "cli" => StepType::Cli,
            "subflow" => StepType::Subflow,
            other => panic!("unknown type {other}"),
        },
        with: v.get("with").cloned().unwrap_or_default(),
        human_loop: flag(v, "human_loop"),
        timeout: optional(v, "timeout"),
        retries: match v.get("retries") {
            Some(JsonValue::Number(n)) => n.parse().unwrap(),
            _ => 0,
        },
        reject_input: optional(v, "reject_input"),
        before: items(v, "before").iter().map(hook).collect(),
        after: items(v, "after").iter().map(hook).collect(),
        on_success: route(v, "on_success"),
        on_failure: route(v, "on_failure"),
        on_approve: route(v, "on_approve"),
        on_reject: route(v, "on_reject"),
        needs: items(v, "needs").iter().map(text).collect(),
    }
}

fn flow(source: &str) -> FlowDefinition {
    let v = json(source);
    let mut inputs = IndexMap::new();
    if let Some(JsonValue::Object(entries)) = v.get("inputs") {
        for (name, x) in entries {
            inputs.insert(
                name.clone(),
                FlowInput {
                    ty: optional(x, "type").unwrap(),
                    required: flag(x, "required"),
                    description: optional(x, "description"),
                    default: x.get("default").cloned(),
                },
            );
        }
    }
    let lifecycle = v.get("lifecycle").cloned().unwrap_or_default();
    FlowDefinition {
        name: optional(&v, "name").unwrap(),
        version: optional(&v, "version").unwrap(),
        description: optional(&v, "description"),
        inputs,
        outputs: IndexMap::new(),
        defaults: FlowDefaults::default(),
        timeout: optional(&v, "timeout"),
        lifecycle: LifecycleHooks {
            before_run: items(&lifecycle, "before_run").iter().map(hook).collect(),
            after_run: items(&lifecycle, "after_run").iter().map(hook).collect(),
        },
        metadata: IndexMap::new(),
        flowspec_version: None,
        steps: items(&v, "steps").iter().map(step).collect(),
    }
}

const LINEAR: &str = r#"{
  "name": "linear", "version": "1.0.0",
  "inputs": {"message": {"type": "string", "required": true}},
  "steps": [
    {"id": "plan", "type": "cli", "with": {"cli": "agent", "input": "Plan: {{ inputs.message }}"},
     "on_success": "implement", "on_failure": "done"},
    {"id": "implement", "type": "cli", "with": {"cli": "agent", "input": "Implement {{ steps.plan.output }}"},
     "on_success": "done", "on_failure": "done"}
  ]}"#;

const HUMAN_LOOP: &str = r#"{
  "name": "human-loop", "version": "1.0.0",
  "inputs": {"message": {"type": "string", "required": true}},
  "steps": [
    {"id": "plan", "type": "cli", "with": {"cli": "agent", "input": "Plan: {{ inputs.message }}"},
     "human_loop": true, "on_approve": "implement", "on_reject": "plan"},
    {"id": "implement", "type": "cli", "with": {"cli": "agent", "input": "Implement {{ steps.plan.output }}"},
     "on_success": "done"}
  ]}"#;

const FAN_OUT: &str = r#"{
  "name": "fan-out", "version": "1.0.0",
  "steps": [
    {"id": "build", "type": "cli", "with": {"cli": "bash", "input": "make"},
     "on_success": ["unit-tests", "integration-tests", "lint"], "on_failure": "report-failure"},
    {"id": "unit-tests", "type": "cli", "with": {"cli": "bash", "input": "make unit"},
     "on_success": "gate", "on_failure": "report-failure"},
    {"id": "integration-tests", "type": "cli", "with": {"cli": "bash", "input": "make it"},
     "on_success": "gate", "on_failure": "report-failure"},
    {"id": "lint", "type": "cli", "with": {"cli": "bash", "input": "make lint"},
     "on_success": "gate", "on_failure": "report-failure"},
    {"id": "gate", "type": "cli",
     "with": {"cli": "bash", "input": "{{ steps.unit-tests.output }} {{ steps.lint.output }}"},
     "needs": ["unit-tests", "integration-tests", "lint"], "on_success": "done"},
    {"id": "report-failure", "type": "cli", "with": {"cli": "bash", "input": "report"},
     "needs": ["build", "unit-tests", "integration-tests", "lint"], "on_success": "done"}
  ]}"#;

const FAILURE_ROUTING: &str = r#"{
  "name": "failure-routing", "version": "1.0.0",
  "steps": [
    {"id": "implement", "type": "cli", "with": {"cli": "agent", "input": "implement"},
     "retries": 2, "on_success": "test", "on_failure": "done"},
    {"id": "test", "type": "cli", "with": {"cli": "bash", "input": "test"},
     "on_success": "done", "on_failure": "implement"}
  ]}"#;


const RUN_TIMEOUT: &str = r#"{
  "name": "run-timeout", "version": "1.0.0", "timeout": "1s",
  "steps": [
    {"id": "hang", "type": "cli", "with": {"cli": "bash", "input": "sleep"}, "on_success": "done"}
  ]}"#;

const HOOKS: &str = r#"{
  "name": "hooks", "version": "1.0.0",
  "inputs": {"message": {"type": "string", "required": true}},
  "lifecycle": {
    "before_run": [{"hook": "audit", "args": {"note": "{{ inputs.message }}"}}],
    "after_run": [
      {"hook": "notify-success"}, {"hook": "notify-failed", "when": "failed"},
      {"hook": "notify-cancelled", "when": "cancelled"}, {"hook": "notify-always", "when": "always"}]},
  "steps": [
    {"id": "build", "type": "cli", "with": {"cli": "bash", "input": "build"},
     "after": [{"hook": "post-build"}], "on_success": "validate", "on_failure": "done"},
    {"id": "validate", "type": "cli", "with": {"cli": "bash", "input": "validate"},
     "on_success": "done"}
  ]}"#;

const HOOKS_GATING_FAILURE: &str = r#"{
  "name": "hooks-gating-failure", "version": "1.0.0",
  "lifecycle": {"before_run": [{"hook": "gate"}]},
  "steps": [{"id": "build", "type": "cli", "with": {"cli": "bash", "input": "build"}}]}"#;

const HOOKS_ALWAYS_CONTINUE: &str = r#"{
  "name": "hooks-always-continue", "version": "1.0.0",
  "lifecycle": {"before_run": [{"hook": "gate", "always_continue": true}]},
  "steps": [{"id": "build", "type": "cli", "with": {"cli": "bash", "input": "build"}}]}"#;

fn config() -> SchedulerConfig {
    SchedulerConfig {
        poll_interval_secs: 1,
        deadline_margin_secs: 1,
        default_step_timeout_secs: 3600,
        max_step_output_kb: 256,
        executor_cli_tool: "agent-run".to_string(),
    }
}

#[derive(Debug)]
enum Script {
    Succeed(JsonValue),
    Fail(&'static str),
    Hang,
}

struct Job {
    run_id: String,
    step_id: String,
    attempt: u32,
    job_id: String,
    key: String,
    at: usize,
}

/// Drives runs one action at a time. A job that is started ends when the
/// runner is asked to carry on.
struct Harness {
    store: InMemoryStateStore,
    flows: Vec<FlowDefinition>,
    scripts: HashMap<String, Vec<Script>>,
    uses: HashMap<String, usize>,
    jobs: Vec<Job>,
    starts: Vec<StartRequest>,
    cancelled: Vec<String>,
    errors: Vec<String>,
    count: u64,
    now: i128,
}

impl Harness {
    fn new(flows: &[&str], scripts: Vec<(&str, Vec<Script>)>) -> Self {
        Harness {
            store: InMemoryStateStore::new(),
            flows: flows.iter().map(|f| flow(f)).collect(),
            scripts: scripts
                .into_iter()
                .map(|(k, v)| (k.to_string(), v))
                .collect(),
            uses: HashMap::new(),
            jobs: Vec::new(),
            starts: Vec::new(),
            cancelled: Vec::new(),
            errors: Vec::new(),
            count: 0,
            now: 1_000_000_000_000,
        }
    }

    fn tick(&mut self) -> i128 {
        self.now += 1_000_000_000;
        self.now
    }

    /// Starts a job and says which script it follows.
    fn start_job(&mut self, request: StartRequest) -> (String, String, usize) {
        let key = match request.args.get("step") {
            Some(JsonValue::Text(t)) => t.clone(),
            _ => request.tool.clone(),
        };
        let used = self.uses.entry(key.clone()).or_insert(0);
        let at = *used;
        *used += 1;
        let job_id = format!("job_{:06x}", self.starts.len());
        self.starts.push(request);
        (job_id, key, at)
    }

    fn script(&self, key: &str, at: usize) -> Option<Result<JsonValue, DevkitdError>> {
        let Some(list) = self.scripts.get(key) else {
            return Some(Ok(JsonValue::Null));
        };
        match &list[at.min(list.len() - 1)] {
            Script::Succeed(v) => Some(Ok(v.clone())),
            Script::Fail(stderr) => Some(Err(DevkitdError::ToolError {
                stdout: String::new(),
                stderr: stderr.to_string(),
                exit_code: 1,
            })),
            Script::Hang => None,
        }
    }

    fn load(&self, run_id: &str) -> RunRecord {
        self.store.load_run(run_id).unwrap()
    }

    fn apply(&mut self, run_id: &str, writes: Vec<Mutation>) {
        let now = self.now;
        self.store.apply(run_id, writes, now).unwrap();
    }

    fn submit(&mut self, run_id: &str, event: Event) {
        let record = self.load(run_id);
        let now = self.tick();
        assert!(is_decidable(
            &record.definition,
            &record.run_state(),
            &event
        ));
        let turn = submit(false, &record, &event, now, &config());
        self.perform(run_id, event, turn);
    }

    fn perform(&mut self, run_id: &str, event: Event, turn: Turn) {
        for action in turn.plan.actions {
            match action {
                Action::Apply(writes) => self.apply(run_id, writes),
                Action::StartStep {
                    activation,
                    request,
                } => {
                    let timeout = request.timeout_seconds;
                    let (job_id, key, at) = self.start_job(request);
                    let step_id = activation.step_id;
                    let attempt = activation.attempt;
                    let handle = match job_started(&step_id, attempt, Ok(JobHandle(job_id))) {
                        JobStep::Store { handle, writes } => {
                            self.apply(run_id, writes);
                            handle
                        }
                        other => panic!("an accepted job is stored first: {other:?}"),
                    };
                    match handle_stored(&step_id, attempt, handle, true, 0, timeout, 1) {
                        JobStep::Wait { handle, deadline } => {
                            assert_eq!(
                                deadline,
                                timeout.map(|s| (s as i128 + 1) * 1_000_000_000)
                            );
                            self.jobs.push(Job {
                                run_id: run_id.to_string(),
                                step_id,
                                attempt,
                                job_id: handle.0,
                                key,
                                at,
                            });
                        }
                        other => panic!("a job with a stored handle is waited for: {other:?}"),
                    }
                }
                Action::CancelJob { job_id, .. } => {
                    self.jobs.retain(|j| j.job_id != job_id);
                    self.cancelled.push(job_id);
                }
                Action::AbortWait { .. } | Action::ClearLiveness { .. } | Action::StopDeadline => {}
            }
        }
        if let Some(e) = turn.plan.error {
            self.errors.push(e.message());
            return;
        }
        for follow_on in turn.plan.follow_ons {
            self.submit(run_id, follow_on);
        }
        if let Some(hooks) = turn.hooks {
            self.run_hooks(run_id, event, hooks);
        }
    }

    fn run_hooks(&mut self, run_id: &str, event: Event, batch: HooksContinuation) {
        let mut done = 0;
        let mut last = None;
        let failure = loop {
            match hook_batch_step(&batch.phase, &batch.hooks, done, last.as_ref()) {
                HookBatchStep::Run(i) => match self.run_hook(run_id, &batch, i) {
                    Some(outcome) => {
                        last = outcome.err();
                        done = i + 1;
                    }
                    None => return,
                },
                HookBatchStep::Finish(reason) => break reason,
            }
        };
        let now = self.tick();
        match hook_batch_finished(&batch.phase, failure, now) {
            HookVerdict::FailRun(writes) => self.apply(run_id, writes),
            HookVerdict::FailStep(event) => self.submit(run_id, event),
            HookVerdict::Continue => {
                let record = self.load(run_id);
                let turn = run_locked_commands(&record, &event, now, &config(), batch.tail);
                self.perform(run_id, event, turn);
            }
        }
    }

    /// Takes a hook to its end; none where its job hangs.
    fn run_hook(
        &mut self,
        run_id: &str,
        batch: &HooksContinuation,
        i: usize,
    ) -> Option<Result<JsonValue, DevkitdError>> {
        let hook = &batch.hooks[i];
        let phase = &batch.phase;
        let started_at = self.tick();
        let record = self.load(run_id);
        let begun_at = self.tick();
        let mut next = hook_begun(Some(&record), hook, phase, started_at, begun_at);
        if let HookStep::Start(request) = next {
            let (job_id, key, at) = self.start_job(request.clone());
            let accepted_at = self.tick();
            next = hook_started(
                hook,
                phase,
                started_at,
                &request,
                Ok(JobHandle(job_id)),
                accepted_at,
            );
            if let HookStep::Wait { handle, .. } = &next {
                let outcome = self.script(&key, at)?;
                let ended_at = self.tick();
                next = hook_waited(
                    hook, phase, started_at, &request, handle, outcome, ended_at,
                );
            }
        }
        match next {
            HookStep::Finish { write, outcome } => {
                self.apply(run_id, write.into_iter().collect());
                Some(outcome)
            }
            other => panic!("a hook that was waited for has ended: {other:?}"),
        }
    }

    /// Lets every job that does not hang come to its end.
    fn carry_on(&mut self) {
        while let Some(i) = self
            .jobs
            .iter()
            .position(|j| self.script(&j.key, j.at).is_some())
        {
            let job = self.jobs.remove(i);
            let outcome = self.script(&job.key, job.at).unwrap();
            match job_waited(&job.step_id, job.attempt, outcome) {
                JobStep::Finish { writes, event } => {
                    if !writes.is_empty() {
                        self.apply(&job.run_id, writes);
                    }
                    self.submit(&job.run_id, event);
                }
                other => panic!("a job that was waited for has ended: {other:?}"),
            }
        }
    }

    fn request(
        &mut self,
        req: StartFlowRequest,
    ) -> Result<StartFlowResponse, StartFlowError> {
        let owner = match &req.idempotency_key {
            Some(key) => self.store.find_by_idempotency_key(key),
            None => None,
        };
        let key = req.idempotency_key.clone();
        let start = start_flow(&self.flows, Ok(owner), req)?;
        self.begin(start, key)
    }

    fn begin(
        &mut self,
        start: Start,
        key: Option<String>,
    ) -> Result<StartFlowResponse, StartFlowError> {
        let new = match start {
            Start::Replay(id) => return Ok(start_response(&self.load(&id), true)),
            Start::Create(new) => new,
        };
        self.count += 1;
        let id = new_run_id(7, self.count);
        let now = self.tick();
        match after_create(self.store.create_run(new, id, now), key) {
            Creation::Started(id) => {
                self.submit(&id, Event::RunStarted);
                Ok(start_response(&self.load(&id), false))
            }
            Creation::Replay(key) => {
                let owner = self.store.find_by_idempotency_key(&key);
                let id = after_duplicate(Ok(owner), key)?;
                Ok(start_response(&self.load(&id), true))
            }
            Creation::Failed(e) => Err(e),
        }
    }

    fn start_with(&mut self, flow_name: &str, inputs: &str, key: Option<&str>) -> String {
        self.request(StartFlowRequest {
            flow_name: flow_name.into(),
            version_req: None,
            inputs: json(inputs),
            trigger: JsonValue::Null,
            idempotency_key: key.map(String::from),
        })
        .unwrap()
        .run_id
    }

    fn start(&mut self, flow_name: &str, inputs: &str) -> String {
        self.start_with(flow_name, inputs, None)
    }

    fn status(&self, run_id: &str) -> RunStatus {
        let hooks: Vec<HookRunRecord> = self.store.list_hook_runs(run_id);
        get_run_status(&self.load(run_id), &hooks, &vec![])
    }

    fn ended(&mut self, run_id: &str) -> RunStatus {
        self.carry_on();
        self.status(run_id)
    }

    fn approve(&mut self, run_id: &str, comment: Option<&str>) -> Result<String, ApprovalError> {
        let record = self.load(run_id);
        let now = self.tick();
        let answer = approve_step(
            &record,
            ApproveRequest {
                run_id: run_id.into(),
                step_id: Some("plan".into()),
                comment: comment.map(String::from),
            },
            now,
        )?;
        self.apply(run_id, vec![answer.report]);
        self.submit(run_id, answer.event);
        Ok(answer.response.step_id)
    }

    fn reject(&mut self, run_id: &str, feedback: &str) -> Result<String, ApprovalError> {
        let record = self.load(run_id);
        let now = self.tick();
        let answer = reject_step(
            &record,
            RejectRequest {
                run_id: run_id.into(),
                step_id: Some("plan".into()),
                feedback: feedback.into(),
            },
            now,
        )?;
        self.apply(run_id, vec![answer.report]);
        self.submit(run_id, answer.event);
        Ok(answer.response.step_id)
    }

    /// What becomes of the platform's request to run a flow.
    fn trigger(&mut self, id: &str, doc: Vec<FlowDefinition>, inputs: &str) -> Disposal {
        let key = platform_key(id);
        let outcome = match self.store.find_by_idempotency_key(&key) {
            Some(run_id) => TriggerOutcome::AlreadyStarted(run_id),
            None => match parse_and_validate_flow_doc(doc) {
                Err(_) => TriggerOutcome::InvalidFlow,
                Ok(flow) => {
                    let start = start_flow_with_definition(
                        flow,
                        Ok(None),
                        json(inputs),
                        platform_trigger(id),
                        Some(key.clone()),
                    );
                    match start.and_then(|s| self.begin(s, Some(key))) {
                        Ok(response) => TriggerOutcome::Started(response.run_id),
                        Err(e) => TriggerOutcome::Refused(e),
                    }
                }
            },
        };
        handle_trigger_run(outcome)
    }

    fn tools(&self) -> Vec<&str> {
        self.starts.iter().map(|r| r.tool.as_str()).collect()
    }

    fn started_steps(&self) -> Vec<Option<String>> {
        self.starts
            .iter()
            .map(|r| match r.args.get("step") {
                Some(JsonValue::Text(t)) => Some(t.clone()),
                _ => None,
            })
            .collect()
    }
}

fn ok(value: &str) -> Vec<Script> {
    vec![Script::Succeed(json(value))]
}

fn latest(record: &RunRecord, step_id: &str) -> StepRecord {
    record.latest_of_step(step_id).unwrap().clone()
}

const MESSAGE: &str = r#"{"message": "add feature"}"#;

#[test]
fn linear_flow_completes() {
    let mut h = Harness::new(
        &[LINEAR],
        vec![("plan", ok("\"PLAN.md\"")), ("implement", ok("null"))],
    );
    let run_id = h.start("linear", MESSAGE);
    let status = h.ended(&run_id);
    assert_eq!(status.phase, "completed");

    let record = h.load(&run_id);
    assert!(record
        .latest_steps()
        .iter()
        .all(|s| s.run.status == StepStatus::Completed));
    assert_eq!(
        h.starts[1].args.to_text(),
        r#"{"cli":"agent","flow":"linear","input":"Implement PLAN.md","step":"implement"}"#
    );
    assert_eq!(h.starts[1].timeout_seconds, Some(3600));
}

#[test]
fn human_loop_approve_then_complete() {
    let mut h = Harness::new(
        &[HUMAN_LOOP],
        vec![("plan", ok("\"PLAN.md\"")), ("implement", ok("null"))],
    );
    let run_id = h.start("human-loop", MESSAGE);
    let status = h.ended(&run_id);
    // Should be paused at plan waiting approval.
    assert_eq!(status.phase, "running");
    assert_eq!(status.active_steps.len(), 1);
    assert_eq!(status.active_steps[0].step_id, "plan");

    let pending = pending_approvals(&h.store.runs_in_phase(RunPhase::Running));
    assert_eq!(pending.len(), 1);
    assert_eq!(pending[0].run_id, run_id);
    assert_eq!(pending[0].output, Some(json("\"PLAN.md\"")));

    h.approve(&run_id, Some("looks good")).unwrap();

    let status = h.ended(&run_id);
    assert_eq!(status.phase, "completed");
    let plan = latest(&h.load(&run_id), "plan");
    assert_eq!(plan.run.approval_comment.as_deref(), Some("looks good"));
}

#[test]
fn human_loop_reject_loops_with_feedback() {
    let mut h = Harness::new(
        &[HUMAN_LOOP],
        vec![("plan", ok("\"PLAN.md\"")), ("implement", ok("null"))],
    );
    let run_id = h.start("human-loop", MESSAGE);
    h.carry_on();
    h.reject(&run_id, "missing edge case").unwrap();

    // After rejection the plan step re-runs and pauses again.
    let status = h.ended(&run_id);
    assert_eq!(status.phase, "running");

    let plan = latest(&h.load(&run_id), "plan");
    assert_eq!(plan.run.attempt, 2);
    assert!(plan
        .run
        .input_resolved
        .as_ref()
        .unwrap()
        .contains("Feedback: missing edge case"));

    h.approve(&run_id, None).unwrap();
    let status = h.ended(&run_id);
    assert_eq!(status.phase, "completed");
    assert!(matches!(
        h.approve(&run_id, None),
        Err(ApprovalError::NotWaiting(step)) if step == "plan"
    ));
}

#[test]
fn fan_out_runs_branches_concurrently() {
    let mut h = Harness::new(
        &[FAN_OUT],
        vec![
            ("build", ok("\"ok\"")),
            ("unit-tests", ok("\"unit-ok\"")),
            ("integration-tests", ok("\"integ-ok\"")),
            ("lint", ok("\"lint-ok\"")),
            ("gate", ok("null")),
            ("report-failure", ok("null")),
        ],
    );
    let run_id = h.start("fan-out", "null");
    let status = h.ended(&run_id);
    assert_eq!(status.phase, "completed");
    let steps: Vec<String> = h.started_steps().into_iter().flatten().collect();
    assert_eq!(
        steps,
        vec!["build", "unit-tests", "integration-tests", "lint", "gate"],
        "every branch starts before the fan-in"
    );
    assert_eq!(
        h.starts[4].args.get("input"),
        Some(&JsonValue::Text("unit-ok lint-ok".into()))
    );
}

#[test]
fn fan_out_fail_fast_cancels_siblings() {
    let mut h = Harness::new(
        &[FAN_OUT],
        vec![
            ("build", ok("\"ok\"")),
            ("unit-tests", vec![Script::Fail("boom")]),
            ("integration-tests", vec![Script::Hang]),
            ("lint", vec![Script::Hang]),
            ("report-failure", ok("null")),
        ],
    );
    let run_id = h.start("fan-out", "null");
    let status = h.ended(&run_id);
    assert_eq!(status.phase, "failed");
    assert_eq!(h.cancelled.len(), 2);

    let record = h.load(&run_id);
    assert_eq!(
        latest(&record, "unit-tests").run.status,
        StepStatus::Failed
    );
    assert_eq!(
        latest(&record, "integration-tests").run.status,
        StepStatus::Cancelled
    );
    assert_eq!(latest(&record, "lint").run.status, StepStatus::Cancelled);

    // The step's own job failed: `failed_in` says so, and the details are kept.
    let unit_tests = status
        .steps
        .iter()
        .find(|s| s.step_id == "unit-tests")
        .expect("unit-tests step present");
    assert_eq!(unit_tests.failed_in.as_deref(), Some("step"));
    assert!(unit_tests.hooks.is_empty());
    let detail = unit_tests
        .failure
        .as_ref()
        .expect("failed step must carry structured detail");
    assert_eq!(detail.kind, "tool_error");
    assert_eq!(detail.exit_code, Some(1));
    assert_eq!(detail.stderr.as_deref(), Some("boom"));
}

#[test]
fn retries_run_before_on_failure() {
    let mut h = Harness::new(
        &[FAILURE_ROUTING],
        vec![
            (
                "implement",
                vec![
                    Script::Fail("attempt 1 failed"),
                    Script::Fail("attempt 2 failed"),
                    Script::Succeed(json("\"code\"")),
                ],
            ),
            ("test", ok("\"pass\"")),
        ],
    );
    let run_id = h.start("failure-routing", "null");
    let status = h.ended(&run_id);
    assert_eq!(status.phase, "completed");

    let implement = latest(&h.load(&run_id), "implement");
    assert_eq!(implement.run.attempt, 3);
    assert_eq!(implement.run.status, StepStatus::Completed);
}

#[test]
fn on_failure_routes_back_to_implement() {
    let mut h = Harness::new(
        &[FAILURE_ROUTING],
        vec![
            (
                "implement",
                vec![
                    Script::Succeed(json("\"code\"")),
                    Script::Succeed(json("\"code2\"")),
                ],
            ),
            (
                "test",
                vec![
                    Script::Fail("tests failed"),
                    Script::Succeed(json("\"pass\"")),
                ],
            ),
        ],
    );
    let run_id = h.start("failure-routing", "null");
    let status = h.ended(&run_id);
    assert_eq!(status.phase, "completed");

    let test = latest(&h.load(&run_id), "test");
    assert_eq!(test.run.attempt, 2);
    assert_eq!(test.run.status, StepStatus::Completed);
}

#[test]
fn run_timeout_cancels_active_step() {
    let mut h = Harness::new(&[RUN_TIMEOUT], vec![("hang", vec![Script::Hang])]);
    let run_id = h.start("run-timeout", "null");
    h.carry_on();
    let record = h.load(&run_id);
    assert_eq!(
        deadline_delay(&record, record.created_at),
        Some(1_000_000_000)
    );
    assert_eq!(deadline_delay(&record, record.created_at + 5_000_000_000), Some(0));
    h.submit(&run_id, Event::RunDeadlineExceeded);

    assert_eq!(h.status(&run_id).phase, "failed");
    let hang = latest(&h.load(&run_id), "hang");
    assert_eq!(hang.run.status, StepStatus::Cancelled);
}

#[test]
fn cancel_run_terminates() {
    let mut h = Harness::new(&[LINEAR], vec![("plan", vec![Script::Hang])]);
    let run_id = h.start("linear", MESSAGE);
    h.carry_on();
    h.submit(&run_id, Event::CancelRequested);
    let response = cancel_run(&h.load(&run_id));
    assert_eq!(response.phase, "cancelled");
    assert!(response.active_steps.is_empty());
    assert_eq!(h.status(&run_id).phase, "cancelled");
    assert_eq!(h.cancelled.len(), 1);
}

#[test]
fn concurrent_submits_serialize() {
    let mut h = Harness::new(
        &[HUMAN_LOOP],
        vec![("plan", ok("\"PLAN.md\"")), ("implement", ok("null"))],
    );
    let run_id = h.start("human-loop", MESSAGE);
    h.carry_on();
    for i in 0..10 {
        if i % 2 == 0 {
            h.submit(
                &run_id,
                Event::StepApproved {
                    step_id: "plan".into(),
                    comment: None,
                },
            );
        } else {
            h.submit(&run_id, Event::CancelRequested);
        }
    }
    let phase = flowspec::run::derive::phase(&h.load(&run_id).run_state());
    assert!(matches!(phase, RunPhase::Completed | RunPhase::Cancelled));
}

#[test]
fn recovery_reattaches_to_running_step() {
    let mut h = Harness::new(&[LINEAR], vec![("plan", ok("\"PLAN.md\""))]);
    let run_id = h.start("linear", MESSAGE);
    let job = h.jobs.pop().unwrap();
    let plan = recovery_plan(h.store.runs_in_phase(RunPhase::Running));
    assert_eq!(
        plan,
        vec![RecoveryAction::ReattachStep {
            run_id: run_id.clone(),
            step_id: "plan".into(),
            attempt: 1,
            job_id: job.job_id,
        }]
    );
    assert!(recovery_event(&plan[0]).is_none());
    let timeout = reattach(&h.load(&run_id), "plan", 1, &config()).unwrap();
    assert_eq!(timeout, Some(3600));
    let event = finish_reattached("plan", Ok(json("\"PLAN.md\"")));
    h.submit(&run_id, event);
    assert_eq!(h.ended(&run_id).phase, "completed");
    assert!(reattach(&h.load(&run_id), "ghost", 1, &config()).is_err());
}

#[test]
fn hooks_before_run_gates_entry_and_after_run_when_filters() {
    let mut h = Harness::new(&[HOOKS], vec![("build", ok("\"ok\""))]);
    let run_id = h.start("hooks", r#"{"message": "ship it"}"#);
    let status = h.ended(&run_id);
    assert_eq!(status.phase, "completed");
    assert_eq!(
        h.tools(),
        [
            "audit",
            "agent-run",
            "post-build",
            "agent-run",
            "notify-success",
            "notify-always"
        ],
        "before_run gates entry, after_step gates routing, after_run only fires matching when:"
    );
    let steps = h.started_steps();
    assert_eq!(steps[1].as_deref(), Some("build"));
    assert_eq!(steps[3].as_deref(), Some("validate"));
    assert_eq!(h.starts[0].args.to_text(), r#"{"note":"ship it"}"#);
}

#[test]
fn hooks_before_run_failure_fails_run_without_starting_entry() {
    let mut h = Harness::new(
        &[HOOKS_GATING_FAILURE],
        vec![
            ("gate", vec![Script::Fail("gate rejected")]),
            ("build", vec![Script::Hang]),
        ],
    );
    let run_id = h.start("hooks-gating-failure", r#"{"message": "go"}"#);
    let status = h.ended(&run_id);
    assert_eq!(status.phase, "failed");
    assert!(status.steps.is_empty(), "no step ever activated");

    assert_eq!(status.run_hooks.len(), 1);
    let gate = &status.run_hooks[0];
    assert_eq!(gate.hook, "gate");
    assert_eq!(gate.phase, "before_run");
    assert_eq!(gate.status, "failed");
    let failure = gate
        .failure
        .as_ref()
        .expect("failed hook must carry detail");
    assert_eq!(failure.kind, "tool_error");
    assert_eq!(failure.exit_code, Some(1));
    assert_eq!(failure.stderr.as_deref(), Some("gate rejected"));

    let hook_runs = h.store.list_hook_runs(&run_id);
    assert_eq!(hook_runs.len(), 1);
    assert!(hook_runs[0]
        .failure_reason
        .as_deref()
        .unwrap()
        .contains("gate rejected"));

    // Only the gating hook was ever started.
    assert!(h.tools().iter().all(|t| *t != "agent-run"));
    assert_eq!(h.starts.len(), 1);
}

#[test]
fn hooks_before_run_failure_with_always_continue_continues() {
    let mut h = Harness::new(
        &[HOOKS_ALWAYS_CONTINUE],
        vec![
            ("gate", vec![Script::Fail("non-fatal")]),
            ("build", ok("\"ok\"")),
        ],
    );
    let run_id = h.start("hooks-always-continue", r#"{"message": "go"}"#);
    let status = h.ended(&run_id);
    assert_eq!(status.phase, "completed");
    assert_eq!(h.tools(), ["gate", "agent-run"]);
    assert_eq!(h.started_steps()[1].as_deref(), Some("build"));
}

#[test]
fn hooks_after_step_failure_routes_step_failed() {
    let mut h = Harness::new(
        &[HOOKS],
        vec![
            ("build", ok("\"ok\"")),
            ("post-build", vec![Script::Fail("post-build asserts")]),
        ],
    );
    let run_id = h.start("hooks", r#"{"message": "ship it"}"#);
    let status = h.ended(&run_id);
    assert_eq!(status.phase, "failed");
    assert_eq!(
        h.tools(),
        [
            "audit",
            "agent-run",
            "post-build",
            "notify-failed",
            "notify-always"
        ],
        "after_step failure routes step failed and skips on_success targets"
    );
    assert!(!h
        .started_steps()
        .iter()
        .any(|s| s.as_deref() == Some("validate")));

    let build = status
        .steps
        .iter()
        .find(|s| s.step_id == "build")
        .expect("build step present");
    assert_eq!(build.status, "failed");
    assert_eq!(build.failed_in.as_deref(), Some("after_hook"));
    assert_eq!(build.hooks.len(), 1);
    assert_eq!(build.hooks[0].hook, "post-build");
    assert_eq!(build.hooks[0].status, "failed");
    assert_eq!(
        build.hooks[0].failure.as_ref().unwrap().stderr.as_deref(),
        Some("post-build asserts")
    );
}

#[test]
fn hooks_after_run_failure_is_audit_only_and_run_still_completes() {
    let mut h = Harness::new(
        &[HOOKS],
        vec![
            ("build", ok("\"ok\"")),
            ("notify-success", vec![Script::Fail("channel down")]),
        ],
    );
    let run_id = h.start("hooks", r#"{"message": "ship it"}"#);
    let status = h.ended(&run_id);
    assert_eq!(
        status.phase, "completed",
        "an after_run hook failure must not flip the run phase"
    );
    assert_eq!(
        h.tools(),
        [
            "audit",
            "agent-run",
            "post-build",
            "agent-run",
            "notify-success",
            "notify-always"
        ]
    );
    assert!(!h.tools().contains(&"notify-failed"));
}

#[test]
fn recovery_of_gating_hook_completes_run() {
    let mut h = Harness::new(
        &[HOOKS],
        vec![
            (
                "audit",
                vec![Script::Hang, Script::Succeed(JsonValue::Null)],
            ),
            ("build", ok("\"ok\"")),
        ],
    );
    let run_id = h.start("hooks", r#"{"message": "ship it"}"#);
    h.carry_on();
    assert_eq!(h.starts.len(), 1, "only the audit hook should have started");
    assert_eq!(h.status(&run_id).phase, "running");

    for action in recovery_plan(h.store.runs_in_phase(RunPhase::Running)) {
        let (id, event) = recovery_event(&action).unwrap();
        h.submit(&id, event);
    }
    assert_eq!(h.ended(&run_id).phase, "completed");
    assert!(h
        .started_steps()
        .iter()
        .any(|s| s.as_deref() == Some("build")));
    assert_eq!(h.tools().iter().filter(|t| **t == "audit").count(), 2);
}

#[test]
fn a_hook_whose_template_fails_is_recorded() {
    let mut h = Harness::new(&[HOOKS], vec![]);
    h.flows[0].inputs = IndexMap::new();
    let run_id = h.start("hooks", "{}");
    let status = h.ended(&run_id);
    assert_eq!(status.phase, "failed");
    assert!(h.starts.is_empty());
    assert_eq!(status.run_hooks[0].status, "failed");
    assert!(status.run_hooks[0].job_id.is_none());
}

// ---------------------------------------------------------------------------
// The outbox
// ---------------------------------------------------------------------------

#[test]
fn events_land_in_the_same_batch_and_sequence_is_contiguous() {
    let mut h = Harness::new(
        &[LINEAR],
        vec![("plan", ok("\"ok\"")), ("implement", ok("\"ok\""))],
    );
    let run_id = h.start("linear", r#"{"message": "go"}"#);
    h.carry_on();

    let mine: Vec<_> = h
        .store
        .unpushed_events(1000)
        .into_iter()
        .filter(|(id, _)| id == &run_id)
        .map(|(_, e)| e)
        .collect();
    assert!(!mine.is_empty(), "expected at least one outbox event");

    let mut sequences: Vec<u64> = mine.iter().map(|e| e.sequence).collect();
    sequences.sort_unstable();
    let expected: Vec<u64> = (1..=sequences.len() as u64).collect();
    assert_eq!(sequences, expected, "sequence must be contiguous per run");

    let by_seq: HashMap<u64, RunEventType> =
        mine.iter().map(|e| (e.sequence, e.event_type)).collect();
    assert_eq!(by_seq[&1], RunEventType::RunStarted);
    assert_eq!(
        by_seq[&(mine.len() as u64)],
        RunEventType::RunCompleted,
        "last event must be run_completed for a successful linear run"
    );

    h.store.mark_events_pushed(&run_id, mine.len() as u64);
    let remaining = h.store.unpushed_events(1000);
    assert!(
        remaining.iter().all(|(id, _)| id != &run_id),
        "all events should be marked pushed"
    );

    // Re-marking is a no-op.
    h.store.mark_events_pushed(&run_id, mine.len() as u64);
    assert!(h.store.unpushed_events(1000).is_empty());
}

#[test]
fn flow_run_snapshot_tracks_approve_and_reject_self_loop() {
    let mut h = Harness::new(
        &[HUMAN_LOOP],
        vec![("plan", ok("\"PLAN.md\"")), ("implement", ok("null"))],
    );
    let run_id = h.start_with("human-loop", MESSAGE, Some("platform:run_abc123"));
    h.carry_on();

    let snap = flow_run_snapshot(&h.load(&run_id));
    assert_eq!(snap.run_id, "run_abc123");
    assert_eq!(snap.phase, "running");
    let plan = snap.steps.iter().find(|s| s.step_id == "plan").unwrap();
    assert!(plan.human_loop);
    assert_eq!(plan.status, "waiting_approval");
    assert_eq!(plan.attempt, 1);

    // Reject with feedback -> self-loop, attempt 2.
    h.reject(&run_id, "missing edge case").unwrap();
    h.carry_on();

    let snap = flow_run_snapshot(&h.load(&run_id));
    let plan = snap.steps.iter().find(|s| s.step_id == "plan").unwrap();
    assert_eq!(plan.attempt, 2, "a second run of a step is its latest attempt");
    assert_eq!(plan.status, "waiting_approval");
    assert!(plan
        .input_resolved
        .as_deref()
        .unwrap_or("")
        .contains("missing edge case"));

    // Approve attempt 2 -> run completes.
    h.approve(&run_id, None).unwrap();
    h.carry_on();

    let snap = flow_run_snapshot(&h.load(&run_id));
    assert_eq!(snap.run_id, "run_abc123");
    assert_eq!(snap.phase, "completed");
    assert!(snap.completed_at.is_some());
    let implement = snap
        .steps
        .iter()
        .find(|s| s.step_id == "implement")
        .unwrap();
    assert_eq!(implement.status, "completed");
    assert!(!implement.human_loop);
}

// ---------------------------------------------------------------------------
// Questions
// ---------------------------------------------------------------------------

fn start_req(flow_name: &str, idempotency_key: Option<&str>) -> StartFlowRequest {
    StartFlowRequest {
        flow_name: flow_name.into(),
        version_req: None,
        inputs: json(MESSAGE),
        trigger: JsonValue::Null,
        idempotency_key: idempotency_key.map(|s| s.to_string()),
    }
}

#[test]
fn start_flow_with_same_idempotency_key_replays_the_run() {
    let mut h = Harness::new(
        &[LINEAR],
        vec![("plan", ok("\"PLAN.md\"")), ("implement", ok("null"))],
    );
    let first = h.request(start_req("linear", Some("key-1"))).unwrap();
    assert!(!first.replayed);
    assert_eq!(first.active_steps, vec!["plan"]);

    let second = h.request(start_req("linear", Some("key-1"))).unwrap();
    assert!(second.replayed);
    assert_eq!(second.run_id, first.run_id);

    let runs = h.store.list_runs(&RunFilter::default());
    assert_eq!(runs.len(), 1);
}

#[test]
fn requests_that_race_for_a_key_share_one_run() {
    let mut h = Harness::new(
        &[LINEAR],
        vec![("plan", ok("\"PLAN.md\"")), ("implement", ok("null"))],
    );
    // Both look the key up before either run is there.
    let one = start_flow(&h.flows, Ok(None), start_req("linear", Some("key-1"))).unwrap();
    let two = start_flow(&h.flows, Ok(None), start_req("linear", Some("key-1"))).unwrap();
    let first = h.begin(one, Some("key-1".into())).unwrap();
    h.carry_on();
    let starts = h.starts.len();
    let second = h.begin(two, Some("key-1".into())).unwrap();
    assert!(!first.replayed);
    assert!(second.replayed);
    assert_eq!(second.run_id, first.run_id);
    assert_eq!(h.store.list_runs(&RunFilter::default()).len(), 1);
    assert_eq!(h.starts.len(), starts, "the second request starts nothing");
}

#[test]
fn a_key_that_was_taken_is_answered_with_its_run() {
    assert_eq!(
        after_duplicate(Ok(Some("run_1".into())), "k".into()).unwrap(),
        "run_1"
    );
    assert!(matches!(
        after_duplicate(Ok(None), "k".into()),
        Err(StartFlowError::Store(StoreError::Duplicate(key))) if key == "k"
    ));
    assert!(matches!(
        after_duplicate(Err(StoreError::NotFound("r".into())), "k".into()),
        Err(StartFlowError::Store(StoreError::NotFound(_)))
    ));
}

#[test]
fn start_flow_with_different_keys_creates_distinct_runs() {
    let mut h = Harness::new(&[LINEAR], vec![("plan", ok("\"PLAN.md\""))]);
    let first = h.request(start_req("linear", Some("key-1"))).unwrap();
    let second = h.request(start_req("linear", Some("key-2"))).unwrap();
    assert_ne!(first.run_id, second.run_id);
    assert!(!second.replayed);
}

#[test]
fn start_flow_refuses_what_it_cannot_run() {
    let mut h = Harness::new(&[LINEAR], vec![]);
    let unknown = h.request(start_req("nope", None)).unwrap_err();
    assert_eq!(unknown.message(), "flow not found: nope");
    let mut without = start_req("linear", None);
    without.inputs = json(r#"{"message": null}"#);
    let missing = h.request(without).unwrap_err();
    assert_eq!(missing.message(), "missing required input(s): message");
    let down = start_flow(
        &h.flows,
        Err(StoreError::Backend("disk".into())),
        start_req("linear", Some("k")),
    );
    assert!(matches!(
        down,
        Err(StartFlowError::Store(StoreError::Backend(_)))
    ));
    let flows = list_flows(&h.flows);
    assert_eq!(flows[0].name, "linear");
    assert_eq!(flows[0].inputs[0].name, "message");
    assert!(flows[0].inputs[0].required);
}

#[test]
fn get_step_output_selects_latest_attempt_by_default_and_a_specific_one_when_asked() {
    let mut h = Harness::new(
        &[HUMAN_LOOP],
        vec![("plan", ok("\"PLAN.md\"")), ("implement", ok("null"))],
    );
    let run_id = h.request(start_req("human-loop", None)).unwrap().run_id;
    h.carry_on();

    // Reject once so "plan" gets a second attempt.
    h.reject(&run_id, "try again").unwrap();
    h.carry_on();

    let record = h.load(&run_id);
    let newest = get_step_output(&record, "plan", None).unwrap();
    assert_eq!(newest.attempt, 2);

    let first_attempt = get_step_output(&record, "plan", Some(1)).unwrap();
    assert_eq!(first_attempt.attempt, 1);
    assert_eq!(first_attempt.feedback.as_deref(), Some("try again"));

    let missing = get_step_output(&record, "plan", Some(99)).unwrap_err();
    assert!(matches!(missing, QueryError::AttemptNotFound(99, _)));

    let unknown_step = get_step_output(&record, "no-such-step", None).unwrap_err();
    assert!(matches!(unknown_step, QueryError::StepNotFound(_)));
}

#[test]
fn pending_approvals_run_id_filter_scopes_to_one_run() {
    let mut h = Harness::new(
        &[HUMAN_LOOP],
        vec![("plan", ok("\"PLAN.md\"")), ("implement", ok("null"))],
    );
    let run_a = h.request(start_req("human-loop", None)).unwrap().run_id;
    let run_b = h.request(start_req("human-loop", None)).unwrap().run_id;
    h.carry_on();

    let all = pending_approvals(&h.store.runs_in_phase(RunPhase::Running));
    assert_eq!(all.len(), 2);

    let scoped = pending_approvals(&vec![h.load(&run_a)]);
    assert_eq!(scoped.len(), 1);
    assert_eq!(scoped[0].run_id, run_a);
    assert_ne!(scoped[0].run_id, run_b);
}

#[test]
fn list_flows_returns_flow_with_declared_inputs() {
    let h = Harness::new(&[HUMAN_LOOP], vec![]);
    let flows = list_flows(&h.flows);
    assert_eq!(flows.len(), 1);
    assert_eq!(flows[0].name, "human-loop");
    assert_eq!(flows[0].inputs[0].name, "message");
    assert!(flows[0].inputs[0].required);
}

#[test]
fn start_flow_then_get_run_status_and_pending_approvals_and_get_step_output() {
    let mut h = Harness::new(
        &[HUMAN_LOOP],
        vec![("plan", ok("\"PLAN.md\"")), ("implement", ok("null"))],
    );
    let start = h.request(start_req("human-loop", Some("lifecycle-1"))).unwrap();
    assert!(!start.replayed);
    h.carry_on();

    let status = h.status(&start.run_id);
    assert_eq!(status.phase, "running");
    assert_eq!(status.active_steps[0].step_id, "plan");

    let waiting = pending_approvals(&vec![h.load(&start.run_id)]);
    assert_eq!(waiting.len(), 1);
    assert_eq!(waiting[0].step_id, "plan");

    h.approve(&start.run_id, Some("looks good")).unwrap();
    h.carry_on();

    let output = get_step_output(&h.load(&start.run_id), "plan", None).unwrap();
    assert_eq!(output.output, Some(json("\"PLAN.md\"")));
    assert_eq!(h.status(&start.run_id).phase, "completed");
}

#[test]
fn reject_step_records_feedback_and_reruns() {
    let mut h = Harness::new(
        &[HUMAN_LOOP],
        vec![("plan", ok("\"PLAN.md\"")), ("implement", ok("null"))],
    );
    let run_id = h.request(start_req("human-loop", None)).unwrap().run_id;
    h.carry_on();
    h.reject(&run_id, "missing edge case").unwrap();
    h.carry_on();
    let first = get_step_output(&h.load(&run_id), "plan", Some(1)).unwrap();
    assert_eq!(first.feedback.as_deref(), Some("missing edge case"));
}

#[test]
fn cancel_run_moves_run_to_cancelled() {
    let mut h = Harness::new(
        &[LINEAR],
        vec![("plan", ok("\"PLAN.md\"")), ("implement", ok("null"))],
    );
    let run_id = h.request(start_req("linear", None)).unwrap().run_id;
    h.submit(&run_id, Event::CancelRequested);
    assert_eq!(cancel_run(&h.load(&run_id)).phase, "cancelled");
}

#[test]
fn list_runs_filters_by_phase() {
    let mut h = Harness::new(
        &[LINEAR],
        vec![("plan", ok("\"PLAN.md\"")), ("implement", ok("null"))],
    );
    h.request(start_req("linear", None)).unwrap();
    let filter = |phase: Option<&str>| {
        list_runs(ListRunsRequest {
            flow_name: None,
            phase: phase.map(String::from),
            limit: None,
        })
        .unwrap()
    };
    assert_eq!(h.store.list_runs(&filter(None)).len(), 1);
    assert_eq!(h.store.list_runs(&filter(Some("failed"))).len(), 0);
}

#[test]
fn get_run_tree_returns_the_root_with_no_children_for_a_leaf_run() {
    let mut h = Harness::new(
        &[LINEAR],
        vec![("plan", ok("\"PLAN.md\"")), ("implement", ok("null"))],
    );
    let run_id = h.request(start_req("linear", None)).unwrap().run_id;
    let tree = get_run_tree(h.store.load_run_tree(&run_id)).unwrap();
    assert_eq!(tree.run_id, run_id);
    assert_eq!(tree.children.len(), 0);
}

#[test]
fn approve_a_non_waiting_step_returns_not_approvable() {
    let mut h = Harness::new(
        &[LINEAR],
        vec![("plan", ok("\"PLAN.md\"")), ("implement", ok("null"))],
    );
    let run_id = h.request(start_req("linear", None)).unwrap().run_id;
    let failure = ToolFailure::from(h.approve(&run_id, None).unwrap_err());
    assert_eq!(error_kind_str(failure.error_kind), "not_approvable");
    assert!(failure.message.contains("pending_approvals"));
}

#[test]
fn unknown_run_id_returns_run_not_found() {
    let h = Harness::new(&[], vec![]);
    let failure = ToolFailure::from(h.store.load_run("does-not-exist").unwrap_err());
    assert_eq!(error_kind_str(failure.error_kind), "run_not_found");
}

#[test]
fn get_run_status_on_unknown_run_is_a_run_not_found_error() {
    let h = Harness::new(&[HUMAN_LOOP], vec![]);
    let failure = ToolFailure::from(h.store.load_run("does-not-exist").unwrap_err());
    assert!(failure.message.contains("does-not-exist"));
}

#[test]
fn unknown_flow_returns_flow_not_found() {
    let mut h = Harness::new(&[], vec![]);
    let mut req = start_req("no-such-flow", None);
    req.inputs = json("{}");
    let failure = ToolFailure::from(h.request(req).unwrap_err());
    assert_eq!(error_kind_str(failure.error_kind), "flow_not_found");
}

#[test]
fn bad_phase_filter_returns_invalid_phase() {
    let refused = list_runs(ListRunsRequest {
        flow_name: None,
        phase: Some("not-a-phase".into()),
        limit: None,
    });
    let failure = ToolFailure::from(refused.unwrap_err());
    assert_eq!(error_kind_str(failure.error_kind), "invalid_phase");
    assert!(failure.message.contains("running"));
}

#[test]
fn start_flow_twice_with_same_key_replays_the_run() {
    let mut h = Harness::new(
        &[HUMAN_LOOP],
        vec![("plan", ok("\"PLAN.md\"")), ("implement", ok("null"))],
    );
    let first = h.request(start_req("human-loop", Some("same-key"))).unwrap();
    assert!(!first.replayed);
    let second = h.request(start_req("human-loop", Some("same-key"))).unwrap();
    assert!(second.replayed);
    assert_eq!(second.run_id, first.run_id);
}

#[test]
fn get_run_status_surfaces_a_failed_before_run_hook() {
    let mut h = Harness::new(
        &[HOOKS_GATING_FAILURE],
        vec![(
            "gate",
            vec![Script::Fail("PROVISIONER_PASSWORD env var is not set")],
        )],
    );
    let run_id = h.start_with(
        "hooks-gating-failure",
        r#"{"message": "go"}"#,
        Some("hook-failure-1"),
    );
    let status = h.ended(&run_id);
    assert_eq!(status.phase, "failed");
    assert_eq!(status.steps.len(), 0);
    assert_eq!(status.run_hooks.len(), 1);
    let gate = &status.run_hooks[0];
    assert_eq!(gate.hook, "gate");
    assert_eq!(gate.phase, "before_run");
    assert_eq!(gate.status, "failed");
    let failure = gate.failure.as_ref().unwrap();
    assert_eq!(failure.kind, "tool_error");
    assert_eq!(failure.exit_code, Some(1));
    assert_eq!(
        failure.stderr.as_deref(),
        Some("PROVISIONER_PASSWORD env var is not set")
    );
}

// ---------------------------------------------------------------------------
// The platform
// ---------------------------------------------------------------------------

fn both_ok() -> Vec<(&'static str, Vec<Script>)> {
    vec![("plan", ok("\"ok\"")), ("implement", ok("\"ok\""))]
}

#[test]
fn trigger_run_starts_a_run_and_acks_with_runtime_run_id() {
    let mut h = Harness::new(&[], both_ok());
    let done = h.trigger("run_platform_1", vec![flow(LINEAR)], r#"{"message": "go"}"#);
    let run_id = h
        .store
        .find_by_idempotency_key("platform:run_platform_1")
        .expect("run started with platform-prefixed idempotency key");
    assert!(matches!(done, Disposal::Acknowledge(Some(id)) if id == run_id));
    assert_eq!(h.load(&run_id).flow_name, "linear");
}

#[test]
fn redelivered_trigger_run_replays_instead_of_double_starting() {
    let mut h = Harness::new(&[], both_ok());
    h.trigger("run_dup", vec![flow(LINEAR)], r#"{"message": "go"}"#);
    let first = h.store.find_by_idempotency_key("platform:run_dup").unwrap();
    let done = h.trigger("run_dup", vec![flow(LINEAR)], r#"{"message": "go"}"#);
    assert!(matches!(done, Disposal::Acknowledge(Some(id)) if id == first));
    let second = h.store.find_by_idempotency_key("platform:run_dup").unwrap();
    assert_eq!(first, second, "the same run, not a second one");
    assert_eq!(h.store.list_runs(&RunFilter::default()).len(), 1);
}

#[test]
fn invalid_flow_doc_deletes_the_action() {
    let mut h = Harness::new(&[], vec![]);
    let doc = flow(r#"{"name": "bad", "version": "1.0.0", "steps": []}"#);
    assert!(matches!(h.trigger("run_bad", vec![doc], "{}"), Disposal::Delete));
}

#[test]
fn approve_before_waiting_is_left_pending_not_deleted() {
    let mut h = Harness::new(&[HUMAN_LOOP], vec![("plan", vec![Script::Hang])]);
    // No run has this platform id: nothing will ever make the action due.
    let owner = h
        .store
        .find_by_idempotency_key(&platform_key("run_never_started"));
    assert!(owner.is_none());
    assert!(matches!(handle_approve_reject(None), Disposal::Delete));
    // A run whose step is still at work leaves the action for later.
    let run_id = h.start("human-loop", MESSAGE);
    let answer = h.approve(&run_id, None).map(|_| ());
    assert!(matches!(
        handle_approve_reject(Some(answer)),
        Disposal::Leave
    ));
}

#[test]
fn pump_pushes_events_then_state_and_drains_the_outbox() {
    let mut h = Harness::new(&[LINEAR], both_ok());
    let run_id = h.start_with("linear", r#"{"message": "go"}"#, Some("platform:run_pump_1"));
    h.carry_on();
    let groups = group_by_run(&h.store.unpushed_events(100));
    assert_eq!(groups.len(), 1);
    let record = h.load(&groups[0].0);
    let first = begin_pump(record.idempotency_key.as_deref());
    assert!(matches!(&first, PumpState::PushEvents(id) if id == "run_pump_1"));
    assert!(push_events(&groups[0].1).is_some());
    let second = advance_pump(first, true);
    assert!(matches!(&second, PumpState::PushState(id) if id == "run_pump_1"));
    let state = flow_run_snapshot(&record);
    assert_eq!(state.phase, "completed");
    assert_eq!(state.run_id, "run_pump_1");
    assert!(matches!(advance_pump(second, true), PumpState::Mark));
    let through = highest_sequence(&groups[0].1).unwrap();
    h.store.mark_events_pushed(&groups[0].0, through);
    let remaining = h.store.unpushed_events(1000);
    assert!(remaining.iter().all(|(id, _)| id != &run_id));
}

#[test]
fn platform_shaped_flow_doc_parses_and_validates() {
    let doc = flow(
        r#"{
          "name": "feature-development", "version": "1.0.0",
          "description": "Full feature lifecycle: plan, review, implement, test",
          "inputs": {"message": {"type": "string", "required": true, "description": "Feature description"}},
          "steps": [
            {"id": "plan", "type": "cli",
             "with": {"cli": "gemini-cli", "input": "{{ inputs.message }}", "output": "PLAN.md"},
             "on_success": "implement"},
            {"id": "implement", "type": "cli",
             "with": {"cli": "agent", "input": "PLAN.md", "output": "worktree"},
             "needs": ["plan"], "on_success": "done"}
          ]}"#,
    );
    assert!(parse_and_validate_flow_doc(vec![doc]).is_ok());
}

#[test]
fn flow_doc_with_missing_step_input_is_rejected_not_panicking() {
    let doc = flow(
        r#"{
          "name": "broken", "version": "1.0.0",
          "steps": [{"id": "plan", "type": "cli", "with": {"cli": "gemini-cli"}}]}"#,
    );
    assert!(parse_and_validate_flow_doc(vec![doc]).is_err());
}

// ---------------------------------------------------------------------------
// Runs that are read back from their rows
// ---------------------------------------------------------------------------

fn running_step(step_id: &str, attempt: u32, job_id: Option<&str>) -> StepRecord {
    StepRecord {
        run: StepRun {
            step_id: step_id.into(),
            status: StepStatus::Running,
            attempt,
            started_at: Some(1_000_000_000_000),
            completed_at: None,
            input_resolved: Some("do it".into()),
            output: None,
            approval_status: None,
            feedback: None,
            approval_comment: None,
            failure_reason: None,
            child_run_id: None,
        },
        job_id: job_id.map(|s| s.into()),
        with_resolved: Some(json(r#"{"cli": "agent"}"#)),
        failure_detail: None,
    }
}

fn created(h: &mut Harness, source: &str, idem: Option<&str>, writes: Vec<Mutation>) -> String {
    let definition = flow(source);
    let new = NewRun {
        flow_name: definition.name.clone(),
        flow_version: definition.version.clone(),
        definition,
        inputs: json(r#"{"message": "test input"}"#),
        trigger: json(r#"{"user": "ci"}"#),
        idempotency_key: idem.map(|s| s.into()),
    };
    h.count += 1;
    let id = new_run_id(7, h.count);
    let now = h.tick();
    let run_id = h.store.create_run(new, id, now).unwrap();
    h.apply(&run_id, writes);
    run_id
}

/// The run as it is read from the rows that are written for it.
fn reopened(record: &RunRecord) -> RunRecord {
    let new = NewRun {
        flow_name: record.flow_name.clone(),
        flow_version: record.flow_version.clone(),
        definition: record.definition.clone(),
        inputs: record.inputs.clone(),
        trigger: record.trigger.clone(),
        idempotency_key: record.idempotency_key.clone(),
    };
    let mut row = new_run_row(&new, record.created_at);
    match row_change(Mutation::SetRunPhase(record.phase)) {
        RowChange::UpdateRun(mut updates) => match updates.remove(0).cell {
            Cell::Text(t) => row.phase = t,
            other => panic!("not a phase: {other:?}"),
        },
        other => panic!("not an update of a run: {other:?}"),
    }
    let mut steps: Vec<StepRow> = record
        .steps
        .iter()
        .map(|s| match row_change(Mutation::InsertStepRun(s.clone())) {
            RowChange::PutStep(row) => row,
            other => panic!("not the row of a step: {other:?}"),
        })
        .collect();
    steps.sort_by(|a, b| (&a.step_id, a.attempt).cmp(&(&b.step_id, b.attempt)));
    read_run(&record.run_id, row, &steps).unwrap()
}

fn round_trip_at_state(source: &str, writes: Vec<Mutation>) -> (String, Vec<RecoveryAction>) {
    let mut h = Harness::new(&[], vec![]);
    let run_id = created(&mut h, source, None, writes);
    let loaded = reopened(&h.load(&run_id));
    assert_eq!(loaded.run_id, run_id);
    assert_eq!(loaded.flow_name, flow(source).name);
    let running: Vec<RunRecord> = h
        .store
        .runs_in_phase(RunPhase::Running)
        .iter()
        .map(reopened)
        .collect();
    (run_id, recovery_plan(running))
}

#[test]
fn linear_started_round_trips_and_has_no_recovery_actions() {
    let (run_id, actions) = round_trip_at_state(LINEAR, vec![]);
    assert_eq!(actions, vec![RecoveryAction::ReissueRunStarted { run_id }]);
}

#[test]
fn linear_mid_step_round_trips_and_reattaches() {
    let (run_id, actions) = round_trip_at_state(
        LINEAR,
        vec![Mutation::InsertStepRun(running_step(
            "plan",
            1,
            Some("job_plan"),
        ))],
    );
    assert_eq!(
        actions,
        vec![RecoveryAction::ReattachStep {
            run_id,
            step_id: "plan".into(),
            attempt: 1,
            job_id: "job_plan".into(),
        }]
    );
}

#[test]
fn linear_terminal_completed_round_trips_with_no_recovery() {
    let mut h = Harness::new(&[], vec![]);
    let run_id = created(
        &mut h,
        LINEAR,
        None,
        vec![Mutation::SetRunPhase(RunPhase::Completed)],
    );
    assert_eq!(reopened(&h.load(&run_id)).phase, RunPhase::Completed);
    assert!(h.store.runs_in_phase(RunPhase::Running).is_empty());
}

#[test]
fn human_loop_waiting_approval_round_trips() {
    let mut step = running_step("plan", 1, None);
    step.run.status = StepStatus::WaitingApproval;
    let (run_id, actions) = round_trip_at_state(HUMAN_LOOP, vec![Mutation::InsertStepRun(step)]);
    assert_eq!(
        actions,
        vec![RecoveryAction::LeaveWaitingApproval {
            run_id,
            step_id: "plan".into(),
            attempt: 1,
        }]
    );
}

#[test]
fn fan_out_multiple_running_steps_round_trips() {
    let (run_id, actions) = round_trip_at_state(
        FAN_OUT,
        vec![
            Mutation::InsertStepRun(running_step("build", 1, Some("job_build"))),
            Mutation::InsertStepRun(running_step("unit-tests", 1, Some("job_unit"))),
            Mutation::InsertStepRun(running_step("integration-tests", 1, None)),
        ],
    );
    assert_eq!(
        actions,
        vec![
            RecoveryAction::ReattachStep {
                run_id: run_id.clone(),
                step_id: "build".into(),
                attempt: 1,
                job_id: "job_build".into(),
            },
            RecoveryAction::FailStep {
                run_id: run_id.clone(),
                step_id: "integration-tests".into(),
                attempt: 1,
                reason: RecoveryReason::Interrupted,
            },
            RecoveryAction::ReattachStep {
                run_id,
                step_id: "unit-tests".into(),
                attempt: 1,
                job_id: "job_unit".into(),
            },
        ]
    );
}

#[test]
fn failure_routing_terminal_failed_round_trips() {
    let mut h = Harness::new(&[], vec![]);
    let run_id = created(
        &mut h,
        FAILURE_ROUTING,
        None,
        vec![
            Mutation::InsertStepRun(running_step("implement", 1, None)),
            Mutation::SetRunPhase(RunPhase::Failed),
        ],
    );
    assert_eq!(reopened(&h.load(&run_id)).phase, RunPhase::Failed);
}

#[test]
fn atomicity_invalid_mutation_leaves_db_untouched() {
    let mut h = Harness::new(&[], vec![]);
    let run_id = created(&mut h, LINEAR, None, vec![]);
    let now = h.now;
    let err = h
        .store
        .apply(
            &run_id,
            vec![
                Mutation::InsertStepRun(running_step("plan", 1, Some("job_1"))),
                Mutation::SetStepStatus {
                    step_id: "does-not-exist".into(),
                    attempt: 1,
                    status: StepStatus::Completed,
                },
            ],
            now,
        )
        .unwrap_err();
    assert!(matches!(err, StoreError::NotFound(_)));
    assert!(h.load(&run_id).steps.is_empty());
}

#[test]
fn state_roundtrip_find_by_idempotency_key_finds_the_owning_run() {
    let mut h = Harness::new(&[], vec![]);
    let run_id = created(&mut h, LINEAR, Some("idem-1"), vec![]);
    assert_eq!(h.store.find_by_idempotency_key("idem-1"), Some(run_id));
    assert_eq!(h.store.find_by_idempotency_key("no-such-key"), None);
}

#[test]
fn feedback_is_handed_back_verbatim() {
    for feedback in ["wrap names in {{ }}", "use {{ inputs.message }} here", "{{ nope"] {
        let mut h = Harness::new(
            &[HUMAN_LOOP],
            vec![("plan", ok("\"PLAN.md\"")), ("implement", ok("null"))],
        );
        let run_id = h.start("human-loop", MESSAGE);
        h.carry_on();
        h.reject(&run_id, feedback).unwrap();
        assert!(h.errors.is_empty());
        assert_eq!(h.starts.len(), 2);
        let expected = format!("Plan: add feature\n\nFeedback: {feedback}");
        assert_eq!(
            h.starts[1].args.get("input"),
            Some(&JsonValue::Text(expected.clone()))
        );
        let plan = latest(&h.load(&run_id), "plan");
        assert_eq!(plan.run.attempt, 2);
        assert_eq!(plan.run.input_resolved, Some(expected));
        // A job that is found again after a restart is no reason to read the
        // input once more.
        assert!(matches!(
            reattach(&h.load(&run_id), "plan", 2, &config()),
            Ok(Some(3600))
        ));
    }
}

#[test]
fn outputs_with_spans_reach_the_next_step_as_they_are() {
    let mut h = Harness::new(
        &[LINEAR],
        vec![("plan", ok("\"see {{ x }}\"")), ("implement", ok("null"))],
    );
    let run_id = h.start("linear", MESSAGE);
    assert_eq!(h.ended(&run_id).phase, "completed");
    assert_eq!(
        h.starts[1].args.get("input"),
        Some(&json("\"Implement see {{ x }}\""))
    );
}

#[test]
fn the_status_lists_pending_running_and_waiting_steps() {
    let mut h = Harness::new(&[], vec![]);
    let mut pending = running_step("a", 1, None);
    pending.run.status = StepStatus::Pending;
    let mut waiting = running_step("c", 1, None);
    waiting.run.status = StepStatus::WaitingApproval;
    let mut done = running_step("d", 1, None);
    done.run.status = StepStatus::Completed;
    let run_id = created(
        &mut h,
        LINEAR,
        None,
        vec![
            Mutation::InsertStepRun(pending),
            Mutation::InsertStepRun(running_step("b", 1, None)),
            Mutation::InsertStepRun(waiting),
            Mutation::InsertStepRun(done),
        ],
    );
    let status = h.status(&run_id);
    let shown: Vec<(&str, &str)> = status
        .active_steps
        .iter()
        .map(|s| (s.step_id.as_str(), s.status.as_str()))
        .collect();
    assert_eq!(
        shown,
        vec![("a", "pending"), ("b", "running"), ("c", "waiting_approval")]
    );
}

#[test]
fn a_job_is_waited_for_only_with_a_stored_handle() {
    let refused = DevkitdError::Unreachable;
    match job_started("plan", 2, Err(refused)) {
        JobStep::Finish { writes, event } => {
            assert!(matches!(
                &writes[..],
                [Mutation::SetStepFailureDetail { step_id, attempt: 2, .. }] if step_id == "plan"
            ));
            assert!(matches!(
                event,
                Event::StepFailed { reason, .. } if reason.starts_with("start failed: ")
            ));
        }
        other => panic!("a job that did not start has ended: {other:?}"),
    }
    let handle = match job_started("plan", 2, Ok(JobHandle("job-1".into()))) {
        JobStep::Store { handle, writes } => {
            assert!(matches!(
                &writes[..],
                [Mutation::SetJobId { step_id, attempt: 2, job_id: Some(id) }]
                    if step_id == "plan" && id == "job-1"
            ));
            handle
        }
        other => panic!("an accepted job is stored first: {other:?}"),
    };
    match handle_stored("plan", 2, handle, false, 0, Some(5), 1) {
        JobStep::Finish { writes, event } => {
            assert!(writes.is_empty());
            assert!(matches!(
                event,
                Event::StepFailed { reason, .. } if reason == "failed to persist job_id"
            ));
        }
        other => panic!("a job without a stored handle is given up: {other:?}"),
    }
    assert!(is_deadline_countable(0, Some(u64::MAX), u64::MAX));
    assert!(!is_deadline_countable(i128::MAX, Some(1), 0));
    assert!(is_deadline_countable(i128::MAX, None, 0));
}

#[test]
fn a_scheduler_that_was_shut_down_takes_no_event() {
    let mut h = Harness::new(&[LINEAR], vec![("plan", vec![Script::Hang])]);
    let run_id = h.start("linear", MESSAGE);
    let record = h.load(&run_id);
    let turn = submit(true, &record, &Event::CancelRequested, 5, &config());
    assert!(turn.plan.actions.is_empty() && turn.plan.follow_ons.is_empty());
    assert!(turn.plan.error.is_none() && turn.hooks.is_none());
    let turn = submit(false, &record, &Event::CancelRequested, 5, &config());
    assert!(!turn.plan.actions.is_empty());
    assert!(is_delay_countable(&record, 5));
}
