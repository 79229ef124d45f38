//! Constraints on the single fields of a flow definition.
use super::types::{FlowDefinition, FlowModel, StepModel};
use crate::copy::lemma_push;
use crate::text::{cat3, cat5, chars_of, parse_unsigned, trim, trimmed, unsigned_value};
use vstd::prelude::*;
use vstd::slice::slice_subrange;

verus! {

/// A field that breaks a constraint.
#[derive(Debug, PartialEq, Eq)]
pub struct FieldViolation {
    pub rule: &'static str,
    pub step: Option<String>,
    pub message: String,
}

/// What a violation denotes.
#[verifier::ext_equal]
pub struct ViolationModel {
    pub rule: Seq<char>,
    pub step: Option<Seq<char>>,
    pub message: Seq<char>,
}

impl View for FieldViolation {
    type V = ViolationModel;

    open spec fn view(&self) -> ViolationModel {
        ViolationModel {
            rule: self.rule@,
            step: self.step.deep_view(),
            message: self.message@,
        }
    }
}

impl DeepView for FieldViolation {
    type V = ViolationModel;

    open spec fn deep_view(&self) -> ViolationModel {
        self@
    }
}

/// Whether `c` may stand in a step id.
pub open spec fn is_id_char(c: char) -> bool {
    'a' <= c <= 'z' || '0' <= c <= '9' || c == '-' || c == '_'
}

/// Whether `id` is a step id: not empty, and lower-case letters, digits, `-`
/// and `_` only.
pub open spec fn valid_id(id: Seq<char>) -> bool {
    id.len() > 0 && forall|i: int| 0 <= i < id.len() ==> is_id_char(#[trigger] id[i])
}

/// Whether `id` is a step id.
pub fn is_valid_id(id: &str) -> (r: bool)
    ensures
        r == valid_id(id@),
{
    let chars = chars_of(id);
    let mut i: usize = 0;
    while i < chars.len()
        invariant
            i <= chars@.len(),
            chars@ == id@,
            forall|j: int| 0 <= j < i ==> is_id_char(#[trigger] chars@[j]),
        decreases chars@.len() - i,
    {
        let c = chars[i];
        if !(('a' <= c && c <= 'z') || ('0' <= c && c <= '9') || c == '-' || c == '_') {
            proof {
                assert(!is_id_char(id@[i as int]));
            }
            return false;
        }
        i = i + 1;
    }
    chars.len() > 0
}

/// `n` units in seconds; none where the unit is unknown or the seconds do not
/// fit a `u64`.
pub open spec fn in_seconds(n: nat, unit: char) -> Option<nat> {
    if unit == 's' {
        fitting_seconds(n)
    } else if unit == 'm' {
        fitting_seconds(n * 60)
    } else if unit == 'h' {
        fitting_seconds(n * 3600)
    } else {
        None
    }
}

/// `n`, as far as it fits a `u64`.
pub open spec fn fitting_seconds(n: nat) -> Option<nat> {
    if n <= u64::MAX {
        Some(n)
    } else {
        None
    }
}

/// The seconds that a duration text denotes: a number and one of the units
/// `s`, `m` and `h`, with white space around it.
pub open spec fn duration_of(s: Seq<char>) -> Option<nat> {
    let t = trimmed(s);
    if t.len() == 0 {
        None
    } else {
        match unsigned_value(t.drop_last()) {
            Some(n) => in_seconds(n as nat, t.last()),
            None => None,
        }
    }
}

/// Reads a duration such as `10m`, `1h` or `45s`, in seconds.
pub fn parse_duration(s: &str) -> (r: Option<u64>)
    ensures
        match r {
            Some(n) => duration_of(s@) == Some(n as nat),
            None => duration_of(s@) is None,
        },
{
    let chars = chars_of(s);
    let t = trim(chars.as_slice());
    if t.len() == 0 {
        return None;
    }
    let num = slice_subrange(t, 0, t.len() - 1);
    let unit = t[t.len() - 1];
    proof {
        assert(num@ =~= trimmed(s@).drop_last());
    }
    match parse_unsigned(num) {
        None => None,
        Some(n) => {
            if unit == 's' {
                Some(n)
            } else if unit == 'm' {
                n.checked_mul(60)
            } else if unit == 'h' {
                n.checked_mul(3600)
            } else {
                None
            }
        },
    }
}

/// The violation of a step with an invalid id.
pub open spec fn id_violation(id: Seq<char>) -> ViolationModel {
    ViolationModel {
        rule: "valid_step_id"@,
        step: Some(id),
        message: "step id '"@ + id + "' must match [a-z0-9_-]+"@,
    }
}

/// The violation of a step whose timeout is no duration.
pub open spec fn step_timeout_violation(id: Seq<char>, timeout: Seq<char>) -> ViolationModel {
    ViolationModel {
        rule: "valid_duration"@,
        step: Some(id),
        message: "step '"@ + id + "' has invalid timeout '"@ + timeout + "'"@,
    }
}

/// The violations in the fields of one step.
pub open spec fn step_field_violations(step: StepModel) -> Seq<ViolationModel> {
    (if valid_id(step.id) {
        Seq::empty()
    } else {
        seq![id_violation(step.id)]
    }) + (match step.timeout {
        Some(t) => if duration_of(t) is None {
            seq![step_timeout_violation(step.id, t)]
        } else {
            Seq::empty()
        },
        None => Seq::empty(),
    })
}

/// The violations in the fields of several steps.
pub open spec fn steps_field_violations(steps: Seq<StepModel>) -> Seq<ViolationModel>
    decreases steps.len(),
{
    if steps.len() == 0 {
        Seq::empty()
    } else {
        steps_field_violations(steps.drop_last()) + step_field_violations(steps.last())
    }
}

/// The violation of a flow without steps.
pub open spec fn no_steps_violation() -> ViolationModel {
    ViolationModel {
        rule: "non_empty_steps"@,
        step: None,
        message: "flow must declare at least one step"@,
    }
}

/// The violation of a flow whose timeout is no duration.
pub open spec fn flow_timeout_violation(timeout: Seq<char>) -> ViolationModel {
    ViolationModel {
        rule: "valid_duration"@,
        step: None,
        message: "flow timeout '"@ + timeout + "' is invalid"@,
    }
}

/// The violations in the fields of a flow: an empty step list, then step by
/// step invalid ids and timeouts, then the flow's own timeout.
pub open spec fn field_violations(flow: FlowModel) -> Seq<ViolationModel> {
    (if flow.steps.len() == 0 {
        seq![no_steps_violation()]
    } else {
        Seq::empty()
    }) + steps_field_violations(flow.steps) + (match flow.timeout {
        Some(t) => if duration_of(t) is None {
            seq![flow_timeout_violation(t)]
        } else {
            Seq::empty()
        },
        None => Seq::empty(),
    })
}

/// Checks the fields of a flow: at least one step, well-formed ids, durations
/// that can be parsed. The rules on routing stand in `validate`.
pub fn validate_fields(flow: &FlowDefinition) -> (r: Vec<FieldViolation>)
    ensures
        r.deep_view() == field_violations(flow@),
{
    let mut out: Vec<FieldViolation> = Vec::new();
    if flow.steps.len() == 0 {
        out.push(
            FieldViolation {
                rule: "non_empty_steps",
                step: None,
                message: "flow must declare at least one step".to_owned(),
            },
        );
    }
    let ghost head = out.deep_view();
    let ghost all = flow@.steps;
    proof {
        assert(head =~= if flow@.steps.len() == 0 {
            seq![no_steps_violation()]
        } else {
            Seq::empty()
        });
        assert(head + steps_field_violations(all.take(0)) =~= head);
    }
    let mut i: usize = 0;
    while i < flow.steps.len()
        invariant
            i <= flow.steps@.len(),
            all == flow@.steps,
            all == flow.steps.deep_view(),
            out.deep_view() == head + steps_field_violations(all.take(i as int)),
        decreases flow.steps@.len() - i,
    {
        let step = &flow.steps[i];
        let ghost before = out.deep_view();
        proof {
            assert(all.take(i + 1).drop_last() =~= all.take(i as int));
            assert(all[i as int] == step@);
        }
        if !is_valid_id(step.id.as_str()) {
            let ghost prior = out;
            let found = FieldViolation {
                rule: "valid_step_id",
                step: Some(step.id.clone()),
                message: cat3("step id '", step.id.as_str(), "' must match [a-z0-9_-]+"),
            };
            out.push(found);
            proof {
                lemma_push(prior, out, found);
                assert(found@ == id_violation(step.id@));
            }
        }
        match &step.timeout {
            Some(timeout) => {
                if parse_duration(timeout.as_str()).is_none() {
                    let ghost prior = out;
                    let found = FieldViolation {
                        rule: "valid_duration",
                        step: Some(step.id.clone()),
                        message: cat5(
                            "step '",
                            step.id.as_str(),
                            "' has invalid timeout '",
                            timeout.as_str(),
                            "'",
                        ),
                    };
                    out.push(found);
                    proof {
                        lemma_push(prior, out, found);
                        assert(found@ == step_timeout_violation(step.id@, timeout@));
                    }
                }
            },
            None => {},
        }
        proof {
            assert(out.deep_view() =~= before + step_field_violations(step@));
            assert(head + steps_field_violations(all.take(i + 1)) =~= head
                + steps_field_violations(all.take(i as int)) + step_field_violations(step@));
        }
        i = i + 1;
    }
    proof {
        assert(all.take(i as int) =~= all);
    }
    let ghost body = out.deep_view();
    match &flow.timeout {
        Some(timeout) => {
            if parse_duration(timeout.as_str()).is_none() {
                let ghost prior = out;
                let found = FieldViolation {
                    rule: "valid_duration",
                    step: None,
                    message: cat3("flow timeout '", timeout.as_str(), "' is invalid"),
                };
                out.push(found);
                proof {
                    lemma_push(prior, out, found);
                    assert(found@ == flow_timeout_violation(timeout@));
                }
            }
        },
        None => {},
    }
    proof {
        assert(out.deep_view() =~= field_violations(flow@));
    }
    out
}

} // verus!
