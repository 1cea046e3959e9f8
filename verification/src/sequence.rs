use std::time::Duration;
use vstd::prelude::*;

use crate::config::{DataBits, FlowControl, Parity, SerialSettings, StopBits};
use crate::outside::{debug_text, io_error_text, duration_as_millis, duration_nanos, duration_subsec_nanos, durations_equal};
use crate::text::{decimal, push_decimal};
use crate::step::{
    child_steps, lemma_preorder_append, lemma_preorder_single, preorder, reports_first_issue,
    steps_valid, validate_steps, InvalidStepId, Step, StepId, StepKind, ValidationError,
};

verus! {

/// The only Sequence file version.
pub const SEQUENCE_VERSION: u64 = 1;

/// Line settings stored in a Sequence; it names no port.
#[derive(Debug, PartialEq, Eq)]
pub struct SequenceSerialConfig {
    pub baud_rate: u32,
    pub data_bits: DataBits,
    pub parity: Parity,
    pub stop_bits: StopBits,
    pub flow_control: FlowControl,
    pub timeout: Duration,
}

#[derive(Debug, PartialEq, Eq)]
pub struct Sequence {
    pub sequence_version: u64,
    pub serial: SequenceSerialConfig,
    pub steps: Vec<Step>,
}

#[derive(Debug)]
#[allow(inconsistent_fields)]
pub enum SequenceError {
    Io(std::io::Error),
    Json(String),
    InvalidVersion,
    UnsupportedVersion(u64),
    InvalidSerial(&'static str),
    InvalidStepId(InvalidStepId),
    InvalidHex { step_id: String, field: &'static str },
    EmptySteps,
    StepValidation(ValidationError),
    InvalidDuration { step_id: StepId },
    Serialization(String),
}

/// A duration as whole milliseconds, when it has no sub-millisecond part and the count
/// fits in a `u64`.
pub open spec fn exact_millis(duration: Duration) -> Option<u64> {
    let nanos = duration_nanos(duration);
    if 0 <= nanos && nanos % 1_000_000 == 0 && nanos / 1_000_000 <= u64::MAX {
        Some((nanos / 1_000_000) as u64)
    } else {
        None
    }
}

pub fn duration_ms(duration: Duration) -> (result: Result<u64, ()>)
    ensures
        match exact_millis(duration) {
            Some(ms) => result == Ok::<u64, ()>(ms),
            None => result is Err,
        },
{
    let sub = duration_subsec_nanos(&duration);
    let millis = duration_as_millis(&duration);
    proof {
        let n = duration_nanos(duration);
        assert(n >= 0) by {
            assert(millis >= 0);
            assert(millis == n / 1_000_000);
        }
        vstd::arithmetic::div_mod::lemma_mod_mod(n, 1_000_000, 1_000);
        assert(1_000_000int * 1_000 == 1_000_000_000);
    }
    if sub % 1_000_000 != 0 {
        return Err(());
    }
    if millis > u64::MAX as u128 {
        return Err(());
    }
    Ok(millis as u64)
}

pub open spec fn serial_config_issue(config: SequenceSerialConfig) -> Option<&'static str> {
    if config.baud_rate == 0 {
        Some("baud_rate must be nonzero")
    } else if exact_millis(config.timeout) is None {
        Some("timeout must be representable as u64 milliseconds")
    } else {
        None
    }
}

impl SequenceSerialConfig {
    /// The line settings are exactly those of `settings`, whatever its port.
    pub open spec fn settings_match(&self, settings: SerialSettings) -> bool {
        &&& self.baud_rate == settings.baud_rate
        &&& self.data_bits == settings.data_bits
        &&& self.parity == settings.parity
        &&& self.stop_bits == settings.stop_bits
        &&& self.flow_control == settings.flow_control
        &&& duration_nanos(self.timeout) == duration_nanos(settings.timeout)
    }

    pub fn matches_serial_settings(&self, settings: &SerialSettings) -> (matches: bool)
        ensures
            matches == self.settings_match(*settings),
    {
        self.baud_rate == settings.baud_rate && self.data_bits == settings.data_bits
            && self.parity == settings.parity && self.stop_bits == settings.stop_bits
            && self.flow_control == settings.flow_control && durations_equal(
            &self.timeout,
            &settings.timeout,
        )
    }

    pub fn serial_settings_for_port(&self, port: &str) -> (settings: SerialSettings)
        ensures
            settings.port@ == port@,
            settings.baud_rate == self.baud_rate,
            settings.data_bits == self.data_bits,
            settings.parity == self.parity,
            settings.stop_bits == self.stop_bits,
            settings.flow_control == self.flow_control,
            settings.timeout == self.timeout,
    {
        SerialSettings {
            port: port.to_owned(),
            baud_rate: self.baud_rate,
            data_bits: self.data_bits,
            parity: self.parity,
            stop_bits: self.stop_bits,
            flow_control: self.flow_control,
            timeout: self.timeout,
        }
    }

    fn validate(&self) -> (result: Result<(), SequenceError>)
        ensures
            match serial_config_issue(*self) {
                Some(message) => result matches Err(SequenceError::InvalidSerial(m)) && m == message,
                None => result is Ok,
            },
    {
        if self.baud_rate == 0 {
            return Err(SequenceError::InvalidSerial("baud_rate must be nonzero"));
        }
        match duration_ms(self.timeout) {
            Err(()) => Err(SequenceError::InvalidSerial("timeout must be representable as u64 milliseconds")),
            Ok(_) => Ok(()),
        }
    }
}

/// A wait step whose duration is not a whole number of `u64` milliseconds.
pub open spec fn has_bad_duration(step: Step) -> bool {
    match step.kind {
        StepKind::Wait(duration) => exact_millis(duration) is None,
        _ => false,
    }
}

/// `id` names the first step, in pre-order, whose wait duration is not storable.
pub open spec fn is_first_bad_duration(flat: Seq<Step>, id: Seq<char>) -> bool {
    exists|k: int|
        0 <= k < flat.len() && has_bad_duration(flat[k]) && flat[k].id@ == id && forall|j: int|
            0 <= j < k ==> !has_bad_duration(#[trigger] flat[j])
}

pub open spec fn no_bad_duration(flat: Seq<Step>) -> bool {
    forall|k: int| 0 <= k < flat.len() ==> !has_bad_duration(#[trigger] flat[k])
}

fn validate_durations(steps: &[Step]) -> (result: Result<(), SequenceError>)
    ensures
        match result {
            Ok(()) => no_bad_duration(preorder(steps@)),
            Err(SequenceError::InvalidDuration { step_id }) => is_first_bad_duration(
                preorder(steps@),
                step_id@,
            ),
            Err(_) => false,
        },
    decreases steps@,
{
    let ghost all = steps@;
    let mut i: usize = 0;
    assert(all.take(0) =~= Seq::<Step>::empty());
    assert(preorder(Seq::<Step>::empty()) =~= Seq::<Step>::empty());
    while i < steps.len()
        invariant
            all == steps@,
            i <= all.len(),
            no_bad_duration(preorder(all.take(i as int))),
        decreases all.len() - i,
    {
        let step = &steps[i];
        let ghost done = preorder(all.take(i as int));
        let ghost nested = preorder(child_steps(*step));
        let ghost rest = preorder(all.skip(i + 1));
        proof {
            lemma_preorder_single(*step);
            assert(all.take(i + 1) =~= all.take(i as int) + seq![*step]);
            lemma_preorder_append(all.take(i as int), seq![*step]);
            assert(all =~= all.take(i + 1) + all.skip(i + 1));
            lemma_preorder_append(all.take(i + 1), all.skip(i + 1));
            assert(preorder(all) =~= done + seq![*step] + nested + rest);
            assert(preorder(all.take(i + 1)) =~= done + seq![*step] + nested);
        }
        match &step.kind {
            StepKind::Wait(duration) => {
                match duration_ms(*duration) {
                    Err(()) => {
                        proof {
                            let k = done.len() as int;
                            assert(preorder(all)[k] == *step);
                            assert forall|j: int| 0 <= j < k implies !has_bad_duration(
                                #[trigger] preorder(all)[j],
                            ) by {
                                assert(preorder(all)[j] == done[j]);
                            }
                        }
                        return Err(SequenceError::InvalidDuration { step_id: step.id.clone() });
                    },
                    Ok(_) => {
                        proof {
                            assert(nested =~= Seq::<Step>::empty());
                            let grown = done + seq![*step] + nested;
                            assert forall|k: int| 0 <= k < grown.len() implies !has_bad_duration(
                                #[trigger] grown[k],
                            ) by {
                                if k < done.len() {
                                    assert(grown[k] == done[k]);
                                }
                            }
                        }
                    },
                }
            },
            StepKind::Repeat { steps: children, .. } => {
                proof {
                    assert(decreases_to!(step.kind => step.kind->steps));
                    assert(decreases_to!(step.kind->steps => step.kind->steps@));
                    assert(children@ == child_steps(*step));
                }
                match validate_durations(children.as_slice()) {
                    Err(error) => {
                        proof {
                            if let SequenceError::InvalidDuration { step_id } = &error {
                                let k2 = choose|k2: int|
                                    0 <= k2 < nested.len() && has_bad_duration(nested[k2])
                                        && nested[k2].id@ == step_id@ && forall|j: int|
                                        0 <= j < k2 ==> !has_bad_duration(#[trigger] nested[j]);
                                let k = done.len() + 1 + k2;
                                assert(preorder(all)[k] == nested[k2]);
                                assert forall|j: int| 0 <= j < k implies !has_bad_duration(
                                    #[trigger] preorder(all)[j],
                                ) by {
                                    if j < done.len() {
                                        assert(preorder(all)[j] == done[j]);
                                    } else if j == done.len() {
                                        assert(preorder(all)[j] == *step);
                                    } else {
                                        assert(preorder(all)[j] == nested[j - done.len() - 1]);
                                    }
                                }
                            }
                        }
                        return Err(error);
                    },
                    Ok(()) => {
                        proof {
                            let grown = done + seq![*step] + nested;
                            assert forall|k: int| 0 <= k < grown.len() implies !has_bad_duration(
                                #[trigger] grown[k],
                            ) by {
                                if k < done.len() {
                                    assert(grown[k] == done[k]);
                                } else if k > done.len() {
                                    assert(grown[k] == nested[k - done.len() - 1]);
                                }
                            }
                        }
                    },
                }
            },
            _ => {
                proof {
                    assert(nested =~= Seq::<Step>::empty());
                    let grown = done + seq![*step] + nested;
                    assert forall|k: int| 0 <= k < grown.len() implies !has_bad_duration(
                        #[trigger] grown[k],
                    ) by {
                        if k < done.len() {
                            assert(grown[k] == done[k]);
                        }
                    }
                }
            },
        }
        i = i + 1;
    }
    assert(all.take(i as int) =~= all);
    Ok(())
}

/// Every rule a Sequence must meet: version 1, usable line settings, at least one step,
/// a valid step tree, and storable wait durations.
pub open spec fn sequence_valid(sequence: Sequence) -> bool {
    &&& sequence.sequence_version == SEQUENCE_VERSION
    &&& serial_config_issue(sequence.serial) is None
    &&& sequence.steps@.len() > 0
    &&& steps_valid(sequence.steps@)
    &&& no_bad_duration(preorder(sequence.steps@))
}

/// What validating `sequence` gives: the first rule it breaks, in the order the rules
/// are checked, or success.
pub open spec fn validation_result(sequence: Sequence, result: Result<(), SequenceError>) -> bool {
    if sequence.sequence_version != SEQUENCE_VERSION {
        result matches Err(SequenceError::UnsupportedVersion(v)) && v == sequence.sequence_version
    } else {
        match serial_config_issue(sequence.serial) {
            Some(message) => result matches Err(SequenceError::InvalidSerial(m)) && m == message,
            None => if sequence.steps@.len() == 0 {
                result matches Err(SequenceError::EmptySteps)
            } else if !steps_valid(sequence.steps@) {
                result matches Err(SequenceError::StepValidation(error)) && reports_first_issue(
                    Seq::empty(),
                    preorder(sequence.steps@),
                    error,
                )
            } else if !no_bad_duration(preorder(sequence.steps@)) {
                result matches Err(SequenceError::InvalidDuration { step_id })
                    && is_first_bad_duration(preorder(sequence.steps@), step_id@)
            } else {
                result is Ok
            },
        }
    }
}

impl Sequence {
    pub fn validate(&self) -> (result: Result<(), SequenceError>)
        ensures
            validation_result(*self, result),
            result is Ok <==> sequence_valid(*self),
    {
        if self.sequence_version != SEQUENCE_VERSION {
            return Err(SequenceError::UnsupportedVersion(self.sequence_version));
        }
        match self.serial.validate() {
            Err(error) => return Err(error),
            Ok(()) => {},
        }
        if self.steps.len() == 0 {
            return Err(SequenceError::EmptySteps);
        }
        match validate_steps(self.steps.as_slice()) {
            Err(error) => {
                proof {
                    let flat = preorder(self.steps@);
                    let k = choose|k: int|
                        0 <= k < flat.len() && (forall|j: int| 0 <= j < k ==> #[trigger] crate::step::issue_at(Seq::empty(), flat, j) is None)
                            && crate::step::issue_at(Seq::empty(), flat, k) == Some(error.reason) && error.step_id@ == flat[k].id@;
                    assert(!steps_valid(self.steps@));
                }
                return Err(SequenceError::StepValidation(error));
            },
            Ok(()) => {},
        }
        match validate_durations(self.steps.as_slice()) {
            Err(error) => {
                proof {
                    if let SequenceError::InvalidDuration { step_id } = &error {
                        let flat = preorder(self.steps@);
                        let k = choose|k: int|
                            0 <= k < flat.len() && has_bad_duration(flat[k]) && flat[k].id@ == step_id@
                                && forall|j: int| 0 <= j < k ==> !has_bad_duration(#[trigger] flat[j]);
                        assert(!no_bad_duration(flat));
                    }
                }
                return Err(error);
            },
            Ok(()) => {},
        }
        Ok(())
    }
}


/// The text of a Sequence error; for an I/O failure, only the part before the operating
/// system's description.
pub open spec fn sequence_error_text(error: SequenceError) -> Seq<char> {
    match error {
        SequenceError::Io(_) => "sequence file I/O failed: "@,
        SequenceError::Json(message) => "invalid sequence JSON/schema: "@ + message@,
        SequenceError::InvalidVersion => "invalid sequence_version: expected integer 1"@,
        SequenceError::UnsupportedVersion(version) => "unsupported sequence_version: "@ + decimal(
            version as nat,
        ),
        SequenceError::InvalidSerial(message) => "invalid sequence serial config: "@ + message@,
        SequenceError::InvalidStepId(InvalidStepId(text)) => "invalid step ID: "@ + debug_text(text@),
        SequenceError::InvalidHex { step_id, field } => "invalid "@ + field@ + " hex for step "@
            + step_id@,
        SequenceError::EmptySteps => "sequence steps must not be empty"@,
        SequenceError::StepValidation(error) => error.spec_message(),
        SequenceError::InvalidDuration { step_id } => "step "@ + step_id@
            + " duration is not representable as u64 milliseconds"@,
        SequenceError::Serialization(message) => "sequence serialization failed: "@ + message@,
    }
}

impl SequenceError {
    /// The error's text, as its `Display` writes it.
    pub fn message(&self) -> (text: String)
        ensures
            sequence_error_text(*self).is_prefix_of(text@),
            !(self is Io) ==> text@ == sequence_error_text(*self),
    {
        let text = match self {
            SequenceError::Io(error) => {
                let mut text = String::from_str("sequence file I/O failed: ");
                let detail = io_error_text(error);
                text.append(detail.as_str());
                text
            },
            SequenceError::Json(message) => {
                let mut text = String::from_str("invalid sequence JSON/schema: ");
                text.append(message.as_str());
                text
            },
            SequenceError::InvalidVersion => String::from_str(
                "invalid sequence_version: expected integer 1",
            ),
            SequenceError::UnsupportedVersion(version) => {
                let mut text = String::from_str("unsupported sequence_version: ");
                push_decimal(&mut text, *version as u128);
                text
            },
            SequenceError::InvalidSerial(message) => {
                let mut text = String::from_str("invalid sequence serial config: ");
                text.append(message);
                text
            },
            SequenceError::InvalidStepId(error) => error.message(),
            SequenceError::InvalidHex { step_id, field } => {
                let mut text = String::from_str("invalid ");
                text.append(field);
                text.append(" hex for step ");
                text.append(step_id.as_str());
                text
            },
            SequenceError::EmptySteps => String::from_str("sequence steps must not be empty"),
            SequenceError::StepValidation(error) => error.message(),
            SequenceError::InvalidDuration { step_id } => {
                let mut text = String::from_str("step ");
                text.append(step_id.as_str());
                text.append(" duration is not representable as u64 milliseconds");
                text
            },
            SequenceError::Serialization(message) => {
                let mut text = String::from_str("sequence serialization failed: ");
                text.append(message.as_str());
                text
            },
        };
        proof {
            let head = sequence_error_text(*self);
            if !(self is Io) {
                assert(text@ == head);
            }
            assert(text@.take(head.len() as int) =~= head);
        }
        text
    }
}

} // verus!
