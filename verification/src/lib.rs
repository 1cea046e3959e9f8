pub mod cli;
pub mod config;
pub mod desktop;
pub mod discovery;
pub mod document;
pub mod error;
pub mod hex;
pub mod http;
pub mod json;
pub mod report;
pub mod outside;
pub mod sequence;
pub mod sequence_cli;
pub mod session;
pub mod step;
pub mod text;
pub mod transport;
pub mod worker;
pub mod wire;

pub use config::{DataBits, FlowControl, Parity, SerialSettings, StopBits};
pub use error::{Error, PortError, PortErrorKind};
pub use session::SerialSession;
pub use step::{
    validate_steps, Direction, ExecutionFailure, InvalidStepId, Pause, RunError, RunReport, Step,
    StepId, StepKind, StepOutcome, StepResult, StepRunner, Transcript, TranscriptEntry,
    ValidationError, ValidationReason, MAX_READ_BYTES,
};
pub use transport::{SimulationTransport, Transport};
