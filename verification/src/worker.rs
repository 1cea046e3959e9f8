//! The local Serial Worker: its start-up options, the strict command envelope it accepts,
//! the single job slot it admits jobs to, and the operations jobs run.
use vstd::prelude::*;

use crate::cli::{
    max_bytes, options_error, parse_bytes, parse_bytes_spec, settings_named, CliError, CliFlowControl,
    CliParity,
};
use crate::config::SerialSettings;
use crate::error::Error;
use crate::hex::{encode_hex, encode_hex_spec};
use crate::json::{
    field, find_field, get_field, is_first_key, keys_are_within, keys_within, members_of,
    number_at, number_value, push_member, text_at, text_of, text_value, unsigned_of, value_at,
    JsonMember, JsonNumber, JsonValue,
};
use crate::session::{
    ends_at_first_delimiter, is_read_error_for, query_outcome, read_until_config_ok,
    sent_then_flushed, IoCall, SerialSession,
};
use crate::step::{read_bounded, send_and_flush, MAX_READ_BYTES};
use crate::outside::{classify_io_error, io_error_class, io_error_text, IoErrorClass};
use crate::transport::Transport;

verus! {

#[derive(Debug, Clone, Copy, PartialEq, Eq, Structural)]
pub enum WorkerMode {
    Live,
    Simulate,
}

/// The Worker's start-up options.
#[derive(Debug)]
pub struct WorkerArgs {
    pub mode: WorkerMode,
    pub port: Option<String>,
    pub baud: u32,
    pub data_bits: u8,
    pub parity: CliParity,
    pub stop_bits: u8,
    pub flow_control: CliFlowControl,
    pub timeout_ms: u64,
    pub simulation_profile_id: Option<String>,
    pub control_port: u16,
}

/// The runtime resource the options admit, or why they are refused: a live Worker names
/// a port and no profile; a simulated one names the loopback profile and no port.
pub open spec fn worker_resource_issue(args: WorkerArgs) -> Option<&'static str> {
    match args.mode {
        WorkerMode::Live => if args.port is None || args.simulation_profile_id is Some {
            Some("live requires --port and forbids --simulation-profile-id")
        } else {
            None
        },
        WorkerMode::Simulate => if args.port is Some || !(args.simulation_profile_id matches Some(
            id,
        ) && id@ == "loopback-v1"@) {
            Some("simulate requires --simulation-profile-id loopback-v1 and forbids --port")
        } else {
            None
        },
    }
}

/// The port a Worker's settings name: the given port, or `simulation` when there is none.
pub open spec fn worker_port(args: WorkerArgs) -> Seq<char> {
    match args.port {
        Some(p) => p@,
        None => "simulation"@,
    }
}

impl WorkerArgs {
    /// The line settings the Worker runs with, after the runtime resource is admitted.
    pub fn settings(&self) -> (result: Result<SerialSettings, CliError>)
        ensures
            match worker_resource_issue(*self) {
                Some(message) => result matches Err(CliError::Input(m)) && m == message,
                None => match options_error(worker_port(*self), self.baud) {
                    Some(error) => result matches Err(CliError::Validation(e)) && e == error,
                    None => result matches Ok(settings) && settings.is_valid() && settings_named(
                        settings,
                        worker_port(*self),
                        self.baud,
                        self.data_bits,
                        self.parity,
                        self.stop_bits,
                        self.flow_control,
                        self.timeout_ms,
                    ),
                },
            },
    {
        match self.mode {
            WorkerMode::Live => {
                if self.port.is_none() || self.simulation_profile_id.is_some() {
                    return Err(
                        CliError::Input("live requires --port and forbids --simulation-profile-id"),
                    );
                }
            },
            WorkerMode::Simulate => {
                let admitted = match &self.simulation_profile_id {
                    Some(id) => crate::json::text_equals(id.as_str(), "loopback-v1"),
                    None => false,
                };
                if self.port.is_some() || !admitted {
                    return Err(
                        CliError::Input(
                            "simulate requires --simulation-profile-id loopback-v1 and forbids --port",
                        ),
                    );
                }
            },
        }
        let port = match &self.port {
            Some(port) => port.as_str(),
            None => "simulation",
        };
        crate::cli::settings_from_options(
            port,
            self.baud,
            self.data_bits,
            self.parity,
            self.stop_bits,
            self.flow_control,
            self.timeout_ms,
        )
    }
}

/// Who a job is: the Worker's own job ID, the command, and the client's job ID if any.
#[derive(Debug)]
pub struct JobIdentity {
    pub worker_job_id: String,
    pub command: String,
    pub job_id: Option<String>,
}

impl Clone for JobIdentity {
    fn clone(&self) -> (copy: Self)
        ensures
            copy.worker_job_id@ == self.worker_job_id@,
            copy.command@ == self.command@,
            crate::cli::view_of_string(copy.job_id) == crate::cli::view_of_string(self.job_id),
    {
        JobIdentity {
            worker_job_id: self.worker_job_id.clone(),
            command: self.command.clone(),
            job_id: match &self.job_id {
                Some(id) => Some(id.clone()),
                None => None,
            },
        }
    }
}

/// What a job does on the serial line.
#[derive(Debug, PartialEq, Eq)]
pub enum Operation {
    Send(Vec<u8>),
    Receive(usize),
    Query(Vec<u8>, Vec<u8>, usize),
}

/// Why a command envelope was refused, with the command and client job ID as far as they
/// could be read.
#[derive(Debug)]
pub struct Rejection {
    pub command: Option<String>,
    pub job_id: Option<String>,
    pub message: &'static str,
}

/// The members a command envelope may have.
pub open spec fn envelope_keys() -> Seq<Seq<char>> {
    seq!["schema_version"@, "command"@, "arguments"@, "job_id"@]
}

/// The read limit a job's arguments give: 1024 when absent, else an integer between 1
/// and `MAX_READ_BYTES`.
pub open spec fn read_limit_spec(arguments: Seq<JsonMember>) -> Result<usize, &'static str> {
    match field(arguments, "max_bytes"@) {
        None => Ok(1024),
        Some(value) => match unsigned_of(Some(value)) {
            None => Err("max_bytes must be an integer"),
            Some(n) => if n > usize::MAX {
                Err("invalid max_bytes")
            } else if n == 0 || n > MAX_READ_BYTES {
                Err("max_bytes must be between 1 and 1048576")
            } else {
                Ok(n as usize)
            },
        },
    }
}

/// The bytes a hex argument names.
pub open spec fn hex_argument_spec(arguments: Seq<JsonMember>, name: Seq<char>) -> Result<
    Seq<u8>,
    &'static str,
> {
    match text_of(field(arguments, name)) {
        None => Err("required hex argument must be a string"),
        Some(text) => match parse_bytes_spec(None, Some(text)) {
            Ok(bytes) => Ok(bytes),
            Err(_) => Err("invalid hex bytes"),
        },
    }
}

/// The read limit of a job's arguments.
pub fn read_limit(arguments: &Vec<JsonMember>) -> (result: Result<usize, &'static str>)
    ensures
        result == read_limit_spec(arguments@),
{
    match get_field(arguments, "max_bytes") {
        None => Ok(1024),
        Some(value) => {
            let number = match value {
                JsonValue::Number(JsonNumber::Unsigned(n)) => *n,
                _ => return Err("max_bytes must be an integer"),
            };
            if number > usize::MAX as u64 {
                return Err("invalid max_bytes");
            }
            match max_bytes(number as usize) {
                Ok(limit) => Ok(limit),
                Err(_) => Err("max_bytes must be between 1 and 1048576"),
            }
        },
    }
}

/// The bytes of a required hex argument.
pub fn required_hex(arguments: &Vec<JsonMember>, name: &str) -> (result: Result<
    Vec<u8>,
    &'static str,
>)
    ensures
        match hex_argument_spec(arguments@, name@) {
            Ok(bytes) => result matches Ok(b) && b@ == bytes,
            Err(message) => result == Err::<Vec<u8>, &'static str>(message),
        },
{
    let text = match get_field(arguments, name) {
        Some(JsonValue::Text(text)) => text,
        _ => return Err("required hex argument must be a string"),
    };
    match parse_bytes(None, Some(text.as_str())) {
        Ok(bytes) => Ok(bytes),
        Err(_) => Err("invalid hex bytes"),
    }
}

/// Whether every argument is one of `allowed`.
pub fn exact_keys(arguments: &Vec<JsonMember>, allowed: &[&str]) -> (result: Result<
    (),
    &'static str,
>)
    ensures
        result is Ok <==> keys_within(arguments@, allowed@.map_values(|name: &str| name@)),
        result matches Err(m) ==> m == "unknown argument field",
{
    if keys_are_within(arguments, allowed) {
        Ok(())
    } else {
        Err("unknown argument field")
    }
}

/// The arguments object of an envelope: its members, none when absent, or a refusal
/// when it is not an object.
pub open spec fn arguments_of(m: Seq<JsonMember>) -> Option<Seq<JsonMember>> {
    match field(m, "arguments"@) {
        None => Some(Seq::empty()),
        Some(JsonValue::Object(members)) => Some(members@),
        Some(_) => None,
    }
}

/// What a job's arguments give for `command`, or the message that refuses them.
pub open spec fn operation_spec(command: Seq<char>, arguments: Seq<JsonMember>) -> Result<
    (Seq<u8>, Seq<u8>, usize),
    &'static str,
> {
    if command == "send"@ {
        if !keys_within(arguments, seq!["tx_hex"@]) {
            Err("unknown argument field")
        } else {
            match hex_argument_spec(arguments, "tx_hex"@) {
                Ok(tx) => Ok((tx, Seq::empty(), 0)),
                Err(m) => Err(m),
            }
        }
    } else if command == "receive"@ {
        if !keys_within(arguments, seq!["max_bytes"@]) {
            Err("unknown argument field")
        } else {
            match read_limit_spec(arguments) {
                Ok(limit) => Ok((Seq::empty(), Seq::empty(), limit)),
                Err(m) => Err(m),
            }
        }
    } else if command == "query"@ {
        if !keys_within(arguments, seq!["tx_hex"@, "delimiter_hex"@, "max_bytes"@]) {
            Err("unknown argument field")
        } else {
            match hex_argument_spec(arguments, "tx_hex"@) {
                Err(m) => Err(m),
                Ok(tx) => match hex_argument_spec(arguments, "delimiter_hex"@) {
                    Err(m) => Err(m),
                    Ok(delimiter) => match read_limit_spec(arguments) {
                        Err(m) => Err(m),
                        Ok(limit) => if delimiter.len() > limit {
                            Err("max_bytes must be at least delimiter length")
                        } else {
                            Ok((tx, delimiter, limit))
                        },
                    },
                },
            }
        }
    } else {
        Err("unknown command")
    }
}

/// What a job's arguments give is read from the arguments under their own names: the
/// bytes sent are those `tx_hex` spells, the delimiter those `delimiter_hex` spells, and
/// the read limit is the number `max_bytes` gives, 1024 when it is absent, always between
/// 1 and the read ceiling, and never below the delimiter's length.
pub proof fn lemma_operation_from_arguments(command: Seq<char>, arguments: Seq<JsonMember>)
    requires
        operation_spec(command, arguments) is Ok,
    ensures
        ({
            let (tx, delimiter, limit) = operation_spec(command, arguments)->Ok_0;
            &&& command == "send"@ || command == "receive"@ || command == "query"@
            &&& (command == "send"@ || command == "query"@) ==> (text_of(field(arguments, "tx_hex"@))
                matches Some(t) && parse_bytes_spec(None, Some(t)) == Ok::<Seq<u8>, &'static str>(tx))
            &&& command == "query"@ ==> (text_of(field(arguments, "delimiter_hex"@)) matches Some(t)
                && parse_bytes_spec(None, Some(t)) == Ok::<Seq<u8>, &'static str>(delimiter)
                && delimiter.len() <= limit)
            &&& (command == "receive"@ || command == "query"@) ==> {
                &&& 1 <= limit <= MAX_READ_BYTES
                &&& field(arguments, "max_bytes"@) is None ==> limit == 1024
                &&& field(arguments, "max_bytes"@) is Some ==> unsigned_of(field(arguments, "max_bytes"@))
                    == Some(limit as u64)
            }
        }),
{
    reveal_strlit("send");
    reveal_strlit("receive");
    reveal_strlit("query");
    assert("send"@ != "query"@ && "send"@ != "receive"@ && "receive"@ != "query"@) by {
        assert("send"@.len() == 4 && "receive"@.len() == 7 && "query"@.len() == 5);
    }
}

/// `operation` is what `operation_spec` gives for `command`.
pub open spec fn operation_matches(
    operation: Operation,
    command: Seq<char>,
    parts: (Seq<u8>, Seq<u8>, usize),
) -> bool {
    match operation {
        Operation::Send(tx) => command == "send"@ && tx@ == parts.0,
        Operation::Receive(limit) => command == "receive"@ && limit == parts.2,
        Operation::Query(tx, delimiter, limit) => command == "query"@ && tx@ == parts.0
            && delimiter@ == parts.1 && limit == parts.2,
    }
}

pub open spec fn view_of_opt(text: Option<String>) -> Option<Seq<char>> {
    crate::cli::view_of_string(text)
}

/// The refusal of an envelope, as the Worker decides it, in the order it checks.
pub open spec fn envelope_verdict(parsed: Option<JsonValue>) -> Result<
    (Seq<char>, Option<Seq<char>>, (Seq<u8>, Seq<u8>, usize)),
    (Option<Seq<char>>, Option<Seq<char>>, &'static str),
> {
    match parsed {
        None => Err((None, None, "malformed JSON")),
        Some(JsonValue::Object(members)) => {
            let m = members@;
            let command = text_of(field(m, "command"@));
            let job_id = text_of(field(m, "job_id"@));
            if !keys_within(m, envelope_keys()) {
                Err((command, job_id, "unknown top-level field"))
            } else if unsigned_of(field(m, "schema_version"@)) != Some(2u64) {
                Err((command, job_id, "schema_version must be integer 2"))
            } else if command is None || command->0.len() == 0 {
                Err((None, job_id, "command must be a non-empty string"))
            } else if field(m, "job_id"@) is Some && job_id is None {
                Err((command, None, "job_id must be a string"))
            } else {
                match arguments_of(m) {
                    None => Err((command, job_id, "arguments must be an object")),
                    Some(arguments) => match operation_spec(command->0, arguments) {
                        Err(message) => Err((command, job_id, message)),
                        Ok(parts) => Ok((command->0, job_id, parts)),
                    },
                }
            }
        },
        Some(_) => Err((None, None, "request must be an object")),
    }
}

fn text_of_field(members: &Vec<JsonMember>, key: &str) -> (text: Option<String>)
    ensures
        view_of_opt(text) == text_of(field(members@, key@)),
{
    match get_field(members, key) {
        Some(JsonValue::Text(t)) => Some(t.clone()),
        _ => None,
    }
}

fn copy_text(text: &Option<String>) -> (copy: Option<String>)
    ensures
        view_of_opt(copy) == view_of_opt(*text),
{
    match text {
        Some(t) => Some(t.clone()),
        None => None,
    }
}

/// Reads a command envelope: `parsed` is the request body as JSON, or `None` when the
/// body was not JSON. Every refusal names the command and job ID as far as they were read.
pub fn parse_command(parsed: Option<&JsonValue>) -> (result: Result<
    (JobIdentity, Operation),
    Rejection,
>)
    ensures
        match envelope_verdict(match parsed {
            Some(v) => Some(*v),
            None => None,
        }) {
            Ok((command, job_id, parts)) => result matches Ok((identity, operation))
                && identity.command@ == command && view_of_opt(identity.job_id) == job_id
                && identity.worker_job_id@.len() == 0 && operation_matches(operation, command, parts),
            Err((command, job_id, message)) => result matches Err(rejection)
                && view_of_opt(rejection.command) == command && view_of_opt(rejection.job_id)
                == job_id && rejection.message == message,
        },
{
    let value = match parsed {
        None => return Err(Rejection { command: None, job_id: None, message: "malformed JSON" }),
        Some(value) => value,
    };
    let members = match value {
        JsonValue::Object(members) => members,
        _ => return Err(
            Rejection { command: None, job_id: None, message: "request must be an object" },
        ),
    };
    let command = text_of_field(members, "command");
    let job_id = text_of_field(members, "job_id");
    let allowed = ["schema_version", "command", "arguments", "job_id"];
    assert(allowed@.map_values(|name: &str| name@) =~= envelope_keys());
    if !keys_are_within(members, &allowed) {
        return Err(Rejection { command, job_id, message: "unknown top-level field" });
    }
    let version_ok = match get_field(members, "schema_version") {
        Some(JsonValue::Number(JsonNumber::Unsigned(n))) => *n == 2,
        _ => false,
    };
    if !version_ok {
        return Err(Rejection { command, job_id, message: "schema_version must be integer 2" });
    }
    let name = match &command {
        Some(name) => {
            if name.unicode_len() == 0 {
                return Err(
                    Rejection {
                        command: None,
                        job_id,
                        message: "command must be a non-empty string",
                    },
                );
            }
            name.clone()
        },
        None => return Err(
            Rejection { command: None, job_id, message: "command must be a non-empty string" },
        ),
    };
    if find_field(members, "job_id").is_some() && job_id.is_none() {
        proof {
            crate::json::lemma_first_key_unique(
                members@,
                "job_id"@,
                choose|k: int| is_first_key(members@, "job_id"@, k),
            );
        }
        return Err(Rejection { command, job_id: None, message: "job_id must be a string" });
    }
    proof {
        if field(members@, "job_id"@) is Some {
            assert(exists|k: int| is_first_key(members@, "job_id"@, k));
        }
    }
    let empty: Vec<JsonMember> = Vec::new();
    let arguments = match get_field(members, "arguments") {
        None => &empty,
        Some(JsonValue::Object(arguments)) => arguments,
        Some(_) => return Err(
            Rejection { command, job_id, message: "arguments must be an object" },
        ),
    };
    let operation = match operation_for(name.as_str(), arguments) {
        Ok(operation) => operation,
        Err(message) => return Err(Rejection { command, job_id, message }),
    };
    Ok((JobIdentity { worker_job_id: String::new(), command: name, job_id }, operation))
}

fn operation_for(command: &str, arguments: &Vec<JsonMember>) -> (result: Result<
    Operation,
    &'static str,
>)
    ensures
        match operation_spec(command@, arguments@) {
            Ok(parts) => result matches Ok(operation) && operation_matches(operation, command@, parts),
            Err(message) => result == Err::<Operation, &'static str>(message),
        },
{
    if crate::json::text_equals(command, "send") {
        let allowed = ["tx_hex"];
        assert(allowed@.map_values(|name: &str| name@) =~= seq!["tx_hex"@]);
        exact_keys(arguments, &allowed)?;
        let tx = required_hex(arguments, "tx_hex")?;
        Ok(Operation::Send(tx))
    } else if crate::json::text_equals(command, "receive") {
        let allowed = ["max_bytes"];
        assert(allowed@.map_values(|name: &str| name@) =~= seq!["max_bytes"@]);
        exact_keys(arguments, &allowed)?;
        let limit = read_limit(arguments)?;
        Ok(Operation::Receive(limit))
    } else if crate::json::text_equals(command, "query") {
        let allowed = ["tx_hex", "delimiter_hex", "max_bytes"];
        assert(allowed@.map_values(|name: &str| name@) =~= seq![
            "tx_hex"@,
            "delimiter_hex"@,
            "max_bytes"@,
        ]);
        exact_keys(arguments, &allowed)?;
        let tx = required_hex(arguments, "tx_hex")?;
        let delimiter = required_hex(arguments, "delimiter_hex")?;
        let limit = read_limit(arguments)?;
        if delimiter.len() > limit {
            return Err("max_bytes must be at least delimiter length");
        }
        Ok(Operation::Query(tx, delimiter, limit))
    } else {
        Err("unknown command")
    }
}


/// The Worker's job slot and counters.
#[derive(Debug)]
pub struct WorkerState {
    pub active: Option<JobIdentity>,
    pub last_job: Option<JsonValue>,
    pub stopping: bool,
    pub accepted: u64,
    pub succeeded: u64,
    pub failed: u64,
}

/// The slot's word for what it is doing.
pub open spec fn status_word(state: WorkerState) -> Seq<char> {
    if state.stopping {
        "stopping"@
    } else if state.active is Some {
        "busy"@
    } else {
        "ready"@
    }
}

/// Every accepted job has finished, as a success or a failure, or is the active one.
pub open spec fn counts_agree(state: WorkerState) -> bool {
    state.accepted == state.succeeded + state.failed + if state.active is Some {
        1int
    } else {
        0int
    }
}

/// The ID the Worker gives its `n`-th accepted job.
pub open spec fn worker_job_name(n: nat) -> Seq<char> {
    "job-"@ + crate::text::decimal(n)
}

impl WorkerState {
    pub fn new() -> (state: Self)
        ensures
            state.active is None,
            state.last_job is None,
            !state.stopping,
            state.accepted == 0 && state.succeeded == 0 && state.failed == 0,
            counts_agree(state),
    {
        WorkerState {
            active: None,
            last_job: None,
            stopping: false,
            accepted: 0,
            succeeded: 0,
            failed: 0,
        }
    }

    pub fn status(&self) -> (word: &'static str)
        ensures
            word@ == status_word(*self),
    {
        if self.stopping {
            "stopping"
        } else if self.active.is_some() {
            "busy"
        } else {
            "ready"
        }
    }

    /// Takes a job into the slot: refused while stopping or while another job is active;
    /// otherwise the job is counted and named after its number.
    pub fn take_job(&mut self, identity: JobIdentity) -> (result: Result<JobIdentity, &'static str>)
        requires
            old(self).accepted < u64::MAX,
        ensures
            old(self).stopping ==> result == Err::<JobIdentity, &'static str>("stopping")
                && *final(self) == *old(self),
            !old(self).stopping && old(self).active is Some ==> result == Err::<
                JobIdentity,
                &'static str,
            >("busy") && *final(self) == *old(self),
            !old(self).stopping && old(self).active is None ==> {
                &&& result matches Ok(admitted)
                &&& admitted.worker_job_id@ == worker_job_name(final(self).accepted as nat)
                &&& admitted.command@ == identity.command@
                &&& view_of_opt(admitted.job_id) == view_of_opt(identity.job_id)
                &&& final(self).accepted == old(self).accepted + 1
                &&& final(self).active matches Some(active) && active.worker_job_id@
                    == admitted.worker_job_id@ && active.command@ == admitted.command@
                &&& final(self).succeeded == old(self).succeeded
                &&& final(self).failed == old(self).failed
                &&& final(self).stopping == old(self).stopping
            },
            counts_agree(*old(self)) ==> counts_agree(*final(self)),
    {
        if self.stopping {
            return Err("stopping");
        }
        if self.active.is_some() {
            return Err("busy");
        }
        self.accepted = self.accepted + 1;
        let mut name = String::from_str("job-");
        crate::text::push_decimal(&mut name, self.accepted as u128);
        let admitted = JobIdentity {
            worker_job_id: name,
            command: identity.command,
            job_id: identity.job_id,
        };
        self.active = Some(admitted.clone());
        Ok(admitted)
    }

    /// Takes back an admission whose job could not be handed to the runner.
    pub fn withdraw(&mut self)
        requires
            old(self).active is Some,
            old(self).accepted > 0,
        ensures
            final(self).active is None,
            final(self).accepted == old(self).accepted - 1,
            final(self).succeeded == old(self).succeeded,
            final(self).failed == old(self).failed,
            final(self).stopping == old(self).stopping,
            counts_agree(*old(self)) ==> counts_agree(*final(self)),
    {
        self.active = None;
        self.accepted = self.accepted - 1;
    }

    /// Records the end of the active job and frees the slot.
    pub fn finish(&mut self, ok: bool, terminal: JsonValue)
        requires
            old(self).active is Some,
            counts_agree(*old(self)),
        ensures
            final(self).active is None,
            final(self).last_job == Some(terminal),
            final(self).accepted == old(self).accepted,
            ok ==> final(self).succeeded == old(self).succeeded + 1 && final(self).failed
                == old(self).failed,
            !ok ==> final(self).failed == old(self).failed + 1 && final(self).succeeded
                == old(self).succeeded,
            final(self).stopping == old(self).stopping,
            counts_agree(*final(self)),
    {
        if ok {
            self.succeeded = self.succeeded + 1;
        } else {
            self.failed = self.failed + 1;
        }
        self.last_job = Some(terminal);
        self.active = None;
    }

    /// Asks the Worker to stop; true when it was not already stopping.
    pub fn request_stop(&mut self) -> (newly: bool)
        ensures
            final(self).stopping,
            newly == !old(self).stopping,
            final(self).active == old(self).active,
            final(self).accepted == old(self).accepted,
            final(self).succeeded == old(self).succeeded,
            final(self).failed == old(self).failed,
    {
        let newly = !self.stopping;
        self.stopping = true;
        newly
    }

    /// The Worker may shut down once it is stopping and no job is active.
    pub fn drained(&self) -> (done: bool)
        ensures
            done == (self.stopping && self.active is None),
    {
        self.stopping && self.active.is_none()
    }
}

/// What a finished job reports of its operation: the bytes sent, the bytes received, and
/// for a query the delimiter too.
pub open spec fn job_result_reported(value: JsonValue, operation: Operation, rx: Seq<u8>) -> bool {
    let m = members_of(value);
    &&& value is Object
    &&& match operation {
        Operation::Send(tx) => {
            &&& m.len() == 2
            &&& text_at(m, 0, "tx_hex"@, encode_hex_spec(tx@))
            &&& number_at(m, 1, "tx_bytes"@, tx@.len() as int)
        },
        Operation::Receive(_) => {
            &&& m.len() == 2
            &&& text_at(m, 0, "rx_hex"@, encode_hex_spec(rx))
            &&& number_at(m, 1, "rx_bytes"@, rx.len() as int)
        },
        Operation::Query(tx, delimiter, _) => {
            &&& m.len() == 5
            &&& text_at(m, 0, "tx_hex"@, encode_hex_spec(tx@))
            &&& number_at(m, 1, "tx_bytes"@, tx@.len() as int)
            &&& text_at(m, 2, "rx_hex"@, encode_hex_spec(rx))
            &&& number_at(m, 3, "rx_bytes"@, rx.len() as int)
            &&& text_at(m, 4, "delimiter_hex"@, encode_hex_spec(delimiter@))
        },
    }
}

/// A receive or query job's result names the bytes it received: two byte strings that
/// would be reported the same way are the same bytes.
pub proof fn lemma_job_report_names_rx(value: JsonValue, operation: Operation, a: Seq<u8>, b: Seq<u8>)
    requires
        !(operation is Send),
        job_result_reported(value, operation, a),
        job_result_reported(value, operation, b),
    ensures
        a == b,
{
    let m = members_of(value);
    let k: int = if operation is Receive { 0 } else { 2 };
    assert(m[k].value == JsonValue::Text(m[k].value->Text_0));
    assert(encode_hex_spec(a) == encode_hex_spec(b));
    crate::hex::lemma_hex_round_trip(a);
    crate::hex::lemma_hex_round_trip(b);
}

/// Runs a job's operation on the session.
pub fn execute<T: Transport>(session: &mut SerialSession<T>, operation: Operation) -> (result: Result<
    JsonValue,
    Error,
>)
    ensures
        match result {
            Ok(value) => exists|rx: Seq<u8>| {
                &&& #[trigger] job_result_reported(value, operation, rx)
                &&& final(session).delivered() == old(session).delivered() + rx
                &&& operation matches Operation::Receive(limit) ==> rx.len() <= limit
                &&& operation matches Operation::Query(_, delimiter, limit) ==> rx.len() <= limit
                    && ends_at_first_delimiter(rx, delimiter@)
            },
            Err(error) => match operation {
                Operation::Send(_) => error is WriteFailed || error is FlushFailed,
                Operation::Receive(_) => error is Timeout || error is ReadFailed,
                Operation::Query(_, delimiter, limit) => {
                    &&& error is WriteFailed || error is FlushFailed || error is InvalidConfiguration
                        || error is ReadLimitExceeded || error is Timeout || error is ReadFailed
                    &&& error is InvalidConfiguration ==> !read_until_config_ok(
                        delimiter@,
                        limit as int,
                    )
                },
            },
        },
        final(session).made_calls(*old(session)),
        old(session).conserves() ==> final(session).conserves(),
        result is Err ==> final(session).delivered() == old(session).delivered(),
        ({
            let calls = final(session).calls_since(*old(session));
            match operation {
                Operation::Send(tx) => sent_then_flushed(
                    calls,
                    tx@,
                    match result {
                        Ok(_) => Ok(()),
                        Err(error) => Err(error),
                    },
                ),
                Operation::Receive(limit) => {
                    &&& old(session).buffered().len() > 0 || limit == 0 ==> final(session).io_calls()
                        == old(session).io_calls()
                    &&& old(session).buffered().len() == 0 && limit > 0 ==> {
                        &&& calls.len() == 1
                        &&& calls[0] matches IoCall::Read { room, outcome, .. }
                        &&& room == limit
                        &&& match outcome {
                            Ok(bytes) => result matches Ok(value) && job_result_reported(
                                value,
                                operation,
                                bytes,
                            ),
                            Err(cause) => result matches Err(error) && is_read_error_for(
                                error,
                                cause,
                                Seq::empty(),
                            ),
                        }
                    }
                },
                Operation::Query(tx, delimiter, limit) => match result {
                    Ok(value) => exists|rx: Seq<u8>|
                        #[trigger] job_result_reported(value, operation, rx) && query_outcome(
                            old(session).buffered(),
                            calls,
                            tx@,
                            delimiter@,
                            limit as int,
                            Ok(rx),
                            final(session).buffered(),
                        ),
                    Err(error) => query_outcome(
                        old(session).buffered(),
                        calls,
                        tx@,
                        delimiter@,
                        limit as int,
                        Err(error),
                        final(session).buffered(),
                    ),
                },
            }
        }),
{
    match operation {
        Operation::Send(tx) => {
            match send_and_flush(session, tx.as_slice()) {
                Ok(()) => {},
                Err(error) => return Err(error),
            }
            let mut m: Vec<JsonMember> = Vec::new();
            push_member(&mut m, "tx_hex", JsonValue::Text(encode_hex(tx.as_slice())));
            push_member(&mut m, "tx_bytes", number_value(tx.len() as u64));
            let value = JsonValue::Object(m);
            assert(job_result_reported(value, Operation::Send(tx), Seq::empty()));
            assert(session.delivered() =~= old(session).delivered() + Seq::<u8>::empty());
            Ok(value)
        },
        Operation::Receive(limit) => {
            let rx = match read_bounded(session, limit) {
                Ok(rx) => rx,
                Err(error) => return Err(error),
            };
            let mut m: Vec<JsonMember> = Vec::new();
            push_member(&mut m, "rx_hex", JsonValue::Text(encode_hex(rx.as_slice())));
            push_member(&mut m, "rx_bytes", number_value(rx.len() as u64));
            let value = JsonValue::Object(m);
            assert(job_result_reported(value, Operation::Receive(limit), rx@));
            Ok(value)
        },
        Operation::Query(tx, delimiter, limit) => {
            let rx = match crate::cli::query(session, tx.as_slice(), delimiter.as_slice(), limit) {
                Ok(rx) => rx,
                Err(error) => return Err(error),
            };
            let mut m: Vec<JsonMember> = Vec::new();
            push_member(&mut m, "tx_hex", JsonValue::Text(encode_hex(tx.as_slice())));
            push_member(&mut m, "tx_bytes", number_value(tx.len() as u64));
            push_member(&mut m, "rx_hex", JsonValue::Text(encode_hex(rx.as_slice())));
            push_member(&mut m, "rx_bytes", number_value(rx.len() as u64));
            push_member(&mut m, "delimiter_hex", JsonValue::Text(encode_hex(delimiter.as_slice())));
            let value = JsonValue::Object(m);
            assert(job_result_reported(value, Operation::Query(tx, delimiter, limit), rx@));
            Ok(value)
        },
    }
}


/// The members every Worker event starts with.
pub open spec fn worker_event_head(m: Seq<JsonMember>, name: Seq<char>, run_id: Seq<char>, timestamp: Seq<char>) -> bool {
    &&& text_at(m, 0, "event"@, name)
    &&& number_at(m, 1, "schema_version"@, 2)
    &&& text_at(m, 2, "run_id"@, run_id)
    &&& text_at(m, 3, "timestamp_utc"@, timestamp)
}

fn event_members(name: &str, run_id: &str, timestamp: &str) -> (m: Vec<JsonMember>)
    ensures
        m@.len() == 4,
        worker_event_head(m@, name@, run_id@, timestamp@),
{
    let mut m: Vec<JsonMember> = Vec::new();
    push_member(&mut m, "event", text_value(name));
    push_member(&mut m, "schema_version", number_value(2));
    push_member(&mut m, "run_id", text_value(run_id));
    push_member(&mut m, "timestamp_utc", text_value(timestamp));
    m
}

/// An event with nothing beyond its head, such as `stop_requested`.
pub fn plain_event(name: &str, run_id: &str, timestamp: &str) -> (value: JsonValue)
    ensures
        value is Object,
        members_of(value).len() == 4,
        worker_event_head(members_of(value), name@, run_id@, timestamp@),
{
    JsonValue::Object(event_members(name, run_id, timestamp))
}

/// An optional text member: the text, or `null`.
pub open spec fn maybe_text_at(m: Seq<JsonMember>, k: int, key: Seq<char>, text: Option<Seq<char>>) -> bool {
    match text {
        Some(t) => text_at(m, k, key, t),
        None => value_at(m, k, key, JsonValue::Null),
    }
}

fn maybe_text(text: &Option<String>) -> (value: JsonValue)
    ensures
        match view_of_opt(*text) {
            Some(t) => value matches JsonValue::Text(v) && v@ == t,
            None => value == JsonValue::Null,
        },
{
    match text {
        Some(t) => text_value(t.as_str()),
        None => JsonValue::Null,
    }
}

/// A job event: the event head, then who the job is.
pub open spec fn job_event_head(m: Seq<JsonMember>, name: Seq<char>, run_id: Seq<char>, identity: JobIdentity, timestamp: Seq<char>) -> bool {
    &&& worker_event_head(m, name, run_id, timestamp)
    &&& text_at(m, 4, "worker_job_id"@, identity.worker_job_id@)
    &&& text_at(m, 5, "command"@, identity.command@)
    &&& maybe_text_at(m, 6, "job_id"@, view_of_opt(identity.job_id))
}

fn job_members(name: &str, run_id: &str, identity: &JobIdentity, timestamp: &str) -> (m: Vec<JsonMember>)
    ensures
        m@.len() == 7,
        job_event_head(m@, name@, run_id@, *identity, timestamp@),
{
    let mut m = event_members(name, run_id, timestamp);
    push_member(&mut m, "worker_job_id", text_value(identity.worker_job_id.as_str()));
    push_member(&mut m, "command", text_value(identity.command.as_str()));
    push_member(&mut m, "job_id", maybe_text(&identity.job_id));
    m
}

/// The event of a job entering a stage (`job_accepted` with status `accepted`, or
/// `job_started` with status `running`).
pub fn job_stage_event(name: &str, status: &str, run_id: &str, identity: &JobIdentity, timestamp: &str) -> (value: JsonValue)
    ensures
        job_event_head(members_of(value), name@, run_id@, *identity, timestamp@),
        members_of(value).len() == 8,
        text_at(members_of(value), 7, "status"@, status@),
        value is Object,
{
    let mut m = job_members(name, run_id, identity, timestamp);
    push_member(&mut m, "status", text_value(status));
    JsonValue::Object(m)
}

/// The terminal event of a job: `job_finished` with the operation's result, or
/// `job_failed` with exit code 3, the serial error, and any bytes received before it.
pub open spec fn terminal_reported(value: JsonValue, run_id: Seq<char>, identity: JobIdentity, outcome: Result<JsonValue, Error>, timestamp: Seq<char>) -> bool {
    let m = members_of(value);
    &&& value is Object
    &&& match outcome {
        Ok(result) => {
            &&& job_event_head(m, "job_finished"@, run_id, identity, timestamp)
            &&& m.len() == 9
            &&& value_at(m, 7, "ok"@, JsonValue::Bool(true))
            &&& value_at(m, 8, "result"@, result)
        },
        Err(error) => {
            &&& job_event_head(m, "job_failed"@, run_id, identity, timestamp)
            &&& value_at(m, 7, "ok"@, JsonValue::Bool(false))
            &&& number_at(m, 8, "exit_code"@, 3)
            &&& text_at(m, 9, "error"@, "serial_error"@)
            &&& m.len() > 10 && m[10].key@ == "message"@
            &&& m[10].value matches JsonValue::Text(message)
            &&& crate::error::error_text(error).is_prefix_of(message@)
            &&& match error.spec_partial() {
                Some(partial) => {
                    &&& m.len() == 13
                    &&& text_at(m, 11, "partial_hex"@, encode_hex_spec(partial))
                    &&& number_at(m, 12, "partial_bytes"@, partial.len() as int)
                },
                None => m.len() == 11,
            }
        },
    }
}

/// The terminal event of a job and whether it succeeded.
pub fn job_terminal_event(run_id: &str, identity: &JobIdentity, outcome: Result<JsonValue, Error>, timestamp: &str) -> (result: (JsonValue, bool))
    ensures
        terminal_reported(result.0, run_id@, *identity, outcome, timestamp@),
        result.1 == outcome is Ok,
{
    match outcome {
        Ok(value) => {
            let mut m = job_members("job_finished", run_id, identity, timestamp);
            push_member(&mut m, "ok", JsonValue::Bool(true));
            push_member(&mut m, "result", value);
            let event = JsonValue::Object(m);
            
            (event, true)
        },
        Err(error) => {
            let mut m = job_members("job_failed", run_id, identity, timestamp);
            push_member(&mut m, "ok", JsonValue::Bool(false));
            push_member(&mut m, "exit_code", number_value(3));
            push_member(&mut m, "error", text_value("serial_error"));
            let message = error.message();
            push_member(&mut m, "message", JsonValue::Text(message));
            match error.partial() {
                Some(partial) => {
                    push_member(&mut m, "partial_hex", JsonValue::Text(encode_hex(partial)));
                    push_member(&mut m, "partial_bytes", number_value(partial.len() as u64));
                },
                None => {},
            }
            let event = JsonValue::Object(m);
            
            (event, false)
        },
    }
}

/// The closing summary: whether the Worker ended cleanly and its job counts.
pub open spec fn summary_reported(value: JsonValue, run_id: Seq<char>, state: WorkerState, ok: bool, timestamp: Seq<char>) -> bool {
    let m = members_of(value);
    &&& value is Object
    &&& m.len() == 9
    &&& worker_event_head(m, "summary"@, run_id, timestamp)
    &&& value_at(m, 4, "ok"@, JsonValue::Bool(ok))
    &&& number_at(m, 5, "exit_code"@, if ok { 0 } else { 3 })
    &&& number_at(m, 6, "accepted"@, state.accepted as int)
    &&& number_at(m, 7, "succeeded"@, state.succeeded as int)
    &&& number_at(m, 8, "failed"@, state.failed as int)
}

pub fn summary(run_id: &str, state: &WorkerState, ok: bool, timestamp: &str) -> (value: JsonValue)
    ensures
        summary_reported(value, run_id@, *state, ok, timestamp@),
{
    let mut m = event_members("summary", run_id, timestamp);
    push_member(&mut m, "ok", JsonValue::Bool(ok));
    push_member(&mut m, "exit_code", number_value(if ok { 0 } else { 3 }));
    push_member(&mut m, "accepted", number_value(state.accepted));
    push_member(&mut m, "succeeded", number_value(state.succeeded));
    push_member(&mut m, "failed", number_value(state.failed));
    JsonValue::Object(m)
}

/// A Worker error event: `ok` false, the exit code, and the message.
pub open spec fn worker_error_reported(value: JsonValue, run_id: Seq<char>, exit_code: int, message: Seq<char>, timestamp: Seq<char>) -> bool {
    let m = members_of(value);
    &&& value is Object
    &&& m.len() == 7
    &&& worker_event_head(m, "error"@, run_id, timestamp)
    &&& value_at(m, 4, "ok"@, JsonValue::Bool(false))
    &&& number_at(m, 5, "exit_code"@, exit_code)
    &&& text_at(m, 6, "message"@, message)
}

pub fn worker_error(run_id: &str, exit_code: u64, message: &str, timestamp: &str) -> (value: JsonValue)
    ensures
        worker_error_reported(value, run_id@, exit_code as int, message@, timestamp@),
{
    let mut m = event_members("error", run_id, timestamp);
    push_member(&mut m, "ok", JsonValue::Bool(false));
    push_member(&mut m, "exit_code", number_value(exit_code));
    push_member(&mut m, "message", text_value(message));
    JsonValue::Object(m)
}

/// What a fatal failure emits: an error event with exit code 3, then a failed summary
/// that names the failure.
pub fn fatal_events(run_id: &str, message: &str, state: &WorkerState, timestamp: &str) -> (events: (JsonValue, JsonValue))
    ensures
        worker_error_reported(events.0, run_id@, 3, message@, timestamp@),
        ({
            let m = members_of(events.1);
            &&& events.1 is Object
            &&& m.len() == 10
            &&& worker_event_head(m, "summary"@, run_id@, timestamp@)
            &&& value_at(m, 4, "ok"@, JsonValue::Bool(false))
            &&& number_at(m, 5, "exit_code"@, 3)
            &&& number_at(m, 6, "accepted"@, state.accepted as int)
            &&& number_at(m, 7, "succeeded"@, state.succeeded as int)
            &&& number_at(m, 8, "failed"@, state.failed as int)
            &&& text_at(m, 9, "fatal_error"@, message@)
        }),
{
    let error = worker_error(run_id, 3, message, timestamp);
    let mut m = event_members("summary", run_id, timestamp);
    push_member(&mut m, "ok", JsonValue::Bool(false));
    push_member(&mut m, "exit_code", number_value(3));
    push_member(&mut m, "accepted", number_value(state.accepted));
    push_member(&mut m, "succeeded", number_value(state.succeeded));
    push_member(&mut m, "failed", number_value(state.failed));
    push_member(&mut m, "fatal_error", text_value(message));
    (error, JsonValue::Object(m))
}

/// The Worker's control URLs on the loopback interface.
pub open spec fn control_url(port: u16, path: Seq<char>) -> Seq<char> {
    "http://127.0.0.1:"@ + crate::text::decimal(port as nat) + path
}

pub fn control_urls(port: u16) -> (urls: (String, String, String))
    ensures
        urls.0@ == control_url(port, "/status"@),
        urls.1@ == control_url(port, "/command"@),
        urls.2@ == control_url(port, "/stop"@),
{
    let mut base = String::from_str("http://127.0.0.1:");
    crate::text::push_decimal(&mut base, port as u128);
    let mut status = base.clone();
    status.append("/status");
    let mut command = base.clone();
    command.append("/command");
    let mut stop = base;
    stop.append("/stop");
    (status, command, stop)
}

/// The line settings the Worker reports: a simulated Worker names no port.
pub fn worker_settings_json(settings: &SerialSettings, mode: WorkerMode) -> (value: JsonValue)
    requires
        crate::outside::duration_nanos(settings.timeout) / 1_000_000 <= u64::MAX,
    ensures
        mode == WorkerMode::Live ==> crate::report::settings_reported(value, *settings),
        mode == WorkerMode::Simulate ==> crate::report::line_settings_reported(value, *settings),
{
    match mode {
        WorkerMode::Live => crate::report::settings_json(settings),
        WorkerMode::Simulate => crate::report::line_settings_json(settings),
    }
}


/// The Worker's settings object, or `None` when the timeout cannot be reported in whole
/// `u64` milliseconds.
pub fn worker_settings_report(settings: &SerialSettings, mode: WorkerMode) -> (value: Option<JsonValue>)
    ensures
        value is None <==> !(crate::outside::duration_nanos(settings.timeout) / 1_000_000 <= u64::MAX),
        value matches Some(v) ==> (mode == WorkerMode::Live ==> crate::report::settings_reported(v, *settings)),
        value matches Some(v) ==> (mode == WorkerMode::Simulate ==> crate::report::line_settings_reported(v, *settings)),
{
    if crate::report::timeout_reportable(settings) {
        Some(worker_settings_json(settings, mode))
    } else {
        None
    }
}

/// The runtime resource a Worker reports: the port of a live one, the profile of a
/// simulated one.
pub open spec fn resource_at(m: Seq<JsonMember>, k: int, port: Option<Seq<char>>) -> bool {
    match port {
        Some(p) => text_at(m, k, "port"@, p),
        None => text_at(m, k, "simulation_profile_id"@, "loopback-v1"@),
    }
}

fn push_resource(m: &mut Vec<JsonMember>, port: Option<&str>)
    ensures
        final(m)@.len() == old(m)@.len() + 1,
        forall|k: int| 0 <= k < old(m)@.len() ==> final(m)@[k] == old(m)@[k],
        resource_at(final(m)@, old(m)@.len() as int, crate::cli::view_of_text(port)),
{
    match port {
        Some(p) => push_member(m, "port", text_value(p)),
        None => push_member(m, "simulation_profile_id", text_value("loopback-v1")),
    }
}

/// The control URLs, from member `k` on.
pub open spec fn urls_at(m: Seq<JsonMember>, k: int, control_port: u16) -> bool {
    &&& text_at(m, k, "status_url"@, control_url(control_port, "/status"@))
    &&& text_at(m, k + 1, "command_url"@, control_url(control_port, "/command"@))
    &&& text_at(m, k + 2, "stop_url"@, control_url(control_port, "/stop"@))
}

fn push_urls(m: &mut Vec<JsonMember>, control_port: u16)
    ensures
        final(m)@.len() == old(m)@.len() + 3,
        forall|k: int| 0 <= k < old(m)@.len() ==> final(m)@[k] == old(m)@[k],
        urls_at(final(m)@, old(m)@.len() as int, control_port),
{
    let (status, command, stop) = control_urls(control_port);
    push_member(m, "status_url", JsonValue::Text(status));
    push_member(m, "command_url", JsonValue::Text(command));
    push_member(m, "stop_url", JsonValue::Text(stop));
}

pub open spec fn mode_name(mode: WorkerMode) -> Seq<char> {
    match mode {
        WorkerMode::Live => "live"@,
        WorkerMode::Simulate => "simulate"@,
    }
}

fn mode_text(mode: WorkerMode) -> (name: &'static str)
    ensures
        name@ == mode_name(mode),
{
    match mode {
        WorkerMode::Live => "live",
        WorkerMode::Simulate => "simulate",
    }
}

/// The event announcing that the Worker is ready: its mode, URLs and resource.
pub fn ready_event(run_id: &str, mode: WorkerMode, control_port: u16, port: Option<&str>, timestamp: &str) -> (value: JsonValue)
    ensures
        ({
            let m = members_of(value);
            &&& value is Object
            &&& m.len() == 10
            &&& worker_event_head(m, "ready"@, run_id@, timestamp@)
            &&& text_at(m, 4, "service"@, "serial-tool"@)
            &&& text_at(m, 5, "mode"@, mode_name(mode))
            &&& urls_at(m, 6, control_port)
            &&& resource_at(m, 9, crate::cli::view_of_text(port))
        }),
{
    let mut m = event_members("ready", run_id, timestamp);
    push_member(&mut m, "service", text_value("serial-tool"));
    push_member(&mut m, "mode", text_value(mode_text(mode)));
    push_urls(&mut m, control_port);
    push_resource(&mut m, port);
    JsonValue::Object(m)
}

/// Who a job is, as the status endpoint shows it.
pub open spec fn identity_reported(value: JsonValue, identity: JobIdentity) -> bool {
    let m = members_of(value);
    &&& value is Object
    &&& m.len() == 3
    &&& text_at(m, 0, "worker_job_id"@, identity.worker_job_id@)
    &&& text_at(m, 1, "command"@, identity.command@)
    &&& maybe_text_at(m, 2, "job_id"@, view_of_opt(identity.job_id))
}

pub fn identity_json(identity: &JobIdentity) -> (value: JsonValue)
    ensures
        identity_reported(value, *identity),
{
    let mut m: Vec<JsonMember> = Vec::new();
    push_member(&mut m, "worker_job_id", text_value(identity.worker_job_id.as_str()));
    push_member(&mut m, "command", text_value(identity.command.as_str()));
    push_member(&mut m, "job_id", maybe_text(&identity.job_id));
    JsonValue::Object(m)
}


/// What the status endpoint reports: the slot's status, the active and last jobs, the
/// settings, the URLs and the resource.
pub fn status_json(
    state: &WorkerState,
    run_id: &str,
    mode: WorkerMode,
    serial_settings: &JsonValue,
    control_port: u16,
    port: Option<&str>,
    timestamp: &str,
) -> (value: JsonValue)
    ensures
        ({
            let m = members_of(value);
            &&& value is Object
            &&& m.len() == 14
            &&& number_at(m, 0, "schema_version"@, 2)
            &&& text_at(m, 1, "service"@, "serial-tool"@)
            &&& text_at(m, 2, "run_id"@, run_id@)
            &&& text_at(m, 3, "status"@, status_word(*state))
            &&& text_at(m, 4, "mode"@, mode_name(mode))
            &&& m[5].key@ == "active_job"@
            &&& match state.active {
                Some(identity) => identity_reported(m[5].value, identity),
                None => m[5].value == JsonValue::Null,
            }
            &&& m[6].key@ == "last_job"@
            &&& match state.last_job {
                Some(job) => crate::json::same_json(job, m[6].value),
                None => m[6].value == JsonValue::Null,
            }
            &&& value_at(m, 7, "fatal_error"@, JsonValue::Null)
            &&& text_at(m, 8, "timestamp_utc"@, timestamp@)
            &&& m[9].key@ == "serial_settings"@
            &&& crate::json::same_json(*serial_settings, m[9].value)
            &&& urls_at(m, 10, control_port)
            &&& resource_at(m, 13, crate::cli::view_of_text(port))
        }),
{
    let mut m: Vec<JsonMember> = Vec::new();
    push_member(&mut m, "schema_version", number_value(2));
    push_member(&mut m, "service", text_value("serial-tool"));
    push_member(&mut m, "run_id", text_value(run_id));
    push_member(&mut m, "status", text_value(state.status()));
    push_member(&mut m, "mode", text_value(mode_text(mode)));
    let active = match &state.active {
        Some(identity) => identity_json(identity),
        None => JsonValue::Null,
    };
    push_member(&mut m, "active_job", active);
    let last = match &state.last_job {
        Some(job) => crate::json::copy_json(job),
        None => JsonValue::Null,
    };
    push_member(&mut m, "last_job", last);
    push_member(&mut m, "fatal_error", JsonValue::Null);
    push_member(&mut m, "timestamp_utc", text_value(timestamp));
    push_member(&mut m, "serial_settings", crate::json::copy_json(serial_settings));
    push_urls(&mut m, control_port);
    push_resource(&mut m, port);
    JsonValue::Object(m)
}

/// A control-plane error response: what was asked, as far as it is known, and why it
/// failed.
pub open spec fn error_response_reported(
    value: JsonValue,
    command: Option<Seq<char>>,
    job_id: Option<Seq<char>>,
    error: Seq<char>,
    message: Seq<char>,
) -> bool {
    let m = members_of(value);
    &&& value is Object
    &&& m.len() == 6
    &&& number_at(m, 0, "schema_version"@, 2)
    &&& text_at(m, 1, "status"@, "error"@)
    &&& maybe_text_at(m, 2, "command"@, command)
    &&& maybe_text_at(m, 3, "job_id"@, job_id)
    &&& text_at(m, 4, "error"@, error)
    &&& text_at(m, 5, "message"@, message)
}

pub fn error_response(command: &Option<String>, job_id: &Option<String>, error: &str, message: &str) -> (value: JsonValue)
    ensures
        error_response_reported(value, view_of_opt(*command), view_of_opt(*job_id), error@, message@),
{
    let mut m: Vec<JsonMember> = Vec::new();
    push_member(&mut m, "schema_version", number_value(2));
    push_member(&mut m, "status", text_value("error"));
    push_member(&mut m, "command", maybe_text(command));
    push_member(&mut m, "job_id", maybe_text(job_id));
    push_member(&mut m, "error", text_value(error));
    push_member(&mut m, "message", text_value(message));
    JsonValue::Object(m)
}

impl Rejection {
    /// The validation error response for a refused envelope.
    pub fn to_json(&self) -> (value: JsonValue)
        ensures
            error_response_reported(
                value,
                view_of_opt(self.command),
                view_of_opt(self.job_id),
                "validation_error"@,
                self.message@,
            ),
    {
        error_response(&self.command, &self.job_id, "validation_error", self.message)
    }
}

/// The response to an admitted command.
pub fn accepted_response(identity: &JobIdentity) -> (value: JsonValue)
    ensures
        ({
            let m = members_of(value);
            &&& value is Object
            &&& m.len() == 5
            &&& number_at(m, 0, "schema_version"@, 2)
            &&& text_at(m, 1, "status"@, "accepted"@)
            &&& text_at(m, 2, "command"@, identity.command@)
            &&& maybe_text_at(m, 3, "job_id"@, view_of_opt(identity.job_id))
            &&& text_at(m, 4, "worker_job_id"@, identity.worker_job_id@)
        }),
{
    let mut m: Vec<JsonMember> = Vec::new();
    push_member(&mut m, "schema_version", number_value(2));
    push_member(&mut m, "status", text_value("accepted"));
    push_member(&mut m, "command", text_value(identity.command.as_str()));
    push_member(&mut m, "job_id", maybe_text(&identity.job_id));
    push_member(&mut m, "worker_job_id", text_value(identity.worker_job_id.as_str()));
    JsonValue::Object(m)
}

/// The response to a command refused because the slot is busy or the Worker is stopping.
pub fn rejected_response(identity: &JobIdentity, reason: &str) -> (value: JsonValue)
    ensures
        ({
            let m = members_of(value);
            &&& value is Object
            &&& m.len() == 5
            &&& number_at(m, 0, "schema_version"@, 2)
            &&& text_at(m, 1, "status"@, "rejected"@)
            &&& text_at(m, 2, "command"@, identity.command@)
            &&& maybe_text_at(m, 3, "job_id"@, view_of_opt(identity.job_id))
            &&& text_at(m, 4, "reason"@, reason@)
        }),
{
    let mut m: Vec<JsonMember> = Vec::new();
    push_member(&mut m, "schema_version", number_value(2));
    push_member(&mut m, "status", text_value("rejected"));
    push_member(&mut m, "command", text_value(identity.command.as_str()));
    push_member(&mut m, "job_id", maybe_text(&identity.job_id));
    push_member(&mut m, "reason", text_value(reason));
    JsonValue::Object(m)
}

/// The response to a stop request.
pub fn stopping_response() -> (value: JsonValue)
    ensures
        ({
            let m = members_of(value);
            &&& value is Object
            &&& m.len() == 2
            &&& number_at(m, 0, "schema_version"@, 2)
            &&& text_at(m, 1, "status"@, "stopping"@)
        }),
{
    let mut m: Vec<JsonMember> = Vec::new();
    push_member(&mut m, "schema_version", number_value(2));
    push_member(&mut m, "status", text_value("stopping"));
    JsonValue::Object(m)
}

/// A stop request's body must be empty or an empty JSON object; `parsed` is the body as
/// JSON, or `None` when it was not JSON.
pub fn stop_body_accepted(body_len: usize, parsed: Option<&JsonValue>) -> (ok: bool)
    ensures
        ok == (body_len == 0 || (parsed matches Some(JsonValue::Object(members)) && members@.len() == 0)),
{
    if body_len == 0 {
        return true;
    }
    match parsed {
        Some(JsonValue::Object(members)) => members.len() == 0,
        _ => false,
    }
}

/// The control endpoints.
#[derive(Debug, Clone, Copy, PartialEq, Eq, Structural)]
pub enum Endpoint {
    Status,
    Command,
    Stop,
    NotFound,
}

pub open spec fn endpoint_of(method: Seq<char>, path: Seq<char>) -> Endpoint {
    if method == "GET"@ && path == "/status"@ {
        Endpoint::Status
    } else if method == "POST"@ && path == "/command"@ {
        Endpoint::Command
    } else if method == "POST"@ && path == "/stop"@ {
        Endpoint::Stop
    } else {
        Endpoint::NotFound
    }
}

/// Which endpoint a request addresses.
pub fn route(method: &str, path: &str) -> (endpoint: Endpoint)
    ensures
        endpoint == endpoint_of(method@, path@),
{
    let get = crate::json::text_equals(method, "GET");
    let post = crate::json::text_equals(method, "POST");
    if get && crate::json::text_equals(path, "/status") {
        Endpoint::Status
    } else if post && crate::json::text_equals(path, "/command") {
        Endpoint::Command
    } else if post && crate::json::text_equals(path, "/stop") {
        Endpoint::Stop
    } else {
        Endpoint::NotFound
    }
}

pub open spec fn reason_phrase_of(status: u16) -> Seq<char> {
    if status == 200 {
        "OK"@
    } else if status == 202 {
        "Accepted"@
    } else if status == 400 {
        "Bad Request"@
    } else if status == 404 {
        "Not Found"@
    } else if status == 409 {
        "Conflict"@
    } else {
        "Internal Server Error"@
    }
}

/// The status line and headers of a response with a JSON body of `body_len` bytes.
pub open spec fn response_head_spec(status: u16, body_len: nat) -> Seq<char> {
    "HTTP/1.1 "@ + crate::text::decimal(status as nat) + " "@ + reason_phrase_of(status)
        + "\r\nContent-Type: application/json\r\nContent-Length: "@ + crate::text::decimal(body_len)
        + "\r\nConnection: close\r\n\r\n"@
}

pub fn response_head(status: u16, body_len: usize) -> (head: String)
    ensures
        head@ == response_head_spec(status, body_len as nat),
{
    let reason = if status == 200 {
        "OK"
    } else if status == 202 {
        "Accepted"
    } else if status == 400 {
        "Bad Request"
    } else if status == 404 {
        "Not Found"
    } else if status == 409 {
        "Conflict"
    } else {
        "Internal Server Error"
    };
    let mut head = String::from_str("HTTP/1.1 ");
    crate::text::push_decimal(&mut head, status as u128);
    head.append(" ");
    head.append(reason);
    head.append("\r\nContent-Type: application/json\r\nContent-Length: ");
    crate::text::push_decimal(&mut head, body_len as u128);
    head.append("\r\nConnection: close\r\n\r\n");
    head
}

/// The pause between two passes of the Worker's control loop.
pub const CONTROL_POLL_MS: u64 = 10;

/// How long the Worker keeps serving once it is stopping with no job running.
pub const SHUTDOWN_GRACE_MS: u64 = 200;

/// Why the Worker could not start or keep running.
#[derive(Debug, Clone, Copy, PartialEq, Eq, Structural)]
pub enum WorkerFailure {
    /// The start-up options name no usable line settings.
    Settings,
    /// The serial port could not be opened.
    Open,
    /// The control port could not be bound.
    Bind,
    /// The control plane or the job runner failed while serving.
    Control,
}

/// The process exit code for a failure: 2 for unusable options, 3 for anything that
/// failed once the options were accepted.
pub fn failure_exit_code(failure: WorkerFailure) -> (code: i32)
    ensures
        code == (if failure == WorkerFailure::Settings { 2int } else { 3int }),
{
    match failure {
        WorkerFailure::Settings => 2,
        _ => 3,
    }
}

/// What the control loop does with what the listener gave.
#[derive(Debug)]
pub enum ControlAction {
    /// Serve the accepted connection.
    Serve,
    /// Nothing to serve on this pass.
    Idle,
    /// Leave the loop: the Worker ends with a fatal failure carrying this message.
    Fail { message: String },
}

/// Checked at the top of each pass, before the listener: a runner that ended while the
/// Worker is not stopping is a fatal failure, with this message.
pub fn runner_failure(runner_finished: bool, stopping: bool) -> (message: Option<String>)
    ensures
        message is Some <==> runner_finished && !stopping,
        message matches Some(m) ==> m@ == "runner stopped unexpectedly"@,
{
    if runner_finished && !stopping {
        Some(String::from_str("runner stopped unexpectedly"))
    } else {
        None
    }
}

/// What one accept on the non-blocking control listener gave: a connection is served;
/// a would-block error is an idle pass; any other error is a control failure naming it.
pub fn accept_action(accepted: Result<(), std::io::Error>) -> (action: ControlAction)
    ensures
        match accepted {
            Ok(()) => action is Serve,
            Err(error) => if io_error_class(error) == IoErrorClass::WouldBlock {
                action is Idle
            } else {
                action matches ControlAction::Fail { message }
                    && "HTTP control failure: "@.is_prefix_of(message@)
            },
        },
{
    match accepted {
        Ok(()) => ControlAction::Serve,
        Err(error) => match classify_io_error(&error) {
            IoErrorClass::WouldBlock => ControlAction::Idle,
            _ => {
                let mut message = String::from_str("HTTP control failure: ");
                let detail = io_error_text(&error);
                message.append(detail.as_str());
                ControlAction::Fail { message }
            },
        },
    }
}

/// What the control loop does at the end of a pass.
#[derive(Debug, Clone, Copy, PartialEq, Eq, Structural)]
pub enum PassEnd {
    /// Sleep, then start another pass.
    Sleep { millis: u64 },
    /// Set the shutdown deadline this far ahead, then sleep and start another pass.
    StartGrace { grace_millis: u64, millis: u64 },
    /// Leave the loop and end normally.
    Finish,
}

/// Once the Worker is stopping with no job running, it keeps serving for the grace
/// period, counted from the first such pass, and then ends; until then, and whenever
/// it is not drained, it sleeps one poll interval between passes. `deadline_passed` is
/// `None` until a deadline was set, then whether the clock has reached it.
pub fn pass_end(drained: bool, deadline_passed: Option<bool>) -> (end: PassEnd)
    ensures
        !drained ==> end == (PassEnd::Sleep { millis: CONTROL_POLL_MS }),
        drained && deadline_passed is None ==> end == (PassEnd::StartGrace {
            grace_millis: SHUTDOWN_GRACE_MS,
            millis: CONTROL_POLL_MS,
        }),
        drained && deadline_passed == Some(true) ==> end == PassEnd::Finish,
        drained && deadline_passed == Some(false) ==> end == (PassEnd::Sleep { millis: CONTROL_POLL_MS }),
{
    if !drained {
        return PassEnd::Sleep { millis: CONTROL_POLL_MS };
    }
    match deadline_passed {
        None => PassEnd::StartGrace { grace_millis: SHUTDOWN_GRACE_MS, millis: CONTROL_POLL_MS },
        Some(true) => PassEnd::Finish,
        Some(false) => PassEnd::Sleep { millis: CONTROL_POLL_MS },
    }
}

} // verus!
