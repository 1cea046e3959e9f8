use std::time::Duration;
use vstd::prelude::*;

use crate::error::Error;
use crate::text::{trim_str, trimmed};

verus! {

#[derive(Debug, Clone, Copy, PartialEq, Eq, Structural)]
pub enum DataBits {
    Five,
    Six,
    Seven,
    Eight,
}

#[derive(Debug, Clone, Copy, PartialEq, Eq, Structural)]
pub enum Parity {
    NoParity,
    Odd,
    Even,
}

#[derive(Debug, Clone, Copy, PartialEq, Eq, Structural)]
pub enum StopBits {
    One,
    Two,
}

#[derive(Debug, Clone, Copy, PartialEq, Eq, Structural)]
pub enum FlowControl {
    NoFlowControl,
    Software,
    Hardware,
}

/// The timeout applies to serial port I/O as supported by the underlying driver.
#[derive(Debug, PartialEq, Eq)]
pub struct SerialSettings {
    pub port: String,
    pub baud_rate: u32,
    pub data_bits: DataBits,
    pub parity: Parity,
    pub stop_bits: StopBits,
    pub flow_control: FlowControl,
    pub timeout: Duration,
}

impl Clone for SerialSettings {
    fn clone(&self) -> (copy: Self)
        ensures
            copy == *self,
    {
        SerialSettings {
            port: self.port.clone(),
            baud_rate: self.baud_rate,
            data_bits: self.data_bits,
            parity: self.parity,
            stop_bits: self.stop_bits,
            flow_control: self.flow_control,
            timeout: self.timeout,
        }
    }
}

/// A port name is blank when nothing but whitespace remains once it is trimmed.
pub open spec fn port_is_blank(port: Seq<char>) -> bool {
    trimmed(port).len() == 0
}

impl SerialSettings {
    /// Settings are usable when the port name is not blank and the baud rate is nonzero.
    pub open spec fn is_valid(&self) -> bool {
        !port_is_blank(self.port@) && self.baud_rate != 0
    }

    pub fn validate(&self) -> (result: Result<(), Error>)
        ensures
            port_is_blank(self.port@) ==> result == Err::<(), Error>(
                Error::InvalidConfiguration("port name must not be empty"),
            ),
            !port_is_blank(self.port@) && self.baud_rate == 0 ==> result == Err::<(), Error>(
                Error::InvalidConfiguration("baud rate must be nonzero"),
            ),
            self.is_valid() ==> result is Ok,
    {
        if trim_str(self.port.as_str()).is_empty() {
            return Err(Error::InvalidConfiguration("port name must not be empty"));
        }
        if self.baud_rate == 0 {
            return Err(Error::InvalidConfiguration("baud rate must be nonzero"));
        }
        Ok(())
    }
}

} // verus!
