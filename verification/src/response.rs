//! Response-side descriptor envelope: send mode catalog and the structural
//! descriptor type.
//!
//! A response descriptor on the wire is `[0xA5][0x5A][packed 30-bit length
//! and 2-bit send mode][data type]`. The bit order of the packed field is an
//! unspecified wire detail, so no packing or unpacking is defined here; the
//! descriptor is kept as its unpacked fields.

use vstd::prelude::*;

verus! {

/// First byte of the two-byte response start flag.
pub const RESPONSE_START_FLAG_1: u8 = 0xA5;

/// Second byte of the two-byte response start flag.
pub const RESPONSE_START_FLAG_2: u8 = 0x5A;

/// Largest value that fits in the 30-bit response length field.
pub const MAX_DATA_RESPONSE_LENGTH: u32 = 0x3FFF_FFFF;

/// How many response packets a request expects, as a 2-bit wire field.
#[derive(Debug, Clone, Copy, PartialEq)]
pub enum SendMode {
    /// Single request - single response.
    SRSR,
    /// Single request - multiple responses.
    SRMR,
    Reserved1,
    Reserved2,
}

impl SendMode {
    /// Wire encoding of each send mode.
    pub open spec fn spec_byte(self) -> u8 {
        match self {
            SendMode::SRSR => 0x0,
            SendMode::SRMR => 0x1,
            SendMode::Reserved1 => 0x2,
            SendMode::Reserved2 => 0x3,
        }
    }

    /// Which send mode, if any, a wire value decodes to.
    pub open spec fn spec_parse(send_mode: u8) -> Option<SendMode> {
        if send_mode == 0x0 {
            Some(SendMode::SRSR)
        } else if send_mode == 0x1 {
            Some(SendMode::SRMR)
        } else if send_mode == 0x2 {
            Some(SendMode::Reserved1)
        } else if send_mode == 0x3 {
            Some(SendMode::Reserved2)
        } else {
            None
        }
    }

    /// Encode this send mode as its 2-bit wire value.
    pub fn as_byte(self) -> (r: u8)
        ensures
            r == self.spec_byte(),
    {
        match self {
            SendMode::SRSR => 0x0,
            SendMode::SRMR => 0x1,
            SendMode::Reserved1 => 0x2,
            SendMode::Reserved2 => 0x3,
        }
    }

    /// Decode a 2-bit wire value; `None` for anything above 3.
    pub fn parse(send_mode: u8) -> (r: Option<SendMode>)
        ensures
            r == SendMode::spec_parse(send_mode),
    {
        if send_mode == 0x0 {
            Some(SendMode::SRSR)
        } else if send_mode == 0x1 {
            Some(SendMode::SRMR)
        } else if send_mode == 0x2 {
            Some(SendMode::Reserved1)
        } else if send_mode == 0x3 {
            Some(SendMode::Reserved2)
        } else {
            None
        }
    }
}

/// The unpacked fields of a response descriptor.
#[derive(Debug, Clone, Copy, PartialEq)]
pub struct ResponseDescriptorData {
    pub start_flag: (u8, u8),
    /// Occupies only 30 bits on the wire.
    pub data_response_length: u32,
    /// Occupies only 2 bits on the wire.
    pub send_mode: SendMode,
    pub data_type: u8,
}

impl ResponseDescriptorData {
    /// A descriptor is well formed when its start flag is the fixed marker
    /// pair and its length fits the 30-bit wire field.
    pub open spec fn wf(self) -> bool {
        &&& self.start_flag.0 == RESPONSE_START_FLAG_1
        &&& self.start_flag.1 == RESPONSE_START_FLAG_2
        &&& self.data_response_length <= MAX_DATA_RESPONSE_LENGTH
    }

    /// Build a well-formed descriptor with the fixed start flag pair.
    pub fn new(data_response_length: u32, send_mode: SendMode, data_type: u8) -> (r: Self)
        requires
            data_response_length <= MAX_DATA_RESPONSE_LENGTH,
        ensures
            r.wf(),
            r.data_response_length == data_response_length,
            r.send_mode == send_mode,
            r.data_type == data_type,
    {
        Self {
            start_flag: (RESPONSE_START_FLAG_1, RESPONSE_START_FLAG_2),
            data_response_length,
            send_mode,
            data_type,
        }
    }
}

/// A response packet of the sensor.
#[derive(Debug, Clone, Copy, PartialEq)]
pub enum Response {
    /// Sent whenever a request requires a response; announces the format of
    /// the data responses that follow.
    ResponseDescriptor(ResponseDescriptorData),
    /// Follows the descriptor and carries the data sent by the sensor.
    DataResponse,
}

} // verus!
