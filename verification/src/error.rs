use vstd::prelude::*;
use crate::text::{ascii_chars, hex_bytes_padded, hex_string_padded};

verus! {

/// The kind of an input/output failure, as reported by the stream layer.
#[derive(Debug, Clone, Copy, PartialEq, Eq)]
pub enum IoErrorKind {
    NotFound,
    PermissionDenied,
    ConnectionRefused,
    ConnectionReset,
    ConnectionAborted,
    NotConnected,
    AddrInUse,
    AddrNotAvailable,
    BrokenPipe,
    AlreadyExists,
    WouldBlock,
    InvalidInput,
    InvalidData,
    TimedOut,
    WriteZero,
    Interrupted,
    UnexpectedEof,
    Other,
}

/// An input/output failure: its kind and the text that describes it.
#[derive(Debug, Clone)]
pub struct IoError {
    pub kind: IoErrorKind,
    pub message: String,
}

impl IoError {
    /// The failure of a read that ran out of data before it was complete.
    pub fn unexpected_eof() -> (e: IoError)
        ensures
            e.kind == IoErrorKind::UnexpectedEof,
    {
        IoError { kind: IoErrorKind::UnexpectedEof, message: String::from_str("failed to fill whole buffer") }
    }
}

/// PTP/IP protocol error types.
#[derive(Debug)]
pub enum PtpIpError {
    /// An input/output failure.
    Io(IoError),
    /// An address that could not be parsed; the text says why.
    AddrParse(String),
    /// Data that does not conform to the PTP/IP protocol.
    ProtocolError(String),
    /// An error response returned by the device.
    DeviceError { code: u32, message: String },
    /// A session error (e.g. not open, already closed).
    SessionError(String),
    /// Bytes that are not valid UTF-8; the text says where.
    StringEncoding(String),
    /// Invalid resume data for an interrupted download.
    InvalidResumeData,
    /// The download was cancelled.
    DownloadCancelled,
    /// The operation timed out.
    Timeout,
    /// Other errors.
    Other(String),
}

/// The text that describes an error.
pub open spec fn error_text(e: PtpIpError) -> Seq<char> {
    match e {
        PtpIpError::Io(io) => "IO error: "@ + io.message@,
        PtpIpError::AddrParse(m) => "Address parsing error: "@ + m@,
        PtpIpError::ProtocolError(m) => "Protocol error: "@ + m@,
        PtpIpError::DeviceError { code, message } => "Device error (0x"@ + ascii_chars(
            hex_bytes_padded(code as nat, 4),
        ) + "): "@ + message@,
        PtpIpError::SessionError(m) => "Session error: "@ + m@,
        PtpIpError::StringEncoding(m) => "String encoding error: "@ + m@,
        PtpIpError::InvalidResumeData => "Invalid resume data"@,
        PtpIpError::DownloadCancelled => "Download cancelled"@,
        PtpIpError::Timeout => "Operation timed out"@,
        PtpIpError::Other(m) => "Error: "@ + m@,
    }
}

/// The error that an input/output failure becomes: a timeout is reported as
/// `Timeout`, every other failure as `Io`.
pub open spec fn error_from_io(err: IoError) -> PtpIpError {
    if err.kind == IoErrorKind::TimedOut {
        PtpIpError::Timeout
    } else {
        PtpIpError::Io(err)
    }
}

impl PtpIpError {
    /// The error that an input/output failure becomes (see `error_from_io`).
    pub fn from_io(err: IoError) -> (r: PtpIpError)
        ensures
            r == error_from_io(err),
    {
        match err.kind {
            IoErrorKind::TimedOut => PtpIpError::Timeout,
            _ => PtpIpError::Io(err),
        }
    }

    /// The text that describes this error.
    pub fn describe(&self) -> (r: String)
        ensures
            r@ == error_text(*self),
    {
        match self {
            PtpIpError::Io(io) => {
                let mut r = String::from_str("IO error: ");
                r.append(io.message.as_str());
                r
            },
            PtpIpError::AddrParse(m) => {
                let mut r = String::from_str("Address parsing error: ");
                r.append(m.as_str());
                r
            },
            PtpIpError::ProtocolError(m) => {
                let mut r = String::from_str("Protocol error: ");
                r.append(m.as_str());
                r
            },
            PtpIpError::DeviceError { code, message } => {
                let mut r = String::from_str("Device error (0x");
                let h = hex_string_padded(*code as u64, 4);
                r.append(h.as_str());
                r.append("): ");
                r.append(message.as_str());
                r
            },
            PtpIpError::SessionError(m) => {
                let mut r = String::from_str("Session error: ");
                r.append(m.as_str());
                r
            },
            PtpIpError::StringEncoding(m) => {
                let mut r = String::from_str("String encoding error: ");
                r.append(m.as_str());
                r
            },
            PtpIpError::InvalidResumeData => String::from_str("Invalid resume data"),
            PtpIpError::DownloadCancelled => String::from_str("Download cancelled"),
            PtpIpError::Timeout => String::from_str("Operation timed out"),
            PtpIpError::Other(m) => {
                let mut r = String::from_str("Error: ");
                r.append(m.as_str());
                r
            },
        }
    }

    /// Whether the error wraps an underlying error of its own (an input/output
    /// failure, an address parse failure or invalid UTF-8).
    pub fn has_source(&self) -> (r: bool)
        ensures
            r <==> (*self is Io || *self is AddrParse || *self is StringEncoding),
    {
        match self {
            PtpIpError::Io(_) | PtpIpError::AddrParse(_) | PtpIpError::StringEncoding(_) => true,
            _ => false,
        }
    }
}

} // verus!
