use vstd::prelude::*;
use rand::Rng;

verus! {

/// Size of a PTP/IP packet header, in bytes.
pub const PTPIP_HEADER_SIZE: usize = 10;

/// Default TCP port of PTP/IP.
pub const PTPIP_DEFAULT_PORT: u16 = 15740;

/// Largest packet size, in bytes.
pub const PTPIP_MAX_PACKET_SIZE: usize = 16384;

/// Session configuration.
#[derive(Debug, Clone)]
pub struct SessionConfig {
    /// Timeout in seconds.
    pub timeout: u64,
    /// Maximum number of retries.
    pub max_retries: usize,
    /// Delay between retries, in milliseconds.
    pub retry_delay_ms: u64,
    /// Keep-alive interval in seconds.
    pub keep_alive_interval: u64,
    /// PTP/IP protocol version.
    pub version: u16,
}

impl Default for SessionConfig {
    fn default() -> (r: Self)
        ensures
            r.timeout == 30,
            r.max_retries == 3,
            r.retry_delay_ms == 1000,
            r.keep_alive_interval == 10,
            r.version == 0x0100,
    {
        SessionConfig {
            timeout: 30,
            max_retries: 3,
            retry_delay_ms: 1000,
            keep_alive_interval: 10,
            version: 0x0100,
        }
    }
}

/// A PTP/IP session handle; zero is the invalid handle.
#[derive(Debug, Clone, Copy, PartialEq, Eq, Hash, Structural)]
pub struct SessionHandle(pub u32);

impl SessionHandle {
    /// A handle with the given raw value.
    pub fn new(value: u32) -> (r: Self)
        ensures
            r.0 == value,
    {
        SessionHandle(value)
    }

    /// The raw value of the handle.
    pub fn as_u32(&self) -> (r: u32)
        ensures
            r == self.0,
    {
        self.0
    }

    /// Whether the handle is valid, that is, not zero.
    pub fn is_valid(&self) -> (r: bool)
        ensures
            r == (self.0 != 0),
    {
        self.0 != 0
    }

    /// The invalid handle.
    pub fn invalid() -> (r: Self)
        ensures
            r.0 == 0,
    {
        SessionHandle(0)
    }
}

impl Default for SessionHandle {
    fn default() -> (r: Self)
        ensures
            r.0 == 0,
    {
        SessionHandle(0)
    }
}

/// Download statistics.
#[derive(Debug, Clone)]
pub struct DownloadStats {
    /// Total file size in bytes.
    pub total_bytes: u64,
    /// Bytes downloaded.
    pub downloaded_bytes: u64,
    /// Number of chunks downloaded.
    pub chunks: usize,
    /// Number of retries performed.
    pub retries: usize,
    /// Duration in milliseconds.
    pub duration_ms: u64,
}

impl Default for DownloadStats {
    fn default() -> (r: Self)
        ensures
            r.total_bytes == 0,
            r.downloaded_bytes == 0,
            r.chunks == 0,
            r.retries == 0,
            r.duration_ms == 0,
    {
        DownloadStats { total_bytes: 0, downloaded_bytes: 0, chunks: 0, retries: 0, duration_ms: 0 }
    }
}

/// PTP/IP message types.
#[derive(Debug, PartialEq, Eq, Clone, Copy, Structural)]
pub enum PtpIpMessageType {
    DiscoveryRequest,
    DiscoveryResponse,
    CommandBlock,
    DataBlock,
    ResponseBlock,
    EventBlock,
}

/// The wire code of a message type.
pub open spec fn message_type_code(t: PtpIpMessageType) -> u16 {
    match t {
        PtpIpMessageType::DiscoveryRequest => 0x0001,
        PtpIpMessageType::DiscoveryResponse => 0x0002,
        PtpIpMessageType::CommandBlock => 0x0003,
        PtpIpMessageType::DataBlock => 0x0004,
        PtpIpMessageType::ResponseBlock => 0x0005,
        PtpIpMessageType::EventBlock => 0x0006,
    }
}

impl PtpIpMessageType {
    /// The wire code of this message type.
    pub fn as_u16(&self) -> (r: u16)
        ensures
            r == message_type_code(*self),
    {
        match self {
            PtpIpMessageType::DiscoveryRequest => 0x0001,
            PtpIpMessageType::DiscoveryResponse => 0x0002,
            PtpIpMessageType::CommandBlock => 0x0003,
            PtpIpMessageType::DataBlock => 0x0004,
            PtpIpMessageType::ResponseBlock => 0x0005,
            PtpIpMessageType::EventBlock => 0x0006,
        }
    }
}

/// PTP operation codes.
#[derive(Debug, PartialEq, Eq, Clone, Copy, Structural)]
pub enum PtpOperationCode {
    ResponseOk,
    GetDeviceInfo,
    OpenSession,
    CloseSession,
    GetStorageIDs,
    GetStorageInfo,
    GetObjectHandles,
    GetObjectInfo,
    GetObject,
    GetThumb,
    DeleteObject,
    MoveObject,
    GetDevicePropValue,
    SetDevicePropValue,
    InitiateCapture,
    GetPartialObject,
    GetObjectMetadata,
    SetObjectMetadata,
}

/// The wire code of an operation.
pub open spec fn operation_code(c: PtpOperationCode) -> u16 {
    match c {
        PtpOperationCode::ResponseOk => 0x2001,
        PtpOperationCode::GetDeviceInfo => 0x1001,
        PtpOperationCode::OpenSession => 0x1002,
        PtpOperationCode::CloseSession => 0x1003,
        PtpOperationCode::GetStorageIDs => 0x1004,
        PtpOperationCode::GetStorageInfo => 0x1005,
        PtpOperationCode::GetObjectHandles => 0x1006,
        PtpOperationCode::GetObjectInfo => 0x1007,
        PtpOperationCode::GetObject => 0x1008,
        PtpOperationCode::GetThumb => 0x1009,
        PtpOperationCode::DeleteObject => 0x1011,
        PtpOperationCode::MoveObject => 0x1012,
        PtpOperationCode::GetDevicePropValue => 0x1014,
        PtpOperationCode::SetDevicePropValue => 0x1015,
        PtpOperationCode::InitiateCapture => 0x100E,
        PtpOperationCode::GetPartialObject => 0x101B,
        PtpOperationCode::GetObjectMetadata => 0x1023,
        PtpOperationCode::SetObjectMetadata => 0x1024,
    }
}

impl PtpOperationCode {
    /// The wire code of this operation.
    pub fn as_u16(&self) -> (r: u16)
        ensures
            r == operation_code(*self),
    {
        match self {
            PtpOperationCode::ResponseOk => 0x2001,
            PtpOperationCode::GetDeviceInfo => 0x1001,
            PtpOperationCode::OpenSession => 0x1002,
            PtpOperationCode::CloseSession => 0x1003,
            PtpOperationCode::GetStorageIDs => 0x1004,
            PtpOperationCode::GetStorageInfo => 0x1005,
            PtpOperationCode::GetObjectHandles => 0x1006,
            PtpOperationCode::GetObjectInfo => 0x1007,
            PtpOperationCode::GetObject => 0x1008,
            PtpOperationCode::GetThumb => 0x1009,
            PtpOperationCode::DeleteObject => 0x1011,
            PtpOperationCode::MoveObject => 0x1012,
            PtpOperationCode::GetDevicePropValue => 0x1014,
            PtpOperationCode::SetDevicePropValue => 0x1015,
            PtpOperationCode::InitiateCapture => 0x100E,
            PtpOperationCode::GetPartialObject => 0x101B,
            PtpOperationCode::GetObjectMetadata => 0x1023,
            PtpOperationCode::SetObjectMetadata => 0x1024,
        }
    }
}

/// PTP event types.
#[derive(Debug, PartialEq, Eq, Clone, Copy, Structural)]
pub enum EventType {
    ObjectAdded,
    ObjectRemoved,
    StoreAdded,
    StoreRemoved,
    DevicePropChanged,
    RequestObjectTransfer,
}

/// The wire code of an event type.
pub open spec fn event_code(e: EventType) -> u16 {
    match e {
        EventType::ObjectAdded => 0x4001,
        EventType::ObjectRemoved => 0x4002,
        EventType::StoreAdded => 0x4003,
        EventType::StoreRemoved => 0x4004,
        EventType::DevicePropChanged => 0x4005,
        EventType::RequestObjectTransfer => 0x4006,
    }
}

impl EventType {
    /// The wire code of this event type.
    pub fn as_u16(&self) -> (r: u16)
        ensures
            r == event_code(*self),
    {
        match self {
            EventType::ObjectAdded => 0x4001,
            EventType::ObjectRemoved => 0x4002,
            EventType::StoreAdded => 0x4003,
            EventType::StoreRemoved => 0x4004,
            EventType::DevicePropChanged => 0x4005,
            EventType::RequestObjectTransfer => 0x4006,
        }
    }
}

/// A camera found by discovery.
#[derive(Debug, Clone)]
pub struct DiscoveredCamera {
    /// IPv4 address of the camera, as its four octets.
    pub ip_address: [u8; 4],
    pub port: u16,
    pub model_name: String,
    pub vendor_extension_id: u32,
    pub vendor_extension_version: u16,
}

/// A PTP/IP packet.
#[derive(Debug)]
pub struct PtpIpPacket {
    pub message_type: PtpIpMessageType,
    pub transaction_id: u32,
    pub payload: Vec<u8>,
}

/// Device information.
#[derive(Debug, Clone)]
pub struct DeviceInfo {
    pub manufacturer: String,
    pub model: String,
    pub device_version: String,
    pub serial_number: String,
    pub supported_operations: Vec<u16>,
}

/// Storage information.
#[derive(Debug, Clone)]
pub struct StorageInfo {
    pub storage_id: u32,
    pub storage_type: u16,
    pub filesystem_type: u16,
    pub access_capability: u16,
    pub max_capacity: u64,
    pub free_space_in_bytes: u64,
    pub free_space_in_objects: u32,
    pub storage_description: String,
    pub volume_label: String,
}

/// Object (photo) information.
#[derive(Debug, Clone)]
pub struct ObjectInfo {
    pub handle: u32,
    pub storage_id: u32,
    pub object_format: u16,
    pub protection_status: u8,
    pub object_size: u64,
    pub thumb_size: u32,
    pub filename: String,
    pub capture_date: String,
    pub modification_date: String,
    pub keywords: String,
}

/// Event data.
#[derive(Debug)]
pub struct PtpEvent {
    pub event_type: EventType,
    pub transaction_id: u32,
    pub parameters: Vec<u32>,
}

/// A random transaction identifier, from `rand::thread_rng().gen::<u32>()`.
/// The value is random, so nothing is stated of it.
#[verifier::external_body]
pub fn generate_transaction_id() -> u32 {
    rand::thread_rng().gen::<u32>()
}

/// The operation whose wire code is `opcode`, if there is one.
pub fn opcode_to_enum(opcode: u16) -> (r: Option<PtpOperationCode>)
    ensures
        r matches Some(c) ==> operation_code(c) == opcode,
        r is None ==> forall|c: PtpOperationCode| operation_code(c) != opcode,
{
    let r = match opcode {
        0x2001 => Some(PtpOperationCode::ResponseOk),
        0x1001 => Some(PtpOperationCode::GetDeviceInfo),
        0x1002 => Some(PtpOperationCode::OpenSession),
        0x1003 => Some(PtpOperationCode::CloseSession),
        0x1004 => Some(PtpOperationCode::GetStorageIDs),
        0x1005 => Some(PtpOperationCode::GetStorageInfo),
        0x1006 => Some(PtpOperationCode::GetObjectHandles),
        0x1007 => Some(PtpOperationCode::GetObjectInfo),
        0x1008 => Some(PtpOperationCode::GetObject),
        0x1009 => Some(PtpOperationCode::GetThumb),
        0x1011 => Some(PtpOperationCode::DeleteObject),
        0x1012 => Some(PtpOperationCode::MoveObject),
        0x1014 => Some(PtpOperationCode::GetDevicePropValue),
        0x1015 => Some(PtpOperationCode::SetDevicePropValue),
        0x100E => Some(PtpOperationCode::InitiateCapture),
        0x101B => Some(PtpOperationCode::GetPartialObject),
        0x1023 => Some(PtpOperationCode::GetObjectMetadata),
        0x1024 => Some(PtpOperationCode::SetObjectMetadata),
        _ => None,
    };
    proof {
        if r is None {
            assert forall|c: PtpOperationCode| operation_code(c) != opcode by {
                match c {
                    _ => {},
                }
            }
        }
    }
    r
}

/// Distinct operations have distinct wire codes, so `opcode_to_enum` gives back
/// the operation whose code it is given.
pub proof fn lemma_operation_code_injective(a: PtpOperationCode, b: PtpOperationCode)
    requires
        operation_code(a) == operation_code(b),
    ensures
        a == b,
{
    match a {
        _ => match b {
            _ => {},
        },
    }
}

/// Whether `opcode` lies in the range of response codes, 0x2000 to 0x2FFF.
pub fn is_response_opcode(opcode: u16) -> (r: bool)
    ensures
        r == (0x2000 <= opcode <= 0x2FFF),
{
    opcode >= 0x2000 && opcode <= 0x2FFF
}

} // verus!
