//! The socket event that one record of a trace decodes to, and the errors
//! that decoding reports.

use vstd::prelude::*;

verus! {

/// The most bytes of a process name that an event keeps.
pub const PROCESS_NAME_CAPACITY: usize = 16;

/// The most bytes of a container id that an event keeps.
pub const CONTAINER_ID_CAPACITY: usize = 13;

/// Whether the traced call sent or received.
#[derive(Clone, Copy, Debug, PartialEq, Eq)]
pub enum Direction {
    Send,
    Receive,
}

/// The side of the connection that the traced socket is on.
#[derive(Clone, Copy, Debug, PartialEq, Eq)]
pub enum SocketRole {
    Unknown,
    Client,
    Server,
}

/// The transport protocol of the traced socket.
#[derive(Clone, Copy, Debug, PartialEq, Eq)]
pub enum TransportProtocol {
    Unspecified,
    Tcp,
    Udp,
}

/// The kind of address that both ends of a connection have.
#[derive(Clone, Copy, Debug, PartialEq, Eq)]
pub enum AddressFamily {
    V4,
    V6,
}

/// The two ends of the traced connection.
#[derive(Clone, Debug, PartialEq, Eq)]
pub struct SocketTuple {
    pub local_addr: Vec<u8>,
    pub remote_addr: Vec<u8>,
    pub local_port: u16,
    pub remote_port: u16,
    pub address_family: AddressFamily,
    pub address_length: u8,
}

/// The model of a `SocketTuple`.
pub struct SocketTupleView {
    pub local_addr: Seq<u8>,
    pub remote_addr: Seq<u8>,
    pub local_port: u16,
    pub remote_port: u16,
    pub address_family: AddressFamily,
    pub address_length: u8,
}

/// One send or receive on a socket, as the instrumentation layer recorded
/// it.
#[derive(Clone, Debug, PartialEq, Eq)]
pub struct SocketEvent {
    pub l7_protocol_hint: u16,
    pub direction: Direction,
    pub msg_type: u8,
    pub process_id: u32,
    pub thread_id: u32,
    pub coroutine_id: u64,
    pub fd: u32,
    pub socket_role: SocketRole,
    pub container_id: Vec<u8>,
    pub source: u8,
    pub process_name: Vec<u8>,
    pub transport_protocol: TransportProtocol,
    pub tuple: SocketTuple,
    pub cap_len: u32,
    pub syscall_len: u64,
    pub socket_id: u64,
    pub syscall_trace_id: u64,
    pub tcp_seq: u64,
    pub cap_seq: u64,
    pub is_tls: bool,
    pub timestamp: u64,
    pub cap_timestamp: u64,
    pub cap_data: Vec<u8>,
}

/// The model of a `SocketEvent`.
pub struct SocketEventView {
    pub l7_protocol_hint: u16,
    pub direction: Direction,
    pub msg_type: u8,
    pub process_id: u32,
    pub thread_id: u32,
    pub coroutine_id: u64,
    pub fd: u32,
    pub socket_role: SocketRole,
    pub container_id: Seq<u8>,
    pub source: u8,
    pub process_name: Seq<u8>,
    pub transport_protocol: TransportProtocol,
    pub tuple: SocketTupleView,
    pub cap_len: u32,
    pub syscall_len: u64,
    pub socket_id: u64,
    pub syscall_trace_id: u64,
    pub tcp_seq: u64,
    pub cap_seq: u64,
    pub is_tls: bool,
    pub timestamp: u64,
    pub cap_timestamp: u64,
    pub cap_data: Seq<u8>,
}

/// The part of a record that an error is about.
#[derive(Clone, Copy, Debug, PartialEq, Eq)]
pub enum Field {
    Reserved,
    ProtocolHint,
    Direction,
    MsgType,
    ProcessId,
    ThreadId,
    CoroutineId,
    Fd,
    Role,
    ContainerId,
    Source,
    ProcessName,
    TransportProtocol,
    LocalEndpoint,
    RemoteEndpoint,
    CapLen,
    SyscallLen,
    SocketId,
    TraceId,
    TcpSeq,
    DataSeq,
    Tls,
    SyscallTime,
    CapTime,
    Payload,
}

/// What is wrong with a field.
#[derive(Clone, Copy, Debug, PartialEq, Eq)]
pub enum Fault {
    /// The tag or the token of the field does not stand where the grammar
    /// wants it.
    Syntax,
    /// The token is there, but it does not write a value of the field.
    Value,
}

/// Why a record was not decoded.
#[derive(Clone, Copy, Debug, PartialEq, Eq)]
pub struct ParseError {
    pub field: Field,
    pub fault: Fault,
}

impl View for SocketTuple {
    type V = SocketTupleView;

    open spec fn view(&self) -> SocketTupleView {
        SocketTupleView {
            local_addr: self.local_addr@,
            remote_addr: self.remote_addr@,
            local_port: self.local_port,
            remote_port: self.remote_port,
            address_family: self.address_family,
            address_length: self.address_length,
        }
    }
}

impl View for SocketEvent {
    type V = SocketEventView;

    open spec fn view(&self) -> SocketEventView {
        SocketEventView {
            l7_protocol_hint: self.l7_protocol_hint,
            direction: self.direction,
            msg_type: self.msg_type,
            process_id: self.process_id,
            thread_id: self.thread_id,
            coroutine_id: self.coroutine_id,
            fd: self.fd,
            socket_role: self.socket_role,
            container_id: self.container_id@,
            source: self.source,
            process_name: self.process_name@,
            transport_protocol: self.transport_protocol,
            tuple: self.tuple@,
            cap_len: self.cap_len,
            syscall_len: self.syscall_len,
            socket_id: self.socket_id,
            syscall_trace_id: self.syscall_trace_id,
            tcp_seq: self.tcp_seq,
            cap_seq: self.cap_seq,
            is_tls: self.is_tls,
            timestamp: self.timestamp,
            cap_timestamp: self.cap_timestamp,
            cap_data: self.cap_data@,
        }
    }
}

impl SocketTupleView {
    /// The addresses have the length that the family gives them.
    pub open spec fn wf(self) -> bool {
        &&& self.address_length == match self.address_family {
            AddressFamily::V4 => 4u8,
            AddressFamily::V6 => 16u8,
        }
        &&& self.local_addr.len() == self.address_length
        &&& self.remote_addr.len() == self.address_length
    }
}

impl SocketEventView {
    /// The names fit their capacities and the addresses their family.
    pub open spec fn wf(self) -> bool {
        &&& self.container_id.len() <= CONTAINER_ID_CAPACITY
        &&& self.process_name.len() <= PROCESS_NAME_CAPACITY
        &&& self.tuple.wf()
    }
}

impl SocketRole {
    /// The number that stands for the role in a flat record.
    pub open spec fn spec_code(self) -> u8 {
        match self {
            SocketRole::Unknown => 0,
            SocketRole::Client => 1,
            SocketRole::Server => 2,
        }
    }

    /// The number that stands for the role in a flat record.
    #[verifier::when_used_as_spec(spec_code)]
    pub fn code(self) -> (r: u8)
        ensures
            r == self.spec_code(),
    {
        match self {
            SocketRole::Unknown => 0,
            SocketRole::Client => 1,
            SocketRole::Server => 2,
        }
    }
}

impl TransportProtocol {
    /// The protocol number; 0 where none is specified.
    pub open spec fn spec_number(self) -> u8 {
        match self {
            TransportProtocol::Unspecified => 0,
            TransportProtocol::Tcp => 6,
            TransportProtocol::Udp => 17,
        }
    }

    /// The protocol number as the internet registry assigns it; 0 where
    /// the trace named none that is known.
    #[verifier::when_used_as_spec(spec_number)]
    pub fn number(self) -> (r: u8)
        ensures
            r == self.spec_number(),
    {
        match self {
            TransportProtocol::Unspecified => 0,
            TransportProtocol::Tcp => 6,
            TransportProtocol::Udp => 17,
        }
    }
}

} // verus!
