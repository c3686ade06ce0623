//! The server peer: its configuration, the decisions of its carrier session,
//! and the workers of the connections it dials.
//!
//! As on the client, the session's egress task owns the connection table and
//! every other task talks to it by `ServerEvent`s.

use crate::address::{IpAddress, SocketAddress};
use crate::proto::{Frame, TcpWarpMessage, TcpWarpProtoHost};
use std::collections::HashMap;
use vstd::prelude::*;
use vstd::slice::slice_to_vec;

verus! {

broadcast use vstd::std_specs::hash::group_hash_axioms;

/// The server: where it accepts carriers, the default address of targets,
/// and the ports it advertises.
pub struct TcpWarpServer {
    pub listen_address: SocketAddress,
    pub connect_address: IpAddress,
    pub ports: Vec<u16>,
}

/// Where the server dials the target of a connection.
#[derive(Debug, Clone, PartialEq, Eq)]
pub enum DialTarget {
    /// The host the client named, resolved on the server.
    Host { host: String, port: u16 },
    /// The server's default address.
    Address(SocketAddress),
}

/// What the ingress task of a server session does with a frame from the
/// carrier.
pub enum ServerIngress {
    /// Dial the target of a new connection.
    Dial { connection_id: u128, target: DialTarget },
    /// Hand the frame to the egress task.
    Forward(TcpWarpMessage),
    /// A frame the client does not send to servers: drop it.
    Ignore(TcpWarpMessage),
}

impl TcpWarpServer {
    pub fn new(listen_address: SocketAddress, connect_address: IpAddress, ports: Vec<u16>) -> (r:
        Self)
        ensures
            r.listen_address == listen_address,
            r.connect_address == connect_address,
            r.ports@ == ports@,
    {
        TcpWarpServer { listen_address, connect_address, ports }
    }

    /// The first frame of every carrier session: the advertised ports.
    pub fn announcement(&self) -> (r: TcpWarpMessage)
        ensures
            r@ == Frame::AddPorts(self.ports@),
    {
        TcpWarpMessage::AddPorts(slice_to_vec(self.ports.as_slice()))
    }

    /// The target of a `HostConnect`: the named host, or else the default
    /// address; on `port` either way.
    pub fn dial_target(&self, host: Option<String>, port: u16) -> (r: DialTarget)
        ensures
            host matches Some(h) ==> r == (DialTarget::Host { host: h, port }),
            host is None ==> r == DialTarget::Address(
                SocketAddress { ip: self.connect_address, port },
            ),
    {
        match host {
            Some(h) => DialTarget::Host { host: h, port },
            None => DialTarget::Address(SocketAddress { ip: self.connect_address, port }),
        }
    }

    /// Sorts a frame from the client: `HostConnect` dials its target; data
    /// and `DisconnectClient` go to the egress task; anything else is
    /// dropped.
    pub fn client_to_host(&self, message: TcpWarpMessage) -> (r: ServerIngress)
        ensures
            message matches TcpWarpMessage::HostConnect { connection_id, host, port } ==> r == (
            ServerIngress::Dial {
                connection_id,
                target: if host is Some {
                    DialTarget::Host { host: host->0, port }
                } else {
                    DialTarget::Address(SocketAddress { ip: self.connect_address, port })
                },
            }),
            (message@ is BytesClient || message@ is DisconnectClient) ==> (r matches ServerIngress::Forward(
                f,
            ) && f@ == message@),
            !(message@ is HostConnect || message@ is BytesClient || message@ is DisconnectClient)
                ==> (r matches ServerIngress::Ignore(f) && f@ == message@),
    {
        match message {
            TcpWarpMessage::HostConnect { connection_id, host, port } => ServerIngress::Dial {
                connection_id,
                target: self.dial_target(host, port),
            },
            TcpWarpMessage::BytesClient { .. } => ServerIngress::Forward(message),
            TcpWarpMessage::DisconnectClient { .. } => ServerIngress::Forward(message),
            other => ServerIngress::Ignore(other),
        }
    }
}

/// What the egress task of a server session receives.
pub enum ServerEvent<S, C> {
    /// The target of a connection was reached; its worker is ready.
    ConnectForward { connection_id: u128, sender: S, connected_sender: C },
    /// A frame: from the carrier, from a worker, or a failed dial.
    Frame(TcpWarpMessage),
}

/// What the egress task of a server session does after an event.
pub enum ServerAction<S, C> {
    /// Tell the worker its connection is confirmed, and write the frame.
    Confirm { connected_sender: C, frame: TcpWarpMessage },
    /// Write the frame to the carrier.
    Send(TcpWarpMessage),
    /// Hand bytes to the worker of the connection.
    Deliver { connection_id: u128, sender: S, data: Vec<u8> },
    /// The connection left the table: tell its worker to stop.
    Close { connection_id: u128, sender: S },
    /// The frame names a connection that is not in the table.
    Unknown { connection_id: u128 },
}

/// The mathematical value of a `ServerEvent`.
pub enum ServerInput {
    ConnectForward { connection_id: u128 },
    Frame(Frame),
}

/// The mathematical value of a `ServerAction`.
pub enum ServerOutput {
    Confirm(Frame),
    Send(Frame),
    Deliver { connection_id: u128, data: Seq<u8> },
    Close { connection_id: u128 },
    Unknown { connection_id: u128 },
}

impl<S, C> View for ServerEvent<S, C> {
    type V = ServerInput;

    open spec fn view(&self) -> ServerInput {
        match self {
            ServerEvent::ConnectForward { connection_id, .. } => ServerInput::ConnectForward {
                connection_id: *connection_id,
            },
            ServerEvent::Frame(f) => ServerInput::Frame(f@),
        }
    }
}

impl<S, C> View for ServerAction<S, C> {
    type V = ServerOutput;

    open spec fn view(&self) -> ServerOutput {
        match self {
            ServerAction::Confirm { frame, .. } => ServerOutput::Confirm(frame@),
            ServerAction::Send(f) => ServerOutput::Send(f@),
            ServerAction::Deliver { connection_id, data, .. } => ServerOutput::Deliver {
                connection_id: *connection_id,
                data: data@,
            },
            ServerAction::Close { connection_id, .. } => ServerOutput::Close {
                connection_id: *connection_id,
            },
            ServerAction::Unknown { connection_id } => ServerOutput::Unknown {
                connection_id: *connection_id,
            },
        }
    }
}

/// One step of a server session over the set of connections in its table:
/// the new set and what to do. Bytes for a connection that is not in the
/// table are answered with `DisconnectHost`, so that the client drops it.
pub open spec fn server_step(m: Set<u128>, i: ServerInput) -> (Set<u128>, ServerOutput) {
    match i {
        ServerInput::ConnectForward { connection_id } => (
            m.insert(connection_id),
            ServerOutput::Confirm(Frame::Connected { connection_id }),
        ),
        ServerInput::Frame(f) => match f {
            Frame::DisconnectClient { connection_id } => if m.contains(connection_id) {
                (m.remove(connection_id), ServerOutput::Close { connection_id })
            } else {
                (m, ServerOutput::Unknown { connection_id })
            },
            Frame::BytesClient { connection_id, data } => if m.contains(connection_id) {
                (m, ServerOutput::Deliver { connection_id, data })
            } else {
                (m, ServerOutput::Send(Frame::DisconnectHost { connection_id }))
            },
            _ => (m, ServerOutput::Send(f)),
        },
    }
}

/// The state of a server session, owned by its egress task: the channel to
/// the worker of each connection.
pub struct ServerSession<S> {
    pub connections: HashMap<u128, S>,
}

impl<S> View for ServerSession<S> {
    type V = Set<u128>;

    open spec fn view(&self) -> Set<u128> {
        self.connections@.dom()
    }
}

impl<S: Clone> ServerSession<S> {
    /// A session with an empty table.
    pub fn new() -> (r: Self)
        ensures
            r.connections@ == Map::<u128, S>::empty(),
    {
        ServerSession { connections: HashMap::new() }
    }

    /// Applies one event to the table and says what to do next.
    pub fn on_event<C>(&mut self, event: ServerEvent<S, C>) -> (r: ServerAction<S, C>)
        ensures
            (final(self)@, r@) == server_step(old(self)@, event@),
            event matches ServerEvent::ConnectForward { connection_id, sender, .. }
                ==> final(self).connections@ == old(self).connections@.insert(
                connection_id,
                sender,
            ),
            event matches ServerEvent::Frame(f) ==> (f@ matches Frame::DisconnectClient {
                connection_id,
            } ==> final(self).connections@ == old(self).connections@.remove(connection_id)),
            event matches ServerEvent::Frame(f) ==> (!(f@ is DisconnectClient)
                ==> final(self).connections@ == old(self).connections@),
            event matches ServerEvent::ConnectForward { connected_sender, .. } ==> (
            r matches ServerAction::Confirm { connected_sender: c, .. } && c == connected_sender),
            r matches ServerAction::Deliver { connection_id, sender, .. } ==> cloned(
                old(self).connections@[connection_id],
                sender,
            ),
            r matches ServerAction::Close { connection_id, sender } ==> sender == old(
                self,
            ).connections@[connection_id],
    {
        match event {
            ServerEvent::ConnectForward { connection_id, sender, connected_sender } => {
                self.connections.insert(connection_id, sender);
                ServerAction::Confirm {
                    connected_sender,
                    frame: TcpWarpMessage::Connected { connection_id },
                }
            },
            ServerEvent::Frame(frame) => match frame {
                TcpWarpMessage::DisconnectClient { connection_id } => {
                    match self.connections.remove(&connection_id) {
                        Some(sender) => ServerAction::Close { connection_id, sender },
                        None => {
                            proof {
                                assert(self.connections@ =~= old(self).connections@.remove(
                                    connection_id,
                                ));
                            }
                            ServerAction::Unknown { connection_id }
                        },
                    }
                },
                TcpWarpMessage::BytesClient { connection_id, data } => {
                    match self.connections.get(&connection_id) {
                        Some(sender) => ServerAction::Deliver {
                            connection_id,
                            sender: sender.clone(),
                            data,
                        },
                        None => ServerAction::Send(TcpWarpMessage::DisconnectHost { connection_id }),
                    }
                },
                other => ServerAction::Send(other),
            },
        }
    }
}

/// The event that follows a dial: the worker's channel and signal when the
/// target was reached, `ConnectFailure` when it was not.
pub fn after_dial<S, C>(connection_id: u128, dialed: Option<(S, C)>) -> (r: ServerEvent<S, C>)
    ensures
        dialed matches Some((s, c)) ==> r == (ServerEvent::ConnectForward {
            connection_id,
            sender: s,
            connected_sender: c,
        }),
        dialed is None ==> r@ == ServerInput::Frame(Frame::ConnectFailure { connection_id }),
{
    match dialed {
        Some((sender, connected_sender)) => ServerEvent::ConnectForward {
            connection_id,
            sender,
            connected_sender,
        },
        None => ServerEvent::Frame(TcpWarpMessage::ConnectFailure { connection_id }),
    }
}

/// The worker of one connection dialed by the server.
pub struct HostWorker {
    pub connection_id: u128,
}

impl HostWorker {
    /// The codec of the target socket: its reads become `BytesHost` frames of
    /// this connection.
    pub fn codec(&self) -> (r: TcpWarpProtoHost)
        ensures
            r.connection_id == self.connection_id,
    {
        TcpWarpProtoHost { connection_id: self.connection_id }
    }

    /// The event sent when the target socket is done.
    pub fn disconnect<S, C>(&self) -> (r: ServerEvent<S, C>)
        ensures
            r@ == ServerInput::Frame(Frame::DisconnectHost { connection_id: self.connection_id }),
    {
        ServerEvent::Frame(TcpWarpMessage::DisconnectHost { connection_id: self.connection_id })
    }
}

/// The steps of a server session over a run of events.
pub open spec fn server_run(m: Set<u128>, inputs: Seq<ServerInput>) -> (Set<u128>, Seq<
    ServerOutput,
>)
    decreases inputs.len(),
{
    if inputs.len() == 0 {
        (m, Seq::empty())
    } else {
        let (m1, outs) = server_run(m, inputs.drop_last());
        let (m2, out) = server_step(m1, inputs.last());
        (m2, outs.push(out))
    }
}

/// The bytes handed to the worker of `id`, in order.
pub open spec fn server_delivered(outs: Seq<ServerOutput>, id: u128) -> Seq<u8>
    decreases outs.len(),
{
    if outs.len() == 0 {
        Seq::empty()
    } else {
        server_delivered(outs.drop_last(), id) + match outs.last() {
            ServerOutput::Deliver { connection_id, data } => if connection_id == id {
                data
            } else {
                Seq::empty()
            },
            _ => Seq::empty(),
        }
    }
}

/// The bytes of the `BytesClient` frames of `id` among the events, in order.
pub open spec fn client_bytes_of(inputs: Seq<ServerInput>, id: u128) -> Seq<u8>
    decreases inputs.len(),
{
    if inputs.len() == 0 {
        Seq::empty()
    } else {
        client_bytes_of(inputs.drop_last(), id) + match inputs.last() {
            ServerInput::Frame(Frame::BytesClient { connection_id, data }) => if connection_id
                == id {
                data
            } else {
                Seq::empty()
            },
            _ => Seq::empty(),
        }
    }
}

/// While a connection stays in the table of a server session, its worker is
/// handed exactly the bytes of the `BytesClient` frames that name it, in the
/// order they came, and no other bytes.
pub proof fn lemma_server_delivers_in_order(m: Set<u128>, inputs: Seq<ServerInput>, id: u128)
    requires
        m.contains(id),
        forall|k: int|
            0 <= k < inputs.len() ==> #[trigger] inputs[k] != ServerInput::Frame(
                Frame::DisconnectClient { connection_id: id },
            ),
    ensures
        server_run(m, inputs).0.contains(id),
        server_delivered(server_run(m, inputs).1, id) == client_bytes_of(inputs, id),
    decreases inputs.len(),
{
    if inputs.len() > 0 {
        let front = inputs.drop_last();
        assert forall|k: int| 0 <= k < front.len() implies #[trigger] front[k]
            != ServerInput::Frame(Frame::DisconnectClient { connection_id: id }) by {
            assert(front[k] == inputs[k]);
        }
        lemma_server_delivers_in_order(m, front, id);
        let (m1, outs) = server_run(m, front);
        let (m2, out) = server_step(m1, inputs.last());
        assert(inputs[inputs.len() - 1] != ServerInput::Frame(
            Frame::DisconnectClient { connection_id: id },
        ));
        assert(server_run(m, inputs).1.drop_last() =~= outs);
        assert(server_run(m, inputs).1.last() == out);
    }
}

} // verus!
