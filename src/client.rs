//! The client peer: its configuration, the decisions of its carrier session,
//! and the workers of the connections it accepts.
//!
//! The session's egress task owns the connection table. Every other task
//! talks to it by `ClientEvent`s; `ClientSession::on_event` applies one event
//! to the table and says, as a `ClientAction`, what the task does next.

use crate::address::{IpAddress, SocketAddress};
use crate::port_mapping::{PortMapping, TcpWarpPortConnection};
use crate::proto::{Frame, TcpWarpMessage, TcpWarpProtoClient};
use crate::session::TcpWarpConnection;
use std::collections::HashMap;
use vstd::prelude::*;

verus! {

broadcast use vstd::std_specs::hash::group_hash_axioms;

/// The client: the address its listeners bind and the server it dials.
pub struct TcpWarpClient {
    pub bind_address: IpAddress,
    pub tunnel_address: SocketAddress,
}

impl TcpWarpClient {
    pub fn new(bind_address: IpAddress, tunnel_address: SocketAddress) -> (r: Self)
        ensures
            r.bind_address == bind_address,
            r.tunnel_address == tunnel_address,
    {
        TcpWarpClient { bind_address, tunnel_address }
    }

    /// Where the listener of a port mapping binds: the bind address, on the
    /// mapping's client port or else its port.
    pub fn listen_address(&self, connection: &TcpWarpPortConnection) -> (r: SocketAddress)
        ensures
            r.ip == self.bind_address,
            r.port == connection.spec_listen_port(),
    {
        SocketAddress { ip: self.bind_address, port: connection.listen_port() }
    }
}

/// What the egress task of a client session receives.
pub enum ClientEvent<S, C, L> {
    /// A worker accepted a socket for `connection` and waits for its target.
    Connect {
        connection_id: u128,
        connection: TcpWarpPortConnection,
        sender: S,
        connected_sender: C,
    },
    /// The cancel handle of a listener.
    Listener(L),
    /// The carrier ended.
    Disconnect,
    /// A frame: from the carrier, or from a worker.
    Frame(TcpWarpMessage),
}

/// What the egress task of a client session does after an event.
pub enum ClientAction<S, C, L> {
    /// Write the frame to the carrier.
    Send(TcpWarpMessage),
    /// Hand bytes to the worker of the connection.
    Deliver { connection_id: u128, sender: S, data: Vec<u8> },
    /// The connection left the table: tell its worker to stop.
    Close { connection_id: u128, sender: S },
    /// Tell the worker of the connection that its target is reached.
    Signal { connection_id: u128, connected_sender: C },
    /// The frame names a connection that is not in the table.
    Unknown { connection_id: u128 },
    /// Nothing to do.
    Nothing,
    /// Cancel these listeners and end the session.
    Stop(Vec<L>),
}

/// The mathematical value of a `ClientEvent`.
pub enum ClientInput {
    Connect { connection_id: u128, connection: PortMapping },
    Listener,
    Disconnect,
    Frame(Frame),
}

/// The mathematical value of a `ClientAction`.
pub enum ClientOutput {
    Send(Frame),
    Deliver { connection_id: u128, data: Seq<u8> },
    Close { connection_id: u128 },
    Signal { connection_id: u128 },
    Unknown { connection_id: u128 },
    Nothing,
    Stop,
}

/// The mathematical value of a client session: for each connection in the
/// table, whether its connected signal is still to fire; and how many
/// listeners it holds.
pub struct ClientModel {
    pub connections: Map<u128, bool>,
    pub listeners: nat,
}

impl<S, C, L> View for ClientEvent<S, C, L> {
    type V = ClientInput;

    open spec fn view(&self) -> ClientInput {
        match self {
            ClientEvent::Connect { connection_id, connection, .. } => ClientInput::Connect {
                connection_id: *connection_id,
                connection: connection@,
            },
            ClientEvent::Listener(_) => ClientInput::Listener,
            ClientEvent::Disconnect => ClientInput::Disconnect,
            ClientEvent::Frame(f) => ClientInput::Frame(f@),
        }
    }
}

impl<S, C, L> View for ClientAction<S, C, L> {
    type V = ClientOutput;

    open spec fn view(&self) -> ClientOutput {
        match self {
            ClientAction::Send(f) => ClientOutput::Send(f@),
            ClientAction::Deliver { connection_id, data, .. } => ClientOutput::Deliver {
                connection_id: *connection_id,
                data: data@,
            },
            ClientAction::Close { connection_id, .. } => ClientOutput::Close {
                connection_id: *connection_id,
            },
            ClientAction::Signal { connection_id, .. } => ClientOutput::Signal {
                connection_id: *connection_id,
            },
            ClientAction::Unknown { connection_id } => ClientOutput::Unknown {
                connection_id: *connection_id,
            },
            ClientAction::Nothing => ClientOutput::Nothing,
            ClientAction::Stop(_) => ClientOutput::Stop,
        }
    }
}

/// One step of a client session: the new state and what to do.
pub open spec fn client_step(m: ClientModel, i: ClientInput) -> (ClientModel, ClientOutput) {
    match i {
        ClientInput::Connect { connection_id, connection } => (
            ClientModel { connections: m.connections.insert(connection_id, true), ..m },
            ClientOutput::Send(
                Frame::HostConnect { connection_id, host: connection.host, port: connection.port },
            ),
        ),
        ClientInput::Listener => (
            ClientModel { listeners: m.listeners + 1, ..m },
            ClientOutput::Nothing,
        ),
        ClientInput::Disconnect => (ClientModel { listeners: 0, ..m }, ClientOutput::Stop),
        ClientInput::Frame(f) => match f {
            Frame::BytesHost { connection_id, data } => if m.connections.contains_key(
                connection_id,
            ) {
                (m, ClientOutput::Deliver { connection_id, data })
            } else {
                (m, ClientOutput::Unknown { connection_id })
            },
            Frame::Connected { connection_id } => if !m.connections.contains_key(connection_id) {
                (m, ClientOutput::Unknown { connection_id })
            } else if m.connections[connection_id] {
                (
                    ClientModel {
                        connections: m.connections.insert(connection_id, false),
                        ..m
                    },
                    ClientOutput::Signal { connection_id },
                )
            } else {
                (m, ClientOutput::Nothing)
            },
            Frame::DisconnectHost { connection_id } => client_close(m, connection_id),
            Frame::ConnectFailure { connection_id } => client_close(m, connection_id),
            _ => (m, ClientOutput::Send(f)),
        },
    }
}

/// The target side of a connection is gone: it leaves the table.
pub open spec fn client_close(m: ClientModel, connection_id: u128) -> (ClientModel, ClientOutput) {
    if m.connections.contains_key(connection_id) {
        (
            ClientModel { connections: m.connections.remove(connection_id), ..m },
            ClientOutput::Close { connection_id },
        )
    } else {
        (m, ClientOutput::Unknown { connection_id })
    }
}

/// The state of a client session, owned by its egress task.
pub struct ClientSession<S, C, L> {
    pub connections: HashMap<u128, TcpWarpConnection<S, C>>,
    pub listeners: Vec<L>,
}

impl<S, C, L> View for ClientSession<S, C, L> {
    type V = ClientModel;

    open spec fn view(&self) -> ClientModel {
        ClientModel {
            connections: self.connections@.map_values(
                |e: TcpWarpConnection<S, C>| e.connected_sender is Some,
            ),
            listeners: self.listeners@.len(),
        }
    }
}

impl<S: Clone, C, L> ClientSession<S, C, L> {
    /// A session that starts with the given table (kept from an earlier
    /// session, or empty) and no listeners.
    pub fn new(connections: HashMap<u128, TcpWarpConnection<S, C>>) -> (r: Self)
        ensures
            r.connections@ == connections@,
            r.listeners@.len() == 0,
    {
        ClientSession { connections, listeners: Vec::new() }
    }

    /// Applies one event to the table and says what to do next.
    pub fn on_event(&mut self, event: ClientEvent<S, C, L>) -> (r: ClientAction<S, C, L>)
        ensures
            (final(self)@, r@) == client_step(old(self)@, event@),
            event matches ClientEvent::Connect { connection_id, sender, connected_sender, .. }
                ==> final(self).connections@[connection_id] == (TcpWarpConnection {
                sender,
                connected_sender: Some(connected_sender),
            }),
            forall|id: u128|
                #![trigger final(self).connections@[id]]
                final(self).connections@.contains_key(id) && !(event matches ClientEvent::Connect {
                    connection_id,
                    ..
                } && connection_id == id) ==> old(self).connections@.contains_key(id)
                    && final(self).connections@[id].sender == old(self).connections@[id].sender
                    && (final(self).connections@[id].connected_sender is Some
                    ==> final(self).connections@[id].connected_sender == old(
                    self,
                ).connections@[id].connected_sender),
            r matches ClientAction::Deliver { connection_id, sender, .. } ==> cloned(
                old(self).connections@[connection_id].sender,
                sender,
            ),
            r matches ClientAction::Close { connection_id, sender } ==> sender == old(
                self,
            ).connections@[connection_id].sender,
            r matches ClientAction::Signal { connection_id, connected_sender } ==> old(
                self,
            ).connections@[connection_id].connected_sender == Some(connected_sender),
            r matches ClientAction::Stop(ls) ==> ls@ == old(self).listeners@,
            event matches ClientEvent::Listener(l) ==> final(self).listeners@ == old(
                self,
            ).listeners@.push(l),
            !(event is Listener) && !(event is Disconnect) ==> final(self).listeners@ == old(
                self,
            ).listeners@,
    {
        let ghost before = self.connections@;
        match event {
            ClientEvent::Connect { connection_id, connection, sender, connected_sender } => {
                self.connections.insert(
                    connection_id,
                    TcpWarpConnection { sender, connected_sender: Some(connected_sender) },
                );
                proof {
                    assert(self@.connections =~= old(self)@.connections.insert(connection_id, true));
                }
                ClientAction::Send(
                    TcpWarpMessage::HostConnect {
                        connection_id,
                        host: connection.host,
                        port: connection.port,
                    },
                )
            },
            ClientEvent::Listener(l) => {
                self.listeners.push(l);
                ClientAction::Nothing
            },
            ClientEvent::Disconnect => {
                let mut listeners: Vec<L> = Vec::new();
                core::mem::swap(&mut listeners, &mut self.listeners);
                ClientAction::Stop(listeners)
            },
            ClientEvent::Frame(frame) => match frame {
                TcpWarpMessage::BytesHost { connection_id, data } => {
                    match self.connections.get(&connection_id) {
                        Some(entry) => {
                            proof {
                                assert(old(self)@.connections.contains_key(connection_id));
                            }
                            ClientAction::Deliver {
                                connection_id,
                                sender: entry.sender.clone(),
                                data,
                            }
                        },
                        None => {
                            proof {
                                assert(!old(self)@.connections.contains_key(connection_id));
                            }
                            ClientAction::Unknown { connection_id }
                        },
                    }
                },
                TcpWarpMessage::Connected { connection_id } => {
                    match self.connections.remove(&connection_id) {
                        Some(entry) => {
                            proof {
                                assert(old(self)@.connections.contains_key(connection_id));
                                assert(old(self)@.connections[connection_id] == (
                                entry.connected_sender is Some));
                            }
                            let TcpWarpConnection { sender, connected_sender } = entry;
                            self.connections.insert(
                                connection_id,
                                TcpWarpConnection { sender, connected_sender: None },
                            );
                            match connected_sender {
                                Some(c) => {
                                    proof {
                                        assert(self@.connections =~= old(self)@.connections.insert(
                                            connection_id,
                                            false,
                                        ));
                                    }
                                    ClientAction::Signal { connection_id, connected_sender: c }
                                },
                                None => {
                                    proof {
                                        assert(self@.connections =~= old(self)@.connections);
                                    }
                                    ClientAction::Nothing
                                },
                            }
                        },
                        None => {
                            proof {
                                assert(!old(self)@.connections.contains_key(connection_id));
                                assert(self.connections@ =~= old(self).connections@);
                            }
                            ClientAction::Unknown { connection_id }
                        },
                    }
                },
                TcpWarpMessage::DisconnectHost { connection_id } => self.close(connection_id),
                TcpWarpMessage::ConnectFailure { connection_id } => self.close(connection_id),
                other => ClientAction::Send(other),
            },
        }
    }

    /// Takes a connection out of the table and asks its worker to stop.
    fn close(&mut self, connection_id: u128) -> (r: ClientAction<S, C, L>)
        ensures
            (final(self)@, r@) == client_close(old(self)@, connection_id),
            final(self).listeners@ == old(self).listeners@,
            final(self).connections@ == old(self).connections@.remove(connection_id),
            r matches ClientAction::Close { connection_id: id, sender } ==> id == connection_id
                && sender == old(self).connections@[connection_id].sender,
    {
        match self.connections.remove(&connection_id) {
            Some(entry) => {
                proof {
                    assert(old(self).connections@.contains_key(connection_id));
                    assert(old(self)@.connections.contains_key(connection_id));
                    assert(self@.connections =~= old(self)@.connections.remove(connection_id));
                }
                ClientAction::Close { connection_id, sender: entry.sender }
            },
            None => {
                proof {
                    assert(!old(self)@.connections.contains_key(connection_id));
                    assert(self.connections@ =~= old(self).connections@.remove(connection_id));
                    assert(self@.connections =~= old(self)@.connections);
                }
                ClientAction::Unknown { connection_id }
            },
        }
    }

    /// The table that outlives the session: kept when `keep_connections`,
    /// else empty (its workers then see their channels close).
    pub fn into_connections(self, keep_connections: bool) -> (r: HashMap<
        u128,
        TcpWarpConnection<S, C>,
    >)
        ensures
            keep_connections ==> r@ == self.connections@,
            !keep_connections ==> r@ == Map::<u128, TcpWarpConnection<S, C>>::empty(),
            r@.dom() == carried_over(self@, keep_connections).dom(),
            r.len() == carried_over(self@, keep_connections).len(),
    {
        if keep_connections {
            self.connections
        } else {
            HashMap::new()
        }
    }
}

/// What the ingress task of a client session does with a frame from the
/// carrier.
pub enum ClientIngress {
    /// The server's announcement: bind a listener for every configured
    /// port mapping.
    OpenListeners,
    /// Hand the frame to the egress task.
    Forward(TcpWarpMessage),
    /// A frame the server does not send to clients: drop it.
    Ignore(TcpWarpMessage),
}

/// Sorts a frame from the server: `AddPorts` opens the listeners (the ports
/// it lists are not used); data, `Connected`, `DisconnectHost` and
/// `ConnectFailure` go to the egress task; anything else is dropped.
pub fn host_to_client(message: TcpWarpMessage) -> (r: ClientIngress)
    ensures
        message@ is AddPorts ==> r is OpenListeners,
        (message@ is BytesHost || message@ is Connected || message@ is DisconnectHost
            || message@ is ConnectFailure) ==> (r matches ClientIngress::Forward(f) && f@
            == message@),
        (message@ is HostConnect || message@ is BytesClient || message@ is DisconnectClient)
            ==> (r matches ClientIngress::Ignore(f) && f@ == message@),
{
    match message {
        TcpWarpMessage::AddPorts(_) => ClientIngress::OpenListeners,
        TcpWarpMessage::BytesHost { .. } => ClientIngress::Forward(message),
        TcpWarpMessage::Connected { .. } => ClientIngress::Forward(message),
        TcpWarpMessage::DisconnectHost { .. } => ClientIngress::Forward(message),
        TcpWarpMessage::ConnectFailure { .. } => ClientIngress::Forward(message),
        other => ClientIngress::Ignore(other),
    }
}

/// The id is a random (version 4) UUID of the RFC 4122 variant: its version
/// nibble is 4 and its two variant bits are `10`.
pub open spec fn is_random_uuid(id: u128) -> bool {
    &&& (id >> 76u128) & 0xfu128 == 4
    &&& (id >> 62u128) & 0x3u128 == 2
}

/// Relies on `uuid::Uuid::new_v4` (read as `as_u128`): a fresh random id;
/// `new_v4` sets the version nibble (byte 6) to 4 and the variant bits
/// (byte 8) to `10`, whatever the random bytes. It panics only when the
/// system gives no random bytes.
#[verifier::external_body]
fn random_connection_id() -> (r: u128)
    ensures
        (r >> 76u128) & 0xfu128 == 4,
        (r >> 62u128) & 0x3u128 == 2,
{
    uuid::Uuid::new_v4().as_u128()
}

/// The worker of one connection accepted by a client listener.
pub struct ClientWorker {
    pub connection_id: u128,
}

impl ClientWorker {
    /// A worker with a fresh random connection id, a version 4 UUID.
    pub fn new() -> (r: Self)
        ensures
            is_random_uuid(r.connection_id),
    {
        ClientWorker { connection_id: random_connection_id() }
    }

    /// The codec of the accepted socket: its reads become `BytesClient`
    /// frames of this connection.
    pub fn codec(&self) -> (r: TcpWarpProtoClient)
        ensures
            r.connection_id == self.connection_id,
    {
        TcpWarpProtoClient { connection_id: self.connection_id }
    }

    /// The event that enters the connection into the session's table.
    pub fn connect<S, C, L>(
        &self,
        connection: TcpWarpPortConnection,
        sender: S,
        connected_sender: C,
    ) -> (r: ClientEvent<S, C, L>)
        ensures
            r == (ClientEvent::<S, C, L>::Connect {
                connection_id: self.connection_id,
                connection,
                sender,
                connected_sender,
            }),
    {
        ClientEvent::Connect { connection_id: self.connection_id, connection, sender, connected_sender }
    }

    /// The event sent when the accepted socket is done.
    pub fn disconnect<S, C, L>(&self) -> (r: ClientEvent<S, C, L>)
        ensures
            r@ == ClientInput::Frame(Frame::DisconnectClient { connection_id: self.connection_id }),
    {
        ClientEvent::Frame(TcpWarpMessage::DisconnectClient { connection_id: self.connection_id })
    }
}

/// The steps of a client session over a run of events: the last state and
/// what was done at each step.
pub open spec fn client_run(m: ClientModel, inputs: Seq<ClientInput>) -> (ClientModel, Seq<
    ClientOutput,
>)
    decreases inputs.len(),
{
    if inputs.len() == 0 {
        (m, Seq::empty())
    } else {
        let (m1, outs) = client_run(m, inputs.drop_last());
        let (m2, out) = client_step(m1, inputs.last());
        (m2, outs.push(out))
    }
}

/// The bytes handed to the worker of `id`, in order.
pub open spec fn client_delivered(outs: Seq<ClientOutput>, id: u128) -> Seq<u8>
    decreases outs.len(),
{
    if outs.len() == 0 {
        Seq::empty()
    } else {
        client_delivered(outs.drop_last(), id) + match outs.last() {
            ClientOutput::Deliver { connection_id, data } => if connection_id == id {
                data
            } else {
                Seq::empty()
            },
            _ => Seq::empty(),
        }
    }
}

/// The bytes of the `BytesHost` frames of `id` among the events, in order.
pub open spec fn host_bytes_of(inputs: Seq<ClientInput>, id: u128) -> Seq<u8>
    decreases inputs.len(),
{
    if inputs.len() == 0 {
        Seq::empty()
    } else {
        host_bytes_of(inputs.drop_last(), id) + match inputs.last() {
            ClientInput::Frame(Frame::BytesHost { connection_id, data }) => if connection_id
                == id {
                data
            } else {
                Seq::empty()
            },
            _ => Seq::empty(),
        }
    }
}

/// The event neither enters `id` anew nor takes it out of the table.
pub open spec fn client_keeps(i: ClientInput, id: u128) -> bool {
    match i {
        ClientInput::Connect { connection_id, .. } => connection_id != id,
        ClientInput::Frame(Frame::DisconnectHost { connection_id }) => connection_id != id,
        ClientInput::Frame(Frame::ConnectFailure { connection_id }) => connection_id != id,
        _ => true,
    }
}

/// While a connection stays in the table of a client session, its worker is
/// handed exactly the bytes of the `BytesHost` frames that name it, in the
/// order they came, and no other bytes.
pub proof fn lemma_client_delivers_in_order(m: ClientModel, inputs: Seq<ClientInput>, id: u128)
    requires
        m.connections.contains_key(id),
        forall|k: int| 0 <= k < inputs.len() ==> client_keeps(#[trigger] inputs[k], id),
    ensures
        client_run(m, inputs).0.connections.contains_key(id),
        client_delivered(client_run(m, inputs).1, id) == host_bytes_of(inputs, id),
    decreases inputs.len(),
{
    if inputs.len() > 0 {
        let front = inputs.drop_last();
        assert forall|k: int| 0 <= k < front.len() implies client_keeps(#[trigger] front[k], id) by {
            assert(front[k] == inputs[k]);
        }
        lemma_client_delivers_in_order(m, front, id);
        let (m1, outs) = client_run(m, front);
        let (m2, out) = client_step(m1, inputs.last());
        assert(client_keeps(inputs[inputs.len() - 1], id));
        assert(client_run(m, inputs).1.drop_last() =~= outs);
        assert(client_run(m, inputs).1.last() == out);
    }
}

/// The connection `id` waits for its connected signal in the state.
pub open spec fn is_armed(m: ClientModel, id: u128) -> bool {
    m.connections.contains_key(id) && m.connections[id]
}

/// How many times the connected signal of `id` fired.
pub open spec fn signals_of(outs: Seq<ClientOutput>, id: u128) -> nat
    decreases outs.len(),
{
    if outs.len() == 0 {
        0
    } else {
        signals_of(outs.drop_last(), id) + if outs.last() == (ClientOutput::Signal {
            connection_id: id,
        }) {
            1nat
        } else {
            0nat
        }
    }
}

/// Between two `Connect` events of a connection, its connected signal fires
/// at most once, and only if it was armed at the start.
pub proof fn lemma_connected_fires_at_most_once(
    m: ClientModel,
    inputs: Seq<ClientInput>,
    id: u128,
)
    requires
        forall|k: int|
            0 <= k < inputs.len() ==> !(#[trigger] inputs[k] matches ClientInput::Connect {
                connection_id,
                ..
            } && connection_id == id),
    ensures
        signals_of(client_run(m, inputs).1, id) + (if is_armed(client_run(m, inputs).0, id) {
            1nat
        } else {
            0nat
        }) <= if is_armed(m, id) {
            1nat
        } else {
            0nat
        },
    decreases inputs.len(),
{
    if inputs.len() > 0 {
        let front = inputs.drop_last();
        assert forall|k: int| 0 <= k < front.len() implies !(#[trigger] front[k] matches ClientInput::Connect {
            connection_id,
            ..
        } && connection_id == id) by {
            assert(front[k] == inputs[k]);
        }
        lemma_connected_fires_at_most_once(m, front, id);
        let (m1, outs) = client_run(m, front);
        let (m2, out) = client_step(m1, inputs.last());
        assert(!(inputs[inputs.len() - 1] matches ClientInput::Connect { connection_id, .. }
            && connection_id == id));
        assert(client_run(m, inputs).1.drop_last() =~= outs);
        assert(client_run(m, inputs).1.last() == out);
    }
}

/// The connections a session hands on to the next one.
pub open spec fn carried_over(m: ClientModel, keep_connections: bool) -> Map<u128, bool> {
    if keep_connections {
        m.connections
    } else {
        Map::empty()
    }
}

/// When the carrier ends, the session stops, every listener handle it held
/// is handed out to be aborted and none is left; the next session starts
/// with no connection unless connections are kept.
pub proof fn lemma_session_end_leaves_nothing(m: ClientModel, keep_connections: bool)
    ensures
        client_step(m, ClientInput::Disconnect).1 == ClientOutput::Stop,
        client_step(m, ClientInput::Disconnect).0.listeners == 0,
        !keep_connections ==> carried_over(client_step(m, ClientInput::Disconnect).0, keep_connections).len() == 0,
        keep_connections ==> carried_over(client_step(m, ClientInput::Disconnect).0, keep_connections)
            == m.connections,
{
    if !keep_connections {
        assert(Map::<u128, bool>::empty().dom() =~= Set::<u128>::empty());
    }
}

/// The table the next session of a retrying client starts with: the ended
/// session's table when connections are kept, else an empty one. A session
/// that failed (`None`) leaves no table. Either way a next session follows:
/// the retry loop never ends on a carrier error.
pub fn next_session_table<S: Clone, C, L>(
    ended: Option<ClientSession<S, C, L>>,
    keep_connections: bool,
) -> (r: HashMap<u128, TcpWarpConnection<S, C>>)
    ensures
        keep_connections ==> (ended matches Some(s) ==> r@ == s.connections@),
        !(ended is Some && keep_connections) ==> r@ == Map::<
            u128,
            TcpWarpConnection<S, C>,
        >::empty(),
{
    match ended {
        Some(session) => session.into_connections(keep_connections),
        None => HashMap::new(),
    }
}

} // verus!
