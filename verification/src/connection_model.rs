//! Which node of the SSH manager is connected, through which terminal, and to which host.

use std::collections::{HashMap, VecDeque};
use std::time::SystemTime;
use vstd::prelude::*;
use crate::ids::{EntityId, HostId, SessionId};
use crate::process;
use crate::process::push_code;
use crate::table::TextTable;
use crate::text::push_text;

verus! {

broadcast use vstd::std_specs::hash::group_hash_axioms;

/// The number of disconnects that a node remembers.
pub const MAX_DISCONNECT_RECORDS: usize = 5;

/// `std::time::SystemTime`, a moment that is only carried along.
#[verifier::external_type_specification]
#[verifier::external_body]
pub struct ExSystemTime(std::time::SystemTime);

/// `std::time::SystemTime::now`. Nothing is said of the moment.
#[verifier::external_body]
fn now() -> (at: SystemTime) {
    SystemTime::now()
}

#[derive(Clone, Copy, Debug, PartialEq, Eq, Structural)]
pub enum SshConnectionState {
    Disconnected,
    Connecting,
    Connected,
    Reconnecting,
    Failed,
}

/// When and why a connection was lost.
#[derive(Debug)]
pub struct SshDisconnectRecord {
    pub at: SystemTime,
    pub reason: String,
}

impl Clone for SshDisconnectRecord {
    fn clone(&self) -> (copy: Self)
        ensures
            copy == *self,
    {
        SshDisconnectRecord { at: self.at, reason: self.reason.clone() }
    }
}

/// The connection of a node.
#[derive(Debug)]
pub struct SshNodeConnection {
    pub terminal_view_id: EntityId,
    pub session_id: Option<SessionId>,
    pub host_id: Option<HostId>,
    pub state: SshConnectionState,
    /// The newest first.
    pub recent_disconnects: VecDeque<SshDisconnectRecord>,
}

impl Clone for SshNodeConnection {
    fn clone(&self) -> (copy: Self)
        ensures
            copy@ == self@,
    {
        let copy = SshNodeConnection {
            terminal_view_id: self.terminal_view_id,
            session_id: self.session_id,
            host_id: match &self.host_id {
                Some(host_id) => Some(host_id.clone()),
                None => None,
            },
            state: self.state,
            recent_disconnects: self.recent_disconnects.clone(),
        };
        assert(copy.recent_disconnects@ =~= self.recent_disconnects@);
        copy
    }
}

/// How a remote server ended.
#[derive(Clone, Copy, Debug)]
pub struct RemoteServerExitStatus {
    pub code: Option<i32>,
    pub signal_killed: bool,
}

/// What the manager of the remote servers tells about.
#[derive(Debug)]
pub enum RemoteServerManagerEvent {
    SessionConnecting,
    SessionConnected { host_id: HostId },
    SessionConnectionFailed { error: String },
    SessionDisconnected { exit_status: Option<RemoteServerExitStatus> },
    SessionReconnectStarted,
    SessionReconnected { host_id: HostId },
    SessionDeregistered,
    HostConnected,
    HostDisconnected,
    NavigatedToDirectory,
    RepoMetadataSnapshot,
    RepoMetadataUpdated,
    RepoMetadataDirectoryLoaded,
    SetupStateChanged,
    BinaryCheckComplete,
    BinaryInstallComplete,
    ClientRequestFailed,
    ServerMessageDecodingError,
}

/// The connections of all nodes.
pub struct SshConnectionModel {
    pending_terminal_to_node: HashMap<u64, String>,
    session_to_node: HashMap<u64, String>,
    node_connections: TextTable<SshNodeConnection>,
}

// ---------------------------------------------------------------------------------------------
// The model as a value
// ---------------------------------------------------------------------------------------------

pub struct DisconnectView {
    pub at: SystemTime,
    pub reason: Seq<char>,
}

pub struct ConnectionView {
    pub terminal_view_id: EntityId,
    pub session_id: Option<SessionId>,
    pub host_id: Option<Seq<char>>,
    pub state: SshConnectionState,
    pub recent_disconnects: Seq<DisconnectView>,
}

pub struct ModelView {
    /// The nodes of the terminals whose session is not known yet.
    pub pending: Map<u64, Seq<char>>,
    /// The nodes of the sessions.
    pub sessions: Map<u64, Seq<char>>,
    pub nodes: Map<Seq<char>, ConnectionView>,
}

impl View for SshDisconnectRecord {
    type V = DisconnectView;

    open spec fn view(&self) -> DisconnectView {
        DisconnectView { at: self.at, reason: self.reason@ }
    }
}

impl View for SshNodeConnection {
    type V = ConnectionView;

    open spec fn view(&self) -> ConnectionView {
        ConnectionView {
            terminal_view_id: self.terminal_view_id,
            session_id: self.session_id,
            host_id: host_view(self.host_id),
            state: self.state,
            recent_disconnects: record_views(self.recent_disconnects@),
        }
    }
}

pub open spec fn host_view(host_id: Option<HostId>) -> Option<Seq<char>> {
    match host_id {
        Some(id) => Some(id@),
        None => None,
    }
}

/// The characters of a text that may be missing.
pub open spec fn opt_view(text: Option<&str>) -> Option<Seq<char>> {
    match text {
        Some(t) => Some(t@),
        None => None,
    }
}

pub open spec fn record_views(records: Seq<SshDisconnectRecord>) -> Seq<DisconnectView> {
    records.map_values(|r: SshDisconnectRecord| r@)
}

impl View for SshConnectionModel {
    type V = ModelView;

    closed spec fn view(&self) -> ModelView {
        ModelView {
            pending: self.pending_terminal_to_node@.map_values(|s: String| s@),
            sessions: self.session_to_node@.map_values(|s: String| s@),
            nodes: self.node_connections@.map_values(|c: SshNodeConnection| c@),
        }
    }
}

// ---------------------------------------------------------------------------------------------
// What the operations do
// ---------------------------------------------------------------------------------------------

/// A node remembers no more disconnects than it may, and one that is connected knows its host.
pub open spec fn sound(connection: ConnectionView) -> bool {
    &&& connection.recent_disconnects.len() <= MAX_DISCONNECT_RECORDS
    &&& connection.state == SshConnectionState::Connected ==> connection.host_id is Some
}

/// Every connection is sound.
pub open spec fn all_sound(model: ModelView) -> bool {
    forall|node: Seq<char>| #[trigger]
        model.nodes.contains_key(node) ==> sound(model.nodes[node])
}

pub open spec fn empty_model() -> ModelView {
    ModelView { pending: Map::empty(), sessions: Map::empty(), nodes: Map::empty() }
}

/// A connection that was just asked for.
pub open spec fn fresh_connection(terminal: EntityId) -> ConnectionView {
    ConnectionView {
        terminal_view_id: terminal,
        session_id: None,
        host_id: None,
        state: SshConnectionState::Connecting,
        recent_disconnects: Seq::empty(),
    }
}

pub open spec fn started(model: ModelView, node: Seq<char>, terminal: EntityId) -> ModelView {
    ModelView {
        pending: model.pending.insert(terminal.value, node),
        nodes: model.nodes.insert(node, fresh_connection(terminal)),
        ..model
    }
}

pub open spec fn with_connection(
    model: ModelView,
    node: Seq<char>,
    connection: ConnectionView,
) -> ModelView {
    ModelView { nodes: model.nodes.insert(node, connection), ..model }
}

pub open spec fn connected_to(connection: ConnectionView, host: Seq<char>) -> ConnectionView {
    ConnectionView { host_id: Some(host), state: SshConnectionState::Connected, ..connection }
}

/// A new record in front; the oldest ones that are too many go.
pub open spec fn with_record(
    records: Seq<DisconnectView>,
    record: DisconnectView,
) -> Seq<DisconnectView> {
    let all = seq![record] + records;
    if all.len() > MAX_DISCONNECT_RECORDS {
        all.take(MAX_DISCONNECT_RECORDS as int)
    } else {
        all
    }
}

/// A connection lost for `reason`, now in `state`.
pub open spec fn lost(
    connection: ConnectionView,
    state: SshConnectionState,
    reason: Seq<char>,
    at: SystemTime,
) -> ConnectionView {
    ConnectionView {
        state,
        recent_disconnects: with_record(
            connection.recent_disconnects,
            DisconnectView { at, reason },
        ),
        ..connection
    }
}

pub open spec fn marked_connected(
    model: ModelView,
    node: Seq<char>,
    host: Seq<char>,
) -> ModelView {
    if model.nodes.contains_key(node) {
        with_connection(model, node, connected_to(model.nodes[node], host))
    } else {
        model
    }
}

pub open spec fn marked_failed(
    model: ModelView,
    node: Seq<char>,
    reason: Seq<char>,
    at: SystemTime,
) -> ModelView {
    if model.nodes.contains_key(node) {
        with_connection(
            model,
            node,
            lost(model.nodes[node], SshConnectionState::Failed, reason, at),
        )
    } else {
        model
    }
}

/// The connection of a node whose session has become known.
pub open spec fn bound_connection(
    model: ModelView,
    node: Seq<char>,
    terminal: EntityId,
    session: SessionId,
    host: Option<Seq<char>>,
) -> ConnectionView {
    ConnectionView {
        terminal_view_id: terminal,
        session_id: Some(session),
        host_id: host,
        state: if host is Some {
            SshConnectionState::Connected
        } else {
            SshConnectionState::Connecting
        },
        recent_disconnects: if model.nodes.contains_key(node) {
            model.nodes[node].recent_disconnects
        } else {
            Seq::empty()
        },
    }
}

pub open spec fn bound(
    model: ModelView,
    terminal: EntityId,
    session: SessionId,
    host: Option<Seq<char>>,
) -> ModelView {
    if model.pending.contains_key(terminal.value) {
        let node = model.pending[terminal.value];
        ModelView {
            pending: model.pending.remove(terminal.value),
            sessions: model.sessions.insert(session.value, node),
            nodes: model.nodes.insert(
                node,
                bound_connection(model, node, terminal, session, host),
            ),
        }
    } else {
        model
    }
}

/// `node` is the node of `terminal`: the one that waits for its session, or else one whose
/// connection goes through it.
pub open spec fn owns(model: ModelView, terminal: EntityId, node: Seq<char>) -> bool {
    if model.pending.contains_key(terminal.value) {
        node == model.pending[terminal.value]
    } else {
        model.nodes.contains_key(node) && model.nodes[node].terminal_view_id == terminal
    }
}

/// The first of `keys` whose connection goes through `terminal`.
pub open spec fn first_through(
    keys: Seq<Seq<char>>,
    nodes: Map<Seq<char>, ConnectionView>,
    terminal: EntityId,
) -> Option<Seq<char>>
    decreases keys.len(),
{
    if keys.len() == 0 {
        None
    } else if nodes[keys[0]].terminal_view_id == terminal {
        Some(keys[0])
    } else {
        first_through(keys.skip(1), nodes, terminal)
    }
}

proof fn lemma_first_through(
    keys: Seq<Seq<char>>,
    nodes: Map<Seq<char>, ConnectionView>,
    terminal: EntityId,
)
    ensures
        match first_through(keys, nodes, terminal) {
            Some(node) => keys.contains(node) && nodes[node].terminal_view_id == terminal,
            None => forall|node: Seq<char>| #[trigger]
                keys.contains(node) ==> nodes[node].terminal_view_id != terminal,
        },
    decreases keys.len(),
{
    if keys.len() > 0 {
        let rest = keys.skip(1);
        lemma_first_through(rest, nodes, terminal);
        assert(keys[0] == keys.first());
        assert forall|node: Seq<char>| #[trigger] keys.contains(node) implies node == keys[0]
            || rest.contains(node) by {
            let i = choose|i: int| 0 <= i < keys.len() && keys[i] == node;
            if i > 0 {
                assert(rest[i - 1] == node);
            }
        }
        assert forall|node: Seq<char>| #[trigger] rest.contains(node) implies keys.contains(
            node,
        ) by {
            let i = choose|i: int| 0 <= i < rest.len() && rest[i] == node;
            assert(keys[i + 1] == node);
        }
    }
}

/// Only the terminals of the connections decide which of them is the first.
proof fn lemma_first_through_same(
    keys: Seq<Seq<char>>,
    a: Map<Seq<char>, ConnectionView>,
    b: Map<Seq<char>, ConnectionView>,
    terminal: EntityId,
)
    requires
        forall|node: Seq<char>|
            (#[trigger] a[node]).terminal_view_id == b[node].terminal_view_id,
    ensures
        first_through(keys, a, terminal) == first_through(keys, b, terminal),
    decreases keys.len(),
{
    if keys.len() > 0 {
        assert(a[keys[0]].terminal_view_id == b[keys[0]].terminal_view_id);
        lemma_first_through_same(keys.skip(1), a, b, terminal);
    }
}

/// The model without `terminal`, and without `node` and its session.
pub open spec fn released(model: ModelView, terminal: EntityId, node: Seq<char>) -> ModelView {
    ModelView {
        pending: model.pending.remove(terminal.value),
        sessions: if model.nodes.contains_key(node) && model.nodes[node].session_id is Some {
            model.sessions.remove(model.nodes[node].session_id->0.value)
        } else {
            model.sessions
        },
        nodes: model.nodes.remove(node),
    }
}

/// The reason that is noted when a remote server is gone.
pub open spec fn disconnect_reason(exit_status: Option<RemoteServerExitStatus>) -> Seq<char> {
    match exit_status {
        Some(status) => "remote server exited (code="@ + process::code_text(status.code)
            + ", signal_killed="@ + process::bool_text(status.signal_killed) + ")"@,
        None => "remote server disconnected"@,
    }
}

/// What an event of its session makes of a connection.
pub open spec fn after_event(
    connection: ConnectionView,
    event: RemoteServerManagerEvent,
    at: SystemTime,
) -> ConnectionView {
    match event {
        RemoteServerManagerEvent::SessionConnected { host_id } => connected_to(
            connection,
            host_id@,
        ),
        RemoteServerManagerEvent::SessionReconnected { host_id } => connected_to(
            connection,
            host_id@,
        ),
        RemoteServerManagerEvent::SessionReconnectStarted => ConnectionView {
            state: SshConnectionState::Reconnecting,
            ..connection
        },
        RemoteServerManagerEvent::SessionConnectionFailed { error } => lost(
            connection,
            SshConnectionState::Failed,
            error@,
            at,
        ),
        RemoteServerManagerEvent::SessionDisconnected { exit_status } => lost(
            connection,
            SshConnectionState::Disconnected,
            disconnect_reason(exit_status),
            at,
        ),
        RemoteServerManagerEvent::SessionDeregistered => ConnectionView {
            state: SshConnectionState::Disconnected,
            ..connection
        },
        _ => connection,
    }
}

/// An event of `session` reaches `node`.
pub open spec fn reaches(
    model: ModelView,
    session: Option<SessionId>,
    node: Seq<char>,
) -> bool {
    &&& session is Some
    &&& model.sessions.contains_key(session->0.value)
    &&& model.sessions[session->0.value] == node
    &&& model.nodes.contains_key(node)
}

/// An event of `session` reaches some node.
pub open spec fn reaches_any(model: ModelView, session: Option<SessionId>) -> bool {
    session is Some && model.sessions.contains_key(session->0.value) && reaches(
        model,
        session,
        model.sessions[session->0.value],
    )
}

pub open spec fn handled(
    model: ModelView,
    session: Option<SessionId>,
    event: RemoteServerManagerEvent,
    at: SystemTime,
) -> ModelView {
    if reaches_any(model, session) {
        let node = model.sessions[session->0.value];
        with_connection(model, node, after_event(model.nodes[node], event, at))
    } else {
        model
    }
}

// ---------------------------------------------------------------------------------------------
// The operations
// ---------------------------------------------------------------------------------------------

/// Puts a record in front, and lets the oldest ones that are too many go.
pub fn push_disconnect_record(
    records: &mut VecDeque<SshDisconnectRecord>,
    reason: String,
    at: SystemTime,
)
    ensures
        record_views(final(records)@) == with_record(
            record_views(old(records)@),
            DisconnectView { at, reason: reason@ },
        ),
{
    let record = SshDisconnectRecord { at, reason };
    let ghost all = seq![record] + records@;
    records.push_front(record);
    while records.len() > MAX_DISCONNECT_RECORDS
        invariant
            records@.len() <= all.len(),
            records@ == all.take(records@.len() as int),
            all.len() > MAX_DISCONNECT_RECORDS ==> records@.len() >= MAX_DISCONNECT_RECORDS,
            all.len() <= MAX_DISCONNECT_RECORDS ==> records@.len() == all.len(),
        decreases records@.len(),
    {
        let _ = records.pop_back();
    }
    assert(record_views(records@) =~= with_record(
        record_views(old(records)@),
        DisconnectView { at, reason: reason@ },
    ));
}

/// The reason that is noted when a remote server is gone.
pub fn disconnect_reason_text(exit_status: &Option<RemoteServerExitStatus>) -> (reason: String)
    ensures
        reason@ == disconnect_reason(*exit_status),
{
    match exit_status {
        Some(status) => {
            let mut reason = String::new();
            push_text(&mut reason, "remote server exited (code=");
            push_code(&mut reason, status.code);
            push_text(&mut reason, ", signal_killed=");
            if status.signal_killed {
                push_text(&mut reason, "true");
            } else {
                push_text(&mut reason, "false");
            }
            push_text(&mut reason, ")");
            assert(reason@ =~= disconnect_reason(*exit_status));
            reason
        },
        None => "remote server disconnected".to_owned(),
    }
}

impl SshNodeConnection {
    /// Carries out what an event of its session makes of this connection.
    fn apply(&mut self, event: &RemoteServerManagerEvent, at: SystemTime)
        ensures
            final(self)@ == after_event(old(self)@, *event, at),
    {
        match event {
            RemoteServerManagerEvent::SessionConnected { host_id } => {
                self.host_id = Some(host_id.clone());
                self.state = SshConnectionState::Connected;
            },
            RemoteServerManagerEvent::SessionReconnected { host_id } => {
                self.host_id = Some(host_id.clone());
                self.state = SshConnectionState::Connected;
            },
            RemoteServerManagerEvent::SessionReconnectStarted => {
                self.state = SshConnectionState::Reconnecting;
            },
            RemoteServerManagerEvent::SessionConnectionFailed { error } => {
                self.state = SshConnectionState::Failed;
                push_disconnect_record(&mut self.recent_disconnects, error.clone(), at);
            },
            RemoteServerManagerEvent::SessionDisconnected { exit_status } => {
                self.state = SshConnectionState::Disconnected;
                let reason = disconnect_reason_text(exit_status);
                push_disconnect_record(&mut self.recent_disconnects, reason, at);
            },
            RemoteServerManagerEvent::SessionDeregistered => {
                self.state = SshConnectionState::Disconnected;
            },
            _ => {},
        }
    }
}

impl SshConnectionModel {
    /// The table holds every node once, and every connection is sound.
    pub closed spec fn wf(&self) -> bool {
        self.node_connections.wf() && all_sound(self@)
    }

    /// The node of a terminal: the one that waits for its session, or else the first one, in an order
    /// that means nothing, whose connection goes through it.
    pub closed spec fn terminal_owner(&self, terminal: EntityId) -> Option<Seq<char>> {
        if self@.pending.contains_key(terminal.value) {
            Some(self@.pending[terminal.value])
        } else {
            first_through(self.node_connections.keys(), self@.nodes, terminal)
        }
    }

    /// A change of one connection that leaves its terminal alone leaves every terminal its node.
    proof fn lemma_owners_stay(before: Self, after: Self, node: Seq<char>)
        requires
            before@.nodes.contains_key(node),
            after@ == with_connection(before@, node, after@.nodes[node]),
            after@.nodes[node].terminal_view_id == before@.nodes[node].terminal_view_id,
            after.node_connections.keys() == before.node_connections.keys(),
        ensures
            forall|terminal: EntityId| #[trigger]
                after.terminal_owner(terminal) == before.terminal_owner(terminal),
    {
        assert forall|terminal: EntityId| #[trigger]
            after.terminal_owner(terminal) == before.terminal_owner(terminal) by {
            lemma_first_through_same(
                before.node_connections.keys(),
                after@.nodes,
                before@.nodes,
                terminal,
            );
        }
    }

    /// A model without connections.
    pub fn new() -> (model: Self)
        ensures
            model.wf(),
            model@ == empty_model(),
    {
        let model = SshConnectionModel {
            pending_terminal_to_node: HashMap::new(),
            session_to_node: HashMap::new(),
            node_connections: TextTable::new(),
        };
        assert(model@.pending =~= Map::<u64, Seq<char>>::empty());
        assert(model@.sessions =~= Map::<u64, Seq<char>>::empty());
        assert(model@.nodes =~= Map::<Seq<char>, ConnectionView>::empty());
        model
    }

    /// Notes that `node_id` is being connected through a terminal. What was known of the node is
    /// forgotten. The observers of the model are to be told.
    pub fn start_connect(&mut self, node_id: String, terminal_view_id: EntityId)
        requires
            old(self).wf(),
        ensures
            final(self).wf(),
            final(self)@ == started(old(self)@, node_id@, terminal_view_id),
    {
        let ghost node = node_id@;
        let connection = SshNodeConnection {
            terminal_view_id,
            session_id: None,
            host_id: None,
            state: SshConnectionState::Connecting,
            recent_disconnects: VecDeque::new(),
        };
        assert(connection@.recent_disconnects =~= Seq::<DisconnectView>::empty());
        let _ = self.pending_terminal_to_node.insert(terminal_view_id.value, node_id.clone());
        self.node_connections.insert(node_id, connection);
        assert(self@.pending =~= old(self)@.pending.insert(terminal_view_id.value, node));
        assert(self@.nodes =~= old(self)@.nodes.insert(node, fresh_connection(terminal_view_id)));
    }

    /// Puts a connection in place of the one of `node_id`, if there was one.
    fn replace(&mut self, node_id: String, connection: SshNodeConnection)
        requires
            old(self).node_connections.wf(),
        ensures
            final(self).node_connections.wf(),
            final(self)@ == with_connection(old(self)@, node_id@, connection@),
            old(self)@.nodes.contains_key(node_id@) ==> final(self).node_connections.keys()
                == old(self).node_connections.keys(),
    {
        let ghost node = node_id@;
        self.node_connections.insert(node_id, connection);
        assert(self@.nodes =~= old(self)@.nodes.insert(node, connection@));
    }

    /// Notes the host of a node that is now connected. The result says whether the node is known;
    /// if it is, the observers of the model are to be told.
    pub fn mark_connected_with_host_id(&mut self, node_id: String, host_id: HostId) -> (known: bool)
        requires
            old(self).wf(),
        ensures
            final(self).wf(),
            known == old(self)@.nodes.contains_key(node_id@),
            final(self)@ == marked_connected(old(self)@, node_id@, host_id@),
            forall|terminal: EntityId| #[trigger]
                final(self).terminal_owner(terminal) == old(self).terminal_owner(terminal),
    {
        match self.node_connections.get(node_id.as_str()) {
            Some(connection) => {
                let mut connection = connection.clone();
                connection.host_id = Some(host_id);
                connection.state = SshConnectionState::Connected;
                let ghost node = node_id@;
                self.replace(node_id, connection);
                proof {
                    Self::lemma_owners_stay(*old(self), *self, node);
                }
                true
            },
            None => false,
        }
    }

    /// Notes that a node could not be connected, and why. The result says whether the node is known;
    /// if it is, the observers of the model are to be told.
    pub fn mark_failed(&mut self, node_id: String, reason: String) -> (known: bool)
        requires
            old(self).wf(),
        ensures
            final(self).wf(),
            known == old(self)@.nodes.contains_key(node_id@),
            exists|at: SystemTime| #[trigger]
                marked_failed(old(self)@, node_id@, reason@, at) == final(self)@,
            forall|terminal: EntityId| #[trigger]
                final(self).terminal_owner(terminal) == old(self).terminal_owner(terminal),
    {
        let at = now();
        self.mark_failed_at(node_id, reason, at)
    }

    /// [`SshConnectionModel::mark_failed`] at a given moment.
    pub fn mark_failed_at(&mut self, node_id: String, reason: String, at: SystemTime) -> (known:
        bool)
        requires
            old(self).wf(),
        ensures
            final(self).wf(),
            known == old(self)@.nodes.contains_key(node_id@),
            final(self)@ == marked_failed(old(self)@, node_id@, reason@, at),
            forall|terminal: EntityId| #[trigger]
                final(self).terminal_owner(terminal) == old(self).terminal_owner(terminal),
    {
        match self.node_connections.get(node_id.as_str()) {
            Some(connection) => {
                let mut connection = connection.clone();
                connection.state = SshConnectionState::Failed;
                push_disconnect_record(&mut connection.recent_disconnects, reason, at);
                let ghost node = node_id@;
                self.replace(node_id, connection);
                proof {
                    Self::lemma_owners_stay(*old(self), *self, node);
                }
                true
            },
            None => false,
        }
    }

    /// Ties the session of a terminal to the node that waits for it. `host_id` is the host of the
    /// session, where it is known already. The result says whether a node was waiting; if one was,
    /// the observers of the model are to be told.
    pub fn bind_terminal_session(
        &mut self,
        terminal_view_id: EntityId,
        session_id: SessionId,
        host_id: Option<HostId>,
    ) -> (waited: bool)
        requires
            old(self).wf(),
        ensures
            final(self).wf(),
            waited == old(self)@.pending.contains_key(terminal_view_id.value),
            final(self)@ == bound(
                old(self)@,
                terminal_view_id,
                session_id,
                host_view(host_id),
            ),
            forall|other: u64|
                other != terminal_view_id.value ==> #[trigger] same_at(
                    final(self)@.pending,
                    old(self)@.pending,
                    other,
                ),
    {
        let ghost before = self@;
        match self.pending_terminal_to_node.remove(&terminal_view_id.value) {
            Some(node_id) => {
                let ghost node = node_id@;
                let _ = self.session_to_node.insert(session_id.value, node_id.clone());
                let recent_disconnects = match self.node_connections.get(node_id.as_str()) {
                    Some(connection) => connection.clone().recent_disconnects,
                    None => VecDeque::new(),
                };
                let state = if host_id.is_some() {
                    SshConnectionState::Connected
                } else {
                    SshConnectionState::Connecting
                };
                let connection = SshNodeConnection {
                    terminal_view_id,
                    session_id: Some(session_id),
                    host_id,
                    state,
                    recent_disconnects,
                };
                assert(connection@.recent_disconnects =~= bound_connection(
                    before,
                    node,
                    terminal_view_id,
                    session_id,
                    host_view(host_id),
                ).recent_disconnects);
                self.replace(node_id, connection);
                let ghost after = bound(before, terminal_view_id, session_id, host_view(host_id));
                assert(self@.pending =~= after.pending);
                assert(self@.sessions =~= after.sessions);
                assert(self@.nodes =~= after.nodes);
                true
            },
            None => {
                assert(self@.pending =~= before.pending);
                false
            },
        }
    }

    /// The connection of a node.
    pub fn connection_for_node(&self, node_id: &str) -> (connection: Option<&SshNodeConnection>)
        requires
            self.wf(),
        ensures
            match connection {
                Some(c) => self@.nodes.contains_key(node_id@) && c@ == self@.nodes[node_id@],
                None => !self@.nodes.contains_key(node_id@),
            },
    {
        self.node_connections.get(node_id)
    }

    /// Whether a node waits for the session of a terminal.
    pub fn awaits_session(&self, terminal_view_id: EntityId) -> (waits: bool)
        requires
            self.wf(),
        ensures
            waits == self@.pending.contains_key(terminal_view_id.value),
    {
        self.pending_terminal_to_node.contains_key(&terminal_view_id.value)
    }

    /// The node whose connection goes through a terminal, without those that wait for a session.
    fn node_through(&self, terminal_view_id: EntityId) -> (node_id: Option<&str>)
        requires
            self.wf(),
        ensures
            opt_view(node_id) == first_through(
                self.node_connections.keys(),
                self@.nodes,
                terminal_view_id,
            ),
    {
        let n: usize = self.node_connections.len();
        let ghost keys = self.node_connections.keys();
        assert(keys.skip(0) =~= keys);
        for i in 0..n
            invariant
                self.wf(),
                n == keys.len(),
                keys == self.node_connections.keys(),
                first_through(keys, self@.nodes, terminal_view_id) == first_through(
                    keys.skip(i as int),
                    self@.nodes,
                    terminal_view_id,
                ),
        {
            let (node, connection) = self.node_connections.entry(i);
            assert(self@.nodes[node@] == connection@);
            if connection.terminal_view_id.value == terminal_view_id.value {
                return Some(node);
            }
            assert(keys.skip(i as int).skip(1) =~= keys.skip(i + 1));
        }
        None
    }

    /// The node of a terminal. Where several nodes were connected through it and none waits for its
    /// session, it is one of them, the same as [`SshConnectionModel::release_terminal_view`] takes.
    pub fn node_id_for_terminal_view(&self, terminal_view_id: EntityId) -> (node_id: Option<&str>)
        requires
            self.wf(),
        ensures
            opt_view(node_id) == self.terminal_owner(terminal_view_id),
            match node_id {
                Some(node) => owns(self@, terminal_view_id, node@),
                None => forall|node: Seq<char>| !owns(self@, terminal_view_id, node),
            },
            self@.pending.contains_key(terminal_view_id.value) ==> node_id is Some,
    {
        proof {
            self.law_terminal_owner_owns(terminal_view_id);
        }
        match self.pending_terminal_to_node.get(&terminal_view_id.value) {
            Some(node_id) => Some(node_id.as_str()),
            None => self.node_through(terminal_view_id),
        }
    }

    /// The host of a node.
    pub fn host_id_for_node(&self, node_id: &str) -> (host_id: Option<&HostId>)
        requires
            self.wf(),
        ensures
            match host_id {
                Some(host) => self@.nodes.contains_key(node_id@) && self@.nodes[node_id@].host_id
                    == Some(host@),
                None => self@.nodes.contains_key(node_id@) ==> self@.nodes[node_id@].host_id
                    is None,
            },
    {
        match self.node_connections.get(node_id) {
            Some(connection) => connection.host_id.as_ref(),
            None => None,
        }
    }

    /// Forgets a terminal that was closed, and the node of it, which is the result. Where there was
    /// one, the observers of the model are to be told.
    pub fn release_terminal_view(&mut self, terminal_view_id: EntityId) -> (node_id: Option<String>)
        requires
            old(self).wf(),
        ensures
            final(self).wf(),
            match node_id {
                Some(node) => old(self).terminal_owner(terminal_view_id) == Some(node@),
                None => old(self).terminal_owner(terminal_view_id) is None,
            },
            match node_id {
                Some(node) => owns(old(self)@, terminal_view_id, node@) && final(self)@
                    == released(old(self)@, terminal_view_id, node@),
                None => final(self)@ == old(self)@ && forall|node: Seq<char>|
                    !owns(old(self)@, terminal_view_id, node),
            },
            old(self)@.pending.contains_key(terminal_view_id.value) ==> node_id is Some,
    {
        proof {
            self.law_terminal_owner_owns(terminal_view_id);
        }
        let ghost before = self@;
        let pending = self.pending_terminal_to_node.remove(&terminal_view_id.value);
        assert(self@.nodes == before.nodes);
        assert(all_sound(self@));
        let node_id = match pending {
            Some(node_id) => node_id,
            None => match self.node_through(terminal_view_id) {
                Some(node_id) => node_id.to_owned(),
                None => {
                    assert(self@.pending =~= before.pending);
                    return None;
                },
            },
        };
        if let Some(connection) = self.node_connections.remove(node_id.as_str()) {
            if let Some(session_id) = connection.session_id {
                let _ = self.session_to_node.remove(&session_id.value);
            }
        }
        proof {
            let after = released(before, terminal_view_id, node_id@);
            assert(self@.pending =~= after.pending);
            assert(self@.sessions =~= after.sessions);
            assert(self@.nodes =~= after.nodes);
        }
        Some(node_id)
    }

    /// Carries out an event of the manager of the remote servers. `session_id` is the session that
    /// the event is about, if it is about one. The result says whether the session belongs to a
    /// known node; if it does, the observers of the model are to be told.
    pub fn handle_remote_server_event(
        &mut self,
        session_id: Option<SessionId>,
        event: &RemoteServerManagerEvent,
    ) -> (reached: bool)
        requires
            old(self).wf(),
        ensures
            final(self).wf(),
            reached == reaches_any(old(self)@, session_id),
            reached && *event is SessionConnectionFailed ==> ({
                let node = old(self)@.sessions[session_id->0.value];
                &&& final(self)@.nodes[node].state == SshConnectionState::Failed
                &&& final(self)@.nodes[node].recent_disconnects[0].reason
                    == event->SessionConnectionFailed_error@
            }),
            exists|at: SystemTime| #[trigger]
                handled(old(self)@, session_id, *event, at) == final(self)@,
            forall|terminal: EntityId| #[trigger]
                final(self).terminal_owner(terminal) == old(self).terminal_owner(terminal),
    {
        let at = now();
        self.handle_remote_server_event_at(session_id, event, at)
    }

    /// [`SshConnectionModel::handle_remote_server_event`] at a given moment.
    pub fn handle_remote_server_event_at(
        &mut self,
        session_id: Option<SessionId>,
        event: &RemoteServerManagerEvent,
        at: SystemTime,
    ) -> (reached: bool)
        requires
            old(self).wf(),
        ensures
            final(self).wf(),
            reached == reaches_any(old(self)@, session_id),
            reached && *event is SessionConnectionFailed ==> ({
                let node = old(self)@.sessions[session_id->0.value];
                &&& final(self)@.nodes[node].state == SshConnectionState::Failed
                &&& final(self)@.nodes[node].recent_disconnects[0].reason
                    == event->SessionConnectionFailed_error@
            }),
            final(self)@ == handled(old(self)@, session_id, *event, at),
            forall|terminal: EntityId| #[trigger]
                final(self).terminal_owner(terminal) == old(self).terminal_owner(terminal),
    {
        let session_id = match session_id {
            Some(session_id) => session_id,
            None => {
                return false;
            },
        };
        let node_id = match self.session_to_node.get(&session_id.value) {
            Some(node_id) => node_id.clone(),
            None => {
                return false;
            },
        };
        match self.node_connections.get(node_id.as_str()) {
            Some(connection) => {
                let mut connection = connection.clone();
                connection.apply(event, at);
                let ghost node = node_id@;
                self.replace(node_id, connection);
                proof {
                    assert(old(self)@.nodes.contains_key(node));
                    Self::lemma_owners_stay(*old(self), *self, node);
                }
                true
            },
            None => false,
        }
    }
}

// ---------------------------------------------------------------------------------------------
// Laws
// ---------------------------------------------------------------------------------------------

impl SshConnectionModel {
    /// In every model that the operations can reach, no node remembers too many disconnects, and
    /// every node that is connected knows its host.
    pub proof fn law_connections_are_sound(&self, node: Seq<char>)
        requires
            self.wf(),
            self@.nodes.contains_key(node),
        ensures
            self@.nodes[node].recent_disconnects.len() <= MAX_DISCONNECT_RECORDS,
            self@.nodes[node].state == SshConnectionState::Connected
                ==> self@.nodes[node].host_id is Some,
    {
    }

    /// The node of a terminal owns it, and a terminal without a node is owned by none.
    pub proof fn law_terminal_owner_owns(&self, terminal: EntityId)
        requires
            self.wf(),
        ensures
            match self.terminal_owner(terminal) {
                Some(node) => owns(self@, terminal, node),
                None => forall|node: Seq<char>| !owns(self@, terminal, node),
            },
            self@.pending.contains_key(terminal.value) ==> self.terminal_owner(terminal) is Some,
    {
        let keys = self.node_connections.keys();
        lemma_first_through(keys, self@.nodes, terminal);
        assert forall|node: Seq<char>| #[trigger]
            self@.nodes.contains_key(node) == keys.contains(node) by {
            self.node_connections.lemma_keys(node);
        }
        if self.terminal_owner(terminal) is None {
            assert forall|node: Seq<char>| !owns(self@, terminal, node) by {
                assert(self@.nodes.contains_key(node) == keys.contains(node));
            }
        } else {
            let node = self.terminal_owner(terminal)->0;
            assert(self@.nodes.contains_key(node) == keys.contains(node));
        }
    }
}

/// A node that was just asked for is the one and only node of its terminal, and starts afresh.
pub proof fn law_started_node_owns_its_terminal(
    model: ModelView,
    node: Seq<char>,
    terminal: EntityId,
)
    ensures
        ({
            let after = started(model, node, terminal);
            &&& forall|other: Seq<char>| owns(after, terminal, other) <==> other == node
            &&& after.nodes[node] == fresh_connection(terminal)
            &&& after.sessions == model.sessions
            &&& forall|other: Seq<char>|
                other != node && model.nodes.contains_key(other) ==> after.nodes.contains_key(other)
                    && #[trigger] after.nodes[other] == model.nodes[other]
        }),
{
}

/// Binding a session to the terminal of a node makes the events of that session reach the node, and
/// leaves the node with that terminal and that session. Other nodes and sessions stay as they were.
pub proof fn law_bound_session_reaches_its_node(
    model: ModelView,
    terminal: EntityId,
    session: SessionId,
    host: Option<Seq<char>>,
)
    requires
        model.pending.contains_key(terminal.value),
    ensures
        ({
            let node = model.pending[terminal.value];
            let after = bound(model, terminal, session, host);
            &&& reaches(after, Some(session), node)
            &&& after.nodes[node].terminal_view_id == terminal
            &&& after.nodes[node].session_id == Some(session)
            &&& after.nodes[node].host_id == host
            &&& after.nodes[node].state == SshConnectionState::Connected <==> host is Some
            &&& owns(after, terminal, node)
            &&& forall|other: Seq<char>|
                other != node && model.nodes.contains_key(other) ==> after.nodes.contains_key(other)
                    && #[trigger] after.nodes[other] == model.nodes[other]
            &&& forall|other: u64|
                other != session.value && model.sessions.contains_key(other)
                    ==> after.sessions.contains_key(other) && #[trigger] after.sessions[other]
                    == model.sessions[other]
        }),
{
}

/// Marking a node as connected or as failed changes that node, if it is known, and nothing else: nodes
/// neither come nor go, and terminals and sessions keep their nodes. A failure leaves the node with
/// the host that it had.
pub proof fn law_mark_touches_one_node(
    model: ModelView,
    node: Seq<char>,
    host: Seq<char>,
    reason: Seq<char>,
    at: SystemTime,
    other: Seq<char>,
)
    requires
        other != node,
    ensures
        ({
            let connected = marked_connected(model, node, host);
            let failed = marked_failed(model, node, reason, at);
            &&& connected.pending == model.pending && failed.pending == model.pending
            &&& connected.sessions == model.sessions && failed.sessions == model.sessions
            &&& connected.nodes.dom() == model.nodes.dom()
            &&& failed.nodes.dom() == model.nodes.dom()
            &&& connected.nodes[other] == model.nodes[other]
            &&& failed.nodes[other] == model.nodes[other]
            &&& model.nodes.contains_key(node) ==> {
                &&& connected.nodes[node].host_id == Some(host)
                &&& connected.nodes[node].state == SshConnectionState::Connected
                &&& connected.nodes[node].recent_disconnects
                    == model.nodes[node].recent_disconnects
                &&& failed.nodes[node].host_id == model.nodes[node].host_id
                &&& failed.nodes[node].state == SshConnectionState::Failed
                &&& failed.nodes[node].recent_disconnects[0] == (DisconnectView { at, reason })
            }
        }),
{
    assert(marked_connected(model, node, host).nodes.dom() =~= model.nodes.dom());
    assert(marked_failed(model, node, reason, at).nodes.dom() =~= model.nodes.dom());
}

/// A node that lost its connection and was reconnected is as a node that was connected to that host
/// all along, but for the record of the loss.
pub proof fn law_reconnected_node_remembers_the_loss(
    connection: ConnectionView,
    exit_status: Option<RemoteServerExitStatus>,
    host_id: HostId,
    at: SystemTime,
    later: SystemTime,
)
    ensures
        ({
            let lost_event = RemoteServerManagerEvent::SessionDisconnected { exit_status };
            let back_event = RemoteServerManagerEvent::SessionReconnected { host_id };
            let started_event = RemoteServerManagerEvent::SessionReconnectStarted;
            let gone = after_event(connection, lost_event, at);
            let back = after_event(after_event(gone, started_event, later), back_event, later);
            &&& gone.state == SshConnectionState::Disconnected
            &&& after_event(gone, started_event, later).state == SshConnectionState::Reconnecting
            &&& back == ConnectionView {
                recent_disconnects: with_record(
                    connection.recent_disconnects,
                    DisconnectView { at, reason: disconnect_reason(exit_status) },
                ),
                ..connected_to(connection, host_id@)
            }
        }),
{
}

/// A terminal waits for one session only: once it is bound, binding it again changes nothing.
pub proof fn law_bind_happens_once(
    model: ModelView,
    terminal: EntityId,
    first: SessionId,
    second: SessionId,
    first_host: Option<Seq<char>>,
    second_host: Option<Seq<char>>,
)
    ensures
        ({
            let after = bound(model, terminal, first, first_host);
            bound(after, terminal, second, second_host) == after
        }),
{
}

/// An event changes the connection of the one node that it reaches, and nothing else: nodes neither
/// come nor go, and terminals and sessions keep their nodes.
pub proof fn law_event_touches_one_node(
    model: ModelView,
    session: Option<SessionId>,
    event: RemoteServerManagerEvent,
    at: SystemTime,
    other: Seq<char>,
)
    ensures
        ({
            let after = handled(model, session, event, at);
            &&& after.pending == model.pending
            &&& after.sessions == model.sessions
            &&& after.nodes.dom() == model.nodes.dom()
            &&& !reaches(model, session, other) ==> after.nodes[other] == model.nodes[other]
            &&& reaches(model, session, other) ==> after.nodes[other] == after_event(
                model.nodes[other],
                event,
                at,
            )
        }),
{
    let after = handled(model, session, event, at);
    assert(after.nodes.dom() =~= model.nodes.dom());
}

/// No event takes a node off its terminal or its session; only a connect or a reconnect changes what
/// is known of its host, and only a failure or a disconnect what is remembered of disconnects.
pub proof fn law_event_keeps_identity(
    connection: ConnectionView,
    event: RemoteServerManagerEvent,
    at: SystemTime,
)
    ensures
        ({
            let after = after_event(connection, event, at);
            &&& after.terminal_view_id == connection.terminal_view_id
            &&& after.session_id == connection.session_id
            &&& !(event is SessionConnected) && !(event is SessionReconnected) ==> after.host_id
                == connection.host_id
            &&& !(event is SessionConnectionFailed) && !(event is SessionDisconnected)
                ==> after.recent_disconnects == connection.recent_disconnects
        }),
{
}

/// A lost connection is noted first, and of what was noted before only the oldest record can go.
pub proof fn law_newest_record_comes_first(records: Seq<DisconnectView>, record: DisconnectView)
    requires
        records.len() <= MAX_DISCONNECT_RECORDS,
    ensures
        ({
            let after = with_record(records, record);
            &&& after.len() <= MAX_DISCONNECT_RECORDS
            &&& after[0] == record
            &&& records.len() < MAX_DISCONNECT_RECORDS ==> after.skip(1) == records
            &&& records.len() == MAX_DISCONNECT_RECORDS ==> after.skip(1) == records.drop_last()
        }),
{
    let after = with_record(records, record);
    if records.len() < MAX_DISCONNECT_RECORDS {
        assert(after.skip(1) =~= records);
    } else {
        assert(after.skip(1) =~= records.drop_last());
    }
}

/// Releasing a terminal forgets its node: the node has no connection any more, the terminal waits for
/// nothing, so that binding a session to it changes nothing, and neither do the events of the node's
/// session. All other nodes stay as they were.
pub proof fn law_released_node_is_gone(
    model: ModelView,
    terminal: EntityId,
    node: Seq<char>,
    other: Seq<char>,
    session: SessionId,
    host: Option<Seq<char>>,
    event: RemoteServerManagerEvent,
    at: SystemTime,
)
    requires
        owns(model, terminal, node),
        other != node,
    ensures
        ({
            let after = released(model, terminal, node);
            &&& !after.nodes.contains_key(node)
            &&& !after.pending.contains_key(terminal.value)
            &&& !owns(after, terminal, node)
            &&& model.nodes.contains_key(node) && model.nodes[node].session_id is Some
                ==> !reaches_any(after, model.nodes[node].session_id) && handled(
                after,
                model.nodes[node].session_id,
                event,
                at,
            ) == after
            &&& bound(after, terminal, session, host) == after
            &&& after.nodes.contains_key(other) == model.nodes.contains_key(other)
            &&& model.nodes.contains_key(other) ==> after.nodes[other] == model.nodes[other]
        }),
{
}

/// Connecting a new node through a terminal that waits for nothing, and closing that terminal at once,
/// leaves the model as it was.
pub proof fn law_start_then_release(model: ModelView, node: Seq<char>, terminal: EntityId)
    requires
        !model.pending.contains_key(terminal.value),
        !model.nodes.contains_key(node),
    ensures
        released(started(model, node, terminal), terminal, node) == model,
{
    let after = released(started(model, node, terminal), terminal, node);
    assert(after.pending =~= model.pending);
    assert(after.nodes =~= model.nodes);
}

/// A connection is seen with all its fields, and its records one by one.
pub proof fn law_connection_is_seen_whole(connection: SshNodeConnection, i: int)
    ensures
        connection@.terminal_view_id == connection.terminal_view_id,
        connection@.session_id == connection.session_id,
        connection@.state == connection.state,
        connection@.host_id is Some <==> connection.host_id is Some,
        connection.host_id is Some ==> connection@.host_id->0 == connection.host_id->0.value@,
        connection@.recent_disconnects.len() == connection.recent_disconnects@.len(),
        0 <= i < connection.recent_disconnects@.len() ==> connection@.recent_disconnects[i].at
            == connection.recent_disconnects@[i].at && connection@.recent_disconnects[i].reason
            == connection.recent_disconnects@[i].reason@,
{
}

/// `a` and `b` know the same of `key`.
pub open spec fn same_at<K, V>(a: Map<K, V>, b: Map<K, V>, key: K) -> bool {
    a.contains_key(key) == b.contains_key(key) && (b.contains_key(key) ==> a[key] == b[key])
}

/// Nothing is known at first.
pub proof fn law_new_model_knows_nothing(key: u64, node: Seq<char>)
    ensures
        !empty_model().pending.contains_key(key),
        !empty_model().sessions.contains_key(key),
        !empty_model().nodes.contains_key(node),
{
}

/// Starting to connect a node makes its terminal wait for it and gives it a connection without session, host
/// and past; every other terminal, every session and every other node is left as it was.
pub proof fn law_start_touches_its_node_only(
    model: ModelView,
    node: Seq<char>,
    terminal: EntityId,
    other_terminal: u64,
    session: u64,
    other: Seq<char>,
)
    ensures
        ({
            let after = started(model, node, terminal);
            let connection = after.nodes[node];
            &&& after.pending.contains_key(terminal.value) && after.pending[terminal.value] == node
            &&& other_terminal != terminal.value ==> same_at(
                after.pending,
                model.pending,
                other_terminal,
            )
            &&& same_at(after.sessions, model.sessions, session)
            &&& other != node ==> same_at(after.nodes, model.nodes, other)
            &&& after.nodes.contains_key(node)
            &&& connection.terminal_view_id == terminal
            &&& connection.session_id is None && connection.host_id is None
            &&& connection.state == SshConnectionState::Connecting
            &&& connection.recent_disconnects.len() == 0
        }),
{
}

/// Binding a session to a terminal that a node waits for ends the waiting of that terminal and of no other,
/// gives the session to the node, and leaves every other session and every other node as it was. The
/// node has the terminal, the session and the host that were given, is connected exactly where the
/// host is known and else connecting, and keeps what it remembers.
pub proof fn law_bind_touches_its_node_only(
    model: ModelView,
    terminal: EntityId,
    session: SessionId,
    host: Option<Seq<char>>,
    other_terminal: u64,
    other_session: u64,
    other: Seq<char>,
)
    requires
        model.pending.contains_key(terminal.value),
    ensures
        ({
            let node = model.pending[terminal.value];
            let after = bound(model, terminal, session, host);
            let connection = after.nodes[node];
            &&& !after.pending.contains_key(terminal.value)
            &&& other_terminal != terminal.value ==> same_at(
                after.pending,
                model.pending,
                other_terminal,
            )
            &&& after.sessions.contains_key(session.value) && after.sessions[session.value] == node
            &&& other_session != session.value ==> same_at(
                after.sessions,
                model.sessions,
                other_session,
            )
            &&& other != node ==> same_at(after.nodes, model.nodes, other)
            &&& after.nodes.contains_key(node)
            &&& connection.terminal_view_id == terminal
            &&& connection.session_id == Some(session)
            &&& connection.host_id == host
            &&& host is Some ==> connection.state == SshConnectionState::Connected
            &&& host is None ==> connection.state == SshConnectionState::Connecting
            &&& model.nodes.contains_key(node) ==> connection.recent_disconnects
                == model.nodes[node].recent_disconnects
            &&& !model.nodes.contains_key(node) ==> connection.recent_disconnects.len() == 0
        }),
{
}

/// A terminal that no node waits for takes no session: nothing changes.
pub proof fn law_bind_needs_a_waiting_node(
    model: ModelView,
    terminal: EntityId,
    session: SessionId,
    host: Option<Seq<char>>,
)
    requires
        !model.pending.contains_key(terminal.value),
    ensures
        bound(model, terminal, session, host) == model,
{
}

/// Two terminals that wait can be bound one after the other, in either order, each to its own node: what one
/// bind does, the other leaves alone.
pub proof fn law_terminals_are_bound_independently(
    model: ModelView,
    first: EntityId,
    second: EntityId,
    a: SessionId,
    b: SessionId,
    a_host: Option<Seq<char>>,
    b_host: Option<Seq<char>>,
)
    requires
        first.value != second.value,
        a.value != b.value,
        model.pending.contains_key(first.value),
        model.pending.contains_key(second.value),
        model.pending[first.value] != model.pending[second.value],
    ensures
        ({
            let one = bound(bound(model, first, a, a_host), second, b, b_host);
            let two = bound(bound(model, second, b, b_host), first, a, a_host);
            &&& one == two
            &&& reaches(one, Some(a), model.pending[first.value])
            &&& reaches(one, Some(b), model.pending[second.value])
        }),
{
    let one = bound(bound(model, first, a, a_host), second, b, b_host);
    let two = bound(bound(model, second, b, b_host), first, a, a_host);
    assert(one.pending =~= two.pending);
    assert(one.sessions =~= two.sessions);
    assert(one.nodes =~= two.nodes);
}

/// A record in front pushes the others back by one place; no more than five are kept.
pub proof fn law_records_move_back(
    records: Seq<DisconnectView>,
    record: DisconnectView,
    i: int,
)
    ensures
        ({
            let after = with_record(records, record);
            &&& after.len() == (if records.len() < 5 {
                records.len() + 1
            } else {
                5
            })
            &&& after[0] == record
            &&& 0 < i < after.len() ==> after[i] == records[i - 1]
        }),
{
}

/// `after` is `before`, but for its state, and with a record in front that tells `reason` and `at`.
pub open spec fn lost_as(
    before: ConnectionView,
    after: ConnectionView,
    reason: Seq<char>,
    at: SystemTime,
) -> bool {
    &&& after.terminal_view_id == before.terminal_view_id
    &&& after.session_id == before.session_id
    &&& after.host_id == before.host_id
    &&& after.recent_disconnects.len() > 0
    &&& after.recent_disconnects[0].reason == reason
    &&& after.recent_disconnects[0].at == at
    &&& after.recent_disconnects.len() <= 5
    &&& before.recent_disconnects.len() < 5 ==> after.recent_disconnects.len()
        == before.recent_disconnects.len() + 1
    &&& before.recent_disconnects.len() >= 5 ==> after.recent_disconnects.len() == 5
    &&& forall|i: int|
        0 < i < after.recent_disconnects.len() ==> #[trigger] after.recent_disconnects[i]
            == before.recent_disconnects[i - 1]
}

/// `after` is `before`, but for its state and its host.
pub open spec fn same_but_host(before: ConnectionView, after: ConnectionView) -> bool {
    &&& after.terminal_view_id == before.terminal_view_id
    &&& after.session_id == before.session_id
    &&& after.recent_disconnects == before.recent_disconnects
}

/// Every event leaves a node in a state that depends on the event alone, whatever the state was before: a
/// connect or a reconnect makes it connected to the host that is told, a failure makes it failed with
/// the error as its newest record, a loss makes it disconnected with the reason as its newest record,
/// and so on. An event that is not about the connection leaves all of it as it was.
pub proof fn law_event_decides_the_state(
    connection: ConnectionView,
    event: RemoteServerManagerEvent,
    at: SystemTime,
)
    ensures
        ({
            let after = after_event(connection, event, at);
            match event {
                RemoteServerManagerEvent::SessionConnected { host_id } => after.state
                    == SshConnectionState::Connected && after.host_id == Some(host_id.value@)
                    && same_but_host(connection, after),
                RemoteServerManagerEvent::SessionReconnected { host_id } => after.state
                    == SshConnectionState::Connected && after.host_id == Some(host_id.value@)
                    && same_but_host(connection, after),
                RemoteServerManagerEvent::SessionReconnectStarted => after.state
                    == SshConnectionState::Reconnecting && after.host_id == connection.host_id
                    && same_but_host(connection, after),
                RemoteServerManagerEvent::SessionConnectionFailed { error } => after.state
                    == SshConnectionState::Failed && lost_as(connection, after, error@, at),
                RemoteServerManagerEvent::SessionDisconnected { exit_status } => after.state
                    == SshConnectionState::Disconnected && lost_as(
                    connection,
                    after,
                    disconnect_reason(exit_status),
                    at,
                ),
                RemoteServerManagerEvent::SessionDeregistered => after.state
                    == SshConnectionState::Disconnected && after.host_id == connection.host_id
                    && same_but_host(connection, after),
                RemoteServerManagerEvent::SessionConnecting => after == connection,
                RemoteServerManagerEvent::HostConnected => after == connection,
                RemoteServerManagerEvent::HostDisconnected => after == connection,
                RemoteServerManagerEvent::NavigatedToDirectory => after == connection,
                RemoteServerManagerEvent::RepoMetadataSnapshot => after == connection,
                RemoteServerManagerEvent::RepoMetadataUpdated => after == connection,
                RemoteServerManagerEvent::RepoMetadataDirectoryLoaded => after == connection,
                RemoteServerManagerEvent::SetupStateChanged => after == connection,
                RemoteServerManagerEvent::BinaryCheckComplete => after == connection,
                RemoteServerManagerEvent::BinaryInstallComplete => after == connection,
                RemoteServerManagerEvent::ClientRequestFailed => after == connection,
                RemoteServerManagerEvent::ServerMessageDecodingError => after == connection,
            }
        }),
{
}

/// After a failure reaches a node, the node has failed and tells the error first, whatever it was before.
pub proof fn law_failure_reaches_its_node(
    model: ModelView,
    session: SessionId,
    event: RemoteServerManagerEvent,
    at: SystemTime,
)
    requires
        model.sessions.contains_key(session.value),
        model.nodes.contains_key(model.sessions[session.value]),
        event is SessionConnectionFailed,
    ensures
        ({
            let node = model.sessions[session.value];
            let after = handled(model, Some(session), event, at);
            &&& after.nodes.contains_key(node)
            &&& after.nodes[node].state == SshConnectionState::Failed
            &&& after.nodes[node].recent_disconnects[0].reason
                == event->SessionConnectionFailed_error@
            &&& after.nodes[node].recent_disconnects[0].at == at
            &&& after.nodes[node].host_id == model.nodes[node].host_id
        }),
{
}

/// An event of a session changes the node of that session, if it has one, as the event says, and nothing
/// else; an event of no session, or of one whose node is not known, changes nothing.
pub proof fn law_event_goes_by_its_session(
    model: ModelView,
    session: Option<SessionId>,
    event: RemoteServerManagerEvent,
    at: SystemTime,
    key: u64,
    other: Seq<char>,
)
    ensures
        ({
            let after = handled(model, session, event, at);
            let known = session is Some && model.sessions.contains_key(session->0.value)
                && model.nodes.contains_key(model.sessions[session->0.value]);
            let node = model.sessions[session->0.value];
            &&& reaches_any(model, session) == known
            &&& same_at(after.pending, model.pending, key)
            &&& same_at(after.sessions, model.sessions, key)
            &&& !known ==> same_at(after.nodes, model.nodes, other)
            &&& known && other != node ==> same_at(after.nodes, model.nodes, other)
            &&& known ==> after.nodes.contains_key(node) && after.nodes[node] == after_event(
                model.nodes[node],
                event,
                at,
            )
        }),
{
}

/// A mark changes a node that is known and nothing else, and does nothing where the node is not known. A node
/// that is marked as connected is connected to the host that is told and otherwise as it was; one that
/// is marked as failed has failed, with the reason as its newest record, and otherwise as it was.
pub proof fn law_mark_decides_the_state(
    model: ModelView,
    node: Seq<char>,
    host: Seq<char>,
    reason: Seq<char>,
    at: SystemTime,
    key: u64,
    other: Seq<char>,
)
    ensures
        ({
            let connected = marked_connected(model, node, host);
            let failed = marked_failed(model, node, reason, at);
            &&& same_at(connected.pending, model.pending, key)
            &&& same_at(connected.sessions, model.sessions, key)
            &&& same_at(failed.pending, model.pending, key)
            &&& same_at(failed.sessions, model.sessions, key)
            &&& other != node || !model.nodes.contains_key(node) ==> same_at(
                connected.nodes,
                model.nodes,
                other,
            ) && same_at(failed.nodes, model.nodes, other)
            &&& model.nodes.contains_key(node) ==> {
                &&& connected.nodes.contains_key(node) && failed.nodes.contains_key(node)
                &&& connected.nodes[node].state == SshConnectionState::Connected
                &&& connected.nodes[node].host_id == Some(host)
                &&& same_but_host(model.nodes[node], connected.nodes[node])
                &&& failed.nodes[node].state == SshConnectionState::Failed
                &&& lost_as(model.nodes[node], failed.nodes[node], reason, at)
            }
        }),
{
}

/// A node that waits for the session of a terminal is the one and only node of it. Where none waits, the nodes
/// of a terminal are those that are known and whose connection goes through it.
pub proof fn law_terminal_belongs_to_its_nodes(
    model: ModelView,
    terminal: EntityId,
    node: Seq<char>,
)
    ensures
        model.pending.contains_key(terminal.value) ==> (owns(model, terminal, node) <==> node
            == model.pending[terminal.value]),
        !model.pending.contains_key(terminal.value) ==> (owns(model, terminal, node) <==> (
        model.nodes.contains_key(node) && model.nodes[node].terminal_view_id.value
            == terminal.value)),
{
}

/// Releasing a terminal takes away that terminal, the node, and the session that the node was bound to, and
/// leaves every other terminal, session and node as it was.
pub proof fn law_release_touches_its_node_only(
    model: ModelView,
    terminal: EntityId,
    node: Seq<char>,
    other_terminal: u64,
    session: u64,
    other: Seq<char>,
)
    ensures
        ({
            let after = released(model, terminal, node);
            let had = model.nodes.contains_key(node) && model.nodes[node].session_id is Some
                && model.nodes[node].session_id->0.value == session;
            &&& !after.pending.contains_key(terminal.value)
            &&& other_terminal != terminal.value ==> same_at(
                after.pending,
                model.pending,
                other_terminal,
            )
            &&& had ==> !after.sessions.contains_key(session)
            &&& !had ==> same_at(after.sessions, model.sessions, session)
            &&& !after.nodes.contains_key(node)
            &&& other != node ==> same_at(after.nodes, model.nodes, other)
        }),
{
}

/// The reason of a loss tells the exit code and whether a signal ended the server, where that is known.
pub proof fn law_loss_tells_how_the_server_ended(exit_status: Option<RemoteServerExitStatus>)
    ensures
        exit_status is None ==> disconnect_reason(exit_status) == "remote server disconnected"@,
        exit_status matches Some(status) ==> ({
            let shown = disconnect_reason(exit_status);
            let front = "remote server exited (code="@;
            let middle = ", signal_killed="@;
            let code = process::code_text(status.code);
            let killed = process::bool_text(status.signal_killed);
            let a = front.len() as int;
            let b = a + code.len();
            let c = b + middle.len();
            let d = c + killed.len();
            &&& shown.len() == d + 1
            &&& shown.take(a) == front
            &&& shown.subrange(a, b) == code
            &&& shown.subrange(b, c) == middle
            &&& shown.subrange(c, d) == killed
            &&& shown[d] == ')'
        }),
{
    if let Some(status) = exit_status {
        reveal_strlit(")");
        let shown = disconnect_reason(exit_status);
        let front = "remote server exited (code="@;
        let middle = ", signal_killed="@;
        let code = process::code_text(status.code);
        let killed = process::bool_text(status.signal_killed);
        let a = front.len() as int;
        let b = a + code.len();
        let c = b + middle.len();
        let d = c + killed.len();
        assert(shown.take(a) =~= front);
        assert(shown.subrange(a, b) =~= code);
        assert(shown.subrange(b, c) =~= middle);
        assert(shown.subrange(c, d) =~= killed);
    }
}

impl SshConnectionModel {
    /// In every model that the operations can reach, a node remembers five disconnects at most.
    pub proof fn law_five_disconnects_are_remembered(&self, node: Seq<char>)
        requires
            self.wf(),
            self@.nodes.contains_key(node),
        ensures
            self@.nodes[node].recent_disconnects.len() <= 5,
    {
    }
}

} // verus!
