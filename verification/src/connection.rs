//! The life of one game websocket, as a state machine: the caller performs
//! each action (logging, sending, leaving the game) and reports what happened
//! as the next event.
use vstd::prelude::*;
use crate::models::{Game, Role, ServerEvent};

verus! {

/// The kind of a websocket message that a client sent.
#[derive(Clone, Copy, PartialEq, Eq, Structural, Debug)]
pub enum MessageKind {
    Text,
    Binary,
    Ping,
    Pong,
    Close,
}

impl MessageKind {
    /// The name under which the activity log records the kind.
    pub fn name(&self) -> (r: &'static str)
        ensures
            r == message_kind_name(*self),
    {
        match self {
            MessageKind::Text => "text",
            MessageKind::Binary => "binary",
            MessageKind::Ping => "ping",
            MessageKind::Pong => "pong",
            MessageKind::Close => "close",
        }
    }
}

pub open spec fn message_kind_name(k: MessageKind) -> &'static str {
    match k {
        MessageKind::Text => "text",
        MessageKind::Binary => "binary",
        MessageKind::Ping => "ping",
        MessageKind::Pong => "pong",
        MessageKind::Close => "close",
    }
}

/// Why a websocket was closed.
#[derive(Clone, Copy, PartialEq, Eq, Debug)]
pub enum DisconnectReason {
    StreamEnded,
    ClientClose,
    ReceiveError,
    SendError,
    JoinRejected,
}

pub open spec fn disconnect_reason_name(r: DisconnectReason) -> &'static str {
    match r {
        DisconnectReason::StreamEnded => "stream_ended",
        DisconnectReason::ClientClose => "client_close",
        DisconnectReason::ReceiveError => "receive_error",
        DisconnectReason::SendError => "send_error",
        DisconnectReason::JoinRejected => "join_rejected",
    }
}

impl DisconnectReason {
    /// The name under which the activity log records the reason.
    pub fn name(&self) -> (r: &'static str)
        ensures
            r == disconnect_reason_name(*self),
    {
        match self {
            DisconnectReason::StreamEnded => "stream_ended",
            DisconnectReason::ClientClose => "client_close",
            DisconnectReason::ReceiveError => "receive_error",
            DisconnectReason::SendError => "send_error",
            DisconnectReason::JoinRejected => "join_rejected",
        }
    }
}

/// The websocket operation that failed.
#[derive(Clone, Copy, PartialEq, Eq, Debug)]
pub enum SocketOperation {
    Send,
    SendUpdate,
    SendResync,
    Receive,
}

pub open spec fn socket_operation_name(o: SocketOperation) -> &'static str {
    match o {
        SocketOperation::Send => "send",
        SocketOperation::SendUpdate => "send_update",
        SocketOperation::SendResync => "send_resync",
        SocketOperation::Receive => "receive",
    }
}

impl SocketOperation {
    /// The name under which the activity log records the operation.
    pub fn name(&self) -> (r: &'static str)
        ensures
            r == socket_operation_name(*self),
    {
        match self {
            SocketOperation::Send => "send",
            SocketOperation::SendUpdate => "send_update",
            SocketOperation::SendResync => "send_resync",
            SocketOperation::Receive => "receive",
        }
    }
}

/// An entry of the activity log.
#[derive(Debug)]
pub enum Activity {
    WebsocketConnected,
    JoinRejected { message: &'static str },
    GameJoined,
    /// The `joined` event went out.
    WebsocketSent,
    WebsocketReceived { kind: MessageKind, bytes: usize },
    WebsocketError { operation: SocketOperation, error: String },
    UpdateLagged { skipped: u64 },
    GameLeft,
    WebsocketDisconnected { reason: DisconnectReason },
}

pub open spec fn activity_event_name(a: Activity) -> &'static str {
    match a {
        Activity::WebsocketConnected => "websocket_connected",
        Activity::JoinRejected { .. } => "join_rejected",
        Activity::GameJoined => "game_joined",
        Activity::WebsocketSent => "websocket_sent",
        Activity::WebsocketReceived { .. } => "websocket_received",
        Activity::WebsocketError { .. } => "websocket_error",
        Activity::UpdateLagged { .. } => "websocket_update_lagged",
        Activity::GameLeft => "game_left",
        Activity::WebsocketDisconnected { .. } => "websocket_disconnected",
    }
}

impl Activity {
    /// The event name under which the activity log records the entry.
    pub fn event_name(&self) -> (r: &'static str)
        ensures
            r == activity_event_name(*self),
    {
        match self {
            Activity::WebsocketConnected => "websocket_connected",
            Activity::JoinRejected { .. } => "join_rejected",
            Activity::GameJoined => "game_joined",
            Activity::WebsocketSent => "websocket_sent",
            Activity::WebsocketReceived { .. } => "websocket_received",
            Activity::WebsocketError { .. } => "websocket_error",
            Activity::UpdateLagged { .. } => "websocket_update_lagged",
            Activity::GameLeft => "game_left",
            Activity::WebsocketDisconnected { .. } => "websocket_disconnected",
        }
    }
}

/// What the caller is to do.
#[derive(Debug)]
pub enum ConnectionAction {
    /// Record `activity`, tagged with the connection's seat.
    Log { seat: Option<usize>, activity: Activity },
    /// Send `event` to the client.
    Send { event: ServerEvent },
    /// Send a close frame.
    SendClose,
    /// Tell the other connections of the game that it changed.
    NotifyUpdate,
    /// Send the game as it is now in a `game_updated` event, where it still
    /// exists; `resync` tells whether updates were missed.
    RefreshGame { resync: bool },
    /// Leave the game from `seat` (`None` for a spectator).
    Leave { seat: Option<usize> },
}

/// What happened since the last action.
#[derive(Debug)]
pub enum ConnectionEvent {
    /// The websocket is open.
    Opened,
    /// The table admitted the connection.
    Admitted { seat: Option<usize>, game: Game },
    /// The table refused the connection.
    Refused { message: &'static str },
    /// The `joined` event went out.
    JoinedSent,
    /// Sending the `joined` event failed.
    JoinedSendFailed { error: String },
    /// A message arrived.
    Received { kind: MessageKind, bytes: usize },
    /// Receiving failed.
    ReceiveFailed { error: String },
    /// The client's stream ended.
    StreamEnded,
    /// Another connection changed the game.
    GameChanged,
    /// `skipped` change notices were lost.
    UpdatesLagged { skipped: u64 },
    /// No more change notices will come.
    UpdatesClosed,
    /// Sending a `game_updated` event failed.
    UpdateSendFailed { resync: bool, error: String },
    /// The connection left the game; `found` tells whether the game existed.
    Left { found: bool },
}

/// Where a connection stands.
#[derive(Debug)]
pub enum Phase {
    /// Nothing has happened yet.
    Opening,
    /// Waiting for the table to admit the connection.
    Admitting,
    /// Admitted at `seat`; the `joined` event is on its way.
    SendingJoined { seat: Option<usize> },
    /// Admitted at `seat` and exchanging messages.
    Streaming { seat: Option<usize> },
    /// Leaving the game from `seat`; the websocket closed for `reason`.
    Leaving { seat: Option<usize>, reason: DisconnectReason },
    /// Done.
    Closed,
}

/// One websocket connection to a game.
#[derive(Debug)]
pub struct Connection {
    pub role: Role,
    pub phase: Phase,
}

pub open spec fn log(seat: Option<usize>, activity: Activity) -> ConnectionAction {
    ConnectionAction::Log { seat, activity }
}

/// How the connection ends once the websocket closed for `reason`: it
/// leaves the game from its seat.
pub open spec fn leave_for(role: Role, seat: Option<usize>, reason: DisconnectReason) -> (
    Connection,
    Seq<ConnectionAction>,
) {
    (
        Connection { role, phase: Phase::Leaving { seat, reason } },
        seq![ConnectionAction::Leave { seat }],
    )
}

/// The transition table of a connection.
pub open spec fn next(c: Connection, e: ConnectionEvent) -> (Connection, Seq<ConnectionAction>) {
    let role = c.role;
    match (c.phase, e) {
        (Phase::Opening, ConnectionEvent::Opened) => (
            Connection { role, phase: Phase::Admitting },
            seq![log(None, Activity::WebsocketConnected)],
        ),
        (Phase::Admitting, ConnectionEvent::Refused { message }) => (
            Connection { role, phase: Phase::Closed },
            seq![
                log(None, Activity::JoinRejected { message }),
                ConnectionAction::Send { event: ServerEvent::Error { message } },
                ConnectionAction::SendClose,
                log(None, Activity::WebsocketDisconnected { reason: DisconnectReason::JoinRejected }),
            ],
        ),
        (Phase::Admitting, ConnectionEvent::Admitted { seat, game }) => (
            Connection { role, phase: Phase::SendingJoined { seat } },
            seq![
                log(seat, Activity::GameJoined),
                ConnectionAction::Send { event: ServerEvent::Joined { role, seat, game } },
            ],
        ),
        (Phase::SendingJoined { seat }, ConnectionEvent::JoinedSent) => (
            Connection { role, phase: Phase::Streaming { seat } },
            seq![log(seat, Activity::WebsocketSent), ConnectionAction::NotifyUpdate],
        ),
        (Phase::SendingJoined { seat }, ConnectionEvent::JoinedSendFailed { error }) => {
            let (c2, acts) = leave_for(role, seat, DisconnectReason::SendError);
            (
                c2,
                seq![
                    log(
                        seat,
                        Activity::WebsocketError { operation: SocketOperation::Send, error },
                    ),
                ] + acts,
            )
        },
        (Phase::Streaming { seat }, ConnectionEvent::Received { kind, bytes }) => {
            let entry = log(seat, Activity::WebsocketReceived { kind, bytes });
            if kind == MessageKind::Close {
                let (c2, acts) = leave_for(role, seat, DisconnectReason::ClientClose);
                (c2, seq![entry] + acts)
            } else {
                (Connection { role, phase: Phase::Streaming { seat } }, seq![entry])
            }
        },
        (Phase::Streaming { seat }, ConnectionEvent::ReceiveFailed { error }) => {
            let (c2, acts) = leave_for(role, seat, DisconnectReason::ReceiveError);
            (
                c2,
                seq![
                    log(
                        seat,
                        Activity::WebsocketError { operation: SocketOperation::Receive, error },
                    ),
                ] + acts,
            )
        },
        (Phase::Streaming { seat }, ConnectionEvent::StreamEnded) => leave_for(
            role,
            seat,
            DisconnectReason::StreamEnded,
        ),
        (Phase::Streaming { seat }, ConnectionEvent::GameChanged) => (
            Connection { role, phase: Phase::Streaming { seat } },
            seq![ConnectionAction::RefreshGame { resync: false }],
        ),
        (Phase::Streaming { seat }, ConnectionEvent::UpdatesLagged { skipped }) => (
            Connection { role, phase: Phase::Streaming { seat } },
            seq![
                log(seat, Activity::UpdateLagged { skipped }),
                ConnectionAction::RefreshGame { resync: true },
            ],
        ),
        (Phase::Streaming { seat }, ConnectionEvent::UpdatesClosed) => leave_for(
            role,
            seat,
            DisconnectReason::StreamEnded,
        ),
        (Phase::Streaming { seat }, ConnectionEvent::UpdateSendFailed { resync, error }) => {
            let operation = if resync {
                SocketOperation::SendResync
            } else {
                SocketOperation::SendUpdate
            };
            let (c2, acts) = leave_for(role, seat, DisconnectReason::SendError);
            (c2, seq![log(seat, Activity::WebsocketError { operation, error })] + acts)
        },
        (Phase::Leaving { seat, reason }, ConnectionEvent::Left { found }) => {
            let tail = seq![
                log(seat, Activity::GameLeft),
                log(seat, Activity::WebsocketDisconnected { reason }),
            ];
            (
                Connection { role, phase: Phase::Closed },
                if found {
                    seq![ConnectionAction::NotifyUpdate] + tail
                } else {
                    tail
                },
            )
        },
        (phase, _) => (Connection { role, phase }, Seq::empty()),
    }
}

impl Connection {
    /// A connection in `role` that has not opened yet.
    pub fn new(role: Role) -> (r: Self)
        ensures
            r == (Connection { role, phase: Phase::Opening }),
    {
        Connection { role, phase: Phase::Opening }
    }

    /// Whether the connection is done.
    pub fn is_closed(&self) -> (r: bool)
        ensures
            r == (self.phase is Closed),
    {
        match self.phase {
            Phase::Closed => true,
            _ => false,
        }
    }

    /// Moves the connection on by event `e`; returns the actions to perform,
    /// in order.
    pub fn step(self, e: ConnectionEvent) -> (r: (Connection, Vec<ConnectionAction>))
        ensures
            (r.0, r.1@) == next(self, e),
    {
        let role = self.role;
        match (self.phase, e) {
            (Phase::Opening, ConnectionEvent::Opened) => (
                Connection { role, phase: Phase::Admitting },
                vec![ConnectionAction::Log { seat: None, activity: Activity::WebsocketConnected }],
            ),
            (Phase::Admitting, ConnectionEvent::Refused { message }) => (
                Connection { role, phase: Phase::Closed },
                vec![
                    ConnectionAction::Log {
                        seat: None,
                        activity: Activity::JoinRejected { message },
                    },
                    ConnectionAction::Send { event: ServerEvent::Error { message } },
                    ConnectionAction::SendClose,
                    ConnectionAction::Log {
                        seat: None,
                        activity: Activity::WebsocketDisconnected {
                            reason: DisconnectReason::JoinRejected,
                        },
                    },
                ],
            ),
            (Phase::Admitting, ConnectionEvent::Admitted { seat, game }) => (
                Connection { role, phase: Phase::SendingJoined { seat } },
                vec![
                    ConnectionAction::Log { seat, activity: Activity::GameJoined },
                    ConnectionAction::Send { event: ServerEvent::Joined { role, seat, game } },
                ],
            ),
            (Phase::SendingJoined { seat }, ConnectionEvent::JoinedSent) => (
                Connection { role, phase: Phase::Streaming { seat } },
                vec![
                    ConnectionAction::Log { seat, activity: Activity::WebsocketSent },
                    ConnectionAction::NotifyUpdate,
                ],
            ),
            (Phase::SendingJoined { seat }, ConnectionEvent::JoinedSendFailed { error }) => {
                let r = (
                    Connection {
                        role,
                        phase: Phase::Leaving { seat, reason: DisconnectReason::SendError },
                    },
                    vec![
                        ConnectionAction::Log {
                            seat,
                            activity: Activity::WebsocketError {
                                operation: SocketOperation::Send,
                                error,
                            },
                        },
                        ConnectionAction::Leave { seat },
                    ],
                );
                assert(r.1@ =~= next(self, e).1);
                r
            },
            (Phase::Streaming { seat }, ConnectionEvent::Received { kind, bytes }) => {
                let entry = ConnectionAction::Log {
                    seat,
                    activity: Activity::WebsocketReceived { kind, bytes },
                };
                if kind == MessageKind::Close {
                    let r = (
                        Connection {
                            role,
                            phase: Phase::Leaving { seat, reason: DisconnectReason::ClientClose },
                        },
                        vec![entry, ConnectionAction::Leave { seat }],
                    );
                    assert(r.1@ =~= next(self, e).1);
                    r
                } else {
                    (Connection { role, phase: Phase::Streaming { seat } }, vec![entry])
                }
            },
            (Phase::Streaming { seat }, ConnectionEvent::ReceiveFailed { error }) => {
                let r = (
                    Connection {
                        role,
                        phase: Phase::Leaving { seat, reason: DisconnectReason::ReceiveError },
                    },
                    vec![
                        ConnectionAction::Log {
                            seat,
                            activity: Activity::WebsocketError {
                                operation: SocketOperation::Receive,
                                error,
                            },
                        },
                        ConnectionAction::Leave { seat },
                    ],
                );
                assert(r.1@ =~= next(self, e).1);
                r
            },
            (Phase::Streaming { seat }, ConnectionEvent::StreamEnded) => (
                Connection {
                    role,
                    phase: Phase::Leaving { seat, reason: DisconnectReason::StreamEnded },
                },
                vec![ConnectionAction::Leave { seat }],
            ),
            (Phase::Streaming { seat }, ConnectionEvent::GameChanged) => (
                Connection { role, phase: Phase::Streaming { seat } },
                vec![ConnectionAction::RefreshGame { resync: false }],
            ),
            (Phase::Streaming { seat }, ConnectionEvent::UpdatesLagged { skipped }) => (
                Connection { role, phase: Phase::Streaming { seat } },
                vec![
                    ConnectionAction::Log { seat, activity: Activity::UpdateLagged { skipped } },
                    ConnectionAction::RefreshGame { resync: true },
                ],
            ),
            (Phase::Streaming { seat }, ConnectionEvent::UpdatesClosed) => (
                Connection {
                    role,
                    phase: Phase::Leaving { seat, reason: DisconnectReason::StreamEnded },
                },
                vec![ConnectionAction::Leave { seat }],
            ),
            (Phase::Streaming { seat }, ConnectionEvent::UpdateSendFailed { resync, error }) => {
                let operation = if resync {
                    SocketOperation::SendResync
                } else {
                    SocketOperation::SendUpdate
                };
                let r = (
                    Connection {
                        role,
                        phase: Phase::Leaving { seat, reason: DisconnectReason::SendError },
                    },
                    vec![
                        ConnectionAction::Log {
                            seat,
                            activity: Activity::WebsocketError { operation, error },
                        },
                        ConnectionAction::Leave { seat },
                    ],
                );
                assert(r.1@ =~= next(self, e).1);
                r
            },
            (Phase::Leaving { seat, reason }, ConnectionEvent::Left { found }) => {
                let mut actions: Vec<ConnectionAction> = Vec::new();
                if found {
                    actions.push(ConnectionAction::NotifyUpdate);
                }
                actions.push(ConnectionAction::Log { seat, activity: Activity::GameLeft });
                actions.push(
                    ConnectionAction::Log {
                        seat,
                        activity: Activity::WebsocketDisconnected { reason },
                    },
                );
                assert(actions@ =~= next(self, e).1);
                (Connection { role, phase: Phase::Closed }, actions)
            },
            (phase, _) => (Connection { role, phase }, Vec::new()),
        }
    }
}

/// A refused connection ends at once and never leaves the game, which it
/// never entered.
pub proof fn law_refused_connection_never_leaves(role: Role, message: &'static str)
    ensures
        ({
            let (c, acts) = next(
                Connection { role, phase: Phase::Admitting },
                ConnectionEvent::Refused { message },
            );
            &&& c.phase is Closed
            &&& forall|i: int| 0 <= i < acts.len() ==> !(#[trigger] acts[i] is Leave)
        }),
{
}

/// An admitted connection keeps its seat for as long as it is open, and
/// every event either keeps it open or makes it leave the game from that very
/// seat, with exactly one `Leave` action.
pub proof fn law_admitted_connection_leaves_its_seat(c: Connection, e: ConnectionEvent)
    requires
        c.phase is SendingJoined || c.phase is Streaming,
    ensures
        ({
            let seat = match c.phase {
                Phase::SendingJoined { seat } => seat,
                Phase::Streaming { seat } => seat,
                _ => None,
            };
            let (c2, acts) = next(c, e);
            ||| {
                &&& (c2.phase == Phase::SendingJoined { seat } || c2.phase == Phase::Streaming {
                    seat,
                })
                &&& forall|i: int| 0 <= i < acts.len() ==> !(#[trigger] acts[i] is Leave)
            }
            ||| {
                &&& c2.phase matches Phase::Leaving { seat: s, .. } && s == seat
                &&& acts.len() >= 1
                &&& acts.last() == ConnectionAction::Leave { seat }
                &&& forall|i: int| 0 <= i < acts.len() - 1 ==> !(#[trigger] acts[i] is Leave)
            }
        }),
{
}

/// Once closed, a connection stays closed and asks for nothing more.
pub proof fn law_closed_connection_is_inert(c: Connection, e: ConnectionEvent)
    requires
        c.phase is Closed,
    ensures
        next(c, e).0.phase is Closed,
        next(c, e).1.len() == 0,
{
}

/// A connection that leaves its game closes, and the last thing it records
/// is why its websocket closed.
pub proof fn law_leaving_ends_with_reason(
    role: Role,
    seat: Option<usize>,
    reason: DisconnectReason,
    found: bool,
)
    ensures
        ({
            let (c, acts) = next(
                Connection { role, phase: Phase::Leaving { seat, reason } },
                ConnectionEvent::Left { found },
            );
            &&& c.phase is Closed
            &&& acts.len() >= 2
            &&& acts.last() == log(seat, Activity::WebsocketDisconnected { reason })
            &&& acts[acts.len() - 2] == log(seat, Activity::GameLeft)
            &&& (acts[0] is NotifyUpdate <==> found)
        }),
{
}

/// The connection and the actions after events `es`, one after the other.
pub open spec fn run(c: Connection, es: Seq<ConnectionEvent>) -> (Connection, Seq<ConnectionAction>)
    decreases es.len(),
{
    if es.len() == 0 {
        (c, Seq::empty())
    } else {
        let (c1, a1) = next(c, es[0]);
        let (c2, a2) = run(c1, es.drop_first());
        (c2, a1 + a2)
    }
}

/// How many `Leave` actions `acts` holds.
pub open spec fn leave_count(acts: Seq<ConnectionAction>) -> nat
    decreases acts.len(),
{
    if acts.len() == 0 {
        0
    } else {
        leave_count(acts.drop_last()) + if acts.last() is Leave {
            1nat
        } else {
            0nat
        }
    }
}

/// Whether `a` records that the websocket closed.
pub open spec fn is_disconnect_log(a: ConnectionAction) -> bool {
    a matches ConnectionAction::Log { activity: Activity::WebsocketDisconnected { .. }, .. }
}

proof fn lemma_leave_count_add(a: Seq<ConnectionAction>, b: Seq<ConnectionAction>)
    ensures
        leave_count(a + b) == leave_count(a) + leave_count(b),
    decreases b.len(),
{
    if b.len() == 0 {
        assert(a + b =~= a);
    } else {
        lemma_leave_count_add(a, b.drop_last());
        assert((a + b).drop_last() =~= a + b.drop_last());
        assert((a + b).last() == b.last());
    }
}

proof fn lemma_leave_count_zero(a: Seq<ConnectionAction>)
    requires
        forall|i: int| 0 <= i < a.len() ==> !(#[trigger] a[i] is Leave),
    ensures
        leave_count(a) == 0,
    decreases a.len(),
{
    if a.len() > 0 {
        lemma_leave_count_zero(a.drop_last());
    }
}

/// Once a connection is leaving or closed, no event makes it leave again;
/// where it goes on to close, the last thing it records is why its websocket
/// closed, and a closed connection asks for nothing at all.
pub proof fn lemma_run_after_leave(c: Connection, es: Seq<ConnectionEvent>)
    requires
        c.phase is Leaving || c.phase is Closed,
    ensures
        ({
            let (c2, acts) = run(c, es);
            &&& leave_count(acts) == 0
            &&& c2.phase is Leaving || c2.phase is Closed
            &&& c2.phase is Leaving ==> c2.phase == c.phase
            &&& c.phase is Closed ==> acts.len() == 0 && c2.phase is Closed
            &&& c.phase is Leaving && c2.phase is Closed ==> acts.len() > 0 && is_disconnect_log(
                acts.last(),
            )
        }),
    decreases es.len(),
{
    if es.len() > 0 {
        let (c1, a1) = next(c, es[0]);
        let (c2, a2) = run(c1, es.drop_first());
        lemma_run_after_leave(c1, es.drop_first());
        if c.phase is Leaving && es[0] is Left {
            law_leaving_ends_with_reason(
                c.role,
                c.phase->Leaving_seat,
                c.phase->reason,
                es[0]->found,
            );
        }
        lemma_leave_count_zero(a1);
        lemma_leave_count_add(a1, a2);
        if a2.len() > 0 {
            assert((a1 + a2).last() == a2.last());
        } else {
            assert(a1 + a2 =~= a1);
        }
    }
}

/// Over a whole run: a connection that was admitted at `seat` leaves the game
/// at most once, always from `seat`; while it is still open it has not left,
/// once it is leaving or closed it has left exactly once, and where it is
/// closed, the last thing it recorded is why its websocket closed. This holds
/// however the connection ends: a close message, the end of the stream, a
/// receive or send error, or the end of the change notices.
pub proof fn law_admitted_connection_leaves_once(
    c: Connection,
    seat: Option<usize>,
    es: Seq<ConnectionEvent>,
)
    requires
        c.phase == (Phase::SendingJoined { seat }) || c.phase == (Phase::Streaming { seat }),
    ensures
        ({
            let (c2, acts) = run(c, es);
            &&& forall|i: int|
                0 <= i < acts.len() && #[trigger] acts[i] is Leave ==> acts[i]
                    == ConnectionAction::Leave { seat }
            &&& leave_count(acts) <= 1
            &&& (c2.phase is SendingJoined || c2.phase is Streaming) ==> leave_count(acts) == 0
            &&& (c2.phase is Leaving || c2.phase is Closed) ==> leave_count(acts) == 1
            &&& c2.phase matches Phase::Leaving { seat: s, .. } ==> s == seat
            &&& c2.phase is Closed ==> acts.len() > 0 && is_disconnect_log(acts.last())
            &&& !(c2.phase is Opening || c2.phase is Admitting)
        }),
    decreases es.len(),
{
    if es.len() > 0 {
        let (c1, a1) = next(c, es[0]);
        let rest = es.drop_first();
        let (c2, a2) = run(c1, rest);
        law_admitted_connection_leaves_its_seat(c, es[0]);
        lemma_leave_count_add(a1, a2);
        if c1.phase is Leaving {
            lemma_run_after_leave(c1, rest);
            // a1 ends with the one Leave; a2 has none.
            assert(a1 =~= a1.drop_last().push(a1.last()));
            lemma_leave_count_zero(a1.drop_last());
            assert forall|i: int| 0 <= i < a2.len() implies !(#[trigger] a2[i] is Leave) by {
                if a2[i] is Leave {
                    assert(leave_count(a2) > 0) by {
                        lemma_leave_count_positive(a2, i);
                    }
                }
            }
            assert forall|i: int|
                0 <= i < (a1 + a2).len() && #[trigger] (a1 + a2)[i] is Leave implies (a1
                + a2)[i] == ConnectionAction::Leave { seat } by {
                if i < a1.len() {
                    assert((a1 + a2)[i] == a1[i]);
                } else {
                    assert((a1 + a2)[i] == a2[i - a1.len()]);
                }
            }
            if a2.len() > 0 {
                assert((a1 + a2).last() == a2.last());
            } else {
                assert(a1 + a2 =~= a1);
            }
        } else {
            law_admitted_connection_leaves_once(c1, seat, rest);
            lemma_leave_count_zero(a1);
            assert forall|i: int|
                0 <= i < (a1 + a2).len() && #[trigger] (a1 + a2)[i] is Leave implies (a1
                + a2)[i] == ConnectionAction::Leave { seat } by {
                if i < a1.len() {
                    assert((a1 + a2)[i] == a1[i]);
                    assert(!(a1[i] is Leave));
                } else {
                    let j = i - a1.len();
                    assert((a1 + a2)[i] == a2[j]);
                    assert(a2[j] is Leave);
                    assert(a2[j] == ConnectionAction::Leave { seat });
                }
            }
            if a2.len() > 0 {
                assert((a1 + a2).last() == a2.last());
            }
        }
    } else {
        assert(leave_count(Seq::<ConnectionAction>::empty()) == 0);
    }
}

proof fn lemma_leave_count_positive(a: Seq<ConnectionAction>, i: int)
    requires
        0 <= i < a.len(),
        a[i] is Leave,
    ensures
        leave_count(a) > 0,
    decreases a.len(),
{
    if i < a.len() - 1 {
        lemma_leave_count_positive(a.drop_last(), i);
    }
}

/// Whether event `e` ends a streaming connection: the client's close message,
/// the end of its stream or of the change notices, or a failure to receive or
/// to send.
pub open spec fn ends_stream(e: ConnectionEvent) -> bool {
    ||| e matches ConnectionEvent::Received { kind, .. } && kind == MessageKind::Close
    ||| e is StreamEnded
    ||| e is UpdatesClosed
    ||| e is ReceiveFailed
    ||| e is UpdateSendFailed
}

/// While streaming, a connection leaves its game exactly when the client
/// closes the socket, its stream or the change notices end, or receiving or
/// sending fails; it then leaves from its own seat, for the matching reason.
/// Every other event (a text, binary, ping or pong message, a change notice,
/// lost notices) keeps it streaming at the same seat and never makes it
/// leave. A received message is always logged first, with its kind and size.
pub proof fn law_streaming_leaves_only_when_it_ends(role: Role, seat: Option<usize>, e: ConnectionEvent)
    ensures
        ({
            let (c2, acts) = next(Connection { role, phase: Phase::Streaming { seat } }, e);
            &&& ends_stream(e) ==> {
                &&& c2.phase matches Phase::Leaving { seat: s, .. } && s == seat
                &&& acts.len() >= 1
                &&& acts.last() == (ConnectionAction::Leave { seat })
            }
            &&& !ends_stream(e) ==> {
                &&& c2.phase == (Phase::Streaming { seat })
                &&& forall|i: int| 0 <= i < acts.len() ==> !(#[trigger] acts[i] is Leave)
            }
            &&& e matches ConnectionEvent::Received { kind, bytes } ==> (acts[0] == log(
                seat,
                Activity::WebsocketReceived { kind, bytes },
            ))
            &&& (e matches ConnectionEvent::Received { kind, .. } && kind == MessageKind::Close)
                ==> c2.phase == (Phase::Leaving { seat, reason: DisconnectReason::ClientClose })
            &&& (e is StreamEnded || e is UpdatesClosed) ==> c2.phase == (Phase::Leaving {
                seat,
                reason: DisconnectReason::StreamEnded,
            })
            &&& e is ReceiveFailed ==> c2.phase == (Phase::Leaving {
                seat,
                reason: DisconnectReason::ReceiveError,
            })
            &&& e is UpdateSendFailed ==> c2.phase == (Phase::Leaving {
                seat,
                reason: DisconnectReason::SendError,
            })
        }),
{
}

} // verus!
