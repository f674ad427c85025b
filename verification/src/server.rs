//! The decisions of a regional WebSocket server.
//!
//! A client connects to its nearest region. The region remembers which of its
//! users are connected and in which region every other user is present. A
//! message for a local user is pushed to that user's connection; a message for
//! a user of another region is forwarded to that region over NATS; a message
//! for a user present nowhere is dropped and its sender warned.
//!
//! Each handler below takes the server's state and one event, updates the
//! state and returns the actions that the event calls for, in order.
use vstd::prelude::*;
use crate::text;
use crate::maps::{ConnId, ConnectionMap, PresenceMap};
use crate::nats::{PresenceEvent, PresenceEventKind, PresenceEventView, RegionMessage, RegionMessageView};

verus! {

/// The query of a WebSocket connection request: `/ws?user_id=alice`.
#[derive(Debug, Clone)]
pub struct ConnectQuery {
    pub user_id: Option<String>,
}

/// What a client sends to route a message: `{ "to": "bob", "content": "hello" }`.
#[derive(Debug, Clone)]
pub struct OutgoingMessage {
    pub to: String,
    pub content: String,
}

/// What an outgoing message is made of.
pub struct OutgoingMessageView {
    pub to: Seq<char>,
    pub content: Seq<char>,
}

impl View for OutgoingMessage {
    type V = OutgoingMessageView;

    open spec fn view(&self) -> OutgoingMessageView {
        OutgoingMessageView { to: self.to@, content: self.content@ }
    }
}

/// A frame that the server pushes to one of its clients.
#[derive(Debug, Clone)]
pub enum Frame {
    /// The welcome frame: who the client is and where.
    Connected { user_id: String, region: String },
    /// A chat message for the client.
    Message { from: String, from_region: String, content: String },
    /// A notice that a message of the client could not be delivered.
    Warning { content: String },
}

/// What a frame is made of.
pub enum FrameView {
    Connected { user_id: Seq<char>, region: Seq<char> },
    Message { from: Seq<char>, from_region: Seq<char>, content: Seq<char> },
    Warning { content: Seq<char> },
}

impl View for Frame {
    type V = FrameView;

    open spec fn view(&self) -> FrameView {
        match self {
            Frame::Connected { user_id, region } => FrameView::Connected {
                user_id: user_id@,
                region: region@,
            },
            Frame::Message { from, from_region, content } => FrameView::Message {
                from: from@,
                from_region: from_region@,
                content: content@,
            },
            Frame::Warning { content } => FrameView::Warning { content: content@ },
        }
    }
}

/// Something the server does in answer to an event.
#[derive(Debug, Clone)]
pub enum Action {
    /// Push `frame` into the channel of connection `conn`.
    Send { conn: ConnId, frame: Frame },
    /// Publish `message` on the messages subject of region `region`.
    Forward { region: String, message: RegionMessage },
    /// Publish `event` on the presence subject.
    Announce { event: PresenceEvent },
}

/// What an action is made of.
pub enum ActionView {
    Send { conn: ConnId, frame: FrameView },
    Forward { region: Seq<char>, message: RegionMessageView },
    Announce { event: PresenceEventView },
}

impl View for Action {
    type V = ActionView;

    open spec fn view(&self) -> ActionView {
        match self {
            Action::Send { conn, frame } => ActionView::Send { conn: *conn, frame: frame@ },
            Action::Forward { region, message } => ActionView::Forward {
                region: region@,
                message: message@,
            },
            Action::Announce { event } => ActionView::Announce { event: event@ },
        }
    }
}

/// The actions of a list, each by what it is made of.
pub open spec fn actions_view(actions: Seq<Action>) -> Seq<ActionView> {
    actions.map_values(|a: Action| a@)
}

/// The state of a regional server.
pub struct AppState {
    /// This server's region.
    pub region_id: String,
    /// The users connected to this region and their connections.
    pub connections: ConnectionMap,
    /// The region of every user that some region announced.
    pub presence: PresenceMap,
}

/// What the state of a regional server is made of.
pub struct AppStateView {
    pub region_id: Seq<char>,
    pub connections: Map<Seq<char>, ConnId>,
    pub presence: Map<Seq<char>, Seq<char>>,
}

impl View for AppState {
    type V = AppStateView;

    open spec fn view(&self) -> AppStateView {
        AppStateView {
            region_id: self.region_id@,
            connections: self.connections@,
            presence: self.presence@,
        }
    }
}

/// The text of the warning that a message for `to` was dropped.
pub open spec fn offline_warning(to: Seq<char>) -> Seq<char> {
    "User '"@ + to + "' is currently offline or not present in any region. Message dropped."@
}

/// The state once `user` is connected through `conn`.
pub open spec fn connected(s: AppStateView, user: Seq<char>, conn: ConnId) -> AppStateView {
    AppStateView { connections: s.connections.insert(user, conn), ..s }
}

/// What a new connection calls for: announce the user's presence here, then
/// welcome the user.
pub open spec fn connect_actions(s: AppStateView, user: Seq<char>, conn: ConnId) -> Seq<ActionView> {
    seq![
        ActionView::Announce {
            event: PresenceEventView {
                user_id: user,
                region_id: s.region_id,
                kind: PresenceEventKind::Connected,
            },
        },
        ActionView::Send {
            conn,
            frame: FrameView::Connected { user_id: user, region: s.region_id },
        },
    ]
}

/// The state once `user` has disconnected: neither connected nor present.
pub open spec fn disconnected(s: AppStateView, user: Seq<char>) -> AppStateView {
    AppStateView {
        connections: s.connections.remove(user),
        presence: s.presence.remove(user),
        ..s
    }
}

/// What a closed connection calls for: announce that the user left.
pub open spec fn disconnect_actions(s: AppStateView, user: Seq<char>) -> Seq<ActionView> {
    seq![
        ActionView::Announce {
            event: PresenceEventView {
                user_id: user,
                region_id: s.region_id,
                kind: PresenceEventKind::Disconnected,
            },
        },
    ]
}

/// Where a message of local user `from` goes: to the recipient's connection
/// when the recipient is connected here; else to the recipient's region when
/// that is known; else nowhere, with a warning to the sender when the sender
/// is connected here.
pub open spec fn route_outgoing(s: AppStateView, from: Seq<char>, msg: OutgoingMessageView) -> Seq<
    ActionView,
> {
    if s.connections.contains_key(msg.to) {
        seq![
            ActionView::Send {
                conn: s.connections[msg.to],
                frame: FrameView::Message {
                    from,
                    from_region: s.region_id,
                    content: msg.content,
                },
            },
        ]
    } else if s.presence.contains_key(msg.to) {
        seq![
            ActionView::Forward {
                region: s.presence[msg.to],
                message: RegionMessageView {
                    from,
                    from_region: s.region_id,
                    to: msg.to,
                    content: msg.content,
                },
            },
        ]
    } else if s.connections.contains_key(from) {
        seq![
            ActionView::Send {
                conn: s.connections[from],
                frame: FrameView::Warning { content: offline_warning(msg.to) },
            },
        ]
    } else {
        seq![]
    }
}

/// What a text frame from local user `from` calls for; a frame that is not an
/// outgoing message (`None`) is ignored.
pub open spec fn route_client_text(s: AppStateView, from: Seq<char>, msg: Option<OutgoingMessageView>) -> Seq<
    ActionView,
> {
    match msg {
        Some(m) => route_outgoing(s, from, m),
        None => seq![],
    }
}

/// Where a message forwarded from another region goes: to the recipient's
/// connection when the recipient is connected here, else nowhere.
pub open spec fn deliver_forwarded(s: AppStateView, msg: RegionMessageView) -> Seq<ActionView> {
    if s.connections.contains_key(msg.to) {
        seq![
            ActionView::Send {
                conn: s.connections[msg.to],
                frame: FrameView::Message {
                    from: msg.from,
                    from_region: msg.from_region,
                    content: msg.content,
                },
            },
        ]
    } else {
        seq![]
    }
}

/// The state once presence event `ev` is heard: a connected user is now
/// present in the event's region, a disconnected one present nowhere.
pub open spec fn presence_applied(s: AppStateView, ev: PresenceEventView) -> AppStateView {
    match ev.kind {
        PresenceEventKind::Connected => AppStateView {
            presence: s.presence.insert(ev.user_id, ev.region_id),
            ..s
        },
        PresenceEventKind::Disconnected => AppStateView {
            presence: s.presence.remove(ev.user_id),
            ..s
        },
    }
}

/// The kind of a frame that a client's WebSocket delivers.
#[derive(Debug, Clone, Copy, PartialEq, Eq, Structural)]
pub enum SocketFrame {
    Text,
    Binary,
    Close,
    Ping,
    Pong,
}

/// What the server does with a frame from a client's WebSocket.
#[derive(Debug, Clone, Copy, PartialEq, Eq, Structural)]
pub enum SocketStep {
    /// Read the text as an outgoing message and route it.
    Route,
    /// The connection is over.
    End,
    /// Nothing (pings and pongs are answered by the WebSocket layer).
    Ignore,
}

/// A text frame is routed, a close or binary frame ends the connection, and
/// pings and pongs are ignored.
pub open spec fn socket_step_of(frame: SocketFrame) -> SocketStep {
    match frame {
        SocketFrame::Text => SocketStep::Route,
        SocketFrame::Close | SocketFrame::Binary => SocketStep::End,
        SocketFrame::Ping | SocketFrame::Pong => SocketStep::Ignore,
    }
}

/// Decides what to do with a frame from a client's WebSocket.
pub fn socket_step(frame: SocketFrame) -> (step: SocketStep)
    ensures
        step == socket_step_of(frame),
{
    match frame {
        SocketFrame::Text => SocketStep::Route,
        SocketFrame::Close | SocketFrame::Binary => SocketStep::End,
        SocketFrame::Ping | SocketFrame::Pong => SocketStep::Ignore,
    }
}

/// A text is a random (version 4, RFC 4122 variant) UUID in hyphenated
/// lower-case form, such as `67e55044-10b1-426f-9247-bb680e5fe0c8`.
pub open spec fn is_uuid_text(s: Seq<char>) -> bool {
    &&& s.len() == 36
    &&& forall|i: int|
        0 <= i < 36 ==> if i == 8 || i == 13 || i == 18 || i == 23 {
            #[trigger] s[i] == '-'
        } else {
            ('0' <= s[i] <= '9') || ('a' <= s[i] <= 'f')
        }
    &&& s[14] == '4'
    &&& (s[19] == '8' || s[19] == '9' || s[19] == 'a' || s[19] == 'b')
}

/// `uuid::Uuid::new_v4` written with `to_string`: a fresh random version-4
/// UUID in hyphenated lower-case form. Which UUID comes out is left open.
#[verifier::external_body]
fn new_uuid_text() -> (s: String)
    ensures
        is_uuid_text(s@),
{
    uuid::Uuid::new_v4().to_string()
}

/// The user id of a new connection: the one the client asked for, unless it
/// asked for none or for an empty one; then a fresh random UUID.
pub fn connection_user_id(query: &ConnectQuery) -> (id: String)
    ensures
        id@.len() > 0,
        (query.user_id matches Some(asked) && asked@.len() > 0) ==> id@ == query.user_id->0@,
        !(query.user_id matches Some(asked) && asked@.len() > 0) ==> is_uuid_text(id@),
{
    match &query.user_id {
        Some(asked) => {
            if text::chars_of(asked.as_str()).len() > 0 {
                return asked.clone();
            }
        },
        None => {},
    }
    new_uuid_text()
}

impl AppState {
    /// A server for region `region_id` with no user connected or known.
    pub fn new(region_id: String) -> (s: AppState)
        ensures
            s@ == (AppStateView {
                region_id: region_id@,
                connections: Map::empty(),
                presence: Map::empty(),
            }),
    {
        AppState { region_id, connections: ConnectionMap::new(), presence: PresenceMap::new() }
    }

    /// A client identified as `user_id` has connected through `conn`: register
    /// the connection, announce the user's presence here and welcome it.
    pub fn connect(&mut self, user_id: String, conn: ConnId) -> (actions: Vec<Action>)
        ensures
            final(self)@ == connected(old(self)@, user_id@, conn),
            actions_view(actions@) == connect_actions(old(self)@, user_id@, conn),
            actions@.len() == 2,
            actions@[0]@ == (ActionView::Announce {
                event: PresenceEventView {
                    user_id: user_id@,
                    region_id: old(self).region_id@,
                    kind: PresenceEventKind::Connected,
                },
            }),
            actions@[1]@ == (ActionView::Send {
                conn,
                frame: FrameView::Connected { user_id: user_id@, region: old(self).region_id@ },
            }),
    {
        let ghost user = user_id@;
        self.connections.insert(user_id.clone(), conn);
        let announce = Action::Announce {
            event: PresenceEvent {
                user_id: user_id.clone(),
                region_id: self.region_id.clone(),
                kind: PresenceEventKind::Connected,
            },
        };
        let welcome = Action::Send {
            conn,
            frame: Frame::Connected { user_id, region: self.region_id.clone() },
        };
        let mut actions: Vec<Action> = Vec::new();
        actions.push(announce);
        actions.push(welcome);
        assert(actions_view(actions@) =~= connect_actions(old(self)@, user, conn));
        actions
    }

    /// The connection of `user_id` has closed: forget the user here and
    /// announce that it left.
    pub fn disconnect(&mut self, user_id: &str) -> (actions: Vec<Action>)
        ensures
            final(self)@ == disconnected(old(self)@, user_id@),
            actions_view(actions@) == disconnect_actions(old(self)@, user_id@),
            actions@.len() == 1,
            actions@[0]@ == (ActionView::Announce {
                event: PresenceEventView {
                    user_id: user_id@,
                    region_id: old(self).region_id@,
                    kind: PresenceEventKind::Disconnected,
                },
            }),
    {
        self.connections.remove(user_id);
        self.presence.remove(user_id);
        let announce = Action::Announce {
            event: PresenceEvent {
                user_id: text::string_of(&text::chars_of(user_id)),
                region_id: self.region_id.clone(),
                kind: PresenceEventKind::Disconnected,
            },
        };
        let mut actions: Vec<Action> = Vec::new();
        actions.push(announce);
        assert(actions_view(actions@) =~= disconnect_actions(old(self)@, user_id@));
        actions
    }

    /// Local user `from_user` sent a text frame; `msg` is the outgoing message
    /// it holds, `None` when it holds none. Decides where the message goes.
    pub fn handle_incoming(&self, from_user: &str, msg: Option<OutgoingMessage>) -> (actions: Vec<
        Action,
    >)
        ensures
            actions_view(actions@) == route_client_text(
                self@,
                from_user@,
                match msg {
                    Some(m) => Some(m@),
                    None => None,
                },
            ),
    {
        let mut actions: Vec<Action> = Vec::new();
        let msg = match msg {
            Some(m) => m,
            None => {
                assert(actions_view(actions@) =~= Seq::<ActionView>::empty());
                return actions;
            },
        };
        let ghost mv = msg@;
        if let Some(conn) = self.connections.get(msg.to.as_str()) {
            let frame = Frame::Message {
                from: text::string_of(&text::chars_of(from_user)),
                from_region: self.region_id.clone(),
                content: msg.content,
            };
            actions.push(Action::Send { conn, frame });
            assert(actions_view(actions@) =~= route_outgoing(self@, from_user@, mv));
            return actions;
        }
        if let Some(target_region) = self.presence.get(msg.to.as_str()) {
            let message = RegionMessage {
                from: text::string_of(&text::chars_of(from_user)),
                from_region: self.region_id.clone(),
                to: msg.to,
                content: msg.content,
            };
            actions.push(Action::Forward { region: target_region, message });
            assert(actions_view(actions@) =~= route_outgoing(self@, from_user@, mv));
            return actions;
        }
        if let Some(conn) = self.connections.get(from_user) {
            let front = text::chars_of("User '");
            let back = text::chars_of(
                "' is currently offline or not present in any region. Message dropped.",
            );
            let warning = text::concat_chars(
                &text::concat_chars(&front, &text::chars_of(msg.to.as_str())),
                &back,
            );
            actions.push(
                Action::Send { conn, frame: Frame::Warning { content: text::string_of(&warning) } },
            );
        }
        assert(actions_view(actions@) =~= route_outgoing(self@, from_user@, mv));
        actions
    }

    /// A message forwarded by another region arrived on this region's
    /// messages subject; `msg` is `None` when the payload was not a message.
    pub fn handle_region_message(&self, msg: Option<RegionMessage>) -> (actions: Vec<Action>)
        ensures
            actions_view(actions@) == match msg {
                Some(m) => deliver_forwarded(self@, m@),
                None => Seq::<ActionView>::empty(),
            },
    {
        let mut actions: Vec<Action> = Vec::new();
        if let Some(m) = msg {
            let ghost mv = m@;
            if let Some(conn) = self.connections.get(m.to.as_str()) {
                let frame = Frame::Message {
                    from: m.from,
                    from_region: m.from_region,
                    content: m.content,
                };
                actions.push(Action::Send { conn, frame });
            }
            assert(actions_view(actions@) =~= deliver_forwarded(self@, mv));
        } else {
            assert(actions_view(actions@) =~= Seq::<ActionView>::empty());
        }
        actions
    }

    /// A presence event arrived on the presence subject; `event` is `None`
    /// when the payload was not a presence event, and then nothing changes.
    pub fn handle_presence_event(&mut self, event: Option<PresenceEvent>)
        ensures
            final(self)@ == match event {
                Some(ev) => presence_applied(old(self)@, ev@),
                None => old(self)@,
            },
    {
        if let Some(ev) = event {
            match ev.kind {
                PresenceEventKind::Connected => {
                    self.presence.insert(ev.user_id, ev.region_id);
                },
                PresenceEventKind::Disconnected => {
                    self.presence.remove(ev.user_id.as_str());
                },
            }
        }
    }
}

/// A user that has connected here receives, on that connection, every message
/// that a local user sends it, marked as coming from this region.
pub proof fn law_connected_user_receives_local_messages(
    s: AppStateView,
    user: Seq<char>,
    conn: ConnId,
    from: Seq<char>,
    content: Seq<char>,
)
    ensures
        route_outgoing(connected(s, user, conn), from, OutgoingMessageView { to: user, content })
            == seq![
            ActionView::Send {
                conn,
                frame: FrameView::Message { from, from_region: s.region_id, content },
            },
        ],
{
}

/// A message for a user that is not connected here but was announced in
/// another region is forwarded to that region, naming sender, this region,
/// recipient and content.
pub proof fn law_announced_user_is_forwarded_to(
    s: AppStateView,
    user: Seq<char>,
    region: Seq<char>,
    from: Seq<char>,
    content: Seq<char>,
)
    requires
        !s.connections.contains_key(user),
    ensures
        route_outgoing(
            presence_applied(
                s,
                PresenceEventView {
                    user_id: user,
                    region_id: region,
                    kind: PresenceEventKind::Connected,
                },
            ),
            from,
            OutgoingMessageView { to: user, content },
        ) == seq![
            ActionView::Forward {
                region,
                message: RegionMessageView { from, from_region: s.region_id, to: user, content },
            },
        ],
{
}

/// The README's message flow: a message from a user of region A for a user
/// connected to region B, where A knows that the recipient is in B, is
/// forwarded to B, and B pushes it to the recipient's connection marked as
/// coming from A.
pub proof fn law_cross_region_delivery(
    a: AppStateView,
    b: AppStateView,
    from: Seq<char>,
    to: Seq<char>,
    content: Seq<char>,
)
    requires
        !a.connections.contains_key(to),
        a.presence.contains_key(to),
        a.presence[to] == b.region_id,
        b.connections.contains_key(to),
    ensures
        ({
            let forwarded = RegionMessageView { from, from_region: a.region_id, to, content };
            &&& route_outgoing(a, from, OutgoingMessageView { to, content }) == seq![
                ActionView::Forward { region: b.region_id, message: forwarded },
            ]
            &&& deliver_forwarded(b, forwarded) == seq![
                ActionView::Send {
                    conn: b.connections[to],
                    frame: FrameView::Message { from, from_region: a.region_id, content },
                },
            ]
        }),
{
}

/// Once a user has disconnected, no message reaches it from here: a message
/// for it is neither pushed to a connection of it nor forwarded, and at most
/// its sender is warned.
pub proof fn law_disconnected_user_is_unreachable(
    s: AppStateView,
    user: Seq<char>,
    from: Seq<char>,
    content: Seq<char>,
)
    requires
        from != user,
    ensures
        ({
            let t = disconnected(s, user);
            route_outgoing(t, from, OutgoingMessageView { to: user, content }) == if t.connections.contains_key(
                from,
            ) {
                seq![
                    ActionView::Send {
                        conn: t.connections[from],
                        frame: FrameView::Warning { content: offline_warning(user) },
                    },
                ]
            } else {
                seq![]
            }
        }),
{
}

/// Presence reads what the last event for a user wrote: after a connect event
/// the user is present in its region, after a disconnect event nowhere; the
/// other users and the local connections are untouched.
pub proof fn law_presence_read_after_write(s: AppStateView, ev: PresenceEventView, other: Seq<char>)
    requires
        other != ev.user_id,
    ensures
        ev.kind == PresenceEventKind::Connected ==> presence_applied(s, ev).presence.contains_key(
            ev.user_id,
        ) && presence_applied(s, ev).presence[ev.user_id] == ev.region_id,
        ev.kind == PresenceEventKind::Disconnected ==> !presence_applied(
            s,
            ev,
        ).presence.contains_key(ev.user_id),
        presence_applied(s, ev).presence.contains_key(other) == s.presence.contains_key(other),
        s.presence.contains_key(other) ==> presence_applied(s, ev).presence[other]
            == s.presence[other],
        presence_applied(s, ev).connections == s.connections,
        presence_applied(s, ev).region_id == s.region_id,
{
}

/// A connection followed by its disconnection leaves the user neither
/// connected nor present here, whatever was known before, and the other users
/// as they were.
pub proof fn law_connect_then_disconnect(s: AppStateView, user: Seq<char>, conn: ConnId, other: Seq<char>)
    requires
        other != user,
    ensures
        ({
            let t = disconnected(connected(s, user, conn), user);
            &&& !t.connections.contains_key(user)
            &&& !t.presence.contains_key(user)
            &&& t.connections.contains_key(other) == s.connections.contains_key(other)
            &&& s.connections.contains_key(other) ==> t.connections[other] == s.connections[other]
            &&& t.presence.contains_key(other) == s.presence.contains_key(other)
            &&& s.presence.contains_key(other) ==> t.presence[other] == s.presence[other]
            &&& t.region_id == s.region_id
        }),
{
}

/// A message for a user known nowhere is never pushed to anyone but its
/// sender, and then only as a warning that names the recipient.
pub proof fn law_unknown_recipient_only_warns_sender(
    s: AppStateView,
    from: Seq<char>,
    msg: OutgoingMessageView,
)
    requires
        !s.connections.contains_key(msg.to),
        !s.presence.contains_key(msg.to),
    ensures
        route_outgoing(s, from, msg).len() <= 1,
        forall|i: int|
            0 <= i < route_outgoing(s, from, msg).len() ==> #[trigger] route_outgoing(s, from, msg)[i]
                == (ActionView::Send {
                conn: s.connections[from],
                frame: FrameView::Warning { content: offline_warning(msg.to) },
            }),
        route_outgoing(s, from, msg).len() == 1 <==> s.connections.contains_key(from),
{
}

/// The state once the presence events `evs` are heard, in order.
pub open spec fn presence_events_applied(s: AppStateView, evs: Seq<PresenceEventView>) -> AppStateView
    decreases evs.len(),
{
    if evs.len() == 0 {
        s
    } else {
        presence_applied(presence_events_applied(s, evs.drop_last()), evs.last())
    }
}

/// Regions stay in sync: two servers whose presence maps agree, whatever
/// their regions and connections, still agree after hearing the same presence
/// events; and hearing presence events never changes a server's region or
/// connections.
pub proof fn law_presence_maps_stay_in_sync(a: AppStateView, b: AppStateView, evs: Seq<PresenceEventView>)
    requires
        a.presence == b.presence,
    ensures
        presence_events_applied(a, evs).presence == presence_events_applied(b, evs).presence,
        presence_events_applied(a, evs).connections == a.connections,
        presence_events_applied(a, evs).region_id == a.region_id,
    decreases evs.len(),
{
    if evs.len() > 0 {
        law_presence_maps_stay_in_sync(a, b, evs.drop_last());
    }
}

/// Every connection is announced and welcomed, whatever was known before:
/// first the announcement that the user is present in this region, then the
/// welcome frame on the new connection. Nothing of the state but its region
/// plays a part, so a user that reconnects here from another region is
/// announced again.
pub proof fn law_every_connect_announces_then_welcomes(
    s: AppStateView,
    t: AppStateView,
    user: Seq<char>,
    conn: ConnId,
)
    requires
        s.region_id == t.region_id,
    ensures
        connect_actions(s, user, conn).len() == 2,
        connect_actions(s, user, conn)[0] == (ActionView::Announce {
            event: PresenceEventView {
                user_id: user,
                region_id: s.region_id,
                kind: PresenceEventKind::Connected,
            },
        }),
        connect_actions(s, user, conn)[1] == (ActionView::Send {
            conn,
            frame: FrameView::Connected { user_id: user, region: s.region_id },
        }),
        connect_actions(s, user, conn) == connect_actions(t, user, conn),
{
}

/// Every disconnection is announced, whatever was known before: exactly one
/// action, the announcement that the user left this region. Nothing of the
/// state but its region plays a part.
pub proof fn law_every_disconnect_is_announced(s: AppStateView, t: AppStateView, user: Seq<char>)
    requires
        s.region_id == t.region_id,
    ensures
        disconnect_actions(s, user).len() == 1,
        disconnect_actions(s, user)[0] == (ActionView::Announce {
            event: PresenceEventView {
                user_id: user,
                region_id: s.region_id,
                kind: PresenceEventKind::Disconnected,
            },
        }),
        disconnect_actions(s, user) == disconnect_actions(t, user),
{
}

} // verus!
