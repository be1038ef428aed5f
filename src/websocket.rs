use crate::models::PixelUpdateMessage;
use vstd::prelude::*;

verus! {

/// A session asks to receive the updates of a game, through the delivery
/// channel `addr`.
pub struct Connect<C> {
    pub game_id: u128,
    pub addr: C,
    pub client_id: usize,
}

/// A session leaves the subscribers of a game.
#[derive(Clone, Copy, Debug)]
pub struct Disconnect {
    pub game_id: u128,
    pub client_id: usize,
}

/// An accepted pixel write, to be fanned out to the subscribers of its game.
#[derive(Clone, Copy, Debug)]
pub struct PixelUpdate {
    pub game_id: u128,
    pub message: PixelUpdateMessage,
}

/// One registered delivery target.
pub struct Subscription<C> {
    pub game_id: u128,
    pub client_id: usize,
    pub addr: C,
}

/// The subscriber registry and fan-out hub. A connection id is unique within
/// the subscribers of one game; the registry keeps no entry for a game
/// without subscribers.
pub struct WebSocketServer<C> {
    clients: Vec<Subscription<C>>,
}

/// The channels of the subscribers of game `g` in `s`, in registration order.
pub open spec fn targets<C>(s: Seq<Subscription<C>>, g: u128) -> Seq<C>
    decreases s.len(),
{
    if s.len() == 0 {
        Seq::empty()
    } else {
        let rest = targets(s.drop_last(), g);
        if s.last().game_id == g {
            rest.push(s.last().addr)
        } else {
            rest
        }
    }
}

/// The subscriber `(g, c)` is at position `i` of `s`.
pub open spec fn at<C>(s: Seq<Subscription<C>>, i: int, g: u128, c: usize) -> bool {
    0 <= i < s.len() && s[i].game_id == g && s[i].client_id == c
}

/// No two entries of `s` share both game and connection id.
pub open spec fn unique_pairs<C>(s: Seq<Subscription<C>>) -> bool {
    forall|i: int, j: int|
        #![trigger s[i], s[j]]
        0 <= i < s.len() && 0 <= j < s.len() && i != j && s[i].game_id == s[j].game_id ==> s[i].client_id
            != s[j].client_id
}

/// `(g, c)` is subscribed in `s`.
pub open spec fn subscribed<C>(s: Seq<Subscription<C>>, g: u128, c: usize) -> bool {
    exists|i: int| #[trigger] at(s, i, g, c)
}

/// The position of the subscriber `(g, c)` in `s` (meaningful where it is
/// subscribed).
pub open spec fn position<C>(s: Seq<Subscription<C>>, g: u128, c: usize) -> int {
    choose|i: int| #[trigger] at(s, i, g, c)
}

/// Where the pairs of `s` are unique, a subscriber is at one position only.
pub proof fn lemma_position<C>(s: Seq<Subscription<C>>, g: u128, c: usize, i: int)
    requires
        unique_pairs(s),
        at(s, i, g, c),
    ensures
        subscribed(s, g, c),
        position(s, g, c) == i,
{
    let j = position(s, g, c);
    assert(at(s, j, g, c));
    assert(s[i].game_id == s[j].game_id);
}

/// Some subscription of game `g` in `s` has the channel `addr`.
pub open spec fn subscribed_channel<C>(s: Seq<Subscription<C>>, g: u128, addr: C) -> bool {
    exists|i: int| 0 <= i < s.len() && #[trigger] s[i].game_id == g && s[i].addr == addr
}

/// Fan-out is scoped to its game: every channel that an update of game `g` is
/// delivered to belongs to a subscription of `g`, and every subscription of
/// `g` receives it.
pub proof fn lemma_fan_out_scoped<C>(s: Seq<Subscription<C>>, g: u128)
    ensures
        forall|k: int|
            0 <= k < targets(s, g).len() ==> subscribed_channel(s, g, #[trigger] targets(s, g)[k]),
        forall|i: int|
            0 <= i < s.len() && #[trigger] s[i].game_id == g ==> targets(s, g).contains(s[i].addr),
    decreases s.len(),
{
    if s.len() > 0 {
        let p = s.drop_last();
        lemma_fan_out_scoped(p, g);
        let t = targets(s, g);
        let tp = targets(p, g);
        assert(t == if s.last().game_id == g {
            tp.push(s.last().addr)
        } else {
            tp
        });
        assert(t.len() >= tp.len());
        assert forall|k: int| 0 <= k < tp.len() implies t[k] == tp[k] by {}
        assert forall|k: int| 0 <= k < t.len() implies subscribed_channel(s, g, #[trigger] t[k]) by {
            if k < tp.len() {
                assert(t[k] == tp[k]);
                assert(subscribed_channel(p, g, tp[k]));
                let i = choose|i: int|
                    0 <= i < p.len() && #[trigger] p[i].game_id == g && p[i].addr == tp[k];
                assert(s[i] == p[i]);
                assert(s[i].game_id == g);
            } else {
                assert(s[s.len() - 1].addr == t[k]);
                assert(s[s.len() - 1].game_id == g);
            }
        }
        assert forall|i: int| 0 <= i < s.len() && #[trigger] s[i].game_id == g implies t.contains(
            s[i].addr,
        ) by {
            if i < p.len() {
                assert(s[i] == p[i]);
                assert(p[i].game_id == g);
                let k = choose|k: int| 0 <= k < tp.len() && tp[k] == p[i].addr;
                assert(t[k] == tp[k]);
            } else {
                assert(t[t.len() - 1] == s[i].addr);
            }
        }
    }
}

/// Adding a subscriber that is not yet subscribed keeps the pairs unique.
pub proof fn lemma_push_keeps_unique<C>(s0: Seq<Subscription<C>>, sub: Subscription<C>)
    requires
        unique_pairs(s0),
        !subscribed(s0, sub.game_id, sub.client_id),
    ensures
        unique_pairs(s0.push(sub)),
{
    let s1 = s0.push(sub);
    let n = s0.len() as int;
    assert forall|a: int, b: int|
        #![trigger s1[a], s1[b]]
        0 <= a < s1.len() && 0 <= b < s1.len() && a != b && s1[a].game_id == s1[b].game_id implies s1[a].client_id
            != s1[b].client_id by {
        if a == n {
            assert(!at(s0, b, sub.game_id, sub.client_id));
        } else if b == n {
            assert(!at(s0, a, sub.game_id, sub.client_id));
        } else {
            assert(s1[a] == s0[a] && s1[b] == s0[b]);
        }
    }
}

/// A session that subscribes and then disconnects leaves the registry as it
/// found it: the same subscriptions, the same count, and no entry of its own.
pub proof fn lemma_leave_restores<C>(s0: Seq<Subscription<C>>, g: u128, c: usize, addr: C)
    requires
        unique_pairs(s0),
        !subscribed(s0, g, c),
    ensures
        ({
            let s1 = s0.push(Subscription { game_id: g, client_id: c, addr });
            &&& subscribed(s1, g, c)
            &&& s1.remove(position(s1, g, c)) == s0
            &&& s1.remove(position(s1, g, c)).len() == s0.len()
            &&& !subscribed(s1.remove(position(s1, g, c)), g, c)
        }),
{
    let s1 = s0.push(Subscription { game_id: g, client_id: c, addr });
    let n = s0.len() as int;
    assert(at(s1, n, g, c));
    lemma_push_keeps_unique(s0, s1[n]);
    lemma_position(s1, g, c, n);
    assert(s1.remove(n) =~= s0);
}

impl<C> WebSocketServer<C> {
    /// The registered subscriptions, in registration order.
    pub closed spec fn subscribers(self) -> Seq<Subscription<C>> {
        self.clients@
    }

    /// Connection ids are unique within each game.
    pub open spec fn wf(self) -> bool {
        unique_pairs(self.subscribers())
    }

    /// An empty registry.
    pub fn new() -> (r: Self)
        ensures
            r.wf(),
            r.subscribers().len() == 0,
    {
        WebSocketServer { clients: Vec::new() }
    }

    /// The number of registered subscriptions, over all games.
    pub fn len(&self) -> (r: usize)
        ensures
            r == self.subscribers().len(),
    {
        self.clients.len()
    }

    fn find(&self, game_id: u128, client_id: usize) -> (r: Option<usize>)
        requires
            self.wf(),
        ensures
            match r {
                Some(i) => at(self.subscribers(), i as int, game_id, client_id) && position(
                    self.subscribers(),
                    game_id,
                    client_id,
                ) == i,
                None => !subscribed(self.subscribers(), game_id, client_id),
            },
    {
        let mut i: usize = 0;
        while i < self.clients.len()
            invariant
                self.wf(),
                i <= self.clients.len(),
                forall|k: int| 0 <= k < i ==> !#[trigger] at(self.subscribers(), k, game_id, client_id),
            decreases self.clients.len() - i,
        {
            if self.clients[i].game_id == game_id && self.clients[i].client_id == client_id {
                proof {
                    lemma_position(self.subscribers(), game_id, client_id, i as int);
                }
                return Some(i);
            }
            i = i + 1;
        }
        None
    }

    /// Registers `msg.addr` as the delivery target of the connection
    /// `msg.client_id` of game `msg.game_id`; one already registered under the
    /// same pair has its channel replaced in place.
    pub fn handle_connect(&mut self, msg: Connect<C>)
        requires
            old(self).wf(),
        ensures
            final(self).wf(),
            subscribed(final(self).subscribers(), msg.game_id, msg.client_id),
            final(self).subscribers() == if subscribed(
                old(self).subscribers(),
                msg.game_id,
                msg.client_id,
            ) {
                old(self).subscribers().update(
                    position(old(self).subscribers(), msg.game_id, msg.client_id),
                    Subscription { game_id: msg.game_id, client_id: msg.client_id, addr: msg.addr },
                )
            } else {
                old(self).subscribers().push(
                    Subscription { game_id: msg.game_id, client_id: msg.client_id, addr: msg.addr },
                )
            },
    {
        let g = msg.game_id;
        let c = msg.client_id;
        let sub = Subscription { game_id: g, client_id: c, addr: msg.addr };
        match self.find(g, c) {
            Some(i) => {
                self.clients.set(i, sub);
                proof {
                    let s0 = old(self).subscribers();
                    let s1 = self.subscribers();
                    assert(at(s1, i as int, g, c));
                    assert forall|a: int, b: int|
                        #![trigger s1[a], s1[b]]
                        0 <= a < s1.len() && 0 <= b < s1.len() && a != b && s1[a].game_id
                            == s1[b].game_id implies s1[a].client_id != s1[b].client_id by {
                        assert(s1[a].game_id == s0[a].game_id && s1[a].client_id == s0[a].client_id);
                        assert(s1[b].game_id == s0[b].game_id && s1[b].client_id == s0[b].client_id);
                    }
                }
            },
            None => {
                self.clients.push(sub);
                proof {
                    let s0 = old(self).subscribers();
                    let s1 = self.subscribers();
                    let n = s0.len() as int;
                    assert(at(s1, n, g, c));
                    assert(s1 =~= s0.push(s1[n]));
                    lemma_push_keeps_unique(s0, s1[n]);
                }
            },
        }
    }

    /// Removes the connection `msg.client_id` from the subscribers of game
    /// `msg.game_id`; nothing changes where it was not registered.
    pub fn handle_disconnect(&mut self, msg: Disconnect)
        requires
            old(self).wf(),
        ensures
            final(self).wf(),
            !subscribed(final(self).subscribers(), msg.game_id, msg.client_id),
            final(self).subscribers() == if subscribed(
                old(self).subscribers(),
                msg.game_id,
                msg.client_id,
            ) {
                old(self).subscribers().remove(
                    position(old(self).subscribers(), msg.game_id, msg.client_id),
                )
            } else {
                old(self).subscribers()
            },
    {
        match self.find(msg.game_id, msg.client_id) {
            Some(i) => {
                let _ = self.clients.remove(i);
                proof {
                    let s0 = old(self).subscribers();
                    let s1 = self.subscribers();
                    assert forall|k: int| 0 <= k < s1.len() implies !#[trigger] at(
                        s1,
                        k,
                        msg.game_id,
                        msg.client_id,
                    ) by {
                        if k < i {
                            assert(s1[k] == s0[k]);
                        } else {
                            assert(s1[k] == s0[k + 1]);
                        }
                    }
                    assert forall|a: int, b: int|
                        #![trigger s1[a], s1[b]]
                        0 <= a < s1.len() && 0 <= b < s1.len() && a != b && s1[a].game_id
                            == s1[b].game_id implies s1[a].client_id != s1[b].client_id by {
                        let a0 = if a < i { a } else { a + 1 };
                        let b0 = if b < i { b } else { b + 1 };
                        assert(s1[a] == s0[a0]);
                        assert(s1[b] == s0[b0]);
                    }
                }
            },
            None => {},
        }
    }

    /// The fan-out of `msg`: a snapshot of the channels of the current
    /// subscribers of `msg.game_id`, in registration order. Delivery happens
    /// after the snapshot is taken, best-effort and without blocking.
    pub fn handle_pixel_update(&self, msg: &PixelUpdate) -> (r: Vec<&C>)
        ensures
            r@.len() == targets(self.subscribers(), msg.game_id).len(),
            forall|k: int|
                0 <= k < r@.len() ==> *#[trigger] r@[k] == targets(self.subscribers(), msg.game_id)[k],
    {
        let mut r: Vec<&C> = Vec::new();
        let mut i: usize = 0;
        while i < self.clients.len()
            invariant
                i <= self.clients.len(),
                r@.len() == targets(self.subscribers().subrange(0, i as int), msg.game_id).len(),
                forall|k: int|
                    0 <= k < r@.len() ==> *#[trigger] r@[k] == targets(
                        self.subscribers().subrange(0, i as int),
                        msg.game_id,
                    )[k],
            decreases self.clients.len() - i,
        {
            let s = &self.clients[i];
            if s.game_id == msg.game_id {
                r.push(&s.addr);
            }
            proof {
                assert(self.subscribers().subrange(0, i + 1).drop_last() =~= self.subscribers().subrange(0, i as int));
            }
            i = i + 1;
        }
        assert(self.subscribers().subrange(0, i as int) =~= self.subscribers());
        r
    }
}

/// The life of a client session.
#[derive(Clone, Copy, Debug, PartialEq, Eq, Structural)]
pub enum SessionState {
    Connecting,
    Active,
    Closing,
    Closed,
}

/// Why a connection is closed, as carried by a close frame.
#[derive(Clone, Debug)]
pub struct CloseReason {
    pub code: u16,
    pub description: Option<String>,
}

/// A frame received on a session's connection, or the failure of its
/// transport.
#[derive(Clone, Debug)]
pub enum InboundFrame {
    Ping(Vec<u8>),
    Pong(Vec<u8>),
    Text(String),
    Binary(Vec<u8>),
    Close(Option<CloseReason>),
    Failure,
}

/// What a session does in answer to an inbound frame.
#[derive(Clone, Debug)]
pub enum SessionAction {
    /// Nothing is sent.
    Ignore,
    /// A liveness pong with this payload is sent.
    Pong(Vec<u8>),
    /// The connection is closed, with this reason.
    Close(Option<CloseReason>),
}

/// One live connection subscribed to the updates of one game.
pub struct WebSocketSession {
    pub game_id: u128,
    pub client_id: usize,
    pub state: SessionState,
}

/// Relies on `rand::random`: a value drawn from the thread-local generator.
/// Nothing is known of it.
pub assume_specification<T>[ rand::random::<T> ]() -> (r: T)
    where
        rand::distributions::Standard: rand::distributions::Distribution<T>,
;

impl WebSocketSession {
    /// A session for game `game_id` under a freshly drawn random connection
    /// id, not yet connected.
    pub fn new(game_id: u128) -> (r: WebSocketSession)
        ensures
            r.game_id == game_id,
            r.state == SessionState::Connecting,
    {
        let client_id = rand::random::<usize>();
        WebSocketSession { game_id, client_id, state: SessionState::Connecting }
    }

    /// A session for game `game_id` under the given connection id, not yet
    /// connected.
    pub fn with_client_id(game_id: u128, client_id: usize) -> (r: WebSocketSession)
        ensures
            r.game_id == game_id,
            r.client_id == client_id,
            r.state == SessionState::Connecting,
    {
        WebSocketSession { game_id, client_id, state: SessionState::Connecting }
    }

    /// The handshake succeeded: the session becomes active and asks to be
    /// registered, with the channel `addr`, for its game.
    pub fn started<C>(&mut self, addr: C) -> (r: Connect<C>)
        requires
            old(self).state == SessionState::Connecting,
        ensures
            final(self).state == SessionState::Active,
            final(self).game_id == old(self).game_id,
            final(self).client_id == old(self).client_id,
            r.game_id == old(self).game_id,
            r.client_id == old(self).client_id,
            r.addr == addr,
    {
        self.state = SessionState::Active;
        Connect { game_id: self.game_id, addr, client_id: self.client_id }
    }

    /// The answer to an inbound frame. An active session answers a ping with
    /// a pong of the same payload, and closes on a close frame or a transport
    /// failure; any other frame, and any frame outside the active state, is
    /// ignored.
    pub fn handle(&mut self, frame: InboundFrame) -> (r: SessionAction)
        ensures
            final(self).game_id == old(self).game_id,
            final(self).client_id == old(self).client_id,
            old(self).state != SessionState::Active ==> *final(self) == *old(self) && r
                == SessionAction::Ignore,
            old(self).state == SessionState::Active ==> match frame {
                InboundFrame::Ping(p) => r == SessionAction::Pong(p) && final(self).state
                    == SessionState::Active,
                InboundFrame::Close(reason) => r == SessionAction::Close(reason)
                    && final(self).state == SessionState::Closing,
                InboundFrame::Failure => r == SessionAction::Close(None) && final(self).state
                    == SessionState::Closing,
                _ => r == SessionAction::Ignore && final(self).state == SessionState::Active,
            },
    {
        if self.state != SessionState::Active {
            return SessionAction::Ignore;
        }
        match frame {
            InboundFrame::Ping(p) => SessionAction::Pong(p),
            InboundFrame::Close(reason) => {
                self.state = SessionState::Closing;
                SessionAction::Close(reason)
            },
            InboundFrame::Failure => {
                self.state = SessionState::Closing;
                SessionAction::Close(None)
            },
            _ => SessionAction::Ignore,
        }
    }

    /// The update to send on, where the session is active.
    pub fn relay(&self, msg: PixelUpdateMessage) -> (r: Option<PixelUpdateMessage>)
        ensures
            r == if self.state == SessionState::Active {
                Some(msg)
            } else {
                None
            },
    {
        if self.state == SessionState::Active {
            Some(msg)
        } else {
            None
        }
    }

    /// The session ends, whatever the cause: it is closed and asks to be
    /// removed from the subscribers of its game.
    pub fn stopped(&mut self) -> (r: Disconnect)
        ensures
            final(self).state == SessionState::Closed,
            final(self).game_id == old(self).game_id,
            final(self).client_id == old(self).client_id,
            r.game_id == old(self).game_id,
            r.client_id == old(self).client_id,
    {
        self.state = SessionState::Closed;
        Disconnect { game_id: self.game_id, client_id: self.client_id }
    }
}

} // verus!
