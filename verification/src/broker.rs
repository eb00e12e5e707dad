//! The broker: the one place that knows which peers are connected. It takes
//! the events that connections report (a peer joined, a peer sent a line, a
//! peer's writer finished) and answers each with the actions that the
//! server then carries out, in order.

use vstd::prelude::*;
use vstd::string::*;
use crate::protocol::{
    delivery_text, delivery_text_spec, parse_chat_line, parse_chat_line_spec, sent_notice,
    sent_notice_spec,
};

verus! {

broadcast use vstd::string::group_string_axioms;

/// What a connection reports to the broker.
#[derive(Clone, Debug, PartialEq, Eq)]
pub enum Event {
    /// A peer logged in under `name`.
    NewPeer { name: String },
    /// Peer `from` sent `msg` to the peers named in `to`.
    Message { from: String, to: Vec<String>, msg: String },
    /// The writer of peer `name` finished.
    Disconnect { name: String },
}

/// The content of an event.
pub enum EventView {
    NewPeer { name: Seq<char> },
    Message { from: Seq<char>, to: Seq<Seq<char>>, msg: Seq<char> },
    Disconnect { name: Seq<char> },
}

impl View for Event {
    type V = EventView;

    open spec fn view(&self) -> EventView {
        match self {
            Event::NewPeer { name } => EventView::NewPeer { name: name@ },
            Event::Message { from, to, msg } => EventView::Message {
                from: from@,
                to: to@.map_values(|s: String| s@),
                msg: msg@,
            },
            Event::Disconnect { name } => EventView::Disconnect { name: name@ },
        }
    }
}

impl Event {
    /// The event for a line that peer `from` sent: a message to the
    /// recipients the line names; `None` for a line without `:`.
    pub fn from_line(from: &String, line: &str) -> (res: Option<Event>)
        ensures
            match parse_chat_line_spec(line@) {
                Some(parsed) => res matches Some(event) && event@ == EventView::Message {
                    from: from@,
                    to: parsed.destinations,
                    msg: parsed.text,
                },
                None => res is None,
            },
    {
        match parse_chat_line(line) {
            Some(parsed) => Some(
                Event::Message { from: from.clone(), to: parsed.destinations, msg: parsed.text },
            ),
            None => None,
        }
    }
}

/// What the server does in answer to an event.
#[derive(Clone, Debug, PartialEq, Eq)]
pub enum Action {
    /// Open an outgoing channel to peer `name` and start its writer.
    StartWriter { name: String },
    /// List `name` among the current users on the server's screen.
    ShowUser { name: String },
    /// Show `text` in the server's error log.
    ShowError { text: String },
    /// Show `text` in the server's message log.
    ShowMessage { text: String },
    /// Send `text` to peer `to`.
    Deliver { to: String, text: String },
    /// Record in the database that `from` sent `msg` to `to`.
    Store { from: String, to: String, msg: String },
    /// Report `text` on the server's standard error.
    Report { text: String },
}

/// The content of an action.
pub enum ActionView {
    StartWriter { name: Seq<char> },
    ShowUser { name: Seq<char> },
    ShowError { text: Seq<char> },
    ShowMessage { text: Seq<char> },
    Deliver { to: Seq<char>, text: Seq<char> },
    Store { from: Seq<char>, to: Seq<char>, msg: Seq<char> },
    Report { text: Seq<char> },
}

impl View for Action {
    type V = ActionView;

    open spec fn view(&self) -> ActionView {
        match self {
            Action::StartWriter { name } => ActionView::StartWriter { name: name@ },
            Action::ShowUser { name } => ActionView::ShowUser { name: name@ },
            Action::ShowError { text } => ActionView::ShowError { text: text@ },
            Action::ShowMessage { text } => ActionView::ShowMessage { text: text@ },
            Action::Deliver { to, text } => ActionView::Deliver { to: to@, text: text@ },
            Action::Store { from, to, msg } => ActionView::Store {
                from: from@,
                to: to@,
                msg: msg@,
            },
            Action::Report { text } => ActionView::Report { text: text@ },
        }
    }
}

/// The contents of a list of actions.
pub open spec fn actions_view(actions: Seq<Action>) -> Seq<ActionView> {
    actions.map_values(|a: Action| a@)
}

/// The error shown when a second peer logs in under a name that is taken.
pub open spec fn duplicate_peer_text_spec() -> Seq<char> {
    "User already exists!"@
}

/// The report for a finished writer whose peer is not connected.
pub open spec fn unknown_peer_text_spec(name: Seq<char>) -> Seq<char> {
    "User with name '"@ + name + "' not found in the userlist"@
}

/// The connected peers after `event`.
pub open spec fn next_peers(peers: Set<Seq<char>>, event: EventView) -> Set<Seq<char>> {
    match event {
        EventView::NewPeer { name } => peers.insert(name),
        EventView::Message { .. } => peers,
        EventView::Disconnect { name } => peers.remove(name),
    }
}

/// The actions for a peer logging in under `name`.
pub open spec fn new_peer_actions(peers: Set<Seq<char>>, name: Seq<char>) -> Seq<ActionView> {
    if peers.contains(name) {
        seq![ActionView::ShowError { text: duplicate_peer_text_spec() }]
    } else {
        seq![ActionView::StartWriter { name }, ActionView::ShowUser { name }]
    }
}

/// The actions for one addressee of a message: nothing when no peer of that
/// name is connected; otherwise a log entry, the delivery and the record.
pub open spec fn recipient_actions(
    peers: Set<Seq<char>>,
    from: Seq<char>,
    to: Seq<char>,
    msg: Seq<char>,
) -> Seq<ActionView> {
    if peers.contains(to) {
        seq![
            ActionView::ShowMessage { text: sent_notice_spec(from, to) },
            ActionView::Deliver { to, text: delivery_text_spec(from, msg) },
            ActionView::Store { from, to, msg },
        ]
    } else {
        seq![]
    }
}

/// The actions for a message, addressee by addressee in the order given.
pub open spec fn message_actions(
    peers: Set<Seq<char>>,
    from: Seq<char>,
    to: Seq<Seq<char>>,
    msg: Seq<char>,
) -> Seq<ActionView>
    decreases to.len(),
{
    if to.len() == 0 {
        seq![]
    } else {
        message_actions(peers, from, to.drop_last(), msg) + recipient_actions(
            peers,
            from,
            to.last(),
            msg,
        )
    }
}

/// The actions for the writer of peer `name` finishing.
pub open spec fn disconnect_actions(peers: Set<Seq<char>>, name: Seq<char>) -> Seq<ActionView> {
    if peers.contains(name) {
        seq![]
    } else {
        seq![ActionView::Report { text: unknown_peer_text_spec(name) }]
    }
}

/// The actions for `event`.
pub open spec fn event_actions(peers: Set<Seq<char>>, event: EventView) -> Seq<ActionView> {
    match event {
        EventView::NewPeer { name } => new_peer_actions(peers, name),
        EventView::Message { from, to, msg } => message_actions(peers, from, to, msg),
        EventView::Disconnect { name } => disconnect_actions(peers, name),
    }
}

/// The peers that deliveries in `actions` go to, in order.
pub open spec fn delivery_targets(actions: Seq<ActionView>) -> Seq<Seq<char>>
    decreases actions.len(),
{
    if actions.len() == 0 {
        seq![]
    } else {
        let front = delivery_targets(actions.drop_last());
        match actions.last() {
            ActionView::Deliver { to, .. } => front.push(to),
            _ => front,
        }
    }
}

/// Deliveries of two lists of actions run one after the other are those of
/// the first followed by those of the second.
proof fn lemma_delivery_targets_concat(a: Seq<ActionView>, b: Seq<ActionView>)
    ensures
        delivery_targets(a + b) == delivery_targets(a) + delivery_targets(b),
    decreases b.len(),
{
    if b.len() == 0 {
        assert(a + b =~= a);
        assert(delivery_targets(b) =~= Seq::<Seq<char>>::empty());
        assert(delivery_targets(a) + delivery_targets(b) =~= delivery_targets(a));
    } else {
        lemma_delivery_targets_concat(a, b.drop_last());
        assert((a + b).drop_last() =~= a + b.drop_last());
        assert((a + b).last() == b.last());
        match b.last() {
            ActionView::Deliver { to, .. } => {
                assert(delivery_targets(a) + delivery_targets(b) =~= (delivery_targets(a)
                    + delivery_targets(b.drop_last())).push(to));
            },
            _ => {},
        }
    }
}

/// Routing law: a message is delivered to exactly those addressees that are
/// connected, in the order they were named, once per time they were named.
pub proof fn law_message_reaches_connected_addressees(
    peers: Set<Seq<char>>,
    from: Seq<char>,
    to: Seq<Seq<char>>,
    msg: Seq<char>,
)
    ensures
        delivery_targets(message_actions(peers, from, to, msg)) == to.filter(
            |a: Seq<char>| peers.contains(a),
        ),
    decreases to.len(),
{
    let connected = |a: Seq<char>| peers.contains(a);
    if to.len() == 0 {
        reveal(Seq::filter);
        assert(delivery_targets(seq![]) =~= Seq::<Seq<char>>::empty());
        assert(to.filter(connected) =~= Seq::<Seq<char>>::empty());
    } else {
        law_message_reaches_connected_addressees(peers, from, to.drop_last(), msg);
        let front = message_actions(peers, from, to.drop_last(), msg);
        let last = recipient_actions(peers, from, to.last(), msg);
        lemma_delivery_targets_concat(front, last);
        assert(to.drop_last().push(to.last()) =~= to);
        to.drop_last().lemma_filter_push(to.last(), connected);
        if peers.contains(to.last()) {
            reveal_with_fuel(delivery_targets, 4);
            assert(last.drop_last().drop_last().drop_last() =~= Seq::<ActionView>::empty());
            assert(last.drop_last().drop_last() =~= seq![last[0]]);
            assert(last.drop_last() =~= seq![last[0], last[1]]);
            assert(delivery_targets(last) =~= seq![to.last()]);
        } else {
            assert(delivery_targets(last) =~= Seq::<Seq<char>>::empty());
        }
    }
}

/// Every delivery that a message causes goes to a connected peer named in
/// the message, and carries the sender's name and the message text.
pub proof fn law_deliveries_carry_the_message(
    peers: Set<Seq<char>>,
    from: Seq<char>,
    to: Seq<Seq<char>>,
    msg: Seq<char>,
    i: int,
)
    requires
        0 <= i < message_actions(peers, from, to, msg).len(),
    ensures
        message_actions(peers, from, to, msg)[i] matches ActionView::Deliver { to: target, text }
            ==> peers.contains(target) && to.contains(target) && text == delivery_text_spec(
            from,
            msg,
        ),
    decreases to.len(),
{
    if to.len() > 0 {
        let front = message_actions(peers, from, to.drop_last(), msg);
        if i < front.len() {
            law_deliveries_carry_the_message(peers, from, to.drop_last(), msg, i);
            match front[i] {
                ActionView::Deliver { to: target, .. } => {
                    if to.drop_last().contains(target) {
                        let k = choose|k: int|
                            0 <= k < to.drop_last().len() && to.drop_last()[k] == target;
                        assert(to[k] == target);
                    }
                },
                _ => {},
            }
        } else {
            assert(to[to.len() - 1] == to.last());
        }
    }
}

/// Every record that a message causes stores the sender, a connected peer
/// named in the message and the whole message text; and every delivery is
/// followed at once by the record of that same message to that same peer.
pub proof fn law_stores_record_the_message(
    peers: Set<Seq<char>>,
    from: Seq<char>,
    to: Seq<Seq<char>>,
    msg: Seq<char>,
    i: int,
)
    requires
        0 <= i < message_actions(peers, from, to, msg).len(),
    ensures
        message_actions(peers, from, to, msg)[i] matches ActionView::Store { from: f, to: target, msg: m }
            ==> f == from && m == msg && peers.contains(target) && to.contains(target),
        message_actions(peers, from, to, msg)[i] matches ActionView::Deliver { to: target, .. } ==> i
            + 1 < message_actions(peers, from, to, msg).len() && message_actions(peers, from, to, msg)[i
            + 1] == (ActionView::Store { from, to: target, msg }),
    decreases to.len(),
{
    if to.len() > 0 {
        let front = message_actions(peers, from, to.drop_last(), msg);
        let all = message_actions(peers, from, to, msg);
        if i < front.len() {
            law_stores_record_the_message(peers, from, to.drop_last(), msg, i);
            assert(all[i] == front[i]);
            match front[i] {
                ActionView::Store { to: target, .. } => {
                    let k = choose|k: int|
                        0 <= k < to.drop_last().len() && to.drop_last()[k] == target;
                    assert(to[k] == target);
                },
                ActionView::Deliver { .. } => {
                    assert(all[i + 1] == front[i + 1]);
                },
                _ => {},
            }
        } else {
            assert(to[to.len() - 1] == to.last());
        }
    }
}

/// A peer that logs in and whose writer then finishes leaves the set of
/// connected peers as it was, when the name was free before.
pub proof fn law_join_then_leave(peers: Set<Seq<char>>, name: Seq<char>)
    requires
        !peers.contains(name),
    ensures
        next_peers(
            next_peers(peers, EventView::NewPeer { name }),
            EventView::Disconnect { name },
        ) == peers,
{
    assert(peers.insert(name).remove(name) =~= peers);
}

/// A login under a name that is already connected is refused with an error
/// and changes nothing.
pub proof fn law_taken_name_refused(peers: Set<Seq<char>>, name: Seq<char>)
    requires
        peers.contains(name),
    ensures
        next_peers(peers, EventView::NewPeer { name }) == peers,
        event_actions(peers, EventView::NewPeer { name }) == seq![
            ActionView::ShowError { text: duplicate_peer_text_spec() },
        ],
{
    assert(peers.insert(name) =~= peers);
}

/// Messages never change who is connected; after a peer leaves it is no
/// longer connected.
pub proof fn law_only_joins_and_leaves_change_peers(peers: Set<Seq<char>>, event: EventView)
    ensures
        event is Message ==> next_peers(peers, event) == peers,
        event matches EventView::Disconnect { name } ==> !next_peers(peers, event).contains(name),
        event matches EventView::NewPeer { name } ==> next_peers(peers, event).contains(name),
{
}

/// The connected peers after `events`, handled in order from `peers`.
pub open spec fn peers_after(peers: Set<Seq<char>>, events: Seq<EventView>) -> Set<Seq<char>>
    decreases events.len(),
{
    if events.len() == 0 {
        peers
    } else {
        next_peers(peers_after(peers, events.drop_last()), events.last())
    }
}

/// Whether `events[i]` is a login of `name` after which no writer of `name`
/// finished.
pub open spec fn login_still_open(events: Seq<EventView>, name: Seq<char>, i: int) -> bool {
    &&& 0 <= i < events.len()
    &&& events[i] == EventView::NewPeer { name }
    &&& forall|j: int| i < j < events.len() ==> events[j] != (EventView::Disconnect { name })
}

/// Over any run starting from no peers, a name is connected exactly when
/// some login under it came after every finished writer of that name.
pub proof fn law_connected_are_open_logins(events: Seq<EventView>, name: Seq<char>)
    ensures
        peers_after(Set::empty(), events).contains(name) <==> exists|i: int|
            login_still_open(events, name, i),
    decreases events.len(),
{
    if events.len() > 0 {
        let front = events.drop_last();
        let last = events.last();
        law_connected_are_open_logins(front, name);
        let n = events.len() - 1;
        if peers_after(Set::empty(), events).contains(name) {
            if last == (EventView::NewPeer { name }) {
                assert(login_still_open(events, name, n));
            } else {
                assert(peers_after(Set::empty(), front).contains(name));
                let i = choose|i: int| login_still_open(front, name, i);
                assert(last != (EventView::Disconnect { name }));
                assert(events[i] == front[i]);
                assert forall|j: int| i < j < events.len() implies events[j] != (
                EventView::Disconnect { name }) by {
                    if j < n {
                        assert(events[j] == front[j]);
                    }
                }
                assert(login_still_open(events, name, i));
            }
        } else {
            assert forall|i: int| !login_still_open(events, name, i) by {
                if login_still_open(events, name, i) {
                    if i < n {
                        assert(last != (EventView::Disconnect { name }));
                        assert(login_still_open(front, name, i));
                    }
                }
            }
        }
    }
}

/// A writer is started for `name` exactly when `name` goes from not
/// connected to connected, so each connected peer has the one writer
/// started when it joined.
pub proof fn law_one_writer_per_connection(
    peers: Set<Seq<char>>,
    event: EventView,
    name: Seq<char>,
)
    ensures
        event_actions(peers, event).contains(ActionView::StartWriter { name }) <==> (
        !peers.contains(name) && next_peers(peers, event).contains(name)),
{
    let acts = event_actions(peers, event);
    match event {
        EventView::NewPeer { name: joined } => {
            if acts.contains(ActionView::StartWriter { name }) {
                let k = choose|k: int| 0 <= k < acts.len() && acts[k] == (ActionView::StartWriter { name });
                assert(!peers.contains(joined));
            }
            if !peers.contains(name) && next_peers(peers, event).contains(name) {
                assert(acts[0] == (ActionView::StartWriter { name }));
            }
        },
        EventView::Message { from, to, msg } => {
            lemma_message_starts_no_writer(peers, from, to, msg, name);
        },
        EventView::Disconnect { name: left } => {
            if acts.contains(ActionView::StartWriter { name }) {
                let k = choose|k: int| 0 <= k < acts.len() && acts[k] == (ActionView::StartWriter { name });
            }
        },
    }
}

/// A message never starts a writer.
proof fn lemma_message_starts_no_writer(
    peers: Set<Seq<char>>,
    from: Seq<char>,
    to: Seq<Seq<char>>,
    msg: Seq<char>,
    name: Seq<char>,
)
    ensures
        !message_actions(peers, from, to, msg).contains(ActionView::StartWriter { name }),
    decreases to.len(),
{
    if to.len() > 0 {
        lemma_message_starts_no_writer(peers, from, to.drop_last(), msg, name);
        let front = message_actions(peers, from, to.drop_last(), msg);
        let last = recipient_actions(peers, from, to.last(), msg);
        let all = message_actions(peers, from, to, msg);
        if all.contains(ActionView::StartWriter { name }) {
            let k = choose|k: int| 0 <= k < all.len() && all[k] == (ActionView::StartWriter { name });
            if k < front.len() {
                assert(front[k] == all[k]);
            } else {
                assert(last[k - front.len()] == all[k]);
            }
        }
    }
}

/// The set of connected peers, by name.
pub struct Broker {
    peers: Vec<String>,
}

impl Broker {
    /// The names of the connected peers, in the order they joined.
    pub closed spec fn names(&self) -> Seq<Seq<char>> {
        self.peers@.map_values(|s: String| s@)
    }

    /// No name is connected twice.
    pub closed spec fn wf(&self) -> bool {
        self.names().no_duplicates()
    }

    /// A broker with no peers.
    pub fn new() -> (res: Broker)
        ensures
            res.wf(),
            res@ == Set::<Seq<char>>::empty(),
    {
        let res = Broker { peers: Vec::new() };
        assert(res.names() =~= Seq::<Seq<char>>::empty());
        res
    }

    /// Where peer `name` stands among the connected peers.
    fn position(&self, name: &String) -> (res: Option<usize>)
        ensures
            match res {
                Some(i) => i < self.names().len() && self.names()[i as int] == name@,
                None => !self.names().contains(name@),
            },
    {
        let mut i: usize = 0;
        while i < self.peers.len()
            invariant
                i <= self.peers@.len(),
                forall|k: int| 0 <= k < i ==> self.names()[k] != name@,
            decreases self.peers@.len() - i,
        {
            if self.peers[i] == *name {
                return Some(i);
            }
            i = i + 1;
        }
        proof {
            assert forall|k: int| 0 <= k < self.names().len() implies self.names()[k] != name@ by {}
        }
        None
    }

    /// Whether a peer named `name` is connected.
    pub fn is_connected(&self, name: &String) -> (res: bool)
        ensures
            res == self@.contains(name@),
    {
        match self.position(name) {
            Some(i) => {
                assert(self.names().contains(name@)) by {
                    assert(self.names()[i as int] == name@);
                }
                true
            },
            None => false,
        }
    }

    /// Answers a peer logging in: refused with an error when the name is
    /// taken; otherwise the peer joins, its writer starts and it is listed.
    pub fn handle_new_peer(&mut self, name: String) -> (actions: Vec<Action>)
        requires
            old(self).wf(),
        ensures
            final(self).wf(),
            final(self)@ == next_peers(old(self)@, EventView::NewPeer { name: name@ }),
            actions_view(actions@) == new_peer_actions(old(self)@, name@),
    {
        let mut actions: Vec<Action> = Vec::new();
        if self.is_connected(&name) {
            let text = String::from_str("User already exists!");
            actions.push(Action::ShowError { text });
            proof {
                assert(old(self)@.insert(name@) =~= old(self)@);
                assert(actions_view(actions@) =~= new_peer_actions(old(self)@, name@));
            }
        } else {
            let ghost before = self.names();
            let shown = name.clone();
            self.peers.push(name.clone());
            proof {
                assert(self.names() =~= before.push(name@));
                assert forall|x: Seq<char>| #[trigger] self.names().contains(x) <==> (before.contains(x) || x == name@) by {
                    if self.names().contains(x) {
                        let a = choose|a: int| 0 <= a < self.names().len() && self.names()[a] == x;
                        if a < before.len() {
                            assert(before[a] == x);
                        }
                    }
                    if before.contains(x) {
                        let a = choose|a: int| 0 <= a < before.len() && before[a] == x;
                        assert(self.names()[a] == x);
                    }
                    if x == name@ {
                        assert(self.names()[before.len() as int] == x);
                    }
                }
                assert(self.names().to_set() =~= before.to_set().insert(name@));
                assert forall|a: int, b: int|
                    0 <= a < self.names().len() && 0 <= b < self.names().len() && a != b
                    implies self.names()[a] != self.names()[b] by {
                    if a == before.len() as int {
                        assert(before.contains(self.names()[b]));
                    } else if b == before.len() as int {
                        assert(before.contains(self.names()[a]));
                    }
                }
            }
            actions.push(Action::StartWriter { name });
            actions.push(Action::ShowUser { name: shown });
            assert(actions_view(actions@) =~= new_peer_actions(old(self)@, name@));
        }
        actions
    }

    /// Answers a message: for each addressee in order, when a peer of that
    /// name is connected, a log entry, the delivery and the record.
    /// Addressees that are not connected are passed over.
    pub fn handle_message(
        &self,
        from: &String,
        to: &Vec<String>,
        msg: &String,
    ) -> (actions: Vec<Action>)
        requires
            self.wf(),
        ensures
            actions_view(actions@) == message_actions(
                self@,
                from@,
                to@.map_values(|s: String| s@),
                msg@,
            ),
    {
        let ghost addressees = to@.map_values(|s: String| s@);
        let mut actions: Vec<Action> = Vec::new();
        let mut k: usize = 0;
        assert(addressees.take(0) =~= Seq::<Seq<char>>::empty());
        while k < to.len()
            invariant
                k <= to@.len(),
                addressees == to@.map_values(|s: String| s@),
                self.wf(),
                actions_view(actions@) == message_actions(self@, from@, addressees.take(k as int), msg@),
            decreases to@.len() - k,
        {
            let addr = &to[k];
            let ghost prefix = actions_view(actions@);
            assert(addressees.take(k + 1).drop_last() =~= addressees.take(k as int));
            assert(addressees.take(k + 1).last() == addr@);
            if self.is_connected(addr) {
                actions.push(Action::ShowMessage { text: sent_notice(from.as_str(), addr.as_str()) });
                actions.push(Action::Deliver { to: addr.clone(), text: delivery_text(from.as_str(), msg.as_str()) });
                actions.push(Action::Store { from: from.clone(), to: addr.clone(), msg: msg.clone() });
            }
            assert(actions_view(actions@) =~= prefix + recipient_actions(self@, from@, addr@, msg@));
            k = k + 1;
        }
        assert(addressees.take(to@.len() as int) =~= addressees);
        actions
    }

    /// Answers the writer of peer `name` finishing: the peer leaves; when
    /// no such peer is connected, that is reported.
    pub fn handle_disconnect(&mut self, name: &String) -> (actions: Vec<Action>)
        requires
            old(self).wf(),
        ensures
            final(self).wf(),
            final(self)@ == next_peers(old(self)@, EventView::Disconnect { name: name@ }),
            actions_view(actions@) == disconnect_actions(old(self)@, name@),
    {
        let mut actions: Vec<Action> = Vec::new();
        match self.position(name) {
            Some(i) => {
                let ghost before = self.names();
                self.peers.remove(i);
                proof {
                    assert(self.names() =~= before.remove(i as int));
                    assert forall|a: int, b: int|
                        0 <= a < self.names().len() && 0 <= b < self.names().len() && a != b
                        implies self.names()[a] != self.names()[b] by {
                        let a0 = if a < i { a } else { a + 1 };
                        let b0 = if b < i { b } else { b + 1 };
                        assert(self.names()[a] == before[a0]);
                        assert(self.names()[b] == before[b0]);
                    }
                    assert forall|x: Seq<char>| #[trigger] self.names().contains(x) <==> before.to_set().remove(name@).contains(x) by {
                        if self.names().contains(x) {
                            let a = choose|a: int| 0 <= a < self.names().len() && self.names()[a] == x;
                            let a0 = if a < i { a } else { a + 1 };
                            assert(before[a0] == x);
                            assert(a0 != i as int);
                        }
                        if before.to_set().remove(name@).contains(x) {
                            let a0 = choose|a0: int| 0 <= a0 < before.len() && before[a0] == x;
                            assert(a0 != i as int);
                            let a = if a0 < i { a0 } else { a0 - 1 };
                            assert(self.names()[a] == x);
                        }
                    }
                    assert(self.names().to_set() =~= before.to_set().remove(name@));
                    assert(old(self)@.contains(name@)) by {
                        assert(before[i as int] == name@);
                    }
                }
            },
            None => {
                let mut text = String::from_str("User with name '");
                text.append(name.as_str());
                text.append("' not found in the userlist");
                actions.push(Action::Report { text });
                proof {
                    assert(old(self)@.remove(name@) =~= old(self)@);
                }
            },
        }
        assert(actions_view(actions@) =~= disconnect_actions(old(self)@, name@));
        actions
    }

    /// Answers one event with the actions for it, in order.
    pub fn handle(&mut self, event: Event) -> (actions: Vec<Action>)
        requires
            old(self).wf(),
        ensures
            final(self).wf(),
            final(self)@ == next_peers(old(self)@, event@),
            actions_view(actions@) == event_actions(old(self)@, event@),
    {
        match event {
            Event::NewPeer { name } => self.handle_new_peer(name),
            Event::Message { from, to, msg } => self.handle_message(&from, &to, &msg),
            Event::Disconnect { name } => self.handle_disconnect(&name),
        }
    }
}

impl View for Broker {
    type V = Set<Seq<char>>;

    /// The names of the connected peers.
    closed spec fn view(&self) -> Set<Seq<char>> {
        self.names().to_set()
    }
}

} // verus!
