//! The server's side of the epoll loop: what to do with each readiness
//! notification, how a burst of reads on one connection is summed up, and the
//! table of connections (those still to authenticate, and those that have,
//! with the identity they gave).

use std::collections::HashMap;
use vstd::prelude::*;
use vstd::slice::slice_to_vec;
use vstd::utf8::{decode_utf8, valid_utf8};
use crate::epoll::{epoll_in, flag_set, has_flag};
use crate::protocol::{message_from_raw, raw_message_accepted, Message, MessageModel};

verus! {

broadcast use vstd::std_specs::hash::group_hash_axioms;

/// What the server does about one readiness notification.
pub enum ServerAction {
    /// The listening socket is readable: accept a connection.
    AcceptConnection,
    /// A connection is readable: read from it.
    ReadConnection { fd: i32 },
    /// Nothing to read.
    Ignore,
}

/// Readable events are handled, on the listening socket by accepting and on
/// any other descriptor by reading; other events are ignored.
pub open spec fn server_action(flags: u32, concerned_fd: i32, socket_fd: i32) -> ServerAction {
    if flag_set(flags, 0x1) {
        if concerned_fd != socket_fd {
            ServerAction::ReadConnection { fd: concerned_fd }
        } else {
            ServerAction::AcceptConnection
        }
    } else {
        ServerAction::Ignore
    }
}

/// Decides what to do about the events `flags` reported for `concerned_fd`,
/// given the listening socket `socket_fd`.
pub fn event_handler(flags: u32, concerned_fd: i32, socket_fd: i32) -> (action: ServerAction)
    ensures
        action == server_action(flags, concerned_fd, socket_fd),
{
    if has_flag(flags, epoll_in()) {
        if concerned_fd != socket_fd {
            ServerAction::ReadConnection { fd: concerned_fd }
        } else {
            ServerAction::AcceptConnection
        }
    } else {
        ServerAction::Ignore
    }
}

/// The summary of a series of reads that drains a non-blocking connection:
/// the response of the first read, unless a later read failed for a reason
/// other than having no data yet, in which case that failure.
pub struct ReadDrain {
    first_read_response: Option<isize>,
}

impl View for ReadDrain {
    type V = Option<isize>;

    closed spec fn view(&self) -> Option<isize> {
        self.first_read_response
    }
}

impl ReadDrain {
    /// Before any read.
    pub fn new() -> (drain: Self)
        ensures
            drain@ is None,
    {
        ReadDrain { first_read_response: None }
    }

    /// Takes the response of one `read` (`would_block` tells whether a failure
    /// only meant that no data was there yet) and says whether to read again:
    /// only after data, since end of file or an error ends the burst.
    pub fn record(&mut self, read_response: isize, would_block: bool) -> (keep_reading: bool)
        ensures
            final(self)@ == (if old(self)@ is None || (read_response == -1 && !would_block) {
                Some(read_response)
            } else {
                old(self)@
            }),
            keep_reading == (read_response > 0),
    {
        let hard_error = read_response == -1 && !would_block;
        if self.first_read_response.is_none() || hard_error {
            self.first_read_response = Some(read_response);
        }
        read_response > 0
    }

    /// The response that stands for the burst, once a read was recorded.
    pub fn first_read_response(&self) -> (response: Option<isize>)
        ensures
            response == self@,
    {
        self.first_read_response
    }
}

/// How a connection's burst of reads ended.
pub enum ReadOutcome {
    /// End of file: the peer closed its side.
    PeerClosed,
    /// The read failed.
    ReadFailed,
    /// Data arrived in the buffer.
    Received,
}

/// Zero means end of file, -1 an error, and any other response data.
pub open spec fn read_outcome(first_read_response: isize) -> ReadOutcome {
    if first_read_response == 0 {
        ReadOutcome::PeerClosed
    } else if first_read_response == -1 {
        ReadOutcome::ReadFailed
    } else {
        ReadOutcome::Received
    }
}

/// Classifies the response that stands for a burst of reads.
pub fn classify_read(first_read_response: isize) -> (outcome: ReadOutcome)
    ensures
        outcome == read_outcome(first_read_response),
{
    if first_read_response == 0 {
        ReadOutcome::PeerClosed
    } else if first_read_response == -1 {
        ReadOutcome::ReadFailed
    } else {
        ReadOutcome::Received
    }
}

/// `String::from_utf8`: succeeds exactly on valid UTF-8 (`valid_utf8` of
/// vstd), and the string then holds the characters the bytes encode
/// (`decode_utf8` of vstd).
#[verifier::external_body]
fn string_from_utf8(bytes: Vec<u8>) -> (text: Option<String>)
    ensures
        text is Some <==> valid_utf8(bytes@),
        text matches Some(t) ==> t@ == decode_utf8(bytes@),
{
    match String::from_utf8(bytes) {
        Ok(text) => Some(text),
        Err(_) => None,
    }
}

/// `s` without any occurrence of `fd`.
pub open spec fn without(s: Seq<i32>, fd: i32) -> Seq<i32> {
    s.filter(other_than(fd))
}

/// Holds of every descriptor but `fd`.
pub open spec fn other_than(fd: i32) -> spec_fn(i32) -> bool {
    |x: i32| x != fd
}

fn remove_all(v: &Vec<i32>, fd: i32) -> (rest: Vec<i32>)
    ensures
        rest@ == without(v@, fd),
{
    let mut rest: Vec<i32> = Vec::new();
    let mut i: usize = 0;
    proof {
        reveal(Seq::filter);
        assert(v@.take(0) =~= Seq::<i32>::empty());
    }
    while i < v.len()
        invariant
            i <= v.len(),
            rest@ == without(v@.take(i as int), fd),
        decreases v.len() - i,
    {
        if v[i] != fd {
            rest.push(v[i]);
        }
        proof {
            reveal(Seq::filter);
            assert(v@.take(i + 1).drop_last() =~= v@.take(i as int));
            assert(v@.take(i + 1).last() == v@[i as int]);
        }
        i = i + 1;
    }
    proof {
        assert(v@.take(v.len() as int) =~= v@);
    }
    rest
}

/// The mathematical value of a [`ConnectionTable`]: the identity of each
/// authenticated connection, and the connections still to authenticate in
/// the order they were accepted.
pub struct TableModel {
    pub open: Map<i32, Seq<char>>,
    pub pending: Seq<i32>,
}

/// The identity an AUTH message presents: its password field, when `text`
/// reads as an AUTH message.
pub open spec fn auth_identity(text: Seq<char>) -> Option<Seq<char>> {
    if raw_message_accepted(text) {
        match message_from_raw(text) {
            MessageModel::Auth { password } => Some(password),
            _ => None,
        }
    } else {
        None
    }
}

/// `text` authenticates `fd`: the connection is still to authenticate and the
/// text is an AUTH message.
pub open spec fn authenticates(t: TableModel, fd: i32, text: Seq<char>) -> bool {
    t.pending.contains(fd) && auth_identity(text) is Some
}

/// The table after `text` arrived on `fd`: an authenticating connection moves
/// from the pending ones to the open ones, under the identity it presented.
pub open spec fn after_text(t: TableModel, fd: i32, text: Seq<char>) -> TableModel {
    if authenticates(t, fd, text) {
        TableModel { open: t.open.insert(fd, auth_identity(text)->0), pending: without(t.pending, fd) }
    } else {
        t
    }
}

/// The table after `fd` was closed: it is no longer open; the list of
/// connections still to authenticate is left as it was.
pub open spec fn after_close(t: TableModel, fd: i32) -> TableModel {
    TableModel { open: t.open.remove(fd), pending: t.pending }
}

/// The table after data arrived on `fd`: end of file or a failed read closes
/// the connection; otherwise the whole buffer is read as UTF-8 text, which
/// may authenticate the connection, and bytes that are not UTF-8 change
/// nothing.
pub open spec fn table_after_data(t: TableModel, fd: i32, first_read_response: isize, buf: Seq<u8>) -> TableModel {
    match read_outcome(first_read_response) {
        ReadOutcome::Received => if valid_utf8(buf) {
            after_text(t, fd, decode_utf8(buf))
        } else {
            t
        },
        _ => after_close(t, fd),
    }
}

/// What data arriving on `fd` comes to: `Closed` on end of file or a failed
/// read; otherwise the text the whole buffer decodes to, with whether it
/// authenticated the connection, or `NotText` when the buffer is not UTF-8.
pub open spec fn data_outcome_is(
    outcome: DataOutcome,
    t: TableModel,
    fd: i32,
    first_read_response: isize,
    buf: Seq<u8>,
) -> bool {
    match read_outcome(first_read_response) {
        ReadOutcome::Received => if valid_utf8(buf) {
            &&& outcome matches DataOutcome::Text { text, authenticated }
            &&& text@ == decode_utf8(buf)
            &&& authenticated == authenticates(t, fd, decode_utf8(buf))
        } else {
            outcome is NotText
        },
        _ => outcome is Closed,
    }
}

/// What came of data arriving on a connection.
pub enum DataOutcome {
    /// The connection ended; the caller closes it and stops watching it.
    Closed,
    /// Text arrived; `authenticated` tells whether it authenticated the
    /// connection.
    Text { text: String, authenticated: bool },
    /// The bytes were not UTF-8.
    NotText,
}

/// The server's connections: those accepted and not yet authenticated, and
/// those authenticated, each with the identity it presented.
pub struct ConnectionTable {
    open_connections: HashMap<i32, String>,
    unauthenticated_connections: Vec<i32>,
}

impl View for ConnectionTable {
    type V = TableModel;

    closed spec fn view(&self) -> TableModel {
        TableModel {
            open: self.open_connections@.map_values(|s: String| s@),
            pending: self.unauthenticated_connections@,
        }
    }
}

impl ConnectionTable {
    /// No connections.
    pub fn new() -> (table: Self)
        ensures
            table@.open == Map::<i32, Seq<char>>::empty(),
            table@.pending == Seq::<i32>::empty(),
    {
        let table = ConnectionTable {
            open_connections: HashMap::new(),
            unauthenticated_connections: Vec::new(),
        };
        proof {
            assert(table@.open =~= Map::<i32, Seq<char>>::empty());
        }
        table
    }

    /// A connection was accepted on `fd`; it has yet to authenticate.
    pub fn connection_accepted(&mut self, fd: i32)
        ensures
            final(self)@.open == old(self)@.open,
            final(self)@.pending == old(self)@.pending.push(fd),
    {
        self.unauthenticated_connections.push(fd);
    }

    /// The connection on `fd` ended: it is no longer open.
    pub fn connection_closed(&mut self, fd: i32)
        ensures
            final(self)@ == after_close(old(self)@, fd),
    {
        let ghost old_open = self.open_connections@;
        self.open_connections.remove(&fd);
        proof {
            assert(self.open_connections@.map_values(|s: String| s@) =~= old_open.map_values(
                |s: String| s@,
            ).remove(fd));
        }
    }

    /// Whether `fd` is still to authenticate.
    pub fn is_pending(&self, fd: i32) -> (pending: bool)
        ensures
            pending == self@.pending.contains(fd),
    {
        let mut i: usize = 0;
        while i < self.unauthenticated_connections.len()
            invariant
                i <= self.unauthenticated_connections.len(),
                forall|j: int| 0 <= j < i ==> self.unauthenticated_connections@[j] != fd,
            decreases self.unauthenticated_connections.len() - i,
        {
            if self.unauthenticated_connections[i] == fd {
                assert(self@.pending[i as int] == fd);
                return true;
            }
            i = i + 1;
        }
        false
    }

    /// The identity `fd` authenticated with, if it is open.
    pub fn identity_of(&self, fd: i32) -> (id: Option<String>)
        ensures
            id is Some <==> self@.open.contains_key(fd),
            id matches Some(s) ==> s@ == self@.open[fd],
    {
        match self.open_connections.get(&fd) {
            Some(s) => Some(s.clone()),
            None => None,
        }
    }

    /// How many connections are open.
    pub fn open_count(&self) -> (n: usize)
        ensures
            n == self@.open.len(),
    {
        proof {
            assert(self@.open.dom() =~= self.open_connections@.dom());
        }
        self.open_connections.len()
    }

    /// How many connections are still to authenticate (a descriptor accepted
    /// twice counts twice).
    pub fn pending_count(&self) -> (n: usize)
        ensures
            n == self@.pending.len(),
    {
        self.unauthenticated_connections.len()
    }

    /// Text arrived on `fd`. If the connection is still to authenticate and
    /// the text is an AUTH message, the connection becomes open under the
    /// identity it presented.
    pub fn text_received(&mut self, fd: i32, text: &String) -> (authenticated: bool)
        ensures
            authenticated == authenticates(old(self)@, fd, text@),
            final(self)@ == after_text(old(self)@, fd, text@),
    {
        if !self.is_pending(fd) {
            return false;
        }
        if !Message::accepts_raw_message(text.as_str()) {
            return false;
        }
        let message = Message::from_raw_message(text.clone());
        match message {
            Message::Auth { password } => {
                let ghost old_open = self.open_connections@;
                let ghost id = password@;
                self.unauthenticated_connections = remove_all(&self.unauthenticated_connections, fd);
                self.open_connections.insert(fd, password);
                proof {
                    assert(self.open_connections@.map_values(|s: String| s@) =~= old_open.map_values(
                        |s: String| s@,
                    ).insert(fd, id));
                }
                true
            },
            _ => false,
        }
    }

    /// Data arrived on `connection_fd`: `first_read_response` stands for the
    /// burst of reads into `buf`. End of file or a failed read closes the
    /// connection; otherwise the whole buffer is read as UTF-8 text, which
    /// may authenticate the connection.
    pub fn handle_data_on_connection(
        &mut self,
        connection_fd: i32,
        first_read_response: isize,
        buf: &[u8],
    ) -> (outcome: DataOutcome)
        ensures
            data_outcome_is(outcome, old(self)@, connection_fd, first_read_response, buf@),
            final(self)@ == table_after_data(old(self)@, connection_fd, first_read_response, buf@),
    {
        match classify_read(first_read_response) {
            ReadOutcome::Received => {
                let bytes = slice_to_vec(buf);
                match string_from_utf8(bytes) {
                    Some(text) => {
                        let authenticated = self.text_received(connection_fd, &text);
                        DataOutcome::Text { text, authenticated }
                    },
                    None => DataOutcome::NotText,
                }
            },
            _ => {
                self.connection_closed(connection_fd);
                DataOutcome::Closed
            },
        }
    }

    /// One step of the server loop, once the read that the event called for
    /// was made: the event `flags` on `concerned_fd` (with listening socket
    /// `socket_fd`), and the burst of reads summed up by
    /// `first_read_response` into `buf`. A readable connection has its data
    /// handled; the read is not looked at for any other event, and the table
    /// is left as it was (an accepted connection is added by
    /// [`ConnectionTable::connection_accepted`] once `accept` succeeded).
    pub fn handle_event(
        &mut self,
        flags: u32,
        concerned_fd: i32,
        socket_fd: i32,
        first_read_response: isize,
        buf: &[u8],
    ) -> (step: EventStep)
        ensures
            match server_action(flags, concerned_fd, socket_fd) {
                ServerAction::ReadConnection { fd } => {
                    &&& step matches EventStep::Data { fd: stepped, outcome }
                    &&& stepped == fd
                    &&& data_outcome_is(outcome, old(self)@, fd, first_read_response, buf@)
                    &&& final(self)@ == table_after_data(old(self)@, fd, first_read_response, buf@)
                },
                ServerAction::AcceptConnection => {
                    &&& step is AcceptConnection
                    &&& final(self)@ == old(self)@
                },
                ServerAction::Ignore => {
                    &&& step is Ignore
                    &&& final(self)@ == old(self)@
                },
            },
    {
        match event_handler(flags, concerned_fd, socket_fd) {
            ServerAction::ReadConnection { fd } => {
                let outcome = self.handle_data_on_connection(fd, first_read_response, buf);
                EventStep::Data { fd, outcome }
            },
            ServerAction::AcceptConnection => EventStep::AcceptConnection,
            ServerAction::Ignore => EventStep::Ignore,
        }
    }
}

/// What one step of the server loop came to.
pub enum EventStep {
    /// The listening socket is readable: a connection is to be accepted.
    AcceptConnection,
    /// Data arrived on `fd`, with this outcome.
    Data { fd: i32, outcome: DataOutcome },
    /// Nothing to do.
    Ignore,
}

/// No connection is both open and still to authenticate.
pub open spec fn table_consistent(t: TableModel) -> bool {
    forall|fd: i32| !(#[trigger] t.open.contains_key(fd) && t.pending.contains(fd))
}

proof fn lemma_without_contains(s: Seq<i32>, fd: i32, x: i32)
    ensures
        without(s, fd).contains(x) <==> (s.contains(x) && x != fd),
{
    let pred = other_than(fd);
    if s.contains(x) && x != fd {
        let i = choose|i: int| 0 <= i < s.len() && s[i] == x;
        s.lemma_filter_contains(pred, i);
    }
    if without(s, fd).contains(x) {
        s.lemma_filter_contains_rev(pred, x);
        let j = choose|j: int| 0 <= j < without(s, fd).len() && without(s, fd)[j] == x;
        s.lemma_filter_pred(pred, j);
    }
}

/// A closed connection is no longer open; every other connection keeps its
/// standing, and the list of connections still to authenticate is unchanged.
pub proof fn lemma_close_forgets_connection(t: TableModel, fd: i32, other: i32)
    requires
        other != fd,
    ensures
        !after_close(t, fd).open.contains_key(fd),
        after_close(t, fd).open.contains_key(other) == t.open.contains_key(other),
        t.open.contains_key(other) ==> after_close(t, fd).open[other] == t.open[other],
        after_close(t, fd).pending == t.pending,
{
}

/// An AUTH message on a connection still to authenticate opens it under the
/// identity it presents; no other connection changes standing.
pub proof fn lemma_auth_opens_connection(t: TableModel, fd: i32, text: Seq<char>, other: i32)
    requires
        t.pending.contains(fd),
        auth_identity(text) is Some,
        other != fd,
    ensures
        after_text(t, fd, text).open.contains_key(fd),
        after_text(t, fd, text).open[fd] == auth_identity(text)->0,
        !after_text(t, fd, text).pending.contains(fd),
        after_text(t, fd, text).open.contains_key(other) == t.open.contains_key(other),
        after_text(t, fd, text).pending.contains(other) == t.pending.contains(other),
{
    lemma_without_contains(t.pending, fd, fd);
    lemma_without_contains(t.pending, fd, other);
}

/// At the event step: an AUTH message read from a readable connection that is
/// still to authenticate opens it under the identity it presents, and takes
/// it off the list of those still to authenticate.
pub proof fn lemma_auth_read_opens_connection(t: TableModel, fd: i32, first_read_response: isize, buf: Seq<u8>)
    requires
        read_outcome(first_read_response) is Received,
        valid_utf8(buf),
        t.pending.contains(fd),
        auth_identity(decode_utf8(buf)) is Some,
    ensures
        table_after_data(t, fd, first_read_response, buf).open.contains_key(fd),
        table_after_data(t, fd, first_read_response, buf).open[fd] == auth_identity(decode_utf8(buf))->0,
        !table_after_data(t, fd, first_read_response, buf).pending.contains(fd),
{
    lemma_without_contains(t.pending, fd, fd);
}

/// At the event step: end of file or a failed read on a connection leaves it
/// no longer open, and the list of those still to authenticate unchanged.
pub proof fn lemma_ended_read_closes_connection(t: TableModel, fd: i32, first_read_response: isize, buf: Seq<u8>)
    requires
        first_read_response == 0 || first_read_response == -1,
    ensures
        !table_after_data(t, fd, first_read_response, buf).open.contains_key(fd),
        table_after_data(t, fd, first_read_response, buf).pending == t.pending,
{
}

/// Text that is not an AUTH message, or that arrives on a connection that is
/// not waiting to authenticate, leaves the table as it was.
pub proof fn lemma_other_text_changes_nothing(t: TableModel, fd: i32, text: Seq<char>)
    requires
        !t.pending.contains(fd) || auth_identity(text) is None,
    ensures
        after_text(t, fd, text) == t,
{
}

/// Every step of the table keeps it consistent: closing, text arriving, and
/// accepting a descriptor that is not open.
pub proof fn lemma_steps_keep_table_consistent(t: TableModel, fd: i32, text: Seq<char>)
    requires
        table_consistent(t),
    ensures
        table_consistent(after_close(t, fd)),
        table_consistent(after_text(t, fd, text)),
        !t.open.contains_key(fd) ==> table_consistent(
            TableModel { open: t.open, pending: t.pending.push(fd) },
        ),
{
    assert forall|x: i32| !(#[trigger] after_text(t, fd, text).open.contains_key(x) && after_text(
        t,
        fd,
        text,
    ).pending.contains(x)) by {
        lemma_without_contains(t.pending, fd, x);
    }
    if !t.open.contains_key(fd) {
        let u = TableModel { open: t.open, pending: t.pending.push(fd) };
        assert forall|x: i32| !(#[trigger] u.open.contains_key(x) && u.pending.contains(x)) by {
            if u.pending.contains(x) && x != fd {
                let i = choose|i: int| 0 <= i < u.pending.len() && u.pending[i] == x;
                assert(t.pending[i] == x);
            }
        }
    }
}

/// Dispatch: every notification that reports readability (bit 0x1) is acted
/// on, whatever other bits (errors, hang-ups) come with it: the listening
/// socket is accepted on, any other descriptor is read. Only notifications
/// without readability are ignored.
pub proof fn lemma_readable_events_are_handled(flags: u32, concerned_fd: i32, socket_fd: i32)
    ensures
        flags & 1u32 != 0 && concerned_fd != socket_fd ==> server_action(flags, concerned_fd, socket_fd)
            == (ServerAction::ReadConnection { fd: concerned_fd }),
        flags & 1u32 != 0 && concerned_fd == socket_fd ==> server_action(flags, concerned_fd, socket_fd)
            is AcceptConnection,
        flags & 1u32 == 0 ==> server_action(flags, concerned_fd, socket_fd) is Ignore,
{
    assert(0x1i32 as u32 == 1u32);
}

/// Classification: only a response of 0 is end of file, only -1 is a failed
/// read, and every other response (every positive byte count in particular)
/// is data.
pub proof fn lemma_read_responses_classified(first_read_response: isize)
    ensures
        first_read_response > 0 ==> read_outcome(first_read_response) is Received,
        first_read_response != 0 && first_read_response != -1 ==> read_outcome(first_read_response) is Received,
        read_outcome(first_read_response) is PeerClosed <==> first_read_response == 0,
        read_outcome(first_read_response) is ReadFailed <==> first_read_response == -1,
{
}

/// Data that arrives leaves every other descriptor's standing as it was, and
/// leaves the whole table as it was unless the descriptor was still to
/// authenticate and the buffer decodes to an AUTH message: a connection that
/// is already open stays open under the same identity whatever it sends.
pub proof fn lemma_data_keeps_standing(t: TableModel, fd: i32, first_read_response: isize, buf: Seq<u8>, other: i32)
    requires
        first_read_response != 0,
        first_read_response != -1,
    ensures
        other != fd ==> table_after_data(t, fd, first_read_response, buf).open.contains_key(other)
            == t.open.contains_key(other),
        other != fd && t.open.contains_key(other) ==> table_after_data(t, fd, first_read_response, buf).open[other]
            == t.open[other],
        other != fd ==> table_after_data(t, fd, first_read_response, buf).pending.contains(other)
            == t.pending.contains(other),
        !(t.pending.contains(fd) && valid_utf8(buf) && auth_identity(decode_utf8(buf)) is Some)
            ==> table_after_data(t, fd, first_read_response, buf) == t,
        t.open.contains_key(fd) && !t.pending.contains(fd) ==> {
            &&& table_after_data(t, fd, first_read_response, buf).open.contains_key(fd)
            &&& table_after_data(t, fd, first_read_response, buf).open[fd] == t.open[fd]
        },
{
    lemma_without_contains(t.pending, fd, other);
}

/// An AUTH identity is the password of a text that reads as an AUTH message,
/// and nothing else.
pub proof fn lemma_auth_identity_is_auth_password(text: Seq<char>)
    ensures
        auth_identity(text) is Some <==> (raw_message_accepted(text) && message_from_raw(text) is Auth),
        auth_identity(text) is Some ==> auth_identity(text)->0 == message_from_raw(text)->password,
{
}

/// Authentication happens only on a connection that is still to
/// authenticate, by a text that reads as an AUTH message; and once it has
/// happened, no later text authenticates the same connection again.
pub proof fn lemma_authentication_only_once(t: TableModel, fd: i32, text: Seq<char>, later: Seq<char>)
    ensures
        authenticates(t, fd, text) <==> (t.pending.contains(fd) && raw_message_accepted(text)
            && message_from_raw(text) is Auth),
        !t.pending.contains(fd) ==> !authenticates(t, fd, text),
        authenticates(t, fd, text) ==> !authenticates(after_text(t, fd, text), fd, later),
{
    lemma_auth_identity_is_auth_password(text);
    lemma_without_contains(t.pending, fd, fd);
}

} // verus!
