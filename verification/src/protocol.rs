//! The text protocol spoken over each connection:
//! `[AUTH]+[password]`, `[CLOSE]`, and `[TEXT]+[destinations]+[message]`,
//! where the destinations are `BROADCAST` or targets joined by `", "`.

use vstd::prelude::*;
use crate::text::{
    border_free, contains_seq, join_seq, join_with, lemma_join_front, lemma_join_split,
    lemma_split_after_piece, lemma_split_join, lemma_split_nonempty, lemma_split_without_sep,
    occurs_at, split_on, split_seq, strings_view,
};

verus! {

/// Who a text message is addressed to.
pub enum TextDestination {
    Broadcast,
    Targets(Vec<String>),
}

/// A message of the protocol.
pub enum Message {
    Close,
    Text { message: String, destinations: TextDestination },
    Auth { password: String },
}

/// The mathematical value of a [`TextDestination`].
pub enum DestinationModel {
    Broadcast,
    Targets(Seq<Seq<char>>),
}

/// The mathematical value of a [`Message`].
pub enum MessageModel {
    Close,
    Text { message: Seq<char>, destinations: DestinationModel },
    Auth { password: Seq<char> },
}

impl View for TextDestination {
    type V = DestinationModel;

    open spec fn view(&self) -> DestinationModel {
        match self {
            TextDestination::Broadcast => DestinationModel::Broadcast,
            TextDestination::Targets(targets) => DestinationModel::Targets(strings_view(targets@)),
        }
    }
}

impl View for Message {
    type V = MessageModel;

    open spec fn view(&self) -> MessageModel {
        match self {
            Message::Close => MessageModel::Close,
            Message::Text { message, destinations } => MessageModel::Text {
                message: message@,
                destinations: destinations@,
            },
            Message::Auth { password } => MessageModel::Auth { password: password@ },
        }
    }
}

/// `[CLOSE]`
pub open spec fn close_tag() -> Seq<char> {
    seq!['[', 'C', 'L', 'O', 'S', 'E', ']']
}

/// `[AUTH]`
pub open spec fn auth_tag() -> Seq<char> {
    seq!['[', 'A', 'U', 'T', 'H', ']']
}

/// `[TEXT]`
pub open spec fn text_tag() -> Seq<char> {
    seq!['[', 'T', 'E', 'X', 'T', ']']
}

/// `BROADCAST`
pub open spec fn broadcast_word() -> Seq<char> {
    seq!['B', 'R', 'O', 'A', 'D', 'C', 'A', 'S', 'T']
}

/// `+`, between the fields of a message.
pub open spec fn field_separator() -> Seq<char> {
    seq!['+']
}

/// `", "`, between the targets of a text message.
pub open spec fn target_separator() -> Seq<char> {
    seq![',', ' ']
}

/// `s` between square brackets.
pub open spec fn bracketed(s: Seq<char>) -> Seq<char> {
    seq!['['] + s + seq![']']
}

/// `s` without its first and its last character.
pub open spec fn unbracketed(s: Seq<char>) -> Seq<char> {
    s.subrange(1, s.len() - 1)
}

/// The destinations that the bracketed text `raw` names.
pub open spec fn destination_from_raw(raw: Seq<char>) -> DestinationModel {
    let inner = unbracketed(raw);
    if inner == broadcast_word() {
        DestinationModel::Broadcast
    } else {
        DestinationModel::Targets(split_seq(inner, target_separator()))
    }
}

/// The text that names the destinations inside the brackets.
pub open spec fn destination_to_raw(d: DestinationModel) -> Seq<char> {
    match d {
        DestinationModel::Broadcast => broadcast_word(),
        DestinationModel::Targets(targets) => join_seq(targets, target_separator()),
    }
}

/// The wire text of a message.
pub open spec fn message_to_raw(m: MessageModel) -> Seq<char> {
    match m {
        MessageModel::Close => close_tag(),
        MessageModel::Auth { password } => auth_tag() + field_separator() + bracketed(password),
        MessageModel::Text { message, destinations } => text_tag() + field_separator() + bracketed(
            destination_to_raw(destinations),
        ) + field_separator() + bracketed(message),
    }
}

/// The wire texts that can be read as a message: a first field `[CLOSE]`;
/// or `[AUTH]` and a second field; or, for any other first field, a second
/// and a third field of two characters or more.
pub open spec fn raw_message_accepted(raw: Seq<char>) -> bool {
    let chunks = split_seq(raw, field_separator());
    if chunks[0] == close_tag() {
        true
    } else if chunks[0] == auth_tag() {
        chunks.len() >= 2
    } else {
        chunks.len() >= 3 && chunks[1].len() >= 2 && chunks[2].len() >= 2
    }
}

/// The message read from the wire text `raw`. The first field decides the
/// kind; the AUTH password is the second field as it stands; a text message
/// takes its destinations from the second field and its content from the
/// third, each without its first and last character.
pub open spec fn message_from_raw(raw: Seq<char>) -> MessageModel {
    let chunks = split_seq(raw, field_separator());
    if chunks[0] == close_tag() {
        MessageModel::Close
    } else if chunks[0] == auth_tag() {
        MessageModel::Auth { password: chunks[1] }
    } else {
        MessageModel::Text {
            message: unbracketed(chunks[2]),
            destinations: destination_from_raw(chunks[1]),
        }
    }
}

impl TextDestination {
    /// Reads the destinations from their bracketed text: `[BROADCAST]`, or
    /// targets separated by `", "`. The first and last characters are dropped
    /// whatever they are.
    pub fn from_raw(raw: String) -> (d: TextDestination)
        requires
            raw@.len() >= 2,
        ensures
            d@ == destination_from_raw(raw@),
    {
        let n = raw.as_str().unicode_len();
        let inner = raw.as_str().substring_char(1, n - 1);
        let inner_owned = inner.to_owned();
        let word = String::from_str("BROADCAST");
        proof {
            reveal_strlit("BROADCAST");
            assert(word@ =~= broadcast_word());
            reveal_strlit(", ");
        }
        if inner_owned == word {
            TextDestination::Broadcast
        } else {
            proof {
                assert(", "@ =~= target_separator());
            }
            TextDestination::Targets(split_on(inner, ", "))
        }
    }
}

/// The content of a text message field: the field without its first and
/// last character.
pub fn text_message_content(raw: String) -> (content: String)
    requires
        raw@.len() >= 2,
    ensures
        content@ == unbracketed(raw@),
{
    let n = raw.as_str().unicode_len();
    raw.as_str().substring_char(1, n - 1).to_owned()
}

impl Message {
    /// The wire text of this message.
    pub fn to_raw_message(self) -> (raw: String)
        ensures
            raw@ == message_to_raw(self@),
    {
        proof {
            reveal_strlit("[AUTH]+[");
            reveal_strlit("]");
            reveal_strlit("[CLOSE]");
            reveal_strlit("[TEXT]+[");
            reveal_strlit("BROADCAST");
            reveal_strlit("]+[");
            reveal_strlit(", ");
            assert("[AUTH]+["@ =~= auth_tag() + field_separator() + seq!['[']);
            assert("]"@ =~= seq![']']);
            assert("[CLOSE]"@ =~= close_tag());
            assert("[TEXT]+["@ =~= text_tag() + field_separator() + seq!['[']);
            assert("BROADCAST"@ =~= broadcast_word());
            assert("]+["@ =~= seq![']'] + field_separator() + seq!['[']);
            assert(", "@ =~= target_separator());
        }
        match self {
            Message::Auth { password } => {
                let mut raw = String::from_str("[AUTH]+[");
                raw.append(password.as_str());
                raw.append("]");
                proof {
                    assert(raw@ =~= message_to_raw(MessageModel::Auth { password: password@ }));
                }
                raw
            },
            Message::Close => String::from_str("[CLOSE]"),
            Message::Text { message, destinations } => {
                let ghost d = destinations@;
                let mut raw = String::from_str("[TEXT]+[");
                match destinations {
                    TextDestination::Broadcast => {
                        raw.append("BROADCAST");
                    },
                    TextDestination::Targets(targets) => {
                        let joined = join_with(&targets, ", ");
                        raw.append(joined.as_str());
                    },
                }
                raw.append("]+[");
                raw.append(message.as_str());
                raw.append("]");
                proof {
                    assert(raw@ =~= message_to_raw(
                        MessageModel::Text { message: message@, destinations: d },
                    ));
                }
                raw
            },
        }
    }

    /// Whether `raw` can be read as a message by [`Message::from_raw_message`].
    pub fn accepts_raw_message(raw: &str) -> (accepted: bool)
        ensures
            accepted == raw_message_accepted(raw@),
    {
        proof {
            reveal_strlit("+");
            assert("+"@ =~= field_separator());
            reveal_strlit("[CLOSE]");
            reveal_strlit("[AUTH]");
            assert("[CLOSE]"@ =~= close_tag());
            assert("[AUTH]"@ =~= auth_tag());
            lemma_split_nonempty(raw@, field_separator());
        }
        let chunks = split_on(raw, "+");
        let close = String::from_str("[CLOSE]");
        let auth = String::from_str("[AUTH]");
        proof {
            assert(chunks@[0]@ == split_seq(raw@, field_separator())[0]);
        }
        if chunks[0] == close {
            true
        } else if chunks[0] == auth {
            chunks.len() >= 2
        } else {
            if chunks.len() < 3 {
                false
            } else {
                proof {
                    assert(chunks@[1]@ == split_seq(raw@, field_separator())[1]);
                    assert(chunks@[2]@ == split_seq(raw@, field_separator())[2]);
                }
                chunks[1].as_str().unicode_len() >= 2 && chunks[2].as_str().unicode_len() >= 2
            }
        }
    }

    /// Reads a message from its wire text, splitting it at every `+`.
    pub fn from_raw_message(raw_message: String) -> (m: Message)
        requires
            raw_message_accepted(raw_message@),
        ensures
            m@ == message_from_raw(raw_message@),
    {
        proof {
            reveal_strlit("+");
            assert("+"@ =~= field_separator());
            reveal_strlit("[CLOSE]");
            reveal_strlit("[AUTH]");
            assert("[CLOSE]"@ =~= close_tag());
            assert("[AUTH]"@ =~= auth_tag());
            lemma_split_nonempty(raw_message@, field_separator());
        }
        let chunks = split_on(raw_message.as_str(), "+");
        let close = String::from_str("[CLOSE]");
        let auth = String::from_str("[AUTH]");
        proof {
            assert(chunks@[0]@ == split_seq(raw_message@, field_separator())[0]);
        }
        if chunks[0] == close {
            Message::Close
        } else if chunks[0] == auth {
            proof {
                assert(chunks@[1]@ == split_seq(raw_message@, field_separator())[1]);
            }
            Message::Auth { password: chunks[1].clone() }
        } else {
            proof {
                assert(chunks@[1]@ == split_seq(raw_message@, field_separator())[1]);
                assert(chunks@[2]@ == split_seq(raw_message@, field_separator())[2]);
            }
            Message::Text {
                message: text_message_content(chunks[2].clone()),
                destinations: TextDestination::from_raw(chunks[1].clone()),
            }
        }
    }
}

/// No character of `s` is `c`.
pub open spec fn free_of(s: Seq<char>, c: char) -> bool {
    forall|i: int| 0 <= i < s.len() ==> s[i] != c
}

/// Destinations whose wire text reads back as the same destinations: the
/// broadcast, or at least one target, not the single target `BROADCAST`,
/// where no target holds `+` or `", "`.
pub open spec fn sendable_destination(d: DestinationModel) -> bool {
    match d {
        DestinationModel::Broadcast => true,
        DestinationModel::Targets(targets) => {
            &&& targets.len() >= 1
            &&& targets != seq![broadcast_word()]
            &&& forall|i: int|
                0 <= i < targets.len() ==> free_of(#[trigger] targets[i], '+') && !contains_seq(
                    targets[i],
                    target_separator(),
                )
        },
    }
}

/// Messages whose fields hold no `+`, with sendable destinations.
pub open spec fn sendable_message(m: MessageModel) -> bool {
    match m {
        MessageModel::Close => true,
        MessageModel::Auth { password } => free_of(password, '+'),
        MessageModel::Text { message, destinations } => free_of(message, '+')
            && sendable_destination(destinations),
    }
}

/// What the reader makes of a sent message: the same message, except that an
/// AUTH password keeps the brackets it was sent in.
pub open spec fn received_form(m: MessageModel) -> MessageModel {
    match m {
        MessageModel::Auth { password } => MessageModel::Auth { password: bracketed(password) },
        _ => m,
    }
}

proof fn lemma_free_of_plus(s: Seq<char>)
    requires
        free_of(s, '+'),
    ensures
        !contains_seq(s, field_separator()),
{
    if contains_seq(s, field_separator()) {
        let j = choose|j: int| occurs_at(s, field_separator(), j);
        assert(s.subrange(j, j + 1)[0] == s[j]);
    }
}

proof fn lemma_free_of_bracketed(s: Seq<char>)
    requires
        free_of(s, '+'),
    ensures
        free_of(bracketed(s), '+'),
{
    let b = bracketed(s);
    assert forall|i: int| 0 <= i < b.len() implies b[i] != '+' by {
        if 1 <= i < b.len() - 1 {
            assert(b[i] == s[i - 1]);
        }
    }
}

proof fn lemma_separators_border_free()
    ensures
        border_free(field_separator()),
        border_free(target_separator()),
{
    let t = target_separator();
    assert forall|d: int| 0 < d < t.len() implies #[trigger] t.skip(d) != t.take(t.len() - d) by {
        assert(t.skip(d)[0] == ' ');
        assert(t.take(t.len() - d)[0] == ',');
    }
}

proof fn lemma_join_free_of(parts: Seq<Seq<char>>, sep: Seq<char>, c: char)
    requires
        free_of(sep, c),
        forall|i: int| 0 <= i < parts.len() ==> free_of(#[trigger] parts[i], c),
    ensures
        free_of(join_seq(parts, sep), c),
    decreases parts.len(),
{
    if parts.len() >= 2 {
        let init = parts.drop_last();
        assert forall|i: int| 0 <= i < init.len() implies free_of(#[trigger] init[i], c) by {
            assert(init[i] == parts[i]);
        }
        lemma_join_free_of(init, sep, c);
        let j = join_seq(init, sep);
        let last = parts[parts.len() - 1];
        assert(free_of(last, c));
        let whole = j + sep + last;
        assert forall|i: int| 0 <= i < whole.len() implies whole[i] != c by {
            if i < j.len() {
                assert(whole[i] == j[i]);
            } else if i < j.len() + sep.len() {
                assert(whole[i] == sep[i - j.len()]);
            } else {
                assert(whole[i] == last[i - j.len() - sep.len()]);
            }
        }
    } else if parts.len() == 1 {
        assert(free_of(parts[0], c));
    }
}

proof fn lemma_join_not_broadcast(targets: Seq<Seq<char>>)
    requires
        targets.len() >= 1,
        targets != seq![broadcast_word()],
    ensures
        join_seq(targets, target_separator()) != broadcast_word(),
{
    if targets.len() == 1 {
        assert(targets =~= seq![targets[0]]);
    } else {
        lemma_join_front(targets, target_separator());
        let j = join_seq(targets, target_separator());
        let n = targets[0].len() as int;
        assert(j[n] == ',');
        let w = broadcast_word();
        assert forall|i: int| 0 <= i < w.len() implies w[i] != ',' by {}
    }
}

/// Re-writing the destinations read from a bracketed text gives back the text
/// between the brackets.
pub proof fn lemma_destination_rewrites_to_inner(raw: Seq<char>)
    requires
        raw.len() >= 2,
    ensures
        destination_to_raw(destination_from_raw(raw)) == unbracketed(raw),
{
    let inner = unbracketed(raw);
    if inner != broadcast_word() {
        lemma_join_split(inner, target_separator());
    }
}

/// Sendable destinations, written between brackets, read back as themselves.
pub proof fn lemma_destination_reads_back(d: DestinationModel)
    requires
        sendable_destination(d),
    ensures
        destination_from_raw(bracketed(destination_to_raw(d))) == d,
{
    let x = destination_to_raw(d);
    assert(unbracketed(bracketed(x)) =~= x);
    match d {
        DestinationModel::Broadcast => {},
        DestinationModel::Targets(targets) => {
            lemma_join_not_broadcast(targets);
            lemma_separators_border_free();
            lemma_split_join(targets, target_separator());
        },
    }
}

/// A sendable message, written to the wire, is accepted by the reader and
/// read back as its received form: itself, but for the brackets an AUTH
/// password keeps.
pub proof fn lemma_message_reads_back(m: MessageModel)
    requires
        sendable_message(m),
    ensures
        raw_message_accepted(message_to_raw(m)),
        message_from_raw(message_to_raw(m)) == received_form(m),
{
    let fs = field_separator();
    lemma_separators_border_free();
    assert(text_tag()[1] != close_tag()[1]);
    assert(text_tag()[1] != auth_tag()[1]);
    assert(auth_tag()[1] != close_tag()[1]);
    match m {
        MessageModel::Close => {
            assert(free_of(close_tag(), '+'));
            lemma_free_of_plus(close_tag());
            lemma_split_without_sep(close_tag(), fs);
        },
        MessageModel::Auth { password } => {
            assert(free_of(auth_tag(), '+'));
            lemma_free_of_plus(auth_tag());
            lemma_free_of_bracketed(password);
            lemma_free_of_plus(bracketed(password));
            lemma_split_without_sep(bracketed(password), fs);
            lemma_split_after_piece(auth_tag(), fs, bracketed(password));
            let chunks = split_seq(message_to_raw(m), fs);
            assert(chunks =~= seq![auth_tag(), bracketed(password)]);
        },
        MessageModel::Text { message, destinations } => {
            let d = bracketed(destination_to_raw(destinations));
            let b = bracketed(message);
            assert(free_of(text_tag(), '+'));
            lemma_free_of_plus(text_tag());
            match destinations {
                DestinationModel::Broadcast => {
                    assert(free_of(broadcast_word(), '+'));
                },
                DestinationModel::Targets(targets) => {
                    assert(free_of(target_separator(), '+'));
                    lemma_join_free_of(targets, target_separator(), '+');
                },
            }
            lemma_free_of_bracketed(destination_to_raw(destinations));
            lemma_free_of_plus(d);
            lemma_free_of_bracketed(message);
            lemma_free_of_plus(b);
            lemma_split_without_sep(b, fs);
            lemma_split_after_piece(d, fs, b);
            assert(message_to_raw(m) =~= text_tag() + fs + (d + fs + b));
            lemma_split_after_piece(text_tag(), fs, d + fs + b);
            let chunks = split_seq(message_to_raw(m), fs);
            assert(chunks =~= seq![text_tag(), d, b]);
            assert(unbracketed(b) =~= message);
            lemma_destination_reads_back(destinations);
        },
    }
}

} // verus!
