//! The wire codec of the protocol: every message travels as one JSON object
//! on one line.  The envelope carries `src`, `dest` and `body`; the body
//! carries the payload's fields flattened beside `type`, `msg_id` and
//! `in_reply_to` — there is no nested payload object on the wire.
//!
//! Encoding is specified exactly: the encoder returns the canonical text
//! that the serializer functions define.  Decoding is specified exactly as
//! well: the decoder returns precisely what the mathematical parser of the
//! grammar says, for every input line.  The parser accepts the members of an
//! object in any order and blanks between tokens; a missing `msg_id` or
//! `in_reply_to`, like a `null` one, stands for no value; a member outside
//! the protocol is passed over unread.
//!
//! The grammar is deliberately strict where the protocol's own values are
//! concerned: its numbers are plain unsigned decimals without a leading
//! zero, and its strings know the escapes `\" \\ \/ \n \t \r \b \f`
//! and no `\u` form — node ids and application values never need one.  A
//! protocol field appearing in a payload that does not carry it is rejected,
//! not ignored: such a message is malformed, and the error-handling design
//! makes a malformed message fatal rather than half-read.

use vstd::prelude::*;
use vstd::string::StrSliceExecFns;
use vstd::string::StringExecFns;

use crate::broadcast::BroadcastPayload;
use crate::json::blanks;
use crate::json::lemma_blanks_range;
use crate::json::lemma_skip_value_range;
use crate::json::lemma_string_range;
use crate::json::lemma_uint_range;
use crate::json::null_lit;
use crate::json::skip_value;
use crate::json::sp_blanks;
use crate::json::sp_null;
use crate::json::sp_skip_value;
use crate::json::sp_string;
use crate::json::sp_uint;
use crate::json::string_lit;
use crate::json::uint;
use crate::protocol::Body;
use crate::protocol::BodyView;
use crate::protocol::Init;
use crate::protocol::InitPayload;
use crate::protocol::Message;
use crate::protocol::MessageView;

verus! {

/// The mathematical value of a broadcast payload.
#[allow(inconsistent_fields)]
pub enum BroadcastPayloadView {
    Broadcast { message: usize },
    BroadcastOk,
    Read,
    ReadOk { message: Seq<usize> },
    Topology { topology: Seq<(Seq<char>, Seq<Seq<char>>)> },
    TopologyOk,
    Gossip { seen: Seq<usize> },
}

impl View for BroadcastPayload {
    type V = BroadcastPayloadView;

    open spec fn view(&self) -> BroadcastPayloadView {
        match self {
            BroadcastPayload::Broadcast { message } => BroadcastPayloadView::Broadcast {
                message: *message,
            },
            BroadcastPayload::BroadcastOk => BroadcastPayloadView::BroadcastOk,
            BroadcastPayload::Read => BroadcastPayloadView::Read,
            BroadcastPayload::ReadOk { message } => BroadcastPayloadView::ReadOk {
                message: message@,
            },
            BroadcastPayload::Topology { topology } => BroadcastPayloadView::Topology {
                topology: topology@.map_values(
                    |p: (String, Vec<String>)| (p.0@, p.1.deep_view()),
                ),
            },
            BroadcastPayload::TopologyOk => BroadcastPayloadView::TopologyOk,
            BroadcastPayload::Gossip { seen } => BroadcastPayloadView::Gossip { seen: seen@ },
        }
    }
}

/// The mathematical value of an init request.
pub struct InitView {
    pub node_id: Seq<char>,
    pub node_ids: Seq<Seq<char>>,
}

impl View for Init {
    type V = InitView;

    open spec fn view(&self) -> InitView {
        InitView { node_id: self.node_id@, node_ids: self.node_ids.deep_view() }
    }
}

/// The mathematical value of an init payload.
pub enum InitPayloadView {
    Init(InitView),
    InitOk,
}

impl View for InitPayload {
    type V = InitPayloadView;

    open spec fn view(&self) -> InitPayloadView {
        match self {
            InitPayload::Init(init) => InitPayloadView::Init(init@),
            InitPayload::InitOk => InitPayloadView::InitOk,
        }
    }
}

/// The digit character of a value below ten.
pub open spec fn digit_char(d: nat) -> char {
    if d == 0 {
        '0'
    } else if d == 1 {
        '1'
    } else if d == 2 {
        '2'
    } else if d == 3 {
        '3'
    } else if d == 4 {
        '4'
    } else if d == 5 {
        '5'
    } else if d == 6 {
        '6'
    } else if d == 7 {
        '7'
    } else if d == 8 {
        '8'
    } else {
        '9'
    }
}

/// The canonical decimal text of a number.
pub open spec fn ser_uint(n: nat) -> Seq<char>
    decreases n,
{
    if n < 10 {
        seq![digit_char(n)]
    } else {
        ser_uint(n / 10).push(digit_char(n % 10))
    }
}

/// The canonical text of one string character: the escapes the grammar
/// knows, or the character itself.
pub open spec fn esc_char(c: char) -> Seq<char> {
    if c == '"' {
        seq!['\\', '"']
    } else if c == '\\' {
        seq!['\\', '\\']
    } else if c == '\n' {
        seq!['\\', 'n']
    } else if c == '\t' {
        seq!['\\', 't']
    } else if c == '\r' {
        seq!['\\', 'r']
    } else if c == '\u{8}' {
        seq!['\\', 'b']
    } else if c == '\u{c}' {
        seq!['\\', 'f']
    } else {
        seq![c]
    }
}

/// The canonical text of a string's content.
pub open spec fn esc_all(s: Seq<char>) -> Seq<char>
    decreases s.len(),
{
    if s.len() == 0 {
        Seq::empty()
    } else {
        esc_all(s.drop_last()) + esc_char(s.last())
    }
}

/// The canonical text of a quoted string.
pub open spec fn ser_string(s: Seq<char>) -> Seq<char> {
    seq!['"'] + esc_all(s) + seq!['"']
}

/// The canonical text of an optional number: `null` for no value.
pub open spec fn ser_opt_uint(o: Option<usize>) -> Seq<char> {
    match o {
        None => "null"@,
        Some(v) => ser_uint(v as nat),
    }
}

/// The canonical text of the values inside a number list.
pub open spec fn ser_uint_items(l: Seq<usize>) -> Seq<char>
    decreases l.len(),
{
    if l.len() == 0 {
        Seq::empty()
    } else if l.len() == 1 {
        ser_uint(l[0] as nat)
    } else {
        ser_uint_items(l.drop_last()) + seq![','] + ser_uint(l.last() as nat)
    }
}

/// The canonical text of a number list.
pub open spec fn ser_uint_list(l: Seq<usize>) -> Seq<char> {
    seq!['['] + ser_uint_items(l) + seq![']']
}

/// The canonical text of the values inside a string list.
pub open spec fn ser_string_items(l: Seq<Seq<char>>) -> Seq<char>
    decreases l.len(),
{
    if l.len() == 0 {
        Seq::empty()
    } else if l.len() == 1 {
        ser_string(l[0])
    } else {
        ser_string_items(l.drop_last()) + seq![','] + ser_string(l.last())
    }
}

/// The canonical text of a string list.
pub open spec fn ser_string_list(l: Seq<Seq<char>>) -> Seq<char> {
    seq!['['] + ser_string_items(l) + seq![']']
}

/// The canonical text of the members of a topology object.
pub open spec fn ser_topo_items(t: Seq<(Seq<char>, Seq<Seq<char>>)>) -> Seq<char>
    decreases t.len(),
{
    if t.len() == 0 {
        Seq::empty()
    } else if t.len() == 1 {
        ser_string(t[0].0) + seq![':'] + ser_string_list(t[0].1)
    } else {
        ser_topo_items(t.drop_last()) + seq![','] + ser_string(t.last().0) + seq![':']
            + ser_string_list(t.last().1)
    }
}

/// The canonical text of a topology object.
pub open spec fn ser_topo(t: Seq<(Seq<char>, Seq<Seq<char>>)>) -> Seq<char> {
    seq!['{'] + ser_topo_items(t) + seq!['}']
}

/// The canonical text of the ids of a body: both always written, `null`
/// standing for an absent one.
pub open spec fn ser_body_ids(id: Option<usize>, in_reply_to: Option<usize>) -> Seq<char> {
    ",\"msg_id\":"@ + ser_opt_uint(id) + ",\"in_reply_to\":"@ + ser_opt_uint(in_reply_to) + "}"@
}

/// The canonical text of a broadcast body: the payload's fields flattened
/// beside the type tag and the two ids.
pub open spec fn ser_body_broadcast(b: BodyView<BroadcastPayloadView>) -> Seq<char> {
    match b.payload {
        BroadcastPayloadView::Broadcast { message } => "{\"type\":\"broadcast\",\"message\":"@
            + ser_uint(message as nat) + ser_body_ids(b.id, b.in_reply_to),
        BroadcastPayloadView::BroadcastOk => "{\"type\":\"broadcast_ok\""@ + ser_body_ids(
            b.id,
            b.in_reply_to,
        ),
        BroadcastPayloadView::Read => "{\"type\":\"read\""@ + ser_body_ids(b.id, b.in_reply_to),
        BroadcastPayloadView::ReadOk { message } => "{\"type\":\"read_ok\",\"message\":"@
            + ser_uint_list(message) + ser_body_ids(b.id, b.in_reply_to),
        BroadcastPayloadView::Topology { topology } => "{\"type\":\"topology\",\"topology\":"@
            + ser_topo(topology) + ser_body_ids(b.id, b.in_reply_to),
        BroadcastPayloadView::TopologyOk => "{\"type\":\"topology_ok\""@ + ser_body_ids(
            b.id,
            b.in_reply_to,
        ),
        BroadcastPayloadView::Gossip { seen } => "{\"type\":\"gossip\",\"seen\":"@ + ser_uint_list(
            seen,
        ) + ser_body_ids(b.id, b.in_reply_to),
    }
}

/// The canonical text of an init body.
pub open spec fn ser_body_init(b: BodyView<InitPayloadView>) -> Seq<char> {
    match b.payload {
        InitPayloadView::Init(init) => "{\"type\":\"init\",\"node_id\":"@ + ser_string(
            init.node_id,
        ) + ",\"node_ids\":"@ + ser_string_list(init.node_ids) + ser_body_ids(b.id, b.in_reply_to),
        InitPayloadView::InitOk => "{\"type\":\"init_ok\""@ + ser_body_ids(b.id, b.in_reply_to),
    }
}

/// The canonical text of a broadcast envelope.
pub open spec fn ser_msg_broadcast(m: MessageView<BroadcastPayloadView>) -> Seq<char> {
    "{\"src\":"@ + ser_string(m.src) + ",\"dest\":"@ + ser_string(m.dst) + ",\"body\":"@
        + ser_body_broadcast(m.body) + "}"@
}

/// The canonical text of an init envelope.
pub open spec fn ser_msg_init(m: MessageView<InitPayloadView>) -> Seq<char> {
    "{\"src\":"@ + ser_string(m.src) + ",\"dest\":"@ + ser_string(m.dst) + ",\"body\":"@
        + ser_body_init(m.body) + "}"@
}

/// An optional number on the wire: `null` or a number.
pub open spec fn sp_opt_uint(s: Seq<char>, i: int) -> Option<(Option<usize>, int)> {
    match sp_null(s, i) {
        Some(end) => Some((None, end)),
        None => match sp_uint(s, i) {
            Some(p) => Some((Some(p.0), p.1)),
            None => None,
        },
    }
}

/// The items of a number list, after its first number was found to start at
/// `i`: numbers separated by commas, closed by a bracket.
pub open spec fn sp_uint_items(s: Seq<char>, i: int, acc: Seq<usize>) -> Option<(Seq<usize>, int)>
    decreases s.len() - i,
    when 0 <= i <= s.len()
    via sp_uint_items_dec
{
    match sp_uint(s, i) {
        None => None,
        Some(p) => {
            let j = sp_blanks(s, p.1);
            if j < s.len() && s[j] == ']' {
                Some((acc.push(p.0), j + 1))
            } else if j < s.len() && s[j] == ',' {
                sp_uint_items(s, sp_blanks(s, j + 1), acc.push(p.0))
            } else {
                None
            }
        },
    }
}

#[via_fn]
proof fn sp_uint_items_dec(s: Seq<char>, i: int, acc: Seq<usize>) {
    if sp_uint(s, i) is Some {
        lemma_uint_range(s, i);
        let p = sp_uint(s, i)->0;
        lemma_blanks_range(s, p.1);
        let j = sp_blanks(s, p.1);
        if j < s.len() && s[j] == ',' {
            lemma_blanks_range(s, j + 1);
        }
    }
}

/// A number list: brackets around zero or more numbers.
pub open spec fn sp_uint_list(s: Seq<char>, i: int) -> Option<(Seq<usize>, int)> {
    if 0 <= i < s.len() && s[i] == '[' {
        let j = sp_blanks(s, i + 1);
        if j < s.len() && s[j] == ']' {
            Some((Seq::empty(), j + 1))
        } else {
            sp_uint_items(s, j, Seq::empty())
        }
    } else {
        None
    }
}

/// The items of a string list.
pub open spec fn sp_string_items(s: Seq<char>, i: int, acc: Seq<Seq<char>>) -> Option<
    (Seq<Seq<char>>, int),
>
    decreases s.len() - i,
    when 0 <= i <= s.len()
    via sp_string_items_dec
{
    match sp_string(s, i) {
        None => None,
        Some(p) => {
            let j = sp_blanks(s, p.1);
            if j < s.len() && s[j] == ']' {
                Some((acc.push(p.0), j + 1))
            } else if j < s.len() && s[j] == ',' {
                sp_string_items(s, sp_blanks(s, j + 1), acc.push(p.0))
            } else {
                None
            }
        },
    }
}

#[via_fn]
proof fn sp_string_items_dec(s: Seq<char>, i: int, acc: Seq<Seq<char>>) {
    if sp_string(s, i) is Some {
        lemma_string_range(s, i);
        let p = sp_string(s, i)->0;
        lemma_blanks_range(s, p.1);
        let j = sp_blanks(s, p.1);
        if j < s.len() && s[j] == ',' {
            lemma_blanks_range(s, j + 1);
        }
    }
}

/// A string list: brackets around zero or more strings.
pub open spec fn sp_string_list(s: Seq<char>, i: int) -> Option<(Seq<Seq<char>>, int)> {
    if 0 <= i < s.len() && s[i] == '[' {
        let j = sp_blanks(s, i + 1);
        if j < s.len() && s[j] == ']' {
            Some((Seq::empty(), j + 1))
        } else {
            sp_string_items(s, j, Seq::empty())
        }
    } else {
        None
    }
}

/// A string list ends past where it starts and within the text.
pub proof fn lemma_string_list_range(s: Seq<char>, i: int)
    requires
        sp_string_list(s, i) is Some,
    ensures
        i < (sp_string_list(s, i)->0).1 <= s.len(),
{
    lemma_blanks_range(s, i + 1);
    let j = sp_blanks(s, i + 1);
    if !(j < s.len() && s[j] == ']') {
        lemma_string_items_range(s, j, Seq::empty());
    }
}

/// String list items end past where they start and within the text.
pub proof fn lemma_string_items_range(s: Seq<char>, i: int, acc: Seq<Seq<char>>)
    requires
        0 <= i <= s.len(),
        sp_string_items(s, i, acc) is Some,
    ensures
        i < (sp_string_items(s, i, acc)->0).1 <= s.len(),
    decreases s.len() - i,
{
    lemma_string_range(s, i);
    let p = sp_string(s, i)->0;
    lemma_blanks_range(s, p.1);
    let j = sp_blanks(s, p.1);
    if j < s.len() && s[j] == ']' {
    } else {
        lemma_blanks_range(s, j + 1);
        lemma_string_items_range(s, sp_blanks(s, j + 1), acc.push(p.0));
    }
}

/// Number list items end past where they start and within the text.
pub proof fn lemma_uint_items_range(s: Seq<char>, i: int, acc: Seq<usize>)
    requires
        0 <= i <= s.len(),
        sp_uint_items(s, i, acc) is Some,
    ensures
        i < (sp_uint_items(s, i, acc)->0).1 <= s.len(),
    decreases s.len() - i,
{
    lemma_uint_range(s, i);
    let p = sp_uint(s, i)->0;
    lemma_blanks_range(s, p.1);
    let j = sp_blanks(s, p.1);
    if j < s.len() && s[j] == ']' {
    } else {
        lemma_blanks_range(s, j + 1);
        lemma_uint_items_range(s, sp_blanks(s, j + 1), acc.push(p.0));
    }
}

/// A number list ends past where it starts and within the text.
pub proof fn lemma_uint_list_range(s: Seq<char>, i: int)
    requires
        sp_uint_list(s, i) is Some,
    ensures
        i < (sp_uint_list(s, i)->0).1 <= s.len(),
{
    lemma_blanks_range(s, i + 1);
    let j = sp_blanks(s, i + 1);
    if !(j < s.len() && s[j] == ']') {
        lemma_uint_items_range(s, j, Seq::empty());
    }
}

/// The members of a topology object, each a node id and its neighbor list.
pub open spec fn sp_topo_items(
    s: Seq<char>,
    i: int,
    acc: Seq<(Seq<char>, Seq<Seq<char>>)>,
) -> Option<(Seq<(Seq<char>, Seq<Seq<char>>)>, int)>
    decreases s.len() - i,
    when 0 <= i <= s.len()
    via sp_topo_items_dec
{
    match sp_string(s, i) {
        None => None,
        Some(k) => {
            let j = sp_blanks(s, k.1);
            if j < s.len() && s[j] == ':' {
                match sp_string_list(s, sp_blanks(s, j + 1)) {
                    None => None,
                    Some(v) => {
                        let j2 = sp_blanks(s, v.1);
                        if j2 < s.len() && s[j2] == '}' {
                            Some((acc.push((k.0, v.0)), j2 + 1))
                        } else if j2 < s.len() && s[j2] == ',' {
                            sp_topo_items(s, sp_blanks(s, j2 + 1), acc.push((k.0, v.0)))
                        } else {
                            None
                        }
                    },
                }
            } else {
                None
            }
        },
    }
}

#[via_fn]
proof fn sp_topo_items_dec(s: Seq<char>, i: int, acc: Seq<(Seq<char>, Seq<Seq<char>>)>) {
    if sp_string(s, i) is Some {
        lemma_string_range(s, i);
        let k = sp_string(s, i)->0;
        lemma_blanks_range(s, k.1);
        let j = sp_blanks(s, k.1);
        if j < s.len() && s[j] == ':' {
            lemma_blanks_range(s, j + 1);
            if sp_string_list(s, sp_blanks(s, j + 1)) is Some {
                lemma_string_list_range(s, sp_blanks(s, j + 1));
                let v = sp_string_list(s, sp_blanks(s, j + 1))->0;
                lemma_blanks_range(s, v.1);
                let j2 = sp_blanks(s, v.1);
                if j2 < s.len() && s[j2] == ',' {
                    lemma_blanks_range(s, j2 + 1);
                }
            }
        }
    }
}

/// A topology object: braces around zero or more members.
pub open spec fn sp_topo(s: Seq<char>, i: int) -> Option<(Seq<(Seq<char>, Seq<Seq<char>>)>, int)> {
    if 0 <= i < s.len() && s[i] == '{' {
        let j = sp_blanks(s, i + 1);
        if j < s.len() && s[j] == '}' {
            Some((Seq::empty(), j + 1))
        } else {
            sp_topo_items(s, j, Seq::empty())
        }
    } else {
        None
    }
}

/// The fields a body object may carry, each one at most once, as read off
/// the wire before the type tag decides which combination is meaningful.
pub struct BodySlots {
    pub type_tag: Option<Seq<char>>,
    pub msg_id: Option<Option<usize>>,
    pub in_reply_to: Option<Option<usize>>,
    pub message_num: Option<usize>,
    pub message_list: Option<Seq<usize>>,
    pub topology: Option<Seq<(Seq<char>, Seq<Seq<char>>)>>,
    pub seen: Option<Seq<usize>>,
    pub node_id: Option<Seq<char>>,
    pub node_ids: Option<Seq<Seq<char>>>,
}

/// No field read yet.
pub open spec fn empty_slots() -> BodySlots {
    BodySlots {
        type_tag: None,
        msg_id: None,
        in_reply_to: None,
        message_num: None,
        message_list: None,
        topology: None,
        seen: None,
        node_id: None,
        node_ids: None,
    }
}

/// An optional number ends past where it starts and within the text.
pub proof fn lemma_opt_uint_range(s: Seq<char>, i: int)
    requires
        sp_opt_uint(s, i) is Some,
    ensures
        i < (sp_opt_uint(s, i)->0).1 <= s.len(),
{
    if sp_null(s, i) is None {
        lemma_uint_range(s, i);
    }
}

/// Topology members end past where they start and within the text.
pub proof fn lemma_topo_items_range(s: Seq<char>, i: int, acc: Seq<(Seq<char>, Seq<Seq<char>>)>)
    requires
        0 <= i <= s.len(),
        sp_topo_items(s, i, acc) is Some,
    ensures
        i < (sp_topo_items(s, i, acc)->0).1 <= s.len(),
    decreases s.len() - i,
{
    lemma_string_range(s, i);
    let k = sp_string(s, i)->0;
    lemma_blanks_range(s, k.1);
    let j = sp_blanks(s, k.1);
    lemma_blanks_range(s, j + 1);
    lemma_string_list_range(s, sp_blanks(s, j + 1));
    let v = sp_string_list(s, sp_blanks(s, j + 1))->0;
    lemma_blanks_range(s, v.1);
    let j2 = sp_blanks(s, v.1);
    if j2 < s.len() && s[j2] == '}' {
    } else {
        lemma_blanks_range(s, j2 + 1);
        lemma_topo_items_range(s, sp_blanks(s, j2 + 1), acc.push((k.0, v.0)));
    }
}

/// A topology object ends past where it starts and within the text.
pub proof fn lemma_topo_range(s: Seq<char>, i: int)
    requires
        sp_topo(s, i) is Some,
    ensures
        i < (sp_topo(s, i)->0).1 <= s.len(),
{
    lemma_blanks_range(s, i + 1);
    let j = sp_blanks(s, i + 1);
    if !(j < s.len() && s[j] == '}') {
        lemma_topo_items_range(s, j, Seq::empty());
    }
}

/// The field names a body object may carry; any other member is passed
/// over unread, as a codec that tolerates additions does.
pub open spec fn known_body_field(k0: Seq<char>) -> bool {
    ||| k0 == "type"@
    ||| k0 == "msg_id"@
    ||| k0 == "in_reply_to"@
    ||| k0 == "message"@
    ||| k0 == "topology"@
    ||| k0 == "seen"@
    ||| k0 == "node_id"@
    ||| k0 == "node_ids"@
}

/// One body field read at position `v` under the field name `k0`: the slot
/// it fills, each field accepted at most once; a `message` field may be a
/// number (a broadcast) or a list (a read reply), told apart by its first
/// character.  An unknown field name is not part of the grammar.
pub open spec fn sp_body_field(s: Seq<char>, v: int, k0: Seq<char>, sl: BodySlots) -> Option<
    (BodySlots, int),
> {
    if k0 == "type"@ {
        if sl.type_tag is None {
            match sp_string(s, v) {
                Some(p) => Some((BodySlots { type_tag: Some(p.0), ..sl }, p.1)),
                None => None,
            }
        } else {
            None
        }
    } else if k0 == "msg_id"@ {
        if sl.msg_id is None {
            match sp_opt_uint(s, v) {
                Some(p) => Some((BodySlots { msg_id: Some(p.0), ..sl }, p.1)),
                None => None,
            }
        } else {
            None
        }
    } else if k0 == "in_reply_to"@ {
        if sl.in_reply_to is None {
            match sp_opt_uint(s, v) {
                Some(p) => Some((BodySlots { in_reply_to: Some(p.0), ..sl }, p.1)),
                None => None,
            }
        } else {
            None
        }
    } else if k0 == "message"@ {
        if v < s.len() && s[v] == '[' {
            if sl.message_list is None {
                match sp_uint_list(s, v) {
                    Some(p) => Some((BodySlots { message_list: Some(p.0), ..sl }, p.1)),
                    None => None,
                }
            } else {
                None
            }
        } else {
            if sl.message_num is None {
                match sp_uint(s, v) {
                    Some(p) => Some((BodySlots { message_num: Some(p.0), ..sl }, p.1)),
                    None => None,
                }
            } else {
                None
            }
        }
    } else if k0 == "topology"@ {
        if sl.topology is None {
            match sp_topo(s, v) {
                Some(p) => Some((BodySlots { topology: Some(p.0), ..sl }, p.1)),
                None => None,
            }
        } else {
            None
        }
    } else if k0 == "seen"@ {
        if sl.seen is None {
            match sp_uint_list(s, v) {
                Some(p) => Some((BodySlots { seen: Some(p.0), ..sl }, p.1)),
                None => None,
            }
        } else {
            None
        }
    } else if k0 == "node_id"@ {
        if sl.node_id is None {
            match sp_string(s, v) {
                Some(p) => Some((BodySlots { node_id: Some(p.0), ..sl }, p.1)),
                None => None,
            }
        } else {
            None
        }
    } else if k0 == "node_ids"@ {
        if sl.node_ids is None {
            match sp_string_list(s, v) {
                Some(p) => Some((BodySlots { node_ids: Some(p.0), ..sl }, p.1)),
                None => None,
            }
        } else {
            None
        }
    } else {
        None
    }
}

/// A body field's value ends past where it starts and within the text.
pub proof fn lemma_body_field_range(s: Seq<char>, v: int, k0: Seq<char>, sl: BodySlots)
    requires
        0 <= v <= s.len(),
        sp_body_field(s, v, k0, sl) is Some,
    ensures
        v < (sp_body_field(s, v, k0, sl)->0).1 <= s.len(),
{
    if sp_string(s, v) is Some {
        lemma_string_range(s, v);
    }
    if sp_opt_uint(s, v) is Some {
        lemma_opt_uint_range(s, v);
    }
    if sp_uint(s, v) is Some {
        lemma_uint_range(s, v);
    }
    if sp_uint_list(s, v) is Some {
        lemma_uint_list_range(s, v);
    }
    if sp_string_list(s, v) is Some {
        lemma_string_list_range(s, v);
    }
    if sp_topo(s, v) is Some {
        lemma_topo_range(s, v);
    }
}

/// The members of a body object: field names mapped into slots, separated by
/// commas, closed by a brace.
pub open spec fn sp_body_items(s: Seq<char>, i: int, sl: BodySlots) -> Option<(BodySlots, int)>
    decreases s.len() - i,
    when 0 <= i <= s.len()
    via sp_body_items_dec
{
    match sp_string(s, i) {
        None => None,
        Some(k) => {
            let j = sp_blanks(s, k.1);
            if j < s.len() && s[j] == ':' {
                let v = sp_blanks(s, j + 1);
                let stepped: Option<(BodySlots, int)> = if known_body_field(k.0) {
                    sp_body_field(s, v, k.0, sl)
                } else {
                    match sp_skip_value(s, v) {
                        None => None,
                        Some(e) => Some((sl, e)),
                    }
                };
                match stepped {
                    None => None,
                    Some(st) => {
                        let j2 = sp_blanks(s, st.1);
                        if j2 < s.len() && s[j2] == '}' {
                            Some((st.0, j2 + 1))
                        } else if j2 < s.len() && s[j2] == ',' {
                            sp_body_items(s, sp_blanks(s, j2 + 1), st.0)
                        } else {
                            None
                        }
                    },
                }
            } else {
                None
            }
        },
    }
}

#[via_fn]
proof fn sp_body_items_dec(s: Seq<char>, i: int, sl: BodySlots) {
    if sp_string(s, i) is Some {
        lemma_string_range(s, i);
        let k = sp_string(s, i)->0;
        lemma_blanks_range(s, k.1);
        let j = sp_blanks(s, k.1);
        if j < s.len() && s[j] == ':' {
            lemma_blanks_range(s, j + 1);
            let v = sp_blanks(s, j + 1);
            if sp_body_field(s, v, k.0, sl) is Some {
                lemma_body_field_range(s, v, k.0, sl);
                let st = sp_body_field(s, v, k.0, sl)->0;
                lemma_blanks_range(s, st.1);
                let j2 = sp_blanks(s, st.1);
                if j2 < s.len() && s[j2] == ',' {
                    lemma_blanks_range(s, j2 + 1);
                }
            }
            if sp_skip_value(s, v) is Some {
                lemma_skip_value_range(s, v);
                let e = sp_skip_value(s, v)->0;
                lemma_blanks_range(s, e);
                let j2 = sp_blanks(s, e);
                if j2 < s.len() && s[j2] == ',' {
                    lemma_blanks_range(s, j2 + 1);
                }
            }
        }
    }
}

/// Body members end past where they start and within the text.
pub proof fn lemma_body_items_range(s: Seq<char>, i: int, sl: BodySlots)
    requires
        0 <= i <= s.len(),
        sp_body_items(s, i, sl) is Some,
    ensures
        i < (sp_body_items(s, i, sl)->0).1 <= s.len(),
    decreases s.len() - i,
{
    lemma_string_range(s, i);
    let k = sp_string(s, i)->0;
    lemma_blanks_range(s, k.1);
    let j = sp_blanks(s, k.1);
    let v = sp_blanks(s, j + 1);
    lemma_blanks_range(s, j + 1);
    let e1: int = if known_body_field(k.0) {
        lemma_body_field_range(s, v, k.0, sl);
        (sp_body_field(s, v, k.0, sl)->0).1
    } else {
        lemma_skip_value_range(s, v);
        sp_skip_value(s, v)->0
    };
    let sl1 = if known_body_field(k.0) {
        (sp_body_field(s, v, k.0, sl)->0).0
    } else {
        sl
    };
    lemma_blanks_range(s, e1);
    let j2 = sp_blanks(s, e1);
    if j2 < s.len() && s[j2] == '}' {
    } else {
        lemma_blanks_range(s, j2 + 1);
        lemma_body_items_range(s, sp_blanks(s, j2 + 1), sl1);
    }
}

/// A body object: braces around its members; an empty body reads as no
/// fields at all.
pub open spec fn sp_body(s: Seq<char>, i: int) -> Option<(BodySlots, int)> {
    if 0 <= i < s.len() && s[i] == '{' {
        let j = sp_blanks(s, i + 1);
        if j < s.len() && s[j] == '}' {
            Some((empty_slots(), j + 1))
        } else {
            sp_body_items(s, j, empty_slots())
        }
    } else {
        None
    }
}

/// A body ends past where it starts and within the text.
pub proof fn lemma_body_range(s: Seq<char>, i: int)
    requires
        sp_body(s, i) is Some,
    ensures
        i < (sp_body(s, i)->0).1 <= s.len(),
{
    lemma_blanks_range(s, i + 1);
    let j = sp_blanks(s, i + 1);
    if !(j < s.len() && s[j] == '}') {
        lemma_body_items_range(s, j, empty_slots());
    }
}

/// The three members of an envelope, as read off the wire.
#[verifier::ext_equal]
pub struct EnvelopeSlots {
    pub src: Option<Seq<char>>,
    pub dst: Option<Seq<char>>,
    pub body: Option<BodySlots>,
}

/// The field names an envelope object may carry; any other member is passed
/// over unread.
pub open spec fn known_env_field(k0: Seq<char>) -> bool {
    ||| k0 == "src"@
    ||| k0 == "dest"@
    ||| k0 == "body"@
}

/// One envelope field read at position `v` under the field name `k0`.
pub open spec fn sp_env_field(s: Seq<char>, v: int, k0: Seq<char>, sl: EnvelopeSlots) -> Option<
    (EnvelopeSlots, int),
> {
    if k0 == "src"@ {
        if sl.src is None {
            match sp_string(s, v) {
                Some(p) => Some((EnvelopeSlots { src: Some(p.0), ..sl }, p.1)),
                None => None,
            }
        } else {
            None
        }
    } else if k0 == "dest"@ {
        if sl.dst is None {
            match sp_string(s, v) {
                Some(p) => Some((EnvelopeSlots { dst: Some(p.0), ..sl }, p.1)),
                None => None,
            }
        } else {
            None
        }
    } else if k0 == "body"@ {
        if sl.body is None {
            match sp_body(s, v) {
                Some(p) => Some((EnvelopeSlots { body: Some(p.0), ..sl }, p.1)),
                None => None,
            }
        } else {
            None
        }
    } else {
        None
    }
}

/// An envelope field's value ends past where it starts and within the text.
pub proof fn lemma_env_field_range(s: Seq<char>, v: int, k0: Seq<char>, sl: EnvelopeSlots)
    requires
        0 <= v <= s.len(),
        sp_env_field(s, v, k0, sl) is Some,
    ensures
        v < (sp_env_field(s, v, k0, sl)->0).1 <= s.len(),
{
    if sp_string(s, v) is Some {
        lemma_string_range(s, v);
    }
    if sp_body(s, v) is Some {
        lemma_body_range(s, v);
    }
}

/// The members of an envelope object.
pub open spec fn sp_env_items(s: Seq<char>, i: int, sl: EnvelopeSlots) -> Option<
    (EnvelopeSlots, int),
>
    decreases s.len() - i,
    when 0 <= i <= s.len()
    via sp_env_items_dec
{
    match sp_string(s, i) {
        None => None,
        Some(k) => {
            let j = sp_blanks(s, k.1);
            if j < s.len() && s[j] == ':' {
                let v = sp_blanks(s, j + 1);
                let stepped: Option<(EnvelopeSlots, int)> = if known_env_field(k.0) {
                    sp_env_field(s, v, k.0, sl)
                } else {
                    match sp_skip_value(s, v) {
                        None => None,
                        Some(e) => Some((sl, e)),
                    }
                };
                match stepped {
                    None => None,
                    Some(st) => {
                        let j2 = sp_blanks(s, st.1);
                        if j2 < s.len() && s[j2] == '}' {
                            Some((st.0, j2 + 1))
                        } else if j2 < s.len() && s[j2] == ',' {
                            sp_env_items(s, sp_blanks(s, j2 + 1), st.0)
                        } else {
                            None
                        }
                    },
                }
            } else {
                None
            }
        },
    }
}

#[via_fn]
proof fn sp_env_items_dec(s: Seq<char>, i: int, sl: EnvelopeSlots) {
    if sp_string(s, i) is Some {
        lemma_string_range(s, i);
        let k = sp_string(s, i)->0;
        lemma_blanks_range(s, k.1);
        let j = sp_blanks(s, k.1);
        if j < s.len() && s[j] == ':' {
            lemma_blanks_range(s, j + 1);
            let v = sp_blanks(s, j + 1);
            if sp_env_field(s, v, k.0, sl) is Some {
                lemma_env_field_range(s, v, k.0, sl);
                let st = sp_env_field(s, v, k.0, sl)->0;
                lemma_blanks_range(s, st.1);
                let j2 = sp_blanks(s, st.1);
                if j2 < s.len() && s[j2] == ',' {
                    lemma_blanks_range(s, j2 + 1);
                }
            }
            if sp_skip_value(s, v) is Some {
                lemma_skip_value_range(s, v);
                let e = sp_skip_value(s, v)->0;
                lemma_blanks_range(s, e);
                let j2 = sp_blanks(s, e);
                if j2 < s.len() && s[j2] == ',' {
                    lemma_blanks_range(s, j2 + 1);
                }
            }
        }
    }
}

/// An envelope object: braces around its three members, which must all be
/// present — source, destination, body.
pub open spec fn sp_envelope(s: Seq<char>, i: int) -> Option<
    ((Seq<char>, Seq<char>, BodySlots), int),
> {
    if 0 <= i < s.len() && s[i] == '{' {
        let j = sp_blanks(s, i + 1);
        match sp_env_items(
            s,
            j,
            EnvelopeSlots { src: None, dst: None, body: None },
        ) {
            None => None,
            Some(p) => match (p.0.src, p.0.dst, p.0.body) {
                (Some(src), Some(dst), Some(body)) => Some(((src, dst, body), p.1)),
                _ => None,
            },
        }
    } else {
        None
    }
}

/// An absent or `null` id is no id.
pub open spec fn flat_opt(o: Option<Option<usize>>) -> Option<usize> {
    match o {
        None => None,
        Some(x) => x,
    }
}

/// Which broadcast body a set of read fields means: the type tag picks the
/// payload, the fields the payload needs must be there, and no field of
/// another payload may be — otherwise the body is not part of the grammar.
pub open spec fn body_from_slots_broadcast(sl: BodySlots) -> Option<
    BodyView<BroadcastPayloadView>,
> {
    match sl.type_tag {
        None => None,
        Some(tag) => {
            let id = flat_opt(sl.msg_id);
            let irt = flat_opt(sl.in_reply_to);
            if tag == "broadcast"@ {
                match sl.message_num {
                    Some(message) => if sl.message_list is None && sl.topology is None
                        && sl.seen is None && sl.node_id is None && sl.node_ids is None {
                        Some(
                            BodyView {
                                id,
                                in_reply_to: irt,
                                payload: BroadcastPayloadView::Broadcast { message },
                            },
                        )
                    } else {
                        None
                    },
                    None => None,
                }
            } else if tag == "broadcast_ok"@ {
                if sl.message_num is None && sl.message_list is None && sl.topology is None
                    && sl.seen is None && sl.node_id is None && sl.node_ids is None {
                    Some(
                        BodyView {
                            id,
                            in_reply_to: irt,
                            payload: BroadcastPayloadView::BroadcastOk,
                        },
                    )
                } else {
                    None
                }
            } else if tag == "read"@ {
                if sl.message_num is None && sl.message_list is None && sl.topology is None
                    && sl.seen is None && sl.node_id is None && sl.node_ids is None {
                    Some(BodyView { id, in_reply_to: irt, payload: BroadcastPayloadView::Read })
                } else {
                    None
                }
            } else if tag == "read_ok"@ {
                match sl.message_list {
                    Some(message) => if sl.message_num is None && sl.topology is None
                        && sl.seen is None && sl.node_id is None && sl.node_ids is None {
                        Some(
                            BodyView {
                                id,
                                in_reply_to: irt,
                                payload: BroadcastPayloadView::ReadOk { message },
                            },
                        )
                    } else {
                        None
                    },
                    None => None,
                }
            } else if tag == "topology"@ {
                match sl.topology {
                    Some(topology) => if sl.message_num is None && sl.message_list is None
                        && sl.seen is None && sl.node_id is None && sl.node_ids is None {
                        Some(
                            BodyView {
                                id,
                                in_reply_to: irt,
                                payload: BroadcastPayloadView::Topology { topology },
                            },
                        )
                    } else {
                        None
                    },
                    None => None,
                }
            } else if tag == "topology_ok"@ {
                if sl.message_num is None && sl.message_list is None && sl.topology is None
                    && sl.seen is None && sl.node_id is None && sl.node_ids is None {
                    Some(
                        BodyView {
                            id,
                            in_reply_to: irt,
                            payload: BroadcastPayloadView::TopologyOk,
                        },
                    )
                } else {
                    None
                }
            } else if tag == "gossip"@ {
                match sl.seen {
                    Some(seen) => if sl.message_num is None && sl.message_list is None
                        && sl.topology is None && sl.node_id is None && sl.node_ids is None {
                        Some(
                            BodyView {
                                id,
                                in_reply_to: irt,
                                payload: BroadcastPayloadView::Gossip { seen },
                            },
                        )
                    } else {
                        None
                    },
                    None => None,
                }
            } else {
                None
            }
        },
    }
}

/// Which init body a set of read fields means.
pub open spec fn body_from_slots_init(sl: BodySlots) -> Option<BodyView<InitPayloadView>> {
    match sl.type_tag {
        None => None,
        Some(tag) => {
            let id = flat_opt(sl.msg_id);
            let irt = flat_opt(sl.in_reply_to);
            if tag == "init"@ {
                match (sl.node_id, sl.node_ids) {
                    (Some(node_id), Some(node_ids)) => if sl.message_num is None
                        && sl.message_list is None && sl.topology is None && sl.seen is None {
                        Some(
                            BodyView {
                                id,
                                in_reply_to: irt,
                                payload: InitPayloadView::Init(InitView { node_id, node_ids }),
                            },
                        )
                    } else {
                        None
                    },
                    _ => None,
                }
            } else if tag == "init_ok"@ {
                if sl.message_num is None && sl.message_list is None && sl.topology is None
                    && sl.seen is None && sl.node_id is None && sl.node_ids is None {
                    Some(BodyView { id, in_reply_to: irt, payload: InitPayloadView::InitOk })
                } else {
                    None
                }
            } else {
                None
            }
        },
    }
}

/// A whole line as a broadcast envelope: the envelope object, blanks, the
/// end of the line, and a field set that means a broadcast body.
pub open spec fn sp_message_broadcast(s: Seq<char>) -> Option<MessageView<BroadcastPayloadView>> {
    match sp_envelope(s, sp_blanks(s, 0)) {
        None => None,
        Some(p) => {
            if s.len() > 0 && sp_blanks(s, p.1) == s.len() {
                match body_from_slots_broadcast(p.0.2) {
                    None => None,
                    Some(body) => Some(MessageView { src: p.0.0, dst: p.0.1, body }),
                }
            } else {
                None
            }
        },
    }
}

/// A whole line as an init envelope.
pub open spec fn sp_message_init(s: Seq<char>) -> Option<MessageView<InitPayloadView>> {
    match sp_envelope(s, sp_blanks(s, 0)) {
        None => None,
        Some(p) => {
            if s.len() > 0 && sp_blanks(s, p.1) == s.len() {
                match body_from_slots_init(p.0.2) {
                    None => None,
                    Some(body) => Some(MessageView { src: p.0.0, dst: p.0.1, body }),
                }
            } else {
                None
            }
        },
    }
}

/// The digit text of a value below ten.
fn digit_str(d: usize) -> (r: &'static str)
    requires
        d < 10,
    ensures
        r@ == seq![digit_char(d as nat)],
{
    if d == 0 {
        proof {
            reveal_strlit("0");
            assert("0"@ =~= seq![digit_char(0)]);
        }
        "0"
    } else if d == 1 {
        proof {
            reveal_strlit("1");
            assert("1"@ =~= seq![digit_char(1)]);
        }
        "1"
    } else if d == 2 {
        proof {
            reveal_strlit("2");
            assert("2"@ =~= seq![digit_char(2)]);
        }
        "2"
    } else if d == 3 {
        proof {
            reveal_strlit("3");
            assert("3"@ =~= seq![digit_char(3)]);
        }
        "3"
    } else if d == 4 {
        proof {
            reveal_strlit("4");
            assert("4"@ =~= seq![digit_char(4)]);
        }
        "4"
    } else if d == 5 {
        proof {
            reveal_strlit("5");
            assert("5"@ =~= seq![digit_char(5)]);
        }
        "5"
    } else if d == 6 {
        proof {
            reveal_strlit("6");
            assert("6"@ =~= seq![digit_char(6)]);
        }
        "6"
    } else if d == 7 {
        proof {
            reveal_strlit("7");
            assert("7"@ =~= seq![digit_char(7)]);
        }
        "7"
    } else if d == 8 {
        proof {
            reveal_strlit("8");
            assert("8"@ =~= seq![digit_char(8)]);
        }
        "8"
    } else {
        proof {
            reveal_strlit("9");
            assert("9"@ =~= seq![digit_char(9)]);
        }
        "9"
    }
}

/// Write a number as decimal text.
pub fn uint_string(v: usize) -> (r: String)
    ensures
        r@ == ser_uint(v as nat),
    decreases v,
{
    if v < 10 {
        String::from_str(digit_str(v))
    } else {
        let mut s = uint_string(v / 10);
        s.append(digit_str(v % 10));
        proof {
            assert(s@ =~= ser_uint(v as nat));
        }
        s
    }
}

/// Write an optional number, `null` for no value.
fn opt_uint_string(o: &Option<usize>) -> (r: String)
    ensures
        r@ == ser_opt_uint(*o),
{
    match o {
        None => String::from_str("null"),
        Some(v) => uint_string(*v),
    }
}

/// Write a quoted, escaped string.
pub fn string_quoted(s: &str) -> (r: String)
    ensures
        r@ == ser_string(s@),
{
    let n = s.unicode_len();
    let mut out = String::from_str("\"");
    proof {
        reveal_strlit("\"");
        assert(out@ =~= seq!['"'] + esc_all(s@.subrange(0, 0)));
    }
    let mut i: usize = 0;
    while i < n
        invariant
            n == s@.len(),
            i <= n,
            out@ == seq!['"'] + esc_all(s@.subrange(0, i as int)),
        decreases n - i,
    {
        let ghost pre = s@.subrange(0, i as int);
        proof {
            assert(s@.subrange(0, i + 1).drop_last() =~= pre);
            assert(s@.subrange(0, i + 1).last() == s@[i as int]);
        }
        let c = s.get_char(i);
        if c == '"' {
            out.append("\\\"");
            proof {
                reveal_strlit("\\\"");
                assert("\\\""@ =~= esc_char(c));
            }
        } else if c == '\\' {
            out.append("\\\\");
            proof {
                reveal_strlit("\\\\");
                assert("\\\\"@ =~= esc_char(c));
            }
        } else if c == '\n' {
            out.append("\\n");
            proof {
                reveal_strlit("\\n");
                assert("\\n"@ =~= esc_char(c));
            }
        } else if c == '\t' {
            out.append("\\t");
            proof {
                reveal_strlit("\\t");
                assert("\\t"@ =~= esc_char(c));
            }
        } else if c == '\r' {
            out.append("\\r");
            proof {
                reveal_strlit("\\r");
                assert("\\r"@ =~= esc_char(c));
            }
        } else if c == '\u{8}' {
            out.append("\\b");
            proof {
                reveal_strlit("\\b");
                assert("\\b"@ =~= esc_char(c));
            }
        } else if c == '\u{c}' {
            out.append("\\f");
            proof {
                reveal_strlit("\\f");
                assert("\\f"@ =~= esc_char(c));
            }
        } else {
            let piece = s.substring_char(i, i + 1);
            out.append(piece);
            proof {
                assert(s@.subrange(i as int, i as int + 1) =~= esc_char(c));
            }
        }
        proof {
            assert(out@ =~= seq!['"'] + esc_all(s@.subrange(0, i + 1)));
        }
        i = i + 1;
    }
    out.append("\"");
    proof {
        reveal_strlit("\"");
        assert(s@.subrange(0, n as int) =~= s@);
        assert(out@ =~= ser_string(s@));
    }
    out
}

/// Write a list of numbers.
fn uint_list_string(v: &Vec<usize>) -> (r: String)
    ensures
        r@ == ser_uint_list(v@),
{
    let mut out = String::from_str("[");
    proof {
        reveal_strlit("[");
        assert(out@ =~= seq!['['] + ser_uint_items(v@.subrange(0, 0)));
    }
    let mut i: usize = 0;
    while i < v.len()
        invariant
            i <= v@.len(),
            out@ == seq!['['] + ser_uint_items(v@.subrange(0, i as int)),
        decreases v@.len() - i,
    {
        proof {
            assert(v@.subrange(0, i + 1).drop_last() =~= v@.subrange(0, i as int));
            assert(v@.subrange(0, i + 1).last() == v@[i as int]);
        }
        if i > 0 {
            out.append(",");
            proof {
                reveal_strlit(",");
                assert(","@ =~= seq![',']);
            }
        }
        let item = uint_string(v[i]);
        out.append(item.as_str());
        proof {
            assert(out@ =~= seq!['['] + ser_uint_items(v@.subrange(0, i + 1)));
        }
        i = i + 1;
    }
    out.append("]");
    proof {
        reveal_strlit("]");
        assert(v@.subrange(0, v@.len() as int) =~= v@);
        assert(out@ =~= ser_uint_list(v@));
    }
    out
}

/// Write a list of strings.
fn string_list_string(v: &Vec<String>) -> (r: String)
    ensures
        r@ == ser_string_list(v.deep_view()),
{
    let mut out = String::from_str("[");
    proof {
        reveal_strlit("[");
        assert(v.deep_view().subrange(0, 0) =~= Seq::<Seq<char>>::empty());
        assert(out@ =~= seq!['['] + ser_string_items(v.deep_view().subrange(0, 0)));
    }
    let mut i: usize = 0;
    while i < v.len()
        invariant
            i <= v@.len(),
            v.deep_view().len() == v@.len(),
            out@ == seq!['['] + ser_string_items(v.deep_view().subrange(0, i as int)),
        decreases v@.len() - i,
    {
        proof {
            assert(v.deep_view().subrange(0, i + 1).drop_last() =~= v.deep_view().subrange(
                0,
                i as int,
            ));
            assert(v.deep_view().subrange(0, i + 1).last() == v@[i as int]@);
        }
        if i > 0 {
            out.append(",");
            proof {
                reveal_strlit(",");
                assert(","@ =~= seq![',']);
            }
        }
        let item = string_quoted(v[i].as_str());
        out.append(item.as_str());
        proof {
            assert(out@ =~= seq!['['] + ser_string_items(v.deep_view().subrange(0, i + 1)));
        }
        i = i + 1;
    }
    out.append("]");
    proof {
        reveal_strlit("]");
        assert(v.deep_view().subrange(0, v.deep_view().len() as int) =~= v.deep_view());
        assert(out@ =~= ser_string_list(v.deep_view()));
    }
    out
}

/// The view a topology vector takes in payload views.
pub open spec fn topo_view(t: Seq<(String, Vec<String>)>) -> Seq<(Seq<char>, Seq<Seq<char>>)> {
    t.map_values(|p: (String, Vec<String>)| (p.0@, p.1.deep_view()))
}

/// Write a topology object.
fn topo_string(t: &Vec<(String, Vec<String>)>) -> (r: String)
    ensures
        r@ == ser_topo(topo_view(t@)),
{
    let mut out = String::from_str("{");
    proof {
        reveal_strlit("{");
        assert(out@ =~= seq!['{'] + ser_topo_items(topo_view(t@).subrange(0, 0)));
    }
    let mut i: usize = 0;
    while i < t.len()
        invariant
            i <= t@.len(),
            topo_view(t@).len() == t@.len(),
            out@ == seq!['{'] + ser_topo_items(topo_view(t@).subrange(0, i as int)),
        decreases t@.len() - i,
    {
        proof {
            assert(topo_view(t@).subrange(0, i + 1).drop_last() =~= topo_view(t@).subrange(
                0,
                i as int,
            ));
            assert(topo_view(t@).subrange(0, i + 1).last() == topo_view(t@)[i as int]);
        }
        if i > 0 {
            out.append(",");
            proof {
                reveal_strlit(",");
                assert(","@ =~= seq![',']);
            }
        }
        let key = string_quoted(t[i].0.as_str());
        out.append(key.as_str());
        out.append(":");
        proof {
            reveal_strlit(":");
            assert(":"@ =~= seq![':']);
        }
        let vals = string_list_string(&t[i].1);
        out.append(vals.as_str());
        proof {
            assert(out@ =~= seq!['{'] + ser_topo_items(topo_view(t@).subrange(0, i + 1)));
        }
        i = i + 1;
    }
    out.append("}");
    proof {
        reveal_strlit("}");
        assert(topo_view(t@).subrange(0, topo_view(t@).len() as int) =~= topo_view(t@));
        assert(out@ =~= ser_topo(topo_view(t@)));
    }
    out
}

/// Write the trailing ids of a body.
fn body_ids_string(id: &Option<usize>, in_reply_to: &Option<usize>) -> (r: String)
    ensures
        r@ == ser_body_ids(*id, *in_reply_to),
{
    let mut out = String::from_str(",\"msg_id\":");
    let a = opt_uint_string(id);
    out.append(a.as_str());
    out.append(",\"in_reply_to\":");
    let b = opt_uint_string(in_reply_to);
    out.append(b.as_str());
    out.append("}");
    proof {
        assert(out@ =~= ser_body_ids(*id, *in_reply_to));
    }
    out
}

/// Encode a broadcast envelope as its canonical one-line JSON text (without
/// the trailing newline, which the transport adds).
pub fn encode_broadcast(m: &Message<BroadcastPayload>) -> (r: String)
    ensures
        r@ == ser_msg_broadcast(m@),
{
    let mut out = String::from_str("{\"src\":");
    let src = string_quoted(m.src.as_str());
    out.append(src.as_str());
    out.append(",\"dest\":");
    let dst = string_quoted(m.dst.as_str());
    out.append(dst.as_str());
    out.append(",\"body\":");
    match &m.body.payload {
        BroadcastPayload::Broadcast { message } => {
            out.append("{\"type\":\"broadcast\",\"message\":");
            let v = uint_string(*message);
            out.append(v.as_str());
        },
        BroadcastPayload::BroadcastOk => {
            out.append("{\"type\":\"broadcast_ok\"");
        },
        BroadcastPayload::Read => {
            out.append("{\"type\":\"read\"");
        },
        BroadcastPayload::ReadOk { message } => {
            out.append("{\"type\":\"read_ok\",\"message\":");
            let v = uint_list_string(message);
            out.append(v.as_str());
        },
        BroadcastPayload::Topology { topology } => {
            out.append("{\"type\":\"topology\",\"topology\":");
            let v = topo_string(topology);
            out.append(v.as_str());
        },
        BroadcastPayload::TopologyOk => {
            out.append("{\"type\":\"topology_ok\"");
        },
        BroadcastPayload::Gossip { seen } => {
            out.append("{\"type\":\"gossip\",\"seen\":");
            let v = uint_list_string(seen);
            out.append(v.as_str());
        },
    }
    let ids = body_ids_string(&m.body.id, &m.body.in_reply_to);
    out.append(ids.as_str());
    out.append("}");
    proof {
        assert(out@ =~= ser_msg_broadcast(m@));
    }
    out
}

/// Encode an init envelope as its canonical one-line JSON text.
pub fn encode_init(m: &Message<InitPayload>) -> (r: String)
    ensures
        r@ == ser_msg_init(m@),
{
    let mut out = String::from_str("{\"src\":");
    let src = string_quoted(m.src.as_str());
    out.append(src.as_str());
    out.append(",\"dest\":");
    let dst = string_quoted(m.dst.as_str());
    out.append(dst.as_str());
    out.append(",\"body\":");
    match &m.body.payload {
        InitPayload::Init(init) => {
            out.append("{\"type\":\"init\",\"node_id\":");
            let v = string_quoted(init.node_id.as_str());
            out.append(v.as_str());
            out.append(",\"node_ids\":");
            let ids = string_list_string(&init.node_ids);
            out.append(ids.as_str());
        },
        InitPayload::InitOk => {
            out.append("{\"type\":\"init_ok\"");
        },
    }
    let ids = body_ids_string(&m.body.id, &m.body.in_reply_to);
    out.append(ids.as_str());
    out.append("}");
    proof {
        assert(out@ =~= ser_msg_init(m@));
    }
    out
}

} // verus!

verus! {

/// Whether a parsed name is a given field name.
fn name_is(a: &String, b: &str) -> (r: bool)
    ensures
        r == (a@ == b@),
{
    let l = String::from_str(b);
    a.eq(&l)
}

/// Read an optional number: `null` or a number.
fn opt_uint(s: &str, n: usize, i: usize) -> (r: Option<(Option<usize>, usize)>)
    requires
        n == s@.len(),
        i <= n,
    ensures
        match r {
            Some(p) => sp_opt_uint(s@, i as int) == Some((p.0, p.1 as int)) && i < p.1 <= n,
            None => sp_opt_uint(s@, i as int) is None,
        },
{
    match null_lit(s, n, i) {
        Some(end) => Some((None, end)),
        None => match uint(s, n, i) {
            Some(p) => Some((Some(p.0), p.1)),
            None => None,
        },
    }
}

/// Read the items of a number list.
fn uint_items(s: &str, n: usize, i: usize, acc: Vec<usize>) -> (r: Option<(Vec<usize>, usize)>)
    requires
        n == s@.len(),
        i <= n,
    ensures
        match r {
            Some(p) => sp_uint_items(s@, i as int, acc@) == Some((p.0@, p.1 as int)) && i < p.1
                <= n,
            None => sp_uint_items(s@, i as int, acc@) is None,
        },
    decreases n - i,
{
    let p = match uint(s, n, i) {
        None => {
            return None;
        },
        Some(p) => p,
    };
    let j = blanks(s, n, p.1);
    if j < n && s.get_char(j) == ']' {
        let mut acc2 = acc;
        acc2.push(p.0);
        Some((acc2, j + 1))
    } else if j < n && s.get_char(j) == ',' {
        let j2 = blanks(s, n, j + 1);
        let mut acc2 = acc;
        acc2.push(p.0);
        uint_items(s, n, j2, acc2)
    } else {
        None
    }
}

/// Read a number list.
fn uint_list(s: &str, n: usize, i: usize) -> (r: Option<(Vec<usize>, usize)>)
    requires
        n == s@.len(),
        i <= n,
    ensures
        match r {
            Some(p) => sp_uint_list(s@, i as int) == Some((p.0@, p.1 as int)) && i < p.1 <= n,
            None => sp_uint_list(s@, i as int) is None,
        },
{
    if i >= n || s.get_char(i) != '[' {
        return None;
    }
    let j = blanks(s, n, i + 1);
    if j < n && s.get_char(j) == ']' {
        let out: Vec<usize> = Vec::new();
        proof {
            assert(out@ =~= Seq::<usize>::empty());
        }
        Some((out, j + 1))
    } else {
        uint_items(s, n, j, Vec::new())
    }
}

/// Read the items of a string list.
fn string_items(s: &str, n: usize, i: usize, acc: Vec<String>) -> (r: Option<(Vec<String>, usize)>)
    requires
        n == s@.len(),
        i <= n,
    ensures
        match r {
            Some(p) => sp_string_items(s@, i as int, acc.deep_view()) == Some(
                (p.0.deep_view(), p.1 as int),
            ) && i < p.1 <= n,
            None => sp_string_items(s@, i as int, acc.deep_view()) is None,
        },
    decreases n - i,
{
    let p = match string_lit(s, n, i) {
        None => {
            return None;
        },
        Some(p) => p,
    };
    let j = blanks(s, n, p.1);
    if j < n && s.get_char(j) == ']' {
        let mut acc2 = acc;
        acc2.push(p.0);
        proof {
            assert(acc2.deep_view() =~= acc.deep_view().push(acc2@.last()@));
        }
        Some((acc2, j + 1))
    } else if j < n && s.get_char(j) == ',' {
        let j2 = blanks(s, n, j + 1);
        let mut acc2 = acc;
        acc2.push(p.0);
        proof {
            assert(acc2.deep_view() =~= acc.deep_view().push(acc2@.last()@));
        }
        string_items(s, n, j2, acc2)
    } else {
        None
    }
}

/// Read a string list.
fn string_list(s: &str, n: usize, i: usize) -> (r: Option<(Vec<String>, usize)>)
    requires
        n == s@.len(),
        i <= n,
    ensures
        match r {
            Some(p) => sp_string_list(s@, i as int) == Some((p.0.deep_view(), p.1 as int)) && i
                < p.1 <= n,
            None => sp_string_list(s@, i as int) is None,
        },
{
    if i >= n || s.get_char(i) != '[' {
        return None;
    }
    let j = blanks(s, n, i + 1);
    if j < n && s.get_char(j) == ']' {
        let out: Vec<String> = Vec::new();
        proof {
            assert(out.deep_view() =~= Seq::<Seq<char>>::empty());
        }
        Some((out, j + 1))
    } else {
        let acc0: Vec<String> = Vec::new();
        proof {
            assert(acc0.deep_view() =~= Seq::<Seq<char>>::empty());
        }
        string_items(s, n, j, acc0)
    }
}

/// The view a topology vector takes on the wire.
pub open spec fn raw_topo_view(t: Seq<(String, Vec<String>)>) -> Seq<(Seq<char>, Seq<Seq<char>>)> {
    t.map_values(|p: (String, Vec<String>)| (p.0@, p.1.deep_view()))
}

/// Read the members of a topology object.
fn topo_items(s: &str, n: usize, i: usize, acc: Vec<(String, Vec<String>)>) -> (r: Option<
    (Vec<(String, Vec<String>)>, usize),
>)
    requires
        n == s@.len(),
        i <= n,
    ensures
        match r {
            Some(p) => sp_topo_items(s@, i as int, raw_topo_view(acc@)) == Some(
                (raw_topo_view(p.0@), p.1 as int),
            ) && i < p.1 <= n,
            None => sp_topo_items(s@, i as int, raw_topo_view(acc@)) is None,
        },
    decreases n - i,
{
    let k = match string_lit(s, n, i) {
        None => {
            return None;
        },
        Some(k) => k,
    };
    let j = blanks(s, n, k.1);
    if !(j < n && s.get_char(j) == ':') {
        return None;
    }
    let jv = blanks(s, n, j + 1);
    let v = match string_list(s, n, jv) {
        None => {
            return None;
        },
        Some(v) => v,
    };
    let j2 = blanks(s, n, v.1);
    if j2 < n && s.get_char(j2) == '}' {
        let mut acc2 = acc;
        acc2.push((k.0, v.0));
        proof {
            assert(raw_topo_view(acc2@) =~= raw_topo_view(acc@).push(
                (acc2@.last().0@, acc2@.last().1.deep_view()),
            ));
        }
        Some((acc2, j2 + 1))
    } else if j2 < n && s.get_char(j2) == ',' {
        let j3 = blanks(s, n, j2 + 1);
        let mut acc2 = acc;
        acc2.push((k.0, v.0));
        proof {
            assert(raw_topo_view(acc2@) =~= raw_topo_view(acc@).push(
                (acc2@.last().0@, acc2@.last().1.deep_view()),
            ));
        }
        topo_items(s, n, j3, acc2)
    } else {
        None
    }
}

/// Read a topology object.
fn topo(s: &str, n: usize, i: usize) -> (r: Option<(Vec<(String, Vec<String>)>, usize)>)
    requires
        n == s@.len(),
        i <= n,
    ensures
        match r {
            Some(p) => sp_topo(s@, i as int) == Some((raw_topo_view(p.0@), p.1 as int)) && i < p.1
                <= n,
            None => sp_topo(s@, i as int) is None,
        },
{
    if i >= n || s.get_char(i) != '{' {
        return None;
    }
    let j = blanks(s, n, i + 1);
    if j < n && s.get_char(j) == '}' {
        let out: Vec<(String, Vec<String>)> = Vec::new();
        proof {
            assert(raw_topo_view(out@) =~= Seq::<(Seq<char>, Seq<Seq<char>>)>::empty());
        }
        Some((out, j + 1))
    } else {
        let acc0: Vec<(String, Vec<String>)> = Vec::new();
        proof {
            assert(raw_topo_view(acc0@) =~= Seq::<(Seq<char>, Seq<Seq<char>>)>::empty());
        }
        topo_items(s, n, j, acc0)
    }
}

} // verus!\n
verus! {

/// The body fields as read off the wire, before the type tag is examined.
pub struct RawBody {
    pub type_tag: Option<String>,
    pub msg_id: Option<Option<usize>>,
    pub in_reply_to: Option<Option<usize>>,
    pub message_num: Option<usize>,
    pub message_list: Option<Vec<usize>>,
    pub topology: Option<Vec<(String, Vec<String>)>>,
    pub seen: Option<Vec<usize>>,
    pub node_id: Option<String>,
    pub node_ids: Option<Vec<String>>,
}

/// The mathematical value of the raw body fields.
pub open spec fn raw_body_view(r: RawBody) -> BodySlots {
    BodySlots {
        type_tag: r.type_tag.deep_view(),
        msg_id: r.msg_id.deep_view(),
        in_reply_to: r.in_reply_to.deep_view(),
        message_num: r.message_num.deep_view(),
        message_list: r.message_list.deep_view(),
        topology: match r.topology {
            None => None,
            Some(t) => Some(raw_topo_view(t@)),
        },
        seen: r.seen.deep_view(),
        node_id: r.node_id.deep_view(),
        node_ids: r.node_ids.deep_view(),
    }
}

/// No body field read yet.
fn raw_body_empty() -> (r: RawBody)
    ensures
        raw_body_view(r) == empty_slots(),
{
    RawBody {
        type_tag: None,
        msg_id: None,
        in_reply_to: None,
        message_num: None,
        message_list: None,
        topology: None,
        seen: None,
        node_id: None,
        node_ids: None,
    }
}

/// Read one body field under the given name into its slot.
#[verifier::rlimit(60)]
fn body_field(s: &str, n: usize, v: usize, k0: &String, sl: RawBody) -> (r: Option<
    (RawBody, usize),
>)
    requires
        n == s@.len(),
        v <= n,
    ensures
        match r {
            Some(p) => sp_body_field(s@, v as int, k0@, raw_body_view(sl)) == Some(
                (raw_body_view(p.0), p.1 as int),
            ) && v < p.1 <= n,
            None => sp_body_field(s@, v as int, k0@, raw_body_view(sl)) is None,
        },
{
    if name_is(k0, "type") {
        if sl.type_tag.is_none() {
            match string_lit(s, n, v) {
                Some(p) => {
                    let mut sl2 = sl;
                    sl2.type_tag = Some(p.0);
                    proof {
                        assert(raw_body_view(sl2) =~= BodySlots {
                            type_tag: raw_body_view(sl2).type_tag,
                            ..raw_body_view(sl)
                        });
                        assert(sp_body_field(s@, v as int, k0@, raw_body_view(sl)) == Some((
                            raw_body_view(sl2),
                            p.1 as int,
                        )));
                    }
                    Some((sl2, p.1))
                },
                None => None,
            }
        } else {
            None
        }
    } else if name_is(k0, "msg_id") {
        if sl.msg_id.is_none() {
            match opt_uint(s, n, v) {
                Some(p) => {
                    let mut sl2 = sl;
                    sl2.msg_id = Some(p.0);
                    proof {
                        assert(raw_body_view(sl2) =~= BodySlots {
                            msg_id: raw_body_view(sl2).msg_id,
                            ..raw_body_view(sl)
                        });
                        assert(sp_body_field(s@, v as int, k0@, raw_body_view(sl)) == Some((
                            raw_body_view(sl2),
                            p.1 as int,
                        )));
                    }
                    Some((sl2, p.1))
                },
                None => None,
            }
        } else {
            None
        }
    } else if name_is(k0, "in_reply_to") {
        if sl.in_reply_to.is_none() {
            match opt_uint(s, n, v) {
                Some(p) => {
                    let mut sl2 = sl;
                    sl2.in_reply_to = Some(p.0);
                    proof {
                        assert(raw_body_view(sl2) =~= BodySlots {
                            in_reply_to: raw_body_view(sl2).in_reply_to,
                            ..raw_body_view(sl)
                        });
                        assert(sp_body_field(s@, v as int, k0@, raw_body_view(sl)) == Some((
                            raw_body_view(sl2),
                            p.1 as int,
                        )));
                    }
                    Some((sl2, p.1))
                },
                None => None,
            }
        } else {
            None
        }
    } else if name_is(k0, "message") {
        if v < n && s.get_char(v) == '[' {
            if sl.message_list.is_none() {
                match uint_list(s, n, v) {
                    Some(p) => {
                        let mut sl2 = sl;
                        sl2.message_list = Some(p.0);
                        proof {
                            assert(sl2.message_list->0.deep_view() =~= p.0@);
                            assert(raw_body_view(sl2) =~= BodySlots {
                                message_list: raw_body_view(sl2).message_list,
                                ..raw_body_view(sl)
                            });
                            assert(sp_body_field(s@, v as int, k0@, raw_body_view(sl))
                                == Some((raw_body_view(sl2), p.1 as int)));
                        }
                        Some((sl2, p.1))
                    },
                    None => None,
                }
            } else {
                None
            }
        } else {
            if sl.message_num.is_none() {
                match uint(s, n, v) {
                    Some(p) => {
                        let mut sl2 = sl;
                        sl2.message_num = Some(p.0);
                        proof {
                            lemma_uint_range(s@, v as int);
                            assert(raw_body_view(sl2) =~= BodySlots {
                                message_num: raw_body_view(sl2).message_num,
                                ..raw_body_view(sl)
                            });
                            assert(sp_body_field(s@, v as int, k0@, raw_body_view(sl))
                                == Some((raw_body_view(sl2), p.1 as int)));
                        }
                        Some((sl2, p.1))
                    },
                    None => None,
                }
            } else {
                None
            }
        }
    } else if name_is(k0, "topology") {
        if sl.topology.is_none() {
            match topo(s, n, v) {
                Some(p) => {
                    let mut sl2 = sl;
                    sl2.topology = Some(p.0);
                    proof {
                        assert(raw_body_view(sl2) =~= BodySlots {
                            topology: raw_body_view(sl2).topology,
                            ..raw_body_view(sl)
                        });
                        assert(sp_body_field(s@, v as int, k0@, raw_body_view(sl)) == Some((
                            raw_body_view(sl2),
                            p.1 as int,
                        )));
                    }
                    Some((sl2, p.1))
                },
                None => None,
            }
        } else {
            None
        }
    } else if name_is(k0, "seen") {
        if sl.seen.is_none() {
            match uint_list(s, n, v) {
                Some(p) => {
                    let mut sl2 = sl;
                    sl2.seen = Some(p.0);
                    proof {
                        assert(sl2.seen->0.deep_view() =~= p.0@);
                        assert(raw_body_view(sl2) =~= BodySlots {
                            seen: raw_body_view(sl2).seen,
                            ..raw_body_view(sl)
                        });
                        assert(sp_body_field(s@, v as int, k0@, raw_body_view(sl)) == Some((
                            raw_body_view(sl2),
                            p.1 as int,
                        )));
                    }
                    Some((sl2, p.1))
                },
                None => None,
            }
        } else {
            None
        }
    } else if name_is(k0, "node_id") {
        if sl.node_id.is_none() {
            match string_lit(s, n, v) {
                Some(p) => {
                    let mut sl2 = sl;
                    sl2.node_id = Some(p.0);
                    proof {
                        assert(raw_body_view(sl2) =~= BodySlots {
                            node_id: raw_body_view(sl2).node_id,
                            ..raw_body_view(sl)
                        });
                        assert(sp_body_field(s@, v as int, k0@, raw_body_view(sl)) == Some((
                            raw_body_view(sl2),
                            p.1 as int,
                        )));
                    }
                    Some((sl2, p.1))
                },
                None => None,
            }
        } else {
            None
        }
    } else if name_is(k0, "node_ids") {
        if sl.node_ids.is_none() {
            match string_list(s, n, v) {
                Some(p) => {
                    let mut sl2 = sl;
                    sl2.node_ids = Some(p.0);
                    proof {
                        assert(raw_body_view(sl2) =~= BodySlots {
                            node_ids: raw_body_view(sl2).node_ids,
                            ..raw_body_view(sl)
                        });
                        assert(sp_body_field(s@, v as int, k0@, raw_body_view(sl)) == Some((
                            raw_body_view(sl2),
                            p.1 as int,
                        )));
                    }
                    Some((sl2, p.1))
                },
                None => None,
            }
        } else {
            None
        }
    } else {
        None
    }
}

/// Whether a member name is one of the body fields.
fn body_field_known(k0: &String) -> (r: bool)
    ensures
        r == known_body_field(k0@),
{
    name_is(k0, "type") || name_is(k0, "msg_id") || name_is(k0, "in_reply_to") || name_is(
        k0,
        "message",
    ) || name_is(k0, "topology") || name_is(k0, "seen") || name_is(k0, "node_id") || name_is(
        k0,
        "node_ids",
    )
}

/// Read the members of a body object.
fn body_items(s: &str, n: usize, i: usize, sl: RawBody) -> (r: Option<(RawBody, usize)>)
    requires
        n == s@.len(),
        i <= n,
    ensures
        match r {
            Some(p) => sp_body_items(s@, i as int, raw_body_view(sl)) == Some(
                (raw_body_view(p.0), p.1 as int),
            ) && i < p.1 <= n,
            None => sp_body_items(s@, i as int, raw_body_view(sl)) is None,
        },
    decreases n - i,
{
    let k = match string_lit(s, n, i) {
        None => {
            return None;
        },
        Some(k) => k,
    };
    let j = blanks(s, n, k.1);
    if !(j < n && s.get_char(j) == ':') {
        return None;
    }
    let v = blanks(s, n, j + 1);
    let st = if body_field_known(&k.0) {
        match body_field(s, n, v, &k.0, sl) {
            None => {
                return None;
            },
            Some(st) => st,
        }
    } else {
        match skip_value(s, n, v) {
            None => {
                return None;
            },
            Some(e) => (sl, e),
        }
    };
    let j2 = blanks(s, n, st.1);
    if j2 < n && s.get_char(j2) == '}' {
        Some((st.0, j2 + 1))
    } else if j2 < n && s.get_char(j2) == ',' {
        let j3 = blanks(s, n, j2 + 1);
        body_items(s, n, j3, st.0)
    } else {
        None
    }
}

/// Read a body object.
fn body_obj(s: &str, n: usize, i: usize) -> (r: Option<(RawBody, usize)>)
    requires
        n == s@.len(),
        i <= n,
    ensures
        match r {
            Some(p) => sp_body(s@, i as int) == Some((raw_body_view(p.0), p.1 as int)) && i < p.1
                <= n,
            None => sp_body(s@, i as int) is None,
        },
{
    if i >= n || s.get_char(i) != '{' {
        return None;
    }
    let j = blanks(s, n, i + 1);
    if j < n && s.get_char(j) == '}' {
        Some((raw_body_empty(), j + 1))
    } else {
        body_items(s, n, j, raw_body_empty())
    }
}

/// The envelope fields as read off the wire.
struct RawEnv {
    src: Option<String>,
    dst: Option<String>,
    body: Option<RawBody>,
}

/// The mathematical value of the raw envelope fields.
spec fn raw_env_view(r: RawEnv) -> EnvelopeSlots {
    EnvelopeSlots {
        src: r.src.deep_view(),
        dst: r.dst.deep_view(),
        body: match r.body {
            None => None,
            Some(b) => Some(raw_body_view(b)),
        },
    }
}

/// Read one envelope field under the given name into its slot.
fn env_field(s: &str, n: usize, v: usize, k0: &String, sl: RawEnv) -> (r: Option<(RawEnv, usize)>)
    requires
        n == s@.len(),
        v <= n,
    ensures
        match r {
            Some(p) => sp_env_field(s@, v as int, k0@, raw_env_view(sl)) == Some(
                (raw_env_view(p.0), p.1 as int),
            ) && v < p.1 <= n,
            None => sp_env_field(s@, v as int, k0@, raw_env_view(sl)) is None,
        },
{
    if name_is(k0, "src") {
        if sl.src.is_none() {
            match string_lit(s, n, v) {
                Some(p) => {
                    let mut sl2 = sl;
                    sl2.src = Some(p.0);
                    proof {
                        assert(raw_env_view(sl2) =~= EnvelopeSlots {
                            src: raw_env_view(sl2).src,
                            ..raw_env_view(sl)
                        });
                    }
                    Some((sl2, p.1))
                },
                None => None,
            }
        } else {
            None
        }
    } else if name_is(k0, "dest") {
        if sl.dst.is_none() {
            match string_lit(s, n, v) {
                Some(p) => {
                    let mut sl2 = sl;
                    sl2.dst = Some(p.0);
                    proof {
                        assert(raw_env_view(sl2) =~= EnvelopeSlots {
                            dst: raw_env_view(sl2).dst,
                            ..raw_env_view(sl)
                        });
                    }
                    Some((sl2, p.1))
                },
                None => None,
            }
        } else {
            None
        }
    } else if name_is(k0, "body") {
        if sl.body.is_none() {
            match body_obj(s, n, v) {
                Some(p) => {
                    let mut sl2 = sl;
                    sl2.body = Some(p.0);
                    proof {
                        assert(raw_env_view(sl2) =~= EnvelopeSlots {
                            body: raw_env_view(sl2).body,
                            ..raw_env_view(sl)
                        });
                    }
                    Some((sl2, p.1))
                },
                None => None,
            }
        } else {
            None
        }
    } else {
        None
    }
}

/// Whether a member name is one of the envelope fields.
fn env_field_known(k0: &String) -> (r: bool)
    ensures
        r == known_env_field(k0@),
{
    name_is(k0, "src") || name_is(k0, "dest") || name_is(k0, "body")
}

/// Read the members of an envelope object.
fn env_items(s: &str, n: usize, i: usize, sl: RawEnv) -> (r: Option<(RawEnv, usize)>)
    requires
        n == s@.len(),
        i <= n,
    ensures
        match r {
            Some(p) => sp_env_items(s@, i as int, raw_env_view(sl)) == Some(
                (raw_env_view(p.0), p.1 as int),
            ) && i < p.1 <= n,
            None => sp_env_items(s@, i as int, raw_env_view(sl)) is None,
        },
    decreases n - i,
{
    let k = match string_lit(s, n, i) {
        None => {
            return None;
        },
        Some(k) => k,
    };
    let j = blanks(s, n, k.1);
    if !(j < n && s.get_char(j) == ':') {
        return None;
    }
    let v = blanks(s, n, j + 1);
    let st = if env_field_known(&k.0) {
        match env_field(s, n, v, &k.0, sl) {
            None => {
                return None;
            },
            Some(st) => st,
        }
    } else {
        match skip_value(s, n, v) {
            None => {
                return None;
            },
            Some(e) => (sl, e),
        }
    };
    let j2 = blanks(s, n, st.1);
    if j2 < n && s.get_char(j2) == '}' {
        Some((st.0, j2 + 1))
    } else if j2 < n && s.get_char(j2) == ',' {
        let j3 = blanks(s, n, j2 + 1);
        env_items(s, n, j3, st.0)
    } else {
        None
    }
}

/// Read an envelope object: all three members must be present.
fn envelope(s: &str, n: usize, i: usize) -> (r: Option<((String, String, RawBody), usize)>)
    requires
        n == s@.len(),
        i <= n,
    ensures
        match r {
            Some(p) => sp_envelope(s@, i as int) == Some(
                ((p.0.0@, p.0.1@, raw_body_view(p.0.2)), p.1 as int),
            ) && i < p.1 <= n,
            None => sp_envelope(s@, i as int) is None,
        },
{
    if i >= n || s.get_char(i) != '{' {
        return None;
    }
    let j = blanks(s, n, i + 1);
    let sl0 = RawEnv { src: None, dst: None, body: None };
    match env_items(s, n, j, sl0) {
        None => None,
        Some(p) => {
            let (sl, end) = p;
            match (sl.src, sl.dst, sl.body) {
                (Some(src), Some(dst), Some(body)) => Some(((src, dst, body), end)),
                _ => None,
            }
        },
    }
}

} // verus!\n
verus! {

/// A line that is not a message of the protocol.
#[derive(Debug, PartialEq, Eq)]
pub struct DecodeError;

/// Build the broadcast body the read fields mean, if they mean one.
fn body_build_broadcast(sl: RawBody) -> (r: Option<Body<BroadcastPayload>>)
    ensures
        match r {
            Some(b) => body_from_slots_broadcast(raw_body_view(sl)) == Some(b@),
            None => body_from_slots_broadcast(raw_body_view(sl)) is None,
        },
{
    let ghost slv = raw_body_view(sl);
    let RawBody {
        type_tag,
        msg_id,
        in_reply_to,
        message_num,
        message_list,
        topology,
        seen,
        node_id,
        node_ids,
    } = sl;
    let tag = match type_tag {
        Some(t) => t,
        None => {
            return None;
        },
    };
    let id = match msg_id {
        Some(x) => x,
        None => None,
    };
    let irt = match in_reply_to {
        Some(x) => x,
        None => None,
    };
    proof {
        assert(id == flat_opt(slv.msg_id));
        assert(irt == flat_opt(slv.in_reply_to));
    }
    if name_is(&tag, "broadcast") {
        match message_num {
            Some(message) => if message_list.is_none() && topology.is_none() && seen.is_none()
                && node_id.is_none() && node_ids.is_none() {
                Some(
                    Body {
                        id,
                        in_reply_to: irt,
                        payload: BroadcastPayload::Broadcast { message },
                    },
                )
            } else {
                None
            },
            None => None,
        }
    } else if name_is(&tag, "broadcast_ok") {
        if message_num.is_none() && message_list.is_none() && topology.is_none() && seen.is_none()
            && node_id.is_none() && node_ids.is_none() {
            Some(Body { id, in_reply_to: irt, payload: BroadcastPayload::BroadcastOk })
        } else {
            None
        }
    } else if name_is(&tag, "read") {
        if message_num.is_none() && message_list.is_none() && topology.is_none() && seen.is_none()
            && node_id.is_none() && node_ids.is_none() {
            Some(Body { id, in_reply_to: irt, payload: BroadcastPayload::Read })
        } else {
            None
        }
    } else if name_is(&tag, "read_ok") {
        match message_list {
            Some(message) => if message_num.is_none() && topology.is_none() && seen.is_none()
                && node_id.is_none() && node_ids.is_none() {
                proof {
                    assert(message.deep_view() =~= message@);
                }
                Some(
                    Body {
                        id,
                        in_reply_to: irt,
                        payload: BroadcastPayload::ReadOk { message },
                    },
                )
            } else {
                None
            },
            None => None,
        }
    } else if name_is(&tag, "topology") {
        match topology {
            Some(topology_map) => if message_num.is_none() && message_list.is_none()
                && seen.is_none() && node_id.is_none() && node_ids.is_none() {
                let b = Body {
                    id,
                    in_reply_to: irt,
                    payload: BroadcastPayload::Topology { topology: topology_map },
                };
                proof {
                    assert(b@.payload->Topology_topology =~= slv.topology->0);
                }
                Some(b)
            } else {
                None
            },
            None => None,
        }
    } else if name_is(&tag, "topology_ok") {
        if message_num.is_none() && message_list.is_none() && topology.is_none() && seen.is_none()
            && node_id.is_none() && node_ids.is_none() {
            Some(Body { id, in_reply_to: irt, payload: BroadcastPayload::TopologyOk })
        } else {
            None
        }
    } else if name_is(&tag, "gossip") {
        match seen {
            Some(seen_vals) => if message_num.is_none() && message_list.is_none()
                && topology.is_none() && node_id.is_none() && node_ids.is_none() {
                proof {
                    assert(seen_vals.deep_view() =~= seen_vals@);
                }
                Some(
                    Body {
                        id,
                        in_reply_to: irt,
                        payload: BroadcastPayload::Gossip { seen: seen_vals },
                    },
                )
            } else {
                None
            },
            None => None,
        }
    } else {
        None
    }
}

/// Build the init body the read fields mean, if they mean one.
fn body_build_init(sl: RawBody) -> (r: Option<Body<InitPayload>>)
    ensures
        match r {
            Some(b) => body_from_slots_init(raw_body_view(sl)) == Some(b@),
            None => body_from_slots_init(raw_body_view(sl)) is None,
        },
{
    let ghost slv = raw_body_view(sl);
    let RawBody {
        type_tag,
        msg_id,
        in_reply_to,
        message_num,
        message_list,
        topology,
        seen,
        node_id,
        node_ids,
    } = sl;
    let tag = match type_tag {
        Some(t) => t,
        None => {
            return None;
        },
    };
    let id = match msg_id {
        Some(x) => x,
        None => None,
    };
    let irt = match in_reply_to {
        Some(x) => x,
        None => None,
    };
    proof {
        assert(id == flat_opt(slv.msg_id));
        assert(irt == flat_opt(slv.in_reply_to));
    }
    if name_is(&tag, "init") {
        match (node_id, node_ids) {
            (Some(own_id), Some(peer_ids)) => if message_num.is_none() && message_list.is_none()
                && topology.is_none() && seen.is_none() {
                let b = Body {
                    id,
                    in_reply_to: irt,
                    payload: InitPayload::Init(Init { node_id: own_id, node_ids: peer_ids }),
                };
                Some(b)
            } else {
                None
            },
            _ => None,
        }
    } else if name_is(&tag, "init_ok") {
        if message_num.is_none() && message_list.is_none() && topology.is_none() && seen.is_none()
            && node_id.is_none() && node_ids.is_none() {
            Some(Body { id, in_reply_to: irt, payload: InitPayload::InitOk })
        } else {
            None
        }
    } else {
        None
    }
}

/// Decode one line as a broadcast envelope: the result is exactly what the
/// grammar says the line means, and a line that means nothing is an error.
pub fn decode_broadcast(line: &str) -> (r: Result<Message<BroadcastPayload>, DecodeError>)
    ensures
        match r {
            Ok(m) => sp_message_broadcast(line@) == Some(m@),
            Err(_) => sp_message_broadcast(line@) is None,
        },
{
    let n = line.unicode_len();
    let start = blanks(line, n, 0);
    let env = match envelope(line, n, start) {
        Some(p) => p,
        None => {
            return Err(DecodeError);
        },
    };
    let end = blanks(line, n, env.1);
    if end != n {
        return Err(DecodeError);
    }
    let (src, dst, raw) = env.0;
    match body_build_broadcast(raw) {
        Some(body) => Ok(Message { src, dst, body }),
        None => Err(DecodeError),
    }
}

/// Decode one line as an init envelope.
pub fn decode_init(line: &str) -> (r: Result<Message<InitPayload>, DecodeError>)
    ensures
        match r {
            Ok(m) => sp_message_init(line@) == Some(m@),
            Err(_) => sp_message_init(line@) is None,
        },
{
    let n = line.unicode_len();
    let start = blanks(line, n, 0);
    let env = match envelope(line, n, start) {
        Some(p) => p,
        None => {
            return Err(DecodeError);
        },
    };
    let end = blanks(line, n, env.1);
    if end != n {
        return Err(DecodeError);
    }
    let (src, dst, raw) = env.0;
    match body_build_init(raw) {
        Some(body) => Ok(Message { src, dst, body }),
        None => Err(DecodeError),
    }
}

} // verus!
