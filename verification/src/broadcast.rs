//! The broadcast challenge: a node that accumulates application values and
//! spreads them to its neighbors by periodic gossip, with a bounded resend of
//! values the neighbor is already believed to know (anti-entropy).

use rand::Rng;
use vstd::prelude::*;
use vstd::pervasive::VecAdditionalExecFns;

use crate::protocol::Body;
use crate::protocol::Event;
use crate::protocol::Init;
use crate::protocol::Message;
use crate::protocol::NodeError;

verus! {

/// The divisor of the anti-entropy resend cap: at most one already-known
/// value may be resent per this many values that must be sent anyway.  A
/// chosen constant, not a derived one; nothing assumes it is optimal.
pub const RESEND_DIVISOR: usize = 10;

/// The payload variants of the broadcast challenge.
#[allow(inconsistent_fields)]
pub enum BroadcastPayload {
    Broadcast { message: usize },
    BroadcastOk,
    Read,
    ReadOk { message: Vec<usize> },
    Topology { topology: Vec<(String, Vec<String>)> },
    TopologyOk,
    Gossip { seen: Vec<usize> },
}

/// The timer events the broadcast node injects for itself.
pub enum BroadcastTimer {
    Gossip,
}

/// A broadcast node: the values seen so far, the gossip fan-out assigned by
/// the topology message, and this node's belief about what each peer knows.
pub struct BroadcastNode {
    /// This node's id.
    pub node: String,
    /// The value under which the next self-originated message is sent.
    pub id: usize,
    /// Every application value seen so far, in arrival order, each once.
    pub messages: Vec<usize>,
    /// The neighbors gossip goes to, assigned by the first topology message
    /// — exactly once, immutable thereafter.
    pub neighborhood: Vec<String>,
    /// Whether the topology message has arrived and assigned the
    /// neighborhood.  Kept apart from the list itself: an empty neighbor
    /// list is a legal assignment.
    pub neighborhood_set: bool,
    /// For each peer, the values this node believes the peer already knows.
    /// The belief only grows and may lag behind the truth; the bounded
    /// resend of gossip compensates for the staleness.
    pub known: Vec<(String, Vec<usize>)>,
}

/// The knowledge table as a mathematical value: peer ids and value sequences.
pub open spec fn table_view(t: Seq<(String, Vec<usize>)>) -> Seq<(Seq<char>, Seq<usize>)> {
    t.map_values(|p: (String, Vec<usize>)| (p.0@, p.1@))
}

/// Whether the table holds an entry for the peer.
pub open spec fn table_has(t: Seq<(Seq<char>, Seq<usize>)>, k: Seq<char>) -> bool {
    exists|i: int| 0 <= i < t.len() && t[i].0 == k
}

/// The row of the peer's entry.
pub open spec fn table_row(t: Seq<(Seq<char>, Seq<usize>)>, k: Seq<char>) -> int {
    choose|i: int| 0 <= i < t.len() && t[i].0 == k
}

/// The values recorded under the peer's entry.
pub open spec fn table_at(t: Seq<(Seq<char>, Seq<usize>)>, k: Seq<char>) -> Seq<usize> {
    t[table_row(t, k)].1
}

/// Appending a value only if it is not yet present.
pub open spec fn seq_insert(s: Seq<usize>, v: usize) -> Seq<usize> {
    if s.contains(v) {
        s
    } else {
        s.push(v)
    }
}

/// Merging a sequence of values in, left to right, each only if absent.
pub open spec fn seq_merge(dst: Seq<usize>, src: Seq<usize>) -> Seq<usize>
    decreases src.len(),
{
    if src.len() == 0 {
        dst
    } else {
        seq_insert(seq_merge(dst, src.drop_last()), src.last())
    }
}

impl BroadcastNode {
    /// The set of values this node has seen.
    pub open spec fn msg_set(self) -> Set<usize> {
        self.messages@.to_set()
    }

    /// The knowledge table of this node.
    pub open spec fn ktab(self) -> Seq<(Seq<char>, Seq<usize>)> {
        table_view(self.known@)
    }

    /// Whether this node keeps a belief about the peer.
    pub open spec fn knows_peer(self, k: Seq<char>) -> bool {
        table_has(self.ktab(), k)
    }

    /// The values this node believes the peer already knows.
    pub open spec fn known_set(self, k: Seq<char>) -> Set<usize> {
        table_at(self.ktab(), k).to_set()
    }

    /// The internal invariant: values are recorded once each, the knowledge
    /// table has one row per peer, and the message counter has moved past 0,
    /// the id reserved for the init acknowledgment.
    pub open spec fn wf(self) -> bool {
        &&& self.messages@.no_duplicates()
        &&& (!self.neighborhood_set ==> self.neighborhood@.len() == 0)
        &&& (forall|i: int, j: int|
            0 <= i < j < self.ktab().len() ==> self.ktab()[i].0 != self.ktab()[j].0)
        &&& (forall|i: int| 0 <= i < self.ktab().len() ==> (#[trigger] self.ktab()[i].1).no_duplicates())
        &&& 1 <= self.id
    }
}

/// The values of `s` the peer is not yet believed to know, in order: what a
/// gossip message must carry.
pub open spec fn sift_unknown(s: Seq<usize>, kn: Seq<usize>) -> Seq<usize>
    decreases s.len(),
{
    if s.len() == 0 {
        Seq::empty()
    } else if kn.contains(s.last()) {
        sift_unknown(s.drop_last(), kn)
    } else {
        sift_unknown(s.drop_last(), kn).push(s.last())
    }
}

/// The values of `s` the peer is already believed to know, in order: what a
/// gossip message may only resend in bounded number.
pub open spec fn sift_known(s: Seq<usize>, kn: Seq<usize>) -> Seq<usize>
    decreases s.len(),
{
    if s.len() == 0 {
        Seq::empty()
    } else if kn.contains(s.last()) {
        sift_known(s.drop_last(), kn).push(s.last())
    } else {
        sift_known(s.drop_last(), kn)
    }
}

/// Appending a fresh value keeps a sequence free of duplicates.
proof fn lemma_push_distinct(s: Seq<usize>, v: usize)
    requires
        s.no_duplicates(),
        !s.contains(v),
    ensures
        s.push(v).no_duplicates(),
{
    let t = s.push(v);
    assert forall|i: int, j: int|
        0 <= i < t.len() && 0 <= j < t.len() && i != j implies t[i] != t[j] by {
        if i < s.len() && j < s.len() {
        } else if j == s.len() && i < s.len() {
            assert(s.contains(s[i]));
        } else if i == s.len() && j < s.len() {
            assert(s.contains(s[j]));
        }
    }
}

/// What the two sifts keep and drop, and that they keep values at most as
/// often as `s` holds them.
proof fn lemma_sift_props(s: Seq<usize>, kn: Seq<usize>)
    ensures
        forall|v: usize| #[trigger] sift_known(s, kn).contains(v) <==> s.contains(v) && kn.contains(v),
        forall|v: usize| #[trigger] sift_unknown(s, kn).contains(v) <==> s.contains(v)
            && !kn.contains(v),
        s.no_duplicates() ==> sift_known(s, kn).no_duplicates(),
        s.no_duplicates() ==> sift_unknown(s, kn).no_duplicates(),
        sift_known(s, kn).len() + sift_unknown(s, kn).len() == s.len(),
    decreases s.len(),
{
    broadcast use vstd::seq_lib::group_seq_properties;

    if s.len() == 0 {
    } else {
        lemma_sift_props(s.drop_last(), kn);
        assert(s =~= s.drop_last().push(s.last()));
        assert forall|v: usize| s.contains(v) implies s.drop_last().contains(v) || v
            == s.last() by {
            let i = choose|i: int| 0 <= i < s.len() && s[i] == v;
            if i < s.len() - 1 {
                assert(s.drop_last()[i] == v);
            }
        }
        if s.no_duplicates() {
            assert forall|i: int, j: int|
                0 <= i < s.drop_last().len() && 0 <= j < s.drop_last().len() && i
                    != j implies s.drop_last()[i] != s.drop_last()[j] by {
                assert(s.drop_last()[i] == s[i]);
                assert(s.drop_last()[j] == s[j]);
            }
            assert(!s.drop_last().contains(s.last()));
            if kn.contains(s.last()) {
                lemma_push_distinct(sift_known(s.drop_last(), kn), s.last());
            } else {
                lemma_push_distinct(sift_unknown(s.drop_last(), kn), s.last());
            }
        }
    }
}

/// Sifting out the pushed value.
proof fn lemma_sift_push(s: Seq<usize>, kn: Seq<usize>, v: usize)
    ensures
        sift_known(s.push(v), kn) == if kn.contains(v) {
            sift_known(s, kn).push(v)
        } else {
            sift_known(s, kn)
        },
        sift_unknown(s.push(v), kn) == if kn.contains(v) {
            sift_unknown(s, kn)
        } else {
            sift_unknown(s, kn).push(v)
        },
{
    assert(s.push(v).drop_last() =~= s);
    assert(s.push(v).last() == v);
}

/// In a table with pairwise distinct keys, the row chosen for a key is the
/// one row that carries it.
proof fn lemma_table_row_unique(t: Seq<(Seq<char>, Seq<usize>)>, k: Seq<char>, i: int)
    requires
        forall|p: int, q: int| 0 <= p < q < t.len() ==> t[p].0 != t[q].0,
        0 <= i < t.len(),
        t[i].0 == k,
    ensures
        table_has(t, k),
        table_row(t, k) == i,
{
    assert(table_has(t, k));
    let r = table_row(t, k);
    assert(0 <= r < t.len() && t[r].0 == k);
    if r < i {
        assert(t[r].0 != t[i].0);
    }
    if i < r {
        assert(t[i].0 != t[r].0);
    }
}

/// Merging adds exactly the merged values to the set.
proof fn lemma_seq_merge_set(dst: Seq<usize>, src: Seq<usize>)
    ensures
        seq_merge(dst, src).to_set() == dst.to_set() + src.to_set(),
        dst.no_duplicates() ==> seq_merge(dst, src).no_duplicates(),
        dst.is_prefix_of(seq_merge(dst, src)),
    decreases src.len(),
{
    broadcast use vstd::seq_lib::group_seq_properties;

    if src.len() == 0 {
        assert(src.to_set() =~= Set::<usize>::empty());
        assert(seq_merge(dst, src).to_set() =~= dst.to_set() + src.to_set());
    } else {
        lemma_seq_merge_set(dst, src.drop_last());
        let m = seq_merge(dst, src.drop_last());
        assert(src =~= src.drop_last().push(src.last()));
        assert(src.to_set() =~= src.drop_last().to_set().insert(src.last()));
        if m.contains(src.last()) {
            assert(seq_merge(dst, src).to_set() =~= dst.to_set() + src.to_set());
        } else {
            assert(m.push(src.last()).to_set() =~= m.to_set().insert(src.last()));
            assert(seq_merge(dst, src).to_set() =~= dst.to_set() + src.to_set());
        }
    }
}

/// A sequence none of whose values the peer knows sifts to an empty resend.
proof fn lemma_sift_known_none(s: Seq<usize>, kn: Seq<usize>)
    requires
        forall|v: usize| s.contains(v) ==> !kn.contains(v),
    ensures
        sift_known(s, kn) == Seq::<usize>::empty(),
    decreases s.len(),
{
    broadcast use vstd::seq_lib::group_seq_properties;

    if s.len() > 0 {
        assert(s.contains(s.last()));
        assert forall|v: usize| s.drop_last().contains(v) implies !kn.contains(v) by {
            let i = choose|i: int| 0 <= i < s.drop_last().len() && s.drop_last()[i] == v;
            assert(s[i] == v);
            assert(s.contains(v));
        }
        lemma_sift_known_none(s.drop_last(), kn);
    }
}

/// What a well-formed gossip payload to one peer looks like: no value twice,
/// everything the peer provably lacks comes first, nothing the sender does
/// not hold, and at most a tenth of the must-send count is resent from what
/// the peer is already believed to know.
pub open spec fn good_gossip(seen: Seq<usize>, msgs: Seq<usize>, kn: Seq<usize>) -> bool {
    &&& seen.no_duplicates()
    &&& sift_unknown(msgs, kn).is_prefix_of(seen)
    &&& (forall|v: usize| seen.contains(v) ==> msgs.contains(v))
    &&& sift_known(seen, kn).len() <= sift_unknown(msgs, kn).len() / (RESEND_DIVISOR as nat)
}

/// A well-formed gossip payload carries every value its sender holds and the
/// peer is not yet believed to know, and only values the sender holds.
pub proof fn lemma_good_gossip_covers(seen: Seq<usize>, msgs: Seq<usize>, kn: Seq<usize>)
    requires
        good_gossip(seen, msgs, kn),
    ensures
        forall|v: usize| msgs.contains(v) && !kn.contains(v) ==> seen.contains(v),
        seen.to_set() <= msgs.to_set(),
        msgs.to_set().difference(kn.to_set()) <= seen.to_set(),
{
    broadcast use vstd::seq_lib::group_seq_properties;

    lemma_sift_props(msgs, kn);
    let mn = sift_unknown(msgs, kn);
    assert forall|v: usize| msgs.contains(v) && !kn.contains(v) implies seen.contains(v) by {
        assert(mn.contains(v));
        let i = choose|i: int| 0 <= i < mn.len() && mn[i] == v;
        assert(seen[i] == v);
    }
    assert forall|v: usize| seen.to_set().contains(v) implies msgs.to_set().contains(v) by {
        assert(seen.contains(v));
    }
    assert forall|v: usize| msgs.to_set().difference(kn.to_set()).contains(v) implies seen.to_set().contains(v) by {
        assert(msgs.contains(v) && !kn.contains(v));
        assert(seen.contains(v));
    }
}

/// Relies on rand's `Rng::gen_ratio` on the thread-local generator: a random
/// draw that is true with probability `num / den`.  The call panics only for
/// `den == 0` or `num > den`, which the precondition rules out.  Nothing is
/// promised of a random draw beyond the two sure ratios, which the crate's
/// source shows: a ratio of zero never fires and a ratio of one always does.
#[verifier::external_body]
fn sample_ratio(num: u32, den: u32) -> (r: bool)
    requires
        0 < den,
        num <= den,
    ensures
        num == 0 ==> !r,
        num == den ==> r,
{
    rand::thread_rng().gen_ratio(num, den)
}

/// Whether a value occurs in a vector of values.
fn vec_has(v: &Vec<usize>, x: usize) -> (r: bool)
    ensures
        r == v@.contains(x),
{
    let mut i: usize = 0;
    while i < v.len()
        invariant
            0 <= i <= v@.len(),
            forall|j: int| 0 <= j < i ==> v@[j] != x,
        decreases v@.len() - i,
    {
        if v[i] == x {
            return true;
        }
        i = i + 1;
    }
    false
}

/// Append a value unless it is already present.
fn vec_insert(v: &mut Vec<usize>, x: usize)
    ensures
        final(v)@ == seq_insert(old(v)@, x),
{
    if !vec_has(v, x) {
        v.push(x);
    }
}

/// Merge a sequence of values in, left to right.
fn vec_merge(v: &mut Vec<usize>, src: &Vec<usize>)
    ensures
        final(v)@ == seq_merge(old(v)@, src@),
{
    let mut i: usize = 0;
    while i < src.len()
        invariant
            0 <= i <= src@.len(),
            v@ == seq_merge(old(v)@, src@.subrange(0, i as int)),
        decreases src@.len() - i,
    {
        proof {
            assert(src@.subrange(0, i + 1).drop_last() =~= src@.subrange(0, i as int));
        }
        vec_insert(v, src[i]);
        i = i + 1;
    }
    proof {
        assert(src@.subrange(0, src@.len() as int) =~= src@);
    }
}

/// Build the gossip payload for one peer: everything the peer provably lacks,
/// followed by a random resend of values it is already believed to know,
/// capped at a tenth of the must-send count so that mutual knowledge can
/// still converge at a bounded cost.
fn gossip_payload(messages: &Vec<usize>, kn: &Vec<usize>) -> (r: Vec<usize>)
    requires
        messages@.no_duplicates(),
    ensures
        good_gossip(r@, messages@, kn@),
{
    let ghost msgsv = messages@;
    let ghost knv = kn@;
    let mut notify: Vec<usize> = Vec::new();
    let mut already: Vec<usize> = Vec::new();
    let mut i: usize = 0;
    while i < messages.len()
        invariant
            i <= msgsv.len(),
            msgsv == messages@,
            knv == kn@,
            notify@ == sift_unknown(msgsv.subrange(0, i as int), knv),
            already@ == sift_known(msgsv.subrange(0, i as int), knv),
        decreases msgsv.len() - i,
    {
        proof {
            assert(msgsv.subrange(0, i + 1).drop_last() =~= msgsv.subrange(0, i as int));
            assert(msgsv.subrange(0, i + 1).last() == msgsv[i as int]);
        }
        if vec_has(kn, messages[i]) {
            already.push(messages[i]);
        } else {
            notify.push(messages[i]);
        }
        i = i + 1;
    }
    proof {
        assert(msgsv.subrange(0, msgsv.len() as int) =~= msgsv);
        lemma_sift_props(msgsv, knv);
        lemma_sift_known_none(notify@, knv);
        assert forall|jj: int|
            0 <= jj < already@.len() implies !notify@.contains(already@[jj]) by {
            assert(already@.contains(already@[jj]));
        }
    }
    let cap: usize = notify.len() / RESEND_DIVISOR;
    let mut out = notify;
    let mut extras: usize = 0;
    let mut j: usize = 0;
    while j < already.len()
        invariant
            j <= already@.len(),
            extras <= cap,
            cap == sift_unknown(msgsv, knv).len() / 10,
            already@ == sift_known(msgsv, knv),
            msgsv.no_duplicates(),
            knv == kn@,
            sift_unknown(msgsv, knv).is_prefix_of(out@),
            sift_known(out@, knv).len() == extras,
            out@.no_duplicates(),
            forall|v: usize| out@.contains(v) ==> msgsv.contains(v),
            forall|jj: int| j <= jj < already@.len() ==> !out@.contains(already@[jj]),
        decreases already@.len() - j,
    {
        proof {
            lemma_sift_props(msgsv, knv);
            assert(already@.contains(already@[j as int]));
        }
        if extras < cap {
            let den: u32 = if already.len() > 0xFFFF_FFFFusize {
                0xFFFF_FFFFu32
            } else {
                already.len() as u32
            };
            let num: u32 = if cap < den as usize {
                cap as u32
            } else {
                den
            };
            if sample_ratio(num, den) {
                let ghost out0 = out@;
                let a = already[j];
                out.push(a);
                extras = extras + 1;
                proof {
                    broadcast use vstd::seq_lib::group_seq_properties;

                    lemma_sift_push(out0, knv, a);
                }
            }
        }
        j = j + 1;
    }
    out
}

/// What the gossip envelope sent to the `j`-th neighbor of node `n` in one
/// tick looks like: from `n`, to that neighbor, no reply reference, a fresh
/// id `j` steps past the counter, and a well-formed gossip payload for what
/// `n` believes of that neighbor.
pub open spec fn gossip_msg_ok(m: Message<BroadcastPayload>, n: BroadcastNode, j: int) -> bool {
    &&& m.src@ == n.node@
    &&& m.dst@ == n.neighborhood@[j]@
    &&& m.body.id == Some((n.id + j) as usize)
    &&& m.body.in_reply_to == None::<usize>
    &&& (m.body.payload matches BroadcastPayload::Gossip { seen } && good_gossip(
        seen@,
        n.messages@,
        table_at(n.ktab(), n.neighborhood@[j]@),
    ))
}

/// Recording a value a second time changes nothing: recording is idempotent,
/// so delivering the same broadcast twice leaves the node where one delivery
/// left it.
pub proof fn lemma_insert_idempotent(s: Seq<usize>, m: usize)
    ensures
        seq_insert(seq_insert(s, m), m) == seq_insert(s, m),
{
    broadcast use vstd::seq_lib::group_seq_properties;

    if !s.contains(m) {
        assert(s.push(m)[s.len() as int] == m);
        assert(s.push(m).contains(m));
    }
}

/// The resend of already-known values in one gossip payload never exceeds a
/// tenth of the must-send count — in particular it stays under
/// `max(1, a tenth of the must-send count)`, and is never unbounded.
pub proof fn lemma_bounded_redundancy(seen: Seq<usize>, msgs: Seq<usize>, kn: Seq<usize>)
    requires
        good_gossip(seen, msgs, kn),
    ensures
        sift_known(seen, kn).len() <= vstd::math::max(
            1,
            sift_unknown(msgs, kn).len() as int / (RESEND_DIVISOR as int),
        ),
{
}

/// Reading twice with no write in between answers the same snapshot: a read
/// leaves the value set untouched and reports exactly what the node holds,
/// so the second report repeats the first.
pub proof fn lemma_read_stable(
    pre: BroadcastNode,
    mid: BroadcastNode,
    post: BroadcastNode,
    m1: Message<BroadcastPayload>,
    m2: Message<BroadcastPayload>,
    out1: Vec<Message<BroadcastPayload>>,
    out2: Vec<Message<BroadcastPayload>>,
)
    requires
        m1.body.payload is Read,
        m2.body.payload is Read,
        msg_post(pre, mid, m1, Ok(out1)),
        msg_post(mid, post, m2, Ok(out2)),
    ensures
        out1@[0].body.payload matches BroadcastPayload::ReadOk { message: a } && (
        out2@[0].body.payload matches BroadcastPayload::ReadOk { message: b } && a@ == b@),
{
}

/// The convergence step of the protocol.  Node `a` gossips to node `b` and
/// the payload is delivered.  If `a`'s belief about `b` was sound — `a`
/// believed `b` to know only values `b` really holds — then after `b` merges
/// the payload, `b` holds exactly the union of what the two nodes held when
/// the payload was built.  Repeated over the edges of a connected topology,
/// this is what carries every value to every node.
pub proof fn lemma_exchange_converges(
    a: BroadcastNode,
    b_pre: BroadcastNode,
    b_post: BroadcastNode,
    seen: Seq<usize>,
)
    requires
        good_gossip(seen, a.messages@, table_at(a.ktab(), b_pre.node@)),
        a.known_set(b_pre.node@) <= b_pre.msg_set(),
        b_post.msg_set() == b_pre.msg_set() + seen.to_set(),
    ensures
        b_post.msg_set() == a.msg_set() + b_pre.msg_set(),
{
    broadcast use vstd::seq_lib::group_seq_properties;

    let kn = table_at(a.ktab(), b_pre.node@);
    lemma_good_gossip_covers(seen, a.messages@, kn);
    assert forall|v: usize| a.msg_set().contains(v) implies b_post.msg_set().contains(v) by {
        assert(a.messages@.contains(v));
        if kn.contains(v) {
            assert(kn.to_set().contains(v));
            assert(b_pre.msg_set().contains(v));
        } else {
            assert(seen.contains(v));
            assert(seen.to_set().contains(v));
        }
    }
    assert forall|v: usize| seen.to_set().contains(v) implies a.msg_set().contains(v) by {
        assert(seen.contains(v));
        assert(a.messages@.contains(v));
    }
    assert(b_post.msg_set() =~= a.msg_set() + b_pre.msg_set());
}

/// The convergence step, composed out of the functions' own contracts: a
/// tick of node `a` emitted a gossip envelope for its `j`-th neighbor; that
/// neighbor merged the payload as receiving gossip does.  If `a`'s belief
/// about the neighbor was sound, the neighbor now holds exactly the union of
/// what the two nodes held.
pub proof fn lemma_tick_delivery_converges(
    a: BroadcastNode,
    out: Vec<Message<BroadcastPayload>>,
    j: int,
    b_pre: BroadcastNode,
    b_post: BroadcastNode,
)
    requires
        0 <= j < out@.len(),
        gossip_msg_ok(out@[j], a, j),
        b_pre.node@ == a.neighborhood@[j]@,
        a.known_set(b_pre.node@) <= b_pre.msg_set(),
        (out@[j].body.payload matches BroadcastPayload::Gossip { seen } && b_post.msg_set()
            == b_pre.msg_set() + seen@.to_set()),
    ensures
        b_post.msg_set() == a.msg_set() + b_pre.msg_set(),
{
    let seen = out@[j].body.payload->Gossip_seen;
    lemma_exchange_converges(a, b_pre, b_post, seen@);
}

/// A cluster's beliefs are sound when no node believes a peer to know a
/// value the peer does not hold.  This is the inductive invariant of the
/// protocol: under it, every delivered gossip makes the receiver a superset
/// of the sender, so values spread along every edge of the topology until
/// every node holds the union.
pub open spec fn sound_cluster(c: Map<Seq<char>, BroadcastNode>) -> bool {
    forall|a: Seq<char>, b: Seq<char>|
        c.dom().contains(a) && c.dom().contains(b) && #[trigger] c[a].knows_peer(b) ==> c[
            a].known_set(b) <= c[b].msg_set()
}

/// Soundness is kept by every step that only grows a node's values and
/// leaves its beliefs alone: recording a broadcast, answering a read, a
/// gossip tick, the end of the stream.
pub proof fn lemma_sound_after_local_step(
    c: Map<Seq<char>, BroadcastNode>,
    x: Seq<char>,
    post: BroadcastNode,
)
    requires
        sound_cluster(c),
        c.dom().contains(x),
        c[x].msg_set() <= post.msg_set(),
        forall|k: Seq<char>| post.knows_peer(k) <==> c[x].knows_peer(k),
        forall|k: Seq<char>| c[x].knows_peer(k) ==> post.known_set(k) == c[x].known_set(k),
    ensures
        sound_cluster(c.insert(x, post)),
{
    let c2 = c.insert(x, post);
    assert forall|a: Seq<char>, b: Seq<char>|
        c2.dom().contains(a) && c2.dom().contains(b) && #[trigger] c2[a].knows_peer(b) implies c2[
        a].known_set(b) <= c2[b].msg_set() by {
        assert(c[a].knows_peer(b));
        assert(c[a].known_set(b) <= c[b].msg_set());
        if a == x {
            assert(c2[a].known_set(b) == c[a].known_set(b));
        }
        if b == x {
            assert(c[b].msg_set() <= c2[b].msg_set());
        }
    }
}

/// Soundness is kept by a delivered gossip: the receiver merges the payload
/// into its values and into its belief about the sender, and — since the
/// payload carries only values the sender holds — the new belief still
/// covers only values the sender really holds.
pub proof fn lemma_sound_after_delivery(
    c: Map<Seq<char>, BroadcastNode>,
    x: Seq<char>,
    s: Seq<char>,
    seen: Seq<usize>,
    post: BroadcastNode,
)
    requires
        sound_cluster(c),
        c.dom().contains(x),
        c.dom().contains(s),
        seen.to_set() <= c[s].msg_set(),
        c[x].knows_peer(s),
        post.msg_set() == c[x].msg_set() + seen.to_set(),
        post.known_set(s) == c[x].known_set(s) + seen.to_set(),
        forall|k: Seq<char>| post.knows_peer(k) <==> c[x].knows_peer(k),
        forall|k: Seq<char>|
            k != s && c[x].knows_peer(k) ==> post.known_set(k) == c[x].known_set(k),
    ensures
        sound_cluster(c.insert(x, post)),
{
    let c2 = c.insert(x, post);
    assert forall|a: Seq<char>, b: Seq<char>|
        c2.dom().contains(a) && c2.dom().contains(b) && #[trigger] c2[a].knows_peer(b) implies c2[
        a].known_set(b) <= c2[b].msg_set() by {
        assert(c[a].knows_peer(b));
        assert(c[a].known_set(b) <= c[b].msg_set());
        assert(c[x].msg_set() <= post.msg_set());
        if a == x && b == s {
            assert forall|v: usize| post.known_set(s).contains(v) implies c2[b].msg_set().contains(
                v,
            ) by {
                if c[x].known_set(s).contains(v) || seen.to_set().contains(v) {
                    assert(c[s].msg_set().contains(v));
                }
            }
        } else if a == x {
            assert(c2[a].known_set(b) == c[a].known_set(b));
        }
    }
}

/// Whether every node of the cluster holds only values from the given set —
/// with the set of all broadcast values for it, this is the safety half of
/// convergence: gossip moves values around but never invents one.
pub open spec fn values_within(c: Map<Seq<char>, BroadcastNode>, vs: Set<usize>) -> bool {
    forall|x: Seq<char>| #[trigger] c.dom().contains(x) ==> c[x].msg_set() <= vs
}

/// Recording a broadcast value keeps every node within the broadcast set
/// once the value itself is counted.
pub proof fn lemma_within_after_broadcast(
    c: Map<Seq<char>, BroadcastNode>,
    vs: Set<usize>,
    x: Seq<char>,
    message: usize,
    post: BroadcastNode,
)
    requires
        values_within(c, vs),
        c.dom().contains(x),
        post.msg_set() == c[x].msg_set().insert(message),
    ensures
        values_within(c.insert(x, post), vs.insert(message)),
{
    assert forall|y: Seq<char>| #[trigger] c.insert(x, post).dom().contains(y) implies c.insert(
        x,
        post,
    )[y].msg_set() <= vs.insert(message) by {
        assert(c[y].msg_set() <= vs);
    }
}

/// A delivered gossip keeps every node within the broadcast set: the payload
/// carried only values its sender already held.
pub proof fn lemma_within_after_delivery(
    c: Map<Seq<char>, BroadcastNode>,
    vs: Set<usize>,
    x: Seq<char>,
    s: Seq<char>,
    seen: Seq<usize>,
    post: BroadcastNode,
)
    requires
        values_within(c, vs),
        c.dom().contains(x),
        c.dom().contains(s),
        seen.to_set() <= c[s].msg_set(),
        post.msg_set() == c[x].msg_set() + seen.to_set(),
    ensures
        values_within(c.insert(x, post), vs),
{
    assert forall|y: Seq<char>| #[trigger] c.insert(x, post).dom().contains(y) implies c.insert(
        x,
        post,
    )[y].msg_set() <= vs by {
        assert(c[y].msg_set() <= vs);
        if y == x {
            assert(c[s].msg_set() <= vs);
        }
    }
}

/// What one gossip tick does: the state keeps everything but the message
/// counter; on success one well-formed gossip envelope per neighbor goes out
/// and the counter moves past the ids they took; the tick fails — changing
/// nothing — exactly when a neighbor was never introduced by the init
/// message or the counter cannot cover one fresh id per neighbor.
pub open spec fn tick_post(
    pre: BroadcastNode,
    post: BroadcastNode,
    r: Result<Vec<Message<BroadcastPayload>>, NodeError>,
) -> bool {
    &&& post.messages == pre.messages
    &&& post.known == pre.known
    &&& post.neighborhood == pre.neighborhood
    &&& post.neighborhood_set == pre.neighborhood_set
    &&& post.node == pre.node
    &&& match r {
        Ok(out) => {
            &&& (forall|j: int|
                0 <= j < pre.neighborhood@.len() ==> pre.knows_peer(
                    (#[trigger] pre.neighborhood@[j])@,
                ))
            &&& post.id == pre.id + pre.neighborhood@.len()
            &&& out@.len() == pre.neighborhood@.len()
            &&& (forall|j: int| 0 <= j < out@.len() ==> gossip_msg_ok(#[trigger] out@[j], pre, j))
        },
        Err(e) => {
            &&& post == pre
            &&& (e == NodeError::IdExhausted || e == NodeError::UnknownNeighbor)
            &&& (e == NodeError::IdExhausted ==> pre.id + pre.neighborhood@.len() > usize::MAX)
            &&& (e == NodeError::UnknownNeighbor ==> exists|j: int|
                0 <= j < pre.neighborhood@.len() && !pre.knows_peer(
                    (#[trigger] pre.neighborhood@[j])@,
                ))
        },
    }
}

/// A reply envelope: back to where the request came from, referring to the
/// request's id, sent under the fresh id it was given.
pub open spec fn is_reply_to(
    rm: Message<BroadcastPayload>,
    m: Message<BroadcastPayload>,
    fresh: usize,
) -> bool {
    &&& rm.src@ == m.dst@
    &&& rm.dst@ == m.src@
    &&& rm.body.id == Some(fresh)
    &&& rm.body.in_reply_to == m.body.id
}

/// What handling one inbound envelope does, case by case over its payload:
/// which state change it makes, which reply it sends, and exactly when it
/// fails instead (changing nothing).
pub open spec fn msg_post(
    pre: BroadcastNode,
    post: BroadcastNode,
    m: Message<BroadcastPayload>,
    r: Result<Vec<Message<BroadcastPayload>>, NodeError>,
) -> bool {
    &&& post.node == pre.node
    &&& match m.body.payload {
        BroadcastPayload::Broadcast { message } => match r {
            Ok(out) => {
                &&& post.messages@ == seq_insert(pre.messages@, message)
                &&& post.msg_set() == pre.msg_set().insert(message)
                &&& post.known == pre.known
                &&& post.neighborhood == pre.neighborhood
                &&& post.neighborhood_set == pre.neighborhood_set
                &&& post.id == pre.id + 1
                &&& out@.len() == 1
                &&& is_reply_to(out@[0], m, pre.id)
                &&& out@[0].body.payload is BroadcastOk
            },
            Err(e) => e == NodeError::IdExhausted && pre.id == usize::MAX && post == pre,
        },
        BroadcastPayload::Read => match r {
            Ok(out) => {
                &&& post.messages == pre.messages
                &&& post.known == pre.known
                &&& post.neighborhood == pre.neighborhood
                &&& post.neighborhood_set == pre.neighborhood_set
                &&& post.id == pre.id + 1
                &&& out@.len() == 1
                &&& is_reply_to(out@[0], m, pre.id)
                &&& (out@[0].body.payload matches BroadcastPayload::ReadOk { message }
                    && message@ == pre.messages@)
            },
            Err(e) => e == NodeError::IdExhausted && pre.id == usize::MAX && post == pre,
        },
        BroadcastPayload::Topology { topology } => match r {
            Ok(out) => {
                &&& !pre.neighborhood_set
                &&& post.neighborhood_set
                &&& (exists|i: int|
                    0 <= i < topology@.len() && (#[trigger] topology@[i]).0@ == pre.node@
                        && post.neighborhood@ == topology@[i].1@)
                &&& post.messages == pre.messages
                &&& post.known == pre.known
                &&& post.id == pre.id + 1
                &&& out@.len() == 1
                &&& is_reply_to(out@[0], m, pre.id)
                &&& out@[0].body.payload is TopologyOk
            },
            Err(e) => {
                &&& post == pre
                &&& (e == NodeError::IdExhausted || e == NodeError::TopologyAlreadySet || e
                    == NodeError::NoTopologyEntry)
                &&& (e == NodeError::IdExhausted <==> pre.id == usize::MAX)
                &&& (e == NodeError::TopologyAlreadySet <==> pre.id < usize::MAX
                    && pre.neighborhood_set)
                &&& (e == NodeError::NoTopologyEntry ==> !pre.neighborhood_set && forall|i: int|
                    0 <= i < topology@.len() ==> (#[trigger] topology@[i]).0@ != pre.node@)
            },
        },
        BroadcastPayload::Gossip { seen } => match r {
            Ok(out) => {
                &&& out@.len() == 0
                &&& pre.knows_peer(m.src@)
                &&& post.messages@ == seq_merge(pre.messages@, seen@)
                &&& post.msg_set() == pre.msg_set() + seen@.to_set()
                &&& post.known_set(m.src@) == pre.known_set(m.src@) + seen@.to_set()
                &&& (forall|k: Seq<char>| post.knows_peer(k) <==> pre.knows_peer(k))
                &&& (forall|k: Seq<char>|
                    k != m.src@ && pre.knows_peer(k) ==> post.known_set(k) == pre.known_set(k))
                &&& post.neighborhood == pre.neighborhood
                &&& post.neighborhood_set == pre.neighborhood_set
                &&& post.id == pre.id
            },
            Err(e) => e == NodeError::UnknownGossipSource && !pre.knows_peer(m.src@) && post
                == pre,
        },
        _ => r matches Ok(out) && out@.len() == 0 && post == pre,
    }
}

/// Everything one step guarantees, whatever the event: the universal laws —
/// the value set only grows, the message counter never moves back, a failed
/// step changes nothing, every outbound id is fresh and the ids increase
/// along the outbound list, every reply answers the sender and refers to the
/// request's id — and, per event, the exact case contract.
pub open spec fn step_post(
    pre: BroadcastNode,
    post: BroadcastNode,
    input: Event<BroadcastPayload, BroadcastTimer>,
    r: Result<Vec<Message<BroadcastPayload>>, NodeError>,
) -> bool {
    &&& post.node == pre.node
    &&& pre.msg_set() <= post.msg_set()
    &&& pre.id <= post.id
    &&& (r is Err ==> post == pre)
    &&& match input {
        Event::EOF => r matches Ok(out) && out@.len() == 0 && post == pre,
        Event::Injected(_) => tick_post(pre, post, r),
        Event::Message(m) => msg_post(pre, post, m, r),
    }
    &&& (r matches Ok(out) ==> {
        &&& (forall|a: int|
            0 <= a < out@.len() && (#[trigger] out@[a]).body.id is Some ==> pre.id
                <= out@[a].body.id->0 < post.id)
        &&& (forall|a: int, b: int|
            0 <= a < b < out@.len() && (#[trigger] out@[a]).body.id is Some && (
            #[trigger] out@[b]).body.id is Some ==> out@[a].body.id->0 < out@[b].body.id->0)
    })
    &&& (input matches Event::Message(m) ==> (r matches Ok(out) ==> forall|a: int|
        0 <= a < out@.len() ==> (#[trigger] out@[a]).body.in_reply_to == m.body.id && out@[a].dst@
            == m.src@))
}

/// Find the row of a peer in the knowledge table.
fn table_find(known: &Vec<(String, Vec<usize>)>, peer: &String) -> (r: Option<usize>)
    ensures
        match r {
            Some(i) => 0 <= i < known@.len() && table_view(known@)[i as int].0 == peer@,
            None => !table_has(table_view(known@), peer@),
        },
{
    let mut i: usize = 0;
    while i < known.len()
        invariant
            0 <= i <= known@.len(),
            forall|j: int| 0 <= j < i ==> table_view(known@)[j].0 != peer@,
        decreases known@.len() - i,
    {
        if known[i].0.eq(peer) {
            return Some(i);
        }
        i = i + 1;
    }
    None
}

impl BroadcastNode {
    /// Build the initial state from the init request: no values, no
    /// neighborhood yet, an empty belief about every participant, and the
    /// message counter at 1 (0 is the id of the init acknowledgment).
    pub fn from_init(init: Init) -> (r: BroadcastNode)
        ensures
            r.wf(),
            r.node@ == init.node_id@,
            r.id == 1,
            r.messages@.len() == 0,
            r.neighborhood@.len() == 0,
            !r.neighborhood_set,
            forall|k: Seq<char>|
                r.knows_peer(k) <==> (exists|i: int|
                    0 <= i < init.node_ids@.len() && (#[trigger] init.node_ids@[i])@ == k),
            forall|k: Seq<char>| r.knows_peer(k) ==> r.known_set(k) == Set::<usize>::empty(),
    {
        let mut known: Vec<(String, Vec<usize>)> = Vec::new();
        let ids = init.node_ids;
        let mut i: usize = 0;
        while i < ids.len()
            invariant
                0 <= i <= ids@.len(),
                forall|p: int, q: int|
                    0 <= p < q < table_view(known@).len() ==> table_view(known@)[p].0
                        != table_view(known@)[q].0,
                forall|j: int|
                    0 <= j < table_view(known@).len() ==> (#[trigger] table_view(
                        known@,
                    )[j]).1.len() == 0,
                forall|k: Seq<char>|
                    table_has(table_view(known@), k) <==> (exists|j: int|
                        0 <= j < i && (#[trigger] ids@[j])@ == k),
            decreases ids@.len() - i,
        {
            let ghost prev = table_view(known@);
            match table_find(&known, &ids[i]) {
                None => {
                    let entry = (ids[i].clone(), Vec::<usize>::new());
                    known.push(entry);
                    proof {
                        assert(table_view(known@) =~= prev.push((ids@[i as int]@, Seq::empty())));
                        assert forall|k: Seq<char>|
                            table_has(table_view(known@), k) <==> (exists|j: int|
                                0 <= j < i + 1 && (#[trigger] ids@[j])@ == k) by {
                            if table_has(table_view(known@), k) {
                                let r = table_row(table_view(known@), k);
                                if r < prev.len() {
                                    assert(table_has(prev, k));
                                } else {
                                    assert((#[trigger] ids@[i as int])@ == k);
                                }
                            }
                            if exists|j: int| 0 <= j < i + 1 && (#[trigger] ids@[j])@ == k {
                                let j = choose|j: int|
                                    0 <= j < i + 1 && (#[trigger] ids@[j])@ == k;
                                if j < i {
                                    assert(table_has(prev, k));
                                    let r = table_row(prev, k);
                                    assert(table_view(known@)[r].0 == k);
                                } else {
                                    assert(table_view(known@)[prev.len() as int].0 == k);
                                }
                            }
                        }
                    }
                },
                Some(row) => {
                    proof {
                        assert(table_view(known@)[row as int].0 == (#[trigger] ids@[i as int])@);
                    }
                },
            }
            i = i + 1;
        }
        let node = BroadcastNode {
            node: init.node_id,
            id: 1,
            messages: Vec::new(),
            neighborhood: Vec::new(),
            neighborhood_set: false,
            known,
        };
        proof {
            assert forall|k: Seq<char>| node.knows_peer(k) implies node.known_set(k) == Set::<
                usize,
            >::empty() by {
                assert(table_at(node.ktab(), k).to_set() =~= Set::<usize>::empty());
            }
        }
        node
    }

    /// Record one application value: the set of values grows by the value
    /// and nothing else changes.  Recording a value twice is the same as
    /// recording it once.
    pub fn handle_broadcast(&mut self, message: usize)
        requires
            old(self).wf(),
        ensures
            final(self).wf(),
            final(self).messages@ == seq_insert(old(self).messages@, message),
            final(self).msg_set() == old(self).msg_set().insert(message),
            final(self).node == old(self).node,
            final(self).id == old(self).id,
            final(self).neighborhood == old(self).neighborhood,
            final(self).neighborhood_set == old(self).neighborhood_set,
            final(self).known == old(self).known,
    {
        proof {
            broadcast use vstd::seq_lib::group_seq_properties;

            if old(self).messages@.contains(message) {
                assert(old(self).messages@.to_set() =~= old(self).msg_set().insert(message));
            } else {
                assert(old(self).messages@.push(message).to_set() =~= old(self).msg_set().insert(
                    message,
                ));
            }
        }
        vec_insert(&mut self.messages, message);
        proof {
            assert(self.ktab() == old(self).ktab());
            if !old(self).messages@.contains(message) {
                assert forall|i: int, j: int|
                    0 <= i < self.messages@.len() && 0 <= j < self.messages@.len() && i
                        != j implies self.messages@[i] != self.messages@[j] by {
                    if i < self.messages@.len() - 1 && j < self.messages@.len() - 1 {
                        assert(old(self).messages@[i] != old(self).messages@[j]);
                    } else if j == self.messages@.len() - 1 {
                        assert(self.messages@[i] == old(self).messages@[i]);
                        assert(old(self).messages@.contains(old(self).messages@[i]));
                    } else {
                        assert(self.messages@[j] == old(self).messages@[j]);
                        assert(old(self).messages@.contains(old(self).messages@[j]));
                    }
                }
            }
        }
    }

    /// A snapshot of every value seen so far, in arrival order.
    pub fn handle_read(&self) -> (r: Vec<usize>)
        ensures
            r@ == self.messages@,
    {
        self.messages.clone()
    }

    /// Assign the gossip fan-out from the first topology message: the entry
    /// under this node's id becomes the neighborhood, exactly once and
    /// immutable thereafter — a second topology message is a fatal protocol
    /// error.  A topology with no entry for this node is a fatal
    /// configuration error.  Either error changes nothing.
    pub fn handle_topology(&mut self, topology: &Vec<(String, Vec<String>)>) -> (r: Result<
        (),
        NodeError,
    >)
        requires
            old(self).wf(),
        ensures
            final(self).wf(),
            match r {
                Ok(()) => {
                    &&& !old(self).neighborhood_set
                    &&& final(self).neighborhood_set
                    &&& (exists|i: int|
                        0 <= i < topology@.len() && (#[trigger] topology@[i]).0@ == old(self).node@
                            && final(self).neighborhood@ == topology@[i].1@)
                    &&& final(self).messages == old(self).messages
                    &&& final(self).node == old(self).node
                    &&& final(self).id == old(self).id
                    &&& final(self).known == old(self).known
                },
                Err(e) => {
                    &&& (e == NodeError::TopologyAlreadySet <==> old(self).neighborhood_set)
                    &&& (e == NodeError::NoTopologyEntry <==> !old(self).neighborhood_set)
                    &&& (e == NodeError::NoTopologyEntry ==> forall|i: int|
                        0 <= i < topology@.len() ==> (#[trigger] topology@[i]).0@ != old(
                            self,
                        ).node@)
                    &&& *final(self) == *old(self)
                },
            },
    {
        if self.neighborhood_set {
            return Err(NodeError::TopologyAlreadySet);
        }
        let mut i: usize = 0;
        while i < topology.len()
            invariant
                0 <= i <= topology@.len(),
                forall|j: int| 0 <= j < i ==> (#[trigger] topology@[j]).0@ != self.node@,
                *self == *old(self),
                old(self).wf(),
                !old(self).neighborhood_set,
            decreases topology@.len() - i,
        {
            if topology[i].0.eq(&self.node) {
                self.neighborhood = topology[i].1.clone();
                self.neighborhood_set = true;
                proof {
                    assert(self.neighborhood@ =~= topology@[i as int].1@);
                    assert(self.ktab() == old(self).ktab());
                }
                return Ok(());
            }
            i = i + 1;
        }
        Err(NodeError::NoTopologyEntry)
    }

    /// Merge a peer's gossip in: everything the peer sent joins this node's
    /// values, and — since the peer clearly has what it sent — joins the
    /// belief about that peer.  Gossip from a node the init message never
    /// introduced is a fatal protocol error and changes nothing.
    pub fn handle_gossip(&mut self, peer: &String, seen: &Vec<usize>) -> (r: Result<
        (),
        NodeError,
    >)
        requires
            old(self).wf(),
        ensures
            final(self).wf(),
            match r {
                Ok(()) => {
                    &&& old(self).knows_peer(peer@)
                    &&& final(self).msg_set() == old(self).msg_set() + seen@.to_set()
                    &&& final(self).messages@ == seq_merge(old(self).messages@, seen@)
                    &&& final(self).known_set(peer@) == old(self).known_set(peer@) + seen@.to_set()
                    &&& (forall|k: Seq<char>|
                        final(self).knows_peer(k) <==> old(self).knows_peer(k))
                    &&& (forall|k: Seq<char>|
                        k != peer@ && old(self).knows_peer(k) ==> final(self).known_set(k) == old(
                            self,
                        ).known_set(k))
                    &&& final(self).node == old(self).node
                    &&& final(self).id == old(self).id
                    &&& final(self).neighborhood == old(self).neighborhood
                    &&& final(self).neighborhood_set == old(self).neighborhood_set
                },
                Err(e) => {
                    &&& e == NodeError::UnknownGossipSource
                    &&& !old(self).knows_peer(peer@)
                    &&& *final(self) == *old(self)
                },
            },
    {
        let row = match table_find(&self.known, peer) {
            Some(i) => i,
            None => {
                return Err(NodeError::UnknownGossipSource);
            },
        };
        let ghost tab0 = self.ktab();
        let key = self.known[row].0.clone();
        let mut values = self.known[row].1.clone();
        proof {
            assert(values@ =~= tab0[row as int].1);
        }
        vec_merge(&mut values, seen);
        self.known.set(row, (key, values));
        proof {
            lemma_seq_merge_set(tab0[row as int].1, seen@);
            let tab1 = self.ktab();
            assert(tab1 =~= tab0.update(
                row as int,
                (tab0[row as int].0, seq_merge(tab0[row as int].1, seen@)),
            ));
            assert(forall|i: int| 0 <= i < tab1.len() ==> tab1[i].0 == tab0[i].0);
            assert(forall|p: int, q: int| 0 <= p < q < tab1.len() ==> tab1[p].0 != tab1[q].0);
            lemma_table_row_unique(tab0, peer@, row as int);
            lemma_table_row_unique(tab1, peer@, row as int);
            assert(self.known_set(peer@) =~= old(self).known_set(peer@) + seen@.to_set());
            assert forall|k: Seq<char>| self.knows_peer(k) <==> old(self).knows_peer(k) by {
                if table_has(tab0, k) {
                    let i = table_row(tab0, k);
                    lemma_table_row_unique(tab1, k, i);
                }
                if table_has(tab1, k) {
                    let i = table_row(tab1, k);
                    lemma_table_row_unique(tab0, k, i);
                }
            }
            assert forall|k: Seq<char>|
                k != peer@ && old(self).knows_peer(k) implies self.known_set(k) == old(
                self,
            ).known_set(k) by {
                let i = table_row(tab0, k);
                lemma_table_row_unique(tab0, k, i);
                lemma_table_row_unique(tab1, k, i);
                assert(i != row as int);
                assert(tab1[i] == tab0[i]);
            }
        }
        vec_merge(&mut self.messages, seen);
        proof {
            lemma_seq_merge_set(old(self).messages@, seen@);
        }
        Ok(())
    }

    /// One gossip tick: send one gossip message to every neighbor, in
    /// neighborhood order, each under a fresh id.  Fails — and changes
    /// nothing — when a neighbor was never introduced by the init message,
    /// or when the counter cannot cover one fresh id per neighbor.
    pub fn gossip_tick(&mut self) -> (r: Result<Vec<Message<BroadcastPayload>>, NodeError>)
        requires
            old(self).wf(),
        ensures
            final(self).wf(),
            tick_post(*old(self), *final(self), r),
    {
        let n_peers = self.neighborhood.len();
        if n_peers > usize::MAX - self.id {
            return Err(NodeError::IdExhausted);
        }
        let mut j: usize = 0;
        while j < n_peers
            invariant
                j <= n_peers,
                n_peers == self.neighborhood@.len(),
                *self == *old(self),
                old(self).wf(),
                forall|k: int|
                    0 <= k < j ==> self.knows_peer((#[trigger] self.neighborhood@[k])@),
            decreases n_peers - j,
        {
            let peer = &self.neighborhood[j];
            if table_find(&self.known, peer).is_none() {
                return Err(NodeError::UnknownNeighbor);
            }
            j = j + 1;
        }
        let mut out: Vec<Message<BroadcastPayload>> = Vec::new();
        j = 0;
        while j < n_peers
            invariant
                j <= n_peers,
                n_peers == self.neighborhood@.len(),
                old(self).id + n_peers <= usize::MAX,
                self.messages == old(self).messages,
                self.known == old(self).known,
                self.neighborhood == old(self).neighborhood,
                self.neighborhood_set == old(self).neighborhood_set,
                self.node == old(self).node,
                self.id == old(self).id + j,
                old(self).wf(),
                forall|k: int|
                    0 <= k < n_peers ==> old(self).knows_peer(
                        (#[trigger] old(self).neighborhood@[k])@,
                    ),
                out@.len() == j,
                forall|k: int| 0 <= k < j ==> gossip_msg_ok(#[trigger] out@[k], *old(self), k),
            decreases n_peers - j,
        {
            let row = match table_find(&self.known, &self.neighborhood[j]) {
                Some(row) => row,
                None => {
                    proof {
                        assert(false);
                    }
                    return Err(NodeError::UnknownNeighbor);
                },
            };
            proof {
                lemma_table_row_unique(self.ktab(), self.neighborhood@[j as int]@, row as int);
            }
            let seen = gossip_payload(&self.messages, &self.known[row].1);
            let envelope = Message {
                src: self.node.clone(),
                dst: self.neighborhood[j].clone(),
                body: Body {
                    id: Some(self.id),
                    in_reply_to: None,
                    payload: BroadcastPayload::Gossip { seen },
                },
            };
            out.push(envelope);
            self.id = self.id + 1;
            j = j + 1;
        }
        proof {
            assert(self.ktab() == old(self).ktab());
        }
        Ok(out)
    }

    /// Process one event.  The contract pins every case down: what the state
    /// becomes, what goes out, and exactly when the node fails instead.  Two
    /// clauses hold whatever the event was: the set of values only grows,
    /// and every outbound id is fresh — at least the old counter value,
    /// below the new one, and increasing along the outbound list.  Every
    /// reply goes back to the sender of the request and refers to its id.
    pub fn step(&mut self, input: Event<BroadcastPayload, BroadcastTimer>) -> (r: Result<
        Vec<Message<BroadcastPayload>>,
        NodeError,
    >)
        requires
            old(self).wf(),
        ensures
            final(self).wf(),
            step_post(*old(self), *final(self), input, r),
    {
        match input {
            Event::EOF => Ok(Vec::new()),
            Event::Injected(_timer) => {
                let r = self.gossip_tick();
                proof {
                    if r is Ok {
                        let out = r->Ok_0;
                        assert forall|a: int|
                            0 <= a < out@.len() && (#[trigger] out@[a]).body.id is Some implies old(
                            self,
                        ).id <= out@[a].body.id->0 < self.id by {
                            assert(gossip_msg_ok(out@[a], *old(self), a));
                        }
                        assert forall|a: int, b: int|
                            0 <= a < b < out@.len() && (#[trigger] out@[a]).body.id is Some && (
                            #[trigger] out@[b]).body.id is Some implies out@[a].body.id->0
                            < out@[b].body.id->0 by {
                            assert(gossip_msg_ok(out@[a], *old(self), a));
                            assert(gossip_msg_ok(out@[b], *old(self), b));
                        }
                    }
                }
                r
            },
            Event::Message(m) => {
                let Message { src, dst, body } = m;
                let Body { id: req_id, in_reply_to: _, payload } = body;
                match payload {
                    BroadcastPayload::Broadcast { message } => {
                        if self.id == usize::MAX {
                            return Err(NodeError::IdExhausted);
                        }
                        self.handle_broadcast(message);
                        let fresh = self.id;
                        self.id = self.id + 1;
                        proof {
                            assert(self.ktab() == old(self).ktab());
                        }
                        let reply = Message {
                            src: dst,
                            dst: src,
                            body: Body {
                                id: Some(fresh),
                                in_reply_to: req_id,
                                payload: BroadcastPayload::BroadcastOk,
                            },
                        };
                        let mut out: Vec<Message<BroadcastPayload>> = Vec::new();
                        out.push(reply);
                        Ok(out)
                    },
                    BroadcastPayload::Read => {
                        if self.id == usize::MAX {
                            return Err(NodeError::IdExhausted);
                        }
                        let snapshot = self.handle_read();
                        let fresh = self.id;
                        self.id = self.id + 1;
                        proof {
                            assert(self.ktab() == old(self).ktab());
                        }
                        let reply = Message {
                            src: dst,
                            dst: src,
                            body: Body {
                                id: Some(fresh),
                                in_reply_to: req_id,
                                payload: BroadcastPayload::ReadOk { message: snapshot },
                            },
                        };
                        let mut out: Vec<Message<BroadcastPayload>> = Vec::new();
                        out.push(reply);
                        Ok(out)
                    },
                    BroadcastPayload::Topology { topology } => {
                        if self.id == usize::MAX {
                            return Err(NodeError::IdExhausted);
                        }
                        match self.handle_topology(&topology) {
                            Ok(()) => {},
                            Err(e) => {
                                return Err(e);
                            },
                        }
                        let fresh = self.id;
                        self.id = self.id + 1;
                        proof {
                            assert(self.ktab() == old(self).ktab());
                        }
                        let reply = Message {
                            src: dst,
                            dst: src,
                            body: Body {
                                id: Some(fresh),
                                in_reply_to: req_id,
                                payload: BroadcastPayload::TopologyOk,
                            },
                        };
                        let mut out: Vec<Message<BroadcastPayload>> = Vec::new();
                        out.push(reply);
                        Ok(out)
                    },
                    BroadcastPayload::Gossip { seen } => {
                        match self.handle_gossip(&src, &seen) {
                            Ok(()) => Ok(Vec::new()),
                            Err(e) => Err(e),
                        }
                    },
                    BroadcastPayload::BroadcastOk => Ok(Vec::new()),
                    BroadcastPayload::ReadOk { message: _ } => Ok(Vec::new()),
                    BroadcastPayload::TopologyOk => Ok(Vec::new()),
                }
            },
        }
    }
}

impl crate::protocol::Node<(), BroadcastPayload, BroadcastTimer> for BroadcastNode {
    open spec fn inv(&self) -> bool {
        self.wf()
    }

    fn from_init(_state: (), init: Init) -> (r: Result<Self, NodeError>) {
        Ok(BroadcastNode::from_init(init))
    }

    fn step(&mut self, input: Event<BroadcastPayload, BroadcastTimer>) -> (r: Result<
        Vec<Message<BroadcastPayload>>,
        NodeError,
    >) {
        BroadcastNode::step(self, input)
    }
}

} // verus!

