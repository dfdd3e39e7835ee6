//! The transaction challenge: a batch of read and write operations applied
//! to a keyed store in order, answered with the same batch in which every
//! read carries the value it saw.  The whole batch is specified by a
//! mathematical transition function and the executable code is proved to
//! return exactly what the transition says.

use vstd::prelude::*;
use vstd::string::StringExecFns;

use crate::logstore::keyed_at;
use crate::logstore::keyed_distinct;
use crate::logstore::keyed_has;
use crate::logstore::keyed_row;
use crate::logstore::lemma_keyed_row_unique;
use crate::protocol::Body;
use crate::protocol::Event;
use crate::protocol::Init;
use crate::protocol::Message;
use crate::protocol::NodeError;

verus! {

/// One cell of an operation: a tag string, a number, or the null that marks
/// a read's unknown value.
pub enum TxnElement {
    Str(String),
    USize(usize),
    Null,
}

/// The mathematical value of a cell.
pub enum TxnElementView {
    Str(Seq<char>),
    USize(usize),
    Null,
}

impl View for TxnElement {
    type V = TxnElementView;

    open spec fn view(&self) -> TxnElementView {
        match self {
            TxnElement::Str(s) => TxnElementView::Str(s@),
            TxnElement::USize(u) => TxnElementView::USize(*u),
            TxnElement::Null => TxnElementView::Null,
        }
    }
}

impl DeepView for TxnElement {
    type V = TxnElementView;

    open spec fn deep_view(&self) -> TxnElementView {
        self@
    }
}

/// The payload variants of the transaction challenge.
pub enum TxnPayload {
    Txn { txn: Vec<Vec<TxnElement>> },
    TxnOk { msg_id: usize, in_reply_to: usize, txn: Vec<Vec<TxnElement>> },
}

/// The mathematical value of the store.
pub open spec fn store_view(t: Seq<(usize, TxnElement)>) -> Seq<(usize, TxnElementView)> {
    t.map_values(|p: (usize, TxnElement)| (p.0, p.1@))
}

/// The mathematical value of one operation.
pub open spec fn ops_view(op: Seq<TxnElement>) -> Seq<TxnElementView> {
    op.map_values(|e: TxnElement| e@)
}

/// The mathematical value of a batch.
pub open spec fn txn_view(txn: Seq<Vec<TxnElement>>) -> Seq<Seq<TxnElementView>> {
    txn.map_values(|op: Vec<TxnElement>| ops_view(op@))
}

/// The value a read of the key sees: what the store holds, or null.
pub open spec fn sget(st: Seq<(usize, TxnElementView)>, k: usize) -> TxnElementView {
    if keyed_has(st, k) {
        keyed_at(st, k)
    } else {
        TxnElementView::Null
    }
}

/// Writing a value under a key: the one row with the key is overwritten, or
/// a new row is added at the end.
pub open spec fn sput(
    st: Seq<(usize, TxnElementView)>,
    k: usize,
    v: TxnElementView,
) -> Seq<(usize, TxnElementView)> {
    if keyed_has(st, k) {
        st.update(keyed_row(st, k), (k, v))
    } else {
        st.push((k, v))
    }
}

/// What one operation does: a read `["r", k, null]` fills in the value it
/// sees; a write `["w", k, v]` stores its value and echoes itself; any
/// other shape echoes itself and changes nothing.
pub open spec fn apply_op(st: Seq<(usize, TxnElementView)>, op: Seq<TxnElementView>) -> (
    Seq<TxnElementView>,
    Seq<(usize, TxnElementView)>,
) {
    if op.len() == 3 && op[0] == TxnElementView::Str("r"@) && op[1] is USize && op[2] is Null {
        (seq![op[0], op[1], sget(st, op[1]->USize_0)], st)
    } else if op.len() == 3 && op[0] == TxnElementView::Str("w"@) && op[1] is USize
        && op[2] is USize {
        (op, sput(st, op[1]->USize_0, op[2]))
    } else {
        (op, st)
    }
}

/// What a batch does: its operations applied in order, each seeing the
/// writes of those before it.
pub open spec fn apply_txn(
    st: Seq<(usize, TxnElementView)>,
    ops: Seq<Seq<TxnElementView>>,
) -> (Seq<Seq<TxnElementView>>, Seq<(usize, TxnElementView)>)
    decreases ops.len(),
{
    if ops.len() == 0 {
        (Seq::empty(), st)
    } else {
        let prior = apply_txn(st, ops.drop_last());
        let stepped = apply_op(prior.1, ops.last());
        (prior.0.push(stepped.0), stepped.1)
    }
}

/// Writing under a key keeps keys pairwise distinct.
proof fn lemma_sput_distinct(st: Seq<(usize, TxnElementView)>, k: usize, v: TxnElementView)
    requires
        keyed_distinct(st),
    ensures
        keyed_distinct(sput(st, k, v)),
{
    if keyed_has(st, k) {
        let r = keyed_row(st, k);
        assert(0 <= r < st.len() && st[r].0 == k);
        let u = sput(st, k, v);
        assert forall|i: int, j: int| 0 <= i < j < u.len() implies u[i].0 != u[j].0 by {
            assert(u[i].0 == st[i].0);
            assert(u[j].0 == st[j].0);
        }
    } else {
        let u = sput(st, k, v);
        assert forall|i: int, j: int| 0 <= i < j < u.len() implies u[i].0 != u[j].0 by {
            if j < st.len() {
            } else {
                assert(u[i].0 == st[i].0);
                assert(!keyed_has(st, k));
            }
        }
    }
}

/// Whether a cell is the given tag string.
fn el_is_tag(e: &TxnElement, tag: &str) -> (r: bool)
    ensures
        r == (e@ == TxnElementView::Str(tag@)),
{
    match e {
        TxnElement::Str(s) => {
            let l = String::from_str(tag);
            s.eq(&l)
        },
        TxnElement::USize(_) => false,
        TxnElement::Null => false,
    }
}

/// A fresh cell holding the same value.
fn copy_el(e: &TxnElement) -> (r: TxnElement)
    ensures
        r@ == e@,
{
    match e {
        TxnElement::Str(s) => TxnElement::Str(s.clone()),
        TxnElement::USize(u) => TxnElement::USize(*u),
        TxnElement::Null => TxnElement::Null,
    }
}

/// A fresh operation holding the same cells.
fn copy_op(op: &Vec<TxnElement>) -> (r: Vec<TxnElement>)
    ensures
        ops_view(r@) == ops_view(op@),
{
    let mut r: Vec<TxnElement> = Vec::new();
    proof {
        assert(ops_view(r@) =~= ops_view(op@.subrange(0, 0)));
    }
    let mut i: usize = 0;
    while i < op.len()
        invariant
            i <= op@.len(),
            r@.len() == i,
            ops_view(r@) == ops_view(op@.subrange(0, i as int)),
        decreases op@.len() - i,
    {
        let e = copy_el(&op[i]);
        let ghost r0 = r@;
        let ghost ev = e@;
        r.push(e);
        proof {
            assert(r@ =~= r0.push(r@[i as int]));
            assert(r@[i as int]@ == ev);
            assert(ev == op@[i as int]@);
            assert forall|j: int|
                0 <= j < i + 1 implies ops_view(r@)[j] == ops_view(op@.subrange(0, i + 1))[j] by {
                if j < i {
                    assert(r@[j] == r0[j]);
                    assert(ops_view(r0)[j] == ops_view(op@.subrange(0, i as int))[j]);
                    assert(ops_view(op@.subrange(0, i as int))[j] == op@.subrange(0, i as int)[j]@);
                    assert(op@.subrange(0, i as int)[j] == op@[j]);
                    assert(op@.subrange(0, i + 1)[j] == op@[j]);
                }
            }
            assert(ops_view(r@) =~= ops_view(op@.subrange(0, i + 1)));
        }
        i = i + 1;
    }
    proof {
        assert(op@.subrange(0, op@.len() as int) =~= op@);
    }
    r
}

/// Read the store at a key.
fn store_get(st: &Vec<(usize, TxnElement)>, k: usize) -> (r: TxnElement)
    requires
        keyed_distinct(store_view(st@)),
    ensures
        r@ == sget(store_view(st@), k),
{
    let mut i: usize = 0;
    while i < st.len()
        invariant
            i <= st@.len(),
            keyed_distinct(store_view(st@)),
            forall|j: int| 0 <= j < i ==> (#[trigger] st@[j]).0 != k,
        decreases st@.len() - i,
    {
        if st[i].0 == k {
            proof {
                lemma_keyed_row_unique(store_view(st@), k, i as int);
            }
            return copy_el(&st[i].1);
        }
        i = i + 1;
    }
    proof {
        if keyed_has(store_view(st@), k) {
            let r = keyed_row(store_view(st@), k);
            assert(st@[r].0 != k);
        }
    }
    TxnElement::Null
}

/// Write the store at a key.
fn store_put(st: &mut Vec<(usize, TxnElement)>, k: usize, v: TxnElement)
    requires
        keyed_distinct(store_view(old(st)@)),
    ensures
        store_view(final(st)@) == sput(store_view(old(st)@), k, v@),
        keyed_distinct(store_view(final(st)@)),
{
    let ghost st0 = store_view(st@);
    let ghost vv = v@;
    let mut i: usize = 0;
    while i < st.len()
        invariant
            i <= st@.len(),
            store_view(st@) == st0,
            st0 == store_view(old(st)@),
            vv == v@,
            keyed_distinct(st0),
            forall|j: int| 0 <= j < i ==> (#[trigger] st@[j]).0 != k,
        decreases st@.len() - i,
    {
        if st[i].0 == k {
            proof {
                lemma_keyed_row_unique(st0, k, i as int);
                lemma_sput_distinct(st0, k, vv);
            }
            st.set(i, (k, v));
            proof {
                assert(store_view(st@) =~= st0.update(i as int, (k, vv)));
            }
            return ;
        }
        i = i + 1;
    }
    proof {
        lemma_sput_distinct(st0, k, vv);
    }
    proof {
        if keyed_has(st0, k) {
            let r = keyed_row(st0, k);
            assert(st@[r].0 != k);
        }
    }
    st.push((k, v));
    proof {
        assert(store_view(st@) =~= st0.push((k, v@)));
    }
}

/// What applying one operation must leave behind: a store with one row per
/// key that is exactly what the transition says, and the answered operation
/// the transition says.
pub open spec fn op_post(
    st0: Seq<(usize, TxnElementView)>,
    st1: Seq<(usize, TxnElementView)>,
    opv: Seq<TxnElementView>,
    rv: Seq<TxnElementView>,
) -> bool {
    &&& keyed_distinct(st1)
    &&& rv == apply_op(st0, opv).0
    &&& st1 == apply_op(st0, opv).1
}

/// Apply one operation to the store and produce the answered operation.
fn run_op(st: &mut Vec<(usize, TxnElement)>, op: &Vec<TxnElement>) -> (r: Vec<TxnElement>)
    requires
        keyed_distinct(store_view(old(st)@)),
    ensures
        op_post(store_view(old(st)@), store_view(final(st)@), ops_view(op@), ops_view(r@)),
{
    proof {
        assert(ops_view(op@).len() == op@.len());
    }
    if op.len() == 3 {
        let is_read = el_is_tag(&op[0], "r");
        let is_write = el_is_tag(&op[0], "w");
        let key_cell: Option<usize> = match &op[1] {
            TxnElement::USize(k) => Some(*k),
            _ => None,
        };
        let null_third: bool = match &op[2] {
            TxnElement::Null => true,
            _ => false,
        };
        let val_cell: Option<usize> = match &op[2] {
            TxnElement::USize(v) => Some(*v),
            _ => None,
        };
        proof {
            assert(ops_view(op@)[0] == op@[0]@);
            assert(ops_view(op@)[1] == op@[1]@);
            assert(ops_view(op@)[2] == op@[2]@);
        }
        if is_read && key_cell.is_some() && null_third {
            let k = key_cell.unwrap();
            let value = store_get(st, k);
            let mut out: Vec<TxnElement> = Vec::new();
            out.push(TxnElement::Str(String::from_str("r")));
            out.push(TxnElement::USize(k));
            out.push(value);
            proof {
                assert(ops_view(out@) =~= apply_op(store_view(old(st)@), ops_view(op@)).0);
            }
            out
        } else if is_write && key_cell.is_some() && val_cell.is_some() {
            let k = key_cell.unwrap();
            let v = val_cell.unwrap();
            store_put(st, k, TxnElement::USize(v));
            copy_op(op)
        } else {
            copy_op(op)
        }
    } else {
        copy_op(op)
    }
}

/// Apply a whole batch, in order, producing the answered batch.
pub fn run_txn(st: &mut Vec<(usize, TxnElement)>, txn: &Vec<Vec<TxnElement>>) -> (r: Vec<
    Vec<TxnElement>,
>)
    requires
        keyed_distinct(store_view(old(st)@)),
    ensures
        keyed_distinct(store_view(final(st)@)),
        ({
            let run = apply_txn(store_view(old(st)@), txn_view(txn@));
            txn_view(r@) == run.0 && store_view(final(st)@) == run.1
        }),
{
    let mut out: Vec<Vec<TxnElement>> = Vec::new();
    proof {
        assert(txn_view(txn@.subrange(0, 0)) =~= Seq::<Seq<TxnElementView>>::empty());
        assert(txn_view(out@) =~= apply_txn(
            store_view(old(st)@),
            txn_view(txn@.subrange(0, 0)),
        ).0);
    }
    let mut i: usize = 0;
    while i < txn.len()
        invariant
            i <= txn@.len(),
            keyed_distinct(store_view(st@)),
            txn_view(out@) == apply_txn(
                store_view(old(st)@),
                txn_view(txn@.subrange(0, i as int)),
            ).0,
            store_view(st@) == apply_txn(
                store_view(old(st)@),
                txn_view(txn@.subrange(0, i as int)),
            ).1,
        decreases txn@.len() - i,
    {
        proof {
            assert(txn_view(txn@.subrange(0, i + 1)).drop_last() =~= txn_view(
                txn@.subrange(0, i as int),
            ));
            assert(txn_view(txn@.subrange(0, i + 1)).last() == ops_view(txn@[i as int]@));
        }
        let answered = run_op(st, &txn[i]);
        out.push(answered);
        proof {
            assert(txn_view(out@) =~= apply_txn(
                store_view(old(st)@),
                txn_view(txn@.subrange(0, i + 1)),
            ).0);
        }
        i = i + 1;
    }
    proof {
        assert(txn@.subrange(0, txn@.len() as int) =~= txn@);
    }
    out
}

/// A transaction node: its id, its message counter, and the keyed store.
pub struct TransactionNode {
    pub node: String,
    pub id: usize,
    pub store: Vec<(usize, TxnElement)>,
}

impl TransactionNode {
    /// One row per key, and a counter past the init acknowledgment's id 0.
    pub open spec fn wf(self) -> bool {
        &&& keyed_distinct(store_view(self.store@))
        &&& 1 <= self.id
    }

    /// Build the initial state from the init request: an empty store.
    pub fn from_init(init: Init) -> (r: TransactionNode)
        ensures
            r.wf(),
            r.node@ == init.node_id@,
            r.id == 1,
            r.store@.len() == 0,
    {
        TransactionNode { node: init.node_id, id: 1, store: Vec::new() }
    }

    /// Process one event.  A batch is applied in order and answered with
    /// the batch in which every read carries the value it saw; a batch
    /// without a message id cannot be correlated and is fatal, as is a
    /// timer event — this state machine injects none.
    pub fn step(&mut self, input: Event<TxnPayload, ()>) -> (r: Result<
        Vec<Message<TxnPayload>>,
        NodeError,
    >)
        requires
            old(self).wf(),
        ensures
            final(self).wf(),
            final(self).node == old(self).node,
            r is Err ==> *final(self) == *old(self),
            match input {
                Event::EOF => r matches Ok(out) && out@.len() == 0 && *final(self) == *old(self),
                Event::Injected(_) => r matches Err(e) && e == NodeError::UnexpectedInjection,
                Event::Message(m) => match m.body.payload {
                    TxnPayload::Txn { txn } => match r {
                        Ok(out) => {
                            &&& m.body.id is Some
                            &&& store_view(final(self).store@) == apply_txn(
                                store_view(old(self).store@),
                                txn_view(txn@),
                            ).1
                            &&& final(self).id == old(self).id + 1
                            &&& out@.len() == 1
                            &&& out@[0].src@ == m.dst@
                            &&& out@[0].dst@ == m.src@
                            &&& out@[0].body.id == Some(old(self).id)
                            &&& out@[0].body.in_reply_to == m.body.id
                            &&& (out@[0].body.payload matches TxnPayload::TxnOk {
                                msg_id,
                                in_reply_to,
                                txn: answered,
                            } && msg_id == old(self).id + 1 && in_reply_to == m.body.id->0
                                && txn_view(answered@) == apply_txn(
                                store_view(old(self).store@),
                                txn_view(txn@),
                            ).0)
                        },
                        Err(e) => {
                            &&& (e == NodeError::MissingRequestId || e == NodeError::IdExhausted)
                            &&& (e == NodeError::MissingRequestId <==> m.body.id is None)
                            &&& (e == NodeError::IdExhausted ==> old(self).id == usize::MAX)
                        },
                    },
                    TxnPayload::TxnOk { .. } => r matches Ok(out) && out@.len() == 0
                        && *final(self) == *old(self),
                },
            },
    {
        match input {
            Event::EOF => Ok(Vec::new()),
            Event::Injected(_t) => Err(NodeError::UnexpectedInjection),
            Event::Message(m) => {
                let Message { src, dst, body } = m;
                let Body { id: req_id, in_reply_to: _, payload } = body;
                match payload {
                    TxnPayload::Txn { txn } => {
                        let req = match req_id {
                            Some(req) => req,
                            None => {
                                return Err(NodeError::MissingRequestId);
                            },
                        };
                        if self.id == usize::MAX {
                            return Err(NodeError::IdExhausted);
                        }
                        let answered = run_txn(&mut self.store, &txn);
                        let fresh = self.id;
                        self.id = self.id + 1;
                        let reply = Message {
                            src: dst,
                            dst: src,
                            body: Body {
                                id: Some(fresh),
                                in_reply_to: Some(req),
                                payload: TxnPayload::TxnOk {
                                    msg_id: fresh + 1,
                                    in_reply_to: req,
                                    txn: answered,
                                },
                            },
                        };
                        let mut out: Vec<Message<TxnPayload>> = Vec::new();
                        out.push(reply);
                        Ok(out)
                    },
                    TxnPayload::TxnOk { .. } => Ok(Vec::new()),
                }
            },
        }
    }
}

impl crate::protocol::Node<(), TxnPayload, ()> for TransactionNode {
    open spec fn inv(&self) -> bool {
        self.wf()
    }

    fn from_init(_state: (), init: Init) -> (r: Result<Self, NodeError>) {
        Ok(TransactionNode::from_init(init))
    }

    fn step(&mut self, input: Event<TxnPayload, ()>) -> (r: Result<
        Vec<Message<TxnPayload>>,
        NodeError,
    >) {
        TransactionNode::step(self, input)
    }
}

} // verus!

