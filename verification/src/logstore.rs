//! The replicated-log challenge: append-only logs of (offset, value) records
//! kept per key, with committed offsets tracked beside them.  Every
//! operation is simple keyed bookkeeping; each is specified by a
//! mathematical transition function and the executable code is proved to
//! return exactly what the transition says.

use vstd::prelude::*;
use vstd::string::StrSliceExecFns;

use crate::json::digits;
use crate::json::is_digit;
use crate::json::sp_digits;
use crate::protocol::Body;
use crate::protocol::Event;
use crate::protocol::Init;
use crate::protocol::Message;
use crate::protocol::NodeError;

verus! {

/// The payload variants of the log challenge.
pub enum LogPayload {
    Send { key: String, message: usize },
    SendOk { offset: usize },
    Poll { offsets: Vec<(String, usize)> },
    PollOk { messages: Vec<(String, Vec<(usize, usize)>)> },
    CommitOffsets { offsets: Vec<(String, usize)> },
    CommitOffsetsOk,
    ListCommittedOffsets { keys: Vec<String> },
    ListCommittedOffsetsOk { offsets: Vec<(String, usize)> },
}

/// The mathematical value of a log table: keys and their records.
pub open spec fn log_view(l: Seq<(String, Vec<(usize, usize)>)>) -> Seq<
    (Seq<char>, Seq<(usize, usize)>),
> {
    l.map_values(|p: (String, Vec<(usize, usize)>)| (p.0@, p.1@))
}

/// The mathematical value of an offset table.
pub open spec fn off_view(l: Seq<(String, usize)>) -> Seq<(Seq<char>, usize)> {
    l.map_values(|p: (String, usize)| (p.0@, p.1))
}

/// Whether a keyed sequence holds the key.
pub open spec fn keyed_has<K, V>(t: Seq<(K, V)>, k: K) -> bool {
    exists|i: int| 0 <= i < t.len() && t[i].0 == k
}

/// The row of the key.
pub open spec fn keyed_row<K, V>(t: Seq<(K, V)>, k: K) -> int {
    choose|i: int| 0 <= i < t.len() && t[i].0 == k
}

/// The value under the key.
pub open spec fn keyed_at<K, V>(t: Seq<(K, V)>, k: K) -> V {
    t[keyed_row(t, k)].1
}

/// Pairwise distinct keys.
pub open spec fn keyed_distinct<K, V>(t: Seq<(K, V)>) -> bool {
    forall|i: int, j: int| 0 <= i < j < t.len() ==> t[i].0 != t[j].0
}

/// In a keyed sequence with distinct keys, the row chosen for a key is the
/// one row that carries it.
pub proof fn lemma_keyed_row_unique<K, V>(t: Seq<(K, V)>, k: K, i: int)
    requires
        keyed_distinct(t),
        0 <= i < t.len(),
        t[i].0 == k,
    ensures
        keyed_has(t, k),
        keyed_row(t, k) == i,
{
    assert(keyed_has(t, k));
    let r = keyed_row(t, k);
    if r < i {
        assert(t[r].0 != t[i].0);
    }
    if i < r {
        assert(t[i].0 != t[r].0);
    }
}

/// Writing a value under a key: the one row with the key is overwritten, or
/// a new row is added at the end.
pub open spec fn upsert(t: Seq<(Seq<char>, usize)>, k: Seq<char>, v: usize) -> Seq<
    (Seq<char>, usize),
> {
    if keyed_has(t, k) {
        t.update(keyed_row(t, k), (k, v))
    } else {
        t.push((k, v))
    }
}

/// Committing a batch of offsets: each pair written left to right.
pub open spec fn commit_spec(t: Seq<(Seq<char>, usize)>, offs: Seq<(Seq<char>, usize)>) -> Seq<
    (Seq<char>, usize),
>
    decreases offs.len(),
{
    if offs.len() == 0 {
        t
    } else {
        upsert(commit_spec(t, offs.drop_last()), offs.last().0, offs.last().1)
    }
}

/// Listing committed offsets for requested keys, left to right; a key the
/// table does not hold is left out, and a key asked for twice lands once.
pub open spec fn list_spec(t: Seq<(Seq<char>, usize)>, keys: Seq<Seq<char>>) -> Seq<
    (Seq<char>, usize),
>
    decreases keys.len(),
{
    if keys.len() == 0 {
        Seq::empty()
    } else {
        let rest = list_spec(t, keys.drop_last());
        if keyed_has(t, keys.last()) {
            upsert(rest, keys.last(), keyed_at(t, keys.last()))
        } else {
            rest
        }
    }
}

/// The largest offset among a key's records.
pub open spec fn max_off(entries: Seq<(usize, usize)>) -> int
    decreases entries.len(),
{
    if entries.len() == 0 {
        -1
    } else if entries.last().0 >= max_off(entries.drop_last()) {
        entries.last().0 as int
    } else {
        max_off(entries.drop_last())
    }
}

/// The number a key carries: the digits from the first digit to the end,
/// read as a decimal value — or nothing, when the key does not end in a
/// plain number that a machine word can hold.
pub open spec fn key_number(k: Seq<char>) -> Option<usize> {
    let fd = first_digit(k);
    if fd < k.len() {
        let p = sp_digits(k, fd, 0);
        if p.1 == k.len() && p.0 <= usize::MAX as nat {
            Some(p.0 as usize)
        } else {
            None
        }
    } else {
        None
    }
}

/// The position of the first digit, or the length when there is none.
pub open spec fn first_digit(k: Seq<char>) -> int
    decreases k.len(),
{
    if k.len() == 0 {
        0
    } else if is_digit(k[0]) {
        0
    } else {
        1 + first_digit(k.drop_first())
    }
}

/// The offset a fresh record for the key takes: one past the largest offset
/// the key holds, or — for a key without records — a thousand times the
/// number the key carries.  Nothing, where that offset would not fit in a
/// machine word or the key carries no number.
pub open spec fn fresh_offset(
    log: Seq<(Seq<char>, Seq<(usize, usize)>)>,
    k: Seq<char>,
) -> Option<usize> {
    if keyed_has(log, k) && keyed_at(log, k).len() > 0 {
        let m = max_off(keyed_at(log, k));
        if m < usize::MAX {
            Some((m + 1) as usize)
        } else {
            None
        }
    } else {
        match key_number(k) {
            Some(num) => if num <= usize::MAX as int / 1000 {
                Some((num * 1000) as usize)
            } else {
                None
            },
            None => None,
        }
    }
}

/// Appending a record for the key: under the fresh offset, at the end of
/// the key's records; a key without records gets its row at the end.
pub open spec fn store_spec(
    log: Seq<(Seq<char>, Seq<(usize, usize)>)>,
    k: Seq<char>,
    message: usize,
) -> Option<(Seq<(Seq<char>, Seq<(usize, usize)>)>, usize)> {
    match fresh_offset(log, k) {
        None => None,
        Some(off) => if keyed_has(log, k) {
            Some(
                (
                    log.update(keyed_row(log, k), (k, keyed_at(log, k).push((off, message)))),
                    off,
                ),
            )
        } else {
            Some((log.push((k, seq![(off, message)])), off))
        },
    }
}

/// The records past an offset, in order.
pub open spec fn filter_after(entries: Seq<(usize, usize)>, start: usize) -> Seq<(usize, usize)>
    decreases entries.len(),
{
    if entries.len() == 0 {
        Seq::empty()
    } else if entries.last().0 > start {
        filter_after(entries.drop_last(), start).push(entries.last())
    } else {
        filter_after(entries.drop_last(), start)
    }
}

/// Answering a poll: one entry per requested key, in request order — a key
/// asked for twice is answered at its first occurrence — carrying the log's
/// records past the requested offset, or no records at all when the log
/// does not hold the key or nothing lies past the offset.
pub open spec fn poll_spec(
    log: Seq<(Seq<char>, Seq<(usize, usize)>)>,
    offs: Seq<(Seq<char>, usize)>,
) -> Seq<(Seq<char>, Seq<(usize, usize)>)>
    decreases offs.len(),
{
    if offs.len() == 0 {
        Seq::empty()
    } else {
        let rest = poll_spec(log, offs.drop_last());
        let k = offs.last().0;
        if keyed_has(rest, k) {
            rest
        } else {
            let kept = if keyed_has(log, k) {
                filter_after(keyed_at(log, k), offs.last().1)
            } else {
                Seq::empty()
            };
            rest.push((k, kept))
        }
    }
}

/// Writing under a key keeps keys pairwise distinct, and changes exactly
/// that key's value.
pub proof fn lemma_upsert_distinct(t: Seq<(Seq<char>, usize)>, k: Seq<char>, v: usize)
    requires
        keyed_distinct(t),
    ensures
        keyed_distinct(upsert(t, k, v)),
{
    if keyed_has(t, k) {
        let r = keyed_row(t, k);
        assert(0 <= r < t.len() && t[r].0 == k);
        let u = upsert(t, k, v);
        assert forall|i: int, j: int| 0 <= i < j < u.len() implies u[i].0 != u[j].0 by {
            assert(u[i].0 == t[i].0);
            assert(u[j].0 == t[j].0);
        }
    } else {
        let u = upsert(t, k, v);
        assert forall|i: int, j: int| 0 <= i < j < u.len() implies u[i].0 != u[j].0 by {
            if j < t.len() {
            } else {
                assert(u[i].0 == t[i].0);
                assert(!keyed_has(t, k));
            }
        }
    }
}

/// Where the first digit of a key stands: everything before it is no digit,
/// and it is a digit when it is inside the key at all.
pub proof fn lemma_first_digit(k: Seq<char>)
    ensures
        0 <= first_digit(k) <= k.len(),
        first_digit(k) < k.len() ==> is_digit(k[first_digit(k)]),
        forall|j: int| 0 <= j < first_digit(k) ==> !is_digit(k[j]),
    decreases k.len(),
{
    if k.len() == 0 {
    } else if is_digit(k[0]) {
    } else {
        lemma_first_digit(k.drop_first());
        assert forall|j: int| 0 <= j < first_digit(k) implies !is_digit(k[j]) by {
            if j > 0 {
                assert(k.drop_first()[j - 1] == k[j]);
            }
        }
        if first_digit(k) < k.len() {
            assert(k.drop_first()[first_digit(k.drop_first())] == k[first_digit(k)]);
        }
    }
}

/// Find the row of a key.
fn find_key<V>(t: &Vec<(String, V)>, k: &String) -> (r: Option<usize>)
    ensures
        match r {
            Some(i) => 0 <= i < t@.len() && t@[i as int].0@ == k@,
            None => forall|j: int| 0 <= j < t@.len() ==> (#[trigger] t@[j]).0@ != k@,
        },
{
    let mut i: usize = 0;
    while i < t.len()
        invariant
            i <= t@.len(),
            forall|j: int| 0 <= j < i ==> (#[trigger] t@[j]).0@ != k@,
        decreases t@.len() - i,
    {
        if t[i].0.eq(k) {
            return Some(i);
        }
        i = i + 1;
    }
    None
}

/// Write a value under a key.
pub fn upsert_to(t: &mut Vec<(String, usize)>, k: String, v: usize)
    requires
        keyed_distinct(off_view(old(t)@)),
    ensures
        off_view(final(t)@) == upsert(off_view(old(t)@), k@, v),
        keyed_distinct(off_view(final(t)@)),
{
    let ghost t0 = off_view(t@);
    proof {
        lemma_upsert_distinct(t0, k@, v);
    }
    match find_key(t, &k) {
        Some(i) => {
            proof {
                lemma_keyed_row_unique(t0, k@, i as int);
            }
            t.set(i, (k, v));
            proof {
                assert(off_view(t@) =~= t0.update(i as int, (k@, v)));
            }
        },
        None => {
            t.push((k, v));
            proof {
                assert(!keyed_has(t0, k@));
                assert(off_view(t@) =~= t0.push((k@, v)));
            }
        },
    }
}

/// Commit a batch of offsets, left to right.
pub fn commit_to(t: &mut Vec<(String, usize)>, offs: &Vec<(String, usize)>)
    requires
        keyed_distinct(off_view(old(t)@)),
    ensures
        off_view(final(t)@) == commit_spec(off_view(old(t)@), off_view(offs@)),
        keyed_distinct(off_view(final(t)@)),
{
    let mut i: usize = 0;
    while i < offs.len()
        invariant
            i <= offs@.len(),
            off_view(t@) == commit_spec(off_view(old(t)@), off_view(offs@.subrange(0, i as int))),
            keyed_distinct(off_view(t@)),
        decreases offs@.len() - i,
    {
        proof {
            assert(off_view(offs@.subrange(0, i + 1)).drop_last() =~= off_view(
                offs@.subrange(0, i as int),
            ));
            assert(off_view(offs@.subrange(0, i + 1)).last() == (offs@[i as int].0@, offs@[
                i as int].1));
        }
        let pair = (offs[i].0.clone(), offs[i].1);
        upsert_to(t, pair.0, pair.1);
        i = i + 1;
    }
    proof {
        assert(offs@.subrange(0, offs@.len() as int) =~= offs@);
    }
}

/// A fresh vector holding the same records.
fn copy_records(v: &Vec<(usize, usize)>) -> (r: Vec<(usize, usize)>)
    ensures
        r@ == v@,
{
    let mut r: Vec<(usize, usize)> = Vec::new();
    let mut i: usize = 0;
    while i < v.len()
        invariant
            i <= v@.len(),
            r@ == v@.subrange(0, i as int),
        decreases v@.len() - i,
    {
        r.push(v[i]);
        proof {
            assert(v@.subrange(0, i + 1) =~= v@.subrange(0, i as int).push(v@[i as int]));
        }
        i = i + 1;
    }
    proof {
        assert(v@.subrange(0, v@.len() as int) =~= v@);
    }
    r
}

/// The largest offset among a key's records.
fn max_off_of(entries: &Vec<(usize, usize)>) -> (r: usize)
    requires
        entries@.len() > 0,
    ensures
        r as int == max_off(entries@),
{
    let mut r: usize = entries[0].0;
    proof {
        assert(entries@.subrange(0, 1).drop_last() =~= entries@.subrange(0, 0));
        assert(entries@.subrange(0, 1).last() == entries@[0]);
        assert(max_off(entries@.subrange(0, 0)) == -1);
        assert(r as int == max_off(entries@.subrange(0, 1)));
    }
    let mut i: usize = 1;
    while i < entries.len()
        invariant
            1 <= i <= entries@.len(),
            r as int == max_off(entries@.subrange(0, i as int)),
        decreases entries@.len() - i,
    {
        proof {
            assert(entries@.subrange(0, i + 1).drop_last() =~= entries@.subrange(0, i as int));
            assert(entries@.subrange(0, i + 1).last() == entries@[i as int]);
        }
        if entries[i].0 > r {
            r = entries[i].0;
        }
        i = i + 1;
    }
    proof {
        assert(entries@.subrange(0, entries@.len() as int) =~= entries@);
    }
    r
}

/// The position of a text's first digit, or its length when there is none.
fn first_digit_pos(s: &str, n: usize) -> (r: usize)
    requires
        n == s@.len(),
    ensures
        r as int == first_digit(s@),
        r <= n,
{
    let mut i: usize = 0;
    while i < n
        invariant
            i <= n,
            n == s@.len(),
            forall|j: int| 0 <= j < i ==> !is_digit(s@[j]),
        decreases n - i,
    {
        let c = s.get_char(i);
        let cv = c as u32;
        if 48 <= cv && cv <= 57 {
            proof {
                lemma_first_digit(s@);
                if first_digit(s@) < i {
                    assert(!is_digit(s@[first_digit(s@)]));
                }
            }
            return i;
        }
        i = i + 1;
    }
    proof {
        lemma_first_digit(s@);
        if first_digit(s@) < s@.len() {
            assert(!is_digit(s@[first_digit(s@)]));
        }
    }
    n
}

/// The number a key carries.
fn key_number_of(k: &String) -> (r: Option<usize>)
    ensures
        r == key_number(k@),
{
    let s = k.as_str();
    let n = s.unicode_len();
    let fd = first_digit_pos(s, n);
    if fd >= n {
        return None;
    }
    let (end, acc, over) = digits(s, n, fd, 0, false, Ghost(0nat));
    if end == n && !over {
        Some(acc as usize)
    } else {
        None
    }
}

/// Append a record for the key, under the fresh offset the log gives it.
pub fn store_to(log: &mut Vec<(String, Vec<(usize, usize)>)>, key: &String, message: usize) -> (r:
    Result<usize, NodeError>)
    requires
        keyed_distinct(log_view(old(log)@)),
    ensures
        keyed_distinct(log_view(final(log)@)),
        match r {
            Ok(off) => store_spec(log_view(old(log)@), key@, message) == Some(
                (log_view(final(log)@), off),
            ),
            Err(e) => e == NodeError::OffsetExhausted && store_spec(
                log_view(old(log)@),
                key@,
                message,
            ) is None && *final(log) == *old(log),
        },
{
    let ghost l0 = log_view(log@);
    let row = find_key(log, key);
    match row {
        Some(i) if log[i].1.len() > 0 => {
            proof {
                lemma_keyed_row_unique(l0, key@, i as int);
            }
            let m = max_off_of(&log[i].1);
            if m == usize::MAX {
                return Err(NodeError::OffsetExhausted);
            }
            let off = m + 1;
            let mut entries = copy_records(&log[i].1);
            proof {
                assert(entries@ =~= l0[i as int].1);
            }
            entries.push((off, message));
            let k2 = log[i].0.clone();
            log.set(i, (k2, entries));
            proof {
                assert(log_view(log@) =~= l0.update(
                    i as int,
                    (key@, keyed_at(l0, key@).push((off, message))),
                ));
                assert forall|p: int, q: int|
                    0 <= p < q < log_view(log@).len() implies log_view(log@)[p].0 != log_view(
                    log@,
                )[q].0 by {
                    assert(log_view(log@)[p].0 == l0[p].0);
                    assert(log_view(log@)[q].0 == l0[q].0);
                }
            }
            Ok(off)
        },
        _ => {
            let num = match key_number_of(key) {
                Some(num) => num,
                None => {
                    proof {
                        lemma_row_cases(l0, key@, row, *log);
                    }
                    return Err(NodeError::OffsetExhausted);
                },
            };
            if num > usize::MAX / 1000 {
                proof {
                    lemma_row_cases(l0, key@, row, *log);
                }
                return Err(NodeError::OffsetExhausted);
            }
            let off = num * 1000;
            proof {
                lemma_row_cases(l0, key@, row, *log);
            }
            match row {
                Some(i) => {
                    proof {
                        lemma_keyed_row_unique(l0, key@, i as int);
                    }
                    let mut entries: Vec<(usize, usize)> = Vec::new();
                    entries.push((off, message));
                    let k2 = log[i].0.clone();
                    log.set(i, (k2, entries));
                    proof {
                        assert(keyed_at(l0, key@).push((off, message)) =~= seq![(off, message)]);
                        assert(log_view(log@) =~= l0.update(
                            i as int,
                            (key@, keyed_at(l0, key@).push((off, message))),
                        ));
                        assert forall|p: int, q: int|
                            0 <= p < q < log_view(log@).len() implies log_view(log@)[p].0
                            != log_view(log@)[q].0 by {
                            assert(log_view(log@)[p].0 == l0[p].0);
                            assert(log_view(log@)[q].0 == l0[q].0);
                        }
                    }
                    Ok(off)
                },
                None => {
                    let mut entries: Vec<(usize, usize)> = Vec::new();
                    entries.push((off, message));
                    log.push((key.clone(), entries));
                    proof {
                        assert(log_view(log@) =~= l0.push((key@, seq![(off, message)])));
                        assert forall|p: int, q: int|
                            0 <= p < q < log_view(log@).len() implies log_view(log@)[p].0
                            != log_view(log@)[q].0 by {
                            if q < l0.len() {
                                assert(log_view(log@)[p].0 == l0[p].0);
                                assert(log_view(log@)[q].0 == l0[q].0);
                            } else {
                                assert(log_view(log@)[p].0 == l0[p].0);
                                assert(!keyed_has(l0, key@));
                            }
                        }
                    }
                    Ok(off)
                },
            }
        },
    }
}

/// Answer a poll: one entry per requested key, with the records past the
/// requested offset or none.
pub fn poll_from(
    log: &Vec<(String, Vec<(usize, usize)>)>,
    offs: &Vec<(String, usize)>,
) -> (r: Vec<(String, Vec<(usize, usize)>)>)
    requires
        keyed_distinct(log_view(log@)),
    ensures
        log_view(r@) == poll_spec(log_view(log@), off_view(offs@)),
{
    let mut out: Vec<(String, Vec<(usize, usize)>)> = Vec::new();
    proof {
        assert(off_view(offs@.subrange(0, 0)) =~= Seq::<(Seq<char>, usize)>::empty());
        assert(log_view(out@) =~= poll_spec(log_view(log@), off_view(offs@.subrange(0, 0))));
    }
    let mut i: usize = 0;
    while i < offs.len()
        invariant
            i <= offs@.len(),
            keyed_distinct(log_view(log@)),
            log_view(out@) == poll_spec(log_view(log@), off_view(offs@.subrange(0, i as int))),
        decreases offs@.len() - i,
    {
        proof {
            assert(off_view(offs@.subrange(0, i + 1)).drop_last() =~= off_view(
                offs@.subrange(0, i as int),
            ));
            assert(off_view(offs@.subrange(0, i + 1)).last() == (offs@[i as int].0@, offs@[
                i as int].1));
        }
        let key = &offs[i].0;
        let start = offs[i].1;
        match find_key(&out, key) {
            Some(row) => {
                proof {
                    assert(log_view(out@)[row as int].0 == key@);
                    assert(keyed_has(log_view(out@), key@));
                }
            },
            None => {
                proof {
                    if keyed_has(log_view(out@), key@) {
                        let rr = keyed_row(log_view(out@), key@);
                        assert(out@[rr].0@ != key@);
                    }
                }
                let mut kept: Vec<(usize, usize)> = Vec::new();
                match find_key(log, key) {
                    None => {
                        proof {
                            if keyed_has(log_view(log@), key@) {
                                let rr = keyed_row(log_view(log@), key@);
                                assert(log@[rr].0@ != key@);
                            }
                            assert(kept@ =~= Seq::<(usize, usize)>::empty());
                        }
                    },
                    Some(row) => {
                        proof {
                            lemma_keyed_row_unique(log_view(log@), key@, row as int);
                        }
                        let entries = &log[row].1;
                        proof {
                            assert(entries@.subrange(0, 0) =~= Seq::<(usize, usize)>::empty());
                            assert(kept@ =~= filter_after(entries@.subrange(0, 0), start));
                        }
                        let mut j: usize = 0;
                        while j < entries.len()
                            invariant
                                j <= entries@.len(),
                                kept@ == filter_after(entries@.subrange(0, j as int), start),
                            decreases entries@.len() - j,
                        {
                            proof {
                                assert(entries@.subrange(0, j + 1).drop_last()
                                    =~= entries@.subrange(0, j as int));
                                assert(entries@.subrange(0, j + 1).last() == entries@[j as int]);
                            }
                            if entries[j].0 > start {
                                kept.push(entries[j]);
                            }
                            j = j + 1;
                        }
                        proof {
                            assert(entries@.subrange(0, entries@.len() as int) =~= entries@);
                        }
                    },
                }
                let k2 = key.clone();
                out.push((k2, kept));
                proof {
                    assert(log_view(out@) =~= poll_spec(
                        log_view(log@),
                        off_view(offs@.subrange(0, i + 1)),
                    ));
                }
            },
        }
        i = i + 1;
    }
    proof {
        assert(offs@.subrange(0, offs@.len() as int) =~= offs@);
    }
    out
}

/// List committed offsets for the requested keys.
pub fn list_from(t: &Vec<(String, usize)>, keys: &Vec<String>) -> (r: Vec<(String, usize)>)
    requires
        keyed_distinct(off_view(t@)),
    ensures
        off_view(r@) == list_spec(off_view(t@), keys.deep_view()),
{
    let mut out: Vec<(String, usize)> = Vec::new();
    proof {
        assert(keys.deep_view().subrange(0, 0) =~= Seq::<Seq<char>>::empty());
        assert(off_view(out@) =~= list_spec(off_view(t@), keys.deep_view().subrange(0, 0)));
    }
    let mut i: usize = 0;
    while i < keys.len()
        invariant
            i <= keys@.len(),
            keys.deep_view().len() == keys@.len(),
            keyed_distinct(off_view(t@)),
            keyed_distinct(off_view(out@)),
            off_view(out@) == list_spec(off_view(t@), keys.deep_view().subrange(0, i as int)),
        decreases keys@.len() - i,
    {
        proof {
            assert(keys.deep_view().subrange(0, i + 1).drop_last() =~= keys.deep_view().subrange(
                0,
                i as int,
            ));
            assert(keys.deep_view().subrange(0, i + 1).last() == keys@[i as int]@);
        }
        match find_key(t, &keys[i]) {
            None => {
                proof {
                    if keyed_has(off_view(t@), keys@[i as int]@) {
                        let rr = keyed_row(off_view(t@), keys@[i as int]@);
                        assert(t@[rr].0@ != keys@[i as int]@);
                    }
                }
            },
            Some(row) => {
                proof {
                    lemma_keyed_row_unique(off_view(t@), keys@[i as int]@, row as int);
                }
                let key = keys[i].clone();
                let v = t[row].1;
                upsert_to(&mut out, key, v);
            },
        }
        i = i + 1;
    }
    proof {
        assert(keys.deep_view().subrange(0, keys.deep_view().len() as int) =~= keys.deep_view());
    }
    out
}

/// A log node: the per-key record logs and the committed offsets.
pub struct KafkaNode {
    pub node: String,
    pub id: usize,
    pub log_msgs: Vec<(String, Vec<(usize, usize)>)>,
    pub committed_msgs: Vec<(String, usize)>,
}

impl KafkaNode {
    /// One row per key in both tables, and a counter past the init
    /// acknowledgment's id 0.
    pub open spec fn wf(self) -> bool {
        &&& keyed_distinct(log_view(self.log_msgs@))
        &&& keyed_distinct(off_view(self.committed_msgs@))
        &&& 1 <= self.id
    }

    /// Build the initial state from the init request: empty tables.
    pub fn from_init(init: Init) -> (r: KafkaNode)
        ensures
            r.wf(),
            r.node@ == init.node_id@,
            r.id == 1,
            r.log_msgs@.len() == 0,
            r.committed_msgs@.len() == 0,
    {
        KafkaNode { node: init.node_id, id: 1, log_msgs: Vec::new(), committed_msgs: Vec::new() }
    }

    /// Process one event: appends, polls, commits and listings, each pinned
    /// to its transition function; this state machine injects no timer
    /// events, so receiving one is fatal.
    pub fn step(&mut self, input: Event<LogPayload, ()>) -> (r: Result<
        Vec<Message<LogPayload>>,
        NodeError,
    >)
        requires
            old(self).wf(),
        ensures
            final(self).wf(),
            final(self).node == old(self).node,
            r is Err ==> final(self).log_msgs == old(self).log_msgs && final(self).committed_msgs
                == old(self).committed_msgs && final(self).id == old(self).id,
            match input {
                Event::EOF => r matches Ok(out) && out@.len() == 0 && *final(self) == *old(self),
                Event::Injected(_) => r matches Err(e) && e == NodeError::UnexpectedInjection,
                Event::Message(m) => match m.body.payload {
                    LogPayload::Send { key, message } => match r {
                        Ok(out) => {
                            &&& store_spec(log_view(old(self).log_msgs@), key@, message) matches
                                Some(st)
                            &&& log_view(final(self).log_msgs@) == st.0
                            &&& final(self).committed_msgs == old(self).committed_msgs
                            &&& final(self).id == old(self).id + 1
                            &&& out@.len() == 1
                            &&& out@[0].src@ == m.dst@
                            &&& out@[0].dst@ == m.src@
                            &&& out@[0].body.id == Some(old(self).id)
                            &&& out@[0].body.in_reply_to == m.body.id
                            &&& (out@[0].body.payload matches LogPayload::SendOk { offset }
                                && offset == st.1)
                        },
                        Err(e) => {
                            &&& (e == NodeError::IdExhausted || e == NodeError::OffsetExhausted)
                            &&& (e == NodeError::IdExhausted <==> old(self).id == usize::MAX)
                            &&& (e == NodeError::OffsetExhausted ==> store_spec(
                                log_view(old(self).log_msgs@),
                                key@,
                                message,
                            ) is None)
                        },
                    },
                    LogPayload::Poll { offsets } => match r {
                        Ok(out) => {
                            &&& final(self).log_msgs == old(self).log_msgs
                            &&& final(self).committed_msgs == old(self).committed_msgs
                            &&& final(self).id == old(self).id + 1
                            &&& out@.len() == 1
                            &&& out@[0].src@ == m.dst@
                            &&& out@[0].dst@ == m.src@
                            &&& out@[0].body.id == Some(old(self).id)
                            &&& out@[0].body.in_reply_to == m.body.id
                            &&& (out@[0].body.payload matches LogPayload::PollOk { messages }
                                && log_view(messages@) == poll_spec(
                                log_view(old(self).log_msgs@),
                                off_view(offsets@),
                            ))
                        },
                        Err(e) => e == NodeError::IdExhausted && old(self).id == usize::MAX,
                    },
                    LogPayload::CommitOffsets { offsets } => match r {
                        Ok(out) => {
                            &&& final(self).log_msgs == old(self).log_msgs
                            &&& off_view(final(self).committed_msgs@) == commit_spec(
                                off_view(old(self).committed_msgs@),
                                off_view(offsets@),
                            )
                            &&& final(self).id == old(self).id + 1
                            &&& out@.len() == 1
                            &&& out@[0].src@ == m.dst@
                            &&& out@[0].dst@ == m.src@
                            &&& out@[0].body.id == Some(old(self).id)
                            &&& out@[0].body.in_reply_to == m.body.id
                            &&& out@[0].body.payload is CommitOffsetsOk
                        },
                        Err(e) => e == NodeError::IdExhausted && old(self).id == usize::MAX,
                    },
                    LogPayload::ListCommittedOffsets { keys } => match r {
                        Ok(out) => {
                            &&& final(self).log_msgs == old(self).log_msgs
                            &&& final(self).committed_msgs == old(self).committed_msgs
                            &&& final(self).id == old(self).id + 1
                            &&& out@.len() == 1
                            &&& out@[0].src@ == m.dst@
                            &&& out@[0].dst@ == m.src@
                            &&& out@[0].body.id == Some(old(self).id)
                            &&& out@[0].body.in_reply_to == m.body.id
                            &&& (out@[0].body.payload matches
                                LogPayload::ListCommittedOffsetsOk { offsets }
                                && off_view(offsets@) == list_spec(
                                off_view(old(self).committed_msgs@),
                                keys.deep_view(),
                            ))
                        },
                        Err(e) => e == NodeError::IdExhausted && old(self).id == usize::MAX,
                    },
                    _ => r matches Ok(out) && out@.len() == 0 && *final(self) == *old(self),
                },
            },
    {
        match input {
            Event::EOF => Ok(Vec::new()),
            Event::Injected(_t) => Err(NodeError::UnexpectedInjection),
            Event::Message(m) => {
                let Message { src, dst, body } = m;
                let Body { id: req_id, in_reply_to: _, payload } = body;
                match payload {
                    LogPayload::Send { key, message } => {
                        if self.id == usize::MAX {
                            return Err(NodeError::IdExhausted);
                        }
                        let offset = match store_to(&mut self.log_msgs, &key, message) {
                            Ok(offset) => offset,
                            Err(e) => {
                                return Err(e);
                            },
                        };
                        let fresh = self.id;
                        self.id = self.id + 1;
                        let reply = Message {
                            src: dst,
                            dst: src,
                            body: Body {
                                id: Some(fresh),
                                in_reply_to: req_id,
                                payload: LogPayload::SendOk { offset },
                            },
                        };
                        let mut out: Vec<Message<LogPayload>> = Vec::new();
                        out.push(reply);
                        Ok(out)
                    },
                    LogPayload::Poll { offsets } => {
                        if self.id == usize::MAX {
                            return Err(NodeError::IdExhausted);
                        }
                        let messages = poll_from(&self.log_msgs, &offsets);
                        let fresh = self.id;
                        self.id = self.id + 1;
                        let reply = Message {
                            src: dst,
                            dst: src,
                            body: Body {
                                id: Some(fresh),
                                in_reply_to: req_id,
                                payload: LogPayload::PollOk { messages },
                            },
                        };
                        let mut out: Vec<Message<LogPayload>> = Vec::new();
                        out.push(reply);
                        Ok(out)
                    },
                    LogPayload::CommitOffsets { offsets } => {
                        if self.id == usize::MAX {
                            return Err(NodeError::IdExhausted);
                        }
                        commit_to(&mut self.committed_msgs, &offsets);
                        let fresh = self.id;
                        self.id = self.id + 1;
                        let reply = Message {
                            src: dst,
                            dst: src,
                            body: Body {
                                id: Some(fresh),
                                in_reply_to: req_id,
                                payload: LogPayload::CommitOffsetsOk,
                            },
                        };
                        let mut out: Vec<Message<LogPayload>> = Vec::new();
                        out.push(reply);
                        Ok(out)
                    },
                    LogPayload::ListCommittedOffsets { keys } => {
                        if self.id == usize::MAX {
                            return Err(NodeError::IdExhausted);
                        }
                        let offsets = list_from(&self.committed_msgs, &keys);
                        let fresh = self.id;
                        self.id = self.id + 1;
                        let reply = Message {
                            src: dst,
                            dst: src,
                            body: Body {
                                id: Some(fresh),
                                in_reply_to: req_id,
                                payload: LogPayload::ListCommittedOffsetsOk { offsets },
                            },
                        };
                        let mut out: Vec<Message<LogPayload>> = Vec::new();
                        out.push(reply);
                        Ok(out)
                    },
                    LogPayload::SendOk { offset: _ } => Ok(Vec::new()),
                    LogPayload::PollOk { messages: _ } => Ok(Vec::new()),
                    LogPayload::CommitOffsetsOk => Ok(Vec::new()),
                    LogPayload::ListCommittedOffsetsOk { offsets: _ } => Ok(Vec::new()),
                }
            },
        }
    }
}

impl crate::protocol::Node<(), LogPayload, ()> for KafkaNode {
    open spec fn inv(&self) -> bool {
        self.wf()
    }

    fn from_init(_state: (), init: Init) -> (r: Result<Self, NodeError>) {
        Ok(KafkaNode::from_init(init))
    }

    fn step(&mut self, input: Event<LogPayload, ()>) -> (r: Result<
        Vec<Message<LogPayload>>,
        NodeError,
    >) {
        KafkaNode::step(self, input)
    }
}

/// Whether the key's row was found decides which branch of a fresh offset
/// applies: a found row in this branch has no records.
proof fn lemma_row_cases(
    l0: Seq<(Seq<char>, Seq<(usize, usize)>)>,
    k: Seq<char>,
    row: Option<usize>,
    log: Vec<(String, Vec<(usize, usize)>)>,
)
    requires
        keyed_distinct(l0),
        log_view(log@) == l0,
        match row {
            Some(i) => 0 <= i < log@.len() && log@[i as int].0@ == k
                && log@[i as int].1@.len() == 0,
            None => forall|j: int| 0 <= j < log@.len() ==> (#[trigger] log@[j]).0@ != k,
        },
    ensures
        !(keyed_has(l0, k) && keyed_at(l0, k).len() > 0),
{
    match row {
        Some(i) => {
            lemma_keyed_row_unique(l0, k, i as int);
        },
        None => {
            if keyed_has(l0, k) {
                let r = keyed_row(l0, k);
                assert(log@[r].0@ != k);
            }
        },
    }
}

} // verus!
