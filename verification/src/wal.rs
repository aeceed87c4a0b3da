//! Write-ahead log records: one mutating operation per line, `put,<key>,<value>`
//! or `delete,<key>`, and the replay procedure that rebuilds a store from the
//! log. A malformed line is skipped during replay, never fatal. Keys and
//! values holding the comma delimiter are written unescaped, a known format
//! limitation: such records do not survive a round trip.
use crate::store::{inserted, removed, Store};
use crate::text::{lemma_split_on_first, lemma_split_on_whole, split_on, split_str};
use vstd::prelude::*;

verus! {

/// A logged operation, at the specification level.
pub enum LogOp {
    Put { key: Seq<char>, value: Seq<char> },
    Delete { key: Seq<char> },
}

/// A logged operation: exactly the mutations the store accepts.
#[derive(Clone, Debug, PartialEq, Eq)]
pub enum WalRecord {
    Put { key: String, value: String },
    Delete { key: String },
}

impl View for WalRecord {
    type V = LogOp;

    open spec fn view(&self) -> LogOp {
        match self {
            WalRecord::Put { key, value } => LogOp::Put { key: key@, value: value@ },
            WalRecord::Delete { key } => LogOp::Delete { key: key@ },
        }
    }
}

/// The log line for an operation, without the line terminator.
pub open spec fn encode_op(op: LogOp) -> Seq<char> {
    match op {
        LogOp::Put { key, value } => seq!['p', 'u', 't', ','] + key + seq![','] + value,
        LogOp::Delete { key } => seq!['d', 'e', 'l', 'e', 't', 'e', ','] + key,
    }
}

/// The operation described by the fields of one line: the first field picks
/// the operation, `put` takes the two following fields as key and value,
/// `delete` the one following field as key; extra fields are ignored and any
/// other shape is malformed.
pub open spec fn op_of_fields(fs: Seq<Seq<char>>) -> Option<LogOp> {
    if fs.len() >= 3 && fs[0] == seq!['p', 'u', 't'] {
        Some(LogOp::Put { key: fs[1], value: fs[2] })
    } else if fs.len() >= 2 && fs[0] == seq!['d', 'e', 'l', 'e', 't', 'e'] {
        Some(LogOp::Delete { key: fs[1] })
    } else {
        None
    }
}

/// The operation on one log line, or `None` for a malformed line.
pub open spec fn parse_line(s: Seq<char>) -> Option<LogOp> {
    op_of_fields(split_on(s, ','))
}

/// No comma anywhere in `s`.
pub open spec fn comma_free(s: Seq<char>) -> bool {
    forall|i: int| 0 <= i < s.len() ==> s[i] != ','
}

/// An operation whose key and value survive the unescaped line format.
pub open spec fn op_well_formed(op: LogOp) -> bool {
    match op {
        LogOp::Put { key, value } => comma_free(key) && comma_free(value),
        LogOp::Delete { key } => comma_free(key),
    }
}

/// An operation applied to the unbounded key-value mapping.
pub open spec fn apply_op(m: Map<Seq<char>, Seq<char>>, op: LogOp) -> Map<Seq<char>, Seq<char>> {
    match op {
        LogOp::Put { key, value } => m.insert(key, value),
        LogOp::Delete { key } => m.remove(key),
    }
}

/// A sequence of operations applied in order.
pub open spec fn apply_ops(m: Map<Seq<char>, Seq<char>>, ops: Seq<LogOp>) -> Map<
    Seq<char>,
    Seq<char>,
>
    decreases ops.len(),
{
    if ops.len() == 0 {
        m
    } else {
        apply_op(apply_ops(m, ops.drop_last()), ops.last())
    }
}

/// The mapping a log replays to from empty: lines are read in order, valid
/// lines are applied, malformed lines are skipped. Replay is not
/// capacity-bounded.
pub open spec fn replay_lines(lines: Seq<Seq<char>>) -> Map<Seq<char>, Seq<char>>
    decreases lines.len(),
{
    if lines.len() == 0 {
        Map::empty()
    } else {
        let m = replay_lines(lines.drop_last());
        match parse_line(lines.last()) {
            Some(op) => apply_op(m, op),
            None => m,
        }
    }
}

/// Parsing the encoding of a comma-free operation gives the operation back.
pub proof fn lemma_encode_parse(op: LogOp)
    requires
        op_well_formed(op),
    ensures
        parse_line(encode_op(op)) == Some(op),
{
    match op {
        LogOp::Put { key, value } => {
            let tag = seq!['p', 'u', 't'];
            let u = key + seq![','] + value;
            assert(encode_op(op) =~= tag + seq![','] + u);
            lemma_split_on_first(tag, u, ',');
            lemma_split_on_first(key, value, ',');
            lemma_split_on_whole(value, ',');
            let fs = split_on(encode_op(op), ',');
            assert(fs =~~= seq![tag, key, value]);
        },
        LogOp::Delete { key } => {
            let tag = seq!['d', 'e', 'l', 'e', 't', 'e'];
            assert(encode_op(op) =~= tag + seq![','] + key);
            lemma_split_on_first(tag, key, ',');
            lemma_split_on_whole(key, ',');
            let fs = split_on(encode_op(op), ',');
            assert(fs =~~= seq![tag, key]);
        },
    }
}

/// Replaying the log written for a sequence of comma-free operations
/// reproduces, from empty state, exactly the mapping those operations build:
/// later records override earlier ones and a delete removes the entry even
/// though the put line stays in the log.
pub proof fn lemma_wal_round_trip(ops: Seq<LogOp>)
    requires
        forall|i: int| 0 <= i < ops.len() ==> op_well_formed(#[trigger] ops[i]),
    ensures
        replay_lines(ops.map_values(|op: LogOp| encode_op(op))) == apply_ops(Map::empty(), ops),
    decreases ops.len(),
{
    let lines = ops.map_values(|op: LogOp| encode_op(op));
    if ops.len() == 0 {
    } else {
        assert(lines.drop_last() =~= ops.drop_last().map_values(|op: LogOp| encode_op(op)));
        lemma_wal_round_trip(ops.drop_last());
        assert(lines.last() == encode_op(ops.last()));
        lemma_encode_parse(ops.last());
    }
}

/// A malformed line is harmless wherever it stands: inserting one anywhere
/// in a log leaves what the log replays to unchanged.
pub proof fn lemma_malformed_line_ignored(lines: Seq<Seq<char>>, i: int, bad: Seq<char>)
    requires
        0 <= i <= lines.len(),
        parse_line(bad) is None,
    ensures
        replay_lines(lines.insert(i, bad)) == replay_lines(lines),
    decreases lines.len(),
{
    let lines2 = lines.insert(i, bad);
    if i == lines.len() {
        assert(lines2.last() == bad);
        assert(lines2.drop_last() =~= lines);
    } else {
        assert(lines2.last() == lines.last());
        assert(lines2.drop_last() =~= lines.drop_last().insert(i, bad));
        lemma_malformed_line_ignored(lines.drop_last(), i, bad);
    }
}

impl WalRecord {
    /// The log line for this record, without the newline.
    pub fn encode(&self) -> (line: String)
        ensures
            line@ == encode_op(self@),
    {
        match self {
            WalRecord::Put { key, value } => {
                let mut line = "put,".to_owned();
                line.append(key.as_str());
                line.append(",");
                line.append(value.as_str());
                proof {
                    reveal_strlit("put,");
                    reveal_strlit(",");
                    assert(("put,")@ =~= seq!['p', 'u', 't', ',']);
                    assert((",")@ =~= seq![',']);
                    assert(line@ =~= encode_op(self@));
                }
                line
            },
            WalRecord::Delete { key } => {
                let mut line = "delete,".to_owned();
                line.append(key.as_str());
                proof {
                    reveal_strlit("delete,");
                    assert(("delete,")@ =~= seq!['d', 'e', 'l', 'e', 't', 'e', ',']);
                    assert(line@ =~= encode_op(self@));
                }
                line
            },
        }
    }

    /// Reads one log line; a malformed line gives `None`.
    pub fn parse(line: &str) -> (r: Option<WalRecord>)
        ensures
            match r {
                Some(rec) => parse_line(line@) == Some(rec@),
                None => parse_line(line@) is None,
            },
    {
        let fields = split_str(line, ',');
        let put_tag = "put".to_owned();
        let delete_tag = "delete".to_owned();
        proof {
            reveal_strlit("put");
            reveal_strlit("delete");
            assert(("put")@ =~= seq!['p', 'u', 't']);
            assert(("delete")@ =~= seq!['d', 'e', 'l', 'e', 't', 'e']);
        }
        if fields.len() >= 3 && fields[0] == put_tag {
            Some(
                WalRecord::Put { key: fields[1].clone(), value: fields[2].clone() },
            )
        } else if fields.len() >= 2 && fields[0] == delete_tag {
            Some(WalRecord::Delete { key: fields[1].clone() })
        } else {
            None
        }
    }
}

/// The contents of a bounded store after the log lines are applied to it in
/// order: valid put and delete lines go through the store's own operations,
/// recency and eviction included; malformed lines are skipped.
pub open spec fn replay_into_model(
    es: Seq<(Seq<char>, Seq<char>)>,
    cap: nat,
    lines: Seq<Seq<char>>,
) -> Seq<(Seq<char>, Seq<char>)>
    decreases lines.len(),
{
    if lines.len() == 0 {
        es
    } else {
        let prev = replay_into_model(es, cap, lines.drop_last());
        match parse_line(lines.last()) {
            Some(LogOp::Put { key, value }) => inserted(prev, cap, key, value),
            Some(LogOp::Delete { key }) => removed(prev, key),
            None => prev,
        }
    }
}

/// Applies every valid log line to the store in file order, skipping
/// malformed lines. Used at startup to rebuild the store from the log.
pub fn replay_into(store: &mut Store, lines: &Vec<String>)
    requires
        old(store).wf(),
    ensures
        final (store).wf(),
        final (store).capacity() == old(store).capacity(),
        final (store)@ == replay_into_model(
            old(store)@,
            old(store).capacity(),
            lines.deep_view(),
        ),
{
    let ghost dv = lines.deep_view();
    let n = lines.len();
    let mut i: usize = 0;
    proof {
        assert(dv.take(0) =~= Seq::<Seq<char>>::empty());
    }
    while i < n
        invariant
            i <= n,
            n == dv.len(),
            n == lines@.len(),
            dv == lines.deep_view(),
            store.wf(),
            store.capacity() == old(store).capacity(),
            store@ == replay_into_model(old(store)@, old(store).capacity(), dv.take(i as int)),
        decreases n - i,
    {
        proof {
            assert(dv.take(i as int + 1).drop_last() =~= dv.take(i as int));
            assert(dv.take(i as int + 1).last() == dv[i as int]);
        }
        let rec = WalRecord::parse(lines[i].as_str());
        match rec {
            Some(WalRecord::Put { key, value }) => {
                store.put(key, value);
            },
            Some(WalRecord::Delete { key }) => {
                store.delete(key);
            },
            None => {},
        }
        i += 1;
    }
    proof {
        assert(dv.take(n as int) =~= dv);
    }
}

} // verus!
