//! The wire codec for commands and snapshots: a fixed little-endian binary
//! form with length-prefixed sequences, written so that decoding an encoding
//! provably yields the value back.

use vstd::prelude::*;

verus! {

use crate::auth::User;
use crate::auth::UserTable;
use crate::auth::UserV;
use crate::metadata::ClusterR;
use crate::metadata::ClusterState;
use crate::metadata::CmdV;
use crate::metadata::MetadataCmd;
use crate::metadata::TopicR;
use crate::metadata::TopicTable;
use crate::metadata::TopicState;
use crate::retention::RetentionPolicy;
use crate::tables::assoc_unique;
use crate::tables::NodeTable;
use crate::tables::SegMap;
use vstd::bytes::lemma_auto_spec_u64_to_from_le_bytes;
use vstd::bytes::spec_u64_from_le_bytes;
use vstd::bytes::spec_u64_to_le_bytes;
use vstd::bytes::u64_from_le_bytes;
use vstd::bytes::u64_to_le_bytes;
use vstd::slice::slice_subrange;
use vstd::slice::slice_to_vec;
use vstd::utf8::decode_utf8;
use vstd::utf8::encode_utf8;
use vstd::utf8::encode_utf8_decode_utf8;
use vstd::utf8::encode_utf8_valid_utf8;
use vstd::utf8::valid_utf8;

/// A string whose UTF-8 form fits the length prefix.
pub open spec fn str_ok(s: Seq<char>) -> bool {
    encode_utf8(s).len() <= u64::MAX
}

/// An unsigned number as 8 little-endian bytes.
pub open spec fn enc_u64(x: u64) -> Seq<u8> {
    spec_u64_to_le_bytes(x)
}

/// A single tag byte.
pub open spec fn enc_u8(x: u8) -> Seq<u8> {
    seq![x]
}

/// A string as its byte length then its UTF-8 bytes.
pub open spec fn enc_str(s: Seq<char>) -> Seq<u8> {
    enc_u64(encode_utf8(s).len() as u64) + encode_utf8(s)
}

/// A list body: each element in order under its element encoder.
pub open spec fn enc_list<T>(s: Seq<T>, f: spec_fn(T) -> Seq<u8>) -> Seq<u8>
    decreases s.len(),
{
    if s.len() == 0 {
        Seq::empty()
    } else {
        f(s[0]) + enc_list(s.drop_first(), f)
    }
}

/// Appending an element extends the list body at its end.
pub proof fn lemma_enc_list_push<T>(s: Seq<T>, f: spec_fn(T) -> Seq<u8>, x: T)
    ensures
        enc_list(s.push(x), f) == enc_list(s, f) + f(x),
    decreases s.len(),
{
    if s.len() == 0 {
        assert(s.push(x)[0] == x);
        assert(s.push(x).drop_first() =~= Seq::<T>::empty());
        assert(enc_list(Seq::<T>::empty(), f) == Seq::<u8>::empty());
        assert(enc_list(s.push(x), f) == f(x) + Seq::<u8>::empty());
        assert(enc_list(s.push(x), f) =~= enc_list(s, f) + f(x));
    } else {
        assert(s.push(x).drop_first() =~= s.drop_first().push(x));
        lemma_enc_list_push(s.drop_first(), f, x);
        assert(s.push(x)[0] == s[0]);
        assert(enc_list(s.push(x), f) =~= enc_list(s, f) + f(x));
    }
}

/// Reading an unsigned number: 8 bytes must remain.
pub open spec fn dec_u64(b: Seq<u8>) -> Option<(u64, Seq<u8>)> {
    if b.len() >= 8 {
        Some((spec_u64_from_le_bytes(b.take(8)), b.skip(8)))
    } else {
        None
    }
}

/// Reading a tag byte.
pub open spec fn dec_u8(b: Seq<u8>) -> Option<(u8, Seq<u8>)> {
    if b.len() >= 1 {
        Some((b[0], b.drop_first()))
    } else {
        None
    }
}

/// Reading a string: its byte length, then that many bytes, which must be
/// valid UTF-8.
pub open spec fn dec_str(b: Seq<u8>) -> Option<(Seq<char>, Seq<u8>)> {
    match dec_u64(b) {
        None => None,
        Some((n, r)) => if r.len() >= n && valid_utf8(r.take(n as int)) {
            Some((decode_utf8(r.take(n as int)), r.skip(n as int)))
        } else {
            None
        },
    }
}

/// Reading `n` elements with an element reader.
pub open spec fn dec_list<T>(b: Seq<u8>, n: nat, f: spec_fn(Seq<u8>) -> Option<(T, Seq<u8>)>)
    -> Option<(Seq<T>, Seq<u8>)>
    decreases n,
{
    if n == 0 {
        Some((Seq::empty(), b))
    } else {
        match f(b) {
            None => None,
            Some((x, r)) => match dec_list(r, (n - 1) as nat, f) {
                None => None,
                Some((xs, r2)) => Some((seq![x] + xs, r2)),
            },
        }
    }
}

/// Reading an encoded number gives the number back.
pub proof fn lemma_dec_enc_u64(x: u64, rest: Seq<u8>)
    ensures
        dec_u64(enc_u64(x) + rest) == Some((x, rest)),
{
    lemma_auto_spec_u64_to_from_le_bytes();
    assert((enc_u64(x) + rest).take(8) =~= enc_u64(x));
    assert((enc_u64(x) + rest).skip(8) =~= rest);
}

/// Reading an encoded tag byte gives it back.
pub proof fn lemma_dec_enc_u8(x: u8, rest: Seq<u8>)
    ensures
        dec_u8(enc_u8(x) + rest) == Some((x, rest)),
{
    assert((enc_u8(x) + rest)[0] == x);
    assert((enc_u8(x) + rest).drop_first() =~= rest);
}

/// Reading an encoded string gives the string back.
pub proof fn lemma_dec_enc_str(s: Seq<char>, rest: Seq<u8>)
    requires
        str_ok(s),
    ensures
        dec_str(enc_str(s) + rest) == Some((s, rest)),
{
    let bytes = encode_utf8(s);
    let n = bytes.len() as u64;
    assert(enc_str(s) + rest =~= enc_u64(n) + (bytes + rest));
    lemma_dec_enc_u64(n, bytes + rest);
    assert((bytes + rest).take(n as int) =~= bytes);
    assert((bytes + rest).skip(n as int) =~= rest);
    broadcast use encode_utf8_valid_utf8;
    broadcast use encode_utf8_decode_utf8;

    assert(valid_utf8(bytes));
    assert(decode_utf8(bytes) == s);
}

/// Reading an encoded list gives the elements back, provided each element
/// reads its own encoding back.
pub proof fn lemma_dec_enc_list<T>(
    s: Seq<T>,
    rest: Seq<u8>,
    fe: spec_fn(T) -> Seq<u8>,
    fd: spec_fn(Seq<u8>) -> Option<(T, Seq<u8>)>,
)
    requires
        forall|x: T, r: Seq<u8>| s.contains(x) ==> #[trigger] fd(fe(x) + r) == Some((x, r)),
    ensures
        dec_list(enc_list(s, fe) + rest, s.len(), fd) == Some((s, rest)),
    decreases s.len(),
{
    if s.len() == 0 {
        assert(enc_list(s, fe) + rest =~= rest);
        assert(dec_list(rest, 0, fd) == Some((Seq::<T>::empty(), rest)));
        assert(s =~= Seq::<T>::empty());
    } else {
        let tail = s.drop_first();
        assert(enc_list(s, fe) + rest =~= fe(s[0]) + (enc_list(tail, fe) + rest));
        assert(s.contains(s[0]));
        assert(fd(fe(s[0]) + (enc_list(tail, fe) + rest)) == Some(
            (s[0], enc_list(tail, fe) + rest),
        ));
        assert(forall|x: T, r: Seq<u8>|
            tail.contains(x) ==> s.contains(x) && #[trigger] fd(fe(x) + r) == Some((x, r)));
        lemma_dec_enc_list(tail, rest, fe, fd);
        assert(seq![s[0]] + tail =~= s);
    }
}

/// An optional number: a presence tag, then the number if present.
pub open spec fn enc_opt_u64(o: Option<u64>) -> Seq<u8> {
    match o {
        None => enc_u8(0),
        Some(x) => enc_u8(1) + enc_u64(x),
    }
}

/// An optional string: a presence tag, then the string if present.
pub open spec fn enc_opt_str(o: Option<Seq<char>>) -> Seq<u8> {
    match o {
        None => enc_u8(0),
        Some(s) => enc_u8(1) + enc_str(s),
    }
}

/// A retention policy: its two optional limits, then its floor.
pub open spec fn enc_policy(p: RetentionPolicy) -> Seq<u8> {
    enc_opt_u64(p.max_age_hours) + enc_opt_u64(p.max_segments) + enc_u64(p.min_segments_to_keep)
}

/// One id/number table entry.
pub open spec fn enc_pair(p: (u64, u64)) -> Seq<u8> {
    enc_u64(p.0) + enc_u64(p.1)
}

pub open spec fn enc_pair_fn() -> spec_fn((u64, u64)) -> Seq<u8> {
    |p: (u64, u64)| enc_pair(p)
}

/// An id/number table: its length, then its entries in order.
pub open spec fn enc_pairs(s: Seq<(u64, u64)>) -> Seq<u8> {
    enc_u64(s.len() as u64) + enc_list(s, enc_pair_fn())
}

/// A topic's bookkeeping, field by field.
pub open spec fn enc_topic(t: TopicR) -> Seq<u8> {
    enc_u64(t.current_segment) + enc_u64(t.leader_node) + enc_u64(t.last_sealed_entry_offset)
        + enc_policy(t.retention) + enc_pairs(t.sealed_segments) + enc_pairs(t.segment_leaders)
        + enc_pairs(t.segment_created_at)
}

/// A user, field by field.
pub open spec fn enc_user(u: UserV) -> Seq<u8> {
    enc_str(u.username) + enc_str(u.password) + enc_opt_str(u.api_key)
}

pub open spec fn enc_user_fn() -> spec_fn(UserV) -> Seq<u8> {
    |u: UserV| enc_user(u)
}

/// A named topic entry.
pub open spec fn enc_topic_entry(e: (Seq<char>, TopicR)) -> Seq<u8> {
    enc_str(e.0) + enc_topic(e.1)
}

pub open spec fn enc_topic_entry_fn() -> spec_fn((Seq<char>, TopicR)) -> Seq<u8> {
    |e: (Seq<char>, TopicR)| enc_topic_entry(e)
}

/// A node directory entry.
pub open spec fn enc_node_entry(e: (u64, Seq<char>)) -> Seq<u8> {
    enc_u64(e.0) + enc_str(e.1)
}

pub open spec fn enc_node_entry_fn() -> spec_fn((u64, Seq<char>)) -> Seq<u8> {
    |e: (u64, Seq<char>)| enc_node_entry(e)
}

pub open spec fn enc_u64_elem_fn() -> spec_fn(u64) -> Seq<u8> {
    |x: u64| enc_u64(x)
}

/// A list of ids: its length, then the ids.
pub open spec fn enc_u64s(s: Seq<u64>) -> Seq<u8> {
    enc_u64(s.len() as u64) + enc_list(s, enc_u64_elem_fn())
}

/// The whole cluster document: its three tables, each length-prefixed.
pub open spec fn enc_cluster(c: ClusterR) -> Seq<u8> {
    enc_u64(c.topics.len() as u64) + enc_list(c.topics, enc_topic_entry_fn()) + enc_u64(
        c.nodes.len() as u64,
    ) + enc_list(c.nodes, enc_node_entry_fn()) + enc_u64(c.users.len() as u64) + enc_list(
        c.users,
        enc_user_fn(),
    )
}

/// A command: a variant tag, then its fields.
pub open spec fn enc_cmd(c: CmdV) -> Seq<u8> {
    match c {
        CmdV::CreateTopic { name, initial_leader } => enc_u8(1) + enc_str(name) + enc_u64(
            initial_leader,
        ),
        CmdV::RolloverTopic { name, new_leader, sealed_segment_entry_count } => enc_u8(2)
            + enc_str(name) + enc_u64(new_leader) + enc_u64(sealed_segment_entry_count),
        CmdV::UpsertNode { node_id, addr } => enc_u8(3) + enc_u64(node_id) + enc_str(addr),
        CmdV::AddUser { user } => enc_u8(4) + enc_user(user),
        CmdV::RemoveUser { username } => enc_u8(5) + enc_str(username),
        CmdV::SetRetention { topic, policy } => enc_u8(6) + enc_str(topic) + enc_policy(policy),
        CmdV::DeleteSegments { topic, segment_ids } => enc_u8(7) + enc_str(topic) + enc_u64s(
            segment_ids,
        ),
    }
}

/// A table short enough for its length prefix.
pub open spec fn pairs_ok(s: Seq<(u64, u64)>) -> bool {
    s.len() <= u64::MAX
}

/// A topic whose tables fit their length prefixes.
pub open spec fn topic_ok(t: TopicR) -> bool {
    pairs_ok(t.sealed_segments) && pairs_ok(t.segment_leaders) && pairs_ok(t.segment_created_at)
}

/// A user whose strings fit their length prefixes.
pub open spec fn user_ok(u: UserV) -> bool {
    str_ok(u.username) && str_ok(u.password) && (u.api_key matches Some(k) ==> str_ok(k))
}

/// A document whose every table and string fits its length prefix.
pub open spec fn cluster_ok(c: ClusterR) -> bool {
    &&& c.topics.len() <= u64::MAX
    &&& c.nodes.len() <= u64::MAX
    &&& c.users.len() <= u64::MAX
    &&& forall|i: int|
        0 <= i < c.topics.len() ==> str_ok((#[trigger] c.topics[i]).0) && topic_ok(c.topics[i].1)
    &&& forall|i: int| 0 <= i < c.nodes.len() ==> str_ok((#[trigger] c.nodes[i]).1)
    &&& forall|i: int| 0 <= i < c.users.len() ==> user_ok(#[trigger] c.users[i])
}

/// A command whose strings and lists fit their length prefixes.
pub open spec fn cmd_ok(c: CmdV) -> bool {
    match c {
        CmdV::CreateTopic { name, .. } => str_ok(name),
        CmdV::RolloverTopic { name, .. } => str_ok(name),
        CmdV::UpsertNode { addr, .. } => str_ok(addr),
        CmdV::AddUser { user } => user_ok(user),
        CmdV::RemoveUser { username } => str_ok(username),
        CmdV::SetRetention { topic, .. } => str_ok(topic),
        CmdV::DeleteSegments { topic, segment_ids } => str_ok(topic) && segment_ids.len()
            <= u64::MAX,
    }
}

/// A topic's tables have unique keys.
pub open spec fn topic_r_wf(t: TopicR) -> bool {
    assoc_unique(t.sealed_segments) && assoc_unique(t.segment_leaders) && assoc_unique(
        t.segment_created_at,
    )
}

/// The document's tables have unique keys throughout.
pub open spec fn cluster_r_wf(c: ClusterR) -> bool {
    &&& assoc_unique(c.topics)
    &&& forall|i: int| 0 <= i < c.topics.len() ==> topic_r_wf((#[trigger] c.topics[i]).1)
    &&& assoc_unique(c.nodes)
    &&& assoc_unique(c.users.map(|i: int, u: UserV| (u.username, u)))
}

/// Reading an optional number.
pub open spec fn dec_opt_u64(b: Seq<u8>) -> Option<(Option<u64>, Seq<u8>)> {
    match dec_u8(b) {
        None => None,
        Some((tag, r)) => if tag == 0 {
            Some((None, r))
        } else if tag == 1 {
            match dec_u64(r) {
                None => None,
                Some((x, r2)) => Some((Some(x), r2)),
            }
        } else {
            None
        },
    }
}

/// Reading an optional string.
pub open spec fn dec_opt_str(b: Seq<u8>) -> Option<(Option<Seq<char>>, Seq<u8>)> {
    match dec_u8(b) {
        None => None,
        Some((tag, r)) => if tag == 0 {
            Some((None, r))
        } else if tag == 1 {
            match dec_str(r) {
                None => None,
                Some((s, r2)) => Some((Some(s), r2)),
            }
        } else {
            None
        },
    }
}

/// Reading a retention policy.
pub open spec fn dec_policy(b: Seq<u8>) -> Option<(RetentionPolicy, Seq<u8>)> {
    match dec_opt_u64(b) {
        None => None,
        Some((age, r)) => match dec_opt_u64(r) {
            None => None,
            Some((segs, r2)) => match dec_u64(r2) {
                None => None,
                Some((min, r3)) => Some(
                    (
                        RetentionPolicy {
                            max_age_hours: age,
                            max_segments: segs,
                            min_segments_to_keep: min,
                        },
                        r3,
                    ),
                ),
            },
        },
    }
}

/// Reading one table entry.
pub open spec fn dec_pair(b: Seq<u8>) -> Option<((u64, u64), Seq<u8>)> {
    match dec_u64(b) {
        None => None,
        Some((k, r)) => match dec_u64(r) {
            None => None,
            Some((v, r2)) => Some(((k, v), r2)),
        },
    }
}

pub open spec fn dec_pair_fn() -> spec_fn(Seq<u8>) -> Option<((u64, u64), Seq<u8>)> {
    |b: Seq<u8>| dec_pair(b)
}

/// Reading an id/number table; its keys must be unique.
pub open spec fn dec_pairs(b: Seq<u8>) -> Option<(Seq<(u64, u64)>, Seq<u8>)> {
    match dec_u64(b) {
        None => None,
        Some((n, r)) => match dec_list(r, n as nat, dec_pair_fn()) {
            None => None,
            Some((s, r2)) => if assoc_unique(s) {
                Some((s, r2))
            } else {
                None
            },
        },
    }
}

/// Reading a topic's bookkeeping.
pub open spec fn dec_topic(b: Seq<u8>) -> Option<(TopicR, Seq<u8>)> {
    match dec_u64(b) {
        None => None,
        Some((cs, r1)) => match dec_u64(r1) {
            None => None,
            Some((leader, r2)) => match dec_u64(r2) {
                None => None,
                Some((off, r3)) => match dec_policy(r3) {
                    None => None,
                    Some((pol, r4)) => match dec_pairs(r4) {
                        None => None,
                        Some((sealed, r5)) => match dec_pairs(r5) {
                            None => None,
                            Some((leaders, r6)) => match dec_pairs(r6) {
                                None => None,
                                Some((created, r7)) => Some(
                                    (
                                        TopicR {
                                            current_segment: cs,
                                            leader_node: leader,
                                            last_sealed_entry_offset: off,
                                            sealed_segments: sealed,
                                            segment_leaders: leaders,
                                            retention: pol,
                                            segment_created_at: created,
                                        },
                                        r7,
                                    ),
                                ),
                            },
                        },
                    },
                },
            },
        },
    }
}

/// Reading a user.
pub open spec fn dec_user(b: Seq<u8>) -> Option<(UserV, Seq<u8>)> {
    match dec_str(b) {
        None => None,
        Some((name, r1)) => match dec_str(r1) {
            None => None,
            Some((pass, r2)) => match dec_opt_str(r2) {
                None => None,
                Some((key, r3)) => Some(
                    (UserV { username: name, password: pass, api_key: key }, r3),
                ),
            },
        },
    }
}

pub open spec fn dec_user_fn() -> spec_fn(Seq<u8>) -> Option<(UserV, Seq<u8>)> {
    |b: Seq<u8>| dec_user(b)
}

/// Reading a named topic entry.
pub open spec fn dec_topic_entry(b: Seq<u8>) -> Option<((Seq<char>, TopicR), Seq<u8>)> {
    match dec_str(b) {
        None => None,
        Some((name, r)) => match dec_topic(r) {
            None => None,
            Some((t, r2)) => Some(((name, t), r2)),
        },
    }
}

pub open spec fn dec_topic_entry_fn() -> spec_fn(Seq<u8>) -> Option<
    ((Seq<char>, TopicR), Seq<u8>),
> {
    |b: Seq<u8>| dec_topic_entry(b)
}

/// Reading a node directory entry.
pub open spec fn dec_node_entry(b: Seq<u8>) -> Option<((u64, Seq<char>), Seq<u8>)> {
    match dec_u64(b) {
        None => None,
        Some((id, r)) => match dec_str(r) {
            None => None,
            Some((addr, r2)) => Some(((id, addr), r2)),
        },
    }
}

pub open spec fn dec_node_entry_fn() -> spec_fn(Seq<u8>) -> Option<((u64, Seq<char>), Seq<u8>)> {
    |b: Seq<u8>| dec_node_entry(b)
}

pub open spec fn dec_u64_elem_fn() -> spec_fn(Seq<u8>) -> Option<(u64, Seq<u8>)> {
    |b: Seq<u8>| dec_u64(b)
}

/// Reading a list of ids.
pub open spec fn dec_u64s(b: Seq<u8>) -> Option<(Seq<u64>, Seq<u8>)> {
    match dec_u64(b) {
        None => None,
        Some((n, r)) => dec_list(r, n as nat, dec_u64_elem_fn()),
    }
}

/// Reading the whole document; every table's keys must be unique.
pub open spec fn dec_cluster(b: Seq<u8>) -> Option<(ClusterR, Seq<u8>)> {
    match dec_u64(b) {
        None => None,
        Some((nt, r1)) => match dec_list(r1, nt as nat, dec_topic_entry_fn()) {
            None => None,
            Some((topics, r2)) => match dec_u64(r2) {
                None => None,
                Some((nn, r3)) => match dec_list(r3, nn as nat, dec_node_entry_fn()) {
                    None => None,
                    Some((nodes, r4)) => match dec_u64(r4) {
                        None => None,
                        Some((nu, r5)) => match dec_list(r5, nu as nat, dec_user_fn()) {
                            None => None,
                            Some((users, r6)) => {
                                let c = ClusterR { topics, nodes, users };
                                if assoc_unique(topics) && assoc_unique(nodes) && assoc_unique(
                                    users.map(|i: int, u: UserV| (u.username, u)),
                                ) {
                                    Some((c, r6))
                                } else {
                                    None
                                }
                            },
                        },
                    },
                },
            },
        },
    }
}

/// Reading a command.
pub open spec fn dec_cmd(b: Seq<u8>) -> Option<(CmdV, Seq<u8>)> {
    match dec_u8(b) {
        None => None,
        Some((tag, r)) => if tag == 1 {
            match dec_str(r) {
                None => None,
                Some((name, r1)) => match dec_u64(r1) {
                    None => None,
                    Some((leader, r2)) => Some(
                        (CmdV::CreateTopic { name, initial_leader: leader }, r2),
                    ),
                },
            }
        } else if tag == 2 {
            match dec_str(r) {
                None => None,
                Some((name, r1)) => match dec_u64(r1) {
                    None => None,
                    Some((nl, r2)) => match dec_u64(r2) {
                        None => None,
                        Some((cnt, r3)) => Some(
                            (
                                CmdV::RolloverTopic {
                                    name,
                                    new_leader: nl,
                                    sealed_segment_entry_count: cnt,
                                },
                                r3,
                            ),
                        ),
                    },
                },
            }
        } else if tag == 3 {
            match dec_u64(r) {
                None => None,
                Some((id, r1)) => match dec_str(r1) {
                    None => None,
                    Some((addr, r2)) => Some((CmdV::UpsertNode { node_id: id, addr }, r2)),
                },
            }
        } else if tag == 4 {
            match dec_user(r) {
                None => None,
                Some((user, r1)) => Some((CmdV::AddUser { user }, r1)),
            }
        } else if tag == 5 {
            match dec_str(r) {
                None => None,
                Some((username, r1)) => Some((CmdV::RemoveUser { username }, r1)),
            }
        } else if tag == 6 {
            match dec_str(r) {
                None => None,
                Some((topic, r1)) => match dec_policy(r1) {
                    None => None,
                    Some((policy, r2)) => Some((CmdV::SetRetention { topic, policy }, r2)),
                },
            }
        } else if tag == 7 {
            match dec_str(r) {
                None => None,
                Some((topic, r1)) => match dec_u64s(r1) {
                    None => None,
                    Some((ids, r2)) => Some(
                        (CmdV::DeleteSegments { topic, segment_ids: ids }, r2),
                    ),
                },
            }
        } else {
            None
        },
    }
}

/// Reading an encoded optional number gives it back.
pub proof fn lemma_dec_enc_opt_u64(o: Option<u64>, rest: Seq<u8>)
    ensures
        dec_opt_u64(enc_opt_u64(o) + rest) == Some((o, rest)),
{
    match o {
        None => {
            lemma_dec_enc_u8(0, rest);
        },
        Some(x) => {
            assert(enc_opt_u64(o) + rest =~= enc_u8(1) + (enc_u64(x) + rest));
            lemma_dec_enc_u8(1, enc_u64(x) + rest);
            lemma_dec_enc_u64(x, rest);
        },
    }
}

/// Reading an encoded optional string gives it back.
pub proof fn lemma_dec_enc_opt_str(o: Option<Seq<char>>, rest: Seq<u8>)
    requires
        o matches Some(s) ==> str_ok(s),
    ensures
        dec_opt_str(enc_opt_str(o) + rest) == Some((o, rest)),
{
    match o {
        None => {
            lemma_dec_enc_u8(0, rest);
        },
        Some(s) => {
            assert(enc_opt_str(o) + rest =~= enc_u8(1) + (enc_str(s) + rest));
            lemma_dec_enc_u8(1, enc_str(s) + rest);
            lemma_dec_enc_str(s, rest);
        },
    }
}

/// Reading an encoded retention policy gives it back.
pub proof fn lemma_dec_enc_policy(p: RetentionPolicy, rest: Seq<u8>)
    ensures
        dec_policy(enc_policy(p) + rest) == Some((p, rest)),
{
    let r2 = enc_opt_u64(p.max_segments) + (enc_u64(p.min_segments_to_keep) + rest);
    assert(enc_policy(p) + rest =~= enc_opt_u64(p.max_age_hours) + r2);
    lemma_dec_enc_opt_u64(p.max_age_hours, r2);
    assert(r2 =~= enc_opt_u64(p.max_segments) + (enc_u64(p.min_segments_to_keep) + rest));
    lemma_dec_enc_opt_u64(p.max_segments, enc_u64(p.min_segments_to_keep) + rest);
    lemma_dec_enc_u64(p.min_segments_to_keep, rest);
}

/// Reading an encoded table entry gives it back.
pub proof fn lemma_dec_enc_pair(p: (u64, u64), rest: Seq<u8>)
    ensures
        dec_pair(enc_pair(p) + rest) == Some((p, rest)),
{
    assert(enc_pair(p) + rest =~= enc_u64(p.0) + (enc_u64(p.1) + rest));
    lemma_dec_enc_u64(p.0, enc_u64(p.1) + rest);
    lemma_dec_enc_u64(p.1, rest);
}

/// Reading an encoded table gives it back, keys being unique.
pub proof fn lemma_dec_enc_pairs(s: Seq<(u64, u64)>, rest: Seq<u8>)
    requires
        pairs_ok(s),
        assoc_unique(s),
    ensures
        dec_pairs(enc_pairs(s) + rest) == Some((s, rest)),
{
    let body = enc_list(s, enc_pair_fn()) + rest;
    assert(enc_pairs(s) + rest =~= enc_u64(s.len() as u64) + body);
    lemma_dec_enc_u64(s.len() as u64, body);
    assert forall|x: (u64, u64), r: Seq<u8>| s.contains(x) implies #[trigger] dec_pair_fn()(
        enc_pair_fn()(x) + r,
    ) == Some((x, r)) by {
        lemma_dec_enc_pair(x, r);
    }
    lemma_dec_enc_list(s, rest, enc_pair_fn(), dec_pair_fn());
}

/// Reading an encoded topic gives it back.
pub proof fn lemma_dec_enc_topic(t: TopicR, rest: Seq<u8>)
    requires
        topic_ok(t),
        topic_r_wf(t),
    ensures
        dec_topic(enc_topic(t) + rest) == Some((t, rest)),
{
    let r7 = rest;
    let r6 = enc_pairs(t.segment_created_at) + r7;
    let r5 = enc_pairs(t.segment_leaders) + r6;
    let r4 = enc_pairs(t.sealed_segments) + r5;
    let r3 = enc_policy(t.retention) + r4;
    let r2 = enc_u64(t.last_sealed_entry_offset) + r3;
    let r1 = enc_u64(t.leader_node) + r2;
    assert(enc_topic(t) + rest =~= enc_u64(t.current_segment) + r1);
    lemma_dec_enc_u64(t.current_segment, r1);
    lemma_dec_enc_u64(t.leader_node, r2);
    lemma_dec_enc_u64(t.last_sealed_entry_offset, r3);
    lemma_dec_enc_policy(t.retention, r4);
    lemma_dec_enc_pairs(t.sealed_segments, r5);
    lemma_dec_enc_pairs(t.segment_leaders, r6);
    lemma_dec_enc_pairs(t.segment_created_at, r7);
}

/// Reading an encoded user gives it back.
pub proof fn lemma_dec_enc_user(u: UserV, rest: Seq<u8>)
    requires
        user_ok(u),
    ensures
        dec_user(enc_user(u) + rest) == Some((u, rest)),
{
    let r2 = enc_opt_str(u.api_key) + rest;
    let r1 = enc_str(u.password) + r2;
    assert(enc_user(u) + rest =~= enc_str(u.username) + r1);
    lemma_dec_enc_str(u.username, r1);
    lemma_dec_enc_str(u.password, r2);
    lemma_dec_enc_opt_str(u.api_key, rest);
}

/// Reading an encoded named topic entry gives it back.
pub proof fn lemma_dec_enc_topic_entry(e: (Seq<char>, TopicR), rest: Seq<u8>)
    requires
        str_ok(e.0),
        topic_ok(e.1),
        topic_r_wf(e.1),
    ensures
        dec_topic_entry(enc_topic_entry(e) + rest) == Some((e, rest)),
{
    let r1 = enc_topic(e.1) + rest;
    assert(enc_topic_entry(e) + rest =~= enc_str(e.0) + r1);
    lemma_dec_enc_str(e.0, r1);
    lemma_dec_enc_topic(e.1, rest);
}

/// Reading an encoded node entry gives it back.
pub proof fn lemma_dec_enc_node_entry(e: (u64, Seq<char>), rest: Seq<u8>)
    requires
        str_ok(e.1),
    ensures
        dec_node_entry(enc_node_entry(e) + rest) == Some((e, rest)),
{
    let r1 = enc_str(e.1) + rest;
    assert(enc_node_entry(e) + rest =~= enc_u64(e.0) + r1);
    lemma_dec_enc_u64(e.0, r1);
    lemma_dec_enc_str(e.1, rest);
}

/// The snapshot law: reading back an encoded document yields that document,
/// whole and exactly, with nothing left over. With `Metadata::snapshot` and
/// `Metadata::restore` this says that restoring a snapshot reproduces the
/// cluster state it was taken from.
#[verifier::rlimit(60)]
pub proof fn lemma_dec_enc_cluster(c: ClusterR, rest: Seq<u8>)
    requires
        cluster_ok(c),
        cluster_r_wf(c),
    ensures
        dec_cluster(enc_cluster(c) + rest) == Some((c, rest)),
{
    let r5 = enc_list(c.users, enc_user_fn()) + rest;
    let r4 = enc_u64(c.users.len() as u64) + r5;
    let r3 = enc_list(c.nodes, enc_node_entry_fn()) + r4;
    let r2 = enc_u64(c.nodes.len() as u64) + r3;
    let r1 = enc_list(c.topics, enc_topic_entry_fn()) + r2;
    assert(enc_cluster(c) + rest =~= enc_u64(c.topics.len() as u64) + r1);
    lemma_dec_enc_u64(c.topics.len() as u64, r1);
    assert forall|x: (Seq<char>, TopicR), r: Seq<u8>| c.topics.contains(x)
        implies #[trigger] dec_topic_entry_fn()(enc_topic_entry_fn()(x) + r) == Some((x, r)) by {
        let i = choose|i: int| 0 <= i < c.topics.len() && c.topics[i] == x;
        lemma_dec_enc_topic_entry(x, r);
    }
    lemma_dec_enc_list(c.topics, r2, enc_topic_entry_fn(), dec_topic_entry_fn());
    lemma_dec_enc_u64(c.nodes.len() as u64, r3);
    assert forall|x: (u64, Seq<char>), r: Seq<u8>| c.nodes.contains(x)
        implies #[trigger] dec_node_entry_fn()(enc_node_entry_fn()(x) + r) == Some((x, r)) by {
        let i = choose|i: int| 0 <= i < c.nodes.len() && c.nodes[i] == x;
        lemma_dec_enc_node_entry(x, r);
    }
    lemma_dec_enc_list(c.nodes, r4, enc_node_entry_fn(), dec_node_entry_fn());
    lemma_dec_enc_u64(c.users.len() as u64, r5);
    assert forall|x: UserV, r: Seq<u8>| c.users.contains(x) implies #[trigger] dec_user_fn()(
        enc_user_fn()(x) + r,
    ) == Some((x, r)) by {
        let i = choose|i: int| 0 <= i < c.users.len() && c.users[i] == x;
        lemma_dec_enc_user(x, r);
    }
    lemma_dec_enc_list(c.users, rest, enc_user_fn(), dec_user_fn());
}

/// Reading back an encoded command yields that command.
#[verifier::rlimit(60)]
pub proof fn lemma_dec_enc_cmd(c: CmdV, rest: Seq<u8>)
    requires
        cmd_ok(c),
    ensures
        dec_cmd(enc_cmd(c) + rest) == Some((c, rest)),
{
    match c {
        CmdV::CreateTopic { name, initial_leader } => {
            let r1 = enc_str(name) + (enc_u64(initial_leader) + rest);
            assert(enc_cmd(c) + rest =~= enc_u8(1) + r1);
            lemma_dec_enc_u8(1, r1);
            lemma_dec_enc_str(name, enc_u64(initial_leader) + rest);
            lemma_dec_enc_u64(initial_leader, rest);
        },
        CmdV::RolloverTopic { name, new_leader, sealed_segment_entry_count } => {
            let r3 = enc_u64(sealed_segment_entry_count) + rest;
            let r2 = enc_u64(new_leader) + r3;
            let r1 = enc_str(name) + r2;
            assert(enc_cmd(c) + rest =~= enc_u8(2) + r1);
            lemma_dec_enc_u8(2, r1);
            lemma_dec_enc_str(name, r2);
            lemma_dec_enc_u64(new_leader, r3);
            lemma_dec_enc_u64(sealed_segment_entry_count, rest);
        },
        CmdV::UpsertNode { node_id, addr } => {
            let r2 = enc_str(addr) + rest;
            let r1 = enc_u64(node_id) + r2;
            assert(enc_cmd(c) + rest =~= enc_u8(3) + r1);
            lemma_dec_enc_u8(3, r1);
            lemma_dec_enc_u64(node_id, r2);
            lemma_dec_enc_str(addr, rest);
        },
        CmdV::AddUser { user } => {
            let r1 = enc_user(user) + rest;
            assert(enc_cmd(c) + rest =~= enc_u8(4) + r1);
            lemma_dec_enc_u8(4, r1);
            lemma_dec_enc_user(user, rest);
        },
        CmdV::RemoveUser { username } => {
            let r1 = enc_str(username) + rest;
            assert(enc_cmd(c) + rest =~= enc_u8(5) + r1);
            lemma_dec_enc_u8(5, r1);
            lemma_dec_enc_str(username, rest);
        },
        CmdV::SetRetention { topic, policy } => {
            let r2 = enc_policy(policy) + rest;
            let r1 = enc_str(topic) + r2;
            assert(enc_cmd(c) + rest =~= enc_u8(6) + r1);
            lemma_dec_enc_u8(6, r1);
            lemma_dec_enc_str(topic, r2);
            lemma_dec_enc_policy(policy, rest);
        },
        CmdV::DeleteSegments { topic, segment_ids } => {
            let body = enc_list(segment_ids, enc_u64_elem_fn()) + rest;
            let r2 = enc_u64s(segment_ids) + rest;
            let r1 = enc_str(topic) + r2;
            assert(enc_cmd(c) + rest =~= enc_u8(7) + r1);
            lemma_dec_enc_u8(7, r1);
            lemma_dec_enc_str(topic, r2);
            assert(r2 =~= enc_u64(segment_ids.len() as u64) + body);
            lemma_dec_enc_u64(segment_ids.len() as u64, body);
            assert forall|x: u64, r: Seq<u8>| segment_ids.contains(x)
                implies #[trigger] dec_u64_elem_fn()(enc_u64_elem_fn()(x) + r) == Some(
                (x, r),
            ) by {
                lemma_dec_enc_u64(x, r);
            }
            lemma_dec_enc_list(segment_ids, rest, enc_u64_elem_fn(), dec_u64_elem_fn());
        },
    }
}

/// Writes `x` at the end of `out`.
pub fn write_u64(out: &mut Vec<u8>, x: u64)
    ensures
        final(out)@ == old(out)@ + enc_u64(x),
{
    let mut bs: Vec<u8> = u64_to_le_bytes(x);
    out.append(&mut bs);
}

/// Writes a tag byte at the end of `out`.
pub fn write_u8(out: &mut Vec<u8>, x: u8)
    ensures
        final(out)@ == old(out)@ + enc_u8(x),
{
    let ghost o = out@;
    out.push(x);
    proof {
        assert(out@ =~= o + enc_u8(x));
    }
}

/// Writes a length-prefixed string at the end of `out`. Being encodable is a
/// fact about any machine-held string, recorded here for the caller.
pub fn write_str(out: &mut Vec<u8>, s: &String)
    ensures
        final(out)@ == old(out)@ + enc_str(s@),
        str_ok(s@),
{
    let ghost o = out@;
    let bytes: Vec<u8> = s.as_str().as_bytes_vec();
    write_u64(out, bytes.len() as u64);
    let mut b = bytes;
    out.append(&mut b);
    proof {
        assert(out@ =~= o + enc_str(s@));
    }
}

/// Writes an optional number.
pub fn write_opt_u64(out: &mut Vec<u8>, o: &Option<u64>)
    ensures
        final(out)@ == old(out)@ + enc_opt_u64(*o),
{
    match o {
        None => write_u8(out, 0),
        Some(x) => {
            write_u8(out, 1);
            write_u64(out, *x);
            proof {
                assert(out@ =~= old(out)@ + enc_opt_u64(*o));
            }
        },
    }
}

/// Writes an optional string.
pub fn write_opt_str(out: &mut Vec<u8>, o: &Option<String>)
    ensures
        final(out)@ == old(out)@ + enc_opt_str(match *o {
            Some(ref s) => Some(s@),
            None => None,
        }),
        (*o matches Some(s) ==> str_ok(s@)),
{
    match o {
        None => write_u8(out, 0),
        Some(s) => {
            write_u8(out, 1);
            write_str(out, s);
            proof {
                assert(out@ =~= old(out)@ + enc_opt_str(Some(s@)));
            }
        },
    }
}

/// Writes a retention policy.
pub fn write_policy(out: &mut Vec<u8>, p: &RetentionPolicy)
    ensures
        final(out)@ == old(out)@ + enc_policy(*p),
{
    write_opt_u64(out, &p.max_age_hours);
    write_opt_u64(out, &p.max_segments);
    write_u64(out, p.min_segments_to_keep);
    proof {
        assert(out@ =~= old(out)@ + enc_policy(*p));
    }
}

/// Writes an id/number table.
pub fn write_pairs(out: &mut Vec<u8>, m: &SegMap)
    ensures
        final(out)@ == old(out)@ + enc_pairs(m.entries@),
        pairs_ok(m.entries@),
{
    write_u64(out, m.entries.len() as u64);
    let ghost base = out@;
    let mut i: usize = 0;
    while i < m.entries.len()
        invariant
            i <= m.entries@.len(),
            out@ == base + enc_list(m.entries@.take(i as int), enc_pair_fn()),
        decreases m.entries@.len() - i,
    {
        write_u64(out, m.entries[i].0);
        write_u64(out, m.entries[i].1);
        proof {
            lemma_enc_list_push(
                m.entries@.take(i as int),
                enc_pair_fn(),
                m.entries@[i as int],
            );
            assert(m.entries@.take(i as int + 1) =~= m.entries@.take(i as int).push(
                m.entries@[i as int],
            ));
            assert(out@ =~= base + enc_list(m.entries@.take(i as int + 1), enc_pair_fn()));
        }
        i = i + 1;
    }
    proof {
        assert(m.entries@.take(m.entries@.len() as int) =~= m.entries@);
        assert(out@ =~= old(out)@ + enc_pairs(m.entries@));
    }
}

/// Writes a topic's bookkeeping.
pub fn write_topic(out: &mut Vec<u8>, t: &TopicState)
    ensures
        final(out)@ == old(out)@ + enc_topic(t.repr()),
        topic_ok(t.repr()),
{
    write_u64(out, t.current_segment);
    write_u64(out, t.leader_node);
    write_u64(out, t.last_sealed_entry_offset);
    write_policy(out, &t.retention);
    write_pairs(out, &t.sealed_segments);
    write_pairs(out, &t.segment_leaders);
    write_pairs(out, &t.segment_created_at);
    proof {
        assert(out@ =~= old(out)@ + enc_topic(t.repr()));
    }
}

/// Writes a user.
pub fn write_user(out: &mut Vec<u8>, u: &User)
    ensures
        final(out)@ == old(out)@ + enc_user(u@),
        user_ok(u@),
{
    write_str(out, &u.username);
    write_str(out, &u.password);
    write_opt_str(out, &u.api_key);
    proof {
        assert(out@ =~= old(out)@ + enc_user(u@));
    }
}

/// Encodes the whole document, recording that it fits its length prefixes.
pub fn encode_cluster(c: &ClusterState) -> (r: Vec<u8>)
    ensures
        r@ == enc_cluster(c.repr()),
        cluster_ok(c.repr()),
{
    let mut out: Vec<u8> = Vec::new();
    write_u64(&mut out, c.topics.entries.len() as u64);
    let ghost base1 = out@;
    let ghost tr = c.repr().topics;
    proof {
        assert(tr.len() == c.topics.entries@.len());
    }
    let mut i: usize = 0;
    while i < c.topics.entries.len()
        invariant
            i <= c.topics.entries@.len(),
            tr == c.repr().topics,
            tr.len() == c.topics.entries@.len(),
            tr == c.topics.entries@.map(|n: int, e: (String, TopicState)| (e.0@, e.1.repr())),
            out@ == base1 + enc_list(tr.take(i as int), enc_topic_entry_fn()),
            forall|j: int|
                0 <= j < i ==> str_ok((#[trigger] tr[j]).0) && topic_ok(tr[j].1),
        decreases c.topics.entries@.len() - i,
    {
        write_str(&mut out, &c.topics.entries[i].0);
        write_topic(&mut out, &c.topics.entries[i].1);
        proof {
            lemma_enc_list_push(tr.take(i as int), enc_topic_entry_fn(), tr[i as int]);
            assert(tr.take(i as int + 1) =~= tr.take(i as int).push(tr[i as int]));
            assert(enc_topic_entry_fn()(tr[i as int]) == enc_str(tr[i as int].0) + enc_topic(
                tr[i as int].1,
            ));
            assert(out@ =~= base1 + enc_list(tr.take(i as int + 1), enc_topic_entry_fn()));
        }
        i = i + 1;
    }
    proof {
        assert(tr.take(tr.len() as int) =~= tr);
    }
    write_u64(&mut out, c.nodes.entries.len() as u64);
    let ghost base2 = out@;
    let ghost nr = c.repr().nodes;
    proof {
        assert(nr.len() == c.nodes.entries@.len());
    }
    let mut i: usize = 0;
    while i < c.nodes.entries.len()
        invariant
            i <= c.nodes.entries@.len(),
            nr == c.repr().nodes,
            nr.len() == c.nodes.entries@.len(),
            nr == c.nodes.entries@.map(|n: int, e: (u64, String)| (e.0, e.1@)),
            out@ == base2 + enc_list(nr.take(i as int), enc_node_entry_fn()),
            forall|j: int| 0 <= j < i ==> str_ok((#[trigger] nr[j]).1),
        decreases c.nodes.entries@.len() - i,
    {
        write_u64(&mut out, c.nodes.entries[i].0);
        write_str(&mut out, &c.nodes.entries[i].1);
        proof {
            lemma_enc_list_push(nr.take(i as int), enc_node_entry_fn(), nr[i as int]);
            assert(nr.take(i as int + 1) =~= nr.take(i as int).push(nr[i as int]));
            assert(enc_node_entry_fn()(nr[i as int]) == enc_u64(nr[i as int].0) + enc_str(
                nr[i as int].1,
            ));
            assert(out@ =~= base2 + enc_list(nr.take(i as int + 1), enc_node_entry_fn()));
        }
        i = i + 1;
    }
    proof {
        assert(nr.take(nr.len() as int) =~= nr);
    }
    write_u64(&mut out, c.auth.users.len() as u64);
    let ghost base3 = out@;
    let ghost ur = c.repr().users;
    proof {
        assert(ur.len() == c.auth.users@.len());
    }
    let mut i: usize = 0;
    while i < c.auth.users.len()
        invariant
            i <= c.auth.users@.len(),
            ur == c.repr().users,
            ur.len() == c.auth.users@.len(),
            ur == c.auth.users@.map(|n: int, u: User| u@),
            out@ == base3 + enc_list(ur.take(i as int), enc_user_fn()),
            forall|j: int| 0 <= j < i ==> user_ok(#[trigger] ur[j]),
        decreases c.auth.users@.len() - i,
    {
        write_user(&mut out, &c.auth.users[i]);
        proof {
            lemma_enc_list_push(ur.take(i as int), enc_user_fn(), ur[i as int]);
            assert(ur.take(i as int + 1) =~= ur.take(i as int).push(ur[i as int]));
            assert(out@ =~= base3 + enc_list(ur.take(i as int + 1), enc_user_fn()));
        }
        i = i + 1;
    }
    proof {
        assert(ur.take(ur.len() as int) =~= ur);
        assert(out@ =~= enc_cluster(c.repr()));
    }
    out
}

/// Encodes one command for submission to the consensus log.
pub fn encode_cmd(cmd: &MetadataCmd) -> (r: Vec<u8>)
    ensures
        r@ == enc_cmd(cmd@),
        cmd_ok(cmd@),
{
    let mut out: Vec<u8> = Vec::new();
    match cmd {
        MetadataCmd::CreateTopic { name, initial_leader } => {
            write_u8(&mut out, 1);
            write_str(&mut out, name);
            write_u64(&mut out, *initial_leader);
        },
        MetadataCmd::RolloverTopic { name, new_leader, sealed_segment_entry_count } => {
            write_u8(&mut out, 2);
            write_str(&mut out, name);
            write_u64(&mut out, *new_leader);
            write_u64(&mut out, *sealed_segment_entry_count);
        },
        MetadataCmd::UpsertNode { node_id, addr } => {
            write_u8(&mut out, 3);
            write_u64(&mut out, *node_id);
            write_str(&mut out, addr);
        },
        MetadataCmd::AddUser { user } => {
            write_u8(&mut out, 4);
            write_user(&mut out, user);
        },
        MetadataCmd::RemoveUser { username } => {
            write_u8(&mut out, 5);
            write_str(&mut out, username);
        },
        MetadataCmd::SetRetention { topic, policy } => {
            write_u8(&mut out, 6);
            write_str(&mut out, topic);
            write_policy(&mut out, policy);
        },
        MetadataCmd::DeleteSegments { topic, segment_ids } => {
            write_u8(&mut out, 7);
            write_str(&mut out, topic);
            write_u64(&mut out, segment_ids.len() as u64);
            let ghost base = out@;
            let mut i: usize = 0;
            while i < segment_ids.len()
                invariant
                    i <= segment_ids@.len(),
                    out@ == base + enc_list(segment_ids@.take(i as int), enc_u64_elem_fn()),
                decreases segment_ids@.len() - i,
            {
                write_u64(&mut out, segment_ids[i]);
                proof {
                    lemma_enc_list_push(
                        segment_ids@.take(i as int),
                        enc_u64_elem_fn(),
                        segment_ids@[i as int],
                    );
                    assert(segment_ids@.take(i as int + 1) =~= segment_ids@.take(i as int).push(
                        segment_ids@[i as int],
                    ));
                    assert(out@ =~= base + enc_list(
                        segment_ids@.take(i as int + 1),
                        enc_u64_elem_fn(),
                    ));
                }
                i = i + 1;
            }
            proof {
                assert(segment_ids@.take(segment_ids@.len() as int) =~= segment_ids@);
            }
        },
    }
    proof {
        assert(out@ =~= enc_cmd(cmd@));
    }
    out
}

/// Relies on String::from_utf8: it succeeds exactly on valid UTF-8 input and
/// decodes it, as vstd's UTF-8 model states.
#[verifier::external_body]
fn bytes_to_string(v: Vec<u8>) -> (r: Option<String>)
    ensures
        match r {
            Some(s) => valid_utf8(v@) && s@ == decode_utf8(v@),
            None => !valid_utf8(v@),
        },
{
    String::from_utf8(v).ok()
}

/// Reads an unsigned number from the front of `b`.
pub fn read_u64<'a>(b: &'a [u8]) -> (r: Option<(u64, &'a [u8])>)
    ensures
        match dec_u64(b@) {
            Some(p) => r matches Some(q) && q.0 == p.0 && q.1@ == p.1,
            None => r is None,
        },
{
    if b.len() < 8 {
        None
    } else {
        let head: &[u8] = slice_subrange(b, 0, 8);
        let tail: &[u8] = slice_subrange(b, 8, b.len());
        proof {
            assert(head@ =~= b@.take(8));
            assert(tail@ =~= b@.skip(8));
        }
        let x: u64 = u64_from_le_bytes(head);
        Some((x, tail))
    }
}

/// Reads a tag byte from the front of `b`.
pub fn read_u8<'a>(b: &'a [u8]) -> (r: Option<(u8, &'a [u8])>)
    ensures
        match dec_u8(b@) {
            Some(p) => r matches Some(q) && q.0 == p.0 && q.1@ == p.1,
            None => r is None,
        },
{
    if b.len() < 1 {
        None
    } else {
        let tail: &[u8] = slice_subrange(b, 1, b.len());
        proof {
            assert(tail@ =~= b@.drop_first());
        }
        Some((b[0], tail))
    }
}

/// Reads a length-prefixed string from the front of `b`.
pub fn read_str<'a>(b: &'a [u8]) -> (r: Option<(String, &'a [u8])>)
    ensures
        match dec_str(b@) {
            Some(p) => r matches Some(q) && q.0@ == p.0 && q.1@ == p.1 && str_ok(q.0@),
            None => r is None,
        },
{
    match read_u64(b) {
        None => None,
        Some((n, rest)) => {
            if (rest.len() as u64) < n {
                proof {
                    assert(dec_str(b@) is None);
                }
                None
            } else {
                let nn: usize = n as usize;
                let head: &[u8] = slice_subrange(rest, 0, nn);
                let tail: &[u8] = slice_subrange(rest, nn, rest.len());
                proof {
                    assert(head@ =~= rest@.take(n as int));
                    assert(tail@ =~= rest@.skip(n as int));
                }
                let hv: Vec<u8> = slice_to_vec(head);
                match bytes_to_string(hv) {
                    None => None,
                    Some(s) => {
                        proof {
                            vstd::utf8::decode_utf8_encode_utf8(head@);
                        }
                        Some((s, tail))
                    },
                }
            }
        },
    }
}

/// Reads an optional number.
fn read_opt_u64<'a>(b: &'a [u8]) -> (r: Option<(Option<u64>, &'a [u8])>)
    ensures
        match dec_opt_u64(b@) {
            Some(p) => r matches Some(q) && q.0 == p.0 && q.1@ == p.1,
            None => r is None,
        },
{
    match read_u8(b) {
        None => None,
        Some((tag, rest)) => {
            if tag == 0 {
                Some((None, rest))
            } else if tag == 1 {
                match read_u64(rest) {
                    None => None,
                    Some((x, rest2)) => Some((Some(x), rest2)),
                }
            } else {
                None
            }
        },
    }
}

/// Reads an optional string.
fn read_opt_str<'a>(b: &'a [u8]) -> (r: Option<(Option<String>, &'a [u8])>)
    ensures
        match dec_opt_str(b@) {
            Some(p) => r matches Some(q) && (match q.0 {
                Some(s) => p.0 matches Some(sv) && s@ == sv,
                None => p.0 is None,
            }) && q.1@ == p.1,
            None => r is None,
        },
{
    match read_u8(b) {
        None => None,
        Some((tag, rest)) => {
            if tag == 0 {
                Some((None, rest))
            } else if tag == 1 {
                match read_str(rest) {
                    None => None,
                    Some((s, rest2)) => Some((Some(s), rest2)),
                }
            } else {
                None
            }
        },
    }
}

/// Reads a retention policy.
fn read_policy<'a>(b: &'a [u8]) -> (r: Option<(RetentionPolicy, &'a [u8])>)
    ensures
        match dec_policy(b@) {
            Some(p) => r matches Some(q) && q.0 == p.0 && q.1@ == p.1,
            None => r is None,
        },
{
    match read_opt_u64(b) {
        None => None,
        Some((age, r1)) => match read_opt_u64(r1) {
            None => None,
            Some((segs, r2)) => match read_u64(r2) {
                None => None,
                Some((min, r3)) => Some(
                    (
                        RetentionPolicy {
                            max_age_hours: age,
                            max_segments: segs,
                            min_segments_to_keep: min,
                        },
                        r3,
                    ),
                ),
            },
        },
    }
}

/// Reads one table entry.
fn read_pair<'a>(b: &'a [u8]) -> (r: Option<((u64, u64), &'a [u8])>)
    ensures
        match dec_pair(b@) {
            Some(p) => r matches Some(q) && q.0 == p.0 && q.1@ == p.1,
            None => r is None,
        },
{
    match read_u64(b) {
        None => None,
        Some((k, r1)) => match read_u64(r1) {
            None => None,
            Some((v, r2)) => Some(((k, v), r2)),
        },
    }
}

/// Reads `n` table entries.
fn read_pair_list<'a>(b: &'a [u8], n: u64) -> (r: Option<(Vec<(u64, u64)>, &'a [u8])>)
    ensures
        match dec_list(b@, n as nat, dec_pair_fn()) {
            Some(p) => r matches Some(q) && q.0@ == p.0 && q.1@ == p.1,
            None => r is None,
        },
    decreases n,
{
    if n == 0 {
        let v: Vec<(u64, u64)> = Vec::new();
        proof {
            assert(v@ =~= Seq::<(u64, u64)>::empty());
        }
        Some((v, b))
    } else {
        match read_pair(b) {
            None => None,
            Some((x, rest)) => match read_pair_list(rest, n - 1) {
                None => None,
                Some((v, rest2)) => {
                    let mut v2 = v;
                    v2.insert(0, x);
                    proof {
                        assert(v2@ =~= seq![x] + v@);
                    }
                    Some((v2, rest2))
                },
            },
        }
    }
}

/// Whether every key in the table is distinct.
fn check_pairs_unique(v: &Vec<(u64, u64)>) -> (r: bool)
    ensures
        r == assoc_unique(v@),
{
    let mut i: usize = 0;
    while i < v.len()
        invariant
            i <= v@.len(),
            forall|a: int, b: int|
                0 <= a < b < v@.len() && a < i ==> (#[trigger] v@[a]).0 != (#[trigger] v@[b]).0,
        decreases v@.len() - i,
    {
        let mut j: usize = i + 1;
        while j < v.len()
            invariant
                i < v@.len(),
                i + 1 <= j <= v@.len(),
                forall|b: int| i < b < j ==> (#[trigger] v@[b]).0 != v@[i as int].0,
            decreases v@.len() - j,
        {
            if v[j].0 == v[i].0 {
                proof {
                    assert(!assoc_unique(v@));
                }
                return false;
            }
            j = j + 1;
        }
        i = i + 1;
    }
    true
}

/// Reads an id/number table into a map with unique keys.
fn read_pairs<'a>(b: &'a [u8]) -> (r: Option<(SegMap, &'a [u8])>)
    ensures
        match dec_pairs(b@) {
            Some(p) => r matches Some(q) && q.0.entries@ == p.0 && q.0.wf() && q.1@ == p.1,
            None => r is None,
        },
{
    match read_u64(b) {
        None => None,
        Some((n, rest)) => match read_pair_list(rest, n) {
            None => None,
            Some((v, rest2)) => {
                if check_pairs_unique(&v) {
                    Some((SegMap { entries: v }, rest2))
                } else {
                    None
                }
            },
        },
    }
}

/// Reads a topic's bookkeeping.
fn read_topic<'a>(b: &'a [u8]) -> (r: Option<(TopicState, &'a [u8])>)
    ensures
        match dec_topic(b@) {
            Some(p) => r matches Some(q) && q.0.repr() == p.0 && q.0.wf() && q.1@ == p.1,
            None => r is None,
        },
{
    match read_u64(b) {
        None => None,
        Some((cs, r1)) => match read_u64(r1) {
            None => None,
            Some((leader, r2)) => match read_u64(r2) {
                None => None,
                Some((off, r3)) => match read_policy(r3) {
                    None => None,
                    Some((pol, r4)) => match read_pairs(r4) {
                        None => None,
                        Some((sealed, r5)) => match read_pairs(r5) {
                            None => None,
                            Some((leaders, r6)) => match read_pairs(r6) {
                                None => None,
                                Some((created, r7)) => Some(
                                    (
                                        TopicState {
                                            current_segment: cs,
                                            leader_node: leader,
                                            last_sealed_entry_offset: off,
                                            sealed_segments: sealed,
                                            segment_leaders: leaders,
                                            retention: pol,
                                            segment_created_at: created,
                                        },
                                        r7,
                                    ),
                                ),
                            },
                        },
                    },
                },
            },
        },
    }
}

/// Reads a user.
fn read_user<'a>(b: &'a [u8]) -> (r: Option<(User, &'a [u8])>)
    ensures
        match dec_user(b@) {
            Some(p) => r matches Some(q) && q.0@ == p.0 && q.1@ == p.1,
            None => r is None,
        },
{
    match read_str(b) {
        None => None,
        Some((name, r1)) => match read_str(r1) {
            None => None,
            Some((pass, r2)) => match read_opt_str(r2) {
                None => None,
                Some((key, r3)) => Some(
                    (User { username: name, password: pass, api_key: key }, r3),
                ),
            },
        },
    }
}

/// Reads `n` named topic entries.
fn read_topic_list<'a>(b: &'a [u8], n: u64) -> (r: Option<(Vec<(String, TopicState)>, &'a [u8])>)
    ensures
        match dec_list(b@, n as nat, dec_topic_entry_fn()) {
            Some(p) => r matches Some(q) && q.0@.map(
                |i: int, e: (String, TopicState)| (e.0@, e.1.repr()),
            ) == p.0 && (forall|i: int| 0 <= i < q.0@.len() ==> (#[trigger] q.0@[i]).1.wf())
                && q.1@ == p.1,
            None => r is None,
        },
    decreases n,
{
    if n == 0 {
        let v: Vec<(String, TopicState)> = Vec::new();
        proof {
            assert(v@.map(|i: int, e: (String, TopicState)| (e.0@, e.1.repr())) =~= Seq::<
                (Seq<char>, TopicR),
            >::empty());
        }
        Some((v, b))
    } else {
        match read_str(b) {
            None => None,
            Some((name, r1)) => match read_topic(r1) {
                None => None,
                Some((t, r2)) => match read_topic_list(r2, n - 1) {
                    None => None,
                    Some((v, r3)) => {
                        let mut v2 = v;
                        v2.insert(0, (name, t));
                        proof {
                            assert(v2@.map(
                                |i: int, e: (String, TopicState)| (e.0@, e.1.repr()),
                            ) =~= seq![(name@, t.repr())] + v@.map(
                                |i: int, e: (String, TopicState)| (e.0@, e.1.repr()),
                            ));
                        }
                        Some((v2, r3))
                    },
                },
            },
        }
    }
}

/// Reads `n` node directory entries.
fn read_node_list<'a>(b: &'a [u8], n: u64) -> (r: Option<(Vec<(u64, String)>, &'a [u8])>)
    ensures
        match dec_list(b@, n as nat, dec_node_entry_fn()) {
            Some(p) => r matches Some(q) && q.0@.map(|i: int, e: (u64, String)| (e.0, e.1@))
                == p.0 && q.1@ == p.1,
            None => r is None,
        },
    decreases n,
{
    if n == 0 {
        let v: Vec<(u64, String)> = Vec::new();
        proof {
            assert(v@.map(|i: int, e: (u64, String)| (e.0, e.1@)) =~= Seq::<
                (u64, Seq<char>),
            >::empty());
        }
        Some((v, b))
    } else {
        match read_u64(b) {
            None => None,
            Some((id, r1)) => match read_str(r1) {
                None => None,
                Some((addr, r2)) => match read_node_list(r2, n - 1) {
                    None => None,
                    Some((v, r3)) => {
                        let mut v2 = v;
                        v2.insert(0, (id, addr));
                        proof {
                            assert(v2@.map(|i: int, e: (u64, String)| (e.0, e.1@)) =~= seq![
                                (id, v2@[0].1@),
                            ] + v@.map(|i: int, e: (u64, String)| (e.0, e.1@)));
                        }
                        Some((v2, r3))
                    },
                },
            },
        }
    }
}

/// Reads `n` users.
fn read_user_list<'a>(b: &'a [u8], n: u64) -> (r: Option<(Vec<User>, &'a [u8])>)
    ensures
        match dec_list(b@, n as nat, dec_user_fn()) {
            Some(p) => r matches Some(q) && q.0@.map(|i: int, u: User| u@) == p.0 && q.1@ == p.1,
            None => r is None,
        },
    decreases n,
{
    if n == 0 {
        let v: Vec<User> = Vec::new();
        proof {
            assert(v@.map(|i: int, u: User| u@) =~= Seq::<UserV>::empty());
        }
        Some((v, b))
    } else {
        match read_user(b) {
            None => None,
            Some((u, r1)) => match read_user_list(r1, n - 1) {
                None => None,
                Some((v, r2)) => {
                    let mut v2 = v;
                    v2.insert(0, u);
                    proof {
                        assert(v2@.map(|i: int, u2: User| u2@) =~= seq![v2@[0]@] + v@.map(
                            |i: int, u2: User| u2@,
                        ));
                    }
                    Some((v2, r2))
                },
            },
        }
    }
}

/// Reads `n` ids.
fn read_u64_list<'a>(b: &'a [u8], n: u64) -> (r: Option<(Vec<u64>, &'a [u8])>)
    ensures
        match dec_list(b@, n as nat, dec_u64_elem_fn()) {
            Some(p) => r matches Some(q) && q.0@ == p.0 && q.1@ == p.1,
            None => r is None,
        },
    decreases n,
{
    if n == 0 {
        let v: Vec<u64> = Vec::new();
        proof {
            assert(v@ =~= Seq::<u64>::empty());
        }
        Some((v, b))
    } else {
        match read_u64(b) {
            None => None,
            Some((x, r1)) => match read_u64_list(r1, n - 1) {
                None => None,
                Some((v, r2)) => {
                    let mut v2 = v;
                    v2.insert(0, x);
                    proof {
                        assert(v2@ =~= seq![x] + v@);
                    }
                    Some((v2, r2))
                },
            },
        }
    }
}

/// Whether every topic name in the decoded table is distinct.
fn check_topics_unique(v: &Vec<(String, TopicState)>) -> (r: bool)
    ensures
        r == assoc_unique(v@.map(|i: int, e: (String, TopicState)| (e.0@, e.1.repr()))),
{
    let ghost m = v@.map(|i: int, e: (String, TopicState)| (e.0@, e.1.repr()));
    let mut i: usize = 0;
    while i < v.len()
        invariant
            i <= v@.len(),
            m == v@.map(|i2: int, e: (String, TopicState)| (e.0@, e.1.repr())),
            m.len() == v@.len(),
            forall|a: int, b: int|
                0 <= a < b < m.len() && a < i ==> (#[trigger] m[a]).0 != (#[trigger] m[b]).0,
        decreases v@.len() - i,
    {
        let mut j: usize = i + 1;
        while j < v.len()
            invariant
                i < v@.len(),
                i + 1 <= j <= v@.len(),
                m == v@.map(|i2: int, e: (String, TopicState)| (e.0@, e.1.repr())),
                m.len() == v@.len(),
                forall|b: int| i < b < j ==> (#[trigger] m[b]).0 != m[i as int].0,
            decreases v@.len() - j,
        {
            if v[j].0 == v[i].0 {
                proof {
                    assert(m[j as int].0 == m[i as int].0);
                    assert(!assoc_unique(m));
                }
                return false;
            }
            j = j + 1;
        }
        i = i + 1;
    }
    true
}

/// Whether every node id in the decoded directory is distinct.
fn check_nodes_unique(v: &Vec<(u64, String)>) -> (r: bool)
    ensures
        r == assoc_unique(v@.map(|i: int, e: (u64, String)| (e.0, e.1@))),
{
    let ghost m = v@.map(|i: int, e: (u64, String)| (e.0, e.1@));
    let mut i: usize = 0;
    while i < v.len()
        invariant
            i <= v@.len(),
            m == v@.map(|i2: int, e: (u64, String)| (e.0, e.1@)),
            m.len() == v@.len(),
            forall|a: int, b: int|
                0 <= a < b < m.len() && a < i ==> (#[trigger] m[a]).0 != (#[trigger] m[b]).0,
        decreases v@.len() - i,
    {
        let mut j: usize = i + 1;
        while j < v.len()
            invariant
                i < v@.len(),
                i + 1 <= j <= v@.len(),
                m == v@.map(|i2: int, e: (u64, String)| (e.0, e.1@)),
                m.len() == v@.len(),
                forall|b: int| i < b < j ==> (#[trigger] m[b]).0 != m[i as int].0,
            decreases v@.len() - j,
        {
            if v[j].0 == v[i].0 {
                proof {
                    assert(m[j as int].0 == m[i as int].0);
                    assert(!assoc_unique(m));
                }
                return false;
            }
            j = j + 1;
        }
        i = i + 1;
    }
    true
}

/// Whether every username in the decoded directory is distinct.
fn check_users_unique(v: &Vec<User>) -> (r: bool)
    ensures
        r == assoc_unique(
            v@.map(|i: int, u: User| u@).map(|i: int, u: UserV| (u.username, u)),
        ),
{
    let ghost m = v@.map(|i: int, u: User| u@).map(|i: int, u: UserV| (u.username, u));
    proof {
        assert(m.len() == v@.len());
        assert(forall|a: int| 0 <= a < v@.len() ==> (#[trigger] m[a]).0 == v@[a].username@);
    }
    let mut i: usize = 0;
    while i < v.len()
        invariant
            i <= v@.len(),
            m == v@.map(|i2: int, u: User| u@).map(|i2: int, u: UserV| (u.username, u)),
            m.len() == v@.len(),
            forall|a: int| 0 <= a < v@.len() ==> (#[trigger] m[a]).0 == v@[a].username@,
            forall|a: int, b: int|
                0 <= a < b < m.len() && a < i ==> (#[trigger] m[a]).0 != (#[trigger] m[b]).0,
        decreases v@.len() - i,
    {
        let mut j: usize = i + 1;
        while j < v.len()
            invariant
                i < v@.len(),
                i + 1 <= j <= v@.len(),
                m == v@.map(|i2: int, u: User| u@).map(|i2: int, u: UserV| (u.username, u)),
                m.len() == v@.len(),
                forall|a: int| 0 <= a < v@.len() ==> (#[trigger] m[a]).0 == v@[a].username@,
                forall|b: int| i < b < j ==> (#[trigger] m[b]).0 != m[i as int].0,
            decreases v@.len() - j,
        {
            if v[j].username == v[i].username {
                proof {
                    assert(m[j as int].0 == m[i as int].0);
                    assert(!assoc_unique(m));
                }
                return false;
            }
            j = j + 1;
        }
        i = i + 1;
    }
    true
}

/// Reads a whole document; yields one satisfying the document invariant.
pub fn decode_cluster_state<'a>(b: &'a [u8]) -> (r: Option<(ClusterState, &'a [u8])>)
    ensures
        match dec_cluster(b@) {
            Some(p) => r matches Some(q) && q.0.repr() == p.0 && q.0.inv() && q.1@ == p.1,
            None => r is None,
        },
{
    match read_u64(b) {
        None => None,
        Some((nt, r1)) => match read_topic_list(r1, nt) {
            None => None,
            Some((topics, r2)) => match read_u64(r2) {
                None => None,
                Some((nn, r3)) => match read_node_list(r3, nn) {
                    None => None,
                    Some((nodes, r4)) => match read_u64(r4) {
                        None => None,
                        Some((nu, r5)) => match read_user_list(r5, nu) {
                            None => None,
                            Some((users, r6)) => {
                                if check_topics_unique(&topics) && check_nodes_unique(&nodes)
                                    && check_users_unique(&users) {
                                    let c = ClusterState {
                                        topics: TopicTable { entries: topics },
                                        nodes: NodeTable { entries: nodes },
                                        auth: UserTable { users },
                                    };
                                    proof {
                                        lemma_decoded_cluster_wf(&c);
                                    }
                                    Some((c, r6))
                                } else {
                                    None
                                }
                            },
                        },
                    },
                },
            },
        },
    }
}

/// A decoded document whose key sets check out satisfies the invariant: the
/// name-uniqueness of the tables carries from the codec's form to the
/// tables' own form.
proof fn lemma_decoded_cluster_wf(c: &ClusterState)
    requires
        assoc_unique(c.repr().topics),
        assoc_unique(c.repr().nodes),
        assoc_unique(c.repr().users.map(|i: int, u: UserV| (u.username, u))),
        forall|i: int| 0 <= i < c.topics.entries@.len() ==> (#[trigger] c.topics.entries@[i]).1.wf(),
    ensures
        c.inv(),
{
    let rv = c.topics.repr_v();
    let rr = c.repr().topics;
    assert(forall|i: int| 0 <= i < rv.len() ==> (#[trigger] rv[i]).0 == rr[i].0);
    assert(forall|i: int, j: int|
        0 <= i < j < rv.len() ==> (#[trigger] rv[i]).0 != (#[trigger] rv[j]).0);
    let ur = c.auth.repr();
    let uk = c.repr().users.map(|i: int, u: UserV| (u.username, u));
    assert(forall|i: int| 0 <= i < ur.len() ==> (#[trigger] ur[i]).0 == uk[i].0);
    assert(forall|i: int, j: int|
        0 <= i < j < ur.len() ==> (#[trigger] ur[i]).0 != (#[trigger] ur[j]).0);
}

/// Reads a command.
pub fn decode_cmd<'a>(b: &'a [u8]) -> (r: Option<(MetadataCmd, &'a [u8])>)
    ensures
        match dec_cmd(b@) {
            Some(p) => r matches Some(q) && q.0@ == p.0 && q.1@ == p.1,
            None => r is None,
        },
{
    match read_u8(b) {
        None => None,
        Some((tag, rest)) => {
            if tag == 1 {
                match read_str(rest) {
                    None => None,
                    Some((name, r1)) => match read_u64(r1) {
                        None => None,
                        Some((leader, r2)) => Some(
                            (MetadataCmd::CreateTopic { name, initial_leader: leader }, r2),
                        ),
                    },
                }
            } else if tag == 2 {
                match read_str(rest) {
                    None => None,
                    Some((name, r1)) => match read_u64(r1) {
                        None => None,
                        Some((nl, r2)) => match read_u64(r2) {
                            None => None,
                            Some((cnt, r3)) => Some(
                                (
                                    MetadataCmd::RolloverTopic {
                                        name,
                                        new_leader: nl,
                                        sealed_segment_entry_count: cnt,
                                    },
                                    r3,
                                ),
                            ),
                        },
                    },
                }
            } else if tag == 3 {
                match read_u64(rest) {
                    None => None,
                    Some((id, r1)) => match read_str(r1) {
                        None => None,
                        Some((addr, r2)) => Some(
                            (MetadataCmd::UpsertNode { node_id: id, addr }, r2),
                        ),
                    },
                }
            } else if tag == 4 {
                match read_user(rest) {
                    None => None,
                    Some((user, r1)) => Some((MetadataCmd::AddUser { user }, r1)),
                }
            } else if tag == 5 {
                match read_str(rest) {
                    None => None,
                    Some((username, r1)) => Some((MetadataCmd::RemoveUser { username }, r1)),
                }
            } else if tag == 6 {
                match read_str(rest) {
                    None => None,
                    Some((topic, r1)) => match read_policy(r1) {
                        None => None,
                        Some((policy, r2)) => Some(
                            (MetadataCmd::SetRetention { topic, policy }, r2),
                        ),
                    },
                }
            } else if tag == 7 {
                match read_str(rest) {
                    None => None,
                    Some((topic, r1)) => match read_u64(r1) {
                        None => None,
                        Some((n, r2)) => match read_u64_list(r2, n) {
                            None => None,
                            Some((ids, r3)) => Some(
                                (MetadataCmd::DeleteSegments { topic, segment_ids: ids }, r3),
                            ),
                        },
                    },
                }
            } else {
                None
            }
        },
    }
}

} // verus!
