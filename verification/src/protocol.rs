//! The client wire protocol: length-prefixed frames holding one-line
//! commands, and the decision of what each command line means — including
//! the authentication gate — separated from the I/O that carries it.

use vstd::prelude::*;

verus! {

use vstd::bytes::spec_u32_from_le_bytes;
use vstd::bytes::spec_u32_to_le_bytes;
use vstd::bytes::u32_from_le_bytes;
use vstd::bytes::u32_to_le_bytes;
use vstd::utf8::encode_utf8;

/// The largest frame a peer may send or receive: 4 MiB.
pub const MAX_FRAME_LEN: u32 = 4 * 1024 * 1024;

/// Whether a request frame length is acceptable: nonzero, at most 4 MiB.
pub fn frame_len_ok(len: u32) -> (r: bool)
    ensures
        r == (1 <= len <= MAX_FRAME_LEN),
{
    1 <= len && len <= MAX_FRAME_LEN
}

/// The frame length announced by a 4-byte little-endian prefix.
pub fn frame_len_from_prefix(b: &[u8]) -> (r: u32)
    requires
        b@.len() == 4,
    ensures
        r == spec_u32_from_le_bytes(b@),
{
    u32_from_le_bytes(b)
}

/// A message as it goes on the wire: its UTF-8 byte length as a 4-byte
/// little-endian prefix, then those bytes.
pub open spec fn spec_frame(bytes: Seq<u8>) -> Seq<u8> {
    spec_u32_to_le_bytes(bytes.len() as u32) + bytes
}

/// Frames one message for the wire; refuses one whose bytes outrun the
/// 4-byte length prefix.
pub fn frame_message(msg: &str) -> (r: Option<Vec<u8>>)
    ensures
        match r {
            Some(v) => encode_utf8(msg@).len() <= u32::MAX && v@ == spec_frame(encode_utf8(msg@)),
            None => encode_utf8(msg@).len() > u32::MAX,
        },
{
    let bytes: Vec<u8> = msg.as_bytes_vec();
    if bytes.len() > (u32::MAX as usize) {
        return None;
    }
    let mut out: Vec<u8> = u32_to_le_bytes(bytes.len() as u32);
    let mut b = bytes;
    out.append(&mut b);
    proof {
        assert(out@ =~= spec_frame(encode_utf8(msg@)));
    }
    Some(out)
}

/// The index of the first space in `s`, or its length if there is none.
pub open spec fn space_index(s: Seq<char>) -> int
    decreases s.len(),
{
    if s.len() == 0 {
        0
    } else if s[0] == ' ' {
        0
    } else {
        1 + space_index(s.drop_first())
    }
}

/// The first space splits a line in two: the part before it, and what
/// follows it, absent when there is no space.
pub open spec fn split2(s: Seq<char>) -> (Seq<char>, Option<Seq<char>>) {
    let i = space_index(s);
    if i == s.len() {
        (s, None)
    } else {
        (s.take(i), Some(s.skip(i + 1)))
    }
}

/// The first space never lies outside the line, and splits it as said.
pub proof fn lemma_space_index(s: Seq<char>)
    ensures
        0 <= space_index(s) <= s.len(),
        forall|j: int| 0 <= j < space_index(s) ==> s[j] != ' ',
        space_index(s) < s.len() ==> s[space_index(s)] == ' ',
    decreases s.len(),
{
    if s.len() > 0 && s[0] != ' ' {
        lemma_space_index(s.drop_first());
        assert(forall|j: int| 0 <= j < s.drop_first().len() ==> s.drop_first()[j] == s[j + 1]);
        assert forall|j: int| 0 <= j < space_index(s) implies s[j] != ' ' by {
            if j > 0 {
                assert(s.drop_first()[j - 1] == s[j]);
                assert(j - 1 < space_index(s.drop_first()));
            }
        }
    }
}

/// Splits a line at its first space.
fn split_first<'a>(s: &'a str) -> (r: (String, Option<String>))
    ensures
        ({
            let (head, tail) = split2(s@);
            r.0@ == head && (match r.1 {
                Some(t) => tail matches Some(tv) && t@ == tv,
                None => tail is None,
            })
        }),
{
    proof {
        lemma_space_index(s@);
    }
    let n: usize = s.unicode_len();
    let mut i: usize = 0;
    while i < n
        invariant
            n == s@.len(),
            i <= n,
            forall|j: int| 0 <= j < i ==> s@[j] != ' ',
        decreases n - i,
    {
        if s.get_char(i) == ' ' {
            proof {
                assert(space_index(s@) == i) by {
                    lemma_space_index_pin(s@, i as int);
                }
            }
            let head: String = s.substring_char(0, i).to_owned();
            let tail: String = s.substring_char(i + 1, n).to_owned();
            proof {
                assert(head@ =~= s@.take(i as int));
                assert(tail@ =~= s@.skip(i as int + 1));
            }
            return (head, Some(tail));
        }
        i = i + 1;
    }
    proof {
        assert(space_index(s@) == s@.len()) by {
            lemma_space_index_pin(s@, s@.len() as int);
        }
    }
    let head: String = s.substring_char(0, n).to_owned();
    proof {
        assert(head@ =~= s@);
    }
    (head, None)
}

/// A position with spaces nowhere before it, and one at it or the line's
/// end, is the first space.
proof fn lemma_space_index_pin(s: Seq<char>, i: int)
    requires
        0 <= i <= s.len(),
        forall|j: int| 0 <= j < i ==> s[j] != ' ',
        i < s.len() ==> s[i] == ' ',
    ensures
        space_index(s) == i,
    decreases s.len(),
{
    if s.len() > 0 && s[0] != ' ' {
        assert(forall|j: int| 0 <= j < s.drop_first().len() ==> s.drop_first()[j] == s[j + 1]);
        lemma_space_index_pin(s.drop_first(), i - 1);
    }
}

/// What the connection handler is to do with one command line.
#[derive(Debug)]
pub enum Action {
    /// Make sure the topic exists.
    EnsureTopic { topic: String },
    /// Append the payload's bytes to the topic.
    Append { topic: String, payload: String },
    /// Read one record from the topic's shared cursor.
    ReadOne { topic: String },
    /// Dump the topic's storage state.
    TopicState { topic: String },
    /// Report storage metrics.
    Metrics,
}

/// An action as the specifications see it.
pub ghost enum ActionV {
    EnsureTopic { topic: Seq<char> },
    Append { topic: Seq<char>, payload: Seq<char> },
    ReadOne { topic: Seq<char> },
    TopicState { topic: Seq<char> },
    Metrics,
}

impl View for Action {
    type V = ActionV;

    open spec fn view(&self) -> ActionV {
        match self {
            Action::EnsureTopic { topic } => ActionV::EnsureTopic { topic: topic@ },
            Action::Append { topic, payload } => ActionV::Append {
                topic: topic@,
                payload: payload@,
            },
            Action::ReadOne { topic } => ActionV::ReadOne { topic: topic@ },
            Action::TopicState { topic } => ActionV::TopicState { topic: topic@ },
            Action::Metrics => ActionV::Metrics,
        }
    }
}

/// What one command line yields: either a finished reply, or an action for
/// the storage layer. `authenticated` carries the connection's new state.
#[derive(Debug)]
pub enum Decision {
    Reply { response: String, authenticated: bool },
    Act { action: Action, authenticated: bool },
}

/// A decision as the specifications see it.
pub ghost enum DecisionV {
    Reply { response: Seq<char>, authenticated: bool },
    Act { action: ActionV, authenticated: bool },
}

impl View for Decision {
    type V = DecisionV;

    open spec fn view(&self) -> DecisionV {
        match self {
            Decision::Reply { response, authenticated } => DecisionV::Reply {
                response: response@,
                authenticated: *authenticated,
            },
            Decision::Act { action, authenticated } => DecisionV::Act {
                action: action@,
                authenticated: *authenticated,
            },
        }
    }
}

/// The whole decision a command line gets, given whether an API key is
/// configured and whether this connection has authenticated: AUTH is
/// answered first, every other command is refused until authentication
/// where a key is configured, then the line is parsed into its action or
/// its error.
pub open spec fn spec_handle(line: Seq<char>, api_key: Option<Seq<char>>, authed: bool)
    -> DecisionV {
    let (op, rest) = split2(line);
    if op == "AUTH"@ {
        let provided = match rest {
            Some(r) => split2(r).0,
            None => Seq::<char>::empty(),
        };
        match api_key {
            Some(k) => if provided == k {
                DecisionV::Reply { response: "OK"@, authenticated: true }
            } else {
                DecisionV::Reply { response: "ERR invalid API key"@, authenticated: authed }
            },
            None => DecisionV::Reply { response: "OK"@, authenticated: true },
        }
    } else if api_key is Some && !authed {
        DecisionV::Reply {
            response: "ERR authentication required: send AUTH <api_key> first"@,
            authenticated: authed,
        }
    } else if op == "REGISTER"@ {
        match rest {
            None => DecisionV::Reply {
                response: "ERR REGISTER requires a topic"@,
                authenticated: authed,
            },
            Some(r) => DecisionV::Act {
                action: ActionV::EnsureTopic { topic: split2(r).0 },
                authenticated: authed,
            },
        }
    } else if op == "PUT"@ {
        match rest {
            None => DecisionV::Reply {
                response: "ERR PUT requires a topic"@,
                authenticated: authed,
            },
            Some(r) => {
                let (topic, payload) = split2(r);
                match payload {
                    None => DecisionV::Reply {
                        response: "ERR PUT requires a payload"@,
                        authenticated: authed,
                    },
                    Some(p) => DecisionV::Act {
                        action: ActionV::Append { topic, payload: p },
                        authenticated: authed,
                    },
                }
            },
        }
    } else if op == "GET"@ {
        match rest {
            None => DecisionV::Reply {
                response: "ERR GET requires a topic"@,
                authenticated: authed,
            },
            Some(r) => DecisionV::Act {
                action: ActionV::ReadOne { topic: split2(r).0 },
                authenticated: authed,
            },
        }
    } else if op == "STATE"@ {
        match rest {
            None => DecisionV::Reply {
                response: "ERR STATE requires a topic"@,
                authenticated: authed,
            },
            Some(r) => DecisionV::Act {
                action: ActionV::TopicState { topic: split2(r).0 },
                authenticated: authed,
            },
        }
    } else if op == "METRICS"@ {
        DecisionV::Act { action: ActionV::Metrics, authenticated: authed }
    } else {
        DecisionV::Reply { response: "ERR unknown command"@, authenticated: authed }
    }
}

/// Decides one command line: exactly what `spec_handle` says.
pub fn handle_command(line: &str, api_key: Option<&String>, authenticated: bool) -> (r: Decision)
    ensures
        r@ == spec_handle(line@, match api_key {
            Some(k) => Some(k@),
            None => None,
        }, authenticated),
{
    let (op, rest) = split_first(line);
    if op == "AUTH".to_owned() {
        let provided: String = match &rest {
            Some(r) => split_first(r.as_str()).0,
            None => String::new(),
        };
        match api_key {
            Some(k) => {
                if provided == *k {
                    Decision::Reply { response: "OK".to_owned(), authenticated: true }
                } else {
                    Decision::Reply { response: "ERR invalid API key".to_owned(), authenticated }
                }
            },
            None => Decision::Reply { response: "OK".to_owned(), authenticated: true },
        }
    } else if api_key.is_some() && !authenticated {
        Decision::Reply {
            response: "ERR authentication required: send AUTH <api_key> first".to_owned(),
            authenticated,
        }
    } else if op == "REGISTER".to_owned() {
        match rest {
            None => Decision::Reply {
                response: "ERR REGISTER requires a topic".to_owned(),
                authenticated,
            },
            Some(r) => {
                let (topic, _extra) = split_first(r.as_str());
                Decision::Act { action: Action::EnsureTopic { topic }, authenticated }
            },
        }
    } else if op == "PUT".to_owned() {
        match rest {
            None => Decision::Reply {
                response: "ERR PUT requires a topic".to_owned(),
                authenticated,
            },
            Some(r) => {
                let (topic, payload) = split_first(r.as_str());
                match payload {
                    None => Decision::Reply {
                        response: "ERR PUT requires a payload".to_owned(),
                        authenticated,
                    },
                    Some(p) => Decision::Act {
                        action: Action::Append { topic, payload: p },
                        authenticated,
                    },
                }
            },
        }
    } else if op == "GET".to_owned() {
        match rest {
            None => Decision::Reply {
                response: "ERR GET requires a topic".to_owned(),
                authenticated,
            },
            Some(r) => {
                let (topic, _extra) = split_first(r.as_str());
                Decision::Act { action: Action::ReadOne { topic }, authenticated }
            },
        }
    } else if op == "STATE".to_owned() {
        match rest {
            None => Decision::Reply {
                response: "ERR STATE requires a topic".to_owned(),
                authenticated,
            },
            Some(r) => {
                let (topic, _extra) = split_first(r.as_str());
                Decision::Act { action: Action::TopicState { topic }, authenticated }
            },
        }
    } else if op == "METRICS".to_owned() {
        Decision::Act { action: Action::Metrics, authenticated }
    } else {
        Decision::Reply { response: "ERR unknown command".to_owned(), authenticated }
    }
}

/// The reply for a read: the record under an OK marker, or EMPTY.
pub fn get_response(payload: Option<String>) -> (r: String)
    ensures
        match payload {
            Some(p) => r@ == "OK "@ + p@,
            None => r@ == "EMPTY"@,
        },
{
    match payload {
        Some(p) => {
            let mut r: String = "OK ".to_owned();
            r.append(p.as_str());
            r
        },
        None => "EMPTY".to_owned(),
    }
}

/// Whether the character is line-end whitespace.
fn is_space_char(c: char) -> (r: bool)
    ensures
        r == is_line_space(c),
{
    c == ' ' || c == '\t' || c == '\r' || c == '\n'
}

/// Whether `s` is exactly the ASCII whitespace to strip from a line's end.
pub open spec fn is_line_space(c: char) -> bool {
    c == ' ' || c == '\t' || c == '\r' || c == '\n'
}

/// The line without whatever trailing ASCII whitespace it carried.
pub open spec fn spec_trim_end(s: Seq<char>) -> Seq<char>
    decreases s.len(),
{
    if s.len() == 0 {
        s
    } else if is_line_space(s.last()) {
        spec_trim_end(s.drop_last())
    } else {
        s
    }
}

/// Strips trailing ASCII whitespace from a command line.
pub fn trim_line_end(s: &str) -> (r: String)
    ensures
        r@ == spec_trim_end(s@),
{
    let n: usize = s.unicode_len();
    let mut end: usize = n;
    proof {
        assert(s@.take(n as int) =~= s@);
    }
    while end > 0 && is_space_char(s.get_char(end - 1))
        invariant
            n == s@.len(),
            end <= n,
            spec_trim_end(s@) == spec_trim_end(s@.take(end as int)),
        decreases end,
    {
        proof {
            assert(s@.take(end as int).drop_last() =~= s@.take(end as int - 1));
            assert(s@.take(end as int).last() == s@[end - 1]);
        }
        end = end - 1;
    }
    let r: String = s.substring_char(0, end).to_owned();
    proof {
        if end > 0 {
            assert(!is_line_space(s@.take(end as int).last()));
        }
        assert(spec_trim_end(s@.take(end as int)) == s@.take(end as int));
        assert(r@ =~= s@.take(end as int));
    }
    r
}

} // verus!
