//! The command-line client's verified core: the target it talks to, the
//! request lines it sends, and how it reads the one-line responses. The
//! socket work around these lives outside the library.

use vstd::prelude::*;

verus! {

/// A client of one node's listener: where to connect, and the API key to
/// present first, if any.
#[derive(Debug, Clone)]
pub struct CliClient {
    pub addr: String,
    pub api_key: Option<String>,
}

impl CliClient {
    /// A client without an API key.
    pub fn new(addr: String) -> (r: Self)
        ensures
            r.addr@ == addr@,
            r.api_key is None,
    {
        CliClient { addr, api_key: None }
    }

    /// A client that authenticates with `api_key` before each command.
    pub fn with_api_key(addr: String, api_key: String) -> (r: Self)
        ensures
            r.addr@ == addr@,
            r.api_key matches Some(k) && k@ == api_key@,
    {
        CliClient { addr, api_key: Some(api_key) }
    }
}

/// The line registering a topic.
pub fn register_line(topic: &str) -> (r: String)
    ensures
        r@ == "REGISTER "@ + topic@,
{
    let mut r: String = "REGISTER ".to_owned();
    r.append(topic);
    r
}

/// The line appending `data` to a topic.
pub fn put_line(topic: &str, data: &str) -> (r: String)
    ensures
        r@ == "PUT "@ + topic@ + " "@ + data@,
{
    let mut r: String = "PUT ".to_owned();
    r.append(topic);
    r.append(" ");
    r.append(data);
    r
}

/// The line reading one record from a topic.
pub fn get_line(topic: &str) -> (r: String)
    ensures
        r@ == "GET "@ + topic@,
{
    let mut r: String = "GET ".to_owned();
    r.append(topic);
    r
}

/// The line dumping a topic's state.
pub fn state_line(topic: &str) -> (r: String)
    ensures
        r@ == "STATE "@ + topic@,
{
    let mut r: String = "STATE ".to_owned();
    r.append(topic);
    r
}

/// The line authenticating with an API key.
pub fn auth_line(api_key: &str) -> (r: String)
    ensures
        r@ == "AUTH "@ + api_key@,
{
    let mut r: String = "AUTH ".to_owned();
    r.append(api_key);
    r
}

/// Whether `p` is a prefix of `s`.
pub open spec fn is_prefix(p: Seq<char>, s: Seq<char>) -> bool {
    p.len() <= s.len() && s.take(p.len() as int) == p
}

/// Strips `p` off the front of `s` when it starts with it.
fn strip_prefix_str(s: &str, p: &str) -> (r: Option<String>)
    ensures
        match r {
            Some(rest) => is_prefix(p@, s@) && rest@ == s@.skip(p@.len() as int),
            None => !is_prefix(p@, s@),
        },
{
    let np: usize = p.unicode_len();
    let ns: usize = s.unicode_len();
    if np > ns {
        return None;
    }
    let mut i: usize = 0;
    while i < np
        invariant
            np == p@.len(),
            ns == s@.len(),
            np <= ns,
            i <= np,
            forall|j: int| 0 <= j < i ==> s@[j] == p@[j],
        decreases np - i,
    {
        if s.get_char(i) != p.get_char(i) {
            proof {
                assert(s@.take(p@.len() as int)[i as int] != p@[i as int]);
            }
            return None;
        }
        i = i + 1;
    }
    let rest: String = s.substring_char(np, ns).to_owned();
    proof {
        assert(s@.take(p@.len() as int) =~= p@);
        assert(rest@ =~= s@.skip(p@.len() as int));
    }
    Some(rest)
}

/// Reads a GET response: EMPTY means the topic had nothing, an OK marker
/// carries the record, anything else is unexpected.
pub fn interpret_get_response(resp: &str) -> (r: Result<Option<String>, String>)
    ensures
        resp@ == "EMPTY"@ ==> (r matches Ok(o) && o is None),
        resp@ != "EMPTY"@ && is_prefix("OK "@, resp@) ==> (r matches Ok(o) && o matches Some(v)
            && v@ == resp@.skip(3)),
        resp@ != "EMPTY"@ && !is_prefix("OK "@, resp@) ==> (r matches Err(e) && e@
            == "unexpected GET response: "@ + resp@),
{
    let owned: String = resp.to_owned();
    if owned == "EMPTY".to_owned() {
        return Ok(None);
    }
    match strip_prefix_str(resp, "OK ") {
        Some(rest) => {
            proof {
                reveal_strlit("OK ");
            }
            Ok(Some(rest))
        },
        None => {
            let mut e: String = "unexpected GET response: ".to_owned();
            e.append(resp);
            Err(e)
        },
    }
}

/// Reads a response that should be a bare OK; anything else is the error.
pub fn interpret_simple_ok(resp: &str) -> (r: Result<(), String>)
    ensures
        resp@ == "OK"@ ==> r is Ok,
        resp@ != "OK"@ ==> (r matches Err(e) && e@ == resp@),
{
    let owned: String = resp.to_owned();
    if owned == "OK".to_owned() {
        Ok(())
    } else {
        Err(owned)
    }
}

/// Reads a payload-bearing response: an OK marker carries the payload, an
/// ERR line is the error, and anything else passes through unchanged.
pub fn interpret_payload_response(resp: &str) -> (r: Result<String, String>)
    ensures
        is_prefix("OK "@, resp@) ==> (r matches Ok(v) && v@ == resp@.skip(3)),
        !is_prefix("OK "@, resp@) && is_prefix("ERR"@, resp@) ==> (r matches Err(e) && e@ == resp@),
        !is_prefix("OK "@, resp@) && !is_prefix("ERR"@, resp@) ==> (r matches Ok(v) && v@ == resp@),
{
    match strip_prefix_str(resp, "OK ") {
        Some(rest) => {
            proof {
                reveal_strlit("OK ");
            }
            Ok(rest)
        },
        None => {
            match strip_prefix_str(resp, "ERR") {
                Some(_tail) => Err(resp.to_owned()),
                None => Ok(resp.to_owned()),
            }
        },
    }
}

} // verus!
