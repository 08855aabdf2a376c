use serde_bencode::value::Value;
use vstd::prelude::*;

use crate::rpc::{MediaRpcCmd, MediaRpcRequest, MediaRpcResponse, MediaRpcResult};

verus! {

/// What decoding a bencoded message yields when it is a dictionary: each
/// key with its value, which is the bytes of a byte string, and `None` for
/// any other value.
pub uninterp spec fn bencode_dict(msg: Seq<char>) -> Option<Map<Seq<u8>, Option<Seq<u8>>>>;

/// The text that bytes hold as UTF-8, if they are UTF-8.
pub uninterp spec fn utf8_text(b: Seq<u8>) -> Option<Seq<char>>;

/// The entries as a map; the entries' keys are pairwise distinct.
pub open spec fn entries_map(e: Seq<(Vec<u8>, Option<Vec<u8>>)>) -> Map<Seq<u8>, Option<Seq<u8>>>
    decreases e.len(),
{
    if e.len() == 0 {
        Map::empty()
    } else {
        let last = e.last();
        entries_map(e.drop_last()).insert(last.0@, bytes_view(last.1))
    }
}

/// The view of optional bytes.
pub open spec fn bytes_view(o: Option<Vec<u8>>) -> Option<Seq<u8>> {
    match o {
        Some(b) => Some(b@),
        None => None,
    }
}

pub open spec fn distinct_keys(e: Seq<(Vec<u8>, Option<Vec<u8>>)>) -> bool {
    forall|i: int, j: int| 0 <= i < j < e.len() ==> #[trigger] e[i].0@ != #[trigger] e[j].0@
}

/// Relies on `serde_bencode::from_str` into its generic `Value`: a
/// dictionary comes out as a `HashMap`, whose keys are distinct.
#[verifier::external_body]
fn decode_dict(msg: &str) -> (r: Option<Vec<(Vec<u8>, Option<Vec<u8>>)>>)
    ensures
        match bencode_dict(msg@) {
            None => r is None,
            Some(m) => r matches Some(e) && distinct_keys(e@) && entries_map(e@) == m,
        },
{
    match serde_bencode::from_str::<Value>(msg) {
        Ok(Value::Dict(d)) => Some(d.into_iter().map(|(k, v)| (k, match v {
            Value::Bytes(b) => Some(b),
            Value::Int(_) => None,
            Value::List(_) => None,
            Value::Dict(_) => None,
        })).collect()),
        _ => None,
    }
}

/// Relies on `String::from_utf8`: the text, when the bytes are UTF-8.
#[verifier::external_body]
fn text_of(b: Vec<u8>) -> (r: Option<String>)
    ensures
        opt_view(r) == utf8_text(b@),
{
    String::from_utf8(b).ok()
}

/// The value under `key`: `None` when the key is absent, `Some(None)` when
/// its value is not a byte string.
pub open spec fn field(m: Map<Seq<u8>, Option<Seq<u8>>>, key: Seq<u8>) -> Option<Option<Seq<u8>>> {
    if m.contains_key(key) {
        Some(m[key])
    } else {
        None
    }
}

/// The text under `key`, if the key is there with a UTF-8 byte string.
pub open spec fn text(m: Map<Seq<u8>, Option<Seq<u8>>>, key: Seq<u8>) -> Option<Seq<char>> {
    match field(m, key) {
        Some(Some(b)) => utf8_text(b),
        _ => None,
    }
}

/// An optional field is absent or holds text.
pub open spec fn optional_ok(m: Map<Seq<u8>, Option<Seq<u8>>>, key: Seq<u8>) -> bool {
    field(m, key) is None || text(m, key) is Some
}

pub open spec fn key_command() -> Seq<u8> {
    seq![99u8, 111, 109, 109, 97, 110, 100]
}

pub open spec fn key_sdp() -> Seq<u8> {
    seq![115u8, 100, 112]
}

pub open spec fn key_call_id() -> Seq<u8> {
    seq![99u8, 97, 108, 108, 45, 105, 100]
}

pub open spec fn key_from_tag() -> Seq<u8> {
    seq![102u8, 114, 111, 109, 45, 116, 97, 103]
}

pub open spec fn key_to_tag() -> Seq<u8> {
    seq![116u8, 111, 45, 116, 97, 103]
}

pub open spec fn key_ice() -> Seq<u8> {
    seq![73u8, 67, 69]
}

/// Whether a decoded dictionary is a command, and which: `ping`; `offer`
/// with `sdp`, `call-id` and `from-tag`; `answer` with those and `to-tag`;
/// `delete` with `call-id` and `from-tag`. `ICE`, and `to-tag` of a
/// `delete`, are optional; fields not named are ignored.
pub open spec fn accepts(m: Map<Seq<u8>, Option<Seq<u8>>>) -> bool {
    match text(m, key_command()) {
        Some(c) => if c == "ping"@ {
            true
        } else if c == "offer"@ {
            text(m, key_sdp()) is Some && text(m, key_call_id()) is Some && text(m, key_from_tag()) is Some
                && optional_ok(m, key_ice())
        } else if c == "answer"@ {
            text(m, key_sdp()) is Some && text(m, key_call_id()) is Some && text(m, key_from_tag()) is Some
                && text(m, key_to_tag()) is Some && optional_ok(m, key_ice())
        } else if c == "delete"@ {
            text(m, key_call_id()) is Some && text(m, key_from_tag()) is Some && optional_ok(m, key_to_tag())
        } else {
            false
        },
        None => false,
    }
}

/// The view of an optional text field.
pub open spec fn opt_view(o: Option<String>) -> Option<Seq<char>> {
    match o {
        Some(s) => Some(s@),
        None => None,
    }
}

/// A command of the call-control protocol.
#[derive(Debug, PartialEq, Eq, Clone)]
pub enum NgCommand {
    Ping {},
    Offer { sdp: String, call_id: String, from_tag: String, ice: Option<String> },
    Answer { sdp: String, call_id: String, from_tag: String, to_tag: String, ice: Option<String> },
    Delete { call_id: String, from_tag: String, to_tag: Option<String> },
}

impl NgCommand {
    /// `self` is the command that the dictionary `m` holds.
    pub open spec fn read_from(&self, m: Map<Seq<u8>, Option<Seq<u8>>>) -> bool {
        match self {
            NgCommand::Ping {  } => text(m, key_command()) == Some("ping"@),
            NgCommand::Offer { sdp, call_id, from_tag, ice } => {
                &&& text(m, key_command()) == Some("offer"@)
                &&& text(m, key_sdp()) == Some(sdp@)
                &&& text(m, key_call_id()) == Some(call_id@)
                &&& text(m, key_from_tag()) == Some(from_tag@)
                &&& opt_view(*ice) == text(m, key_ice())
            },
            NgCommand::Answer { sdp, call_id, from_tag, to_tag, ice } => {
                &&& text(m, key_command()) == Some("answer"@)
                &&& text(m, key_sdp()) == Some(sdp@)
                &&& text(m, key_call_id()) == Some(call_id@)
                &&& text(m, key_from_tag()) == Some(from_tag@)
                &&& text(m, key_to_tag()) == Some(to_tag@)
                &&& opt_view(*ice) == text(m, key_ice())
            },
            NgCommand::Delete { call_id, from_tag, to_tag } => {
                &&& text(m, key_command()) == Some("delete"@)
                &&& text(m, key_call_id()) == Some(call_id@)
                &&& text(m, key_from_tag()) == Some(from_tag@)
                &&& opt_view(*to_tag) == text(m, key_to_tag())
            },
        }
    }
}

proof fn lemma_entry_at(e: Seq<(Vec<u8>, Option<Vec<u8>>)>, i: int)
    requires
        distinct_keys(e),
        0 <= i < e.len(),
    ensures
        entries_map(e).contains_key(e[i].0@),
        entries_map(e)[e[i].0@] == bytes_view(e[i].1),
    decreases e.len(),
{
    let d = e.drop_last();
    if i < e.len() - 1 {
        assert(distinct_keys(d)) by {
            assert forall|a: int, b: int| 0 <= a < b < d.len() implies #[trigger] d[a].0@ != #[trigger] d[b].0@ by {
                assert(d[a] == e[a] && d[b] == e[b]);
            }
        }
        lemma_entry_at(d, i);
        assert(d[i] == e[i]);
        assert(e[e.len() - 1] == e.last());
        assert(e[i].0@ != e[e.len() - 1].0@);
    } else {
        assert(e[e.len() - 1] == e.last());
    }
}

proof fn lemma_entry_absent(e: Seq<(Vec<u8>, Option<Vec<u8>>)>, k: Seq<u8>)
    requires
        forall|i: int| 0 <= i < e.len() ==> #[trigger] e[i].0@ != k,
    ensures
        !entries_map(e).contains_key(k),
    decreases e.len(),
{
    if e.len() > 0 {
        let d = e.drop_last();
        assert forall|i: int| 0 <= i < d.len() implies #[trigger] d[i].0@ != k by {
            assert(d[i] == e[i]);
        }
        lemma_entry_absent(d, k);
        assert(e[e.len() - 1] == e.last());
    }
}

fn same_bytes(a: &Vec<u8>, b: &Vec<u8>) -> (r: bool)
    ensures
        r == (a@ == b@),
{
    if a.len() != b.len() {
        return false;
    }
    let mut i: usize = 0;
    while i < a.len()
        invariant
            a@.len() == b@.len(),
            i <= a@.len(),
            forall|j: int| 0 <= j < i ==> a@[j] == b@[j],
        decreases a@.len() - i,
    {
        if a[i] != b[i] {
            return false;
        }
        i = i + 1;
    }
    assert(a@ =~= b@);
    true
}

/// The value under `key` among distinct-keyed entries.
fn lookup(e: &Vec<(Vec<u8>, Option<Vec<u8>>)>, key: &Vec<u8>) -> (r: Option<Option<Vec<u8>>>)
    requires
        distinct_keys(e@),
    ensures
        match r {
            Some(v) => field(entries_map(e@), key@) == Some(bytes_view(v)),
            None => field(entries_map(e@), key@) is None,
        },
{
    let mut i: usize = 0;
    while i < e.len()
        invariant
            i <= e@.len(),
            distinct_keys(e@),
            forall|j: int| 0 <= j < i ==> #[trigger] e@[j].0@ != key@,
        decreases e@.len() - i,
    {
        if same_bytes(&e[i].0, key) {
            assert(e@[i as int].0@ == key@);
            proof {
                lemma_entry_at(e@, i as int);
            }
            let v = match &e[i].1 {
                Some(b) => Some(b.clone()),
                None => None,
            };
            assert(bytes_view(v) == bytes_view(e@[i as int].1));
            return Some(v);
        }
        i = i + 1;
    }
    proof {
        lemma_entry_absent(e@, key@);
    }
    None
}

/// The field under `key`: absent, not text, or its text.
fn lookup_field(e: &Vec<(Vec<u8>, Option<Vec<u8>>)>, key: &Vec<u8>) -> (r: Option<Option<String>>)
    requires
        distinct_keys(e@),
    ensures
        match r {
            None => field(entries_map(e@), key@) is None,
            Some(t) => field(entries_map(e@), key@) is Some && opt_view(t) == text(entries_map(e@), key@),
        },
{
    match lookup(e, key) {
        None => None,
        Some(None) => Some(None),
        Some(Some(b)) => Some(text_of(b)),
    }
}

/// The text under `key`, if there is text there.
fn lookup_text(e: &Vec<(Vec<u8>, Option<Vec<u8>>)>, key: &Vec<u8>) -> (r: Option<String>)
    requires
        distinct_keys(e@),
    ensures
        opt_view(r) == text(entries_map(e@), key@),
{
    match lookup_field(e, key) {
        Some(Some(t)) => Some(t),
        _ => None,
    }
}

fn command_key() -> (r: Vec<u8>)
    ensures
        r@ == key_command(),
{
    let r: Vec<u8> = vec![99u8, 111, 109, 109, 97, 110, 100];
    assert(r@ =~= key_command());
    r
}

fn sdp_key() -> (r: Vec<u8>)
    ensures
        r@ == key_sdp(),
{
    let r: Vec<u8> = vec![115u8, 100, 112];
    assert(r@ =~= key_sdp());
    r
}

fn call_id_key() -> (r: Vec<u8>)
    ensures
        r@ == key_call_id(),
{
    let r: Vec<u8> = vec![99u8, 97, 108, 108, 45, 105, 100];
    assert(r@ =~= key_call_id());
    r
}

fn from_tag_key() -> (r: Vec<u8>)
    ensures
        r@ == key_from_tag(),
{
    let r: Vec<u8> = vec![102u8, 114, 111, 109, 45, 116, 97, 103];
    assert(r@ =~= key_from_tag());
    r
}

fn to_tag_key() -> (r: Vec<u8>)
    ensures
        r@ == key_to_tag(),
{
    let r: Vec<u8> = vec![116u8, 111, 45, 116, 97, 103];
    assert(r@ =~= key_to_tag());
    r
}

fn ice_key() -> (r: Vec<u8>)
    ensures
        r@ == key_ice(),
{
    let r: Vec<u8> = vec![73u8, 67, 69];
    assert(r@ =~= key_ice());
    r
}

impl NgCommand {
    /// Reads a command from a decoded dictionary's distinct-keyed entries.
    pub fn from_dict(e: &Vec<(Vec<u8>, Option<Vec<u8>>)>) -> (r: Option<NgCommand>)
        requires
            distinct_keys(e@),
        ensures
            r is Some <==> accepts(entries_map(e@)),
            r matches Some(c) ==> c.read_from(entries_map(e@)),
    {
        let ghost m = entries_map(e@);
        proof {
            reveal_strlit("ping");
            reveal_strlit("offer");
            reveal_strlit("answer");
            reveal_strlit("delete");
            assert("delete"@ != "answer"@) by {
                assert("delete"@[0] != "answer"@[0]);
            }
            assert("delete"@ != "offer"@) by {
                assert("delete"@[0] != "offer"@[0]);
            }
            assert("delete"@ != "ping"@) by {
                assert("delete"@[0] != "ping"@[0]);
            }
            assert("offer"@ != "ping"@) by {
                assert("offer"@[0] != "ping"@[0]);
            }
            assert("answer"@ != "ping"@) by {
                assert("answer"@[0] != "ping"@[0]);
            }
            assert("answer"@ != "offer"@) by {
                assert("answer"@[0] != "offer"@[0]);
            }
        }
        let command = match lookup_text(e, &command_key()) {
            Some(c) => c,
            None => return None,
        };
        if command == String::from_str("ping") {
            return Some(NgCommand::Ping {  });
        }
        let call_id = lookup_text(e, &call_id_key());
        let from_tag = lookup_text(e, &from_tag_key());
        if command == String::from_str("delete") {
            let to_tag = lookup_field(e, &to_tag_key());
            return match (call_id, from_tag, to_tag) {
                (Some(call_id), Some(from_tag), None) => Some(NgCommand::Delete { call_id, from_tag, to_tag: None }),
                (Some(call_id), Some(from_tag), Some(Some(t))) => Some(
                    NgCommand::Delete { call_id, from_tag, to_tag: Some(t) },
                ),
                _ => None,
            };
        }
        let is_offer = command == String::from_str("offer");
        let is_answer = command == String::from_str("answer");
        if !is_offer && !is_answer {
            return None;
        }
        let sdp = lookup_text(e, &sdp_key());
        let ice = match lookup_field(e, &ice_key()) {
            None => None,
            Some(Some(t)) => Some(t),
            Some(None) => return None,
        };
        let (sdp, call_id, from_tag) = match (sdp, call_id, from_tag) {
            (Some(a), Some(b), Some(c)) => (a, b, c),
            _ => return None,
        };
        if is_offer {
            Some(NgCommand::Offer { sdp, call_id, from_tag, ice })
        } else {
            match lookup_text(e, &to_tag_key()) {
                Some(to_tag) => Some(NgCommand::Answer { sdp, call_id, from_tag, to_tag, ice }),
                None => None,
            }
        }
    }

    /// Decodes a bencoded command: a dictionary whose `command` names it,
    /// with the fields that command needs.
    pub fn from_str(msg: &str) -> (r: Option<NgCommand>)
        ensures
            match bencode_dict(msg@) {
                None => r is None,
                Some(m) => (r is Some <==> accepts(m)) && (r matches Some(c) ==> c.read_from(m)),
            },
    {
        match decode_dict(msg) {
            Some(e) => NgCommand::from_dict(&e),
            None => None,
        }
    }
}

/// `i` is the position of the first space of `p`.
pub open spec fn is_first_space(p: Seq<char>, i: int) -> bool {
    &&& 0 <= i < p.len()
    &&& p[i] == ' '
    &&& forall|j: int| 0 <= j < i ==> p[j] != ' '
}

/// The text `s` decodes to a command.
pub open spec fn decodes(s: Seq<char>) -> bool {
    bencode_dict(s) matches Some(m) && accepts(m)
}

/// A request of the call-control protocol: a transaction id and a command.
#[derive(Debug)]
pub struct NgRequest {
    pub id: String,
    pub command: NgCommand,
}

impl NgRequest {
    /// Reads `<transaction-id> <bencoded command>`: the id runs up to the
    /// first space and the command follows it.
    pub fn from_str(packet: &str) -> (r: Option<NgRequest>)
        ensures
            match r {
                Some(req) => {
                    let n = req.id@.len() as int;
                    &&& is_first_space(packet@, n)
                    &&& req.id@ == packet@.take(n)
                    &&& decodes(packet@.skip(n + 1))
                    &&& req.command.read_from(bencode_dict(packet@.skip(n + 1))->Some_0)
                },
                None => forall|i: int| #[trigger] is_first_space(packet@, i) ==> !decodes(packet@.skip(i + 1)),
            },
    {
        let n = packet.unicode_len();
        let mut i: usize = 0;
        while i < n
            invariant
                n == packet@.len(),
                i <= n,
                forall|j: int| 0 <= j < i ==> packet@[j] != ' ',
            ensures
                i <= n,
                i < n ==> packet@[i as int] == ' ',
                forall|j: int| 0 <= j < i ==> packet@[j] != ' ',
            decreases n - i,
        {
            if packet.get_char(i) == ' ' {
                break;
            }
            i = i + 1;
        }
        if i == n {
            return None;
        }
        let id = String::from_str(packet.substring_char(0, i));
        let body = packet.substring_char(i + 1, n);
        proof {
            assert(packet@.subrange(0, i as int) =~= packet@.take(i as int));
            assert(packet@.subrange(i + 1, n as int) =~= packet@.skip(i + 1));
            assert forall|k: int| #[trigger] is_first_space(packet@, k) implies k == i by {
                if k < i {
                } else if k > i {
                    assert(packet@[i as int] == ' ');
                }
            }
        }
        match NgCommand::from_str(body) {
            Some(command) => Some(NgRequest { id, command }),
            None => None,
        }
    }
}

impl NgRequest {
    /// The answer to a request that has a transaction id but no command
    /// this protocol knows: an `error` result with reason `UNKNOW_COMMAND`.
    /// A packet without a transaction id, or whose command is known, gets
    /// none.
    pub fn unknown_command_reply(packet: &str) -> (r: Option<NgResponse>)
        ensures
            match r {
                Some(res) => {
                    let n = res.id@.len() as int;
                    &&& is_first_space(packet@, n)
                    &&& res.id@ == packet@.take(n)
                    &&& !decodes(packet@.skip(n + 1))
                    &&& res.result matches NgCmdResult::Pong { result, error_reason }
                    &&& result@ == "error"@
                    &&& error_reason matches Some(e) && e@ == "UNKNOW_COMMAND"@
                },
                None => forall|i: int| #[trigger] is_first_space(packet@, i) ==> decodes(packet@.skip(i + 1)),
            },
    {
        let n = packet.unicode_len();
        let mut i: usize = 0;
        while i < n
            invariant
                n == packet@.len(),
                i <= n,
                forall|j: int| 0 <= j < i ==> packet@[j] != ' ',
            ensures
                i <= n,
                i < n ==> packet@[i as int] == ' ',
                forall|j: int| 0 <= j < i ==> packet@[j] != ' ',
            decreases n - i,
        {
            if packet.get_char(i) == ' ' {
                break;
            }
            i = i + 1;
        }
        if i == n {
            return None;
        }
        let body = packet.substring_char(i + 1, n);
        proof {
            assert(packet@.subrange(0, i as int) =~= packet@.take(i as int));
            assert(packet@.subrange(i + 1, n as int) =~= packet@.skip(i + 1));
            assert forall|k: int| #[trigger] is_first_space(packet@, k) implies k == i by {
                if k > i {
                    assert(packet@[i as int] == ' ');
                }
            }
        }
        match NgCommand::from_str(body) {
            Some(_) => None,
            None => Some(
                NgResponse {
                    id: String::from_str(packet.substring_char(0, i)),
                    result: NgCmdResult::Pong {
                        result: String::from_str("error"),
                        error_reason: Some(String::from_str("UNKNOW_COMMAND")),
                    },
                },
            ),
        }
    }
}

/// The result of a call-control command.
#[derive(Debug, PartialEq, Eq)]
pub enum NgCmdResult {
    Pong { result: String, error_reason: Option<String> },
    Offer { result: String, error_reason: Option<String>, sdp: Option<String> },
    Answer { result: String, error_reason: Option<String>, sdp: Option<String> },
    Delete { result: String, error_reason: Option<String> },
}

/// A response of the call-control protocol: the request's transaction id and the result.
#[derive(Debug)]
pub struct NgResponse {
    pub id: String,
    pub result: NgCmdResult,
}

/// The worker command a call-control request stands for: an offer or an
/// answer admits a leg (named by the offer's `from-tag` or the answer's
/// `to-tag`), a delete ends the call, a ping is a ping.
pub fn rpc_request_from_ng(ng_request: NgRequest) -> (r: MediaRpcRequest)
    ensures
        r.id == ng_request.id,
        r.cmd == match ng_request.command {
            NgCommand::Offer { sdp, call_id, from_tag, .. } => MediaRpcCmd::Call(call_id, from_tag, sdp),
            NgCommand::Answer { sdp, call_id, to_tag, .. } => MediaRpcCmd::Call(call_id, to_tag, sdp),
            NgCommand::Delete { call_id, .. } => MediaRpcCmd::End(call_id),
            NgCommand::Ping {  } => MediaRpcCmd::Ping,
        },
{
    let cmd = match ng_request.command {
        NgCommand::Offer { sdp, call_id, from_tag, .. } => MediaRpcCmd::Call(call_id, from_tag, sdp),
        NgCommand::Answer { sdp, call_id, to_tag, .. } => MediaRpcCmd::Call(call_id, to_tag, sdp),
        NgCommand::Delete { call_id, .. } => MediaRpcCmd::End(call_id),
        NgCommand::Ping {  } => MediaRpcCmd::Ping,
    };
    MediaRpcRequest { id: ng_request.id, cmd }
}

/// The call-control response for a worker response: `pong`; `ok` with the
/// answer; `ok` for an ended call; `error` with the reason.
pub fn ng_response_from_rpc(rpc_response: MediaRpcResponse) -> (r: NgResponse)
    ensures
        r.id == rpc_response.id,
        match rpc_response.res {
            MediaRpcResult::Pong => r.result matches NgCmdResult::Pong { result, error_reason } && result@
                == "pong"@ && error_reason is None,
            MediaRpcResult::Call(sdp) => r.result matches NgCmdResult::Offer { result, error_reason, sdp: answer }
                && result@ == "ok"@ && error_reason is None && answer == Some(sdp),
            MediaRpcResult::End => r.result matches NgCmdResult::Delete { result, error_reason } && result@ == "ok"@
                && error_reason is None,
            MediaRpcResult::Error(reason) => r.result matches NgCmdResult::Pong { result, error_reason }
                && result@ == "error"@ && error_reason == Some(reason),
        },
{
    let result = match rpc_response.res {
        MediaRpcResult::Pong => NgCmdResult::Pong { result: String::from_str("pong"), error_reason: None },
        MediaRpcResult::Call(sdp) => NgCmdResult::Offer {
            result: String::from_str("ok"),
            error_reason: None,
            sdp: Some(sdp),
        },
        MediaRpcResult::End => NgCmdResult::Delete { result: String::from_str("ok"), error_reason: None },
        MediaRpcResult::Error(reason) => NgCmdResult::Pong {
            result: String::from_str("error"),
            error_reason: Some(reason),
        },
    };
    NgResponse { id: rpc_response.id, result }
}

} // verus!
