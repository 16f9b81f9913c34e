//! The opening handshake: the headers of the upgrade request, as the header
//! tokenizer reports them, and the response that accepts the upgrade.

use crate::bytes::{append_bytes, bytes_eq};
use vstd::prelude::*;
use vstd::string::*;

verus! {

/// The header fields of a request: each name with the value that was given
/// for it last.
#[derive(Debug)]
pub struct HandshakeHeaders {
    entries: Vec<(Vec<u8>, Vec<u8>)>,
}

impl View for HandshakeHeaders {
    type V = Map<Seq<u8>, Seq<u8>>;

    closed spec fn view(&self) -> Map<Seq<u8>, Seq<u8>> {
        Map::new(
            |name: Seq<u8>| self.spec_position(name) is Some,
            |name: Seq<u8>| self.entries@[self.spec_position(name)->Some_0].1@,
        )
    }
}

impl HandshakeHeaders {
    /// The invariant of the type: no name stands in two entries.
    pub closed spec fn wf(&self) -> bool {
        forall|i: int, j: int|
            0 <= i < j < self.entries@.len() ==> self.entries@[i].0@ != self.entries@[j].0@
    }

    /// Where `name` stands among the entries.
    closed spec fn spec_position(&self, name: Seq<u8>) -> Option<int> {
        if exists|i: int| 0 <= i < self.entries@.len() && self.entries@[i].0@ == name {
            Some(choose|i: int| 0 <= i < self.entries@.len() && self.entries@[i].0@ == name)
        } else {
            None
        }
    }

    pub fn new() -> (headers: HandshakeHeaders)
        ensures
            headers.wf(),
            headers@ == Map::<Seq<u8>, Seq<u8>>::empty(),
    {
        let headers = HandshakeHeaders { entries: Vec::new() };
        assert(headers@ =~= Map::<Seq<u8>, Seq<u8>>::empty());
        headers
    }

    fn position(&self, name: &[u8]) -> (at: Option<usize>)
        requires
            self.wf(),
        ensures
            match at {
                Some(i) => self.spec_position(name@) == Some(i as int) && i < self.entries@.len()
                    && self.entries@[i as int].0@ == name@,
                None => self.spec_position(name@) is None,
            },
    {
        let mut i: usize = 0;
        while i < self.entries.len()
            invariant
                self.wf(),
                i <= self.entries@.len(),
                forall|j: int| 0 <= j < i ==> self.entries@[j].0@ != name@,
            decreases self.entries@.len() - i,
        {
            if bytes_eq(self.entries[i].0.as_slice(), name) {
                proof {
                    let k = self.spec_position(name@)->Some_0;
                    assert(self.entries@[i as int].0@ == name@);
                    assert(0 <= k < self.entries@.len() && self.entries@[k].0@ == name@);
                    assert(k == i);
                }
                return Some(i);
            }
            i += 1;
        }
        None
    }

    /// How many names have a value.
    pub fn len(&self) -> (n: usize)
        requires
            self.wf(),
        ensures
            n == self@.dom().len(),
            self@.dom().finite(),
    {
        proof {
            self.lemma_domain(self.entries@.len() as int);
            assert(self@.dom() =~= self.spec_names(self.entries@.len() as int));
        }
        self.entries.len()
    }

    /// The names of the first `n` entries.
    closed spec fn spec_names(&self, n: int) -> Set<Seq<u8>>
        decreases n,
    {
        if n <= 0 {
            Set::empty()
        } else {
            self.spec_names(n - 1).insert(self.entries@[n - 1].0@)
        }
    }

    proof fn lemma_domain(&self, n: int)
        requires
            self.wf(),
            0 <= n <= self.entries@.len(),
        ensures
            self.spec_names(n).finite(),
            self.spec_names(n).len() == n,
            forall|name: Seq<u8>|
                self.spec_names(n).contains(name) <==> exists|i: int|
                    0 <= i < n && self.entries@[i].0@ == name,
        decreases n,
    {
        if n > 0 {
            self.lemma_domain(n - 1);
        }
    }

    /// Whether `name` has a value.
    pub fn contains(&self, name: &[u8]) -> (found: bool)
        requires
            self.wf(),
        ensures
            found == self@.contains_key(name@),
    {
        self.position(name).is_some()
    }

    /// The value of `name`.
    pub fn get(&self, name: &[u8]) -> (value: Option<&[u8]>)
        requires
            self.wf(),
        ensures
            match value {
                Some(bytes) => self@.contains_key(name@) && bytes@ == self@[name@],
                None => !self@.contains_key(name@),
            },
    {
        match self.position(name) {
            Some(i) => Some(self.entries[i].1.as_slice()),
            None => None,
        }
    }

    /// Gives `name` the value `value`, in place of the one it had.
    pub fn insert(&mut self, name: Vec<u8>, value: Vec<u8>)
        requires
            old(self).wf(),
        ensures
            final(self).wf(),
            final(self)@ == old(self)@.insert(name@, value@),
    {
        match self.position(name.as_slice()) {
            Some(i) => {
                self.entries[i] = (name, value);
                assert forall|other: Seq<u8>| other != name@ implies self.spec_position(other)
                    == old(self).spec_position(other) by {
                    if old(self).spec_position(other) is Some {
                        let j = old(self).spec_position(other)->Some_0;
                        assert(self.entries@[j].0@ == other);
                    }
                }
                assert(self.entries@[i as int].0@ == name@);
            },
            None => {
                self.entries.push((name, value));
                let ghost last = self.entries@.len() - 1;
                assert(self.entries@[last].0@ == name@);
                assert forall|other: Seq<u8>| other != name@ implies self.spec_position(other)
                    == old(self).spec_position(other) by {
                    if old(self).spec_position(other) is Some {
                        let j = old(self).spec_position(other)->Some_0;
                        assert(self.entries@[j].0@ == other);
                    }
                }
            },
        }
        assert(self@ =~= old(self)@.insert(name@, value@));
    }
}

/// The text that the protocol has every server append to the client's key
/// before hashing.
pub const WEBSOCKET_GUID: &'static str = "258EAFA5-E914-47DA-95CA-C5AB0DC85B11";

/// The header that carries the client's key.
pub const KEY_HEADER: &'static str = "Sec-WebSocket-Key";

/// The 20 bytes that `sha1::Sha1` gives out for `data`. The name stands for
/// that crate's own computation; nothing here says how it is done.
pub uninterp spec fn sha1_output(data: Seq<u8>) -> Seq<u8>;

/// The text that `rustc_serialize`'s base64 encoder gives out for `data` under
/// its `STANDARD` configuration.
pub uninterp spec fn base64_standard(data: Seq<u8>) -> Seq<char>;

/// Hashes `data` with `sha1::Sha1`: a fresh hasher by `new`, `data` fed by one
/// `update`, the digest written by `output` into a buffer of 20 bytes.
///
/// Not proved: that the digest depends on `data` alone. How it is computed
/// is left to the `sha1` crate; the contract only names it.
#[verifier::external_body]
fn sha1_of(data: &[u8]) -> (digest: [u8; 20])
    ensures
        digest@ == sha1_output(data@),
{
    let mut hasher = sha1::Sha1::new();
    let mut digest: [u8; 20] = [0u8; 20];
    hasher.update(data);
    hasher.output(&mut digest);
    digest
}

/// Encodes a digest with `rustc_serialize::base64::ToBase64::to_base64` under
/// the configuration `rustc_serialize::base64::STANDARD`.
///
/// Not proved: that the text depends on the digest alone. The encoding is
/// left to `rustc_serialize`; the contract only names it.
#[verifier::external_body]
fn base64_of(digest: &[u8; 20]) -> (text: String)
    ensures
        text@ == base64_standard(digest@),
{
    rustc_serialize::base64::ToBase64::to_base64(&digest[..], rustc_serialize::base64::STANDARD)
}

/// The value of `Sec-WebSocket-Accept` that answers the key `key`: the key
/// followed by the protocol's GUID, hashed, the digest in base64.
pub open spec fn spec_accept_key(key: Seq<u8>) -> Seq<char> {
    base64_standard(sha1_output(key + WEBSOCKET_GUID.spec_bytes()))
}

/// Computes the value of `Sec-WebSocket-Accept` for a client's key.
pub fn gen_key(key: &[u8]) -> (accept: String)
    ensures
        accept@ == spec_accept_key(key@),
{
    let mut input: Vec<u8> = Vec::new();
    append_bytes(&mut input, key);
    append_bytes(&mut input, WEBSOCKET_GUID.as_bytes());
    assert(input@ =~= key@ + WEBSOCKET_GUID.spec_bytes());
    let digest = sha1_of(input.as_slice());
    base64_of(&digest)
}

/// The response that accepts an upgrade, with `accept` as the value of
/// `Sec-WebSocket-Accept`.
pub open spec fn spec_response_line(accept: Seq<char>) -> Seq<char> {
    "HTTP/1.1 101 Switching Protocols\r\nConnection: Upgrade\r\nSec-WebSocket-Accept: "@ + accept
        + "\r\nUpgrade: websocket\r\n\r\n"@
}

/// Writes out the response that accepts an upgrade.
pub fn response_line(accept: &str) -> (line: String)
    ensures
        line@ == spec_response_line(accept@),
{
    let mut line = String::from_str(
        "HTTP/1.1 101 Switching Protocols\r\nConnection: Upgrade\r\nSec-WebSocket-Accept: ",
    );
    line.append(accept);
    line.append("\r\nUpgrade: websocket\r\n\r\n");
    line
}

/// The request has no `Sec-WebSocket-Key` header: the handshake is given up
/// and the connection closed.
#[derive(Clone, Copy, Debug, PartialEq, Eq, Structural)]
pub struct MissingKeyError;

/// What [`accept_response`] stands for: the response for the key among
/// `headers`, if there is one.
pub open spec fn spec_accept_response(headers: Map<Seq<u8>, Seq<u8>>) -> Result<
    Seq<char>,
    MissingKeyError,
> {
    if headers.contains_key(KEY_HEADER.spec_bytes()) {
        Ok(spec_response_line(spec_accept_key(headers[KEY_HEADER.spec_bytes()])))
    } else {
        Err(MissingKeyError)
    }
}

/// The response to the upgrade request that came with `headers`.
pub fn accept_response(headers: &HandshakeHeaders) -> (response: Result<String, MissingKeyError>)
    requires
        headers.wf(),
    ensures
        match response {
            Ok(line) => spec_accept_response(headers@) == Ok::<Seq<char>, MissingKeyError>(line@),
            Err(e) => spec_accept_response(headers@) == Err::<Seq<char>, MissingKeyError>(e),
        },
{
    match headers.get(KEY_HEADER.as_bytes()) {
        Some(key) => {
            let accept = gen_key(key);
            Ok(response_line(accept.as_str()))
        },
        None => Err(MissingKeyError),
    }
}

} // verus!
