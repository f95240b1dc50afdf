//! KiCad IPC errors and the in-memory transport used to drive the client
//! offline.
use vstd::prelude::*;
use crate::plugins::is_ascii_alnum;
use crate::text::push_str;

verus! {

/// Errors raised while talking to KiCad.
#[derive(Debug)]
pub enum KiCadError {
    /// The socket could not be opened, dialled, written or read.
    Connection(String),
    /// KiCad answered with something the client did not expect.
    Protocol(String),
    /// KiCad answered with a non-OK API status.
    Api { status: i32, message: String },
}

/// In-memory transport: records every request and answers each one with a
/// copy of the same canned response.
pub struct MockTransport {
    /// All requests sent by the client, in order.
    pub sent_requests: Vec<Vec<u8>>,
    /// The raw response bytes returned on each `send_and_recv` call.
    pub response_to_return: Vec<u8>,
}

impl MockTransport {
    /// Creates a mock transport that returns the given response bytes.
    pub fn new(response_to_return: Vec<u8>) -> (m: Self)
        ensures
            m.sent_requests@.len() == 0,
            m.response_to_return@ == response_to_return@,
    {
        MockTransport { sent_requests: Vec::new(), response_to_return }
    }

    /// Opening the in-memory transport always succeeds and changes nothing.
    pub fn connect(&mut self) -> (r: Result<(), KiCadError>)
        ensures
            r is Ok,
            final(self).sent_requests@ == old(self).sent_requests@,
            final(self).response_to_return@ == old(self).response_to_return@,
    {
        Ok(())
    }

    /// Record `request_bytes` and return the canned response.
    pub fn send_and_recv(&mut self, request_bytes: &[u8]) -> (r: Result<Vec<u8>, KiCadError>)
        ensures
            final(self).sent_requests@.len() == old(self).sent_requests@.len() + 1,
            forall|k: int| 0 <= k < old(self).sent_requests@.len() ==>
                #[trigger] final(self).sent_requests@[k]@ == old(self).sent_requests@[k]@,
            final(self).sent_requests@.last()@ == request_bytes@,
            final(self).response_to_return@ == old(self).response_to_return@,
            r matches Ok(bytes) && bytes@ == old(self).response_to_return@,
    {
        let mut copy: Vec<u8> = Vec::new();
        let mut i: usize = 0;
        while i < request_bytes.len()
            invariant
                i <= request_bytes@.len(),
                copy@ == request_bytes@.take(i as int),
            decreases request_bytes@.len() - i,
        {
            copy.push(request_bytes[i]);
            i = i + 1;
            assert(copy@ =~= request_bytes@.take(i as int));
        }
        assert(copy@ =~= request_bytes@);
        self.sent_requests.push(copy);
        let resp = self.response_to_return.clone();
        Ok(resp)
    }
}

/// One byte drawn by `rand::Rng::sample` from the thread-local generator
/// (`rand::thread_rng`) with the `rand::distributions::Alphanumeric`
/// distribution. Its source draws from `A-Z`, `a-z` and `0-9` only; which
/// of them comes out is chance, and nothing more is claimed.
#[verifier::external_body]
fn sample_alphanumeric() -> (b: u8)
    ensures
        is_ascii_alnum(b as char),
{
    rand::Rng::sample(&mut rand::thread_rng(), rand::distributions::Alphanumeric)
}

/// The prefix of every client name.
pub open spec fn client_name_prefix() -> Seq<char> {
    "pcbmotorgen-"@
}

/// A random client name: `pcbmotorgen-` followed by 8 random ASCII letters
/// or digits.
pub fn random_client_name() -> (name: String)
    ensures
        name@.len() == client_name_prefix().len() + 8,
        name@.take(client_name_prefix().len() as int) == client_name_prefix(),
        forall|i: int| client_name_prefix().len() <= i < name@.len() ==> is_ascii_alnum(#[trigger] name@[i]),
{
    proof {
        reveal_strlit("pcbmotorgen-");
    }
    let mut name = String::new();
    push_str(&mut name, "pcbmotorgen-");
    let mut k: usize = 0;
    while k < 8
        invariant
            k <= 8,
            client_name_prefix().len() == 12,
            name@.len() == 12 + k,
            name@.take(12) == client_name_prefix(),
            forall|i: int| 12 <= i < name@.len() ==> is_ascii_alnum(#[trigger] name@[i]),
        decreases 8 - k,
    {
        let b = sample_alphanumeric();
        let ghost before = name@;
        name.push(b as char);
        assert(name@.take(12) =~= before.take(12));
        k = k + 1;
    }
    name
}

} // verus!
