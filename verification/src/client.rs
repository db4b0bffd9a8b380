//! A session with a router, without the connection: the bytes that came
//! in, how far they have been read, and the bytes that are to go out.
//!
//! The program that owns the connection hands what it read to `receive`,
//! sends what `take_outgoing` returns, and asks `reply_ready` whether it
//! has to read on.

use vstd::prelude::*;
use vstd::string::StringSliceAdditionalSpecFns;
use crate::auth::{
    digest_input, login_challenge, login_response, login_start, md5_hex, spec_login_challenge,
    spec_login_request, spec_login_start,
};
use crate::codec::{append_bytes, MAX_WORD_LEN};
use crate::errors::{connection_closed, ErrorView, MikrotikError};
use crate::mapper::{
    address_fields, address_list, address_rows, queue_fields, queue_list, queue_rows,
    spec_to_records,
};
use crate::models;
use crate::sentence::{
    decode_reply, decode_sentence, encodable, encode_sentence, spec_decode_reply,
    spec_decode_sentence, spec_encode_sentence, Reply, ReplyView,
};
use crate::words::{ascii, bytes_of, word_views};

verus! {

/// The port that routers listen on.
pub const DEFAULT_PORT: u16 = 8728;

/// How far a session has come in logging in. It starts unauthenticated;
/// a handshake that succeeds makes it authenticated, one that fails makes
/// it failed, and it stays so.
#[derive(Clone, Copy, Debug, PartialEq, Eq, Structural)]
pub enum LoginState {
    Unauthenticated,
    Authenticated,
    Failed,
}

/// A session with a router.
pub struct Client {
    inbound: Vec<u8>,
    cursor: usize,
    outbound: Vec<u8>,
    state: LoginState,
}

/// The command that lists the firewall's address lists.
pub open spec fn spec_address_list_request() -> Seq<Seq<u8>> {
    seq![ascii("/ip/firewall/address-list/print"@)]
}

/// The command that lists the simple queues.
pub open spec fn spec_queue_list_request() -> Seq<Seq<u8>> {
    seq![ascii("/queue/simple/print"@)]
}

impl Client {
    /// Every byte received so far.
    pub closed spec fn inbound(&self) -> Seq<u8> {
        self.inbound@
    }

    /// The place in `inbound` up to which the bytes have been read.
    pub closed spec fn cursor(&self) -> int {
        self.cursor as int
    }

    /// The bytes that wait to be sent.
    pub closed spec fn outgoing(&self) -> Seq<u8> {
        self.outbound@
    }

    /// How far the login has come.
    pub closed spec fn state(&self) -> LoginState {
        self.state
    }

    /// The reply that the received bytes hold behind those already read.
    pub open spec fn pending_reply(&self) -> ReplyView {
        spec_decode_reply(self.inbound(), self.cursor(), Seq::<Seq<u8>>::empty())
    }

    /// Whether `self` differs from `before` in the outgoing bytes alone,
    /// which have grown by the sentence `words`.
    pub open spec fn has_queued(&self, before: &Client, words: Seq<Seq<u8>>) -> bool {
        &&& self.inbound() == before.inbound()
        &&& self.cursor() == before.cursor()
        &&& self.outgoing() == before.outgoing() + spec_encode_sentence(words)
        &&& self.state() == before.state()
    }

    /// Whether `self` differs from `before` in the place read up to alone,
    /// which is now `next`.
    pub open spec fn has_read_to(&self, before: &Client, next: int) -> bool {
        self.has_moved_to(before, next, before.state())
    }

    /// Whether `self` has the bytes of `before`, has read up to `next`, and
    /// is in the state `state`.
    pub open spec fn has_moved_to(&self, before: &Client, next: int, state: LoginState) -> bool {
        &&& self.inbound() == before.inbound()
        &&& self.cursor() == next
        &&& self.outgoing() == before.outgoing()
        &&& self.state() == state
    }

    /// A session that has received nothing and has nothing to send.
    pub fn new() -> (r: Client)
        ensures
            r.inbound() == Seq::<u8>::empty(),
            r.cursor() == 0,
            r.outgoing() == Seq::<u8>::empty(),
            r.state() == LoginState::Unauthenticated,
    {
        Client {
            inbound: Vec::new(),
            cursor: 0,
            outbound: Vec::new(),
            state: LoginState::Unauthenticated,
        }
    }

    /// How far the login has come.
    pub fn login_state(&self) -> (r: LoginState)
        ensures
            r == self.state(),
    {
        self.state
    }

    /// Takes in bytes that the router sent.
    pub fn receive(&mut self, bytes: &[u8])
        ensures
            final(self).inbound() == old(self).inbound() + bytes@,
            final(self).cursor() == old(self).cursor(),
            final(self).outgoing() == old(self).outgoing(),
            final(self).state() == old(self).state(),
    {
        append_bytes(&mut self.inbound, bytes);
    }

    /// Hands out the bytes that are to be sent, and keeps none of them.
    pub fn take_outgoing(&mut self) -> (r: Vec<u8>)
        ensures
            r@ == old(self).outgoing(),
            final(self).outgoing() == Seq::<u8>::empty(),
            final(self).inbound() == old(self).inbound(),
            final(self).cursor() == old(self).cursor(),
            final(self).state() == old(self).state(),
    {
        let mut out: Vec<u8> = Vec::new();
        core::mem::swap(&mut out, &mut self.outbound);
        out
    }

    /// Whether the bytes received hold a whole reply, or a sentence that
    /// reports a failure, behind those already read.
    pub fn reply_ready(&self) -> (r: bool)
        ensures
            r == !(self.pending_reply() is Short),
    {
        match decode_reply(self.inbound.as_slice(), self.cursor) {
            Reply::Short => false,
            _ => true,
        }
    }

    /// Queues a sentence for sending: each word in order, then the empty
    /// word.
    pub fn write_sentence(&mut self, words: &Vec<Vec<u8>>)
        requires
            encodable(word_views(words@)),
        ensures
            final(self).has_queued(old(self), word_views(words@)),
    {
        encode_sentence(words, &mut self.outbound);
    }

    /// Queues a request, unless it has no words: then nothing is queued and
    /// no reply is to be waited for. Tells whether it queued the request.
    pub fn send_request(&mut self, request: &Vec<Vec<u8>>) -> (sent: bool)
        requires
            encodable(word_views(request@)),
        ensures
            sent == (request@.len() > 0),
            sent ==> final(self).has_queued(old(self), word_views(request@)),
            !sent ==> *final(self) == *old(self),
    {
        if request.len() == 0 {
            false
        } else {
            self.write_sentence(request);
            true
        }
    }

    /// Reads the next sentence from the bytes received. Where they end
    /// before the sentence does, the connection is taken to be closed:
    /// nothing is read and a transport error is returned.
    pub fn read_sentence(&mut self) -> (r: Result<Vec<Vec<u8>>, MikrotikError>)
        ensures
            match spec_decode_sentence(old(self).inbound(), old(self).cursor()) {
                Some((words, next)) => {
                    &&& r is Ok
                    &&& word_views(r->Ok_0@) == words
                    &&& final(self).has_read_to(old(self), next)
                },
                None => {
                    &&& r is Err
                    &&& r->Err_0@ is Io
                    &&& *final(self) == *old(self)
                },
            },
    {
        match decode_sentence(self.inbound.as_slice(), self.cursor) {
            Some((words, next)) => {
                self.cursor = next;
                Ok(words)
            },
            None => Err(MikrotikError::IoError(connection_closed())),
        }
    }

    /// Reads a whole reply from the bytes received: the words of its
    /// sentences, up to and with the sentence that starts with `!done`. A
    /// sentence that reports a failure ends the reading with that failure.
    /// Where the bytes end first, nothing is read and a transport error is
    /// returned.
    pub fn read_all_sentences(&mut self) -> (r: Result<Vec<Vec<u8>>, MikrotikError>)
        ensures
            match old(self).pending_reply() {
                ReplyView::Done(words, next) => {
                    &&& r is Ok
                    &&& word_views(r->Ok_0@) == words
                    &&& final(self).has_read_to(old(self), next)
                },
                ReplyView::Failed(e, next) => {
                    &&& r is Err
                    &&& r->Err_0@ == e
                    &&& final(self).has_read_to(old(self), next)
                },
                ReplyView::Short => {
                    &&& r is Err
                    &&& r->Err_0@ is Io
                    &&& *final(self) == *old(self)
                },
            },
    {
        match decode_reply(self.inbound.as_slice(), self.cursor) {
            Reply::Done(words, next) => {
                self.cursor = next;
                Ok(words)
            },
            Reply::Failed(e, next) => {
                self.cursor = next;
                Err(e)
            },
            Reply::Short => Err(MikrotikError::IoError(connection_closed())),
        }
    }

    /// Opens the handshake: queues the request `/login`.
    pub fn start_login(&mut self)
        ensures
            final(self).has_queued(old(self), spec_login_start()),
    {
        let request = login_start();
        self.write_sentence(&request);
    }

    /// Answers the challenge. Reads the reply to the first request, takes
    /// the challenge from it and queues the second request, which carries
    /// the user's name and the digest of the password with the challenge.
    /// Where the reply is not all there, reports a failure or holds no
    /// valid challenge, the error is returned, nothing is queued, and the
    /// session has failed.
    pub fn login(&mut self, username: &str, pwd: &str) -> (r: Result<(), MikrotikError>)
        requires
            username.spec_bytes().len() + 6 <= MAX_WORD_LEN,
        ensures
            match old(self).pending_reply() {
                ReplyView::Done(words, next) => match spec_login_challenge(words) {
                    Ok(challenge) => {
                        &&& r is Ok
                        &&& final(self).inbound() == old(self).inbound()
                        &&& final(self).cursor() == next
                        &&& final(self).state() == old(self).state()
                        &&& final(self).outgoing() == old(self).outgoing() + spec_encode_sentence(
                            spec_login_request(
                                username.spec_bytes(),
                                md5_hex(digest_input(pwd.spec_bytes(), challenge)),
                            ),
                        )
                    },
                    Err(x) => {
                        &&& r is Err
                        &&& r->Err_0@ == ErrorView::Unhexlify(x)
                        &&& final(self).has_moved_to(old(self), next, LoginState::Failed)
                    },
                },
                ReplyView::Failed(e, next) => {
                    &&& r is Err
                    &&& r->Err_0@ == e
                    &&& final(self).has_moved_to(old(self), next, LoginState::Failed)
                },
                ReplyView::Short => {
                    &&& r is Err
                    &&& r->Err_0@ is Io
                    &&& final(self).has_moved_to(old(self), old(self).cursor(), LoginState::Failed)
                },
            },
    {
        let reply = match self.read_all_sentences() {
            Ok(reply) => reply,
            Err(e) => {
                self.state = LoginState::Failed;
                return Err(e);
            },
        };
        let challenge = match login_challenge(&reply) {
            Ok(challenge) => challenge,
            Err(e) => {
                self.state = LoginState::Failed;
                return Err(e);
            },
        };
        let request = login_response(username, pwd, challenge.as_slice());
        self.write_sentence(&request);
        Ok(())
    }

    /// Ends the handshake. Reads the reply to the second request: one that
    /// reports no failure makes the session authenticated; a failure, or
    /// a reply that is not all there, makes it failed and is returned.
    pub fn finish_login(&mut self) -> (r: Result<(), MikrotikError>)
        ensures
            match old(self).pending_reply() {
                ReplyView::Done(words, next) => {
                    &&& r is Ok
                    &&& final(self).has_moved_to(old(self), next, LoginState::Authenticated)
                },
                ReplyView::Failed(e, next) => {
                    &&& r is Err
                    &&& r->Err_0@ == e
                    &&& final(self).has_moved_to(old(self), next, LoginState::Failed)
                },
                ReplyView::Short => {
                    &&& r is Err
                    &&& r->Err_0@ is Io
                    &&& final(self).has_moved_to(old(self), old(self).cursor(), LoginState::Failed)
                },
            },
    {
        match self.read_all_sentences() {
            Ok(_) => {
                self.state = LoginState::Authenticated;
                Ok(())
            },
            Err(e) => {
                self.state = LoginState::Failed;
                Err(e)
            },
        }
    }

    /// Queues the command that lists the firewall's address lists.
    pub fn request_address_list(&mut self)
        ensures
            final(self).has_queued(old(self), spec_address_list_request()),
    {
        proof {
            reveal_strlit("/ip/firewall/address-list/print");
        }
        let mut request: Vec<Vec<u8>> = Vec::new();
        request.push(bytes_of("/ip/firewall/address-list/print"));
        assert(word_views(request@) =~= spec_address_list_request());
        self.write_sentence(&request);
    }

    /// Reads the reply to `request_address_list` into address-list entries.
    pub fn get_address_list(&mut self) -> (r: Result<Vec<models::IPAddress>, MikrotikError>)
        ensures
            match old(self).pending_reply() {
                ReplyView::Done(words, next) => {
                    &&& r is Ok
                    &&& address_rows(r->Ok_0@) == spec_to_records(words, address_fields())
                    &&& final(self).has_read_to(old(self), next)
                },
                ReplyView::Failed(e, next) => {
                    &&& r is Err
                    &&& r->Err_0@ == e
                    &&& final(self).has_read_to(old(self), next)
                },
                ReplyView::Short => {
                    &&& r is Err
                    &&& r->Err_0@ is Io
                    &&& *final(self) == *old(self)
                },
            },
    {
        match self.read_all_sentences() {
            Ok(reply) => Ok(address_list(&reply)),
            Err(e) => Err(e),
        }
    }

    /// Queues the command that lists the simple queues.
    pub fn request_queue_list(&mut self)
        ensures
            final(self).has_queued(old(self), spec_queue_list_request()),
    {
        proof {
            reveal_strlit("/queue/simple/print");
        }
        let mut request: Vec<Vec<u8>> = Vec::new();
        request.push(bytes_of("/queue/simple/print"));
        assert(word_views(request@) =~= spec_queue_list_request());
        self.write_sentence(&request);
    }

    /// Reads the reply to `request_queue_list` into queues.
    pub fn get_queue_list(&mut self) -> (r: Result<Vec<models::Client>, MikrotikError>)
        ensures
            match old(self).pending_reply() {
                ReplyView::Done(words, next) => {
                    &&& r is Ok
                    &&& queue_rows(r->Ok_0@) == spec_to_records(words, queue_fields())
                    &&& final(self).has_read_to(old(self), next)
                },
                ReplyView::Failed(e, next) => {
                    &&& r is Err
                    &&& r->Err_0@ == e
                    &&& final(self).has_read_to(old(self), next)
                },
                ReplyView::Short => {
                    &&& r is Err
                    &&& r->Err_0@ is Io
                    &&& *final(self) == *old(self)
                },
            },
    {
        match self.read_all_sentences() {
            Ok(reply) => Ok(queue_list(&reply)),
            Err(e) => Err(e),
        }
    }
}

} // verus!
