//! The protocol service: which replies a request's messages are owed.
//!
//! Each decoded message is dispatched by its command, compared
//! case-insensitively.  `CAP` with first parameter `LS` earns the
//! capability-list reply; `CAP` with any other subcommand, `NICK` and
//! `USER` — recognized placeholders — and every unknown command earn
//! none.  Unknown or malformed units are answered with silence, never
//! with an error reply and never with a failure.  Writing the encoded
//! replies back to the transport is the caller's business: the service
//! hands back the reply sequence as plain values.

use crate::codec::{encode_msg, msg_views, str_views, Message, MessageModel};
use crate::request::{spec_messages, Request};
use std::sync::Arc;
use vstd::prelude::*;

verus! {

/// The case-folded image of a character sequence, as `str::to_uppercase`
/// computes it.
pub uninterp spec fn upper_of(s: Seq<char>) -> Seq<char>;

/// Relies on `str::to_uppercase`: the result depends on the characters
/// alone, so the same string folds the same way in every call.
#[verifier::external_body]
fn to_upper(s: &str) -> (r: String)
    ensures
        r@ == upper_of(s@),
{
    s.to_uppercase()
}

/// The one reply the service currently produces: the capability-list
/// reply with an empty capability set.
pub open spec fn cap_reply() -> MessageModel {
    MessageModel { command: "CAP"@, parameters: seq!["*"@, "LS"@, ""@] }
}

/// The replies one message is owed: the capability-list reply for `CAP`
/// with first parameter `LS`, both case-insensitively; nothing for `CAP`
/// with any other or no subcommand, for the `NICK` and `USER`
/// placeholders, and for every unknown command.
pub open spec fn reply_for(m: MessageModel) -> Seq<MessageModel> {
    if upper_of(m.command) == "CAP"@ {
        if m.parameters.len() > 0 && upper_of(m.parameters[0]) == "LS"@ {
            seq![cap_reply()]
        } else {
            Seq::empty()
        }
    } else {
        Seq::empty()
    }
}

/// The replies a message sequence is owed, in arrival order.
pub open spec fn replies_for_msgs(ms: Seq<MessageModel>) -> Seq<MessageModel>
    decreases ms.len(),
{
    if ms.len() == 0 {
        Seq::empty()
    } else {
        reply_for(ms[0]) + replies_for_msgs(ms.drop_first())
    }
}

/// The encodings of a message sequence, one wire line each.
pub open spec fn encoded_all(ms: Seq<MessageModel>) -> Seq<Seq<char>> {
    ms.map_values(|m: MessageModel| encode_msg(m))
}

/// The ordered replies produced for one request; transient, alive for
/// one reply cycle.
pub struct Reply {
    messages: Vec<Message>,
}

impl View for Reply {
    type V = Seq<MessageModel>;

    closed spec fn view(&self) -> Seq<MessageModel> {
        msg_views(self.messages@)
    }
}

impl Reply {
    /// An empty reply.
    pub fn new() -> (r: Reply)
        ensures
            r@ == Seq::<MessageModel>::empty(),
    {
        let r = Reply { messages: Vec::new() };
        proof {
            assert(r@ =~= Seq::<MessageModel>::empty());
        }
        r
    }

    /// Appends one message to the reply.
    pub fn add_message(&mut self, m: Message)
        ensures
            final(self)@ == old(self)@.push(m@),
    {
        let ghost prev = self@;
        let ghost mv = m@;
        self.messages.push(m);
        proof {
            assert(msg_views(self.messages@) =~= prev.push(mv));
        }
    }

    /// Appends every message of `other`, keeping order.
    pub fn append(&mut self, other: Reply)
        ensures
            final(self)@ == old(self)@ + other@,
    {
        let ghost prev = self@;
        let ghost ov = other@;
        let mut other = other;
        self.messages.append(&mut other.messages);
        proof {
            assert(msg_views(self.messages@) =~= prev + ov);
        }
    }

    /// The reply messages, in generation order.
    pub fn messages(&self) -> (r: &Vec<Message>)
        ensures
            msg_views(r@) == self@,
    {
        &self.messages
    }

    /// Each reply message encoded as one wire line, in generation order.
    pub fn strings(&self) -> (r: Vec<String>)
        ensures
            str_views(r@) == encoded_all(self@),
    {
        let n = self.messages.len();
        let mut out: Vec<String> = Vec::new();
        let mut i: usize = 0;
        while i < n
            invariant
                i <= n,
                n == self.messages@.len(),
                out@.len() == i,
                forall|j: int| 0 <= j < i ==> out@[j]@ == encode_msg(msg_views(self.messages@)[j]),
            decreases n - i,
        {
            let line = self.messages[i].string();
            out.push(line);
            i = i + 1;
        }
        proof {
            assert(str_views(out@) =~= encoded_all(self@));
        }
        out
    }

    /// Whether the reply holds no message.
    pub fn is_empty(&self) -> (r: bool)
        ensures
            r == (self@.len() == 0),
    {
        self.messages.len() == 0
    }
}

/// The reply service.  It holds no state: every answer is a function of
/// the message alone.
pub struct Service {}

impl Service {
    /// The reply owed to a `CAP` message: the capability-list reply when
    /// the first parameter is `LS`, compared case-insensitively; none
    /// for any other subcommand.  A `CAP` without parameters is a
    /// malformed unit and degrades to no reply.
    pub fn reply_cap(&self, _id: String, message: &Message) -> (r: Option<Reply>)
        ensures
            (r is Some) == (message@.parameters.len() > 0 && upper_of(message@.parameters[0])
                == "LS"@),
            r matches Some(rep) ==> rep@ == seq![cap_reply()],
    {
        let params = message.parameters();
        if params.len() == 0 {
            return None;
        }
        let up = to_upper(params[0].as_str());
        proof {
            assert(params@[0]@ == message@.parameters[0]);
        }
        if up == String::from_str("LS") {
            let mut m = Message::new();
            m.set_command("CAP");
            m.add_parameter("*");
            m.add_parameter("LS");
            m.add_parameter("");
            proof {
                assert(m@.parameters =~= seq!["*"@, "LS"@, ""@]);
                assert(m@ =~= cap_reply());
            }
            let mut rep = Reply::new();
            rep.add_message(m);
            proof {
                assert(rep@ =~= seq![cap_reply()]);
            }
            Some(rep)
        } else {
            None
        }
    }

    /// The reply owed to a `NICK` message: none yet — a placeholder that
    /// stays in the dispatch mapping.
    pub fn reply_nick(&self, _id: String, _message: &Message) -> (r: Option<Reply>)
        ensures
            r is None,
    {
        None
    }

    /// The reply owed to a `USER` message: none yet — a placeholder that
    /// stays in the dispatch mapping.
    pub fn reply_user(&self, _id: String, _message: &Message) -> (r: Option<Reply>)
        ensures
            r is None,
    {
        None
    }

    /// The replies owed to every message of the request, in arrival
    /// order.  The caller writes them to the transport; this function
    /// only decides them.
    pub fn replies_for(&self, id: &str, request: &mut Request) -> (r: Reply)
        requires
            old(request).wf(),
        ensures
            final(request).wf(),
            final(request)@ == old(request)@,
            r@ == replies_for_msgs(spec_messages(old(request)@)),
    {
        let mut replies = Reply::new();
        let msgs = request.messages();
        let ghost ms = msg_views(msgs@);
        let n = msgs.len();
        let mut i: usize = 0;
        proof {
            assert(ms.skip(0) =~= ms);
            assert(replies@ + replies_for_msgs(ms) =~= replies_for_msgs(ms));
        }
        while i < n
            invariant
                i <= n,
                n == msgs@.len(),
                ms == msg_views(msgs@),
                replies@ + replies_for_msgs(ms.skip(i as int)) == replies_for_msgs(ms),
            decreases n - i,
        {
            let ghost rest = ms.skip(i as int);
            proof {
                assert(rest[0] == ms[i as int]);
                assert(rest.drop_first() =~= ms.skip(i as int + 1));
            }
            let m = &msgs[i];
            proof {
                assert(m@ == ms[i as int]);
            }
            let up = to_upper(m.command().as_str());
            let reply = if up == String::from_str("CAP") {
                self.reply_cap(id.to_owned(), m)
            } else if up == String::from_str("NICK") {
                self.reply_nick(id.to_owned(), m)
            } else if up == String::from_str("USER") {
                self.reply_user(id.to_owned(), m)
            } else {
                None
            };
            let ghost prev = replies@;
            match reply {
                Some(rep) => {
                    let ghost rv = rep@;
                    replies.append(rep);
                    proof {
                        assert(replies@ =~= prev + rv);
                        assert(prev + reply_for(ms[i as int]) + replies_for_msgs(
                            ms.skip(i as int + 1),
                        ) =~= prev + (reply_for(ms[i as int]) + replies_for_msgs(
                            ms.skip(i as int + 1),
                        )));
                    }
                },
                None => {
                    proof {
                        assert(reply_for(ms[i as int]) =~= Seq::<MessageModel>::empty());
                        assert(prev + reply_for(ms[i as int]) =~= prev);
                    }
                },
            }
            i = i + 1;
        }
        proof {
            assert(ms.skip(n as int) =~= Seq::<MessageModel>::empty());
            assert(replies@ + Seq::<MessageModel>::empty() =~= replies@);
        }
        replies
    }

    /// A fresh service behind a shared handle, ready for the workers.
    pub fn new() -> (r: Arc<Service>)
    {
        Arc::new(Service {  })
    }
}

} // verus!
