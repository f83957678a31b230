//! One protocol request: the bytes of one physical read and what they
//! decode to.
//!
//! A request owns one fixed-capacity byte buffer.  Its `size` is the
//! count of bytes before the first zero byte, computed once and cached —
//! sound only because the wire protocol guarantees payloads free of NUL
//! bytes.  A request is `valid` when that prefix is longer than two bytes
//! and ends in CR, LF.  Its `messages` are the decoded string split on
//! CRLF, each non-empty segment parsed into a [`Message`], computed once
//! and cached.  Bytes that are not valid UTF-8 degrade to an empty
//! string, hence to no messages — malformed input never panics.

use crate::codec::{chars_to_string, msg_views, parse_msg, str_chars, Message, MessageModel};
use vstd::prelude::*;

verus! {

/// The capacity of one read buffer, in bytes.
pub const BUFFER_SIZE: usize = 512;

/// The carriage-return byte.
pub const CR: u8 = 13;

/// The line-feed byte.
pub const LF: u8 = 10;

/// The index of the first zero byte at or after `i`, or the length when
/// every byte from `i` on is non-zero.
pub open spec fn first_zero_from(d: Seq<u8>, i: int) -> int
    decreases d.len() - i,
{
    if i < 0 || i >= d.len() {
        i
    } else if d[i] == 0 {
        i
    } else {
        first_zero_from(d, i + 1)
    }
}

/// The size of a request buffer: the count of bytes before its first
/// zero byte.
pub open spec fn spec_size(d: Seq<u8>) -> int {
    first_zero_from(d, 0)
}

/// A request is valid when its sized prefix is longer than two bytes and
/// ends in CR, LF.
pub open spec fn spec_valid(d: Seq<u8>) -> bool {
    spec_size(d) > 2 && d[spec_size(d) - 1] == LF && d[spec_size(d) - 2] == CR
}

/// The characters of the sized prefix, decoded as UTF-8; bytes that are
/// not valid UTF-8 degrade to the empty sequence.
pub open spec fn spec_chars(d: Seq<u8>) -> Seq<char> {
    let prefix = d.take(spec_size(d));
    if vstd::utf8::valid_utf8(prefix) {
        vstd::utf8::decode_utf8(prefix)
    } else {
        Seq::empty()
    }
}

/// Splitting on CRLF, written as the scanner it is: `s` is the input
/// still to read, `buf` the segment being built, `acc` the segments
/// already finished.
pub open spec fn split_rec(s: Seq<char>, buf: Seq<char>, acc: Seq<Seq<char>>) -> Seq<Seq<char>>
    decreases s.len(),
{
    if s.len() == 0 {
        acc.push(buf)
    } else if s.len() >= 2 && s[0] == '\r' && s[1] == '\n' {
        split_rec(s.skip(2), Seq::empty(), acc.push(buf))
    } else {
        split_rec(s.drop_first(), buf.push(s[0]), acc)
    }
}

/// The segments of `s` between CRLF separators, in order.
pub open spec fn split_crlf(s: Seq<char>) -> Seq<Seq<char>> {
    split_rec(s, Seq::empty(), Seq::empty())
}

/// The messages parsed from the non-empty segments, in order.
pub open spec fn msgs_of_segs(segs: Seq<Seq<char>>) -> Seq<MessageModel>
    decreases segs.len(),
{
    if segs.len() == 0 {
        Seq::empty()
    } else if segs[0].len() == 0 {
        msgs_of_segs(segs.drop_first())
    } else {
        seq![parse_msg(segs[0])] + msgs_of_segs(segs.drop_first())
    }
}

/// The messages of a request buffer: its decoded characters split on
/// CRLF, each non-empty segment parsed.
pub open spec fn spec_messages(d: Seq<u8>) -> Seq<MessageModel> {
    msgs_of_segs(split_crlf(spec_chars(d)))
}

/// The views of a sequence of character vectors.
pub open spec fn seg_views(vs: Seq<Vec<char>>) -> Seq<Seq<char>> {
    vs.map_values(|v: Vec<char>| v@)
}

/// The first zero byte lies between `i` and the buffer's length.
pub proof fn lemma_first_zero_bounds(d: Seq<u8>, i: int)
    requires
        0 <= i <= d.len(),
    ensures
        i <= first_zero_from(d, i) <= d.len(),
    decreases d.len() - i,
{
    if i < d.len() && d[i] != 0 {
        lemma_first_zero_bounds(d, i + 1);
    }
}

/// A buffer whose first byte is zero — the all-zero buffer of a fresh
/// request among them — has size zero and is not valid.
pub proof fn lemma_zero_buffer_not_valid(d: Seq<u8>)
    requires
        d.len() == 0 || d[0] == 0,
    ensures
        spec_size(d) == 0,
        !spec_valid(d),
{
}

/// Relies on `std::str::from_utf8`: it accepts exactly the byte
/// sequences that are valid UTF-8 and yields their decoded characters.
#[verifier::external_body]
fn utf8_to_string(bytes: &[u8]) -> (r: Option<String>)
    ensures
        r is Some <==> vstd::utf8::valid_utf8(bytes@),
        r matches Some(s) ==> s@ == vstd::utf8::decode_utf8(bytes@),
{
    match std::str::from_utf8(bytes) {
        Ok(s) => Some(s.to_owned()),
        Err(_) => None,
    }
}

/// A zeroed buffer of `BUFFER_SIZE` bytes.
fn zero_buffer() -> (v: Vec<u8>)
    ensures
        v@ == Seq::new(BUFFER_SIZE as nat, |i: int| 0u8),
{
    let mut v: Vec<u8> = Vec::new();
    let mut i: usize = 0;
    while i < BUFFER_SIZE
        invariant
            i <= BUFFER_SIZE,
            v@.len() == i,
            forall|j: int| 0 <= j < i ==> v@[j] == 0u8,
        decreases BUFFER_SIZE - i,
    {
        v.push(0u8);
        i = i + 1;
    }
    proof {
        assert(v@ =~= Seq::new(BUFFER_SIZE as nat, |i: int| 0u8));
    }
    v
}

/// The raw bytes of one physical read, with the byte count and the
/// decoded messages derived lazily and cached.
pub struct Request {
    data: Vec<u8>,
    messages: Vec<Message>,
    size: usize,
}

impl View for Request {
    type V = Seq<u8>;

    closed spec fn view(&self) -> Seq<u8> {
        self.data@
    }
}

impl Request {
    /// The caches are either untouched or agree with the buffer.
    pub closed spec fn wf(&self) -> bool {
        &&& self.data@.len() == BUFFER_SIZE
        &&& self.size == 0 || self.size as int == spec_size(self.data@)
        &&& self.messages@.len() == 0 || msg_views(self.messages@) == spec_messages(self.data@)
    }

    /// The cached messages, for stating what a call leaves untouched.
    pub closed spec fn msgs_cache(&self) -> Seq<Message> {
        self.messages@
    }

    /// A fresh request: a zeroed buffer, nothing derived yet.
    pub fn new() -> (r: Request)
        ensures
            r.wf(),
            r@ == Seq::new(BUFFER_SIZE as nat, |i: int| 0u8),
    {
        Request { data: zero_buffer(), messages: Vec::new(), size: 0 }
    }

    /// Resets the buffer to all zeroes and drops everything derived.
    pub fn clear_data(&mut self)
        ensures
            final(self).wf(),
            final(self)@ == Seq::new(BUFFER_SIZE as nat, |i: int| 0u8),
    {
        self.data = zero_buffer();
        self.messages.clear();
        self.size = 0;
    }

    /// The raw buffer.
    pub fn data(&self) -> (r: &Vec<u8>)
        ensures
            r@ == self@,
    {
        &self.data
    }

    /// Replaces the buffer with the bytes of one read and drops
    /// everything derived from the old bytes.
    pub fn set_data(&mut self, d: Vec<u8>)
        requires
            d@.len() == BUFFER_SIZE,
        ensures
            final(self).wf(),
            final(self)@ == d@,
    {
        self.data = d;
        self.messages.clear();
        self.size = 0;
    }

    /// The count of bytes before the first zero byte, computed on first
    /// use and cached.
    pub fn size(&mut self) -> (r: usize)
        requires
            old(self).wf(),
        ensures
            final(self).wf(),
            final(self)@ == old(self)@,
            final(self).msgs_cache() == old(self).msgs_cache(),
            r as int == spec_size(old(self)@),
    {
        if self.size == 0 {
            let ghost d = self.data@;
            let n = self.data.len();
            let mut i: usize = 0;
            while i < n && self.data[i] != 0
                invariant
                    i <= n,
                    n == d.len(),
                    d == self.data@,
                    spec_size(d) == first_zero_from(d, i as int),
                decreases n - i,
            {
                i = i + 1;
            }
            self.size = i;
        }
        self.size
    }

    /// Whether the sized prefix is longer than two bytes and ends in
    /// CR, LF.  An all-zero buffer has size zero and is never valid.
    pub fn valid(&mut self) -> (r: bool)
        requires
            old(self).wf(),
        ensures
            final(self).wf(),
            final(self)@ == old(self)@,
            final(self).msgs_cache() == old(self).msgs_cache(),
            r == spec_valid(old(self)@),
    {
        let size = self.size();
        proof {
            lemma_first_zero_bounds(self.data@, 0);
        }
        if size > 2 && self.data[size - 1] == LF && self.data[size - 2] == CR {
            true
        } else {
            false
        }
    }

    /// The sized prefix decoded as UTF-8; bytes that are not valid UTF-8
    /// degrade to the empty string rather than failing.
    pub fn string(&mut self) -> (r: String)
        requires
            old(self).wf(),
        ensures
            final(self).wf(),
            final(self)@ == old(self)@,
            final(self).msgs_cache() == old(self).msgs_cache(),
            r@ == spec_chars(old(self)@),
    {
        let size = self.size();
        proof {
            lemma_first_zero_bounds(self.data@, 0);
        }
        let prefix = vstd::slice::slice_subrange(self.data.as_slice(), 0, size);
        proof {
            assert(prefix@ =~= self.data@.take(spec_size(self.data@)));
        }
        match utf8_to_string(prefix) {
            Some(s) => s,
            None => String::new(),
        }
    }

    /// The decoded messages of the request, in arrival order: the
    /// decoded string split on CRLF, each non-empty segment parsed.
    /// Computed on first use and cached.
    pub fn messages(&mut self) -> (r: &Vec<Message>)
        requires
            old(self).wf(),
        ensures
            final(self).wf(),
            final(self)@ == old(self)@,
            msg_views(r@) == spec_messages(old(self)@),
    {
        if self.messages.len() == 0 {
            let ghost d = self.data@;
            let s = self.string();
            let chars = str_chars(s.as_str());
            let segs = split_crlf_exec(&chars);
            let ghost segv = seg_views(segs@);
            let ghost size0 = self.size;
            let n = segs.len();
            let mut i: usize = 0;
            proof {
                assert(segv.skip(0) =~= segv);
                assert(msg_views(self.messages@) =~= Seq::<MessageModel>::empty());
            }
            while i < n
                invariant
                    i <= n,
                    n == segv.len(),
                    segv == seg_views(segs@),
                    self.data@ == d,
                    self.size == size0,
                    size0 == 0 || size0 as int == spec_size(d),
                    d.len() == BUFFER_SIZE,
                    msg_views(self.messages@) + msgs_of_segs(segv.skip(i as int)) == msgs_of_segs(
                        segv,
                    ),
                decreases n - i,
            {
                let ghost rest = segv.skip(i as int);
                proof {
                    assert(rest[0] == segv[i as int]);
                    assert(rest.drop_first() =~= segv.skip(i as int + 1));
                }
                let seg = &segs[i];
                if seg.len() > 0 {
                    let ghost prev = msg_views(self.messages@);
                    let line = chars_to_string(seg);
                    let m = Message::from_string(line);
                    let ghost mv = m@;
                    self.messages.push(m);
                    proof {
                        assert(msg_views(self.messages@) =~= prev.push(mv));
                        assert(prev.push(mv) + msgs_of_segs(segv.skip(i as int + 1)) =~= prev + (
                        seq![mv] + msgs_of_segs(segv.skip(i as int + 1))));
                    }
                }
                i = i + 1;
            }
            proof {
                assert(segv.skip(n as int) =~= Seq::<Seq<char>>::empty());
                assert(msg_views(self.messages@) + Seq::<MessageModel>::empty() =~= msg_views(
                    self.messages@,
                ));
            }
        }
        &self.messages
    }
}

/// A fresh request, exactly as [`Request::new`] builds one.
pub fn new() -> (r: Request)
    ensures
        r.wf(),
        r@ == Seq::new(BUFFER_SIZE as nat, |i: int| 0u8),
{
    Request::new()
}

/// Splits a character sequence on CRLF, keeping empty segments.
fn split_crlf_exec(chars: &Vec<char>) -> (r: Vec<Vec<char>>)
    ensures
        seg_views(r@) == split_crlf(chars@),
{
    let n = chars.len();
    let mut acc: Vec<Vec<char>> = Vec::new();
    let mut buf: Vec<char> = Vec::new();
    let mut i: usize = 0;
    proof {
        assert(chars@.skip(0) =~= chars@);
        assert(seg_views(acc@) =~= Seq::<Seq<char>>::empty());
    }
    while i < n
        invariant
            i <= n,
            n == chars@.len(),
            split_crlf(chars@) == split_rec(chars@.skip(i as int), buf@, seg_views(acc@)),
        decreases n - i,
    {
        let ghost rest = chars@.skip(i as int);
        proof {
            assert(rest[0] == chars@[i as int]);
            if i as int + 1 < n {
                assert(rest[1] == chars@[i as int + 1]);
            }
            assert(rest.drop_first() =~= chars@.skip(i as int + 1));
            if i as int + 2 <= n {
                assert(rest.skip(2) =~= chars@.skip(i as int + 2));
            }
        }
        if chars[i] == '\r' && i + 1 < n && chars[i + 1] == '\n' {
            let ghost prev = seg_views(acc@);
            let ghost finished = buf@;
            acc.push(buf);
            buf = Vec::new();
            proof {
                assert(seg_views(acc@) =~= prev.push(finished));
            }
            i = i + 2;
        } else {
            buf.push(chars[i]);
            i = i + 1;
        }
    }
    proof {
        assert(chars@.skip(n as int) =~= Seq::<char>::empty());
    }
    let ghost prev = seg_views(acc@);
    let ghost finished = buf@;
    acc.push(buf);
    proof {
        assert(seg_views(acc@) =~= prev.push(finished));
    }
    acc
}

} // verus!
