//! The message codec: one wire line against one command with its parameters.
//!
//! Decoding scans a line left to right.  A space outside trailing-capture
//! mode ends the current token; a colon outside trailing-capture mode
//! switches into that mode, after which every remaining character, spaces
//! included, goes verbatim into the final token.  The first token is the
//! command, the rest are the parameters.  Encoding emits the command and
//! then each parameter behind a space, except that the first parameter
//! holding a space is emitted behind a colon and ends the line: later
//! parameters are dropped.  That truncation is a documented quirk of the
//! protocol, kept here on purpose.

use vstd::prelude::*;

verus! {

/// The mathematical value of one protocol message: a command and an
/// ordered sequence of parameters, each a sequence of characters.
#[verifier::ext_equal]
pub ghost struct MessageModel {
    pub command: Seq<char>,
    pub parameters: Seq<Seq<char>>,
}

/// True when some character of `s` is a space.
pub open spec fn has_space(s: Seq<char>) -> bool {
    exists|i: int| 0 <= i < s.len() && s[i] == ' '
}

/// True when some character of `s` is a colon.
pub open spec fn has_colon(s: Seq<char>) -> bool {
    exists|i: int| 0 <= i < s.len() && s[i] == ':'
}

/// The decoder, written as the scanner it is: `s` is the input still to
/// read, `buf` the token being built, `toks` the tokens already finished,
/// and `trailing` whether a colon has switched the scan into
/// trailing-capture mode.  The result is the finished token sequence.
pub open spec fn scan_tokens(
    s: Seq<char>,
    buf: Seq<char>,
    toks: Seq<Seq<char>>,
    trailing: bool,
) -> Seq<Seq<char>>
    decreases s.len(),
{
    if s.len() == 0 {
        toks.push(buf)
    } else if s[0] == ' ' && !trailing {
        scan_tokens(s.drop_first(), Seq::empty(), toks.push(buf), trailing)
    } else if s[0] == ':' && !trailing {
        scan_tokens(s.drop_first(), buf, toks, true)
    } else {
        scan_tokens(s.drop_first(), buf.push(s[0]), toks, trailing)
    }
}

/// The tokens of one line.  An empty line yields one empty token.
pub open spec fn tokens_of(s: Seq<char>) -> Seq<Seq<char>> {
    scan_tokens(s, Seq::empty(), Seq::empty(), false)
}

/// The message decoded from one line: the first token as the command,
/// the remaining tokens as the parameters.
pub open spec fn parse_msg(s: Seq<char>) -> MessageModel {
    MessageModel { command: tokens_of(s)[0], parameters: tokens_of(s).drop_first() }
}

/// The scan keeps every token already finished and always closes the one
/// being built, so its result strictly extends `toks`.
proof fn lemma_scan_tokens_extends(
    s: Seq<char>,
    buf: Seq<char>,
    toks: Seq<Seq<char>>,
    trailing: bool,
)
    ensures
        scan_tokens(s, buf, toks, trailing).len() > toks.len(),
        scan_tokens(s, buf, toks, trailing).subrange(0, toks.len() as int) == toks,
    decreases s.len(),
{
    if s.len() == 0 {
        assert(toks.push(buf).subrange(0, toks.len() as int) =~= toks);
    } else if s[0] == ' ' && !trailing {
        lemma_scan_tokens_extends(s.drop_first(), Seq::empty(), toks.push(buf), trailing);
        let r = scan_tokens(s, buf, toks, trailing);
        assert(r.subrange(0, (toks.len() + 1) as int).subrange(0, toks.len() as int) =~= r
            .subrange(0, toks.len() as int));
        assert(toks.push(buf).subrange(0, toks.len() as int) =~= toks);
    } else if s[0] == ':' && !trailing {
        lemma_scan_tokens_extends(s.drop_first(), buf, toks, true);
    } else {
        lemma_scan_tokens_extends(s.drop_first(), buf.push(s[0]), toks, trailing);
    }
}

/// The encoding of the parameters from index `i` on: each behind one
/// space, until the first parameter holding a space, which is emitted
/// behind a colon and ends the encoding — parameters after it are
/// dropped.  That truncation is the documented quirk of the wire format.
pub open spec fn encode_params_from(ps: Seq<Seq<char>>, i: int) -> Seq<char>
    decreases ps.len() - i,
{
    if i < 0 || i >= ps.len() {
        Seq::empty()
    } else if has_space(ps[i]) {
        seq![' ', ':'] + ps[i]
    } else {
        seq![' '] + ps[i] + encode_params_from(ps, i + 1)
    }
}

/// The body of the encoded line, before the terminating CR, LF.
pub open spec fn encode_body(m: MessageModel) -> Seq<char> {
    m.command + encode_params_from(m.parameters, 0)
}

/// The full encoded line: the body with the terminating CR, LF.
pub open spec fn encode_msg(m: MessageModel) -> Seq<char> {
    encode_body(m) + seq!['\r', '\n']
}

/// A token the scanner reads back unchanged: no space, which would end
/// it, and no colon, which would switch the scan into trailing capture.
pub open spec fn plain_token(t: Seq<char>) -> bool {
    !has_space(t) && !has_colon(t)
}

/// Scanning a plain token moves it whole into the buffer.
proof fn lemma_scan_plain(t: Seq<char>, rest: Seq<char>, buf: Seq<char>, toks: Seq<Seq<char>>)
    requires
        plain_token(t),
    ensures
        scan_tokens(t + rest, buf, toks, false) == scan_tokens(rest, buf + t, toks, false),
    decreases t.len(),
{
    if t.len() == 0 {
        assert(t + rest =~= rest);
        assert(buf + t =~= buf);
    } else {
        let s = t + rest;
        assert(s[0] == t[0]);
        assert(t[0] != ' ') by {
            if t[0] == ' ' {
                assert(has_space(t));
            }
        }
        assert(t[0] != ':') by {
            if t[0] == ':' {
                assert(has_colon(t));
            }
        }
        assert(s.drop_first() =~= t.drop_first() + rest);
        assert(plain_token(t.drop_first())) by {
            if has_space(t.drop_first()) {
                let i = choose|i: int|
                    0 <= i < t.drop_first().len() && t.drop_first()[i] == ' ';
                assert(t[i + 1] == ' ');
                assert(has_space(t));
            }
            if has_colon(t.drop_first()) {
                let i = choose|i: int|
                    0 <= i < t.drop_first().len() && t.drop_first()[i] == ':';
                assert(t[i + 1] == ':');
                assert(has_colon(t));
            }
        }
        lemma_scan_plain(t.drop_first(), rest, buf.push(t[0]), toks);
        assert(buf.push(t[0]) + t.drop_first() =~= buf + t);
    }
}

/// In trailing-capture mode the scan takes everything left verbatim.
proof fn lemma_scan_trailing(s: Seq<char>, buf: Seq<char>, toks: Seq<Seq<char>>)
    ensures
        scan_tokens(s, buf, toks, true) == toks.push(buf + s),
    decreases s.len(),
{
    if s.len() == 0 {
        assert(buf + s =~= buf);
    } else {
        lemma_scan_trailing(s.drop_first(), buf.push(s[0]), toks);
        assert(buf.push(s[0]) + s.drop_first() =~= buf + s);
    }
}

/// Scanning the encoded parameters from index `i` on, with the previous
/// token still in the buffer, recovers that token and the parameters.
proof fn lemma_scan_encoded_params(
    ps: Seq<Seq<char>>,
    i: int,
    buf: Seq<char>,
    toks: Seq<Seq<char>>,
)
    requires
        0 <= i <= ps.len(),
        forall|j: int| i <= j < ps.len() - 1 ==> plain_token(ps[j]),
        i < ps.len() ==> has_space(ps[ps.len() - 1]) || plain_token(ps[ps.len() - 1]),
    ensures
        scan_tokens(encode_params_from(ps, i), buf, toks, false) == toks.push(buf) + ps.skip(i),
    decreases ps.len() - i,
{
    if i == ps.len() {
        assert(encode_params_from(ps, i) =~= Seq::<char>::empty());
        assert(ps.skip(i) =~= Seq::<Seq<char>>::empty());
        assert(toks.push(buf) + ps.skip(i) =~= toks.push(buf));
    } else if has_space(ps[i]) {
        assert(i == ps.len() - 1);
        let enc = encode_params_from(ps, i);
        assert(enc == seq![' ', ':'] + ps[i]);
        assert(enc.len() > 0 && enc[0] == ' ');
        assert(scan_tokens(enc, buf, toks, false) == scan_tokens(
            enc.drop_first(),
            Seq::empty(),
            toks.push(buf),
            false,
        ));
        assert(enc.drop_first() =~= seq![':'] + ps[i]);
        let rest = seq![':'] + ps[i];
        assert(rest.len() > 0 && rest[0] == ':');
        assert(scan_tokens(rest, Seq::empty(), toks.push(buf), false) == scan_tokens(
            rest.drop_first(),
            Seq::empty(),
            toks.push(buf),
            true,
        ));
        assert(rest.drop_first() =~= ps[i]);
        lemma_scan_trailing(ps[i], Seq::empty(), toks.push(buf));
        assert(Seq::<char>::empty() + ps[i] =~= ps[i]);
        assert(ps.skip(i) =~= seq![ps[i]]);
        assert(toks.push(buf).push(ps[i]) =~= toks.push(buf) + ps.skip(i));
    } else {
        assert(plain_token(ps[i])) by {
            if i < ps.len() - 1 {
            } else {
                assert(i == ps.len() - 1);
            }
        }
        let enc = encode_params_from(ps, i);
        let tail = encode_params_from(ps, i + 1);
        assert(enc == seq![' '] + ps[i] + tail);
        assert(enc.len() > 0) by {
            assert(enc[0] == (seq![' '] + ps[i])[0]);
        }
        assert(enc[0] == ' ') by {
            assert((seq![' '] + ps[i] + tail)[0] == ' ');
        }
        assert(scan_tokens(enc, buf, toks, false) == scan_tokens(
            enc.drop_first(),
            Seq::empty(),
            toks.push(buf),
            false,
        ));
        assert(enc.drop_first() =~= ps[i] + tail);
        lemma_scan_plain(ps[i], tail, Seq::empty(), toks.push(buf));
        assert(Seq::<char>::empty() + ps[i] =~= ps[i]);
        lemma_scan_encoded_params(ps, i + 1, ps[i], toks.push(buf));
        assert(toks.push(buf).push(ps[i]) + ps.skip(i + 1) =~= toks.push(buf) + ps.skip(i));
    }
}

/// Encoding from `i` on never reaches past the first space-holding
/// parameter at or after `i`: cutting the ones behind it away changes
/// nothing.
proof fn lemma_encode_params_truncate(ps: Seq<Seq<char>>, i: int, k: int)
    requires
        0 <= i <= k < ps.len(),
        has_space(ps[k]),
        forall|j: int| i <= j < k ==> !has_space(ps[j]),
    ensures
        encode_params_from(ps, i) == encode_params_from(ps.take(k + 1), i),
    decreases k - i,
{
    assert(ps.take(k + 1)[i] == ps[i]);
    if i == k {
    } else {
        lemma_encode_params_truncate(ps, i + 1, k);
    }
}

/// Truncation quirk, in general: parameters behind the first one holding
/// a space never reach the encoded line — the message encodes exactly as
/// if they had been cut away.
pub proof fn lemma_encode_truncates(m: MessageModel, k: int)
    requires
        0 <= k < m.parameters.len(),
        has_space(m.parameters[k]),
        forall|j: int| 0 <= j < k ==> !has_space(m.parameters[j]),
    ensures
        encode_msg(m) == encode_msg(
            MessageModel { command: m.command, parameters: m.parameters.take(k + 1) },
        ),
{
    lemma_encode_params_truncate(m.parameters, 0, k);
}

/// Round trip: for a message whose command is plain and whose parameters
/// are plain except possibly the last — the last may hold spaces, since
/// it is then emitted behind a colon and read back in trailing capture —
/// decoding the encoded line, with its final CR, LF stripped, yields the
/// identical command and parameter sequence.
pub proof fn lemma_round_trip(m: MessageModel)
    requires
        plain_token(m.command),
        forall|j: int| 0 <= j < m.parameters.len() - 1 ==> plain_token(m.parameters[j]),
        m.parameters.len() > 0 ==> has_space(m.parameters[m.parameters.len() - 1])
            || plain_token(m.parameters[m.parameters.len() - 1]),
    ensures
        parse_msg(encode_body(m)) == m,
{
    lemma_scan_plain(m.command, encode_params_from(m.parameters, 0), Seq::empty(), Seq::empty());
    assert(Seq::<char>::empty() + m.command =~= m.command);
    lemma_scan_encoded_params(m.parameters, 0, m.command, Seq::empty());
    assert(m.parameters.skip(0) =~= m.parameters);
    let toks = tokens_of(encode_body(m));
    assert(toks =~= Seq::<Seq<char>>::empty().push(m.command) + m.parameters);
    assert(toks[0] == m.command);
    assert(toks.drop_first() =~= m.parameters);
    assert(parse_msg(encode_body(m)) =~~= m);
}

/// The views of a sequence of owned strings.
pub open spec fn str_views(ss: Seq<String>) -> Seq<Seq<char>> {
    ss.map_values(|s: String| s@)
}

/// The models of a sequence of messages.
pub open spec fn msg_views(ms: Seq<Message>) -> Seq<MessageModel> {
    ms.map_values(|m: Message| m@)
}

/// The characters of a string slice, in order.
pub(crate) fn str_chars(s: &str) -> (r: Vec<char>)
    ensures
        r@ == s@,
{
    let n = s.unicode_len();
    let mut r: Vec<char> = Vec::new();
    let mut i: usize = 0;
    while i < n
        invariant
            n == s@.len(),
            i <= n,
            r@ == s@.subrange(0, i as int),
        decreases n - i,
    {
        let c = s.get_char(i);
        r.push(c);
        proof {
            assert(s@.subrange(0, i as int + 1) =~= s@.subrange(0, i as int).push(s@[i as int]));
        }
        i = i + 1;
    }
    proof {
        assert(s@.subrange(0, n as int) =~= s@);
    }
    r
}

/// True when the string holds a space character.
pub(crate) fn contains_space(s: &str) -> (r: bool)
    ensures
        r == has_space(s@),
{
    let n = s.unicode_len();
    let mut i: usize = 0;
    while i < n
        invariant
            n == s@.len(),
            i <= n,
            forall|j: int| 0 <= j < i ==> s@[j] != ' ',
        decreases n - i,
    {
        if s.get_char(i) == ' ' {
            return true;
        }
        i = i + 1;
    }
    false
}

/// Relies on `String: FromIterator<char>`: collecting a character
/// sequence yields a string of exactly those characters, in order.
#[verifier::external_body]
pub(crate) fn chars_to_string(v: &Vec<char>) -> (s: String)
    ensures
        s@ == v@,
{
    v.iter().collect()
}

/// One parsed protocol unit: a command and its parameters, in order,
/// immutable to its users once constructed.
pub struct Message {
    command: String,
    parameters: Vec<String>,
}

impl View for Message {
    type V = MessageModel;

    closed spec fn view(&self) -> MessageModel {
        MessageModel { command: self.command@, parameters: str_views(self.parameters@) }
    }
}

impl Message {
    /// The command token of the message.
    pub fn command(&self) -> (r: &String)
        ensures
            r@ == self@.command,
    {
        &self.command
    }

    /// The parameter tokens of the message, in order.
    pub fn parameters(&self) -> (r: &Vec<String>)
        ensures
            str_views(r@) == self@.parameters,
    {
        &self.parameters
    }

    /// Replaces the command token.
    pub fn set_command(&mut self, command: &str)
        ensures
            final(self)@.command == command@,
            final(self)@.parameters == old(self)@.parameters,
    {
        self.command = command.to_owned();
    }

    /// Appends one parameter token.
    pub fn add_parameter(&mut self, parameter: &str)
        ensures
            final(self)@.command == old(self)@.command,
            final(self)@.parameters == old(self)@.parameters.push(parameter@),
    {
        self.parameters.push(parameter.to_owned());
        proof {
            assert(str_views(self.parameters@) =~= str_views(old(self).parameters@).push(
                parameter@,
            ));
        }
    }

    /// Encodes the message as one wire line, terminated by CR, LF.  The
    /// first parameter holding a space is emitted behind a colon and ends
    /// the line; any parameters after it are dropped, the quirk the wire
    /// format documents.
    pub fn string(&self) -> (r: String)
        ensures
            r@ == encode_msg(self@),
    {
        proof {
            reveal_strlit(" ");
            reveal_strlit(":");
            reveal_strlit("\r\n");
        }
        let ghost ps = self@.parameters;
        let mut out = String::new();
        out.append(self.command.as_str());
        let n = self.parameters.len();
        let mut i: usize = 0;
        let mut truncated = false;
        proof {
            assert(ps.len() == n);
        }
        while i < n && !truncated
            invariant
                n == self.parameters@.len(),
                ps == str_views(self.parameters@),
                i <= n,
                if truncated {
                    out@ == encode_body(self@)
                } else {
                    out@ + encode_params_from(ps, i as int) == encode_body(self@)
                },
            decreases n - i + if truncated {
                0int
            } else {
                1int
            },
        {
            let ghost out0 = out@;
            let p = &self.parameters[i];
            proof {
                reveal_strlit(" ");
                reveal_strlit(":");
                assert(p@ == ps[i as int]);
                assert(" "@ =~= seq![' ']);
                assert(":"@ =~= seq![':']);
            }
            out.append(" ");
            if contains_space(p.as_str()) {
                out.append(":");
                out.append(p.as_str());
                truncated = true;
                proof {
                    assert(encode_params_from(ps, i as int) =~= seq![' ', ':'] + ps[i as int]);
                    assert(out@ =~= out0 + encode_params_from(ps, i as int));
                }
            } else {
                out.append(p.as_str());
                proof {
                    assert(encode_params_from(ps, i as int) =~= seq![' '] + ps[i as int]
                        + encode_params_from(ps, i as int + 1));
                    assert(out@ + encode_params_from(ps, i as int + 1) =~= out0
                        + encode_params_from(ps, i as int));
                }
            }
            i = i + 1;
        }
        proof {
            if !truncated {
                assert(encode_params_from(ps, n as int) =~= Seq::<char>::empty());
                assert(out@ =~= encode_body(self@));
            }
        }
        out.append("\r\n");
        proof {
            assert("\r\n"@ =~= seq!['\r', '\n']);
        }
        out
    }

    /// Decodes one line into a message: the first space-delimited token
    /// becomes the command, the rest the parameters.  A colon outside
    /// trailing-capture mode switches into it, so the final token takes
    /// every remaining character verbatim.  An empty line yields an empty
    /// command and no parameters; consecutive spaces yield empty
    /// parameters and are never collapsed.
    pub fn from_string(string: String) -> (r: Message)
        ensures
            r@ == parse_msg(string@),
    {
        let chars = str_chars(string.as_str());
        let n = chars.len();
        let mut tokens: Vec<String> = Vec::new();
        let mut buf: Vec<char> = Vec::new();
        let mut trailing = false;
        let mut i: usize = 0;
        proof {
            assert(string@.skip(0) =~= string@);
            assert(str_views(tokens@) =~= Seq::<Seq<char>>::empty());
        }
        while i < n
            invariant
                n == chars@.len(),
                chars@ == string@,
                i <= n,
                tokens_of(string@) == scan_tokens(
                    string@.skip(i as int),
                    buf@,
                    str_views(tokens@),
                    trailing,
                ),
            decreases n - i,
        {
            let ghost rest = string@.skip(i as int);
            proof {
                assert(rest[0] == string@[i as int]);
                assert(rest.drop_first() =~= string@.skip(i as int + 1));
            }
            let c = chars[i];
            if c == ' ' && !trailing {
                let ghost prev = str_views(tokens@);
                let ghost finished = buf@;
                let token = chars_to_string(&buf);
                tokens.push(token);
                buf = Vec::new();
                proof {
                    assert(str_views(tokens@) =~= prev.push(finished));
                }
            } else if c == ':' && !trailing {
                trailing = true;
            } else {
                buf.push(c);
            }
            i = i + 1;
        }
        proof {
            assert(string@.skip(n as int) =~= Seq::<char>::empty());
            lemma_scan_tokens_extends(string@, Seq::empty(), Seq::empty(), false);
        }
        let ghost closed = str_views(tokens@);
        let last = chars_to_string(&buf);
        tokens.push(last);
        proof {
            assert(str_views(tokens@) =~= closed.push(buf@));
        }
        let ghost full = str_views(tokens@);
        let command = tokens.remove(0);
        proof {
            assert(str_views(tokens@) =~= full.drop_first());
        }
        Message { command, parameters: tokens }
    }

    /// An empty message: empty command, no parameters.
    pub fn new() -> (r: Message)
        ensures
            r@.command == Seq::<char>::empty(),
            r@.parameters == Seq::<Seq<char>>::empty(),
    {
        let r = Message { command: String::new(), parameters: Vec::new() };
        proof {
            assert(str_views(r.parameters@) =~= Seq::<Seq<char>>::empty());
        }
        r
    }
}

} // verus!

