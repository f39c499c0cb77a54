//! One connection's side of the protocol: cutting the bytes read from the
//! socket into packages of lines, and deciding what to answer to each parsed
//! message.

use bytes::BytesMut;
use vstd::prelude::*;

use crate::parser::package_words;
use crate::protocol::{views, Message, Protocol};
use crate::text::{
    ascii_chars, decimal, decode_bytes, decoded, is_ascii_bytes, lemma_decimal_parses,
    parse_usize, parsed_usize,
};

verus! {

/// The byte buffer of the `bytes` crate, which the connection reads into.
#[verifier::external_type_specification]
#[verifier::external_body]
pub struct ExBytesMut(BytesMut);

/// The bytes that a `BytesMut` holds.
pub uninterp spec fn bytes_mut_contents(b: BytesMut) -> Seq<u8>;

/// Calls `BytesMut::new`: a buffer that holds no bytes.
#[verifier::external_body]
fn bytes_mut_new() -> (b: BytesMut)
    ensures
        bytes_mut_contents(b) == Seq::<u8>::empty(),
{
    BytesMut::new()
}

/// Calls `BytesMut::len`: the number of bytes held.
#[verifier::external_body]
fn bytes_mut_len(b: &BytesMut) -> (n: usize)
    ensures
        n == bytes_mut_contents(*b).len(),
{
    b.len()
}

/// Reads one byte through `BytesMut`'s `Deref` to `[u8]`: the byte held at
/// position `i`.
#[verifier::external_body]
fn bytes_mut_at(b: &BytesMut, i: usize) -> (x: u8)
    requires
        i < bytes_mut_contents(*b).len(),
    ensures
        x == bytes_mut_contents(*b)[i as int],
{
    b[i]
}

/// Takes a range through `BytesMut`'s `Deref` to `[u8]`: the bytes held at
/// positions `from` up to `to`.
#[verifier::external_body]
fn bytes_mut_range(b: &BytesMut, from: usize, to: usize) -> (s: &[u8])
    requires
        from <= to <= bytes_mut_contents(*b).len(),
    ensures
        s@ == bytes_mut_contents(*b).subrange(from as int, to as int),
{
    &b[from..to]
}

/// Where the framing of a package stands: the start of the next item, the
/// number of words the header announced, and the items taken so far (none
/// before the header line).
pub struct FrameState {
    pub cursor: int,
    pub param_number: int,
    pub params: Seq<Seq<char>>,
}

/// What framing leads to: a complete package, a framing that waits for more
/// bytes, or a fault where the framing stops with a panic: a first line that
/// holds a `*` but is no header `*n`, or a count of words whose item count
/// overflows.
pub enum FrameStep {
    Fault,
    Complete(Seq<Seq<char>>),
    Pending(FrameState),
}

/// Whether a CR LF stands at position `i`.
pub open spec fn is_crlf(buf: Seq<u8>, i: int) -> bool {
    0 <= i && i + 1 < buf.len() && buf[i] == 13 && buf[i + 1] == 10
}

/// The position of the first CR LF at or after `from`, if any.
pub open spec fn first_crlf(buf: Seq<u8>, from: int) -> Option<int>
    decreases buf.len() - from,
{
    if from < 0 || from + 1 >= buf.len() {
        None
    } else if buf[from] == 13 && buf[from + 1] == 10 {
        Some(from)
    } else {
        first_crlf(buf, from + 1)
    }
}

/// The first CR LF found is one, at or after the start, with none before it.
pub proof fn lemma_first_crlf(buf: Seq<u8>, from: int)
    ensures
        first_crlf(buf, from) matches Some(i) ==> from <= i && is_crlf(buf, i)
            && forall|j: int| from <= j < i ==> !#[trigger] is_crlf(buf, j),
        0 <= from && first_crlf(buf, from) is None ==> forall|j: int| from <= j ==> !#[trigger] is_crlf(buf, j),
    decreases buf.len() - from,
{
    if from >= 0 && from + 1 < buf.len() && !(buf[from] == 13 && buf[from + 1] == 10) {
        lemma_first_crlf(buf, from + 1);
    }
}

/// The number of words a header line announces: `*` and a number.
pub open spec fn header_count(line: Seq<char>) -> Option<usize> {
    if line.len() > 0 && line[0] == '*' {
        parsed_usize(line.drop_first())
    } else {
        None
    }
}

/// The number of bytes a length line announces: `$` and a number.
pub open spec fn length_count(line: Seq<char>) -> Option<usize> {
    if line.len() > 0 && line[0] == '$' {
        parsed_usize(line.drop_first())
    } else {
        None
    }
}

/// The line that starts at `from`, up to the first CR LF, with the start of
/// what follows it.
pub open spec fn line_item(buf: Seq<u8>, from: int) -> Option<(Seq<char>, int)> {
    match first_crlf(buf, from) {
        None => None,
        Some(i) => Some((decoded(buf.subrange(from, i)), i + 2)),
    }
}

/// The next item of a package after its header, with the start of what
/// follows it; nothing where the bytes do not reach its end yet. Items come
/// in pairs: a length line, then a word. After a length line `$m` the word
/// is the `m` bytes that follow, whatever they are, where CR LF comes right
/// after them; otherwise, and for every length line, the item is a line.
pub open spec fn next_item(s: FrameState, buf: Seq<u8>) -> Option<(Seq<char>, int)> {
    let from = s.cursor;
    if s.params.len() % 2 == 0 {
        match length_count(s.params.last()) {
            Some(m) => if from < 0 || from + m + 2 > buf.len() {
                None
            } else if is_crlf(buf, from + m) {
                Some((decoded(buf.subrange(from, from + m)), from + m + 2))
            } else {
                line_item(buf, from)
            },
            None => line_item(buf, from),
        }
    } else {
        line_item(buf, from)
    }
}

/// An item ends after it starts, within the bytes.
pub proof fn lemma_next_item(s: FrameState, buf: Seq<u8>)
    ensures
        line_item(buf, s.cursor) matches Some((l, nx)) ==> s.cursor < nx <= buf.len(),
        next_item(s, buf) matches Some((l, nx)) ==> s.cursor < nx <= buf.len(),
{
    lemma_first_crlf(buf, s.cursor);
}

/// Framing the bytes from the cursor on, up to a complete package, a fault,
/// or the point where it waits for more bytes. The first line is the
/// header: one without `*` waits (nothing is taken), one with a `*` must be
/// `*n`; a header `*0` leaves the framing waiting for good. After it come
/// `2 n` items, and the package is complete with the last.
pub open spec fn frame(s: FrameState, buf: Seq<u8>) -> FrameStep
    decreases buf.len() - s.cursor,
{
    if s.params.len() == 0 {
        match line_item(buf, s.cursor) {
            None => FrameStep::Pending(s),
            Some((line, next)) => if !line.contains('*') {
                FrameStep::Pending(s)
            } else {
                match header_count(line) {
                    None => FrameStep::Fault,
                    Some(n) => if n * 2 + 1 > usize::MAX {
                        FrameStep::Fault
                    } else if n == 0 {
                        FrameStep::Pending(FrameState { cursor: next, param_number: 0, params: seq![line] })
                    } else {
                        proof {
                            lemma_next_item(s, buf);
                        }
                        frame(FrameState { cursor: next, param_number: n as int, params: seq![line] }, buf)
                    },
                }
            },
        }
    } else if s.param_number == 0 {
        FrameStep::Pending(s)
    } else if s.param_number * 2 + 1 > usize::MAX {
        FrameStep::Fault
    } else {
        match next_item(s, buf) {
            None => FrameStep::Pending(s),
            Some((item, next)) => {
                let params = s.params.push(item);
                if params.len() == s.param_number * 2 + 1 {
                    FrameStep::Complete(params)
                } else {
                    proof {
                        lemma_next_item(s, buf);
                    }
                    frame(FrameState { cursor: next, params, ..s }, buf)
                }
            },
        }
    }
}

/// Once a header is taken and its item count fits, framing does not fault.
proof fn lemma_frame_no_fault(s: FrameState, buf: Seq<u8>)
    requires
        s.params.len() > 0,
        s.param_number * 2 + 1 <= usize::MAX,
    ensures
        !(frame(s, buf) is Fault),
    decreases buf.len() - s.cursor,
{
    lemma_next_item(s, buf);
    if s.param_number != 0 {
        if let Some((item, next)) = next_item(s, buf) {
            let params = s.params.push(item);
            if params.len() != s.param_number * 2 + 1 {
                lemma_frame_no_fault(FrameState { cursor: next, params, ..s }, buf);
            }
        }
    }
}

/// The position of the first CR LF in the buffer at or after `from`.
fn find_crlf(b: &BytesMut, from: usize) -> (r: Option<usize>)
    ensures
        r is None <==> first_crlf(bytes_mut_contents(*b), from as int) is None,
        r matches Some(i) ==> first_crlf(bytes_mut_contents(*b), from as int) == Some(i as int)
            && i + 1 < bytes_mut_contents(*b).len() <= usize::MAX,
{
    let ghost buf = bytes_mut_contents(*b);
    let end = bytes_mut_len(b);
    let mut i = from;
    while i < end && end - i > 1
        invariant
            from <= i,
            end == buf.len(),
            buf == bytes_mut_contents(*b),
            first_crlf(buf, from as int) == first_crlf(buf, i as int),
        decreases end - i,
    {
        if bytes_mut_at(b, i) == 13u8 && bytes_mut_at(b, i + 1) == 10u8 {
            return Some(i);
        }
        i = i + 1;
    }
    None
}

/// The line of the buffer that starts at `from`, with the start of what
/// follows it.
fn take_line(b: &BytesMut, from: usize) -> (r: Option<(String, usize)>)
    ensures
        match line_item(bytes_mut_contents(*b), from as int) {
            None => r is None,
            Some((l, nx)) => r matches Some((x, n)) && x@ == l && n == nx,
        },
{
    proof {
        lemma_first_crlf(bytes_mut_contents(*b), from as int);
    }
    match find_crlf(b, from) {
        None => None,
        Some(i) => {
            let line = decode_bytes(bytes_mut_range(b, from, i));
            Some((line, i + 2))
        },
    }
}

/// The number a line announces after its mark `*` or `$`, or nothing where
/// the line is no such line.
fn marked_number(line: &String, mark: char) -> (r: Option<usize>)
    ensures
        r == (if line@.len() > 0 && line@[0] == mark {
            parsed_usize(line@.drop_first())
        } else {
            None
        }),
{
    let len = line.as_str().unicode_len();
    if len == 0 {
        return None;
    }
    if line.as_str().get_char(0) != mark {
        return None;
    }
    let rest = line.as_str().substring_char(1, len);
    proof {
        assert(rest@ == line@.drop_first());
    }
    parse_usize(rest)
}

/// Whether the line holds a `*`.
fn has_star(line: &String) -> (b: bool)
    ensures
        b == line@.contains('*'),
{
    let len = line.as_str().unicode_len();
    let mut i: usize = 0;
    while i < len
        invariant
            len == line@.len(),
            i <= len,
            forall|j: int| 0 <= j < i ==> line@[j] != '*',
        decreases len - i,
    {
        if line.as_str().get_char(i) == '*' {
            return true;
        }
        i = i + 1;
    }
    false
}

/// What to do with an item that reaches the writer of a connection.
pub enum Forward {
    /// Write this text back; a failed write is skipped.
    Reply(String),
    /// Execute this message on the database and write its reply back; a
    /// failed write ends the connection's writer.
    Execute(Message),
}

impl Forward {
    /// Whether a failed write of the answer ends the connection's writer.
    pub fn ends_on_write_error(&self) -> (b: bool)
        ensures
            b == (self is Execute),
    {
        match self {
            Forward::Reply(_) => false,
            Forward::Execute(_) => true,
        }
    }
}

/// The bytes read from a connection and how far they are framed.
pub struct Client {
    pub param_number: usize,
    pub cursor: usize,
    pub buffer: BytesMut,
    pub params: Vec<String>,
}

/// A `Client` as plain values.
pub struct ClientModel {
    pub param_number: usize,
    pub cursor: usize,
    pub buffer: Seq<u8>,
    pub params: Seq<Seq<char>>,
}

impl View for Client {
    type V = ClientModel;

    open spec fn view(&self) -> ClientModel {
        ClientModel {
            param_number: self.param_number,
            cursor: self.cursor,
            buffer: bytes_mut_contents(self.buffer),
            params: views(self.params@),
        }
    }
}

impl ClientModel {
    /// The framing state.
    pub open spec fn frame(self) -> FrameState {
        FrameState { cursor: self.cursor as int, param_number: self.param_number as int, params: self.params }
    }

    /// What framing the bytes from the cursor on leads to.
    pub open spec fn scan(self) -> FrameStep {
        frame(self.frame(), self.buffer)
    }

    /// Nothing read and nothing framed.
    pub open spec fn is_fresh(self) -> bool {
        &&& self.param_number == 0
        &&& self.cursor == 0
        &&& self.buffer.len() == 0
        &&& self.params.len() == 0
    }
}

impl Client {
    /// A connection that has read nothing.
    pub fn new() -> (c: Self)
        ensures
            c@.is_fresh(),
    {
        Client { param_number: 0, cursor: 0, buffer: bytes_mut_new(), params: Vec::new() }
    }

    /// The next item after the header, with the start of what follows it.
    fn take_item(&self) -> (r: Option<(String, usize)>)
        requires
            self@.params.len() > 0,
        ensures
            match next_item(self@.frame(), self@.buffer) {
                None => r is None,
                Some((c, nx)) => r matches Some((x, n)) && x@ == c && n == nx,
            },
    {
        let ghost buf = self@.buffer;
        let end = bytes_mut_len(&self.buffer);
        let from = self.cursor;
        if self.params.len() % 2 == 0 {
            let last = &self.params[self.params.len() - 1];
            proof {
                assert(self@.params.last() == last@);
            }
            match marked_number(last, '$') {
                Some(m) => {
                    if from > end || m > end - from || end - from - m < 2 {
                        return None;
                    }
                    let at = from + m;
                    if bytes_mut_at(&self.buffer, at) == 13u8 && bytes_mut_at(&self.buffer, at + 1) == 10u8 {
                        let word = decode_bytes(bytes_mut_range(&self.buffer, from, at));
                        return Some((word, at + 2));
                    }
                    take_line(&self.buffer, from)
                },
                None => take_line(&self.buffer, from),
            }
        } else {
            take_line(&self.buffer, from)
        }
    }

    /// Frames the bytes from the cursor on. A complete package gives its
    /// lines and starts the connection afresh; otherwise the items taken so
    /// far are kept and the bytes stay for the next read, and nothing is
    /// given. The caller must not hand in bytes whose framing faults (see
    /// `next_package`).
    pub fn get_complete_package(&mut self) -> (r: Result<Vec<String>, ()>)
        requires
            !(old(self)@.scan() is Fault),
        ensures
            match old(self)@.scan() {
                FrameStep::Complete(lines) => r matches Ok(v) && views(v@) == lines && final(self)@.is_fresh(),
                FrameStep::Pending(s) => r is Err && final(self)@.frame() == s
                    && final(self)@.buffer == old(self)@.buffer,
                FrameStep::Fault => false,
            },
    {
        let ghost buf = self@.buffer;
        let end = bytes_mut_len(&self.buffer);
        loop
            invariant
                self@.buffer == buf,
                end == buf.len(),
                old(self)@.buffer == buf,
                old(self)@.scan() == frame(self@.frame(), buf),
                !(old(self)@.scan() is Fault),
            decreases end - self.cursor,
        {
            let ghost cur = self@.frame();
            proof {
                lemma_next_item(cur, buf);
            }
            if self.params.len() == 0 {
                match take_line(&self.buffer, self.cursor) {
                    None => {
                        return Err(());
                    },
                    Some((line, next)) => {
                        if !has_star(&line) {
                            return Err(());
                        }
                        // a header that is no `*n`, or whose count overflows, faults, which
                        // `requires` excludes
                        let n = match marked_number(&line, '*') {
                            Some(n) => n,
                            None => 0,
                        };
                        self.param_number = n;
                        self.params.push(line);
                        self.cursor = next;
                        proof {
                            assert(self@.params =~= seq![line@]);
                        }
                        if n == 0 {
                            return Err(());
                        }
                    },
                }
            } else if self.param_number == 0 {
                return Err(());
            } else {
                match self.take_item() {
                    None => {
                        return Err(());
                    },
                    Some((item, next)) => {
                        self.params.push(item);
                        self.cursor = next;
                        proof {
                            assert(self@.params =~= cur.params.push(item@));
                        }
                        if self.param_number * 2 + 1 == self.params.len() {
                            let mut params: Vec<String> = Vec::new();
                            std::mem::swap(&mut params, &mut self.params);
                            self.param_number = 0;
                            self.cursor = 0;
                            self.buffer = bytes_mut_new();
                            proof {
                                assert(views(params@) =~= cur.params.push(item@));
                                assert(self@.params =~= Seq::<Seq<char>>::empty());
                            }
                            return Ok(params);
                        }
                    },
                }
            }
        }
    }

    /// Whether framing the bytes from the cursor on faults; nothing changes.
    pub fn package_faults(&self) -> (f: bool)
        ensures
            f == (self@.scan() is Fault),
    {
        let ghost buf = self@.buffer;
        let ghost cur = self@.frame();
        proof {
            lemma_next_item(cur, buf);
        }
        if self.params.len() == 0 {
            match take_line(&self.buffer, self.cursor) {
                None => false,
                Some((line, next)) => {
                    if !has_star(&line) {
                        return false;
                    }
                    match marked_number(&line, '*') {
                        None => true,
                        Some(n) => {
                            proof {
                                let s1 = FrameState { cursor: next as int, param_number: n as int, params: seq![line@] };
                                if n * 2 + 1 <= usize::MAX {
                                    lemma_frame_no_fault(s1, buf);
                                }
                            }
                            n > (usize::MAX - 1) / 2
                        },
                    }
                },
            }
        } else if self.param_number == 0 {
            false
        } else {
            proof {
                if self.param_number * 2 + 1 <= usize::MAX {
                    lemma_frame_no_fault(cur, buf);
                }
            }
            self.param_number > (usize::MAX - 1) / 2
        }
    }

    /// Frames the bytes from the cursor on, as `get_complete_package` does,
    /// where that does not fault; gives nothing where it would.
    pub fn next_package(&mut self) -> (r: Option<Result<Vec<String>, ()>>)
        ensures
            match old(self)@.scan() {
                FrameStep::Complete(lines) => r matches Some(Ok(v)) && views(v@) == lines
                    && final(self)@.is_fresh(),
                FrameStep::Pending(s) => r matches Some(Err(_)) && final(self)@.frame() == s
                    && final(self)@.buffer == old(self)@.buffer,
                FrameStep::Fault => r is None && final(self)@ == old(self)@,
            },
    {
        if self.package_faults() {
            None
        } else {
            Some(self.get_complete_package())
        }
    }

    /// What the writer of a connection does with one item from the channel:
    /// a failed parse is answered with a syntax error, `COMMAND` with `+OK`,
    /// an unsupported command and a parse error with their error replies,
    /// and every other command is executed on the database.
    pub fn forward_action(resp: Result<Message, ()>) -> (f: Forward)
        ensures
            match resp {
                Err(_) => f matches Forward::Reply(s) && s@ == "-ERR syntax error\r\n"@,
                Ok(m) => match m.protocol {
                    Protocol::Command => f matches Forward::Reply(s) && s@ == "+OK\r\n"@,
                    Protocol::UnSupport => f matches Forward::Reply(s) && s@ == "-command unsupport\r\n"@,
                    Protocol::Error(e) => f matches Forward::Reply(s) && s@ == "-"@ + e@ + "\r\n"@,
                    _ => f == Forward::Execute(m) && m@.protocol.executes(),
                },
            },
    {
        match resp {
            Err(_) => Forward::Reply("-ERR syntax error\r\n".to_owned()),
            Ok(message) => match message.protocol {
                Protocol::Command => Forward::Reply("+OK\r\n".to_owned()),
                Protocol::UnSupport => Forward::Reply("-command unsupport\r\n".to_owned()),
                Protocol::Error(e) => {
                    let mut err = "-".to_owned();
                    err.append(e.as_str());
                    err.append("\r\n");
                    Forward::Reply(err)
                },
                _ => Forward::Execute(message),
            },
        }
    }

    /// The text written back for an executed command: its reply, or an
    /// internal error where the database gave none.
    pub fn execution_reply(r: Result<String, ()>) -> (s: String)
        ensures
            match r {
                Ok(t) => s == t,
                Err(_) => s@ == "-Internal Server Error\r\n"@,
            },
    {
        match r {
            Ok(t) => t,
            Err(_) => "-Internal Server Error\r\n".to_owned(),
        }
    }
}

/// The bytes of lines, each followed by CR LF.
pub open spec fn crlf_join(lines: Seq<Seq<u8>>) -> Seq<u8>
    decreases lines.len(),
{
    if lines.len() == 0 {
        Seq::empty()
    } else {
        crlf_join(lines.drop_last()) + lines.last() + seq![13u8, 10u8]
    }
}

/// A line that holds no CR, as header and length lines do.
pub open spec fn body_line(l: Seq<u8>) -> bool {
    forall|q: int| 0 <= q < l.len() ==> #[trigger] l[q] != 13
}

/// The decimal digits of `n` as ASCII bytes.
pub open spec fn digits_bytes(n: nat) -> Seq<u8>
    decreases n,
{
    if n < 10 {
        seq![(48 + n) as u8]
    } else {
        digits_bytes(n / 10).push((48 + n % 10) as u8)
    }
}

/// The header line of a package of `n` words: `*` and `n` in decimal.
pub open spec fn header_line(n: nat) -> Seq<u8> {
    seq![42u8] + digits_bytes(n)
}

/// The framing state of a connection that has framed nothing.
pub open spec fn fresh_frame() -> FrameState {
    FrameState { cursor: 0, param_number: 0, params: Seq::empty() }
}

/// The characters of each line.
pub open spec fn decoded_lines(lines: Seq<Seq<u8>>) -> Seq<Seq<char>> {
    lines.map_values(|l: Seq<u8>| decoded(l))
}

proof fn lemma_crlf_join_concat(a: Seq<Seq<u8>>, b: Seq<Seq<u8>>)
    ensures
        crlf_join(a + b) == crlf_join(a) + crlf_join(b),
    decreases b.len(),
{
    if b.len() == 0 {
        assert(a + b =~= a);
        assert(crlf_join(a) + crlf_join(b) =~= crlf_join(a));
    } else {
        assert((a + b).drop_last() =~= a + b.drop_last());
        assert((a + b).last() == b.last());
        lemma_crlf_join_concat(a, b.drop_last());
        assert(crlf_join(a + b) =~= crlf_join(a) + crlf_join(b));
    }
}

/// Where line `u` stands in the joined bytes.
proof fn lemma_crlf_layout(all: Seq<Seq<u8>>, u: int)
    requires
        0 <= u < all.len(),
    ensures
        crlf_join(all) == crlf_join(all.take(u)) + all[u] + seq![13u8, 10u8] + crlf_join(all.skip(u + 1)),
        crlf_join(all.take(u + 1)).len() == crlf_join(all.take(u)).len() + all[u].len() + 2,
{
    let t = all.take(u);
    let one = seq![all[u]];
    let r = all.skip(u + 1);
    assert(all =~= t + one + r);
    lemma_crlf_join_concat(t + one, r);
    lemma_crlf_join_concat(t, one);
    assert(one.drop_last() =~= Seq::<Seq<u8>>::empty());
    assert(crlf_join(one.drop_last()) == Seq::<u8>::empty());
    assert(one.last() == all[u]);
    assert(crlf_join(one) =~= all[u] + seq![13u8, 10u8]);
    assert(crlf_join(all) =~= crlf_join(all.take(u)) + all[u] + seq![13u8, 10u8] + crlf_join(all.skip(u + 1)));
    assert(all.take(u + 1) =~= t + one);
}

proof fn lemma_digits_bytes(n: nat)
    ensures
        ascii_chars(digits_bytes(n)) == decimal(n),
        digits_bytes(n).len() == decimal(n).len(),
        forall|q: int| 0 <= q < digits_bytes(n).len() ==> 48 <= #[trigger] digits_bytes(n)[q] <= 57,
    decreases n,
{
    let b = digits_bytes(n);
    if n < 10 {
        assert(((48 + n) as u8) as u32 == ((48 + n) as u32));
        assert(ascii_chars(b) =~= decimal(n));
    } else {
        lemma_digits_bytes(n / 10);
        let d = n % 10;
        assert(((48 + d) as u8) as u32 == ((48 + d) as u32));
        assert(b.drop_last() =~= digits_bytes(n / 10));
        assert(ascii_chars(b) =~= ascii_chars(digits_bytes(n / 10)).push(((48 + d) as u8) as char));
        assert(ascii_chars(b) =~= decimal(n));
        assert forall|q: int| 0 <= q < b.len() implies 48 <= #[trigger] b[q] <= 57 by {
            if q < b.len() - 1 {
                assert(b[q] == digits_bytes(n / 10)[q]);
            }
        }
    }
}

/// The first CR LF after `from` is the one at `i` when no CR comes between.
proof fn lemma_first_crlf_at(buf: Seq<u8>, from: int, i: int)
    requires
        0 <= from <= i,
        is_crlf(buf, i),
        forall|j: int| from <= j < i ==> #[trigger] buf[j] != 13,
    ensures
        first_crlf(buf, from) == Some(i),
    decreases i - from,
{
    if from < i {
        assert(buf[from] != 13);
        lemma_first_crlf_at(buf, from + 1, i);
    }
}

/// No CR LF after `from` means none is found.
proof fn lemma_first_crlf_none(buf: Seq<u8>, from: int)
    requires
        0 <= from,
        forall|j: int| from <= j ==> !#[trigger] is_crlf(buf, j),
    ensures
        first_crlf(buf, from) is None,
    decreases buf.len() - from,
{
    if from + 1 < buf.len() {
        assert(!is_crlf(buf, from));
        lemma_first_crlf_none(buf, from + 1);
    }
}

/// A CR LF found in bytes is found again after more bytes arrive.
proof fn lemma_first_crlf_extend(b: Seq<u8>, e: Seq<u8>, from: int)
    requires
        first_crlf(b, from) is Some,
    ensures
        first_crlf(b + e, from) == first_crlf(b, from),
    decreases b.len() - from,
{
    let be = b + e;
    assert(be[from] == b[from]);
    assert(be[from + 1] == b[from + 1]);
    if !(b[from] == 13 && b[from + 1] == 10) {
        lemma_first_crlf_extend(b, e, from + 1);
    }
}

/// An item found in the bytes read so far is found again after more bytes
/// arrive.
proof fn lemma_line_item_extend(b: Seq<u8>, e: Seq<u8>, from: int)
    requires
        line_item(b, from) is Some,
    ensures
        line_item(b + e, from) == line_item(b, from),
{
    lemma_first_crlf_extend(b, e, from);
    lemma_first_crlf(b, from);
    let i = first_crlf(b, from)->0;
    assert((b + e).subrange(from, i) =~= b.subrange(from, i));
}

proof fn lemma_next_item_extend(s: FrameState, b: Seq<u8>, e: Seq<u8>)
    requires
        next_item(s, b) is Some,
    ensures
        next_item(s, b + e) == next_item(s, b),
{
    let from = s.cursor;
    let be = b + e;
    if s.params.len() % 2 == 0 && length_count(s.params.last()) is Some {
        let m = length_count(s.params.last())->0;
        if 0 <= from && from + m + 2 <= b.len() {
            assert(is_crlf(be, from + m) == is_crlf(b, from + m)) by {
                if 0 <= from + m {
                    assert(be[from + m] == b[from + m]);
                    assert(be[from + m + 1] == b[from + m + 1]);
                }
            }
            if is_crlf(b, from + m) {
                assert(be.subrange(from, from + m) =~= b.subrange(from, from + m));
            } else {
                lemma_line_item_extend(b, e, from);
            }
        }
    } else {
        lemma_line_item_extend(b, e, from);
    }
}

/// Reading in batches: where the bytes read so far leave the framing
/// waiting in some state, framing them with more bytes after them is framing
/// the whole from that state, so a later call that goes on from the kept
/// state gives what one call on all the bytes gives.
pub proof fn law_frame_batches(s: FrameState, b: Seq<u8>, e: Seq<u8>)
    requires
        frame(s, b) is Pending,
    ensures
        frame(s, b + e) == frame(frame(s, b)->Pending_0, b + e),
    decreases b.len() - s.cursor,
{
    lemma_next_item(s, b);
    if s.params.len() == 0 {
        if line_item(b, s.cursor) is Some {
            lemma_line_item_extend(b, e, s.cursor);
            let (line, next) = line_item(b, s.cursor)->0;
            if line.contains('*') {
                if let Some(n) = header_count(line) {
                    if n * 2 + 1 <= usize::MAX && n != 0 {
                        law_frame_batches(FrameState { cursor: next, param_number: n as int, params: seq![line] }, b, e);
                    }
                }
            }
        }
    } else if s.param_number != 0 && s.param_number * 2 + 1 <= usize::MAX {
        if next_item(s, b) is Some {
            lemma_next_item_extend(s, b, e);
            let (item, next) = next_item(s, b)->0;
            let params = s.params.push(item);
            if params.len() != s.param_number * 2 + 1 {
                law_frame_batches(FrameState { cursor: next, params, ..s }, b, e);
            }
        }
    }
}

/// Where line `u` starts in the joined bytes.
pub open spec fn line_offset(all: Seq<Seq<u8>>, u: int) -> int {
    crlf_join(all.take(u)).len() as int
}

/// The framing state at the start of item `u` of a package of `n` words.
pub open spec fn body_frame(n: nat, all: Seq<Seq<u8>>, u: int) -> FrameState {
    FrameState { cursor: line_offset(all, u), param_number: n as int, params: decoded_lines(all.take(u)) }
}

/// Words that can be sent as one command: at least one, as many as the
/// item count allows, each of a length a `usize` counts; the words may hold
/// any bytes.
pub open spec fn bulk_words(words: Seq<Seq<u8>>) -> bool {
    &&& words.len() >= 1
    &&& 2 * words.len() + 1 <= usize::MAX
    &&& forall|t: int| 0 <= t < words.len() ==> #[trigger] words[t].len() <= usize::MAX
}

/// The bytes of a command sent as an array of bulk strings.
pub open spec fn package_bytes(words: Seq<Seq<u8>>) -> Seq<u8> {
    crlf_join(resp_package_lines(words))
}

proof fn lemma_header_line(n: nat)
    requires
        n <= usize::MAX,
    ensures
        body_line(header_line(n)),
        header_count(decoded(header_line(n))) == Some(n as usize),
        decoded(header_line(n)).contains('*'),
{
    let hl = header_line(n);
    lemma_digits_bytes(n);
    lemma_decimal_parses(n);
    assert forall|q: int| 0 <= q < hl.len() implies #[trigger] hl[q] < 128 && hl[q] != 13 by {
        if q > 0 {
            assert(hl[q] == digits_bytes(n)[q - 1]);
        }
    }
    assert(is_ascii_bytes(hl));
    let content = decoded(hl);
    assert(content == ascii_chars(hl));
    assert(content.drop_first() =~= ascii_chars(digits_bytes(n)));
    assert(content[0] == '*');
}

proof fn lemma_length_line(w: Seq<u8>)
    requires
        w.len() <= usize::MAX,
    ensures
        body_line(length_line(w)),
        length_count(decoded(length_line(w))) == Some(w.len() as usize),
{
    let l = length_line(w);
    lemma_digits_bytes(w.len());
    lemma_decimal_parses(w.len());
    assert forall|q: int| 0 <= q < l.len() implies #[trigger] l[q] < 128 && l[q] != 13 by {
        if q > 0 {
            assert(l[q] == digits_bytes(w.len())[q - 1]);
        }
    }
    assert(is_ascii_bytes(l));
    let content = decoded(l);
    assert(content == ascii_chars(l));
    assert(content.drop_first() =~= ascii_chars(digits_bytes(w.len())));
    assert(content[0] == '$');
}

/// Where line `u` is in the joined bytes: its bytes, then CR LF.
proof fn lemma_line_bytes(all: Seq<Seq<u8>>, u: int)
    requires
        0 <= u < all.len(),
    ensures
        line_offset(all, u + 1) == line_offset(all, u) + all[u].len() + 2,
        line_offset(all, u + 1) <= crlf_join(all).len(),
        forall|q: int| 0 <= q < all[u].len() ==> #[trigger] crlf_join(all)[line_offset(all, u) + q] == all[u][q],
        crlf_join(all)[line_offset(all, u) + all[u].len()] == 13,
        crlf_join(all)[line_offset(all, u) + all[u].len() + 1] == 10,
        crlf_join(all).subrange(line_offset(all, u), line_offset(all, u) + all[u].len()) == all[u],
{
    lemma_crlf_layout(all, u);
    let lo = line_offset(all, u);
    let pkg = crlf_join(all);
    assert forall|q: int| 0 <= q < all[u].len() implies #[trigger] pkg[lo + q] == all[u][q] by {}
    assert(pkg.subrange(lo, lo + all[u].len()) =~= all[u]);
}

/// Item `u` of a command: a length line where `u` is odd, else the word
/// whose length line comes just before.
proof fn lemma_package_line(words: Seq<Seq<u8>>, u: int)
    requires
        1 <= u <= 2 * words.len(),
    ensures
        resp_package_lines(words).len() == 2 * words.len() + 1,
        u % 2 == 1 ==> resp_package_lines(words)[u] == length_line(words[(u - 1) / 2]),
        u % 2 == 0 ==> resp_package_lines(words)[u] == words[u / 2 - 1]
            && resp_package_lines(words)[u - 1] == length_line(words[u / 2 - 1]),
        0 <= (u - 1) / 2 < words.len(),
        u % 2 == 0 ==> 0 <= u / 2 - 1 < words.len(),
{
    let all = resp_package_lines(words);
    let r = resp_lines(words);
    assert(all[u] == r[u - 1]);
    if u % 2 == 0 {
        assert(all[u - 1] == r[u - 2]);
        assert((u - 1) / 2 == u / 2 - 1);
        assert((u - 2) / 2 == u / 2 - 1);
    }
}

/// Framing the items of a command from `u` on, in a buffer that begins with
/// the whole command, completes the package.
proof fn lemma_frame_lines(words: Seq<Seq<u8>>, buf: Seq<u8>, u: int)
    requires
        bulk_words(words),
        1 <= u <= 2 * words.len(),
        package_bytes(words).len() <= buf.len(),
        buf.subrange(0, package_bytes(words).len() as int) == package_bytes(words),
    ensures
        frame(body_frame(words.len(), resp_package_lines(words), u), buf) == FrameStep::Complete(
            decoded_lines(resp_package_lines(words)),
        ),
    decreases 2 * words.len() + 1 - u,
{
    let all = resp_package_lines(words);
    let n = words.len();
    let pkg = crlf_join(all);
    lemma_package_line(words, u);
    lemma_line_bytes(all, u);
    let lo = line_offset(all, u);
    let line = all[u];
    let c = lo + line.len();
    assert forall|j: int| 0 <= j < pkg.len() implies #[trigger] buf[j] == pkg[j] by {
        assert(buf.subrange(0, pkg.len() as int)[j] == buf[j]);
    }
    let s = body_frame(n, all, u);
    assert(s.params.len() == u);
    assert(lo >= 0);
    assert(buf.subrange(lo, c) =~= pkg.subrange(lo, c));
    if u % 2 == 1 {
        lemma_length_line(words[(u - 1) / 2]);
        assert forall|j: int| lo <= j < c implies #[trigger] buf[j] != 13 by {
            assert(pkg[lo + (j - lo)] == line[j - lo]);
        }
        lemma_first_crlf_at(buf, lo, c);
    } else {
        let w = words[u / 2 - 1];
        lemma_length_line(w);
        assert(s.params.last() == decoded(all[u - 1]));
        assert(is_crlf(buf, lo + w.len()));
    }
    assert(next_item(s, buf) == Some((decoded(line), c + 2)));
    assert(decoded_lines(all.take(u)).push(decoded(line)) =~= decoded_lines(all.take(u + 1)));
    if u + 1 == 2 * n + 1 {
        assert(all.take(u + 1) =~= all);
    } else {
        lemma_frame_lines(words, buf, u + 1);
    }
}

/// A command sent as an array of bulk strings is framed into its items: on
/// a fresh connection, the bytes of a header `*n` and of `n` words, each
/// after its length line `$len`, give the `2 n + 1` items as one complete
/// package, whatever bytes the words hold and whatever bytes follow.
pub proof fn law_frame_package(words: Seq<Seq<u8>>, rest: Seq<u8>)
    requires
        bulk_words(words),
    ensures
        frame(fresh_frame(), package_bytes(words) + rest) == FrameStep::Complete(
            decoded_lines(resp_package_lines(words)),
        ),
{
    let all = resp_package_lines(words);
    let n = words.len();
    let pkg = crlf_join(all);
    let buf = pkg + rest;
    let hl = header_line(n);
    assert(all[0] == hl);
    lemma_header_line(n);
    lemma_line_bytes(all, 0);
    assert(all.take(0) =~= Seq::<Seq<u8>>::empty());
    assert(line_offset(all, 0) == 0);
    assert(buf.subrange(0, pkg.len() as int) =~= pkg);
    let h = hl.len() as int;
    assert forall|j: int| 0 <= j < h implies #[trigger] buf[j] != 13 by {
        assert(pkg[0 + j] == hl[j]);
    }
    lemma_first_crlf_at(buf, 0, h);
    assert(buf.subrange(0, h) =~= hl);
    assert(seq![decoded(hl)] =~= decoded_lines(all.take(1)));
    assert(line_offset(all, 1) == h + 2);
    lemma_frame_lines(words, buf, 1);
}

/// Framing a strict beginning of a command, from item `u` on, waits for the
/// rest.
proof fn lemma_frame_lines_prefix(words: Seq<Seq<u8>>, k: int, u: int)
    requires
        bulk_words(words),
        1 <= u <= 2 * words.len(),
        line_offset(resp_package_lines(words), u) <= k < package_bytes(words).len(),
    ensures
        frame(body_frame(words.len(), resp_package_lines(words), u), package_bytes(words).take(k)) is Pending,
    decreases 2 * words.len() + 1 - u,
{
    let all = resp_package_lines(words);
    let n = words.len();
    let pkg = crlf_join(all);
    let p = pkg.take(k);
    lemma_package_line(words, u);
    lemma_line_bytes(all, u);
    let lo = line_offset(all, u);
    let line = all[u];
    let c = lo + line.len();
    let s = body_frame(n, all, u);
    assert(s.params.len() == u);
    assert(lo >= 0);
    let goes_on = if u % 2 == 1 { c + 1 < k } else { c + 2 <= k };
    if goes_on {
        assert(p.subrange(lo, c) =~= pkg.subrange(lo, c));
        if u % 2 == 1 {
            lemma_length_line(words[(u - 1) / 2]);
            assert forall|j: int| lo <= j < c implies #[trigger] p[j] != 13 by {
                assert(pkg[lo + (j - lo)] == line[j - lo]);
            }
            lemma_first_crlf_at(p, lo, c);
        } else {
            let w = words[u / 2 - 1];
            lemma_length_line(w);
            assert(s.params.last() == decoded(all[u - 1]));
            assert(is_crlf(p, lo + w.len()));
        }
        assert(next_item(s, p) == Some((decoded(line), c + 2)));
        assert(decoded_lines(all.take(u)).push(decoded(line)) =~= decoded_lines(all.take(u + 1)));
        if u + 1 == 2 * n + 1 {
            assert(all.take(u + 1) =~= all);
            assert(false);
        } else {
            lemma_frame_lines_prefix(words, k, u + 1);
        }
    } else if u % 2 == 1 {
        lemma_length_line(words[(u - 1) / 2]);
        assert forall|j: int| lo <= j implies !#[trigger] is_crlf(p, j) by {
            if is_crlf(p, j) && j < c {
                assert(pkg[lo + (j - lo)] == line[j - lo]);
            }
        }
        lemma_first_crlf_none(p, lo);
    } else {
        let w = words[u / 2 - 1];
        lemma_length_line(w);
        assert(s.params.last() == decoded(all[u - 1]));
        assert(next_item(s, p) is None);
    }
}

/// Reading a command in batches gives the command: the bytes read before
/// the last one leave the framing waiting, and going on from where it waits
/// with all the bytes gives the complete package, as one read of all of it
/// does.
pub proof fn law_package_in_batches(words: Seq<Seq<u8>>, k: int)
    requires
        bulk_words(words),
        0 <= k < package_bytes(words).len(),
    ensures
        frame(fresh_frame(), package_bytes(words).take(k)) is Pending,
        frame(frame(fresh_frame(), package_bytes(words).take(k))->Pending_0, package_bytes(words))
            == FrameStep::Complete(decoded_lines(resp_package_lines(words))),
{
    let all = resp_package_lines(words);
    let n = words.len();
    let pkg = crlf_join(all);
    let p = pkg.take(k);
    let hl = header_line(n);
    let h = hl.len() as int;
    assert(all[0] == hl);
    lemma_header_line(n);
    lemma_line_bytes(all, 0);
    assert(all.take(0) =~= Seq::<Seq<u8>>::empty());
    assert(line_offset(all, 0) == 0);
    if h + 1 < k {
        assert forall|j: int| 0 <= j < h implies #[trigger] p[j] != 13 by {
            assert(pkg[0 + j] == hl[j]);
        }
        lemma_first_crlf_at(p, 0, h);
        assert(p.subrange(0, h) =~= hl);
        assert(seq![decoded(hl)] =~= decoded_lines(all.take(1)));
        lemma_frame_lines_prefix(words, k, 1);
    } else {
        assert forall|j: int| 0 <= j implies !#[trigger] is_crlf(p, j) by {
            if is_crlf(p, j) && j < h {
                assert(pkg[0 + j] == hl[j]);
            }
        }
        lemma_first_crlf_none(p, 0);
    }
    assert(p + pkg.skip(k) =~= pkg);
    law_frame_batches(fresh_frame(), p, pkg.skip(k));
    law_frame_package(words, Seq::empty());
    assert(pkg + Seq::<u8>::empty() =~= pkg);
}

/// The length line of a bulk string: `$` and its length in decimal.
pub open spec fn length_line(word: Seq<u8>) -> Seq<u8> {
    seq![36u8] + digits_bytes(word.len())
}

/// The lines of a command sent as an array of bulk strings: for each word,
/// its length line and the word.
pub open spec fn resp_lines(words: Seq<Seq<u8>>) -> Seq<Seq<u8>> {
    Seq::new(2 * words.len(), |i: int| if i % 2 == 0 { length_line(words[i / 2]) } else { words[i / 2] })
}

/// All the lines of a command sent as an array of bulk strings.
pub open spec fn resp_package_lines(words: Seq<Seq<u8>>) -> Seq<Seq<u8>> {
    seq![header_line(words.len())] + resp_lines(words)
}

/// A command sent as an array of bulk strings reaches the parser as sent:
/// on a fresh connection its bytes are framed into one complete package,
/// whatever bytes the words hold and whatever bytes follow, and the words the
/// parser reads from that package are the words sent.
pub proof fn law_command_words(words: Seq<Seq<u8>>, rest: Seq<u8>)
    requires
        bulk_words(words),
    ensures
        frame(fresh_frame(), package_bytes(words) + rest) == FrameStep::Complete(
            decoded_lines(resp_package_lines(words)),
        ),
        package_words(decoded_lines(resp_package_lines(words))) == decoded_lines(words),
{
    let n = words.len();
    law_frame_package(words, rest);
    let all = resp_package_lines(words);
    let lines = resp_lines(words);
    let pw = package_words(decoded_lines(all));
    assert(pw.len() == n);
    assert forall|k: int| 0 <= k < n implies #[trigger] pw[k] == decoded_lines(words)[k] by {
        assert(all[2 + 2 * k] == lines[1 + 2 * k]);
        assert((1 + 2 * k) / 2 == k);
        assert((1 + 2 * k) % 2 == 1);
    }
    assert(pw =~= decoded_lines(words));
}

} // verus!
