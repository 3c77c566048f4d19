use vstd::prelude::*;

verus! {

use crate::resp::RespError;
use crate::resp::types::{
    BulkParse, HeaderParse, RespType, RespVal, bulk_value_parse, crlf, dec_rep, encode_items,
    encode_val, find_crlf, find_crlf_from, lemma_dec_val_nonneg, lemma_find_crlf_shift,
    lemma_len_header, parse_header,
};
use vstd::utf8::{decode_utf8, encode_utf8, valid_utf8};

broadcast use vstd::std_specs::vec::group_vec_axioms, vstd::seq::group_seq_axioms;

/// What one call of the streaming decoder does, given the decoder state and
/// the bytes accumulated so far.
pub ghost enum FrameStep {
    /// No full frame yet: the decoder state to keep and the bytes left
    /// unconsumed in the buffer.
    Pending(Option<(int, Seq<Seq<char>>)>, Seq<u8>),
    /// A protocol error; the connection must be closed.
    Failed,
    /// One complete command frame, and the bytes left over after it.
    Frame(Seq<Seq<char>>, Seq<u8>),
}

/// Consume bulk strings from the front of `buf` into a frame that expects
/// `expected` parts and already holds `got`, exactly as the decoder's inner
/// loop does: stop with a frame as soon as the received count matches the
/// expected count (checked only after a part is added), stop without
/// consuming when the next bulk string is not complete in the buffer, and
/// fail on any malformed header or payload.
pub open spec fn take_parts(buf: Seq<u8>, expected: int, got: Seq<Seq<char>>) -> FrameStep
    decreases buf.len(),
    via take_parts_decreases
{
    if buf.len() == 0 {
        FrameStep::Pending(Option::Some((expected, got)), buf)
    } else {
        match parse_header(36u8, buf) {
            HeaderParse::Incomplete => FrameStep::Pending(Option::Some((expected, got)), buf),
            HeaderParse::BadTag => FrameStep::Failed,
            HeaderParse::BadLen => FrameStep::Failed,
            HeaderParse::Parsed(n, c) => {
                if buf.len() < n + c + 2 {
                    FrameStep::Pending(Option::Some((expected, got)), buf)
                } else if !valid_utf8(buf.subrange(c, c + n)) {
                    FrameStep::Failed
                } else if got.len() >= usize::MAX {
                    FrameStep::Failed
                } else {
                    let got2 = got.push(decode_utf8(buf.subrange(c, c + n)));
                    let rest = buf.skip(c + n + 2);
                    if got2.len() == expected {
                        FrameStep::Frame(got2, rest)
                    } else {
                        take_parts(rest, expected, got2)
                    }
                }
            },
        }
    }
}

#[via_fn]
proof fn take_parts_decreases(buf: Seq<u8>, expected: int, got: Seq<Seq<char>>) {
    lemma_parse_header_bounds(36u8, buf);
}

/// What one call of the streaming decoder does: with no builder in hand it
/// first parses an array header, then consumes bulk strings.
pub open spec fn frame_step(state: Option<(int, Seq<Seq<char>>)>, buf: Seq<u8>) -> FrameStep {
    match state {
        Option::None => match parse_header(42u8, buf) {
            HeaderParse::Incomplete => FrameStep::Pending(Option::None, buf),
            HeaderParse::BadTag => FrameStep::Failed,
            HeaderParse::BadLen => FrameStep::Failed,
            HeaderParse::Parsed(n, c) => take_parts(buf.skip(c), n, Seq::empty()),
        },
        Option::Some((n, got)) => take_parts(buf, n, got),
    }
}

/// A found CRLF position lies inside the buffer, at or past the start of
/// the search.
pub proof fn lemma_find_crlf_from_bounds(b: Seq<u8>, i: int)
    requires
        1 <= i,
    ensures
        match find_crlf_from(b, i) {
            Option::Some(j) => i <= j < b.len(),
            Option::None => true,
        },
    decreases b.len() - i,
{
    if i < b.len() && !(b[i - 1] == 13 && b[i] == 10) {
        lemma_find_crlf_from_bounds(b, i + 1);
    }
}

/// A parsed length header has a nonnegative length that fits in `usize`,
/// and consumes between 4 bytes and the whole buffer.
pub proof fn lemma_parse_header_bounds(tag: u8, b: Seq<u8>)
    ensures
        match parse_header(tag, b) {
            HeaderParse::Parsed(n, c) => 0 <= n <= usize::MAX && 4 <= c <= b.len(),
            _ => true,
        },
{
    lemma_find_crlf_from_bounds(b, 1);
    match find_crlf(b) {
        Option::Some(i) => {
            if i + 1 >= 4 && b[0] == tag {
                let line = b.subrange(1, i - 1);
                if crate::resp::types::digits_wf(line) {
                    lemma_dec_val_nonneg(crate::resp::types::digit_seq_of(line));
                }
            }
        },
        Option::None => {},
    }
}

/// Under the decoder's availability guard, decoding one bulk string from a
/// buffer whose header has been parsed succeeds exactly on UTF-8 payloads
/// and consumes the header, the payload, and two trailing bytes.
pub proof fn lemma_bulk_guarded(b: Seq<u8>, n: int, c: int)
    requires
        parse_header(36u8, b) == HeaderParse::Parsed(n, c),
        b.len() >= n + c + 2,
    ensures
        valid_utf8(b.subrange(c, c + n)) ==> bulk_value_parse(b) == BulkParse::Parsed(
            decode_utf8(b.subrange(c, c + n)),
            n + c + 2,
        ),
        !valid_utf8(b.subrange(c, c + n)) ==> bulk_value_parse(b) == BulkParse::NotUtf8,
{
    lemma_parse_header_bounds(36u8, b);
    let i = c - 1;
    assert(find_crlf(b) == Option::Some(i));
    assert(b[0] == 36u8);
    lemma_find_crlf_shift(b);
    match find_crlf(b.skip(1)) {
        Option::Some(x) => {
            assert(find_crlf(b) == Option::Some(x + 1));
            assert(x == i - 1);
            assert(b.skip(1).subrange(0, x - 1) =~= b.subrange(1, i - 1));
        },
        Option::None => {
            assert(false);
        },
    }
}

/// Accumulates the bulk strings of one command frame as they are decoded
/// from the stream.
pub struct CommandBuilder {
    /// The parts decoded so far, each a `RespType::BulkString`.
    parts: Vec<RespType>,
    /// How many parts the frame's array header announced.
    num_parts: usize,
    /// How many parts have been decoded so far.
    parts_parsed: usize,
}

impl CommandBuilder {
    /// The builder counts its parts correctly and holds only bulk strings.
    pub closed spec fn wf(&self) -> bool {
        &&& self.parts_parsed == self.parts@.len()
        &&& forall|i: int| 0 <= i < self.parts@.len() ==> (#[trigger] self.parts@[i]@)
            is BulkString
    }

    /// How many parts the frame's array header announced.
    pub closed spec fn expected_spec(&self) -> int {
        self.num_parts as int
    }

    /// The text of each part received so far, in order.
    pub closed spec fn parts_spec(&self) -> Seq<Seq<char>> {
        Seq::new(self.parts@.len(), |i: int| (self.parts@[i]@)->BulkString_0)
    }

    /// Creates a builder for a frame of `num_parts` parts.
    pub fn new(num_parts: usize) -> (r: CommandBuilder)
        ensures
            r.wf(),
            r.expected_spec() == num_parts,
            r.parts_spec() =~= Seq::<Seq<char>>::empty(),
    {
        CommandBuilder { parts: vec![], num_parts, parts_parsed: 0 }
    }

    /// Appends one decoded part and counts it.
    pub fn add_part(&mut self, part: RespType)
        requires
            old(self).wf(),
            old(self).parts_spec().len() < usize::MAX,
            part@ is BulkString,
        ensures
            final(self).wf(),
            final(self).expected_spec() == old(self).expected_spec(),
            final(self).parts_spec() =~= old(self).parts_spec().push((part@)->BulkString_0),
    {
        self.parts.push(part);
        self.parts_parsed = self.parts_parsed + 1;
    }

    /// Whether the announced number of parts has been received.
    pub fn all_parts_received(&self) -> (r: bool)
        requires
            self.wf(),
        ensures
            r == (self.parts_spec().len() == self.expected_spec()),
    {
        self.num_parts == self.parts_parsed
    }

    /// The parts received so far, as a frame.
    pub fn build(&self) -> (r: Vec<RespType>)
        requires
            self.wf(),
        ensures
            r@.len() == self.parts_spec().len(),
            forall|i: int| 0 <= i < r@.len() ==> (#[trigger] r@[i]@) == RespVal::BulkString(
                self.parts_spec()[i],
            ),
    {
        let r = self.parts.clone();
        proof {
            assert forall|i: int| 0 <= i < r@.len() implies (#[trigger] r@[i]@)
                == RespVal::BulkString(self.parts_spec()[i]) by {
                assert(cloned::<RespType>(self.parts@[i], r@[i]));
            }
        }
        r
    }
}

/// Remove the first `n` bytes of `v`, keeping the rest in order.
fn advance_buffer(v: &mut Vec<u8>, n: usize)
    requires
        n <= old(v)@.len(),
    ensures
        final(v)@ == old(v)@.skip(n as int),
{
    let len = v.len();
    let mut kept: Vec<u8> = Vec::new();
    let mut i: usize = n;
    while i < len
        invariant
            n <= i <= len,
            len == v@.len(),
            v@ == old(v)@,
            kept@ =~= v@.subrange(n as int, i as int),
        decreases len - i,
    {
        let b: u8 = v[i];
        kept.push(b);
        i = i + 1;
    }
    proof {
        assert(kept@ =~= old(v)@.skip(n as int));
    }
    *v = kept;
}

/// The streaming decoder for command frames: it reassembles one `array of
/// bulk strings` command from any number of partial reads, then resets for
/// the next command. Its counterpart `encode` serializes any outgoing wire
/// value.
pub struct RespCommandFrame {
    /// The frame being assembled, or `None` while awaiting the next
    /// command's array header.
    cmd_builder: Option<CommandBuilder>,
}

impl RespCommandFrame {
    /// The decoder and any in-progress frame are well formed.
    pub closed spec fn wf(&self) -> bool {
        match self.cmd_builder {
            Option::Some(b) => b.wf(),
            Option::None => true,
        }
    }

    /// The decoder state: the announced part count and the parts received
    /// so far, if a frame is in progress.
    pub closed spec fn state(&self) -> Option<(int, Seq<Seq<char>>)> {
        match self.cmd_builder {
            Option::Some(b) => Option::Some((b.expected_spec(), b.parts_spec())),
            Option::None => Option::None,
        }
    }

    /// Creates a decoder that awaits a command's array header.
    pub fn new() -> (r: RespCommandFrame)
        ensures
            r.wf(),
            r.state() is None,
    {
        RespCommandFrame { cmd_builder: Option::None }
    }

    /// Feed accumulated bytes to the decoder. Consumed bytes are removed
    /// from the front of `src`; bytes of an incomplete command stay for a
    /// later call. Returns one complete frame as soon as one is assembled,
    /// `Ok(None)` when more bytes are needed, and an error exactly when the
    /// buffer holds a malformed header or payload.
    pub fn decode(&mut self, src: &mut Vec<u8>) -> (r: Result<
        Option<Vec<RespType>>,
        FrameError,
    >)
        requires
            old(self).wf(),
            old(src)@.len() <= usize::MAX - 2,
        ensures
            final(self).wf(),
            match frame_step(old(self).state(), old(src)@) {
                FrameStep::Pending(st, rest) => r matches Ok(o) && o is None && final(self).state()
                    == st && final(src)@ == rest,
                FrameStep::Failed => r is Err,
                FrameStep::Frame(parts, rest) => r matches Ok(o) && o matches Some(frame) && {
                    &&& frame@.len() == parts.len()
                    &&& forall|i: int| 0 <= i < parts.len() ==> (#[trigger] frame@[i]@)
                        == RespVal::BulkString(parts[i])
                    &&& final(src)@ == rest
                    &&& final(self).state() is None
                },
            },
    {
        if self.cmd_builder.is_none() {
            let (cmd_len, bytes_read) = match RespType::parse_array_len(src.as_slice()) {
                Result::Ok(arr_len) => match arr_len {
                    Option::Some((len, bytes_read)) => (len, bytes_read),
                    Option::None => {
                        return Result::Ok(Option::None);
                    },
                },
                Result::Err(e) => {
                    return Result::Err(FrameError::from(e));
                },
            };
            proof {
                lemma_parse_header_bounds(42u8, src@);
            }
            self.cmd_builder = Option::Some(CommandBuilder::new(cmd_len));
            advance_buffer(src, bytes_read);
        }
        while !src.is_empty()
            invariant
                self.wf(),
                self.cmd_builder is Some,
                src@.len() <= usize::MAX - 2,
                frame_step(old(self).state(), old(src)@) == frame_step(self.state(), src@),
            decreases src@.len(),
        {
            let (bulkstr_len, bytes_read) = match RespType::parse_bulk_string_len(src.as_slice()) {
                Result::Ok(bulkstr_len) => match bulkstr_len {
                    Option::Some((len, bytes_read)) => (len, bytes_read),
                    Option::None => {
                        return Result::Ok(Option::None);
                    },
                },
                Result::Err(e) => {
                    return Result::Err(FrameError::from(e));
                },
            };
            proof {
                lemma_parse_header_bounds(36u8, src@);
            }
            if src.len() - bytes_read < 2 || src.len() - bytes_read - 2 < bulkstr_len {
                return Result::Ok(Option::None);
            }
            proof {
                lemma_bulk_guarded(src@, bulkstr_len as int, bytes_read as int);
            }
            let (bulkstr, bytes_read) = match RespType::new_bulk_string(src.as_slice()) {
                Result::Ok((resp_type, bytes_read)) => (resp_type, bytes_read),
                Result::Err(e) => {
                    return Result::Err(FrameError::from(e));
                },
            };
            let builder = self.cmd_builder.as_mut().unwrap();
            if builder.parts_parsed == usize::MAX {
                return Result::Err(
                    FrameError::from(RespError::Other("Frame has too many parts".to_owned())),
                );
            }
            builder.add_part(bulkstr);
            advance_buffer(src, bytes_read);
            let cmd_builder = self.cmd_builder.as_ref().unwrap();
            if cmd_builder.all_parts_received() {
                let cmd = cmd_builder.build();
                self.cmd_builder = Option::None;
                return Result::Ok(Option::Some(cmd));
            }
        }
        Result::Ok(Option::None)
    }

    /// Serialize one wire value onto the end of `dst`.
    pub fn encode(&mut self, item: RespType, dst: &mut Vec<u8>)
        ensures
            *final(self) == *old(self),
            final(dst)@ == old(dst)@ + encode_val(item@),
    {
        let mut bytes = item.to_bytes();
        dst.append(&mut bytes);
    }
}

/// An error met while decoding a command frame from the stream.
#[derive(Debug)]
pub struct FrameError {
    /// The decoding failure being reported.
    err: RespError,
}

impl FrameError {
    /// The decoding failure this frame error reports.
    pub closed spec fn cause(&self) -> RespError {
        self.err
    }

    /// Wraps a decoding failure as a frame error.
    pub fn from(err: RespError) -> (r: FrameError)
        ensures
            r.cause() == err,
    {
        FrameError { err }
    }

    /// The description carried by this error.
    pub fn message(&self) -> (r: String)
        ensures
            r@ == self.cause().message_spec(),
    {
        self.err.message()
    }
}

/// A CRLF pair, once found, stays where it is when more bytes arrive.
proof fn lemma_find_crlf_from_extend(b: Seq<u8>, ext: Seq<u8>, i: int)
    requires
        1 <= i,
        find_crlf_from(b, i) is Some,
    ensures
        find_crlf_from(b + ext, i) == find_crlf_from(b, i),
    decreases b.len() - i,
{
    if i < b.len() {
        assert((b + ext)[i - 1] == b[i - 1]);
        assert((b + ext)[i] == b[i]);
        if !(b[i - 1] == 13 && b[i] == 10) {
            lemma_find_crlf_from_extend(b, ext, i + 1);
        }
    }
}

/// A header parse that has reached a verdict keeps that verdict when more
/// bytes arrive; only `Incomplete` can change.
pub proof fn lemma_parse_header_extend(tag: u8, b: Seq<u8>, ext: Seq<u8>)
    requires
        !(parse_header(tag, b) is Incomplete),
    ensures
        parse_header(tag, b + ext) == parse_header(tag, b),
{
    match find_crlf(b) {
        Option::Some(i) => {
            lemma_find_crlf_from_bounds(b, 1);
            lemma_find_crlf_from_extend(b, ext, 1);
            assert((b + ext)[0] == b[0]);
            if i + 1 >= 4 && b[0] == tag {
                assert((b + ext).subrange(1, i - 1) =~= b.subrange(1, i - 1));
            }
        },
        Option::None => {
            assert(false);
        },
    }
}

/// The wire values of a command frame: each part as a bulk string.
pub open spec fn bulk_items(parts: Seq<Seq<char>>) -> Seq<RespVal> {
    parts.map_values(|t: Seq<char>| RespVal::BulkString(t))
}

/// The exact bytes of a command frame holding `parts`.
pub open spec fn frame_bytes(parts: Seq<Seq<char>>) -> Seq<u8> {
    encode_val(RespVal::Array(bulk_items(parts)))
}

/// Feeding more bytes never disturbs what the inner loop already did: a
/// pending run continues from its kept state and leftover bytes, a failure
/// stays a failure, and a finished frame keeps its leftover bytes in front
/// of the new ones.
pub proof fn lemma_take_parts_extend(
    buf: Seq<u8>,
    expected: int,
    got: Seq<Seq<char>>,
    ext: Seq<u8>,
)
    ensures
        match take_parts(buf, expected, got) {
            FrameStep::Pending(st, rem) => st matches Option::Some(sg) && take_parts(
                buf + ext,
                expected,
                got,
            ) == take_parts(rem + ext, sg.0, sg.1),
            FrameStep::Failed => take_parts(buf + ext, expected, got) == FrameStep::Failed,
            FrameStep::Frame(f, rem) => take_parts(buf + ext, expected, got) == FrameStep::Frame(
                f,
                rem + ext,
            ),
        },
    decreases buf.len(),
{
    if buf.len() == 0 {
        assert(buf + ext =~= ext);
    } else {
        match parse_header(36u8, buf) {
            HeaderParse::Incomplete => {},
            HeaderParse::BadTag => {
                lemma_parse_header_extend(36u8, buf, ext);
            },
            HeaderParse::BadLen => {
                lemma_parse_header_extend(36u8, buf, ext);
            },
            HeaderParse::Parsed(n, c) => {
                lemma_parse_header_bounds(36u8, buf);
                lemma_parse_header_extend(36u8, buf, ext);
                if buf.len() < n + c + 2 {
                } else {
                    assert((buf + ext).subrange(c, c + n) =~= buf.subrange(c, c + n));
                    if valid_utf8(buf.subrange(c, c + n)) && got.len() < usize::MAX {
                        let got2 = got.push(decode_utf8(buf.subrange(c, c + n)));
                        let rest = buf.skip(c + n + 2);
                        assert((buf + ext).skip(c + n + 2) =~= rest + ext);
                        if got2.len() != expected {
                            lemma_take_parts_extend(rest, expected, got2, ext);
                        }
                    }
                }
            },
        }
    }
}

/// Feeding more bytes never disturbs what one decoder call already did.
pub proof fn lemma_frame_step_extend(
    state: Option<(int, Seq<Seq<char>>)>,
    buf: Seq<u8>,
    ext: Seq<u8>,
)
    ensures
        match frame_step(state, buf) {
            FrameStep::Pending(st, rem) => frame_step(state, buf + ext) == frame_step(
                st,
                rem + ext,
            ),
            FrameStep::Failed => frame_step(state, buf + ext) == FrameStep::Failed,
            FrameStep::Frame(f, rem) => frame_step(state, buf + ext) == FrameStep::Frame(
                f,
                rem + ext,
            ),
        },
{
    match state {
        Option::None => {
            match parse_header(42u8, buf) {
                HeaderParse::Incomplete => {},
                HeaderParse::BadTag => {
                    lemma_parse_header_extend(42u8, buf, ext);
                },
                HeaderParse::BadLen => {
                    lemma_parse_header_extend(42u8, buf, ext);
                },
                HeaderParse::Parsed(n, c) => {
                    lemma_parse_header_bounds(42u8, buf);
                    lemma_parse_header_extend(42u8, buf, ext);
                    assert((buf + ext).skip(c) =~= buf.skip(c) + ext);
                    lemma_take_parts_extend(buf.skip(c), n, Seq::empty(), ext);
                },
            }
        },
        Option::Some(sg) => {
            lemma_take_parts_extend(buf, sg.0, sg.1, ext);
        },
    }
}

/// The inner loop consumes an encoded run of bulk strings completely and
/// in order, finishing the frame exactly at its announced count.
proof fn lemma_take_parts_encoded(
    parts: Seq<Seq<char>>,
    expected: int,
    got: Seq<Seq<char>>,
    rest: Seq<u8>,
)
    requires
        parts.len() >= 1,
        got.len() + parts.len() == expected,
        expected <= usize::MAX,
        forall|i: int| 0 <= i < parts.len() ==> (#[trigger] encode_utf8(parts[i])).len()
            <= usize::MAX,
    ensures
        take_parts(encode_items(bulk_items(parts)) + rest, expected, got) == FrameStep::Frame(
            got + parts,
            rest,
        ),
    decreases parts.len(),
{
    broadcast use vstd::utf8::encode_utf8_valid_utf8, vstd::utf8::encode_utf8_decode_utf8;

    let items = bulk_items(parts);
    let buf = encode_items(items) + rest;
    let s0 = parts[0];
    assert(items[0] == RespVal::BulkString(s0));
    let payload = encode_utf8(s0);
    let n = payload.len() as int;
    let digits = dec_rep(payload.len());
    let c = digits.len() as int + 3;
    let tail = payload + crlf() + (encode_items(items.drop_first()) + rest);
    assert(encode_items(items) == encode_val(items[0]) + encode_items(items.drop_first()));
    assert(encode_val(items[0]) == seq![36u8] + digits + crlf() + payload + crlf());
    assert(buf =~= seq![36u8] + digits + crlf() + tail);
    lemma_len_header(36u8, payload.len(), tail);
    assert(parse_header(36u8, buf) == HeaderParse::Parsed(n, c));
    assert(buf.len() >= n + c + 2);
    assert(buf.subrange(c, c + n) =~= payload);
    assert(valid_utf8(payload));
    assert(decode_utf8(payload) == s0);
    let got2 = got.push(s0);
    let rest2 = buf.skip(c + n + 2);
    assert(items.drop_first() =~= bulk_items(parts.drop_first()));
    assert(rest2 =~= encode_items(bulk_items(parts.drop_first())) + rest);
    if parts.len() == 1 {
        assert(encode_items(bulk_items(parts.drop_first())) =~= Seq::<u8>::empty());
        assert(rest2 =~= rest);
        assert(got2 =~= got + parts);
    } else {
        lemma_take_parts_encoded(parts.drop_first(), expected, got2, rest);
        assert(got2 + parts.drop_first() =~= got + parts);
    }
}

/// Round trip for command frames: decoding the encoding of any frame of
/// one or more parts, with any bytes following it, yields exactly those
/// parts and leaves exactly the following bytes.
pub proof fn lemma_frame_round_trip(parts: Seq<Seq<char>>, rest: Seq<u8>)
    requires
        1 <= parts.len() <= usize::MAX,
        forall|i: int| 0 <= i < parts.len() ==> (#[trigger] encode_utf8(parts[i])).len()
            <= usize::MAX,
    ensures
        frame_step(Option::None, frame_bytes(parts) + rest) == FrameStep::Frame(parts, rest),
{
    let items = bulk_items(parts);
    let b = frame_bytes(parts) + rest;
    let digits = dec_rep(parts.len() as nat);
    let c = digits.len() as int + 3;
    let tail = encode_items(items) + rest;
    assert(b =~= seq![42u8] + digits + crlf() + tail);
    lemma_len_header(42u8, parts.len() as nat, tail);
    assert(parse_header(42u8, b) == HeaderParse::Parsed(parts.len() as int, c));
    assert(b.skip(c) =~= encode_items(items) + rest);
    lemma_take_parts_encoded(parts, parts.len() as int, Seq::empty(), rest);
    assert(Seq::<Seq<char>>::empty() + parts =~= parts);
}

/// Partial-read resilience: splitting a complete frame's bytes at any
/// offset and feeding the two halves in two decoder calls yields the same
/// frame as feeding them in one call. The first call is always still
/// pending (it neither fails nor finishes early), and the second finishes
/// the frame.
pub proof fn lemma_partial_read(parts: Seq<Seq<char>>, i: int)
    requires
        1 <= parts.len() <= usize::MAX,
        forall|j: int| 0 <= j < parts.len() ==> (#[trigger] encode_utf8(parts[j])).len()
            <= usize::MAX,
        0 <= i < frame_bytes(parts).len(),
    ensures
        match frame_step(Option::None, frame_bytes(parts).take(i)) {
            FrameStep::Pending(st, rem) => frame_step(st, rem + frame_bytes(parts).skip(i))
                == FrameStep::Frame(parts, Seq::empty()),
            FrameStep::Failed => false,
            FrameStep::Frame(_, _) => false,
        },
{
    let b = frame_bytes(parts);
    lemma_frame_round_trip(parts, Seq::empty());
    assert(b + Seq::<u8>::empty() =~= b);
    assert(frame_step(Option::None, b) == FrameStep::Frame(parts, Seq::<u8>::empty()));
    lemma_frame_step_extend(Option::None, b.take(i), b.skip(i));
    assert(b.take(i) + b.skip(i) =~= b);
    match frame_step(Option::None, b.take(i)) {
        FrameStep::Pending(_st, _rem) => {},
        FrameStep::Failed => {
            assert(frame_step(Option::None, b) == FrameStep::Failed);
            assert(false);
        },
        FrameStep::Frame(f, rem) => {
            assert(frame_step(Option::None, b) == FrameStep::Frame(f, rem + b.skip(i)));
            assert((rem + b.skip(i)).len() == 0);
            assert(b.skip(i).len() > 0);
            assert(false);
        },
    }
}

} // verus!
