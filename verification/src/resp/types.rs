use vstd::prelude::*;

verus! {

use crate::resp::RespError;
use vstd::slice::{slice_index_get, slice_subrange, slice_to_vec};
use vstd::string::StringSliceAdditionalSpecFns;
use vstd::utf8::{decode_utf8, encode_utf8, valid_utf8};

broadcast use vstd::std_specs::vec::group_vec_axioms, vstd::seq::group_seq_axioms;

/// A value of the RESP wire protocol. Every request and every reply that
/// crosses the wire is one of these, identified on the wire by its first
/// byte.
#[derive(Debug)]
pub enum RespType {
    /// A short, single-line status string, encoded as `+<text>\r\n`.
    SimpleString(String),
    /// A length-prefixed string, encoded as `$<byte length>\r\n<bytes>\r\n`.
    BulkString(String),
    /// The absence of a value: a bulk string of length -1, `$-1\r\n`.
    NullBulkString,
    /// An ordered sequence of values, encoded as `*<count>\r\n` followed by
    /// each element's own encoding.
    Array(Vec<RespType>),
    /// A single-line error message, encoded as `-<text>\r\n`.
    SimpleError(String),
    /// A signed number, encoded as `:<decimal>\r\n`.
    Integer(i64),
}

/// The mathematical shape of a wire value: each text payload is seen as its
/// character sequence, and arrays as sequences of values.
pub ghost enum RespVal {
    SimpleString(Seq<char>),
    BulkString(Seq<char>),
    NullBulkString,
    Array(Seq<RespVal>),
    SimpleError(Seq<char>),
    Integer(i64),
}

/// The value a `RespType` stands for.
pub open spec fn resp_val_of(v: RespType) -> RespVal
    decreases v,
    via resp_val_of_decreases
{
    match v {
        RespType::SimpleString(s) => RespVal::SimpleString(s@),
        RespType::BulkString(s) => RespVal::BulkString(s@),
        RespType::NullBulkString => RespVal::NullBulkString,
        RespType::Array(items) => RespVal::Array(resp_vals_of(items@)),
        RespType::SimpleError(s) => RespVal::SimpleError(s@),
        RespType::Integer(i) => RespVal::Integer(i),
    }
}

/// The values a sequence of `RespType`s stands for, element by element.
pub open spec fn resp_vals_of(items: Seq<RespType>) -> Seq<RespVal>
    decreases items,
{
    if items.len() == 0 {
        Seq::empty()
    } else {
        seq![resp_val_of(items[0])] + resp_vals_of(items.drop_first())
    }
}

#[via_fn]
proof fn resp_val_of_decreases(v: RespType) {
    match v {
        RespType::Array(items) => {
            assert(decreases_to!(v => v->Array_0));
            assert(v->Array_0 == items);
            assert(decreases_to!(items => items@));
        },
        _ => {},
    }
}

/// `resp_vals_of` maps each element in place.
pub proof fn lemma_resp_vals_of(items: Seq<RespType>)
    ensures
        resp_vals_of(items).len() == items.len(),
        forall|i: int|
            0 <= i < items.len() ==> #[trigger] resp_vals_of(items)[i] == resp_val_of(items[i]),
    decreases items,
{
    if items.len() > 0 {
        lemma_resp_vals_of(items.drop_first());
        assert forall|i: int| 0 <= i < items.len() implies resp_vals_of(items)[i] == resp_val_of(
            items[i],
        ) by {
            if i > 0 {
                assert(items.drop_first()[i - 1] == items[i]);
                assert(resp_vals_of(items)[i] == resp_vals_of(items.drop_first())[i - 1]);
            }
        }
    }
}

impl View for RespType {
    type V = RespVal;

    open spec fn view(&self) -> RespVal {
        resp_val_of(*self)
    }
}

impl Clone for RespType {
    /// A clone stands for the same wire value.
    #[verifier::loop_isolation(false)]
    fn clone(&self) -> (res: Self)
        ensures
            res@ == self@,
        decreases *self,
    {
        match self {
            RespType::SimpleString(s) => RespType::SimpleString(s.clone()),
            RespType::BulkString(s) => RespType::BulkString(s.clone()),
            RespType::NullBulkString => RespType::NullBulkString,
            RespType::Array(items) => {
                let mut copies: Vec<RespType> = Vec::new();
                let mut i: usize = 0;
                while i < items.len()
                    invariant
                        i <= items@.len(),
                        copies@.len() == i,
                        forall|j: int| 0 <= j < i ==> copies@[j]@ == items@[j]@,
                    decreases items@.len() - i,
                {
                    proof {
                        assert(decreases_to!(*self => (*self)->Array_0));
                        assert((*self)->Array_0 == *items);
                        assert(decreases_to!(*items => items@));
                        assert(decreases_to!(items@ => items@[i as int]));
                    }
                    let piece: RespType = items[i].clone();
                    copies.push(piece);
                    i = i + 1;
                }
                let res = RespType::Array(copies);
                proof {
                    lemma_resp_vals_of(copies@);
                    lemma_resp_vals_of(items@);
                    assert(copies@.len() == items@.len());
                    assert forall|j: int| 0 <= j < items@.len() implies resp_vals_of(copies@)[j]
                        == resp_vals_of(items@)[j] by {
                        assert(copies@[j]@ == items@[j]@);
                    }
                    assert((res@)->Array_0 =~= (self@)->Array_0);
                }
                res
            },
            RespType::SimpleError(s) => RespType::SimpleError(s.clone()),
            RespType::Integer(i) => RespType::Integer(*i),
        }
    }
}

/// The two-byte line terminator `\r\n`.
pub open spec fn crlf() -> Seq<u8> {
    seq![13u8, 10u8]
}

/// The ASCII digit for `n` (`n` must be below ten).
pub open spec fn dec_digit(n: nat) -> u8 {
    (0x30 + n % 10) as u8
}

/// The decimal digits of `n`, most significant first, with no sign and no
/// leading zeros (`0` is written as the single digit `0`).
pub open spec fn dec_rep(n: nat) -> Seq<u8>
    decreases n,
{
    if n < 10 {
        seq![dec_digit(n)]
    } else {
        dec_rep(n / 10).push(dec_digit(n % 10))
    }
}

/// The decimal digits of `i`, with a leading `-` when `i` is negative.
pub open spec fn dec_rep_signed(i: int) -> Seq<u8> {
    if i < 0 {
        seq![45u8] + dec_rep((-i) as nat)
    } else {
        dec_rep(i as nat)
    }
}

/// The exact bytes a wire value is encoded as.
pub open spec fn encode_val(v: RespVal) -> Seq<u8>
    decreases v,
{
    match v {
        RespVal::SimpleString(s) => seq![43u8] + encode_utf8(s) + crlf(),
        RespVal::BulkString(s) => seq![36u8] + dec_rep(encode_utf8(s).len()) + crlf()
            + encode_utf8(s) + crlf(),
        RespVal::NullBulkString => seq![36u8, 45u8, 49u8] + crlf(),
        RespVal::Array(items) => seq![42u8] + dec_rep(items.len()) + crlf() + encode_items(items),
        RespVal::SimpleError(s) => seq![45u8] + encode_utf8(s) + crlf(),
        RespVal::Integer(i) => seq![58u8] + dec_rep_signed(i as int) + crlf(),
    }
}

/// The concatenation of the encodings of `items`, in order.
pub open spec fn encode_items(items: Seq<RespVal>) -> Seq<u8>
    decreases items,
{
    if items.len() == 0 {
        Seq::empty()
    } else {
        encode_val(items[0]) + encode_items(items.drop_first())
    }
}

/// Append the decimal digits of `n` to `out`.
fn push_dec_u64(out: &mut Vec<u8>, n: u64)
    ensures
        final(out)@ == old(out)@ + dec_rep(n as nat),
{
    let mut rev: Vec<u8> = Vec::new();
    let mut m: u64 = n;
    while m >= 10
        invariant
            dec_rep(n as nat) == dec_rep(m as nat) + rev@.reverse(),
        decreases m,
    {
        let d: u8 = 0x30 + (m % 10) as u8;
        rev.push(d);
        proof {
            assert(rev@.reverse() =~= seq![d] + rev@.drop_last().reverse());
        }
        m = m / 10;
    }
    let d: u8 = 0x30 + (m % 10) as u8;
    rev.push(d);
    proof {
        assert(rev@.reverse() =~= seq![d] + rev@.drop_last().reverse());
        assert(dec_rep(n as nat) =~= rev@.reverse());
    }
    let ghost prefix = out@;
    let mut i: usize = rev.len();
    while i > 0
        invariant
            i <= rev@.len(),
            dec_rep(n as nat) == rev@.reverse(),
            out@ == prefix + rev@.subrange(i as int, rev@.len() as int).reverse(),
        decreases i,
    {
        i = i - 1;
        let b: u8 = rev[i];
        out.push(b);
        proof {
            assert(rev@.subrange(i as int, rev@.len() as int).reverse() =~= rev@.subrange(
                i as int + 1,
                rev@.len() as int,
            ).reverse().push(b));
        }
    }
    proof {
        assert(rev@.subrange(0, rev@.len() as int) =~= rev@);
    }
}

/// Append the decimal digits of `i`, sign included, to `out`.
fn push_dec_i64(out: &mut Vec<u8>, i: i64)
    ensures
        final(out)@ == old(out)@ + dec_rep_signed(i as int),
{
    if i < 0 {
        out.push(45u8);
        let mag: u64 = if i == i64::MIN {
            9223372036854775808u64
        } else {
            (-i) as u64
        };
        push_dec_u64(out, mag);
        proof {
            assert(out@ =~= old(out)@ + dec_rep_signed(i as int));
        }
    } else {
        push_dec_u64(out, i as u64);
    }
}

impl RespType {
    /// Serialize this wire value into the exact bytes the protocol sends.
    #[verifier::loop_isolation(false)]
    pub fn to_bytes(&self) -> (r: Vec<u8>)
        ensures
            r@ == encode_val(self@),
        decreases *self,
    {
        match self {
            RespType::SimpleString(ss) => {
                let mut out: Vec<u8> = Vec::new();
                out.push(43u8);
                out.extend_from_slice(ss.as_str().as_bytes());
                out.push(13u8);
                out.push(10u8);
                proof {
                    assert(out@ =~= encode_val(self@));
                }
                out
            },
            RespType::BulkString(bs) => {
                let payload: &[u8] = bs.as_str().as_bytes();
                let mut out: Vec<u8> = Vec::new();
                out.push(36u8);
                push_dec_u64(&mut out, payload.len() as u64);
                out.push(13u8);
                out.push(10u8);
                out.extend_from_slice(payload);
                out.push(13u8);
                out.push(10u8);
                proof {
                    assert(out@ =~= encode_val(self@));
                }
                out
            },
            RespType::NullBulkString => {
                let mut out: Vec<u8> = Vec::new();
                out.push(36u8);
                out.push(45u8);
                out.push(49u8);
                out.push(13u8);
                out.push(10u8);
                proof {
                    assert(out@ =~= encode_val(self@));
                }
                out
            },
            RespType::Array(arr) => {
                let mut out: Vec<u8> = Vec::new();
                out.push(42u8);
                push_dec_u64(&mut out, arr.len() as u64);
                out.push(13u8);
                out.push(10u8);
                let ghost header = out@;
                let ghost items = (self@)->Array_0;
                proof {
                    lemma_resp_vals_of(arr@);
                }
                let mut idx: usize = 0;
                while idx < arr.len()
                    invariant
                        idx <= arr@.len(),
                        items.len() == arr@.len(),
                        forall|j: int| 0 <= j < arr@.len() ==> items[j] == arr@[j]@,
                        out@ == header + encode_items(items.take(idx as int)),
                    decreases arr@.len() - idx,
                {
                    proof {
                        assert(decreases_to!(*self => (*self)->Array_0));
                        assert((*self)->Array_0 == *arr);
                        assert(decreases_to!(*arr => arr@));
                        assert(decreases_to!(arr@ => arr@[idx as int]));
                    }
                    let mut piece: Vec<u8> = arr[idx].to_bytes();
                    out.append(&mut piece);
                    proof {
                        lemma_encode_items_take_step(items, idx as int);
                    }
                    idx = idx + 1;
                }
                proof {
                    assert(items.take(items.len() as int) =~= items);
                    assert(out@ =~= encode_val(self@));
                }
                out
            },
            RespType::SimpleError(es) => {
                let mut out: Vec<u8> = Vec::new();
                out.push(45u8);
                out.extend_from_slice(es.as_str().as_bytes());
                out.push(13u8);
                out.push(10u8);
                proof {
                    assert(out@ =~= encode_val(self@));
                }
                out
            },
            RespType::Integer(i) => {
                let mut out: Vec<u8> = Vec::new();
                out.push(58u8);
                push_dec_i64(&mut out, *i);
                out.push(13u8);
                out.push(10u8);
                proof {
                    assert(out@ =~= encode_val(self@));
                }
                out
            },
        }
    }
}

/// Encoding one more element extends the encoding of the prefix.
proof fn lemma_encode_items_take_step(items: Seq<RespVal>, i: int)
    requires
        0 <= i < items.len(),
    ensures
        encode_items(items.take(i + 1)) == encode_items(items.take(i)) + encode_val(items[i]),
    decreases i,
{
    if i == 0 {
        assert(encode_items(Seq::<RespVal>::empty()) == Seq::<u8>::empty());
        assert(items.take(1).drop_first() =~= Seq::<RespVal>::empty());
        assert(items.take(1)[0] == items[0]);
        assert(encode_items(items.take(1)) == encode_val(items[0]) + Seq::<u8>::empty());
        assert(items.take(0) =~= Seq::<RespVal>::empty());
        assert(encode_items(items.take(1)) =~= encode_items(items.take(0)) + encode_val(items[0]));
    } else {
        lemma_encode_items_take_step(items.drop_first(), i - 1);
        assert(items.take(i + 1).drop_first() =~= items.drop_first().take(i));
        assert(items.take(i).drop_first() =~= items.drop_first().take(i - 1));
        assert(items.take(i + 1)[0] == items[0]);
        assert(items.take(i)[0] == items[0]);
        assert(items.drop_first()[i - 1] == items[i]);
        assert(encode_items(items.take(i + 1)) == encode_val(items[0]) + encode_items(
            items.drop_first().take(i),
        ));
        assert(encode_val(items[0]) + (encode_items(items.drop_first().take(i - 1)) + encode_val(
            items[i],
        )) =~= (encode_val(items[0]) + encode_items(items.drop_first().take(i - 1))) + encode_val(
            items[i],
        ));
    }
}

} // verus!

verus! {

/// The position of the `\n` of the first `\r\n` pair at or past `i`
/// (pairs are scanned as in a left-to-right search starting at index 1).
pub open spec fn find_crlf_from(b: Seq<u8>, i: int) -> Option<int>
    decreases b.len() - i,
{
    if i < 1 || i >= b.len() {
        Option::None
    } else if b[i - 1] == 13 && b[i] == 10 {
        Option::Some(i)
    } else {
        find_crlf_from(b, i + 1)
    }
}

/// The position of the `\n` of the first `\r\n` pair in `b`.
pub open spec fn find_crlf(b: Seq<u8>) -> Option<int> {
    find_crlf_from(b, 1)
}

/// Whether `b` is an ASCII decimal digit.
pub open spec fn is_dec_digit(b: u8) -> bool {
    48 <= b <= 57
}

/// Whether every byte of `b` is an ASCII decimal digit.
pub open spec fn all_dec_digits(b: Seq<u8>) -> bool {
    forall|i: int| 0 <= i < b.len() ==> is_dec_digit(#[trigger] b[i])
}

/// `b` without its optional leading `+` sign.
pub open spec fn digit_seq_of(b: Seq<u8>) -> Seq<u8> {
    if b.len() > 0 && b[0] == 43 {
        b.drop_first()
    } else {
        b
    }
}

/// Whether `b` is a well-formed unsigned decimal: an optional `+` followed
/// by at least one digit.
pub open spec fn digits_wf(b: Seq<u8>) -> bool {
    digit_seq_of(b).len() > 0 && all_dec_digits(digit_seq_of(b))
}

/// The numeric value of a digit sequence, most significant digit first.
pub open spec fn dec_val(digs: Seq<u8>) -> int
    decreases digs,
{
    if digs.len() == 0 {
        0
    } else {
        dec_val(digs.drop_last()) * 10 + (digs.last() - 48)
    }
}

/// What parsing `b` as an unsigned decimal that must fit in `usize` yields.
pub open spec fn parse_usize_spec(b: Seq<u8>) -> Option<int> {
    if digits_wf(b) && dec_val(digit_seq_of(b)) <= usize::MAX {
        Option::Some(dec_val(digit_seq_of(b)))
    } else {
        Option::None
    }
}

/// The value of a digit sequence is never negative.
pub proof fn lemma_dec_val_nonneg(digs: Seq<u8>)
    requires
        all_dec_digits(digs),
    ensures
        dec_val(digs) >= 0,
    decreases digs.len(),
{
    if digs.len() > 0 {
        assert(all_dec_digits(digs.drop_last()));
        lemma_dec_val_nonneg(digs.drop_last());
    }
}

/// A prefix of a digit sequence never has a larger value than the whole.
pub proof fn lemma_dec_val_prefix(digs: Seq<u8>, i: int)
    requires
        0 <= i <= digs.len(),
        all_dec_digits(digs),
    ensures
        dec_val(digs.take(i)) <= dec_val(digs),
    decreases digs.len(),
{
    if i < digs.len() {
        assert(digs.drop_last().take(i) =~= digs.take(i));
        assert(all_dec_digits(digs.drop_last()));
        lemma_dec_val_prefix(digs.drop_last(), i);
        lemma_dec_val_nonneg(digs.drop_last());
    } else {
        assert(digs.take(i) =~= digs);
    }
}

/// The outcome of parsing a `*`- or `$`-prefixed length header.
pub ghost enum HeaderParse {
    /// No full header line is in the buffer yet.
    Incomplete,
    /// The line is too short or does not start with the expected tag byte.
    BadTag,
    /// The length text is not a decimal that fits in `usize`.
    BadLen,
    /// A parsed length and the number of header bytes consumed.
    Parsed(int, int),
}

/// What parsing a length header with tag byte `tag` from the front of `b`
/// yields.
pub open spec fn parse_header(tag: u8, b: Seq<u8>) -> HeaderParse {
    match find_crlf(b) {
        Option::None => HeaderParse::Incomplete,
        Option::Some(i) => {
            if i + 1 < 4 || b[0] != tag {
                HeaderParse::BadTag
            } else {
                match parse_usize_spec(b.subrange(1, i - 1)) {
                    Option::Some(n) => HeaderParse::Parsed(n, i + 1),
                    Option::None => HeaderParse::BadLen,
                }
            }
        },
    }
}

/// The outcome of decoding one bulk string from the front of a buffer.
pub ghost enum BulkParse {
    /// No full header line after the tag byte.
    NoHeader,
    /// The length text is not a decimal that fits in `usize`.
    BadLen,
    /// The declared payload does not fit in the buffer.
    Truncated,
    /// The payload is not valid UTF-8.
    NotUtf8,
    /// The decoded text and the total number of bytes consumed.
    Parsed(Seq<char>, int),
}

/// What decoding one bulk string from the front of `b` yields. The byte at
/// index 0 is skipped as the type tag; the decoded region is the length
/// line, the payload, and two trailing bytes.
pub open spec fn bulk_value_parse(b: Seq<u8>) -> BulkParse {
    match find_crlf(b.skip(1)) {
        Option::None => BulkParse::NoHeader,
        Option::Some(i) => {
            match parse_usize_spec(b.skip(1).subrange(0, i - 1)) {
                Option::None => BulkParse::BadLen,
                Option::Some(n) => {
                    let consumed = i + 2;
                    let end = consumed + n;
                    if end >= b.len() {
                        BulkParse::Truncated
                    } else if valid_utf8(b.subrange(consumed, end)) {
                        BulkParse::Parsed(decode_utf8(b.subrange(consumed, end)), end + 2)
                    } else {
                        BulkParse::NotUtf8
                    }
                },
            }
        },
    }
}

/// The outcome of decoding one simple string from the front of a buffer.
pub ghost enum SimpleParse {
    /// No full line after the tag byte.
    NoHeader,
    /// The line is not valid UTF-8.
    NotUtf8,
    /// The decoded text and the total number of bytes consumed.
    Parsed(Seq<char>, int),
}

/// What decoding one simple string from the front of `b` yields. The byte
/// at index 0 is skipped as the type tag; the text runs to the first CRLF.
pub open spec fn simple_value_parse(b: Seq<u8>) -> SimpleParse {
    match find_crlf(b.skip(1)) {
        Option::None => SimpleParse::NoHeader,
        Option::Some(i) => {
            let line = b.skip(1).subrange(0, i - 1);
            if valid_utf8(line) {
                SimpleParse::Parsed(decode_utf8(line), i + 2)
            } else {
                SimpleParse::NotUtf8
            }
        },
    }
}

/// Relies on `String::from_utf8`: it succeeds exactly on valid UTF-8 input,
/// and the returned string is the decoding of those bytes.
#[verifier::external_body]
fn string_from_utf8(bytes: Vec<u8>) -> (r: Option<String>)
    ensures
        r is Some <==> valid_utf8(bytes@),
        r matches Some(s) ==> s@ == decode_utf8(bytes@),
{
    String::from_utf8(bytes).ok()
}

impl RespType {
    /// Scan for the first CRLF pair; on success return the index of its
    /// `\n` byte (so the line body is everything before the `\r`).
    fn read_till_crlf(buf: &[u8]) -> (r: Option<usize>)
        ensures
            buf@.len() <= usize::MAX,
            match r {
                Option::Some(i) => find_crlf(buf@) == Option::Some(i as int) && 1 <= i < buf@.len(),
                Option::None => find_crlf(buf@) is None,
            },
    {
        let n = buf.len();
        let mut i: usize = 1;
        while i < n
            invariant
                1 <= i,
                n == buf@.len(),
                find_crlf(buf@) == find_crlf_from(buf@, i as int),
            decreases n - i,
        {
            let a: u8 = *slice_index_get(buf, i - 1);
            let c: u8 = *slice_index_get(buf, i);
            if a == 13 && c == 10 {
                return Option::Some(i);
            }
            i = i + 1;
        }
        Option::None
    }

    /// Parse an unsigned decimal (optional `+`, then digits) that must fit
    /// in `usize`.
    fn parse_usize_from_buf(buf: &[u8]) -> (r: Result<usize, RespError>)
        ensures
            match parse_usize_spec(buf@) {
                Option::Some(n) => r matches Ok(v) && v == n,
                Option::None => r matches Err(e) && e matches RespError::Other(m) && m@
                    == "Invalid value for an integer"@,
            },
    {
        let n = buf.len();
        let start: usize = if n > 0 && *slice_index_get(buf, 0) == 43 {
            1
        } else {
            0
        };
        let ghost digs = digit_seq_of(buf@);
        proof {
            assert(digs =~= buf@.subrange(start as int, n as int));
        }
        if n == start {
            return Result::Err(RespError::Other("Invalid value for an integer".to_owned()));
        }
        let mut acc: u128 = 0;
        let mut j: usize = start;
        while j < n
            invariant
                start <= j <= n,
                n == buf@.len(),
                n > start,
                digs == digit_seq_of(buf@),
                digs =~= buf@.subrange(start as int, n as int),
                all_dec_digits(digs.take(j - start)),
                acc as int == dec_val(digs.take(j - start)),
                acc <= usize::MAX as u128,
            decreases n - j,
        {
            let b: u8 = *slice_index_get(buf, j);
            if b < 48 || b > 57 {
                proof {
                    assert(digs[j - start] == b);
                    assert(!all_dec_digits(digs));
                }
                return Result::Err(RespError::Other("Invalid value for an integer".to_owned()));
            }
            acc = acc * 10 + ((b - 48) as u128);
            proof {
                assert(digs.take(j - start + 1).drop_last() =~= digs.take(j - start));
                assert(digs.take(j - start + 1).last() == b);
            }
            if acc > usize::MAX as u128 {
                proof {
                    if all_dec_digits(digs) {
                        lemma_dec_val_prefix(digs, j - start + 1);
                    }
                }
                return Result::Err(RespError::Other("Invalid value for an integer".to_owned()));
            }
            j = j + 1;
        }
        proof {
            assert(digs.take(n - start) =~= digs);
        }
        Result::Ok(acc as usize)
    }

    /// Parse the length header of a RESP array, `*<count>\r\n`, from the
    /// front of `src`; on success return the count and the bytes consumed.
    /// `Ok(None)` means the buffer does not yet hold a full header line.
    pub fn parse_array_len(src: &[u8]) -> (r: Result<Option<(usize, usize)>, RespError>)
        ensures
            match parse_header(42u8, src@) {
                HeaderParse::Incomplete => r matches Ok(o) && o is None,
                HeaderParse::BadTag => r matches Err(e) && e matches RespError::InvalidArray(m)
                    && m@ == "Not a valid RESP array"@,
                HeaderParse::BadLen => r matches Err(e) && e matches RespError::Other(m) && m@
                    == "Invalid value for an integer"@,
                HeaderParse::Parsed(n, c) => r matches Ok(o) && o matches Some((len, cons)) && len
                    == n && cons == c,
            },
    {
        let i = match Self::read_till_crlf(src) {
            Option::Some(i) => i,
            Option::None => {
                return Result::Ok(Option::None);
            },
        };
        let bytes_read = i + 1;
        if bytes_read < 4 || *slice_index_get(src, 0) != 42u8 {
            return Result::Err(RespError::InvalidArray("Not a valid RESP array".to_owned()));
        }
        match Self::parse_usize_from_buf(slice_subrange(src, 1, i - 1)) {
            Result::Ok(len) => Result::Ok(Option::Some((len, bytes_read))),
            Result::Err(e) => Result::Err(e),
        }
    }

    /// Parse the length header of a RESP bulk string, `$<len>\r\n`, from
    /// the front of `src`; on success return the length and the bytes
    /// consumed. `Ok(None)` means the buffer does not yet hold a full
    /// header line.
    pub fn parse_bulk_string_len(src: &[u8]) -> (r: Result<Option<(usize, usize)>, RespError>)
        ensures
            match parse_header(36u8, src@) {
                HeaderParse::Incomplete => r matches Ok(o) && o is None,
                HeaderParse::BadTag => r matches Err(e) && e matches RespError::InvalidBulkString(
                    m,
                ) && m@ == "Not a valid RESP bulk string"@,
                HeaderParse::BadLen => r matches Err(e) && e matches RespError::Other(m) && m@
                    == "Invalid value for an integer"@,
                HeaderParse::Parsed(n, c) => r matches Ok(o) && o matches Some((len, cons)) && len
                    == n && cons == c,
            },
    {
        let i = match Self::read_till_crlf(src) {
            Option::Some(i) => i,
            Option::None => {
                return Result::Ok(Option::None);
            },
        };
        let bytes_read = i + 1;
        if bytes_read < 4 || *slice_index_get(src, 0) != 36u8 {
            return Result::Err(
                RespError::InvalidBulkString("Not a valid RESP bulk string".to_owned()),
            );
        }
        match Self::parse_usize_from_buf(slice_subrange(src, 1, i - 1)) {
            Result::Ok(len) => Result::Ok(Option::Some((len, bytes_read))),
            Result::Err(e) => Result::Err(e),
        }
    }

    /// Decode one bulk string from the front of `buffer` (the leading `$`
    /// is skipped without being checked); on success return the value and
    /// the total bytes consumed, including the two bytes after the payload.
    pub fn new_bulk_string(buffer: &[u8]) -> (r: Result<(RespType, usize), RespError>)
        requires
            1 <= buffer@.len() <= usize::MAX - 2,
        ensures
            match bulk_value_parse(buffer@) {
                BulkParse::NoHeader => r matches Err(e) && e matches RespError::InvalidBulkString(
                    m,
                ) && m@ == "Invalid value for bulk string"@,
                BulkParse::BadLen => r matches Err(e) && e matches RespError::Other(m) && m@
                    == "Invalid value for an integer"@,
                BulkParse::Truncated => r matches Err(e) && e
                    matches RespError::InvalidBulkString(m) && m@
                    == "Invalid value for bulk string length"@,
                BulkParse::NotUtf8 => r matches Err(e) && e matches RespError::InvalidBulkString(m)
                    && m@ == "Bulk string value is not a valid UTF-8 string"@,
                BulkParse::Parsed(s, c) => r matches Ok((v, consumed)) && v@
                    == RespVal::BulkString(s) && consumed == c,
            },
    {
        let sub = slice_subrange(buffer, 1, buffer.len());
        proof {
            assert(sub@ =~= buffer@.skip(1));
        }
        let i = match Self::read_till_crlf(sub) {
            Option::Some(i) => i,
            Option::None => {
                return Result::Err(
                    RespError::InvalidBulkString("Invalid value for bulk string".to_owned()),
                );
            },
        };
        let bulkstr_len = match Self::parse_usize_from_buf(slice_subrange(sub, 0, i - 1)) {
            Result::Ok(l) => l,
            Result::Err(e) => {
                return Result::Err(e);
            },
        };
        let bytes_consumed = i + 2;
        if bulkstr_len >= buffer.len() - bytes_consumed {
            return Result::Err(
                RespError::InvalidBulkString("Invalid value for bulk string length".to_owned()),
            );
        }
        let bulkstr_end_idx = bytes_consumed + bulkstr_len;
        let payload = slice_to_vec(slice_subrange(buffer, bytes_consumed, bulkstr_end_idx));
        match string_from_utf8(payload) {
            Option::Some(bs) => Result::Ok((RespType::BulkString(bs), bulkstr_end_idx + 2)),
            Option::None => Result::Err(
                RespError::InvalidBulkString(
                    "Bulk string value is not a valid UTF-8 string".to_owned(),
                ),
            ),
        }
    }

    /// Decode one simple string from the front of `buffer` (the leading `+`
    /// is skipped without being checked); on success return the value and
    /// the total bytes consumed.
    pub fn new_simple_string(buffer: &[u8]) -> (r: Result<(RespType, usize), RespError>)
        requires
            1 <= buffer@.len(),
        ensures
            match simple_value_parse(buffer@) {
                SimpleParse::NoHeader => r matches Err(e) && e
                    matches RespError::InvalidSimpleString(m) && m@
                    == "Invalid value for simple string"@,
                SimpleParse::NotUtf8 => r matches Err(e) && e
                    matches RespError::InvalidSimpleString(m) && m@
                    == "Simple string value is not a valid UTF-8 string"@,
                SimpleParse::Parsed(s, c) => r matches Ok((v, consumed)) && v@
                    == RespVal::SimpleString(s) && consumed == c,
            },
    {
        let sub = slice_subrange(buffer, 1, buffer.len());
        proof {
            assert(sub@ =~= buffer@.skip(1));
        }
        let i = match Self::read_till_crlf(sub) {
            Option::Some(i) => i,
            Option::None => {
                return Result::Err(
                    RespError::InvalidSimpleString("Invalid value for simple string".to_owned()),
                );
            },
        };
        let line = slice_to_vec(slice_subrange(sub, 0, i - 1));
        match string_from_utf8(line) {
            Option::Some(ss) => Result::Ok((RespType::SimpleString(ss), i + 2)),
            Option::None => Result::Err(
                RespError::InvalidSimpleString(
                    "Simple string value is not a valid UTF-8 string".to_owned(),
                ),
            ),
        }
    }
}

} // verus!

verus! {

/// Whether `b` holds a CRLF pair anywhere a left-to-right scan would see
/// one.
pub open spec fn has_crlf_pair(b: Seq<u8>) -> bool {
    exists|i: int| 1 <= i < b.len() && b[i - 1] == 13 && #[trigger] b[i] == 10
}

/// The decimal digits of `n` are ASCII digits, and there is at least one.
pub proof fn lemma_dec_rep_digits(n: nat)
    ensures
        dec_rep(n).len() >= 1,
        all_dec_digits(dec_rep(n)),
    decreases n,
{
    if n >= 10 {
        lemma_dec_rep_digits(n / 10);
        assert forall|i: int| 0 <= i < dec_rep(n).len() implies is_dec_digit(
            #[trigger] dec_rep(n)[i],
        ) by {
            if i < dec_rep(n / 10).len() {
                assert(dec_rep(n)[i] == dec_rep(n / 10)[i]);
            }
        }
    }
}

/// Reading back the decimal digits of `n` yields `n`.
pub proof fn lemma_dec_val_dec_rep(n: nat)
    ensures
        dec_val(dec_rep(n)) == n,
    decreases n,
{
    if n < 10 {
        assert(dec_val(Seq::<u8>::empty()) == 0);
        assert(dec_rep(n).drop_last() =~= Seq::<u8>::empty());
        assert(dec_rep(n).last() == dec_digit(n));
        assert(dec_val(dec_rep(n)) == dec_val(Seq::<u8>::empty()) * 10 + (dec_digit(n) - 48));
    } else {
        lemma_dec_val_dec_rep(n / 10);
        assert(dec_rep(n).drop_last() =~= dec_rep(n / 10));
        assert(dec_rep(n).last() == dec_digit(n % 10));
        assert(dec_val(dec_rep(n)) == dec_val(dec_rep(n / 10)) * 10 + (dec_digit(n % 10) - 48));
    }
}

/// Parsing the decimal digits of `n` as an unsigned length succeeds and
/// yields `n`, whenever `n` is small enough to be a length at all.
pub proof fn lemma_parse_usize_dec_rep(n: nat)
    requires
        n <= usize::MAX,
    ensures
        parse_usize_spec(dec_rep(n)) == Option::Some(n as int),
{
    lemma_dec_rep_digits(n);
    lemma_dec_val_dec_rep(n);
    assert(dec_rep(n)[0] != 43);
    assert(digit_seq_of(dec_rep(n)) == dec_rep(n));
}

/// When the first CRLF pair of `b` stands at position `p`, the scan finds
/// exactly `p`.
pub proof fn lemma_find_crlf_exact(b: Seq<u8>, p: int)
    requires
        1 <= p < b.len(),
        b[p - 1] == 13,
        b[p] == 10,
        forall|j: int| 1 <= j < p ==> !(b[j - 1] == 13 && #[trigger] b[j] == 10),
    ensures
        find_crlf(b) == Option::Some(p),
{
    lemma_find_crlf_exact_from(b, p, 1);
}

proof fn lemma_find_crlf_exact_from(b: Seq<u8>, p: int, i: int)
    requires
        1 <= i <= p < b.len(),
        b[p - 1] == 13,
        b[p] == 10,
        forall|j: int| i <= j < p ==> !(b[j - 1] == 13 && #[trigger] b[j] == 10),
    ensures
        find_crlf_from(b, i) == Option::Some(p),
    decreases p - i,
{
    if i < p {
        lemma_find_crlf_exact_from(b, p, i + 1);
    }
}

/// A length header built from a tag byte, the decimal digits of `n`, and a
/// CRLF parses back to `n`, whatever follows it.
pub proof fn lemma_len_header(tag: u8, n: nat, body: Seq<u8>)
    requires
        n <= usize::MAX,
        tag != 13,
        !is_dec_digit(tag),
    ensures
        ({
            let b = seq![tag] + dec_rep(n) + crlf() + body;
            parse_header(tag, b) == HeaderParse::Parsed(n as int, dec_rep(n).len() as int + 3)
        }),
{
    let digits = dec_rep(n);
    let dlen = digits.len() as int;
    let b = seq![tag] + digits + crlf() + body;
    lemma_dec_rep_digits(n);
    let p = dlen + 2;
    assert(b[p - 1] == 13 && b[p] == 10);
    assert forall|j: int| 1 <= j < p implies !(b[j - 1] == 13 && #[trigger] b[j] == 10) by {
        if j - 1 == 0 {
            assert(b[0] == tag);
        } else if j - 1 <= dlen {
            assert(b[j - 1] == digits[j - 2]);
            assert(is_dec_digit(digits[j - 2]));
        }
    }
    lemma_find_crlf_exact(b, p);
    assert(b.subrange(1, p - 1) =~= digits);
    lemma_parse_usize_dec_rep(n);
}

/// Round trip for bulk strings: decoding the encoding of any text, with
/// any bytes following it, yields that text back and consumes exactly the
/// encoding.
pub proof fn lemma_bulk_round_trip(s: Seq<char>, rest: Seq<u8>)
    requires
        encode_utf8(s).len() <= usize::MAX,
    ensures
        bulk_value_parse(encode_val(RespVal::BulkString(s)) + rest) == BulkParse::Parsed(
            s,
            encode_val(RespVal::BulkString(s)).len() as int,
        ),
{
    broadcast use vstd::utf8::encode_utf8_valid_utf8, vstd::utf8::encode_utf8_decode_utf8;

    let payload = encode_utf8(s);
    let n = payload.len();
    let digits = dec_rep(n);
    let dlen = digits.len() as int;
    let b = encode_val(RespVal::BulkString(s)) + rest;
    assert(b =~= seq![36u8] + digits + crlf() + (payload + crlf() + rest));
    lemma_len_header(36u8, n, payload + crlf() + rest);
    assert(parse_header(36u8, b) == HeaderParse::Parsed(n as int, dlen + 3));
    assert(b[0] == 36u8);
    lemma_find_crlf_shift_back(b);
    let c = dlen + 3;
    let i = c - 1;
    assert(find_crlf(b) == Option::Some(i));
    assert(find_crlf(b.skip(1)) == Option::Some(i - 1));
    assert(b.skip(1).subrange(0, i - 2) =~= digits);
    lemma_parse_usize_dec_rep(n);
    let end = c + n;
    assert(b.len() == end + 2 + rest.len());
    assert(b.subrange(c, end) =~= payload);
    assert(valid_utf8(payload));
    assert(decode_utf8(payload) == s);
}

/// Searching for a CRLF pair in `b` from position `j + 1` finds exactly
/// what a search in `b` without its first byte finds from position `j`,
/// shifted by one.
proof fn lemma_find_crlf_from_shift(b: Seq<u8>, j: int)
    requires
        1 <= j,
        b.len() >= 1,
    ensures
        match find_crlf_from(b.skip(1), j) {
            Option::Some(x) => find_crlf_from(b, j + 1) == Option::Some(x + 1),
            Option::None => find_crlf_from(b, j + 1) is None,
        },
    decreases b.len() - j,
{
    let sub = b.skip(1);
    if j < sub.len() {
        assert(sub[j - 1] == b[j]);
        assert(sub[j] == b[j + 1]);
        if !(sub[j - 1] == 13 && sub[j] == 10) {
            lemma_find_crlf_from_shift(b, j + 1);
        }
    }
}

/// When the first byte of `b` is not `\r`, the first CRLF pair of `b` is
/// the first CRLF pair of `b` without that byte, shifted by one.
pub proof fn lemma_find_crlf_shift(b: Seq<u8>)
    requires
        b.len() >= 1,
        b[0] != 13,
    ensures
        match find_crlf(b.skip(1)) {
            Option::Some(x) => find_crlf(b) == Option::Some(x + 1),
            Option::None => find_crlf(b) is None,
        },
{
    lemma_find_crlf_from_shift(b, 1);
}

/// When the first byte of `b` is not `\r` and a CRLF pair was found in the
/// whole of `b`, the scan without the first byte finds the same pair.
pub proof fn lemma_find_crlf_shift_back(b: Seq<u8>)
    requires
        b.len() >= 1,
        b[0] != 13,
        find_crlf(b) is Some,
    ensures
        find_crlf(b.skip(1)) == Option::Some(find_crlf(b).unwrap() - 1),
{
    lemma_find_crlf_shift(b);
    match find_crlf(b.skip(1)) {
        Option::Some(_) => {},
        Option::None => {
            assert(false);
        },
    }
}

/// Round trip for simple strings: decoding the encoding of any single-line
/// text, with any bytes following it, yields that text back and consumes
/// exactly the encoding.
pub proof fn lemma_simple_round_trip(s: Seq<char>, rest: Seq<u8>)
    requires
        !has_crlf_pair(encode_utf8(s)),
    ensures
        simple_value_parse(encode_val(RespVal::SimpleString(s)) + rest) == SimpleParse::Parsed(
            s,
            encode_val(RespVal::SimpleString(s)).len() as int,
        ),
{
    broadcast use vstd::utf8::encode_utf8_valid_utf8, vstd::utf8::encode_utf8_decode_utf8;

    let payload = encode_utf8(s);
    let plen = payload.len() as int;
    let b = encode_val(RespVal::SimpleString(s)) + rest;
    let sub = b.skip(1);
    assert(sub =~= payload + crlf() + rest);
    let p = plen + 1;
    assert(sub[p - 1] == 13 && sub[p] == 10);
    assert forall|j: int| 1 <= j < p implies !(sub[j - 1] == 13 && #[trigger] sub[j] == 10) by {
        if j < p - 1 {
            assert(sub[j - 1] == payload[j - 1] && sub[j] == payload[j]);
            assert(!(payload[j - 1] == 13 && payload[j] == 10));
        } else {
            assert(sub[j] == 13);
        }
    }
    lemma_find_crlf_exact(sub, p);
    assert(sub.subrange(0, p - 1) =~= payload);
    assert(valid_utf8(payload));
    assert(decode_utf8(payload) == s);
}

} // verus!
