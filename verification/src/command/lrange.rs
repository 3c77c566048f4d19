use vstd::prelude::*;

verus! {

use crate::command::CommandError;
use crate::resp::types::{resp_vals_of, RespType, RespVal};
use crate::storage::db::{range_model, store_ok, StoreModel, StoredVal, DB};
use vstd::string::StrSliceExecFns;

/// Whether `c` is an ASCII decimal digit.
pub open spec fn is_digit_char(c: char) -> bool {
    48 <= c as int <= 57
}

/// Whether every character of `s` is an ASCII decimal digit.
pub open spec fn all_digit_chars(s: Seq<char>) -> bool {
    forall|i: int| 0 <= i < s.len() ==> is_digit_char(#[trigger] s[i])
}

/// `s` without its optional leading sign.
pub open spec fn signed_digits(s: Seq<char>) -> Seq<char> {
    if s.len() > 0 && (s[0] == '+' || s[0] == '-') {
        s.drop_first()
    } else {
        s
    }
}

/// Whether `s` carries a minus sign.
pub open spec fn is_neg(s: Seq<char>) -> bool {
    s.len() > 0 && s[0] == '-'
}

/// The numeric value of a digit sequence, most significant digit first.
pub open spec fn char_digits_val(s: Seq<char>) -> int
    decreases s,
{
    if s.len() == 0 {
        0
    } else {
        char_digits_val(s.drop_last()) * 10 + (s.last() as int - 48)
    }
}

/// What parsing `s` as a signed decimal that must fit in `i64` yields: an
/// optional sign, then at least one digit, with nothing else allowed.
pub open spec fn parse_i64_spec(s: Seq<char>) -> Option<int> {
    let digs = signed_digits(s);
    if digs.len() == 0 || !all_digit_chars(digs) {
        Option::None
    } else {
        let v = if is_neg(s) {
            -char_digits_val(digs)
        } else {
            char_digits_val(digs)
        };
        if i64::MIN <= v <= i64::MAX {
            Option::Some(v)
        } else {
            Option::None
        }
    }
}

/// The value of a digit sequence is never negative.
proof fn lemma_char_digits_val_nonneg(s: Seq<char>)
    requires
        all_digit_chars(s),
    ensures
        char_digits_val(s) >= 0,
    decreases s.len(),
{
    if s.len() > 0 {
        assert(all_digit_chars(s.drop_last()));
        lemma_char_digits_val_nonneg(s.drop_last());
    }
}

/// A prefix of a digit sequence never has a larger value than the whole.
proof fn lemma_char_digits_val_prefix(s: Seq<char>, i: int)
    requires
        0 <= i <= s.len(),
        all_digit_chars(s),
    ensures
        char_digits_val(s.take(i)) <= char_digits_val(s),
    decreases s.len(),
{
    if i < s.len() {
        assert(s.drop_last().take(i) =~= s.take(i));
        assert(all_digit_chars(s.drop_last()));
        lemma_char_digits_val_prefix(s.drop_last(), i);
        lemma_char_digits_val_nonneg(s.drop_last());
    } else {
        assert(s.take(i) =~= s);
    }
}

/// Parse a signed decimal integer from text, exactly as `parse_i64_spec`
/// describes.
fn parse_i64(s: &str) -> (r: Option<i64>)
    ensures
        match parse_i64_spec(s@) {
            Option::Some(v) => r matches Some(x) && x == v,
            Option::None => r is None,
        },
{
    let n = s.unicode_len();
    let mut start: usize = 0;
    let mut neg: bool = false;
    if n > 0 {
        let c0 = s.get_char(0);
        if c0 == '-' {
            start = 1;
            neg = true;
        } else if c0 == '+' {
            start = 1;
        }
    }
    let ghost digs = signed_digits(s@);
    proof {
        assert(digs =~= s@.subrange(start as int, n as int));
    }
    if n == start {
        return Option::None;
    }
    let mut acc: u128 = 0;
    let mut j: usize = start;
    while j < n
        invariant
            start <= j <= n,
            n == s@.len(),
            n > start,
            digs == signed_digits(s@),
            digs =~= s@.subrange(start as int, n as int),
            all_digit_chars(digs.take(j - start)),
            acc as int == char_digits_val(digs.take(j - start)),
            acc <= (i64::MAX as u128) + 1,
        decreases n - j,
    {
        let c = s.get_char(j);
        let x: u32 = c as u32;
        if x < 48 || x > 57 {
            proof {
                assert(digs[j - start] == c);
                assert(!all_digit_chars(digs));
            }
            return Option::None;
        }
        acc = acc * 10 + ((x - 48) as u128);
        proof {
            assert(digs.take(j - start + 1).drop_last() =~= digs.take(j - start));
            assert(digs.take(j - start + 1).last() == c);
        }
        if acc > (i64::MAX as u128) + 1 {
            proof {
                if all_digit_chars(digs) {
                    lemma_char_digits_val_prefix(digs, j - start + 1);
                }
            }
            return Option::None;
        }
        j = j + 1;
    }
    proof {
        assert(digs.take(n - start) =~= digs);
    }
    if neg {
        if acc == (i64::MAX as u128) + 1 {
            Option::Some(i64::MIN)
        } else {
            Option::Some(-(acc as i64))
        }
    } else {
        if acc > i64::MAX as u128 {
            Option::None
        } else {
            Option::Some(acc as i64)
        }
    }
}

/// The LRANGE command: reads an inclusive sub-list of the list at a key.
#[derive(Debug, Clone)]
pub struct LRange {
    key: String,
    start_idx: i64,
    end_idx: i64,
}

/// What building an LRANGE from its argument values yields: the key and the
/// raw start and stop indices, or the description of the rejection.
pub open spec fn lrange_build_spec(args: Seq<RespVal>) -> Result<(Seq<char>, int, int), Seq<char>> {
    if args.len() < 3 {
        Result::Err("Wrong number of arguments specified for 'LRANGE' command"@)
    } else if !(args[0] is BulkString) {
        Result::Err("Invalid argument. Key must be a bulk string"@)
    } else if !(args[1] is BulkString) {
        Result::Err("Invalid argument. Value must be an integer in bulk string format"@)
    } else if parse_i64_spec(args[1]->BulkString_0) is None {
        Result::Err("Start index should be an integer"@)
    } else if !(args[2] is BulkString) {
        Result::Err("Invalid argument. Value must be an integer in bulk string format"@)
    } else if parse_i64_spec(args[2]->BulkString_0) is None {
        Result::Err("End index should be an integer"@)
    } else {
        Result::Ok(
            (
                args[0]->BulkString_0,
                parse_i64_spec(args[1]->BulkString_0).unwrap(),
                parse_i64_spec(args[2]->BulkString_0).unwrap(),
            ),
        )
    }
}

/// The reply LRANGE gives against store `s`: the rounded inclusive
/// sub-list as an array of bulk strings, an empty array when the key is
/// absent, and the type-mismatch report when the key holds a string.
pub open spec fn lrange_reply(s: StoreModel, k: Seq<char>, start: int, stop: int) -> RespVal {
    if !s.dom().contains(k) {
        RespVal::Array(Seq::empty())
    } else {
        match s[k] {
            StoredVal::Str(_) => RespVal::SimpleError(
                "WRONGTYPE Operation against a key holding the wrong kind of value"@,
            ),
            StoredVal::List(l) => RespVal::Array(
                range_model(l, start, stop).map_values(|t: Seq<char>| RespVal::BulkString(t)),
            ),
        }
    }
}

impl View for LRange {
    type V = (Seq<char>, int, int);

    closed spec fn view(&self) -> (Seq<char>, int, int) {
        (self.key@, self.start_idx as int, self.end_idx as int)
    }
}

impl LRange {
    /// Builds an LRANGE from its arguments: a key and two indices, each a
    /// bulk string whose text must parse as a signed decimal integer.
    pub fn with_args(args: Vec<RespType>) -> (r: Result<LRange, CommandError>)
        ensures
            match lrange_build_spec(resp_vals_of(args@)) {
                Result::Ok(kab) => r matches Ok(c) && c@ == kab,
                Result::Err(msg) => r matches Err(e) && e matches CommandError::Other(m) && m@
                    == msg,
            },
    {
        proof {
            crate::resp::types::lemma_resp_vals_of(args@);
        }
        if args.len() < 3 {
            return Result::Err(
                CommandError::Other(
                    "Wrong number of arguments specified for 'LRANGE' command".to_owned(),
                ),
            );
        }

        let key = match &args[0] {
            RespType::BulkString(k) => k.clone(),
            _ => {
                return Result::Err(
                    CommandError::Other("Invalid argument. Key must be a bulk string".to_owned()),
                );
            },
        };

        let start_idx = match &args[1] {
            RespType::BulkString(v) => match parse_i64(v.as_str()) {
                Option::Some(i) => i,
                Option::None => {
                    return Result::Err(
                        CommandError::Other("Start index should be an integer".to_owned()),
                    );
                },
            },
            _ => {
                return Result::Err(
                    CommandError::Other(
                        "Invalid argument. Value must be an integer in bulk string format".to_owned(),
                    ),
                );
            },
        };

        let end_idx = match &args[2] {
            RespType::BulkString(v) => match parse_i64(v.as_str()) {
                Option::Some(i) => i,
                Option::None => {
                    return Result::Err(
                        CommandError::Other("End index should be an integer".to_owned()),
                    );
                },
            },
            _ => {
                return Result::Err(
                    CommandError::Other(
                        "Invalid argument. Value must be an integer in bulk string format".to_owned(),
                    ),
                );
            },
        };

        Result::Ok(LRange { key, start_idx, end_idx })
    }

    /// Executes the LRANGE command against one atomically observed store
    /// state: the selected elements as an array of bulk strings, or an
    /// error reply.
    pub fn apply(&self, db: &DB) -> (r: RespType)
        ensures
            exists|s: StoreModel|
                store_ok(s) && r@ == lrange_reply(s, (self@).0, (self@).1, (self@).2),
    {
        let res = db.lrange(self.key.clone(), self.start_idx, self.end_idx);
        let ghost s = choose|s: StoreModel|
            store_ok(s) && crate::storage::db::lrange_matches(
                s,
                self.key@,
                self.start_idx as int,
                self.end_idx as int,
                res,
            );
        match res {
            Result::Ok(elems) => {
                let mut sub_list: Vec<RespType> = Vec::new();
                let mut i: usize = 0;
                while i < elems.len()
                    invariant
                        i <= elems@.len(),
                        sub_list@.len() == i,
                        forall|j: int|
                            0 <= j < i ==> (#[trigger] sub_list@[j]@) == RespVal::BulkString(
                                elems.deep_view()[j],
                            ),
                    decreases elems@.len() - i,
                {
                    let piece: String = elems[i].clone();
                    sub_list.push(RespType::BulkString(piece));
                    i = i + 1;
                }
                let reply = RespType::Array(sub_list);
                proof {
                    crate::resp::types::lemma_resp_vals_of(sub_list@);
                    if s.dom().contains(self.key@) {
                        assert(s[self.key@] is List);
                        let l = s[self.key@]->List_0;
                        assert(elems.deep_view() == range_model(
                            l,
                            self.start_idx as int,
                            self.end_idx as int,
                        ));
                        assert forall|j: int| 0 <= j < sub_list@.len() implies resp_vals_of(
                            sub_list@,
                        )[j] == range_model(l, self.start_idx as int, self.end_idx as int).map_values(
                            |t: Seq<char>| RespVal::BulkString(t),
                        )[j] by {
                            assert(sub_list@[j]@ == RespVal::BulkString(elems.deep_view()[j]));
                        }
                    } else {
                        assert(elems@.len() == 0);
                    }
                    assert((reply@)->Array_0 =~= (lrange_reply(
                        s,
                        (self@).0,
                        (self@).1,
                        (self@).2,
                    ))->Array_0);
                }
                reply
            },
            Result::Err(e) => {
                let reply = RespType::SimpleError(e.message());
                proof {
                    assert(reply@ == lrange_reply(s, (self@).0, (self@).1, (self@).2));
                }
                reply
            },
        }
    }
}

} // verus!
