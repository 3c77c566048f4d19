use vstd::prelude::*;

verus! {

use crate::command::CommandError;
use crate::command::lpush::{push_build_spec, push_reply};
use crate::resp::types::{resp_vals_of, RespType, RespVal};
use crate::storage::db::{store_ok, StoreModel, DB};

/// The RPUSH command: pushes values onto the tail of a list.
#[derive(Debug, Clone)]
pub struct RPush {
    key: String,
    values: Vec<String>,
}

impl View for RPush {
    type V = (Seq<char>, Seq<Seq<char>>);

    closed spec fn view(&self) -> (Seq<char>, Seq<Seq<char>>) {
        (self.key@, self.values.deep_view())
    }
}

impl RPush {
    /// Builds an RPUSH from its arguments: a key and at least one value,
    /// each of which must be a bulk string.
    #[verifier::loop_isolation(false)]
    pub fn with_args(args: Vec<RespType>) -> (r: Result<RPush, CommandError>)
        ensures
            match push_build_spec(
                resp_vals_of(args@),
                "Wrong number of arguments specified for 'RPUSH' command"@,
            ) {
                Result::Ok(kv) => r matches Ok(c) && c@ == kv,
                Result::Err(msg) => r matches Err(e) && e matches CommandError::Other(m) && m@
                    == msg,
            },
    {
        proof {
            crate::resp::types::lemma_resp_vals_of(args@);
        }
        if args.len() < 2 {
            return Result::Err(
                CommandError::Other(
                    "Wrong number of arguments specified for 'RPUSH' command".to_owned(),
                ),
            );
        }

        let key = match &args[0] {
            RespType::BulkString(k) => k.clone(),
            _ => {
                return Result::Err(
                    CommandError::Other("Invalid argument. Key must be a bulk string".to_owned()),
                );
            },
        };

        let mut values: Vec<String> = Vec::new();
        let mut i: usize = 1;
        while i < args.len()
            invariant
                1 <= i <= args@.len(),
                args@.len() >= 2,
                values@.len() == i - 1,
                forall|j: int| 1 <= j < i ==> (#[trigger] resp_vals_of(args@)[j]) is BulkString,
                forall|j: int|
                    0 <= j < i - 1 ==> values.deep_view()[j] == resp_vals_of(
                        args@,
                    )[j + 1]->BulkString_0,
            decreases args@.len() - i,
        {
            proof {
                crate::resp::types::lemma_resp_vals_of(args@);
            }
            match &args[i] {
                RespType::BulkString(v) => {
                    let piece: String = v.clone();
                    let ghost before = values.deep_view();
                    values.push(piece);
                    proof {
                        assert(values.deep_view()[i - 1] == resp_vals_of(
                            args@,
                        )[i as int]->BulkString_0);
                        assert(forall|j: int|
                            0 <= j < before.len() ==> #[trigger] values.deep_view()[j]
                                == before[j]);
                    }
                },
                _ => {
                    return Result::Err(
                        CommandError::Other(
                            "Invalid argument. Value must be a bulk string".to_owned(),
                        ),
                    );
                },
            }
            i = i + 1;
        }

        let r = RPush { key, values };
        proof {
            let args_v = resp_vals_of(args@);
            match push_build_spec(
                args_v,
                "Wrong number of arguments specified for 'RPUSH' command"@,
            ) {
                Result::Ok(kv) => {
                    assert(r@.0 == kv.0);
                    assert(r@.1 =~= kv.1);
                },
                Result::Err(_) => {},
            }
        }
        Result::Ok(r)
    }

    /// Executes the RPUSH command against one atomically updated store
    /// state: the resulting list length as an integer, or an error reply.
    pub fn apply(&self, db: &DB) -> (r: RespType)
        requires
            (self@).1.len() >= 1,
        ensures
            exists|s: StoreModel| store_ok(s) && r@ == push_reply(s, (self@).0, (self@).1),
    {
        let res = db.rpush(self.key.clone(), self.values.clone());
        let ghost s = choose|s: StoreModel|
            store_ok(s) && crate::storage::db::push_matches(
                s,
                self.key@,
                self.values.deep_view(),
                res,
            );
        let reply = match res {
            Result::Ok(len) => RespType::Integer(len as i64),
            Result::Err(e) => RespType::SimpleError(e.message()),
        };
        proof {
            assert(store_ok(s) && reply@ == push_reply(s, (self@).0, (self@).1));
        }
        reply
    }

    /// The full RPUSH request this command stands for, as a wire value: the
    /// command name, the key, then each value, all as bulk strings.
    #[verifier::loop_isolation(false)]
    pub fn build_command(&self) -> (r: RespType)
        ensures
            r@ is Array,
            (r@)->Array_0.len() == (self@).1.len() + 2,
            (r@)->Array_0[0] == RespVal::BulkString("RPUSH"@),
            (r@)->Array_0[1] == RespVal::BulkString((self@).0),
            forall|i: int|
                0 <= i < (self@).1.len() ==> (#[trigger] (r@)->Array_0[i + 2])
                    == RespVal::BulkString((self@).1[i]),
    {
        let mut args: Vec<RespType> = Vec::new();
        args.push(RespType::BulkString("RPUSH".to_owned()));
        args.push(RespType::BulkString(self.key.clone()));

        proof {
            crate::resp::types::lemma_resp_vals_of(args@);
        }
        let mut i: usize = 0;
        while i < self.values.len()
            invariant
                i <= self.values@.len(),
                args@.len() == i + 2,
                resp_vals_of(args@).len() == i + 2,
                resp_vals_of(args@)[0] == RespVal::BulkString("RPUSH"@),
                resp_vals_of(args@)[1] == RespVal::BulkString(self.key@),
                forall|j: int|
                    0 <= j < i ==> (#[trigger] resp_vals_of(args@)[j + 2]) == RespVal::BulkString(
                        self.values.deep_view()[j],
                    ),
            decreases self.values@.len() - i,
        {
            let piece: String = self.values[i].clone();
            let ghost before = args@;
            args.push(RespType::BulkString(piece));
            proof {
                crate::resp::types::lemma_resp_vals_of(args@);
                crate::resp::types::lemma_resp_vals_of(before);
                assert(forall|j: int| 0 <= j < before.len() ==> args@[j] == before[j]);
                assert(resp_vals_of(before)[0] == crate::resp::types::resp_val_of(before[0]));
                assert(resp_vals_of(before)[1] == crate::resp::types::resp_val_of(before[1]));
                assert(resp_vals_of(args@)[0] == crate::resp::types::resp_val_of(args@[0]));
                assert(resp_vals_of(args@)[1] == crate::resp::types::resp_val_of(args@[1]));
                assert(resp_vals_of(args@)[i + 2] == RespVal::BulkString(
                    self.values.deep_view()[i as int],
                ));
                assert forall|j: int| 0 <= j < i + 1 implies (#[trigger] resp_vals_of(args@)[j + 2])
                    == RespVal::BulkString(self.values.deep_view()[j]) by {
                    if j < i {
                        assert(resp_vals_of(before)[j + 2] == RespVal::BulkString(
                            self.values.deep_view()[j],
                        ));
                        assert(args@[j + 2] == before[j + 2]);
                        assert(resp_vals_of(before)[j + 2] == crate::resp::types::resp_val_of(
                            before[j + 2],
                        ));
                        assert(resp_vals_of(args@)[j + 2] == crate::resp::types::resp_val_of(
                            args@[j + 2],
                        ));
                    }
                }
            }
            i = i + 1;
        }

        let r = RespType::Array(args);
        r
    }
}

} // verus!
