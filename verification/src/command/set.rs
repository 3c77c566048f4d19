use vstd::prelude::*;

verus! {

use crate::command::CommandError;
use crate::resp::types::{resp_vals_of, RespType, RespVal};
use crate::storage::db::{store_ok, StoreModel, Value, DB};

/// The SET command: stores a string value against a key.
#[derive(Debug, Clone)]
pub struct SetCmd {
    key: String,
    value: String,
}

/// What building a SET from its argument values yields: the key and value,
/// or the description of the rejection.
pub open spec fn set_build_spec(args: Seq<RespVal>) -> Result<(Seq<char>, Seq<char>), Seq<char>> {
    if args.len() < 2 {
        Result::Err("Wrong number of arguments specified for 'SET' command"@)
    } else if !(args[0] is BulkString) {
        Result::Err("Invalid argument. Key must be a bulk string"@)
    } else if !(args[1] is BulkString) {
        Result::Err("Invalid argument. Value must be a bulk string"@)
    } else {
        Result::Ok((args[0]->BulkString_0, args[1]->BulkString_0))
    }
}

/// The reply SET gives against store `s`: `OK`, or the type-mismatch report
/// when the key holds a list.
pub open spec fn set_reply(s: StoreModel, k: Seq<char>) -> RespVal {
    if s.dom().contains(k) && s[k] is List {
        RespVal::SimpleError("WRONGTYPE Operation against a key holding the wrong kind of value"@)
    } else {
        RespVal::BulkString("OK"@)
    }
}

impl View for SetCmd {
    type V = (Seq<char>, Seq<char>);

    closed spec fn view(&self) -> (Seq<char>, Seq<char>) {
        (self.key@, self.value@)
    }
}

impl SetCmd {
    /// Builds a SET from its arguments: a key and a value, each of which
    /// must be a bulk string.
    pub fn with_args(args: Vec<RespType>) -> (r: Result<SetCmd, CommandError>)
        ensures
            match set_build_spec(resp_vals_of(args@)) {
                Result::Ok(kv) => r matches Ok(c) && c@ == kv,
                Result::Err(msg) => r matches Err(e) && e matches CommandError::Other(m) && m@
                    == msg,
            },
    {
        proof {
            crate::resp::types::lemma_resp_vals_of(args@);
        }
        if args.len() < 2 {
            return Result::Err(
                CommandError::Other("Wrong number of arguments specified for 'SET' command".to_owned()),
            );
        }

        let key = match &args[0] {
            RespType::BulkString(k) => k.clone(),
            _ => {
                return Result::Err(
                    CommandError::Other("Invalid argument. Key must be a bulk string".to_owned()),
                );
            },
        };

        let value = match &args[1] {
            RespType::BulkString(v) => v.clone(),
            _ => {
                return Result::Err(
                    CommandError::Other("Invalid argument. Value must be a bulk string".to_owned()),
                );
            },
        };

        Result::Ok(SetCmd { key, value })
    }

    /// Executes the SET command against one atomically updated store state:
    /// `OK` as a bulk string, or a type-mismatch error reply when the key
    /// held a list.
    pub fn apply(&self, db: &DB) -> (r: RespType)
        ensures
            exists|s: StoreModel| store_ok(s) && r@ == set_reply(s, (self@).0),
    {
        let res = db.set(self.key.clone(), Value::String(self.value.clone()));
        let ghost s = choose|s: StoreModel|
            store_ok(s) && crate::storage::db::set_matches(s, self.key@, res);
        let reply = match res {
            Result::Ok(_) => RespType::BulkString("OK".to_owned()),
            Result::Err(e) => RespType::SimpleError(e.message()),
        };
        proof {
            assert(store_ok(s) && reply@ == set_reply(s, (self@).0));
        }
        reply
    }
}

} // verus!
