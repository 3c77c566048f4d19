use vstd::prelude::*;

verus! {

use crate::command::CommandError;
use crate::resp::types::{resp_vals_of, RespType, RespVal};
use crate::storage::db::{store_ok, StoreModel, StoredVal, DB};

/// The GET command: retrieves the string value stored against a key.
#[derive(Debug, Clone)]
pub struct Get {
    /// Key to be looked up in the store.
    key: String,
}

/// What building a GET from its argument values yields: the key, or the
/// description of the rejection.
pub open spec fn get_build_spec(args: Seq<RespVal>) -> Result<Seq<char>, Seq<char>> {
    if args.len() < 1 {
        Result::Err("Wrong number of arguments specified for 'GET' command"@)
    } else if args[0] is BulkString {
        Result::Ok(args[0]->BulkString_0)
    } else {
        Result::Err("Invalid argument. Key must be a bulk string"@)
    }
}

/// The reply GET gives against store `s`: the stored string, a null bulk
/// string when the key is absent, and the type-mismatch report when the key
/// holds a list.
pub open spec fn get_reply(s: StoreModel, k: Seq<char>) -> RespVal {
    if !s.dom().contains(k) {
        RespVal::NullBulkString
    } else {
        match s[k] {
            StoredVal::Str(t) => RespVal::BulkString(t),
            StoredVal::List(_) => RespVal::SimpleError(
                "WRONGTYPE Operation against a key holding the wrong kind of value"@,
            ),
        }
    }
}

impl View for Get {
    type V = Seq<char>;

    closed spec fn view(&self) -> Seq<char> {
        self.key@
    }
}

impl Get {
    /// Builds a GET from its arguments: the first argument, which must be a
    /// bulk string, is the key.
    pub fn with_args(args: Vec<RespType>) -> (r: Result<Get, CommandError>)
        ensures
            match get_build_spec(resp_vals_of(args@)) {
                Result::Ok(k) => r matches Ok(g) && g@ == k,
                Result::Err(msg) => r matches Err(e) && e matches CommandError::Other(m) && m@
                    == msg,
            },
    {
        proof {
            crate::resp::types::lemma_resp_vals_of(args@);
        }
        if args.len() < 1 {
            return Result::Err(
                CommandError::Other("Wrong number of arguments specified for 'GET' command".to_owned()),
            );
        }

        let key = match &args[0] {
            RespType::BulkString(k) => k.clone(),
            _ => {
                return Result::Err(
                    CommandError::Other("Invalid argument. Key must be a bulk string".to_owned()),
                );
            },
        };

        Result::Ok(Get { key })
    }

    /// Executes the GET command against one atomically observed store
    /// state: the value as a bulk string, a null bulk string for an absent
    /// key, and a type-mismatch error reply when the key holds a list.
    pub fn apply(&self, db: &DB) -> (r: RespType)
        ensures
            exists|s: StoreModel| store_ok(s) && r@ == get_reply(s, self@),
    {
        let res = db.get(self.key.as_str());
        let ghost s = choose|s: StoreModel|
            store_ok(s) && crate::storage::db::get_matches(s, self.key@, res);
        let reply = match res {
            Result::Ok(val) => match val {
                Option::Some(v) => RespType::BulkString(v),
                Option::None => RespType::NullBulkString,
            },
            Result::Err(e) => RespType::SimpleError(e.message()),
        };
        proof {
            assert(store_ok(s) && reply@ == get_reply(s, self@));
        }
        reply
    }
}

} // verus!
