use vstd::prelude::*;

verus! {

use crate::command::CommandError;
use crate::resp::types::{resp_vals_of, RespType, RespVal};

/// The PING command: replies `PONG`, or echoes its optional message.
#[derive(Debug, Clone)]
pub struct Ping {
    message: Option<String>,
}

/// What building a PING from its argument values yields: the optional
/// message, or the description of the rejection.
pub open spec fn ping_build_spec(args: Seq<RespVal>) -> Result<Option<Seq<char>>, Seq<char>> {
    if args.len() == 0 {
        Result::Ok(Option::None)
    } else if args[0] is BulkString {
        Result::Ok(Option::Some(args[0]->BulkString_0))
    } else {
        Result::Err("Invalid message"@)
    }
}

/// The reply PING gives: `PONG` without a message, the message echoed back
/// otherwise.
pub open spec fn ping_reply(message: Option<Seq<char>>) -> RespVal {
    match message {
        Option::Some(m) => RespVal::BulkString(m),
        Option::None => RespVal::SimpleString("PONG"@),
    }
}

impl View for Ping {
    type V = Option<Seq<char>>;

    closed spec fn view(&self) -> Option<Seq<char>> {
        match self.message {
            Option::Some(m) => Option::Some(m@),
            Option::None => Option::None,
        }
    }
}

impl Ping {
    /// Builds a PING from its arguments: no argument means a bare ping, and
    /// a first argument, which must be a bulk string, is the message to
    /// echo.
    pub fn with_args(args: Vec<RespType>) -> (r: Result<Ping, CommandError>)
        ensures
            match ping_build_spec(resp_vals_of(args@)) {
                Result::Ok(m) => r matches Ok(p) && p@ == m,
                Result::Err(msg) => r matches Err(e) && e matches CommandError::Other(m) && m@
                    == msg,
            },
    {
        proof {
            crate::resp::types::lemma_resp_vals_of(args@);
        }
        if args.len() == 0 {
            return Result::Ok(Ping { message: Option::None });
        }

        let message = match &args[0] {
            RespType::BulkString(s) => s.clone(),
            _ => {
                return Result::Err(CommandError::Other("Invalid message".to_owned()));
            },
        };

        Result::Ok(Ping { message: Option::Some(message) })
    }

    /// Executes the PING command: `PONG` as a simple string when no message
    /// was given, else the message as a bulk string.
    pub fn apply(&self) -> (r: RespType)
        ensures
            r@ == ping_reply(self@),
    {
        if let Option::Some(msg) = &self.message {
            RespType::BulkString(msg.clone())
        } else {
            RespType::SimpleString("PONG".to_owned())
        }
    }
}

} // verus!
