pub mod get;
pub mod lpush;
pub mod lrange;
pub mod ping;
pub mod rpush;
pub mod set;

use vstd::prelude::*;

verus! {

use crate::command::get::{get_build_spec, get_reply, Get};
use crate::command::lpush::{push_build_spec, push_reply, LPush};
use crate::command::lrange::{lrange_build_spec, lrange_reply, LRange};
use crate::command::ping::{ping_build_spec, ping_reply, Ping};
use crate::command::rpush::RPush;
use crate::command::set::{set_build_spec, set_reply, SetCmd};
use crate::resp::types::{resp_vals_of, RespType, RespVal};
use crate::storage::db::{store_ok, StoreModel, DB};
use vstd::string::StrSliceExecFns;

/// The supported commands.
#[derive(Debug, Clone)]
pub enum Command {
    /// The PING command.
    Ping(Ping),
    /// The SET command.
    SetCmd(SetCmd),
    /// The GET command.
    Get(Get),
    /// The LPUSH command.
    LPush(LPush),
    /// The RPUSH command.
    RPush(RPush),
    /// The LRANGE command.
    LRange(LRange),
}

/// The mathematical shape of a command: its name and its parsed arguments.
pub ghost enum CommandModel {
    Ping(Option<Seq<char>>),
    SetCmd(Seq<char>, Seq<char>),
    Get(Seq<char>),
    LPush(Seq<char>, Seq<Seq<char>>),
    RPush(Seq<char>, Seq<Seq<char>>),
    LRange(Seq<char>, int, int),
}

impl View for Command {
    type V = CommandModel;

    open spec fn view(&self) -> CommandModel {
        match self {
            Command::Ping(c) => CommandModel::Ping(c@),
            Command::SetCmd(c) => CommandModel::SetCmd(c@.0, c@.1),
            Command::Get(c) => CommandModel::Get(c@),
            Command::LPush(c) => CommandModel::LPush(c@.0, c@.1),
            Command::RPush(c) => CommandModel::RPush(c@.0, c@.1),
            Command::LRange(c) => CommandModel::LRange(c@.0, c@.1, c@.2),
        }
    }
}

/// The lower-case form of an ASCII upper-case letter code; any other code
/// is left as it is.
pub open spec fn lower_code(c: int) -> int {
    if 65 <= c <= 90 {
        c + 32
    } else {
        c
    }
}

/// Whether two texts are equal up to ASCII letter case.
pub open spec fn eq_nocase(a: Seq<char>, b: Seq<char>) -> bool {
    a.len() == b.len() && forall|i: int|
        0 <= i < a.len() ==> lower_code(#[trigger] a[i] as int) == lower_code(#[trigger] b[i] as int)
}

/// Compare two texts for equality up to ASCII letter case.
fn eq_ignore_ascii_case(a: &str, b: &str) -> (r: bool)
    ensures
        r == eq_nocase(a@, b@),
{
    let alen = a.unicode_len();
    let blen = b.unicode_len();
    if alen != blen {
        return false;
    }
    let mut i: usize = 0;
    while i < alen
        invariant
            i <= alen,
            alen == a@.len(),
            alen == b@.len(),
            forall|j: int|
                0 <= j < i ==> lower_code(#[trigger] a@[j] as int) == lower_code(
                    #[trigger] b@[j] as int,
                ),
        decreases alen - i,
    {
        let ca: u32 = a.get_char(i) as u32;
        let cb: u32 = b.get_char(i) as u32;
        let la: u32 = if 65 <= ca && ca <= 90 {
            ca + 32
        } else {
            ca
        };
        let lb: u32 = if 65 <= cb && cb <= 90 {
            cb + 32
        } else {
            cb
        };
        if la != lb {
            return false;
        }
        i = i + 1;
    }
    true
}

/// How a command frame can be rejected: a first element that is not a bulk
/// string, an unrecognized command name, or a per-command validation
/// failure with its description.
pub ghost enum FrameParseErr {
    InvalidFormat,
    Unknown(Seq<char>),
    Other(Seq<char>),
}

/// What parsing a nonempty command frame yields: the command name is read
/// case-insensitively, and the remaining elements are handed to that
/// command's builder.
pub open spec fn parse_frame_spec(frame: Seq<RespVal>) -> Result<CommandModel, FrameParseErr> {
    if !(frame[0] is BulkString) {
        Result::Err(FrameParseErr::InvalidFormat)
    } else {
        let name = frame[0]->BulkString_0;
        let args = frame.drop_first();
        if eq_nocase(name, "ping"@) {
            match ping_build_spec(args) {
                Result::Ok(m) => Result::Ok(CommandModel::Ping(m)),
                Result::Err(msg) => Result::Err(FrameParseErr::Other(msg)),
            }
        } else if eq_nocase(name, "set"@) {
            match set_build_spec(args) {
                Result::Ok(kv) => Result::Ok(CommandModel::SetCmd(kv.0, kv.1)),
                Result::Err(msg) => Result::Err(FrameParseErr::Other(msg)),
            }
        } else if eq_nocase(name, "get"@) {
            match get_build_spec(args) {
                Result::Ok(k) => Result::Ok(CommandModel::Get(k)),
                Result::Err(msg) => Result::Err(FrameParseErr::Other(msg)),
            }
        } else if eq_nocase(name, "lpush"@) {
            match push_build_spec(
                args,
                "Wrong number of arguments specified for 'LPUSH' command"@,
            ) {
                Result::Ok(kv) => Result::Ok(CommandModel::LPush(kv.0, kv.1)),
                Result::Err(msg) => Result::Err(FrameParseErr::Other(msg)),
            }
        } else if eq_nocase(name, "rpush"@) {
            match push_build_spec(
                args,
                "Wrong number of arguments specified for 'RPUSH' command"@,
            ) {
                Result::Ok(kv) => Result::Ok(CommandModel::RPush(kv.0, kv.1)),
                Result::Err(msg) => Result::Err(FrameParseErr::Other(msg)),
            }
        } else if eq_nocase(name, "lrange"@) {
            match lrange_build_spec(args) {
                Result::Ok(kab) => Result::Ok(CommandModel::LRange(kab.0, kab.1, kab.2)),
                Result::Err(msg) => Result::Err(FrameParseErr::Other(msg)),
            }
        } else {
            Result::Err(FrameParseErr::Unknown(name))
        }
    }
}

/// The reply executing a command gives against store `s`.
pub open spec fn execute_reply(s: StoreModel, c: CommandModel) -> RespVal {
    match c {
        CommandModel::Ping(m) => ping_reply(m),
        CommandModel::SetCmd(k, _v) => set_reply(s, k),
        CommandModel::Get(k) => get_reply(s, k),
        CommandModel::LPush(k, vs) => push_reply(s, k, vs),
        CommandModel::RPush(k, vs) => push_reply(s, k, vs),
        CommandModel::LRange(k, a, b) => lrange_reply(s, k, a, b),
    }
}

impl Command {
    /// Parses a command from a decoded command frame: the first element is
    /// the command name, read case-insensitively, and the rest are its
    /// arguments.
    pub fn from_resp_command_frame(frame: Vec<RespType>) -> (r: Result<Command, CommandError>)
        requires
            frame@.len() >= 1,
        ensures
            match parse_frame_spec(resp_vals_of(frame@)) {
                Result::Ok(m) => r matches Ok(c) && c@ == m,
                Result::Err(FrameParseErr::InvalidFormat) => r matches Err(e) && e
                    is InvalidFormat,
                Result::Err(FrameParseErr::Unknown(n)) => r matches Err(e) && e
                    matches CommandError::UnknownCommand(u) && u.cmd@ == n,
                Result::Err(FrameParseErr::Other(msg)) => r matches Err(e) && e
                    matches CommandError::Other(m) && m@ == msg,
            },
    {
        proof {
            crate::resp::types::lemma_resp_vals_of(frame@);
        }
        let cmd_name: String = match &frame[0] {
            RespType::BulkString(s) => s.clone(),
            _ => {
                return Result::Err(CommandError::InvalidFormat);
            },
        };

        let mut args: Vec<RespType> = Vec::new();
        let mut i: usize = 1;
        while i < frame.len()
            invariant
                1 <= i <= frame@.len(),
                args@.len() == i - 1,
                forall|j: int| 0 <= j < i - 1 ==> (#[trigger] args@[j]@) == frame@[j + 1]@,
            decreases frame@.len() - i,
        {
            let piece: RespType = frame[i].clone();
            args.push(piece);
            i = i + 1;
        }
        proof {
            crate::resp::types::lemma_resp_vals_of(frame@);
            crate::resp::types::lemma_resp_vals_of(args@);
            assert forall|j: int| 0 <= j < args@.len() implies resp_vals_of(args@)[j]
                == resp_vals_of(frame@).drop_first()[j] by {
                assert(args@[j]@ == frame@[j + 1]@);
            }
            assert(resp_vals_of(args@) =~= resp_vals_of(frame@).drop_first());
        }

        let cmd = if eq_ignore_ascii_case(cmd_name.as_str(), "ping") {
            Command::Ping(Ping::with_args(args)?)
        } else if eq_ignore_ascii_case(cmd_name.as_str(), "set") {
            match SetCmd::with_args(args) {
                Result::Ok(cmd) => Command::SetCmd(cmd),
                Result::Err(e) => {
                    return Result::Err(e);
                },
            }
        } else if eq_ignore_ascii_case(cmd_name.as_str(), "get") {
            match Get::with_args(args) {
                Result::Ok(cmd) => Command::Get(cmd),
                Result::Err(e) => {
                    return Result::Err(e);
                },
            }
        } else if eq_ignore_ascii_case(cmd_name.as_str(), "lpush") {
            match LPush::with_args(args) {
                Result::Ok(cmd) => Command::LPush(cmd),
                Result::Err(e) => {
                    return Result::Err(e);
                },
            }
        } else if eq_ignore_ascii_case(cmd_name.as_str(), "rpush") {
            match RPush::with_args(args) {
                Result::Ok(cmd) => Command::RPush(cmd),
                Result::Err(e) => {
                    return Result::Err(e);
                },
            }
        } else if eq_ignore_ascii_case(cmd_name.as_str(), "lrange") {
            match LRange::with_args(args) {
                Result::Ok(cmd) => Command::LRange(cmd),
                Result::Err(e) => {
                    return Result::Err(e);
                },
            }
        } else {
            return Result::Err(
                CommandError::UnknownCommand(ErrUnknownCommand { cmd: cmd_name }),
            );
        };

        Result::Ok(cmd)
    }

    /// Executes the command against one atomically observed or updated
    /// store state, always producing a reply value (data errors become
    /// error replies, never failures).
    pub fn execute(&self, db: &DB) -> (r: RespType)
        requires
            self@ matches CommandModel::LPush(_k, vs) ==> vs.len() >= 1,
            self@ matches CommandModel::RPush(_k, vs) ==> vs.len() >= 1,
        ensures
            exists|s: StoreModel| store_ok(s) && r@ == execute_reply(s, self@),
    {
        match self {
            Command::Ping(ping) => {
                let r = ping.apply();
                proof {
                    let ghost s0 = Map::<Seq<char>, crate::storage::db::StoredVal>::empty();
                    assert(store_ok(s0) && r@ == execute_reply(s0, self@));
                }
                r
            },
            Command::SetCmd(set) => set.apply(db),
            Command::Get(get) => get.apply(db),
            Command::LPush(lpush) => lpush.apply(db),
            Command::RPush(rpush) => rpush.apply(db),
            Command::LRange(lrange) => lrange.apply(db),
        }
    }
}

/// The reply the server sends for one decoded command frame against store
/// `s`: the executed command's reply, or the parse failure as an error
/// reply.
pub open spec fn frame_reply(s: StoreModel, frame: Seq<RespVal>) -> RespVal {
    if frame.len() == 0 {
        RespVal::SimpleError("Invalid command format"@)
    } else {
        match parse_frame_spec(frame) {
            Result::Ok(m) => execute_reply(s, m),
            Result::Err(FrameParseErr::InvalidFormat) => RespVal::SimpleError(
                "Invalid command format"@,
            ),
            Result::Err(FrameParseErr::Unknown(n)) => RespVal::SimpleError(
                "Unknown command: "@ + n,
            ),
            Result::Err(FrameParseErr::Other(msg)) => RespVal::SimpleError(msg),
        }
    }
}

/// Serve one decoded command frame: parse it, execute it against the
/// store, and give the reply to send back. Command and data errors become
/// error replies; the connection stays usable.
pub fn handle_frame(frame: Vec<RespType>, db: &DB) -> (r: RespType)
    ensures
        exists|s: StoreModel| store_ok(s) && r@ == frame_reply(s, resp_vals_of(frame@)),
{
    proof {
        crate::resp::types::lemma_resp_vals_of(frame@);
    }
    if frame.len() == 0 {
        let r = RespType::SimpleError("Invalid command format".to_owned());
        proof {
            let ghost s0 = Map::<Seq<char>, crate::storage::db::StoredVal>::empty();
            assert(store_ok(s0) && r@ == frame_reply(s0, resp_vals_of(frame@)));
        }
        return r;
    }
    match Command::from_resp_command_frame(frame) {
        Result::Ok(cmd) => cmd.execute(db),
        Result::Err(e) => {
            let r = RespType::SimpleError(e.message());
            proof {
                let ghost s0 = Map::<Seq<char>, crate::storage::db::StoredVal>::empty();
                assert(store_ok(s0) && r@ == frame_reply(s0, resp_vals_of(frame@)));
            }
            r
        },
    }
}

/// All errors that can arise while parsing a command frame into a command.
#[derive(Debug)]
pub enum CommandError {
    /// The frame's first element is not a bulk string.
    InvalidFormat,
    /// The command name is not recognized.
    UnknownCommand(ErrUnknownCommand),
    /// Any other validation failure, with a description.
    Other(String),
}

/// The report for an unrecognized command name.
#[derive(Debug)]
pub struct ErrUnknownCommand {
    /// The name of the unknown command.
    pub cmd: String,
}

impl CommandError {
    /// The description of this error.
    pub open spec fn message_spec(&self) -> Seq<char> {
        match self {
            CommandError::InvalidFormat => "Invalid command format"@,
            CommandError::UnknownCommand(e) => "Unknown command: "@ + e.cmd@,
            CommandError::Other(m) => m@,
        }
    }

    /// Returns the description of this error.
    pub fn message(&self) -> (r: String)
        ensures
            r@ == self.message_spec(),
    {
        match self {
            CommandError::InvalidFormat => "Invalid command format".to_owned(),
            CommandError::UnknownCommand(e) => "Unknown command: ".to_owned().concat(
                e.cmd.as_str(),
            ),
            CommandError::Other(m) => m.clone(),
        }
    }
}

} // verus!
