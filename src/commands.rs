//! The command model: the commands this server knows, how they are read
//! from a RESP array, and how they are written back to one.
use vstd::prelude::*;
use crate::bytes::copy_of;
use crate::decimal::{
    digits_value, i64_text_value, int_text, is_numeral, lemma_int_text_short, lemma_int_text_value,
    lemma_nat_text_len, lemma_nat_text_numeral, nat_text, parse_i64_text, parse_numeral,
    push_int_text, push_nat_text,
};
use crate::resp::{
    encode, lemma_resp_items_view_len, resp_items_view, resp_items_wf, resp_view, resp_wf,
    serialize_resp_data, RespType, RespValue,
};

verus! {

/// A command that a connection can receive.
#[derive(Debug, PartialEq, Eq)]
pub enum Command {
    Ping,
    Echo(Vec<u8>),
    /// Key, value, and an optional lifetime in milliseconds.
    SetKey(Vec<u8>, Vec<u8>, Option<u64>),
    Get(Vec<u8>),
    /// A section name.
    Info(Vec<u8>),
    /// A sub-command and its optional operand.
    ReplConf(Vec<u8>, Option<Vec<u8>>),
    /// A replication id (or `?`) and an offset (or `-1`).
    Psync(Vec<u8>, Vec<u8>),
    /// The number of followers asked for, and a timeout in milliseconds.
    Wait(i64, i64),
}

/// What a command is, as a mathematical object.
pub enum CommandView {
    Ping,
    Echo(Seq<u8>),
    SetKey(Seq<u8>, Seq<u8>, Option<u64>),
    Get(Seq<u8>),
    Info(Seq<u8>),
    ReplConf(Seq<u8>, Option<Seq<u8>>),
    Psync(Seq<u8>, Seq<u8>),
    Wait(i64, i64),
}

impl View for Command {
    type V = CommandView;

    open spec fn view(&self) -> CommandView {
        match self {
            Command::Ping => CommandView::Ping,
            Command::Echo(m) => CommandView::Echo(m@),
            Command::SetKey(k, v, px) => CommandView::SetKey(k@, v@, *px),
            Command::Get(k) => CommandView::Get(k@),
            Command::Info(a) => CommandView::Info(a@),
            Command::ReplConf(a, None) => CommandView::ReplConf(a@, None),
            Command::ReplConf(a, Some(b)) => CommandView::ReplConf(a@, Some(b@)),
            Command::Psync(a, b) => CommandView::Psync(a@, b@),
            Command::Wait(n, t) => CommandView::Wait(*n, *t),
        }
    }
}

/// Why an array could not be read as a command.
#[derive(PartialEq, Eq, Structural, Debug, Clone, Copy)]
pub enum CommandError {
    /// A known command with the wrong number or kind of arguments, or a
    /// frame that is not an array of strings.
    MalformedCommand,
    /// A name that no command has.
    UnsupportedCommand,
}

impl CommandView {
    pub open spec fn is_write(self) -> bool {
        self is SetKey
    }
}

impl Command {
    /// Whether the command changes the store, and so goes to the followers.
    pub fn is_write(&self) -> (r: bool)
        ensures
            r == self@.is_write(),
    {
        match self {
            Command::SetKey(_, _, _) => true,
            _ => false,
        }
    }

    /// Reads a command from its name and its arguments.
    pub fn string_to_command(command: &Vec<u8>, args: &Vec<RespType>) -> (r: Result<
        Command,
        CommandError,
    >)
        ensures
            result_view(r) == command_of(command@, items_view(args@)),
    {
        args_to_command(command, args)
    }
}

pub open spec fn items_view(s: Seq<RespType>) -> Seq<RespValue> {
    s.map_values(|x: RespType| resp_view(x))
}

pub open spec fn result_view(r: Result<Command, CommandError>) -> Result<CommandView, CommandError> {
    match r {
        Ok(c) => Ok(c@),
        Err(e) => Err(e),
    }
}

// Command names and keywords, in upper case ASCII.
pub open spec fn word_ping() -> Seq<u8> {
    seq![80u8, 73, 78, 71]
}

pub open spec fn word_echo() -> Seq<u8> {
    seq![69u8, 67, 72, 79]
}

pub open spec fn word_set() -> Seq<u8> {
    seq![83u8, 69, 84]
}

pub open spec fn word_get() -> Seq<u8> {
    seq![71u8, 69, 84]
}

pub open spec fn word_info() -> Seq<u8> {
    seq![73u8, 78, 70, 79]
}

pub open spec fn word_replconf() -> Seq<u8> {
    seq![82u8, 69, 80, 76, 67, 79, 78, 70]
}

pub open spec fn word_psync() -> Seq<u8> {
    seq![80u8, 83, 89, 78, 67]
}

pub open spec fn word_wait() -> Seq<u8> {
    seq![87u8, 65, 73, 84]
}

pub open spec fn word_px() -> Seq<u8> {
    seq![80u8, 88]
}

pub open spec fn word_getack() -> Seq<u8> {
    seq![71u8, 69, 84, 65, 67, 75]
}

pub open spec fn word_ack() -> Seq<u8> {
    seq![65u8, 67, 75]
}

pub open spec fn ascii_upper(b: u8) -> u8 {
    if 97 <= b <= 122 {
        (b - 32) as u8
    } else {
        b
    }
}

/// `a` spells `word` (given in upper case), ignoring the case of ASCII letters.
pub open spec fn matches_word(a: Seq<u8>, word: Seq<u8>) -> bool {
    a.len() == word.len() && forall|i: int| 0 <= i < a.len() ==> ascii_upper(#[trigger] a[i]) == word[i]
}

/// A bulk or simple string argument, as bytes.
pub open spec fn arg_text(a: RespValue) -> Option<Seq<u8>> {
    match a {
        RespValue::BulkString(Some(b)) => Some(b),
        RespValue::SimpleString(t) => Some(t),
        _ => None,
    }
}

/// A millisecond count: digits that name a number within `u64`.
pub open spec fn millis_value(t: Seq<u8>) -> Option<u64> {
    if is_numeral(t) && digits_value(t) <= u64::MAX {
        Some(digits_value(t) as u64)
    } else {
        None
    }
}

pub open spec fn set_of(args: Seq<RespValue>) -> Result<CommandView, CommandError> {
    if !(args.len() == 2 || args.len() == 4) || arg_text(args[0]) is None || arg_text(args[1]) is None {
        Err(CommandError::MalformedCommand)
    } else if args.len() == 2 {
        Ok(CommandView::SetKey(arg_text(args[0])->0, arg_text(args[1])->0, None))
    } else {
        match (arg_text(args[2]), arg_text(args[3])) {
            (Some(opt), Some(ms)) => {
                if matches_word(opt, word_px()) && millis_value(ms) is Some {
                    Ok(CommandView::SetKey(arg_text(args[0])->0, arg_text(args[1])->0, millis_value(ms)))
                } else {
                    Err(CommandError::MalformedCommand)
                }
            },
            _ => Err(CommandError::MalformedCommand),
        }
    }
}

/// The command that a name and its arguments make.
pub open spec fn command_of(name: Seq<u8>, args: Seq<RespValue>) -> Result<CommandView, CommandError> {
    let malformed = Err(CommandError::MalformedCommand);
    if matches_word(name, word_ping()) {
        if args.len() == 0 {
            Ok(CommandView::Ping)
        } else {
            malformed
        }
    } else if matches_word(name, word_echo()) {
        if args.len() == 1 && arg_text(args[0]) is Some {
            Ok(CommandView::Echo(arg_text(args[0])->0))
        } else {
            malformed
        }
    } else if matches_word(name, word_set()) {
        set_of(args)
    } else if matches_word(name, word_get()) {
        if args.len() == 1 && arg_text(args[0]) is Some {
            Ok(CommandView::Get(arg_text(args[0])->0))
        } else {
            malformed
        }
    } else if matches_word(name, word_info()) {
        if args.len() == 1 && arg_text(args[0]) is Some {
            Ok(CommandView::Info(arg_text(args[0])->0))
        } else {
            malformed
        }
    } else if matches_word(name, word_replconf()) {
        if args.len() == 1 && arg_text(args[0]) is Some {
            Ok(CommandView::ReplConf(arg_text(args[0])->0, None))
        } else if args.len() == 2 && arg_text(args[0]) is Some && arg_text(args[1]) is Some {
            Ok(CommandView::ReplConf(arg_text(args[0])->0, arg_text(args[1])))
        } else {
            malformed
        }
    } else if matches_word(name, word_psync()) {
        if args.len() == 2 && arg_text(args[0]) is Some && arg_text(args[1]) is Some {
            Ok(CommandView::Psync(arg_text(args[0])->0, arg_text(args[1])->0))
        } else {
            malformed
        }
    } else if matches_word(name, word_wait()) {
        if args.len() == 2 && arg_text(args[0]) is Some && arg_text(args[1]) is Some {
            match (i64_text_value(arg_text(args[0])->0), i64_text_value(arg_text(args[1])->0)) {
                (Some(n), Some(t)) => Ok(CommandView::Wait(n as i64, t as i64)),
                _ => malformed,
            }
        } else {
            malformed
        }
    } else {
        Err(CommandError::UnsupportedCommand)
    }
}

/// The command that a frame carries: an array whose first element, a
/// string, names it, and whose other elements are its arguments.
pub open spec fn command_from_frame(frame: RespValue) -> Result<CommandView, CommandError> {
    match frame {
        RespValue::Array(items) => {
            if items.len() >= 1 && arg_text(items[0]) is Some {
                command_of(arg_text(items[0])->0, items.drop_first())
            } else {
                Err(CommandError::MalformedCommand)
            }
        },
        _ => Err(CommandError::MalformedCommand),
    }
}

/// A bulk or simple string argument, as bytes; `None` for any other kind.
pub fn turn_arg_to_string(arg: &RespType) -> (r: Option<Vec<u8>>)
    ensures
        match r {
            Some(b) => arg_text(arg@) == Some(b@),
            None => arg_text(arg@) is None,
        },
{
    match arg {
        RespType::BulkString(Some(b)) => Some(copy_of(b.as_slice())),
        RespType::SimpleString(t) => Some(copy_of(t.as_slice())),
        _ => None,
    }
}

/// Whether `a` spells `word` (given in upper case), ignoring ASCII case.
pub fn matches_word_exec(a: &[u8], word: &[u8]) -> (r: bool)
    ensures
        r == matches_word(a@, word@),
{
    if a.len() != word.len() {
        return false;
    }
    let mut i: usize = 0;
    while i < a.len()
        invariant
            a@.len() == word@.len(),
            i <= a@.len(),
            forall|j: int| 0 <= j < i ==> ascii_upper(#[trigger] a@[j]) == word@[j],
        decreases a@.len() - i,
    {
        let b = a[i];
        let u: u8 = if 97 <= b && b <= 122 {
            b - 32
        } else {
            b
        };
        if u != word[i] {
            return false;
        }
        i = i + 1;
    }
    true
}

/// The argument at `i`, as bytes.
fn text_arg(args: &Vec<RespType>, i: usize) -> (r: Option<Vec<u8>>)
    requires
        i < args@.len(),
    ensures
        match r {
            Some(b) => arg_text(items_view(args@)[i as int]) == Some(b@),
            None => arg_text(items_view(args@)[i as int]) is None,
        },
{
    turn_arg_to_string(&args[i])
}

fn create_set(args: &Vec<RespType>) -> (r: Result<Command, CommandError>)
    ensures
        result_view(r) == set_of(items_view(args@)),
{
    let ghost a = items_view(args@);
    if !(args.len() == 2 || args.len() == 4) {
        return Err(CommandError::MalformedCommand);
    }
    let key = match text_arg(args, 0) {
        Some(k) => k,
        None => {
            return Err(CommandError::MalformedCommand);
        },
    };
    let value = match text_arg(args, 1) {
        Some(v) => v,
        None => {
            return Err(CommandError::MalformedCommand);
        },
    };
    if args.len() == 2 {
        return Ok(Command::SetKey(key, value, None));
    }
    let opt = match text_arg(args, 2) {
        Some(o) => o,
        None => {
            return Err(CommandError::MalformedCommand);
        },
    };
    let ms = match text_arg(args, 3) {
        Some(m) => m,
        None => {
            return Err(CommandError::MalformedCommand);
        },
    };
    let px: &[u8] = &[80u8, 88];
    assert(px@ == word_px());
    if !matches_word_exec(opt.as_slice(), px) {
        return Err(CommandError::MalformedCommand);
    }
    assert(ms@.subrange(0, ms@.len() as int) =~= ms@);
    match parse_numeral(ms.as_slice(), 0, ms.len()) {
        Some(n) => Ok(Command::SetKey(key, value, Some(n))),
        None => Err(CommandError::MalformedCommand),
    }
}

fn create_wait(args: &Vec<RespType>) -> (r: Result<Command, CommandError>)
    requires
        args@.len() == 2,
    ensures
        ({
            let a = items_view(args@);
            result_view(r) == if arg_text(a[0]) is Some && arg_text(a[1]) is Some {
                match (i64_text_value(arg_text(a[0])->0), i64_text_value(arg_text(a[1])->0)) {
                    (Some(n), Some(t)) => Ok(CommandView::Wait(n as i64, t as i64)),
                    _ => Err(CommandError::MalformedCommand),
                }
            } else {
                Err(CommandError::MalformedCommand)
            }
        }),
{
    let first = match text_arg(args, 0) {
        Some(x) => x,
        None => {
            return Err(CommandError::MalformedCommand);
        },
    };
    let second = match text_arg(args, 1) {
        Some(x) => x,
        None => {
            return Err(CommandError::MalformedCommand);
        },
    };
    assert(first@.subrange(0, first@.len() as int) =~= first@);
    assert(second@.subrange(0, second@.len() as int) =~= second@);
    let n = parse_i64_text(first.as_slice(), 0, first.len());
    let t = parse_i64_text(second.as_slice(), 0, second.len());
    match (n, t) {
        (Some(n), Some(t)) => Ok(Command::Wait(n, t)),
        _ => Err(CommandError::MalformedCommand),
    }
}

/// Reads a command from its name (any case) and its arguments.
pub fn args_to_command(command_name: &Vec<u8>, args: &Vec<RespType>) -> (r: Result<
    Command,
    CommandError,
>)
    ensures
        result_view(r) == command_of(command_name@, items_view(args@)),
{
    let ghost a = items_view(args@);
    let name = command_name.as_slice();
    let n = args.len();
    if matches_word_exec(name, &[80u8, 73, 78, 71]) {
        if n == 0 {
            Ok(Command::Ping)
        } else {
            Err(CommandError::MalformedCommand)
        }
    } else if matches_word_exec(name, &[69u8, 67, 72, 79]) {
        if n == 1 {
            match text_arg(args, 0) {
                Some(m) => Ok(Command::Echo(m)),
                None => Err(CommandError::MalformedCommand),
            }
        } else {
            Err(CommandError::MalformedCommand)
        }
    } else if matches_word_exec(name, &[83u8, 69, 84]) {
        create_set(args)
    } else if matches_word_exec(name, &[71u8, 69, 84]) {
        if n == 1 {
            match text_arg(args, 0) {
                Some(k) => Ok(Command::Get(k)),
                None => Err(CommandError::MalformedCommand),
            }
        } else {
            Err(CommandError::MalformedCommand)
        }
    } else if matches_word_exec(name, &[73u8, 78, 70, 79]) {
        if n == 1 {
            match text_arg(args, 0) {
                Some(s) => Ok(Command::Info(s)),
                None => Err(CommandError::MalformedCommand),
            }
        } else {
            Err(CommandError::MalformedCommand)
        }
    } else if matches_word_exec(name, &[82u8, 69, 80, 76, 67, 79, 78, 70]) {
        if n == 1 || n == 2 {
            let sub = match text_arg(args, 0) {
                Some(s) => s,
                None => {
                    return Err(CommandError::MalformedCommand);
                },
            };
            if n == 1 {
                Ok(Command::ReplConf(sub, None))
            } else {
                match text_arg(args, 1) {
                    Some(o) => Ok(Command::ReplConf(sub, Some(o))),
                    None => Err(CommandError::MalformedCommand),
                }
            }
        } else {
            Err(CommandError::MalformedCommand)
        }
    } else if matches_word_exec(name, &[80u8, 83, 89, 78, 67]) {
        if n == 2 {
            match (text_arg(args, 0), text_arg(args, 1)) {
                (Some(id), Some(offset)) => Ok(Command::Psync(id, offset)),
                _ => Err(CommandError::MalformedCommand),
            }
        } else {
            Err(CommandError::MalformedCommand)
        }
    } else if matches_word_exec(name, &[87u8, 65, 73, 84]) {
        if n == 2 {
            create_wait(args)
        } else {
            Err(CommandError::MalformedCommand)
        }
    } else {
        Err(CommandError::UnsupportedCommand)
    }
}

pub proof fn lemma_items_view_agree(s: Seq<RespType>)
    ensures
        resp_items_view(s) == items_view(s),
{
    lemma_resp_items_view_len(s);
    assert(resp_items_view(s) =~= items_view(s));
}

/// Reads the command that a frame carries.
pub fn parse_command(frame: RespType) -> (r: Result<Command, CommandError>)
    ensures
        result_view(r) == command_from_frame(frame@),
{
    match frame {
        RespType::Array(mut items) => {
            proof {
                lemma_items_view_agree(items@);
            }
            let ghost all = items@;
            if items.len() == 0 {
                return Err(CommandError::MalformedCommand);
            }
            let first = items.remove(0);
            assert(items_view(items@) =~= items_view(all).drop_first());
            match turn_arg_to_string(&first) {
                Some(name) => args_to_command(&name, &items),
                None => Err(CommandError::MalformedCommand),
            }
        },
        _ => Err(CommandError::MalformedCommand),
    }
}

pub open spec fn bulk(b: Seq<u8>) -> RespValue {
    RespValue::BulkString(Some(b))
}

/// The array of bulk strings that carries a command: its name in upper
/// case, then its arguments.
pub open spec fn command_frame(c: CommandView) -> RespValue {
    RespValue::Array(
        match c {
            CommandView::Ping => seq![bulk(word_ping())],
            CommandView::Echo(m) => seq![bulk(word_echo()), bulk(m)],
            CommandView::SetKey(k, v, None) => seq![bulk(word_set()), bulk(k), bulk(v)],
            CommandView::SetKey(k, v, Some(ms)) => seq![
                bulk(word_set()),
                bulk(k),
                bulk(v),
                bulk(word_px()),
                bulk(nat_text(ms as nat)),
            ],
            CommandView::Get(k) => seq![bulk(word_get()), bulk(k)],
            CommandView::Info(a) => seq![bulk(word_info()), bulk(a)],
            CommandView::ReplConf(a, None) => seq![bulk(word_replconf()), bulk(a)],
            CommandView::ReplConf(a, Some(b)) => seq![bulk(word_replconf()), bulk(a), bulk(b)],
            CommandView::Psync(a, b) => seq![bulk(word_psync()), bulk(a), bulk(b)],
            CommandView::Wait(n, t) => seq![
                bulk(word_wait()),
                bulk(int_text(n as int)),
                bulk(int_text(t as int)),
            ],
        },
    )
}

/// The bytes that carry a command.
pub open spec fn serialized(c: CommandView) -> Seq<u8> {
    encode(command_frame(c))
}

fn push_bulk(items: &mut Vec<RespType>, b: Vec<u8>)
    ensures
        resp_items_view(final(items)@) == resp_items_view(old(items)@).push(bulk(b@)),
{
    let ghost before = items@;
    let ghost bytes = b@;
    let x = RespType::BulkString(Some(b));
    let ghost gx = x;
    assert(resp_view(gx) == bulk(bytes));
    items.push(x);
    assert(items@.drop_last() =~= before);
    assert(items@.last() == gx);
}

/// The array of bulk strings that carries a command.
pub fn command_to_resp(command: &Command) -> (r: RespType)
    ensures
        r@ == command_frame(command@),
{
    let mut items: Vec<RespType> = Vec::new();
    assert(resp_items_view(items@) =~= Seq::<RespValue>::empty());
    match command {
        Command::Ping => {
            push_bulk(&mut items, copy_of(&[80u8, 73, 78, 71]));
        },
        Command::Echo(m) => {
            push_bulk(&mut items, copy_of(&[69u8, 67, 72, 79]));
            push_bulk(&mut items, copy_of(m.as_slice()));
        },
        Command::SetKey(k, v, px) => {
            push_bulk(&mut items, copy_of(&[83u8, 69, 84]));
            push_bulk(&mut items, copy_of(k.as_slice()));
            push_bulk(&mut items, copy_of(v.as_slice()));
            if let Some(ms) = px {
                push_bulk(&mut items, copy_of(&[80u8, 88]));
                let mut text: Vec<u8> = Vec::new();
                push_nat_text(&mut text, *ms);
                assert(text@ =~= nat_text(*ms as nat));
                push_bulk(&mut items, text);
            }
        },
        Command::Get(k) => {
            push_bulk(&mut items, copy_of(&[71u8, 69, 84]));
            push_bulk(&mut items, copy_of(k.as_slice()));
        },
        Command::Info(a) => {
            push_bulk(&mut items, copy_of(&[73u8, 78, 70, 79]));
            push_bulk(&mut items, copy_of(a.as_slice()));
        },
        Command::ReplConf(a, b) => {
            push_bulk(&mut items, copy_of(&[82u8, 69, 80, 76, 67, 79, 78, 70]));
            push_bulk(&mut items, copy_of(a.as_slice()));
            if let Some(b) = b {
                push_bulk(&mut items, copy_of(b.as_slice()));
            }
        },
        Command::Psync(a, b) => {
            push_bulk(&mut items, copy_of(&[80u8, 83, 89, 78, 67]));
            push_bulk(&mut items, copy_of(a.as_slice()));
            push_bulk(&mut items, copy_of(b.as_slice()));
        },
        Command::Wait(n, t) => {
            push_bulk(&mut items, copy_of(&[87u8, 65, 73, 84]));
            let mut first: Vec<u8> = Vec::new();
            push_int_text(&mut first, *n);
            assert(first@ =~= int_text(*n as int));
            push_bulk(&mut items, first);
            let mut second: Vec<u8> = Vec::new();
            push_int_text(&mut second, *t);
            assert(second@ =~= int_text(*t as int));
            push_bulk(&mut items, second);
        },
    }
    assert(resp_items_view(items@) =~= command_frame(command@)->Array_0);
    RespType::Array(items)
}

/// The bytes that carry a command, as a leader sends it to its followers.
pub fn serialize_command(command: &Command) -> (r: Vec<u8>)
    ensures
        r@ == serialized(command@),
{
    serialize_resp_data(command_to_resp(command))
}

/// Every argument of the command fits a RESP bulk string.
pub open spec fn command_fits(c: CommandView) -> bool {
    match c {
        CommandView::Echo(m) => m.len() <= i64::MAX,
        CommandView::SetKey(k, v, _) => k.len() <= i64::MAX && v.len() <= i64::MAX,
        CommandView::Get(k) => k.len() <= i64::MAX,
        CommandView::Info(a) => a.len() <= i64::MAX,
        CommandView::ReplConf(a, None) => a.len() <= i64::MAX,
        CommandView::ReplConf(a, Some(b)) => a.len() <= i64::MAX && b.len() <= i64::MAX,
        CommandView::Psync(a, b) => a.len() <= i64::MAX && b.len() <= i64::MAX,
        _ => true,
    }
}

proof fn lemma_word_matches_itself(w: Seq<u8>)
    requires
        forall|i: int| 0 <= i < w.len() ==> !(97 <= #[trigger] w[i] <= 122),
    ensures
        matches_word(w, w),
{
}

proof fn lemma_bulk_items_wf(s: Seq<RespValue>)
    requires
        forall|i: int|
            0 <= i < s.len() ==> (#[trigger] s[i] matches RespValue::BulkString(Some(b)) && b.len()
                <= i64::MAX),
    ensures
        resp_items_wf(s),
    decreases s.len(),
{
    if s.len() > 0 {
        assert(resp_wf(s[0]));
        assert forall|i: int| 0 <= i < s.drop_first().len() implies (#[trigger] s.drop_first()[i] matches RespValue::BulkString(
            Some(b),
        ) && b.len() <= i64::MAX) by {
            assert(s.drop_first()[i] == s[i + 1]);
        }
        lemma_bulk_items_wf(s.drop_first());
    }
}

/// The frame that carries a command is well formed, and reads back as that command.
pub proof fn lemma_command_round_trip(c: CommandView)
    requires
        command_fits(c),
    ensures
        resp_wf(command_frame(c)),
        command_from_frame(command_frame(c)) == Ok::<CommandView, CommandError>(c),
{
    let items = command_frame(c)->Array_0;
    let args = items.drop_first();
    assert(items.len() <= 5);
    assert(word_ping()[0] == 80u8 && word_echo()[0] == 69u8 && word_set()[0] == 83u8);
    assert(word_get()[0] == 71u8 && word_info()[0] == 73u8 && word_replconf()[0] == 82u8);
    assert(word_psync()[0] == 80u8 && word_wait()[0] == 87u8);
    match c {
        CommandView::Ping => {
            lemma_word_matches_itself(word_ping());
        },
        CommandView::Echo(m) => {
            lemma_word_matches_itself(word_echo());
            assert(!matches_word(word_echo(), word_ping()));
            assert(args =~= seq![bulk(m)]);
        },
        CommandView::SetKey(k, v, px) => {
            lemma_word_matches_itself(word_set());
            match px {
                None => {
                    assert(args =~= seq![bulk(k), bulk(v)]);
                },
                Some(ms) => {
                    lemma_word_matches_itself(word_px());
                    lemma_nat_text_numeral(ms as nat);
                    lemma_nat_text_len(ms as nat);
                    assert(args =~= seq![bulk(k), bulk(v), bulk(word_px()), bulk(nat_text(ms as nat))]);
                },
            }
        },
        CommandView::Get(k) => {
            lemma_word_matches_itself(word_get());
            assert(!matches_word(word_get(), word_set()));
            assert(args =~= seq![bulk(k)]);
        },
        CommandView::Info(a) => {
            lemma_word_matches_itself(word_info());
            assert(!matches_word(word_info(), word_ping()));
            assert(!matches_word(word_info(), word_echo()));
            assert(args =~= seq![bulk(a)]);
        },
        CommandView::ReplConf(a, b) => {
            lemma_word_matches_itself(word_replconf());
            match b {
                None => {
                    assert(args =~= seq![bulk(a)]);
                },
                Some(b) => {
                    assert(args =~= seq![bulk(a), bulk(b)]);
                },
            }
        },
        CommandView::Psync(a, b) => {
            lemma_word_matches_itself(word_psync());
            assert(args =~= seq![bulk(a), bulk(b)]);
        },
        CommandView::Wait(n, t) => {
            lemma_word_matches_itself(word_wait());
            assert(!matches_word(word_wait(), word_ping()));
            assert(!matches_word(word_wait(), word_echo()));
            assert(!matches_word(word_wait(), word_info()));
            lemma_int_text_value(n as int);
            lemma_int_text_value(t as int);
            lemma_int_text_short(n as int);
            lemma_int_text_short(t as int);
            assert(args =~= seq![bulk(int_text(n as int)), bulk(int_text(t as int))]);
        },
    }
    lemma_bulk_items_wf(items);
}

} // verus!
