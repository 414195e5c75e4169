//! The command language: one trimmed text line becomes one command, and the
//! range rules that a dump must satisfy.
use vstd::prelude::*;
use crate::hex::{
    hex_byte_of, hex_usize_of, parse_hex_u8_token, parse_hex_usize, space_at_start, space_len_at,
    trim, trim_bounds,
};
use crate::memory::{in_ram, is_in_ram};

verus! {

/// Largest range that one dump may show.
pub const MAX_DUMP_BYTES: usize = 256;

/// Largest number of bytes that one write may carry.
pub const MAX_WRITE_BYTES: usize = 32;

/// Why a command line was rejected or a command refused.
#[derive(Clone, Copy, Debug, PartialEq, Eq, Structural)]
pub enum CmdError {
    InvalidAddress,
    NoData,
    TooManyBytes,
    InvalidByte,
    InvalidStart,
    InvalidOffset,
    InvalidEnd,
    OffsetZero,
    RangeTooLarge,
    AddressOverflow,
    EndBeforeStart,
    OutOfRange,
    InvalidMemoryAddress,
    StackWrite,
}

/// One parsed input line.
#[derive(Debug)]
pub enum Command {
    Help,
    Info,
    Clear,
    Poweroff,
    AddrGet,
    AddrSet { addr: usize },
    Write { start: usize, bytes: Vec<u8> },
    Dump { start: usize, end: usize, ascii: bool },
    /// A line that was consumed without effect, after the diagnostic `error`.
    Noop { error: CmdError },
    Unknown,
}

/// The mathematical value of a [`Command`]: the write data as a sequence.
pub enum CmdModel {
    Help,
    Info,
    Clear,
    Poweroff,
    AddrGet,
    AddrSet(usize),
    Write(usize, Seq<u8>),
    Dump(usize, usize, bool),
    Noop(CmdError),
    Unknown,
}

impl View for Command {
    type V = CmdModel;

    open spec fn view(&self) -> CmdModel {
        match self {
            Command::Help => CmdModel::Help,
            Command::Info => CmdModel::Info,
            Command::Clear => CmdModel::Clear,
            Command::Poweroff => CmdModel::Poweroff,
            Command::AddrGet => CmdModel::AddrGet,
            Command::AddrSet { addr } => CmdModel::AddrSet(*addr),
            Command::Write { start, bytes } => CmdModel::Write(*start, bytes@),
            Command::Dump { start, end, ascii } => CmdModel::Dump(*start, *end, *ascii),
            Command::Noop { error } => CmdModel::Noop(*error),
            Command::Unknown => CmdModel::Unknown,
        }
    }
}

pub open spec fn kw_help() -> Seq<u8> {
    seq![0x68u8, 0x65, 0x6c, 0x70]
}

pub open spec fn kw_info() -> Seq<u8> {
    seq![0x69u8, 0x6e, 0x66, 0x6f]
}

pub open spec fn kw_clear() -> Seq<u8> {
    seq![0x63u8, 0x6c, 0x65, 0x61, 0x72]
}

pub open spec fn kw_reset() -> Seq<u8> {
    seq![0x72u8, 0x65, 0x73, 0x65, 0x74]
}

pub open spec fn kw_poweroff() -> Seq<u8> {
    seq![0x70u8, 0x6f, 0x77, 0x65, 0x72, 0x6f, 0x66, 0x66]
}

pub open spec fn kw_q() -> Seq<u8> {
    seq![0x71u8]
}

/// The suffix `.as_str` that selects ASCII rendering of a dump.
pub open spec fn as_str_suffix() -> Seq<u8> {
    seq![0x2eu8, 0x61, 0x73, 0x5f, 0x73, 0x74, 0x72]
}

pub open spec fn contains(s: Seq<u8>, c: u8) -> bool {
    exists|i: int| 0 <= i < s.len() && s[i] == c
}

/// `i` is the position of the first `c` in `s`.
pub open spec fn is_first(s: Seq<u8>, c: u8, i: int) -> bool {
    0 <= i < s.len() && s[i] == c && forall|j: int| 0 <= j < i ==> s[j] != c
}

pub open spec fn first_of(s: Seq<u8>, c: u8) -> int {
    choose|i: int| is_first(s, c, i)
}

/// The outcome of range validation for an inclusive dump range.
pub open spec fn range_check(start: usize, end: usize) -> Result<(), CmdError> {
    if end < start {
        Err(CmdError::EndBeforeStart)
    } else if !in_ram(start as int) || !in_ram(end as int) {
        Err(CmdError::OutOfRange)
    } else if end - start + 1 > usize::MAX {
        Err(CmdError::AddressOverflow)
    } else if end - start + 1 > MAX_DUMP_BYTES {
        Err(CmdError::RangeTooLarge)
    } else {
        Ok(())
    }
}

/// The inclusive range of `off` bytes from `start`, or why there is none.
pub open spec fn range_of_len(start: usize, off: usize) -> Result<(usize, usize), CmdError> {
    if off == 0 {
        Err(CmdError::OffsetZero)
    } else if off > MAX_DUMP_BYTES {
        Err(CmdError::RangeTooLarge)
    } else if start + off - 1 > usize::MAX {
        Err(CmdError::AddressOverflow)
    } else {
        match range_check(start, (start + off - 1) as usize) {
            Ok(()) => Ok((start, (start + off - 1) as usize)),
            Err(e) => Err(e),
        }
    }
}

/// Adds one parsed byte token to the write data.
pub open spec fn push_token(tok: Seq<u8>, acc: Seq<u8>) -> Result<Seq<u8>, CmdError> {
    if acc.len() == MAX_WRITE_BYTES {
        Err(CmdError::TooManyBytes)
    } else {
        match hex_byte_of(tok) {
            Some(b) => Ok(acc.push(b)),
            None => Err(CmdError::InvalidByte),
        }
    }
}

/// The write data of `rest`, given the token `tok` read so far and the bytes `acc`
/// of the tokens before it; tokens are separated by whitespace characters.
pub open spec fn write_bytes_from(rest: Seq<u8>, tok: Seq<u8>, acc: Seq<u8>) -> Result<
    Seq<u8>,
    CmdError,
>
    decreases rest.len(),
{
    if rest.len() == 0 {
        let last = if tok.len() == 0 {
            Ok(acc)
        } else {
            push_token(tok, acc)
        };
        match last {
            Ok(bs) => if bs.len() == 0 {
                Err(CmdError::NoData)
            } else {
                Ok(bs)
            },
            Err(e) => Err(e),
        }
    } else if space_at_start(rest) > 0 {
        let next = rest.skip(space_at_start(rest) as int);
        if tok.len() == 0 {
            write_bytes_from(next, tok, acc)
        } else {
            match push_token(tok, acc) {
                Ok(acc2) => write_bytes_from(next, Seq::empty(), acc2),
                Err(e) => Err(e),
            }
        }
    } else {
        write_bytes_from(rest.drop_first(), tok.push(rest[0]), acc)
    }
}

/// The write data that `data` denotes: at most 32 two-digit byte tokens.
pub open spec fn write_bytes_of(data: Seq<u8>) -> Result<Seq<u8>, CmdError> {
    write_bytes_from(data, Seq::empty(), Seq::empty())
}

/// The `@` form, given what follows the `@`.
pub open spec fn address_cmd_of(rest: Seq<u8>) -> CmdModel {
    let r = trim(rest);
    if r.len() == 0 {
        CmdModel::AddrGet
    } else {
        match hex_usize_of(r) {
            Some(a) => CmdModel::AddrSet(a),
            None => CmdModel::Noop(CmdError::InvalidAddress),
        }
    }
}

/// The write form `ADDR: BYTE ...`, split at the first `:` in `cmd`.
pub open spec fn write_cmd_of(cmd: Seq<u8>) -> CmdModel {
    let i = first_of(cmd, 0x3a);
    let a = trim(cmd.take(i));
    let d = trim(cmd.skip(i + 1));
    if a.len() == 0 {
        CmdModel::Noop(CmdError::InvalidAddress)
    } else if d.len() == 0 {
        CmdModel::Noop(CmdError::NoData)
    } else {
        match hex_usize_of(a) {
            None => CmdModel::Noop(CmdError::InvalidAddress),
            Some(start) => match write_bytes_of(d) {
                Ok(bs) => CmdModel::Write(start, bs),
                Err(e) => CmdModel::Noop(e),
            },
        }
    }
}

pub open spec fn has_as_str(cmd: Seq<u8>) -> bool {
    cmd.len() >= 7 && cmd.skip(cmd.len() - 7) == as_str_suffix()
}

/// The dump forms `ADDR+OFF` and `ADDR.ADDR`, with or without `.as_str`;
/// `None` when the line has neither `+` nor `.` once the suffix is gone.
pub open spec fn dump_cmd_of(cmd: Seq<u8>) -> Option<CmdModel> {
    let ascii = has_as_str(cmd);
    let core = if ascii {
        cmd.take(cmd.len() - 7)
    } else {
        cmd
    };
    if contains(core, 0x2b) {
        let i = first_of(core, 0x2b);
        Some(
            match hex_usize_of(core.take(i)) {
                None => CmdModel::Noop(CmdError::InvalidStart),
                Some(start) => match hex_usize_of(core.skip(i + 1)) {
                    None => CmdModel::Noop(CmdError::InvalidOffset),
                    Some(off) => match range_of_len(start, off) {
                        Ok((s, e)) => CmdModel::Dump(s, e, ascii),
                        Err(e) => CmdModel::Noop(e),
                    },
                },
            },
        )
    } else if contains(core, 0x2e) {
        let i = first_of(core, 0x2e);
        Some(
            match hex_usize_of(core.take(i)) {
                None => CmdModel::Noop(CmdError::InvalidStart),
                Some(start) => match hex_usize_of(core.skip(i + 1)) {
                    None => CmdModel::Noop(CmdError::InvalidEnd),
                    Some(end) => match range_check(start, end) {
                        Ok(()) => CmdModel::Dump(start, end, ascii),
                        Err(e) => CmdModel::Noop(e),
                    },
                },
            },
        )
    } else {
        None
    }
}

/// The command that a line denotes; `None` for a line that is empty once trimmed.
pub open spec fn command_of(line: Seq<u8>) -> Option<CmdModel> {
    let t = trim(line);
    if t.len() == 0 {
        None
    } else if t == kw_help() {
        Some(CmdModel::Help)
    } else if t == kw_info() {
        Some(CmdModel::Info)
    } else if t == kw_clear() || t == kw_reset() {
        Some(CmdModel::Clear)
    } else if t == kw_poweroff() || t == kw_q() {
        Some(CmdModel::Poweroff)
    } else if t[0] == 0x40 {
        Some(address_cmd_of(t.drop_first()))
    } else if contains(t, 0x3a) {
        Some(write_cmd_of(t))
    } else {
        match dump_cmd_of(t) {
            Some(c) => Some(c),
            None => Some(CmdModel::Unknown),
        }
    }
}

pub proof fn lemma_first_unique(s: Seq<u8>, c: u8, i: int)
    requires
        is_first(s, c, i),
    ensures
        first_of(s, c) == i,
{
    let j = first_of(s, c);
    assert(is_first(s, c, j));
    if j < i {
        assert(s[j] != c);
    } else if i < j {
        assert(s[i] != c);
    }
}

/// The position of the first `c` in `s`, if any.
fn find_byte(s: &[u8], c: u8) -> (r: Option<usize>)
    ensures
        match r {
            Some(i) => is_first(s@, c, i as int) && first_of(s@, c) == i,
            None => !contains(s@, c),
        },
{
    let mut i: usize = 0;
    while i < s.len()
        invariant
            i <= s@.len(),
            forall|j: int| 0 <= j < i ==> s@[j] != c,
        decreases s@.len() - i,
    {
        if s[i] == c {
            proof {
                lemma_first_unique(s@, c, i as int);
            }
            return Some(i);
        }
        i = i + 1;
    }
    None
}

/// Whether two byte strings are equal.
fn bytes_eq(a: &[u8], b: &[u8]) -> (r: bool)
    ensures
        r == (a@ == b@),
{
    if a.len() != b.len() {
        return false;
    }
    let mut i: usize = 0;
    while i < a.len()
        invariant
            i <= a@.len() == b@.len(),
            forall|j: int| 0 <= j < i ==> a@[j] == b@[j],
        decreases a@.len() - i,
    {
        if a[i] != b[i] {
            return false;
        }
        i = i + 1;
    }
    assert(a@ =~= b@);
    true
}

/// `s` with surrounding whitespace removed.
fn trim_slice(s: &[u8]) -> (r: &[u8])
    ensures
        r@ == trim(s@),
{
    let (lo, hi) = trim_bounds(s);
    vstd::slice::slice_subrange(s, lo, hi)
}

/// Checks an inclusive dump range: not inverted, both ends in RAM, at most
/// 256 bytes long.
pub fn validate_range(start: usize, end: usize) -> (r: Result<(), CmdError>)
    ensures
        r == range_check(start, end),
{
    if end < start {
        return Err(CmdError::EndBeforeStart);
    }
    if !is_in_ram(start) || !is_in_ram(end) {
        return Err(CmdError::OutOfRange);
    }
    let d = end - start;
    if d == usize::MAX {
        return Err(CmdError::AddressOverflow);
    }
    if d + 1 > MAX_DUMP_BYTES {
        return Err(CmdError::RangeTooLarge);
    }
    Ok(())
}

/// The inclusive range of `off` bytes starting at `start`, validated.
pub fn range_from_len(start: usize, off: usize) -> (r: Result<(usize, usize), CmdError>)
    ensures
        r == range_of_len(start, off),
{
    if off == 0 {
        return Err(CmdError::OffsetZero);
    }
    if off > MAX_DUMP_BYTES {
        return Err(CmdError::RangeTooLarge);
    }
    let end = match start.checked_add(off - 1) {
        Some(e) => e,
        None => return Err(CmdError::AddressOverflow),
    };
    match validate_range(start, end) {
        Ok(()) => Ok((start, end)),
        Err(e) => Err(e),
    }
}

/// Tokenizes the write data (whitespace-separated byte tokens) into at most 32
/// bytes. Fails with `TooManyBytes` at a 33rd token, `InvalidByte` at a token
/// that is not two hex digits, and `NoData` when there is no token.
pub fn parse_write_bytes(data: &[u8]) -> (r: Result<Vec<u8>, CmdError>)
    ensures
        match r {
            Ok(v) => write_bytes_of(data@) == Ok::<Seq<u8>, CmdError>(v@),
            Err(e) => write_bytes_of(data@) == Err::<Seq<u8>, CmdError>(e),
        },
{
    let n = data.len();
    let mut bytes: Vec<u8> = Vec::new();
    let mut tok_start: usize = 0;
    let mut i: usize = 0;
    assert(data@.skip(0) =~= data@);
    assert(data@.subrange(0, 0) =~= Seq::<u8>::empty());
    while i < n
        invariant
            tok_start <= i <= n == data@.len(),
            bytes@.len() <= MAX_WRITE_BYTES,
            write_bytes_of(data@) == write_bytes_from(
                data@.skip(i as int),
                data@.subrange(tok_start as int, i as int),
                bytes@,
            ),
        decreases n - i,
    {
        let ghost rest = data@.skip(i as int);
        let ghost tok = data@.subrange(tok_start as int, i as int);
        let k = space_len_at(data, i);
        if k > 0 {
            assert(rest.skip(k as int) =~= data@.skip(i + k));
            if tok_start < i {
                if bytes.len() == MAX_WRITE_BYTES {
                    return Err(CmdError::TooManyBytes);
                }
                match parse_hex_u8_token(vstd::slice::slice_subrange(data, tok_start, i)) {
                    Some(v) => bytes.push(v),
                    None => return Err(CmdError::InvalidByte),
                }
            } else {
                assert(tok =~= Seq::<u8>::empty());
            }
            i = i + k;
            tok_start = i;
            assert(data@.subrange(tok_start as int, i as int) =~= Seq::<u8>::empty());
        } else {
            assert(rest.drop_first() =~= data@.skip(i + 1));
            assert(data@.subrange(tok_start as int, i + 1) =~= tok.push(data@[i as int]));
            i = i + 1;
        }
    }
    assert(data@.skip(i as int) =~= Seq::<u8>::empty());
    if tok_start < i {
        if bytes.len() == MAX_WRITE_BYTES {
            return Err(CmdError::TooManyBytes);
        }
        match parse_hex_u8_token(vstd::slice::slice_subrange(data, tok_start, i)) {
            Some(v) => bytes.push(v),
            None => return Err(CmdError::InvalidByte),
        }
    }
    if bytes.len() == 0 {
        return Err(CmdError::NoData);
    }
    Ok(bytes)
}

/// The `@` form: `None` unless `cmd` starts with `@`; then the cursor query,
/// the cursor set, or a rejection of the address.
pub fn parse_address_cmd(cmd: &[u8]) -> (r: Option<Command>)
    ensures
        match r {
            Some(c) => cmd@.len() > 0 && cmd@[0] == 0x40 && c@ == address_cmd_of(cmd@.drop_first()),
            None => !(cmd@.len() > 0 && cmd@[0] == 0x40),
        },
{
    if cmd.len() == 0 || cmd[0] != 0x40 {
        return None;
    }
    let rest = trim_slice(vstd::slice::slice_subrange(cmd, 1, cmd.len()));
    assert(cmd@.subrange(1, cmd@.len() as int) =~= cmd@.drop_first());
    if rest.len() == 0 {
        return Some(Command::AddrGet);
    }
    match parse_hex_usize(rest) {
        Some(addr) => Some(Command::AddrSet { addr }),
        None => Some(Command::Noop { error: CmdError::InvalidAddress }),
    }
}

/// The write form: `None` unless `cmd` holds a `:`; then the write or a
/// rejection of the address or the data.
pub fn parse_write_cmd(cmd: &[u8]) -> (r: Option<Command>)
    ensures
        match r {
            Some(c) => contains(cmd@, 0x3a) && c@ == write_cmd_of(cmd@),
            None => !contains(cmd@, 0x3a),
        },
{
    let i = match find_byte(cmd, 0x3a) {
        Some(i) => i,
        None => return None,
    };
    assert(is_first(cmd@, 0x3a, i as int));
    assert(i < cmd.len());
    let addr_s = trim_slice(vstd::slice::slice_subrange(cmd, 0, i));
    let data_s = trim_slice(vstd::slice::slice_subrange(cmd, i + 1, cmd.len()));
    assert(cmd@.subrange(0, i as int) =~= cmd@.take(i as int));
    assert(cmd@.subrange(i + 1, cmd@.len() as int) =~= cmd@.skip(i + 1));
    if addr_s.len() == 0 {
        return Some(Command::Noop { error: CmdError::InvalidAddress });
    }
    if data_s.len() == 0 {
        return Some(Command::Noop { error: CmdError::NoData });
    }
    let start = match parse_hex_usize(addr_s) {
        Some(a) => a,
        None => return Some(Command::Noop { error: CmdError::InvalidAddress }),
    };
    match parse_write_bytes(data_s) {
        Ok(bytes) => Some(Command::Write { start, bytes }),
        Err(error) => Some(Command::Noop { error }),
    }
}

/// The dump forms `ADDR+OFF` and `ADDR.ADDR`, each with an optional `.as_str`
/// suffix for ASCII rendering; `+` is looked for before `.`.
pub fn parse_dump_cmd(cmd: &[u8]) -> (r: Option<Command>)
    ensures
        match r {
            Some(c) => dump_cmd_of(cmd@) == Some(c@),
            None => dump_cmd_of(cmd@).is_none(),
        },
{
    let n = cmd.len();
    let suffix: [u8; 7] = [0x2e, 0x61, 0x73, 0x5f, 0x73, 0x74, 0x72];
    let ascii = n >= 7 && bytes_eq(vstd::slice::slice_subrange(cmd, n - 7, n), suffix.as_slice());
    proof {
        if n >= 7 {
            assert(cmd@.subrange(n - 7, n as int) =~= cmd@.skip(n - 7));
        }
    }
    let core = if ascii {
        vstd::slice::slice_subrange(cmd, 0, n - 7)
    } else {
        cmd
    };
    proof {
        if ascii {
            assert(cmd@.subrange(0, n - 7) =~= cmd@.take(n - 7));
        }
    }
    let m = core.len();
    match find_byte(core, 0x2b) {
        Some(i) => {
            assert(core@.subrange(0, i as int) =~= core@.take(i as int));
            assert(core@.subrange(i + 1, m as int) =~= core@.skip(i + 1));
            let start = match parse_hex_usize(vstd::slice::slice_subrange(core, 0, i)) {
                Some(v) => v,
                None => return Some(Command::Noop { error: CmdError::InvalidStart }),
            };
            let off = match parse_hex_usize(vstd::slice::slice_subrange(core, i + 1, m)) {
                Some(v) => v,
                None => return Some(Command::Noop { error: CmdError::InvalidOffset }),
            };
            match range_from_len(start, off) {
                Ok((start, end)) => Some(Command::Dump { start, end, ascii }),
                Err(error) => Some(Command::Noop { error }),
            }
        },
        None => match find_byte(core, 0x2e) {
            Some(i) => {
                assert(core@.subrange(0, i as int) =~= core@.take(i as int));
                assert(core@.subrange(i + 1, m as int) =~= core@.skip(i + 1));
                let start = match parse_hex_usize(vstd::slice::slice_subrange(core, 0, i)) {
                    Some(v) => v,
                    None => return Some(Command::Noop { error: CmdError::InvalidStart }),
                };
                let end = match parse_hex_usize(vstd::slice::slice_subrange(core, i + 1, m)) {
                    Some(v) => v,
                    None => return Some(Command::Noop { error: CmdError::InvalidEnd }),
                };
                match validate_range(start, end) {
                    Ok(()) => Some(Command::Dump { start, end, ascii }),
                    Err(error) => Some(Command::Noop { error }),
                }
            },
            None => None,
        },
    }
}

/// Parses one input line into a command, in this order: the keywords, the
/// `@` form, the write form, the dump forms, and otherwise `Unknown`. `None`
/// for a line that is empty once trimmed.
pub fn parse_command(line: &[u8]) -> (r: Option<Command>)
    ensures
        match r {
            Some(c) => command_of(line@) == Some(c@),
            None => command_of(line@).is_none(),
        },
{
    let cmd = trim_slice(line);
    if cmd.len() == 0 {
        return None;
    }
    let help: [u8; 4] = [0x68, 0x65, 0x6c, 0x70];
    let info: [u8; 4] = [0x69, 0x6e, 0x66, 0x6f];
    let clear: [u8; 5] = [0x63, 0x6c, 0x65, 0x61, 0x72];
    let reset: [u8; 5] = [0x72, 0x65, 0x73, 0x65, 0x74];
    let poweroff: [u8; 8] = [0x70, 0x6f, 0x77, 0x65, 0x72, 0x6f, 0x66, 0x66];
    let q: [u8; 1] = [0x71];
    assert(help@ == kw_help());
    assert(info@ == kw_info());
    assert(clear@ == kw_clear());
    assert(reset@ == kw_reset());
    assert(poweroff@ == kw_poweroff());
    assert(q@ == kw_q());
    if bytes_eq(cmd, help.as_slice()) {
        return Some(Command::Help);
    }
    if bytes_eq(cmd, info.as_slice()) {
        return Some(Command::Info);
    }
    if bytes_eq(cmd, clear.as_slice()) || bytes_eq(cmd, reset.as_slice()) {
        return Some(Command::Clear);
    }
    if bytes_eq(cmd, poweroff.as_slice()) || bytes_eq(cmd, q.as_slice()) {
        return Some(Command::Poweroff);
    }
    if let Some(c) = parse_address_cmd(cmd) {
        return Some(c);
    }
    if let Some(c) = parse_write_cmd(cmd) {
        return Some(c);
    }
    match parse_dump_cmd(cmd) {
        Some(c) => Some(c),
        None => Some(Command::Unknown),
    }
}

} // verus!
