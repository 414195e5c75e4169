//! The command executor: the current-address cursor, the simulated RAM window,
//! and what each command prints and changes.
use vstd::prelude::*;
use vstd::string::StringSliceAdditionalSpecFns;
use crate::command::{parse_command, range_check, validate_range, CmdError, CmdModel, Command, command_of};
use crate::console;
use crate::console::{clear_screen, clear_sequence, crlf, hex8, newline, print_hex_u32, print_hex_u8};
use crate::hex::hex_digits;
use crate::memory::{
    in_ram, in_stack, is_in_ram, is_valid_monitor_address, overlap, ranges_overlap, RAM_BASE,
    RAM_END_INCLUSIVE, RAM_SIZE, STACK_BOTTOM, STACK_TOP,
};

verus! {

/// The banner shown at start and by `info`.
pub const INFO_BANNER: &'static str = "riscmon v0.1.0";

/// What `help` prints.
pub const HELP_TEXT: &'static str = "shell commands:\r\n  help          - show help information\r\n  info          - show monitor info\r\n  clear (reset) - clear the terminal\r\n  poweroff (q)  - power off the system\r\n\r\nmemory management commands:\r\n  @         - get current address\r\n  @ADDR     - set current address (e.g. @80001000)\r\n  ADDR.ADDR - dump memory range (e.g. 80002004.80002007)\r\n  ADDR+OFF  - dump OFF bytes from ADDR (e.g. 80002004+4)\r\n  ADDR.ADDR.as_str - dump range as ASCII (e.g. 80001000.8000103f.as_str)\r\n  ADDR+OFF.as_str  - dump as ASCII (e.g. 80001000+40.as_str)\r\n  ADDR: XX YY .. - write up to 32 bytes (e.g. 80001000: 48 69 21)\r\n";

/// The byte at physical address `addr` of a RAM image.
pub open spec fn mem_at(mem: Seq<u8>, addr: int) -> u8 {
    mem[addr - RAM_BASE]
}

/// The bytes of the inclusive range `[start, end]` of a RAM image.
pub open spec fn mem_range(mem: Seq<u8>, start: int, end: int) -> Seq<u8> {
    mem.subrange(start - RAM_BASE, end - RAM_BASE + 1)
}

/// A RAM image with `data` written from physical address `start` on.
pub open spec fn mem_written(mem: Seq<u8>, start: int, data: Seq<u8>) -> Seq<u8> {
    Seq::new(
        mem.len(),
        |i: int|
            if start - RAM_BASE <= i < start - RAM_BASE + data.len() {
                data[i - (start - RAM_BASE)]
            } else {
                mem[i]
            },
    )
}

/// A simulated RAM window: one byte per address of `[RAM_BASE, RAM_END_INCLUSIVE]`.
pub struct Ram {
    bytes: Vec<u8>,
}

impl View for Ram {
    type V = Seq<u8>;

    closed spec fn view(&self) -> Seq<u8> {
        self.bytes@
    }
}

impl Ram {
    pub open spec fn wf(&self) -> bool {
        self@.len() == RAM_SIZE
    }

    /// A RAM window that holds zeros.
    pub fn new() -> (r: Ram)
        ensures
            r.wf(),
            forall|i: int| 0 <= i < RAM_SIZE ==> #[trigger] r@[i] == 0,
    {
        let bytes = vec![0u8; RAM_SIZE];
        Ram { bytes }
    }

    /// The byte at physical address `addr`.
    pub fn read_byte(&self, addr: usize) -> (r: u8)
        requires
            self.wf(),
            in_ram(addr as int),
        ensures
            r == mem_at(self@, addr as int),
    {
        self.bytes[addr - RAM_BASE]
    }

    /// Stores `b` at physical address `addr`.
    pub fn write_byte(&mut self, addr: usize, b: u8)
        requires
            old(self).wf(),
            in_ram(addr as int),
        ensures
            final(self)@ == old(self)@.update(addr - RAM_BASE, b),
    {
        self.bytes.set(addr - RAM_BASE, b);
    }
}

/// What the caller does after a command.
#[derive(Clone, Copy, Debug, PartialEq, Eq, Structural)]
pub enum Effect {
    Continue,
    PowerOff,
}

/// The monitor's state: the current address and where the marker lies.
pub struct Monitor {
    pub cursor: usize,
    /// The address of a fixed byte pattern that `info` reports.
    pub marker: usize,
}

/// The result of running a command on a monitor and a RAM image.
pub struct Outcome {
    pub cursor: usize,
    pub mem: Seq<u8>,
    pub output: Seq<u8>,
    pub power_off: bool,
}

pub open spec fn line_of(s: &str) -> Seq<u8> {
    s.spec_bytes() + crlf()
}

pub open spec fn valid_ranges_text() -> Seq<u8> {
    "valid RAM: ".spec_bytes() + hex8(RAM_BASE as u32) + "..".spec_bytes() + hex8(
        RAM_END_INCLUSIVE as u32,
    ) + crlf()
}

pub open spec fn stack_range_text() -> Seq<u8> {
    "monitor stack: ".spec_bytes() + hex8(STACK_BOTTOM as u32) + "..".spec_bytes() + hex8(
        STACK_TOP as u32,
    ) + crlf()
}

/// The diagnostic of an error, with the valid window or the stack range where
/// the error concerns them.
pub open spec fn error_text(e: CmdError) -> Seq<u8> {
    match e {
        CmdError::InvalidAddress => line_of("error: invalid address"),
        CmdError::NoData => line_of("error: no data"),
        CmdError::TooManyBytes => line_of("error: too many bytes (max 32)"),
        CmdError::InvalidByte => line_of("error: invalid byte (use two hex digits like 0a)"),
        CmdError::InvalidStart => line_of("error: invalid start address"),
        CmdError::InvalidOffset => line_of("error: invalid offset"),
        CmdError::InvalidEnd => line_of("error: invalid end address"),
        CmdError::OffsetZero => line_of("error: offset is 0"),
        CmdError::RangeTooLarge => line_of("error: range too large (max 256 bytes)"),
        CmdError::AddressOverflow => line_of("error: address overflow"),
        CmdError::EndBeforeStart => line_of("error: end < start"),
        CmdError::OutOfRange => line_of("error: address out of range") + valid_ranges_text(),
        CmdError::InvalidMemoryAddress => line_of("error: invalid memory address")
            + valid_ranges_text(),
        CmdError::StackWrite => line_of("error: write into riscmon stack not allowed")
            + stack_range_text(),
    }
}

/// How one byte appears in a dump.
pub open spec fn shown_byte(b: u8, ascii: bool) -> Seq<u8> {
    if ascii {
        if 0x20 <= b <= 0x7e {
            seq![b]
        } else {
            seq![0x2eu8]
        }
    } else {
        hex_digits(b as nat, 2)
    }
}

/// The bytes of one dump line after its address; hex bytes are space-separated.
pub open spec fn line_body(data: Seq<u8>, ascii: bool) -> Seq<u8>
    decreases data.len(),
{
    if data.len() == 0 {
        Seq::empty()
    } else {
        let sep = if data.len() > 1 && !ascii {
            seq![0x20u8]
        } else {
            Seq::empty()
        };
        line_body(data.drop_last(), ascii) + sep + shown_byte(data.last(), ascii)
    }
}

/// A dump of `data` read from `addr` on: lines of up to 16 bytes, each after
/// its address in eight hex digits and `: `.
pub open spec fn dump_text(addr: int, data: Seq<u8>, ascii: bool) -> Seq<u8>
    decreases data.len(),
{
    if data.len() == 0 {
        Seq::empty()
    } else {
        let k = if data.len() < 16 {
            data.len() as int
        } else {
            16
        };
        hex8(addr as u32) + seq![0x3au8, 0x20] + line_body(data.take(k), ascii) + crlf()
            + dump_text(addr + k, data.skip(k), ascii)
    }
}

pub open spec fn info_text(m: Monitor) -> Seq<u8> {
    line_of(INFO_BANNER) + "stack: ".spec_bytes() + hex8(STACK_BOTTOM as u32) + ".. ".spec_bytes()
        + hex8(STACK_TOP as u32) + crlf() + "current: ".spec_bytes() + hex8(m.cursor as u32)
        + crlf() + "FINDME @ ".spec_bytes() + hex8(m.marker as u32) + crlf()
}

/// The last address of a write of `len` bytes at `start`, or why it is refused.
pub open spec fn write_check(start: usize, len: nat) -> Result<usize, CmdError> {
    if len == 0 {
        Err(CmdError::NoData)
    } else if start + len - 1 > usize::MAX {
        Err(CmdError::AddressOverflow)
    } else if !in_ram(start as int) || !in_ram(start + len - 1) {
        Err(CmdError::OutOfRange)
    } else if overlap(start as int, start + len - 1, STACK_BOTTOM as int, STACK_TOP - 1) {
        Err(CmdError::StackWrite)
    } else {
        Ok((start + len - 1) as usize)
    }
}

/// The cursor after a write that ended at `end`: the next address, unless the
/// write reached the top of RAM.
pub open spec fn advanced(cursor: usize, end: usize) -> usize {
    if end < RAM_END_INCLUSIVE {
        (end + 1) as usize
    } else {
        cursor
    }
}

pub open spec fn unchanged(m: Monitor, mem: Seq<u8>, output: Seq<u8>) -> Outcome {
    Outcome { cursor: m.cursor, mem, output, power_off: false }
}

/// What a command does.
pub open spec fn run_command(m: Monitor, mem: Seq<u8>, c: CmdModel) -> Outcome {
    match c {
        CmdModel::Help => unchanged(m, mem, HELP_TEXT.spec_bytes()),
        CmdModel::Info => unchanged(m, mem, info_text(m)),
        CmdModel::Clear => unchanged(m, mem, clear_sequence()),
        CmdModel::Poweroff => Outcome { cursor: m.cursor, mem, output: Seq::empty(), power_off: true },
        CmdModel::AddrGet => unchanged(m, mem, hex8(m.cursor as u32) + crlf()),
        CmdModel::AddrSet(a) => if in_ram(a as int) && !in_stack(a as int) {
            Outcome { cursor: a, mem, output: hex8(a as u32) + crlf(), power_off: false }
        } else {
            unchanged(m, mem, error_text(CmdError::InvalidMemoryAddress))
        },
        CmdModel::Write(start, bs) => match write_check(start, bs.len()) {
            Ok(end) => {
                let c = advanced(m.cursor, end);
                Outcome {
                    cursor: c,
                    mem: mem_written(mem, start as int, bs),
                    output: hex8(c as u32) + crlf(),
                    power_off: false,
                }
            },
            Err(e) => unchanged(m, mem, error_text(e)),
        },
        CmdModel::Dump(s, e, ascii) => match range_check(s, e) {
            Ok(()) => unchanged(m, mem, dump_text(s as int, mem_range(mem, s as int, e as int), ascii)),
            Err(x) => unchanged(m, mem, error_text(x)),
        },
        CmdModel::Noop(e) => unchanged(m, mem, error_text(e)),
        CmdModel::Unknown => unchanged(m, mem, line_of("unknown command (try 'help')")),
    }
}

/// The bytes of a line are valid UTF-8.
pub uninterp spec fn utf8_ok(line: Seq<u8>) -> bool;

/// Relies on `core::str::from_utf8`: `Ok` exactly for valid UTF-8, which
/// every all-ASCII sequence is.
#[verifier::external_body]
fn is_utf8(line: &[u8]) -> (r: bool)
    ensures
        r == utf8_ok(line@),
        (forall|i: int| 0 <= i < line@.len() ==> #[trigger] line@[i] < 0x80) ==> r,
{
    core::str::from_utf8(line).is_ok()
}

pub open spec fn all_ascii(line: Seq<u8>) -> bool {
    forall|i: int| 0 <= i < line.len() ==> #[trigger] line[i] < 0x80
}

/// Whether a line decodes as text: every all-ASCII line does.
pub open spec fn decodes(line: Seq<u8>) -> bool {
    all_ascii(line) || utf8_ok(line)
}

/// What one input line does.
pub open spec fn run_line(m: Monitor, mem: Seq<u8>, line: Seq<u8>) -> Outcome {
    if !decodes(line) {
        unchanged(m, mem, line_of("error: non-utf8 input"))
    } else {
        match command_of(line) {
            None => unchanged(m, mem, Seq::empty()),
            Some(c) => run_command(m, mem, c),
        }
    }
}

/// Prints the RAM window that commands may touch.
pub fn print_valid_address_ranges(out: &mut Vec<u8>)
    ensures
        final(out)@ == old(out)@ + valid_ranges_text(),
{
    console::print(out, "valid RAM: ");
    print_hex_u32(out, RAM_BASE as u32);
    console::print(out, "..");
    print_hex_u32(out, RAM_END_INCLUSIVE as u32);
    newline(out);
    assert(final(out)@ =~= old(out)@ + valid_ranges_text());
}

/// Prints the monitor's own stack reservation.
pub fn print_stack_range(out: &mut Vec<u8>)
    ensures
        final(out)@ == old(out)@ + stack_range_text(),
{
    console::print(out, "monitor stack: ");
    print_hex_u32(out, STACK_BOTTOM as u32);
    console::print(out, "..");
    print_hex_u32(out, STACK_TOP as u32);
    newline(out);
    assert(final(out)@ =~= old(out)@ + stack_range_text());
}

/// Prints the diagnostic of `e`.
pub fn print_error(out: &mut Vec<u8>, e: CmdError)
    ensures
        final(out)@ == old(out)@ + error_text(e),
{
    match e {
        CmdError::InvalidAddress => console::println(out, "error: invalid address"),
        CmdError::NoData => console::println(out, "error: no data"),
        CmdError::TooManyBytes => console::println(out, "error: too many bytes (max 32)"),
        CmdError::InvalidByte => console::println(out, "error: invalid byte (use two hex digits like 0a)"),
        CmdError::InvalidStart => console::println(out, "error: invalid start address"),
        CmdError::InvalidOffset => console::println(out, "error: invalid offset"),
        CmdError::InvalidEnd => console::println(out, "error: invalid end address"),
        CmdError::OffsetZero => console::println(out, "error: offset is 0"),
        CmdError::RangeTooLarge => console::println(out, "error: range too large (max 256 bytes)"),
        CmdError::AddressOverflow => console::println(out, "error: address overflow"),
        CmdError::EndBeforeStart => console::println(out, "error: end < start"),
        CmdError::OutOfRange => {
            console::println(out, "error: address out of range");
            print_valid_address_ranges(out);
            assert(final(out)@ =~= old(out)@ + error_text(e));
        },
        CmdError::InvalidMemoryAddress => {
            console::println(out, "error: invalid memory address");
            print_valid_address_ranges(out);
            assert(final(out)@ =~= old(out)@ + error_text(e));
        },
        CmdError::StackWrite => {
            console::println(out, "error: write into riscmon stack not allowed");
            print_stack_range(out);
            assert(final(out)@ =~= old(out)@ + error_text(e));
        },
    }
}

/// How a dump renders each byte.
#[derive(Clone, Copy, Debug, PartialEq, Eq, Structural)]
pub enum DumpFormat {
    Hex,
    Ascii,
}

proof fn lemma_line_body_step(data: Seq<u8>, j: int, ascii: bool)
    requires
        0 <= j < data.len(),
    ensures
        line_body(data.take(j + 1), ascii) == line_body(data.take(j), ascii) + (if j > 0 && !ascii {
            seq![0x20u8]
        } else {
            Seq::empty()
        }) + shown_byte(data[j], ascii),
{
    assert(data.take(j + 1).drop_last() =~= data.take(j));
}

/// Prints the inclusive range `[start, end]` of `ram`, 16 bytes per line.
pub fn dump_memory(out: &mut Vec<u8>, ram: &Ram, start: usize, end: usize, format: DumpFormat)
    requires
        ram.wf(),
        start <= end,
        in_ram(start as int),
        in_ram(end as int),
    ensures
        final(out)@ == old(out)@ + dump_text(
            start as int,
            mem_range(ram@, start as int, end as int),
            format == DumpFormat::Ascii,
        ),
{
    let ghost ascii = format == DumpFormat::Ascii;
    let ghost whole = dump_text(start as int, mem_range(ram@, start as int, end as int), ascii);
    let mut addr: usize = start;
    while addr <= end
        invariant
            ram.wf(),
            start <= addr <= end + 1,
            in_ram(start as int),
            in_ram(end as int),
            ascii == (format == DumpFormat::Ascii),
            whole == dump_text(start as int, mem_range(ram@, start as int, end as int), ascii),
            old(out)@ + whole == out@ + dump_text(
                addr as int,
                mem_range(ram@, addr as int, end as int),
                ascii,
            ),
        decreases end + 1 - addr,
    {
        let ghost rest = mem_range(ram@, addr as int, end as int);
        let ghost before = out@;
        print_hex_u32(out, addr as u32);
        out.push(0x3a);
        out.push(0x20);
        let line_end: usize = if end < addr + 15 {
            end
        } else {
            addr + 15
        };
        let ghost k = line_end - addr + 1;
        let ghost chunk = rest.take(k);
        let ghost line_start = out@;
        let mut a: usize = addr;
        while a <= line_end
            invariant
                ram.wf(),
                addr <= a <= line_end + 1,
                line_end <= end,
                in_ram(addr as int),
                in_ram(end as int),
                k == line_end - addr + 1,
                rest == mem_range(ram@, addr as int, end as int),
                chunk == rest.take(k),
                ascii == (format == DumpFormat::Ascii),
                out@ == line_start + line_body(chunk.take(a - addr), ascii),
            decreases line_end + 1 - a,
        {
            let b = ram.read_byte(a);
            proof {
                lemma_line_body_step(chunk, a - addr, ascii);
            }
            let ghost mid = out@;
            match format {
                DumpFormat::Hex => {
                    if a != addr {
                        out.push(0x20);
                    }
                    print_hex_u8(out, b);
                },
                DumpFormat::Ascii => {
                    if 0x20 <= b && b <= 0x7e {
                        out.push(b);
                    } else {
                        out.push(0x2e);
                    }
                },
            }
            assert(out@ =~= line_start + line_body(chunk.take(a - addr + 1), ascii));
            a = a + 1;
        }
        newline(out);
        proof {
            assert(chunk.take(k) =~= chunk);
            assert(rest.len() > 0);
            assert(rest.skip(k) =~= mem_range(ram@, line_end + 1, end as int));
            assert(out@ =~= before + (hex8(addr as u32) + seq![0x3au8, 0x20] + line_body(chunk, ascii)
                + crlf()));
        }
        addr = line_end + 1;
    }
    proof {
        assert(mem_range(ram@, addr as int, end as int) =~= Seq::<u8>::empty());
    }
}

/// Prints `[start, end]` of `ram` as hex bytes.
pub fn print_memory_dump(out: &mut Vec<u8>, ram: &Ram, start: usize, end: usize)
    requires
        ram.wf(),
        start <= end,
        in_ram(start as int),
        in_ram(end as int),
    ensures
        final(out)@ == old(out)@ + dump_text(start as int, mem_range(ram@, start as int, end as int), false),
{
    dump_memory(out, ram, start, end, DumpFormat::Hex)
}

/// Prints `[start, end]` of `ram` as ASCII, non-printable bytes as `.`.
pub fn print_memory_dump_as_ascii(out: &mut Vec<u8>, ram: &Ram, start: usize, end: usize)
    requires
        ram.wf(),
        start <= end,
        in_ram(start as int),
        in_ram(end as int),
    ensures
        final(out)@ == old(out)@ + dump_text(start as int, mem_range(ram@, start as int, end as int), true),
{
    dump_memory(out, ram, start, end, DumpFormat::Ascii)
}

impl Monitor {
    /// A monitor whose cursor starts at the base of RAM.
    pub fn new(marker: usize) -> (r: Monitor)
        ensures
            r.cursor == RAM_BASE,
            r.marker == marker,
    {
        Monitor { cursor: RAM_BASE, marker }
    }

    pub fn get_current_addr(&self) -> (r: usize)
        ensures
            r == self.cursor,
    {
        self.cursor
    }

    pub fn set_current_addr(&mut self, addr: usize)
        ensures
            final(self).cursor == addr,
            final(self).marker == old(self).marker,
    {
        self.cursor = addr;
    }

    /// Lists the commands.
    pub fn cmd_help(&self, out: &mut Vec<u8>)
        ensures
            final(out)@ == old(out)@ + HELP_TEXT.spec_bytes(),
    {
        console::print(out, HELP_TEXT);
    }

    /// Shows the banner, the stack range, the cursor and the marker's address.
    pub fn cmd_info(&self, out: &mut Vec<u8>)
        ensures
            final(out)@ == old(out)@ + info_text(*self),
    {
        console::println(out, INFO_BANNER);
        console::print(out, "stack: ");
        print_hex_u32(out, STACK_BOTTOM as u32);
        console::print(out, ".. ");
        print_hex_u32(out, STACK_TOP as u32);
        newline(out);
        console::print(out, "current: ");
        print_hex_u32(out, self.cursor as u32);
        newline(out);
        console::print(out, "FINDME @ ");
        print_hex_u32(out, self.marker as u32);
        newline(out);
        assert(final(out)@ =~= old(out)@ + info_text(*self));
    }

    /// Clears the terminal.
    pub fn cmd_clear(&self, out: &mut Vec<u8>)
        ensures
            final(out)@ == old(out)@ + clear_sequence(),
    {
        clear_screen(out);
    }

    /// Asks the caller to power the machine off.
    pub fn cmd_poweroff(&self) -> (r: Effect)
        ensures
            r == Effect::PowerOff,
    {
        Effect::PowerOff
    }

    /// Prints the cursor.
    pub fn cmd_addr_get(&self, out: &mut Vec<u8>)
        ensures
            final(out)@ == old(out)@ + hex8(self.cursor as u32) + crlf(),
    {
        print_hex_u32(out, self.cursor as u32);
        newline(out);
    }

    /// Moves the cursor to `addr` and echoes it, if `addr` is in RAM and off
    /// the stack; otherwise reports the valid window and keeps the cursor.
    pub fn cmd_addr_set(&mut self, addr: usize, out: &mut Vec<u8>)
        ensures
            in_ram(addr as int) && !in_stack(addr as int) ==> final(self).cursor == addr
                && final(out)@ == old(out)@ + hex8(addr as u32) + crlf(),
            !(in_ram(addr as int) && !in_stack(addr as int)) ==> final(self).cursor
                == old(self).cursor && final(out)@ == old(out)@ + error_text(
                CmdError::InvalidMemoryAddress,
            ),
            final(self).marker == old(self).marker,
    {
        if !is_valid_monitor_address(addr) {
            print_error(out, CmdError::InvalidMemoryAddress);
            return;
        }
        self.set_current_addr(addr);
        self.cmd_addr_get(out);
    }

    /// Writes `bytes` from `start` on, all or nothing: refused when empty,
    /// overflowing, outside RAM or touching the stack. After a write the cursor
    /// moves past it, unless it reached the top of RAM; then the cursor is echoed.
    pub fn cmd_write(&mut self, ram: &mut Ram, start: usize, bytes: &[u8], out: &mut Vec<u8>)
        requires
            old(ram).wf(),
        ensures
            ({
                let o = run_command(*old(self), old(ram)@, CmdModel::Write(start, bytes@));
                &&& final(self).cursor == o.cursor
                &&& final(ram)@ == o.mem
                &&& final(out)@ == old(out)@ + o.output
            }),
            final(self).marker == old(self).marker,
            final(ram).wf(),
    {
        let len = bytes.len();
        if len == 0 {
            print_error(out, CmdError::NoData);
            return;
        }
        let end = match start.checked_add(len - 1) {
            Some(e) => e,
            None => {
                print_error(out, CmdError::AddressOverflow);
                return;
            },
        };
        if !is_in_ram(start) || !is_in_ram(end) {
            print_error(out, CmdError::OutOfRange);
            return;
        }
        if ranges_overlap(start, end, STACK_BOTTOM, STACK_TOP - 1) {
            print_error(out, CmdError::StackWrite);
            return;
        }
        let ghost mem0 = ram@;
        let mut i: usize = 0;
        while i < len
            invariant
                i <= len == bytes@.len(),
                end == start + len - 1,
                in_ram(start as int),
                in_ram(end as int),
                ram.wf(),
                ram@ == mem_written(mem0, start as int, bytes@.take(i as int)),
            decreases len - i,
        {
            ram.write_byte(start + i, bytes[i]);
            assert(ram@ =~= mem_written(mem0, start as int, bytes@.take(i + 1)));
            i = i + 1;
        }
        assert(bytes@.take(len as int) =~= bytes@);
        if end < RAM_END_INCLUSIVE {
            self.set_current_addr(end + 1);
        }
        self.cmd_addr_get(out);
    }

    /// Dumps `[start, end]` of `ram` in hex or ASCII once the range is valid.
    pub fn cmd_dump(&self, ram: &Ram, start: usize, end: usize, ascii: bool, out: &mut Vec<u8>)
        requires
            ram.wf(),
        ensures
            final(out)@ == old(out)@ + run_command(*self, ram@, CmdModel::Dump(start, end, ascii)).output,
    {
        match validate_range(start, end) {
            Err(e) => {
                print_error(out, e);
            },
            Ok(()) => {
                if ascii {
                    print_memory_dump_as_ascii(out, ram, start, end);
                } else {
                    print_memory_dump(out, ram, start, end);
                }
            },
        }
    }

    /// Parses and runs one input line: a line that is not UTF-8 is reported
    /// and dropped, an empty one ignored.
    pub fn handle_command(&mut self, ram: &mut Ram, line: &[u8], out: &mut Vec<u8>) -> (r: Effect)
        requires
            old(ram).wf(),
        ensures
            ({
                let o = run_line(*old(self), old(ram)@, line@);
                &&& final(self).cursor == o.cursor
                &&& final(ram)@ == o.mem
                &&& final(out)@ == old(out)@ + o.output
                &&& (r == Effect::PowerOff) == o.power_off
            }),
            final(self).marker == old(self).marker,
            final(ram).wf(),
    {
        if !is_utf8(line) {
            console::println(out, "error: non-utf8 input");
            return Effect::Continue;
        }
        match parse_command(line) {
            None => {
                assert(out@ =~= old(out)@ + Seq::<u8>::empty());
            },
            Some(Command::Help) => self.cmd_help(out),
            Some(Command::Info) => self.cmd_info(out),
            Some(Command::Clear) => self.cmd_clear(out),
            Some(Command::Poweroff) => {
                assert(out@ =~= old(out)@ + Seq::<u8>::empty());
                return self.cmd_poweroff();
            },
            Some(Command::AddrGet) => self.cmd_addr_get(out),
            Some(Command::AddrSet { addr }) => self.cmd_addr_set(addr, out),
            Some(Command::Write { start, bytes }) => self.cmd_write(ram, start, bytes.as_slice(), out),
            Some(Command::Dump { start, end, ascii }) => self.cmd_dump(ram, start, end, ascii, out),
            Some(Command::Noop { error }) => print_error(out, error),
            Some(Command::Unknown) => console::println(out, "unknown command (try 'help')"),
        }
        Effect::Continue
    }
}

} // verus!
