//! Text output to the serial transport, kept as the bytes to send, and the
//! line editor that turns received bytes into command lines.
use vstd::prelude::*;
use crate::hex::{hex_digits, push_hex_digits};
use vstd::string::StringSliceAdditionalSpecFns;

verus! {

/// Capacity of the line being edited; further printable bytes are ignored.
pub const LINE_BUF_CAP: usize = 128;

/// The line terminator sent after each printed line.
pub open spec fn crlf() -> Seq<u8> {
    seq![0x0du8, 0x0a]
}

/// Eight lowercase hex digits of a 32-bit value.
pub open spec fn hex8(v: u32) -> Seq<u8> {
    hex_digits(v as nat, 8)
}

/// Sends the bytes of `s`.
pub fn print(out: &mut Vec<u8>, s: &str)
    ensures
        final(out)@ == old(out)@ + s.spec_bytes(),
{
    let b = s.as_bytes();
    let ghost start = out@;
    let mut i: usize = 0;
    while i < b.len()
        invariant
            i <= b@.len(),
            b@ == s.spec_bytes(),
            out@ == start + b@.take(i as int),
        decreases b@.len() - i,
    {
        assert(b@.take(i + 1) =~= b@.take(i as int).push(b@[i as int]));
        out.push(b[i]);
        i = i + 1;
    }
    assert(b@.take(i as int) =~= b@);
}

/// Sends the bytes of `s`, then CR LF.
pub fn println(out: &mut Vec<u8>, s: &str)
    ensures
        final(out)@ == old(out)@ + s.spec_bytes() + crlf(),
{
    print(out, s);
    out.push(0x0d);
    out.push(0x0a);
    assert(final(out)@ =~= old(out)@ + s.spec_bytes() + crlf());
}

/// Sends CR LF alone.
pub fn newline(out: &mut Vec<u8>)
    ensures
        final(out)@ == old(out)@ + crlf(),
{
    out.push(0x0d);
    out.push(0x0a);
    assert(final(out)@ =~= old(out)@ + crlf());
}

/// Sends a byte as two lowercase hex digits.
pub fn print_hex_u8(out: &mut Vec<u8>, v: u8)
    ensures
        final(out)@ == old(out)@ + hex_digits(v as nat, 2),
{
    push_hex_digits(out, v as u32, 2);
}

/// Sends a 32-bit value as eight lowercase hex digits.
pub fn print_hex_u32(out: &mut Vec<u8>, v: u32)
    ensures
        final(out)@ == old(out)@ + hex8(v),
{
    push_hex_digits(out, v, 8);
}

/// The ANSI sequence that clears the terminal and homes the cursor.
pub open spec fn clear_sequence() -> Seq<u8> {
    seq![0x1bu8, 0x5b, 0x32, 0x4a, 0x1b, 0x5b, 0x48]
}

/// Clears the terminal.
pub fn clear_screen(out: &mut Vec<u8>)
    ensures
        final(out)@ == old(out)@ + clear_sequence(),
{
    let seq: [u8; 7] = [0x1b, 0x5b, 0x32, 0x4a, 0x1b, 0x5b, 0x48];
    let ghost start = out@;
    let mut i: usize = 0;
    while i < 7
        invariant
            i <= 7,
            seq@ == clear_sequence(),
            out@ == start + clear_sequence().take(i as int),
        decreases 7 - i,
    {
        assert(clear_sequence().take(i + 1) =~= clear_sequence().take(i as int).push(seq@[i as int]));
        out.push(seq[i]);
        i = i + 1;
    }
    assert(clear_sequence().take(7) =~= clear_sequence());
}

/// The prompt shown before each line.
pub open spec fn prompt_text() -> Seq<u8> {
    seq![0x3eu8, 0x20]
}

/// Shows the prompt.
pub fn prompt(out: &mut Vec<u8>)
    ensures
        final(out)@ == old(out)@ + prompt_text(),
{
    out.push(0x3e);
    out.push(0x20);
    assert(final(out)@ =~= old(out)@ + prompt_text());
}

/// What one received byte does to the line being edited.
pub enum Edit {
    /// Ctrl+C: the line is dropped.
    Cancel,
    /// CR or LF: the line is complete.
    Enter,
    /// Backspace or Delete: the last byte goes, if there is one.
    Erase,
    /// A printable byte joins the line while there is room.
    Insert(u8),
    /// Any other control byte.
    Ignore,
}

pub open spec fn edit_of(b: u8) -> Edit {
    if b == 0x03 {
        Edit::Cancel
    } else if b == 0x0d || b == 0x0a {
        Edit::Enter
    } else if b == 0x08 || b == 0x7f {
        Edit::Erase
    } else if 0x20 <= b <= 0x7e {
        Edit::Insert(b)
    } else {
        Edit::Ignore
    }
}

/// One byte's effect on the line `line`: the new line, the echo, and whether
/// the line is finished (a cancelled line is finished and empty).
pub open spec fn edit_step(line: Seq<u8>, b: u8) -> (Seq<u8>, Seq<u8>, bool) {
    match edit_of(b) {
        Edit::Cancel => (Seq::empty(), seq![0x5eu8, 0x43, 0x0d, 0x0a], true),
        Edit::Enter => (line, crlf(), true),
        Edit::Erase => if line.len() > 0 {
            (line.drop_last(), seq![0x08u8, 0x20, 0x08], false)
        } else {
            (line, Seq::empty(), false)
        },
        Edit::Insert(c) => if line.len() < LINE_BUF_CAP {
            (line.push(c), seq![c], false)
        } else {
            (line, Seq::empty(), false)
        },
        Edit::Ignore => (line, Seq::empty(), false),
    }
}

/// The line editor run over `input` from the line `line`: the final line, the
/// echo, whether the line was finished, and how many bytes were consumed.
pub open spec fn edit_from(line: Seq<u8>, input: Seq<u8>) -> (Seq<u8>, Seq<u8>, bool, nat)
    decreases input.len(),
{
    if input.len() == 0 {
        (line, Seq::empty(), false, 0)
    } else {
        let s = edit_step(line, input[0]);
        if s.2 {
            (s.0, s.1, true, 1)
        } else {
            let r = edit_from(s.0, input.drop_first());
            (r.0, s.1 + r.1, r.2, r.3 + 1)
        }
    }
}

/// Applies one received byte to the line being edited and echoes it: printable
/// bytes join the line (up to 128), Backspace/Delete erase, CR or LF finish
/// the line, Ctrl+C cancels it. Returns whether the line is finished.
pub fn edit_byte(line: &mut Vec<u8>, b: u8, out: &mut Vec<u8>) -> (done: bool)
    requires
        old(line)@.len() <= LINE_BUF_CAP,
    ensures
        ({
            let s = edit_step(old(line)@, b);
            &&& final(line)@ == s.0
            &&& final(out)@ == old(out)@ + s.1
            &&& done == s.2
        }),
        final(line)@.len() <= LINE_BUF_CAP,
{
    if b == 0x03 {
        line.clear();
        out.push(0x5e);
        out.push(0x43);
        out.push(0x0d);
        out.push(0x0a);
        assert(line@ =~= Seq::<u8>::empty());
        assert(out@ =~= old(out)@ + seq![0x5eu8, 0x43, 0x0d, 0x0a]);
        true
    } else if b == 0x0d || b == 0x0a {
        newline(out);
        true
    } else if b == 0x08 || b == 0x7f {
        if line.len() > 0 {
            line.pop();
            out.push(0x08);
            out.push(0x20);
            out.push(0x08);
            assert(out@ =~= old(out)@ + seq![0x08u8, 0x20, 0x08]);
        } else {
            assert(out@ =~= old(out)@ + Seq::<u8>::empty());
        }
        false
    } else if 0x20 <= b && b <= 0x7e {
        if line.len() < LINE_BUF_CAP {
            line.push(b);
            out.push(b);
            assert(out@ =~= old(out)@ + seq![b]);
        } else {
            assert(out@ =~= old(out)@ + Seq::<u8>::empty());
        }
        false
    } else {
        assert(out@ =~= old(out)@ + Seq::<u8>::empty());
        false
    }
}

/// Reads one line from the received bytes `input`, echoing to `out` as
/// [`edit_byte`] does. Returns the line and how many bytes it consumed, or
/// `None` when `input` ends before the line does.
pub fn read_line(input: &[u8], out: &mut Vec<u8>) -> (r: Option<(Vec<u8>, usize)>)
    ensures
        final(out)@ == old(out)@ + edit_from(Seq::empty(), input@).1,
        r.is_some() == edit_from(Seq::empty(), input@).2,
        r matches Some(p) ==> p.0@ == edit_from(Seq::empty(), input@).0 && p.1 == edit_from(
            Seq::empty(),
            input@,
        ).3,
{
    let mut line: Vec<u8> = Vec::new();
    let mut i: usize = 0;
    let ghost whole = edit_from(Seq::empty(), input@);
    let ghost echoed: Seq<u8> = Seq::empty();
    assert(input@.skip(0) =~= input@);
    while i < input.len()
        invariant
            i <= input@.len(),
            line@.len() <= LINE_BUF_CAP,
            whole == edit_from(Seq::empty(), input@),
            out@ == old(out)@ + echoed,
            ({
                let e = edit_from(line@, input@.skip(i as int));
                &&& !e.2 ==> !whole.2
                &&& e.2 ==> whole.2 && whole.0 == e.0 && whole.3 == e.3 + i
                &&& whole.1 == echoed + e.1
                &&& !e.2 ==> whole.0 == e.0
            }),
        decreases input@.len() - i,
    {
        let ghost rest = input@.skip(i as int);
        let ghost before = line@;
        assert(rest.drop_first() =~= input@.skip(i + 1));
        let done = edit_byte(&mut line, input[i], out);
        proof {
            echoed = echoed + edit_step(before, rest[0]).1;
            if !done {
                assert(whole.1 =~= echoed + edit_from(line@, input@.skip(i + 1)).1);
            }
        }
        if done {
            assert(out@ =~= old(out)@ + whole.1);
            return Some((line, i + 1));
        }
        i = i + 1;
    }
    proof {
        assert(input@.skip(i as int) =~= Seq::<u8>::empty());
        assert(out@ =~= old(out)@ + whole.1);
    }
    None
}

} // verus!
