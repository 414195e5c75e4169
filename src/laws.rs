//! Properties that relate several commands, proved over the models that the
//! executable functions are specified by.
use vstd::prelude::*;
use crate::command::{
    address_cmd_of, as_str_suffix, command_of, contains, dump_cmd_of, has_as_str, is_first,
    kw_clear, kw_help, kw_info, kw_poweroff, kw_q, kw_reset, lemma_first_unique, range_check,
    write_bytes_from, write_bytes_of, CmdError, CmdModel, MAX_WRITE_BYTES,
};
use crate::console::{crlf, hex8};
use crate::hex::{
    all_hex, digit_char, digit_value, hex_body, hex_byte_of, hex_digits, hex_usize_of, hex_value,
    is_ascii_space, is_hex_digit, strip_radix, trim, trim_end, trim_start,
};
use crate::memory::{in_ram, in_stack, RAM_SIZE, STACK_BOTTOM};
use crate::monitor::{
    all_ascii, decodes, dump_text, error_text, mem_range, mem_written, run_line, unchanged,
    write_check, Monitor,
};

verus! {

pub open spec fn pow16(n: nat) -> nat
    decreases n,
{
    if n == 0 {
        1
    } else {
        16 * pow16((n - 1) as nat)
    }
}

proof fn lemma_digits_shape(v: nat, n: nat)
    ensures
        hex_digits(v, n).len() == n,
        all_hex(hex_digits(v, n)),
        forall|i: int| 0 <= i < n ==> !is_ascii_space(#[trigger] hex_digits(v, n)[i]) && hex_digits(v, n)[i] != 0x78
            && hex_digits(v, n)[i] != 0x58,
    decreases n,
{
    if n > 0 {
        lemma_digits_shape(v / 16, (n - 1) as nat);
        let d = v % 16;
        assert(is_hex_digit(digit_char(d)));
        let s = hex_digits(v, n);
        assert forall|i: int| 0 <= i < n implies is_hex_digit(#[trigger] s[i]) by {
            if i < n - 1 {
                assert(s[i] == hex_digits(v / 16, (n - 1) as nat)[i]);
            }
        }
        assert forall|i: int| 0 <= i < n implies !is_ascii_space(#[trigger] s[i]) && s[i] != 0x78 && s[i]
            != 0x58 by {
            if i < n - 1 {
                assert(s[i] == hex_digits(v / 16, (n - 1) as nat)[i]);
            }
        }
    }
}

proof fn lemma_digits_value(v: nat, n: nat)
    requires
        v < pow16(n),
    ensures
        hex_value(hex_digits(v, n)) == v,
    decreases n,
{
    if n > 0 {
        let p = pow16((n - 1) as nat);
        assert(v / 16 < p) by (nonlinear_arith)
            requires
                v < 16 * p,
        ;
        lemma_digits_value(v / 16, (n - 1) as nat);
        let s = hex_digits(v, n);
        assert(s.drop_last() =~= hex_digits(v / 16, (n - 1) as nat));
        assert(digit_value(digit_char(v % 16)) == v % 16);
    } else {
        assert(v == 0);
    }
}

proof fn lemma_trim_plain(s: Seq<u8>)
    requires
        s.len() > 0,
        s[0] < 0x80,
        !is_ascii_space(s[0]),
        s.last() < 0x80,
        !is_ascii_space(s.last()),
    ensures
        trim_start(s) == s,
        trim_end(s) == s,
        trim(s) == s,
{
    assert(trim_start(s) == s);
    assert(trim_end(s) == s);
}

/// A cursor-set line: `@` followed by the text `h`.
pub open spec fn set_line(h: Seq<u8>) -> Seq<u8> {
    seq![0x40u8] + h
}

proof fn lemma_literal_shape(h: Seq<u8>)
    requires
        trim(h) == h,
        hex_usize_of(h) is Some,
    ensures
        h.len() > 0,
        is_hex_digit(h.last()),
        all_ascii(h),
{
    let body = hex_body(h);
    assert(trim(h) == h);
    assert(body.len() > 0 && all_hex(body));
    if h.len() >= 2 && h[0] == 0x30 && (h[1] == 0x78 || h[1] == 0x58) {
        assert(body =~= h.subrange(2, h.len() as int));
        assert(h.last() == body.last());
        assert forall|i: int| 0 <= i < h.len() implies #[trigger] h[i] < 0x80 by {
            if i >= 2 {
                assert(h[i] == body[i - 2]);
            }
        }
    } else {
        assert(body == h);
        assert(h.last() == body[body.len() - 1]);
    }
}

/// Any hex literal of an address in RAM, without surrounding whitespace, after
/// `@` parses as setting the cursor to that address.
pub proof fn lemma_set_line_parses(a: usize, h: Seq<u8>)
    requires
        trim(h) == h,
        hex_usize_of(h) == Some(a),
    ensures
        command_of(set_line(h)) == Some(CmdModel::AddrSet(a)),
        decodes(set_line(h)),
{
    let l = set_line(h);
    lemma_literal_shape(h);
    assert(l.last() == h.last());
    lemma_trim_plain(l);
    assert(l != kw_help() && l != kw_info() && l != kw_clear() && l != kw_reset() && l
        != kw_poweroff() && l != kw_q()) by {
        assert(kw_help()[0] != 0x40 && kw_info()[0] != 0x40 && kw_clear()[0] != 0x40
            && kw_reset()[0] != 0x40 && kw_poweroff()[0] != 0x40 && kw_q()[0] != 0x40);
    }
    assert(l.drop_first() =~= h);
    assert(address_cmd_of(h) == CmdModel::AddrSet(a));
    assert forall|i: int| 0 <= i < l.len() implies #[trigger] l[i] < 0x80 by {
        if i > 0 {
            assert(l[i] == h[i - 1]);
        }
    }
    assert(all_ascii(l));
}

/// Setting the cursor, with any hex literal, to an address in RAM and off the
/// stack moves it there and echoes it, and a following `@` reports that address.
pub proof fn lemma_set_then_get(m: Monitor, mem: Seq<u8>, a: usize, h: Seq<u8>)
    requires
        in_ram(a as int),
        !in_stack(a as int),
        trim(h) == h,
        hex_usize_of(h) == Some(a),
    ensures
        ({
            let o = run_line(m, mem, set_line(h));
            let g = run_line(Monitor { cursor: o.cursor, marker: m.marker }, o.mem, seq![0x40u8]);
            &&& o.cursor == a
            &&& o.mem == mem
            &&& o.output == hex8(a as u32) + crlf()
            &&& g.cursor == a
            &&& g.output == hex8(a as u32) + crlf()
        }),
{
    lemma_set_line_parses(a, h);
    let l = seq![0x40u8];
    lemma_trim_plain(l);
    assert(l.drop_first() =~= Seq::<u8>::empty());
    assert(trim(Seq::<u8>::empty()) =~= Seq::<u8>::empty());
    assert(l != kw_help() && l != kw_info() && l != kw_clear() && l != kw_reset() && l
        != kw_poweroff() && l != kw_q()) by {
        assert(kw_q()[0] != l[0]);
        assert(kw_help().len() == 4 && kw_info().len() == 4 && kw_clear().len() == 5
            && kw_reset().len() == 5 && kw_poweroff().len() == 8);
    }
    assert(command_of(l) == Some(CmdModel::AddrGet));
    assert(all_ascii(l));
}

/// Setting the cursor, with any hex literal, to an address on the monitor's
/// stack keeps the cursor and memory and reports the policy error.
pub proof fn lemma_set_in_stack_refused(m: Monitor, mem: Seq<u8>, a: usize, h: Seq<u8>)
    requires
        in_stack(a as int),
        trim(h) == h,
        hex_usize_of(h) == Some(a),
    ensures
        ({
            let o = run_line(m, mem, set_line(h));
            &&& o.cursor == m.cursor
            &&& o.mem == mem
            &&& o.output == error_text(CmdError::InvalidMemoryAddress)
        }),
{
    lemma_set_line_parses(a, h);
}

/// The lines `info` and `help` change neither the cursor nor memory, however
/// often they are issued, and print the same each time.
pub proof fn lemma_info_help_pure(m: Monitor, mem: Seq<u8>)
    ensures
        ({
            let i1 = run_line(m, mem, kw_info());
            let i2 = run_line(Monitor { cursor: i1.cursor, marker: m.marker }, i1.mem, kw_info());
            let h1 = run_line(m, mem, kw_help());
            let h2 = run_line(Monitor { cursor: h1.cursor, marker: m.marker }, h1.mem, kw_help());
            &&& i1.cursor == m.cursor && i1.mem == mem && !i1.power_off
            &&& i2.cursor == m.cursor && i2.mem == mem && i2.output == i1.output
            &&& h1.cursor == m.cursor && h1.mem == mem && !h1.power_off
            &&& h2.cursor == m.cursor && h2.mem == mem && h2.output == h1.output
        }),
{
    lemma_trim_plain(kw_info());
    lemma_trim_plain(kw_help());
    assert(kw_info() != kw_help());
    assert(all_ascii(kw_info()));
    assert(all_ascii(kw_help()));
}

proof fn lemma_digits_parse(v: nat, k: nat)
    requires
        1 <= k,
        v < pow16(k),
        v <= usize::MAX,
    ensures
        hex_usize_of(hex_digits(v, k)) == Some(v as usize),
{
    let d = hex_digits(v, k);
    lemma_digits_shape(v, k);
    lemma_digits_value(v, k);
    assert(d.last() == d[k - 1]);
    lemma_trim_plain(d);
    assert(strip_radix(d) == d);
}

/// A dump line: `ADDR`, the separator `sep` (`+` or `.`), then the `k` digits of `v`.
pub open spec fn dump_line(a: u32, sep: u8, v: nat, k: nat) -> Seq<u8> {
    hex8(a) + seq![sep] + hex_digits(v, k)
}

proof fn lemma_dump_line_shape(a: u32, sep: u8, v: nat, k: nat)
    requires
        sep == 0x2b || sep == 0x2e,
        1 <= k,
        v < pow16(k),
        v <= usize::MAX,
    ensures
        ({
            let l = dump_line(a, sep, v, k);
            &&& trim(l) == l
            &&& command_of(l) == dump_cmd_of(l)
            &&& !has_as_str(l)
            &&& is_first(l, sep, 8)
            &&& l.take(8) == hex8(a)
            &&& l.skip(9) == hex_digits(v, k)
            &&& hex_usize_of(hex8(a)) == Some(a as usize)
            &&& hex_usize_of(hex_digits(v, k)) == Some(v as usize)
            &&& decodes(l)
            &&& sep == 0x2e ==> !contains(l, 0x2b)
        }),
{
    let h = hex8(a);
    let d = hex_digits(v, k);
    let l = dump_line(a, sep, v, k);
    lemma_digits_shape(a as nat, 8);
    lemma_digits_shape(v, k);
    assert(pow16(8) == 0x1_0000_0000) by {
        reveal_with_fuel(pow16, 9);
    }
    lemma_digits_parse(a as nat, 8);
    lemma_digits_parse(v, k);
    assert(l.len() == 9 + k);
    assert forall|i: int| 0 <= i < l.len() implies (i == 8 && #[trigger] l[i] == sep) || (i != 8
        && is_hex_digit(l[i])) by {
        if i < 8 {
            assert(l[i] == h[i]);
        } else if i > 8 {
            assert(l[i] == d[i - 9]);
        }
    }
    assert(l.last() == l[l.len() - 1]);
    lemma_trim_plain(l);
    assert(l != kw_help() && l != kw_info() && l != kw_clear() && l != kw_reset() && l
        != kw_poweroff() && l != kw_q()) by {
        assert(kw_help().len() == 4 && kw_info().len() == 4 && kw_clear().len() == 5
            && kw_reset().len() == 5 && kw_poweroff().len() == 8 && kw_q().len() == 1);
    }
    assert(!contains(l, 0x3a));
    assert(l[0] != 0x40);
    assert(l.skip(l.len() - 7)[2] != as_str_suffix()[2]);
    assert(l.take(8) =~= h);
    assert(l.skip(9) =~= d);
    assert(is_first(l, sep, 8));
    assert(all_ascii(l));
}

/// `ADDR+OFF` with an offset of 0 is refused with "offset is 0", and with an
/// offset of 0x101 (257 bytes) with "range too large"; `ADDR.ADDR` whose end
/// lies before its start is refused with "end < start". Each leaves the cursor
/// and memory alone.
pub proof fn lemma_dump_lines_refused(m: Monitor, mem: Seq<u8>, a: u32, s: u32, e: u32)
    requires
        e < s,
    ensures
        run_line(m, mem, dump_line(a, 0x2b, 0, 1)) == unchanged(m, mem, error_text(CmdError::OffsetZero)),
        run_line(m, mem, dump_line(a, 0x2b, 0x101, 3)) == unchanged(m, mem, error_text(CmdError::RangeTooLarge)),
        run_line(m, mem, dump_line(s, 0x2e, e as nat, 8)) == unchanged(m, mem, error_text(CmdError::EndBeforeStart)),
{
    assert(pow16(8) == 0x1_0000_0000 && pow16(3) == 0x1000 && pow16(1) == 16) by {
        reveal_with_fuel(pow16, 9);
    }
    lemma_dump_line_shape(a, 0x2b, 0, 1);
    lemma_first_unique(dump_line(a, 0x2b, 0, 1), 0x2b, 8);
    lemma_dump_line_shape(a, 0x2b, 0x101, 3);
    lemma_first_unique(dump_line(a, 0x2b, 0x101, 3), 0x2b, 8);
    lemma_dump_line_shape(s, 0x2e, e as nat, 8);
    lemma_first_unique(dump_line(s, 0x2e, e as nat, 8), 0x2e, 8);
}

/// A one-byte write line: `ADDR: ` followed by the two digits of `b`.
pub open spec fn write_line(a: u32, b: u8) -> Seq<u8> {
    hex8(a) + seq![0x3au8, 0x20] + hex_digits(b as nat, 2)
}

/// A write of one byte at the bottom of the monitor's stack is refused with
/// the policy error; memory and the cursor stay as they were.
pub proof fn lemma_stack_byte_write_refused(m: Monitor, mem: Seq<u8>, b: u8)
    ensures
        run_line(m, mem, write_line(STACK_BOTTOM as u32, b)) == unchanged(
            m,
            mem,
            error_text(CmdError::StackWrite),
        ),
{
    let a = STACK_BOTTOM as u32;
    let h = hex8(a);
    let d = hex_digits(b as nat, 2);
    let l = write_line(a, b);
    lemma_digits_shape(a as nat, 8);
    lemma_digits_shape(b as nat, 2);
    assert(pow16(8) == 0x1_0000_0000 && pow16(2) == 256) by {
        reveal_with_fuel(pow16, 9);
    }
    lemma_digits_parse(a as nat, 8);
    lemma_digits_value(b as nat, 2);
    assert(l.len() == 12);
    assert(l[0] == h[0]);
    assert(l.last() == d[1]);
    lemma_trim_plain(l);
    assert(l != kw_help() && l != kw_info() && l != kw_clear() && l != kw_reset() && l
        != kw_poweroff() && l != kw_q()) by {
        assert(kw_help().len() == 4 && kw_info().len() == 4 && kw_clear().len() == 5
            && kw_reset().len() == 5 && kw_poweroff().len() == 8 && kw_q().len() == 1);
    }
    assert forall|j: int| 0 <= j < 8 implies #[trigger] l[j] != 0x3a by {
        assert(l[j] == h[j]);
    }
    assert(is_first(l, 0x3a, 8));
    lemma_first_unique(l, 0x3a, 8);
    assert(l.take(8) =~= h);
    assert(h.last() == h[7]);
    lemma_trim_plain(h);
    let rest = l.skip(9);
    assert(rest =~= seq![0x20u8] + d);
    assert(rest.skip(1) =~= d);
    assert(d.last() == d[1]);
    lemma_trim_plain(d);
    assert(trim_start(rest) == d);
    assert(trim(rest) == d);
    assert(hex_body(d) == d) by {
        lemma_trim_plain(d);
    }
    assert(d.drop_first().drop_first() =~= Seq::<u8>::empty());
    assert(Seq::<u8>::empty().push(d[0]).push(d[1]) =~= d);
    assert(write_bytes_of(d) == Ok::<Seq<u8>, CmdError>(seq![b])) by {
        reveal_with_fuel(write_bytes_from, 4);
    }
    assert(all_ascii(l)) by {
        assert forall|i: int| 0 <= i < l.len() implies #[trigger] l[i] < 0x80 by {
            if i < 8 {
                assert(l[i] == h[i]);
            } else if i > 9 {
                assert(l[i] == d[i - 10]);
            }
        }
    }
    assert(seq![b].len() == 1);
}

/// The write data ` b0 b1 ...`: each byte as a space and two hex digits.
pub open spec fn bytes_text(bs: Seq<u8>) -> Seq<u8>
    decreases bs.len(),
{
    if bs.len() == 0 {
        Seq::empty()
    } else {
        seq![0x20u8] + hex_digits(bs[0] as nat, 2) + bytes_text(bs.drop_first())
    }
}

/// A write line: `ADDR:` then the bytes of `bs`, each after a space.
pub open spec fn write_bytes_line(a: u32, bs: Seq<u8>) -> Seq<u8> {
    hex8(a) + seq![0x3au8] + bytes_text(bs)
}

proof fn lemma_byte_digits(b: u8)
    ensures
        hex_digits(b as nat, 2).len() == 2,
        is_hex_digit(hex_digits(b as nat, 2)[0]),
        is_hex_digit(hex_digits(b as nat, 2)[1]),
        hex_byte_of(hex_digits(b as nat, 2)) == Some(b),
{
    let d = hex_digits(b as nat, 2);
    lemma_digits_shape(b as nat, 2);
    assert(pow16(2) == 256) by {
        reveal_with_fuel(pow16, 3);
    }
    lemma_digits_value(b as nat, 2);
    assert(d.last() == d[1]);
    lemma_trim_plain(d);
    assert(hex_body(d) == d);
}

proof fn lemma_bytes_text_shape(bs: Seq<u8>)
    ensures
        bytes_text(bs).len() == 3 * bs.len(),
        forall|i: int| 0 <= i < bytes_text(bs).len() ==> (#[trigger] bytes_text(bs)[i] == 0x20 || is_hex_digit(bytes_text(bs)[i])),
        bs.len() > 0 ==> bytes_text(bs)[0] == 0x20 && is_hex_digit(bytes_text(bs).last()),
    decreases bs.len(),
{
    if bs.len() > 0 {
        lemma_bytes_text_shape(bs.drop_first());
        lemma_byte_digits(bs[0]);
        let d = hex_digits(bs[0] as nat, 2);
        let t = bytes_text(bs);
        let r = bytes_text(bs.drop_first());
        assert forall|i: int| 0 <= i < t.len() implies (#[trigger] t[i] == 0x20 || is_hex_digit(t[i])) by {
            if 1 <= i < 3 {
                assert(t[i] == d[i - 1]);
            } else if i >= 3 {
                assert(t[i] == r[i - 3]);
            }
        }
        if bs.len() == 1 {
            assert(r.len() == 0);
            assert(t.last() == d[1]);
        } else {
            assert(t.last() == r.last());
        }
    }
}

/// Tokenizing `bytes_text(r)` with the token `hex(x)` pending after `acc`
/// yields `acc`, then `x`, then `r`.
proof fn lemma_tokens(r: Seq<u8>, x: u8, acc: Seq<u8>)
    requires
        acc.len() + 1 + r.len() <= MAX_WRITE_BYTES,
    ensures
        write_bytes_from(bytes_text(r), hex_digits(x as nat, 2), acc) == Ok::<Seq<u8>, CmdError>(
            acc.push(x) + r,
        ),
    decreases r.len(),
{
    lemma_byte_digits(x);
    if r.len() == 0 {
        assert(acc.push(x) + r =~= acc.push(x));
    } else {
        let t = bytes_text(r);
        let d = hex_digits(r[0] as nat, 2);
        let rest = bytes_text(r.drop_first());
        lemma_byte_digits(r[0]);
        assert(t[0] == 0x20);
        assert(t.skip(1) =~= d + rest);
        assert((d + rest)[0] == d[0]);
        assert((d + rest).drop_first() =~= seq![d[1]] + rest);
        assert((seq![d[1]] + rest)[0] == d[1]);
        assert((seq![d[1]] + rest).drop_first() =~= rest);
        assert(Seq::<u8>::empty().push(d[0]).push(d[1]) =~= d);
        lemma_tokens(r.drop_first(), r[0], acc.push(x));
        assert(acc.push(x).push(r[0]) + r.drop_first() =~= acc.push(x) + r);
        assert(write_bytes_from(t, hex_digits(x as nat, 2), acc) == write_bytes_from(
            rest,
            d,
            acc.push(x),
        )) by {
            reveal_with_fuel(write_bytes_from, 3);
        }
    }
}

/// Writing bytes with a line `ADDR: b0 b1 ...` where a write is allowed, then
/// dumping `ADDR.END` over the written span in hex, shows exactly those bytes.
pub proof fn lemma_write_then_dump(m: Monitor, mem: Seq<u8>, a: u32, bs: Seq<u8>)
    requires
        mem.len() == RAM_SIZE,
        1 <= bs.len() <= MAX_WRITE_BYTES,
        write_check(a as usize, bs.len()) is Ok,
    ensures
        ({
            let end = (a + bs.len() - 1) as u32;
            let w = run_line(m, mem, write_bytes_line(a, bs));
            let m2 = Monitor { cursor: w.cursor, marker: m.marker };
            let r = run_line(m2, w.mem, dump_line(a, 0x2e, end as nat, 8));
            &&& w.mem == mem_written(mem, a as int, bs)
            &&& mem_range(w.mem, a as int, end as int) == bs
            &&& r.output == dump_text(a as int, bs, false)
            &&& r.cursor == w.cursor
            &&& r.mem == w.mem
        }),
{
    let h = hex8(a);
    let t = bytes_text(bs);
    let l = write_bytes_line(a, bs);
    let end = (a + bs.len() - 1) as u32;
    lemma_digits_shape(a as nat, 8);
    lemma_bytes_text_shape(bs);
    assert(pow16(8) == 0x1_0000_0000) by {
        reveal_with_fuel(pow16, 9);
    }
    lemma_digits_parse(a as nat, 8);
    assert(l.len() == 9 + 3 * bs.len());
    assert(l[0] == h[0]);
    assert(l.last() == t.last());
    lemma_trim_plain(l);
    assert(l != kw_help() && l != kw_info() && l != kw_clear() && l != kw_reset() && l
        != kw_poweroff() && l != kw_q()) by {
        assert(kw_help().len() == 4 && kw_info().len() == 4 && kw_clear().len() == 5
            && kw_reset().len() == 5 && kw_poweroff().len() == 8 && kw_q().len() == 1);
    }
    assert forall|j: int| 0 <= j < 8 implies #[trigger] l[j] != 0x3a by {
        assert(l[j] == h[j]);
    }
    assert(is_first(l, 0x3a, 8));
    lemma_first_unique(l, 0x3a, 8);
    assert(l.take(8) =~= h);
    assert(h.last() == h[7]);
    lemma_trim_plain(h);
    assert(l.skip(9) =~= t);
    let d0 = hex_digits(bs[0] as nat, 2);
    let tail = bytes_text(bs.drop_first());
    lemma_byte_digits(bs[0]);
    lemma_bytes_text_shape(bs.drop_first());
    let data = t.skip(1);
    assert(data =~= d0 + tail);
    assert(data[0] == d0[0]);
    assert(data.last() == t.last());
    lemma_trim_plain(data);
    assert(trim_start(t) == data);
    assert(trim(t) == data);
    assert(data[0] == d0[0]);
    assert(data.drop_first() =~= seq![d0[1]] + tail);
    assert((seq![d0[1]] + tail)[0] == d0[1]);
    assert((seq![d0[1]] + tail).drop_first() =~= tail);
    assert(Seq::<u8>::empty().push(d0[0]).push(d0[1]) =~= d0);
    lemma_tokens(bs.drop_first(), bs[0], Seq::empty());
    assert(Seq::<u8>::empty().push(bs[0]) + bs.drop_first() =~= bs);
    assert(write_bytes_of(data) == Ok::<Seq<u8>, CmdError>(bs)) by {
        reveal_with_fuel(write_bytes_from, 3);
    }
    assert(all_ascii(l)) by {
        assert forall|i: int| 0 <= i < l.len() implies #[trigger] l[i] < 0x80 by {
            if i < 8 {
                assert(l[i] == h[i]);
            } else if i > 8 {
                assert(l[i] == t[i - 9]);
            }
        }
    }
    assert(command_of(l) == Some(CmdModel::Write(a as usize, bs)));
    let w = run_line(m, mem, l);
    assert(w.mem == mem_written(mem, a as int, bs));
    assert(mem_range(w.mem, a as int, end as int) =~= bs);
    lemma_dump_line_shape(a, 0x2e, end as nat, 8);
    lemma_first_unique(dump_line(a, 0x2e, end as nat, 8), 0x2e, 8);
    assert(range_check(a as usize, end as usize) == Ok::<(), CmdError>(()));
}

} // verus!
