use riscmon::console::{clear_screen, edit_byte, print_hex_u32, print_hex_u8, prompt, read_line};
use riscmon::memory::{RAM_BASE, RAM_END_INCLUSIVE, STACK_BOTTOM, STACK_TOP};
use riscmon::monitor::{Effect, Monitor, Ram};

fn run(m: &mut Monitor, ram: &mut Ram, line: &str) -> String {
    let mut out = Vec::new();
    let effect = m.handle_command(ram, line.as_bytes(), &mut out);
    assert_eq!(effect, Effect::Continue);
    String::from_utf8(out).unwrap()
}

#[test]
fn hex_dump_of_one_line() {
    let mut m = Monitor::new(0x8000_2000);
    let mut ram = Ram::new();
    let out = run(&mut m, &mut ram, "80000000.8000000f");
    assert_eq!(out, "80000000: 00 00 00 00 00 00 00 00 00 00 00 00 00 00 00 00\r\n");
}

#[test]
fn write_advances_cursor_and_echoes_it() {
    let mut m = Monitor::new(0);
    let mut ram = Ram::new();
    assert_eq!(run(&mut m, &mut ram, "80000000: 48 69 21"), "80000003\r\n");
    assert_eq!(m.get_current_addr(), 0x8000_0003);
    assert_eq!(ram.read_byte(0x8000_0000), 0x48);
    assert_eq!(ram.read_byte(0x8000_0001), 0x69);
    assert_eq!(ram.read_byte(0x8000_0002), 0x21);
    assert_eq!(ram.read_byte(0x8000_0003), 0);
    assert_eq!(run(&mut m, &mut ram, "@"), "80000003\r\n");
}

#[test]
fn unknown_command_changes_nothing() {
    let mut m = Monitor::new(0);
    let mut ram = Ram::new();
    assert_eq!(run(&mut m, &mut ram, "zz"), "unknown command (try 'help')\r\n");
    assert_eq!(m.get_current_addr(), RAM_BASE);
}

#[test]
fn ascii_dump_shows_dots_for_unprintable() {
    let mut m = Monitor::new(0);
    let mut ram = Ram::new();
    run(&mut m, &mut ram, "80000000: 48 69 21 7f 7e 20 1f");
    let out = run(&mut m, &mut ram, "80000000+10.as_str");
    assert_eq!(out, "80000000: Hi!.~ ..........\r\n");
}

#[test]
fn dump_splits_into_lines_of_sixteen() {
    let mut m = Monitor::new(0);
    let mut ram = Ram::new();
    run(&mut m, &mut ram, "80000010: ab");
    let out = run(&mut m, &mut ram, "80000008+0a");
    assert_eq!(
        out,
        "80000008: 00 00 00 00 00 00 00 00 ab 00\r\n"
    );
    let out = run(&mut m, &mut ram, "80000000.80000012");
    assert_eq!(
        out,
        "80000000: 00 00 00 00 00 00 00 00 00 00 00 00 00 00 00 00\r\n80000010: ab 00 00\r\n"
    );
}

#[test]
fn set_cursor_then_query() {
    let mut m = Monitor::new(0);
    let mut ram = Ram::new();
    assert_eq!(run(&mut m, &mut ram, "@80001000"), "80001000\r\n");
    assert_eq!(run(&mut m, &mut ram, "@"), "80001000\r\n");
    assert_eq!(m.get_current_addr(), 0x8000_1000);
}

#[test]
fn set_cursor_into_stack_is_refused() {
    let mut m = Monitor::new(0);
    let mut ram = Ram::new();
    let out = run(&mut m, &mut ram, &format!("@{:x}", STACK_BOTTOM));
    assert_eq!(out, "error: invalid memory address\r\nvalid RAM: 80000000..87ffffff\r\n");
    assert_eq!(m.get_current_addr(), RAM_BASE);
    let out = run(&mut m, &mut ram, &format!("@{:x}", STACK_TOP - 1));
    assert!(out.starts_with("error: invalid memory address"));
    assert_eq!(run(&mut m, &mut ram, "@10"), "error: invalid memory address\r\nvalid RAM: 80000000..87ffffff\r\n");
    assert_eq!(m.get_current_addr(), RAM_BASE);
}

#[test]
fn write_then_dump_round_trip() {
    let mut m = Monitor::new(0);
    let mut ram = Ram::new();
    run(&mut m, &mut ram, "80200000: de ad be ef 00 01");
    assert_eq!(run(&mut m, &mut ram, "80200000.80200005"), "80200000: de ad be ef 00 01\r\n");
}

#[test]
fn info_and_help_leave_state_alone() {
    let mut m = Monitor::new(0x8000_4000);
    let mut ram = Ram::new();
    run(&mut m, &mut ram, "@80001000");
    let info1 = run(&mut m, &mut ram, "info");
    let info2 = run(&mut m, &mut ram, "info");
    assert_eq!(info1, info2);
    assert_eq!(
        info1,
        "riscmon v0.1.0\r\nstack: 800fc000.. 80100000\r\ncurrent: 80001000\r\nFINDME @ 80004000\r\n"
    );
    let help1 = run(&mut m, &mut ram, "help");
    let help2 = run(&mut m, &mut ram, "help");
    assert_eq!(help1, help2);
    assert!(help1.starts_with("shell commands:\r\n"));
    assert!(help1.ends_with("write up to 32 bytes (e.g. 80001000: 48 69 21)\r\n"));
    assert_eq!(m.get_current_addr(), 0x8000_1000);
}

#[test]
fn boundary_errors() {
    let mut m = Monitor::new(0);
    let mut ram = Ram::new();
    assert_eq!(run(&mut m, &mut ram, "80000000+0"), "error: offset is 0\r\n");
    assert_eq!(run(&mut m, &mut ram, "80000000+101"), "error: range too large (max 256 bytes)\r\n");
    assert_eq!(run(&mut m, &mut ram, "80000010.80000000"), "error: end < start\r\n");
    let out = run(&mut m, &mut ram, &format!("{:x}: 41", STACK_BOTTOM));
    assert_eq!(
        out,
        "error: write into riscmon stack not allowed\r\nmonitor stack: 800fc000..80100000\r\n"
    );
    assert_eq!(ram.read_byte(STACK_BOTTOM), 0);
    assert_eq!(m.get_current_addr(), RAM_BASE);
}

#[test]
fn write_overlapping_stack_from_below_is_refused() {
    let mut m = Monitor::new(0);
    let mut ram = Ram::new();
    let out = run(&mut m, &mut ram, &format!("{:x}: 41 42", STACK_BOTTOM - 1));
    assert!(out.starts_with("error: write into riscmon stack not allowed"));
    assert_eq!(ram.read_byte(STACK_BOTTOM - 1), 0);
    assert_eq!(run(&mut m, &mut ram, &format!("{:x}: 41", STACK_TOP)), "80100001\r\n");
}

#[test]
fn write_errors() {
    let mut m = Monitor::new(0);
    let mut ram = Ram::new();
    assert_eq!(run(&mut m, &mut ram, "10: 41"), "error: address out of range\r\nvalid RAM: 80000000..87ffffff\r\n");
    assert_eq!(run(&mut m, &mut ram, "87ffffff: 41 42"), "error: address out of range\r\nvalid RAM: 80000000..87ffffff\r\n");
    assert_eq!(run(&mut m, &mut ram, "80000000: 4"), "error: invalid byte (use two hex digits like 0a)\r\n");
    assert_eq!(run(&mut m, &mut ram, "80000000:"), "error: no data\r\n");
    assert_eq!(run(&mut m, &mut ram, "zz: 41"), "error: invalid address\r\n");
    let many: Vec<String> = (0..33).map(|i| format!("{:02x}", i)).collect();
    assert_eq!(
        run(&mut m, &mut ram, &format!("80000000: {}", many.join(" "))),
        "error: too many bytes (max 32)\r\n"
    );
    assert_eq!(m.get_current_addr(), RAM_BASE);
}

#[test]
fn write_at_top_of_ram_keeps_cursor() {
    let mut m = Monitor::new(0);
    let mut ram = Ram::new();
    assert_eq!(run(&mut m, &mut ram, &format!("{:x}: 5a", RAM_END_INCLUSIVE)), "80000000\r\n");
    assert_eq!(ram.read_byte(RAM_END_INCLUSIVE), 0x5a);
    assert_eq!(m.get_current_addr(), RAM_BASE);
}

#[test]
fn non_utf8_and_empty_lines() {
    let mut m = Monitor::new(0);
    let mut ram = Ram::new();
    let mut out = Vec::new();
    assert_eq!(m.handle_command(&mut ram, &[0xff, 0x41], &mut out), Effect::Continue);
    assert_eq!(out, b"error: non-utf8 input\r\n".to_vec());
    assert_eq!(run(&mut m, &mut ram, "   "), "");
}

#[test]
fn poweroff_and_clear() {
    let mut m = Monitor::new(0);
    let mut ram = Ram::new();
    let mut out = Vec::new();
    assert_eq!(m.handle_command(&mut ram, b"q", &mut out), Effect::PowerOff);
    assert_eq!(m.handle_command(&mut ram, b"poweroff", &mut out), Effect::PowerOff);
    assert!(out.is_empty());
    assert_eq!(run(&mut m, &mut ram, "clear"), "\x1b[2J\x1b[H");
    assert_eq!(run(&mut m, &mut ram, "reset"), "\x1b[2J\x1b[H");
}

#[test]
fn output_helpers() {
    let mut out = Vec::new();
    print_hex_u8(&mut out, 0x0a);
    print_hex_u32(&mut out, 0xdead_beef);
    prompt(&mut out);
    clear_screen(&mut out);
    assert_eq!(out, b"0adeadbeef> \x1b[2J\x1b[H".to_vec());
}

#[test]
fn line_editor() {
    let mut out = Vec::new();
    let r = read_line(b"he\x7fxlp\rrest", &mut out);
    let (line, used) = r.unwrap();
    assert_eq!(line, b"hxlp".to_vec());
    assert_eq!(used, 7);
    assert_eq!(out, b"he\x08 \x08xlp\r\n".to_vec());

    let mut out = Vec::new();
    let (line, used) = read_line(b"ab\x03cd\n", &mut out).unwrap();
    assert!(line.is_empty());
    assert_eq!(used, 3);
    assert_eq!(out, b"ab^C\r\n".to_vec());

    let mut out = Vec::new();
    assert!(read_line(b"\x08\x01abc", &mut out).is_none());
    assert_eq!(out, b"abc".to_vec());

    let long = vec![b'a'; 130];
    let mut out = Vec::new();
    let mut input = long.clone();
    input.push(b'\n');
    let (line, used) = read_line(&input, &mut out).unwrap();
    assert_eq!(line.len(), 128);
    assert_eq!(used, 131);
}

#[test]
fn editor_byte_by_byte() {
    let mut line = Vec::new();
    let mut out = Vec::new();
    assert!(!edit_byte(&mut line, b'@', &mut out));
    assert!(!edit_byte(&mut line, b'x', &mut out));
    assert!(!edit_byte(&mut line, 0x08, &mut out));
    assert!(!edit_byte(&mut line, 0x1b, &mut out));
    assert!(edit_byte(&mut line, b'\n', &mut out));
    assert_eq!(line, b"@".to_vec());
    assert_eq!(out, b"@x\x08 \x08\r\n".to_vec());
    assert!(edit_byte(&mut line, 0x03, &mut out));
    assert!(line.is_empty());
}

#[test]
fn ram_reads_back_writes() {
    let mut ram = Ram::new();
    assert_eq!(ram.read_byte(RAM_BASE), 0);
    ram.write_byte(RAM_BASE + 5, 0x77);
    assert_eq!(ram.read_byte(RAM_BASE + 5), 0x77);
    assert_eq!(ram.read_byte(RAM_BASE + 4), 0);
}

#[test]
fn text_output() {
    let mut out = Vec::new();
    riscmon::console::print(&mut out, "ab");
    riscmon::console::println(&mut out, "cd");
    riscmon::console::newline(&mut out);
    assert_eq!(out, b"abcd\r\n\r\n".to_vec());
    let mut out = Vec::new();
    riscmon::monitor::print_valid_address_ranges(&mut out);
    riscmon::monitor::print_stack_range(&mut out);
    assert_eq!(
        String::from_utf8(out).unwrap(),
        "valid RAM: 80000000..87ffffff\r\nmonitor stack: 800fc000..80100000\r\n"
    );
}

#[test]
fn dump_renderers_directly() {
    let mut ram = Ram::new();
    ram.write_byte(RAM_BASE, b'A');
    ram.write_byte(RAM_BASE + 1, 0x0a);
    let mut out = Vec::new();
    riscmon::monitor::print_memory_dump(&mut out, &ram, RAM_BASE, RAM_BASE + 2);
    riscmon::monitor::print_memory_dump_as_ascii(&mut out, &ram, RAM_BASE, RAM_BASE + 2);
    assert_eq!(
        String::from_utf8(out).unwrap(),
        "80000000: 41 0a 00\r\n80000000: A..\r\n"
    );
}

#[test]
fn unicode_blank_line_is_ignored() {
    let mut m = Monitor::new(0);
    let mut ram = Ram::new();
    assert_eq!(run(&mut m, &mut ram, "\u{a0}\u{3000}"), "");
    assert_eq!(run(&mut m, &mut ram, "\u{a0}@0X80001000\u{a0}"), "80001000\r\n");
    assert_eq!(run(&mut m, &mut ram, "@"), "80001000\r\n");
}
