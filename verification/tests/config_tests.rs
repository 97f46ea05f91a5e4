use ysos_core::config::{parse_u64, split_lines, Config};

#[test]
fn defaults_when_empty() {
    let c = Config::parse(b"");
    assert_eq!(c.physical_memory_offset, 0xFFFF_8000_0000_0000);
    assert_eq!(c.kernel_stack_addr, 0xFFFF_FF01_0000_0000);
    assert_eq!(c.kernel_stack_size, 512);
    assert_eq!(c.kernel_stack_max, 0xffff_ff02_0000_0000);
    assert_eq!(c.kernel_default_page, 1);
    assert_eq!(c.kernel_stack_auto_grow, 0);
    assert_eq!(c.kernel_path, "\\KERNEL.ELF");
    assert_eq!(c.stack_max_addr, 0x4000_0000_0000);
    assert_eq!(c.stack_max_pages, 0x100000);
    assert_eq!(c.stack_default_page, 1);
    assert_eq!(c.cmdline, "");
    assert!(!c.load_apps);
    assert_eq!(c.log_level, "Normal");
}

#[test]
fn parses_keys_and_skips_comments() {
    let text = b"# boot config\n\
        physical_memory_offset=0xFFFF800000000000\r\n\
        \n\
          kernel_stack_size=1024  \n\
        kernel_path=\\APP\\KERNEL.ELF\n\
        load_apps=1\n\
        log_level=Debug\n\
        cmdline=a=b\n\
        stack_max_pages=0x200\n\
        unknown=5\n\
        no equals sign\n\
        kernel_default_page=oops\n";
    let c = Config::parse(text);
    assert_eq!(c.physical_memory_offset, 0xFFFF_8000_0000_0000);
    assert_eq!(c.kernel_stack_size, 1024);
    assert_eq!(c.kernel_path, "\\APP\\KERNEL.ELF");
    assert!(c.load_apps);
    assert_eq!(c.log_level, "Debug");
    assert_eq!(c.cmdline, "a=b");
    assert_eq!(c.stack_max_pages, 0x200);
    assert_eq!(c.kernel_default_page, 0);
}

#[test]
fn spaces_around_equals_make_an_unknown_key() {
    let c = Config::parse(b"kernel_stack_size = 7\n");
    assert_eq!(c.kernel_stack_size, 512);
    let d = Config::parse(b"kernel_stack_size=+7");
    assert_eq!(d.kernel_stack_size, 7);
}

#[test]
fn hex_values_skip_two_leading_bytes() {
    let c = Config::parse(b"kernel_stack_addr=xx10\nstack_max_addr=0x\n");
    assert_eq!(c.kernel_stack_addr, 0x10);
    assert_eq!(c.stack_max_addr, 0);
}

#[test]
fn number_parsing() {
    assert_eq!(parse_u64(b"18446744073709551615", 10), Some(u64::MAX));
    assert_eq!(parse_u64(b"18446744073709551616", 10), None);
    assert_eq!(parse_u64(b"", 10), None);
    assert_eq!(parse_u64(b"+", 10), None);
    assert_eq!(parse_u64(b"-1", 10), None);
    assert_eq!(parse_u64(b"ff", 16), Some(255));
    assert_eq!(parse_u64(b"FF", 16), Some(255));
    assert_eq!(parse_u64(b"fg", 16), None);
    assert_eq!(parse_u64(b"12a", 10), None);
}

#[test]
fn lines_split_like_str_lines() {
    let text = "foo\nbar\n\r\nbaz\r";
    assert_eq!(split_lines(text), text.lines().collect::<Vec<_>>());
    assert_eq!(split_lines("a\n"), vec!["a"]);
    assert!(split_lines("").is_empty());
}
