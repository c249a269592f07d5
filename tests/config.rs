use lboot::config::{Config, Entry, LineType};
use lboot::error::LbootError;
use lboot::wide::BoxedCStr16;

fn load(text: &str) -> Config {
    let mut buf = text.as_bytes().to_vec();
    buf.push(0);
    Config::from_buffer(&buf).unwrap()
}

fn text_of(f: &Option<BoxedCStr16>) -> Option<String> {
    f.as_ref().map(|s| String::from_utf16(s.text()).unwrap())
}

fn wide(s: &str) -> Vec<u16> {
    s.encode_utf16().collect()
}

#[test]
fn parse_single_entry_example() {
    let entries = load("[[entry]]\nname = 'A'\nvmlinux = 'efi\\boot\\a.efi'\n").parse().unwrap();
    assert_eq!(entries.len(), 1);
    assert_eq!(text_of(&entries[0].name), Some("A".to_string()));
    assert_eq!(text_of(&entries[0].vmlinux), Some("efi\\boot\\a.efi".to_string()));
    assert_eq!(text_of(&entries[0].param), None);
}

#[test]
fn parse_two_entries_in_file_order() {
    let text = "[[entry]]\nname = 'First'\nvmlinux = '\\a.efi'\n\n[[entry]]\nname = \"Second\"\nparam = 'quiet'\n";
    let entries = load(text).parse().unwrap();
    assert_eq!(entries.len(), 2);
    assert_eq!(text_of(&entries[0].name), Some("First".to_string()));
    assert_eq!(text_of(&entries[0].vmlinux), Some("\\a.efi".to_string()));
    assert_eq!(text_of(&entries[1].name), Some("Second".to_string()));
    assert_eq!(text_of(&entries[1].param), Some("quiet".to_string()));
    assert_eq!(text_of(&entries[1].vmlinux), None);
}

#[test]
fn parse_field_without_entry_fails() {
    assert_eq!(load("name = 'A'\n").parse().unwrap_err(), LbootError::WrongConfig);
}

#[test]
fn parse_field_before_first_entry_fails() {
    let text = "# comment\nvmlinux = '\\k.efi'\n[[entry]]\nname = 'A'\n";
    assert_eq!(load(text).parse().unwrap_err(), LbootError::WrongConfig);
}

#[test]
fn parse_unknown_key_fails() {
    let text = "[[entry]]\nname = 'A'\nfoo = 'bar'\n";
    assert_eq!(load(text).parse().unwrap_err(), LbootError::WrongConfig);
}

#[test]
fn parse_empty_key_or_value_fails() {
    assert_eq!(load("[[entry]]\n= 'A'\n").parse().unwrap_err(), LbootError::WrongConfig);
    assert_eq!(load("[[entry]]\nname =   \n").parse().unwrap_err(), LbootError::WrongConfig);
}

#[test]
fn parse_key_is_case_sensitive() {
    assert_eq!(load("[[entry]]\nName = 'A'\n").parse().unwrap_err(), LbootError::WrongConfig);
}

#[test]
fn parse_last_write_wins() {
    let entries = load("[[entry]]\nname = 'A'\nname = 'B'\n").parse().unwrap();
    assert_eq!(entries.len(), 1);
    assert_eq!(text_of(&entries[0].name), Some("B".to_string()));
}

#[test]
fn parse_ignores_lines_without_equals() {
    let entries = load("hello\n[[entry]]\n  stray words\nname=plain\n").parse().unwrap();
    assert_eq!(entries.len(), 1);
    assert_eq!(text_of(&entries[0].name), Some("plain".to_string()));
}

#[test]
fn parse_empty_file_gives_no_entries() {
    assert_eq!(load("").parse().unwrap().len(), 0);
}

#[test]
fn parse_reads_unterminated_last_line() {
    let entries = load("[[entry]]\nname = 'A'").parse().unwrap();
    assert_eq!(entries.len(), 1);
    assert_eq!(text_of(&entries[0].name), Some("A".to_string()));
    assert_eq!(String::from_utf16(&entries[0].render()).unwrap(), "A@[Unknown] -- Unknown");
}

#[test]
fn parse_unterminated_field_without_entry_fails() {
    assert_eq!(load("name = 'A'").parse().unwrap_err(), LbootError::WrongConfig);
}

#[test]
fn parse_unterminated_unknown_key_fails() {
    assert_eq!(load("[[entry]]\nfoo = 'bar'").parse().unwrap_err(), LbootError::WrongConfig);
}

#[test]
fn parse_unterminated_header_opens_entry() {
    let entries = load("[[entry]]\nname = 'A'\n[[entry]]").parse().unwrap();
    assert_eq!(entries.len(), 2);
    assert_eq!(text_of(&entries[1].name), None);
}

#[test]
fn parse_keeps_carriage_return_out_of_header() {
    // "[[entry]]\r" is not the header and has no '=', so it is ignored.
    assert_eq!(load("[[entry]]\r\nname = 'A'\r\n").parse().unwrap_err(), LbootError::WrongConfig);
}

#[test]
fn parse_is_repeatable() {
    let config = load("[[entry]]\nname = 'A'\n");
    let first = config.parse().unwrap();
    let second = config.parse().unwrap();
    assert_eq!(first[0].render(), second[0].render());
}

#[test]
fn round_trip_render_reproduces_values() {
    let text = "[[entry]]\nname = 'Linux 6.5.5'\nvmlinux = 'efi\\boot\\bzImage.efi'\nparam = 'initrd=efi\\boot\\initramfs-linux.img'\n";
    let entries = load(text).parse().unwrap();
    assert_eq!(entries.len(), 1);
    let shown = String::from_utf16(&entries[0].render()).unwrap();
    assert_eq!(
        shown,
        "Linux 6.5.5@[efi\\boot\\bzImage.efi] -- initrd=efi\\boot\\initramfs-linux.img"
    );
}

#[test]
fn render_shows_unknown_for_missing_fields() {
    let e = Entry::default();
    assert_eq!(String::from_utf16(&e.render()).unwrap(), "Unknown@[Unknown] -- Unknown");
}

#[test]
fn from_buffer_stops_at_first_zero() {
    let config = Config::from_buffer(b"[[entry]]\nname = 'A'\n\0name = 'B'\n").unwrap();
    let entries = config.parse().unwrap();
    assert_eq!(text_of(&entries[0].name), Some("A".to_string()));
}

#[test]
fn from_buffer_without_zero_fails() {
    assert_eq!(Config::from_buffer(b"[[entry]]\n").unwrap_err(), LbootError::CannotOpenConfig);
}

#[test]
fn trim_strips_whitespace_and_one_quote_layer() {
    assert_eq!(Config::trim(b"  'abc' \t"), b"abc");
    assert_eq!(Config::trim(b"\"x\""), b"x");
    assert_eq!(Config::trim(b"''"), b"''");
    assert_eq!(Config::trim(b"'a\""), b"'a\"");
    assert_eq!(Config::trim(b"\"'a'\""), b"'a'");
    assert_eq!(Config::trim(b"   "), b"");
    assert_eq!(Config::trim(b""), b"");
}

#[test]
fn build_u16_vec_widens_and_terminates() {
    assert_eq!(Config::build_u16_vec(b"ab"), vec![0x61u16, 0x62, 0]);
    assert_eq!(Config::build_u16_vec(b""), vec![0u16]);
}

#[test]
fn parse_line_classifies() {
    assert!(matches!(Config::parse_line(b""), LineType::Blank));
    assert!(matches!(Config::parse_line(b"[[entry]]"), LineType::NewEntry));
    assert!(matches!(Config::parse_line(b"no equals here"), LineType::Blank));
    assert!(matches!(Config::parse_line(b"foo = 'bar'"), LineType::Unknown));
    match Config::parse_line(b" param = \"quiet splash\" ") {
        LineType::Param(v) => {
            let mut expected = wide("quiet splash");
            expected.push(0);
            assert_eq!(v, expected);
        }
        other => panic!("unexpected {:?}", other),
    }
    match Config::parse_line(b"vmlinux=a=b") {
        LineType::Vmlinux(v) => assert_eq!(v, vec![0x61u16, 0x3D, 0x62, 0]),
        other => panic!("unexpected {:?}", other),
    }
}

#[test]
fn boxed_str_keeps_text_and_terminator() {
    let s = BoxedCStr16::new(vec![0x41u16, 0x42, 0]);
    assert_eq!(s.text(), &[0x41u16, 0x42]);
    assert_eq!(s.as_units(), &[0x41u16, 0x42, 0]);
    assert_eq!(s.len(), 2);
}

#[test]
fn boxed_str_ends_at_first_zero() {
    let s = BoxedCStr16::new(vec![0x41u16, 0, 0x42, 0x43, 0]);
    assert_eq!(s.text(), &[0x41u16]);
    assert_eq!(s.as_units(), &[0x41u16, 0]);
    assert_eq!(s.len(), 1);
    let empty = BoxedCStr16::new(vec![0u16, 0x41]);
    assert_eq!(empty.len(), 0);
}
