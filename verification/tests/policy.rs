use net_filter::ipv4::{pack, parse_octet, parse_quad};
use net_filter::policy::{Blocklist, PolicyStore};
use net_filter::text::{is_space_char, split_spans, to_chars, trim_span};

fn quad(text: &str) -> Option<u32> {
    let chars: Vec<char> = text.chars().collect();
    parse_quad(&chars, 0, chars.len())
}

fn octet(text: &str) -> Option<u8> {
    let chars: Vec<char> = text.chars().collect();
    parse_octet(&chars, 0, chars.len())
}

fn fields(text: &str, sep: char) -> Vec<String> {
    let chars: Vec<char> = text.chars().collect();
    let spans = split_spans(&chars, 0, chars.len(), sep);
    spans.iter().map(|s| chars[s.0..s.1].iter().collect::<String>()).collect()
}

fn trimmed(text: &str) -> String {
    let chars: Vec<char> = text.chars().collect();
    let span = trim_span(&chars, 0, chars.len());
    chars[span.0..span.1].iter().collect()
}

#[test]
fn pack_puts_first_octet_highest() {
    assert_eq!(pack([10, 0, 0, 1]), 0x0A00_0001u32);
    assert_eq!(pack([1, 2, 3, 4]), 0x0102_0304u32);
    assert_eq!(pack([255, 255, 255, 255]), u32::MAX);
    assert_eq!(pack([0, 0, 0, 0]), 0u32);
    assert_eq!(pack([192, 168, 1, 1]), u32::from_be_bytes([192, 168, 1, 1]));
}

#[test]
fn octet_accepts_canonical_decimals() {
    assert_eq!(octet("0"), Some(0u8));
    assert_eq!(octet("7"), Some(7u8));
    assert_eq!(octet("10"), Some(10u8));
    assert_eq!(octet("99"), Some(99u8));
    assert_eq!(octet("100"), Some(100u8));
    assert_eq!(octet("255"), Some(255u8));
}

#[test]
fn octet_rejects_everything_else() {
    assert_eq!(octet(""), None);
    assert_eq!(octet("256"), None);
    assert_eq!(octet("999"), None);
    assert_eq!(octet("00"), None);
    assert_eq!(octet("01"), None);
    assert_eq!(octet("001"), None);
    assert_eq!(octet("1000"), None);
    assert_eq!(octet("0001"), None);
    assert_eq!(octet("1a"), None);
    assert_eq!(octet("-1"), None);
    assert_eq!(octet("+1"), None);
    assert_eq!(octet(" 1"), None);
    assert_eq!(octet("\u{0661}"), None);
}

#[test]
fn octet_reads_inside_a_longer_text() {
    let chars: Vec<char> = "ab123cd".chars().collect();
    assert_eq!(parse_octet(&chars, 2, 5), Some(123u8));
    assert_eq!(parse_octet(&chars, 2, 4), Some(12u8));
    assert_eq!(parse_octet(&chars, 1, 4), None);
    assert_eq!(parse_octet(&chars, 3, 3), None);
}

#[test]
fn quad_reads_dotted_quads() {
    assert_eq!(quad("1.2.3.4"), Some(0x0102_0304u32));
    assert_eq!(quad("10.0.0.1"), Some(0x0A00_0001u32));
    assert_eq!(quad("0.0.0.0"), Some(0u32));
    assert_eq!(quad("255.255.255.255"), Some(u32::MAX));
    assert_eq!(quad("192.168.1.1"), Some(0xC0A8_0101u32));
}

#[test]
fn quad_rejects_malformed_text() {
    assert_eq!(quad(""), None);
    assert_eq!(quad("not-an-ip"), None);
    assert_eq!(quad("1.2.3"), None);
    assert_eq!(quad("1.2.3.4.5"), None);
    assert_eq!(quad("1..3.4"), None);
    assert_eq!(quad(".1.2.3"), None);
    assert_eq!(quad("1.2.3."), None);
    assert_eq!(quad("1.2.3.4."), None);
    assert_eq!(quad("256.0.0.1"), None);
    assert_eq!(quad("01.2.3.4"), None);
    assert_eq!(quad("1.2.3.04"), None);
    assert_eq!(quad("1.2.3.4 "), None);
    assert_eq!(quad("1.2.3.4/24"), None);
    assert_eq!(quad("::1"), None);
    assert_eq!(quad("1,2,3,4"), None);
}

#[test]
fn split_keeps_empty_fields() {
    assert_eq!(fields("", ','), vec![String::new()]);
    assert_eq!(fields("a", ','), vec!["a".to_string()]);
    assert_eq!(fields("a,b", ','), vec!["a".to_string(), "b".to_string()]);
    assert_eq!(fields(",", ','), vec![String::new(), String::new()]);
    assert_eq!(
        fields("a,,b,", ','),
        vec!["a".to_string(), String::new(), "b".to_string(), String::new()]
    );
    assert_eq!(fields("1.2.3.4", '.'), vec!["1", "2", "3", "4"]);
}

#[test]
fn split_agrees_with_std_split() {
    for text in ["", ",", "a,b,c", ",a,,b,", "no separator", "x,\u{e9},\u{3000}y"] {
        let want: Vec<String> = text.split(',').map(|s| s.to_string()).collect();
        assert_eq!(fields(text, ','), want);
    }
}

#[test]
fn split_works_on_a_sub_range() {
    let chars: Vec<char> = "xx,a,b,yy".chars().collect();
    assert_eq!(split_spans(&chars, 3, 6, ','), vec![(3usize, 4usize), (5usize, 6usize)]);
    assert_eq!(split_spans(&chars, 4, 4, ','), vec![(4usize, 4usize)]);
}

#[test]
fn trim_strips_surrounding_whitespace_only() {
    assert_eq!(trimmed("  a b  "), "a b");
    assert_eq!(trimmed("\t\n1.2.3.4\r\n"), "1.2.3.4");
    assert_eq!(trimmed(""), "");
    assert_eq!(trimmed("   "), "");
    assert_eq!(trimmed("x"), "x");
    assert_eq!(trimmed("\u{a0}x\u{3000}"), "x");
}

#[test]
fn trim_agrees_with_std_trim() {
    for text in ["", " ", " a", "a ", " a b ", "\u{2003}a\u{85}", "\u{feff}a", "\u{200b}a", "\u{1680}\u{205f}"] {
        assert_eq!(trimmed(text), text.trim());
    }
}

#[test]
fn trim_span_stays_inside_the_range() {
    let chars: Vec<char> = " , a , ".chars().collect();
    assert_eq!(trim_span(&chars, 2, 5), (3usize, 4usize));
    assert_eq!(trim_span(&chars, 0, 1), (1usize, 1usize));
    assert_eq!(trim_span(&chars, 6, 7), (7usize, 7usize));
}

#[test]
fn whitespace_is_what_std_calls_whitespace() {
    let mut code: u32 = 0;
    while code <= 0x3100 {
        if let Some(c) = char::from_u32(code) {
            assert_eq!(is_space_char(c), c.is_whitespace(), "U+{:04X}", code);
        }
        code += 1;
    }
    assert!(!is_space_char('\u{feff}'));
    assert!(!is_space_char('\u{10ffff}'));
}

#[test]
fn to_chars_gives_every_character() {
    assert_eq!(to_chars(""), Vec::<char>::new());
    assert_eq!(to_chars("a,b"), vec!['a', ',', 'b']);
    assert_eq!(to_chars("\u{e9}\u{3000}z"), vec!['\u{e9}', '\u{3000}', 'z']);
}

#[test]
fn malformed_tokens_are_skipped() {
    let list = Blocklist::parse("1.2.3.4,not-an-ip,5.6.7.8");
    assert_eq!(list.len(), 2usize);
    assert!(list.is_blocked(0x0102_0304));
    assert!(list.is_blocked(0x0506_0708));
    assert!(!list.is_blocked(0x0102_0305));
    assert!(!list.is_blocked(0));
}

#[test]
fn empty_configuration_blocks_nothing() {
    let list = Blocklist::parse("");
    assert_eq!(list.len(), 0usize);
    assert!(!list.is_blocked(0));
    assert!(!list.is_blocked(0x7F00_0001));
    let list = Blocklist::parse(" , ,,");
    assert_eq!(list.len(), 0usize);
}

#[test]
fn absent_configuration_blocks_nothing() {
    let list = Blocklist::load(None);
    assert_eq!(list.len(), 0usize);
    assert!(!list.is_blocked(0x0A00_0001));
    assert_eq!(Blocklist::empty().len(), 0usize);
}

#[test]
fn present_configuration_is_parsed() {
    let list = Blocklist::load(Some("10.0.0.1"));
    assert_eq!(list.len(), 1usize);
    assert!(list.is_blocked(0x0A00_0001));
    assert!(!list.is_blocked(0x0A00_0002));
    assert!(!list.is_blocked(0x0100_000A));
}

#[test]
fn tokens_are_trimmed() {
    let list = Blocklist::parse("  10.0.0.1 ,\t192.168.1.1\n, 8.8.8.8");
    assert_eq!(list.len(), 3usize);
    assert!(list.is_blocked(0x0A00_0001));
    assert!(list.is_blocked(0xC0A8_0101));
    assert!(list.is_blocked(0x0808_0808));
}

#[test]
fn inner_whitespace_spoils_a_token() {
    let list = Blocklist::parse("1.2.3.4 5.6.7.8,1. 2.3.4,9.9.9.9");
    assert_eq!(list.len(), 1usize);
    assert!(list.is_blocked(0x0909_0909));
}

#[test]
fn repeated_addresses_count_once() {
    let list = Blocklist::parse("1.1.1.1, 1.1.1.1,1.1.1.1 ");
    assert_eq!(list.len(), 1usize);
    assert!(list.is_blocked(0x0101_0101));
}

#[test]
fn no_prefix_matching() {
    let list = Blocklist::parse("10.0.0.0/8,10.0.0.0");
    assert_eq!(list.len(), 1usize);
    assert!(list.is_blocked(0x0A00_0000));
    assert!(!list.is_blocked(0x0A00_0001));
}

#[test]
fn store_starts_uninitialized() {
    let store = PolicyStore::new();
    assert!(!store.initialized());
}

#[test]
fn store_initializes_once() {
    let mut store = PolicyStore::new();
    store.ensure_initialized(Some("10.0.0.1"));
    assert!(store.initialized());
    assert!(store.is_blocked(0x0A00_0001));
    assert!(!store.is_blocked(0x0A00_0002));
    store.ensure_initialized(Some("10.0.0.2"));
    assert!(store.is_blocked(0x0A00_0001));
    assert!(!store.is_blocked(0x0A00_0002));
    store.ensure_initialized(None);
    assert!(store.is_blocked(0x0A00_0001));
    assert_eq!(store.policy().len(), 1usize);
}

#[test]
fn store_without_configuration_blocks_nothing() {
    let mut store = PolicyStore::new();
    store.ensure_initialized(None);
    assert!(store.initialized());
    assert!(!store.is_blocked(0x0A00_0001));
    assert_eq!(store.policy().len(), 0usize);
    store.ensure_initialized(Some("10.0.0.1"));
    assert!(!store.is_blocked(0x0A00_0001));
}

#[test]
fn every_canonical_quad_parses_to_its_encoding() {
    let samples: [u8; 12] = [0, 1, 9, 10, 11, 99, 100, 101, 199, 200, 254, 255];
    for a in samples {
        for b in samples {
            for c in [0u8, 7, 42, 255] {
                for d in [0u8, 1, 100, 255] {
                    let text = format!(" {}.{}.{}.{}\t", a, b, c, d);
                    let list = Blocklist::parse(&text);
                    assert_eq!(list.len(), 1usize);
                    assert!(list.is_blocked(u32::from_be_bytes([a, b, c, d])));
                    assert_eq!(quad(text.trim()), Some(pack([a, b, c, d])));
                }
            }
        }
    }
}

#[test]
fn joined_configurations_block_both_parts() {
    let first = Blocklist::parse("1.1.1.1,bad");
    let second = Blocklist::parse("2.2.2.2");
    let both = Blocklist::parse("1.1.1.1,bad,2.2.2.2");
    for address in [0x0101_0101u32, 0x0202_0202, 0x0303_0303, 0] {
        assert_eq!(
            both.is_blocked(address),
            first.is_blocked(address) || second.is_blocked(address)
        );
    }
    assert_eq!(both.len(), 2usize);
}
