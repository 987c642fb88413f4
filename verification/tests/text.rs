use usbip_tools::net;
use usbip_tools::net::{IpAddr, SocketAddr};
use usbip_tools::number;
use usbip_tools::text;
use usbip_tools::text_set::TextSet;

fn chars(s: &str) -> Vec<char> {
    s.chars().collect()
}

fn strings(v: &[&[char]]) -> Vec<String> {
    v.iter().map(|p| p.iter().collect()).collect()
}

#[test]
fn white_space_is_that_of_std() {
    for n in 0u32..=0x10ffff {
        if let Some(c) = char::from_u32(n) {
            assert_eq!(text::is_space(c), c.is_whitespace(), "{n:x}");
        }
    }
}

#[test]
fn trimming_is_that_of_std() {
    for s in ["", " ", "a", " a", "a ", "\t a b \u{3000}", "\u{a0}x\u{85}", "\u{200b}x"] {
        let cs = chars(s);
        assert_eq!(text::string_of(text::trim(&cs)), s.trim());
        assert_eq!(text::string_of(text::trim_start(&cs)), s.trim_start());
        assert_eq!(text::string_of(text::trim_end(&cs)), s.trim_end());
    }
}

#[test]
fn lines_and_words_are_those_of_std() {
    for s in ["", "\n", "a", "a\n", "a\nb", "a\r\nb\r", "\r\n\n x y\n", "a\r\r\n", " \u{2003}a\u{85}b  c\n"] {
        let cs = chars(s);
        let std_lines: Vec<String> = s.lines().map(|l| l.to_string()).collect();
        assert_eq!(strings(&text::lines(&cs)), std_lines, "{s:?}");
        let std_words: Vec<String> = s.split_whitespace().map(|l| l.to_string()).collect();
        assert_eq!(strings(&text::words(&cs)), std_words, "{s:?}");
        let std_split: Vec<String> = s.split('\n').map(|l| l.to_string()).collect();
        assert_eq!(strings(&text::split(&cs, '\n')), std_split, "{s:?}");
    }
}

#[test]
fn searching_is_that_of_std() {
    for s in ["", "a", "ab", "aab", "xaaby", "attach 失败: x"] {
        let cs = chars(s);
        for p in ["", "a", "ab", "aab", "失败", "z"] {
            assert_eq!(text::contains_text(&cs, p), s.contains(p));
            assert_eq!(text::starts_with(&cs, p), s.starts_with(p));
            let rest = text::strip_prefix(&cs, p).map(text::string_of);
            assert_eq!(rest, s.strip_prefix(p).map(|r| r.to_string()));
        }
        assert_eq!(text::contains_char(&cs, 'a'), s.contains('a'));
    }
    assert_eq!(text::position(&chars("a:b:c"), ':'), 1);
    assert_eq!(text::position(&chars("abc"), ':'), 3);
    assert_eq!(text::last_position(&chars("a:b:c"), ':'), Some(3));
    assert_eq!(text::last_position(&chars("abc"), ':'), None);
}

#[test]
fn building_is_that_of_std() {
    assert_eq!(text::join(&vec![], "-"), "");
    assert_eq!(text::join(&vec!["a".to_string()], "-"), "a");
    assert_eq!(text::join(&vec!["a".to_string(), "".to_string(), "c".to_string()], ", "), "a, , c");
    assert_eq!(text::cat("a", "失"), "a失");
    let lower: String = text::to_ascii_lower(&chars("AbZ[É@`{")).iter().collect();
    assert_eq!(lower, "abz[É@`{");
    assert!(text::is_text_less(&chars("10"), &chars("9")));
    assert!(text::is_text_less(&chars("1"), &chars("10")));
    assert!(!text::is_text_less(&chars("10"), &chars("10")));
    assert!(text::same_opt_text(&Some("a".to_string()), &Some("a".to_string())));
    assert!(!text::same_opt_text(&Some("a".to_string()), &None));
    assert!(text::same_opt_text(&None, &None));
}

#[test]
fn numbers_read_as_in_std() {
    for s in ["", "+", "-", "0", "+7", "007", "65535", "65536", "25a7", "FA70", "ffff", "10000", " 1", "1 ", "g", "0x1", "-1", "१"] {
        let cs = chars(s);
        let want = u16::from_str_radix(s, 16).ok().map(|n| n as u64);
        assert_eq!(number::parse_number(&cs, 16, 0xffff), want, "{s:?}");
        let byte = u8::from_str_radix(s, 16).ok().map(|n| n as u64);
        assert_eq!(number::parse_number(&cs, 16, 0xff), byte, "{s:?}");
        let dec = s.parse::<u64>().ok();
        assert_eq!(number::parse_number(&cs, 10, u64::MAX), dec, "{s:?}");
    }
    let big = "18446744073709551616";
    assert_eq!(number::parse_number(&chars(big), 10, u64::MAX), None);
}

#[test]
fn numerals_read_back() {
    for n in [0u64, 1, 9, 10, 99, 100, 65535, u64::MAX] {
        let t = number::decimal_text(n);
        assert_eq!(t, n.to_string());
        assert_eq!(number::parse_number(&chars(&t), 10, u64::MAX), Some(n));
        let mut hex = String::new();
        number::push_numeral(&mut hex, n, 16);
        assert_eq!(hex, format!("{n:x}"));
        assert_eq!(number::parse_number(&chars(&hex), 16, u64::MAX), Some(n));
    }
}

#[test]
fn addresses_are_written_as_usual() {
    assert_eq!(net::v4_string(0xc0a8_0101), "192.168.1.1");
    assert_eq!(net::v4_string(0), "0.0.0.0");
    assert_eq!(net::v4_string(0xffff_ffff), "255.255.255.255");
    let cases: [(u128, &str); 9] = [
        (0, "::"),
        (1, "::1"),
        (0x2001_0db8_0000_0000_0000_0000_0000_0001, "2001:db8::1"),
        (0x2001_0db8_0000_0001_0000_0000_0000_0001, "2001:db8:0:1::1"),
        (0xfe80_0000_0000_0000_0000_0000_0000_0000, "fe80::"),
        (0x0001_0000_0002_0003_0004_0005_0006_0007, "1:0:2:3:4:5:6:7"),
        (0x0001_0000_0000_0002_0000_0000_0003_0004, "1::2:0:0:3:4"),
        (0x0000_0000_0000_0000_0000_ffff_c0a8_0101, "::ffff:192.168.1.1"),
        (0x0000_0000_0000_0000_0000_0000_c0a8_0101, "::c0a8:101"),
    ];
    for (ip, want) in cases {
        assert_eq!(net::v6_string(ip), want);
        assert_eq!(net::ip_string(&IpAddr::V6(ip)), want);
        assert_eq!(
            net::addr_string(&SocketAddr { ip: IpAddr::V6(ip), port: 3240 }),
            format!("[{want}]:3240")
        );
    }
    assert_eq!(
        net::addr_string(&SocketAddr { ip: IpAddr::V4(0x7f00_0001), port: 80 }),
        "127.0.0.1:80"
    );
}

#[test]
fn addresses_are_ordered() {
    let a = |ip, port| SocketAddr { ip, port };
    let low = a(IpAddr::V4(1), 9);
    let mid = a(IpAddr::V4(2), 1);
    let six = a(IpAddr::V6(0), 0);
    assert!(net::is_addr_less(&low, &mid));
    assert!(!net::is_addr_less(&mid, &low));
    assert!(net::is_addr_less(&mid, &six));
    assert!(net::is_addr_less(&a(IpAddr::V4(1), 8), &low));
    assert!(!net::is_addr_less(&low, &low));
}

#[test]
fn a_set_holds_each_text_once() {
    let mut s = TextSet::new();
    assert!(s.is_empty());
    assert!(s.insert("1-1".to_string()));
    assert!(s.insert("2-1".to_string()));
    assert!(!s.insert("1-1".to_string()));
    assert_eq!(s.len(), 2);
    assert!(s.contains("2-1"));
    assert!(!s.contains("3-1"));
    assert_eq!(s.to_vec(), vec!["1-1", "2-1"]);
    s.remove("3-1");
    s.remove("1-1");
    assert_eq!(s.to_vec(), vec!["2-1"]);
    let t = s.clone();
    s.clear();
    assert_eq!(s.len(), 0);
    assert_eq!(t.to_vec(), vec!["2-1"]);
}
