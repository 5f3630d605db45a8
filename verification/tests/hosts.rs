use wirehole::domain::DomainEntry;
use wirehole::hosts::{entry_of, load_host_list, parse_line, qualify, HostLine};
use wirehole::record::IpAddress;
use wirehole::text::{
    blanks_of, chars_of, fields_of, inner_range_of, split_on, text_of, trim, untab,
};

fn line(ip: &str, name: &str) -> Option<HostLine> {
    Some(HostLine { ip: ip.to_string(), name: name.to_string() })
}

fn chars(text: &str) -> Vec<char> {
    text.chars().collect()
}

#[test]
fn line_gives_address_and_qualified_name() {
    assert_eq!(parse_line("127.0.0.1 localhost"), line("127.0.0.1", "localhost."));
    assert_eq!(parse_line("0.0.0.0 ads.example.com."), line("0.0.0.0", "ads.example.com."));
    assert_eq!(parse_line("::1\tip6-localhost ip6-loopback"), line("::1", "ip6-localhost."));
    assert_eq!(parse_line("not-an-address name"), line("not-an-address", "name."));
}

#[test]
fn line_allows_any_run_of_spaces_and_tabs() {
    assert_eq!(parse_line("  10.0.0.1 \t  router.lan   alias  "), line("10.0.0.1", "router.lan."));
    assert_eq!(parse_line("\t10.0.0.1\t\trouter.lan.\t"), line("10.0.0.1", "router.lan."));
    assert_eq!(parse_line("10.0.0.1 router.lan\r"), line("10.0.0.1", "router.lan."));
    assert_eq!(parse_line("\u{a0}10.0.0.1 router.lan\u{2003}"), line("10.0.0.1", "router.lan."));
}

#[test]
fn only_spaces_and_tabs_separate_fields() {
    assert_eq!(parse_line("10.0.0.1\u{a0}router.lan"), None);
    assert_eq!(parse_line("10.0.0.1 a\u{a0}b c"), line("10.0.0.1", "a\u{a0}b."));
    assert_eq!(parse_line("10.0.0.1 a\rb"), line("10.0.0.1", "a\rb."));
}

#[test]
fn blank_lines_and_comments_say_nothing() {
    assert_eq!(parse_line(""), None);
    assert_eq!(parse_line("   \t "), None);
    assert_eq!(parse_line("# 127.0.0.1 localhost"), None);
    assert_eq!(parse_line("   #127.0.0.1 localhost"), None);
    assert_eq!(parse_line("\t# comment"), None);
    assert_eq!(parse_line("127.0.0.1"), None);
    assert_eq!(parse_line("  127.0.0.1  "), None);
}

#[test]
fn comment_sign_inside_a_line_is_text() {
    assert_eq!(parse_line("127.0.0.1 localhost # loopback"), line("127.0.0.1", "localhost."));
    assert_eq!(parse_line("127.0.0.1 #localhost"), line("127.0.0.1", "#localhost."));
}

#[test]
fn file_is_read_line_by_line() {
    let content = "# hosts\n127.0.0.1 localhost\n\n0.0.0.0\tads.test.\r\nbroken\n::1 ip6-localhost";
    assert_eq!(
        load_host_list(content),
        vec![
            HostLine { ip: "127.0.0.1".to_string(), name: "localhost.".to_string() },
            HostLine { ip: "0.0.0.0".to_string(), name: "ads.test.".to_string() },
            HostLine { ip: "::1".to_string(), name: "ip6-localhost.".to_string() },
        ]
    );
    assert_eq!(load_host_list(""), vec![]);
    assert_eq!(load_host_list("\n\n\n"), vec![]);
    assert_eq!(
        load_host_list("1.1.1.1 one\n"),
        vec![HostLine { ip: "1.1.1.1".to_string(), name: "one.".to_string() }]
    );
}

#[test]
fn name_gets_its_final_dot_once() {
    assert_eq!(qualify(&chars("host")), "host.");
    assert_eq!(qualify(&chars("host.")), "host.");
    assert_eq!(qualify(&chars("host..")), "host..");
    assert_eq!(qualify(&chars("")), ".");
    assert_eq!(qualify(&chars(".")), ".");
}

#[test]
fn text_goes_to_characters_and_back() {
    assert_eq!(chars_of("a\u{e9}\u{1f600}."), vec!['a', '\u{e9}', '\u{1f600}', '.']);
    assert_eq!(chars_of(""), Vec::<char>::new());
    assert_eq!(text_of(&['a', '\u{e9}', '\u{1f600}', '.']), "a\u{e9}\u{1f600}.");
    assert_eq!(text_of(&[]), "");
}

#[test]
fn tabs_become_spaces() {
    assert_eq!(untab(&chars("a\tb\t\tc d")), chars("a b  c d"));
    assert_eq!(untab(&chars("")), chars(""));
}

#[test]
fn trim_takes_whitespace_off_both_ends_only() {
    assert_eq!(trim(&chars("  a b \r\n")), chars("a b"));
    assert_eq!(trim(&chars("\u{3000}a\u{a0}")), chars("a"));
    assert_eq!(trim(&chars("a")), chars("a"));
    assert_eq!(trim(&chars(" \t\n ")), chars(""));
    assert_eq!(trim(&chars("")), chars(""));
    assert_eq!(trim(&chars("\u{200b}a")), chars("\u{200b}a"));
}

#[test]
fn split_keeps_empty_pieces() {
    assert_eq!(split_on(&chars("a,b,,c"), ','), vec![chars("a"), chars("b"), chars(""), chars("c")]);
    assert_eq!(split_on(&chars(""), ','), vec![chars("")]);
    assert_eq!(split_on(&chars(","), ','), vec![chars(""), chars("")]);
    assert_eq!(split_on(&chars("abc"), ','), vec![chars("abc")]);
    assert_eq!(split_on(&chars("a\n"), '\n'), vec![chars("a"), chars("")]);
}

#[test]
fn fields_are_the_runs_between_spaces() {
    assert_eq!(fields_of(&chars("a  bc d")), vec![chars("a"), chars("bc"), chars("d")]);
    assert_eq!(fields_of(&chars("  a ")), vec![chars("a")]);
    assert_eq!(fields_of(&chars("   ")), Vec::<Vec<char>>::new());
    assert_eq!(fields_of(&chars("")), Vec::<Vec<char>>::new());
    assert_eq!(fields_of(&chars("a\tb")), vec![chars("a\tb")]);
}

#[test]
fn set_flags_come_off_both_ends() {
    assert_eq!(inner_range_of(&[true, true, false, true, false, true]), (2, 5));
    assert_eq!(inner_range_of(&[false, true, false]), (0, 3));
    assert_eq!(inner_range_of(&[true, false]), (1, 2));
    assert_eq!(inner_range_of(&[false]), (0, 1));
    assert_eq!(inner_range_of(&[true, true, true]), (3, 3));
    assert_eq!(inner_range_of(&[true]), (1, 1));
    assert_eq!(inner_range_of(&[]), (0, 0));
}

#[test]
fn whitespace_is_what_unicode_says() {
    assert_eq!(
        blanks_of(&chars(" a\t\u{a0}\u{200b}_\r\n\u{3000}\u{2028}0")),
        vec![true, false, true, true, false, false, true, true, true, true, false]
    );
    assert_eq!(blanks_of(&chars("")), Vec::<bool>::new());
}

#[test]
fn whitespace_is_exactly_the_unicode_list() {
    let listed = |c: char| {
        let code = c as u32;
        (0x0009..=0x000D).contains(&code)
            || code == 0x0020
            || code == 0x0085
            || code == 0x00A0
            || code == 0x1680
            || (0x2000..=0x200A).contains(&code)
            || code == 0x2028
            || code == 0x2029
            || code == 0x202F
            || code == 0x205F
            || code == 0x3000
    };
    let all: Vec<char> = (0u32..=0x10FFFF).filter_map(char::from_u32).collect();
    let flags = blanks_of(&all);
    assert_eq!(flags.len(), all.len());
    let mut count = 0;
    for (c, flag) in all.iter().zip(flags.iter()) {
        assert_eq!(*flag, listed(*c), "U+{:04X}", *c as u32);
        if *flag {
            count += 1;
        }
    }
    assert_eq!(count, 25);
}

#[test]
fn line_gives_an_entry_only_with_an_address() {
    let said = || HostLine { ip: "10.0.0.1".to_string(), name: "router.lan.".to_string() };
    assert_eq!(
        entry_of(said(), Some(IpAddress::V4(0x0a00_0001))),
        Some(DomainEntry { name: "router.lan.".to_string(), ip: IpAddress::V4(0x0a00_0001) })
    );
    assert_eq!(
        entry_of(said(), Some(IpAddress::V6(1))),
        Some(DomainEntry { name: "router.lan.".to_string(), ip: IpAddress::V6(1) })
    );
    assert_eq!(entry_of(said(), None), None);
}
