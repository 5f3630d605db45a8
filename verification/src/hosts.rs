//! The hosts-file syntax: one record per line, an address and then a name,
//! separated by spaces or tabs. Blank lines and lines that start with `#` say
//! nothing.
//!
//! The address is handed on as text. Reading it as an IPv4 or IPv6 address is
//! left to the caller, who hands what came of it to `entry_of`.

use crate::domain::{DomainEntry, DomainEntryView};
use crate::record::IpAddress;
use crate::text::{
    blanks, chars_of, fields, fields_of, leading, lemma_fields_joined, lemma_fields_word,
    lemma_leading_known, lemma_pieces_joined, lemma_pieces_whole, lemma_trimmed_blank,
    lemma_trimmed_core, pieces, rows, split_on, text_of, trailing, trim, trimmed, untab, untabbed,
    white_space,
};
use vstd::prelude::*;

verus! {

/// What a line of a hosts file says: the address as it is written, and the
/// name with its final dot.
#[derive(Debug, PartialEq, Eq)]
pub struct HostLine {
    pub ip: String,
    pub name: String,
}

/// `HostLine` as a mathematical value.
pub ghost struct HostLineView {
    pub ip: Seq<char>,
    pub name: Seq<char>,
}

impl View for HostLine {
    type V = HostLineView;

    open spec fn view(&self) -> HostLineView {
        HostLineView { ip: self.ip@, name: self.name@ }
    }
}

/// The views of a run of lines, in order.
pub open spec fn line_views(lines: Seq<HostLine>) -> Seq<HostLineView> {
    lines.map_values(|line: HostLine| line@)
}

/// The name as a fully qualified one: with a dot at its end, added if it is
/// not there.
pub open spec fn qualified(name: Seq<char>) -> Seq<char> {
    if name.len() > 0 && name.last() == '.' {
        name
    } else {
        name.push('.')
    }
}

/// What a line says. Tabs count as spaces and whitespace at either end is
/// dropped; an empty line, a comment and a line with fewer than two fields say
/// nothing. Otherwise the first field is the address and the second the name;
/// further fields are ignored.
pub open spec fn line_fields(line: Seq<char>) -> Option<HostLineView> {
    let text = trimmed(untabbed(line));
    if text.len() == 0 || text[0] == '#' {
        None
    } else if fields(text).len() < 2 {
        None
    } else {
        Some(HostLineView { ip: fields(text)[0], name: qualified(fields(text)[1]) })
    }
}

/// `line_fields` as a function value.
pub open spec fn reading() -> spec_fn(Seq<char>) -> Option<HostLineView> {
    |line: Seq<char>| line_fields(line)
}

/// What a hosts file says: what each of its lines says, in order, the lines
/// being what lies between its newlines.
pub open spec fn host_lines(content: Seq<char>) -> Seq<HostLineView> {
    pieces(content, '\n').filter_map(reading())
}

/// Holds of a text that can stand as one field of a line: it is not empty
/// and holds no whitespace, so neither a space nor a tab.
pub open spec fn is_word(text: Seq<char>) -> bool {
    text.len() > 0 && forall|i: int| 0 <= i < text.len() ==> !white_space(#[trigger] text[i])
}

/// A line made of an address, one space or tab, and a name says exactly
/// that, the name with its final dot: unless the address starts with `#`,
/// which makes the line a comment.
pub proof fn lemma_plain_line(ip: Seq<char>, gap: char, name: Seq<char>)
    requires
        is_word(ip),
        is_word(name),
        gap == ' ' || gap == '\t',
    ensures
        line_fields(ip + seq![gap] + name) == if ip[0] == '#' {
            None
        } else {
            Some(HostLineView { ip, name: qualified(name) })
        },
{
    let line = ip + seq![gap] + name;
    let text = ip + seq![' '] + name;
    assert(untabbed(line) =~= text) by {
        assert forall|i: int| 0 <= i < line.len() implies untabbed(line)[i] == text[i] by {
            if i < ip.len() {
                assert(line[i] == ip[i]);
            } else if i > ip.len() {
                assert(line[i] == name[i - ip.len() - 1]);
            }
        }
    }
    assert(text[0] == ip[0]);
    assert(text[text.len() - 1] == name[name.len() - 1]);
    lemma_trimmed_core(text, 0, text.len() as int);
    assert(text.subrange(0, text.len() as int) =~= text);
    assert(!ip.contains(' '));
    assert(!name.contains(' '));
    lemma_fields_joined(ip, name);
    lemma_fields_word(ip);
    lemma_fields_word(name);
    assert(fields(text) =~= seq![ip, name]);
}

/// A line of whitespace alone, the empty line among them, says nothing.
pub proof fn lemma_blank_line(line: Seq<char>)
    requires
        forall|i: int| 0 <= i < line.len() ==> white_space(#[trigger] line[i]),
    ensures
        line_fields(line) is None,
{
    lemma_trimmed_blank(untabbed(line));
}

/// A line whose first character that is no whitespace is `#` says nothing.
pub proof fn lemma_comment_line(line: Seq<char>, at: int)
    requires
        0 <= at < line.len(),
        forall|i: int| 0 <= i < at ==> white_space(#[trigger] line[i]),
        line[at] == '#',
    ensures
        line_fields(line) is None,
{
    let text = untabbed(line);
    let flags = blanks(text);
    assert(leading(flags) == at) by {
        lemma_leading_known(flags, at);
    }
    if leading(flags) + trailing(flags) <= flags.len() {
        assert(trimmed(text).len() == 0 || trimmed(text)[0] == text[at]);
    } else {
        assert(trimmed(text) =~= Seq::<char>::empty());
    }
}

/// What two runs of lines say is what the first says followed by what the
/// second says.
proof fn lemma_reading_joined(first: Seq<Seq<char>>, second: Seq<Seq<char>>)
    ensures
        (first + second).filter_map(reading()) == first.filter_map(reading()) + second.filter_map(
            reading(),
        ),
    decreases second.len(),
{
    if second.len() == 0 {
        assert(first + second =~= first);
    } else {
        lemma_reading_joined(first, second.drop_last());
        assert((first + second).drop_last() =~= first + second.drop_last());
    }
}

/// A file of one line, without any newline, says what that line says.
pub proof fn lemma_single_line(line: Seq<char>)
    requires
        !line.contains('\n'),
    ensures
        host_lines(line) == match line_fields(line) {
            Some(said) => seq![said],
            None => Seq::<HostLineView>::empty(),
        },
{
    lemma_pieces_whole(line, '\n');
    lemma_filter_map_step(Seq::<Seq<char>>::empty(), line);
    assert(Seq::<Seq<char>>::empty().push(line) =~= seq![line]);
}

/// A file says what its part before a newline says, followed by what its
/// part after that newline says.
pub proof fn lemma_lines_joined(first: Seq<char>, rest: Seq<char>)
    ensures
        host_lines(first + seq!['\n'] + rest) == host_lines(first) + host_lines(rest),
{
    lemma_pieces_joined(first, rest, '\n');
    lemma_reading_joined(pieces(first, '\n'), pieces(rest, '\n'));
}

/// One more line adds what it says, if it says anything.
proof fn lemma_filter_map_step(lines: Seq<Seq<char>>, line: Seq<char>)
    ensures
        lines.push(line).filter_map(reading()) == match line_fields(line) {
            Some(said) => lines.filter_map(reading()).push(said),
            None => lines.filter_map(reading()),
        },
{
    assert(lines.push(line).drop_last() =~= lines);
    match line_fields(line) {
        Some(said) => {
            assert(lines.filter_map(reading()) + seq![said] =~= lines.filter_map(reading()).push(
                said,
            ));
        },
        None => {},
    }
}

/// Adds the final dot to a name that lacks it.
pub fn qualify(name: &[char]) -> (full: String)
    ensures
        full@ == qualified(name@),
{
    let mut full = text_of(name);
    if name.len() == 0 || name[name.len() - 1] != '.' {
        full.push('.');
    }
    full
}

/// The entry that a line gives once its address has been read: the line's
/// name with that address, or none where the text was no address.
pub fn entry_of(line: HostLine, address: Option<IpAddress>) -> (entry: Option<DomainEntry>)
    ensures
        match address {
            Some(ip) => entry matches Some(made) && made@ == (DomainEntryView {
                name: line.name@,
                ip,
            }),
            None => entry is None,
        },
{
    match address {
        Some(ip) => Some(DomainEntry { name: line.name, ip }),
        None => None,
    }
}

/// Reads one line, given as characters.
fn parse_chars(line: &[char]) -> (said: Option<HostLine>)
    ensures
        match said {
            Some(host) => line_fields(line@) == Some(host@),
            None => line_fields(line@) is None,
        },
{
    let plain = untab(line);
    let text = trim(plain.as_slice());
    if text.len() == 0 || text[0] == '#' {
        return None;
    }
    let found = fields_of(text.as_slice());
    if found.len() < 2 {
        return None;
    }
    Some(HostLine { ip: text_of(found[0].as_slice()), name: qualify(found[1].as_slice()) })
}

/// Reads one line of a hosts file.
pub fn parse_line(line: &str) -> (said: Option<HostLine>)
    ensures
        match said {
            Some(host) => line_fields(line@) == Some(host@),
            None => line_fields(line@) is None,
        },
{
    let chars = chars_of(line);
    parse_chars(chars.as_slice())
}

/// Reads a whole hosts file: every line that says something, in the order of
/// the file.
pub fn load_host_list(content: &str) -> (said: Vec<HostLine>)
    ensures
        line_views(said@) == host_lines(content@),
{
    let chars = chars_of(content);
    let lines = split_on(chars.as_slice(), '\n');
    let ghost all = rows(lines@);
    let mut said: Vec<HostLine> = Vec::new();
    let mut i: usize = 0;
    while i < lines.len()
        invariant
            i <= lines.len(),
            all == rows(lines@),
            line_views(said@) == all.take(i as int).filter_map(reading()),
        decreases lines.len() - i,
    {
        proof {
            lemma_filter_map_step(all.take(i as int), all[i as int]);
            assert(all.take(i + 1) =~= all.take(i as int).push(all[i as int]));
        }
        if let Some(host) = parse_chars(lines[i].as_slice()) {
            said.push(host);
        }
        i += 1;
    }
    proof {
        assert(all.take(i as int) =~= all);
    }
    said
}

} // verus!
