//! Text as a run of characters: the few operations on lines that the hosts
//! parser is made of.

use vstd::prelude::*;

verus! {

/// Whether Unicode gives the character the property `White_Space`: the
/// controls from tab to carriage return, the space, next line, the no-break
/// space, the Ogham space mark, the spaces from en quad to hair space, the
/// line and paragraph separators, the narrow no-break space, the medium
/// mathematical space and the ideographic space.
pub open spec fn white_space(c: char) -> bool {
    let code = c as u32;
    ||| 0x0009 <= code <= 0x000D
    ||| code == 0x0020
    ||| code == 0x0085
    ||| code == 0x00A0
    ||| code == 0x1680
    ||| 0x2000 <= code <= 0x200A
    ||| code == 0x2028
    ||| code == 0x2029
    ||| code == 0x202F
    ||| code == 0x205F
    ||| code == 0x3000
}

/// `char::is_whitespace` of std holds exactly of the characters with the
/// Unicode property `White_Space`.
pub assume_specification[ char::is_whitespace ](c: char) -> (yes: bool)
    ensures
        yes == white_space(c),
;

/// `String::push` of std appends the character to the end of the string.
pub assume_specification[ String::push ](text: &mut String, c: char)
    ensures
        final(text)@ == old(text)@.push(c),
;

/// The characters of a text, in order.
pub fn chars_of(text: &str) -> (chars: Vec<char>)
    ensures
        chars@ == text@,
{
    let mut chars: Vec<char> = Vec::new();
    for c in it: text.chars()
        invariant
            it.seq() == text@,
            chars@ == it.seq().take(it.index() as int),
    {
        chars.push(c);
    }
    chars
}

/// The text made of the given characters.
pub fn text_of(chars: &[char]) -> (text: String)
    ensures
        text@ == chars@,
{
    let mut text = String::new();
    let mut i: usize = 0;
    while i < chars.len()
        invariant
            i <= chars.len(),
            text@ == chars@.take(i as int),
        decreases chars.len() - i,
    {
        text.push(chars[i]);
        i += 1;
    }
    text
}

/// The text with every tab turned into a space.
pub open spec fn untabbed(text: Seq<char>) -> Seq<char> {
    text.map_values(
        |c: char|
            if c == '\t' {
                ' '
            } else {
                c
            },
    )
}

/// For each character of the text, whether it is whitespace.
pub open spec fn blanks(text: Seq<char>) -> Seq<bool> {
    text.map_values(|c: char| white_space(c))
}

/// How many flags are set at the start, before the first that is not.
pub open spec fn leading(flags: Seq<bool>) -> nat
    decreases flags.len(),
{
    if flags.len() > 0 && flags.first() {
        1 + leading(flags.drop_first())
    } else {
        0
    }
}

/// How many flags are set at the end, after the last that is not.
pub open spec fn trailing(flags: Seq<bool>) -> nat
    decreases flags.len(),
{
    if flags.len() > 0 && flags.last() {
        1 + trailing(flags.drop_last())
    } else {
        0
    }
}

/// The positions that are left when the set flags are taken off both ends:
/// from the first flag that is not set up to and without what follows the
/// last one. Where every flag is set the range is empty and lies at the end.
pub open spec fn inner_range(flags: Seq<bool>) -> (int, int) {
    if leading(flags) + trailing(flags) <= flags.len() {
        (leading(flags) as int, flags.len() - trailing(flags))
    } else {
        (flags.len() as int, flags.len() as int)
    }
}

/// The text without the whitespace at either end.
pub open spec fn trimmed(text: Seq<char>) -> Seq<char> {
    text.subrange(inner_range(blanks(text)).0, inner_range(blanks(text)).1)
}

/// The pieces that the separator cuts the text into, empty ones included:
/// one more than there are separators.
pub open spec fn pieces(text: Seq<char>, sep: char) -> Seq<Seq<char>>
    decreases text.len(),
{
    if text.len() == 0 {
        seq![Seq::empty()]
    } else {
        let before = pieces(text.drop_last(), sep);
        if text.last() == sep {
            before.push(Seq::empty())
        } else {
            before.drop_last().push(before.last().push(text.last()))
        }
    }
}

/// Holds of the pieces that are not empty.
pub open spec fn is_filled() -> spec_fn(Seq<char>) -> bool {
    |piece: Seq<char>| piece.len() > 0
}

/// The runs of characters between the spaces of the text, in order.
pub open spec fn fields(text: Seq<char>) -> Seq<Seq<char>> {
    pieces(text, ' ').filter(is_filled())
}

/// The views of a run of character vectors, in order.
pub open spec fn rows(lines: Seq<Vec<char>>) -> Seq<Seq<char>> {
    lines.map_values(|line: Vec<char>| line@)
}

/// A run of set flags at the start that ends at `from` is the whole of it.
pub(crate) proof fn lemma_leading_known(flags: Seq<bool>, from: int)
    requires
        0 <= from <= flags.len(),
        forall|i: int| 0 <= i < from ==> #[trigger] flags[i],
        from < flags.len() ==> !flags[from],
    ensures
        leading(flags) == from,
    decreases from,
{
    if from > 0 {
        let rest = flags.drop_first();
        assert forall|i: int| 0 <= i < from - 1 implies #[trigger] rest[i] by {
            assert(rest[i] == flags[i + 1]);
        }
        lemma_leading_known(rest, from - 1);
    }
}

/// A run of set flags at the end that starts at `to` is the whole of it.
proof fn lemma_trailing_known(flags: Seq<bool>, to: int)
    requires
        0 <= to <= flags.len(),
        forall|i: int| to <= i < flags.len() ==> #[trigger] flags[i],
        0 < to ==> !flags[to - 1],
    ensures
        trailing(flags) == flags.len() - to,
    decreases flags.len() - to,
{
    if to < flags.len() {
        lemma_trailing_known(flags.drop_last(), to);
    }
}

/// A text without tabs is left as it is.
pub proof fn lemma_untabbed_plain(text: Seq<char>)
    requires
        !text.contains('\t'),
    ensures
        untabbed(text) == text,
{
    assert forall|i: int| 0 <= i < text.len() implies text[i] != '\t' by {
        assert(text.contains(text[i]));
    }
    assert(untabbed(text) =~= text);
}

/// Trimming leaves what lies between the first and the last character that
/// is no whitespace, both included.
pub proof fn lemma_trimmed_core(text: Seq<char>, from: int, to: int)
    requires
        0 <= from < to <= text.len(),
        forall|i: int| 0 <= i < from ==> white_space(#[trigger] text[i]),
        forall|i: int| to <= i < text.len() ==> white_space(#[trigger] text[i]),
        !white_space(text[from]),
        !white_space(text[to - 1]),
    ensures
        trimmed(text) == text.subrange(from, to),
{
    let flags = blanks(text);
    lemma_leading_known(flags, from);
    lemma_trailing_known(flags, to);
}

/// Trimming a text that is all whitespace leaves nothing.
pub proof fn lemma_trimmed_blank(text: Seq<char>)
    requires
        forall|i: int| 0 <= i < text.len() ==> white_space(#[trigger] text[i]),
    ensures
        trimmed(text) == Seq::<char>::empty(),
{
    let flags = blanks(text);
    lemma_leading_known(flags, flags.len() as int);
    lemma_trailing_known(flags, 0);
    assert(trimmed(text) =~= Seq::<char>::empty());
}

/// A text without the separator is one piece.
pub proof fn lemma_pieces_whole(text: Seq<char>, sep: char)
    requires
        !text.contains(sep),
    ensures
        pieces(text, sep) == seq![text],
    decreases text.len(),
{
    if text.len() > 0 {
        let front = text.drop_last();
        assert forall|i: int| 0 <= i < front.len() implies front[i] != sep by {
            assert(text.contains(text[i]));
        }
        assert(!front.contains(sep));
        assert(text.contains(text.last()));
        lemma_pieces_whole(front, sep);
        lemma_pieces_step(front, text.last(), sep);
        assert(front.push(text.last()) =~= text);
        assert(seq![front].drop_last().push(seq![front].last().push(text.last())) =~= seq![text]);
    } else {
        assert(text =~= Seq::<char>::empty());
    }
}

/// The pieces of two texts joined by a separator are the pieces of the first
/// followed by the pieces of the second.
pub proof fn lemma_pieces_joined(left: Seq<char>, right: Seq<char>, sep: char)
    ensures
        pieces(left + seq![sep] + right, sep) == pieces(left, sep) + pieces(right, sep),
    decreases right.len(),
{
    let whole = left + seq![sep] + right;
    if right.len() == 0 {
        assert(whole =~= left.push(sep));
        lemma_pieces_step(left, sep, sep);
        assert(pieces(right, sep) =~= seq![Seq::<char>::empty()]);
        assert(pieces(whole, sep) =~= pieces(left, sep) + pieces(right, sep));
    } else {
        let front = right.drop_last();
        let c = right.last();
        lemma_pieces_joined(left, front, sep);
        lemma_pieces_step(front, c, sep);
        lemma_pieces_step(left + seq![sep] + front, c, sep);
        assert(front.push(c) =~= right);
        assert((left + seq![sep] + front).push(c) =~= whole);
        assert(pieces(whole, sep) =~= pieces(left, sep) + pieces(right, sep));
    }
}

/// An empty text has no field.
pub proof fn lemma_fields_empty()
    ensures
        fields(Seq::<char>::empty()) == Seq::<Seq<char>>::empty(),
{
    reveal_with_fuel(Seq::filter, 2);
    assert(seq![Seq::<char>::empty()].drop_last() =~= Seq::<Seq<char>>::empty());
    assert(fields(Seq::<char>::empty()) =~= Seq::<Seq<char>>::empty());
}

/// A text without spaces that is not empty is its own single field.
pub proof fn lemma_fields_word(word: Seq<char>)
    requires
        word.len() > 0,
        !word.contains(' '),
    ensures
        fields(word) == seq![word],
{
    lemma_pieces_whole(word, ' ');
    reveal_with_fuel(Seq::filter, 2);
    assert(seq![word].drop_last() =~= Seq::<Seq<char>>::empty());
    assert(fields(word) =~= seq![word]);
}

/// The fields of two texts joined by a space are the fields of the first
/// followed by the fields of the second.
pub proof fn lemma_fields_joined(left: Seq<char>, right: Seq<char>)
    ensures
        fields(left + seq![' '] + right) == fields(left) + fields(right),
{
    lemma_pieces_joined(left, right, ' ');
    Seq::filter_distributes_over_add(pieces(left, ' '), pieces(right, ' '), is_filled());
}

/// One more character either opens a new piece or grows the last one.
proof fn lemma_pieces_step(text: Seq<char>, c: char, sep: char)
    ensures
        pieces(text, sep).len() > 0,
        pieces(text.push(c), sep) == if c == sep {
            pieces(text, sep).push(Seq::empty())
        } else {
            pieces(text, sep).drop_last().push(pieces(text, sep).last().push(c))
        },
    decreases text.len(),
{
    if text.len() > 0 {
        lemma_pieces_step(text.drop_last(), text.last(), sep);
    }
    assert(text.push(c).drop_last() =~= text);
}

/// Turns every tab of the text into a space.
pub fn untab(text: &[char]) -> (plain: Vec<char>)
    ensures
        plain@ == untabbed(text@),
{
    let mut plain: Vec<char> = Vec::new();
    let mut i: usize = 0;
    while i < text.len()
        invariant
            i <= text.len(),
            plain@ == untabbed(text@.take(i as int)),
        decreases text.len() - i,
    {
        let c = text[i];
        plain.push(if c == '\t' { ' ' } else { c });
        assert(untabbed(text@.take(i + 1)) =~= untabbed(text@.take(i as int)).push(
            if c == '\t' { ' ' } else { c },
        ));
        i += 1;
    }
    plain
}

/// Finds the positions that are left when the set flags are taken off both
/// ends.
pub fn inner_range_of(flags: &[bool]) -> (range: (usize, usize))
    ensures
        range.0 <= range.1 <= flags.len(),
        (range.0 as int, range.1 as int) == inner_range(flags@),
{
    let mut from: usize = 0;
    while from < flags.len() && flags[from]
        invariant
            from <= flags.len(),
            forall|i: int| 0 <= i < from ==> #[trigger] flags[i],
        decreases flags.len() - from,
    {
        from += 1;
    }
    let mut to: usize = flags.len();
    while to > from && flags[to - 1]
        invariant
            from <= to <= flags.len(),
            forall|i: int| to <= i < flags.len() ==> #[trigger] flags[i],
        decreases to,
    {
        to -= 1;
    }
    proof {
        lemma_leading_known(flags@, from as int);
        if to > from {
            lemma_trailing_known(flags@, to as int);
        } else {
            lemma_trailing_known(flags@, 0);
        }
    }
    (from, to)
}

/// Says of each character of the text whether it is whitespace.
pub fn blanks_of(text: &[char]) -> (flags: Vec<bool>)
    ensures
        flags@ == blanks(text@),
{
    let mut flags: Vec<bool> = Vec::new();
    let mut i: usize = 0;
    while i < text.len()
        invariant
            i <= text.len(),
            flags@ == blanks(text@.take(i as int)),
        decreases text.len() - i,
    {
        flags.push(text[i].is_whitespace());
        assert(blanks(text@.take(i + 1)) =~= blanks(text@.take(i as int)).push(
            white_space(text[i as int]),
        ));
        i += 1;
    }
    assert(text@.take(i as int) =~= text@);
    flags
}

/// Takes the whitespace off both ends of the text.
pub fn trim(text: &[char]) -> (inner: Vec<char>)
    ensures
        inner@ == trimmed(text@),
{
    let flags = blanks_of(text);
    let (from, to) = inner_range_of(flags.as_slice());
    let mut inner: Vec<char> = Vec::new();
    let mut i: usize = from;
    while i < to
        invariant
            from <= i <= to <= text.len(),
            inner@ == text@.subrange(from as int, i as int),
        decreases to - i,
    {
        inner.push(text[i]);
        i += 1;
    }
    inner
}

/// Cuts the text at every separator.
pub fn split_on(text: &[char], sep: char) -> (cut: Vec<Vec<char>>)
    ensures
        rows(cut@) == pieces(text@, sep),
{
    let mut done: Vec<Vec<char>> = Vec::new();
    let mut current: Vec<char> = Vec::new();
    let mut i: usize = 0;
    while i < text.len()
        invariant
            i <= text.len(),
            pieces(text@.take(i as int), sep).len() > 0,
            rows(done@) == pieces(text@.take(i as int), sep).drop_last(),
            current@ == pieces(text@.take(i as int), sep).last(),
        decreases text.len() - i,
    {
        let c = text[i];
        let ghost so_far = pieces(text@.take(i as int), sep);
        proof {
            lemma_pieces_step(text@.take(i as int), c, sep);
            lemma_pieces_step(text@.take(i + 1), c, sep);
            assert(text@.take(i + 1) =~= text@.take(i as int).push(c));
        }
        if c == sep {
            done.push(current);
            current = Vec::new();
            assert(so_far.drop_last().push(so_far.last()) =~= so_far);
        } else {
            current.push(c);
        }
        i += 1;
    }
    let ghost all = pieces(text@, sep);
    proof {
        assert(text@.take(i as int) =~= text@);
    }
    done.push(current);
    assert(all.drop_last().push(all.last()) =~= all);
    done
}

/// The runs of characters between the spaces of the text, in order.
pub fn fields_of(text: &[char]) -> (found: Vec<Vec<char>>)
    ensures
        rows(found@) == fields(text@),
{
    let cut = split_on(text, ' ');
    let ghost all = rows(cut@);
    let mut found: Vec<Vec<char>> = Vec::new();
    let mut i: usize = 0;
    proof {
        reveal(Seq::filter);
    }
    while i < cut.len()
        invariant
            i <= cut.len(),
            all == rows(cut@),
            rows(found@) == all.take(i as int).filter(is_filled()),
        decreases cut.len() - i,
    {
        proof {
            all.take(i as int).lemma_filter_push(all[i as int], is_filled());
            assert(all.take(i + 1) =~= all.take(i as int).push(all[i as int]));
        }
        if cut[i].len() > 0 {
            found.push(cut[i].clone());
        }
        i += 1;
    }
    proof {
        assert(all.take(i as int) =~= all);
    }
    found
}

} // verus!
