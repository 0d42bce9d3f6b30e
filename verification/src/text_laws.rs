//! What holds of plain text: which characters count as what, and how texts are
//! searched, cut into lines, trimmed and shown.

use vstd::prelude::*;

use crate::text;

verus! {

/// No printable ASCII character is a control and, but for the space, none is white
/// space; every other ASCII character is a control. Beyond ASCII exactly the 32
/// characters from U+0080 on are controls.
pub proof fn law_printable_characters_are_no_controls(c: char)
    ensures
        ' ' <= c <= '~' ==> !text::control(c),
        ' ' < c <= '~' ==> !text::white_space(c),
        c < ' ' || c == '\u{7f}' ==> text::control(c),
        '\u{80}' <= c <= '\u{9f}' ==> text::control(c),
        '\u{9f}' < c ==> !text::control(c),
{
}

/// Blanks, tabs and line ends are white space, and so are the Unicode spaces and
/// separators; no letter, digit or mark of another script is.
pub proof fn law_white_space_separates(c: char)
    ensures
        c == ' ' || c == '\t' || c == '\n' || c == '\r' ==> text::white_space(c),
        text::white_space(c) && c <= '~' ==> c == ' ' || '\t' <= c <= '\r',
        '\t' <= c <= '\r' || c == '\u{85}' || c == '\u{a0}' || c == '\u{1680}' || '\u{2000}' <= c
            <= '\u{200a}' || c == '\u{2028}' || c == '\u{2029}' || c == '\u{202f}' || c
            == '\u{205f}' || c == '\u{3000}' ==> text::white_space(c),
        text::white_space(c) ==> c <= ' ' || c == '\u{85}' || c == '\u{a0}' || c == '\u{1680}'
            || '\u{2000}' <= c <= '\u{200a}' || c == '\u{2028}' || c == '\u{2029}' || c
            == '\u{202f}' || c == '\u{205f}' || c == '\u{3000}',
{
}

/// Folding a text changes its capital letters alone, each to the small letter at
/// the same place of the alphabet, and folding it again changes nothing.
pub proof fn law_folding_changes_capitals_alone(s: Seq<char>)
    ensures
        text::lowercase(s).len() == s.len(),
        forall|i: int|
            0 <= i < s.len() ==> {
                let small = #[trigger] text::lowercase(s)[i];
                if 'A' <= s[i] <= 'Z' {
                    'a' <= small <= 'z' && small as int - 'a' as int == s[i] as int - 'A' as int
                } else {
                    small == s[i]
                }
            },
        text::lowercase(text::lowercase(s)) == text::lowercase(s),
{
    assert(text::lowercase(text::lowercase(s)) =~= text::lowercase(s));
}

/// A text mentions another exactly when it is made of something, the other, and
/// something more.
pub proof fn law_a_mention_is_a_part(whole: Seq<char>, part: Seq<char>)
    ensures
        text::mentions(whole, part) <==> exists|before: Seq<char>, behind: Seq<char>|
            whole == #[trigger] (before + part + behind),
{
    if text::mentions(whole, part) {
        let i = choose|i: int| #[trigger] text::occurs_at(whole, part, i);
        let before = whole.take(i);
        let behind = whole.skip(i + part.len());
        assert(whole =~= before + whole.subrange(i, i + part.len()) + behind);
        assert(whole == before + part + behind);
    }
    if exists|before: Seq<char>, behind: Seq<char>| whole == #[trigger] (before + part + behind) {
        let (before, behind): (Seq<char>, Seq<char>) = choose|
            before: Seq<char>,
            behind: Seq<char>,
        | whole == #[trigger] (before + part + behind);
        let i = before.len() as int;
        assert(whole.subrange(i, i + part.len()) =~= part);
        assert(text::occurs_at(whole, part, i));
    }
}

/// What a text mentions, every text that holds it mentions too.
pub proof fn law_a_longer_text_mentions_no_less(
    before: Seq<char>,
    whole: Seq<char>,
    behind: Seq<char>,
    part: Seq<char>,
)
    requires
        text::mentions(whole, part),
    ensures
        text::mentions(before + whole + behind, part),
{
    let i = choose|i: int| #[trigger] text::occurs_at(whole, part, i);
    let longer = before + whole + behind;
    let at = before.len() + i;
    assert(longer.subrange(at, at + part.len()) =~= whole.subrange(i, i + part.len()));
    assert(text::occurs_at(longer, part, at));
}

/// A text goes on from another exactly when something follows the other in it.
pub proof fn law_a_text_goes_on_from_its_beginning(whole: Seq<char>, beginning: Seq<char>)
    ensures
        text::goes_on_from(whole, beginning) <==> exists|rest: Seq<char>|
            rest.len() > 0 && whole == #[trigger] (beginning + rest),
        forall|c: char| #[trigger]
            text::begins_with(whole, c) <==> exists|rest: Seq<char>| whole == #[trigger] (seq![c]
                + rest),
{
    if text::goes_on_from(whole, beginning) {
        let rest = whole.skip(beginning.len() as int);
        assert(whole =~= whole.subrange(0, beginning.len() as int) + rest);
        assert(whole == beginning + rest && rest.len() > 0);
    }
    if exists|rest: Seq<char>| rest.len() > 0 && whole == #[trigger] (beginning + rest) {
        let rest = choose|rest: Seq<char>| rest.len() > 0 && whole == #[trigger] (beginning + rest);
        assert(whole.subrange(0, beginning.len() as int) =~= beginning);
    }
    assert forall|c: char| #[trigger] text::begins_with(whole, c) <==> exists|rest: Seq<char>|
        whole == #[trigger] (seq![c] + rest) by {
        if text::begins_with(whole, c) {
            assert(whole =~= seq![c] + whole.skip(1));
        }
    }
}

/// Every line feed ends a line, and a carriage return before it is no part of the
/// line; a text without any is one line as it stands.
pub proof fn law_a_line_ends_at_its_line_feed(line: Seq<char>, rest: Seq<char>)
    requires
        forall|i: int| 0 <= i < line.len() ==> line[i] != '\n',
    ensures
        text::lines_of(line) == (if line.len() == 0 {
            seq![]
        } else {
            seq![line]
        }),
        line.len() == 0 || line.last() != '\r' ==> text::lines_of(line + seq!['\n'] + rest) == seq![
            line,
        ] + text::lines_of(rest),
        text::lines_of(line + seq!['\r', '\n'] + rest) == seq![line] + text::lines_of(rest),
{
    assert(!line.contains('\n'));
    lemma_first_line(line, rest);
    let returned = line.push('\r');
    assert forall|i: int| 0 <= i < returned.len() implies returned[i] != '\n' by {
        if i < line.len() {
            assert(returned[i] == line[i]);
        }
    }
    lemma_first_line(returned, rest);
    assert(line + seq!['\r', '\n'] + rest =~= returned + seq!['\n'] + rest);
    assert(returned.drop_last() =~= line);
}

proof fn lemma_first_line(line: Seq<char>, rest: Seq<char>)
    requires
        forall|i: int| 0 <= i < line.len() ==> line[i] != '\n',
    ensures
        text::lines_of(line + seq!['\n'] + rest) == seq![text::without_return(line)]
            + text::lines_of(rest),
{
    let whole = line + seq!['\n'] + rest;
    let end = line.len() as int;
    assert(whole[end] == '\n');
    assert(whole.contains('\n'));
    assert forall|i: int| 0 <= i < end implies whole[i] != '\n' by {
        assert(whole[i] == line[i]);
    }
    whole.index_of_first_ensures('\n');
    assert(text::first_line_end(whole) == end);
    assert(whole.take(end) =~= line);
    assert(whole.skip(end + 1) =~= rest);
}

/// Where a text is cut after a line feed, its lines are those of the two parts.
pub proof fn law_lines_add_up(first: Seq<char>, second: Seq<char>)
    requires
        first.len() == 0 || first.last() == '\n',
    ensures
        text::lines_of(first + second) == text::lines_of(first) + text::lines_of(second),
    decreases first.len(),
{
    if first.len() == 0 {
        assert(first + second =~= second);
        assert(text::lines_of(first) + text::lines_of(second) =~= text::lines_of(second));
    } else {
        assert(first[first.len() - 1] == '\n');
        assert(first.contains('\n'));
        first.index_of_first_ensures('\n');
        let end = text::first_line_end(first);
        let line = first.take(end);
        let rest = first.skip(end + 1);
        assert(first =~= line + seq!['\n'] + rest);
        assert forall|i: int| 0 <= i < line.len() implies line[i] != '\n' by {
            assert(line[i] == first[i]);
        }
        lemma_first_line(line, rest);
        lemma_first_line(line, rest + second);
        assert(first + second =~= line + seq!['\n'] + (rest + second));
        if rest.len() > 0 {
            assert(rest.last() == first.last());
        }
        law_lines_add_up(rest, second);
        assert(seq![text::without_return(line)] + (text::lines_of(rest) + text::lines_of(second))
            =~= (seq![text::without_return(line)] + text::lines_of(rest)) + text::lines_of(second));
    }
}

/// Trimming takes white space away at both ends and nothing else: what is left
/// neither begins nor ends with any.
pub proof fn law_trimming_takes_white_space_away(s: Seq<char>)
    ensures
        exists|from: int, to: int|
            0 <= from <= to <= s.len() && text::trimmed(s) == #[trigger] s.subrange(from, to)
                && forall|i: int|
                0 <= i < s.len() && !(from <= i < to) ==> text::white_space(#[trigger] s[i]),
        text::trimmed(s).len() > 0 ==> !text::white_space(text::trimmed(s)[0])
            && !text::white_space(text::trimmed(s).last()),
        text::trimmed(s).len() == 0 <==> forall|i: int|
            0 <= i < s.len() ==> text::white_space(#[trigger] s[i]),
{
    let from = lemma_trim_start(s);
    let front = text::trim_start(s);
    let to = lemma_trim_end(front);
    assert(front.take(to) =~= s.subrange(from, from + to));
    assert(text::trimmed(s) == s.subrange(from, from + to));
    assert forall|i: int| 0 <= i < s.len() && !(from <= i < from + to) implies text::white_space(
        #[trigger] s[i],
    ) by {
        if i >= from + to {
            assert(front[i - from] == s[i]);
        }
    }
    if to > 0 {
        assert(text::trimmed(s)[0] == front[0]);
        assert(text::trimmed(s)[0] == s[from]);
    }
}

proof fn lemma_trim_start(s: Seq<char>) -> (from: int)
    ensures
        0 <= from <= s.len(),
        text::trim_start(s) == s.skip(from),
        forall|i: int| 0 <= i < from ==> text::white_space(#[trigger] s[i]),
        from < s.len() ==> !text::white_space(s[from]),
    decreases s.len(),
{
    if s.len() > 0 && text::white_space(s[0]) {
        let rest = s.skip(1);
        let from = lemma_trim_start(rest);
        assert(rest.skip(from) =~= s.skip(from + 1));
        assert forall|i: int| 0 <= i < from + 1 implies text::white_space(#[trigger] s[i]) by {
            if i > 0 {
                assert(rest[i - 1] == s[i]);
            }
        }
        if from < rest.len() {
            assert(rest[from] == s[from + 1]);
        }
        from + 1
    } else {
        assert(s.skip(0) =~= s);
        0
    }
}

proof fn lemma_trim_end(s: Seq<char>) -> (to: int)
    ensures
        0 <= to <= s.len(),
        text::trim_end(s) == s.take(to),
        forall|i: int| to <= i < s.len() ==> text::white_space(#[trigger] s[i]),
        to > 0 ==> !text::white_space(s[to - 1]),
    decreases s.len(),
{
    if s.len() > 0 && text::white_space(s.last()) {
        let rest = s.drop_last();
        let to = lemma_trim_end(rest);
        assert(rest.take(to) =~= s.take(to));
        assert forall|i: int| to <= i < s.len() implies text::white_space(#[trigger] s[i]) by {
            if i < rest.len() {
                assert(rest[i] == s[i]);
            }
        }
        to
    } else {
        assert(s.take(s.len() as int) =~= s);
        s.len() as int
    }
}

/// Of a text exactly the controls are left out: a single character is kept unless
/// it is one, and what is kept of two parts is what is kept of each, in order.
pub proof fn law_only_controls_are_left_out(a: Seq<char>, b: Seq<char>, c: char)
    ensures
        text::printable(seq![c]) == (if c < ' ' || '\u{7f}' <= c <= '\u{9f}' {
            seq![]
        } else {
            seq![c]
        }),
        text::printable(a + b) == text::printable(a) + text::printable(b),
        text::holds_control(seq![c]) <==> c < ' ' || '\u{7f}' <= c <= '\u{9f}',
        text::holds_control(a + b) <==> text::holds_control(a) || text::holds_control(b),
        !text::holds_control(a) ==> text::printable(a) == a,
{
    reveal(Seq::filter);
    let keep = |c: char| !text::control(c);
    assert(seq![c].drop_last() =~= seq![]);
    assert(Seq::<char>::empty().filter(keep) =~= seq![]);
    assert(text::printable(seq![c]) =~= (if text::control(c) {
        seq![]
    } else {
        seq![c]
    }));
    Seq::filter_distributes_over_add(a, b, keep);
    if text::control(c) {
        assert(text::control(seq![c][0]));
    }
    let whole = a + b;
    if text::holds_control(a) {
        let i = choose|i: int| 0 <= i < a.len() && text::control(#[trigger] a[i]);
        assert(text::control(whole[i]));
    }
    if text::holds_control(b) {
        let i = choose|i: int| 0 <= i < b.len() && text::control(#[trigger] b[i]);
        assert(text::control(whole[a.len() + i]));
    }
    if text::holds_control(whole) {
        let i = choose|i: int| 0 <= i < whole.len() && text::control(#[trigger] whole[i]);
        if i < a.len() {
            assert(text::control(a[i]));
        } else {
            assert(text::control(b[i - a.len()]));
        }
    }
    if !text::holds_control(a) {
        lemma_all_kept(a);
    }
}

proof fn lemma_all_kept(s: Seq<char>)
    requires
        !text::holds_control(s),
    ensures
        text::printable(s) == s,
    decreases s.len(),
{
    reveal(Seq::filter);
    if s.len() > 0 {
        let rest = s.drop_last();
        assert(!text::control(s[s.len() - 1]));
        assert forall|i: int| 0 <= i < rest.len() implies !text::control(#[trigger] rest[i]) by {
            assert(rest[i] == s[i]);
        }
        lemma_all_kept(rest);
        assert(rest.push(s.last()) =~= s);
    }
    assert(text::printable(s) =~= s);
}

/// The number that a text of digits stands for.
pub open spec fn value(digits: Seq<char>) -> int
    decreases digits.len(),
{
    if digits.len() == 0 {
        0
    } else {
        10 * value(digits.drop_last()) + (digits.last() as int - '0' as int)
    }
}

/// A number in print is made of digits alone, has no leading zero unless it is
/// zero, and stands for the number.
pub proof fn law_a_number_in_print_stands_for_itself(n: nat)
    ensures
        value(text::decimal(n)) == n,
        text::decimal(n).len() > 0,
        forall|i: int|
            0 <= i < text::decimal(n).len() ==> '0' <= #[trigger] text::decimal(n)[i] <= '9',
        text::decimal(n)[0] == '0' ==> n == 0,
    decreases n,
{
    reveal_with_fuel(value, 2);
    let print = text::decimal(n);
    if n >= 10 {
        law_a_number_in_print_stands_for_itself(n / 10);
        let before = text::decimal(n / 10);
        let digit = ((0x30 + n % 10) as u32) as char;
        assert(print == before.push(digit));
        assert(print.drop_last() =~= before);
        assert(print[0] == before[0]);
    } else {
        assert(print.drop_last() =~= seq![]);
    }
}

} // verus!
