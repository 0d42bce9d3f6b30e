//! Character classes, searching and splitting on plain text.

use vstd::prelude::*;

verus! {

/// `String::push`: the character is appended at the end.
pub assume_specification[ String::push ](s: &mut String, c: char)
    ensures
        final(s)@ == old(s)@.push(c),
;

// ---------------------------------------------------------------------------
// Character classes

/// The general category Cc: the C0 controls, DEL and the C1 controls.
pub open spec fn control(c: char) -> bool {
    c as u32 <= 0x1f || 0x7f <= c as u32 <= 0x9f
}

/// The Unicode property White_Space.
pub open spec fn white_space(c: char) -> bool {
    let n = c as u32;
    ||| 0x9 <= n <= 0xd
    ||| n == 0x20 || n == 0x85 || n == 0xa0 || n == 0x1680
    ||| 0x2000 <= n <= 0x200a
    ||| n == 0x2028 || n == 0x2029 || n == 0x202f || n == 0x205f || n == 0x3000
}

pub fn is_control(c: char) -> (r: bool)
    ensures
        r == control(c),
{
    let n: u32 = c as u32;
    n <= 0x1f || (0x7f <= n && n <= 0x9f)
}

pub fn is_whitespace(c: char) -> (r: bool)
    ensures
        r == white_space(c),
{
    let n: u32 = c as u32;
    (0x9 <= n && n <= 0xd) || n == 0x20 || n == 0x85 || n == 0xa0 || n == 0x1680 || (0x2000 <= n
        && n <= 0x200a) || n == 0x2028 || n == 0x2029 || n == 0x202f || n == 0x205f || n == 0x3000
}

/// An ASCII capital becomes its small letter; every other character stays.
pub open spec fn lower(c: char) -> char {
    if 'A' <= c <= 'Z' {
        ((c as u32) + 32) as char
    } else {
        c
    }
}

pub open spec fn lowercase(s: Seq<char>) -> Seq<char> {
    s.map_values(|c: char| lower(c))
}

fn lower_char(c: char) -> (r: char)
    ensures
        r == lower(c),
{
    if 'A' <= c && c <= 'Z' {
        let small: u8 = (c as u8) + 32;
        small as char
    } else {
        c
    }
}

// ---------------------------------------------------------------------------
// Between strings and vectors of characters

pub fn chars_of(s: &str) -> (r: Vec<char>)
    ensures
        r@ == s@,
{
    let mut out: Vec<char> = Vec::new();
    for c in it: s.chars()
        invariant
            it.seq() == s@,
            out@ == s@.take(it.index() as int),
    {
        proof {
            assert(s@.take(it.index() as int).push(c) =~= s@.take(it.index() + 1));
        }
        out.push(c);
    }
    proof {
        assert(s@.take(s@.len() as int) =~= s@);
    }
    out
}

pub fn string_of(chars: &[char]) -> (r: String)
    ensures
        r@ == chars@,
{
    let mut out = String::new();
    let mut i: usize = 0;
    while i < chars.len()
        invariant
            i <= chars.len(),
            out@ == chars@.take(i as int),
        decreases chars.len() - i,
    {
        proof {
            assert(chars@.take(i as int).push(chars@[i as int]) =~= chars@.take(i + 1));
        }
        out.push(chars[i]);
        i += 1;
    }
    proof {
        assert(chars@.take(chars@.len() as int) =~= chars@);
    }
    out
}

pub fn same_text(a: &str, b: &str) -> (r: bool)
    ensures
        r == (a@ == b@),
{
    let x = chars_of(a);
    let y = chars_of(b);
    same_chars(x.as_slice(), y.as_slice())
}

pub fn same_chars(a: &[char], b: &[char]) -> (r: bool)
    ensures
        r == (a@ == b@),
{
    if a.len() != b.len() {
        return false;
    }
    let mut i: usize = 0;
    while i < a.len()
        invariant
            a.len() == b.len(),
            i <= a.len(),
            forall|k: int| 0 <= k < i ==> a@[k] == b@[k],
        decreases a.len() - i,
    {
        if a[i] != b[i] {
            return false;
        }
        i += 1;
    }
    proof {
        assert(a@ =~= b@);
    }
    true
}

/// `str::to_ascii_lowercase` on characters.
pub fn to_lowercase(chars: &[char]) -> (r: Vec<char>)
    ensures
        r@ == lowercase(chars@),
{
    let mut out: Vec<char> = Vec::new();
    let mut i: usize = 0;
    while i < chars.len()
        invariant
            i <= chars.len(),
            out@ == lowercase(chars@.take(i as int)),
        decreases chars.len() - i,
    {
        out.push(lower_char(chars[i]));
        proof {
            assert(out@ =~= lowercase(chars@.take(i + 1)));
        }
        i += 1;
    }
    proof {
        assert(chars@.take(chars@.len() as int) =~= chars@);
    }
    out
}

// ---------------------------------------------------------------------------
// Searching

/// `pattern` stands in `text` at offset `i`.
pub open spec fn occurs_at(text: Seq<char>, pattern: Seq<char>, i: int) -> bool {
    0 <= i && i + pattern.len() <= text.len() && text.subrange(i, i + pattern.len()) == pattern
}

/// `pattern` stands somewhere in `text`.
pub open spec fn mentions(text: Seq<char>, pattern: Seq<char>) -> bool {
    exists|i: int| #[trigger] occurs_at(text, pattern, i)
}

fn matches_at(text: &[char], pattern: &[char], at: usize) -> (r: bool)
    requires
        at <= text.len(),
    ensures
        r == occurs_at(text@, pattern@, at as int),
{
    if text.len() - at < pattern.len() {
        return false;
    }
    let mut k: usize = 0;
    while k < pattern.len()
        invariant
            at + pattern.len() <= text.len(),
            k <= pattern.len(),
            forall|j: int| 0 <= j < k ==> text@[at + j] == pattern@[j],
        decreases pattern.len() - k,
    {
        if text[at + k] != pattern[k] {
            proof {
                assert(text@.subrange(at as int, at + pattern@.len())[k as int] != pattern@[k as int]);
            }
            return false;
        }
        k += 1;
    }
    proof {
        assert(text@.subrange(at as int, at + pattern@.len()) =~= pattern@);
    }
    true
}

/// The first offset at which `pattern` stands in `text`.
pub fn position_of(text: &[char], pattern: &str) -> (r: Option<usize>)
    ensures
        match r {
            Some(i) => occurs_at(text@, pattern@, i as int) && forall|j: int|
                0 <= j < i ==> !#[trigger] occurs_at(text@, pattern@, j),
            None => !mentions(text@, pattern@),
        },
{
    let wanted = chars_of(pattern);
    let mut i: usize = 0;
    loop
        invariant
            wanted@ == pattern@,
            i <= text.len(),
            forall|j: int| 0 <= j < i ==> !#[trigger] occurs_at(text@, pattern@, j),
        decreases text.len() - i,
    {
        if matches_at(text, wanted.as_slice(), i) {
            return Some(i);
        }
        if i == text.len() {
            return None;
        }
        i += 1;
    }
}

/// `str::contains` on characters.
pub fn contains(text: &[char], pattern: &str) -> (r: bool)
    ensures
        r == mentions(text@, pattern@),
{
    match position_of(text, pattern) {
        Some(_) => true,
        None => false,
    }
}

/// `text` begins with `pattern` and goes on after it.
pub open spec fn goes_on_from(text: Seq<char>, pattern: Seq<char>) -> bool {
    occurs_at(text, pattern, 0) && text.len() > pattern.len()
}

pub fn is_longer_than_prefix(text: &[char], pattern: &str) -> (r: bool)
    ensures
        r == goes_on_from(text@, pattern@),
{
    let prefix = chars_of(pattern);
    text.len() > prefix.len() && matches_at(text, prefix.as_slice(), 0)
}

pub open spec fn begins_with(text: Seq<char>, c: char) -> bool {
    text.len() > 0 && text[0] == c
}

// ---------------------------------------------------------------------------
// Lines

/// The part of `text` before its first line feed, or all of it.
pub open spec fn first_line_end(text: Seq<char>) -> int {
    if text.contains('\n') {
        text.index_of_first('\n')->0
    } else {
        text.len() as int
    }
}

/// A line without the carriage return that belongs to its terminator.
pub open spec fn without_return(line: Seq<char>) -> Seq<char> {
    if line.len() > 0 && line.last() == '\r' {
        line.drop_last()
    } else {
        line
    }
}

/// The lines of a text. A line ends at a line feed, and a carriage return just
/// before it belongs to the terminator; the last line may lack its terminator.
pub open spec fn lines_of(text: Seq<char>) -> Seq<Seq<char>>
    decreases text.len(),
{
    if text.len() == 0 {
        seq![]
    } else if !text.contains('\n') {
        seq![text]
    } else {
        let end = first_line_end(text);
        if 0 <= end < text.len() {
            seq![without_return(text.take(end))] + lines_of(text.skip(end + 1))
        } else {
            seq![]
        }
    }
}

pub open spec fn texts(lines: Seq<Vec<char>>) -> Seq<Seq<char>> {
    lines.map_values(|l: Vec<char>| l@)
}

fn copy_range(text: &[char], from: usize, to: usize) -> (r: Vec<char>)
    requires
        from <= to <= text.len(),
    ensures
        r@ == text@.subrange(from as int, to as int),
{
    let mut out: Vec<char> = Vec::new();
    let mut i: usize = from;
    while i < to
        invariant
            from <= i <= to <= text.len(),
            out@ == text@.subrange(from as int, i as int),
        decreases to - i,
    {
        out.push(text[i]);
        i += 1;
        proof {
            assert(out@ =~= text@.subrange(from as int, i as int));
        }
    }
    out
}

/// `str::lines` on characters.
pub fn split_lines(text: &[char]) -> (r: Vec<Vec<char>>)
    ensures
        texts(r@) == lines_of(text@),
{
    let mut out: Vec<Vec<char>> = Vec::new();
    let mut start: usize = 0;
    proof {
        assert(text@.skip(0) =~= text@);
        assert(texts(out@) + lines_of(text@) =~= lines_of(text@));
    }
    while start < text.len()
        invariant
            start <= text.len(),
            texts(out@) + lines_of(text@.skip(start as int)) == lines_of(text@),
        decreases text.len() - start,
    {
        let ghost rest = text@.skip(start as int);
        let ghost before = out@;
        let mut end: usize = start;
        while end < text.len() && text[end] != '\n'
            invariant
                start <= end <= text.len(),
                forall|k: int| start <= k < end ==> text@[k] != '\n',
            decreases text.len() - end,
        {
            end += 1;
        }
        if end == text.len() {
            let line = copy_range(text, start, end);
            out.push(line);
            proof {
                assert(!rest.contains('\n'));
                assert(line@ =~= rest);
                assert(texts(out@) =~= texts(before) + seq![rest]);
                assert(lines_of(rest) =~= seq![rest]);
                assert(lines_of(text@.skip(text@.len() as int)) =~= seq![]);
                assert(texts(out@) + lines_of(text@.skip(text@.len() as int)) =~= lines_of(text@));
            }
            start = end;
        } else {
            let stop: usize = if end > start && text[end - 1] == '\r' {
                end - 1
            } else {
                end
            };
            let line = copy_range(text, start, stop);
            out.push(line);
            proof {
                let at = end - start;
                assert(rest[at] == '\n');
                assert(rest.contains('\n'));
                lemma_first(rest, '\n', at);
                assert(rest.take(at) =~= text@.subrange(start as int, end as int));
                assert(line@ =~= without_return(rest.take(at)));
                assert(rest.skip(at + 1) =~= text@.skip(end + 1));
                assert(texts(out@) =~= texts(before) + seq![line@]);
                assert(texts(out@) + lines_of(text@.skip(end + 1)) =~= texts(before) + (seq![line@]
                    + lines_of(text@.skip(end + 1))));
            }
            start = end + 1;
        }
    }
    proof {
        assert(lines_of(text@.skip(start as int)) =~= seq![]);
        assert(texts(out@) + lines_of(text@.skip(start as int)) =~= texts(out@));
    }
    out
}

proof fn lemma_first(s: Seq<char>, c: char, at: int)
    requires
        0 <= at < s.len(),
        s[at] == c,
        forall|k: int| 0 <= k < at ==> s[k] != c,
    ensures
        s.index_of_first(c) == Some(at),
{
    s.index_of_first_ensures(c);
}

// ---------------------------------------------------------------------------
// Trimming

pub open spec fn trim_start(s: Seq<char>) -> Seq<char>
    decreases s.len(),
{
    if s.len() > 0 && white_space(s[0]) {
        trim_start(s.skip(1))
    } else {
        s
    }
}

pub open spec fn trim_end(s: Seq<char>) -> Seq<char>
    decreases s.len(),
{
    if s.len() > 0 && white_space(s.last()) {
        trim_end(s.drop_last())
    } else {
        s
    }
}

/// The text without white space at either end.
pub open spec fn trimmed(s: Seq<char>) -> Seq<char> {
    trim_end(trim_start(s))
}

/// `str::trim` on characters.
pub fn trim(text: &[char]) -> (r: Vec<char>)
    ensures
        r@ == trimmed(text@),
{
    let mut from: usize = 0;
    proof {
        assert(text@.skip(0) =~= text@);
    }
    while from < text.len() && is_whitespace(text[from])
        invariant
            from <= text.len(),
            trim_start(text@.skip(from as int)) == trim_start(text@),
        decreases text.len() - from,
    {
        proof {
            assert(text@.skip(from as int).skip(1) =~= text@.skip(from + 1));
        }
        from += 1;
    }
    let ghost front = text@.skip(from as int);
    let mut to: usize = text.len();
    proof {
        assert(text@.subrange(from as int, to as int) =~= front);
    }
    while to > from && is_whitespace(text[to - 1])
        invariant
            from <= to <= text.len(),
            trim_end(text@.subrange(from as int, to as int)) == trim_end(front),
        decreases to,
    {
        proof {
            assert(text@.subrange(from as int, to as int).drop_last() =~= text@.subrange(
                from as int,
                to - 1,
            ));
        }
        to -= 1;
    }
    copy_range(text, from, to)
}

// ---------------------------------------------------------------------------
// Printable text

/// Some character of `s` is a control.
pub open spec fn holds_control(s: Seq<char>) -> bool {
    exists|i: int| 0 <= i < s.len() && control(#[trigger] s[i])
}

pub fn has_control(chars: &[char]) -> (r: bool)
    ensures
        r == holds_control(chars@),
{
    let mut i: usize = 0;
    while i < chars.len()
        invariant
            i <= chars.len(),
            forall|k: int| 0 <= k < i ==> !control(#[trigger] chars@[k]),
        decreases chars.len() - i,
    {
        if is_control(chars[i]) {
            proof {
                assert(control(chars@[i as int]));
            }
            return true;
        }
        i += 1;
    }
    false
}

/// The characters of `s` that are no controls, in order.
pub open spec fn printable(s: Seq<char>) -> Seq<char> {
    s.filter(|c: char| !control(c))
}

/// The first `limit` printable characters of `text`.
pub fn printable_prefix(text: &str, limit: usize) -> (r: String)
    ensures
        r@ == (if printable(text@).len() <= limit {
            printable(text@)
        } else {
            printable(text@).take(limit as int)
        }),
{
    let chars = chars_of(text);
    let mut kept: Vec<char> = Vec::new();
    let mut i: usize = 0;
    proof {
        assert(printable(text@.take(0)) =~= seq![]);
    }
    while i < chars.len()
        invariant
            chars@ == text@,
            i <= chars.len(),
            kept@ == (if printable(text@.take(i as int)).len() <= limit {
                printable(text@.take(i as int))
            } else {
                printable(text@.take(i as int)).take(limit as int)
            }),
        decreases chars.len() - i,
    {
        let c = chars[i];
        let ghost seen = printable(text@.take(i as int));
        proof {
            lemma_printable_push(text@, i as int);
        }
        if !is_control(c) && kept.len() < limit {
            kept.push(c);
        } else if !is_control(c) {
            proof {
                assert(kept@ =~= seen.push(c).take(limit as int));
            }
        }
        i += 1;
    }
    proof {
        assert(text@.take(text@.len() as int) =~= text@);
    }
    string_of(kept.as_slice())
}

proof fn lemma_printable_push(s: Seq<char>, i: int)
    requires
        0 <= i < s.len(),
    ensures
        printable(s.take(i + 1)) == (if control(s[i]) {
            printable(s.take(i))
        } else {
            printable(s.take(i)).push(s[i])
        }),
{
    reveal(Seq::filter);
    assert(s.take(i + 1).drop_last() =~= s.take(i));
}

// ---------------------------------------------------------------------------
// Numbers

/// The decimal digits of a number, without leading zeros.
pub open spec fn decimal(n: nat) -> Seq<char>
    decreases n,
{
    if n < 10 {
        seq![((0x30 + n) as u32) as char]
    } else {
        decimal(n / 10).push(((0x30 + n % 10) as u32) as char)
    }
}

pub fn decimal_of(n: u64) -> (r: String)
    ensures
        r@ == decimal(n as nat),
    decreases n,
{
    if n < 10 {
        let digit: u8 = 0x30 + (n as u8);
        let mut out = String::new();
        out.push(digit as char);
        proof {
            assert(out@ =~= decimal(n as nat));
        }
        out
    } else {
        let mut out = decimal_of(n / 10);
        let digit: u8 = 0x30 + ((n % 10) as u8);
        out.push(digit as char);
        out
    }
}

// ---------------------------------------------------------------------------
// Quoted text

/// What `{:?}` makes of a string: the string in double quotes, with escapes.
pub uninterp spec fn quoted_text(s: Seq<char>) -> Seq<char>;

/// `format!("{:?}", s)`: the result depends on the characters alone and goes by
/// the name `quoted_text`.
#[verifier::external_body]
pub(crate) fn quoted(s: &str) -> (r: String)
    ensures
        r@ == quoted_text(s@),
{
    format!("{:?}", s)
}

} // verus!
