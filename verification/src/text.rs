//! Conversions between Rust strings and the character sequences that the
//! parsers and formatters of this crate work on.

use vstd::prelude::*;

verus! {

/// The characters of a string slice, in order.
pub fn str_chars(s: &str) -> (chars: Vec<char>)
    ensures
        chars@ == s@,
{
    let mut chars: Vec<char> = Vec::new();
    for c in it: s.chars()
        invariant
            chars@ == it.seq().take(it.index() as int),
            it.seq() == s@,
    {
        chars.push(c);
    }
    chars
}

/// Builds a `String` that holds exactly the given characters
/// (`String::from_iter` of std over the characters).
#[verifier::external_body]
pub fn string_from_chars(chars: &Vec<char>) -> (s: String)
    ensures
        s@ == chars@,
{
    String::from_iter(chars.iter())
}

/// The decimal digits of a number, most significant first, as characters.
pub open spec fn decimal_chars(n: nat) -> Seq<char>
    decreases n,
{
    if n < 10 {
        seq![digit_char(n)]
    } else {
        decimal_chars(n / 10).push(digit_char(n % 10))
    }
}

/// The character of a decimal digit.
pub open spec fn digit_char(d: nat) -> char {
    if d == 0 { '0' }
    else if d == 1 { '1' }
    else if d == 2 { '2' }
    else if d == 3 { '3' }
    else if d == 4 { '4' }
    else if d == 5 { '5' }
    else if d == 6 { '6' }
    else if d == 7 { '7' }
    else if d == 8 { '8' }
    else { '9' }
}

/// The value of a decimal digit character, if it is one.
pub open spec fn digit_value(c: char) -> Option<nat> {
    if '0' <= c && c <= '9' {
        Some((c as nat - '0' as nat) as nat)
    } else {
        None
    }
}

/// The character of one decimal digit.
pub fn digit_to_char(d: u32) -> (c: char)
    requires
        d < 10,
    ensures
        c == digit_char(d as nat),
{
    if d == 0 { '0' }
    else if d == 1 { '1' }
    else if d == 2 { '2' }
    else if d == 3 { '3' }
    else if d == 4 { '4' }
    else if d == 5 { '5' }
    else if d == 6 { '6' }
    else if d == 7 { '7' }
    else if d == 8 { '8' }
    else { '9' }
}

/// Appends the decimal representation of `n` to `out`.
pub fn push_decimal(out: &mut Vec<char>, n: u64)
    ensures
        final(out)@ == old(out)@ + decimal_chars(n as nat),
    decreases n,
{
    if n < 10 {
        out.push(digit_to_char(n as u32));
    } else {
        push_decimal(out, n / 10);
        out.push(digit_to_char((n % 10) as u32));
        assert(decimal_chars(n as nat) == decimal_chars((n / 10) as nat).push(digit_char((n % 10) as nat)));
    }
}

/// Appends all the characters of `s` to `out`.
pub fn push_all(out: &mut Vec<char>, s: &Vec<char>)
    ensures
        final(out)@ == old(out)@ + s@,
{
    let mut i: usize = 0;
    while i < s.len()
        invariant
            i <= s.len(),
            out@ == old(out)@ + s@.take(i as int),
        decreases s.len() - i,
    {
        out.push(s[i]);
        i += 1;
        assert(s@.take(i as int) == s@.take((i - 1) as int).push(s@[i - 1]));
    }
    assert(s@.take(s.len() as int) == s@);
}

/// The decimal representation of an integer, with a '+' before
/// non-negative numbers when `plus` is set.
pub open spec fn signed_chars(v: int, plus: bool) -> Seq<char> {
    if v < 0 {
        seq!['-'] + decimal_chars((-v) as nat)
    } else if plus {
        seq!['+'] + decimal_chars(v as nat)
    } else {
        decimal_chars(v as nat)
    }
}

/// Appends the decimal representation of `v`, with a '+' before
/// non-negative numbers when `plus` is set.
pub fn push_signed(out: &mut Vec<char>, v: i64, plus: bool)
    requires
        v > i64::MIN,
    ensures
        final(out)@ == old(out)@ + signed_chars(v as int, plus),
{
    let ghost start = out@;
    if v < 0 {
        out.push('-');
        push_decimal(out, (-v) as u64);
    } else {
        if plus {
            out.push('+');
        }
        push_decimal(out, v as u64);
    }
    assert(out@ =~= start + signed_chars(v as int, plus));
}

/// Appends the characters of a string.
pub fn push_str_chars(out: &mut Vec<char>, s: &str)
    ensures
        final(out)@ == old(out)@ + s@,
{
    let cs = str_chars(s);
    push_all(out, &cs);
}

/// ASCII whitespace: space, tab, line feed, form feed and carriage return.
pub open spec fn is_ascii_space(c: char) -> bool {
    c == ' ' || c == '\t' || c == '\n' || c == '\x0C' || c == '\r'
}

/// Whitespace as `char::is_whitespace` of std takes it: the characters
/// with the Unicode property White_Space.
pub open spec fn is_whitespace(c: char) -> bool {
    let n = c as u32;
    (0x09 <= n && n <= 0x0D) || n == 0x20 || n == 0x85 || n == 0xA0 || n == 0x1680
        || (0x2000 <= n && n <= 0x200A) || n == 0x2028 || n == 0x2029 || n == 0x202F || n == 0x205F || n == 0x3000
}

/// Whether a character is whitespace (`char::is_whitespace`).
pub fn is_whitespace_char(c: char) -> (space: bool)
    ensures
        space == is_whitespace(c),
{
    let n = c as u32;
    (0x09 <= n && n <= 0x0D) || n == 0x20 || n == 0x85 || n == 0xA0 || n == 0x1680
        || (0x2000 <= n && n <= 0x200A) || n == 0x2028 || n == 0x2029 || n == 0x202F || n == 0x205F || n == 0x3000
}

/// A separator of words: ASCII whitespace, or any whitespace when
/// `unicode` is set.
pub open spec fn is_separator(c: char, unicode: bool) -> bool {
    if unicode { is_whitespace(c) } else { is_ascii_space(c) }
}

/// The words of a text and the word being read, after reading it from the
/// start.
pub open spec fn words_scan(cs: Seq<char>, unicode: bool) -> (Seq<Seq<char>>, Seq<char>)
    decreases cs.len(),
{
    if cs.len() == 0 {
        (Seq::empty(), Seq::empty())
    } else {
        let (done, current) = words_scan(cs.drop_last(), unicode);
        let c = cs.last();
        if is_separator(c, unicode) {
            if current.len() > 0 { (done.push(current), Seq::empty()) } else { (done, current) }
        } else {
            (done, current.push(c))
        }
    }
}

/// The words of a text: the maximal runs of characters other than
/// separators, in order.
pub open spec fn words_by(cs: Seq<char>, unicode: bool) -> Seq<Seq<char>> {
    let (done, current) = words_scan(cs, unicode);
    if current.len() > 0 { done.push(current) } else { done }
}

/// The words of a text separated by ASCII whitespace
/// (`str::split_ascii_whitespace`).
pub open spec fn ascii_words(cs: Seq<char>) -> Seq<Seq<char>> {
    words_by(cs, false)
}

/// The words of a text separated by whitespace (`str::split_whitespace`).
pub open spec fn whitespace_words(cs: Seq<char>) -> Seq<Seq<char>> {
    words_by(cs, true)
}

pub fn is_ascii_space_char(c: char) -> (space: bool)
    ensures
        space == is_ascii_space(c),
{
    c == ' ' || c == '\t' || c == '\n' || c == '\x0C' || c == '\r'
}

/// Splits characters into words separated by ASCII whitespace.
pub fn split_ascii_whitespace(cs: &Vec<char>) -> (words: Vec<Vec<char>>)
    ensures
        words@.map_values(|w: Vec<char>| w@) == ascii_words(cs@),
{
    split_words(cs, false)
}

/// Splits characters into words separated by whitespace.
pub fn split_whitespace(cs: &Vec<char>) -> (words: Vec<Vec<char>>)
    ensures
        words@.map_values(|w: Vec<char>| w@) == whitespace_words(cs@),
{
    split_words(cs, true)
}

/// Splits characters into the words between separators.
fn split_words(cs: &Vec<char>, unicode: bool) -> (words: Vec<Vec<char>>)
    ensures
        words@.map_values(|w: Vec<char>| w@) == words_by(cs@, unicode),
{
    let mut done: Vec<Vec<char>> = Vec::new();
    let mut current: Vec<char> = Vec::new();
    let mut i: usize = 0;
    while i < cs.len()
        invariant
            i <= cs.len(),
            (done@.map_values(|w: Vec<char>| w@), current@) == words_scan(cs@.take(i as int), unicode),
        decreases cs.len() - i,
    {
        let c = cs[i];
        proof {
            assert(cs@.take(i + 1).drop_last() =~= cs@.take(i as int));
        }
        let sep = if unicode { is_whitespace_char(c) } else { is_ascii_space_char(c) };
        if sep {
            if current.len() > 0 {
                let ghost before = done@;
                let word = current;
                done.push(word);
                current = Vec::new();
                assert(done@.map_values(|w: Vec<char>| w@) =~= before.map_values(|w: Vec<char>| w@).push(word@));
            }
        } else {
            current.push(c);
        }
        i += 1;
    }
    assert(cs@.take(cs.len() as int) =~= cs@);
    if current.len() > 0 {
        let ghost before = done@;
        let word = current;
        done.push(word);
        assert(done@.map_values(|w: Vec<char>| w@) =~= before.map_values(|w: Vec<char>| w@).push(word@));
    }
    done
}

/// Whether two character sequences are equal.
pub fn chars_eq(a: &Vec<char>, b: &Vec<char>) -> (eq: bool)
    ensures
        eq == (a@ == b@),
{
    if a.len() != b.len() {
        return false;
    }
    let mut i: usize = 0;
    while i < a.len()
        invariant
            i <= a@.len(),
            a@.len() == b@.len(),
            forall|j: int| 0 <= j < i ==> a@[j] == b@[j],
        decreases a@.len() - i,
    {
        if a[i] != b[i] {
            return false;
        }
        i += 1;
    }
    assert(a@ =~= b@);
    true
}

/// Whether a character occurs in a sequence.
pub fn has_char(cs: &Vec<char>, c: char) -> (found: bool)
    ensures
        found == cs@.contains(c),
{
    let mut i: usize = 0;
    while i < cs.len()
        invariant
            i <= cs@.len(),
            forall|j: int| 0 <= j < i ==> cs@[j] != c,
        decreases cs@.len() - i,
    {
        if cs[i] == c {
            assert(cs@[i as int] == c);
            return true;
        }
        i += 1;
    }
    false
}

/// The index of the first occurrence of a character from `k` on.
pub open spec fn first_index(cs: Seq<char>, c: char, k: int) -> Option<int>
    decreases cs.len() - k,
{
    if k < 0 || k >= cs.len() {
        None
    } else if cs[k] == c {
        Some(k)
    } else {
        first_index(cs, c, k + 1)
    }
}

/// The index of the first occurrence of a character (`str::find`).
pub fn find_char(cs: &Vec<char>, c: char) -> (index: Option<usize>)
    ensures
        match first_index(cs@, c, 0) {
            Some(i) => index == Some(i as usize),
            None => index is None,
        },
{
    let mut i: usize = 0;
    while i < cs.len()
        invariant
            i <= cs@.len(),
            first_index(cs@, c, 0) == first_index(cs@, c, i as int),
        decreases cs@.len() - i,
    {
        if cs[i] == c {
            return Some(i);
        }
        i += 1;
    }
    None
}

/// The sequence ends with `suffix`.
pub open spec fn ends_with(cs: Seq<char>, suffix: Seq<char>) -> bool {
    suffix.len() <= cs.len() && cs.subrange(cs.len() - suffix.len(), cs.len() as int) == suffix
}

/// Whether a sequence ends with `suffix` (`str::ends_with`).
pub fn ends_with_chars(cs: &Vec<char>, suffix: &Vec<char>) -> (r: bool)
    ensures
        r == ends_with(cs@, suffix@),
{
    if suffix.len() > cs.len() {
        return false;
    }
    let len = cs.len();
    let start = len - suffix.len();
    let mut i: usize = 0;
    while i < suffix.len()
        invariant
            i <= suffix@.len(),
            len == cs@.len(),
            start + suffix@.len() == cs@.len(),
            forall|j: int| 0 <= j < i ==> cs@[start + j] == suffix@[j],
        decreases suffix@.len() - i,
    {
        if cs[start + i] != suffix[i] {
            assert(cs@.subrange(start as int, cs@.len() as int)[i as int] != suffix@[i as int]);
            return false;
        }
        i += 1;
    }
    assert(cs@.subrange(start as int, cs@.len() as int) =~= suffix@);
    true
}

/// The first occurrence at or after `k` is at or after `k`, on that
/// character.
pub proof fn lemma_first_index(cs: Seq<char>, c: char, k: int)
    ensures
        first_index(cs, c, k) matches Some(i) ==> k <= i < cs.len() && cs[i] == c,
    decreases cs.len() - k,
{
    if 0 <= k < cs.len() && cs[k] != c {
        lemma_first_index(cs, c, k + 1);
    }
}

/// The index of the first occurrence of a character at or after `start`.
pub fn find_char_from(cs: &Vec<char>, c: char, start: usize) -> (index: Option<usize>)
    ensures
        match first_index(cs@, c, start as int) {
            Some(i) => index == Some(i as usize),
            None => index is None,
        },
{
    let mut i: usize = start;
    while i < cs.len()
        invariant
            start <= i,
            first_index(cs@, c, start as int) == first_index(cs@, c, i as int),
        decreases cs@.len() - i,
    {
        if cs[i] == c {
            return Some(i);
        }
        i += 1;
    }
    None
}

/// The characters of `cs` from `from` up to (not including) `to`.
pub fn copy_range(cs: &Vec<char>, from: usize, to: usize) -> (out: Vec<char>)
    requires
        from <= to <= cs@.len(),
    ensures
        out@ == cs@.subrange(from as int, to as int),
{
    let mut out: Vec<char> = Vec::new();
    let mut i: usize = from;
    while i < to
        invariant
            from <= i <= to <= cs@.len(),
            out@ == cs@.subrange(from as int, i as int),
        decreases to - i,
    {
        out.push(cs[i]);
        proof {
            assert(out@ =~= cs@.subrange(from as int, i + 1));
        }
        i += 1;
    }
    out
}

/// The complete lines of a buffer from `pos` on, and where the text after
/// the last of them starts: each line ends at a line feed, which is not
/// part of it, nor is a carriage return right before the line feed (as
/// `str::lines` reads them).
pub open spec fn complete_lines(cs: Seq<char>, pos: int) -> (Seq<Seq<char>>, int)
    decreases cs.len() - pos,
{
    if pos < 0 || pos >= cs.len() {
        (Seq::empty(), pos)
    } else {
        match first_index(cs, '\n', pos) {
            None => (Seq::empty(), pos),
            Some(k) => {
                let end = if k > pos && cs[k - 1] == '\r' { k - 1 } else { k };
                if k + 1 <= pos || k + 1 > cs.len() {
                    (Seq::empty(), pos)
                } else {
                    let rest = complete_lines(cs, k + 1);
                    (seq![cs.subrange(pos, end)] + rest.0, rest.1)
                }
            },
        }
    }
}

/// The text that follows the complete lines, if any.
pub open spec fn line_remainder(cs: Seq<char>, end: int) -> Option<Seq<char>> {
    if end >= cs.len() {
        None
    } else {
        Some(cs.subrange(end, cs.len() as int))
    }
}

/// Splits a buffer into its complete lines (each ended by a line feed, or
/// a carriage return and a line feed, which are dropped) and the
/// incomplete text after them, if any.
pub fn split_complete_lines(buffer: &Vec<char>) -> (result: (Vec<Vec<char>>, Option<Vec<char>>))
    ensures
        result.0@.map_values(|l: Vec<char>| l@) == complete_lines(buffer@, 0).0,
        match line_remainder(buffer@, complete_lines(buffer@, 0).1) {
            Some(r) => result.1 matches Some(v) && v@ == r,
            None => result.1 is None,
        },
{
    let ghost cs = buffer@;
    let mut lines: Vec<Vec<char>> = Vec::new();
    let mut pos: usize = 0;
    loop
        invariant
            cs == buffer@,
            pos <= cs.len(),
            complete_lines(cs, 0).0 == lines@.map_values(|l: Vec<char>| l@) + complete_lines(cs, pos as int).0,
            complete_lines(cs, 0).1 == complete_lines(cs, pos as int).1,
        ensures
            pos <= cs.len(),
            complete_lines(cs, 0).0 == lines@.map_values(|l: Vec<char>| l@) + complete_lines(cs, pos as int).0,
            complete_lines(cs, 0).1 == complete_lines(cs, pos as int).1,
            complete_lines(cs, pos as int).0 == Seq::<Seq<char>>::empty(),
            complete_lines(cs, pos as int).1 == pos,
        decreases cs.len() - pos,
    {
        if pos >= buffer.len() {
            break;
        }
        let found = find_char_from(buffer, '\n', pos);
        proof {
            lemma_first_index(cs, '\n', pos as int);
        }
        match found {
            None => {
                break;
            },
            Some(k) => {
                let end = if k > pos && buffer[k - 1] == '\r' { k - 1 } else { k };
                let line = copy_range(buffer, pos, end);
                let next = k + 1;
                let ghost before = lines@.map_values(|l: Vec<char>| l@);
                lines.push(line);
                proof {
                    assert(lines@.map_values(|l: Vec<char>| l@) =~= before.push(cs.subrange(pos as int, end as int)));
                    let rest = complete_lines(cs, next as int);
                    assert(complete_lines(cs, pos as int).0 == seq![cs.subrange(pos as int, end as int)] + rest.0);
                    assert(before + complete_lines(cs, pos as int).0 =~= before.push(cs.subrange(pos as int, end as int)) + rest.0);
                }
                pos = next;
            },
        }
    }
    proof {
        assert(lines@.map_values(|l: Vec<char>| l@) + Seq::<Seq<char>>::empty() =~= lines@.map_values(|l: Vec<char>| l@));
    }
    let remainder = if pos >= buffer.len() {
        None
    } else {
        Some(copy_range(buffer, pos, buffer.len()))
    };
    (lines, remainder)
}

} // verus!
