//! Text: what the rest of the library needs of strings, with exact contracts.
use vstd::prelude::*;

verus! {

/// `String::push` of std: the character goes to the end of the string.
pub assume_specification[ std::string::String::push ](text: &mut std::string::String, c: char)
    ensures
        final(text)@ == old(text)@.push(c),
;

/// The texts of a sequence of strings.
pub open spec fn texts(strings: Seq<String>) -> Seq<Seq<char>> {
    Seq::new(strings.len(), |i: int| strings[i]@)
}

/// The text of a string that may be absent.
pub open spec fn optional_text(string: Option<String>) -> Option<Seq<char>> {
    match string {
        Some(s) => Some(s@),
        None => None,
    }
}

/// The text of a borrowed string that may be absent.
pub open spec fn optional_str(string: Option<&str>) -> Option<Seq<char>> {
    match string {
        Some(s) => Some(s@),
        None => None,
    }
}

/// The parts in order, with the separator between each two of them.
pub open spec fn joined(parts: Seq<Seq<char>>, separator: Seq<char>) -> Seq<char>
    decreases parts.len(),
{
    if parts.len() == 0 {
        Seq::empty()
    } else if parts.len() == 1 {
        parts[0]
    } else {
        joined(parts.drop_last(), separator) + separator + parts.last()
    }
}

/// The decimal digit of a number below ten.
pub open spec fn digit(d: nat) -> char {
    (48 + d) as char
}

/// A number in decimal, without leading zeros.
pub open spec fn decimal(n: nat) -> Seq<char>
    decreases n,
{
    if n < 10 {
        seq![digit(n)]
    } else {
        decimal(n / 10).push(digit(n % 10))
    }
}

/// Whether a character has the Unicode property White_Space.
pub open spec fn is_white_space(c: char) -> bool {
    let u = c as int;
    ||| 0x9 <= u <= 0xd
    ||| u == 0x20
    ||| u == 0x85
    ||| u == 0xa0
    ||| u == 0x1680
    ||| 0x2000 <= u <= 0x200a
    ||| u == 0x2028
    ||| u == 0x2029
    ||| u == 0x202f
    ||| u == 0x205f
    ||| u == 0x3000
}

/// A text without the white space at its start.
pub open spec fn trimmed_start(s: Seq<char>) -> Seq<char>
    decreases s.len(),
{
    if s.len() > 0 && is_white_space(s[0]) {
        trimmed_start(s.drop_first())
    } else {
        s
    }
}

/// A text without the white space at its end.
pub open spec fn trimmed_end(s: Seq<char>) -> Seq<char>
    decreases s.len(),
{
    if s.len() > 0 && is_white_space(s.last()) {
        trimmed_end(s.drop_last())
    } else {
        s
    }
}

/// A text without the white space at its two ends.
pub open spec fn trimmed(s: Seq<char>) -> Seq<char> {
    trimmed_end(trimmed_start(s))
}

/// What stands before the first `stop`: all of the text if there is none.
pub open spec fn before(s: Seq<char>, stop: char) -> Seq<char>
    decreases s.len(),
{
    if s.len() == 0 || s[0] == stop {
        Seq::empty()
    } else {
        seq![s[0]] + before(s.drop_first(), stop)
    }
}

/// The value of an HTTP header as text: a value is text if all its bytes are
/// visible ASCII characters, spaces or tabs.
pub open spec fn header_value_text(bytes: Seq<u8>) -> Option<Seq<char>> {
    if forall|i: int| 0 <= i < bytes.len() ==> 32 <= #[trigger] bytes[i] < 127 || bytes[i] == 9 {
        Some(Seq::new(bytes.len(), |i: int| bytes[i] as char))
    } else {
        None
    }
}

/// The characters of a string.
pub(crate) fn chars_of(text: &str) -> (chars: Vec<char>)
    ensures
        chars@ == text@,
{
    let mut chars: Vec<char> = Vec::new();
    for c in it: text.chars()
        invariant
            it.seq() == text@,
            chars@ == text@.take(it.index() as int),
    {
        chars.push(c);
    }
    chars
}

/// A number in decimal, as `to_string` writes it.
pub fn decimal_text(n: u64) -> (text: String)
    ensures
        text@ == decimal(n as nat),
    decreases n,
{
    if n < 10 {
        let mut text = String::new();
        text.push((48 + n as u8) as char);
        assert(text@ =~= decimal(n as nat));
        text
    } else {
        let mut text = decimal_text(n / 10);
        text.push((48 + (n % 10) as u8) as char);
        text
    }
}

/// The parts in order, with the separator between each two of them.
pub fn join(parts: &Vec<String>, separator: &str) -> (text: String)
    ensures
        text@ == joined(texts(parts@), separator@),
{
    let mut text = String::new();
    let ghost all = texts(parts@);
    for i in 0..parts.len()
        invariant
            all == texts(parts@),
            text@ == joined(all.take(i as int), separator@),
    {
        proof {
            assert(all.take(i + 1).drop_last() =~= all.take(i as int));
            assert(all.take(i + 1).last() == parts@[i as int]@);
        }
        if i > 0 {
            text.append(separator);
            text.append(parts[i].as_str());
        } else {
            text.append(parts[i].as_str());
            assert(text@ =~= all.take(1)[0]);
        }
    }
    assert(all.take(parts@.len() as int) =~= all);
    text
}

/// Whether a character has the Unicode property White_Space.
fn white_space(c: char) -> (yes: bool)
    ensures
        yes == is_white_space(c),
{
    let u = c as u32;
    (0x9 <= u && u <= 0xd) || u == 0x20 || u == 0x85 || u == 0xa0 || u == 0x1680 || (0x2000 <= u
        && u <= 0x200a) || u == 0x2028 || u == 0x2029 || u == 0x202f || u == 0x205f || u == 0x3000
}

/// A text without the white space at its two ends.
pub fn trim(text: &str) -> (rest: String)
    ensures
        rest@ == trimmed(text@),
{
    let chars = chars_of(text);
    let mut from: usize = 0;
    assert(text@.skip(0) =~= text@);
    while from < chars.len() && white_space(chars[from])
        invariant
            chars@ == text@,
            from <= chars@.len(),
            trimmed_start(text@) == trimmed_start(text@.skip(from as int)),
        decreases chars@.len() - from,
    {
        assert(text@.skip(from as int).drop_first() =~= text@.skip(from + 1));
        from += 1;
    }
    let ghost rest = text@.skip(from as int);
    let mut to: usize = chars.len();
    assert(rest =~= text@.subrange(from as int, to as int));
    while from < to && white_space(chars[to - 1])
        invariant
            chars@ == text@,
            from <= to <= chars@.len(),
            trimmed(text@) == trimmed_end(text@.subrange(from as int, to as int)),
        decreases to,
    {
        assert(text@.subrange(from as int, to as int).drop_last() =~= text@.subrange(
            from as int,
            to - 1,
        ));
        to -= 1;
    }
    text.substring_char(from, to).to_owned()
}

/// What stands before the first `stop`: all of the text if there is none.
pub fn text_before(text: &str, stop: char) -> (head: String)
    ensures
        head@ == before(text@, stop),
{
    let chars = chars_of(text);
    let mut n: usize = 0;
    assert(text@.skip(0) =~= text@);
    while n < chars.len() && chars[n] != stop
        invariant
            chars@ == text@,
            n <= chars@.len(),
            before(text@, stop) == text@.take(n as int) + before(text@.skip(n as int), stop),
        decreases chars@.len() - n,
    {
        proof {
            let rest = text@.skip(n as int);
            assert(rest.drop_first() =~= text@.skip(n + 1));
            assert(text@.take(n + 1) =~= text@.take(n as int) + seq![rest[0]]);
            assert(text@.take(n as int) + (seq![rest[0]] + before(rest.drop_first(), stop))
                =~= text@.take(n + 1) + before(text@.skip(n + 1), stop));
        }
        n += 1;
    }
    assert(text@.take(n as int) =~= before(text@, stop));
    assert(text@.take(n as int) =~= text@.subrange(0, n as int));
    text.substring_char(0, n).to_owned()
}

/// Whether a text begins with another one.
pub fn has_prefix(text: &str, prefix: &str) -> (yes: bool)
    ensures
        yes == prefix@.is_prefix_of(text@),
{
    let chars = chars_of(text);
    let start = chars_of(prefix);
    if chars.len() < start.len() {
        return false;
    }
    for i in 0..start.len()
        invariant
            chars@ == text@,
            start@ == prefix@,
            start@.len() <= chars@.len(),
            start@.take(i as int) =~= chars@.take(i as int),
    {
        if chars[i] != start[i] {
            assert(text@.subrange(0, prefix@.len() as int)[i as int] != prefix@[i as int]);
            return false;
        }
    }
    assert(start@.take(start@.len() as int) =~= start@);
    true
}

/// The value of an HTTP header as text, if it is text.
pub fn header_text(bytes: &[u8]) -> (text: Option<String>)
    ensures
        optional_text(text) == header_value_text(bytes@),
{
    let mut text = String::new();
    for i in 0..bytes.len()
        invariant
            text@ == Seq::new(i as nat, |j: int| bytes@[j] as char),
            forall|j: int| 0 <= j < i ==> 32 <= #[trigger] bytes@[j] < 127 || bytes@[j] == 9,
    {
        let byte = bytes[i];
        if !(32 <= byte && byte < 127) && byte != 9 {
            return None;
        }
        text.push(byte as char);
        assert(text@ =~= Seq::new((i + 1) as nat, |j: int| bytes@[j] as char));
    }
    Some(text)
}

/// Numbers that differ are written differently.
pub proof fn decimal_is_injective(m: nat, n: nat)
    ensures
        decimal(m) == decimal(n) ==> m == n,
    decreases m,
{
    lemma_decimal_len(m);
    lemma_decimal_len(n);
    if decimal(m) == decimal(n) {
        let a = decimal(m);
        if m < 10 {
            if n >= 10 {
                lemma_decimal_len(n / 10);
                assert(a.len() >= 2);
            }
            assert(a[0] == digit(m) && a[0] == digit(n));
        } else {
            if n < 10 {
                lemma_decimal_len(m / 10);
                assert(a.len() >= 2);
            }
            assert(a.drop_last() =~= decimal(m / 10));
            assert(a.drop_last() =~= decimal(n / 10));
            assert(a.last() == digit(m % 10) && a.last() == digit(n % 10));
            decimal_is_injective(m / 10, n / 10);
        }
    }
}

/// A number has at least one digit.
proof fn lemma_decimal_len(n: nat)
    ensures
        decimal(n).len() >= 1,
{
}

/// How many characters parts have together.
pub open spec fn length_of_all(parts: Seq<Seq<char>>) -> nat
    decreases parts.len(),
{
    if parts.len() == 0 {
        0
    } else {
        parts[0].len() + length_of_all(parts.drop_first())
    }
}

/// Parts put behind parts have their characters together.
proof fn lemma_length_of_all(a: Seq<Seq<char>>, b: Seq<Seq<char>>)
    ensures
        length_of_all(a + b) == length_of_all(a) + length_of_all(b),
    decreases a.len(),
{
    if a.len() == 0 {
        assert(a + b =~= b);
    } else {
        assert((a + b).drop_first() =~= a.drop_first() + b);
        lemma_length_of_all(a.drop_first(), b);
    }
}

/// To join two lists, one behind the other, is to join each and to put the
/// separator between what comes of it.
pub proof fn joined_lists_meet_at_separator(
    a: Seq<Seq<char>>,
    b: Seq<Seq<char>>,
    separator: Seq<char>,
)
    requires
        a.len() > 0,
        b.len() > 0,
    ensures
        joined(a + b, separator) == joined(a, separator) + separator + joined(b, separator),
    decreases b.len(),
{
    if b.len() == 1 {
        assert((a + b).drop_last() =~= a);
    } else {
        assert((a + b).drop_last() =~= a + b.drop_last());
        joined_lists_meet_at_separator(a, b.drop_last(), separator);
        assert(joined(a + b, separator) =~= joined(a, separator) + separator + joined(
            b,
            separator,
        ));
    }
}

/// One part alone is joined to itself, and no part to nothing.
pub proof fn joined_part_stays_alone(part: Seq<char>, separator: Seq<char>)
    ensures
        joined(seq![part], separator) == part,
        joined(Seq::empty(), separator).len() == 0,
{
}

/// Joined parts are as long as all of them together and a separator between
/// each two.
pub proof fn joined_parts_add_up(parts: Seq<Seq<char>>, separator: Seq<char>)
    requires
        parts.len() > 0,
    ensures
        joined(parts, separator).len() == length_of_all(parts) + (parts.len() - 1)
            * separator.len(),
    decreases parts.len(),
{
    let last = seq![parts.last()];
    assert(last.drop_first() =~= Seq::empty());
    assert(length_of_all(last) == parts.last().len()) by {
        reveal_with_fuel(length_of_all, 2);
    }
    assert(parts =~= parts.drop_last() + last);
    lemma_length_of_all(parts.drop_last(), last);
    if parts.len() > 1 {
        joined_parts_add_up(parts.drop_last(), separator);
        let n = parts.len() as int;
        let m = separator.len() as int;
        assert((n - 2) * m + m == (n - 1) * m) by (nonlinear_arith);
    } else {
        assert(parts.drop_last() =~= Seq::empty());
        assert(0 * separator.len() == 0);
    }
}

/// Every part stands in the joined text, in order: behind the parts before it
/// and a separator behind each of those.
pub proof fn joined_parts_stand_in_order(parts: Seq<Seq<char>>, separator: Seq<char>, i: int)
    requires
        0 <= i < parts.len(),
    ensures
        ({
            let start = length_of_all(parts.take(i)) + i * separator.len();
            let text = joined(parts, separator);
            &&& start + parts[i].len() <= text.len()
            &&& text.subrange(start as int, start + parts[i].len()) == parts[i]
            &&& i > 0 ==> text.subrange(start - separator.len(), start as int) == separator
        }),
    decreases parts.len(),
{
    let text = joined(parts, separator);
    let m = separator.len() as int;
    if i == parts.len() - 1 {
        assert(parts.take(i) =~= parts.drop_last());
        if i > 0 {
            joined_parts_add_up(parts.take(i), separator);
            assert((i - 1) * m + m == i * m) by (nonlinear_arith);
            let start = length_of_all(parts.take(i)) + i * m;
            assert(joined(parts.take(i), separator).len() + m == start);
            assert(text.subrange(start, start + parts[i].len()) =~= parts[i]);
            assert(text.subrange(start - m, start) =~= separator);
        } else {
            assert(parts.take(0) =~= Seq::empty());
            assert(0 * m == 0);
            assert(text.subrange(0, parts[0].len() as int) =~= parts[0]);
        }
    } else {
        let first = parts.drop_last();
        joined_parts_stand_in_order(first, separator, i);
        assert(first.take(i) =~= parts.take(i));
        let start = length_of_all(parts.take(i)) + i * m;
        let shorter = joined(first, separator);
        assert(i * m >= 0) by (nonlinear_arith)
            requires
                i >= 0,
                m >= 0,
        ;
        assert(text.subrange(start, start + parts[i].len()) =~= shorter.subrange(
            start,
            start + parts[i].len(),
        ));
        if i > 0 {
            assert(i * m >= m) by (nonlinear_arith)
                requires
                    i >= 1,
                    m >= 0,
            ;
            assert(text.subrange(start - m, start) =~= shorter.subrange(start - m, start));
        }
    }
}

/// The number that decimal digits stand for.
pub open spec fn number_read(digits: Seq<char>) -> int
    decreases digits.len(),
{
    if digits.len() == 0 {
        0
    } else {
        number_read(digits.drop_last()) * 10 + (digits.last() as int - '0' as int)
    }
}

/// A number is written in the digits from 0 to 9, without a leading zero, and
/// is read back from them.
pub proof fn decimal_reads_back(n: nat)
    ensures
        number_read(decimal(n)) == n,
        decimal(n).len() > 0,
        forall|i: int| 0 <= i < decimal(n).len() ==> '0' <= #[trigger] decimal(n)[i] <= '9',
        decimal(n).len() > 1 ==> decimal(n)[0] != '0',
    decreases n,
{
    reveal_with_fuel(number_read, 2);
    if n >= 10 {
        let first = decimal(n / 10);
        decimal_reads_back(n / 10);
        assert(decimal(n).drop_last() =~= first);
        assert forall|i: int| 0 <= i < decimal(n).len() implies '0' <= #[trigger] decimal(n)[i]
            <= '9' by {
            if i < first.len() {
                assert(decimal(n)[i] == first[i]);
            }
        }
        assert(decimal(n)[0] == first[0]);
        if first.len() == 1 {
            assert(n / 10 < 10) by {
                if n / 10 >= 10 {
                    decimal_reads_back(n / 10 / 10);
                }
            }
            assert(first[0] == digit(n / 10));
        }
    }
}

/// Of the first characters of Unicode, those of ASCII, white space is the tab,
/// the line feed, the two other feeds, the carriage return and the space. No
/// character behind the ideographic space is any.
pub proof fn white_space_of_ascii(c: char)
    ensures
        c as int <= 0x7f ==> (is_white_space(c) <==> c == '\t' || c == '\n' || c == '\u{b}' || c
            == '\u{c}' || c == '\r' || c == ' '),
        is_white_space(c) ==> c <= '\u{3000}',
{
}

/// Of the characters behind ASCII, these are white space.
pub proof fn white_space_behind_ascii(c: char)
    requires
        c as int > 0x7f,
    ensures
        is_white_space(c) <==> c == '\u{85}' || c == '\u{a0}' || c == '\u{1680}' || '\u{2000}' <= c
            <= '\u{200a}' || c == '\u{2028}' || c == '\u{2029}' || c == '\u{202f}' || c
            == '\u{205f}' || c == '\u{3000}',
{
}

/// Whether a text stands in another one between these two places, with white
/// space alone around it there and none at its own ends.
pub open spec fn is_trimmed_at(s: Seq<char>, text: Seq<char>, from: int, to: int) -> bool {
    &&& 0 <= from <= to <= s.len()
    &&& text == s.subrange(from, to)
    &&& forall|i: int| 0 <= i < from ==> is_white_space(#[trigger] s[i])
    &&& forall|i: int| to <= i < s.len() ==> is_white_space(#[trigger] s[i])
    &&& text.len() > 0 ==> !is_white_space(text[0]) && !is_white_space(text.last())
}

/// Where the white space at the start of a text ends.
proof fn lemma_trimmed_start(s: Seq<char>) -> (from: int)
    ensures
        0 <= from <= s.len(),
        trimmed_start(s) == s.skip(from),
        forall|i: int| 0 <= i < from ==> is_white_space(#[trigger] s[i]),
        from < s.len() ==> !is_white_space(s[from]),
    decreases s.len(),
{
    if s.len() > 0 && is_white_space(s[0]) {
        let rest = s.drop_first();
        let from = lemma_trimmed_start(rest);
        assert(rest.skip(from) =~= s.skip(from + 1));
        assert forall|i: int| 0 <= i < from + 1 implies is_white_space(#[trigger] s[i]) by {
            if i > 0 {
                assert(rest[i - 1] == s[i]);
            }
        }
        if from < rest.len() {
            assert(rest[from] == s[from + 1]);
        }
        from + 1
    } else {
        assert(s.skip(0) =~= s);
        0
    }
}

/// Where the white space at the end of a text begins.
proof fn lemma_trimmed_end(s: Seq<char>) -> (to: int)
    ensures
        0 <= to <= s.len(),
        trimmed_end(s) == s.take(to),
        forall|i: int| to <= i < s.len() ==> is_white_space(#[trigger] s[i]),
        to > 0 ==> !is_white_space(s[to - 1]),
    decreases s.len(),
{
    if s.len() > 0 && is_white_space(s.last()) {
        let rest = s.drop_last();
        let to = lemma_trimmed_end(rest);
        assert(rest.take(to) =~= s.take(to));
        assert forall|i: int| to <= i < s.len() implies is_white_space(#[trigger] s[i]) by {
            if i < rest.len() {
                assert(rest[i] == s[i]);
            }
        }
        to
    } else {
        assert(s.take(s.len() as int) =~= s);
        s.len() as int
    }
}

/// To trim a text takes white space from its ends, all of it and nothing else.
pub proof fn trimming_takes_white_space_alone(s: Seq<char>)
    ensures
        exists|from: int, to: int| is_trimmed_at(s, trimmed(s), from, to),
{
    let from = lemma_trimmed_start(s);
    let rest = s.skip(from);
    let to = lemma_trimmed_end(rest);
    assert(rest.take(to) =~= s.subrange(from, from + to));
    assert forall|i: int| from + to <= i < s.len() implies is_white_space(#[trigger] s[i]) by {
        assert(rest[i - from] == s[i]);
    }
    if to > 0 {
        assert(rest[to - 1] == s[from + to - 1]);
    }
    assert(is_trimmed_at(s, trimmed(s), from, from + to));
}

/// A text without white space at its ends stays as it is when it is trimmed.
pub proof fn trimming_keeps_trimmed(s: Seq<char>)
    requires
        s.len() > 0 ==> !is_white_space(s[0]) && !is_white_space(s.last()),
    ensures
        trimmed(s) == s,
{
}

/// What stands before a character is the start of the text, without the
/// character, and it ends only at the character or with the text.
pub proof fn before_ends_at_stop(s: Seq<char>, stop: char)
    ensures
        before(s, stop).is_prefix_of(s),
        forall|i: int| 0 <= i < before(s, stop).len() ==> #[trigger] before(s, stop)[i] != stop,
        before(s, stop).len() == s.len() || s[before(s, stop).len() as int] == stop,
    decreases s.len(),
{
    let head = before(s, stop);
    if s.len() > 0 && s[0] != stop {
        let rest = s.drop_first();
        let later = before(rest, stop);
        before_ends_at_stop(rest, stop);
        assert(later =~= rest.subrange(0, later.len() as int));
        assert forall|i: int| 0 <= i < head.len() implies #[trigger] head[i] != stop && head[i]
            == s[i] by {
            if i > 0 {
                assert(head[i] == later[i - 1]);
                assert(later[i - 1] == rest.subrange(0, later.len() as int)[i - 1]);
                assert(rest[i - 1] == s[i]);
            }
        }
        assert(head =~= s.subrange(0, head.len() as int));
        if later.len() < rest.len() {
            assert(rest[later.len() as int] == s[head.len() as int]);
        }
    } else {
        assert(head =~= s.subrange(0, 0));
    }
}

/// A text without the character stands before it as a whole.
pub proof fn before_keeps_text_without_stop(s: Seq<char>, stop: char)
    requires
        forall|i: int| 0 <= i < s.len() ==> #[trigger] s[i] != stop,
    ensures
        before(s, stop) == s,
{
    before_ends_at_stop(s, stop);
    let head = before(s, stop);
    assert(head =~= s.subrange(0, head.len() as int));
    if head.len() < s.len() {
        assert(s[head.len() as int] != stop);
    }
}

/// The value of a header is text exactly if each byte is a tab or a character
/// from the space to the tilde, and then each byte is the code of its character.
pub proof fn header_text_is_its_bytes(bytes: Seq<u8>)
    ensures
        header_value_text(bytes) is Some <==> forall|i: int|
            0 <= i < bytes.len() ==> (#[trigger] bytes[i] == '\t' as u8 || ' ' as u8 <= bytes[i]
                <= '~' as u8),
        header_value_text(bytes) matches Some(text) ==> text.len() == bytes.len() && forall|i: int|
            0 <= i < bytes.len() ==> (#[trigger] text[i]) as int == bytes[i] as int,
{
}

} // verus!
