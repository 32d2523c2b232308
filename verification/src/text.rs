//! The two building blocks of a frame: decimal numbers and escaped text.
//!
//! Both are read back by position: a reader holds the characters of a frame
//! and an index into them, and each reading function returns the value it
//! found together with the index at which the value ends.

use vstd::prelude::*;

verus! {

/// `String::push` of the standard library: the string afterwards is the
/// string before with `ch` appended as its last character. Nothing else is
/// claimed of it.
pub assume_specification[ String::push ](s: &mut String, ch: char)
    ensures
        final(s)@ == old(s)@.push(ch),
;

/// `part` stands in `s` at index `i`.
pub open spec fn occurs_at(s: Seq<char>, i: int, part: Seq<char>) -> bool {
    &&& 0 <= i
    &&& i + part.len() <= s.len()
    &&& s.subrange(i, i + part.len()) == part
}

/// A concatenation stands at `i` exactly when its first half stands at `i`
/// and its second half stands right behind it.
pub proof fn lemma_occurs_concat(s: Seq<char>, i: int, a: Seq<char>, b: Seq<char>)
    ensures
        occurs_at(s, i, a + b) <==> (occurs_at(s, i, a) && occurs_at(s, i + a.len(), b)),
{
    let ab = a + b;
    if occurs_at(s, i, ab) {
        assert forall|k: int| 0 <= k < a.len() implies s.subrange(i, i + a.len())[k] == a[k] by {
            assert(s.subrange(i, i + ab.len())[k] == ab[k]);
        }
        assert(s.subrange(i, i + a.len()) =~= a);
        assert forall|k: int| 0 <= k < b.len() implies s.subrange(
            i + a.len(),
            i + a.len() + b.len(),
        )[k] == b[k] by {
            assert(s.subrange(i, i + ab.len())[a.len() + k] == ab[a.len() + k]);
        }
        assert(s.subrange(i + a.len(), i + a.len() + b.len()) =~= b);
    }
    if occurs_at(s, i, a) && occurs_at(s, i + a.len(), b) {
        assert forall|k: int| 0 <= k < ab.len() implies s.subrange(i, i + ab.len())[k] == ab[k] by {
            if k < a.len() {
                assert(s.subrange(i, i + a.len())[k] == a[k]);
            } else {
                assert(s.subrange(i + a.len(), i + a.len() + b.len())[k - a.len()] == b[k
                    - a.len()]);
            }
        }
        assert(s.subrange(i, i + ab.len()) =~= ab);
    }
}

/// Tests whether the literal `part` stands in `s` at index `i`, and returns
/// the index behind it if so.
pub fn expect(s: &Vec<char>, i: usize, part: &str) -> (end: Option<usize>)
    requires
        i <= s.len(),
    ensures
        match end {
            Some(j) => occurs_at(s@, i as int, part@) && j == i + part@.len(),
            None => !occurs_at(s@, i as int, part@),
        },
{
    let mut j: usize = i;
    for c in it: part.chars()
        invariant
            it.seq() == part@,
            i <= j <= s.len(),
            j == i + it.index(),
            forall|k: int| 0 <= k < it.index() ==> s@[i + k] == part@[k],
    {
        if j >= s.len() {
            return None;
        }
        if s[j] != c {
            proof {
                if occurs_at(s@, i as int, part@) {
                    assert(s@.subrange(i as int, i + part@.len())[j - i] == part@[j - i]);
                }
            }
            return None;
        }
        j += 1;
    }
    assert(s@.subrange(i as int, i + part@.len()) =~= part@);
    Some(j)
}

/// The decimal digits `'0'` to `'9'`.
pub open spec fn is_digit(c: char) -> bool {
    '0' <= c <= '9'
}

/// The number that a decimal digit stands for.
pub open spec fn digit_value(c: char) -> nat {
    (c as int - '0' as int) as nat
}

/// The decimal digit that stands for `d`, for `d` below ten.
pub open spec fn digit_char(d: nat) -> char {
    (d + '0' as int) as char
}

/// `n` in decimal, without sign and without leading zeros; zero is `"0"`.
pub open spec fn decimal(n: nat) -> Seq<char>
    decreases n,
{
    if n < 10 {
        seq![digit_char(n)]
    } else {
        decimal(n / 10).push(digit_char(n % 10))
    }
}

fn digit_to_char(d: u64) -> (c: char)
    requires
        d < 10,
    ensures
        c == digit_char(d as nat),
{
    (48u8 + d as u8) as char
}

fn char_to_digit(c: char) -> (d: u64)
    requires
        is_digit(c),
    ensures
        d == digit_value(c),
{
    (c as u32 - '0' as u32) as u64
}

/// Appends `n` in decimal to `out`.
pub fn push_decimal(out: &mut String, n: u64)
    ensures
        final(out)@ == old(out)@ + decimal(n as nat),
    decreases n,
{
    if n >= 10 {
        push_decimal(out, n / 10);
    }
    out.push(digit_to_char(n % 10));
}


/// First index at or behind `i` at which no decimal digit stands.
pub open spec fn digits_end(s: Seq<char>, i: int) -> int
    decreases s.len() - i,
{
    if 0 <= i < s.len() && is_digit(s[i]) {
        digits_end(s, i + 1)
    } else {
        i
    }
}

/// The number that the digits from `from` up to `to` spell.
pub open spec fn digits_value(s: Seq<char>, from: int, to: int) -> nat
    decreases to - from,
{
    if to <= from {
        0
    } else {
        digits_value(s, from, to - 1) * 10 + digit_value(s[to - 1])
    }
}

/// The number that stands at `i`, with the index behind it: the longest run
/// of digits there, if it is not empty, has no leading zero and spells a
/// number of at most `max`.
pub open spec fn number_at(s: Seq<char>, i: int, max: nat) -> Option<(nat, int)> {
    let end = digits_end(s, i);
    if end <= i {
        None
    } else if s[i] == '0' && end > i + 1 {
        None
    } else if digits_value(s, i, end) > max {
        None
    } else {
        Some((digits_value(s, i, end), end))
    }
}

/// No digit stands at `i`: the end of `s`, or another character.
pub open spec fn no_digit_at(s: Seq<char>, i: int) -> bool {
    i == s.len() || (0 <= i < s.len() && !is_digit(s[i]))
}

pub proof fn lemma_digits_end(s: Seq<char>, i: int)
    requires
        0 <= i <= s.len(),
    ensures
        i <= digits_end(s, i) <= s.len(),
        forall|k: int| i <= k < digits_end(s, i) ==> is_digit(#[trigger] s[k]),
        no_digit_at(s, digits_end(s, i)),
    decreases s.len() - i,
{
    if i < s.len() && is_digit(s[i]) {
        lemma_digits_end(s, i + 1);
    }
}

pub proof fn lemma_digits_end_is(s: Seq<char>, i: int, j: int)
    requires
        0 <= i <= j <= s.len(),
        forall|k: int| i <= k < j ==> is_digit(#[trigger] s[k]),
        no_digit_at(s, j),
    ensures
        digits_end(s, i) == j,
    decreases j - i,
{
    if i < j {
        assert(is_digit(s[i]));
        lemma_digits_end_is(s, i + 1, j);
    }
}

pub proof fn lemma_digits_value_grows(s: Seq<char>, from: int, mid: int, to: int)
    requires
        from <= mid <= to,
    ensures
        digits_value(s, from, mid) <= digits_value(s, from, to),
    decreases to - mid,
{
    if mid < to {
        lemma_digits_value_grows(s, from, mid, to - 1);
    }
}

/// What `decimal` writes: at least one digit, digits only, and a leading
/// zero only for zero itself.
pub proof fn lemma_decimal_shape(n: nat)
    ensures
        decimal(n).len() >= 1,
        forall|k: int| 0 <= k < decimal(n).len() ==> is_digit(#[trigger] decimal(n)[k]),
        decimal(n)[0] == '0' ==> n == 0,
        n < 10 ==> decimal(n).len() == 1,
    decreases n,
{
    if n >= 10 {
        lemma_decimal_shape(n / 10);
    }
}

/// Reading back what `decimal` wrote gives the number.
pub proof fn lemma_decimal_value(s: Seq<char>, i: int, n: nat)
    requires
        occurs_at(s, i, decimal(n)),
    ensures
        digits_value(s, i, i + decimal(n).len()) == n,
    decreases n,
{
    let d = decimal(n);
    lemma_occurs_index(s, i, d);
    if n < 10 {
        assert(digits_value(s, i, i) == 0);
        assert(s[i] == d[0]);
    } else {
        let head = decimal(n / 10);
        let last = seq![digit_char(n % 10)];
        assert(d =~= head + last);
        lemma_occurs_concat(s, i, head, last);
        lemma_decimal_value(s, i, n / 10);
        assert(s[i + d.len() - 1] == d[d.len() - 1]);
    }
}

/// Writing the number that digits without a leading zero spell gives the
/// digits back.
pub proof fn lemma_digits_decimal(s: Seq<char>, from: int, to: int)
    requires
        0 <= from < to <= s.len(),
        forall|k: int| from <= k < to ==> is_digit(#[trigger] s[k]),
        s[from] != '0' || to == from + 1,
    ensures
        s.subrange(from, to) == decimal(digits_value(s, from, to)),
        to > from + 1 ==> digits_value(s, from, to) >= 10,
        s[from] != '0' ==> digits_value(s, from, to) >= 1,
    decreases to - from,
{
    let v = digits_value(s, from, to);
    assert(is_digit(s[to - 1]));
    if to == from + 1 {
        assert(digits_value(s, from, from) == 0);
        assert(s.subrange(from, to) =~= seq![s[from]]);
    } else {
        lemma_digits_decimal(s, from, to - 1);
        let head = digits_value(s, from, to - 1);
        assert(v == head * 10 + digit_value(s[to - 1]));
        assert(v / 10 == head);
        assert(v % 10 == digit_value(s[to - 1]));
        assert(s.subrange(from, to) =~= s.subrange(from, to - 1).push(s[to - 1]));
    }
}

/// Where `part` stands at `i`, its characters are those of `s` from `i` on.
pub proof fn lemma_occurs_index(s: Seq<char>, i: int, part: Seq<char>)
    requires
        occurs_at(s, i, part),
    ensures
        forall|k: int| 0 <= k < part.len() ==> #[trigger] s[i + k] == part[k],
{
    assert forall|k: int| 0 <= k < part.len() implies #[trigger] s[i + k] == part[k] by {
        assert(s.subrange(i, i + part.len())[k] == part[k]);
    }
}

/// A number written by `decimal` and followed by no digit is read back.
pub proof fn lemma_number_written(s: Seq<char>, i: int, n: nat, max: nat)
    requires
        occurs_at(s, i, decimal(n)),
        no_digit_at(s, i + decimal(n).len()),
        n <= max,
    ensures
        number_at(s, i, max) == Some((n, i + decimal(n).len())),
{
    let d = decimal(n);
    lemma_decimal_shape(n);
    lemma_occurs_index(s, i, d);
    assert forall|k: int| i <= k < i + d.len() implies is_digit(#[trigger] s[k]) by {
        assert(s[i + (k - i)] == d[k - i]);
    }
    lemma_digits_end_is(s, i, i + d.len());
    lemma_decimal_value(s, i, n);
    assert(s[i + 0] == d[0]);
}

/// A number that is read was written by `decimal`, and no digit follows it.
pub proof fn lemma_number_read(s: Seq<char>, i: int, max: nat)
    requires
        0 <= i <= s.len(),
        number_at(s, i, max) is Some,
    ensures
        ({
            let (n, end) = number_at(s, i, max)->0;
            &&& occurs_at(s, i, decimal(n))
            &&& end == i + decimal(n).len()
            &&& n <= max
            &&& no_digit_at(s, end)
        }),
{
    lemma_digits_end(s, i);
    lemma_digits_decimal(s, i, digits_end(s, i));
}

/// Reads the decimal number of at most `max` that stands at `i`.
pub fn parse_number(s: &Vec<char>, i: usize, max: u64) -> (found: Option<(u64, usize)>)
    requires
        i <= s.len(),
    ensures
        match found {
            Some((n, end)) => {
                &&& number_at(s@, i as int, max as nat) == Some((n as nat, end as int))
                &&& i < end <= s.len()
                &&& n <= max
            },
            None => number_at(s@, i as int, max as nat) is None,
        },
{
    let mut end: usize = i;
    while end < s.len() && is_digit_char(s[end])
        invariant
            i <= end <= s.len(),
            digits_end(s@, i as int) == digits_end(s@, end as int),
        decreases s.len() - end,
    {
        end += 1;
    }
    if end == i {
        return None;
    }
    if s[i] == '0' && end > i + 1 {
        return None;
    }
    proof {
        lemma_digits_end(s@, i as int);
    }
    let mut value: u64 = 0;
    let mut j: usize = i;
    while j < end
        invariant
            i <= j <= end <= s.len(),
            end == digits_end(s@, i as int),
            forall|k: int| i <= k < end ==> is_digit(#[trigger] s@[k]),
            value == digits_value(s@, i as int, j as int),
            value <= max,
        decreases end - j,
    {
        let d = char_to_digit(s[j]);
        if d > max || value > (max - d) / 10 {
            proof {
                lemma_digits_value_grows(s@, i as int, j + 1, end as int);
            }
            return None;
        }
        value = value * 10 + d;
        j += 1;
    }
    Some((value, end))
}

fn is_digit_char(c: char) -> (b: bool)
    ensures
        b == is_digit(c),
{
    '0' <= c && c <= '9'
}


/// Characters below the space: they never stand unescaped in a frame.
pub open spec fn is_control(c: char) -> bool {
    c < ' '
}

/// The control characters that have a two-character escape of their own.
pub open spec fn has_short_escape(c: char) -> bool {
    c == '\u{8}' || c == '\t' || c == '\n' || c == '\u{c}' || c == '\r'
}

/// The lower-case hexadecimal digit that stands for `d`, for `d` below sixteen.
pub open spec fn hex_char(d: nat) -> char {
    if d < 10 {
        (d + '0' as int) as char
    } else {
        (d - 10 + 'a' as int) as char
    }
}

/// The lower-case hexadecimal digits.
pub open spec fn is_hex(c: char) -> bool {
    is_digit(c) || 'a' <= c <= 'f'
}

/// The number that a lower-case hexadecimal digit stands for.
pub open spec fn hex_value(c: char) -> nat {
    if is_digit(c) {
        (c as int - '0' as int) as nat
    } else {
        (c as int - 'a' as int + 10) as nat
    }
}

/// How one character of a text is written between the quotes of a frame.
///
/// The quote and the backslash get a backslash in front. Backspace, tab, line
/// feed, form feed and carriage return are written `\b`, `\t`, `\n`, `\f` and
/// `\r`; the other characters below the space are written `\u00` and two
/// lower-case hexadecimal digits. Every other character stands for itself.
pub open spec fn escape_char(c: char) -> Seq<char> {
    if c == '"' {
        seq!['\\', '"']
    } else if c == '\\' {
        seq!['\\', '\\']
    } else if c == '\u{8}' {
        seq!['\\', 'b']
    } else if c == '\t' {
        seq!['\\', 't']
    } else if c == '\n' {
        seq!['\\', 'n']
    } else if c == '\u{c}' {
        seq!['\\', 'f']
    } else if c == '\r' {
        seq!['\\', 'r']
    } else if is_control(c) {
        seq!['\\', 'u', '0', '0', hex_char(c as nat / 16), hex_char(c as nat % 16)]
    } else {
        seq![c]
    }
}

/// A text as it is written between the quotes of a frame.
pub open spec fn escape(text: Seq<char>) -> Seq<char>
    decreases text.len(),
{
    if text.len() == 0 {
        Seq::empty()
    } else {
        escape(text.drop_last()) + escape_char(text.last())
    }
}

/// The character whose escape stands at `i`, with the index behind it.
pub open spec fn unescape_at(s: Seq<char>, i: int) -> Option<(char, int)> {
    if !(0 <= i < s.len()) {
        None
    } else if s[i] == '"' {
        None
    } else if s[i] != '\\' {
        if is_control(s[i]) {
            None
        } else {
            Some((s[i], i + 1))
        }
    } else if i + 1 >= s.len() {
        None
    } else if s[i + 1] == '"' {
        Some(('"', i + 2))
    } else if s[i + 1] == '\\' {
        Some(('\\', i + 2))
    } else if s[i + 1] == 'b' {
        Some(('\u{8}', i + 2))
    } else if s[i + 1] == 't' {
        Some(('\t', i + 2))
    } else if s[i + 1] == 'n' {
        Some(('\n', i + 2))
    } else if s[i + 1] == 'f' {
        Some(('\u{c}', i + 2))
    } else if s[i + 1] == 'r' {
        Some(('\r', i + 2))
    } else if s[i + 1] == 'u' && i + 5 < s.len() && s[i + 2] == '0' && s[i + 3] == '0' && is_hex(
        s[i + 4],
    ) && is_hex(s[i + 5]) {
        let code = hex_value(s[i + 4]) * 16 + hex_value(s[i + 5]);
        if code < 0x20 && !has_short_escape(code as char) {
            Some((code as char, i + 6))
        } else {
            None
        }
    } else {
        None
    }
}

/// The text whose escaped form stands at `i` and is closed by a quote, with
/// the index behind that quote. `acc` holds the characters read so far.
pub open spec fn text_at(s: Seq<char>, i: int, acc: Seq<char>) -> Option<(Seq<char>, int)>
    decreases s.len() - i,
{
    if !(0 <= i < s.len()) {
        None
    } else if s[i] == '"' {
        Some((acc, i + 1))
    } else {
        match unescape_at(s, i) {
            Some((c, next)) => text_at(s, next, acc.push(c)),
            None => None,
        }
    }
}

/// An escape that is read is the escape of the character it gives.
pub proof fn lemma_unescape_read(s: Seq<char>, i: int)
    requires
        unescape_at(s, i) is Some,
    ensures
        ({
            let (c, next) = unescape_at(s, i)->0;
            &&& occurs_at(s, i, escape_char(c))
            &&& next == i + escape_char(c).len()
        }),
{
    let (c, next) = unescape_at(s, i)->0;
    let e = escape_char(c);
    assert(s.subrange(i, i + e.len()) =~= e);
}

/// The escape of a character is read back as that character.
pub proof fn lemma_unescape_written(s: Seq<char>, i: int, c: char)
    requires
        occurs_at(s, i, escape_char(c)),
    ensures
        unescape_at(s, i) == Some((c, i + escape_char(c).len())),
{
    let e = escape_char(c);
    lemma_occurs_index(s, i, e);
    assert(s[i + 0] == e[0]);
    if e.len() >= 2 {
        assert(s[i + 1] == e[1]);
    }
    if e.len() == 6 {
        assert(s[i + 2] == e[2]);
        assert(s[i + 3] == e[3]);
        assert(s[i + 4] == e[4]);
        assert(s[i + 5] == e[5]);
    }
}

/// The escaped form of a text of one character is the escape of that
/// character.
pub proof fn lemma_escape_single(c: char)
    ensures
        escape(seq![c]) == escape_char(c),
{
    let one = seq![c];
    assert(one.drop_last() =~= Seq::<char>::empty());
    assert(escape(Seq::<char>::empty()) =~= Seq::<char>::empty());
    assert(escape(one) =~= escape(one.drop_last()) + escape_char(one.last()));
    assert(escape(one) =~= escape_char(c));
}

/// The escaped form of a concatenation is the concatenation of the escaped
/// forms.
pub proof fn lemma_escape_concat(a: Seq<char>, b: Seq<char>)
    ensures
        escape(a + b) == escape(a) + escape(b),
    decreases b.len(),
{
    if b.len() == 0 {
        assert(a + b =~= a);
        assert(escape(a) + escape(b) =~= escape(a));
    } else {
        lemma_escape_concat(a, b.drop_last());
        assert((a + b).drop_last() =~= a + b.drop_last());
        assert((a + b).last() == b.last());
        assert(escape(a + b) =~= escape(a) + escape(b));
    }
}

/// The escaped form never holds a bare quote, so the closing quote of a text
/// is the first one that no backslash announces.
pub proof fn lemma_text_written(s: Seq<char>, i: int, acc: Seq<char>, text: Seq<char>)
    requires
        occurs_at(s, i, escape(text) + seq!['"']),
    ensures
        text_at(s, i, acc) == Some((acc + text, i + escape(text).len() + 1)),
    decreases text.len(),
{
    let quote = seq!['"'];
    lemma_occurs_concat(s, i, escape(text), quote);
    if text.len() == 0 {
        lemma_occurs_index(s, i, quote);
        assert(s[i + 0] == quote[0]);
        assert(acc + text =~= acc);
    } else {
        let c = text[0];
        let rest = text.skip(1);
        assert(text =~= seq![c] + rest);
        lemma_escape_concat(seq![c], rest);
        lemma_escape_single(c);
        assert(escape(text) + quote =~= escape_char(c) + (escape(rest) + quote));
        lemma_occurs_concat(s, i, escape_char(c), escape(rest) + quote);
        lemma_unescape_written(s, i, c);
        lemma_occurs_index(s, i, escape_char(c));
        assert(s[i + 0] == escape_char(c)[0]);
        lemma_text_written(s, i + escape_char(c).len(), acc.push(c), rest);
        assert(acc.push(c) + rest =~= acc + text);
    }
}

/// A text that is read stands there in escaped form, closed by a quote.
pub proof fn lemma_text_read(s: Seq<char>, i: int, acc: Seq<char>)
    requires
        text_at(s, i, acc) is Some,
    ensures
        ({
            let (text, end) = text_at(s, i, acc)->0;
            let tail = text.skip(acc.len() as int);
            &&& acc.len() <= text.len()
            &&& text == acc + tail
            &&& occurs_at(s, i, escape(tail) + seq!['"'])
            &&& end == i + escape(tail).len() + 1
        }),
    decreases s.len() - i,
{
    let (text, end) = text_at(s, i, acc)->0;
    let quote = seq!['"'];
    if s[i] == '"' {
        let tail = text.skip(acc.len() as int);
        assert(tail =~= Seq::<char>::empty());
        assert(text =~= acc + tail);
        assert(escape(tail) + quote =~= quote);
        assert(s.subrange(i, i + 1) =~= quote);
    } else {
        let (c, next) = unescape_at(s, i)->0;
        lemma_unescape_read(s, i);
        lemma_text_read(s, next, acc.push(c));
        let tail = text.skip(acc.len() as int);
        let rest = text.skip(acc.len() as int + 1);
        assert(text =~= acc + tail);
        assert(tail =~= seq![c] + rest);
        lemma_escape_concat(seq![c], rest);
        lemma_escape_single(c);
        assert(escape(tail) + quote =~= escape_char(c) + (escape(rest) + quote));
        lemma_occurs_concat(s, i, escape_char(c), escape(rest) + quote);
    }
}


fn is_control_char(c: char) -> (b: bool)
    ensures
        b == is_control(c),
{
    ' ' > c
}

fn hex_digit(d: u8) -> (c: char)
    requires
        d < 16,
    ensures
        c == hex_char(d as nat),
{
    if d < 10 {
        (48u8 + d) as char
    } else {
        (87u8 + d) as char
    }
}

fn hex_digit_value(c: char) -> (value: Option<u8>)
    ensures
        match value {
            Some(d) => is_hex(c) && d == hex_value(c),
            None => !is_hex(c),
        },
{
    if '0' <= c && c <= '9' {
        Some((c as u32 - '0' as u32) as u8)
    } else if 'a' <= c && c <= 'f' {
        Some((c as u32 - 'a' as u32 + 10) as u8)
    } else {
        None
    }
}

fn push_escaped_char(out: &mut String, c: char)
    ensures
        final(out)@ == old(out)@ + escape_char(c),
{
    let ghost before = out@;
    if c == '"' {
        out.push('\\');
        out.push('"');
    } else if c == '\\' {
        out.push('\\');
        out.push('\\');
    } else if c == '\u{8}' {
        out.push('\\');
        out.push('b');
    } else if c == '\t' {
        out.push('\\');
        out.push('t');
    } else if c == '\n' {
        out.push('\\');
        out.push('n');
    } else if c == '\u{c}' {
        out.push('\\');
        out.push('f');
    } else if c == '\r' {
        out.push('\\');
        out.push('r');
    } else if is_control_char(c) {
        let code = c as u32 as u8;
        out.push('\\');
        out.push('u');
        out.push('0');
        out.push('0');
        out.push(hex_digit(code / 16));
        out.push(hex_digit(code % 16));
    } else {
        out.push(c);
    }
    assert(out@ =~= before + escape_char(c));
}

/// Appends `text` to `out` in the form it has between the quotes of a frame.
pub fn push_escaped(out: &mut String, text: &str)
    ensures
        final(out)@ == old(out)@ + escape(text@),
{
    let ghost before = out@;
    assert(escape(text@.take(0)) =~= Seq::<char>::empty());
    assert(out@ =~= before + escape(text@.take(0)));
    for c in it: text.chars()
        invariant
            it.seq() == text@,
            out@ == before + escape(text@.take(it.index() as int)),
    {
        let ghost done = text@.take(it.index() as int);
        let ghost more = text@.take(it.index() + 1);
        push_escaped_char(out, c);
        proof {
            assert(more.drop_last() =~= done);
            assert(more.last() == c);
            assert(out@ =~= before + escape(more));
        }
    }
    assert(text@.take(text@.len() as int) =~= text@);
}

fn unescape(s: &Vec<char>, i: usize) -> (found: Option<(char, usize)>)
    requires
        i < s.len(),
    ensures
        match found {
            Some((c, next)) => unescape_at(s@, i as int) == Some((c, next as int)),
            None => unescape_at(s@, i as int) is None,
        },
{
    let first = s[i];
    if first == '"' {
        return None;
    }
    if first != '\\' {
        if is_control_char(first) {
            return None;
        }
        return Some((first, i + 1));
    }
    if s.len() - i < 2 {
        return None;
    }
    let second = s[i + 1];
    if second == '"' {
        Some(('"', i + 2))
    } else if second == '\\' {
        Some(('\\', i + 2))
    } else if second == 'b' {
        Some(('\u{8}', i + 2))
    } else if second == 't' {
        Some(('\t', i + 2))
    } else if second == 'n' {
        Some(('\n', i + 2))
    } else if second == 'f' {
        Some(('\u{c}', i + 2))
    } else if second == 'r' {
        Some(('\r', i + 2))
    } else if second == 'u' && s.len() - i > 5 && s[i + 2] == '0' && s[i + 3] == '0' {
        match (hex_digit_value(s[i + 4]), hex_digit_value(s[i + 5])) {
            (Some(high), Some(low)) => {
                if high < 2 {
                    let code: u8 = high * 16 + low;
                    let c = code as char;
                    if c == '\u{8}' || c == '\t' || c == '\n' || c == '\u{c}' || c == '\r' {
                        None
                    } else {
                        Some((c, i + 6))
                    }
                } else {
                    None
                }
            },
            _ => None,
        }
    } else {
        None
    }
}

/// Reads the text that stands at `i` in escaped form, up to the quote that
/// closes it.
pub fn parse_text(s: &Vec<char>, i: usize) -> (found: Option<(String, usize)>)
    requires
        i <= s.len(),
    ensures
        match found {
            Some((text, end)) => {
                &&& text_at(s@, i as int, Seq::empty()) == Some((text@, end as int))
                &&& i < end <= s.len()
            },
            None => text_at(s@, i as int, Seq::empty()) is None,
        },
{
    let mut text = String::new();
    let mut j: usize = i;
    loop
        invariant
            i <= j <= s.len(),
            text_at(s@, i as int, Seq::empty()) == text_at(s@, j as int, text@),
        decreases s.len() - j,
    {
        if j >= s.len() {
            return None;
        }
        if s[j] == '"' {
            return Some((text, j + 1));
        }
        match unescape(s, j) {
            Some((c, next)) => {
                text.push(c);
                j = next;
            },
            None => {
                return None;
            },
        }
    }
}


/// The characters of `text`, one by one.
pub fn characters(text: &str) -> (chars: Vec<char>)
    ensures
        chars@ == text@,
{
    let mut chars: Vec<char> = Vec::new();
    for c in it: text.chars()
        invariant
            it.seq() == text@,
            chars@ == text@.take(it.index() as int),
    {
        chars.push(c);
    }
    chars
}

} // verus!
