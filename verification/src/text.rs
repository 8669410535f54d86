//! Character-level building blocks of the wire formats: splitting on a
//! separator, decimal numbers in both directions, and the escaping of reply
//! content. Everything is stated over `Seq<char>`, the view of a string.

use vstd::prelude::*;

verus! {

/// `String::push` of the standard library: the character is appended to the
/// end of the string and nothing else changes.
pub assume_specification[ String::push ](s: &mut String, c: char)
    ensures
        final(s)@ == old(s)@.push(c),
;

/// The characters of a string, in order.
pub fn to_chars(s: &str) -> (chars: Vec<char>)
    ensures
        chars@ == s@,
{
    let mut chars: Vec<char> = Vec::new();
    for c in it: s.chars()
        invariant
            it.seq() == s@,
            chars@ == s@.take(it.index()),
    {
        broadcast use vstd::string::group_string_axioms;

        chars.push(c);
    }
    chars
}

/// The string made of the given characters.
pub fn from_chars(chars: &Vec<char>) -> (s: String)
    ensures
        s@ == chars@,
{
    let mut s = String::new();
    let mut i: usize = 0;
    while i < chars.len()
        invariant
            i <= chars.len(),
            s@ == chars@.take(i as int),
        decreases chars.len() - i,
    {
        s.push(chars[i]);
        i += 1;
    }
    s
}

/// Whether two character vectors hold the same text.
pub fn same_text(a: &Vec<char>, b: &Vec<char>) -> (same: bool)
    ensures
        same == (a@ == b@),
{
    if a.len() != b.len() {
        return false;
    }
    let mut i: usize = 0;
    while i < a.len()
        invariant
            i <= a.len(),
            a.len() == b.len(),
            a@.take(i as int) == b@.take(i as int),
        decreases a.len() - i,
    {
        if a[i] != b[i] {
            return false;
        }
        assert(a@.take(i + 1) == a@.take(i as int).push(a@[i as int]));
        assert(b@.take(i + 1) == b@.take(i as int).push(b@[i as int]));
        i += 1;
    }
    assert(a@ == a@.take(a.len() as int));
    assert(b@ == b@.take(b.len() as int));
    true
}

/// Whether the characters spell exactly the given word.
pub fn spells(chars: &Vec<char>, word: &str) -> (same: bool)
    ensures
        same == (chars@ == word@),
{
    let expected = to_chars(word);
    same_text(chars, &expected)
}

/// The views of a vector of fields.
pub open spec fn field_views(fields: Seq<Vec<char>>) -> Seq<Seq<char>> {
    Seq::new(fields.len(), |i: int| fields[i]@)
}

/// The fields of `s` when it is cut at every occurrence of `sep`. There is
/// always at least one field; a separator at either end, or two in a row,
/// gives an empty field.
pub open spec fn split(s: Seq<char>, sep: char) -> Seq<Seq<char>>
    decreases s.len(),
{
    if s.len() == 0 {
        seq![Seq::<char>::empty()]
    } else {
        let before = split(s.drop_last(), sep);
        if s.last() == sep {
            before.push(Seq::<char>::empty())
        } else {
            before.drop_last().push(before.last().push(s.last()))
        }
    }
}

/// Cuts the text at every occurrence of `sep`.
pub fn split_fields(s: &Vec<char>, sep: char) -> (fields: Vec<Vec<char>>)
    ensures
        field_views(fields@) == split(s@, sep),
        fields.len() >= 1,
{
    let mut fields: Vec<Vec<char>> = Vec::new();
    let mut current: Vec<char> = Vec::new();
    let mut i: usize = 0;
    while i < s.len()
        invariant
            i <= s.len(),
            field_views(fields@).push(current@) == split(s@.take(i as int), sep),
        decreases s.len() - i,
    {
        let c = s[i];
        proof {
            let upto = s@.take(i + 1);
            assert(upto.drop_last() == s@.take(i as int));
            assert(upto.last() == c);
        }
        if c == sep {
            let ghost before = field_views(fields@).push(current@);
            fields.push(current);
            current = Vec::new();
            assert(field_views(fields@) == before);
        } else {
            let ghost before = field_views(fields@).push(current@);
            current.push(c);
            assert(field_views(fields@).push(current@) == before.drop_last().push(
                before.last().push(c),
            ));
        }
        i += 1;
    }
    assert(s@.take(s.len() as int) == s@);
    let ghost all = field_views(fields@).push(current@);
    fields.push(current);
    assert(field_views(fields@) == all);
    fields
}

/// Whether the character is one of the ten ASCII digits.
pub open spec fn is_digit(c: char) -> bool {
    '0' <= c <= '9'
}

/// The value of an ASCII digit.
pub open spec fn digit_value(c: char) -> int {
    c as int - '0' as int
}

/// Whether every character is an ASCII digit.
pub open spec fn all_digits(s: Seq<char>) -> bool {
    forall|i: int| 0 <= i < s.len() ==> is_digit(#[trigger] s[i])
}

/// The number that a run of digits writes in base ten.
pub open spec fn digits_value(s: Seq<char>) -> int
    decreases s.len(),
{
    if s.len() == 0 {
        0
    } else {
        digits_value(s.drop_last()) * 10 + digit_value(s.last())
    }
}

/// The integer written by `s`: an optional sign followed by at least one
/// digit and nothing else. There is no limit on the size here.
pub open spec fn parse_decimal(s: Seq<char>) -> Option<int> {
    if s.len() > 0 && (s[0] == '-' || s[0] == '+') {
        let digits = s.skip(1);
        if digits.len() > 0 && all_digits(digits) {
            if s[0] == '-' {
                Some(-digits_value(digits))
            } else {
                Some(digits_value(digits))
            }
        } else {
            None
        }
    } else if s.len() > 0 && all_digits(s) {
        Some(digits_value(s))
    } else {
        None
    }
}

/// The signed 64-bit integer written by `s`, if it writes one that fits.
pub open spec fn parse_i64_spec(s: Seq<char>) -> Option<i64> {
    match parse_decimal(s) {
        Some(v) => if i64::MIN <= v <= i64::MAX {
            Some(v as i64)
        } else {
            None
        },
        None => None,
    }
}

/// The unsigned 32-bit integer written by `s`, if it writes one that fits.
/// A minus sign is never accepted, not even before zero.
pub open spec fn parse_u32_spec(s: Seq<char>) -> Option<u32> {
    if s.len() > 0 && s[0] == '-' {
        None
    } else {
        match parse_decimal(s) {
            Some(v) => if 0 <= v <= u32::MAX {
                Some(v as u32)
            } else {
                None
            },
            None => None,
        }
    }
}

/// A run of digits writes a number that is not negative and does not shrink
/// when another digit follows.
pub proof fn lemma_digits_value_grows(s: Seq<char>)
    requires
        all_digits(s),
    ensures
        digits_value(s) >= 0,
        s.len() > 0 ==> digits_value(s) >= digits_value(s.drop_last()),
    decreases s.len(),
{
    if s.len() > 0 {
        lemma_digits_value_grows(s.drop_last());
    }
}

/// The largest magnitude that a signed 64-bit integer can have.
pub const MAGNITUDE_LIMIT: u128 = 9223372036854775808;

/// Reads a run of digits. The result is `None` when a character is not a
/// digit or the run is empty; beyond `MAGNITUDE_LIMIT` the value is reported
/// as `MAGNITUDE_LIMIT + 1`.
fn read_digits(s: &Vec<char>, from: usize) -> (value: Option<u128>)
    requires
        from <= s.len(),
    ensures
        value is Some <==> from < s.len() && all_digits(s@.skip(from as int)),
        value matches Some(v) ==> {
            let exact = digits_value(s@.skip(from as int));
            if exact <= MAGNITUDE_LIMIT {
                v == exact
            } else {
                v == MAGNITUDE_LIMIT + 1
            }
        },
{
    if from >= s.len() {
        return None;
    }
    let ghost digits = s@.skip(from as int);
    let mut value: u128 = 0;
    let mut i: usize = from;
    while i < s.len()
        invariant
            from <= i <= s.len(),
            digits == s@.skip(from as int),
            all_digits(digits.take(i - from)),
            digits_value(digits.take(i - from)) <= MAGNITUDE_LIMIT ==> value == digits_value(
                digits.take(i - from),
            ),
            digits_value(digits.take(i - from)) > MAGNITUDE_LIMIT ==> value == MAGNITUDE_LIMIT + 1,
        decreases s.len() - i,
    {
        let c = s[i];
        proof {
            let upto = digits.take(i + 1 - from);
            assert(upto.drop_last() == digits.take(i - from));
            assert(upto.last() == c);
        }
        if !(c >= '0' && c <= '9') {
            assert(!is_digit(digits[i - from]));
            return None;
        }
        proof {
            let upto = digits.take(i + 1 - from);
            assert forall|k: int| 0 <= k < upto.len() implies is_digit(#[trigger] upto[k]) by {
                if k < i - from {
                    assert(upto[k] == digits.take(i - from)[k]);
                }
            }
            lemma_digits_value_grows(upto);
        }
        if value <= MAGNITUDE_LIMIT {
            value = value * 10 + (c as u128 - '0' as u128);
            if value > MAGNITUDE_LIMIT {
                value = MAGNITUDE_LIMIT + 1;
            }
        }
        i += 1;
    }
    assert(digits.take(s.len() - from) == digits);
    Some(value)
}

/// Reads a signed 64-bit integer in base ten.
pub fn parse_i64(s: &Vec<char>) -> (value: Option<i64>)
    ensures
        value == parse_i64_spec(s@),
{
    if s.len() == 0 {
        return None;
    }
    let signed = s[0] == '-' || s[0] == '+';
    let from: usize = if signed { 1 } else { 0 };
    assert(s@.skip(0) == s@);
    match read_digits(s, from) {
        None => None,
        Some(magnitude) => {
            if s[0] == '-' {
                if magnitude <= MAGNITUDE_LIMIT {
                    if magnitude == MAGNITUDE_LIMIT {
                        Some(i64::MIN)
                    } else {
                        Some(-(magnitude as i64))
                    }
                } else {
                    None
                }
            } else if magnitude < MAGNITUDE_LIMIT {
                Some(magnitude as i64)
            } else {
                None
            }
        },
    }
}

/// Reads an unsigned 32-bit integer in base ten.
pub fn parse_u32(s: &Vec<char>) -> (value: Option<u32>)
    ensures
        value == parse_u32_spec(s@),
{
    if s.len() == 0 || s[0] == '-' {
        return None;
    }
    let from: usize = if s[0] == '+' { 1 } else { 0 };
    assert(s@.skip(0) == s@);
    match read_digits(s, from) {
        None => None,
        Some(magnitude) => {
            if magnitude <= 4294967295 {
                Some(magnitude as u32)
            } else {
                None
            }
        },
    }
}

/// The ASCII digit of a value below ten.
pub open spec fn digit_char(d: int) -> char {
    ('0' as int + d) as char
}

/// The shortest decimal writing of a natural number.
pub open spec fn natural_text(n: nat) -> Seq<char>
    decreases n,
{
    if n < 10 {
        seq![digit_char(n as int)]
    } else {
        natural_text(n / 10).push(digit_char((n % 10) as int))
    }
}

/// The shortest decimal writing of an integer, with a minus sign before a
/// negative one.
pub open spec fn integer_text(n: int) -> Seq<char> {
    if n < 0 {
        seq!['-'] + natural_text((-n) as nat)
    } else {
        natural_text(n as nat)
    }
}

/// The writing of a natural number is a run of digits that writes it.
pub proof fn lemma_natural_text_reads_back(n: nat)
    ensures
        natural_text(n).len() > 0,
        all_digits(natural_text(n)),
        digits_value(natural_text(n)) == n,
    decreases n,
{
    if n < 10 {
        let t = natural_text(n);
        assert(t.drop_last() == Seq::<char>::empty());
        assert(digits_value(t.drop_last()) == 0);
    } else {
        lemma_natural_text_reads_back(n / 10);
        let t = natural_text(n);
        assert(t.drop_last() == natural_text(n / 10));
    }
}

/// Reading the writing of an integer gives the integer back.
pub proof fn lemma_integer_text_reads_back(n: int)
    ensures
        parse_decimal(integer_text(n)) == Some(n),
{
    if n < 0 {
        lemma_natural_text_reads_back((-n) as nat);
        assert(integer_text(n).skip(1) == natural_text((-n) as nat));
    } else {
        lemma_natural_text_reads_back(n as nat);
    }
}

/// Appends the decimal writing of `n`.
fn push_natural(out: &mut Vec<char>, n: u64)
    ensures
        final(out)@ == old(out)@ + natural_text(n as nat),
    decreases n,
{
    if n >= 10 {
        push_natural(out, n / 10);
    }
    let d: u8 = (n % 10) as u8;
    out.push((48u8 + d) as char);
}

/// Appends the decimal writing of `n`.
pub fn push_integer(out: &mut Vec<char>, n: i64)
    ensures
        final(out)@ == old(out)@ + integer_text(n as int),
{
    if n < 0 {
        out.push('-');
        let magnitude: u64 = if n == i64::MIN {
            9223372036854775808
        } else {
            (-n) as u64
        };
        push_natural(out, magnitude);
        assert(out@ == old(out)@ + (seq!['-'] + natural_text(magnitude as nat)));
    } else {
        push_natural(out, n as u64);
    }
}

/// What stands for one character in escaped content: a backslash before a
/// backslash, a comma or a colon, backslash and `n` for a line feed, and the
/// character itself otherwise.
pub open spec fn escape_char(c: char) -> Seq<char> {
    if c == '\\' {
        seq!['\\', '\\']
    } else if c == ',' {
        seq!['\\', ',']
    } else if c == ':' {
        seq!['\\', ':']
    } else if c == '\n' {
        seq!['\\', 'n']
    } else {
        seq![c]
    }
}

/// The content with every character escaped.
pub open spec fn escape(s: Seq<char>) -> Seq<char>
    decreases s.len(),
{
    if s.len() == 0 {
        Seq::<char>::empty()
    } else {
        escape(s.drop_last()) + escape_char(s.last())
    }
}

/// The character that follows a backslash stands for a line feed if it is
/// `n`, and for itself otherwise.
pub open spec fn unescape_char(c: char) -> char {
    if c == 'n' {
        '\n'
    } else {
        c
    }
}

/// The content that an escaped text stands for.
pub open spec fn unescape(s: Seq<char>) -> Seq<char>
    decreases s.len(),
{
    if s.len() == 0 {
        Seq::<char>::empty()
    } else if s[0] == '\\' && s.len() >= 2 {
        seq![unescape_char(s[1])] + unescape(s.skip(2))
    } else {
        seq![s[0]] + unescape(s.skip(1))
    }
}

/// Escaping goes through a concatenation.
pub proof fn lemma_escape_concat(a: Seq<char>, b: Seq<char>)
    ensures
        escape(a + b) == escape(a) + escape(b),
    decreases b.len(),
{
    if b.len() == 0 {
        assert(a + b == a);
    } else {
        lemma_escape_concat(a, b.drop_last());
        assert((a + b).drop_last() == a + b.drop_last());
    }
}

/// Escaping loses nothing: unescaping escaped content gives the content.
pub proof fn lemma_unescape_escape(s: Seq<char>)
    ensures
        unescape(escape(s)) == s,
    decreases s.len(),
{
    if s.len() > 0 {
        let c = s[0];
        let rest = s.skip(1);
        assert(s == seq![c] + rest);
        lemma_escape_concat(seq![c], rest);
        assert(seq![c].drop_last() == Seq::<char>::empty());
        assert(escape(Seq::<char>::empty()) == Seq::<char>::empty());
        assert(escape(seq![c]) == Seq::<char>::empty() + escape_char(c));
        assert(escape(seq![c]) == escape_char(c));
        lemma_unescape_escape(rest);
        let e = escape_char(c) + escape(rest);
        if e[0] == '\\' && e.len() >= 2 && escape_char(c).len() == 2 {
            assert(e.skip(2) == escape(rest));
        } else {
            assert(e.skip(1) == escape(rest));
        }
    }
}

/// Escapes reply content.
pub fn escape_content(content: &Vec<char>) -> (escaped: Vec<char>)
    ensures
        escaped@ == escape(content@),
{
    let mut escaped: Vec<char> = Vec::new();
    let mut i: usize = 0;
    while i < content.len()
        invariant
            i <= content.len(),
            escaped@ == escape(content@.take(i as int)),
        decreases content.len() - i,
    {
        let c = content[i];
        proof {
            let upto = content@.take(i + 1);
            assert(upto.drop_last() == content@.take(i as int));
            assert(upto.last() == c);
        }
        if c == '\\' || c == ',' || c == ':' {
            escaped.push('\\');
            escaped.push(c);
        } else if c == '\n' {
            escaped.push('\\');
            escaped.push('n');
        } else {
            escaped.push(c);
        }
        i += 1;
    }
    assert(content@.take(content.len() as int) == content@);
    escaped
}

/// Whether the separator occurs nowhere in the text.
pub open spec fn free_of(s: Seq<char>, sep: char) -> bool {
    forall|i: int| 0 <= i < s.len() ==> #[trigger] s[i] != sep
}

/// A text without the separator is one field.
pub proof fn lemma_split_plain(t: Seq<char>, sep: char)
    requires
        free_of(t, sep),
    ensures
        split(t, sep) == seq![t],
    decreases t.len(),
{
    if t.len() > 0 {
        lemma_split_plain(t.drop_last(), sep);
        assert(t.drop_last().push(t.last()) == t);
        assert(seq![t.drop_last()].drop_last().push(t) == seq![t]);
    } else {
        assert(t == Seq::<char>::empty());
    }
}

/// A separator and a text without it add one field to a split.
pub proof fn lemma_split_field(s: Seq<char>, t: Seq<char>, sep: char)
    requires
        free_of(t, sep),
    ensures
        split(s.push(sep) + t, sep) == split(s, sep).push(t),
    decreases t.len(),
{
    let all = s.push(sep) + t;
    if t.len() == 0 {
        assert(all == s.push(sep));
        assert(all.drop_last() == s);
        assert(t == Seq::<char>::empty());
    } else {
        lemma_split_field(s, t.drop_last(), sep);
        assert(all.drop_last() == s.push(sep) + t.drop_last());
        assert(all.last() == t.last());
        let before = split(s, sep).push(t.drop_last());
        assert(before.drop_last() == split(s, sep));
        assert(t.drop_last().push(t.last()) == t);
    }
}

/// The writing of an integer holds digits and at most a minus sign; that of
/// a natural number starts with a digit.
pub proof fn lemma_integer_text_chars(n: int)
    ensures
        integer_text(n).len() > 0,
        forall|i: int|
            0 <= i < integer_text(n).len() ==> is_digit(#[trigger] integer_text(n)[i])
                || integer_text(n)[i] == '-',
        n >= 0 ==> is_digit(integer_text(n)[0]),
{
    if n < 0 {
        lemma_natural_text_reads_back((-n) as nat);
        let digits = natural_text((-n) as nat);
        assert forall|i: int| 0 <= i < integer_text(n).len() implies is_digit(
            #[trigger] integer_text(n)[i],
        ) || integer_text(n)[i] == '-' by {
            if i > 0 {
                assert(integer_text(n)[i] == digits[i - 1]);
            }
        }
    } else {
        lemma_natural_text_reads_back(n as nat);
    }
}

} // verus!
