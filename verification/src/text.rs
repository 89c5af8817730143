//! Text helpers shared by the rest of the library: moving between strings
//! and sequences of characters, and decimal numbers in both directions.

use vstd::prelude::*;

verus! {

/// `String::push` appends one character to the end of the string.
pub assume_specification[ String::push ](s: &mut String, ch: char)
    ensures
        final(s)@ == old(s)@.push(ch),
;

/// The characters of `s`, in order.
pub fn chars_of(s: &str) -> (chars: Vec<char>)
    ensures
        chars@ == s@,
{
    let mut chars: Vec<char> = Vec::new();
    for c in it: s.chars()
        invariant
            it.seq() == s@,
            chars@ == s@.take(it.index() as int),
    {
        chars.push(c);
        assert(s@.take(it.index() + 1) == s@.take(it.index() as int).push(c));
    }
    chars
}

/// The string made of `chars[from..to]`.
pub fn string_of(chars: &Vec<char>, from: usize, to: usize) -> (s: String)
    requires
        from <= to <= chars.len(),
    ensures
        s@ == chars@.subrange(from as int, to as int),
{
    let mut s = String::new();
    let mut i: usize = from;
    while i < to
        invariant
            from <= i <= to <= chars.len(),
            s@ == chars@.subrange(from as int, i as int),
        decreases to - i,
    {
        s.push(chars[i]);
        i += 1;
    }
    s
}

/// Whether `s` begins with `prefix`.
pub open spec fn has_prefix(s: Seq<char>, prefix: Seq<char>) -> bool {
    s.len() >= prefix.len() && s.subrange(0, prefix.len() as int) == prefix
}

/// Whether `chars` begins with the characters of `prefix`.
pub fn starts_with(chars: &Vec<char>, prefix: &str) -> (found: bool)
    ensures
        found == has_prefix(chars@, prefix@),
{
    let wanted = chars_of(prefix);
    if chars.len() < wanted.len() {
        return false;
    }
    let mut i: usize = 0;
    while i < wanted.len()
        invariant
            i <= wanted.len() <= chars.len(),
            wanted@ == prefix@,
            chars@.subrange(0, i as int) == wanted@.subrange(0, i as int),
        decreases wanted.len() - i,
    {
        if chars[i] != wanted[i] {
            assert(chars@.subrange(0, wanted.len() as int)[i as int] != wanted@[i as int]);
            return false;
        }
        assert(chars@.subrange(0, i + 1) == chars@.subrange(0, i as int).push(chars@[i as int]));
        assert(wanted@.subrange(0, i + 1) == wanted@.subrange(0, i as int).push(wanted@[i as int]));
        i += 1;
    }
    assert(wanted@.subrange(0, wanted.len() as int) == wanted@);
    true
}

/// The character that writes the digit `d`.
pub open spec fn digit_char(d: nat) -> char
    recommends
        d < 10,
{
    ('0' as nat + d) as char
}

/// Whether `c` is one of `0` to `9`.
pub open spec fn is_digit(c: char) -> bool {
    '0' <= c <= '9'
}

/// The number that the digit `c` writes.
pub open spec fn digit_value(c: char) -> nat
    recommends
        is_digit(c),
{
    (c as nat - '0' as nat) as nat
}

/// `n` written in base ten, without sign or leading zeros.
pub open spec fn decimal(n: nat) -> Seq<char>
    decreases n,
{
    if n < 10 {
        seq![digit_char(n)]
    } else {
        decimal(n / 10).push(digit_char(n % 10))
    }
}

/// Whether every character of `s` is a digit.
pub open spec fn all_digits(s: Seq<char>) -> bool {
    forall|i: int| 0 <= i < s.len() ==> is_digit(#[trigger] s[i])
}

/// The number that a run of digits writes in base ten; leading zeros count
/// for nothing and the empty run is zero.
pub open spec fn digits_value(s: Seq<char>) -> nat
    decreases s.len(),
{
    if s.len() == 0 {
        0
    } else {
        digits_value(s.drop_last()) * 10 + digit_value(s.last())
    }
}

/// What is left of `s` once one leading `+` is taken off.
pub open spec fn unsigned_body(s: Seq<char>) -> Seq<char> {
    if s.len() > 0 && s[0] == '+' {
        s.drop_first()
    } else {
        s
    }
}

/// The number that `s` writes if it is no greater than `max`: an optional
/// `+`, then one or more digits, and nothing else. Anything else is `None`.
pub open spec fn parse_unsigned_spec(s: Seq<char>, max: nat) -> Option<nat> {
    let body = unsigned_body(s);
    if body.len() > 0 && all_digits(body) && digits_value(body) <= max {
        Some(digits_value(body))
    } else {
        None
    }
}

/// Appending digits never makes the value smaller.
pub proof fn lemma_digits_value_grows(s: Seq<char>, k: int)
    requires
        0 <= k <= s.len(),
    ensures
        digits_value(s.take(k)) <= digits_value(s),
    decreases s.len() - k,
{
    if k == s.len() {
        assert(s.take(k) == s);
    } else {
        lemma_digits_value_grows(s, k + 1);
        assert(s.take(k + 1).drop_last() == s.take(k));
    }
}

/// A number written by `decimal` is read back by `digits_value`.
pub proof fn lemma_decimal_round_trip(n: nat)
    ensures
        decimal(n).len() > 0,
        all_digits(decimal(n)),
        digits_value(decimal(n)) == n,
    decreases n,
{
    let last = digit_char(n % 10);
    assert(is_digit(last) && digit_value(last) == n % 10);
    assert(decimal(n).last() == last);
    if n < 10 {
        assert(decimal(n).drop_last() == Seq::<char>::empty());
        assert(digits_value(decimal(n).drop_last()) == 0);
    } else {
        lemma_decimal_round_trip(n / 10);
        assert(decimal(n).drop_last() == decimal(n / 10));
    }
}

/// The digit character for `d`.
fn digit_to_char(d: u8) -> (c: char)
    requires
        d < 10,
    ensures
        c == digit_char(d as nat),
{
    (48u8 + d) as char
}

/// Appends `n` in base ten to `out`.
pub fn push_decimal(out: &mut String, n: u64)
    ensures
        final(out)@ == old(out)@ + decimal(n as nat),
    decreases n,
{
    if n >= 10 {
        push_decimal(out, n / 10);
    }
    out.push(digit_to_char((n % 10) as u8));
}

/// Reads `chars[from..to]` as an unsigned decimal number no greater than
/// `max`.
pub fn parse_unsigned(chars: &Vec<char>, from: usize, to: usize, max: u64) -> (parsed: Option<u64>)
    requires
        from <= to <= chars.len(),
    ensures
        parsed matches Some(v) ==> parse_unsigned_spec(chars@.subrange(from as int, to as int), max as nat)
            == Some(v as nat),
        parsed is None ==> parse_unsigned_spec(chars@.subrange(from as int, to as int), max as nat)
            is None,
{
    let ghost text = chars@.subrange(from as int, to as int);
    let start: usize = if from < to && chars[from] == '+' {
        from + 1
    } else {
        from
    };
    let ghost body = chars@.subrange(start as int, to as int);
    assert(body == unsigned_body(text));
    if start == to {
        return None;
    }
    let mut value: u64 = 0;
    let mut i: usize = start;
    while i < to
        invariant
            start <= i <= to <= chars.len(),
            body == chars@.subrange(start as int, to as int),
            body == unsigned_body(chars@.subrange(from as int, to as int)),
            all_digits(body.take(i - start)),
            value == digits_value(body.take(i - start)),
            value <= max,
        decreases to - i,
    {
        let c = chars[i];
        let ghost next = body.take(i - start + 1);
        assert(next.drop_last() == body.take(i - start));
        assert(next.last() == c);
        if !('0' <= c && c <= '9') {
            assert(!is_digit(body[i - start]));
            return None;
        }
        let d: u64 = (c as u32 - '0' as u32) as u64;
        if d > max || value > (max - d) / 10 {
            proof {
                lemma_digits_value_grows(body, i - start + 1);
            }
            return None;
        }
        value = value * 10 + d;
        i += 1;
    }
    assert(body.take(to - start) == body);
    Some(value)
}

/// Whether `c` is white space: a character with the Unicode property
/// `White_Space`.
pub open spec fn is_space(c: char) -> bool {
    let n = c as u32;
    ||| 0x09 <= n <= 0x0D
    ||| n == 0x20
    ||| n == 0x85
    ||| n == 0xA0
    ||| n == 0x1680
    ||| 0x2000 <= n <= 0x200A
    ||| n == 0x2028
    ||| n == 0x2029
    ||| n == 0x202F
    ||| n == 0x205F
    ||| n == 0x3000
}

/// Whether `c` is white space.
pub fn is_whitespace(c: char) -> (space: bool)
    ensures
        space == is_space(c),
{
    let n = c as u32;
    (0x09 <= n && n <= 0x0D) || n == 0x20 || n == 0x85 || n == 0xA0 || n == 0x1680 || (0x2000 <= n
        && n <= 0x200A) || n == 0x2028 || n == 0x2029 || n == 0x202F || n == 0x205F || n == 0x3000
}

/// Where the first `sep` stands in `s`: the length of `s` when it holds
/// none.
pub open spec fn first_separator(s: Seq<char>, sep: char) -> int
    decreases s.len(),
{
    if s.len() == 0 || s[0] == sep {
        0
    } else {
        1 + first_separator(s.drop_first(), sep)
    }
}

/// The fields of `s`: the stretches between one `sep` and the next, the
/// empty ones too. A text without `sep` is one field.
pub open spec fn fields_of(s: Seq<char>, sep: char) -> Seq<Seq<char>>
    decreases s.len(),
{
    let at = first_separator(s, sep);
    if 0 <= at < s.len() {
        seq![s.take(at)] + fields_of(s.skip(at + 1), sep)
    } else {
        seq![s]
    }
}

/// The first separator of a text that begins with a stretch free of it.
proof fn lemma_first_separator(s: Seq<char>, sep: char, at: int)
    requires
        0 <= at <= s.len(),
        forall|i: int| 0 <= i < at ==> #[trigger] s[i] != sep,
        at == s.len() || s[at] == sep,
    ensures
        first_separator(s, sep) == at,
    decreases at,
{
    if at > 0 {
        let rest = s.drop_first();
        assert forall|i: int| 0 <= i < at - 1 implies #[trigger] rest[i] != sep by {
            assert(s[i + 1] != sep);
        }
        lemma_first_separator(rest, sep, at - 1);
    }
}

/// The first two fields of a text: a text without `sep` is a single field;
/// otherwise the first field ends at the first `sep`, and the second is
/// what follows up to the next `sep` or the end.
pub proof fn lemma_fields_start(s: Seq<char>, sep: char)
    ensures
        fields_of(s, sep).len() >= 1,
        0 <= first_separator(s, sep) <= s.len(),
        first_separator(s, sep) == s.len() ==> fields_of(s, sep).len() == 1,
        first_separator(s, sep) < s.len() ==> {
            let rest = s.skip(first_separator(s, sep) + 1);
            &&& fields_of(s, sep).len() >= 2
            &&& 0 <= first_separator(rest, sep) <= rest.len()
            &&& fields_of(s, sep)[1] == rest.take(first_separator(rest, sep))
        },
{
    lemma_first_separator_bounds(s, sep);
    let at = first_separator(s, sep);
    if at < s.len() {
        let rest = s.skip(at + 1);
        lemma_first_separator_bounds(rest, sep);
        let next = first_separator(rest, sep);
        if next < rest.len() {
            assert(fields_of(rest, sep)[0] == rest.take(next));
        } else {
            assert(rest.take(next) == rest);
            assert(fields_of(rest, sep)[0] == rest);
        }
    }
}

/// The first separator lies within the text or at its end.
pub proof fn lemma_first_separator_bounds(s: Seq<char>, sep: char)
    ensures
        0 <= first_separator(s, sep) <= s.len(),
    decreases s.len(),
{
    if s.len() > 0 && s[0] != sep {
        lemma_first_separator_bounds(s.drop_first(), sep);
    }
}

/// The fields of `chars[from..to]`, each as the place where it starts and
/// the place where it ends.
pub fn split_fields(chars: &Vec<char>, from: usize, to: usize, sep: char) -> (fields: Vec<
    (usize, usize),
>)
    requires
        from <= to <= chars.len(),
    ensures
        fields.len() == fields_of(chars@.subrange(from as int, to as int), sep).len(),
        forall|k: int|
            0 <= k < fields.len() ==> {
                &&& from <= (#[trigger] fields[k]).0 <= fields[k].1 <= to
                &&& chars@.subrange(fields[k].0 as int, fields[k].1 as int) == fields_of(
                    chars@.subrange(from as int, to as int),
                    sep,
                )[k]
            },
{
    let ghost whole = fields_of(chars@.subrange(from as int, to as int), sep);
    let mut fields: Vec<(usize, usize)> = Vec::new();
    let mut start: usize = from;
    let ghost mut done: Seq<Seq<char>> = Seq::empty();
    assert(done + fields_of(chars@.subrange(start as int, to as int), sep) == whole);
    loop
        invariant
            from <= start <= to <= chars.len(),
            whole == fields_of(chars@.subrange(from as int, to as int), sep),
            done.len() == fields.len(),
            whole == done + fields_of(chars@.subrange(start as int, to as int), sep),
            forall|k: int|
                0 <= k < fields.len() ==> {
                    &&& from <= (#[trigger] fields[k]).0 <= fields[k].1 <= to
                    &&& chars@.subrange(fields[k].0 as int, fields[k].1 as int) == done[k]
                },
        decreases to - start + 1,
    {
        let mut end: usize = start;
        while end < to && chars[end] != sep
            invariant
                start <= end <= to <= chars.len(),
                forall|i: int| start <= i < end ==> #[trigger] chars@[i] != sep,
            decreases to - end,
        {
            end += 1;
        }
        let ghost rest = chars@.subrange(start as int, to as int);
        proof {
            assert forall|i: int| 0 <= i < end - start implies #[trigger] rest[i] != sep by {
                assert(chars@[start + i] != sep);
            }
            lemma_first_separator(rest, sep, end - start);
            assert(rest.take(end - start) == chars@.subrange(start as int, end as int));
        }
        let ghost old_fields = fields@;
        fields.push((start, end));
        if end == to {
            proof {
                assert(fields_of(rest, sep) == seq![rest]);
                done = done.push(rest);
                assert(whole == done);
                assert forall|k: int| 0 <= k < fields.len() implies {
                    &&& from <= (#[trigger] fields[k]).0 <= fields[k].1 <= to
                    &&& chars@.subrange(fields[k].0 as int, fields[k].1 as int) == whole[k]
                } by {
                    if k < old_fields.len() {
                        assert(fields[k] == old_fields[k]);
                    }
                }
            }
            return fields;
        }
        proof {
            let field = rest.take(end - start);
            assert(rest.skip(end - start + 1) == chars@.subrange(end + 1, to as int));
            assert(fields_of(rest, sep) == seq![field] + fields_of(
                chars@.subrange(end + 1, to as int),
                sep,
            ));
            let shorter = done;
            done = done.push(field);
            assert(whole == done + fields_of(chars@.subrange(end + 1, to as int), sep)) by {
                assert(shorter + (seq![field] + fields_of(
                    chars@.subrange(end + 1, to as int),
                    sep,
                )) == shorter.push(field) + fields_of(chars@.subrange(end + 1, to as int), sep));
            }
            assert forall|k: int| 0 <= k < fields.len() implies {
                &&& from <= (#[trigger] fields[k]).0 <= fields[k].1 <= to
                &&& chars@.subrange(fields[k].0 as int, fields[k].1 as int) == done[k]
            } by {
                if k < old_fields.len() {
                    assert(fields[k] == old_fields[k]);
                }
            }
        }
        start = end + 1;
    }
}

/// `s` without the white space that it begins with.
pub open spec fn trim_start(s: Seq<char>) -> Seq<char>
    decreases s.len(),
{
    if s.len() > 0 && is_space(s[0]) {
        trim_start(s.drop_first())
    } else {
        s
    }
}

/// `s` without the white space that it ends with.
pub open spec fn trim_end(s: Seq<char>) -> Seq<char>
    decreases s.len(),
{
    if s.len() > 0 && is_space(s.last()) {
        trim_end(s.drop_last())
    } else {
        s
    }
}

/// `s` without the white space at either end.
pub open spec fn trimmed(s: Seq<char>) -> Seq<char> {
    trim_end(trim_start(s))
}

/// Where `chars[from..to]` begins and ends once the white space at either
/// end is left out.
pub fn trim(chars: &Vec<char>, from: usize, to: usize) -> (kept: (usize, usize))
    requires
        from <= to <= chars.len(),
    ensures
        from <= kept.0 <= kept.1 <= to,
        chars@.subrange(kept.0 as int, kept.1 as int) == trimmed(
            chars@.subrange(from as int, to as int),
        ),
{
    let mut start: usize = from;
    while start < to && is_whitespace(chars[start])
        invariant
            from <= start <= to <= chars.len(),
            trim_start(chars@.subrange(from as int, to as int)) == trim_start(
                chars@.subrange(start as int, to as int),
            ),
        decreases to - start,
    {
        assert(chars@.subrange(start as int, to as int).drop_first() == chars@.subrange(
            start + 1,
            to as int,
        ));
        start += 1;
    }
    assert(trim_start(chars@.subrange(start as int, to as int)) == chars@.subrange(
        start as int,
        to as int,
    ));
    let mut end: usize = to;
    while start < end && is_whitespace(chars[end - 1])
        invariant
            start <= end <= to <= chars.len(),
            trim_end(chars@.subrange(start as int, to as int)) == trim_end(
                chars@.subrange(start as int, end as int),
            ),
        decreases end - start,
    {
        assert(chars@.subrange(start as int, end as int).drop_last() == chars@.subrange(
            start as int,
            end - 1,
        ));
        end -= 1;
    }
    assert(trim_end(chars@.subrange(start as int, end as int)) == chars@.subrange(
        start as int,
        end as int,
    ));
    (start, end)
}

} // verus!
