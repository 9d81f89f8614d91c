//! Character-level helpers shared by the parsers and renderers.

use vstd::prelude::*;

verus! {

/// Whether `c` is an ASCII decimal digit.
pub open spec fn is_digit(c: char) -> bool {
    '0' <= c && c <= '9'
}

/// The value of the decimal digit `c`.
pub open spec fn digit_value(c: char) -> nat {
    (c as int - '0' as int) as nat
}

/// Executable form of [`is_digit`].
pub fn char_is_digit(c: char) -> (r: bool)
    ensures
        r == is_digit(c),
{
    '0' <= c && c <= '9'
}

/// The value of a decimal digit.
pub(crate) fn char_digit_value(c: char) -> (r: u32)
    requires
        is_digit(c),
    ensures
        r == digit_value(c),
        r <= 9,
{
    (c as u32) - ('0' as u32)
}

/// The characters of a string slice, in order.
pub fn chars_of(s: &str) -> (v: Vec<char>)
    ensures
        v@ == s@,
{
    let mut v: Vec<char> = Vec::new();
    for c in it: s.chars()
        invariant
            v@ == it.seq().take(it.index() as int),
            it.seq() == s@,
    {
        v.push(c);
    }
    v
}

/// The character that displays the digit `d`.
pub open spec fn digit_char(d: nat) -> char {
    if d == 0 {
        '0'
    } else if d == 1 {
        '1'
    } else if d == 2 {
        '2'
    } else if d == 3 {
        '3'
    } else if d == 4 {
        '4'
    } else if d == 5 {
        '5'
    } else if d == 6 {
        '6'
    } else if d == 7 {
        '7'
    } else if d == 8 {
        '8'
    } else {
        '9'
    }
}

/// The number of decimal digits at the front of `s`.
pub open spec fn digits_len(s: Seq<char>) -> nat
    decreases s.len(),
{
    if s.len() > 0 && is_digit(s[0]) {
        1 + digits_len(s.skip(1))
    } else {
        0
    }
}

/// The number that the digit string `s` denotes in base ten.
pub open spec fn decimal(s: Seq<char>) -> nat
    decreases s.len(),
{
    if s.len() == 0 {
        0
    } else {
        10 * decimal(s.drop_last()) + digit_value(s.last())
    }
}

/// The shortest decimal spelling of `n`.
pub open spec fn digits(n: nat) -> Seq<char>
    decreases n,
{
    if n < 10 {
        seq![digit_char(n)]
    } else {
        digits(n / 10).push(digit_char(n % 10))
    }
}

/// The number written at the front of `s`, with the count of characters it takes.
/// There is none where `s` does not begin with a digit or the number exceeds `u32`.
pub open spec fn leading_number(s: Seq<char>) -> Option<(u32, int)> {
    let n = digits_len(s) as int;
    if n == 0 || decimal(s.take(n)) > u32::MAX {
        None
    } else {
        Some((decimal(s.take(n)) as u32, n))
    }
}

/// `p` stands at the front of `s`.
pub open spec fn starts_with(s: Seq<char>, p: Seq<char>) -> bool {
    p.len() <= s.len() && s.take(p.len() as int) == p
}

/// A run of `n` digits that ends the sequence or is followed by another character
/// is the whole run of leading digits.
pub proof fn lemma_digits_len(s: Seq<char>, n: int)
    requires
        0 <= n <= s.len(),
        forall|k: int| 0 <= k < n ==> is_digit(#[trigger] s[k]),
        n == s.len() || !is_digit(s[n]),
    ensures
        digits_len(s) == n,
    decreases n,
{
    if n > 0 {
        let t = s.skip(1);
        assert forall|k: int| 0 <= k < n - 1 implies is_digit(#[trigger] t[k]) by {
            assert(t[k] == s[k + 1]);
        }
        lemma_digits_len(t, n - 1);
    }
}

/// The spelling of a number is made of digits only, and denotes that number.
pub proof fn lemma_digits_decimal(n: nat)
    ensures
        digits(n).len() >= 1,
        forall|k: int| 0 <= k < digits(n).len() ==> is_digit(#[trigger] digits(n)[k]),
        decimal(digits(n)) == n,
    decreases n,
{
    if n < 10 {
        let s = digits(n);
        assert(s.drop_last().len() == 0);
        assert(decimal(s.drop_last()) == 0);
        assert(digit_value(s.last()) == n);
    } else {
        lemma_digits_decimal(n / 10);
        let s = digits(n);
        assert(s.drop_last() == digits(n / 10));
        assert(digit_value(s.last()) == n % 10);
    }
}

/// A number's spelling, followed by nothing or by a character that is no digit,
/// is read back as that number.
pub proof fn lemma_leading_number_of_digits(n: u32, rest: Seq<char>)
    requires
        rest.len() == 0 || !is_digit(rest[0]),
    ensures
        leading_number(digits(n as nat) + rest) == Some((n, digits(n as nat).len() as int)),
        (digits(n as nat) + rest).skip(digits(n as nat).len() as int) == rest,
{
    let d = digits(n as nat);
    let s = d + rest;
    lemma_digits_decimal(n as nat);
    assert forall|k: int| 0 <= k < d.len() implies is_digit(#[trigger] s[k]) by {
        assert(s[k] == d[k]);
    }
    if rest.len() > 0 {
        assert(s[d.len() as int] == rest[0]);
    }
    lemma_digits_len(s, d.len() as int);
    assert(s.take(d.len() as int) == d);
    assert(s.skip(d.len() as int) == rest);
}

/// Reads the number written at position `from` of `s`.
pub(crate) fn scan_number(s: &Vec<char>, from: usize) -> (r: Option<(u32, usize)>)
    requires
        from <= s.len(),
    ensures
        match r {
            Some((value, end)) => from < end <= s.len() && leading_number(s@.skip(from as int))
                == Some((value, end - from)),
            None => leading_number(s@.skip(from as int)) is None,
        },
{
    let ghost t = s@.skip(from as int);
    let mut i: usize = from;
    let mut acc: u64 = 0;
    let mut too_big = false;
    while i < s.len() && char_is_digit(s[i])
        invariant
            from <= i <= s.len(),
            t == s@.skip(from as int),
            forall|k: int| 0 <= k < i - from ==> is_digit(#[trigger] t[k]),
            too_big ==> decimal(t.take(i - from)) > u32::MAX,
            !too_big ==> acc == decimal(t.take(i - from)) && acc <= u32::MAX,
        decreases s.len() - i,
    {
        let d = char_digit_value(s[i]);
        proof {
            let next = t.take(i - from + 1);
            assert(next.drop_last() == t.take(i - from));
            assert(next.last() == s@[i as int]);
        }
        if !too_big {
            acc = acc * 10 + d as u64;
            if acc > u32::MAX as u64 {
                too_big = true;
            }
        }
        i = i + 1;
    }
    proof {
        lemma_digits_len(t, i - from);
    }
    if i == from || too_big {
        None
    } else {
        Some((acc as u32, i))
    }
}

/// Appends the shortest decimal spelling of `n` to `out`.
pub fn push_number(out: &mut Vec<char>, n: u32)
    ensures
        final(out)@ == old(out)@ + digits(n as nat),
    decreases n,
{
    if n >= 10 {
        push_number(out, n / 10);
    }
    let d = n % 10;
    let c = if d == 0 {
        '0'
    } else if d == 1 {
        '1'
    } else if d == 2 {
        '2'
    } else if d == 3 {
        '3'
    } else if d == 4 {
        '4'
    } else if d == 5 {
        '5'
    } else if d == 6 {
        '6'
    } else if d == 7 {
        '7'
    } else if d == 8 {
        '8'
    } else {
        '9'
    };
    out.push(c);
    proof {
        if n >= 10 {
            assert(out@ == old(out)@ + digits(n as nat / 10).push(c));
        } else {
            assert(out@ == old(out)@ + seq![c]);
        }
    }
}

/// Whether the characters of `word` stand in `s` from position `at` on.
pub(crate) fn has_word_at(s: &Vec<char>, at: usize, word: &Vec<char>) -> (r: bool)
    requires
        at <= s.len(),
    ensures
        r == starts_with(s@.skip(at as int), word@),
{
    if word.len() > s.len() - at {
        return false;
    }
    let ghost t = s@.skip(at as int);
    let mut i: usize = 0;
    while i < word.len()
        invariant
            i <= word.len(),
            at + word.len() <= s.len(),
            t == s@.skip(at as int),
            t.take(i as int) == word@.take(i as int),
        decreases word.len() - i,
    {
        if s[at + i] != word[i] {
            proof {
                assert(t.take(word.len() as int)[i as int] == t[i as int]);
            }
            return false;
        }
        proof {
            assert(t.take(i + 1) == t.take(i as int).push(t[i as int]));
            assert(word@.take(i + 1) == word@.take(i as int).push(word@[i as int]));
        }
        i = i + 1;
    }
    assert(word@.take(word.len() as int) == word@);
    true
}

/// The position of the first `c` in `s`, or the length of `s` where there is none.
pub open spec fn first_index(s: Seq<char>, c: char) -> int
    decreases s.len(),
{
    if s.len() == 0 || s[0] == c {
        0
    } else {
        1 + first_index(s.skip(1), c)
    }
}

/// Before position `n` there is no `c`, and at `n` there is one or `s` ends:
/// `n` is the position of the first `c`.
pub proof fn lemma_first_index(s: Seq<char>, c: char, n: int)
    requires
        0 <= n <= s.len(),
        forall|k: int| 0 <= k < n ==> #[trigger] s[k] != c,
        n == s.len() || s[n] == c,
    ensures
        first_index(s, c) == n,
    decreases n,
{
    if n > 0 {
        let t = s.skip(1);
        assert forall|k: int| 0 <= k < n - 1 implies #[trigger] t[k] != c by {
            assert(t[k] == s[k + 1]);
        }
        lemma_first_index(t, c, n - 1);
    }
}

/// The position of the first `c` at or behind `from`, or the length of `s`.
pub(crate) fn find_char(s: &Vec<char>, from: usize, c: char) -> (r: usize)
    requires
        from <= s.len(),
    ensures
        from <= r <= s.len(),
        r - from == first_index(s@.skip(from as int), c),
        r < s.len() ==> s@[r as int] == c,
        forall|k: int| from <= k < r ==> s@[k] != c,
{
    let ghost t = s@.skip(from as int);
    let mut i: usize = from;
    while i < s.len() && s[i] != c
        invariant
            from <= i <= s.len(),
            t == s@.skip(from as int),
            forall|k: int| 0 <= k < i - from ==> #[trigger] t[k] != c,
        decreases s.len() - i,
    {
        i = i + 1;
    }
    proof {
        lemma_first_index(t, c, i - from);
        assert forall|k: int| from <= k < i implies s@[k] != c by {
            assert(t[k - from] == s@[k]);
        }
    }
    i
}

/// The number of spaces at the front of `s`.
pub open spec fn leading_spaces(s: Seq<char>) -> nat
    decreases s.len(),
{
    if s.len() > 0 && s[0] == ' ' {
        1 + leading_spaces(s.skip(1))
    } else {
        0
    }
}

/// The number of spaces at the end of `s`.
pub open spec fn trailing_spaces(s: Seq<char>) -> nat
    decreases s.len(),
{
    if s.len() > 0 && s.last() == ' ' {
        1 + trailing_spaces(s.drop_last())
    } else {
        0
    }
}

/// `s` without the spaces at its front.
pub open spec fn trim_start(s: Seq<char>) -> Seq<char> {
    s.skip(leading_spaces(s) as int)
}

/// `s` without the spaces at its end.
pub open spec fn trim_end(s: Seq<char>) -> Seq<char> {
    s.take(s.len() - trailing_spaces(s))
}

/// `s` without the spaces at its front and at its end.
pub open spec fn trim(s: Seq<char>) -> Seq<char> {
    trim_end(trim_start(s))
}

/// A run of `n` spaces at the front that ends the sequence or is followed by another
/// character is the whole run of leading spaces.
pub proof fn lemma_leading_spaces(s: Seq<char>, n: int)
    requires
        0 <= n <= s.len(),
        forall|k: int| 0 <= k < n ==> #[trigger] s[k] == ' ',
        n == s.len() || s[n] != ' ',
    ensures
        leading_spaces(s) == n,
    decreases n,
{
    if n > 0 {
        let t = s.skip(1);
        assert forall|k: int| 0 <= k < n - 1 implies #[trigger] t[k] == ' ' by {
            assert(t[k] == s[k + 1]);
        }
        lemma_leading_spaces(t, n - 1);
    }
}

/// A run of `n` spaces at the end that begins the sequence or is preceded by another
/// character is the whole run of trailing spaces.
pub proof fn lemma_trailing_spaces(s: Seq<char>, n: int)
    requires
        0 <= n <= s.len(),
        forall|k: int| s.len() - n <= k < s.len() ==> #[trigger] s[k] == ' ',
        n == s.len() || s[s.len() - n - 1] != ' ',
    ensures
        trailing_spaces(s) == n,
    decreases n,
{
    if n > 0 {
        let t = s.drop_last();
        assert forall|k: int| t.len() - (n - 1) <= k < t.len() implies #[trigger] t[k] == ' ' by {
            assert(t[k] == s[k]);
        }
        lemma_trailing_spaces(t, n - 1);
    }
}

/// A text that neither begins nor ends with a space is its own trimmed form.
pub proof fn lemma_trim_unchanged(s: Seq<char>)
    requires
        s.len() > 0,
        s[0] != ' ',
        s.last() != ' ',
    ensures
        trim(s) == s,
        trim_start(s) == s,
{
    assert(s.skip(0) == s);
    assert(s.take(s.len() as int) == s);
}

/// The characters of `s` from position `from` up to, not including, position `to`.
pub(crate) fn sub_vec(s: &Vec<char>, from: usize, to: usize) -> (r: Vec<char>)
    requires
        from <= to <= s.len(),
    ensures
        r@ == s@.subrange(from as int, to as int),
{
    let mut r: Vec<char> = Vec::new();
    let mut i: usize = from;
    while i < to
        invariant
            from <= i <= to <= s.len(),
            r@ == s@.subrange(from as int, i as int),
        decreases to - i,
    {
        r.push(s[i]);
        i = i + 1;
        assert(s@.subrange(from as int, i as int) == s@.subrange(from as int, i - 1).push(
            s@[i - 1],
        ));
    }
    r
}

/// The position behind the spaces that begin at `from`.
pub(crate) fn skip_spaces(s: &Vec<char>, from: usize) -> (r: usize)
    requires
        from <= s.len(),
    ensures
        from <= r <= s.len(),
        r - from == leading_spaces(s@.skip(from as int)),
{
    let ghost t = s@.skip(from as int);
    let mut i: usize = from;
    while i < s.len() && s[i] == ' '
        invariant
            from <= i <= s.len(),
            t == s@.skip(from as int),
            forall|k: int| 0 <= k < i - from ==> #[trigger] t[k] == ' ',
        decreases s.len() - i,
    {
        i = i + 1;
    }
    proof {
        lemma_leading_spaces(t, i - from);
    }
    i
}

/// `s` without the spaces at its front and at its end.
pub fn trimmed(s: &Vec<char>) -> (r: Vec<char>)
    ensures
        r@ == trim(s@),
{
    assert(s@.skip(0) == s@);
    let start = skip_spaces(s, 0);
    let ghost t = s@.skip(start as int);
    let mut end: usize = s.len();
    while end > start && s[end - 1] == ' '
        invariant
            start <= end <= s.len(),
            t == s@.skip(start as int),
            forall|k: int| end - start <= k < t.len() ==> #[trigger] t[k] == ' ',
        decreases end,
    {
        end = end - 1;
    }
    proof {
        if end > start {
            assert(t[end - start - 1] == s@[end - 1]);
        }
        lemma_trailing_spaces(t, s.len() - end);
        assert(t.take(end - start) == s@.subrange(start as int, end as int));
    }
    sub_vec(s, start, end)
}

/// Whether the characters of `s` are those of `word`.
pub fn is_word(s: &Vec<char>, word: &str) -> (r: bool)
    ensures
        r == (s@ == word@),
{
    let w = chars_of(word);
    assert(s@.skip(0) == s@);
    if s.len() != w.len() {
        return false;
    }
    assert(s@.take(s.len() as int) == s@);
    has_word_at(s, 0, &w)
}

/// `String::push`: the string afterwards is the string before with `c` appended.
#[verifier::external_body]
fn push_char(s: &mut String, c: char)
    ensures
        final(s)@ == old(s)@.push(c),
{
    s.push(c);
}

/// The string made of the characters of `v`, in order.
pub fn string_of(v: &Vec<char>) -> (s: String)
    ensures
        s@ == v@,
{
    let mut s = String::new();
    let mut i: usize = 0;
    while i < v.len()
        invariant
            i <= v.len(),
            s@ == v@.take(i as int),
        decreases v.len() - i,
    {
        push_char(&mut s, v[i]);
        i = i + 1;
        assert(v@.take(i as int) == v@.take(i - 1).push(v@[i - 1]));
    }
    assert(v@.take(v.len() as int) == v@);
    s
}

/// Appends the characters of `tail` to `out`.
pub fn push_all(out: &mut Vec<char>, tail: &Vec<char>)
    ensures
        final(out)@ == old(out)@ + tail@,
{
    let mut i: usize = 0;
    while i < tail.len()
        invariant
            i <= tail.len(),
            out@ == old(out)@ + tail@.take(i as int),
        decreases tail.len() - i,
    {
        out.push(tail[i]);
        i = i + 1;
        assert(tail@.take(i as int) == tail@.take(i - 1).push(tail@[i - 1]));
    }
    assert(tail@.take(tail.len() as int) == tail@);
}

/// Appends the characters of the string slice `tail` to `out`.
pub fn push_str(out: &mut Vec<char>, tail: &str)
    ensures
        final(out)@ == old(out)@ + tail@,
{
    let t = chars_of(tail);
    push_all(out, &t);
}

} // verus!
