//! Text as the rest of the library handles it: sequences of characters, and
//! numbers written out in digits.

use vstd::prelude::*;

verus! {

/// `String::push` of the standard library: the character becomes the last one
/// of the string, and nothing else changes.
pub assume_specification[ String::push ](s: &mut String, c: char)
    ensures
        final(s)@ == old(s)@.push(c),
;

/// The characters of a piece of text, one by one.
pub fn to_chars(s: &str) -> (chars: Vec<char>)
    ensures
        chars@ == s@,
{
    let mut chars: Vec<char> = Vec::new();
    for c in it: s.chars()
        invariant
            chars@ == s@.take(it.index()),
            it.seq() == s@,
    {
        chars.push(c);
    }
    assert(s@.take(s@.len() as int) == s@);
    chars
}

/// The text made of the characters from position `from` up to position `to`.
pub fn from_chars(chars: &Vec<char>, from: usize, to: usize) -> (s: String)
    requires
        from <= to <= chars@.len(),
    ensures
        s@ == chars@.subrange(from as int, to as int),
{
    let mut s = String::new();
    let mut i: usize = from;
    while i < to
        invariant
            from <= i <= to <= chars@.len(),
            s@ == chars@.subrange(from as int, i as int),
        decreases to - i,
    {
        s.push(chars[i]);
        i += 1;
        assert(s@ =~= chars@.subrange(from as int, i as int));
    }
    s
}

/// Whether two pieces of text are the same.
pub fn same(a: &str, b: &str) -> (equal: bool)
    ensures
        equal == (a@ == b@),
{
    a.to_owned() == b.to_owned()
}

/// Two pieces of text, one after the other.
pub fn joined(a: &str, b: &str) -> (s: String)
    ensures
        s@ == a@ + b@,
{
    let mut s = a.to_owned();
    s.append(b);
    s
}

/// A text without the `c`s it begins with.
pub open spec fn trim_start(s: Seq<char>, c: char) -> Seq<char>
    decreases s.len(),
{
    if s.len() > 0 && s[0] == c {
        trim_start(s.drop_first(), c)
    } else {
        s
    }
}

/// A text without the `c`s it ends with.
pub open spec fn trim_end(s: Seq<char>, c: char) -> Seq<char>
    decreases s.len(),
{
    if s.len() > 0 && s.last() == c {
        trim_end(s.drop_last(), c)
    } else {
        s
    }
}

/// The text without the `c`s at either end.
pub open spec fn trim(s: Seq<char>, c: char) -> Seq<char> {
    trim_end(trim_start(s, c), c)
}

/// What is left after trimming was there before.
pub proof fn lemma_trim_keeps(s: Seq<char>, c: char)
    ensures
        forall|x: char| #[trigger] trim(s, c).contains(x) ==> s.contains(x),
{
    lemma_trim_start_keeps(s, c);
    lemma_trim_end_keeps(trim_start(s, c), c);
}

proof fn lemma_trim_start_keeps(s: Seq<char>, c: char)
    ensures
        forall|x: char| #[trigger] trim_start(s, c).contains(x) ==> s.contains(x),
    decreases s.len(),
{
    if s.len() > 0 && s[0] == c {
        let r = s.drop_first();
        lemma_trim_start_keeps(r, c);
        assert forall|x: char| #[trigger] trim_start(s, c).contains(x) implies s.contains(x) by {
            assert(trim_start(r, c).contains(x));
            let i = choose|i: int| 0 <= i < r.len() && r[i] == x;
            assert(s[i + 1] == x);
        }
    }
}

proof fn lemma_trim_end_keeps(s: Seq<char>, c: char)
    ensures
        forall|x: char| #[trigger] trim_end(s, c).contains(x) ==> s.contains(x),
    decreases s.len(),
{
    if s.len() > 0 && s.last() == c {
        let r = s.drop_last();
        lemma_trim_end_keeps(r, c);
        assert forall|x: char| #[trigger] trim_end(s, c).contains(x) implies s.contains(x) by {
            assert(trim_end(r, c).contains(x));
            let i = choose|i: int| 0 <= i < r.len() && r[i] == x;
            assert(s[i] == x);
        }
    }
}

/// The place of the first character from `from` on that is not `c`.
pub fn skip(chars: &Vec<char>, from: usize, c: char) -> (at: usize)
    requires
        from <= chars@.len(),
    ensures
        from <= at <= chars@.len(),
        chars@.skip(at as int) == trim_start(chars@.skip(from as int), c),
{
    let mut i: usize = from;
    while i < chars.len() && chars[i] == c
        invariant
            from <= i <= chars@.len(),
            trim_start(chars@.skip(i as int), c) == trim_start(chars@.skip(from as int), c),
        decreases chars@.len() - i,
    {
        assert(chars@.skip(i as int).drop_first() =~= chars@.skip(i + 1));
        i += 1;
    }
    i
}

/// The text without the `c`s at either end.
pub fn trimmed(chars: &Vec<char>, c: char) -> (s: String)
    ensures
        s@ == trim(chars@, c),
{
    assert(chars@.skip(0) =~= chars@);
    let start: usize = skip(chars, 0, c);
    let mut end: usize = chars.len();
    assert(chars@.subrange(start as int, end as int) =~= chars@.skip(start as int));
    while end > start && chars[end - 1] == c
        invariant
            start <= end <= chars@.len(),
            trim_end(chars@.subrange(start as int, end as int), c) == trim(chars@, c),
        decreases end,
    {
        assert(chars@.subrange(start as int, end as int).drop_last() =~= chars@.subrange(
            start as int,
            end - 1,
        ));
        end -= 1;
    }
    from_chars(chars, start, end)
}

/// Whether a text begins with another.
pub open spec fn begins(s: Seq<char>, prefix: Seq<char>) -> bool {
    prefix.len() <= s.len() && s.take(prefix.len() as int) == prefix
}

/// The characters after a prefix, or `None` when the text does not begin with
/// it.
pub fn strip_prefix(chars: &Vec<char>, prefix: &str) -> (rest: Option<usize>)
    ensures
        rest is Some <==> begins(chars@, prefix@),
        rest matches Some(at) ==> at == prefix@.len() && at <= chars@.len(),
{
    let p = to_chars(prefix);
    if p.len() > chars.len() {
        return None;
    }
    let mut i: usize = 0;
    while i < p.len()
        invariant
            i <= p@.len() <= chars@.len(),
            p@ == prefix@,
            forall|k: int| 0 <= k < i ==> chars@[k] == p@[k],
        decreases p@.len() - i,
    {
        if chars[i] != p[i] {
            assert(chars@.take(p@.len() as int)[i as int] != p@[i as int]);
            return None;
        }
        i += 1;
    }
    assert(chars@.take(p@.len() as int) =~= prefix@);
    Some(i)
}

/// The character for one decimal digit.
pub open spec fn digit(d: int) -> char {
    (48 + d) as char
}

/// A number in decimal, without leading zeros.
pub open spec fn decimal(n: nat) -> Seq<char>
    decreases n,
{
    if n < 10 {
        seq![digit(n as int)]
    } else {
        decimal(n / 10).push(digit((n % 10) as int))
    }
}

/// The last `width` decimal digits of a number.
pub open spec fn digits(n: nat, width: nat) -> Seq<char>
    decreases width,
{
    if width == 0 {
        Seq::empty()
    } else {
        digits(n / 10, (width - 1) as nat).push(digit((n % 10) as int))
    }
}

/// A number in decimal, filled up on the left with zeros to `width` characters.
pub open spec fn padded(n: nat, width: nat) -> Seq<char> {
    let plain = decimal(n);
    if plain.len() >= width {
        plain
    } else {
        digits(0, (width - plain.len()) as nat) + plain
    }
}

/// A signed number filled up to `width` characters, the sign counted among them.
pub open spec fn padded_signed(n: int, width: nat) -> Seq<char> {
    if n < 0 {
        seq!['-'] + padded((-n) as nat, if width == 0 { 0 } else { (width - 1) as nat })
    } else {
        padded(n as nat, width)
    }
}

/// The character for one decimal digit.
pub fn digit_char(d: u8) -> (c: char)
    requires
        d < 10,
    ensures
        c == digit(d as int),
{
    (48u8 + d) as char
}

/// A number in decimal.
pub fn decimal_text(n: u64) -> (s: String)
    ensures
        s@ == decimal(n as nat),
    decreases n,
{
    if n < 10 {
        let mut s = String::new();
        s.push(digit_char(n as u8));
        assert(s@ =~= decimal(n as nat));
        s
    } else {
        let mut s = decimal_text(n / 10);
        s.push(digit_char((n % 10) as u8));
        s
    }
}

/// Zeros are what the digits of nothing are.
proof fn lemma_zero_digits(width: nat)
    ensures
        digits(0, width).len() == width,
        forall|i: int| 0 <= i < width ==> digits(0, width)[i] == '0',
    decreases width,
{
    if width > 0 {
        lemma_zero_digits((width - 1) as nat);
    }
}

/// The number of digits kept is the length of the text.
pub proof fn lemma_digits_len(n: nat, width: nat)
    ensures
        digits(n, width).len() == width,
    decreases width,
{
    if width > 0 {
        lemma_digits_len(n / 10, (width - 1) as nat);
    }
}

/// Ten to the power of `width`, the first number that needs more digits.
pub open spec fn limit(width: nat) -> nat
    decreases width,
{
    if width == 0 {
        1
    } else {
        10 * limit((width - 1) as nat)
    }
}

/// A number small enough for the width has one form: padded, it is just its
/// last digits.
pub proof fn lemma_padded_is_digits(n: nat, width: nat)
    requires
        n < limit(width),
        width > 0,
    ensures
        padded(n, width) == digits(n, width),
        decimal(n).len() <= width,
    decreases width,
{
    lemma_zero_digits((width - 1) as nat);
    if n < 10 {
        assert(n / 10 == 0);
        assert(digits(n / 10, (width - 1) as nat) == digits(0, (width - 1) as nat));
        if width == 1 {
            assert(padded(n, width) =~= digits(n, width));
        } else {
            assert(padded(n, width) =~= digits(n, width));
        }
    } else {
        if width == 1 {
            reveal_with_fuel(limit, 2);
            assert(false);
        }
        assert(n / 10 < limit((width - 1) as nat));
        lemma_padded_is_digits(n / 10, (width - 1) as nat);
        let rest = decimal(n / 10);
        assert(decimal(n) == rest.push(digit((n % 10) as int)));
        if rest.len() < width - 1 {
            assert(padded(n, width) =~= digits(n, width));
        } else {
            assert(padded(n, width) =~= digits(n, width));
        }
    }
}

/// A number in decimal, filled up on the left with zeros to `width` characters.
pub fn padded_text(n: u64, width: usize) -> (s: String)
    ensures
        s@ == padded(n as nat, width as nat),
{
    let plain = decimal_text(n);
    let size: usize = plain.as_str().unicode_len();
    if size >= width {
        return plain;
    }
    let mut s = String::new();
    let mut i: usize = 0;
    let missing: usize = width - size;
    while i < missing
        invariant
            i <= missing,
            s@ == digits(0, i as nat),
        decreases missing - i,
    {
        s.push('0');
        assert(digits(0, (i + 1) as nat) == digits(0, i as nat).push(digit(0)));
        i += 1;
    }
    s.append(plain.as_str());
    s
}

/// A signed number filled up on the left with zeros to `width` characters.
pub fn padded_signed_text(n: i64, width: usize) -> (s: String)
    ensures
        s@ == padded_signed(n as int, width as nat),
{
    if n < 0 {
        let size: u64 = (-(n as i128)) as u64;
        let mut s = String::new();
        s.push('-');
        let rest: usize = if width == 0 { 0 } else { width - 1 };
        let body = padded_text(size, rest);
        s.append(body.as_str());
        assert(s@ =~= padded_signed(n as int, width as nat));
        s
    } else {
        padded_text(n as u64, width)
    }
}

/// A number is read back from its digits.
pub open spec fn number(s: Seq<char>) -> int
    decreases s.len(),
{
    if s.len() == 0 {
        0
    } else {
        number(s.drop_last()) * 10 + (s.last() as int - 48)
    }
}

/// Reading a number back from its decimal form gives the number.
pub proof fn lemma_decimal_reads_back(n: nat)
    ensures
        number(decimal(n)) == n,
        decimal(n).len() >= 1,
        forall|i: int| 0 <= i < decimal(n).len() ==> '0' <= #[trigger] decimal(n)[i] <= '9',
    decreases n,
{
    reveal_with_fuel(number, 2);
    if n < 10 {
        assert(decimal(n).drop_last() =~= Seq::<char>::empty());
    } else {
        lemma_decimal_reads_back(n / 10);
        assert(decimal(n).drop_last() =~= decimal(n / 10));
    }
}

/// Reading a number back from its last digits gives the number, when it is
/// small enough for them.
pub proof fn lemma_digits_read_back(n: nat, width: nat)
    requires
        n < limit(width),
    ensures
        number(digits(n, width)) == n,
        digits(n, width).len() == width,
        forall|i: int| 0 <= i < width ==> '0' <= #[trigger] digits(n, width)[i] <= '9',
    decreases width,
{
    if width > 0 {
        lemma_digits_read_back(n / 10, (width - 1) as nat);
        assert(digits(n, width).drop_last() =~= digits(n / 10, (width - 1) as nat));
    }
}

/// Where a character first occurs; the length of the text if it does not.
pub open spec fn first_of(s: Seq<char>, c: char) -> int
    decreases s.len(),
{
    if s.len() == 0 || s[0] == c {
        0
    } else {
        1 + first_of(s.drop_first(), c)
    }
}

/// Where a character last occurs; one before the start if it does not.
pub open spec fn last_of(s: Seq<char>, c: char) -> int
    decreases s.len(),
{
    if s.len() == 0 || s.last() == c {
        s.len() - 1
    } else {
        last_of(s.drop_last(), c)
    }
}

/// What the first occurrence is.
pub proof fn lemma_first_of(s: Seq<char>, c: char)
    ensures
        0 <= first_of(s, c) <= s.len(),
        first_of(s, c) < s.len() ==> s[first_of(s, c)] == c,
        forall|i: int| 0 <= i < first_of(s, c) ==> s[i] != c,
        first_of(s, c) < s.len() <==> s.contains(c),
    decreases s.len(),
{
    if s.len() > 0 && s[0] != c {
        let r = s.drop_first();
        lemma_first_of(r, c);
        assert forall|i: int| 0 <= i < first_of(s, c) implies s[i] != c by {
            if i > 0 {
                assert(r[i - 1] == s[i]);
            }
        }
        if s.contains(c) {
            let k = choose|k: int| 0 <= k < s.len() && s[k] == c;
            assert(r[k - 1] == c);
        }
    }
}

/// What the last occurrence is.
pub proof fn lemma_last_of(s: Seq<char>, c: char)
    ensures
        -1 <= last_of(s, c) < s.len(),
        last_of(s, c) >= 0 ==> s[last_of(s, c)] == c,
        forall|i: int| last_of(s, c) < i < s.len() ==> s[i] != c,
    decreases s.len(),
{
    if s.len() > 0 && s.last() != c {
        let r = s.drop_last();
        lemma_last_of(r, c);
        assert forall|i: int| last_of(s, c) < i < s.len() implies s[i] != c by {
            if i < r.len() {
                assert(r[i] == s[i]);
            }
        }
    }
}

/// An index that has no earlier occurrence before it is the first one.
proof fn lemma_is_first(s: Seq<char>, c: char, at: int)
    requires
        0 <= at <= s.len(),
        forall|i: int| 0 <= i < at ==> s[i] != c,
        at < s.len() ==> s[at] == c,
    ensures
        first_of(s, c) == at,
{
    lemma_first_of(s, c);
    let k = first_of(s, c);
    if k < at {
        assert(s[k] != c);
    }
}

/// The place of the first `c` in part of a text; the part's length if it is not
/// in it.
pub fn find_first(chars: &Vec<char>, from: usize, to: usize, c: char) -> (at: usize)
    requires
        from <= to <= chars@.len(),
    ensures
        at == first_of(chars@.subrange(from as int, to as int), c),
        at <= to - from,
{
    let ghost part = chars@.subrange(from as int, to as int);
    let mut i: usize = from;
    while i < to && chars[i] != c
        invariant
            from <= i <= to <= chars@.len(),
            part == chars@.subrange(from as int, to as int),
            forall|k: int| 0 <= k < i - from ==> part[k] != c,
        decreases to - i,
    {
        i += 1;
    }
    proof {
        lemma_is_first(part, c, i - from);
    }
    i - from
}

/// The place after the last `c` in part of a text; the start if it is not in it.
pub fn find_after_last(chars: &Vec<char>, from: usize, to: usize, c: char) -> (at: usize)
    requires
        from <= to <= chars@.len(),
    ensures
        at == last_of(chars@.subrange(from as int, to as int), c) + 1,
        at <= to - from,
{
    let ghost part = chars@.subrange(from as int, to as int);
    let mut i: usize = to;
    while i > from && chars[i - 1] != c
        invariant
            from <= i <= to <= chars@.len(),
            part == chars@.subrange(from as int, to as int),
            forall|k: int| i - from <= k < part.len() ==> part[k] != c,
        decreases i,
    {
        i -= 1;
    }
    proof {
        lemma_last_of(part, c);
        let k = last_of(part, c);
        if k >= i - from {
            assert(part[k] != c);
        }
        if i > from {
            assert(part[i - from - 1] == c);
        }
    }
    i - from
}

/// Whether a character is a decimal digit.
pub open spec fn is_digit(c: char) -> bool {
    '0' <= c <= '9'
}

/// A text without the plus sign it may begin with.
pub open spec fn without_plus(s: Seq<char>) -> Seq<char> {
    if s.len() > 0 && s[0] == '+' {
        s.skip(1)
    } else {
        s
    }
}

/// The number a text stands for, if it is one of at most `max`: decimal digits,
/// with or without a plus sign before them.
pub open spec fn parsed(s: Seq<char>, max: int) -> Option<int> {
    let body = without_plus(s);
    if body.len() > 0 && (forall|i: int| 0 <= i < body.len() ==> is_digit(#[trigger] body[i]))
        && number(body) <= max {
        Some(number(body))
    } else {
        None
    }
}

/// More digits never make a number smaller.
proof fn lemma_number_grows(s: Seq<char>, k: int)
    requires
        0 <= k <= s.len(),
        forall|i: int| 0 <= i < s.len() ==> is_digit(#[trigger] s[i]),
    ensures
        0 <= number(s.take(k)) <= number(s),
    decreases s.len(),
{
    if k == s.len() {
        assert(s.take(k) =~= s);
        if k > 0 {
            lemma_number_grows(s.drop_last(), 0);
            assert(s.drop_last().take(0) =~= Seq::<char>::empty());
            assert(is_digit(s[k - 1]));
        }
    } else {
        lemma_number_grows(s.drop_last(), k);
        assert(s.drop_last().take(k) =~= s.take(k));
        assert(is_digit(s[s.len() - 1]));
    }
}

/// Read part of a text as a number of at most `max`.
pub fn parse_number(chars: &Vec<char>, from: usize, to: usize, max: u64) -> (value: Option<u64>)
    requires
        from <= to <= chars@.len(),
    ensures
        match value {
            Some(v) => parsed(chars@.subrange(from as int, to as int), max as int) == Some(v as int),
            None => parsed(chars@.subrange(from as int, to as int), max as int) is None,
        },
{
    let ghost whole = chars@.subrange(from as int, to as int);
    let start: usize = if from < to && chars[from] == '+' {
        from + 1
    } else {
        from
    };
    let ghost body = chars@.subrange(start as int, to as int);
    assert(body =~= without_plus(whole));
    if start == to {
        return None;
    }
    let mut value: u64 = 0;
    let mut i: usize = start;
    assert(body.take(0) =~= Seq::<char>::empty());
    while i < to
        invariant
            start <= i <= to <= chars@.len(),
            body == chars@.subrange(start as int, to as int),
            body == without_plus(whole),
            whole == chars@.subrange(from as int, to as int),
            forall|k: int| 0 <= k < i - start ==> is_digit(#[trigger] body[k]),
            value == number(body.take(i - start)),
            value <= max,
        decreases to - i,
    {
        let c: char = chars[i];
        if c < '0' || c > '9' {
            assert(!is_digit(body[i - start]));
            return None;
        }
        assert(is_digit(body[i - start]));
        assert(body.take(i - start + 1).drop_last() =~= body.take(i - start));
        let grown: u128 = value as u128 * 10 + (c as u32 - 48) as u128;
        assert(grown == number(body.take(i - start + 1)));
        if grown > max as u128 {
            proof {
                if forall|k: int| 0 <= k < body.len() ==> is_digit(#[trigger] body[k]) {
                    lemma_number_grows(body, i - start + 1);
                }
            }
            return None;
        }
        value = grown as u64;
        i += 1;
    }
    assert(body.take(i - start) =~= body);
    Some(value)
}

/// Several texts with a separator between them.
pub open spec fn with_between(parts: Seq<String>, separator: Seq<char>) -> Seq<char>
    decreases parts.len(),
{
    if parts.len() == 0 {
        Seq::empty()
    } else if parts.len() == 1 {
        parts[0]@
    } else {
        with_between(parts.drop_last(), separator) + separator + parts.last()@
    }
}

/// Several texts with a separator between them.
pub fn join_all(parts: &Vec<String>, separator: &str) -> (s: String)
    ensures
        s@ == with_between(parts@, separator@),
{
    let mut s = String::new();
    let mut i: usize = 0;
    while i < parts.len()
        invariant
            i <= parts@.len(),
            s@ == with_between(parts@.take(i as int), separator@),
        decreases parts@.len() - i,
    {
        assert(parts@.take(i + 1).drop_last() =~= parts@.take(i as int));
        if i > 0 {
            s.append(separator);
        }
        s.append(parts[i].as_str());
        assert(i == 0 ==> s@ =~= parts@[0]@);
        i += 1;
    }
    assert(parts@.take(i as int) =~= parts@);
    s
}

/// Alphabetical order: the first difference decides, and a text comes before
/// any longer one that begins with it.
pub open spec fn sorts_before(a: Seq<char>, b: Seq<char>) -> bool {
    exists|k: int| #[trigger] differs_at(a, b, k)
}

/// Whether `a` and `b` agree up to `k` and `a` comes first there.
pub open spec fn differs_at(a: Seq<char>, b: Seq<char>, k: int) -> bool {
    &&& 0 <= k <= a.len()
    &&& k < b.len()
    &&& forall|i: int| 0 <= i < k ==> a[i] == b[i]
    &&& k < a.len() ==> a[k] < b[k]
}

/// Of two texts that differ, exactly one comes first.
pub proof fn lemma_sorts_apart(a: Seq<char>, b: Seq<char>)
    ensures
        sorts_before(a, b) ==> a != b && !sorts_before(b, a),
        a != b ==> sorts_before(a, b) || sorts_before(b, a),
    decreases a.len(),
{
    if sorts_before(a, b) && sorts_before(b, a) {
        let k = choose|k: int| differs_at(a, b, k);
        let m = choose|m: int| differs_at(b, a, m);
        assert(k < m ==> a[k] == b[k]);
        assert(m < k ==> a[m] == b[m]);
    }
    if sorts_before(a, b) {
        let k = choose|k: int| differs_at(a, b, k);
        assert(a.len() == k || a[k] != b[k]);
    }
    if a != b {
        if a.len() == 0 {
            assert(b.len() > 0) by {
                if b.len() == 0 {
                    assert(a =~= b);
                }
            }
            assert(differs_at(a, b, 0));
        } else if b.len() == 0 {
            assert(differs_at(b, a, 0));
        } else if a[0] < b[0] {
            assert(differs_at(a, b, 0));
        } else if b[0] < a[0] {
            assert(differs_at(b, a, 0));
        } else {
            let (x, y) = (a.drop_first(), b.drop_first());
            if x == y {
                assert(a =~= seq![a[0]] + x);
                assert(b =~= seq![b[0]] + y);
                assert(a == b);
            }
            lemma_sorts_apart(x, y);
            if sorts_before(x, y) {
                let k = choose|k: int| differs_at(x, y, k);
                assert forall|i: int| 0 <= i < k + 1 implies a[i] == b[i] by {
                    if i > 0 {
                        assert(x[i - 1] == y[i - 1]);
                    }
                }
                assert(differs_at(a, b, k + 1));
            } else {
                let k = choose|k: int| differs_at(y, x, k);
                assert forall|i: int| 0 <= i < k + 1 implies b[i] == a[i] by {
                    if i > 0 {
                        assert(y[i - 1] == x[i - 1]);
                    }
                }
                assert(differs_at(b, a, k + 1));
            }
        }
    }
}

/// What comes before a text comes before all that it comes before.
pub proof fn lemma_sorts_on(a: Seq<char>, b: Seq<char>, c: Seq<char>)
    requires
        sorts_before(a, b),
        sorts_before(b, c),
    ensures
        sorts_before(a, c),
{
    let k = choose|k: int| differs_at(a, b, k);
    let m = choose|m: int| differs_at(b, c, m);
    let n = if k <= m {
        k
    } else {
        m
    };
    assert forall|i: int| 0 <= i < n implies a[i] == c[i] by {
        assert(a[i] == b[i] && b[i] == c[i]);
    }
    assert(k < m ==> b[k] == c[k]);
    assert(m < k ==> a[m] == b[m]);
    assert(differs_at(a, c, n));
}

/// Whether some texts are in alphabetical order, none of them twice.
pub open spec fn ascending(texts: Seq<Seq<char>>) -> bool {
    forall|i: int, j: int|
        0 <= i < j < texts.len() ==> sorts_before(#[trigger] texts[i], #[trigger] texts[j])
}

/// Texts in alphabetical order are all different.
pub proof fn lemma_ascending(texts: Seq<Seq<char>>)
    requires
        ascending(texts),
    ensures
        texts.no_duplicates(),
{
    assert forall|i: int, j: int| 0 <= i < texts.len() && 0 <= j < texts.len() && i != j implies
        texts[i] != texts[j] by {
        if i < j {
            lemma_sorts_apart(texts[i], texts[j]);
        } else {
            lemma_sorts_apart(texts[j], texts[i]);
        }
    }
}

/// Whether a text comes before another.
pub fn precedes(a: &str, b: &str) -> (before: bool)
    ensures
        before == sorts_before(a@, b@),
{
    let x = to_chars(a);
    let y = to_chars(b);
    proof {
        lemma_sorts_apart(a@, b@);
    }
    let mut i: usize = 0;
    while i < x.len() && i < y.len() && x[i] == y[i]
        invariant
            x@ == a@,
            y@ == b@,
            i <= x@.len(),
            i <= y@.len(),
            forall|k: int| 0 <= k < i ==> x@[k] == y@[k],
        decreases x@.len() - i,
    {
        i += 1;
    }
    if i == y.len() {
        proof {
            if i < x@.len() {
                assert(differs_at(b@, a@, i as int));
            } else {
                assert(a@ =~= b@);
            }
        }
        return false;
    }
    if i == x.len() {
        assert(differs_at(a@, b@, i as int));
        return true;
    }
    proof {
        if x@[i as int] < y@[i as int] {
            assert(differs_at(a@, b@, i as int));
        } else {
            assert(differs_at(b@, a@, i as int));
        }
    }
    x[i] < y[i]
}

/// In two texts that begin with parts of one length, the parts are compared
/// first.
pub proof fn lemma_sorts_by_parts(a: Seq<char>, b: Seq<char>, c: Seq<char>, d: Seq<char>)
    requires
        a.len() == b.len(),
        sorts_before(a, b) || (a == b && sorts_before(c, d)),
    ensures
        sorts_before(a + c, b + d),
{
    if sorts_before(a, b) {
        let k = choose|k: int| differs_at(a, b, k);
        assert(differs_at(a + c, b + d, k));
    } else {
        let k = choose|k: int| differs_at(c, d, k);
        assert forall|i: int| 0 <= i < k + a.len() implies (a + c)[i] == (b + d)[i] by {
            if i >= a.len() {
                assert(c[i - a.len()] == d[i - a.len()]);
            }
        }
        assert(differs_at(a + c, b + d, k + a.len()));
    }
}

/// Numbers written with the same number of digits sort as they count.
pub proof fn lemma_digits_sort(m: nat, n: nat, width: nat)
    requires
        m < n < limit(width),
    ensures
        sorts_before(digits(m, width), digits(n, width)),
    decreases width,
{
    lemma_digits_len(m, width);
    lemma_digits_len(n, width);
    if width > 0 {
        let w = (width - 1) as nat;
        lemma_digits_len(m / 10, w);
        lemma_digits_len(n / 10, w);
        let a = digits(m / 10, w);
        let b = digits(n / 10, w);
        let c = seq![digit((m % 10) as int)];
        let d = seq![digit((n % 10) as int)];
        if m / 10 < n / 10 {
            lemma_digits_sort(m / 10, n / 10, w);
        } else {
            assert(m / 10 == n / 10);
            assert(m % 10 < n % 10);
            assert(differs_at(c, d, 0));
        }
        lemma_sorts_by_parts(a, b, c, d);
        assert(a + c =~= digits(m, width));
        assert(b + d =~= digits(n, width));
    }
}

/// The views of some texts.
pub open spec fn views(texts: Seq<String>) -> Seq<Seq<char>> {
    texts.map_values(|t: String| t@)
}

/// The characters of a text, if there is one.
pub open spec fn chars_of(text: Option<&str>) -> Option<Seq<char>> {
    match text {
        Some(t) => Some(t@),
        None => None,
    }
}

/// A text that may be missing, as plain values.
pub open spec fn told_of(text: Option<String>) -> Option<Seq<char>> {
    match text {
        Some(text) => Some(text@),
        None => None,
    }
}

/// The parts of a text between the `c`s in it; the text itself where there is
/// none.
pub open spec fn split(s: Seq<char>, c: char) -> Seq<Seq<char>>
    decreases s.len(),
{
    let k = first_of(s, c);
    if 0 <= k < s.len() {
        seq![s.take(k)] + split(s.skip(k + 1), c)
    } else {
        seq![s]
    }
}

/// The parts of a text between the `c`s in it.
pub fn split_at_each(s: &str, c: char) -> (parts: Vec<String>)
    ensures
        views(parts@) == split(s@, c),
        parts@.len() > 0,
{
    let chars = to_chars(s);
    let n: usize = chars.len();
    let mut parts: Vec<String> = Vec::new();
    let mut from: usize = 0;
    assert(chars@.skip(0) =~= s@);
    assert(views(parts@) + split(s@, c) =~= split(s@, c));
    loop
        invariant
            from <= n == chars@.len(),
            views(parts@) + split(chars@.skip(from as int), c) == split(s@, c),
        decreases n - from,
    {
        let ghost (before, rest) = (parts@, chars@.skip(from as int));
        let k: usize = find_first(&chars, from, n, c);
        assert(chars@.subrange(from as int, n as int) =~= rest);
        if k == n - from {
            parts.push(from_chars(&chars, from, n));
            assert(views(parts@) =~= views(before) + seq![rest]);
            return parts;
        }
        parts.push(from_chars(&chars, from, from + k));
        proof {
            assert(rest.take(k as int) =~= parts@.last()@);
            assert(rest.skip(k + 1) =~= chars@.skip(from + k + 1));
            assert(views(parts@) =~= views(before) + seq![rest.take(k as int)]);
            assert(views(parts@) + split(rest.skip(k + 1), c) =~= views(before) + split(rest, c));
        }
        from = from + k + 1;
    }
}

/// Whether a character is white space: whether it has the `White_Space` property
/// of Unicode.
pub open spec fn white(c: char) -> bool {
    ||| '\u{9}' <= c <= '\u{d}'
    ||| c == ' '
    ||| c == '\u{85}'
    ||| c == '\u{a0}'
    ||| c == '\u{1680}'
    ||| '\u{2000}' <= c <= '\u{200a}'
    ||| c == '\u{2028}'
    ||| c == '\u{2029}'
    ||| c == '\u{202f}'
    ||| c == '\u{205f}'
    ||| c == '\u{3000}'
}

/// `char::is_whitespace` of the standard library: whether the character has the
/// `White_Space` property.
pub assume_specification[ char::is_whitespace ](c: char) -> (is_white: bool)
    ensures
        is_white == white(c),
;

/// A text without the white space it ends with.
pub open spec fn without_white_end(s: Seq<char>) -> Seq<char>
    decreases s.len(),
{
    if s.len() > 0 && white(s.last()) {
        without_white_end(s.drop_last())
    } else {
        s
    }
}

/// A text without the white space it begins with.
pub open spec fn without_white_start(s: Seq<char>) -> Seq<char>
    decreases s.len(),
{
    if s.len() > 0 && white(s[0]) {
        without_white_start(s.drop_first())
    } else {
        s
    }
}

/// Where the white space begins that a part of a text ends with.
pub fn white_end(chars: &Vec<char>, from: usize) -> (end: usize)
    requires
        from <= chars@.len(),
    ensures
        from <= end <= chars@.len(),
        chars@.subrange(from as int, end as int) == without_white_end(chars@.skip(from as int)),
{
    let mut end: usize = chars.len();
    assert(chars@.subrange(from as int, end as int) =~= chars@.skip(from as int));
    while end > from && chars[end - 1].is_whitespace()
        invariant
            from <= end <= chars@.len(),
            without_white_end(chars@.subrange(from as int, end as int)) == without_white_end(
                chars@.skip(from as int),
            ),
        decreases end,
    {
        assert(chars@.subrange(from as int, end as int).drop_last() =~= chars@.subrange(
            from as int,
            end - 1,
        ));
        end -= 1;
    }
    end
}

/// A text without the white space at either end.
pub fn trim_white(s: &str) -> (trimmed: String)
    ensures
        trimmed@ == without_white_end(without_white_start(s@)),
{
    let chars = to_chars(s);
    let mut from: usize = 0;
    assert(chars@.skip(0) =~= s@);
    while from < chars.len() && chars[from].is_whitespace()
        invariant
            from <= chars@.len(),
            without_white_start(chars@.skip(from as int)) == without_white_start(s@),
        decreases chars@.len() - from,
    {
        assert(chars@.skip(from as int).drop_first() =~= chars@.skip(from + 1));
        from += 1;
    }
    assert(from < chars@.len() ==> chars@.skip(from as int)[0] == chars@[from as int]);
    let end: usize = white_end(&chars, from);
    from_chars(&chars, from, end)
}

/// Trimming takes white space away at the two ends and nothing else: what is left is
/// a part of the text that neither begins nor ends with any, and all that was taken
/// is white.
pub proof fn trimming_takes_only_white_space(s: Seq<char>) -> (ends: (int, int))
    ensures
        0 <= ends.0 <= ends.1 <= s.len(),
        without_white_end(without_white_start(s)) == s.subrange(ends.0, ends.1),
        forall|i: int| 0 <= i < ends.0 ==> white(#[trigger] s[i]),
        forall|i: int| ends.1 <= i < s.len() ==> white(#[trigger] s[i]),
        ends.0 < ends.1 ==> !white(s[ends.0]) && !white(s[ends.1 - 1]),
{
    let from = lemma_white_start(s);
    let rest = s.skip(from);
    let to = lemma_white_end(rest);
    assert(rest.take(to) =~= s.subrange(from, from + to));
    assert forall|i: int| from + to <= i < s.len() implies white(#[trigger] s[i]) by {
        assert(rest[i - from] == s[i]);
    }
    if to > 0 {
        assert(rest[to - 1] == s[from + to - 1]);
        assert(rest[0] == s[from]);
    }
    (from, from + to)
}

/// How much white space a text begins with.
proof fn lemma_white_start(s: Seq<char>) -> (from: int)
    ensures
        0 <= from <= s.len(),
        without_white_start(s) == s.skip(from),
        forall|i: int| 0 <= i < from ==> white(#[trigger] s[i]),
        from < s.len() ==> !white(s[from]),
    decreases s.len(),
{
    if s.len() > 0 && white(s[0]) {
        let rest = s.drop_first();
        let k = lemma_white_start(rest);
        assert(rest.skip(k) =~= s.skip(k + 1));
        assert forall|i: int| 0 <= i < k + 1 implies white(#[trigger] s[i]) by {
            if i > 0 {
                assert(rest[i - 1] == s[i]);
            }
        }
        if k < rest.len() {
            assert(rest[k] == s[k + 1]);
        }
        k + 1
    } else {
        assert(s.skip(0) =~= s);
        0
    }
}

/// Where the white space begins that a text ends with.
proof fn lemma_white_end(s: Seq<char>) -> (to: int)
    ensures
        0 <= to <= s.len(),
        without_white_end(s) == s.take(to),
        forall|i: int| to <= i < s.len() ==> white(#[trigger] s[i]),
        to > 0 ==> !white(s[to - 1]),
    decreases s.len(),
{
    if s.len() > 0 && white(s.last()) {
        let rest = s.drop_last();
        let k = lemma_white_end(rest);
        assert(rest.take(k) =~= s.take(k));
        assert forall|i: int| k <= i < s.len() implies white(#[trigger] s[i]) by {
            if i < rest.len() {
                assert(rest[i] == s[i]);
            }
        }
        k
    } else {
        assert(s.take(s.len() as int) =~= s);
        s.len() as int
    }
}

/// A text without the copies of `prefix` it begins with.
pub open spec fn without_prefixes(s: Seq<char>, prefix: Seq<char>) -> Seq<char>
    decreases s.len(),
{
    if prefix.len() > 0 && begins(s, prefix) {
        without_prefixes(s.skip(prefix.len() as int), prefix)
    } else {
        s
    }
}

/// Copies of some texts.
pub fn copies(texts: &Vec<String>) -> (same: Vec<String>)
    ensures
        same@ == texts@,
{
    let mut same: Vec<String> = Vec::new();
    let mut i: usize = 0;
    while i < texts.len()
        invariant
            i <= texts@.len(),
            same@ == texts@.take(i as int),
        decreases texts@.len() - i,
    {
        same.push(texts[i].clone());
        i += 1;
        assert(same@ =~= texts@.take(i as int));
    }
    assert(texts@.take(i as int) =~= texts@);
    same
}

/// Whether two lists hold the same texts in the same order.
pub fn same_all(a: &Vec<String>, b: &Vec<String>) -> (equal: bool)
    ensures
        equal == (views(a@) == views(b@)),
{
    if a.len() != b.len() {
        assert(views(a@).len() != views(b@).len());
        return false;
    }
    let mut i: usize = 0;
    while i < a.len()
        invariant
            i <= a@.len() == b@.len(),
            forall|k: int| 0 <= k < i ==> (#[trigger] a@[k])@ == b@[k]@,
        decreases a@.len() - i,
    {
        if !same(a[i].as_str(), b[i].as_str()) {
            assert(views(a@)[i as int] != views(b@)[i as int]);
            return false;
        }
        i += 1;
    }
    assert(views(a@) =~= views(b@));
    true
}

/// The signed number a text stands for, if it is one that fits: decimal digits,
/// with or without a sign before them.
pub open spec fn parsed_signed(s: Seq<char>) -> Option<int> {
    if s.len() > 0 && s[0] == '-' {
        if s.len() > 1 && s[1] == '+' {
            None
        } else {
            match parsed(s.skip(1), 0x8000_0000_0000_0000) {
                Some(n) => Some(-n),
                None => None,
            }
        }
    } else {
        parsed(s, i64::MAX as int)
    }
}

/// Read a text as a signed number.
pub fn parse_signed(s: &str) -> (value: Option<i64>)
    ensures
        match value {
            Some(v) => parsed_signed(s@) == Some(v as int),
            None => parsed_signed(s@) is None,
        },
{
    let chars = to_chars(s);
    let n: usize = chars.len();
    assert(chars@.subrange(0, n as int) =~= s@);
    if n > 0 && chars[0] == '-' {
        if n > 1 && chars[1] == '+' {
            return None;
        }
        assert(chars@.subrange(1, n as int) =~= s@.skip(1));
        return match parse_number(&chars, 1, n, 0x8000_0000_0000_0000) {
            Some(v) => Some((-(v as i128)) as i64),
            None => None,
        };
    }
    match parse_number(&chars, 0, n, i64::MAX as u64) {
        Some(v) => Some(v as i64),
        None => None,
    }
}

/// A number that is small enough is read back from its decimal form, with or
/// without a plus sign before it; one that is not is refused.
pub proof fn a_number_is_read_back(n: nat, max: int)
    ensures
        n <= max ==> parsed(decimal(n), max) == Some(n as int) && parsed(
            seq!['+'] + decimal(n),
            max,
        ) == Some(n as int),
        n > max ==> parsed(decimal(n), max) is None && parsed(seq!['+'] + decimal(n), max) is None,
{
    lemma_decimal_reads_back(n);
    let d = decimal(n);
    assert('0' <= d[0] <= '9');
    assert(without_plus(d) == d);
    assert((seq!['+'] + d).skip(1) =~= d);
    assert(without_plus(seq!['+'] + d) == d);
    assert forall|i: int| 0 <= i < d.len() implies is_digit(#[trigger] d[i]) by {
        assert('0' <= d[i] <= '9');
    }
}

/// What is read as a number is nothing but digits, after one plus sign at most,
/// and no more than was allowed.
pub proof fn only_digits_are_a_number(s: Seq<char>, max: int)
    requires
        parsed(s, max) is Some,
    ensures
        0 <= parsed(s, max)->0 <= max,
        s.len() > 0,
        s[0] == '+' ==> s.len() > 1,
        s[0] == '+' || '0' <= s[0] <= '9',
        forall|i: int| 1 <= i < s.len() ==> '0' <= #[trigger] s[i] <= '9',
{
    let body = without_plus(s);
    lemma_number_grows(body, 0);
    assert(body.take(0) =~= Seq::<char>::empty());
    assert(is_digit(body[0]));
    assert forall|i: int| 1 <= i < s.len() implies '0' <= #[trigger] s[i] <= '9' by {
        if s[0] == '+' {
            assert(s[i] == body[i - 1]);
            assert(is_digit(body[i - 1]));
        } else {
            assert(is_digit(body[i]));
        }
    }
}

/// A signed number that fits is read back from a minus sign and its decimal form.
pub proof fn a_negative_number_is_read_back(n: nat)
    ensures
        n <= 9_223_372_036_854_775_808 ==> parsed_signed(seq!['-'] + decimal(n)) == Some(-(n as int)),
        n > 9_223_372_036_854_775_808 ==> parsed_signed(seq!['-'] + decimal(n)) is None,
        n <= 9_223_372_036_854_775_807 ==> parsed_signed(decimal(n)) == Some(n as int),
        n > 9_223_372_036_854_775_807 ==> parsed_signed(decimal(n)) is None,
{
    lemma_decimal_reads_back(n);
    let d = decimal(n);
    assert('0' <= d[0] <= '9');
    a_number_is_read_back(n, 9_223_372_036_854_775_808);
    a_number_is_read_back(n, 9_223_372_036_854_775_807);
    assert((seq!['-'] + d).skip(1) =~= d);
    assert((seq!['-'] + d)[1] == d[0]);
}

/// Some texts, each after the first with a `c` before it.
pub open spec fn glued(parts: Seq<Seq<char>>, c: char) -> Seq<char>
    decreases parts.len(),
{
    if parts.len() == 0 {
        Seq::empty()
    } else if parts.len() == 1 {
        parts[0]
    } else {
        parts[0] + seq![c] + glued(parts.drop_first(), c)
    }
}

/// Splitting a text at a character loses nothing: no part holds the character, and
/// the parts with one between each make the text again.
pub proof fn splitting_loses_nothing(s: Seq<char>, c: char)
    ensures
        split(s, c).len() > 0,
        forall|i: int| 0 <= i < split(s, c).len() ==> !(#[trigger] split(s, c)[i]).contains(c),
        glued(split(s, c), c) == s,
    decreases s.len(),
{
    lemma_first_of(s, c);
    let k = first_of(s, c);
    if k < s.len() {
        let rest = s.skip(k + 1);
        splitting_loses_nothing(rest, c);
        let parts = split(s, c);
        assert(parts.drop_first() =~= split(rest, c));
        assert(s =~= s.take(k) + seq![c] + rest);
        assert forall|i: int| 0 <= i < parts.len() implies !(#[trigger] parts[i]).contains(c) by {
            if i > 0 {
                assert(parts[i] == split(rest, c)[i - 1]);
            }
        }
    }
}

/// Trimming a character takes that character off both ends, as often as it is
/// there, and nothing else.
pub proof fn trimming_takes_only_that_character(s: Seq<char>, c: char) -> (ends: (int, int))
    ensures
        0 <= ends.0 <= ends.1 <= s.len(),
        trim(s, c) == s.subrange(ends.0, ends.1),
        forall|i: int| 0 <= i < ends.0 ==> #[trigger] s[i] == c,
        forall|i: int| ends.1 <= i < s.len() ==> #[trigger] s[i] == c,
        trim(s, c).len() > 0 ==> trim(s, c)[0] != c && trim(s, c).last() != c,
{
    let from = lemma_trimmed_start(s, c);
    let to = lemma_trimmed_end(s.skip(from), c);
    assert(trim_start(s, c) == s.skip(from));
    assert(s.skip(from).take(to) =~= s.subrange(from, from + to));
    assert forall|i: int| from + to <= i < s.len() implies #[trigger] s[i] == c by {
        assert(s.skip(from)[i - from] == s[i]);
    }
    (from, from + to)
}

proof fn lemma_trimmed_start(s: Seq<char>, c: char) -> (from: int)
    ensures
        0 <= from <= s.len(),
        trim_start(s, c) == s.skip(from),
        forall|i: int| 0 <= i < from ==> #[trigger] s[i] == c,
        from < s.len() ==> s[from] != c,
    decreases s.len(),
{
    if s.len() > 0 && s[0] == c {
        let rest = s.drop_first();
        let k = lemma_trimmed_start(rest, c);
        assert(rest.skip(k) =~= s.skip(k + 1));
        assert forall|i: int| 0 <= i < k + 1 implies #[trigger] s[i] == c by {
            if i > 0 {
                assert(s[i] == rest[i - 1]);
            }
        }
        k + 1
    } else {
        assert(s.skip(0) =~= s);
        0
    }
}

proof fn lemma_trimmed_end(s: Seq<char>, c: char) -> (to: int)
    ensures
        0 <= to <= s.len(),
        trim_end(s, c) == s.take(to),
        forall|i: int| to <= i < s.len() ==> #[trigger] s[i] == c,
        to > 0 ==> s[to - 1] != c,
    decreases s.len(),
{
    if s.len() > 0 && s.last() == c {
        let rest = s.drop_last();
        let k = lemma_trimmed_end(rest, c);
        assert(rest.take(k) =~= s.take(k));
        assert forall|i: int| k <= i < s.len() implies #[trigger] s[i] == c by {
            if i < rest.len() {
                assert(s[i] == rest[i]);
            }
        }
        k
    } else {
        assert(s.take(s.len() as int) =~= s);
        s.len() as int
    }
}

/// A number filled up to a width keeps its value, is as wide as asked for or just
/// as wide as its digits, and holds nothing but digits.
pub proof fn filling_up_keeps_the_number(n: nat, width: nat)
    ensures
        number(padded(n, width)) == n,
        padded(n, width).len() == if decimal(n).len() >= width {
            decimal(n).len()
        } else {
            width
        },
        forall|i: int|
            0 <= i < padded(n, width).len() ==> '0' <= #[trigger] padded(n, width)[i] <= '9',
{
    lemma_decimal_reads_back(n);
    let plain = decimal(n);
    if plain.len() < width {
        let zeros = digits(0, (width - plain.len()) as nat);
        lemma_limit_is_positive((width - plain.len()) as nat);
        lemma_digits_read_back(0, (width - plain.len()) as nat);
        lemma_number_after_nothing(zeros, plain);
        assert forall|i: int|
            0 <= i < padded(n, width).len() implies '0' <= #[trigger] padded(n, width)[i] <= '9' by {
            if i >= zeros.len() {
                assert(padded(n, width)[i] == plain[i - zeros.len()]);
            } else {
                assert(padded(n, width)[i] == zeros[i]);
            }
        }
    }
}

proof fn lemma_limit_is_positive(width: nat)
    ensures
        limit(width) > 0,
    decreases width,
{
    if width > 0 {
        lemma_limit_is_positive((width - 1) as nat);
    }
}

/// Digits that stand for nothing change no number that follows them.
proof fn lemma_number_after_nothing(zeros: Seq<char>, s: Seq<char>)
    requires
        number(zeros) == 0,
    ensures
        number(zeros + s) == number(s),
    decreases s.len(),
{
    if s.len() == 0 {
        assert(zeros + s =~= zeros);
    } else {
        lemma_number_after_nothing(zeros, s.drop_last());
        assert((zeros + s).drop_last() =~= zeros + s.drop_last());
    }
}

/// A signed number filled up to a width is a minus sign, where it is below zero, and
/// the digits of its distance from zero.
pub proof fn filling_up_keeps_the_sign(n: int, width: nat)
    ensures
        n >= 0 ==> number(padded_signed(n, width)) == n && padded_signed(n, width).len() >= width,
        n < 0 ==> padded_signed(n, width)[0] == '-' && number(padded_signed(n, width).skip(1)) == -n
            && padded_signed(n, width).len() >= width,
{
    if n < 0 {
        let rest = if width == 0 {
            0
        } else {
            (width - 1) as nat
        };
        filling_up_keeps_the_number((-n) as nat, rest);
        assert(padded_signed(n, width).skip(1) =~= padded((-n) as nat, rest));
    } else {
        filling_up_keeps_the_number(n as nat, width);
    }
}

/// Joining texts goes on text by text, with the separator between each.
pub proof fn joining_goes_on_text_by_text(parts: Seq<String>, part: String, separator: Seq<char>)
    ensures
        with_between(Seq::empty(), separator) == Seq::<char>::empty(),
        parts.len() == 0 ==> with_between(parts.push(part), separator) == part@,
        parts.len() > 0 ==> with_between(parts.push(part), separator) == with_between(
            parts,
            separator,
        ) + separator + part@,
{
    assert(parts.push(part).drop_last() =~= parts);
}

/// Alphabetical order goes by the first difference: there the lower character comes
/// first, whatever follows; and a text comes before any longer one that begins with it.
pub proof fn the_first_difference_decides(
    front: Seq<char>,
    a: char,
    b: char,
    x: Seq<char>,
    y: Seq<char>,
)
    ensures
        a < b ==> sorts_before(front + seq![a] + x, front + seq![b] + y),
        a < b ==> !sorts_before(front + seq![b] + y, front + seq![a] + x),
        sorts_before(front, front + seq![a] + x),
{
    let n = front.len() as int;
    let (s, t) = (front + seq![a] + x, front + seq![b] + y);
    if a < b {
        assert(s[n] == a && t[n] == b);
        assert(differs_at(s, t, n));
        lemma_sorts_apart(s, t);
    }
    assert(differs_at(front, s, n));
}

} // verus!
