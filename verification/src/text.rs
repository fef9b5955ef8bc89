use vstd::prelude::*;

verus! {

// ---------------------------------------------------------------------------
// Characters
// ---------------------------------------------------------------------------

/// The Unicode `White_Space` property, which `char::is_whitespace` tests.
pub open spec fn is_whitespace(c: char) -> bool {
    ||| c == ' '
    ||| ('\t' <= c && c <= '\r')
    ||| c == '\u{85}'
    ||| c == '\u{A0}'
    ||| c == '\u{1680}'
    ||| ('\u{2000}' <= c && c <= '\u{200A}')
    ||| c == '\u{2028}'
    ||| c == '\u{2029}'
    ||| c == '\u{202F}'
    ||| c == '\u{205F}'
    ||| c == '\u{3000}'
}

pub fn is_whitespace_char(c: char) -> (r: bool)
    ensures
        r == is_whitespace(c),
{
    c == ' ' || ('\t' <= c && c <= '\r') || c == '\u{85}' || c == '\u{A0}' || c == '\u{1680}'
        || ('\u{2000}' <= c && c <= '\u{200A}') || c == '\u{2028}' || c == '\u{2029}'
        || c == '\u{202F}' || c == '\u{205F}' || c == '\u{3000}'
}

/// `char::to_ascii_lowercase`: `A`..=`Z` become `a`..=`z`, every other character stays.
pub open spec fn ascii_lower(c: char) -> char {
    if 'A' <= c && c <= 'Z' {
        ((c as u32) + 32) as char
    } else {
        c
    }
}

/// `str::to_ascii_lowercase` on a character sequence.
pub open spec fn lowercase(s: Seq<char>) -> Seq<char> {
    s.map_values(|c: char| ascii_lower(c))
}

pub fn ascii_lower_char(c: char) -> (r: char)
    ensures
        r == ascii_lower(c),
{
    if 'A' <= c && c <= 'Z' {
        ((c as u8) + 32) as char
    } else {
        c
    }
}

/// The characters of `s`, in order.
pub fn chars_of(s: &str) -> (chars: Vec<char>)
    ensures
        chars@ == s@,
{
    let mut chars: Vec<char> = Vec::new();
    for c in it: s.chars()
        invariant
            chars@ == it.seq().take(it.index()),
    {
        chars.push(c);
    }
    chars
}

pub fn lowercase_chars(s: &Vec<char>) -> (r: Vec<char>)
    ensures
        r@ == lowercase(s@),
{
    let mut r: Vec<char> = Vec::new();
    let mut i: usize = 0;
    while i < s.len()
        invariant
            i <= s@.len(),
            r@ == lowercase(s@.take(i as int)),
        decreases s@.len() - i,
    {
        r.push(ascii_lower_char(s[i]));
        assert(lowercase(s@.take(i + 1)) =~= lowercase(s@.take(i as int)).push(ascii_lower(s@[i as int])));
        i = i + 1;
    }
    assert(s@.take(s@.len() as int) =~= s@);
    r
}

/// Whether two character sequences are equal.
pub fn chars_eq(a: &Vec<char>, b: &Vec<char>) -> (r: bool)
    ensures
        r == (a@ == b@),
{
    if a.len() != b.len() {
        return false;
    }
    let mut i: usize = 0;
    while i < a.len()
        invariant
            a@.len() == b@.len(),
            i <= a@.len(),
            forall|j: int| 0 <= j < i ==> a@[j] == b@[j],
        decreases a@.len() - i,
    {
        if a[i] != b[i] {
            return false;
        }
        i = i + 1;
    }
    assert(a@ =~= b@);
    true
}

/// Whether `s` begins with `prefix`.
pub open spec fn starts_with(s: Seq<char>, prefix: Seq<char>) -> bool {
    s.len() >= prefix.len() && s.subrange(0, prefix.len() as int) == prefix
}

pub fn starts_with_chars(s: &Vec<char>, prefix: &Vec<char>) -> (r: bool)
    ensures
        r == starts_with(s@, prefix@),
{
    if s.len() < prefix.len() {
        return false;
    }
    let mut i: usize = 0;
    while i < prefix.len()
        invariant
            s@.len() >= prefix@.len(),
            i <= prefix@.len(),
            forall|j: int| 0 <= j < i ==> s@[j] == prefix@[j],
        decreases prefix@.len() - i,
    {
        if s[i] != prefix[i] {
            assert(s@.subrange(0, prefix@.len() as int)[i as int] != prefix@[i as int]);
            return false;
        }
        i = i + 1;
    }
    assert(s@.subrange(0, prefix@.len() as int) =~= prefix@);
    true
}

// ---------------------------------------------------------------------------
// Splitting
// ---------------------------------------------------------------------------

/// The views of a sequence of character vectors.
pub open spec fn views(v: Seq<Vec<char>>) -> Seq<Seq<char>> {
    v.map_values(|p: Vec<char>| p@)
}

/// The pieces of `s` between the occurrences of `sep`, as `str::split` with a
/// character pattern yields them (there is always at least one piece).
pub open spec fn split_on(s: Seq<char>, sep: char) -> Seq<Seq<char>>
    decreases s.len(),
{
    if s.len() == 0 {
        seq![Seq::<char>::empty()]
    } else {
        let prev = split_on(s.drop_last(), sep);
        if s.last() == sep {
            prev.push(Seq::<char>::empty())
        } else {
            prev.update(prev.len() - 1, prev.last().push(s.last()))
        }
    }
}

pub proof fn lemma_split_on_nonempty(s: Seq<char>, sep: char)
    ensures
        split_on(s, sep).len() >= 1,
    decreases s.len(),
{
    if s.len() > 0 {
        lemma_split_on_nonempty(s.drop_last(), sep);
    }
}

pub fn split_chars(s: &Vec<char>, sep: char) -> (pieces: Vec<Vec<char>>)
    ensures
        views(pieces@) == split_on(s@, sep),
{
    let mut pieces: Vec<Vec<char>> = Vec::new();
    let mut current: Vec<char> = Vec::new();
    let mut i: usize = 0;
    while i < s.len()
        invariant
            i <= s@.len(),
            views(pieces@).push(current@) == split_on(s@.take(i as int), sep),
        decreases s@.len() - i,
    {
        let c = s[i];
        proof {
            assert(s@.take(i + 1).drop_last() =~= s@.take(i as int));
            lemma_split_on_nonempty(s@.take(i as int), sep);
        }
        let ghost before = views(pieces@).push(current@);
        if c == sep {
            pieces.push(current);
            current = Vec::new();
            assert(views(pieces@).push(current@) =~= before.push(Seq::<char>::empty()));
        } else {
            current.push(c);
            assert(views(pieces@).push(current@) =~= before.update(
                before.len() - 1,
                before.last().push(c),
            ));
        }
        i = i + 1;
    }
    assert(s@.take(s@.len() as int) =~= s@);
    let ghost before = views(pieces@).push(current@);
    pieces.push(current);
    assert(views(pieces@) =~= before);
    pieces
}

/// The maximal runs of non-whitespace characters of `s`, as `str::split_whitespace`
/// yields them.
pub open spec fn words(s: Seq<char>) -> Seq<Seq<char>>
    decreases s.len(),
{
    if s.len() == 0 {
        Seq::<Seq<char>>::empty()
    } else {
        let prev = words(s.drop_last());
        let c = s.last();
        if is_whitespace(c) {
            prev
        } else if s.len() >= 2 && !is_whitespace(s[s.len() - 2]) {
            prev.update(prev.len() - 1, prev.last().push(c))
        } else {
            prev.push(seq![c])
        }
    }
}

proof fn lemma_words_nonempty(s: Seq<char>)
    requires
        s.len() >= 1,
        !is_whitespace(s.last()),
    ensures
        words(s).len() >= 1,
    decreases s.len(),
{
    reveal_with_fuel(words, 2);
    if s.len() >= 2 && !is_whitespace(s[s.len() - 2]) {
        lemma_words_nonempty(s.drop_last());
    }
}

pub fn words_of(s: &Vec<char>) -> (tokens: Vec<Vec<char>>)
    ensures
        views(tokens@) == words(s@),
{
    let mut tokens: Vec<Vec<char>> = Vec::new();
    let mut in_word = false;
    let mut i: usize = 0;
    while i < s.len()
        invariant
            i <= s@.len(),
            views(tokens@) == words(s@.take(i as int)),
            in_word == (i > 0 && !is_whitespace(s@[i - 1])),
        decreases s@.len() - i,
    {
        let c = s[i];
        proof {
            assert(s@.take(i + 1).drop_last() =~= s@.take(i as int));
            if in_word {
                assert(s@.take(i as int).last() == s@[i - 1]);
                lemma_words_nonempty(s@.take(i as int));
            }
        }
        let ghost before = views(tokens@);
        if is_whitespace_char(c) {
            in_word = false;
        } else if in_word {
            let mut last = tokens.pop().unwrap();
            last.push(c);
            tokens.push(last);
            assert(views(tokens@) =~= before.update(before.len() - 1, before.last().push(c)));
        } else {
            let mut word: Vec<char> = Vec::new();
            word.push(c);
            tokens.push(word);
            assert(views(tokens@) =~= before.push(seq![c]));
            in_word = true;
        }
        i = i + 1;
    }
    assert(s@.take(s@.len() as int) =~= s@);
    tokens
}

// ---------------------------------------------------------------------------
// Trimming and searching
// ---------------------------------------------------------------------------

/// `s` without its leading whitespace.
pub open spec fn trim_start(s: Seq<char>) -> Seq<char>
    decreases s.len(),
{
    if s.len() > 0 && is_whitespace(s[0]) {
        trim_start(s.drop_first())
    } else {
        s
    }
}

/// `s` without its trailing whitespace.
pub open spec fn trim_end(s: Seq<char>) -> Seq<char>
    decreases s.len(),
{
    if s.len() > 0 && is_whitespace(s.last()) {
        trim_end(s.drop_last())
    } else {
        s
    }
}

/// `str::trim`: `s` without leading and trailing whitespace.
pub open spec fn trim(s: Seq<char>) -> Seq<char> {
    trim_end(trim_start(s))
}

/// The characters of `s` from `start` on, without leading and trailing whitespace.
pub fn trim_from(s: &Vec<char>, start: usize) -> (r: Vec<char>)
    requires
        start <= s@.len(),
    ensures
        r@ == trim(s@.skip(start as int)),
{
    let mut lo = start;
    while lo < s.len() && is_whitespace_char(s[lo])
        invariant
            start <= lo <= s@.len(),
            trim_start(s@.skip(start as int)) == trim_start(s@.skip(lo as int)),
        decreases s@.len() - lo,
    {
        assert(s@.skip(lo as int).drop_first() =~= s@.skip(lo + 1));
        lo = lo + 1;
    }
    assert(trim_start(s@.skip(lo as int)) == s@.skip(lo as int));
    let mut hi = s.len();
    while hi > lo && is_whitespace_char(s[hi - 1])
        invariant
            lo <= hi <= s@.len(),
            trim_end(s@.skip(lo as int)) == trim_end(s@.subrange(lo as int, hi as int)),
        decreases hi,
    {
        assert(s@.subrange(lo as int, hi as int).drop_last() =~= s@.subrange(lo as int, hi - 1));
        hi = hi - 1;
    }
    assert(s@.skip(lo as int) =~= s@.subrange(lo as int, s@.len() as int));
    let mut r: Vec<char> = Vec::new();
    let mut i = lo;
    while i < hi
        invariant
            lo <= i <= hi <= s@.len(),
            r@ == s@.subrange(lo as int, i as int),
        decreases hi - i,
    {
        r.push(s[i]);
        assert(r@ =~= s@.subrange(lo as int, i + 1));
        i = i + 1;
    }
    r
}

/// The first position at or after `i` where `pattern` occurs in `s`.
pub open spec fn find_from(s: Seq<char>, pattern: Seq<char>, i: int) -> Option<int>
    decreases s.len() + 1 - i,
{
    if i < 0 || i + pattern.len() > s.len() {
        None
    } else if s.subrange(i, i + pattern.len()) == pattern {
        Some(i)
    } else {
        find_from(s, pattern, i + 1)
    }
}

pub proof fn lemma_find_from_found(s: Seq<char>, pattern: Seq<char>, i: int)
    requires
        find_from(s, pattern, i) is Some,
    ensures
        i <= find_from(s, pattern, i)->0,
        find_from(s, pattern, i)->0 + pattern.len() <= s.len(),
        s.subrange(find_from(s, pattern, i)->0, find_from(s, pattern, i)->0 + pattern.len()) == pattern,
    decreases s.len() + 1 - i,
{
    if i < 0 || i + pattern.len() > s.len() {
    } else if s.subrange(i, i + pattern.len()) == pattern {
    } else {
        lemma_find_from_found(s, pattern, i + 1);
    }
}

pub fn find_chars(s: &Vec<char>, pattern: &Vec<char>) -> (r: Option<usize>)
    ensures
        r matches Some(i) ==> find_from(s@, pattern@, 0) == Some(i as int),
        r is None ==> find_from(s@, pattern@, 0) is None,
{
    if pattern.len() > s.len() {
        return None;
    }
    let n = s.len();
    let last = n - pattern.len();
    let mut i: usize = 0;
    loop
        invariant
            i <= last,
            n == s@.len(),
            pattern@.len() <= s@.len(),
            last == s@.len() - pattern@.len(),
            find_from(s@, pattern@, 0) == find_from(s@, pattern@, i as int),
        decreases last + 1 - i,
    {
        let mut j: usize = 0;
        while j < pattern.len()
            invariant
                i <= last,
                pattern@.len() <= s@.len(),
                last == s@.len() - pattern@.len(),
                n == s@.len(),
                j <= pattern@.len(),
                forall|k: int| 0 <= k < j ==> s@[i + k] == pattern@[k],
            ensures
                j < pattern@.len() ==> s@[i + j] != pattern@[j as int],
            decreases pattern@.len() - j,
        {
            assert(i + j < n);
            if s[i + j] != pattern[j] {
                break;
            }
            j = j + 1;
        }
        if j == pattern.len() {
            assert(s@.subrange(i as int, i + pattern@.len()) =~= pattern@);
            return Some(i);
        }
        assert(s@.subrange(i as int, i + pattern@.len())[j as int] != pattern@[j as int]);
        if i == last {
            assert(find_from(s@, pattern@, i + 1) is None);
            return None;
        }
        i = i + 1;
    }
}

// ---------------------------------------------------------------------------
// Unsigned integers
// ---------------------------------------------------------------------------

/// `char::to_digit` for radix 10 and 16.
pub open spec fn digit_of(c: char, radix: nat) -> Option<nat> {
    let d: int = if '0' <= c && c <= '9' {
        c as int - '0' as int
    } else if 'a' <= c && c <= 'z' {
        c as int - 'a' as int + 10
    } else if 'A' <= c && c <= 'Z' {
        c as int - 'A' as int + 10
    } else {
        -1
    };
    if 0 <= d < radix {
        Some(d as nat)
    } else {
        None
    }
}

fn digit_of_char(c: char, radix: u64) -> (r: Option<u64>)
    requires
        radix == 10 || radix == 16,
    ensures
        r matches Some(d) ==> digit_of(c, radix as nat) == Some(d as nat),
        r is None ==> digit_of(c, radix as nat) is None,
{
    let d: u64 = if '0' <= c && c <= '9' {
        (c as u32 - '0' as u32) as u64
    } else if 'a' <= c && c <= 'z' {
        (c as u32 - 'a' as u32 + 10) as u64
    } else if 'A' <= c && c <= 'Z' {
        (c as u32 - 'A' as u32 + 10) as u64
    } else {
        return None;
    };
    if d < radix {
        Some(d)
    } else {
        None
    }
}

/// Whether every character of `s` is a digit in `radix`.
pub open spec fn all_digits(s: Seq<char>, radix: nat) -> bool {
    forall|i: int| 0 <= i < s.len() ==> digit_of(#[trigger] s[i], radix) is Some
}

/// The number that the digits `s` write in `radix`.
pub open spec fn digits_value(s: Seq<char>, radix: nat) -> nat
    decreases s.len(),
{
    if s.len() == 0 {
        0
    } else {
        digits_value(s.drop_last(), radix) * radix + digit_of(s.last(), radix)->0
    }
}

/// `uN::from_str_radix` for an unsigned type whose largest value is `max`:
/// an optional `+`, then one digit or more, and no more than `max`.
pub open spec fn parse_unsigned(s: Seq<char>, radix: nat, max: nat) -> Option<nat> {
    let digits = if s.len() > 0 && s[0] == '+' {
        s.drop_first()
    } else {
        s
    };
    if digits.len() > 0 && all_digits(digits, radix) && digits_value(digits, radix) <= max {
        Some(digits_value(digits, radix))
    } else {
        None
    }
}

proof fn lemma_digits_value_grows(s: Seq<char>, radix: nat, n: int)
    requires
        1 <= radix,
        0 <= n <= s.len(),
    ensures
        digits_value(s.take(n), radix) <= digits_value(s, radix),
    decreases s.len() - n,
{
    if n < s.len() {
        lemma_digits_value_grows(s, radix, n + 1);
        assert(s.take(n + 1).drop_last() =~= s.take(n));
        let v = digits_value(s.take(n), radix);
        assert(v <= v * radix) by (nonlinear_arith)
            requires 1 <= radix;
    } else {
        assert(s.take(n) =~= s);
    }
}

/// Parses `s[start..]` as `parse_unsigned` does.
pub fn parse_unsigned_from(s: &Vec<char>, start: usize, radix: u64, max: u64) -> (r: Option<u64>)
    requires
        start <= s@.len(),
        radix == 10 || radix == 16,
        max <= u32::MAX,
    ensures
        r matches Some(v) ==> parse_unsigned(s@.skip(start as int), radix as nat, max as nat) == Some(v as nat),
        r is None ==> parse_unsigned(s@.skip(start as int), radix as nat, max as nat) is None,
{
    let ghost t = s@.skip(start as int);
    let first = if start < s.len() && s[start] == '+' { start + 1 } else { start };
    let ghost digits = s@.skip(first as int);
    assert(digits =~= (if t.len() > 0 && t[0] == '+' { t.drop_first() } else { t }));
    if first == s.len() {
        return None;
    }
    let mut value: u64 = 0;
    let mut i = first;
    while i < s.len()
        invariant
            first <= i <= s@.len(),
            first < s@.len(),
            digits == s@.skip(first as int),
            parse_unsigned(s@.skip(start as int), radix as nat, max as nat) == (if digits.len() > 0
                && all_digits(digits, radix as nat) && digits_value(digits, radix as nat) <= max {
                Some(digits_value(digits, radix as nat))
            } else {
                None
            }),
            radix == 10 || radix == 16,
            max <= u32::MAX,
            value <= max,
            value == digits_value(digits.take(i - first), radix as nat),
            all_digits(digits.take(i - first), radix as nat),
        decreases s@.len() - i,
    {
        let d = match digit_of_char(s[i], radix) {
            Some(d) => d,
            None => {
                assert(digits[i - first] == s@[i as int]);
                assert(digit_of(digits[i - first], radix as nat) is None);
                return None;
            },
        };
        assert(digits.take(i - first + 1).drop_last() =~= digits.take(i - first));
        assert(digits.take(i - first + 1).last() == s@[i as int]);
        assert(value * radix + d <= u32::MAX * 16 + 15) by (nonlinear_arith)
            requires value <= u32::MAX, radix <= 16, d < 16;
        let next = value * radix + d;
        assert(digits[i - first] == s@[i as int]);
        assert(digits_value(digits.take(i - first + 1), radix as nat) == next);
        if next > max {
            proof {
                if all_digits(digits, radix as nat) {
                    lemma_digits_value_grows(digits, radix as nat, i - first + 1);
                }
            }
            return None;
        }
        value = next;
        assert(all_digits(digits.take(i - first + 1), radix as nat)) by {
            assert forall|k: int| 0 <= k < i - first + 1 implies
                digit_of(#[trigger] digits.take(i - first + 1)[k], radix as nat) is Some by {
                if k < i - first {
                    assert(digits.take(i - first + 1)[k] == digits.take(i - first)[k]);
                }
            }
        }
        i = i + 1;
    }
    assert(digits.take(i - first) =~= digits);
    Some(value)
}

// ---------------------------------------------------------------------------
// Building strings
// ---------------------------------------------------------------------------

/// Calls `String::push`, which appends the character `c` to the end of `s`;
/// the contract claims that and nothing else (trusted, not proved).
#[verifier::external_body]
fn push_char(s: &mut String, c: char)
    ensures
        final(s)@ == old(s)@.push(c),
{
    s.push(c);
}

/// Appends the characters of `chars` to `s`.
pub fn push_chars(s: &mut String, chars: &Vec<char>)
    ensures
        final(s)@ == old(s)@ + chars@,
{
    let mut i: usize = 0;
    while i < chars.len()
        invariant
            i <= chars@.len(),
            s@ == old(s)@ + chars@.take(i as int),
        decreases chars@.len() - i,
    {
        push_char(s, chars[i]);
        assert(chars@.take(i + 1) =~= chars@.take(i as int).push(chars@[i as int]));
        i = i + 1;
    }
    assert(chars@.take(i as int) =~= chars@);
}

/// The character of the decimal digit `d`.
pub open spec fn digit_char(d: nat) -> char {
    ('0' as nat + d) as char
}

/// The decimal numeral of `n`, without leading zeros.
pub open spec fn decimal(n: nat) -> Seq<char>
    decreases n,
{
    if n < 10 {
        seq![digit_char(n)]
    } else {
        decimal(n / 10).push(digit_char(n % 10))
    }
}

/// Appends the decimal numeral of `n` to `s`.
pub fn push_decimal(s: &mut String, n: u64)
    ensures
        final(s)@ == old(s)@ + decimal(n as nat),
    decreases n,
{
    if n >= 10 {
        push_decimal(s, n / 10);
    }
    let d = (n % 10) as u8;
    push_char(s, (48u8 + d) as char);
    proof {
        assert(digit_char((n % 10) as nat) == (48u8 + d) as char);
    }
}

} // verus!
