//! Character-level text handling: whitespace, trimming, splitting, searching
//! and the parsing of unsigned integers, each with its meaning as a spec
//! function on `Seq<char>`.
use vstd::prelude::*;
use vstd::std_specs::iter::IteratorSpec;

verus! {

/// `String::push` appends the character to the end of the string, as std
/// documents it.
pub assume_specification[ String::push ](s: &mut String, ch: char)
    ensures
        final(s)@ == old(s)@.push(ch),
;

/// The characters of `s`, in order.
pub fn chars_of(s: &str) -> (v: Vec<char>)
    ensures
        v@ == s@,
{
    let mut v: Vec<char> = Vec::new();
    for c in it: s.chars()
        invariant
            v@ == it.seq().take(it.index() as int),
    {
        v.push(c);
    }
    assert(v@ == s@);
    v
}

/// A string made of the characters of `v`, in order.
pub fn string_from(v: &[char]) -> (s: String)
    ensures
        s@ == v@,
{
    let mut s = String::new();
    let mut i: usize = 0;
    while i < v.len()
        invariant
            i <= v@.len(),
            s@ == v@.subrange(0, i as int),
        decreases v@.len() - i,
    {
        s.push(v[i]);
        i = i + 1;
    }
    s
}

/// Appends the characters of `v` to `s`.
pub fn push_chars(s: &mut String, v: &[char])
    ensures
        final(s)@ == old(s)@ + v@,
{
    let mut i: usize = 0;
    while i < v.len()
        invariant
            i <= v@.len(),
            s@ == old(s)@ + v@.subrange(0, i as int),
        decreases v@.len() - i,
    {
        s.push(v[i]);
        i = i + 1;
    }
}

/// Unicode's White_Space property, which `char::is_whitespace` tests.
pub open spec fn is_white(c: char) -> bool {
    let u = c as u32;
    ||| 0x09 <= u <= 0x0d
    ||| u == 0x20
    ||| u == 0x85
    ||| u == 0xa0
    ||| u == 0x1680
    ||| 0x2000 <= u <= 0x200a
    ||| u == 0x2028
    ||| u == 0x2029
    ||| u == 0x202f
    ||| u == 0x205f
    ||| u == 0x3000
}

/// `char::is_whitespace`.
pub fn white(c: char) -> (b: bool)
    ensures
        b == is_white(c),
{
    let u = c as u32;
    (0x09 <= u && u <= 0x0d) || u == 0x20 || u == 0x85 || u == 0xa0 || u == 0x1680 || (0x2000 <= u
        && u <= 0x200a) || u == 0x2028 || u == 0x2029 || u == 0x202f || u == 0x205f || u == 0x3000
}

/// A predicate on characters, as the splitting functions below use them.
pub enum CharClass {
    White,
    NotWhite,
    Not(char),
    Digit(u32),
}

/// Whether `c` belongs to `k`.
pub open spec fn in_class(k: CharClass, c: char) -> bool {
    match k {
        CharClass::White => is_white(c),
        CharClass::NotWhite => !is_white(c),
        CharClass::Not(x) => c != x,
        CharClass::Digit(radix) => digit_of(c, radix as nat) is Some,
    }
}

/// How many characters at the front of `s` belong to `k`.
pub open spec fn leading(s: Seq<char>, k: CharClass) -> nat
    decreases s.len(),
{
    if s.len() > 0 && in_class(k, s[0]) {
        1 + leading(s.drop_first(), k)
    } else {
        0
    }
}

/// How many characters at the back of `s` belong to `k`.
pub open spec fn trailing(s: Seq<char>, k: CharClass) -> nat
    decreases s.len(),
{
    if s.len() > 0 && in_class(k, s.last()) {
        1 + trailing(s.drop_last(), k)
    } else {
        0
    }
}

/// The count of leading characters of `k` is the first position not in `k`.
pub proof fn lemma_leading(s: Seq<char>, k: CharClass, i: int)
    requires
        0 <= i <= s.len(),
        forall|j: int| 0 <= j < i ==> in_class(k, #[trigger] s[j]),
        i == s.len() || !in_class(k, s[i]),
    ensures
        leading(s, k) == i,
    decreases i,
{
    if i > 0 {
        assert forall|j: int| 0 <= j < i - 1 implies in_class(k, #[trigger] s.drop_first()[j]) by {
            assert(s.drop_first()[j] == s[j + 1]);
        }
        lemma_leading(s.drop_first(), k, i - 1);
    }
}

/// The characters counted by `leading` are in `k`, and the next is not.
pub proof fn lemma_leading_bound(s: Seq<char>, k: CharClass)
    ensures
        leading(s, k) <= s.len(),
        forall|j: int| 0 <= j < leading(s, k) ==> in_class(k, #[trigger] s[j]),
        leading(s, k) < s.len() ==> !in_class(k, s[leading(s, k) as int]),
    decreases s.len(),
{
    if s.len() > 0 && in_class(k, s[0]) {
        lemma_leading_bound(s.drop_first(), k);
        assert forall|j: int| 0 <= j < leading(s, k) implies in_class(k, #[trigger] s[j]) by {
            if j > 0 {
                assert(s[j] == s.drop_first()[j - 1]);
            }
        }
    }
}

/// Characters of `k` in front of `b` add to the count of `b`'s own.
pub proof fn lemma_leading_concat(a: Seq<char>, b: Seq<char>, k: CharClass)
    requires
        forall|j: int| 0 <= j < a.len() ==> in_class(k, #[trigger] a[j]),
    ensures
        leading(a + b, k) == a.len() + leading(b, k),
{
    lemma_leading_bound(b, k);
    let n: int = (a.len() + leading(b, k)) as int;
    assert forall|j: int| 0 <= j < n implies in_class(k, #[trigger] (a + b)[j]) by {
        if j >= a.len() {
            assert((a + b)[j] == b[j - a.len()]);
        }
    }
    if n < (a + b).len() {
        assert((a + b)[n] == b[leading(b, k) as int]);
    }
    lemma_leading(a + b, k, n);
}

/// The count of trailing characters of `k`, from the back.
pub proof fn lemma_trailing(s: Seq<char>, k: CharClass, i: int)
    requires
        0 <= i <= s.len(),
        forall|j: int| s.len() - i <= j < s.len() ==> in_class(k, #[trigger] s[j]),
        i == s.len() || !in_class(k, s[s.len() - 1 - i]),
    ensures
        trailing(s, k) == i,
    decreases i,
{
    if i > 0 {
        assert forall|j: int|
            s.drop_last().len() - (i - 1) <= j < s.drop_last().len() implies in_class(
            k,
            #[trigger] s.drop_last()[j],
        ) by {
            assert(s.drop_last()[j] == s[j]);
        }
        lemma_trailing(s.drop_last(), k, i - 1);
    }
}

fn class_has(k: &CharClass, c: char) -> (b: bool)
    ensures
        b == in_class(*k, c),
{
    match k {
        CharClass::White => white(c),
        CharClass::NotWhite => !white(c),
        CharClass::Not(x) => c != *x,
        CharClass::Digit(radix) => to_digit(c, *radix).is_some(),
    }
}

/// The first position at or after `from` whose character is not in `k`,
/// or the length of `v`.
pub fn scan(v: &[char], from: usize, k: &CharClass) -> (j: usize)
    requires
        from <= v@.len(),
    ensures
        from <= j <= v@.len(),
        j - from == leading(v@.skip(from as int), *k),
{
    let mut j = from;
    while j < v.len() && class_has(k, v[j])
        invariant
            from <= j <= v@.len(),
            forall|i: int| from <= i < j ==> in_class(*k, #[trigger] v@[i]),
        decreases v@.len() - j,
    {
        j = j + 1;
    }
    proof {
        let t = v@.skip(from as int);
        assert forall|i: int| 0 <= i < j - from implies in_class(*k, #[trigger] t[i]) by {
            assert(t[i] == v@[from + i]);
        }
        lemma_leading(t, *k, j - from);
    }
    j
}

/// `s` with leading and trailing whitespace removed (`str::trim`).
pub open spec fn trimmed(s: Seq<char>) -> Seq<char> {
    let t = s.skip(leading(s, CharClass::White) as int);
    t.take(t.len() - trailing(t, CharClass::White))
}

/// `v` without leading and trailing whitespace.
pub fn trim(v: &[char]) -> (r: Vec<char>)
    ensures
        r@ == trimmed(v@),
{
    let a = scan(v, 0, &CharClass::White);
    assert(v@.skip(0) == v@);
    let mut b = v.len();
    while b > a && white(v[b - 1])
        invariant
            a <= b <= v@.len(),
            forall|i: int| b <= i < v@.len() ==> is_white(#[trigger] v@[i]),
        decreases b,
    {
        b = b - 1;
    }
    proof {
        let t = v@.skip(a as int);
        assert forall|j: int| t.len() - (v@.len() - b) <= j < t.len() implies in_class(
            CharClass::White,
            #[trigger] t[j],
        ) by {
            assert(t[j] == v@[a + j]);
        }
        if b > a {
            assert(t[t.len() - 1 - (v@.len() - b)] == v@[b - 1]);
        } else {
            lemma_leading_bound(v@, CharClass::White);
        }
        lemma_trailing(t, CharClass::White, v@.len() - b);
    }
    slice_range(v, a, b)
}

/// The characters of `v` from `a` up to `b`.
pub fn slice_range(v: &[char], a: usize, b: usize) -> (r: Vec<char>)
    requires
        a <= b <= v@.len(),
    ensures
        r@ == v@.subrange(a as int, b as int),
{
    let mut r: Vec<char> = Vec::new();
    let mut i = a;
    while i < b
        invariant
            a <= i <= b,
            b <= v@.len(),
            r@ == v@.subrange(a as int, i as int),
        decreases b - i,
    {
        r.push(v[i]);
        i = i + 1;
    }
    r
}

/// `needle` occurs in `s` (`str::contains`).
pub open spec fn occurs(s: Seq<char>, needle: Seq<char>) -> bool {
    exists|i: int| 0 <= i && i + needle.len() <= s.len() && #[trigger] s.subrange(i, i + needle.len()) == needle
}

/// `s` begins with `prefix` (`str::starts_with`).
pub open spec fn begins_with(s: Seq<char>, prefix: Seq<char>) -> bool {
    prefix.len() <= s.len() && s.take(prefix.len() as int) == prefix
}

/// Whether `needle` stands in `v` at position `at`.
fn matches_at(v: &[char], at: usize, needle: &[char]) -> (b: bool)
    requires
        at + needle@.len() <= v@.len(),
    ensures
        b == (v@.subrange(at as int, at + needle@.len()) == needle@),
{
    let n = v.len();
    let mut i: usize = 0;
    while i < needle.len()
        invariant
            n == v@.len(),
            i <= needle@.len(),
            at + needle@.len() <= v@.len(),
            forall|j: int| 0 <= j < i ==> v@[at + j] == needle@[j],
        decreases needle@.len() - i,
    {
        if v[at + i] != needle[i] {
            assert(v@.subrange(at as int, at + needle@.len())[i as int] != needle@[i as int]);
            return false;
        }
        i = i + 1;
    }
    assert(v@.subrange(at as int, at + needle@.len()) =~= needle@);
    true
}

/// Whether `needle` occurs in `v`.
pub fn contains(v: &[char], needle: &[char]) -> (b: bool)
    ensures
        b == occurs(v@, needle@),
{
    if needle.len() > v.len() {
        return false;
    }
    if needle.len() == 0 {
        assert(v@.subrange(0int, 0int + needle@.len()) =~= needle@);
        return true;
    }
    let n = v.len();
    let last = n - needle.len();
    let mut i: usize = 0;
    while i <= last
        invariant
            n == v@.len(),
            last < n,
            i <= last + 1,
            last + needle@.len() == v@.len(),
            forall|j: int| 0 <= j < i ==> #[trigger] v@.subrange(j, j + needle@.len()) != needle@,
        decreases last + 1 - i,
    {
        if matches_at(v, i, needle) {
            return true;
        }
        i = i + 1;
    }
    false
}

/// Whether `a` and `b` hold the same characters.
pub fn same_text(a: &[char], b: &[char]) -> (r: bool)
    ensures
        r == (a@ == b@),
{
    if a.len() != b.len() {
        return false;
    }
    let r = matches_at(a, 0, b);
    assert(a@.subrange(0, b@.len() as int) =~= a@);
    r
}

/// Whether `v` begins with `prefix`.
pub fn starts_with(v: &[char], prefix: &[char]) -> (b: bool)
    ensures
        b == begins_with(v@, prefix@),
{
    if prefix.len() > v.len() {
        return false;
    }
    let b = matches_at(v, 0, prefix);
    assert(v@.subrange(0, prefix@.len() as int) == v@.take(prefix@.len() as int));
    b
}

/// The text before the first `sep` in `s`, or all of `s`
/// (`s.split(sep).next()`).
pub open spec fn before_char(s: Seq<char>, sep: char) -> Seq<char> {
    s.take(leading(s, CharClass::Not(sep)) as int)
}

/// The text between the first and the second `sep` in `s`, or after the first
/// up to the end; nothing when `s` holds no `sep` (`s.split(sep).nth(1)`).
pub open spec fn second_field(s: Seq<char>, sep: char) -> Option<Seq<char>> {
    let k = leading(s, CharClass::Not(sep));
    if k == s.len() {
        None
    } else {
        Some(before_char(s.skip(k + 1 as int), sep))
    }
}

/// The second maximal run of non-whitespace characters in `s`, if there is
/// one (`s.split_whitespace().nth(1)`).
pub open spec fn second_word(s: Seq<char>) -> Option<Seq<char>> {
    let a = leading(s, CharClass::White);
    let r = s.skip(a as int);
    let r2 = r.skip(leading(r, CharClass::NotWhite) as int);
    let r3 = r2.skip(leading(r2, CharClass::White) as int);
    if r3.len() == 0 {
        None
    } else {
        Some(r3.take(leading(r3, CharClass::NotWhite) as int))
    }
}

proof fn lemma_skip_skip(s: Seq<char>, a: int, b: int)
    requires
        0 <= a <= b <= s.len(),
    ensures
        s.skip(a).skip(b - a) == s.skip(b),
{
    assert(s.skip(a).skip(b - a) =~= s.skip(b));
}

/// The text of `v` before its first `sep`.
pub fn before_sep(v: &[char], sep: char) -> (r: Vec<char>)
    ensures
        r@ == before_char(v@, sep),
{
    let k = scan(v, 0, &CharClass::Not(sep));
    assert(v@.skip(0) == v@);
    let r = slice_range(v, 0, k);
    assert(r@ == v@.take(k as int));
    r
}

/// The field of `v` after its first `sep`, as `second_field` says.
pub fn field_after_sep(v: &[char], sep: char) -> (r: Option<Vec<char>>)
    ensures
        match r {
            Some(f) => second_field(v@, sep) == Some(f@),
            None => second_field(v@, sep) is None,
        },
{
    let k = scan(v, 0, &CharClass::Not(sep));
    assert(v@.skip(0) == v@);
    if k == v.len() {
        return None;
    }
    let m = scan(v, k + 1, &CharClass::Not(sep));
    let r = slice_range(v, k + 1, m);
    assert(r@ == v@.skip(k + 1).take(m - (k + 1)));
    Some(r)
}

/// The second word of `v`, as `second_word` says.
pub fn word_two(v: &[char]) -> (r: Option<Vec<char>>)
    ensures
        match r {
            Some(w) => second_word(v@) == Some(w@),
            None => second_word(v@) is None,
        },
{
    assert(v@.skip(0) == v@);
    let a = scan(v, 0, &CharClass::White);
    let b = scan(v, a, &CharClass::NotWhite);
    let c = scan(v, b, &CharClass::White);
    proof {
        lemma_skip_skip(v@, a as int, b as int);
        lemma_skip_skip(v@, b as int, c as int);
    }
    if c == v.len() {
        return None;
    }
    let d = scan(v, c, &CharClass::NotWhite);
    let r = slice_range(v, c, d);
    assert(r@ == v@.skip(c as int).take(d - c));
    Some(r)
}

/// What `char::to_digit` gives for `c` in base `radix` (2 to 36).
pub open spec fn digit_of(c: char, radix: nat) -> Option<nat> {
    let u = c as u32;
    let v: int = if 48 <= u <= 57 {
        u - 48
    } else if 97 <= u <= 122 {
        u - 97 + 10
    } else if 65 <= u <= 90 {
        u - 65 + 10
    } else {
        radix as int
    };
    if v < radix {
        Some(v as nat)
    } else {
        None
    }
}

/// `char::to_digit`, for bases from 2 to 36.
pub fn to_digit(c: char, radix: u32) -> (r: Option<u32>)
    ensures
        match r {
            Some(x) => digit_of(c, radix as nat) == Some(x as nat),
            None => digit_of(c, radix as nat) is None,
        },
{
    let u = c as u32;
    let v: u32 = if 48 <= u && u <= 57 {
        u - 48
    } else if 97 <= u && u <= 122 {
        u - 97 + 10
    } else if 65 <= u && u <= 90 {
        u - 65 + 10
    } else {
        radix
    };
    if v < radix {
        Some(v)
    } else {
        None
    }
}

/// The number that the digits `d` write in base `radix`, every character of
/// `d` being a digit.
pub open spec fn digits_value(d: Seq<char>, radix: nat) -> nat
    decreases d.len(),
{
    if d.len() == 0 {
        0
    } else {
        digits_value(d.drop_last(), radix) * radix + match digit_of(d.last(), radix) {
            Some(x) => x,
            None => 0,
        }
    }
}

/// Why a text is not an unsigned number (the kinds of `std::num::IntErrorKind`
/// that unsigned parsing gives).
#[derive(Debug, Clone, Copy, PartialEq, Eq, Structural)]
pub enum NumberError {
    Empty,
    InvalidDigit,
    PosOverflow,
}

/// What `usize::from_str_radix(s, radix)` gives: an optional `+`, then
/// digits; a non-digit is refused, unless the digits before it already pass
/// `usize::MAX`, which is an overflow.
pub open spec fn parse_number(s: Seq<char>, radix: nat) -> Result<nat, NumberError> {
    if s.len() == 0 {
        Err(NumberError::Empty)
    } else if s.len() == 1 && (s[0] == '+' || s[0] == '-') {
        Err(NumberError::InvalidDigit)
    } else {
        let d = if s[0] == '+' {
            s.drop_first()
        } else {
            s
        };
        let k = leading(d, CharClass::Digit(radix as u32));
        if digits_value(d.take(k as int), radix) > usize::MAX {
            Err(NumberError::PosOverflow)
        } else if k < d.len() {
            Err(NumberError::InvalidDigit)
        } else {
            Ok(digits_value(d, radix))
        }
    }
}

proof fn lemma_value_step(d: Seq<char>, i: int, radix: nat)
    requires
        0 <= i < d.len(),
        radix >= 2,
    ensures
        d.take(i + 1).drop_last() == d.take(i),
        d.take(i + 1).last() == d[i],
        digits_value(d.take(i + 1), radix) == digits_value(d.take(i), radix) * radix + match digit_of(
            d[i],
            radix,
        ) {
            Some(x) => x,
            None => 0,
        },
{
    assert(d.take(i + 1).drop_last() =~= d.take(i));
}

proof fn lemma_value_monotone(d: Seq<char>, i: int, j: int, radix: nat)
    requires
        0 <= i <= j <= d.len(),
        radix >= 2,
    ensures
        digits_value(d.take(i), radix) <= digits_value(d.take(j), radix),
    decreases j - i,
{
    if i < j {
        lemma_value_monotone(d, i, j - 1, radix);
        lemma_value_step(d, j - 1, radix);
        let v = digits_value(d.take(j - 1), radix);
        assert(v <= v * radix) by (nonlinear_arith)
            requires
                radix >= 2,
        ;
    }
}

/// Parses `v` as `usize::from_str_radix` does.
pub fn parse_number_exec(v: &[char], radix: u32) -> (r: Result<usize, NumberError>)
    requires
        2 <= radix <= 36,
    ensures
        match r {
            Ok(n) => parse_number(v@, radix as nat) == Ok::<nat, NumberError>(n as nat),
            Err(e) => parse_number(v@, radix as nat) == Err::<nat, NumberError>(e),
        },
{
    let n = v.len();
    if n == 0 {
        return Err(NumberError::Empty);
    }
    if n == 1 && (v[0] == '+' || v[0] == '-') {
        return Err(NumberError::InvalidDigit);
    }
    let start: usize = if v[0] == '+' {
        1
    } else {
        0
    };
    let ghost d = if v@[0] == '+' {
        v@.drop_first()
    } else {
        v@
    };
    assert(d =~= v@.skip(start as int));
    let mut acc: usize = 0;
    let mut i = start;
    assert(d.take(0) =~= Seq::<char>::empty());
    while i < n
        invariant
            n == v@.len(),
            n > 0,
            !(n == 1 && (v@[0] == '+' || v@[0] == '-')),
            d == (if v@[0] == '+' { v@.drop_first() } else { v@ }),
            start <= i <= n,
            2 <= radix <= 36,
            d == v@.skip(start as int),
            forall|j: int| 0 <= j < i - start ==> in_class(CharClass::Digit(radix), #[trigger] d[j]),
            acc == digits_value(d.take(i - start), radix as nat),
        decreases n - i,
    {
        assert(d[i - start] == v@[i as int]);
        match to_digit(v[i], radix) {
            None => {
                proof {
                    lemma_leading(d, CharClass::Digit(radix), i - start);
                }
                return Err(NumberError::InvalidDigit);
            },
            Some(x) => {
                proof {
                    lemma_value_step(d, i - start, radix as nat);
                }
                let next = match acc.checked_mul(radix as usize) {
                    Some(m) => m.checked_add(x as usize),
                    None => None,
                };
                match next {
                    Some(m) => {
                        acc = m;
                    },
                    None => {
                        proof {
                            lemma_leading_bound(d, CharClass::Digit(radix));
                            let k = leading(d, CharClass::Digit(radix));
                            if k < i - start + 1 {
                                assert(in_class(CharClass::Digit(radix), d[k as int]));
                            }
                            lemma_value_monotone(d, i - start + 1, k as int, radix as nat);
                        }
                        return Err(NumberError::PosOverflow);
                    },
                }
            },
        }
        i = i + 1;
    }
    proof {
        lemma_leading(d, CharClass::Digit(radix), d.len() as int);
        assert(d.take(d.len() as int) =~= d);
    }
    Ok(acc)
}

/// The character of the decimal digit `d`.
pub open spec fn digit_char(d: nat) -> char {
    (48 + d) as char
}

/// The decimal numeral of `n`.
pub open spec fn decimal(n: nat) -> Seq<char>
    decreases n,
{
    if n < 10 {
        seq![digit_char(n)]
    } else {
        decimal(n / 10).push(digit_char(n % 10))
    }
}

/// Appends the decimal digit `d`.
pub fn push_digit(out: &mut Vec<char>, d: u128)
    requires
        d < 10,
    ensures
        final(out)@ == old(out)@.push(digit_char(d as nat)),
{
    let c = (48u8 + d as u8) as char;
    out.push(c);
}

/// Appends the decimal numeral of `n`.
pub fn push_decimal(out: &mut Vec<char>, n: u128)
    ensures
        final(out)@ == old(out)@ + decimal(n as nat),
    decreases n,
{
    if n >= 10 {
        push_decimal(out, n / 10);
    }
    push_digit(out, n % 10);
    assert(out@ =~= old(out)@ + decimal(n as nat));
}

/// The decimal numeral of `n` is a run of decimal digits, without a leading
/// zero, whose value is `n`.
pub proof fn lemma_decimal(n: nat)
    ensures
        decimal(n).len() >= 1,
        forall|i: int|
            0 <= i < decimal(n).len() ==> {
                &&& 48 <= (#[trigger] decimal(n)[i]) as u32 <= 57
                &&& in_class(CharClass::Digit(10), decimal(n)[i])
                &&& !is_white(decimal(n)[i])
            },
        digits_value(decimal(n), 10) == n,
        n > 0 ==> decimal(n)[0] != '0',
    decreases n,
{
    let d = decimal(n);
    if n < 10 {
        assert(d.drop_last() =~= Seq::<char>::empty());
        assert(digits_value(d.drop_last(), 10) == 0);
        assert(digit_of(digit_char(n), 10) == Some(n));
    } else {
        lemma_decimal(n / 10);
        assert(d.drop_last() =~= decimal(n / 10));
        assert(digit_of(digit_char(n % 10), 10) == Some(n % 10));
        assert forall|i: int| 0 <= i < d.len() implies {
            &&& 48 <= (#[trigger] d[i]) as u32 <= 57
            &&& in_class(CharClass::Digit(10), d[i])
            &&& !is_white(d[i])
        } by {
            if i < d.len() - 1 {
                assert(d[i] == decimal(n / 10)[i]);
            }
        }
        assert(d[0] == decimal(n / 10)[0]);
    }
}

/// The decimal numeral of a number that fits in `usize` reads back as that
/// number.
pub proof fn law_decimal_reads_back(n: nat)
    requires
        n <= usize::MAX,
    ensures
        parse_number(decimal(n), 10) == Ok::<nat, NumberError>(n),
{
    lemma_decimal(n);
    let d = decimal(n);
    assert(48 <= d[0] as u32 <= 57);
    assert forall|j: int| 0 <= j < d.len() implies in_class(CharClass::Digit(10), #[trigger] d[j]) by {
        assert(48 <= d[j] as u32 <= 57);
    }
    lemma_leading(d, CharClass::Digit(10), d.len() as int);
    assert(d.take(d.len() as int) =~= d);
}

} // verus!
