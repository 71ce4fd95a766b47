//! Reading and writing plain text: numbers, words and the space around them.
use vstd::prelude::*;

verus! {

// --- characters --------------------------------------------------------------------------

/// The characters of a text.
pub fn chars_of(s: &str) -> (r: Vec<char>)
    ensures
        r@ == s@,
{
    let n: usize = s.unicode_len();
    let mut out: Vec<char> = Vec::new();
    let mut i: usize = 0;
    while i < n
        invariant
            i <= n,
            n == s@.len(),
            out@ == s@.take(i as int),
        decreases n - i,
    {
        out.push(s.get_char(i));
        assert(out@ =~= s@.take(i + 1));
        i = i + 1;
    }
    assert(s@.take(n as int) =~= s@);
    out
}

/// Whether two texts are the same.
pub fn same(a: &str, b: &str) -> (r: bool)
    ensures
        r == (a@ == b@),
{
    let n: usize = a.unicode_len();
    if n != b.unicode_len() {
        return false;
    }
    let mut i: usize = 0;
    while i < n
        invariant
            i <= n,
            n == a@.len(),
            n == b@.len(),
            forall|k: int| 0 <= k < i ==> #[trigger] a@[k] == b@[k],
        decreases n - i,
    {
        if a.get_char(i) != b.get_char(i) {
            return false;
        }
        i = i + 1;
    }
    assert(a@ =~= b@);
    true
}

// --- quotes ------------------------------------------------------------------------------

/// A text in quotes, with escapes, as the `Debug` form of `str` writes it.
pub uninterp spec fn quoted_text(t: Seq<char>) -> Seq<char>;

/// A character that needs no escape between quotes: a printable one of ASCII, no
/// quote and no backslash.
pub open spec fn is_plain(c: char) -> bool {
    ' ' <= c && c <= '~' && c != '"' && c != '\\'
}

/// A text that needs no escapes stands between the quotes as it is.
pub open spec fn plainly_quoted(t: Seq<char>) -> bool {
    (forall|k: int| 0 <= k < t.len() ==> is_plain(#[trigger] t[k])) ==> quoted_text(t) == "\""@ + t
        + "\""@
}

/// Calls `format!` with the `Debug` form of `str`: the text in quotes, with escapes.
/// What is written depends on the text alone; a text that needs no escapes stands
/// between the quotes as it is. Which other characters are escaped, and how, is
/// left to the name.
#[verifier::external_body]
pub(crate) fn quoted(t: &str) -> (r: String)
    ensures
        r@ == quoted_text(t@),
        (forall|k: int| 0 <= k < t@.len() ==> is_plain(#[trigger] t@[k])) ==> r@ == "\""@ + t@
            + "\""@,
{
    format!("{t:?}")
}

/// A character with capitals of the Latin alphabet made small.
pub open spec fn lower(c: char) -> char {
    if 'A' <= c && c <= 'Z' {
        ((c as u32) + 32) as char
    } else {
        c
    }
}

/// Whether a text is a word in which capitals may stand for small letters.
pub fn same_ignoring_case(s: &[char], word: &str) -> (r: bool)
    requires
        forall|k: int| 0 <= k < word@.len() ==> 'a' <= #[trigger] word@[k] && word@[k] <= 'z',
    ensures
        r == (s@.map_values(|c: char| lower(c)) == word@),
{
    let n: usize = s.len();
    let ghost f = |c: char| lower(c);
    if n != word.unicode_len() {
        assert(s@.map_values(f).len() != word@.len());
        return false;
    }
    let mut i: usize = 0;
    while i < n
        invariant
            i <= n,
            n == s@.len(),
            n == word@.len(),
            f == (|c: char| lower(c)),
            forall|k: int| 0 <= k < word@.len() ==> 'a' <= #[trigger] word@[k] && word@[k] <= 'z',
            forall|k: int| 0 <= k < i ==> lower(#[trigger] s@[k]) == word@[k],
        decreases n - i,
    {
        let c: u32 = s[i] as u32;
        let d: u32 = word.get_char(i) as u32;
        assert('a' <= word@[i as int] && word@[i as int] <= 'z');
        if !(c == d || (65 <= c && c <= 90 && c + 32 == d)) {
            assert(s@.map_values(f)[i as int] == lower(s@[i as int]));
            assert(lower(s@[i as int]) != word@[i as int]);
            return false;
        }
        assert(lower(s@[i as int]) == word@[i as int]);
        i = i + 1;
    }
    assert(s@.map_values(f) =~= word@);
    true
}

// --- space ---------------------------------------------------------------------------------

/// Whether a character is white space, as Unicode has it.
pub open spec fn is_space(c: char) -> bool {
    let n = c as u32;
    ||| 0x9 <= n <= 0xD
    ||| n == 0x20
    ||| n == 0x85
    ||| n == 0xA0
    ||| n == 0x1680
    ||| 0x2000 <= n <= 0x200A
    ||| n == 0x2028
    ||| n == 0x2029
    ||| n == 0x202F
    ||| n == 0x205F
    ||| n == 0x3000
}

/// Whether a character is white space.
fn whitespace(c: char) -> (r: bool)
    ensures
        r == is_space(c),
{
    let n: u32 = c as u32;
    (0x9 <= n && n <= 0xD) || n == 0x20 || n == 0x85 || n == 0xA0 || n == 0x1680 || (0x2000 <= n
        && n <= 0x200A) || n == 0x2028 || n == 0x2029 || n == 0x202F || n == 0x205F || n == 0x3000
}

/// The text without the white space in front.
pub open spec fn trim_front(s: Seq<char>) -> Seq<char>
    decreases s.len(),
{
    if s.len() > 0 && is_space(s[0]) {
        trim_front(s.skip(1))
    } else {
        s
    }
}

/// The text without the white space behind.
pub open spec fn trim_back(s: Seq<char>) -> Seq<char>
    decreases s.len(),
{
    if s.len() > 0 && is_space(s.last()) {
        trim_back(s.drop_last())
    } else {
        s
    }
}

/// The text without the white space around it.
pub open spec fn trimmed(s: Seq<char>) -> Seq<char> {
    trim_back(trim_front(s))
}

/// There is no white space left around a trimmed text.
pub proof fn lemma_trimmed_again(s: Seq<char>)
    ensures
        trimmed(trimmed(s)) == trimmed(s),
{
    lemma_front(s);
    lemma_back(trim_front(s));
}

proof fn lemma_front(s: Seq<char>)
    ensures
        trim_front(s).len() > 0 ==> !is_space(trim_front(s)[0]),
    decreases s.len(),
{
    if s.len() > 0 && is_space(s[0]) {
        lemma_front(s.skip(1));
    }
}

proof fn lemma_back(s: Seq<char>)
    ensures
        trim_back(s).len() <= s.len(),
        trim_back(s).len() > 0 ==> !is_space(trim_back(s).last()) && trim_back(s)[0] == s[0],
    decreases s.len(),
{
    if s.len() > 0 && is_space(s.last()) {
        lemma_back(s.drop_last());
    }
}

/// The text without the white space around it.
pub fn trim(s: &str) -> (r: &str)
    ensures
        r@ == trimmed(s@),
{
    let chars: Vec<char> = chars_of(s);
    let n: usize = chars.len();
    let mut a: usize = 0;
    assert(s@.skip(0) =~= s@);
    while a < n && whitespace(chars[a])
        invariant
            a <= n,
            n == s@.len(),
            chars@ == s@,
            trim_front(s@.skip(a as int)) == trim_front(s@),
        decreases n - a,
    {
        assert(s@.skip(a as int).skip(1) =~= s@.skip(a + 1));
        a = a + 1;
    }
    let mut b: usize = n;
    let ghost t = s@.skip(a as int);
    assert(trim_front(s@) == t);
    assert(s@.subrange(a as int, n as int) =~= t);
    while b > a && whitespace(chars[b - 1])
        invariant
            a <= b <= n,
            n == s@.len(),
            chars@ == s@,
            trim_back(s@.subrange(a as int, b as int)) == trim_back(t),
        decreases b,
    {
        assert(s@.subrange(a as int, b as int).drop_last() =~= s@.subrange(a as int, b - 1));
        b = b - 1;
    }
    s.substring_char(a, b)
}

// --- numbers ----------------------------------------------------------------------------------

/// Nothing but digits, and at least one.
pub open spec fn is_digits(s: Seq<char>) -> bool {
    s.len() > 0 && forall|i: int| 0 <= i < s.len() ==> '0' <= #[trigger] s[i] && s[i] <= '9'
}

/// The number that digits stand for.
pub open spec fn value(s: Seq<char>) -> int
    decreases s.len(),
{
    if s.len() == 0 {
        0
    } else {
        10 * value(s.drop_last()) + (s.last() as int - 48)
    }
}

/// The digits behind a plus sign, where there is one.
pub open spec fn unsigned_part(s: Seq<char>) -> Seq<char> {
    if s.len() > 0 && s[0] == '+' {
        s.skip(1)
    } else {
        s
    }
}

/// The natural number that a text stands for.
pub open spec fn natural(s: Seq<char>) -> Option<int> {
    if is_digits(unsigned_part(s)) {
        Some(value(unsigned_part(s)))
    } else {
        None
    }
}

/// The integer that a text stands for.
pub open spec fn integer(s: Seq<char>) -> Option<int> {
    if s.len() > 0 && s[0] == '-' {
        if is_digits(s.skip(1)) {
            Some(-value(s.skip(1)))
        } else {
            None
        }
    } else {
        natural(s)
    }
}

/// More digits make no smaller number.
proof fn lemma_value(s: Seq<char>, n: int)
    requires
        is_digits(s),
        0 <= n <= s.len(),
    ensures
        0 <= value(s.take(n)) <= value(s),
    decreases s.len(),
{
    let r = s.drop_last();
    assert('0' <= s[s.len() - 1] && s[s.len() - 1] <= '9');
    assert(value(s) == 10 * value(r) + (s.last() as int - 48));
    if r.len() == 0 {
        assert(value(r) == 0);
    } else {
        assert(is_digits(r)) by {
            assert forall|i: int| 0 <= i < r.len() implies '0' <= #[trigger] r[i] && r[i]
                <= '9' by {
                assert(r[i] == s[i]);
            }
        }
        lemma_value(r, 0);
    }
    if n == s.len() {
        assert(s.take(n) =~= s);
    } else if r.len() == 0 {
        assert(s.take(n) =~= Seq::empty());
    } else {
        lemma_value(r, n);
        assert(r.take(n) =~= s.take(n));
    }
}

/// The number that the characters from `at` on stand for, where they are digits
/// and it is at most `max`.
fn read_digits(chars: &[char], at: usize, max: u128) -> (r: Option<u128>)
    requires
        at <= chars@.len(),
    ensures
        r is Some <==> is_digits(chars@.skip(at as int)) && value(chars@.skip(at as int)) <= max,
        r matches Some(v) ==> v == value(chars@.skip(at as int)),
{
    let ghost t = chars@.skip(at as int);
    if at == chars.len() {
        return None;
    }
    let mut acc: u128 = 0;
    let mut i: usize = at;
    assert(t.take(0) =~= Seq::empty());
    while i < chars.len()
        invariant
            at <= i <= chars@.len(),
            t == chars@.skip(at as int),
            t.len() > 0,
            acc == value(t.take(i - at)),
            acc <= max,
            forall|k: int| 0 <= k < i - at ==> '0' <= #[trigger] t[k] && t[k] <= '9',
        decreases chars@.len() - i,
    {
        let c: char = chars[i];
        assert(t[i - at] == c);
        if c < '0' || c > '9' {
            return None;
        }
        let d: u128 = (c as u32 - 48) as u128;
        proof {
            let next = t.take(i - at + 1);
            assert(next.drop_last() =~= t.take(i - at));
            assert(next.last() == c);
            if is_digits(t) {
                lemma_value(t, i - at + 1);
            }
        }
        if d > max || acc > (max - d) / 10 {
            return None;
        }
        acc = 10 * acc + d;
        i = i + 1;
    }
    assert(t.take(t.len() as int) =~= t);
    Some(acc)
}

/// The natural number that a text stands for, where it is at most `max`.
pub fn parse_natural(s: &str, max: u64) -> (r: Option<u64>)
    ensures
        r is Some <==> natural(s@) is Some && natural(s@)->0 <= max,
        r matches Some(v) ==> natural(s@) == Some(v as int),
{
    match parse_large(s, max as u128) {
        Some(v) => Some(v as u64),
        None => None,
    }
}

/// The natural number that a text stands for, where it is at most `max`.
pub fn parse_large(s: &str, max: u128) -> (r: Option<u128>)
    ensures
        r is Some <==> natural(s@) is Some && natural(s@)->0 <= max,
        r matches Some(v) ==> natural(s@) == Some(v as int),
{
    let chars: Vec<char> = chars_of(s);
    let at: usize = if chars.len() > 0 && chars[0] == '+' {
        1
    } else {
        0
    };
    assert(s@.skip(0) =~= s@);
    read_digits(chars.as_slice(), at, max)
}

/// The natural number that a text stands for, where a `usize` can hold it.
pub fn parse_usize(s: &str) -> (r: Option<usize>)
    ensures
        r is Some <==> natural(s@) is Some && natural(s@)->0 <= usize::MAX,
        r matches Some(v) ==> natural(s@) == Some(v as int),
{
    match parse_natural(s, usize::MAX as u64) {
        Some(v) => Some(v as usize),
        None => None,
    }
}

/// The integer that a text stands for, where an `i32` can hold it.
pub fn parse_i32(s: &str) -> (r: Option<i32>)
    ensures
        r is Some <==> integer(s@) is Some && i32::MIN <= integer(s@)->0 <= i32::MAX,
        r matches Some(v) ==> integer(s@) == Some(v as int),
{
    let chars: Vec<char> = chars_of(s);
    assert(s@.skip(0) =~= s@);
    if chars.len() > 0 && chars[0] == '-' {
        proof {
            if is_digits(s@.skip(1)) {
                lemma_value(s@.skip(1), 0);
            }
        }
        match read_digits(chars.as_slice(), 1, 2147483648) {
            Some(v) => Some((-(v as i64)) as i32),
            None => None,
        }
    } else {
        let at: usize = if chars.len() > 0 && chars[0] == '+' {
            1
        } else {
            0
        };
        proof {
            if is_digits(unsigned_part(s@)) {
                lemma_value(unsigned_part(s@), 0);
            }
        }
        match read_digits(chars.as_slice(), at, 2147483647) {
            Some(v) => Some(v as i32),
            None => None,
        }
    }
}

/// The text of a digit.
pub open spec fn digit(d: int) -> Seq<char> {
    if d == 0 {
        "0"@
    } else if d == 1 {
        "1"@
    } else if d == 2 {
        "2"@
    } else if d == 3 {
        "3"@
    } else if d == 4 {
        "4"@
    } else if d == 5 {
        "5"@
    } else if d == 6 {
        "6"@
    } else if d == 7 {
        "7"@
    } else if d == 8 {
        "8"@
    } else {
        "9"@
    }
}

/// A natural number in decimal.
pub open spec fn decimal(n: int) -> Seq<char>
    decreases n,
{
    if n < 10 {
        digit(n)
    } else {
        decimal(n / 10) + digit(n % 10)
    }
}

/// An integer in decimal.
pub open spec fn signed(n: int) -> Seq<char> {
    if n < 0 {
        "-"@ + decimal(-n)
    } else {
        decimal(n)
    }
}

fn digit_str(d: u128) -> (r: &'static str)
    requires
        d < 10,
    ensures
        r@ == digit(d as int),
{
    match d {
        0 => "0",
        1 => "1",
        2 => "2",
        3 => "3",
        4 => "4",
        5 => "5",
        6 => "6",
        7 => "7",
        8 => "8",
        _ => "9",
    }
}

/// Appends a natural number in decimal.
pub fn append_large(out: &mut String, n: u128)
    ensures
        final(out)@ == old(out)@ + decimal(n as int),
    decreases n,
{
    if n < 10 {
        out.append(digit_str(n));
    } else {
        let ghost before = out@;
        append_large(out, n / 10);
        out.append(digit_str(n % 10));
        assert(out@ =~= before + decimal(n as int));
    }
}

/// Appends a natural number in decimal.
pub fn append_decimal(out: &mut String, n: u64)
    ensures
        final(out)@ == old(out)@ + decimal(n as int),
{
    append_large(out, n as u128);
}

/// Appends an integer in decimal.
pub fn append_signed(out: &mut String, n: i64)
    ensures
        final(out)@ == old(out)@ + signed(n as int),
{
    if n < 0 {
        let ghost before = out@;
        out.append("-");
        let m: u64 = if n == i64::MIN {
            9223372036854775808
        } else {
            (-n) as u64
        };
        append_decimal(out, m);
        assert(out@ =~= before + signed(n as int));
    } else {
        append_decimal(out, n as u64);
    }
}

/// The text of a truth value.
pub fn bool_str(b: bool) -> (r: &'static str)
    ensures
        r@ == bool_text(b),
{
    if b {
        "true"
    } else {
        "false"
    }
}

pub open spec fn bool_text(b: bool) -> Seq<char> {
    if b {
        "true"@
    } else {
        "false"@
    }
}

proof fn lemma_digit(d: int)
    requires
        0 <= d < 10,
    ensures
        digit(d).len() == 1,
        digit(d)[0] as int == 48 + d,
        '0' <= digit(d)[0] && digit(d)[0] <= '9',
{
    reveal_strlit("0");
    reveal_strlit("1");
    reveal_strlit("2");
    reveal_strlit("3");
    reveal_strlit("4");
    reveal_strlit("5");
    reveal_strlit("6");
    reveal_strlit("7");
    reveal_strlit("8");
    reveal_strlit("9");
}

/// Reading back a number that was written gives the number.
pub proof fn law_decimal_reads_back(n: int)
    requires
        0 <= n,
    ensures
        natural(decimal(n)) == Some(n),
        integer(signed(n)) == Some(n),
        integer(signed(-n)) == Some(-n),
{
    lemma_decimal(n);
    let s = decimal(n);
    assert('0' <= s[0] && s[0] <= '9');
    if n > 0 {
        reveal_strlit("-");
        let t = signed(-n);
        assert(t.skip(1) =~= s);
    }
}

/// A number is written in digits.
pub proof fn lemma_decimal(n: int)
    requires
        0 <= n,
    ensures
        is_digits(decimal(n)),
        value(decimal(n)) == n,
    decreases n,
{
    let s = decimal(n);
    if n < 10 {
        lemma_digit(n);
        assert(s.drop_last() =~= Seq::empty());
        assert(value(s.drop_last()) == 0);
    } else {
        lemma_decimal(n / 10);
        lemma_digit(n % 10);
        assert(s.drop_last() =~= decimal(n / 10));
        assert(s.last() == digit(n % 10)[0]);
        assert forall|i: int| 0 <= i < s.len() implies '0' <= #[trigger] s[i] && s[i] <= '9' by {
            if i < s.len() - 1 {
                assert(s[i] == decimal(n / 10)[i]);
            }
        }
    }
}

// --- cutting -------------------------------------------------------------------------------------

/// The place of the first `c`; the length where there is none.
pub open spec fn place_of(s: Seq<char>, c: char) -> int
    decreases s.len(),
{
    if s.len() == 0 || s[0] == c {
        0
    } else {
        1 + place_of(s.skip(1), c)
    }
}

/// What stands before and behind the first `c`.
pub open spec fn cut(s: Seq<char>, c: char) -> Option<(Seq<char>, Seq<char>)> {
    if place_of(s, c) < s.len() {
        Some((s.take(place_of(s, c)), s.skip(place_of(s, c) + 1)))
    } else {
        None
    }
}

/// The parts between the occurrences of `c`.
pub open spec fn parts(s: Seq<char>, c: char) -> Seq<Seq<char>>
    decreases s.len(),
{
    if 0 <= place_of(s, c) < s.len() {
        seq![s.take(place_of(s, c))] + parts(s.skip(place_of(s, c) + 1), c)
    } else {
        seq![s]
    }
}

/// Where the first `c` is.
proof fn lemma_place(s: Seq<char>, c: char, i: int)
    requires
        0 <= i <= s.len(),
        forall|k: int| 0 <= k < i ==> s[k] != c,
        i < s.len() ==> s[i] == c,
    ensures
        place_of(s, c) == i,
    decreases s.len(),
{
    if s.len() > 0 && s[0] != c {
        let t = s.skip(1);
        assert forall|k: int| 0 <= k < i - 1 implies t[k] != c by {
            assert(t[k] == s[k + 1]);
        }
        lemma_place(t, c, i - 1);
    }
}

/// The place of the first `c`.
pub fn find(s: &[char], from: usize, c: char) -> (r: usize)
    requires
        from <= s@.len(),
    ensures
        from <= r <= s@.len(),
        r - from == place_of(s@.skip(from as int), c),
        r < s@.len() ==> s@[r as int] == c,
{
    let n: usize = s.len();
    let mut i: usize = from;
    while i < n && s[i] != c
        invariant
            from <= i <= n,
            n == s@.len(),
            forall|k: int| from <= k < i ==> s@[k] != c,
        decreases n - i,
    {
        i = i + 1;
    }
    proof {
        let t = s@.skip(from as int);
        assert forall|k: int| 0 <= k < i - from implies t[k] != c by {
            assert(t[k] == s@[from + k]);
        }
        lemma_place(t, c, i - from);
    }
    i
}

/// What stands before and behind the first `c`.
pub fn split_once(s: &str, c: char) -> (r: Option<(&str, &str)>)
    ensures
        r is Some <==> cut(s@, c) is Some,
        r matches Some(p) ==> cut(s@, c) == Some((p.0@, p.1@)),
{
    let chars: Vec<char> = chars_of(s);
    let n: usize = chars.len();
    assert(s@.skip(0) =~= s@);
    let i: usize = find(chars.as_slice(), 0, c);
    if i < n {
        let a: &str = s.substring_char(0, i);
        let b: &str = s.substring_char(i + 1, n);
        assert(a@ =~= s@.take(i as int));
        assert(b@ =~= s@.skip(i + 1));
        Some((a, b))
    } else {
        None
    }
}

/// The parts between the occurrences of `c`.
pub fn split(s: &str, c: char) -> (r: Vec<String>)
    ensures
        shown(r@) == parts(s@, c),
{
    let chars: Vec<char> = chars_of(s);
    let n: usize = chars.len();
    let mut out: Vec<String> = Vec::new();
    let mut at: usize = 0;
    let mut done: bool = false;
    proof {
        assert(s@.skip(0) =~= s@);
        assert(shown(out@) =~= Seq::<Seq<char>>::empty());
        assert(Seq::<Seq<char>>::empty() + parts(s@, c) =~= parts(s@, c));
    }
    while !done
        invariant
            chars@ == s@,
            n == s@.len(),
            at <= n,
            !done ==> shown(out@) + parts(s@.skip(at as int), c) == parts(s@, c),
            done ==> shown(out@) == parts(s@, c),
        decreases
                n - at + (if done {
                    0int
                } else {
                    1
                }),
    {
        let ghost rest = s@.skip(at as int);
        let ghost before = shown(out@);
        let i: usize = find(chars.as_slice(), at, c);
        let part: &str = s.substring_char(at, i);
        assert(part@ =~= rest.take(i - at));
        out.push(part.to_owned());
        assert(shown(out@) =~= before.push(rest.take(i - at)));
        if i < n {
            proof {
                assert(rest.skip(i - at + 1) =~= s@.skip(i + 1));
                assert(shown(out@) + parts(s@.skip(i + 1), c) =~= before + parts(rest, c));
            }
            at = i + 1;
        } else {
            proof {
                assert(rest.take(i - at) =~= rest);
                assert(shown(out@) =~= before + parts(rest, c));
            }
            done = true;
        }
    }
    out
}

/// The texts of strings.
pub open spec fn shown(v: Seq<String>) -> Seq<Seq<char>> {
    Seq::new(v.len(), |k: int| v[k]@)
}

/// The text begins with another.
pub open spec fn starts(s: Seq<char>, p: Seq<char>) -> bool {
    s.len() >= p.len() && s.take(p.len() as int) == p
}

/// What stands behind a beginning.
pub fn strip_prefix<'a>(s: &'a str, p: &str) -> (r: Option<&'a str>)
    ensures
        r is Some <==> starts(s@, p@),
        r matches Some(x) ==> x@ == s@.skip(p@.len() as int),
{
    let n: usize = s.unicode_len();
    let k: usize = p.unicode_len();
    if n < k {
        return None;
    }
    let front: &str = s.substring_char(0, k);
    assert(front@ =~= s@.take(k as int));
    if same(front, p) {
        let rest: &str = s.substring_char(k, n);
        assert(rest@ =~= s@.skip(k as int));
        Some(rest)
    } else {
        None
    }
}

/// The text of one comes before the text of the other, character by character.
pub open spec fn before(a: Seq<char>, b: Seq<char>) -> bool
    decreases a.len(),
{
    if b.len() == 0 {
        false
    } else if a.len() == 0 {
        true
    } else if a[0] != b[0] {
        a[0] < b[0]
    } else {
        before(a.skip(1), b.skip(1))
    }
}

/// Of two texts one comes before the other, or they are the same.
pub proof fn law_before_is_total(a: Seq<char>, b: Seq<char>)
    ensures
        before(a, b) || before(b, a) || a == b,
        !(before(a, b) && before(b, a)),
        before(a, b) ==> a != b,
    decreases a.len(),
{
    if a.len() > 0 && b.len() > 0 && a[0] == b[0] {
        law_before_is_total(a.skip(1), b.skip(1));
        if a.skip(1) == b.skip(1) {
            assert(a =~= seq![a[0]] + a.skip(1));
            assert(b =~= seq![b[0]] + b.skip(1));
        }
    } else if a.len() == 0 && b.len() == 0 {
        assert(a =~= b);
    }
}

/// What comes before something comes before all that comes behind it.
pub proof fn law_before_is_transitive(a: Seq<char>, b: Seq<char>, c: Seq<char>)
    requires
        before(a, b),
        before(b, c),
    ensures
        before(a, c),
    decreases a.len(),
{
    if a.len() > 0 && b.len() > 0 && c.len() > 0 && a[0] == b[0] && b[0] == c[0] {
        law_before_is_transitive(a.skip(1), b.skip(1), c.skip(1));
    }
}

/// Whether a text comes before another.
pub fn is_before(a: &str, b: &str) -> (r: bool)
    ensures
        r == before(a@, b@),
{
    let x: Vec<char> = chars_of(a);
    let y: Vec<char> = chars_of(b);
    let mut i: usize = 0;
    proof {
        assert(x@.skip(0) =~= x@);
        assert(y@.skip(0) =~= y@);
    }
    while i < x.len() && i < y.len()
        invariant
            i <= x@.len(),
            i <= y@.len(),
            x@ == a@,
            y@ == b@,
            before(x@.skip(i as int), y@.skip(i as int)) == before(a@, b@),
        decreases x@.len() - i,
    {
        proof {
            assert(x@.skip(i as int)[0] == x@[i as int]);
            assert(y@.skip(i as int)[0] == y@[i as int]);
            assert(x@.skip(i as int).skip(1) =~= x@.skip(i + 1));
            assert(y@.skip(i as int).skip(1) =~= y@.skip(i + 1));
        }
        if x[i] != y[i] {
            return x[i] < y[i];
        }
        i = i + 1;
    }
    i < y.len()
}

// --- words and lines -------------------------------------------------------------------------------

/// The place of the first white space; the length where there is none.
pub open spec fn word_end(s: Seq<char>) -> int
    decreases s.len(),
{
    if s.len() == 0 || is_space(s[0]) {
        0
    } else {
        1 + word_end(s.skip(1))
    }
}

/// The words between the white space.
pub open spec fn words(s: Seq<char>) -> Seq<Seq<char>>
    decreases s.len(),
{
    if s.len() == 0 {
        Seq::empty()
    } else if is_space(s[0]) {
        words(s.skip(1))
    } else if 0 < word_end(s) <= s.len() {
        seq![s.take(word_end(s))] + words(s.skip(word_end(s)))
    } else {
        Seq::empty()
    }
}

/// Where the first white space is.
pub proof fn lemma_word_end(s: Seq<char>, i: int)
    requires
        0 <= i <= s.len(),
        forall|k: int| 0 <= k < i ==> !is_space(#[trigger] s[k]),
        i < s.len() ==> is_space(s[i]),
    ensures
        word_end(s) == i,
    decreases s.len(),
{
    if s.len() > 0 && !is_space(s[0]) {
        let t = s.skip(1);
        assert forall|k: int| 0 <= k < i - 1 implies !is_space(#[trigger] t[k]) by {
            assert(t[k] == s[k + 1]);
        }
        lemma_word_end(t, i - 1);
    }
}

/// The words between the white space.
pub fn split_whitespace(s: &str) -> (r: Vec<String>)
    ensures
        shown(r@) == words(s@),
{
    let chars: Vec<char> = chars_of(s);
    let n: usize = chars.len();
    let mut out: Vec<String> = Vec::new();
    let mut at: usize = 0;
    proof {
        assert(s@.skip(0) =~= s@);
        assert(shown(out@) =~= Seq::<Seq<char>>::empty());
        assert(Seq::<Seq<char>>::empty() + words(s@) =~= words(s@));
    }
    while at < n
        invariant
            chars@ == s@,
            n == s@.len(),
            at <= n,
            shown(out@) + words(s@.skip(at as int)) == words(s@),
        decreases n - at,
    {
        let ghost rest = s@.skip(at as int);
        if whitespace(chars[at]) {
            assert(rest.skip(1) =~= s@.skip(at + 1));
            at = at + 1;
        } else {
            let mut end: usize = at + 1;
            while end < n && !whitespace(chars[end])
                invariant
                    chars@ == s@,
                    n == s@.len(),
                    at < end <= n,
                    forall|k: int| at <= k < end ==> !is_space(#[trigger] s@[k]),
                decreases n - end,
            {
                end = end + 1;
            }
            let word: &str = s.substring_char(at, end);
            proof {
                assert forall|k: int| 0 <= k < end - at implies !is_space(#[trigger] rest[k]) by {
                    assert(rest[k] == s@[at + k]);
                }
                lemma_word_end(rest, end - at);
                assert(rest.take(end - at) =~= word@);
                assert(rest.skip(end - at) =~= s@.skip(end as int));
            }
            let ghost before = out@;
            out.push(word.to_owned());
            proof {
                assert(shown(out@) =~= shown(before).push(word@));
                assert(shown(before) + (seq![word@] + words(s@.skip(end as int))) =~= shown(out@)
                    + words(s@.skip(end as int)));
            }
            at = end;
        }
    }
    assert(shown(out@) + words(s@.skip(n as int)) =~= shown(out@));
    out
}

/// A line without a carriage return at its end.
pub open spec fn without_return(s: Seq<char>) -> Seq<char> {
    if s.len() > 0 && s.last() == '\r' {
        s.drop_last()
    } else {
        s
    }
}

/// The lines of a text; nothing follows the last line feed.
pub open spec fn lines(s: Seq<char>) -> Seq<Seq<char>>
    decreases s.len(),
{
    if s.len() == 0 {
        Seq::empty()
    } else if 0 <= place_of(s, '\n') < s.len() {
        seq![without_return(s.take(place_of(s, '\n')))] + lines(s.skip(place_of(s, '\n') + 1))
    } else {
        seq![s]
    }
}

/// The lines of a text.
pub fn split_lines(s: &str) -> (r: Vec<String>)
    ensures
        shown(r@) == lines(s@),
{
    let chars: Vec<char> = chars_of(s);
    let n: usize = chars.len();
    let mut out: Vec<String> = Vec::new();
    let mut at: usize = 0;
    proof {
        assert(s@.skip(0) =~= s@);
        assert(shown(out@) =~= Seq::<Seq<char>>::empty());
        assert(Seq::<Seq<char>>::empty() + lines(s@) =~= lines(s@));
    }
    while at < n
        invariant
            chars@ == s@,
            n == s@.len(),
            at <= n,
            shown(out@) + lines(s@.skip(at as int)) == lines(s@),
        decreases n - at,
    {
        let ghost rest = s@.skip(at as int);
        let ghost before = out@;
        let end: usize = find(chars.as_slice(), at, '\n');
        if end < n {
            let keep: usize = if end > at && chars[end - 1] == '\r' {
                end - 1
            } else {
                end
            };
            let line: &str = s.substring_char(at, keep);
            proof {
                let whole = rest.take(end - at);
                assert(whole =~= s@.subrange(at as int, end as int));
                assert(without_return(whole) =~= line@);
                assert(rest.skip(end - at + 1) =~= s@.skip(end + 1));
            }
            out.push(line.to_owned());
            proof {
                assert(shown(out@) =~= shown(before).push(line@));
                assert(shown(before) + (seq![line@] + lines(s@.skip(end + 1))) =~= shown(out@)
                    + lines(s@.skip(end + 1)));
            }
            at = end + 1;
        } else {
            let line: &str = s.substring_char(at, n);
            proof {
                assert(line@ =~= rest);
            }
            out.push(line.to_owned());
            proof {
                assert(shown(out@) =~= shown(before).push(line@));
                assert(shown(before) + seq![line@] =~= shown(out@));
                assert(shown(out@) + lines(s@.skip(n as int)) =~= shown(out@));
            }
            at = n;
        }
    }
    assert(shown(out@) + lines(s@.skip(n as int)) =~= shown(out@));
    out
}

/// The text without the equals signs, spaces and tabs in front.
pub open spec fn past_equals(s: Seq<char>) -> Seq<char>
    decreases s.len(),
{
    if s.len() > 0 && (s[0] == '=' || s[0] == ' ' || s[0] == '\t') {
        past_equals(s.skip(1))
    } else {
        s
    }
}

/// The text without the equals signs, spaces and tabs in front.
pub fn skip_equals(s: &str) -> (r: &str)
    ensures
        r@ == past_equals(s@),
{
    let chars: Vec<char> = chars_of(s);
    let n: usize = chars.len();
    let mut a: usize = 0;
    assert(s@.skip(0) =~= s@);
    while a < n && (chars[a] == '=' || chars[a] == ' ' || chars[a] == '\t')
        invariant
            a <= n,
            n == s@.len(),
            chars@ == s@,
            past_equals(s@.skip(a as int)) == past_equals(s@),
        decreases n - a,
    {
        assert(s@.skip(a as int).skip(1) =~= s@.skip(a + 1));
        a = a + 1;
    }
    let r: &str = s.substring_char(a, n);
    assert(r@ =~= s@.skip(a as int));
    r
}

/// A text without white space, and not empty.
pub open spec fn is_word(s: Seq<char>) -> bool {
    s.len() > 0 && forall|k: int| 0 <= k < s.len() ==> !is_space(#[trigger] s[k])
}

/// A word is its own only word.
pub proof fn lemma_word(s: Seq<char>)
    requires
        is_word(s),
    ensures
        words(s) == seq![s],
{
    lemma_word_end(s, s.len() as int);
    assert(s.take(s.len() as int) =~= s);
    assert(words(s.skip(s.len() as int)) =~= Seq::<Seq<char>>::empty());
    assert(words(s) =~= seq![s]);
}

/// The words of two texts with a space between them are the words of the one and
/// those of the other.
pub proof fn lemma_words_join(a: Seq<char>, b: Seq<char>)
    ensures
        words(a + " "@ + b) == words(a) + words(b),
    decreases a.len(),
{
    reveal_strlit(" ");
    let s = a + " "@ + b;
    if a.len() == 0 {
        assert(s.skip(1) =~= b);
        assert(words(a) + words(b) =~= words(b));
    } else if is_space(a[0]) {
        assert(s[0] == a[0]);
        assert(s.skip(1) =~= a.skip(1) + " "@ + b);
        lemma_words_join(a.skip(1), b);
    } else {
        lemma_end_found(a);
        let e = word_end(a);
        assert forall|k: int| 0 <= k < e implies !is_space(#[trigger] s[k]) by {
            assert(s[k] == a[k]);
        }
        assert(s[e] == if e < a.len() {
            a[e]
        } else {
            ' '
        });
        lemma_word_end(s, e);
        assert(s.take(e) =~= a.take(e));
        assert(s.skip(e) =~= a.skip(e) + " "@ + b);
        lemma_words_join(a.skip(e), b);
        assert(seq![a.take(e)] + (words(a.skip(e)) + words(b)) =~= seq![a.take(e)] + words(
            a.skip(e),
        ) + words(b));
    }
}

/// Before the end of a word there is no white space, and behind it there is.
proof fn lemma_end_found(s: Seq<char>)
    ensures
        0 <= word_end(s) <= s.len(),
        forall|k: int| 0 <= k < word_end(s) ==> !is_space(#[trigger] s[k]),
        word_end(s) < s.len() ==> is_space(s[word_end(s)]),
        s.len() > 0 && !is_space(s[0]) ==> word_end(s) > 0,
    decreases s.len(),
{
    if s.len() > 0 && !is_space(s[0]) {
        let t = s.skip(1);
        lemma_end_found(t);
        assert forall|k: int| 0 <= k < word_end(s) implies !is_space(#[trigger] s[k]) by {
            if k > 0 {
                assert(t[k - 1] == s[k]);
            }
        }
    }
}

/// A line in front of a text is the first of its lines.
pub proof fn lemma_first_line(a: Seq<char>, b: Seq<char>)
    requires
        forall|k: int| 0 <= k < a.len() ==> #[trigger] a[k] != '\n',
        a.len() > 0 ==> a.last() != '\r',
    ensures
        lines(a + "\n"@ + b) == seq![a] + lines(b),
{
    reveal_strlit("\n");
    let s = a + "\n"@ + b;
    assert forall|k: int| 0 <= k < a.len() implies s[k] != '\n' by {
        assert(s[k] == a[k]);
    }
    lemma_place(s, '\n', a.len() as int);
    assert(s.take(a.len() as int) =~= a);
    assert(s.skip((a.len() + 1) as int) =~= b);
}

} // verus!
