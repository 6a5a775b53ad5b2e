//! Plain text operations on `&str`, each with the value it returns stated over
//! the sequence of characters of its argument.

use vstd::prelude::*;

verus! {

/// `String::push`: appends one character.
pub assume_specification[ String::push ](s: &mut String, c: char)
    ensures
        final(s)@ == old(s)@.push(c),
;

/// The text that `{:?}` prints for a string, quotes and escapes included.
pub uninterp spec fn debug_text(s: Seq<char>) -> Seq<char>;

/// `format!("{:?}", s)`: the quoted, escaped form of `s`, a function of the
/// characters of `s` alone. What the escapes are is left unsaid: they follow
/// the Unicode tables of the standard library.
#[verifier::external_body]
pub(crate) fn quoted(s: &str) -> (r: String)
    ensures
        r@ == debug_text(s@),
{
    format!("{s:?}")
}

/// The code points with the Unicode property `White_Space`.
pub open spec fn is_white(c: char) -> bool {
    let u = c as u32;
    ||| 0x09 <= u <= 0x0d
    ||| u == 0x20
    ||| u == 0x85
    ||| u == 0xa0
    ||| u == 0x1680
    ||| 0x2000 <= u <= 0x200a
    ||| u == 0x2028
    ||| u == 0x2029
    ||| u == 0x202f
    ||| u == 0x205f
    ||| u == 0x3000
}

/// `s` without its leading white space.
pub open spec fn trim_start(s: Seq<char>) -> Seq<char>
    decreases s.len(),
{
    if s.len() > 0 && is_white(s.first()) {
        trim_start(s.drop_first())
    } else {
        s
    }
}

/// `s` without its trailing white space.
pub open spec fn trim_end(s: Seq<char>) -> Seq<char>
    decreases s.len(),
{
    if s.len() > 0 && is_white(s.last()) {
        trim_end(s.drop_last())
    } else {
        s
    }
}

/// `s` without its leading and trailing white space.
pub open spec fn trimmed(s: Seq<char>) -> Seq<char> {
    trim_end(trim_start(s))
}

/// `c` with an ASCII capital letter replaced by its small form.
pub open spec fn lower_char(c: char) -> char {
    if 'A' <= c <= 'Z' {
        (c as u32 + 32) as char
    } else {
        c
    }
}

/// `s` with each ASCII capital letter replaced by its small form.
pub open spec fn lowered(s: Seq<char>) -> Seq<char> {
    s.map_values(|c: char| lower_char(c))
}

/// What stands before and after the first `sep` in `s`, if there is one.
pub open spec fn split_first(s: Seq<char>, sep: char) -> Option<(Seq<char>, Seq<char>)>
    decreases s.len(),
{
    if s.len() == 0 {
        None
    } else if s.first() == sep {
        Some((Seq::empty(), s.drop_first()))
    } else {
        match split_first(s.drop_first(), sep) {
            Some((a, b)) => Some((seq![s.first()] + a, b)),
            None => None,
        }
    }
}

/// The pieces of `s` between the occurrences of `sep`.
pub open spec fn split_all(s: Seq<char>, sep: char) -> Seq<Seq<char>>
    decreases s.len(),
{
    proof {
        lemma_split_first_shortens(s, sep);
    }
    match split_first(s, sep) {
        None => seq![s],
        Some((a, b)) => seq![a] + split_all(b, sep),
    }
}

/// `s` without the characters `c` at its start.
pub open spec fn strip_start(s: Seq<char>, c: char) -> Seq<char>
    decreases s.len(),
{
    if s.len() > 0 && s.first() == c {
        strip_start(s.drop_first(), c)
    } else {
        s
    }
}

/// `s` without the characters `c` at its end.
pub open spec fn strip_end(s: Seq<char>, c: char) -> Seq<char>
    decreases s.len(),
{
    if s.len() > 0 && s.last() == c {
        strip_end(s.drop_last(), c)
    } else {
        s
    }
}

/// `s` without the characters `c` at its start and end.
pub open spec fn stripped(s: Seq<char>, c: char) -> Seq<char> {
    strip_end(strip_start(s, c), c)
}

/// `s` begins with `prefix`.
pub open spec fn begins_with(s: Seq<char>, prefix: Seq<char>) -> bool {
    prefix.len() <= s.len() && s.subrange(0, prefix.len() as int) == prefix
}

/// `s` ends with `suffix`.
pub open spec fn finishes_with(s: Seq<char>, suffix: Seq<char>) -> bool {
    suffix.len() <= s.len() && s.subrange(s.len() - suffix.len(), s.len() as int) == suffix
}

/// The characters of an optional text.
pub open spec fn characters(s: Option<&str>) -> Option<Seq<char>> {
    match s {
        Some(t) => Some(t@),
        None => None,
    }
}

/// The characters of `s`.
pub fn chars_of(s: &str) -> (r: Vec<char>)
    ensures
        r@ == s@,
{
    let mut out: Vec<char> = Vec::new();
    for c in it: s.chars()
        invariant
            out@ == it.seq().take(it.index() as int),
            it.seq() == s@,
    {
        out.push(c);
    }
    out
}

/// Whether two texts hold the same characters.
pub fn same(a: &str, b: &str) -> (r: bool)
    ensures
        r == (a@ == b@),
{
    let x = chars_of(a);
    let y = chars_of(b);
    if x.len() != y.len() {
        return false;
    }
    let mut i: usize = 0;
    while i < x.len()
        invariant
            i <= x.len(),
            x.len() == y.len(),
            x@ == a@,
            y@ == b@,
            forall|j: int| 0 <= j < i ==> x@[j] == y@[j],
        decreases x.len() - i,
    {
        if x[i] != y[i] {
            assert(a@[i as int] != b@[i as int]);
            return false;
        }
        i += 1;
    }
    assert(a@ =~= b@);
    true
}

/// Whether `c` has the Unicode property `White_Space`.
pub fn white(c: char) -> (r: bool)
    ensures
        r == is_white(c),
{
    let u: u32 = c as u32;
    (0x09 <= u && u <= 0x0d) || u == 0x20 || u == 0x85 || u == 0xa0 || u == 0x1680 || (0x2000 <= u
        && u <= 0x200a) || u == 0x2028 || u == 0x2029 || u == 0x202f || u == 0x205f || u == 0x3000
}

/// The white space that [`trim_start`] takes away is the longest run at the start.
pub proof fn lemma_trim_start_at(s: Seq<char>, k: int)
    requires
        0 <= k <= s.len(),
        forall|j: int| 0 <= j < k ==> is_white(s[j]),
        k < s.len() ==> !is_white(s[k]),
    ensures
        trim_start(s) == s.subrange(k, s.len() as int),
    decreases k,
{
    if k == 0 {
        assert(s.subrange(0, s.len() as int) =~= s);
    } else {
        lemma_trim_start_at(s.drop_first(), k - 1);
        assert(s.drop_first().subrange(k - 1, s.len() - 1) =~= s.subrange(k, s.len() as int));
    }
}

/// The white space that [`trim_end`] takes away is the longest run at the end.
pub proof fn lemma_trim_end_at(s: Seq<char>, k: int)
    requires
        0 <= k <= s.len(),
        forall|j: int| k <= j < s.len() ==> is_white(s[j]),
        k > 0 ==> !is_white(s[k - 1]),
    ensures
        trim_end(s) == s.subrange(0, k),
    decreases s.len(),
{
    if k == s.len() {
        assert(s.subrange(0, k) =~= s);
    } else {
        lemma_trim_end_at(s.drop_last(), k);
        assert(s.drop_last().subrange(0, k) =~= s.subrange(0, k));
    }
}

/// `s` without its leading and trailing white space.
pub fn trim(s: &str) -> (r: &str)
    ensures
        r@ == trimmed(s@),
{
    let v = chars_of(s);
    let mut a: usize = 0;
    while a < v.len() && white(v[a])
        invariant
            a <= v.len(),
            forall|j: int| 0 <= j < a ==> is_white(v@[j]),
        decreases v.len() - a,
    {
        a += 1;
    }
    let mut b: usize = v.len();
    while a < b && white(v[b - 1])
        invariant
            a <= b <= v.len(),
            forall|j: int| b <= j < v.len() ==> is_white(v@[j]),
        decreases b,
    {
        b -= 1;
    }
    proof {
        lemma_trim_start_at(s@, a as int);
        let t = s@.subrange(a as int, s@.len() as int);
        lemma_trim_end_at(t, b - a);
        assert(t.subrange(0, b - a) =~= s@.subrange(a as int, b as int));
    }
    s.substring_char(a, b)
}

/// `s` with each ASCII capital letter replaced by its small form.
pub fn to_lower(s: &str) -> (r: String)
    ensures
        r@ == lowered(s@),
{
    let v = chars_of(s);
    let mut out = String::new();
    let mut i: usize = 0;
    while i < v.len()
        invariant
            i <= v.len(),
            out@.len() == i,
            forall|j: int| 0 <= j < i ==> out@[j] == lower_char(v@[j]),
        decreases v.len() - i,
    {
        let c = v[i];
        if 'A' <= c && c <= 'Z' {
            let b: u8 = c as u8;
            out.push((b + 32) as char);
        } else {
            out.push(c);
        }
        i += 1;
    }
    assert(out@ =~= lowered(s@));
    out
}

/// [`split_first`] splits at the first place where the separator stands.
pub proof fn lemma_split_first_at(s: Seq<char>, sep: char, k: int)
    requires
        0 <= k <= s.len(),
        forall|j: int| 0 <= j < k ==> s[j] != sep,
        k < s.len() ==> s[k] == sep,
    ensures
        k < s.len() ==> split_first(s, sep) == Some(
            (s.subrange(0, k), s.subrange(k + 1, s.len() as int)),
        ),
        k == s.len() ==> split_first(s, sep) is None,
    decreases k,
{
    if k == 0 {
        if s.len() > 0 {
            assert(s.subrange(0, 0) =~= Seq::empty());
            assert(s.drop_first() =~= s.subrange(1, s.len() as int));
        }
    } else {
        let t = s.drop_first();
        lemma_split_first_at(t, sep, k - 1);
        if k < s.len() {
            assert(seq![s.first()] + t.subrange(0, k - 1) =~= s.subrange(0, k));
            assert(t.subrange(k, t.len() as int) =~= s.subrange(k + 1, s.len() as int));
        }
    }
}

/// Splits `s` at its first `sep`.
pub fn split_once(s: &str, sep: char) -> (r: Option<(&str, &str)>)
    ensures
        match (r, split_first(s@, sep)) {
            (Some((a, b)), Some((x, y))) => a@ == x && b@ == y,
            (None, None) => true,
            _ => false,
        },
{
    let v = chars_of(s);
    let mut i: usize = 0;
    while i < v.len() && v[i] != sep
        invariant
            i <= v.len(),
            forall|j: int| 0 <= j < i ==> v@[j] != sep,
        decreases v.len() - i,
    {
        i += 1;
    }
    proof {
        lemma_split_first_at(s@, sep, i as int);
    }
    if i < v.len() {
        Some((s.substring_char(0, i), s.substring_char(i + 1, v.len())))
    } else {
        None
    }
}

/// Splitting shortens.
pub proof fn lemma_split_first_shortens(s: Seq<char>, sep: char)
    ensures
        split_first(s, sep) matches Some((a, b)) ==> a.len() + 1 + b.len() == s.len(),
    decreases s.len(),
{
    if s.len() > 0 && s.first() != sep {
        lemma_split_first_shortens(s.drop_first(), sep);
    }
}

/// The two parts of a split and the separator make up the text, and the separator
/// does not stand in the first part.
pub proof fn lemma_split_first_parts(s: Seq<char>, sep: char)
    ensures
        match split_first(s, sep) {
            None => !s.contains(sep),
            Some((a, b)) => s == a + seq![sep] + b && !a.contains(sep),
        },
    decreases s.len(),
{
    if s.len() > 0 {
        let t = s.drop_first();
        if s.first() == sep {
            assert(s =~= Seq::<char>::empty() + seq![sep] + t);
        } else {
            lemma_split_first_parts(t, sep);
            match split_first(t, sep) {
                None => {
                    assert forall|i: int| 0 <= i < s.len() implies s[i] != sep by {
                        if i > 0 {
                            assert(t[i - 1] == s[i]);
                        }
                    }
                },
                Some((a, b)) => {
                    let c = seq![s.first()] + a;
                    assert(s =~= c + seq![sep] + b) by {
                        assert(s =~= seq![s.first()] + t);
                    }
                    assert forall|i: int| 0 <= i < c.len() implies c[i] != sep by {
                        if i > 0 {
                            assert(a[i - 1] == c[i]);
                        }
                    }
                },
            }
        }
    }
}

/// A text split at a place that it names.
pub proof fn lemma_split_first_of_parts(a: Seq<char>, b: Seq<char>, sep: char)
    requires
        !a.contains(sep),
    ensures
        split_first(a + seq![sep] + b, sep) == Some((a, b)),
{
    let s = a + seq![sep] + b;
    assert forall|j: int| 0 <= j < a.len() implies s[j] != sep by {
        assert(a.contains(a[j]));
    }
    lemma_split_first_at(s, sep, a.len() as int);
    assert(s.subrange(0, a.len() as int) =~= a);
    assert(s.subrange(a.len() as int + 1, s.len() as int) =~= b);
}

/// A piece without a separator, put behind a separator, is one more piece.
pub proof fn lemma_split_all_push(x: Seq<char>, y: Seq<char>, sep: char)
    requires
        !y.contains(sep),
    ensures
        split_all(x + seq![sep] + y, sep) == split_all(x, sep).push(y),
    decreases x.len(),
{
    lemma_split_first_parts(x, sep);
    lemma_split_first_shortens(x, sep);
    lemma_split_first_parts(y, sep);
    match split_first(x, sep) {
        None => {
            lemma_split_first_of_parts(x, y, sep);
            assert(split_first(y, sep) is None) by {
                if let Some((a, b)) = split_first(y, sep) {
                    assert((a + seq![sep] + b)[a.len() as int] == sep);
                }
            }
            assert(split_all(y, sep) =~= seq![y]);
            assert(split_all(x + seq![sep] + y, sep) =~= split_all(x, sep).push(y));
        },
        Some((a, b)) => {
            let rest = b + seq![sep] + y;
            assert(x + seq![sep] + y =~= a + seq![sep] + rest);
            lemma_split_first_of_parts(a, rest, sep);
            lemma_split_all_push(b, y, sep);
            assert(split_all(x + seq![sep] + y, sep) =~= split_all(x, sep).push(y));
        },
    }
}

/// The texts in `v`.
pub open spec fn texts(v: Seq<String>) -> Seq<Seq<char>> {
    v.map_values(|s: String| s@)
}

/// The pieces of `s` between the occurrences of `sep`.
pub fn split(s: &str, sep: char) -> (r: Vec<String>)
    ensures
        texts(r@) == split_all(s@, sep),
{
    let mut out: Vec<String> = Vec::new();
    let mut rest: &str = s;
    assert(texts(out@) + split_all(rest@, sep) =~= split_all(s@, sep));
    loop
        invariant
            texts(out@) + split_all(rest@, sep) == split_all(s@, sep),
        decreases rest@.len(),
    {
        let ghost done = out@;
        proof {
            lemma_split_first_shortens(rest@, sep);
        }
        match split_once(rest, sep) {
            None => {
                out.push(rest.to_owned());
                assert(texts(out@) =~= texts(done) + seq![rest@]);
                return out;
            },
            Some((a, b)) => {
                out.push(a.to_owned());
                assert(texts(out@) =~= texts(done) + seq![a@]);
                assert(texts(done) + (seq![a@] + split_all(b@, sep)) =~= texts(out@) + split_all(
                    b@,
                    sep,
                ));
                rest = b;
            },
        }
    }
}

/// What [`strip_start`] takes away is the longest run at the start.
pub proof fn lemma_strip_start_at(s: Seq<char>, c: char, k: int)
    requires
        0 <= k <= s.len(),
        forall|j: int| 0 <= j < k ==> s[j] == c,
        k < s.len() ==> s[k] != c,
    ensures
        strip_start(s, c) == s.subrange(k, s.len() as int),
    decreases k,
{
    if k == 0 {
        assert(s.subrange(0, s.len() as int) =~= s);
    } else {
        lemma_strip_start_at(s.drop_first(), c, k - 1);
        assert(s.drop_first().subrange(k - 1, s.len() - 1) =~= s.subrange(k, s.len() as int));
    }
}

/// What [`strip_end`] takes away is the longest run at the end.
pub proof fn lemma_strip_end_at(s: Seq<char>, c: char, k: int)
    requires
        0 <= k <= s.len(),
        forall|j: int| k <= j < s.len() ==> s[j] == c,
        k > 0 ==> s[k - 1] != c,
    ensures
        strip_end(s, c) == s.subrange(0, k),
    decreases s.len(),
{
    if k == s.len() {
        assert(s.subrange(0, k) =~= s);
    } else {
        lemma_strip_end_at(s.drop_last(), c, k);
        assert(s.drop_last().subrange(0, k) =~= s.subrange(0, k));
    }
}

/// `s` without the characters `c` at its start and end.
pub fn trim_matches(s: &str, c: char) -> (r: &str)
    ensures
        r@ == stripped(s@, c),
{
    let v = chars_of(s);
    let mut a: usize = 0;
    while a < v.len() && v[a] == c
        invariant
            a <= v.len(),
            forall|j: int| 0 <= j < a ==> v@[j] == c,
        decreases v.len() - a,
    {
        a += 1;
    }
    let mut b: usize = v.len();
    while a < b && v[b - 1] == c
        invariant
            a <= b <= v.len(),
            forall|j: int| b <= j < v.len() ==> v@[j] == c,
        decreases b,
    {
        b -= 1;
    }
    proof {
        lemma_strip_start_at(s@, c, a as int);
        let t = s@.subrange(a as int, s@.len() as int);
        lemma_strip_end_at(t, c, b - a);
        assert(t.subrange(0, b - a) =~= s@.subrange(a as int, b as int));
    }
    s.substring_char(a, b)
}

/// Whether `s` begins with `prefix`.
pub fn starts_with(s: &str, prefix: &str) -> (r: bool)
    ensures
        r == begins_with(s@, prefix@),
{
    let n: usize = s.unicode_len();
    let k: usize = prefix.unicode_len();
    k <= n && same(s.substring_char(0, k), prefix)
}

/// Whether `s` ends with `suffix`.
pub fn ends_with(s: &str, suffix: &str) -> (r: bool)
    ensures
        r == finishes_with(s@, suffix@),
{
    let n: usize = s.unicode_len();
    let k: usize = suffix.unicode_len();
    k <= n && same(s.substring_char(n - k, n), suffix)
}

/// An ASCII decimal digit.
pub open spec fn is_digit(c: char) -> bool {
    '0' <= c <= '9'
}

/// The number that a string of decimal digits stands for.
pub open spec fn decimal(s: Seq<char>) -> int
    decreases s.len(),
{
    if s.len() == 0 {
        0
    } else {
        10 * decimal(s.drop_last()) + (s.last() as int - '0' as int)
    }
}

/// Only digits.
pub open spec fn all_digits(s: Seq<char>) -> bool {
    forall|i: int| 0 <= i < s.len() ==> is_digit(#[trigger] s[i])
}

/// The number of sixteen bits that a string of digits stands for.
pub open spec fn u16_digits(s: Seq<char>) -> Option<u16> {
    if s.len() > 0 && all_digits(s) && decimal(s) <= u16::MAX {
        Some(decimal(s) as u16)
    } else {
        None
    }
}

/// The number of sixteen bits that a text stands for: digits, with a plus sign
/// before them or without.
pub open spec fn u16_named(s: Seq<char>) -> Option<u16> {
    if s.len() > 0 && s.first() == '+' {
        u16_digits(s.drop_first())
    } else {
        u16_digits(s)
    }
}

proof fn lemma_decimal_grows(s: Seq<char>, k: int)
    requires
        0 <= k <= s.len(),
        all_digits(s),
    ensures
        0 <= decimal(s.subrange(0, k)) <= decimal(s),
    decreases s.len(),
{
    if k == s.len() {
        assert(s.subrange(0, k) =~= s);
        if s.len() > 0 {
            lemma_decimal_grows(s.drop_last(), k - 1);
            assert(is_digit(s.last()));
        }
    } else {
        lemma_decimal_grows(s.drop_last(), k);
        assert(s.drop_last().subrange(0, k) =~= s.subrange(0, k));
        assert(is_digit(s.last()));
    }
}

/// Reads a number of sixteen bits.
pub fn parse_u16(s: &str) -> (r: Option<u16>)
    ensures
        r == u16_named(s@),
{
    let v = chars_of(s);
    let start: usize = if v.len() > 0 && v[0] == '+' {
        1
    } else {
        0
    };
    let ghost digits = s@.subrange(start as int, s@.len() as int);
    proof {
        if start == 1 {
            assert(digits =~= s@.drop_first());
        } else {
            assert(digits =~= s@);
        }
    }
    if start == v.len() {
        return None;
    }
    let mut value: u32 = 0;
    let mut i: usize = start;
    while i < v.len()
        invariant
            start <= i <= v.len(),
            start < v.len(),
            v@ == s@,
            digits == s@.subrange(start as int, s@.len() as int),
            value <= u16::MAX,
            value == decimal(digits.subrange(0, i - start)),
            forall|j: int| 0 <= j < i - start ==> is_digit(#[trigger] digits[j]),
            u16_named(s@) == u16_digits(digits),
        decreases v.len() - i,
    {
        let c = v[i];
        assert(c == digits[i - start]);
        if !('0' <= c && c <= '9') {
            assert(!is_digit(digits[i - start]));
            return None;
        }
        let d: u32 = c as u32 - '0' as u32;
        assert(digits.subrange(0, i - start + 1).drop_last() =~= digits.subrange(0, i - start));
        value = 10 * value + d;
        i += 1;
        if value > 65535 {
            proof {
                if all_digits(digits) {
                    lemma_decimal_grows(digits, i - start);
                }
            }
            return None;
        }
    }
    assert(digits.subrange(0, i - start) =~= digits);
    Some(value as u16)
}

/// The digit for a number below ten.
pub open spec fn digit(n: int) -> char {
    ('0' as int + n) as char
}

/// The decimal digits of a number.
pub open spec fn digits_of(n: nat) -> Seq<char>
    decreases n,
{
    if n < 10 {
        seq![digit(n as int)]
    } else {
        digits_of(n / 10).push(digit((n % 10) as int))
    }
}

/// The digits of a number stand for it.
pub proof fn law_digits_stand_for_number(n: nat)
    ensures
        all_digits(digits_of(n)),
        digits_of(n).len() > 0,
        decimal(digits_of(n)) == n,
    decreases n,
{
    if n < 10 {
        let s = digits_of(n);
        assert(s.drop_last() =~= Seq::empty());
        assert(decimal(s.drop_last()) == 0);
    } else {
        law_digits_stand_for_number(n / 10);
        let s = digits_of(n);
        assert(s.drop_last() =~= digits_of(n / 10));
        assert forall|i: int| 0 <= i < s.len() implies is_digit(#[trigger] s[i]) by {
            if i < s.len() - 1 {
                assert(s[i] == digits_of(n / 10)[i]);
            }
        }
    }
}

/// The decimal digits of a number.
pub fn decimal_text(n: u64) -> (r: String)
    ensures
        r@ == digits_of(n as nat),
    decreases n,
{
    let d: u8 = (n % 10) as u8;
    let c: char = (48u8 + d) as char;
    if n < 10 {
        let mut s = String::new();
        s.push(c);
        assert(s@ =~= digits_of(n as nat));
        s
    } else {
        let mut s = decimal_text(n / 10);
        s.push(c);
        s
    }
}

/// `s` with as many `fill` before it as it takes to reach the length `width`.
pub open spec fn padded(s: Seq<char>, fill: char, width: int) -> Seq<char> {
    if s.len() >= width {
        s
    } else {
        Seq::new((width - s.len()) as nat, |i: int| fill) + s
    }
}

/// Zeros in front of a number do not change it.
pub proof fn law_padding_keeps_number(s: Seq<char>, width: int)
    ensures
        decimal(padded(s, '0', width)) == decimal(s),
    decreases s.len(), width,
{
    let p = padded(s, '0', width);
    if s.len() < width {
        if s.len() > 0 {
            law_padding_keeps_number(s.drop_last(), width - 1);
            assert(p.drop_last() =~= padded(s.drop_last(), '0', width - 1));
        } else {
            law_padding_keeps_number(s, width - 1);
            assert(p.drop_last() =~= padded(s, '0', width - 1));
        }
    }
}

/// `s` with as many `fill` before it as it takes to reach the length `width`.
pub fn pad(s: &str, fill: char, width: usize) -> (r: String)
    ensures
        r@ == padded(s@, fill, width as int),
{
    let n: usize = s.unicode_len();
    let mut out = String::new();
    let mut i: usize = n;
    while i < width
        invariant
            n <= i,
            n == s@.len(),
            i <= width || i == n,
            out@ == Seq::new((i - n) as nat, |j: int| fill),
        decreases width - i,
    {
        out.push(fill);
        i += 1;
        assert(out@ =~= Seq::new((i - n) as nat, |j: int| fill));
    }
    out.append(s);
    assert(out@ =~= padded(s@, fill, width as int));
    out
}

/// A text is its characters, and two texts are the same where these are.
pub proof fn law_texts_are_their_characters(a: &str, b: &str, v: Vec<char>, r: bool)
    requires
        call_ensures(chars_of, (a,), v),
        call_ensures(same, (a, b), r),
    ensures
        v@ == a@,
        r <==> a@.len() == b@.len() && forall|i: int| 0 <= i < a@.len() ==> #[trigger] a@[i] == b@[i],
{
    if a@.len() == b@.len() && (forall|i: int| 0 <= i < a@.len() ==> #[trigger] a@[i] == b@[i]) {
        assert(a@ =~= b@);
    }
}

/// White space is what lies between words and lines: the blank, the tabulator and the
/// line ends of ASCII, and the further code points of Unicode. No letter, digit or sign
/// of ASCII is.
pub proof fn law_white_space_separates(c: char, r: bool)
    requires
        call_ensures(white, (c,), r),
    ensures
        c == ' ' || c == '\t' || c == '\n' || c == '\r' ==> r,
        '!' <= c <= '~' ==> !r,
        c as u32 <= 0x7f ==> (r <==> c as u32 == 0x20 || 0x09 <= c as u32 <= 0x0d),
        0x80 <= c as u32 <= 0xff ==> (r <==> c as u32 == 0x85 || c as u32 == 0xa0),
        0x100 <= c as u32 <= 0x1fff ==> (r <==> c as u32 == 0x1680),
        0x2000 <= c as u32 <= 0x2fff ==> (r <==> c as u32 <= 0x200a || c as u32 == 0x2028 || c as u32
            == 0x2029 || c as u32 == 0x202f || c as u32 == 0x205f),
        c as u32 >= 0x3000 ==> (r <==> c as u32 == 0x3000),
{
}

/// Trimming takes the white space at both ends away, all of it, and nothing else.
pub proof fn law_trim_takes_outer_white(
    s: &str,
    r: &str,
    before: Seq<char>,
    middle: Seq<char>,
    after: Seq<char>,
)
    requires
        s@ == before + middle + after,
        forall|i: int| 0 <= i < before.len() ==> is_white(#[trigger] before[i]),
        forall|i: int| 0 <= i < after.len() ==> is_white(#[trigger] after[i]),
        middle.len() > 0 ==> !is_white(middle.first()) && !is_white(middle.last()),
        call_ensures(trim, (s,), r),
    ensures
        r@ == middle,
{
    let t = s@;
    let n = before.len() as int;
    assert forall|j: int| 0 <= j < n implies is_white(t[j]) by {
        assert(t[j] == before[j]);
    }
    if middle.len() > 0 {
        lemma_trim_start_at(t, n);
        let u = t.subrange(n, t.len() as int);
        assert(u =~= middle + after);
        assert forall|j: int| middle.len() <= j < u.len() implies is_white(u[j]) by {
            assert(u[j] == after[j - middle.len()]);
        }
        lemma_trim_end_at(u, middle.len() as int);
        assert(u.subrange(0, middle.len() as int) =~= middle);
    } else {
        assert forall|j: int| 0 <= j < t.len() implies is_white(t[j]) by {
            if j >= n {
                assert(t[j] == after[j - n]);
            }
        }
        lemma_trim_start_at(t, t.len() as int);
        assert(t.subrange(t.len() as int, t.len() as int) =~= Seq::empty());
        lemma_trim_end_at(Seq::empty(), 0);
    }
}

/// Taking a character away at both ends takes away all of it there, and nothing else.
pub proof fn law_strip_takes_outer_characters(
    s: &str,
    c: char,
    r: &str,
    before: Seq<char>,
    middle: Seq<char>,
    after: Seq<char>,
)
    requires
        s@ == before + middle + after,
        forall|i: int| 0 <= i < before.len() ==> #[trigger] before[i] == c,
        forall|i: int| 0 <= i < after.len() ==> #[trigger] after[i] == c,
        middle.len() > 0 ==> middle.first() != c && middle.last() != c,
        call_ensures(trim_matches, (s, c), r),
    ensures
        r@ == middle,
{
    let t = s@;
    let n = before.len() as int;
    assert forall|j: int| 0 <= j < n implies t[j] == c by {
        assert(t[j] == before[j]);
    }
    if middle.len() > 0 {
        lemma_strip_start_at(t, c, n);
        let u = t.subrange(n, t.len() as int);
        assert(u =~= middle + after);
        assert forall|j: int| middle.len() <= j < u.len() implies u[j] == c by {
            assert(u[j] == after[j - middle.len()]);
        }
        lemma_strip_end_at(u, c, middle.len() as int);
        assert(u.subrange(0, middle.len() as int) =~= middle);
    } else {
        assert forall|j: int| 0 <= j < t.len() implies t[j] == c by {
            if j >= n {
                assert(t[j] == after[j - n]);
            }
        }
        lemma_strip_start_at(t, c, t.len() as int);
        assert(t.subrange(t.len() as int, t.len() as int) =~= Seq::empty());
        lemma_strip_end_at(Seq::empty(), c, 0);
    }
}

/// Lowering changes the capital letters of ASCII to their small forms, place by place,
/// and leaves every other character as it is.
pub proof fn law_lowering_changes_capitals(s: &str, r: String, i: int)
    requires
        call_ensures(to_lower, (s,), r),
        0 <= i < s@.len(),
    ensures
        r@.len() == s@.len(),
        'A' <= s@[i] <= 'Z' ==> r@[i] as u32 == s@[i] as u32 + ('a' as u32 - 'A' as u32),
        !('A' <= s@[i] <= 'Z') ==> r@[i] == s@[i],
{
}

/// Splitting once gives what stands before and after the first separator; a text without
/// one is not split.
pub proof fn law_split_is_at_first_separator(s: &str, sep: char, r: Option<(&str, &str)>)
    requires
        call_ensures(split_once, (s, sep), r),
    ensures
        r is Some <==> s@.contains(sep),
        r matches Some((a, b)) ==> s@ == a@.push(sep) + b@ && !a@.contains(sep),
{
    lemma_split_first_parts(s@, sep);
    if let Some((a, b)) = r {
        assert(a@ + seq![sep] + b@ =~= a@.push(sep) + b@);
        assert(s@[a@.len() as int] == sep);
    }
}

/// The pieces with the separator between each two of them.
pub open spec fn joined(pieces: Seq<Seq<char>>, sep: char) -> Seq<char>
    decreases pieces.len(),
{
    if pieces.len() == 0 {
        Seq::empty()
    } else if pieces.len() == 1 {
        pieces[0]
    } else {
        pieces[0].push(sep) + joined(pieces.drop_first(), sep)
    }
}

proof fn lemma_split_joins(s: Seq<char>, sep: char)
    ensures
        joined(split_all(s, sep), sep) == s,
        split_all(s, sep).len() >= 1,
        forall|i: int|
            0 <= i < split_all(s, sep).len() ==> !(#[trigger] split_all(s, sep)[i]).contains(sep),
    decreases s.len(),
{
    lemma_split_first_shortens(s, sep);
    lemma_split_first_parts(s, sep);
    let pieces = split_all(s, sep);
    match split_first(s, sep) {
        None => {
            assert(pieces =~= seq![s]);
        },
        Some((a, b)) => {
            lemma_split_joins(b, sep);
            let rest = split_all(b, sep);
            assert(pieces =~= seq![a] + rest);
            assert(pieces.drop_first() =~= rest);
            assert(pieces[0] == a);
            assert(a.push(sep) + b =~= a + seq![sep] + b);
            assert forall|i: int| 0 <= i < pieces.len() implies !(#[trigger] pieces[i]).contains(
                sep,
            ) by {
                if i > 0 {
                    assert(pieces[i] == rest[i - 1]);
                }
            }
        },
    }
}

/// The pieces of a text hold no separator, and with separators between them they are the
/// text again.
pub proof fn law_pieces_join_to_text(s: &str, sep: char, r: Vec<String>)
    requires
        call_ensures(split, (s, sep), r),
    ensures
        r.len() >= 1,
        joined(texts(r@), sep) == s@,
        forall|i: int| 0 <= i < r.len() ==> !(#[trigger] r@[i])@.contains(sep),
{
    lemma_split_joins(s@, sep);
    assert forall|i: int| 0 <= i < r.len() implies !(#[trigger] r@[i])@.contains(sep) by {
        assert(texts(r@)[i] == r@[i]@);
    }
    assert(texts(r@).len() == r.len());
}

/// A text starts with another where that is followed by something to make the text, and
/// ends with another where something followed by that makes it.
pub proof fn law_ends_are_parts(
    s: &str,
    part: &str,
    first: bool,
    last: bool,
    rest: Seq<char>,
)
    requires
        call_ensures(starts_with, (s, part), first),
        call_ensures(ends_with, (s, part), last),
    ensures
        s@ == part@ + rest ==> first,
        s@ == rest + part@ ==> last,
        first ==> s@ == part@ + s@.subrange(part@.len() as int, s@.len() as int),
        last ==> s@ == s@.subrange(0, s@.len() - part@.len()) + part@,
{
    if s@ == part@ + rest {
        assert(s@.subrange(0, part@.len() as int) =~= part@);
    }
    if s@ == rest + part@ {
        assert(s@.subrange(s@.len() - part@.len(), s@.len() as int) =~= part@);
    }
    if first {
        assert(s@ =~= part@ + s@.subrange(part@.len() as int, s@.len() as int));
    }
    if last {
        assert(s@ =~= s@.subrange(0, s@.len() - part@.len()) + part@);
    }
}

/// A further digit makes ten times the number, and itself more.
pub proof fn law_digit_weighs_a_tenth(s: Seq<char>, c: char)
    ensures
        decimal(s.push(c)) == 10 * decimal(s) + (c as int - '0' as int),
        decimal(Seq::empty()) == 0,
{
    assert(s.push(c).drop_last() =~= s);
}

/// The text of a number holds digits only, the first of them no zero unless it is the
/// only one, and stands for the number.
pub proof fn law_text_of_number_has_no_leading_zero(n: u64, r: String)
    requires
        call_ensures(decimal_text, (n,), r),
    ensures
        decimal(r@) == n,
        r@.len() >= 1,
        forall|i: int| 0 <= i < r@.len() ==> '0' <= #[trigger] r@[i] <= '9',
        r@.len() > 1 ==> r@[0] != '0',
{
    law_digits_stand_for_number(n as nat);
    lemma_first_digit(n as nat);
    assert forall|i: int| 0 <= i < r@.len() implies '0' <= #[trigger] r@[i] <= '9' by {
        assert(is_digit(r@[i]));
    }
}

proof fn lemma_first_digit(n: nat)
    ensures
        digits_of(n).len() >= 1,
        n > 0 ==> digits_of(n)[0] != '0',
        n < 10 <==> digits_of(n).len() == 1,
    decreases n,
{
    if n >= 10 {
        lemma_first_digit(n / 10);
        assert(digits_of(n)[0] == digits_of(n / 10)[0]);
    }
}

/// A number of sixteen bits reads back from its text, with a plus sign before it and
/// without, and with zeros before it; a greater one is refused.
pub proof fn law_port_reads_back(
    n: u64,
    digits: String,
    s: &str,
    plain: Option<u16>,
    signed: &str,
    plus: Option<u16>,
    padded_text: &str,
    zeros: Option<u16>,
    width: int,
)
    requires
        call_ensures(decimal_text, (n,), digits),
        s@ == digits@,
        call_ensures(parse_u16, (s,), plain),
        signed@ == seq!['+'] + digits@,
        call_ensures(parse_u16, (signed,), plus),
        padded_text@ == padded(digits@, '0', width),
        call_ensures(parse_u16, (padded_text,), zeros),
    ensures
        n <= 65535 ==> plain == Some(n as u16) && plus == Some(n as u16) && zeros == Some(n as u16),
        n > 65535 ==> plain is None && plus is None && zeros is None,
{
    law_digits_stand_for_number(n as nat);
    law_padding_keeps_number(digits@, width);
    assert(signed@.drop_first() =~= digits@);
    assert(is_digit(digits@[0]));
    let p = padded_text@;
    assert forall|i: int| 0 <= i < p.len() implies is_digit(#[trigger] p[i]) by {
        let k = p.len() - digits@.len();
        if i >= k {
            assert(p[i] == digits@[i - k]);
        }
    }
    assert(is_digit(p[0]));
}

/// No number reads from an empty text, from a sign alone, or from a text with a character
/// that is no digit, but for a plus sign at its start.
pub proof fn law_port_has_digits_only(s: &str, r: Option<u16>, i: int)
    requires
        call_ensures(parse_u16, (s,), r),
    ensures
        s@.len() == 0 ==> r is None,
        s@ == seq!['+'] ==> r is None,
        0 <= i < s@.len() && !('0' <= s@[i] <= '9') && !(i == 0 && s@[i] == '+') ==> r is None,
{
    if 0 <= i < s@.len() && !('0' <= s@[i] <= '9') && !(i == 0 && s@[i] == '+') {
        assert(!is_digit(s@[i]));
        if s@.first() == '+' {
            assert(i > 0);
            assert(s@.drop_first()[i - 1] == s@[i]);
            assert(!all_digits(s@.drop_first()));
        } else {
            assert(!all_digits(s@));
        }
    }
}

/// Padding puts as much before a text as it lacks, and keeps the text behind that.
pub proof fn law_padding_fills_in_front(s: &str, fill: char, width: usize, r: String)
    requires
        call_ensures(pad, (s, fill, width), r),
    ensures
        s@.len() >= width ==> r@ == s@,
        s@.len() < width ==> r@.len() == width,
        r@.subrange(r@.len() - s@.len(), r@.len() as int) == s@,
        forall|i: int| 0 <= i < r@.len() - s@.len() ==> #[trigger] r@[i] == fill,
{
    assert(r@.subrange(r@.len() - s@.len(), r@.len() as int) =~= s@);
}

} // verus!
