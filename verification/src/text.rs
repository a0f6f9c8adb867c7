//! Character-level helpers on strings: equality, decimal rendering and
//! whitespace-separated words, each against a specification over `Seq<char>`.
use vstd::prelude::*;

verus! {

/// The ASCII digit for `d`, for `d < 10`.
pub open spec fn digit_char(d: nat) -> char {
    (48 + d) as char
}

/// Decimal rendering of `n`: no sign, no leading zero (except `0` itself).
pub open spec fn decimal(n: nat) -> Seq<char>
    decreases n,
{
    if n < 10 {
        seq![digit_char(n)]
    } else {
        decimal(n / 10) + seq![digit_char(n % 10)]
    }
}

/// The text of one decimal digit.
fn digit_str(d: u64) -> (r: &'static str)
    requires
        d < 10,
    ensures
        r@ == seq![digit_char(d as nat)],
{
    let digits = "0123456789";
    proof {
        reveal_strlit("0123456789");
    }
    let r = digits.substring_char(d as usize, (d + 1) as usize);
    assert(r@ =~= seq![digit_char(d as nat)]);
    r
}

/// Renders `n` in decimal, as `format!("{}", n)` does for an unsigned integer.
pub fn decimal_string(n: u64) -> (s: String)
    ensures
        s@ == decimal(n as nat),
        is_numeral_of(s@, n as nat),
    decreases n,
{
    proof {
        decimal_is_numeral(n as nat);
    }
    if n < 10 {
        String::from_str(digit_str(n))
    } else {
        let mut s = decimal_string(n / 10);
        s.append(digit_str(n % 10));
        s
    }
}

/// Character-wise equality of two strings.
pub fn str_eq(a: &str, b: &str) -> (r: bool)
    ensures
        r == (a@ == b@),
{
    let n = a.unicode_len();
    if n != b.unicode_len() {
        return false;
    }
    let mut i: usize = 0;
    while i < n
        invariant
            n == a@.len(),
            n == b@.len(),
            i <= n,
            forall|j: int| 0 <= j < i ==> a@[j] == b@[j],
        decreases n - i,
    {
        if a.get_char(i) != b.get_char(i) {
            return false;
        }
        i = i + 1;
    }
    assert(a@ =~= b@);
    true
}

/// Whitespace in the sense of `char::is_whitespace` (the Unicode `White_Space` property).
pub open spec fn is_whitespace(c: char) -> bool {
    ||| c == '\t'
    ||| c == '\n'
    ||| c == '\u{0B}'
    ||| c == '\u{0C}'
    ||| c == '\r'
    ||| c == ' '
    ||| c == '\u{85}'
    ||| c == '\u{A0}'
    ||| c == '\u{1680}'
    ||| ('\u{2000}' <= c <= '\u{200A}')
    ||| c == '\u{2028}'
    ||| c == '\u{2029}'
    ||| c == '\u{202F}'
    ||| c == '\u{205F}'
    ||| c == '\u{3000}'
}

/// Decides `is_whitespace`.
pub fn char_is_whitespace(c: char) -> (r: bool)
    ensures
        r == is_whitespace(c),
{
    c == '\t' || c == '\n' || c == '\u{0B}' || c == '\u{0C}' || c == '\r' || c == ' '
        || c == '\u{85}' || c == '\u{A0}' || c == '\u{1680}' || ('\u{2000}' <= c && c
        <= '\u{200A}') || c == '\u{2028}' || c == '\u{2029}' || c == '\u{202F}' || c
        == '\u{205F}' || c == '\u{3000}'
}

/// First index at or after `i` that does not hold whitespace (or the length).
pub open spec fn skip_space(s: Seq<char>, i: int) -> int
    decreases s.len() - i,
{
    if i >= s.len() || !is_whitespace(s[i]) {
        i
    } else {
        skip_space(s, i + 1)
    }
}

/// First index at or after `i` that holds whitespace (or the length).
pub open spec fn skip_word(s: Seq<char>, i: int) -> int
    decreases s.len() - i,
{
    if i >= s.len() || is_whitespace(s[i]) {
        i
    } else {
        skip_word(s, i + 1)
    }
}

/// Start of the second whitespace-separated word of `s`.
pub open spec fn second_word_start(s: Seq<char>) -> int {
    skip_space(s, skip_word(s, skip_space(s, 0)))
}

/// The second whitespace-separated word of `s`, as `s.split_whitespace().nth(1)` gives it.
pub open spec fn second_word(s: Seq<char>) -> Option<Seq<char>> {
    let c = second_word_start(s);
    if c >= s.len() {
        None
    } else {
        Some(s.subrange(c, skip_word(s, c)))
    }
}

proof fn lemma_skip_space_bounds(s: Seq<char>, i: int)
    requires
        0 <= i <= s.len(),
    ensures
        i <= skip_space(s, i) <= s.len(),
        forall|k: int| i <= k < skip_space(s, i) ==> is_whitespace(#[trigger] s[k]),
        skip_space(s, i) < s.len() ==> !is_whitespace(s[skip_space(s, i)]),
    decreases s.len() - i,
{
    if i < s.len() && is_whitespace(s[i]) {
        lemma_skip_space_bounds(s, i + 1);
    }
}

proof fn lemma_skip_word_bounds(s: Seq<char>, i: int)
    requires
        0 <= i <= s.len(),
    ensures
        i <= skip_word(s, i) <= s.len(),
        forall|k: int| i <= k < skip_word(s, i) ==> !is_whitespace(#[trigger] s[k]),
        skip_word(s, i) < s.len() ==> is_whitespace(s[skip_word(s, i)]),
    decreases s.len() - i,
{
    if i < s.len() && !is_whitespace(s[i]) {
        lemma_skip_word_bounds(s, i + 1);
    }
}

/// Index of the first character at or after `i` that is (`want_space`) or is not
/// whitespace; the string's length if there is none.
fn scan(s: &Vec<char>, i: usize, want_space: bool) -> (r: usize)
    requires
        i <= s@.len(),
    ensures
        want_space ==> r == skip_word(s@, i as int),
        !want_space ==> r == skip_space(s@, i as int),
{
    let mut j = i;
    while j < s.len() && char_is_whitespace(s[j]) != want_space
        invariant
            i <= j <= s@.len(),
            want_space ==> skip_word(s@, i as int) == skip_word(s@, j as int),
            !want_space ==> skip_space(s@, i as int) == skip_space(s@, j as int),
        decreases s@.len() - j,
    {
        j = j + 1;
    }
    j
}

/// The characters of `s`.
pub fn chars_of(s: &str) -> (v: Vec<char>)
    ensures
        v@ == s@,
{
    let n = s.unicode_len();
    let mut v: Vec<char> = Vec::new();
    let mut i: usize = 0;
    while i < n
        invariant
            n == s@.len(),
            i <= n,
            v@ == s@.subrange(0, i as int),
        decreases n - i,
    {
        v.push(s.get_char(i));
        i = i + 1;
        assert(v@ =~= s@.subrange(0, i as int));
    }
    assert(v@ =~= s@);
    v
}

/// Bounds of the second whitespace-separated word of `s`, if it has one.
pub fn second_word_bounds(s: &Vec<char>) -> (r: Option<(usize, usize)>)
    ensures
        match r {
            None => second_word(s@) is None,
            Some((a, b)) => {
                &&& a < b <= s@.len()
                &&& second_word(s@) == Some(s@.subrange(a as int, b as int))
            },
        },
{
    proof {
        lemma_skip_space_bounds(s@, 0);
        let a0 = skip_space(s@, 0);
        lemma_skip_word_bounds(s@, a0);
        let b0 = skip_word(s@, a0);
        lemma_skip_space_bounds(s@, b0);
    }
    let a = scan(s, 0, false);
    let b = scan(s, a, true);
    let c = scan(s, b, false);
    if c >= s.len() {
        None
    } else {
        proof {
            lemma_skip_word_bounds(s@, c as int);
        }
        let d = scan(s, c, true);
        assert(d > c) by {
            lemma_skip_space_bounds(s@, b as int);
        }
        Some((c, d))
    }
}

} // verus!

verus! {

/// First index at or after `i` that holds `c` (or the length).
pub open spec fn find_char(s: Seq<char>, c: char, i: int) -> int
    decreases s.len() - i,
{
    if i >= s.len() || s[i] == c {
        i
    } else {
        find_char(s, c, i + 1)
    }
}

/// First index at or after `i` that does not hold `c` (or the length).
pub open spec fn skip_char(s: Seq<char>, c: char, i: int) -> int
    decreases s.len() - i,
{
    if i >= s.len() || s[i] != c {
        i
    } else {
        skip_char(s, c, i + 1)
    }
}

pub proof fn lemma_find_char_bounds(s: Seq<char>, c: char, i: int)
    requires
        0 <= i <= s.len(),
    ensures
        i <= find_char(s, c, i) <= s.len(),
        forall|k: int| i <= k < find_char(s, c, i) ==> #[trigger] s[k] != c,
        find_char(s, c, i) < s.len() ==> s[find_char(s, c, i)] == c,
    decreases s.len() - i,
{
    if i < s.len() && s[i] != c {
        lemma_find_char_bounds(s, c, i + 1);
    }
}

pub proof fn lemma_skip_char_bounds(s: Seq<char>, c: char, i: int)
    requires
        0 <= i <= s.len(),
    ensures
        i <= skip_char(s, c, i) <= s.len(),
        forall|k: int| i <= k < skip_char(s, c, i) ==> #[trigger] s[k] == c,
        skip_char(s, c, i) < s.len() ==> s[skip_char(s, c, i)] != c,
    decreases s.len() - i,
{
    if i < s.len() && s[i] == c {
        lemma_skip_char_bounds(s, c, i + 1);
    }
}

/// Computes `find_char` (`want == true`) or `skip_char` (`want == false`).
pub fn scan_char(s: &Vec<char>, c: char, i: usize, want: bool) -> (r: usize)
    requires
        i <= s@.len(),
    ensures
        want ==> r == find_char(s@, c, i as int),
        !want ==> r == skip_char(s@, c, i as int),
        i <= r <= s@.len(),
{
    let mut j = i;
    while j < s.len() && (s[j] == c) != want
        invariant
            i <= j <= s@.len(),
            want ==> find_char(s@, c, i as int) == find_char(s@, c, j as int),
            !want ==> skip_char(s@, c, i as int) == skip_char(s@, c, j as int),
        decreases s@.len() - j,
    {
        j = j + 1;
    }
    j
}

/// The characters `s[from..to]`.
pub fn copy_range(s: &Vec<char>, from: usize, to: usize) -> (v: Vec<char>)
    requires
        from <= to <= s@.len(),
    ensures
        v@ == s@.subrange(from as int, to as int),
{
    let mut v: Vec<char> = Vec::new();
    let mut i = from;
    while i < to
        invariant
            from <= i <= to <= s@.len(),
            v@ == s@.subrange(from as int, i as int),
        decreases to - i,
    {
        v.push(s[i]);
        i = i + 1;
        assert(v@ =~= s@.subrange(from as int, i as int));
    }
    v
}

/// Whether `s` holds two consecutive dots.
pub open spec fn has_dot_dot(s: Seq<char>) -> bool {
    exists|i: int| 0 <= i && i + 1 < s.len() && s[i] == '.' && #[trigger] s[i + 1] == '.'
}

/// Decides `has_dot_dot` on `s[from..to]`.
pub fn range_has_dot_dot(s: &Vec<char>, from: usize, to: usize) -> (r: bool)
    requires
        from <= to <= s@.len(),
    ensures
        r == has_dot_dot(s@.subrange(from as int, to as int)),
{
    let ghost t = s@.subrange(from as int, to as int);
    let mut i = from;
    while i < to && i + 1 < to
        invariant
            from <= i <= to,
            to <= s@.len(),
            t == s@.subrange(from as int, to as int),
            forall|k: int|
                0 <= k && k < i - from && k + 1 < t.len() ==> !(t[k] == '.' && #[trigger] t[k
                    + 1] == '.'),
        decreases to - i,
    {
        if s[i] == '.' && s[i + 1] == '.' {
            assert(t[i - from] == '.' && t[i - from + 1] == '.');
            return true;
        }
        i = i + 1;
    }
    false
}

} // verus!

verus! {

/// Whether every character of `s` is an ASCII digit.
pub open spec fn all_digits(s: Seq<char>) -> bool {
    forall|i: int| 0 <= i < s.len() ==> '0' <= #[trigger] s[i] <= '9'
}

/// The number that the digits `s` denote in base 10, most significant first.
pub open spec fn numeral_value(s: Seq<char>) -> int
    decreases s.len(),
{
    if s.len() == 0 {
        0
    } else {
        numeral_value(s.drop_last()) * 10 + (s.last() as int - '0' as int)
    }
}

/// `s` is the usual base-10 numeral of `n`: digits only, at least one, no
/// leading zero unless it is `0` itself, and denoting `n`.
pub open spec fn is_numeral_of(s: Seq<char>, n: nat) -> bool {
    &&& s.len() > 0
    &&& all_digits(s)
    &&& (s[0] == '0' ==> s.len() == 1)
    &&& numeral_value(s) == n
}

/// The decimal rendering of `n` is its base-10 numeral: read back it gives
/// `n`, it has only digits and no leading zero.
pub proof fn decimal_is_numeral(n: nat)
    ensures
        is_numeral_of(decimal(n), n),
    decreases n,
{
    let s = decimal(n);
    if n < 10 {
        assert(s.drop_last() =~= Seq::<char>::empty());
        assert(digit_char(n) as int == 48 + n);
        assert(s.last() == digit_char(n));
        assert(numeral_value(s) == numeral_value(s.drop_last()) * 10 + (s.last() as int - '0' as int));
        assert(numeral_value(s.drop_last()) == 0);
        assert('0' <= s[0] <= '9');
        assert(all_digits(s));
    } else {
        decimal_is_numeral(n / 10);
        let p = decimal(n / 10);
        assert(s.drop_last() =~= p);
        assert(digit_char(n % 10) as int == 48 + n % 10);
        assert(s[0] == p[0]);
        assert(n / 10 > 0);
        assert(s.last() == digit_char(n % 10));
        assert(numeral_value(s) == numeral_value(p) * 10 + (s.last() as int - '0' as int));
        assert(numeral_value(p) == n / 10);
        assert(n == (n / 10) * 10 + n % 10);
        assert(s[0] != '0') by {
            if p[0] == '0' {
                assert(p.len() == 1);
                assert(p.drop_last() =~= Seq::<char>::empty());
                assert(p.last() == p[0]);
                assert(numeral_value(p) == numeral_value(p.drop_last()) * 10 + (p.last() as int - '0' as int));
            }
        }
        assert forall|i: int| 0 <= i < s.len() implies '0' <= #[trigger] s[i] <= '9' by {
            if i < p.len() {
                assert(s[i] == p[i]);
            }
        }
    }
}

/// A base-10 numeral of `n` is unique: any string that reads back as `n`,
/// with digits only and no leading zero, is `decimal(n)`.
pub proof fn numeral_unique(s: Seq<char>, n: nat)
    requires
        is_numeral_of(s, n),
    ensures
        s == decimal(n),
    decreases s.len(),
{
    let last = s.last() as int - '0' as int;
    assert(0 <= last <= 9) by {
        assert('0' <= s[s.len() - 1] <= '9');
    }
    let p = s.drop_last();
    let v = numeral_value(p);
    if s.len() == 1 {
        assert(p.len() == 0);
        assert(v == 0);
        assert(n == last);
        assert(n < 10);
        assert(digit_char(n) == s[0]) by {
            assert(s[0] as int == 48 + n);
        }
        assert(s =~= seq![digit_char(n)]);
    } else {
        assert(p[0] == s[0]);
        lemma_numeral_value_nonneg(p);
        assert(p[0] != '0');
        lemma_leading_digit_positive(p);
        assert(v >= 1);
        assert(n == v * 10 + last);
        assert(n >= 10);
        assert(n / 10 == v && n % 10 == last);
        assert(all_digits(p)) by {
            assert forall|i: int| 0 <= i < p.len() implies '0' <= #[trigger] p[i] <= '9' by {
                assert(p[i] == s[i]);
            }
        }
        numeral_unique(p, v as nat);
        assert(digit_char(n % 10) == s.last()) by {
            assert(s.last() as int == 48 + n % 10);
        }
        assert(s =~= decimal(n / 10) + seq![digit_char(n % 10)]);
    }
}

proof fn lemma_numeral_value_nonneg(s: Seq<char>)
    requires
        all_digits(s),
    ensures
        numeral_value(s) >= 0,
    decreases s.len(),
{
    if s.len() > 0 {
        let p = s.drop_last();
        assert(all_digits(p)) by {
            assert forall|i: int| 0 <= i < p.len() implies '0' <= #[trigger] p[i] <= '9' by {
                assert(p[i] == s[i]);
            }
        }
        lemma_numeral_value_nonneg(p);
        assert('0' <= s[s.len() - 1] <= '9');
    }
}

proof fn lemma_leading_digit_positive(s: Seq<char>)
    requires
        all_digits(s),
        s.len() > 0,
        s[0] != '0',
    ensures
        numeral_value(s) >= 1,
    decreases s.len(),
{
    let p = s.drop_last();
    assert(all_digits(p)) by {
        assert forall|i: int| 0 <= i < p.len() implies '0' <= #[trigger] p[i] <= '9' by {
            assert(p[i] == s[i]);
        }
    }
    assert('0' <= s[s.len() - 1] <= '9');
    assert(numeral_value(s) == numeral_value(p) * 10 + (s.last() as int - '0' as int));
    if s.len() == 1 {
        assert(p.len() == 0);
        assert(numeral_value(p) == 0);
        assert(s.last() == s[0]);
        assert(s[0] != '0' && '0' <= s[0]);
        assert(s[0] as int >= 49);
    } else {
        assert(p[0] == s[0]);
        lemma_leading_digit_positive(p);
        assert(s.last() as int >= 48);
    }
}

/// Appending a zero multiplies by ten: for `n > 0`, `decimal(10 n)` is `decimal(n)` then `0`.
pub proof fn decimal_times_ten(n: nat)
    requires
        n > 0,
    ensures
        decimal(n * 10) == decimal(n) + seq!['0'],
{
    decimal_is_numeral(n);
    let s = decimal(n) + seq!['0'];
    let d = decimal(n);
    assert(s.drop_last() =~= d);
    assert(s[0] == d[0]);
    assert(d[0] != '0') by {
        if d[0] == '0' {
            assert(d.len() == 1);
            assert(d =~= seq![d[0]]);
            assert(numeral_value(d.drop_last()) == 0) by {
                assert(d.drop_last() =~= Seq::<char>::empty());
            }
        }
    }
    assert forall|i: int| 0 <= i < s.len() implies '0' <= #[trigger] s[i] <= '9' by {
        if i < d.len() {
            assert(s[i] == d[i]);
        }
    }
    numeral_unique(s, n * 10);
}

} // verus!

verus! {

pub proof fn lemma_skip_word_run(s: Seq<char>, i: int, j: int)
    requires
        0 <= i <= j <= s.len(),
        forall|k: int| i <= k < j ==> !is_whitespace(#[trigger] s[k]),
        j == s.len() || is_whitespace(s[j]),
    ensures
        skip_word(s, i) == j,
    decreases j - i,
{
    if i < j {
        lemma_skip_word_run(s, i + 1, j);
    }
}

pub proof fn lemma_skip_space_run(s: Seq<char>, i: int, j: int)
    requires
        0 <= i <= j <= s.len(),
        forall|k: int| i <= k < j ==> is_whitespace(#[trigger] s[k]),
        j == s.len() || !is_whitespace(s[j]),
    ensures
        skip_space(s, i) == j,
    decreases j - i,
{
    if i < j {
        lemma_skip_space_run(s, i + 1, j);
    }
}

pub proof fn lemma_find_char_run(s: Seq<char>, c: char, i: int, j: int)
    requires
        0 <= i <= j <= s.len(),
        forall|k: int| i <= k < j ==> #[trigger] s[k] != c,
        j == s.len() || s[j] == c,
    ensures
        find_char(s, c, i) == j,
    decreases j - i,
{
    if i < j {
        lemma_find_char_run(s, c, i + 1, j);
    }
}

pub proof fn lemma_skip_char_run(s: Seq<char>, c: char, i: int, j: int)
    requires
        0 <= i <= j <= s.len(),
        forall|k: int| i <= k < j ==> #[trigger] s[k] == c,
        j == s.len() || s[j] != c,
    ensures
        skip_char(s, c, i) == j,
    decreases j - i,
{
    if i < j {
        lemma_skip_char_run(s, c, i + 1, j);
    }
}

} // verus!
