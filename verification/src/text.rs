//! Character-level text model shared by every parser of the crate.
//!
//! Text is handled as a sequence of `char`s. The spec functions here say
//! what the standard string operations the parsers rely on compute
//! (`lines`, `split_whitespace`, `trim`, integer parsing, ...), and the
//! executable functions are proved to compute exactly that.
use vstd::prelude::*;

verus! {

// ---------------------------------------------------------------------
// Character classes
// ---------------------------------------------------------------------

/// Unicode `White_Space` property (what `char::is_whitespace` tests).
pub open spec fn is_ws(c: char) -> bool {
    ||| c == '\t'
    ||| c == '\n'
    ||| c == '\u{0B}'
    ||| c == '\u{0C}'
    ||| c == '\r'
    ||| c == ' '
    ||| c == '\u{85}'
    ||| c == '\u{A0}'
    ||| c == '\u{1680}'
    ||| ('\u{2000}' <= c && c <= '\u{200A}')
    ||| c == '\u{2028}'
    ||| c == '\u{2029}'
    ||| c == '\u{202F}'
    ||| c == '\u{205F}'
    ||| c == '\u{3000}'
}

/// Unicode general category `Cc` (what `char::is_control` tests).
pub open spec fn is_ctrl(c: char) -> bool {
    c <= '\u{1F}' || ('\u{7F}' <= c && c <= '\u{9F}')
}

/// ASCII decimal digit.
pub open spec fn is_digit(c: char) -> bool {
    '0' <= c && c <= '9'
}

pub fn char_is_whitespace(c: char) -> (r: bool)
    ensures
        r == is_ws(c),
{
    c == '\t' || c == '\n' || c == '\u{0B}' || c == '\u{0C}' || c == '\r' || c == ' ' || c
        == '\u{85}' || c == '\u{A0}' || c == '\u{1680}' || ('\u{2000}' <= c && c <= '\u{200A}')
        || c == '\u{2028}' || c == '\u{2029}' || c == '\u{202F}' || c == '\u{205F}' || c
        == '\u{3000}'
}

pub fn char_is_control(c: char) -> (r: bool)
    ensures
        r == is_ctrl(c),
{
    c <= '\u{1F}' || ('\u{7F}' <= c && c <= '\u{9F}')
}

pub fn char_is_digit(c: char) -> (r: bool)
    ensures
        r == is_digit(c),
{
    '0' <= c && c <= '9'
}

// ---------------------------------------------------------------------
// Conversions between `str`/`String` and character vectors
// ---------------------------------------------------------------------

/// The characters of `s`, in order.
pub fn chars_of(s: &str) -> (v: Vec<char>)
    ensures
        v@ == s@,
{
    let mut v: Vec<char> = Vec::new();
    for c in it: s.chars()
        invariant
            it.seq() == s@,
            v@ == it.seq().take(it.index() as int),
    {
        v.push(c);
    }
    v
}

/// A `String` holding exactly the given characters (`Iterator::collect`).
#[verifier::external_body]
pub fn string_from_chars(v: &[char]) -> (s: String)
    ensures
        s@ == v@,
{
    v.iter().collect()
}

/// A `String` copy of a string slice (`str::to_string`).
pub fn string_of(s: &str) -> (r: String)
    ensures
        r@ == s@,
{
    s.to_owned()
}

// ---------------------------------------------------------------------
// Searching
// ---------------------------------------------------------------------

/// Index of the first `c` in `s`, or `s.len()` when there is none.
pub open spec fn find_char(s: Seq<char>, c: char) -> int
    decreases s.len(),
{
    if s.len() == 0 {
        0
    } else if s[0] == c {
        0
    } else {
        1 + find_char(s.drop_first(), c)
    }
}

/// Index of the first whitespace character of `s`, or `s.len()`.
pub open spec fn find_ws(s: Seq<char>) -> int
    decreases s.len(),
{
    if s.len() == 0 {
        0
    } else if is_ws(s[0]) {
        0
    } else {
        1 + find_ws(s.drop_first())
    }
}

pub proof fn lemma_find_char(s: Seq<char>, c: char, k: int)
    requires
        0 <= k <= s.len(),
        forall|j: int| 0 <= j < k ==> s[j] != c,
        k < s.len() ==> s[k] == c,
    ensures
        find_char(s, c) == k,
    decreases s.len(),
{
    if s.len() > 0 && k > 0 {
        lemma_find_char(s.drop_first(), c, k - 1);
    }
}

pub proof fn lemma_find_ws(s: Seq<char>, k: int)
    requires
        0 <= k <= s.len(),
        forall|j: int| 0 <= j < k ==> !is_ws(s[j]),
        k < s.len() ==> is_ws(s[k]),
    ensures
        find_ws(s) == k,
    decreases s.len(),
{
    if s.len() > 0 && k > 0 {
        lemma_find_ws(s.drop_first(), k - 1);
    }
}

// ---------------------------------------------------------------------
// Lines (`str::lines`)
// ---------------------------------------------------------------------

/// A line without its line terminator: a final `'\r'` is dropped.
pub open spec fn strip_cr(l: Seq<char>) -> Seq<char> {
    if l.len() > 0 && l.last() == '\r' {
        l.drop_last()
    } else {
        l
    }
}

/// The lines of `s` as `str::lines` yields them: split at `'\n'`, a
/// `'\r'` just before a `'\n'` dropped, and no empty line after a final
/// `'\n'`.
pub open spec fn lines(s: Seq<char>) -> Seq<Seq<char>>
    decreases s.len(),
{
    if s.len() == 0 {
        Seq::empty()
    } else {
        let k = find_char(s, '\n');
        if k >= s.len() || k < 0 {
            seq![s]
        } else {
            seq![strip_cr(s.take(k))] + lines(s.skip(k + 1))
        }
    }
}

pub proof fn lemma_find_char_bounds(s: Seq<char>, c: char)
    ensures
        0 <= find_char(s, c) <= s.len(),
        find_char(s, c) < s.len() ==> s[find_char(s, c)] == c,
        forall|j: int| 0 <= j < find_char(s, c) ==> s[j] != c,
    decreases s.len(),
{
    if s.len() > 0 && s[0] != c {
        lemma_find_char_bounds(s.drop_first(), c);
        assert forall|j: int| 0 <= j < find_char(s, c) implies s[j] != c by {
            if j > 0 {
                assert(s[j] == s.drop_first()[j - 1]);
            }
        }
    }
}

fn strip_cr_exec(v: &[char], from: usize, to: usize) -> (r: Vec<char>)
    requires
        from <= to <= v@.len(),
    ensures
        r@ == strip_cr(v@.subrange(from as int, to as int)),
{
    let mut end = to;
    if to > from && v[to - 1] == '\r' {
        end = to - 1;
    }
    let r = slice_chars(v, from, end);
    assert(r@ =~= strip_cr(v@.subrange(from as int, to as int)));
    r
}

/// The characters `v[from..to]`.
pub fn slice_chars(v: &[char], from: usize, to: usize) -> (r: Vec<char>)
    requires
        from <= to <= v@.len(),
    ensures
        r@ == v@.subrange(from as int, to as int),
{
    let mut r: Vec<char> = Vec::new();
    let mut i = from;
    while i < to
        invariant
            from <= i <= to <= v@.len(),
            r@ == v@.subrange(from as int, i as int),
        decreases to - i,
    {
        r.push(v[i]);
        i = i + 1;
        assert(r@ =~= v@.subrange(from as int, i as int));
    }
    r
}

/// The lines of `v`, as `str::lines` splits them.
pub fn split_lines(v: &[char]) -> (r: Vec<Vec<char>>)
    ensures
        r@.len() == lines(v@).len(),
        forall|i: int| 0 <= i < r@.len() ==> #[trigger] r@[i]@ == lines(v@)[i],
{
    let ghost s = v@;
    let mut r: Vec<Vec<char>> = Vec::new();
    let ghost mut acc: Seq<Seq<char>> = Seq::empty();
    let mut start: usize = 0;
    let mut i: usize = 0;
    assert(s.skip(0) =~= s);
    assert(acc + lines(s) =~= lines(s));
    while i < v.len()
        invariant
            s == v@,
            start <= i <= v@.len(),
            r@.len() == acc.len(),
            forall|j: int| 0 <= j < r@.len() ==> #[trigger] r@[j]@ == acc[j],
            forall|j: int| start <= j < i ==> s[j] != '\n',
            lines(s) == acc + lines(s.skip(start as int)),
        decreases v@.len() - i,
    {
        if v[i] == '\n' {
            let line = strip_cr_exec(v, start, i);
            proof {
                let t = s.skip(start as int);
                assert forall|j: int| 0 <= j < i - start implies t[j] != '\n' by {
                    assert(t[j] == s[start + j]);
                }
                assert(t[i - start] == s[i as int]);
                lemma_find_char(t, '\n', i - start);
                assert(t.take(i - start) =~= s.subrange(start as int, i as int));
                assert(t.skip(i - start + 1) =~= s.skip(i + 1));
                assert(lines(t) == seq![strip_cr(t.take(i - start))] + lines(t.skip(i - start
                    + 1)));
                acc = acc.push(line@);
                assert(lines(s) =~= acc + lines(s.skip(i + 1)));
            }
            r.push(line);
            start = i + 1;
        }
        i = i + 1;
    }
    if start < v.len() {
        let last = slice_chars(v, start, v.len());
        proof {
            let t = s.skip(start as int);
            assert forall|j: int| 0 <= j < t.len() implies t[j] != '\n' by {
                assert(t[j] == s[start + j]);
            }
            lemma_find_char(t, '\n', t.len() as int);
            assert(last@ =~= t);
            acc = acc.push(last@);
            assert(lines(s) =~= acc);
        }
        r.push(last);
    } else {
        proof {
            assert(s.skip(start as int).len() == 0);
            assert(lines(s) =~= acc);
        }
    }
    r
}


// ---------------------------------------------------------------------
// Words (`str::split_whitespace`)
// ---------------------------------------------------------------------

/// The maximal runs of non-whitespace characters of `s`, in order.
pub open spec fn words(s: Seq<char>) -> Seq<Seq<char>>
    decreases s.len(),
{
    if s.len() == 0 {
        Seq::empty()
    } else if is_ws(s[0]) {
        words(s.drop_first())
    } else {
        let k = find_ws(s);
        if k <= 0 || k > s.len() {
            seq![s]
        } else {
            seq![s.take(k)] + words(s.skip(k))
        }
    }
}

/// The whitespace-separated words of `v`, as `str::split_whitespace`
/// yields them.
pub fn split_words(v: &[char]) -> (r: Vec<Vec<char>>)
    ensures
        r@.len() == words(v@).len(),
        forall|i: int| 0 <= i < r@.len() ==> #[trigger] r@[i]@ == words(v@)[i],
{
    let ghost s = v@;
    let mut r: Vec<Vec<char>> = Vec::new();
    let ghost mut acc: Seq<Seq<char>> = Seq::empty();
    let mut start: usize = 0;
    let mut in_word = false;
    let mut i: usize = 0;
    assert(s.skip(0) =~= s);
    assert(acc + words(s) =~= words(s));
    while i < v.len()
        invariant
            s == v@,
            start <= i <= v@.len(),
            !in_word ==> start == i,
            in_word ==> start < i,
            r@.len() == acc.len(),
            forall|j: int| 0 <= j < r@.len() ==> #[trigger] r@[j]@ == acc[j],
            forall|j: int| start <= j < i ==> !is_ws(s[j]),
            words(s) == acc + words(s.skip(start as int)),
        decreases v@.len() - i,
    {
        let c = v[i];
        if char_is_whitespace(c) {
            if in_word {
                let w = slice_chars(v, start, i);
                proof {
                    let t = s.skip(start as int);
                    assert forall|j: int| 0 <= j < i - start implies !is_ws(t[j]) by {
                        assert(t[j] == s[start + j]);
                    }
                    assert(t[i - start] == s[i as int]);
                    lemma_find_ws(t, i - start);
                    assert(t.take(i - start) =~= w@);
                    assert(t.skip(i - start) =~= s.skip(i as int));
                    assert(!is_ws(t[0]));
                    acc = acc.push(w@);
                    assert(words(s) =~= acc + words(s.skip(i as int)));
                }
                r.push(w);
            }
            proof {
                let t = s.skip(i as int);
                assert(is_ws(t[0]));
                assert(t.drop_first() =~= s.skip(i + 1));
            }
            start = i + 1;
            in_word = false;
        } else {
            if !in_word {
                start = i;
                in_word = true;
            }
        }
        i = i + 1;
    }
    if in_word {
        let w = slice_chars(v, start, v.len());
        proof {
            let t = s.skip(start as int);
            assert forall|j: int| 0 <= j < t.len() implies !is_ws(t[j]) by {
                assert(t[j] == s[start + j]);
            }
            lemma_find_ws(t, t.len() as int);
            assert(t.take(t.len() as int) =~= t);
            assert(t.skip(t.len() as int) =~= Seq::<char>::empty());
            assert(words(t.skip(t.len() as int)) == Seq::<Seq<char>>::empty());
            assert(w@ =~= t);
            acc = acc.push(w@);
            assert(words(s) =~= acc);
        }
        r.push(w);
    } else {
        proof {
            assert(s.skip(start as int) =~= Seq::<char>::empty());
            assert(words(s) =~= acc);
        }
    }
    r
}

// ---------------------------------------------------------------------
// Prefixes, suffixes, substrings
// ---------------------------------------------------------------------

pub open spec fn starts_with(s: Seq<char>, p: Seq<char>) -> bool {
    p.len() <= s.len() && s.take(p.len() as int) == p
}

pub open spec fn ends_with(s: Seq<char>, p: Seq<char>) -> bool {
    p.len() <= s.len() && s.skip(s.len() - p.len()) == p
}

/// `p` occurs in `s` starting at index `i`.
pub open spec fn occurs_at(s: Seq<char>, p: Seq<char>, i: int) -> bool {
    0 <= i && i + p.len() <= s.len() && s.subrange(i, i + p.len()) == p
}

pub open spec fn contains(s: Seq<char>, p: Seq<char>) -> bool {
    exists|i: int| occurs_at(s, p, i)
}

pub open spec fn contains_char(s: Seq<char>, c: char) -> bool {
    exists|i: int| 0 <= i < s.len() && s[i] == c
}

/// Whether `p` occurs in `s` at index `i`.
pub fn occurs_at_exec(s: &[char], p: &[char], i: usize) -> (r: bool)
    ensures
        r == occurs_at(s@, p@, i as int),
{
    if i > s.len() || p.len() > s.len() - i {
        return false;
    }
    let mut j: usize = 0;
    while j < p.len()
        invariant
            i + p@.len() <= s@.len(),
            j <= p@.len(),
            forall|k: int| 0 <= k < j ==> s@[i + k] == p@[k],
        decreases p@.len() - j,
    {
        assert(i + j < s.len());
        if s[i + j] != p[j] {
            assert(s@.subrange(i as int, i + p@.len())[j as int] != p@[j as int]);
            return false;
        }
        j = j + 1;
    }
    assert(s@.subrange(i as int, i + p@.len()) =~= p@);
    true
}

pub fn starts_with_exec(s: &[char], p: &[char]) -> (r: bool)
    ensures
        r == starts_with(s@, p@),
{
    let r = occurs_at_exec(s, p, 0);
    assert(p@.len() <= s@.len() ==> s@.subrange(0, p@.len() as int) == s@.take(p@.len() as int));
    r
}

pub fn ends_with_exec(s: &[char], p: &[char]) -> (r: bool)
    ensures
        r == ends_with(s@, p@),
{
    if p.len() > s.len() {
        return false;
    }
    let r = occurs_at_exec(s, p, s.len() - p.len());
    assert(s@.subrange(s@.len() - p@.len(), s@.len() as int) == s@.skip(s@.len() - p@.len()));
    r
}

/// Whether `p` occurs anywhere in `s` (`str::contains` with a string).
pub fn contains_exec(s: &[char], p: &[char]) -> (r: bool)
    ensures
        r == contains(s@, p@),
{
    if p.len() > s.len() {
        assert forall|i: int| !occurs_at(s@, p@, i) by {}
        return false;
    }
    let n = s.len() - p.len();
    let mut i: usize = 0;
    loop
        invariant
            p@.len() <= s@.len(),
            n == s@.len() - p@.len(),
            i <= n,
            forall|k: int| 0 <= k < i ==> !occurs_at(s@, p@, k),
        ensures
            forall|k: int| !occurs_at(s@, p@, k),
        decreases n - i,
    {
        if occurs_at_exec(s, p, i) {
            return true;
        }
        if i == n {
            assert forall|k: int| !occurs_at(s@, p@, k) by {
                if 0 <= k < i {
                }
            }
            break;
        }
        i = i + 1;
    }
    false
}

/// Whether `c` occurs in `s` (`str::contains` with a character).
pub fn contains_char_exec(s: &[char], c: char) -> (r: bool)
    ensures
        r == contains_char(s@, c),
{
    let mut i: usize = 0;
    while i < s.len()
        invariant
            i <= s@.len(),
            forall|k: int| 0 <= k < i ==> s@[k] != c,
        decreases s@.len() - i,
    {
        if s[i] == c {
            return true;
        }
        i = i + 1;
    }
    false
}

// ---------------------------------------------------------------------
// Trimming
// ---------------------------------------------------------------------

/// A set of characters removed by the trimming operations.
#[derive(Clone, Copy)]
pub enum TrimSet {
    /// Unicode whitespace (`str::trim`, `str::trim_end`, ...).
    Whitespace,
    /// One given character (`str::trim_matches(c)`, ...).
    Char(char),
}

impl TrimSet {
    pub open spec fn holds(self, c: char) -> bool {
        match self {
            TrimSet::Whitespace => is_ws(c),
            TrimSet::Char(x) => c == x,
        }
    }

    pub fn test(&self, c: char) -> (r: bool)
        ensures
            r == self.holds(c),
    {
        match self {
            TrimSet::Whitespace => char_is_whitespace(c),
            TrimSet::Char(x) => c == *x,
        }
    }
}

pub open spec fn trim_start(s: Seq<char>, t: TrimSet) -> Seq<char>
    decreases s.len(),
{
    if s.len() > 0 && t.holds(s[0]) {
        trim_start(s.drop_first(), t)
    } else {
        s
    }
}

pub open spec fn trim_end(s: Seq<char>, t: TrimSet) -> Seq<char>
    decreases s.len(),
{
    if s.len() > 0 && t.holds(s.last()) {
        trim_end(s.drop_last(), t)
    } else {
        s
    }
}

/// Both ends trimmed (`str::trim`, `str::trim_matches`).
pub open spec fn trim(s: Seq<char>, t: TrimSet) -> Seq<char> {
    trim_end(trim_start(s, t), t)
}

pub proof fn lemma_trim_start(s: Seq<char>, t: TrimSet, a: int)
    requires
        0 <= a <= s.len(),
        forall|j: int| 0 <= j < a ==> t.holds(s[j]),
        a < s.len() ==> !t.holds(s[a]),
    ensures
        trim_start(s, t) == s.skip(a),
    decreases s.len(),
{
    if a == 0 {
        assert(s.skip(0) =~= s);
    } else {
        lemma_trim_start(s.drop_first(), t, a - 1);
        assert(s.drop_first().skip(a - 1) =~= s.skip(a));
    }
}

pub proof fn lemma_trim_end(s: Seq<char>, t: TrimSet, b: int)
    requires
        0 <= b <= s.len(),
        forall|j: int| b <= j < s.len() ==> t.holds(s[j]),
        b > 0 ==> !t.holds(s[b - 1]),
    ensures
        trim_end(s, t) == s.take(b),
    decreases s.len(),
{
    if b == s.len() {
        assert(s.take(b) =~= s);
    } else {
        lemma_trim_end(s.drop_last(), t, b);
        assert(s.drop_last().take(b) =~= s.take(b));
    }
}

/// `v` with the characters of `t` removed from its start.
pub fn trim_start_exec(v: &[char], t: TrimSet) -> (r: Vec<char>)
    ensures
        r@ == trim_start(v@, t),
{
    let mut a: usize = 0;
    while a < v.len() && t.test(v[a])
        invariant
            a <= v@.len(),
            forall|j: int| 0 <= j < a ==> t.holds(v@[j]),
        decreases v@.len() - a,
    {
        a = a + 1;
    }
    proof {
        lemma_trim_start(v@, t, a as int);
    }
    let r = slice_chars(v, a, v.len());
    assert(r@ =~= v@.skip(a as int));
    r
}

/// `v` with the characters of `t` removed from its end.
pub fn trim_end_exec(v: &[char], t: TrimSet) -> (r: Vec<char>)
    ensures
        r@ == trim_end(v@, t),
{
    let mut b: usize = v.len();
    while b > 0 && t.test(v[b - 1])
        invariant
            b <= v@.len(),
            forall|j: int| b <= j < v@.len() ==> t.holds(v@[j]),
        decreases b,
    {
        b = b - 1;
    }
    proof {
        lemma_trim_end(v@, t, b as int);
    }
    let r = slice_chars(v, 0, b);
    assert(r@ =~= v@.take(b as int));
    r
}

/// `v` with the characters of `t` removed from both ends.
pub fn trim_exec(v: &[char], t: TrimSet) -> (r: Vec<char>)
    ensures
        r@ == trim(v@, t),
{
    let a = trim_start_exec(v, t);
    trim_end_exec(a.as_slice(), t)
}


// ---------------------------------------------------------------------
// Unsigned integers (`uN::from_str`, `uN::from_str_radix`)
// ---------------------------------------------------------------------

/// The value of digit `c` in base `radix`, or -1 when `c` is not one
/// (`char::to_digit`).
pub open spec fn digit_val(c: char, radix: nat) -> int {
    let v = if '0' <= c && c <= '9' {
        c as int - '0' as int
    } else if 'a' <= c && c <= 'z' {
        c as int - 'a' as int + 10
    } else if 'A' <= c && c <= 'Z' {
        c as int - 'A' as int + 10
    } else {
        radix as int
    };
    if v < radix {
        v
    } else {
        -1
    }
}

pub open spec fn all_digits(d: Seq<char>, radix: nat) -> bool {
    forall|i: int| 0 <= i < d.len() ==> digit_val(#[trigger] d[i], radix) >= 0
}

/// The number written by the digits `d` in base `radix`.
pub open spec fn digits_value(d: Seq<char>, radix: nat) -> int
    decreases d.len(),
{
    if d.len() == 0 {
        0
    } else {
        digits_value(d.drop_last(), radix) * radix + digit_val(d.last(), radix)
    }
}

/// What `from_str_radix` for an unsigned type whose largest value is
/// `max` returns on `s`: an optional `'+'`, then at least one digit, and
/// a value that fits.
pub open spec fn parse_uint(s: Seq<char>, radix: nat, max: int) -> Option<nat> {
    let d = if s.len() > 1 && s[0] == '+' {
        s.drop_first()
    } else {
        s
    };
    if d.len() > 0 && all_digits(d, radix) && digits_value(d, radix) <= max {
        Some(digits_value(d, radix) as nat)
    } else {
        None
    }
}

/// `str::parse::<u64>()`.
pub open spec fn parse_u64(s: Seq<char>) -> Option<u64> {
    match parse_uint(s, 10, u64::MAX as int) {
        Some(n) => Some(n as u64),
        None => None,
    }
}

/// `str::parse::<u32>()`.
pub open spec fn parse_u32(s: Seq<char>) -> Option<u32> {
    match parse_uint(s, 10, u32::MAX as int) {
        Some(n) => Some(n as u32),
        None => None,
    }
}

/// `str::parse::<u64>().unwrap_or(d)`.
pub open spec fn parse_u64_or(s: Seq<char>, d: u64) -> u64 {
    match parse_u64(s) {
        Some(n) => n,
        None => d,
    }
}

pub proof fn lemma_digits_value_nonneg(d: Seq<char>, radix: nat)
    requires
        all_digits(d, radix),
    ensures
        digits_value(d, radix) >= 0,
    decreases d.len(),
{
    if d.len() > 0 {
        lemma_digits_value_nonneg(d.drop_last(), radix);
        let x = digits_value(d.drop_last(), radix);
        assert(d.last() == d[d.len() - 1]);
        assert(x * radix >= 0) by (nonlinear_arith)
            requires
                x >= 0,
        ;
    }
}

/// A parsed value is within the bound it was parsed against.
pub proof fn lemma_parse_uint_bound(s: Seq<char>, radix: nat, max: int)
    ensures
        parse_uint(s, radix, max) matches Some(v) ==> v <= max,
{
    let d = if s.len() > 1 && s[0] == '+' {
        s.drop_first()
    } else {
        s
    };
    if d.len() > 0 && all_digits(d, radix) {
        lemma_digits_value_nonneg(d, radix);
    }
}

/// A prefix of a digit string is worth at most the whole string.
pub proof fn lemma_digits_value_prefix(d: Seq<char>, radix: nat, i: int)
    requires
        all_digits(d, radix),
        radix >= 1,
        0 <= i <= d.len(),
    ensures
        digits_value(d.take(i), radix) <= digits_value(d, radix),
    decreases d.len(),
{
    if i == d.len() {
        assert(d.take(i) =~= d);
    } else {
        let p = d.drop_last();
        assert(all_digits(p, radix)) by {
            assert forall|j: int| 0 <= j < p.len() implies digit_val(#[trigger] p[j], radix)
                >= 0 by {
                assert(p[j] == d[j]);
            }
        }
        lemma_digits_value_prefix(p, radix, i);
        assert(p.take(i) =~= d.take(i));
        lemma_digits_value_nonneg(p, radix);
        let x = digits_value(p, radix);
        assert(d.last() == d[d.len() - 1]);
        assert(x * radix >= x) by (nonlinear_arith)
            requires
                x >= 0,
                radix >= 1,
        ;
    }
}

/// The value of character `c` as a digit in base `radix`, if it is one.
pub fn digit_value_exec(c: char, radix: u32) -> (r: Option<u32>)
    requires
        2 <= radix <= 36,
    ensures
        match r {
            Some(v) => v as int == digit_val(c, radix as nat) && v < radix,
            None => digit_val(c, radix as nat) < 0,
        },
{
    let u = c as u32;
    let v: u32 = if '0' <= c && c <= '9' {
        u - 48
    } else if 'a' <= c && c <= 'z' {
        u - 97 + 10
    } else if 'A' <= c && c <= 'Z' {
        u - 65 + 10
    } else {
        radix
    };
    if v < radix {
        Some(v)
    } else {
        None
    }
}

/// Parses `v` as `from_str_radix` does for an unsigned type whose
/// largest value is `max`.
pub fn parse_uint_exec(v: &[char], radix: u32, max: u64) -> (r: Option<u64>)
    requires
        2 <= radix <= 36,
    ensures
        match r {
            Some(n) => parse_uint(v@, radix as nat, max as int) == Some(n as nat),
            None => parse_uint(v@, radix as nat, max as int) is None,
        },
{
    let ghost rad = radix as nat;
    let start: usize = if v.len() > 1 && v[0] == '+' {
        1
    } else {
        0
    };
    let ghost d = if v@.len() > 1 && v@[0] == '+' {
        v@.drop_first()
    } else {
        v@
    };
    assert(d =~= v@.skip(start as int));
    if start == v.len() {
        return None;
    }
    let mut acc: u64 = 0;
    let mut i: usize = start;
    assert(d.take(0) =~= Seq::<char>::empty());
    while i < v.len()
        invariant
            start <= i <= v@.len(),
            d == v@.skip(start as int),
            d == (if v@.len() > 1 && v@[0] == '+' {
                v@.drop_first()
            } else {
                v@
            }),
            start < v@.len(),
            2 <= radix <= 36,
            rad == radix as nat,
            all_digits(d.take(i - start), rad),
            acc as int == digits_value(d.take(i - start), rad),
            acc <= max,
        decreases v@.len() - i,
    {
        let c = v[i];
        assert(c == d[i - start]);
        match digit_value_exec(c, radix) {
            None => {
                assert(!all_digits(d, rad)) by {
                    assert(digit_val(d[i - start], rad) < 0);
                }
                assert(parse_uint(v@, rad, max as int) is None);
                return None;
            },
            Some(dv) => {
                assert((acc as u128) * (radix as u128) <= 36 * 0xffff_ffff_ffff_ffffu128)
                    by (nonlinear_arith)
                    requires
                        acc <= 0xffff_ffff_ffff_ffffu64,
                        radix <= 36,
                ;
                let next: u128 = (acc as u128) * (radix as u128) + (dv as u128);
                proof {
                    let t = d.take(i - start + 1);
                    assert(t.drop_last() =~= d.take(i - start));
                    assert(t.last() == c);
                    assert(digits_value(t, rad) == acc * rad + dv);
                    assert(all_digits(t, rad)) by {
                        assert forall|j: int| 0 <= j < t.len() implies digit_val(
                            #[trigger] t[j],
                            rad,
                        ) >= 0 by {
                            if j < i - start {
                                assert(t[j] == d.take(i - start)[j]);
                            }
                        }
                    }
                }
                if next > max as u128 {
                    proof {
                        let t = d.take(i - start + 1);
                        if all_digits(d, rad) {
                            lemma_digits_value_prefix(d, rad, i - start + 1);
                        }
                    }
                    return None;
                }
                acc = next as u64;
            },
        }
        i = i + 1;
    }
    assert(d.take(i - start) =~= d);
    Some(acc)
}

/// `str::parse::<u64>()` on the characters `v`.
pub fn parse_u64_exec(v: &[char]) -> (r: Option<u64>)
    ensures
        r == parse_u64(v@),
{
    parse_uint_exec(v, 10, u64::MAX)
}

/// `str::parse::<u32>()` on the characters `v`.
pub fn parse_u32_exec(v: &[char]) -> (r: Option<u32>)
    ensures
        r == parse_u32(v@),
{
    match parse_uint_exec(v, 10, 0xffff_ffff) {
        Some(n) => Some(n as u32),
        None => None,
    }
}

/// `str::parse::<u64>().unwrap_or(d)` on the characters `v`.
pub fn parse_u64_or_exec(v: &[char], d: u64) -> (r: u64)
    ensures
        r == parse_u64_or(v@, d),
{
    match parse_u64_exec(v) {
        Some(n) => n,
        None => d,
    }
}

// ---------------------------------------------------------------------
// Decimal rendering (`u64::to_string`)
// ---------------------------------------------------------------------

pub open spec fn digit_char(d: int) -> char {
    (d + 48) as char
}

/// The decimal digits of `n`, without leading zeros (`"0"` for zero).
pub open spec fn decimal(n: nat) -> Seq<char>
    decreases n,
{
    if n < 10 {
        seq![digit_char(n as int)]
    } else {
        decimal(n / 10).push(digit_char((n % 10) as int))
    }
}

/// Appends the decimal digits of `n` to `out`.
pub fn push_decimal(out: &mut Vec<char>, n: u64)
    ensures
        final(out)@ == old(out)@ + decimal(n as nat),
    decreases n,
{
    if n >= 10 {
        push_decimal(out, n / 10);
    }
    let d = (n % 10) as u8;
    let c = (48u8 + d) as char;
    out.push(c);
    proof {
        assert(c == digit_char((n % 10) as int));
    }
}

/// Appends `s` to `out`.
pub fn push_all(out: &mut Vec<char>, s: &[char])
    ensures
        final(out)@ == old(out)@ + s@,
{
    let mut i: usize = 0;
    while i < s.len()
        invariant
            i <= s@.len(),
            out@ == old(out)@ + s@.take(i as int),
        decreases s@.len() - i,
    {
        out.push(s[i]);
        i = i + 1;
        assert(out@ =~= old(out)@ + s@.take(i as int));
    }
    assert(s@.take(i as int) =~= s@);
}


// ---------------------------------------------------------------------
// Unicode properties taken from the standard library
// ---------------------------------------------------------------------

/// What `char::is_alphanumeric` answers for `c` (Unicode `Alphabetic` or
/// `Numeric`).
pub uninterp spec fn unicode_alphanumeric(c: char) -> bool;

/// What `str::to_lowercase` returns for a string whose characters are `s`
/// (Unicode `Lowercase` mapping).
pub uninterp spec fn unicode_lowercase(s: Seq<char>) -> Seq<char>;

/// An ASCII letter or digit.
pub open spec fn ascii_alnum(c: char) -> bool {
    ('0' <= c && c <= '9') || ('a' <= c && c <= 'z') || ('A' <= c && c <= 'Z')
}

/// The ASCII case mapping of one character: `A`-`Z` to `a`-`z`.
pub open spec fn ascii_lower_char(c: char) -> char {
    if 'A' <= c && c <= 'Z' {
        ((c as u32) + 32) as char
    } else {
        c
    }
}

/// The ASCII case mapping of one character: `a`-`z` to `A`-`Z`.
pub open spec fn ascii_upper_char(c: char) -> char {
    if 'a' <= c && c <= 'z' {
        ((c as u32) - 32) as char
    } else {
        c
    }
}

/// Characters that are all ASCII.
pub open spec fn all_ascii(s: Seq<char>) -> bool {
    forall|i: int| 0 <= i < s.len() ==> (#[trigger] s[i] as u32) < 128
}

/// Calls `char::is_alphanumeric`; its answer is named
/// `unicode_alphanumeric`. Among ASCII characters (where the Unicode
/// `Alphabetic` and `Numeric` properties hold of the letters and digits
/// alone) the answer is stated.
#[verifier::external_body]
pub fn char_is_alphanumeric(c: char) -> (r: bool)
    ensures
        r == unicode_alphanumeric(c),
        (c as u32) < 128 ==> (r <==> ascii_alnum(c)),
{
    c.is_alphanumeric()
}

/// What `str::to_uppercase` returns for a string whose characters are `s`
/// (Unicode `Uppercase` mapping).
pub uninterp spec fn unicode_uppercase(s: Seq<char>) -> Seq<char>;

/// Calls `str::to_uppercase`; its result is named `unicode_uppercase`.
/// For an all-ASCII string (where the Unicode mapping changes `a`-`z`
/// alone) the result is stated.
#[verifier::external_body]
pub fn str_to_uppercase(s: &str) -> (r: String)
    ensures
        r@ == unicode_uppercase(s@),
        all_ascii(s@) ==> r@ == s@.map_values(|c: char| ascii_upper_char(c)),
{
    s.to_uppercase()
}

/// Calls `str::to_lowercase`; its result is named `unicode_lowercase`.
/// For an all-ASCII string (where the Unicode mapping changes `A`-`Z`
/// alone) the result is stated.
#[verifier::external_body]
pub fn str_to_lowercase(s: &str) -> (r: String)
    ensures
        r@ == unicode_lowercase(s@),
        all_ascii(s@) ==> r@ == s@.map_values(|c: char| ascii_lower_char(c)),
{
    s.to_lowercase()
}

/// Some character of `s` is a control character.
pub open spec fn has_ctrl(s: Seq<char>) -> bool {
    exists|i: int| 0 <= i < s.len() && is_ctrl(#[trigger] s[i])
}

pub fn has_ctrl_exec(v: &[char]) -> (r: bool)
    ensures
        r == has_ctrl(v@),
{
    let mut i: usize = 0;
    while i < v.len()
        invariant
            i <= v@.len(),
            forall|k: int| 0 <= k < i ==> !is_ctrl(#[trigger] v@[k]),
        decreases v@.len() - i,
    {
        if char_is_control(v[i]) {
            return true;
        }
        i = i + 1;
    }
    false
}


// ---------------------------------------------------------------------
// Equality
// ---------------------------------------------------------------------

/// Whether two character sequences are equal.
pub fn chars_eq(a: &[char], b: &[char]) -> (r: bool)
    ensures
        r == (a@ == b@),
{
    if a.len() != b.len() {
        return false;
    }
    let mut i: usize = 0;
    while i < a.len()
        invariant
            a@.len() == b@.len(),
            i <= a@.len(),
            forall|k: int| 0 <= k < i ==> a@[k] == b@[k],
        decreases a@.len() - i,
    {
        if a[i] != b[i] {
            return false;
        }
        i = i + 1;
    }
    assert(a@ =~= b@);
    true
}

/// Strings made from a sequence of character vectors.
pub fn strings_from(v: &Vec<Vec<char>>) -> (r: Vec<String>)
    ensures
        r@.len() == v@.len(),
        forall|i: int| 0 <= i < r@.len() ==> #[trigger] r@[i]@ == v@[i]@,
{
    let mut r: Vec<String> = Vec::new();
    let mut i: usize = 0;
    while i < v.len()
        invariant
            i <= v@.len(),
            r@.len() == i,
            forall|k: int| 0 <= k < i ==> #[trigger] r@[k]@ == v@[k]@,
        decreases v@.len() - i,
    {
        r.push(string_from_chars(v[i].as_slice()));
        i = i + 1;
    }
    r
}


/// The message of the `ParseIntError` that `from_str_radix` reports for
/// `s` when it is not a number fitting in the type (whose largest value
/// is `max`): empty input, a bad digit, or a value too large.
pub open spec fn uint_error_message(s: Seq<char>, radix: nat, max: int) -> Seq<char> {
    let d = if s.len() > 1 && s[0] == '+' {
        s.drop_first()
    } else {
        s
    };
    if s.len() == 0 {
        "cannot parse integer from empty string"@
    } else if !all_digits(d, radix) || d.len() == 0 {
        "invalid digit found in string"@
    } else {
        "number too large to fit in target type"@
    }
}

/// The `ParseIntError` message for `v` (see `uint_error_message`); only
/// meaningful when `v` does not parse.
pub fn uint_error_message_exec(v: &[char], radix: u32, max: u64) -> (m: String)
    requires
        2 <= radix <= 36,
    ensures
        m@ == uint_error_message(v@, radix as nat, max as int),
{
    if v.len() == 0 {
        return string_of("cannot parse integer from empty string");
    }
    let start: usize = if v.len() > 1 && v[0] == '+' {
        1
    } else {
        0
    };
    let ghost d = if v@.len() > 1 && v@[0] == '+' {
        v@.drop_first()
    } else {
        v@
    };
    assert(d =~= v@.skip(start as int));
    let mut i = start;
    while i < v.len()
        invariant
            start <= i <= v@.len(),
            2 <= radix <= 36,
            d == v@.skip(start as int),
            d == (if v@.len() > 1 && v@[0] == '+' {
                v@.drop_first()
            } else {
                v@
            }),
            v@.len() > 0,
            forall|j: int| 0 <= j < i - start ==> digit_val(#[trigger] d[j], radix as nat) >= 0,
        decreases v@.len() - i,
    {
        if digit_value_exec(v[i], radix).is_none() {
            assert(digit_val(d[i - start], radix as nat) < 0);
            return string_of("invalid digit found in string");
        }
        i = i + 1;
    }
    string_of("number too large to fit in target type")
}

/// Index of the first `c` in `v`, or its length when there is none.
pub fn find_char_exec(v: &[char], c: char) -> (r: usize)
    ensures
        r == find_char(v@, c),
        r <= v@.len(),
{
    let mut i: usize = 0;
    while i < v.len() && v[i] != c
        invariant
            i <= v@.len(),
            forall|j: int| 0 <= j < i ==> v@[j] != c,
        decreases v@.len() - i,
    {
        i = i + 1;
    }
    proof {
        lemma_find_char(v@, c, i as int);
    }
    i
}

/// `s` without the prefix `p`, when it starts with it.
pub open spec fn strip_prefix(s: Seq<char>, p: Seq<char>) -> Option<Seq<char>> {
    if starts_with(s, p) {
        Some(s.skip(p.len() as int))
    } else {
        None
    }
}

/// `v` without the prefix `p`, when it starts with it.
pub fn strip_prefix_exec(v: &[char], p: &[char]) -> (r: Option<Vec<char>>)
    ensures
        match r {
            Some(x) => strip_prefix(v@, p@) == Some(x@),
            None => strip_prefix(v@, p@) is None,
        },
{
    if starts_with_exec(v, p) {
        let rest = slice_chars(v, p.len(), v.len());
        assert(rest@ =~= v@.skip(p@.len() as int));
        Some(rest)
    } else {
        None
    }
}

/// The first index at or after `i` where `p` occurs in `s`.
pub open spec fn find_sub_from(s: Seq<char>, p: Seq<char>, i: int) -> Option<int>
    decreases s.len() + 1 - i,
{
    if i < 0 || i + p.len() > s.len() {
        None
    } else if occurs_at(s, p, i) {
        Some(i)
    } else {
        find_sub_from(s, p, i + 1)
    }
}

pub fn find_sub_exec(s: &[char], p: &[char]) -> (r: Option<usize>)
    ensures
        match r {
            Some(i) => find_sub_from(s@, p@, 0) == Some(i as int),
            None => find_sub_from(s@, p@, 0) is None,
        },
{
    let mut i: usize = 0;
    while i <= s.len() && p.len() <= s.len() - i
        invariant
            find_sub_from(s@, p@, 0) == find_sub_from(s@, p@, i as int),
                i <= s@.len(),
        decreases s@.len() + 1 - i,
    {
        if occurs_at_exec(s, p, i) {
            return Some(i);
        }
        if p.len() == 0 {
            assert(s@.subrange(i as int, i as int) =~= p@);
        }
        i = i + 1;
    }
    None
}

pub proof fn lemma_find_sub_bounds(s: Seq<char>, p: Seq<char>, i: int)
    requires
        i >= 0,
    ensures
        find_sub_from(s, p, i) matches Some(k) ==> i <= k && k + p.len() <= s.len(),
    decreases s.len() + 1 - i,
{
    if i + p.len() <= s.len() && !occurs_at(s, p, i) {
        lemma_find_sub_bounds(s, p, i + 1);
    }
}

} // verus!
