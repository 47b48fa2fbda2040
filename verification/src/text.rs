//! Character-level text operations with their mathematical models.
//!
//! Strings are handled as sequences of `char`; every operation states its
//! result over `Seq<char>` so that callers can reason about trimming, line
//! splitting and prefix tests exactly.
use vstd::prelude::*;
use vstd::std_specs::iter::IteratorSpec;

verus! {

/// Unicode `White_Space`, the property `char::is_whitespace` tests.
pub open spec fn is_ws(c: char) -> bool {
    ||| ('\u{9}' <= c && c <= '\u{d}')
    ||| c == ' '
    ||| c == '\u{85}'
    ||| c == '\u{a0}'
    ||| c == '\u{1680}'
    ||| ('\u{2000}' <= c && c <= '\u{200a}')
    ||| c == '\u{2028}'
    ||| c == '\u{2029}'
    ||| c == '\u{202f}'
    ||| c == '\u{205f}'
    ||| c == '\u{3000}'
}

pub fn char_is_whitespace(c: char) -> (r: bool)
    ensures
        r == is_ws(c),
{
    ('\u{9}' <= c && c <= '\u{d}') || c == ' ' || c == '\u{85}' || c == '\u{a0}' || c == '\u{1680}'
        || ('\u{2000}' <= c && c <= '\u{200a}') || c == '\u{2028}' || c == '\u{2029}' || c
        == '\u{202f}' || c == '\u{205f}' || c == '\u{3000}'
}

pub open spec fn is_digit(c: char) -> bool {
    '0' <= c && c <= '9'
}

pub open spec fn is_alpha(c: char) -> bool {
    ('a' <= c && c <= 'z') || ('A' <= c && c <= 'Z')
}

/// ASCII lower-casing of one character (`char::to_ascii_lowercase`).
pub open spec fn lower(c: char) -> char {
    if 'A' <= c && c <= 'Z' {
        ((c as u32) + 32) as char
    } else {
        c
    }
}

pub fn char_lower(c: char) -> (r: char)
    ensures
        r == lower(c),
{
    if 'A' <= c && c <= 'Z' {
        let n: u32 = (c as u32) + 32;
        assert(0x61 <= n <= 0x7a);
        char_from_ascii(n)
    } else {
        c
    }
}

fn char_from_ascii(n: u32) -> (r: char)
    requires
        n < 128,
    ensures
        r == n as char,
{
    let b: u8 = n as u8;
    b as char
}

pub open spec fn lower_seq(s: Seq<char>) -> Seq<char> {
    s.map_values(|c: char| lower(c))
}

/// Leading white space removed (`str::trim_start`).
pub open spec fn trim_start(s: Seq<char>) -> Seq<char>
    decreases s.len(),
{
    if s.len() > 0 && is_ws(s[0]) {
        trim_start(s.drop_first())
    } else {
        s
    }
}

/// Trailing white space removed (`str::trim_end`).
pub open spec fn trim_end(s: Seq<char>) -> Seq<char>
    decreases s.len(),
{
    if s.len() > 0 && is_ws(s.last()) {
        trim_end(s.drop_last())
    } else {
        s
    }
}

/// `str::trim`.
pub open spec fn trim(s: Seq<char>) -> Seq<char> {
    trim_end(trim_start(s))
}

pub open spec fn starts_with(s: Seq<char>, p: Seq<char>) -> bool {
    p.len() <= s.len() && s.subrange(0, p.len() as int) == p
}

pub open spec fn ends_with(s: Seq<char>, p: Seq<char>) -> bool {
    p.len() <= s.len() && s.subrange(s.len() - p.len(), s.len() as int) == p
}

/// Index of the first `'\n'` at or after `from`, or the length when there is none.
pub open spec fn next_newline(s: Seq<char>, from: int) -> int
    decreases s.len() - from,
{
    if from >= s.len() {
        s.len() as int
    } else if s[from] == '\n' {
        from
    } else {
        next_newline(s, from + 1)
    }
}

/// One line as `str::lines` yields it: `"\r\n"` endings lose their `'\r'` too.
pub open spec fn line_body(s: Seq<char>, start: int, end: int) -> Seq<char> {
    if end < s.len() && end > start && s[end - 1] == '\r' {
        s.subrange(start, end - 1)
    } else {
        s.subrange(start, end)
    }
}

/// The lines of `s` from position `from` on, as `str::lines` yields them.
pub open spec fn lines_from(s: Seq<char>, from: int) -> Seq<Seq<char>>
    decreases s.len() - from,
{
    if from < 0 || from >= s.len() {
        Seq::empty()
    } else {
        let end = next_newline(s, from);
        proof {
            lemma_next_newline_bounds(s, from);
        }
        if end >= s.len() {
            seq![line_body(s, from, end)]
        } else {
            seq![line_body(s, from, end)] + lines_from(s, end + 1)
        }
    }
}

pub open spec fn lines(s: Seq<char>) -> Seq<Seq<char>> {
    lines_from(s, 0)
}

pub proof fn lemma_next_newline_bounds(s: Seq<char>, from: int)
    requires
        0 <= from,
    ensures
        from <= next_newline(s, from) || from > s.len(),
        next_newline(s, from) <= s.len() || from > s.len(),
        next_newline(s, from) < s.len() ==> s[next_newline(s, from)] == '\n',
        forall|k: int| from <= k < next_newline(s, from) ==> s[k] != '\n',
    decreases s.len() - from,
{
    if from < s.len() && s[from] != '\n' {
        lemma_next_newline_bounds(s, from + 1);
    }
}

/// The characters of `s`, in order, read with `str::chars`.
pub fn chars_of(s: &str) -> (r: Vec<char>)
    ensures
        r@ == s@,
{
    broadcast use vstd::string::group_string_axioms;

    let mut it = s.chars();
    let mut out: Vec<char> = Vec::new();
    loop
        invariant
            it.obeys_prophetic_iter_laws(),
            it.decrease() is Some,
            out@ + it.remaining() == s@,
        ensures
            out@ == s@,
        decreases it.decrease()->0,
    {
        match it.next() {
            Some(c) => {
                out.push(c);
                proof {
                    assert(out@ + it.remaining() =~= s@);
                }
            },
            None => {
                assert(out@ =~= s@);
                break;
            },
        }
    }
    out
}

/// Whether two strings hold the same characters.
pub fn str_eq(a: &str, b: &str) -> (r: bool)
    ensures
        r == (a@ == b@),
{
    let x = chars_of(a);
    let y = chars_of(b);
    eq_chars(x.as_slice(), y.as_slice())
}

/// A `String` holding exactly the given characters.
#[verifier::external_body]
pub(crate) fn string_of(v: &[char]) -> (r: String)
    ensures
        r@ == v@,
{
    v.iter().collect::<String>()
}

/// A copy of `v[i..j]`.
pub fn slice_chars(v: &[char], i: usize, j: usize) -> (r: Vec<char>)
    requires
        i <= j <= v@.len(),
    ensures
        r@ == v@.subrange(i as int, j as int),
{
    let mut out: Vec<char> = Vec::new();
    let mut k = i;
    while k < j
        invariant
            i <= k <= j <= v@.len(),
            out@ == v@.subrange(i as int, k as int),
        decreases j - k,
    {
        out.push(v[k]);
        k += 1;
        proof {
            assert(out@ =~= v@.subrange(i as int, k as int));
        }
    }
    out
}

/// The first `n` characters of `s`, or all of it when it is no longer.
pub open spec fn cap(s: Seq<char>, n: nat) -> Seq<char> {
    if s.len() <= n {
        s
    } else {
        s.take(n as int)
    }
}

/// `v` cut to its first `n` characters.
pub fn cap_chars(v: &[char], n: usize) -> (r: Vec<char>)
    ensures
        r@ == cap(v@, n as nat),
{
    if v.len() <= n {
        proof {
            assert(v@.subrange(0, v@.len() as int) =~= v@);
        }
        slice_chars(v, 0, v.len())
    } else {
        slice_chars(v, 0, n)
    }
}

/// Position after the leading white space of `v[..end]`.
fn trim_start_index(v: &[char], end: usize) -> (r: usize)
    requires
        end <= v@.len(),
    ensures
        r <= end,
        trim_start(v@.subrange(0, end as int)) == v@.subrange(r as int, end as int),
{
    let mut i: usize = 0;
    while i < end && char_is_whitespace(v[i])
        invariant
            i <= end <= v@.len(),
            trim_start(v@.subrange(0, end as int)) == trim_start(v@.subrange(i as int, end as int)),
        decreases end - i,
    {
        proof {
            let s = v@.subrange(i as int, end as int);
            assert(s.drop_first() =~= v@.subrange(i + 1, end as int));
        }
        i += 1;
    }
    i
}

/// End of `v[start..]` after dropping trailing white space.
fn trim_end_index(v: &[char], start: usize) -> (r: usize)
    requires
        start <= v@.len(),
    ensures
        start <= r <= v@.len(),
        trim_end(v@.subrange(start as int, v@.len() as int)) == v@.subrange(
            start as int,
            r as int,
        ),
{
    let mut j: usize = v.len();
    while j > start && char_is_whitespace(v[j - 1])
        invariant
            start <= j <= v@.len(),
            trim_end(v@.subrange(start as int, v@.len() as int)) == trim_end(
                v@.subrange(start as int, j as int),
            ),
        decreases j - start,
    {
        proof {
            let s = v@.subrange(start as int, j as int);
            assert(s.drop_last() =~= v@.subrange(start as int, j - 1));
        }
        j -= 1;
    }
    j
}

/// `str::trim` on characters.
pub fn trim_chars(v: &[char]) -> (r: Vec<char>)
    ensures
        r@ == trim(v@),
{
    let i = trim_start_index(v, v.len());
    proof {
        assert(v@.subrange(0, v@.len() as int) =~= v@);
    }
    let j = trim_end_index(v, i);
    slice_chars(v, i, j)
}

pub fn trim_start_chars(v: &[char]) -> (r: Vec<char>)
    ensures
        r@ == trim_start(v@),
{
    let i = trim_start_index(v, v.len());
    proof {
        assert(v@.subrange(0, v@.len() as int) =~= v@);
    }
    slice_chars(v, i, v.len())
}

pub fn trim_end_chars(v: &[char]) -> (r: Vec<char>)
    ensures
        r@ == trim_end(v@),
{
    let j = trim_end_index(v, 0);
    proof {
        assert(v@.subrange(0, v@.len() as int) =~= v@);
    }
    slice_chars(v, 0, j)
}

/// `str::trim` from a `&str` to a `String`.
pub fn trim_str(s: &str) -> (r: String)
    ensures
        r@ == trim(s@),
{
    let v = chars_of(s);
    let t = trim_chars(v.as_slice());
    string_of(t.as_slice())
}

pub fn starts_with_chars(s: &[char], p: &[char]) -> (r: bool)
    ensures
        r == starts_with(s@, p@),
{
    if p.len() > s.len() {
        return false;
    }
    let mut k: usize = 0;
    while k < p.len()
        invariant
            p@.len() <= s@.len(),
            k <= p@.len(),
            forall|m: int| 0 <= m < k ==> s@[m] == p@[m],
        decreases p.len() - k,
    {
        if s[k] != p[k] {
            proof {
                assert(s@.subrange(0, p@.len() as int)[k as int] != p@[k as int]);
            }
            return false;
        }
        k += 1;
    }
    proof {
        assert(s@.subrange(0, p@.len() as int) =~= p@);
    }
    true
}

pub fn ends_with_chars(s: &[char], p: &[char]) -> (r: bool)
    ensures
        r == ends_with(s@, p@),
{
    if p.len() > s.len() {
        return false;
    }
    let off = s.len() - p.len();
    let mut k: usize = 0;
    while k < p.len()
        invariant
            p@.len() <= s@.len(),
            off == s@.len() - p@.len(),
            off + p@.len() == s@.len(),
            s@.len() == s.len(),
            k <= p@.len(),
            forall|m: int| 0 <= m < k ==> s@[off + m] == p@[m],
        decreases p.len() - k,
    {
        let sk = s[off + k];
        if sk != p[k] {
            proof {
                assert(s@.subrange(off as int, s@.len() as int)[k as int] != p@[k as int]);
            }
            return false;
        }
        k += 1;
    }
    proof {
        assert(s@.subrange(off as int, s@.len() as int) =~= p@);
    }
    true
}

/// Whether `s` and `p` are equal after ASCII lower-casing both.
pub open spec fn eq_ignore_ascii_case(s: Seq<char>, p: Seq<char>) -> bool {
    s.len() == p.len() && forall|k: int| 0 <= k < s.len() ==> lower(s[k]) == lower(p[k])
}

pub fn eq_ignore_ascii_case_chars(s: &[char], p: &[char]) -> (r: bool)
    ensures
        r == eq_ignore_ascii_case(s@, p@),
{
    if s.len() != p.len() {
        return false;
    }
    let mut k: usize = 0;
    while k < p.len()
        invariant
            p@.len() == s@.len(),
            k <= p@.len(),
            forall|m: int| 0 <= m < k ==> lower(s@[m]) == lower(p@[m]),
        decreases p.len() - k,
    {
        if char_lower(s[k]) != char_lower(p[k]) {
            return false;
        }
        k += 1;
    }
    true
}

pub fn eq_chars(s: &[char], p: &[char]) -> (r: bool)
    ensures
        r == (s@ == p@),
{
    if s.len() != p.len() {
        return false;
    }
    let r = starts_with_chars(s, p);
    proof {
        assert(s@.subrange(0, p@.len() as int) =~= s@);
    }
    r
}

/// `str::to_ascii_lowercase` on characters.
pub fn lower_chars(v: &[char]) -> (r: Vec<char>)
    ensures
        r@ == lower_seq(v@),
{
    let mut out: Vec<char> = Vec::new();
    let mut k: usize = 0;
    while k < v.len()
        invariant
            k <= v@.len(),
            out@ == lower_seq(v@.subrange(0, k as int)),
        decreases v.len() - k,
    {
        out.push(char_lower(v[k]));
        k += 1;
        proof {
            assert(out@ =~= lower_seq(v@.subrange(0, k as int)));
        }
    }
    proof {
        assert(v@.subrange(0, v@.len() as int) =~= v@);
    }
    out
}

/// The character sequences held by a vector of character vectors.
pub open spec fn views(v: Seq<Vec<char>>) -> Seq<Seq<char>> {
    v.map_values(|x: Vec<char>| x@)
}

/// The lines of `v`, as `str::lines` splits them.
pub fn lines_of(v: &[char]) -> (r: Vec<Vec<char>>)
    ensures
        views(r@) == lines(v@),
{
    let mut out: Vec<Vec<char>> = Vec::new();
    let mut start: usize = 0;
    let ghost mut acc: Seq<Seq<char>> = Seq::empty();
    while start < v.len()
        invariant
            start <= v@.len(),
            views(out@) == acc,
            acc + lines_from(v@, start as int) == lines(v@),
        decreases v.len() - start,
    {
        let mut end = start;
        while end < v.len() && v[end] != '\n'
            invariant
                start <= end <= v@.len(),
                next_newline(v@, start as int) == next_newline(v@, end as int),
            decreases v.len() - end,
        {
            end += 1;
        }
        proof {
            lemma_next_newline_bounds(v@, start as int);
        }
        let body_end = if end < v.len() && end > start && v[end - 1] == '\r' {
            end - 1
        } else {
            end
        };
        let line = slice_chars(v, start, body_end);
        proof {
            assert(line@ == line_body(v@, start as int, end as int));
            assert(lines_from(v@, start as int) == seq![line@] + lines_from(
                v@,
                end as int + 1,
            ));
            acc = acc + seq![line@];
            assert(acc + lines_from(v@, end as int + 1) =~= (acc.drop_last() + seq![line@])
                + lines_from(v@, end as int + 1));
        }
        out.push(line);
        proof {
            assert(views(out@) =~= acc);
        }
        if end < v.len() {
            start = end + 1;
        } else {
            start = v.len();
            proof {
                assert(lines_from(v@, end as int + 1) == Seq::<Seq<char>>::empty());
            }
        }
    }
    proof {
        assert(acc + lines_from(v@, start as int) =~= acc);
    }
    out
}

} // verus!

verus! {

/// The ASCII digit for `d < 10`.
pub open spec fn digit(d: nat) -> char {
    (48 + d) as char
}

/// The decimal notation of `n`, as `to_string` writes an unsigned integer.
pub open spec fn decimal(n: nat) -> Seq<char>
    decreases n,
{
    if n < 10 {
        seq![digit(n)]
    } else {
        decimal(n / 10).push(digit(n % 10))
    }
}

pub fn decimal_chars(n: u64) -> (r: Vec<char>)
    ensures
        r@ == decimal(n as nat),
    decreases n,
{
    let d: u8 = (n % 10) as u8 + 48u8;
    let c = d as char;
    if n < 10 {
        let mut v: Vec<char> = Vec::new();
        v.push(c);
        proof {
            assert(v@ =~= seq![digit(n as nat)]);
        }
        v
    } else {
        let mut v = decimal_chars(n / 10);
        v.push(c);
        v
    }
}

/// `prefix` followed by the decimal notation of `n` (`format!("{prefix}{n}")`).
pub fn with_number(prefix: &str, n: u64) -> (r: String)
    ensures
        r@ == prefix@ + decimal(n as nat),
{
    let mut v = chars_of(prefix);
    let mut d = decimal_chars(n);
    v.append(&mut d);
    string_of(v.as_slice())
}

} // verus!

verus! {

/// The characters of `v` joined with `'\n'` between them.
pub open spec fn join_lines(v: Seq<Seq<char>>) -> Seq<char>
    decreases v.len(),
{
    if v.len() == 0 {
        Seq::empty()
    } else if v.len() == 1 {
        v[0]
    } else {
        join_lines(v.drop_last()) + seq!['\n'] + v.last()
    }
}

pub fn join_lines_chars(v: &Vec<Vec<char>>) -> (r: Vec<char>)
    ensures
        r@ == join_lines(views(v@)),
{
    let mut out: Vec<char> = Vec::new();
    let mut i: usize = 0;
    while i < v.len()
        invariant
            i <= v@.len(),
            out@ == join_lines(views(v@.subrange(0, i as int))),
        decreases v.len() - i,
    {
        proof {
            assert(views(v@.subrange(0, i + 1)).drop_last() =~= views(v@.subrange(0, i as int)));
            assert(views(v@.subrange(0, i + 1)).last() == v@[i as int]@);
        }
        if i > 0 {
            out.push('\n');
        }
        let mut piece = slice_chars(v[i].as_slice(), 0, v[i].len());
        proof {
            assert(v[i as int]@.subrange(0, v[i as int]@.len() as int) =~= v[i as int]@);
        }
        out.append(&mut piece);
        i += 1;
        proof {
            if i == 1 {
                assert(views(v@.subrange(0, 1)) =~= seq![v@[0]@]);
                assert(out@ =~= v@[0]@);
            } else {
                assert(out@ =~= join_lines(views(v@.subrange(0, i as int))));
            }
        }
    }
    proof {
        assert(v@.subrange(0, v@.len() as int) =~= v@);
    }
    out
}

/// The value of a string of decimal digits.
pub open spec fn digits_value(s: Seq<char>) -> int
    decreases s.len(),
{
    if s.len() == 0 {
        0
    } else {
        digits_value(s.drop_last()) * 10 + (s.last() as int - 48)
    }
}

pub open spec fn all_digits(s: Seq<char>) -> bool {
    forall|k: int| 0 <= k < s.len() ==> is_digit(#[trigger] s[k])
}

/// What `str::parse::<u64>` accepts: an optional `+` and at least one digit,
/// with a value that fits.
pub open spec fn unsigned_value(s: Seq<char>) -> Option<u64> {
    let body = if s.len() > 0 && s[0] == '+' {
        s.drop_first()
    } else {
        s
    };
    if body.len() > 0 && all_digits(body) && digits_value(body) <= u64::MAX {
        Some(digits_value(body) as u64)
    } else {
        None
    }
}

/// What `str::parse::<i64>` accepts: an optional sign and at least one digit,
/// with a value in range.
pub open spec fn signed_value(s: Seq<char>) -> Option<i64> {
    if s.len() > 0 && s[0] == '-' {
        let body = s.drop_first();
        if body.len() > 0 && all_digits(body) && digits_value(body) <= 0x8000_0000_0000_0000 {
            Some((0 - digits_value(body)) as i64)
        } else {
            None
        }
    } else {
        match unsigned_value(s) {
            Some(v) => if v <= i64::MAX as u64 {
                Some(v as i64)
            } else {
                None
            },
            None => None,
        }
    }
}

proof fn lemma_digits_value_nonneg(s: Seq<char>)
    requires
        all_digits(s),
    ensures
        digits_value(s) >= 0,
    decreases s.len(),
{
    if s.len() > 0 {
        assert(all_digits(s.drop_last())) by {
            assert forall|k: int| 0 <= k < s.drop_last().len() implies is_digit(
                #[trigger] s.drop_last()[k],
            ) by {
                assert(s.drop_last()[k] == s[k]);
            }
        }
        lemma_digits_value_nonneg(s.drop_last());
        assert(is_digit(s[s.len() - 1]));
    }
}

/// Value of the digits `s[from..]`, or `None` on a non-digit, an empty run or
/// a value above `u64::MAX`.
fn digits_u64(s: &[char], from: usize) -> (r: Option<u64>)
    requires
        from <= s@.len(),
    ensures
        ({
            let body = s@.subrange(from as int, s@.len() as int);
            match r {
                Some(v) => body.len() > 0 && all_digits(body) && v == digits_value(body),
                None => !(body.len() > 0 && all_digits(body) && digits_value(body) <= u64::MAX),
            }
        }),
{
    let ghost body = s@.subrange(from as int, s@.len() as int);
    if from >= s.len() {
        return None;
    }
    let mut value: u64 = 0;
    let mut i = from;
    while i < s.len()
        invariant
            from <= i <= s@.len(),
            body == s@.subrange(from as int, s@.len() as int),
            all_digits(s@.subrange(from as int, i as int)),
            value == digits_value(s@.subrange(from as int, i as int)),
        decreases s.len() - i,
    {
        let c = s[i];
        let ghost prefix = s@.subrange(from as int, i + 1);
        proof {
            assert(prefix.drop_last() =~= s@.subrange(from as int, i as int));
            assert(prefix.last() == c);
        }
        if c < '0' || c > '9' {
            proof {
                assert(body[i - from] == c);
                assert(!is_digit(body[i - from]));
            }
            return None;
        }
        let d: u64 = (c as u32 - 48) as u64;
        if value > (u64::MAX - d) / 10 {
            proof {
                assert(value * 10 + d > u64::MAX) by (nonlinear_arith)
                    requires
                        value > (u64::MAX - d) / 10,
                        d <= 9,
                ;
                assert(body.subrange(0, (i - from) as int) =~= s@.subrange(from as int, i as int));
                assert(body[i - from] == c);
                lemma_digits_prefix_bound(body, (i - from) as int);
            }
            return None;
        }
        value = value * 10 + d;
        i += 1;
        proof {
            assert forall|k: int| 0 <= k < prefix.len() implies is_digit(#[trigger] prefix[k]) by {
                if k < prefix.len() - 1 {
                    assert(prefix[k] == s@.subrange(from as int, (i - 1) as int)[k]);
                }
            }
        }
    }
    Some(value)
}

/// A digit string's value is at least that of any prefix of it followed by one more digit.
proof fn lemma_digits_prefix_bound(body: Seq<char>, n: int)
    requires
        0 <= n < body.len(),
        all_digits(body.subrange(0, n)),
        is_digit(body[n]),
        digits_value(body.subrange(0, n)) * 10 + (body[n] as int - 48) > u64::MAX,
    ensures
        !(all_digits(body) && digits_value(body) <= u64::MAX),
{
    if all_digits(body) {
        lemma_digits_monotone(body, n + 1);
        assert(body.subrange(0, n + 1).drop_last() =~= body.subrange(0, n));
    }
}

proof fn lemma_digits_monotone(body: Seq<char>, m: int)
    requires
        0 <= m <= body.len(),
        all_digits(body),
    ensures
        digits_value(body) >= digits_value(body.subrange(0, m)),
    decreases body.len() - m,
{
    if m < body.len() {
        lemma_digits_monotone(body, m + 1);
        assert(body.subrange(0, m + 1).drop_last() =~= body.subrange(0, m));
        assert(all_digits(body.subrange(0, m))) by {
            assert forall|k: int| 0 <= k < m implies is_digit(#[trigger] body.subrange(0, m)[k]) by {
                assert(body.subrange(0, m)[k] == body[k]);
            }
        }
        lemma_digits_value_nonneg(body.subrange(0, m));
        assert(is_digit(body[m]));
    } else {
        assert(body.subrange(0, m) =~= body);
    }
}

/// `str::parse::<u64>`.
pub fn parse_u64(s: &[char]) -> (r: Option<u64>)
    ensures
        r == unsigned_value(s@),
{
    if s.len() > 0 && s[0] == '+' {
        proof {
            assert(s@.subrange(1, s@.len() as int) =~= s@.drop_first());
        }
        digits_u64(s, 1)
    } else {
        proof {
            assert(s@.subrange(0, s@.len() as int) =~= s@);
        }
        digits_u64(s, 0)
    }
}

/// `str::parse::<i64>`.
pub fn parse_i64(s: &[char]) -> (r: Option<i64>)
    ensures
        r == signed_value(s@),
{
    if s.len() > 0 && s[0] == '-' {
        proof {
            assert(s@.subrange(1, s@.len() as int) =~= s@.drop_first());
        }
        match digits_u64(s, 1) {
            Some(v) => {
                if v <= 0x8000_0000_0000_0000u64 {
                    if v == 0x8000_0000_0000_0000u64 {
                        Some(i64::MIN)
                    } else {
                        Some(0i64 - (v as i64))
                    }
                } else {
                    None
                }
            },
            None => None,
        }
    } else {
        match parse_u64(s) {
            Some(v) => {
                if v <= i64::MAX as u64 {
                    Some(v as i64)
                } else {
                    None
                }
            },
            None => None,
        }
    }
}

} // verus!

verus! {

/// Whether `p` occurs in `s` as a contiguous run.
pub open spec fn contains(s: Seq<char>, p: Seq<char>) -> bool {
    exists|i: int| 0 <= i <= s.len() - p.len() && #[trigger] s.subrange(i, i + p.len()) == p
}

pub fn contains_chars(s: &[char], p: &[char]) -> (r: bool)
    ensures
        r == contains(s@, p@),
{
    if p.len() > s.len() {
        return false;
    }
    if p.len() == 0 {
        proof {
            assert(s@.subrange(0int, 0int + p@.len()) =~= p@);
        }
        return true;
    }
    let mut i: usize = 0;
    while i <= s.len() - p.len()
        invariant
            0 < p@.len() <= s@.len(),
            i <= s@.len() - p@.len() + 1,
            forall|k: int| 0 <= k < i ==> #[trigger] s@.subrange(k, k + p@.len()) != p@,
        decreases s.len() - p.len() + 1 - i,
    {
        let tail = slice_chars(s, i, s.len());
        if starts_with_chars(tail.as_slice(), p) {
            proof {
                assert(tail@.subrange(0, p@.len() as int) =~= s@.subrange(i as int, i + p@.len()));
            }
            return true;
        }
        proof {
            assert(tail@.subrange(0, p@.len() as int) =~= s@.subrange(i as int, i + p@.len()));
        }
        i += 1;
    }
    false
}

pub proof fn lemma_trim_start_len(s: Seq<char>)
    ensures
        trim_start(s).len() <= s.len(),
    decreases s.len(),
{
    if s.len() > 0 && is_ws(s[0]) {
        lemma_trim_start_len(s.drop_first());
    }
}

pub proof fn lemma_trim_end_len(s: Seq<char>)
    ensures
        trim_end(s).len() <= s.len(),
    decreases s.len(),
{
    if s.len() > 0 && is_ws(s.last()) {
        lemma_trim_end_len(s.drop_last());
    }
}

pub proof fn lemma_trim_len(s: Seq<char>)
    ensures
        trim(s).len() <= s.len(),
{
    lemma_trim_start_len(s);
    lemma_trim_end_len(trim_start(s));
}

/// Index of the first white-space character at or after `i`, or the length.
pub open spec fn word_end(s: Seq<char>, i: int) -> int
    decreases s.len() - i,
{
    if i >= s.len() || is_ws(s[i]) {
        i
    } else {
        word_end(s, i + 1)
    }
}

/// The first white-space separated word (`split_whitespace().next()`).
pub open spec fn first_word(s: Seq<char>) -> Option<Seq<char>> {
    let u = trim_start(s);
    if u.len() == 0 {
        None
    } else {
        Some(u.subrange(0, word_end(u, 0)))
    }
}

pub proof fn lemma_word_end(s: Seq<char>, i: int)
    requires
        0 <= i <= s.len(),
    ensures
        i <= word_end(s, i) <= s.len(),
    decreases s.len() - i,
{
    if !(i >= s.len() || is_ws(s[i])) {
        lemma_word_end(s, i + 1);
    }
}

pub fn first_word_chars(s: &[char]) -> (r: Option<Vec<char>>)
    ensures
        match r {
            Some(w) => first_word(s@) == Some(w@),
            None => first_word(s@) is None,
        },
{
    let u = trim_start_chars(s);
    if u.len() == 0 {
        return None;
    }
    let mut j: usize = 0;
    proof {
        lemma_word_end(u@, 0);
    }
    while j < u.len() && !char_is_whitespace(u[j])
        invariant
            j <= u@.len(),
            word_end(u@, 0) == word_end(u@, j as int),
        decreases u.len() - j,
    {
        j += 1;
    }
    Some(slice_chars(u.as_slice(), 0, j))
}

/// Index of the first `c` in `s`, if any.
pub open spec fn find_char(s: Seq<char>, c: char, i: int) -> Option<int>
    decreases s.len() - i,
{
    if i >= s.len() {
        None
    } else if s[i] == c {
        Some(i)
    } else {
        find_char(s, c, i + 1)
    }
}

pub proof fn lemma_find_char(s: Seq<char>, c: char, i: int)
    requires
        0 <= i,
    ensures
        find_char(s, c, i) matches Some(k) ==> i <= k < s.len() && s[k] == c,
    decreases s.len() - i,
{
    if i < s.len() && s[i] != c {
        lemma_find_char(s, c, i + 1);
    }
}

pub fn find_char_chars(s: &[char], c: char) -> (r: Option<usize>)
    ensures
        match r {
            Some(k) => find_char(s@, c, 0) == Some(k as int),
            None => find_char(s@, c, 0) is None,
        },
{
    let mut i: usize = 0;
    while i < s.len()
        invariant
            i <= s@.len(),
            find_char(s@, c, 0) == find_char(s@, c, i as int),
        decreases s.len() - i,
    {
        if s[i] == c {
            return Some(i);
        }
        i += 1;
    }
    None
}


/// Whether `p` occurs in `s` at position `i`.
pub open spec fn occurs_at(s: Seq<char>, p: Seq<char>, i: int) -> bool {
    0 <= i && i + p.len() <= s.len() && s.subrange(i, i + p.len()) == p
}

/// Position of the first occurrence of `p` in `s` at or after `i`
/// (`str::find` counted in characters).
pub open spec fn find_seq(s: Seq<char>, p: Seq<char>, i: int) -> Option<int>
    decreases s.len() + 1 - i,
{
    if i < 0 || i + p.len() > s.len() {
        None
    } else if occurs_at(s, p, i) {
        Some(i)
    } else {
        find_seq(s, p, i + 1)
    }
}

pub proof fn lemma_find_seq(s: Seq<char>, p: Seq<char>, i: int)
    requires
        0 <= i,
    ensures
        find_seq(s, p, i) matches Some(k) ==> i <= k && occurs_at(s, p, k),
        find_seq(s, p, i) matches Some(k) ==> forall|j: int| i <= j < k ==> !occurs_at(s, p, j),
    decreases s.len() + 1 - i,
{
    if i + p.len() <= s.len() && !occurs_at(s, p, i) {
        lemma_find_seq(s, p, i + 1);
    }
}

pub fn find_chars(s: &[char], p: &[char]) -> (r: Option<usize>)
    ensures
        match r {
            Some(k) => find_seq(s@, p@, 0) == Some(k as int),
            None => find_seq(s@, p@, 0) is None,
        },
{
    if p.len() > s.len() {
        return None;
    }
    let mut i: usize = 0;
    let last = s.len() - p.len();
    while i <= last
        invariant
            p@.len() <= s@.len(),
            last == s@.len() - p@.len(),
            i <= last,
            find_seq(s@, p@, 0) == find_seq(s@, p@, i as int),
        decreases last - i,
    {
        let tail = slice_chars(s, i, s.len());
        let hit = starts_with_chars(tail.as_slice(), p);
        proof {
            assert(tail@.subrange(0, p@.len() as int) =~= s@.subrange(i as int, i + p@.len()));
        }
        if hit {
            return Some(i);
        }
        if i == last {
            return None;
        }
        i += 1;
    }
    None
}

} // verus!
