//! Character-level text toolkit: the specifications of the string operations
//! the rest of the library is stated in, and verified executable versions.
use vstd::prelude::*;

verus! {

// ---------------------------------------------------------------------------
// Characters
// ---------------------------------------------------------------------------

/// The Unicode `White_Space` characters, as recognised by `char::is_whitespace`.
pub open spec fn is_ws(c: char) -> bool {
    let u = c as u32;
    ||| 0x09 <= u <= 0x0D
    ||| u == 0x20
    ||| u == 0x85
    ||| u == 0xA0
    ||| u == 0x1680
    ||| 0x2000 <= u <= 0x200A
    ||| u == 0x2028
    ||| u == 0x2029
    ||| u == 0x202F
    ||| u == 0x205F
    ||| u == 0x3000
}

pub fn is_whitespace(c: char) -> (r: bool)
    ensures
        r == is_ws(c),
{
    let u = c as u32;
    (0x09 <= u && u <= 0x0D) || u == 0x20 || u == 0x85 || u == 0xA0 || u == 0x1680 || (0x2000
        <= u && u <= 0x200A) || u == 0x2028 || u == 0x2029 || u == 0x202F || u == 0x205F || u
        == 0x3000
}

/// ASCII lower-casing of one character; every other character is unchanged.
pub open spec fn lower_char(c: char) -> char {
    if 'A' <= c <= 'Z' {
        ((c as u32) + 32) as char
    } else {
        c
    }
}

pub open spec fn lower_seq(s: Seq<char>) -> Seq<char> {
    s.map_values(|c: char| lower_char(c))
}

pub fn to_lower_char(c: char) -> (r: char)
    ensures
        r == lower_char(c),
{
    if 'A' <= c && c <= 'Z' {
        let b = c as u8;
        let r = (b + 32) as char;
        r
    } else {
        c
    }
}

pub open spec fn is_ascii_digit(c: char) -> bool {
    '0' <= c <= '9'
}

pub open spec fn is_ascii_alnum(c: char) -> bool {
    ||| '0' <= c <= '9'
    ||| 'a' <= c <= 'z'
    ||| 'A' <= c <= 'Z'
}


// ---------------------------------------------------------------------------
// Between `&str`, `String` and character vectors
// ---------------------------------------------------------------------------

/// The characters of a string slice, in order.
pub fn chars_of(s: &str) -> (v: Vec<char>)
    ensures
        v@ == s@,
{
    let mut v: Vec<char> = Vec::new();
    for c in it: s.chars()
        invariant
            v@ == it.seq().take(it.index() as int),
    {
        v.push(c);
    }
    v
}

/// A string made of exactly the given characters (std's `FromIterator<&char> for String`).
#[verifier::external_body]
pub(crate) fn string_from_chars(v: &[char]) -> (s: String)
    ensures
        s@ == v@,
{
    v.iter().collect()
}

/// Copy of a slice of a character vector.
pub fn copy_range(v: &Vec<char>, start: usize, end: usize) -> (r: Vec<char>)
    requires
        start <= end <= v.len(),
    ensures
        r@ == v@.subrange(start as int, end as int),
{
    let mut r: Vec<char> = Vec::new();
    let mut i = start;
    while i < end
        invariant
            start <= i <= end <= v.len(),
            r@ == v@.subrange(start as int, i as int),
        decreases end - i,
    {
        r.push(v[i]);
        i += 1;
    }
    r
}

pub fn string_of_range(v: &Vec<char>, start: usize, end: usize) -> (s: String)
    requires
        start <= end <= v.len(),
    ensures
        s@ == v@.subrange(start as int, end as int),
{
    string_from_chars(&v.as_slice()[start..end])
}

/// A string from a string slice.
pub fn owned(s: &str) -> (r: String)
    ensures
        r@ == s@,
{
    s.to_owned()
}

pub fn seq_equal(a: &[char], b: &[char]) -> (r: bool)
    ensures
        r == (a@ == b@),
{
    if a.len() != b.len() {
        return false;
    }
    let mut i: usize = 0;
    while i < a.len()
        invariant
            a.len() == b.len(),
            i <= a.len(),
            forall|j: int| 0 <= j < i ==> a@[j] == b@[j],
        decreases a.len() - i,
    {
        if a[i] != b[i] {
            return false;
        }
        i += 1;
    }
    assert(a@ =~= b@);
    true
}

pub fn str_equal(a: &str, b: &str) -> (r: bool)
    ensures
        r == (a@ == b@),
{
    let va = chars_of(a);
    let vb = chars_of(b);
    seq_equal(va.as_slice(), vb.as_slice())
}

/// Appends a string slice to a character vector.
pub fn push_str(v: &mut Vec<char>, s: &str)
    ensures
        final(v)@ == old(v)@ + s@,
{
    let cs = chars_of(s);
    let mut i: usize = 0;
    while i < cs.len()
        invariant
            i <= cs.len(),
            cs@ == s@,
            v@ == old(v)@ + cs@.take(i as int),
        decreases cs.len() - i,
    {
        v.push(cs[i]);
        i += 1;
        assert(cs@.take(i as int) =~= cs@.take((i - 1) as int).push(cs@[i - 1]));
    }
    assert(cs@.take(cs.len() as int) =~= cs@);
}

pub fn push_chars(v: &mut Vec<char>, s: &[char])
    ensures
        final(v)@ == old(v)@ + s@,
{
    let mut i: usize = 0;
    while i < s.len()
        invariant
            i <= s.len(),
            v@ == old(v)@ + s@.take(i as int),
        decreases s.len() - i,
    {
        v.push(s[i]);
        i += 1;
        assert(s@.take(i as int) =~= s@.take((i - 1) as int).push(s@[i - 1]));
    }
    assert(s@.take(s.len() as int) =~= s@);
}

/// What `String::from_utf8_lossy` makes of `bytes`.
pub uninterp spec fn utf8_lossy(bytes: Seq<u8>) -> Seq<char>;

/// `String::from_utf8_lossy(bytes).to_string()`: the text of the bytes, with each invalid
/// sequence replaced by U+FFFD. The text is the one `std` gives for these bytes; what it is
/// is not stated here.
#[verifier::external_body]
pub(crate) fn decode_utf8_lossy(bytes: &[u8]) -> (r: String)
    ensures
        r@ == utf8_lossy(bytes@),
{
    String::from_utf8_lossy(bytes).to_string()
}

// ---------------------------------------------------------------------------
// Prefixes, case, trimming
// ---------------------------------------------------------------------------

pub open spec fn starts_with(s: Seq<char>, p: Seq<char>) -> bool {
    p.len() <= s.len() && s.take(p.len() as int) == p
}

pub open spec fn ends_with(s: Seq<char>, p: Seq<char>) -> bool {
    p.len() <= s.len() && s.skip(s.len() - p.len()) == p
}

/// Whether `p` occurs in `s` at position `i`.
pub open spec fn occurs_at(s: Seq<char>, p: Seq<char>, i: int) -> bool {
    0 <= i && i + p.len() <= s.len() && s.subrange(i, i + p.len()) == p
}

pub open spec fn contains(s: Seq<char>, p: Seq<char>) -> bool {
    exists|i: int| occurs_at(s, p, i)
}

pub fn has_prefix_at(v: &[char], at: usize, p: &[char]) -> (r: bool)
    requires
        at <= v.len(),
    ensures
        r == starts_with(v@.skip(at as int), p@),
        r == occurs_at(v@, p@, at as int),
{
    if p.len() > v.len() - at {
        return false;
    }
    let mut i: usize = 0;
    while i < p.len()
        invariant
            at + p.len() <= v.len(),
            i <= p.len(),
            forall|j: int| 0 <= j < i ==> v@[at + j] == p@[j],
        decreases p.len() - i,
    {
        if v[at + i] != p[i] {
            assert(v@.skip(at as int).take(p.len() as int)[i as int] != p@[i as int]);
            assert(v@.subrange(at as int, at + p.len())[i as int] != p@[i as int]);
            return false;
        }
        i += 1;
    }
    assert(v@.skip(at as int).take(p.len() as int) =~= p@);
    assert(v@.subrange(at as int, at + p.len()) =~= p@);
    true
}

pub fn has_prefix(v: &[char], p: &[char]) -> (r: bool)
    ensures
        r == starts_with(v@, p@),
{
    let r = has_prefix_at(v, 0, p);
    assert(v@.skip(0) =~= v@);
    r
}

pub fn str_starts_with(s: &str, p: &str) -> (r: bool)
    ensures
        r == starts_with(s@, p@),
{
    let vs = chars_of(s);
    let vp = chars_of(p);
    has_prefix(vs.as_slice(), vp.as_slice())
}

pub fn contains_at_any(v: &[char], p: &[char]) -> (r: bool)
    ensures
        r == contains(v@, p@),
{
    if p.len() > v.len() {
        return false;
    }
    let last = v.len() - p.len();
    let mut i: usize = 0;
    loop
        invariant
            last == v.len() - p.len(),
            i <= last,
            forall|j: int| 0 <= j < i ==> !occurs_at(v@, p@, j),
        decreases last - i,
    {
        if has_prefix_at(v, i, p) {
            return true;
        }
        if i == last {
            return false;
        }
        i += 1;
    }
}

pub fn lowercase(v: &[char]) -> (r: Vec<char>)
    ensures
        r@ == lower_seq(v@),
{
    let mut r: Vec<char> = Vec::new();
    let mut i: usize = 0;
    while i < v.len()
        invariant
            i <= v.len(),
            r@ == lower_seq(v@.take(i as int)),
        decreases v.len() - i,
    {
        let c = to_lower_char(v[i]);
        r.push(c);
        i += 1;
        assert(lower_seq(v@.take(i as int)) =~= lower_seq(v@.take((i - 1) as int)).push(c));
    }
    assert(v@.take(v.len() as int) =~= v@);
    r
}

/// `str::to_ascii_lowercase`.
pub fn ascii_lowercase(s: &str) -> (r: String)
    ensures
        r@ == lower_seq(s@),
{
    let v = chars_of(s);
    let l = lowercase(v.as_slice());
    string_from_chars(l.as_slice())
}

/// `str::eq_ignore_ascii_case`, stated over characters.
pub open spec fn eq_ignore_case(a: Seq<char>, b: Seq<char>) -> bool {
    lower_seq(a) == lower_seq(b)
}

/// `u` is an ASCII capital and `l` the same letter in small case.
pub open spec fn ascii_case_pair(u: char, l: char) -> bool {
    'A' <= u <= 'Z' && l as u32 == u as u32 + 32
}

/// `a` and `b` have the same letters position by position, each pair either equal or the
/// capital and small form of one ASCII letter.
pub open spec fn same_ascii_letters(a: Seq<char>, b: Seq<char>) -> bool {
    &&& a.len() == b.len()
    &&& forall|i: int| 0 <= i < a.len() ==> #[trigger] a[i] == b[i] || ascii_case_pair(a[i], b[i])
        || ascii_case_pair(b[i], a[i])
}

proof fn lemma_lower_char_eq(x: char, y: char)
    ensures
        lower_char(x) == lower_char(y) <==> (x == y || ascii_case_pair(x, y) || ascii_case_pair(y, x)),
{
    let xv = x as u32;
    let yv = y as u32;
    if 'A' <= x <= 'Z' {
        assert(lower_char(x) as u32 == xv + 32);
    }
    if 'A' <= y <= 'Z' {
        assert(lower_char(y) as u32 == yv + 32);
    }
}

/// Comparing without regard to ASCII case is comparing letter by letter.
pub proof fn lemma_eq_ignore_case_letters(a: Seq<char>, b: Seq<char>)
    ensures
        eq_ignore_case(a, b) <==> same_ascii_letters(a, b),
{
    if same_ascii_letters(a, b) {
        assert forall|i: int| 0 <= i < a.len() implies lower_seq(a)[i] == lower_seq(b)[i] by {
            lemma_lower_char_eq(a[i], b[i]);
        }
        assert(lower_seq(a) =~= lower_seq(b));
    }
    if eq_ignore_case(a, b) {
        assert(lower_seq(a).len() == a.len() && lower_seq(b).len() == b.len());
        assert forall|i: int| 0 <= i < a.len() implies #[trigger] a[i] == b[i] || ascii_case_pair(a[i], b[i])
            || ascii_case_pair(b[i], a[i]) by {
            assert(lower_seq(a)[i] == lower_seq(b)[i]);
            assert(lower_seq(a)[i] == lower_char(a[i]) && lower_seq(b)[i] == lower_char(b[i]));
            lemma_lower_char_eq(a[i], b[i]);
        }
    }
}

/// For a prefix `p` without capitals, the ASCII-lowered `h` starts with `p` exactly when
/// `h` starts with `p`'s letters up to ASCII case.
pub proof fn lemma_lower_prefix(h: Seq<char>, p: Seq<char>)
    requires
        lower_seq(p) == p,
    ensures
        starts_with(lower_seq(h), p) <==> p.len() <= h.len() && same_ascii_letters(h.take(p.len() as int), p),
{
    if p.len() <= h.len() {
        assert(lower_seq(h).take(p.len() as int) =~= lower_seq(h.take(p.len() as int)));
        lemma_eq_ignore_case_letters(h.take(p.len() as int), p);
    }
}

pub fn chars_eq_ignore_case(a: &[char], b: &[char]) -> (r: bool)
    ensures
        r == eq_ignore_case(a@, b@),
{
    let la = lowercase(a);
    let lb = lowercase(b);
    seq_equal(la.as_slice(), lb.as_slice())
}

pub fn str_eq_ignore_case(a: &str, b: &str) -> (r: bool)
    ensures
        r == eq_ignore_case(a@, b@),
{
    let va = chars_of(a);
    let vb = chars_of(b);
    chars_eq_ignore_case(va.as_slice(), vb.as_slice())
}

pub open spec fn trim_start(s: Seq<char>) -> Seq<char>
    decreases s.len(),
{
    if s.len() > 0 && is_ws(s[0]) {
        trim_start(s.drop_first())
    } else {
        s
    }
}

pub open spec fn trim_end(s: Seq<char>) -> Seq<char>
    decreases s.len(),
{
    if s.len() > 0 && is_ws(s.last()) {
        trim_end(s.drop_last())
    } else {
        s
    }
}

/// `str::trim`: leading and trailing whitespace removed.
pub open spec fn trim(s: Seq<char>) -> Seq<char> {
    trim_end(trim_start(s))
}

/// Bounds `(a, b)` with `trim(v@) == v@.subrange(a, b)`, within the range `[lo, hi)`.
pub fn trim_bounds(v: &Vec<char>, lo: usize, hi: usize) -> (r: (usize, usize))
    requires
        lo <= hi <= v.len(),
    ensures
        lo <= r.0 <= r.1 <= hi,
        v@.subrange(r.0 as int, r.1 as int) == trim(v@.subrange(lo as int, hi as int)),
{
    let ghost s = v@.subrange(lo as int, hi as int);
    let mut a = lo;
    while a < hi && is_whitespace(v[a])
        invariant
            lo <= a <= hi <= v.len(),
            trim_start(s) == trim_start(v@.subrange(a as int, hi as int)),
        decreases hi - a,
    {
        assert(v@.subrange(a as int, hi as int).drop_first() =~= v@.subrange(a + 1, hi as int));
        a += 1;
    }
    assert(trim_start(s) == v@.subrange(a as int, hi as int));
    let mut b = hi;
    while b > a && is_whitespace(v[b - 1])
        invariant
            lo <= a <= b <= hi <= v.len(),
            trim(s) == trim_end(v@.subrange(a as int, b as int)),
        decreases b - a,
    {
        assert(v@.subrange(a as int, b as int).drop_last() =~= v@.subrange(a as int, b - 1));
        b -= 1;
    }
    (a, b)
}

pub fn trim_str(s: &str) -> (r: String)
    ensures
        r@ == trim(s@),
{
    let v = chars_of(s);
    let (a, b) = trim_bounds(&v, 0, v.len());
    assert(v@.subrange(0, v.len() as int) =~= v@);
    string_of_range(&v, a, b)
}


// ---------------------------------------------------------------------------
// Searching
// ---------------------------------------------------------------------------

/// The position of the first `c` in `s`.
pub open spec fn index_of(s: Seq<char>, c: char) -> Option<nat>
    decreases s.len(),
{
    if s.len() == 0 {
        None
    } else if s[0] == c {
        Some(0)
    } else {
        match index_of(s.drop_first(), c) {
            Some(i) => Some(i + 1),
            None => None,
        }
    }
}

/// The position of the last `c` in `s`.
pub open spec fn last_index_of(s: Seq<char>, c: char) -> Option<nat>
    decreases s.len(),
{
    if s.len() == 0 {
        None
    } else if s.last() == c {
        Some((s.len() - 1) as nat)
    } else {
        last_index_of(s.drop_last(), c)
    }
}

pub proof fn lemma_index_of(s: Seq<char>, c: char)
    ensures
        match index_of(s, c) {
            Some(i) => i < s.len() && s[i as int] == c && forall|j: int| 0 <= j < i ==> s[j] != c,
            None => forall|j: int| 0 <= j < s.len() ==> s[j] != c,
        },
    decreases s.len(),
{
    if s.len() > 0 && s[0] != c {
        lemma_index_of(s.drop_first(), c);
        match index_of(s.drop_first(), c) {
            Some(i) => {
                assert forall|j: int| 0 <= j < i + 1 implies s[j] != c by {
                    if j > 0 {
                        assert(s[j] == s.drop_first()[j - 1]);
                    }
                }
            },
            None => {
                assert forall|j: int| 0 <= j < s.len() implies s[j] != c by {
                    if j > 0 {
                        assert(s[j] == s.drop_first()[j - 1]);
                    }
                }
            },
        }
    }
}

pub proof fn lemma_last_index_of(s: Seq<char>, c: char)
    ensures
        match last_index_of(s, c) {
            Some(i) => i < s.len() && s[i as int] == c && forall|j: int| i < j < s.len() ==> s[j] != c,
            None => forall|j: int| 0 <= j < s.len() ==> s[j] != c,
        },
    decreases s.len(),
{
    if s.len() > 0 && s.last() != c {
        lemma_last_index_of(s.drop_last(), c);
        assert forall|j: int| 0 <= j < s.len() - 1 implies s[j] == s.drop_last()[j] by {}
    }
}

/// The position of the first `c` in `v[lo..hi]`, counted from `lo`.
pub fn find_char(v: &Vec<char>, lo: usize, hi: usize, c: char) -> (r: Option<usize>)
    requires
        lo <= hi <= v.len(),
    ensures
        match index_of(v@.subrange(lo as int, hi as int), c) {
            Some(i) => r == Some(i as usize),
            None => r is None,
        },
{
    let ghost s = v@.subrange(lo as int, hi as int);
    proof {
        lemma_index_of(s, c);
    }
    let mut i: usize = lo;
    while i < hi
        invariant
            lo <= i <= hi <= v.len(),
            s == v@.subrange(lo as int, hi as int),
            forall|j: int| 0 <= j < i - lo ==> s[j] != c,
        decreases hi - i,
    {
        if v[i] == c {
            assert(s[i - lo] == c);
            proof {
                lemma_index_of(s, c);
                match index_of(s, c) {
                    Some(k) => {
                        if k < i - lo {
                        } else if k > i - lo {
                        }
                    },
                    None => {},
                }
            }
            return Some(i - lo);
        }
        i += 1;
    }
    proof {
        lemma_index_of(s, c);
    }
    None
}

/// The position of the last `c` in `v[lo..hi]`, counted from `lo`.
pub fn rfind_char(v: &Vec<char>, lo: usize, hi: usize, c: char) -> (r: Option<usize>)
    requires
        lo <= hi <= v.len(),
    ensures
        match last_index_of(v@.subrange(lo as int, hi as int), c) {
            Some(i) => r == Some(i as usize),
            None => r is None,
        },
{
    let ghost s = v@.subrange(lo as int, hi as int);
    proof {
        lemma_last_index_of(s, c);
    }
    let mut i: usize = hi;
    while i > lo
        invariant
            lo <= i <= hi <= v.len(),
            s == v@.subrange(lo as int, hi as int),
            forall|j: int| i - lo <= j < s.len() ==> s[j] != c,
        decreases i - lo,
    {
        if v[i - 1] == c {
            assert(s[i - 1 - lo] == c);
            proof {
                lemma_last_index_of(s, c);
                match last_index_of(s, c) {
                    Some(k) => {
                        if k < i - 1 - lo {
                        } else if k > i - 1 - lo {
                        }
                    },
                    None => {},
                }
            }
            return Some(i - 1 - lo);
        }
        i -= 1;
    }
    proof {
        lemma_last_index_of(s, c);
    }
    None
}

// ---------------------------------------------------------------------------
// Splitting
// ---------------------------------------------------------------------------

/// The pieces of `v` that the ranges select, in order.
pub open spec fn pieces(v: Seq<char>, rs: Seq<(usize, usize)>) -> Seq<Seq<char>> {
    rs.map_values(|r: (usize, usize)| v.subrange(r.0 as int, r.1 as int))
}

pub open spec fn ranges_within(rs: Seq<(usize, usize)>, len: nat) -> bool {
    forall|k: int| 0 <= k < rs.len() ==> #[trigger] rs[k].0 <= rs[k].1 && rs[k].1 <= len
}

pub proof fn lemma_pieces_push(v: Seq<char>, rs: Seq<(usize, usize)>, r: (usize, usize))
    ensures
        pieces(v, rs.push(r)) == pieces(v, rs).push(v.subrange(r.0 as int, r.1 as int)),
{
    assert(pieces(v, rs.push(r)) =~= pieces(v, rs).push(v.subrange(r.0 as int, r.1 as int)));
}

/// A line without the `'\r'` that ended it before its `'\n'`.
pub open spec fn strip_cr(line: Seq<char>) -> Seq<char> {
    if line.len() > 0 && line.last() == '\r' {
        line.drop_last()
    } else {
        line
    }
}

/// `str::lines` as a left-to-right scan: `done` holds the finished lines, `cur` the
/// characters of the line being read.
pub open spec fn lines_from(s: Seq<char>, done: Seq<Seq<char>>, cur: Seq<char>) -> Seq<Seq<char>>
    decreases s.len(),
{
    if s.len() == 0 {
        if cur.len() > 0 {
            done.push(cur)
        } else {
            done
        }
    } else if s[0] == '\n' {
        lines_from(s.drop_first(), done.push(strip_cr(cur)), seq![])
    } else {
        lines_from(s.drop_first(), done, cur.push(s[0]))
    }
}

/// The lines of a text, as `str::lines` gives them: split at `'\n'`, a `'\r'` right
/// before a `'\n'` dropped, and no empty line after a final `'\n'`.
pub open spec fn lines_of(s: Seq<char>) -> Seq<Seq<char>> {
    lines_from(s, seq![], seq![])
}

/// The ranges of the lines of `v`.
pub fn line_ranges(v: &Vec<char>) -> (rs: Vec<(usize, usize)>)
    ensures
        pieces(v@, rs@) == lines_of(v@),
        ranges_within(rs@, v@.len()),
{
    let mut rs: Vec<(usize, usize)> = Vec::new();
    let mut cur: usize = 0;
    let mut i: usize = 0;
    assert(v@.skip(0) =~= v@);
    assert(v@.subrange(0, 0) =~= Seq::<char>::empty());
    assert(pieces(v@, rs@) =~= Seq::<Seq<char>>::empty());
    while i < v.len()
        invariant
            cur <= i <= v.len(),
            ranges_within(rs@, v@.len()),
            lines_of(v@) == lines_from(v@.skip(i as int), pieces(v@, rs@), v@.subrange(cur as int, i as int)),
        decreases v.len() - i,
    {
        let ghost rest = v@.skip(i as int);
        assert(rest.drop_first() =~= v@.skip(i + 1));
        if v[i] == '\n' {
            let end: usize = if i > cur && v[i - 1] == '\r' {
                i - 1
            } else {
                i
            };
            proof {
                let c = v@.subrange(cur as int, i as int);
                if i > cur && v@[i - 1] == '\r' {
                    assert(c.drop_last() =~= v@.subrange(cur as int, end as int));
                } else {
                    assert(c =~= v@.subrange(cur as int, end as int));
                }
                lemma_pieces_push(v@, rs@, (cur, end));
            }
            rs.push((cur, end));
            i += 1;
            cur = i;
            assert(v@.subrange(cur as int, i as int) =~= Seq::<char>::empty());
        } else {
            assert(v@.subrange(cur as int, i + 1) =~= v@.subrange(cur as int, i as int).push(v@[i as int]));
            i += 1;
        }
    }
    assert(v@.skip(i as int) =~= Seq::<char>::empty());
    if cur < i {
        proof {
            lemma_pieces_push(v@, rs@, (cur, i));
        }
        rs.push((cur, i));
    }
    rs
}

/// `str::split("\r\n")` with the empty pieces left out, as a left-to-right scan.
pub open spec fn crlf_lines_from(s: Seq<char>, done: Seq<Seq<char>>, cur: Seq<char>) -> Seq<Seq<char>>
    decreases s.len(),
{
    if s.len() == 0 {
        if cur.len() > 0 {
            done.push(cur)
        } else {
            done
        }
    } else if s.len() >= 2 && s[0] == '\r' && s[1] == '\n' {
        crlf_lines_from(s.skip(2), if cur.len() > 0 { done.push(cur) } else { done }, seq![])
    } else {
        crlf_lines_from(s.drop_first(), done, cur.push(s[0]))
    }
}

/// The non-empty pieces of a text split at each `"\r\n"`.
pub open spec fn crlf_lines(s: Seq<char>) -> Seq<Seq<char>> {
    crlf_lines_from(s, seq![], seq![])
}

/// The ranges of the non-empty `"\r\n"`-separated pieces of `v`.
pub fn crlf_line_ranges(v: &Vec<char>) -> (rs: Vec<(usize, usize)>)
    ensures
        pieces(v@, rs@) == crlf_lines(v@),
        ranges_within(rs@, v@.len()),
{
    let mut rs: Vec<(usize, usize)> = Vec::new();
    let mut cur: usize = 0;
    let mut i: usize = 0;
    assert(v@.skip(0) =~= v@);
    assert(v@.subrange(0, 0) =~= Seq::<char>::empty());
    assert(pieces(v@, rs@) =~= Seq::<Seq<char>>::empty());
    while i < v.len()
        invariant
            cur <= i <= v.len(),
            ranges_within(rs@, v@.len()),
            crlf_lines(v@) == crlf_lines_from(v@.skip(i as int), pieces(v@, rs@), v@.subrange(cur as int, i as int)),
        decreases v.len() - i,
    {
        let ghost rest = v@.skip(i as int);
        if i + 1 < v.len() && v[i] == '\r' && v[i + 1] == '\n' {
            assert(rest.skip(2) =~= v@.skip(i + 2));
            if cur < i {
                proof {
                    lemma_pieces_push(v@, rs@, (cur, i));
                }
                rs.push((cur, i));
            }
            i += 2;
            cur = i;
            assert(v@.subrange(cur as int, i as int) =~= Seq::<char>::empty());
        } else {
            assert(rest.drop_first() =~= v@.skip(i + 1));
            assert(v@.subrange(cur as int, i + 1) =~= v@.subrange(cur as int, i as int).push(v@[i as int]));
            i += 1;
        }
    }
    assert(v@.skip(i as int) =~= Seq::<char>::empty());
    if cur < i {
        proof {
            lemma_pieces_push(v@, rs@, (cur, i));
        }
        rs.push((cur, i));
    }
    rs
}

/// `str::split_whitespace` as a left-to-right scan.
pub open spec fn words_from(s: Seq<char>, done: Seq<Seq<char>>, cur: Seq<char>) -> Seq<Seq<char>>
    decreases s.len(),
{
    if s.len() == 0 {
        if cur.len() > 0 {
            done.push(cur)
        } else {
            done
        }
    } else if is_ws(s[0]) {
        words_from(s.drop_first(), if cur.len() > 0 { done.push(cur) } else { done }, seq![])
    } else {
        words_from(s.drop_first(), done, cur.push(s[0]))
    }
}

/// The whitespace-separated words of a text, as `str::split_whitespace` gives them.
pub open spec fn words_of(s: Seq<char>) -> Seq<Seq<char>> {
    words_from(s, seq![], seq![])
}

/// The ranges of the words of `v@.subrange(lo, hi)`.
pub fn word_ranges(v: &Vec<char>, lo: usize, hi: usize) -> (rs: Vec<(usize, usize)>)
    requires
        lo <= hi <= v.len(),
    ensures
        pieces(v@, rs@) == words_of(v@.subrange(lo as int, hi as int)),
        ranges_within(rs@, v@.len()),
{
    let mut rs: Vec<(usize, usize)> = Vec::new();
    let mut cur: usize = lo;
    let mut i: usize = lo;
    let ghost s = v@.subrange(lo as int, hi as int);
    assert(s.skip(0) =~= s);
    assert(v@.subrange(lo as int, lo as int) =~= Seq::<char>::empty());
    assert(pieces(v@, rs@) =~= Seq::<Seq<char>>::empty());
    while i < hi
        invariant
            lo <= cur <= i <= hi <= v.len(),
            s == v@.subrange(lo as int, hi as int),
            ranges_within(rs@, v@.len()),
            words_of(s) == words_from(v@.subrange(i as int, hi as int), pieces(v@, rs@), v@.subrange(cur as int, i as int)),
        decreases hi - i,
    {
        assert(v@.subrange(i as int, hi as int).drop_first() =~= v@.subrange(i + 1, hi as int));
        if is_whitespace(v[i]) {
            if cur < i {
                proof {
                    lemma_pieces_push(v@, rs@, (cur, i));
                }
                rs.push((cur, i));
            }
            i += 1;
            cur = i;
            assert(v@.subrange(cur as int, i as int) =~= Seq::<char>::empty());
        } else {
            assert(v@.subrange(cur as int, i + 1) =~= v@.subrange(cur as int, i as int).push(v@[i as int]));
            i += 1;
        }
    }
    assert(v@.subrange(i as int, hi as int) =~= Seq::<char>::empty());
    if cur < i {
        proof {
            lemma_pieces_push(v@, rs@, (cur, i));
        }
        rs.push((cur, i));
    }
    rs
}


// ---------------------------------------------------------------------------
// Decimal numbers
// ---------------------------------------------------------------------------

pub open spec fn digit_char(d: nat) -> char {
    (('0' as u32) + d) as char
}

pub open spec fn digit_value(c: char) -> nat {
    ((c as u32) - ('0' as u32)) as nat
}

/// The shortest decimal representation of `n`.
pub open spec fn dec(n: nat) -> Seq<char>
    decreases n,
{
    if n < 10 {
        seq![digit_char(n)]
    } else {
        dec(n / 10).push(digit_char(n % 10))
    }
}

/// Appends the decimal representation of `n`.
pub fn push_decimal(out: &mut Vec<char>, n: u64)
    ensures
        final(out)@ == old(out)@ + dec(n as nat),
    decreases n,
{
    if n < 10 {
        let c: char = ((n as u8) + 48) as char;
        out.push(c);
        assert(old(out)@ + dec(n as nat) =~= old(out)@.push(c));
    } else {
        push_decimal(out, n / 10);
        let c: char = (((n % 10) as u8) + 48) as char;
        out.push(c);
        assert(old(out)@ + dec(n as nat) =~= old(out)@ + dec((n / 10) as nat) + seq![c]);
    }
}

/// `n.to_string()` for an unsigned integer.
pub fn decimal_string(n: u64) -> (s: String)
    ensures
        s@ == dec(n as nat),
{
    let mut v: Vec<char> = Vec::new();
    push_decimal(&mut v, n);
    assert(v@ =~= dec(n as nat));
    string_from_chars(v.as_slice())
}

/// The value of a string of decimal digits.
pub open spec fn digits_value(s: Seq<char>) -> nat
    decreases s.len(),
{
    if s.len() == 0 {
        0
    } else {
        10 * digits_value(s.drop_last()) + digit_value(s.last())
    }
}

pub open spec fn all_digits(s: Seq<char>) -> bool {
    forall|i: int| 0 <= i < s.len() ==> is_ascii_digit(#[trigger] s[i])
}

/// `FromStr` for an unsigned integer type whose largest value is `max`: an optional
/// `'+'`, then one or more ASCII digits whose value does not exceed `max`.
pub open spec fn parse_unsigned(s: Seq<char>, max: nat) -> Option<nat> {
    let body = if s.len() > 0 && s[0] == '+' {
        s.drop_first()
    } else {
        s
    };
    if body.len() > 0 && all_digits(body) && digits_value(body) <= max {
        Some(digits_value(body))
    } else {
        None
    }
}

/// `i64::from_str`: an optional sign, then one or more ASCII digits, in range.
pub open spec fn parse_signed64(s: Seq<char>) -> Option<int> {
    if s.len() > 0 && s[0] == '-' {
        let body = s.drop_first();
        if body.len() > 0 && all_digits(body) && digits_value(body) <= 0x8000_0000_0000_0000 {
            Some(-(digits_value(body) as int))
        } else {
            None
        }
    } else {
        match parse_unsigned(s, 0x7fff_ffff_ffff_ffff) {
            Some(n) => Some(n as int),
            None => None,
        }
    }
}

proof fn lemma_digits_value_prefix(s: Seq<char>, k: int)
    requires
        0 <= k <= s.len(),
        all_digits(s),
    ensures
        digits_value(s.take(k)) <= digits_value(s),
    decreases s.len(),
{
    if k < s.len() {
        lemma_digits_value_prefix(s.drop_last(), k);
        assert(s.drop_last().take(k) =~= s.take(k));
    } else {
        assert(s.take(k) =~= s);
    }
}

/// The value of the digits `v[lo..hi]`, if they are all digits and the value is at most `max`.
fn digits_in_range(v: &Vec<char>, lo: usize, hi: usize, max: u64) -> (r: Option<u64>)
    requires
        lo <= hi <= v.len(),
    ensures
        ({
            let s = v@.subrange(lo as int, hi as int);
            match r {
                Some(n) => all_digits(s) && digits_value(s) <= max && n == digits_value(s),
                None => !all_digits(s) || digits_value(s) > max,
            }
        }),
{
    let ghost s = v@.subrange(lo as int, hi as int);
    let mut val: u64 = 0;
    let mut i: usize = lo;
    assert(s.take(0) =~= Seq::<char>::empty());
    while i < hi
        invariant
            lo <= i <= hi <= v.len(),
            s == v@.subrange(lo as int, hi as int),
            all_digits(s.take(i - lo)),
            val == digits_value(s.take(i - lo)),
            val <= max,
        decreases hi - i,
    {
        let c = v[i];
        assert(s[i - lo] == c);
        if !('0' <= c && c <= '9') {
            return None;
        }
        let d: u64 = ((c as u32) - 48) as u64;
        assert(s.take(i - lo + 1).drop_last() =~= s.take(i - lo));
        assert(s.take(i - lo + 1).last() == c);
        assert(all_digits(s.take(i - lo + 1)));
        if d > max || val > (max - d) / 10 {
            proof {
                assert(digits_value(s.take(i - lo + 1)) == 10 * val + d);
                assert(10 * val + d > max);
                if all_digits(s) {
                    lemma_digits_value_prefix(s, i - lo + 1);
                }
            }
            return None;
        }
        val = val * 10 + d;
        i += 1;
    }
    assert(s.take(hi - lo) =~= s);
    Some(val)
}

pub proof fn lemma_dec_digits(n: nat)
    ensures
        dec(n).len() > 0,
        all_digits(dec(n)),
        digits_value(dec(n)) == n,
        dec(n)[0] != '+' && dec(n)[0] != '-',
    decreases n,
{
    let c = digit_char(n % 10);
    assert(digit_value(c) == n % 10);
    if n >= 10 {
        lemma_dec_digits(n / 10);
        let d = dec(n);
        assert(d.drop_last() =~= dec(n / 10));
        assert(d.last() == c);
        assert(digits_value(d) == 10 * digits_value(dec(n / 10)) + digit_value(c));
        assert(10 * (n / 10) + n % 10 == n);
        assert forall|i: int| 0 <= i < d.len() implies is_ascii_digit(#[trigger] d[i]) by {
            if i < d.len() - 1 {
                assert(d[i] == dec(n / 10)[i]);
            }
        }
    } else {
        assert(digit_value(digit_char(n)) == n);
        assert(dec(n).drop_last() =~= Seq::<char>::empty());
        assert(digits_value(dec(n)) == 10 * digits_value(Seq::<char>::empty()) + digit_value(dec(n).last()));
    }
}

/// Reading back the decimal text of a number gives the number: `n.to_string().parse()` is
/// `n`, for every `n` that fits the type.
pub proof fn law_decimal_roundtrip(n: nat, max: nat)
    requires
        n <= max,
    ensures
        parse_unsigned(dec(n), max) == Some(n),
{
    lemma_dec_digits(n);
}

/// The unsigned value written in `v[lo..hi]` (`FromStr` for an unsigned type bounded by `max`).
pub fn parse_unsigned_range(v: &Vec<char>, lo: usize, hi: usize, max: u64) -> (r: Option<u64>)
    requires
        lo <= hi <= v.len(),
    ensures
        match parse_unsigned(v@.subrange(lo as int, hi as int), max as nat) {
            Some(n) => r == Some(n as u64),
            None => r is None,
        },
{
    let ghost s = v@.subrange(lo as int, hi as int);
    let start: usize = if lo < hi && v[lo] == '+' {
        lo + 1
    } else {
        lo
    };
    assert(lo < hi && v@[lo as int] == '+' ==> s.drop_first() =~= v@.subrange(lo + 1, hi as int));
    if start == hi {
        return None;
    }
    digits_in_range(v, start, hi, max)
}

/// `str::parse::<u64>().ok()`.
pub fn parse_u64(s: &str) -> (r: Option<u64>)
    ensures
        match parse_unsigned(s@, u64::MAX as nat) {
            Some(n) => r == Some(n as u64),
            None => r is None,
        },
{
    let v = chars_of(s);
    assert(v@.subrange(0, v.len() as int) =~= v@);
    parse_unsigned_range(&v, 0, v.len(), u64::MAX)
}

/// `str::parse::<u16>().ok()` on `v[lo..hi]`.
pub fn parse_u16_range(v: &Vec<char>, lo: usize, hi: usize) -> (r: Option<u16>)
    requires
        lo <= hi <= v.len(),
    ensures
        match parse_unsigned(v@.subrange(lo as int, hi as int), u16::MAX as nat) {
            Some(n) => r == Some(n as u16),
            None => r is None,
        },
{
    match parse_unsigned_range(v, lo, hi, 0xffff) {
        Some(n) => Some(n as u16),
        None => None,
    }
}

/// `str::parse::<i64>().ok()` on `v[lo..hi]`.
pub fn parse_i64_range(v: &Vec<char>, lo: usize, hi: usize) -> (r: Option<i64>)
    requires
        lo <= hi <= v.len(),
    ensures
        match parse_signed64(v@.subrange(lo as int, hi as int)) {
            Some(n) => r == Some(n as i64),
            None => r is None,
        },
{
    let ghost s = v@.subrange(lo as int, hi as int);
    if lo < hi && v[lo] == '-' {
        assert(s.drop_first() =~= v@.subrange(lo + 1, hi as int));
        if lo + 1 == hi {
            return None;
        }
        match digits_in_range(v, lo + 1, hi, 0x8000_0000_0000_0000) {
            Some(n) => {
                if n == 0x8000_0000_0000_0000 {
                    Some(i64::MIN)
                } else {
                    Some(-(n as i64))
                }
            },
            None => None,
        }
    } else {
        match parse_unsigned_range(v, lo, hi, 0x7fff_ffff_ffff_ffff) {
            Some(n) => Some(n as i64),
            None => None,
        }
    }
}

} // verus!
