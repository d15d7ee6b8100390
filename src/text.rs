//! Small character-level helpers on string slices.
use vstd::prelude::*;
use vstd::string::*;

verus! {

/// Whether two slices hold the same characters.
pub fn str_eq(a: &str, b: &str) -> (r: bool)
    ensures
        r == (a@ == b@),
{
    let n = a.unicode_len();
    let m = b.unicode_len();
    if n != m {
        return false;
    }
    let mut i: usize = 0;
    while i < n
        invariant
            n == a@.len(),
            m == b@.len(),
            n == m,
            i <= n,
            a@.subrange(0, i as int) == b@.subrange(0, i as int),
        decreases n - i,
    {
        if a.get_char(i) != b.get_char(i) {
            assert(a@[i as int] != b@[i as int]);
            return false;
        }
        assert(a@.subrange(0, i + 1) == a@.subrange(0, i as int).push(a@[i as int]));
        assert(b@.subrange(0, i + 1) == b@.subrange(0, i as int).push(b@[i as int]));
        i = i + 1;
    }
    assert(a@ == a@.subrange(0, n as int));
    assert(b@ == b@.subrange(0, n as int));
    true
}

/// Finds the first occurrence of `c` in `s`.
pub fn find_char(s: &str, c: char) -> (r: Option<usize>)
    ensures
        match r {
            Some(k) => k < s@.len() && s@[k as int] == c && forall|j: int| 0 <= j < k ==> s@[j] != c,
            None => forall|j: int| 0 <= j < s@.len() ==> s@[j] != c,
        },
{
    let n = s.unicode_len();
    let mut i: usize = 0;
    while i < n
        invariant
            n == s@.len(),
            i <= n,
            forall|j: int| 0 <= j < i ==> s@[j] != c,
        decreases n - i,
    {
        if s.get_char(i) == c {
            return Some(i);
        }
        i = i + 1;
    }
    None
}

/// An owned copy of the characters of `s` from `from` up to `to`.
pub fn slice_owned(s: &str, from: usize, to: usize) -> (r: String)
    requires
        from <= to <= s@.len(),
    ensures
        r@ == s@.subrange(from as int, to as int),
{
    s.substring_char(from, to).to_owned()
}

/// `k` is the position of the first `c` in `s`.
pub open spec fn is_first_at(s: Seq<char>, c: char, k: int) -> bool {
    0 <= k < s.len() && s[k] == c && forall|j: int| 0 <= j < k ==> s[j] != c
}

/// The parts of `s` before and after its first `c`, if it holds one.
pub open spec fn split_once_spec(s: Seq<char>, c: char) -> Option<(Seq<char>, Seq<char>)> {
    if exists|k: int| is_first_at(s, c, k) {
        let k = choose|k: int| is_first_at(s, c, k);
        Some((s.subrange(0, k), s.subrange(k + 1, s.len() as int)))
    } else {
        None
    }
}

proof fn lemma_first_unique(s: Seq<char>, c: char, k1: int, k2: int)
    requires
        is_first_at(s, c, k1),
        is_first_at(s, c, k2),
    ensures
        k1 == k2,
{
    if k1 < k2 {
        assert(s[k1] != c);
    } else if k2 < k1 {
        assert(s[k2] != c);
    }
}

/// Splits `s` at its first `c`, dropping the `c`.
pub fn split_once(s: &str, c: char) -> (r: Option<(String, String)>)
    ensures
        match (r, split_once_spec(s@, c)) {
            (Some(got), Some(want)) => got.0@ == want.0 && got.1@ == want.1,
            (None, None) => true,
            _ => false,
        },
{
    match find_char(s, c) {
        Some(k) => {
            proof {
                assert(is_first_at(s@, c, k as int));
                let j = choose|j: int| is_first_at(s@, c, j);
                lemma_first_unique(s@, c, j, k as int);
            }
            let n = s.unicode_len();
            Some((slice_owned(s, 0, k), slice_owned(s, k + 1, n)))
        },
        None => {
            assert(!exists|k: int| is_first_at(s@, c, k));
            None
        },
    }
}

/// A line without the carriage return that may end it.
pub open spec fn strip_cr(s: Seq<char>) -> Seq<char> {
    if s.len() > 0 && s.last() == '\r' {
        s.drop_last()
    } else {
        s
    }
}

/// The lines of a text: the pieces between line feeds, each without a final
/// carriage return; a final line feed does not start another line.
pub open spec fn spec_lines(s: Seq<char>) -> Seq<Seq<char>>
    decreases s.len(),
{
    match split_once_spec(s, '\n') {
        Some(parts) => {
            if parts.1.len() < s.len() {
                seq![strip_cr(parts.0)] + spec_lines(parts.1)
            } else {
                seq![strip_cr(parts.0)]
            }
        },
        None => if s.len() == 0 {
            Seq::empty()
        } else {
            seq![strip_cr(s)]
        },
    }
}

proof fn lemma_split_shorter(s: Seq<char>, c: char)
    requires
        split_once_spec(s, c) is Some,
    ensures
        split_once_spec(s, c)->Some_0.1.len() < s.len(),
{
    let k = choose|k: int| is_first_at(s, c, k);
}

fn strip_cr_owned(s: &str) -> (r: String)
    ensures
        r@ == strip_cr(s@),
{
    let n = s.unicode_len();
    if n > 0 && s.get_char(n - 1) == '\r' {
        slice_owned(s, 0, n - 1)
    } else {
        assert(s@.subrange(0, n as int) == s@);
        slice_owned(s, 0, n)
    }
}

/// The lines of `s`.
pub fn lines(s: &str) -> (r: Vec<String>)
    ensures
        r@.map_values(|l: String| l@) == spec_lines(s@),
{
    let mut out: Vec<String> = Vec::new();
    let mut rest: String = s.to_owned();
    loop
        invariant
            spec_lines(s@) == out@.map_values(|l: String| l@) + spec_lines(rest@),
        decreases rest@.len(),
    {
        match split_once(rest.as_str(), '\n') {
            Some((line, after)) => {
                proof { lemma_split_shorter(rest@, '\n'); }
                let ghost old_out = out@;
                let ghost old_rest = rest@;
                out.push(strip_cr_owned(line.as_str()));
                assert(out@.map_values(|l: String| l@) =~= old_out.map_values(|l: String| l@).push(strip_cr(line@)));
                assert(spec_lines(old_rest) == seq![strip_cr(line@)] + spec_lines(after@));
                rest = after;
                assert(spec_lines(s@) =~= out@.map_values(|l: String| l@) + spec_lines(rest@));
            },
            None => {
                let n = rest.unicode_len();
                if n > 0 {
                    let ghost old_out = out@;
                    out.push(strip_cr_owned(rest.as_str()));
                    assert(out@.map_values(|l: String| l@) =~= old_out.map_values(|l: String| l@).push(strip_cr(rest@)));
                    assert(spec_lines(s@) =~= out@.map_values(|l: String| l@));
                } else {
                    assert(spec_lines(s@) =~= out@.map_values(|l: String| l@));
                }
                return out;
            },
        }
    }
}

/// `pat` occurs in `s` at position `i`.
pub open spec fn occurs_at(s: Seq<char>, pat: Seq<char>, i: int) -> bool {
    0 <= i && i + pat.len() <= s.len() && s.subrange(i, i + pat.len()) == pat
}

/// Whether `pat` occurs in `s`.
pub fn str_contains(s: &str, pat: &str) -> (r: bool)
    ensures
        r == exists|i: int| occurs_at(s@, pat@, i),
{
    let n = s.unicode_len();
    let m = pat.unicode_len();
    if m > n {
        return false;
    }
    if m == 0 {
        assert(s@.subrange(0, 0) =~= pat@);
        assert(occurs_at(s@, pat@, 0));
        return true;
    }
    let mut i: usize = 0;
    let last = n - m;
    while i <= last
        invariant
            last == n - m,
            m >= 1,
            n == s@.len(),
            m == pat@.len(),
            m <= n,
            i <= n - m + 1,
            forall|j: int| 0 <= j < i ==> !occurs_at(s@, pat@, j),
        decreases last + 1 - i,
    {
        let piece = s.substring_char(i, i + m);
        if str_eq(piece, pat) {
            assert(occurs_at(s@, pat@, i as int));
            return true;
        }
        i = i + 1;
    }
    assert forall|j: int| !occurs_at(s@, pat@, j) by {
        if 0 <= j && j + m <= n {
            assert(j < i);
        }
    }
    false
}

/// Whether `s` begins with `pat`.
pub fn starts_with(s: &str, pat: &str) -> (r: bool)
    ensures
        r == (pat@.len() <= s@.len() && s@.subrange(0, pat@.len() as int) == pat@),
{
    let n = s.unicode_len();
    let m = pat.unicode_len();
    if m > n {
        return false;
    }
    str_eq(s.substring_char(0, m), pat)
}

/// The part of `s` before its first `c`, or all of it.
pub open spec fn before_char(s: Seq<char>, c: char) -> Seq<char> {
    match split_once_spec(s, c) {
        Some(parts) => parts.0,
        None => s,
    }
}

/// The part of `s` before its first `c`, or all of it.
pub fn before_char_owned(s: &str, c: char) -> (r: String)
    ensures
        r@ == before_char(s@, c),
{
    match split_once(s, c) {
        Some((before, _)) => before,
        None => s.to_owned(),
    }
}

/// The characters with Unicode's White_Space property.
pub open spec fn is_white_space(c: char) -> bool {
    let u = c as u32;
    (0x9 <= u && u <= 0xD) || u == 0x20 || u == 0x85 || u == 0xA0 || u == 0x1680 || (0x2000 <= u && u <= 0x200A)
        || u == 0x2028 || u == 0x2029 || u == 0x202F || u == 0x205F || u == 0x3000
}

fn white_space(c: char) -> (r: bool)
    ensures
        r == is_white_space(c),
{
    let u = c as u32;
    (0x9 <= u && u <= 0xD) || u == 0x20 || u == 0x85 || u == 0xA0 || u == 0x1680 || (0x2000 <= u && u <= 0x200A)
        || u == 0x2028 || u == 0x2029 || u == 0x202F || u == 0x205F || u == 0x3000
}

/// `s` without leading white space.
pub open spec fn trim_start(s: Seq<char>) -> Seq<char>
    decreases s.len(),
{
    if s.len() > 0 && is_white_space(s[0]) {
        trim_start(s.drop_first())
    } else {
        s
    }
}

/// `s` without trailing white space.
pub open spec fn trim_end(s: Seq<char>) -> Seq<char>
    decreases s.len(),
{
    if s.len() > 0 && is_white_space(s.last()) {
        trim_end(s.drop_last())
    } else {
        s
    }
}

/// `s` without leading and trailing white space.
pub open spec fn trimmed(s: Seq<char>) -> Seq<char> {
    trim_end(trim_start(s))
}

/// `s` without leading and trailing white space.
pub fn trim(s: &str) -> (r: String)
    ensures
        r@ == trimmed(s@),
{
    let n = s.unicode_len();
    let mut lo: usize = 0;
    assert(s@.subrange(0, n as int) == s@);
    while lo < n && white_space(s.get_char(lo))
        invariant
            lo <= n,
            n == s@.len(),
            trim_start(s@) == trim_start(s@.subrange(lo as int, n as int)),
        decreases n - lo,
    {
        assert(s@.subrange(lo as int, n as int).drop_first() =~= s@.subrange(lo + 1, n as int));
        lo = lo + 1;
    }
    let ghost t = s@.subrange(lo as int, n as int);
    assert(trim_start(t) == t);
    let mut hi: usize = n;
    assert(t.subrange(0, (n - lo) as int) == t);
    while hi > lo && white_space(s.get_char(hi - 1))
        invariant
            lo <= hi <= n,
            n == s@.len(),
            t == s@.subrange(lo as int, n as int),
            trim_end(t) == trim_end(s@.subrange(lo as int, hi as int)),
        decreases hi,
    {
        assert(s@.subrange(lo as int, hi as int).drop_last() =~= s@.subrange(lo as int, hi - 1));
        hi = hi - 1;
    }
    slice_owned(s, lo, hi)
}

} // verus!
