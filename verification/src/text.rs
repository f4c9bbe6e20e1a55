//! Character-level text primitives shared by the tools: whitespace, trimming,
//! line splitting, substring search and replacement, joining and decimal
//! rendering. Strings are modelled by their `Seq<char>` views.
use vstd::prelude::*;

verus! {

// ---------------------------------------------------------------------------
// Specifications
// ---------------------------------------------------------------------------

/// Unicode `White_Space`, which is what `char::is_whitespace` tests.
pub open spec fn is_ws(c: char) -> bool {
    let u = c as u32;
    (0x09 <= u && u <= 0x0d) || u == 0x20 || u == 0x85 || u == 0xa0 || u == 0x1680
        || (0x2000 <= u && u <= 0x200a) || u == 0x2028 || u == 0x2029 || u == 0x202f
        || u == 0x205f || u == 0x3000
}

/// Number of leading whitespace characters.
pub open spec fn ws_prefix_len(s: Seq<char>) -> nat
    decreases s.len(),
{
    if s.len() > 0 && is_ws(s[0]) {
        1 + ws_prefix_len(s.drop_first())
    } else {
        0
    }
}

/// Number of trailing whitespace characters.
pub open spec fn ws_suffix_len(s: Seq<char>) -> nat
    decreases s.len(),
{
    if s.len() > 0 && is_ws(s.last()) {
        1 + ws_suffix_len(s.drop_last())
    } else {
        0
    }
}

/// `str::trim_start`.
pub open spec fn trim_start(s: Seq<char>) -> Seq<char> {
    s.skip(ws_prefix_len(s) as int)
}

/// `str::trim_end`.
pub open spec fn trim_end(s: Seq<char>) -> Seq<char> {
    s.take(s.len() - ws_suffix_len(s))
}

/// `str::trim`.
pub open spec fn trim(s: Seq<char>) -> Seq<char> {
    trim_end(trim_start(s))
}

/// Number of bytes of the UTF-8 encoding of `c`.
pub open spec fn utf8_width(c: char) -> nat {
    let u = c as u32;
    if u < 0x80 {
        1
    } else if u < 0x800 {
        2
    } else if u < 0x10000 {
        3
    } else {
        4
    }
}

/// Number of bytes of the UTF-8 encoding of `s` (what `str::len` returns).
pub open spec fn utf8_len(s: Seq<char>) -> nat
    decreases s.len(),
{
    if s.len() == 0 {
        0
    } else {
        utf8_width(s[0]) + utf8_len(s.drop_first())
    }
}


/// Number of leading non-whitespace characters.
pub open spec fn nonws_prefix_len(s: Seq<char>) -> nat
    decreases s.len(),
{
    if s.len() > 0 && !is_ws(s[0]) {
        1 + nonws_prefix_len(s.drop_first())
    } else {
        0
    }
}

/// `str::split_whitespace`: the maximal runs of non-whitespace characters.
pub open spec fn words(s: Seq<char>) -> Seq<Seq<char>>
    decreases s.len(),
{
    let t = trim_start(s);
    if t.len() == 0 {
        seq![]
    } else {
        proof {
            lemma_ws_prefix_bound(s);
            lemma_nonws_prefix_bound(t);
        }
        let k = nonws_prefix_len(t);
        seq![t.take(k as int)] + words(t.skip(k as int))
    }
}

/// Index of the first occurrence of `c` in `s`, or -1.
pub open spec fn index_of(s: Seq<char>, c: char) -> int
    decreases s.len(),
{
    if s.len() == 0 {
        -1
    } else if s[0] == c {
        0
    } else {
        let r = index_of(s.drop_first(), c);
        if r < 0 {
            -1
        } else {
            r + 1
        }
    }
}

/// `s` with one trailing `'\r'` removed, if present.
pub open spec fn strip_cr(s: Seq<char>) -> Seq<char> {
    if s.len() > 0 && s.last() == '\r' {
        s.drop_last()
    } else {
        s
    }
}

/// `str::lines`: split on `'\n'`, drop one `'\r'` before each `'\n'`, and
/// yield no final empty line after a trailing `'\n'`.
pub open spec fn lines_of(s: Seq<char>) -> Seq<Seq<char>>
    decreases s.len(),
{
    if s.len() == 0 {
        seq![]
    } else {
        let k = index_of(s, '\n');
        if k < 0 {
            seq![s]
        } else {
            proof {
                lemma_index_of_props(s, '\n');
            }
            seq![strip_cr(s.take(k))] + lines_of(s.skip(k + 1))
        }
    }
}

/// `str::split(c)` for a single character separator.
pub open spec fn split_on(s: Seq<char>, c: char) -> Seq<Seq<char>>
    decreases s.len(),
{
    let k = index_of(s, c);
    if k < 0 {
        seq![s]
    } else {
        proof {
            lemma_index_of_props(s, c);
        }
        seq![s.take(k)] + split_on(s.skip(k + 1), c)
    }
}

/// Parts joined with `sep` between consecutive parts (`[..].join(sep)`).
pub open spec fn join(parts: Seq<Seq<char>>, sep: Seq<char>) -> Seq<char>
    decreases parts.len(),
{
    if parts.len() == 0 {
        seq![]
    } else if parts.len() == 1 {
        parts[0]
    } else {
        join(parts.drop_last(), sep) + sep + parts.last()
    }
}

/// `s` begins with `p`.
pub open spec fn starts_with(s: Seq<char>, p: Seq<char>) -> bool {
    p.len() <= s.len() && s.take(p.len() as int) == p
}

/// `s` ends with `p`.
pub open spec fn ends_with(s: Seq<char>, p: Seq<char>) -> bool {
    p.len() <= s.len() && s.skip(s.len() - p.len()) == p
}

/// `p` occurs in `s` at position `i`.
pub open spec fn occurs_at(s: Seq<char>, p: Seq<char>, i: int) -> bool {
    0 <= i && i + p.len() <= s.len() && s.subrange(i, i + p.len()) == p
}

/// `s` contains `p` (`str::contains`).
pub open spec fn contains(s: Seq<char>, p: Seq<char>) -> bool {
    exists|i: int| occurs_at(s, p, i)
}


/// First position `>= i` at which `p` occurs in `s`, or -1.
pub open spec fn find_from(s: Seq<char>, p: Seq<char>, i: int) -> int
    decreases s.len() + 1 - i,
{
    if i < 0 || i + p.len() > s.len() {
        -1
    } else if occurs_at(s, p, i) {
        i
    } else {
        find_from(s, p, i + 1)
    }
}

/// Number of non-overlapping occurrences of a non-empty `p` in `s[i..]`,
/// scanning left to right.
pub open spec fn count_ne(s: Seq<char>, p: Seq<char>, i: int) -> nat
    decreases s.len() + 1 - i,
{
    let k = find_from(s, p, i);
    if k < 0 || p.len() == 0 {
        0
    } else {
        proof {
            lemma_find_from_props(s, p, i);
        }
        1 + count_ne(s, p, k + p.len())
    }
}

/// `s.matches(p).count()`: an empty pattern matches at every character
/// boundary.
pub open spec fn count_matches(s: Seq<char>, p: Seq<char>) -> nat {
    if p.len() == 0 {
        s.len() + 1
    } else {
        count_ne(s, p, 0)
    }
}

/// `s[i..]` with every non-overlapping occurrence of a non-empty `p`
/// replaced by `r`.
pub open spec fn replace_ne(s: Seq<char>, p: Seq<char>, r: Seq<char>, i: int) -> Seq<char>
    decreases s.len() + 1 - i,
{
    let k = find_from(s, p, i);
    if k < 0 || p.len() == 0 {
        s.subrange(i, s.len() as int)
    } else {
        proof {
            lemma_find_from_props(s, p, i);
        }
        s.subrange(i, k) + r + replace_ne(s, p, r, k + p.len())
    }
}

/// `r` inserted at every character boundary of `s` (`s.replace("", r)`).
pub open spec fn replace_empty(s: Seq<char>, r: Seq<char>) -> Seq<char>
    decreases s.len(),
{
    if s.len() == 0 {
        r
    } else {
        r.push(s[0]) + replace_empty(s.drop_first(), r)
    }
}

/// `str::replace(p, r)`.
pub open spec fn replaced_all(s: Seq<char>, p: Seq<char>, r: Seq<char>) -> Seq<char> {
    if p.len() == 0 {
        replace_empty(s, r)
    } else {
        replace_ne(s, p, r, 0)
    }
}

/// `str::replacen(p, r, 1)`.
pub open spec fn replaced_first(s: Seq<char>, p: Seq<char>, r: Seq<char>) -> Seq<char> {
    let k = find_from(s, p, 0);
    if k < 0 {
        s
    } else {
        s.take(k) + r + s.skip(k + p.len())
    }
}

/// Decimal rendering of `n`, as `Display` for unsigned integers prints it.
pub open spec fn decimal(n: nat) -> Seq<char>
    decreases n,
{
    if n < 10 {
        seq![digit_char(n)]
    } else {
        decimal(n / 10).push(digit_char(n % 10))
    }
}

/// The ASCII digit for `d < 10`.
pub open spec fn digit_char(d: nat) -> char {
    if d == 0 { '0' }
    else if d == 1 { '1' }
    else if d == 2 { '2' }
    else if d == 3 { '3' }
    else if d == 4 { '4' }
    else if d == 5 { '5' }
    else if d == 6 { '6' }
    else if d == 7 { '7' }
    else if d == 8 { '8' }
    else { '9' }
}

/// Views of a sequence of character vectors.
pub open spec fn views(v: Seq<Vec<char>>) -> Seq<Seq<char>> {
    v.map_values(|x: Vec<char>| x@)
}

// ---------------------------------------------------------------------------
// Lemmas
// ---------------------------------------------------------------------------

pub proof fn lemma_index_of_found(s: Seq<char>, c: char, j: int)
    requires
        0 <= j < s.len(),
        s[j] == c,
        forall|k: int| 0 <= k < j ==> s[k] != c,
    ensures
        index_of(s, c) == j,
    decreases s.len(),
{
    if j > 0 {
        lemma_index_of_found(s.drop_first(), c, j - 1);
    }
}

pub proof fn lemma_index_of_absent(s: Seq<char>, c: char)
    requires
        forall|k: int| 0 <= k < s.len() ==> s[k] != c,
    ensures
        index_of(s, c) == -1,
    decreases s.len(),
{
    if s.len() > 0 {
        lemma_index_of_absent(s.drop_first(), c);
    }
}

pub proof fn lemma_index_of_props(s: Seq<char>, c: char)
    ensures
        -1 <= index_of(s, c) < s.len(),
        index_of(s, c) >= 0 ==> s[index_of(s, c)] == c,
        index_of(s, c) >= 0 ==> forall|k: int| 0 <= k < index_of(s, c) ==> s[k] != c,
        index_of(s, c) < 0 ==> forall|k: int| 0 <= k < s.len() ==> s[k] != c,
    decreases s.len(),
{
    if s.len() > 0 {
        lemma_index_of_props(s.drop_first(), c);
        if s[0] != c {
            assert forall|k: int| 0 <= k < s.len() && index_of(s, c) < 0 implies s[k] != c by {
                if k > 0 {
                    assert(s[k] == s.drop_first()[k - 1]);
                }
            }
            assert forall|k: int| 0 <= k < index_of(s, c) implies s[k] != c by {
                if k > 0 {
                    assert(s[k] == s.drop_first()[k - 1]);
                }
            }
        }
    }
}


pub proof fn lemma_find_from_props(s: Seq<char>, p: Seq<char>, i: int)
    ensures
        find_from(s, p, i) == -1 || (i <= find_from(s, p, i) && occurs_at(
            s,
            p,
            find_from(s, p, i),
        )),
        find_from(s, p, i) >= 0 ==> forall|j: int|
            i <= j < find_from(s, p, i) ==> !occurs_at(s, p, j),
        (find_from(s, p, i) == -1 && 0 <= i) ==> forall|j: int| i <= j ==> !occurs_at(s, p, j),
    decreases s.len() + 1 - i,
{
    if i < 0 || i + p.len() > s.len() {
    } else if occurs_at(s, p, i) {
    } else {
        lemma_find_from_props(s, p, i + 1);
    }
}

pub proof fn lemma_find_from_found(s: Seq<char>, p: Seq<char>, i: int, k: int)
    requires
        0 <= i <= k,
        occurs_at(s, p, k),
        forall|j: int| i <= j < k ==> !occurs_at(s, p, j),
    ensures
        find_from(s, p, i) == k,
    decreases k - i,
{
    if i < k {
        lemma_find_from_found(s, p, i + 1, k);
    }
}

pub proof fn lemma_find_from_none(s: Seq<char>, p: Seq<char>, i: int)
    requires
        0 <= i,
        forall|j: int| i <= j ==> !occurs_at(s, p, j),
    ensures
        find_from(s, p, i) == -1,
    decreases s.len() + 1 - i,
{
    if i + p.len() <= s.len() {
        lemma_find_from_none(s, p, i + 1);
    }
}


pub proof fn lemma_ws_prefix_bound(s: Seq<char>)
    ensures
        ws_prefix_len(s) <= s.len(),
        forall|k: int| 0 <= k < ws_prefix_len(s) ==> is_ws(s[k]),
        ws_prefix_len(s) < s.len() ==> !is_ws(s[ws_prefix_len(s) as int]),
    decreases s.len(),
{
    if s.len() > 0 && is_ws(s[0]) {
        lemma_ws_prefix_bound(s.drop_first());
        assert forall|k: int| 0 <= k < ws_prefix_len(s) implies is_ws(s[k]) by {
            if k > 0 {
                assert(s[k] == s.drop_first()[k - 1]);
            }
        }
    }
}

pub proof fn lemma_nonws_prefix_bound(s: Seq<char>)
    ensures
        nonws_prefix_len(s) <= s.len(),
        s.len() > 0 && !is_ws(s[0]) ==> nonws_prefix_len(s) >= 1,
        forall|k: int| 0 <= k < nonws_prefix_len(s) ==> !is_ws(s[k]),
        nonws_prefix_len(s) < s.len() ==> is_ws(s[nonws_prefix_len(s) as int]),
    decreases s.len(),
{
    if s.len() > 0 && !is_ws(s[0]) {
        lemma_nonws_prefix_bound(s.drop_first());
        assert forall|k: int| 0 <= k < nonws_prefix_len(s) implies !is_ws(s[k]) by {
            if k > 0 {
                assert(s[k] == s.drop_first()[k - 1]);
            }
        }
    }
}

pub proof fn lemma_nonws_prefix(s: Seq<char>, i: int)
    requires
        0 <= i <= s.len(),
        forall|k: int| 0 <= k < i ==> !is_ws(s[k]),
        i == s.len() || is_ws(s[i]),
    ensures
        nonws_prefix_len(s) == i,
    decreases s.len(),
{
    if i > 0 {
        lemma_nonws_prefix(s.drop_first(), i - 1);
    }
}

pub proof fn lemma_ws_prefix(s: Seq<char>, i: int)
    requires
        0 <= i <= s.len(),
        forall|k: int| 0 <= k < i ==> is_ws(s[k]),
        i == s.len() || !is_ws(s[i]),
    ensures
        ws_prefix_len(s) == i,
    decreases s.len(),
{
    if i > 0 {
        lemma_ws_prefix(s.drop_first(), i - 1);
    }
}

pub proof fn lemma_ws_suffix(s: Seq<char>, i: int)
    requires
        0 <= i <= s.len(),
        forall|k: int| s.len() - i <= k < s.len() ==> is_ws(s[k]),
        i == s.len() || !is_ws(s[s.len() - i - 1]),
    ensures
        ws_suffix_len(s) == i,
    decreases s.len(),
{
    if i > 0 {
        lemma_ws_suffix(s.drop_last(), i - 1);
    }
}

pub proof fn lemma_utf8_len_concat(a: Seq<char>, b: Seq<char>)
    ensures
        utf8_len(a + b) == utf8_len(a) + utf8_len(b),
    decreases a.len(),
{
    if a.len() > 0 {
        assert((a + b).drop_first() =~= a.drop_first() + b);
        lemma_utf8_len_concat(a.drop_first(), b);
    } else {
        assert(a + b =~= b);
    }
}

pub proof fn lemma_utf8_len_push(s: Seq<char>, c: char)
    ensures
        utf8_len(s.push(c)) == utf8_len(s) + utf8_width(c),
{
    let t = seq![c];
    lemma_utf8_len_concat(s, t);
    assert(s + t =~= s.push(c));
    assert(t.drop_first() =~= Seq::<char>::empty());
    assert(utf8_len(t.drop_first()) == 0);
    assert(utf8_len(t) == utf8_width(c));
}

pub proof fn lemma_utf8_len_subrange(s: Seq<char>, i: int, j: int)
    requires
        0 <= i <= j <= s.len(),
    ensures
        utf8_len(s.subrange(i, j)) <= utf8_len(s),
        utf8_len(s.take(i)) + utf8_len(s.subrange(i, j)) + utf8_len(s.skip(j)) == utf8_len(s),
{
    lemma_utf8_len_concat(s.take(i), s.subrange(i, j));
    lemma_utf8_len_concat(s.take(i) + s.subrange(i, j), s.skip(j));
    assert(s.take(i) + s.subrange(i, j) + s.skip(j) =~= s);
}

/// The byte length `str::len` reports agrees with `utf8_len`.
pub proof fn lemma_utf8_len_encode(s: Seq<char>)
    ensures
        vstd::utf8::encode_utf8(s).len() == utf8_len(s),
    decreases s.len(),
{
    if s.len() > 0 {
        let c = s[0];
        assert(vstd::utf8::is_scalar(c as u32)) by {
            vstd::utf8::char_is_scalar(c);
        }
        lemma_utf8_len_encode(s.drop_first());
    }
}

pub proof fn lemma_views_push(v: Seq<Vec<char>>, x: Vec<char>)
    ensures
        views(v.push(x)) == views(v).push(x@),
{
    assert(views(v.push(x)) =~= views(v).push(x@));
}

// ---------------------------------------------------------------------------
// Executable primitives
// ---------------------------------------------------------------------------

/// Collects the characters of `s`, in order.
pub fn chars_of(s: &str) -> (out: Vec<char>)
    ensures
        out@ == s@,
{
    let mut out: Vec<char> = Vec::new();
    for c in it: s.chars()
        invariant
            out@ == it.seq().take(it.index() as int),
    {
        out.push(c);
    }
    out
}

/// Appends one character to a `String` (`String::push`).
#[verifier::external_body]
fn string_push(s: &mut String, c: char)
    ensures
        final(s)@ == old(s)@.push(c),
{
    s.push(c);
}

/// A `String` holding exactly the given characters.
pub fn string_of(cs: &[char]) -> (out: String)
    ensures
        out@ == cs@,
{
    let mut out = String::new();
    let mut i: usize = 0;
    while i < cs.len()
        invariant
            i <= cs.len(),
            out@ == cs@.take(i as int),
        decreases cs.len() - i,
    {
        string_push(&mut out, cs[i]);
        assert(cs@.take(i as int).push(cs@[i as int]) =~= cs@.take(i + 1));
        i = i + 1;
    }
    assert(cs@.take(cs@.len() as int) =~= cs@);
    out
}

/// The characters `cs[from..to]`.
pub fn slice_vec(cs: &[char], from: usize, to: usize) -> (out: Vec<char>)
    requires
        from <= to <= cs.len(),
    ensures
        out@ == cs@.subrange(from as int, to as int),
{
    let mut out: Vec<char> = Vec::new();
    let mut i = from;
    while i < to
        invariant
            from <= i <= to <= cs.len(),
            out@ == cs@.subrange(from as int, i as int),
        decreases to - i,
    {
        out.push(cs[i]);
        assert(cs@.subrange(from as int, i as int).push(cs@[i as int]) =~= cs@.subrange(
            from as int,
            i + 1,
        ));
        i = i + 1;
    }
    out
}

/// Appends `b` to `a`.
pub fn append_chars(a: &mut Vec<char>, b: &[char])
    ensures
        final(a)@ == old(a)@ + b@,
{
    let mut i: usize = 0;
    while i < b.len()
        invariant
            i <= b.len(),
            a@ == old(a)@ + b@.take(i as int),
        decreases b.len() - i,
    {
        a.push(b[i]);
        assert(old(a)@ + b@.take(i as int) + seq![b@[i as int]] =~= old(a)@ + b@.take(i + 1));
        i = i + 1;
    }
    assert(b@.take(b@.len() as int) =~= b@);
}

/// Character-wise equality.
pub fn chars_eq(a: &[char], b: &[char]) -> (r: bool)
    ensures
        r == (a@ == b@),
{
    if a.len() != b.len() {
        return false;
    }
    let mut i: usize = 0;
    while i < a.len()
        invariant
            i <= a.len() == b.len(),
            forall|k: int| 0 <= k < i ==> a@[k] == b@[k],
        decreases a.len() - i,
    {
        if a[i] != b[i] {
            return false;
        }
        i = i + 1;
    }
    assert(a@ =~= b@);
    true
}


/// Does `p` occur in `s` at position `i`?
pub fn occurs_at_exec(s: &[char], p: &[char], i: usize) -> (r: bool)
    ensures
        r == occurs_at(s@, p@, i as int),
{
    if i > s.len() || p.len() > s.len() - i {
        return false;
    }
    let mut j: usize = 0;
    while j < p.len()
        invariant
            j <= p.len(),
            i + p.len() <= s.len(),
            forall|k: int| 0 <= k < j ==> s@[i + k] == p@[k],
        decreases p.len() - j,
    {
        if s[i + j] != p[j] {
            assert(s@.subrange(i as int, i + p.len())[j as int] != p@[j as int]);
            return false;
        }
        j = j + 1;
    }
    assert(s@.subrange(i as int, i + p.len()) =~= p@);
    true
}

/// First position `>= i` at which `p` occurs in `s` (`str::find` when `i == 0`).
pub fn find_from_exec(s: &[char], p: &[char], i: usize) -> (r: Option<usize>)
    ensures
        match r {
            Some(k) => k as int == find_from(s@, p@, i as int),
            None => find_from(s@, p@, i as int) == -1,
        },
{
    proof {
        lemma_find_from_props(s@, p@, i as int);
    }
    if i > s.len() || p.len() > s.len() - i {
        proof {
            lemma_find_from_none(s@, p@, i as int);
        }
        return None;
    }
    let mut j = i;
    loop
        invariant
            i <= j <= s.len() - p.len(),
            p.len() <= s.len(),
            forall|k: int| i <= k < j ==> !occurs_at(s@, p@, k),
        ensures
            forall|k: int| i <= k ==> !occurs_at(s@, p@, k),
        decreases s.len() - j,
    {
        if occurs_at_exec(s, p, j) {
            proof {
                lemma_find_from_found(s@, p@, i as int, j as int);
            }
            return Some(j);
        }
        if j >= s.len() - p.len() {
            assert forall|k: int| i <= k implies !occurs_at(s@, p@, k) by {
                if k > j {
                    assert(k + p@.len() > s@.len());
                }
            }
            break;
        }
        j = j + 1;
    }
    proof {
        lemma_find_from_none(s@, p@, i as int);
    }
    None
}

/// `s` contains `p` (`str::contains`).
pub fn contains_exec(s: &[char], p: &[char]) -> (r: bool)
    ensures
        r == contains(s@, p@),
{
    proof {
        lemma_find_from_props(s@, p@, 0);
    }
    match find_from_exec(s, p, 0) {
        Some(_) => true,
        None => {
            assert forall|i: int| !occurs_at(s@, p@, i) by {
                if i >= 0 {
                    assert(!occurs_at(s@, p@, i));
                }
            }
            false
        },
    }
}

/// Index of the first `c` in `s`.
pub fn index_of_exec(s: &[char], c: char) -> (r: Option<usize>)
    ensures
        match r {
            Some(k) => k as int == index_of(s@, c),
            None => index_of(s@, c) == -1,
        },
{
    let mut i: usize = 0;
    while i < s.len()
        invariant
            i <= s.len(),
            forall|k: int| 0 <= k < i ==> s@[k] != c,
        decreases s.len() - i,
    {
        if s[i] == c {
            proof {
                lemma_index_of_found(s@, c, i as int);
            }
            return Some(i);
        }
        i = i + 1;
    }
    proof {
        lemma_index_of_absent(s@, c);
    }
    None
}

/// `s.matches(p).count()`.
pub fn count_matches_exec(s: &[char], p: &[char]) -> (r: usize)
    requires
        s.len() < usize::MAX,
    ensures
        r == count_matches(s@, p@),
{
    if p.len() == 0 {
        return s.len() + 1;
    }
    let mut n: usize = 0;
    let mut i: usize = 0;
    loop
        invariant
            0 < p.len(),
            i <= s.len() + 1,
            n <= i,
            n + count_ne(s@, p@, i as int) == count_ne(s@, p@, 0),
        decreases s.len() + 1 - i,
    {
        proof {
            lemma_find_from_props(s@, p@, i as int);
        }
        match find_from_exec(s, p, i) {
            None => {
                return n;
            },
            Some(k) => {
                n = n + 1;
                i = k + p.len();
            },
        }
    }
}

/// `str::replace(p, r)`.
pub fn replace_all_exec(s: &[char], p: &[char], r: &[char]) -> (out: Vec<char>)
    ensures
        out@ == replaced_all(s@, p@, r@),
{
    let mut out: Vec<char> = Vec::new();
    if p.len() == 0 {
        let mut i: usize = 0;
        let ghost prefix: Seq<char> = seq![];
        append_chars(&mut out, r);
        assert(s@.skip(0) =~= s@);
        while i < s.len()
            invariant
                i <= s.len(),
                out@ == prefix + r@,
                prefix + replace_empty(s@.skip(i as int), r@) == replace_empty(s@, r@),
            decreases s.len() - i,
        {
            proof {
                let t = s@.skip(i as int);
                assert(t.drop_first() =~= s@.skip(i + 1));
                assert(prefix + replace_empty(t, r@) =~= (prefix + r@.push(s@[i as int]))
                    + replace_empty(s@.skip(i + 1), r@));
                prefix = prefix + r@.push(s@[i as int]);
            }
            out.push(s[i]);
            append_chars(&mut out, r);
            assert(out@ =~= prefix + r@);
            i = i + 1;
        }
        assert(s@.skip(s@.len() as int) =~= Seq::<char>::empty());
        assert(out@ =~= replace_empty(s@, r@));
        return out;
    }
    let mut i: usize = 0;
    loop
        invariant
            0 < p.len(),
            i <= s.len(),
            out@ + replace_ne(s@, p@, r@, i as int) == replace_ne(s@, p@, r@, 0),
        decreases s.len() + 1 - i,
    {
        proof {
            lemma_find_from_props(s@, p@, i as int);
        }
        match find_from_exec(s, p, i) {
            None => {
                let tail = slice_vec(s, i, s.len());
                append_chars(&mut out, &tail);
                return out;
            },
            Some(k) => {
                let mid = slice_vec(s, i, k);
                append_chars(&mut out, &mid);
                append_chars(&mut out, r);
                proof {
                    assert(out@ + replace_ne(s@, p@, r@, k + p.len()) =~= replace_ne(s@, p@, r@, 0));
                }
                i = k + p.len();
            },
        }
    }
}

/// `str::replacen(p, r, 1)`.
pub fn replace_first_exec(s: &[char], p: &[char], r: &[char]) -> (out: Vec<char>)
    ensures
        out@ == replaced_first(s@, p@, r@),
{
    proof {
        lemma_find_from_props(s@, p@, 0);
    }
    match find_from_exec(s, p, 0) {
        None => slice_vec(s, 0, s.len()),
        Some(k) => {
            assert(occurs_at(s@, p@, k as int));
            let n = s.len();
            assert(k + p@.len() <= n);
            let e = k + p.len();
            let mut out = slice_vec(s, 0, k);
            append_chars(&mut out, r);
            let tail = slice_vec(s, e, s.len());
            append_chars(&mut out, &tail);
            out
        },
    }
}


/// `s` with one trailing `'\r'` removed.
pub fn strip_cr_vec(s: &[char]) -> (out: Vec<char>)
    ensures
        out@ == strip_cr(s@),
{
    if s.len() > 0 && s[s.len() - 1] == '\r' {
        slice_vec(s, 0, s.len() - 1)
    } else {
        slice_vec(s, 0, s.len())
    }
}

/// `str::lines`.
pub fn lines_vec(s: &[char]) -> (out: Vec<Vec<char>>)
    ensures
        views(out@) == lines_of(s@),
{
    let mut out: Vec<Vec<char>> = Vec::new();
    let mut start: usize = 0;
    let mut i: usize = 0;
    assert(s@.skip(0) =~= s@);
    assert(views(out@) =~= Seq::<Seq<char>>::empty());
    while i < s.len()
        invariant
            start <= i <= s.len(),
            forall|k: int| start <= k < i ==> s@[k] != '\n',
            lines_of(s@) == views(out@) + lines_of(s@.skip(start as int)),
        decreases s.len() - i,
    {
        if s[i] == '\n' {
            let line = slice_vec(s, start, i);
            let stripped = strip_cr_vec(&line);
            proof {
                let t = s@.skip(start as int);
                lemma_index_of_found(t, '\n', i - start);
                assert(t.take(i - start) =~= line@);
                assert(t.skip(i - start + 1) =~= s@.skip(i + 1));
                lemma_views_push(out@, stripped);
                assert(lines_of(t) =~= seq![stripped@] + lines_of(s@.skip(i + 1)));
                assert(views(out@) + lines_of(t) =~= views(out@.push(stripped)) + lines_of(
                    s@.skip(i + 1),
                ));
            }
            out.push(stripped);
            start = i + 1;
        }
        i = i + 1;
    }
    if start < s.len() {
        let line = slice_vec(s, start, s.len());
        proof {
            let t = s@.skip(start as int);
            lemma_index_of_absent(t, '\n');
            assert(t =~= line@);
            lemma_views_push(out@, line);
            assert(s@.skip(s@.len() as int) =~= Seq::<char>::empty());
        }
        out.push(line);
    } else {
        assert(s@.skip(start as int) =~= Seq::<char>::empty());
    }
    assert(views(out@) =~= lines_of(s@));
    out
}

/// `str::split(c)`.
pub fn split_vec(s: &[char], c: char) -> (out: Vec<Vec<char>>)
    ensures
        views(out@) == split_on(s@, c),
        out@.len() >= 1,
{
    let mut out: Vec<Vec<char>> = Vec::new();
    let mut start: usize = 0;
    let mut i: usize = 0;
    assert(s@.skip(0) =~= s@);
    assert(views(out@) =~= Seq::<Seq<char>>::empty());
    while i < s.len()
        invariant
            start <= i <= s.len(),
            forall|k: int| start <= k < i ==> s@[k] != c,
            split_on(s@, c) == views(out@) + split_on(s@.skip(start as int), c),
        decreases s.len() - i,
    {
        if s[i] == c {
            let part = slice_vec(s, start, i);
            proof {
                let t = s@.skip(start as int);
                lemma_index_of_found(t, c, i - start);
                assert(t.take(i - start) =~= part@);
                assert(t.skip(i - start + 1) =~= s@.skip(i + 1));
                lemma_views_push(out@, part);
                assert(split_on(t, c) =~= seq![part@] + split_on(s@.skip(i + 1), c));
                assert(views(out@) + split_on(t, c) =~= views(out@.push(part)) + split_on(
                    s@.skip(i + 1),
                    c,
                ));
            }
            out.push(part);
            start = i + 1;
        }
        i = i + 1;
    }
    let part = slice_vec(s, start, s.len());
    proof {
        let t = s@.skip(start as int);
        lemma_index_of_absent(t, c);
        assert(t =~= part@);
        lemma_views_push(out@, part);
    }
    out.push(part);
    assert(views(out@) =~= split_on(s@, c));
    out
}

/// `parts.join(sep)`.
pub fn join_vec(parts: &Vec<Vec<char>>, sep: &[char]) -> (out: Vec<char>)
    ensures
        out@ == join(views(parts@), sep@),
{
    let mut out: Vec<char> = Vec::new();
    if parts.len() == 0 {
        return out;
    }
    append_chars(&mut out, &parts[0]);
    let mut i: usize = 1;
    assert(views(parts@).take(1) =~= seq![parts@[0]@]);
    while i < parts.len()
        invariant
            1 <= i <= parts.len(),
            out@ == join(views(parts@).take(i as int), sep@),
        decreases parts.len() - i,
    {
        append_chars(&mut out, sep);
        append_chars(&mut out, &parts[i]);
        proof {
            let v = views(parts@).take(i + 1);
            assert(v.drop_last() =~= views(parts@).take(i as int));
            assert(v.last() == parts@[i as int]@);
        }
        i = i + 1;
    }
    assert(views(parts@).take(parts@.len() as int) =~= views(parts@));
    out
}

/// The ASCII digit for `d < 10`.
pub fn digit_exec(d: u64) -> (c: char)
    requires
        d < 10,
    ensures
        c == digit_char(d as nat),
{
    if d == 0 { '0' }
    else if d == 1 { '1' }
    else if d == 2 { '2' }
    else if d == 3 { '3' }
    else if d == 4 { '4' }
    else if d == 5 { '5' }
    else if d == 6 { '6' }
    else if d == 7 { '7' }
    else if d == 8 { '8' }
    else { '9' }
}

/// Decimal rendering of `n`.
pub fn decimal_vec(n: u64) -> (out: Vec<char>)
    ensures
        out@ == decimal(n as nat),
    decreases n,
{
    if n < 10 {
        let mut v = Vec::new();
        v.push(digit_exec(n));
        v
    } else {
        let mut v = decimal_vec(n / 10);
        v.push(digit_exec(n % 10));
        v
    }
}

/// Number of UTF-8 bytes of `s` (`str::len`).
pub fn str_byte_len(s: &str) -> (r: usize)
    ensures
        r == utf8_len(s@),
{
    proof {
        lemma_utf8_len_encode(s@);
    }
    let b = s.as_bytes();
    b.len()
}

/// Characters of a string literal or other `&str`, appended to `a`.
pub fn append_str(a: &mut Vec<char>, s: &str)
    ensures
        final(a)@ == old(a)@ + s@,
{
    let cs = chars_of(s);
    append_chars(a, &cs);
}


/// Copies of `lines[from..to]`.
pub fn copy_lines(lines: &Vec<Vec<char>>, from: usize, to: usize) -> (out: Vec<Vec<char>>)
    requires
        from <= to <= lines.len(),
    ensures
        views(out@) == views(lines@).subrange(from as int, to as int),
{
    let mut out: Vec<Vec<char>> = Vec::new();
    let mut i = from;
    while i < to
        invariant
            from <= i <= to <= lines.len(),
            views(out@) == views(lines@).subrange(from as int, i as int),
        decreases to - i,
    {
        let l = slice_vec(&lines[i], 0, lines[i].len());
        proof {
            assert(lines@[i as int]@.subrange(0, lines@[i as int]@.len() as int) =~= lines@[i as int]@);
            assert(views(lines@)[i as int] == lines@[i as int]@);
            lemma_views_push(out@, l);
            assert(views(lines@).subrange(from as int, i as int).push(l@) =~= views(lines@).subrange(
                from as int,
                i + 1,
            ));
        }
        out.push(l);
        i = i + 1;
    }
    out
}

/// `s` ends with `p`.
pub fn ends_with_exec(s: &[char], p: &[char]) -> (r: bool)
    ensures
        r == ends_with(s@, p@),
{
    if p.len() > s.len() {
        return false;
    }
    let t = slice_vec(s, s.len() - p.len(), s.len());
    assert(s@.subrange(s@.len() - p@.len(), s@.len() as int) =~= s@.skip(s@.len() - p@.len()));
    chars_eq(&t, p)
}

/// `s` starts with `p`.
pub fn starts_with_exec(s: &[char], p: &[char]) -> (r: bool)
    ensures
        r == starts_with(s@, p@),
{
    if p.len() > s.len() {
        return false;
    }
    let t = slice_vec(s, 0, p.len());
    assert(s@.subrange(0, p@.len() as int) =~= s@.take(p@.len() as int));
    chars_eq(&t, p)
}


/// `str::split_whitespace`.
pub fn words_vec(s: &[char]) -> (out: Vec<Vec<char>>)
    ensures
        views(out@) == words(s@),
    decreases s.len(),
{
    let p = ws_prefix(s);
    let t = slice_vec(s, p, s.len());
    assert(t@ =~= trim_start(s@));
    if t.len() == 0 {
        let out: Vec<Vec<char>> = Vec::new();
        assert(views(out@) =~= words(s@));
        return out;
    }
    let mut k: usize = 0;
    while k < t.len() && !is_whitespace(t[k])
        invariant
            k <= t.len(),
            forall|j: int| 0 <= j < k ==> !is_ws(t@[j]),
        decreases t.len() - k,
    {
        k = k + 1;
    }
    proof {
        lemma_nonws_prefix(t@, k as int);
        lemma_ws_prefix_bound(s@);
    }
    let w = slice_vec(&t, 0, k);
    let rest = slice_vec(&t, k, t.len());
    let tail = words_vec(&rest);
    let mut out: Vec<Vec<char>> = Vec::new();
    out.push(w);
    let mut i: usize = 0;
    while i < tail.len()
        invariant
            i <= tail.len(),
            views(out@) == seq![w@] + views(tail@).take(i as int),
        decreases tail.len() - i,
    {
        let c = slice_vec(&tail[i], 0, tail[i].len());
        proof {
            assert(tail@[i as int]@.subrange(0, tail@[i as int]@.len() as int) =~= tail@[i as int]@);
            lemma_views_push(out@, c);
            assert(views(tail@).take(i + 1) =~= views(tail@).take(i as int).push(tail@[i as int]@));
        }
        out.push(c);
        i = i + 1;
    }
    proof {
        assert(views(tail@).take(tail@.len() as int) =~= views(tail@));
        assert(t@.take(k as int) =~= w@);
        assert(t@.skip(k as int) =~= rest@);
        assert(views(out@) =~= words(s@));
    }
    out
}

/// `char::is_whitespace`.
pub fn is_whitespace(c: char) -> (r: bool)
    ensures
        r == is_ws(c),
{
    let u = c as u32;
    (0x09 <= u && u <= 0x0d) || u == 0x20 || u == 0x85 || u == 0xa0 || u == 0x1680
        || (0x2000 <= u && u <= 0x200a) || u == 0x2028 || u == 0x2029 || u == 0x202f
        || u == 0x205f || u == 0x3000
}

/// Number of UTF-8 bytes of `c` (`char::len_utf8`).
pub fn char_width(c: char) -> (r: usize)
    ensures
        r == utf8_width(c),
{
    let u = c as u32;
    if u < 0x80 {
        1
    } else if u < 0x800 {
        2
    } else if u < 0x10000 {
        3
    } else {
        4
    }
}

/// Number of UTF-8 bytes of `cs`.
pub fn byte_len(cs: &[char]) -> (r: usize)
    requires
        utf8_len(cs@) <= usize::MAX,
    ensures
        r == utf8_len(cs@),
{
    let mut n: usize = 0;
    let mut i: usize = 0;
    while i < cs.len()
        invariant
            i <= cs.len(),
            utf8_len(cs@) <= usize::MAX,
            n == utf8_len(cs@.take(i as int)),
        decreases cs.len() - i,
    {
        proof {
            lemma_utf8_len_push(cs@.take(i as int), cs@[i as int]);
            assert(cs@.take(i as int).push(cs@[i as int]) =~= cs@.take(i + 1));
            lemma_utf8_len_subrange(cs@, 0, i + 1);
            assert(cs@.subrange(0, i + 1) =~= cs@.take(i + 1));
        }
        n = n + char_width(cs[i]);
        i = i + 1;
    }
    assert(cs@.take(cs@.len() as int) =~= cs@);
    n
}

/// Length of the leading whitespace of `cs`.
pub fn ws_prefix(cs: &[char]) -> (r: usize)
    ensures
        r == ws_prefix_len(cs@),
        r <= cs.len(),
{
    let mut i: usize = 0;
    while i < cs.len() && is_whitespace(cs[i])
        invariant
            i <= cs.len(),
            forall|k: int| 0 <= k < i ==> is_ws(cs@[k]),
        decreases cs.len() - i,
    {
        i = i + 1;
    }
    proof {
        lemma_ws_prefix(cs@, i as int);
    }
    i
}

/// Length of the trailing whitespace of `cs`.
pub fn ws_suffix(cs: &[char]) -> (r: usize)
    ensures
        r == ws_suffix_len(cs@),
        r <= cs.len(),
{
    let mut i: usize = 0;
    while i < cs.len() && is_whitespace(cs[cs.len() - 1 - i])
        invariant
            i <= cs.len(),
            forall|k: int| cs.len() - i <= k < cs.len() ==> is_ws(cs@[k]),
        decreases cs.len() - i,
    {
        i = i + 1;
    }
    proof {
        lemma_ws_suffix(cs@, i as int);
    }
    i
}

/// `str::trim_start`.
pub fn trim_start_vec(cs: &[char]) -> (out: Vec<char>)
    ensures
        out@ == trim_start(cs@),
{
    let p = ws_prefix(cs);
    slice_vec(cs, p, cs.len())
}

/// `str::trim_end`.
pub fn trim_end_vec(cs: &[char]) -> (out: Vec<char>)
    ensures
        out@ == trim_end(cs@),
{
    let q = ws_suffix(cs);
    slice_vec(cs, 0, cs.len() - q)
}

/// `str::trim`.
pub fn trim_vec(cs: &[char]) -> (out: Vec<char>)
    ensures
        out@ == trim(cs@),
{
    let t = trim_start_vec(cs);
    trim_end_vec(&t)
}

/// Replacing every occurrence of a character by text without it leaves
/// none of it.
pub proof fn lemma_replace_char_gone(s: Seq<char>, c: char, r: Seq<char>, i: int)
    requires
        0 <= i <= s.len(),
        !r.contains(c),
    ensures
        !replace_ne(s, seq![c], r, i).contains(c),
    decreases s.len() + 1 - i,
{
    let p = seq![c];
    lemma_find_from_props(s, p, i);
    let k = find_from(s, p, i);
    let out = replace_ne(s, p, r, i);
    if k < 0 {
        assert forall|j: int| 0 <= j < out.len() implies out[j] != c by {
            assert(out[j] == s[i + j]);
            if s[i + j] == c {
                assert(s.subrange(i + j, i + j + 1) =~= p);
                assert(occurs_at(s, p, i + j));
            }
        }
    } else {
        lemma_replace_char_gone(s, c, r, k + 1);
        let a = s.subrange(i, k);
        let rest = replace_ne(s, p, r, k + 1);
        assert(out == a + r + rest);
        assert forall|j: int| 0 <= j < out.len() implies out[j] != c by {
            if j < a.len() {
                assert(out[j] == s[i + j]);
                if s[i + j] == c {
                    assert(s.subrange(i + j, i + j + 1) =~= p);
                    assert(occurs_at(s, p, i + j));
                }
            } else if j < a.len() + r.len() {
                assert(out[j] == r[j - a.len()]);
            } else {
                assert(out[j] == rest[j - a.len() - r.len()]);
            }
        }
    }
}

/// Replacing a text that does not occur changes nothing.
pub proof fn lemma_replace_absent(s: Seq<char>, p: Seq<char>, r: Seq<char>)
    requires
        p.len() > 0,
        !contains(s, p),
    ensures
        replaced_all(s, p, r) == s,
{
    lemma_find_from_props(s, p, 0);
    if find_from(s, p, 0) >= 0 {
        assert(occurs_at(s, p, find_from(s, p, 0)));
    }
    assert(s.subrange(0, s.len() as int) =~= s);
}

/// One step of `replace_ne` at `i`: the replacement when the pattern
/// occurs there, else the character itself; nothing at the end.
pub proof fn lemma_replace_ne_step(s: Seq<char>, p: Seq<char>, r: Seq<char>, i: int)
    requires
        p.len() > 0,
        0 <= i <= s.len(),
    ensures
        i == s.len() ==> replace_ne(s, p, r, i) == Seq::<char>::empty(),
        i < s.len() && occurs_at(s, p, i) ==> replace_ne(s, p, r, i) == r + replace_ne(s, p, r, i + p.len()),
        i < s.len() && !occurs_at(s, p, i) ==> replace_ne(s, p, r, i) == seq![s[i]] + replace_ne(s, p, r, i + 1),
{
    lemma_find_from_props(s, p, i);
    lemma_find_from_props(s, p, i + 1);
    if i == s.len() {
        assert(find_from(s, p, i) == -1);
        assert(s.subrange(i, s.len() as int) =~= Seq::<char>::empty());
    } else if occurs_at(s, p, i) {
        assert(find_from(s, p, i) == i);
        assert(s.subrange(i, i) =~= Seq::<char>::empty());
    } else {
        assert(find_from(s, p, i) == find_from(s, p, i + 1));
        let k = find_from(s, p, i);
        if k < 0 {
            assert(s.subrange(i, s.len() as int) =~= seq![s[i]] + s.subrange(i + 1, s.len() as int));
        } else {
            assert(s.subrange(i, k) =~= seq![s[i]] + s.subrange(i + 1, k));
        }
    }
}

/// Every line feed written as CR LF.
pub open spec fn crlf_form(t: Seq<char>) -> Seq<char>
    decreases t.len(),
{
    if t.len() == 0 {
        seq![]
    } else {
        (if t[0] == '\n' { seq!['\r', '\n'] } else { seq![t[0]] }) + crlf_form(t.drop_first())
    }
}

/// Replacing line feeds by CR LF from `i` on gives the CR LF form of the
/// rest.
pub proof fn lemma_replace_lf_by_crlf(s: Seq<char>, i: int)
    requires
        0 <= i <= s.len(),
    ensures
        replace_ne(s, seq!['\n'], seq!['\r', '\n'], i) == crlf_form(s.skip(i)),
    decreases s.len() - i,
{
    lemma_replace_ne_step(s, seq!['\n'], seq!['\r', '\n'], i);
    if i < s.len() {
        lemma_replace_lf_by_crlf(s, i + 1);
        assert(s.skip(i).drop_first() =~= s.skip(i + 1));
        assert(occurs_at(s, seq!['\n'], i) == (s[i] == '\n')) by {
            if s[i] == '\n' {
                assert(s.subrange(i, i + 1) =~= seq!['\n']);
            }
            if occurs_at(s, seq!['\n'], i) {
                assert(s.subrange(i, i + 1)[0] == s[i]);
            }
        }
    } else {
        assert(s.skip(i) =~= Seq::<char>::empty());
    }
}

/// Replacing CR LF by line feeds undoes `crlf_form` on text without
/// carriage returns.
pub proof fn lemma_replace_crlf_back(s: Seq<char>, i: int, t: Seq<char>)
    requires
        0 <= i <= s.len(),
        s.skip(i) == crlf_form(t),
        !t.contains('\r'),
    ensures
        replace_ne(s, seq!['\r', '\n'], seq!['\n'], i) == t,
    decreases t.len(),
{
    let p = seq!['\r', '\n'];
    lemma_replace_ne_step(s, p, seq!['\n'], i);
    if t.len() == 0 {
        assert(s.skip(i).len() == 0);
        assert(t =~= Seq::<char>::empty());
    } else {
        let rest = crlf_form(t.drop_first());
        assert(!t.drop_first().contains('\r')) by {
            if t.drop_first().contains('\r') {
                let j = choose|j: int| 0 <= j < t.drop_first().len() && t.drop_first()[j] == '\r';
                assert(t[j + 1] == '\r');
            }
        }
        assert(t[0] != '\r') by {
            assert(t.contains(t[0]));
        }
        if t[0] == '\n' {
            assert(s.skip(i) =~= seq!['\r', '\n'] + rest);
            assert(s[i] == '\r' && s[i + 1] == '\n') by {
                assert(s.skip(i)[0] == s[i]);
                assert(s.skip(i)[1] == s[i + 1]);
            }
            assert(s.subrange(i, i + 2) =~= p);
            assert forall|j: int| 0 <= j < rest.len() implies s.skip(i + 2)[j] == rest[j] by {
                assert(s.skip(i)[j + 2] == s[i + 2 + j]);
            }
            assert(s.skip(i + 2) =~= rest);
            lemma_replace_crlf_back(s, i + 2, t.drop_first());
            assert(seq!['\n'] + t.drop_first() =~= t);
        } else {
            assert(s.skip(i) =~= seq![t[0]] + rest);
            assert(s[i] == t[0]) by {
                assert(s.skip(i)[0] == s[i]);
            }
            assert(!occurs_at(s, p, i)) by {
                if occurs_at(s, p, i) {
                    assert(s.subrange(i, i + 2)[0] == s[i]);
                }
            }
            assert forall|j: int| 0 <= j < rest.len() implies s.skip(i + 1)[j] == rest[j] by {
                assert(s.skip(i)[j + 1] == s[i + 1 + j]);
            }
            assert(s.skip(i + 1) =~= rest);
            lemma_replace_crlf_back(s, i + 1, t.drop_first());
            assert(seq![t[0]] + t.drop_first() =~= t);
        }
    }
}

/// Text without carriage returns does not contain `p` when `p` holds one.
pub proof fn lemma_no_cr_absent(t: Seq<char>, p: Seq<char>)
    requires
        !t.contains('\r'),
        p.len() > 0,
        p[0] == '\r',
    ensures
        !contains(t, p),
{
    if contains(t, p) {
        let i = choose|i: int| occurs_at(t, p, i);
        assert(t.subrange(i, i + p.len())[0] == t[i]);
        assert(t.contains(t[i]));
    }
}

} // verus!
