//! Character-sequence helpers shared by the parser and the identity
//! generator: whitespace trimming, substring search, line splitting, and
//! conversions between `String` and character vectors.
use vstd::prelude::*;

verus! {

/// ASCII whitespace, the set that trimming removes from line ends.
pub open spec fn spec_is_space(c: char) -> bool {
    c == ' ' || c == '\t' || c == '\n' || c == '\r' || c == '\x0C'
}

/// Executable test for ASCII whitespace.
pub fn is_space(c: char) -> (r: bool)
    ensures
        r == spec_is_space(c),
{
    c == ' ' || c == '\t' || c == '\n' || c == '\r' || c == '\x0C'
}

/// Index of the first non-space character at or after `i`, or `s.len()`
/// if only spaces remain.
pub open spec fn skip_spaces(s: Seq<char>, i: int) -> int
    decreases s.len() - i,
    when 0 <= i <= s.len()
{
    if i == s.len() {
        i
    } else if spec_is_space(s[i]) {
        skip_spaces(s, i + 1)
    } else {
        i
    }
}

/// One past the last non-space character strictly before `i`, or `0` if
/// only spaces precede `i`.
pub open spec fn rskip_spaces(s: Seq<char>, i: int) -> int
    decreases i,
    when 0 <= i <= s.len()
{
    if i == 0 {
        i
    } else if spec_is_space(s[i - 1]) {
        rskip_spaces(s, i - 1)
    } else {
        i
    }
}

/// `s` with leading and trailing ASCII whitespace removed.
pub open spec fn spec_trim(s: Seq<char>) -> Seq<char> {
    let lo = skip_spaces(s, 0);
    let hi = rskip_spaces(s, s.len() as int);
    if lo <= hi {
        s.subrange(lo, hi)
    } else {
        Seq::empty()
    }
}

/// Copies `v[a..b]` into a fresh vector.
pub fn copy_range(v: &Vec<char>, a: usize, b: usize) -> (r: Vec<char>)
    requires
        a <= b <= v@.len(),
    ensures
        r@ == v@.subrange(a as int, b as int),
{
    let mut r: Vec<char> = Vec::new();
    let mut j: usize = a;
    while j < b
        invariant
            a <= j <= b <= v@.len(),
            r@ == v@.subrange(a as int, j as int),
        decreases b - j,
    {
        r.push(v[j]);
        assert(v@.subrange(a as int, j as int).push(v@[j as int]) =~= v@.subrange(
            a as int,
            j + 1 as int,
        ));
        j += 1;
    }
    r
}

/// Removes leading and trailing ASCII whitespace.
pub fn trim(v: &Vec<char>) -> (r: Vec<char>)
    ensures
        r@ == spec_trim(v@),
{
    let ghost s = v@;
    let mut lo: usize = 0;
    while lo < v.len() && is_space(v[lo])
        invariant
            0 <= lo <= s.len(),
            s == v@,
            skip_spaces(s, 0) == skip_spaces(s, lo as int),
        decreases s.len() - lo,
    {
        lo += 1;
    }
    assert(skip_spaces(s, 0) == lo);
    let mut hi: usize = v.len();
    while hi > 0 && is_space(v[hi - 1])
        invariant
            0 <= hi <= s.len(),
            s == v@,
            rskip_spaces(s, s.len() as int) == rskip_spaces(s, hi as int),
        decreases hi,
    {
        hi -= 1;
    }
    assert(rskip_spaces(s, s.len() as int) == hi);
    if lo <= hi {
        copy_range(v, lo, hi)
    } else {
        Vec::new()
    }
}

/// `pat` occurs in `s` starting at index `i`.
pub open spec fn spec_match_at(s: Seq<char>, pat: Seq<char>, i: int) -> bool {
    &&& 0 <= i
    &&& i + pat.len() <= s.len()
    &&& forall|j: int| 0 <= j < pat.len() ==> s[i + j] == pat[j]
}

/// Executable test for an occurrence of `pat` at index `i`.
pub fn match_at(v: &Vec<char>, pat: &Vec<char>, i: usize) -> (r: bool)
    requires
        i <= v@.len(),
    ensures
        r == spec_match_at(v@, pat@, i as int),
{
    let n = v.len();
    if n - i < pat.len() {
        return false;
    }
    let mut j: usize = 0;
    while j < pat.len()
        invariant
            0 <= j <= pat@.len(),
            i + pat@.len() <= n,
            n == v@.len(),
            forall|k: int| 0 <= k < j ==> v@[i + k] == pat@[k],
        decreases pat@.len() - j,
    {
        if v[i + j] != pat[j] {
            assert(v@[i as int + j as int] != pat@[j as int]);
            return false;
        }
        j += 1;
    }
    true
}

/// Index of the first occurrence of `pat` at or after `i`, if any.
pub open spec fn spec_find(s: Seq<char>, pat: Seq<char>, i: int) -> Option<int>
    decreases s.len() - i,
    when 0 <= i <= s.len()
{
    if i + pat.len() > s.len() {
        None
    } else if spec_match_at(s, pat, i) {
        Some(i)
    } else {
        spec_find(s, pat, i + 1)
    }
}

/// What a successful or failed search means: a found index carries a match,
/// nothing before it matches, and a failed search has no match at all.
pub proof fn lemma_find_bounds(s: Seq<char>, pat: Seq<char>, i: int)
    requires
        0 <= i <= s.len(),
    ensures
        spec_find(s, pat, i) matches Some(p) ==> i <= p && p + pat.len() <= s.len()
            && spec_match_at(s, pat, p) && forall|q: int| i <= q < p ==> !spec_match_at(s, pat, q),
        spec_find(s, pat, i) is None ==> forall|q: int| i <= q ==> !spec_match_at(s, pat, q),
    decreases s.len() - i,
{
    if i + pat.len() > s.len() {
    } else if spec_match_at(s, pat, i) {
    } else {
        lemma_find_bounds(s, pat, i + 1);
    }
}

/// Converts an optional index to its mathematical form.
pub open spec fn opt_index(o: Option<usize>) -> Option<int> {
    match o {
        Some(p) => Some(p as int),
        None => None,
    }
}

/// Finds the first occurrence of `pat` in `v` at or after `from`.
pub fn find(v: &Vec<char>, pat: &Vec<char>, from: usize) -> (r: Option<usize>)
    requires
        from <= v@.len(),
    ensures
        opt_index(r) == spec_find(v@, pat@, from as int),
{
    let mut i: usize = from;
    while v.len() - i >= pat.len()
        invariant
            from <= i <= v@.len(),
            spec_find(v@, pat@, from as int) == spec_find(v@, pat@, i as int),
        decreases v@.len() - i,
    {
        if match_at(v, pat, i) {
            return Some(i);
        }
        i += 1;
    }
    None
}

/// Index of the last occurrence of `c` strictly before `i`, if any.
pub open spec fn spec_rfind(s: Seq<char>, c: char, i: int) -> Option<int>
    decreases i,
    when 0 <= i <= s.len()
{
    if i == 0 {
        None
    } else if s[i - 1] == c {
        Some(i - 1)
    } else {
        spec_rfind(s, c, i - 1)
    }
}

/// What a backwards search means: a found index carries the character,
/// nothing after it up to the bound does, and a failed search means the
/// character is absent below the bound.
pub proof fn lemma_rfind_bounds(s: Seq<char>, c: char, i: int)
    requires
        0 <= i <= s.len(),
    ensures
        spec_rfind(s, c, i) matches Some(p) ==> 0 <= p < i && s[p] == c && forall|q: int|
            p < q < i ==> s[q] != c,
        spec_rfind(s, c, i) is None ==> forall|q: int| 0 <= q < i ==> s[q] != c,
    decreases i,
{
    if i > 0 && s[i - 1] != c {
        lemma_rfind_bounds(s, c, i - 1);
    }
}

/// Finds the last occurrence of `c` in `v`.
pub fn rfind_char(v: &Vec<char>, c: char) -> (r: Option<usize>)
    ensures
        opt_index(r) == spec_rfind(v@, c, v@.len() as int),
{
    let mut i: usize = v.len();
    while i > 0
        invariant
            0 <= i <= v@.len(),
            spec_rfind(v@, c, v@.len() as int) == spec_rfind(v@, c, i as int),
        decreases i,
    {
        if v[i - 1] == c {
            return Some(i - 1);
        }
        i -= 1;
    }
    None
}

/// The lines of `s`, split at each newline character, as `split('\n')`
/// yields them: a trailing newline contributes a final empty line and an
/// empty input is a single empty line.
pub open spec fn spec_lines_from(s: Seq<char>, i: int) -> Seq<Seq<char>>
    decreases s.len() - i,
    when 0 <= i <= s.len()
    via spec_lines_from_dec
{
    match spec_find(s, seq!['\n'], i) {
        None => seq![s.subrange(i, s.len() as int)],
        Some(k) => seq![s.subrange(i, k)] + spec_lines_from(s, k + 1),
    }
}

#[via_fn]
proof fn spec_lines_from_dec(s: Seq<char>, i: int) {
    if 0 <= i <= s.len() {
        lemma_find_bounds(s, seq!['\n'], i);
    }
}

/// All lines of `s`.
pub open spec fn spec_split_lines(s: Seq<char>) -> Seq<Seq<char>> {
    spec_lines_from(s, 0)
}

/// Text made of two newline-free lines joined by one newline splits into
/// exactly those two lines.
pub proof fn lemma_split_two_lines(a: Seq<char>, b: Seq<char>)
    requires
        forall|j: int| 0 <= j < a.len() ==> a[j] != '\n',
        forall|j: int| 0 <= j < b.len() ==> b[j] != '\n',
    ensures
        spec_split_lines(a + seq!['\n'] + b) == seq![a, b],
{
    let s = a + seq!['\n'] + b;
    let al = a.len() as int;
    assert(s.len() == a.len() + 1 + b.len());
    assert(forall|j: int| 0 <= j < al ==> #[trigger] s[j] == a[j]);
    assert(s[al] == '\n');
    assert(forall|j: int| al < j < s.len() ==> #[trigger] s[j] == b[j - al - 1]);
    lemma_find_bounds(s, seq!['\n'], 0);
    assert(spec_match_at(s, seq!['\n'], al)) by {
        assert(s[al + 0] == seq!['\n'][0]);
    }
    if spec_find(s, seq!['\n'], 0) is None {
        assert(false);
    }
    let k = spec_find(s, seq!['\n'], 0)->Some_0;
    assert(spec_match_at(s, seq!['\n'], k));
    assert(s[k + 0] == seq!['\n'][0]);
    if k < al {
        assert(s[k] == a[k]);
        assert(false);
    }
    if k > al {
        assert(!spec_match_at(s, seq!['\n'], al));
        assert(false);
    }
    assert(spec_find(s, seq!['\n'], 0) == Some(al));
    lemma_find_bounds(s, seq!['\n'], al + 1);
    if spec_find(s, seq!['\n'], al + 1) is Some {
        let k2 = spec_find(s, seq!['\n'], al + 1)->Some_0;
        assert(spec_match_at(s, seq!['\n'], k2));
        assert(s[k2 + 0] == seq!['\n'][0]);
        assert(s[k2] == b[k2 - al - 1]);
        assert(false);
    }
    assert(spec_lines_from(s, al + 1) == seq![s.subrange(al + 1, s.len() as int)]);
    assert(s.subrange(0, al) =~= a);
    assert(s.subrange(al + 1, s.len() as int) =~= b);
    assert(spec_split_lines(s) == seq![s.subrange(0, al)] + seq![
        s.subrange(al + 1, s.len() as int),
    ]);
    assert(seq![a] + seq![b] =~= seq![a, b]);
}

/// The views of a sequence of character vectors.
pub open spec fn lines_view(lv: Seq<Vec<char>>) -> Seq<Seq<char>> {
    lv.map_values(|l: Vec<char>| l@)
}

/// Splits `v[from..]` into lines at each newline character.
pub fn split_lines_from(v: &Vec<char>, from: usize) -> (r: Vec<Vec<char>>)
    requires
        from <= v@.len(),
    ensures
        lines_view(r@) == spec_lines_from(v@, from as int),
    decreases v@.len() - from,
{
    let mut nl: Vec<char> = Vec::new();
    nl.push('\n');
    assert(nl@ =~= seq!['\n']);
    proof {
        lemma_find_bounds(v@, nl@, from as int);
    }
    match find(v, &nl, from) {
        None => {
            let mut out: Vec<Vec<char>> = Vec::new();
            out.push(copy_range(v, from, v.len()));
            assert(lines_view(out@) =~= seq![v@.subrange(from as int, v@.len() as int)]);
            out
        },
        Some(k) => {
            let n = v.len();
            assert(k + 1 <= n);
            let mut out: Vec<Vec<char>> = Vec::new();
            out.push(copy_range(v, from, k));
            let mut rest = split_lines_from(v, k + 1);
            let ghost head = out@;
            let ghost tail = rest@;
            out.append(&mut rest);
            assert(out@ == head + tail);
            assert(lines_view(head + tail) =~= lines_view(head) + lines_view(tail));
            assert(lines_view(head) =~= seq![v@.subrange(from as int, k as int)]);
            out
        },
    }
}

/// Splits `v` into lines at each newline character.
pub fn split_lines(v: &Vec<char>) -> (r: Vec<Vec<char>>)
    ensures
        lines_view(r@) == spec_split_lines(v@),
{
    split_lines_from(v, 0)
}

/// The characters of `s`, in order.
pub fn str_to_chars(s: &str) -> (r: Vec<char>)
    ensures
        r@ == s@,
{
    let n = s.unicode_len();
    let mut r: Vec<char> = Vec::new();
    let mut i: usize = 0;
    while i < n
        invariant
            0 <= i <= n,
            n == s@.len(),
            r@ == s@.take(i as int),
        decreases n - i,
    {
        r.push(s.get_char(i));
        assert(s@.take(i as int).push(s@[i as int]) =~= s@.take(i + 1 as int));
        i += 1;
    }
    assert(s@.take(n as int) =~= s@);
    r
}

/// Relies on `String::push`: appends one character to the string.
#[verifier::external_body]
fn push_char(s: &mut String, c: char) -> (u: ())
    ensures
        final(s)@ == old(s)@.push(c),
{
    s.push(c);
}

/// Builds a `String` holding exactly the characters of `v`.
pub fn chars_to_string(v: &Vec<char>) -> (r: String)
    ensures
        r@ == v@,
{
    let mut r = String::new();
    let mut i: usize = 0;
    while i < v.len()
        invariant
            0 <= i <= v@.len(),
            r@ == v@.take(i as int),
        decreases v@.len() - i,
    {
        push_char(&mut r, v[i]);
        assert(v@.take(i as int).push(v@[i as int]) =~= v@.take(i + 1 as int));
        i += 1;
    }
    assert(v@.take(v@.len() as int) =~= v@);
    r
}

} // verus!
