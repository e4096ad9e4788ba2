//! Characters, lines and substrings: the vocabulary that the parsers of this
//! crate share. Text is modelled as `Seq<char>`, the view of `str` and `String`.

use vstd::prelude::*;

verus! {

/// Whether `c` is whitespace: a code point with Unicode's `White_Space` property.
pub open spec fn is_whitespace(c: char) -> bool {
    let n = c as u32;
    ||| 0x09 <= n <= 0x0D
    ||| n == 0x20
    ||| n == 0x85
    ||| n == 0xA0
    ||| n == 0x1680
    ||| 0x2000 <= n <= 0x200A
    ||| n == 0x2028
    ||| n == 0x2029
    ||| n == 0x202F
    ||| n == 0x205F
    ||| n == 0x3000
}

/// `s` without its leading whitespace.
pub open spec fn trim_start(s: Seq<char>) -> Seq<char>
    decreases s.len(),
{
    if s.len() > 0 && is_whitespace(s[0]) {
        trim_start(s.drop_first())
    } else {
        s
    }
}

/// `s` without its trailing whitespace.
pub open spec fn trim_end(s: Seq<char>) -> Seq<char>
    decreases s.len(),
{
    if s.len() > 0 && is_whitespace(s.last()) {
        trim_end(s.drop_last())
    } else {
        s
    }
}

/// `s` without leading and trailing whitespace.
pub open spec fn trim(s: Seq<char>) -> Seq<char> {
    trim_end(trim_start(s))
}

/// The lines of `p` that a line feed has ended, in order, without the line feed.
pub open spec fn closed_lines(p: Seq<char>) -> Seq<Seq<char>>
    decreases p.len(),
{
    if p.len() == 0 {
        Seq::empty()
    } else if p.last() == '\n' {
        closed_lines(p.drop_last()).push(open_line(p.drop_last()))
    } else {
        closed_lines(p.drop_last())
    }
}

/// What follows the last line feed of `p` (all of `p` where it holds none).
pub open spec fn open_line(p: Seq<char>) -> Seq<char>
    decreases p.len(),
{
    if p.len() == 0 || p.last() == '\n' {
        Seq::empty()
    } else {
        open_line(p.drop_last()).push(p.last())
    }
}

/// The lines of `s`: the text between line feeds, and what follows the last one
/// unless that is empty. A carriage return before a line feed stays with its
/// line; every reader in this crate trims its lines, which removes it.
pub open spec fn lines(s: Seq<char>) -> Seq<Seq<char>> {
    if open_line(s).len() == 0 {
        closed_lines(s)
    } else {
        closed_lines(s).push(open_line(s))
    }
}

/// Whether `needle` stands in `s` at index `i`.
pub open spec fn occurs_at(s: Seq<char>, needle: Seq<char>, i: int) -> bool {
    0 <= i && i + needle.len() <= s.len() && s.subrange(i, i + needle.len()) == needle
}

/// Whether `needle` occurs somewhere in `s`.
pub open spec fn contains_text(s: Seq<char>, needle: Seq<char>) -> bool {
    exists|i: int| occurs_at(s, needle, i)
}

/// Whether `s` begins with `prefix`.
pub open spec fn has_prefix(s: Seq<char>, prefix: Seq<char>) -> bool {
    occurs_at(s, prefix, 0)
}

/// Whether `s` ends with `suffix`.
pub open spec fn has_suffix(s: Seq<char>, suffix: Seq<char>) -> bool {
    occurs_at(s, suffix, s.len() - suffix.len())
}

/// The character sequences that a list of character vectors holds.
pub open spec fn texts(v: Seq<Vec<char>>) -> Seq<Seq<char>> {
    v.map_values(|l: Vec<char>| l@)
}

/// The character sequences that a list of strings holds.
pub open spec fn strings(v: Seq<String>) -> Seq<Seq<char>> {
    v.map_values(|s: String| s@)
}

/// Whether one of `needles` occurs somewhere in `s`.
pub open spec fn contains_any(s: Seq<char>, needles: Seq<Seq<char>>) -> bool {
    exists|k: int| 0 <= k < needles.len() && contains_text(s, #[trigger] needles[k])
}

/// The index of the first `c` in `s`, or the length of `s` where there is none.
pub open spec fn index_of(s: Seq<char>, c: char) -> int
    decreases s.len(),
{
    if s.len() == 0 || s[0] == c {
        0
    } else {
        1 + index_of(s.drop_first(), c)
    }
}

/// `s` without the copies of `suffix` that it ends with.
pub open spec fn without_suffix(s: Seq<char>, suffix: Seq<char>) -> Seq<char>
    decreases s.len(),
{
    if suffix.len() > 0 && has_suffix(s, suffix) {
        without_suffix(s.take(s.len() - suffix.len()), suffix)
    } else {
        s
    }
}

/// The index of the last `c` in `s`, or -1 where there is none.
pub open spec fn last_index_of(s: Seq<char>, c: char) -> int
    decreases s.len(),
{
    if s.len() == 0 {
        -1
    } else if s.last() == c {
        s.len() - 1
    } else {
        last_index_of(s.drop_last(), c)
    }
}

/// The lower-case form of an ASCII letter; any other character unchanged.
pub open spec fn ascii_lower(c: char) -> char {
    if 'A' <= c <= 'Z' {
        ((c as u8) + 32) as char
    } else {
        c
    }
}

/// `s` with each ASCII capital replaced by its lower-case letter.
pub open spec fn ascii_lowercase(s: Seq<char>) -> Seq<char> {
    s.map_values(|c: char| ascii_lower(c))
}

/// Whether `a` comes strictly before `b` in the order of `str`: character by
/// character by code point, a proper prefix first.
pub open spec fn lex_lt(a: Seq<char>, b: Seq<char>) -> bool
    decreases a.len(),
{
    if b.len() == 0 {
        false
    } else if a.len() == 0 {
        true
    } else if a[0] != b[0] {
        a[0] < b[0]
    } else {
        lex_lt(a.drop_first(), b.drop_first())
    }
}

/// Whether `a` comes before `b` in the order of `str`, or equals it.
pub open spec fn lex_le(a: Seq<char>, b: Seq<char>) -> bool {
    a == b || lex_lt(a, b)
}

/// The text that `String::from_utf8_lossy` reads from bytes: their UTF-8
/// decoding, with the replacement character wherever they are not UTF-8.
pub uninterp spec fn utf8_lossy_of(bytes: Seq<u8>) -> Seq<char>;

/// What `str::to_lowercase` returns for a text: its lower-case form by Unicode's
/// rules, which may differ in length from the text.
pub uninterp spec fn unicode_lowercase(s: Seq<char>) -> Seq<char>;

pub proof fn lemma_trim_start_is_skip(s: Seq<char>, k: int)
    requires
        0 <= k <= s.len(),
        forall|i: int| 0 <= i < k ==> is_whitespace(s[i]),
        k == s.len() || !is_whitespace(s[k]),
    ensures
        trim_start(s) == s.skip(k),
    decreases k,
{
    if k == 0 {
        assert(s.skip(0) =~= s);
    } else {
        lemma_trim_start_is_skip(s.drop_first(), k - 1);
        assert(s.drop_first().skip(k - 1) =~= s.skip(k));
    }
}

pub proof fn lemma_trim_end_is_take(s: Seq<char>, k: int)
    requires
        0 <= k <= s.len(),
        forall|i: int| k <= i < s.len() ==> is_whitespace(s[i]),
        k == 0 || !is_whitespace(s[k - 1]),
    ensures
        trim_end(s) == s.take(k),
    decreases s.len() - k,
{
    if k == s.len() {
        assert(s.take(k) =~= s);
    } else {
        lemma_trim_end_is_take(s.drop_last(), k);
        assert(s.drop_last().take(k) =~= s.take(k));
    }
}

/// Trimming leaves a text that neither begins nor ends with whitespace, and
/// such a text is its own trim.
pub proof fn lemma_trim_is_stable(s: Seq<char>)
    ensures
        trim(s).len() > 0 ==> !is_whitespace(trim(s)[0]) && !is_whitespace(trim(s).last()),
        trim(trim(s)) == trim(s),
{
    lemma_trim_start_shape(s);
    lemma_trim_end_shape(trim_start(s));
    let t = trim(s);
    if t.len() > 0 {
        lemma_trim_end_keeps_head(trim_start(s));
    }
}

proof fn lemma_trim_start_shape(s: Seq<char>)
    ensures
        trim_start(s).len() > 0 ==> !is_whitespace(trim_start(s)[0]),
        trim_start(s).len() <= s.len(),
    decreases s.len(),
{
    if s.len() > 0 && is_whitespace(s[0]) {
        lemma_trim_start_shape(s.drop_first());
    }
}

proof fn lemma_trim_end_shape(s: Seq<char>)
    ensures
        trim_end(s).len() > 0 ==> !is_whitespace(trim_end(s).last()),
        trim_end(s).len() <= s.len(),
    decreases s.len(),
{
    if s.len() > 0 && is_whitespace(s.last()) {
        lemma_trim_end_shape(s.drop_last());
    }
}

proof fn lemma_trim_end_keeps_head(s: Seq<char>)
    ensures
        trim_end(s).len() > 0 ==> trim_end(s)[0] == s[0],
    decreases s.len(),
{
    if s.len() > 0 && is_whitespace(s.last()) {
        lemma_trim_end_keeps_head(s.drop_last());
    }
}

pub fn char_is_whitespace(c: char) -> (r: bool)
    ensures
        r == is_whitespace(c),
{
    let n: u32 = c as u32;
    (0x09 <= n && n <= 0x0D) || n == 0x20 || n == 0x85 || n == 0xA0 || n == 0x1680 || (0x2000 <= n
        && n <= 0x200A) || n == 0x2028 || n == 0x2029 || n == 0x202F || n == 0x205F || n == 0x3000
}

pub fn char_ascii_lower(c: char) -> (r: char)
    ensures
        r == ascii_lower(c),
{
    if c >= 'A' && c <= 'Z' {
        ((c as u8) + 32) as char
    } else {
        c
    }
}

/// Appends one character to a string, as `String::push` does.
#[verifier::external_body]
pub(crate) fn push_char(s: &mut String, c: char)
    ensures
        final(s)@ == old(s)@.push(c),
{
    s.push(c)
}

/// Whether two string slices hold the same characters, as `==` on `str` says.
#[verifier::external_body]
pub(crate) fn str_eq(a: &str, b: &str) -> (r: bool)
    ensures
        r == (a@ == b@),
{
    a == b
}

/// Whether `s` ends with `suffix`, as `str::ends_with` says of a string pattern.
#[verifier::external_body]
pub(crate) fn str_ends_with(s: &str, suffix: &str) -> (r: bool)
    ensures
        r == has_suffix(s@, suffix@),
{
    s.ends_with(suffix)
}

/// Whether `a` sorts strictly before `b`, as `<` on `str` says: std orders
/// strings lexicographically by their bytes, which for UTF-8 is the order of
/// their code points.
#[verifier::external_body]
pub(crate) fn str_lt(a: &str, b: &str) -> (r: bool)
    ensures
        r == lex_lt(a@, b@),
{
    a < b
}

/// The text of bytes, as `String::from_utf8_lossy` reads it.
#[verifier::external_body]
pub(crate) fn from_utf8_lossy(bytes: &[u8]) -> (r: String)
    ensures
        r@ == utf8_lossy_of(bytes@),
{
    String::from_utf8_lossy(bytes).into_owned()
}

/// The lower-case form of a text, as `str::to_lowercase` returns it.
#[verifier::external_body]
pub(crate) fn to_lowercase(s: &str) -> (r: String)
    ensures
        r@ == unicode_lowercase(s@),
{
    s.to_lowercase()
}

/// The characters of a string slice.
pub fn to_chars(s: &str) -> (v: Vec<char>)
    ensures
        v@ == s@,
{
    let mut v: Vec<char> = Vec::new();
    for c in it: s.chars()
        invariant
            it.seq() == s@,
            v@ == it.seq().take(it.index() as int),
    {
        v.push(c);
    }
    v
}

/// The string made of the characters of `v` from `lo` up to `hi`.
pub fn string_of(v: &Vec<char>, lo: usize, hi: usize) -> (s: String)
    requires
        lo <= hi <= v.len(),
    ensures
        s@ == v@.subrange(lo as int, hi as int),
{
    let mut s = String::new();
    let mut i: usize = lo;
    while i < hi
        invariant
            lo <= i <= hi <= v.len(),
            s@ == v@.subrange(lo as int, i as int),
        decreases hi - i,
    {
        push_char(&mut s, v[i]);
        i += 1;
    }
    s
}

/// The string made of the ASCII lower-case forms of `v` from `lo` up to `hi`.
pub fn lowercase_string_of(v: &Vec<char>, lo: usize, hi: usize) -> (s: String)
    requires
        lo <= hi <= v.len(),
    ensures
        s@ == ascii_lowercase(v@.subrange(lo as int, hi as int)),
{
    let mut s = String::new();
    let mut i: usize = lo;
    while i < hi
        invariant
            lo <= i <= hi <= v.len(),
            s@ == ascii_lowercase(v@.subrange(lo as int, i as int)),
        decreases hi - i,
    {
        push_char(&mut s, char_ascii_lower(v[i]));
        i += 1;
    }
    s
}

/// The characters of `v` from `lo` up to `hi`.
pub fn slice_of(v: &Vec<char>, lo: usize, hi: usize) -> (r: Vec<char>)
    requires
        lo <= hi <= v.len(),
    ensures
        r@ == v@.subrange(lo as int, hi as int),
{
    let mut r: Vec<char> = Vec::new();
    let mut i: usize = lo;
    while i < hi
        invariant
            lo <= i <= hi <= v.len(),
            r@ == v@.subrange(lo as int, i as int),
        decreases hi - i,
    {
        r.push(v[i]);
        i += 1;
    }
    r
}

/// `v` without leading and trailing whitespace.
pub fn trim_chars(v: &Vec<char>) -> (r: Vec<char>)
    ensures
        r@ == trim(v@),
{
    let n = v.len();
    let mut a: usize = 0;
    while a < n && char_is_whitespace(v[a])
        invariant
            a <= n == v.len(),
            forall|i: int| 0 <= i < a ==> is_whitespace(v@[i]),
        decreases n - a,
    {
        a += 1;
    }
    let mut b: usize = n;
    while b > a && char_is_whitespace(v[b - 1])
        invariant
            a <= b <= n == v.len(),
            forall|i: int| b <= i < n ==> is_whitespace(v@[i]),
        decreases b,
    {
        b -= 1;
    }
    proof {
        lemma_trim_start_is_skip(v@, a as int);
        let t = v@.skip(a as int);
        lemma_trim_end_is_take(t, b - a);
        assert(t.take(b - a) =~= v@.subrange(a as int, b as int));
    }
    slice_of(v, a, b)
}

/// The lines of a text, each as its characters.
pub fn split_lines(content: &str) -> (r: Vec<Vec<char>>)
    ensures
        texts(r@) == lines(content@),
{
    let mut out: Vec<Vec<char>> = Vec::new();
    let mut cur: Vec<char> = Vec::new();
    for c in it: content.chars()
        invariant
            it.seq() == content@,
            texts(out@) == closed_lines(it.seq().take(it.index() as int)),
            cur@ == open_line(it.seq().take(it.index() as int)),
    {
        proof {
            let p = it.seq().take(it.index() as int);
            let q = it.seq().take(it.index() + 1);
            assert(q.drop_last() =~= p);
            assert(q.last() == c);
        }
        if c == '\n' {
            let ghost before = texts(out@);
            let ghost line = cur@;
            out.push(cur);
            cur = Vec::new();
            assert(texts(out@) =~= before.push(line));
        } else {
            cur.push(c);
        }
    }
    assert(content@.take(content@.len() as int) =~= content@);
    if cur.len() > 0 {
        let ghost before = texts(out@);
        let ghost line = cur@;
        out.push(cur);
        assert(texts(out@) =~= before.push(line));
    }
    out
}

/// Whether `needle` stands in `v` at index `i`.
pub fn matches_at(v: &Vec<char>, i: usize, needle: &Vec<char>) -> (r: bool)
    ensures
        r == occurs_at(v@, needle@, i as int),
{
    let n = needle.len();
    if i > v.len() || n > v.len() - i {
        return false;
    }
    let mut k: usize = 0;
    while k < n
        invariant
            k <= n == needle.len(),
            i + n <= v.len(),
            forall|j: int| 0 <= j < k ==> v@[i + j] == needle@[j],
        decreases n - k,
    {
        if v[i + k] != needle[k] {
            assert(v@.subrange(i as int, i + n)[k as int] != needle@[k as int]);
            return false;
        }
        k += 1;
    }
    assert(v@.subrange(i as int, i + n) =~= needle@);
    true
}

/// Whether `v` ends with `suffix`.
pub fn ends_with(v: &Vec<char>, suffix: &Vec<char>) -> (r: bool)
    ensures
        r == has_suffix(v@, suffix@),
{
    if suffix.len() > v.len() {
        return false;
    }
    matches_at(v, v.len() - suffix.len(), suffix)
}

/// Whether `needle` occurs somewhere in `v`.
pub fn contains(v: &Vec<char>, needle: &Vec<char>) -> (r: bool)
    ensures
        r == contains_text(v@, needle@),
{
    if needle.len() == 0 {
        assert(occurs_at(v@, needle@, 0)) by {
            assert(v@.subrange(0, 0) =~= needle@);
        }
        return true;
    }
    if needle.len() > v.len() {
        return false;
    }
    let last = v.len() - needle.len();
    let mut i: usize = 0;
    while i <= last
        invariant
            i <= last + 1,
            last == v.len() - needle.len(),
            needle.len() > 0,
            forall|j: int| 0 <= j < i ==> !occurs_at(v@, needle@, j),
        decreases last + 1 - i,
    {
        if matches_at(v, i, needle) {
            return true;
        }
        i += 1;
    }
    false
}

/// Whether one of `needles` occurs somewhere in `v`.
pub fn contains_one_of(v: &Vec<char>, needles: &Vec<Vec<char>>) -> (r: bool)
    ensures
        r == contains_any(v@, texts(needles@)),
{
    let mut k: usize = 0;
    while k < needles.len()
        invariant
            k <= needles.len(),
            forall|j: int| 0 <= j < k ==> !contains_text(v@, #[trigger] texts(needles@)[j]),
        decreases needles.len() - k,
    {
        assert(texts(needles@)[k as int] == needles[k as int]@);
        if contains(v, &needles[k]) {
            return true;
        }
        k += 1;
    }
    false
}

/// Whether `v` begins with `prefix`.
pub fn starts_with(v: &Vec<char>, prefix: &Vec<char>) -> (r: bool)
    ensures
        r == has_prefix(v@, prefix@),
{
    matches_at(v, 0, prefix)
}

/// The length of `v` without the copies of `suffix` that it ends with.
pub fn suffix_free_len(v: &Vec<char>, suffix: &Vec<char>) -> (n: usize)
    ensures
        n <= v.len(),
        v@.take(n as int) == without_suffix(v@, suffix@),
{
    let mut n: usize = v.len();
    assert(v@.take(v.len() as int) =~= v@);
    if suffix.len() == 0 {
        return n;
    }
    while n >= suffix.len() && matches_at(v, n - suffix.len(), suffix)
        invariant
            n <= v.len(),
            suffix.len() > 0,
            without_suffix(v@.take(n as int), suffix@) == without_suffix(v@, suffix@),
        decreases n,
    {
        proof {
            let t = v@.take(n as int);
            assert(t.subrange(n - suffix.len(), n as int) =~= v@.subrange(
                n - suffix.len(),
                n as int,
            ));
            assert(t.take(t.len() - suffix.len()) =~= v@.take(n - suffix.len()));
        }
        n -= suffix.len();
    }
    proof {
        let t = v@.take(n as int);
        if n >= suffix.len() {
            assert(t.subrange(n - suffix.len(), n as int) =~= v@.subrange(
                n - suffix.len(),
                n as int,
            ));
        }
    }
    n
}

/// The index of the last `c` among the first `n` characters of `v`.
pub fn find_last_char(v: &Vec<char>, n: usize, c: char) -> (r: Option<usize>)
    requires
        n <= v.len(),
    ensures
        match r {
            Some(i) => last_index_of(v@.take(n as int), c) == i && i < n && v@[i as int] == c,
            None => last_index_of(v@.take(n as int), c) == -1,
        },
{
    let mut i: usize = n;
    while i > 0
        invariant
            i <= n <= v.len(),
            last_index_of(v@.take(n as int), c) == last_index_of(v@.take(i as int), c),
        decreases i,
    {
        assert(v@.take(i as int).drop_last() =~= v@.take(i - 1));
        if v[i - 1] == c {
            return Some(i - 1);
        }
        i -= 1;
    }
    None
}

/// The index of the first `c` in `v`, or the length of `v` where there is none.
pub fn find_char(v: &Vec<char>, c: char) -> (r: usize)
    ensures
        r == index_of(v@, c),
        r <= v.len(),
        r < v.len() ==> v@[r as int] == c,
        forall|j: int| 0 <= j < r ==> v@[j] != c,
{
    let mut i: usize = 0;
    while i < v.len() && v[i] != c
        invariant
            i <= v.len(),
            forall|j: int| 0 <= j < i ==> v@[j] != c,
        decreases v.len() - i,
    {
        i += 1;
    }
    proof {
        lemma_index_of(v@, c, i as int);
    }
    i
}

pub proof fn lemma_index_of(s: Seq<char>, c: char, k: int)
    requires
        0 <= k <= s.len(),
        forall|j: int| 0 <= j < k ==> s[j] != c,
        k == s.len() || s[k] == c,
    ensures
        index_of(s, c) == k,
    decreases k,
{
    if k > 0 {
        lemma_index_of(s.drop_first(), c, k - 1);
    }
}

} // verus!
