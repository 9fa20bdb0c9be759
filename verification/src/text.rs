//! Character-sequence vocabulary: substring search, trimming, lines, UTF-8 widths.

use vstd::prelude::*;

verus! {

/// `pat` occurs in `s` starting at index `i`.
pub open spec fn occurs_at(s: Seq<char>, pat: Seq<char>, i: int) -> bool {
    &&& 0 <= i
    &&& i + pat.len() <= s.len()
    &&& s.subrange(i, i + pat.len()) == pat
}

/// `pat` occurs somewhere in `s` (the empty pattern occurs everywhere).
pub open spec fn contains_seq(s: Seq<char>, pat: Seq<char>) -> bool {
    exists|i: int| occurs_at(s, pat, i)
}

/// `s` begins with `pat`.
pub open spec fn starts_with(s: Seq<char>, pat: Seq<char>) -> bool {
    occurs_at(s, pat, 0)
}

/// `s` ends with `pat`.
pub open spec fn ends_with(s: Seq<char>, pat: Seq<char>) -> bool {
    occurs_at(s, pat, s.len() - pat.len())
}

/// Whether `pat` occurs in `s` at index `i`.
pub fn occurs_at_exec(s: &Vec<char>, pat: &Vec<char>, i: usize) -> (r: bool)
    ensures
        r == occurs_at(s@, pat@, i as int),
{
    if i > s.len() || pat.len() > s.len() - i {
        return false;
    }
    let mut j: usize = 0;
    while j < pat.len()
        invariant
            j <= pat.len(),
            i + pat.len() <= s.len(),
            forall|k: int| 0 <= k < j ==> s@[i + k] == pat@[k],
        decreases pat.len() - j,
    {
        if s[i + j] != pat[j] {
            assert(s@.subrange(i as int, i + pat.len())[j as int] != pat@[j as int]);
            return false;
        }
        j += 1;
    }
    assert(s@.subrange(i as int, i + pat.len()) =~= pat@);
    true
}

/// Whether `pat` occurs anywhere in `s`.
pub fn contains_exec(s: &Vec<char>, pat: &Vec<char>) -> (r: bool)
    ensures
        r == contains_seq(s@, pat@),
{
    if pat.len() > s.len() {
        assert forall|i: int| !occurs_at(s@, pat@, i) by {}
        return false;
    }
    let last = s.len() - pat.len();
    let mut i: usize = 0;
    loop
        invariant
            last == s.len() - pat.len(),
            i <= last,
            forall|k: int| 0 <= k < i ==> !occurs_at(s@, pat@, k),
        decreases last - i,
    {
        if occurs_at_exec(s, pat, i) {
            return true;
        }
        if i == last {
            assert forall|k: int| !occurs_at(s@, pat@, k) by {
                if 0 <= k < i {
                }
            }
            return false;
        }
        i += 1;
    }
}

/// Whether `s` begins with `pat`.
pub fn starts_with_exec(s: &Vec<char>, pat: &Vec<char>) -> (r: bool)
    ensures
        r == starts_with(s@, pat@),
{
    occurs_at_exec(s, pat, 0)
}

/// Whether `s` ends with `pat`.
pub fn ends_with_exec(s: &Vec<char>, pat: &Vec<char>) -> (r: bool)
    ensures
        r == ends_with(s@, pat@),
{
    if pat.len() > s.len() {
        return false;
    }
    occurs_at_exec(s, pat, s.len() - pat.len())
}


/// Copy of `s[i..j]`.
pub fn subvec(s: &Vec<char>, i: usize, j: usize) -> (r: Vec<char>)
    requires
        i <= j <= s.len(),
    ensures
        r@ == s@.subrange(i as int, j as int),
{
    let mut r: Vec<char> = Vec::new();
    let mut k: usize = i;
    while k < j
        invariant
            i <= k <= j <= s.len(),
            r@ == s@.subrange(i as int, k as int),
        decreases j - k,
    {
        r.push(s[k]);
        assert(s@.subrange(i as int, k + 1) =~= s@.subrange(i as int, k as int).push(s@[k as int]));
        k += 1;
    }
    r
}

/// Concatenation of `a` and `b`.
pub fn concat(a: &Vec<char>, b: &Vec<char>) -> (r: Vec<char>)
    ensures
        r@ == a@ + b@,
{
    let mut r: Vec<char> = Vec::new();
    let mut k: usize = 0;
    while k < a.len()
        invariant
            k <= a.len(),
            r@ == a@.subrange(0, k as int),
        decreases a.len() - k,
    {
        r.push(a[k]);
        assert(a@.subrange(0, k + 1) =~= a@.subrange(0, k as int).push(a@[k as int]));
        k += 1;
    }
    assert(a@.subrange(0, a.len() as int) =~= a@);
    let mut k: usize = 0;
    while k < b.len()
        invariant
            k <= b.len(),
            r@ == a@ + b@.subrange(0, k as int),
        decreases b.len() - k,
    {
        r.push(b[k]);
        assert(a@ + b@.subrange(0, k + 1) =~= (a@ + b@.subrange(0, k as int)).push(b@[k as int]));
        k += 1;
    }
    assert(b@.subrange(0, b.len() as int) =~= b@);
    r
}

// ---------------------------------------------------------------------------
// Whitespace and trimming
// ---------------------------------------------------------------------------

/// The characters with the Unicode `White_Space` property, which is what
/// `char::is_whitespace` and `str::trim` go by.
pub open spec fn is_whitespace(c: char) -> bool {
    let u = c as u32;
    ||| 0x9 <= u <= 0xD
    ||| u == 0x20
    ||| u == 0x85
    ||| u == 0xA0
    ||| u == 0x1680
    ||| 0x2000 <= u <= 0x200A
    ||| u == 0x2028
    ||| u == 0x2029
    ||| u == 0x202F
    ||| u == 0x205F
    ||| u == 0x3000
}

/// `s` without its leading whitespace.
pub open spec fn trim_start_spec(s: Seq<char>) -> Seq<char>
    decreases s.len(),
{
    if s.len() > 0 && is_whitespace(s[0]) {
        trim_start_spec(s.drop_first())
    } else {
        s
    }
}

/// `s` without its trailing whitespace.
pub open spec fn trim_end_spec(s: Seq<char>) -> Seq<char>
    decreases s.len(),
{
    if s.len() > 0 && is_whitespace(s.last()) {
        trim_end_spec(s.drop_last())
    } else {
        s
    }
}

/// `s` without leading and trailing whitespace, as `str::trim` gives it.
pub open spec fn trim_spec(s: Seq<char>) -> Seq<char> {
    trim_end_spec(trim_start_spec(s))
}

/// Whether `c` is whitespace.
pub fn is_whitespace_exec(c: char) -> (r: bool)
    ensures
        r == is_whitespace(c),
{
    let u = c as u32;
    (0x9 <= u && u <= 0xD) || u == 0x20 || u == 0x85 || u == 0xA0 || u == 0x1680 || (0x2000 <= u
        && u <= 0x200A) || u == 0x2028 || u == 0x2029 || u == 0x202F || u == 0x205F || u == 0x3000
}

/// `s` with leading and trailing whitespace removed.
pub fn trim_chars(s: &Vec<char>) -> (r: Vec<char>)
    ensures
        r@ == trim_spec(s@),
{
    let n = s.len();
    let mut i: usize = 0;
    assert(s@.subrange(0, n as int) =~= s@);
    while i < n && is_whitespace_exec(s[i])
        invariant
            n == s.len(),
            i <= n,
            trim_start_spec(s@) == trim_start_spec(s@.subrange(i as int, n as int)),
        decreases n - i,
    {
        assert(s@.subrange(i as int, n as int).drop_first() =~= s@.subrange(i + 1, n as int));
        i += 1;
    }
    assert(trim_start_spec(s@) == s@.subrange(i as int, n as int));
    let mut j: usize = n;
    while j > i && is_whitespace_exec(s[j - 1])
        invariant
            n == s.len(),
            i <= j <= n,
            trim_spec(s@) == trim_end_spec(s@.subrange(i as int, j as int)),
        decreases j - i,
    {
        assert(s@.subrange(i as int, j as int).drop_last() =~= s@.subrange(i as int, j - 1));
        j -= 1;
    }
    subvec(s, i, j)
}

proof fn lemma_trim_start_shape(s: Seq<char>)
    ensures
        trim_start_spec(s).len() == 0 || !is_whitespace(trim_start_spec(s)[0]),
    decreases s.len(),
{
    if s.len() > 0 && is_whitespace(s[0]) {
        lemma_trim_start_shape(s.drop_first());
    }
}

proof fn lemma_trim_end_shape(s: Seq<char>)
    ensures
        trim_end_spec(s) =~= s.subrange(0, trim_end_spec(s).len() as int),
        trim_end_spec(s).len() <= s.len(),
        trim_end_spec(s).len() == 0 || !is_whitespace(trim_end_spec(s).last()),
        s.len() > 0 && !is_whitespace(s[0]) ==> trim_end_spec(s).len() > 0,
    decreases s.len(),
{
    if s.len() > 0 && is_whitespace(s.last()) {
        lemma_trim_end_shape(s.drop_last());
        let t = trim_end_spec(s.drop_last());
        assert(s.drop_last().subrange(0, t.len() as int) =~= s.subrange(0, t.len() as int));
    }
}

/// Trimming twice removes nothing more than trimming once.
pub proof fn lemma_trim_idempotent(s: Seq<char>)
    ensures
        trim_spec(trim_spec(s)) == trim_spec(s),
{
    let u = trim_start_spec(s);
    lemma_trim_start_shape(s);
    lemma_trim_end_shape(u);
    let t = trim_end_spec(u);
    if t.len() > 0 {
        assert(t[0] == u[0]);
    }
    assert(trim_start_spec(t) == t);
    assert(trim_end_spec(t) == t);
}


// ---------------------------------------------------------------------------
// UTF-8 byte lengths
// ---------------------------------------------------------------------------

/// Number of bytes in the UTF-8 encoding of `c`.
pub open spec fn char_width(c: char) -> nat {
    let u = c as u32;
    if u < 0x80 {
        1
    } else if u < 0x800 {
        2
    } else if u < 0x10000 {
        3
    } else {
        4
    }
}

/// Number of bytes in the UTF-8 encoding of `s` (what `str::len` returns).
pub open spec fn utf8_len(s: Seq<char>) -> nat
    decreases s.len(),
{
    if s.len() == 0 {
        0
    } else {
        utf8_len(s.drop_last()) + char_width(s.last())
    }
}

/// The first character's width plus the rest's length.
pub proof fn lemma_utf8_len_first(s: Seq<char>)
    requires
        s.len() > 0,
    ensures
        utf8_len(s) == char_width(s[0]) + utf8_len(s.drop_first()),
    decreases s.len(),
{
    if s.len() > 1 {
        let dl = s.drop_last();
        let df = s.drop_first();
        lemma_utf8_len_first(dl);
        assert(dl.drop_first() =~= df.drop_last());
        assert(df.last() == s.last());
        assert(dl[0] == s[0]);
        assert(utf8_len(df) == utf8_len(df.drop_last()) + char_width(df.last()));
        assert(utf8_len(s) == utf8_len(dl) + char_width(s.last()));
    } else {
        assert(s.drop_first().len() == 0);
        assert(s.drop_last().len() == 0);
        assert(s.last() == s[0]);
        assert(utf8_len(s.drop_first()) == 0);
        assert(utf8_len(s.drop_last()) == 0);
        assert(utf8_len(s) == utf8_len(s.drop_last()) + char_width(s.last()));
    }
}

/// `utf8_len` is the length of vstd's UTF-8 encoding, hence what `str::len`
/// returns.
pub proof fn lemma_utf8_len_is_encoded_length(s: Seq<char>)
    ensures
        utf8_len(s) == vstd::utf8::encode_utf8(s).len(),
    decreases s.len(),
{
    if s.len() > 0 {
        lemma_utf8_len_first(s);
        lemma_utf8_len_is_encoded_length(s.drop_first());
        let c = s[0];
        vstd::utf8::char_is_scalar(c);
        assert(vstd::utf8::encode_scalar(c as u32).len() == char_width(c));
    }
}

/// Bytes taken by the first `k` characters of `s`.
pub open spec fn prefix_bytes(s: Seq<char>, k: int) -> nat {
    utf8_len(s.subrange(0, k))
}

/// Byte length of `c`.
pub fn char_width_exec(c: char) -> (r: usize)
    ensures
        r == char_width(c),
{
    let u = c as u32;
    if u < 0x80 {
        1
    } else if u < 0x800 {
        2
    } else if u < 0x10000 {
        3
    } else {
        4
    }
}

/// One more character adds its width.
pub proof fn lemma_prefix_bytes_step(s: Seq<char>, k: int)
    requires
        0 <= k < s.len(),
    ensures
        prefix_bytes(s, k + 1) == prefix_bytes(s, k) + char_width(s[k]),
{
    assert(s.subrange(0, k + 1).drop_last() =~= s.subrange(0, k));
}

/// Longer prefixes take strictly more bytes.
pub proof fn lemma_prefix_bytes_mono(s: Seq<char>, i: int, j: int)
    requires
        0 <= i <= j <= s.len(),
    ensures
        prefix_bytes(s, i) <= prefix_bytes(s, j),
        i < j ==> prefix_bytes(s, i) < prefix_bytes(s, j),
    decreases j - i,
{
    if i < j {
        lemma_prefix_bytes_mono(s, i, j - 1);
        lemma_prefix_bytes_step(s, j - 1);
    }
}

/// `min(utf8_len(s), cap)`, computed without going past `cap`.
pub fn utf8_len_capped(s: &Vec<char>, cap: usize) -> (r: usize)
    ensures
        r == if utf8_len(s@) < cap { utf8_len(s@) } else { cap as nat },
{
    if cap == 0 {
        return 0;
    }
    let mut k: usize = 0;
    let mut acc: usize = 0;
    assert(s@.subrange(0, 0) =~= Seq::<char>::empty());
    while k < s.len()
        invariant
            k <= s.len(),
            acc == prefix_bytes(s@, k as int),
            acc < cap,
        decreases s.len() - k,
    {
        proof {
            lemma_prefix_bytes_step(s@, k as int);
        }
        let w = char_width_exec(s[k]);
        if w >= cap - acc {
            proof {
                lemma_prefix_bytes_mono(s@, k + 1, s.len() as int);
                assert(s@.subrange(0, s.len() as int) =~= s@);
            }
            return cap;
        }
        acc = acc + w;
        k += 1;
    }
    assert(s@.subrange(0, s.len() as int) =~= s@);
    acc
}

/// The largest `k` whose first `k` characters fit in `max` bytes of UTF-8.
pub fn prefix_within_bytes(s: &Vec<char>, max: usize) -> (k: usize)
    ensures
        k <= s.len(),
        prefix_bytes(s@, k as int) <= max,
        k < s.len() ==> prefix_bytes(s@, k + 1) > max,
{
    let mut k: usize = 0;
    let mut acc: usize = 0;
    assert(s@.subrange(0, 0) =~= Seq::<char>::empty());
    while k < s.len()
        invariant
            k <= s.len(),
            acc == prefix_bytes(s@, k as int),
            acc <= max,
        decreases s.len() - k,
    {
        proof {
            lemma_prefix_bytes_step(s@, k as int);
        }
        let w = char_width_exec(s[k]);
        if w > max - acc {
            return k;
        }
        acc = acc + w;
        k += 1;
    }
    k
}

// ---------------------------------------------------------------------------
// Lines and character counts
// ---------------------------------------------------------------------------

/// A line of `s` starts at index `j`: at the very start, or right after a
/// `'\n'`, as long as some character follows. These are exactly the lines that
/// `str::lines` yields (a final line ending opens no further line).
pub open spec fn is_line_start(s: Seq<char>, j: int) -> bool {
    &&& 0 <= j < s.len()
    &&& (j == 0 || s[j - 1] == '\n')
}

/// The line starting at `j` begins with a tab or with two spaces.
pub open spec fn is_indented_at(s: Seq<char>, j: int) -> bool {
    ||| s[j] == '\t'
    ||| (j + 1 < s.len() && s[j] == ' ' && s[j + 1] == ' ')
}

/// Number of line starts among the indices below `n`.
pub open spec fn line_starts_below(s: Seq<char>, n: int) -> nat
    decreases n,
{
    if n <= 0 {
        0
    } else {
        line_starts_below(s, n - 1) + if is_line_start(s, n - 1) {
            1nat
        } else {
            0nat
        }
    }
}

/// Number of indented line starts among the indices below `n`.
pub open spec fn indented_starts_below(s: Seq<char>, n: int) -> nat
    decreases n,
{
    if n <= 0 {
        0
    } else {
        indented_starts_below(s, n - 1) + if is_line_start(s, n - 1) && is_indented_at(s, n - 1) {
            1nat
        } else {
            0nat
        }
    }
}

/// Number of lines of `s` (what `s.lines().count()` gives).
pub open spec fn line_count(s: Seq<char>) -> nat {
    line_starts_below(s, s.len() as int)
}

/// Number of lines of `s` that begin with two spaces or a tab.
pub open spec fn indented_line_count(s: Seq<char>) -> nat {
    indented_starts_below(s, s.len() as int)
}

/// Number of occurrences of `c` among the first `n` characters of `s`.
pub open spec fn count_char_below(s: Seq<char>, c: char, n: int) -> nat
    decreases n,
{
    if n <= 0 {
        0
    } else {
        count_char_below(s, c, n - 1) + if s[n - 1] == c {
            1nat
        } else {
            0nat
        }
    }
}

/// Number of occurrences of `c` in `s`.
pub open spec fn count_char(s: Seq<char>, c: char) -> nat {
    count_char_below(s, c, s.len() as int)
}

/// Number of lines, and number of indented lines, of `s`.
pub fn count_lines(s: &Vec<char>) -> (r: (usize, usize))
    ensures
        r.0 == line_count(s@),
        r.1 == indented_line_count(s@),
{
    let mut lines: usize = 0;
    let mut indented: usize = 0;
    let mut j: usize = 0;
    while j < s.len()
        invariant
            j <= s.len(),
            lines == line_starts_below(s@, j as int),
            indented == indented_starts_below(s@, j as int),
            lines <= j,
            indented <= lines,
        decreases s.len() - j,
    {
        if j == 0 || s[j - 1] == '\n' {
            lines += 1;
            if s[j] == '\t' || (j + 1 < s.len() && s[j] == ' ' && s[j + 1] == ' ') {
                indented += 1;
            }
        }
        j += 1;
    }
    (lines, indented)
}

/// Number of occurrences of `c` in `s`.
pub fn count_char_exec(s: &Vec<char>, c: char) -> (r: usize)
    ensures
        r == count_char(s@, c),
{
    let mut n: usize = 0;
    let mut j: usize = 0;
    while j < s.len()
        invariant
            j <= s.len(),
            n == count_char_below(s@, c, j as int),
            n <= j,
        decreases s.len() - j,
    {
        if s[j] == c {
            n += 1;
        }
        j += 1;
    }
    n
}

// ---------------------------------------------------------------------------
// Conversions between `str` and characters, and lowercasing
// ---------------------------------------------------------------------------

/// The characters of `s`, in order.
pub fn chars_of(s: &str) -> (v: Vec<char>)
    ensures
        v@ == s@,
{
    broadcast use vstd::string::group_string_axioms;
    let mut v: Vec<char> = Vec::new();
    for c in it: s.chars()
        invariant
            it.seq() == s@,
            v@ == it.seq().take(it.index() as int),
    {
        v.push(c);
    }
    v
}

/// The string made of the characters `v` (`FromIterator<&char>` for `String`).
#[verifier::external_body]
pub fn string_from_chars(v: &Vec<char>) -> (s: String)
    ensures
        s@ == v@,
{
    v.iter().collect()
}

/// What `str::to_lowercase` returns for a string with the characters `s`:
/// Unicode's locale-independent lowercase mapping, which depends on `s` alone.
pub uninterp spec fn lowercase(s: Seq<char>) -> Seq<char>;

/// An ASCII character.
pub open spec fn is_ascii_char(c: char) -> bool {
    (c as u32) < 0x80
}

/// Every character of `s` is ASCII.
pub open spec fn all_ascii(s: Seq<char>) -> bool {
    forall|i: int| 0 <= i < s.len() ==> is_ascii_char(#[trigger] s[i])
}

/// `'A'` to `'Z'` mapped to `'a'` to `'z'`; every other character kept.
pub open spec fn ascii_lower(c: char) -> char {
    if 'A' <= c && c <= 'Z' {
        ((c as u32) + 32) as char
    } else {
        c
    }
}

/// `s` with its ASCII capitals lowercased.
pub open spec fn ascii_lowercase(s: Seq<char>) -> Seq<char> {
    s.map_values(|c: char| ascii_lower(c))
}

/// The lowercase form of `s`: on ASCII text, its capitals lowercased and
/// everything else kept; on other text, Unicode's mapping (`lowercase`).
pub open spec fn lower_text(s: Seq<char>) -> Seq<char> {
    if all_ascii(s) {
        ascii_lowercase(s)
    } else {
        lowercase(s)
    }
}

/// Calls `str::to_lowercase` on the string made of the characters `v` and
/// returns the characters of the result. The contract claims that on ASCII
/// text the result maps `'A'`–`'Z'` to `'a'`–`'z'` and keeps every other
/// character (as `str::to_ascii_lowercase` documents for ASCII, and Unicode's
/// mapping agrees), and that on any other text it is `lowercase(v@)`, a
/// function of `v@` alone.
#[verifier::external_body]
pub fn to_lowercase_chars(v: &Vec<char>) -> (r: Vec<char>)
    ensures
        all_ascii(v@) ==> r@ == ascii_lowercase(v@),
        !all_ascii(v@) ==> r@ == lowercase(v@),
{
    v.iter().collect::<String>().to_lowercase().chars().collect()
}

/// On ASCII text, a suffix stays a suffix after lowercasing.
pub proof fn lemma_ascii_lowercase_keeps_suffix(s: Seq<char>, suffix: Seq<char>)
    requires
        ends_with(s, suffix),
    ensures
        ends_with(ascii_lowercase(s), ascii_lowercase(suffix)),
{
    let k = s.len() - suffix.len();
    assert(ascii_lowercase(s).subrange(k, s.len() as int) =~= ascii_lowercase(suffix));
}

} // verus!
