//! Character-level text handling shared by the wire formats: whitespace,
//! case folding, splitting and joining, and decimal numerals.
//!
//! All functions work on sequences of `char`; a `&str` is turned into its
//! characters once, with [`chars_of`], and back with [`string_of`].

use vstd::prelude::*;

verus! {

/// `String::push` appends one character to the end of the string.
pub assume_specification[ String::push ](s: &mut String, ch: char)
    ensures
        final(s)@ == old(s)@.push(ch),
;

/// The uppercase mapping that `char::to_uppercase` yields for `c`.
pub uninterp spec fn unicode_upper(c: char) -> Seq<char>;

/// Calls `char::to_uppercase` and collects the characters it yields. The
/// mapping is a fixed table of the Unicode standard, which maps every
/// character to one character or more; nothing else is claimed of it
/// beyond its name.
#[verifier::external_body]
fn unicode_upper_of(c: char) -> (r: Vec<char>)
    ensures
        r@ == unicode_upper(c),
        r@.len() >= 1,
{
    c.to_uppercase().collect()
}

/// The characters of `s`, in order.
pub fn chars_of(s: &str) -> (out: Vec<char>)
    ensures
        out@ == s@,
{
    let mut out: Vec<char> = Vec::new();
    for c in it: s.chars()
        invariant
            out@ == it.seq().take(it.index() as int),
    {
        out.push(c);
    }
    out
}

/// The string made of `chars`, in order.
pub fn string_of(chars: &[char]) -> (out: String)
    ensures
        out@ == chars@,
{
    let mut out = String::new();
    let mut i: usize = 0;
    while i < chars.len()
        invariant
            i <= chars.len(),
            out@ == chars@.take(i as int),
        decreases chars.len() - i,
    {
        out.push(chars[i]);
        i += 1;
    }
    out
}

/// Appends the characters of `more` to `out`.
pub fn push_all(out: &mut Vec<char>, more: &[char])
    ensures
        final(out)@ == old(out)@ + more@,
{
    let mut i: usize = 0;
    while i < more.len()
        invariant
            i <= more.len(),
            out@ == old(out)@ + more@.take(i as int),
        decreases more.len() - i,
    {
        out.push(more[i]);
        i += 1;
    }
}

/// Whether two character slices hold the same text.
pub fn same_chars(a: &[char], b: &[char]) -> (r: bool)
    ensures
        r == (a@ == b@),
{
    if a.len() != b.len() {
        return false;
    }
    let mut i: usize = 0;
    while i < a.len()
        invariant
            i <= a.len(),
            a.len() == b.len(),
            a@.take(i as int) == b@.take(i as int),
        decreases a.len() - i,
    {
        if a[i] != b[i] {
            return false;
        }
        assert(a@.take(i + 1) == a@.take(i as int).push(a@[i as int]));
        assert(b@.take(i + 1) == b@.take(i as int).push(b@[i as int]));
        i += 1;
    }
    assert(a@ == a@.take(a.len() as int));
    assert(b@ == b@.take(b.len() as int));
    true
}

// ---------------------------------------------------------------------------
// Whitespace
// ---------------------------------------------------------------------------

/// The characters with the Unicode property `White_Space`.
pub open spec fn is_space(c: char) -> bool {
    let n = c as u32;
    ||| 0x09 <= n <= 0x0D
    ||| n == 0x20
    ||| n == 0x85
    ||| n == 0xA0
    ||| n == 0x1680
    ||| 0x2000 <= n <= 0x200A
    ||| n == 0x2028
    ||| n == 0x2029
    ||| n == 0x202F
    ||| n == 0x205F
    ||| n == 0x3000
}

pub fn is_whitespace(c: char) -> (r: bool)
    ensures
        r == is_space(c),
{
    let n: u32 = c as u32;
    (0x09 <= n && n <= 0x0D) || n == 0x20 || n == 0x85 || n == 0xA0 || n == 0x1680 || (0x2000 <= n
        && n <= 0x200A) || n == 0x2028 || n == 0x2029 || n == 0x202F || n == 0x205F || n == 0x3000
}

/// `s` without its leading whitespace.
pub open spec fn trim_start(s: Seq<char>) -> Seq<char>
    decreases s.len(),
{
    if s.len() > 0 && is_space(s.first()) {
        trim_start(s.drop_first())
    } else {
        s
    }
}

/// `s` without its trailing whitespace.
pub open spec fn trim_end(s: Seq<char>) -> Seq<char>
    decreases s.len(),
{
    if s.len() > 0 && is_space(s.last()) {
        trim_end(s.drop_last())
    } else {
        s
    }
}

/// `s` without leading and trailing whitespace.
pub open spec fn trim(s: Seq<char>) -> Seq<char> {
    trim_end(trim_start(s))
}

/// A text that neither starts nor ends with whitespace.
pub open spec fn is_trimmed(s: Seq<char>) -> bool {
    s.len() > 0 ==> !is_space(s.first()) && !is_space(s.last())
}

pub proof fn lemma_trim_start_skips(s: Seq<char>, k: int)
    requires
        0 <= k <= s.len(),
        forall|j: int| 0 <= j < k ==> is_space(#[trigger] s[j]),
    ensures
        trim_start(s) == trim_start(s.skip(k)),
    decreases k,
{
    if k > 0 {
        assert(s.drop_first().skip(k - 1) == s.skip(k));
        lemma_trim_start_skips(s.drop_first(), k - 1);
    } else {
        assert(s.skip(0) == s);
    }
}

pub proof fn lemma_trim_end_takes(s: Seq<char>, k: int)
    requires
        0 <= k <= s.len(),
        forall|j: int| k <= j < s.len() ==> is_space(#[trigger] s[j]),
    ensures
        trim_end(s) == trim_end(s.take(k)),
    decreases s.len() - k,
{
    if k < s.len() {
        assert(s.drop_last().take(k) == s.take(k));
        lemma_trim_end_takes(s.drop_last(), k);
    } else {
        assert(s.take(k) == s);
    }
}

/// Trimming yields a trimmed text, and a trimmed text is left as it is.
pub proof fn lemma_trim_is_trimmed(s: Seq<char>)
    ensures
        is_trimmed(trim(s)),
        is_trimmed(s) ==> trim(s) == s,
{
    lemma_trim_start_head(s);
    lemma_trim_end_keeps_head(trim_start(s));
}

proof fn lemma_trim_start_head(s: Seq<char>)
    ensures
        trim_start(s).len() > 0 ==> !is_space(trim_start(s).first()),
        trim_start(s).len() <= s.len(),
    decreases s.len(),
{
    if s.len() > 0 && is_space(s.first()) {
        lemma_trim_start_head(s.drop_first());
    }
}

proof fn lemma_trim_end_keeps_head(s: Seq<char>)
    ensures
        trim_end(s).len() > 0 ==> !is_space(trim_end(s).last()) && trim_end(s).first()
            == s.first(),
        trim_end(s).len() <= s.len(),
    decreases s.len(),
{
    if s.len() > 0 && is_space(s.last()) {
        lemma_trim_end_keeps_head(s.drop_last());
    }
}

/// A copy of `chars` without leading and trailing whitespace.
pub fn trim_chars(chars: &[char]) -> (out: Vec<char>)
    ensures
        out@ == trim(chars@),
{
    let mut lo: usize = 0;
    while lo < chars.len() && is_whitespace(chars[lo])
        invariant
            lo <= chars.len(),
            forall|j: int| 0 <= j < lo ==> is_space(#[trigger] chars@[j]),
        decreases chars.len() - lo,
    {
        lo += 1;
    }
    let mut hi: usize = chars.len();
    while hi > lo && is_whitespace(chars[hi - 1])
        invariant
            lo <= hi <= chars.len(),
            forall|j: int| hi <= j < chars.len() ==> is_space(#[trigger] chars@[j]),
        decreases hi - lo,
    {
        hi -= 1;
    }
    let mut out: Vec<char> = Vec::new();
    let mut i: usize = lo;
    while i < hi
        invariant
            lo <= i <= hi <= chars.len(),
            out@ == chars@.subrange(lo as int, i as int),
        decreases hi - i,
    {
        out.push(chars[i]);
        i += 1;
    }
    proof {
        let s = chars@;
        let front = s.skip(lo as int);
        lemma_trim_start_skips(s, lo as int);
        assert(trim_start(front) == front);
        assert(trim_start(s) == front);
        assert forall|j: int| hi - lo <= j < front.len() implies is_space(#[trigger] front[j]) by {
            assert(front[j] == s[j + lo]);
        }
        lemma_trim_end_takes(front, hi - lo);
        let kept = front.take(hi - lo);
        assert(kept == s.subrange(lo as int, hi as int));
        if kept.len() > 0 {
            assert(kept.last() == s[hi - 1]);
        }
        assert(trim_end(kept) == kept);
    }
    out
}

// ---------------------------------------------------------------------------
// Case
// ---------------------------------------------------------------------------

/// Whether `c` is in the ASCII range.
pub open spec fn is_ascii_char(c: char) -> bool {
    (c as u32) < 128
}

/// The ASCII uppercase of `c`: `a`..`z` become `A`..`Z`, all else stays.
pub open spec fn ascii_upper(c: char) -> char {
    if 'a' <= c && c <= 'z' {
        ((c as u32) - 32) as char
    } else {
        c
    }
}

/// The uppercase form of one character: by the ASCII rule inside the ASCII
/// range, and the Unicode uppercase mapping outside of it.
pub open spec fn upper_char(c: char) -> Seq<char> {
    if is_ascii_char(c) {
        seq![ascii_upper(c)]
    } else {
        unicode_upper(c)
    }
}

/// The uppercase form of a text: the uppercase forms of its characters, in
/// order.
pub open spec fn upper(s: Seq<char>) -> Seq<char>
    decreases s.len(),
{
    if s.len() == 0 {
        Seq::empty()
    } else {
        upper(s.drop_last()) + upper_char(s.last())
    }
}

/// A text made of ASCII characters none of which is a lowercase letter.
pub open spec fn is_ascii_upper(s: Seq<char>) -> bool {
    forall|i: int| 0 <= i < s.len() ==> is_ascii_char(#[trigger] s[i]) && !('a' <= s[i] && s[i] <= 'z')
}

/// Uppercasing leaves an ASCII text without lowercase letters as it is.
pub proof fn lemma_upper_fixes_ascii_upper(s: Seq<char>)
    requires
        is_ascii_upper(s),
    ensures
        upper(s) == s,
    decreases s.len(),
{
    if s.len() > 0 {
        lemma_upper_fixes_ascii_upper(s.drop_last());
        assert(upper_char(s.last()) == seq![s.last()]);
        assert(s.drop_last() + seq![s.last()] == s);
    }
}

/// The ASCII uppercase of `c`.
pub fn upper_ascii_char(c: char) -> (r: char)
    ensures
        r == ascii_upper(c),
{
    if 'a' <= c && c <= 'z' {
        let n: u8 = (c as u8) - 32;
        n as char
    } else {
        c
    }
}

/// `chars` with each ASCII lowercase letter in uppercase.
pub fn upper_ascii_chars(chars: &[char]) -> (out: Vec<char>)
    ensures
        out@ == chars@.map_values(|c: char| ascii_upper(c)),
{
    let mut out: Vec<char> = Vec::new();
    let mut i: usize = 0;
    while i < chars.len()
        invariant
            i <= chars.len(),
            out@ == chars@.take(i as int).map_values(|c: char| ascii_upper(c)),
        decreases chars.len() - i,
    {
        let c = chars[i];
        let ghost before = out@;
        if 'a' <= c && c <= 'z' {
            out.push(upper_ascii_char(c));
        } else {
            out.push(c);
        }
        assert(chars@.take(i + 1) == chars@.take(i as int).push(c));
        assert(out@ == before.push(ascii_upper(c)));
        i += 1;
    }
    assert(chars@.take(chars.len() as int) == chars@);
    out
}

/// The uppercase form of `chars`. It is not shorter than `chars`, and so
/// it is empty only where `chars` is.
pub fn upper_chars(chars: &[char]) -> (out: Vec<char>)
    ensures
        out@ == upper(chars@),
        out@.len() >= chars@.len(),
{
    let mut out: Vec<char> = Vec::new();
    let mut i: usize = 0;
    while i < chars.len()
        invariant
            i <= chars.len(),
            out@ == upper(chars@.take(i as int)),
            out@.len() >= i,
        decreases chars.len() - i,
    {
        let c = chars[i];
        proof {
            assert(chars@.take(i + 1).drop_last() == chars@.take(i as int));
            assert(chars@.take(i + 1).last() == c);
        }
        if (c as u32) < 128 {
            out.push(upper_ascii_char(c));
        } else {
            let mapped = unicode_upper_of(c);
            push_all(&mut out, mapped.as_slice());
        }
        i += 1;
    }
    assert(chars@.take(chars.len() as int) == chars@);
    out
}

// ---------------------------------------------------------------------------
// Splitting and joining
// ---------------------------------------------------------------------------

/// What separates the pieces of a text.
#[derive(Clone, Copy, Debug)]
pub enum Separator {
    /// One given character.
    Char(char),
    /// Any whitespace character.
    Whitespace,
}

impl Separator {
    pub open spec fn matches(self, c: char) -> bool {
        match self {
            Separator::Char(d) => c == d,
            Separator::Whitespace => is_space(c),
        }
    }

    pub fn is_match(&self, c: char) -> (r: bool)
        ensures
            r == self.matches(c),
    {
        match self {
            Separator::Char(d) => c == *d,
            Separator::Whitespace => is_whitespace(c),
        }
    }
}

/// The pieces of `s` between separators. A text with `n` separators has
/// `n + 1` pieces, some of which may be empty.
pub open spec fn split(s: Seq<char>, sep: Separator) -> Seq<Seq<char>>
    decreases s.len(),
{
    if s.len() == 0 {
        seq![Seq::<char>::empty()]
    } else {
        let init = split(s.drop_last(), sep);
        if sep.matches(s.last()) {
            init.push(Seq::empty())
        } else {
            init.update(init.len() - 1, init.last().push(s.last()))
        }
    }
}

/// The texts of a list of character vectors.
pub open spec fn views(v: Seq<Vec<char>>) -> Seq<Seq<char>> {
    Seq::new(v.len(), |i: int| v[i]@)
}

/// The texts of a list of strings.
pub open spec fn texts(v: Seq<String>) -> Seq<Seq<char>> {
    Seq::new(v.len(), |i: int| v[i]@)
}

/// The pieces of `chars` between separators.
pub fn split_chars(chars: &[char], sep: Separator) -> (out: Vec<Vec<char>>)
    ensures
        views(out@) == split(chars@, sep),
{
    let mut out: Vec<Vec<char>> = Vec::new();
    let mut cur: Vec<char> = Vec::new();
    let mut i: usize = 0;
    while i < chars.len()
        invariant
            i <= chars.len(),
            views(out@).push(cur@) == split(chars@.take(i as int), sep),
        decreases chars.len() - i,
    {
        let c = chars[i];
        proof {
            assert(chars@.take(i + 1).drop_last() == chars@.take(i as int));
            assert(chars@.take(i + 1).last() == c);
        }
        let ghost before = views(out@).push(cur@);
        if sep.is_match(c) {
            out.push(cur);
            cur = Vec::new();
            assert(views(out@).push(cur@) == before.push(Seq::empty()));
        } else {
            cur.push(c);
            assert(views(out@).push(cur@) == before.update(
                before.len() - 1,
                before.last().push(c),
            ));
        }
        i += 1;
    }
    assert(chars@.take(chars.len() as int) == chars@);
    let ghost before = views(out@).push(cur@);
    out.push(cur);
    assert(views(out@) == before);
    out
}

/// The pieces of `parts` in one text, with `sep` between neighbours.
pub open spec fn join(parts: Seq<Seq<char>>, sep: char) -> Seq<char>
    decreases parts.len(),
{
    if parts.len() == 0 {
        Seq::empty()
    } else if parts.len() == 1 {
        parts[0]
    } else {
        join(parts.drop_last(), sep).push(sep) + parts.last()
    }
}

/// The words of `s`: its maximal runs of characters that are not whitespace.
pub open spec fn words(s: Seq<char>) -> Seq<Seq<char>> {
    split(s, Separator::Whitespace).filter(|w: Seq<char>| w.len() > 0)
}

/// The words of `chars`.
pub fn words_of(chars: &[char]) -> (out: Vec<Vec<char>>)
    ensures
        views(out@) == words(chars@),
{
    let pieces = split_chars(chars, Separator::Whitespace);
    let ghost keep = |w: Seq<char>| w.len() > 0;
    let mut out: Vec<Vec<char>> = Vec::new();
    let mut i: usize = 0;
    while i < pieces.len()
        invariant
            i <= pieces.len(),
            keep == (|w: Seq<char>| w.len() > 0),
            views(out@) == views(pieces@).take(i as int).filter(keep),
        decreases pieces.len() - i,
    {
        proof {
            let all = views(pieces@);
            assert(all.take(i + 1) == all.take(i as int).push(all[i as int]));
            Seq::lemma_filter_push(all.take(i as int), all[i as int], keep);
        }
        let ghost before = views(out@);
        if pieces[i].len() > 0 {
            let piece = clone_chars(&pieces[i]);
            out.push(piece);
            assert(views(out@) == before.push(pieces@[i as int]@));
        }
        i += 1;
    }
    assert(views(pieces@).take(pieces.len() as int) == views(pieces@));
    out
}

/// A copy of `chars`.
pub fn clone_chars(chars: &Vec<char>) -> (out: Vec<char>)
    ensures
        out@ == chars@,
{
    let mut out: Vec<char> = Vec::new();
    push_all(&mut out, chars.as_slice());
    out
}

/// A text in which no character is a separator.
pub open spec fn is_free_of(s: Seq<char>, sep: Separator) -> bool {
    forall|i: int| 0 <= i < s.len() ==> !sep.matches(#[trigger] s[i])
}

/// A text without separators is its own single piece.
pub proof fn lemma_split_single(p: Seq<char>, sep: Separator)
    requires
        is_free_of(p, sep),
    ensures
        split(p, sep) == seq![p],
    decreases p.len(),
{
    if p.len() > 0 {
        lemma_split_single(p.drop_last(), sep);
        assert(p.drop_last().push(p.last()) == p);
        assert(seq![p.drop_last()].update(0, p.drop_last().push(p.last())) == seq![p]);
    } else {
        assert(p == Seq::<char>::empty());
    }
}

/// A separator and a text without separators, put behind `a`, add one piece.
pub proof fn lemma_split_append_piece(a: Seq<char>, d: char, p: Seq<char>, sep: Separator)
    requires
        sep.matches(d),
        is_free_of(p, sep),
    ensures
        split(a.push(d) + p, sep) == split(a, sep).push(p),
    decreases p.len(),
{
    let whole = a.push(d) + p;
    if p.len() == 0 {
        assert(whole == a.push(d));
        assert(whole.drop_last() == a);
        assert(p == Seq::<char>::empty());
    } else {
        let q = p.drop_last();
        lemma_split_append_piece(a, d, q, sep);
        assert(whole.drop_last() == a.push(d) + q);
        assert(whole.last() == p.last());
        let init = split(a, sep).push(q);
        assert(init.update(init.len() - 1, init.last().push(p.last())) == split(a, sep).push(p))
            by {
            assert(q.push(p.last()) == p);
        }
    }
}

/// Splitting what was joined gives the pieces back, as long as there is at
/// least one piece and no piece holds the separator.
pub proof fn lemma_split_join(parts: Seq<Seq<char>>, d: char)
    requires
        parts.len() >= 1,
        forall|i: int| 0 <= i < parts.len() ==> is_free_of(#[trigger] parts[i], Separator::Char(d)),
    ensures
        split(join(parts, d), Separator::Char(d)) == parts,
    decreases parts.len(),
{
    let sep = Separator::Char(d);
    if parts.len() == 1 {
        lemma_split_single(parts[0], sep);
        assert(seq![parts[0]] == parts);
    } else {
        let init = parts.drop_last();
        lemma_split_join(init, d);
        lemma_split_append_piece(join(init, d), d, parts.last(), sep);
        assert(init.push(parts.last()) == parts);
    }
}

/// The pieces of `parts` in one text, with `sep` between neighbours.
pub fn join_chars(parts: &Vec<Vec<char>>, sep: char) -> (out: Vec<char>)
    ensures
        out@ == join(views(parts@), sep),
{
    let mut out: Vec<char> = Vec::new();
    let mut i: usize = 0;
    while i < parts.len()
        invariant
            i <= parts.len(),
            out@ == join(views(parts@).take(i as int), sep),
        decreases parts.len() - i,
    {
        proof {
            let all = views(parts@);
            assert(all.take(i + 1).drop_last() == all.take(i as int));
            assert(all.take(i + 1).last() == parts@[i as int]@);
            if i == 0 {
                assert(all.take(1)[0] == parts@[0]@);
            }
        }
        if i > 0 {
            out.push(sep);
        }
        push_all(&mut out, parts[i].as_slice());
        i += 1;
    }
    assert(views(parts@).take(parts.len() as int) == views(parts@));
    out
}

/// A copy of `chars` without leading whitespace.
pub fn trim_start_chars(chars: &[char]) -> (out: Vec<char>)
    ensures
        out@ == trim_start(chars@),
{
    let mut lo: usize = 0;
    while lo < chars.len() && is_whitespace(chars[lo])
        invariant
            lo <= chars.len(),
            forall|j: int| 0 <= j < lo ==> is_space(#[trigger] chars@[j]),
        decreases chars.len() - lo,
    {
        lo += 1;
    }
    let out = copy_range(chars, lo, chars.len());
    proof {
        lemma_trim_start_skips(chars@, lo as int);
        assert(chars@.subrange(lo as int, chars.len() as int) == chars@.skip(lo as int));
    }
    out
}

/// A copy of `chars` without trailing whitespace.
pub fn trim_end_chars(chars: &[char]) -> (out: Vec<char>)
    ensures
        out@ == trim_end(chars@),
{
    let mut hi: usize = chars.len();
    while hi > 0 && is_whitespace(chars[hi - 1])
        invariant
            hi <= chars.len(),
            forall|j: int| hi <= j < chars.len() ==> is_space(#[trigger] chars@[j]),
        decreases hi,
    {
        hi -= 1;
    }
    let out = copy_range(chars, 0, hi);
    proof {
        lemma_trim_end_takes(chars@, hi as int);
        assert(chars@.subrange(0, hi as int) == chars@.take(hi as int));
        if hi > 0 {
            assert(chars@.take(hi as int).last() == chars@[hi - 1]);
        }
    }
    out
}

/// A copy of the characters of `chars` from `lo` up to `hi`.
pub fn copy_range(chars: &[char], lo: usize, hi: usize) -> (out: Vec<char>)
    requires
        lo <= hi <= chars.len(),
    ensures
        out@ == chars@.subrange(lo as int, hi as int),
{
    let mut out: Vec<char> = Vec::new();
    let mut i: usize = lo;
    while i < hi
        invariant
            lo <= i <= hi <= chars.len(),
            out@ == chars@.subrange(lo as int, i as int),
        decreases hi - i,
    {
        out.push(chars[i]);
        i += 1;
    }
    out
}

/// Whether `s` begins with `prefix`.
pub open spec fn starts_with(s: Seq<char>, prefix: Seq<char>) -> bool {
    prefix.len() <= s.len() && s.take(prefix.len() as int) == prefix
}

/// Whether `chars` begins with `prefix`.
pub fn has_prefix(chars: &[char], prefix: &[char]) -> (r: bool)
    ensures
        r == starts_with(chars@, prefix@),
{
    if prefix.len() > chars.len() {
        return false;
    }
    let head = copy_range(chars, 0, prefix.len());
    assert(chars@.subrange(0, prefix.len() as int) == chars@.take(prefix.len() as int));
    same_chars(head.as_slice(), prefix)
}

} // verus!
