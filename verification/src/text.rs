//! Character-level text model: Unicode white space, trimming, words and
//! lines, with the scanners that compute them over a character vector.
use vstd::prelude::*;

verus! {

/// The Unicode `White_Space` property (PropList.txt), the set of characters
/// that `char::is_whitespace` accepts.
pub open spec fn is_white_space(c: char) -> bool {
    let u = c as u32;
    ||| 0x9 <= u <= 0xD
    ||| u == 0x20
    ||| u == 0x85
    ||| u == 0xA0
    ||| u == 0x1680
    ||| 0x2000 <= u <= 0x200A
    ||| u == 0x2028
    ||| u == 0x2029
    ||| u == 0x202F
    ||| u == 0x205F
    ||| u == 0x3000
}

/// `s` without its leading white space.
pub open spec fn skip_white(s: Seq<char>) -> Seq<char>
    decreases s.len(),
{
    if s.len() > 0 && is_white_space(s[0]) {
        skip_white(s.drop_first())
    } else {
        s
    }
}

/// `s` without its trailing white space.
pub open spec fn trim_end_white(s: Seq<char>) -> Seq<char>
    decreases s.len(),
{
    if s.len() > 0 && is_white_space(s.last()) {
        trim_end_white(s.drop_last())
    } else {
        s
    }
}

/// `s` without leading and trailing white space (`str::trim`).
pub open spec fn trim(s: Seq<char>) -> Seq<char> {
    trim_end_white(skip_white(s))
}

/// The number of leading characters of `s` that are not white space.
pub open spec fn word_len(s: Seq<char>) -> nat
    decreases s.len(),
{
    if s.len() > 0 && !is_white_space(s[0]) {
        1 + word_len(s.drop_first())
    } else {
        0
    }
}

/// The first white-space separated word of `s` and what follows it, as the
/// first step of `str::split_whitespace`; `None` when `s` holds no word.
pub open spec fn split_first_word(s: Seq<char>) -> Option<(Seq<char>, Seq<char>)> {
    let t = skip_white(s);
    if t.len() == 0 {
        None
    } else {
        Some((t.take(word_len(t) as int), t.skip(word_len(t) as int)))
    }
}

/// The number of leading characters of `s` before the first line feed.
pub open spec fn line_end(s: Seq<char>) -> nat
    decreases s.len(),
{
    if s.len() > 0 && s[0] != '\n' {
        1 + line_end(s.drop_first())
    } else {
        0
    }
}

/// A line without the carriage return that ends it, if any.
pub open spec fn strip_cr(l: Seq<char>) -> Seq<char> {
    if l.len() > 0 && l.last() == '\r' {
        l.drop_last()
    } else {
        l
    }
}

/// The lines of `s`, as `str::lines` yields them: split at each line feed,
/// a carriage return before the line feed removed, the final line ending
/// optional.
pub open spec fn lines(s: Seq<char>) -> Seq<Seq<char>>
    decreases s.len(),
{
    if s.len() == 0 {
        seq![]
    } else {
        let e = line_end(s);
        if e < s.len() {
            seq![strip_cr(s.take(e as int))] + lines(s.skip(e + 1 as int))
        } else {
            seq![s]
        }
    }
}

/// Whether `c` is Unicode white space.
pub fn white_space(c: char) -> (res: bool)
    ensures
        res == is_white_space(c),
{
    let u = c as u32;
    (0x9 <= u && u <= 0xD) || u == 0x20 || u == 0x85 || u == 0xA0 || u == 0x1680 || (0x2000
        <= u && u <= 0x200A) || u == 0x2028 || u == 0x2029 || u == 0x202F || u == 0x205F || u
        == 0x3000
}

/// Calls `String::push`: appends one character.
#[verifier::external_body]
pub(crate) fn push_char(s: &mut String, c: char)
    ensures
        final(s)@ == old(s)@.push(c),
{
    s.push(c);
}

/// The characters of `s`, in order.
pub fn chars_of(s: &str) -> (res: Vec<char>)
    ensures
        res@ == s@,
{
    let mut res: Vec<char> = Vec::new();
    for c in it: s.chars()
        invariant
            res@ == it.seq().take(it.index() as int),
    {
        res.push(c);
    }
    res
}


/// The first index at or after `lo` that is not white space (or `hi`):
/// skipping it is dropping the leading white space of `v[lo..hi]`.
pub fn skip_white_from(v: &Vec<char>, lo: usize, hi: usize) -> (k: usize)
    requires
        lo <= hi <= v@.len(),
    ensures
        lo <= k <= hi,
        skip_white(v@.subrange(lo as int, hi as int)) == v@.subrange(k as int, hi as int),
        k < hi ==> !is_white_space(v@[k as int]),
{
    let mut i = lo;
    while i < hi && white_space(v[i])
        invariant
            lo <= i <= hi <= v@.len(),
            skip_white(v@.subrange(lo as int, hi as int)) == skip_white(
                v@.subrange(i as int, hi as int),
            ),
        decreases hi - i,
    {
        assert(v@.subrange(i as int, hi as int).drop_first() =~= v@.subrange(
            i + 1 as int,
            hi as int,
        ));
        i = i + 1;
    }
    i
}

/// The end of `v[lo..hi]` once its trailing white space is dropped.
pub fn trim_end_to(v: &Vec<char>, lo: usize, hi: usize) -> (k: usize)
    requires
        lo <= hi <= v@.len(),
    ensures
        lo <= k <= hi,
        trim_end_white(v@.subrange(lo as int, hi as int)) == v@.subrange(lo as int, k as int),
{
    let mut k = hi;
    while k > lo && white_space(v[k - 1])
        invariant
            lo <= k <= hi <= v@.len(),
            trim_end_white(v@.subrange(lo as int, hi as int)) == trim_end_white(
                v@.subrange(lo as int, k as int),
            ),
        decreases k - lo,
    {
        assert(v@.subrange(lo as int, k as int).drop_last() =~= v@.subrange(
            lo as int,
            k - 1 as int,
        ));
        k = k - 1;
    }
    k
}

/// The end of the word that starts at `lo` in `v[lo..hi]`.
pub fn word_end(v: &Vec<char>, lo: usize, hi: usize) -> (k: usize)
    requires
        lo <= hi <= v@.len(),
    ensures
        lo <= k <= hi,
        word_len(v@.subrange(lo as int, hi as int)) == k - lo,
{
    let mut i = lo;
    while i < hi && !white_space(v[i])
        invariant
            lo <= i <= hi <= v@.len(),
            word_len(v@.subrange(lo as int, hi as int)) == (i - lo) + word_len(
                v@.subrange(i as int, hi as int),
            ),
        decreases hi - i,
    {
        assert(v@.subrange(i as int, hi as int).drop_first() =~= v@.subrange(
            i + 1 as int,
            hi as int,
        ));
        i = i + 1;
    }
    i
}

/// The index of the first line feed at or after `lo` in `v[lo..hi]` (or `hi`).
pub fn line_end_from(v: &Vec<char>, lo: usize, hi: usize) -> (k: usize)
    requires
        lo <= hi <= v@.len(),
    ensures
        lo <= k <= hi,
        line_end(v@.subrange(lo as int, hi as int)) == k - lo,
        k < hi ==> v@[k as int] == '\n',
{
    let mut i = lo;
    while i < hi && v[i] != '\n'
        invariant
            lo <= i <= hi <= v@.len(),
            line_end(v@.subrange(lo as int, hi as int)) == (i - lo) + line_end(
                v@.subrange(i as int, hi as int),
            ),
        decreases hi - i,
    {
        assert(v@.subrange(i as int, hi as int).drop_first() =~= v@.subrange(
            i + 1 as int,
            hi as int,
        ));
        i = i + 1;
    }
    i
}

/// Whether every character of `s` is white space.
pub open spec fn all_white(s: Seq<char>) -> bool {
    forall|i: int| 0 <= i < s.len() ==> is_white_space(#[trigger] s[i])
}

/// Leading white space is skipped, whatever follows it.
pub proof fn lemma_skip_white_prefix(p: Seq<char>, s: Seq<char>)
    requires
        all_white(p),
    ensures
        skip_white(p + s) == skip_white(s),
    decreases p.len(),
{
    if p.len() > 0 {
        assert((p + s)[0] == p[0]);
        assert((p + s).drop_first() =~= p.drop_first() + s);
        lemma_skip_white_prefix(p.drop_first(), s);
    } else {
        assert(p + s =~= s);
    }
}

/// Trailing white space is dropped, whatever precedes it.
pub proof fn lemma_trim_end_white_suffix(s: Seq<char>, q: Seq<char>)
    requires
        all_white(q),
    ensures
        trim_end_white(s + q) == trim_end_white(s),
    decreases q.len(),
{
    if q.len() > 0 {
        assert((s + q).last() == q.last());
        assert((s + q).drop_last() =~= s + q.drop_last());
        lemma_trim_end_white_suffix(s, q.drop_last());
    } else {
        assert(s + q =~= s);
    }
}

/// Trimming a word padded with white space gives the word back, when the
/// word neither begins nor ends with white space.
pub proof fn lemma_trim_padded(p: Seq<char>, w: Seq<char>, q: Seq<char>)
    requires
        all_white(p),
        all_white(q),
        w.len() > 0,
        !is_white_space(w[0]),
        !is_white_space(w.last()),
    ensures
        trim(p + w + q) == w,
{
    assert(p + w + q =~= p + (w + q));
    lemma_skip_white_prefix(p, w + q);
    assert((w + q)[0] == w[0]);
    lemma_trim_end_white_suffix(w, q);
}

pub(crate) proof fn lemma_line_end_bound(s: Seq<char>)
    ensures
        line_end(s) <= s.len(),
        line_end(s) < s.len() ==> s[line_end(s) as int] == '\n',
        forall|i: int| 0 <= i < line_end(s) ==> s[i] != '\n',
    decreases s.len(),
{
    if s.len() > 0 && s[0] != '\n' {
        lemma_line_end_bound(s.drop_first());
        assert forall|i: int| 0 <= i < line_end(s) implies s[i] != '\n' by {
            if i > 0 {
                assert(s[i] == s.drop_first()[i - 1]);
            }
        }
    }
}

pub(crate) proof fn lemma_line_end_extend(a: Seq<char>, b: Seq<char>)
    requires
        line_end(a) < a.len(),
    ensures
        line_end(a + b) == line_end(a),
    decreases a.len(),
{
    if a[0] != '\n' {
        assert((a + b).drop_first() =~= a.drop_first() + b);
        lemma_line_end_extend(a.drop_first(), b);
    }
}

/// Lines are read one at a time: a text that ends with a line feed (or is
/// empty), followed by another, has the lines of the first then those of
/// the second.
pub proof fn lemma_lines_concat(a: Seq<char>, b: Seq<char>)
    requires
        a.len() == 0 || a.last() == '\n',
    ensures
        lines(a + b) == lines(a) + lines(b),
    decreases a.len(),
{
    if a.len() == 0 {
        assert(a + b =~= b);
        assert(lines(a) =~= Seq::<Seq<char>>::empty());
        assert(lines(a) + lines(b) =~= lines(b));
    } else {
        lemma_line_end_bound(a);
        let e = line_end(a);
        if e == a.len() {
            assert(a[a.len() - 1] != '\n');
        }
        lemma_line_end_extend(a, b);
        let a2 = a.skip(e + 1 as int);
        assert((a + b).take(e as int) =~= a.take(e as int));
        assert((a + b).skip(e + 1 as int) =~= a2 + b);
        if a2.len() > 0 {
            assert(a2.last() == a.last());
        }
        lemma_lines_concat(a2, b);
        assert(lines(a + b) =~= seq![strip_cr(a.take(e as int))] + (lines(a2) + lines(b)));
        assert(lines(a) == seq![strip_cr(a.take(e as int))] + lines(a2));
        assert(lines(a + b) =~= lines(a) + lines(b));
    }
}

pub(crate) proof fn lemma_skip_all_white(s: Seq<char>)
    requires
        all_white(s),
    ensures
        skip_white(s) == Seq::<char>::empty(),
    decreases s.len(),
{
    if s.len() > 0 {
        lemma_skip_all_white(s.drop_first());
    } else {
        assert(s =~= Seq::<char>::empty());
    }
}

proof fn lemma_skip_white_shape(s: Seq<char>)
    ensures
        skip_white(s).len() <= s.len(),
        !all_white(s) ==> skip_white(s).len() > 0 && !is_white_space(skip_white(s)[0]),
    decreases s.len(),
{
    if s.len() > 0 && is_white_space(s[0]) {
        lemma_skip_white_shape(s.drop_first());
        if !all_white(s) {
            let i = choose|i: int| 0 <= i < s.len() && !is_white_space(#[trigger] s[i]);
            assert(s.drop_first()[i - 1] == s[i]);
        }
    }
}

proof fn lemma_skip_white_suffix(s: Seq<char>, q: Seq<char>)
    requires
        !all_white(s),
    ensures
        skip_white(s + q) == skip_white(s) + q,
    decreases s.len(),
{
    assert((s + q)[0] == s[0]);
    if is_white_space(s[0]) {
        let i = choose|i: int| 0 <= i < s.len() && !is_white_space(#[trigger] s[i]);
        assert(s.drop_first()[i - 1] == s[i]);
        assert((s + q).drop_first() =~= s.drop_first() + q);
        lemma_skip_white_suffix(s.drop_first(), q);
    }
}

/// Trailing white space does not change what a text trims to.
pub proof fn lemma_trim_white_suffix(s: Seq<char>, q: Seq<char>)
    requires
        all_white(q),
    ensures
        trim(s + q) == trim(s),
{
    if all_white(s) {
        assert(all_white(s + q)) by {
            assert forall|i: int| 0 <= i < (s + q).len() implies is_white_space(#[trigger] (s + q)[i]) by {
                if i < s.len() {
                    assert((s + q)[i] == s[i]);
                } else {
                    assert((s + q)[i] == q[i - s.len()]);
                }
            }
        }
        lemma_skip_all_white(s);
        lemma_skip_all_white(s + q);
    } else {
        lemma_skip_white_suffix(s, q);
        lemma_trim_end_white_suffix(skip_white(s), q);
    }
}

proof fn lemma_word_len_bound(x: Seq<char>)
    ensures
        word_len(x) <= x.len(),
    decreases x.len(),
{
    if x.len() > 0 && !is_white_space(x[0]) {
        lemma_word_len_bound(x.drop_first());
    }
}

proof fn lemma_word_len_white_suffix(x: Seq<char>, q: Seq<char>)
    requires
        all_white(q),
    ensures
        word_len(x + q) == word_len(x),
    decreases x.len(),
{
    if x.len() > 0 {
        assert((x + q)[0] == x[0]);
        if !is_white_space(x[0]) {
            assert((x + q).drop_first() =~= x.drop_first() + q);
            lemma_word_len_white_suffix(x.drop_first(), q);
        }
    } else {
        assert(x + q =~= q);
        if q.len() > 0 {
            assert(is_white_space(q[0]));
        }
    }
}

/// Trailing white space does not change the first word of a text, and
/// follows what comes after it.
pub proof fn lemma_first_word_white_suffix(s: Seq<char>, q: Seq<char>)
    requires
        all_white(q),
    ensures
        split_first_word(s + q) is Some <==> split_first_word(s) is Some,
        split_first_word(s) matches Some((w, rest)) ==> split_first_word(s + q) == Some(
            (w, rest + q),
        ),
{
    if all_white(s) {
        lemma_trim_white_suffix(s, q);
        lemma_skip_all_white(s);
        assert(all_white(s + q)) by {
            assert forall|i: int| 0 <= i < (s + q).len() implies is_white_space(#[trigger] (s + q)[i]) by {
                if i < s.len() {
                    assert((s + q)[i] == s[i]);
                } else {
                    assert((s + q)[i] == q[i - s.len()]);
                }
            }
        }
        lemma_skip_all_white(s + q);
    } else {
        lemma_skip_white_shape(s);
        lemma_skip_white_suffix(s, q);
        let t = skip_white(s);
        lemma_word_len_white_suffix(t, q);
        lemma_word_len_bound(t);
        let n = word_len(t) as int;
        assert((t + q).take(n) =~= t.take(n));
        assert((t + q).skip(n) =~= t.skip(n) + q);
    }
}

pub(crate) proof fn lemma_line_end_through(a: Seq<char>, b: Seq<char>)
    requires
        line_end(a) == a.len(),
    ensures
        line_end(a + b) == a.len() + line_end(b),
    decreases a.len(),
{
    if a.len() > 0 {
        assert((a + b)[0] == a[0]);
        assert((a + b).drop_first() =~= a.drop_first() + b);
        lemma_line_end_through(a.drop_first(), b);
    } else {
        assert(a + b =~= b);
    }
}

/// Whether no character of `s` is white space.
pub open spec fn no_white(s: Seq<char>) -> bool {
    forall|i: int| 0 <= i < s.len() ==> !is_white_space(#[trigger] s[i])
}

proof fn lemma_word_len_exact(w: Seq<char>, r: Seq<char>)
    requires
        no_white(w),
        r.len() == 0 || is_white_space(r[0]),
    ensures
        word_len(w + r) == w.len(),
    decreases w.len(),
{
    if w.len() > 0 {
        assert((w + r)[0] == w[0]);
        assert((w + r).drop_first() =~= w.drop_first() + r);
        assert(no_white(w.drop_first())) by {
            assert forall|i: int| 0 <= i < w.drop_first().len() implies !is_white_space(
                #[trigger] w.drop_first()[i],
            ) by {
                assert(w.drop_first()[i] == w[i + 1]);
            }
        }
        lemma_word_len_exact(w.drop_first(), r);
    } else {
        assert(w + r =~= r);
    }
}

/// The first word of white space, a word and a rest that is empty or
/// starts with white space is that whole word, followed by that rest.
pub proof fn lemma_split_first_word_exact(p: Seq<char>, w: Seq<char>, r: Seq<char>)
    requires
        all_white(p),
        w.len() > 0,
        no_white(w),
        r.len() == 0 || is_white_space(r[0]),
    ensures
        skip_white(p + w + r) == w + r,
        split_first_word(p + w + r) == Some((w, r)),
{
    assert(p + w + r =~= p + (w + r));
    lemma_skip_white_prefix(p, w + r);
    assert((w + r)[0] == w[0]);
    lemma_word_len_exact(w, r);
    assert((w + r).take(w.len() as int) =~= w);
    assert((w + r).skip(w.len() as int) =~= r);
}

/// Trimming the end of a text that starts with a character other than
/// white space keeps that character first.
pub proof fn lemma_trim_end_keeps_first(s: Seq<char>)
    requires
        s.len() > 0,
        !is_white_space(s[0]),
    ensures
        trim_end_white(s).len() > 0,
        trim_end_white(s)[0] == s[0],
    decreases s.len(),
{
    if is_white_space(s.last()) {
        assert(s.len() > 1);
        assert(s.drop_last()[0] == s[0]);
        lemma_trim_end_keeps_first(s.drop_last());
    }
}

/// A text with no line feed is one line.
pub proof fn lemma_one_line(l: Seq<char>)
    requires
        l.len() > 0,
        forall|i: int| 0 <= i < l.len() ==> #[trigger] l[i] != '\n',
    ensures
        lines(l) == seq![l],
{
    lemma_line_end_bound(l);
}

} // verus!
