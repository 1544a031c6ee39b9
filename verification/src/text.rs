//! Text as sequences of characters: searching, cutting, trimming, replacing,
//! splitting, and the few operations that are left to the standard library.

use vstd::prelude::*;
use vstd::utf8::*;

verus! {

/// `pat` stands in `s` at position `i`.
pub open spec fn occurs_at(s: Seq<char>, pat: Seq<char>, i: int) -> bool {
    &&& 0 <= i
    &&& i + pat.len() <= s.len()
    &&& s.subrange(i, i + pat.len()) == pat
}

/// The first position from `from` on at which `pat` stands in `s`.
pub open spec fn first_at(s: Seq<char>, pat: Seq<char>, from: int) -> Option<int>
    decreases s.len() + 1 - from,
{
    if from < 0 || from + pat.len() > s.len() {
        None
    } else if occurs_at(s, pat, from) {
        Some(from)
    } else {
        first_at(s, pat, from + 1)
    }
}

/// `pat` stands somewhere in `s`.
pub open spec fn has_text(s: Seq<char>, pat: Seq<char>) -> bool {
    exists|i: int| occurs_at(s, pat, i)
}

/// The characters with the Unicode property `White_Space`.
pub open spec fn white_space(c: char) -> bool {
    ||| '\u{9}' <= c <= '\u{d}'
    ||| c == ' '
    ||| c == '\u{85}'
    ||| c == '\u{a0}'
    ||| c == '\u{1680}'
    ||| '\u{2000}' <= c <= '\u{200a}'
    ||| c == '\u{2028}'
    ||| c == '\u{2029}'
    ||| c == '\u{202f}'
    ||| c == '\u{205f}'
    ||| c == '\u{3000}'
}

/// `s` without the white space at its start.
pub open spec fn trimmed_start(s: Seq<char>) -> Seq<char>
    decreases s.len(),
{
    if s.len() > 0 && white_space(s.first()) {
        trimmed_start(s.drop_first())
    } else {
        s
    }
}

/// `s` without the white space at its end.
pub open spec fn trimmed_end(s: Seq<char>) -> Seq<char>
    decreases s.len(),
{
    if s.len() > 0 && white_space(s.last()) {
        trimmed_end(s.drop_last())
    } else {
        s
    }
}

/// `s` without the white space at its start and at its end.
pub open spec fn trimmed(s: Seq<char>) -> Seq<char> {
    trimmed_end(trimmed_start(s))
}

/// `s` with every occurrence of `pat` replaced by `to`, from left to right and
/// without overlap.
pub open spec fn replaced(s: Seq<char>, pat: Seq<char>, to: Seq<char>) -> Seq<char>
    decreases s.len(),
{
    match first_at(s, pat, 0) {
        Some(i) if pat.len() > 0 && 0 <= i && i + pat.len() <= s.len() => s.take(i) + to + replaced(
            s.skip(i + pat.len()),
            pat,
            to,
        ),
        _ => s,
    }
}

/// The parts of `s` between the occurrences of `pat`.
pub open spec fn split_on(s: Seq<char>, pat: Seq<char>) -> Seq<Seq<char>>
    decreases s.len(),
{
    match first_at(s, pat, 0) {
        Some(i) if pat.len() > 0 && 0 <= i && i + pat.len() <= s.len() => seq![s.take(i)]
            + split_on(s.skip(i + pat.len()), pat),
        _ => seq![s],
    }
}

/// A line without the carriage return that may stand at its end.
pub open spec fn without_return(s: Seq<char>) -> Seq<char> {
    if s.len() > 0 && s.last() == '\r' {
        s.drop_last()
    } else {
        s
    }
}

/// The lines of `s`. A line ends at a line feed, or at a carriage return and a line
/// feed; the ending of the last line is optional.
pub open spec fn lines_of(s: Seq<char>) -> Seq<Seq<char>>
    decreases s.len(),
{
    match first_at(s, seq!['\n'], 0) {
        Some(i) if 0 <= i < s.len() => seq![without_return(s.take(i))] + lines_of(s.skip(i + 1)),
        _ => if s.len() == 0 {
            Seq::empty()
        } else {
            seq![s]
        },
    }
}

/// What the standard library's `to_lowercase` makes of a text that is not all
/// ASCII.
pub uninterp spec fn unicode_lowercase(s: Seq<char>) -> Seq<char>;

/// The lower-case form of an ASCII character.
pub open spec fn ascii_lower(c: char) -> char {
    if 'A' <= c <= 'Z' {
        (c as u32 + 32) as char
    } else {
        c
    }
}

/// The lower-case form of a text.
pub open spec fn lowercase(s: Seq<char>) -> Seq<char> {
    if is_ascii_chars(s) {
        s.map_values(|c: char| ascii_lower(c))
    } else {
        unicode_lowercase(s)
    }
}

/// The texts that a vector of strings holds.
pub open spec fn texts(v: Seq<String>) -> Seq<Seq<char>> {
    v.map_values(|s: String| s@)
}

/// The text of a string that may be missing.
pub open spec fn opt_text(s: Option<String>) -> Option<Seq<char>> {
    match s {
        Some(s) => Some(s@),
        None => None,
    }
}

/// The characters of a string.
pub fn chars_of(s: &str) -> (r: Vec<char>)
    ensures
        r@ == s@,
{
    let mut v: Vec<char> = Vec::new();
    for c in it: s.chars()
        invariant
            it.seq() == s@,
            v@ == it.seq().take(it.index()),
    {
        v.push(c);
        assert(it.seq().take(it.index() + 1) =~= it.seq().take(it.index()).push(c));
    }
    assert(s@.take(s@.len() as int) =~= s@);
    v
}

/// `std::string::String::push` appends one character.
pub assume_specification[ String::push ](s: &mut String, c: char)
    ensures
        final(s)@ == old(s)@.push(c),
;

/// The string of the characters from `from` up to `to`.
pub fn text_of(v: &Vec<char>, from: usize, to: usize) -> (r: String)
    requires
        from <= to <= v@.len(),
    ensures
        r@ == v@.subrange(from as int, to as int),
{
    let mut s = String::new();
    let mut i: usize = from;
    while i < to
        invariant
            from <= i <= to <= v@.len(),
            s@ == v@.subrange(from as int, i as int),
        decreases to - i,
    {
        s.push(v[i]);
        i += 1;
        assert(v@.subrange(from as int, i as int) =~= v@.subrange(from as int, i - 1).push(
            v@[i - 1],
        ));
    }
    s
}

/// The whole of a vector of characters as a string.
pub fn string_of(v: &Vec<char>) -> (r: String)
    ensures
        r@ == v@,
{
    let s = text_of(v, 0, v.len());
    assert(v@.subrange(0, v@.len() as int) =~= v@);
    s
}

/// `str::to_lowercase` of the standard library. Of an ASCII text it is claimed
/// that the letters `A` to `Z` become `a` to `z` and nothing else changes; of any
/// other text only that the result depends on the text alone.
#[verifier::external_body]
pub(crate) fn to_lowercase(s: &str) -> (r: String)
    ensures
        is_ascii_chars(s@) ==> r@ == s@.map_values(|c: char| ascii_lower(c)),
        !is_ascii_chars(s@) ==> r@ == unicode_lowercase(s@),
{
    s.to_lowercase()
}

/// The lower-case form of `s`.
pub fn lower(s: &str) -> (r: String)
    ensures
        r@ == lowercase(s@),
{
    to_lowercase(s)
}

/// Whether the two texts are the same.
pub fn same_text(a: &str, b: &str) -> (r: bool)
    ensures
        r == (a@ == b@),
{
    let x = a.to_string();
    let y = b.to_string();
    x == y
}

/// Whether `pat` stands in `s` at position `i`.
fn stands_at(s: &Vec<char>, pat: &Vec<char>, i: usize) -> (r: bool)
    requires
        i + pat@.len() <= s@.len(),
    ensures
        r == occurs_at(s@, pat@, i as int),
{
    let n = s.len();
    let mut k: usize = 0;
    while k < pat.len()
        invariant
            i + pat@.len() <= s@.len() == n,
            0 <= k <= pat@.len(),
            forall|j: int| 0 <= j < k ==> s@[i + j] == pat@[j],
        decreases pat@.len() - k,
    {
        if s[i + k] != pat[k] {
            assert(s@.subrange(i as int, i + pat@.len())[k as int] != pat@[k as int]);
            return false;
        }
        k += 1;
    }
    assert(s@.subrange(i as int, i + pat@.len()) =~= pat@);
    true
}

/// The first position from `from` on at which `pat` stands in `s`.
pub fn find_text(s: &Vec<char>, pat: &Vec<char>, from: usize) -> (r: Option<usize>)
    ensures
        r is Some == first_at(s@, pat@, from as int) is Some,
        r matches Some(i) ==> first_at(s@, pat@, from as int) == Some(i as int) && from <= i && i
            + pat@.len() <= s@.len(),
{
    if pat.len() > s.len() {
        return None;
    }
    let last = s.len() - pat.len();
    let mut i: usize = from;
    while i <= last
        invariant
            from <= i,
            last + pat@.len() == s@.len(),
            first_at(s@, pat@, from as int) == first_at(s@, pat@, i as int),
        decreases last + 1 - i,
    {
        if stands_at(s, pat, i) {
            return Some(i);
        }
        if i == last {
            assert(first_at(s@, pat@, i + 1) is None);
            return None;
        }
        i += 1;
    }
    None
}

/// Whether `c` is white space.
pub fn is_white_space(c: char) -> (r: bool)
    ensures
        r == white_space(c),
{
    ('\u{9}' <= c && c <= '\u{d}') || c == ' ' || c == '\u{85}' || c == '\u{a0}' || c == '\u{1680}'
        || ('\u{2000}' <= c && c <= '\u{200a}') || c == '\u{2028}' || c == '\u{2029}' || c
        == '\u{202f}' || c == '\u{205f}' || c == '\u{3000}'
}

/// Appends the characters of `s` from `from` up to `to`.
pub fn append_range(r: &mut Vec<char>, s: &Vec<char>, from: usize, to: usize)
    requires
        from <= to <= s@.len(),
    ensures
        final(r)@ == old(r)@ + s@.subrange(from as int, to as int),
{
    let mut k: usize = from;
    assert(r@ =~= old(r)@ + s@.subrange(from as int, from as int));
    while k < to
        invariant
            from <= k <= to <= s@.len(),
            r@ == old(r)@ + s@.subrange(from as int, k as int),
        decreases to - k,
    {
        r.push(s[k]);
        k += 1;
        assert(s@.subrange(from as int, k as int) =~= s@.subrange(from as int, k - 1).push(s@[k - 1]));
    }
}

/// The characters of `v` without the white space at both ends.
pub fn trim_chars(v: &Vec<char>) -> (r: Vec<char>)
    ensures
        r@ == trimmed(v@),
{
    let n = v.len();
    let mut a: usize = 0;
    assert(v@.skip(0) =~= v@);
    while a < n && is_white_space(v[a])
        invariant
            a <= n == v@.len(),
            trimmed_start(v@) == trimmed_start(v@.skip(a as int)),
        decreases n - a,
    {
        assert(v@.skip(a as int).drop_first() =~= v@.skip(a + 1));
        a += 1;
    }
    assert(trimmed_start(v@) == v@.skip(a as int));
    let mut b: usize = n;
    assert(v@.subrange(a as int, n as int) =~= v@.skip(a as int));
    while b > a && is_white_space(v[b - 1])
        invariant
            a <= b <= n == v@.len(),
            trimmed_end(v@.skip(a as int)) == trimmed_end(v@.subrange(a as int, b as int)),
        decreases b,
    {
        assert(v@.subrange(a as int, b as int).drop_last() =~= v@.subrange(a as int, b - 1));
        b -= 1;
    }
    let mut r: Vec<char> = Vec::new();
    append_range(&mut r, v, a, b);
    assert(r@ =~= v@.subrange(a as int, b as int));
    r
}

/// `s` without the white space at both ends.
pub fn trim(s: &str) -> (r: String)
    ensures
        r@ == trimmed(s@),
{
    let v = chars_of(s);
    let t = trim_chars(&v);
    string_of(&t)
}

/// The first occurrence is an occurrence, and none stands before it; where there
/// is none, `pat` stands nowhere from `from` on.
pub proof fn lemma_first_at(s: Seq<char>, pat: Seq<char>, from: int)
    requires
        0 <= from,
    ensures
        first_at(s, pat, from) matches Some(i) ==> from <= i && occurs_at(s, pat, i) && forall|j: int|
            from <= j < i ==> !occurs_at(s, pat, j),
        first_at(s, pat, from) is None ==> forall|j: int| from <= j ==> !occurs_at(s, pat, j),
    decreases s.len() + 1 - from,
{
    if from + pat.len() <= s.len() && !occurs_at(s, pat, from) {
        lemma_first_at(s, pat, from + 1);
    }
}

/// A position at which `pat` stands and before which, from `from` on, it does not,
/// is the first.
pub proof fn lemma_first_at_is(s: Seq<char>, pat: Seq<char>, from: int, i: int)
    requires
        0 <= from <= i,
        occurs_at(s, pat, i),
        forall|j: int| from <= j < i ==> !occurs_at(s, pat, j),
    ensures
        first_at(s, pat, from) == Some(i),
{
    lemma_first_at(s, pat, from);
}

/// Whether `pat` stands somewhere in `s`.
pub fn contains(s: &Vec<char>, pat: &Vec<char>) -> (r: bool)
    ensures
        r == has_text(s@, pat@),
{
    proof {
        lemma_first_at(s@, pat@, 0);
    }
    find_text(s, pat, 0).is_some()
}

/// `s` with every `pat` replaced by `to`.
pub fn replace(s: &Vec<char>, pat: &Vec<char>, to: &Vec<char>) -> (r: Vec<char>)
    requires
        pat@.len() > 0,
    ensures
        r@ == replaced(s@, pat@, to@),
{
    let n = s.len();
    let mut r: Vec<char> = Vec::new();
    let mut from: usize = 0;
    assert(s@.skip(0) =~= s@);
    loop
        invariant_except_break
            from <= s@.len() == n,
            pat@.len() > 0,
            replaced(s@, pat@, to@) == r@ + replaced(s@.skip(from as int), pat@, to@),
        ensures
            r@ == replaced(s@, pat@, to@),
        decreases s@.len() - from,
    {
        let ghost before = r@;
        let ghost rest = s@.skip(from as int);
        proof {
            lemma_first_at_skip(s@, pat@, from as int);
        }
        match find_text(s, pat, from) {
            Some(i) => {
                append_range(&mut r, s, from, i);
                append_range(&mut r, to, 0, to.len());
                proof {
                    assert(to@.subrange(0, to@.len() as int) =~= to@);
                    assert(rest.take(i - from) =~= s@.subrange(from as int, i as int));
                    assert(rest.skip(i - from + pat@.len()) =~= s@.skip(i + pat@.len()));
                    assert(r@ + replaced(s@.skip(i + pat@.len()), pat@, to@) =~= before + (rest.take(
                        i - from,
                    ) + to@ + replaced(s@.skip(i + pat@.len()), pat@, to@)));
                }
                from = i + pat.len();
            },
            None => {
                append_range(&mut r, s, from, n);
                assert(s@.subrange(from as int, n as int) =~= rest);
                break;
            },
        }
    }
    r
}

/// Searching from `from` on is searching in what remains of the text there.
pub proof fn lemma_first_at_skip(s: Seq<char>, pat: Seq<char>, from: int)
    requires
        0 <= from <= s.len(),
    ensures
        first_at(s, pat, from) is Some == first_at(s.skip(from), pat, 0) is Some,
        first_at(s, pat, from) matches Some(i) ==> first_at(s.skip(from), pat, 0) == Some(i - from),
{
    let rest = s.skip(from);
    assert forall|j: int| 0 <= j implies occurs_at(rest, pat, j) == occurs_at(s, pat, from + j) by {
        if j + pat.len() <= rest.len() {
            assert(rest.subrange(j, j + pat.len()) =~= s.subrange(from + j, from + j + pat.len()));
        }
    }
    lemma_first_at(s, pat, from);
    lemma_first_at(rest, pat, 0);
    match first_at(s, pat, from) {
        Some(i) => {
            assert(occurs_at(rest, pat, i - from));
            assert forall|j: int| 0 <= j < i - from implies !occurs_at(rest, pat, j) by {
                assert(!occurs_at(s, pat, from + j));
            }
            lemma_first_at_is(rest, pat, 0, i - from);
        },
        None => {
            match first_at(rest, pat, 0) {
                Some(j) => {
                    assert(occurs_at(s, pat, from + j));
                },
                None => {},
            }
        },
    }
}

/// The parts of `s` between the occurrences of `pat`.
pub fn split(s: &Vec<char>, pat: &Vec<char>) -> (r: Vec<String>)
    requires
        pat@.len() > 0,
    ensures
        texts(r@) == split_on(s@, pat@),
{
    let n = s.len();
    let mut r: Vec<String> = Vec::new();
    let mut from: usize = 0;
    assert(s@.skip(0) =~= s@);
    loop
        invariant_except_break
            from <= s@.len() == n,
            pat@.len() > 0,
            split_on(s@, pat@) == texts(r@) + split_on(s@.skip(from as int), pat@),
        ensures
            texts(r@) == split_on(s@, pat@),
        decreases s@.len() - from,
    {
        let ghost before = r@;
        let ghost rest = s@.skip(from as int);
        proof {
            lemma_first_at_skip(s@, pat@, from as int);
        }
        match find_text(s, pat, from) {
            Some(i) => {
                r.push(text_of(s, from, i));
                proof {
                    assert(rest.take(i - from) =~= s@.subrange(from as int, i as int));
                    assert(rest.skip(i - from + pat@.len()) =~= s@.skip(i + pat@.len()));
                    assert(texts(r@) =~= texts(before).push(rest.take(i - from)));
                    assert(texts(r@) + split_on(s@.skip(i + pat@.len()), pat@) =~= texts(before) + (
                    seq![rest.take(i - from)] + split_on(s@.skip(i + pat@.len()), pat@)));
                }
                from = i + pat.len();
            },
            None => {
                r.push(text_of(s, from, s.len()));
                proof {
                    assert(rest =~= s@.subrange(from as int, s@.len() as int));
                    assert(texts(r@) =~= texts(before) + seq![rest]);
                }
                break;
            },
        }
    }
    r
}

/// The lines of `s`.
pub fn lines(s: &str) -> (r: Vec<String>)
    ensures
        texts(r@) == lines_of(s@),
{
    let v = chars_of(s);
    let feed: Vec<char> = vec!['\n'];
    let n = v.len();
    let mut r: Vec<String> = Vec::new();
    let mut from: usize = 0;
    assert(feed@ =~= seq!['\n']);
    assert(v@.skip(0) =~= v@);
    loop
        invariant_except_break
            from <= v@.len() == n,
            feed@ == seq!['\n'],
            lines_of(v@) == texts(r@) + lines_of(v@.skip(from as int)),
        ensures
            texts(r@) == lines_of(v@),
        decreases v@.len() - from,
    {
        let ghost before = r@;
        let ghost rest = v@.skip(from as int);
        proof {
            lemma_first_at_skip(v@, feed@, from as int);
        }
        match find_text(&v, &feed, from) {
            Some(i) => {
                let end: usize = if i > from && v[i - 1] == '\r' {
                    i - 1
                } else {
                    i
                };
                r.push(text_of(&v, from, end));
                proof {
                    assert(rest.take(i - from) =~= v@.subrange(from as int, i as int));
                    assert(without_return(rest.take(i - from)) =~= v@.subrange(from as int, end as int));
                    assert(rest.skip(i - from + 1) =~= v@.skip(i + 1));
                    assert(texts(r@) =~= texts(before).push(without_return(rest.take(i - from))));
                    assert(texts(r@) + lines_of(v@.skip(i + 1)) =~= texts(before) + (seq![
                        without_return(rest.take(i - from)),
                    ] + lines_of(v@.skip(i + 1))));
                }
                from = i + 1;
            },
            None => {
                if from < n {
                    r.push(text_of(&v, from, n));
                    proof {
                        assert(rest =~= v@.subrange(from as int, n as int));
                        assert(texts(r@) =~= texts(before) + seq![rest]);
                    }
                } else {
                    assert(texts(r@) + Seq::<Seq<char>>::empty() =~= texts(r@));
                }
                break;
            },
        }
    }
    r
}

/// What trimming at the start leaves is a rest of the text that does not begin with
/// white space.
proof fn lemma_trimmed_start(s: Seq<char>)
    ensures
        trimmed_start(s).len() <= s.len(),
        trimmed_start(s) == s.skip(s.len() - trimmed_start(s).len()),
        trimmed_start(s).len() > 0 ==> !white_space(trimmed_start(s).first()),
    decreases s.len(),
{
    if s.len() > 0 && white_space(s.first()) {
        lemma_trimmed_start(s.drop_first());
        let n = trimmed_start(s).len();
        assert(s.drop_first().skip(s.len() - 1 - n) =~= s.skip(s.len() - n));
    } else {
        assert(s.skip(0) =~= s);
    }
}

/// What trimming at the end leaves is a beginning of the text that does not end with
/// white space.
proof fn lemma_trimmed_end(s: Seq<char>)
    ensures
        trimmed_end(s).len() <= s.len(),
        trimmed_end(s) == s.take(trimmed_end(s).len() as int),
        trimmed_end(s).len() > 0 ==> !white_space(trimmed_end(s).last()),
    decreases s.len(),
{
    if s.len() > 0 && white_space(s.last()) {
        lemma_trimmed_end(s.drop_last());
        let n = trimmed_end(s).len();
        assert(s.drop_last().take(n as int) =~= s.take(n as int));
    } else {
        assert(s.take(s.len() as int) =~= s);
    }
}

/// A trimmed text is a stretch of the text, and neither end of it is white space.
pub proof fn lemma_trimmed(s: Seq<char>)
    ensures
        trimmed(s).len() > 0 ==> !white_space(trimmed(s).first()) && !white_space(trimmed(s).last()),
        exists|a: int| 0 <= a && a + trimmed(s).len() <= s.len() && trimmed(s) == #[trigger] s.subrange(
            a,
            a + trimmed(s).len(),
        ),
{
    lemma_trimmed_start(s);
    let t = trimmed_start(s);
    lemma_trimmed_end(t);
    let n = trimmed(s).len();
    let a = s.len() - t.len();
    assert(t.take(n as int) =~= s.subrange(a, a + n));
}

/// A text that neither begins nor ends with white space is its own trimming.
pub proof fn lemma_trimmed_same(s: Seq<char>)
    requires
        s.len() > 0 ==> !white_space(s.first()) && !white_space(s.last()),
    ensures
        trimmed(s) == s,
{
}

/// What is trimmed off a text is white space at its ends, and all of it.
pub proof fn law_only_white_space_is_trimmed(s: Seq<char>) -> (a: int)
    ensures
        0 <= a,
        a + trimmed(s).len() <= s.len(),
        trimmed(s) == s.subrange(a, a + trimmed(s).len()),
        forall|i: int| 0 <= i < a ==> white_space(#[trigger] s[i]),
        forall|i: int| a + trimmed(s).len() <= i < s.len() ==> white_space(#[trigger] s[i]),
        trimmed(s).len() > 0 ==> !white_space(trimmed(s).first()) && !white_space(trimmed(s).last()),
{
    lemma_trimmed_start(s);
    lemma_trim_cuts_start(s);
    let t = trimmed_start(s);
    lemma_trimmed_end(t);
    lemma_trim_cuts_end(t);
    let n = trimmed(s).len();
    let a = s.len() - t.len();
    assert(t.take(n as int) =~= s.subrange(a, a + n));
    assert forall|i: int| a + n <= i < s.len() implies white_space(#[trigger] s[i]) by {
        assert(t[i - a] == s[i]);
    }
    a
}

/// What is cut off at the start is white space.
proof fn lemma_trim_cuts_start(s: Seq<char>)
    ensures
        forall|i: int| 0 <= i < s.len() - trimmed_start(s).len() ==> white_space(#[trigger] s[i]),
    decreases s.len(),
{
    if s.len() > 0 && white_space(s.first()) {
        let t = s.drop_first();
        lemma_trim_cuts_start(t);
        assert forall|i: int| 0 <= i < s.len() - trimmed_start(s).len() implies white_space(
            #[trigger] s[i],
        ) by {
            if i > 0 {
                assert(t[i - 1] == s[i]);
            }
        }
    }
}

/// What is cut off at the end is white space.
proof fn lemma_trim_cuts_end(s: Seq<char>)
    ensures
        forall|i: int| trimmed_end(s).len() <= i < s.len() ==> white_space(#[trigger] s[i]),
    decreases s.len(),
{
    if s.len() > 0 && white_space(s.last()) {
        let t = s.drop_last();
        lemma_trim_cuts_end(t);
        assert forall|i: int| trimmed_end(s).len() <= i < s.len() implies white_space(
            #[trigger] s[i],
        ) by {
            if i < s.len() - 1 {
                assert(t[i] == s[i]);
            }
        }
    }
}

/// Texts in a row, with `between` between them.
pub open spec fn joined(parts: Seq<Seq<char>>, between: Seq<char>) -> Seq<char>
    decreases parts.len(),
{
    if parts.len() == 0 {
        Seq::empty()
    } else if parts.len() == 1 {
        parts[0]
    } else {
        parts[0] + between + joined(parts.drop_first(), between)
    }
}

/// Splitting loses nothing and leaves nothing to split: the parts, joined again, are the text,
/// and none of them holds the pattern.
pub proof fn law_split_is_undone(s: Seq<char>, pat: Seq<char>)
    requires
        pat.len() > 0,
    ensures
        split_on(s, pat).len() > 0,
        joined(split_on(s, pat), pat) == s,
        forall|i: int| 0 <= i < split_on(s, pat).len() ==> !has_text(#[trigger] split_on(s, pat)[i], pat),
    decreases s.len(),
{
    lemma_first_at(s, pat, 0);
    let parts = split_on(s, pat);
    match first_at(s, pat, 0) {
        Some(i) => {
            let rest = s.skip(i + pat.len());
            law_split_is_undone(rest, pat);
            assert(parts.drop_first() =~= split_on(rest, pat));
            assert(s =~= s.take(i) + pat + rest);
            assert forall|j: int| 0 <= j < parts.len() implies !has_text(#[trigger] parts[j], pat) by {
                if j == 0 {
                    if has_text(s.take(i), pat) {
                        let k = choose|k: int| occurs_at(s.take(i), pat, k);
                        assert(s.take(i).subrange(k, k + pat.len()) =~= s.subrange(k, k + pat.len()));
                        assert(occurs_at(s, pat, k));
                    }
                } else {
                    assert(parts[j] == split_on(rest, pat)[j - 1]);
                }
            }
        },
        None => {},
    }
}

/// Replacing is splitting at the one text and joining with the other.
pub proof fn law_replace_is_split_and_join(s: Seq<char>, pat: Seq<char>, to: Seq<char>)
    requires
        pat.len() > 0,
    ensures
        replaced(s, pat, to) == joined(split_on(s, pat), to),
    decreases s.len(),
{
    lemma_first_at(s, pat, 0);
    match first_at(s, pat, 0) {
        Some(i) => {
            let rest = s.skip(i + pat.len());
            law_replace_is_split_and_join(rest, pat, to);
            law_split_is_undone(rest, pat);
            assert(split_on(s, pat).drop_first() =~= split_on(rest, pat));
        },
        None => {},
    }
}

/// A line ends at its line feed, and a carriage return before that belongs to the ending; what
/// follows the last ending is a line if there is anything.
pub proof fn law_lines_end_at_feeds(line: Seq<char>, rest: Seq<char>)
    requires
        !line.contains('\n'),
        line.len() > 0 ==> line.last() != '\r',
    ensures
        lines_of(line + seq!['\n'] + rest) == seq![line] + lines_of(rest),
        lines_of(line + seq!['\r', '\n'] + rest) == seq![line] + lines_of(rest),
        lines_of(line) == if line.len() > 0 {
            seq![line]
        } else {
            Seq::empty()
        },
{
    let feed = seq!['\n'];
    lemma_first_at(line, feed, 0);
    assert(first_at(line, feed, 0) is None) by {
        match first_at(line, feed, 0) {
            Some(i) => {
                assert(line.subrange(i, i + 1)[0] == '\n');
            },
            None => {},
        }
    }
    lemma_line(line, rest);
    lemma_line(line + seq!['\r'], rest);
    assert(line + seq!['\r'] + feed + rest =~= line + seq!['\r', '\n'] + rest);
    assert((line + seq!['\r']).drop_last() =~= line);
}

/// The first line of a text.
proof fn lemma_line(line: Seq<char>, rest: Seq<char>)
    requires
        !line.contains('\n'),
    ensures
        lines_of(line + seq!['\n'] + rest) == seq![without_return(line)] + lines_of(rest),
{
    let feed = seq!['\n'];
    let s = line + feed + rest;
    let n = line.len() as int;
    assert(s.subrange(n, n + 1) =~= feed);
    assert forall|j: int| 0 <= j < n implies !occurs_at(s, feed, j) by {
        if occurs_at(s, feed, j) {
            assert(s.subrange(j, j + 1)[0] == '\n');
            assert(line[j] == '\n');
        }
    }
    lemma_first_at_is(s, feed, 0, n);
    assert(s.take(n) =~= line);
    assert(s.skip(n + 1) =~= rest);
}

/// A text is cut at the first `c` in one way only.
pub proof fn lemma_cut_unique(a: Seq<char>, x: Seq<char>, b: Seq<char>, y: Seq<char>, c: char)
    requires
        !a.contains(c),
        !b.contains(c),
        a + seq![c] + x == b + seq![c] + y,
    ensures
        a == b,
        x == y,
{
    let s = a + seq![c] + x;
    let t = b + seq![c] + y;
    if a.len() < b.len() {
        assert(s[a.len() as int] == c);
        assert(t[a.len() as int] == b[a.len() as int]);
    } else if b.len() < a.len() {
        assert(t[b.len() as int] == c);
        assert(s[b.len() as int] == a[b.len() as int]);
    }
    assert(a =~= s.take(a.len() as int));
    assert(b =~= t.take(b.len() as int));
    assert(x =~= s.skip(a.len() as int + 1));
    assert(y =~= t.skip(b.len() as int + 1));
}

/// Strings stand for their texts: each in its place, and none where there is none.
pub proof fn law_strings_are_texts(v: Seq<String>, i: int, s: String)
    requires
        0 <= i < v.len(),
    ensures
        texts(v).len() == v.len(),
        texts(v)[i] == v[i]@,
        opt_text(Some(s)) == Some(s@),
        opt_text(None) is None,
{
}

}
