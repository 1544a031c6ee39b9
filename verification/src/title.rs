//! Cleaning up the titles that the player shows.

use crate::text::{
    chars_of, first_at, has_text, is_white_space, lemma_first_at, lemma_first_at_is, lemma_trimmed,
    lemma_trimmed_same, occurs_at, string_of, trim_chars, trimmed, trimmed_end, trimmed_start,
    white_space,
};
use vstd::prelude::*;

verus! {

/// `k` times the text `p`, one after the other.
pub open spec fn copies(p: Seq<char>, k: nat) -> Seq<char>
    decreases k,
{
    if k == 0 {
        Seq::empty()
    } else {
        p + copies(p, (k - 1) as nat)
    }
}

/// `t` is exactly one part, not empty, repeated `k` times.
pub open spec fn repeats(t: Seq<char>, k: nat) -> bool {
    &&& t.len() >= k
    &&& t.len() % k == 0
    &&& t == copies(t.take((t.len() / k) as int), k)
}

/// What is left of `t` once no repetition of two to four times is left in it; the
/// largest number of repetitions is undone first.
pub open spec fn collapsed(t: Seq<char>) -> Seq<char>
    decreases t.len(),
{
    if repeats(t, 4) {
        collapsed(t.take((t.len() / 4) as int))
    } else if repeats(t, 3) {
        collapsed(t.take((t.len() / 3) as int))
    } else if repeats(t, 2) {
        collapsed(t.take((t.len() / 2) as int))
    } else {
        t
    }
}

/// Every character of `t` is the one that stands `p` places later.
spec fn periodic(t: Seq<char>, p: int) -> bool {
    forall|i: int| #![trigger t[i]] 0 <= i < t.len() - p ==> t[i] == t[i + p]
}

/// A text is a part repeated `k` times where its length is a multiple of `k` and the
/// characters recur at that distance.
proof fn lemma_repeats_periodic(t: Seq<char>, k: nat)
    requires
        2 <= k <= 4,
        t.len() >= k,
        t.len() % k == 0,
    ensures
        repeats(t, k) == periodic(t, (t.len() / k) as int),
{
    let p = (t.len() / k) as int;
    let part = t.take(p);
    assert(t.len() == k * p) by (nonlinear_arith)
        requires
            t.len() % k == 0,
            p == t.len() / k,
            k > 0,
    ;
    reveal_with_fuel(copies, 5);
    assert(k == 2 || k == 3 || k == 4);
    let c = copies(part, k);
    assert(c.len() == t.len());
    if periodic(t, p) {
        assert forall|i: int| 0 <= i < t.len() implies c[i] == t[i] by {
            if i >= p {
                assert(t[i - p] == t[i - p + p]);
            }
            if i >= 2 * p {
                assert(t[i - 2 * p] == t[i - 2 * p + p]);
            }
            if i >= 3 * p {
                assert(t[i - 3 * p] == t[i - 3 * p + p]);
            }
        }
        assert(c =~= t);
    }
    if repeats(t, k) {
        assert forall|i: int| #![trigger t[i]] 0 <= i < t.len() - p implies t[i] == t[i + p] by {
            assert(c[i] == c[i + p]);
        }
    }
}

/// Whether `t` is one part repeated `k` times.
fn is_repeated(t: &Vec<char>, k: usize) -> (r: bool)
    requires
        2 <= k <= 4,
    ensures
        r == repeats(t@, k as nat),
{
    let n = t.len();
    if n < k || n % k != 0 {
        return false;
    }
    proof {
        lemma_repeats_periodic(t@, k as nat);
    }
    let p = n / k;
    let mut i: usize = 0;
    assert(p <= n);
    while i < n - p
        invariant
            0 <= i <= n - p,
            p <= n == t@.len(),
            repeats(t@, k as nat) == periodic(t@, p as int),
            forall|j: int| #![trigger t@[j]] 0 <= j < i ==> t@[j] == t@[j + p],
        decreases n - i,
    {
        if t[i] != t[i + p] {
            return false;
        }
        i += 1;
    }
    true
}

/// Collapse a string that is exactly one part repeated 2-4 times (Pandora's marquee
/// clones its content while scrolling: "AbcAbcAbc" -> "Abc").
pub fn undouble(s: &str) -> (r: String)
    ensures
        r@ == collapsed(trimmed(s@)),
{
    let v = chars_of(s);
    let mut t = trim_chars(&v);
    loop
        invariant_except_break
            collapsed(t@) == collapsed(trimmed(s@)),
        ensures
            t@ == collapsed(trimmed(s@)),
        decreases t@.len(),
    {
        let n = t.len();
        let k: usize = if is_repeated(&t, 4) {
            4
        } else if is_repeated(&t, 3) {
            3
        } else if is_repeated(&t, 2) {
            2
        } else {
            break;
        };
        t.truncate(n / k);
        assert(t@.len() < n);
    }
    string_of(&t)
}

/// How many parentheses are open before position `k`. One that closes nothing does not
/// count.
pub open spec fn depth(s: Seq<char>, k: int) -> int
    decreases k,
{
    if k <= 0 {
        0
    } else {
        let d = depth(s, k - 1);
        if s[k - 1] == '(' {
            d + 1
        } else if s[k - 1] == ')' && d > 0 {
            d - 1
        } else {
            d
        }
    }
}

/// At `k` stands a character of the title itself, outside all parentheses.
pub open spec fn title_text(s: Seq<char>, k: int) -> bool {
    &&& 0 <= k < s.len()
    &&& depth(s, k) == 0
    &&& !white_space(s[k])
    &&& s[k] != '('
    &&& s[k] != ')'
}

/// All of `s` is white space.
pub open spec fn blank(s: Seq<char>) -> bool {
    forall|j: int| 0 <= j < s.len() ==> white_space(#[trigger] s[j])
}

/// At `k` a descriptor begins: a dash between blanks, outside all parentheses.
pub open spec fn descriptor_at(s: Seq<char>, k: int) -> bool {
    occurs_at(s, " - "@, k) && depth(s, k) == 0
}

/// At `p` the trailing parentheticals begin: nothing of the title follows.
pub open spec fn trailing_at(s: Seq<char>, p: int) -> bool {
    &&& 0 <= p < s.len()
    &&& s[p] == '('
    &&& depth(s, p) == 0
    &&& forall|k: int| p < k ==> !#[trigger] title_text(s, k)
}

/// Where the first descriptor from `from` on begins; the end where there is none.
pub open spec fn descriptor_from(s: Seq<char>, from: int) -> int
    decreases s.len() - from,
{
    if from >= s.len() {
        s.len() as int
    } else if descriptor_at(s, from) {
        from
    } else {
        descriptor_from(s, from + 1)
    }
}

/// Where the trailing parentheticals begin, from `from` on; the end where there are none.
pub open spec fn trailing_from(s: Seq<char>, from: int) -> int
    decreases s.len() - from,
{
    if from >= s.len() {
        s.len() as int
    } else if trailing_at(s, from) {
        from
    } else {
        trailing_from(s, from + 1)
    }
}

/// A title up to its first descriptor.
pub open spec fn without_descriptor(s: Seq<char>) -> Seq<char> {
    s.take(descriptor_from(s, 0))
}

/// A title without its trailing parentheticals.
pub open spec fn without_trailing(s: Seq<char>) -> Seq<char> {
    s.take(trailing_from(s, 0))
}

/// A title without its descriptors, then without its trailing parentheticals.
pub open spec fn simplified(s: Seq<char>) -> Seq<char> {
    trimmed(without_trailing(without_descriptor(s)))
}

/// How many parentheses are open behind the character `c`, if `d` are open before it.
fn next_depth(d: usize, c: char) -> (r: usize)
    requires
        d < usize::MAX,
    ensures
        r == if c == '(' {
            d + 1
        } else if c == ')' && d > 0 {
            d - 1
        } else {
            d as int
        },
{
    if c == '(' {
        d + 1
    } else if c == ')' && d > 0 {
        d - 1
    } else {
        d
    }
}

/// Where the first descriptor of a title begins; the end where there is none.
fn descriptor_start(v: &Vec<char>) -> (r: usize)
    ensures
        r == descriptor_from(v@, 0),
        r <= v@.len(),
{
    proof {
        reveal_strlit(" - ");
    }
    let n = v.len();
    let mut d: usize = 0;
    let mut i: usize = 0;
    while i < n
        invariant
            i <= n == v@.len(),
            d <= i,
            d == depth(v@, i as int),
            descriptor_from(v@, 0) == descriptor_from(v@, i as int),
            " - "@ =~= seq![' ', '-', ' '],
        decreases n - i,
    {
        if d == 0 && n - i >= 3 && v[i] == ' ' && v[i + 1] == '-' && v[i + 2] == ' ' {
            assert(v@.subrange(i as int, i + 3) =~= " - "@);
            return i;
        }
        proof {
            if descriptor_at(v@, i as int) {
                let sub = v@.subrange(i as int, i + 3);
                assert(sub[0] == v@[i as int] && sub[1] == v@[i + 1] && sub[2] == v@[i + 2]);
            }
        }
        d = next_depth(d, v[i]);
        i += 1;
    }
    n
}

/// Whether the trailing parentheticals begin at `p`, where a parenthesis opens.
fn is_trailing(v: &Vec<char>, p: usize) -> (r: bool)
    requires
        p < v@.len(),
        v@[p as int] == '(',
        depth(v@, p as int) == 0,
    ensures
        r == trailing_at(v@, p as int),
{
    let n = v.len();
    let mut d: usize = 1;
    let mut k: usize = p + 1;
    while k < n
        invariant
            p < k <= n == v@.len(),
            d <= k,
            d == depth(v@, k as int),
            forall|j: int| p < j < k ==> !#[trigger] title_text(v@, j),
        decreases n - k,
    {
        let c = v[k];
        if d == 0 && !is_white_space(c) && c != '(' && c != ')' {
            assert(title_text(v@, k as int));
            return false;
        }
        d = next_depth(d, c);
        k += 1;
    }
    true
}

/// Where the trailing parentheticals of a title begin; the end where there are none.
fn trailing_start(v: &Vec<char>) -> (r: usize)
    ensures
        r == trailing_from(v@, 0),
        r <= v@.len(),
{
    let n = v.len();
    let mut d: usize = 0;
    let mut i: usize = 0;
    while i < n
        invariant
            i <= n == v@.len(),
            d <= i,
            d == depth(v@, i as int),
            trailing_from(v@, 0) == trailing_from(v@, i as int),
        decreases n - i,
    {
        let c = v[i];
        if d == 0 && c == '(' && is_trailing(v, i) {
            return i;
        }
        d = next_depth(d, c);
        i += 1;
    }
    n
}

/// Strip trailing parentheticals and descriptors that hurt matching, e.g.
/// "Song (I Just Wanna Fall in Love)" -> "Song", "Song - Single" -> "Song".
pub fn simplify_title(s: &str) -> (r: String)
    ensures
        r@ == simplified(s@),
{
    let mut v = chars_of(s);
    let d = descriptor_start(&v);
    v.truncate(d);
    assert(v@ =~= without_descriptor(s@));
    let t = trailing_start(&v);
    v.truncate(t);
    assert(v@ =~= without_trailing(without_descriptor(s@)));
    let r = trim_chars(&v);
    string_of(&r)
}

/// Copies of copies are copies.
proof fn lemma_copies_of_copies(p: Seq<char>, m: nat, k: nat)
    ensures
        copies(copies(p, m), k) == copies(p, m * k),
    decreases k,
{
    if k == 0 {
        assert(m * k == 0) by (nonlinear_arith)
            requires
                k == 0,
        ;
    } else {
        lemma_copies_of_copies(p, m, (k - 1) as nat);
        lemma_copies_add(p, m, m * (k - 1) as nat);
        assert(m + m * (k - 1) == m * k) by (nonlinear_arith);
    }
}

/// `a` copies and `b` copies are `a + b` copies.
proof fn lemma_copies_add(p: Seq<char>, a: nat, b: nat)
    ensures
        copies(p, a) + copies(p, b) == copies(p, a + b),
    decreases a,
{
    if a == 0 {
        assert(copies(p, a) + copies(p, b) =~= copies(p, b));
    } else {
        lemma_copies_add(p, (a - 1) as nat, b);
        assert(copies(p, a) + copies(p, b) =~= p + (copies(p, (a - 1) as nat) + copies(p, b)));
    }
}

/// A repeated text begins and ends as its part does.
proof fn lemma_repeat_ends(t: Seq<char>, k: nat)
    requires
        2 <= k <= 4,
        repeats(t, k),
    ensures
        0 < t.len() / k < t.len(),
        t.take((t.len() / k) as int).first() == t.first(),
        t.take((t.len() / k) as int).last() == t.last(),
{
    lemma_repeats_periodic(t, k);
    let p = (t.len() / k) as int;
    assert(t.len() == k * p) by (nonlinear_arith)
        requires
            t.len() % k == 0,
            p == t.len() / k,
            k > 0,
    ;
    assert(k == 2 || k == 3 || k == 4);
    assert(t.len() == 2 * p || t.len() == 3 * p || t.len() == 4 * p);
    assert(t[p - 1] == t[p - 1 + p]);
    if k >= 3 {
        assert(t[2 * p - 1] == t[2 * p - 1 + p]);
    }
    if k == 4 {
        assert(t[3 * p - 1] == t[3 * p - 1 + p]);
    }
}

/// Collapsing keeps the first and the last character, leaves no repetition, and loses
/// nothing but repetitions.
proof fn lemma_collapsed(t: Seq<char>)
    ensures
        forall|k: nat| 2 <= k <= 4 ==> !repeats(collapsed(t), k),
        t.len() > 0 ==> collapsed(t).len() > 0 && collapsed(t).first() == t.first() && collapsed(
            t,
        ).last() == t.last(),
        exists|m: nat| t == #[trigger] copies(collapsed(t), m),
    decreases t.len(),
{
    let k: nat = if repeats(t, 4) {
        4
    } else if repeats(t, 3) {
        3
    } else if repeats(t, 2) {
        2
    } else {
        1
    };
    if k == 1 {
        reveal_with_fuel(copies, 2);
        assert(t =~= copies(t, 1));
    } else {
        let q = t.take((t.len() / k) as int);
        lemma_collapsed(q);
        let m = choose|m: nat| q == #[trigger] copies(collapsed(q), m);
        lemma_copies_of_copies(collapsed(q), m, k);
        assert(t == copies(collapsed(t), m * k));
        lemma_repeat_ends(t, k);
    }
}

/// Where characters recur both at a distance `p` and at a shorter distance `q`, those
/// of the first `p` recur at the difference.
proof fn lemma_two_periods(t: Seq<char>, p: int, q: int)
    requires
        0 < q < p,
        2 * p <= t.len(),
        periodic(t, p),
        periodic(t, q),
    ensures
        periodic(t.take(p), p - q),
{
    let m = p - q;
    let part = t.take(p);
    assert forall|i: int| #![trigger part[i]] 0 <= i < part.len() - m implies part[i] == part[i + m] by {
        assert(t[i] == t[i + p]);
        assert(t[i + m] == t[i + m + q]);
    }
}

/// Two to four copies of a part are that part repeated so often.
proof fn lemma_copies_repeat(part: Seq<char>, k: nat)
    requires
        2 <= k <= 4,
        part.len() > 0,
    ensures
        copies(part, k).len() == k * part.len(),
        copies(part, k).len() / k == part.len(),
        copies(part, k).take(part.len() as int) == part,
        repeats(copies(part, k), k),
{
    let t = copies(part, k);
    reveal_with_fuel(copies, 5);
    assert(k == 2 || k == 3 || k == 4);
    assert(t.len() == k * part.len());
    assert(t.take(part.len() as int) =~= part);
    assert(t.len() % k == 0 && t.len() / k == part.len()) by {
        vstd::arithmetic::div_mod::lemma_div_multiples_vanish(part.len() as int, k as int);
        vstd::arithmetic::div_mod::lemma_mod_multiples_basic(part.len() as int, k as int);
        assert(k * part.len() == part.len() * k) by (nonlinear_arith);
    }
}

/// The first of some copies are copies.
proof fn lemma_copies_take(p: Seq<char>, a: nat, b: nat)
    requires
        a <= b,
    ensures
        copies(p, a).len() == a * p.len(),
        copies(p, b).take((a * p.len()) as int) == copies(p, a),
{
    lemma_copies_len(p, a);
    lemma_copies_add(p, a, (b - a) as nat);
    assert((copies(p, a) + copies(p, (b - a) as nat)).take(copies(p, a).len() as int) =~= copies(p, a));
}

/// How long some copies are.
proof fn lemma_copies_len(p: Seq<char>, k: nat)
    ensures
        copies(p, k).len() == k * p.len(),
    decreases k,
{
    if k > 0 {
        lemma_copies_len(p, (k - 1) as nat);
        assert(p.len() + (k - 1) * p.len() == k * p.len()) by (nonlinear_arith);
    } else {
        assert(k * p.len() == 0) by (nonlinear_arith)
            requires
                k == 0,
        ;
    }
}

/// Two to four copies of a part collapse to what the part does.
proof fn lemma_collapsed_copies(part: Seq<char>, k: nat)
    requires
        2 <= k <= 4,
        part.len() > 0,
    ensures
        collapsed(copies(part, k)) == collapsed(part),
    decreases part.len(),
{
    let t = copies(part, k);
    let p = part.len() as int;
    lemma_copies_repeat(part, k);
    lemma_repeats_periodic(t, k);
    if repeats(t, 4) {
        lemma_repeats_periodic(t, 4);
        if k == 3 {
            let m = p / 4;
            let u = part.take(m);
            assert(t.len() == 12 * m && t.len() / 4 == 3 * m && p == 4 * m);
            lemma_two_periods(t, p, 3 * m);
            lemma_repeats_periodic(part, 4);
            lemma_copies_take(u, 3, 4);
            assert(t.take(3 * m) =~= part.take(3 * m));
            lemma_collapsed_copies(u, 3);
        } else if k == 2 {
            let m = p / 2;
            let u = part.take(m);
            assert(t.len() == 4 * m && t.len() / 4 == m && p == 2 * m);
            lemma_two_periods(t, p, m);
            lemma_repeats_periodic(part, 2);
            assert(t.take(m) =~= u);
            lemma_collapsed_copies(u, 2);
        }
    } else if repeats(t, 3) {
        lemma_repeats_periodic(t, 3);
        if k == 2 {
            let m = p / 3;
            let u = part.take(m);
            assert(t.len() == 6 * m && t.len() / 3 == 2 * m && p == 3 * m);
            lemma_two_periods(t, p, 2 * m);
            lemma_repeats_periodic(part, 3);
            lemma_copies_take(u, 2, 3);
            assert(t.take(2 * m) =~= part.take(2 * m));
            lemma_collapsed_copies(u, 2);
            lemma_collapsed_copies(u, 3);
        }
    }
}

/// A text that, trimmed, is one part repeated two to four times collapses to what the part
/// does: to the part itself, where that is no such repetition.
pub proof fn law_undouble_undoes_repetition(s: Seq<char>, part: Seq<char>, k: nat)
    requires
        2 <= k <= 4,
        trimmed(s) == copies(part, k),
    ensures
        collapsed(trimmed(s)) == collapsed(part),
        (forall|j: nat| 2 <= j <= 4 ==> !repeats(part, j)) ==> collapsed(trimmed(s)) == part,
{
    if part.len() > 0 {
        lemma_collapsed_copies(part, k);
    } else {
        lemma_copies_len(part, k);
        assert(k * part.len() == 0) by (nonlinear_arith)
            requires
                part.len() == 0,
        ;
        assert(trimmed(s) =~= part);
    }
}

/// Two to four copies of a trimmed text are undoubled as one is.
pub proof fn law_undouble_ignores_copies(part: Seq<char>, k: nat)
    requires
        2 <= k <= 4,
        trimmed(part) == part,
    ensures
        collapsed(trimmed(copies(part, k))) == collapsed(trimmed(part)),
{
    let t = copies(part, k);
    lemma_copies_len(part, k);
    if part.len() > 0 {
        lemma_trimmed(part);
        lemma_copies_repeat(part, k);
        lemma_repeat_ends(t, k);
    } else {
        assert(k * part.len() == 0) by (nonlinear_arith)
            requires
                part.len() == 0,
        ;
    }
    lemma_trimmed_same(t);
    law_undouble_undoes_repetition(t, part, k);
}

/// What is left is trimmed and is no repetition of two to four times, and the trimmed
/// text is nothing but copies of it.
pub proof fn law_undouble_result(s: Seq<char>)
    ensures
        trimmed(collapsed(trimmed(s))) == collapsed(trimmed(s)),
        forall|k: nat| 2 <= k <= 4 ==> !repeats(collapsed(trimmed(s)), k),
        exists|m: nat| trimmed(s) == #[trigger] copies(collapsed(trimmed(s)), m),
{
    lemma_trimmed(s);
    lemma_collapsed(trimmed(s));
    if trimmed(s).len() > 0 {
        lemma_trimmed_same(collapsed(trimmed(s)));
    } else {
        assert(collapsed(trimmed(s)) =~= trimmed(s));
    }
}

/// Undoubling twice is undoubling once.
pub proof fn law_undouble_idempotent(s: Seq<char>)
    ensures
        collapsed(trimmed(collapsed(trimmed(s)))) == collapsed(trimmed(s)),
{
    law_undouble_result(s);
}

/// There is no less than no parenthesis open, and not more than characters before.
proof fn lemma_depth_bounds(s: Seq<char>, k: int)
    requires
        0 <= k,
    ensures
        0 <= depth(s, k) <= k,
    decreases k,
{
    if k > 0 {
        lemma_depth_bounds(s, k - 1);
    }
}

/// Texts that begin alike are alike in their parentheses there.
proof fn lemma_depth_same(s: Seq<char>, t: Seq<char>, k: int)
    requires
        forall|i: int| 0 <= i < k ==> #[trigger] s[i] == t[i],
    ensures
        depth(s, k) == depth(t, k),
    decreases k,
{
    if k > 0 {
        lemma_depth_same(s, t, k - 1);
        assert(s[k - 1] == t[k - 1]);
    }
}

/// A stretch without parentheses neither opens nor closes any.
proof fn lemma_depth_flat(s: Seq<char>, from: int, k: int)
    requires
        0 <= from <= k,
        forall|i: int| from <= i < k ==> #[trigger] s[i] != '(' && s[i] != ')',
    ensures
        depth(s, k) == depth(s, from),
    decreases k,
{
    if k > from {
        lemma_depth_flat(s, from, k - 1);
        assert(s[k - 1] != '(' && s[k - 1] != ')');
    }
}

/// Where nothing opens a parenthesis, none is open.
proof fn lemma_depth_zero(s: Seq<char>, k: int)
    requires
        forall|i: int| 0 <= i < k ==> #[trigger] s[i] != '(',
    ensures
        depth(s, k) == 0,
    decreases k,
{
    if k > 0 {
        lemma_depth_zero(s, k - 1);
        assert(s[k - 1] != '(');
    }
}

/// Where a parenthesis is open, there is one that opened the outermost of those open.
proof fn lemma_outermost(s: Seq<char>, k: int) -> (p: int)
    requires
        0 < k <= s.len(),
        depth(s, k) > 0,
    ensures
        0 <= p < k,
        s[p] == '(',
        depth(s, p) == 0,
        forall|q: int| p < q <= k ==> #[trigger] depth(s, q) > 0,
    decreases k,
{
    lemma_depth_bounds(s, k - 1);
    if depth(s, k - 1) == 0 {
        k - 1
    } else {
        lemma_outermost(s, k - 1)
    }
}

/// The first descriptor is one, and none stands before it.
proof fn lemma_descriptor_from(s: Seq<char>, from: int)
    requires
        0 <= from <= s.len(),
    ensures
        from <= descriptor_from(s, from) <= s.len(),
        forall|j: int| from <= j < descriptor_from(s, from) ==> !#[trigger] descriptor_at(s, j),
        descriptor_from(s, from) < s.len() ==> descriptor_at(s, descriptor_from(s, from)),
    decreases s.len() - from,
{
    if from < s.len() && !descriptor_at(s, from) {
        lemma_descriptor_from(s, from + 1);
    }
}

/// The first trailing parenthetical is one, and none stands before it.
proof fn lemma_trailing_from(s: Seq<char>, from: int)
    requires
        0 <= from <= s.len(),
    ensures
        from <= trailing_from(s, from) <= s.len(),
        forall|j: int| from <= j < trailing_from(s, from) ==> !#[trigger] trailing_at(s, j),
        trailing_from(s, from) < s.len() ==> trailing_at(s, trailing_from(s, from)),
    decreases s.len() - from,
{
    if from < s.len() && !trailing_at(s, from) {
        lemma_trailing_from(s, from + 1);
    }
}

/// A title without a descriptor and without trailing parentheticals.
pub open spec fn simple(s: Seq<char>) -> bool {
    &&& forall|k: int| !#[trigger] descriptor_at(s, k)
    &&& forall|p: int| !#[trigger] trailing_at(s, p)
}

/// A descriptor that stands within the beginning of a title stands in the title, and the
/// other way round.
proof fn lemma_descriptor_take(s: Seq<char>, n: int, k: int)
    requires
        0 <= n <= s.len(),
        0 <= k,
        k + 3 <= n,
    ensures
        descriptor_at(s.take(n), k) == descriptor_at(s, k),
{
    reveal_strlit(" - ");
    let t = s.take(n);
    assert(t.subrange(k, k + 3) =~= s.subrange(k, k + 3));
    lemma_depth_same(s, t, k);
}

/// Cutting leaves a simple title.
proof fn lemma_cut_is_simple(s: Seq<char>)
    ensures
        simple(without_trailing(without_descriptor(s))),
{
    reveal_strlit(" - ");
    let r = descriptor_from(s, 0);
    let d = s.take(r);
    let p = trailing_from(d, 0);
    let c = d.take(p);
    lemma_descriptor_from(s, 0);
    lemma_trailing_from(d, 0);
    assert forall|k: int| !#[trigger] descriptor_at(c, k) by {
        if descriptor_at(c, k) {
            lemma_descriptor_take(d, p, k);
            lemma_descriptor_take(s, r, k);
        }
    }
    assert forall|k: int| 0 <= k <= p implies #[trigger] depth(c, k) == depth(d, k) by {
        lemma_depth_same(c, d, k);
    }
    assert forall|q: int| !#[trigger] trailing_at(c, q) by {
        if trailing_at(c, q) {
            assert(depth(c, q) == depth(d, q));
            assert forall|k: int| q < k implies !#[trigger] title_text(d, k) by {
                if k < p {
                    assert(!title_text(c, k));
                    assert(depth(c, k) == depth(d, k));
                }
            }
            assert(trailing_at(d, q));
        }
    }
}

/// White space at the start of a simple title does not matter.
proof fn lemma_simple_drop_first(s: Seq<char>)
    requires
        s.len() > 0,
        white_space(s.first()),
        simple(s),
    ensures
        simple(s.drop_first()),
{
    reveal_strlit(" - ");
    let t = s.drop_first();
    assert forall|k: int| 0 <= k <= t.len() implies #[trigger] depth(t, k) == depth(s, k + 1) by {
        lemma_depth_drop_first(s, k);
    }
    assert forall|k: int| !#[trigger] descriptor_at(t, k) by {
        if descriptor_at(t, k) {
            assert(t.subrange(k, k + 3) =~= s.subrange(k + 1, k + 4));
            assert(depth(t, k) == depth(s, k + 1));
            assert(descriptor_at(s, k + 1));
        }
    }
    assert forall|p: int| !#[trigger] trailing_at(t, p) by {
        if trailing_at(t, p) {
            assert(depth(t, p) == depth(s, p + 1));
            assert forall|k: int| p + 1 < k implies !#[trigger] title_text(s, k) by {
                assert(!title_text(t, k - 1));
                if k < s.len() {
                    assert(depth(t, k - 1) == depth(s, k));
                }
            }
            assert(trailing_at(s, p + 1));
        }
    }
}

/// Dropping a first character that is no parenthesis.
proof fn lemma_depth_drop_first(s: Seq<char>, k: int)
    requires
        0 <= k < s.len(),
        s.first() != '(',
    ensures
        depth(s.drop_first(), k) == depth(s, k + 1),
    decreases k,
{
    if k > 0 {
        lemma_depth_drop_first(s, k - 1);
        assert(s.drop_first()[k - 1] == s[k]);
    } else {
        assert(depth(s, 0) == 0);
    }
}

/// White space at the end of a simple title does not matter.
proof fn lemma_simple_drop_last(s: Seq<char>)
    requires
        s.len() > 0,
        white_space(s.last()),
        simple(s),
    ensures
        simple(s.drop_last()),
{
    reveal_strlit(" - ");
    let t = s.drop_last();
    let n = t.len() as int;
    assert(t =~= s.take(n));
    assert forall|k: int| 0 <= k <= n implies #[trigger] depth(t, k) == depth(s, k) by {
        lemma_depth_same(t, s, k);
    }
    assert forall|k: int| !#[trigger] descriptor_at(t, k) by {
        if descriptor_at(t, k) {
            lemma_descriptor_take(s, n, k);
        }
    }
    assert forall|p: int| !#[trigger] trailing_at(t, p) by {
        if trailing_at(t, p) {
            assert(depth(t, p) == depth(s, p));
            assert forall|k: int| p < k implies !#[trigger] title_text(s, k) by {
                assert(!title_text(t, k));
                if k < n {
                    assert(depth(t, k) == depth(s, k));
                }
            }
            assert(trailing_at(s, p));
        }
    }
}

/// A simple title stays one when it is trimmed at its start.
proof fn lemma_simple_trimmed_start(s: Seq<char>)
    requires
        simple(s),
    ensures
        simple(trimmed_start(s)),
    decreases s.len(),
{
    if s.len() > 0 && white_space(s.first()) {
        lemma_simple_drop_first(s);
        lemma_simple_trimmed_start(s.drop_first());
    }
}

/// A simple title stays one when it is trimmed at its end.
proof fn lemma_simple_trimmed_end(s: Seq<char>)
    requires
        simple(s),
    ensures
        simple(trimmed_end(s)),
    decreases s.len(),
{
    if s.len() > 0 && white_space(s.last()) {
        lemma_simple_drop_last(s);
        lemma_simple_trimmed_end(s.drop_last());
    }
}

/// A simplified title is trimmed, and neither a descriptor nor a trailing parenthetical is
/// left in it.
pub proof fn law_simplified_is_simple(s: Seq<char>)
    ensures
        simple(simplified(s)),
        trimmed(simplified(s)) == simplified(s),
{
    let c = without_trailing(without_descriptor(s));
    lemma_cut_is_simple(s);
    lemma_simple_trimmed_start(c);
    lemma_simple_trimmed_end(trimmed_start(c));
    lemma_trimmed(c);
    lemma_trimmed_same(simplified(s));
}

/// A title without descriptors and trailing parentheticals is only trimmed.
pub proof fn law_simple_title_kept(s: Seq<char>)
    requires
        simple(s),
    ensures
        simplified(s) == trimmed(s),
{
    lemma_descriptor_from(s, 0);
    assert(s.take(s.len() as int) =~= s);
    assert(without_descriptor(s) == s);
    lemma_trailing_from(s, 0);
    assert(without_trailing(s) == s);
}

/// Simplifying twice is simplifying once.
pub proof fn law_simplify_idempotent(s: Seq<char>)
    ensures
        simplified(simplified(s)) == simplified(s),
{
    law_simplified_is_simple(s);
    law_simple_title_kept(simplified(s));
}

/// `s` up to the first `pat` in it.
pub open spec fn cut_before(s: Seq<char>, pat: Seq<char>) -> Seq<char> {
    match first_at(s, pat, 0) {
        Some(i) => s.take(i),
        None => s,
    }
}

/// A single character stands where it stands.
proof fn lemma_paren_at(s: Seq<char>, i: int)
    requires
        0 <= i < s.len(),
    ensures
        occurs_at(s, "("@, i) == (s[i] == '('),
{
    reveal_strlit("(");
    assert(s.subrange(i, i + 1) =~= seq![s[i]]);
    assert("("@ =~= seq!['(']);
    assert(seq![s[i]][0] == s[i] && seq!['('][0] == '(');
}

/// A title whose first parenthesis, its descriptors aside, opens a trailing parenthetical is
/// cut where its first parenthesis or its first dash between blanks stands.
pub proof fn law_trailing_is_cut(s: Seq<char>)
    requires
        first_at(without_descriptor(s), "("@, 0) matches Some(p) ==> trailing_at(
            without_descriptor(s),
            p,
        ),
    ensures
        simplified(s) == trimmed(cut_before(cut_before(s, "("@), " - "@)),
{
    reveal_strlit("(");
    reveal_strlit(" - ");
    let r = descriptor_from(s, 0);
    let d = s.take(r);
    lemma_descriptor_from(s, 0);
    lemma_first_at(d, "("@, 0);
    lemma_trailing_from(d, 0);
    // Where the first part ends that holds no parenthesis.
    let p = match first_at(d, "("@, 0) {
        Some(p) => p,
        None => r,
    };
    assert forall|i: int| 0 <= i < p implies #[trigger] s[i] != '(' by {
        lemma_paren_at(d, i);
        assert(d[i] == s[i]);
        assert(!occurs_at(d, "("@, i));
    }
    assert forall|i: int| 0 <= i < p implies !#[trigger] trailing_at(d, i) by {
        assert(d[i] == s[i]);
    }
    assert(trailing_from(d, 0) == p);
    assert(without_trailing(d) =~= s.take(p));
    assert forall|j: int| 0 <= j < p implies !#[trigger] occurs_at(s, " - "@, j) by {
        lemma_depth_zero(s, j);
        assert(!descriptor_at(s, j));
    }
    lemma_first_at(s, "("@, 0);
    let c = cut_before(s, "("@);
    if p < r {
        lemma_paren_at(d, p);
        lemma_paren_at(s, p);
        assert forall|j: int| 0 <= j < p implies !occurs_at(s, "("@, j) by {
            lemma_paren_at(s, j);
            assert(s[j] != '(');
        }
        lemma_first_at_is(s, "("@, 0, p);
        assert(c == s.take(p));
        lemma_no_dash(s, p, p);
        assert(cut_before(c, " - "@) == c);
    } else {
        match first_at(s, "("@, 0) {
            Some(q) => {
                lemma_paren_at(s, q);
                assert(q >= r);
                if r < s.len() {
                    let sub = s.subrange(r, r + 3);
                    assert(sub == " - "@);
                    assert(s[r] == sub[0] && s[r + 1] == sub[1] && s[r + 2] == sub[2]);
                    assert(q >= r + 3);
                }
            },
            None => {
                assert(c == s.take(s.len() as int));
            },
        }
        let n = c.len() as int;
        assert(c =~= s.take(n));
        lemma_no_dash(s, n, r);
        if r < s.len() {
            assert(c.subrange(r, r + 3) =~= s.subrange(r, r + 3));
            lemma_first_at_is(c, " - "@, 0, r);
            assert(c.take(r) =~= s.take(r));
        } else {
            assert(c =~= s.take(r));
            lemma_first_at(c, " - "@, 0);
        }
    }
}

/// No dash stands early in the beginning of a title where none does in the title.
proof fn lemma_no_dash(s: Seq<char>, n: int, r: int)
    requires
        0 <= r,
        0 <= n <= s.len(),
        forall|j: int| 0 <= j < r ==> !#[trigger] occurs_at(s, " - "@, j),
    ensures
        forall|j: int| 0 <= j < r ==> !#[trigger] occurs_at(s.take(n), " - "@, j),
        n <= r ==> cut_before(s.take(n), " - "@) == s.take(n),
{
    reveal_strlit(" - ");
    let c = s.take(n);
    assert forall|j: int| 0 <= j < r implies !#[trigger] occurs_at(c, " - "@, j) by {
        if occurs_at(c, " - "@, j) {
            assert(c.subrange(j, j + 3) =~= s.subrange(j, j + 3));
            assert(occurs_at(s, " - "@, j));
        }
    }
    lemma_first_at(c, " - "@, 0);
}

/// A parenthetical at the end is cut off: a title is simplified alike with it and without it.
pub proof fn law_parenthetical_is_cut(a: Seq<char>, b: Seq<char>)
    requires
        !b.contains('('),
        !b.contains(')'),
    ensures
        simplified(a + seq!['('] + b + seq![')']) == simplified(a),
{
    reveal_strlit(" - ");
    let s = a + seq!['('] + b + seq![')'];
    let n = a.len() as int;
    let end = s.len() - 1;
    let open = depth(a, n);
    lemma_depth_bounds(a, n);
    assert forall|k: int| 0 <= k <= n implies #[trigger] depth(s, k) == depth(a, k) by {
        lemma_depth_same(s, a, k);
    }
    assert(s.take(n) =~= a);
    assert(s[n] == '(' && depth(s, n) == open);
    assert(depth(s, n + 1) == open + 1);
    assert forall|k: int| n < k <= end implies #[trigger] depth(s, k) == open + 1 by {
        assert forall|i: int| n + 1 <= i < k implies #[trigger] s[i] != '(' && s[i] != ')' by {
            assert(s[i] == b[i - n - 1]);
        }
        lemma_depth_flat(s, n + 1, k);
    }
    assert(s[end] == ')' && depth(s, end) == open + 1);
    assert(depth(s, end + 1) == open);
    assert forall|k: int| #[trigger] descriptor_at(s, k) == descriptor_at(a, k) by {
        if 0 <= k && k + 3 <= n {
            lemma_descriptor_take(s, n, k);
        } else if descriptor_at(s, k) {
            let sub = s.subrange(k, k + 3);
            assert(s[k] == sub[0] && s[k + 1] == sub[1] && s[k + 2] == sub[2]);
            if k > n {
                assert(depth(s, k) == open + 1);
            }
        }
    }
    lemma_descriptor_from(s, 0);
    lemma_descriptor_from(a, 0);
    let r = descriptor_from(a, 0);
    if r < n {
        assert(descriptor_at(s, r));
        assert(descriptor_from(s, 0) == r) by {
            if descriptor_from(s, 0) < r {
                assert(!descriptor_at(a, descriptor_from(s, 0)));
            }
        }
        assert(s.take(r) =~= a.take(r));
    } else {
        assert(descriptor_from(s, 0) == s.len()) by {
            let f = descriptor_from(s, 0);
            if f < s.len() {
                assert(descriptor_at(a, f));
            }
        }
        assert(without_descriptor(s) =~= s);
        assert(without_descriptor(a) =~= a);
        assert forall|k: int| #[trigger] title_text(s, k) == title_text(a, k) by {
            if 0 <= k < n {
                assert(depth(s, k) == depth(a, k));
            } else if n < k < end {
                assert(depth(s, k) == open + 1);
            }
        }
        assert forall|p: int| 0 <= p < n implies #[trigger] trailing_at(s, p) == trailing_at(a, p) by {
            lemma_alike(a, s, p);
        }
        lemma_trailing_from(s, 0);
        lemma_trailing_from(a, 0);
        let t = trailing_from(a, 0);
        if t < n {
            assert(trailing_at(s, t));
            assert(trailing_from(s, 0) == t) by {
                let f = trailing_from(s, 0);
                if f < t {
                    assert(!trailing_at(a, f));
                }
            }
            assert(s.take(t) =~= a.take(t));
        } else {
            if open > 0 {
                let p = lemma_outermost(a, n);
                assert forall|k: int| p < k implies !#[trigger] title_text(a, k) by {
                    if k < n {
                        assert(depth(a, k) > 0);
                    }
                }
                assert(trailing_at(a, p));
            }
            assert(depth(s, n) == depth(a, n));
            assert forall|k: int| n < k implies !#[trigger] title_text(s, k) by {
                assert(!title_text(a, k));
            }
            assert(trailing_at(s, n));
            assert(trailing_from(s, 0) == n) by {
                let f = trailing_from(s, 0);
                if f < n {
                    assert(!trailing_at(a, f));
                }
            }
            assert(s.take(n) =~= a.take(n));
        }
    }
}

/// Where a title begins as another does and nothing of the title itself comes after, the
/// trailing parentheticals of both begin alike.
proof fn lemma_alike(a: Seq<char>, s: Seq<char>, p: int)
    requires
        0 <= p < a.len() < s.len(),
        s.take(a.len() as int) == a,
        forall|k: int| #[trigger] title_text(s, k) == title_text(a, k),
        forall|k: int| 0 <= k <= a.len() ==> #[trigger] depth(s, k) == depth(a, k),
    ensures
        trailing_at(s, p) == trailing_at(a, p),
{
    assert(s.take(a.len() as int)[p] == s[p]);
    assert(depth(s, p) == depth(a, p));
    if trailing_at(s, p) {
        assert forall|k: int| p < k implies !#[trigger] title_text(a, k) by {
            assert(!title_text(s, k));
        }
    }
}

/// A title is not cut at a parenthetical that it begins with: where something follows it that
/// holds no parenthesis and no dash between blanks, all of it is kept.
pub proof fn law_leading_parenthetical_kept(b: Seq<char>, t: Seq<char>)
    requires
        !b.contains('('),
        !b.contains(')'),
        !t.contains('('),
        !t.contains(')'),
        !has_text(t, " - "@),
        !blank(t),
    ensures
        simplified(seq!['('] + b + seq![')'] + t) == trimmed(seq!['('] + b + seq![')'] + t),
{
    reveal_strlit(" - ");
    let s = seq!['('] + b + seq![')'] + t;
    let n = b.len() + 2;
    assert(s[0] == '(' && s[n - 1] == ')');
    assert(depth(s, 0) == 0);
    assert(depth(s, 1) == 1);
    assert forall|i: int| 1 <= i < n - 1 implies #[trigger] s[i] != '(' && s[i] != ')' by {
        assert(s[i] == b[i - 1]);
    }
    assert forall|i: int| n <= i < s.len() implies #[trigger] s[i] != '(' && s[i] != ')' by {
        assert(s[i] == t[i - n]);
    }
    assert forall|k: int| 1 <= k < n implies #[trigger] depth(s, k) == 1 by {
        lemma_depth_flat(s, 1, k);
    }
    assert(depth(s, n - 1) == 1);
    assert(depth(s, n as int) == 0);
    assert forall|k: int| !#[trigger] descriptor_at(s, k) by {
        if descriptor_at(s, k) {
            let sub = s.subrange(k, k + 3);
            assert(s[k] == sub[0]);
            if 1 <= k < n {
                assert(depth(s, k) == 1);
            } else if k >= n {
                assert(t.subrange(k - n, k - n + 3) =~= sub);
                assert(occurs_at(t, " - "@, k - n));
            }
        }
    }
    let j = choose|j: int| 0 <= j < t.len() && !white_space(#[trigger] t[j]);
    lemma_depth_flat(s, n as int, n + j);
    assert(s[n + j] == t[j]);
    assert(title_text(s, n + j));
    assert forall|p: int| !#[trigger] trailing_at(s, p) by {
        if trailing_at(s, p) {
            assert(s[p] == '(');
        }
    }
    law_simple_title_kept(s);
}

/// A title that is not two to four copies of one part is only trimmed.
pub proof fn law_undouble_keeps_the_rest(s: Seq<char>)
    requires
        forall|part: Seq<char>, k: nat|
            2 <= k <= 4 && part.len() > 0 ==> trimmed(s) != #[trigger] copies(part, k),
    ensures
        collapsed(trimmed(s)) == trimmed(s),
{
    let t = trimmed(s);
    assert forall|k: nat| 2 <= k <= 4 implies !#[trigger] repeats(t, k) by {
        if repeats(t, k) {
            lemma_repeat_ends(t, k);
            let part = t.take((t.len() / k) as int);
            assert(t == copies(part, k));
        }
    }
}

/// A title without an opening parenthesis and without a dash between blanks is only trimmed.
pub proof fn law_plain_title_kept(s: Seq<char>)
    requires
        !s.contains('('),
        !has_text(s, " - "@),
    ensures
        simplified(s) == trimmed(s),
{
    assert forall|k: int| !#[trigger] descriptor_at(s, k) by {}
    assert forall|p: int| !#[trigger] trailing_at(s, p) by {}
    law_simple_title_kept(s);
}

/// What follows the first dash between blanks is cut off, whatever it is, where no parenthesis
/// opens before it.
pub proof fn law_descriptor_is_cut(a: Seq<char>, b: Seq<char>)
    requires
        !a.contains('('),
        first_at(a + " - "@ + b, " - "@, 0) == Some(a.len() as int),
    ensures
        simplified(a + " - "@ + b) == trimmed(a),
{
    reveal_strlit(" - ");
    let s = a + " - "@ + b;
    let n = a.len() as int;
    lemma_first_at(s, " - "@, 0);
    assert forall|i: int| 0 <= i < n implies #[trigger] s[i] != '(' by {
        assert(s[i] == a[i]);
    }
    lemma_depth_zero(s, n);
    assert(descriptor_at(s, n));
    lemma_descriptor_from(s, 0);
    assert(descriptor_from(s, 0) == n) by {
        let f = descriptor_from(s, 0);
        if f < n {
            assert(occurs_at(s, " - "@, f));
        }
    }
    assert(s.take(n) =~= a);
    lemma_trailing_from(a, 0);
    assert(trailing_from(a, 0) == n);
    assert(a.take(n) =~= a);
}

/// A parenthetical that is not closed is cut off too.
pub proof fn law_unclosed_parenthetical_is_cut(a: Seq<char>, b: Seq<char>)
    requires
        !a.contains('('),
        !has_text(a, " - "@),
        !b.contains(')'),
    ensures
        simplified(a + seq!['('] + b) == trimmed(a),
{
    reveal_strlit(" - ");
    let s = a + seq!['('] + b;
    let n = a.len() as int;
    assert forall|i: int| 0 <= i < n implies #[trigger] s[i] != '(' by {
        assert(s[i] == a[i]);
    }
    assert forall|k: int| 0 <= k <= n implies #[trigger] depth(s, k) == 0 by {
        lemma_depth_zero(s, k);
    }
    assert(s[n] == '(' && depth(s, n) == 0);
    assert forall|k: int| n < k <= s.len() implies #[trigger] depth(s, k) > 0 by {
        lemma_depth_stays(s, n + 1, k);
    }
    assert forall|k: int| 0 <= k < s.len() implies !#[trigger] descriptor_at(s, k) by {
        if descriptor_at(s, k) {
            let sub = s.subrange(k, k + 3);
            assert(s[k] == sub[0] && s[k + 1] == sub[1] && s[k + 2] == sub[2]);
            if k > n {
                assert(depth(s, k) > 0);
            }
            assert(k + 3 <= n);
            assert(a.subrange(k, k + 3) =~= sub);
            assert(occurs_at(a, " - "@, k));
        }
    }
    lemma_descriptor_from(s, 0);
    assert(without_descriptor(s) =~= s);
    assert forall|k: int| n < k implies !#[trigger] title_text(s, k) by {
        if k < s.len() {
            assert(depth(s, k) > 0);
        }
    }
    assert(trailing_at(s, n));
    lemma_trailing_from(s, 0);
    assert(trailing_from(s, 0) == n);
    assert(s.take(n) =~= a);
}

/// What is not closed stays open.
proof fn lemma_depth_stays(s: Seq<char>, from: int, k: int)
    requires
        0 < from <= k <= s.len(),
        depth(s, from) > 0,
        forall|i: int| from <= i < k ==> #[trigger] s[i] != ')',
    ensures
        depth(s, k) > 0,
    decreases k,
{
    if k > from {
        lemma_depth_stays(s, from, k - 1);
        assert(s[k - 1] != ')');
    }
}

/// A simplified title is a beginning of the title, trimmed: all of it, or up to an opening
/// parenthesis or a dash between blanks.
pub proof fn law_simplified_is_a_beginning(s: Seq<char>)
    ensures
        exists|n: int|
            0 <= n <= s.len() && simplified(s) == trimmed(#[trigger] s.take(n)) && (n == s.len() || s[n] == '('
                || occurs_at(s, " - "@, n)),
{
    let r = descriptor_from(s, 0);
    let d = s.take(r);
    let n = trailing_from(d, 0);
    lemma_descriptor_from(s, 0);
    lemma_trailing_from(d, 0);
    assert(d.take(n) =~= s.take(n));
    if n < r {
        assert(d[n] == s[n]);
    }
}

/// A title that begins with a parenthetical is cut at its descriptor as any other is, and the
/// parenthetical is kept, where something of the title stands between the two.
pub proof fn law_descriptor_is_cut_behind_a_parenthetical(b: Seq<char>, t: Seq<char>, c: Seq<char>)
    requires
        !b.contains('('),
        !b.contains(')'),
        !t.contains('('),
        !t.contains(')'),
        first_at(t + " - "@ + c, " - "@, 0) == Some(t.len() as int),
        !blank(t),
    ensures
        simplified(seq!['('] + b + seq![')'] + t + " - "@ + c) == trimmed(seq!['('] + b + seq![')'] + t),
{
    reveal_strlit(" - ");
    let lead = seq!['('] + b + seq![')'];
    let a = lead + t;
    let s = a + " - "@ + c;
    let n = a.len() as int;
    let u = t + " - "@ + c;
    let l = lead.len() as int;
    assert(s =~= lead + u);
    assert(s.take(n) =~= a);
    lemma_first_at(u, " - "@, 0);
    assert(s[0] == '(' && s[l - 1] == ')');
    assert(depth(s, 0) == 0);
    assert(depth(s, 1) == 1);
    assert forall|i: int| 1 <= i < l - 1 implies #[trigger] s[i] != '(' && s[i] != ')' by {
        assert(s[i] == b[i - 1]);
    }
    assert forall|i: int| l <= i < n implies #[trigger] s[i] != '(' && s[i] != ')' by {
        assert(s[i] == t[i - l]);
    }
    assert forall|k: int| 1 <= k < l implies #[trigger] depth(s, k) == 1 by {
        lemma_depth_flat(s, 1, k);
    }
    assert(depth(s, l - 1) == 1);
    assert(depth(s, l) == 0);
    lemma_depth_flat(s, l, n);
    assert(s.subrange(n, n + 3) =~= " - "@);
    assert(descriptor_at(s, n));
    assert forall|k: int| 0 <= k < n implies !#[trigger] descriptor_at(s, k) by {
        if descriptor_at(s, k) {
            let sub = s.subrange(k, k + 3);
            assert(s[k] == sub[0]);
            if 1 <= k < l {
                assert(depth(s, k) == 1);
            } else if k >= l {
                assert(u.subrange(k - l, k - l + 3) =~= sub);
                assert(occurs_at(u, " - "@, k - l));
            }
        }
    }
    lemma_descriptor_from(s, 0);
    assert(without_descriptor(s) =~= a);
    if has_text(t, " - "@) {
        let k = choose|k: int| occurs_at(t, " - "@, k);
        assert(u.subrange(k, k + 3) =~= t.subrange(k, k + 3));
        assert(occurs_at(u, " - "@, k));
    }
    law_leading_parenthetical_kept(b, t);
    lemma_descriptor_from(a, 0);
    assert(descriptor_from(a, 0) == n) by {
        let f = descriptor_from(a, 0);
        if f < n {
            lemma_descriptor_take(s, n, f);
        }
    }
    assert(a.take(n) =~= a);
}

/// A parenthetical is kept wherever something of the title follows it: a title of some text, a
/// parenthetical and more text, with no dash between blanks, is only trimmed.
pub proof fn law_parenthetical_within_kept(a: Seq<char>, b: Seq<char>, t: Seq<char>)
    requires
        !a.contains('('),
        !a.contains(')'),
        !b.contains('('),
        !b.contains(')'),
        !t.contains('('),
        !t.contains(')'),
        !has_text(a, " - "@),
        !has_text(t, " - "@),
        !blank(t),
    ensures
        simplified(a + seq!['('] + b + seq![')'] + t) == trimmed(a + seq!['('] + b + seq![')'] + t),
{
    reveal_strlit(" - ");
    let s = a + seq!['('] + b + seq![')'] + t;
    let m = a.len() as int;
    let n = m + b.len() + 2;
    assert(s[m] == '(' && s[n - 1] == ')');
    assert forall|i: int| 0 <= i < m implies #[trigger] s[i] != '(' && s[i] != ')' by {
        assert(s[i] == a[i]);
    }
    assert forall|i: int| m + 1 <= i < n - 1 implies #[trigger] s[i] != '(' && s[i] != ')' by {
        assert(s[i] == b[i - m - 1]);
    }
    assert forall|i: int| n <= i < s.len() implies #[trigger] s[i] != '(' && s[i] != ')' by {
        assert(s[i] == t[i - n]);
    }
    lemma_depth_flat(s, 0, m);
    assert(depth(s, m) == 0);
    assert(depth(s, m + 1) == 1);
    assert forall|k: int| m + 1 <= k < n implies #[trigger] depth(s, k) == 1 by {
        lemma_depth_flat(s, m + 1, k);
    }
    assert(depth(s, n - 1) == 1);
    assert(depth(s, n) == 0);
    assert forall|k: int| !#[trigger] descriptor_at(s, k) by {
        if descriptor_at(s, k) {
            let sub = s.subrange(k, k + 3);
            assert(s[k] == sub[0] && s[k + 1] == sub[1] && s[k + 2] == sub[2]);
            if k + 3 <= m {
                assert(a.subrange(k, k + 3) =~= sub);
                assert(occurs_at(a, " - "@, k));
            } else if m + 1 <= k < n {
                assert(depth(s, k) == 1);
            } else if k >= n {
                assert(t.subrange(k - n, k - n + 3) =~= sub);
                assert(occurs_at(t, " - "@, k - n));
            }
        }
    }
    let j = choose|j: int| 0 <= j < t.len() && !white_space(#[trigger] t[j]);
    lemma_depth_flat(s, n, n + j);
    assert(s[n + j] == t[j]);
    assert(title_text(s, n + j));
    assert forall|p: int| !#[trigger] trailing_at(s, p) by {
        if trailing_at(s, p) {
            assert(s[p] == '(');
            assert(p == m);
        }
    }
    law_simple_title_kept(s);
}

}
