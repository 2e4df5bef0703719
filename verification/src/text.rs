//! Texts as sequences of characters: comparison, suffixes, trimming, words.

use vstd::prelude::*;
use vstd::string::*;

verus! {

/// Whether `c` has the Unicode property White_Space.
pub open spec fn is_space(c: char) -> bool {
    let n = c as u32;
    ||| 0x09 <= n <= 0x0d
    ||| n == 0x20
    ||| n == 0x85
    ||| n == 0xa0
    ||| n == 0x1680
    ||| 0x2000 <= n <= 0x200a
    ||| n == 0x2028
    ||| n == 0x2029
    ||| n == 0x202f
    ||| n == 0x205f
    ||| n == 0x3000
}

/// The first position from `i` on that holds no white space, or the length.
pub open spec fn skip_space(s: Seq<char>, i: int) -> int
    decreases s.len() - i,
{
    if 0 <= i < s.len() && is_space(s[i]) {
        skip_space(s, i + 1)
    } else {
        i
    }
}

/// The least position `j >= lo` such that `s[j..hi]` is white space only.
pub open spec fn back_space(s: Seq<char>, lo: int, hi: int) -> int
    decreases hi - lo,
{
    if lo < hi <= s.len() && is_space(s[hi - 1]) {
        back_space(s, lo, hi - 1)
    } else {
        hi
    }
}

/// `s` without the white space at its two ends.
pub open spec fn trimmed(s: Seq<char>) -> Seq<char> {
    let a = skip_space(s, 0);
    let b = back_space(s, a, s.len() as int);
    s.subrange(a, b)
}

/// The first position from `i` on that holds white space, or the length.
pub open spec fn word_end(s: Seq<char>, i: int) -> int
    decreases s.len() - i,
{
    if 0 <= i < s.len() && !is_space(s[i]) {
        word_end(s, i + 1)
    } else {
        i
    }
}

/// The maximal runs without white space in `s[i..]`, in order.
pub open spec fn words_from(s: Seq<char>, i: int) -> Seq<Seq<char>>
    decreases s.len() - i,
{
    let a = skip_space(s, i);
    let b = word_end(s, a);
    if 0 <= i <= a < b <= s.len() {
        seq![s.subrange(a, b)] + words_from(s, b)
    } else {
        Seq::empty()
    }
}

/// The words of `s`: its maximal runs without white space.
pub open spec fn words(s: Seq<char>) -> Seq<Seq<char>> {
    words_from(s, 0)
}

/// The texts of `ws` in order, one space between neighbours.
pub open spec fn joined(ws: Seq<Seq<char>>) -> Seq<char>
    decreases ws.len(),
{
    if ws.len() == 0 {
        Seq::empty()
    } else if ws.len() == 1 {
        ws[0]
    } else {
        joined(ws.drop_last()) + seq![' '] + ws.last()
    }
}

/// Whether `host` ends with a dot followed by `domain`.
pub open spec fn ends_with_dot(host: Seq<char>, domain: Seq<char>) -> bool {
    &&& host.len() >= domain.len() + 1
    &&& host.subrange(host.len() - domain.len() - 1, host.len() as int) == seq!['.'] + domain
}

/// The texts of `a` that differ from `t`, in order.
pub open spec fn without_text(a: Seq<Seq<char>>, t: Seq<char>) -> Seq<Seq<char>>
    decreases a.len(),
{
    if a.len() == 0 {
        Seq::empty()
    } else if a.last() == t {
        without_text(a.drop_last(), t)
    } else {
        without_text(a.drop_last(), t).push(a.last())
    }
}

/// How many bytes the text takes in UTF-8.
pub open spec fn byte_length(t: Seq<char>) -> nat {
    vstd::utf8::encode_utf8(t).len()
}

/// Among the first `n` texts of `a`, the position of the first that no other
/// undercuts in byte length.
pub open spec fn shortest_upto(a: Seq<Seq<char>>, n: int) -> int
    decreases n,
{
    if n <= 1 {
        0
    } else {
        let k = shortest_upto(a, n - 1);
        if byte_length(a[n - 1]) < byte_length(a[k]) {
            n - 1
        } else {
            k
        }
    }
}

/// The position of the first shortest text of `a`, by byte length.
pub open spec fn shortest(a: Seq<Seq<char>>) -> int {
    shortest_upto(a, a.len() as int)
}

/// `shortest_upto` names a position among the first `n`, none of which is
/// shorter, and none before it as short.
pub proof fn lemma_shortest_upto(a: Seq<Seq<char>>, n: int)
    requires
        1 <= n <= a.len(),
    ensures
        0 <= shortest_upto(a, n) < n,
        forall|j: int| 0 <= j < n ==> byte_length(a[shortest_upto(a, n)]) <= byte_length(#[trigger] a[j]),
        forall|j: int| 0 <= j < shortest_upto(a, n) ==> byte_length(a[shortest_upto(a, n)]) < byte_length(#[trigger] a[j]),
    decreases n,
{
    if n > 1 {
        lemma_shortest_upto(a, n - 1);
    }
}

/// What each string of `v` holds.
pub open spec fn texts(v: Seq<String>) -> Seq<Seq<char>> {
    Seq::new(v.len(), |i: int| v[i]@)
}

/// The scan over white space stops within the text, has passed white space
/// only, and stands on none.
pub proof fn lemma_skip_space(s: Seq<char>, i: int)
    requires
        0 <= i <= s.len(),
    ensures
        i <= skip_space(s, i) <= s.len(),
        forall|k: int| i <= k < skip_space(s, i) ==> is_space(#[trigger] s[k]),
        skip_space(s, i) < s.len() ==> !is_space(s[skip_space(s, i)]),
    decreases s.len() - i,
{
    if i < s.len() && is_space(s[i]) {
        lemma_skip_space(s, i + 1);
    }
}

/// The scan backwards over white space stops at or behind `lo`, has passed
/// white space only, and stands behind none.
pub proof fn lemma_back_space(s: Seq<char>, lo: int, hi: int)
    requires
        0 <= lo <= hi <= s.len(),
    ensures
        lo <= back_space(s, lo, hi) <= hi,
        forall|k: int| back_space(s, lo, hi) <= k < hi ==> is_space(#[trigger] s[k]),
        lo < back_space(s, lo, hi) ==> !is_space(s[back_space(s, lo, hi) - 1]),
    decreases hi - lo,
{
    if lo < hi && is_space(s[hi - 1]) {
        lemma_back_space(s, lo, hi - 1);
    }
}

/// The scan over a word stops within the text, has passed no white space,
/// and stands on white space or at the end.
pub proof fn lemma_word_end(s: Seq<char>, i: int)
    requires
        0 <= i <= s.len(),
    ensures
        i <= word_end(s, i) <= s.len(),
        forall|k: int| i <= k < word_end(s, i) ==> !is_space(#[trigger] s[k]),
        word_end(s, i) < s.len() ==> is_space(s[word_end(s, i)]),
    decreases s.len() - i,
{
    if i < s.len() && !is_space(s[i]) {
        lemma_word_end(s, i + 1);
    }
}

/// What trimming leaves is the one piece of the text with white space only
/// before and behind it that neither begins nor ends with white space.
pub proof fn law_trimmed_is_the_core(s: Seq<char>)
    ensures
        ({
            let a = skip_space(s, 0);
            let b = back_space(s, a, s.len() as int);
            &&& 0 <= a <= b <= s.len()
            &&& trimmed(s) == s.subrange(a, b)
            &&& forall|k: int| 0 <= k < a ==> is_space(#[trigger] s[k])
            &&& forall|k: int| b <= k < s.len() ==> is_space(#[trigger] s[k])
            &&& a < b ==> !is_space(s[a]) && !is_space(s[b - 1])
        }),
{
    lemma_skip_space(s, 0);
    lemma_back_space(s, skip_space(s, 0), s.len() as int);
}

/// A text without white space at its ends is its own trimming.
pub proof fn law_trimmed_keeps_a_core(s: Seq<char>)
    requires
        s.len() > 0 ==> !is_space(s[0]) && !is_space(s[s.len() - 1]),
    ensures
        trimmed(s) == s,
{
    assert(s.subrange(0, s.len() as int) =~= s);
}

/// Every word is a piece of the text that is not empty and holds no white
/// space.
pub proof fn law_words_hold_no_space(s: Seq<char>, i: int)
    requires
        0 <= i <= s.len(),
    ensures
        forall|k: int|
            0 <= k < words_from(s, i).len() ==> (#[trigger] words_from(s, i)[k]).len() > 0 && (
            forall|j: int|
                0 <= j < words_from(s, i)[k].len() ==> !is_space(#[trigger] words_from(s, i)[k][j])),
    decreases s.len() - i,
{
    lemma_skip_space(s, i);
    let a = skip_space(s, i);
    lemma_word_end(s, a);
    let b = word_end(s, a);
    if a < b {
        law_words_hold_no_space(s, b);
        let rest = words_from(s, b);
        let first = s.subrange(a, b);
        assert forall|k: int| 0 <= k < words_from(s, i).len() implies (#[trigger] words_from(
            s,
            i,
        )[k]).len() > 0 && (forall|j: int|
            0 <= j < words_from(s, i)[k].len() ==> !is_space(#[trigger] words_from(s, i)[k][j])) by {
            if k == 0 {
                assert(words_from(s, i)[0] == first);
                assert forall|j: int| 0 <= j < first.len() implies !is_space(
                    #[trigger] first[j],
                ) by {
                    assert(first[j] == s[a + j]);
                }
            } else {
                assert(words_from(s, i)[k] == rest[k - 1]);
            }
        }
    }
}

/// Whether `c` is white space.
pub fn whitespace(c: char) -> (r: bool)
    ensures
        r == is_space(c),
{
    let n: u32 = c as u32;
    (0x09 <= n && n <= 0x0d) || n == 0x20 || n == 0x85 || n == 0xa0 || n == 0x1680 || (0x2000 <= n
        && n <= 0x200a) || n == 0x2028 || n == 0x2029 || n == 0x202f || n == 0x205f || n == 0x3000
}

/// Whether the two texts hold the same characters.
pub fn same_text(a: &str, b: &str) -> (r: bool)
    ensures
        r == (a@ == b@),
{
    let n: usize = a.unicode_len();
    if n != b.unicode_len() {
        return false;
    }
    let mut i: usize = 0;
    while i < n
        invariant
            n == a@.len(),
            n == b@.len(),
            i <= n,
            forall|k: int| 0 <= k < i ==> a@[k] == b@[k],
        decreases n - i,
    {
        if a.get_char(i) != b.get_char(i) {
            return false;
        }
        i = i + 1;
    }
    assert(a@ =~= b@);
    true
}

/// Whether `host` ends with a dot followed by `domain`.
pub fn has_dot_suffix(host: &str, domain: &str) -> (r: bool)
    ensures
        r == ends_with_dot(host@, domain@),
{
    let n: usize = host.unicode_len();
    let m: usize = domain.unicode_len();
    if n <= m {
        return false;
    }
    let start: usize = n - m - 1;
    let ghost tail = host@.subrange(start as int, n as int);
    let ghost want = seq!['.'] + domain@;
    if host.get_char(start) != '.' {
        assert(tail[0] != want[0]);
        return false;
    }
    let mut i: usize = 0;
    while i < m
        invariant
            n == host@.len(),
            m == domain@.len(),
            start == n - m - 1,
            i <= m,
            tail == host@.subrange(start as int, n as int),
            want == seq!['.'] + domain@,
            forall|k: int| 0 <= k < i ==> host@[start + 1 + k] == domain@[k],
        decreases m - i,
    {
        if host.get_char(start + 1 + i) != domain.get_char(i) {
            assert(tail[1 + i] != want[1 + i]);
            return false;
        }
        i = i + 1;
    }
    assert(tail =~= want);
    true
}

/// `s` without the white space at its two ends.
pub fn trim(s: &str) -> (r: String)
    ensures
        r@ == trimmed(s@),
{
    let n: usize = s.unicode_len();
    let mut a: usize = 0;
    while a < n && whitespace(s.get_char(a))
        invariant
            n == s@.len(),
            a <= n,
            skip_space(s@, a as int) == skip_space(s@, 0),
        decreases n - a,
    {
        a = a + 1;
    }
    let mut b: usize = n;
    while b > a && whitespace(s.get_char(b - 1))
        invariant
            n == s@.len(),
            a <= b <= n,
            back_space(s@, a as int, b as int) == back_space(s@, a as int, n as int),
        decreases b,
    {
        b = b - 1;
    }
    String::from_str(s.substring_char(a, b))
}

/// The words of `s`, in order.
pub fn split_words(s: &str) -> (r: Vec<String>)
    ensures
        texts(r@) == words(s@),
{
    let n: usize = s.unicode_len();
    let mut out: Vec<String> = Vec::new();
    let mut i: usize = 0;
    assert(texts(out@) =~= Seq::<Seq<char>>::empty());
    loop
        invariant
            n == s@.len(),
            i <= n,
            texts(out@) + words_from(s@, i as int) == words(s@),
        decreases n - i,
    {
        let mut a: usize = i;
        while a < n && whitespace(s.get_char(a))
            invariant
                n == s@.len(),
                i <= a <= n,
                skip_space(s@, a as int) == skip_space(s@, i as int),
            decreases n - a,
        {
            a = a + 1;
        }
        if a >= n {
            assert(words_from(s@, i as int) =~= Seq::<Seq<char>>::empty());
            assert(texts(out@) + Seq::<Seq<char>>::empty() =~= texts(out@));
            return out;
        }
        let mut b: usize = a;
        while b < n && !whitespace(s.get_char(b))
            invariant
                n == s@.len(),
                a <= b <= n,
                word_end(s@, b as int) == word_end(s@, a as int),
            decreases n - b,
        {
            b = b + 1;
        }
        let word = String::from_str(s.substring_char(a, b));
        let ghost before = texts(out@);
        out.push(word);
        proof {
            assert(b > a);
            assert(texts(out@) =~= before + seq![s@.subrange(a as int, b as int)]);
            assert(words_from(s@, i as int) == seq![s@.subrange(a as int, b as int)] + words_from(
                s@,
                b as int,
            ));
            assert(texts(out@) + words_from(s@, b as int) =~= before + words_from(s@, i as int));
        }
        i = b;
    }
}

/// The texts of `ws` in order, one space between neighbours.
pub fn join_words(ws: &Vec<String>) -> (r: String)
    ensures
        r@ == joined(texts(ws@)),
{
    let mut out = String::new();
    let mut i: usize = 0;
    while i < ws.len()
        invariant
            i <= ws.len(),
            out@ == joined(texts(ws@).take(i as int)),
        decreases ws.len() - i,
    {
        let ghost prev = texts(ws@).take(i as int);
        let ghost next = texts(ws@).take(i + 1);
        proof {
            assert(next.drop_last() =~= prev);
            assert(next.last() == ws@[i as int]@);
        }
        if i > 0 {
            out.append(" ");
            proof {
                reveal_strlit(" ");
                assert(" "@ =~= seq![' ']);
            }
        }
        out.append(ws[i].as_str());
        proof {
            if i == 0 {
                assert(out@ =~= next[0]);
            }
        }
        i = i + 1;
    }
    assert(texts(ws@).take(ws.len() as int) =~= texts(ws@));
    out
}

/// Whether one of the strings of `v` holds the text `t`.
pub fn contains_text(v: &Vec<String>, t: &str) -> (r: bool)
    ensures
        r == texts(v@).contains(t@),
{
    let mut i: usize = 0;
    while i < v.len()
        invariant
            i <= v.len(),
            forall|k: int| 0 <= k < i ==> texts(v@)[k] != t@,
        decreases v.len() - i,
    {
        if same_text(v[i].as_str(), t) {
            assert(texts(v@)[i as int] == t@);
            return true;
        }
        i = i + 1;
    }
    false
}

/// The strings of `v` that differ from `t`, in order.
pub fn remove_text(v: &Vec<String>, t: &str) -> (r: Vec<String>)
    ensures
        texts(r@) == without_text(texts(v@), t@),
{
    let mut out: Vec<String> = Vec::new();
    let mut i: usize = 0;
    assert(texts(out@) =~= without_text(texts(v@).take(0), t@));
    while i < v.len()
        invariant
            i <= v.len(),
            texts(out@) == without_text(texts(v@).take(i as int), t@),
        decreases v.len() - i,
    {
        let ghost before = texts(out@);
        let ghost next = texts(v@).take(i + 1);
        proof {
            assert(next.drop_last() =~= texts(v@).take(i as int));
            assert(next.last() == v@[i as int]@);
        }
        if !same_text(v[i].as_str(), t) {
            out.push(v[i].clone());
            assert(texts(out@) =~= before.push(v@[i as int]@));
        }
        i = i + 1;
    }
    assert(texts(v@).take(v.len() as int) =~= texts(v@));
    out
}

/// A copy of the strings of `v`.
pub fn copy_texts(v: &Vec<String>) -> (r: Vec<String>)
    ensures
        texts(r@) == texts(v@),
{
    let mut out: Vec<String> = Vec::new();
    let mut i: usize = 0;
    assert(texts(out@) =~= texts(v@).take(0));
    while i < v.len()
        invariant
            i <= v.len(),
            texts(out@) == texts(v@).take(i as int),
        decreases v.len() - i,
    {
        let ghost before = texts(out@);
        out.push(v[i].clone());
        assert(texts(out@) =~= before.push(v@[i as int]@));
        assert(texts(v@).take(i + 1) =~= before.push(v@[i as int]@));
        i = i + 1;
    }
    assert(texts(v@).take(v.len() as int) =~= texts(v@));
    out
}

/// Whether the strings of `a` and of `b` hold the same texts in the same
/// order.
pub fn same_texts(a: &Vec<String>, b: &Vec<String>) -> (r: bool)
    ensures
        r == (texts(a@) == texts(b@)),
{
    if a.len() != b.len() {
        assert(texts(a@).len() != texts(b@).len());
        return false;
    }
    let mut i: usize = 0;
    while i < a.len()
        invariant
            a.len() == b.len(),
            i <= a.len(),
            forall|k: int| 0 <= k < i ==> a@[k]@ == b@[k]@,
        decreases a.len() - i,
    {
        if !same_text(a[i].as_str(), b[i].as_str()) {
            assert(texts(a@)[i as int] != texts(b@)[i as int]);
            return false;
        }
        i = i + 1;
    }
    assert(texts(a@) =~= texts(b@));
    true
}

/// The position of the first shortest string of `v`, by byte length.
pub fn shortest_position(v: &Vec<String>) -> (r: usize)
    requires
        v.len() > 0,
    ensures
        r == shortest(texts(v@)),
        r < v.len(),
{
    let mut best: usize = 0;
    let mut i: usize = 1;
    while i < v.len()
        invariant
            1 <= i <= v.len(),
            best < i,
            best == shortest_upto(texts(v@), i as int),
        decreases v.len() - i,
    {
        assert(texts(v@)[i as int] == v@[i as int]@);
        assert(texts(v@)[best as int] == v@[best as int]@);
        if v[i].as_str().as_bytes().len() < v[best].as_str().as_bytes().len() {
            best = i;
        }
        i = i + 1;
    }
    best
}

} // verus!
