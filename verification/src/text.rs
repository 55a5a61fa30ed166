//! Text as sequences of characters: ordering, case folding, substring search.

use vstd::prelude::*;

verus! {

/// How the first of two values stands to the second in an ordering.
#[derive(Clone, Copy, Debug, PartialEq, Eq, Structural)]
pub enum Rank {
    Before,
    Same,
    After,
}

/// The characters of a text, one by one.
pub fn chars_of(s: &str) -> (v: Vec<char>)
    ensures
        v@ == s@,
{
    let mut v: Vec<char> = Vec::new();
    for c in it: s.chars()
        invariant
            it.seq() == s@,
            v@ == s@.take(it.index() as int),
    {
        v.push(c);
    }
    v
}

/// `a` and `b` agree on their first `k` characters.
pub open spec fn same_prefix(a: Seq<char>, b: Seq<char>, k: int) -> bool {
    &&& 0 <= k <= a.len()
    &&& k <= b.len()
    &&& forall|i: int| 0 <= i < k ==> a[i] == b[i]
}

/// `a` sorts before `b` and position `k` decides it: either `a` ends there and
/// `b` goes on, or both go on and `a` has the smaller character.
pub open spec fn decides_at(a: Seq<char>, b: Seq<char>, k: int) -> bool {
    &&& same_prefix(a, b, k)
    &&& k < b.len()
    &&& k < a.len() ==> (a[k] as int) < (b[k] as int)
}

/// Lexicographic order by code point. A proper prefix sorts before the longer
/// text.
pub open spec fn text_lt(a: Seq<char>, b: Seq<char>) -> bool {
    exists|k: int| decides_at(a, b, k)
}

/// The code point of a character.
pub fn code_point(c: char) -> (n: u32)
    ensures
        n as int == c as int,
{
    c as u32
}

/// Compares two texts by code point.
pub fn text_rank(a: &str, b: &str) -> (r: Rank)
    ensures
        r == Rank::Before <==> text_lt(a@, b@),
        r == Rank::Same <==> a@ == b@,
        r == Rank::After <==> text_lt(b@, a@),
{
    let left: Vec<char> = chars_of(a);
    let right: Vec<char> = chars_of(b);
    let la: usize = left.len();
    let lb: usize = right.len();
    let mut i: usize = 0;
    while i < la && i < lb
        invariant
            left@ == a@,
            right@ == b@,
            la == a@.len(),
            lb == b@.len(),
            same_prefix(a@, b@, i as int),
        decreases la - i,
    {
        let ca: char = left[i];
        let cb: char = right[i];
        if ca != cb {
            proof {
                lemma_decided(a@, b@, i as int);
            }
            if code_point(ca) < code_point(cb) {
                return Rank::Before;
            } else {
                return Rank::After;
            }
        }
        i = i + 1;
    }
    proof {
        lemma_decided(a@, b@, i as int);
    }
    if la < lb {
        Rank::Before
    } else if lb < la {
        Rank::After
    } else {
        assert(a@ =~= b@);
        Rank::Same
    }
}

/// Once two texts agree up to `k` and part ways there (by a different
/// character or by one of them ending), position `k` alone settles their order.
pub proof fn lemma_decided(a: Seq<char>, b: Seq<char>, k: int)
    requires
        same_prefix(a, b, k),
        k == a.len() || k == b.len() || a[k] != b[k],
    ensures
        text_lt(a, b) <==> decides_at(a, b, k),
        text_lt(b, a) <==> decides_at(b, a, k),
        a == b <==> (k == a.len() && k == b.len()),
{
    assert(same_prefix(b, a, k));
    if text_lt(a, b) {
        let j = choose|j: int| decides_at(a, b, j);
        assert(j == k) by {
            if j < k {
                assert(a[j] == b[j]);
            } else if j > k {
                assert(a[k] == b[k]);
            }
        }
    }
    if text_lt(b, a) {
        let j = choose|j: int| decides_at(b, a, j);
        assert(j == k) by {
            if j < k {
                assert(b[j] == a[j]);
            } else if j > k {
                assert(b[k] == a[k]);
            }
        }
    }
    if k == a.len() && k == b.len() {
        assert(a =~= b);
    }
}

/// No two texts sort before each other.
pub proof fn lemma_text_lt_asymmetric(a: Seq<char>, b: Seq<char>)
    ensures
        !(text_lt(a, b) && text_lt(b, a)),
{
    if text_lt(a, b) && text_lt(b, a) {
        let j = choose|j: int| decides_at(a, b, j);
        lemma_decided(a, b, j);
    }
}

/// The order is transitive.
pub proof fn lemma_text_lt_transitive(a: Seq<char>, b: Seq<char>, c: Seq<char>)
    requires
        text_lt(a, b),
        text_lt(b, c),
    ensures
        text_lt(a, c),
{
    let j = choose|j: int| decides_at(a, b, j);
    let k = choose|k: int| decides_at(b, c, k);
    let m = if j <= k { j } else { k };
    assert(same_prefix(a, c, m)) by {
        assert forall|i: int| 0 <= i < m implies a[i] == c[i] by {
            assert(a[i] == b[i]);
            assert(b[i] == c[i]);
        }
    }
    if j < k {
        assert(b[j] == c[j]);
    } else if k < j {
        assert(a[k] == b[k]);
    }
    assert(decides_at(a, c, m));
}

/// The lower-case form of an ASCII capital; any other character is left as it
/// is.
pub open spec fn fold_char(c: char) -> char {
    if 'A' <= c && c <= 'Z' {
        ((c as u8) + 32) as char
    } else {
        c
    }
}

/// Computes [`fold_char`].
pub fn fold(c: char) -> (r: char)
    ensures
        r == fold_char(c),
{
    if 'A' <= c && c <= 'Z' {
        let b: u8 = c as u8;
        (b + 32) as char
    } else {
        c
    }
}

/// `needle` stands in `hay` at offset `at`, letter case of ASCII letters aside.
pub open spec fn occurs_at(hay: Seq<char>, needle: Seq<char>, at: int) -> bool {
    &&& 0 <= at
    &&& at + needle.len() <= hay.len()
    &&& forall|k: int| 0 <= k < needle.len() ==> fold_char(#[trigger] hay[at + k]) == fold_char(needle[k])
}

/// `needle` stands somewhere in `hay`, letter case of ASCII letters aside. The
/// empty text stands in every text.
pub open spec fn contains_folded(hay: Seq<char>, needle: Seq<char>) -> bool {
    exists|at: int| occurs_at(hay, needle, at)
}

/// Decides [`contains_folded`].
pub fn contains_ignore_case(hay: &str, needle: &str) -> (found: bool)
    ensures
        found == contains_folded(hay@, needle@),
{
    let stack: Vec<char> = chars_of(hay);
    let word: Vec<char> = chars_of(needle);
    let lh: usize = stack.len();
    let ln: usize = word.len();
    if ln > lh {
        assert(forall|at: int| !occurs_at(hay@, needle@, at));
        return false;
    }
    let last: usize = lh - ln;
    let mut at: usize = 0;
    while at <= last
        invariant
            stack@ == hay@,
            word@ == needle@,
            lh == hay@.len(),
            ln == needle@.len(),
            last == lh - ln,
            at <= last + 1,
            forall|p: int| 0 <= p < at ==> !occurs_at(hay@, needle@, p),
        decreases last + 1 - at,
    {
        let mut k: usize = 0;
        let mut same: bool = true;
        while k < ln && same
            invariant
                stack@ == hay@,
                word@ == needle@,
                lh == hay@.len(),
                ln == needle@.len(),
                at + ln <= lh,
                k <= ln,
                same ==> forall|q: int| 0 <= q < k ==> fold_char(#[trigger] hay@[at + q]) == fold_char(needle@[q]),
                !same ==> !occurs_at(hay@, needle@, at as int),
            decreases ln - k, if same { 1int } else { 0int },
        {
            let ch: char = stack[at + k];
            let cn: char = word[k];
            if fold(ch) != fold(cn) {
                same = false;
                assert(fold_char(hay@[at + k]) != fold_char(needle@[k as int]));
            } else {
                k = k + 1;
            }
        }
        if same {
            assert(occurs_at(hay@, needle@, at as int));
            return true;
        }
        at = at + 1;
    }
    assert(forall|p: int| !occurs_at(hay@, needle@, p));
    false
}

} // verus!
