//! Ordered sets of strings.
//!
//! The crawl keeps every set it owns as a vector in strictly increasing
//! lexicographic order: an element is then found by bisection, nothing occurs
//! twice, and the set is read out in its final order without sorting.

use vstd::prelude::*;
use crate::text::string_of;

verus! {

/// `a` comes before `b` in the order of strings: at the first position where
/// they differ `a` has the smaller code point, or `a` is a proper prefix of `b`.
pub open spec fn lex_less(a: Seq<char>, b: Seq<char>) -> bool
    decreases a.len(),
{
    if b.len() == 0 {
        false
    } else if a.len() == 0 {
        true
    } else if a[0] == b[0] {
        lex_less(a.drop_first(), b.drop_first())
    } else {
        (a[0] as int) < (b[0] as int)
    }
}

/// Each element comes before all that follow it.
pub open spec fn strictly_sorted(s: Seq<Seq<char>>) -> bool {
    forall|i: int, j: int| 0 <= i < j < s.len() ==> lex_less(#[trigger] s[i], #[trigger] s[j])
}

/// No string comes before itself.
pub proof fn lemma_lex_irreflexive(a: Seq<char>)
    ensures
        !lex_less(a, a),
    decreases a.len(),
{
    if a.len() > 0 {
        lemma_lex_irreflexive(a.drop_first());
    }
}

/// The order of strings is transitive.
pub proof fn lemma_lex_transitive(a: Seq<char>, b: Seq<char>, c: Seq<char>)
    requires
        lex_less(a, b),
        lex_less(b, c),
    ensures
        lex_less(a, c),
    decreases a.len(),
{
    if a.len() > 0 && a[0] == b[0] && b[0] == c[0] {
        lemma_lex_transitive(a.drop_first(), b.drop_first(), c.drop_first());
    }
}

/// Of two different strings one comes before the other.
pub proof fn lemma_lex_total(a: Seq<char>, b: Seq<char>)
    ensures
        a == b || lex_less(a, b) || lex_less(b, a),
    decreases a.len(),
{
    if a.len() > 0 && b.len() > 0 && a[0] == b[0] {
        lemma_lex_total(a.drop_first(), b.drop_first());
        if a.drop_first() == b.drop_first() {
            assert(a =~= seq![a[0]] + a.drop_first());
            assert(b =~= seq![b[0]] + b.drop_first());
        }
    } else if a.len() == 0 && b.len() == 0 {
        assert(a =~= b);
    }
}

/// Two strings that agree on their first `n` characters are ordered as what
/// follows those characters.
pub proof fn lemma_lex_common_prefix(a: Seq<char>, b: Seq<char>, n: int)
    requires
        0 <= n <= a.len(),
        n <= b.len(),
        forall|j: int| 0 <= j < n ==> a[j] == b[j],
    ensures
        lex_less(a, b) == lex_less(a.skip(n), b.skip(n)),
    decreases n,
{
    if n == 0 {
        assert(a.skip(0) =~= a);
        assert(b.skip(0) =~= b);
    } else {
        lemma_lex_common_prefix(a.drop_first(), b.drop_first(), n - 1);
        assert(a.drop_first().skip(n - 1) =~= a.skip(n));
        assert(b.drop_first().skip(n - 1) =~= b.skip(n));
    }
}

/// A sequence in strictly increasing order is determined by its elements.
pub proof fn lemma_sorted_unique(a: Seq<Seq<char>>, b: Seq<Seq<char>>)
    requires
        strictly_sorted(a),
        strictly_sorted(b),
        a.to_set() == b.to_set(),
    ensures
        a == b,
    decreases a.len(),
{
    if a.len() == 0 || b.len() == 0 {
        if b.len() > 0 {
            assert(b.to_set().contains(b[0]));
            assert(a.contains(b[0]));
        }
        if a.len() > 0 {
            assert(a.to_set().contains(a[0]));
            assert(b.contains(a[0]));
        }
        assert(a =~= b);
    } else {
        assert(a.to_set().contains(a[0]));
        assert(b.to_set().contains(b[0]));
        let j = choose|j: int| 0 <= j < b.len() && b[j] == a[0];
        let i = choose|i: int| 0 <= i < a.len() && a[i] == b[0];
        if a[0] != b[0] {
            assert(lex_less(a[0], a[i]));
            assert(lex_less(b[0], b[j]));
            lemma_lex_transitive(a[0], b[0], a[0]);
            lemma_lex_irreflexive(a[0]);
        }
        let rest_a = a.drop_first();
        let rest_b = b.drop_first();
        assert forall|x: Seq<char>| rest_a.to_set().contains(x) <==> rest_b.to_set().contains(
            x,
        ) by {
            lemma_lex_irreflexive(x);
            if rest_a.contains(x) {
                let k = choose|k: int| 0 <= k < rest_a.len() && rest_a[k] == x;
                assert(a[k + 1] == x);
                assert(lex_less(a[0], a[k + 1]));
                assert(a.to_set().contains(x));
                let m = choose|m: int| 0 <= m < b.len() && b[m] == x;
                assert(rest_b[m - 1] == x);
            }
            if rest_b.contains(x) {
                let k = choose|k: int| 0 <= k < rest_b.len() && rest_b[k] == x;
                assert(b[k + 1] == x);
                assert(lex_less(b[0], b[k + 1]));
                assert(b.to_set().contains(x));
                let m = choose|m: int| 0 <= m < a.len() && a[m] == x;
                assert(rest_a[m - 1] == x);
            }
        }
        assert(rest_a.to_set() =~= rest_b.to_set());
        assert forall|i: int, j: int| 0 <= i < j < rest_a.len() implies lex_less(
            #[trigger] rest_a[i],
            #[trigger] rest_a[j],
        ) by {
            assert(rest_a[i] == a[i + 1] && rest_a[j] == a[j + 1]);
        }
        assert forall|i: int, j: int| 0 <= i < j < rest_b.len() implies lex_less(
            #[trigger] rest_b[i],
            #[trigger] rest_b[j],
        ) by {
            assert(rest_b[i] == b[i + 1] && rest_b[j] == b[j + 1]);
        }
        lemma_sorted_unique(rest_a, rest_b);
        assert(a =~= seq![a[0]] + rest_a);
        assert(b =~= seq![b[0]] + rest_b);
    }
}

/// In a sequence in strictly increasing order nothing occurs twice.
pub proof fn lemma_sorted_no_duplicates(s: Seq<Seq<char>>)
    requires
        strictly_sorted(s),
    ensures
        s.no_duplicates(),
{
    assert forall|i: int, j: int| 0 <= i < s.len() && 0 <= j < s.len() && i != j implies s[i]
        != s[j] by {
        lemma_lex_irreflexive(s[i]);
        if i < j {
            assert(lex_less(s[i], s[j]));
        } else {
            assert(lex_less(s[j], s[i]));
        }
    }
}

/// The elements of a finite set of strings, in increasing order.
pub open spec fn listing(set: Set<Seq<char>>) -> Seq<Seq<char>> {
    choose|s: Seq<Seq<char>>| strictly_sorted(s) && s.to_set() == set
}

/// A sequence in strictly increasing order is the listing of its elements.
pub proof fn lemma_listing(s: Seq<Seq<char>>)
    requires
        strictly_sorted(s),
    ensures
        listing(s.to_set()) == s,
{
    let l = listing(s.to_set());
    assert(strictly_sorted(l) && l.to_set() == s.to_set());
    lemma_sorted_unique(l, s);
}

/// How one string stands to another in the order of strings.
#[derive(Clone, Copy, Debug, PartialEq, Eq, Structural)]
pub enum Comparison {
    Less,
    Equal,
    Greater,
}

/// `Equal` for the same string, `Less` where `a` comes first, else `Greater`.
pub open spec fn comparison(a: Seq<char>, b: Seq<char>) -> Comparison {
    if a == b {
        Comparison::Equal
    } else if lex_less(a, b) {
        Comparison::Less
    } else {
        Comparison::Greater
    }
}

/// Compares two strings by code points, as `str` is ordered.
pub fn compare(a: &[char], b: &[char]) -> (r: Comparison)
    ensures
        r == comparison(a@, b@),
        r == Comparison::Greater ==> lex_less(b@, a@),
{
    let mut i: usize = 0;
    while i < a.len() && i < b.len()
        invariant
            i <= a.len(),
            i <= b.len(),
            forall|j: int| 0 <= j < i ==> a@[j] == b@[j],
        decreases a.len() - i,
    {
        if a[i] != b[i] {
            proof {
                lemma_lex_common_prefix(a@, b@, i as int);
                lemma_lex_total(a@, b@);
            }
            if a[i] < b[i] {
                return Comparison::Less;
            } else {
                return Comparison::Greater;
            }
        }
        i += 1;
    }
    proof {
        lemma_lex_common_prefix(a@, b@, i as int);
        lemma_lex_total(a@, b@);
        if a.len() == b.len() {
            assert(a@ =~= b@);
        }
    }
    if a.len() == b.len() {
        Comparison::Equal
    } else if a.len() < b.len() {
        Comparison::Less
    } else {
        Comparison::Greater
    }
}

/// The character sequences of a sequence of strings.
pub open spec fn texts(strings: Seq<String>) -> Seq<Seq<char>> {
    strings.map_values(|s: String| s@)
}

/// A finite set of strings, held in increasing order.
pub struct TextSet {
    items: Vec<Vec<char>>,
}

impl View for TextSet {
    type V = Seq<Seq<char>>;

    /// The elements, in the order in which they are held.
    closed spec fn view(&self) -> Seq<Seq<char>> {
        self.items@.map_values(|item: Vec<char>| item@)
    }
}

impl TextSet {
    /// The elements stand in strictly increasing order, so none occurs twice.
    pub open spec fn wf(&self) -> bool {
        strictly_sorted(self@)
    }

    /// The elements as a mathematical set.
    pub open spec fn set(&self) -> Set<Seq<char>> {
        self@.to_set()
    }

    /// The empty set.
    pub fn new() -> (s: Self)
        ensures
            s@ == Seq::<Seq<char>>::empty(),
            s.wf(),
    {
        let s = TextSet { items: Vec::new() };
        s
    }

    /// The number of elements.
    pub fn len(&self) -> (n: usize)
        ensures
            n == self@.len(),
    {
        self.items.len()
    }

    /// Whether the set has no element.
    pub fn is_empty(&self) -> (r: bool)
        ensures
            r == (self@.len() == 0),
    {
        self.items.len() == 0
    }

    /// The element at position `i` of the increasing order.
    pub fn get(&self, i: usize) -> (item: &Vec<char>)
        requires
            i < self@.len(),
        ensures
            item@ == self@[i as int],
    {
        &self.items[i]
    }

    /// Where `x` stands in the order: the number of elements that come before
    /// it, and whether the element at that position is `x` itself.
    fn locate(&self, x: &[char]) -> (r: (usize, bool))
        requires
            self.wf(),
        ensures
            r.0 <= self@.len(),
            forall|i: int| 0 <= i < r.0 ==> lex_less(#[trigger] self@[i], x@),
            r.1 ==> r.0 < self@.len() && self@[r.0 as int] == x@,
            !r.1 ==> forall|i: int| r.0 <= i < self@.len() ==> lex_less(x@, #[trigger] self@[i]),
            r.1 == self@.contains(x@),
    {
        let mut lo: usize = 0;
        let mut hi: usize = self.items.len();
        while lo < hi
            invariant
                self.wf(),
                lo <= hi <= self@.len(),
                self@.len() == self.items@.len(),
                forall|i: int| 0 <= i < lo ==> lex_less(#[trigger] self@[i], x@),
                forall|i: int| hi <= i < self@.len() ==> lex_less(x@, #[trigger] self@[i]),
            decreases hi - lo,
        {
            let mid: usize = lo + (hi - lo) / 2;
            let probe = compare(self.items[mid].as_slice(), x);
            assert(self.items@[mid as int]@ == self@[mid as int]);
            match probe {
                Comparison::Equal => {
                    return (mid, true);
                },
                Comparison::Less => {
                    assert forall|i: int| 0 <= i < mid + 1 implies lex_less(
                        #[trigger] self@[i],
                        x@,
                    ) by {
                        if i < mid {
                            lemma_lex_transitive(self@[i], self@[mid as int], x@);
                        }
                    }
                    lo = mid + 1;
                },
                Comparison::Greater => {
                    assert forall|i: int| mid <= i < self@.len() implies lex_less(
                        x@,
                        #[trigger] self@[i],
                    ) by {
                        if mid < i {
                            lemma_lex_transitive(x@, self@[mid as int], self@[i]);
                        }
                    }
                    hi = mid;
                },
            }
        }
        proof {
            lemma_lex_irreflexive(x@);
            if self@.contains(x@) {
                let i = choose|i: int| 0 <= i < self@.len() && self@[i] == x@;
                assert(lex_less(self@[i], x@) || lex_less(x@, self@[i]));
            }
        }
        (lo, false)
    }

    /// Whether `x` is an element.
    pub fn contains(&self, x: &[char]) -> (r: bool)
        requires
            self.wf(),
        ensures
            r == self.set().contains(x@),
    {
        let (_, found) = self.locate(x);
        found
    }

    /// Adds `x`, and says whether it was new. A set that already holds `x`
    /// is left as it was.
    pub fn insert(&mut self, x: Vec<char>) -> (added: bool)
        requires
            old(self).wf(),
        ensures
            final(self).wf(),
            added == !old(self).set().contains(x@),
            final(self).set() == old(self).set().insert(x@),
            !added ==> final(self)@ == old(self)@,
            added ==> final(self)@.len() == old(self)@.len() + 1,
    {
        let (at, found) = self.locate(x.as_slice());
        if found {
            return false;
        }
        let ghost before = self@;
        let ghost key = x@;
        self.items.insert(at, x);
        proof {
            assert forall|i: int, j: int| 0 <= i < j < self@.len() implies lex_less(
                #[trigger] self@[i],
                #[trigger] self@[j],
            ) by {
                if j < at {
                    assert(self@[i] == before[i] && self@[j] == before[j]);
                } else if j == at {
                    assert(self@[i] == before[i]);
                } else if i < at {
                    assert(self@[i] == before[i] && self@[j] == before[j - 1]);
                } else if i == at {
                    assert(self@[j] == before[j - 1]);
                } else {
                    assert(self@[i] == before[i - 1] && self@[j] == before[j - 1]);
                }
            }
            assert forall|y: Seq<char>| self@.contains(y) <==> (before.contains(y) || y == key) by {
                if self@.contains(y) {
                    let i = choose|i: int| 0 <= i < self@.len() && self@[i] == y;
                    if i < at {
                        assert(before[i] == y);
                    } else if i > at {
                        assert(before[i - 1] == y);
                    }
                }
                if before.contains(y) {
                    let i = choose|i: int| 0 <= i < before.len() && before[i] == y;
                    if i < at {
                        assert(self@[i] == y);
                    } else {
                        assert(self@[i + 1] == y);
                    }
                }
                if y == key {
                    assert(self@[at as int] == y);
                }
            }
        }
        true
    }

    /// The elements as strings, in increasing order.
    pub fn to_strings(&self) -> (out: Vec<String>)
        ensures
            texts(out@) == self@,
            self.wf() ==> texts(out@) == listing(self.set()),
    {
        proof {
            if self.wf() {
                lemma_listing(self@);
            }
        }
        let mut out: Vec<String> = Vec::new();
        let mut i: usize = 0;
        while i < self.items.len()
            invariant
                i <= self.items@.len(),
                self@.len() == self.items@.len(),
                texts(out@) == self@.take(i as int),
            decreases self.items@.len() - i,
        {
            let s = string_of(self.items[i].as_slice());
            let ghost before = out@;
            out.push(s);
            proof {
                assert(texts(out@) =~= texts(before).push(s@));
            }
            i += 1;
        }
        out
    }
}

} // verus!
