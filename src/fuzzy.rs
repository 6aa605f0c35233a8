use vstd::prelude::*;

verus! {

broadcast use vstd::string::group_string_axioms;

/// How many characters of `p`, in order, a left-to-right scan of `s` finds,
/// taking each one at its first occurrence after the previous.
pub open spec fn greedy_matches(s: Seq<char>, p: Seq<char>) -> nat
    decreases s.len(),
{
    if s.len() == 0 || p.len() == 0 {
        0
    } else if s[0] == p[0] {
        1 + greedy_matches(s.drop_first(), p.drop_first())
    } else {
        greedy_matches(s.drop_first(), p)
    }
}

/// Subsequence matching of a pattern against a text.
pub trait Fuzzier {
    spec fn text(&self) -> Seq<char>;

    /// Whether every character of the pattern occurs in the text, in order.
    /// An empty text contains nothing, not even the empty pattern.
    fn fuzzy_contains(&self, pattern: &str) -> (r: bool)
        ensures
            r == (self.text().len() > 0 && greedy_matches(self.text(), pattern@) == pattern@.len());

    /// How many characters of the pattern occur in the text, in order.
    fn fuzzy_score(&self, pattern: &str) -> (r: usize)
        ensures
            r == greedy_matches(self.text(), pattern@);
}

proof fn lemma_greedy_step(s: Seq<char>, p: Seq<char>, i: int, k: int)
    requires
        0 <= i < s.len(),
        0 <= k <= p.len(),
    ensures
        greedy_matches(s.subrange(i, s.len() as int), p.subrange(k, p.len() as int)) == (if k < p.len()
            && s[i] == p[k] {
            1 + greedy_matches(s.subrange(i + 1, s.len() as int), p.subrange(k + 1, p.len() as int))
        } else if k < p.len() {
            greedy_matches(s.subrange(i + 1, s.len() as int), p.subrange(k, p.len() as int))
        } else {
            0
        }),
{
    let t = s.subrange(i, s.len() as int);
    let q = p.subrange(k, p.len() as int);
    assert(t.drop_first() =~= s.subrange(i + 1, s.len() as int));
    if k < p.len() {
        assert(q.drop_first() =~= p.subrange(k + 1, p.len() as int));
        assert(t[0] == s[i]);
        assert(q[0] == p[k]);
    }
}

proof fn lemma_greedy_bound(s: Seq<char>, p: Seq<char>)
    ensures
        greedy_matches(s, p) <= p.len(),
        greedy_matches(s, p) <= s.len(),
    decreases s.len(),
{
    if s.len() > 0 && p.len() > 0 {
        lemma_greedy_bound(s.drop_first(), p.drop_first());
        lemma_greedy_bound(s.drop_first(), p);
    }
}

impl Fuzzier for String {
    open spec fn text(&self) -> Seq<char> {
        self@
    }

    fn fuzzy_contains(&self, pattern: &str) -> (r: bool) {
        let plen = pattern.unicode_len();
        let mut k: usize = 0;
        let text = self.as_str();
        proof {
            assert(text@.subrange(0, text@.len() as int) =~= text@);
            assert(pattern@.subrange(0, pattern@.len() as int) =~= pattern@);
        }
        for c in it: text.chars()
            invariant
                it.seq() == text@,
                text@ == self@,
                plen == pattern@.len(),
                k < plen || plen == 0,
                plen == 0 ==> it.index() == 0,
                k + greedy_matches(
                    text@.subrange(it.index() as int, text@.len() as int),
                    pattern@.subrange(k as int, plen as int),
                ) == greedy_matches(text@, pattern@),
        {
            let ghost i = it.index();
            proof {
                lemma_greedy_step(text@, pattern@, i, k as int);
                assert(text@[i] == c);
            }
            if k < plen && c == pattern.get_char(k) {
                k = k + 1;
            }
            if k >= plen {
                proof {
                    lemma_greedy_bound(text@, pattern@);
                }
                return true;
            }
        }
        proof {
            assert(text@.subrange(text@.len() as int, text@.len() as int) =~= Seq::<char>::empty());
        }
        false
    }

    fn fuzzy_score(&self, pattern: &str) -> (r: usize) {
        let plen = pattern.unicode_len();
        let mut k: usize = 0;
        let text = self.as_str();
        proof {
            assert(text@.subrange(0, text@.len() as int) =~= text@);
            assert(pattern@.subrange(0, pattern@.len() as int) =~= pattern@);
        }
        for c in it: text.chars()
            invariant
                it.seq() == text@,
                text@ == self@,
                plen == pattern@.len(),
                k <= plen,
                k + greedy_matches(
                    text@.subrange(it.index() as int, text@.len() as int),
                    pattern@.subrange(k as int, plen as int),
                ) == greedy_matches(text@, pattern@),
        {
            let ghost i = it.index();
            proof {
                lemma_greedy_step(text@, pattern@, i, k as int);
                assert(text@[i] == c);
            }
            if k < plen && c == pattern.get_char(k) {
                k = k + 1;
            }
            if k >= plen {
                proof {
                    let rest = text@.subrange(i + 1, text@.len() as int);
                    assert(pattern@.subrange(k as int, plen as int) =~= Seq::<char>::empty());
                    assert(greedy_matches(rest, Seq::<char>::empty()) == 0);
                }
                return k;
            }
        }
        proof {
            assert(text@.subrange(text@.len() as int, text@.len() as int) =~= Seq::<char>::empty());
        }
        k
    }
}

} // verus!
