use vstd::prelude::*;

use crate::text::{digits_value, digit_value, is_digit, split};

verus! {

broadcast use vstd::string::group_string_axioms;

/// One dotted-quad component as the standard parser accepts it: one to three
/// decimal digits, no leading zero unless it is the single digit `0`, and a
/// value of at most 255.
pub open spec fn octet_ok(p: Seq<char>) -> bool {
    &&& 1 <= p.len() <= 3
    &&& forall|i: int| 0 <= i < p.len() ==> is_digit(#[trigger] p[i])
    &&& (p.len() == 1 || p[0] != '0')
    &&& digits_value(p) <= 255
}

/// The term is an IPv4 address in dotted-quad form: exactly four components.
pub open spec fn spec_is_ipv4(s: Seq<char>) -> bool {
    let parts = split(s, '.');
    parts.len() == 4 && forall|i: int| 0 <= i < 4 ==> octet_ok(#[trigger] parts[i])
}

pub open spec fn all_digits(p: Seq<char>) -> bool {
    forall|i: int| 0 <= i < p.len() ==> is_digit(#[trigger] p[i])
}

pub open spec fn min4(n: int) -> int {
    if n < 4 { n } else { 4 }
}

/// What the scan knows of the component under way.
pub open spec fn current_ok(p: Seq<char>, len: usize, val: u32, lead: bool, digs: bool) -> bool {
    &&& len == min4(p.len() as int)
    &&& digs == all_digits(p)
    &&& lead == (p.len() > 0 && p[0] == '0')
    &&& (digs && p.len() <= 3 ==> val == digits_value(p))
    &&& val <= 999
}

proof fn lemma_digits_bound(p: Seq<char>)
    requires
        all_digits(p),
    ensures
        0 <= digits_value(p),
        p.len() <= 3 ==> digits_value(p) <= 999,
        p.len() <= 2 ==> digits_value(p) <= 99,
        p.len() <= 1 ==> digits_value(p) <= 9,
    decreases p.len(),
{
    if p.len() > 0 {
        let q = p.drop_last();
        assert(all_digits(q)) by {
            assert forall|i: int| 0 <= i < q.len() implies is_digit(#[trigger] q[i]) by {
                assert(q[i] == p[i]);
            }
        }
        lemma_digits_bound(q);
        assert(is_digit(p.last()));
    }
}

/// Whether the term is an IPv4 address, so that it goes to the IP search.
pub fn is_ipv4(s: &str) -> (r: bool)
    ensures
        r == spec_is_ipv4(s@),
{
    let mut count: usize = 0;
    let mut done_ok: bool = true;
    let mut len: usize = 0;
    let mut val: u32 = 0;
    let mut lead: bool = false;
    let mut digs: bool = true;
    proof {
        assert(split(s@.take(0), '.') =~= seq![Seq::<char>::empty()]);
    }
    for c in it: s.chars()
        invariant
            it.seq() == s@,
            ({
                let sp = split(s@.take(it.index() as int), '.');
                &&& sp.len() >= 1
                &&& count == min4(sp.len() - 1)
                &&& done_ok == (forall|i: int| 0 <= i < sp.len() - 1 ==> octet_ok(#[trigger] sp[i]))
                &&& current_ok(sp.last(), len, val, lead, digs)
            }),
    {
        let ghost pre = s@.take(it.index() as int);
        let ghost sp = split(pre, '.');
        let ghost next = s@.take(it.index() + 1);
        proof {
            assert(next.drop_last() =~= pre);
            assert(next.last() == c);
            lemma_digits_bound_if(sp.last(), digs);
        }
        if c == '.' {
            let cur_ok = len >= 1 && len <= 3 && digs && (len == 1 || !lead) && val <= 255;
            proof {
                assert(cur_ok == octet_ok(sp.last()));
                let sq = split(next, '.');
                assert(sq == sp.push(Seq::empty()));
                assert(all_digits(Seq::<char>::empty()));
                assert(digits_value(Seq::<char>::empty()) == 0);
                assert((forall|i: int| 0 <= i < sq.len() - 1 ==> octet_ok(#[trigger] sq[i]))
                    == (done_ok && cur_ok)) by {
                    if done_ok && cur_ok {
                        assert forall|i: int| 0 <= i < sq.len() - 1 implies octet_ok(#[trigger] sq[i]) by {
                            if i < sp.len() - 1 {
                                assert(sq[i] == sp[i]);
                            } else {
                                assert(sq[i] == sp.last());
                            }
                        }
                    }
                    if !done_ok {
                        let j = choose|j: int| 0 <= j < sp.len() - 1 && !octet_ok(#[trigger] sp[j]);
                        assert(sq[j] == sp[j]);
                    }
                    if !cur_ok {
                        assert(sq[sp.len() - 1] == sp.last());
                    }
                }
            }
            done_ok = done_ok && cur_ok;
            if count < 4 {
                count = count + 1;
            }
            len = 0;
            val = 0;
            lead = false;
            digs = true;
        } else {
            let d = c >= '0' && c <= '9';
            proof {
                let sq = split(next, '.');
                let last = sp.last().push(c);
                assert(sq == sp.update(sp.len() - 1, last));
                assert(last.drop_last() =~= sp.last());
                assert(all_digits(last) == (digs && d)) by {
                    if digs && d {
                        assert forall|i: int| 0 <= i < last.len() implies is_digit(#[trigger] last[i]) by {
                            if i < last.len() - 1 {
                                assert(last[i] == sp.last()[i]);
                            }
                        }
                    }
                    if !d {
                        assert(last[last.len() - 1] == c);
                        assert(!is_digit(last[last.len() - 1]));
                    }
                    if !digs {
                        let j = choose|j: int| 0 <= j < sp.last().len() && !is_digit(#[trigger] sp.last()[j]);
                        assert(last[j] == sp.last()[j]);
                    }
                }
                assert forall|i: int| 0 <= i < sq.len() - 1 implies sq[i] == sp[i] by {}
                if sp.last().len() > 0 {
                    assert(last[0] == sp.last()[0]);
                }
            }
            if len == 0 {
                lead = c == '0';
            }
            if digs && d && len < 3 {
                let dv: u32 = (c as u32) - ('0' as u32);
                proof {
                    assert(dv == digit_value(c)) by {
                        assert('0' <= c <= '9');
                    }
                }
                val = val * 10 + dv;
            } else {
                val = 0;
            }
            digs = digs && d;
            if len < 4 {
                len = len + 1;
            }
        }
    }
    proof {
        assert(s@.take(s@.len() as int) =~= s@);
    }
    let cur_ok = len >= 1 && len <= 3 && digs && (len == 1 || !lead) && val <= 255;
    let r = done_ok && count == 3 && cur_ok;
    proof {
        let sp = split(s@, '.');
        lemma_digits_bound_if(sp.last(), digs);
        assert(cur_ok == octet_ok(sp.last()));
        if r {
            assert forall|i: int| 0 <= i < 4 implies octet_ok(#[trigger] sp[i]) by {
                if i == 3 {
                    assert(sp[i] == sp.last());
                }
            }
        }
        if spec_is_ipv4(s@) {
            assert(octet_ok(sp[3]));
            assert(sp[3] == sp.last());
            assert forall|i: int| 0 <= i < sp.len() - 1 implies octet_ok(#[trigger] sp[i]) by {
                assert(octet_ok(sp[i]));
            }
        }
    }
    r
}

proof fn lemma_digits_bound_if(p: Seq<char>, digs: bool)
    requires
        digs == all_digits(p),
    ensures
        digs ==> 0 <= digits_value(p),
        digs && p.len() <= 3 ==> digits_value(p) <= 999,
        digs && p.len() <= 2 ==> digits_value(p) <= 99,
{
    if digs {
        lemma_digits_bound(p);
    }
}

} // verus!
