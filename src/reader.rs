use vstd::prelude::*;

use crate::record::names_view;
use crate::run_state::State;
use crate::statistic::{Statistic, StatsModel};
use crate::text::{is_white, lemma_trimmed_ends, push_char, split, trim_str, trimmed};

verus! {

broadcast use vstd::string::group_string_axioms;

/// The lines that are left once blank ones are dropped.
pub open spec fn nonblank(lines: Seq<Seq<char>>) -> Seq<Seq<char>>
    decreases lines.len(),
{
    if lines.len() == 0 {
        Seq::empty()
    } else {
        let rest = nonblank(lines.drop_last());
        if lines.last().len() > 0 {
            rest.push(lines.last())
        } else {
            rest
        }
    }
}

pub open spec fn trim_all(lines: Seq<Seq<char>>) -> Seq<Seq<char>> {
    lines.map_values(|l: Seq<char>| trimmed(l))
}

/// The terms of an input file: each line trimmed, blank lines dropped.
pub open spec fn input_lines(content: Seq<char>) -> Seq<Seq<char>> {
    nonblank(trim_all(split(content, '\n')))
}

proof fn lemma_trim_push(lines: Seq<Seq<char>>, l: Seq<char>)
    ensures
        trim_all(lines.push(l)) == trim_all(lines).push(trimmed(l)),
{
    assert(trim_all(lines.push(l)) =~= trim_all(lines).push(trimmed(l)));
}

/// Every term of an input file is non-empty and neither starts nor ends
/// with white space.
pub proof fn lemma_input_terms_trimmed(content: Seq<char>)
    ensures
        forall|i: int| 0 <= i < input_lines(content).len() ==> {
            let t = #[trigger] input_lines(content)[i];
            t.len() > 0 && !is_white(t[0]) && !is_white(t.last())
        },
{
    lemma_nonblank_trimmed(split(content, '\n'));
}

proof fn lemma_nonblank_trimmed(lines: Seq<Seq<char>>)
    ensures
        forall|i: int| 0 <= i < nonblank(trim_all(lines)).len() ==> {
            let t = #[trigger] nonblank(trim_all(lines))[i];
            t.len() > 0 && !is_white(t[0]) && !is_white(t.last())
        },
    decreases lines.len(),
{
    if lines.len() > 0 {
        let init = lines.drop_last();
        lemma_nonblank_trimmed(init);
        assert(lines =~= init.push(lines.last()));
        lemma_trim_push(init, lines.last());
        let ta = trim_all(lines);
        assert(ta.drop_last() =~= trim_all(init));
        assert(ta.last() == trimmed(lines.last()));
        lemma_trimmed_ends(lines.last());
        let r = nonblank(ta);
        let q = nonblank(trim_all(init));
        assert forall|i: int| 0 <= i < r.len() implies {
            let t = #[trigger] r[i];
            t.len() > 0 && !is_white(t[0]) && !is_white(t.last())
        } by {
            if i < q.len() {
                assert(r[i] == q[i]);
            }
        }
    } else {
        assert(nonblank(trim_all(lines)).len() == 0);
    }
}

/// The lines of the text: the pieces between line breaks, in order.
pub fn split_lines(content: &str) -> (r: Vec<String>)
    ensures
        names_view(r@) == split(content@, '\n'),
{
    let mut out: Vec<String> = Vec::new();
    let mut cur = String::new();
    proof {
        assert(split(content@.take(0), '\n') =~= seq![Seq::<char>::empty()]);
    }
    for c in it: content.chars()
        invariant
            it.seq() == content@,
            ({
                let sp = split(content@.take(it.index() as int), '\n');
                &&& sp.len() >= 1
                &&& cur@ == sp.last()
                &&& names_view(out@) == sp.drop_last()
            }),
    {
        let ghost pre = content@.take(it.index() as int);
        let ghost sp = split(pre, '\n');
        let ghost next = content@.take(it.index() + 1);
        proof {
            assert(next.drop_last() =~= pre);
            assert(next.last() == c);
        }
        if c == '\n' {
            let line = cur;
            cur = String::new();
            let ghost before = out@;
            out.push(line);
            proof {
                let sq = split(next, '\n');
                assert(sq == sp.push(Seq::empty()));
                assert(names_view(out@) =~= names_view(before).push(sp.last()));
                assert(sq.drop_last() =~= sp);
                assert(sp.drop_last().push(sp.last()) =~= sp);
            }
        } else {
            push_char(&mut cur, c);
            proof {
                let sq = split(next, '\n');
                assert(sq == sp.update(sp.len() - 1, sp.last().push(c)));
                assert(sq.drop_last() =~= sp.drop_last());
            }
        }
    }
    let ghost before = out@;
    out.push(cur);
    proof {
        let sp = split(content@, '\n');
        assert(content@.take(content@.len() as int) =~= content@);
        assert(names_view(out@) =~= names_view(before).push(sp.last()));
        assert(sp.drop_last().push(sp.last()) =~= sp);
    }
    out
}

/// The lines that are not empty, in order.
pub fn keep_nonblank(lines: Vec<String>) -> (r: Vec<String>)
    ensures
        names_view(r@) == nonblank(names_view(lines@)),
{
    let mut out: Vec<String> = Vec::new();
    let mut i: usize = 0;
    while i < lines.len()
        invariant
            i <= lines.len(),
            names_view(out@) == nonblank(names_view(lines@).take(i as int)),
        decreases lines.len() - i,
    {
        let ghost before = out@;
        let ghost t = names_view(lines@).take(i as int + 1);
        proof {
            assert(t.drop_last() =~= names_view(lines@).take(i as int));
            assert(t.last() == lines@[i as int]@);
        }
        if !lines[i].as_str().is_empty() {
            out.push(lines[i].clone());
            assert(names_view(out@) =~= names_view(before).push(lines@[i as int]@));
        }
        i = i + 1;
    }
    assert(names_view(lines@).take(lines.len() as int) =~= names_view(lines@));
    out
}

/// The non-blank trimmed lines of an input file, in file order.
pub fn input_terms(content: &str) -> (r: Vec<String>)
    ensures
        names_view(r@) == input_lines(content@),
{
    let lines = split_lines(content);
    let mut trimmed_lines: Vec<String> = Vec::new();
    let mut i: usize = 0;
    while i < lines.len()
        invariant
            i <= lines.len(),
            names_view(trimmed_lines@) == trim_all(names_view(lines@).take(i as int)),
        decreases lines.len() - i,
    {
        let t = trim_str(lines[i].as_str());
        let ghost before = trimmed_lines@;
        trimmed_lines.push(String::from_str(t));
        proof {
            let v = names_view(lines@).take(i as int + 1);
            assert(v =~= names_view(lines@).take(i as int).push(lines@[i as int]@));
            lemma_trim_push(names_view(lines@).take(i as int), lines@[i as int]@);
            assert(names_view(trimmed_lines@) =~= names_view(before).push(trimmed(lines@[i as int]@)));
        }
        i = i + 1;
    }
    assert(names_view(lines@).take(lines.len() as int) =~= names_view(lines@));
    keep_nonblank(trimmed_lines)
}

/// What the reader does on one poll.
pub enum ReaderAction {
    /// Processing is paused: read nothing now, poll again shortly.
    Wait,
    /// Send this term on to the checker.
    Send(String),
    /// Every term has been sent: idle until the input path changes.
    Exhausted,
}

/// Position of the reader within the terms of the open input file.
pub struct InputCursor {
    terms: Vec<String>,
    next: usize,
}

/// The terms sent, and the position reached, over a run of polls made under
/// the run states `states`, starting at position `next`.
pub open spec fn polls(terms: Seq<Seq<char>>, next: nat, states: Seq<State>) -> (Seq<Seq<char>>, nat)
    decreases states.len(),
{
    if states.len() == 0 {
        (Seq::empty(), next)
    } else {
        let (sent, at) = polls(terms, next, states.drop_last());
        if states.last() == State::Processing && at < terms.len() {
            (sent.push(terms[at as int]), at + 1)
        } else {
            (sent, at)
        }
    }
}

/// Number of polls made while processing.
pub open spec fn processing_polls(states: Seq<State>) -> nat
    decreases states.len(),
{
    if states.len() == 0 {
        0
    } else {
        processing_polls(states.drop_last()) + if states.last() == State::Processing { 1nat } else { 0nat }
    }
}

impl InputCursor {
    pub closed spec fn spec_terms(&self) -> Seq<Seq<char>> {
        names_view(self.terms@)
    }

    pub closed spec fn spec_next(&self) -> nat {
        self.next as nat
    }

    pub open spec fn wf(&self) -> bool {
        self.spec_next() <= self.spec_terms().len()
    }

    /// Opens the terms of a freshly read input file: their number becomes the
    /// maximum of the progress counters, and the current count restarts at zero.
    pub fn start(content: &str, stats: &mut Statistic) -> (r: InputCursor)
        ensures
            r.wf(),
            r.spec_terms() == input_lines(content@),
            r.spec_next() == 0,
            final(stats)@ == (StatsModel { cur: 0, max: input_lines(content@).len(), ..old(stats)@ }),
            final(stats).spec_pulse() == old(stats).spec_pulse(),
    {
        let terms = input_terms(content);
        stats.set_max(terms.len());
        stats.set_current(0);
        InputCursor { terms, next: 0 }
    }

    /// Terms not sent yet.
    pub fn remaining(&self) -> (r: usize)
        requires
            self.wf(),
        ensures
            r == self.spec_terms().len() - self.spec_next(),
    {
        self.terms.len() - self.next
    }

    /// One poll under the run state `state`: nothing moves unless processing;
    /// then the next term is sent, or the end is reported.
    pub fn poll(&mut self, state: State) -> (r: ReaderAction)
        requires
            old(self).wf(),
        ensures
            final(self).wf(),
            final(self).spec_terms() == old(self).spec_terms(),
            state != State::Processing ==> r is Wait && final(self).spec_next() == old(self).spec_next(),
            state == State::Processing && old(self).spec_next() < old(self).spec_terms().len() ==> {
                &&& r matches ReaderAction::Send(t) && t@ == old(self).spec_terms()[old(self).spec_next() as int]
                &&& final(self).spec_next() == old(self).spec_next() + 1
            },
            state == State::Processing && old(self).spec_next() == old(self).spec_terms().len() ==> {
                &&& r is Exhausted
                &&& final(self).spec_next() == old(self).spec_next()
            },
    {
        if state != State::Processing {
            ReaderAction::Wait
        } else if self.next < self.terms.len() {
            let t = self.terms[self.next].clone();
            self.next = self.next + 1;
            ReaderAction::Send(t)
        } else {
            ReaderAction::Exhausted
        }
    }
}

/// Pausing loses and repeats nothing: over any run of polls, the terms sent
/// are exactly the first ones of the file, in order, one for each poll made
/// while processing, until the file is exhausted.
pub proof fn lemma_pause_resume(terms: Seq<Seq<char>>, states: Seq<State>)
    ensures
        polls(terms, 0, states).0 == terms.take(polls(terms, 0, states).1 as int),
        polls(terms, 0, states).1 == (if processing_polls(states) < terms.len() {
            processing_polls(states)
        } else {
            terms.len()
        }),
    decreases states.len(),
{
    if states.len() > 0 {
        lemma_pause_resume(terms, states.drop_last());
        let (sent, at) = polls(terms, 0, states.drop_last());
        if states.last() == State::Processing && at < terms.len() {
            assert(sent.push(terms[at as int]) =~= terms.take(at as int + 1));
        }
    }
}

} // verus!
