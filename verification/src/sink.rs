//! Where a decoder hands its payload.

use vstd::prelude::*;
use vstd::string::StringExecFns;

verus! {

/// A receiver of payload runs.
///
/// A decoder hands each run to its sink as soon as the run is known, and in
/// the order of the stream. What a sink makes of a run is its own affair; it
/// says so through `absorb`, so that the contract of a decoder can state what
/// the sink holds afterwards without knowing the sink.
pub trait PayloadSink {
    /// What the sink holds, as a mathematical value.
    type Model;

    /// What this sink holds. A sink that says nothing of itself holds some
    /// value that nothing is known of.
    open spec fn model(&self) -> Self::Model {
        arbitrary()
    }

    /// What a sink holds after `run` has been handed to one that held
    /// `before`. For a sink that says nothing of itself, the same.
    open spec fn absorb(before: Self::Model, run: Seq<char>) -> Self::Model {
        before
    }

    /// Takes the next run of the payload.
    fn on_data(&mut self, run: &str)
        ensures
            final(self).model() == Self::absorb(old(self).model(), run@),
    ;
}

/// What a sink holds after `runs` have been handed, in order, to one that
/// held `start`.
pub open spec fn absorb_all<S: PayloadSink>(start: S::Model, runs: Seq<Seq<char>>) -> S::Model
    decreases runs.len(),
{
    if runs.len() == 0 {
        start
    } else {
        absorb_all::<S>(S::absorb(start, runs.first()), runs.drop_first())
    }
}

/// A string appends each run to itself: it ends up holding the payload.
impl PayloadSink for String {
    type Model = Seq<char>;

    open spec fn model(&self) -> Seq<char> {
        self@
    }

    open spec fn absorb(before: Seq<char>, run: Seq<char>) -> Seq<char> {
        before + run
    }

    fn on_data(&mut self, run: &str) {
        self.append(run);
    }
}

/// A vector of strings keeps each run as an element of its own.
impl PayloadSink for Vec<String> {
    type Model = Seq<Seq<char>>;

    open spec fn model(&self) -> Seq<Seq<char>> {
        Seq::new(self@.len(), |i: int| self@[i]@)
    }

    open spec fn absorb(before: Seq<Seq<char>>, run: Seq<char>) -> Seq<Seq<char>> {
        before.push(run)
    }

    fn on_data(&mut self, run: &str) {
        self.push(String::from_str(run));
        assert(self.model() =~= Self::absorb(old(self).model(), run@));
    }
}

/// Handing `run` and then `runs` to a sink is handing it `run` followed by
/// `runs`.
pub proof fn lemma_absorb_first<S: PayloadSink>(
    start: S::Model,
    run: Seq<char>,
    runs: Seq<Seq<char>>,
)
    ensures
        absorb_all::<S>(start, seq![run] + runs) == absorb_all::<S>(S::absorb(start, run), runs),
{
    let all = seq![run] + runs;
    assert(all.first() == run);
    assert(all.drop_first() =~= runs);
}

/// A string that is handed `runs` ends up with their concatenation appended.
pub proof fn lemma_string_absorbs_payload(start: Seq<char>, runs: Seq<Seq<char>>)
    ensures
        absorb_all::<String>(start, runs) == start + runs.flatten(),
    decreases runs.len(),
{
    if runs.len() == 0 {
        assert(start + runs.flatten() =~= start);
    } else {
        lemma_string_absorbs_payload(start + runs.first(), runs.drop_first());
        assert(start + runs.first() + runs.drop_first().flatten() =~= start + runs.flatten());
    }
}

/// A vector of strings that is handed `runs` ends up with them appended, one
/// element for each.
pub proof fn lemma_vec_absorbs_runs(start: Seq<Seq<char>>, runs: Seq<Seq<char>>)
    ensures
        absorb_all::<Vec<String>>(start, runs) == start + runs,
    decreases runs.len(),
{
    if runs.len() == 0 {
        assert(start + runs =~= start);
    } else {
        lemma_vec_absorbs_runs(start.push(runs.first()), runs.drop_first());
        assert(start.push(runs.first()) + runs.drop_first() =~= start + runs);
    }
}

} // verus!
