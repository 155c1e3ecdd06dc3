//! The corpus of a fuzzing run, and what each iteration does to it.

use super::generate;
use super::mutate;
use super::signature;
use super::signature::{mutate_and_run, sig_of, SigSet};
use crate::bytes::copy_bytes;
use vstd::prelude::*;

verus! {

/// The corpus is cut when it is longer than this.
pub const MAX_CORPUS: usize = 8192;

/// How many of the oldest inputs a cut drops.
pub const CUT: usize = 512;

/// How often an input is mutated before the next one comes.
pub const ROUND: usize = 256;

/// A fuzzing run.
pub struct Fuzzer {
    base: Vec<Vec<u8>>,
    corpus: Vec<Vec<u8>>,
    seen: SigSet,
    replay: SigSet,
    budget: u64,
    iterations: u64,
}

/// A run, as values.
#[verifier::ext_equal]
pub struct Run {
    /// The seeds.
    pub base: Seq<Seq<u8>>,
    /// The inputs in use.
    pub corpus: Seq<Seq<u8>>,
    /// The signatures of the inputs that were kept.
    pub kept: Set<Seq<(u8, u32, u32)>>,
    pub budget: u64,
    pub iterations: u64,
}

/// The corpus with one input more, cut where it gets too long.
pub open spec fn extended(corpus: Seq<Seq<u8>>, input: Seq<u8>) -> Seq<Seq<u8>> {
    let longer = corpus.push(input);
    if longer.len() > MAX_CORPUS {
        longer.skip(CUT as int)
    } else {
        longer
    }
}

/// Less by one, but not below zero.
pub open spec fn spent(budget: u64) -> u64 {
    if budget > 0 {
        (budget - 1) as u64
    } else {
        0
    }
}

/// The signatures of all inputs.
pub open spec fn signatures(inputs: Seq<Seq<u8>>) -> Set<Seq<(u8, u32, u32)>> {
    inputs.map_values(|s: Seq<u8>| signature::signature(s)).to_set()
}

/// Copies of byte strings.
fn copy_all(v: &Vec<Vec<u8>>) -> (out: Vec<Vec<u8>>)
    ensures
        generate::contents(out@) == generate::contents(v@),
{
    let mut out: Vec<Vec<u8>> = Vec::with_capacity(v.len());
    let mut i: usize = 0;
    while i < v.len()
        invariant
            i <= v@.len(),
            generate::contents(out@) == generate::contents(v@).take(i as int),
        decreases v@.len() - i,
    {
        let ghost before = out@;
        out.push(copy_bytes(v[i].as_slice()));
        assert(generate::contents(out@) =~= generate::contents(before).push(v@[i as int]@));
        assert(generate::contents(out@) =~= generate::contents(v@).take(i + 1));
        i = i + 1;
    }
    assert(generate::contents(out@) =~= generate::contents(v@));
    out
}

proof fn one_more_signature(inputs: Seq<Seq<u8>>, i: int)
    requires
        0 <= i < inputs.len(),
    ensures
        signatures(inputs.take(i + 1)) == signatures(inputs.take(i)).insert(
            signature::signature(inputs[i]),
        ),
{
    let f = |s: Seq<u8>| signature::signature(s);
    let a = inputs.take(i).map_values(f);
    let b = inputs.take(i + 1).map_values(f);
    assert(b =~= a.push(signature::signature(inputs[i])));
    assert forall|x: Seq<(u8, u32, u32)>| b.to_set().contains(x) <==> a.to_set().insert(
        signature::signature(inputs[i]),
    ).contains(x) by {
        if a.contains(x) {
            let k = choose|k: int| 0 <= k < a.len() && a[k] == x;
            assert(b[k] == x);
        }
        if x == signature::signature(inputs[i]) {
            assert(b[i] == x);
        }
        if b.contains(x) {
            let k = choose|k: int| 0 <= k < b.len() && b[k] == x;
            if k < i {
                assert(a[k] == x);
            }
        }
    }
    assert(b.to_set() =~= a.to_set().insert(signature::signature(inputs[i])));
}

impl View for Fuzzer {
    type V = Run;

    closed spec fn view(&self) -> Run {
        Run {
            base: generate::contents(self.base@),
            corpus: generate::contents(self.corpus@),
            kept: self.replay@,
            budget: self.budget,
            iterations: self.iterations,
        }
    }
}

impl Fuzzer {
    pub closed spec fn wf(&self) -> bool {
        &&& self.seen.wf()
        &&& self.replay.wf()
    }

    /// The signatures that were seen.
    pub closed spec fn seen(&self) -> Set<Seq<(u8, u32, u32)>> {
        self.seen@
    }

    /// A run on seeds and on inputs that an earlier run kept.
    pub fn new(seeds: Vec<Vec<u8>>, found: Vec<Vec<u8>>, max_iterations: u64) -> (f: Fuzzer)
        ensures
            f.wf(),
            f@ == (Run {
                base: generate::contents(seeds@),
                corpus: generate::contents(seeds@) + generate::contents(found@),
                kept: Set::empty(),
                budget: max_iterations,
                iterations: 0,
            }),
            f.seen() == signatures(f@.corpus),
    {
        let base = copy_all(&seeds);
        let mut corpus = seeds;
        let mut more = found;
        corpus.append(&mut more);
        let ghost inputs = generate::contents(corpus@);
        assert(inputs =~= generate::contents(seeds@) + generate::contents(found@));
        let mut seen = SigSet::new();
        let mut i: usize = 0;
        assert(signatures(inputs.take(0)) =~= Set::<Seq<(u8, u32, u32)>>::empty());
        while i < corpus.len()
            invariant
                i <= corpus@.len(),
                inputs == generate::contents(corpus@),
                seen.wf(),
                seen@ == signatures(inputs.take(i as int)),
            decreases corpus@.len() - i,
        {
            proof {
                one_more_signature(inputs, i as int);
            }
            seen.insert(sig_of(corpus[i].as_slice()));
            i = i + 1;
        }
        assert(inputs.take(i as int) =~= inputs);
        Fuzzer {
            base,
            corpus,
            seen,
            replay: SigSet::new(),
            budget: max_iterations,
            iterations: 0,
        }
    }

    pub fn budget(&self) -> (n: u64)
        ensures
            n == self@.budget,
    {
        self.budget
    }

    pub fn iterations(&self) -> (n: u64)
        ensures
            n == self@.iterations,
    {
        self.iterations
    }

    pub fn corpus_len(&self) -> (n: usize)
        ensures
            n == self@.corpus.len(),
    {
        self.corpus.len()
    }

    /// How many signatures were seen.
    pub fn unique_sigs(&self) -> (n: usize)
        requires
            self.wf(),
        ensures
            n == self.seen().len(),
    {
        self.seen.len()
    }

    /// Finitely many signatures were seen.
    pub proof fn seen_is_finite(&self)
        requires
            self.wf(),
        ensures
            self.seen().finite(),
    {
        self.seen.is_finite();
    }

    /// The input of the next round: they take turns. An empty corpus starts
    /// anew with the seeds.
    pub fn round_input(&mut self) -> (input: Vec<u8>)
        requires
            old(self).wf(),
            old(self)@.corpus.len() > 0 || old(self)@.base.len() > 0,
        ensures
            final(self).wf(),
            final(self).seen() == old(self).seen(),
            final(self)@ == (Run {
                corpus: if old(self)@.corpus.len() == 0 {
                    old(self)@.base
                } else {
                    old(self)@.corpus
                },
                ..old(self)@
            }),
            input@ == final(self)@.corpus[old(self)@.iterations as int
                % final(self)@.corpus.len() as int],
    {
        if self.corpus.len() == 0 {
            self.corpus = copy_all(&self.base);
        }
        assert(self.corpus@.len() == generate::contents(self.corpus@).len());
        assert(self.base@.len() == generate::contents(self.base@).len());
        let i: usize = (self.iterations % (self.corpus.len() as u64)) as usize;
        copy_bytes(self.corpus[i].as_slice())
    }

    /// Enters the outcome of an iteration: what was kept joins the corpus, and
    /// is handed out under its number, to be saved.
    pub fn settle(&mut self, kept: Vec<u8>) -> (saved: Option<(usize, Vec<u8>)>)
        requires
            old(self).wf(),
            old(self)@.iterations < u64::MAX,
        ensures
            final(self).wf(),
            final(self).seen() == old(self).seen(),
            final(self)@.base == old(self)@.base,
            final(self)@.iterations == old(self)@.iterations + 1,
            kept@.len() == 0 ==> {
                &&& saved is None
                &&& final(self)@.corpus == old(self)@.corpus
                &&& final(self)@.kept == old(self)@.kept
                &&& final(self)@.budget == spent(old(self)@.budget)
            },
            kept@.len() > 0 ==> {
                &&& saved matches Some((n, bytes)) && n == old(self)@.kept.len() && bytes@ == kept@
                &&& final(self)@.corpus == extended(old(self)@.corpus, kept@)
                &&& final(self)@.kept == old(self)@.kept.insert(signature::signature(kept@))
                &&& final(self)@.budget == spent(spent(old(self)@.budget))
            },
    {
        let mut saved: Option<(usize, Vec<u8>)> = None;
        if kept.len() > 0 {
            let number: usize = self.replay.len();
            let ghost before = self.corpus@;
            self.corpus.push(copy_bytes(kept.as_slice()));
            assert(generate::contents(self.corpus@) =~= generate::contents(before).push(kept@));
            if self.corpus.len() > MAX_CORPUS {
                let ghost long = self.corpus@;
                self.corpus = self.corpus.split_off(CUT);
                assert(generate::contents(self.corpus@) =~= generate::contents(long).skip(
                    CUT as int,
                ));
            }
            self.replay.insert(sig_of(kept.as_slice()));
            self.budget = self.budget.saturating_sub(1);
            saved = Some((number, kept));
        }
        self.iterations = self.iterations + 1;
        self.budget = self.budget.saturating_sub(1);
        saved
    }

    /// One iteration: an input is mutated, and the outcome entered.
    pub fn step(&mut self, input: &[u8]) -> (saved: Option<(usize, Vec<u8>)>)
        requires
            old(self).wf(),
            old(self)@.iterations < u64::MAX,
        ensures
            final(self).wf(),
            final(self)@.base == old(self)@.base,
            final(self)@.iterations == old(self)@.iterations + 1,
            final(self)@.budget == if saved is Some {
                spent(spent(old(self)@.budget))
            } else {
                spent(old(self)@.budget)
            },
            exists|candidate: Seq<u8>|
                {
                    &&& #[trigger] mutate::is_mutation(input@, candidate)
                    &&& final(self).seen() == old(self).seen().insert(
                        signature::signature(candidate),
                    )
                    &&& saved is Some <==> candidate.len() > 0 && !old(self).seen().contains(
                        signature::signature(candidate),
                    )
                    &&& saved matches Some((n, bytes)) ==> bytes@ == candidate
                },
            match saved {
                Some((n, bytes)) => {
                    &&& n == old(self)@.kept.len()
                    &&& bytes@.len() > 0
                    &&& final(self)@.corpus == extended(old(self)@.corpus, bytes@)
                    &&& final(self)@.kept == old(self)@.kept.insert(signature::signature(bytes@))
                },
                None => {
                    &&& final(self)@.corpus == old(self)@.corpus
                    &&& final(self)@.kept == old(self)@.kept
                },
            },
    {
        let mut events: u64 = 1;
        let kept = mutate_and_run(input, &mut self.seen, &mut events);
        self.settle(kept)
    }
}

/// What a run did.
#[derive(Debug, Clone, Copy, PartialEq, Eq, Structural)]
pub struct Stats {
    pub iterations: u64,
    pub corpus: usize,
    pub unique_sigs: usize,
}

/// Whether a run goes on, so long after its start and with so much budget
/// left. No seconds mean no limit of time.
pub fn goes_on(seconds: u64, elapsed_ms: u64, budget: u64) -> (yes: bool)
    ensures
        yes == (budget > 0 && (seconds == 0 || elapsed_ms < seconds * 1000)),
{
    budget > 0 && (seconds == 0 || elapsed_ms / 1000 < seconds)
}

/// Whether a round that has made `done` iterations goes on.
pub fn round_goes_on(done: usize, seconds: u64, elapsed_ms: u64, budget: u64) -> (yes: bool)
    ensures
        yes == (done < ROUND && budget > 0 && (seconds == 0 || elapsed_ms < seconds * 1000)),
        yes ==> done < 256,
        !yes ==> done >= 256 || budget == 0 || (seconds > 0 && elapsed_ms >= seconds * 1000),
{
    done < ROUND && goes_on(seconds, elapsed_ms, budget)
}

/// The budget of a run: as asked for, without limit where only its time is
/// limited, and nothing where neither is.
pub fn budget_of(seconds: u64, iterations: Option<u64>) -> (budget: Option<u64>)
    ensures
        ({
            let n = match iterations {
                Some(n) => n,
                None => u64::MAX,
            };
            budget == if seconds == 0 && n == u64::MAX {
                None
            } else {
                Some(n)
            }
        }),
{
    let n: u64 = match iterations {
        Some(n) => n,
        None => u64::MAX,
    };
    if seconds == 0 && n == u64::MAX {
        None
    } else {
        Some(n)
    }
}

/// What a run has done so far, from where it began.
spec fn progress(f: Fuzzer, seeds: nat, sigs: nat, max_iters: u64) -> bool {
    &&& f.wf()
    &&& f.seen().finite()
    &&& f@.base.len() > 0
    &&& f@.base.len() == seeds
    &&& f@.iterations + f@.budget <= max_iters
    &&& sigs <= f.seen().len() <= sigs + f@.iterations
    &&& max_iters <= f@.iterations + f@.budget + (f.seen().len() - sigs)
    &&& f@.corpus.len() >= seeds || f@.corpus.len() >= MAX_CORPUS + 1 - CUT
    &&& f@.corpus.len() <= seeds + (f.seen().len() - sigs)
    &&& f@.corpus.len() <= seeds || f@.corpus.len() <= MAX_CORPUS
}

/// Fuzzes until the budget is used up. Each iteration costs one, and one more
/// where it finds something new. The seeds count as seen.
pub fn run_bounded(seed_corpus: Vec<Vec<u8>>, max_iters: u64) -> (stats: Stats)
    requires
        seed_corpus@.len() > 0,
    ensures
        ({
            let seeds = seed_corpus@.len();
            let sigs = signatures(generate::contents(seed_corpus@)).len();
            let found = stats.unique_sigs - sigs;
            &&& stats.iterations <= max_iters <= 2 * stats.iterations
            &&& 0 <= found <= stats.iterations
            &&& max_iters <= stats.iterations + found
            &&& stats.corpus >= seeds || stats.corpus >= MAX_CORPUS + 1 - CUT
            &&& stats.corpus <= seeds + found
            &&& stats.corpus <= seeds || stats.corpus <= MAX_CORPUS
        }),
{
    let ghost seeds = seed_corpus@.len();
    let ghost sigs = signatures(generate::contents(seed_corpus@)).len();
    let mut f = Fuzzer::new(seed_corpus, Vec::new(), max_iters);
    proof {
        let none: Seq<Vec<u8>> = Seq::empty();
        assert(generate::contents(none) =~= Seq::<Seq<u8>>::empty());
        assert(f@.corpus =~= generate::contents(seed_corpus@));
        f.seen_is_finite();
    }
    while goes_on(0, 0, f.budget())
        invariant
            progress(f, seeds, sigs, max_iters),
        decreases f@.budget,
    {
        let input = f.round_input();
        let mut n: usize = 0;
        let ghost before = f@.budget;
        while round_goes_on(n, 0, 0, f.budget())
            invariant
                n <= ROUND,
                progress(f, seeds, sigs, max_iters),
                f@.budget <= before,
                n > 0 ==> f@.budget < before,
                n == 0 ==> f@.budget == before,
            decreases ROUND - n,
        {
            let _saved = f.step(input.as_slice());
            proof {
                f.seen_is_finite();
            }
            n = n + 1;
        }
    }
    Stats {
        iterations: f.iterations(),
        corpus: f.corpus_len(),
        unique_sigs: f.unique_sigs(),
    }
}

/// The corpus ends with the newest input, holds the others in the order they
/// came, and is never longer than it may be. Where it gets too long, the
/// oldest inputs go, as many as a cut takes.
pub proof fn the_corpus_keeps_the_newest(corpus: Seq<Seq<u8>>, input: Seq<u8>, i: int)
    requires
        corpus.len() <= 8192,
    ensures
        ({
            let after = extended(corpus, input);
            let gone = corpus.len() + 1 - after.len();
            &&& after.len() <= 8192
            &&& after.last() == input
            &&& gone == if corpus.len() == 8192 {
                512int
            } else {
                0
            }
            &&& 0 <= i < after.len() - 1 ==> after[i] == corpus[gone + i]
        }),
{
}

/// A signature was seen where one of the inputs has it.
pub proof fn seen_signatures_are_of_inputs(inputs: Seq<Seq<u8>>, sig: Seq<(u8, u32, u32)>)
    ensures
        signatures(inputs).contains(sig) <==> exists|i: int|
            0 <= i < inputs.len() && signature::signature(#[trigger] inputs[i]) == sig,
{
    let all = inputs.map_values(|s: Seq<u8>| signature::signature(s));
    if all.contains(sig) {
        let i = choose|i: int| 0 <= i < all.len() && all[i] == sig;
        assert(signature::signature(inputs[i]) == sig);
    }
    if exists|i: int| 0 <= i < inputs.len() && signature::signature(#[trigger] inputs[i]) == sig {
        let i = choose|i: int|
            0 <= i < inputs.len() && signature::signature(#[trigger] inputs[i]) == sig;
        assert(all[i] == sig);
    }
}

/// A budget that is there gets one less; none stays none.
pub proof fn budgets_run_out(budget: u64)
    ensures
        budget > 0 ==> spent(budget) + 1 == budget,
        spent(0) == 0,
{
}

} // verus!
