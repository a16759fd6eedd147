//! Counts of the outcomes at the end of a run.
use vstd::prelude::*;
use crate::enumerate::{FileEntry, Outcome};

verus! {

/// How many entries ended in each outcome.
#[derive(Clone, Copy, PartialEq, Eq, Debug, Structural)]
pub struct Summary {
    pub renamed: usize,
    pub noop: usize,
    pub unchanged: usize,
}

/// How many of the entries ended in outcome `o`.
pub open spec fn count_outcome(es: Seq<FileEntry>, o: Outcome) -> nat
    decreases es.len(),
{
    if es.len() == 0 {
        0
    } else {
        count_outcome(es.drop_last(), o) + if es.last().outcome == o {
            1nat
        } else {
            0nat
        }
    }
}

proof fn lemma_count_bound(es: Seq<FileEntry>, o: Outcome)
    ensures
        count_outcome(es, o) <= es.len(),
    decreases es.len(),
{
    if es.len() > 0 {
        lemma_count_bound(es.drop_last(), o);
    }
}

/// Counts the entries by outcome.
pub fn summarize(entries: &Vec<FileEntry>) -> (r: Summary)
    ensures
        r.renamed == count_outcome(entries@, Outcome::Renamed),
        r.noop == count_outcome(entries@, Outcome::NoopUnchanged),
        r.unchanged == count_outcome(entries@, Outcome::Unchanged),
{
    let mut r = Summary { renamed: 0, noop: 0, unchanged: 0 };
    let mut i: usize = 0;
    while i < entries.len()
        invariant
            i <= entries@.len(),
            r.renamed == count_outcome(entries@.subrange(0, i as int), Outcome::Renamed),
            r.noop == count_outcome(entries@.subrange(0, i as int), Outcome::NoopUnchanged),
            r.unchanged == count_outcome(entries@.subrange(0, i as int), Outcome::Unchanged),
        decreases entries@.len() - i,
    {
        proof {
            let sub = entries@.subrange(0, i + 1);
            assert(sub.drop_last() =~= entries@.subrange(0, i as int));
            lemma_count_bound(sub, Outcome::Renamed);
            lemma_count_bound(sub, Outcome::NoopUnchanged);
            lemma_count_bound(sub, Outcome::Unchanged);
        }
        match entries[i].outcome {
            Outcome::Renamed => r.renamed = r.renamed + 1,
            Outcome::NoopUnchanged => r.noop = r.noop + 1,
            Outcome::Unchanged => r.unchanged = r.unchanged + 1,
        }
        i = i + 1;
    }
    assert(entries@.subrange(0, i as int) =~= entries@);
    r
}

} // verus!
