//! The entries of a run, built from what the selection patterns matched.
use vstd::prelude::*;
use crate::error::RenameError;
use crate::path::{extract_name, name_of};

verus! {

/// What became of an entry.
#[derive(Clone, Copy, PartialEq, Eq, Debug, Structural)]
pub enum Outcome {
    /// Not renamed (yet).
    Unchanged,
    /// Renamed to its target path.
    Renamed,
    /// Its target path is its original path: nothing was done.
    NoopUnchanged,
}

/// One matched file, tracked through the run.
#[derive(Debug)]
pub struct FileEntry {
    /// The path as matched.
    pub original_path: String,
    /// The editable part of the path when it was matched.
    pub original_name: String,
    /// The name read back from the edited buffer.
    pub edited_name: Option<String>,
    /// The path that the file is to be renamed to.
    pub target_path: Option<String>,
    /// What became of the entry.
    pub outcome: Outcome,
}

/// One item that expanding a pattern produced.
#[derive(Debug)]
pub enum PathMatch {
    /// A matched path.
    Found(String),
    /// An entry that could not be read while expanding the pattern.
    Unreadable,
}

/// The result of expanding one selection pattern.
#[derive(Debug)]
pub enum PatternMatches {
    /// The pattern could not be compiled.
    Invalid,
    /// What expanding it produced, in the matcher's order.
    Expanded(Vec<PathMatch>),
}

/// The pattern failed: it did not compile, or one of its matches could not be read.
pub open spec fn pattern_failed(m: PatternMatches) -> bool {
    match m {
        PatternMatches::Invalid => true,
        PatternMatches::Expanded(items) => has_unreadable(items@),
    }
}

/// One of the items could not be read.
pub open spec fn has_unreadable(items: Seq<PathMatch>) -> bool {
    exists|k: int| 0 <= k < items.len() && #[trigger] items[k] is Unreadable
}

/// The positions of the failed patterns, in increasing order.
pub open spec fn failed_indices(ms: Seq<PatternMatches>) -> Seq<usize>
    decreases ms.len(),
{
    if ms.len() == 0 {
        Seq::<usize>::empty()
    } else if pattern_failed(ms.last()) {
        failed_indices(ms.drop_last()).push((ms.len() - 1) as usize)
    } else {
        failed_indices(ms.drop_last())
    }
}

/// The matched paths among `items`, in order.
pub open spec fn found_paths(items: Seq<PathMatch>) -> Seq<Seq<char>>
    decreases items.len(),
{
    if items.len() == 0 {
        Seq::<Seq<char>>::empty()
    } else {
        match items.last() {
            PathMatch::Found(p) => found_paths(items.drop_last()).push(p@),
            PathMatch::Unreadable => found_paths(items.drop_last()),
        }
    }
}

/// The matched paths of all patterns: pattern by pattern, each in the
/// matcher's order.
pub open spec fn matched_paths(ms: Seq<PatternMatches>) -> Seq<Seq<char>>
    decreases ms.len(),
{
    if ms.len() == 0 {
        Seq::<Seq<char>>::empty()
    } else {
        match ms.last() {
            PatternMatches::Invalid => matched_paths(ms.drop_last()),
            PatternMatches::Expanded(items) => matched_paths(ms.drop_last()) + found_paths(items@),
        }
    }
}

/// `e` is the entry made for path `p`: its name extracted, nothing edited,
/// planned or done yet.
pub open spec fn fresh_entry(e: FileEntry, p: Seq<char>, include_extensions: bool) -> bool {
    &&& e.original_path@ == p
    &&& name_of(p, include_extensions) == Some(e.original_name@)
    &&& e.edited_name is None
    &&& e.target_path is None
    &&& e.outcome == Outcome::Unchanged
}

/// The index of the first of `paths` that names no file.
pub open spec fn first_nameless(paths: Seq<Seq<char>>, include_extensions: bool, i: int) -> bool {
    &&& 0 <= i < paths.len()
    &&& name_of(paths[i], include_extensions) is None
    &&& forall|j: int| 0 <= j < i ==> name_of(#[trigger] paths[j], include_extensions) is Some
}

fn pattern_failed_exec(m: &PatternMatches) -> (r: bool)
    ensures
        r == pattern_failed(*m),
{
    match m {
        PatternMatches::Invalid => true,
        PatternMatches::Expanded(items) => {
            let mut k: usize = 0;
            while k < items.len()
                invariant
                    k <= items@.len(),
                    pattern_failed(*m) == has_unreadable(items@),
                    forall|j: int| 0 <= j < k ==> !(#[trigger] items@[j] is Unreadable),
                decreases items@.len() - k,
            {
                match &items[k] {
                    PathMatch::Unreadable => {
                        assert(items@[k as int] is Unreadable);
                        assert(has_unreadable(items@));
                        return true;
                    },
                    PathMatch::Found(_) => {},
                }
                k = k + 1;
            }
            false
        },
    }
}

/// Builds the entries of a run from the expansion of each selection pattern,
/// in pattern order. Fails with the positions of every failed pattern, if any
/// failed; else with the first matched path that names no file, if any.
/// Otherwise there is one entry per matched path, in order.
pub fn list_files(matches: &Vec<PatternMatches>, include_extensions: bool) -> (r: Result<
    Vec<FileEntry>,
    RenameError,
>)
    ensures
        failed_indices(matches@).len() > 0 ==> (match r {
            Err(RenameError::Pattern { indices }) => indices@ == failed_indices(matches@),
            _ => false,
        }),
        failed_indices(matches@).len() == 0 ==> (match r {
            Ok(entries) => {
                &&& entries@.len() == matched_paths(matches@).len()
                &&& forall|i: int|
                    0 <= i < entries@.len() ==> fresh_entry(
                        #[trigger] entries@[i],
                        matched_paths(matches@)[i],
                        include_extensions,
                    )
            },
            Err(RenameError::NameExtraction { path }) => exists|i: int|
                first_nameless(matched_paths(matches@), include_extensions, i) && path@
                    == matched_paths(matches@)[i],
            _ => false,
        }),
{
    let mut failed: Vec<usize> = Vec::new();
    let mut i: usize = 0;
    while i < matches.len()
        invariant
            i <= matches@.len(),
            failed@ == failed_indices(matches@.subrange(0, i as int)),
        decreases matches@.len() - i,
    {
        let f = pattern_failed_exec(&matches[i]);
        proof {
            let sub = matches@.subrange(0, i + 1);
            assert(sub.drop_last() =~= matches@.subrange(0, i as int));
        }
        if f {
            failed.push(i);
        }
        i = i + 1;
    }
    assert(matches@.subrange(0, i as int) =~= matches@);
    if failed.len() > 0 {
        return Err(RenameError::Pattern { indices: failed });
    }
    let mut entries: Vec<FileEntry> = Vec::new();
    let ghost all = matched_paths(matches@);
    let mut i: usize = 0;
    while i < matches.len()
        invariant
            i <= matches@.len(),
            all == matched_paths(matches@),
            failed_indices(matches@).len() == 0,
            entries@.len() == matched_paths(matches@.subrange(0, i as int)).len(),
            matched_paths(matches@.subrange(0, i as int)).len() <= all.len(),
            forall|j: int|
                0 <= j < matched_paths(matches@.subrange(0, i as int)).len() ==> all[j]
                    == matched_paths(matches@.subrange(0, i as int))[j],
            forall|j: int|
                0 <= j < entries@.len() ==> fresh_entry(
                    #[trigger] entries@[j],
                    all[j],
                    include_extensions,
                ),
        decreases matches@.len() - i,
    {
        proof {
            lemma_prefix_paths(matches@, i as int + 1);
        }
        let ghost done = matched_paths(matches@.subrange(0, i as int));
        proof {
            let sub = matches@.subrange(0, i + 1);
            assert(sub.drop_last() =~= matches@.subrange(0, i as int));
        }
        match &matches[i] {
            PatternMatches::Invalid => {},
            PatternMatches::Expanded(items) => {
                let mut k: usize = 0;
                while k < items.len()
                    invariant
                        k <= items@.len(),
                        all == matched_paths(matches@),
                        failed_indices(matches@).len() == 0,
                        done == matched_paths(matches@.subrange(0, i as int)),
                        done + found_paths(items@) == matched_paths(
                            matches@.subrange(0, i + 1),
                        ),
                        done.len() + found_paths(items@).len() <= all.len(),
                        forall|j: int|
                            0 <= j < done.len() + found_paths(items@).len() ==> all[j] == (done
                                + found_paths(items@))[j],
                        entries@.len() == done.len() + found_paths(
                            items@.subrange(0, k as int),
                        ).len(),
                        forall|j: int|
                            0 <= j < entries@.len() ==> fresh_entry(
                                #[trigger] entries@[j],
                                all[j],
                                include_extensions,
                            ),
                    decreases items@.len() - k,
                {
                    proof {
                        lemma_found_prefix(items@, k as int + 1);
                        let sub = items@.subrange(0, k + 1);
                        assert(sub.drop_last() =~= items@.subrange(0, k as int));
                    }
                    match &items[k] {
                        PathMatch::Found(p) => {
                            let j = entries.len();
                            assert(all[j as int] == p@) by {
                                assert(found_paths(items@.subrange(0, k + 1)).last() == p@);
                            }
                            match extract_name(p.as_str(), include_extensions) {
                                Some(name) => {
                                    entries.push(
                                        FileEntry {
                                            original_path: p.clone(),
                                            original_name: name,
                                            edited_name: None,
                                            target_path: None,
                                            outcome: Outcome::Unchanged,
                                        },
                                    );
                                },
                                None => {
                                    proof {
                                        assert forall|m: int| 0 <= m < j implies name_of(
                                            #[trigger] all[m],
                                            include_extensions,
                                        ) is Some by {
                                            assert(fresh_entry(entries@[m], all[m], include_extensions));
                                        }
                                        assert(first_nameless(all, include_extensions, j as int));
                                    }
                                    return Err(RenameError::NameExtraction { path: p.clone() });
                                },
                            }
                        },
                        PathMatch::Unreadable => {},
                    }
                    k = k + 1;
                }
                assert(items@.subrange(0, k as int) =~= items@);
            },
        }
        i = i + 1;
    }
    assert(matches@.subrange(0, i as int) =~= matches@);
    Ok(entries)
}

proof fn lemma_found_prefix(items: Seq<PathMatch>, k: int)
    requires
        0 <= k <= items.len(),
    ensures
        found_paths(items.subrange(0, k)).len() <= found_paths(items).len(),
        forall|j: int|
            0 <= j < found_paths(items.subrange(0, k)).len() ==> #[trigger] found_paths(items)[j]
                == found_paths(items.subrange(0, k))[j],
    decreases items.len() - k,
{
    if k < items.len() {
        lemma_found_prefix(items, k + 1);
        let sub = items.subrange(0, k + 1);
        assert(sub.drop_last() =~= items.subrange(0, k));
    } else {
        assert(items.subrange(0, k) =~= items);
    }
}

proof fn lemma_prefix_paths(ms: Seq<PatternMatches>, i: int)
    requires
        0 <= i <= ms.len(),
    ensures
        matched_paths(ms.subrange(0, i)).len() <= matched_paths(ms).len(),
        forall|j: int|
            0 <= j < matched_paths(ms.subrange(0, i)).len() ==> #[trigger] matched_paths(ms)[j]
                == matched_paths(ms.subrange(0, i))[j],
    decreases ms.len() - i,
{
    if i < ms.len() {
        lemma_prefix_paths(ms, i + 1);
        let sub = ms.subrange(0, i + 1);
        assert(sub.drop_last() =~= ms.subrange(0, i));
    } else {
        assert(ms.subrange(0, i) =~= ms);
    }
}

} // verus!
