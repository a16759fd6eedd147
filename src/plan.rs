//! From entries to the buffer and back: the names written for editing, the
//! check of the edited names, and the target path of each entry.
use vstd::prelude::*;
use crate::codec::{
    all_clean, all_newline_free, decode_names, edited_names, encode_names, encoded,
    lemma_pieces_of_encoded, lemma_unedited_round_trip, pieces,
};
use crate::enumerate::fresh_entry;
use crate::execute::is_noop;
use crate::path::{base, lemma_unchanged_name_keeps_path};
use crate::enumerate::FileEntry;
use crate::error::RenameError;
use crate::path::{target_for, target_path};
use crate::text::{push_str, string_of, views};

verus! {

/// The editable names of the entries, in order.
pub open spec fn names_of(entries: Seq<FileEntry>) -> Seq<Seq<char>> {
    entries.map_values(|e: FileEntry| e.original_name@)
}

/// `e` is `old` with the edited name `name` and the target path formed from it.
pub open spec fn planned_entry(
    e: FileEntry,
    old: FileEntry,
    name: Seq<char>,
    include_extensions: bool,
) -> bool {
    &&& e.original_path@ == old.original_path@
    &&& e.original_name@ == old.original_name@
    &&& e.outcome == old.outcome
    &&& e.edited_name is Some && e.edited_name->Some_0@ == name
    &&& e.target_path is Some && e.target_path->Some_0@ == target_for(
        old.original_path@,
        name,
        include_extensions,
    )
}

/// The buffer written for the entries holds one line per entry: the pieces
/// between its line breaks are the entries' names in entry order, and nothing
/// follows the last line break. This holds where no name holds a line break.
pub proof fn lemma_one_line_per_entry(entries: Seq<FileEntry>)
    requires
        all_newline_free(names_of(entries)),
    ensures
        pieces(encoded(names_of(entries))).len() == entries.len() + 1,
        forall|i: int|
            0 <= i < entries.len() ==> pieces(encoded(names_of(entries)))[i]
                == (#[trigger] entries[i]).original_name@,
        pieces(encoded(names_of(entries))).last().len() == 0,
{
    lemma_pieces_of_encoded(names_of(entries));
}

/// Reading back the unedited buffer of freshly enumerated entries gives each
/// entry its own name, and a target path equal to its original path (without
/// trailing separators and `.` components): every entry is a no-op. This holds where each name is non-empty, holds no line
/// break and has no white space at either end.
pub proof fn lemma_unedited_buffer_plans_noops(
    entries: Seq<FileEntry>,
    paths: Seq<Seq<char>>,
    include_extensions: bool,
)
    requires
        entries.len() == paths.len(),
        forall|i: int|
            0 <= i < entries.len() ==> fresh_entry(#[trigger] entries[i], paths[i], include_extensions),
        all_clean(names_of(entries)),
    ensures
        edited_names(encoded(names_of(entries))) == names_of(entries),
        forall|i: int|
            0 <= i < entries.len() ==> target_for(
                #[trigger] paths[i],
                edited_names(encoded(names_of(entries)))[i],
                include_extensions,
            ) == base(paths[i]),
        forall|e: FileEntry, i: int|
            0 <= i < entries.len() && #[trigger] planned_entry(
                e,
                entries[i],
                edited_names(encoded(names_of(entries)))[i],
                include_extensions,
            ) ==> is_noop(e),
{
    lemma_unedited_round_trip(names_of(entries));
    assert forall|i: int| 0 <= i < entries.len() implies target_for(
        #[trigger] paths[i],
        edited_names(encoded(names_of(entries)))[i],
        include_extensions,
    ) == base(paths[i]) by {
        assert(fresh_entry(entries[i], paths[i], include_extensions));
        lemma_unchanged_name_keeps_path(paths[i], include_extensions);
    }
    assert forall|e: FileEntry, i: int|
        0 <= i < entries.len() && #[trigger] planned_entry(
            e,
            entries[i],
            edited_names(encoded(names_of(entries)))[i],
            include_extensions,
        ) implies is_noop(e) by {
        assert(fresh_entry(entries[i], paths[i], include_extensions));
        lemma_unchanged_name_keeps_path(paths[i], include_extensions);
    }
}

/// The buffer to hand out for editing: the name of each entry on a line of
/// its own, in entry order, each line ended by a line break.
pub fn buffer_content(entries: &Vec<FileEntry>) -> (r: String)
    ensures
        r@ == encoded(names_of(entries@)),
{
    let mut names: Vec<String> = Vec::new();
    let mut i: usize = 0;
    while i < entries.len()
        invariant
            i <= entries@.len(),
            views(names@) == names_of(entries@.subrange(0, i as int)),
        decreases entries@.len() - i,
    {
        let ghost before = names@;
        names.push(entries[i].original_name.clone());
        proof {
            assert(names@ == before.push(entries@[i as int].original_name));
            assert(views(names@) =~= views(before).push(entries@[i as int].original_name@));
            assert(names_of(entries@.subrange(0, i + 1)) =~= names_of(
                entries@.subrange(0, i as int),
            ).push(entries@[i as int].original_name@));
        }
        i = i + 1;
    }
    assert(entries@.subrange(0, i as int) =~= entries@);
    encode_names(&names)
}

/// Checks that the edited buffer holds exactly one name per entry.
pub fn validate_filenames(expected_count: usize, names: &Vec<String>) -> (r: Result<(), RenameError>)
    ensures
        names@.len() < expected_count ==> r == Err::<(), RenameError>(
            RenameError::TooFewNames { actual: names@.len() as usize, expected: expected_count },
        ),
        names@.len() > expected_count ==> r == Err::<(), RenameError>(
            RenameError::TooManyNames { actual: names@.len() as usize, expected: expected_count },
        ),
        names@.len() == expected_count ==> r is Ok,
{
    let n = names.len();
    if n < expected_count {
        Err(RenameError::TooFewNames { actual: n, expected: expected_count })
    } else if n > expected_count {
        Err(RenameError::TooManyNames { actual: n, expected: expected_count })
    } else {
        Ok(())
    }
}

/// Reads the edited buffer `content` back into the entries: the name on the
/// i-th non-blank line goes to the i-th entry, whatever its text, and the
/// entry's target path is formed from it. Fails, changing nothing, where the
/// number of names differs from the number of entries.
pub fn read_filenames_from_buffer(
    content: &str,
    entries: &mut Vec<FileEntry>,
    include_extensions: bool,
) -> (r: Result<(), RenameError>)
    ensures
        edited_names(content@).len() < old(entries)@.len() ==> r == Err::<(), RenameError>(
            RenameError::TooFewNames {
                actual: edited_names(content@).len() as usize,
                expected: old(entries)@.len() as usize,
            },
        ),
        edited_names(content@).len() > old(entries)@.len() ==> r == Err::<(), RenameError>(
            RenameError::TooManyNames {
                actual: edited_names(content@).len() as usize,
                expected: old(entries)@.len() as usize,
            },
        ),
        r is Err ==> final(entries)@ == old(entries)@,
        edited_names(content@).len() == old(entries)@.len() ==> {
            &&& r is Ok
            &&& final(entries)@.len() == old(entries)@.len()
            &&& forall|i: int|
                0 <= i < old(entries)@.len() ==> planned_entry(
                    #[trigger] final(entries)@[i],
                    old(entries)@[i],
                    edited_names(content@)[i],
                    include_extensions,
                )
        },
{
    let names = decode_names(content);
    match validate_filenames(entries.len(), &names) {
        Err(e) => {
            return Err(e);
        },
        Ok(()) => {},
    }
    let ghost start = entries@;
    let mut i: usize = 0;
    while i < entries.len()
        invariant
            names@.len() == start.len() == entries@.len(),
            views(names@) == edited_names(content@),
            i <= entries@.len(),
            forall|j: int|
                0 <= j < i ==> planned_entry(
                    #[trigger] entries@[j],
                    start[j],
                    edited_names(content@)[j],
                    include_extensions,
                ),
            forall|j: int| i <= j < entries@.len() ==> #[trigger] entries@[j] == start[j],
        decreases entries@.len() - i,
    {
        let target = target_path(entries[i].original_path.as_str(), names[i].as_str(), include_extensions);
        let edited = names[i].clone();
        assert(views(names@)[i as int] == names@[i as int]@);
        entries[i].edited_name = Some(edited);
        entries[i].target_path = Some(target);
        i = i + 1;
    }
    Ok(())
}

/// The message for a run whose patterns matched no file; none where some
/// file matched.
pub fn degenerate_message(pattern_count: usize, entries: &Vec<FileEntry>) -> (r: Option<String>)
    ensures
        entries@.len() > 0 ==> r is None,
        entries@.len() == 0 && pattern_count == 1 ==> r is Some && r->Some_0@
            == "No files matched pattern."@,
        entries@.len() == 0 && pattern_count != 1 ==> r is Some && r->Some_0@
            == "No files matched any patterns."@,
{
    if entries.len() > 0 {
        return None;
    }
    let mut out: Vec<char> = Vec::new();
    if pattern_count == 1 {
        push_str(&mut out, "No files matched pattern.");
    } else {
        push_str(&mut out, "No files matched any patterns.");
    }
    assert(out@ =~= Seq::<char>::empty() + out@);
    Some(string_of(out.as_slice()))
}

} // verus!
