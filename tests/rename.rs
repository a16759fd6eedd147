use batch_rename::codec::{decode_names, encode_names};
use batch_rename::enumerate::{list_files, FileEntry, Outcome, PathMatch, PatternMatches};
use batch_rename::error::RenameError;
use batch_rename::execute::{Action, Executor, Phase};
use batch_rename::path::{extract_name, target_path};
use batch_rename::plan::{
    buffer_content, degenerate_message, read_filenames_from_buffer, validate_filenames,
};
use batch_rename::report::summarize;

fn strings(v: &[&str]) -> Vec<String> {
    v.iter().map(|s| s.to_string()).collect()
}

fn found(paths: &[&str]) -> PatternMatches {
    PatternMatches::Expanded(paths.iter().map(|p| PathMatch::Found(p.to_string())).collect())
}

fn entries_for(paths: &[&str], include_extensions: bool) -> Vec<FileEntry> {
    list_files(&vec![found(paths)], include_extensions).unwrap()
}

fn planned(paths: &[&str], content: &str, include_extensions: bool) -> Vec<FileEntry> {
    let mut entries = entries_for(paths, include_extensions);
    read_filenames_from_buffer(content, &mut entries, include_extensions).unwrap();
    entries
}

fn targets(entries: &[FileEntry]) -> Vec<String> {
    entries.iter().map(|e| e.target_path.clone().unwrap()).collect()
}

fn outcomes(x: &Executor) -> Vec<Outcome> {
    x.entries.iter().map(|e| e.outcome).collect()
}

#[test]
fn encode_puts_each_name_on_a_line() {
    let names = strings(&["a.txt", "b c.txt"]);
    assert_eq!(encode_names(&names), "a.txt\nb c.txt\n");
}

#[test]
fn encode_of_no_names_is_empty() {
    assert_eq!(encode_names(&Vec::new()), "");
}

#[test]
fn decode_trims_and_drops_blank_lines() {
    let names = decode_names("  one.txt \n\n\t\ntwo.txt\r\nthree");
    assert_eq!(names, strings(&["one.txt", "two.txt", "three"]));
}

#[test]
fn decode_of_empty_buffer_is_empty() {
    assert!(decode_names("").is_empty());
    assert!(decode_names("\n  \n").is_empty());
}

#[test]
fn decode_after_encode_gives_names_back() {
    let names = strings(&["x.rs", "y", "été.md"]);
    assert_eq!(decode_names(&encode_names(&names)), names);
}

#[test]
fn extract_full_name_and_stem() {
    assert_eq!(extract_name("dir/report.txt", true), Some("report.txt".to_string()));
    assert_eq!(extract_name("dir/report.txt", false), Some("report".to_string()));
    assert_eq!(extract_name("a.tar.gz", false), Some("a.tar".to_string()));
    assert_eq!(extract_name("x/.bashrc", false), Some(".bashrc".to_string()));
    assert_eq!(extract_name("x/foo.", false), Some("foo".to_string()));
    assert_eq!(extract_name("README", false), Some("README".to_string()));
}

#[test]
fn extract_fails_without_a_file_name() {
    assert_eq!(extract_name("/", true), None);
    assert_eq!(extract_name("", true), None);
    assert_eq!(extract_name("a/..", false), None);
    assert_eq!(extract_name(".", true), None);
    assert_eq!(extract_name("./", true), None);
    assert_eq!(extract_name("/.", true), None);
    assert_eq!(extract_name("//", true), None);
}

#[test]
fn trailing_separators_and_dots_are_set_aside() {
    assert_eq!(extract_name("a/b/", true), Some("b".to_string()));
    assert_eq!(extract_name("a/.", true), Some("a".to_string()));
    assert_eq!(extract_name("x/a.txt/./", false), Some("a".to_string()));
    assert_eq!(target_path("a/b/", "c", true), "a/c");
    assert_eq!(target_path("a/.", "c", true), "c");
    assert_eq!(target_path("d/a.txt/", "b", false), "d/b.txt");
}

#[test]
fn name_without_trailing_separator_is_a_noop() {
    let entries = planned(&["d/a.txt/", "e/."], "a.txt
e
", true);
    assert_eq!(targets(&entries), strings(&["d/a.txt", "e"]));
    let mut x = Executor::new(entries, false);
    assert!(matches!(x.start(), Action::Report));
    assert_eq!(outcomes(&x), vec![Outcome::NoopUnchanged, Outcome::NoopUnchanged]);
}

#[test]
fn extension_is_put_back_on_the_edited_stem() {
    assert_eq!(target_path("a/report.txt", "summary", false), "a/summary.txt");
    assert_eq!(target_path("a/report.txt", "summary", true), "a/summary");
    assert_eq!(target_path("a/README", "NOTES", false), "a/NOTES");
    assert_eq!(target_path("report.txt", "new.md", true), "new.md");
}

#[test]
fn entries_follow_pattern_and_match_order() {
    let matches = vec![found(&["b/2.txt", "b/1.txt"]), found(&[]), found(&["a.md"])];
    let entries = list_files(&matches, false).unwrap();
    let paths: Vec<String> = entries.iter().map(|e| e.original_path.clone()).collect();
    let names: Vec<String> = entries.iter().map(|e| e.original_name.clone()).collect();
    assert_eq!(paths, strings(&["b/2.txt", "b/1.txt", "a.md"]));
    assert_eq!(names, strings(&["2", "1", "a"]));
    assert!(entries.iter().all(|e| e.outcome == Outcome::Unchanged && e.target_path.is_none()));
}

#[test]
fn two_invalid_patterns_give_one_error() {
    let matches = vec![PatternMatches::Invalid, found(&["a.txt"]), PatternMatches::Invalid];
    match list_files(&matches, true) {
        Err(e) => {
            assert!(matches!(&e, RenameError::Pattern { indices } if indices == &vec![0, 2]));
            assert_eq!(e.message(), "Unable to create search pattern from arguments #0 and #2.");
        }
        Ok(_) => panic!("patterns 0 and 2 are invalid"),
    }
}

#[test]
fn one_invalid_pattern_is_named_alone() {
    let matches = vec![found(&["a.txt"]), PatternMatches::Invalid];
    let e = list_files(&matches, true).unwrap_err();
    assert_eq!(e.message(), "Unable to create search pattern from argument #1.");
}

#[test]
fn unreadable_match_fails_its_pattern_once() {
    let bad = PatternMatches::Expanded(vec![PathMatch::Unreadable, PathMatch::Unreadable]);
    let matches = vec![PatternMatches::Invalid, found(&["a"]), bad, PatternMatches::Invalid];
    let e = list_files(&matches, true).unwrap_err();
    assert_eq!(e.message(), "Unable to create search pattern from arguments #0, #2 and #3.");
}

#[test]
fn pattern_errors_come_before_name_errors() {
    let matches = vec![found(&["/"]), PatternMatches::Invalid];
    assert!(matches!(list_files(&matches, true), Err(RenameError::Pattern { .. })));
}

#[test]
fn path_without_name_fails_extraction() {
    let matches = vec![found(&["ok.txt", "/", "x/.."])];
    match list_files(&matches, true) {
        Err(RenameError::NameExtraction { path }) => assert_eq!(path, "/"),
        other => panic!("unexpected result {:?}", other),
    }
}

#[test]
fn no_match_is_a_quiet_success() {
    let entries = list_files(&vec![found(&[])], true).unwrap();
    assert!(entries.is_empty());
    assert_eq!(buffer_content(&entries), "");
    assert_eq!(degenerate_message(1, &entries), Some("No files matched pattern.".to_string()));
    assert_eq!(
        degenerate_message(2, &entries),
        Some("No files matched any patterns.".to_string())
    );
}

#[test]
fn matched_files_are_not_degenerate() {
    let entries = entries_for(&["a"], true);
    assert_eq!(degenerate_message(1, &entries), None);
}

#[test]
fn buffer_holds_one_line_per_entry() {
    let entries = entries_for(&["d/a.txt", "d/b.txt", "c"], false);
    let content = buffer_content(&entries);
    assert_eq!(content, "a\nb\nc\n");
    assert_eq!(content.lines().count(), entries.len());
}

#[test]
fn count_mismatch_is_refused() {
    let mut entries = entries_for(&["a", "b"], true);
    let e = read_filenames_from_buffer("x\n", &mut entries, true).unwrap_err();
    assert!(matches!(e, RenameError::TooFewNames { actual: 1, expected: 2 }));
    assert_eq!(e.message(), "Not enough filenames in text file after edit (1 instead of 2).");
    assert!(entries.iter().all(|e| e.target_path.is_none()));
    let e = read_filenames_from_buffer("x\ny\n\nz\n", &mut entries, true).unwrap_err();
    assert!(matches!(e, RenameError::TooManyNames { actual: 3, expected: 2 }));
    assert_eq!(e.message(), "Too many filenames in text file after edit (3 instead of 2).");
}

#[test]
fn validate_counts() {
    let names = strings(&["a", "b"]);
    assert!(validate_filenames(2, &names).is_ok());
    assert!(matches!(
        validate_filenames(3, &names),
        Err(RenameError::TooFewNames { actual: 2, expected: 3 })
    ));
    assert!(matches!(
        validate_filenames(1, &names),
        Err(RenameError::TooManyNames { actual: 2, expected: 1 })
    ));
}

#[test]
fn swapped_lines_swap_names_by_position() {
    let entries = planned(&["d/a.txt", "d/b.txt"], "b.txt\na.txt\n", true);
    assert_eq!(targets(&entries), strings(&["d/b.txt", "d/a.txt"]));
    assert_eq!(entries[0].edited_name, Some("b.txt".to_string()));
    assert_eq!(entries[0].original_path, "d/a.txt");
}

#[test]
fn unedited_buffer_plans_only_noops() {
    for with_ext in [true, false] {
        let mut entries = entries_for(&["d/a.txt", "e/.rc", "f", "g/x.tar.gz"], with_ext);
        let content = buffer_content(&entries);
        read_filenames_from_buffer(&content, &mut entries, with_ext).unwrap();
        let originals: Vec<String> = entries.iter().map(|e| e.original_path.clone()).collect();
        assert_eq!(targets(&entries), originals);
        let mut x = Executor::new(entries, false);
        assert!(matches!(x.start(), Action::Report));
        assert_eq!(x.phase, Phase::Finished);
        assert!(outcomes(&x).iter().all(|o| *o == Outcome::NoopUnchanged));
    }
}

#[test]
fn edited_stem_keeps_the_extension() {
    let entries = planned(&["a/report.txt"], "summary\n", false);
    assert_eq!(targets(&entries), strings(&["a/summary.txt"]));
}

#[test]
fn renames_proceed_in_index_order() {
    let entries = planned(&["a", "b", "c"], "a2\nb\nc2\n", true);
    let mut x = Executor::new(entries, false);
    assert!(matches!(x.start(), Action::Probe { index: 0 }));
    assert!(matches!(x.on_probe(false), Action::Rename { index: 0 }));
    assert!(matches!(x.on_rename(true), Action::Probe { index: 2 }));
    assert_eq!(outcomes(&x), vec![Outcome::Renamed, Outcome::NoopUnchanged, Outcome::Unchanged]);
    assert!(matches!(x.on_probe(false), Action::Rename { index: 2 }));
    assert!(matches!(x.on_rename(true), Action::Report));
    assert_eq!(outcomes(&x), vec![Outcome::Renamed, Outcome::NoopUnchanged, Outcome::Renamed]);
    let s = summarize(&x.entries);
    assert_eq!((s.renamed, s.noop, s.unchanged), (2, 1, 0));
}

#[test]
fn existing_target_aborts_without_renaming() {
    let entries = planned(&["a", "b"], "x\ny\n", true);
    let mut x = Executor::new(entries, false);
    assert!(matches!(x.start(), Action::Probe { index: 0 }));
    match x.on_probe(true) {
        Action::Abort(e) => {
            assert!(matches!(e, RenameError::UnsafeRename { index: 0 }));
            assert_eq!(e.message(), "file renaming was not safe");
        }
        other => panic!("unexpected action {:?}", other),
    }
    assert_eq!(x.phase, Phase::Failed);
    assert_eq!(outcomes(&x), vec![Outcome::Unchanged, Outcome::Unchanged]);
}

#[test]
fn failed_rename_keeps_earlier_renames() {
    let entries = planned(&["a", "b"], "x\ny\n", true);
    let mut x = Executor::new(entries, false);
    x.start();
    x.on_probe(false);
    assert!(matches!(x.on_rename(true), Action::Probe { index: 1 }));
    x.on_probe(false);
    assert!(matches!(x.on_rename(false), Action::Abort(RenameError::UnsafeRename { index: 1 })));
    assert_eq!(outcomes(&x), vec![Outcome::Renamed, Outcome::Unchanged]);
    let s = summarize(&x.entries);
    assert_eq!((s.renamed, s.noop, s.unchanged), (1, 0, 1));
}

#[test]
fn dry_run_only_shows_the_plan() {
    let entries = planned(&["a", "b"], "b\na\n", true);
    let mut x = Executor::new(entries, true);
    assert!(matches!(x.start(), Action::ShowPlan));
    assert_eq!(x.phase, Phase::Finished);
    assert_eq!(outcomes(&x), vec![Outcome::Unchanged, Outcome::Unchanged]);
}

#[test]
fn error_messages() {
    assert_eq!(RenameError::BufferWrite.message(), "Unable to open buffer file for writing.");
    assert_eq!(RenameError::BufferFill.message(), "Unable to write filenames to buffer file.");
    assert_eq!(RenameError::UnsafeRename { index: 3 }.message(), "file renaming was not safe");
    assert_eq!(RenameError::BufferRead.message(), "Unable to read filenames from buffer file.");
    let e = RenameError::NameExtraction { path: "/".to_string() };
    assert_eq!(e.message(), "Unable to get file name out of path.");
    let e = RenameError::Pattern { indices: vec![10, 205] };
    assert_eq!(e.message(), "Unable to create search pattern from arguments #10 and #205.");
    let e = RenameError::TooFewNames { actual: 0, expected: 1234567 };
    assert_eq!(e.message(), "Not enough filenames in text file after edit (0 instead of 1234567).");
}

#[test]
fn summary_of_fresh_entries() {
    let entries = entries_for(&["a", "b", "c"], true);
    let s = summarize(&entries);
    assert_eq!((s.renamed, s.noop, s.unchanged), (0, 0, 3));
}
