use funiq::{collect_paths, fingerprint, partition, pluralize, process_files, Error, Fingerprinter};

const ORIGINAL_A: &[u8] = b"original a\n";
const ORIGINAL_B: &[u8] = b"original b\n";
const ORIGINAL_C: &[u8] = b"original c\n";

fn strings(items: &[&str]) -> Vec<String> {
    items.iter().map(|s| s.to_string()).collect()
}

fn outcomes(contents: &[&[u8]]) -> Vec<Result<u64, String>> {
    contents.iter().map(|c| Ok(fingerprint(c))).collect()
}

#[test]
fn test_pluralize() {
    assert_eq!(pluralize(1, "file", "files"), "file");
    assert_eq!(pluralize(2, "file", "files"), "files");
}

#[test]
fn pluralize_zero_is_plural() {
    assert_eq!(pluralize(0, "duplicate", "duplicates"), "duplicates");
}

#[test]
fn finds_unique_files() {
    let files = strings(&[
        "./tests/fixtures/original_a.txt",
        "./tests/fixtures/original_b.txt",
        "./tests/fixtures/duplicate_a.txt",
    ]);
    let (unique, duplicate) =
        process_files(files, outcomes(&[ORIGINAL_A, ORIGINAL_B, ORIGINAL_A])).unwrap();

    assert_eq!(unique.len(), 2);
    assert_eq!(duplicate.len(), 1);

    let files = strings(&[
        "./tests/fixtures/original_a.txt",
        "./tests/fixtures/original_b.txt",
        "./tests/fixtures/original_c.txt",
    ]);
    let (unique, duplicate) =
        process_files(files, outcomes(&[ORIGINAL_A, ORIGINAL_B, ORIGINAL_C])).unwrap();

    assert_eq!(unique.len(), 3);
    assert_eq!(duplicate.len(), 0);
}

#[test]
fn should_fail() {
    let files = strings(&[
        "./tests/fixtures/original_a.txt",
        "./tests/fixtures/original_b.txt",
        "./tests/fixtures/duplicate_a.txt",
        "./tests/fixtures/does_not_exist.txt",
    ]);
    let mut results = outcomes(&[ORIGINAL_A, ORIGINAL_B, ORIGINAL_A]);
    results.push(Err("No such file or directory (os error 2)".to_string()));
    let result = process_files(files, results);

    assert!(result.is_err());
}

#[test]
fn scenario_first_occurrence_is_unique() {
    let files = strings(&["a.txt", "b.txt", "c.txt"]);
    let (unique, duplicate) =
        process_files(files, outcomes(&[ORIGINAL_A, ORIGINAL_B, ORIGINAL_A])).unwrap();
    assert_eq!(unique, strings(&["a.txt", "b.txt"]));
    assert_eq!(duplicate, strings(&["c.txt"]));
}

#[test]
fn scenario_all_distinct() {
    let files = strings(&["a.txt", "b.txt", "c.txt"]);
    let (unique, duplicate) =
        process_files(files, outcomes(&[ORIGINAL_A, ORIGINAL_B, ORIGINAL_C])).unwrap();
    assert_eq!(unique, strings(&["a.txt", "b.txt", "c.txt"]));
    assert!(duplicate.is_empty());
}

#[test]
fn scenario_missing_file_names_it() {
    let files = strings(&["a.txt", "missing.txt", "c.txt"]);
    let results = vec![
        Ok(fingerprint(ORIGINAL_A)),
        Err("not found".to_string()),
        Err("permission denied".to_string()),
    ];
    let err = process_files(files, results).err().unwrap();
    assert_eq!(err.path, Some("missing.txt".to_string()));
    assert_eq!(err.message(), "missing.txt: not found");
}

#[test]
fn counts_add_up() {
    let files = strings(&["1", "2", "3", "4", "5", "6"]);
    let contents: &[&[u8]] = &[ORIGINAL_A, ORIGINAL_B, ORIGINAL_A, ORIGINAL_C, ORIGINAL_B, ORIGINAL_A];
    let (unique, duplicate) = process_files(files, outcomes(contents)).unwrap();
    assert_eq!(unique.len() + duplicate.len(), 6);
    assert_eq!(unique, strings(&["1", "2", "4"]));
    assert_eq!(duplicate, strings(&["3", "5", "6"]));
}

#[test]
fn repeated_runs_agree() {
    let files = strings(&["a", "b", "c", "d"]);
    let contents: &[&[u8]] = &[ORIGINAL_B, ORIGINAL_B, ORIGINAL_C, ORIGINAL_C];
    let first = process_files(files.clone(), outcomes(contents)).unwrap();
    let second = process_files(files, outcomes(contents)).unwrap();
    assert_eq!(first, second);
}

#[test]
fn empty_path_list() {
    let (unique, duplicate) = process_files(Vec::new(), Vec::new()).unwrap();
    assert!(unique.is_empty());
    assert!(duplicate.is_empty());
}

#[test]
fn empty_files_are_duplicates_of_each_other() {
    let files = strings(&["x", "y"]);
    let (unique, duplicate) = process_files(files, outcomes(&[b"" as &[u8], b""])).unwrap();
    assert_eq!(unique, strings(&["x"]));
    assert_eq!(duplicate, strings(&["y"]));
}

#[test]
fn partition_by_fingerprint() {
    let (unique, duplicate) = partition(strings(&["p", "q", "r", "s"]), vec![7, 7, 9, 7]);
    assert_eq!(unique, strings(&["p", "r"]));
    assert_eq!(duplicate, strings(&["q", "s"]));
}

#[test]
fn fingerprint_distinguishes_contents() {
    assert_eq!(fingerprint(ORIGINAL_A), fingerprint(b"original a\n"));
    assert_ne!(fingerprint(ORIGINAL_A), fingerprint(ORIGINAL_B));
    assert_ne!(fingerprint(b"ab"), fingerprint(b"ba"));
}

#[test]
fn chunked_fingerprint_matches_whole() {
    let mut f = Fingerprinter::new();
    f.update(b"orig");
    f.update(b"");
    f.update(b"inal a\n");
    assert_eq!(f.finish(), fingerprint(ORIGINAL_A));
}

#[test]
fn error_message_forms() {
    let with_path = Error::for_path("f.txt".to_string(), "denied".to_string());
    assert_eq!(with_path.message(), "f.txt: denied");
    let general = Error::general("pool failed".to_string());
    assert_eq!(general.message(), "pool failed");
}

#[test]
fn collect_paths_drops_every_repeat() {
    let merged = collect_paths(strings(&["a", "a", "b"]), strings(&["b", "c", "a"]));
    assert_eq!(merged, strings(&["a", "b", "c"]));
    assert!(collect_paths(Vec::new(), Vec::new()).is_empty());
}

#[test]
fn path_named_twice_is_not_its_own_duplicate() {
    let files = collect_paths(Vec::new(), strings(&["a.txt", "b.txt", "a.txt"]));
    assert_eq!(files, strings(&["a.txt", "b.txt"]));
    let (unique, duplicate) = process_files(files, outcomes(&[ORIGINAL_A, ORIGINAL_B])).unwrap();
    assert_eq!(unique, strings(&["a.txt", "b.txt"]));
    assert!(duplicate.is_empty());
}
