use archtrim::discovery::{
    bundle_name, choose_executable, find_candidates, is_executable, Executable, FileStat, Listed,
    Scan, ScanProgress, APPLICATIONS_DIR, BUNDLE_SUFFIX, CONTENTS_DIR, MACOS_DIR,
};
use archtrim::scanner::{extract_architectures, AppInfo, Extraction};

#[test]
fn bundle_names_end_with_the_suffix() {
    assert_eq!(bundle_name("Safari.app"), Some("Safari".to_string()));
    assert_eq!(bundle_name("Beekeeper Studio.app"), Some("Beekeeper Studio".to_string()));
    assert_eq!(bundle_name("a.b.app"), Some("a.b".to_string()));
    assert_eq!(bundle_name("Safari"), None);
    assert_eq!(bundle_name("Safari.app.zip"), None);
    assert_eq!(bundle_name("Safari.APP"), None);
    assert_eq!(bundle_name("app"), None);
    assert_eq!(bundle_name(""), None);
    assert_eq!(bundle_name(".app"), Some(String::new()));
}

#[test]
fn fixed_places() {
    assert_eq!(APPLICATIONS_DIR, "/Applications");
    assert_eq!(BUNDLE_SUFFIX, ".app");
    assert_eq!(CONTENTS_DIR, "Contents");
    assert_eq!(MACOS_DIR, "MacOS");
}

#[test]
fn any_execute_bit_makes_a_file_executable() {
    assert!(is_executable(0o755));
    assert!(is_executable(0o100));
    assert!(is_executable(0o010));
    assert!(is_executable(0o001));
    assert!(is_executable(0o100644 | 0o001));
    assert!(!is_executable(0o644));
    assert!(!is_executable(0o100644));
    assert!(!is_executable(0));
}

#[test]
fn named_executable_is_preferred() {
    let files = vec![FileStat { is_file: true, mode: 0o755 }];
    assert_eq!(choose_executable(true, true, &files), Some(Executable::Named));
    assert_eq!(choose_executable(true, true, &Vec::new()), Some(Executable::Named));
}

#[test]
fn first_executable_file_stands_in_for_the_named_one() {
    let files = vec![
        FileStat { is_file: true, mode: 0o644 },
        FileStat { is_file: false, mode: 0o755 },
        FileStat { is_file: true, mode: 0o700 },
        FileStat { is_file: true, mode: 0o755 },
    ];
    assert_eq!(choose_executable(true, false, &files), Some(Executable::Listed(2)));
}

#[test]
fn bundle_without_executable_is_left_out() {
    let files = vec![FileStat { is_file: true, mode: 0o644 }, FileStat { is_file: false, mode: 0o755 }];
    assert_eq!(choose_executable(true, false, &files), None);
    assert_eq!(choose_executable(true, false, &Vec::new()), None);
}

#[test]
fn bundle_without_directory_of_executables_is_left_out() {
    let files = vec![FileStat { is_file: true, mode: 0o755 }];
    assert_eq!(choose_executable(false, true, &files), None);
    assert_eq!(choose_executable(false, false, &files), None);
}

fn listing(entries: &[(&str, bool)]) -> Vec<Listed> {
    entries.iter().map(|(name, is_dir)| Listed { name: name.to_string(), is_dir: *is_dir }).collect()
}

#[test]
fn candidates_are_the_directories_with_a_bundle_name() {
    let found = find_candidates(&listing(&[
        ("Notes.txt", false),
        ("A.app", true),
        ("B.app", true),
        ("folder", true),
        ("C.app", true),
        ("D.app", false),
    ]));
    let got: Vec<(usize, &str)> = found.iter().map(|c| (c.position, c.name.as_str())).collect();
    assert_eq!(got, vec![(1, "A"), (2, "B"), (4, "C")]);
    assert!(find_candidates(&Vec::new()).is_empty());
}

#[test]
fn progress_numbers_the_candidates() {
    let mut scan = Scan::new(&listing(&[("Notes.txt", false), ("Only.app", true)]));
    let first = scan.next().unwrap();
    assert_eq!(first.progress, ScanProgress { completed: 1, total: 1 });
    assert_eq!(first.name, "Only");
    assert_eq!(first.position, 1);
    assert!(scan.next().is_none());
}

#[test]
fn progress_counts_every_candidate_once_and_never_recedes() {
    let mut scan = Scan::new(&listing(&[
        ("Notes.txt", false),
        ("A.app", true),
        ("B.app", true),
        ("folder", true),
        ("C.app", true),
        ("D.app", false),
    ]));
    assert_eq!(scan.progress(), ScanProgress { completed: 0, total: 3 });
    let mut reports = Vec::new();
    let mut last = 0;
    while let Some(s) = scan.next() {
        let now = scan.progress();
        assert!(now.completed >= last);
        assert!(now.completed <= now.total);
        assert_eq!(now.total, 3);
        assert_eq!(s.progress, now);
        last = now.completed;
        reports.push((s.progress.completed, s.progress.total, s.name, s.position));
    }
    assert_eq!(
        reports,
        vec![(1, 3, "A".to_string(), 1), (2, 3, "B".to_string(), 2), (3, 3, "C".to_string(), 4)]
    );
    assert!(scan.next().is_none());
    assert_eq!(scan.progress(), ScanProgress { completed: 3, total: 3 });
}

#[test]
fn scan_of_an_empty_directory() {
    let mut scan = Scan::new(&Vec::new());
    assert!(scan.next().is_none());
    assert_eq!(scan.progress(), ScanProgress { completed: 0, total: 0 });
    assert!(scan.finish().is_empty());
    let mut none = Scan::new(&listing(&[("Notes.txt", false), ("folder", true), ("File.app", false)]));
    assert_eq!(none.progress(), ScanProgress { completed: 0, total: 0 });
    assert!(none.next().is_none());
}

fn examine(name: &str, stdout: &str, stderr: &str, success: bool) -> Option<AppInfo> {
    match extract_architectures(stdout, stderr, success) {
        Extraction::Slices(slices) => Some(AppInfo::new(
            name.to_string(),
            format!("/Applications/{}.app", name),
            format!("/Applications/{}.app/Contents/MacOS/{}", name, name),
            slices,
        )),
        _ => None,
    }
}

#[test]
fn scan_keeps_bundles_with_the_required_architecture() {
    let mut scan = Scan::new(&listing(&[("A.app", true), ("readme", false), ("B.app", true), ("C.app", true)]));
    let a = scan.next().unwrap();
    assert_eq!((a.progress.completed, a.progress.total), (1, 3));
    let found = examine(
        &a.name,
        "architecture x86_64\n    size 9228032\narchitecture arm64\n    size 8804432\n",
        "",
        true,
    );
    scan.record(found.unwrap());
    let b = scan.next().unwrap();
    assert_eq!((b.progress.completed, b.progress.total), (2, 3));
    let found = examine(&b.name, "", "Non-fat file: /Applications/B.app/Contents/MacOS/B is architecture: arm64", false);
    scan.record(found.unwrap());
    let c = scan.next().unwrap();
    assert_eq!((c.progress.completed, c.progress.total), (3, 3));
    assert!(examine(&c.name, "", "can't open input file", false).is_none());

    let list = scan.finish();
    assert_eq!(list.len(), 2);
    assert_eq!(list[0].name, "A");
    assert_eq!(list[1].name, "B");
    assert!(list[0].has_arm64() && list[1].has_arm64());
    assert!(list[0].has_x86_64());
    assert!(!list[1].has_x86_64());
    assert_eq!(list[0].architectures[0].size_bytes, Some(9228032));
    assert_eq!(list[0].architectures[1].size_bytes, Some(8804432));
    assert_eq!(list[1].architectures[0].size_bytes, None);
    assert!(!list[0].selected && !list[1].selected);
}

#[test]
fn scan_drops_bundles_without_the_required_architecture_and_sorts_by_name() {
    let reports = [
        "architecture arm64\n size 1\n",
        "architecture x86_64\n size 2\n",
        "architecture arm64e\n size 3\n",
        "architecture x86_64\n size 4\narchitecture arm64\n size 5\n",
    ];
    let mut scan = Scan::new(&listing(&[
        ("Zulu.app", true),
        ("Intel.app", true),
        ("alpha.app", true),
        ("Bravo.app", true),
    ]));
    while let Some(s) = scan.next() {
        scan.record(examine(&s.name, reports[s.position], "", true).unwrap());
    }
    let list = scan.finish();
    assert!(list.iter().all(|a| a.has_arm64()));
    let names: Vec<&str> = list.iter().map(|a| a.name.as_str()).collect();
    assert_eq!(names, vec!["Bravo", "Zulu", "alpha"]);
}
