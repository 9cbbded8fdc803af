use archtrim::scanner::{
    architecture_from_listing, extract_architectures, extract_single_architecture,
    parse_architecture_from_stderr, parse_lipo_output, AppInfo, ArchInfo, Extraction,
};

#[test]
fn test_parse_lipo_output() {
    let output = r#"Fat header in: /Applications/NotchNook.app/Contents/MacOS/NotchNook
fat_magic 0xcafebabe
nfat_arch 2
architecture x86_64
    cputype CPU_TYPE_X86_64
    cpusubtype CPU_SUBTYPE_X86_64_ALL
    capabilities 0x0
    offset 16384
    size 9228032
    align 2^14 (16384)
architecture arm64
    cputype CPU_TYPE_ARM64
    cpusubtype CPU_SUBTYPE_ARM64_ALL
    capabilities 0x0
    offset 9256960
    size 8804432
    align 2^14 (16384)"#;

    let archs = parse_lipo_output(output).unwrap();
    assert_eq!(archs.len(), 2);
    assert_eq!(archs[0].cpu_type, "x86_64");
    assert_eq!(archs[0].size_bytes, Some(9228032));
    assert_eq!(archs[1].cpu_type, "arm64");
    assert_eq!(archs[1].size_bytes, Some(8804432));
}

#[test]
fn test_parse_lipo_output_single_arch() {
    let output = "Non-fat file: /path/to/binary is architecture: arm64";

    assert!(parse_lipo_output(output).is_none());
}

#[test]
fn test_parse_architecture_from_stderr() {
    let stderr = "input file /Applications/Beekeeper Studio.app/Contents/MacOS/Beekeeper Studio is not a fat file\nNon-fat file: /Applications/Beekeeper Studio.app/Contents/MacOS/Beekeeper Studio is architecture: arm64";

    let arch = parse_architecture_from_stderr(stderr).unwrap();
    assert_eq!(arch, "arm64");
}

#[test]
fn test_parse_architecture_from_stderr_x86() {
    let stderr = "input file /Applications/Dia.app/Contents/MacOS/Dia is not a fat file\nNon-fat file: /Applications/Dia.app/Contents/MacOS/Dia is architecture: x86_64";

    let arch = parse_architecture_from_stderr(stderr).unwrap();
    assert_eq!(arch, "x86_64");
}

#[test]
fn test_parse_lipo_output_fat_binary() {
    let output = r#"Fat header in: /Applications/WezTerm.app/Contents/MacOS/wezterm-gui
fat_magic 0xcafebabe
nfat_arch 2
architecture x86_64
    cputype CPU_TYPE_X86_64
    cpusubtype CPU_SUBTYPE_X86_64_ALL
architecture arm64
    cputype CPU_TYPE_ARM64
    cpusubtype CPU_SUBTYPE_ARM64_ALL"#;

    let archs = parse_lipo_output(output).unwrap();
    assert_eq!(archs.len(), 2);
    assert_eq!(archs[0].cpu_type, "x86_64");
    assert_eq!(archs[1].cpu_type, "arm64");
}

#[test]
fn report_of_three_blocks_gives_three_slices_in_order() {
    let output = "architecture x86_64\n    size 100\narchitecture arm64\n    size 200\narchitecture arm64e\n    size 300\n";
    let archs = parse_lipo_output(output).unwrap();
    assert_eq!(archs.len(), 3);
    assert_eq!(archs[0].cpu_type, "x86_64");
    assert_eq!(archs[0].size_bytes, Some(100));
    assert_eq!(archs[1].cpu_type, "arm64");
    assert_eq!(archs[1].size_bytes, Some(200));
    assert_eq!(archs[2].cpu_type, "arm64e");
    assert_eq!(archs[2].size_bytes, Some(300));
}

#[test]
fn report_without_blocks_gives_nothing() {
    assert!(parse_lipo_output("").is_none());
    assert!(parse_lipo_output("fat_magic 0xcafebabe\nnfat_arch 2\n").is_none());
    assert!(parse_lipo_output("architecture").is_none());
    assert!(parse_lipo_output("architecture ").is_none());
    assert!(parse_lipo_output("    size 12\n").is_none());
}

#[test]
fn size_is_sought_in_nine_lines() {
    let near = "architecture x86_64\n1\n2\n3\n4\n5\n6\n7\n8\nsize 77\n";
    let archs = parse_lipo_output(near).unwrap();
    assert_eq!(archs[0].size_bytes, Some(77));
    let far = "architecture x86_64\n1\n2\n3\n4\n5\n6\n7\n8\n9\nsize 77\n";
    let archs = parse_lipo_output(far).unwrap();
    assert_eq!(archs.len(), 1);
    assert_eq!(archs[0].size_bytes, None);
}

#[test]
fn size_line_that_gives_no_number_is_passed_over() {
    let output = "architecture x86_64\n    size unknown\n    size 42 bytes\n";
    let archs = parse_lipo_output(output).unwrap();
    assert_eq!(archs.len(), 1);
    assert_eq!(archs[0].size_bytes, Some(42));
    let none = parse_lipo_output("architecture x86_64\n    size 99999999999999999999\n").unwrap();
    assert_eq!(none[0].size_bytes, None);
}

#[test]
fn block_lines_are_trimmed() {
    let output = "\t architecture   arm64 \r\n\tsize   5000000\r\n";
    let archs = parse_lipo_output(output).unwrap();
    assert_eq!(archs.len(), 1);
    assert_eq!(archs[0].cpu_type, "arm64");
    assert_eq!(archs[0].size_bytes, Some(5000000));
    let tabbed = parse_lipo_output("architecture arm64\nsize\t5000000\n").unwrap();
    assert_eq!(tabbed[0].size_bytes, None);
}

#[test]
fn name_of_single_architecture_is_taken_from_first_line_that_gives_one() {
    assert_eq!(parse_architecture_from_stderr(""), None);
    assert_eq!(parse_architecture_from_stderr("is not a fat file"), None);
    assert_eq!(parse_architecture_from_stderr("x is architecture:   \ny is architecture: arm64e\n"), Some("arm64e".to_string()));
    assert_eq!(
        parse_architecture_from_stderr("a is architecture: i386 is architecture: arm64"),
        Some("i386".to_string())
    );
}

#[test]
fn non_fat_report_gives_one_slice_of_unknown_size() {
    let stdout = "Non-fat file: /path/to/binary is architecture: arm64";
    match extract_architectures(stdout, "", true) {
        Extraction::Slices(archs) => {
            assert_eq!(archs.len(), 1);
            assert_eq!(archs[0].cpu_type, "arm64");
            assert_eq!(archs[0].size_bytes, None);
        }
        other => panic!("unexpected {:?}", other),
    }
}

#[test]
fn non_fat_report_on_standard_error_is_read_when_output_is_empty() {
    let stderr = "input file /Applications/Dia.app/Contents/MacOS/Dia is not a fat file\nNon-fat file: /Applications/Dia.app/Contents/MacOS/Dia is architecture: x86_64";
    match extract_architectures("", stderr, false) {
        Extraction::Slices(archs) => {
            assert_eq!(archs.len(), 1);
            assert_eq!(archs[0].cpu_type, "x86_64");
            assert_eq!(archs[0].size_bytes, None);
        }
        other => panic!("unexpected {:?}", other),
    }
}

#[test]
fn non_fat_report_is_read_from_output_when_that_is_not_empty() {
    let stderr = "Non-fat file: /bin/x is architecture: arm64";
    assert!(matches!(extract_architectures("something else", stderr, true), Extraction::NeedsListing));
}

#[test]
fn non_fat_report_without_a_name_asks_for_a_listing() {
    assert!(matches!(
        extract_architectures("", "input file /bin/x is not a fat file", false),
        Extraction::NeedsListing
    ));
}

#[test]
fn failed_tool_without_marker_gives_nothing() {
    assert!(matches!(extract_architectures("", "can't open input file", false), Extraction::Failed));
    assert!(matches!(
        extract_architectures("architecture arm64\n size 1\n", "", false),
        Extraction::Failed
    ));
    assert!(matches!(extract_architectures("no blocks", "", true), Extraction::Failed));
}

#[test]
fn fat_report_of_successful_tool_is_read() {
    match extract_architectures("architecture x86_64\n    size 9228032\narchitecture arm64\n    size 8804432\n", "", true) {
        Extraction::Slices(archs) => {
            assert_eq!(archs.len(), 2);
            assert_eq!(archs[0].cpu_type, "x86_64");
            assert_eq!(archs[0].size_bytes, Some(9228032));
            assert_eq!(archs[1].cpu_type, "arm64");
            assert_eq!(archs[1].size_bytes, Some(8804432));
        }
        other => panic!("unexpected {:?}", other),
    }
}

#[test]
fn single_architecture_from_report() {
    let archs = extract_single_architecture("Non-fat file: /bin/ls is architecture: arm64").unwrap();
    assert_eq!(archs.len(), 1);
    assert_eq!(archs[0].cpu_type, "arm64");
    assert_eq!(archs[0].size_bytes, None);
    assert!(extract_single_architecture("is not a fat file").is_none());
}

#[test]
fn listing_gives_the_trimmed_name() {
    let archs = architecture_from_listing(true, "arm64\n").unwrap();
    assert_eq!(archs.len(), 1);
    assert_eq!(archs[0].cpu_type, "arm64");
    assert_eq!(archs[0].size_bytes, None);
    assert!(architecture_from_listing(true, "  \n").is_none());
    assert!(architecture_from_listing(false, "arm64\n").is_none());
}

fn slice(name: &str, size: Option<u64>) -> ArchInfo {
    ArchInfo { cpu_type: name.to_string(), size_bytes: size }
}

fn bundle(name: &str, slices: Vec<ArchInfo>) -> AppInfo {
    AppInfo::new(
        name.to_string(),
        format!("/Applications/{}.app", name),
        format!("/Applications/{}.app/Contents/MacOS/{}", name, name),
        slices,
    )
}

#[test]
fn new_bundle_is_not_selected() {
    let b = bundle("A", vec![slice("arm64", None)]);
    assert!(!b.selected);
    assert_eq!(b.name, "A");
    assert_eq!(b.path, "/Applications/A.app");
    assert_eq!(b.binary_path, "/Applications/A.app/Contents/MacOS/A");
}

#[test]
fn removable_architecture_is_found_by_its_exact_name() {
    assert!(bundle("A", vec![slice("x86_64", Some(1)), slice("arm64", Some(2))]).has_x86_64());
    assert!(!bundle("B", vec![slice("arm64", Some(2))]).has_x86_64());
    assert!(!bundle("C", vec![slice("x86_64h", Some(2))]).has_x86_64());
    assert!(!bundle("D", vec![]).has_x86_64());
}

#[test]
fn required_architecture_is_found_by_the_beginning_of_its_name() {
    assert!(bundle("A", vec![slice("x86_64", Some(1)), slice("arm64", Some(2))]).has_arm64());
    assert!(bundle("B", vec![slice("arm64e", None)]).has_arm64());
    assert!(!bundle("C", vec![slice("x86_64", Some(2)), slice("arm", None)]).has_arm64());
    assert!(!bundle("D", vec![]).has_arm64());
}

#[test]
fn removable_size_is_that_of_the_first_slice_of_the_name() {
    assert_eq!(bundle("A", vec![slice("arm64", Some(2)), slice("x86_64", Some(9228032))]).x86_64_size(), Some(9228032));
    assert_eq!(bundle("B", vec![slice("x86_64", None), slice("x86_64", Some(5))]).x86_64_size(), None);
    assert_eq!(bundle("C", vec![slice("arm64", Some(2))]).x86_64_size(), None);
}

#[test]
fn architectures_are_displayed_with_commas() {
    assert_eq!(bundle("A", vec![slice("x86_64", Some(1)), slice("arm64", Some(2))]).architectures_display(), "x86_64, arm64");
    assert_eq!(bundle("B", vec![slice("arm64", None)]).architectures_display(), "arm64");
    assert_eq!(bundle("C", vec![]).architectures_display(), "");
    assert_eq!(
        bundle("D", vec![slice("a", None), slice("b", None), slice("c", None)]).architectures_display(),
        "a, b, c"
    );
}

#[test]
fn copies_are_equal_to_their_originals() {
    let mut a = bundle("A", vec![slice("x86_64", Some(1)), slice("arm64", None)]);
    a.selected = true;
    let b = a.clone();
    assert_eq!(b.name, a.name);
    assert_eq!(b.path, a.path);
    assert_eq!(b.binary_path, a.binary_path);
    assert_eq!(b.selected, a.selected);
    assert_eq!(b.architectures.len(), 2);
    assert_eq!(b.architectures[0].cpu_type, "x86_64");
    assert_eq!(b.architectures[0].size_bytes, Some(1));
    assert_eq!(b.architectures[1].cpu_type, "arm64");
    assert_eq!(b.architectures[1].size_bytes, None);
}

#[test]
fn report_written_block_by_block_reads_back() {
    let blocks: [(&str, u64); 4] = [("x86_64", 9228032), ("arm64", 8804432), ("arm64e", 0), ("ppc 7400", u64::MAX)];
    let mut report = String::new();
    for (name, size) in blocks {
        report.push_str(&format!("architecture {}\nsize {}\n", name, size));
    }
    let archs = parse_lipo_output(&report).unwrap();
    assert_eq!(archs.len(), blocks.len());
    for (slice, (name, size)) in archs.iter().zip(blocks) {
        assert_eq!(slice.cpu_type, name);
        assert_eq!(slice.size_bytes, Some(size));
    }
}
