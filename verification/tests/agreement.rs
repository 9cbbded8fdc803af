use archtrim::scanner::{
    architecture_from_listing, extract_architectures, parse_architecture_from_stderr,
    parse_lipo_output, ArchInfo, Extraction,
};

/// A small generator of numbers, the same on every run.
struct Numbers(u64);

impl Numbers {
    fn next(&mut self, below: usize) -> usize {
        self.0 = self.0.wrapping_mul(6364136223846793005).wrapping_add(1442695040888963407);
        ((self.0 >> 33) as usize) % below
    }
}

const FRAGMENTS: [&str; 34] = [
    "architecture ",
    "architecture ",
    "architecture",
    "size ",
    "size ",
    "size",
    "x86_64",
    "arm64",
    "arm64e",
    " ",
    " ",
    "\t",
    "\n",
    "\n",
    "\n",
    "\r\n",
    "\r",
    "9228032",
    "0",
    "+5",
    "-1",
    "18446744073709551615",
    "18446744073709551616",
    "12ab",
    "is architecture:",
    "is architecture:",
    "Non-fat file",
    "is not a fat file",
    "\u{a0}",
    "\u{2003}",
    "\u{85}",
    "é",
    "/Applications/My App.app/Contents/MacOS/My App",
    ":",
];

fn sample(numbers: &mut Numbers) -> String {
    let pieces = 1 + numbers.next(40);
    let mut text = String::new();
    for _ in 0..pieces {
        text.push_str(FRAGMENTS[numbers.next(FRAGMENTS.len())]);
    }
    text
}

fn fat_with_std(output: &str) -> Option<Vec<(String, Option<u64>)>> {
    let mut architectures = Vec::new();
    let lines: Vec<&str> = output.lines().collect();
    let mut i = 0;
    while i < lines.len() {
        let line = lines[i].trim();
        if let Some(arch_name) = line.strip_prefix("architecture ") {
            let arch_name = arch_name.trim().to_string();
            let mut size_bytes = None;
            for size_line in lines.iter().take(std::cmp::min(i + 10, lines.len())).skip(i + 1) {
                let size_line = size_line.trim();
                if size_line.starts_with("size ") {
                    let parts: Vec<&str> = size_line.split_whitespace().collect();
                    if parts.len() >= 2 {
                        if let Ok(size) = parts[1].parse::<u64>() {
                            size_bytes = Some(size);
                            break;
                        }
                    }
                }
            }
            architectures.push((arch_name, size_bytes));
        }
        i += 1;
    }
    if architectures.is_empty() {
        None
    } else {
        Some(architectures)
    }
}

fn single_with_std(stderr: &str) -> Option<String> {
    for line in stderr.lines() {
        if line.contains("is architecture:") {
            if let Some(arch_part) = line.split("is architecture:").nth(1) {
                let arch = arch_part.trim();
                if !arch.is_empty() {
                    return Some(arch.to_string());
                }
            }
        }
    }
    None
}

fn plain(slices: Option<Vec<ArchInfo>>) -> Option<Vec<(String, Option<u64>)>> {
    slices.map(|v| v.into_iter().map(|a| (a.cpu_type, a.size_bytes)).collect())
}

#[test]
fn fat_reports_are_read_as_with_the_string_functions_of_std() {
    let mut numbers = Numbers(1);
    for _ in 0..4000 {
        let text = sample(&mut numbers);
        assert_eq!(plain(parse_lipo_output(&text)), fat_with_std(&text), "input {:?}", text);
    }
}

#[test]
fn single_reports_are_read_as_with_the_string_functions_of_std() {
    let mut numbers = Numbers(2);
    for _ in 0..4000 {
        let text = sample(&mut numbers);
        assert_eq!(parse_architecture_from_stderr(&text), single_with_std(&text), "input {:?}", text);
    }
}

#[test]
fn reports_are_classified_as_with_the_string_functions_of_std() {
    let mut numbers = Numbers(3);
    for round in 0..3000 {
        let stdout = if round % 3 == 0 { String::new() } else { sample(&mut numbers) };
        let stderr = if round % 5 == 0 { String::new() } else { sample(&mut numbers) };
        let success = round % 2 == 0;
        let non_fat = stdout.contains("is not a fat file")
            || stdout.contains("Non-fat file")
            || stderr.contains("is not a fat file")
            || stderr.contains("Non-fat file");
        let want: Result<Option<Vec<(String, Option<u64>)>>, ()> = if non_fat {
            let text = if !stdout.is_empty() { &stdout } else { &stderr };
            match single_with_std(text) {
                Some(name) => Ok(Some(vec![(name, None)])),
                None => Err(()),
            }
        } else if !success {
            Ok(None)
        } else {
            Ok(fat_with_std(&stdout))
        };
        let got = match extract_architectures(&stdout, &stderr, success) {
            Extraction::Slices(v) => Ok(plain(Some(v))),
            Extraction::NeedsListing => Err(()),
            Extraction::Failed => Ok(None),
        };
        assert_eq!(got, want, "stdout {:?} stderr {:?} success {}", stdout, stderr, success);
    }
}

#[test]
fn listings_are_read_as_with_the_string_functions_of_std() {
    let mut numbers = Numbers(4);
    for round in 0..2000 {
        let text = sample(&mut numbers);
        let success = round % 4 != 0;
        let want = if success && !text.trim().is_empty() {
            Some(vec![(text.trim().to_string(), None)])
        } else {
            None
        };
        assert_eq!(plain(architecture_from_listing(success, &text)), want, "input {:?}", text);
    }
}
