use iso_extract_jpegs::extractor::{ExtractionResult, ExtractionStatus, InputSummary, RunSummary};
use iso_extract_jpegs::jpeg::{has_allowed_extension, is_jpeg_name};
use iso_extract_jpegs::manifest::{json_string, to_json};
use iso_extract_jpegs::paths::{
    looks_like_windows_drive_path, output_path, sanitize_component, sanitize_internal_path,
    with_extension,
};
use iso_extract_jpegs::report::human_report;

#[test]
fn sanitize_errors_name_the_reason() {
    let err = |p: &str| sanitize_internal_path(p).unwrap_err();
    assert_eq!(err(""), "empty internal path");
    assert_eq!(err("\\x"), "absolute internal path rejected");
    assert_eq!(err("c:x"), "Windows drive-prefixed internal path rejected");
    assert_eq!(err("a/../b"), "parent directory component rejected");
    assert_eq!(err("./."), "internal path has no filename");
    assert_eq!(err("a/b\u{7}c"), "control character in path component rejected");
    assert_eq!(err("a/ . "), "path component became empty after sanitization");
    assert_eq!(sanitize_component("").unwrap_err(), "empty path component rejected");
    assert_eq!(sanitize_component("..").unwrap_err(), "unsafe path component rejected");
    assert_eq!(sanitize_component("a\0b").unwrap_err(), "NUL byte in path component rejected");
    assert_eq!(sanitize_component("/x").unwrap_err(), "unsafe path component rejected");
    assert_eq!(sanitize_component("a/../b").unwrap_err(), "unsafe path component rejected");
}

#[test]
fn sanitizing_twice_changes_nothing() {
    for raw in ["  .a<b>c.. ", "x|y", "plain.jpg", "..hidden.", "tab\u{85}end"] {
        if let Ok(once) = sanitize_component(raw) {
            assert_eq!(sanitize_component(&once).unwrap(), once);
        }
    }
    assert_eq!(sanitize_component("  .a<b>c.. ").unwrap(), "a_b_c");
}

#[test]
fn drive_paths() {
    assert!(looks_like_windows_drive_path("C:\\x"));
    assert!(looks_like_windows_drive_path("z:"));
    assert!(!looks_like_windows_drive_path("1:"));
    assert!(!looks_like_windows_drive_path("é:"));
    assert!(!looks_like_windows_drive_path("C"));
}

#[test]
fn output_paths_stay_under_the_output_directory() {
    assert_eq!(
        output_path(b"out/", b"/mnt/cds/disc.iso", "a/./b//c.jpg").unwrap(),
        b"out/disc/a/b/c.jpg".to_vec()
    );
    assert_eq!(output_path(b"", b"disc", "x.jpg").unwrap(), b"disc/x.jpg".to_vec());
    assert_eq!(output_path(b"o", b"/", "x.jpg").unwrap(), b"o/iso/x.jpg".to_vec());
    assert_eq!(output_path(b"o", b".profile", "x.jpg").unwrap(), b"o/profile/x.jpg".to_vec());
    assert_eq!(output_path(b"o", b"a.tar.gz/", "x.jpg").unwrap(), b"o/a.tar/x.jpg".to_vec());
    assert_eq!(output_path(b"o", b"d..", "x").unwrap(), b"o/d/x".to_vec());
    assert_eq!(output_path(b"o", b"..", "x").unwrap(), b"o/iso/x".to_vec());
    let p = output_path(b"o", b"d.iso", "../x").unwrap_err();
    assert_eq!(p, "parent directory component rejected");
}

#[test]
fn image_names_are_read_from_the_path_bytes() {
    assert_eq!(
        output_path(&[b'o', 0xfe], b"/cds/disc.iso", "x.jpg").unwrap(),
        vec![b'o', 0xfe, b'/', b'd', b'i', b's', b'c', b'/', b'x', b'.', b'j', b'p', b'g']
    );
    assert_eq!(
        output_path(b"o", &[b'/', b'd', 0xff, b'.', b'i', b's', b'o'], "x.jpg").unwrap(),
        b"o/iso/x.jpg".to_vec()
    );
    assert_eq!(
        output_path(b"o", &[0xff, b'/', b'd', b'.', b'i', b's', b'o'], "x.jpg").unwrap(),
        b"o/d/x.jpg".to_vec()
    );
    assert_eq!(output_path(b"o", "caf\u{e9}.iso".as_bytes(), "x").unwrap(), "o/caf\u{e9}/x".as_bytes().to_vec());
}

#[test]
fn extension_is_replaced_after_the_stem() {
    assert_eq!(with_extension(b"out/disc/1000.PCD", "jpg"), b"out/disc/1000.jpg".to_vec());
    assert_eq!(with_extension(b"out/disc/noext", "jpg"), b"out/disc/noext.jpg".to_vec());
    assert_eq!(with_extension(b"out/disc/a.b.c", "jpg"), b"out/disc/a.b.jpg".to_vec());
    assert_eq!(with_extension(b"out/.hidden", "jpg"), b"out/.hidden.jpg".to_vec());
    assert_eq!(with_extension(b"out/x.pcd/", "jpg"), b"out/x.jpg".to_vec());
    assert_eq!(with_extension(b"out/..", "jpg"), b"out/..".to_vec());
    assert_eq!(with_extension(b"/", "jpg"), b"/".to_vec());
}

#[test]
fn jpeg_names_are_the_default_extensions() {
    let defaults = vec!["jpg".to_string(), "jpeg".to_string()];
    for name in ["a.jpg", "b.JPEG", "c.png", "jpg", "d.jpg.exe", ".jpg", "e.Jpeg"] {
        assert_eq!(is_jpeg_name(name), has_allowed_extension(name, &defaults), "{name}");
        assert_eq!(
            has_allowed_extension(name, &defaults),
            has_allowed_extension(&name.to_ascii_lowercase(), &defaults)
        );
    }
}

#[test]
fn json_strings_escape_control_characters() {
    assert_eq!(json_string("\u{1}\t\u{8}\u{c}\r\u{7f}é"), "\"\\u0001\\t\\b\\f\\r\\u007fé\"");
    assert_eq!(json_string(""), "\"\"");
}

fn input(name: &str, scanned: u64, extracted: u64, skipped: u64, failed: u64) -> InputSummary {
    let mut s = InputSummary::new(name.as_bytes().to_vec());
    s.files_scanned = scanned;
    s.candidates_found = extracted + skipped + failed;
    s.extracted = extracted;
    s.skipped = skipped;
    s.failed = failed;
    s
}

fn result(path: &str, out: Option<&str>, status: ExtractionStatus, error: Option<&str>) -> ExtractionResult {
    ExtractionResult {
        source_iso: b"d.iso".to_vec(),
        internal_path: path.to_string(),
        output_path: out.map(|s| s.as_bytes().to_vec()),
        status,
        size: 12,
        error: error.map(|s| s.to_string()),
    }
}

#[test]
fn totals_are_sums_over_images() {
    let mut run = RunSummary::new(false);
    run.add_input(input("a.iso", 5, 2, 1, 1));
    run.add_input(input("b.iso", 7, 3, 0, 2));
    assert_eq!(run.files_scanned, 12);
    assert_eq!(run.candidates_found, 9);
    assert_eq!(run.extracted, 5);
    assert_eq!(run.skipped, 1);
    assert_eq!(run.failed, 3);
    assert_eq!(run.inputs.len(), 2);
}

#[test]
fn every_candidate_is_counted_once() {
    let mut s = InputSummary::new(b"a.iso".to_vec());
    for status in [
        ExtractionStatus::Extracted,
        ExtractionStatus::Converted,
        ExtractionStatus::WouldExtract,
        ExtractionStatus::SkippedExisting,
        ExtractionStatus::SkippedInvalidPath,
        ExtractionStatus::FailedValidation,
        ExtractionStatus::FailedRead,
        ExtractionStatus::FailedWrite,
        ExtractionStatus::FailedConversion,
    ] {
        s.record_candidate(&status);
    }
    assert_eq!(s.candidates_found, 9);
    assert_eq!((s.extracted, s.would_extract, s.skipped, s.failed), (2, 1, 2, 4));
}

#[test]
fn one_result_per_candidate() {
    let mut run = RunSummary::new(false);
    let mut a = InputSummary::new(b"a.iso".to_vec());
    a.files_scanned = 3;
    run.record_result(&mut a, result("P.JPG", Some("o/a/P.JPG"), ExtractionStatus::Extracted, None));
    run.record_result(&mut a, result("Q.JPG", None, ExtractionStatus::FailedRead, Some("x")));
    assert_eq!(run.results.len(), 2);
    assert_eq!(run.candidates_found, 0);
    assert_eq!((a.candidates_found, a.extracted, a.failed), (2, 1, 1));
    run.add_input(a);
    let mut b = InputSummary::new(b"b.iso".to_vec());
    b.files_scanned = 1;
    run.record_result(&mut b, result("R.JPG", None, ExtractionStatus::WouldExtract, None));
    run.add_input(b);
    assert_eq!(run.results.len() as u64, run.candidates_found);
    assert_eq!(run.candidates_found, 3);
    assert_eq!(
        run.extracted + run.would_extract + run.skipped + run.failed,
        run.candidates_found
    );
    assert!(run.candidates_found <= run.files_scanned);
}

#[test]
fn manifest_is_exact() {
    let mut run = RunSummary::new(false);
    run.add_input(input("d.iso", 1, 1, 0, 0));
    run.results.push(result("P.JPG", Some("o/d/P.JPG"), ExtractionStatus::Extracted, None));
    run.results.push(result("Q.JPG", None, ExtractionStatus::SkippedInvalidPath, Some("bad \"q\"")));
    let expected = [
        "{\n",
        "  \"tool\": \"iso-extract-jpegs\",\n",
        "  \"version\": \"1.2.3\",\n",
        "  \"finished_at_unix\": 1725029869,\n",
        "  \"dry_run\": false,\n",
        "  \"summary\": {\n",
        "    \"inputs\": 1,\n",
        "    \"files_scanned\": 1,\n",
        "    \"candidates_found\": 1,\n",
        "    \"extracted\": 1,\n",
        "    \"would_extract\": 0,\n",
        "    \"skipped\": 0,\n",
        "    \"failed\": 0\n",
        "  },\n",
        "  \"inputs\": [\n",
        "    {\n",
        "      \"iso\": \"d.iso\",\n",
        "      \"files_scanned\": 1,\n",
        "      \"candidates_found\": 1,\n",
        "      \"extracted\": 1,\n",
        "      \"would_extract\": 0,\n",
        "      \"skipped\": 0,\n",
        "      \"failed\": 0\n",
        "    }\n",
        "  ],\n",
        "  \"results\": [\n",
        "    {\n",
        "      \"source_iso\": \"d.iso\",\n",
        "      \"internal_path\": \"P.JPG\",\n",
        "      \"output_path\": \"o/d/P.JPG\",\n",
        "      \"status\": \"extracted\",\n",
        "      \"size\": 12,\n",
        "      \"error\": null\n",
        "    },\n",
        "    {\n",
        "      \"source_iso\": \"d.iso\",\n",
        "      \"internal_path\": \"Q.JPG\",\n",
        "      \"output_path\": null,\n",
        "      \"status\": \"skipped_invalid_path\",\n",
        "      \"size\": 12,\n",
        "      \"error\": \"bad \\\"q\\\"\"\n",
        "    }\n",
        "  ]\n",
        "}\n",
    ]
    .concat();
    assert_eq!(to_json(&run, "1.2.3", 1725029869), expected);
}

#[test]
fn empty_manifest_lists() {
    let run = RunSummary::new(true);
    let json = to_json(&run, "v", 0);
    assert!(json.contains("  \"dry_run\": true,\n"));
    assert!(json.contains("  \"inputs\": [\n\n  ],\n"));
    assert!(json.contains("  \"results\": [\n\n  ]\n}\n"));
}

#[test]
fn report_for_one_image() {
    let mut run = RunSummary::new(false);
    run.add_input(input("d.iso", 3, 1, 0, 1));
    run.results.push(result("P.JPG", Some("o/d/P.JPG"), ExtractionStatus::Extracted, None));
    run.results.push(result("Q.JPG", Some("o/d/Q.JPG"), ExtractionStatus::FailedRead, None));
    assert_eq!(
        human_report(&run, false),
        "Input: d.iso\nScanned files: 3\nMatching candidates: 2\nExtracted: 1\nSkipped: 0\nFailed: 1\n\nFailures:\n- Q.JPG: unknown error\n"
    );
    assert_eq!(
        human_report(&run, true),
        "Input: d.iso\nScanned files: 3\nMatching candidates: 2\nExtracted: 1\nSkipped: 0\nFailed: 1\n\nFailures:\n- Q.JPG: unknown error\n\nResults:\n- P.JPG -> o/d/P.JPG (extracted)\n- Q.JPG -> o/d/Q.JPG (failed_read)\n"
    );
}

#[test]
fn report_for_a_dry_run_of_two_images() {
    let mut run = RunSummary::new(true);
    let mut a = InputSummary::new(b"a.iso".to_vec());
    a.files_scanned = 2;
    a.candidates_found = 1;
    a.would_extract = 1;
    let mut b = InputSummary::new(b"b.iso".to_vec());
    b.files_scanned = 1;
    run.add_input(a);
    run.add_input(b);
    run.results.push(result("X.JPG", Some("o/a/X.JPG"), ExtractionStatus::WouldExtract, None));
    assert_eq!(
        human_report(&run, true),
        [
            "Input: a.iso\nMode: dry run\nScanned files: 2\nMatching candidates: 1\nWould extract: 1\nSkipped: 0\nFailed: 0\n",
            "\n",
            "Input: b.iso\nMode: dry run\nScanned files: 1\nMatching candidates: 0\nWould extract: 0\nSkipped: 0\nFailed: 0\n",
            "\nTotal scanned files: 3\nTotal matching candidates: 1\nTotal would extract: 1\nTotal skipped: 0\nTotal failed: 0\n",
            "\nWould extract:\n- X.JPG\n",
        ]
        .concat()
    );
}
