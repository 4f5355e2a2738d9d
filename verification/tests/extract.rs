use iso_extract_jpegs::cli::Config;
use iso_extract_jpegs::extractor::{
    next_extraction, ConvertOutcome, ExtractAction, ExtractEvent, ExtractionResult,
    ExtractionStatus, RunSummary,
};
use iso_extract_jpegs::run::{RunAction, RunState};
use iso_extract_jpegs::iso::{extent_span, file_span, DirectoryWalk, IsoEntry, VolumeScan};
use iso_extract_jpegs::manifest::to_json;
use std::collections::HashMap;

const SECTOR_SIZE: usize = 2048;

/// Runs the library's extraction over an image held in memory; files are
/// "written" into `files`, and `converter` stands for the image converter.
fn extract_in_memory(
    image: &[u8],
    source: &str,
    config: &Config,
    files: &mut HashMap<String, Vec<u8>>,
    converter: &dyn Fn(&str, &str) -> ConvertOutcome,
) -> RunSummary {
    let (mut state, mut step) = RunState::new(config.clone());
    loop {
        step = match step {
            RunAction::OpenImage { path } => {
                assert_eq!(path, source.as_bytes());
                state.opened(list_entries(image))
            }
            RunAction::Extract { index, action } => {
                let entry = state.entries[index].clone();
                let result = finish_entry(image, config, source.as_bytes(), &entry, action, files, converter);
                state.extracted(result)
            }
            RunAction::TooManyFiles => panic!("too many files to count"),
            RunAction::Finish => break,
        };
    }
    state.run
}

fn list_entries(image: &[u8]) -> Vec<IsoEntry> {
    let mut scan = VolumeScan::new();
    while let Some(offset) = scan.next_descriptor_offset() {
        let start = offset as usize;
        scan.feed(&image[start..start + SECTOR_SIZE]).unwrap();
    }
    let volume = scan.finish().unwrap();
    let mut walk = DirectoryWalk::new(volume);
    while let Some(dir) = walk.next_directory().unwrap() {
        let (offset, len) = extent_span(dir.extent, dir.size as u64).unwrap();
        let start = offset as usize;
        walk.accept(&image[start..start + len]).unwrap();
    }
    walk.into_entries()
}

fn finish_entry(
    image: &[u8],
    config: &Config,
    source: &[u8],
    entry: &IsoEntry,
    first: ExtractAction,
    files: &mut HashMap<String, Vec<u8>>,
    converter: &dyn Fn(&str, &str) -> ConvertOutcome,
) -> ExtractionResult {
    let mut action = first;
    loop {
        let event = match &action {
            ExtractAction::Finish(result) => return result.clone(),
            ExtractAction::CheckExists { path } => {
                ExtractEvent::Exists(files.contains_key(&text(path)))
            }
            ExtractAction::CheckConvertedExists { to, .. } => {
                ExtractEvent::Exists(files.contains_key(&text(to)))
            }
            ExtractAction::ReadEntry { .. } => ExtractEvent::Read(read_entry(image, entry)),
            ExtractAction::Write { path, bytes, overwrite } => {
                if files.contains_key(&text(path)) && !overwrite {
                    ExtractEvent::Written(Err("output file already exists".to_string()))
                } else {
                    files.insert(text(path), bytes.clone());
                    ExtractEvent::Written(Ok(()))
                }
            }
            ExtractAction::Convert { from, to } => {
                let outcome = converter(&text(from), &text(to));
                if let ConvertOutcome::Succeeded = outcome {
                    files.insert(text(to), vec![0xff, 0xd8]);
                }
                ExtractEvent::Converted(outcome)
            }
        };
        action = next_extraction(config, source, entry, action, event);
    }
}

/// A path the tests name as text.
fn text(path: &[u8]) -> String {
    String::from_utf8(path.to_vec()).unwrap()
}

fn read_entry(image: &[u8], entry: &IsoEntry) -> Result<Vec<u8>, String> {
    let (offset, len) = file_span(entry).map_err(|e| e.message())?;
    let start = offset as usize;
    if start + len > image.len() {
        return Err("could not read ISO extent".to_string());
    }
    Ok(image[start..start + len].to_vec())
}

fn config(dry_run: bool, validate: bool, extensions: &[&str]) -> Config {
    Config {
        inputs: vec![b"disc.iso".to_vec()],
        output_dir: b"out".to_vec(),
        extensions: extensions.iter().map(|e| e.to_string()).collect(),
        dry_run,
        validate,
        overwrite: false,
        convert_to_jpg: false,
        manifest_path: None,
        verbose: false,
    }
}

fn no_converter(_: &str, _: &str) -> ConvertOutcome {
    ConvertOutcome::CouldNotRun("no converter".to_string())
}

#[test]
fn extracts_jpeg_from_minimal_iso() {
    let jpeg = [0xff, 0xd8, 0xff, 0xe0, b't', b'e', b's', b't', 0xff, 0xd9];
    let iso = minimal_iso("PHOTO.JPG;1", &jpeg);
    let mut files = HashMap::new();
    let summary = extract_in_memory(
        &iso,
        "disc.iso",
        &config(false, true, &["jpg", "jpeg"]),
        &mut files,
        &no_converter,
    );

    assert_eq!(summary.files_scanned, 1);
    assert_eq!(summary.candidates_found, 1);
    assert_eq!(summary.extracted, 1);
    assert_eq!(summary.failed, 0);

    assert_eq!(files.get("out/disc/PHOTO.JPG").unwrap(), &jpeg.to_vec());
    assert!(to_json(&summary, "0.1.0", 0).contains("\"status\": \"extracted\""));
}

#[test]
fn dry_run_does_not_write_files() {
    let jpeg = [0xff, 0xd8, 0xff, 0xe0];
    let iso = minimal_iso("PHOTO.JPG;1", &jpeg);
    let mut files = HashMap::new();
    let summary = extract_in_memory(
        &iso,
        "disc.iso",
        &config(true, false, &["jpg", "jpeg"]),
        &mut files,
        &no_converter,
    );

    assert_eq!(summary.would_extract, 1);
    assert!(files.is_empty());
}

#[test]
fn validation_rejects_jpeg_without_marker() {
    let iso = minimal_iso("PHOTO.JPG;1", b"not a jpeg");
    let mut files = HashMap::new();
    let summary = extract_in_memory(
        &iso,
        "disc.iso",
        &config(false, true, &["jpg"]),
        &mut files,
        &no_converter,
    );
    assert_eq!(summary.failed, 1);
    assert_eq!(summary.results[0].status, ExtractionStatus::FailedValidation);
    assert_eq!(
        summary.results[0].error.as_deref(),
        Some("missing JPEG start marker FF D8")
    );
    assert!(files.is_empty());
}

#[test]
fn existing_output_is_skipped_without_overwrite() {
    let iso = minimal_iso("PHOTO.JPG;1", &[0xff, 0xd8]);
    let mut files = HashMap::new();
    files.insert("out/disc/PHOTO.JPG".to_string(), vec![1, 2, 3]);
    let summary = extract_in_memory(
        &iso,
        "disc.iso",
        &config(false, false, &["jpg"]),
        &mut files,
        &no_converter,
    );
    assert_eq!(summary.skipped, 1);
    assert_eq!(summary.results[0].status, ExtractionStatus::SkippedExisting);
    assert_eq!(files.get("out/disc/PHOTO.JPG").unwrap(), &vec![1, 2, 3]);
}

#[test]
fn other_extensions_are_converted_to_jpg() {
    let iso = minimal_iso("1000.PCD;1", &[1, 2, 3]);
    let mut files = HashMap::new();
    let mut cfg = config(false, true, &["pcd"]);
    cfg.convert_to_jpg = true;
    let summary = extract_in_memory(&iso, "disc.iso", &cfg, &mut files, &|from, to| {
        assert_eq!(from, "out/disc/1000.PCD");
        assert_eq!(to, "out/disc/1000.jpg");
        ConvertOutcome::Succeeded
    });
    assert_eq!(summary.extracted, 1);
    assert_eq!(summary.results[0].status, ExtractionStatus::Converted);
    assert_eq!(
        summary.results[0].output_path.as_deref(),
        Some(&b"out/disc/1000.jpg"[..])
    );
    assert_eq!(files.get("out/disc/1000.PCD").unwrap(), &vec![1, 2, 3]);
}

#[test]
fn failed_conversion_reports_status() {
    let iso = minimal_iso("1000.PCD;1", &[1, 2, 3]);
    let mut files = HashMap::new();
    let mut cfg = config(false, false, &["pcd"]);
    cfg.convert_to_jpg = true;
    let summary = extract_in_memory(&iso, "disc.iso", &cfg, &mut files, &|_, _| {
        ConvertOutcome::Exited("exit status: 1".to_string())
    });
    assert_eq!(summary.failed, 1);
    assert_eq!(summary.results[0].status, ExtractionStatus::FailedConversion);
    assert_eq!(
        summary.results[0].error.as_deref(),
        Some("magick exited with status exit status: 1")
    );
}

#[test]
fn non_matching_files_are_scanned_not_extracted() {
    let iso = minimal_iso("README.TXT;1", b"hello");
    let mut files = HashMap::new();
    let summary = extract_in_memory(
        &iso,
        "disc.iso",
        &config(false, false, &["jpg"]),
        &mut files,
        &no_converter,
    );
    assert_eq!(summary.files_scanned, 1);
    assert_eq!(summary.candidates_found, 0);
    assert!(summary.results.is_empty());
}

fn minimal_iso(file_name: &str, file_bytes: &[u8]) -> Vec<u8> {
    let mut iso = vec![0_u8; SECTOR_SIZE * 22];

    write_primary_volume_descriptor(&mut iso);
    write_volume_descriptor_terminator(&mut iso);
    write_root_directory(&mut iso, file_name, file_bytes.len() as u32);

    let file_start = 21 * SECTOR_SIZE;
    iso[file_start..file_start + file_bytes.len()].copy_from_slice(file_bytes);
    iso
}

fn write_primary_volume_descriptor(iso: &mut [u8]) {
    let sector = &mut iso[16 * SECTOR_SIZE..17 * SECTOR_SIZE];
    sector[0] = 1;
    sector[1..6].copy_from_slice(b"CD001");
    sector[6] = 1;
    write_u16_both(sector, 128, SECTOR_SIZE as u16);
    let root = directory_record(20, SECTOR_SIZE as u32, 0x02, &[0]);
    sector[156..156 + root.len()].copy_from_slice(&root);
}

fn write_volume_descriptor_terminator(iso: &mut [u8]) {
    let sector = &mut iso[17 * SECTOR_SIZE..18 * SECTOR_SIZE];
    sector[0] = 255;
    sector[1..6].copy_from_slice(b"CD001");
    sector[6] = 1;
}

fn write_root_directory(iso: &mut [u8], file_name: &str, file_size: u32) {
    let sector = &mut iso[20 * SECTOR_SIZE..21 * SECTOR_SIZE];
    let mut offset = 0;

    for record in [
        directory_record(20, SECTOR_SIZE as u32, 0x02, &[0]),
        directory_record(20, SECTOR_SIZE as u32, 0x02, &[1]),
        directory_record(21, file_size, 0x00, file_name.as_bytes()),
    ] {
        sector[offset..offset + record.len()].copy_from_slice(&record);
        offset += record.len();
    }
}

fn directory_record(extent: u32, size: u32, flags: u8, identifier: &[u8]) -> Vec<u8> {
    let padding = if identifier.len() % 2 == 0 { 1 } else { 0 };
    let length = 33 + identifier.len() + padding;
    let mut record = vec![0_u8; length];
    record[0] = length as u8;
    write_u32_both(&mut record, 2, extent);
    write_u32_both(&mut record, 10, size);
    record[25] = flags;
    write_u16_both(&mut record, 28, 1);
    record[32] = identifier.len() as u8;
    record[33..33 + identifier.len()].copy_from_slice(identifier);
    record
}

fn write_u16_both(target: &mut [u8], offset: usize, value: u16) {
    target[offset..offset + 2].copy_from_slice(&value.to_le_bytes());
    target[offset + 2..offset + 4].copy_from_slice(&value.to_be_bytes());
}

fn write_u32_both(target: &mut [u8], offset: usize, value: u32) {
    target[offset..offset + 4].copy_from_slice(&value.to_le_bytes());
    target[offset + 4..offset + 8].copy_from_slice(&value.to_be_bytes());
}

#[test]
fn a_run_reads_every_image_in_order() {
    let iso = minimal_iso("PHOTO.JPG;1", &[0xff, 0xd8]);
    let mut cfg = config(true, false, &["jpg"]);
    cfg.inputs = vec![b"a.iso".to_vec(), b"b.iso".to_vec()];
    let (mut state, mut step) = RunState::new(cfg);
    let mut opened = Vec::new();
    loop {
        step = match step {
            RunAction::OpenImage { path } => {
                opened.push(path);
                state.opened(list_entries(&iso))
            }
            RunAction::Extract { .. } => panic!("a dry run asks for no outside work"),
            RunAction::TooManyFiles => panic!("too many files to count"),
            RunAction::Finish => break,
        };
    }
    assert_eq!(opened, vec![b"a.iso".to_vec(), b"b.iso".to_vec()]);
    let run = state.run;
    assert_eq!(run.inputs.len(), 2);
    assert_eq!(run.inputs[1].source_iso, b"b.iso".to_vec());
    assert_eq!(run.results.len() as u64, run.candidates_found);
    assert_eq!(run.would_extract, 2);
    assert_eq!(run.results[1].output_path.as_deref(), Some(&b"out/b/PHOTO.JPG"[..]));
}

#[test]
fn a_run_over_no_images_finishes_at_once() {
    let mut cfg = config(false, false, &["jpg"]);
    cfg.inputs = Vec::new();
    let (state, step) = RunState::new(cfg);
    assert!(matches!(step, RunAction::Finish));
    assert!(state.run.results.is_empty());
}
