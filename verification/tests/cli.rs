use iso_extract_jpegs::cli::{parse_args, parse_extensions, usage, CliAction};

fn args(list: &[&str]) -> Vec<Vec<u8>> {
    list.iter().map(|a| a.as_bytes().to_vec()).collect()
}

#[test]
fn parses_minimal_command() {
    let action = parse_args(args(&["disc.iso", "--out", "out"])).unwrap();
    match action {
        CliAction::Run(config) => {
            assert_eq!(config.inputs, vec![b"disc.iso".to_vec()]);
            assert_eq!(config.output_dir, b"out".to_vec());
            assert_eq!(config.extensions, vec!["jpg", "jpeg"]);
        }
        _ => panic!("expected run action"),
    }
}

#[test]
fn rejects_dry_run_with_overwrite() {
    let err = parse_args(args(&["disc.iso", "--out", "out", "--dry-run", "--overwrite"]))
        .unwrap_err();
    assert_eq!(err.exit_code(), 2);
}

#[test]
fn parses_custom_extensions() {
    let action = parse_args(args(&["disc.iso", "--out", "out", "--extensions", "pcd,.bmp"]))
        .unwrap();
    match action {
        CliAction::Run(config) => assert_eq!(config.extensions, vec!["pcd", "bmp"]),
        _ => panic!("expected run action"),
    }
}

#[test]
fn help_and_version_win() {
    assert_eq!(parse_args(args(&["--out", "x", "-h"])).unwrap(), CliAction::Help);
    assert_eq!(parse_args(args(&["--version", "--bogus"])).unwrap(), CliAction::Version);
}

#[test]
fn equals_forms_and_flags() {
    let action = parse_args(args(&[
        "a.iso",
        "b.iso",
        "--out=dir",
        "--manifest=m.json",
        "--extensions= PCD , ..Bmp,,",
        "-n",
        "--validate",
        "--convert-to-jpg",
        "--verbose",
    ]))
    .unwrap();
    match action {
        CliAction::Run(config) => {
            assert_eq!(config.inputs, vec![b"a.iso".to_vec(), b"b.iso".to_vec()]);
            assert_eq!(config.output_dir, b"dir".to_vec());
            assert_eq!(config.manifest_path.as_deref(), Some(&b"m.json"[..]));
            assert_eq!(config.extensions, vec!["pcd", "bmp"]);
            assert!(config.dry_run && config.validate && config.convert_to_jpg && config.verbose);
            assert!(!config.overwrite);
        }
        _ => panic!("expected run action"),
    }
}

#[test]
fn repeated_prefix_is_trimmed() {
    match parse_args(args(&["a.iso", "--out=--out=x"])).unwrap() {
        CliAction::Run(config) => assert_eq!(config.output_dir, b"x".to_vec()),
        _ => panic!("expected run action"),
    }
}

#[test]
fn reports_each_argument_error() {
    let message = |list: &[&str]| parse_args(args(list)).unwrap_err().message();
    assert_eq!(message(&["a.iso"]), "missing required option: --out <DIR>");
    assert_eq!(message(&["--out", "o"]), "missing input ISO path");
    assert_eq!(message(&["a.iso", "--out"]), "missing value for --out");
    assert_eq!(message(&["a.iso", "--out", "-n"]), "missing value for --out");
    assert_eq!(message(&["a.iso", "--frobnicate"]), "unknown option: --frobnicate");
    assert_eq!(
        message(&["a.iso", "--out", "o", "--extensions", "j+g"]),
        "invalid extension in --extensions: j+g"
    );
    assert_eq!(
        message(&["a.iso", "--out", "o", "--extensions", " , ."]),
        "--extensions must include at least one extension"
    );
    assert_eq!(
        parse_args(args(&["a.iso", "--frobnicate"])).unwrap_err().exit_code(),
        2
    );
}

#[test]
fn usage_lists_options() {
    let text = usage();
    assert!(text.starts_with("Usage: iso-extract-jpegs [OPTIONS] <ISO>...\n"));
    assert!(text.contains("  -o, --out <DIR>          Output directory\n"));
    assert!(text.ends_with("      --version            Print version\n"));
}

#[test]
fn extension_values_are_cleaned_in_order() {
    assert_eq!(parse_extensions(" .PCD , ,jpg,jpg").unwrap(), vec!["pcd", "jpg", "jpg"]);
    assert_eq!(
        parse_extensions("ok, a b ,x+y").unwrap_err().message(),
        "invalid extension in --extensions:  a b "
    );
    assert_eq!(
        parse_extensions("").unwrap_err().message(),
        "--extensions must include at least one extension"
    );
}

#[test]
fn a_run_has_inputs_that_are_not_options() {
    match parse_args(args(&["a.iso", "--out", "o", "b.iso", "--manifest", "m.json"])).unwrap() {
        CliAction::Run(config) => {
            assert_eq!(config.inputs, vec![b"a.iso".to_vec(), b"b.iso".to_vec()]);
            assert!(!config.extensions.is_empty());
        }
        _ => panic!("expected run action"),
    }
}

#[test]
fn paths_keep_the_bytes_the_system_gave() {
    let raw_iso = vec![b'd', 0xff, b'.', b'i', b's', b'o'];
    let raw_out = vec![b'o', 0xfe];
    let action = parse_args(vec![raw_iso.clone(), b"--out".to_vec(), raw_out.clone()]).unwrap();
    match action {
        CliAction::Run(config) => {
            assert_eq!(config.inputs, vec![raw_iso]);
            assert_eq!(config.output_dir, raw_out);
        }
        _ => panic!("expected run action"),
    }
    match parse_args(vec![b"a.iso".to_vec(), b"--out=\xc3\xa9".to_vec()]).unwrap() {
        CliAction::Run(config) => assert_eq!(config.output_dir, "\u{e9}".as_bytes().to_vec()),
        _ => panic!("expected run action"),
    }
}
