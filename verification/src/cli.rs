use crate::errors::{is_cli_error, AppError, AppResult};
use crate::iso::{decode_utf8_lossy, utf8_lossy};
use crate::text::{
    chars_eq_str, chars_starts_with, extend_chars, extend_str, is_ascii_alphanumeric, lower,
    split, split_chars, starts_with, str_chars, string_from_chars, strings_view, to_lower, trim,
    trim_chars, trim_start, trim_start_chars, TrimSet,
};
use vstd::prelude::*;
use vstd::utf8::encode_utf8;

verus! {

/// What a run is asked to do. Paths are byte strings, as the system gave
/// them.
#[derive(Debug, Clone, PartialEq, Eq)]
pub struct Config {
    pub inputs: Vec<Vec<u8>>,
    pub output_dir: Vec<u8>,
    pub extensions: Vec<String>,
    pub dry_run: bool,
    pub validate: bool,
    pub overwrite: bool,
    pub convert_to_jpg: bool,
    pub manifest_path: Option<Vec<u8>>,
    pub verbose: bool,
}

#[derive(Debug, Clone, PartialEq, Eq)]
pub enum CliAction {
    Run(Config),
    Help,
    Version,
}

pub struct ConfigView {
    pub inputs: Seq<Seq<u8>>,
    pub output_dir: Seq<u8>,
    pub extensions: Seq<Seq<char>>,
    pub dry_run: bool,
    pub validate: bool,
    pub overwrite: bool,
    pub convert_to_jpg: bool,
    pub manifest_path: Option<Seq<u8>>,
    pub verbose: bool,
}

pub enum CliActionView {
    Run(ConfigView),
    Help,
    Version,
}

pub open spec fn opt_view(o: Option<String>) -> Option<Seq<char>> {
    match o {
        Some(s) => Some(s@),
        None => None,
    }
}

pub open spec fn opt_bytes_view(o: Option<Vec<u8>>) -> Option<Seq<u8>> {
    match o {
        Some(b) => Some(b@),
        None => None,
    }
}

/// The views of a sequence of byte strings.
pub open spec fn bytes_view(v: Seq<Vec<u8>>) -> Seq<Seq<u8>> {
    v.map_values(|b: Vec<u8>| b@)
}

impl View for Config {
    type V = ConfigView;

    open spec fn view(&self) -> ConfigView {
        ConfigView {
            inputs: bytes_view(self.inputs@),
            output_dir: self.output_dir@,
            extensions: strings_view(self.extensions@),
            dry_run: self.dry_run,
            validate: self.validate,
            overwrite: self.overwrite,
            convert_to_jpg: self.convert_to_jpg,
            manifest_path: opt_bytes_view(self.manifest_path),
            verbose: self.verbose,
        }
    }
}

impl View for CliAction {
    type V = CliActionView;

    open spec fn view(&self) -> CliActionView {
        match self {
            CliAction::Run(c) => CliActionView::Run(c@),
            CliAction::Help => CliActionView::Help,
            CliAction::Version => CliActionView::Version,
        }
    }
}

pub const USAGE: &'static str = "Usage: iso-extract-jpegs [OPTIONS] <ISO>...\n\nOptions:\n  -o, --out <DIR>          Output directory\n  -n, --dry-run            Scan only; do not write files\n      --validate           Validate JPEG magic bytes before writing\n      --overwrite          Replace existing output files\n      --manifest <PATH>    Write JSON extraction manifest\n      --extensions <LIST>  Comma-separated extensions; default jpg,jpeg\n      --convert-to-jpg     Convert extracted non-JPEG files to .jpg with ImageMagick\n      --verbose            Print per-file details\n  -h, --help               Print help\n      --version            Print version\n";

// ---------------------------------------------------------------------------
// Extensions
// ---------------------------------------------------------------------------

pub open spec fn is_extension_char(c: char) -> bool {
    is_ascii_alphanumeric(c) || c == '-' || c == '_'
}

/// One comma-separated piece: whitespace trimmed, leading dots removed, lowercased.
pub open spec fn clean_extension(raw: Seq<char>) -> Seq<char> {
    lower(trim_start(trim(raw, TrimSet::Whitespace), TrimSet::Dot))
}

pub open spec fn prepend_strings(prefix: Seq<Seq<char>>, r: Result<Seq<Seq<char>>, Seq<char>>) -> Result<
    Seq<Seq<char>>,
    Seq<char>,
> {
    match r {
        Ok(rest) => Ok(prefix + rest),
        Err(m) => Err(m),
    }
}

/// The extensions of the pieces, in order; empty ones are skipped and the
/// first piece with another character than a letter, digit, `-` or `_` is an error.
pub open spec fn spec_extensions_from(pieces: Seq<Seq<char>>) -> Result<Seq<Seq<char>>, Seq<char>>
    decreases pieces.len(),
{
    if pieces.len() == 0 {
        Ok(Seq::empty())
    } else {
        let e = clean_extension(pieces[0]);
        if e.len() == 0 {
            spec_extensions_from(pieces.drop_first())
        } else if !(forall|k: int| 0 <= k < e.len() ==> is_extension_char(#[trigger] e[k])) {
            Err("invalid extension in --extensions: "@ + pieces[0])
        } else {
            prepend_strings(seq![e], spec_extensions_from(pieces.drop_first()))
        }
    }
}

pub open spec fn spec_parse_extensions(value: Seq<char>) -> Result<Seq<Seq<char>>, Seq<char>> {
    match spec_extensions_from(split(value, seq![','])) {
        Ok(es) => if es.len() == 0 {
            Err("--extensions must include at least one extension"@)
        } else {
            Ok(es)
        },
        Err(m) => Err(m),
    }
}

/// An extension as configured: not empty, lowercase letters, digits, `-`, `_`.
pub open spec fn is_valid_extension(e: Seq<char>) -> bool {
    e.len() > 0 && forall|k: int|
        0 <= k < e.len() ==> is_extension_char(#[trigger] e[k]) && !('A' <= e[k] <= 'Z')
}

proof fn lemma_extensions_valid(pieces: Seq<Seq<char>>)
    ensures
        spec_extensions_from(pieces) matches Ok(es) ==> forall|i: int|
            0 <= i < es.len() ==> is_valid_extension(#[trigger] es[i]),
    decreases pieces.len(),
{
    if pieces.len() > 0 {
        lemma_extensions_valid(pieces.drop_first());
        let e = clean_extension(pieces[0]);
        if let Ok(es) = spec_extensions_from(pieces) {
            if e.len() != 0 {
                let rest = spec_extensions_from(pieces.drop_first())->Ok_0;
                assert(es == seq![e] + rest);
                assert forall|i: int| 0 <= i < es.len() implies is_valid_extension(#[trigger] es[i]) by {
                    if i > 0 {
                        assert(es[i] == rest[i - 1]);
                    } else {
                        assert forall|k: int| 0 <= k < e.len() implies is_extension_char(#[trigger] e[k])
                            && !('A' <= e[k] <= 'Z') by {
                            let t = trim_start(trim(pieces[0], TrimSet::Whitespace), TrimSet::Dot);
                            assert(e[k] == crate::text::lower_char(t[k]));
                            if 'A' <= t[k] <= 'Z' {
                                assert(((t[k] as u32) + 32) as char as u32 == (t[k] as u32) + 32);
                            }
                        }
                    }
                }
            }
        }
    }
}

/// Reads the value of `--extensions`.
pub fn parse_extensions(value: &str) -> (r: AppResult<Vec<String>>)
    ensures
        match (r, spec_parse_extensions(value@)) {
            (Ok(a), Ok(b)) => strings_view(a@) == b,
            (Err(e), Err(m)) => is_cli_error(e, m),
            _ => false,
        },
        r matches Ok(es) ==> es@.len() > 0 && forall|i: int|
            0 <= i < es@.len() ==> is_valid_extension(#[trigger] es@[i]@),
{
    let v = str_chars(value);
    let pieces = split_chars(&v, &[',']);
    assert(seq![','] =~= [',']@);
    let ghost views = pieces@.map_values(|p: Vec<char>| p@);
    proof {
        lemma_extensions_valid(views);
    }
    let mut extensions: Vec<String> = Vec::new();
    let mut i: usize = 0;
    assert(views.skip(0) =~= views);
    assert(strings_view(extensions@) =~= Seq::<Seq<char>>::empty());
    while i < pieces.len()
        invariant
            i <= pieces.len(),
            views == pieces@.map_values(|p: Vec<char>| p@),
            views == split(value@, seq![',']),
            spec_extensions_from(views) matches Ok(es) ==> forall|k: int|
                0 <= k < es.len() ==> is_valid_extension(#[trigger] es[k]),
            spec_extensions_from(views) == prepend_strings(
                strings_view(extensions@),
                spec_extensions_from(views.skip(i as int)),
            ),
        decreases pieces.len() - i,
    {
        let raw = &pieces[i];
        let ghost rest = views.skip(i as int);
        assert(rest[0] == raw@);
        assert(rest.drop_first() =~= views.skip(i + 1));
        let trimmed = trim_chars(raw, &TrimSet::Whitespace);
        let undotted = trim_start_chars(&trimmed, &TrimSet::Dot);
        let extension = to_lower(&undotted);
        if extension.len() == 0 {
            i = i + 1;
            continue;
        }
        let mut ok = true;
        let mut k: usize = 0;
        while k < extension.len()
            invariant
                k <= extension.len(),
                ok == (forall|j: int| 0 <= j < k ==> is_extension_char(#[trigger] extension@[j])),
            decreases extension.len() - k,
        {
            let ch = extension[k];
            if !(('a' <= ch && ch <= 'z') || ('A' <= ch && ch <= 'Z') || ('0' <= ch && ch <= '9')
                || ch == '-' || ch == '_') {
                ok = false;
            }
            k = k + 1;
        }
        if !ok {
            let mut msg = str_chars("invalid extension in --extensions: ");
            extend_chars(&mut msg, raw);
            return Err(AppError::Cli(string_from_chars(&msg)));
        }
        let ghost before = strings_view(extensions@);
        let e = string_from_chars(&extension);
        extensions.push(e);
        proof {
            assert(strings_view(extensions@) =~= before + seq![extension@]);
            match spec_extensions_from(views.skip(i + 1)) {
                Ok(tail) => {
                    assert(before + (seq![extension@] + tail) =~= (before + seq![extension@])
                        + tail);
                },
                Err(_) => {},
            }
        }
        i = i + 1;
    }
    assert(views.skip(i as int) =~= Seq::<Seq<char>>::empty());
    assert(strings_view(extensions@) + Seq::<Seq<char>>::empty() =~= strings_view(extensions@));
    if extensions.len() == 0 {
        return Err(AppError::Cli("--extensions must include at least one extension".to_owned()));
    }
    assert forall|k: int| 0 <= k < extensions@.len() implies is_valid_extension(
        #[trigger] extensions@[k]@,
    ) by {
        assert(strings_view(extensions@)[k] == extensions@[k]@);
    }
    Ok(extensions)
}

// ---------------------------------------------------------------------------
// Arguments
// ---------------------------------------------------------------------------

/// `s` with every leading copy of `pat` removed, as `str::trim_start_matches` does.
pub open spec fn strip_prefixes(s: Seq<char>, pat: Seq<char>) -> Seq<char>
    decreases s.len(),
{
    if pat.len() > 0 && starts_with(s, pat) {
        strip_prefixes(s.skip(pat.len() as int), pat)
    } else {
        s
    }
}

/// What the arguments read so far have set.
pub struct ArgState {
    pub inputs: Seq<Seq<u8>>,
    pub output_dir: Option<Seq<u8>>,
    pub extensions: Seq<Seq<char>>,
    pub dry_run: bool,
    pub validate: bool,
    pub overwrite: bool,
    pub convert_to_jpg: bool,
    pub manifest_path: Option<Seq<u8>>,
    pub verbose: bool,
}

pub open spec fn initial_arg_state() -> ArgState {
    ArgState {
        inputs: Seq::empty(),
        output_dir: None,
        extensions: seq!["jpg"@, "jpeg"@],
        dry_run: false,
        validate: false,
        overwrite: false,
        convert_to_jpg: false,
        manifest_path: None,
        verbose: false,
    }
}

/// An argument read as text, as `OsStr::to_string_lossy` reads it.
pub open spec fn arg_text(arg: Seq<u8>) -> Seq<char> {
    utf8_lossy(arg)
}

/// The value after an option: missing when there is none or its text begins
/// with `-`.
pub open spec fn spec_next_value(args: Seq<Seq<u8>>, j: int, option: Seq<char>) -> Result<
    Seq<u8>,
    Seq<char>,
> {
    if j >= args.len() || (arg_text(args[j]).len() > 0 && arg_text(args[j])[0] == '-') {
        Err("missing value for "@ + option)
    } else {
        Ok(args[j])
    }
}

/// The checks once every argument is read.
pub open spec fn spec_finish_args(st: ArgState) -> Result<CliActionView, Seq<char>> {
    match st.output_dir {
        None => Err("missing required option: --out <DIR>"@),
        Some(out) => if st.inputs.len() == 0 {
            Err("missing input ISO path"@)
        } else if st.dry_run && st.overwrite {
            Err("--dry-run and --overwrite cannot be used together"@)
        } else {
            Ok(
                CliActionView::Run(
                    ConfigView {
                        inputs: st.inputs,
                        output_dir: out,
                        extensions: st.extensions,
                        dry_run: st.dry_run,
                        validate: st.validate,
                        overwrite: st.overwrite,
                        convert_to_jpg: st.convert_to_jpg,
                        manifest_path: st.manifest_path,
                        verbose: st.verbose,
                    },
                ),
            )
        },
    }
}

/// Reads the arguments from index `i` on, after `st`.
pub open spec fn spec_parse_from(args: Seq<Seq<u8>>, i: int, st: ArgState) -> Result<
    CliActionView,
    Seq<char>,
>
    decreases args.len() - i,
{
    if i < 0 || i >= args.len() {
        spec_finish_args(st)
    } else {
        let a = arg_text(args[i]);
        if a == "-h"@ || a == "--help"@ {
            Ok(CliActionView::Help)
        } else if a == "--version"@ {
            Ok(CliActionView::Version)
        } else if a == "-n"@ || a == "--dry-run"@ {
            spec_parse_from(args, i + 1, ArgState { dry_run: true, ..st })
        } else if a == "--validate"@ {
            spec_parse_from(args, i + 1, ArgState { validate: true, ..st })
        } else if a == "--overwrite"@ {
            spec_parse_from(args, i + 1, ArgState { overwrite: true, ..st })
        } else if a == "--convert-to-jpg"@ {
            spec_parse_from(args, i + 1, ArgState { convert_to_jpg: true, ..st })
        } else if a == "--verbose"@ {
            spec_parse_from(args, i + 1, ArgState { verbose: true, ..st })
        } else if a == "-o"@ || a == "--out"@ {
            match spec_next_value(args, i + 1, "--out"@) {
                Err(m) => Err(m),
                Ok(v) => spec_parse_from(args, i + 2, ArgState { output_dir: Some(v), ..st }),
            }
        } else if a == "--manifest"@ {
            match spec_next_value(args, i + 1, "--manifest"@) {
                Err(m) => Err(m),
                Ok(v) => spec_parse_from(args, i + 2, ArgState { manifest_path: Some(v), ..st }),
            }
        } else if a == "--extensions"@ {
            match spec_next_value(args, i + 1, "--extensions"@) {
                Err(m) => Err(m),
                Ok(v) => match spec_parse_extensions(arg_text(v)) {
                    Err(m) => Err(m),
                    Ok(es) => spec_parse_from(args, i + 2, ArgState { extensions: es, ..st }),
                },
            }
        } else if starts_with(a, "--out="@) {
            spec_parse_from(
                args,
                i + 1,
                ArgState { output_dir: Some(encode_utf8(strip_prefixes(a, "--out="@))), ..st },
            )
        } else if starts_with(a, "--manifest="@) {
            spec_parse_from(
                args,
                i + 1,
                ArgState {
                    manifest_path: Some(encode_utf8(strip_prefixes(a, "--manifest="@))),
                    ..st
                },
            )
        } else if starts_with(a, "--extensions="@) {
            match spec_parse_extensions(strip_prefixes(a, "--extensions="@)) {
                Err(m) => Err(m),
                Ok(es) => spec_parse_from(args, i + 1, ArgState { extensions: es, ..st }),
            }
        } else if a.len() > 0 && a[0] == '-' {
            Err("unknown option: "@ + a)
        } else {
            spec_parse_from(args, i + 1, ArgState { inputs: st.inputs.push(args[i]), ..st })
        }
    }
}

/// The action that the command-line arguments ask for.
pub open spec fn spec_parse_args(args: Seq<Seq<u8>>) -> Result<CliActionView, Seq<char>> {
    spec_parse_from(args, 0, initial_arg_state())
}

/// A configuration that a run can use: at least one input, each an argument
/// that is not an option, at least one extension, each valid, and not both
/// a dry run and overwriting.
pub open spec fn is_usable_config(args: Seq<Seq<u8>>, c: ConfigView) -> bool {
    &&& c.inputs.len() > 0
    &&& forall|k: int|
        0 <= k < c.inputs.len() ==> args.contains(#[trigger] c.inputs[k]) && !(arg_text(
            c.inputs[k],
        ).len() > 0 && arg_text(c.inputs[k])[0] == '-')
    &&& c.extensions.len() > 0
    &&& forall|k: int| 0 <= k < c.extensions.len() ==> is_valid_extension(#[trigger] c.extensions[k])
    &&& !(c.dry_run && c.overwrite)
}

/// What the arguments read so far keep true of the state.
pub open spec fn is_good_arg_state(args: Seq<Seq<u8>>, st: ArgState) -> bool {
    &&& forall|k: int|
        0 <= k < st.inputs.len() ==> args.contains(#[trigger] st.inputs[k]) && !(arg_text(
            st.inputs[k],
        ).len() > 0 && arg_text(st.inputs[k])[0] == '-')
    &&& st.extensions.len() > 0
    &&& forall|k: int|
        0 <= k < st.extensions.len() ==> is_valid_extension(#[trigger] st.extensions[k])
}

/// A successful `--extensions` value gives at least one valid extension.
pub proof fn lemma_parse_extensions_valid(value: Seq<char>)
    ensures
        spec_parse_extensions(value) matches Ok(es) ==> es.len() > 0 && forall|k: int|
            0 <= k < es.len() ==> is_valid_extension(#[trigger] es[k]),
{
    lemma_extensions_valid(split(value, seq![',']));
}

proof fn lemma_parse_from_usable(args: Seq<Seq<u8>>, i: int, st: ArgState)
    requires
        is_good_arg_state(args, st),
    ensures
        spec_parse_from(args, i, st) matches Ok(CliActionView::Run(c)) ==> is_usable_config(
            args,
            c,
        ),
    decreases args.len() - i,
{
    if 0 <= i < args.len() {
        let a = arg_text(args[i]);
        if a == "-h"@ || a == "--help"@ || a == "--version"@ {
        } else if a == "-n"@ || a == "--dry-run"@ {
            lemma_parse_from_usable(args, i + 1, ArgState { dry_run: true, ..st });
        } else if a == "--validate"@ {
            lemma_parse_from_usable(args, i + 1, ArgState { validate: true, ..st });
        } else if a == "--overwrite"@ {
            lemma_parse_from_usable(args, i + 1, ArgState { overwrite: true, ..st });
        } else if a == "--convert-to-jpg"@ {
            lemma_parse_from_usable(args, i + 1, ArgState { convert_to_jpg: true, ..st });
        } else if a == "--verbose"@ {
            lemma_parse_from_usable(args, i + 1, ArgState { verbose: true, ..st });
        } else if a == "-o"@ || a == "--out"@ {
            if let Ok(v) = spec_next_value(args, i + 1, "--out"@) {
                lemma_parse_from_usable(args, i + 2, ArgState { output_dir: Some(v), ..st });
            }
        } else if a == "--manifest"@ {
            if let Ok(v) = spec_next_value(args, i + 1, "--manifest"@) {
                lemma_parse_from_usable(args, i + 2, ArgState { manifest_path: Some(v), ..st });
            }
        } else if a == "--extensions"@ {
            if let Ok(v) = spec_next_value(args, i + 1, "--extensions"@) {
                lemma_parse_extensions_valid(arg_text(v));
                if let Ok(es) = spec_parse_extensions(arg_text(v)) {
                    lemma_parse_from_usable(args, i + 2, ArgState { extensions: es, ..st });
                }
            }
        } else if starts_with(a, "--out="@) {
            lemma_parse_from_usable(
                args,
                i + 1,
                ArgState { output_dir: Some(encode_utf8(strip_prefixes(a, "--out="@))), ..st },
            );
        } else if starts_with(a, "--manifest="@) {
            lemma_parse_from_usable(
                args,
                i + 1,
                ArgState {
                    manifest_path: Some(encode_utf8(strip_prefixes(a, "--manifest="@))),
                    ..st
                },
            );
        } else if starts_with(a, "--extensions="@) {
            let v = strip_prefixes(a, "--extensions="@);
            lemma_parse_extensions_valid(v);
            if let Ok(es) = spec_parse_extensions(v) {
                lemma_parse_from_usable(args, i + 1, ArgState { extensions: es, ..st });
            }
        } else if a.len() > 0 && a[0] == '-' {
        } else {
            let st2 = ArgState { inputs: st.inputs.push(args[i]), ..st };
            assert forall|k: int| 0 <= k < st2.inputs.len() implies args.contains(
                #[trigger] st2.inputs[k],
            ) && !(arg_text(st2.inputs[k]).len() > 0 && arg_text(st2.inputs[k])[0] == '-') by {
                if k == st.inputs.len() {
                    assert(args[i] == st2.inputs[k]);
                } else {
                    assert(st2.inputs[k] == st.inputs[k]);
                }
            }
            lemma_parse_from_usable(args, i + 1, st2);
        }
    }
}

/// Every run that the arguments ask for has at least one input, each an
/// argument that is not an option, at least one valid extension, and is not
/// both a dry run and overwriting.
pub proof fn lemma_parsed_run_is_usable(args: Seq<Seq<u8>>)
    ensures
        spec_parse_args(args) matches Ok(CliActionView::Run(c)) ==> is_usable_config(args, c),
{
    reveal_strlit("jpg");
    reveal_strlit("jpeg");
    let st = initial_arg_state();
    assert forall|k: int| 0 <= k < st.extensions.len() implies is_valid_extension(
        #[trigger] st.extensions[k],
    ) by {
        if k == 0 {
            assert(st.extensions[k] == "jpg"@);
        } else {
            assert(st.extensions[k] == "jpeg"@);
        }
    }
    lemma_parse_from_usable(args, 0, st);
}

/// The arguments that are neither options nor the value of an option that
/// takes one, in order.
pub open spec fn free_args(args: Seq<Seq<u8>>, i: int) -> Seq<Seq<u8>>
    decreases (if i < args.len() {
        args.len() - i
    } else {
        0
    }),
{
    if i < 0 || i >= args.len() {
        Seq::empty()
    } else {
        let a = arg_text(args[i]);
        if a == "-o"@ || a == "--out"@ || a == "--manifest"@ || a == "--extensions"@ {
            free_args(args, i + 2)
        } else if a.len() > 0 && a[0] == '-' {
            free_args(args, i + 1)
        } else {
            seq![args[i]] + free_args(args, i + 1)
        }
    }
}

proof fn lemma_parse_from_inputs(args: Seq<Seq<u8>>, i: int, st: ArgState)
    requires
        0 <= i,
    ensures
        spec_parse_from(args, i, st) matches Ok(CliActionView::Run(c)) ==> c.inputs == st.inputs
            + free_args(args, i),
    decreases (if i < args.len() {
        args.len() - i
    } else {
        0
    }),
{
    reveal_strlit("--out=");
    reveal_strlit("--manifest=");
    reveal_strlit("--extensions=");
    reveal_strlit("-o");
    reveal_strlit("--out");
    reveal_strlit("--manifest");
    reveal_strlit("--extensions");
    reveal_strlit("-n");
    reveal_strlit("--dry-run");
    reveal_strlit("--validate");
    reveal_strlit("--overwrite");
    reveal_strlit("--convert-to-jpg");
    reveal_strlit("--verbose");
    if i >= args.len() {
        assert(st.inputs + Seq::<Seq<u8>>::empty() =~= st.inputs);
    } else {
        let a = arg_text(args[i]);
        if a == "-h"@ || a == "--help"@ || a == "--version"@ {
        } else if a == "-n"@ || a == "--dry-run"@ {
            assert(a[0] == '-');
            assert(a != "-o"@) by {
                if a == "-n"@ {
                    assert(a[1] != "-o"@[1]);
                }
            }
            lemma_parse_from_inputs(args, i + 1, ArgState { dry_run: true, ..st });
        } else if a == "--validate"@ {
            assert(a[0] == '-');
            assert(a != "--manifest"@) by {
                assert(a[2] != "--manifest"@[2]);
            }
            lemma_parse_from_inputs(args, i + 1, ArgState { validate: true, ..st });
        } else if a == "--overwrite"@ {
            assert(a[0] == '-');
            lemma_parse_from_inputs(args, i + 1, ArgState { overwrite: true, ..st });
        } else if a == "--convert-to-jpg"@ {
            assert(a[0] == '-');
            lemma_parse_from_inputs(args, i + 1, ArgState { convert_to_jpg: true, ..st });
        } else if a == "--verbose"@ {
            assert(a[0] == '-');
            lemma_parse_from_inputs(args, i + 1, ArgState { verbose: true, ..st });
        } else if a == "-o"@ || a == "--out"@ {
            if let Ok(v) = spec_next_value(args, i + 1, "--out"@) {
                lemma_parse_from_inputs(args, i + 2, ArgState { output_dir: Some(v), ..st });
            }
        } else if a == "--manifest"@ {
            if let Ok(v) = spec_next_value(args, i + 1, "--manifest"@) {
                lemma_parse_from_inputs(args, i + 2, ArgState { manifest_path: Some(v), ..st });
            }
        } else if a == "--extensions"@ {
            if let Ok(v) = spec_next_value(args, i + 1, "--extensions"@) {
                if let Ok(es) = spec_parse_extensions(arg_text(v)) {
                    lemma_parse_from_inputs(args, i + 2, ArgState { extensions: es, ..st });
                }
            }
        } else if starts_with(a, "--out="@) {
            assert(a.subrange(0, 6)[0] == a[0]);
            lemma_parse_from_inputs(
                args,
                i + 1,
                ArgState { output_dir: Some(encode_utf8(strip_prefixes(a, "--out="@))), ..st },
            );
        } else if starts_with(a, "--manifest="@) {
            assert(a.subrange(0, 11)[0] == a[0]);
            lemma_parse_from_inputs(
                args,
                i + 1,
                ArgState {
                    manifest_path: Some(encode_utf8(strip_prefixes(a, "--manifest="@))),
                    ..st
                },
            );
        } else if starts_with(a, "--extensions="@) {
            assert(a.subrange(0, 13)[0] == a[0]);
            if let Ok(es) = spec_parse_extensions(strip_prefixes(a, "--extensions="@)) {
                lemma_parse_from_inputs(args, i + 1, ArgState { extensions: es, ..st });
            }
        } else if a.len() > 0 && a[0] == '-' {
        } else {
            let st2 = ArgState { inputs: st.inputs.push(args[i]), ..st };
            lemma_parse_from_inputs(args, i + 1, st2);
            assert(st.inputs.push(args[i]) + free_args(args, i + 1) =~= st.inputs + (seq![args[i]]
                + free_args(args, i + 1)));
        }
    }
}

/// The inputs of a run are exactly the arguments that are neither options
/// nor the value of an option, in the order given.
pub proof fn lemma_run_inputs_are_free_args(args: Seq<Seq<u8>>)
    ensures
        spec_parse_args(args) matches Ok(CliActionView::Run(c)) ==> c.inputs == free_args(args, 0),
{
    lemma_parse_from_inputs(args, 0, initial_arg_state());
    assert(Seq::<Seq<u8>>::empty() + free_args(args, 0) =~= free_args(args, 0));
}

proof fn lemma_short_out_step(
    args: Seq<Seq<u8>>,
    args2: Seq<Seq<u8>>,
    i: int,
    j: int,
    st: ArgState,
)
    requires
        0 <= i < args.len(),
        args2.len() == args.len(),
        forall|k: int| 0 <= k < args.len() && k != i ==> args2[k] == args[k],
        arg_text(args[i]) == "-o"@,
        arg_text(args2[i]) == "--out"@,
        0 <= j,
    ensures
        spec_parse_from(args2, j, st) == spec_parse_from(args, j, st),
    decreases (if j < args.len() {
        args.len() - j
    } else {
        0
    }),
{
    reveal_strlit("-o");
    reveal_strlit("--out");
    reveal_strlit("-h");
    reveal_strlit("--help");
    reveal_strlit("--version");
    reveal_strlit("-n");
    reveal_strlit("--dry-run");
    reveal_strlit("--validate");
    reveal_strlit("--overwrite");
    reveal_strlit("--convert-to-jpg");
    reveal_strlit("--verbose");
    reveal_strlit("--manifest");
    reveal_strlit("--extensions");
    reveal_strlit("--out=");
    reveal_strlit("--manifest=");
    reveal_strlit("--extensions=");
    if j >= args.len() {
        return;
    }
    // The value read after an option is the same in both, or missing in both.
    assert forall|opt: Seq<char>| #[trigger] spec_next_value(args2, j + 1, opt) == spec_next_value(
        args,
        j + 1,
        opt,
    ) by {
        if j + 1 < args.len() && j + 1 != i {
            assert(args2[j + 1] == args[j + 1]);
        }
    }
    let a = arg_text(args[j]);
    if j == i {
        assert(a != "-h"@ && a != "-n"@) by {
            assert(a[1] == 'o');
            assert("-h"@[1] == 'h');
            assert("-n"@[1] == 'n');
        }
        let a2 = arg_text(args2[j]);
        assert(a2.len() == 5);
        if let Ok(v) = spec_next_value(args, i + 1, "--out"@) {
            lemma_short_out_step(args, args2, i, i + 2, ArgState { output_dir: Some(v), ..st });
        }
    } else {
        assert(args2[j] == args[j]);
        lemma_short_out_step(args, args2, i, j + 1, ArgState { dry_run: true, ..st });
        lemma_short_out_step(args, args2, i, j + 1, ArgState { validate: true, ..st });
        lemma_short_out_step(args, args2, i, j + 1, ArgState { overwrite: true, ..st });
        lemma_short_out_step(args, args2, i, j + 1, ArgState { convert_to_jpg: true, ..st });
        lemma_short_out_step(args, args2, i, j + 1, ArgState { verbose: true, ..st });
        if let Ok(v) = spec_next_value(args, j + 1, "--out"@) {
            lemma_short_out_step(args, args2, i, j + 2, ArgState { output_dir: Some(v), ..st });
        }
        if let Ok(v) = spec_next_value(args, j + 1, "--manifest"@) {
            lemma_short_out_step(args, args2, i, j + 2, ArgState { manifest_path: Some(v), ..st });
        }
        if let Ok(v) = spec_next_value(args, j + 1, "--extensions"@) {
            if let Ok(es) = spec_parse_extensions(arg_text(v)) {
                lemma_short_out_step(args, args2, i, j + 2, ArgState { extensions: es, ..st });
            }
        }
        lemma_short_out_step(
            args,
            args2,
            i,
            j + 1,
            ArgState { output_dir: Some(encode_utf8(strip_prefixes(a, "--out="@))), ..st },
        );
        lemma_short_out_step(
            args,
            args2,
            i,
            j + 1,
            ArgState { manifest_path: Some(encode_utf8(strip_prefixes(a, "--manifest="@))), ..st },
        );
        if let Ok(es) = spec_parse_extensions(strip_prefixes(a, "--extensions="@)) {
            lemma_short_out_step(args, args2, i, j + 1, ArgState { extensions: es, ..st });
        }
        lemma_short_out_step(args, args2, i, j + 1, ArgState { inputs: st.inputs.push(args[j]), ..st });
    }
}

/// `-o` is another spelling of `--out`: replacing an argument that reads
/// `-o` by one that reads `--out`, anywhere, does not change what the
/// arguments ask for.
pub proof fn lemma_short_out_is_out(args: Seq<Seq<u8>>, i: int, long: Seq<u8>)
    requires
        0 <= i < args.len(),
        arg_text(args[i]) == "-o"@,
        arg_text(long) == "--out"@,
    ensures
        spec_parse_args(args.update(i, long)) == spec_parse_args(args),
{
    lemma_short_out_step(args, args.update(i, long), i, 0, initial_arg_state());
}

fn strip_prefixes_exec(s: &[char], pat: &[char]) -> (r: Vec<char>)
    ensures
        r@ == strip_prefixes(s@, pat@),
{
    let mut i: usize = 0;
    assert(s@.skip(0) =~= s@);
    if pat.len() == 0 {
        let mut r: Vec<char> = Vec::new();
        extend_chars(&mut r, s);
        return r;
    }
    while i <= s.len() && chars_starts_with(&s[i..s.len()], pat)
        invariant
            i <= s.len(),
            pat.len() > 0,
            strip_prefixes(s@, pat@) == strip_prefixes(s@.skip(i as int), pat@),
        decreases s.len() - i,
    {
        assert(s@.subrange(i as int, s@.len() as int) =~= s@.skip(i as int));
        assert(s@.skip(i as int).skip(pat@.len() as int) =~= s@.skip(i + pat.len()));
        i = i + pat.len();
    }
    assert(s@.subrange(i as int, s@.len() as int) =~= s@.skip(i as int));
    let mut r: Vec<char> = Vec::new();
    extend_chars(&mut r, &s[i..s.len()]);
    r
}

/// The value after option `option`, at index `j`.
fn next_value(args: &[Vec<u8>], j: usize, option: &str) -> (r: AppResult<Vec<u8>>)
    ensures
        match (r, spec_next_value(bytes_view(args@), j as int, option@)) {
            (Ok(a), Ok(b)) => a@ == b,
            (Err(e), Err(m)) => is_cli_error(e, m),
            _ => false,
        },
{
    if j >= args.len() {
        let mut msg = str_chars("missing value for ");
        extend_str(&mut msg, option);
        return Err(AppError::Cli(string_from_chars(&msg)));
    }
    let text = decode_utf8_lossy(args[j].as_slice());
    let value = str_chars(text.as_str());
    assert(bytes_view(args@)[j as int] == args@[j as int]@);
    if value.len() > 0 && value[0] == '-' {
        let mut msg = str_chars("missing value for ");
        extend_str(&mut msg, option);
        return Err(AppError::Cli(string_from_chars(&msg)));
    }
    Ok(args[j].clone())
}

/// The UTF-8 bytes of the characters.
fn chars_utf8(v: &[char]) -> (r: Vec<u8>)
    ensures
        r@ == encode_utf8(v@),
{
    let s = string_from_chars(v);
    vstd::slice::slice_to_vec(s.as_str().as_bytes())
}

/// Reads the command-line arguments (without the program name), each as the
/// bytes the system gave.
pub fn parse_args(args: Vec<Vec<u8>>) -> (r: AppResult<CliAction>)
    ensures
        match (r, spec_parse_args(bytes_view(args@))) {
            (Ok(a), Ok(b)) => a@ == b,
            (Err(e), Err(m)) => is_cli_error(e, m),
            _ => false,
        },
{
    let ghost av = bytes_view(args@);
    let mut inputs: Vec<Vec<u8>> = Vec::new();
    let mut output_dir: Option<Vec<u8>> = None;
    let mut extensions: Vec<String> = Vec::new();
    extensions.push("jpg".to_owned());
    extensions.push("jpeg".to_owned());
    let mut dry_run = false;
    let mut validate = false;
    let mut overwrite = false;
    let mut convert_to_jpg = false;
    let mut manifest_path: Option<Vec<u8>> = None;
    let mut verbose = false;
    assert(strings_view(extensions@) =~= seq!["jpg"@, "jpeg"@]);
    assert(bytes_view(inputs@) =~= Seq::<Seq<u8>>::empty());
    let mut i: usize = 0;
    while i < args.len()
        invariant
            i <= args.len(),
            av == bytes_view(args@),
            spec_parse_args(av) == spec_parse_from(
                av,
                i as int,
                (ArgState {
                    inputs: bytes_view(inputs@),
                    output_dir: opt_bytes_view(output_dir),
                    extensions: strings_view(extensions@),
                    dry_run,
                    validate,
                    overwrite,
                    convert_to_jpg,
                    manifest_path: opt_bytes_view(manifest_path),
                    verbose,
                }),
            ),
        decreases args.len() - i,
    {
        let lossy = decode_utf8_lossy(args[i].as_slice());
        let text = str_chars(lossy.as_str());
        assert(av[i as int] == args@[i as int]@);
        assert(arg_text(av[i as int]) == text@);
        if chars_eq_str(&text, "-h") || chars_eq_str(&text, "--help") {
            return Ok(CliAction::Help);
        } else if chars_eq_str(&text, "--version") {
            return Ok(CliAction::Version);
        } else if chars_eq_str(&text, "-n") || chars_eq_str(&text, "--dry-run") {
            dry_run = true;
            i = i + 1;
        } else if chars_eq_str(&text, "--validate") {
            validate = true;
            i = i + 1;
        } else if chars_eq_str(&text, "--overwrite") {
            overwrite = true;
            i = i + 1;
        } else if chars_eq_str(&text, "--convert-to-jpg") {
            convert_to_jpg = true;
            i = i + 1;
        } else if chars_eq_str(&text, "--verbose") {
            verbose = true;
            i = i + 1;
        } else if chars_eq_str(&text, "-o") || chars_eq_str(&text, "--out") {
            let value = next_value(&args, i + 1, "--out")?;
            output_dir = Some(value);
            i = i + 2;
        } else if chars_eq_str(&text, "--manifest") {
            let value = next_value(&args, i + 1, "--manifest")?;
            manifest_path = Some(value);
            i = i + 2;
        } else if chars_eq_str(&text, "--extensions") {
            let value = next_value(&args, i + 1, "--extensions")?;
            let value_text = decode_utf8_lossy(value.as_slice());
            extensions = parse_extensions(value_text.as_str())?;
            i = i + 2;
        } else if chars_starts_with(&text, &str_chars("--out=")) {
            let v = strip_prefixes_exec(&text, &str_chars("--out="));
            output_dir = Some(chars_utf8(&v));
            i = i + 1;
        } else if chars_starts_with(&text, &str_chars("--manifest=")) {
            let v = strip_prefixes_exec(&text, &str_chars("--manifest="));
            manifest_path = Some(chars_utf8(&v));
            i = i + 1;
        } else if chars_starts_with(&text, &str_chars("--extensions=")) {
            let v = strip_prefixes_exec(&text, &str_chars("--extensions="));
            let vs = string_from_chars(&v);
            extensions = parse_extensions(vs.as_str())?;
            i = i + 1;
        } else if text.len() > 0 && text[0] == '-' {
            let mut msg = str_chars("unknown option: ");
            extend_chars(&mut msg, &text);
            return Err(AppError::Cli(string_from_chars(&msg)));
        } else {
            let ghost before = bytes_view(inputs@);
            inputs.push(args[i].clone());
            assert(bytes_view(inputs@) =~= before.push(av[i as int]));
            i = i + 1;
        }
    }
    let output_dir = match output_dir {
        Some(o) => o,
        None => {
            return Err(AppError::Cli("missing required option: --out <DIR>".to_owned()));
        },
    };
    if inputs.len() == 0 {
        return Err(AppError::Cli("missing input ISO path".to_owned()));
    }
    if dry_run && overwrite {
        return Err(AppError::Cli("--dry-run and --overwrite cannot be used together".to_owned()));
    }
    Ok(
        CliAction::Run(
            Config {
                inputs,
                output_dir,
                extensions,
                dry_run,
                validate,
                overwrite,
                convert_to_jpg,
                manifest_path,
                verbose,
            },
        ),
    )
}

/// The help text.
pub fn usage() -> (r: &'static str)
    ensures
        r@ == USAGE@,
{
    USAGE
}

} // verus!
