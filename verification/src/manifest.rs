use crate::iso::{decode_utf8_lossy, utf8_lossy};
use crate::extractor::{spec_status_str, ExtractionResult, InputSummary, RunSummary};
use crate::text::{
    decimal, extend_chars, extend_str, hex4, hex4_chars, is_control, is_control_char, join,
    str_chars, string_from_chars, u64_to_decimal,
};
use crate::json::{indent, is_plain_text, lemma_plain_text_unescaped, render, render_member, render_members, JsonValue};
use vstd::prelude::*;

verus! {

// ---------------------------------------------------------------------------
// JSON strings
// ---------------------------------------------------------------------------

/// How one character is written inside a JSON string.
pub open spec fn escape_char(c: char) -> Seq<char> {
    if c == '"' {
        seq!['\\', '"']
    } else if c == '\\' {
        seq!['\\', '\\']
    } else if c == '\n' {
        seq!['\\', 'n']
    } else if c == '\r' {
        seq!['\\', 'r']
    } else if c == '\t' {
        seq!['\\', 't']
    } else if c == '\u{08}' {
        seq!['\\', 'b']
    } else if c == '\u{0c}' {
        seq!['\\', 'f']
    } else if is_control(c) {
        seq!['\\', 'u'] + hex4(c as nat)
    } else {
        seq![c]
    }
}

/// The escaped characters of a text.
pub open spec fn escape_text(s: Seq<char>) -> Seq<char>
    decreases s.len(),
{
    if s.len() == 0 {
        Seq::empty()
    } else {
        escape_char(s[0]) + escape_text(s.drop_first())
    }
}

/// A text as a JSON string literal.
pub open spec fn spec_json_string(s: Seq<char>) -> Seq<char> {
    seq!['"'] + escape_text(s) + seq!['"']
}

pub proof fn lemma_escape_text_append(a: Seq<char>, b: Seq<char>)
    ensures
        escape_text(a + b) == escape_text(a) + escape_text(b),
    decreases a.len(),
{
    if a.len() == 0 {
        assert(a + b =~= b);
        assert(Seq::<char>::empty() + escape_text(b) =~= escape_text(b));
    } else {
        lemma_escape_text_append(a.drop_first(), b);
        assert((a + b).drop_first() =~= a.drop_first() + b);
        assert((a + b)[0] == a[0]);
        assert(escape_char(a[0]) + (escape_text(a.drop_first()) + escape_text(b)) =~= (escape_char(
            a[0],
        ) + escape_text(a.drop_first())) + escape_text(b));
    }
}

fn escape_char_exec(c: char, out: &mut Vec<char>)
    ensures
        final(out)@ == old(out)@ + escape_char(c),
{
    if c == '"' {
        out.push('\\');
        out.push('"');
    } else if c == '\\' {
        out.push('\\');
        out.push('\\');
    } else if c == '\n' {
        out.push('\\');
        out.push('n');
    } else if c == '\r' {
        out.push('\\');
        out.push('r');
    } else if c == '\t' {
        out.push('\\');
        out.push('t');
    } else if c == '\u{08}' {
        out.push('\\');
        out.push('b');
    } else if c == '\u{0c}' {
        out.push('\\');
        out.push('f');
    } else if is_control_char(c) {
        out.push('\\');
        out.push('u');
        let h = hex4_chars(c as u32);
        extend_chars(out, &h);
        assert(out@ =~= old(out)@ + (seq!['\\', 'u'] + hex4(c as nat)));
        return ;
    } else {
        out.push(c);
    }
    assert(out@ =~= old(out)@ + escape_char(c));
}

/// The value as a JSON string literal, quotes included.
pub fn json_string(value: &str) -> (r: String)
    ensures
        r@ == spec_json_string(value@),
{
    let v = str_chars(value);
    let mut out: Vec<char> = Vec::new();
    out.push('"');
    let mut i: usize = 0;
    while i < v.len()
        invariant
            i <= v.len(),
            out@ == seq!['"'] + escape_text(v@.take(i as int)),
        decreases v.len() - i,
    {
        let ghost before = out@;
        escape_char_exec(v[i], &mut out);
        proof {
            lemma_escape_text_append(v@.take(i as int), seq![v@[i as int]]);
            assert(v@.take(i + 1) =~= v@.take(i as int) + seq![v@[i as int]]);
            assert(seq![v@[i as int]].drop_first() =~= Seq::<char>::empty());
            assert(escape_text(Seq::<char>::empty()) =~= Seq::<char>::empty());
            assert(seq![v@[i as int]][0] == v@[i as int]);
            assert(escape_char(v@[i as int]) + Seq::<char>::empty() =~= escape_char(v@[i as int]));
            assert(escape_text(seq![v@[i as int]]) =~= escape_char(v@[i as int]));
        }
        i = i + 1;
    }
    out.push('"');
    assert(v@.take(v.len() as int) =~= v@);
    string_from_chars(&out)
}

// ---------------------------------------------------------------------------
// Reading a JSON string back
// ---------------------------------------------------------------------------

pub open spec fn is_hex_digit(c: char) -> bool {
    ('0' <= c && c <= '9') || ('a' <= c && c <= 'f') || ('A' <= c && c <= 'F')
}

pub open spec fn hex_value(c: char) -> int {
    if '0' <= c && c <= '9' {
        c as int - 48
    } else if 'a' <= c && c <= 'f' {
        c as int - 87
    } else {
        c as int - 55
    }
}

/// The character that a one-letter escape `\x` stands for.
pub open spec fn simple_escape(c: char) -> Option<char> {
    if c == '"' {
        Some('"')
    } else if c == '\\' {
        Some('\\')
    } else if c == '/' {
        Some('/')
    } else if c == 'n' {
        Some('\n')
    } else if c == 'r' {
        Some('\r')
    } else if c == 't' {
        Some('\t')
    } else if c == 'b' {
        Some('\u{08}')
    } else if c == 'f' {
        Some('\u{0c}')
    } else {
        None
    }
}

pub open spec fn prepend_char(c: char, r: Option<Seq<char>>) -> Option<Seq<char>> {
    match r {
        Some(rest) => Some(seq![c] + rest),
        None => None,
    }
}

/// The text that the inside of a JSON string literal stands for, as a JSON
/// reader decodes it (`\u` escapes of surrogates are not read).
pub open spec fn json_unescape(t: Seq<char>) -> Option<Seq<char>>
    decreases t.len(),
{
    if t.len() == 0 {
        Some(Seq::empty())
    } else if t[0] == '\\' {
        if t.len() < 2 {
            None
        } else {
            match simple_escape(t[1]) {
                Some(d) => prepend_char(d, json_unescape(t.skip(2))),
                None => if t[1] == 'u' && t.len() >= 6 && is_hex_digit(t[2]) && is_hex_digit(t[3])
                    && is_hex_digit(t[4]) && is_hex_digit(t[5]) {
                    let v = hex_value(t[2]) * 4096 + hex_value(t[3]) * 256 + hex_value(t[4]) * 16
                        + hex_value(t[5]);
                    if v < 0xD800 || v > 0xDFFF {
                        prepend_char((v as u32) as char, json_unescape(t.skip(6)))
                    } else {
                        None
                    }
                } else {
                    None
                },
            }
        }
    } else if t[0] == '"' || t[0] <= '\u{1f}' {
        None
    } else {
        prepend_char(t[0], json_unescape(t.skip(1)))
    }
}

proof fn lemma_hex_digit(d: nat)
    requires
        d < 16,
    ensures
        is_hex_digit(crate::text::hex_digit_char(d)),
        hex_value(crate::text::hex_digit_char(d)) == d,
{
    if d < 10 {
        assert(((d + 48) as u32) as char as int == d + 48);
    } else {
        assert(((d + 87) as u32) as char as int == d + 87);
    }
}

proof fn lemma_unescape_char(c: char, x: Seq<char>)
    ensures
        json_unescape(escape_char(c) + x) == prepend_char(c, json_unescape(x)),
{
    let t = escape_char(c) + x;
    if c == '"' || c == '\\' || c == '\n' || c == '\r' || c == '\t' || c == '\u{08}' || c == '\u{0c}' {
        assert(t.skip(2) =~= x);
    } else if is_control(c) {
        let v = c as nat;
        assert(v < 0xa0);
        lemma_hex_digit((v / 4096) % 16);
        lemma_hex_digit((v / 256) % 16);
        lemma_hex_digit((v / 16) % 16);
        lemma_hex_digit(v % 16);
        assert(t[2] == crate::text::hex_digit_char((v / 4096) % 16));
        assert(t[3] == crate::text::hex_digit_char((v / 256) % 16));
        assert(t[4] == crate::text::hex_digit_char((v / 16) % 16));
        assert(t[5] == crate::text::hex_digit_char(v % 16));
        assert(((v / 4096) % 16) * 4096 + ((v / 256) % 16) * 256 + ((v / 16) % 16) * 16 + v % 16
            == v) by (nonlinear_arith)
            requires
                v < 0x10000,
        ;
        assert(t.skip(6) =~= x);
        assert((v as u32) as char == c);
    } else {
        assert(t.skip(1) =~= x);
    }
}

/// Reading back what `json_string` writes gives the same text.
pub proof fn lemma_json_string_roundtrip(s: Seq<char>)
    ensures
        json_unescape(escape_text(s)) == Some(s),
        spec_json_string(s).len() >= 2,
        spec_json_string(s)[0] == '"' && spec_json_string(s).last() == '"',
        spec_json_string(s).subrange(1, spec_json_string(s).len() - 1) == escape_text(s),
    decreases s.len(),
{
    if s.len() == 0 {
        assert(escape_text(s) =~= Seq::<char>::empty());
    } else {
        lemma_json_string_roundtrip(s.drop_first());
        lemma_unescape_char(s[0], escape_text(s.drop_first()));
        assert(seq![s[0]] + s.drop_first() =~= s);
    }
    let j = spec_json_string(s);
    assert(j.subrange(1, j.len() - 1) =~= escape_text(s));
}

// ---------------------------------------------------------------------------
// The manifest
// ---------------------------------------------------------------------------

fn push_decimal(out: &mut Vec<char>, n: u64)
    ensures
        final(out)@ == old(out)@ + decimal(n as nat),
{
    let d = u64_to_decimal(n);
    extend_chars(out, &d);
}

fn push_json_string(out: &mut Vec<char>, s: &str)
    ensures
        final(out)@ == old(out)@ + spec_json_string(s@),
{
    let j = json_string(s);
    extend_str(out, j.as_str());
}

/// A path as text, as `Path::to_string_lossy` reads it.
pub open spec fn lossy_option(o: Option<Seq<u8>>) -> Option<Seq<char>> {
    match o {
        Some(b) => Some(utf8_lossy(b)),
        None => None,
    }
}

fn push_json_lossy(out: &mut Vec<char>, b: &[u8])
    ensures
        final(out)@ == old(out)@ + spec_json_string(utf8_lossy(b@)),
{
    let t = decode_utf8_lossy(b);
    push_json_string(out, t.as_str());
}

fn push_json_lossy_option(out: &mut Vec<char>, o: &Option<Vec<u8>>)
    ensures
        final(out)@ == old(out)@ + spec_json_option(lossy_option(crate::cli::opt_bytes_view(*o))),
{
    match o {
        Some(b) => push_json_lossy(out, b.as_slice()),
        None => extend_str(out, "null"),
    }
}

/// An optional text as a JSON string, or `null`.
pub open spec fn spec_json_option(o: Option<Seq<char>>) -> Seq<char> {
    match o {
        Some(t) => spec_json_string(t),
        None => "null"@,
    }
}

fn push_json_option(out: &mut Vec<char>, o: &Option<String>)
    ensures
        final(out)@ == old(out)@ + spec_json_option(crate::cli::opt_view(*o)),
{
    match o {
        Some(t) => push_json_string(out, t.as_str()),
        None => extend_str(out, "null"),
    }
}

/// The totals of a run, one per line.
pub open spec fn spec_summary_block(s: RunSummary) -> Seq<char> {
    "    \"inputs\": "@ + decimal(s.inputs@.len() as nat) + ",\n    \"files_scanned\": "@ + decimal(s.files_scanned as nat) + ",\n    \"candidates_found\": "@ + decimal(s.candidates_found as nat) + ",\n    \"extracted\": "@ + decimal(s.extracted as nat) + ",\n    \"would_extract\": "@ + decimal(s.would_extract as nat) + ",\n    \"skipped\": "@ + decimal(s.skipped as nat) + ",\n    \"failed\": "@ + decimal(s.failed as nat) + "\n"@
}

/// One image's counts as a JSON object.
pub open spec fn spec_input_json(i: InputSummary) -> Seq<char> {
    "    {\n"@ + "      \"iso\": "@ + spec_json_string(utf8_lossy(i.source_iso@)) + ",\n"@ + "      \"files_scanned\": "@ + decimal(i.files_scanned as nat) + ",\n      \"candidates_found\": "@ + decimal(i.candidates_found as nat) + ",\n      \"extracted\": "@ + decimal(i.extracted as nat) + ",\n      \"would_extract\": "@ + decimal(i.would_extract as nat) + ",\n      \"skipped\": "@ + decimal(i.skipped as nat) + ",\n      \"failed\": "@ + decimal(i.failed as nat) + "\n"@ + "    }"@
}

/// One result as a JSON object.
pub open spec fn spec_result_json(r: ExtractionResult) -> Seq<char> {
    "    {\n"@ + "      \"source_iso\": "@ + spec_json_string(utf8_lossy(r.source_iso@)) + ",\n"@
        + "      \"internal_path\": "@ + spec_json_string(r.internal_path@) + ",\n"@
        + "      \"output_path\": "@ + spec_json_option(lossy_option(crate::cli::opt_bytes_view(r.output_path)))
        + ",\n"@ + "      \"status\": "@ + spec_json_string(spec_status_str(r.status)) + ",\n"@
        + "      \"size\": "@ + decimal(r.size as nat) + ",\n"@ + "      \"error\": "@
        + spec_json_option(crate::cli::opt_view(r.error)) + "\n    }"@
}

/// The manifest of a run: tool, version, finishing time, mode, totals, one
/// object per image and one per result.
pub open spec fn spec_to_json(s: RunSummary, version: Seq<char>, finished_at_unix: u64) -> Seq<char> {
    "{\n"@ + "  \"tool\": \"iso-extract-jpegs\",\n"@ + "  \"version\": "@ + spec_json_string(version)
        + ",\n"@ + "  \"finished_at_unix\": "@ + decimal(finished_at_unix as nat) + ",\n"@
        + "  \"dry_run\": "@ + (if s.dry_run {
        "true"@
    } else {
        "false"@
    }) + ",\n"@ + "  \"summary\": {\n"@ + spec_summary_block(s) + "  },\n"@ + "  \"inputs\": [\n"@
        + join(s.inputs@.map_values(|i: InputSummary| spec_input_json(i)), ",\n"@)
        + "\n  ],\n"@ + "  \"results\": [\n"@ + join(
        s.results@.map_values(|r: ExtractionResult| spec_result_json(r)),
        ",\n"@,
    ) + "\n  ]\n"@ + "}\n"@
}

fn summary_block(s: &RunSummary) -> (out: Vec<char>)
    ensures
        out@ == spec_summary_block(*s),
{
    let mut out: Vec<char> = str_chars("    \"inputs\": ");
    push_decimal(&mut out, s.inputs.len() as u64);
    extend_str(&mut out, ",\n    \"files_scanned\": ");
    push_decimal(&mut out, s.files_scanned);
    extend_str(&mut out, ",\n    \"candidates_found\": ");
    push_decimal(&mut out, s.candidates_found);
    extend_str(&mut out, ",\n    \"extracted\": ");
    push_decimal(&mut out, s.extracted);
    extend_str(&mut out, ",\n    \"would_extract\": ");
    push_decimal(&mut out, s.would_extract);
    extend_str(&mut out, ",\n    \"skipped\": ");
    push_decimal(&mut out, s.skipped);
    extend_str(&mut out, ",\n    \"failed\": ");
    push_decimal(&mut out, s.failed);
    extend_str(&mut out, "\n");
    out
}

fn input_json(i: &InputSummary) -> (out: Vec<char>)
    ensures
        out@ == spec_input_json(*i),
{
    let mut out: Vec<char> = str_chars("    {\n");
    extend_str(&mut out, "      \"iso\": ");
    push_json_lossy(&mut out, i.source_iso.as_slice());
    extend_str(&mut out, ",\n");
    extend_str(&mut out, "      \"files_scanned\": ");
    push_decimal(&mut out, i.files_scanned);
    extend_str(&mut out, ",\n      \"candidates_found\": ");
    push_decimal(&mut out, i.candidates_found);
    extend_str(&mut out, ",\n      \"extracted\": ");
    push_decimal(&mut out, i.extracted);
    extend_str(&mut out, ",\n      \"would_extract\": ");
    push_decimal(&mut out, i.would_extract);
    extend_str(&mut out, ",\n      \"skipped\": ");
    push_decimal(&mut out, i.skipped);
    extend_str(&mut out, ",\n      \"failed\": ");
    push_decimal(&mut out, i.failed);
    extend_str(&mut out, "\n");
    extend_str(&mut out, "    }");
    out
}

fn result_json(r: &ExtractionResult) -> (out: Vec<char>)
    ensures
        out@ == spec_result_json(*r),
{
    let mut out: Vec<char> = str_chars("    {\n");
    extend_str(&mut out, "      \"source_iso\": ");
    push_json_lossy(&mut out, r.source_iso.as_slice());
    extend_str(&mut out, ",\n");
    extend_str(&mut out, "      \"internal_path\": ");
    push_json_string(&mut out, r.internal_path.as_str());
    extend_str(&mut out, ",\n");
    extend_str(&mut out, "      \"output_path\": ");
    push_json_lossy_option(&mut out, &r.output_path);
    extend_str(&mut out, ",\n");
    extend_str(&mut out, "      \"status\": ");
    push_json_string(&mut out, r.status.as_str());
    extend_str(&mut out, ",\n");
    extend_str(&mut out, "      \"size\": ");
    push_decimal(&mut out, r.size);
    extend_str(&mut out, ",\n");
    extend_str(&mut out, "      \"error\": ");
    push_json_option(&mut out, &r.error);
    extend_str(&mut out, "\n    }");
    out
}

/// The manifest of a run as JSON text, given the tool's version and the
/// time the run finished.
pub fn to_json(summary: &RunSummary, version: &str, finished_at_unix: u64) -> (r: String)
    ensures
        r@ == spec_to_json(*summary, version@, finished_at_unix),
        r@ == render(manifest_value(*summary, version@, finished_at_unix), 0) + seq!['\n'],
{
    proof {
        lemma_manifest_is_json(*summary, version@, finished_at_unix);
    }
    let mut out: Vec<char> = str_chars("{\n");
    extend_str(&mut out, "  \"tool\": \"iso-extract-jpegs\",\n");
    extend_str(&mut out, "  \"version\": ");
    push_json_string(&mut out, version);
    extend_str(&mut out, ",\n");
    extend_str(&mut out, "  \"finished_at_unix\": ");
    push_decimal(&mut out, finished_at_unix);
    extend_str(&mut out, ",\n");
    extend_str(&mut out, "  \"dry_run\": ");
    extend_str(&mut out, if summary.dry_run { "true" } else { "false" });
    extend_str(&mut out, ",\n");
    extend_str(&mut out, "  \"summary\": {\n");
    let block = summary_block(summary);
    extend_chars(&mut out, &block);
    extend_str(&mut out, "  },\n");
    extend_str(&mut out, "  \"inputs\": [\n");
    let ghost before_inputs = out@;
    let ghost inputs = summary.inputs@.map_values(|i: InputSummary| spec_input_json(i));
    let mut k: usize = 0;
    while k < summary.inputs.len()
        invariant
            k <= summary.inputs.len(),
            inputs == summary.inputs@.map_values(|i: InputSummary| spec_input_json(i)),
            out@ == before_inputs + join(inputs.take(k as int), ",\n"@),
        decreases summary.inputs.len() - k,
    {
        let ghost o0 = out@;
        if k > 0 {
            extend_str(&mut out, ",\n");
        }
        let item = input_json(&summary.inputs[k]);
        extend_chars(&mut out, &item);
        k = k + 1;
        proof {
            assert(inputs.take(k as int).drop_last() =~= inputs.take(k - 1));
            assert(inputs.take(k as int).last() == spec_input_json(summary.inputs@[k - 1]));
            assert(out@ =~= before_inputs + join(inputs.take(k as int), ",\n"@));
        }
    }
    assert(inputs.take(summary.inputs.len() as int) =~= inputs);
    extend_str(&mut out, "\n  ],\n");
    extend_str(&mut out, "  \"results\": [\n");
    let ghost before_results = out@;
    let ghost results = summary.results@.map_values(|r: ExtractionResult| spec_result_json(r));
    let mut k: usize = 0;
    while k < summary.results.len()
        invariant
            k <= summary.results.len(),
            results == summary.results@.map_values(|r: ExtractionResult| spec_result_json(r)),
            out@ == before_results + join(results.take(k as int), ",\n"@),
        decreases summary.results.len() - k,
    {
        if k > 0 {
            extend_str(&mut out, ",\n");
        }
        let item = result_json(&summary.results[k]);
        extend_chars(&mut out, &item);
        k = k + 1;
        proof {
            assert(results.take(k as int).drop_last() =~= results.take(k - 1));
            assert(results.take(k as int).last() == spec_result_json(summary.results@[k - 1]));
            assert(out@ =~= before_results + join(results.take(k as int), ",\n"@));
        }
    }
    assert(results.take(summary.results.len() as int) =~= results);
    extend_str(&mut out, "\n  ]\n");
    extend_str(&mut out, "}\n");
    string_from_chars(&out)
}

// ---------------------------------------------------------------------------
// The manifest as a JSON value
// ---------------------------------------------------------------------------

/// One image's counts as a JSON object.
pub open spec fn input_value(i: InputSummary) -> JsonValue {
    JsonValue::Object(
        seq![
            ("iso"@, JsonValue::Str(utf8_lossy(i.source_iso@))),
            ("files_scanned"@, JsonValue::Number(i.files_scanned as nat)),
            ("candidates_found"@, JsonValue::Number(i.candidates_found as nat)),
            ("extracted"@, JsonValue::Number(i.extracted as nat)),
            ("would_extract"@, JsonValue::Number(i.would_extract as nat)),
            ("skipped"@, JsonValue::Number(i.skipped as nat)),
            ("failed"@, JsonValue::Number(i.failed as nat)),
        ],
    )
}

proof fn lemma_plain_key(k: Seq<char>)
    requires
        forall|i: int| 0 <= i < k.len() ==> ('a' <= #[trigger] k[i] <= 'z' || k[i] == '_' || k[i] == '-'),
    ensures
        spec_json_string(k) == seq!['"'] + k + seq!['"'],
{
    assert(is_plain_text(k));
    lemma_plain_text_unescaped(k);
}

proof fn lemma_cat_assoc(a: Seq<char>, b: Seq<char>, c: Seq<char>)
    ensures
        a + (b + c) == a + b + c,
{
    assert(a + (b + c) =~= a + b + c);
}

/// One more member, regrouped as the text before its value and the value.
proof fn lemma_member_step(
    o: Seq<char>,
    b: Seq<char>,
    s: Seq<char>,
    i: Seq<char>,
    j: Seq<char>,
    c: Seq<char>,
    v: Seq<char>,
)
    ensures
        o + (b + s + (i + j + c + v)) == o + b + (s + i + j + c) + v,
{
    assert(o + (b + s + (i + j + c + v)) =~= o + b + (s + i + j + c) + v);
}

proof fn lemma_members_first(ms: Seq<(Seq<char>, JsonValue)>, d: nat)
    requires
        ms.len() >= 1,
    ensures
        render_members(ms.subrange(0, 1), d) == render_member(ms[0].0, ms[0].1, d),
{
    assert(ms.subrange(0, 1)[0] == ms[0]);
}

proof fn lemma_members_step(ms: Seq<(Seq<char>, JsonValue)>, k: int, d: nat)
    requires
        1 <= k < ms.len(),
    ensures
        render_members(ms.subrange(0, k + 1), d) == render_members(ms.subrange(0, k), d) + seq![
            ',',
            '\n',
        ] + render_member(ms[k].0, ms[k].1, d),
{
    assert(ms.subrange(0, k + 1).subrange(0, k) =~= ms.subrange(0, k));
    assert(ms.subrange(0, k + 1)[k] == ms[k]);
}

/// The text before the value of member `k` of an object at `depth`, the
/// first lead starting with `pre` and the opening brace.
pub open spec fn member_lead(
    ms: Seq<(Seq<char>, JsonValue)>,
    pre: Seq<char>,
    depth: nat,
    k: int,
) -> Seq<char> {
    if k == 0 {
        pre + seq!['{', '\n'] + indent(depth + 1) + spec_json_string(ms[0].0) + seq![':', ' ']
    } else {
        seq![',', '\n'] + indent(depth + 1) + spec_json_string(ms[k].0) + seq![':', ' ']
    }
}

/// An object's text up to the value of member `k`, as leads and values.
pub open spec fn members_text(
    ms: Seq<(Seq<char>, JsonValue)>,
    pre: Seq<char>,
    depth: nat,
    k: int,
) -> Seq<char>
    decreases k,
{
    if k <= 0 {
        member_lead(ms, pre, depth, 0) + render(ms[0].1, depth + 1)
    } else {
        members_text(ms, pre, depth, k - 1) + member_lead(ms, pre, depth, k) + render(
            ms[k].1,
            depth + 1,
        )
    }
}

proof fn lemma_members_text(ms: Seq<(Seq<char>, JsonValue)>, pre: Seq<char>, depth: nat, k: int)
    requires
        0 <= k < ms.len(),
    ensures
        pre + seq!['{', '\n'] + render_members(ms.subrange(0, k + 1), depth) == members_text(
            ms,
            pre,
            depth,
            k,
        ),
    decreases k,
{
    let open = pre + seq!['{', '\n'];
    let i = indent(depth + 1);
    let c = seq![':', ' '];
    if k == 0 {
        lemma_members_first(ms, depth);
        let j = spec_json_string(ms[0].0);
        let v = render(ms[0].1, depth + 1);
        assert(open + (i + j + c + v) =~= open + i + j + c + v);
    } else {
        lemma_members_text(ms, pre, depth, k - 1);
        lemma_members_step(ms, k, depth);
        lemma_member_step(
            open,
            render_members(ms.subrange(0, k), depth),
            seq![',', '\n'],
            i,
            spec_json_string(ms[k].0),
            c,
            render(ms[k].1, depth + 1),
        );
    }
}

/// An object with at least one member, after `pre`, as leads and values.
proof fn lemma_object_text(ms: Seq<(Seq<char>, JsonValue)>, pre: Seq<char>, depth: nat)
    requires
        ms.len() >= 1,
    ensures
        pre + render(JsonValue::Object(ms), depth) == members_text(ms, pre, depth, ms.len() - 1)
            + (seq!['\n'] + indent(depth) + seq!['}']),
{
    lemma_members_text(ms, pre, depth, ms.len() - 1);
    assert(ms.subrange(0, ms.len() as int) =~= ms);
    let open = pre + seq!['{', '\n'];
    let b = render_members(ms, depth);
    let close = seq!['\n'] + indent(depth) + seq!['}'];
    assert(pre + (seq!['{', '\n'] + b + seq!['\n'] + indent(depth) + seq!['}']) =~= open + b
        + close);
}

proof fn lemma_input_json(i: InputSummary)
    ensures
        indent(2) + render(input_value(i), 2) == spec_input_json(i),
{
    let ms = input_value(i)->Object_0;
    lemma_object_text(ms, indent(2), 2);
    assert(indent(2) + render(input_value(i), 2) == members_text(ms, indent(2), 2, 6) + (seq!['\n'] + indent(2)
        + seq!['}']));
    lemma_input_json_text(i);
}

#[verifier::rlimit(50)]
#[verifier::spinoff_prover]
proof fn lemma_input_json_text(i: InputSummary)
    ensures
        ({
            let ms = input_value(i)->Object_0;
            members_text(ms, indent(2), 2, 6) + (seq!['\n'] + indent(2) + seq!['}']) == spec_input_json(i)
        }),
{
    let ms = input_value(i)->Object_0;
    reveal_strlit("iso");
    reveal_strlit("files_scanned");
    reveal_strlit("candidates_found");
    reveal_strlit("extracted");
    reveal_strlit("would_extract");
    reveal_strlit("skipped");
    reveal_strlit("failed");
    reveal_strlit("    {\n");
    reveal_strlit("      \"iso\": ");
    reveal_strlit(",\n");
    reveal_strlit("      \"files_scanned\": ");
    reveal_strlit(",\n      \"candidates_found\": ");
    reveal_strlit(",\n      \"extracted\": ");
    reveal_strlit(",\n      \"would_extract\": ");
    reveal_strlit(",\n      \"skipped\": ");
    reveal_strlit(",\n      \"failed\": ");
    reveal_strlit("\n");
    reveal_strlit("    }");
    assert(member_lead(ms, indent(2), 2, 0) =~= "    {\n"@ + "      \"iso\": "@) by {
        lemma_plain_key("iso"@);
    }
    assert(member_lead(ms, indent(2), 2, 1) =~= ",\n"@ + "      \"files_scanned\": "@) by {
        lemma_plain_key("files_scanned"@);
    }
    assert(member_lead(ms, indent(2), 2, 2) =~= ",\n      \"candidates_found\": "@) by {
        lemma_plain_key("candidates_found"@);
    }
    assert(member_lead(ms, indent(2), 2, 3) =~= ",\n      \"extracted\": "@) by {
        lemma_plain_key("extracted"@);
    }
    assert(member_lead(ms, indent(2), 2, 4) =~= ",\n      \"would_extract\": "@) by {
        lemma_plain_key("would_extract"@);
    }
    assert(member_lead(ms, indent(2), 2, 5) =~= ",\n      \"skipped\": "@) by {
        lemma_plain_key("skipped"@);
    }
    assert(member_lead(ms, indent(2), 2, 6) =~= ",\n      \"failed\": "@) by {
        lemma_plain_key("failed"@);
    }
    assert(seq!['\n'] + indent(2) + seq!['}'] =~= "\n"@ + "    }"@);
    let t0 = members_text(ms, indent(2), 2, 0);
    assert(members_text(ms, indent(2), 2, 1) == t0 + member_lead(ms, indent(2), 2, 1) + render(ms[1].1, 3));
    lemma_cat_assoc(t0, ",\n"@, "      \"files_scanned\": "@);
    assert(members_text(ms, indent(2), 2, 6) == members_text(ms, indent(2), 2, 5) + member_lead(ms, indent(2), 2, 6) + render(ms[6].1, 3));
    assert(members_text(ms, indent(2), 2, 5) == members_text(ms, indent(2), 2, 4) + member_lead(ms, indent(2), 2, 5) + render(ms[5].1, 3));
    assert(members_text(ms, indent(2), 2, 4) == members_text(ms, indent(2), 2, 3) + member_lead(ms, indent(2), 2, 4) + render(ms[4].1, 3));
    assert(members_text(ms, indent(2), 2, 3) == members_text(ms, indent(2), 2, 2) + member_lead(ms, indent(2), 2, 3) + render(ms[3].1, 3));
    assert(members_text(ms, indent(2), 2, 2) == members_text(ms, indent(2), 2, 1) + member_lead(ms, indent(2), 2, 2) + render(ms[2].1, 3));
    lemma_cat_assoc(members_text(ms, indent(2), 2, 6), "\n"@, "    }"@);
}

/// A text, or `null` when there is none.
pub open spec fn text_or_null(o: Option<Seq<char>>) -> JsonValue {
    match o {
        Some(t) => JsonValue::Str(t),
        None => JsonValue::Null,
    }
}

proof fn lemma_text_or_null(o: Option<Seq<char>>, depth: nat)
    ensures
        render(text_or_null(o), depth) == spec_json_option(o),
{
    reveal_strlit("null");
    assert(seq!['n', 'u', 'l', 'l'] =~= "null"@);
}

/// One result as a JSON object.
pub open spec fn result_value(r: ExtractionResult) -> JsonValue {
    JsonValue::Object(
        seq![
            ("source_iso"@, JsonValue::Str(utf8_lossy(r.source_iso@))),
            ("internal_path"@, JsonValue::Str(r.internal_path@)),
            ("output_path"@, text_or_null(lossy_option(crate::cli::opt_bytes_view(r.output_path)))),
            ("status"@, JsonValue::Str(spec_status_str(r.status))),
            ("size"@, JsonValue::Number(r.size as nat)),
            ("error"@, text_or_null(crate::cli::opt_view(r.error))),
        ],
    )
}

proof fn lemma_result_json(r: ExtractionResult)
    ensures
        indent(2) + render(result_value(r), 2) == spec_result_json(r),
{
    let ms = result_value(r)->Object_0;
    lemma_object_text(ms, indent(2), 2);
    lemma_result_json_text(r);
}

#[verifier::rlimit(50)]
#[verifier::spinoff_prover]
proof fn lemma_result_json_text(r: ExtractionResult)
    ensures
        ({
            let ms = result_value(r)->Object_0;
            members_text(ms, indent(2), 2, 5) + (seq!['\n'] + indent(2) + seq!['}']) == spec_result_json(r)
        }),
{
    let ms = result_value(r)->Object_0;
    reveal_strlit("source_iso");
    reveal_strlit("internal_path");
    reveal_strlit("output_path");
    reveal_strlit("status");
    reveal_strlit("size");
    reveal_strlit("error");
    reveal_strlit("    {\n");
    reveal_strlit(",\n");
    reveal_strlit("      \"source_iso\": ");
    reveal_strlit("      \"internal_path\": ");
    reveal_strlit("      \"output_path\": ");
    reveal_strlit("      \"status\": ");
    reveal_strlit("      \"size\": ");
    reveal_strlit("      \"error\": ");
    reveal_strlit("\n    }");
    lemma_text_or_null(lossy_option(crate::cli::opt_bytes_view(r.output_path)), 3);
    lemma_text_or_null(crate::cli::opt_view(r.error), 3);
    assert(member_lead(ms, indent(2), 2, 0) =~= "    {\n"@ + "      \"source_iso\": "@) by {
        lemma_plain_key("source_iso"@);
    }
    assert(member_lead(ms, indent(2), 2, 1) =~= ",\n"@ + "      \"internal_path\": "@) by {
        lemma_plain_key("internal_path"@);
    }
    assert(member_lead(ms, indent(2), 2, 2) =~= ",\n"@ + "      \"output_path\": "@) by {
        lemma_plain_key("output_path"@);
    }
    assert(member_lead(ms, indent(2), 2, 3) =~= ",\n"@ + "      \"status\": "@) by {
        lemma_plain_key("status"@);
    }
    assert(member_lead(ms, indent(2), 2, 4) =~= ",\n"@ + "      \"size\": "@) by {
        lemma_plain_key("size"@);
    }
    assert(member_lead(ms, indent(2), 2, 5) =~= ",\n"@ + "      \"error\": "@) by {
        lemma_plain_key("error"@);
    }
    assert(seq!['\n'] + indent(2) + seq!['}'] =~= "\n    }"@);
    assert(members_text(ms, indent(2), 2, 1) == members_text(ms, indent(2), 2, 0) + member_lead(
        ms,
        indent(2),
        2,
        1,
    ) + render(ms[1].1, 3));
    lemma_cat_assoc(members_text(ms, indent(2), 2, 0), ",\n"@, "      \"internal_path\": "@);
    assert(members_text(ms, indent(2), 2, 2) == members_text(ms, indent(2), 2, 1) + member_lead(
        ms,
        indent(2),
        2,
        2,
    ) + render(ms[2].1, 3));
    lemma_cat_assoc(members_text(ms, indent(2), 2, 1), ",\n"@, "      \"output_path\": "@);
    assert(members_text(ms, indent(2), 2, 3) == members_text(ms, indent(2), 2, 2) + member_lead(
        ms,
        indent(2),
        2,
        3,
    ) + render(ms[3].1, 3));
    lemma_cat_assoc(members_text(ms, indent(2), 2, 2), ",\n"@, "      \"status\": "@);
    assert(members_text(ms, indent(2), 2, 4) == members_text(ms, indent(2), 2, 3) + member_lead(
        ms,
        indent(2),
        2,
        4,
    ) + render(ms[4].1, 3));
    lemma_cat_assoc(members_text(ms, indent(2), 2, 3), ",\n"@, "      \"size\": "@);
    assert(members_text(ms, indent(2), 2, 5) == members_text(ms, indent(2), 2, 4) + member_lead(
        ms,
        indent(2),
        2,
        5,
    ) + render(ms[5].1, 3));
    lemma_cat_assoc(members_text(ms, indent(2), 2, 4), ",\n"@, "      \"error\": "@);
}

/// The items of an array at depth 1 are the item texts joined by `,` and a
/// line break.
proof fn lemma_items_text(vals: Seq<JsonValue>, texts: Seq<Seq<char>>)
    requires
        vals.len() == texts.len(),
        forall|k: int| 0 <= k < vals.len() ==> indent(2) + render(#[trigger] vals[k], 2) == texts[k],
    ensures
        crate::json::render_items(vals, 1) == join(texts, ",\n"@),
    decreases vals.len(),
{
    reveal_strlit(",\n");
    let n = vals.len();
    if n == 0 {
    } else if n == 1 {
        assert(indent(2) + render(vals[0], 2) == texts[0]);
    } else {
        let vs = vals.subrange(0, n - 1);
        let ts = texts.drop_last();
        assert forall|k: int| 0 <= k < vs.len() implies indent(2) + render(#[trigger] vs[k], 2)
            == ts[k] by {
            assert(vs[k] == vals[k]);
            assert(ts[k] == texts[k]);
            assert(indent(2) + render(vals[k], 2) == texts[k]);
        }
        lemma_items_text(vs, ts);
        assert(indent(2) + render(vals[n - 1], 2) == texts[n - 1]);
        assert(seq![',', '\n'] =~= ",\n"@);
        lemma_cat_assoc(
            crate::json::render_items(vs, 1) + seq![',', '\n'],
            indent(2),
            render(vals[n - 1], 2),
        );
    }
}

proof fn lemma_inputs_text(xs: Seq<InputSummary>)
    ensures
        crate::json::render_items(xs.map_values(|i: InputSummary| input_value(i)), 1) == join(
            xs.map_values(|i: InputSummary| spec_input_json(i)),
            ",\n"@,
        ),
{
    let vals = xs.map_values(|i: InputSummary| input_value(i));
    let texts = xs.map_values(|i: InputSummary| spec_input_json(i));
    assert forall|k: int| 0 <= k < vals.len() implies indent(2) + render(#[trigger] vals[k], 2)
        == texts[k] by {
        lemma_input_json(xs[k]);
    }
    lemma_items_text(vals, texts);
}

proof fn lemma_results_text(xs: Seq<ExtractionResult>)
    ensures
        crate::json::render_items(xs.map_values(|r: ExtractionResult| result_value(r)), 1) == join(
            xs.map_values(|r: ExtractionResult| spec_result_json(r)),
            ",\n"@,
        ),
{
    let vals = xs.map_values(|r: ExtractionResult| result_value(r));
    let texts = xs.map_values(|r: ExtractionResult| spec_result_json(r));
    assert forall|k: int| 0 <= k < vals.len() implies indent(2) + render(#[trigger] vals[k], 2)
        == texts[k] by {
        lemma_result_json(xs[k]);
    }
    lemma_items_text(vals, texts);
}

/// The totals of a run as a JSON object.
pub open spec fn summary_value(s: RunSummary) -> JsonValue {
    JsonValue::Object(
        seq![
            ("inputs"@, JsonValue::Number(s.inputs@.len())),
            ("files_scanned"@, JsonValue::Number(s.files_scanned as nat)),
            ("candidates_found"@, JsonValue::Number(s.candidates_found as nat)),
            ("extracted"@, JsonValue::Number(s.extracted as nat)),
            ("would_extract"@, JsonValue::Number(s.would_extract as nat)),
            ("skipped"@, JsonValue::Number(s.skipped as nat)),
            ("failed"@, JsonValue::Number(s.failed as nat)),
        ],
    )
}

/// The manifest of a run as a JSON value.
pub open spec fn manifest_value(s: RunSummary, version: Seq<char>, finished_at_unix: u64) -> JsonValue {
    JsonValue::Object(
        seq![
            ("tool"@, JsonValue::Str("iso-extract-jpegs"@)),
            ("version"@, JsonValue::Str(version)),
            ("finished_at_unix"@, JsonValue::Number(finished_at_unix as nat)),
            ("dry_run"@, JsonValue::Bool(s.dry_run)),
            ("summary"@, summary_value(s)),
            ("inputs"@, JsonValue::Array(s.inputs@.map_values(|i: InputSummary| input_value(i)))),
            (
                "results"@,
                JsonValue::Array(s.results@.map_values(|r: ExtractionResult| result_value(r))),
            ),
        ],
    )
}

/// The totals block, with its values left open.
#[verifier::rlimit(50)]
#[verifier::spinoff_prover]
proof fn lemma_summary_glue_text(
    d0: Seq<char>,
    d1: Seq<char>,
    d2: Seq<char>,
    d3: Seq<char>,
    d4: Seq<char>,
    d5: Seq<char>,
    d6: Seq<char>,
)
    ensures
        (seq!['{', '\n'] + indent(2) + (seq!['"'] + "inputs"@ + seq!['"']) + seq![':', ' ']) + d0 + (seq![',', '\n'] + indent(2) + (seq!['"'] + "files_scanned"@ + seq!['"']) + seq![':', ' ']) + d1 + (seq![',', '\n'] + indent(2) + (seq!['"'] + "candidates_found"@ + seq!['"']) + seq![':', ' ']) + d2 + (seq![',', '\n'] + indent(2) + (seq!['"'] + "extracted"@ + seq!['"']) + seq![':', ' ']) + d3 + (seq![',', '\n'] + indent(2) + (seq!['"'] + "would_extract"@ + seq!['"']) + seq![':', ' ']) + d4 + (seq![',', '\n'] + indent(2) + (seq!['"'] + "skipped"@ + seq!['"']) + seq![':', ' ']) + d5 + (seq![',', '\n'] + indent(2) + (seq!['"'] + "failed"@ + seq!['"']) + seq![':', ' ']) + d6 + (seq!['\n'] + indent(1) + seq!['}']) == "{\n"@ + ("    \"inputs\": "@ + d0 + ",\n    \"files_scanned\": "@ + d1
            + ",\n    \"candidates_found\": "@ + d2 + ",\n    \"extracted\": "@ + d3
            + ",\n    \"would_extract\": "@ + d4 + ",\n    \"skipped\": "@ + d5
            + ",\n    \"failed\": "@ + d6 + "\n"@) + "  }"@,
{
    reveal_strlit("inputs");
    reveal_strlit("files_scanned");
    reveal_strlit("candidates_found");
    reveal_strlit("extracted");
    reveal_strlit("would_extract");
    reveal_strlit("skipped");
    reveal_strlit("failed");
    reveal_strlit("{\n");
    reveal_strlit("    \"inputs\": ");
    reveal_strlit(",\n    \"files_scanned\": ");
    reveal_strlit(",\n    \"candidates_found\": ");
    reveal_strlit(",\n    \"extracted\": ");
    reveal_strlit(",\n    \"would_extract\": ");
    reveal_strlit(",\n    \"skipped\": ");
    reveal_strlit(",\n    \"failed\": ");
    reveal_strlit("\n");
    reveal_strlit("  }");
    assert((seq!['{', '\n'] + indent(2) + (seq!['"'] + "inputs"@ + seq!['"']) + seq![':', ' ']) + d0 + (seq![',', '\n'] + indent(2) + (seq!['"'] + "files_scanned"@ + seq!['"']) + seq![':', ' ']) + d1 + (seq![',', '\n'] + indent(2) + (seq!['"'] + "candidates_found"@ + seq!['"']) + seq![':', ' ']) + d2 + (seq![',', '\n'] + indent(2) + (seq!['"'] + "extracted"@ + seq!['"']) + seq![':', ' ']) + d3 + (seq![',', '\n'] + indent(2) + (seq!['"'] + "would_extract"@ + seq!['"']) + seq![':', ' ']) + d4 + (seq![',', '\n'] + indent(2) + (seq!['"'] + "skipped"@ + seq!['"']) + seq![':', ' ']) + d5 + (seq![',', '\n'] + indent(2) + (seq!['"'] + "failed"@ + seq!['"']) + seq![':', ' ']) + d6 + (seq!['\n'] + indent(1) + seq!['}']) =~= "{\n"@ + ("    \"inputs\": "@ + d0 + ",\n    \"files_scanned\": "@ + d1
            + ",\n    \"candidates_found\": "@ + d2 + ",\n    \"extracted\": "@ + d3
            + ",\n    \"would_extract\": "@ + d4 + ",\n    \"skipped\": "@ + d5
            + ",\n    \"failed\": "@ + d6 + "\n"@) + "  }"@);
}

proof fn lemma_summary_glue(
    s: RunSummary,
    d0: Seq<char>,
    d1: Seq<char>,
    d2: Seq<char>,
    d3: Seq<char>,
    d4: Seq<char>,
    d5: Seq<char>,
    d6: Seq<char>,
)
    ensures
        ({
            let ms = summary_value(s)->Object_0;
            member_lead(ms, Seq::empty(), 1, 0) + d0 + member_lead(ms, Seq::empty(), 1, 1) + d1 + member_lead(ms, Seq::empty(), 1, 2) + d2 + member_lead(ms, Seq::empty(), 1, 3) + d3 + member_lead(ms, Seq::empty(), 1, 4) + d4 + member_lead(ms, Seq::empty(), 1, 5) + d5 + member_lead(ms, Seq::empty(), 1, 6) + d6 + (seq!['\n'] + indent(1) + seq!['}']) == "{\n"@ + ("    \"inputs\": "@ + d0 + ",\n    \"files_scanned\": "@ + d1
            + ",\n    \"candidates_found\": "@ + d2 + ",\n    \"extracted\": "@ + d3
            + ",\n    \"would_extract\": "@ + d4 + ",\n    \"skipped\": "@ + d5
            + ",\n    \"failed\": "@ + d6 + "\n"@) + "  }"@
        }),
{
    let ms = summary_value(s)->Object_0;
    assert(member_lead(ms, Seq::empty(), 1, 0) == (seq!['{', '\n'] + indent(2) + (seq!['"'] + "inputs"@ + seq!['"']) + seq![':', ' '])) by {
        reveal_strlit("inputs");
        lemma_plain_key("inputs"@);
        assert(member_lead(ms, Seq::empty(), 1, 0) =~= (seq!['{', '\n'] + indent(2) + (seq!['"'] + "inputs"@ + seq!['"']) + seq![':', ' ']));
    }
    assert(member_lead(ms, Seq::empty(), 1, 1) == (seq![',', '\n'] + indent(2) + (seq!['"'] + "files_scanned"@ + seq!['"']) + seq![':', ' '])) by {
        reveal_strlit("files_scanned");
        lemma_plain_key("files_scanned"@);
        assert(member_lead(ms, Seq::empty(), 1, 1) =~= (seq![',', '\n'] + indent(2) + (seq!['"'] + "files_scanned"@ + seq!['"']) + seq![':', ' ']));
    }
    assert(member_lead(ms, Seq::empty(), 1, 2) == (seq![',', '\n'] + indent(2) + (seq!['"'] + "candidates_found"@ + seq!['"']) + seq![':', ' '])) by {
        reveal_strlit("candidates_found");
        lemma_plain_key("candidates_found"@);
        assert(member_lead(ms, Seq::empty(), 1, 2) =~= (seq![',', '\n'] + indent(2) + (seq!['"'] + "candidates_found"@ + seq!['"']) + seq![':', ' ']));
    }
    assert(member_lead(ms, Seq::empty(), 1, 3) == (seq![',', '\n'] + indent(2) + (seq!['"'] + "extracted"@ + seq!['"']) + seq![':', ' '])) by {
        reveal_strlit("extracted");
        lemma_plain_key("extracted"@);
        assert(member_lead(ms, Seq::empty(), 1, 3) =~= (seq![',', '\n'] + indent(2) + (seq!['"'] + "extracted"@ + seq!['"']) + seq![':', ' ']));
    }
    assert(member_lead(ms, Seq::empty(), 1, 4) == (seq![',', '\n'] + indent(2) + (seq!['"'] + "would_extract"@ + seq!['"']) + seq![':', ' '])) by {
        reveal_strlit("would_extract");
        lemma_plain_key("would_extract"@);
        assert(member_lead(ms, Seq::empty(), 1, 4) =~= (seq![',', '\n'] + indent(2) + (seq!['"'] + "would_extract"@ + seq!['"']) + seq![':', ' ']));
    }
    assert(member_lead(ms, Seq::empty(), 1, 5) == (seq![',', '\n'] + indent(2) + (seq!['"'] + "skipped"@ + seq!['"']) + seq![':', ' '])) by {
        reveal_strlit("skipped");
        lemma_plain_key("skipped"@);
        assert(member_lead(ms, Seq::empty(), 1, 5) =~= (seq![',', '\n'] + indent(2) + (seq!['"'] + "skipped"@ + seq!['"']) + seq![':', ' ']));
    }
    assert(member_lead(ms, Seq::empty(), 1, 6) == (seq![',', '\n'] + indent(2) + (seq!['"'] + "failed"@ + seq!['"']) + seq![':', ' '])) by {
        reveal_strlit("failed");
        lemma_plain_key("failed"@);
        assert(member_lead(ms, Seq::empty(), 1, 6) =~= (seq![',', '\n'] + indent(2) + (seq!['"'] + "failed"@ + seq!['"']) + seq![':', ' ']));
    }
    lemma_summary_glue_text(d0, d1, d2, d3, d4, d5, d6);
}

proof fn lemma_summary_text(s: RunSummary)
    ensures
        render(summary_value(s), 1) == "{\n"@ + spec_summary_block(s) + "  }"@,
{
    let ms = summary_value(s)->Object_0;
    let e = Seq::<char>::empty();
    lemma_object_text(ms, e, 1);
    assert(e + render(summary_value(s), 1) =~= render(summary_value(s), 1));
    assert(members_text(ms, e, 1, 6) == members_text(ms, e, 1, 5) + member_lead(ms, e, 1, 6) + render(ms[6].1, 2));
    assert(members_text(ms, e, 1, 5) == members_text(ms, e, 1, 4) + member_lead(ms, e, 1, 5) + render(ms[5].1, 2));
    assert(members_text(ms, e, 1, 4) == members_text(ms, e, 1, 3) + member_lead(ms, e, 1, 4) + render(ms[4].1, 2));
    assert(members_text(ms, e, 1, 3) == members_text(ms, e, 1, 2) + member_lead(ms, e, 1, 3) + render(ms[3].1, 2));
    assert(members_text(ms, e, 1, 2) == members_text(ms, e, 1, 1) + member_lead(ms, e, 1, 2) + render(ms[2].1, 2));
    assert(members_text(ms, e, 1, 1) == members_text(ms, e, 1, 0) + member_lead(ms, e, 1, 1) + render(ms[1].1, 2));
    lemma_summary_glue(
        s,
        decimal(s.inputs@.len()),
        decimal(s.files_scanned as nat),
        decimal(s.candidates_found as nat),
        decimal(s.extracted as nat),
        decimal(s.would_extract as nat),
        decimal(s.skipped as nat),
        decimal(s.failed as nat),
    );
}

/// The manifest's text around its version, time, mode, totals, images and
/// results.
pub open spec fn manifest_text(
    jsv: Seq<char>,
    dt: Seq<char>,
    b: Seq<char>,
    sb: Seq<char>,
    ji: Seq<char>,
    jr: Seq<char>,
) -> Seq<char> {
    "{\n"@ + "  \"tool\": \"iso-extract-jpegs\",\n"@ + "  \"version\": "@ + jsv + ",\n"@
        + "  \"finished_at_unix\": "@ + dt + ",\n"@ + "  \"dry_run\": "@ + b + ",\n"@
        + "  \"summary\": {\n"@ + sb + "  },\n"@ + "  \"inputs\": [\n"@ + ji + "\n  ],\n"@
        + "  \"results\": [\n"@ + jr + "\n  ]\n"@ + "}\n"@
}

/// The same text, as leads of members and their values.
pub open spec fn manifest_members_text(
    jsv: Seq<char>,
    dt: Seq<char>,
    b: Seq<char>,
    sb: Seq<char>,
    ji: Seq<char>,
    jr: Seq<char>,
) -> Seq<char> {
    (seq!['{', '\n'] + indent(1) + (seq!['"'] + "tool"@ + seq!['"']) + seq![':', ' ']) + (seq!['"'] + "iso-extract-jpegs"@ + seq!['"']) + (seq![',', '\n'] + indent(1) + (seq!['"'] + "version"@ + seq!['"']) + seq![':', ' ']) + jsv + (seq![',', '\n'] + indent(1) + (seq!['"'] + "finished_at_unix"@ + seq!['"']) + seq![':', ' ']) + dt + (seq![',', '\n'] + indent(1) + (seq!['"'] + "dry_run"@ + seq!['"']) + seq![':', ' ']) + b + (seq![',', '\n'] + indent(1) + (seq!['"'] + "summary"@ + seq!['"']) + seq![':', ' ']) + ("{\n"@ + sb + "  }"@) + (seq![',', '\n'] + indent(1) + (seq!['"'] + "inputs"@ + seq!['"']) + seq![':', ' ']) + (seq!['[', '\n'] + ji + seq!['\n'] + indent(1) + seq![']']) + (seq![',', '\n'] + indent(1) + (seq!['"'] + "results"@ + seq!['"']) + seq![':', ' ']) + (seq!['[', '\n'] + jr + seq!['\n'] + indent(1) + seq![']']) + (seq!['\n'] + indent(0) + seq!['}']) + seq!['\n']
}

#[verifier::rlimit(50)]
#[verifier::spinoff_prover]
proof fn lemma_manifest_glue_text(
    jsv: Seq<char>,
    dt: Seq<char>,
    b: Seq<char>,
    sb: Seq<char>,
    ji: Seq<char>,
    jr: Seq<char>,
)
    ensures
        manifest_members_text(jsv, dt, b, sb, ji, jr) == manifest_text(jsv, dt, b, sb, ji, jr),
{
    reveal_strlit("tool");
    reveal_strlit("version");
    reveal_strlit("finished_at_unix");
    reveal_strlit("dry_run");
    reveal_strlit("summary");
    reveal_strlit("inputs");
    reveal_strlit("results");
    reveal_strlit("{\n");
    reveal_strlit("  \"tool\": \"iso-extract-jpegs\",\n");
    reveal_strlit("  \"version\": ");
    reveal_strlit(",\n");
    reveal_strlit("  \"finished_at_unix\": ");
    reveal_strlit("  \"dry_run\": ");
    reveal_strlit("  \"summary\": {\n");
    reveal_strlit("  },\n");
    reveal_strlit("  \"inputs\": [\n");
    reveal_strlit("\n  ],\n");
    reveal_strlit("  \"results\": [\n");
    reveal_strlit("\n  ]\n");
    reveal_strlit("}\n");
    reveal_strlit("  }");
    reveal_strlit("iso-extract-jpegs");
    assert(manifest_members_text(jsv, dt, b, sb, ji, jr) =~= manifest_text(jsv, dt, b, sb, ji, jr));
}

proof fn lemma_manifest_render(s: RunSummary, version: Seq<char>, finished_at_unix: u64)
    ensures
        ({
            let m = manifest_value(s, version, finished_at_unix);
            let ms = m->Object_0;
            let e = Seq::<char>::empty();
            render(m, 0) + seq!['\n'] == member_lead(ms, e, 0, 0) + render(ms[0].1, 1) + member_lead(ms, e, 0, 1) + render(ms[1].1, 1) + member_lead(ms, e, 0, 2) + render(ms[2].1, 1) + member_lead(ms, e, 0, 3) + render(ms[3].1, 1) + member_lead(ms, e, 0, 4) + render(ms[4].1, 1) + member_lead(ms, e, 0, 5) + render(ms[5].1, 1) + member_lead(ms, e, 0, 6) + render(ms[6].1, 1) + (seq!['\n'] + indent(0) + seq!['}']) + seq!['\n']
        }),
{
    let m = manifest_value(s, version, finished_at_unix);
    let ms = m->Object_0;
    let e = Seq::<char>::empty();
    lemma_object_text(ms, e, 0);
    assert(e + render(m, 0) =~= render(m, 0));
    assert(members_text(ms, e, 0, 6) == members_text(ms, e, 0, 5) + member_lead(ms, e, 0, 6) + render(ms[6].1, 1));
    assert(members_text(ms, e, 0, 5) == members_text(ms, e, 0, 4) + member_lead(ms, e, 0, 5) + render(ms[5].1, 1));
    assert(members_text(ms, e, 0, 4) == members_text(ms, e, 0, 3) + member_lead(ms, e, 0, 4) + render(ms[4].1, 1));
    assert(members_text(ms, e, 0, 3) == members_text(ms, e, 0, 2) + member_lead(ms, e, 0, 3) + render(ms[3].1, 1));
    assert(members_text(ms, e, 0, 2) == members_text(ms, e, 0, 1) + member_lead(ms, e, 0, 2) + render(ms[2].1, 1));
    assert(members_text(ms, e, 0, 1) == members_text(ms, e, 0, 0) + member_lead(ms, e, 0, 1) + render(ms[1].1, 1));
}

proof fn lemma_manifest_leads(s: RunSummary, version: Seq<char>, finished_at_unix: u64)
    ensures
        ({
            let ms = manifest_value(s, version, finished_at_unix)->Object_0;
            let e = Seq::<char>::empty();
            &&& member_lead(ms, e, 0, 0) == (seq!['{', '\n'] + indent(1) + (seq!['"'] + "tool"@ + seq!['"']) + seq![':', ' '])
            &&& member_lead(ms, e, 0, 1) == (seq![',', '\n'] + indent(1) + (seq!['"'] + "version"@ + seq!['"']) + seq![':', ' '])
            &&& member_lead(ms, e, 0, 2) == (seq![',', '\n'] + indent(1) + (seq!['"'] + "finished_at_unix"@ + seq!['"']) + seq![':', ' '])
            &&& member_lead(ms, e, 0, 3) == (seq![',', '\n'] + indent(1) + (seq!['"'] + "dry_run"@ + seq!['"']) + seq![':', ' '])
            &&& member_lead(ms, e, 0, 4) == (seq![',', '\n'] + indent(1) + (seq!['"'] + "summary"@ + seq!['"']) + seq![':', ' '])
            &&& member_lead(ms, e, 0, 5) == (seq![',', '\n'] + indent(1) + (seq!['"'] + "inputs"@ + seq!['"']) + seq![':', ' '])
            &&& member_lead(ms, e, 0, 6) == (seq![',', '\n'] + indent(1) + (seq!['"'] + "results"@ + seq!['"']) + seq![':', ' '])
        }),
{
    let ms = manifest_value(s, version, finished_at_unix)->Object_0;
    let e = Seq::<char>::empty();
    assert(member_lead(ms, e, 0, 0) == (seq!['{', '\n'] + indent(1) + (seq!['"'] + "tool"@ + seq!['"']) + seq![':', ' '])) by {
        reveal_strlit("tool");
        lemma_plain_key("tool"@);
        assert(member_lead(ms, e, 0, 0) =~= (seq!['{', '\n'] + indent(1) + (seq!['"'] + "tool"@ + seq!['"']) + seq![':', ' ']));
    }
    assert(member_lead(ms, e, 0, 1) == (seq![',', '\n'] + indent(1) + (seq!['"'] + "version"@ + seq!['"']) + seq![':', ' '])) by {
        reveal_strlit("version");
        lemma_plain_key("version"@);
        assert(member_lead(ms, e, 0, 1) =~= (seq![',', '\n'] + indent(1) + (seq!['"'] + "version"@ + seq!['"']) + seq![':', ' ']));
    }
    assert(member_lead(ms, e, 0, 2) == (seq![',', '\n'] + indent(1) + (seq!['"'] + "finished_at_unix"@ + seq!['"']) + seq![':', ' '])) by {
        reveal_strlit("finished_at_unix");
        lemma_plain_key("finished_at_unix"@);
        assert(member_lead(ms, e, 0, 2) =~= (seq![',', '\n'] + indent(1) + (seq!['"'] + "finished_at_unix"@ + seq!['"']) + seq![':', ' ']));
    }
    assert(member_lead(ms, e, 0, 3) == (seq![',', '\n'] + indent(1) + (seq!['"'] + "dry_run"@ + seq!['"']) + seq![':', ' '])) by {
        reveal_strlit("dry_run");
        lemma_plain_key("dry_run"@);
        assert(member_lead(ms, e, 0, 3) =~= (seq![',', '\n'] + indent(1) + (seq!['"'] + "dry_run"@ + seq!['"']) + seq![':', ' ']));
    }
    assert(member_lead(ms, e, 0, 4) == (seq![',', '\n'] + indent(1) + (seq!['"'] + "summary"@ + seq!['"']) + seq![':', ' '])) by {
        reveal_strlit("summary");
        lemma_plain_key("summary"@);
        assert(member_lead(ms, e, 0, 4) =~= (seq![',', '\n'] + indent(1) + (seq!['"'] + "summary"@ + seq!['"']) + seq![':', ' ']));
    }
    assert(member_lead(ms, e, 0, 5) == (seq![',', '\n'] + indent(1) + (seq!['"'] + "inputs"@ + seq!['"']) + seq![':', ' '])) by {
        reveal_strlit("inputs");
        lemma_plain_key("inputs"@);
        assert(member_lead(ms, e, 0, 5) =~= (seq![',', '\n'] + indent(1) + (seq!['"'] + "inputs"@ + seq!['"']) + seq![':', ' ']));
    }
    assert(member_lead(ms, e, 0, 6) == (seq![',', '\n'] + indent(1) + (seq!['"'] + "results"@ + seq!['"']) + seq![':', ' '])) by {
        reveal_strlit("results");
        lemma_plain_key("results"@);
        assert(member_lead(ms, e, 0, 6) =~= (seq![',', '\n'] + indent(1) + (seq!['"'] + "results"@ + seq!['"']) + seq![':', ' ']));
    }
}

proof fn lemma_manifest_values(s: RunSummary, version: Seq<char>, finished_at_unix: u64)
    ensures
        ({
            let ms = manifest_value(s, version, finished_at_unix)->Object_0;
            &&& render(ms[0].1, 1) == seq!['"'] + "iso-extract-jpegs"@ + seq!['"']
            &&& render(ms[1].1, 1) == spec_json_string(version)
            &&& render(ms[2].1, 1) == decimal(finished_at_unix as nat)
            &&& render(ms[3].1, 1) == (if s.dry_run {
                "true"@
            } else {
                "false"@
            })
            &&& render(ms[4].1, 1) == "{\n"@ + spec_summary_block(s) + "  }"@
            &&& render(ms[5].1, 1) == seq!['[', '\n'] + join(
                s.inputs@.map_values(|i: InputSummary| spec_input_json(i)),
                ",\n"@,
            ) + seq!['\n'] + indent(1) + seq![']']
            &&& render(ms[6].1, 1) == seq!['[', '\n'] + join(
                s.results@.map_values(|r: ExtractionResult| spec_result_json(r)),
                ",\n"@,
            ) + seq!['\n'] + indent(1) + seq![']']
        }),
{
    let ms = manifest_value(s, version, finished_at_unix)->Object_0;
    reveal_strlit("iso-extract-jpegs");
    lemma_plain_key("iso-extract-jpegs"@);
    reveal_strlit("true");
    reveal_strlit("false");
    assert(seq!['t', 'r', 'u', 'e'] =~= "true"@);
    assert(seq!['f', 'a', 'l', 's', 'e'] =~= "false"@);
    lemma_summary_text(s);
    lemma_inputs_text(s.inputs@);
    lemma_results_text(s.results@);
}

/// `spec_to_json` with its variable parts named.
proof fn lemma_manifest_text(s: RunSummary, version: Seq<char>, finished_at_unix: u64)
    ensures
        spec_to_json(s, version, finished_at_unix) == manifest_text(
            spec_json_string(version),
            decimal(finished_at_unix as nat),
            if s.dry_run {
                "true"@
            } else {
                "false"@
            },
            spec_summary_block(s),
            join(s.inputs@.map_values(|i: InputSummary| spec_input_json(i)), ",\n"@),
            join(s.results@.map_values(|r: ExtractionResult| spec_result_json(r)), ",\n"@),
        ),
{
}

/// The manifest is the JSON document of `manifest_value`, written with two
/// spaces of indentation per level and ending with a line break: an object
/// whose members are, in order, `tool`, `version`, `finished_at_unix`,
/// `dry_run`, `summary` (the run's totals), `inputs` (one object per image,
/// in order) and `results` (one object per result, in order).
pub proof fn lemma_manifest_is_json(s: RunSummary, version: Seq<char>, finished_at_unix: u64)
    ensures
        spec_to_json(s, version, finished_at_unix) == render(
            manifest_value(s, version, finished_at_unix),
            0,
        ) + seq!['\n'],
{
    let jsv = spec_json_string(version);
    let dt = decimal(finished_at_unix as nat);
    let b = if s.dry_run {
        "true"@
    } else {
        "false"@
    };
    let sb = spec_summary_block(s);
    let ji = join(s.inputs@.map_values(|i: InputSummary| spec_input_json(i)), ",\n"@);
    let jr = join(s.results@.map_values(|r: ExtractionResult| spec_result_json(r)), ",\n"@);
    lemma_manifest_text(s, version, finished_at_unix);
    lemma_manifest_glue_text(jsv, dt, b, sb, ji, jr);
    lemma_manifest_leads(s, version, finished_at_unix);
    lemma_manifest_values(s, version, finished_at_unix);
    lemma_manifest_render(s, version, finished_at_unix);
}

} // verus!
