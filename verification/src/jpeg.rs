use crate::text::{chars_ends_with, ends_with, lower, lower_char, str_chars, strings_view, to_lower};
use vstd::prelude::*;

verus! {

/// The name ends in `.jpg` or `.jpeg`, in any ASCII case.
pub open spec fn spec_is_jpeg_name(p: Seq<char>) -> bool {
    ends_with(lower(p), ".jpg"@) || ends_with(lower(p), ".jpeg"@)
}

/// The name, lowercased, ends with `.` and then `ext`.
pub open spec fn has_extension(p: Seq<char>, ext: Seq<char>) -> bool {
    ends_with(lower(p), seq!['.'] + ext)
}

/// The name has one of the extensions, in any ASCII case of the name.
pub open spec fn spec_has_allowed_extension(p: Seq<char>, exts: Seq<Seq<char>>) -> bool {
    exists|i: int| 0 <= i < exts.len() && has_extension(p, #[trigger] exts[i])
}

/// The bytes begin with the JPEG start-of-image marker `FF D8`.
pub open spec fn spec_has_jpeg_magic(b: Seq<u8>) -> bool {
    b.len() >= 2 && b[0] == 0xff && b[1] == 0xd8
}

pub fn is_jpeg_name(path: &str) -> (r: bool)
    ensures
        r == spec_is_jpeg_name(path@),
{
    let l = to_lower(&str_chars(path));
    let jpg = str_chars(".jpg");
    let jpeg = str_chars(".jpeg");
    chars_ends_with(&l, &jpg) || chars_ends_with(&l, &jpeg)
}

proof fn lemma_ends_with_dot_ext(s: Seq<char>, ext: Seq<char>)
    ensures
        ends_with(s, seq!['.'] + ext) <==> (ends_with(s, ext) && ends_with(
            s.take(s.len() - ext.len()),
            seq!['.'],
        )),
{
    let de = seq!['.'] + ext;
    if ends_with(s, de) {
        assert(s.subrange(s.len() - ext.len(), s.len() as int) =~= s.subrange(
            s.len() - de.len(),
            s.len() as int,
        ).subrange(1, de.len() as int));
        assert(de.subrange(1, de.len() as int) =~= ext);
        let t = s.take(s.len() - ext.len());
        assert(t.subrange(t.len() - 1, t.len() as int) =~= seq![s[s.len() - de.len()]]);
        assert(de[0] == '.');
    }
    if ends_with(s, ext) && ends_with(s.take(s.len() - ext.len()), seq!['.']) {
        let t = s.take(s.len() - ext.len());
        assert(t.subrange(t.len() - 1, t.len() as int)[0] == s[s.len() - ext.len() - 1]);
        assert(s.subrange(s.len() - de.len(), s.len() as int) =~= de);
    }
}

pub fn has_allowed_extension(path: &str, extensions: &[String]) -> (r: bool)
    ensures
        r == spec_has_allowed_extension(path@, strings_view(extensions@)),
{
    let l = to_lower(&str_chars(path));
    let ghost exts = strings_view(extensions@);
    let mut i: usize = 0;
    while i < extensions.len()
        invariant
            i <= extensions.len(),
            l@ == lower(path@),
            exts == strings_view(extensions@),
            forall|j: int| 0 <= j < i ==> !has_extension(path@, #[trigger] exts[j]),
        decreases extensions.len() - i,
    {
        let ext = str_chars(extensions[i].as_str());
        assert(exts[i as int] == ext@);
        proof {
            lemma_ends_with_dot_ext(l@, ext@);
        }
        if chars_ends_with(&l, &ext) {
            let prefix = &l[0..l.len() - ext.len()];
            if chars_ends_with(prefix, &['.']) {
                assert(seq!['.'] =~= ['.']@);
                assert(prefix@ =~= l@.take(l@.len() - ext@.len()));
                return true;
            }
            assert(seq!['.'] =~= ['.']@);
            assert(prefix@ =~= l@.take(l@.len() - ext@.len()));
        }
        i = i + 1;
    }
    false
}

pub fn has_jpeg_magic(bytes: &[u8]) -> (r: bool)
    ensures
        r == spec_has_jpeg_magic(bytes@),
{
    bytes.len() >= 2 && bytes[0] == 0xff && bytes[1] == 0xd8
}

/// Lowercasing twice is lowercasing once.
pub proof fn lemma_lower_idempotent(s: Seq<char>)
    ensures
        lower(lower(s)) == lower(s),
{
    assert forall|i: int| 0 <= i < s.len() implies #[trigger] lower_char(lower_char(s[i])) == lower_char(
        s[i],
    ) by {
        let c = s[i];
        if 'A' <= c <= 'Z' {
            assert(((c as u32) + 32) as char as u32 == (c as u32) + 32);
        }
    }
    assert(lower(lower(s)) =~= lower(s));
}

/// Whether a name has an allowed extension does not depend on its ASCII case.
pub proof fn lemma_extension_ignores_case(p: Seq<char>, exts: Seq<Seq<char>>)
    ensures
        spec_has_allowed_extension(p, exts) == spec_has_allowed_extension(lower(p), exts),
        spec_is_jpeg_name(p) == spec_is_jpeg_name(lower(p)),
{
    lemma_lower_idempotent(p);
    if spec_has_allowed_extension(p, exts) {
        let i = choose|i: int| 0 <= i < exts.len() && has_extension(p, #[trigger] exts[i]);
        assert(has_extension(lower(p), exts[i]));
    }
    if spec_has_allowed_extension(lower(p), exts) {
        let i = choose|i: int| 0 <= i < exts.len() && has_extension(lower(p), #[trigger] exts[i]);
        assert(has_extension(p, exts[i]));
    }
}

/// A JPEG name is one with the default extensions `jpg` and `jpeg`.
pub proof fn lemma_jpeg_name_is_default_extension(p: Seq<char>)
    ensures
        spec_is_jpeg_name(p) == spec_has_allowed_extension(p, seq!["jpg"@, "jpeg"@]),
{
    reveal_strlit(".jpg");
    reveal_strlit(".jpeg");
    reveal_strlit("jpg");
    reveal_strlit("jpeg");
    assert(seq!['.'] + "jpg"@ =~= ".jpg"@);
    assert(seq!['.'] + "jpeg"@ =~= ".jpeg"@);
    let exts = seq!["jpg"@, "jpeg"@];
    if ends_with(lower(p), ".jpg"@) {
        assert(has_extension(p, exts[0]));
    }
    if ends_with(lower(p), ".jpeg"@) {
        assert(has_extension(p, exts[1]));
    }
}

/// The start marker is the first two bytes alone: any bytes that begin
/// `FF D8` carry it, whatever follows, and no shorter or other start does.
pub proof fn lemma_jpeg_magic_is_the_first_two_bytes(b: Seq<u8>, rest: Seq<u8>)
    ensures
        spec_has_jpeg_magic(seq![0xffu8, 0xd8u8] + rest),
        spec_has_jpeg_magic(b) <==> (b.len() >= 2 && b[0] == 0xffu8 && b[1] == 0xd8u8),
        b.len() >= 2 ==> (spec_has_jpeg_magic(b) == spec_has_jpeg_magic(b.take(2) + rest)),
{
    let s = seq![0xffu8, 0xd8u8] + rest;
    assert(s[0] == 0xffu8 && s[1] == 0xd8u8);
    if b.len() >= 2 {
        let t = b.take(2) + rest;
        assert(t[0] == b[0] && t[1] == b[1]);
    }
}

} // verus!
