use crate::text::{
    byte_chars, bytes_to_chars, chars_bytes, chars_to_bytes, is_byte_chars, chars_eq_str, extend_chars, is_ascii_alphabetic, is_control, is_control_char,
    split, split_chars, str_chars, string_from_chars, strings_view, trim, trim_chars, TrimSet,
};
use vstd::prelude::*;
use vstd::utf8::{decode_utf8, encode_utf8, valid_utf8};

verus! {

/// Lemma: the literals `.` and `..` hold one and two dots.
pub proof fn lemma_dot_literals()
    ensures
        "."@ == seq!['.'],
        ".."@ == seq!['.', '.'],
{
    reveal_strlit(".");
    reveal_strlit("..");
    assert("."@ =~= seq!['.']);
    assert(".."@ =~= seq!['.', '.']);
}

// ---------------------------------------------------------------------------
// Paths as `std::path` reads them on Unix
// ---------------------------------------------------------------------------

/// The last piece that is neither empty nor `.`.
pub open spec fn last_normal_piece(pieces: Seq<Seq<char>>) -> Option<Seq<char>>
    decreases pieces.len(),
{
    if pieces.len() == 0 {
        None
    } else if pieces.last().len() == 0 || pieces.last() == seq!['.'] {
        last_normal_piece(pieces.drop_last())
    } else {
        Some(pieces.last())
    }
}

/// `Path::file_name`: the last component, unless it is `..` or there is none.
pub open spec fn spec_file_name(p: Seq<char>) -> Option<Seq<char>> {
    match last_normal_piece(split(p, seq!['/'])) {
        Some(s) => if s == seq!['.', '.'] {
            None
        } else {
            Some(s)
        },
        None => None,
    }
}

/// `Path::file_stem` applied to a file name: the part before the last `.`,
/// unless that dot is the first character.
pub open spec fn spec_stem_of(name: Seq<char>) -> Seq<char> {
    match crate::iso::rfind_char(name, '.') {
        Some(i) => if i == 0 {
            name
        } else {
            name.take(i)
        },
        None => name,
    }
}

/// `PathBuf::push`: an absolute component replaces the path; otherwise a `/`
/// is put between unless the path is empty or already ends with one.
pub open spec fn path_push(base: Seq<char>, c: Seq<char>) -> Seq<char> {
    if c.len() > 0 && c[0] == '/' {
        c
    } else if base.len() > 0 && base.last() != '/' {
        base + seq!['/'] + c
    } else {
        base + c
    }
}

/// The path with each component pushed in turn.
pub open spec fn path_push_all(base: Seq<char>, parts: Seq<Seq<char>>) -> Seq<char>
    decreases parts.len(),
{
    if parts.len() == 0 {
        base
    } else {
        path_push(path_push_all(base, parts.drop_last()), parts.last())
    }
}

/// Whether `Path::components` holds a root or a `..` component (a Unix path
/// has no prefix component).
pub open spec fn has_unsafe_component(p: Seq<char>) -> bool {
    (p.len() > 0 && p[0] == '/') || split(p, seq!['/']).contains(seq!['.', '.'])
}

fn file_name(p: &[char]) -> (r: Option<Vec<char>>)
    ensures
        r is Some <==> spec_file_name(p@) is Some,
        r matches Some(a) ==> a@ == spec_file_name(p@)->0,
{
    let pieces = split_chars(p, &['/']);
    let ghost views = pieces@.map_values(|v: Vec<char>| v@);
    assert(seq!['/'] =~= ['/']@);
    let mut n: usize = pieces.len();
    assert(views.take(n as int) =~= views);
    proof {
        lemma_dot_literals();
    }
    while n > 0 && (pieces[n - 1].len() == 0 || chars_eq_str(&pieces[n - 1], "."))
        invariant
            n <= pieces.len(),
            "."@ == seq!['.'],
            views == pieces@.map_values(|v: Vec<char>| v@),
            last_normal_piece(views) == last_normal_piece(views.take(n as int)),
        decreases n,
    {
        proof {
            assert(views.take(n as int).last() == pieces@[n - 1]@);
            assert(views.take(n as int).drop_last() =~= views.take(n - 1));
        }
        n = n - 1;
    }
    assert(views == split(p@, seq!['/']));
    if n == 0 {
        assert(views.take(0) =~= Seq::<Seq<char>>::empty());
        assert(last_normal_piece(views) is None);
        return None;
    }
    proof {
        lemma_dot_literals();
        assert(views.take(n as int).last() == pieces@[n - 1]@);
    }
    let last = &pieces[n - 1];
    if chars_eq_str(last, "..") {
        return None;
    }
    let mut out: Vec<char> = Vec::new();
    extend_chars(&mut out, last);
    Some(out)
}

fn stem_of(name: &[char]) -> (r: Vec<char>)
    ensures
        r@ == spec_stem_of(name@),
{
    let mut i: usize = name.len();
    while i > 0 && name[i - 1] != '.'
        invariant
            i <= name.len(),
            forall|j: int| i <= j < name.len() ==> #[trigger] name@[j] != '.',
        decreases i,
    {
        i = i - 1;
    }
    let mut out: Vec<char> = Vec::new();
    if i > 1 {
        proof {
            crate::iso::lemma_rfind_char_is(name@, '.', i - 1);
        }
        extend_chars(&mut out, &name[0..i - 1]);
    } else {
        proof {
            crate::iso::lemma_rfind_char_is(name@, '.', i - 1);
        }
        extend_chars(&mut out, name);
    }
    out
}

fn push_component(base: &mut Vec<char>, c: &[char])
    ensures
        final(base)@ == path_push(old(base)@, c@),
        is_byte_chars(old(base)@) && is_byte_chars(c@) ==> is_byte_chars(final(base)@),
{
    if c.len() > 0 && c[0] == '/' {
        base.clear();
        extend_chars(base, c);
        assert(base@ =~= c@);
    } else {
        if base.len() > 0 && base[base.len() - 1] != '/' {
            base.push('/');
        }
        extend_chars(base, c);
    }
}

// ---------------------------------------------------------------------------
// Sanitising
// ---------------------------------------------------------------------------

/// Characters that Windows does not allow in file names.
pub open spec fn is_reserved(c: char) -> bool {
    c == '<' || c == '>' || c == ':' || c == '"' || c == '|' || c == '?' || c == '*'
}

pub open spec fn replace_reserved(s: Seq<char>) -> Seq<char> {
    s.map_values(|c: char| if is_reserved(c) { '_' } else { c })
}

/// One path component made safe to create: rejected when empty, `.`, `..`,
/// holding NUL, a root or `..` component, or a control character; reserved
/// characters become `_`; leading and trailing spaces and dots go.
pub open spec fn spec_sanitize_component(c: Seq<char>) -> Result<Seq<char>, Seq<char>> {
    if c.len() == 0 {
        Err("empty path component rejected"@)
    } else if c == seq!['.'] || c == seq!['.', '.'] {
        Err("unsafe path component rejected"@)
    } else if c.contains('\0') {
        Err("NUL byte in path component rejected"@)
    } else if has_unsafe_component(c) {
        Err("unsafe path component rejected"@)
    } else if exists|i: int| 0 <= i < c.len() && is_control(#[trigger] c[i]) {
        Err("control character in path component rejected"@)
    } else if trim(replace_reserved(c), TrimSet::SpaceOrDot).len() == 0 {
        Err("path component became empty after sanitization"@)
    } else {
        Ok(trim(replace_reserved(c), TrimSet::SpaceOrDot))
    }
}

/// What every component that sanitising lets through satisfies.
pub open spec fn is_safe_component(c: Seq<char>) -> bool {
    &&& c.len() > 0
    &&& c != seq!['.'] && c != seq!['.', '.']
    &&& c[0] != ' ' && c[0] != '.'
    &&& c.last() != ' ' && c.last() != '.'
    &&& forall|i: int|
        0 <= i < c.len() ==> !is_control(#[trigger] c[i]) && !is_reserved(c[i]) && c[i] != '/'
}

fn contains_char(s: &[char], c: char) -> (r: bool)
    ensures
        r == s@.contains(c),
{
    let mut i: usize = 0;
    while i < s.len()
        invariant
            i <= s.len(),
            forall|j: int| 0 <= j < i ==> s@[j] != c,
        decreases s.len() - i,
    {
        if s[i] == c {
            return true;
        }
        i = i + 1;
    }
    false
}

fn has_unsafe_component_exec(p: &[char]) -> (r: bool)
    ensures
        r == has_unsafe_component(p@),
{
    if p.len() > 0 && p[0] == '/' {
        return true;
    }
    let pieces = split_chars(p, &['/']);
    assert(seq!['/'] =~= ['/']@);
    let ghost views = pieces@.map_values(|v: Vec<char>| v@);
    let mut i: usize = 0;
    proof {
        lemma_dot_literals();
    }
    while i < pieces.len()
        invariant
            i <= pieces.len(),
            ".."@ == seq!['.', '.'],
            views == pieces@.map_values(|v: Vec<char>| v@),
            views == split(p@, seq!['/']),
            forall|j: int| 0 <= j < i ==> views[j] != seq!['.', '.'],
        decreases pieces.len() - i,
    {
        assert(views[i as int] == pieces@[i as int]@);
        if chars_eq_str(&pieces[i], "..") {
            assert(views[i as int] == seq!['.', '.']);
            assert(views.contains(views[i as int]));
            assert(views == split(p@, seq!['/']));
            return true;
        }
        i = i + 1;
    }
    assert(!views.contains(seq!['.', '.'])) by {
        if views.contains(seq!['.', '.']) {
            let j = choose|j: int| 0 <= j < views.len() && views[j] == seq!['.', '.'];
            assert(views[j] != seq!['.', '.']);
        }
    }
    false
}

/// Lemma: trimming spaces and dots leaves a stretch of the text that does not
/// begin or end with one; `k` is where it starts.
pub proof fn lemma_trim_space_dot(s: Seq<char>) -> (k: int)
    ensures
        ({
            let t = trim(s, TrimSet::SpaceOrDot);
            &&& t.len() > 0 ==> t[0] != ' ' && t[0] != '.' && t.last() != ' ' && t.last() != '.'
            &&& 0 <= k && k + t.len() <= s.len()
            &&& t == s.subrange(k, k + t.len())
        }),
{
    lemma_trim_start_space_dot(s);
    let a = crate::text::trim_start(s, TrimSet::SpaceOrDot);
    lemma_trim_end_space_dot(a);
    let t = trim(s, TrimSet::SpaceOrDot);
    let k = s.len() - a.len();
    assert(t =~= s.subrange(k, k + t.len()));
    k
}

proof fn lemma_trim_start_space_dot(s: Seq<char>)
    ensures
        ({
            let t = crate::text::trim_start(s, TrimSet::SpaceOrDot);
            &&& t.len() > 0 ==> t[0] != ' ' && t[0] != '.'
            &&& t.len() <= s.len()
            &&& t == s.skip(s.len() - t.len())
        }),
    decreases s.len(),
{
    if s.len() > 0 && (s[0] == ' ' || s[0] == '.') {
        lemma_trim_start_space_dot(s.drop_first());
        let t = crate::text::trim_start(s, TrimSet::SpaceOrDot);
        assert(s.drop_first().skip(s.drop_first().len() - t.len()) =~= s.skip(s.len() - t.len()));
    } else {
        assert(s.skip(0) =~= s);
    }
}

proof fn lemma_trim_end_space_dot(s: Seq<char>)
    ensures
        ({
            let t = crate::text::trim_end(s, TrimSet::SpaceOrDot);
            &&& t.len() > 0 ==> t.last() != ' ' && t.last() != '.'
            &&& t.len() <= s.len()
            &&& t == s.take(t.len() as int)
        }),
    decreases s.len(),
{
    if s.len() > 0 && (s.last() == ' ' || s.last() == '.') {
        lemma_trim_end_space_dot(s.drop_last());
        let t = crate::text::trim_end(s, TrimSet::SpaceOrDot);
        assert(s.drop_last().take(t.len() as int) =~= s.take(t.len() as int));
    } else {
        assert(s.take(s.len() as int) =~= s);
    }
}

/// Lemma: whatever sanitising a component without `/` lets through is safe.
pub proof fn lemma_sanitized_component_is_safe(c: Seq<char>)
    ensures
        !c.contains('/') ==> (spec_sanitize_component(c) matches Ok(s) ==> is_safe_component(s)),
{
    if let Ok(s) = spec_sanitize_component(c) {
        if !c.contains('/') {
            let r = replace_reserved(c);
            let k = lemma_trim_space_dot(r);
            assert forall|i: int| 0 <= i < s.len() implies !is_control(#[trigger] s[i])
                && !is_reserved(s[i]) && s[i] != '/' by {
                assert(s[i] == r[k + i]);
                assert(!is_control(c[k + i]));
                if c[k + i] == '/' {
                    assert(c.contains(c[k + i]));
                }
            }
            assert(s != seq!['.'] && s != seq!['.', '.']) by {
                if s == seq!['.'] || s == seq!['.', '.'] {
                    assert(s[0] == '.');
                }
            }
        }
    }
}

pub fn sanitize_component(component: &str) -> (r: Result<String, String>)
    ensures
        match (r, spec_sanitize_component(component@)) {
            (Ok(a), Ok(b)) => a@ == b,
            (Err(a), Err(b)) => a@ == b,
            _ => false,
        },
        !component@.contains('/') ==> (r matches Ok(s) ==> is_safe_component(s@)),
{
    proof {
        lemma_sanitized_component_is_safe(component@);
    }
    let c = str_chars(component);
    if c.len() == 0 {
        return Err("empty path component rejected".to_owned());
    }
    if chars_eq_str(&c, ".") || chars_eq_str(&c, "..") {
        proof {
            reveal_strlit(".");
            lemma_dot_literals();
        }
        return Err("unsafe path component rejected".to_owned());
    }
    proof {
        lemma_dot_literals();
    }
    if contains_char(&c, '\0') {
        return Err("NUL byte in path component rejected".to_owned());
    }
    if has_unsafe_component_exec(&c) {
        return Err("unsafe path component rejected".to_owned());
    }
    let mut clean: Vec<char> = Vec::new();
    let mut i: usize = 0;
    while i < c.len()
        invariant
            i <= c.len(),
            c@ == component@,
            c@.len() > 0,
            c@ != seq!['.'] && c@ != seq!['.', '.'],
            !c@.contains('\0'),
            !has_unsafe_component(c@),
            clean@ == replace_reserved(c@.take(i as int)),
            forall|j: int| 0 <= j < i ==> !is_control(#[trigger] c@[j]),
        decreases c.len() - i,
    {
        let ch = c[i];
        if is_control_char(ch) {
            assert(is_control(c@[i as int]));
            return Err("control character in path component rejected".to_owned());
        }
        if ch == '<' || ch == '>' || ch == ':' || ch == '"' || ch == '|' || ch == '?' || ch
            == '*' {
            clean.push('_');
        } else {
            clean.push(ch);
        }
        i = i + 1;
        assert(clean@ =~= replace_reserved(c@.take(i as int)));
    }
    assert(c@.take(c.len() as int) =~= c@);
    let trimmed = trim_chars(&clean, &TrimSet::SpaceOrDot);
    if trimmed.len() == 0 {
        return Err("path component became empty after sanitization".to_owned());
    }
    Ok(string_from_chars(&trimmed))
}

/// `path` is a drive-prefixed Windows path such as `C:...`.
pub open spec fn spec_looks_like_windows_drive_path(p: Seq<char>) -> bool {
    p.len() >= 2 && p[1] == ':' && is_ascii_alphabetic(p[0])
}

pub fn looks_like_windows_drive_path(path: &str) -> (r: bool)
    ensures
        r == spec_looks_like_windows_drive_path(path@),
{
    let c = str_chars(path);
    c.len() >= 2 && c[1] == ':' && (('A' <= c[0] && c[0] <= 'Z') || ('a' <= c[0] && c[0] <= 'z'))
}

/// `prefix` put in front of the components of a successful result.
pub open spec fn prepend_parts(prefix: Seq<Seq<char>>, r: Result<Seq<Seq<char>>, Seq<char>>) -> Result<
    Seq<Seq<char>>,
    Seq<char>,
> {
    match r {
        Ok(rest) => Ok(prefix + rest),
        Err(m) => Err(m),
    }
}

/// The sanitised components of the pieces between separators: empty and `.`
/// pieces are dropped, `..` is rejected.
pub open spec fn spec_sanitize_pieces(pieces: Seq<Seq<char>>) -> Result<Seq<Seq<char>>, Seq<char>>
    decreases pieces.len(),
{
    if pieces.len() == 0 {
        Ok(Seq::empty())
    } else {
        let raw = pieces[0];
        if raw.len() == 0 || raw == seq!['.'] {
            spec_sanitize_pieces(pieces.drop_first())
        } else if raw == seq!['.', '.'] {
            Err("parent directory component rejected"@)
        } else {
            match spec_sanitize_component(raw) {
                Err(m) => Err(m),
                Ok(c) => prepend_parts(seq![c], spec_sanitize_pieces(pieces.drop_first())),
            }
        }
    }
}

/// The components under which a file of the image is written.
pub open spec fn spec_sanitize_internal_path(p: Seq<char>) -> Result<Seq<Seq<char>>, Seq<char>> {
    if p.len() == 0 {
        Err("empty internal path"@)
    } else if p[0] == '/' || p[0] == '\\' {
        Err("absolute internal path rejected"@)
    } else if spec_looks_like_windows_drive_path(p) {
        Err("Windows drive-prefixed internal path rejected"@)
    } else {
        match spec_sanitize_pieces(split(p, seq!['/', '\\'])) {
            Ok(parts) => if parts.len() == 0 {
                Err("internal path has no filename"@)
            } else {
                Ok(parts)
            },
            Err(m) => Err(m),
        }
    }
}

proof fn lemma_sanitize_pieces_safe(pieces: Seq<Seq<char>>)
    requires
        forall|i: int, j: int|
            0 <= i < pieces.len() && 0 <= j < pieces[i].len() ==> #[trigger] pieces[i][j] != '/',
    ensures
        spec_sanitize_pieces(pieces) matches Ok(parts) ==> forall|i: int|
            0 <= i < parts.len() ==> is_safe_component(#[trigger] parts[i]),
    decreases pieces.len(),
{
    if pieces.len() > 0 {
        assert forall|i: int, j: int|
            0 <= i < pieces.drop_first().len() && 0 <= j < pieces.drop_first()[i].len() implies #[trigger] pieces.drop_first()[i][j] != '/' by {
            assert(pieces.drop_first()[i] == pieces[i + 1]);
        }
        lemma_sanitize_pieces_safe(pieces.drop_first());
        lemma_sanitized_component_is_safe(pieces[0]);
        assert(!pieces[0].contains('/')) by {
            if pieces[0].contains('/') {
                let j = choose|j: int| 0 <= j < pieces[0].len() && pieces[0][j] == '/';
                assert(pieces[0][j] != '/');
            }
        }
        if let Ok(parts) = spec_sanitize_pieces(pieces) {
            let raw = pieces[0];
            if !(raw.len() == 0 || raw == seq!['.']) && raw != seq!['.', '.'] {
                let c = spec_sanitize_component(raw)->Ok_0;
                let rest = spec_sanitize_pieces(pieces.drop_first())->Ok_0;
                assert(parts == seq![c] + rest);
                assert forall|i: int| 0 <= i < parts.len() implies is_safe_component(#[trigger] parts[i]) by {
                    if i > 0 {
                        assert(parts[i] == rest[i - 1]);
                    }
                }
            }
        }
    }
}

/// A piece between separators that names a component: not empty and not `.`.
pub open spec fn is_named_piece(r: Seq<char>) -> bool {
    !(r.len() == 0 || r == seq!['.'])
}

/// The pieces that name components, in order.
pub open spec fn named_pieces(pieces: Seq<Seq<char>>) -> Seq<Seq<char>> {
    pieces.filter(|r: Seq<char>| is_named_piece(r))
}

/// The pieces succeed exactly when none is `..` and every named piece
/// sanitises, and then give the sanitised named pieces, in order.
pub proof fn lemma_sanitize_pieces_filter_map(pieces: Seq<Seq<char>>)
    ensures
        (spec_sanitize_pieces(pieces) is Ok) <==> (!pieces.contains(seq!['.', '.']) && forall|k: int|
            0 <= k < named_pieces(pieces).len() ==> spec_sanitize_component(
                #[trigger] named_pieces(pieces)[k],
            ) is Ok),
        spec_sanitize_pieces(pieces) matches Ok(v) ==> v == named_pieces(pieces).map_values(
            |r: Seq<char>| spec_sanitize_component(r)->Ok_0,
        ),
    decreases pieces.len(),
{
    let f = |r: Seq<char>| spec_sanitize_component(r)->Ok_0;
    if pieces.len() == 0 {
        reveal(Seq::filter);
        assert(named_pieces(pieces) =~= Seq::<Seq<char>>::empty());
        assert(named_pieces(pieces).map_values(f) =~= Seq::<Seq<char>>::empty());
    } else {
        let p0 = pieces[0];
        let rest = pieces.drop_first();
        lemma_sanitize_pieces_filter_map(rest);
        assert(pieces =~= seq![p0] + rest);
        Seq::filter_distributes_over_add(seq![p0], rest, |r: Seq<char>| is_named_piece(r));
        reveal(Seq::filter);
        assert(seq![p0].drop_last() =~= Seq::<Seq<char>>::empty());
        let head = seq![p0].filter(|r: Seq<char>| is_named_piece(r));
        assert(Seq::<Seq<char>>::empty().filter(|r: Seq<char>| is_named_piece(r))
            =~= Seq::<Seq<char>>::empty());
        assert(seq![p0].drop_last().filter(|r: Seq<char>| is_named_piece(r))
            =~= Seq::<Seq<char>>::empty());
        assert(seq![p0].last() == p0);
        assert(named_pieces(pieces) == head + named_pieces(rest));
        assert(pieces.contains(seq!['.', '.']) <==> (p0 == seq!['.', '.'] || rest.contains(
            seq!['.', '.'],
        ))) by {
            if pieces.contains(seq!['.', '.']) {
                let j = choose|j: int| 0 <= j < pieces.len() && pieces[j] == seq!['.', '.'];
                if j > 0 {
                    assert(rest[j - 1] == pieces[j]);
                }
            }
            if rest.contains(seq!['.', '.']) {
                let j = choose|j: int| 0 <= j < rest.len() && rest[j] == seq!['.', '.'];
                assert(pieces[j + 1] == rest[j]);
            }
            if p0 == seq!['.', '.'] {
                assert(pieces[0] == seq!['.', '.']);
            }
        }
        if !is_named_piece(p0) {
            assert(head =~= Seq::<Seq<char>>::empty());
            assert(named_pieces(pieces) =~= named_pieces(rest));
            assert(p0 != seq!['.', '.']) by {
                if p0 == seq!['.', '.'] {
                    assert(p0.len() == 2);
                    assert(p0 != seq!['.']) by {
                        assert(p0.len() != seq!['.'].len());
                    }
                }
            }
        } else {
            assert(head =~= seq![p0]);
            let named = named_pieces(pieces);
            let named_rest = named_pieces(rest);
            assert(named =~= seq![p0] + named_rest);
            assert(named[0] == p0);
            assert forall|k: int| 0 <= k < named_rest.len() implies named_rest[k] == named[k
                + 1] by {}
            if p0 == seq!['.', '.'] {
            } else {
                match spec_sanitize_component(p0) {
                    Err(_) => {},
                    Ok(c) => {
                        if (forall|k: int|
                            0 <= k < named_rest.len() ==> spec_sanitize_component(
                                #[trigger] named_rest[k],
                            ) is Ok) {
                            assert forall|k: int| 0 <= k < named.len() implies spec_sanitize_component(
                                #[trigger] named[k],
                            ) is Ok by {
                                if k > 0 {
                                    assert(named[k] == named_rest[k - 1]);
                                }
                            }
                        } else {
                            let k = choose|k: int|
                                0 <= k < named_rest.len() && !(spec_sanitize_component(
                                    #[trigger] named_rest[k],
                                ) is Ok);
                            assert(named[k + 1] == named_rest[k]);
                        }
                        if let Ok(v) = spec_sanitize_pieces(pieces) {
                            let vr = spec_sanitize_pieces(rest)->Ok_0;
                            assert(v == seq![c] + vr);
                            assert(named.map_values(f) =~= seq![c] + named_rest.map_values(f));
                        }
                    },
                }
            }
        }
    }
}

/// `sanitize_internal_path` succeeds exactly when the path is not empty,
/// does not start with a separator or a drive prefix, has no `..` piece,
/// and has named pieces that all sanitise; it then gives them sanitised, in
/// order.
pub proof fn lemma_sanitize_internal_path_filter_map(p: Seq<char>)
    ensures
        (spec_sanitize_internal_path(p) is Ok) <==> ({
            let pieces = split(p, seq!['/', '\\']);
            &&& p.len() > 0
            &&& p[0] != '/' && p[0] != '\\'
            &&& !spec_looks_like_windows_drive_path(p)
            &&& !pieces.contains(seq!['.', '.'])
            &&& named_pieces(pieces).len() > 0
            &&& forall|k: int|
                0 <= k < named_pieces(pieces).len() ==> spec_sanitize_component(
                    #[trigger] named_pieces(pieces)[k],
                ) is Ok
        }),
        spec_sanitize_internal_path(p) matches Ok(v) ==> v == named_pieces(
            split(p, seq!['/', '\\']),
        ).map_values(|r: Seq<char>| spec_sanitize_component(r)->Ok_0),
{
    let pieces = split(p, seq!['/', '\\']);
    lemma_sanitize_pieces_filter_map(pieces);
    if let Ok(v) = spec_sanitize_pieces(pieces) {
        assert(v.len() == named_pieces(pieces).len());
    }
}

pub fn sanitize_internal_path(path: &str) -> (r: Result<Vec<String>, String>)
    ensures
        match (r, spec_sanitize_internal_path(path@)) {
            (Ok(a), Ok(b)) => strings_view(a@) == b,
            (Err(a), Err(b)) => a@ == b,
            _ => false,
        },
        r matches Ok(parts) ==> parts@.len() > 0 && forall|i: int|
            0 <= i < parts@.len() ==> is_safe_component(#[trigger] parts@[i]@),
{
    let p = str_chars(path);
    if p.len() == 0 {
        return Err("empty internal path".to_owned());
    }
    if p[0] == '/' || p[0] == '\\' {
        return Err("absolute internal path rejected".to_owned());
    }
    if looks_like_windows_drive_path(path) {
        return Err("Windows drive-prefixed internal path rejected".to_owned());
    }
    let pieces = split_chars(&p, &['/', '\\']);
    assert(seq!['/', '\\'] =~= ['/', '\\']@);
    let ghost views = pieces@.map_values(|v: Vec<char>| v@);
    proof {
        crate::text::lemma_split_pieces_free(p@, seq!['/', '\\']);
        assert forall|i: int, j: int|
            0 <= i < views.len() && 0 <= j < views[i].len() implies #[trigger] views[i][j] != '/' by {
            assert(!seq!['/', '\\'].contains(views[i][j]));
            if views[i][j] == '/' {
                assert(seq!['/', '\\'][0] == '/');
            }
        }
        lemma_sanitize_pieces_safe(views);
        lemma_dot_literals();
    }
    let mut components: Vec<String> = Vec::new();
    let mut i: usize = 0;
    assert(views.skip(0) =~= views);
    assert(strings_view(components@) =~= Seq::<Seq<char>>::empty());
    while i < pieces.len()
        invariant
            i <= pieces.len(),
            "."@ == seq!['.'],
            ".."@ == seq!['.', '.'],
            p@ == path@,
            p@.len() > 0,
            p@[0] != '/' && p@[0] != '\\',
            !spec_looks_like_windows_drive_path(p@),
            views == split(p@, seq!['/', '\\']),
            spec_sanitize_pieces(views) matches Ok(parts) ==> forall|k: int|
                0 <= k < parts.len() ==> is_safe_component(#[trigger] parts[k]),
            views == pieces@.map_values(|v: Vec<char>| v@),
            spec_sanitize_pieces(views) == prepend_parts(
                strings_view(components@),
                spec_sanitize_pieces(views.skip(i as int)),
            ),
        decreases pieces.len() - i,
    {
        let raw = &pieces[i];
        let ghost rest = views.skip(i as int);
        assert(rest[0] == raw@);
        assert(rest.drop_first() =~= views.skip(i + 1));
        if raw.len() == 0 || chars_eq_str(raw, ".") {
            i = i + 1;
            continue;
        }
        if chars_eq_str(raw, "..") {
            return Err("parent directory component rejected".to_owned());
        }
        let raw_string = string_from_chars(raw);
        let component = sanitize_component(raw_string.as_str())?;
        let ghost before = strings_view(components@);
        components.push(component);
        proof {
            assert(strings_view(components@) =~= before + seq![component@]);
            match spec_sanitize_pieces(views.skip(i + 1)) {
                Ok(tail) => {
                    assert(before + (seq![component@] + tail) =~= (before + seq![component@])
                        + tail);
                },
                Err(_) => {},
            }
        }
        i = i + 1;
    }
    assert(views.skip(i as int) =~= Seq::<Seq<char>>::empty());
    assert(strings_view(components@) + Seq::<Seq<char>>::empty() =~= strings_view(components@));
    if components.len() == 0 {
        return Err("internal path has no filename".to_owned());
    }
    assert forall|k: int| 0 <= k < components@.len() implies is_safe_component(
        #[trigger] components@[k]@,
    ) by {
        assert(strings_view(components@)[k] == components@[k]@);
    }
    Ok(components)
}

/// `str::from_utf8` accepts exactly the byte strings that are valid UTF-8,
/// and then reads them as written.
#[verifier::external_body]
fn utf8_text(bytes: &[u8]) -> (r: Option<String>)
    ensures
        r is Some <==> valid_utf8(bytes@),
        r matches Some(t) ==> t@ == decode_utf8(bytes@),
{
    match std::str::from_utf8(bytes) {
        Ok(t) => Some(t.to_owned()),
        Err(_) => None,
    }
}

/// The name under which an image's files are gathered: the stem of its file
/// name read as UTF-8, or `iso` when it has no file name or the stem is not
/// UTF-8. A path is a byte string; its separators and dots are found through
/// the byte-character view.
pub open spec fn spec_iso_name(source_iso: Seq<u8>) -> Seq<char> {
    match spec_file_name(byte_chars(source_iso)) {
        Some(name) => {
            let stem = chars_bytes(spec_stem_of(name));
            if valid_utf8(stem) {
                decode_utf8(stem)
            } else {
                "iso"@
            }
        },
        None => "iso"@,
    }
}

/// A component pushed onto a path: its UTF-8 bytes, seen as characters.
pub open spec fn component_view(c: Seq<char>) -> Seq<char> {
    byte_chars(encode_utf8(c))
}

pub open spec fn component_views(parts: Seq<Seq<char>>) -> Seq<Seq<char>> {
    parts.map_values(|c: Seq<char>| component_view(c))
}

/// Where a file of an image is written: under `output_dir`, in a directory
/// named after the image, at its sanitised internal path.
pub open spec fn spec_output_path(
    output_dir: Seq<u8>,
    source_iso: Seq<u8>,
    internal_path: Seq<char>,
) -> Result<Seq<u8>, Seq<char>> {
    match spec_sanitize_component(spec_iso_name(source_iso)) {
        Err(m) => Err(m),
        Ok(iso_dir) => match spec_sanitize_internal_path(internal_path) {
            Err(m) => Err(m),
            Ok(parts) => Ok(
                chars_bytes(
                    path_push_all(byte_chars(output_dir), component_views(seq![iso_dir] + parts)),
                ),
            ),
        },
    }
}

/// The stem of the file name of a byte path is made of byte characters.
proof fn lemma_stem_is_bytes(p: Seq<u8>)
    ensures
        spec_file_name(byte_chars(p)) matches Some(name) ==> is_byte_chars(spec_stem_of(name)),
{
    let pieces = split(byte_chars(p), seq!['/']);
    crate::text::lemma_byte_chars_roundtrip(p);
    crate::text::lemma_split_pieces_bytes(byte_chars(p), seq!['/']);
    lemma_last_normal_piece_in(pieces);
    if let Some(name) = spec_file_name(byte_chars(p)) {
        let i = choose|i: int| 0 <= i < pieces.len() && pieces[i] == name;
        assert(is_byte_chars(pieces[i]));
        crate::iso::lemma_rfind_char_props(name, '.');
        let stem = spec_stem_of(name);
        assert forall|j: int| 0 <= j < stem.len() implies (#[trigger] stem[j] as u32) < 256 by {
            assert(stem[j] == name[j]);
        }
    }
}

/// Pushing byte-character components onto a byte-character path gives one.
proof fn lemma_push_all_bytes(base: Seq<char>, parts: Seq<Seq<char>>)
    requires
        is_byte_chars(base),
        forall|k: int| 0 <= k < parts.len() ==> is_byte_chars(#[trigger] parts[k]),
    ensures
        is_byte_chars(path_push_all(base, parts)),
    decreases parts.len(),
{
    if parts.len() > 0 {
        assert forall|k: int| 0 <= k < parts.drop_last().len() implies is_byte_chars(
            #[trigger] parts.drop_last()[k],
        ) by {
            assert(parts.drop_last()[k] == parts[k]);
        }
        lemma_push_all_bytes(base, parts.drop_last());
        let q = path_push_all(base, parts.drop_last());
        let c = parts.last();
        assert(is_byte_chars(parts[parts.len() - 1]));
        let r = path_push(q, c);
        assert forall|j: int| 0 <= j < r.len() implies (#[trigger] r[j] as u32) < 256 by {
            if c.len() > 0 && c[0] == '/' {
            } else if q.len() > 0 && q.last() != '/' {
                if j < q.len() {
                    assert(r[j] == q[j]);
                } else if j == q.len() {
                } else {
                    assert(r[j] == c[j - q.len() - 1]);
                }
            } else {
                if j < q.len() {
                    assert(r[j] == q[j]);
                } else {
                    assert(r[j] == c[j - q.len()]);
                }
            }
        }
    }
}

pub fn output_path(output_dir: &[u8], source_iso: &[u8], internal_path: &str) -> (r: Result<
    Vec<u8>,
    String,
>)
    ensures
        match (r, spec_output_path(output_dir@, source_iso@, internal_path@)) {
            (Ok(a), Ok(b)) => a@ == b,
            (Err(a), Err(b)) => a@ == b,
            _ => false,
        },
{
    let iso_chars = bytes_to_chars(source_iso);
    proof {
        lemma_stem_is_bytes(source_iso@);
    }
    let iso_name: String = match file_name(&iso_chars) {
        Some(name) => {
            let stem = stem_of(&name);
            let stem_bytes = chars_to_bytes(&stem);
            match utf8_text(&stem_bytes) {
                Some(t) => t,
                None => "iso".to_owned(),
            }
        },
        None => "iso".to_owned(),
    };
    assert(iso_name@ == spec_iso_name(source_iso@));
    let iso_dir = sanitize_component(iso_name.as_str())?;
    let parts = sanitize_internal_path(internal_path)?;
    let ghost all = component_views(seq![iso_dir@] + strings_view(parts@));
    let mut path = bytes_to_chars(output_dir);
    proof {
        crate::text::lemma_byte_chars_roundtrip(output_dir@);
        crate::text::lemma_byte_chars_roundtrip(encode_utf8(iso_dir@));
    }
    let iso_dir_chars = bytes_to_chars(iso_dir.as_str().as_bytes());
    push_component(&mut path, &iso_dir_chars);
    proof {
        assert(all.take(1) =~= seq![component_view(iso_dir@)]);
        assert(seq![component_view(iso_dir@)].drop_last() =~= Seq::<Seq<char>>::empty());
        assert(path_push_all(byte_chars(output_dir@), Seq::<Seq<char>>::empty()) == byte_chars(
            output_dir@,
        ));
    }
    let mut i: usize = 0;
    while i < parts.len()
        invariant
            i <= parts.len(),
            all == component_views(seq![iso_dir@] + strings_view(parts@)),
            path@ == path_push_all(byte_chars(output_dir@), all.take(i + 1)),
            is_byte_chars(path@),
        decreases parts.len() - i,
    {
        proof {
            crate::text::lemma_byte_chars_roundtrip(encode_utf8(parts@[i as int]@));
        }
        let part = bytes_to_chars(parts[i].as_str().as_bytes());
        push_component(&mut path, &part);
        i = i + 1;
        assert(all.take(i + 1).drop_last() =~= all.take(i as int));
        assert(all.take(i + 1).last() == component_view(parts@[i - 1]@));
    }
    assert(all.take(i + 1) =~= all);
    Ok(chars_to_bytes(&path))
}

// ---------------------------------------------------------------------------
// Changing the extension
// ---------------------------------------------------------------------------

/// Where the last component of `p` lies, as `(start, end)`, skipping
/// trailing separators and `.` components as `Path::components` does.
pub open spec fn last_component_span(p: Seq<char>) -> Option<(int, int)>
    decreases p.len(),
{
    if p.len() == 0 {
        None
    } else if p.last() == '/' {
        last_component_span(p.drop_last())
    } else {
        let s = match crate::iso::rfind_char(p, '/') {
            Some(i) => i + 1,
            None => 0,
        };
        if 0 <= s < p.len() && p.skip(s) == seq!['.'] {
            last_component_span(p.take(s))
        } else {
            Some((s, p.len() as int))
        }
    }
}

/// `Path::with_extension`: the path cut right after the stem of its file
/// name, then `.` and `ext`; unchanged when there is no file name.
pub open spec fn spec_with_extension(p: Seq<char>, ext: Seq<char>) -> Seq<char> {
    match last_component_span(p) {
        None => p,
        Some((s, e)) => if p.subrange(s, e) == seq!['.', '.'] {
            p
        } else {
            p.take(s + spec_stem_of(p.subrange(s, e)).len()) + if ext.len() > 0 {
                seq!['.'] + ext
            } else {
                Seq::empty()
            }
        },
    }
}

proof fn lemma_span_bounds(p: Seq<char>)
    ensures
        last_component_span(p) matches Some((s, e)) ==> 0 <= s < e <= p.len(),
    decreases p.len(),
{
    if p.len() > 0 {
        if p.last() == '/' {
            lemma_span_bounds(p.drop_last());
        } else {
            crate::iso::lemma_rfind_char_props(p, '/');
            let s = match crate::iso::rfind_char(p, '/') {
                Some(i) => i + 1,
                None => 0,
            };
            if 0 <= s < p.len() && p.skip(s) == seq!['.'] {
                lemma_span_bounds(p.take(s));
            }
        }
    }
}

fn last_component_span_exec(p: &[char]) -> (r: Option<(usize, usize)>)
    ensures
        match (r, last_component_span(p@)) {
            (Some((a, b)), Some((c, d))) => a == c && b == d,
            (None, None) => true,
            _ => false,
        },
{
    let mut n: usize = p.len();
    assert(p@.take(n as int) =~= p@);
    loop
        invariant
            n <= p.len(),
            last_component_span(p@) == last_component_span(p@.take(n as int)),
        decreases n,
    {
        if n == 0 {
            return None;
        }
        let ghost q = p@.take(n as int);
        if p[n - 1] == '/' {
            assert(q.drop_last() =~= p@.take(n - 1));
            n = n - 1;
            continue;
        }
        let mut s: usize = n;
        while s > 0 && p[s - 1] != '/'
            invariant
                s <= n <= p.len(),
                forall|j: int| s <= j < n ==> #[trigger] p@[j] != '/',
            decreases s,
        {
            s = s - 1;
        }
        proof {
            crate::iso::lemma_rfind_char_is(q, '/', s - 1);
        }
        if n - s == 1 && p[s] == '.' {
            assert(q.skip(s as int) =~= seq!['.']);
            assert(q.take(s as int) =~= p@.take(s as int));
            n = s;
            continue;
        }
        assert(!(q.skip(s as int) == seq!['.'])) by {
            if q.skip(s as int) == seq!['.'] {
                assert(q.skip(s as int).len() == 1);
                assert(q.skip(s as int)[0] == p@[s as int]);
            }
        }
        return Some((s, n));
    }
}

/// `Path::with_extension` on a byte path: the byte-character view cut after
/// the stem of the file name, then `.` and the UTF-8 bytes of `ext`.
pub open spec fn spec_path_with_extension(p: Seq<u8>, ext: Seq<char>) -> Seq<u8> {
    chars_bytes(spec_with_extension(byte_chars(p), component_view(ext)))
}

/// The path with its extension replaced by `ext`.
pub fn with_extension(path: &[u8], ext: &str) -> (r: Vec<u8>)
    ensures
        r@ == spec_path_with_extension(path@, ext@),
{
    proof {
        lemma_dot_literals();
        crate::text::lemma_byte_chars_roundtrip(path@);
        crate::text::lemma_byte_chars_roundtrip(encode_utf8(ext@));
    }
    let p = bytes_to_chars(path);
    let ext_chars = bytes_to_chars(ext.as_bytes());
    proof {
        lemma_span_bounds(p@);
    }
    match last_component_span_exec(&p) {
        None => chars_to_bytes(&p),
        Some((s, e)) => {
            let name = &p[s..e];
            if chars_eq_str(name, "..") {
                return chars_to_bytes(&p);
            }
            let stem = stem_of(name);
            proof {
                crate::iso::lemma_rfind_char_props(name@, '.');
                assert(stem@.len() <= name@.len());
            }
            let mut out: Vec<char> = Vec::new();
            extend_chars(&mut out, &p[0..s + stem.len()]);
            if ext_chars.len() > 0 {
                out.push('.');
                extend_chars(&mut out, &ext_chars);
            }
            proof {
                if ext_chars@.len() > 0 {
                    assert(out@ =~= p@.take(s + stem@.len()) + (seq!['.'] + ext_chars@));
                } else {
                    assert(out@ =~= p@.take(s + stem@.len()) + Seq::<char>::empty());
                }
                assert forall|j: int| 0 <= j < out@.len() implies (#[trigger] out@[j] as u32)
                    < 256 by {
                    if j < s + stem@.len() {
                        assert(out@[j] == p@[j]);
                    } else if j > s + stem@.len() {
                        assert(out@[j] == ext_chars@[j - s - stem@.len() - 1]);
                    }
                }
            }
            chars_to_bytes(&out)
        },
    }
}

// ---------------------------------------------------------------------------
// Laws
// ---------------------------------------------------------------------------

proof fn lemma_last_normal_piece_in(pieces: Seq<Seq<char>>)
    ensures
        last_normal_piece(pieces) matches Some(p) ==> exists|i: int|
            0 <= i < pieces.len() && pieces[i] == p,
    decreases pieces.len(),
{
    if pieces.len() > 0 {
        if pieces.last().len() == 0 || pieces.last() == seq!['.'] {
            lemma_last_normal_piece_in(pieces.drop_last());
            if let Some(p) = last_normal_piece(pieces) {
                let i = choose|i: int| 0 <= i < pieces.drop_last().len() && pieces.drop_last()[i] == p;
                assert(pieces[i] == p);
            }
        } else {
            assert(pieces[pieces.len() - 1] == pieces.last());
        }
    }
}

/// The first byte of a character's UTF-8 encoding is `/` only for `/`.
proof fn lemma_encode_scalar_first(c: char)
    ensures
        vstd::utf8::encode_scalar(c as u32).len() > 0,
        (vstd::utf8::encode_scalar(c as u32)[0] == 47u8) <==> (c == '/'),
{
    let v = c as u32;
    vstd::utf8::char_is_scalar(c);
    vstd::utf8::char_u32_cast(c, v);
    if vstd::utf8::has_width_1_encoding(v) {
        assert(((v & 0x7F) as u8 == 47u8) <==> (v == 47)) by (bit_vector)
            requires
                v <= 0x7F,
        ;
        if v == 47 {
            assert(c == (47u32 as char));
        }
    } else if vstd::utf8::has_width_2_encoding(v) {
        assert(0xC0 | ((v >> 6) & 0x1F) as u8 != 47u8) by (bit_vector);
    } else if vstd::utf8::has_width_3_encoding(v) {
        assert(0xE0 | ((v >> 12) & 0x0F) as u8 != 47u8) by (bit_vector);
    } else {
        assert(0xF0 | ((v >> 18) & 0x7) as u8 != 47u8) by (bit_vector);
    }
}

/// A text holds `/` exactly when its UTF-8 encoding holds the byte `/`
/// (one direction is what the path laws need).
proof fn lemma_encode_keeps_slash(chars: Seq<char>)
    ensures
        chars.contains('/') ==> encode_utf8(chars).contains(47u8),
    decreases chars.len(),
{
    if chars.len() > 0 {
        lemma_encode_scalar_first(chars[0]);
        lemma_encode_keeps_slash(chars.drop_first());
        let e0 = vstd::utf8::encode_scalar(chars[0] as u32);
        let rest = encode_utf8(chars.drop_first());
        assert(encode_utf8(chars) == e0 + rest);
        if chars.contains('/') {
            let j = choose|j: int| 0 <= j < chars.len() && chars[j] == '/';
            if j == 0 {
                assert((e0 + rest)[0] == e0[0]);
            } else {
                assert(chars.drop_first()[j - 1] == '/');
                let k = choose|k: int| 0 <= k < rest.len() && rest[k] == 47u8;
                assert((e0 + rest)[e0.len() + k] == rest[k]);
            }
        }
    }
}

/// The first byte of the encoding of a text not starting with `/` is not `/`.
proof fn lemma_encode_first_byte(c: Seq<char>)
    requires
        c.len() > 0,
        c[0] != '/',
    ensures
        encode_utf8(c).len() > 0,
        encode_utf8(c)[0] != 47u8,
{
    lemma_encode_scalar_first(c[0]);
    let e0 = vstd::utf8::encode_scalar(c[0] as u32);
    assert(encode_utf8(c) == e0 + encode_utf8(c.drop_first()));
    assert((e0 + encode_utf8(c.drop_first()))[0] == e0[0]);
}

/// Lemma: the directory named after an image holds no `/`.
proof fn lemma_iso_name_has_no_separator(source_iso: Seq<u8>)
    ensures
        !spec_iso_name(source_iso).contains('/'),
{
    reveal_strlit("iso");
    let view = byte_chars(source_iso);
    let pieces = split(view, seq!['/']);
    crate::text::lemma_split_pieces_free(view, seq!['/']);
    lemma_last_normal_piece_in(pieces);
    lemma_stem_is_bytes(source_iso);
    match spec_file_name(view) {
        Some(name) => {
            let i = choose|i: int| 0 <= i < pieces.len() && pieces[i] == name;
            crate::iso::lemma_rfind_char_props(name, '.');
            let stem = spec_stem_of(name);
            let b = chars_bytes(stem);
            if valid_utf8(b) {
                let d = decode_utf8(b);
                vstd::utf8::decode_utf8_encode_utf8(b);
                lemma_encode_keeps_slash(d);
                if d.contains('/') {
                    let k = choose|k: int| 0 <= k < b.len() && b[k] == 47u8;
                    assert(stem[k] == name[k]);
                    assert(!seq!['/'].contains(pieces[i][k]));
                    assert(seq!['/'][0] == '/');
                    let x = stem[k] as u32;
                    assert(x < 256);
                    assert((x as u8 == 47u8) ==> x == 47) by (bit_vector)
                        requires
                            x < 256,
                    ;
                    vstd::utf8::char_u32_cast(stem[k], x);
                    assert(47u32 as char == '/');
                }
            } else {
                if "iso"@.contains('/') {
                    let j = choose|j: int| 0 <= j < "iso"@.len() && "iso"@[j] == '/';
                }
            }
        },
        None => {
            if "iso"@.contains('/') {
                let j = choose|j: int| 0 <= j < "iso"@.len() && "iso"@[j] == '/';
            }
        },
    }
}

proof fn lemma_push_all_keeps_prefix(base: Seq<char>, parts: Seq<Seq<char>>)
    requires
        forall|k: int| 0 <= k < parts.len() ==> (#[trigger] parts[k]).len() > 0 && parts[k][0] != '/',
    ensures
        starts_with_seq(path_push_all(base, parts), base),
    decreases parts.len(),
{
    if parts.len() == 0 {
        assert(base.subrange(0, base.len() as int) =~= base);
    } else {
        assert forall|k: int| 0 <= k < parts.drop_last().len() implies (
        #[trigger] parts.drop_last()[k]).len() > 0 && parts.drop_last()[k][0] != '/' by {
            assert(parts.drop_last()[k] == parts[k]);
        }
        lemma_push_all_keeps_prefix(base, parts.drop_last());
        let q = path_push_all(base, parts.drop_last());
        let c = parts.last();
        assert(parts[parts.len() - 1].len() > 0);
        assert(c[0] != '/');
        assert(path_push(q, c).subrange(0, base.len() as int) =~= q.subrange(0, base.len() as int));
    }
}

pub open spec fn starts_with_seq(s: Seq<char>, t: Seq<char>) -> bool {
    t.len() <= s.len() && s.subrange(0, t.len() as int) == t
}

/// A file of an image is always written under the output directory: the
/// path is the output directory with safe components pushed onto it (none
/// empty, `.`, `..` or absolute, none holding `/`, a control or a reserved
/// character), each as its UTF-8 bytes, so it begins with the output
/// directory's bytes.
pub proof fn lemma_output_path_under_output_dir(
    output_dir: Seq<u8>,
    source_iso: Seq<u8>,
    internal_path: Seq<char>,
)
    ensures
        spec_output_path(output_dir, source_iso, internal_path) matches Ok(p) ==> exists|
            parts: Seq<Seq<char>>,
        |
            #![trigger path_push_all(byte_chars(output_dir), component_views(parts))]
            parts.len() >= 2 && byte_chars(p) == path_push_all(
                byte_chars(output_dir),
                component_views(parts),
            ) && (forall|k: int| 0 <= k < parts.len() ==> is_safe_component(#[trigger] parts[k]))
                && output_dir.len() <= p.len() && p.subrange(0, output_dir.len() as int)
                == output_dir,
{
    if let Ok(p) = spec_output_path(output_dir, source_iso, internal_path) {
        let iso_dir = spec_sanitize_component(spec_iso_name(source_iso))->Ok_0;
        let rest = spec_sanitize_internal_path(internal_path)->Ok_0;
        lemma_iso_name_has_no_separator(source_iso);
        lemma_sanitized_component_is_safe(spec_iso_name(source_iso));
        let views = split(internal_path, seq!['/', '\\']);
        crate::text::lemma_split_pieces_free(internal_path, seq!['/', '\\']);
        assert forall|i: int, j: int|
            0 <= i < views.len() && 0 <= j < views[i].len() implies #[trigger] views[i][j] != '/' by {
            assert(!seq!['/', '\\'].contains(views[i][j]));
            if views[i][j] == '/' {
                assert(seq!['/', '\\'][0] == '/');
            }
        }
        lemma_sanitize_pieces_safe(views);
        let parts = seq![iso_dir] + rest;
        assert forall|k: int| 0 <= k < parts.len() implies is_safe_component(#[trigger] parts[k]) by {
            if k > 0 {
                assert(parts[k] == rest[k - 1]);
            }
        }
        let cv = component_views(parts);
        let base = byte_chars(output_dir);
        crate::text::lemma_byte_chars_roundtrip(output_dir);
        assert forall|k: int| 0 <= k < cv.len() implies (#[trigger] cv[k]).len() > 0 && cv[k][0]
            != '/' && is_byte_chars(cv[k]) by {
            assert(is_safe_component(parts[k]));
            lemma_encode_first_byte(parts[k]);
            let e = encode_utf8(parts[k]);
            crate::text::lemma_byte_chars_roundtrip(e);
            let x = e[0];
            assert((x as char) as u32 == x as u32);
            assert(x != 47u8);
            if cv[k][0] == '/' {
                assert((x as char) as u32 == 47);
            }
        }
        lemma_push_all_keeps_prefix(base, cv);
        lemma_push_all_bytes(base, cv);
        let q = path_push_all(base, cv);
        assert(p == chars_bytes(q));
        crate::text::lemma_chars_bytes_roundtrip(q);
        assert(p.subrange(0, output_dir.len() as int) =~= chars_bytes(
            q.subrange(0, output_dir.len() as int),
        ));
        assert(q.subrange(0, base.len() as int) == base);
    }
}

proof fn lemma_split_without_separator(s: Seq<char>, seps: Seq<char>)
    requires
        forall|i: int| 0 <= i < s.len() ==> !seps.contains(#[trigger] s[i]),
    ensures
        split(s, seps) == seq![s],
{
    crate::text::lemma_find_first_is(s, seps, s.len() as int);
}

/// Sanitising a component without `/` a second time changes nothing.
pub proof fn lemma_sanitize_component_idempotent(c: Seq<char>)
    requires
        !c.contains('/'),
    ensures
        spec_sanitize_component(c) matches Ok(s) ==> spec_sanitize_component(s) == Ok::<
            Seq<char>,
            Seq<char>,
        >(s),
{
    lemma_sanitized_component_is_safe(c);
    if let Ok(s) = spec_sanitize_component(c) {
        assert(!s.contains('\0')) by {
            if s.contains('\0') {
                let j = choose|j: int| 0 <= j < s.len() && s[j] == '\0';
                assert(!is_control(s[j]));
            }
        }
        lemma_split_without_separator(s, seq!['/']);
        assert(!seq![s].contains(seq!['.', '.'])) by {
            if seq![s].contains(seq!['.', '.']) {
                let j = choose|j: int| 0 <= j < 1 && seq![s][j] == seq!['.', '.'];
                assert(seq![s][j] == s);
            }
        }
        assert(replace_reserved(s) =~= s);
        assert(crate::text::trim_start(s, TrimSet::SpaceOrDot) == s);
        assert(crate::text::trim_end(s, TrimSet::SpaceOrDot) == s);
    }
}

} // verus!
