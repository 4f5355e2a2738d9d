use vstd::prelude::*;

verus! {

/// `String::push` appends one character at the end of the string.
pub assume_specification[ String::push ](s: &mut String, ch: char)
    ensures
        final(s)@ == old(s)@.push(ch),
;

// ---------------------------------------------------------------------------
// Character classes
// ---------------------------------------------------------------------------

pub open spec fn is_ascii_upper(c: char) -> bool {
    'A' <= c <= 'Z'
}

pub open spec fn is_ascii_lower(c: char) -> bool {
    'a' <= c <= 'z'
}

pub open spec fn is_ascii_digit(c: char) -> bool {
    '0' <= c <= '9'
}

pub open spec fn is_ascii_alphabetic(c: char) -> bool {
    is_ascii_upper(c) || is_ascii_lower(c)
}

pub open spec fn is_ascii_alphanumeric(c: char) -> bool {
    is_ascii_alphabetic(c) || is_ascii_digit(c)
}

/// Unicode general category Cc, what `char::is_control` tests.
pub open spec fn is_control(c: char) -> bool {
    c <= '\u{1f}' || ('\u{7f}' <= c && c <= '\u{9f}')
}

/// Unicode `White_Space`, what `char::is_whitespace` tests.
pub open spec fn is_whitespace(c: char) -> bool {
    ||| ('\u{09}' <= c && c <= '\u{0d}')
    ||| c == ' '
    ||| c == '\u{85}'
    ||| c == '\u{a0}'
    ||| c == '\u{1680}'
    ||| ('\u{2000}' <= c && c <= '\u{200a}')
    ||| c == '\u{2028}'
    ||| c == '\u{2029}'
    ||| c == '\u{202f}'
    ||| c == '\u{205f}'
    ||| c == '\u{3000}'
}

/// ASCII lowercase of one character; other characters are unchanged.
pub open spec fn lower_char(c: char) -> char {
    if is_ascii_upper(c) {
        ((c as u32) + 32) as char
    } else {
        c
    }
}

/// ASCII lowercase of a text, as `str::to_ascii_lowercase` computes it.
pub open spec fn lower(s: Seq<char>) -> Seq<char> {
    s.map_values(|c: char| lower_char(c))
}

pub open spec fn ends_with(s: Seq<char>, t: Seq<char>) -> bool {
    t.len() <= s.len() && s.subrange(s.len() - t.len(), s.len() as int) == t
}

pub open spec fn starts_with(s: Seq<char>, t: Seq<char>) -> bool {
    t.len() <= s.len() && s.subrange(0, t.len() as int) == t
}

pub fn is_control_char(c: char) -> (r: bool)
    ensures
        r == is_control(c),
{
    c <= '\u{1f}' || ('\u{7f}' <= c && c <= '\u{9f}')
}

pub fn is_whitespace_char(c: char) -> (r: bool)
    ensures
        r == is_whitespace(c),
{
    ('\u{09}' <= c && c <= '\u{0d}') || c == ' ' || c == '\u{85}' || c == '\u{a0}' || c
        == '\u{1680}' || ('\u{2000}' <= c && c <= '\u{200a}') || c == '\u{2028}' || c
        == '\u{2029}' || c == '\u{202f}' || c == '\u{205f}' || c == '\u{3000}'
}

pub fn to_lower_char(c: char) -> (r: char)
    ensures
        r == lower_char(c),
{
    if 'A' <= c && c <= 'Z' {
        ((c as u8) + 32) as char
    } else {
        c
    }
}

// ---------------------------------------------------------------------------
// Conversions between strings and character vectors
// ---------------------------------------------------------------------------

/// The characters of a string slice, in order.
pub fn str_chars(s: &str) -> (v: Vec<char>)
    ensures
        v@ == s@,
{
    let mut v: Vec<char> = Vec::new();
    for c in it: s.chars()
        invariant
            v@ == it.seq().take(it.index() as int),
    {
        v.push(c);
    }
    v
}

/// A string holding exactly the given characters.
pub fn string_from_chars(v: &[char]) -> (s: String)
    ensures
        s@ == v@,
{
    let mut s = String::new();
    let mut i: usize = 0;
    while i < v.len()
        invariant
            i <= v.len(),
            s@ == v@.take(i as int),
        decreases v.len() - i,
    {
        s.push(v[i]);
        i = i + 1;
        assert(s@ =~= v@.take(i as int));
    }
    assert(v@.take(v.len() as int) =~= v@);
    s
}

/// Appends the characters of `t` to `v`.
pub fn extend_chars(v: &mut Vec<char>, t: &[char])
    ensures
        final(v)@ == old(v)@ + t@,
{
    let mut i: usize = 0;
    while i < t.len()
        invariant
            i <= t.len(),
            v@ == old(v)@ + t@.take(i as int),
        decreases t.len() - i,
    {
        v.push(t[i]);
        i = i + 1;
        assert(v@ =~= old(v)@ + t@.take(i as int));
    }
    assert(t@.take(t.len() as int) =~= t@);
}

/// Appends the characters of a string slice to `v`.
pub fn extend_str(v: &mut Vec<char>, t: &str)
    ensures
        final(v)@ == old(v)@ + t@,
{
    let c = str_chars(t);
    extend_chars(v, &c);
}

pub fn chars_eq(a: &[char], b: &[char]) -> (r: bool)
    ensures
        r == (a@ == b@),
{
    if a.len() != b.len() {
        return false;
    }
    let mut i: usize = 0;
    while i < a.len()
        invariant
            a.len() == b.len(),
            i <= a.len(),
            a@.take(i as int) == b@.take(i as int),
        decreases a.len() - i,
    {
        if a[i] != b[i] {
            assert(a@[i as int] != b@[i as int]);
            return false;
        }
        assert(a@.take(i + 1) =~= a@.take(i as int).push(a@[i as int]));
        assert(b@.take(i + 1) =~= b@.take(i as int).push(b@[i as int]));
        i = i + 1;
    }
    assert(a@.take(a.len() as int) =~= a@);
    assert(b@.take(b.len() as int) =~= b@);
    true
}

/// Whether the characters equal the given string slice.
pub fn chars_eq_str(a: &[char], b: &str) -> (r: bool)
    ensures
        r == (a@ == b@),
{
    let bc = str_chars(b);
    chars_eq(a, &bc)
}

pub fn chars_ends_with(s: &[char], t: &[char]) -> (r: bool)
    ensures
        r == ends_with(s@, t@),
{
    if t.len() > s.len() {
        return false;
    }
    let start = s.len() - t.len();
    let tail = &s[start..s.len()];
    chars_eq(tail, t)
}

pub fn chars_starts_with(s: &[char], t: &[char]) -> (r: bool)
    ensures
        r == starts_with(s@, t@),
{
    if t.len() > s.len() {
        return false;
    }
    let head = &s[0..t.len()];
    chars_eq(head, t)
}

/// ASCII lowercase of the characters.
pub fn to_lower(v: &[char]) -> (r: Vec<char>)
    ensures
        r@ == lower(v@),
{
    let mut r: Vec<char> = Vec::new();
    let mut i: usize = 0;
    while i < v.len()
        invariant
            i <= v.len(),
            r@ == lower(v@.take(i as int)),
        decreases v.len() - i,
    {
        let c = to_lower_char(v[i]);
        r.push(c);
        i = i + 1;
        assert(r@ =~= lower(v@.take(i as int)));
    }
    assert(v@.take(v.len() as int) =~= v@);
    r
}

// ---------------------------------------------------------------------------
// Splitting and joining
// ---------------------------------------------------------------------------

/// Index of the first character of `s` in `set`, if any.
pub open spec fn find_first(s: Seq<char>, set: Seq<char>) -> Option<int>
    decreases s.len(),
{
    if s.len() == 0 {
        None
    } else if set.contains(s[0]) {
        Some(0)
    } else {
        match find_first(s.drop_first(), set) {
            Some(i) => Some(i + 1),
            None => None,
        }
    }
}

/// The pieces of `s` between the separator characters in `seps`, as
/// `str::split` produces them (an empty text gives one empty piece).
pub open spec fn split(s: Seq<char>, seps: Seq<char>) -> Seq<Seq<char>>
    decreases s.len(),
{
    match find_first(s, seps) {
        Some(i) => if 0 <= i < s.len() {
            seq![s.take(i)] + split(s.skip(i + 1), seps)
        } else {
            seq![s]
        },
        None => seq![s],
    }
}

pub proof fn lemma_find_first(s: Seq<char>, set: Seq<char>)
    ensures
        match find_first(s, set) {
            Some(i) => 0 <= i < s.len() && set.contains(s[i]) && forall|j: int|
                0 <= j < i ==> !set.contains(#[trigger] s[j]),
            None => forall|j: int| 0 <= j < s.len() ==> !set.contains(#[trigger] s[j]),
        },
    decreases s.len(),
{
    if s.len() > 0 {
        lemma_find_first(s.drop_first(), set);
        if let Some(i) = find_first(s, set) {
            if i > 0 {
                assert forall|j: int| 0 <= j < i implies !set.contains(#[trigger] s[j]) by {
                    if j > 0 {
                        assert(s[j] == s.drop_first()[j - 1]);
                    }
                }
            }
        } else {
            assert forall|j: int| 0 <= j < s.len() implies !set.contains(#[trigger] s[j]) by {
                if j > 0 {
                    assert(s[j] == s.drop_first()[j - 1]);
                }
            }
        }
    }
}

/// Characterises `find_first` by its result.
pub proof fn lemma_find_first_is(s: Seq<char>, set: Seq<char>, k: int)
    requires
        0 <= k <= s.len(),
        forall|j: int| 0 <= j < k ==> !set.contains(#[trigger] s[j]),
        k < s.len() ==> set.contains(s[k]),
    ensures
        find_first(s, set) == (if k < s.len() { Some(k) } else { None::<int> }),
{
    lemma_find_first(s, set);
}

/// Splits `s` at every character found in `seps`.
pub fn split_chars(s: &[char], seps: &[char]) -> (parts: Vec<Vec<char>>)
    ensures
        parts@.map_values(|p: Vec<char>| p@) == split(s@, seps@),
{
    let mut parts: Vec<Vec<char>> = Vec::new();
    let mut cur: Vec<char> = Vec::new();
    let mut i: usize = 0;
    let ghost mut start: int = 0;
    assert(s@.skip(0) =~= s@);
    assert(parts@.map_values(|p: Vec<char>| p@) =~= Seq::<Seq<char>>::empty());
    while i < s.len()
        invariant
            0 <= start <= i <= s.len(),
            cur@ == s@.subrange(start, i as int),
            forall|j: int| start <= j < i ==> !seps@.contains(#[trigger] s@[j]),
            split(s@, seps@) == parts@.map_values(|p: Vec<char>| p@) + split(
                s@.skip(start),
                seps@,
            ),
        decreases s.len() - i,
    {
        let c = s[i];
        let mut is_sep = false;
        let mut k: usize = 0;
        while k < seps.len()
            invariant
                k <= seps.len(),
                is_sep == (exists|j: int| 0 <= j < k && seps@[j] == c),
            decreases seps.len() - k,
        {
            if seps[k] == c {
                is_sep = true;
            }
            k = k + 1;
        }
        if is_sep {
            proof {
                let rest = s@.skip(start);
                let idx = i - start;
                assert forall|j: int| 0 <= j < idx implies !seps@.contains(#[trigger] rest[j]) by {
                    assert(rest[j] == s@[start + j]);
                }
                lemma_find_first_is(rest, seps@, idx);
                assert(rest.take(idx) =~= cur@);
                assert(rest.skip(idx + 1) =~= s@.skip(i + 1));
            }
            let ghost old_parts = parts@.map_values(|p: Vec<char>| p@);
            let ghost piece = cur@;
            parts.push(cur);
            cur = Vec::new();
            i = i + 1;
            proof {
                assert(parts@.map_values(|p: Vec<char>| p@) =~= old_parts + seq![piece]);
                assert(split(s@.skip(start), seps@) == seq![piece] + split(s@.skip(i as int), seps@));
                start = i as int;
            }
            assert(cur@ =~= s@.subrange(start, i as int));
        } else {
            cur.push(c);
            i = i + 1;
            assert(cur@ =~= s@.subrange(start, i as int));
        }
    }
    proof {
        let rest = s@.skip(start);
        assert forall|j: int| 0 <= j < rest.len() implies !seps@.contains(#[trigger] rest[j]) by {
            assert(rest[j] == s@[start + j]);
        }
        lemma_find_first_is(rest, seps@, rest.len() as int);
        assert(rest =~= cur@);
    }
    let ghost old_parts = parts@.map_values(|p: Vec<char>| p@);
    parts.push(cur);
    assert(parts@.map_values(|p: Vec<char>| p@) =~= old_parts + seq![parts@.last()@]);
    parts
}

/// The pieces joined with `sep` between them, as `[String]::join` builds it.
pub open spec fn join(parts: Seq<Seq<char>>, sep: Seq<char>) -> Seq<char>
    decreases parts.len(),
{
    if parts.len() == 0 {
        Seq::empty()
    } else if parts.len() == 1 {
        parts[0]
    } else {
        join(parts.drop_last(), sep) + sep + parts.last()
    }
}

// ---------------------------------------------------------------------------
// Numbers as text
// ---------------------------------------------------------------------------

pub open spec fn digit_char(d: nat) -> char {
    ((d + 48) as u32) as char
}

/// Decimal digits of `n`, as `u64::to_string` writes them.
pub open spec fn decimal(n: nat) -> Seq<char>
    decreases n,
{
    if n < 10 {
        seq![digit_char(n)]
    } else {
        decimal(n / 10).push(digit_char(n % 10))
    }
}

/// The number that a text of decimal digits stands for.
pub open spec fn decimal_value(s: Seq<char>) -> nat
    decreases s.len(),
{
    if s.len() == 0 {
        0
    } else {
        decimal_value(s.drop_last()) * 10 + ((s.last() as u32) - 48) as nat
    }
}

pub fn u64_to_decimal(n: u64) -> (r: Vec<char>)
    ensures
        r@ == decimal(n as nat),
    decreases n,
{
    if n < 10 {
        let mut r: Vec<char> = Vec::new();
        r.push(((n as u8) + 48) as char);
        r
    } else {
        let mut r = u64_to_decimal(n / 10);
        r.push((((n % 10) as u8) + 48) as char);
        r
    }
}

/// Writing a number in decimal and reading it back gives the number.
pub proof fn lemma_decimal_roundtrip(n: nat)
    ensures
        decimal_value(decimal(n)) == n,
        forall|i: int| 0 <= i < decimal(n).len() ==> is_ascii_digit(#[trigger] decimal(n)[i]),
    decreases n,
{
    let d = n % 10;
    assert(((d + 48) as u32) as char as u32 == d + 48);
    if n < 10 {
        assert(decimal(n).drop_last() =~= Seq::<char>::empty());
        assert(decimal(n).last() == digit_char(d));
        assert(d == n);
        assert(decimal_value(decimal(n).drop_last()) == 0);
        assert(((decimal(n).last() as u32) - 48) as nat == d);
    } else {
        lemma_decimal_roundtrip(n / 10);
        let s = decimal(n);
        assert(s.drop_last() =~= decimal(n / 10));
        assert(n == (n / 10) * 10 + d);
        assert(s.last() == digit_char(d));
        assert(((s.last() as u32) - 48) as nat == d);
        assert(decimal_value(s) == decimal_value(s.drop_last()) * 10 + d);
        assert forall|i: int| 0 <= i < s.len() implies is_ascii_digit(#[trigger] s[i]) by {
            if i < s.len() - 1 {
                assert(s[i] == decimal(n / 10)[i]);
            }
        }
    }
}

pub open spec fn hex_digit_char(d: nat) -> char {
    if d < 10 {
        ((d + 48) as u32) as char
    } else {
        ((d + 87) as u32) as char
    }
}

/// Four lowercase hex digits of `v`, as `format!("{:04x}", v)` writes a value below 0x10000.
pub open spec fn hex4(v: nat) -> Seq<char> {
    seq![
        hex_digit_char((v / 4096) % 16),
        hex_digit_char((v / 256) % 16),
        hex_digit_char((v / 16) % 16),
        hex_digit_char(v % 16),
    ]
}

fn hex_digit(d: u32) -> (c: char)
    requires
        d < 16,
    ensures
        c == hex_digit_char(d as nat),
{
    if d < 10 {
        ((d as u8) + 48) as char
    } else {
        ((d as u8) + 87) as char
    }
}

pub fn hex4_chars(v: u32) -> (r: Vec<char>)
    ensures
        r@ == hex4(v as nat),
{
    let mut r: Vec<char> = Vec::new();
    r.push(hex_digit((v / 4096) % 16));
    r.push(hex_digit((v / 256) % 16));
    r.push(hex_digit((v / 16) % 16));
    r.push(hex_digit(v % 16));
    assert(r@ =~= hex4(v as nat));
    r
}

// ---------------------------------------------------------------------------
// Trimming
// ---------------------------------------------------------------------------

/// The character classes that the program trims.
pub enum TrimSet {
    /// Unicode whitespace, what `str::trim` removes.
    Whitespace,
    /// The character `.`.
    Dot,
    /// The characters ` ` and `.`.
    SpaceOrDot,
}

pub open spec fn in_trim_set(c: char, set: TrimSet) -> bool {
    match set {
        TrimSet::Whitespace => is_whitespace(c),
        TrimSet::Dot => c == '.',
        TrimSet::SpaceOrDot => c == ' ' || c == '.',
    }
}

fn in_trim_set_exec(c: char, set: &TrimSet) -> (r: bool)
    ensures
        r == in_trim_set(c, *set),
{
    match set {
        TrimSet::Whitespace => is_whitespace_char(c),
        TrimSet::Dot => c == '.',
        TrimSet::SpaceOrDot => c == ' ' || c == '.',
    }
}

/// `s` without its leading characters from `set`.
pub open spec fn trim_start(s: Seq<char>, set: TrimSet) -> Seq<char>
    decreases s.len(),
{
    if s.len() > 0 && in_trim_set(s[0], set) {
        trim_start(s.drop_first(), set)
    } else {
        s
    }
}

/// `s` without its trailing characters from `set`.
pub open spec fn trim_end(s: Seq<char>, set: TrimSet) -> Seq<char>
    decreases s.len(),
{
    if s.len() > 0 && in_trim_set(s.last(), set) {
        trim_end(s.drop_last(), set)
    } else {
        s
    }
}

/// `s` without leading and trailing characters from `set`.
pub open spec fn trim(s: Seq<char>, set: TrimSet) -> Seq<char> {
    trim_end(trim_start(s, set), set)
}

pub fn trim_start_chars(s: &[char], set: &TrimSet) -> (r: Vec<char>)
    ensures
        r@ == trim_start(s@, *set),
{
    let mut i: usize = 0;
    assert(s@.skip(0) =~= s@);
    while i < s.len() && in_trim_set_exec(s[i], set)
        invariant
            i <= s.len(),
            trim_start(s@, *set) == trim_start(s@.skip(i as int), *set),
        decreases s.len() - i,
    {
        assert(s@.skip(i as int).drop_first() =~= s@.skip(i + 1));
        i = i + 1;
    }
    let mut r: Vec<char> = Vec::new();
    extend_chars(&mut r, &s[i..s.len()]);
    assert(r@ =~= s@.skip(i as int));
    r
}

pub fn trim_end_chars(s: &[char], set: &TrimSet) -> (r: Vec<char>)
    ensures
        r@ == trim_end(s@, *set),
{
    let mut n: usize = s.len();
    assert(s@.take(n as int) =~= s@);
    while n > 0 && in_trim_set_exec(s[n - 1], set)
        invariant
            n <= s.len(),
            trim_end(s@, *set) == trim_end(s@.take(n as int), *set),
        decreases n,
    {
        assert(s@.take(n as int).drop_last() =~= s@.take(n - 1));
        n = n - 1;
    }
    let mut r: Vec<char> = Vec::new();
    extend_chars(&mut r, &s[0..n]);
    assert(r@ =~= s@.take(n as int));
    r
}

pub fn trim_chars(s: &[char], set: &TrimSet) -> (r: Vec<char>)
    ensures
        r@ == trim(s@, *set),
{
    let a = trim_start_chars(s, set);
    trim_end_chars(&a, set)
}

/// The views of a sequence of strings.
pub open spec fn strings_view(v: Seq<String>) -> Seq<Seq<char>> {
    v.map_values(|s: String| s@)
}

/// The strings joined with `sep` between them.
pub fn join_strings(parts: &[String], sep: &str) -> (r: String)
    ensures
        r@ == join(strings_view(parts@), sep@),
{
    let ghost views = strings_view(parts@);
    let mut r: Vec<char> = Vec::new();
    let mut i: usize = 0;
    while i < parts.len()
        invariant
            i <= parts.len(),
            views == strings_view(parts@),
            r@ == join(views.take(i as int), sep@),
        decreases parts.len() - i,
    {
        if i > 0 {
            extend_str(&mut r, sep);
        }
        extend_str(&mut r, parts[i].as_str());
        i = i + 1;
        assert(views.take(i as int).drop_last() =~= views.take(i - 1));
        assert(views.take(i as int).last() == parts@[i - 1]@);
    }
    assert(views.take(parts.len() as int) =~= views);
    string_from_chars(&r)
}

/// A copy of the strings.
pub fn clone_strings(v: &Vec<String>) -> (r: Vec<String>)
    ensures
        strings_view(r@) == strings_view(v@),
{
    let mut r: Vec<String> = Vec::new();
    let mut i: usize = 0;
    while i < v.len()
        invariant
            i <= v.len(),
            strings_view(r@) == strings_view(v@.take(i as int)),
        decreases v.len() - i,
    {
        let c = v[i].clone();
        assert(c@ == v@[i as int]@);
        let ghost r0 = strings_view(r@);
        r.push(c);
        i = i + 1;
        assert(strings_view(r@) =~= r0.push(c@));
        assert(strings_view(v@.take(i as int)) =~= strings_view(v@.take(i - 1)).push(v@[i - 1]@));
    }
    assert(v@.take(v.len() as int) =~= v@);
    r
}

/// Lemma: no piece of a split holds a separator.
pub proof fn lemma_split_pieces_free(s: Seq<char>, seps: Seq<char>)
    ensures
        forall|i: int, j: int|
            0 <= i < split(s, seps).len() && 0 <= j < split(s, seps)[i].len() ==> !seps.contains(
                #[trigger] split(s, seps)[i][j],
            ),
    decreases s.len(),
{
    lemma_find_first(s, seps);
    match find_first(s, seps) {
        Some(k) => {
            lemma_split_pieces_free(s.skip(k + 1), seps);
            let parts = split(s, seps);
            let rest = split(s.skip(k + 1), seps);
            assert(parts == seq![s.take(k)] + rest);
            assert forall|i: int, j: int|
                0 <= i < parts.len() && 0 <= j < parts[i].len() implies !seps.contains(
                #[trigger] parts[i][j],
            ) by {
                if i == 0 {
                    assert(parts[i][j] == s[j]);
                } else {
                    assert(parts[i] == rest[i - 1]);
                }
            }
        },
        None => {},
    }
}

// ---------------------------------------------------------------------------
// Bytes seen as characters
// ---------------------------------------------------------------------------

/// Each byte as the character with the same value. Path logic that only
/// looks for ASCII separators and dots reads bytes through this view.
pub open spec fn byte_chars(b: Seq<u8>) -> Seq<char> {
    b.map_values(|x: u8| x as char)
}

/// Each character below 256 as the byte with the same value.
pub open spec fn chars_bytes(c: Seq<char>) -> Seq<u8> {
    c.map_values(|x: char| (x as u32) as u8)
}

/// Every character is below 256.
pub open spec fn is_byte_chars(c: Seq<char>) -> bool {
    forall|i: int| 0 <= i < c.len() ==> (#[trigger] c[i] as u32) < 256
}

pub proof fn lemma_byte_chars_roundtrip(b: Seq<u8>)
    ensures
        chars_bytes(byte_chars(b)) == b,
        is_byte_chars(byte_chars(b)),
{
    assert forall|i: int| 0 <= i < b.len() implies (((b[i] as char) as u32) as u8) == b[i] && ((b[i] as char) as u32) < 256 by {
        let x = b[i];
        assert((x as char) as u32 == x as u32);
    }
    assert(chars_bytes(byte_chars(b)) =~= b);
}

pub proof fn lemma_chars_bytes_roundtrip(c: Seq<char>)
    requires
        is_byte_chars(c),
    ensures
        byte_chars(chars_bytes(c)) == c,
{
    assert forall|i: int| 0 <= i < c.len() implies (((c[i] as u32) as u8) as char) == c[i] by {
        let ch = c[i];
        let x = ch as u32;
        assert(x < 256);
        assert((x as u8) as u32 == x) by (bit_vector)
            requires
                x < 256,
        ;
        let y = x as u8;
        vstd::utf8::char_u32_cast(ch, x);
        assert((y as u32) as char == y as char);
    }
    assert(byte_chars(chars_bytes(c)) =~= c);
}

/// The bytes as characters of the same values.
pub fn bytes_to_chars(b: &[u8]) -> (r: Vec<char>)
    ensures
        r@ == byte_chars(b@),
{
    let mut r: Vec<char> = Vec::new();
    let mut i: usize = 0;
    while i < b.len()
        invariant
            i <= b.len(),
            r@ == byte_chars(b@.take(i as int)),
        decreases b.len() - i,
    {
        r.push(b[i] as char);
        i = i + 1;
        assert(r@ =~= byte_chars(b@.take(i as int)));
    }
    assert(b@.take(b.len() as int) =~= b@);
    r
}

/// Characters below 256 as bytes of the same values.
pub fn chars_to_bytes(c: &[char]) -> (r: Vec<u8>)
    requires
        is_byte_chars(c@),
    ensures
        r@ == chars_bytes(c@),
{
    let mut r: Vec<u8> = Vec::new();
    let mut i: usize = 0;
    while i < c.len()
        invariant
            i <= c.len(),
            is_byte_chars(c@),
            r@ == chars_bytes(c@.take(i as int)),
        decreases c.len() - i,
    {
        let x = c[i];
        assert((x as u32) < 256);
        r.push((x as u32) as u8);
        i = i + 1;
        assert(r@ =~= chars_bytes(c@.take(i as int)));
    }
    assert(c@.take(c.len() as int) =~= c@);
    r
}

/// Lemma: the pieces of a split of byte characters are byte characters.
pub proof fn lemma_split_pieces_bytes(s: Seq<char>, seps: Seq<char>)
    requires
        is_byte_chars(s),
    ensures
        forall|i: int| 0 <= i < split(s, seps).len() ==> is_byte_chars(#[trigger] split(s, seps)[i]),
    decreases s.len(),
{
    lemma_find_first(s, seps);
    match find_first(s, seps) {
        Some(k) => {
            let rest_s = s.skip(k + 1);
            assert(is_byte_chars(rest_s)) by {
                assert forall|j: int| 0 <= j < rest_s.len() implies (#[trigger] rest_s[j] as u32)
                    < 256 by {
                    assert(rest_s[j] == s[k + 1 + j]);
                }
            }
            lemma_split_pieces_bytes(rest_s, seps);
            let parts = split(s, seps);
            let rest = split(rest_s, seps);
            assert(parts == seq![s.take(k)] + rest);
            assert forall|i: int| 0 <= i < parts.len() implies is_byte_chars(#[trigger] parts[i]) by {
                if i == 0 {
                    assert forall|j: int| 0 <= j < parts[i].len() implies (#[trigger] parts[i][j]
                        as u32) < 256 by {
                        assert(parts[i][j] == s[j]);
                    }
                } else {
                    assert(parts[i] == rest[i - 1]);
                }
            }
        },
        None => {
            assert(split(s, seps) == seq![s]);
            assert(split(s, seps)[0] == s);
        },
    }
}

} // verus!
