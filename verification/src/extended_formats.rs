//! Formats decoded by the operating system (TIFF, HEIF, camera RAW): which
//! paths they cover, how the decoder's size report is read, and the size
//! limit that guards the decode.
use crate::text;
use vstd::prelude::*;

verus! {

broadcast use vstd::string::group_string_axioms;

/// Largest side, in pixels, that the system decoder is asked to decode.
pub const SYSTEM_MAX_SIDE_PIXELS: u32 = 12_000;

/// Largest decoded size, in bytes (four bytes a pixel), of a system decode.
pub const SYSTEM_MAX_DECODE_BYTES: u64 = 536_870_912;

/// TIFF extensions.
pub open spec fn tiff_extensions() -> Seq<Seq<char>> {
    seq!["tif"@, "tiff"@]
}

/// Extensions, besides TIFF, that only the system decoder reads.
pub open spec fn system_extensions() -> Seq<Seq<char>> {
    seq![
        "heic"@,
        "heif"@,
        "dng"@,
        "cr2"@,
        "cr3"@,
        "nef"@,
        "arw"@,
        "raf"@,
        "orf"@,
        "rw2"@,
    ]
}

/// Camera RAW extensions.
pub open spec fn raw_extensions() -> Seq<Seq<char>> {
    seq!["dng"@, "cr2"@, "cr3"@, "nef"@, "arw"@, "raf"@, "orf"@, "rw2"@]
}

/// The extension of the path `p` with ASCII letters folded to lowercase,
/// or the empty text when it has none.
pub open spec fn lower_extension(p: Seq<char>) -> Seq<char> {
    text::ascii_lower(text::extension_or_empty(p))
}

/// Whether `p` is a TIFF file by its extension.
pub open spec fn is_tiff_path(p: Seq<char>) -> bool {
    tiff_extensions().contains(lower_extension(p))
}

/// Whether `p` is a file that only the system decoder reads.
pub open spec fn is_system_decoded_path(p: Seq<char>) -> bool {
    is_tiff_path(p) || system_extensions().contains(lower_extension(p))
}

/// Whether `p` is a camera RAW file.
pub open spec fn is_raw_path(p: Seq<char>) -> bool {
    raw_extensions().contains(lower_extension(p))
}

/// The path's extension with ASCII letters lowercased; empty when the path
/// has none.
pub fn extension(path: &str) -> (r: String)
    ensures
        r@ == lower_extension(path@),
{
    match text::extension_of(path) {
        Some(e) => text::to_ascii_lowercase(e.as_str()),
        None => {
            proof {
                reveal_strlit("");
                assert(text::ascii_lower(Seq::<char>::empty()) =~= Seq::<char>::empty());
            }
            text::to_ascii_lowercase("")
        },
    }
}

/// Whether `ext` (already lowercase) is a TIFF extension.
pub fn is_tiff_extension(ext: &str) -> (r: bool)
    ensures
        r == tiff_extensions().contains(ext@),
{
    let ghost list = tiff_extensions();
    let r = text::str_eq(ext, "tif") || text::str_eq(ext, "tiff");
    proof {
        if list.contains(ext@) {
            let k = choose|k: int| 0 <= k < list.len() && list[k] == ext@;
        }
        assert(list[0] == "tif"@);
        assert(list[1] == "tiff"@);
    }
    r
}

/// Whether `ext` (already lowercase) is one of `system_extensions`.
pub fn is_system_extension(ext: &str) -> (r: bool)
    ensures
        r == system_extensions().contains(ext@),
{
    let ghost list = system_extensions();
    let r = text::str_eq(ext, "heic") || text::str_eq(ext, "heif") || text::str_eq(ext, "dng")
        || text::str_eq(ext, "cr2") || text::str_eq(ext, "cr3") || text::str_eq(ext, "nef")
        || text::str_eq(ext, "arw") || text::str_eq(ext, "raf") || text::str_eq(ext, "orf")
        || text::str_eq(ext, "rw2");
    proof {
        if list.contains(ext@) {
            let k = choose|k: int| 0 <= k < list.len() && list[k] == ext@;
        }
        assert(list[0] == "heic"@);
        assert(list[1] == "heif"@);
        assert(list[2] == "dng"@);
        assert(list[3] == "cr2"@);
        assert(list[4] == "cr3"@);
        assert(list[5] == "nef"@);
        assert(list[6] == "arw"@);
        assert(list[7] == "raf"@);
        assert(list[8] == "orf"@);
        assert(list[9] == "rw2"@);
    }
    r
}

/// Whether `ext` (already lowercase) is a camera RAW extension.
pub fn is_raw_extension(ext: &str) -> (r: bool)
    ensures
        r == raw_extensions().contains(ext@),
{
    let ghost list = raw_extensions();
    let r = text::str_eq(ext, "dng") || text::str_eq(ext, "cr2") || text::str_eq(ext, "cr3")
        || text::str_eq(ext, "nef") || text::str_eq(ext, "arw") || text::str_eq(ext, "raf")
        || text::str_eq(ext, "orf") || text::str_eq(ext, "rw2");
    proof {
        if list.contains(ext@) {
            let k = choose|k: int| 0 <= k < list.len() && list[k] == ext@;
        }
        assert(list[0] == "dng"@);
        assert(list[1] == "cr2"@);
        assert(list[2] == "cr3"@);
        assert(list[3] == "nef"@);
        assert(list[4] == "arw"@);
        assert(list[5] == "raf"@);
        assert(list[6] == "orf"@);
        assert(list[7] == "rw2"@);
    }
    r
}

/// Whether the path is a TIFF file (extension `tif` or `tiff`, any ASCII
/// case).
pub fn is_tiff(path: &str) -> (r: bool)
    ensures
        r == is_tiff_path(path@),
{
    is_tiff_extension(extension(path).as_str())
}

/// Whether the path is a format that only the system decoder reads: TIFF,
/// HEIF or a camera RAW format.
pub fn is_system_decoded(path: &str) -> (r: bool)
    ensures
        r == is_system_decoded_path(path@),
{
    let e = extension(path);
    is_tiff_extension(e.as_str()) || is_system_extension(e.as_str())
}

/// Whether the path is a camera RAW file.
pub fn is_raw(path: &str) -> (r: bool)
    ensures
        r == is_raw_path(path@),
{
    is_raw_extension(extension(path).as_str())
}

/// Whether a file must go through the system colour-managed decode, which
/// is the case exactly for the formats that the web view cannot show.
pub fn needs_colorsync_output(path: &str) -> (r: bool)
    ensures
        r == is_system_decoded_path(path@),
{
    is_system_decoded(path)
}

/// Every camera RAW file, and every TIFF file, is decoded by the system
/// decoder.
pub proof fn lemma_raw_is_system_decoded(p: Seq<char>)
    ensures
        is_raw_path(p) ==> is_system_decoded_path(p),
        is_tiff_path(p) ==> is_system_decoded_path(p),
{
    let e = lower_extension(p);
    if is_raw_path(p) {
        let k = choose|k: int| 0 <= k < raw_extensions().len() && raw_extensions()[k] == e;
        assert(system_extensions()[k + 2] == raw_extensions()[k]);
    }
}


// ───────────────────────── decode size limit ─────────────────────────

/// Whether a system decode of a `width`×`height` image is refused: a side
/// longer than `SYSTEM_MAX_SIDE_PIXELS`, or more than
/// `SYSTEM_MAX_DECODE_BYTES` once decoded at four bytes a pixel.
pub open spec fn exceeds_system_limit(width: u32, height: u32) -> bool {
    width > SYSTEM_MAX_SIDE_PIXELS || height > SYSTEM_MAX_SIDE_PIXELS || width * height * 4
        > SYSTEM_MAX_DECODE_BYTES
}

/// The refusal message for a `width`×`height` image; it begins with the
/// marker `IMAGE_TOO_LARGE:` by which callers recognise it.
pub open spec fn too_large_message(width: u32, height: u32) -> Seq<char> {
    "IMAGE_TOO_LARGE: "@ + text::decimal(width as nat) + "x"@ + text::decimal(height as nat)
        + " exceeds the system decode safety limit"@
}

/// The marker that starts every size-limit refusal.
pub open spec fn too_large_marker() -> Seq<char> {
    "IMAGE_TOO_LARGE:"@
}

/// Every size-limit refusal message starts with the marker.
pub proof fn lemma_too_large_message_marked(width: u32, height: u32)
    ensures
        too_large_marker().len() <= too_large_message(width, height).len(),
        too_large_message(width, height).take(too_large_marker().len() as int)
            == too_large_marker(),
{
    reveal_strlit("IMAGE_TOO_LARGE: ");
    reveal_strlit("IMAGE_TOO_LARGE:");
    let m = too_large_message(width, height);
    assert(m.take(16) =~= too_large_marker());
}

/// Checks the size that the system decoder reports against the decode
/// limit; a refused size gives the `IMAGE_TOO_LARGE:` message.
pub fn validate_system_dimensions(width: u32, height: u32) -> (r: Result<(), String>)
    ensures
        r is Err <==> exceeds_system_limit(width, height),
        r matches Err(m) ==> m@ == too_large_message(width, height),
{
    let too_large = if width > SYSTEM_MAX_SIDE_PIXELS || height > SYSTEM_MAX_SIDE_PIXELS {
        true
    } else {
        assert(width * height <= 12000 * 12000) by (nonlinear_arith)
            requires
                width <= 12000,
                height <= 12000,
        ;
        (width as u64) * (height as u64) * 4 > SYSTEM_MAX_DECODE_BYTES
    };
    if too_large {
        let mut m = text::with_decimal("IMAGE_TOO_LARGE: ", width as u64);
        m.append("x");
        text::push_decimal(&mut m, height as u64);
        m.append(" exceeds the system decode safety limit");
        Err(m)
    } else {
        Ok(())
    }
}


// ───────────────────────── reading the decoder's size report ─────────────────────────

/// Unicode white space, as std's `char::is_whitespace` defines it.
pub open spec fn is_whitespace(c: char) -> bool {
    c == '\t' || c == '\n' || c == '\u{0B}' || c == '\u{0C}' || c == '\r' || c == ' ' || c
        == '\u{85}' || c == '\u{A0}' || c == '\u{1680}' || ('\u{2000}' <= c && c <= '\u{200A}')
        || c == '\u{2028}' || c == '\u{2029}' || c == '\u{202F}' || c == '\u{205F}' || c
        == '\u{3000}'
}

/// Number of white-space characters at the start of `s`.
pub open spec fn leading_space(s: Seq<char>) -> nat
    decreases s.len(),
{
    if s.len() > 0 && is_whitespace(s[0]) {
        1 + leading_space(s.drop_first())
    } else {
        0
    }
}

/// Number of white-space characters at the end of `s`.
pub open spec fn trailing_space(s: Seq<char>) -> nat
    decreases s.len(),
{
    if s.len() > 0 && is_whitespace(s.last()) {
        1 + trailing_space(s.drop_last())
    } else {
        0
    }
}

/// `s` without leading and trailing white space (std's `str::trim`).
pub open spec fn trim(s: Seq<char>) -> Seq<char> {
    if leading_space(s) == s.len() {
        Seq::empty()
    } else {
        s.subrange(leading_space(s) as int, s.len() - trailing_space(s))
    }
}

/// Index of the first `c` in `s`.
pub open spec fn find_char(s: Seq<char>, c: char) -> Option<nat>
    decreases s.len(),
{
    if s.len() == 0 {
        None
    } else if s[0] == c {
        Some(0)
    } else {
        match find_char(s.drop_first(), c) {
            Some(i) => Some(i + 1),
            None => None,
        }
    }
}

/// An ASCII decimal digit.
pub open spec fn is_digit_char(c: char) -> bool {
    '0' <= c && c <= '9'
}

/// The number written by the decimal digits `s`.
pub open spec fn digits_value(s: Seq<char>) -> nat
    decreases s.len(),
{
    if s.len() == 0 {
        0
    } else {
        digits_value(s.drop_last()) * 10 + (s.last() as nat - 48) as nat
    }
}

/// `s` without one leading `+`.
pub open spec fn strip_plus(s: Seq<char>) -> Seq<char> {
    if s.len() > 0 && s[0] == '+' {
        s.drop_first()
    } else {
        s
    }
}

/// One or more ASCII digits whose value fits in a `u32`.
pub open spec fn parse_digits(d: Seq<char>) -> Option<u32> {
    if d.len() > 0 && (forall|k: int| 0 <= k < d.len() ==> is_digit_char(#[trigger] d[k]))
        && digits_value(d) <= u32::MAX {
        Some(digits_value(d) as u32)
    } else {
        None
    }
}

/// std's `u32::from_str`: an optional `+` and one or more ASCII digits
/// whose value fits in a `u32`.
pub open spec fn parse_u32(s: Seq<char>) -> Option<u32> {
    parse_digits(strip_plus(s))
}

/// The value that the line `line` gives to `property`: once trimmed, the
/// line is `property`, a colon, and a value that reads as a `u32` once
/// trimmed itself.
pub open spec fn line_property(line: Seq<char>, property: Seq<char>) -> Option<u32> {
    let t = trim(line);
    match find_char(t, ':') {
        Some(i) => if t.take(i as int) == property {
            parse_u32(trim(t.skip(i as int + 1)))
        } else {
            None
        },
        None => None,
    }
}

/// Length of the first line of `s` (up to its first line feed).
pub open spec fn first_line_len(s: Seq<char>) -> nat {
    match find_char(s, '\n') {
        Some(i) => i,
        None => s.len(),
    }
}

/// The value of `property` in the first line of `s` that gives it one.
pub open spec fn find_property(s: Seq<char>, property: Seq<char>) -> Option<u32>
    decreases s.len(),
{
    if s.len() == 0 {
        None
    } else {
        let n = first_line_len(s);
        match line_property(s.take(n as int), property) {
            Some(v) => Some(v),
            None => if n < s.len() {
                find_property(s.skip(n as int + 1), property)
            } else {
                None
            },
        }
    }
}

/// The message for a report that lacks `property`.
pub open spec fn missing_property_message(property: Seq<char>) -> Seq<char> {
    "sips 输出缺少 "@ + property
}

/// `find_char` gives the first position holding `c`, or none when no
/// position holds it.
proof fn lemma_find_char_bound(s: Seq<char>, c: char)
    ensures
        find_char(s, c) matches Some(i) ==> i < s.len() && s[i as int] == c && forall|k: int|
            0 <= k < i ==> s[k] != c,
        find_char(s, c) is None ==> forall|k: int| 0 <= k < s.len() ==> s[k] != c,
    decreases s.len(),
{
    if s.len() > 0 {
        lemma_find_char_bound(s.drop_first(), c);
        if s[0] != c {
            assert forall|k: int| 0 < k < s.len() implies s[k] == s.drop_first()[k - 1] by {}
        }
    }
}

/// The first `c` in `s`, found by position.
proof fn lemma_find_char_at(s: Seq<char>, c: char, i: int)
    requires
        0 <= i <= s.len(),
        forall|k: int| 0 <= k < i ==> s[k] != c,
        i == s.len() || s[i] == c,
    ensures
        find_char(s, c) == if i < s.len() {
            Some(i as nat)
        } else {
            None::<nat>
        },
    decreases i,
{
    if i > 0 {
        let t = s.drop_first();
        assert forall|k: int| 0 <= k < i - 1 implies t[k] != c by {
            assert(t[k] == s[k + 1]);
        }
        if i < s.len() {
            assert(t[i - 1] == s[i]);
        }
        lemma_find_char_at(t, c, i - 1);
    }
}

/// Position of the first `c` in `v[s..e]`, counted from `s`.
fn find_char_in(v: &Vec<char>, s: usize, e: usize, c: char) -> (r: Option<usize>)
    requires
        s <= e <= v@.len(),
    ensures
        match find_char(v@.subrange(s as int, e as int), c) {
            Some(i) => r == Some((s + i) as usize),
            None => r is None,
        },
{
    let mut i = s;
    while i < e && v[i] != c
        invariant
            s <= i <= e <= v@.len(),
            forall|k: int| s <= k < i ==> v@[k] != c,
        decreases e - i,
    {
        i += 1;
    }
    proof {
        let w = v@.subrange(s as int, e as int);
        assert forall|k: int| 0 <= k < i - s implies w[k] != c by {
            assert(w[k] == v@[s + k]);
        }
        if i < e {
            assert(w[i - s] == v@[i as int]);
        }
        lemma_find_char_at(w, c, i - s);
    }
    if i < e {
        Some(i)
    } else {
        None
    }
}

/// `is_whitespace`, computed.
fn is_whitespace_char(c: char) -> (r: bool)
    ensures
        r == is_whitespace(c),
{
    c == '\t' || c == '\n' || c == '\u{0B}' || c == '\u{0C}' || c == '\r' || c == ' ' || c
        == '\u{85}' || c == '\u{A0}' || c == '\u{1680}' || ('\u{2000}' <= c && c <= '\u{200A}')
        || c == '\u{2028}' || c == '\u{2029}' || c == '\u{202F}' || c == '\u{205F}' || c
        == '\u{3000}'
}

/// The leading white space ends at the first character that is not white
/// space.
proof fn lemma_leading_space(s: Seq<char>, i: int)
    requires
        0 <= i <= s.len(),
        forall|k: int| 0 <= k < i ==> is_whitespace(#[trigger] s[k]),
        i == s.len() || !is_whitespace(s[i]),
    ensures
        leading_space(s) == i,
    decreases i,
{
    if i > 0 {
        let t = s.drop_first();
        assert forall|k: int| 0 <= k < i - 1 implies is_whitespace(#[trigger] t[k]) by {
            assert(t[k] == s[k + 1]);
        }
        if i < s.len() {
            assert(t[i - 1] == s[i]);
        }
        lemma_leading_space(t, i - 1);
    }
}

/// The trailing white space starts after the last character that is not
/// white space.
proof fn lemma_trailing_space(s: Seq<char>, j: int)
    requires
        0 <= j <= s.len(),
        forall|k: int| j <= k < s.len() ==> is_whitespace(#[trigger] s[k]),
        j == 0 || !is_whitespace(s[j - 1]),
    ensures
        trailing_space(s) == s.len() - j,
    decreases s.len() - j,
{
    if j < s.len() {
        let t = s.drop_last();
        assert forall|k: int| j <= k < t.len() implies is_whitespace(#[trigger] t[k]) by {
            assert(t[k] == s[k]);
        }
        if j > 0 {
            assert(t[j - 1] == s[j - 1]);
        }
        lemma_trailing_space(t, j);
    }
}

/// Bounds of `trim(v[s..e])` within `v`.
fn trim_range(v: &Vec<char>, s: usize, e: usize) -> (r: (usize, usize))
    requires
        s <= e <= v@.len(),
    ensures
        s <= r.0 <= r.1 <= e,
        v@.subrange(r.0 as int, r.1 as int) == trim(v@.subrange(s as int, e as int)),
{
    let ghost w = v@.subrange(s as int, e as int);
    let mut a = s;
    while a < e && is_whitespace_char(v[a])
        invariant
            s <= a <= e <= v@.len(),
            forall|k: int| s <= k < a ==> is_whitespace(#[trigger] v@[k]),
        decreases e - a,
    {
        a += 1;
    }
    proof {
        assert forall|k: int| 0 <= k < a - s implies is_whitespace(#[trigger] w[k]) by {
            assert(w[k] == v@[s + k]);
        }
        if a < e {
            assert(w[a - s] == v@[a as int]);
        }
        lemma_leading_space(w, a - s);
    }
    if a == e {
        proof {
            assert(v@.subrange(a as int, a as int) =~= Seq::<char>::empty());
        }
        return (a, a);
    }
    let mut b = e;
    while b > a && is_whitespace_char(v[b - 1])
        invariant
            s <= a < e <= v@.len(),
            a <= b <= e,
            !is_whitespace(v@[a as int]),
            forall|k: int| b <= k < e ==> is_whitespace(#[trigger] v@[k]),
        decreases b - a,
    {
        b -= 1;
    }
    proof {
        assert(b > a);
        assert forall|k: int| b - s <= k < w.len() implies is_whitespace(#[trigger] w[k]) by {
            assert(w[k] == v@[s + k]);
        }
        assert(w[b - s - 1] == v@[b - 1]);
        lemma_trailing_space(w, b - s);
        assert(v@.subrange(a as int, b as int) =~= w.subrange(a - s, w.len() - (e - b)));
    }
    (a, b)
}

/// A sequence of digits has a value no smaller than any of its prefixes.
proof fn lemma_digits_value_prefix(s: Seq<char>, k: int)
    requires
        0 <= k <= s.len(),
    ensures
        digits_value(s.take(k)) <= digits_value(s),
    decreases s.len() - k,
{
    if k < s.len() {
        lemma_digits_value_prefix(s.drop_last(), k);
        assert(s.drop_last().take(k) =~= s.take(k));
    } else {
        assert(s.take(k) =~= s);
    }
}

/// `parse_u32` on `v[s..e]`.
fn parse_u32_in(v: &Vec<char>, s: usize, e: usize) -> (r: Option<u32>)
    requires
        s <= e <= v@.len(),
    ensures
        r == parse_u32(v@.subrange(s as int, e as int)),
{
    let ghost w = v@.subrange(s as int, e as int);
    let start = if s < e && v[s] == '+' {
        s + 1
    } else {
        s
    };
    let ghost d = v@.subrange(start as int, e as int);
    proof {
        if s < e {
            assert(w[0] == v@[s as int]);
        }
        if s < e && v@[s as int] == '+' {
            assert(d =~= w.drop_first());
        } else {
            assert(d =~= w);
        }
    }
    if start == e {
        return None;
    }
    let mut i = start;
    let mut value: u64 = 0;
    while i < e
        invariant
            start < e <= v@.len(),
            start <= i <= e,
            d == v@.subrange(start as int, e as int),
            w == v@.subrange(s as int, e as int),
            parse_u32(w) == parse_digits(d),
            forall|k: int| start <= k < i ==> is_digit_char(#[trigger] v@[k]),
            value == digits_value(v@.subrange(start as int, i as int)),
            value <= u32::MAX,
        decreases e - i,
    {
        let c = v[i];
        if !('0' <= c && c <= '9') {
            proof {
                assert(d[i - start] == c);
            }
            return None;
        }
        let next = value * 10 + ((c as u32) - 48) as u64;
        proof {
            let p = v@.subrange(start as int, i + 1);
            assert(p.drop_last() =~= v@.subrange(start as int, i as int));
            assert(p.last() == c);
            assert(digits_value(p) == next);
        }
        if next > 4294967295 {
            proof {
                if forall|k: int| 0 <= k < d.len() ==> is_digit_char(#[trigger] d[k]) {
                    lemma_digits_value_prefix(d, i + 1 - start);
                    assert(d.take(i + 1 - start) =~= v@.subrange(start as int, i + 1));
                }
            }
            return None;
        }
        value = next;
        i += 1;
    }
    proof {
        assert(v@.subrange(start as int, e as int) =~= d);
        assert forall|k: int| 0 <= k < d.len() implies is_digit_char(#[trigger] d[k]) by {
            assert(d[k] == v@[start + k]);
        }
    }
    Some(value as u32)
}

/// Whether `v[a..c]` holds the characters of `p`.
fn range_equals(v: &Vec<char>, a: usize, c: usize, p: &Vec<char>) -> (r: bool)
    requires
        a <= c <= v@.len(),
    ensures
        r == (v@.subrange(a as int, c as int) == p@),
{
    if c - a != p.len() {
        return false;
    }
    let mut k: usize = 0;
    while k < p.len()
        invariant
            a <= c <= v@.len(),
            c - a == p@.len(),
            k <= p@.len(),
            forall|m: int| 0 <= m < k ==> v@[a + m] == p@[m],
        decreases p@.len() - k,
    {
        if v[a + k] != p[k] {
            proof {
                assert(v@.subrange(a as int, c as int)[k as int] == v@[a + k]);
            }
            return false;
        }
        k += 1;
    }
    proof {
        assert(v@.subrange(a as int, c as int) =~= p@);
    }
    true
}

/// `line_property` on the line `v[s..e]`.
fn line_property_in(v: &Vec<char>, s: usize, e: usize, property: &Vec<char>) -> (r: Option<u32>)
    requires
        s <= e <= v@.len(),
    ensures
        r == line_property(v@.subrange(s as int, e as int), property@),
{
    let (a, b) = trim_range(v, s, e);
    let ghost t = v@.subrange(a as int, b as int);
    match find_char_in(v, a, b, ':') {
        None => None,
        Some(c) => {
            let ghost i = c - a;
            proof {
                lemma_find_char_bound(t, ':');
                assert(t.take(i) =~= v@.subrange(a as int, c as int));
                assert(t.skip(i + 1) =~= v@.subrange(c + 1, b as int));
            }
            if !range_equals(v, a, c, property) {
                return None;
            }
            let (x, y) = trim_range(v, c + 1, b);
            parse_u32_in(v, x, y)
        },
    }
}

/// Reads a `property: value` line from the decoder's report: the first line
/// that, trimmed, is `property`, a colon and a `u32`; otherwise the error
/// names the missing property.
pub fn parse_sips_property(output: &str, property: &str) -> (r: Result<u32, String>)
    ensures
        match find_property(output@, property@) {
            Some(v) => r == Ok::<u32, String>(v),
            None => r matches Err(m) && m@ == missing_property_message(property@),
        },
{
    let v = text::chars_of(output);
    let p = text::chars_of(property);
    let mut pos: usize = 0;
    proof {
        assert(output@.skip(0) =~= output@);
    }
    while pos < v.len()
        invariant
            v@ == output@,
            p@ == property@,
            pos <= v@.len(),
            find_property(output@, property@) == find_property(output@.skip(pos as int), property@),
        decreases v@.len() - pos,
    {
        let ghost rest = output@.skip(pos as int);
        proof {
            assert(v@.subrange(pos as int, v@.len() as int) =~= rest);
            lemma_find_char_bound(rest, '\n');
        }
        let end = match find_char_in(&v, pos, v.len(), '\n') {
            Some(i) => i,
            None => v.len(),
        };
        proof {
            assert(end - pos == first_line_len(rest));
            assert(rest.take(end - pos) =~= v@.subrange(pos as int, end as int));
        }
        match line_property_in(&v, pos, end, &p) {
            Some(value) => {
                return Ok(value);
            },
            None => {},
        }
        if end == v.len() {
            return Err(missing_property(property));
        }
        proof {
            assert(rest.skip(end - pos + 1) =~= output@.skip(end + 1));
        }
        pos = end + 1;
    }
    proof {
        assert(output@.skip(pos as int).len() == 0);
    }
    Err(missing_property(property))
}

/// The message for a report that lacks `property`, built.
fn missing_property(property: &str) -> (m: String)
    ensures
        m@ == missing_property_message(property@),
{
    let mut m = String::from_str("sips 输出缺少 ");
    m.append(property);
    m
}


/// Reads the image size from the system decoder's metadata report
/// (`pixelWidth` and `pixelHeight` lines) and checks it against the decode
/// limit.
pub fn parse_sips_dimensions(stdout: &str) -> (r: Result<(u32, u32), String>)
    ensures
        match (find_property(stdout@, "pixelWidth"@), find_property(stdout@, "pixelHeight"@)) {
            (None, _) => r matches Err(m) && m@ == missing_property_message("pixelWidth"@),
            (Some(_), None) => r matches Err(m) && m@ == missing_property_message("pixelHeight"@),
            (Some(w), Some(h)) => if exceeds_system_limit(w, h) {
                r matches Err(m) && m@ == too_large_message(w, h)
            } else {
                r == Ok::<(u32, u32), String>((w, h))
            },
        },
{
    let width = match parse_sips_property(stdout, "pixelWidth") {
        Ok(w) => w,
        Err(e) => {
            return Err(e);
        },
    };
    let height = match parse_sips_property(stdout, "pixelHeight") {
        Ok(h) => h,
        Err(e) => {
            return Err(e);
        },
    };
    match validate_system_dimensions(width, height) {
        Ok(()) => Ok((width, height)),
        Err(e) => Err(e),
    }
}

/// Message of a size report that the system decoder refused, with its
/// error output.
pub open spec fn probe_failed_message(stderr: Seq<char>) -> Seq<char> {
    "macOS ImageIO 无法读取图像尺寸: "@ + stderr
}

/// The outcome of a size report of the system decoder: when the process
/// failed, an error carrying its error output; otherwise the size parsed
/// from its standard output and checked against the system decode limit.
pub fn sips_probe_result(success: bool, stdout: &str, stderr: &str) -> (r: Result<(u32, u32), String>)
    ensures
        !success ==> (r matches Err(m) && m@ == probe_failed_message(stderr@)),
        success ==> match (find_property(stdout@, "pixelWidth"@), find_property(stdout@, "pixelHeight"@)) {
            (None, _) => r matches Err(m) && m@ == missing_property_message("pixelWidth"@),
            (Some(_), None) => r matches Err(m) && m@ == missing_property_message("pixelHeight"@),
            (Some(w), Some(h)) => if exceeds_system_limit(w, h) {
                r matches Err(m) && m@ == too_large_message(w, h)
            } else {
                r == Ok::<(u32, u32), String>((w, h))
            },
        },
{
    if !success {
        let mut m = String::from_str("macOS ImageIO 无法读取图像尺寸: ");
        m.append(stderr);
        return Err(m);
    }
    parse_sips_dimensions(stdout)
}

// ───────────────────────── waiting for the decoder ─────────────────────────

/// What to do next while waiting for the decoder process.
#[derive(Clone, Copy, Debug, PartialEq, Eq, Structural)]
pub enum WaitStep {
    /// The process has exited: collect its output.
    Collect,
    /// The time limit has passed: kill the process and report a timeout.
    Kill,
    /// Still running within the limit: sleep briefly and poll again.
    Sleep,
}

/// The decision taken at each poll of the decoder process: an exited
/// process is collected, one past its time limit is killed, any other is
/// polled again after a short sleep.
pub fn next_wait_step(exited: bool, elapsed_ms: u128, timeout_ms: u128) -> (r: WaitStep)
    ensures
        r == if exited {
            WaitStep::Collect
        } else if elapsed_ms >= timeout_ms {
            WaitStep::Kill
        } else {
            WaitStep::Sleep
        },
{
    if exited {
        WaitStep::Collect
    } else if elapsed_ms >= timeout_ms {
        WaitStep::Kill
    } else {
        WaitStep::Sleep
    }
}

} // verus!
