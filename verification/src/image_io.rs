use vstd::prelude::*;

verus! {

/// What `str::to_lowercase` gives for a string: its Unicode lowercase form
/// (a character may map to several, and some mappings depend on the
/// neighbouring characters, such as a final sigma).
pub uninterp spec fn lowercase_of(s: Seq<char>) -> Seq<char>;

/// What `str::to_uppercase` gives for a string: its Unicode uppercase form
/// (a character may map to several).
pub uninterp spec fn uppercase_of(s: Seq<char>) -> Seq<char>;

/// Whether every character of a string is ASCII.
pub open spec fn is_ascii_text(s: Seq<char>) -> bool {
    forall|i: int| 0 <= i < s.len() ==> (#[trigger] s[i] as u32) < 128
}

/// The ASCII lowercase of a character: `A` to `Z` become `a` to `z`, every
/// other character stays.
pub open spec fn ascii_lower(c: char) -> char {
    if 65 <= (c as u32) <= 90 {
        ((c as u32) + 32) as char
    } else {
        c
    }
}

/// The ASCII uppercase of a character: `a` to `z` become `A` to `Z`, every
/// other character stays.
pub open spec fn ascii_upper(c: char) -> char {
    if 97 <= (c as u32) <= 122 {
        ((c as u32) - 32) as char
    } else {
        c
    }
}

/// Calls `str::to_lowercase`. Trusted: the result is the name `lowercase_of`
/// applied to the argument; for ASCII text it is the ASCII lowercase, letter
/// by letter (std documents `to_lowercase` as lowercasing ASCII characters as
/// `to_ascii_lowercase` does, and Unicode gives no other ASCII character a
/// lowercase form). Nothing more is claimed of other text.
#[verifier::external_body]
fn to_lowercase(s: &str) -> (res: String)
    ensures
        res@ == lowercase_of(s@),
        is_ascii_text(s@) ==> res@ == s@.map_values(|c: char| ascii_lower(c)),
{
    s.to_lowercase()
}

/// Calls `str::to_uppercase`. Trusted: the result is the name `uppercase_of`
/// applied to the argument; for ASCII text it is the ASCII uppercase, letter
/// by letter (std documents `to_uppercase` as uppercasing ASCII characters as
/// `to_ascii_uppercase` does, and Unicode gives no other ASCII character an
/// uppercase form). Nothing more is claimed of other text.
#[verifier::external_body]
fn to_uppercase(s: &str) -> (res: String)
    ensures
        res@ == uppercase_of(s@),
        is_ascii_text(s@) ==> res@ == s@.map_values(|c: char| ascii_upper(c)),
{
    s.to_uppercase()
}

/// Character-wise equality of two strings.
pub fn str_equals(a: &str, b: &str) -> (res: bool)
    ensures
        res == (a@ == b@),
{
    let n = a.unicode_len();
    if n != b.unicode_len() {
        return false;
    }
    let mut i: usize = 0;
    while i < n
        invariant
            n == a@.len(),
            n == b@.len(),
            i <= n,
            forall|j: int| 0 <= j < i ==> a@[j] == b@[j],
        decreases n - i,
    {
        if a.get_char(i) != b.get_char(i) {
            return false;
        }
        i = i + 1;
    }
    assert(a@ =~= b@);
    true
}

/// The file extensions (already lowercased) that the loader accepts.
pub open spec fn supported_lowercase(ext: Seq<char>) -> bool {
    ||| ext == "png"@
    ||| ext == "jpg"@
    ||| ext == "jpeg"@
    ||| ext == "tiff"@
    ||| ext == "tif"@
}

/// Whether an already lowercased extension is one of the supported ones.
pub fn is_supported_lowercase(ext: &str) -> (res: bool)
    ensures
        res == supported_lowercase(ext@),
{
    str_equals(ext, "png") || str_equals(ext, "jpg") || str_equals(ext, "jpeg")
        || str_equals(ext, "tiff") || str_equals(ext, "tif")
}

/// Whether a file extension names a supported image format, ignoring case.
pub fn is_supported_extension(ext: &str) -> (res: bool)
    ensures
        res == supported_lowercase(lowercase_of(ext@)),
        is_ascii_text(ext@) ==> res == supported_lowercase(
            ext@.map_values(|c: char| ascii_lower(c)),
        ),
{
    let lower = to_lowercase(ext);
    is_supported_lowercase(lower.as_str())
}


/// The encodings an image can be exported to.
#[derive(Clone, Copy, Debug, PartialEq, Eq, Structural)]
pub enum ExportFormat {
    Png,
    Jpeg,
    Tiff,
}

/// The format and file extension chosen for an uppercased format name;
/// names that are not recognised fall back to PNG.
pub open spec fn format_for_upper(name: Seq<char>) -> (ExportFormat, Seq<char>) {
    if name == "PNG"@ {
        (ExportFormat::Png, "png"@)
    } else if name == "JPG"@ || name == "JPEG"@ {
        (ExportFormat::Jpeg, "jpg"@)
    } else if name == "TIFF"@ || name == "TIF"@ {
        (ExportFormat::Tiff, "tif"@)
    } else {
        (ExportFormat::Png, "png"@)
    }
}

/// Chooses the export format for an already uppercased format name.
pub fn format_from_upper(name: &str) -> (res: (ExportFormat, &'static str))
    ensures
        res.0 == format_for_upper(name@).0,
        res.1@ == format_for_upper(name@).1,
{
    if str_equals(name, "PNG") {
        (ExportFormat::Png, "png")
    } else if str_equals(name, "JPG") || str_equals(name, "JPEG") {
        (ExportFormat::Jpeg, "jpg")
    } else if str_equals(name, "TIFF") || str_equals(name, "TIF") {
        (ExportFormat::Tiff, "tif")
    } else {
        (ExportFormat::Png, "png")
    }
}

/// Whether an uppercased format name is one of the recognised ones.
pub open spec fn is_known_format_upper(name: Seq<char>) -> bool {
    ||| name == "PNG"@
    ||| name == "JPG"@
    ||| name == "JPEG"@
    ||| name == "TIFF"@
    ||| name == "TIF"@
}

/// Whether a format name, ignoring case, is one of the recognised ones; for
/// the others the export falls back to PNG.
pub fn format_is_known(format: &str) -> (known: bool)
    ensures
        known == is_known_format_upper(uppercase_of(format@)),
        is_ascii_text(format@) ==> known == is_known_format_upper(
            format@.map_values(|c: char| ascii_upper(c)),
        ),
{
    let upper = to_uppercase(format);
    let name = upper.as_str();
    str_equals(name, "PNG") || str_equals(name, "JPG") || str_equals(name, "JPEG")
        || str_equals(name, "TIFF") || str_equals(name, "TIF")
}

/// Chooses the export format and file extension for a format name, ignoring
/// case; unknown names give PNG.
pub fn format_from_str(format: &str) -> (res: (ExportFormat, &'static str))
    ensures
        res.0 == format_for_upper(uppercase_of(format@)).0,
        res.1@ == format_for_upper(uppercase_of(format@)).1,
        is_ascii_text(format@) ==> res.0 == format_for_upper(
            format@.map_values(|c: char| ascii_upper(c)),
        ).0 && res.1@ == format_for_upper(format@.map_values(|c: char| ascii_upper(c))).1,
{
    let upper = to_uppercase(format);
    format_from_upper(upper.as_str())
}

/// Two ASCII names that differ only in the case of their letters have the same
/// ASCII uppercase form, as they have the same lowercase form; so extension
/// checks and format choices treat them alike.
pub proof fn lemma_ascii_case_insensitive(a: Seq<char>, b: Seq<char>)
    requires
        is_ascii_text(a),
        is_ascii_text(b),
        a.map_values(|c: char| ascii_lower(c)) == b.map_values(|c: char| ascii_lower(c)),
    ensures
        a.map_values(|c: char| ascii_upper(c)) == b.map_values(|c: char| ascii_upper(c)),
{
    let la = a.map_values(|c: char| ascii_lower(c));
    let lb = b.map_values(|c: char| ascii_lower(c));
    assert(a.len() == la.len() && b.len() == lb.len());
    assert forall|i: int| 0 <= i < a.len() implies ascii_upper(a[i]) == ascii_upper(b[i]) by {
        assert(la[i] == lb[i]);
        assert((a[i] as u32) < 128);
        assert((b[i] as u32) < 128);
    }
    assert(a.map_values(|c: char| ascii_upper(c)) =~= b.map_values(|c: char| ascii_upper(c)));
}

/// Every export extension is one the loader accepts, so exported files can be
/// opened again.
pub proof fn lemma_export_extension_supported(name: Seq<char>)
    ensures
        supported_lowercase(format_for_upper(name).1),
{
}

} // verus!
