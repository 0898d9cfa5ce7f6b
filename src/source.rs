use vstd::prelude::*;
use crate::profile::SerializableSvgSource;

verus! {

/// Whether `c` is white space: the characters with the Unicode
/// `White_Space` property.
pub open spec fn is_space(c: char) -> bool {
    let v = c as u32;
    (0x9 <= v && v <= 0xD) || v == 0x20 || v == 0x85 || v == 0xA0 || v == 0x1680 || (0x2000 <= v
        && v <= 0x200A) || v == 0x2028 || v == 0x2029 || v == 0x202F || v == 0x205F || v == 0x3000
}

/// `s` without its leading and trailing white space.
pub open spec fn trimmed(s: Seq<char>) -> Seq<char>
    decreases s.len(),
{
    if s.len() > 0 && is_space(s[0]) {
        trimmed(s.skip(1))
    } else if s.len() > 0 && is_space(s.last()) {
        trimmed(s.drop_last())
    } else {
        s
    }
}

fn is_space_char(c: char) -> (r: bool)
    ensures
        r == is_space(c),
{
    let v = c as u32;
    (0x9 <= v && v <= 0xD) || v == 0x20 || v == 0x85 || v == 0xA0 || v == 0x1680 || (0x2000 <= v
        && v <= 0x200A) || v == 0x2028 || v == 0x2029 || v == 0x202F || v == 0x205F || v == 0x3000
}

proof fn lemma_trimmed_range(s: Seq<char>, i: int, j: int)
    requires
        0 <= i <= j <= s.len(),
        forall|k: int| 0 <= k < i ==> is_space(#[trigger] s[k]),
        forall|k: int| j <= k < s.len() ==> is_space(#[trigger] s[k]),
        i < j ==> !is_space(s[i]) && !is_space(s[j - 1]),
    ensures
        trimmed(s) == s.subrange(i, j),
    decreases s.len(),
{
    if s.len() > 0 && is_space(s[0]) {
        assert(i > 0 || i == j);
        if i > 0 {
            assert forall|k: int| 0 <= k < i - 1 implies is_space(#[trigger] s.skip(1)[k]) by {
                assert(s.skip(1)[k] == s[k + 1]);
            }
            assert forall|k: int| j - 1 <= k < s.len() - 1 implies is_space(
                #[trigger] s.skip(1)[k],
            ) by {
                assert(s.skip(1)[k] == s[k + 1]);
            }
            lemma_trimmed_range(s.skip(1), i - 1, j - 1);
            assert(s.skip(1).subrange(i - 1, j - 1) =~= s.subrange(i, j));
        } else {
            assert forall|k: int| 0 <= k < s.len() - 1 implies is_space(#[trigger] s.skip(1)[k]) by {
                assert(s.skip(1)[k] == s[k + 1]);
            }
            lemma_trimmed_range(s.skip(1), 0, 0);
            assert(s.skip(1).subrange(0, 0) =~= s.subrange(i, j));
        }
    } else if s.len() > 0 && is_space(s.last()) {
        assert(j < s.len() || i == j);
        let d = s.drop_last();
        if j < s.len() {
            lemma_trimmed_range(d, i, j);
            assert(d.subrange(i, j) =~= s.subrange(i, j));
        } else {
            assert(i == j && i == s.len());
            assert(false);
        }
    } else {
        if s.len() > 0 {
            assert(i == 0);
            assert(j == s.len());
        }
        assert(s.subrange(i, j) =~= s);
    }
}

/// `s` without its leading and trailing white space.
pub fn trim_str(s: &str) -> (r: &str)
    ensures
        r@ == trimmed(s@),
{
    let n = s.unicode_len();
    let mut i: usize = 0;
    while i < n && is_space_char(s.get_char(i))
        invariant
            n == s@.len(),
            i <= n,
            forall|k: int| 0 <= k < i ==> is_space(#[trigger] s@[k]),
        decreases n - i,
    {
        i = i + 1;
    }
    let mut j: usize = n;
    while j > i && is_space_char(s.get_char(j - 1))
        invariant
            n == s@.len(),
            i <= j <= n,
            forall|k: int| j <= k < n ==> is_space(#[trigger] s@[k]),
        decreases j,
    {
        j = j - 1;
    }
    proof {
        if i == j && i < n {
            assert(is_space(s@[i as int]));
        }
        if i == n {
            assert(j == n);
        }
        lemma_trimmed_range(s@, i as int, j as int);
    }
    s.substring_char(i, j)
}

/// Whether `c` signals an emoji: zero-width joiner, emoji variation selector,
/// combining enclosing keycap, the symbol and dingbat blocks, the star and
/// circle symbols, or the major emoji planes.
pub open spec fn is_emoji_signal(c: char) -> bool {
    let v = c as u32;
    v == 0x200D || v == 0xFE0F || v == 0x20E3 || (0x2600 <= v && v <= 0x27BF) || (0x2B50 <= v
        && v <= 0x2B55) || (0x1F000 <= v && v <= 0x1FAFF)
}

/// Whether some character of `s` signals an emoji.
pub open spec fn has_emoji_signal(s: Seq<char>) -> bool {
    exists|i: int| 0 <= i < s.len() && is_emoji_signal(#[trigger] s[i])
}

/// Whether `s` starts with `<`, the one sign of raw markup.
pub open spec fn is_markup(s: Seq<char>) -> bool {
    s.len() > 0 && s[0] == '<'
}

/// Whether the final path component of `s` has the extension `svg` in any
/// ASCII case: it ends in `.svg` and has a non-empty stem.
pub open spec fn has_svg_extension(s: Seq<char>) -> bool {
    let n = s.len();
    n >= 5 && s[n - 5] != '/' && s[n - 4] == '.' && (s[n - 3] == 's' || s[n - 3] == 'S') && (
    s[n - 2] == 'v' || s[n - 2] == 'V') && (s[n - 1] == 'g' || s[n - 1] == 'G')
}

/// Returns true if the string contains at least one emoji character.
pub fn looks_like_emoji(s: &str) -> (r: bool)
    ensures
        r == has_emoji_signal(s@),
{
    let n = s.unicode_len();
    let mut i: usize = 0;
    while i < n
        invariant
            n == s@.len(),
            i <= n,
            forall|k: int| 0 <= k < i ==> !is_emoji_signal(#[trigger] s@[k]),
        decreases n - i,
    {
        let c = s.get_char(i);
        let v = c as u32;
        if v == 0x200D || v == 0xFE0F || v == 0x20E3 || (0x2600 <= v && v <= 0x27BF) || (0x2B50
            <= v && v <= 0x2B55) || (0x1F000 <= v && v <= 0x1FAFF) {
            return true;
        }
        i = i + 1;
    }
    false
}

fn starts_with_markup(s: &str) -> (r: bool)
    ensures
        r == is_markup(s@),
{
    s.unicode_len() > 0 && s.get_char(0) == '<'
}

/// Whether `s` names a file with an `.svg` extension.
pub fn is_svg_path(s: &str) -> (r: bool)
    ensures
        r == has_svg_extension(s@),
{
    let n = s.unicode_len();
    if n < 5 {
        return false;
    }
    let sep = s.get_char(n - 5);
    let dot = s.get_char(n - 4);
    let a = s.get_char(n - 3);
    let b = s.get_char(n - 2);
    let c = s.get_char(n - 1);
    sep != '/' && dot == '.' && (a == 's' || a == 'S') && (b == 'v' || b == 'V') && (c == 'g' || c
        == 'G')
}

/// Why a source string could not be resolved.
#[derive(Debug, Clone, PartialEq, Eq)]
pub enum SourceResolutionError {
    /// The input is neither raw markup nor the path of an existing file.
    NotFoundOrMarkup { input: String },
}

/// What a decal source string resolves to, given the trimmed input and the
/// contents of the file it names (`None` where no such file exists).
pub open spec fn decal_result(
    input: Seq<char>,
    t: Seq<char>,
    contents: Option<Seq<char>>,
) -> Result<Seq<char>, Seq<char>> {
    if is_markup(t) {
        Ok(t)
    } else {
        match contents {
            Some(c) => Ok(c),
            None => Err(input),
        }
    }
}

/// What an overlay source string resolves to, given the trimmed input and
/// the contents of the `.svg` file it names (`None` where no such file exists).
pub open spec fn overlay_result(t: Seq<char>, contents: Option<Seq<char>>) -> (Seq<char>, nat) {
    if is_markup(t) {
        (t, 0)
    } else if has_svg_extension(t) && contents is Some {
        (contents->0, 0)
    } else if has_emoji_signal(t) {
        (t, 1)
    } else {
        (t, 2)
    }
}

/// The path that a decal source string names, if it is not raw markup:
/// the caller reads that file and passes its contents to `resolve_svg_source`.
pub fn svg_source_path(input: &str) -> (r: Option<String>)
    ensures
        is_markup(trimmed(input@)) ==> r is None,
        !is_markup(trimmed(input@)) ==> r is Some && r->0@ == trimmed(input@),
{
    let t = trim_str(input);
    if starts_with_markup(t) {
        None
    } else {
        Some(String::from_str(t))
    }
}

/// Resolves an already trimmed decal source: raw markup is kept as it is, else
/// the contents of the named file are taken, else the input is refused.
pub fn resolve_trimmed_svg_source(input: &str, t: &str, contents: Option<String>) -> (r: Result<
    SerializableSvgSource,
    SourceResolutionError,
>)
    ensures
        match decal_result(input@, t@, match contents {
            Some(c) => Some(c@),
            None => None,
        }) {
            Ok(m) => r matches Ok(SerializableSvgSource::Raw { markup }) && markup@ == m,
            Err(e) => r matches Err(SourceResolutionError::NotFoundOrMarkup { input: i })
                && i@ == e,
        },
{
    if starts_with_markup(t) {
        Ok(SerializableSvgSource::from_svg(String::from_str(t)))
    } else {
        match contents {
            Some(c) => Ok(SerializableSvgSource::from_svg(c)),
            None => Err(SourceResolutionError::NotFoundOrMarkup { input: String::from_str(input) }),
        }
    }
}

/// Resolves a decal source (only raw markup or a file path): the input is
/// trimmed; if it starts with `<` it is raw markup; else `contents`, the text
/// of the file it names where that file exists, is taken; else it is refused.
pub fn resolve_svg_source(input: &str, contents: Option<String>) -> (r: Result<
    SerializableSvgSource,
    SourceResolutionError,
>)
    ensures
        match decal_result(input@, trimmed(input@), match contents {
            Some(c) => Some(c@),
            None => None,
        }) {
            Ok(m) => r matches Ok(SerializableSvgSource::Raw { markup }) && markup@ == m,
            Err(e) => r matches Err(SourceResolutionError::NotFoundOrMarkup { input: i })
                && i@ == e,
        },
{
    let t = trim_str(input);
    resolve_trimmed_svg_source(input, t, contents)
}

/// The path that an overlay source string names, if it is not raw markup and
/// has an `.svg` extension: the caller reads that file, where it exists, and
/// passes its contents to `resolve_overlay_source`.
pub fn overlay_source_path(input: &str) -> (r: Option<String>)
    ensures
        r is Some <==> !is_markup(trimmed(input@)) && has_svg_extension(trimmed(input@)),
        r is Some ==> r->0@ == trimmed(input@),
{
    let t = trim_str(input);
    if !starts_with_markup(t) && is_svg_path(t) {
        Some(String::from_str(t))
    } else {
        None
    }
}

/// Resolves an already trimmed overlay source, by fixed precedence: raw
/// markup, then an `.svg` file whose contents were read, then an emoji
/// character, and as the fallback an emoji name.
pub fn resolve_trimmed_overlay_source(t: &str, contents: Option<String>) -> (r:
    SerializableSvgSource)
    ensures
        ({
            let (text, tag) = overlay_result(t@, match contents {
                Some(c) => Some(c@),
                None => None,
            });
            match r {
                SerializableSvgSource::Raw { markup } => tag == 0 && markup@ == text,
                SerializableSvgSource::EmojiChar { grapheme } => tag == 1 && grapheme@ == text,
                SerializableSvgSource::EmojiName { identifier } => tag == 2 && identifier@ == text,
            }
        }),
{
    if starts_with_markup(t) {
        return SerializableSvgSource::from_svg(String::from_str(t));
    }
    if is_svg_path(t) {
        if let Some(c) = contents {
            return SerializableSvgSource::from_svg(c);
        }
    }
    if looks_like_emoji(t) {
        SerializableSvgSource::from_emoji(String::from_str(t))
    } else {
        SerializableSvgSource::from_emoji_name(String::from_str(t))
    }
}

/// Resolves an overlay source (raw markup, `.svg` file, emoji character or
/// emoji name) after trimming it; `contents` is the text of the `.svg` file
/// that the trimmed input names, where that file exists.
pub fn resolve_overlay_source(input: &str, contents: Option<String>) -> (r: SerializableSvgSource)
    ensures
        ({
            let (text, tag) = overlay_result(trimmed(input@), match contents {
                Some(c) => Some(c@),
                None => None,
            });
            match r {
                SerializableSvgSource::Raw { markup } => tag == 0 && markup@ == text,
                SerializableSvgSource::EmojiChar { grapheme } => tag == 1 && grapheme@ == text,
                SerializableSvgSource::EmojiName { identifier } => tag == 2 && identifier@ == text,
            }
        }),
{
    let t = trim_str(input);
    resolve_trimmed_overlay_source(t, contents)
}

} // verus!
