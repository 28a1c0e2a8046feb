//! Naming of the files in the tuning library.
//!
//! The library directory is a value of [`StorageConfig`]; the application
//! keeps one for the whole process and sets its directory at start-up.

use vstd::prelude::*;

use crate::cents::{is_whitespace, trim, trim_bounds, trim_end, trim_start};
use crate::text::{ascii_eq_ignore_case, chars_of, eq_ignore_ascii_case, string_from_chars};

verus! {

/// Characters that survive in a file stem: ASCII letters and digits, `-`, `_`, space.
pub open spec fn is_stem_char(c: char) -> bool {
    ||| 'a' <= c && c <= 'z'
    ||| 'A' <= c && c <= 'Z'
    ||| '0' <= c && c <= '9'
    ||| c == '-'
    ||| c == '_'
    ||| c == ' '
}

/// `name` with every character that is not a stem character replaced by `_`.
pub open spec fn cleaned_name(name: Seq<char>) -> Seq<char> {
    name.map_values(|c: char| if is_stem_char(c) { c } else { '_' })
}

/// The stem used when a name has nothing usable in it.
pub open spec fn fallback_stem() -> Seq<char> {
    seq!['t', 'u', 'n', 'i', 'n', 'g']
}

/// The file stem for a tuning named `name`: the cleaned name without
/// surrounding spaces, cut to 64 characters, or `"tuning"` when nothing is
/// left. (Cleaning turns every `.` into `_`, so no dots remain to strip.)
pub open spec fn spec_sanitize_file_stem(name: Seq<char>) -> Seq<char> {
    let core = trim(cleaned_name(name));
    if core.len() == 0 {
        fallback_stem()
    } else if core.len() <= 64 {
        core
    } else {
        core.take(64)
    }
}

/// What a name character becomes in the stem: an ASCII letter or digit,
/// `-`, `_` or a space stays as it is; anything else becomes `_`.
pub open spec fn stem_char_of(c: char) -> char {
    if ('a' <= c && c <= 'z') || ('A' <= c && c <= 'Z') || ('0' <= c && c <= '9') || c == '-' || c
        == '_' || c == ' ' {
        c
    } else {
        '_'
    }
}

proof fn lemma_trim_start_suffix(s: Seq<char>) -> (k: int)
    ensures
        0 <= k <= s.len(),
        trim_start(s) == s.subrange(k, s.len() as int),
        forall|i: int| 0 <= i < k ==> is_whitespace(#[trigger] s[i]),
        k < s.len() ==> !is_whitespace(s[k]),
    decreases s.len(),
{
    if s.len() > 0 && is_whitespace(s[0]) {
        let t = s.drop_first();
        let j = lemma_trim_start_suffix(t);
        assert(t.subrange(j, t.len() as int) == s.subrange(j + 1, s.len() as int));
        assert forall|i: int| 0 <= i < j + 1 implies is_whitespace(#[trigger] s[i]) by {
            if i > 0 {
                assert(s[i] == t[i - 1]);
            }
        }
        if j + 1 < s.len() {
            assert(s[j + 1] == t[j]);
        }
        j + 1
    } else {
        assert(s.subrange(0, s.len() as int) == s);
        0
    }
}

proof fn lemma_trim_end_prefix(s: Seq<char>) -> (m: int)
    ensures
        0 <= m <= s.len(),
        trim_end(s) == s.subrange(0, m),
        forall|i: int| m <= i < s.len() ==> is_whitespace(#[trigger] s[i]),
        m > 0 ==> !is_whitespace(s[m - 1]),
    decreases s.len(),
{
    if s.len() > 0 && is_whitespace(s.last()) {
        let t = s.drop_last();
        let j = lemma_trim_end_prefix(t);
        assert(t.subrange(0, j) == s.subrange(0, j));
        assert forall|i: int| j <= i < s.len() implies is_whitespace(#[trigger] s[i]) by {
            if i < s.len() - 1 {
                assert(s[i] == t[i]);
            }
        }
        if j > 0 {
            assert(s[j - 1] == t[j - 1]);
        }
        j
    } else {
        assert(s.subrange(0, s.len() as int) == s);
        s.len() as int
    }
}

/// `stem` is a run of `name`'s characters starting at offset `lo`, each
/// one kept or turned into `_` as [`stem_char_of`] says.
pub open spec fn is_stem_run_of(name: Seq<char>, stem: Seq<char>, lo: int) -> bool {
    &&& 0 <= lo
    &&& lo + stem.len() <= name.len()
    &&& forall|i: int| 0 <= i < stem.len() ==> #[trigger] stem[i] == stem_char_of(name[lo + i])
}

/// `name[lo..hi]` is `name` without its surrounding spaces: it starts and
/// ends with a non-space character and only spaces lie outside it.
pub open spec fn is_space_trimmed_range(name: Seq<char>, lo: int, hi: int) -> bool {
    &&& 0 <= lo < hi <= name.len()
    &&& name[lo] != ' '
    &&& name[hi - 1] != ' '
    &&& forall|i: int| 0 <= i < name.len() && !(lo <= i < hi) ==> #[trigger] name[i] == ' '
}

/// A name made only of ASCII letters, digits, `-`, `_` and spaces.
pub open spec fn is_plain_name(name: Seq<char>) -> bool {
    forall|i: int| 0 <= i < name.len() ==> stem_char_of(#[trigger] name[i]) == name[i]
}

/// The stem keeps the name's characters in place. A name of spaces only
/// gives `tuning`. Any other name gives the run of its characters from its
/// first to its last non-space character, cut to 64 characters, with each
/// character kept (ASCII letters, digits, `-`, `_`, space) or turned into `_`.
pub proof fn lemma_sanitize_keeps_positions(name: Seq<char>)
    ensures
        (forall|i: int| 0 <= i < name.len() ==> name[i] == ' ') ==> spec_sanitize_file_stem(name)
            == fallback_stem(),
        (exists|i: int| 0 <= i < name.len() && name[i] != ' ') ==> exists|lo: int, hi: int|
            #![trigger is_space_trimmed_range(name, lo, hi)]
            is_space_trimmed_range(name, lo, hi) && is_stem_run_of(name, spec_sanitize_file_stem(name), lo)
                && spec_sanitize_file_stem(name).len() == if hi - lo <= 64 {
                hi - lo
            } else {
                64
            },
{
    let cleaned = cleaned_name(name);
    assert forall|i: int| 0 <= i < cleaned.len() implies #[trigger] cleaned[i] == stem_char_of(name[i])
        && (is_whitespace(cleaned[i]) <==> name[i] == ' ') by {}
    crate::tuning_file::lemma_trim_empty_iff_blank(cleaned);
    let k = lemma_trim_start_suffix(cleaned);
    let m = lemma_trim_end_prefix(trim_start(cleaned));
    let core = trim(cleaned);
    let rest = trim_start(cleaned);
    assert(core == cleaned.subrange(k, k + m));
    if forall|i: int| 0 <= i < name.len() ==> name[i] == ' ' {
        assert(!crate::tuning_file::has_visible_char(cleaned));
    }
    if exists|i: int| 0 <= i < name.len() && name[i] != ' ' {
        let j = choose|i: int| 0 <= i < name.len() && name[i] != ' ';
        assert(!is_whitespace(cleaned[j]));
        assert(crate::tuning_file::has_visible_char(cleaned));
        let stem = spec_sanitize_file_stem(name);
        assert forall|i: int| 0 <= i < stem.len() implies #[trigger] stem[i] == stem_char_of(
            name[k + i],
        ) by {
            assert(stem[i] == core[i]);
        }
        assert(is_stem_run_of(name, stem, k));
        assert(m > 0);
        assert(rest[m - 1] == cleaned[k + m - 1]);
        assert forall|i: int| 0 <= i < name.len() && !(k <= i < k + m) implies #[trigger] name[i]
            == ' ' by {
            if i < k {
                assert(is_whitespace(cleaned[i]));
            } else {
                assert(rest[i - k] == cleaned[i]);
                assert(is_whitespace(rest[i - k]));
            }
        }
        assert(is_space_trimmed_range(name, k, k + m));
    }
}

/// A plain name (ASCII letters, digits, `-`, `_`, spaces) with no space at
/// either end and at most 64 characters long is its own stem.
pub proof fn lemma_sanitize_plain_name(name: Seq<char>)
    requires
        1 <= name.len() <= 64,
        is_plain_name(name),
        name[0] != ' ',
        name.last() != ' ',
    ensures
        spec_sanitize_file_stem(name) == name,
{
    let cleaned = cleaned_name(name);
    assert(cleaned =~= name);
    assert(!is_whitespace(name[0]));
    assert(!is_whitespace(name.last()));
    assert(trim_start(name) == name);
    assert(trim_end(name) == name);
}

/// Turn a user supplied tuning name into a safe file stem.
///
/// Everything other than alphanumerics, spaces, `-` and `_` becomes `_`, which
/// also prevents path traversal (`..`, `/`) from user input.
pub fn sanitize_file_stem(name: &str) -> (stem: String)
    ensures
        stem@ == spec_sanitize_file_stem(name@),
        1 <= stem@.len() <= 64,
        forall|i: int| 0 <= i < stem@.len() ==> is_stem_char(#[trigger] stem@[i]),
        (exists|i: int| 0 <= i < name@.len() && name@[i] != ' ') ==> exists|lo: int, hi: int|
            #![trigger is_space_trimmed_range(name@, lo, hi)]
            is_space_trimmed_range(name@, lo, hi) && is_stem_run_of(name@, stem@, lo) && stem@.len()
                == if hi - lo <= 64 {
                hi - lo
            } else {
                64
            },
        (forall|i: int| 0 <= i < name@.len() ==> name@[i] == ' ') ==> stem@ == fallback_stem(),
        (1 <= name@.len() <= 64 && is_plain_name(name@) && name@[0] != ' ' && name@.last() != ' ')
            ==> stem@ == name@,
{
    proof {
        lemma_sanitize_keeps_positions(name@);
        if 1 <= name@.len() <= 64 && is_plain_name(name@) && name@[0] != ' ' && name@.last() != ' ' {
            lemma_sanitize_plain_name(name@);
        }
    }
    let chars = chars_of(name);
    let mut cleaned: Vec<char> = Vec::new();
    let mut i: usize = 0;
    while i < chars.len()
        invariant
            i <= chars.len(),
            chars@ == name@,
            cleaned@ == cleaned_name(name@).take(i as int),
        decreases chars.len() - i,
    {
        let c = chars[i];
        let safe = ('a' <= c && c <= 'z') || ('A' <= c && c <= 'Z') || ('0' <= c && c <= '9')
            || c == '-' || c == '_' || c == ' ';
        cleaned.push(if safe { c } else { '_' });
        assert(cleaned_name(name@).take(i as int + 1) =~= cleaned_name(name@).take(i as int).push(
            if safe { c } else { '_' },
        ));
        i = i + 1;
    }
    assert(cleaned_name(name@).take(chars.len() as int) =~= cleaned_name(name@));
    let ghost all = cleaned@;
    assert(forall|j: int| 0 <= j < all.len() ==> is_stem_char(#[trigger] all[j]));
    let (lo, hi) = trim_bounds(&cleaned);
    let mut out: Vec<char> = Vec::new();
    if lo == hi {
        out.push('t');
        out.push('u');
        out.push('n');
        out.push('i');
        out.push('n');
        out.push('g');
        assert(out@ =~= fallback_stem());
    } else {
        let end: usize = if hi - lo > 64 {
            lo + 64
        } else {
            hi
        };
        let mut k: usize = lo;
        while k < end
            invariant
                lo <= k <= end <= hi <= cleaned.len(),
                cleaned@ == all,
                out@ == all.subrange(lo as int, k as int),
            decreases end - k,
        {
            out.push(cleaned[k]);
            assert(all.subrange(lo as int, k + 1) == all.subrange(lo as int, k as int).push(
                all[k as int],
            ));
            k = k + 1;
        }
        assert(trim(all) == all.subrange(lo as int, hi as int));
        assert(out@ =~= spec_sanitize_file_stem(name@));
    }
    string_from_chars(&out)
}

/// Conventional file extension for tuning files.
pub open spec fn tuning_extension() -> Seq<char> {
    seq!['p', 't', 'u', 'n']
}

/// Where the tuning library lives.
pub struct StorageConfig {
    /// The configured library directory; `None` until one is set.
    pub library_dir: Option<String>,
}

/// The library directory used when none has been set.
pub open spec fn default_library_dir() -> Seq<char> {
    seq!['t', 'u', 'n', 'i', 'n', 'g', 's']
}

/// The directory a configuration stores tuning files in.
pub open spec fn spec_library_dir(config: StorageConfig) -> Seq<char> {
    match config.library_dir {
        Some(dir) => dir@,
        None => default_library_dir(),
    }
}

/// The file name a tuning with this name is stored under: `<stem>.ptun`.
pub open spec fn spec_file_name_for(name: Seq<char>) -> Seq<char> {
    spec_sanitize_file_stem(name) + seq!['.'] + tuning_extension()
}

/// A path separator that joining may put between a directory and a file name.
pub open spec fn is_join_separator(sep: Seq<char>) -> bool {
    sep == Seq::<char>::empty() || sep == seq!['/'] || sep == seq!['\\']
}

/// A non-empty file name with no `/`, `\\` or `:` in it, other than `.` and `..`.
pub open spec fn is_plain_file_name(file: Seq<char>) -> bool {
    &&& file.len() > 0
    &&& file != seq!['.']
    &&& file != seq!['.', '.']
    &&& forall|i: int|
        0 <= i < file.len() ==> #[trigger] file[i] != '/' && file[i] != '\\' && file[i] != ':'
}

/// Does `path` end with `tail`?
pub open spec fn ends_with(path: Seq<char>, tail: Seq<char>) -> bool {
    tail.len() <= path.len() && path.subrange(path.len() - tail.len(), path.len() as int) == tail
}

/// `path` is `dir`, then one separator (`/` or `\\`, by platform), then
/// `file`; the separator is left out exactly when `dir` is empty or
/// already ends with `/`.
pub open spec fn is_joined(dir: Seq<char>, file: Seq<char>, path: Seq<char>) -> bool {
    exists|sep: Seq<char>|
        is_join_separator(sep) && path == dir + sep + file && (sep.len() == 0 <==> (dir.len() == 0
            || dir.last() == '/'))
}

/// A bare drive such as `C:`: an ASCII letter and a colon.
pub open spec fn is_bare_drive(dir: Seq<char>) -> bool {
    dir.len() == 2 && dir[1] == ':' && (('a' <= dir[0] && dir[0] <= 'z') || ('A' <= dir[0]
        && dir[0] <= 'Z'))
}

/// Does `dir` start with two separators (`//`, `\\\\`, or a mix)? Such a
/// start makes a UNC, device or verbatim prefix on Windows.
pub open spec fn starts_with_double_separator(dir: Seq<char>) -> bool {
    dir.len() >= 2 && (dir[0] == '/' || dir[0] == '\\') && (dir[1] == '/' || dir[1] == '\\')
}

/// `path` is `dir`, then a separator or nothing, then `file`, on whichever
/// platform: nothing is put in when `dir` is empty or ends with `/`, and
/// nothing is put in only when `dir` is empty, ends with `/` or `\\`, or
/// is a bare drive (where Windows leaves the separator out).
pub open spec fn is_joined_on_some_platform(dir: Seq<char>, file: Seq<char>, path: Seq<char>) -> bool {
    exists|sep: Seq<char>|
        {
            &&& is_join_separator(sep)
            &&& path == dir + sep + file
            &&& (dir.len() == 0 || dir.last() == '/') ==> sep.len() == 0
            &&& sep.len() == 0 ==> (dir.len() == 0 || dir.last() == '/' || dir.last() == '\\'
                || is_bare_drive(dir))
        }
}

impl StorageConfig {
    /// A configuration with no library directory set.
    pub fn new() -> (config: Self)
        ensures
            config.library_dir is None,
    {
        StorageConfig { library_dir: None }
    }
}

/// Set the directory used to store tuning files.
pub fn set_library_dir(config: &mut StorageConfig, path: String)
    ensures
        final(config).library_dir == Some(path),
{
    config.library_dir = Some(path);
}

/// Directory currently used to store tuning files (`tunings` until one is set).
pub fn library_dir(config: &StorageConfig) -> (dir: String)
    ensures
        dir@ == spec_library_dir(*config),
{
    match &config.library_dir {
        Some(dir) => dir.clone(),
        None => {
            let v: Vec<char> = vec!['t', 'u', 'n', 'i', 'n', 'g', 's'];
            assert(v@ =~= default_library_dir());
            string_from_chars(&v)
        },
    }
}

/// `Path::join` of a directory and a plain file name, as a string.
///
/// Claimed, for a file name that is not empty, not `.` or `..`, and holds
/// no `/`, `\\` or `:` (so that it is relative, without prefix or root, on
/// every platform): the result ends with the file name. If moreover the
/// directory is portable (no `\\` or `:`, not starting with `//`, so no
/// prefix on any platform), the result is the directory, then the
/// platform's separator unless the directory is empty or already ends with
/// `/`, then the file name, as `PathBuf::push` documents. Which separator
/// (`/` or `\\`) depends on the platform; that is left open. A directory
/// that holds `\\` or `:` but does not start with two separators has, on
/// Windows, no prefix other than a drive, and none elsewhere; so the result
/// is still the directory, a separator or nothing, then the file name:
/// nothing when the directory is empty or ends with `/`, and nothing only
/// when it is empty, ends with `/` or `\\`, or is a bare drive such as
/// `C:`. For directories that start with two separators (UNC, device or
/// verbatim `\\?\` ones, which Windows rebuilds from their components)
/// only the ending is claimed.
#[verifier::external_body]
fn join_path(dir: &str, file: &str) -> (joined: String)
    ensures
        is_plain_file_name(file@) ==> ends_with(joined@, file@),
        is_plain_file_name(file@) && is_portable_path(dir@) ==> is_joined(dir@, file@, joined@),
        is_plain_file_name(file@) && !starts_with_double_separator(dir@) ==> is_joined_on_some_platform(
            dir@,
            file@,
            joined@,
        ),
{
    std::path::Path::new(dir).join(file).to_string_lossy().into_owned()
}

/// Full path a tuning with this name would be written to: the library
/// directory joined with `<sanitized name>.ptun`, so that the file lies
/// directly in the library directory.
pub fn path_for(config: &StorageConfig, name: &str) -> (path: String)
    ensures
        is_plain_file_name(spec_file_name_for(name@)),
        ends_with(path@, spec_file_name_for(name@)),
        is_portable_path(spec_library_dir(*config)) ==> is_joined(
            spec_library_dir(*config),
            spec_file_name_for(name@),
            path@,
        ),
        config.library_dir is None ==> is_joined(default_library_dir(), spec_file_name_for(name@), path@),
        !starts_with_double_separator(spec_library_dir(*config)) ==> is_joined_on_some_platform(
            spec_library_dir(*config),
            spec_file_name_for(name@),
            path@,
        ),
{
    let dir = library_dir(config);
    let stem = sanitize_file_stem(name);
    let mut file = chars_of(stem.as_str());
    file.push('.');
    file.push('p');
    file.push('t');
    file.push('u');
    file.push('n');
    let ghost f = file@;
    assert(f =~= spec_file_name_for(name@));
    assert forall|i: int| 0 <= i < f.len() implies #[trigger] f[i] != '/' && f[i] != '\\' && f[i]
        != ':' by {
        if i < stem@.len() {
            assert(is_stem_char(stem@[i]));
        }
    }
    assert(f.len() >= 6);
    assert(is_plain_file_name(f));
    assert(is_portable_path(default_library_dir()));
    let file_name = string_from_chars(&file);
    join_path(dir.as_str(), file_name.as_str())
}

/// `ext` could be the extension of `path`: it holds no `.`, and `path`
/// holds a `.` directly followed by `ext`.
pub open spec fn is_extension_in(path: Seq<char>, ext: Seq<char>) -> bool {
    &&& forall|i: int| 0 <= i < ext.len() ==> #[trigger] ext[i] != '.'
    &&& exists|k: int|
        0 <= k && k + ext.len() < path.len() && path[k] == '.' && #[trigger] path.subrange(
            k + 1,
            k + 1 + ext.len(),
        ) == ext
}

/// A path that every platform splits the same way: `/` is its only
/// separator (no `\\`), it holds no `:` (no drive or other prefix), and it
/// does not start with `//`.
pub open spec fn is_portable_path(path: Seq<char>) -> bool {
    &&& forall|i: int| 0 <= i < path.len() ==> #[trigger] path[i] != '\\' && path[i] != ':'
    &&& !(path.len() >= 2 && path[0] == '/' && path[1] == '/')
}

/// The pieces of `path` between `/` separators, in order (empty pieces included).
pub open spec fn slash_pieces(path: Seq<char>) -> Seq<Seq<char>>
    decreases path.len(),
{
    if path.len() == 0 {
        seq![Seq::<char>::empty()]
    } else {
        let r = slash_pieces(path.drop_last());
        if path.last() == '/' {
            r.push(Seq::<char>::empty())
        } else {
            r.update(r.len() - 1, r.last().push(path.last()))
        }
    }
}

/// The last piece that is neither empty nor `.`: the last component of the
/// path once repeated and trailing separators and `.` components are dropped.
pub open spec fn last_component(pieces: Seq<Seq<char>>) -> Option<Seq<char>>
    decreases pieces.len(),
{
    if pieces.len() == 0 {
        None
    } else if pieces.last().len() == 0 || pieces.last() == seq!['.'] {
        last_component(pieces.drop_last())
    } else {
        Some(pieces.last())
    }
}

/// `Path::file_name` of a portable path: its last component, unless that is `..`.
pub open spec fn spec_file_name(path: Seq<char>) -> Option<Seq<char>> {
    match last_component(slash_pieces(path)) {
        Some(n) => if n == seq!['.', '.'] {
            None
        } else {
            Some(n)
        },
        None => None,
    }
}

/// The extension of a file name: what follows its last `.`, unless it has
/// no `.` or its only `.` comes first.
pub open spec fn spec_name_extension(name: Seq<char>) -> Option<Seq<char>> {
    if exists|i: int| 0 <= i < name.len() && name[i] == '.' {
        let i = choose|i: int|
            0 <= i < name.len() && name[i] == '.' && forall|j: int| i < j < name.len() ==> name[j] != '.';
        if i == 0 {
            None
        } else {
            Some(name.subrange(i + 1, name.len() as int))
        }
    } else {
        None
    }
}

/// `Path::extension` of a portable path.
pub open spec fn spec_path_extension(path: Seq<char>) -> Option<Seq<char>> {
    match spec_file_name(path) {
        Some(n) => spec_name_extension(n),
        None => None,
    }
}

/// The characters of an optional string.
pub open spec fn optional_text(s: Option<String>) -> Option<Seq<char>> {
    match s {
        Some(t) => Some(t@),
        None => None,
    }
}

/// `Path::extension` of `path`, as a string.
///
/// Claimed: an extension that is found holds no `.` and follows a `.`
/// somewhere in `path`; and for a portable path (`/` as the only
/// separator, no `:`, not starting with `//`) the extension is the one the
/// `Path` documentation describes: of the last component (repeated and
/// trailing separators and `.` components dropped; none if it is `..`),
/// what follows its last `.`, unless there is no `.` or the only one comes
/// first. Paths with `\\` or `:` split differently on different platforms;
/// for them no more is said.
#[verifier::external_body]
fn file_extension(path: &str) -> (ext: Option<String>)
    ensures
        ext matches Some(e) ==> is_extension_in(path@, e@),
        is_portable_path(path@) ==> optional_text(ext) == spec_path_extension(path@),
{
    std::path::Path::new(path).extension().map(|e| e.to_string_lossy().into_owned())
}

/// Is `ext` the tuning file extension, in any letter case?
pub fn is_tuning_extension(ext: Option<&str>) -> (yes: bool)
    ensures
        yes == (ext matches Some(e) && ascii_eq_ignore_case(e@, tuning_extension())),
{
    match ext {
        None => false,
        Some(e) => {
            let p = "ptun";
            proof {
                reveal_strlit("ptun");
            }
            assert(p@ =~= tuning_extension());
            eq_ignore_ascii_case(e, p)
        },
    }
}

/// Does `path` name a tuning file (extension `ptun`, in any letter case)?
pub fn has_tuning_extension(path: &str) -> (yes: bool)
    ensures
        yes ==> exists|e: Seq<char>|
            is_extension_in(path@, e) && ascii_eq_ignore_case(e, tuning_extension()),
        is_portable_path(path@) ==> yes == (spec_path_extension(path@) matches Some(e)
            && ascii_eq_ignore_case(e, tuning_extension())),
{
    match file_extension(path) {
        None => false,
        Some(e) => is_tuning_extension(Some(e.as_str())),
    }
}

} // verus!
