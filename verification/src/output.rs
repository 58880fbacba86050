//! Where the report is written when no output path is given.

use vstd::prelude::*;

verus! {

/// Text that the path functions of every platform read as one plain file
/// name: not empty, not `.` or `..`, and free of `/`, `\` and `:` (the
/// separators and the drive-prefix mark).
pub open spec fn is_bare_name(s: Seq<char>) -> bool {
    &&& s.len() > 0
    &&& !s.contains('/')
    &&& !s.contains('\\')
    &&& !s.contains(':')
    &&& s != "."@
    &&& s != ".."@
}

/// The index of the last `.` in `s`, or -1 when there is none.
pub open spec fn last_dot(s: Seq<char>) -> int
    decreases s.len(),
{
    if s.len() == 0 {
        -1
    } else if s.last() == '.' {
        s.len() - 1
    } else {
        last_dot(s.drop_last())
    }
}

/// The stem of a file name as std's `Path::file_stem` documents it: the whole
/// name when it has no `.` or only a leading one (and for `..`), otherwise the
/// part before the last `.`.
pub open spec fn documented_stem(name: Seq<char>) -> Seq<char> {
    if name == ".."@ || last_dot(name) <= 0 {
        name
    } else {
        name.subrange(0, last_dot(name))
    }
}

/// The index of the last `/` in `s`, or -1 when there is none.
pub open spec fn last_slash(s: Seq<char>) -> int
    decreases s.len(),
{
    if s.len() == 0 {
        -1
    } else if s.last() == '/' {
        s.len() - 1
    } else {
        last_slash(s.drop_last())
    }
}

/// The text before the last `/`.
pub open spec fn dir_part(s: Seq<char>) -> Seq<char> {
    s.subrange(0, last_slash(s))
}

/// The text after the last `/`.
pub open spec fn name_part(s: Seq<char>) -> Seq<char> {
    s.subrange(last_slash(s) + 1, s.len() as int)
}

/// A directory that every platform reads segment by segment, keeping its
/// text as the parent of what it holds: segments joined by single `/`, each a
/// bare name or `..`, where the first may also be `.` or empty (a leading
/// `/`, the root): `d`, `..`, `./d`, `../../d`, `/d/e`, ...
pub open spec fn is_plain_dir(d: Seq<char>) -> bool
    decreases d.len(),
{
    if d == "."@ || d == ".."@ || is_bare_name(d) {
        true
    } else if 0 <= last_slash(d) < d.len() && (is_bare_name(name_part(d)) || name_part(d)
        == ".."@) {
        dir_part(d).len() == 0 || is_plain_dir(dir_part(d))
    } else {
        false
    }
}

/// A bare file name inside a plain directory (see `is_plain_dir`) or under
/// the root: `/b`, `d/b`, `../b`, `./d/b`, `/d/e/b`, ... Every platform reads
/// such a path as its components in order, the last being the file `b`, and
/// its parent is the text before the last `/`.
pub open spec fn in_plain_dir(s: Seq<char>) -> bool {
    &&& 0 <= last_slash(s) < s.len()
    &&& is_bare_name(name_part(s))
    &&& (dir_part(s).len() == 0 || is_plain_dir(dir_part(s)))
}

/// The file name that every platform finds in `s`, where that does not
/// depend on the platform: a bare name is its own file name, and a bare name
/// in a plain directory (see `in_plain_dir`) is the file name of that path.
pub open spec fn known_file_name(s: Seq<char>) -> Option<Seq<char>> {
    if is_bare_name(s) {
        Some(s)
    } else if in_plain_dir(s) {
        Some(name_part(s))
    } else {
        None
    }
}

proof fn lemma_last_dot_bound(s: Seq<char>)
    ensures
        -1 <= last_dot(s) < s.len(),
    decreases s.len(),
{
    if s.len() > 0 {
        lemma_last_dot_bound(s.drop_last());
    }
}

proof fn lemma_last_slash_bound(s: Seq<char>)
    ensures
        -1 <= last_slash(s) < s.len(),
    decreases s.len(),
{
    if s.len() > 0 {
        lemma_last_slash_bound(s.drop_last());
    }
}

/// The documented stem of a name is a leading part of it.
proof fn lemma_stem_is_prefix(name: Seq<char>)
    ensures
        documented_stem(name).len() <= name.len(),
        forall|i: int|
            0 <= i < documented_stem(name).len() ==> #[trigger] documented_stem(name)[i] == name[i],
{
    lemma_last_dot_bound(name);
}

/// `s` ends with `t`.
pub open spec fn ends_with(s: Seq<char>, t: Seq<char>) -> bool {
    &&& t.len() <= s.len()
    &&& s.subrange(s.len() - t.len(), s.len() as int) == t
}

/// Calls std's `Path::new(path).file_stem()` and keeps the stem when it is
/// valid UTF-8. Trusted: a stem is a portion of the path's last component,
/// so it holds no `/` and only characters of the path; for a bare file name
/// (`is_bare_name`), whose only component is the name itself, and for a bare
/// name `b` in a plain directory (see `in_plain_dir`), whose last component
/// is `b` on every platform, it is the stem of that name as the
/// documentation describes it. The stem holds no `/` when the path holds no
/// `\` (a Windows verbatim path, which needs `\`, splits on `\` alone).
/// What the stem of any other path is depends on the platform's separators
/// and is not stated.
#[verifier::external_body]
fn file_stem_of(path: &str) -> (stem: Option<String>)
    ensures
        stem is Some && !path@.contains('\\') ==> !stem->0@.contains('/'),
        stem is Some ==> forall|i: int|
            0 <= i < stem->0@.len() ==> path@.contains(#[trigger] stem->0@[i]),
        is_bare_name(path@) ==> stem is Some && stem->0@ == documented_stem(path@),
        in_plain_dir(path@) ==> stem is Some && stem->0@ == documented_stem(name_part(path@)),
{
    match std::path::Path::new(path).file_stem() {
        Some(stem) => match stem.to_str() {
            Some(text) => Some(text.to_string()),
            None => None,
        },
        None => None,
    }
}

/// Calls std's `Path::new(path).with_file_name(name)` and returns the path
/// as text. Trusted: when `name` is a bare file name, the new path has that
/// file name, so its text ends with `name`; when `path` is a bare file name
/// too, it has no parent and the new path is `name` itself; when `path` is a
/// bare name in a plain directory (see `in_plain_dir`), the new path is the
/// text before its last `/` (its parent), the platform's separator (`/`, or `\` on Windows)
/// and `name` (the documented `pop` then `push`). How any other path is split
/// and joined depends on the platform and is not stated.
#[verifier::external_body]
fn with_file_name(path: &str, name: &str) -> (result: String)
    ensures
        is_bare_name(name@) ==> ends_with(result@, name@),
        is_bare_name(name@) && is_bare_name(path@) ==> result@ == name@,
        is_bare_name(name@) && in_plain_dir(path@) ==> result@ == dir_part(path@) + seq!['/']
            + name@ || result@ == dir_part(path@) + seq!['\\'] + name@,
{
    std::path::Path::new(path).with_file_name(name).to_string_lossy().into_owned()
}

/// The name of the report file for a recording with file stem `stem`:
/// the stem (`sender` when there is none), then `.audio-delay.json`.
pub fn report_file_name(stem: Option<String>) -> (name: String)
    ensures
        name@ == match stem {
            Some(s) => s@,
            None => "sender"@,
        } + ".audio-delay.json"@,
{
    let mut name = match stem {
        Some(s) => s,
        None => String::from_str("sender"),
    };
    name.append(".audio-delay.json");
    name
}

/// The default report path: beside the sender recording, named by
/// `report_file_name` after the recording's file stem. It always ends with
/// `.audio-delay.json` when the path holds no `\` or `:`; for a bare file name
/// it is the name's stem followed by `.audio-delay.json`; for a bare name in a
/// plain directory (see `in_plain_dir`) it is in the same directory: the
/// directory, the platform's separator, then the stem of the name followed
/// by `.audio-delay.json`. How other paths are split depends on the platform and
/// is not stated further.
pub fn default_output(sender: &str) -> (path: String)
    ensures
        !sender@.contains('\\') && !sender@.contains(':') ==> ends_with(
            path@,
            ".audio-delay.json"@,
        ),
        is_bare_name(sender@) ==> path@ == documented_stem(sender@) + ".audio-delay.json"@,
        in_plain_dir(sender@) ==> path@ == dir_part(sender@) + seq!['/'] + documented_stem(
            name_part(sender@),
        ) + ".audio-delay.json"@ || path@ == dir_part(sender@) + seq!['\\'] + documented_stem(
            name_part(sender@),
        ) + ".audio-delay.json"@,
{
    let stem = file_stem_of(sender);
    let ghost stem_view = if stem is Some {
        stem->0@
    } else {
        "sender"@
    };
    let name = report_file_name(stem);
    let result = with_file_name(sender, name.as_str());
    proof {
        reveal_strlit(".audio-delay.json");
        reveal_strlit("sender");
        reveal_strlit(".");
        reveal_strlit("..");
        let suffix = ".audio-delay.json"@;
        let n = name@;
        assert(n == stem_view + suffix);
        assert(n.len() >= suffix.len());
        if in_plain_dir(sender@) {
            let b = name_part(sender@);
            lemma_stem_is_prefix(b);
            assert(stem_view == documented_stem(b));
            assert forall|i: int| 0 <= i < n.len() implies n[i] != '/' && n[i] != '\\' && n[i]
                != ':' by {
                if i < stem_view.len() {
                    assert(n[i] == b[i]);
                    assert(b.contains(b[i]));
                } else {
                    assert(n[i] == suffix[i - stem_view.len()]);
                }
            }
            assert(n != "."@ && n != ".."@) by {
                assert(n.len() > 2);
            }
            assert(is_bare_name(n));
            assert(n =~= documented_stem(b) + suffix);
        }
        if !sender@.contains('\\') && !sender@.contains(':') {
            assert(!n.contains('/') && !n.contains('\\') && !n.contains(':')) by {
                assert forall|i: int| 0 <= i < n.len() implies n[i] != '/' && n[i] != '\\' && n[i]
                    != ':' by {
                    if i < stem_view.len() {
                        assert(n[i] == stem_view[i]);
                        if stem is Some {
                            assert(sender@.contains(stem_view[i]));
                        }
                    } else {
                        assert(n[i] == suffix[i - stem_view.len()]);
                    }
                }
            }
            assert(n != "."@ && n != ".."@) by {
                assert(n.len() > 2);
            }
            assert(is_bare_name(n));
            assert(result@.subrange(result@.len() - suffix.len(), result@.len() as int) =~= suffix)
                by {
                assert forall|k: int| 0 <= k < suffix.len() implies result@.subrange(
                    result@.len() - suffix.len(),
                    result@.len() as int,
                )[k] == suffix[k] by {
                    assert(result@[result@.len() - suffix.len() + k] == n[n.len() - suffix.len()
                        + k]);
                }
            }
        }
    }
    result
}

} // verus!
