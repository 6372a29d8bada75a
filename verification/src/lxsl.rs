//! Signature-line handling: building the banner line that heads each source
//! file, recognising existing banner lines, and deciding which files to skip.

use vstd::prelude::*;
use vstd::string::StringExecFns;
use vstd::string::StrSliceExecFns;
use crate::constants::ARCMOON_SIGNATURE;
use crate::textutil::{
    spec_contains, str_contains, str_eq, xyn_char, append_xyn_mapped,
};

verus! {

/// Index of the last `'.'` in `s`, or `-1` when there is none.
pub open spec fn last_dot(s: Seq<char>) -> int
    decreases s.len(),
{
    if s.len() == 0 {
        -1
    } else if s.last() == '.' {
        s.len() - 1
    } else {
        last_dot(s.drop_last())
    }
}

proof fn lemma_last_dot_bounds(s: Seq<char>)
    ensures
        -1 <= last_dot(s) < s.len(),
        last_dot(s) >= 0 ==> s[last_dot(s)] == '.',
        forall|k: int| last_dot(s) < k < s.len() ==> s[k] != '.',
    decreases s.len(),
{
    if s.len() == 0 {
    } else if s.last() == '.' {
    } else {
        lemma_last_dot_bounds(s.drop_last());
        assert forall|k: int| last_dot(s) < k < s.len() implies s[k] != '.' by {
            if k < s.len() - 1 {
                assert(s.drop_last()[k] == s[k]);
            }
        }
    }
}

/// Index of the first `'/'` in `s`, or `-1` when there is none.
pub open spec fn first_slash(s: Seq<char>) -> int
    decreases s.len(),
{
    if s.len() == 0 {
        -1
    } else if s.first() == '/' {
        0
    } else {
        let r = first_slash(s.drop_first());
        if r == -1 {
            -1
        } else {
            r + 1
        }
    }
}

proof fn lemma_first_slash_bounds(s: Seq<char>)
    ensures
        -1 <= first_slash(s) < s.len(),
        first_slash(s) >= 0 ==> s[first_slash(s)] == '/',
        forall|k: int| 0 <= k < first_slash(s) ==> s[k] != '/',
        first_slash(s) == -1 ==> forall|k: int| 0 <= k < s.len() ==> s[k] != '/',
    decreases s.len(),
{
    if s.len() == 0 {
    } else if s.first() == '/' {
    } else {
        let t = s.drop_first();
        lemma_first_slash_bounds(t);
        assert forall|k: int| 0 <= k < first_slash(s) implies s[k] != '/' by {
            if k > 0 {
                assert(t[k - 1] == s[k]);
            }
        }
        if first_slash(s) >= 0 {
            assert(s[first_slash(s)] == t[first_slash(t)]);
        }
        if first_slash(s) == -1 {
            assert forall|k: int| 0 <= k < s.len() implies s[k] != '/' by {
                if k > 0 {
                    assert(t[k - 1] == s[k]);
                }
            }
        }
    }
}

/// Where in `s` the first slash stands, given which characters are slashes.
proof fn lemma_first_slash_at(s: Seq<char>, j: int)
    requires
        0 <= j < s.len(),
        s[j] == '/',
        forall|k: int| 0 <= k < j ==> s[k] != '/',
    ensures
        first_slash(s) == j,
    decreases j,
{
    if j == 0 {
    } else {
        assert(forall|k: int|
            0 <= k < s.drop_first().len() ==> s.drop_first()[k] == s[k + 1]);
        lemma_first_slash_at(s.drop_first(), j - 1);
    }
}

proof fn lemma_first_slash_none(s: Seq<char>)
    requires
        forall|k: int| 0 <= k < s.len() ==> s[k] != '/',
    ensures
        first_slash(s) == -1,
    decreases s.len(),
{
    if s.len() > 0 {
        assert(forall|k: int|
            0 <= k < s.drop_first().len() ==> s.drop_first()[k] == s[k + 1]);
        lemma_first_slash_none(s.drop_first());
    }
}

/// The components of `s` between slashes, in order.
pub open spec fn spec_split(s: Seq<char>) -> Seq<Seq<char>>
    decreases s.len(),
    via spec_split_decreases
{
    let j = first_slash(s);
    if j == -1 {
        seq![s]
    } else {
        seq![s.take(j)] + spec_split(s.skip(j + 1))
    }
}

#[via_fn]
proof fn spec_split_decreases(s: Seq<char>) {
    lemma_first_slash_bounds(s);
}

/// The character mapping that normalises path separators.
pub open spec fn sep_char(c: char) -> char {
    if c == '\\' {
        '/'
    } else {
        c
    }
}

fn normalize_seps(s: &str) -> (r: String)
    ensures
        r@ == s@.map_values(|c: char| sep_char(c)),
{
    let len = s.unicode_len();
    let mut out = String::new();
    let mut i: usize = 0;
    while i < len
        invariant
            i <= len,
            len == s@.len(),
            out@ == s@.subrange(0, i as int).map_values(|c: char| sep_char(c)),
        decreases len - i,
    {
        let c = s.get_char(i);
        if c == '\\' {
            proof {
                reveal_strlit("/");
            }
            out.append("/");
        } else {
            let one = s.substring_char(i, i + 1);
            out.append(one);
            proof {
                assert(one@ =~= seq![s@[i as int]]);
            }
        }
        proof {
            assert(s@.subrange(0, i + 1).map_values(|c: char| sep_char(c)) =~= s@.subrange(
                0,
                i as int,
            ).map_values(|c: char| sep_char(c)).push(sep_char(s@[i as int])));
            assert(out@ =~= s@.subrange(0, i as int).map_values(|c: char| sep_char(c)).push(
                sep_char(s@[i as int]),
            ));
        }
        i = i + 1;
    }
    proof {
        assert(s@.subrange(0, len as int) =~= s@);
    }
    out
}

/// Splits `s` on `'/'`, keeping empty components.
fn split_slash(s: &str) -> (parts: Vec<String>)
    ensures
        parts@.map_values(|p: String| p@) == spec_split(s@),
        parts@.len() >= 1,
{
    let len = s.unicode_len();
    let mut out: Vec<String> = Vec::new();
    let mut cur = String::new();
    let ghost mut start: int = 0;
    let mut i: usize = 0;
    proof {
        assert(s@.skip(0) =~= s@);
        assert(cur@ =~= s@.subrange(0, 0));
        assert(out@.map_values(|p: String| p@) =~= Seq::<Seq<char>>::empty());
    }
    while i < len
        invariant
            i <= len,
            len == s@.len(),
            0 <= start <= i,
            cur@ == s@.subrange(start, i as int),
            forall|k: int| start <= k < i ==> s@[k] != '/',
            spec_split(s@) == out@.map_values(|p: String| p@) + spec_split(s@.skip(start)),
        decreases len - i,
    {
        let c = s.get_char(i);
        if c == '/' {
            proof {
                let tail = s@.skip(start);
                assert(forall|k: int|
                    0 <= k < tail.len() ==> tail[k] == s@[start + k]);
                lemma_first_slash_at(tail, i - start);
                assert(tail.take(i - start) =~= cur@);
                assert(tail.skip(i - start + 1) =~= s@.skip(i + 1));
                assert(spec_split(tail) == seq![cur@] + spec_split(s@.skip(i + 1)));
            }
            out.push(cur);
            cur = String::new();
            proof {
                assert(out@.map_values(|p: String| p@) =~= out@.drop_last().map_values(
                    |p: String| p@,
                ).push(out@.last()@));
                start = i + 1;
                assert(cur@ =~= s@.subrange(start, i + 1));
            }
        } else {
            let one = s.substring_char(i, i + 1);
            cur.append(one);
            proof {
                assert(one@ =~= seq![s@[i as int]]);
                assert(cur@ =~= s@.subrange(start, i + 1));
            }
        }
        i = i + 1;
    }
    proof {
        let tail = s@.skip(start);
        assert(forall|k: int| 0 <= k < tail.len() ==> tail[k] == s@[start + k]);
        lemma_first_slash_none(tail);
        assert(tail =~= cur@);
        assert(spec_split(tail) == seq![cur@]);
    }
    out.push(cur);
    proof {
        assert(out@.map_values(|p: String| p@) =~= out@.drop_last().map_values(
            |p: String| p@,
        ).push(out@.last()@));
        assert(out@.map_values(|p: String| p@) =~= spec_split(s@));
    }
    out
}

/// Index of the last `'.'` of `s`, when there is one.
fn last_dot_index(s: &str) -> (r: Option<usize>)
    ensures
        match r {
            Some(j) => last_dot(s@) == j as int,
            None => last_dot(s@) == -1,
        },
{
    let len = s.unicode_len();
    let mut i: usize = len;
    proof {
        assert(s@.take(len as int) =~= s@);
    }
    while i > 0
        invariant
            i <= len,
            len == s@.len(),
            last_dot(s@) == last_dot(s@.take(i as int)),
        decreases i,
    {
        let c = s.get_char(i - 1);
        proof {
            assert(s@.take(i as int).last() == s@[i - 1]);
            if c != '.' {
                assert(s@.take(i as int).drop_last() =~= s@.take(i - 1));
            }
        }
        if c == '.' {
            return Some(i - 1);
        }
        i = i - 1;
    }
    proof {
        assert(s@.take(0) =~= Seq::<char>::empty());
    }
    None
}

/// The extension of a file name: what follows the last dot, when that dot
/// is neither absent nor the first character.
pub open spec fn spec_ext(s: Seq<char>) -> Seq<char> {
    if last_dot(s) <= 0 {
        Seq::empty()
    } else {
        s.skip(last_dot(s) + 1)
    }
}

/// The stem of a file name: what precedes the last dot, when that dot is
/// neither absent nor the first character; else the whole name.
pub open spec fn spec_stem(s: Seq<char>) -> Seq<char> {
    if last_dot(s) <= 0 {
        s
    } else {
        s.take(last_dot(s))
    }
}

/// The stem of a file name, with the placeholder for names that have none.
pub open spec fn stem_or_unknown(s: Seq<char>) -> Seq<char> {
    if s.len() == 0 || s == "."@ || s == ".."@ {
        "UNKNOWN"@
    } else {
        spec_stem(s)
    }
}

/// The comment prefix that a file extension calls for; empty when the
/// extension takes no signature line.
pub open spec fn spec_comment_prefix(e: Seq<char>) -> Seq<char> {
    if e == "rs"@ || e == "js"@ || e == "ts"@ || e == "cpp"@ || e == "c"@ || e == "java"@ {
        "//"@
    } else if e == "py"@ || e == "sh"@ || e == "rb"@ || e == "pl"@ {
        "#"@
    } else if e == "html"@ || e == "xml"@ {
        "<!--"@
    } else if e == "css"@ || e == "scss"@ {
        "/*"@
    } else if e == "sql"@ || e == "txt"@ {
        "--"@
    } else {
        Seq::empty()
    }
}

/// Each component of `parts` but the last, each followed by a slash.
pub open spec fn joined_slash(parts: Seq<Seq<char>>) -> Seq<char>
    decreases parts.len(),
{
    if parts.len() == 0 {
        Seq::empty()
    } else {
        joined_slash(parts.drop_last()) + parts.last() + "/"@
    }
}

/// The directory part of a signature line.
pub open spec fn spec_sig_path(parts: Seq<Seq<char>>) -> Seq<char> {
    if parts.len() <= 1 {
        Seq::empty()
    } else {
        joined_slash(parts.take(parts.len() - 1))
    }
}

/// The tag of a signature line.
pub open spec fn spec_xyn_signature(parts: Seq<Seq<char>>) -> Seq<char> {
    if parts.len() == 0 {
        "UNKNOWN"@
    } else {
        stem_or_unknown(parts.last()).map_values(|c: char| xyn_char(c))
    }
}

/// The module tag of a generated line: the parent directory where there is
/// one, else the file stem.
pub open spec fn spec_dir_tag(parts: Seq<Seq<char>>) -> Seq<char> {
    if parts.len() >= 2 {
        parts[parts.len() - 2].map_values(|c: char| xyn_char(c))
    } else {
        spec_xyn_signature(parts)
    }
}

/// Whether a line names one of the paths a signature line may carry.
pub open spec fn spec_has_valid_path(l: Seq<char>) -> bool {
    spec_contains(l, "// src"@) || spec_contains(l, "// build"@) || spec_contains(
        l,
        "// tests"@,
    )
}

/// Whether a line carries the banner markers.
pub open spec fn spec_has_signature_format(l: Seq<char>) -> bool {
    spec_contains(l, "~=#######D]"@) && spec_contains(l, "<Lord["@) && spec_contains(
        l,
        "]Xyn>"@,
    )
}

/// The whole generated signature line for a path, empty when the file's
/// extension takes none.
pub open spec fn spec_signature_line(s: Seq<char>) -> Seq<char> {
    let parts = spec_split(s.map_values(|c: char| sep_char(c)));
    let prefix = spec_comment_prefix(spec_ext(parts.last()));
    if prefix.len() == 0 {
        Seq::empty()
    } else {
        prefix + " "@ + spec_sig_path(parts) + " "@ + ARCMOON_SIGNATURE@ + " <Lord["@
            + spec_dir_tag(parts) + "]Xyn>"@
    }
}

/// Lines kept when a file's head is cleaned: a line within the first ten
/// that names a source path is dropped, the rest stay in order.
pub open spec fn spec_clean_lines(ls: Seq<Seq<char>>, idx: nat) -> Seq<Seq<char>>
    decreases ls.len(),
{
    if ls.len() == 0 {
        Seq::empty()
    } else {
        let keep: Seq<Seq<char>> = if idx < 10 && spec_has_valid_path(ls.first()) {
            Seq::empty()
        } else {
            seq![ls.first()]
        };
        keep + spec_clean_lines(ls.drop_first(), idx + 1)
    }
}

/// Builds and recognises the signature line that heads each source file.
pub struct LordXynSignatureLine;

impl LordXynSignatureLine {
    /// The comment prefix for a file extension; empty for extensions that
    /// take no signature line.
    pub fn get_comment_prefix(extension: &str) -> (r: &str)
        ensures
            r@ == spec_comment_prefix(extension@),
    {
        if str_eq(extension, "rs") || str_eq(extension, "js") || str_eq(extension, "ts")
            || str_eq(extension, "cpp") || str_eq(extension, "c") || str_eq(extension, "java") {
            "//"
        } else if str_eq(extension, "py") || str_eq(extension, "sh") || str_eq(extension, "rb")
            || str_eq(extension, "pl") {
            "#"
        } else if str_eq(extension, "html") || str_eq(extension, "xml") {
            "<!--"
        } else if str_eq(extension, "css") || str_eq(extension, "scss") {
            "/*"
        } else if str_eq(extension, "sql") || str_eq(extension, "txt") {
            "--"
        } else {
            proof {
                reveal_strlit("");
                assert(""@ =~= Seq::<char>::empty());
            }
            ""
        }
    }

    /// Whether a line names a source path and carries the banner markers.
    pub fn is_xyn_signature(line: &str) -> (r: bool)
        ensures
            r == (spec_has_valid_path(line@) && spec_has_signature_format(line@)),
    {
        let has_valid_path = str_contains(line, "// src") || str_contains(line, "// build")
            || str_contains(line, "// tests");
        let has_signature_format = str_contains(line, "~=#######D]") && str_contains(
            line,
            "<Lord[",
        ) && str_contains(line, "]Xyn>");
        has_valid_path && has_signature_format
    }

    /// Whether a line names a source path but lacks the banner markers.
    pub fn is_invalid_xyn_signature(line: &str) -> (r: bool)
        ensures
            r == (spec_has_valid_path(line@) && !spec_has_signature_format(line@)),
    {
        let has_valid_path = str_contains(line, "// src") || str_contains(line, "// build")
            || str_contains(line, "// tests");
        let has_signature_format = str_contains(line, "~=#######D]") && str_contains(
            line,
            "<Lord[",
        ) && str_contains(line, "]Xyn>");
        has_valid_path && !has_signature_format
    }

    /// Whether a file is left alone because of its extension.
    pub fn should_skip_file(file_path: &str) -> (r: bool)
        ensures
            r == Self::spec_should_skip(file_path@),
    {
        let normalized = normalize_seps(file_path);
        let parts = split_slash(normalized.as_str());
        let last = &parts[parts.len() - 1];
        proof {
            assert(parts@.map_values(|p: String| p@)[parts@.len() - 1] == parts@[parts@.len()
                - 1]@);
        }
        let ext = extension_of(last.as_str());
        str_eq(ext.as_str(), "lock") || str_eq(ext.as_str(), "log") || str_eq(
            ext.as_str(),
            "png",
        ) || str_eq(ext.as_str(), "jpg") || str_eq(ext.as_str(), "jpeg") || str_eq(
            ext.as_str(),
            "gif",
        ) || str_eq(ext.as_str(), "pyc") || str_eq(ext.as_str(), "toml") || str_eq(
            ext.as_str(),
            "exe",
        ) || str_eq(ext.as_str(), "dll") || str_eq(ext.as_str(), "so") || str_eq(
            ext.as_str(),
            "bin",
        )
    }

    /// The extensions of files that are left alone.
    pub open spec fn spec_should_skip(s: Seq<char>) -> bool {
        let e = spec_ext(spec_split(s.map_values(|c: char| sep_char(c))).last());
        e == "lock"@ || e == "log"@ || e == "png"@ || e == "jpg"@ || e == "jpeg"@ || e == "gif"@
            || e == "pyc"@ || e == "toml"@ || e == "exe"@ || e == "dll"@ || e == "so"@
            || e == "bin"@
    }

    /// The directory part of a signature line: every component but the
    /// last, each followed by a slash.
    pub fn build_signature_path(path_parts: &[&str]) -> (r: String)
        ensures
            r@ == spec_sig_path(path_parts@.map_values(|p: &str| p@)),
    {
        let ghost views = path_parts@.map_values(|p: &str| p@);
        let len = path_parts.len();
        let mut out = String::new();
        if len <= 1 {
            return out;
        }
        let mut i: usize = 0;
        proof {
            assert(views.take(0) =~= Seq::<Seq<char>>::empty());
        }
        while i < len - 1
            invariant
                i <= len - 1,
                1 < len == path_parts@.len(),
                views == path_parts@.map_values(|p: &str| p@),
                out@ == joined_slash(views.take(i as int)),
            decreases len - 1 - i,
        {
            out.append(path_parts[i]);
            proof {
                reveal_strlit("/");
            }
            out.append("/");
            proof {
                assert(views.take(i + 1).drop_last() =~= views.take(i as int));
                assert(views.take(i + 1).last() == views[i as int]);
                assert(out@ =~= joined_slash(views.take(i + 1)));
            }
            i = i + 1;
        }
        proof {
            assert(views.take(len - 1) =~= views.take(views.len() - 1));
        }
        out
    }

    /// The tag of a signature line: the stem of the last component, upcased,
    /// with dashes for underscores.
    pub fn build_xyn_signature(path_parts: &[&str]) -> (r: String)
        ensures
            r@ == spec_xyn_signature(path_parts@.map_values(|p: &str| p@)),
    {
        let len = path_parts.len();
        if len == 0 {
            return unknown_tag();
        }
        let last: &str = path_parts[len - 1];
        proof {
            assert(path_parts@.map_values(|p: &str| p@).last() == path_parts@[len - 1]@);
        }
        xyn_tag_of(last)
    }

    /// The signature line for a file path, empty when the extension takes
    /// none: the comment prefix, the directory part, the banner template,
    /// and the module tag.
    pub fn generate_signature_line(file_path: &str) -> (r: String)
        ensures
            r@ == spec_signature_line(file_path@),
    {
        let normalized = normalize_seps(file_path);
        let parts = split_slash(normalized.as_str());
        let ghost views = parts@.map_values(|p: String| p@);
        let plen = parts.len();
        let last = &parts[plen - 1];
        proof {
            assert(views[plen - 1] == parts@[plen - 1]@);
        }
        let ext = extension_of(last.as_str());
        let prefix = Self::get_comment_prefix(ext.as_str());
        if prefix.unicode_len() == 0 {
            proof {
                assert(spec_comment_prefix(spec_ext(views.last())).len() == 0);
            }
            return String::new();
        }
        let mut out = String::new();
        out.append(prefix);
        proof {
            reveal_strlit(" ");
        }
        out.append(" ");
        append_sig_path(&mut out, &parts);
        out.append(" ");
        out.append(ARCMOON_SIGNATURE);
        out.append(" <Lord[");
        if plen >= 2 {
            let dir = &parts[plen - 2];
            proof {
                assert(views[plen - 2] == parts@[plen - 2]@);
            }
            append_xyn_mapped(&mut out, dir.as_str());
        } else {
            let tag = xyn_tag_of(last.as_str());
            out.append(tag.as_str());
        }
        out.append("]Xyn>");
        out
    }
}

/// The placeholder tag, which the tag mapping leaves unchanged.
fn unknown_tag() -> (r: String)
    ensures
        r@ == "UNKNOWN"@,
        r@ == "UNKNOWN"@.map_values(|c: char| xyn_char(c)),
{
    proof {
        reveal_strlit("UNKNOWN");
        assert("UNKNOWN"@.map_values(|c: char| xyn_char(c)) =~= "UNKNOWN"@);
    }
    String::from_str("UNKNOWN")
}

/// The tag for one file name: its stem, upcased, dashes for underscores.
fn xyn_tag_of(last: &str) -> (r: String)
    ensures
        r@ == stem_or_unknown(last@).map_values(|c: char| xyn_char(c)),
{
    proof {
        reveal_strlit(".");
        reveal_strlit("..");
    }
    if last.unicode_len() == 0 || str_eq(last, ".") || str_eq(last, "..") {
        return unknown_tag();
    }
    proof {
        lemma_last_dot_bounds(last@);
    }
    let mut out = String::new();
    match last_dot_index(last) {
        Some(j) if j > 0 => {
            let stem = last.substring_char(0, j);
            proof {
                assert(stem@ =~= spec_stem(last@));
            }
            append_xyn_mapped(&mut out, stem);
        },
        _ => {
            append_xyn_mapped(&mut out, last);
        },
    }
    out
}

/// The extension of one file name, per `spec_ext`.
fn extension_of(name: &str) -> (r: String)
    ensures
        r@ == spec_ext(name@),
{
    proof {
        lemma_last_dot_bounds(name@);
    }
    let len = name.unicode_len();
    match last_dot_index(name) {
        Some(j) if j > 0 => {
            let ext = name.substring_char(j + 1, len);
            proof {
                assert(ext@ =~= spec_ext(name@));
            }
            String::from_str(ext)
        },
        _ => String::new(),
    }
}

/// Appends the directory part of a signature line for `parts`.
fn append_sig_path(out: &mut String, parts: &Vec<String>)
    ensures
        final(out)@ == old(out)@ + spec_sig_path(parts@.map_values(|p: String| p@)),
{
    let ghost views = parts@.map_values(|p: String| p@);
    let len = parts.len();
    if len <= 1 {
        proof {
            assert(out@ =~= old(out)@ + spec_sig_path(views));
        }
        return ;
    }
    let mut i: usize = 0;
    proof {
        assert(views.take(0) =~= Seq::<Seq<char>>::empty());
        assert(out@ =~= old(out)@ + joined_slash(views.take(0)));
    }
    while i < len - 1
        invariant
            i <= len - 1,
            1 < len == parts@.len(),
            views == parts@.map_values(|p: String| p@),
            out@ == old(out)@ + joined_slash(views.take(i as int)),
        decreases len - 1 - i,
    {
        out.append(parts[i].as_str());
        proof {
            reveal_strlit("/");
        }
        out.append("/");
        proof {
            assert(views.take(i + 1).drop_last() =~= views.take(i as int));
            assert(views.take(i + 1).last() == views[i as int]);
            assert(out@ =~= old(out)@ + joined_slash(views.take(i + 1)));
        }
        i = i + 1;
    }
    proof {
        assert(views.take(len - 1) =~= views.take(views.len() - 1));
    }
}

/// Drops, among the first ten lines, those that name a source path; keeps
/// the rest in order.  The part of signature enforcement that needs no file
/// handling.
pub fn clean_header_lines(lines: Vec<String>) -> (r: Vec<String>)
    ensures
        r@.map_values(|l: String| l@) == spec_clean_lines(
            lines@.map_values(|l: String| l@),
            0,
        ),
{
    let ghost views = lines@.map_values(|l: String| l@);
    let mut out: Vec<String> = Vec::new();
    let mut i: usize = 0;
    proof {
        assert(views.skip(0) =~= views);
        assert(out@.map_values(|l: String| l@) =~= Seq::<Seq<char>>::empty());
    }
    while i < lines.len()
        invariant
            i <= lines@.len(),
            views == lines@.map_values(|l: String| l@),
            spec_clean_lines(views, 0) == out@.map_values(|l: String| l@)
                + spec_clean_lines(views.skip(i as int), i as nat),
        decreases lines@.len() - i,
    {
        let line = &lines[i];
        proof {
            assert(views[i as int] == lines@[i as int]@);
            assert(views.skip(i as int).first() == views[i as int]);
            assert(views.skip(i as int).drop_first() =~= views.skip(i + 1));
        }
        let drop_it = i < 10 && (LordXynSignatureLine::is_invalid_xyn_signature(line.as_str())
            || LordXynSignatureLine::is_xyn_signature(line.as_str()));
        if !drop_it {
            let mut copy = String::new();
            copy.append(line.as_str());
            out.push(copy);
            proof {
                assert(out@.map_values(|l: String| l@) =~= out@.drop_last().map_values(
                    |l: String| l@,
                ).push(out@.last()@));
            }
        }
        i = i + 1;
    }
    proof {
        assert(views.skip(views.len() as int) =~= Seq::<Seq<char>>::empty());
        assert(out@.map_values(|l: String| l@) =~= spec_clean_lines(views, 0));
    }
    out
}

} // verus!
