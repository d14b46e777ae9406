//! Path normalisation shared by fingerprints and extraction keys.
use vstd::prelude::*;

use crate::codec::{lower_of, lowercase, string_from_chars};
use crate::text::{chars_of, str_eq};

verus! {

/// A path in normal form, as fingerprints and extraction keys compare it.
/// Known-folder identifiers are resolved beforehand by the shell, through
/// `split_known_folder_path` and `join_known_folder`; without that a path is
/// already in normal form.
pub open spec fn normalized_path(p: Seq<char>) -> Seq<char> {
    p
}

/// Puts a path in normal form.
pub fn normalize_path(path: &str) -> (r: String)
    ensures
        r@ == normalized_path(path@),
{
    String::from_str(path)
}

} // verus!

verus! {

/// The system folders that a path may name by their known-folder identifier,
/// as in `{1AC14E77-02E7-4E5D-B744-2EB1AE5198B7}\services.msc`.
#[derive(Clone, Copy, Debug, PartialEq, Eq, Structural)]
pub enum KnownFolder {
    System,
    Windows,
    SystemX86,
    ProgramFiles,
    ProgramFilesX86,
    UserProfiles,
    Public,
}

/// The folder a case-folded identifier names.
pub open spec fn known_folder_of(id: Seq<char>) -> Option<KnownFolder> {
    if id == "1ac14e77-02e7-4e5d-b744-2eb1ae5198b7"@ {
        Some(KnownFolder::System)
    } else if id == "f38bf404-1d43-42f2-9305-67de0b28fc23"@ {
        Some(KnownFolder::Windows)
    } else if id == "d65231b0-b2f1-4857-a4ce-a8e7c6ea7d27"@ {
        Some(KnownFolder::SystemX86)
    } else if id == "7c5a40ef-a0fb-4bfc-874a-c0f2e0b9fa8e"@ {
        Some(KnownFolder::ProgramFiles)
    } else if id == "50233421-db61-45a4-9a2f-f5962b859194"@ {
        Some(KnownFolder::ProgramFilesX86)
    } else if id == "ae054212-3519-4430-83ed-d70627221f3c"@ {
        Some(KnownFolder::UserProfiles)
    } else if id == "dfdf76a2-c82a-4d63-906a-5644ac457385"@ {
        Some(KnownFolder::Public)
    } else {
        None
    }
}

/// `e` is the position of the first `}` of `p`.
pub open spec fn first_close_brace(p: Seq<char>, e: int) -> bool {
    0 <= e < p.len() && p[e] == '}' && forall|k: int| 0 <= k < e ==> p[k] != '}'
}

/// A text without its leading backslashes.
pub open spec fn strip_leading_backslashes(s: Seq<char>) -> Seq<char>
    decreases s.len(),
{
    if s.len() > 0 && s[0] == '\\' {
        strip_leading_backslashes(s.drop_first())
    } else {
        s
    }
}

/// A path that starts with a braced known-folder identifier, split into the
/// folder and the rest of the path without its leading backslashes; `None`
/// for any other path.
pub open spec fn known_folder_split(p: Seq<char>) -> Option<(KnownFolder, Seq<char>)> {
    if p.len() > 0 && p[0] == '{' && exists|e: int| first_close_brace(p, e) {
        let e = choose|e: int| first_close_brace(p, e);
        match known_folder_of(lower_of(p.subrange(1, e))) {
            Some(f) => Some((f, strip_leading_backslashes(p.subrange(e + 1, p.len() as int)))),
            None => None,
        }
    } else {
        None
    }
}

/// A folder and a path below it.
pub struct KnownFolderPath {
    pub folder: KnownFolder,
    pub rest: String,
}

fn chars_between(s: &Vec<char>, from: usize, to: usize) -> (r: Vec<char>)
    requires
        from <= to <= s@.len(),
    ensures
        r@ == s@.subrange(from as int, to as int),
{
    let mut out: Vec<char> = Vec::new();
    let mut k: usize = from;
    while k < to
        invariant
            from <= k <= to <= s@.len(),
            out@ == s@.subrange(from as int, k as int),
        decreases to - k,
    {
        out.push(s[k]);
        assert(s@.subrange(from as int, k + 1) =~= s@.subrange(from as int, k as int).push(
            s@[k as int],
        ));
        k = k + 1;
    }
    out
}

fn folder_named(id: &str) -> (r: Option<KnownFolder>)
    ensures
        r == known_folder_of(id@),
{
    proof {
        reveal_strlit("1ac14e77-02e7-4e5d-b744-2eb1ae5198b7");
        reveal_strlit("f38bf404-1d43-42f2-9305-67de0b28fc23");
        reveal_strlit("d65231b0-b2f1-4857-a4ce-a8e7c6ea7d27");
        reveal_strlit("7c5a40ef-a0fb-4bfc-874a-c0f2e0b9fa8e");
        reveal_strlit("50233421-db61-45a4-9a2f-f5962b859194");
        reveal_strlit("ae054212-3519-4430-83ed-d70627221f3c");
        reveal_strlit("dfdf76a2-c82a-4d63-906a-5644ac457385");
    }
    if str_eq(id, "1ac14e77-02e7-4e5d-b744-2eb1ae5198b7") {
        Some(KnownFolder::System)
    } else if str_eq(id, "f38bf404-1d43-42f2-9305-67de0b28fc23") {
        Some(KnownFolder::Windows)
    } else if str_eq(id, "d65231b0-b2f1-4857-a4ce-a8e7c6ea7d27") {
        Some(KnownFolder::SystemX86)
    } else if str_eq(id, "7c5a40ef-a0fb-4bfc-874a-c0f2e0b9fa8e") {
        Some(KnownFolder::ProgramFiles)
    } else if str_eq(id, "50233421-db61-45a4-9a2f-f5962b859194") {
        Some(KnownFolder::ProgramFilesX86)
    } else if str_eq(id, "ae054212-3519-4430-83ed-d70627221f3c") {
        Some(KnownFolder::UserProfiles)
    } else if str_eq(id, "dfdf76a2-c82a-4d63-906a-5644ac457385") {
        Some(KnownFolder::Public)
    } else {
        None
    }
}

/// Splits a path that starts with a braced known-folder identifier (matched
/// without regard to case) into the folder and the rest below it.
pub fn split_known_folder_path(path: &str) -> (r: Option<KnownFolderPath>)
    ensures
        match known_folder_split(path@) {
            None => r is None,
            Some(t) => r matches Some(k) && k.folder == t.0 && k.rest@ == t.1,
        },
{
    let p = chars_of(path);
    let n = p.len();
    if n == 0 || p[0] != '{' {
        return None;
    }
    let mut e: usize = 0;
    while e < n && p[e] != '}'
        invariant
            e <= n == p@.len(),
            forall|k: int| 0 <= k < e ==> p@[k] != '}',
        decreases n - e,
    {
        e = e + 1;
    }
    if e == n {
        assert(!exists|x: int| first_close_brace(path@, x)) by {
            if exists|x: int| first_close_brace(path@, x) {
                let x = choose|x: int| first_close_brace(path@, x);
                assert(p@[x] == '}');
            }
        }
        return None;
    }
    assert(first_close_brace(path@, e as int));
    proof {
        let c = choose|x: int| first_close_brace(path@, x);
        if c < e {
            assert(p@[c] != '}');
        } else if c > e {
            assert(path@[e as int] != '}');
        }
    }
    let id = string_from_chars(&chars_between(&p, 1, e));
    let lower = lowercase(id.as_str());
    match folder_named(lower.as_str()) {
        None => None,
        Some(folder) => {
            let mut a: usize = e + 1;
            assert(path@.subrange(a as int, n as int) =~= p@.subrange(a as int, n as int));
            while a < n && p[a] == '\\'
                invariant
                    e + 1 <= a <= n == p@.len(),
                    p@ == path@,
                    strip_leading_backslashes(path@.subrange(e + 1, n as int))
                        == strip_leading_backslashes(path@.subrange(a as int, n as int)),
                decreases n - a,
            {
                assert(path@.subrange(a as int, n as int).drop_first() =~= path@.subrange(
                    a + 1,
                    n as int,
                ));
                a = a + 1;
            }
            let rest = string_from_chars(&chars_between(&p, a, n));
            Some(KnownFolderPath { folder, rest })
        },
    }
}

/// A path below a folder: the rest appended after one backslash, unless the
/// folder already ends with a separator; the folder itself when the rest is
/// empty.
pub open spec fn joined_path(base: Seq<char>, rest: Seq<char>) -> Seq<char> {
    if rest.len() == 0 {
        base
    } else if base.len() > 0 && (base.last() == '\\' || base.last() == '/') {
        base + rest
    } else {
        base + seq!['\\'] + rest
    }
}

/// Resolves a split known-folder path against the folder's location, which
/// the shell provides.
pub fn join_known_folder(base: &str, rest: &str) -> (r: String)
    ensures
        r@ == joined_path(base@, rest@),
{
    let rn = rest.unicode_len();
    if rn == 0 {
        return String::from_str(base);
    }
    let bn = base.unicode_len();
    let mut s = String::from_str(base);
    if bn > 0 && (base.get_char(bn - 1) == '\\' || base.get_char(bn - 1) == '/') {
        s.append(rest);
    } else {
        s.append("\\");
        proof {
            reveal_strlit("\\");
        }
        s.append(rest);
    }
    s
}

} // verus!
