//! Read-only project discovery: which files a discovery walk counts, and what their names say
//! about languages and toolchains.

use crate::text::{text_eq, utf8};
use vstd::prelude::*;

verus! {

broadcast use vstd::string::group_string_axioms;

/// ASCII lowercase of one byte.
pub open spec fn ascii_lower(b: u8) -> u8 {
    if 65 <= b <= 90 { (b + 32) as u8 } else { b }
}

/// The position of the last `.` of a file name, if any.
pub open spec fn last_dot(b: Seq<u8>) -> Option<int> {
    if exists|i: int| 0 <= i < b.len() && b[i] == 46u8 {
        Some(choose|i: int| 0 <= i < b.len() && b[i] == 46u8 && forall|j: int| i < j < b.len() ==> b[j] != 46u8)
    } else {
        None
    }
}

/// `Path::extension` of a file name: what follows its last dot, unless the name has no dot,
/// starts with its only dot, or is `..`.
pub open spec fn extension_of(name: Seq<u8>) -> Option<Seq<u8>> {
    if name == seq![46u8, 46u8] {
        None
    } else {
        match last_dot(name) {
            None => None,
            Some(i) => if i == 0 { None } else { Some(name.skip(i + 1)) },
        }
    }
}

/// Whether `b`, lowercased, is the ASCII text `target`.
pub open spec fn lower_eq(b: Seq<u8>, target: Seq<u8>) -> bool {
    b.len() == target.len() && forall|i: int| 0 <= i < b.len() ==> ascii_lower(#[trigger] b[i]) == target[i]
}

/// The language of a source file, by its extension, case-insensitively.
pub open spec fn language_spec(name: Seq<u8>) -> Option<Seq<char>> {
    match extension_of(name) {
        None => None,
        Some(e) => if lower_eq(e, utf8("rs"@)) {
            Some("rust"@)
        } else if lower_eq(e, utf8("py"@)) {
            Some("python"@)
        } else if lower_eq(e, utf8("ts"@)) || lower_eq(e, utf8("tsx"@)) {
            Some("typescript"@)
        } else if lower_eq(e, utf8("js"@)) || lower_eq(e, utf8("jsx"@)) {
            Some("javascript"@)
        } else if lower_eq(e, utf8("swift"@)) {
            Some("swift"@)
        } else if lower_eq(e, utf8("kt"@)) || lower_eq(e, utf8("kts"@)) {
            Some("kotlin"@)
        } else if lower_eq(e, utf8("go"@)) {
            Some("go"@)
        } else if lower_eq(e, utf8("cpp"@)) || lower_eq(e, utf8("cc"@)) || lower_eq(e, utf8("cxx"@)) || lower_eq(e, utf8("h"@))
            || lower_eq(e, utf8("hpp"@)) {
            Some("cpp"@)
        } else if lower_eq(e, utf8("cs"@)) {
            Some("csharp"@)
        } else {
            None
        },
    }
}

fn lower_eq_at(b: &[u8], start: usize, target: &str) -> (r: bool)
    requires
        start <= b@.len(),
    ensures
        r == lower_eq(b@.skip(start as int), utf8(target@)),
{
    let t = target.as_bytes();
    if b.len() - start != t.len() {
        return false;
    }
    let mut i: usize = 0;
    while i < t.len()
        invariant
            b@.len() - start == t@.len(),
            b@.len() == b.len(),
            t@ == utf8(target@),
            start <= b@.len(),
            i <= t@.len(),
            forall|j: int| 0 <= j < i ==> ascii_lower(#[trigger] b@.skip(start as int)[j]) == t@[j],
        decreases t@.len() - i,
    {
        let c = b[start + i];
        let lower: u8 = if 65 <= c && c <= 90 { c + 32 } else { c };
        assert(b@.skip(start as int)[i as int] == c);
        if lower != t[i] {
            return false;
        }
        i = i + 1;
    }
    true
}

/// The language of a source file, by the extension of its file name.
#[verifier::loop_isolation(false)]
pub fn language_for(file_name: &str) -> (r: Option<&'static str>)
    ensures
        match r {
            Some(l) => language_spec(utf8(file_name@)) == Some(l@),
            None => language_spec(utf8(file_name@)) is None,
        },
{
    proof {
        reveal_strlit("..");
        reveal_strlit("rs");
        reveal_strlit("py");
        reveal_strlit("ts");
        reveal_strlit("tsx");
        reveal_strlit("js");
        reveal_strlit("jsx");
        reveal_strlit("swift");
        reveal_strlit("kt");
        reveal_strlit("kts");
        reveal_strlit("go");
        reveal_strlit("cpp");
        reveal_strlit("cc");
        reveal_strlit("cxx");
        reveal_strlit("h");
        reveal_strlit("hpp");
        reveal_strlit("cs");
    }
    let b = file_name.as_bytes();
    if b.len() == 2 && b[0] == 46 && b[1] == 46 {
        assert(b@ =~= seq![46u8, 46u8]);
        return None;
    }
    assert(b@ != seq![46u8, 46u8]);
    let mut i: usize = b.len();
    while i > 0 && b[i - 1] != 46
        invariant
            i <= b@.len(),
            forall|j: int| i <= j < b@.len() ==> b@[j] != 46u8,
        decreases i,
    {
        i = i - 1;
    }
    if i == 0 {
        assert(!(exists|j: int| 0 <= j < b@.len() && b@[j] == 46u8));
        return None;
    }
    let dot = i - 1;
    proof {
        let k = choose|k: int| 0 <= k < b@.len() && b@[k] == 46u8 && forall|j: int| k < j < b@.len() ==> b@[j] != 46u8;
        if k < dot {
            assert(b@[dot as int] == 46u8);
        }
        if k > dot {
            assert(b@[k] != 46u8);
        }
        assert(last_dot(b@) == Some(dot as int));
    }
    if dot == 0 {
        return None;
    }
    let start = dot + 1;
    if lower_eq_at(b, start, "rs") {
        Some("rust")
    } else if lower_eq_at(b, start, "py") {
        Some("python")
    } else if lower_eq_at(b, start, "ts") || lower_eq_at(b, start, "tsx") {
        Some("typescript")
    } else if lower_eq_at(b, start, "js") || lower_eq_at(b, start, "jsx") {
        Some("javascript")
    } else if lower_eq_at(b, start, "swift") {
        Some("swift")
    } else if lower_eq_at(b, start, "kt") || lower_eq_at(b, start, "kts") {
        Some("kotlin")
    } else if lower_eq_at(b, start, "go") {
        Some("go")
    } else if lower_eq_at(b, start, "cpp") || lower_eq_at(b, start, "cc") || lower_eq_at(b, start, "cxx")
        || lower_eq_at(b, start, "h") || lower_eq_at(b, start, "hpp") {
        Some("cpp")
    } else if lower_eq_at(b, start, "cs") {
        Some("csharp")
    } else {
        None
    }
}

/// The toolchain a manifest file name declares.
pub open spec fn toolchain_spec(name: Seq<char>) -> Option<Seq<char>> {
    if name == "Cargo.toml"@ {
        Some("cargo"@)
    } else if name == "pyproject.toml"@ || name == "uv.lock"@ {
        Some("python-uv"@)
    } else if name == "package.json"@ || name == "pnpm-lock.yaml"@ {
        Some("node-pnpm"@)
    } else if name == "go.mod"@ {
        Some("go"@)
    } else if name == "Package.swift"@ {
        Some("swiftpm"@)
    } else if name == "build.gradle"@ || name == "build.gradle.kts"@ {
        Some("gradle"@)
    } else {
        None
    }
}

/// The toolchain a manifest declares, by its file name.
pub fn toolchain_for(file_name: &str) -> (r: Option<&'static str>)
    ensures
        match r {
            Some(t) => toolchain_spec(file_name@) == Some(t@),
            None => toolchain_spec(file_name@) is None,
        },
{
    if text_eq(file_name, "Cargo.toml") {
        Some("cargo")
    } else if text_eq(file_name, "pyproject.toml") || text_eq(file_name, "uv.lock") {
        Some("python-uv")
    } else if text_eq(file_name, "package.json") || text_eq(file_name, "pnpm-lock.yaml") {
        Some("node-pnpm")
    } else if text_eq(file_name, "go.mod") {
        Some("go")
    } else if text_eq(file_name, "Package.swift") {
        Some("swiftpm")
    } else if text_eq(file_name, "build.gradle") || text_eq(file_name, "build.gradle.kts") {
        Some("gradle")
    } else {
        None
    }
}

/// Directory and file names a discovery walk never enters: version control, dependency caches,
/// build outputs and the fabric's own state.
pub open spec fn skipped_name(name: Seq<char>) -> bool {
    name == ".git"@ || name == "node_modules"@ || name == "target"@ || name == ".venv"@ || name == "dist"@
        || name == "build"@ || name == ".rampage"@
}

/// Whether a walk includes an entry at `depth` with file name `name` (`None` where the name is
/// not UTF-8): the root always, anything else unless its name is skipped.
pub fn include_entry(depth: usize, name: Option<&str>) -> (r: bool)
    ensures
        r == (depth == 0 || match name {
            Some(n) => !skipped_name(n@),
            None => true,
        }),
{
    if depth == 0 {
        return true;
    }
    match name {
        Some(n) => !(text_eq(n, ".git") || text_eq(n, "node_modules") || text_eq(n, "target") || text_eq(n, ".venv")
            || text_eq(n, "dist") || text_eq(n, "build") || text_eq(n, ".rampage")),
        None => true,
    }
}

} // verus!
