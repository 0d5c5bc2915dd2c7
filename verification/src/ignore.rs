//! The fixed set of directory and file names that the exporter leaves out
//! of both content and history, tested segment by segment against each
//! path, never by substring.

use crate::strutil::{lemma_split_sep_append, lemma_split_sep_len, lemma_split_sep_none, split_path, str_eq};
use vstd::prelude::*;

verus! {

/// True when `name` is one of the ignored directory or file names.
pub open spec fn spec_is_ignored(name: Seq<char>) -> bool {
    ||| name == ".astro"@
    ||| name == ".cache"@
    ||| name == ".config"@
    ||| name == ".deno"@
    ||| name == ".DS_Store"@
    ||| name == ".next"@
    ||| name == ".pnp"@
    ||| name == ".pnp.js"@
    ||| name == ".pythonlibs"@
    ||| name == ".svelte-kit"@
    ||| name == ".venv"@
    ||| name == ".vercel"@
    ||| name == "__MACOSX"@
    ||| name == "__pycache__"@
    ||| name == "build"@
    ||| name == "coverage"@
    ||| name == "dist"@
    ||| name == "node_modules"@
    ||| name == "out"@
    ||| name == "package-lock.json"@
    ||| name == "pnpm-lock.yaml"@
    ||| name == "target"@
    ||| name == "tmp"@
    ||| name == "vendor"@
    ||| name == "venv"@
    ||| name == "yarn.lock"@
    ||| name == "zig-cache"@
    ||| name == "zig-out"@
}

/// Whether one path segment is in the ignore set.
pub fn is_ignored_name(name: &str) -> (r: bool)
    ensures
        r == spec_is_ignored(name@),
{
    str_eq(name, ".astro") || str_eq(name, ".cache") || str_eq(name, ".config") || str_eq(
        name,
        ".deno",
    ) || str_eq(name, ".DS_Store") || str_eq(name, ".next") || str_eq(name, ".pnp") || str_eq(
        name,
        ".pnp.js",
    ) || str_eq(name, ".pythonlibs") || str_eq(name, ".svelte-kit") || str_eq(name, ".venv")
        || str_eq(name, ".vercel") || str_eq(name, "__MACOSX") || str_eq(name, "__pycache__")
        || str_eq(name, "build") || str_eq(name, "coverage") || str_eq(name, "dist") || str_eq(
        name,
        "node_modules",
    ) || str_eq(name, "out") || str_eq(name, "package-lock.json") || str_eq(
        name,
        "pnpm-lock.yaml",
    ) || str_eq(name, "target") || str_eq(name, "tmp") || str_eq(name, "vendor") || str_eq(
        name,
        "venv",
    ) || str_eq(name, "yarn.lock") || str_eq(name, "zig-cache") || str_eq(name, "zig-out")
}

/// True when any segment of the path is in the ignore set.
pub open spec fn spec_path_ignored(path: Seq<char>) -> bool {
    exists|k: int|
        0 <= k < split_path(path).len() && spec_is_ignored(#[trigger] split_path(path)[k])
}

/// A path with no separator is its own single segment.
pub proof fn lemma_split_no_slash(s: Seq<char>)
    requires
        forall|j: int| 0 <= j < s.len() ==> s[j] != '/',
    ensures
        split_path(s) == seq![s],
{
    lemma_split_sep_none(s, '/');
}

/// Whether any segment of a `/`-separated relative path is ignored.
/// A path is scanned up to its first separator, then the rest in turn.
pub fn path_ignored(path: &str) -> (r: bool)
    ensures
        r == spec_path_ignored(path@),
    decreases path@.len(),
{
    let n = path.unicode_len();
    let mut k: usize = 0;
    while k < n && path.get_char(k) != '/'
        invariant
            0 <= k <= n,
            n == path@.len(),
            forall|j: int| 0 <= j < k ==> path@[j] != '/',
        decreases n - k,
    {
        k = k + 1;
    }
    if k == n {
        proof {
            lemma_split_no_slash(path@);
        }
        let r = is_ignored_name(path);
        proof {
            assert(split_path(path@) == seq![path@]);
            if r {
                assert(spec_is_ignored(split_path(path@)[0]));
            }
        }
        r
    } else {
        let head = path.substring_char(0, k);
        let tail = path.substring_char(k + 1, n);
        proof {
            assert(head@ =~= path@.take(k as int));
            assert(tail@ =~= path@.skip(k as int + 1));
            assert(path@ =~= path@.take(k as int) + seq!['/'] + path@.skip(k as int + 1));
            lemma_split_sep_append(path@.take(k as int), path@.skip(k as int + 1), '/');
            lemma_split_no_slash(path@.take(k as int));
            lemma_split_sep_len(path@.skip(k as int + 1), '/');
        }
        let ghost segs = split_path(path@);
        let ghost tailsegs = split_path(path@.skip(k as int + 1));
        proof {
            assert(segs =~= seq![path@.take(k as int)] + tailsegs);
        }
        let hit_head = is_ignored_name(head);
        let hit_tail = path_ignored(tail);
        proof {
            if hit_head {
                assert(segs[0] == head@);
                assert(spec_is_ignored(segs[0]));
            }
            if hit_tail {
                let j = choose|j: int|
                    0 <= j < tailsegs.len() && spec_is_ignored(#[trigger] tailsegs[j]);
                assert(segs[j + 1] == tailsegs[j]);
                assert(spec_is_ignored(segs[j + 1]));
            }
            if !hit_head && !hit_tail {
                assert forall|j: int|
                    0 <= j < segs.len() implies !spec_is_ignored(#[trigger] segs[j]) by {
                    if j == 0 {
                        assert(segs[0] == head@);
                    } else {
                        assert(segs[j] == tailsegs[j - 1]);
                    }
                }
            }
        }
        hit_head || hit_tail
    }
}

/// The root path, written as the empty string, is never ignored.
pub proof fn lemma_empty_not_ignored()
    ensures
        !spec_path_ignored(Seq::<char>::empty()),
{
    reveal_strlit(".astro");
    reveal_strlit(".cache");
    reveal_strlit(".config");
    reveal_strlit(".deno");
    reveal_strlit(".DS_Store");
    reveal_strlit(".next");
    reveal_strlit(".pnp");
    reveal_strlit(".pnp.js");
    reveal_strlit(".pythonlibs");
    reveal_strlit(".svelte-kit");
    reveal_strlit(".venv");
    reveal_strlit(".vercel");
    reveal_strlit("__MACOSX");
    reveal_strlit("__pycache__");
    reveal_strlit("build");
    reveal_strlit("coverage");
    reveal_strlit("dist");
    reveal_strlit("node_modules");
    reveal_strlit("out");
    reveal_strlit("package-lock.json");
    reveal_strlit("pnpm-lock.yaml");
    reveal_strlit("target");
    reveal_strlit("tmp");
    reveal_strlit("vendor");
    reveal_strlit("venv");
    reveal_strlit("yarn.lock");
    reveal_strlit("zig-cache");
    reveal_strlit("zig-out");
    let e = Seq::<char>::empty();
    assert(split_path(e) =~~= seq![e]);
    assert(!spec_is_ignored(e));
    assert(forall|k: int|
        0 <= k < split_path(e).len() ==> !spec_is_ignored(#[trigger] split_path(e)[k]));
}

/// Everything below an ignored path keeps the ignored segment: joining
/// more components onto it can never make it clean again.
pub proof fn lemma_descendant_of_ignored(parent: Seq<char>, rest: Seq<char>)
    requires
        spec_path_ignored(parent),
    ensures
        spec_path_ignored(parent + seq!['/'] + rest),
{
    lemma_split_sep_append(parent, rest, '/');
    let j = choose|j: int|
        0 <= j < split_path(parent).len() && spec_is_ignored(#[trigger] split_path(parent)[j]);
    assert(split_path(parent + seq!['/'] + rest)[j] == split_path(parent)[j]);
}

} // verus!
