//! Per-target linker extras for a static ncnn build (never libgomp).
use vstd::prelude::*;
use vstd::string::*;

verus! {

/// One extra library to link: `kind` is `dylib` or empty, `name` the library.
#[derive(Clone, Copy, Debug, PartialEq, Eq)]
pub struct NcnnExtraLib {
    /// `dylib` → `cargo:rustc-link-lib=dylib=NAME`; empty → `cargo:rustc-link-lib=NAME`.
    pub kind: &'static str,
    pub name: &'static str,
}

/// The static ncnn archive to link and the extra libraries it needs.
#[derive(Clone, Copy, Debug, PartialEq, Eq)]
pub struct NcnnLinkSpec {
    /// Filename cmake produces (`libncnn.a` or `ncnn.lib`).
    pub lib_filename: &'static str,
    pub extra_libs: &'static [NcnnExtraLib],
}

/// `needle` occurs in `hay` as a contiguous run of characters.
pub open spec fn seq_contains(hay: Seq<char>, needle: Seq<char>) -> bool {
    exists|i: int| 0 <= i <= hay.len() - needle.len() && #[trigger] hay.subrange(i, i + needle.len()) == needle
}

/// Which link family a target triple falls in.
pub enum LinkFamily {
    WindowsGnu,
    WindowsMsvc,
    Apple,
    Unix,
}

/// The link family of a target triple: Windows with the GNU toolchain,
/// Windows with MSVC, Apple, or any other (Unix-like) target.
pub open spec fn link_family(target: Seq<char>) -> LinkFamily {
    if seq_contains(target, "windows"@) {
        if seq_contains(target, "gnu"@) {
            LinkFamily::WindowsGnu
        } else {
            LinkFamily::WindowsMsvc
        }
    } else if seq_contains(target, "apple"@) {
        LinkFamily::Apple
    } else {
        LinkFamily::Unix
    }
}

/// A link spec as characters: the archive name and the `(kind, name)` pairs.
pub open spec fn link_spec_view(s: NcnnLinkSpec) -> (Seq<char>, Seq<(Seq<char>, Seq<char>)>) {
    (s.lib_filename@, s.extra_libs@.map_values(|l: NcnnExtraLib| (l.kind@, l.name@)))
}

/// The link spec each target family gets.
pub open spec fn link_spec_for(target: Seq<char>) -> (Seq<char>, Seq<(Seq<char>, Seq<char>)>) {
    match link_family(target) {
        LinkFamily::WindowsGnu => ("libncnn.a"@, seq![("dylib"@, "stdc++"@)]),
        LinkFamily::WindowsMsvc => ("ncnn.lib"@, Seq::empty()),
        LinkFamily::Apple => ("libncnn.a"@, seq![("dylib"@, "c++"@)]),
        LinkFamily::Unix => ("libncnn.a"@, seq![(""@, "pthread"@), ("dylib"@, "stdc++"@)]),
    }
}

/// `str::contains` with a string pattern: the pattern occurs in `hay`.
pub fn str_contains(hay: &str, needle: &str) -> (r: bool)
    ensures
        r == seq_contains(hay@, needle@),
{
    let n = hay.unicode_len();
    let m = needle.unicode_len();
    if m > n {
        assert forall|i: int| 0 <= i <= hay@.len() - needle@.len() implies
            #[trigger] hay@.subrange(i, i + needle@.len()) != needle@ by {}
        return false;
    }
    let mut i: usize = 0;
    while i <= n - m
        invariant
            n == hay@.len(),
            m == needle@.len(),
            m <= n,
            i <= n - m + 1,
            forall|k: int| 0 <= k < i ==> #[trigger] hay@.subrange(k, k + m) != needle@,
        decreases n - m + 1 - i,
    {
        let mut j: usize = 0;
        let mut same = true;
        while j < m
            invariant
                n == hay@.len(),
                m == needle@.len(),
                i + m <= n,
                j <= m,
                same == (forall|t: int| 0 <= t < j ==> hay@[i + t] == needle@[t]),
            decreases m - j,
        {
            if hay.get_char(i + j) != needle.get_char(j) {
                same = false;
            }
            j = j + 1;
        }
        if same {
            assert(hay@.subrange(i as int, i + m) =~= needle@);
            return true;
        }
        assert(hay@.subrange(i as int, i + m)[0] == hay@[i as int + 0]);
        proof {
            let t = choose|t: int| 0 <= t < m && hay@[i + t] != needle@[t];
            assert(hay@.subrange(i as int, i + m)[t] != needle@[t]);
        }
        i = i + 1;
    }
    false
}

/// Linker extras for a static ncnn build on `target` (a Rust target triple).
pub fn ncnn_link_spec(target: &str) -> (s: NcnnLinkSpec)
    ensures
        link_spec_view(s) == link_spec_for(target@),
{
    proof {
        reveal_strlit("windows");
        reveal_strlit("gnu");
        reveal_strlit("apple");
    }
    let s = if str_contains(target, "windows") {
        if str_contains(target, "gnu") {
            NcnnLinkSpec { lib_filename: "libncnn.a", extra_libs: &[NcnnExtraLib { kind: "dylib", name: "stdc++" }] }
        } else {
            NcnnLinkSpec { lib_filename: "ncnn.lib", extra_libs: &[] }
        }
    } else if str_contains(target, "apple") {
        NcnnLinkSpec { lib_filename: "libncnn.a", extra_libs: &[NcnnExtraLib { kind: "dylib", name: "c++" }] }
    } else {
        NcnnLinkSpec {
            lib_filename: "libncnn.a",
            extra_libs: &[NcnnExtraLib { kind: "", name: "pthread" }, NcnnExtraLib { kind: "dylib", name: "stdc++" }],
        }
    };
    assert(link_spec_view(s).1 =~= link_spec_for(target@).1);
    s
}

/// No target links libgomp: static ncnn is built without OpenMP.
pub proof fn lemma_never_links_gomp(target: Seq<char>, i: int)
    requires
        0 <= i < link_spec_for(target).1.len(),
    ensures
        link_spec_for(target).1[i].1 != "gomp"@,
{
    reveal_strlit("gomp");
    reveal_strlit("stdc++");
    reveal_strlit("c++");
    reveal_strlit("pthread");
    assert("gomp"@.len() == 4);
    assert("stdc++"@.len() == 6);
    assert("c++"@.len() == 3);
    assert("pthread"@.len() == 7);
    let libs = link_spec_for(target).1;
    match link_family(target) {
        LinkFamily::WindowsGnu => assert(libs[i].1 == "stdc++"@),
        LinkFamily::WindowsMsvc => {},
        LinkFamily::Apple => assert(libs[i].1 == "c++"@),
        LinkFamily::Unix => assert(libs[i].1 == "pthread"@ || libs[i].1 == "stdc++"@),
    }
}

/// Every target links the C++ runtime except Windows MSVC, which takes
/// `ncnn.lib` alone; Unix-like targets also link pthread.
pub proof fn lemma_runtime_libs(target: Seq<char>)
    ensures
        link_family(target) is WindowsMsvc <==> link_spec_for(target).1.len() == 0,
        link_family(target) is WindowsMsvc <==> link_spec_for(target).0 == "ncnn.lib"@,
        link_family(target) is Unix ==> link_spec_for(target).1.contains((""@, "pthread"@))
            && link_spec_for(target).1.contains(("dylib"@, "stdc++"@)),
{
    reveal_strlit("libncnn.a");
    reveal_strlit("ncnn.lib");
    assert("libncnn.a"@.len() == 9);
    assert("ncnn.lib"@.len() == 8);
    if link_family(target) is Unix {
        assert(link_spec_for(target).1[0] == (""@, "pthread"@));
        assert(link_spec_for(target).1[1] == ("dylib"@, "stdc++"@));
    }
}

} // verus!
