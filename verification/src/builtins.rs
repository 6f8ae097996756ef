//! The types that the IDL knows by name.

use crate::text::str_eq;
use vstd::prelude::*;
use vstd::string::*;

verus! {

/// The paths under which the known types are found.
pub open spec fn builtin_prefixes() -> Seq<Seq<char>> {
    seq![
        "core::primitive::"@,
        "std::primitive::"@,
        "alloc::vec::"@,
        "std::vec::"@,
        "alloc::string::"@,
        "std::string::"@,
        "alloc::boxed::"@,
        "std::boxed::"@,
        "core::option::"@,
        "std::option::"@,
        "solana_pubkey::"@,
        "solana_program::pubkey::"@,
        "solana_address::"@,
        "pinocchio::address::"@,
        "anchor_lang::pod::"@,
        "anchor_lang::prelude::"@,
    ]
}

/// The text without the `::` that it starts with, however often.
pub open spec fn trimmed_colons(s: Seq<char>) -> Seq<char>
    decreases s.len(),
{
    if s.len() >= 2 && s[0] == ':' && s[1] == ':' {
        trimmed_colons(s.skip(2))
    } else {
        s
    }
}

pub open spec fn has_prefix(s: Seq<char>, prefix: Seq<char>) -> bool {
    prefix.len() <= s.len() && s.take(prefix.len() as int) == prefix
}

/// The text without the first of the prefixes that it starts with.
pub open spec fn stripped(s: Seq<char>, prefixes: Seq<Seq<char>>) -> Seq<char>
    decreases prefixes.len(),
{
    if prefixes.len() == 0 {
        s
    } else if has_prefix(s, prefixes[0]) {
        s.skip(prefixes[0].len() as int)
    } else {
        stripped(s, prefixes.drop_first())
    }
}

/// A type path without the module path that leads to a known type.
pub open spec fn normalized(s: Seq<char>) -> Seq<char> {
    stripped(trimmed_colons(s), builtin_prefixes())
}

fn starts_with(s: &str, prefix: &str) -> (yes: bool)
    ensures
        yes == has_prefix(s@, prefix@),
{
    let n: usize = prefix.unicode_len();
    if n > s.unicode_len() {
        return false;
    }
    let head = s.substring_char(0, n);
    assert(head@ =~= s@.take(n as int));
    str_eq(head, prefix)
}

/// Strips the leading `::` and the module path that leads to a known type.
pub fn normalize_builtin_path(ty: &str) -> (path: &str)
    ensures
        path@ == normalized(ty@),
{
    let n: usize = ty.unicode_len();
    let mut start: usize = 0;
    assert(ty@.skip(0) =~= ty@);
    while n - start >= 2 && ty.get_char(start) == ':' && ty.get_char(start + 1) == ':'
        invariant
            n == ty@.len(),
            start <= n,
            trimmed_colons(ty@.skip(start as int)) == trimmed_colons(ty@),
        decreases n - start,
    {
        proof {
            assert(ty@.skip(start as int).skip(2) =~= ty@.skip(start + 2));
        }
        start = start + 2;
    }
    let trimmed = ty.substring_char(start, n);
    assert(trimmed@ =~= ty@.skip(start as int));
    assert(trimmed@ == trimmed_colons(ty@));
    let prefixes: [&str; 16] = [
        "core::primitive::",
        "std::primitive::",
        "alloc::vec::",
        "std::vec::",
        "alloc::string::",
        "std::string::",
        "alloc::boxed::",
        "std::boxed::",
        "core::option::",
        "std::option::",
        "solana_pubkey::",
        "solana_program::pubkey::",
        "solana_address::",
        "pinocchio::address::",
        "anchor_lang::pod::",
        "anchor_lang::prelude::",
    ];
    let mut i: usize = 0;
    assert(builtin_prefixes().skip(0) =~= builtin_prefixes());
    assert(forall|k: int| 0 <= k < 16 ==> (#[trigger] prefixes@[k])@ == builtin_prefixes()[k]);
    while i < 16
        invariant
            i <= 16,
            prefixes@.len() == 16,
            trimmed@ == trimmed_colons(ty@),
            builtin_prefixes().len() == 16,
            forall|k: int| 0 <= k < 16 ==> (#[trigger] prefixes@[k])@ == builtin_prefixes()[k],
            stripped(trimmed@, builtin_prefixes().skip(i as int)) == stripped(
                trimmed@,
                builtin_prefixes(),
            ),
        decreases 16 - i,
    {
        let prefix: &str = prefixes[i];
        let ghost rest = builtin_prefixes().skip(i as int);
        proof {
            assert(rest[0] == prefix@);
            assert(rest.drop_first() =~= builtin_prefixes().skip(i + 1));
        }
        if starts_with(trimmed, prefix) {
            let end: usize = trimmed.unicode_len();
            let from: usize = prefix.unicode_len();
            let path = trimmed.substring_char(from, end);
            assert(path@ =~= trimmed@.skip(from as int));
            return path;
        }
        i = i + 1;
    }
    trimmed
}

/// The names that stand for themselves in the IDL.
pub open spec fn is_scalar(path: Seq<char>) -> bool {
    ||| path == "u8"@
    ||| path == "u16"@
    ||| path == "u32"@
    ||| path == "u64"@
    ||| path == "u128"@
    ||| path == "i8"@
    ||| path == "i16"@
    ||| path == "i32"@
    ||| path == "i64"@
    ||| path == "i128"@
    ||| path == "f32"@
    ||| path == "f64"@
    ||| path == "bool"@
}

pub(crate) fn check_scalar(path: &str) -> (yes: bool)
    ensures
        yes == is_scalar(path@),
{
    str_eq(path, "u8") || str_eq(path, "u16") || str_eq(path, "u32") || str_eq(path, "u64")
        || str_eq(path, "u128") || str_eq(path, "i8") || str_eq(path, "i16") || str_eq(path, "i32")
        || str_eq(path, "i64") || str_eq(path, "i128") || str_eq(path, "f32") || str_eq(path, "f64")
        || str_eq(path, "bool")
}

/// The scalar that a plain-old-data wrapper holds.
pub open spec fn pod_scalar(path: Seq<char>) -> Option<Seq<char>> {
    if path == "PodU16"@ {
        Some("u16"@)
    } else if path == "PodU32"@ {
        Some("u32"@)
    } else if path == "PodU64"@ {
        Some("u64"@)
    } else if path == "PodU128"@ {
        Some("u128"@)
    } else if path == "PodI16"@ {
        Some("i16"@)
    } else if path == "PodI32"@ {
        Some("i32"@)
    } else if path == "PodI64"@ {
        Some("i64"@)
    } else if path == "PodI128"@ {
        Some("i128"@)
    } else if path == "PodBool"@ {
        Some("bool"@)
    } else {
        None
    }
}

pub(crate) fn find_pod_scalar(path: &str) -> (name: Option<&'static str>)
    ensures
        name matches Some(s) ==> pod_scalar(path@) == Some(s@),
        name is None ==> pod_scalar(path@) is None,
{
    if str_eq(path, "PodU16") {
        Some("u16")
    } else if str_eq(path, "PodU32") {
        Some("u32")
    } else if str_eq(path, "PodU64") {
        Some("u64")
    } else if str_eq(path, "PodU128") {
        Some("u128")
    } else if str_eq(path, "PodI16") {
        Some("i16")
    } else if str_eq(path, "PodI32") {
        Some("i32")
    } else if str_eq(path, "PodI64") {
        Some("i64")
    } else if str_eq(path, "PodI128") {
        Some("i128")
    } else if str_eq(path, "PodBool") {
        Some("bool")
    } else {
        None
    }
}

pub open spec fn is_string(path: Seq<char>) -> bool {
    path == "String"@ || path == "string"@ || path == "str"@
}

pub open spec fn is_pubkey(path: Seq<char>) -> bool {
    path == "Pubkey"@ || path == "Address"@ || path == "pubkey"@
}

/// The names of the types that hold another type.
pub open spec fn is_container(path: Seq<char>) -> bool {
    path == "Vec"@ || path == "Option"@ || path == "Box"@
}

/// No name is both that of a container and that of a type without arguments.
pub proof fn lemma_containers_are_no_leaves(path: Seq<char>)
    ensures
        is_container(path) ==> !is_scalar(path) && pod_scalar(path) is None && !is_string(path)
            && !is_pubkey(path),
{
    reveal_strlit("Vec");
    reveal_strlit("Option");
    reveal_strlit("Box");
    reveal_strlit("u8");
    reveal_strlit("u16");
    reveal_strlit("u32");
    reveal_strlit("u64");
    reveal_strlit("u128");
    reveal_strlit("i8");
    reveal_strlit("i16");
    reveal_strlit("i32");
    reveal_strlit("i64");
    reveal_strlit("i128");
    reveal_strlit("f32");
    reveal_strlit("f64");
    reveal_strlit("bool");
    reveal_strlit("PodU16");
    reveal_strlit("PodU32");
    reveal_strlit("PodU64");
    reveal_strlit("PodU128");
    reveal_strlit("PodI16");
    reveal_strlit("PodI32");
    reveal_strlit("PodI64");
    reveal_strlit("PodI128");
    reveal_strlit("PodBool");
    reveal_strlit("String");
    reveal_strlit("string");
    reveal_strlit("str");
    reveal_strlit("Pubkey");
    reveal_strlit("Address");
    reveal_strlit("pubkey");
    if is_container(path) {
        assert(path[0] == 'V' || path[0] == 'O' || path[0] == 'B');
    }
}

// ---------------------------------------------------------------------------
// Laws
// ---------------------------------------------------------------------------

/// The characters by which the module paths differ.
proof fn lemma_prefix_chars()
    ensures
        builtin_prefixes().len() == 16,
        builtin_prefixes()[0].len() >= 10 && builtin_prefixes()[0][0] == 'c'
            && builtin_prefixes()[0][6] == 'p',
        builtin_prefixes()[1].len() >= 10 && builtin_prefixes()[1][0] == 's'
            && builtin_prefixes()[1][1] == 't' && builtin_prefixes()[1][5] == 'p',
        builtin_prefixes()[2].len() >= 10 && builtin_prefixes()[2][0] == 'a'
            && builtin_prefixes()[2][1] == 'l' && builtin_prefixes()[2][7] == 'v',
        builtin_prefixes()[3].len() >= 10 && builtin_prefixes()[3][0] == 's'
            && builtin_prefixes()[3][1] == 't' && builtin_prefixes()[3][5] == 'v',
        builtin_prefixes()[4].len() >= 10 && builtin_prefixes()[4][0] == 'a'
            && builtin_prefixes()[4][1] == 'l' && builtin_prefixes()[4][7] == 's',
        builtin_prefixes()[5].len() >= 10 && builtin_prefixes()[5][0] == 's'
            && builtin_prefixes()[5][1] == 't' && builtin_prefixes()[5][5] == 's',
        builtin_prefixes()[6].len() >= 10 && builtin_prefixes()[6][0] == 'a'
            && builtin_prefixes()[6][1] == 'l' && builtin_prefixes()[6][7] == 'b',
        builtin_prefixes()[7].len() >= 10 && builtin_prefixes()[7][0] == 's'
            && builtin_prefixes()[7][1] == 't' && builtin_prefixes()[7][5] == 'b',
        builtin_prefixes()[8].len() >= 10 && builtin_prefixes()[8][0] == 'c'
            && builtin_prefixes()[8][6] == 'o',
        builtin_prefixes()[9].len() >= 10 && builtin_prefixes()[9][0] == 's'
            && builtin_prefixes()[9][1] == 't' && builtin_prefixes()[9][5] == 'o',
        builtin_prefixes()[10].len() >= 10 && builtin_prefixes()[10][0] == 's'
            && builtin_prefixes()[10][1] == 'o' && builtin_prefixes()[10][7] == 'p'
            && builtin_prefixes()[10][8] == 'u',
        builtin_prefixes()[11].len() >= 10 && builtin_prefixes()[11][0] == 's'
            && builtin_prefixes()[11][1] == 'o' && builtin_prefixes()[11][7] == 'p'
            && builtin_prefixes()[11][8] == 'r',
        builtin_prefixes()[12].len() >= 10 && builtin_prefixes()[12][0] == 's'
            && builtin_prefixes()[12][1] == 'o' && builtin_prefixes()[12][7] == 'a',
        builtin_prefixes()[13].len() >= 10 && builtin_prefixes()[13][0] == 'p',
        builtin_prefixes()[14].len() >= 15 && builtin_prefixes()[14][0] == 'a'
            && builtin_prefixes()[14][1] == 'n' && builtin_prefixes()[14][14] == 'o',
        builtin_prefixes()[15].len() >= 15 && builtin_prefixes()[15][0] == 'a'
            && builtin_prefixes()[15][1] == 'n' && builtin_prefixes()[15][14] == 'r',
{
    reveal_strlit("core::primitive::");
    reveal_strlit("std::primitive::");
    reveal_strlit("alloc::vec::");
    reveal_strlit("std::vec::");
    reveal_strlit("alloc::string::");
    reveal_strlit("std::string::");
    reveal_strlit("alloc::boxed::");
    reveal_strlit("std::boxed::");
    reveal_strlit("core::option::");
    reveal_strlit("std::option::");
    reveal_strlit("solana_pubkey::");
    reveal_strlit("solana_program::pubkey::");
    reveal_strlit("solana_address::");
    reveal_strlit("pinocchio::address::");
    reveal_strlit("anchor_lang::pod::");
    reveal_strlit("anchor_lang::prelude::");
}

/// No text starts with two of the module paths.
proof fn lemma_prefixes_exclude_each_other(s: Seq<char>, j: int, k: int)
    requires
        0 <= j < k < 16,
        has_prefix(s, builtin_prefixes()[k]),
    ensures
        !has_prefix(s, builtin_prefixes()[j]),
{
    lemma_prefix_chars();
    let p = builtin_prefixes()[k];
    let q = builtin_prefixes()[j];
    assert forall|i: int| 0 <= i < p.len() implies s[i] == #[trigger] p[i] by {
        assert(s.take(p.len() as int)[i] == s[i]);
    }
    if has_prefix(s, q) {
        assert forall|i: int| 0 <= i < q.len() implies s[i] == #[trigger] q[i] by {
            assert(s.take(q.len() as int)[i] == s[i]);
        }
        assert(p[0] == q[0]);
        assert(p[1] == q[1]);
        assert(p[5] == q[5]);
        assert(p[6] == q[6]);
        assert(p[7] == q[7]);
        assert(p[8] == q[8]);
        if p.len() >= 15 && q.len() >= 15 {
            assert(p[14] == q[14]);
        }
    }
}

proof fn lemma_stripped_at(s: Seq<char>, prefixes: Seq<Seq<char>>, k: int)
    requires
        0 <= k < prefixes.len(),
        has_prefix(s, prefixes[k]),
        forall|j: int| 0 <= j < k ==> !has_prefix(s, #[trigger] prefixes[j]),
    ensures
        stripped(s, prefixes) == s.skip(prefixes[k].len() as int),
    decreases prefixes.len(),
{
    if k > 0 {
        let rest = prefixes.drop_first();
        assert(!has_prefix(s, prefixes[0]));
        assert forall|j: int| 0 <= j < k - 1 implies !has_prefix(s, #[trigger] rest[j]) by {
            assert(rest[j] == prefixes[j + 1]);
        }
        assert(rest[k - 1] == prefixes[k]);
        lemma_stripped_at(s, rest, k - 1);
    }
}

/// A name behind one of the known module paths means what the name alone
/// means.
pub proof fn law_builtin_prefixes_are_stripped(k: int, name: Seq<char>)
    requires
        0 <= k < builtin_prefixes().len(),
    ensures
        normalized(builtin_prefixes()[k] + name) == name,
{
    let prefix = builtin_prefixes()[k];
    let s = prefix + name;
    lemma_prefix_chars();
    assert(s[0] == prefix[0]);
    assert(s[0] != ':');
    assert(trimmed_colons(s) == s);
    assert(s.take(prefix.len() as int) =~= prefix);
    assert forall|j: int| 0 <= j < k implies !has_prefix(s, #[trigger] builtin_prefixes()[j]) by {
        lemma_prefixes_exclude_each_other(s, j, k);
    }
    lemma_stripped_at(s, builtin_prefixes(), k);
    assert(s.skip(prefix.len() as int) =~= name);
}

/// A leading `::` does not matter.
pub proof fn law_leading_colons_do_not_matter(s: Seq<char>)
    ensures
        normalized("::"@ + s) == normalized(s),
{
    reveal_strlit("::");
    assert(("::"@ + s).skip(2) =~= s);
}

} // verus!
