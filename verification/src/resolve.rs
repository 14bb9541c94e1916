//! The build-directory resolver: the base directory joined with
//! `{base_name}-{hash}`, where the base name comes from the normalizer and
//! the hash is the FNV-1 fingerprint of the original, un-normalized path
//! string, rendered in decimal with no padding.

use crate::errors::LauncherError;
use crate::hash::{fnv1_of, hash_path};
use crate::paths::{base_name, base_name_ok, is_sep, spec_base_name};
use crate::text::{
    decimal_digits, lemma_decimal_digits_are_digits, lemma_decimal_digits_injective,
    u64_to_decimal,
};
use vstd::prelude::*;
use vstd::string::*;
use vstd::utf8::encode_utf8;

verus! {

/// The isolated directory name for a project path: its base name, a dash,
/// and the decimal FNV-1 fingerprint of the whole path.
pub open spec fn spec_hashed_dir(p: Seq<char>) -> Seq<char> {
    spec_base_name(p) + seq!['-'] + decimal_digits(fnv1_of(encode_utf8(p)) as nat)
}

/// Joining a directory and an entry name: a `/` is put between them unless
/// the directory is empty or already ends in a separator.
pub open spec fn spec_join(b: Seq<char>, l: Seq<char>) -> Seq<char> {
    if b.len() == 0 {
        l
    } else if is_sep(b[b.len() - 1]) {
        b + l
    } else {
        b + seq!['/'] + l
    }
}

/// The directory part of a path: everything before the last separator,
/// empty when the path has none.
pub open spec fn spec_parent(s: Seq<char>) -> Seq<char>
    decreases s.len(),
{
    if s.len() == 0 {
        s
    } else if is_sep(s[s.len() - 1]) {
        s.drop_last()
    } else {
        spec_parent(s.drop_last())
    }
}

/// The build directory for a project path under a base directory.
pub open spec fn spec_resolve(p: Seq<char>, base: Seq<char>) -> Seq<char> {
    spec_join(base, spec_hashed_dir(p))
}

/// Whether `s` holds no separator.
pub open spec fn no_sep(s: Seq<char>) -> bool {
    forall|k: int| 0 <= k < s.len() ==> !is_sep(#[trigger] s[k])
}

/// Produces `{base_name}-{hash}` for a project path.
pub fn get_hashed_dir(dir: &str) -> (r: Result<String, LauncherError>)
    ensures
        r is Ok <==> base_name_ok(dir@),
        r matches Ok(b) ==> b@ == spec_hashed_dir(dir@),
        r is Err ==> r == Err::<String, LauncherError>(LauncherError::InvalidPath),
{
    let mut out = match base_name(dir) {
        Ok(b) => b,
        Err(e) => {
            return Err(e);
        },
    };
    let h = hash_path(dir);
    let dec = u64_to_decimal(h);
    proof {
        reveal_strlit("-");
        assert("-"@ =~= seq!['-']);
    }
    out.append("-");
    out.append(dec.as_str());
    proof {
        assert(out@ =~= spec_hashed_dir(dir@));
    }
    Ok(out)
}

/// Whether `c` separates path components.
fn is_sep_char(c: char) -> (r: bool)
    ensures
        r == is_sep(c),
{
    c == '/' || c == '\\'
}

/// Joins a directory and an entry name.
pub fn join_dir(base: &str, leaf: &str) -> (r: String)
    ensures
        r@ == spec_join(base@, leaf@),
{
    let n = base.unicode_len();
    if n == 0 {
        return String::from_str(leaf);
    }
    let mut out = String::from_str(base);
    if !is_sep_char(base.get_char(n - 1)) {
        proof {
            reveal_strlit("/");
            assert("/"@ =~= seq!['/']);
        }
        out.append("/");
        out.append(leaf);
        proof {
            assert(out@ =~= spec_join(base@, leaf@));
        }
        out
    } else {
        out.append(leaf);
        out
    }
}

/// Returns the directory part of a path: everything before the last
/// separator, or the empty string when the path has none.
pub fn parent_dir(s: &str) -> (r: String)
    ensures
        r@ == spec_parent(s@),
{
    let n = s.unicode_len();
    let mut j: usize = n;
    proof {
        assert(s@.take(n as int) =~= s@);
    }
    while j > 0 && !is_sep_char(s.get_char(j - 1))
        invariant
            0 <= j <= n,
            n == s@.len(),
            spec_parent(s@) == spec_parent(s@.take(j as int)),
        decreases j,
    {
        proof {
            let pre = s@.take(j as int);
            assert(pre[pre.len() - 1] == s@[j - 1]);
            assert(pre.drop_last() =~= s@.take(j as int - 1));
        }
        j = j - 1;
    }
    if j == 0 {
        proof {
            assert(s@.take(0) =~= Seq::<char>::empty());
        }
        String::new()
    } else {
        proof {
            let pre = s@.take(j as int);
            assert(pre[pre.len() - 1] == s@[j - 1]);
            assert(pre.drop_last() =~= s@.take(j as int - 1));
            assert(s@.subrange(0, j as int - 1) =~= s@.take(j as int - 1));
        }
        String::from_str(s.substring_char(0, j - 1))
    }
}

/// Resolves the isolated build directory for `dir` under `base`.
pub fn resolve_build_dir(dir: &str, base: &str) -> (r: Result<String, LauncherError>)
    ensures
        r is Ok <==> base_name_ok(dir@),
        r matches Ok(b) ==> b@ == spec_resolve(dir@, base@),
        r is Err ==> r == Err::<String, LauncherError>(LauncherError::InvalidPath),
{
    let leaf = match get_hashed_dir(dir) {
        Ok(b) => b,
        Err(e) => {
            return Err(e);
        },
    };
    Ok(join_dir(base, leaf.as_str()))
}

/// A path without separators has no directory part.
proof fn lemma_parent_of_no_sep(y: Seq<char>)
    requires
        no_sep(y),
    ensures
        spec_parent(y) == Seq::<char>::empty(),
    decreases y.len(),
{
    if y.len() == 0 {
        assert(y =~= Seq::<char>::empty());
    } else {
        assert(!is_sep(y[y.len() - 1]));
        assert(forall|k: int| 0 <= k < y.drop_last().len() ==> !is_sep(#[trigger] y.drop_last()[k]));
        lemma_parent_of_no_sep(y.drop_last());
    }
}

/// The directory part of `x`, a separator, then a separator-free tail, is
/// exactly `x`.
proof fn lemma_parent_after_sep(x: Seq<char>, c: char, y: Seq<char>)
    requires
        is_sep(c),
        no_sep(y),
    ensures
        spec_parent(x + seq![c] + y) == x,
    decreases y.len(),
{
    let s = x + seq![c] + y;
    if y.len() == 0 {
        assert(s[s.len() - 1] == c);
        assert(s.drop_last() =~= x);
    } else {
        assert(s[s.len() - 1] == y[y.len() - 1]);
        assert(!is_sep(s[s.len() - 1]));
        assert(s.drop_last() =~= x + seq![c] + y.drop_last());
        assert(forall|k: int| 0 <= k < y.drop_last().len() ==> !is_sep(#[trigger] y.drop_last()[k]));
        lemma_parent_after_sep(x, c, y.drop_last());
    }
}

/// The resolved directory name holds no separator when the base name
/// holds none: the dash and decimal digits never separate.
proof fn lemma_hashed_dir_no_sep(p: Seq<char>)
    requires
        no_sep(spec_base_name(p)),
    ensures
        no_sep(spec_hashed_dir(p)),
        spec_hashed_dir(p).len() > 0,
{
    let bn = spec_base_name(p);
    let digits = decimal_digits(fnv1_of(encode_utf8(p)) as nat);
    lemma_decimal_digits_are_digits(fnv1_of(encode_utf8(p)) as nat);
    let s = spec_hashed_dir(p);
    assert forall|k: int| 0 <= k < s.len() implies !is_sep(#[trigger] s[k]) by {
        if k < bn.len() {
            assert(s[k] == bn[k]);
        } else if k < bn.len() + 1 {
            assert(s[k] == '-');
        } else {
            assert(s[k] == digits[k - bn.len() - 1]);
            assert('0' <= digits[k - bn.len() - 1] && digits[k - bn.len() - 1] <= '9');
        }
    }
}

/// Two project paths with the same base name but different fingerprints
/// resolve to different build directories under any one base: the hash
/// covers the full path, so leaf-name collisions never collide.
pub proof fn lemma_resolve_distinct(p1: Seq<char>, p2: Seq<char>, base: Seq<char>)
    requires
        spec_base_name(p1) == spec_base_name(p2),
        fnv1_of(encode_utf8(p1)) != fnv1_of(encode_utf8(p2)),
    ensures
        spec_resolve(p1, base) != spec_resolve(p2, base),
{
    let bn = spec_base_name(p1);
    let d1 = decimal_digits(fnv1_of(encode_utf8(p1)) as nat);
    let d2 = decimal_digits(fnv1_of(encode_utf8(p2)) as nat);
    lemma_decimal_digits_injective(
        fnv1_of(encode_utf8(p1)) as nat,
        fnv1_of(encode_utf8(p2)) as nat,
    );
    let l1 = spec_hashed_dir(p1);
    let l2 = spec_hashed_dir(p2);
    assert(l1 == bn + seq!['-'] + d1);
    assert(l2 == bn + seq!['-'] + d2);
    assert(l1 != l2) by {
        if l1 == l2 {
            assert(d1 =~= l1.skip(bn.len() as int + 1));
            assert(d2 =~= l2.skip(bn.len() as int + 1));
            assert(false);
        }
    }
    if spec_resolve(p1, base) == spec_resolve(p2, base) {
        if base.len() == 0 {
            assert(l1 == l2);
        } else if is_sep(base[base.len() - 1]) {
            assert(l1 =~= (base + l1).skip(base.len() as int));
            assert(l2 =~= (base + l2).skip(base.len() as int));
        } else {
            assert(l1 =~= (base + seq!['/'] + l1).skip(base.len() as int + 1));
            assert(l2 =~= (base + seq!['/'] + l2).skip(base.len() as int + 1));
        }
        assert(false);
    }
}

/// Round trip: the directory part of a resolved build directory is the
/// base directory it was resolved under, whenever the base does not end in
/// a separator and the project's base name holds none.
pub proof fn lemma_resolve_round_trip(p: Seq<char>, base: Seq<char>)
    requires
        base_name_ok(p),
        no_sep(spec_base_name(p)),
        base.len() > 0 ==> !is_sep(base[base.len() - 1]),
    ensures
        spec_parent(spec_resolve(p, base)) == base,
{
    let leaf = spec_hashed_dir(p);
    lemma_hashed_dir_no_sep(p);
    if base.len() == 0 {
        assert(spec_resolve(p, base) == leaf);
        lemma_parent_of_no_sep(leaf);
        assert(spec_parent(leaf) =~= base);
    } else {
        assert(spec_resolve(p, base) == base + seq!['/'] + leaf);
        lemma_parent_after_sep(base, '/', leaf);
    }
}

} // verus!
