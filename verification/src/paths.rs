//! The path normalizer: extracting a stable, human-readable base name from
//! a project path.
//!
//! The library reads paths by its own documented grammar, a POSIX shape
//! with drive letters: `/` and `\` separate components; a leading ASCII
//! letter followed by `:` is a drive prefix component; a separator right
//! after the prefix (or at the start) is a root component; the remaining
//! components are the maximal runs of non-separator characters, with a `.`
//! component dropped everywhere but at the very start of a prefix-less,
//! root-less path.
//!
//! A path of at most two components is drive-root-like (`C:`, `C:\`, `/`):
//! its base name is the first component with trailing colons stripped, so
//! the result is filesystem-safe. A longer path's base name is its final
//! component, the leaf name. A leaf of `..` cannot name a directory and is
//! rejected as an invalid path.

use crate::errors::LauncherError;
use crate::text::str_eq;
use vstd::prelude::*;
use vstd::string::*;

verus! {

/// Whether `c` separates path components.
pub open spec fn is_sep(c: char) -> bool {
    c == '/' || c == '\\'
}

/// Whether `c` is an ASCII letter, as a drive prefix requires.
pub open spec fn is_ascii_alpha(c: char) -> bool {
    ('a' <= c && c <= 'z') || ('A' <= c && c <= 'Z')
}

/// The one-character `.` component.
pub open spec fn dot_component() -> Seq<char> {
    seq!['.']
}

/// The two-character `..` component, a parent-directory reference.
pub open spec fn parent_component() -> Seq<char> {
    seq!['.', '.']
}

/// Whether the path string ends in a parent-directory reference.
pub open spec fn ends_with_dotdot(s: Seq<char>) -> bool {
    s.len() >= 2 && s[s.len() - 2] == '.' && s[s.len() - 1] == '.'
}

/// Whether the path starts with a drive prefix such as `C:`.
pub open spec fn has_drive(s: Seq<char>) -> bool {
    s.len() >= 2 && is_ascii_alpha(s[0]) && s[1] == ':'
}

/// Where the path's body starts, past any drive prefix.
pub open spec fn body_start(s: Seq<char>) -> int {
    if has_drive(s) {
        2
    } else {
        0
    }
}

/// Whether the path has a root component: a separator right after the
/// drive prefix, or at the start when there is no prefix.
pub open spec fn has_root(s: Seq<char>) -> bool {
    body_start(s) < s.len() && is_sep(s[body_start(s)])
}

/// A finished chunk: kept only when it holds at least one character.
pub open spec fn emit(cur: Seq<char>) -> Seq<Seq<char>> {
    if cur.len() == 0 {
        Seq::empty()
    } else {
        seq![cur]
    }
}

/// The maximal runs of non-separator characters of `s`, read left to
/// right with `cur` as the run in progress.
pub open spec fn chunks_from(s: Seq<char>, cur: Seq<char>) -> Seq<Seq<char>>
    decreases s.len(),
{
    if s.len() == 0 {
        emit(cur)
    } else if is_sep(s[0]) {
        emit(cur) + chunks_from(s.drop_first(), Seq::empty())
    } else {
        chunks_from(s.drop_first(), cur.push(s[0]))
    }
}

/// The maximal runs of non-separator characters of `s`.
pub open spec fn chunks(s: Seq<char>) -> Seq<Seq<char>> {
    chunks_from(s, Seq::empty())
}

/// `cs` without its `.` elements.
pub open spec fn nondot_filter(cs: Seq<Seq<char>>) -> Seq<Seq<char>>
    decreases cs.len(),
{
    if cs.len() == 0 {
        Seq::empty()
    } else if cs[0] == dot_component() {
        nondot_filter(cs.drop_first())
    } else {
        seq![cs[0]] + nondot_filter(cs.drop_first())
    }
}

/// The chunk components the path keeps: every non-`.` chunk, plus a
/// leading `.` chunk when the path has neither drive prefix nor root.
pub open spec fn kept_chunks(s: Seq<char>) -> Seq<Seq<char>> {
    let cs = chunks(s.skip(body_start(s)));
    if !has_drive(s) && !has_root(s) && cs.len() > 0 && cs[0] == dot_component() {
        seq![cs[0]] + nondot_filter(cs.drop_first())
    } else {
        nondot_filter(cs)
    }
}

/// The component list of a path: drive prefix, root, then the kept chunks.
pub open spec fn components(s: Seq<char>) -> Seq<Seq<char>> {
    let drive = if has_drive(s) {
        seq![s.subrange(0, 2)]
    } else {
        Seq::<Seq<char>>::empty()
    };
    let root = if has_root(s) {
        seq![seq![s[body_start(s)]]]
    } else {
        Seq::<Seq<char>>::empty()
    };
    drive + root + kept_chunks(s)
}

/// `t` without its trailing colons.
pub open spec fn strip_trailing_colons(t: Seq<char>) -> Seq<char>
    decreases t.len(),
{
    if t.len() > 0 && t[t.len() - 1] == ':' {
        strip_trailing_colons(t.drop_last())
    } else {
        t
    }
}

/// Whether the normalizer accepts `s`: non-empty, not ending in a
/// parent-directory reference, and, when long enough to take its leaf as
/// the base name, not a path whose leaf is a parent-directory reference.
pub open spec fn base_name_ok(s: Seq<char>) -> bool {
    &&& s.len() > 0
    &&& !ends_with_dotdot(s)
    &&& !(components(s).len() > 2 && components(s).last() == parent_component())
}

/// The base name of an accepted path: the first component with trailing
/// colons stripped when the path is drive-root-like, else the leaf.
pub open spec fn spec_base_name(s: Seq<char>) -> Seq<char> {
    if components(s).len() <= 2 {
        strip_trailing_colons(components(s)[0])
    } else {
        components(s).last()
    }
}

/// The character views of a vector of strings.
pub open spec fn views(ts: Seq<String>) -> Seq<Seq<char>> {
    ts.map_values(|t: String| t@)
}

/// Every chunk holds at least one character.
pub proof fn lemma_chunks_from_elems_nonempty(s: Seq<char>, cur: Seq<char>)
    ensures
        forall|k: int|
            0 <= k < chunks_from(s, cur).len() ==> #[trigger] chunks_from(s, cur)[k].len() > 0,
    decreases s.len(),
{
    if s.len() == 0 {
        assert forall|k: int| 0 <= k < chunks_from(s, cur).len() implies #[trigger] chunks_from(
            s,
            cur,
        )[k].len() > 0 by {
            assert(chunks_from(s, cur) == emit(cur));
            assert(cur.len() > 0);
            assert(chunks_from(s, cur)[k] == cur);
        }
    } else if is_sep(s[0]) {
        lemma_chunks_from_elems_nonempty(s.drop_first(), Seq::empty());
        let rec = chunks_from(s.drop_first(), Seq::empty());
        assert forall|k: int| 0 <= k < chunks_from(s, cur).len() implies #[trigger] chunks_from(
            s,
            cur,
        )[k].len() > 0 by {
            assert(chunks_from(s, cur) == emit(cur) + rec);
            if k < emit(cur).len() {
                assert(chunks_from(s, cur)[k] == cur);
            } else {
                assert(chunks_from(s, cur)[k] == rec[k - emit(cur).len()]);
            }
        }
    } else {
        lemma_chunks_from_elems_nonempty(s.drop_first(), cur.push(s[0]));
        assert(chunks_from(s, cur) == chunks_from(s.drop_first(), cur.push(s[0])));
    }
}

/// A run in progress guarantees at least one chunk.
pub proof fn lemma_chunks_from_len_min(s: Seq<char>, cur: Seq<char>)
    requires
        cur.len() > 0,
    ensures
        chunks_from(s, cur).len() >= 1,
    decreases s.len(),
{
    if s.len() == 0 {
    } else if is_sep(s[0]) {
    } else {
        lemma_chunks_from_len_min(s.drop_first(), cur.push(s[0]));
    }
}

/// A path that starts with an ordinary character has at least one chunk.
pub proof fn lemma_chunks_nonempty(s: Seq<char>)
    requires
        s.len() > 0,
        !is_sep(s[0]),
    ensures
        chunks(s).len() >= 1,
{
    lemma_chunks_from_len_min(s.drop_first(), Seq::empty().push(s[0]));
}

/// Filtering out `.` elements commutes with appending one element.
pub proof fn lemma_nondot_filter_push(cs: Seq<Seq<char>>, x: Seq<char>)
    ensures
        nondot_filter(cs.push(x)) == nondot_filter(cs) + (if x == dot_component() {
            Seq::<Seq<char>>::empty()
        } else {
            seq![x]
        }),
    decreases cs.len(),
{
    if cs.len() == 0 {
        assert(cs.push(x)[0] == x);
        assert(cs.push(x).drop_first() =~= Seq::<Seq<char>>::empty());
        assert(nondot_filter(Seq::<Seq<char>>::empty()) =~= Seq::<Seq<char>>::empty());
        assert(nondot_filter(cs) =~= Seq::<Seq<char>>::empty());
        if x == dot_component() {
            assert(nondot_filter(cs.push(x)) =~= nondot_filter(cs) + Seq::<Seq<char>>::empty());
        } else {
            assert(nondot_filter(cs.push(x)) =~= seq![x]);
            assert(nondot_filter(cs) + seq![x] =~= seq![x]);
        }
    } else {
        assert(cs.push(x)[0] == cs[0]);
        assert(cs.push(x).drop_first() =~= cs.drop_first().push(x));
        lemma_nondot_filter_push(cs.drop_first(), x);
        let tailpart = if x == dot_component() {
            Seq::<Seq<char>>::empty()
        } else {
            seq![x]
        };
        assert(nondot_filter(cs.drop_first().push(x)) == nondot_filter(cs.drop_first())
            + tailpart);
        if cs[0] == dot_component() {
            assert(nondot_filter(cs.push(x)) == nondot_filter(cs.drop_first().push(x)));
            assert(nondot_filter(cs) == nondot_filter(cs.drop_first()));
        } else {
            assert(nondot_filter(cs.push(x)) == seq![cs[0]] + nondot_filter(
                cs.drop_first().push(x),
            ));
            assert(nondot_filter(cs) == seq![cs[0]] + nondot_filter(cs.drop_first()));
            assert(seq![cs[0]] + (nondot_filter(cs.drop_first()) + tailpart) =~= (seq![cs[0]]
                + nondot_filter(cs.drop_first())) + tailpart);
        }
    }
}

/// Filtering keeps only elements of the original sequence, so it keeps
/// every element non-empty when the original's elements are.
pub proof fn lemma_nondot_filter_elems_nonempty(cs: Seq<Seq<char>>)
    requires
        forall|k: int| 0 <= k < cs.len() ==> #[trigger] cs[k].len() > 0,
    ensures
        forall|k: int|
            0 <= k < nondot_filter(cs).len() ==> #[trigger] nondot_filter(cs)[k].len() > 0,
    decreases cs.len(),
{
    if cs.len() == 0 {
    } else {
        assert(forall|k: int|
            0 <= k < cs.drop_first().len() ==> #[trigger] cs.drop_first()[k].len() > 0);
        lemma_nondot_filter_elems_nonempty(cs.drop_first());
        let rec = nondot_filter(cs.drop_first());
        if cs[0] == dot_component() {
            assert(nondot_filter(cs) == rec);
        } else {
            assert(cs[0].len() > 0);
            assert(nondot_filter(cs) == seq![cs[0]] + rec);
            assert forall|k: int| 0 <= k < nondot_filter(cs).len() implies #[trigger] nondot_filter(
                cs,
            )[k].len() > 0 by {
                if k == 0 {
                    assert(nondot_filter(cs)[0] == cs[0]);
                } else {
                    assert(nondot_filter(cs)[k] == rec[k - 1]);
                }
            }
        }
    }
}

/// A sequence with a character other than `:` keeps at least that
/// character when trailing colons are stripped.
pub proof fn lemma_strip_keeps_noncolon(t: Seq<char>)
    requires
        exists|k: int| 0 <= k < t.len() && t[k] != ':',
    ensures
        strip_trailing_colons(t).len() > 0,
    decreases t.len(),
{
    if t.len() > 0 && t[t.len() - 1] == ':' {
        let k = choose|k: int| 0 <= k < t.len() && t[k] != ':';
        assert(0 <= k < t.len() - 1);
        assert(t.drop_last()[k] != ':');
        lemma_strip_keeps_noncolon(t.drop_last());
    }
}

/// Splits `dir`, from character `start` on, into its maximal runs of
/// non-separator characters.
fn split_chunks(dir: &str, start: usize) -> (r: Vec<String>)
    requires
        start <= dir@.len(),
    ensures
        views(r@) == chunks(dir@.skip(start as int)),
{
    let n = dir.unicode_len();
    let mut out: Vec<String> = Vec::new();
    let mut j: usize = start;
    let mut i: usize = start;
    proof {
        assert(views(out@) =~= Seq::<Seq<char>>::empty());
        assert(dir@.subrange(start as int, start as int) =~= Seq::<char>::empty());
        assert(Seq::<Seq<char>>::empty() + chunks_from(dir@.skip(start as int), Seq::empty())
            =~= chunks_from(dir@.skip(start as int), Seq::empty()));
    }
    while i < n
        invariant
            start <= j <= i <= n,
            n == dir@.len(),
            forall|k: int| j <= k < i ==> !is_sep(dir@[k]),
            chunks(dir@.skip(start as int)) == views(out@) + chunks_from(
                dir@.skip(i as int),
                dir@.subrange(j as int, i as int),
            ),
        decreases n - i,
    {
        let ghost cur = dir@.subrange(j as int, i as int);
        let ghost rest = dir@.skip(i as int);
        proof {
            assert(rest[0] == dir@[i as int]);
            assert(rest.drop_first() =~= dir@.skip(i as int + 1));
        }
        let c = dir.get_char(i);
        if c == '/' || c == '\\' {
            if j < i {
                let piece = String::from_str(dir.substring_char(j, i));
                proof {
                    assert(views(out@.push(piece)) =~= views(out@).push(cur));
                    assert(chunks_from(rest, cur) =~= emit(cur) + chunks_from(
                        dir@.skip(i as int + 1),
                        Seq::empty(),
                    ));
                    assert(views(out@).push(cur) + chunks_from(dir@.skip(i as int + 1), Seq::empty())
                        =~= views(out@) + chunks_from(rest, cur));
                }
                out.push(piece);
            } else {
                proof {
                    assert(cur =~= Seq::<char>::empty());
                    assert(emit(cur) =~= Seq::<Seq<char>>::empty());
                    assert(chunks_from(rest, cur) =~= chunks_from(
                        dir@.skip(i as int + 1),
                        Seq::empty(),
                    ));
                }
            }
            j = i + 1;
            proof {
                assert(dir@.subrange(j as int, i as int + 1) =~= Seq::<char>::empty());
            }
        } else {
            proof {
                assert(cur.push(dir@[i as int]) =~= dir@.subrange(j as int, i as int + 1));
                assert(chunks_from(rest, cur) == chunks_from(
                    dir@.skip(i as int + 1),
                    dir@.subrange(j as int, i as int + 1),
                ));
            }
        }
        i = i + 1;
    }
    proof {
        assert(dir@.skip(i as int) =~= Seq::<char>::empty());
    }
    if j < n {
        let piece = String::from_str(dir.substring_char(j, n));
        proof {
            let cur = dir@.subrange(j as int, n as int);
            assert(chunks_from(dir@.skip(n as int), cur) =~= seq![cur]);
            assert(views(out@.push(piece)) =~= views(out@) + seq![cur]);
        }
        out.push(piece);
    } else {
        proof {
            let cur = dir@.subrange(j as int, n as int);
            assert(cur =~= Seq::<char>::empty());
            assert(chunks_from(dir@.skip(n as int), cur) =~= Seq::<Seq<char>>::empty());
            assert(views(out@) + Seq::<Seq<char>>::empty() =~= views(out@));
        }
    }
    out
}

/// Whether `c` is an ASCII letter.
fn is_alpha_char(c: char) -> (r: bool)
    ensures
        r == is_ascii_alpha(c),
{
    ('a' <= c && c <= 'z') || ('A' <= c && c <= 'Z')
}

/// Strips trailing colons from a string.
fn strip_trailing_colons_exec(t: &str) -> (r: String)
    ensures
        r@ == strip_trailing_colons(t@),
{
    let n = t.unicode_len();
    let mut j: usize = n;
    proof {
        assert(t@.take(n as int) =~= t@);
    }
    while j > 0 && t.get_char(j - 1) == ':'
        invariant
            0 <= j <= n,
            n == t@.len(),
            strip_trailing_colons(t@) == strip_trailing_colons(t@.take(j as int)),
        decreases j,
    {
        proof {
            let pre = t@.take(j as int);
            assert(pre[pre.len() - 1] == t@[j - 1]);
            assert(pre.drop_last() =~= t@.take(j as int - 1));
        }
        j = j - 1;
    }
    proof {
        let pre = t@.take(j as int);
        if j > 0 {
            assert(pre[pre.len() - 1] == t@[j - 1]);
            assert(strip_trailing_colons(pre) == pre);
        } else {
            assert(pre =~= Seq::<char>::empty());
        }
        assert(t@.subrange(0, j as int) =~= t@.take(j as int));
    }
    String::from_str(t.substring_char(0, j))
}

/// Extracts the base name of a project path.
///
/// Accepts any non-empty path that does not end in a parent-directory
/// reference and whose leaf, when the leaf is the base name, is not `..`;
/// every other input is an invalid path. The accepted inputs and the
/// result are fixed by `base_name_ok` and `spec_base_name`.
pub fn base_name(dir: &str) -> (r: Result<String, LauncherError>)
    ensures
        r is Ok <==> base_name_ok(dir@),
        r matches Ok(b) ==> b@ == spec_base_name(dir@),
        r is Err ==> r == Err::<String, LauncherError>(LauncherError::InvalidPath),
{
    let n = dir.unicode_len();
    if n == 0 {
        return Err(LauncherError::InvalidPath);
    }
    if n >= 2 && dir.get_char(n - 2) == '.' && dir.get_char(n - 1) == '.' {
        return Err(LauncherError::InvalidPath);
    }
    assert(!ends_with_dotdot(dir@));

    let hd = n >= 2 && is_alpha_char(dir.get_char(0)) && dir.get_char(1) == ':';
    assert(hd == has_drive(dir@));
    let bs: usize = if hd {
        2
    } else {
        0
    };
    assert(bs as int == body_start(dir@));
    let hr = if bs < n {
        let c = dir.get_char(bs);
        c == '/' || c == '\\'
    } else {
        false
    };
    assert(hr == has_root(dir@));

    let cs = split_chunks(dir, bs);
    let ghost csv = views(cs@);
    assert(csv == chunks(dir@.skip(body_start(dir@))));

    let mut kept: Vec<String> = Vec::new();
    let mut fi: usize = 0;
    let ghost mut head: Seq<Seq<char>> = Seq::empty();
    proof {
        reveal_strlit(".");
        assert("."@ =~= dot_component());
    }
    if !hd && !hr && cs.len() > 0 && str_eq(cs[0].as_str(), ".") {
        let first = cs[0].clone();
        proof {
            head = seq![csv[0]];
            assert(views(kept@.push(first)) =~= head);
        }
        kept.push(first);
        fi = 1;
        proof {
            assert(csv.drop_first() =~= csv.subrange(1, csv.len() as int));
            assert(kept_chunks(dir@) == head + nondot_filter(
                csv.subrange(fi as int, csv.len() as int),
            ));
        }
    } else {
        proof {
            assert(csv.subrange(0, csv.len() as int) =~= csv);
            assert(kept_chunks(dir@) == head + nondot_filter(
                csv.subrange(fi as int, csv.len() as int),
            )) by {
                assert(nondot_filter(csv.subrange(0, csv.len() as int)) == nondot_filter(csv));
                assert(head + nondot_filter(csv) =~= nondot_filter(csv));
            }
        }
    }

    let mut i: usize = fi;
    proof {
        assert(csv.subrange(fi as int, fi as int) =~= Seq::<Seq<char>>::empty());
        assert(views(kept@) =~= head + nondot_filter(csv.subrange(fi as int, fi as int)));
    }
    while i < cs.len()
        invariant
            fi <= i <= cs@.len(),
            csv == views(cs@),
            views(kept@) == head + nondot_filter(csv.subrange(fi as int, i as int)),
            kept_chunks(dir@) == head + nondot_filter(csv.subrange(fi as int, csv.len() as int)),
            "."@ == dot_component(),
        decreases cs@.len() - i,
    {
        let ghost prefix = csv.subrange(fi as int, i as int);
        proof {
            assert(csv.subrange(fi as int, i as int + 1) =~= prefix.push(csv[i as int]));
            lemma_nondot_filter_push(prefix, csv[i as int]);
        }
        if !str_eq(cs[i].as_str(), ".") {
            let piece = cs[i].clone();
            proof {
                assert(views(kept@.push(piece)) =~= views(kept@) + seq![csv[i as int]]);
                assert(head + (nondot_filter(prefix) + seq![csv[i as int]]) =~= (head
                    + nondot_filter(prefix)) + seq![csv[i as int]]);
            }
            kept.push(piece);
        } else {
            proof {
                assert(head + nondot_filter(prefix) =~= head + (nondot_filter(prefix)
                    + Seq::<Seq<char>>::empty()));
            }
        }
        i = i + 1;
    }
    proof {
        assert(csv.subrange(fi as int, csv.len() as int) =~= csv.subrange(fi as int, i as int));
    }
    assert(views(kept@) == kept_chunks(dir@));

    let ghost comp = components(dir@);
    let d: usize = if hd {
        1
    } else {
        0
    };
    let rt: usize = if hr {
        1
    } else {
        0
    };
    assert(comp.len() == d + rt + kept@.len());

    let leafy = kept.len() > 2 || kept.len() + d + rt > 2;
    assert(leafy == (comp.len() > 2));
    if leafy {
        assert(kept@.len() >= 1);
        let last = kept.len() - 1;
        assert(comp.last() == views(kept@)[last as int]);
        proof {
            reveal_strlit("..");
            assert(".."@ =~= parent_component());
        }
        if str_eq(string_at(&kept, last), "..") {
            return Err(LauncherError::InvalidPath);
        }
        let leaf = kept[last].clone();
        assert(leaf@ == spec_base_name(dir@));
        Ok(leaf)
    } else {
        assert(comp.len() <= 2);
        if hd {
            proof {
                let t = dir@.subrange(0, 2);
                assert(comp[0] == t);
                assert(t[t.len() - 1] == dir@[1]);
                assert(t.drop_last() =~= dir@.subrange(0, 1));
                let u = dir@.subrange(0, 1);
                assert(u[u.len() - 1] == dir@[0]);
                assert(dir@[0] != ':');
                assert(strip_trailing_colons(u) == u);
                assert(t.drop_last() == u);
                assert(strip_trailing_colons(t) == strip_trailing_colons(t.drop_last()));
                assert(strip_trailing_colons(t) == u);
            }
            let b = String::from_str(dir.substring_char(0, 1));
            assert(b@ == spec_base_name(dir@));
            Ok(b)
        } else if hr {
            proof {
                let u = seq![dir@[body_start(dir@)]];
                assert(comp[0] == u);
                assert(u[u.len() - 1] == dir@[body_start(dir@)]);
                assert(dir@[body_start(dir@)] != ':');
                assert(strip_trailing_colons(u) == u);
                assert(dir@.subrange(bs as int, bs as int + 1) =~= u);
            }
            let b = String::from_str(dir.substring_char(bs, bs + 1));
            assert(b@ == spec_base_name(dir@));
            Ok(b)
        } else {
            proof {
                assert(dir@.skip(0) =~= dir@);
                assert(!is_sep(dir@[0]));
                lemma_chunks_nonempty(dir@);
                assert(csv.len() >= 1);
                if !(csv[0] == dot_component()) {
                    assert(nondot_filter(csv) == seq![csv[0]] + nondot_filter(csv.drop_first()));
                }
                assert(views(kept@).len() >= 1);
                assert(comp[0] == views(kept@)[0]);
            }
            let b = strip_trailing_colons_exec(string_at(&kept, 0));
            assert(b@ == spec_base_name(dir@));
            Ok(b)
        }
    }
}

/// The normalizer never yields an empty base name: every accepted path
/// whose first component is not made of colons alone has a base name of at
/// least one character. (A drive-root-like path of colons, such as `:`,
/// strips to nothing and is the one shape left out.)
pub proof fn lemma_base_name_nonempty(s: Seq<char>)
    requires
        base_name_ok(s),
        components(s).len() <= 2 ==> exists|k: int|
            0 <= k < components(s)[0].len() && components(s)[0][k] != ':',
    ensures
        spec_base_name(s).len() > 0,
{
    let comp = components(s);
    let csv = chunks(s.skip(body_start(s)));
    let kept = kept_chunks(s);
    if comp.len() <= 2 {
        lemma_strip_keeps_noncolon(comp[0]);
    } else {
        lemma_chunks_from_elems_nonempty(s.skip(body_start(s)), Seq::empty());
        let d: int = if has_drive(s) {
            1
        } else {
            0
        };
        let rt: int = if has_root(s) {
            1
        } else {
            0
        };
        assert(comp.len() == d + rt + kept.len());
        assert(kept.len() >= 1);
        assert(comp.last() == kept[kept.len() - 1]);
        if !has_drive(s) && !has_root(s) && csv.len() > 0 && csv[0] == dot_component() {
            assert(forall|k: int|
                0 <= k < csv.drop_first().len() ==> #[trigger] csv.drop_first()[k].len() > 0);
            lemma_nondot_filter_elems_nonempty(csv.drop_first());
            let rest = nondot_filter(csv.drop_first());
            assert(kept == seq![csv[0]] + rest);
            if kept.len() - 1 == 0 {
                assert(kept.last() == csv[0]);
            } else {
                assert(kept.last() == rest[kept.len() - 2]);
            }
        } else {
            lemma_nondot_filter_elems_nonempty(csv);
            assert(kept == nondot_filter(csv));
        }
    }
}

/// Borrows one element of a vector of strings as a slice.
fn string_at(v: &Vec<String>, i: usize) -> (r: &str)
    requires
        i < v@.len(),
    ensures
        r@ == v@[i as int]@,
{
    v[i].as_str()
}

} // verus!
