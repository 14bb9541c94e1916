//! Tidying a captured panic backtrace for display: the raw text is split
//! into lines, each frame line is grouped with its `at ...` location line,
//! the frames outside the runtime's own unwinding machinery are kept, the
//! first two of those are dropped, and the remaining frames are renumbered
//! from zero for readability.

use crate::text::{decimal_digits, u64_to_decimal};
use vstd::prelude::*;
use vstd::string::*;

verus! {

/// Whether `c` is ASCII whitespace, as this module trims it.
pub open spec fn is_ws(c: char) -> bool {
    c == ' ' || c == '\t' || c == '\r' || c == '\n'
}

/// Whether `c` is a decimal digit.
pub open spec fn is_digit(c: char) -> bool {
    '0' <= c && c <= '9'
}

/// The lines of `s` split at every newline, the line in progress being
/// `cur`: every piece is kept, empty ones included.
pub open spec fn lines_from(s: Seq<char>, cur: Seq<char>) -> Seq<Seq<char>>
    decreases s.len(),
{
    if s.len() == 0 {
        seq![cur]
    } else if s[0] == '\n' {
        seq![cur] + lines_from(s.drop_first(), Seq::empty())
    } else {
        lines_from(s.drop_first(), cur.push(s[0]))
    }
}

/// The lines of `s`, split at every newline.
pub open spec fn split_lines(s: Seq<char>) -> Seq<Seq<char>> {
    lines_from(s, Seq::empty())
}

/// `s` without leading whitespace.
pub open spec fn trim_start(s: Seq<char>) -> Seq<char>
    decreases s.len(),
{
    if s.len() > 0 && is_ws(s[0]) {
        trim_start(s.drop_first())
    } else {
        s
    }
}

/// Whether the line, once trimmed, starts with `at`: the shape of a
/// source-location continuation line in a backtrace.
pub open spec fn at_line(s: Seq<char>) -> bool {
    let t = trim_start(s);
    t.len() >= 2 && t[0] == 'a' && t[1] == 't'
}

/// Whether the line holds anything but whitespace.
pub open spec fn nonblank(s: Seq<char>) -> bool {
    trim_start(s).len() > 0
}

/// Groups raw backtrace lines pairwise into frames, from line `i` on with
/// `acc` the frames built so far: a location line is attached below its
/// frame line; a frame line arriving where a location line was expected is
/// attached to the previous frame when there is one; blank trailing lines
/// are dropped.
pub open spec fn group_from(ls: Seq<Seq<char>>, i: int, acc: Seq<Seq<char>>) -> Seq<Seq<char>>
    decreases ls.len() - i,
{
    if i < 0 || i >= ls.len() {
        acc
    } else if i + 1 < ls.len() {
        let main = ls[i];
        let sub = ls[i + 1];
        if at_line(sub) {
            group_from(ls, i + 2, acc.push(main + seq!['\n'] + sub))
        } else if at_line(main) {
            if acc.len() > 0 {
                group_from(
                    ls,
                    i + 2,
                    acc.update(acc.len() - 1, acc.last() + seq!['\n'] + main).push(sub),
                )
            } else {
                group_from(ls, i + 2, acc.push(main).push(sub))
            }
        } else {
            if nonblank(sub) {
                group_from(ls, i + 2, acc.push(main).push(sub))
            } else {
                group_from(ls, i + 2, acc.push(main))
            }
        }
    } else {
        if nonblank(ls[i]) {
            acc.push(ls[i])
        } else {
            acc
        }
    }
}

/// The marker frame above which the runtime's unwinding machinery ends.
pub open spec fn end_marker() -> Seq<char> {
    "__rust_end_short_backtrace"@
}

/// The marker frame at which the runtime's startup machinery begins.
pub open spec fn begin_marker() -> Seq<char> {
    "__rust_begin_short_backtrace"@
}

/// Whether `needle` occurs in `h` as a contiguous run.
pub open spec fn has_substr(h: Seq<char>, needle: Seq<char>) -> bool {
    exists|k: int|
        0 <= k && k + needle.len() <= h.len() && #[trigger] h.subrange(k, k + needle.len())
            == needle
}

/// Keeps the frames between the end marker and the begin marker, from
/// frame `i` on: `capture` says whether frames are being kept, `acc` holds
/// those kept so far. Marker frames themselves are dropped.
pub open spec fn filter_short_from(
    fs: Seq<Seq<char>>,
    i: int,
    capture: bool,
    acc: Seq<Seq<char>>,
) -> Seq<Seq<char>>
    decreases fs.len() - i,
{
    if i < 0 || i >= fs.len() {
        acc
    } else {
        let f = fs[i];
        if has_substr(f, end_marker()) {
            filter_short_from(fs, i + 1, true, acc)
        } else {
            let cap = if has_substr(f, begin_marker()) {
                false
            } else {
                capture
            };
            filter_short_from(fs, i + 1, cap, if cap {
                acc.push(f)
            } else {
                acc
            })
        }
    }
}

/// The first index at or past `j` where a run of digits is not a digit.
pub open spec fn digits_end(s: Seq<char>, j: int) -> int
    decreases s.len() - j,
{
    if j < 0 || j >= s.len() || !is_digit(s[j]) {
        j
    } else {
        digits_end(s, j + 1)
    }
}

/// Whether a frame number — digits followed by `: ` — stands at `j`.
pub open spec fn match_at(s: Seq<char>, j: int) -> bool {
    &&& 0 <= j < s.len()
    &&& is_digit(s[j])
    &&& digits_end(s, j) + 1 < s.len()
    &&& s[digits_end(s, j)] == ':'
    &&& s[digits_end(s, j) + 1] == ' '
}

/// The first position at or past `j` where a frame number stands, or the
/// length of `s` when none does.
pub open spec fn first_match_from(s: Seq<char>, j: int) -> int
    decreases s.len() - j,
{
    if j < 0 || j >= s.len() {
        s.len() as int
    } else if match_at(s, j) {
        j
    } else {
        first_match_from(s, j + 1)
    }
}

/// The frame with its first frame number replaced by `n`, unchanged when
/// it holds none.
pub open spec fn replace_first_num(s: Seq<char>, n: nat) -> Seq<char> {
    let j = first_match_from(s, 0);
    if j < s.len() {
        s.take(j) + decimal_digits(n) + seq![':', ' '] + s.skip(digits_end(s, j) + 2)
    } else {
        s
    }
}

/// The frames renumbered from zero.
pub open spec fn renumbered(fs: Seq<Seq<char>>) -> Seq<Seq<char>> {
    Seq::new(fs.len(), |i: int| replace_first_num(fs[i], i as nat))
}

/// The first two frames dropped, as the panic machinery itself occupies
/// them.
pub open spec fn skip_two(fs: Seq<Seq<char>>) -> Seq<Seq<char>> {
    if fs.len() >= 2 {
        fs.skip(2)
    } else {
        Seq::<Seq<char>>::empty()
    }
}

/// The whole tidying pipeline over a raw backtrace text.
pub open spec fn spec_condense(s: Seq<char>) -> Seq<Seq<char>> {
    renumbered(
        skip_two(filter_short_from(group_from(split_lines(s), 0, Seq::empty()), 0, false, Seq::empty())),
    )
}

/// The frames joined by newlines.
pub open spec fn joined(fs: Seq<Seq<char>>) -> Seq<char> {
    if fs.len() == 0 {
        Seq::empty()
    } else {
        fs[0] + join_tail(fs, 1)
    }
}

/// The frames from `i` on, each preceded by a newline.
pub open spec fn join_tail(fs: Seq<Seq<char>>, i: int) -> Seq<char>
    decreases fs.len() - i,
{
    if i < 0 || i >= fs.len() {
        Seq::empty()
    } else {
        seq!['\n'] + fs[i] + join_tail(fs, i + 1)
    }
}

/// The character views of a vector of strings.
pub open spec fn line_views(ts: Seq<String>) -> Seq<Seq<char>> {
    ts.map_values(|t: String| t@)
}

/// Whether `c` is ASCII whitespace.
fn is_ws_char(c: char) -> (r: bool)
    ensures
        r == is_ws(c),
{
    c == ' ' || c == '\t' || c == '\r' || c == '\n'
}

/// Whether `c` is a decimal digit.
fn is_digit_char(c: char) -> (r: bool)
    ensures
        r == is_digit(c),
{
    '0' <= c && c <= '9'
}

/// Splits a text into its lines at every newline, keeping empty lines.
pub fn split_lines_exec(s: &str) -> (r: Vec<String>)
    ensures
        line_views(r@) == split_lines(s@),
{
    let n = s.unicode_len();
    let mut out: Vec<String> = Vec::new();
    let mut j: usize = 0;
    let mut i: usize = 0;
    proof {
        assert(line_views(out@) =~= Seq::<Seq<char>>::empty());
        assert(s@.subrange(0, 0) =~= Seq::<char>::empty());
        assert(Seq::<Seq<char>>::empty() + lines_from(s@.skip(0), Seq::empty()) =~= lines_from(
            s@.skip(0),
            Seq::empty(),
        ));
        assert(s@.skip(0) =~= s@);
    }
    while i < n
        invariant
            0 <= j <= i <= n,
            n == s@.len(),
            split_lines(s@) == line_views(out@) + lines_from(
                s@.skip(i as int),
                s@.subrange(j as int, i as int),
            ),
        decreases n - i,
    {
        let ghost cur = s@.subrange(j as int, i as int);
        let ghost rest = s@.skip(i as int);
        proof {
            assert(rest[0] == s@[i as int]);
            assert(rest.drop_first() =~= s@.skip(i as int + 1));
        }
        if s.get_char(i) == '\n' {
            let piece = String::from_str(s.substring_char(j, i));
            proof {
                assert(line_views(out@.push(piece)) =~= line_views(out@) + seq![cur]);
                assert(lines_from(rest, cur) =~= seq![cur] + lines_from(
                    s@.skip(i as int + 1),
                    Seq::empty(),
                ));
                assert((line_views(out@) + seq![cur]) + lines_from(s@.skip(i as int + 1), Seq::empty())
                    =~= line_views(out@) + lines_from(rest, cur));
                assert(s@.subrange(i as int + 1, i as int + 1) =~= Seq::<char>::empty());
            }
            out.push(piece);
            j = i + 1;
        } else {
            proof {
                assert(cur.push(s@[i as int]) =~= s@.subrange(j as int, i as int + 1));
                assert(lines_from(rest, cur) == lines_from(
                    s@.skip(i as int + 1),
                    s@.subrange(j as int, i as int + 1),
                ));
            }
        }
        i = i + 1;
    }
    let piece = String::from_str(s.substring_char(j, n));
    proof {
        let cur = s@.subrange(j as int, n as int);
        assert(s@.skip(n as int) =~= Seq::<char>::empty());
        assert(lines_from(s@.skip(n as int), cur) =~= seq![cur]);
        assert(line_views(out@.push(piece)) =~= line_views(out@) + seq![cur]);
    }
    out.push(piece);
    out
}

/// The number of leading whitespace characters of `t`.
fn ws_prefix_len(t: &str) -> (r: usize)
    ensures
        0 <= r <= t@.len(),
        trim_start(t@) == t@.skip(r as int),
{
    let n = t.unicode_len();
    let mut i: usize = 0;
    proof {
        assert(t@.skip(0) =~= t@);
    }
    while i < n && is_ws_char(t.get_char(i))
        invariant
            0 <= i <= n,
            n == t@.len(),
            trim_start(t@) == trim_start(t@.skip(i as int)),
        decreases n - i,
    {
        proof {
            let rest = t@.skip(i as int);
            assert(rest[0] == t@[i as int]);
            assert(rest.drop_first() =~= t@.skip(i as int + 1));
        }
        i = i + 1;
    }
    proof {
        let rest = t@.skip(i as int);
        if i < n {
            assert(rest[0] == t@[i as int]);
            assert(trim_start(rest) == rest);
        } else {
            assert(rest =~= Seq::<char>::empty());
        }
    }
    i
}

/// Whether the line, once trimmed, starts with `at`.
fn at_line_exec(t: &str) -> (r: bool)
    ensures
        r == at_line(t@),
{
    let n = t.unicode_len();
    let i = ws_prefix_len(t);
    if n - i >= 2 {
        t.get_char(i) == 'a' && t.get_char(i + 1) == 't'
    } else {
        false
    }
}

/// Whether the line holds anything but whitespace.
fn nonblank_exec(t: &str) -> (r: bool)
    ensures
        r == nonblank(t@),
{
    let n = t.unicode_len();
    let i = ws_prefix_len(t);
    i < n
}

/// Whether `needle` occurs in `h` as a contiguous run.
pub fn contains_str(h: &str, needle: &str) -> (r: bool)
    ensures
        r == has_substr(h@, needle@),
{
    let hn = h.unicode_len();
    let nn = needle.unicode_len();
    if nn > hn {
        return false;
    }
    let mut k: usize = 0;
    while k <= hn - nn
        invariant
            0 <= k <= hn - nn + 1,
            nn <= hn,
            hn == h@.len(),
            nn == needle@.len(),
            forall|q: int| 0 <= q < k ==> #[trigger] h@.subrange(q, q + nn as int) != needle@,
        decreases hn - nn - k + 1,
    {
        let mut m: usize = 0;
        while m < nn && h.get_char(k + m) == needle.get_char(m)
            invariant
                0 <= m <= nn,
                0 <= k <= hn - nn,
                nn <= hn,
                hn == h@.len(),
                nn == needle@.len(),
                forall|q: int| 0 <= q < m ==> h@[k + q] == needle@[q],
            decreases nn - m,
        {
            m = m + 1;
        }
        if m == nn {
            proof {
                assert(h@.subrange(k as int, k as int + nn as int) =~= needle@);
            }
            return true;
        }
        proof {
            assert(h@.subrange(k as int, k as int + nn as int)[m as int] == h@[k as int + m]);
            assert(h@.subrange(k as int, k as int + nn as int) != needle@);
        }
        k = k + 1;
    }
    false
}

/// Groups raw backtrace lines pairwise into frames.
pub fn group_frames(lines: &Vec<String>) -> (r: Vec<String>)
    ensures
        line_views(r@) == group_from(line_views(lines@), 0, Seq::empty()),
{
    let ghost ls = line_views(lines@);
    let mut out: Vec<String> = Vec::new();
    let mut i: usize = 0;
    proof {
        assert(line_views(out@) =~= Seq::<Seq<char>>::empty());
    }
    while i < lines.len()
        invariant
            0 <= i <= lines@.len(),
            ls == line_views(lines@),
            group_from(ls, 0, Seq::empty()) == group_from(ls, i as int, line_views(out@)),
        decreases lines@.len() - i,
    {
        let ghost acc = line_views(out@);
        proof {
            reveal_strlit("\n");
            assert("\n"@ =~= seq!['\n']);
        }
        if i + 1 < lines.len() {
            let main = lines[i].as_str();
            let sub = lines[i + 1].as_str();
            if at_line_exec(sub) {
                let mut piece = String::from_str(main);
                piece.append("\n");
                piece.append(sub);
                proof {
                    assert(piece@ =~= ls[i as int] + seq!['\n'] + ls[i as int + 1]);
                    assert(line_views(out@.push(piece)) =~= acc.push(piece@));
                }
                out.push(piece);
            } else if at_line_exec(main) {
                if out.len() > 0 {
                    let prev = match out.pop() {
                        Some(p) => p,
                        None => String::new(),
                    };
                    let mut joined_frame = prev;
                    joined_frame.append("\n");
                    joined_frame.append(main);
                    let ghost popped = line_views(out@);
                    proof {
                        assert(joined_frame@ =~= acc.last() + seq!['\n'] + ls[i as int]);
                        assert(line_views(out@.push(joined_frame).push(lines@[i as int + 1]))
                            =~= acc.update(acc.len() - 1, acc.last() + seq!['\n'] + ls[i as int]).push(
                            ls[i as int + 1],
                        ));
                    }
                    out.push(joined_frame);
                    out.push(lines[i + 1].clone());
                } else {
                    proof {
                        assert(line_views(out@.push(lines@[i as int]).push(lines@[i as int + 1]))
                            =~= acc.push(ls[i as int]).push(ls[i as int + 1]));
                    }
                    out.push(lines[i].clone());
                    out.push(lines[i + 1].clone());
                }
            } else {
                if nonblank_exec(sub) {
                    proof {
                        assert(line_views(out@.push(lines@[i as int]).push(lines@[i as int + 1]))
                            =~= acc.push(ls[i as int]).push(ls[i as int + 1]));
                    }
                    out.push(lines[i].clone());
                    out.push(lines[i + 1].clone());
                } else {
                    proof {
                        assert(line_views(out@.push(lines@[i as int])) =~= acc.push(ls[i as int]));
                    }
                    out.push(lines[i].clone());
                }
            }
            i = i + 2;
        } else {
            if nonblank_exec(lines[i].as_str()) {
                proof {
                    assert(line_views(out@.push(lines@[i as int])) =~= acc.push(ls[i as int]));
                }
                out.push(lines[i].clone());
            }
            i = i + 1;
        }
    }
    out
}

/// Keeps the frames between the unwinding markers, the markers themselves
/// dropped.
pub fn filter_short(frames: &Vec<String>) -> (r: Vec<String>)
    ensures
        line_views(r@) == filter_short_from(line_views(frames@), 0, false, Seq::empty()),
{
    let ghost fs = line_views(frames@);
    let mut out: Vec<String> = Vec::new();
    let mut capture = false;
    let mut i: usize = 0;
    proof {
        assert(line_views(out@) =~= Seq::<Seq<char>>::empty());
    }
    while i < frames.len()
        invariant
            0 <= i <= frames@.len(),
            fs == line_views(frames@),
            filter_short_from(fs, 0, false, Seq::empty()) == filter_short_from(
                fs,
                i as int,
                capture,
                line_views(out@),
            ),
        decreases frames@.len() - i,
    {
        let f = frames[i].as_str();
        if contains_str(f, "__rust_end_short_backtrace") {
            capture = true;
        } else {
            if contains_str(f, "__rust_begin_short_backtrace") {
                capture = false;
            }
            if capture {
                proof {
                    assert(line_views(out@.push(frames@[i as int])) =~= line_views(out@).push(
                        fs[i as int],
                    ));
                }
                out.push(frames[i].clone());
            }
        }
        i = i + 1;
    }
    out
}

/// Replaces the first frame number of a line by `num`.
pub fn replace_first_num_exec(s: &str, num: u64) -> (r: String)
    ensures
        r@ == replace_first_num(s@, num as nat),
{
    let n = s.unicode_len();
    let mut j: usize = 0;
    while j < n
        invariant
            0 <= j <= n,
            n == s@.len(),
            first_match_from(s@, 0) == first_match_from(s@, j as int),
        decreases n - j,
    {
        if is_digit_char(s.get_char(j)) {
            let mut e: usize = j;
            while e < n && is_digit_char(s.get_char(e))
                invariant
                    j <= e <= n,
                    n == s@.len(),
                    digits_end(s@, j as int) == digits_end(s@, e as int),
                decreases n - e,
            {
                e = e + 1;
            }
            proof {
                assert(digits_end(s@, e as int) == e as int);
            }
            if n - e >= 2 && s.get_char(e) == ':' && s.get_char(e + 1) == ' ' {
                proof {
                    assert(match_at(s@, j as int));
                    assert(first_match_from(s@, j as int) == j as int);
                }
                let mut out = String::from_str(s.substring_char(0, j));
                let dec = u64_to_decimal(num);
                out.append(dec.as_str());
                proof {
                    reveal_strlit(": ");
                    assert(": "@ =~= seq![':', ' ']);
                }
                out.append(": ");
                out.append(s.substring_char(e + 2, n));
                proof {
                    assert(s@.subrange(0, j as int) =~= s@.take(j as int));
                    assert(s@.subrange(e as int + 2, n as int) =~= s@.skip(e as int + 2));
                    assert(out@ =~= replace_first_num(s@, num as nat));
                }
                return out;
            }
            proof {
                assert(!match_at(s@, j as int));
            }
        } else {
            proof {
                assert(!match_at(s@, j as int));
            }
        }
        j = j + 1;
    }
    proof {
        assert(first_match_from(s@, n as int) == n as int);
    }
    String::from_str(s)
}

/// Renumbers the frames from zero.
pub fn renumber_frames(frames: &Vec<String>) -> (r: Vec<String>)
    ensures
        line_views(r@) == renumbered(line_views(frames@)),
{
    let ghost fs = line_views(frames@);
    let mut out: Vec<String> = Vec::new();
    let mut i: usize = 0;
    while i < frames.len()
        invariant
            0 <= i <= frames@.len(),
            fs == line_views(frames@),
            out@.len() == i,
            forall|k: int|
                0 <= k < i ==> line_views(out@)[k] == replace_first_num(fs[k], k as nat),
        decreases frames@.len() - i,
    {
        let piece = replace_first_num_exec(frames[i].as_str(), i as u64);
        proof {
            assert(line_views(out@.push(piece)) =~= line_views(out@).push(piece@));
        }
        out.push(piece);
        i = i + 1;
    }
    proof {
        assert(line_views(out@) =~= renumbered(fs));
    }
    out
}

/// The whole tidying pipeline: groups, filters, drops the first two
/// frames, renumbers.
pub fn condense_backtrace(raw: &str) -> (r: Vec<String>)
    ensures
        line_views(r@) == spec_condense(raw@),
{
    let lines = split_lines_exec(raw);
    let grouped = group_frames(&lines);
    let filtered = filter_short(&grouped);
    let mut skipped: Vec<String> = Vec::new();
    let mut i: usize = if filtered.len() >= 2 {
        2
    } else {
        filtered.len()
    };
    let ghost start = i as int;
    while i < filtered.len()
        invariant
            0 <= start <= i <= filtered@.len(),
            line_views(filtered@).len() == filtered@.len(),
            line_views(skipped@) == line_views(filtered@).subrange(start, i as int),
        decreases filtered@.len() - i,
    {
        proof {
            assert(line_views(skipped@.push(filtered@[i as int])) =~= line_views(skipped@).push(
                filtered@[i as int]@,
            ));
            assert(line_views(filtered@)[i as int] == filtered@[i as int]@);
            assert(line_views(filtered@).subrange(start, i as int + 1) =~= line_views(
                filtered@,
            ).subrange(start, i as int).push(line_views(filtered@)[i as int]));
        }
        skipped.push(filtered[i].clone());
        i = i + 1;
    }
    proof {
        if line_views(filtered@).len() >= 2 {
            assert(line_views(filtered@).subrange(start, i as int) =~= skip_two(
                line_views(filtered@),
            ));
        } else {
            assert(line_views(filtered@).subrange(start, i as int) =~= skip_two(
                line_views(filtered@),
            ));
        }
    }
    renumber_frames(&skipped)
}

/// Joins frames with newlines.
pub fn join_frames(frames: &Vec<String>) -> (r: String)
    ensures
        r@ == joined(line_views(frames@)),
{
    let ghost fs = line_views(frames@);
    if frames.len() == 0 {
        proof {
            assert(joined(fs) =~= Seq::<char>::empty());
        }
        return String::new();
    }
    let mut out = String::from_str(frames[0].as_str());
    let mut i: usize = 1;
    proof {
        reveal_strlit("\n");
        assert("\n"@ =~= seq!['\n']);
    }
    while i < frames.len()
        invariant
            1 <= i <= frames@.len(),
            fs == line_views(frames@),
            fs.len() == frames@.len(),
            out@ + join_tail(fs, i as int) == joined(fs),
            "\n"@ == seq!['\n'],
        decreases frames@.len() - i,
    {
        out.append("\n");
        out.append(frames[i].as_str());
        proof {
            assert(out@ + join_tail(fs, i as int + 1) =~= joined(fs));
        }
        i = i + 1;
    }
    proof {
        assert(out@ =~= joined(fs));
    }
    out
}

} // verus!
