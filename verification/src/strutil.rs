//! Verified string utilities the parsers are built on: equality, trimming,
//! joining, line splitting, and lexicographic ordering over character
//! sequences.

use vstd::prelude::*;
use vstd::string::*;

verus! {

/// Whether some string in `v` reads `x`.
pub open spec fn has_str(v: Seq<String>, x: Seq<char>) -> bool {
    exists|i: int| 0 <= i < v.len() && v[i]@ == x
}

/// The character sequences of a sequence of strings.
pub open spec fn views_of(v: Seq<String>) -> Seq<Seq<char>> {
    v.map_values(|s: String| s@)
}

/// Compares two string slices character by character.
pub fn str_eq(a: &str, b: &str) -> (r: bool)
    ensures
        r == (a@ == b@),
{
    let an = a.unicode_len();
    let bn = b.unicode_len();
    if an != bn {
        return false;
    }
    let mut i: usize = 0;
    while i < an
        invariant
            i <= an,
            an == a@.len(),
            an == b@.len(),
            forall|k: int| 0 <= k < i ==> a@[k] == b@[k],
        decreases an - i,
    {
        if a.get_char(i) != b.get_char(i) {
            return false;
        }
        i += 1;
    }
    proof {
        assert(a@ =~= b@);
    }
    true
}

/// Builds a string out of the characters `v[from..to]`.
pub fn string_of_range(v: &Vec<char>, from: usize, to: usize) -> (r: String)
    requires
        from <= to <= v@.len(),
    ensures
        r@ == v@.subrange(from as int, to as int),
{
    let mut r = String::new();
    let mut i: usize = from;
    while i < to
        invariant
            from <= i <= to <= v@.len(),
            r@ == v@.subrange(from as int, i as int),
        decreases to - i,
    {
        r.push(v[i]);
        proof {
            assert(v@.subrange(from as int, i + 1 as int) =~= v@.subrange(
                from as int,
                i as int,
            ).push(v@[i as int]));
        }
        i += 1;
    }
    r
}

/// The whitespace characters recognized when splitting fields and trimming:
/// the characters with the Unicode `White_Space` property.
pub open spec fn is_ws_spec(c: char) -> bool {
    ('\u{9}' <= c && c <= '\u{d}') || c == ' ' || c == '\u{85}' || c == '\u{a0}'
        || c == '\u{1680}' || ('\u{2000}' <= c && c <= '\u{200a}') || c == '\u{2028}'
        || c == '\u{2029}' || c == '\u{202f}' || c == '\u{205f}' || c == '\u{3000}'
}

/// Decides whether `c` is a whitespace character.
pub fn is_ws(c: char) -> (r: bool)
    ensures
        r == is_ws_spec(c),
{
    ('\u{9}' <= c && c <= '\u{d}') || c == ' ' || c == '\u{85}' || c == '\u{a0}'
        || c == '\u{1680}' || ('\u{2000}' <= c && c <= '\u{200a}') || c == '\u{2028}'
        || c == '\u{2029}' || c == '\u{202f}' || c == '\u{205f}' || c == '\u{3000}'
}

/// `s` without its leading whitespace.
pub open spec fn trim_start_spec(s: Seq<char>) -> Seq<char>
    decreases s.len(),
{
    if s.len() > 0 && is_ws_spec(s[0]) {
        trim_start_spec(s.drop_first())
    } else {
        s
    }
}

/// `s` without its trailing whitespace.
pub open spec fn trim_end_spec(s: Seq<char>) -> Seq<char>
    decreases s.len(),
{
    if s.len() > 0 && is_ws_spec(s.last()) {
        trim_end_spec(s.drop_last())
    } else {
        s
    }
}

/// `s` without leading and trailing whitespace.
pub open spec fn trim_spec(s: Seq<char>) -> Seq<char> {
    trim_end_spec(trim_start_spec(s))
}

/// Narrows the window `v[lo..hi]` to its whitespace-trimmed core.
pub fn trim_range(v: &Vec<char>, lo: usize, hi: usize) -> (r: (usize, usize))
    requires
        lo <= hi <= v@.len(),
    ensures
        lo <= r.0 <= r.1 <= hi,
        v@.subrange(r.0 as int, r.1 as int) == trim_spec(v@.subrange(lo as int, hi as int)),
{
    let mut a = lo;
    while a < hi && is_ws(v[a])
        invariant
            lo <= a <= hi <= v@.len(),
            trim_start_spec(v@.subrange(a as int, hi as int)) == trim_start_spec(
                v@.subrange(lo as int, hi as int),
            ),
        decreases hi - a,
    {
        proof {
            assert(v@.subrange(a as int, hi as int).drop_first() =~= v@.subrange(
                a + 1 as int,
                hi as int,
            ));
        }
        a += 1;
    }
    let mut b = hi;
    while b > a && is_ws(v[b - 1])
        invariant
            a <= b <= hi <= v@.len(),
            trim_end_spec(v@.subrange(a as int, b as int)) == trim_end_spec(
                v@.subrange(a as int, hi as int),
            ),
        decreases b,
    {
        proof {
            assert(v@.subrange(a as int, b as int).drop_last() =~= v@.subrange(
                a as int,
                b - 1 as int,
            ));
        }
        b -= 1;
    }
    proof {
        let w = v@.subrange(lo as int, hi as int);
        let aw = v@.subrange(a as int, hi as int);
        let bw = v@.subrange(a as int, b as int);
        assert(trim_start_spec(aw) == aw);
        assert(trim_end_spec(bw) == bw);
        assert(trim_spec(w) == trim_end_spec(aw));
        assert(trim_end_spec(aw) == trim_end_spec(bw));
    }
    (a, b)
}

/// `s` with leading and trailing whitespace removed.
pub fn trim_str(s: &str) -> (r: String)
    ensures
        r@ == trim_spec(s@),
{
    let v = crate::text::chars_of(s);
    let (a, b) = trim_range(&v, 0, v.len());
    proof {
        assert(v@.subrange(0, v@.len() as int) =~= v@);
    }
    string_of_range(&v, a, b)
}

/// The first `i` items joined by `sep`: the items in order, `sep` between
/// each adjacent pair.
pub open spec fn join_prefix(items: Seq<Seq<char>>, sep: Seq<char>, i: int) -> Seq<char>
    decreases i,
{
    if i <= 0 {
        Seq::empty()
    } else if i == 1 {
        items[0]
    } else {
        join_prefix(items, sep, i - 1) + sep + items[i - 1]
    }
}

/// All the items joined by `sep`.
pub open spec fn join_spec(items: Seq<Seq<char>>, sep: Seq<char>) -> Seq<char> {
    join_prefix(items, sep, items.len() as int)
}

/// Joins the strings of `items` with the separator `sep`.
pub fn join_strings(items: &Vec<String>, sep: &str) -> (r: String)
    ensures
        r@ == join_spec(views_of(items@), sep@),
{
    let mut r = String::new();
    let mut i: usize = 0;
    let n = items.len();
    while i < n
        invariant
            i <= n,
            n == items@.len(),
            r@ == join_prefix(views_of(items@), sep@, i as int),
        decreases n - i,
    {
        if i > 0 {
            r.append(sep);
        }
        r.append(items[i].as_str());
        i += 1;
    }
    r
}

/// The index of the first newline at or after `i`, or the length of `s`.
pub open spec fn first_nl_from(s: Seq<char>, i: int) -> int
    decreases s.len() - i,
{
    if i < 0 || i >= s.len() {
        s.len() as int
    } else if s[i] == '\n' {
        i
    } else {
        first_nl_from(s, i + 1)
    }
}

pub proof fn lemma_first_nl_from(s: Seq<char>, i: int)
    requires
        0 <= i <= s.len(),
    ensures
        i <= first_nl_from(s, i) <= s.len(),
        first_nl_from(s, i) < s.len() ==> s[first_nl_from(s, i)] == '\n',
        forall|k: int| i <= k < first_nl_from(s, i) ==> s[k] != '\n',
    decreases s.len() - i,
{
    if i < s.len() && s[i] != '\n' {
        lemma_first_nl_from(s, i + 1);
    }
}

/// A line with a terminating carriage return removed.
pub open spec fn strip_cr(t: Seq<char>) -> Seq<char> {
    if t.len() > 0 && t.last() == '\r' {
        t.drop_last()
    } else {
        t
    }
}

/// The lines of `s` from position `i` on: split at each newline, a carriage
/// return standing right before a newline dropped, and a final line without
/// a terminator kept whole.
pub open spec fn lines_from(s: Seq<char>, i: int) -> Seq<Seq<char>>
    decreases s.len() - i,
    when 0 <= i <= s.len()
    via lines_from_dec
{
    if i >= s.len() {
        Seq::empty()
    } else {
        let j = first_nl_from(s, i);
        if j >= s.len() {
            seq![s.subrange(i, s.len() as int)]
        } else {
            seq![strip_cr(s.subrange(i, j))] + lines_from(s, j + 1)
        }
    }
}

#[via_fn]
proof fn lines_from_dec(s: Seq<char>, i: int) {
    if 0 <= i && i < s.len() {
        lemma_first_nl_from(s, i);
    }
}

/// The lines of a character sequence.
pub open spec fn lines_spec(s: Seq<char>) -> Seq<Seq<char>> {
    lines_from(s, 0)
}

/// Splits `s` into its lines.
pub fn split_lines(s: &str) -> (r: Vec<String>)
    ensures
        views_of(r@) == lines_spec(s@),
{
    let v = crate::text::chars_of(s);
    let n = v.len();
    let mut acc: Vec<String> = Vec::new();
    let mut pos: usize = 0;
    proof {
        assert(views_of(acc@) + lines_from(s@, 0) =~= lines_spec(s@));
    }
    while pos < n
        invariant
            pos <= n,
            n == v@.len(),
            v@ == s@,
            views_of(acc@) + lines_from(s@, pos as int) == lines_spec(s@),
        decreases n - pos,
    {
        let ghost prev_acc = acc@;
        let mut j = pos;
        while j < n && v[j] != '\n'
            invariant
                pos <= j <= n,
                n == v@.len(),
                first_nl_from(v@, j as int) == first_nl_from(v@, pos as int),
            decreases n - j,
        {
            j += 1;
        }
        proof {
            assert(first_nl_from(v@, pos as int) == j as int);
        }
        let line_end = if j < n && j > pos && v[j - 1] == '\r' {
            j - 1
        } else {
            j
        };
        proof {
            if j < n {
                assert(strip_cr(v@.subrange(pos as int, j as int)) =~= v@.subrange(
                    pos as int,
                    line_end as int,
                ));
            }
        }
        let line = string_of_range(&v, pos, line_end);
        acc.push(line);
        proof {
            assert(views_of(acc@) =~= views_of(prev_acc).push(line@));
        }
        if j < n {
            pos = j + 1;
            proof {
                assert(views_of(acc@) + lines_from(s@, pos as int) =~= lines_spec(s@));
            }
        } else {
            pos = n;
            proof {
                assert(v@.subrange(j as int, n as int) =~= v@.subrange(
                    pos as int,
                    v@.len() as int,
                ));
                assert(views_of(acc@) + lines_from(s@, pos as int) =~= lines_spec(s@));
            }
        }
    }
    proof {
        assert(views_of(acc@) =~= lines_spec(s@));
    }
    acc
}

/// The index of the first line at or after `i` that reads `target`, or the
/// number of lines when none does.
pub open spec fn find_from(lines: Seq<Seq<char>>, target: Seq<char>, i: int) -> int
    decreases lines.len() - i,
{
    if i < 0 || i >= lines.len() {
        lines.len() as int
    } else if lines[i] == target {
        i
    } else {
        find_from(lines, target, i + 1)
    }
}

/// The index of the first line that reads `target`, or the number of lines.
pub open spec fn find_line_spec(lines: Seq<Seq<char>>, target: Seq<char>) -> int {
    find_from(lines, target, 0)
}

pub proof fn lemma_find_from(lines: Seq<Seq<char>>, target: Seq<char>, i: int)
    requires
        0 <= i <= lines.len(),
    ensures
        i <= find_from(lines, target, i) <= lines.len(),
        find_from(lines, target, i) < lines.len() ==> lines[find_from(lines, target, i)]
            == target,
        forall|k: int| i <= k < find_from(lines, target, i) ==> lines[k] != target,
    decreases lines.len() - i,
{
    if i < lines.len() && lines[i] != target {
        lemma_find_from(lines, target, i + 1);
    }
}

/// What `find_line` says about a vector of strings: either it points at a
/// string that reads `target`, or no string does.
pub proof fn lemma_find_path(v: Seq<String>, path: Seq<char>)
    ensures
        0 <= find_line_spec(views_of(v), path) <= v.len(),
        find_line_spec(views_of(v), path) < v.len() ==> v[find_line_spec(views_of(v), path)]@
            == path,
        find_line_spec(views_of(v), path) == v.len() ==> !has_str(v, path),
{
    let vs = views_of(v);
    lemma_find_from(vs, path, 0);
    let f = find_line_spec(vs, path);
    if f < vs.len() {
        assert(v[f]@ == vs[f]);
    } else {
        if has_str(v, path) {
            let w = choose|w: int| 0 <= w < v.len() && v[w]@ == path;
            assert(vs[w] == v[w]@);
            assert(false);
        }
    }
}

/// Finds the first string in `v` that reads `target`; returns the number of
/// strings when none does.
pub fn find_line(v: &Vec<String>, target: &str) -> (r: usize)
    ensures
        r == find_line_spec(views_of(v@), target@),
{
    let n = v.len();
    let mut i: usize = 0;
    while i < n
        invariant
            i <= n,
            n == v@.len(),
            find_from(views_of(v@), target@, i as int) == find_line_spec(views_of(v@), target@),
        decreases n - i,
    {
        if str_eq(v[i].as_str(), target) {
            return i;
        }
        i += 1;
    }
    i
}

/// The index of the first occurrence of `c` at or after `i`, or the length
/// of `s`.
pub open spec fn first_at_from(s: Seq<char>, c: char, i: int) -> int
    decreases s.len() - i,
{
    if i < 0 || i >= s.len() {
        s.len() as int
    } else if s[i] == c {
        i
    } else {
        first_at_from(s, c, i + 1)
    }
}

/// Whether `p` is a prefix of `s`.
pub open spec fn has_prefix(s: Seq<char>, p: Seq<char>) -> bool {
    p.len() <= s.len() && s.take(p.len() as int) == p
}

/// Decides whether the string `s` begins with `p`.
pub fn str_has_prefix(s: &str, p: &str) -> (r: bool)
    ensures
        r == has_prefix(s@, p@),
{
    let sn = s.unicode_len();
    let pn = p.unicode_len();
    if pn > sn {
        return false;
    }
    let mut i: usize = 0;
    while i < pn
        invariant
            i <= pn <= sn,
            sn == s@.len(),
            pn == p@.len(),
            forall|k: int| 0 <= k < i ==> s@[k] == p@[k],
        decreases pn - i,
    {
        if s.get_char(i) != p.get_char(i) {
            proof {
                assert(s@.take(pn as int)[i as int] != p@[i as int]);
            }
            return false;
        }
        i += 1;
    }
    proof {
        assert(s@.take(pn as int) =~= p@);
    }
    true
}

/// Lexicographic order on character sequences, comparing code points.
pub open spec fn lex_le(a: Seq<char>, b: Seq<char>) -> bool
    decreases a.len(),
{
    if a.len() == 0 {
        true
    } else if b.len() == 0 {
        false
    } else if a[0] == b[0] {
        lex_le(a.drop_first(), b.drop_first())
    } else {
        (a[0] as u32) < (b[0] as u32)
    }
}

/// Strict lexicographic order.
pub open spec fn lex_lt(a: Seq<char>, b: Seq<char>) -> bool {
    lex_le(a, b) && a != b
}

pub proof fn lemma_lex_total(a: Seq<char>, b: Seq<char>)
    ensures
        lex_le(a, b) || lex_le(b, a),
    decreases a.len(),
{
    if a.len() == 0 {
        assert(lex_le(a, b));
    } else if b.len() == 0 {
        assert(lex_le(b, a));
    } else if a[0] == b[0] {
        lemma_lex_total(a.drop_first(), b.drop_first());
        assert(lex_le(a, b) == lex_le(a.drop_first(), b.drop_first()));
        assert(lex_le(b, a) == lex_le(b.drop_first(), a.drop_first()));
    } else {
        lemma_char_cast_distinct(a[0], b[0]);
        assert(lex_le(a, b) == ((a[0] as u32) < (b[0] as u32)));
        assert(lex_le(b, a) == ((b[0] as u32) < (a[0] as u32)));
    }
}

/// Distinct characters have distinct code points.
pub proof fn lemma_char_cast_distinct(a: char, b: char)
    requires
        a != b,
    ensures
        a as u32 != b as u32,
{
    vstd::utf8::char_u32_cast(a, a as u32);
    vstd::utf8::char_u32_cast(b, b as u32);
}

pub proof fn lemma_lex_trans(a: Seq<char>, b: Seq<char>, c: Seq<char>)
    requires
        lex_le(a, b),
        lex_le(b, c),
    ensures
        lex_le(a, c),
    decreases a.len(),
{
    if a.len() > 0 && b.len() > 0 && c.len() > 0 && a[0] == b[0] && b[0] == c[0] {
        lemma_lex_trans(a.drop_first(), b.drop_first(), c.drop_first());
    }
}

proof fn lemma_lex_skip(a: Seq<char>, b: Seq<char>, i: int)
    requires
        0 <= i <= a.len(),
        i <= b.len(),
        forall|k: int| 0 <= k < i ==> a[k] == b[k],
    ensures
        lex_le(a, b) == lex_le(a.skip(i), b.skip(i)),
    decreases i,
{
    if i == 0 {
        assert(a.skip(0) =~= a);
        assert(b.skip(0) =~= b);
    } else {
        lemma_lex_skip(a, b, i - 1);
        assert(a.skip(i - 1).drop_first() =~= a.skip(i));
        assert(b.skip(i - 1).drop_first() =~= b.skip(i));
        assert(a.skip(i - 1)[0] == a[i - 1]);
    }
}

/// Decides the lexicographic order of two string slices.
pub fn str_lex_le(a: &str, b: &str) -> (r: bool)
    ensures
        r == lex_le(a@, b@),
{
    let an = a.unicode_len();
    let bn = b.unicode_len();
    let mut i: usize = 0;
    while i < an && i < bn
        invariant
            i <= an,
            i <= bn,
            an == a@.len(),
            bn == b@.len(),
            forall|k: int| 0 <= k < i ==> a@[k] == b@[k],
        decreases an - i,
    {
        let ca = a.get_char(i);
        let cb = b.get_char(i);
        if ca != cb {
            proof {
                lemma_lex_skip(a@, b@, i as int);
                assert(a@.skip(i as int)[0] == ca);
                assert(b@.skip(i as int)[0] == cb);
            }
            return (ca as u32) < (cb as u32);
        }
        i += 1;
    }
    proof {
        lemma_lex_skip(a@, b@, i as int);
        assert(a@.skip(i as int).len() == an - i);
        assert(b@.skip(i as int).len() == bn - i);
    }
    an <= bn
}

/// Sorted strictly ascending in code-point order, hence free of duplicates.
pub open spec fn sorted_unique(v: Seq<Seq<char>>) -> bool {
    forall|i: int, j: int| 0 <= i < j < v.len() ==> lex_lt(v[i], v[j])
}

/// Inserts `s` into the sorted, duplicate-free vector `v`, keeping it sorted
/// and duplicate-free; a string already present is not added twice.
pub fn insert_sorted(v: &mut Vec<String>, s: String)
    requires
        sorted_unique(views_of(old(v)@)),
    ensures
        sorted_unique(views_of(final(v)@)),
        forall|x: Seq<char>| has_str(final(v)@, x) <==> (has_str(old(v)@, x) || x == s@),
{
    let n = v.len();
    let mut i: usize = 0;
    loop
        invariant
            i <= n,
            n == v@.len(),
            v@ == old(v)@,
            sorted_unique(views_of(v@)),
            forall|k: int| 0 <= k < i ==> lex_lt(views_of(v@)[k], s@),
        ensures
            v@ == old(v)@,
            i <= n,
            forall|k: int| 0 <= k < i ==> lex_lt(views_of(v@)[k], s@),
            i < n ==> !lex_lt(views_of(v@)[i as int], s@),
        decreases n - i,
    {
        if i == n {
            break;
        }
        if !(str_lex_le(v[i].as_str(), s.as_str()) && !str_eq(v[i].as_str(), s.as_str())) {
            break;
        }
        i += 1;
    }
    if i < n && str_eq(v[i].as_str(), s.as_str()) {
        proof {
            assert(has_str(v@, s@));
            assert(forall|x: Seq<char>| has_str(v@, x) <==> (has_str(old(v)@, x) || x == s@));
        }
        return;
    }
    proof {
        if i < n {
            lemma_lex_total(views_of(v@)[i as int], s@);
        }
    }
    let ghost pre = v@;
    v.insert(i, s);
    proof {
        let vs = views_of(v@);
        let ps = views_of(pre);
        assert(vs =~= ps.subrange(0, i as int) + seq![s@] + ps.subrange(i as int, ps.len() as int));
        assert forall|p: int, q: int| 0 <= p < q < vs.len() implies lex_lt(vs[p], vs[q]) by {
            if p < i && q == i {
                assert(vs[p] == ps[p]);
                assert(lex_lt(ps[p], s@));
            } else if p == i && q > i {
                assert(vs[q] == ps[q - 1]);
                assert(lex_le(s@, ps[i as int]));
                if q - 1 > i {
                    assert(lex_lt(ps[i as int], ps[q - 1]));
                    lemma_lex_trans(s@, ps[i as int], ps[q - 1]);
                    if s@ == ps[q - 1] {
                        assert(lex_le(ps[i as int], s@));
                        assert(false);
                    }
                }
            } else if p < i && q > i {
                assert(vs[p] == ps[p]);
                assert(vs[q] == ps[q - 1]);
                if p < q - 1 {
                    assert(lex_lt(ps[p], ps[q - 1]));
                } else {
                    assert(lex_lt(ps[p], s@));
                    assert(lex_le(s@, ps[i as int]));
                }
            } else if p < i && q < i {
                assert(vs[p] == ps[p] && vs[q] == ps[q]);
            } else if p > i && q > i {
                assert(vs[p] == ps[p - 1] && vs[q] == ps[q - 1]);
            }
        }
        assert forall|x: Seq<char>| has_str(v@, x) <==> (has_str(pre, x) || x == s@) by {
            if has_str(v@, x) {
                let w = choose|w: int| 0 <= w < v@.len() && v@[w]@ == x;
                if w < i {
                    assert(pre[w]@ == x);
                } else if w == i {
                    assert(x == s@);
                } else {
                    assert(pre[w - 1]@ == x);
                }
            }
            if has_str(pre, x) {
                let w = choose|w: int| 0 <= w < pre.len() && pre[w]@ == x;
                if w < i {
                    assert(v@[w]@ == x);
                } else {
                    assert(v@[w + 1]@ == x);
                }
            }
            if x == s@ {
                assert(v@[i as int]@ == x);
            }
        }
        assert(pre == old(v)@);
        assert(forall|x: Seq<char>| has_str(v@, x) <==> (has_str(old(v)@, x) || x == s@));
    }
}

} // verus!
