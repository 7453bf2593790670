//! Character-sequence utilities shared by the content loader, the path
//! helpers and the front-matter parser: lexicographic ordering, prefix and
//! suffix tests, line splitting and joining, and whitespace trimming.
use vstd::prelude::*;
use vstd::string::*;

verus! {

/// Strict order on characters by their Unicode scalar value.
pub open spec fn char_lt(a: char, b: char) -> bool {
    (a as int) < (b as int)
}

/// Strict lexicographic order on character sequences, as `str` ordering
/// compares them.
pub open spec fn seq_lt(a: Seq<char>, b: Seq<char>) -> bool
    decreases a.len(),
{
    if b.len() == 0 {
        false
    } else if a.len() == 0 {
        true
    } else if char_lt(a[0], b[0]) {
        true
    } else if char_lt(b[0], a[0]) {
        false
    } else {
        seq_lt(a.drop_first(), b.drop_first())
    }
}

/// Lexicographic order, allowing equality.
pub open spec fn seq_le(a: Seq<char>, b: Seq<char>) -> bool {
    seq_lt(a, b) || a == b
}

/// `seq_lt` never holds both ways.
pub proof fn lemma_seq_lt_asymmetric(a: Seq<char>, b: Seq<char>)
    ensures
        !(seq_lt(a, b) && seq_lt(b, a)),
    decreases a.len(),
{
    if a.len() > 0 && b.len() > 0 && a[0] == b[0] {
        lemma_seq_lt_asymmetric(a.drop_first(), b.drop_first());
    }
}

/// Any two character sequences are ordered one way or the other, or equal.
pub proof fn lemma_seq_lt_total(a: Seq<char>, b: Seq<char>)
    ensures
        seq_lt(a, b) || seq_lt(b, a) || a == b,
    decreases a.len(),
{
    if a.len() == 0 && b.len() == 0 {
        assert(a =~= b);
    } else if a.len() > 0 && b.len() > 0 && a[0] == b[0] {
        lemma_seq_lt_total(a.drop_first(), b.drop_first());
        if !seq_lt(a, b) && !seq_lt(b, a) {
            assert(a.drop_first() == b.drop_first());
            assert(a =~= seq![a[0]] + a.drop_first());
            assert(b =~= seq![b[0]] + b.drop_first());
        }
    }
}

/// Lexicographic order is transitive.
pub proof fn lemma_seq_lt_transitive(a: Seq<char>, b: Seq<char>, c: Seq<char>)
    requires
        seq_lt(a, b),
        seq_lt(b, c),
    ensures
        seq_lt(a, c),
    decreases a.len() + b.len() + c.len(),
{
    if a.len() > 0 && b.len() > 0 && c.len() > 0 {
        if a[0] == b[0] && b[0] == c[0] {
            lemma_seq_lt_transitive(a.drop_first(), b.drop_first(), c.drop_first());
        }
    }
}

/// Exec comparison of two strings under `seq_lt`.
pub fn str_lt(a: &str, b: &str) -> (r: bool)
    ensures
        r == seq_lt(a@, b@),
{
    let a_len = a.unicode_len();
    let b_len = b.unicode_len();
    let mut i: usize = 0;
    proof {
        assert(a@.skip(0) =~= a@);
        assert(b@.skip(0) =~= b@);
    }
    loop
        invariant
            i <= a_len,
            i <= b_len,
            a_len == a@.len(),
            b_len == b@.len(),
            seq_lt(a@, b@) == seq_lt(a@.skip(i as int), b@.skip(i as int)),
        decreases a_len - i,
    {
        proof {
            assert(a@.skip(i as int).len() == a@.len() - i);
            assert(b@.skip(i as int).len() == b@.len() - i);
        }
        if i == a_len {
            return i < b_len;
        }
        if i == b_len {
            return false;
        }
        let ca = a.get_char(i);
        let cb = b.get_char(i);
        proof {
            assert(a@.skip(i as int)[0] == a@[i as int]);
            assert(b@.skip(i as int)[0] == b@[i as int]);
        }
        if ca != cb {
            return (ca as u32) < (cb as u32);
        }
        proof {
            assert(a@.skip(i as int).drop_first() =~= a@.skip(i + 1));
            assert(b@.skip(i as int).drop_first() =~= b@.skip(i + 1));
        }
        i = i + 1;
    }
}

/// Exec equality of two string slices.
pub fn str_eq(a: &str, b: &str) -> (r: bool)
    ensures
        r == (a@ == b@),
{
    let a_len = a.unicode_len();
    let b_len = b.unicode_len();
    if a_len != b_len {
        return false;
    }
    let mut i: usize = 0;
    while i < a_len
        invariant
            i <= a_len,
            a_len == a@.len(),
            a_len == b@.len(),
            forall|j: int| 0 <= j < i ==> a@[j] == b@[j],
        decreases a_len - i,
    {
        if a.get_char(i) != b.get_char(i) {
            return false;
        }
        i = i + 1;
    }
    proof {
        assert(a@ =~= b@);
    }
    true
}

/// `p` is a prefix of `s`.
pub open spec fn seq_starts_with(s: Seq<char>, p: Seq<char>) -> bool {
    p.len() <= s.len() && s.take(p.len() as int) == p
}

/// `p` is a suffix of `s`.
pub open spec fn seq_ends_with(s: Seq<char>, p: Seq<char>) -> bool {
    p.len() <= s.len() && s.skip(s.len() - p.len()) == p
}

/// Exec test of `seq_starts_with`.
pub fn str_starts_with(s: &str, p: &str) -> (r: bool)
    ensures
        r == seq_starts_with(s@, p@),
{
    let s_len = s.unicode_len();
    let p_len = p.unicode_len();
    if p_len > s_len {
        return false;
    }
    let head = s.substring_char(0, p_len);
    proof {
        assert(head@ =~= s@.take(p@.len() as int));
    }
    str_eq(head, p)
}

/// Exec test of `seq_ends_with`.
pub fn str_ends_with(s: &str, p: &str) -> (r: bool)
    ensures
        r == seq_ends_with(s@, p@),
{
    let s_len = s.unicode_len();
    let p_len = p.unicode_len();
    if p_len > s_len {
        return false;
    }
    let tail = s.substring_char(s_len - p_len, s_len);
    proof {
        assert(tail@ =~= s@.skip(s@.len() - p@.len()));
    }
    str_eq(tail, p)
}

/// The views of a sequence of owned strings.
pub open spec fn seqs_of(v: Seq<String>) -> Seq<Seq<char>> {
    v.map_values(|l: String| l@)
}

/// The lines of `s`, split as `str::lines` splits them: a line ends at `\n`
/// or `\r\n` (the line ending is not part of the line), and a trailing line
/// ending produces no final empty line.
pub open spec fn spec_lines(s: Seq<char>) -> Seq<Seq<char>>
    decreases s.len(),
{
    if s.len() == 0 {
        Seq::empty()
    } else if s[0] == '\n' {
        seq![Seq::<char>::empty()] + spec_lines(s.drop_first())
    } else if s.len() >= 2 && s[0] == '\r' && s[1] == '\n' {
        seq![Seq::<char>::empty()] + spec_lines(s.skip(2))
    } else {
        let rest = spec_lines(s.drop_first());
        if rest.len() == 0 {
            seq![seq![s[0]]]
        } else {
            seq![seq![s[0]] + rest[0]] + rest.drop_first()
        }
    }
}

/// `l` without one trailing carriage return, if it has one.
pub open spec fn spec_strip_cr(l: Seq<char>) -> Seq<char> {
    if l.len() > 0 && l.last() == '\r' {
        l.drop_last()
    } else {
        l
    }
}

/// A line followed by `\n` and more text splits off as one line.
proof fn lemma_lines_break(cur: Seq<char>, t: Seq<char>)
    requires
        forall|j: int| 0 <= j < cur.len() ==> cur[j] != '\n',
    ensures
        spec_lines(cur + seq!['\n'] + t) == seq![spec_strip_cr(cur)] + spec_lines(t),
    decreases cur.len(),
{
    let s = cur + seq!['\n'] + t;
    if cur.len() == 0 {
        assert(s =~= seq!['\n'] + t);
        assert(s[0] == '\n');
        assert(s.drop_first() =~= t);
        assert(spec_strip_cr(cur) =~= Seq::<char>::empty());
    } else if cur.len() == 1 && cur[0] == '\r' {
        assert(s.len() == 2 + t.len());
        assert(s[0] == '\r' && s[1] == '\n');
        assert(s.skip(2) =~= t);
        assert(spec_strip_cr(cur) =~= Seq::<char>::empty());
    } else {
        let c0 = cur[0];
        assert(s[0] == c0);
        assert(s[0] != '\n');
        if s.len() >= 2 && s[0] == '\r' && s[1] == '\n' {
            // impossible: cur.len() >= 2, so s[1] == cur[1] != '\n'
            assert(s[1] == cur[1]);
            assert(false);
        }
        lemma_lines_break(cur.drop_first(), t);
        assert(s.drop_first() =~= cur.drop_first() + seq!['\n'] + t);
        let rest = spec_lines(s.drop_first());
        assert(rest == seq![spec_strip_cr(cur.drop_first())] + spec_lines(t));
        assert(rest.len() >= 1);
        assert(rest[0] == spec_strip_cr(cur.drop_first()));
        assert(rest.drop_first() =~= spec_lines(t));
        if cur.last() == '\r' {
            assert(cur.drop_first().len() > 0);
            assert(cur.drop_first().last() == cur.last());
            assert(seq![c0] + cur.drop_first().drop_last() =~= cur.drop_last());
            assert(seq![c0] + rest[0] =~= spec_strip_cr(cur));
        } else {
            if cur.drop_first().len() > 0 {
                assert(cur.drop_first().last() == cur.last());
            }
            assert(seq![c0] + cur.drop_first() =~= cur);
            assert(seq![c0] + rest[0] =~= spec_strip_cr(cur));
        }
        assert(spec_lines(s) =~= seq![spec_strip_cr(cur)] + spec_lines(t));
    }
}

/// Text without a line ending is a single line.
proof fn lemma_lines_single(cur: Seq<char>)
    requires
        cur.len() > 0,
        forall|j: int| 0 <= j < cur.len() ==> cur[j] != '\n',
    ensures
        spec_lines(cur) == seq![cur],
    decreases cur.len(),
{
    if cur.len() >= 2 && cur[0] == '\r' && cur[1] == '\n' {
        assert(false);
    }
    if cur[0] == '\n' {
        assert(false);
    }
    if cur.len() == 1 {
        assert(spec_lines(cur.drop_first()) =~= Seq::<Seq<char>>::empty());
        assert(seq![cur[0]] =~= cur);
        assert(spec_lines(cur) == seq![seq![cur[0]]]);
    } else {
        lemma_lines_single(cur.drop_first());
        assert(spec_lines(cur.drop_first()) == seq![cur.drop_first()]);
        assert(seq![cur[0]] + cur.drop_first() =~= cur);
        assert(spec_lines(cur) =~= seq![cur]);
    }
}

/// Split `s` into its lines, as `str::lines` does.
pub fn split_lines(s: &str) -> (r: Vec<String>)
    ensures
        seqs_of(r@) == spec_lines(s@),
{
    let len = s.unicode_len();
    let mut out: Vec<String> = Vec::new();
    let mut start: usize = 0;
    let mut i: usize = 0;
    proof {
        assert(s@.subrange(0, len as int) =~= s@);
        assert(seqs_of(out@) =~= Seq::<Seq<char>>::empty());
    }
    while i < len
        invariant
            start <= i <= len,
            len == s@.len(),
            forall|j: int| start <= j < i ==> s@[j] != '\n',
            spec_lines(s@) == seqs_of(out@) + spec_lines(s@.subrange(start as int, len as int)),
        decreases len - i,
    {
        let c = s.get_char(i);
        if c == '\n' {
            let strip = i > start && s.get_char(i - 1) == '\r';
            let end = if strip { i - 1 } else { i };
            let line = s.substring_char(start, end);
            proof {
                let cur = s@.subrange(start as int, i as int);
                let t = s@.subrange(i + 1, len as int);
                lemma_lines_break(cur, t);
                assert(s@.subrange(start as int, len as int) =~= cur + seq!['\n'] + t);
                if strip {
                    assert(cur.last() == '\r');
                    assert(line@ =~= cur.drop_last());
                } else {
                    assert(line@ =~= cur);
                }
                assert(line@ == spec_strip_cr(cur));
            }
            let owned = line.to_owned();
            out.push(owned);
            proof {
                assert(seqs_of(out@) =~= seqs_of(out@.drop_last()) + seq![line@]);
            }
            start = i + 1;
        }
        i = i + 1;
    }
    if start < len {
        let line = s.substring_char(start, len);
        proof {
            let cur = s@.subrange(start as int, len as int);
            lemma_lines_single(cur);
        }
        let owned = line.to_owned();
        out.push(owned);
        proof {
            assert(seqs_of(out@) =~= seqs_of(out@.drop_last()) + seq![line@]);
        }
    } else {
        proof {
            assert(s@.subrange(start as int, len as int) =~= Seq::<char>::empty());
        }
    }
    out
}

/// The lines joined back with `\n` between them, with no trailing newline.
pub open spec fn spec_join_lines(ls: Seq<Seq<char>>) -> Seq<char>
    decreases ls.len(),
{
    if ls.len() == 0 {
        Seq::empty()
    } else if ls.len() == 1 {
        ls[0]
    } else {
        ls[0] + seq!['\n'] + spec_join_lines(ls.drop_first())
    }
}

/// Joining distributes over appending one more line at the end.
proof fn lemma_join_lines_push(ls: Seq<Seq<char>>, x: Seq<char>)
    ensures
        spec_join_lines(ls.push(x)) == if ls.len() == 0 {
            x
        } else {
            spec_join_lines(ls) + seq!['\n'] + x
        },
    decreases ls.len(),
{
    if ls.len() == 0 {
        assert(ls.push(x) =~= seq![x]);
        assert(spec_join_lines(seq![x]) == x);
    } else if ls.len() == 1 {
        assert(ls.push(x).drop_first() =~= seq![x]);
        assert(ls.push(x)[0] == ls[0]);
        assert(spec_join_lines(seq![x]) == x);
        assert(spec_join_lines(ls.push(x)) == ls[0] + seq!['\n'] + x);
    } else {
        lemma_join_lines_push(ls.drop_first(), x);
        assert(ls.push(x).drop_first() =~= ls.drop_first().push(x));
        assert(ls.push(x)[0] == ls[0]);
        assert(ls[0] + seq!['\n'] + (spec_join_lines(ls.drop_first()) + seq!['\n'] + x) =~= (ls[0]
            + seq!['\n'] + spec_join_lines(ls.drop_first())) + seq!['\n'] + x);
    }
}

/// Join the lines of `v` from index `from` on with `\n`.
pub fn join_lines_from(v: &Vec<String>, from: usize) -> (r: String)
    requires
        from <= v@.len(),
    ensures
        r@ == spec_join_lines(seqs_of(v@).skip(from as int)),
{
    let ghost all = seqs_of(v@).skip(from as int);
    let mut out = String::new();
    let mut i: usize = from;
    proof {
        assert(seqs_of(v@).skip(from as int).take(0) =~= Seq::<Seq<char>>::empty());
    }
    while i < v.len()
        invariant
            from <= i <= v@.len(),
            all == seqs_of(v@).skip(from as int),
            out@ == spec_join_lines(all.take(i - from)),
        decreases v@.len() - i,
    {
        let line = &v[i];
        if i > from {
            out.append("\n");
        }
        out.append(line.as_str());
        proof {
            let k = i - from;
            lemma_join_lines_push(all.take(k), all[k]);
            assert(all.take(k).push(all[k]) =~= all.take(k + 1));
            assert(all[k] == v@[i as int]@);
            if i > from {
                reveal_strlit("\n");
                assert("\n"@ =~= seq!['\n']);
            }
        }
        i = i + 1;
    }
    proof {
        assert(all.take(v@.len() - from) =~= all);
    }
    out
}

/// ASCII whitespace, as the trimming in this crate understands it.
pub open spec fn is_ws(c: char) -> bool {
    c == ' ' || c == '\t' || c == '\r' || c == '\n'
}

/// `s` without leading whitespace.
pub open spec fn spec_trim_start(s: Seq<char>) -> Seq<char>
    decreases s.len(),
{
    if s.len() > 0 && is_ws(s[0]) {
        spec_trim_start(s.drop_first())
    } else {
        s
    }
}

/// `s` without trailing whitespace.
pub open spec fn spec_trim_end(s: Seq<char>) -> Seq<char>
    decreases s.len(),
{
    if s.len() > 0 && is_ws(s.last()) {
        spec_trim_end(s.drop_last())
    } else {
        s
    }
}

/// `s` without leading and trailing whitespace.
pub open spec fn spec_trim(s: Seq<char>) -> Seq<char> {
    spec_trim_end(spec_trim_start(s))
}

/// Exec whitespace test.
pub fn is_ws_char(c: char) -> (r: bool)
    ensures
        r == is_ws(c),
{
    c == ' ' || c == '\t' || c == '\r' || c == '\n'
}

/// Trim ASCII whitespace from both ends of `s`.
pub fn trim(s: &str) -> (r: &str)
    ensures
        r@ == spec_trim(s@),
{
    let len = s.unicode_len();
    let mut a: usize = 0;
    proof {
        assert(s@.skip(0) =~= s@);
    }
    while a < len && is_ws_char(s.get_char(a))
        invariant
            a <= len,
            len == s@.len(),
            spec_trim_start(s@) == spec_trim_start(s@.skip(a as int)),
        decreases len - a,
    {
        proof {
            assert(s@.skip(a as int)[0] == s@[a as int]);
            assert(s@.skip(a as int).drop_first() =~= s@.skip(a + 1));
        }
        a = a + 1;
    }
    proof {
        if a < len {
            assert(s@.skip(a as int)[0] == s@[a as int]);
        }
        assert(spec_trim_start(s@) == s@.skip(a as int));
    }
    let mut b: usize = len;
    while b > a && is_ws_char(s.get_char(b - 1))
        invariant
            a <= b <= len,
            len == s@.len(),
            spec_trim_start(s@) == s@.skip(a as int),
            spec_trim_end(s@.skip(a as int)) == spec_trim_end(s@.subrange(a as int, b as int)),
        decreases b,
    {
        proof {
            let t = s@.subrange(a as int, b as int);
            assert(t.last() == s@[b - 1]);
            assert(t.drop_last() =~= s@.subrange(a as int, b - 1));
        }
        b = b - 1;
    }
    proof {
        let t = s@.subrange(a as int, b as int);
        if b > a {
            assert(t.last() == s@[b - 1]);
        }
        assert(spec_trim_end(t) == t);
    }
    s.substring_char(a, b)
}

/// The pattern `pat` occurs in `s` at position `at`.
pub fn match_at(s: &str, at: usize, pat: &str) -> (r: bool)
    requires
        at + pat@.len() <= s@.len(),
    ensures
        r == (s@.subrange(at as int, at + pat@.len()) == pat@),
{
    let s_len = s.unicode_len();
    let pat_len = pat.unicode_len();
    proof {
        assert(at + pat_len <= s_len);
    }
    let part = s.substring_char(at, at + pat_len);
    str_eq(part, pat)
}

/// The first position of `c` in `s`, if any.
pub fn find_char(s: &str, c: char) -> (r: Option<usize>)
    ensures
        match r {
            Some(i) => i < s@.len() && s@[i as int] == c && forall|j: int|
                0 <= j < i ==> s@[j] != c,
            None => forall|j: int| 0 <= j < s@.len() ==> s@[j] != c,
        },
{
    let len = s.unicode_len();
    let mut i: usize = 0;
    while i < len
        invariant
            i <= len,
            len == s@.len(),
            forall|j: int| 0 <= j < i ==> s@[j] != c,
        decreases len - i,
    {
        if s.get_char(i) == c {
            return Some(i);
        }
        i = i + 1;
    }
    None
}

/// The segments of `s` between commas. A split always has at least one
/// segment; empty segments are kept.
pub open spec fn spec_split_commas(s: Seq<char>) -> Seq<Seq<char>>
    decreases s.len(),
{
    if s.len() == 0 {
        seq![Seq::<char>::empty()]
    } else if s[0] == ',' {
        seq![Seq::<char>::empty()] + spec_split_commas(s.drop_first())
    } else {
        let rest = spec_split_commas(s.drop_first());
        seq![seq![s[0]] + rest[0]] + rest.drop_first()
    }
}

/// A split has at least one segment.
proof fn lemma_split_commas_len(s: Seq<char>)
    ensures
        spec_split_commas(s).len() >= 1,
    decreases s.len(),
{
    if s.len() > 0 {
        lemma_split_commas_len(s.drop_first());
    }
}

/// A segment followed by a comma and more text splits off whole.
proof fn lemma_split_commas_break(cur: Seq<char>, t: Seq<char>)
    requires
        forall|j: int| 0 <= j < cur.len() ==> cur[j] != ',',
    ensures
        spec_split_commas(cur + seq![','] + t) == seq![cur] + spec_split_commas(t),
    decreases cur.len(),
{
    let s = cur + seq![','] + t;
    if cur.len() == 0 {
        assert(cur =~= Seq::<char>::empty());
        assert(s =~= seq![','] + t);
        assert(s[0] == ',');
        assert(s.drop_first() =~= t);
    } else {
        lemma_split_commas_break(cur.drop_first(), t);
        assert(s[0] == cur[0]);
        assert(s.drop_first() =~= cur.drop_first() + seq![','] + t);
        let rest = spec_split_commas(s.drop_first());
        assert(rest == seq![cur.drop_first()] + spec_split_commas(t));
        assert(rest[0] == cur.drop_first());
        assert(rest.drop_first() =~= spec_split_commas(t));
        assert(seq![s[0]] + rest[0] =~= cur);
        assert(spec_split_commas(s) =~= seq![cur] + spec_split_commas(t));
    }
}

/// Text without a comma is a single segment.
proof fn lemma_split_commas_single(cur: Seq<char>)
    requires
        forall|j: int| 0 <= j < cur.len() ==> cur[j] != ',',
    ensures
        spec_split_commas(cur) == seq![cur],
    decreases cur.len(),
{
    if cur.len() == 0 {
        assert(cur =~= Seq::<char>::empty());
    } else {
        lemma_split_commas_single(cur.drop_first());
        let rest = spec_split_commas(cur.drop_first());
        assert(rest[0] == cur.drop_first());
        assert(rest.drop_first() =~= Seq::<Seq<char>>::empty());
        assert(seq![cur[0]] + rest[0] =~= cur);
        assert(spec_split_commas(cur) =~= seq![cur]);
    }
}

/// Split `s` at its commas.
pub fn split_commas(s: &str) -> (r: Vec<String>)
    ensures
        seqs_of(r@) == spec_split_commas(s@),
{
    let len = s.unicode_len();
    let mut out: Vec<String> = Vec::new();
    let mut start: usize = 0;
    let mut i: usize = 0;
    proof {
        assert(s@.subrange(0, len as int) =~= s@);
        assert(seqs_of(out@) =~= Seq::<Seq<char>>::empty());
    }
    while i < len
        invariant
            start <= i <= len,
            len == s@.len(),
            forall|j: int| start <= j < i ==> s@[j] != ',',
            spec_split_commas(s@) == seqs_of(out@) + spec_split_commas(
                s@.subrange(start as int, len as int),
            ),
        decreases len - i,
    {
        let c = s.get_char(i);
        if c == ',' {
            let seg = s.substring_char(start, i);
            proof {
                let cur = s@.subrange(start as int, i as int);
                let t = s@.subrange(i + 1, len as int);
                lemma_split_commas_break(cur, t);
                assert(s@.subrange(start as int, len as int) =~= cur + seq![','] + t);
                assert(seg@ =~= cur);
            }
            let owned = seg.to_owned();
            out.push(owned);
            proof {
                assert(seqs_of(out@) =~= seqs_of(out@.drop_last()) + seq![seg@]);
            }
            start = i + 1;
        }
        i = i + 1;
    }
    let seg = s.substring_char(start, len);
    proof {
        let cur = s@.subrange(start as int, len as int);
        lemma_split_commas_single(cur);
    }
    let owned = seg.to_owned();
    out.push(owned);
    proof {
        assert(seqs_of(out@) =~= seqs_of(out@.drop_last()) + seq![seg@]);
    }
    out
}

/// The first position of `c` in `s`, or `s.len()` if `c` never occurs.
pub open spec fn spec_find(s: Seq<char>, c: char) -> int
    decreases s.len(),
{
    if s.len() == 0 {
        0
    } else if s[0] == c {
        0
    } else {
        1 + spec_find(s.drop_first(), c)
    }
}

/// What `spec_find` returns: the first occurrence, or the length.
pub proof fn lemma_spec_find(s: Seq<char>, c: char)
    ensures
        0 <= spec_find(s, c) <= s.len(),
        spec_find(s, c) < s.len() ==> s[spec_find(s, c)] == c,
        forall|j: int| 0 <= j < spec_find(s, c) ==> s[j] != c,
    decreases s.len(),
{
    if s.len() > 0 && s[0] != c {
        lemma_spec_find(s.drop_first(), c);
        let i = spec_find(s.drop_first(), c);
        assert forall|j: int| 0 <= j < 1 + i implies s[j] != c by {
            if j > 0 {
                assert(s.drop_first()[j - 1] != c);
            }
        }
        if i < s.drop_first().len() {
            assert(s.drop_first()[i] == c);
        }
    }
}

/// The last position of `c` in `s`, or `-1` if `c` never occurs.
pub open spec fn spec_rfind(s: Seq<char>, c: char) -> int
    decreases s.len(),
{
    if s.len() == 0 {
        -1
    } else if s.last() == c {
        s.len() - 1
    } else {
        spec_rfind(s.drop_last(), c)
    }
}

/// The last position of `c` in `s`, if any.
pub fn rfind_char(s: &str, c: char) -> (r: Option<usize>)
    ensures
        match r {
            Some(i) => i < s@.len() && i == spec_rfind(s@, c),
            None => spec_rfind(s@, c) == -1,
        },
{
    let len = s.unicode_len();
    let mut j: usize = len;
    proof {
        assert(s@.take(len as int) =~= s@);
    }
    while j > 0
        invariant
            j <= len,
            len == s@.len(),
            spec_rfind(s@, c) == spec_rfind(s@.take(j as int), c),
        decreases j,
    {
        let ch = s.get_char(j - 1);
        proof {
            assert(s@.take(j as int).last() == s@[j - 1]);
            assert(s@.take(j as int).drop_last() =~= s@.take(j - 1));
        }
        if ch == c {
            return Some(j - 1);
        }
        j = j - 1;
    }
    proof {
        assert(s@.take(0) =~= Seq::<char>::empty());
    }
    None
}

/// `v` without one pair of surrounding double quotes, if it has one.
pub open spec fn spec_unquote(v: Seq<char>) -> Seq<char> {
    if v.len() >= 2 && v[0] == '"' && v.last() == '"' {
        v.subrange(1, v.len() - 1)
    } else {
        v
    }
}

/// Exec unquoting under `spec_unquote`.
pub fn unquote(v: &str) -> (r: &str)
    ensures
        r@ == spec_unquote(v@),
{
    let len = v.unicode_len();
    if len >= 2 && v.get_char(0) == '"' && v.get_char(len - 1) == '"' {
        v.substring_char(1, len - 1)
    } else {
        v
    }
}

/// `s` with every occurrence of `pat` replaced by `rep`, scanning left to
/// right without overlap, as `str::replace` does for a nonempty pattern.
pub open spec fn spec_replace(s: Seq<char>, pat: Seq<char>, rep: Seq<char>) -> Seq<char>
    decreases s.len(),
{
    if pat.len() == 0 || s.len() < pat.len() {
        s
    } else if s.take(pat.len() as int) == pat {
        rep + spec_replace(s.skip(pat.len() as int), pat, rep)
    } else {
        seq![s[0]] + spec_replace(s.drop_first(), pat, rep)
    }
}

/// Exec replacement under `spec_replace`.
pub fn replace_all(s: &str, pat: &str, rep: &str) -> (r: String)
    requires
        pat@.len() > 0,
    ensures
        r@ == spec_replace(s@, pat@, rep@),
{
    let len = s.unicode_len();
    let pat_len = pat.unicode_len();
    let mut out = String::new();
    let mut i: usize = 0;
    proof {
        assert(s@.skip(0) =~= s@);
    }
    while i < len
        invariant
            i <= len,
            len == s@.len(),
            pat_len == pat@.len(),
            pat_len > 0,
            spec_replace(s@, pat@, rep@) == out@ + spec_replace(s@.skip(i as int), pat@, rep@),
        decreases len - i,
    {
        let ghost t = s@.skip(i as int);
        if pat_len <= len - i && match_at(s, i, pat) {
            out.append(rep);
            proof {
                assert(t.take(pat@.len() as int) =~= s@.subrange(i as int, i + pat@.len()));
                assert(t.skip(pat@.len() as int) =~= s@.skip(i + pat_len));
            }
            i = i + pat_len;
        } else {
            let piece = s.substring_char(i, i + 1);
            out.append(piece);
            proof {
                assert(t.len() > 0);
                if t.len() >= pat@.len() {
                    assert(t.take(pat@.len() as int) =~= s@.subrange(i as int, i + pat@.len()));
                }
                assert(piece@ =~= seq![t[0]]);
                assert(t[0] == s@[i as int]);
                assert(t.drop_first() =~= s@.skip(i + 1));
            }
            i = i + 1;
        }
    }
    proof {
        assert(s@.skip(len as int) =~= Seq::<char>::empty());
    }
    out
}

} // verus!
