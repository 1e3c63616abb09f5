//! Character-level helpers shared by the subtitle parsers: splitting on a
//! separator, breaking text into lines, prefixes and joining.
use vstd::prelude::*;

verus! {

/// Relies on `String::push`: the character is appended at the end.
pub assume_specification[ String::push ](s: &mut String, ch: char)
    ensures
        final(s)@ == old(s)@.push(ch),
;

/// The views of a sequence of strings.
pub open spec fn views(v: Seq<String>) -> Seq<Seq<char>> {
    v.map_values(|s: String| s@)
}

/// `s` split at every occurrence of `sep`; always at least one piece.
pub open spec fn split_on<A>(s: Seq<A>, sep: A) -> Seq<Seq<A>>
    decreases s.len(),
{
    if s.len() == 0 {
        seq![Seq::<A>::empty()]
    } else {
        let prev = split_on(s.drop_last(), sep);
        if s.last() == sep {
            prev.push(Seq::<A>::empty())
        } else {
            prev.update(prev.len() - 1, prev.last().push(s.last()))
        }
    }
}

/// A line with one trailing carriage return removed.
pub open spec fn strip_cr(l: Seq<char>) -> Seq<char> {
    if l.len() > 0 && l.last() == '\r' {
        l.drop_last()
    } else {
        l
    }
}

/// The lines of a text: split at `\n`, each without a trailing `\r`.
pub open spec fn split_lines(s: Seq<char>) -> Seq<Seq<char>> {
    split_on(s, '\n').map_values(|l: Seq<char>| strip_cr(l))
}

pub open spec fn starts_with(s: Seq<char>, p: Seq<char>) -> bool {
    p.len() <= s.len() && s.subrange(0, p.len() as int) == p
}

/// The pieces joined with `sep` between neighbours.
pub open spec fn join_on(fs: Seq<Seq<char>>, sep: char) -> Seq<char>
    decreases fs.len(),
{
    if fs.len() <= 1 {
        if fs.len() == 0 {
            Seq::empty()
        } else {
            fs[0]
        }
    } else {
        join_on(fs.drop_last(), sep).push(sep) + fs.last()
    }
}

pub open spec fn has_char(s: Seq<char>, c: char) -> bool {
    exists|i: int| 0 <= i < s.len() && s[i] == c
}

pub proof fn lemma_split_on_len<A>(s: Seq<A>, sep: A)
    ensures
        split_on(s, sep).len() >= 1,
    decreases s.len(),
{
    if s.len() > 0 {
        lemma_split_on_len(s.drop_last(), sep);
    }
}

/// Cutting `a`, a separator, then `b`, gives the pieces of `a` followed by
/// the pieces of `b`.
pub proof fn lemma_split_on_append(a: Seq<char>, sep: char, b: Seq<char>)
    ensures
        split_on(a.push(sep) + b, sep) == split_on(a, sep) + split_on(b, sep),
    decreases b.len(),
{
    lemma_split_on_len(a, sep);
    if b.len() == 0 {
        assert(a.push(sep) + b == a.push(sep));
        assert(a.push(sep).drop_last() == a);
        assert(split_on(a, sep).push(Seq::<char>::empty()) == split_on(a, sep) + split_on(b, sep));
    } else {
        let b1 = b.drop_last();
        let x = b.last();
        assert((a.push(sep) + b).drop_last() == a.push(sep) + b1);
        assert((a.push(sep) + b).last() == x);
        lemma_split_on_append(a, sep, b1);
        lemma_split_on_len(b1, sep);
        let sa = split_on(a, sep);
        let sb1 = split_on(b1, sep);
        if x == sep {
            assert((sa + sb1).push(Seq::<char>::empty()) == sa + sb1.push(Seq::<char>::empty()));
        } else {
            assert((sa + sb1).update((sa + sb1).len() - 1, (sa + sb1).last().push(x)) == sa
                + sb1.update(sb1.len() - 1, sb1.last().push(x)));
        }
    }
}

/// A text without the separator is a single piece.
pub proof fn lemma_split_on_plain(s: Seq<char>, sep: char)
    requires
        !has_char(s, sep),
    ensures
        split_on(s, sep) == seq![s],
    decreases s.len(),
{
    if s.len() > 0 {
        assert(!has_char(s.drop_last(), sep)) by {
            if has_char(s.drop_last(), sep) {
                let i = choose|i: int| 0 <= i < s.drop_last().len() && s.drop_last()[i] == sep;
                assert(s[i] == sep);
            }
        }
        lemma_split_on_plain(s.drop_last(), sep);
        assert(s.last() != sep) by {
            assert(s[s.len() - 1] == s.last());
        }
        assert(s.drop_last().push(s.last()) == s);
    } else {
        assert(s == Seq::<char>::empty());
    }
}

/// Joining the pieces of a text gives the text back.
pub proof fn lemma_join_split(s: Seq<char>, sep: char)
    ensures
        join_on(split_on(s, sep), sep) == s,
    decreases s.len(),
{
    if s.len() == 0 {
        assert(split_on(s, sep) == seq![Seq::<char>::empty()]);
        assert(s == Seq::<char>::empty());
    } else {
        let s1 = s.drop_last();
        let y = s.last();
        lemma_join_split(s1, sep);
        lemma_split_on_len(s1, sep);
        let p = split_on(s1, sep);
        if y == sep {
            let q = p.push(Seq::<char>::empty());
            assert(q.drop_last() == p);
            assert(join_on(q, sep) == join_on(p, sep).push(sep) + Seq::<char>::empty());
            assert(s1.push(sep) + Seq::<char>::empty() == s);
        } else {
            let q = p.update(p.len() - 1, p.last().push(y));
            if p.len() == 1 {
                assert(join_on(q, sep) == q[0]);
                assert(s1.push(y) == s);
            } else {
                assert(q.drop_last() == p.drop_last());
                assert(join_on(q, sep) == join_on(p.drop_last(), sep).push(sep) + p.last().push(y));
                assert(join_on(p.drop_last(), sep).push(sep) + p.last().push(y) == (join_on(
                    p.drop_last(),
                    sep,
                ).push(sep) + p.last()).push(y));
                assert(s1.push(y) == s);
            }
        }
    }
}

/// Cutting joined pieces, of which all but the last hold no separator,
/// gives those pieces and then the pieces of the last.
pub proof fn lemma_split_join(fs: Seq<Seq<char>>, sep: char)
    requires
        fs.len() >= 1,
        forall|i: int| 0 <= i < fs.len() - 1 ==> !has_char(#[trigger] fs[i], sep),
    ensures
        split_on(join_on(fs, sep), sep) == fs.drop_last() + split_on(fs.last(), sep),
    decreases fs.len(),
{
    if fs.len() == 1 {
        assert(fs.drop_last() + split_on(fs.last(), sep) == split_on(fs[0], sep));
    } else {
        let f1 = fs.drop_last();
        lemma_split_join(f1, sep);
        lemma_split_on_append(join_on(f1, sep), sep, fs.last());
        lemma_split_on_plain(f1.last(), sep);
        assert(f1.drop_last() + seq![f1.last()] == f1);
    }
}

/// The lines of text made of lines, each followed by `\n`.
pub open spec fn text_of_lines(ls: Seq<Seq<char>>) -> Seq<char>
    decreases ls.len(),
{
    if ls.len() == 0 {
        Seq::empty()
    } else {
        text_of_lines(ls.drop_last()) + ls.last().push('\n')
    }
}

/// A line that reads back as itself: no `\n`, no trailing `\r`.
spec fn plain_line(l: Seq<char>) -> bool {
    !has_char(l, '\n') && !(l.len() > 0 && l.last() == '\r')
}

/// A line with neither `\n` nor `\r` in it.
pub open spec fn bare_line(l: Seq<char>) -> bool {
    !has_char(l, '\n') && !has_char(l, '\r')
}

/// The groups of lines laid end to end.
pub open spec fn concat_groups(gs: Seq<Seq<Seq<char>>>) -> Seq<Seq<char>>
    decreases gs.len(),
{
    if gs.len() == 0 {
        Seq::empty()
    } else {
        concat_groups(gs.drop_last()) + gs.last()
    }
}

/// The lines of an ASS text: a line ends at `\n`, at `\r\n`, or at a lone
/// `\r`.
pub open spec fn ass_lines(s: Seq<char>) -> Seq<Seq<char>> {
    concat_groups(split_on(s, '\n').map_values(|p: Seq<char>| split_on(strip_cr(p), '\r')))
}

/// No piece holds the separator.
pub proof fn lemma_split_on_pieces(s: Seq<char>, sep: char)
    ensures
        forall|i: int|
            0 <= i < split_on(s, sep).len() ==> !has_char(#[trigger] split_on(s, sep)[i], sep),
    decreases s.len(),
{
    if s.len() > 0 {
        lemma_split_on_pieces(s.drop_last(), sep);
        lemma_split_on_len(s.drop_last(), sep);
        let prev = split_on(s.drop_last(), sep);
        let x = s.last();
        if x != sep {
            let last = prev.last();
            assert(!has_char(last, sep)) by {
                assert(last == prev[prev.len() - 1]);
            }
            assert(!has_char(last.push(x), sep)) by {
                if has_char(last.push(x), sep) {
                    let k = choose|k: int| 0 <= k < last.push(x).len() && last.push(x)[k] == sep;
                    if k < last.len() {
                        assert(last[k] == sep);
                    }
                }
            }
            let q = prev.update(prev.len() - 1, last.push(x));
            assert forall|i: int| 0 <= i < q.len() implies !has_char(#[trigger] q[i], sep) by {
                if i < prev.len() - 1 {
                    assert(q[i] == prev[i]);
                }
            }
        } else {
            let q = prev.push(Seq::<char>::empty());
            assert forall|i: int| 0 <= i < q.len() implies !has_char(#[trigger] q[i], sep) by {
                if i < prev.len() {
                    assert(q[i] == prev[i]);
                }
            }
        }
    }
}

proof fn lemma_concat_groups_no_cr(gs: Seq<Seq<Seq<char>>>)
    requires
        forall|g: int, j: int|
            0 <= g < gs.len() && 0 <= j < gs[g].len() ==> !has_char(#[trigger] gs[g][j], '\r'),
    ensures
        forall|i: int|
            0 <= i < concat_groups(gs).len() ==> !has_char(#[trigger] concat_groups(gs)[i], '\r'),
    decreases gs.len(),
{
    if gs.len() > 0 {
        let g1 = gs.drop_last();
        assert forall|g: int, j: int| 0 <= g < g1.len() && 0 <= j < g1[g].len() implies !has_char(
            #[trigger] g1[g][j],
            '\r',
        ) by {
            assert(g1[g] == gs[g]);
        }
        lemma_concat_groups_no_cr(g1);
        let a = concat_groups(g1);
        let b = gs.last();
        assert forall|i: int| 0 <= i < (a + b).len() implies !has_char(#[trigger] (a + b)[i], '\r') by {
            if i >= a.len() {
                assert((a + b)[i] == gs[gs.len() - 1][i - a.len()]);
            }
        }
    }
}

/// No ASS line holds a carriage return, so dropping a trailing one changes
/// nothing.
pub proof fn lemma_ass_lines_bare(s: Seq<char>)
    ensures
        forall|i: int| 0 <= i < ass_lines(s).len() ==> !has_char(#[trigger] ass_lines(s)[i], '\r'),
        ass_lines(s).map_values(|l: Seq<char>| strip_cr(l)) == ass_lines(s),
{
    let gs = split_on(s, '\n').map_values(|p: Seq<char>| split_on(strip_cr(p), '\r'));
    assert forall|g: int, j: int| 0 <= g < gs.len() && 0 <= j < gs[g].len() implies !has_char(
        #[trigger] gs[g][j],
        '\r',
    ) by {
        lemma_split_on_pieces(strip_cr(split_on(s, '\n')[g]), '\r');
    }
    lemma_concat_groups_no_cr(gs);
    let ls = ass_lines(s);
    assert forall|i: int| 0 <= i < ls.len() implies strip_cr(ls[i]) == ls[i] by {
        assert(!has_char(ls[i], '\r'));
        if ls[i].len() > 0 {
            assert(ls[i][ls[i].len() - 1] == ls[i].last());
        }
    }
    assert(ls.map_values(|l: Seq<char>| strip_cr(l)) =~= ls);
}

proof fn lemma_concat_singletons(xs: Seq<Seq<char>>)
    ensures
        concat_groups(xs.map_values(|p: Seq<char>| seq![p])) == xs,
    decreases xs.len(),
{
    if xs.len() > 0 {
        let x1 = xs.drop_last();
        lemma_concat_singletons(x1);
        assert(xs.map_values(|p: Seq<char>| seq![p]).drop_last() =~= x1.map_values(
            |p: Seq<char>| seq![p],
        ));
        assert(x1 + seq![xs.last()] =~= xs);
    } else {
        assert(xs.map_values(|p: Seq<char>| seq![p]) =~= Seq::<Seq<Seq<char>>>::empty());
        assert(xs =~= Seq::<Seq<char>>::empty());
    }
}

/// Reading back bare lines that were each written with `\n` gives them
/// again, and one empty line after the last.
pub proof fn lemma_ass_lines_of_text(ls: Seq<Seq<char>>)
    requires
        forall|i: int| 0 <= i < ls.len() ==> bare_line(#[trigger] ls[i]),
    ensures
        ass_lines(text_of_lines(ls)) == ls.push(Seq::<char>::empty()),
{
    assert forall|i: int| 0 <= i < ls.len() implies plain_line(#[trigger] ls[i]) by {
        assert(bare_line(ls[i]));
        if ls[i].len() > 0 {
            assert(ls[i][ls[i].len() - 1] == ls[i].last());
        }
    }
    lemma_split_on_raw(ls);
    let raw = ls.push(Seq::<char>::empty());
    assert forall|i: int| 0 <= i < raw.len() implies split_on(strip_cr(#[trigger] raw[i]), '\r') == seq![raw[i]] by {
        if i < ls.len() {
            assert(bare_line(ls[i]));
            if ls[i].len() > 0 {
                assert(ls[i][ls[i].len() - 1] == ls[i].last());
            }
            lemma_split_on_plain(raw[i], '\r');
        } else {
            assert(raw[i] == Seq::<char>::empty());
        }
    }
    assert(raw.map_values(|p: Seq<char>| split_on(strip_cr(p), '\r')) =~= raw.map_values(
        |p: Seq<char>| seq![p],
    ));
    lemma_concat_singletons(raw);
}

proof fn lemma_split_on_raw(ls: Seq<Seq<char>>)
    requires
        forall|i: int| 0 <= i < ls.len() ==> plain_line(#[trigger] ls[i]),
    ensures
        split_on(text_of_lines(ls), '\n') == ls.push(Seq::<char>::empty()),
    decreases ls.len(),
{
    if ls.len() > 0 {
        let l1 = ls.drop_last();
        assert forall|i: int| 0 <= i < l1.len() implies plain_line(#[trigger] l1[i]) by {
            assert(l1[i] == ls[i]);
        }
        lemma_split_on_raw(l1);
        let t = text_of_lines(l1);
        assert(plain_line(ls[ls.len() - 1]));
        assert(text_of_lines(ls) == t + ls.last().push('\n'));
        assert(t + ls.last().push('\n') == (t + ls.last()).push('\n'));
        assert((t + ls.last()).push('\n').drop_last() == t + ls.last());
        lemma_split_on_plain(ls.last(), '\n');
        if t.len() == 0 {
            assert(t + ls.last() == ls.last());
            assert(l1.len() == 0) by {
                if l1.len() > 0 {
                    assert(split_on(t, '\n').len() == 1);
                }
            }
            assert(ls == seq![ls.last()]);
        } else {
            assert(t.last() == '\n') by {
                assert(text_of_lines(l1) == text_of_lines(l1.drop_last()) + l1.last().push('\n'));
            }
            assert(t.drop_last().push('\n') == t);
            lemma_split_on_append(t.drop_last(), '\n', ls.last());
            assert(t.drop_last().push('\n') + ls.last() == t + ls.last());
            assert(split_on(t, '\n') == split_on(t.drop_last(), '\n').push(Seq::<char>::empty()));
            assert(split_on(t, '\n').drop_last() == split_on(t.drop_last(), '\n'));
            assert(l1.push(Seq::<char>::empty()).drop_last() == l1);
            assert(split_on(t.drop_last(), '\n') == l1);
            assert(l1.push(ls.last()) == ls);
        }
    }
}

/// All the characters of `s`, in order.
pub fn chars_of(s: &str) -> (r: Vec<char>)
    ensures
        r@ == s@,
{
    let mut r: Vec<char> = Vec::new();
    for c in it: s.chars()
        invariant
            r@ == it.seq().take(it.index() as int),
            it.seq() == s@,
    {
        r.push(c);
    }
    r
}

/// The characters `cs[lo..hi]` as a string.
pub fn string_of(cs: &Vec<char>, lo: usize, hi: usize) -> (r: String)
    requires
        lo <= hi <= cs.len(),
    ensures
        r@ == cs@.subrange(lo as int, hi as int),
{
    let mut r = String::new();
    let mut i: usize = lo;
    while i < hi
        invariant
            lo <= i <= hi <= cs.len(),
            r@ == cs@.subrange(lo as int, i as int),
        decreases hi - i,
    {
        r.push(cs[i]);
        proof {
            assert(cs@.subrange(lo as int, i + 1) == cs@.subrange(lo as int, i as int).push(cs@[i as int]));
        }
        i = i + 1;
    }
    r
}

/// `s` cut at every `sep`.
pub fn split_str(s: &str, sep: char) -> (r: Vec<String>)
    ensures
        views(r@) == split_on(s@, sep),
{
    let cs = chars_of(s);
    let mut out: Vec<String> = Vec::new();
    let mut cur = String::new();
    let mut i: usize = 0;
    while i < cs.len()
        invariant
            cs@ == s@,
            i <= cs.len(),
            views(out@).push(cur@) == split_on(s@.take(i as int), sep),
        decreases cs.len() - i,
    {
        let c = cs[i];
        proof {
            let t = s@.take(i + 1);
            assert(t.drop_last() == s@.take(i as int));
            assert(t.last() == c);
            lemma_split_on_len(s@.take(i as int), sep);
        }
        if c == sep {
            proof {
                assert(views(out@.push(cur)) == views(out@).push(cur@));
            }
            out.push(cur);
            cur = String::new();
            proof {
                assert(views(out@).push(cur@) == split_on(s@.take(i + 1), sep));
            }
        } else {
            let ghost before = views(out@).push(cur@);
            cur.push(c);
            proof {
                assert(views(out@).push(cur@) == before.update(before.len() - 1, before.last().push(c)));
            }
        }
        i = i + 1;
    }
    proof {
        assert(s@.take(cs.len() as int) == s@);
        assert(views(out@.push(cur)) == views(out@).push(cur@));
    }
    out.push(cur);
    out
}

/// `l` without one trailing carriage return.
pub fn strip_cr_string(l: String) -> (r: String)
    ensures
        r@ == strip_cr(l@),
{
    let cs = chars_of(l.as_str());
    if cs.len() > 0 && cs[cs.len() - 1] == '\r' {
        string_of(&cs, 0, cs.len() - 1)
    } else {
        l
    }
}

/// The lines of `s`, as `split_lines` gives them.
pub fn lines_of(s: &str) -> (r: Vec<String>)
    ensures
        views(r@) == split_lines(s@),
{
    let pieces = split_str(s, '\n');
    let ghost raw = split_on(s@, '\n');
    let mut out: Vec<String> = Vec::new();
    let mut i: usize = 0;
    while i < pieces.len()
        invariant
            views(pieces@) == raw,
            i <= pieces.len(),
            views(out@) == raw.take(i as int).map_values(|l: Seq<char>| strip_cr(l)),
        decreases pieces.len() - i,
    {
        let line = strip_cr_string(pieces[i].clone());
        proof {
            assert(pieces@[i as int]@ == raw[i as int]);
            assert(raw.take(i + 1).map_values(|l: Seq<char>| strip_cr(l)) == raw.take(
                i as int,
            ).map_values(|l: Seq<char>| strip_cr(l)).push(strip_cr(raw[i as int])));
            assert(views(out@.push(line)) == views(out@).push(line@));
        }
        out.push(line);
        i = i + 1;
    }
    proof {
        assert(raw.take(pieces.len() as int) == raw);
    }
    out
}

/// The lines of an ASS text, as `ass_lines` gives them.
pub fn ass_lines_of(s: &str) -> (r: Vec<String>)
    ensures
        views(r@) == ass_lines(s@),
{
    let pieces = split_str(s, '\n');
    let ghost raw = split_on(s@, '\n');
    let ghost gs = raw.map_values(|p: Seq<char>| split_on(strip_cr(p), '\r'));
    let mut out: Vec<String> = Vec::new();
    let mut i: usize = 0;
    while i < pieces.len()
        invariant
            views(pieces@) == raw,
            gs == raw.map_values(|p: Seq<char>| split_on(strip_cr(p), '\r')),
            i <= pieces.len(),
            views(out@) == concat_groups(gs.take(i as int)),
        decreases pieces.len() - i,
    {
        let line = strip_cr_string(pieces[i].clone());
        let parts = split_str(line.as_str(), '\r');
        proof {
            assert(pieces@[i as int]@ == raw[i as int]);
            assert(gs[i as int] == views(parts@));
            assert(gs.take(i + 1).drop_last() == gs.take(i as int));
        }
        let ghost base = views(out@);
        let mut j: usize = 0;
        while j < parts.len()
            invariant
                j <= parts.len(),
                views(out@) == base + views(parts@).take(j as int),
            decreases parts.len() - j,
        {
            let part = parts[j].clone();
            proof {
                assert(views(out@.push(part)) =~= views(out@).push(part@));
                assert(views(parts@).take(j + 1) =~= views(parts@).take(j as int).push(part@));
            }
            out.push(part);
            j = j + 1;
        }
        proof {
            assert(views(parts@).take(parts.len() as int) == views(parts@));
        }
        i = i + 1;
    }
    proof {
        assert(gs.take(pieces.len() as int) == gs);
    }
    out
}

/// Whether `s` begins with `p`.
pub fn starts_with_str(s: &str, p: &str) -> (r: bool)
    ensures
        r == starts_with(s@, p@),
{
    let cs = chars_of(s);
    let ps = chars_of(p);
    if ps.len() > cs.len() {
        return false;
    }
    let mut i: usize = 0;
    while i < ps.len()
        invariant
            cs@ == s@,
            ps@ == p@,
            ps.len() <= cs.len(),
            i <= ps.len(),
            forall|j: int| 0 <= j < i ==> cs@[j] == ps@[j],
        decreases ps.len() - i,
    {
        if cs[i] != ps[i] {
            proof {
                assert(s@.subrange(0, p@.len() as int)[i as int] != p@[i as int]);
            }
            return false;
        }
        i = i + 1;
    }
    proof {
        assert(s@.subrange(0, p@.len() as int) == p@);
    }
    true
}

/// The characters of `s` from position `n` on.
pub fn skip_str(s: &str, n: usize) -> (r: String)
    requires
        n <= s@.len(),
    ensures
        r@ == s@.skip(n as int),
{
    let cs = chars_of(s);
    string_of(&cs, n, cs.len())
}

/// The pieces joined with `sep` between neighbours.
pub fn join_strings(fs: &Vec<String>, lo: usize, sep: &str) -> (r: String)
    requires
        lo <= fs.len(),
        sep@.len() == 1,
    ensures
        r@ == join_on(views(fs@).skip(lo as int), sep@[0]),
{
    let mut r = String::new();
    let mut i: usize = lo;
    while i < fs.len()
        invariant
            lo <= i <= fs.len(),
            sep@.len() == 1,
            r@ == join_on(views(fs@).subrange(lo as int, i as int), sep@[0]),
        decreases fs.len() - i,
    {
        let ghost prev = views(fs@).subrange(lo as int, i as int);
        let ghost next = views(fs@).subrange(lo as int, i + 1);
        proof {
            assert(next.drop_last() == prev);
            assert(next.last() == fs@[i as int]@);
        }
        if i > lo {
            r.append(sep);
            proof {
                assert(r@ == join_on(prev, sep@[0]).push(sep@[0]));
            }
        }
        r.append(fs[i].as_str());
        i = i + 1;
    }
    proof {
        assert(views(fs@).subrange(lo as int, fs.len() as int) == views(fs@).skip(lo as int));
    }
    r
}

} // verus!
