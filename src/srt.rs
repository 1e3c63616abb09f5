//! Importing SubRip (SRT) subtitles: blank-line separated blocks of an
//! index, a `start --> end` line and text lines.
use vstd::prelude::*;
use vstd::string::StringExecFns;
use crate::model::AssError;
use crate::text::{chars_of, lines_of, split_lines, views};

verus! {

/// One SRT block: its index line, its two timestamps and its text.
#[derive(Debug, PartialEq)]
pub struct SrtData {
    pub index: String,
    pub start: String,
    pub end: String,
    pub text: String,
}

/// The records of an SRT document, in file order.
pub type SrtContent = Vec<SrtData>;

impl View for SrtData {
    type V = (Seq<char>, Seq<char>, Seq<char>, Seq<char>);

    open spec fn view(&self) -> (Seq<char>, Seq<char>, Seq<char>, Seq<char>) {
        (self.index@, self.start@, self.end@, self.text@)
    }
}

pub open spec fn arrow() -> Seq<char> {
    " --> "@
}

pub open spec fn matches_at(s: Seq<char>, p: Seq<char>, i: int) -> bool {
    0 <= i && i + p.len() <= s.len() && s.subrange(i, i + p.len()) == p
}

/// `i` is where the arrow first occurs, and it does not occur again after it.
pub open spec fn sole_arrow_at(s: Seq<char>, i: int) -> bool {
    &&& matches_at(s, arrow(), i)
    &&& forall|j: int| 0 <= j < i ==> !matches_at(s, arrow(), j)
    &&& forall|j: int| i + arrow().len() <= j ==> !matches_at(s, arrow(), j)
}

/// The two sides of a timestamp line, when cutting it at ` --> ` gives
/// exactly two pieces.
pub open spec fn split_arrow(s: Seq<char>) -> Option<(Seq<char>, Seq<char>)> {
    if exists|i: int| sole_arrow_at(s, i) {
        let i = choose|i: int| sole_arrow_at(s, i);
        Some((s.take(i), s.skip(i + arrow().len())))
    } else {
        None
    }
}

/// Decimal commas turned into dots.
pub open spec fn dots(s: Seq<char>) -> Seq<char> {
    s.map_values(|c: char| if c == ',' { '.' } else { c })
}

/// Without its first and its last character.
pub open spec fn trim_ends(s: Seq<char>) -> Seq<char> {
    if s.len() <= 1 {
        Seq::empty()
    } else {
        s.subrange(1, s.len() - 1)
    }
}

/// A timestamp as stored: dots for commas, one character cut from each end.
pub open spec fn timestamp(s: Seq<char>) -> Seq<char> {
    trim_ends(dots(s))
}

/// Each text line followed by one space.
pub open spec fn text_join(ls: Seq<Seq<char>>) -> Seq<char>
    decreases ls.len(),
{
    if ls.len() == 0 {
        Seq::empty()
    } else {
        text_join(ls.drop_last()) + ls.last().push(' ')
    }
}

/// The finished blocks and the block still open after reading `ls`.
pub open spec fn open_blocks(ls: Seq<Seq<char>>) -> (Seq<Seq<Seq<char>>>, Seq<Seq<char>>)
    decreases ls.len(),
{
    if ls.len() == 0 {
        (Seq::empty(), Seq::empty())
    } else {
        let (done, cur) = open_blocks(ls.drop_last());
        if ls.last().len() == 0 {
            if cur.len() > 0 {
                (done.push(cur), Seq::empty())
            } else {
                (done, Seq::empty())
            }
        } else {
            (done, cur.push(ls.last()))
        }
    }
}

/// The maximal runs of non-empty lines.
pub open spec fn srt_blocks(ls: Seq<Seq<char>>) -> Seq<Seq<Seq<char>>> {
    let (done, cur) = open_blocks(ls);
    if cur.len() > 0 {
        done.push(cur)
    } else {
        done
    }
}

/// The record of a block, when it has an index line and a well-formed
/// timestamp line.
pub open spec fn srt_record(b: Seq<Seq<char>>) -> Option<(Seq<char>, Seq<char>, Seq<char>, Seq<char>)> {
    if b.len() < 2 {
        None
    } else {
        match split_arrow(b[1]) {
            None => None,
            Some((s, e)) => Some((b[0], timestamp(s), timestamp(e), text_join(b.skip(2)))),
        }
    }
}

pub open spec fn spec_parse_srt(text: Seq<char>) -> Result<
    Seq<(Seq<char>, Seq<char>, Seq<char>, Seq<char>)>,
    AssError,
> {
    let bs = srt_blocks(split_lines(text));
    if forall|j: int| 0 <= j < bs.len() ==> (#[trigger] srt_record(bs[j])) is Some {
        Ok(bs.map_values(|b: Seq<Seq<char>>| srt_record(b)->0))
    } else {
        Err(AssError::MalformedRow)
    }
}

pub open spec fn srt_result(r: Result<Vec<SrtData>, AssError>) -> Result<
    Seq<(Seq<char>, Seq<char>, Seq<char>, Seq<char>)>,
    AssError,
> {
    match r {
        Ok(v) => Ok(v@.map_values(|d: SrtData| d@)),
        Err(e) => Err(e),
    }
}

pub open spec fn blocks_view(bs: Seq<Vec<String>>) -> Seq<Seq<Seq<char>>> {
    bs.map_values(|b: Vec<String>| views(b@))
}

fn arrow_at(cs: &Vec<char>, ps: &Vec<char>, i: usize) -> (r: bool)
    ensures
        r == matches_at(cs@, ps@, i as int),
{
    if ps.len() > cs.len() || i > cs.len() - ps.len() {
        return false;
    }
    let mut k: usize = 0;
    while k < ps.len()
        invariant
            i + ps.len() <= cs.len(),
            k <= ps.len(),
            forall|j: int| 0 <= j < k ==> cs@[i + j] == ps@[j],
        decreases ps.len() - k,
    {
        if cs[i + k] != ps[k] {
            proof {
                assert(cs@.subrange(i as int, i + ps.len())[k as int] != ps@[k as int]);
            }
            return false;
        }
        k = k + 1;
    }
    proof {
        assert(cs@.subrange(i as int, i + ps.len()) =~= ps@);
    }
    true
}

/// The first position at or after `from` where the arrow occurs.
fn find_arrow(cs: &Vec<char>, ps: &Vec<char>, from: usize) -> (r: Option<usize>)
    requires
        ps@ == arrow(),
    ensures
        match r {
            Some(i) => from <= i && matches_at(cs@, arrow(), i as int) && forall|j: int|
                from <= j < i ==> !matches_at(cs@, arrow(), j),
            None => forall|j: int| from <= j ==> !matches_at(cs@, arrow(), j),
        },
{
    proof {
        reveal_strlit(" --> ");
    }
    let mut i: usize = from;
    while i < cs.len()
        invariant
            ps@ == arrow(),
            from <= i || i >= cs.len(),
            forall|j: int| from <= j < i ==> !matches_at(cs@, arrow(), j),
        decreases cs.len() - i,
    {
        if arrow_at(cs, ps, i) {
            return Some(i);
        }
        i = i + 1;
    }
    None
}

/// `timestamp(cs[lo..hi])` as a string.
fn timestamp_of(cs: &Vec<char>, lo: usize, hi: usize) -> (r: String)
    requires
        lo <= hi <= cs.len(),
    ensures
        r@ == timestamp(cs@.subrange(lo as int, hi as int)),
{
    let mut r = String::new();
    if hi - lo <= 1 {
        return r;
    }
    let mut k: usize = lo + 1;
    while k < hi - 1
        invariant
            lo + 1 <= k <= hi - 1,
            hi <= cs.len(),
            r@ == dots(cs@.subrange(lo + 1, k as int)),
        decreases hi - 1 - k,
    {
        let c = cs[k];
        if c == ',' {
            r.push('.');
        } else {
            r.push(c);
        }
        proof {
            assert(dots(cs@.subrange(lo + 1, k + 1)) =~= dots(cs@.subrange(lo + 1, k as int)).push(
                if c == ',' { '.' } else { c },
            ));
        }
        k = k + 1;
    }
    proof {
        assert(dots(cs@.subrange(lo + 1, hi - 1)) =~= timestamp(cs@.subrange(lo as int, hi as int)));
    }
    r
}

/// The record of one block, as `srt_record` gives it.
fn block_record(b: &Vec<String>) -> (r: Option<SrtData>)
    ensures
        match r {
            Some(d) => srt_record(views(b@)) == Some(d@),
            None => srt_record(views(b@)) is None,
        },
{
    let ghost bv = views(b@);
    if b.len() < 2 {
        return None;
    }
    let cs = chars_of(b[1].as_str());
    let ps = chars_of(" --> ");
    proof {
        assert(bv[1] == cs@);
    }
    let first = find_arrow(&cs, &ps, 0);
    let i = match first {
        Some(i) => i,
        None => {
            proof {
                assert(!exists|i: int| sole_arrow_at(cs@, i));
            }
            return None;
        },
    };
    proof {
        reveal_strlit(" --> ");
        assert(ps@ == arrow());
        assert(first == Some(i));
        assert(matches_at(cs@, arrow(), i as int));
        assert(i + ps@.len() <= cs@.len());
    }
    let n = ps.len();
    assert(i + n <= cs.len());
    let after = i + n;
    let again = find_arrow(&cs, &ps, after);
    if again.is_some() {
        proof {
            let j = again->0;
            assert forall|k: int| !sole_arrow_at(cs@, k) by {
                if sole_arrow_at(cs@, k) {
                    if k < i {
                    } else if k > i {
                    } else {
                        assert(!matches_at(cs@, arrow(), j as int));
                    }
                }
            }
        }
        return None;
    }
    proof {
        assert(sole_arrow_at(cs@, i as int));
        let k = choose|k: int| sole_arrow_at(cs@, k);
        if k < i {
        } else if k > i {
        }
        assert(k == i);
        assert(cs@.take(i as int) =~= cs@.subrange(0, i as int));
        assert(cs@.skip(after as int) =~= cs@.subrange(after as int, cs@.len() as int));
    }
    let start = timestamp_of(&cs, 0, i);
    let end = timestamp_of(&cs, after, cs.len());
    let mut text = String::new();
    let mut k: usize = 2;
    while k < b.len()
        invariant
            2 <= k <= b.len(),
            bv == views(b@),
            text@ == text_join(bv.subrange(2, k as int)),
        decreases b.len() - k,
    {
        proof {
            reveal_strlit(" ");
            assert(bv.subrange(2, k + 1).drop_last() == bv.subrange(2, k as int));
        }
        text.append(b[k].as_str());
        text.append(" ");
        k = k + 1;
    }
    proof {
        assert(bv.subrange(2, b.len() as int) == bv.skip(2));
    }
    Some(SrtData { index: b[0].clone(), start, end, text })
}

impl SrtData {
    /// A record with every field empty.
    pub fn new() -> (r: SrtData)
        ensures
            r@ == (Seq::<char>::empty(), Seq::<char>::empty(), Seq::<char>::empty(), Seq::<
                char,
            >::empty()),
    {
        SrtData { index: String::new(), start: String::new(), end: String::new(), text: String::new() }
    }

    /// Reads an SRT document. Blocks are the runs of non-empty lines (lines
    /// cut at `\n`, one trailing `\r` dropped). In each block the first line
    /// is the index, the second holds `start --> end`, and every further line
    /// goes into the text followed by one space. Each timestamp has its
    /// commas turned into dots and loses one character at each end. A block
    /// of one line, or whose second line does not cut into exactly two
    /// pieces at ` --> `, is `MalformedRow`.
    pub fn parse_srt(&self, contents: String) -> (r: Result<SrtContent, AssError>)
        ensures
            srt_result(r) == spec_parse_srt(contents@),
    {
        let lines = lines_of(contents.as_str());
        let ghost ls = views(lines@);
        let mut done: Vec<Vec<String>> = Vec::new();
        let mut cur: Vec<String> = Vec::new();
        let mut i: usize = 0;
        while i < lines.len()
            invariant
                ls == views(lines@),
                i <= lines.len(),
                (blocks_view(done@), views(cur@)) == open_blocks(ls.take(i as int)),
            decreases lines.len() - i,
        {
            proof {
                assert(ls.take(i + 1).drop_last() == ls.take(i as int));
                assert(ls.take(i + 1).last() == lines@[i as int]@);
            }
            let line = lines[i].clone();
            if chars_of(line.as_str()).len() == 0 {
                if cur.len() > 0 {
                    proof {
                        assert(blocks_view(done@.push(cur)) =~= blocks_view(done@).push(views(cur@)));
                    }
                    done.push(cur);
                    cur = Vec::new();
                    proof {
                        assert(views(cur@) =~= Seq::<Seq<char>>::empty());
                    }
                } else {
                    proof {
                        assert(views(cur@) =~= Seq::<Seq<char>>::empty());
                    }
                }
            } else {
                proof {
                    assert(views(cur@.push(line)) =~= views(cur@).push(line@));
                }
                cur.push(line);
            }
            i = i + 1;
        }
        proof {
            assert(ls.take(lines.len() as int) == ls);
        }
        if cur.len() > 0 {
            proof {
                assert(blocks_view(done@.push(cur)) =~= blocks_view(done@).push(views(cur@)));
            }
            done.push(cur);
        }
        let ghost bs = blocks_view(done@);
        proof {
            assert(bs == srt_blocks(ls));
        }
        let mut out: Vec<SrtData> = Vec::new();
        let mut j: usize = 0;
        while j < done.len()
            invariant
                bs == blocks_view(done@),
                bs == srt_blocks(ls),
                ls == split_lines(contents@),
                j <= done.len(),
                forall|q: int| 0 <= q < j ==> (#[trigger] srt_record(bs[q])) is Some,
                out@.map_values(|d: SrtData| d@) == bs.take(j as int).map_values(
                    |b: Seq<Seq<char>>| srt_record(b)->0,
                ),
            decreases done.len() - j,
        {
            proof {
                assert(bs[j as int] == views(done@[j as int]@));
            }
            match block_record(&done[j]) {
                Some(d) => {
                    proof {
                        assert(out@.push(d).map_values(|d: SrtData| d@) =~= out@.map_values(
                            |d: SrtData| d@,
                        ).push(d@));
                        assert(bs.take(j + 1).map_values(|b: Seq<Seq<char>>| srt_record(b)->0)
                            =~= bs.take(j as int).map_values(
                            |b: Seq<Seq<char>>| srt_record(b)->0,
                        ).push(srt_record(bs[j as int])->0));
                    }
                    out.push(d);
                },
                None => {
                    proof {
                        assert(!(srt_record(bs[j as int]) is Some));
                    }
                    return Err(AssError::MalformedRow);
                },
            }
            j = j + 1;
        }
        proof {
            assert(bs.take(done.len() as int) == bs);
        }
        Ok(out)
    }
}

} // verus!
