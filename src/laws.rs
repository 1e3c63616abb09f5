//! Properties that relate several operations of the library: reading back
//! what was rendered, and what reading does with absent or short input.
use vstd::prelude::*;
use crate::ass::{
    complete, dialogue_head, dialogue_row, dialogue_rows, document_lines, document_text,
    events_format_line, events_header, first_style, line_key, row_fields, row_ok,
    script_header, script_key, script_lines_upto, script_value, script_values, section_body,
    section_lines, spec_parse_document, spec_parse_events, spec_parse_script, spec_parse_v4,
    style_fields, style_head, style_row, v4_format_line, v4_header, values_of,
};
use crate::model::{AssError, DocView, all_set, well_shaped};
use crate::srt::{arrow, matches_at, sole_arrow_at, split_arrow, srt_record, text_join, timestamp};
use crate::text::{
    strip_cr, text_of_lines, ass_lines, bare_line, has_char, join_on, lemma_ass_lines_of_text, lemma_join_split,
    lemma_split_join, lemma_split_on_len, lemma_split_on_plain, split_on, starts_with,
};

verus! {

proof fn lemma_literals()
    ensures
        script_header().len() == 13,
        script_header()[0] == '[',
        script_header()[1] == 'S',
        v4_header().len() == 12,
        v4_header()[0] == '[',
        v4_header()[1] == 'V',
        events_header().len() == 8,
        events_header()[0] == '[',
        events_header()[1] == 'E',
        style_head().len() == 7,
        style_head()[0] == 'S',
        dialogue_head().len() == 10,
        dialogue_head()[0] == 'D',
        v4_format_line().len() > 0,
        v4_format_line()[0] == 'F',
        events_format_line().len() > 0,
        events_format_line()[0] == 'F',
        script_key(0).len() == 12,
        script_key(0)[0] == 'S',
        script_key(0)[2] == 'r',
        script_key(1).len() == 10,
        script_key(1)[0] == 'P',
        script_key(1)[7] == 'X',
        script_key(2).len() == 10,
        script_key(2)[0] == 'P',
        script_key(2)[7] == 'Y',
        script_key(3).len() == 23,
        script_key(3)[0] == 'S',
        script_key(3)[2] == 'a',
        script_key(4).len() == 14,
        script_key(4)[0] == 'Y',
        bare_line(script_header()),
        bare_line(v4_header()),
        bare_line(events_header()),
        bare_line(style_head()),
        bare_line(dialogue_head()),
        bare_line(v4_format_line()),
        bare_line(events_format_line()),
        forall|k: int| 0 <= k < 5 ==> bare_line(#[trigger] script_key(k)),
{
    reveal_strlit("[Script Info]");
    reveal_strlit("[V4+ Styles]");
    reveal_strlit("[Events]");
    reveal_strlit("Style: ");
    reveal_strlit("Dialogue: ");
    reveal_strlit("Format: Name, Fontname, Fontsize, PrimaryColour, SecondaryColour, OutlineColour, BackColour, Bold, Italic, Underline, StrikeOut, ScaleX, ScaleY, Spacing, Angle, BorderStyle, Outline, Shadow, Alignment, MarginL, MarginR, MarginV, Encoding");
    reveal_strlit("Format: Layer, Start, End, Style, Name, MarginL, MarginR, MarginV, Effect, Text");
    reveal_strlit("ScriptType: ");
    reveal_strlit("PlayResX: ");
    reveal_strlit("PlayResY: ");
    reveal_strlit("ScaledBorderAndShadow: ");
    reveal_strlit("YCbCr Matrix: ");
}

proof fn lemma_differs_at(x: Seq<char>, y: Seq<char>, t: int)
    requires
        0 <= t < x.len(),
        t < y.len(),
        x[t] != y[t],
    ensures
        x != y,
        !starts_with(x, y),
        !starts_with(y, x),
{
    if starts_with(x, y) {
        assert(x.subrange(0, y.len() as int)[t] == x[t]);
    }
    if starts_with(y, x) {
        assert(y.subrange(0, x.len() as int)[t] == y[t]);
    }
}

proof fn lemma_line_key(k: int, v: Seq<char>)
    requires
        0 <= k < 5,
    ensures
        line_key(script_key(k) + v) == k,
        (script_key(k) + v)[0] == script_key(k)[0],
{
    lemma_literals();
    let l = script_key(k) + v;
    assert(l.subrange(0, script_key(k).len() as int) == script_key(k));
    if k == 1 {
        lemma_differs_at(l, script_key(0), 0);
    } else if k == 2 {
        lemma_differs_at(l, script_key(0), 0);
        lemma_differs_at(l, script_key(1), 7);
    } else if k == 3 {
        lemma_differs_at(l, script_key(0), 2);
        lemma_differs_at(l, script_key(1), 0);
        lemma_differs_at(l, script_key(2), 0);
    } else if k == 4 {
        lemma_differs_at(l, script_key(0), 0);
        lemma_differs_at(l, script_key(1), 0);
        lemma_differs_at(l, script_key(2), 0);
        lemma_differs_at(l, script_key(3), 0);
    }
}

/// A line that no Script Info key starts.
proof fn lemma_no_key(l: Seq<char>)
    requires
        l.len() < 10 || (l.len() > 0 && l[0] != 'S' && l[0] != 'P' && l[0] != 'Y'),
    ensures
        line_key(l) == 5,
{
    lemma_literals();
    if l.len() >= 10 {
        lemma_differs_at(l, script_key(0), 0);
        lemma_differs_at(l, script_key(1), 0);
        lemma_differs_at(l, script_key(2), 0);
        lemma_differs_at(l, script_key(3), 0);
        lemma_differs_at(l, script_key(4), 0);
    }
}

/// A line that neither opens a section (`[`) nor is a comment (`;`).
spec fn inner_line(l: Seq<char>) -> bool {
    l.len() == 0 || (l[0] != '[' && l[0] != ';')
}

proof fn lemma_body_prefix(a: Seq<Seq<char>>, b: Seq<Seq<char>>, h: Seq<char>)
    requires
        forall|i: int| 0 <= i < a.len() ==> (#[trigger] a[i]) != h && inner_line(a[i]),
    ensures
        section_body(a + b, h) == a + section_body(b, h),
    decreases a.len(),
{
    if a.len() > 0 {
        assert((a + b)[0] == a[0]);
        assert((a + b).drop_first() == a.drop_first() + b);
        lemma_body_prefix(a.drop_first(), b, h);
        assert(seq![a[0]] + (a.drop_first() + section_body(b, h)) == a + section_body(b, h));
    } else {
        assert(a + b == b);
        assert(a + section_body(b, h) == section_body(b, h));
    }
}

proof fn lemma_section_skip(a: Seq<Seq<char>>, b: Seq<Seq<char>>, h: Seq<char>)
    requires
        forall|i: int| 0 <= i < a.len() ==> (#[trigger] a[i]) != h,
    ensures
        section_lines(a + b, h) == section_lines(b, h),
    decreases a.len(),
{
    if a.len() > 0 {
        assert((a + b)[0] == a[0]);
        assert((a + b).drop_first() == a.drop_first() + b);
        lemma_section_skip(a.drop_first(), b, h);
    } else {
        assert(a + b == b);
    }
}

/// Every Script Info line starts with a key's first letter.
proof fn lemma_script_lines_start(fs: Seq<Option<Seq<char>>>, n: int)
    requires
        0 <= n <= 5,
    ensures
        forall|i: int|
            0 <= i < script_lines_upto(fs, n).len() ==> {
                let l = #[trigger] script_lines_upto(fs, n)[i];
                l.len() >= 10 && (l[0] == 'S' || l[0] == 'P' || l[0] == 'Y')
            },
    decreases n,
{
    lemma_literals();
    if n > 0 {
        lemma_script_lines_start(fs, n - 1);
        let p = script_lines_upto(fs, n - 1);
        match fs[n - 1] {
            Some(v) => {
                let l = script_key(n - 1) + v;
                assert(l[0] == script_key(n - 1)[0]);
                assert forall|i: int| 0 <= i < p.push(l).len() implies {
                    let m = #[trigger] p.push(l)[i];
                    m.len() >= 10 && (m[0] == 'S' || m[0] == 'P' || m[0] == 'Y')
                } by {
                    if i < p.len() {
                        assert(p.push(l)[i] == p[i]);
                    }
                }
            },
            None => {},
        }
    }
}

proof fn lemma_no_value(p: Seq<Seq<char>>, k: int)
    requires
        forall|i: int| 0 <= i < p.len() ==> line_key(#[trigger] p[i]) == 5,
        0 <= k < 5,
    ensures
        script_value(p, k) is None,
    decreases p.len(),
{
    if p.len() > 0 {
        assert(line_key(p[p.len() - 1]) == 5);
        assert forall|i: int| 0 <= i < p.drop_last().len() implies line_key(
            #[trigger] p.drop_last()[i],
        ) == 5 by {
            assert(p.drop_last()[i] == p[i]);
        }
        lemma_no_value(p.drop_last(), k);
    }
}

proof fn lemma_script_value_upto(p: Seq<Seq<char>>, fs: Seq<Option<Seq<char>>>, n: int, k: int)
    requires
        forall|i: int| 0 <= i < p.len() ==> line_key(#[trigger] p[i]) == 5,
        fs.len() == 5,
        0 <= n <= 5,
        0 <= k < 5,
    ensures
        script_value(p + script_lines_upto(fs, n), k) == if k < n {
            fs[k]
        } else {
            None
        },
    decreases n,
{
    if n == 0 {
        assert(p + script_lines_upto(fs, n) == p);
        lemma_no_value(p, k);
    } else {
        lemma_script_value_upto(p, fs, n - 1, k);
        let prev = script_lines_upto(fs, n - 1);
        match fs[n - 1] {
            Some(v) => {
                let l = script_key(n - 1) + v;
                lemma_line_key(n - 1, v);
                assert(p + prev.push(l) == (p + prev).push(l));
                assert((p + prev).push(l).drop_last() == p + prev);
                assert(l.skip(script_key(n - 1).len() as int) == v);
            },
            None => {},
        }
    }
}

/// No value holds `\n` or `\r`; no style value, and none of the first nine
/// values of a dialogue, holds a comma.
pub open spec fn reads_back(d: DocView) -> bool {
    &&& forall|k: int| 0 <= k < d.script.len() && d.script[k] is Some ==> bare_line(
        #[trigger] d.script[k]->0,
    )
    &&& forall|i: int|
        0 <= i < d.v4.len() ==> bare_line(#[trigger] values_of(d.v4)[i]) && !has_char(
            values_of(d.v4)[i],
            ',',
        )
    &&& forall|j: int, i: int|
        0 <= j < d.events.len() && 0 <= i < d.events[j].len() ==> bare_line(
            #[trigger] values_of(d.events[j])[i],
        )
    &&& forall|j: int, i: int|
        0 <= j < d.events.len() && 0 <= i < 9 ==> !has_char(
            #[trigger] values_of(d.events[j])[i],
            ',',
        )
}

proof fn lemma_bare_concat(a: Seq<char>, b: Seq<char>)
    requires
        bare_line(a),
        bare_line(b),
    ensures
        bare_line(a + b),
{
    assert forall|c: char| c == '\n' || c == '\r' implies !has_char(a + b, c) by {
        if has_char(a + b, c) {
            let i = choose|i: int| 0 <= i < (a + b).len() && (a + b)[i] == c;
            if i < a.len() {
                assert(a[i] == c);
            } else {
                assert(b[i - a.len()] == c);
            }
        }
    }
}

proof fn lemma_bare_join(fs: Seq<Seq<char>>)
    requires
        forall|i: int| 0 <= i < fs.len() ==> bare_line(#[trigger] fs[i]),
    ensures
        bare_line(join_on(fs, ',')),
    decreases fs.len(),
{
    if fs.len() == 0 {
        assert(!has_char(Seq::<char>::empty(), '\n'));
        assert(!has_char(Seq::<char>::empty(), '\r'));
    } else if fs.len() == 1 {
        assert(bare_line(fs[0]));
    } else {
        let f1 = fs.drop_last();
        assert forall|i: int| 0 <= i < f1.len() implies bare_line(#[trigger] f1[i]) by {
            assert(f1[i] == fs[i]);
        }
        lemma_bare_join(f1);
        assert(bare_line(seq![','])) by {
            assert(!has_char(seq![','], '\n'));
            assert(!has_char(seq![','], '\r'));
        }
        assert(join_on(f1, ',').push(',') == join_on(f1, ',') + seq![',']);
        lemma_bare_concat(join_on(f1, ','), seq![',']);
        assert(bare_line(fs[fs.len() - 1]));
        lemma_bare_concat(join_on(f1, ',').push(','), fs.last());
    }
}

proof fn lemma_bare_script_lines(fs: Seq<Option<Seq<char>>>, n: int)
    requires
        0 <= n <= 5,
        fs.len() == 5,
        forall|k: int| 0 <= k < fs.len() && fs[k] is Some ==> bare_line(#[trigger] fs[k]->0),
    ensures
        forall|i: int|
            0 <= i < script_lines_upto(fs, n).len() ==> bare_line(
                #[trigger] script_lines_upto(fs, n)[i],
            ),
    decreases n,
{
    if n > 0 {
        lemma_bare_script_lines(fs, n - 1);
        let p = script_lines_upto(fs, n - 1);
        match fs[n - 1] {
            Some(v) => {
                lemma_literals();
                assert(bare_line(v));
                lemma_bare_concat(script_key(n - 1), v);
                assert forall|i: int| 0 <= i < p.push(script_key(n - 1) + v).len() implies bare_line(
                    #[trigger] p.push(script_key(n - 1) + v)[i],
                ) by {
                    if i < p.len() {
                        assert(p.push(script_key(n - 1) + v)[i] == p[i]);
                    }
                }
            },
            None => {},
        }
    }
}

proof fn lemma_bare_values(fs: Seq<Option<Seq<char>>>)
    requires
        forall|i: int| 0 <= i < fs.len() ==> bare_line(#[trigger] values_of(fs)[i]),
    ensures
        bare_line(join_on(values_of(fs), ',')),
{
    let vs = values_of(fs);
    assert forall|i: int| 0 <= i < vs.len() implies bare_line(#[trigger] vs[i]) by {
        assert(bare_line(values_of(fs)[i]));
    }
    lemma_bare_join(vs);
}

/// Every line of a document whose values read back is bare.
proof fn lemma_document_lines_bare(d: DocView)
    requires
        well_shaped(d),
        reads_back(d),
    ensures
        forall|i: int| 0 <= i < document_lines(d).len() ==> bare_line(#[trigger] document_lines(d)[i]),
{
    lemma_literals();
    lemma_bare_script_lines(d.script, 5);
    let e = Seq::<char>::empty();
    assert(bare_line(e)) by {
        assert(!has_char(e, '\n'));
        assert(!has_char(e, '\r'));
    }
    lemma_bare_values(d.v4);
    lemma_bare_concat(style_head(), join_on(values_of(d.v4), ','));
    let rows = d.events.map_values(|x: Seq<Option<Seq<char>>>| dialogue_row(x));
    assert forall|j: int| 0 <= j < rows.len() implies bare_line(#[trigger] rows[j]) by {
        assert forall|i: int| 0 <= i < d.events[j].len() implies bare_line(
            #[trigger] values_of(d.events[j])[i],
        ) by {}
        lemma_bare_values(d.events[j]);
        lemma_bare_concat(dialogue_head(), join_on(values_of(d.events[j]), ','));
    }
    let sl = script_lines_upto(d.script, 5);
    let mid = seq![e, v4_header(), v4_format_line(), style_row(d.v4), e, events_header(), events_format_line()];
    assert forall|i: int| 0 <= i < mid.len() implies bare_line(#[trigger] mid[i]) by {}
    let dl = document_lines(d);
    assert(dl == seq![script_header()] + sl + mid + rows);
    assert forall|i: int| 0 <= i < dl.len() implies bare_line(#[trigger] dl[i]) by {
        if i == 0 {
        } else if i < 1 + sl.len() {
            assert(dl[i] == sl[i - 1]);
        } else if i < 1 + sl.len() + mid.len() {
            assert(dl[i] == mid[i - 1 - sl.len()]);
        } else {
            assert(dl[i] == rows[i - 1 - sl.len() - mid.len()]);
        }
    }
}

proof fn lemma_dialogue_rows(p: Seq<Seq<char>>, es: Seq<Seq<Option<Seq<char>>>>)
    requires
        forall|i: int| 0 <= i < p.len() ==> !starts_with(#[trigger] p[i], dialogue_head()),
    ensures
        dialogue_rows(p + es.map_values(|e: Seq<Option<Seq<char>>>| dialogue_row(e)))
            == es.map_values(|e: Seq<Option<Seq<char>>>| join_on(values_of(e), ',')),
    decreases es.len(),
{
    let f = |e: Seq<Option<Seq<char>>>| dialogue_row(e);
    let g = |e: Seq<Option<Seq<char>>>| join_on(values_of(e), ',');
    if es.len() == 0 {
        assert(p + es.map_values(f) == p);
        lemma_no_rows(p);
        assert(es.map_values(g) =~= Seq::<Seq<char>>::empty());
    } else {
        let e1 = es.drop_last();
        lemma_dialogue_rows(p, e1);
        let all = p + es.map_values(f);
        assert(all.drop_last() =~= p + e1.map_values(f));
        let l = dialogue_row(es.last());
        assert(all.last() == l);
        assert(l.subrange(0, dialogue_head().len() as int) =~= dialogue_head());
        assert(l.skip(dialogue_head().len() as int) =~= join_on(values_of(es.last()), ','));
        assert(es.map_values(g) =~= e1.map_values(g).push(g(es.last())));
    }
}

proof fn lemma_no_rows(p: Seq<Seq<char>>)
    requires
        forall|i: int| 0 <= i < p.len() ==> !starts_with(#[trigger] p[i], dialogue_head()),
    ensures
        dialogue_rows(p) == Seq::<Seq<char>>::empty(),
    decreases p.len(),
{
    if p.len() > 0 {
        assert(!starts_with(p[p.len() - 1], dialogue_head()));
        assert forall|i: int| 0 <= i < p.drop_last().len() implies !starts_with(
            #[trigger] p.drop_last()[i],
            dialogue_head(),
        ) by {
            assert(p.drop_last()[i] == p[i]);
        }
        lemma_no_rows(p.drop_last());
    }
}

/// A dialogue row rendered from ten fields reads back as those fields.
proof fn lemma_row_back(e: Seq<Option<Seq<char>>>)
    requires
        e.len() == 10,
        all_set(e),
        forall|i: int| 0 <= i < 9 ==> !has_char(#[trigger] values_of(e)[i], ','),
    ensures
        row_ok(join_on(values_of(e), ',')),
        row_fields(join_on(values_of(e), ',')) == e,
{
    let vs = values_of(e);
    lemma_split_join(vs, ',');
    lemma_split_on_len(vs.last(), ',');
    let ps = split_on(join_on(vs, ','), ',');
    assert(ps.skip(9) =~= split_on(vs.last(), ','));
    lemma_join_split(vs.last(), ',');
    assert forall|i: int| 0 <= i < 10 implies row_fields(join_on(vs, ','))[i] == e[i] by {
        assert(e[i] is Some);
        if i < 9 {
            assert(ps[i] == vs[i]);
        }
    }
    assert(row_fields(join_on(vs, ',')) =~= e);
}

/// Rendering a complete document and reading the text back gives the same
/// style row and the same dialogues. The Script Info fields come back as
/// they were, except that strict reading refuses a Script Info section with
/// a field unset.
pub proof fn lemma_round_trip(d: DocView, strict: bool)
    requires
        well_shaped(d),
        complete(d),
        reads_back(d),
    ensures
        spec_parse_document(document_text(d), strict) == if strict && !all_set(d.script) {
            Err::<DocView, AssError>(AssError::MissingField)
        } else {
            Ok::<DocView, AssError>(d)
        },
{
    lemma_literals();
    lemma_document_lines_bare(d);
    let dl = document_lines(d);
    lemma_ass_lines_of_text(dl);
    let ls = ass_lines(document_text(d));
    assert(ls == dl.push(Seq::<char>::empty()));
    let hs = script_header();
    let vh = v4_header();
    let eh = events_header();
    let e = Seq::<char>::empty();
    let sl = script_lines_upto(d.script, 5);
    let rows = d.events.map_values(|x: Seq<Option<Seq<char>>>| dialogue_row(x));
    let r = style_row(d.v4);
    lemma_script_lines_start(d.script, 5);
    assert(r[0] == 'S');
    assert forall|j: int| 0 <= j < rows.len() implies (#[trigger] rows[j]).len() >= 10 && rows[j][0]
        == 'D' by {
        assert(rows[j] == dialogue_row(d.events[j]));
    }
    // Script Info
    let tail = sl + seq![e, vh, v4_format_line(), r, e, eh, events_format_line()] + rows + seq![e];
    assert(ls =~= seq![hs] + tail);
    assert(ls[0] == hs);
    assert(ls.drop_first() =~= tail);
    assert forall|i: int| 0 <= i < sl.push(e).len() implies (#[trigger] sl.push(e)[i]) != hs
        && inner_line(sl.push(e)[i]) by {
        if i < sl.len() {
            assert(sl.push(e)[i] == sl[i]);
            lemma_differs_at(sl[i], hs, 0);
        }
    }
    lemma_differs_at(vh, hs, 1);
    let after_script = seq![vh, v4_format_line(), r, e, eh, events_format_line()] + rows + seq![e];
    assert(tail =~= sl.push(e) + after_script);
    lemma_body_prefix(sl.push(e), after_script, hs);
    assert(after_script[0] == vh);
    let script_section = seq![hs, seq!['\n']] + sl.push(e);
    assert(section_lines(ls, hs) == script_section);
    assert forall|k: int| 0 <= k < 5 implies script_value(script_section, k) == d.script[k] by {
        let p = seq![hs, seq!['\n']];
        assert forall|i: int| 0 <= i < p.len() implies line_key(#[trigger] p[i]) == 5 by {
            if i == 0 {
                lemma_no_key(hs);
            } else {
                lemma_no_key(seq!['\n']);
            }
        }
        lemma_script_value_upto(p, d.script, 5, k);
        assert(script_section.drop_last() =~= p + sl);
        lemma_no_key(e);
    }
    assert(script_values(script_section) =~= d.script);
    // the style row
    let before_v4 = seq![hs] + sl.push(e);
    assert forall|i: int| 0 <= i < before_v4.len() implies (#[trigger] before_v4[i]) != vh by {
        if i == 0 {
            lemma_differs_at(hs, vh, 1);
        } else {
            assert(before_v4[i] == sl.push(e)[i - 1]);
            if i - 1 < sl.len() {
                lemma_differs_at(sl[i - 1], vh, 0);
            }
        }
    }
    assert(ls =~= before_v4 + after_script);
    lemma_section_skip(before_v4, after_script, vh);
    let v4_rest = seq![eh, events_format_line()] + rows + seq![e];
    let v4_inner = seq![v4_format_line(), r, e];
    assert(after_script.drop_first() =~= v4_inner + v4_rest);
    assert forall|i: int| 0 <= i < v4_inner.len() implies (#[trigger] v4_inner[i]) != vh
        && inner_line(v4_inner[i]) by {
        if i == 0 {
            lemma_differs_at(v4_format_line(), vh, 0);
        } else if i == 1 {
            lemma_differs_at(r, vh, 0);
        }
    }
    lemma_body_prefix(v4_inner, v4_rest, vh);
    lemma_differs_at(eh, vh, 1);
    assert(v4_rest[0] == eh);
    let v4_section = seq![vh, seq!['\n']] + v4_inner;
    assert(section_lines(ls, vh) == v4_section);
    lemma_differs_at(vh, style_head(), 0);
    lemma_differs_at(v4_format_line(), style_head(), 0);
    assert(r.subrange(0, style_head().len() as int) =~= style_head());
    let s1 = v4_section.drop_first();
    let s2 = s1.drop_first();
    let s3 = s2.drop_first();
    assert(v4_section[0] == vh);
    assert(s1[0] == seq!['\n']);
    assert(s2[0] == v4_format_line());
    assert(s3[0] == r);
    assert(first_style(s3) == Some(r.skip(style_head().len() as int)));
    assert(first_style(s2) == first_style(s3));
    assert(first_style(s1) == first_style(s2));
    assert(first_style(v4_section) == Some(r.skip(style_head().len() as int)));
    let vs = values_of(d.v4);
    assert(r.skip(style_head().len() as int) =~= join_on(vs, ','));
    lemma_split_join(vs, ',');
    lemma_split_on_plain(vs.last(), ',');
    assert(vs.drop_last() + seq![vs.last()] =~= vs);
    assert(style_fields(join_on(vs, ',')) =~= d.v4) by {
        assert forall|i: int| 0 <= i < 23 implies style_fields(join_on(vs, ','))[i] == d.v4[i] by {
            assert(d.v4[i] is Some);
        }
    }
    assert(spec_parse_v4(v4_section) == Ok::<Seq<Option<Seq<char>>>, AssError>(d.v4));
    // the dialogues
    let before_events = seq![hs] + sl + seq![e, vh, v4_format_line(), r, e];
    let events_tail = seq![eh, events_format_line()] + rows + seq![e];
    assert(ls =~= before_events + events_tail);
    assert forall|i: int| 0 <= i < before_events.len() implies (#[trigger] before_events[i]) != eh by {
        if i == 0 {
            lemma_differs_at(hs, eh, 1);
        } else if i <= sl.len() {
            assert(before_events[i] == sl[i - 1]);
            lemma_differs_at(sl[i - 1], eh, 0);
        } else if i == sl.len() + 2 {
            lemma_differs_at(vh, eh, 1);
        } else if i == sl.len() + 3 {
            lemma_differs_at(v4_format_line(), eh, 0);
        } else if i == sl.len() + 4 {
            lemma_differs_at(r, eh, 0);
        }
    }
    lemma_section_skip(before_events, events_tail, eh);
    let ev_inner = seq![events_format_line()] + rows + seq![e];
    assert(events_tail.drop_first() =~= ev_inner + Seq::<Seq<char>>::empty());
    assert forall|i: int| 0 <= i < ev_inner.len() implies (#[trigger] ev_inner[i]) != eh && inner_line(
        ev_inner[i],
    ) by {
        if i == 0 {
            lemma_differs_at(events_format_line(), eh, 0);
        } else if i <= rows.len() {
            assert(ev_inner[i] == rows[i - 1]);
            lemma_differs_at(rows[i - 1], eh, 0);
        }
    }
    lemma_body_prefix(ev_inner, Seq::<Seq<char>>::empty(), eh);
    let ev_section = seq![eh, seq!['\n']] + ev_inner;
    assert(section_lines(ls, eh) =~= ev_section);
    let ev_head = seq![eh, seq!['\n'], events_format_line()];
    assert forall|i: int| 0 <= i < ev_head.len() implies !starts_with(
        #[trigger] ev_head[i],
        dialogue_head(),
    ) by {
        if i == 0 {
            lemma_differs_at(eh, dialogue_head(), 0);
        } else if i == 2 {
            lemma_differs_at(events_format_line(), dialogue_head(), 0);
        }
    }
    lemma_dialogue_rows(ev_head, d.events);
    assert(ev_section.drop_last() =~= ev_head + rows);
    assert(!starts_with(e, dialogue_head()));
    let texts = d.events.map_values(|x: Seq<Option<Seq<char>>>| join_on(values_of(x), ','));
    assert(dialogue_rows(ev_section) == texts);
    assert forall|j: int| 0 <= j < texts.len() implies row_ok(#[trigger] texts[j]) && row_fields(
        texts[j],
    ) == d.events[j] by {
        assert(all_set(d.events[j]));
        assert forall|i: int| 0 <= i < 9 implies !has_char(#[trigger] values_of(d.events[j])[i], ',') by {
            assert(!has_char(values_of(d.events[j])[i], ','));
        }
        lemma_row_back(d.events[j]);
    }
    assert(texts.map_values(|row: Seq<char>| row_fields(row)) =~= d.events);
    assert(spec_parse_events(ev_section) == Ok::<Seq<Seq<Option<Seq<char>>>>, AssError>(d.events));
    assert(spec_parse_script(script_section, strict) == if strict && !all_set(d.script) {
        Err::<Seq<Option<Seq<char>>>, AssError>(AssError::MissingField)
    } else {
        Ok::<Seq<Option<Seq<char>>>, AssError>(d.script)
    });
}

/// Reading back a rendered document and rendering and reading the result
/// again gives the same document once more.
pub proof fn lemma_reparse_stable(d: DocView, strict: bool)
    requires
        well_shaped(d),
        complete(d),
        reads_back(d),
        strict ==> all_set(d.script),
    ensures
        spec_parse_document(document_text(d), strict) is Ok,
        spec_parse_document(document_text(spec_parse_document(document_text(d), strict)->Ok_0), strict)
            == spec_parse_document(document_text(d), strict),
{
    lemma_round_trip(d, strict);
}

/// One dialogue row with fewer than ten comma-separated values makes the
/// whole events section fail with `MalformedRow`.
pub proof fn lemma_short_dialogue_rejected(ls: Seq<Seq<char>>, j: int)
    requires
        0 <= j < dialogue_rows(ls).len(),
        split_on(dialogue_rows(ls)[j], ',').len() < 10,
    ensures
        spec_parse_events(ls) == Err::<Seq<Seq<Option<Seq<char>>>>, AssError>(AssError::MalformedRow),
{
    assert(!row_ok(dialogue_rows(ls)[j]));
}

proof fn lemma_arrow_chars()
    ensures
        arrow().len() == 5,
        arrow()[0] == ' ',
        arrow()[1] == '-',
        arrow()[2] == '-',
        arrow()[3] == '>',
        arrow()[4] == ' ',
{
    reveal_strlit(" --> ");
}

proof fn lemma_no_arrow_before(a: Seq<char>, b: Seq<char>, j: int)
    requires
        forall|q: int| !matches_at(a, arrow(), q),
        !(a.len() >= 4 && a.subrange(a.len() - 4, a.len() as int) == arrow().take(4)),
        0 <= j < a.len(),
    ensures
        !matches_at(a + arrow() + b, arrow(), j),
{
    lemma_arrow_chars();
    let w = arrow();
    let s = a + w + b;
    let i = a.len() as int;
    if matches_at(s, w, j) {
        let m = s.subrange(j, j + 5);
        if j + 5 <= i {
            assert(a.subrange(j, j + 5) =~= m);
            assert(matches_at(a, w, j));
        } else if j == i - 4 {
            assert forall|t: int| 0 <= t < 4 implies a.subrange(i - 4, i)[t] == w.take(4)[t] by {
                assert(m[t] == w[t]);
                assert(m[t] == s[j + t]);
            }
            assert(a.subrange(i - 4, i) =~= w.take(4));
        } else {
            assert(m[i - j] == s[i]);
            assert(s[i] == w[0]);
        }
    }
}

proof fn lemma_no_arrow_after(a: Seq<char>, b: Seq<char>, j: int)
    requires
        forall|q: int| !matches_at(b, arrow(), q),
        a.len() + arrow().len() <= j,
    ensures
        !matches_at(a + arrow() + b, arrow(), j),
{
    lemma_arrow_chars();
    let s = a + arrow() + b;
    let i = a.len() as int;
    if matches_at(s, arrow(), j) {
        assert(b.subrange(j - i - 5, j - i) =~= s.subrange(j, j + 5));
        assert(matches_at(b, arrow(), j - i - 5));
    }
}

proof fn lemma_split_arrow(a: Seq<char>, b: Seq<char>)
    requires
        forall|j: int| !matches_at(a, arrow(), j),
        forall|j: int| !matches_at(b, arrow(), j),
        !(a.len() >= 4 && a.subrange(a.len() - 4, a.len() as int) == arrow().take(4)),
    ensures
        split_arrow(a + arrow() + b) == Some((a, b)),
{
    lemma_arrow_chars();
    let w = arrow();
    let s = a + w + b;
    let i = a.len() as int;
    assert(s.subrange(i, i + 5) =~= w);
    assert forall|j: int| 0 <= j < i implies !matches_at(s, w, j) by {
        lemma_no_arrow_before(a, b, j);
    }
    assert forall|j: int| i + w.len() <= j implies !matches_at(s, w, j) by {
        lemma_no_arrow_after(a, b, j);
    }
    assert(sole_arrow_at(s, i));
    let k = choose|k: int| sole_arrow_at(s, k);
    assert(k == i) by {
        if k < i {
            assert(!matches_at(s, w, k));
        } else if k > i {
            assert(!matches_at(s, w, i));
        }
    }
    assert(s.take(i) =~= a);
    assert(s.skip(i + 5) =~= b);
}

/// A timestamp line `a --> b` whose arrow is the only one the cut can find
/// (neither side holds ` --> `, and `a` does not end in ` -->`) gives the
/// record `a` and `b` as timestamps: commas turned into dots, one character
/// dropped at each end.
pub proof fn lemma_timestamp_line(index: Seq<char>, a: Seq<char>, b: Seq<char>, texts: Seq<Seq<char>>)
    requires
        forall|j: int| !matches_at(a, arrow(), j),
        forall|j: int| !matches_at(b, arrow(), j),
        !(a.len() >= 4 && a.subrange(a.len() - 4, a.len() as int) == arrow().take(4)),
    ensures
        srt_record(seq![index, a + arrow() + b] + texts) == Some(
            (index, timestamp(a), timestamp(b), text_join(texts)),
        ),
{
    lemma_split_arrow(a, b);
    let blk = seq![index, a + arrow() + b] + texts;
    assert(blk[0] == index);
    assert(blk[1] == a + arrow() + b);
    assert(blk.skip(2) =~= texts);
}

proof fn lemma_text_of_lines_append(x: Seq<Seq<char>>, y: Seq<Seq<char>>)
    ensures
        text_of_lines(x + y) == text_of_lines(x) + text_of_lines(y),
    decreases y.len(),
{
    if y.len() == 0 {
        assert(x + y =~= x);
        assert(text_of_lines(x) + Seq::<char>::empty() =~= text_of_lines(x));
    } else {
        lemma_text_of_lines_append(x, y.drop_last());
        assert((x + y).drop_last() =~= x + y.drop_last());
        assert((x + y).last() == y.last());
        assert(text_of_lines(x) + text_of_lines(y.drop_last()) + y.last().push('\n')
            =~= text_of_lines(x) + (text_of_lines(y.drop_last()) + y.last().push('\n')));
    }
}

/// The Script Info block: its header, then one line per set field.
pub open spec fn script_block(d: DocView) -> Seq<char> {
    text_of_lines(seq![script_header()] + script_lines_upto(d.script, 5))
}

/// The styles block: its header, its `Format:` line, the style row.
pub open spec fn styles_block(d: DocView) -> Seq<char> {
    text_of_lines(seq![v4_header(), v4_format_line(), style_row(d.v4)])
}

/// The events block: its header, its `Format:` line, one row per dialogue.
pub open spec fn events_block(d: DocView) -> Seq<char> {
    text_of_lines(
        seq![events_header(), events_format_line()] + d.events.map_values(
            |e: Seq<Option<Seq<char>>>| dialogue_row(e),
        ),
    )
}

/// A rendered document is the Script Info, styles and events blocks in that
/// order, with one blank line between neighbours.
pub proof fn lemma_document_layout(d: DocView)
    ensures
        document_text(d) == script_block(d) + seq!['\n'] + styles_block(d) + seq!['\n']
            + events_block(d),
{
    let e = Seq::<char>::empty();
    let a = seq![script_header()] + script_lines_upto(d.script, 5);
    let b = seq![v4_header(), v4_format_line(), style_row(d.v4)];
    let c = seq![events_header(), events_format_line()] + d.events.map_values(
        |x: Seq<Option<Seq<char>>>| dialogue_row(x),
    );
    assert(document_lines(d) =~= a + seq![e] + b + seq![e] + c);
    lemma_text_of_lines_append(a + seq![e] + b + seq![e], c);
    lemma_text_of_lines_append(a + seq![e] + b, seq![e]);
    lemma_text_of_lines_append(a + seq![e], b);
    lemma_text_of_lines_append(a, seq![e]);
    assert(seq![e].drop_last() =~= Seq::<Seq<char>>::empty());
    assert(seq![e].last() == e);
    assert(text_of_lines(Seq::<Seq<char>>::empty()) == Seq::<char>::empty());
    assert(text_of_lines(seq![e]) == text_of_lines(seq![e].drop_last()) + e.push('\n'));
    assert(text_of_lines(seq![e]) =~= seq!['\n']);
}

/// The text with every `\n` written as `\r\n`.
pub open spec fn with_crlf(s: Seq<char>) -> Seq<char>
    decreases s.len(),
{
    if s.len() == 0 {
        Seq::empty()
    } else if s.last() == '\n' {
        with_crlf(s.drop_last()).push('\r').push('\n')
    } else {
        with_crlf(s.drop_last()).push(s.last())
    }
}

/// No `\r` stands right before a `\n`.
pub open spec fn no_crlf(s: Seq<char>) -> bool {
    forall|i: int| 0 <= i && i + 1 < s.len() ==> !(s[i] == '\r' && #[trigger] s[i + 1] == '\n')
}

spec fn cr_on_all_but_last(ps: Seq<Seq<char>>) -> Seq<Seq<char>> {
    ps.map(|i: int, p: Seq<char>| if i < ps.len() - 1 { p.push('\r') } else { p })
}

proof fn lemma_split_crlf(s: Seq<char>)
    requires
        no_crlf(s),
    ensures
        split_on(with_crlf(s), '\n') == cr_on_all_but_last(split_on(s, '\n')),
        forall|i: int|
            0 <= i < split_on(s, '\n').len() - 1 ==> !(#[trigger] split_on(s, '\n')[i].len() > 0
                && split_on(s, '\n')[i].last() == '\r'),
    decreases s.len(),
{
    if s.len() > 0 {
        let s1 = s.drop_last();
        assert(no_crlf(s1)) by {
            assert forall|i: int| 0 <= i && i + 1 < s1.len() implies !(s1[i] == '\r' && #[trigger] s1[
                i + 1] == '\n') by {
                assert(s1[i] == s[i] && s1[i + 1] == s[i + 1]);
            }
        }
        lemma_split_crlf(s1);
        lemma_split_on_len(s1, '\n');
        let p = split_on(s1, '\n');
        let x = s.last();
        let c1 = with_crlf(s1);
        lemma_split_on_len(c1, '\n');
        let q = split_on(c1, '\n');
        if x == '\n' {
            assert(!(s1.len() > 0 && s1.last() == '\r')) by {
                if s1.len() > 0 && s1.last() == '\r' {
                    let i = s.len() - 2;
                    assert(s[i] == s1.last());
                    assert(s[i + 1] == s.last());
                    assert(!(s[i] == '\r' && s[i + 1] == '\n'));
                }
            }
            let c2 = c1.push('\r');
            assert(c2.drop_last() == c1);
            assert(c2.push('\n').drop_last() == c2);
            assert(split_on(c2, '\n') == q.update(q.len() - 1, q.last().push('\r')));
            assert(cr_on_all_but_last(p.push(Seq::<char>::empty())) =~= q.update(
                q.len() - 1,
                q.last().push('\r'),
            ).push(Seq::<char>::empty()));
            let r = p.push(Seq::<char>::empty());
            assert forall|i: int| 0 <= i < r.len() - 1 implies !(#[trigger] r[i].len() > 0
                && r[i].last() == '\r') by {
                assert(r[i] == p[i]);
                if i == p.len() - 1 {
                    if p[i].len() > 0 && p[i].last() == '\r' {
                        assert(s1.len() > 0 && s1.last() == '\r') by {
                            if !(s1.len() > 0 && s1.last() == '\r') {
                                lemma_last_piece(s1);
                            }
                        }
                    }
                }
            }
        } else {
            let r = p.update(p.len() - 1, p.last().push(x));
            assert(c1.push(x).drop_last() == c1);
            assert(cr_on_all_but_last(r) =~= q.update(q.len() - 1, q.last().push(x)));
            assert forall|i: int| 0 <= i < r.len() - 1 implies !(#[trigger] r[i].len() > 0
                && r[i].last() == '\r') by {
                assert(r[i] == p[i]);
            }
        }
    }
}

/// The last piece ends with `\r` only if the text does.
proof fn lemma_last_piece(s: Seq<char>)
    requires
        !(s.len() > 0 && s.last() == '\r'),
    ensures
        !(split_on(s, '\n').last().len() > 0 && split_on(s, '\n').last().last() == '\r'),
{
    lemma_split_on_len(s, '\n');
    if s.len() > 0 {
        lemma_split_on_len(s.drop_last(), '\n');
    }
}

/// A text with no `\r\n` in it reads the same once every `\n` is written as
/// `\r\n`.
pub proof fn lemma_crlf_reads_alike(s: Seq<char>, strict: bool)
    requires
        no_crlf(s),
    ensures
        ass_lines(with_crlf(s)) == ass_lines(s),
        spec_parse_document(with_crlf(s), strict) == spec_parse_document(s, strict),
{
    lemma_split_crlf(s);
    let ps = split_on(s, '\n');
    let f = |p: Seq<char>| split_on(strip_cr(p), '\r');
    assert(cr_on_all_but_last(ps).map_values(f) =~= ps.map_values(f)) by {
        assert forall|i: int| 0 <= i < ps.len() implies f(cr_on_all_but_last(ps)[i]) == f(ps[i]) by {
            if i < ps.len() - 1 {
                assert(ps[i].push('\r').drop_last() == ps[i]);
                assert(!(ps[i].len() > 0 && ps[i].last() == '\r'));
            }
        }
    }
}

} // verus!
