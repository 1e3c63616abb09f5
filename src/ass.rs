//! Reading and writing the ASS text format: locating a bracketed section,
//! turning its lines into a section record, and rendering a document back.
use vstd::prelude::*;
use vstd::string::StrSliceExecFns;
use vstd::string::StringExecFns;
use crate::model::{
    AssError, AssFile, Components, Dialogue, DocView, Events, ScriptInfo, V4Format, all_set,
    dialogues_view, opt_view, opts_view,
};
use crate::text::{
    ass_lines, ass_lines_of, chars_of, join_on, join_strings, lemma_ass_lines_bare,
    lemma_split_on_len, skip_str, split_on, split_str, starts_with, starts_with_str, strip_cr,
    strip_cr_string, text_of_lines, views,
};

verus! {

// ---- the schema shared by both directions ----

pub open spec fn script_header() -> Seq<char> {
    "[Script Info]"@
}

pub open spec fn v4_header() -> Seq<char> {
    "[V4+ Styles]"@
}

pub open spec fn events_header() -> Seq<char> {
    "[Events]"@
}

pub open spec fn style_head() -> Seq<char> {
    "Style: "@
}

pub open spec fn dialogue_head() -> Seq<char> {
    "Dialogue: "@
}

pub open spec fn v4_format_line() -> Seq<char> {
    "Format: Name, Fontname, Fontsize, PrimaryColour, SecondaryColour, OutlineColour, BackColour, Bold, Italic, Underline, StrikeOut, ScaleX, ScaleY, Spacing, Angle, BorderStyle, Outline, Shadow, Alignment, MarginL, MarginR, MarginV, Encoding"@
}

pub open spec fn events_format_line() -> Seq<char> {
    "Format: Layer, Start, End, Style, Name, MarginL, MarginR, MarginV, Effect, Text"@
}

/// The key that introduces Script Info field `k`, in emission order.
pub open spec fn script_key(k: int) -> Seq<char> {
    if k == 0 {
        "ScriptType: "@
    } else if k == 1 {
        "PlayResX: "@
    } else if k == 2 {
        "PlayResY: "@
    } else if k == 3 {
        "ScaledBorderAndShadow: "@
    } else {
        "YCbCr Matrix: "@
    }
}

fn script_key_str(k: usize) -> (r: &'static str)
    requires
        k < 5,
    ensures
        r@ == script_key(k as int),
{
    if k == 0 {
        "ScriptType: "
    } else if k == 1 {
        "PlayResX: "
    } else if k == 2 {
        "PlayResY: "
    } else if k == 3 {
        "ScaledBorderAndShadow: "
    } else {
        "YCbCr Matrix: "
    }
}

// ---- section extraction ----

/// The lines of a section once its header has been met: a repeated header
/// restarts it, a line opening another bracketed section ends it, comment
/// lines (`;`) are dropped.
pub open spec fn section_body(rest: Seq<Seq<char>>, header: Seq<char>) -> Seq<Seq<char>>
    decreases rest.len(),
{
    if rest.len() == 0 {
        Seq::empty()
    } else if rest[0] == header {
        seq![header, seq!['\n']] + section_body(rest.drop_first(), header)
    } else if rest[0].len() > 0 && rest[0][0] == '[' {
        Seq::empty()
    } else if rest[0].len() > 0 && rest[0][0] == ';' {
        section_body(rest.drop_first(), header)
    } else {
        seq![rest[0]] + section_body(rest.drop_first(), header)
    }
}

/// The section that `header` opens: the header, a `"\n"` marker, then its
/// lines; empty where no line is the header.
pub open spec fn section_lines(lines: Seq<Seq<char>>, header: Seq<char>) -> Seq<Seq<char>>
    decreases lines.len(),
{
    if lines.len() == 0 {
        Seq::empty()
    } else if lines[0] == header {
        seq![header, seq!['\n']] + section_body(lines.drop_first(), header)
    } else {
        section_lines(lines.drop_first(), header)
    }
}

/// A section that is absent yields no lines.
pub proof fn lemma_missing_section(lines: Seq<Seq<char>>, header: Seq<char>)
    requires
        forall|i: int| 0 <= i < lines.len() ==> lines[i] != header,
    ensures
        section_lines(lines, header) == Seq::<Seq<char>>::empty(),
    decreases lines.len(),
{
    if lines.len() > 0 {
        assert(lines[0] != header);
        lemma_missing_section(lines.drop_first(), header);
    }
}

fn first_char_is(s: &str, c: char) -> (r: bool)
    ensures
        r == (s@.len() > 0 && s@[0] == c),
{
    if s.unicode_len() == 0 {
        false
    } else {
        s.get_char(0) == c
    }
}

fn newline_marker() -> (r: String)
    ensures
        r@ == seq!['\n'],
{
    proof {
        reveal_strlit("\n");
    }
    String::from_str("\n")
}

/// The lines of the section that `header` opens, as `section_lines` gives
/// them, each raw line taken without one trailing `\r`.
pub fn get_info(lines: &Vec<String>, header: &str) -> (r: Vec<String>)
    ensures
        views(r@) == section_lines(views(lines@).map_values(|l: Seq<char>| strip_cr(l)), header@),
{
    let ghost ls = views(lines@).map_values(|l: Seq<char>| strip_cr(l));
    let ghost h = header@;
    let hs = String::from_str(header);
    let mut out: Vec<String> = Vec::new();
    let mut found = false;
    let mut i: usize = 0;
    proof {
        assert(ls.skip(0) == ls);
    }
    while i < lines.len()
        invariant
            ls == views(lines@).map_values(|l: Seq<char>| strip_cr(l)),
            h == header@,
            hs@ == h,
            i <= lines.len(),
            !found ==> out@.len() == 0 && section_lines(ls, h) == section_lines(ls.skip(i as int), h),
            found ==> views(out@) + section_body(ls.skip(i as int), h) == section_lines(ls, h),
        decreases lines.len() - i,
    {
        let line = strip_cr_string(lines[i].clone());
        let ghost l = line@;
        proof {
            assert(ls[i as int] == l);
            assert(ls.skip(i as int)[0] == l);
            assert(ls.skip(i as int).drop_first() == ls.skip(i + 1));
        }
        if line == hs {
            let marker = newline_marker();
            let copy = hs.clone();
            proof {
                assert(views(out@.push(copy).push(marker)) == views(out@) + seq![h, seq!['\n']]);
            }
            out.push(copy);
            out.push(marker);
            found = true;
        } else if found {
            if first_char_is(line.as_str(), '[') {
                proof {
                    assert(views(out@) == section_lines(ls, h));
                }
                return out;
            } else if first_char_is(line.as_str(), ';') {
            } else {
                proof {
                    assert(views(out@.push(line)) == views(out@) + seq![l]);
                }
                out.push(line);
            }
        }
        i = i + 1;
    }
    proof {
        assert(ls.skip(i as int) == Seq::<Seq<char>>::empty());
        assert(views(out@) + Seq::<Seq<char>>::empty() == views(out@));
    }
    out
}

// ---- Script Info ----

/// Which key a Script Info line starts with, the first in key order; 5 for none.
pub open spec fn line_key(l: Seq<char>) -> int {
    if starts_with(l, script_key(0)) {
        0
    } else if starts_with(l, script_key(1)) {
        1
    } else if starts_with(l, script_key(2)) {
        2
    } else if starts_with(l, script_key(3)) {
        3
    } else if starts_with(l, script_key(4)) {
        4
    } else {
        5
    }
}

/// The value of Script Info field `k`: the rest of the last line with its key.
pub open spec fn script_value(ls: Seq<Seq<char>>, k: int) -> Option<Seq<char>>
    decreases ls.len(),
{
    if ls.len() == 0 {
        None
    } else if line_key(ls.last()) == k {
        Some(ls.last().skip(script_key(k).len() as int))
    } else {
        script_value(ls.drop_last(), k)
    }
}

pub open spec fn script_values(ls: Seq<Seq<char>>) -> Seq<Option<Seq<char>>> {
    Seq::new(5, |k: int| script_value(ls, k))
}

/// Script Info read from its lines; when `strict`, every field must be there.
pub open spec fn spec_parse_script(ls: Seq<Seq<char>>, strict: bool) -> Result<
    Seq<Option<Seq<char>>>,
    AssError,
> {
    if strict && !all_set(script_values(ls)) {
        Err(AssError::MissingField)
    } else {
        Ok(script_values(ls))
    }
}

pub open spec fn script_result(r: Result<ScriptInfo, AssError>) -> Result<
    Seq<Option<Seq<char>>>,
    AssError,
> {
    match r {
        Ok(s) => Ok(s@),
        Err(e) => Err(e),
    }
}

fn key_of_line(line: &str) -> (r: usize)
    ensures
        r as int == line_key(line@),
{
    let mut k: usize = 0;
    while k < 5
        invariant
            k <= 5,
            forall|j: int| 0 <= j < k ==> !starts_with(line@, #[trigger] script_key(j)),
        decreases 5 - k,
    {
        if starts_with_str(line, script_key_str(k)) {
            return k;
        }
        k = k + 1;
    }
    5
}

/// Reads the Script Info fields from the lines of its section. Unknown lines
/// are ignored; a key seen twice keeps its last value. In strict mode a
/// missing key is `MissingField`; otherwise the missing fields stay unset.
pub fn parse_script(lines: &Vec<String>, strict: bool) -> (r: Result<ScriptInfo, AssError>)
    ensures
        script_result(r) == spec_parse_script(views(lines@), strict),
{
    let ghost ls = views(lines@);
    let mut fields: [Option<String>; 5] = [None, None, None, None, None];
    let mut i: usize = 0;
    while i < lines.len()
        invariant
            ls == views(lines@),
            i <= lines.len(),
            forall|k: int| 0 <= k < 5 ==> opt_view(#[trigger] fields@[k]) == script_value(ls.take(i as int), k),
        decreases lines.len() - i,
    {
        let line = lines[i].as_str();
        let k = key_of_line(line);
        proof {
            assert(ls.take(i + 1).drop_last() == ls.take(i as int));
            assert(ls.take(i + 1).last() == line@);
        }
        if k < 5 {
            let n = script_key_str(k).unicode_len();
            let v = skip_str(line, n);
            fields[k] = Some(v);
        }
        i = i + 1;
    }
    proof {
        assert(ls.take(lines.len() as int) == ls);
    }
    let mut complete = true;
    let mut k: usize = 0;
    while k < 5
        invariant
            k <= 5,
            forall|j: int| 0 <= j < 5 ==> opt_view(#[trigger] fields@[j]) == script_value(ls, j),
            complete == (forall|j: int| 0 <= j < k ==> (#[trigger] fields@[j]) is Some),
        decreases 5 - k,
    {
        if fields[k].is_none() {
            complete = false;
        }
        k = k + 1;
    }
    let s = ScriptInfo::from_fields(fields);
    proof {
        assert(s@ =~= script_values(ls));
        if !complete {
            let j = choose|j: int| 0 <= j < 5 && !(fields@[j] is Some);
            assert(!(s@[j] is Some));
        } else {
            assert forall|j: int| 0 <= j < s@.len() implies (#[trigger] s@[j]) is Some by {
                assert(fields@[j] is Some);
            }
        }
    }
    if strict && !complete {
        Err(AssError::MissingField)
    } else {
        Ok(s)
    }
}

// ---- the style row ----

/// The rest of the first line that starts with `Style: `.
pub open spec fn first_style(ls: Seq<Seq<char>>) -> Option<Seq<char>>
    decreases ls.len(),
{
    if ls.len() == 0 {
        None
    } else if starts_with(ls[0], style_head()) {
        Some(ls[0].skip(style_head().len() as int))
    } else {
        first_style(ls.drop_first())
    }
}

/// The first twenty-three comma-separated values of a style row.
pub open spec fn style_fields(row: Seq<char>) -> Seq<Option<Seq<char>>> {
    Seq::new(23, |i: int| Some(split_on(row, ',')[i]))
}

pub open spec fn spec_parse_v4(ls: Seq<Seq<char>>) -> Result<Seq<Option<Seq<char>>>, AssError> {
    match first_style(ls) {
        None => Err(AssError::MissingField),
        Some(row) => if split_on(row, ',').len() < 23 {
            Err(AssError::MalformedRow)
        } else {
            Ok(style_fields(row))
        },
    }
}

pub open spec fn v4_result(r: Result<V4Format, AssError>) -> Result<
    Seq<Option<Seq<char>>>,
    AssError,
> {
    match r {
        Ok(s) => Ok(s@),
        Err(e) => Err(e),
    }
}

/// Reads the style row of the styles section: the first `Style: ` line, cut
/// at commas. No such line is `MissingField`; fewer than twenty-three values
/// is `MalformedRow`.
pub fn parse_v4(lines: &Vec<String>) -> (r: Result<V4Format, AssError>)
    ensures
        v4_result(r) == spec_parse_v4(views(lines@)),
{
    let ghost ls = views(lines@);
    let mut i: usize = 0;
    proof {
        assert(ls.skip(0) == ls);
    }
    while i < lines.len()
        invariant
            ls == views(lines@),
            i <= lines.len(),
            first_style(ls) == first_style(ls.skip(i as int)),
        decreases lines.len() - i,
    {
        let line = lines[i].as_str();
        proof {
            assert(ls.skip(i as int)[0] == line@);
            assert(ls.skip(i as int).drop_first() == ls.skip(i + 1));
        }
        if starts_with_str(line, "Style: ") {
            let row = skip_str(line, "Style: ".unicode_len());
            let values = split_str(row.as_str(), ',');
            if values.len() < 23 {
                return Err(AssError::MalformedRow);
            }
            let fields: [Option<String>; 23] = [
            Some(values[0].clone()),
            Some(values[1].clone()),
            Some(values[2].clone()),
            Some(values[3].clone()),
            Some(values[4].clone()),
            Some(values[5].clone()),
            Some(values[6].clone()),
            Some(values[7].clone()),
            Some(values[8].clone()),
            Some(values[9].clone()),
            Some(values[10].clone()),
            Some(values[11].clone()),
            Some(values[12].clone()),
            Some(values[13].clone()),
            Some(values[14].clone()),
            Some(values[15].clone()),
            Some(values[16].clone()),
            Some(values[17].clone()),
            Some(values[18].clone()),
            Some(values[19].clone()),
            Some(values[20].clone()),
            Some(values[21].clone()),
            Some(values[22].clone()),
            ];
            let v = V4Format::from_fields(fields);
            proof {
                assert(v@ =~= style_fields(row@));
            }
            return Ok(v);
        }
        i = i + 1;
    }
    proof {
        assert(ls.skip(lines.len() as int) == Seq::<Seq<char>>::empty());
    }
    Err(AssError::MissingField)
}

// ---- dialogue rows ----

/// The rest of every line that starts with `Dialogue: `, in order.
pub open spec fn dialogue_rows(ls: Seq<Seq<char>>) -> Seq<Seq<char>>
    decreases ls.len(),
{
    if ls.len() == 0 {
        Seq::empty()
    } else {
        let p = dialogue_rows(ls.drop_last());
        if starts_with(ls.last(), dialogue_head()) {
            p.push(ls.last().skip(dialogue_head().len() as int))
        } else {
            p
        }
    }
}

/// A dialogue row has at least ten comma-separated values.
pub open spec fn row_ok(row: Seq<char>) -> bool {
    split_on(row, ',').len() >= 10
}

/// The ten fields of a dialogue row: nine values, then all the rest as text.
pub open spec fn row_fields(row: Seq<char>) -> Seq<Option<Seq<char>>> {
    let ps = split_on(row, ',');
    Seq::new(
        10,
        |i: int|
            Some(
                if i < 9 {
                    ps[i]
                } else {
                    join_on(ps.skip(9), ',')
                },
            ),
    )
}

pub open spec fn spec_parse_events(ls: Seq<Seq<char>>) -> Result<
    Seq<Seq<Option<Seq<char>>>>,
    AssError,
> {
    let rows = dialogue_rows(ls);
    if forall|j: int| 0 <= j < rows.len() ==> row_ok(#[trigger] rows[j]) {
        Ok(rows.map_values(|row: Seq<char>| row_fields(row)))
    } else {
        Err(AssError::MalformedRow)
    }
}

pub open spec fn events_result(r: Result<Events, AssError>) -> Result<
    Seq<Seq<Option<Seq<char>>>>,
    AssError,
> {
    match r {
        Ok(e) => Ok(e@),
        Err(e) => Err(e),
    }
}

proof fn lemma_rows_prefix(ls: Seq<Seq<char>>, i: int)
    requires
        0 <= i <= ls.len(),
    ensures
        dialogue_rows(ls.take(i)).len() <= dialogue_rows(ls).len(),
        forall|j: int|
            0 <= j < dialogue_rows(ls.take(i)).len() ==> dialogue_rows(ls.take(i))[j]
                == dialogue_rows(ls)[j],
    decreases ls.len(),
{
    if i < ls.len() {
        assert(ls.drop_last().take(i) == ls.take(i));
        lemma_rows_prefix(ls.drop_last(), i);
    } else {
        assert(ls.take(i) == ls);
    }
}

/// Reads every `Dialogue: ` line of the events section, in order. A row with
/// fewer than ten comma-separated values is `MalformedRow`; the text field
/// keeps every comma after the ninth.
pub fn parse_event(lines: &Vec<String>) -> (r: Result<Events, AssError>)
    ensures
        events_result(r) == spec_parse_events(views(lines@)),
{
    let ghost ls = views(lines@);
    let mut dialogues: Vec<Dialogue> = Vec::new();
    let mut i: usize = 0;
    proof {
        reveal_strlit(",");
    }
    while i < lines.len()
        invariant
            ls == views(lines@),
            i <= lines.len(),
            ","@ == seq![','],
            dialogues_view(dialogues@) == dialogue_rows(ls.take(i as int)).map_values(
                |row: Seq<char>| row_fields(row),
            ),
            forall|j: int|
                0 <= j < dialogue_rows(ls.take(i as int)).len() ==> row_ok(
                    #[trigger] dialogue_rows(ls.take(i as int))[j],
                ),
        decreases lines.len() - i,
    {
        let line = lines[i].as_str();
        let ghost before = dialogue_rows(ls.take(i as int));
        proof {
            assert(ls.take(i + 1).drop_last() == ls.take(i as int));
            assert(ls.take(i + 1).last() == line@);
        }
        if starts_with_str(line, "Dialogue: ") {
            let row = skip_str(line, "Dialogue: ".unicode_len());
            let values = split_str(row.as_str(), ',');
            if values.len() < 10 {
                proof {
                    lemma_rows_prefix(ls, i + 1);
                    let rows = dialogue_rows(ls);
                    assert(dialogue_rows(ls.take(i + 1)).last() == row@);
                    assert(!row_ok(rows[before.len() as int]));
                }
                return Err(AssError::MalformedRow);
            }
            let text = join_strings(&values, 9, ",");
            let fields: [Option<String>; 10] = [
            Some(values[0].clone()),
            Some(values[1].clone()),
            Some(values[2].clone()),
            Some(values[3].clone()),
            Some(values[4].clone()),
            Some(values[5].clone()),
            Some(values[6].clone()),
            Some(values[7].clone()),
            Some(values[8].clone()),
                Some(text),
            ];
            let d = Dialogue::from_fields(fields);
            proof {
                assert(d@ =~= row_fields(row@));
                assert(dialogues_view(dialogues@.push(d)) =~= dialogues_view(dialogues@).push(d@));
                assert(dialogue_rows(ls.take(i + 1)) == before.push(row@));
                assert(before.push(row@).map_values(|row: Seq<char>| row_fields(row))
                    =~= before.map_values(|row: Seq<char>| row_fields(row)).push(row_fields(row@)));
            }
            dialogues.push(d);
        }
        i = i + 1;
    }
    proof {
        assert(ls.take(lines.len() as int) == ls);
    }
    Ok(Events::from_dialogues(dialogues))
}

// ---- whole documents ----

pub open spec fn spec_parse_document(text: Seq<char>, strict: bool) -> Result<DocView, AssError> {
    let ls = ass_lines(text);
    match spec_parse_script(section_lines(ls, script_header()), strict) {
        Err(e) => Err(e),
        Ok(script) => match spec_parse_v4(section_lines(ls, v4_header())) {
            Err(e) => Err(e),
            Ok(v4) => match spec_parse_events(section_lines(ls, events_header())) {
                Err(e) => Err(e),
                Ok(events) => Ok(DocView { script, v4, events }),
            },
        },
    }
}

pub open spec fn doc_result(r: Result<AssFile, AssError>) -> Result<DocView, AssError> {
    match r {
        Ok(f) => Ok(f@),
        Err(e) => Err(e),
    }
}

/// The value of each field, an unset one read as empty.
pub open spec fn values_of(fs: Seq<Option<Seq<char>>>) -> Seq<Seq<char>> {
    fs.map_values(
        |o: Option<Seq<char>>|
            match o {
                Some(v) => v,
                None => Seq::empty(),
            },
    )
}

/// The `Key: value` lines of the first `n` Script Info fields that are set.
pub open spec fn script_lines_upto(fs: Seq<Option<Seq<char>>>, n: int) -> Seq<Seq<char>>
    decreases n,
{
    if n <= 0 {
        Seq::empty()
    } else {
        let p = script_lines_upto(fs, n - 1);
        match fs[n - 1] {
            Some(v) => p.push(script_key(n - 1) + v),
            None => p,
        }
    }
}

pub open spec fn style_row(fs: Seq<Option<Seq<char>>>) -> Seq<char> {
    style_head() + join_on(values_of(fs), ',')
}

pub open spec fn dialogue_row(fs: Seq<Option<Seq<char>>>) -> Seq<char> {
    dialogue_head() + join_on(values_of(fs), ',')
}

/// The lines of a rendered document: three blocks, each opened by its
/// header, with one blank line between neighbours.
pub open spec fn document_lines(d: DocView) -> Seq<Seq<char>> {
    seq![script_header()] + script_lines_upto(d.script, 5) + seq![
        Seq::empty(),
        v4_header(),
        v4_format_line(),
        style_row(d.v4),
        Seq::empty(),
        events_header(),
        events_format_line(),
    ] + d.events.map_values(|e: Seq<Option<Seq<char>>>| dialogue_row(e))
}

pub open spec fn document_text(d: DocView) -> Seq<char> {
    text_of_lines(document_lines(d))
}

/// Every style field and every field of every dialogue is set.
pub open spec fn complete(d: DocView) -> bool {
    &&& all_set(d.v4)
    &&& forall|j: int| 0 <= j < d.events.len() ==> all_set(#[trigger] d.events[j])
}

fn values_vec(fs: &[Option<String>]) -> (r: Vec<String>)
    requires
        all_set(opts_view(fs@)),
    ensures
        views(r@) == values_of(opts_view(fs@)),
{
    let ghost want = values_of(opts_view(fs@));
    let mut out: Vec<String> = Vec::new();
    let mut i: usize = 0;
    while i < fs.len()
        invariant
            i <= fs.len(),
            all_set(opts_view(fs@)),
            want == values_of(opts_view(fs@)),
            views(out@) == want.take(i as int),
        decreases fs.len() - i,
    {
        proof {
            assert(opts_view(fs@)[i as int] is Some);
        }
        let v = match &fs[i] {
            Some(v) => v.clone(),
            None => String::new(),
        };
        proof {
            assert(opt_view(fs@[i as int]) == opts_view(fs@)[i as int]);
            assert(v@ == want[i as int]);
            assert(views(out@.push(v)) =~= views(out@).push(v@));
            assert(want.take(i + 1) =~= want.take(i as int).push(want[i as int]));
        }
        out.push(v);
        i = i + 1;
    }
    proof {
        assert(want.take(fs.len() as int) =~= want);
    }
    out
}

fn row_string(head: &str, fs: &[Option<String>]) -> (r: String)
    requires
        all_set(opts_view(fs@)),
    ensures
        r@ == head@ + join_on(values_of(opts_view(fs@)), ','),
{
    proof {
        reveal_strlit(",");
    }
    let values = values_vec(fs);
    let joined = join_strings(&values, 0, ",");
    proof {
        assert(views(values@).skip(0) == views(values@));
    }
    String::from_str(head).concat(joined.as_str())
}

fn text_from_lines(lines: &Vec<String>) -> (r: String)
    ensures
        r@ == text_of_lines(views(lines@)),
{
    proof {
        reveal_strlit("\n");
    }
    let mut out = String::new();
    let mut i: usize = 0;
    while i < lines.len()
        invariant
            i <= lines.len(),
            "\n"@ == seq!['\n'],
            out@ == text_of_lines(views(lines@).take(i as int)),
        decreases lines.len() - i,
    {
        proof {
            assert(views(lines@).take(i + 1).drop_last() == views(lines@).take(i as int));
        }
        out.append(lines[i].as_str());
        out.append("\n");
        i = i + 1;
    }
    proof {
        assert(views(lines@).take(lines.len() as int) == views(lines@));
    }
    out
}

fn push_line(lines: &mut Vec<String>, l: String)
    ensures
        views(final(lines)@) == views(old(lines)@).push(l@),
{
    proof {
        assert(views(lines@.push(l)) =~= views(lines@).push(l@));
    }
    lines.push(l);
}

impl AssFile {
    /// Reads a document from its text. A line ends at `\n`, at `\r\n`, or at
    /// a lone `\r`; each section is found by its header. The
    /// Script Info section must hold all five keys when `strict`; a missing
    /// style row or key is `MissingField`; a short style or dialogue row is
    /// `MalformedRow`. The first failing section, in document order, decides.
    pub fn from_contents(contents: &str, strict: bool) -> (r: Result<AssFile, AssError>)
        ensures
            doc_result(r) == spec_parse_document(contents@, strict),
    {
        let lines = ass_lines_of(contents);
        proof {
            lemma_ass_lines_bare(contents@);
        }
        let script_lines = get_info(&lines, "[Script Info]");
        let v4_lines = get_info(&lines, "[V4+ Styles]");
        let events_lines = get_info(&lines, "[Events]");
        let script = match parse_script(&script_lines, strict) {
            Ok(s) => s,
            Err(e) => {
                return Err(e);
            },
        };
        let v4 = match parse_v4(&v4_lines) {
            Ok(v) => v,
            Err(e) => {
                return Err(e);
            },
        };
        let events = match parse_event(&events_lines) {
            Ok(ev) => ev,
            Err(e) => {
                return Err(e);
            },
        };
        Ok(AssFile { components: Components { script, v4, events } })
    }

    /// Whether every style field and every dialogue field is set, which
    /// rendering needs.
    pub fn is_complete(&self) -> (r: bool)
        ensures
            r == complete(self@),
    {
        let v4 = self.components.v4.fields();
        let mut k: usize = 0;
        while k < 23
            invariant
                k <= 23,
                opts_view(v4@) == self@.v4,
                forall|j: int| 0 <= j < k ==> (#[trigger] self@.v4[j]) is Some,
            decreases 23 - k,
        {
            if v4[k].is_none() {
                proof {
                    assert(!(self@.v4[k as int] is Some));
                }
                return false;
            }
            k = k + 1;
        }
        let ds = self.components.events.dialogues();
        let mut i: usize = 0;
        while i < ds.len()
            invariant
                i <= ds.len(),
                all_set(self@.v4),
                dialogues_view(ds@) == self@.events,
                forall|j: int| 0 <= j < i ==> all_set(#[trigger] self@.events[j]),
            decreases ds.len() - i,
        {
            let fs = ds[i].fields();
            let mut k: usize = 0;
            while k < 10
                invariant
                    k <= 10,
                    i < ds.len(),
                    dialogues_view(ds@) == self@.events,
                    opts_view(fs@) == self@.events[i as int],
                    forall|j: int| 0 <= j < k ==> (#[trigger] self@.events[i as int][j]) is Some,
                decreases 10 - k,
            {
                if fs[k].is_none() {
                    proof {
                        assert(!(self@.events[i as int][k as int] is Some));
                    }
                    return false;
                }
                k = k + 1;
            }
            proof {
                assert(all_set(self@.events[i as int]));
            }
            i = i + 1;
        }
        true
    }

    /// Renders the document: the Script Info header and its set fields in
    /// key order, a blank line, the styles header, its `Format:` line and the
    /// style row, a blank line, the events header, its `Format:` line and one
    /// `Dialogue: ` line per dialogue; every line ends with `\n`.
    pub fn serialize(&self) -> (r: String)
        requires
            complete(self@),
        ensures
            r@ == document_text(self@),
    {
        let ghost d = self@;
        let mut lines: Vec<String> = Vec::new();
        push_line(&mut lines, String::from_str("[Script Info]"));
        let mut k: usize = 0;
        while k < 5
            invariant
                k <= 5,
                d == self@,
                views(lines@) == seq![script_header()] + script_lines_upto(d.script, k as int),
            decreases 5 - k,
        {
            let f = self.components.script.field(k);
            match f {
                Some(v) => {
                    let l = String::from_str(script_key_str(k)).concat(v.as_str());
                    push_line(&mut lines, l);
                },
                None => {},
            }
            k = k + 1;
        }
        push_line(&mut lines, String::new());
        push_line(&mut lines, String::from_str("[V4+ Styles]"));
        push_line(&mut lines, String::from_str("Format: Name, Fontname, Fontsize, PrimaryColour, SecondaryColour, OutlineColour, BackColour, Bold, Italic, Underline, StrikeOut, ScaleX, ScaleY, Spacing, Angle, BorderStyle, Outline, Shadow, Alignment, MarginL, MarginR, MarginV, Encoding"));
        push_line(&mut lines, row_string("Style: ", self.components.v4.fields().as_slice()));
        push_line(&mut lines, String::new());
        push_line(&mut lines, String::from_str("[Events]"));
        push_line(&mut lines, String::from_str("Format: Layer, Start, End, Style, Name, MarginL, MarginR, MarginV, Effect, Text"));
        let ghost head = views(lines@);
        proof {
            assert(head =~= seq![script_header()] + script_lines_upto(d.script, 5) + seq![
                Seq::empty(),
                v4_header(),
                v4_format_line(),
                style_row(d.v4),
                Seq::empty(),
                events_header(),
                events_format_line(),
            ]);
        }
        let ds = self.components.events.dialogues();
        let mut i: usize = 0;
        while i < ds.len()
            invariant
                i <= ds.len(),
                d == self@,
                complete(d),
                dialogues_view(ds@) == d.events,
                views(lines@) == head + d.events.take(i as int).map_values(
                    |e: Seq<Option<Seq<char>>>| dialogue_row(e),
                ),
            decreases ds.len() - i,
        {
            let fs = ds[i].fields();
            proof {
                assert(all_set(d.events[i as int]));
            }
            let row = row_string("Dialogue: ", fs.as_slice());
            push_line(&mut lines, row);
            proof {
                assert(d.events.take(i + 1).map_values(|e: Seq<Option<Seq<char>>>| dialogue_row(e))
                    =~= d.events.take(i as int).map_values(
                    |e: Seq<Option<Seq<char>>>| dialogue_row(e),
                ).push(dialogue_row(d.events[i as int])));
            }
            i = i + 1;
        }
        proof {
            assert(d.events.take(ds.len() as int) == d.events);
            assert(views(lines@) =~= document_lines(d));
        }
        text_from_lines(&lines)
    }
}

} // verus!
