//! The in-memory model of an ASS subtitle document: the Script Info
//! section, the single "Default" style row, and the ordered dialogue events.
use vstd::prelude::*;
use vstd::string::StringExecFns;

verus! {

/// An optional string field seen as an optional character sequence.
pub open spec fn opt_view(o: Option<String>) -> Option<Seq<char>> {
    match o {
        Some(s) => Some(s@),
        None => None,
    }
}

/// The views of a row of optional string fields.
pub open spec fn opts_view(a: Seq<Option<String>>) -> Seq<Option<Seq<char>>> {
    a.map_values(|o: Option<String>| opt_view(o))
}

/// Every field of the row is set.
pub open spec fn all_set(fs: Seq<Option<Seq<char>>>) -> bool {
    forall|i: int| 0 <= i < fs.len() ==> (#[trigger] fs[i]) is Some
}

/// Why a document, a section or a builder step was refused.
#[derive(Debug, Clone, Copy, PartialEq, Eq, Structural)]
pub enum AssError {
    /// A section lacks a key or row that it must hold.
    MissingField,
    /// A comma-separated row has fewer values than its fixed arity.
    MalformedRow,
    /// A dialogue was put first into an event list that is not empty.
    OrderingViolation,
}

/// The Script Info section: script type, play resolution x and y, the
/// scaled-border-and-shadow flag and the YCbCr matrix, each optional.
#[derive(Debug, Clone)]
pub struct ScriptInfo {
    fields: [Option<String>; 5],
}

impl View for ScriptInfo {
    type V = Seq<Option<Seq<char>>>;

    closed spec fn view(&self) -> Seq<Option<Seq<char>>> {
        opts_view(self.fields@)
    }
}

impl ScriptInfo {
    /// A Script Info section with no field set.
    pub fn new() -> (r: ScriptInfo)
        ensures
            r@ == seq![None::<Seq<char>>, None, None, None, None],
    {
        let r = ScriptInfo { fields: [None, None, None, None, None] };
        proof {
            assert(r@ =~= seq![None::<Seq<char>>, None, None, None, None]);
        }
        r
    }

    pub(crate) fn from_fields(fields: [Option<String>; 5]) -> (r: ScriptInfo)
        ensures
            r@ == opts_view(fields@),
    {
        ScriptInfo { fields }
    }

    pub(crate) fn field(&self, k: usize) -> (r: &Option<String>)
        requires
            k < 5,
        ensures
            opt_view(*r) == self@[k as int],
    {
        &self.fields[k]
    }

    /// Replaces the whole section.
    pub fn set_script(&mut self, script: ScriptInfo) -> (r: &mut ScriptInfo)
        ensures
            r@ == script@,
            *final(self) == *final(r),
    {
        *self = script;
        self
    }

    /// Sets the scripttype field.
    pub fn set_scripttype(&mut self, value: String) -> (r: &mut Self)
        ensures
            r@ == old(self)@.update(0, Some(value@)),
            *final(self) == *final(r),
    {
        self.fields[0] = Some(value);
        self
    }

    /// Sets the playresx field.
    pub fn set_playresx(&mut self, value: String) -> (r: &mut Self)
        ensures
            r@ == old(self)@.update(1, Some(value@)),
            *final(self) == *final(r),
    {
        self.fields[1] = Some(value);
        self
    }

    /// Sets the playresy field.
    pub fn set_playresy(&mut self, value: String) -> (r: &mut Self)
        ensures
            r@ == old(self)@.update(2, Some(value@)),
            *final(self) == *final(r),
    {
        self.fields[2] = Some(value);
        self
    }

    /// Sets the scaledborderandshadow field.
    pub fn set_scaledborderandshadow(&mut self, value: String) -> (r: &mut Self)
        ensures
            r@ == old(self)@.update(3, Some(value@)),
            *final(self) == *final(r),
    {
        self.fields[3] = Some(value);
        self
    }

    /// Sets the ycbcr_matrix field.
    pub fn set_ycbcr_matrix(&mut self, value: String) -> (r: &mut Self)
        ensures
            r@ == old(self)@.update(4, Some(value@)),
            *final(self) == *final(r),
    {
        self.fields[4] = Some(value);
        self
    }

}

impl Default for ScriptInfo {
    /// The common Script Info: `v4.00+`, 384 by 288, scaled borders, no matrix.
    fn default() -> (r: ScriptInfo)
        ensures
            r@ == default_script_info(),
    {
        let r = ScriptInfo {
            fields: [
                Some(String::from_str("v4.00+")),
                Some(String::from_str("384")),
                Some(String::from_str("288")),
                Some(String::from_str("yes")),
                Some(String::from_str("None")),
            ],
        };
        proof {
            assert(r@ =~= default_script_info());
        }
        r
    }
}

pub open spec fn default_script_info() -> Seq<Option<Seq<char>>> {
    seq![
            Some("v4.00+"@),
            Some("384"@),
            Some("288"@),
            Some("yes"@),
            Some("None"@),
        ]
}

/// The "Default" style row: twenty-three optional fields in the order of the
/// section's `Format:` line.
#[derive(Debug, Clone)]
pub struct V4Format {
    fields: [Option<String>; 23],
}

impl View for V4Format {
    type V = Seq<Option<Seq<char>>>;

    closed spec fn view(&self) -> Seq<Option<Seq<char>>> {
        opts_view(self.fields@)
    }
}

impl V4Format {
    /// A style row with no field set.
    pub fn new() -> (r: V4Format)
        ensures
            r@ == Seq::new(23, |i: int| None::<Seq<char>>),
    {
        let r = V4Format {
            fields: [
                None, None, None, None, None, None, None, None, None, None, None, None,
                None, None, None, None, None, None, None, None, None, None, None,
            ],
        };
        proof {
            assert(r@ =~= Seq::new(23, |i: int| None::<Seq<char>>));
        }
        r
    }

    pub(crate) fn from_fields(fields: [Option<String>; 23]) -> (r: V4Format)
        ensures
            r@ == opts_view(fields@),
    {
        V4Format { fields }
    }

    pub(crate) fn fields(&self) -> (r: &[Option<String>; 23])
        ensures
            opts_view(r@) == self@,
    {
        &self.fields
    }

    /// Replaces the whole style row.
    pub fn set_v4(&mut self, v4: V4Format) -> (r: &mut V4Format)
        ensures
            r@ == v4@,
            *final(self) == *final(r),
    {
        *self = v4;
        self
    }

    /// Sets the name field of the style row.
    pub fn set_name(&mut self, value: String) -> (r: &mut Self)
        ensures
            r@ == old(self)@.update(0, Some(value@)),
            *final(self) == *final(r),
    {
        self.fields[0] = Some(value);
        self
    }

    /// Sets the fontname field of the style row.
    pub fn set_fontname(&mut self, value: String) -> (r: &mut Self)
        ensures
            r@ == old(self)@.update(1, Some(value@)),
            *final(self) == *final(r),
    {
        self.fields[1] = Some(value);
        self
    }

    /// Sets the fontsize field of the style row.
    pub fn set_fontsize(&mut self, value: String) -> (r: &mut Self)
        ensures
            r@ == old(self)@.update(2, Some(value@)),
            *final(self) == *final(r),
    {
        self.fields[2] = Some(value);
        self
    }

    /// Sets the primarycolour field of the style row.
    pub fn set_primarycolour(&mut self, value: String) -> (r: &mut Self)
        ensures
            r@ == old(self)@.update(3, Some(value@)),
            *final(self) == *final(r),
    {
        self.fields[3] = Some(value);
        self
    }

    /// Sets the secondarycolour field of the style row.
    pub fn set_secondarycolour(&mut self, value: String) -> (r: &mut Self)
        ensures
            r@ == old(self)@.update(4, Some(value@)),
            *final(self) == *final(r),
    {
        self.fields[4] = Some(value);
        self
    }

    /// Sets the outlinecolour field of the style row.
    pub fn set_outlinecolour(&mut self, value: String) -> (r: &mut Self)
        ensures
            r@ == old(self)@.update(5, Some(value@)),
            *final(self) == *final(r),
    {
        self.fields[5] = Some(value);
        self
    }

    /// Sets the backcolour field of the style row.
    pub fn set_backcolour(&mut self, value: String) -> (r: &mut Self)
        ensures
            r@ == old(self)@.update(6, Some(value@)),
            *final(self) == *final(r),
    {
        self.fields[6] = Some(value);
        self
    }

    /// Sets the bold field of the style row.
    pub fn set_bold(&mut self, value: String) -> (r: &mut Self)
        ensures
            r@ == old(self)@.update(7, Some(value@)),
            *final(self) == *final(r),
    {
        self.fields[7] = Some(value);
        self
    }

    /// Sets the italic field of the style row.
    pub fn set_italic(&mut self, value: String) -> (r: &mut Self)
        ensures
            r@ == old(self)@.update(8, Some(value@)),
            *final(self) == *final(r),
    {
        self.fields[8] = Some(value);
        self
    }

    /// Sets the underline field of the style row.
    pub fn set_underline(&mut self, value: String) -> (r: &mut Self)
        ensures
            r@ == old(self)@.update(9, Some(value@)),
            *final(self) == *final(r),
    {
        self.fields[9] = Some(value);
        self
    }

    /// Sets the strikeout field of the style row.
    pub fn set_strikeout(&mut self, value: String) -> (r: &mut Self)
        ensures
            r@ == old(self)@.update(10, Some(value@)),
            *final(self) == *final(r),
    {
        self.fields[10] = Some(value);
        self
    }

    /// Sets the scalex field of the style row.
    pub fn set_scalex(&mut self, value: String) -> (r: &mut Self)
        ensures
            r@ == old(self)@.update(11, Some(value@)),
            *final(self) == *final(r),
    {
        self.fields[11] = Some(value);
        self
    }

    /// Sets the scaley field of the style row.
    pub fn set_scaley(&mut self, value: String) -> (r: &mut Self)
        ensures
            r@ == old(self)@.update(12, Some(value@)),
            *final(self) == *final(r),
    {
        self.fields[12] = Some(value);
        self
    }

    /// Sets the spacing field of the style row.
    pub fn set_spacing(&mut self, value: String) -> (r: &mut Self)
        ensures
            r@ == old(self)@.update(13, Some(value@)),
            *final(self) == *final(r),
    {
        self.fields[13] = Some(value);
        self
    }

    /// Sets the angle field of the style row.
    pub fn set_angle(&mut self, value: String) -> (r: &mut Self)
        ensures
            r@ == old(self)@.update(14, Some(value@)),
            *final(self) == *final(r),
    {
        self.fields[14] = Some(value);
        self
    }

    /// Sets the borderstyle field of the style row.
    pub fn set_borderstyle(&mut self, value: String) -> (r: &mut Self)
        ensures
            r@ == old(self)@.update(15, Some(value@)),
            *final(self) == *final(r),
    {
        self.fields[15] = Some(value);
        self
    }

    /// Sets the outline field of the style row.
    pub fn set_outline(&mut self, value: String) -> (r: &mut Self)
        ensures
            r@ == old(self)@.update(16, Some(value@)),
            *final(self) == *final(r),
    {
        self.fields[16] = Some(value);
        self
    }

    /// Sets the shadow field of the style row.
    pub fn set_shadow(&mut self, value: String) -> (r: &mut Self)
        ensures
            r@ == old(self)@.update(17, Some(value@)),
            *final(self) == *final(r),
    {
        self.fields[17] = Some(value);
        self
    }

    /// Sets the alignment field of the style row.
    pub fn set_alignment(&mut self, value: String) -> (r: &mut Self)
        ensures
            r@ == old(self)@.update(18, Some(value@)),
            *final(self) == *final(r),
    {
        self.fields[18] = Some(value);
        self
    }

    /// Sets the marginl field of the style row.
    pub fn set_marginl(&mut self, value: String) -> (r: &mut Self)
        ensures
            r@ == old(self)@.update(19, Some(value@)),
            *final(self) == *final(r),
    {
        self.fields[19] = Some(value);
        self
    }

    /// Sets the marginr field of the style row.
    pub fn set_marginr(&mut self, value: String) -> (r: &mut Self)
        ensures
            r@ == old(self)@.update(20, Some(value@)),
            *final(self) == *final(r),
    {
        self.fields[20] = Some(value);
        self
    }

    /// Sets the marginv field of the style row.
    pub fn set_marginv(&mut self, value: String) -> (r: &mut Self)
        ensures
            r@ == old(self)@.update(21, Some(value@)),
            *final(self) == *final(r),
    {
        self.fields[21] = Some(value);
        self
    }

    /// Sets the encoding field of the style row.
    pub fn set_encoding(&mut self, value: String) -> (r: &mut Self)
        ensures
            r@ == old(self)@.update(22, Some(value@)),
            *final(self) == *final(r),
    {
        self.fields[22] = Some(value);
        self
    }

}

impl Default for V4Format {
    /// The common "Default" style: Arial 16, white text, outline 1, bottom centre.
    fn default() -> (r: V4Format)
        ensures
            r@ == default_v4(),
    {
        let r = V4Format {
            fields: [
                Some(String::from_str("Default")),
                Some(String::from_str("Arial")),
                Some(String::from_str("16")),
                Some(String::from_str("&Hffffff")),
                Some(String::from_str("&Hffffff")),
                Some(String::from_str("&H0")),
                Some(String::from_str("&H0")),
                Some(String::from_str("0")),
                Some(String::from_str("0")),
                Some(String::from_str("0")),
                Some(String::from_str("0")),
                Some(String::from_str("100")),
                Some(String::from_str("100")),
                Some(String::from_str("0")),
                Some(String::from_str("0")),
                Some(String::from_str("1")),
                Some(String::from_str("1")),
                Some(String::from_str("0")),
                Some(String::from_str("2")),
                Some(String::from_str("10")),
                Some(String::from_str("10")),
                Some(String::from_str("10")),
                Some(String::from_str("1")),
            ],
        };
        proof {
            assert(r@ =~= default_v4());
        }
        r
    }
}

pub open spec fn default_v4() -> Seq<Option<Seq<char>>> {
    seq![
            Some("Default"@),
            Some("Arial"@),
            Some("16"@),
            Some("&Hffffff"@),
            Some("&Hffffff"@),
            Some("&H0"@),
            Some("&H0"@),
            Some("0"@),
            Some("0"@),
            Some("0"@),
            Some("0"@),
            Some("100"@),
            Some("100"@),
            Some("0"@),
            Some("0"@),
            Some("1"@),
            Some("1"@),
            Some("0"@),
            Some("2"@),
            Some("10"@),
            Some("10"@),
            Some("10"@),
            Some("1"@),
        ]
}

/// One dialogue event: layer, start, end, style, name, the three margins,
/// effect and text, each optional.
#[derive(Debug, Clone)]
pub struct Dialogue {
    fields: [Option<String>; 10],
}

impl View for Dialogue {
    type V = Seq<Option<Seq<char>>>;

    closed spec fn view(&self) -> Seq<Option<Seq<char>>> {
        opts_view(self.fields@)
    }
}

impl Dialogue {
    /// A dialogue with no field set.
    pub fn new() -> (r: Dialogue)
        ensures
            r@ == Seq::new(10, |i: int| None::<Seq<char>>),
    {
        let r = Dialogue { fields: [None, None, None, None, None, None, None, None, None, None] };
        proof {
            assert(r@ =~= Seq::new(10, |i: int| None::<Seq<char>>));
        }
        r
    }

    pub(crate) fn from_fields(fields: [Option<String>; 10]) -> (r: Dialogue)
        ensures
            r@ == opts_view(fields@),
    {
        Dialogue { fields }
    }

    pub(crate) fn fields(&self) -> (r: &[Option<String>; 10])
        ensures
            opts_view(r@) == self@,
    {
        &self.fields
    }

    /// The same dialogue with its layer set.
    pub fn set_layer(self, value: String) -> (r: Self)
        ensures
            r@ == self@.update(0, Some(value@)),
    {
        let mut d = self;
        d.fields[0] = Some(value);
        d
    }

    /// The same dialogue with its start set.
    pub fn set_start(self, value: String) -> (r: Self)
        ensures
            r@ == self@.update(1, Some(value@)),
    {
        let mut d = self;
        d.fields[1] = Some(value);
        d
    }

    /// The same dialogue with its end set.
    pub fn set_end(self, value: String) -> (r: Self)
        ensures
            r@ == self@.update(2, Some(value@)),
    {
        let mut d = self;
        d.fields[2] = Some(value);
        d
    }

    /// The same dialogue with its style set.
    pub fn set_style(self, value: String) -> (r: Self)
        ensures
            r@ == self@.update(3, Some(value@)),
    {
        let mut d = self;
        d.fields[3] = Some(value);
        d
    }

    /// The same dialogue with its name set.
    pub fn set_name(self, value: String) -> (r: Self)
        ensures
            r@ == self@.update(4, Some(value@)),
    {
        let mut d = self;
        d.fields[4] = Some(value);
        d
    }

    /// The same dialogue with its marginl set.
    pub fn set_marginl(self, value: String) -> (r: Self)
        ensures
            r@ == self@.update(5, Some(value@)),
    {
        let mut d = self;
        d.fields[5] = Some(value);
        d
    }

    /// The same dialogue with its marginr set.
    pub fn set_marginr(self, value: String) -> (r: Self)
        ensures
            r@ == self@.update(6, Some(value@)),
    {
        let mut d = self;
        d.fields[6] = Some(value);
        d
    }

    /// The same dialogue with its marginv set.
    pub fn set_marginv(self, value: String) -> (r: Self)
        ensures
            r@ == self@.update(7, Some(value@)),
    {
        let mut d = self;
        d.fields[7] = Some(value);
        d
    }

    /// The same dialogue with its effect set.
    pub fn set_effect(self, value: String) -> (r: Self)
        ensures
            r@ == self@.update(8, Some(value@)),
    {
        let mut d = self;
        d.fields[8] = Some(value);
        d
    }

    /// The same dialogue with its text set.
    pub fn set_text(self, value: String) -> (r: Self)
        ensures
            r@ == self@.update(9, Some(value@)),
    {
        let mut d = self;
        d.fields[9] = Some(value);
        d
    }

}

impl Default for Dialogue {
    /// A one-second "Hello Friend" line at the start, in the "Default" style.
    fn default() -> (r: Dialogue)
        ensures
            r@ == default_dialogue(),
    {
        let r = Dialogue {
            fields: [
                Some(String::from_str("0")),
                Some(String::from_str("0:00:00.00")),
                Some(String::from_str("0:00:01.00")),
                Some(String::from_str("Default")),
                Some(String::from_str("")),
                Some(String::from_str("0")),
                Some(String::from_str("0")),
                Some(String::from_str("0")),
                Some(String::from_str("")),
                Some(String::from_str("Hello Friend")),
            ],
        };
        proof {
            assert(r@ =~= default_dialogue());
        }
        r
    }
}

pub open spec fn default_dialogue() -> Seq<Option<Seq<char>>> {
    seq![
            Some("0"@),
            Some("0:00:00.00"@),
            Some("0:00:01.00"@),
            Some("Default"@),
            Some(""@),
            Some("0"@),
            Some("0"@),
            Some("0"@),
            Some(""@),
            Some("Hello Friend"@),
        ]
}

/// The views of a list of dialogues.
pub open spec fn dialogues_view(ds: Seq<Dialogue>) -> Seq<Seq<Option<Seq<char>>>> {
    ds.map_values(|d: Dialogue| d@)
}

/// The Events section: dialogues in display order.
#[derive(Debug, Clone)]
pub struct Events {
    dialogues: Vec<Dialogue>,
}

impl View for Events {
    type V = Seq<Seq<Option<Seq<char>>>>;

    closed spec fn view(&self) -> Seq<Seq<Option<Seq<char>>>> {
        dialogues_view(self.dialogues@)
    }
}

impl Events {
    /// An event list with no dialogue.
    pub fn new() -> (r: Events)
        ensures
            r@ == Seq::<Seq<Option<Seq<char>>>>::empty(),
    {
        let r = Events { dialogues: Vec::new() };
        proof {
            assert(r@ =~= Seq::<Seq<Option<Seq<char>>>>::empty());
        }
        r
    }

    pub(crate) fn from_dialogues(dialogues: Vec<Dialogue>) -> (r: Events)
        ensures
            r@ == dialogues_view(dialogues@),
    {
        Events { dialogues }
    }

    pub(crate) fn dialogues(&self) -> (r: &Vec<Dialogue>)
        ensures
            dialogues_view(r@) == self@,
    {
        &self.dialogues
    }

    /// Replaces the whole event list.
    pub fn set_events(&mut self, events: Events) -> (r: &mut Events)
        ensures
            r@ == events@,
            *final(self) == *final(r),
    {
        *self = events;
        self
    }

    /// Appends a dialogue after the ones already there.
    pub fn add_dialogue(&mut self, dialogue: Dialogue) -> (r: &mut Events)
        ensures
            r@ == old(self)@.push(dialogue@),
            *final(self) == *final(r),
    {
        proof {
            assert(dialogues_view(self.dialogues@.push(dialogue)) =~= dialogues_view(
                self.dialogues@,
            ).push(dialogue@));
        }
        self.dialogues.push(dialogue);
        self
    }

    /// Puts the very first dialogue into an empty event list; an event list
    /// that already holds a dialogue is left as it was.
    pub fn add_first_dialogue(&mut self, dialogue: Dialogue) -> (r: Result<(), AssError>)
        ensures
            old(self)@.len() == 0 ==> r is Ok && final(self)@ == seq![dialogue@],
            old(self)@.len() > 0 ==> r == Err::<(), AssError>(AssError::OrderingViolation)
                && final(self)@ == old(self)@,
    {
        if self.dialogues.len() > 0 {
            return Err(AssError::OrderingViolation);
        }
        self.dialogues.push(dialogue);
        proof {
            assert(dialogues_view(self.dialogues@) =~= seq![dialogue@]);
        }
        Ok(())
    }

    /// The number of dialogues.
    pub fn len(&self) -> (r: usize)
        ensures
            r == self@.len(),
    {
        self.dialogues.len()
    }
}

impl Default for Events {
    /// An event list holding one default dialogue.
    fn default() -> (r: Events)
        ensures
            r@ == seq![default_dialogue()],
    {
        let mut dialogues: Vec<Dialogue> = Vec::new();
        dialogues.push(Dialogue::default());
        let r = Events { dialogues };
        proof {
            assert(r@ =~= seq![default_dialogue()]);
        }
        r
    }
}

/// The three sections of a document.
#[derive(Debug, Clone)]
pub struct Components {
    /// The Script Info section.
    pub script: ScriptInfo,
    /// The style row.
    pub v4: V4Format,
    /// The dialogue events.
    pub events: Events,
}

/// A whole ASS document.
#[derive(Debug, Clone)]
pub struct AssFile {
    /// Its three sections.
    pub components: Components,
}

/// What a document holds: its Script Info fields, its style row, and its
/// dialogues.
pub struct DocView {
    pub script: Seq<Option<Seq<char>>>,
    pub v4: Seq<Option<Seq<char>>>,
    pub events: Seq<Seq<Option<Seq<char>>>>,
}

impl View for AssFile {
    type V = DocView;

    open spec fn view(&self) -> DocView {
        DocView {
            script: self.components.script@,
            v4: self.components.v4@,
            events: self.components.events@,
        }
    }
}

/// The shape of a document's model: five Script Info fields, twenty-three
/// style fields, ten fields per dialogue.
pub open spec fn well_shaped(d: DocView) -> bool {
    &&& d.script.len() == 5
    &&& d.v4.len() == 23
    &&& forall|j: int| 0 <= j < d.events.len() ==> (#[trigger] d.events[j]).len() == 10
}

impl AssFile {
    /// Every document has that shape.
    pub proof fn lemma_well_shaped(&self)
        ensures
            well_shaped(self@),
    {
        let ds = self.components.events.dialogues@;
        assert forall|j: int| 0 <= j < self@.events.len() implies (#[trigger] self@.events[j]).len()
            == 10 by {
            assert(self@.events[j] == ds[j]@);
        }
    }

    /// A document whose sections hold nothing: no Script Info field, no style
    /// field, no dialogue.
    pub fn new() -> (r: AssFile)
        ensures
            r@.script == seq![None::<Seq<char>>, None, None, None, None],
            r@.v4 == Seq::new(23, |i: int| None::<Seq<char>>),
            r@.events == Seq::<Seq<Option<Seq<char>>>>::empty(),
    {
        AssFile {
            components: Components {
                script: ScriptInfo::new(),
                v4: V4Format::new(),
                events: Events::new(),
            },
        }
    }
}

} // verus!
