//! The semantic screenplay model: tags, vocabularies, identifiers, and the
//! document built out of pages, lines, scenes, a location forest and
//! characters, together with the mathematical view of each type.

use vstd::prelude::*;
use vstd::string::StringExecFns;
use crate::pdf_document::TextPosition;

verus! {

/// Sub-role of a word (or of the whole line) inside a scene heading.
#[derive(Clone, Debug, Copy, PartialEq, Eq, Structural)]
pub enum SceneHeadingElement {
    /// The promoted tag of a whole scene-heading line.
    Line,
    Environment,
    Location,
    SubLocation,
    TimeOfDay,
    /// CONTINUOUS and the like.
    Continuity,
    /// EARLIER, LATER, a date, and the like.
    TimePeriod,
    /// The hyphen between slugline fragments.
    Separator,
    SceneNumber,
    SlugOther,
}

/// The closed set of semantic roles a word or a line can take.
#[derive(Default, Clone, Debug, Copy, PartialEq, Eq, Structural)]
#[allow(non_camel_case_types)]
pub enum SPType {
    SP_ACTION,
    SP_CHARACTER,
    SP_CHARACTER_EXTENSION,
    SP_DG_MORE_CONTINUED,
    SP_PARENTHETICAL,
    SP_DIALOGUE,
    SP_TRANSITION,
    /// A scene-heading role; the payload names the sub-role.
    SP_SCENE_HEADING(SceneHeadingElement),
    SP_SHOT_ANGLE,
    SP_PAGENUM,
    SP_SCENENUM,
    SP_PAGE_HEADER,
    SP_PAGE_REVISION_LABEL,
    SP_LINE_REVISION_MARKER,
    SP_MORE_CONTINUED,
    SP_FOOTER,
    SP_DUAL_CHARACTERS,
    SP_DUAL_DIALOGUES,
    SP_DD_L_CHARACTER,
    SP_DD_L_CHARACTER_EXTENSION,
    SP_DD_L_PARENTHETICAL,
    SP_DD_L_DIALOGUE,
    SP_DD_L_MORE_CONTINUED,
    SP_DD_R_CHARACTER,
    SP_DD_R_CHARACTER_EXTENSION,
    SP_DD_R_PARENTHETICAL,
    SP_DD_R_DIALOGUE,
    SP_DD_R_MORE_CONTINUED,
    TP_TITLE,
    TP_BYLINE,
    TP_AUTHOR,
    TP_DRAFT_DATE,
    TP_CONTACT,
    SP_OTHER,
    SP_BLANK,
    SP_OMITTED,
    NON_CONTENT_TOP,
    NON_CONTENT_BOTTOM,
    NON_CONTENT_LEFT,
    NON_CONTENT_RIGHT,
    #[default]
    NONE,
}

/// A recognised time-of-day word, carrying the vocabulary string it
/// matched (or, for `Extras`, the user extension table).
#[derive(PartialEq, Clone, Debug)]
pub enum TimeOfDay {
    Day(String),
    Night(String),
    Morning(String),
    Evening(String),
    Afternoon(String),
    Extras(Option<Vec<(String, String)>>),
}

/// Mathematical image of a [`TimeOfDay`].
#[verifier::ext_equal]
pub enum TimeOfDayV {
    Day(Seq<char>),
    Night(Seq<char>),
    Morning(Seq<char>),
    Evening(Seq<char>),
    Afternoon(Seq<char>),
    Extras(Option<Seq<(Seq<char>, Seq<char>)>>),
}

impl View for TimeOfDay {
    type V = TimeOfDayV;

    open spec fn view(&self) -> TimeOfDayV {
        match self {
            TimeOfDay::Day(s) => TimeOfDayV::Day(s@),
            TimeOfDay::Night(s) => TimeOfDayV::Night(s@),
            TimeOfDay::Morning(s) => TimeOfDayV::Morning(s@),
            TimeOfDay::Evening(s) => TimeOfDayV::Evening(s@),
            TimeOfDay::Afternoon(s) => TimeOfDayV::Afternoon(s@),
            TimeOfDay::Extras(e) => TimeOfDayV::Extras(match e {
                Some(v) => Some(v.deep_view()),
                None => None,
            }),
        }
    }
}

/// The time-of-day vocabulary: one recognised word for each of the five
/// standard slots, plus an optional table of extra words.
#[derive(PartialEq, Clone, Debug)]
pub struct TimeOfDayCollection {
    pub day: TimeOfDay,
    pub night: TimeOfDay,
    pub morning: TimeOfDay,
    pub evening: TimeOfDay,
    pub afternoon: TimeOfDay,
    pub extras: Option<Vec<(String, String)>>,
}

/// Mathematical image of a [`TimeOfDayCollection`].
#[verifier::ext_equal]
pub struct TimeOfDayCollectionV {
    pub day: TimeOfDayV,
    pub night: TimeOfDayV,
    pub morning: TimeOfDayV,
    pub evening: TimeOfDayV,
    pub afternoon: TimeOfDayV,
    pub extras: Option<Seq<(Seq<char>, Seq<char>)>>,
}

impl View for TimeOfDayCollection {
    type V = TimeOfDayCollectionV;

    open spec fn view(&self) -> TimeOfDayCollectionV {
        TimeOfDayCollectionV {
            day: self.day@,
            night: self.night@,
            morning: self.morning@,
            evening: self.evening@,
            afternoon: self.afternoon@,
            extras: match &self.extras {
                Some(v) => Some(v.deep_view()),
                None => None,
            },
        }
    }
}

/// The page formats a parsed page may be tagged with.
#[derive(PartialEq, Eq, Structural, Clone, Copy, Debug)]
pub enum PageFormat {
    US,
    A4,
    OTHER,
}

/// Identifier of a [`Character`]; the index it has in the document's
/// character list.
#[derive(Default, PartialEq, Eq, Structural, Clone, Copy, Debug)]
pub struct CharacterID(pub u64);

/// Identifier of a [`Page`].
#[derive(Default, PartialEq, Eq, Structural, Clone, Copy, Debug)]
pub struct PageID(pub u64);

/// Identifier of a [`Scene`]; the index it has in the document's scene list.
#[derive(Default, PartialEq, Eq, Structural, Clone, Copy, Debug)]
pub struct SceneID(pub u64);

/// Identifier of a [`LocationNode`]; the index it has in the document's
/// location arena.
#[derive(Default, PartialEq, Eq, Structural, Clone, Copy, Debug)]
pub struct LocationID(pub u64);

/// The nominal number printed on a page, as it appeared.
#[derive(Default, PartialEq, Clone, Debug)]
pub struct PageNumber(pub String);

/// The nominal number of a scene, as printed in the margin.
#[derive(Default, PartialEq, Clone, Debug)]
pub struct SceneNumber(pub String);

/// A speaking character, registered from a character-cue line.
#[derive(Default, PartialEq, Clone, Debug)]
pub struct Character {
    pub name: String,
    pub id: CharacterID,
}

/// Mathematical image of a [`Character`].
#[verifier::ext_equal]
pub struct CharacterV {
    pub name: Seq<char>,
    pub id: CharacterID,
}

impl View for Character {
    type V = CharacterV;

    open spec fn view(&self) -> CharacterV {
        CharacterV { name: self.name@, id: self.id }
    }
}

/// Whether a scene plays inside, outside, or both.
#[derive(Clone, Copy, Debug, PartialEq, Eq, Structural)]
pub enum Environment {
    Int,
    Ext,
    Combo,
}

/// The environment vocabulary: the strings that open an interior, an
/// exterior, and a combined scene heading.
#[derive(PartialEq, Clone, Debug)]
pub struct EnvironmentStrings {
    pub int_markers: Vec<String>,
    pub ext_markers: Vec<String>,
    pub combo_markers: Vec<String>,
}

/// Mathematical image of an [`EnvironmentStrings`].
#[verifier::ext_equal]
pub struct EnvironmentStringsV {
    pub int_markers: Seq<Seq<char>>,
    pub ext_markers: Seq<Seq<char>>,
    pub combo_markers: Seq<Seq<char>>,
}

impl View for EnvironmentStrings {
    type V = EnvironmentStringsV;

    open spec fn view(&self) -> EnvironmentStringsV {
        EnvironmentStringsV {
            int_markers: self.int_markers.deep_view(),
            ext_markers: self.ext_markers.deep_view(),
            combo_markers: self.combo_markers.deep_view(),
        }
    }
}

/// A point in the parsed document: a page index, a line index on that page,
/// and optionally an element index in that line.
#[derive(Default, PartialEq, Eq, Structural, Clone, Copy, Debug)]
pub struct ScreenplayCoordinate {
    pub page: usize,
    pub line: usize,
    pub element: Option<u64>,
}

/// One scene, keyed in the document by its [`SceneID`].
#[derive(PartialEq, Clone, Debug)]
pub struct Scene {
    pub start: ScreenplayCoordinate,
    pub environment: Environment,
    pub number: Option<SceneNumber>,
    pub revised: bool,
    /// The location path of the slugline, root first, leaf last.
    pub story_locations: Vec<LocationID>,
    pub story_time_of_day: Option<TimeOfDay>,
}

/// Mathematical image of a [`Scene`].
#[verifier::ext_equal]
pub struct SceneV {
    pub start: ScreenplayCoordinate,
    pub environment: Environment,
    pub number: Option<Seq<char>>,
    pub revised: bool,
    pub story_locations: Seq<LocationID>,
    pub story_time_of_day: Option<TimeOfDayV>,
}

impl View for Scene {
    type V = SceneV;

    open spec fn view(&self) -> SceneV {
        SceneV {
            start: self.start,
            environment: self.environment,
            number: match &self.number {
                Some(n) => Some(n.0@),
                None => None,
            },
            revised: self.revised,
            story_locations: self.story_locations@,
            story_time_of_day: match &self.story_time_of_day {
                Some(t) => Some(t@),
                None => None,
            },
        }
    }
}

/// One node of the location forest. The string holds the fragment at this
/// depth only, not the joined path.
#[derive(Default, PartialEq, Clone, Debug)]
pub struct LocationNode {
    pub string: String,
    pub sublocations: Vec<LocationID>,
    pub superlocation: Option<LocationID>,
}

/// Mathematical image of a [`LocationNode`].
#[verifier::ext_equal]
pub struct LocationNodeV {
    pub string: Seq<char>,
    pub sublocations: Seq<LocationID>,
    pub superlocation: Option<LocationID>,
}

impl View for LocationNode {
    type V = LocationNodeV;

    open spec fn view(&self) -> LocationNodeV {
        LocationNodeV {
            string: self.string@,
            sublocations: self.sublocations@,
            superlocation: self.superlocation,
        }
    }
}

/// One classified word of a parsed line.
#[derive(Default, PartialEq, Clone, Debug)]
pub struct TextElement {
    pub text: String,
    pub element_type: Option<SPType>,
    pub preceding_whitespace_chars: u64,
    pub element_position: Option<TextPosition>,
}

/// Mathematical image of a [`TextElement`].
#[verifier::ext_equal]
pub struct TextElementV {
    pub text: Seq<char>,
    pub element_type: Option<SPType>,
    pub preceding_whitespace_chars: int,
    pub element_position: Option<TextPosition>,
}

impl View for TextElement {
    type V = TextElementV;

    open spec fn view(&self) -> TextElementV {
        TextElementV {
            text: self.text@,
            element_type: self.element_type,
            preceding_whitespace_chars: self.preceding_whitespace_chars as int,
            element_position: self.element_position,
        }
    }
}

/// One parsed line.
#[derive(Default, PartialEq, Clone, Debug)]
pub struct Line {
    pub text_elements: Vec<TextElement>,
    pub scene_number: Option<String>,
    pub scene_id: Option<SceneID>,
    pub line_type: Option<SPType>,
    pub preceding_empty_lines: u64,
    pub revised: bool,
    pub blank: bool,
}

/// Mathematical image of a [`Line`].
#[verifier::ext_equal]
pub struct LineV {
    pub text_elements: Seq<TextElementV>,
    pub scene_number: Option<Seq<char>>,
    pub scene_id: Option<SceneID>,
    pub line_type: Option<SPType>,
    pub preceding_empty_lines: int,
    pub revised: bool,
    pub blank: bool,
}

impl View for Line {
    type V = LineV;

    open spec fn view(&self) -> LineV {
        LineV {
            text_elements: Seq::new(
                self.text_elements@.len(),
                |i: int| self.text_elements@[i]@,
            ),
            scene_number: match &self.scene_number {
                Some(s) => Some(s@),
                None => None,
            },
            scene_id: self.scene_id,
            line_type: self.line_type,
            preceding_empty_lines: self.preceding_empty_lines as int,
            revised: self.revised,
            blank: self.blank,
        }
    }
}

/// One parsed page.
#[derive(Default, PartialEq, Clone, Debug)]
pub struct Page {
    pub lines: Vec<Line>,
    pub page_number: Option<PageNumber>,
    pub page_id: Option<PageID>,
    pub revised: bool,
    pub revision_label: Option<String>,
    pub revision_date: Option<String>,
    pub page_format: Option<PageFormat>,
}

/// Mathematical image of a [`Page`].
#[verifier::ext_equal]
pub struct PageV {
    pub lines: Seq<LineV>,
    pub page_number: Option<Seq<char>>,
    pub page_id: Option<PageID>,
    pub revised: bool,
    pub revision_label: Option<Seq<char>>,
    pub revision_date: Option<Seq<char>>,
    pub page_format: Option<PageFormat>,
}

impl View for Page {
    type V = PageV;

    open spec fn view(&self) -> PageV {
        PageV {
            lines: Seq::new(self.lines@.len(), |i: int| self.lines@[i]@),
            page_number: match &self.page_number {
                Some(n) => Some(n.0@),
                None => None,
            },
            page_id: self.page_id,
            revised: self.revised,
            revision_label: match &self.revision_label {
                Some(s) => Some(s@),
                None => None,
            },
            revision_date: match &self.revision_date {
                Some(s) => Some(s@),
                None => None,
            },
            page_format: self.page_format,
        }
    }
}

/// The parsed screenplay: pages in document order, scenes and locations in
/// arenas indexed by their identifiers, and the registered characters.
#[derive(PartialEq, Clone, Debug)]
pub struct ScreenplayDocument {
    pub pages: Vec<Page>,
    pub revisions: Option<Vec<String>>,
    /// Scene with [`SceneID`] `i` is `scenes[i]`.
    pub scenes: Vec<Scene>,
    /// Location with [`LocationID`] `i` is `locations[i]`.
    pub locations: Vec<LocationNode>,
    /// Character with [`CharacterID`] `i` is `characters[i]`.
    pub characters: Vec<Character>,
    pub page_numbers: Vec<(PageID, PageNumber)>,
}

/// Mathematical image of a [`ScreenplayDocument`].
#[verifier::ext_equal]
pub struct ScreenplayDocumentV {
    pub pages: Seq<PageV>,
    pub revisions: Option<Seq<Seq<char>>>,
    pub scenes: Seq<SceneV>,
    pub locations: Seq<LocationNodeV>,
    pub characters: Seq<CharacterV>,
    pub page_numbers: Seq<(PageID, Seq<char>)>,
}

/// The views of a vector of pages.
pub open spec fn pages_view(v: Vec<Page>) -> Seq<PageV> {
    Seq::new(v@.len(), |i: int| v@[i]@)
}

/// The views of a vector of lines.
pub open spec fn lines_view(v: Vec<Line>) -> Seq<LineV> {
    Seq::new(v@.len(), |i: int| v@[i]@)
}

/// The views of a vector of scenes.
pub open spec fn scenes_view(v: Vec<Scene>) -> Seq<SceneV> {
    Seq::new(v@.len(), |i: int| v@[i]@)
}

/// The views of a vector of location nodes.
pub open spec fn locations_view(v: Vec<LocationNode>) -> Seq<LocationNodeV> {
    Seq::new(v@.len(), |i: int| v@[i]@)
}

/// The views of a vector of characters.
pub open spec fn characters_view(v: Vec<Character>) -> Seq<CharacterV> {
    Seq::new(v@.len(), |i: int| v@[i]@)
}

impl View for ScreenplayDocument {
    type V = ScreenplayDocumentV;

    open spec fn view(&self) -> ScreenplayDocumentV {
        ScreenplayDocumentV {
            pages: pages_view(self.pages),
            revisions: match &self.revisions {
                Some(v) => Some(v.deep_view()),
                None => None,
            },
            scenes: scenes_view(self.scenes),
            locations: locations_view(self.locations),
            characters: characters_view(self.characters),
            page_numbers: Seq::new(
                self.page_numbers@.len(),
                |i: int| (self.page_numbers@[i].0, self.page_numbers@[i].1.0@),
            ),
        }
    }
}

// ---------------------------------------------------------------- vocabulary

/// The word one of the five standard time-of-day slots recognises, if this
/// value is such a slot.
pub open spec fn time_slot_string(t: TimeOfDayV) -> Option<Seq<char>> {
    match t {
        TimeOfDayV::Day(s) => Some(s),
        TimeOfDayV::Night(s) => Some(s),
        TimeOfDayV::Morning(s) => Some(s),
        TimeOfDayV::Evening(s) => Some(s),
        TimeOfDayV::Afternoon(s) => Some(s),
        TimeOfDayV::Extras(_) => None,
    }
}

/// The slot recognises exactly the word `target`.
pub open spec fn time_slot_matches(t: TimeOfDayV, target: Seq<char>) -> bool {
    time_slot_string(t) == Some(target)
}

/// Some entry of the extras table maps to the word `target`.
pub open spec fn extras_table_match(e: Seq<(Seq<char>, Seq<char>)>, target: Seq<char>) -> bool {
    exists|i: int| 0 <= i < e.len() && (#[trigger] e[i]).1 == target
}

/// Some entry of the optional extras table maps to the word `target`.
pub open spec fn extras_match(
    extras: Option<Seq<(Seq<char>, Seq<char>)>>,
    target: Seq<char>,
) -> bool {
    match extras {
        Some(e) => extras_table_match(e, target),
        None => false,
    }
}

/// `target` is one of the recognised time-of-day words of the vocabulary.
pub open spec fn is_time_of_day_spec(c: TimeOfDayCollectionV, target: Seq<char>) -> bool {
    ||| time_slot_matches(c.day, target)
    ||| time_slot_matches(c.night, target)
    ||| time_slot_matches(c.morning, target)
    ||| time_slot_matches(c.evening, target)
    ||| time_slot_matches(c.afternoon, target)
    ||| extras_match(c.extras, target)
}

/// The time of day the vocabulary assigns to `target`: the first of the
/// five standard slots that recognises it, a bare `Extras` when only the
/// extras table does, `None` when nothing does.
pub open spec fn get_time_of_day_spec(
    c: TimeOfDayCollectionV,
    target: Seq<char>,
) -> Option<TimeOfDayV> {
    if time_slot_matches(c.day, target) {
        Some(c.day)
    } else if time_slot_matches(c.night, target) {
        Some(c.night)
    } else if time_slot_matches(c.morning, target) {
        Some(c.morning)
    } else if time_slot_matches(c.evening, target) {
        Some(c.evening)
    } else if time_slot_matches(c.afternoon, target) {
        Some(c.afternoon)
    } else if extras_match(c.extras, target) {
        Some(TimeOfDayV::Extras(None))
    } else {
        None
    }
}

/// The view of an optional time of day.
pub open spec fn opt_time_of_day_view(r: Option<TimeOfDay>) -> Option<TimeOfDayV> {
    match r {
        Some(t) => Some(t@),
        None => None,
    }
}

fn time_slot_matches_exec(t: &TimeOfDay, target: &String) -> (r: bool)
    ensures
        r == time_slot_matches(t@, target@),
{
    match t {
        TimeOfDay::Day(s) => *s == *target,
        TimeOfDay::Night(s) => *s == *target,
        TimeOfDay::Morning(s) => *s == *target,
        TimeOfDay::Evening(s) => *s == *target,
        TimeOfDay::Afternoon(s) => *s == *target,
        TimeOfDay::Extras(_) => false,
    }
}

/// A copy of the matched slot, for handing it out of the vocabulary;
/// `None` when the slot is the extras variant.
fn time_slot_clone(t: &TimeOfDay) -> (r: Option<TimeOfDay>)
    ensures
        match r {
            Some(x) => x@ == t@ && time_slot_string(t@) is Some,
            None => time_slot_string(t@) is None,
        },
{
    match t {
        TimeOfDay::Day(s) => Some(TimeOfDay::Day(s.clone())),
        TimeOfDay::Night(s) => Some(TimeOfDay::Night(s.clone())),
        TimeOfDay::Morning(s) => Some(TimeOfDay::Morning(s.clone())),
        TimeOfDay::Evening(s) => Some(TimeOfDay::Evening(s.clone())),
        TimeOfDay::Afternoon(s) => Some(TimeOfDay::Afternoon(s.clone())),
        TimeOfDay::Extras(_) => None,
    }
}

fn extras_table_match_exec(e: &Vec<(String, String)>, target: &String) -> (r: bool)
    ensures
        r == extras_table_match(e.deep_view(), target@),
{
    let mut k: usize = 0;
    while k < e.len()
        invariant
            k <= e.len(),
            forall|i: int| 0 <= i < k ==> (#[trigger] e.deep_view()[i]).1 != target@,
        decreases e.len() - k,
    {
        if e[k].1 == *target {
            proof {
                let w = e.deep_view();
                assert(w.len() == e@.len());
                assert(w[k as int].1 == target@);
                assert(extras_table_match(w, target@));
            }
            return true;
        }
        assert(e.deep_view()[k as int].1 != target@);
        k += 1;
    }
    false
}

impl Default for TimeOfDayCollection {
    /// The default English vocabulary: DAY, NIGHT, MORNING, EVENING,
    /// AFTERNOON, and no extras.
    fn default() -> (r: Self)
        ensures
            r@.day == TimeOfDayV::Day("DAY"@),
            r@.night == TimeOfDayV::Night("NIGHT"@),
            r@.morning == TimeOfDayV::Morning("MORNING"@),
            r@.evening == TimeOfDayV::Evening("EVENING"@),
            r@.afternoon == TimeOfDayV::Afternoon("AFTERNOON"@),
            r@.extras is None,
    {
        TimeOfDayCollection {
            day: TimeOfDay::Day("DAY".to_owned()),
            night: TimeOfDay::Night("NIGHT".to_owned()),
            morning: TimeOfDay::Morning("MORNING".to_owned()),
            evening: TimeOfDay::Evening("EVENING".to_owned()),
            afternoon: TimeOfDay::Afternoon("AFTERNOON".to_owned()),
            extras: None,
        }
    }
}

impl TimeOfDayCollection {
    /// Whether `target` is one of the recognised time-of-day words.
    pub fn is_time_of_day(&self, target: &String) -> (r: bool)
        ensures
            r == is_time_of_day_spec(self@, target@),
    {
        if time_slot_matches_exec(&self.day, target) {
            return true;
        }
        if time_slot_matches_exec(&self.night, target) {
            return true;
        }
        if time_slot_matches_exec(&self.morning, target) {
            return true;
        }
        if time_slot_matches_exec(&self.evening, target) {
            return true;
        }
        if time_slot_matches_exec(&self.afternoon, target) {
            return true;
        }
        match &self.extras {
            None => false,
            Some(e) => extras_table_match_exec(e, target),
        }
    }

    /// The time of day this vocabulary assigns to `target`, if any: the
    /// first standard slot that recognises it, or a bare `Extras` marker
    /// when only the extras table does.
    pub fn get_time_of_day(&self, target: &String) -> (r: Option<TimeOfDay>)
        ensures
            opt_time_of_day_view(r) == get_time_of_day_spec(self@, target@),
    {
        if time_slot_matches_exec(&self.day, target) {
            return time_slot_clone(&self.day);
        }
        if time_slot_matches_exec(&self.night, target) {
            return time_slot_clone(&self.night);
        }
        if time_slot_matches_exec(&self.morning, target) {
            return time_slot_clone(&self.morning);
        }
        if time_slot_matches_exec(&self.evening, target) {
            return time_slot_clone(&self.evening);
        }
        if time_slot_matches_exec(&self.afternoon, target) {
            return time_slot_clone(&self.afternoon);
        }
        match &self.extras {
            None => None,
            Some(e) => {
                if extras_table_match_exec(e, target) {
                    Some(TimeOfDay::Extras(None))
                } else {
                    None
                }
            },
        }
    }
}

impl Default for EnvironmentStrings {
    /// The default environment vocabulary: INT., EXT., and the usual
    /// combined spellings.
    fn default() -> (r: Self)
        ensures
            r@.int_markers == seq!["INT."@],
            r@.ext_markers == seq!["EXT."@],
            r@.combo_markers == seq!["INT./EXT."@, "I./E."@, "EXT./INT."@, "E./I."@],
    {
        let mut int_markers: Vec<String> = Vec::new();
        int_markers.push("INT.".to_owned());
        let mut ext_markers: Vec<String> = Vec::new();
        ext_markers.push("EXT.".to_owned());
        let mut combo_markers: Vec<String> = Vec::new();
        combo_markers.push("INT./EXT.".to_owned());
        combo_markers.push("I./E.".to_owned());
        combo_markers.push("EXT./INT.".to_owned());
        combo_markers.push("E./I.".to_owned());
        let r = EnvironmentStrings { int_markers, ext_markers, combo_markers };
        proof {
            assert(r@.int_markers =~= seq!["INT."@]);
            assert(r@.ext_markers =~= seq!["EXT."@]);
            assert(r@.combo_markers =~= seq!["INT./EXT."@, "I./E."@, "EXT./INT."@, "E./I."@]);
        }
        r
    }
}

/// The environment the vocabulary assigns to the word `s`: interior before
/// exterior before combined, `None` when no list holds the word.
pub open spec fn environment_from_str_spec(
    env: EnvironmentStringsV,
    s: Seq<char>,
) -> Option<Environment> {
    if crate::strings::str_list_contains(env.int_markers, s) {
        Some(Environment::Int)
    } else if crate::strings::str_list_contains(env.ext_markers, s) {
        Some(Environment::Ext)
    } else if crate::strings::str_list_contains(env.combo_markers, s) {
        Some(Environment::Combo)
    } else {
        None
    }
}

impl Environment {
    /// The environment the vocabulary assigns to the word `string`, if any.
    pub fn from_str(string: &String, current_env_strs: &EnvironmentStrings) -> (r: Option<
        Environment,
    >)
        ensures
            r == environment_from_str_spec(current_env_strs@, string@),
    {
        if crate::strings::string_vec_contains(&current_env_strs.int_markers, string) {
            return Some(Environment::Int);
        }
        if crate::strings::string_vec_contains(&current_env_strs.ext_markers, string) {
            return Some(Environment::Ext);
        }
        if crate::strings::string_vec_contains(&current_env_strs.combo_markers, string) {
            return Some(Environment::Combo);
        }
        None
    }
}

// ---------------------------------------------------------------- characters

/// Tags whose words take part in a character name.
pub open spec fn is_character_name_tag(t: Option<SPType>) -> bool {
    ||| t == Some(SPType::SP_CHARACTER)
    ||| t == Some(SPType::SP_DD_L_CHARACTER)
    ||| t == Some(SPType::SP_DD_R_CHARACTER)
}

/// State of the scan that looks for a contiguous run of equally tagged
/// name words: the space-joined text of the current run, the tag of the
/// element before, and whether an earlier run already matched.
#[verifier::ext_equal]
pub struct NameScanState {
    pub acc: Seq<char>,
    pub prev: Option<SPType>,
    pub matched: bool,
}

pub open spec fn name_scan_init() -> NameScanState {
    NameScanState { acc: Seq::<char>::empty(), prev: Some(SPType::NONE), matched: false }
}

/// One step of the name scan over the next element.
pub open spec fn name_scan_step(
    st: NameScanState,
    e: TextElementV,
    name: Seq<char>,
) -> NameScanState {
    let reset = st.prev != e.element_type;
    let matched = st.matched || (reset && st.acc == name);
    let acc = if reset {
        Seq::<char>::empty()
    } else {
        st.acc
    };
    let acc = if is_character_name_tag(e.element_type) {
        if acc.len() > 0 {
            acc + " "@ + e.text
        } else {
            e.text
        }
    } else {
        acc
    };
    NameScanState { acc, prev: e.element_type, matched }
}

/// The scan state after the first `i` elements of the line.
pub open spec fn name_scan_at(elems: Seq<TextElementV>, i: int, name: Seq<char>) -> NameScanState
    decreases i,
{
    if i <= 0 {
        name_scan_init()
    } else {
        name_scan_step(name_scan_at(elems, i - 1, name), elems[i - 1], name)
    }
}

/// The line holds a contiguous run of equally tagged character-name words
/// whose space-joined text is exactly `name`.
pub open spec fn is_line_spec(line: LineV, name: Seq<char>) -> bool {
    let st = name_scan_at(line.text_elements, line.text_elements.len() as int, name);
    st.matched || st.acc == name
}

impl Character {
    /// Whether some contiguous run of equally tagged character-name words
    /// of this line spells this character's name.
    pub fn is_line(&self, line: &Line) -> (r: bool)
        ensures
            r == is_line_spec(line@, self.name@),
    {
        let ghost elems = line@.text_elements;
        let ghost name = self.name@;
        let mut acc = String::new();
        let mut prev: Option<SPType> = Some(SPType::NONE);
        let mut matched = false;
        let n = line.text_elements.len();
        let mut i: usize = 0;
        while i < n
            invariant
                i <= n,
                n == line.text_elements.len(),
                elems == line@.text_elements,
                name == self.name@,
                elems.len() == n,
                acc@ == name_scan_at(elems, i as int, name).acc,
                prev == name_scan_at(elems, i as int, name).prev,
                matched == name_scan_at(elems, i as int, name).matched,
            decreases n - i,
        {
            let e = &line.text_elements[i];
            proof {
                assert(elems[i as int] == line.text_elements@[i as int]@);
            }
            if prev != e.element_type {
                if acc == self.name {
                    matched = true;
                }
                acc = String::new();
            }
            match e.element_type {
                Some(SPType::SP_CHARACTER)
                | Some(SPType::SP_DD_L_CHARACTER)
                | Some(SPType::SP_DD_R_CHARACTER) => {
                    if !acc.as_str().is_empty() {
                        acc.append(" ");
                    }
                    acc.append(e.text.as_str());
                },
                _ => {},
            }
            prev = e.element_type;
            i += 1;
            proof {
                assert(name_scan_at(elems, i as int, name) == name_scan_step(
                    name_scan_at(elems, i - 1, name),
                    elems[i - 1],
                    name,
                ));
                assert(acc@ == name_scan_at(elems, i as int, name).acc);
            }
        }
        matched || acc == self.name
    }
}

// ------------------------------------------------------------ location nodes

/// The first identifier in `subs`, in order, that names a location (inside
/// `locations`) whose string is `target`.
pub open spec fn first_matching_child(
    subs: Seq<LocationID>,
    target: Seq<char>,
    locations: Seq<LocationNodeV>,
) -> Option<LocationID>
    decreases subs.len(),
{
    if subs.len() == 0 {
        None
    } else if (subs[0].0 as int) < locations.len() && locations[subs[0].0 as int].string
        == target {
        Some(subs[0])
    } else {
        first_matching_child(subs.drop_first(), target, locations)
    }
}

/// Result of walking `subpath` down from the node `node` (whose identifier
/// is `this_id`): `None` when the subpath is empty; otherwise the deepest
/// node reached, paired with the fragments that found no child.
pub open spec fn subpath_exists_spec(
    node: LocationNodeV,
    this_id: LocationID,
    subpath: Seq<Seq<char>>,
    locations: Seq<LocationNodeV>,
) -> Option<(LocationID, Seq<Seq<char>>)>
    decreases subpath.len(),
{
    if subpath.len() == 0 {
        None
    } else {
        match first_matching_child(node.sublocations, subpath[0], locations) {
            None => Some((this_id, subpath)),
            Some(c) => {
                let cn = locations[c.0 as int];
                if subpath.len() == 1 {
                    Some((c, Seq::<Seq<char>>::empty()))
                } else if cn.sublocations.len() == 0 {
                    Some((c, subpath.drop_first()))
                } else {
                    subpath_exists_spec(cn, c, subpath.drop_first(), locations)
                }
            },
        }
    }
}

impl LocationNode {
    /// Record `new_id` as a sublocation, unless it is one already; the
    /// result says whether it was added.
    pub fn add_sublocation(&mut self, new_id: LocationID) -> (r: bool)
        ensures
            r == !old(self)@.sublocations.contains(new_id),
            r ==> final(self)@.sublocations == old(self)@.sublocations.push(new_id),
            !r ==> final(self)@.sublocations == old(self)@.sublocations,
            final(self)@.string == old(self)@.string,
            final(self)@.superlocation == old(self)@.superlocation,
    {
        let mut k: usize = 0;
        let n = self.sublocations.len();
        while k < n
            invariant
                k <= n,
                n == self.sublocations.len(),
                forall|i: int| 0 <= i < k ==> self.sublocations@[i] != new_id,
            decreases n - k,
        {
            if self.sublocations[k] == new_id {
                return false;
            }
            k += 1;
        }
        self.sublocations.push(new_id);
        true
    }

    /// Walk `subpath` down from this node, descending at each step into
    /// the first sublocation whose string equals the next fragment.
    /// `None` when the subpath is empty; otherwise the deepest node
    /// reached, paired with the fragments that found no child under it.
    pub fn subpath_exists(
        &self,
        this_location_id: &LocationID,
        subpath: &[String],
        screenplay: &ScreenplayDocument,
    ) -> (r: Option<(LocationID, Vec<String>)>)
        ensures
            match r {
                None => subpath_exists_spec(
                    self@,
                    *this_location_id,
                    subpath.deep_view(),
                    screenplay@.locations,
                ) is None,
                Some(p) => subpath_exists_spec(
                    self@,
                    *this_location_id,
                    subpath.deep_view(),
                    screenplay@.locations,
                ) == Some((p.0, p.1.deep_view())),
            },
        decreases subpath@.len(),
    {
        let ghost locs = screenplay@.locations;
        let ghost path = subpath.deep_view();
        if subpath.len() == 0 {
            return None;
        }
        let subpath_root = &subpath[0];
        proof {
            assert(path[0] == subpath@[0]@);
        }
        let n = self.sublocations.len();
        let mut k: usize = 0;
        proof {
            assert(self@.sublocations.skip(0) =~= self@.sublocations);
        }
        while k < n
            invariant
                k <= n,
                n == self.sublocations.len(),
                locs == screenplay@.locations,
                path == subpath.deep_view(),
                path.len() == subpath@.len(),
                subpath@.len() > 0,
                subpath_root@ == path[0],
                first_matching_child(self@.sublocations.skip(k as int), path[0], locs)
                    == first_matching_child(self@.sublocations, path[0], locs),
            decreases n - k,
        {
            let ghost subs = self@.sublocations;
            proof {
                assert(subs.skip(k as int).len() > 0);
                assert(subs.skip(k as int)[0] == subs[k as int]);
            }
            let id = self.sublocations[k];
            let mut matched = false;
            if id.0 < screenplay.locations.len() as u64 {
                let node = &screenplay.locations[id.0 as usize];
                proof {
                    assert(locs[id.0 as int] == screenplay.locations@[id.0 as int]@);
                }
                if node.string == *subpath_root {
                    proof {
                        assert(first_matching_child(subs.skip(k as int), path[0], locs)
                            == Some(id));
                    }
                    if subpath.len() == 1 {
                        return Some((id, Vec::new()));
                    }
                    if node.sublocations.len() == 0 {
                        let rest = slice_suffix_vec(subpath, 1);
                        proof {
                            assert(rest.deep_view() =~= path.drop_first());
                        }
                        return Some((id, rest));
                    }
                    let tail = &subpath[1..subpath.len()];
                    proof {
                        assert(tail.deep_view() =~= path.drop_first());
                    }
                    let r = node.subpath_exists(&id, tail, screenplay);
                    return r;
                }
            }
            proof {
                assert(first_matching_child(subs.skip(k as int), path[0], locs)
                    == first_matching_child(subs.skip(k as int).drop_first(), path[0], locs));
                assert(subs.skip(k as int).drop_first() =~= subs.skip(k as int + 1));
            }
            k += 1;
        }
        proof {
            assert(self@.sublocations.skip(n as int) =~= Seq::<LocationID>::empty());
            assert(first_matching_child(self@.sublocations, path[0], locs) is None);
        }
        let rest = slice_suffix_vec(subpath, 0);
        proof {
            assert(rest.deep_view() =~= path);
        }
        Some((*this_location_id, rest))
    }
}

/// A copy of the strings of `s` from position `from` on.
pub(crate) fn slice_suffix_vec(s: &[String], from: usize) -> (r: Vec<String>)
    requires
        from <= s@.len(),
    ensures
        r.deep_view() == s.deep_view().subrange(from as int, s.deep_view().len() as int),
{
    let mut out: Vec<String> = Vec::new();
    let mut j = from;
    while j < s.len()
        invariant
            from <= j <= s@.len(),
            out@.len() == j - from,
            forall|i: int| 0 <= i < out@.len() ==> #[trigger] out@[i]@ == s@[from + i]@,
        decreases s@.len() - j,
    {
        out.push(s[j].clone());
        j += 1;
    }
    proof {
        let dv = out.deep_view();
        let sv = s.deep_view().subrange(from as int, s.deep_view().len() as int);
        assert(dv.len() == sv.len());
        assert forall|i: int| 0 <= i < dv.len() implies dv[i] == sv[i] by {
            assert(dv[i] == out@[i]@);
            assert(sv[i] == s.deep_view()[from + i]);
            assert(s.deep_view()[from + i] == s@[from + i]@);
        }
        assert(dv =~= sv);
    }
    out
}

// ------------------------------------------------------------- the document

impl ScreenplayDocument {
    /// An empty document.
    pub fn new() -> (r: Self)
        ensures
            r@.pages.len() == 0,
            r@.revisions is None,
            r@.scenes.len() == 0,
            r@.locations.len() == 0,
            r@.characters.len() == 0,
            r@.page_numbers.len() == 0,
    {
        ScreenplayDocument {
            pages: Vec::new(),
            revisions: None,
            scenes: Vec::new(),
            locations: Vec::new(),
            characters: Vec::new(),
            page_numbers: Vec::new(),
        }
    }

    /// The scene an identifier names, when it names one.
    pub fn get_scene(&self, id: &SceneID) -> (r: Option<&Scene>)
        ensures
            match r {
                Some(s) => (id.0 as int) < self@.scenes.len() && s@ == self@.scenes[id.0 as int],
                None => (id.0 as int) >= self@.scenes.len(),
            },
    {
        if id.0 < self.scenes.len() as u64 {
            Some(&self.scenes[id.0 as usize])
        } else {
            None
        }
    }

    /// The location node an identifier names, when it names one.
    pub fn get_location(&self, id: &LocationID) -> (r: Option<&LocationNode>)
        ensures
            match r {
                Some(n) => (id.0 as int) < self@.locations.len() && n@ == self@.locations[id.0 as int],
                None => (id.0 as int) >= self@.locations.len(),
            },
    {
        if id.0 < self.locations.len() as u64 {
            Some(&self.locations[id.0 as usize])
        } else {
            None
        }
    }
}

// -------------------------------------------------------- well-formedness

/// The tag of a promoted scene-heading line.
pub open spec fn scene_heading_line_tag() -> Option<SPType> {
    Some(SPType::SP_SCENE_HEADING(SceneHeadingElement::Line))
}

/// The characters of an optional string.
pub open spec fn opt_string_view(o: Option<String>) -> Option<Seq<char>> {
    match o {
        Some(s) => Some(s@),
        None => None,
    }
}

/// The space-joined text of the elements tagged `SP_CHARACTER` among the
/// first `i` elements: the name under which the line's speaker registers.
pub open spec fn character_name_at(elems: Seq<TextElementV>, i: int) -> Seq<char>
    decreases i,
{
    if i <= 0 {
        Seq::<char>::empty()
    } else {
        let pre = character_name_at(elems, i - 1);
        let e = elems[i - 1];
        if e.element_type == Some(SPType::SP_CHARACTER) {
            if pre.len() > 0 {
                pre + " "@ + e.text
            } else {
                e.text
            }
        } else {
            pre
        }
    }
}

/// The name a character-cue line registers.
pub open spec fn character_name_of_line(ln: LineV) -> Seq<char> {
    character_name_at(ln.text_elements, ln.text_elements.len() as int)
}

/// Structural soundness of one node of a location arena: its parent was
/// created before it and lists it as a child; its children were created
/// after it, are distinct, and point back at it.
pub open spec fn location_node_wf_seq(locations: Seq<LocationNodeV>, i: int) -> bool {
    let n = locations[i];
    &&& (match n.superlocation {
        Some(p) => (p.0 as int) < i && locations[p.0 as int].sublocations.contains(
            LocationID(i as u64),
        ),
        None => true,
    })
    &&& (forall|j: int|
        0 <= j < n.sublocations.len() ==> {
            let c = #[trigger] n.sublocations[j];
            i < (c.0 as int) < locations.len() && locations[c.0 as int].superlocation == Some(
                LocationID(i as u64),
            )
        })
    &&& (forall|j: int, k: int|
        0 <= j < k < n.sublocations.len() ==> n.sublocations[j] != n.sublocations[k])
}

/// Every node of the arena is structurally sound. Parent identifiers
/// strictly decrease along the root-ward walk, so the superlocation graph
/// is acyclic.
pub open spec fn locations_wf_seq(locations: Seq<LocationNodeV>) -> bool {
    forall|i: int| 0 <= i < locations.len() ==> #[trigger] location_node_wf_seq(locations, i)
}

/// No two distinct root nodes of the arena carry the same string.
pub open spec fn roots_unique_seq(locations: Seq<LocationNodeV>) -> bool {
    forall|i: int, j: int|
        #![trigger locations[i].string, locations[j].string]
        0 <= i < locations.len() && 0 <= j < locations.len() && locations[i].superlocation is None
            && locations[j].superlocation is None && locations[i].string == locations[j].string
            ==> i == j
}

/// Characters of a register are keyed by their index and have pairwise
/// distinct names.
pub open spec fn characters_wf_seq(characters: Seq<CharacterV>) -> bool {
    &&& (forall|i: int|
        0 <= i < characters.len() ==> (#[trigger] characters[i]).id == CharacterID(i as u64))
    &&& (forall|i: int, j: int|
        #![trigger characters[i].name, characters[j].name]
        0 <= i < j < characters.len() ==> characters[i].name != characters[j].name)
}

impl ScreenplayDocumentV {
    /// The coordinate names an existing line.
    pub open spec fn valid_coordinate(self, c: ScreenplayCoordinate) -> bool {
        (c.page as int) < self.pages.len() && (c.line as int) < self.pages[c.page as int].lines.len()
    }

    /// Every location node is structurally sound; the superlocation graph
    /// is acyclic.
    pub open spec fn locations_wf(self) -> bool {
        locations_wf_seq(self.locations)
    }

    /// No two distinct root nodes carry the same string.
    pub open spec fn roots_unique(self) -> bool {
        roots_unique_seq(self.locations)
    }

    /// Soundness of one scene: its start names an existing heading line,
    /// that line carries this scene's identifier, and its location path
    /// names existing nodes.
    pub open spec fn scene_wf(self, i: int) -> bool {
        let s = self.scenes[i];
        &&& self.valid_coordinate(s.start)
        &&& s.start.element is None
        &&& {
            let ln = self.pages[s.start.page as int].lines[s.start.line as int];
            ln.scene_id == Some(SceneID(i as u64)) && ln.line_type == scene_heading_line_tag()
        }
        &&& (forall|j: int|
            0 <= j < s.story_locations.len() ==> (#[trigger] s.story_locations[j].0 as int)
                < self.locations.len())
    }

    /// Every scene is sound.
    pub open spec fn scenes_wf(self) -> bool {
        forall|i: int| 0 <= i < self.scenes.len() ==> #[trigger] self.scene_wf(i)
    }

    /// Every scene-heading line is bound to an existing scene that starts
    /// exactly there, and only scene-heading lines carry a scene
    /// identifier.
    pub open spec fn headings_wf(self) -> bool {
        forall|p: int, l: int|
            #![trigger self.pages[p].lines[l]]
            0 <= p < self.pages.len() && 0 <= l < self.pages[p].lines.len() ==> {
                let ln = self.pages[p].lines[l];
                &&& (ln.line_type == scene_heading_line_tag() ==> (ln.scene_id matches Some(sid)
                    && (sid.0 as int) < self.scenes.len() && self.scenes[sid.0 as int].start.page
                    == p && self.scenes[sid.0 as int].start.line == l))
                &&& (ln.scene_id is Some ==> ln.line_type == scene_heading_line_tag())
            }
    }

    /// Characters are keyed by their index and have pairwise distinct
    /// names.
    pub open spec fn characters_wf(self) -> bool {
        characters_wf_seq(self.characters)
    }

    /// The name of every character-cue line is registered.
    pub open spec fn characters_complete(self) -> bool {
        forall|p: int, l: int|
            #![trigger self.pages[p].lines[l]]
            0 <= p < self.pages.len() && 0 <= l < self.pages[p].lines.len() && self.pages[p].lines[l].line_type
                == Some(SPType::SP_CHARACTER) ==> exists|c: int|
                0 <= c < self.characters.len() && (#[trigger] self.characters[c]).name
                    == character_name_of_line(self.pages[p].lines[l])
    }

    /// Structural well-formedness of a parsed document.
    pub open spec fn wf(self) -> bool {
        &&& self.locations_wf()
        &&& self.roots_unique()
        &&& self.scenes_wf()
        &&& self.headings_wf()
        &&& self.characters_wf()
    }
}

// ------------------------------------------------- the speaker-register law

/// The character-name words of `elems` form one unbroken run: exactly the
/// positions `a .. b` carry the plain character tag, and no position
/// outside them carries any name tag.
pub open spec fn single_cue_run(elems: Seq<TextElementV>, a: int, b: int) -> bool {
    &&& 0 <= a <= b <= elems.len()
    &&& (forall|k: int|
        a <= k < b ==> (#[trigger] elems[k]).element_type == Some(SPType::SP_CHARACTER))
    &&& (forall|k: int|
        0 <= k < elems.len() && !(a <= k < b) ==> !is_character_name_tag(
            (#[trigger] elems[k]).element_type,
        ))
}

/// Along a line whose name words form one unbroken run, the name scan's
/// accumulator is empty outside the run and the partial cue text inside
/// it, so the only name values a match can see are the empty one and the
/// full cue text.
proof fn lemma_single_run_scan(
    elems: Seq<TextElementV>,
    a: int,
    b: int,
    name: Seq<char>,
    i: int,
)
    requires
        single_cue_run(elems, a, b),
        0 <= i <= elems.len(),
    ensures
        ({
            let st = name_scan_at(elems, i, name);
            &&& (i <= a ==> st.acc == Seq::<char>::empty())
            &&& (i <= a ==> character_name_at(elems, i) == Seq::<char>::empty())
            &&& (a < i <= b ==> st.acc == character_name_at(elems, i))
            &&& (i > b ==> st.acc == Seq::<char>::empty())
            &&& (i > b ==> character_name_at(elems, i) == character_name_at(elems, b))
            &&& st.prev == (if i == 0 {
                Some(SPType::NONE)
            } else {
                elems[i - 1].element_type
            })
            &&& (st.matched ==> name == Seq::<char>::empty() || name == character_name_at(
                elems,
                b,
            ))
        }),
    decreases i,
{
    if i > 0 {
        lemma_single_run_scan(elems, a, b, name, i - 1);
        let st0 = name_scan_at(elems, i - 1, name);
        let e = elems[i - 1];
        if a <= i - 1 < b {
            assert(e.element_type == Some(SPType::SP_CHARACTER));
            assert(is_character_name_tag(e.element_type));
            if i - 1 == a {
                assert(st0.acc == Seq::<char>::empty());
            } else {
                assert(st0.prev == elems[i - 2].element_type);
                assert(elems[i - 2].element_type == Some(SPType::SP_CHARACTER));
            }
        } else {
            assert(!is_character_name_tag(e.element_type));
            assert(e.element_type != Some(SPType::SP_CHARACTER));
            if i - 1 == b && a < b {
                assert(st0.prev == elems[i - 2].element_type);
                assert(elems[i - 2].element_type == Some(SPType::SP_CHARACTER));
                assert(st0.prev != e.element_type);
            }
        }
    }
}

/// On a character-cue line whose name words form one unbroken run, the
/// only nonempty name the line spells is the space-joined cue text — the
/// name the register stores for the line.
pub proof fn lemma_single_run_is_line(line: LineV, a: int, b: int, name: Seq<char>)
    requires
        single_cue_run(line.text_elements, a, b),
        is_line_spec(line, name),
    ensures
        name == Seq::<char>::empty() || name == character_name_of_line(line),
{
    let n = line.text_elements.len() as int;
    lemma_single_run_scan(line.text_elements, a, b, name, n);
}

impl ScreenplayDocumentV {
    /// The speaker-register law: in a parsed document, any character whose
    /// nonempty name some character-cue line spells — the line's name
    /// words forming one unbroken run — is registered.
    pub proof fn lemma_speaker_registered(
        self,
        p: int,
        l: int,
        a: int,
        b: int,
        name: Seq<char>,
    )
        requires
            self.characters_complete(),
            0 <= p < self.pages.len(),
            0 <= l < self.pages[p].lines.len(),
            self.pages[p].lines[l].line_type == Some(SPType::SP_CHARACTER),
            single_cue_run(self.pages[p].lines[l].text_elements, a, b),
            is_line_spec(self.pages[p].lines[l], name),
            name.len() > 0,
        ensures
            exists|c: int|
                0 <= c < self.characters.len() && (#[trigger] self.characters[c]).name == name,
    {
        lemma_single_run_is_line(self.pages[p].lines[l], a, b, name);
        assert(name == character_name_of_line(self.pages[p].lines[l]));
    }
}

} // verus!
