//! Line assembly: drives the word classifier across one input line,
//! records each word as a classified text element with its preceding
//! whitespace, promotes word tags to the line tag, tracks scene-number and
//! revision side effects, and repairs untagged elements afterwards.

use vstd::prelude::*;
use crate::classify::{get_type_for_word, word_type_spec};
use crate::pdf_document::{ElementIndentations, TextPosition, WordV};
use crate::screenplay_document::{
    scene_heading_line_tag, EnvironmentStrings, EnvironmentStringsV, Line, LineV,
    SceneHeadingElement, SPType, TextElement, TextElementV, TimeOfDayCollection,
    TimeOfDayCollectionV,
};
use crate::strings::{
    seq_contains_sub, str_contains, str_trim_char, str_trim_prefixes, str_trim_suffixes, trim_char,
    trim_seq,
};

verus! {

/// One monospace cell in hundredths of a point: the width of a character
/// at twelve-point pitch.
pub open spec fn char_cell() -> int {
    720
}

/// The height of one single-spaced line, in hundredths of a point.
pub open spec fn line_height() -> int {
    1200
}

/// State of a line while its words are being consumed: the elements so
/// far, the line-level promotions, and the page-level side effects.
#[verifier::ext_equal]
pub struct LineBuildState {
    pub elements: Seq<TextElementV>,
    pub line_type: Option<SPType>,
    pub scene_number: Option<Seq<char>>,
    pub revised: bool,
    pub page_number: Option<Seq<char>>,
    pub page_revised: bool,
}

/// The fresh state a line starts from, carrying the page side effects
/// already accumulated.
pub open spec fn line_build_init(
    page_number: Option<Seq<char>>,
    page_revised: bool,
) -> LineBuildState {
    LineBuildState {
        elements: Seq::<TextElementV>::empty(),
        line_type: None,
        scene_number: None,
        revised: false,
        page_number,
        page_revised,
    }
}

/// The tag of the last element so far; `None` for an empty line.
pub open spec fn last_elem_tag(elems: Seq<TextElementV>) -> Option<SPType> {
    if elems.len() == 0 {
        None
    } else {
        elems.last().element_type
    }
}

/// Monospace cells of whitespace before a word whose gap to the end of
/// the previous word is `gap`: the rounded cell count when at least half a
/// cell, but zero after a margin tag (scene number or revision marker),
/// and one when the glyphs touch or overlap.
pub open spec fn whitespace_chars_spec(prev_tag: Option<SPType>, gap: int) -> int {
    if gap >= char_cell() / 2 {
        if prev_tag == Some(SPType::SP_SCENENUM) || prev_tag == Some(
            SPType::SP_LINE_REVISION_MARKER,
        ) {
            0
        } else {
            (gap + char_cell() / 2) / char_cell()
        }
    } else {
        1
    }
}

/// A line commits to its first promoted tag and keeps it.
pub open spec fn commit_line_type(cur: Option<SPType>, t: SPType) -> Option<SPType> {
    if cur is None {
        Some(t)
    } else {
        cur
    }
}

/// A scene-number text stripped for storage: the leading and trailing
/// asterisks go first, then the configured revision marker (when it is
/// nonempty), then the leading and trailing periods.
pub open spec fn strip_scene_number(text: Seq<char>, marker: Seq<char>) -> Seq<char> {
    let no_stars = trim_char(text, '*');
    let no_marker = if marker.len() > 0 {
        trim_seq(no_stars, marker)
    } else {
        no_stars
    };
    trim_char(no_marker, '.')
}

/// The line- and page-level side effects of one classified word.
pub open spec fn line_update_spec(
    st: LineBuildState,
    t: Option<SPType>,
    text: Seq<char>,
    marker: Seq<char>,
) -> LineBuildState {
    match t {
        Some(SPType::SP_DIALOGUE) => LineBuildState {
            line_type: commit_line_type(st.line_type, SPType::SP_DIALOGUE),
            ..st
        },
        Some(SPType::SP_PARENTHETICAL) => LineBuildState {
            line_type: commit_line_type(st.line_type, SPType::SP_PARENTHETICAL),
            ..st
        },
        Some(SPType::SP_DD_L_PARENTHETICAL) | Some(SPType::SP_DD_R_PARENTHETICAL) | Some(
            SPType::SP_DD_L_DIALOGUE,
        ) | Some(SPType::SP_DD_R_DIALOGUE) => LineBuildState {
            line_type: commit_line_type(st.line_type, SPType::SP_DUAL_DIALOGUES),
            ..st
        },
        Some(SPType::SP_CHARACTER) => LineBuildState {
            line_type: commit_line_type(st.line_type, SPType::SP_CHARACTER),
            ..st
        },
        Some(SPType::SP_DD_L_CHARACTER) | Some(SPType::SP_DD_R_CHARACTER) => LineBuildState {
            line_type: commit_line_type(st.line_type, SPType::SP_DUAL_CHARACTERS),
            ..st
        },
        Some(SPType::SP_ACTION) => LineBuildState {
            line_type: commit_line_type(st.line_type, SPType::SP_ACTION),
            ..st
        },
        Some(SPType::SP_SCENE_HEADING(SceneHeadingElement::Environment)) => LineBuildState {
            line_type: commit_line_type(
                st.line_type,
                SPType::SP_SCENE_HEADING(SceneHeadingElement::Line),
            ),
            ..st
        },
        Some(SPType::SP_PAGENUM) => LineBuildState {
            line_type: commit_line_type(st.line_type, SPType::SP_PAGE_HEADER),
            page_number: Some(text),
            ..st
        },
        Some(SPType::SP_PAGE_REVISION_LABEL) => LineBuildState { page_revised: true, ..st },
        Some(SPType::SP_SCENENUM) => {
            let revised = st.revised || seq_contains_sub(marker, text);
            let trimmed = strip_scene_number(text, marker);
            if trimmed.len() > 0 {
                LineBuildState {
                    revised,
                    scene_number: Some(trimmed),
                    line_type: commit_line_type(
                        st.line_type,
                        SPType::SP_SCENE_HEADING(SceneHeadingElement::Line),
                    ),
                    ..st
                }
            } else {
                LineBuildState { revised, ..st }
            }
        },
        Some(SPType::SP_LINE_REVISION_MARKER) => LineBuildState { revised: true, ..st },
        _ => st,
    }
}

/// Consuming one word: classify it, record it as an element with its
/// whitespace, then apply the promotions.
pub open spec fn line_build_step(
    st: LineBuildState,
    w: WordV,
    prev_w: Option<WordV>,
    ind: ElementIndentations,
    tod: TimeOfDayCollectionV,
    env: EnvironmentStringsV,
    marker: Seq<char>,
) -> LineBuildState {
    let t = word_type_spec(w, st.elements, st.line_type, ind, tod, env, marker);
    let ws = match prev_w {
        None => 0,
        Some(pw) => whitespace_chars_spec(last_elem_tag(st.elements), w.x - (pw.x + pw.bbox_width)),
    };
    let el = TextElementV {
        text: w.text,
        element_type: t,
        preceding_whitespace_chars: ws,
        element_position: Some(TextPosition { x: w.x as u32, y: w.y as u32 }),
    };
    let st1 = LineBuildState { elements: st.elements.push(el), ..st };
    line_update_spec(st1, t, w.text, marker)
}

/// The line state after the first `i` words.
pub open spec fn line_build_at(
    words: Seq<WordV>,
    i: int,
    init: LineBuildState,
    ind: ElementIndentations,
    tod: TimeOfDayCollectionV,
    env: EnvironmentStringsV,
    marker: Seq<char>,
) -> LineBuildState
    decreases i,
{
    if i <= 0 {
        init
    } else {
        let st = line_build_at(words, i - 1, init, ind, tod, env, marker);
        let prev_w = if i >= 2 {
            Some(words[i - 2])
        } else {
            None
        };
        line_build_step(st, words[i - 1], prev_w, ind, tod, env, marker)
    }
}

/// Blank lines before a line at height `cur_y`, when the previous line sat
/// at `prev_y`: the rounded-up multiple of the line height once the gap
/// exceeds one line.
pub open spec fn empty_lines_spec(prev_y: int, cur_y: int) -> int {
    if prev_y > 100 && prev_y - cur_y > line_height() {
        (prev_y - cur_y + line_height() - 1) / line_height()
    } else {
        0
    }
}

// ------------------------------------------------------------ untagged fill

/// The tag an untagged element adopts on a committed body line; `None`
/// when the line type leaves it untouched.
pub open spec fn fill_tag_for(line_type: Option<SPType>, last: Option<SPType>) -> Option<SPType> {
    match line_type {
        Some(SPType::SP_ACTION) => Some(SPType::SP_ACTION),
        Some(SPType::SP_CHARACTER) => if last == Some(SPType::SP_CHARACTER_EXTENSION) {
            Some(SPType::SP_CHARACTER_EXTENSION)
        } else {
            Some(SPType::SP_CHARACTER)
        },
        Some(SPType::SP_DIALOGUE) => Some(SPType::SP_DIALOGUE),
        _ => None,
    }
}

/// Repair of one element on a non-heading line, given the (already
/// repaired) tag of the element before it.
pub open spec fn fix_elem_body(
    e: TextElementV,
    line_type: Option<SPType>,
    last: Option<SPType>,
) -> TextElementV {
    let e1 = if e.element_type is None {
        match fill_tag_for(line_type, last) {
            Some(t) => TextElementV { element_type: Some(t), ..e },
            None => e,
        }
    } else {
        e
    };
    if line_type == Some(SPType::SP_PAGE_HEADER) && e1.element_type == Some(
        SPType::NON_CONTENT_TOP,
    ) {
        TextElementV { element_type: Some(SPType::SP_PAGE_REVISION_LABEL), ..e1 }
    } else {
        e1
    }
}

/// The first `i` elements repaired, with the repaired tag of the last one.
pub open spec fn fix_body_at(
    elems: Seq<TextElementV>,
    i: int,
    line_type: Option<SPType>,
) -> (Seq<TextElementV>, Option<SPType>)
    decreases i,
{
    if i <= 0 {
        (Seq::<TextElementV>::empty(), None)
    } else {
        let (pre, last) = fix_body_at(elems, i - 1, line_type);
        let e2 = fix_elem_body(elems[i - 1], line_type, last);
        (pre.push(e2), e2.element_type)
    }
}

/// Repair of one element on a scene-heading line: an untagged element
/// whose text is the line's scene number becomes a scene-number element.
pub open spec fn fix_elem_heading(
    e: TextElementV,
    scene_number: Option<Seq<char>>,
) -> TextElementV {
    if e.element_type is None && scene_number == Some(e.text) {
        TextElementV { element_type: Some(SPType::SP_SCENENUM), ..e }
    } else {
        e
    }
}

/// A copy of a text element, field for field.
pub(crate) fn clone_text_element(e: &TextElement) -> (r: TextElement)
    ensures
        r@ == e@,
{
    TextElement {
        text: e.text.clone(),
        element_type: e.element_type,
        preceding_whitespace_chars: e.preceding_whitespace_chars,
        element_position: e.element_position,
    }
}

/// Build one parsed line from one input line's words, updating the page's
/// nominal number and revision flag as page-header words come by. The
/// caller sets the vertical-gap field afterwards.
pub fn build_line(
    pdf_line: &crate::pdf_document::Line,
    page_number: &mut Option<String>,
    page_revised: &mut bool,
    ind: &ElementIndentations,
    tod: &TimeOfDayCollection,
    env: &EnvironmentStrings,
    r_marker: &String,
) -> (r: Line)
    ensures
        ({
            let st = line_build_at(
                pdf_line@,
                pdf_line@.len() as int,
                line_build_init(
                    crate::screenplay_document::opt_string_view(*old(page_number)),
                    *old(page_revised),
                ),
                *ind,
                tod@,
                env@,
                r_marker@,
            );
            &&& r@.text_elements == st.elements
            &&& r@.line_type == st.line_type
            &&& r@.scene_number == st.scene_number
            &&& r@.revised == st.revised
            &&& r@.scene_id is None
            &&& r@.preceding_empty_lines == 0
            &&& r@.blank == false
            &&& crate::screenplay_document::opt_string_view(*final(page_number)) == st.page_number
            &&& *final(page_revised) == st.page_revised
        }),
{
    let ghost init = line_build_init(
        crate::screenplay_document::opt_string_view(*page_number),
        *page_revised,
    );
    let ghost words = pdf_line@;
    let mut new_line = Line {
        text_elements: Vec::new(),
        scene_number: None,
        scene_id: None,
        line_type: None,
        preceding_empty_lines: 0,
        revised: false,
        blank: false,
    };
    let n = pdf_line.words.len();
    let mut i: usize = 0;
    while i < n
        invariant
            i <= n,
            n == pdf_line.words.len(),
            words == pdf_line@,
            words.len() == n,
            ({
                let st = line_build_at(words, i as int, init, *ind, tod@, env@, r_marker@);
                &&& new_line@.text_elements == st.elements
                &&& new_line@.line_type == st.line_type
                &&& new_line@.scene_number == st.scene_number
                &&& new_line@.revised == st.revised
                &&& crate::screenplay_document::opt_string_view(*page_number) == st.page_number
                &&& *page_revised == st.page_revised
            }),
            new_line.text_elements@.len() == i,
            new_line@.scene_id is None,
            new_line@.preceding_empty_lines == 0,
            new_line@.blank == false,
        decreases n - i,
    {
        let ghost st = line_build_at(words, i as int, init, *ind, tod@, env@, r_marker@);
        let w = &pdf_line.words[i];
        proof {
            assert(words[i as int] == pdf_line.words@[i as int]@);
        }
        let t = get_type_for_word(w, &new_line, ind, tod, env, r_marker);
        let ws: u64 = if i == 0 {
            0
        } else {
            let pw = &pdf_line.words[i - 1];
            proof {
                assert(words[i - 1] == pdf_line.words@[i - 1]@);
                assert(st.elements.last() == new_line.text_elements@[i - 1]@);
            }
            let prev_end: u64 = pw.position.x as u64 + pw.bbox_width as u64;
            let xv: u64 = w.position.x as u64;
            if xv >= prev_end + 360 {
                let prev_tag = new_line.text_elements[i - 1].element_type;
                if prev_tag == Some(SPType::SP_SCENENUM) || prev_tag == Some(
                    SPType::SP_LINE_REVISION_MARKER,
                ) {
                    0
                } else {
                    (xv - prev_end + 360) / 720
                }
            } else {
                1
            }
        };
        let el = TextElement {
            text: w.text.clone(),
            element_type: t,
            preceding_whitespace_chars: ws,
            element_position: Some(w.position),
        };
        new_line.text_elements.push(el);
        match t {
            Some(SPType::SP_DIALOGUE) => {
                if new_line.line_type.is_none() {
                    new_line.line_type = Some(SPType::SP_DIALOGUE);
                }
            },
            Some(SPType::SP_PARENTHETICAL) => {
                if new_line.line_type.is_none() {
                    new_line.line_type = Some(SPType::SP_PARENTHETICAL);
                }
            },
            Some(SPType::SP_DD_L_PARENTHETICAL) | Some(SPType::SP_DD_R_PARENTHETICAL) | Some(
                SPType::SP_DD_L_DIALOGUE,
            ) | Some(SPType::SP_DD_R_DIALOGUE) => {
                if new_line.line_type.is_none() {
                    new_line.line_type = Some(SPType::SP_DUAL_DIALOGUES);
                }
            },
            Some(SPType::SP_CHARACTER) => {
                if new_line.line_type.is_none() {
                    new_line.line_type = Some(SPType::SP_CHARACTER);
                }
            },
            Some(SPType::SP_DD_L_CHARACTER) | Some(SPType::SP_DD_R_CHARACTER) => {
                if new_line.line_type.is_none() {
                    new_line.line_type = Some(SPType::SP_DUAL_CHARACTERS);
                }
            },
            Some(SPType::SP_ACTION) => {
                if new_line.line_type.is_none() {
                    new_line.line_type = Some(SPType::SP_ACTION);
                }
            },
            Some(SPType::SP_SCENE_HEADING(SceneHeadingElement::Environment)) => {
                if new_line.line_type.is_none() {
                    new_line.line_type = Some(
                        SPType::SP_SCENE_HEADING(SceneHeadingElement::Line),
                    );
                }
            },
            Some(SPType::SP_PAGENUM) => {
                if new_line.line_type.is_none() {
                    new_line.line_type = Some(SPType::SP_PAGE_HEADER);
                }
                *page_number = Some(w.text.clone());
            },
            Some(SPType::SP_PAGE_REVISION_LABEL) => {
                *page_revised = true;
            },
            Some(SPType::SP_SCENENUM) => {
                if str_contains(w.text.as_str(), r_marker.as_str()) {
                    new_line.revised = true;
                }
                let t1 = str_trim_char(w.text.as_str(), '*');
                let t1 = if !r_marker.as_str().is_empty() {
                    let no_lead = str_trim_prefixes(t1.as_str(), r_marker.as_str());
                    str_trim_suffixes(no_lead.as_str(), r_marker.as_str())
                } else {
                    t1
                };
                let t2 = str_trim_char(t1.as_str(), '.');
                if !t2.as_str().is_empty() {
                    new_line.scene_number = Some(t2);
                    if new_line.line_type.is_none() {
                        new_line.line_type = Some(
                            SPType::SP_SCENE_HEADING(SceneHeadingElement::Line),
                        );
                    }
                }
            },
            Some(SPType::SP_LINE_REVISION_MARKER) => {
                new_line.revised = true;
            },
            _ => {},
        }
        i += 1;
        proof {
            let st2 = line_build_at(words, i as int, init, *ind, tod@, env@, r_marker@);
            assert(st2 == line_build_step(
                st,
                words[i - 1],
                if i >= 2 {
                    Some(words[i - 2])
                } else {
                    None
                },
                *ind,
                tod@,
                env@,
                r_marker@,
            ));
            assert(new_line@.text_elements =~= st2.elements);
        }
    }
    new_line
}

/// Repair the untagged elements of a completed line in place.
pub fn fix_line_elements(line: &mut Line)
    ensures
        final(line)@ == fix_elements_spec(old(line)@),
{
    let ghost elems0 = old(line)@.text_elements;
    let n = line.text_elements.len();
    let mut out: Vec<TextElement> = Vec::new();
    if line.line_type == Some(SPType::SP_SCENE_HEADING(SceneHeadingElement::Line)) {
        let mut i: usize = 0;
        while i < n
            invariant
                i <= n,
                n == line.text_elements.len(),
                elems0 == line@.text_elements,
                elems0.len() == n,
                line@.line_type == scene_heading_line_tag(),
                out@.len() == i,
                forall|j: int|
                    0 <= j < i ==> #[trigger] out@[j]@ == fix_elem_heading(
                        elems0[j],
                        line@.scene_number,
                    ),
            decreases n - i,
        {
            let e = &line.text_elements[i];
            proof {
                assert(elems0[i as int] == line.text_elements@[i as int]@);
            }
            let untagged_number = e.element_type.is_none() && (match &line.scene_number {
                Some(sn) => *sn == e.text,
                None => false,
            });
            let fixed = if untagged_number {
                TextElement {
                    text: e.text.clone(),
                    element_type: Some(SPType::SP_SCENENUM),
                    preceding_whitespace_chars: e.preceding_whitespace_chars,
                    element_position: e.element_position,
                }
            } else {
                clone_text_element(e)
            };
            out.push(fixed);
            i += 1;
        }
        line.text_elements = out;
        proof {
            assert(final(line)@.text_elements =~= fix_elements_spec(old(line)@).text_elements);
            assert(final(line)@ =~= fix_elements_spec(old(line)@));
        }
    } else {
        let mut last: Option<SPType> = None;
        let mut i: usize = 0;
        while i < n
            invariant
                i <= n,
                n == line.text_elements.len(),
                elems0 == line@.text_elements,
                elems0.len() == n,
                line@.line_type != scene_heading_line_tag(),
                line@.line_type == old(line)@.line_type,
                out@.len() == i,
                Seq::new(out@.len(), |j: int| out@[j]@) == fix_body_at(
                    elems0,
                    i as int,
                    line@.line_type,
                ).0,
                last == fix_body_at(elems0, i as int, line@.line_type).1,
            decreases n - i,
        {
            let e = &line.text_elements[i];
            proof {
                assert(elems0[i as int] == line.text_elements@[i as int]@);
            }
            let mut fixed = clone_text_element(e);
            if fixed.element_type.is_none() {
                match line.line_type {
                    Some(SPType::SP_ACTION) => {
                        fixed.element_type = Some(SPType::SP_ACTION);
                    },
                    Some(SPType::SP_CHARACTER) => {
                        if last == Some(SPType::SP_CHARACTER_EXTENSION) {
                            fixed.element_type = Some(SPType::SP_CHARACTER_EXTENSION);
                        } else {
                            fixed.element_type = Some(SPType::SP_CHARACTER);
                        }
                    },
                    Some(SPType::SP_DIALOGUE) => {
                        fixed.element_type = Some(SPType::SP_DIALOGUE);
                    },
                    _ => {},
                }
            }
            if line.line_type == Some(SPType::SP_PAGE_HEADER) && fixed.element_type == Some(
                SPType::NON_CONTENT_TOP,
            ) {
                fixed.element_type = Some(SPType::SP_PAGE_REVISION_LABEL);
            }
            last = fixed.element_type;
            out.push(fixed);
            i += 1;
            proof {
                assert(fix_body_at(elems0, i as int, line@.line_type).0 == fix_body_at(
                    elems0,
                    i - 1,
                    line@.line_type,
                ).0.push(
                    fix_elem_body(
                        elems0[i - 1],
                        line@.line_type,
                        fix_body_at(elems0, i - 1, line@.line_type).1,
                    ),
                ));
                assert(out@[i - 1]@ == fix_elem_body(
                    elems0[i - 1],
                    line@.line_type,
                    fix_body_at(elems0, i - 1, line@.line_type).1,
                ));
                assert(Seq::new(out@.len(), |j: int| out@[j]@) =~= fix_body_at(
                    elems0,
                    i as int,
                    line@.line_type,
                ).0);
            }
        }
        line.text_elements = out;
        proof {
            assert(final(line)@.text_elements =~= fix_elements_spec(old(line)@).text_elements);
            assert(final(line)@ =~= fix_elements_spec(old(line)@));
        }
    }
}

/// The whole untagged-element repair of a completed line.
pub open spec fn fix_elements_spec(line: LineV) -> LineV {
    if line.line_type == scene_heading_line_tag() {
        LineV {
            text_elements: Seq::new(
                line.text_elements.len(),
                |i: int| fix_elem_heading(line.text_elements[i], line.scene_number),
            ),
            ..line
        }
    } else {
        LineV {
            text_elements: fix_body_at(
                line.text_elements,
                line.text_elements.len() as int,
                line.line_type,
            ).0,
            ..line
        }
    }
}

/// One repaired element is a fixed point of the repair, under the same
/// preceding tag.
proof fn lemma_fix_elem_body_idempotent(
    e: TextElementV,
    line_type: Option<SPType>,
    last: Option<SPType>,
)
    ensures
        fix_elem_body(fix_elem_body(e, line_type, last), line_type, last) == fix_elem_body(
            e,
            line_type,
            last,
        ),
{
}

/// The repaired prefix of a line is the prefix of the repaired line.
proof fn lemma_fix_body_prefix(elems: Seq<TextElementV>, line_type: Option<SPType>, i: int, n: int)
    requires
        0 <= i <= n <= elems.len(),
    ensures
        fix_body_at(elems, n, line_type).0.len() == n,
        fix_body_at(elems, n, line_type).0.subrange(0, i) == fix_body_at(elems, i, line_type).0,
    decreases n,
{
    if n > 0 {
        lemma_fix_body_prefix(elems, line_type, if i < n {
            i
        } else {
            n - 1
        }, n - 1);
        if i < n {
            assert(fix_body_at(elems, n, line_type).0.subrange(0, i) =~= fix_body_at(
                elems,
                n - 1,
                line_type,
            ).0.subrange(0, i));
        } else {
            assert(fix_body_at(elems, n, line_type).0.subrange(0, n) =~= fix_body_at(
                elems,
                n,
                line_type,
            ).0);
        }
    } else {
        assert(fix_body_at(elems, 0, line_type).0.subrange(0, 0) =~= fix_body_at(
            elems,
            0,
            line_type,
        ).0);
    }
}

/// Repairing an already repaired prefix reproduces it, with the same
/// carried tag.
proof fn lemma_fix_body_twice(elems: Seq<TextElementV>, line_type: Option<SPType>, i: int)
    requires
        0 <= i <= elems.len(),
    ensures
        ({
            let fixed = fix_body_at(elems, elems.len() as int, line_type).0;
            fix_body_at(fixed, i, line_type) == (
                fixed.subrange(0, i),
                fix_body_at(elems, i, line_type).1,
            )
        }),
    decreases i,
{
    let n = elems.len() as int;
    let fixed = fix_body_at(elems, n, line_type).0;
    lemma_fix_body_prefix(elems, line_type, i, n);
    if i == 0 {
        assert(fix_body_at(fixed, 0, line_type).0 =~= fixed.subrange(0, 0));
    } else {
        lemma_fix_body_twice(elems, line_type, i - 1);
        lemma_fix_body_prefix(elems, line_type, i - 1, n);
        let last1 = fix_body_at(elems, i - 1, line_type).1;
        assert(fixed.subrange(0, i)[i - 1] == fixed[i - 1]);
        assert(fix_body_at(elems, i, line_type).0 == fix_body_at(elems, i - 1, line_type).0.push(
            fix_elem_body(elems[i - 1], line_type, last1),
        ));
        assert(fixed[i - 1] == fix_body_at(elems, i, line_type).0[i - 1]);
        assert(fixed[i - 1] == fix_elem_body(elems[i - 1], line_type, last1));
        lemma_fix_elem_body_idempotent(elems[i - 1], line_type, last1);
        assert(fix_elem_body(fixed[i - 1], line_type, last1) == fixed[i - 1]);
        assert(fix_body_at(fixed, i, line_type).0 =~= fixed.subrange(0, i));
        assert(fix_body_at(fixed, i, line_type).1 == fix_body_at(elems, i, line_type).1);
    }
}

/// Repairing a line's untagged elements a second time is a no-op.
pub proof fn lemma_fix_elements_idempotent(line: LineV)
    ensures
        fix_elements_spec(fix_elements_spec(line)) == fix_elements_spec(line),
{
    let line1 = fix_elements_spec(line);
    if line.line_type == scene_heading_line_tag() {
        assert forall|i: int| 0 <= i < line1.text_elements.len() implies fix_elem_heading(
            line1.text_elements[i],
            line1.scene_number,
        ) == line1.text_elements[i] by {
            assert(line1.text_elements[i] == fix_elem_heading(
                line.text_elements[i],
                line.scene_number,
            ));
        }
        assert(fix_elements_spec(line1).text_elements =~= line1.text_elements);
        assert(fix_elements_spec(line1) =~= line1);
    } else {
        let n = line.text_elements.len() as int;
        lemma_fix_body_prefix(line.text_elements, line.line_type, n, n);
        lemma_fix_body_twice(line.text_elements, line.line_type, n);
        assert(line1.text_elements.len() == n);
        assert(fix_body_at(line1.text_elements, n, line.line_type).0 =~= line1.text_elements);
        assert(fix_elements_spec(line1).text_elements =~= line1.text_elements);
        assert(fix_elements_spec(line1) =~= line1);
    }
}

} // verus!
