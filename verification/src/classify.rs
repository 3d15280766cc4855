//! The word classifier: the semantic role of one positioned word, decided
//! from the tag of the word before it on the line, the tag the line has
//! already committed to, the indentation profile, and the vocabularies.
//!
//! The decision procedure is ordered: a line-context override first, then
//! continuation rules keyed on the previous word's tag, then a fresh
//! classification from the word's position alone.

use vstd::prelude::*;
use crate::pdf_document::{ElementIndentations, Word, WordV};
use crate::screenplay_document::{
    environment_from_str_spec, is_time_of_day_spec, scene_heading_line_tag, Environment,
    EnvironmentStrings, EnvironmentStringsV, Line, SceneHeadingElement, SPType, TextElementV,
    TimeOfDayCollection, TimeOfDayCollectionV,
};
use crate::strings::{
    seq_contains_sub, seq_is_prefix, seq_is_suffix, str_contains, str_ends_with, str_eq,
    str_starts_with,
};

verus! {

/// A horizontal position hits a column anchor when it is within one
/// hundredth of a point of it.
pub open spec fn within_tolerance(x: int, target: int) -> bool {
    -1 <= x - target && x - target <= 1
}

/// The tag of the last element of the line so far; `NONE` when the line is
/// empty or the last element is untagged.
pub open spec fn prev_elem_type(elems: Seq<TextElementV>) -> SPType {
    if elems.len() == 0 {
        SPType::NONE
    } else {
        match elems.last().element_type {
            Some(t) => t,
            None => SPType::NONE,
        }
    }
}

/// The tag of the element before the last one; `NONE` when there is no
/// such element or it is untagged.
pub open spec fn before_prev_elem_type(elems: Seq<TextElementV>) -> SPType {
    if elems.len() < 2 {
        SPType::NONE
    } else {
        match elems[elems.len() - 2].element_type {
            Some(t) => t,
            None => SPType::NONE,
        }
    }
}

/// Fresh classification of a word from its position alone, applied when no
/// continuation rule fired.
///
/// Inside the vertical content band, margin positions give scene numbers
/// or revision markers; column anchors are tested only while the line has
/// not committed to a tag yet. Above the band the word is page chrome or a
/// page number; below it, a MORE/CONTINUED notice or bottom chrome.
pub open spec fn fresh_word_type_spec(
    w: WordV,
    line_type: Option<SPType>,
    ind: ElementIndentations,
    env: EnvironmentStringsV,
    marker: Seq<char>,
) -> Option<SPType> {
    if ind.bottom < w.y && w.y < ind.top {
        if w.x < ind.left {
            Some(SPType::SP_SCENENUM)
        } else if w.x >= ind.right {
            if w.text == marker {
                Some(SPType::SP_LINE_REVISION_MARKER)
            } else {
                Some(SPType::SP_SCENENUM)
            }
        } else if line_type is None {
            if within_tolerance(w.x, ind.action as int) {
                if environment_from_str_spec(env, w.text) is Some {
                    Some(SPType::SP_SCENE_HEADING(SceneHeadingElement::Environment))
                } else {
                    Some(SPType::SP_ACTION)
                }
            } else if within_tolerance(w.x, ind.character as int) {
                Some(SPType::SP_CHARACTER)
            } else if within_tolerance(w.x, ind.dialogue as int) {
                Some(SPType::SP_DIALOGUE)
            } else if within_tolerance(w.x, ind.parenthetical as int) && seq_is_prefix(
                "("@,
                w.text,
            ) {
                Some(SPType::SP_PARENTHETICAL)
            } else {
                None
            }
        } else {
            None
        }
    } else if w.y >= ind.top {
        if 3 * w.x < ind.pagewidth {
            Some(SPType::NON_CONTENT_TOP)
        } else if 4 * (ind.pagewidth - w.x) < ind.pagewidth && seq_is_suffix(
            "."@,
            w.text,
        ) {
            Some(SPType::SP_PAGENUM)
        } else {
            Some(SPType::NON_CONTENT_TOP)
        }
    } else {
        if seq_contains_sub("(MORE)"@, w.text) || seq_contains_sub("(CONTINUED)"@, w.text)
            || seq_contains_sub("(CONT'D)"@, w.text) {
            Some(SPType::SP_MORE_CONTINUED)
        } else {
            Some(SPType::NON_CONTENT_BOTTOM)
        }
    }
}

/// The classifier's whole decision for one word.
pub open spec fn word_type_spec(
    w: WordV,
    elems: Seq<TextElementV>,
    line_type: Option<SPType>,
    ind: ElementIndentations,
    tod: TimeOfDayCollectionV,
    env: EnvironmentStringsV,
    marker: Seq<char>,
) -> Option<SPType> {
    if line_type == scene_heading_line_tag() && w.x >= ind.right {
        if w.text == marker {
            Some(SPType::SP_LINE_REVISION_MARKER)
        } else {
            Some(SPType::SP_SCENENUM)
        }
    } else {
        match prev_elem_type(elems) {
            SPType::SP_SCENE_HEADING(SceneHeadingElement::TimeOfDay) => {
                if w.text == "-"@ {
                    Some(SPType::SP_SCENE_HEADING(SceneHeadingElement::Separator))
                } else {
                    None
                }
            },
            SPType::SP_SCENE_HEADING(SceneHeadingElement::Separator) => {
                if is_time_of_day_spec(tod, w.text) {
                    Some(SPType::SP_SCENE_HEADING(SceneHeadingElement::TimeOfDay))
                } else if w.text == "-"@ {
                    Some(SPType::SP_SCENE_HEADING(SceneHeadingElement::Separator))
                } else {
                    match before_prev_elem_type(elems) {
                        SPType::NONE => None,
                        SPType::SP_SCENE_HEADING(SceneHeadingElement::Location) => Some(
                            SPType::SP_SCENE_HEADING(SceneHeadingElement::SubLocation),
                        ),
                        _ => Some(SPType::SP_SCENE_HEADING(SceneHeadingElement::SlugOther)),
                    }
                }
            },
            SPType::SP_PARENTHETICAL => Some(SPType::SP_PARENTHETICAL),
            SPType::SP_SCENE_HEADING(SceneHeadingElement::SubLocation) => {
                if w.text == "-"@ {
                    Some(SPType::SP_SCENE_HEADING(SceneHeadingElement::Separator))
                } else {
                    Some(SPType::SP_SCENE_HEADING(SceneHeadingElement::SubLocation))
                }
            },
            SPType::SP_SCENE_HEADING(SceneHeadingElement::Location) => {
                if w.text == "-"@ {
                    Some(SPType::SP_SCENE_HEADING(SceneHeadingElement::Separator))
                } else {
                    Some(SPType::SP_SCENE_HEADING(SceneHeadingElement::Location))
                }
            },
            SPType::SP_SCENE_HEADING(SceneHeadingElement::Environment) => Some(
                SPType::SP_SCENE_HEADING(SceneHeadingElement::Location),
            ),
            SPType::SP_CHARACTER => {
                if seq_is_prefix("("@, w.text) {
                    Some(SPType::SP_CHARACTER_EXTENSION)
                } else if w.text == marker {
                    Some(SPType::SP_LINE_REVISION_MARKER)
                } else {
                    Some(SPType::SP_CHARACTER)
                }
            },
            SPType::SP_DD_L_CHARACTER => {
                if seq_is_prefix("("@, w.text) {
                    Some(SPType::SP_DD_L_CHARACTER_EXTENSION)
                } else {
                    Some(SPType::SP_DD_L_CHARACTER)
                }
            },
            SPType::SP_DD_R_CHARACTER => {
                if seq_is_prefix("("@, w.text) {
                    Some(SPType::SP_DD_R_CHARACTER_EXTENSION)
                } else {
                    Some(SPType::SP_DD_R_CHARACTER)
                }
            },
            SPType::SP_CHARACTER_EXTENSION => Some(SPType::SP_CHARACTER_EXTENSION),
            SPType::SP_DD_L_CHARACTER_EXTENSION => Some(SPType::SP_DD_L_CHARACTER_EXTENSION),
            SPType::SP_DD_R_CHARACTER_EXTENSION => Some(SPType::SP_DD_R_CHARACTER_EXTENSION),
            _ => fresh_word_type_spec(w, line_type, ind, env, marker),
        }
    }
}

fn hits_column(x: u32, target: u32) -> (r: bool)
    ensures
        r == within_tolerance(x as int, target as int),
{
    if x >= target {
        x - target <= 1
    } else {
        target - x <= 1
    }
}

/// The semantic role of `pdf_word`, given the line built so far.
pub fn get_type_for_word(
    pdf_word: &Word,
    new_line: &Line,
    element_indentations: &ElementIndentations,
    time_of_day_strs: &TimeOfDayCollection,
    environment_strs: &EnvironmentStrings,
    r_marker: &String,
) -> (r: Option<SPType>)
    ensures
        r == word_type_spec(
            pdf_word@,
            new_line@.text_elements,
            new_line@.line_type,
            *element_indentations,
            time_of_day_strs@,
            environment_strs@,
            r_marker@,
        ),
{
    let ind = *element_indentations;
    let x = pdf_word.position.x;
    let y = pdf_word.position.y;

    if new_line.line_type == Some(SPType::SP_SCENE_HEADING(SceneHeadingElement::Line)) && x
        >= ind.right {
        if pdf_word.text == *r_marker {
            return Some(SPType::SP_LINE_REVISION_MARKER);
        }
        return Some(SPType::SP_SCENENUM);
    }

    let n = new_line.text_elements.len();
    let previous_element_type: SPType = if n == 0 {
        SPType::NONE
    } else {
        match new_line.text_elements[n - 1].element_type {
            Some(t) => t,
            None => SPType::NONE,
        }
    };
    proof {
        assert(new_line@.text_elements.len() == n);
        if n > 0 {
            assert(new_line@.text_elements.last() == new_line.text_elements@[n - 1]@);
        }
        assert(previous_element_type == prev_elem_type(new_line@.text_elements));
    }

    match previous_element_type {
        SPType::SP_SCENE_HEADING(SceneHeadingElement::TimeOfDay) => {
            if str_eq(pdf_word.text.as_str(), "-") {
                Some(SPType::SP_SCENE_HEADING(SceneHeadingElement::Separator))
            } else {
                None
            }
        },
        SPType::SP_SCENE_HEADING(SceneHeadingElement::Separator) => {
            if time_of_day_strs.is_time_of_day(&pdf_word.text) {
                return Some(SPType::SP_SCENE_HEADING(SceneHeadingElement::TimeOfDay));
            }
            if str_eq(pdf_word.text.as_str(), "-") {
                return Some(SPType::SP_SCENE_HEADING(SceneHeadingElement::Separator));
            }
            let type_before_separator: SPType = if n < 2 {
                SPType::NONE
            } else {
                match new_line.text_elements[n - 2].element_type {
                    Some(t) => t,
                    None => SPType::NONE,
                }
            };
            proof {
                if n >= 2 {
                    assert(new_line@.text_elements[n - 2] == new_line.text_elements@[n - 2]@);
                }
                assert(type_before_separator == before_prev_elem_type(new_line@.text_elements));
            }
            match type_before_separator {
                SPType::NONE => None,
                SPType::SP_SCENE_HEADING(SceneHeadingElement::Location) => Some(
                    SPType::SP_SCENE_HEADING(SceneHeadingElement::SubLocation),
                ),
                _ => Some(SPType::SP_SCENE_HEADING(SceneHeadingElement::SlugOther)),
            }
        },
        SPType::SP_PARENTHETICAL => Some(SPType::SP_PARENTHETICAL),
        SPType::SP_SCENE_HEADING(SceneHeadingElement::SubLocation) => {
            if str_eq(pdf_word.text.as_str(), "-") {
                Some(SPType::SP_SCENE_HEADING(SceneHeadingElement::Separator))
            } else {
                Some(SPType::SP_SCENE_HEADING(SceneHeadingElement::SubLocation))
            }
        },
        SPType::SP_SCENE_HEADING(SceneHeadingElement::Location) => {
            if str_eq(pdf_word.text.as_str(), "-") {
                Some(SPType::SP_SCENE_HEADING(SceneHeadingElement::Separator))
            } else {
                Some(SPType::SP_SCENE_HEADING(SceneHeadingElement::Location))
            }
        },
        SPType::SP_SCENE_HEADING(SceneHeadingElement::Environment) => Some(
            SPType::SP_SCENE_HEADING(SceneHeadingElement::Location),
        ),
        SPType::SP_CHARACTER => {
            if str_starts_with(pdf_word.text.as_str(), "(") {
                Some(SPType::SP_CHARACTER_EXTENSION)
            } else if pdf_word.text == *r_marker {
                Some(SPType::SP_LINE_REVISION_MARKER)
            } else {
                Some(SPType::SP_CHARACTER)
            }
        },
        SPType::SP_DD_L_CHARACTER => {
            if str_starts_with(pdf_word.text.as_str(), "(") {
                Some(SPType::SP_DD_L_CHARACTER_EXTENSION)
            } else {
                Some(SPType::SP_DD_L_CHARACTER)
            }
        },
        SPType::SP_DD_R_CHARACTER => {
            if str_starts_with(pdf_word.text.as_str(), "(") {
                Some(SPType::SP_DD_R_CHARACTER_EXTENSION)
            } else {
                Some(SPType::SP_DD_R_CHARACTER)
            }
        },
        SPType::SP_CHARACTER_EXTENSION => Some(SPType::SP_CHARACTER_EXTENSION),
        SPType::SP_DD_L_CHARACTER_EXTENSION => Some(SPType::SP_DD_L_CHARACTER_EXTENSION),
        SPType::SP_DD_R_CHARACTER_EXTENSION => Some(SPType::SP_DD_R_CHARACTER_EXTENSION),
        _ => {
            // Fresh classification from position alone.
            if ind.bottom < y && y < ind.top {
                if x < ind.left {
                    Some(SPType::SP_SCENENUM)
                } else if x >= ind.right {
                    if pdf_word.text == *r_marker {
                        Some(SPType::SP_LINE_REVISION_MARKER)
                    } else {
                        Some(SPType::SP_SCENENUM)
                    }
                } else if new_line.line_type.is_none() {
                    if hits_column(x, ind.action) {
                        if Environment::from_str(&pdf_word.text, environment_strs).is_some() {
                            Some(SPType::SP_SCENE_HEADING(SceneHeadingElement::Environment))
                        } else {
                            Some(SPType::SP_ACTION)
                        }
                    } else if hits_column(x, ind.character) {
                        Some(SPType::SP_CHARACTER)
                    } else if hits_column(x, ind.dialogue) {
                        Some(SPType::SP_DIALOGUE)
                    } else if hits_column(x, ind.parenthetical) && str_starts_with(
                        pdf_word.text.as_str(),
                        "(",
                    ) {
                        Some(SPType::SP_PARENTHETICAL)
                    } else {
                        None
                    }
                } else {
                    None
                }
            } else if y >= ind.top {
                if 3 * (x as u64) < ind.pagewidth as u64 {
                    Some(SPType::NON_CONTENT_TOP)
                } else if 4 * ((ind.pagewidth as i64) - (x as i64)) < ind.pagewidth as i64
                    && str_ends_with(pdf_word.text.as_str(), ".") {
                    Some(SPType::SP_PAGENUM)
                } else {
                    Some(SPType::NON_CONTENT_TOP)
                }
            } else {
                if str_contains(pdf_word.text.as_str(), "(MORE)") || str_contains(
                    pdf_word.text.as_str(),
                    "(CONTINUED)",
                ) || str_contains(pdf_word.text.as_str(), "(CONT'D)") {
                    Some(SPType::SP_MORE_CONTINUED)
                } else {
                    Some(SPType::NON_CONTENT_BOTTOM)
                }
            }
        },
    }
}

} // verus!
