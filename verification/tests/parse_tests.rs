// Parsing tests: the end-to-end scenarios on mock positioned input, the
// boundary behaviours of the classifier, and the idempotence of the
// untagged-element repair. All measurements are in hundredths of a point.

use screenplay_doc_parser_rs::assemble::fix_line_elements;
use screenplay_doc_parser_rs::pdf_document::{
    ElementIndentations, Line as PdfLine, Page as PdfPage, PDFDocument, TextPosition, Word,
};
use screenplay_doc_parser_rs::pdf_parser::get_screenplay_doc_from_pdf_obj;
use screenplay_doc_parser_rs::reports;
use screenplay_doc_parser_rs::screenplay_document::{
    Character, CharacterID, Environment, SceneHeadingElement, SPType, TextElement, TimeOfDay,
};

fn create_pdfword(text: &str, x: u32, y: u32) -> Word {
    Word {
        text: text.to_string(),
        bbox_width: text.len() as u32 * 720,
        position: TextPosition { x, y },
        font_size: 1200,
    }
}

fn create_pdfline_with_word(text: &str, x: u32, y: u32) -> PdfLine {
    PdfLine { words: vec![create_pdfword(text, x, y)] }
}

// A scene-heading line: the environment marker at the action column, the
// following words one cell apart, and the scene number at the right margin.
fn get_scene_heading_line(
    env: &str,
    text: &str,
    scn_num: &str,
    indentations: &ElementIndentations,
    y: u32,
) -> PdfLine {
    let mut line = PdfLine { words: Vec::new() };
    line.words.push(create_pdfword(env, indentations.action, y));
    let mut last_len = env.len() as u32;
    let mut last_x = indentations.action;
    for word in text.split_whitespace() {
        let x = last_x + last_len * 720 + 720;
        line.words.push(create_pdfword(word, x, y));
        last_len = word.len() as u32;
        last_x = x;
    }
    line.words.push(create_pdfword(scn_num, indentations.right, y));
    line
}

#[test]
fn all_screenplay_element_types() {
    let indentations = ElementIndentations::us_letter_default();
    let y: u32 = 21600;

    let mut new_page = PdfPage { lines: Vec::new() };
    new_page.lines.push(create_pdfline_with_word("Action!", indentations.action, y));
    new_page.lines.push(create_pdfline_with_word("CHARACTER", indentations.character, y));
    new_page.lines.push(create_pdfline_with_word("(wryly)", indentations.parenthetical, y));
    new_page.lines.push(create_pdfline_with_word("Dialogue", indentations.dialogue, y));

    let pn = "256ABC.";
    let mut page_num_line = PdfLine { words: Vec::new() };
    page_num_line.words.push(create_pdfword("(26/04/25)", indentations.character, indentations.top));
    page_num_line.words.push(create_pdfword(
        pn,
        54000 - 720 * pn.len() as u32,
        indentations.top,
    ));
    new_page.lines.push(page_num_line);

    let mut revised_line = PdfLine { words: Vec::new() };
    revised_line.words.push(create_pdfword("revised_scn", indentations.action, y));
    revised_line.words.push(create_pdfword("*", 54000 + 1440, y));
    new_page.lines.push(revised_line);

    new_page.lines.push(create_pdfline_with_word("(MORE)", indentations.parenthetical, 6000));

    new_page.lines.push(get_scene_heading_line(
        "INT.",
        "HOUSE - DAY - CONTINUOUS",
        "*46G*",
        &indentations,
        y,
    ));

    let mock_pdf = PDFDocument { pages: vec![new_page] };
    let parsed_doc = get_screenplay_doc_from_pdf_obj(mock_pdf, None, None, None, None).unwrap();

    assert_eq!(parsed_doc.pages.len(), 1);
    let lines = &parsed_doc.pages[0].lines;
    assert_eq!(lines.len(), 8);
    assert_eq!(lines[0].line_type, Some(SPType::SP_ACTION));
    assert_eq!(lines[1].line_type, Some(SPType::SP_CHARACTER));
    assert_eq!(lines[2].line_type, Some(SPType::SP_PARENTHETICAL));
    assert_eq!(lines[3].line_type, Some(SPType::SP_DIALOGUE));
    assert_eq!(lines[4].line_type, Some(SPType::SP_PAGE_HEADER));
    assert_eq!(
        parsed_doc.pages[0].page_number.as_ref().map(|n| n.0.clone()),
        Some("256ABC.".to_string())
    );
    assert_eq!(lines[5].line_type, Some(SPType::SP_ACTION));
    assert!(lines[5].revised);
    assert_eq!(lines[6].line_type, None);
    assert_eq!(
        lines[6].text_elements[0].element_type,
        Some(SPType::SP_MORE_CONTINUED)
    );
    assert_eq!(
        lines[7].line_type,
        Some(SPType::SP_SCENE_HEADING(SceneHeadingElement::Line))
    );
    assert_eq!(lines[7].scene_number, Some("46G".to_string()));
    assert!(lines[7].revised);
    assert_eq!(parsed_doc.scenes.len(), 1);
}

#[test]
fn scene_parsing() {
    let indentations = ElementIndentations::us_letter_default();
    let y: u32 = 21600;

    let mut first_page = PdfPage { lines: Vec::new() };
    first_page.lines.push(get_scene_heading_line(
        "INT.",
        "HOUSE - NIGHT - CONTINUOUS",
        "1A",
        &indentations,
        y,
    ));

    let mut second_page = PdfPage { lines: Vec::new() };
    second_page.lines.push(get_scene_heading_line(
        "EXT.",
        "BASEBALL FIELD - PITCHER'S MOUND - EARLIER - NIGHT",
        "6G",
        &indentations,
        y,
    ));

    let mock_pdf = PDFDocument { pages: vec![first_page, second_page] };
    let parsed_doc = get_screenplay_doc_from_pdf_obj(mock_pdf, None, None, None, None).unwrap();

    assert_eq!(parsed_doc.pages.len(), 2);
    assert_eq!(parsed_doc.scenes.len(), 2);
    assert_eq!(parsed_doc.scenes[0].environment, Environment::Int);
    assert_eq!(parsed_doc.scenes[1].environment, Environment::Ext);
    assert_eq!(
        parsed_doc.scenes[0].number.as_ref().map(|n| n.0.clone()),
        Some("1A".to_string())
    );
    assert_eq!(
        parsed_doc.scenes[1].number.as_ref().map(|n| n.0.clone()),
        Some("6G".to_string())
    );
    assert_eq!(
        parsed_doc.scenes[0].story_time_of_day,
        Some(TimeOfDay::Night("NIGHT".to_string()))
    );
}

#[test]
fn scenario_single_action_line() {
    let page = PdfPage { lines: vec![create_pdfline_with_word("Action!", 10800, 21600)] };
    let doc = get_screenplay_doc_from_pdf_obj(
        PDFDocument { pages: vec![page] },
        None,
        None,
        None,
        None,
    )
    .unwrap();
    assert_eq!(doc.pages.len(), 1);
    assert_eq!(doc.pages[0].lines.len(), 1);
    assert_eq!(doc.pages[0].lines[0].line_type, Some(SPType::SP_ACTION));
    assert_eq!(
        doc.pages[0].lines[0].text_elements[0].element_type,
        Some(SPType::SP_ACTION)
    );
    assert_eq!(doc.scenes.len(), 0);
    assert_eq!(doc.characters.len(), 0);
}

#[test]
fn scenario_scene_heading_with_sublocation_and_time() {
    let y: u32 = 21600;
    let words = vec![
        create_pdfword("INT.", 10800, y),
        create_pdfword("HOUSE", 14400, y),
        create_pdfword("-", 20000, y),
        create_pdfword("KITCHEN", 21600, y),
        create_pdfword("-", 28000, y),
        create_pdfword("DAY", 29600, y),
        create_pdfword("1A", 54000, y),
    ];
    let page = PdfPage { lines: vec![PdfLine { words }] };
    let doc = get_screenplay_doc_from_pdf_obj(
        PDFDocument { pages: vec![page] },
        None,
        None,
        None,
        None,
    )
    .unwrap();
    let line = &doc.pages[0].lines[0];
    assert_eq!(
        line.line_type,
        Some(SPType::SP_SCENE_HEADING(SceneHeadingElement::Line))
    );
    assert_eq!(line.scene_number, Some("1A".to_string()));
    assert_eq!(doc.scenes.len(), 1);
    let scene = &doc.scenes[0];
    assert_eq!(scene.environment, Environment::Int);
    assert_eq!(scene.story_locations.len(), 2);
    let root = &doc.locations[scene.story_locations[0].0 as usize];
    let sub = &doc.locations[scene.story_locations[1].0 as usize];
    assert_eq!(root.string, "INT. HOUSE");
    assert_eq!(sub.string, "KITCHEN");
    assert_eq!(scene.story_time_of_day, Some(TimeOfDay::Day("DAY".to_string())));
}

#[test]
fn scenario_character_cue_and_dialogue() {
    let line1 = PdfLine {
        words: vec![create_pdfword("CHARLIE", 26640, 36000), create_pdfword("(V.O.)", 33240, 36000)],
    };
    let line2 = PdfLine {
        words: vec![
            create_pdfword("I", 18000, 34800),
            create_pdfword("always", 19440, 34800),
        ],
    };
    let page = PdfPage { lines: vec![line1, line2] };
    let doc = get_screenplay_doc_from_pdf_obj(
        PDFDocument { pages: vec![page] },
        None,
        None,
        None,
        None,
    )
    .unwrap();
    let l1 = &doc.pages[0].lines[0];
    assert_eq!(l1.line_type, Some(SPType::SP_CHARACTER));
    assert_eq!(l1.text_elements[0].element_type, Some(SPType::SP_CHARACTER));
    assert_eq!(
        l1.text_elements[1].element_type,
        Some(SPType::SP_CHARACTER_EXTENSION)
    );
    assert_eq!(doc.pages[0].lines[1].line_type, Some(SPType::SP_DIALOGUE));

    assert_eq!(doc.characters.len(), 1);
    assert_eq!(doc.characters[0].name, "CHARLIE");

    let charlie = Character { name: "CHARLIE".to_string(), id: CharacterID(0) };
    let lines = reports::get_all_lines_of_dialogue_for_character(&doc, &charlie).unwrap();
    assert_eq!(lines.len(), 1);
    assert_eq!(lines[0].0.page, 0);
    assert_eq!(lines[0].0.line, 1);
}

#[test]
fn scenario_page_header() {
    let page = PdfPage { lines: vec![create_pdfline_with_word("17A.", 52000, 72000)] };
    let doc = get_screenplay_doc_from_pdf_obj(
        PDFDocument { pages: vec![page] },
        None,
        None,
        None,
        None,
    )
    .unwrap();
    assert_eq!(
        doc.pages[0].page_number.as_ref().map(|n| n.0.clone()),
        Some("17A.".to_string())
    );
    assert_eq!(doc.pages[0].lines[0].line_type, Some(SPType::SP_PAGE_HEADER));
}

#[test]
fn scenario_revision_marker() {
    let y: u32 = 21600;
    let words = vec![
        create_pdfword("INT.", 10800, y),
        create_pdfword("HOUSE", 14400, y),
        create_pdfword("-", 20000, y),
        create_pdfword("KITCHEN", 21600, y),
        create_pdfword("-", 28000, y),
        create_pdfword("DAY", 29600, y),
        create_pdfword("1A", 54000, y),
        create_pdfword("*", 56800, y),
    ];
    let page = PdfPage { lines: vec![PdfLine { words }] };
    let doc = get_screenplay_doc_from_pdf_obj(
        PDFDocument { pages: vec![page] },
        None,
        None,
        None,
        None,
    )
    .unwrap();
    let line = &doc.pages[0].lines[0];
    assert!(line.revised);
    assert_eq!(line.scene_number, Some("1A".to_string()));
    assert!(doc.scenes[0].revised);
    assert_eq!(
        doc.scenes[0].number.as_ref().map(|n| n.0.clone()),
        Some("1A".to_string())
    );
}

#[test]
fn scenario_two_scenes_share_root_location() {
    let indentations = ElementIndentations::us_letter_default();
    let y: u32 = 21600;
    let page1 = PdfPage {
        lines: vec![get_scene_heading_line("INT.", "HOUSE - KITCHEN - DAY", "1", &indentations, y)],
    };
    let page2 = PdfPage {
        lines: vec![get_scene_heading_line(
            "INT.",
            "HOUSE - LIVING ROOM - NIGHT",
            "2",
            &indentations,
            y,
        )],
    };
    let doc = get_screenplay_doc_from_pdf_obj(
        PDFDocument { pages: vec![page1, page2] },
        None,
        None,
        None,
        None,
    )
    .unwrap();
    assert_eq!(doc.scenes.len(), 2);
    let roots: Vec<usize> = doc
        .locations
        .iter()
        .enumerate()
        .filter(|(_, n)| n.superlocation.is_none())
        .map(|(i, _)| i)
        .collect();
    assert_eq!(roots.len(), 1);
    let root = &doc.locations[roots[0]];
    assert_eq!(root.string, "INT. HOUSE");
    assert_eq!(root.sublocations.len(), 2);
    assert_eq!(doc.scenes[0].story_locations[0], doc.scenes[1].story_locations[0]);
}

#[test]
fn boundary_indent_tolerance_takes_column() {
    // One hundredth of a point beside the action anchor still lands there.
    let page = PdfPage { lines: vec![create_pdfline_with_word("Nudge", 10801, 21600)] };
    let doc = get_screenplay_doc_from_pdf_obj(
        PDFDocument { pages: vec![page] },
        None,
        None,
        None,
        None,
    )
    .unwrap();
    assert_eq!(doc.pages[0].lines[0].line_type, Some(SPType::SP_ACTION));
}

#[test]
fn boundary_word_at_top_is_above_content() {
    // y exactly at the top margin is page chrome, not content.
    let page = PdfPage { lines: vec![create_pdfline_with_word("hello", 10800, 72000)] };
    let doc = get_screenplay_doc_from_pdf_obj(
        PDFDocument { pages: vec![page] },
        None,
        None,
        None,
        None,
    )
    .unwrap();
    assert_eq!(
        doc.pages[0].lines[0].text_elements[0].element_type,
        Some(SPType::NON_CONTENT_TOP)
    );
    assert_eq!(doc.pages[0].lines[0].line_type, None);
}

#[test]
fn boundary_heading_without_time_gives_single_location() {
    let y: u32 = 21600;
    let words = vec![create_pdfword("INT.", 10800, y), create_pdfword("HOUSE", 14400, y)];
    let page = PdfPage { lines: vec![PdfLine { words }] };
    let doc = get_screenplay_doc_from_pdf_obj(
        PDFDocument { pages: vec![page] },
        None,
        None,
        None,
        None,
    )
    .unwrap();
    assert_eq!(doc.scenes.len(), 1);
    assert_eq!(doc.scenes[0].story_locations.len(), 1);
    assert_eq!(doc.scenes[0].story_time_of_day, None);
    assert_eq!(
        doc.locations[doc.scenes[0].story_locations[0].0 as usize].string,
        "INT. HOUSE"
    );
}

#[test]
fn boundary_blank_page_produces_no_page() {
    let blank = PdfPage { lines: Vec::new() };
    let real = PdfPage { lines: vec![create_pdfline_with_word("Action!", 10800, 21600)] };
    let doc = get_screenplay_doc_from_pdf_obj(
        PDFDocument { pages: vec![blank, real] },
        None,
        None,
        None,
        None,
    )
    .unwrap();
    assert_eq!(doc.pages.len(), 1);
}

#[test]
fn custom_marker_is_stripped_from_scene_number() {
    // A '+' revision marker wraps the margin number; detection and
    // stripping both honour the configured glyph.
    let y: u32 = 21600;
    let words = vec![
        create_pdfword("INT.", 10800, y),
        create_pdfword("HOUSE", 14400, y),
        create_pdfword("+7B+", 54000, y),
    ];
    let page = PdfPage { lines: vec![PdfLine { words }] };
    let doc = get_screenplay_doc_from_pdf_obj(
        PDFDocument { pages: vec![page] },
        None,
        Some("+".to_string()),
        None,
        None,
    )
    .unwrap();
    let line = &doc.pages[0].lines[0];
    assert!(line.revised);
    assert_eq!(line.scene_number, Some("7B".to_string()));
}

#[test]
fn intervening_action_line_closes_the_speech() {
    let line1 = PdfLine { words: vec![create_pdfword("CHARLIE", 26640, 36000)] };
    let action = PdfLine { words: vec![create_pdfword("Thunder.", 10800, 34800)] };
    let line3 = PdfLine { words: vec![create_pdfword("Orphaned", 18000, 33600)] };
    let page = PdfPage { lines: vec![line1, action, line3] };
    let doc = get_screenplay_doc_from_pdf_obj(
        PDFDocument { pages: vec![page] },
        None,
        None,
        None,
        None,
    )
    .unwrap();
    assert_eq!(doc.pages[0].lines[1].line_type, Some(SPType::SP_ACTION));
    assert_eq!(doc.pages[0].lines[2].line_type, Some(SPType::SP_DIALOGUE));
    let charlie = Character { name: "CHARLIE".to_string(), id: CharacterID(0) };
    // The action line cuts the speech, so the later dialogue is unattributed.
    assert!(reports::get_all_lines_of_dialogue_for_character(&doc, &charlie).is_none());
}

#[test]
fn empty_input_yields_no_document() {
    let r = get_screenplay_doc_from_pdf_obj(
        PDFDocument { pages: Vec::new() },
        None,
        None,
        None,
        None,
    );
    assert!(r.is_none());
}

fn two_scene_input() -> PDFDocument {
    let indentations = ElementIndentations::us_letter_default();
    let y: u32 = 21600;
    let mut page1 = PdfPage { lines: Vec::new() };
    page1
        .lines
        .push(get_scene_heading_line("INT.", "HOUSE - KITCHEN - DAY", "1", &indentations, y));
    page1.lines.push(create_pdfline_with_word("Action!", 10800, y - 2400));
    let mut page2 = PdfPage { lines: Vec::new() };
    page2
        .lines
        .push(get_scene_heading_line("EXT.", "GARDEN - NIGHT", "2", &indentations, y));
    PDFDocument { pages: vec![page1, page2] }
}

#[test]
fn parsing_twice_yields_equal_documents() {
    let doc1 = get_screenplay_doc_from_pdf_obj(two_scene_input(), None, None, None, None).unwrap();
    let doc2 = get_screenplay_doc_from_pdf_obj(two_scene_input(), None, None, None, None).unwrap();
    assert_eq!(doc1, doc2);
}

#[test]
fn repairing_untagged_elements_twice_is_a_no_op() {
    let mut line = screenplay_doc_parser_rs::screenplay_document::Line {
        text_elements: vec![
            TextElement {
                text: "Hello".to_string(),
                element_type: Some(SPType::SP_ACTION),
                preceding_whitespace_chars: 0,
                element_position: None,
            },
            TextElement {
                text: "there".to_string(),
                element_type: None,
                preceding_whitespace_chars: 1,
                element_position: None,
            },
        ],
        scene_number: None,
        scene_id: None,
        line_type: Some(SPType::SP_ACTION),
        preceding_empty_lines: 0,
        revised: false,
        blank: false,
    };
    fix_line_elements(&mut line);
    let once = line.clone();
    assert_eq!(once.text_elements[1].element_type, Some(SPType::SP_ACTION));
    fix_line_elements(&mut line);
    assert_eq!(line, once);
}
