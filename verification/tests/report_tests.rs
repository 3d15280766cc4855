// Report tests: orderings, coordinate resolution, range queries, filters
// and the location-forest traversals, all over one small parsed screenplay.

use screenplay_doc_parser_rs::pdf_document::{
    ElementIndentations, Line as PdfLine, Page as PdfPage, PDFDocument, TextPosition, Word,
};
use screenplay_doc_parser_rs::pdf_parser::get_screenplay_doc_from_pdf_obj;
use screenplay_doc_parser_rs::reports;
use screenplay_doc_parser_rs::screenplay_document::{
    Character, CharacterID, LocationID, SceneID, ScreenplayCoordinate, ScreenplayDocument,
};

fn word(text: &str, x: u32, y: u32) -> Word {
    Word {
        text: text.to_string(),
        bbox_width: text.len() as u32 * 720,
        position: TextPosition { x, y },
        font_size: 1200,
    }
}

fn heading(env: &str, rest: &str, num: &str, ind: &ElementIndentations, y: u32) -> PdfLine {
    let mut line = PdfLine { words: Vec::new() };
    line.words.push(word(env, ind.action, y));
    let mut last_len = env.len() as u32;
    let mut last_x = ind.action;
    for w in rest.split_whitespace() {
        let x = last_x + last_len * 720 + 720;
        line.words.push(word(w, x, y));
        last_len = w.len() as u32;
        last_x = x;
    }
    line.words.push(word(num, ind.right, y));
    line
}

// Two pages, two scenes, two speakers: the document the report tests read.
fn sample_document() -> ScreenplayDocument {
    let ind = ElementIndentations::us_letter_default();
    let mut page1 = PdfPage { lines: Vec::new() };
    page1.lines.push(heading("INT.", "HOUSE - KITCHEN - DAY", "1", &ind, 21600));
    page1.lines.push(PdfLine { words: vec![word("CHARLIE", ind.character, 20400)] });
    page1.lines.push(PdfLine { words: vec![word("Hello.", ind.dialogue, 19200)] });
    page1.lines.push(PdfLine { words: vec![word("Stuff", ind.action, 18000)] });
    let mut page2 = PdfPage { lines: Vec::new() };
    page2.lines.push(heading("EXT.", "GARDEN - NIGHT", "2", &ind, 21600));
    page2.lines.push(PdfLine { words: vec![word("BOB", ind.character, 20400)] });
    page2.lines.push(PdfLine { words: vec![word("Hi.", ind.dialogue, 19200)] });
    get_screenplay_doc_from_pdf_obj(
        PDFDocument { pages: vec![page1, page2] },
        None,
        None,
        None,
        None,
    )
    .unwrap()
}

fn charlie() -> Character {
    Character { name: "CHARLIE".to_string(), id: CharacterID(0) }
}

fn bob() -> Character {
    Character { name: "BOB".to_string(), id: CharacterID(1) }
}

#[test]
fn ordered_scenes_is_sorted_permutation() {
    let doc = sample_document();
    assert_eq!(doc.scenes.len(), 2);
    let ordered = reports::get_all_scenes_ordered(&doc).unwrap();
    assert_eq!(ordered.len(), 2);
    assert_eq!(ordered[0].0, SceneID(0));
    assert_eq!(ordered[1].0, SceneID(1));
    assert!(ordered[0].1.start.page <= ordered[1].1.start.page);
}

#[test]
fn scene_for_coordinate_resolves_backwards() {
    let doc = sample_document();
    let c = ScreenplayCoordinate { page: 0, line: 3, element: None };
    let (sid, scene) = reports::get_scene_for_screenplay_coordinate(&doc, &c).unwrap();
    assert_eq!(sid, SceneID(0));
    assert_eq!(scene.start.page, 0);
    let c2 = ScreenplayCoordinate { page: 1, line: 2, element: None };
    let (sid2, _) = reports::get_scene_for_screenplay_coordinate(&doc, &c2).unwrap();
    assert_eq!(sid2, SceneID(1));
    let far = ScreenplayCoordinate { page: 9, line: 0, element: None };
    assert!(reports::get_scene_for_screenplay_coordinate(&doc, &far).is_none());
}

#[test]
fn scenes_in_range_holds_starts_and_active_scene() {
    let doc = sample_document();
    let a = ScreenplayCoordinate { page: 0, line: 0, element: None };
    let b = ScreenplayCoordinate { page: 1, line: 2, element: None };
    let both = reports::get_scenes_from_range(&doc, &a, &b).unwrap();
    let ids: Vec<SceneID> = both.iter().map(|(id, _)| *id).collect();
    assert!(ids.contains(&SceneID(0)));
    assert!(ids.contains(&SceneID(1)));
    // A range that starts inside the first scene still reports it.
    let a2 = ScreenplayCoordinate { page: 0, line: 1, element: None };
    let b2 = ScreenplayCoordinate { page: 0, line: 3, element: None };
    let inside = reports::get_scenes_from_range(&doc, &a2, &b2).unwrap();
    let ids2: Vec<SceneID> = inside.iter().map(|(id, _)| *id).collect();
    assert_eq!(ids2, vec![SceneID(0)]);
}

#[test]
fn scenes_on_page_and_filters() {
    let doc = sample_document();
    let on_page_0 = reports::get_all_scenes_on_page_by_index(&doc, 0).unwrap();
    assert_eq!(on_page_0.len(), 1);
    assert_eq!(on_page_0[0].0, SceneID(0));
    let kitchen = doc.scenes[0].story_locations[1];
    let ordered = reports::get_all_scenes_ordered(&doc).unwrap();
    let by_loc = reports::filter_scenes_by_locations(&doc, ordered, vec![kitchen]).unwrap();
    assert_eq!(by_loc.len(), 1);
    assert_eq!(by_loc[0].0, SceneID(0));
}

#[test]
fn location_forest_walks() {
    let doc = sample_document();
    let scene = &doc.scenes[0];
    assert_eq!(scene.story_locations.len(), 2);
    let root = scene.story_locations[0];
    let leaf = scene.story_locations[1];

    let path = reports::get_full_location_path_for_leaf_node(&doc, &leaf).unwrap();
    assert_eq!(path, vec![root, leaf]);

    let path_string = reports::get_full_string_for_location_path(&doc, &leaf).unwrap();
    assert_eq!(path_string, "INT. HOUSE - KITCHEN");

    assert_eq!(reports::get_location_root_for_node(&doc, &leaf), Some(root));
    assert_eq!(reports::get_all_location_leafs(&doc, &root), Some(vec![leaf]));

    let dangling = LocationID(99);
    assert!(reports::get_full_location_path_for_leaf_node(&doc, &dangling).is_none());
}

#[test]
fn location_path_queries() {
    let doc = sample_document();
    let root = doc.scenes[0].story_locations[0];
    let leaf = doc.scenes[0].story_locations[1];

    let full = vec!["INT. HOUSE".to_string(), "KITCHEN".to_string()];
    let (found, rest) = reports::location_path_exists(&doc, &full).unwrap();
    assert_eq!(found, leaf);
    assert!(rest.is_empty());

    let partial = vec!["INT. HOUSE".to_string(), "BATHROOM".to_string()];
    let (stopped_at, missing) = reports::location_path_exists(&doc, &partial).unwrap();
    assert_eq!(stopped_at, root);
    assert_eq!(missing, vec!["BATHROOM".to_string()]);

    assert!(reports::location_path_exists(&doc, &["NOWHERE".to_string()]).is_none());

    let matches = reports::get_locations_with_matching_str(&doc, &"KITCHEN".to_string()).unwrap();
    assert_eq!(matches, vec![leaf]);
}

#[test]
fn character_reports() {
    let doc = sample_document();
    assert_eq!(doc.characters.len(), 2);

    let in_first = reports::get_characters_for_scene(&doc, &SceneID(0)).unwrap();
    assert_eq!(in_first.len(), 1);
    assert_eq!(in_first[0].name, "CHARLIE");

    let on_page_1 = reports::get_all_characters_on_page_by_index(&doc, 1).unwrap();
    assert_eq!(on_page_1.len(), 1);
    assert_eq!(on_page_1[0].name, "BOB");

    let garden_root = doc.scenes[1].story_locations[0];
    let at_garden = reports::get_characters_for_location(&doc, &garden_root).unwrap();
    assert_eq!(at_garden.len(), 1);
    assert_eq!(at_garden[0].name, "BOB");

    let charlie_scenes = reports::get_all_scenes_with_character_speaking(&doc, &charlie()).unwrap();
    assert_eq!(charlie_scenes.len(), 1);
    assert_eq!(charlie_scenes[0].0, SceneID(0));

    let bob_lines = reports::get_all_lines_of_dialogue_for_character(&doc, &bob()).unwrap();
    assert_eq!(bob_lines.len(), 1);
    assert_eq!(bob_lines[0].0.page, 1);
    assert_eq!(bob_lines[0].0.line, 2);

    let nobody = Character { name: "NOBODY".to_string(), id: CharacterID(9) };
    assert!(reports::get_all_lines_of_dialogue_for_character(&doc, &nobody).is_none());
}

#[test]
fn speaking_filter_sorts_and_deduplicates() {
    let doc = sample_document();
    // Hand the filter the scenes out of order and with a repeat; the
    // result comes back in document order, one entry per scene.
    let ordered = reports::get_all_scenes_ordered(&doc).unwrap();
    let scrambled = vec![
        (ordered[1].0, ordered[1].1.clone()),
        (ordered[0].0, ordered[0].1.clone()),
        (ordered[1].0, ordered[1].1.clone()),
    ];
    let both = Character { name: "BOB".to_string(), id: CharacterID(1) };
    let kept = reports::filter_scenes_by_character_speaking(&doc, scrambled, &both).unwrap();
    assert_eq!(kept.len(), 1);
    assert_eq!(kept[0].0, SceneID(1));

    let scrambled2 = vec![
        (ordered[1].0, ordered[1].1.clone()),
        (ordered[0].0, ordered[0].1.clone()),
    ];
    let everyone = reports::filter_scenes_by_character_speaking(&doc, scrambled2, &charlie())
        .unwrap();
    assert_eq!(everyone.len(), 1);
    assert_eq!(everyone[0].0, SceneID(0));

    // A speaker heard in both scenes comes back in document order even
    // from a reversed input.
    let ind = ElementIndentations::us_letter_default();
    let mut page1 = PdfPage { lines: Vec::new() };
    page1.lines.push(heading("INT.", "HOUSE - DAY", "1", &ind, 21600));
    page1.lines.push(PdfLine { words: vec![word("EVE", ind.character, 20400)] });
    page1.lines.push(PdfLine { words: vec![word("Hello.", ind.dialogue, 19200)] });
    let mut page2 = PdfPage { lines: Vec::new() };
    page2.lines.push(heading("EXT.", "GARDEN - NIGHT", "2", &ind, 21600));
    page2.lines.push(PdfLine { words: vec![word("EVE", ind.character, 20400)] });
    page2.lines.push(PdfLine { words: vec![word("Hi.", ind.dialogue, 19200)] });
    let doc2 = screenplay_doc_parser_rs::pdf_parser::get_screenplay_doc_from_pdf_obj(
        PDFDocument { pages: vec![page1, page2] },
        None,
        None,
        None,
        None,
    )
    .unwrap();
    let ordered2 = reports::get_all_scenes_ordered(&doc2).unwrap();
    let reversed = vec![
        (ordered2[1].0, ordered2[1].1.clone()),
        (ordered2[0].0, ordered2[0].1.clone()),
    ];
    let eve = Character { name: "EVE".to_string(), id: CharacterID(0) };
    let both_scenes = reports::filter_scenes_by_character_speaking(&doc2, reversed, &eve).unwrap();
    let ids: Vec<SceneID> = both_scenes.iter().map(|(id, _)| *id).collect();
    assert_eq!(ids, vec![SceneID(0), SceneID(1)]);
}

#[test]
fn line_filters() {
    let doc = sample_document();
    let lines = vec![
        (
            ScreenplayCoordinate { page: 0, line: 2, element: None },
            doc.pages[0].lines[2].clone(),
        ),
        (
            ScreenplayCoordinate { page: 1, line: 2, element: None },
            doc.pages[1].lines[2].clone(),
        ),
    ];
    let ordered = reports::get_all_scenes_ordered(&doc).unwrap();
    let first_only: Vec<_> = ordered.into_iter().take(1).collect();
    let kept = reports::filter_lines_by_multiple_scenes(&doc, &lines, first_only).unwrap();
    assert_eq!(kept.len(), 1);
    assert_eq!(kept[0].0.page, 0);

    let kitchen = doc.scenes[0].story_locations[1];
    let by_loc = reports::filter_lines_by_multiple_locations(&doc, &lines, vec![kitchen]).unwrap();
    assert_eq!(by_loc.len(), 1);
    assert_eq!(by_loc[0].0.page, 0);
}

#[test]
fn page_reports() {
    let doc = sample_document();
    let scene_pages = reports::get_all_pages_for_scene(&doc, &SceneID(0)).unwrap();
    let indices: Vec<usize> = scene_pages.iter().map(|(i, _)| *i).collect();
    assert_eq!(indices, vec![0, 1]);

    let charlie_pages = reports::get_all_pages_for_character_speaking(&doc, &charlie()).unwrap();
    let indices2: Vec<usize> = charlie_pages.iter().map(|(i, _)| *i).collect();
    assert_eq!(indices2, vec![0]);

    let bob_pages = reports::filter_pages_by_character_speaking(&doc, (0, 1), &bob()).unwrap();
    let indices3: Vec<usize> = bob_pages.iter().map(|(i, _)| *i).collect();
    assert_eq!(indices3, vec![1]);

    let both = reports::filter_pages_by_multiple_characters_speaking(
        &doc,
        (0, 1),
        vec![charlie(), bob()],
    )
    .unwrap();
    assert_eq!(both.len(), 2);

    let garden_root = doc.scenes[1].story_locations[0];
    let garden_pages = reports::get_all_pages_for_location(&doc, &garden_root).unwrap();
    assert!(garden_pages.iter().any(|(i, _)| *i == 1));
}

#[test]
fn locations_by_character_and_page() {
    let doc = sample_document();
    let locs = reports::get_all_locations_with_character_speaking(&doc, &charlie()).unwrap();
    let root = doc.scenes[0].story_locations[0];
    let leaf = doc.scenes[0].story_locations[1];
    assert!(locs.contains(&root));
    assert!(locs.contains(&leaf));
    assert!(!locs.contains(&doc.scenes[1].story_locations[0]));

    let on_page_0 = reports::get_all_locations_on_page_by_index(&doc, 0).unwrap();
    assert!(on_page_0.contains(&root));
    assert!(on_page_0.contains(&leaf));
    assert!(reports::get_all_locations_on_page_by_index(&doc, 7).is_none());
}
