// Vocabulary tests: time-of-day lookup with and without extras, the
// environment lists, cue matching, and the location-node helpers.

use screenplay_doc_parser_rs::screenplay_document::{
    Character, CharacterID, Environment, EnvironmentStrings, Line, LocationID, LocationNode,
    SPType, ScreenplayDocument, TextElement, TimeOfDay, TimeOfDayCollection,
};

#[test]
fn time_of_day_defaults() {
    let tod = TimeOfDayCollection::default();
    assert!(tod.is_time_of_day(&"DAY".to_string()));
    assert!(tod.is_time_of_day(&"NIGHT".to_string()));
    assert!(tod.is_time_of_day(&"AFTERNOON".to_string()));
    assert!(!tod.is_time_of_day(&"TEATIME".to_string()));
    assert_eq!(
        tod.get_time_of_day(&"DAY".to_string()),
        Some(TimeOfDay::Day("DAY".to_string()))
    );
    assert_eq!(
        tod.get_time_of_day(&"MORNING".to_string()),
        Some(TimeOfDay::Morning("MORNING".to_string()))
    );
    assert_eq!(tod.get_time_of_day(&"TEATIME".to_string()), None);
}

#[test]
fn time_of_day_extras() {
    let mut tod = TimeOfDayCollection::default();
    tod.extras = Some(vec![("tea".to_string(), "TEATIME".to_string())]);
    assert!(tod.is_time_of_day(&"TEATIME".to_string()));
    assert_eq!(
        tod.get_time_of_day(&"TEATIME".to_string()),
        Some(TimeOfDay::Extras(None))
    );
    assert!(!tod.is_time_of_day(&"tea".to_string()));
}

#[test]
fn environment_lookup() {
    let envs = EnvironmentStrings::default();
    assert_eq!(
        Environment::from_str(&"INT.".to_string(), &envs),
        Some(Environment::Int)
    );
    assert_eq!(
        Environment::from_str(&"EXT.".to_string(), &envs),
        Some(Environment::Ext)
    );
    assert_eq!(
        Environment::from_str(&"I./E.".to_string(), &envs),
        Some(Environment::Combo)
    );
    assert_eq!(Environment::from_str(&"OUTSIDE".to_string(), &envs), None);
}

fn element(text: &str, tag: Option<SPType>) -> TextElement {
    TextElement {
        text: text.to_string(),
        element_type: tag,
        preceding_whitespace_chars: 0,
        element_position: None,
    }
}

#[test]
fn character_matches_contiguous_run() {
    let line = Line {
        text_elements: vec![
            element("JOHN", Some(SPType::SP_CHARACTER)),
            element("DOE", Some(SPType::SP_CHARACTER)),
            element("(V.O.)", Some(SPType::SP_CHARACTER_EXTENSION)),
        ],
        scene_number: None,
        scene_id: None,
        line_type: Some(SPType::SP_CHARACTER),
        preceding_empty_lines: 0,
        revised: false,
        blank: false,
    };
    let john_doe = Character { name: "JOHN DOE".to_string(), id: CharacterID(0) };
    let john = Character { name: "JOHN".to_string(), id: CharacterID(1) };
    assert!(john_doe.is_line(&line));
    assert!(!john.is_line(&line));
}

#[test]
fn sublocation_bookkeeping() {
    let mut node = LocationNode {
        string: "HOUSE".to_string(),
        sublocations: Vec::new(),
        superlocation: None,
    };
    assert!(node.add_sublocation(LocationID(1)));
    assert!(!node.add_sublocation(LocationID(1)));
    assert!(node.add_sublocation(LocationID(2)));
    assert_eq!(node.sublocations, vec![LocationID(1), LocationID(2)]);
}

#[test]
fn subpath_walks_the_forest() {
    let mut doc = ScreenplayDocument::new();
    doc.locations.push(LocationNode {
        string: "INT. HOUSE".to_string(),
        sublocations: vec![LocationID(1)],
        superlocation: None,
    });
    doc.locations.push(LocationNode {
        string: "KITCHEN".to_string(),
        sublocations: Vec::new(),
        superlocation: Some(LocationID(0)),
    });
    let root = doc.locations[0].clone();
    let found = root.subpath_exists(&LocationID(0), &["KITCHEN".to_string()], &doc);
    let (id, rest) = found.unwrap();
    assert_eq!(id, LocationID(1));
    assert!(rest.is_empty());

    let missing = root.subpath_exists(&LocationID(0), &["CELLAR".to_string()], &doc);
    let (id2, rest2) = missing.unwrap();
    assert_eq!(id2, LocationID(0));
    assert_eq!(rest2, vec!["CELLAR".to_string()]);

    assert!(root.subpath_exists(&LocationID(0), &[], &doc).is_none());
}
