//! The page-sequential assembly pass: it drives the line assembler over
//! the positioned input, registers characters from character-cue lines,
//! builds scenes and interns their location paths on scene-heading lines,
//! and collects the surviving lines into pages.
//!
//! The whole pass is a deterministic fold, written out here as spec
//! functions; the executable parser is proved to compute exactly that
//! fold, and the fold is proved to yield a well-formed document.

use vstd::prelude::*;
use crate::assemble::{
    build_line, empty_lines_spec, fix_elements_spec, fix_line_elements, line_build_at,
    line_build_init, LineBuildState,
};
use crate::pdf_document::{ElementIndentations, PDFDocument, WordV};
use crate::scene_build::{
    char_name_exists, character_name_of, heading_scan_of, intern_root, intern_root_spec,
    intern_tail, intern_tail_spec, line_environment, line_environment_spec, line_time_of_day,
    line_time_of_day_spec, register_character, register_character_spec, scan_heading,
};
use crate::screenplay_document::{
    character_name_of_line, characters_view, characters_wf_seq, lines_view, locations_view,
    locations_wf_seq, opt_string_view, pages_view, roots_unique_seq, scene_heading_line_tag,
    scenes_view, CharacterV, EnvironmentStrings, EnvironmentStringsV, Line, LineV, LocationID,
    Page, PageNumber, PageV, Scene, SceneHeadingElement, SceneID, SceneNumber, SceneV,
    ScreenplayCoordinate, ScreenplayDocument, SPType, TimeOfDayCollection, TimeOfDayCollectionV,
    TimeOfDayV,
};

verus! {

/// The resolved configuration of one parse: the indentation profile, the
/// two vocabularies, and the revision-marker glyph.
#[verifier::ext_equal]
pub struct ParseCfg {
    pub ind: ElementIndentations,
    pub tod: TimeOfDayCollectionV,
    pub env: EnvironmentStringsV,
    pub marker: Seq<char>,
}

/// The default time-of-day vocabulary, as a view.
pub open spec fn default_tod_v() -> TimeOfDayCollectionV {
    TimeOfDayCollectionV {
        day: TimeOfDayV::Day("DAY"@),
        night: TimeOfDayV::Night("NIGHT"@),
        morning: TimeOfDayV::Morning("MORNING"@),
        evening: TimeOfDayV::Evening("EVENING"@),
        afternoon: TimeOfDayV::Afternoon("AFTERNOON"@),
        extras: None,
    }
}

/// The default environment vocabulary, as a view.
pub open spec fn default_env_v() -> EnvironmentStringsV {
    EnvironmentStringsV {
        int_markers: seq!["INT."@],
        ext_markers: seq!["EXT."@],
        combo_markers: seq!["INT./EXT."@, "I./E."@, "EXT./INT."@, "E./I."@],
    }
}

/// The configuration a parse runs with, after the optional arguments fall
/// back to their defaults.
pub open spec fn resolved_cfg(
    ind_opt: Option<ElementIndentations>,
    marker_opt: Option<String>,
    tod_opt: Option<TimeOfDayCollection>,
    env_opt: Option<EnvironmentStrings>,
) -> ParseCfg {
    ParseCfg {
        ind: match ind_opt {
            Some(i) => i,
            None => ElementIndentations::us_letter_default_spec(),
        },
        tod: match tod_opt {
            Some(t) => t@,
            None => default_tod_v(),
        },
        env: match env_opt {
            Some(e) => e@,
            None => default_env_v(),
        },
        marker: match marker_opt {
            Some(m) => m@,
            None => "*"@,
        },
    }
}

/// What the parser has accumulated at document scope.
#[verifier::ext_equal]
pub struct DocBuild {
    pub pages: Seq<PageV>,
    pub scenes: Seq<SceneV>,
    pub locations: Seq<crate::screenplay_document::LocationNodeV>,
    pub characters: Seq<CharacterV>,
}

pub open spec fn doc_build_init() -> DocBuild {
    DocBuild {
        pages: Seq::<PageV>::empty(),
        scenes: Seq::<SceneV>::empty(),
        locations: Seq::<crate::screenplay_document::LocationNodeV>::empty(),
        characters: Seq::<CharacterV>::empty(),
    }
}

/// What the parser has accumulated inside the current page.
#[verifier::ext_equal]
pub struct PageBuild {
    pub lines: Seq<LineV>,
    pub page_number: Option<Seq<char>>,
    pub page_revised: bool,
    pub prev_y: int,
}

pub open spec fn page_build_init() -> PageBuild {
    PageBuild {
        lines: Seq::<LineV>::empty(),
        page_number: None,
        page_revised: false,
        prev_y: 0,
    }
}

/// The slugline path fragments handed to the tail interning: everything
/// after the root fragment.
pub open spec fn tail_frags(path: Seq<Seq<char>>) -> Seq<Seq<char>> {
    if path.len() > 0 {
        path.drop_first()
    } else {
        path
    }
}

/// The effect of one input line on the document and page accumulators: a
/// wordless line is dropped; otherwise the line is assembled, repaired,
/// and registered as a character cue or as a scene heading before it joins
/// the page.
pub open spec fn line_step_spec(
    doc: DocBuild,
    pg: PageBuild,
    words: Seq<WordV>,
    cfg: ParseCfg,
) -> (DocBuild, PageBuild) {
    if words.len() == 0 {
        (doc, pg)
    } else {
        let st = line_build_at(
            words,
            words.len() as int,
            line_build_init(pg.page_number, pg.page_revised),
            cfg.ind,
            cfg.tod,
            cfg.env,
            cfg.marker,
        );
        let cur_y = words[0].y;
        let line0 = LineV {
            text_elements: st.elements,
            scene_number: st.scene_number,
            scene_id: None,
            line_type: st.line_type,
            preceding_empty_lines: empty_lines_spec(pg.prev_y, cur_y),
            revised: st.revised,
            blank: false,
        };
        if st.elements.len() == 0 {
            (
                doc,
                PageBuild {
                    lines: pg.lines,
                    page_number: st.page_number,
                    page_revised: st.page_revised,
                    prev_y: cur_y,
                },
            )
        } else {
            let line1 = fix_elements_spec(line0);
            let pg2 = PageBuild {
                lines: pg.lines.push(line1),
                page_number: st.page_number,
                page_revised: st.page_revised,
                prev_y: cur_y,
            };
            if line1.line_type == Some(SPType::SP_CHARACTER) {
                (
                    DocBuild {
                        characters: register_character_spec(
                            doc.characters,
                            character_name_of_line(line1),
                        ),
                        ..doc
                    },
                    pg2,
                )
            } else if line1.line_type == scene_heading_line_tag() {
                let hs = heading_scan_of(line1);
                let (locs1, root_id) = intern_root_spec(doc.locations, hs.root);
                let (locs2, tail_chain) = intern_tail_spec(locs1, root_id, tail_frags(hs.path));
                let sid = SceneID(doc.scenes.len() as u64);
                let scene = SceneV {
                    start: ScreenplayCoordinate {
                        page: doc.pages.len() as usize,
                        line: pg.lines.len() as usize,
                        element: None,
                    },
                    environment: line_environment_spec(line1, cfg.env),
                    number: line1.scene_number,
                    revised: line1.revised,
                    story_locations: seq![root_id] + tail_chain,
                    story_time_of_day: line_time_of_day_spec(line1, cfg.tod),
                };
                let line2 = LineV { scene_id: Some(sid), ..line1 };
                (
                    DocBuild { scenes: doc.scenes.push(scene), locations: locs2, ..doc },
                    PageBuild { lines: pg.lines.push(line2), ..pg2 },
                )
            } else {
                (doc, pg2)
            }
        }
    }
}

/// The accumulators after the first `i` input lines of a page.
pub open spec fn page_lines_at(
    doc: DocBuild,
    lines: Seq<Seq<WordV>>,
    i: int,
    cfg: ParseCfg,
) -> (DocBuild, PageBuild)
    decreases i,
{
    if i <= 0 {
        (doc, page_build_init())
    } else {
        let (d, p) = page_lines_at(doc, lines, i - 1, cfg);
        line_step_spec(d, p, lines[i - 1], cfg)
    }
}

/// The page a closed page accumulator yields.
pub open spec fn page_of_build(p: PageBuild) -> PageV {
    PageV {
        lines: p.lines,
        page_number: p.page_number,
        page_id: None,
        revised: p.page_revised,
        revision_label: None,
        revision_date: None,
        page_format: None,
    }
}

/// The effect of one input page on the document accumulator: a page with
/// no input lines, or whose lines all die, yields no page.
pub open spec fn page_step_spec(doc: DocBuild, page_lines: Seq<Seq<WordV>>, cfg: ParseCfg) -> DocBuild {
    if page_lines.len() == 0 {
        doc
    } else {
        let (d, p) = page_lines_at(doc, page_lines, page_lines.len() as int, cfg);
        if p.lines.len() == 0 {
            d
        } else {
            DocBuild { pages: d.pages.push(page_of_build(p)), ..d }
        }
    }
}

/// The document accumulator after the first `i` input pages.
pub open spec fn doc_build_at(pages: Seq<Seq<Seq<WordV>>>, i: int, cfg: ParseCfg) -> DocBuild
    decreases i,
{
    if i <= 0 {
        doc_build_init()
    } else {
        page_step_spec(doc_build_at(pages, i - 1, cfg), pages[i - 1], cfg)
    }
}

/// What the whole parse returns: nothing on empty input, else the folded
/// document.
pub open spec fn parse_spec(
    pages: Seq<Seq<Seq<WordV>>>,
    cfg: ParseCfg,
) -> Option<crate::screenplay_document::ScreenplayDocumentV> {
    if pages.len() == 0 {
        None
    } else {
        let d = doc_build_at(pages, pages.len() as int, cfg);
        Some(
            crate::screenplay_document::ScreenplayDocumentV {
                pages: d.pages,
                revisions: None,
                scenes: d.scenes,
                locations: d.locations,
                characters: d.characters,
                page_numbers: Seq::empty(),
            },
        )
    }
}

// ------------------------------------------------ the plain-slugline law

/// The repaired line one worded input line yields in a step.
pub open spec fn line_step_line1(pg: PageBuild, words: Seq<WordV>, cfg: ParseCfg) -> LineV {
    let st = line_build_at(
        words,
        words.len() as int,
        line_build_init(pg.page_number, pg.page_revised),
        cfg.ind,
        cfg.tod,
        cfg.env,
        cfg.marker,
    );
    fix_elements_spec(
        LineV {
            text_elements: st.elements,
            scene_number: st.scene_number,
            scene_id: None,
            line_type: st.line_type,
            preceding_empty_lines: empty_lines_spec(pg.prev_y, words[0].y),
            revised: st.revised,
            blank: false,
        },
    )
}

/// A scene heading whose slugline closed no separator — environment and
/// location words only — yields a scene whose location path is a single
/// root node carrying the slugline's space-joined text; and a heading
/// without a time-of-day word yields no time of day.
pub proof fn lemma_plain_heading_scene(
    doc: DocBuild,
    pg: PageBuild,
    words: Seq<WordV>,
    cfg: ParseCfg,
)
    requires
        words.len() > 0,
        doc.locations.len() <= u64::MAX,
        line_step_line1(pg, words, cfg).line_type == scene_heading_line_tag(),
        heading_scan_of(line_step_line1(pg, words, cfg)).path.len() == 0,
        crate::scene_build::first_text_with_tag(
            line_step_line1(pg, words, cfg).text_elements,
            SPType::SP_SCENE_HEADING(SceneHeadingElement::TimeOfDay),
            line_step_line1(pg, words, cfg).text_elements.len() as int,
        ) is None,
    ensures
        ({
            let (d2, p2) = line_step_spec(doc, pg, words, cfg);
            let root_str = heading_scan_of(line_step_line1(pg, words, cfg)).root;
            &&& d2.scenes.len() == doc.scenes.len() + 1
            &&& {
                let s = d2.scenes.last();
                &&& s.story_locations.len() == 1
                &&& (s.story_locations[0].0 as int) < d2.locations.len()
                &&& d2.locations[s.story_locations[0].0 as int].superlocation is None
                &&& d2.locations[s.story_locations[0].0 as int].string == root_str
                &&& s.story_time_of_day is None
            }
        }),
{
    let st = line_build_at(
        words,
        words.len() as int,
        line_build_init(pg.page_number, pg.page_revised),
        cfg.ind,
        cfg.tod,
        cfg.env,
        cfg.marker,
    );
    lemma_line_build_len(
        words,
        words.len() as int,
        line_build_init(pg.page_number, pg.page_revised),
        cfg,
    );
    let line1 = line_step_line1(pg, words, cfg);
    let hs = heading_scan_of(line1);
    let (locs1, root_id) = intern_root_spec(doc.locations, hs.root);
    assert(tail_frags(hs.path) == hs.path);
    assert(intern_tail_spec(locs1, root_id, hs.path) == (
        locs1,
        Seq::<LocationID>::empty(),
    ));
    assert((seq![root_id] + Seq::<LocationID>::empty()) =~= seq![root_id]);
    let (d2, p2) = line_step_spec(doc, pg, words, cfg);
    assert(st.elements.len() == words.len());
    assert(d2.scenes == doc.scenes.push(d2.scenes.last()));
    let s2 = d2.scenes.last();
    assert(s2.story_locations =~= seq![root_id]);
    assert(d2.locations == locs1);
    match crate::scene_build::find_root_from(doc.locations, hs.root, 0) {
        Some(k) => {
            crate::scene_build::lemma_find_root_some(doc.locations, hs.root, 0);
            assert(root_id == LocationID(k as u64));
            assert((root_id.0 as int) == k);
        },
        None => {
            assert(root_id == LocationID(doc.locations.len() as u64));
            assert((root_id.0 as int) == doc.locations.len());
            assert(locs1.last().superlocation is None);
            assert(locs1.last().string == hs.root);
        },
    }
}

// --------------------------------------------------- the page-for-page law

/// The page has at least one worded line.
pub open spec fn page_has_worded_line(pg: Seq<Seq<WordV>>) -> bool {
    exists|l: int| 0 <= l < pg.len() && (#[trigger] pg[l]).len() > 0
}

/// The worded lines among the first `i` of a page.
pub open spec fn worded_line_count(lines: Seq<Seq<WordV>>, i: int) -> int
    decreases i,
{
    if i <= 0 {
        0
    } else {
        worded_line_count(lines, i - 1) + if lines[i - 1].len() > 0 {
            1int
        } else {
            0int
        }
    }
}

/// The indices, in order, of the input pages with a worded line among the
/// first `i`.
pub open spec fn worded_page_indices(pages: Seq<Seq<Seq<WordV>>>, i: int) -> Seq<int>
    decreases i,
{
    if i <= 0 {
        Seq::<int>::empty()
    } else {
        let pre = worded_page_indices(pages, i - 1);
        if page_has_worded_line(pages[i - 1]) {
            pre.push(i - 1)
        } else {
            pre
        }
    }
}

/// The line assembler records exactly one element per word.
proof fn lemma_line_build_len(
    words: Seq<WordV>,
    i: int,
    init: LineBuildState,
    cfg: ParseCfg,
)
    requires
        0 <= i,
    ensures
        line_build_at(words, i, init, cfg.ind, cfg.tod, cfg.env, cfg.marker).elements.len()
            == init.elements.len() + i,
    decreases i,
{
    if i > 0 {
        lemma_line_build_len(words, i - 1, init, cfg);
    }
}

/// One line step keeps the page's line count, or grows it by one exactly
/// when the input line has a word; the collected pages never change.
proof fn lemma_line_step_lines(doc: DocBuild, pg: PageBuild, words: Seq<WordV>, cfg: ParseCfg)
    ensures
        ({
            let (d2, p2) = line_step_spec(doc, pg, words, cfg);
            &&& d2.pages == doc.pages
            &&& p2.lines.len() == pg.lines.len() + if words.len() > 0 {
                1int
            } else {
                0int
            }
        }),
{
    if words.len() > 0 {
        lemma_line_build_len(
            words,
            words.len() as int,
            line_build_init(pg.page_number, pg.page_revised),
            cfg,
        );
    }
}

/// A page accumulates exactly one line per worded input line.
proof fn lemma_page_lines_count(doc: DocBuild, lines: Seq<Seq<WordV>>, i: int, cfg: ParseCfg)
    requires
        0 <= i <= lines.len(),
    ensures
        ({
            let (d, p) = page_lines_at(doc, lines, i, cfg);
            d.pages == doc.pages && p.lines.len() == worded_line_count(lines, i)
        }),
    decreases i,
{
    if i > 0 {
        lemma_page_lines_count(doc, lines, i - 1, cfg);
        let (d, p) = page_lines_at(doc, lines, i - 1, cfg);
        lemma_line_step_lines(d, p, lines[i - 1], cfg);
    }
}

/// A positive worded-line count means some line is worded, and back.
proof fn lemma_worded_count_positive(lines: Seq<Seq<WordV>>, i: int)
    requires
        0 <= i <= lines.len(),
    ensures
        worded_line_count(lines, i) > 0 <==> exists|l: int|
            0 <= l < i && (#[trigger] lines[l]).len() > 0,
        worded_line_count(lines, i) >= 0,
    decreases i,
{
    if i > 0 {
        lemma_worded_count_positive(lines, i - 1);
        if worded_line_count(lines, i) > 0 {
            if lines[i - 1].len() > 0 {
                assert(0 <= i - 1 < i && lines[i - 1].len() > 0);
            } else {
                let l = choose|l: int| 0 <= l < i - 1 && (#[trigger] lines[l]).len() > 0;
                assert(0 <= l < i && lines[l].len() > 0);
            }
        }
        if exists|l: int| 0 <= l < i && (#[trigger] lines[l]).len() > 0 {
            let l = choose|l: int| 0 <= l < i && (#[trigger] lines[l]).len() > 0;
            if l < i - 1 {
                assert(exists|l2: int| 0 <= l2 < i - 1 && (#[trigger] lines[l2]).len() > 0);
            }
        }
    }
}

/// The page-for-page law of the parse fold: one document page per input
/// page with a worded line, in input order, each holding exactly one line
/// per worded input line. An input page without lines — or whose lines are
/// all wordless — yields no page.
pub proof fn lemma_parse_page_correspondence(pages: Seq<Seq<Seq<WordV>>>, cfg: ParseCfg, i: int)
    requires
        0 <= i <= pages.len(),
    ensures
        ({
            let db = doc_build_at(pages, i, cfg);
            let idxs = worded_page_indices(pages, i);
            &&& db.pages.len() == idxs.len()
            &&& (forall|k: int|
                0 <= k < idxs.len() ==> 0 <= #[trigger] idxs[k] < i && page_has_worded_line(
                    pages[idxs[k]],
                ))
            &&& (forall|k1: int, k2: int| 0 <= k1 < k2 < idxs.len() ==> idxs[k1] < idxs[k2])
            &&& (forall|k: int|
                0 <= k < idxs.len() ==> (#[trigger] db.pages[k]).lines.len() == worded_line_count(
                    pages[idxs[k]],
                    pages[idxs[k]].len() as int,
                ))
        }),
    decreases i,
{
    if i > 0 {
        lemma_parse_page_correspondence(pages, cfg, i - 1);
        let db0 = doc_build_at(pages, i - 1, cfg);
        let db = doc_build_at(pages, i, cfg);
        let idxs0 = worded_page_indices(pages, i - 1);
        let idxs = worded_page_indices(pages, i);
        let pg = pages[i - 1];
        if pg.len() == 0 {
            assert(!page_has_worded_line(pg));
            assert(db == db0);
        } else {
            lemma_page_lines_count(db0, pg, pg.len() as int, cfg);
            lemma_worded_count_positive(pg, pg.len() as int);
            let (d, p) = page_lines_at(db0, pg, pg.len() as int, cfg);
            if p.lines.len() == 0 {
                assert(!page_has_worded_line(pg));
            } else {
                assert(page_has_worded_line(pg));
                assert(db.pages == d.pages.push(page_of_build(p)));
                assert forall|k: int| 0 <= k < idxs.len() implies (#[trigger] db.pages[k]).lines.len()
                    == worded_line_count(pages[idxs[k]], pages[idxs[k]].len() as int) by {
                    if k < idxs0.len() {
                        assert(idxs[k] == idxs0[k]);
                        assert(db.pages[k] == db0.pages[k]);
                    } else {
                        assert(idxs[k] == i - 1);
                        assert(db.pages[k] == page_of_build(p));
                    }
                }
            }
        }
    }
}

/// The whole parse yields nothing exactly on empty input; otherwise the
/// page-for-page correspondence holds of the result.
pub proof fn lemma_parse_page_for_page(pages: Seq<Seq<Seq<WordV>>>, cfg: ParseCfg)
    ensures
        parse_spec(pages, cfg) is None <==> pages.len() == 0,
        parse_spec(pages, cfg) matches Some(doc) ==> ({
            let idxs = worded_page_indices(pages, pages.len() as int);
            &&& doc.pages.len() == idxs.len()
            &&& (forall|k: int|
                0 <= k < idxs.len() ==> 0 <= #[trigger] idxs[k] < pages.len()
                    && page_has_worded_line(pages[idxs[k]]))
            &&& (forall|k1: int, k2: int| 0 <= k1 < k2 < idxs.len() ==> idxs[k1] < idxs[k2])
            &&& (forall|k: int|
                0 <= k < idxs.len() ==> (#[trigger] doc.pages[k]).lines.len()
                    == worded_line_count(pages[idxs[k]], pages[idxs[k]].len() as int))
        }),
{
    if pages.len() > 0 {
        lemma_parse_page_correspondence(pages, cfg, pages.len() as int);
    }
}

// ------------------------------------------------- staged well-formedness

/// Soundness of one scene while the current page is still open: its start
/// names either a line of a closed page or (at the current page index) a
/// line already collected in `extra`, and that line is a heading bound to
/// this scene.
pub open spec fn scene_entry_ok(
    pages: Seq<PageV>,
    extra: Seq<LineV>,
    n_locations: int,
    scenes: Seq<SceneV>,
    i: int,
) -> bool {
    let s = scenes[i];
    &&& s.start.element is None
    &&& (forall|j: int|
        0 <= j < s.story_locations.len() ==> ((#[trigger] s.story_locations[j]).0 as int)
            < n_locations)
    &&& if (s.start.page as int) < pages.len() {
        &&& (s.start.line as int) < pages[s.start.page as int].lines.len()
        &&& pages[s.start.page as int].lines[s.start.line as int].scene_id == Some(
            SceneID(i as u64),
        )
        &&& pages[s.start.page as int].lines[s.start.line as int].line_type
            == scene_heading_line_tag()
    } else {
        &&& s.start.page as int == pages.len()
        &&& (s.start.line as int) < extra.len()
        &&& extra[s.start.line as int].scene_id == Some(SceneID(i as u64))
        &&& extra[s.start.line as int].line_type == scene_heading_line_tag()
    }
}

pub open spec fn scenes_ok(
    pages: Seq<PageV>,
    extra: Seq<LineV>,
    n_locations: int,
    scenes: Seq<SceneV>,
) -> bool {
    forall|i: int|
        0 <= i < scenes.len() ==> #[trigger] scene_entry_ok(pages, extra, n_locations, scenes, i)
}

/// Soundness of one stored line at position (`p`, `l`): a heading line is
/// bound to the scene that starts there, and only headings carry a scene
/// identifier.
pub open spec fn heading_line_ok(ln: LineV, p: int, l: int, scenes: Seq<SceneV>) -> bool {
    &&& (ln.line_type == scene_heading_line_tag() ==> (ln.scene_id matches Some(sid) && (
    sid.0 as int) < scenes.len() && scenes[sid.0 as int].start.page == p && scenes[
        sid.0 as int
    ].start.line == l))
    &&& (ln.scene_id is Some ==> ln.line_type == scene_heading_line_tag())
}

pub open spec fn headings_ok(pages: Seq<PageV>, extra: Seq<LineV>, scenes: Seq<SceneV>) -> bool {
    &&& (forall|p: int, l: int|
        #![trigger pages[p].lines[l]]
        0 <= p < pages.len() && 0 <= l < pages[p].lines.len() ==> heading_line_ok(
            pages[p].lines[l],
            p,
            l,
            scenes,
        ))
    &&& (forall|l: int|
        0 <= l < extra.len() ==> heading_line_ok(#[trigger] extra[l], pages.len() as int, l, scenes))
}

/// The name of a character-cue line is registered.
pub open spec fn line_chars_ok(ln: LineV, chars: Seq<CharacterV>) -> bool {
    ln.line_type == Some(SPType::SP_CHARACTER) ==> char_name_exists(
        chars,
        character_name_of_line(ln),
    )
}

pub open spec fn chars_complete_ok(
    pages: Seq<PageV>,
    extra: Seq<LineV>,
    chars: Seq<CharacterV>,
) -> bool {
    &&& (forall|p: int, l: int|
        #![trigger pages[p].lines[l]]
        0 <= p < pages.len() && 0 <= l < pages[p].lines.len() ==> line_chars_ok(
            pages[p].lines[l],
            chars,
        ))
    &&& (forall|l: int| 0 <= l < extra.len() ==> line_chars_ok(#[trigger] extra[l], chars))
}

/// The whole invariant the parser maintains between lines.
pub open spec fn build_ok(doc: DocBuild, extra: Seq<LineV>) -> bool {
    &&& locations_wf_seq(doc.locations)
    &&& roots_unique_seq(doc.locations)
    &&& characters_wf_seq(doc.characters)
    &&& scenes_ok(doc.pages, extra, doc.locations.len() as int, doc.scenes)
    &&& headings_ok(doc.pages, extra, doc.scenes)
    &&& chars_complete_ok(doc.pages, extra, doc.characters)
}

/// The accumulator a document value stands for.
pub open spec fn doc_of(d: ScreenplayDocument) -> DocBuild {
    DocBuild {
        pages: pages_view(d.pages),
        scenes: scenes_view(d.scenes),
        locations: locations_view(d.locations),
        characters: characters_view(d.characters),
    }
}

// --------------------------------------------------- invariant maintenance

/// Registering a name keeps the register sound and extends it by at most
/// one entry; afterwards the name is present.
proof fn lemma_register_wf(chars: Seq<CharacterV>, name: Seq<char>)
    requires
        characters_wf_seq(chars),
    ensures
        ({
            let chars2 = register_character_spec(chars, name);
            &&& characters_wf_seq(chars2)
            &&& chars.len() <= chars2.len()
            &&& (forall|i: int| 0 <= i < chars.len() ==> chars2[i] == #[trigger] chars[i])
            &&& char_name_exists(chars2, name)
        }),
{
    let chars2 = register_character_spec(chars, name);
    if char_name_exists(chars, name) {
    } else {
        assert(chars2.last().name == name);
        assert(chars2[chars.len() as int].name == name);
        assert forall|i: int, j: int|
            #![trigger chars2[i].name, chars2[j].name]
            0 <= i < j < chars2.len() implies chars2[i].name != chars2[j].name by {
            if j < chars.len() {
                assert(chars2[i] == chars[i]);
                assert(chars2[j] == chars[j]);
            } else {
                assert(chars2[i] == chars[i]);
                assert(!(chars[i].name == name));
            }
        }
    }
}

/// Appending a line that is no heading and carries no scene identifier
/// keeps the staged invariants, provided its character name (if it is a
/// cue) is registered in the possibly-grown register.
proof fn lemma_plain_step_ok(
    pages: Seq<PageV>,
    extra: Seq<LineV>,
    n_locations: int,
    scenes: Seq<SceneV>,
    ln: LineV,
    chars: Seq<CharacterV>,
    chars2: Seq<CharacterV>,
)
    requires
        scenes_ok(pages, extra, n_locations, scenes),
        headings_ok(pages, extra, scenes),
        chars_complete_ok(pages, extra, chars),
        ln.line_type != scene_heading_line_tag(),
        ln.scene_id is None,
        line_chars_ok(ln, chars2),
        chars.len() <= chars2.len(),
        forall|i: int| 0 <= i < chars.len() ==> chars2[i] == #[trigger] chars[i],
    ensures
        scenes_ok(pages, extra.push(ln), n_locations, scenes),
        headings_ok(pages, extra.push(ln), scenes),
        chars_complete_ok(pages, extra.push(ln), chars2),
{
    let extra2 = extra.push(ln);
    assert forall|i: int| 0 <= i < scenes.len() implies #[trigger] scene_entry_ok(
        pages,
        extra2,
        n_locations,
        scenes,
        i,
    ) by {
        assert(scene_entry_ok(pages, extra, n_locations, scenes, i));
        let s = scenes[i];
        if (s.start.page as int) >= pages.len() {
            assert(extra2[s.start.line as int] == extra[s.start.line as int]);
        }
    }
    assert forall|l: int| 0 <= l < extra2.len() implies heading_line_ok(
        #[trigger] extra2[l],
        pages.len() as int,
        l,
        scenes,
    ) by {
        if l < extra.len() {
            assert(extra2[l] == extra[l]);
            assert(heading_line_ok(extra[l], pages.len() as int, l, scenes));
        } else {
            assert(extra2[l] == ln);
        }
    }
    assert forall|p: int, l: int|
        #![trigger pages[p].lines[l]]
        0 <= p < pages.len() && 0 <= l < pages[p].lines.len() implies line_chars_ok(
        pages[p].lines[l],
        chars2,
    ) by {
        assert(line_chars_ok(pages[p].lines[l], chars));
        if pages[p].lines[l].line_type == Some(SPType::SP_CHARACTER) {
            let nm = character_name_of_line(pages[p].lines[l]);
            let w = choose|w: int| 0 <= w < chars.len() && (#[trigger] chars[w]).name == nm;
            assert(chars2[w].name == nm);
        }
    }
    assert forall|l: int| 0 <= l < extra2.len() implies line_chars_ok(
        #[trigger] extra2[l],
        chars2,
    ) by {
        if l < extra.len() {
            assert(extra2[l] == extra[l]);
            assert(line_chars_ok(extra[l], chars));
            if extra[l].line_type == Some(SPType::SP_CHARACTER) {
                let nm = character_name_of_line(extra[l]);
                let w = choose|w: int| 0 <= w < chars.len() && (#[trigger] chars[w]).name == nm;
                assert(chars2[w].name == nm);
            }
        } else {
            assert(extra2[l] == ln);
        }
    }
}

/// Appending a scene together with the heading line bound to it keeps the
/// staged invariants.
proof fn lemma_scene_step_ok(
    pages: Seq<PageV>,
    extra: Seq<LineV>,
    n1: int,
    n2: int,
    scenes: Seq<SceneV>,
    scene: SceneV,
    ln: LineV,
    chars: Seq<CharacterV>,
)
    requires
        scenes_ok(pages, extra, n1, scenes),
        headings_ok(pages, extra, scenes),
        chars_complete_ok(pages, extra, chars),
        n1 <= n2,
        scene.start.page as int == pages.len(),
        scene.start.line as int == extra.len(),
        scene.start.element is None,
        forall|j: int|
            0 <= j < scene.story_locations.len() ==> ((#[trigger] scene.story_locations[j]).0
                as int) < n2,
        ln.line_type == scene_heading_line_tag(),
        ln.scene_id == Some(SceneID(scenes.len() as u64)),
        scenes.len() <= u64::MAX,
    ensures
        scenes_ok(pages, extra.push(ln), n2, scenes.push(scene)),
        headings_ok(pages, extra.push(ln), scenes.push(scene)),
        chars_complete_ok(pages, extra.push(ln), chars),
{
    let extra2 = extra.push(ln);
    let scenes2 = scenes.push(scene);
    assert forall|i: int| 0 <= i < scenes2.len() implies #[trigger] scene_entry_ok(
        pages,
        extra2,
        n2,
        scenes2,
        i,
    ) by {
        if i < scenes.len() {
            assert(scene_entry_ok(pages, extra, n1, scenes, i));
            assert(scenes2[i] == scenes[i]);
            let s = scenes[i];
            if (s.start.page as int) >= pages.len() {
                assert(extra2[s.start.line as int] == extra[s.start.line as int]);
            }
        } else {
            assert(scenes2[i] == scene);
            assert(extra2[extra.len() as int] == ln);
        }
    }
    assert forall|p: int, l: int|
        #![trigger pages[p].lines[l]]
        0 <= p < pages.len() && 0 <= l < pages[p].lines.len() implies heading_line_ok(
        pages[p].lines[l],
        p,
        l,
        scenes2,
    ) by {
        assert(heading_line_ok(pages[p].lines[l], p, l, scenes));
        if pages[p].lines[l].line_type == scene_heading_line_tag() {
            let sid = pages[p].lines[l].scene_id->0;
            assert(scenes2[sid.0 as int] == scenes[sid.0 as int]);
        }
    }
    assert forall|l: int| 0 <= l < extra2.len() implies heading_line_ok(
        #[trigger] extra2[l],
        pages.len() as int,
        l,
        scenes2,
    ) by {
        if l < extra.len() {
            assert(extra2[l] == extra[l]);
            assert(heading_line_ok(extra[l], pages.len() as int, l, scenes));
            if extra[l].line_type == scene_heading_line_tag() {
                let sid = extra[l].scene_id->0;
                assert(scenes2[sid.0 as int] == scenes[sid.0 as int]);
            }
        } else {
            assert(extra2[l] == ln);
            assert(scenes2[scenes.len() as int] == scene);
        }
    }
    assert forall|l: int| 0 <= l < extra2.len() implies line_chars_ok(
        #[trigger] extra2[l],
        chars,
    ) by {
        if l < extra.len() {
            assert(extra2[l] == extra[l]);
            assert(line_chars_ok(extra[l], chars));
        } else {
            assert(extra2[l] == ln);
        }
    }
}

/// Closing a page — its collected lines become the next stored page —
/// keeps the staged invariants, with nothing left open.
proof fn lemma_close_page_ok(
    pages: Seq<PageV>,
    extra: Seq<LineV>,
    n_locations: int,
    scenes: Seq<SceneV>,
    chars: Seq<CharacterV>,
    pv: PageV,
)
    requires
        scenes_ok(pages, extra, n_locations, scenes),
        headings_ok(pages, extra, scenes),
        chars_complete_ok(pages, extra, chars),
        pv.lines == extra,
    ensures
        scenes_ok(pages.push(pv), Seq::<LineV>::empty(), n_locations, scenes),
        headings_ok(pages.push(pv), Seq::<LineV>::empty(), scenes),
        chars_complete_ok(pages.push(pv), Seq::<LineV>::empty(), chars),
{
    let pages2 = pages.push(pv);
    assert forall|i: int| 0 <= i < scenes.len() implies #[trigger] scene_entry_ok(
        pages2,
        Seq::<LineV>::empty(),
        n_locations,
        scenes,
        i,
    ) by {
        assert(scene_entry_ok(pages, extra, n_locations, scenes, i));
        let s = scenes[i];
        if (s.start.page as int) < pages.len() {
            assert(pages2[s.start.page as int] == pages[s.start.page as int]);
        } else {
            assert(pages2[s.start.page as int] == pv);
        }
    }
    assert forall|p: int, l: int|
        #![trigger pages2[p].lines[l]]
        0 <= p < pages2.len() && 0 <= l < pages2[p].lines.len() implies heading_line_ok(
        pages2[p].lines[l],
        p,
        l,
        scenes,
    ) by {
        if p < pages.len() {
            assert(pages2[p] == pages[p]);
            assert(heading_line_ok(pages[p].lines[l], p, l, scenes));
        } else {
            assert(pages2[p] == pv);
            assert(heading_line_ok(extra[l], pages.len() as int, l, scenes));
        }
    }
    assert forall|p: int, l: int|
        #![trigger pages2[p].lines[l]]
        0 <= p < pages2.len() && 0 <= l < pages2[p].lines.len() implies line_chars_ok(
        pages2[p].lines[l],
        chars,
    ) by {
        if p < pages.len() {
            assert(pages2[p] == pages[p]);
            assert(line_chars_ok(pages[p].lines[l], chars));
        } else {
            assert(pages2[p] == pv);
            assert(line_chars_ok(extra[l], chars));
        }
    }
}

// ------------------------------------------------------------ the line step

/// Consume one input line: assemble it, compute its vertical gap, repair
/// its untagged elements, register its character cue or its scene, and
/// append it to the open page.
fn process_line(
    pdf_line: &crate::pdf_document::Line,
    new_doc: &mut ScreenplayDocument,
    page_lines: &mut Vec<Line>,
    page_number: &mut Option<String>,
    page_revised: &mut bool,
    prev_y: &mut u32,
    ind: &ElementIndentations,
    tod: &TimeOfDayCollection,
    env: &EnvironmentStrings,
    r_marker: &String,
)
    requires
        pdf_line.words@.len() > 0,
        build_ok(doc_of(*old(new_doc)), lines_view(*old(page_lines))),
    ensures
        ({
            let (d2, p2) = line_step_spec(
                doc_of(*old(new_doc)),
                PageBuild {
                    lines: lines_view(*old(page_lines)),
                    page_number: opt_string_view(*old(page_number)),
                    page_revised: *old(page_revised),
                    prev_y: *old(prev_y) as int,
                },
                pdf_line@,
                ParseCfg { ind: *ind, tod: tod@, env: env@, marker: r_marker@ },
            );
            &&& doc_of(*final(new_doc)) == d2
            &&& lines_view(*final(page_lines)) == p2.lines
            &&& opt_string_view(*final(page_number)) == p2.page_number
            &&& *final(page_revised) == p2.page_revised
            &&& *final(prev_y) as int == p2.prev_y
        }),
        build_ok(doc_of(*final(new_doc)), lines_view(*final(page_lines))),
        final(new_doc).pages == old(new_doc).pages,
        final(new_doc).revisions == old(new_doc).revisions,
        final(new_doc).page_numbers == old(new_doc).page_numbers,
{
    let ghost doc0 = doc_of(*new_doc);
    let ghost pg0 = PageBuild {
        lines: lines_view(*page_lines),
        page_number: opt_string_view(*page_number),
        page_revised: *page_revised,
        prev_y: *prev_y as int,
    };
    let ghost cfg = ParseCfg { ind: *ind, tod: tod@, env: env@, marker: r_marker@ };
    let ghost words = pdf_line@;
    let ghost st = line_build_at(
        words,
        words.len() as int,
        line_build_init(pg0.page_number, pg0.page_revised),
        cfg.ind,
        cfg.tod,
        cfg.env,
        cfg.marker,
    );

    let mut new_line = build_line(pdf_line, page_number, page_revised, ind, tod, env, r_marker);
    let cur_y = pdf_line.words[0].position.y;
    proof {
        assert(words[0] == pdf_line.words@[0]@);
    }
    let old_prev = *prev_y;
    let empty: u64 = if old_prev > 100 && (old_prev as u64) > (cur_y as u64) + 1200 {
        (((old_prev as u64) - (cur_y as u64)) + 1199) / 1200
    } else {
        0
    };
    proof {
        assert(empty as int == empty_lines_spec(pg0.prev_y, cur_y as int));
    }
    new_line.preceding_empty_lines = empty;
    *prev_y = cur_y;

    let ghost line0 = LineV {
        text_elements: st.elements,
        scene_number: st.scene_number,
        scene_id: None,
        line_type: st.line_type,
        preceding_empty_lines: empty as int,
        revised: st.revised,
        blank: false,
    };
    proof {
        assert(new_line@ =~= line0);
    }

    if new_line.text_elements.len() > 0 {
        fix_line_elements(&mut new_line);
        let ghost line1 = fix_elements_spec(line0);
        proof {
            assert(new_line@ == line1);
        }
        if new_line.line_type == Some(SPType::SP_CHARACTER) {
            let name = character_name_of(&new_line);
            proof {
                lemma_register_wf(doc0.characters, name@);
            }
            register_character(&mut new_doc.characters, name);
            proof {
                lemma_plain_step_ok(
                    doc0.pages,
                    pg0.lines,
                    doc0.locations.len() as int,
                    doc0.scenes,
                    line1,
                    doc0.characters,
                    characters_view(new_doc.characters),
                );
            }
            page_lines.push(new_line);
            proof {
                assert(lines_view(*page_lines) =~= pg0.lines.push(line1));
                assert(doc_of(*new_doc) =~= line_step_spec(doc0, pg0, words, cfg).0);
            }
        } else if new_line.line_type == Some(
            SPType::SP_SCENE_HEADING(SceneHeadingElement::Line),
        ) {
            let (root_str, path) = scan_heading(&new_line);
            let root_id = intern_root(&mut new_doc.locations, &root_str);
            let tail: &[String] = if path.len() > 0 {
                &path.as_slice()[1..path.len()]
            } else {
                &path.as_slice()[0..0]
            };
            proof {
                let hs = heading_scan_of(line1);
                assert(tail.deep_view() =~= tail_frags(hs.path));
            }
            let mut tail_chain = intern_tail(&mut new_doc.locations, root_id, tail);
            let mut story_locations: Vec<LocationID> = Vec::new();
            story_locations.push(root_id);
            let ghost tail_ids = tail_chain@;
            story_locations.append(&mut tail_chain);
            proof {
                assert(story_locations@ =~= seq![root_id] + tail_ids);
            }
            let environment = line_environment(&new_line, env);
            let story_time_of_day = line_time_of_day(&new_line, tod);
            let scenes_len = new_doc.scenes.len();
            let sid = SceneID(scenes_len as u64);
            let number = match &new_line.scene_number {
                Some(s) => Some(SceneNumber(s.clone())),
                None => None,
            };
            let scene = Scene {
                start: ScreenplayCoordinate {
                    page: new_doc.pages.len(),
                    line: page_lines.len(),
                    element: None,
                },
                environment,
                number,
                revised: new_line.revised,
                story_locations,
                story_time_of_day,
            };
            let ghost scene_v = scene@;
            new_doc.scenes.push(scene);
            new_line.scene_id = Some(sid);
            let ghost line2 = LineV { scene_id: Some(sid), ..line1 };
            proof {
                assert(new_line@ =~= line2);
                let (locs1, spec_root) = intern_root_spec(doc0.locations, heading_scan_of(line1).root);
                let (locs2, spec_tail) = intern_tail_spec(
                    locs1,
                    spec_root,
                    tail_frags(heading_scan_of(line1).path),
                );
                assert(locations_view(new_doc.locations) == locs2);
                assert(scenes_view(new_doc.scenes) =~= doc0.scenes.push(scene_v));
                assert(scene_v =~= line_step_spec(doc0, pg0, words, cfg).0.scenes.last());
                lemma_scene_step_ok(
                    doc0.pages,
                    pg0.lines,
                    doc0.locations.len() as int,
                    locs2.len() as int,
                    doc0.scenes,
                    scene_v,
                    line2,
                    doc0.characters,
                );
            }
            page_lines.push(new_line);
            proof {
                assert(lines_view(*page_lines) =~= pg0.lines.push(line2));
                assert(doc_of(*new_doc) =~= line_step_spec(doc0, pg0, words, cfg).0);
            }
        } else {
            proof {
                lemma_plain_step_ok(
                    doc0.pages,
                    pg0.lines,
                    doc0.locations.len() as int,
                    doc0.scenes,
                    line1,
                    doc0.characters,
                    doc0.characters,
                );
            }
            page_lines.push(new_line);
            proof {
                assert(lines_view(*page_lines) =~= pg0.lines.push(line1));
                assert(doc_of(*new_doc) =~= line_step_spec(doc0, pg0, words, cfg).0);
            }
        }
    }
}

// ------------------------------------------------------------- whole parse

/// Parse positioned input into a screenplay document.
///
/// Empty input (no pages at all) yields nothing. Otherwise the result is
/// exactly the fold [`parse_spec`] of the input under the resolved
/// configuration — so parsing equal inputs gives structurally equal
/// documents — and the document is well formed: every scene-heading line
/// is bound to the scene starting there and back, the location forest has
/// reciprocal, acyclic parent/child links with unique root strings, and
/// every character cue's name is registered.
pub fn get_screenplay_doc_from_pdf_obj(
    doc: PDFDocument,
    element_indentations_opt: Option<ElementIndentations>,
    rev_marker_opt: Option<String>,
    time_of_day_strs_opt: Option<TimeOfDayCollection>,
    env_strs_opt: Option<EnvironmentStrings>,
) -> (r: Option<ScreenplayDocument>)
    ensures
        ({
            let cfg = resolved_cfg(
                element_indentations_opt,
                rev_marker_opt,
                time_of_day_strs_opt,
                env_strs_opt,
            );
            match r {
                None => doc@.len() == 0,
                Some(d) => {
                    &&& doc@.len() > 0
                    &&& Some(d@) == parse_spec(doc@, cfg)
                    &&& d@.wf()
                    &&& d@.characters_complete()
                },
            }
        }),
{
    let ghost cfg = resolved_cfg(
        element_indentations_opt,
        rev_marker_opt,
        time_of_day_strs_opt,
        env_strs_opt,
    );
    if doc.pages.len() < 1 {
        return None;
    }
    let ind = match element_indentations_opt {
        Some(i) => i,
        None => ElementIndentations::us_letter_default(),
    };
    let r_marker = match rev_marker_opt {
        Some(m) => m,
        None => "*".to_owned(),
    };
    let tod = match time_of_day_strs_opt {
        Some(t) => t,
        None => TimeOfDayCollection::default(),
    };
    let env = match env_strs_opt {
        Some(e) => e,
        None => EnvironmentStrings::default(),
    };
    proof {
        assert(cfg.ind == ind);
        assert(cfg.tod =~= tod@);
        assert(cfg.env =~= env@);
        assert(cfg.marker == r_marker@);
        assert(cfg == (ParseCfg { ind: ind, tod: tod@, env: env@, marker: r_marker@ }));
    }

    let mut new_doc = ScreenplayDocument::new();
    proof {
        assert(doc_of(new_doc) =~= doc_build_at(doc@, 0, cfg));
        assert(build_ok(doc_of(new_doc), Seq::<LineV>::empty()));
    }
    let np = doc.pages.len();
    let mut pi: usize = 0;
    while pi < np
        invariant
            pi <= np,
            np == doc.pages@.len(),
            doc@.len() == np,
            cfg == (ParseCfg { ind: ind, tod: tod@, env: env@, marker: r_marker@ }),
            doc_of(new_doc) == doc_build_at(doc@, pi as int, cfg),
            build_ok(doc_of(new_doc), Seq::<LineV>::empty()),
            new_doc.revisions is None,
            new_doc.page_numbers@.len() == 0,
        decreases np - pi,
    {
        let ghost doc_before = doc_of(new_doc);
        let pdf_page = &doc.pages[pi];
        proof {
            assert(doc@[pi as int] == doc.pages@[pi as int]@);
        }
        if pdf_page.lines.len() >= 1 {
            let mut page_lines: Vec<Line> = Vec::new();
            let mut page_number: Option<String> = None;
            let mut page_revised = false;
            let mut prev_y: u32 = 0;
            proof {
                assert(lines_view(page_lines) =~= Seq::<LineV>::empty());
                assert(page_lines_at(doc_before, pdf_page@, 0, cfg) == (
                    doc_before,
                    page_build_init(),
                ));
            }
            let nl = pdf_page.lines.len();
            let mut li: usize = 0;
            while li < nl
                invariant
                    li <= nl,
                    nl == pdf_page.lines@.len(),
                    pdf_page@.len() == nl,
                    cfg == (ParseCfg { ind: ind, tod: tod@, env: env@, marker: r_marker@ }),
                    ({
                        let (d, p) = page_lines_at(doc_before, pdf_page@, li as int, cfg);
                        &&& doc_of(new_doc) == d
                        &&& lines_view(page_lines) == p.lines
                        &&& opt_string_view(page_number) == p.page_number
                        &&& page_revised == p.page_revised
                        &&& prev_y as int == p.prev_y
                    }),
                    build_ok(doc_of(new_doc), lines_view(page_lines)),
                    pages_view(new_doc.pages) == doc_before.pages,
                    new_doc.revisions is None,
                    new_doc.page_numbers@.len() == 0,
                decreases nl - li,
            {
                let pdf_line = &pdf_page.lines[li];
                proof {
                    assert(pdf_page@[li as int] == pdf_page.lines@[li as int]@);
                }
                let ghost d_pre = doc_of(new_doc);
                let ghost p_pre = page_lines_at(doc_before, pdf_page@, li as int, cfg).1;
                if pdf_line.words.len() >= 1 {
                    process_line(
                        pdf_line,
                        &mut new_doc,
                        &mut page_lines,
                        &mut page_number,
                        &mut page_revised,
                        &mut prev_y,
                        &ind,
                        &tod,
                        &env,
                        &r_marker,
                    );
                } else {
                    proof {
                        assert(pdf_line@.len() == 0);
                        assert(line_step_spec(d_pre, p_pre, pdf_line@, cfg) == (d_pre, p_pre));
                    }
                }
                li += 1;
                proof {
                    assert(page_lines_at(doc_before, pdf_page@, li as int, cfg)
                        == line_step_spec(
                        page_lines_at(doc_before, pdf_page@, li - 1, cfg).0,
                        page_lines_at(doc_before, pdf_page@, li - 1, cfg).1,
                        pdf_page@[li - 1],
                        cfg,
                    ));
                }
            }
            let ghost p_end = page_lines_at(doc_before, pdf_page@, nl as int, cfg).1;
            if page_lines.len() > 0 {
                let pn = match page_number {
                    Some(s) => Some(PageNumber(s)),
                    None => None,
                };
                let page = Page {
                    lines: page_lines,
                    page_number: pn,
                    page_id: None,
                    revised: page_revised,
                    revision_label: None,
                    revision_date: None,
                    page_format: None,
                };
                let ghost page_v = page@;
                let ghost d_end = doc_of(new_doc);
                proof {
                    assert(page_v =~= page_of_build(p_end));
                    lemma_close_page_ok(
                        d_end.pages,
                        p_end.lines,
                        d_end.locations.len() as int,
                        d_end.scenes,
                        d_end.characters,
                        page_v,
                    );
                }
                new_doc.pages.push(page);
                proof {
                    assert(pages_view(new_doc.pages) =~= d_end.pages.push(page_v));
                    assert(doc_of(new_doc) =~= page_step_spec(doc_before, pdf_page@, cfg));
                    assert(doc_of(new_doc).scenes == d_end.scenes);
                    assert(doc_of(new_doc).locations == d_end.locations);
                    assert(doc_of(new_doc).characters == d_end.characters);
                    assert(build_ok(doc_of(new_doc), Seq::<LineV>::empty()));
                }
            } else {
                proof {
                    assert(p_end.lines.len() == 0);
                    assert(doc_of(new_doc) =~= page_step_spec(doc_before, pdf_page@, cfg));
                    assert(lines_view(page_lines) =~= Seq::<LineV>::empty());
                    assert(build_ok(doc_of(new_doc), Seq::<LineV>::empty()));
                }
            }
        } else {
            proof {
                assert(pdf_page@.len() == 0);
                assert(page_step_spec(doc_before, pdf_page@, cfg) == doc_before);
            }
        }
        pi += 1;
        proof {
            assert(doc_build_at(doc@, pi as int, cfg) == page_step_spec(
                doc_build_at(doc@, pi - 1, cfg),
                doc@[pi - 1],
                cfg,
            ));
        }
    }

    proof {
        let db = doc_build_at(doc@, np as int, cfg);
        assert(new_doc@.pages == db.pages);
        assert(new_doc@.scenes == db.scenes);
        assert(new_doc@.locations == db.locations);
        assert(new_doc@.characters == db.characters);
        assert(new_doc@.revisions is None);
        assert(new_doc@.page_numbers =~= Seq::<(crate::screenplay_document::PageID, Seq<char>)>::empty());
        assert(new_doc@ =~= parse_spec(doc@, cfg)->0);
        // Well-formedness of the finished document, from the staged
        // invariants with nothing left open.
        assert forall|i: int| 0 <= i < new_doc@.scenes.len() implies #[trigger] new_doc@.scene_wf(
            i,
        ) by {
            assert(scene_entry_ok(
                db.pages,
                Seq::<LineV>::empty(),
                db.locations.len() as int,
                db.scenes,
                i,
            ));
        }
        assert(new_doc@.scenes_wf());
        assert forall|p: int, l: int|
            #![trigger new_doc@.pages[p].lines[l]]
            0 <= p < new_doc@.pages.len() && 0 <= l < new_doc@.pages[p].lines.len() implies ({
            let ln = new_doc@.pages[p].lines[l];
            &&& (ln.line_type == scene_heading_line_tag() ==> (ln.scene_id matches Some(sid)
                && (sid.0 as int) < new_doc@.scenes.len() && new_doc@.scenes[sid.0 as int].start.page
                == p && new_doc@.scenes[sid.0 as int].start.line == l))
            &&& (ln.scene_id is Some ==> ln.line_type == scene_heading_line_tag())
        }) by {
            assert(heading_line_ok(db.pages[p].lines[l], p, l, db.scenes));
        }
        assert(new_doc@.headings_wf());
        assert forall|p: int, l: int|
            #![trigger new_doc@.pages[p].lines[l]]
            0 <= p < new_doc@.pages.len() && 0 <= l < new_doc@.pages[p].lines.len()
                && new_doc@.pages[p].lines[l].line_type == Some(SPType::SP_CHARACTER) implies exists|c: int|
            0 <= c < new_doc@.characters.len() && (#[trigger] new_doc@.characters[c]).name
                == character_name_of_line(new_doc@.pages[p].lines[l]) by {
            assert(line_chars_ok(db.pages[p].lines[l], db.characters));
        }
        assert(new_doc@.characters_complete());
        assert(new_doc@.wf());
    }
    Some(new_doc)
}

} // verus!
