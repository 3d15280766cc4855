//! Scene and location building: slugline path extraction from a completed
//! scene-heading line, interning of location paths into the document's
//! location forest, and the character register.

use vstd::prelude::*;
use vstd::string::StringExecFns;
use crate::screenplay_document::{
    character_name_at, character_name_of_line, environment_from_str_spec, first_matching_child,
    get_time_of_day_spec, locations_view, characters_view, opt_string_view, opt_time_of_day_view,
    Character, CharacterID, CharacterV, Environment, EnvironmentStrings, Line, LineV,
    LocationID, LocationNode, LocationNodeV, SceneHeadingElement, SPType, TextElementV,
    TimeOfDay, TimeOfDayCollection,
};

verus! {

/// `a` and `b` joined by a space, unless `a` is still empty.
pub open spec fn space_join(a: Seq<char>, b: Seq<char>) -> Seq<char> {
    if a.len() > 0 {
        a + " "@ + b
    } else {
        b
    }
}

/// Scan state of the slugline path extraction: the root fragment being
/// collected, the sub-location fragment being collected, the fragments
/// already finalised, and whether the root is closed or the scan stopped.
#[verifier::ext_equal]
pub struct HeadingScan {
    pub root: Seq<char>,
    pub cur_sub: Seq<char>,
    pub path: Seq<Seq<char>>,
    pub root_done: bool,
    pub stopped: bool,
}

pub open spec fn heading_scan_init() -> HeadingScan {
    HeadingScan {
        root: Seq::<char>::empty(),
        cur_sub: Seq::<char>::empty(),
        path: Seq::<Seq<char>>::empty(),
        root_done: false,
        stopped: false,
    }
}

/// One element of the heading consumed: environment and location words
/// extend the root, separators finalise the root or the pending
/// sub-location, sub-location words extend the pending fragment, and any
/// other tag after the root began stops the scan.
pub open spec fn heading_scan_step(st: HeadingScan, e: TextElementV) -> HeadingScan {
    if st.stopped {
        st
    } else {
        match e.element_type {
            Some(SPType::SP_SCENE_HEADING(SceneHeadingElement::Location)) | Some(
                SPType::SP_SCENE_HEADING(SceneHeadingElement::Environment),
            ) => HeadingScan { root: space_join(st.root, e.text), ..st },
            Some(SPType::SP_SCENE_HEADING(SceneHeadingElement::Separator)) => {
                if st.root_done {
                    if st.cur_sub.len() > 0 {
                        HeadingScan {
                            path: st.path.push(st.cur_sub),
                            cur_sub: Seq::<char>::empty(),
                            ..st
                        }
                    } else {
                        st
                    }
                } else {
                    HeadingScan { root_done: true, path: st.path.push(st.root), ..st }
                }
            },
            Some(SPType::SP_SCENE_HEADING(SceneHeadingElement::SubLocation)) => HeadingScan {
                cur_sub: space_join(st.cur_sub, e.text),
                ..st
            },
            _ => {
                if st.root.len() > 0 {
                    HeadingScan { stopped: true, ..st }
                } else {
                    st
                }
            },
        }
    }
}

/// The scan state after the first `i` elements.
pub open spec fn heading_scan_at(elems: Seq<TextElementV>, i: int) -> HeadingScan
    decreases i,
{
    if i <= 0 {
        heading_scan_init()
    } else {
        heading_scan_step(heading_scan_at(elems, i - 1), elems[i - 1])
    }
}

/// The root string and finalised path fragments of a scene-heading line.
pub open spec fn heading_scan_of(line: LineV) -> HeadingScan {
    heading_scan_at(line.text_elements, line.text_elements.len() as int)
}

/// Extract the slugline's root string and finalised path fragments.
pub fn scan_heading(line: &Line) -> (r: (String, Vec<String>))
    ensures
        r.0@ == heading_scan_of(line@).root,
        r.1.deep_view() == heading_scan_of(line@).path,
{
    let ghost elems = line@.text_elements;
    let mut root = String::new();
    let mut cur_sub = String::new();
    let mut path: Vec<String> = Vec::new();
    let mut root_done = false;
    let mut stopped = false;
    let n = line.text_elements.len();
    let mut i: usize = 0;
    while i < n
        invariant
            i <= n,
            n == line.text_elements.len(),
            elems == line@.text_elements,
            elems.len() == n,
            root@ == heading_scan_at(elems, i as int).root,
            cur_sub@ == heading_scan_at(elems, i as int).cur_sub,
            path.deep_view() == heading_scan_at(elems, i as int).path,
            root_done == heading_scan_at(elems, i as int).root_done,
            stopped == heading_scan_at(elems, i as int).stopped,
        decreases n - i,
    {
        let e = &line.text_elements[i];
        proof {
            assert(elems[i as int] == line.text_elements@[i as int]@);
        }
        if !stopped {
            match e.element_type {
                Some(SPType::SP_SCENE_HEADING(SceneHeadingElement::Location)) | Some(
                    SPType::SP_SCENE_HEADING(SceneHeadingElement::Environment),
                ) => {
                    if !root.as_str().is_empty() {
                        root.append(" ");
                    }
                    root.append(e.text.as_str());
                },
                Some(SPType::SP_SCENE_HEADING(SceneHeadingElement::Separator)) => {
                    if root_done {
                        if !cur_sub.as_str().is_empty() {
                            let ghost old_path = path.deep_view();
                            path.push(cur_sub);
                            cur_sub = String::new();
                            proof {
                                assert(path.deep_view() =~= old_path.push(
                                    heading_scan_at(elems, i as int).cur_sub,
                                ));
                            }
                        }
                    } else {
                        root_done = true;
                        let ghost old_path = path.deep_view();
                        path.push(root.clone());
                        proof {
                            assert(path.deep_view() =~= old_path.push(
                                heading_scan_at(elems, i as int).root,
                            ));
                        }
                    }
                },
                Some(SPType::SP_SCENE_HEADING(SceneHeadingElement::SubLocation)) => {
                    if !cur_sub.as_str().is_empty() {
                        cur_sub.append(" ");
                    }
                    cur_sub.append(e.text.as_str());
                },
                _ => {
                    if !root.as_str().is_empty() {
                        stopped = true;
                    }
                },
            }
        }
        i += 1;
    }
    (root, path)
}

/// The text of the first element carrying `tag` among the first `i`.
pub open spec fn first_text_with_tag(elems: Seq<TextElementV>, tag: SPType, i: int) -> Option<
    Seq<char>,
>
    decreases i,
{
    if i <= 0 {
        None
    } else {
        match first_text_with_tag(elems, tag, i - 1) {
            Some(t) => Some(t),
            None => {
                if elems[i - 1].element_type == Some(tag) {
                    Some(elems[i - 1].text)
                } else {
                    None
                }
            },
        }
    }
}

proof fn lemma_first_text_found(elems: Seq<TextElementV>, tag: SPType, i: int, j: int)
    requires
        0 <= i < j <= elems.len(),
        first_text_with_tag(elems, tag, i) is None,
        elems[i].element_type == Some(tag),
    ensures
        first_text_with_tag(elems, tag, j) == Some(elems[i].text),
    decreases j,
{
    if j > i + 1 {
        lemma_first_text_found(elems, tag, i, j - 1);
    }
}

/// The text of the first element of the line carrying `tag`.
fn find_first_text_with_tag(line: &Line, tag: SPType) -> (r: Option<String>)
    ensures
        opt_string_view(r) == first_text_with_tag(
            line@.text_elements,
            tag,
            line@.text_elements.len() as int,
        ),
{
    let ghost elems = line@.text_elements;
    let n = line.text_elements.len();
    let mut i: usize = 0;
    while i < n
        invariant
            i <= n,
            n == line.text_elements.len(),
            elems == line@.text_elements,
            elems.len() == n,
            first_text_with_tag(elems, tag, i as int) is None,
        decreases n - i,
    {
        let e = &line.text_elements[i];
        proof {
            assert(elems[i as int] == line.text_elements@[i as int]@);
        }
        if e.element_type == Some(tag) {
            proof {
                lemma_first_text_found(elems, tag, i as int, n as int);
            }
            return Some(e.text.clone());
        }
        i += 1;
    }
    None
}

/// The environment of a scene-heading line: the vocabulary's reading of
/// the first environment-tagged word, exterior when there is none or it is
/// not recognised.
pub open spec fn line_environment_spec(line: LineV, env: crate::screenplay_document::EnvironmentStringsV) -> Environment {
    match first_text_with_tag(
        line.text_elements,
        SPType::SP_SCENE_HEADING(SceneHeadingElement::Environment),
        line.text_elements.len() as int,
    ) {
        Some(t) => match environment_from_str_spec(env, t) {
            Some(e) => e,
            None => Environment::Ext,
        },
        None => Environment::Ext,
    }
}

/// The environment of a scene-heading line.
pub fn line_environment(line: &Line, env: &EnvironmentStrings) -> (r: Environment)
    ensures
        r == line_environment_spec(line@, env@),
{
    match find_first_text_with_tag(line, SPType::SP_SCENE_HEADING(SceneHeadingElement::Environment)) {
        Some(t) => match Environment::from_str(&t, env) {
            Some(e) => e,
            None => Environment::Ext,
        },
        None => Environment::Ext,
    }
}

/// The time of day of a scene-heading line: the vocabulary's reading of
/// the first time-tagged word, none when there is no such word.
pub open spec fn line_time_of_day_spec(
    line: LineV,
    tod: crate::screenplay_document::TimeOfDayCollectionV,
) -> Option<crate::screenplay_document::TimeOfDayV> {
    match first_text_with_tag(
        line.text_elements,
        SPType::SP_SCENE_HEADING(SceneHeadingElement::TimeOfDay),
        line.text_elements.len() as int,
    ) {
        Some(t) => get_time_of_day_spec(tod, t),
        None => None,
    }
}

/// The time of day of a scene-heading line.
pub fn line_time_of_day(line: &Line, tod: &TimeOfDayCollection) -> (r: Option<TimeOfDay>)
    ensures
        opt_time_of_day_view(r) == line_time_of_day_spec(line@, tod@),
{
    match find_first_text_with_tag(line, SPType::SP_SCENE_HEADING(SceneHeadingElement::TimeOfDay)) {
        Some(t) => tod.get_time_of_day(&t),
        None => None,
    }
}

// --------------------------------------------------------------- characters

/// A character list holds a character of the given name.
pub open spec fn char_name_exists(chars: Seq<CharacterV>, name: Seq<char>) -> bool {
    exists|i: int| 0 <= i < chars.len() && (#[trigger] chars[i]).name == name
}

/// Registering a name: unchanged when the name is known, else extended by
/// a character keyed by its position.
pub open spec fn register_character_spec(chars: Seq<CharacterV>, name: Seq<char>) -> Seq<
    CharacterV,
> {
    if char_name_exists(chars, name) {
        chars
    } else {
        chars.push(CharacterV { name, id: CharacterID(chars.len() as u64) })
    }
}

/// The space-joined text of the character-tagged elements of a line.
pub fn character_name_of(line: &Line) -> (r: String)
    ensures
        r@ == character_name_of_line(line@),
{
    let ghost elems = line@.text_elements;
    let mut acc = String::new();
    let n = line.text_elements.len();
    let mut i: usize = 0;
    while i < n
        invariant
            i <= n,
            n == line.text_elements.len(),
            elems == line@.text_elements,
            elems.len() == n,
            acc@ == character_name_at(elems, i as int),
        decreases n - i,
    {
        let e = &line.text_elements[i];
        proof {
            assert(elems[i as int] == line.text_elements@[i as int]@);
        }
        if e.element_type == Some(SPType::SP_CHARACTER) {
            if !acc.as_str().is_empty() {
                acc.append(" ");
            }
            acc.append(e.text.as_str());
        }
        i += 1;
    }
    acc
}

/// Register `name`, unless a character of that name exists already.
pub fn register_character(characters: &mut Vec<Character>, name: String)
    ensures
        characters_view(*final(characters)) == register_character_spec(
            characters_view(*old(characters)),
            name@,
        ),
{
    let ghost chars0 = characters_view(*characters);
    let n = characters.len();
    let mut i: usize = 0;
    while i < n
        invariant
            i <= n,
            n == characters@.len(),
            chars0 == characters_view(*characters),
            forall|j: int| 0 <= j < i ==> (#[trigger] chars0[j]).name != name@,
        decreases n - i,
    {
        proof {
            assert(chars0[i as int] == characters@[i as int]@);
        }
        if characters[i].name == name {
            return ;
        }
        i += 1;
    }
    let id = CharacterID(characters.len() as u64);
    characters.push(Character { name, id });
    proof {
        assert(characters_view(*characters) =~= register_character_spec(chars0, name@));
    }
}

// ---------------------------------------------------------------- locations

/// The first root node (scanning from position `i`) whose string is `s`.
pub open spec fn find_root_from(locations: Seq<LocationNodeV>, s: Seq<char>, i: int) -> Option<
    int,
>
    decreases locations.len() - i,
{
    if i < 0 || i >= locations.len() {
        None
    } else if locations[i].superlocation is None && locations[i].string == s {
        Some(i)
    } else {
        find_root_from(locations, s, i + 1)
    }
}

/// Interning a root string: the identifier of the existing root with that
/// string, or of a fresh root node appended to the arena.
pub open spec fn intern_root_spec(locations: Seq<LocationNodeV>, s: Seq<char>) -> (
    Seq<LocationNodeV>,
    LocationID,
) {
    match find_root_from(locations, s, 0) {
        Some(i) => (locations, LocationID(i as u64)),
        None => (
            locations.push(
                LocationNodeV {
                    string: s,
                    sublocations: Seq::<LocationID>::empty(),
                    superlocation: None,
                },
            ),
            LocationID(locations.len() as u64),
        ),
    }
}

proof fn lemma_find_root_none(locations: Seq<LocationNodeV>, s: Seq<char>, i: int)
    requires
        0 <= i,
        find_root_from(locations, s, i) is None,
    ensures
        forall|j: int|
            i <= j < locations.len() ==> !((#[trigger] locations[j]).superlocation is None
                && locations[j].string == s),
    decreases locations.len() - i,
{
    if i < locations.len() {
        lemma_find_root_none(locations, s, i + 1);
    }
}

pub(crate) proof fn lemma_find_root_some(locations: Seq<LocationNodeV>, s: Seq<char>, i: int)
    requires
        0 <= i,
        find_root_from(locations, s, i) is Some,
    ensures
        ({
            let k = find_root_from(locations, s, i)->0;
            i <= k < locations.len() && locations[k].superlocation is None && locations[k].string
                == s
        }),
    decreases locations.len() - i,
{
    if i < locations.len() {
        if locations[i].superlocation is None && locations[i].string == s {
        } else {
            lemma_find_root_some(locations, s, i + 1);
        }
    }
}

/// Appending a fresh root node keeps the arena sound, provided no root
/// with its string exists yet.
proof fn lemma_push_root_preserves(locs0: Seq<LocationNodeV>, s: Seq<char>)
    requires
        crate::screenplay_document::locations_wf_seq(locs0),
        crate::screenplay_document::roots_unique_seq(locs0),
        find_root_from(locs0, s, 0) is None,
    ensures
        ({
            let locs1 = locs0.push(
                LocationNodeV {
                    string: s,
                    sublocations: Seq::<LocationID>::empty(),
                    superlocation: None,
                },
            );
            crate::screenplay_document::locations_wf_seq(locs1)
                && crate::screenplay_document::roots_unique_seq(locs1)
        }),
{
    lemma_find_root_none(locs0, s, 0);
    let locs1 = locs0.push(
        LocationNodeV { string: s, sublocations: Seq::<LocationID>::empty(), superlocation: None },
    );
    assert forall|i: int| 0 <= i < locs1.len() implies #[trigger]
        crate::screenplay_document::location_node_wf_seq(locs1, i) by {
        if i < locs0.len() {
            assert(crate::screenplay_document::location_node_wf_seq(locs0, i));
            let n = locs0[i];
            assert(locs1[i] == n);
            match n.superlocation {
                Some(p) => {
                    assert(locs1[p.0 as int] == locs0[p.0 as int]);
                    let k = choose|k: int|
                        0 <= k < locs0[p.0 as int].sublocations.len() && locs0[p.0 as int].sublocations[k]
                            == LocationID(i as u64);
                    assert(locs1[p.0 as int].sublocations[k] == LocationID(i as u64));
                },
                None => {},
            }
            assert forall|j: int| 0 <= j < n.sublocations.len() implies {
                let c = #[trigger] n.sublocations[j];
                i < (c.0 as int) < locs1.len() && locs1[c.0 as int].superlocation == Some(
                    LocationID(i as u64),
                )
            } by {
                let c = n.sublocations[j];
                assert(i < (c.0 as int) < locs0.len());
                assert(locs1[c.0 as int] == locs0[c.0 as int]);
            }
        } else {
            assert(locs1[i].sublocations.len() == 0);
        }
    }
    assert forall|i: int, j: int|
        #![trigger locs1[i].string, locs1[j].string]
        0 <= i < locs1.len() && 0 <= j < locs1.len() && locs1[i].superlocation is None
            && locs1[j].superlocation is None && locs1[i].string == locs1[j].string implies i
        == j by {
        if i < locs0.len() && j < locs0.len() {
            assert(locs1[i] == locs0[i]);
            assert(locs1[j] == locs0[j]);
        } else if i < locs0.len() && j == locs0.len() {
            assert(locs1[i] == locs0[i]);
            assert(!(locs0[i].superlocation is None && locs0[i].string == s));
        } else if i == locs0.len() && j < locs0.len() {
            assert(locs1[j] == locs0[j]);
            assert(!(locs0[j].superlocation is None && locs0[j].string == s));
        }
    }
}

/// Attaching a fresh node (whose identifier is exactly the arena's length)
/// as a child of an existing node keeps the arena sound.
proof fn lemma_attach_child_preserves(locs0: Seq<LocationNodeV>, cur: LocationID, s: Seq<char>)
    requires
        crate::screenplay_document::locations_wf_seq(locs0),
        crate::screenplay_document::roots_unique_seq(locs0),
        (cur.0 as int) < locs0.len(),
        locs0.len() <= u64::MAX,
    ensures
        ({
            let new_id = LocationID(locs0.len() as u64);
            let parent = locs0[cur.0 as int];
            let locs1 = locs0.update(
                cur.0 as int,
                LocationNodeV { sublocations: parent.sublocations.push(new_id), ..parent },
            ).push(
                LocationNodeV {
                    string: s,
                    sublocations: Seq::<LocationID>::empty(),
                    superlocation: Some(cur),
                },
            );
            crate::screenplay_document::locations_wf_seq(locs1)
                && crate::screenplay_document::roots_unique_seq(locs1)
        }),
{
    let new_id = LocationID(locs0.len() as u64);
    let parent = locs0[cur.0 as int];
    let locs1 = locs0.update(
        cur.0 as int,
        LocationNodeV { sublocations: parent.sublocations.push(new_id), ..parent },
    ).push(
        LocationNodeV {
            string: s,
            sublocations: Seq::<LocationID>::empty(),
            superlocation: Some(cur),
        },
    );
    assert(new_id.0 as int == locs0.len());
    assert(crate::screenplay_document::location_node_wf_seq(locs0, cur.0 as int));
    assert forall|i: int| 0 <= i < locs1.len() implies #[trigger]
        crate::screenplay_document::location_node_wf_seq(locs1, i) by {
        if i < locs0.len() {
            assert(crate::screenplay_document::location_node_wf_seq(locs0, i));
            let n_old = locs0[i];
            let n_new = locs1[i];
            assert(n_new.superlocation == n_old.superlocation);
            assert(n_new.string == n_old.string);
            // Parent pointer: the parent still lists node i, since a push
            // keeps every member.
            match n_new.superlocation {
                Some(p) => {
                    assert((p.0 as int) < i);
                    assert(locs0[p.0 as int].sublocations.contains(LocationID(i as u64)));
                    let k = choose|k: int|
                        0 <= k < locs0[p.0 as int].sublocations.len() && locs0[p.0 as int].sublocations[k]
                            == LocationID(i as u64);
                    if p.0 as int == cur.0 as int {
                        assert(locs1[p.0 as int].sublocations[k] == LocationID(i as u64));
                    } else {
                        assert(locs1[p.0 as int] == locs0[p.0 as int]);
                    }
                    assert(locs1[p.0 as int].sublocations.contains(LocationID(i as u64)));
                },
                None => {},
            }
            if i == cur.0 as int {
                // The walked node gains exactly one child, the fresh one.
                assert(n_new.sublocations == n_old.sublocations.push(new_id));
                assert forall|j: int| 0 <= j < n_new.sublocations.len() implies {
                    let c = #[trigger] n_new.sublocations[j];
                    i < (c.0 as int) < locs1.len() && locs1[c.0 as int].superlocation == Some(
                        LocationID(i as u64),
                    )
                } by {
                    if j < n_old.sublocations.len() {
                        assert(n_new.sublocations[j] == n_old.sublocations[j]);
                        let c = n_old.sublocations[j];
                        assert(i < (c.0 as int) < locs0.len());
                        assert(c.0 as int != cur.0 as int);
                        assert(locs1[c.0 as int] == locs0[c.0 as int]);
                    } else {
                        assert(n_new.sublocations[j] == new_id);
                        assert(locs1[new_id.0 as int].superlocation == Some(cur));
                        assert(cur == LocationID(i as u64));
                    }
                }
                assert forall|j: int, k: int|
                    0 <= j < k < n_new.sublocations.len() implies n_new.sublocations[j]
                    != n_new.sublocations[k] by {
                    if k < n_old.sublocations.len() {
                        assert(n_new.sublocations[j] == n_old.sublocations[j]);
                        assert(n_new.sublocations[k] == n_old.sublocations[k]);
                    } else {
                        assert(n_new.sublocations[k] == new_id);
                        assert(n_new.sublocations[j] == n_old.sublocations[j]);
                        assert((n_old.sublocations[j].0 as int) < locs0.len());
                        assert(n_old.sublocations[j].0 != new_id.0);
                    }
                }
            } else {
                assert(n_new == n_old);
                assert forall|j: int| 0 <= j < n_new.sublocations.len() implies {
                    let c = #[trigger] n_new.sublocations[j];
                    i < (c.0 as int) < locs1.len() && locs1[c.0 as int].superlocation == Some(
                        LocationID(i as u64),
                    )
                } by {
                    let c = n_old.sublocations[j];
                    assert(i < (c.0 as int) < locs0.len());
                    if c.0 as int == cur.0 as int {
                        assert(locs1[c.0 as int].superlocation == locs0[c.0 as int].superlocation);
                    } else {
                        assert(locs1[c.0 as int] == locs0[c.0 as int]);
                    }
                }
            }
        } else {
            assert(locs1[i].sublocations.len() == 0);
            assert(locs1[i].superlocation == Some(cur));
            assert((cur.0 as int) < i);
            assert(locs1[cur.0 as int].sublocations.last() == new_id);
            assert(locs1[cur.0 as int].sublocations.contains(new_id));
            assert(new_id == LocationID(i as u64));
        }
    }
    assert forall|i: int, j: int|
        #![trigger locs1[i].string, locs1[j].string]
        0 <= i < locs1.len() && 0 <= j < locs1.len() && locs1[i].superlocation is None
            && locs1[j].superlocation is None && locs1[i].string == locs1[j].string implies i
        == j by {
        if i < locs0.len() && j < locs0.len() {
            assert(locs1[i].superlocation == locs0[i].superlocation);
            assert(locs1[i].string == locs0[i].string);
            assert(locs1[j].superlocation == locs0[j].superlocation);
            assert(locs1[j].string == locs0[j].string);
        }
    }
}

/// Intern the root of a slugline: reuse the root node carrying this
/// string, or append a fresh one.
pub fn intern_root(locations: &mut Vec<LocationNode>, root_str: &String) -> (r: LocationID)
    requires
        crate::screenplay_document::locations_wf_seq(locations_view(*old(locations))),
        crate::screenplay_document::roots_unique_seq(locations_view(*old(locations))),
    ensures
        ({
            let (locs2, id) = intern_root_spec(locations_view(*old(locations)), root_str@);
            locations_view(*final(locations)) == locs2 && r == id && (r.0 as int) < locs2.len()
        }),
        crate::screenplay_document::locations_wf_seq(locations_view(*final(locations))),
        crate::screenplay_document::roots_unique_seq(locations_view(*final(locations))),
        locations_view(*old(locations)).len() <= locations_view(*final(locations)).len(),
{
    let ghost locs0 = locations_view(*locations);
    let n = locations.len();
    let mut i: usize = 0;
    while i < n
        invariant
            i <= n,
            n == locations@.len(),
            locations@ == old(locations)@,
            locs0 == locations_view(*locations),
            locs0 == locations_view(*old(locations)),
            crate::screenplay_document::locations_wf_seq(locs0),
            crate::screenplay_document::roots_unique_seq(locs0),
            find_root_from(locs0, root_str@, i as int) == find_root_from(locs0, root_str@, 0),
        decreases n - i,
    {
        proof {
            assert(locs0[i as int] == locations@[i as int]@);
        }
        let node = &locations[i];
        if node.superlocation.is_none() && node.string == *root_str {
            return LocationID(i as u64);
        }
        i += 1;
    }
    let id = LocationID(locations.len() as u64);
    locations.push(
        LocationNode { string: root_str.clone(), sublocations: Vec::new(), superlocation: None },
    );
    proof {
        assert(locations_view(*locations) =~= locs0.push(
            LocationNodeV {
                string: root_str@,
                sublocations: Seq::<LocationID>::empty(),
                superlocation: None,
            },
        ));
        assert(locations_view(*locations) =~= intern_root_spec(locs0, root_str@).0);
        lemma_push_root_preserves(locs0, root_str@);
    }
    id
}

/// Walking the slugline's tail fragments down from a node: at each
/// fragment, descend into the first child carrying it, or create that
/// child. The result pairs the grown arena with the identifiers visited,
/// in order.
pub open spec fn intern_tail_spec(
    locations: Seq<LocationNodeV>,
    cur: LocationID,
    frags: Seq<Seq<char>>,
) -> (Seq<LocationNodeV>, Seq<LocationID>)
    decreases frags.len(),
{
    if frags.len() == 0 {
        (locations, Seq::<LocationID>::empty())
    } else {
        match first_matching_child(locations[cur.0 as int].sublocations, frags[0], locations) {
            Some(c) => {
                let (locs2, rest) = intern_tail_spec(locations, c, frags.drop_first());
                (locs2, seq![c] + rest)
            },
            None => {
                let new_id = LocationID(locations.len() as u64);
                let parent = locations[cur.0 as int];
                let locs1 = locations.update(
                    cur.0 as int,
                    LocationNodeV { sublocations: parent.sublocations.push(new_id), ..parent },
                ).push(
                    LocationNodeV {
                        string: frags[0],
                        sublocations: Seq::<LocationID>::empty(),
                        superlocation: Some(cur),
                    },
                );
                let (locs2, rest) = intern_tail_spec(locs1, new_id, frags.drop_first());
                (locs2, seq![new_id] + rest)
            },
        }
    }
}

/// A matched child names a node of the arena whose string is the target.
pub proof fn lemma_first_matching_child_valid(
    subs: Seq<LocationID>,
    target: Seq<char>,
    locations: Seq<LocationNodeV>,
)
    ensures
        match first_matching_child(subs, target, locations) {
            Some(c) => (c.0 as int) < locations.len() && locations[c.0 as int].string == target
                && subs.contains(c),
            None => true,
        },
    decreases subs.len(),
{
    if subs.len() > 0 {
        if (subs[0].0 as int) < locations.len() && locations[subs[0].0 as int].string == target {
        } else {
            lemma_first_matching_child_valid(subs.drop_first(), target, locations);
            match first_matching_child(subs.drop_first(), target, locations) {
                Some(c) => {
                    assert(subs.drop_first().contains(c));
                    let k = choose|k: int|
                        0 <= k < subs.drop_first().len() && subs.drop_first()[k] == c;
                    assert(subs[k + 1] == c);
                },
                None => {},
            }
        }
    }
}

/// The first child of `locations[parent]` whose string is `target`.
fn find_matching_child(locations: &Vec<LocationNode>, parent: usize, target: &String) -> (r:
    Option<LocationID>)
    requires
        (parent as int) < locations@.len(),
    ensures
        r == first_matching_child(
            locations_view(*locations)[parent as int].sublocations,
            target@,
            locations_view(*locations),
        ),
{
    let ghost locs = locations_view(*locations);
    let ghost subs = locs[parent as int].sublocations;
    proof {
        assert(subs =~= locations@[parent as int]@.sublocations);
        assert(subs.skip(0) =~= subs);
    }
    let n = locations[parent].sublocations.len();
    let mut k: usize = 0;
    while k < n
        invariant
            k <= n,
            (parent as int) < locations@.len(),
            locs == locations_view(*locations),
            subs == locs[parent as int].sublocations,
            n == subs.len(),
            first_matching_child(subs.skip(k as int), target@, locs) == first_matching_child(
                subs,
                target@,
                locs,
            ),
        decreases n - k,
    {
        proof {
            assert(subs.skip(k as int)[0] == subs[k as int]);
            assert(subs[k as int] == locations@[parent as int]@.sublocations[k as int]);
        }
        let id = locations[parent].sublocations[k];
        if id.0 < locations.len() as u64 {
            proof {
                assert(locs[id.0 as int] == locations@[id.0 as int]@);
            }
            if locations[id.0 as usize].string == *target {
                return Some(id);
            }
        }
        proof {
            assert(first_matching_child(subs.skip(k as int), target@, locs)
                == first_matching_child(subs.skip(k as int).drop_first(), target@, locs));
            assert(subs.skip(k as int).drop_first() =~= subs.skip(k as int + 1));
        }
        k += 1;
    }
    proof {
        assert(subs.skip(n as int) =~= Seq::<LocationID>::empty());
    }
    None
}

/// Intern the tail fragments of a slugline under the root `cur`,
/// returning the identifiers of the visited and created nodes in order.
pub fn intern_tail(locations: &mut Vec<LocationNode>, cur: LocationID, frags: &[String]) -> (chain:
    Vec<LocationID>)
    requires
        (cur.0 as int) < old(locations)@.len(),
        crate::screenplay_document::locations_wf_seq(locations_view(*old(locations))),
        crate::screenplay_document::roots_unique_seq(locations_view(*old(locations))),
    ensures
        ({
            let (locs2, ch) = intern_tail_spec(
                locations_view(*old(locations)),
                cur,
                frags.deep_view(),
            );
            locations_view(*final(locations)) == locs2 && chain@ == ch
        }),
        crate::screenplay_document::locations_wf_seq(locations_view(*final(locations))),
        crate::screenplay_document::roots_unique_seq(locations_view(*final(locations))),
        locations_view(*old(locations)).len() <= locations_view(*final(locations)).len(),
        forall|j: int|
            0 <= j < chain@.len() ==> ((#[trigger] chain@[j]).0 as int) < locations_view(
                *final(locations),
            ).len(),
    decreases frags@.len(),
{
    let ghost locs0 = locations_view(*locations);
    let ghost fr = frags.deep_view();
    let mut chain: Vec<LocationID> = Vec::new();
    if frags.len() == 0 {
        return chain;
    }
    proof {
        assert(fr[0] == frags@[0]@);
    }
    let len_now = locations.len();
    proof {
        assert((cur.0 as int) < len_now as int);
    }
    let parent_idx = cur.0 as usize;
    proof {
        assert(parent_idx as int == cur.0 as int);
    }
    let next: LocationID;
    match find_matching_child(locations, parent_idx, &frags[0]) {
        Some(c) => {
            proof {
                lemma_first_matching_child_valid(
                    locations_view(*locations)[cur.0 as int].sublocations,
                    fr[0],
                    locations_view(*locations),
                );
                assert(locations_view(*locations).len() == locations@.len());
                assert((c.0 as int) < locations@.len());
            }
            next = c;
        },
        None => {
            let new_id = LocationID(locations.len() as u64);
            let frag0 = frags[0].clone();
            locations[parent_idx].sublocations.push(new_id);
            locations.push(
                LocationNode {
                    string: frag0,
                    sublocations: Vec::new(),
                    superlocation: Some(cur),
                },
            );
            proof {
                let parent = locs0[cur.0 as int];
                let locs1 = locs0.update(
                    cur.0 as int,
                    LocationNodeV { sublocations: parent.sublocations.push(new_id), ..parent },
                ).push(
                    LocationNodeV {
                        string: fr[0],
                        sublocations: Seq::<LocationID>::empty(),
                        superlocation: Some(cur),
                    },
                );
                assert(locations_view(*locations) =~= locs1);
                assert(new_id.0 as int == locs0.len());
                lemma_attach_child_preserves(locs0, cur, fr[0]);
            }
            next = new_id;
        },
    }
    let tail = &frags[1..frags.len()];
    proof {
        assert(tail.deep_view() =~= fr.drop_first());
        assert((next.0 as int) < locations@.len());
    }
    let rest = intern_tail(locations, next, tail);
    chain.push(next);
    let mut j: usize = 0;
    let m = rest.len();
    while j < m
        invariant
            j <= m,
            m == rest@.len(),
            chain@ == seq![next] + rest@.subrange(0, j as int),
        decreases m - j,
    {
        chain.push(rest[j]);
        proof {
            assert(chain@ =~= seq![next] + rest@.subrange(0, j as int + 1));
        }
        j += 1;
    }
    proof {
        assert(rest@.subrange(0, m as int) =~= rest@);
        assert(chain@ =~= seq![next] + rest@);
    }
    chain
}

} // verus!
