//! Read-only reports over a parsed screenplay: orderings, coordinate-to-
//! scene resolution, range queries, filters by location or character, and
//! traversals of the location forest.
//!
//! No report mutates the document; each is specified exactly against the
//! document's view, and the guarantees that need structural soundness are
//! stated under [`ScreenplayDocumentV::wf`].

use vstd::prelude::*;
use vstd::string::StringExecFns;
use crate::screenplay_document::{
    is_line_spec, location_node_wf_seq, locations_wf_seq, scene_heading_line_tag,
    subpath_exists_spec, Character, CharacterV, Line, LineV, LocationID, LocationNodeV, Page,
    PageNumber, PageV, Scene, SceneHeadingElement, SceneID, SceneNumber, SceneV,
    ScreenplayCoordinate, ScreenplayDocument, ScreenplayDocumentV, SPType, TextElement, TimeOfDay,
};

verus! {

// ------------------------------------------------------------ exact copies

/// A copy of a location-identifier list.
fn clone_location_ids(v: &Vec<LocationID>) -> (r: Vec<LocationID>)
    ensures
        r@ == v@,
{
    let mut out: Vec<LocationID> = Vec::new();
    let n = v.len();
    let mut i: usize = 0;
    while i < n
        invariant
            i <= n,
            n == v@.len(),
            out@ == v@.subrange(0, i as int),
        decreases n - i,
    {
        out.push(v[i]);
        proof {
            assert(out@ =~= v@.subrange(0, i as int + 1));
        }
        i += 1;
    }
    proof {
        assert(out@ =~= v@);
    }
    out
}

/// A copy of an extras table, pair for pair.
fn clone_extras(v: &Vec<(String, String)>) -> (r: Vec<(String, String)>)
    ensures
        r.deep_view() == v.deep_view(),
{
    let mut out: Vec<(String, String)> = Vec::new();
    let n = v.len();
    let mut i: usize = 0;
    while i < n
        invariant
            i <= n,
            n == v@.len(),
            out@.len() == i,
            forall|j: int|
                0 <= j < i ==> (#[trigger] out@[j]).0@ == v@[j].0@ && out@[j].1@ == v@[j].1@,
        decreases n - i,
    {
        out.push((v[i].0.clone(), v[i].1.clone()));
        i += 1;
    }
    proof {
        assert forall|j: int| 0 <= j < out.deep_view().len() implies out.deep_view()[j]
            == v.deep_view()[j] by {
            assert(out.deep_view()[j] == (out@[j].0@, out@[j].1@));
            assert(v.deep_view()[j] == (v@[j].0@, v@[j].1@));
        }
        assert(out.deep_view() =~= v.deep_view());
    }
    out
}

/// A copy of a time of day.
fn clone_time_of_day(t: &TimeOfDay) -> (r: TimeOfDay)
    ensures
        r@ == t@,
{
    match t {
        TimeOfDay::Day(s) => TimeOfDay::Day(s.clone()),
        TimeOfDay::Night(s) => TimeOfDay::Night(s.clone()),
        TimeOfDay::Morning(s) => TimeOfDay::Morning(s.clone()),
        TimeOfDay::Evening(s) => TimeOfDay::Evening(s.clone()),
        TimeOfDay::Afternoon(s) => TimeOfDay::Afternoon(s.clone()),
        TimeOfDay::Extras(None) => TimeOfDay::Extras(None),
        TimeOfDay::Extras(Some(v)) => TimeOfDay::Extras(Some(clone_extras(v))),
    }
}

/// A copy of a scene, field for field.
fn clone_scene(s: &Scene) -> (r: Scene)
    ensures
        r@ == s@,
{
    Scene {
        start: s.start,
        environment: s.environment,
        number: match &s.number {
            Some(n) => Some(SceneNumber(n.0.clone())),
            None => None,
        },
        revised: s.revised,
        story_locations: clone_location_ids(&s.story_locations),
        story_time_of_day: match &s.story_time_of_day {
            Some(t) => Some(clone_time_of_day(t)),
            None => None,
        },
    }
}

/// A copy of a line, element for element.
fn clone_line(l: &Line) -> (r: Line)
    ensures
        r@ == l@,
{
    let mut text_elements: Vec<TextElement> = Vec::new();
    let n = l.text_elements.len();
    let mut i: usize = 0;
    while i < n
        invariant
            i <= n,
            n == l.text_elements@.len(),
            text_elements@.len() == i,
            forall|j: int| 0 <= j < i ==> (#[trigger] text_elements@[j])@ == l.text_elements@[j]@,
        decreases n - i,
    {
        text_elements.push(crate::assemble::clone_text_element(&l.text_elements[i]));
        i += 1;
    }
    let r = Line {
        text_elements,
        scene_number: match &l.scene_number {
            Some(s) => Some(s.clone()),
            None => None,
        },
        scene_id: l.scene_id,
        line_type: l.line_type,
        preceding_empty_lines: l.preceding_empty_lines,
        revised: l.revised,
        blank: l.blank,
    };
    proof {
        assert(r@.text_elements =~= l@.text_elements);
        assert(r@ =~= l@);
    }
    r
}

/// A copy of a page, line for line.
fn clone_page(p: &Page) -> (r: Page)
    ensures
        r@ == p@,
{
    let mut lines: Vec<Line> = Vec::new();
    let n = p.lines.len();
    let mut i: usize = 0;
    while i < n
        invariant
            i <= n,
            n == p.lines@.len(),
            lines@.len() == i,
            forall|j: int| 0 <= j < i ==> (#[trigger] lines@[j])@ == p.lines@[j]@,
        decreases n - i,
    {
        lines.push(clone_line(&p.lines[i]));
        i += 1;
    }
    let r = Page {
        lines,
        page_number: match &p.page_number {
            Some(n) => Some(PageNumber(n.0.clone())),
            None => None,
        },
        page_id: p.page_id,
        revised: p.revised,
        revision_label: match &p.revision_label {
            Some(s) => Some(s.clone()),
            None => None,
        },
        revision_date: match &p.revision_date {
            Some(s) => Some(s.clone()),
            None => None,
        },
        page_format: p.page_format,
    };
    proof {
        assert(r@.lines =~= p@.lines);
        assert(r@ =~= p@);
    }
    r
}

/// A copy of a character.
fn clone_character(c: &Character) -> (r: Character)
    ensures
        r@ == c@,
{
    Character { name: c.name.clone(), id: c.id }
}

// ------------------------------------------------------ the location forest

/// The identifiers from the root of the forest down to `id`, following
/// superlocation pointers upward; `None` when an identifier is dangling or
/// the walk exceeds `fuel` steps.
pub open spec fn rootward_walk(
    locations: Seq<LocationNodeV>,
    id: LocationID,
    fuel: nat,
) -> Option<Seq<LocationID>>
    decreases fuel,
{
    if (id.0 as int) >= locations.len() {
        None
    } else {
        match locations[id.0 as int].superlocation {
            None => Some(seq![id]),
            Some(p) => {
                if fuel == 0 {
                    None
                } else {
                    match rootward_walk(locations, p, (fuel - 1) as nat) {
                        Some(pre) => Some(pre.push(id)),
                        None => None,
                    }
                }
            },
        }
    }
}

/// Whatever a root-ward walk returns names existing nodes, ends at the
/// walked node, and starts at a root.
pub proof fn lemma_rootward_walk_shape(locations: Seq<LocationNodeV>, id: LocationID, fuel: nat)
    ensures
        match rootward_walk(locations, id, fuel) {
            Some(path) => {
                &&& path.len() >= 1
                &&& path.last() == id
                &&& (forall|k: int|
                    0 <= k < path.len() ==> ((#[trigger] path[k]).0 as int) < locations.len())
                &&& locations[path.first().0 as int].superlocation is None
            },
            None => true,
        },
    decreases fuel,
{
    if (id.0 as int) < locations.len() {
        match locations[id.0 as int].superlocation {
            None => {},
            Some(p) => {
                if fuel > 0 {
                    lemma_rootward_walk_shape(locations, p, (fuel - 1) as nat);
                }
            },
        }
    }
}

/// In a sound forest the root-ward walk from any existing node terminates,
/// in at most as many steps as the node's position, at a root: parent
/// identifiers strictly decrease, so the walk cannot cycle.
pub proof fn lemma_rootward_walk_terminates(
    locations: Seq<LocationNodeV>,
    id: LocationID,
    fuel: nat,
)
    requires
        locations_wf_seq(locations),
        (id.0 as int) < locations.len(),
        fuel >= id.0,
    ensures
        match rootward_walk(locations, id, fuel) {
            Some(path) => 1 <= path.len() <= id.0 + 1 && path.len() <= locations.len(),
            None => false,
        },
    decreases id.0,
{
    assert(location_node_wf_seq(locations, id.0 as int));
    match locations[id.0 as int].superlocation {
        None => {},
        Some(p) => {
            lemma_rootward_walk_terminates(locations, p, (fuel - 1) as nat);
        },
    }
}

fn rootward_walk_exec(
    screenplay_doc: &ScreenplayDocument,
    id: LocationID,
    fuel: usize,
) -> (r: Option<Vec<LocationID>>)
    ensures
        match r {
            Some(v) => rootward_walk(screenplay_doc@.locations, id, fuel as nat) == Some(v@),
            None => rootward_walk(screenplay_doc@.locations, id, fuel as nat) is None,
        },
    decreases fuel,
{
    if id.0 >= screenplay_doc.locations.len() as u64 {
        return None;
    }
    proof {
        assert(screenplay_doc@.locations[id.0 as int] == screenplay_doc.locations@[id.0 as int]@);
    }
    match &screenplay_doc.locations[id.0 as usize].superlocation {
        None => {
            let mut v: Vec<LocationID> = Vec::new();
            v.push(id);
            proof {
                assert(v@ =~= seq![id]);
            }
            Some(v)
        },
        Some(p) => {
            if fuel == 0 {
                return None;
            }
            match rootward_walk_exec(screenplay_doc, *p, fuel - 1) {
                Some(mut pre) => {
                    pre.push(id);
                    Some(pre)
                },
                None => None,
            }
        },
    }
}

/// The identifiers that make up the path from the root of the forest down
/// to `location`, in order, or `None` when the identifier is dangling (or,
/// on a malformed forest, when the walk does not terminate within the size
/// of the arena).
///
/// On a well-formed document the walk from any existing node terminates in
/// at most `locations.len()` steps at a node without a superlocation.
pub fn get_full_location_path_for_leaf_node(
    screenplay_doc: &ScreenplayDocument,
    location: &LocationID,
) -> (r: Option<Vec<LocationID>>)
    ensures
        ({
            let w = rootward_walk(
                screenplay_doc@.locations,
                *location,
                screenplay_doc@.locations.len() as nat,
            );
            match r {
                Some(v) => w == Some(v@),
                None => w is None,
            }
        }),
        r matches Some(v) ==> v@.len() >= 1 && v@.last() == *location && (forall|k: int|
            0 <= k < v@.len() ==> ((#[trigger] v@[k]).0 as int) < screenplay_doc@.locations.len())
            && screenplay_doc@.locations[v@.first().0 as int].superlocation is None,
        screenplay_doc@.wf() && (location.0 as int) < screenplay_doc@.locations.len() ==> (
        r matches Some(v) && v@.len() <= screenplay_doc@.locations.len()),
{
    let fuel = screenplay_doc.locations.len();
    proof {
        lemma_rootward_walk_shape(screenplay_doc@.locations, *location, fuel as nat);
        if screenplay_doc@.wf() && (location.0 as int) < screenplay_doc@.locations.len() {
            lemma_rootward_walk_terminates(screenplay_doc@.locations, *location, fuel as nat);
        }
    }
    rootward_walk_exec(screenplay_doc, *location, fuel)
}

/// The strings along `path` joined by " - ".
pub open spec fn path_string_at(
    locations: Seq<LocationNodeV>,
    path: Seq<LocationID>,
    i: int,
) -> Seq<char>
    decreases i,
{
    if i <= 0 {
        Seq::<char>::empty()
    } else {
        let pre = path_string_at(locations, path, i - 1);
        let s = locations[path[i - 1].0 as int].string;
        if pre.len() > 0 {
            pre + " - "@ + s
        } else {
            s
        }
    }
}

/// The full location path of `leaf` joined to one string: the " - "-joined
/// node strings along the root-ward walk, or `None` when the walk fails or
/// the joined string is empty.
pub open spec fn full_path_string_spec(
    locations: Seq<LocationNodeV>,
    leaf: LocationID,
    fuel: nat,
) -> Option<Seq<char>> {
    match rootward_walk(locations, leaf, fuel) {
        Some(path) => {
            let s = path_string_at(locations, path, path.len() as int);
            if s.len() == 0 {
                None
            } else {
                Some(s)
            }
        },
        None => None,
    }
}

/// The full location path as one string (the slugline spelling of the
/// path), for a given leaf node: the strings of the nodes returned by
/// [`get_full_location_path_for_leaf_node`], joined by " - ".
pub fn get_full_string_for_location_path(
    screenplay_doc: &ScreenplayDocument,
    location_leaf_node: &LocationID,
) -> (r: Option<String>)
    ensures
        crate::screenplay_document::opt_string_view(r) == full_path_string_spec(
            screenplay_doc@.locations,
            *location_leaf_node,
            screenplay_doc@.locations.len() as nat,
        ),
{
    let ghost locs = screenplay_doc@.locations;
    let ghost fuel = screenplay_doc@.locations.len() as nat;
    proof {
        lemma_rootward_walk_shape(locs, *location_leaf_node, fuel);
    }
    let location_id_path = match get_full_location_path_for_leaf_node(
        screenplay_doc,
        location_leaf_node,
    ) {
        Some(p) => p,
        None => {
            return None;
        },
    };
    let ghost path = location_id_path@;
    let mut path_string = String::new();
    let n = location_id_path.len();
    let nl = screenplay_doc.locations.len();
    let mut i: usize = 0;
    while i < n
        invariant
            i <= n,
            n == location_id_path@.len(),
            path == location_id_path@,
            locs == screenplay_doc@.locations,
            nl == screenplay_doc.locations@.len(),
            locs.len() == nl,
            forall|k: int| 0 <= k < n ==> ((#[trigger] path[k]).0 as int) < locs.len(),
            path_string@ == path_string_at(locs, path, i as int),
        decreases n - i,
    {
        let id = location_id_path[i];
        proof {
            assert((id.0 as int) < nl as int);
        }
        let node = &screenplay_doc.locations[id.0 as usize];
        proof {
            assert(id.0 as usize as int == id.0 as int);
            assert(locs[id.0 as int] == screenplay_doc.locations@[id.0 as int]@);
            assert(node@ == locs[id.0 as int]);
        }
        if !path_string.as_str().is_empty() {
            path_string.append(" - ");
        }
        path_string.append(node.string.as_str());
        i += 1;
    }
    if path_string.as_str().is_empty() {
        return None;
    }
    Some(path_string)
}

/// The identifier of the root above `location_id`, or `None` when the
/// identifier is dangling (or, on a malformed forest, when the walk does
/// not terminate within the size of the arena).
pub fn get_location_root_for_node(
    screenplay_document: &ScreenplayDocument,
    location_id: &LocationID,
) -> (r: Option<LocationID>)
    ensures
        match rootward_walk(
            screenplay_document@.locations,
            *location_id,
            screenplay_document@.locations.len() as nat,
        ) {
            Some(path) => r == Some(path.first()),
            None => r is None,
        },
{
    let ghost locs = screenplay_document@.locations;
    let ghost fuel = screenplay_document@.locations.len() as nat;
    match get_full_location_path_for_leaf_node(screenplay_document, location_id) {
        Some(path) => Some(path[0]),
        None => None,
    }
}

/// The first node, in arena order from position `i`, whose string is `s`.
pub open spec fn find_node_from(locations: Seq<LocationNodeV>, s: Seq<char>, i: int) -> Option<int>
    decreases locations.len() - i,
{
    if i < 0 || i >= locations.len() {
        None
    } else if locations[i].string == s {
        Some(i)
    } else {
        find_node_from(locations, s, i + 1)
    }
}

/// Where a slugline path exists in the forest: nothing when the path is
/// empty or no node carries its first fragment; otherwise the deepest node
/// the path reaches from the first node carrying its first fragment,
/// paired with the fragments that found no node yet.
pub open spec fn location_path_exists_spec(
    locations: Seq<LocationNodeV>,
    path: Seq<Seq<char>>,
) -> Option<(LocationID, Seq<Seq<char>>)> {
    if path.len() == 0 {
        None
    } else {
        match find_node_from(locations, path[0], 0) {
            None => None,
            Some(i) => {
                let id = LocationID(i as u64);
                let node = locations[i];
                if path.len() == 1 {
                    Some((id, Seq::<Seq<char>>::empty()))
                } else if node.sublocations.len() == 0 {
                    Some((id, path.drop_first()))
                } else {
                    subpath_exists_spec(node, id, path.drop_first(), locations)
                }
            },
        }
    }
}

/// Whether (and how far) a location path exists: `None` when nothing
/// carries the path's first fragment; otherwise the deepest node matched
/// and the fragments that do not exist yet below it (empty when the whole
/// path exists).
pub fn location_path_exists(
    screenplay_document: &ScreenplayDocument,
    path: &[String],
) -> (r: Option<(LocationID, Vec<String>)>)
    ensures
        match r {
            None => location_path_exists_spec(
                screenplay_document@.locations,
                path.deep_view(),
            ) is None,
            Some(p) => location_path_exists_spec(screenplay_document@.locations, path.deep_view())
                == Some((p.0, p.1.deep_view())),
        },
{
    let ghost locs = screenplay_document@.locations;
    let ghost pv = path.deep_view();
    if path.len() == 0 {
        return None;
    }
    let path_root = &path[0];
    proof {
        assert(pv[0] == path@[0]@);
    }
    let n = screenplay_document.locations.len();
    let mut i: usize = 0;
    while i < n
        invariant
            i <= n,
            n == screenplay_document.locations@.len(),
            locs == screenplay_document@.locations,
            pv == path.deep_view(),
            pv.len() == path@.len(),
            pv.len() > 0,
            path_root@ == pv[0],
            find_node_from(locs, pv[0], i as int) == find_node_from(locs, pv[0], 0),
        decreases n - i,
    {
        proof {
            assert(locs[i as int] == screenplay_document.locations@[i as int]@);
        }
        let node = &screenplay_document.locations[i];
        if node.string == *path_root {
            let id = LocationID(i as u64);
            if path.len() == 1 {
                return Some((id, Vec::new()));
            }
            if node.sublocations.len() == 0 {
                let rest = crate::screenplay_document::slice_suffix_vec(path, 1);
                proof {
                    assert(rest.deep_view() =~= pv.drop_first());
                }
                return Some((id, rest));
            }
            let tail = &path[1..path.len()];
            proof {
                assert(tail.deep_view() =~= pv.drop_first());
            }
            return node.subpath_exists(&id, tail, screenplay_document);
        }
        i += 1;
    }
    None
}

/// The identifiers, in arena order among the first `i`, of the nodes whose
/// string is `s`.
pub open spec fn matching_location_ids(
    locations: Seq<LocationNodeV>,
    s: Seq<char>,
    i: int,
) -> Seq<LocationID>
    decreases i,
{
    if i <= 0 {
        Seq::<LocationID>::empty()
    } else {
        let pre = matching_location_ids(locations, s, i - 1);
        if locations[i - 1].string == s {
            pre.push(LocationID((i - 1) as u64))
        } else {
            pre
        }
    }
}

/// Every location node whose string equals `location_string`, in arena
/// order; `None` when there is none.
pub fn get_locations_with_matching_str(
    screenplay_document: &ScreenplayDocument,
    location_string: &String,
) -> (r: Option<Vec<LocationID>>)
    ensures
        ({
            let m = matching_location_ids(
                screenplay_document@.locations,
                location_string@,
                screenplay_document@.locations.len() as int,
            );
            match r {
                Some(v) => v@ == m && m.len() > 0,
                None => m.len() == 0,
            }
        }),
{
    let ghost locs = screenplay_document@.locations;
    let mut loc_id_vec: Vec<LocationID> = Vec::new();
    let n = screenplay_document.locations.len();
    let mut i: usize = 0;
    while i < n
        invariant
            i <= n,
            n == screenplay_document.locations@.len(),
            locs == screenplay_document@.locations,
            loc_id_vec@ == matching_location_ids(locs, location_string@, i as int),
        decreases n - i,
    {
        proof {
            assert(locs[i as int] == screenplay_document.locations@[i as int]@);
        }
        if screenplay_document.locations[i].string == *location_string {
            loc_id_vec.push(LocationID(i as u64));
        }
        i += 1;
    }
    if loc_id_vec.len() == 0 {
        return None;
    }
    Some(loc_id_vec)
}

/// The leaves below `id`: the node itself when it has no sublocations,
/// else the leaves of its children in child order, skipping dangling
/// identifiers; `None` when `id` dangles, the subtree holds no leaf, or
/// the descent exceeds `fuel`.
pub open spec fn leafs_from(
    locations: Seq<LocationNodeV>,
    id: LocationID,
    fuel: nat,
) -> Option<Seq<LocationID>>
    decreases fuel, 0nat,
{
    if (id.0 as int) >= locations.len() {
        None
    } else if locations[id.0 as int].sublocations.len() == 0 {
        Some(seq![id])
    } else if fuel == 0 {
        None
    } else {
        let l = leafs_list(locations, locations[id.0 as int].sublocations, (fuel - 1) as nat);
        if l.len() == 0 {
            None
        } else {
            Some(l)
        }
    }
}

/// The concatenated leaves of the subtrees rooted at `subs`, skipping
/// subtrees that yield none.
pub open spec fn leafs_list(
    locations: Seq<LocationNodeV>,
    subs: Seq<LocationID>,
    fuel: nat,
) -> Seq<LocationID>
    decreases fuel, subs.len() + 1,
{
    if subs.len() == 0 {
        Seq::<LocationID>::empty()
    } else {
        let first = match leafs_from(locations, subs[0], fuel) {
            Some(l) => l,
            None => Seq::<LocationID>::empty(),
        };
        first + leafs_list(locations, subs.drop_first(), fuel)
    }
}

fn leafs_from_exec(
    screenplay_document: &ScreenplayDocument,
    id: LocationID,
    fuel: usize,
) -> (r: Option<Vec<LocationID>>)
    ensures
        match r {
            Some(v) => leafs_from(screenplay_document@.locations, id, fuel as nat) == Some(v@),
            None => leafs_from(screenplay_document@.locations, id, fuel as nat) is None,
        },
    decreases fuel, 0nat,
{
    let ghost locs = screenplay_document@.locations;
    if id.0 >= screenplay_document.locations.len() as u64 {
        return None;
    }
    proof {
        assert(locs[id.0 as int] == screenplay_document.locations@[id.0 as int]@);
    }
    let node = &screenplay_document.locations[id.0 as usize];
    if node.sublocations.len() == 0 {
        let mut v: Vec<LocationID> = Vec::new();
        v.push(id);
        proof {
            assert(v@ =~= seq![id]);
        }
        return Some(v);
    }
    if fuel == 0 {
        return None;
    }
    let ghost subs = locs[id.0 as int].sublocations;
    let mut out: Vec<LocationID> = Vec::new();
    let m = node.sublocations.len();
    let mut k: usize = 0;
    proof {
        assert(subs.skip(0) =~= subs);
    }
    while k < m
        invariant
            k <= m,
            fuel >= 1,
            m == node.sublocations@.len(),
            locs == screenplay_document@.locations,
            subs == locs[id.0 as int].sublocations,
            subs == node@.sublocations,
            subs.len() == m,
            out@ + leafs_list(locs, subs.skip(k as int), (fuel - 1) as nat) == leafs_list(
                locs,
                subs,
                (fuel - 1) as nat,
            ),
        decreases m - k,
    {
        proof {
            assert(subs.skip(k as int)[0] == subs[k as int]);
            assert(subs[k as int] == node.sublocations@[k as int]);
        }
        let child = node.sublocations[k];
        let ghost out_pre = out@;
        match leafs_from_exec(screenplay_document, child, fuel - 1) {
            Some(mut sub_leafs) => {
                out.append(&mut sub_leafs);
            },
            None => {},
        }
        proof {
            assert(subs.skip(k as int).drop_first() =~= subs.skip(k as int + 1));
            assert(out@ + leafs_list(locs, subs.skip(k as int + 1), (fuel - 1) as nat)
                =~= leafs_list(locs, subs, (fuel - 1) as nat));
        }
        k += 1;
    }
    proof {
        assert(subs.skip(m as int) =~= Seq::<LocationID>::empty());
        assert(out@ =~= leafs_list(locs, subs, (fuel - 1) as nat));
    }
    if out.len() == 0 {
        return None;
    }
    Some(out)
}

/// The identifier sequence with every repeat of an earlier identifier
/// removed.
pub open spec fn dedup_ids_at(s: Seq<LocationID>, i: int) -> Seq<LocationID>
    decreases i,
{
    if i <= 0 {
        Seq::<LocationID>::empty()
    } else {
        let pre = dedup_ids_at(s, i - 1);
        if pre.contains(s[i - 1]) {
            pre
        } else {
            pre.push(s[i - 1])
        }
    }
}

/// Removing repeats reads only the elements before `i`.
proof fn lemma_dedup_ids_prefix(s1: Seq<LocationID>, s2: Seq<LocationID>, i: int)
    requires
        0 <= i,
        i <= s1.len(),
        i <= s2.len(),
        forall|j: int| 0 <= j < i ==> s1[j] == s2[j],
    ensures
        dedup_ids_at(s1, i) == dedup_ids_at(s2, i),
    decreases i,
{
    if i > 0 {
        lemma_dedup_ids_prefix(s1, s2, i - 1);
    }
}

/// Every leaf of the subtree rooted at `location_id`, in child order and
/// without repeats; `None` when the identifier dangles (or, on a malformed
/// forest, when the descent exceeds the size of the arena).
pub fn get_all_location_leafs(
    screenplay_document: &ScreenplayDocument,
    location_id: &LocationID,
) -> (r: Option<Vec<LocationID>>)
    ensures
        ({
            let w = leafs_from(
                screenplay_document@.locations,
                *location_id,
                screenplay_document@.locations.len() as nat,
            );
            match r {
                Some(v) => w matches Some(raw) && {
                    &&& v@ == dedup_ids_at(raw, raw.len() as int)
                    &&& (forall|k1: int, k2: int|
                        0 <= k1 < k2 < v@.len() ==> (#[trigger] v@[k1]) != (#[trigger] v@[k2]))
                    &&& (forall|j: int| 0 <= j < raw.len() ==> v@.contains(#[trigger] raw[j]))
                    &&& (forall|k: int| 0 <= k < v@.len() ==> raw.contains(#[trigger] v@[k]))
                },
                None => w is None,
            }
        }),
{
    let fuel = screenplay_document.locations.len();
    let raw = match leafs_from_exec(screenplay_document, *location_id, fuel) {
        Some(v) => v,
        None => {
            return None;
        },
    };
    let ghost rawv = raw@;
    let mut out: Vec<LocationID> = Vec::new();
    let n = raw.len();
    let mut k: usize = 0;
    while k < n
        invariant
            k <= n,
            n == raw@.len(),
            rawv == raw@,
            out@ == dedup_ids_at(rawv, k as int),
            forall|k1: int, k2: int|
                0 <= k1 < k2 < out@.len() ==> (#[trigger] out@[k1]) != (#[trigger] out@[k2]),
            forall|j: int| 0 <= j < k ==> out@.contains(#[trigger] rawv[j]),
            forall|k0: int| 0 <= k0 < out@.len() ==> rawv.contains(#[trigger] out@[k0]),
        decreases n - k,
    {
        let ghost old_out = out@;
        if !location_ids_contain(&out, raw[k]) {
            out.push(raw[k]);
            proof {
                assert(out@[old_out.len() as int] == rawv[k as int]);
                assert(rawv.contains(out@[old_out.len() as int]));
            }
        }
        proof {
            assert forall|id: LocationID| old_out.contains(id) implies out@.contains(id) by {
                let w = choose|w: int| 0 <= w < old_out.len() && old_out[w] == id;
                assert(out@[w] == id);
            }
            assert(out@.contains(rawv[k as int]));
        }
        k += 1;
    }
    Some(out)
}

// ------------------------------------------------------------------ scenes

/// The views of a scene list paired with its identifiers.
pub open spec fn scene_pairs_view(v: Seq<(SceneID, Scene)>) -> Seq<(SceneID, SceneV)> {
    Seq::new(v.len(), |i: int| (v[i].0, v[i].1@))
}

/// One scene-and-identifier pair names a scene of the document.
pub open spec fn scene_pair_valid(d: ScreenplayDocumentV, p: (SceneID, SceneV)) -> bool {
    (p.0.0 as int) < d.scenes.len() && p.1 == d.scenes[p.0.0 as int]
}

/// Document order on coordinates: by page, then by line.
pub open spec fn coord_le(a: ScreenplayCoordinate, b: ScreenplayCoordinate) -> bool {
    a.page < b.page || (a.page == b.page && a.line <= b.line)
}

/// The list `v` has an entry whose identifier is `s`.
pub open spec fn scene_index_covered(v: Seq<(SceneID, Scene)>, s: int) -> bool {
    exists|k: int| 0 <= k < v.len() && (#[trigger] v[k]).0 == SceneID(s as u64)
}

/// Strict document order on scene pairs: by start page, then start line,
/// then identifier.
pub open spec fn scene_order_lt(a: (SceneID, SceneV), b: (SceneID, SceneV)) -> bool {
    ||| a.1.start.page < b.1.start.page
    ||| (a.1.start.page == b.1.start.page && a.1.start.line < b.1.start.line)
    ||| (a.1.start.page == b.1.start.page && a.1.start.line == b.1.start.line && a.0.0 < b.0.0)
}

/// The scenes (in identifier order among the first `i`) whose location
/// path holds `loc`.
pub open spec fn scenes_with_location_at(
    scenes: Seq<SceneV>,
    loc: LocationID,
    i: int,
) -> Seq<(SceneID, SceneV)>
    decreases i,
{
    if i <= 0 {
        Seq::<(SceneID, SceneV)>::empty()
    } else {
        let pre = scenes_with_location_at(scenes, loc, i - 1);
        if scenes[i - 1].story_locations.contains(loc) {
            pre.push((SceneID((i - 1) as u64), scenes[i - 1]))
        } else {
            pre
        }
    }
}

fn location_ids_contain(v: &Vec<LocationID>, id: LocationID) -> (r: bool)
    ensures
        r == v@.contains(id),
{
    let n = v.len();
    let mut i: usize = 0;
    while i < n
        invariant
            i <= n,
            n == v@.len(),
            forall|j: int| 0 <= j < i ==> v@[j] != id,
        decreases n - i,
    {
        if v[i] == id {
            return true;
        }
        i += 1;
    }
    false
}

/// Every scene whose location path holds `location`, in identifier order;
/// `None` when there is none.
pub fn get_scenes_with_location(
    screenplay_document: &ScreenplayDocument,
    location: &LocationID,
) -> (r: Option<Vec<(SceneID, Scene)>>)
    ensures
        ({
            let m = scenes_with_location_at(
                screenplay_document@.scenes,
                *location,
                screenplay_document@.scenes.len() as int,
            );
            match r {
                Some(v) => scene_pairs_view(v@) == m && m.len() > 0,
                None => m.len() == 0,
            }
        }),
{
    let ghost scs = screenplay_document@.scenes;
    let mut scenes: Vec<(SceneID, Scene)> = Vec::new();
    let n = screenplay_document.scenes.len();
    let mut i: usize = 0;
    while i < n
        invariant
            i <= n,
            n == screenplay_document.scenes@.len(),
            scs == screenplay_document@.scenes,
            scene_pairs_view(scenes@) == scenes_with_location_at(scs, *location, i as int),
        decreases n - i,
    {
        proof {
            assert(scs[i as int] == screenplay_document.scenes@[i as int]@);
        }
        if location_ids_contain(&screenplay_document.scenes[i].story_locations, *location) {
            scenes.push((SceneID(i as u64), clone_scene(&screenplay_document.scenes[i])));
            proof {
                assert(scene_pairs_view(scenes@) =~= scenes_with_location_at(
                    scs,
                    *location,
                    i as int,
                ).push((SceneID(i as u64), scs[i as int])));
            }
        } else {
            proof {
                assert(scene_pairs_view(scenes@) =~= scenes_with_location_at(
                    scs,
                    *location,
                    i as int + 1,
                ));
            }
        }
        i += 1;
    }
    if scenes.len() == 0 {
        return None;
    }
    Some(scenes)
}

/// Every scene of the document in document order: sorted by start page,
/// then start line, identifier breaking ties, so the result is the unique
/// strictly ordered permutation of the scene arena. `None` when the
/// document has no scene.
pub fn get_all_scenes_ordered(
    screenplay_document: &ScreenplayDocument,
) -> (r: Option<Vec<(SceneID, Scene)>>)
    ensures
        match r {
            None => screenplay_document@.scenes.len() == 0,
            Some(v) => {
                &&& screenplay_document@.scenes.len() > 0
                &&& v@.len() == screenplay_document@.scenes.len()
                &&& (forall|i: int|
                    0 <= i < v@.len() ==> scene_pair_valid(
                        screenplay_document@,
                        #[trigger] scene_pairs_view(v@)[i],
                    ))
                &&& (forall|i: int, j: int|
                    0 <= i < j < v@.len() ==> scene_order_lt(
                        scene_pairs_view(v@)[i],
                        scene_pairs_view(v@)[j],
                    ))
                &&& (forall|sid: int|
                    0 <= sid < screenplay_document@.scenes.len() ==> #[trigger] scene_index_covered(
                        v@,
                        sid,
                    ))
            },
        },
{
    let ghost d = screenplay_document@;
    let n = screenplay_document.scenes.len();
    if n == 0 {
        return None;
    }
    let mut out: Vec<(SceneID, Scene)> = Vec::new();
    let mut sid: usize = 0;
    while sid < n
        invariant
            sid <= n,
            n == screenplay_document.scenes@.len(),
            d == screenplay_document@,
            out@.len() == sid,
            forall|i: int|
                0 <= i < out@.len() ==> ((#[trigger] out@[i]).0.0 as int) < sid && (out@[i].1)@
                    == d.scenes[out@[i].0.0 as int],
            forall|i: int, j: int|
                0 <= i < j < out@.len() ==> scene_order_lt(
                    scene_pairs_view(out@)[i],
                    scene_pairs_view(out@)[j],
                ),
            forall|s: int| 0 <= s < sid ==> #[trigger] scene_index_covered(out@, s),
        decreases n - sid,
    {
        proof {
            assert(d.scenes[sid as int] == screenplay_document.scenes@[sid as int]@);
        }
        let scene = clone_scene(&screenplay_document.scenes[sid]);
        let key_page = scene.start.page;
        let key_line = scene.start.line;
        let m = out.len();
        let mut pos: usize = 0;
        let mut past = false;
        while pos < m && !past
            invariant
                pos <= m,
                m == out@.len(),
                forall|k: int|
                    0 <= k < pos ==> ((#[trigger] out@[k]).1@.start.page < key_page || (
                    out@[k].1@.start.page == key_page && out@[k].1@.start.line <= key_line)),
                past ==> pos < m && !(out@[pos as int].1@.start.page < key_page || (
                out@[pos as int].1@.start.page == key_page && out@[pos as int].1@.start.line
                    <= key_line)),
            decreases m - pos + (if past {
                0int
            } else {
                1int
            }),
        {
            let e_page = out[pos].1.start.page;
            let e_line = out[pos].1.start.line;
            if e_page < key_page || (e_page == key_page && e_line <= key_line) {
                pos += 1;
            } else {
                past = true;
            }
        }
        let ghost old_out = out@;
        let ghost scene_v = scene@;
        let ghost new_pair = (SceneID(sid as u64), scene);
        proof {
            old_out.insert_ensures(pos as int, new_pair);
        }
        out.insert(pos, (SceneID(sid as u64), scene));
        proof {
            let new_out = out@;
            assert(new_out == old_out.insert(pos as int, new_pair));
            assert(new_pair.1@ == scene_v);
            assert(scene_v == d.scenes[sid as int]);
            assert forall|i: int, j: int|
                0 <= i < j < new_out.len() implies scene_order_lt(
                scene_pairs_view(new_out)[i],
                scene_pairs_view(new_out)[j],
            ) by {
                let pv_new = scene_pairs_view(new_out);
                let pv_old = scene_pairs_view(old_out);
                assert(pv_new[i] == (new_out[i].0, new_out[i].1@));
                assert(pv_new[j] == (new_out[j].0, new_out[j].1@));
                assert forall|k: int| 0 <= k < old_out.len() implies #[trigger] pv_old[k] == (
                    old_out[k].0,
                    old_out[k].1@,
                ) by {}
                if i < pos as int && j < pos as int {
                    assert(new_out[i] == old_out[i]);
                    assert(new_out[j] == old_out[j]);
                    assert(scene_order_lt(pv_old[i], pv_old[j]));
                } else if i < pos as int && j == pos as int {
                    assert(new_out[i] == old_out[i]);
                    assert(new_out[j] == new_pair);
                    assert((old_out[i].1@.start.page < key_page || (old_out[i].1@.start.page
                        == key_page && old_out[i].1@.start.line <= key_line)));
                    assert((old_out[i].0.0 as int) < sid as int);
                    assert(scene_v.start.page == key_page && scene_v.start.line == key_line);
                } else if i == pos as int && j > pos as int {
                    assert(new_out[i] == new_pair);
                    assert(new_out[j] == old_out[j - 1]);
                    assert(past);
                    assert(!(old_out[pos as int].1@.start.page < key_page || (
                    old_out[pos as int].1@.start.page == key_page
                        && old_out[pos as int].1@.start.line <= key_line)));
                    assert(scene_v.start.page == key_page && scene_v.start.line == key_line);
                    if j - 1 > pos as int {
                        assert(scene_order_lt(pv_old[pos as int], pv_old[j - 1]));
                    }
                } else if i < pos as int && j > pos as int {
                    assert(new_out[i] == old_out[i]);
                    assert(new_out[j] == old_out[j - 1]);
                    assert(scene_order_lt(pv_old[i], pv_old[j - 1]));
                } else {
                    assert(new_out[i] == old_out[i - 1]);
                    assert(new_out[j] == old_out[j - 1]);
                    assert(scene_order_lt(pv_old[i - 1], pv_old[j - 1]));
                }
            }
            assert forall|s: int| 0 <= s < sid as int + 1 implies #[trigger] scene_index_covered(
                out@,
                s,
            ) by {
                if s < sid as int {
                    assert(scene_index_covered(old_out, s));
                    let k0 = choose|k0: int|
                        0 <= k0 < old_out.len() && (#[trigger] old_out[k0]).0 == SceneID(s as u64);
                    if k0 < pos as int {
                        assert(out@[k0].0 == SceneID(s as u64));
                    } else {
                        assert(out@[k0 + 1].0 == SceneID(s as u64));
                    }
                } else {
                    assert(out@[pos as int].0 == SceneID(s as u64));
                }
            }
        }
        sid += 1;
    }
    Some(out)
}

/// The list `v` has an entry with identifier `sid`.
pub open spec fn contains_scene_id(v: Seq<(SceneID, Scene)>, sid: SceneID) -> bool {
    exists|k: int| 0 <= k < v.len() && (#[trigger] v[k]).0 == sid
}

fn scene_vec_contains(v: &Vec<(SceneID, Scene)>, sid: SceneID) -> (r: bool)
    ensures
        r == contains_scene_id(v@, sid),
{
    let n = v.len();
    let mut i: usize = 0;
    while i < n
        invariant
            i <= n,
            n == v@.len(),
            forall|j: int| 0 <= j < i ==> (#[trigger] v@[j]).0 != sid,
        decreases n - i,
    {
        if v[i].0 == sid {
            return true;
        }
        i += 1;
    }
    false
}

/// The backward scan that resolves a coordinate to its scene: walk the
/// lines of page `p` from line `l` down, then the previous pages, until a
/// scene-heading line bound to a scene is found; its identifier is the
/// answer, unless it names no scene of the document.
pub open spec fn scene_scan(d: ScreenplayDocumentV, p: int, l: int) -> Option<SceneID>
    decreases p, l + 1,
{
    if p < 0 {
        None
    } else if l < 0 {
        if p == 0 {
            None
        } else if d.pages[p - 1].lines.len() == 0 {
            None
        } else {
            scene_scan(d, p - 1, d.pages[p - 1].lines.len() - 1)
        }
    } else {
        let ln = d.pages[p].lines[l];
        if ln.line_type == scene_heading_line_tag() && ln.scene_id is Some {
            if ((ln.scene_id->0).0 as int) < d.scenes.len() {
                Some(ln.scene_id->0)
            } else {
                None
            }
        } else {
            scene_scan(d, p, l - 1)
        }
    }
}

/// The scene a coordinate belongs to: the most recent scene heading at or
/// before it in document order.
pub open spec fn scene_for_coordinate_spec(
    d: ScreenplayDocumentV,
    c: ScreenplayCoordinate,
) -> Option<SceneID> {
    if (c.page as int) >= d.pages.len() {
        None
    } else {
        let len = d.pages[c.page as int].lines.len();
        let l0 = if (c.line as int) < len {
            c.line as int
        } else {
            len - 1
        };
        scene_scan(d, c.page as int, l0)
    }
}

fn scene_scan_exec(
    screenplay_document: &ScreenplayDocument,
    p: usize,
    l_plus: usize,
) -> (r: Option<SceneID>)
    requires
        (p as int) < screenplay_document@.pages.len(),
        l_plus as int <= screenplay_document@.pages[p as int].lines.len(),
    ensures
        r == scene_scan(screenplay_document@, p as int, l_plus as int - 1),
        r matches Some(sid) ==> (sid.0 as int) < screenplay_document@.scenes.len(),
    decreases p, l_plus,
{
    let ghost d = screenplay_document@;
    if l_plus == 0 {
        if p == 0 {
            return None;
        }
        proof {
            assert(d.pages[p - 1] == screenplay_document.pages@[p - 1]@);
        }
        let prev_len = screenplay_document.pages[p - 1].lines.len();
        if prev_len == 0 {
            return None;
        }
        return scene_scan_exec(screenplay_document, p - 1, prev_len);
    }
    let l = l_plus - 1;
    proof {
        assert(d.pages[p as int] == screenplay_document.pages@[p as int]@);
        assert(d.pages[p as int].lines[l as int]
            == screenplay_document.pages@[p as int].lines@[l as int]@);
    }
    let ln = &screenplay_document.pages[p].lines[l];
    if ln.line_type == Some(SPType::SP_SCENE_HEADING(SceneHeadingElement::Line)) {
        match ln.scene_id {
            Some(sid) => {
                if sid.0 < screenplay_document.scenes.len() as u64 {
                    return Some(sid);
                }
                return None;
            },
            None => {},
        }
    }
    scene_scan_exec(screenplay_document, p, l)
}

/// The scene the coordinate falls in: the scene of the most recent
/// scene-heading line at or before it; `None` when no bound heading
/// precedes it.
pub fn get_scene_for_screenplay_coordinate<'a>(
    screenplay_document: &'a ScreenplayDocument,
    checked_coordinate: &ScreenplayCoordinate,
) -> (r: Option<(SceneID, &'a Scene)>)
    ensures
        match r {
            Some(pr) => scene_for_coordinate_spec(screenplay_document@, *checked_coordinate)
                == Some(pr.0) && (pr.0.0 as int) < screenplay_document@.scenes.len() && pr.1@
                == screenplay_document@.scenes[pr.0.0 as int],
            None => scene_for_coordinate_spec(screenplay_document@, *checked_coordinate) is None,
        },
{
    let ghost d = screenplay_document@;
    if checked_coordinate.page >= screenplay_document.pages.len() {
        return None;
    }
    proof {
        assert(d.pages[checked_coordinate.page as int]
            == screenplay_document.pages@[checked_coordinate.page as int]@);
    }
    let len = screenplay_document.pages[checked_coordinate.page].lines.len();
    let l_plus = if checked_coordinate.line < len {
        checked_coordinate.line + 1
    } else {
        len
    };
    match scene_scan_exec(screenplay_document, checked_coordinate.page, l_plus) {
        Some(sid) => {
            let ns = screenplay_document.scenes.len();
            proof {
                assert((sid.0 as int) < ns as int);
                assert(sid.0 as usize as int == sid.0 as int);
            }
            let scn = &screenplay_document.scenes[sid.0 as usize];
            proof {
                assert(scn@ == d.scenes[sid.0 as int]);
            }
            Some((sid, scn))
        },
        None => None,
    }
}

/// The scene is the active one at some existing coordinate of the
/// inclusive range.
pub open spec fn active_in_range(
    d: ScreenplayDocumentV,
    a: ScreenplayCoordinate,
    b: ScreenplayCoordinate,
    sid: SceneID,
) -> bool {
    exists|p2: int, l2: int|
        0 <= p2 < d.pages.len() && 0 <= l2 < d.pages[p2].lines.len() && (p2 > a.page as int || (p2
            == a.page as int && l2 >= a.line as int)) && (p2 < b.page as int || (p2
            == b.page as int && l2 <= b.line as int)) && #[trigger] scene_scan(d, p2, l2) == Some(
            sid,
        )
}

/// On a well-formed document the backward scan resolves to a scene that
/// starts at or before the scanned position.
proof fn lemma_scene_scan_start(d: ScreenplayDocumentV, p: int, l: int)
    requires
        d.wf(),
        0 <= p < d.pages.len(),
        l < d.pages[p].lines.len(),
    ensures
        match scene_scan(d, p, l) {
            Some(sid) => (sid.0 as int) < d.scenes.len() && start_before_pos(
                d.scenes[sid.0 as int].start,
                p,
                l + 1,
            ),
            None => true,
        },
    decreases p, l + 1,
{
    if l < 0 {
        if p > 0 && d.pages[p - 1].lines.len() > 0 {
            lemma_scene_scan_start(d, p - 1, d.pages[p - 1].lines.len() - 1);
        }
    } else {
        let ln = d.pages[p].lines[l];
        if ln.line_type == scene_heading_line_tag() && ln.scene_id is Some {
            if ((ln.scene_id->0).0 as int) < d.scenes.len() {
                assert(d.headings_wf());
                assert(d.pages[p].lines[l] == ln);
            }
        } else {
            lemma_scene_scan_start(d, p, l - 1);
        }
    }
}

/// The scene start `c` lies strictly before the scan position (`p`, `l`).
pub open spec fn start_before_pos(c: ScreenplayCoordinate, p: int, l: int) -> bool {
    (c.page as int) < p || (c.page as int == p && (c.line as int) < l)
}

/// Every scene starting in `[a, b]` and strictly before position
/// (`p`, `l`) is present in `v`.
pub open spec fn range_covered(
    d: ScreenplayDocumentV,
    a: ScreenplayCoordinate,
    b: ScreenplayCoordinate,
    v: Seq<(SceneID, Scene)>,
    p: int,
    l: int,
) -> bool {
    forall|i: int|
        #![trigger d.scenes[i]]
        0 <= i < d.scenes.len() && coord_le(a, d.scenes[i].start) && coord_le(d.scenes[i].start, b)
            && start_before_pos(d.scenes[i].start, p, l) ==> contains_scene_id(
            v,
            SceneID(i as u64),
        )
}

/// The distinct scenes whose heading lies in the inclusive coordinate
/// range, preceded by the scene already active at the range start; every
/// result is the active scene at some coordinate of the range. `None` when
/// either bound's page does not exist or nothing is found.
///
/// On a well-formed document with valid bounds in order, the result comes
/// in document order and holds every scene starting within the range, and
/// the scene active at the range start when there is one.
pub fn get_scenes_from_range(
    screenplay_document: &ScreenplayDocument,
    start: &ScreenplayCoordinate,
    end: &ScreenplayCoordinate,
) -> (r: Option<Vec<(SceneID, Scene)>>)
    ensures
        match r {
            Some(v) => {
                &&& v@.len() > 0
                &&& (forall|k: int|
                    0 <= k < v@.len() ==> ((#[trigger] v@[k]).0.0 as int)
                        < screenplay_document@.scenes.len() && (v@[k].1)@
                        == screenplay_document@.scenes[v@[k].0.0 as int])
                &&& (forall|k1: int, k2: int|
                    0 <= k1 < k2 < v@.len() ==> (#[trigger] v@[k1]).0 != (#[trigger] v@[k2]).0)
                &&& (forall|k: int|
                    0 <= k < v@.len() ==> active_in_range(
                        screenplay_document@,
                        *start,
                        *end,
                        (#[trigger] v@[k]).0,
                    ))
            },
            None => true,
        },
        (start.page as int) >= screenplay_document@.pages.len() || (end.page as int)
            >= screenplay_document@.pages.len() ==> r is None,
        ({
            let d = screenplay_document@;
            d.wf() && d.valid_coordinate(*start) && d.valid_coordinate(*end) && coord_le(
                *start,
                *end,
            ) ==> {
                &&& (forall|i: int|
                    #![trigger d.scenes[i]]
                    0 <= i < d.scenes.len() && coord_le(*start, d.scenes[i].start) && coord_le(
                        d.scenes[i].start,
                        *end,
                    ) ==> (r matches Some(v) && contains_scene_id(v@, SceneID(i as u64))))
                &&& (scene_for_coordinate_spec(d, *start) matches Some(sid) ==> (r matches Some(v)
                    && contains_scene_id(v@, sid)))
                &&& (r matches Some(v) ==> (forall|k1: int, k2: int|
                    0 <= k1 < k2 < v@.len() ==> coord_lt(
                        d.scenes[((#[trigger] v@[k1]).0).0 as int].start,
                        d.scenes[((#[trigger] v@[k2]).0).0 as int].start,
                    )))
            }
        }),
{
    let ghost d = screenplay_document@;
    let ghost a = *start;
    let ghost b = *end;
    let ghost hyp = d.wf() && d.valid_coordinate(a) && d.valid_coordinate(b) && coord_le(a, b);
    let ghost sfa = scene_for_coordinate_spec(d, a);
    if start.page >= screenplay_document.pages.len() {
        return None;
    }
    if end.page >= screenplay_document.pages.len() {
        return None;
    }
    let start_page = start.page;
    let start_line = start.line;
    let end_page = end.page;
    let end_line = end.line;
    let npages = screenplay_document.pages.len();
    let mut scenes_in_range: Vec<(SceneID, Scene)> = Vec::new();
    let mut pi = start_page;
    while pi <= end_page
        invariant
            d == screenplay_document@,
            start_page == a.page,
            start_line == a.line,
            end_page == b.page,
            end_line == b.line,
            npages == screenplay_document.pages@.len(),
            end_page < npages,
            (end_page as int) < d.pages.len(),
            pi >= start_page,
            hyp == (d.wf() && d.valid_coordinate(a) && d.valid_coordinate(b) && coord_le(a, b)),
            sfa == scene_for_coordinate_spec(d, a),
            forall|k: int|
                0 <= k < scenes_in_range@.len() ==> ((#[trigger] scenes_in_range@[k]).0.0 as int)
                    < d.scenes.len() && (scenes_in_range@[k].1)@
                    == d.scenes[scenes_in_range@[k].0.0 as int],
            forall|k1: int, k2: int|
                0 <= k1 < k2 < scenes_in_range@.len() ==> (#[trigger] scenes_in_range@[k1]).0 != (
                #[trigger] scenes_in_range@[k2]).0,
            forall|k: int|
                0 <= k < scenes_in_range@.len() ==> active_in_range(
                    d,
                    a,
                    b,
                    (#[trigger] scenes_in_range@[k]).0,
                ),
            hyp ==> (forall|k: int|
                0 <= k < scenes_in_range@.len() ==> start_before_pos(
                    d.scenes[((#[trigger] scenes_in_range@[k]).0).0 as int].start,
                    pi as int,
                    0,
                )),
            hyp ==> (forall|k1: int, k2: int|
                0 <= k1 < k2 < scenes_in_range@.len() ==> coord_lt(
                    d.scenes[((#[trigger] scenes_in_range@[k1]).0).0 as int].start,
                    d.scenes[((#[trigger] scenes_in_range@[k2]).0).0 as int].start,
                )),
            hyp ==> (!(pi as int > a.page as int) ==> scenes_in_range@.len() == 0),
            hyp ==> ((pi as int > a.page as int) ==> (sfa matches Some(sid)
                ==> contains_scene_id(scenes_in_range@, sid))),
            hyp ==> range_covered(d, a, b, scenes_in_range@, pi as int, 0),
        decreases end_page + 1 - pi,
    {
        proof {
            assert(d.pages[pi as int] == screenplay_document.pages@[pi as int]@);
        }
        let nl = screenplay_document.pages[pi].lines.len();
        let mut li: usize = 0;
        let mut stopped = false;
        while li < nl && !stopped
            invariant
                li <= nl,
                d == screenplay_document@,
                start_page == a.page,
                start_line == a.line,
                end_page == b.page,
                end_line == b.line,
                (pi as int) < d.pages.len(),
                pi >= start_page,
                pi <= end_page,
                nl == d.pages[pi as int].lines.len(),
                hyp == (d.wf() && d.valid_coordinate(a) && d.valid_coordinate(b) && coord_le(
                    a,
                    b,
                )),
                sfa == scene_for_coordinate_spec(d, a),
                stopped ==> pi == end_page && li as int > end_line as int,
                forall|k: int|
                    0 <= k < scenes_in_range@.len() ==> ((#[trigger] scenes_in_range@[k]).0.0
                        as int) < d.scenes.len() && (scenes_in_range@[k].1)@
                        == d.scenes[scenes_in_range@[k].0.0 as int],
                forall|k1: int, k2: int|
                    0 <= k1 < k2 < scenes_in_range@.len() ==> (#[trigger] scenes_in_range@[k1]).0
                        != (#[trigger] scenes_in_range@[k2]).0,
                forall|k: int|
                    0 <= k < scenes_in_range@.len() ==> active_in_range(
                        d,
                        a,
                        b,
                        (#[trigger] scenes_in_range@[k]).0,
                    ),
                hyp ==> (forall|k: int|
                    0 <= k < scenes_in_range@.len() ==> start_before_pos(
                        d.scenes[((#[trigger] scenes_in_range@[k]).0).0 as int].start,
                        pi as int,
                        li as int,
                    )),
                hyp ==> (forall|k1: int, k2: int|
                    0 <= k1 < k2 < scenes_in_range@.len() ==> coord_lt(
                        d.scenes[((#[trigger] scenes_in_range@[k1]).0).0 as int].start,
                        d.scenes[((#[trigger] scenes_in_range@[k2]).0).0 as int].start,
                    )),
                hyp ==> (!(pi as int > a.page as int || (pi as int == a.page as int && li as int
                    > a.line as int)) ==> scenes_in_range@.len() == 0),
                hyp ==> ((pi as int > a.page as int || (pi as int == a.page as int && li as int
                    > a.line as int)) ==> (sfa matches Some(sid) ==> contains_scene_id(
                    scenes_in_range@,
                    sid,
                ))),
                hyp ==> range_covered(d, a, b, scenes_in_range@, pi as int, li as int),
            decreases nl - li + (if stopped {
                0int
            } else {
                1int
            }),
        {
            if pi == end_page && li > end_line {
                stopped = true;
            } else {
                let ghost old_v = scenes_in_range@;
                if pi == start_page && li < start_line {
                    proof {
                        if hyp {
                            assert forall|i: int|
                                #![trigger d.scenes[i]]
                                0 <= i < d.scenes.len() && coord_le(a, d.scenes[i].start)
                                    && coord_le(d.scenes[i].start, b) && start_before_pos(
                                    d.scenes[i].start,
                                    pi as int,
                                    li as int + 1,
                                ) implies contains_scene_id(scenes_in_range@, SceneID(i as u64)) by {
                                assert(start_before_pos(d.scenes[i].start, pi as int, li as int));
                            }
                        }
                    }
                } else {
                    let line_is_heading = {
                        proof {
                            assert(d.pages[pi as int].lines[li as int]
                                == screenplay_document.pages@[pi as int].lines@[li as int]@);
                        }
                        screenplay_document.pages[pi].lines[li].line_type == Some(
                            SPType::SP_SCENE_HEADING(SceneHeadingElement::Line),
                        )
                    };
                    let ghost ln = d.pages[pi as int].lines[li as int];
                    if line_is_heading || scenes_in_range.len() == 0 {
                        let coord = ScreenplayCoordinate { page: pi, line: li, element: None };
                        proof {
                            assert(scene_for_coordinate_spec(d, coord) == scene_scan(
                                d,
                                pi as int,
                                li as int,
                            ));
                        }
                        match get_scene_for_screenplay_coordinate(screenplay_document, &coord) {
                            Some((scene_id, scene_obj)) => {
                                if !scene_vec_contains(&scenes_in_range, scene_id) {
                                    scenes_in_range.push((scene_id, clone_scene(scene_obj)));
                                    proof {
                                        assert(scenes_in_range@[old_v.len() as int].0 == scene_id);
                                    }
                                }
                                proof {
                                    assert forall|sid0: SceneID|
                                        contains_scene_id(old_v, sid0) implies contains_scene_id(
                                        scenes_in_range@,
                                        sid0,
                                    ) by {
                                        let k = choose|k: int|
                                            0 <= k < old_v.len() && (#[trigger] old_v[k]).0
                                                == sid0;
                                        assert(scenes_in_range@[k].0 == sid0);
                                    }
                                    assert(contains_scene_id(scenes_in_range@, scene_id));
                                    // The processed position witnesses that the
                                    // scene is active inside the range.
                                    assert(scene_scan(d, pi as int, li as int) == Some(scene_id));
                                    assert(active_in_range(d, a, b, scene_id));
                                    if hyp {
                                        lemma_scene_scan_start(d, pi as int, li as int);
                                        if old_v.len() > 0 {
                                            assert(line_is_heading);
                                            assert(d.headings_wf());
                                            assert(ln.scene_id == Some(scene_id));
                                            assert(d.scenes[scene_id.0 as int].start.page
                                                == pi && d.scenes[scene_id.0 as int].start.line
                                                == li);
                                        }
                                    }
                                    if hyp {
                                        if pi as int == a.page as int && li as int
                                            == a.line as int {
                                            assert(scene_for_coordinate_spec(d, coord) == sfa);
                                        }
                                        assert forall|i: int|
                                            #![trigger d.scenes[i]]
                                            0 <= i < d.scenes.len() && coord_le(
                                                a,
                                                d.scenes[i].start,
                                            ) && coord_le(d.scenes[i].start, b)
                                                && start_before_pos(
                                                d.scenes[i].start,
                                                pi as int,
                                                li as int + 1,
                                            ) implies contains_scene_id(
                                            scenes_in_range@,
                                            SceneID(i as u64),
                                        ) by {
                                            if start_before_pos(
                                                d.scenes[i].start,
                                                pi as int,
                                                li as int,
                                            ) {
                                                assert(contains_scene_id(
                                                    old_v,
                                                    SceneID(i as u64),
                                                ));
                                            } else {
                                                assert(d.scene_wf(i));
                                                assert(ln.scene_id == Some(SceneID(i as u64)));
                                                assert(ln.line_type == scene_heading_line_tag());
                                                assert(scene_scan(d, pi as int, li as int)
                                                    == Some(SceneID(i as u64)));
                                                assert(scene_id == SceneID(i as u64));
                                            }
                                        }
                                    }
                                }
                            },
                            None => {
                                proof {
                                    if hyp {
                                        assert forall|i: int|
                                            #![trigger d.scenes[i]]
                                            0 <= i < d.scenes.len() && coord_le(
                                                a,
                                                d.scenes[i].start,
                                            ) && coord_le(d.scenes[i].start, b)
                                                && start_before_pos(
                                                d.scenes[i].start,
                                                pi as int,
                                                li as int + 1,
                                            ) implies contains_scene_id(
                                            scenes_in_range@,
                                            SceneID(i as u64),
                                        ) by {
                                            if start_before_pos(
                                                d.scenes[i].start,
                                                pi as int,
                                                li as int,
                                            ) {
                                                assert(contains_scene_id(
                                                    old_v,
                                                    SceneID(i as u64),
                                                ));
                                            } else {
                                                assert(d.scene_wf(i));
                                                assert(scene_scan(d, pi as int, li as int)
                                                    == Some(SceneID(i as u64)));
                                            }
                                        }
                                    }
                                }
                            },
                        }
                    } else {
                        proof {
                            if hyp {
                                assert forall|i: int|
                                    #![trigger d.scenes[i]]
                                    0 <= i < d.scenes.len() && coord_le(a, d.scenes[i].start)
                                        && coord_le(d.scenes[i].start, b) && start_before_pos(
                                        d.scenes[i].start,
                                        pi as int,
                                        li as int + 1,
                                    ) implies contains_scene_id(
                                    scenes_in_range@,
                                    SceneID(i as u64),
                                ) by {
                                    if start_before_pos(d.scenes[i].start, pi as int, li as int) {
                                        assert(contains_scene_id(old_v, SceneID(i as u64)));
                                    } else {
                                        assert(d.scene_wf(i));
                                        assert(ln.line_type == scene_heading_line_tag());
                                    }
                                }
                            }
                        }
                    }
                }
                li += 1;
            }
        }
        proof {
            if hyp {
                assert forall|i: int|
                    #![trigger d.scenes[i]]
                    0 <= i < d.scenes.len() && coord_le(a, d.scenes[i].start) && coord_le(
                        d.scenes[i].start,
                        b,
                    ) && start_before_pos(
                        d.scenes[i].start,
                        pi as int + 1,
                        0,
                    ) implies contains_scene_id(scenes_in_range@, SceneID(i as u64)) by {
                    assert(d.scene_wf(i));
                    if (d.scenes[i].start.page as int) == pi as int {
                        assert((d.scenes[i].start.line as int) < nl as int);
                        if stopped {
                            assert((d.scenes[i].start.line as int) <= end_line as int);
                            assert(start_before_pos(d.scenes[i].start, pi as int, li as int));
                        } else {
                            assert(start_before_pos(d.scenes[i].start, pi as int, li as int));
                        }
                    } else {
                        assert(start_before_pos(d.scenes[i].start, pi as int, li as int));
                    }
                }
            }
        }
        pi += 1;
    }
    if scenes_in_range.len() == 0 {
        proof {
            if hyp {
                assert forall|i: int|
                    #![trigger d.scenes[i]]
                    0 <= i < d.scenes.len() && coord_le(a, d.scenes[i].start) && coord_le(
                        d.scenes[i].start,
                        b,
                    ) implies false by {
                    assert(start_before_pos(d.scenes[i].start, pi as int, 0));
                    assert(contains_scene_id(scenes_in_range@, SceneID(i as u64)));
                }
                if sfa is Some {
                    assert(pi as int > a.page as int);
                    assert(contains_scene_id(scenes_in_range@, sfa->0));
                }
            }
        }
        return None;
    }
    proof {
        if hyp {
            assert(pi as int > a.page as int);
            assert forall|i: int|
                #![trigger d.scenes[i]]
                0 <= i < d.scenes.len() && coord_le(a, d.scenes[i].start) && coord_le(
                    d.scenes[i].start,
                    b,
                ) implies contains_scene_id(scenes_in_range@, SceneID(i as u64)) by {
                assert(start_before_pos(d.scenes[i].start, pi as int, 0));
            }
        }
    }
    Some(scenes_in_range)
}

// --------------------------------------------------- characters and scenes

/// Position (`p`, `l`) lies in the extent of a scene starting at
/// (`start_p`, `start_l`): at or after the start, with no scene-heading
/// line strictly between the start and it.
pub open spec fn pos_in_scene_extent(
    d: ScreenplayDocumentV,
    start_p: int,
    start_l: int,
    p: int,
    l: int,
) -> bool {
    &&& 0 <= p < d.pages.len()
    &&& 0 <= l < d.pages[p].lines.len()
    &&& (p > start_p || (p == start_p && l >= start_l))
    &&& (forall|p2: int, l2: int|
        #![trigger d.pages[p2].lines[l2]]
        0 <= p2 < d.pages.len() && 0 <= l2 < d.pages[p2].lines.len() && (p2 > start_p || (p2
            == start_p && l2 > start_l)) && (p2 < p || (p2 == p && l2 <= l))
            ==> d.pages[p2].lines[l2].line_type != scene_heading_line_tag())
}

/// The character named `name` speaks in the scene starting at
/// (`start_p`, `start_l`): some character-cue line of the scene's extent
/// spells the name.
pub open spec fn char_speaks_in_extent(
    d: ScreenplayDocumentV,
    start_p: int,
    start_l: int,
    name: Seq<char>,
) -> bool {
    exists|p: int, l: int|
        pos_in_scene_extent(d, start_p, start_l, p, l) && (#[trigger] d.pages[p].lines[l]).line_type
            == Some(SPType::SP_CHARACTER) && is_line_spec(d.pages[p].lines[l], name)
}

/// Scan the extent of the scene starting at (`start_p`, `start_l`) for a
/// character-cue line spelling the character's name.
fn character_speaks_in_scene(
    screenplay_document: &ScreenplayDocument,
    start_p: usize,
    start_l: usize,
    character: &Character,
) -> (r: bool)
    ensures
        r == char_speaks_in_extent(
            screenplay_document@,
            start_p as int,
            start_l as int,
            character.name@,
        ),
{
    let ghost d = screenplay_document@;
    let ghost name = character.name@;
    let npages = screenplay_document.pages.len();
    let mut p = start_p;
    let mut stopped = false;
    while p < npages && !stopped
        invariant
            d == screenplay_document@,
            npages == screenplay_document.pages@.len(),
            npages == d.pages.len(),
            name == character.name@,
            p >= start_p,
            // no heading strictly after the start has been met yet
            !stopped ==> (forall|p2: int, l2: int|
                #![trigger d.pages[p2].lines[l2]]
                0 <= p2 < d.pages.len() && 0 <= l2 < d.pages[p2].lines.len() && (p2 > start_p as int
                    || (p2 == start_p as int && l2 > start_l as int)) && p2 < p as int
                    ==> d.pages[p2].lines[l2].line_type != scene_heading_line_tag()),
            // no witness among the lines already scanned
            forall|p2: int, l2: int|
                #![trigger d.pages[p2].lines[l2]]
                pos_in_scene_extent(d, start_p as int, start_l as int, p2, l2) && p2 < p as int
                    && d.pages[p2].lines[l2].line_type == Some(SPType::SP_CHARACTER)
                    ==> !is_line_spec(d.pages[p2].lines[l2], name),
            stopped ==> !char_speaks_in_extent(d, start_p as int, start_l as int, name),
        decreases npages - p + (if stopped {
            0int
        } else {
            1int
        }),
    {
        proof {
            assert(d.pages[p as int] == screenplay_document.pages@[p as int]@);
        }
        let nl = screenplay_document.pages[p].lines.len();
        let mut l: usize = 0;
        while l < nl && !stopped
            invariant
                d == screenplay_document@,
                npages == d.pages.len(),
                name == character.name@,
                p >= start_p,
                (p as int) < d.pages.len(),
                nl == d.pages[p as int].lines.len(),
                l <= nl,
                !stopped ==> (forall|p2: int, l2: int|
                    #![trigger d.pages[p2].lines[l2]]
                    0 <= p2 < d.pages.len() && 0 <= l2 < d.pages[p2].lines.len() && (p2 > start_p
                        as int || (p2 == start_p as int && l2 > start_l as int)) && (p2 < p as int
                        || (p2 == p as int && l2 < l as int)) ==> d.pages[p2].lines[l2].line_type
                        != scene_heading_line_tag()),
                forall|p2: int, l2: int|
                    #![trigger d.pages[p2].lines[l2]]
                    pos_in_scene_extent(d, start_p as int, start_l as int, p2, l2) && (p2 < p as int
                        || (p2 == p as int && l2 < l as int)) && d.pages[p2].lines[l2].line_type
                        == Some(SPType::SP_CHARACTER) ==> !is_line_spec(
                        d.pages[p2].lines[l2],
                        name,
                    ),
                stopped ==> !char_speaks_in_extent(d, start_p as int, start_l as int, name),
            decreases nl - l + (if stopped {
                0int
            } else {
                1int
            }),
        {
            proof {
                assert(d.pages[p as int].lines[l as int]
                    == screenplay_document.pages@[p as int].lines@[l as int]@);
            }
            let ghost ln = d.pages[p as int].lines[l as int];
            if p == start_p && l < start_l {
            } else {
                let line = &screenplay_document.pages[p].lines[l];
                let is_heading = line.line_type == Some(
                    SPType::SP_SCENE_HEADING(SceneHeadingElement::Line),
                );
                let after_start = p > start_p || l > start_l;
                if is_heading && after_start {
                    stopped = true;
                    proof {
                        assert forall|p2: int, l2: int|
                            pos_in_scene_extent(d, start_p as int, start_l as int, p2, l2) && (
                            #[trigger] d.pages[p2].lines[l2]).line_type == Some(
                                SPType::SP_CHARACTER,
                            ) implies !is_line_spec(d.pages[p2].lines[l2], name) by {
                            if p2 > p as int || (p2 == p as int && l2 >= l as int) {
                                assert(d.pages[p as int].lines[l as int].line_type
                                    == scene_heading_line_tag());
                                assert(false);
                            }
                        }
                    }
                } else if line.line_type == Some(SPType::SP_CHARACTER) {
                    if character.is_line(line) {
                        proof {
                            assert(pos_in_scene_extent(
                                d,
                                start_p as int,
                                start_l as int,
                                p as int,
                                l as int,
                            ));
                        }
                        return true;
                    }
                }
            }
            l += 1;
        }
        p += 1;
    }
    proof {
        if !stopped {
            assert forall|p2: int, l2: int|
                pos_in_scene_extent(d, start_p as int, start_l as int, p2, l2) && (
            #[trigger] d.pages[p2].lines[l2]).line_type == Some(
                SPType::SP_CHARACTER,
            ) implies !is_line_spec(d.pages[p2].lines[l2], name) by {}
        }
    }
    false
}

/// The characters of `characters` (in input order, among the first `i`)
/// that speak in the scene starting at the given position.
pub open spec fn filter_chars_speaking_at(
    d: ScreenplayDocumentV,
    start_p: int,
    start_l: int,
    characters: Seq<CharacterV>,
    i: int,
) -> Seq<CharacterV>
    decreases i,
{
    if i <= 0 {
        Seq::<CharacterV>::empty()
    } else {
        let pre = filter_chars_speaking_at(d, start_p, start_l, characters, i - 1);
        if char_speaks_in_extent(d, start_p, start_l, characters[i - 1].name) {
            pre.push(characters[i - 1])
        } else {
            pre
        }
    }
}

/// The views of a character list.
pub open spec fn character_list_view(v: Seq<Character>) -> Seq<CharacterV> {
    Seq::new(v.len(), |i: int| v[i]@)
}

/// The characters among `characters` that speak in the scene `scene_id`
/// names: those with a character-cue line in the scene's extent, in input
/// order. `None` when the identifier names no scene or none speaks.
pub fn filter_characters_by_scene(
    screenplay_document: &ScreenplayDocument,
    characters: &Vec<Character>,
    scene_id: &SceneID,
) -> (r: Option<Vec<Character>>)
    ensures
        (scene_id.0 as int) >= screenplay_document@.scenes.len() ==> r is None,
        (scene_id.0 as int) < screenplay_document@.scenes.len() ==> ({
            let s = screenplay_document@.scenes[scene_id.0 as int];
            let m = filter_chars_speaking_at(
                screenplay_document@,
                s.start.page as int,
                s.start.line as int,
                character_list_view(characters@),
                characters@.len() as int,
            );
            match r {
                Some(v) => character_list_view(v@) == m && m.len() > 0,
                None => m.len() == 0,
            }
        }),
{
    let ghost d = screenplay_document@;
    let scn = match screenplay_document.get_scene(scene_id) {
        Some(s) => s,
        None => {
            return None;
        },
    };
    let start_p = scn.start.page;
    let start_l = scn.start.line;
    let ghost chars_v = character_list_view(characters@);
    let mut out: Vec<Character> = Vec::new();
    let n = characters.len();
    let mut i: usize = 0;
    while i < n
        invariant
            i <= n,
            n == characters@.len(),
            d == screenplay_document@,
            chars_v == character_list_view(characters@),
            start_p as int == d.scenes[scene_id.0 as int].start.page as int,
            start_l as int == d.scenes[scene_id.0 as int].start.line as int,
            character_list_view(out@) == filter_chars_speaking_at(
                d,
                start_p as int,
                start_l as int,
                chars_v,
                i as int,
            ),
        decreases n - i,
    {
        proof {
            assert(chars_v[i as int] == characters@[i as int]@);
        }
        if character_speaks_in_scene(screenplay_document, start_p, start_l, &characters[i]) {
            out.push(clone_character(&characters[i]));
            proof {
                assert(character_list_view(out@) =~= filter_chars_speaking_at(
                    d,
                    start_p as int,
                    start_l as int,
                    chars_v,
                    i as int,
                ).push(chars_v[i as int]));
            }
        } else {
            proof {
                assert(character_list_view(out@) =~= filter_chars_speaking_at(
                    d,
                    start_p as int,
                    start_l as int,
                    chars_v,
                    i as int + 1,
                ));
            }
        }
        i += 1;
    }
    if out.len() == 0 {
        return None;
    }
    Some(out)
}

/// The registered characters that speak in the scene `scene_id` names.
pub fn get_characters_for_scene(
    screenplay_document: &ScreenplayDocument,
    scene_id: &SceneID,
) -> (r: Option<Vec<Character>>)
    ensures
        (scene_id.0 as int) >= screenplay_document@.scenes.len() ==> r is None,
        (scene_id.0 as int) < screenplay_document@.scenes.len() ==> ({
            let s = screenplay_document@.scenes[scene_id.0 as int];
            let m = filter_chars_speaking_at(
                screenplay_document@,
                s.start.page as int,
                s.start.line as int,
                character_list_view(screenplay_document.characters@),
                screenplay_document.characters@.len() as int,
            );
            match r {
                Some(v) => character_list_view(v@) == m && m.len() > 0,
                None => m.len() == 0,
            }
        }),
{
    filter_characters_by_scene(screenplay_document, &screenplay_document.characters, scene_id)
}

/// The scene pairs (in input order, among the first `i`) in whose extent
/// the character named `name` speaks.
pub open spec fn filter_pairs_speaking_at(
    d: ScreenplayDocumentV,
    pairs: Seq<(SceneID, SceneV)>,
    name: Seq<char>,
    i: int,
) -> Seq<(SceneID, SceneV)>
    decreases i,
{
    if i <= 0 {
        Seq::<(SceneID, SceneV)>::empty()
    } else {
        let pre = filter_pairs_speaking_at(d, pairs, name, i - 1);
        if char_speaks_in_extent(
            d,
            pairs[i - 1].1.start.page as int,
            pairs[i - 1].1.start.line as int,
            name,
        ) {
            pre.push(pairs[i - 1])
        } else {
            pre
        }
    }
}

/// Element `k` of the speaking filter is an input pair in whose scene the
/// character speaks.
pub open spec fn speaking_filter_elem_ok(
    d: ScreenplayDocumentV,
    pairs: Seq<(SceneID, SceneV)>,
    name: Seq<char>,
    i: int,
    k: int,
) -> bool {
    exists|j: int|
        0 <= j < i && filter_pairs_speaking_at(d, pairs, name, i)[k] == #[trigger] pairs[j]
            && char_speaks_in_extent(
            d,
            pairs[j].1.start.page as int,
            pairs[j].1.start.line as int,
            name,
        )
}

/// Every element of the speaking filter is an input pair in whose scene
/// the character speaks.
pub open spec fn speaking_filter_sound(
    d: ScreenplayDocumentV,
    pairs: Seq<(SceneID, SceneV)>,
    name: Seq<char>,
    i: int,
) -> bool {
    forall|k: int|
        0 <= k < filter_pairs_speaking_at(d, pairs, name, i).len()
            ==> #[trigger] speaking_filter_elem_ok(d, pairs, name, i, k)
}

/// Every input pair in whose scene the character speaks is kept.
pub open spec fn speaking_filter_complete(
    d: ScreenplayDocumentV,
    pairs: Seq<(SceneID, SceneV)>,
    name: Seq<char>,
    i: int,
) -> bool {
    forall|j: int|
        0 <= j < i && char_speaks_in_extent(
            d,
            (#[trigger] pairs[j]).1.start.page as int,
            pairs[j].1.start.line as int,
            name,
        ) ==> filter_pairs_speaking_at(d, pairs, name, i).contains(pairs[j])
}

#[verifier::rlimit(50)]
proof fn lemma_filter_pairs_speaking_elems(
    d: ScreenplayDocumentV,
    pairs: Seq<(SceneID, SceneV)>,
    name: Seq<char>,
    i: int,
)
    requires
        0 <= i <= pairs.len(),
    ensures
        speaking_filter_sound(d, pairs, name, i),
        speaking_filter_complete(d, pairs, name, i),
    decreases i,
{
    let m = filter_pairs_speaking_at(d, pairs, name, i);
    if i == 0 {
        assert(m.len() == 0);
    } else {
        lemma_filter_pairs_speaking_elems(d, pairs, name, i - 1);
        let pre = filter_pairs_speaking_at(d, pairs, name, i - 1);
        assert forall|k: int|
            0 <= k < m.len() implies #[trigger] speaking_filter_elem_ok(d, pairs, name, i, k) by {
            if k < pre.len() {
                assert(m[k] == pre[k]);
                assert(speaking_filter_elem_ok(d, pairs, name, i - 1, k));
                let j0 = choose|j0: int|
                    0 <= j0 < i - 1 && filter_pairs_speaking_at(d, pairs, name, i - 1)[k]
                        == #[trigger] pairs[j0] && char_speaks_in_extent(
                        d,
                        pairs[j0].1.start.page as int,
                        pairs[j0].1.start.line as int,
                        name,
                    );
                assert(0 <= j0 < i && m[k] == pairs[j0] && char_speaks_in_extent(
                    d,
                    pairs[j0].1.start.page as int,
                    pairs[j0].1.start.line as int,
                    name,
                ));
            } else {
                assert(m[k] == pairs[i - 1]);
            }
        }
        assert forall|j: int|
            0 <= j < i && char_speaks_in_extent(
                d,
                (#[trigger] pairs[j]).1.start.page as int,
                pairs[j].1.start.line as int,
                name,
            ) implies m.contains(pairs[j]) by {
            if j < i - 1 {
                assert(pre.contains(pairs[j]));
                let k = choose|k: int| 0 <= k < pre.len() && pre[k] == pairs[j];
                assert(m[k] == pairs[j]);
            } else {
                assert(m.last() == pairs[i - 1]);
            }
        }
    }
}

/// The entry names a pair of `input` in whose scene's extent the character
/// named `name` speaks.
pub open spec fn qualifying_input_pair(
    d: ScreenplayDocumentV,
    input: Seq<(SceneID, Scene)>,
    name: Seq<char>,
    sid: SceneID,
    sv: SceneV,
) -> bool {
    &&& scene_pair_present(input, sid, sv)
    &&& char_speaks_in_extent(d, sv.start.page as int, sv.start.line as int, name)
}

/// The scenes of `scenes_to_filter` in whose extent the character speaks:
/// one entry per qualifying identifier, in document order (start page,
/// then start line, identifier breaking ties); `None` when none qualifies.
pub fn filter_scenes_by_character_speaking(
    screenplay_document: &ScreenplayDocument,
    scenes_to_filter: Vec<(SceneID, Scene)>,
    character: &Character,
) -> (r: Option<Vec<(SceneID, Scene)>>)
    ensures
        match r {
            Some(v) => {
                &&& v@.len() > 0
                &&& (forall|k: int|
                    0 <= k < v@.len() ==> qualifying_input_pair(
                        screenplay_document@,
                        scenes_to_filter@,
                        character.name@,
                        (#[trigger] v@[k]).0,
                        v@[k].1@,
                    ))
                &&& (forall|k1: int, k2: int|
                    0 <= k1 < k2 < v@.len() ==> scene_order_lt(
                        scene_pairs_view(v@)[k1],
                        scene_pairs_view(v@)[k2],
                    ))
                &&& (forall|k1: int, k2: int|
                    0 <= k1 < k2 < v@.len() ==> (#[trigger] v@[k1]).0 != (#[trigger] v@[k2]).0)
            },
            None => true,
        },
        forall|j: int|
            0 <= j < scenes_to_filter@.len() && char_speaks_in_extent(
                screenplay_document@,
                (#[trigger] scenes_to_filter@[j]).1.start.page as int,
                scenes_to_filter@[j].1.start.line as int,
                character.name@,
            ) ==> (r matches Some(v) && contains_scene_id(v@, scenes_to_filter@[j].0)),
{
    let ghost d = screenplay_document@;
    let ghost name = character.name@;
    let ghost pairs = scene_pairs_view(scenes_to_filter@);
    let mut qualifying: Vec<(SceneID, Scene)> = Vec::new();
    let n = scenes_to_filter.len();
    let mut i: usize = 0;
    while i < n
        invariant
            i <= n,
            n == scenes_to_filter@.len(),
            d == screenplay_document@,
            name == character.name@,
            pairs == scene_pairs_view(scenes_to_filter@),
            pairs.len() == n,
            scene_pairs_view(qualifying@) == filter_pairs_speaking_at(d, pairs, name, i as int),
        decreases n - i,
    {
        proof {
            assert(pairs[i as int] == (scenes_to_filter@[i as int].0, scenes_to_filter@[i as int].1@));
        }
        let entry = &scenes_to_filter[i];
        if character_speaks_in_scene(
            screenplay_document,
            entry.1.start.page,
            entry.1.start.line,
            character,
        ) {
            qualifying.push((entry.0, clone_scene(&entry.1)));
            proof {
                assert(scene_pairs_view(qualifying@) =~= filter_pairs_speaking_at(
                    d,
                    pairs,
                    name,
                    i as int,
                ).push(pairs[i as int]));
            }
        } else {
            proof {
                assert(scene_pairs_view(qualifying@) =~= filter_pairs_speaking_at(
                    d,
                    pairs,
                    name,
                    i as int + 1,
                ));
            }
        }
        i += 1;
    }
    let ghost m = filter_pairs_speaking_at(d, pairs, name, n as int);
    proof {
        lemma_filter_pairs_speaking_elems(d, pairs, name, n as int);
    }
    // Bring the qualifying scenes into document order, one per identifier.
    let mut out: Vec<(SceneID, Scene)> = Vec::new();
    let nq = qualifying.len();
    let mut k: usize = 0;
    while k < nq
        invariant
            k <= nq,
            nq == qualifying@.len(),
            d == screenplay_document@,
            name == character.name@,
            scene_pairs_view(qualifying@) == m,
            forall|k0: int|
                0 <= k0 < out@.len() ==> scene_pair_present(
                    qualifying@,
                    (#[trigger] out@[k0]).0,
                    out@[k0].1@,
                ),
            forall|k0: int|
                0 <= k0 < k ==> contains_scene_id(out@, (#[trigger] qualifying@[k0]).0),
            forall|k1: int, k2: int|
                0 <= k1 < k2 < out@.len() ==> (#[trigger] out@[k1]).0 != (#[trigger] out@[k2]).0,
            forall|k1: int, k2: int|
                0 <= k1 < k2 < out@.len() ==> scene_order_lt(
                ((#[trigger] out@[k1]).0, out@[k1].1@),
                ((#[trigger] out@[k2]).0, out@[k2].1@),
            ),
        decreases nq - k,
    {
        let sid = qualifying[k].0;
        let ghost old_out = out@;
        let ghost new_sv = qualifying@[k as int].1@;
        proof {
            assert(scene_pairs_view(qualifying@)[k as int] == (qualifying@[k as int].0, new_sv));
        }
        if !scene_vec_contains(&out, sid) {
            let e_page = qualifying[k].1.start.page;
            let e_line = qualifying[k].1.start.line;
            let mo = out.len();
            let mut pos: usize = 0;
            let mut past = false;
            while pos < mo && !past
                invariant
                    pos <= mo,
                    mo == out@.len(),
                    e_page == new_sv.start.page,
                    e_line == new_sv.start.line,
                    k < nq,
                    nq == qualifying@.len(),
                    sid == qualifying@[k as int].0,
                    forall|k0: int|
                        0 <= k0 < pos ==> scene_order_lt(
                            ((#[trigger] out@[k0]).0, out@[k0].1@),
                            (sid, new_sv),
                        ),
                    past ==> pos < mo && !scene_order_lt(
                        (out@[pos as int].0, out@[pos as int].1@),
                        (sid, new_sv),
                    ),
                decreases mo - pos + (if past {
                    0int
                } else {
                    1int
                }),
            {
                let c_page = out[pos].1.start.page;
                let c_line = out[pos].1.start.line;
                let c_id = out[pos].0;
                if c_page < e_page || (c_page == e_page && (c_line < e_line || (c_line == e_line
                    && c_id.0 < sid.0))) {
                    pos += 1;
                } else {
                    past = true;
                }
            }
            proof {
                old_out.insert_ensures(pos as int, (sid, qualifying@[k as int].1));
            }
            out.insert(pos, (sid, clone_scene(&qualifying[k].1)));
            proof {
                assert(out@.len() == old_out.len() + 1);
                assert(out@[pos as int].0 == sid && out@[pos as int].1@ == new_sv);
                assert forall|k0: int| 0 <= k0 < out@.len() implies scene_pair_present(
                    qualifying@,
                    (#[trigger] out@[k0]).0,
                    out@[k0].1@,
                ) by {
                    if k0 < pos as int {
                        assert(out@[k0] == old_out[k0]);
                        assert(scene_pair_present(qualifying@, old_out[k0].0, old_out[k0].1@));
                    } else if k0 == pos as int {
                        assert(qualifying@[k as int].0 == sid);
                        assert(scene_pair_present(qualifying@, sid, new_sv));
                    } else {
                        assert(out@[k0] == old_out[k0 - 1]);
                        assert(scene_pair_present(
                            qualifying@,
                            old_out[k0 - 1].0,
                            old_out[k0 - 1].1@,
                        ));
                    }
                }
                assert forall|k0: int| 0 <= k0 < k as int + 1 implies contains_scene_id(
                    out@,
                    (#[trigger] qualifying@[k0]).0,
                ) by {
                    if k0 < k as int {
                        assert(contains_scene_id(old_out, qualifying@[k0].0));
                        let w = choose|w: int|
                            0 <= w < old_out.len() && (#[trigger] old_out[w]).0
                                == qualifying@[k0].0;
                        if w < pos as int {
                            assert(out@[w].0 == qualifying@[k0].0);
                        } else {
                            assert(out@[w + 1].0 == qualifying@[k0].0);
                        }
                    } else {
                        assert(out@[pos as int].0 == qualifying@[k0].0);
                    }
                }
                assert forall|k1: int, k2: int|
                    0 <= k1 < k2 < out@.len() implies (#[trigger] out@[k1]).0 != (
                #[trigger] out@[k2]).0 by {
                    if k1 < pos as int && k2 < pos as int {
                        assert(out@[k1] == old_out[k1]);
                        assert(out@[k2] == old_out[k2]);
                    } else if k1 < pos as int && k2 == pos as int {
                        assert(out@[k1] == old_out[k1]);
                        assert(!contains_scene_id(old_out, sid));
                    } else if k1 < pos as int && k2 > pos as int {
                        assert(out@[k1] == old_out[k1]);
                        assert(out@[k2] == old_out[k2 - 1]);
                    } else if k1 == pos as int {
                        assert(out@[k2] == old_out[k2 - 1]);
                        assert(!contains_scene_id(old_out, sid));
                    } else {
                        assert(out@[k1] == old_out[k1 - 1]);
                        assert(out@[k2] == old_out[k2 - 1]);
                    }
                }
                assert forall|k1: int, k2: int|
                    0 <= k1 < k2 < out@.len() implies scene_order_lt(
                    ((#[trigger] out@[k1]).0, out@[k1].1@),
                    ((#[trigger] out@[k2]).0, out@[k2].1@),
                ) by {
                    if k1 < pos as int && k2 < pos as int {
                        assert(out@[k1] == old_out[k1]);
                        assert(out@[k2] == old_out[k2]);
                        assert(scene_order_lt(
                            (old_out[k1].0, old_out[k1].1@),
                            (old_out[k2].0, old_out[k2].1@),
                        ));
                    } else if k1 < pos as int && k2 == pos as int {
                        assert(out@[k1] == old_out[k1]);
                        assert(scene_order_lt((old_out[k1].0, old_out[k1].1@), (sid, new_sv)));
                    } else if k1 == pos as int && k2 > pos as int {
                        assert(out@[k2] == old_out[k2 - 1]);
                        assert(past);
                        assert(!scene_order_lt(
                            (old_out[pos as int].0, old_out[pos as int].1@),
                            (sid, new_sv),
                        ));
                        assert(!contains_scene_id(old_out, sid));
                        assert(old_out[pos as int].0 != sid);
                        assert(scene_order_lt(
                            (sid, new_sv),
                            (old_out[pos as int].0, old_out[pos as int].1@),
                        ));
                        if k2 - 1 > pos as int {
                            assert(scene_order_lt(
                                (old_out[pos as int].0, old_out[pos as int].1@),
                                (old_out[k2 - 1].0, old_out[k2 - 1].1@),
                            ));
                        }
                    } else if k1 < pos as int && k2 > pos as int {
                        assert(out@[k1] == old_out[k1]);
                        assert(out@[k2] == old_out[k2 - 1]);
                        assert(scene_order_lt(
                            (old_out[k1].0, old_out[k1].1@),
                            (old_out[k2 - 1].0, old_out[k2 - 1].1@),
                        ));
                    } else {
                        assert(out@[k1] == old_out[k1 - 1]);
                        assert(out@[k2] == old_out[k2 - 1]);
                        assert(scene_order_lt(
                            (old_out[k1 - 1].0, old_out[k1 - 1].1@),
                            (old_out[k2 - 1].0, old_out[k2 - 1].1@),
                        ));
                    }
                }
            }
        } else {
            proof {
                assert(contains_scene_id(out@, qualifying@[k as int].0));
            }
        }
        k += 1;
    }
    proof {
        // Every surviving entry is a qualifying pair of the input.
        assert forall|k0: int| 0 <= k0 < out@.len() implies qualifying_input_pair(
            d,
            scenes_to_filter@,
            name,
            (#[trigger] out@[k0]).0,
            out@[k0].1@,
        ) by {
            assert(scene_pair_present(qualifying@, out@[k0].0, out@[k0].1@));
            let w = choose|w: int|
                0 <= w < qualifying@.len() && (#[trigger] qualifying@[w]).0 == out@[k0].0
                    && qualifying@[w].1@ == out@[k0].1@;
            assert(scene_pairs_view(qualifying@)[w] == (out@[k0].0, out@[k0].1@));
            assert(m[w] == (out@[k0].0, out@[k0].1@));
            assert(speaking_filter_elem_ok(d, pairs, name, n as int, w));
            let j0 = choose|j0: int|
                0 <= j0 < n as int && m[w] == #[trigger] pairs[j0] && char_speaks_in_extent(
                    d,
                    pairs[j0].1.start.page as int,
                    pairs[j0].1.start.line as int,
                    name,
                );
            assert(pairs[j0] == (scenes_to_filter@[j0].0, scenes_to_filter@[j0].1@));
            assert(scene_pair_present(scenes_to_filter@, out@[k0].0, out@[k0].1@));
        }
        // Every qualifying input identifier survives.
        assert forall|j: int|
            0 <= j < scenes_to_filter@.len() && char_speaks_in_extent(
                d,
                (#[trigger] scenes_to_filter@[j]).1.start.page as int,
                scenes_to_filter@[j].1.start.line as int,
                name,
            ) implies contains_scene_id(out@, scenes_to_filter@[j].0) by {
            assert(pairs[j] == (scenes_to_filter@[j].0, scenes_to_filter@[j].1@));
            assert(speaking_filter_complete(d, pairs, name, n as int));
            assert(m.contains(pairs[j]));
            let w = choose|w: int| 0 <= w < m.len() && m[w] == pairs[j];
            assert(scene_pairs_view(qualifying@)[w] == (qualifying@[w].0, qualifying@[w].1@));
            assert(qualifying@[w].0 == scenes_to_filter@[j].0);
            assert(contains_scene_id(out@, qualifying@[w].0));
        }
    }
    if out.len() == 0 {
        return None;
    }
    proof {
        assert forall|k1: int, k2: int|
            0 <= k1 < k2 < out@.len() implies scene_order_lt(
            scene_pairs_view(out@)[k1],
            scene_pairs_view(out@)[k2],
        ) by {
            assert(scene_pairs_view(out@)[k1] == (out@[k1].0, out@[k1].1@));
            assert(scene_pairs_view(out@)[k2] == (out@[k2].0, out@[k2].1@));
        }
    }
    Some(out)
}

/// Every scene of the document in whose extent the character speaks, in
/// document order; `None` when there is none.
pub fn get_all_scenes_with_character_speaking(
    screenplay_document: &ScreenplayDocument,
    character: &Character,
) -> (r: Option<Vec<(SceneID, Scene)>>)
    ensures
        match r {
            Some(v) => {
                &&& v@.len() > 0
                &&& (forall|k: int|
                    0 <= k < v@.len() ==> scene_pair_valid(
                        screenplay_document@,
                        #[trigger] scene_pairs_view(v@)[k],
                    ) && char_speaks_in_extent(
                        screenplay_document@,
                        scene_pairs_view(v@)[k].1.start.page as int,
                        scene_pairs_view(v@)[k].1.start.line as int,
                        character.name@,
                    ))
                &&& (forall|k1: int, k2: int|
                    0 <= k1 < k2 < v@.len() ==> scene_order_lt(
                        scene_pairs_view(v@)[k1],
                        scene_pairs_view(v@)[k2],
                    ))
            },
            None => forall|i: int|
                #![trigger screenplay_document@.scenes[i]]
                0 <= i < screenplay_document@.scenes.len() ==> !char_speaks_in_extent(
                    screenplay_document@,
                    screenplay_document@.scenes[i].start.page as int,
                    screenplay_document@.scenes[i].start.line as int,
                    character.name@,
                ),
        },
        forall|i: int|
            #![trigger screenplay_document@.scenes[i]]
            0 <= i < screenplay_document@.scenes.len() && char_speaks_in_extent(
                screenplay_document@,
                screenplay_document@.scenes[i].start.page as int,
                screenplay_document@.scenes[i].start.line as int,
                character.name@,
            ) ==> (r matches Some(v) && contains_scene_id(v@, SceneID(i as u64))),
{
    let ghost d = screenplay_document@;
    let ghost name = character.name@;
    let all_scenes_sorted = match get_all_scenes_ordered(screenplay_document) {
        Some(v) => v,
        None => {
            return None;
        },
    };
    let ns = screenplay_document.scenes.len();
    proof {
        assert(d.scenes.len() == ns as int);
    }
    let ghost ordered = all_scenes_sorted@;
    let r = filter_scenes_by_character_speaking(screenplay_document, all_scenes_sorted, character);
    proof {
        // Completeness: a speaking scene's pair sits in the ordered list,
        // so the filter keeps its identifier.
        assert forall|i: int|
            #![trigger d.scenes[i]]
            0 <= i < d.scenes.len() && char_speaks_in_extent(
                d,
                d.scenes[i].start.page as int,
                d.scenes[i].start.line as int,
                name,
            ) implies (r matches Some(v) && contains_scene_id(v@, SceneID(i as u64))) by {
            assert(scene_index_covered(ordered, i));
            let k = choose|k: int|
                0 <= k < ordered.len() && (#[trigger] ordered[k]).0 == SceneID(i as u64);
            assert(scene_pair_valid(d, scene_pairs_view(ordered)[k]));
            assert(scene_pairs_view(ordered)[k] == (ordered[k].0, ordered[k].1@));
            assert(i < ns as int);
            assert((SceneID(i as u64).0 as int) == i);
            assert(ordered[k].1@ == d.scenes[i]);
            assert(char_speaks_in_extent(
                d,
                ordered[k].1@.start.page as int,
                ordered[k].1@.start.line as int,
                name,
            ));
        }
        match &r {
            Some(v) => {
                // Soundness: each kept pair is an ordered pair, so a valid
                // one, and the character speaks in it.
                assert forall|k: int| 0 <= k < v@.len() implies scene_pair_valid(
                    d,
                    #[trigger] scene_pairs_view(v@)[k],
                ) && char_speaks_in_extent(
                    d,
                    scene_pairs_view(v@)[k].1.start.page as int,
                    scene_pairs_view(v@)[k].1.start.line as int,
                    name,
                ) by {
                    assert(qualifying_input_pair(d, ordered, name, v@[k].0, v@[k].1@));
                    let w = choose|w: int|
                        0 <= w < ordered.len() && (#[trigger] ordered[w]).0 == v@[k].0
                            && ordered[w].1@ == v@[k].1@;
                    assert(scene_pair_valid(d, scene_pairs_view(ordered)[w]));
                    assert(scene_pairs_view(ordered)[w] == (ordered[w].0, ordered[w].1@));
                    assert(scene_pairs_view(v@)[k] == (v@[k].0, v@[k].1@));
                }
            },
            None => {
                // Nothing spoke anywhere, or the completeness clause above
                // would have forced a result.
                assert forall|i: int|
                    #![trigger d.scenes[i]]
                    0 <= i < d.scenes.len() implies !char_speaks_in_extent(
                    d,
                    d.scenes[i].start.page as int,
                    d.scenes[i].start.line as int,
                    name,
                ) by {}
            },
        }
    }
    r
}

/// A character-cue line of the page spells `name`.
pub open spec fn char_cue_on_page(pg: PageV, name: Seq<char>) -> bool {
    exists|l: int|
        0 <= l < pg.lines.len() && (#[trigger] pg.lines[l]).line_type == Some(SPType::SP_CHARACTER)
            && is_line_spec(pg.lines[l], name)
}

fn char_cue_on_page_exec(page: &Page, character: &Character) -> (r: bool)
    ensures
        r == char_cue_on_page(page@, character.name@),
{
    let n = page.lines.len();
    let mut l: usize = 0;
    while l < n
        invariant
            l <= n,
            n == page.lines@.len(),
            forall|l2: int|
                0 <= l2 < l ==> !((#[trigger] page@.lines[l2]).line_type == Some(
                    SPType::SP_CHARACTER,
                ) && is_line_spec(page@.lines[l2], character.name@)),
        decreases n - l,
    {
        proof {
            assert(page@.lines[l as int] == page.lines@[l as int]@);
        }
        let line = &page.lines[l];
        if line.line_type == Some(SPType::SP_CHARACTER) {
            if character.is_line(line) {
                return true;
            }
        }
        l += 1;
    }
    false
}

/// The characters (in input order, among the first `i`) with a
/// character-cue line on the page.
pub open spec fn filter_chars_on_page_at(
    pg: PageV,
    characters: Seq<CharacterV>,
    i: int,
) -> Seq<CharacterV>
    decreases i,
{
    if i <= 0 {
        Seq::<CharacterV>::empty()
    } else {
        let pre = filter_chars_on_page_at(pg, characters, i - 1);
        if char_cue_on_page(pg, characters[i - 1].name) {
            pre.push(characters[i - 1])
        } else {
            pre
        }
    }
}

/// The characters among `characters_to_filter` with a character-cue line
/// on page `page_index`, in input order; `None` when the page does not
/// exist or none qualifies.
pub fn filter_characters_by_page_index(
    screenplay_document: &ScreenplayDocument,
    characters_to_filter: Vec<Character>,
    page_index: usize,
) -> (r: Option<Vec<Character>>)
    ensures
        (page_index as int) >= screenplay_document@.pages.len() ==> r is None,
        (page_index as int) < screenplay_document@.pages.len() ==> ({
            let m = filter_chars_on_page_at(
                screenplay_document@.pages[page_index as int],
                character_list_view(characters_to_filter@),
                characters_to_filter@.len() as int,
            );
            match r {
                Some(v) => character_list_view(v@) == m && m.len() > 0,
                None => m.len() == 0,
            }
        }),
{
    let ghost d = screenplay_document@;
    if page_index >= screenplay_document.pages.len() {
        return None;
    }
    proof {
        assert(d.pages[page_index as int] == screenplay_document.pages@[page_index as int]@);
    }
    let page = &screenplay_document.pages[page_index];
    let ghost chars_v = character_list_view(characters_to_filter@);
    let mut out: Vec<Character> = Vec::new();
    let n = characters_to_filter.len();
    let mut i: usize = 0;
    while i < n
        invariant
            i <= n,
            n == characters_to_filter@.len(),
            d == screenplay_document@,
            chars_v == character_list_view(characters_to_filter@),
            page@ == d.pages[page_index as int],
            character_list_view(out@) == filter_chars_on_page_at(
                d.pages[page_index as int],
                chars_v,
                i as int,
            ),
        decreases n - i,
    {
        proof {
            assert(chars_v[i as int] == characters_to_filter@[i as int]@);
        }
        if char_cue_on_page_exec(page, &characters_to_filter[i]) {
            out.push(clone_character(&characters_to_filter[i]));
            proof {
                assert(character_list_view(out@) =~= filter_chars_on_page_at(
                    d.pages[page_index as int],
                    chars_v,
                    i as int,
                ).push(chars_v[i as int]));
            }
        } else {
            proof {
                assert(character_list_view(out@) =~= filter_chars_on_page_at(
                    d.pages[page_index as int],
                    chars_v,
                    i as int + 1,
                ));
            }
        }
        i += 1;
    }
    if out.len() == 0 {
        return None;
    }
    Some(out)
}

/// The registered characters with a character-cue line on the page.
pub fn get_all_characters_on_page_by_index(
    screenplay_document: &ScreenplayDocument,
    page_index: usize,
) -> (r: Option<Vec<Character>>)
    ensures
        (page_index as int) >= screenplay_document@.pages.len() ==> r is None,
        (page_index as int) < screenplay_document@.pages.len() ==> ({
            let m = filter_chars_on_page_at(
                screenplay_document@.pages[page_index as int],
                character_list_view(screenplay_document.characters@),
                screenplay_document.characters@.len() as int,
            );
            match r {
                Some(v) => character_list_view(v@) == m && m.len() > 0,
                None => m.len() == 0,
            }
        }),
{
    let all_characters = clone_characters(&screenplay_document.characters);
    filter_characters_by_page_index(screenplay_document, all_characters, page_index)
}

/// A copy of a character list.
fn clone_characters(v: &Vec<Character>) -> (r: Vec<Character>)
    ensures
        character_list_view(r@) == character_list_view(v@),
        r@.len() == v@.len(),
{
    let mut out: Vec<Character> = Vec::new();
    let n = v.len();
    let mut i: usize = 0;
    while i < n
        invariant
            i <= n,
            n == v@.len(),
            out@.len() == i,
            forall|j: int| 0 <= j < i ==> (#[trigger] out@[j])@ == v@[j]@,
        decreases n - i,
    {
        out.push(clone_character(&v[i]));
        i += 1;
    }
    proof {
        assert(character_list_view(out@) =~= character_list_view(v@));
    }
    out
}

/// The character named `name` speaks in some scene whose location path
/// holds `loc`.
pub open spec fn char_speaks_at_location(
    d: ScreenplayDocumentV,
    loc: LocationID,
    name: Seq<char>,
) -> bool {
    exists|i: int|
        0 <= i < d.scenes.len() && (#[trigger] d.scenes[i]).story_locations.contains(loc)
            && char_speaks_in_extent(
            d,
            d.scenes[i].start.page as int,
            d.scenes[i].start.line as int,
            name,
        )
}

fn char_speaks_at_location_exec(
    screenplay_document: &ScreenplayDocument,
    location_id: &LocationID,
    character: &Character,
) -> (r: bool)
    ensures
        r == char_speaks_at_location(screenplay_document@, *location_id, character.name@),
{
    let ghost d = screenplay_document@;
    let n = screenplay_document.scenes.len();
    let mut i: usize = 0;
    while i < n
        invariant
            i <= n,
            n == screenplay_document.scenes@.len(),
            d == screenplay_document@,
            forall|j: int|
                0 <= j < i ==> !((#[trigger] d.scenes[j]).story_locations.contains(*location_id)
                    && char_speaks_in_extent(
                    d,
                    d.scenes[j].start.page as int,
                    d.scenes[j].start.line as int,
                    character.name@,
                )),
        decreases n - i,
    {
        proof {
            assert(d.scenes[i as int] == screenplay_document.scenes@[i as int]@);
        }
        let scene = &screenplay_document.scenes[i];
        if location_ids_contain(&scene.story_locations, *location_id) {
            if character_speaks_in_scene(
                screenplay_document,
                scene.start.page,
                scene.start.line,
                character,
            ) {
                return true;
            }
        }
        i += 1;
    }
    false
}

/// The characters (in input order, among the first `i`) speaking in some
/// scene set at the location.
pub open spec fn filter_chars_at_location_at(
    d: ScreenplayDocumentV,
    loc: LocationID,
    characters: Seq<CharacterV>,
    i: int,
) -> Seq<CharacterV>
    decreases i,
{
    if i <= 0 {
        Seq::<CharacterV>::empty()
    } else {
        let pre = filter_chars_at_location_at(d, loc, characters, i - 1);
        if char_speaks_at_location(d, loc, characters[i - 1].name) {
            pre.push(characters[i - 1])
        } else {
            pre
        }
    }
}

/// The characters among `characters_to_filter` that speak in a scene set
/// at the location, in input order; `None` when none does.
pub fn filter_characters_by_location(
    screenplay_document: &ScreenplayDocument,
    characters_to_filter: Vec<Character>,
    location_id: &LocationID,
) -> (r: Option<Vec<Character>>)
    ensures
        ({
            let m = filter_chars_at_location_at(
                screenplay_document@,
                *location_id,
                character_list_view(characters_to_filter@),
                characters_to_filter@.len() as int,
            );
            match r {
                Some(v) => character_list_view(v@) == m && m.len() > 0,
                None => m.len() == 0,
            }
        }),
{
    let ghost d = screenplay_document@;
    let ghost chars_v = character_list_view(characters_to_filter@);
    let mut out: Vec<Character> = Vec::new();
    let n = characters_to_filter.len();
    let mut i: usize = 0;
    while i < n
        invariant
            i <= n,
            n == characters_to_filter@.len(),
            d == screenplay_document@,
            chars_v == character_list_view(characters_to_filter@),
            character_list_view(out@) == filter_chars_at_location_at(
                d,
                *location_id,
                chars_v,
                i as int,
            ),
        decreases n - i,
    {
        proof {
            assert(chars_v[i as int] == characters_to_filter@[i as int]@);
        }
        if char_speaks_at_location_exec(
            screenplay_document,
            location_id,
            &characters_to_filter[i],
        ) {
            out.push(clone_character(&characters_to_filter[i]));
            proof {
                assert(character_list_view(out@) =~= filter_chars_at_location_at(
                    d,
                    *location_id,
                    chars_v,
                    i as int,
                ).push(chars_v[i as int]));
            }
        } else {
            proof {
                assert(character_list_view(out@) =~= filter_chars_at_location_at(
                    d,
                    *location_id,
                    chars_v,
                    i as int + 1,
                ));
            }
        }
        i += 1;
    }
    if out.len() == 0 {
        return None;
    }
    Some(out)
}

/// The registered characters that speak in a scene set at the location.
pub fn get_characters_for_location(
    screenplay_document: &ScreenplayDocument,
    location_id: &LocationID,
) -> (r: Option<Vec<Character>>)
    ensures
        ({
            let m = filter_chars_at_location_at(
                screenplay_document@,
                *location_id,
                character_list_view(screenplay_document.characters@),
                screenplay_document.characters@.len() as int,
            );
            match r {
                Some(v) => character_list_view(v@) == m && m.len() > 0,
                None => m.len() == 0,
            }
        }),
{
    let all_characters = clone_characters(&screenplay_document.characters);
    filter_characters_by_location(screenplay_document, all_characters, location_id)
}

/// The scene pair's location path meets the location list.
pub open spec fn pair_matches_locations(p: (SceneID, SceneV), locs: Seq<LocationID>) -> bool {
    exists|j: int| 0 <= j < locs.len() && p.1.story_locations.contains(#[trigger] locs[j])
}

/// The scene pairs (in input order, among the first `i`) whose location
/// path meets the location list.
pub open spec fn filter_pairs_by_locations_at(
    pairs: Seq<(SceneID, SceneV)>,
    locs: Seq<LocationID>,
    i: int,
) -> Seq<(SceneID, SceneV)>
    decreases i,
{
    if i <= 0 {
        Seq::<(SceneID, SceneV)>::empty()
    } else {
        let pre = filter_pairs_by_locations_at(pairs, locs, i - 1);
        if pair_matches_locations(pairs[i - 1], locs) {
            pre.push(pairs[i - 1])
        } else {
            pre
        }
    }
}

proof fn lemma_filter_pairs_locations_complete(
    pairs: Seq<(SceneID, SceneV)>,
    locs: Seq<LocationID>,
    i: int,
)
    requires
        0 <= i <= pairs.len(),
    ensures
        forall|j: int|
            0 <= j < i && pair_matches_locations(#[trigger] pairs[j], locs)
                ==> filter_pairs_by_locations_at(pairs, locs, i).contains(pairs[j]),
    decreases i,
{
    if i > 0 {
        lemma_filter_pairs_locations_complete(pairs, locs, i - 1);
        let pre = filter_pairs_by_locations_at(pairs, locs, i - 1);
        let m = filter_pairs_by_locations_at(pairs, locs, i);
        assert forall|j: int|
            0 <= j < i && pair_matches_locations(#[trigger] pairs[j], locs) implies m.contains(
            pairs[j],
        ) by {
            if j < i - 1 {
                assert(pre.contains(pairs[j]));
                let k = choose|k: int| 0 <= k < pre.len() && pre[k] == pairs[j];
                assert(m[k] == pairs[j]);
            } else {
                assert(m.last() == pairs[i - 1]);
            }
        }
    }
}

fn scene_matches_locations(scene: &Scene, locations: &Vec<LocationID>) -> (r: bool)
    ensures
        r == (exists|j: int|
            0 <= j < locations@.len() && scene@.story_locations.contains(#[trigger] locations@[j])),
{
    let n = locations.len();
    let mut j: usize = 0;
    while j < n
        invariant
            j <= n,
            n == locations@.len(),
            forall|k: int| 0 <= k < j ==> !scene@.story_locations.contains(#[trigger] locations@[k]),
        decreases n - j,
    {
        if location_ids_contain(&scene.story_locations, locations[j]) {
            return true;
        }
        j += 1;
    }
    false
}

/// The subset of `scenes_to_filter`, in input order, whose location path
/// meets `locations`; `None` when it is empty.
pub fn filter_scenes_by_locations(
    screenplay_document: &ScreenplayDocument,
    scenes_to_filter: Vec<(SceneID, Scene)>,
    locations: Vec<LocationID>,
) -> (r: Option<Vec<(SceneID, Scene)>>)
    ensures
        ({
            let m = filter_pairs_by_locations_at(
                scene_pairs_view(scenes_to_filter@),
                locations@,
                scenes_to_filter@.len() as int,
            );
            match r {
                Some(v) => scene_pairs_view(v@) == m && m.len() > 0,
                None => m.len() == 0,
            }
        }),
{
    let ghost pairs = scene_pairs_view(scenes_to_filter@);
    let mut out: Vec<(SceneID, Scene)> = Vec::new();
    let n = scenes_to_filter.len();
    let mut i: usize = 0;
    while i < n
        invariant
            i <= n,
            n == scenes_to_filter@.len(),
            pairs == scene_pairs_view(scenes_to_filter@),
            pairs.len() == n,
            scene_pairs_view(out@) == filter_pairs_by_locations_at(pairs, locations@, i as int),
        decreases n - i,
    {
        proof {
            assert(pairs[i as int] == (scenes_to_filter@[i as int].0, scenes_to_filter@[i as int].1@));
        }
        let entry = &scenes_to_filter[i];
        if scene_matches_locations(&entry.1, &locations) {
            out.push((entry.0, clone_scene(&entry.1)));
            proof {
                assert(scene_pairs_view(out@) =~= filter_pairs_by_locations_at(
                    pairs,
                    locations@,
                    i as int,
                ).push(pairs[i as int]));
            }
        } else {
            proof {
                assert(scene_pairs_view(out@) =~= filter_pairs_by_locations_at(
                    pairs,
                    locations@,
                    i as int + 1,
                ));
            }
        }
        i += 1;
    }
    if out.len() == 0 {
        return None;
    }
    Some(out)
}

// -------------------------------------------------------- scenes per page

/// The identifiers carried by the entries of `v`.
pub open spec fn pair_ids_contain(v: Seq<(SceneID, SceneV)>, sid: SceneID) -> bool {
    exists|k: int| 0 <= k < v.len() && (#[trigger] v[k]).0 == sid
}

/// The subset of `scenes_to_filter` (by identifier) that the page's
/// coordinate range yields: scenes starting on the page, plus the scene
/// active at its top. `None` when the page does not exist, has no lines,
/// the range finds nothing, or the filtered result is empty.
pub fn filter_scenes_by_page_index(
    screenplay_document: &ScreenplayDocument,
    scenes_to_filter: Vec<(SceneID, Scene)>,
    page_index: usize,
) -> (r: Option<Vec<(SceneID, Scene)>>)
    ensures
        (page_index as int) >= screenplay_document@.pages.len() ==> r is None,
        match r {
            Some(v) => {
                &&& v@.len() > 0
                &&& (forall|k: int|
                    0 <= k < v@.len() ==> ((#[trigger] v@[k]).0.0 as int)
                        < screenplay_document@.scenes.len() && (v@[k].1)@
                        == screenplay_document@.scenes[v@[k].0.0 as int] && contains_scene_id(
                        scenes_to_filter@,
                        v@[k].0,
                    ))
                &&& (forall|k1: int, k2: int|
                    0 <= k1 < k2 < v@.len() ==> (#[trigger] v@[k1]).0 != (#[trigger] v@[k2]).0)
            },
            None => true,
        },
        ({
            let d = screenplay_document@;
            &&& (d.wf() && (page_index as int) < d.pages.len() && d.pages[page_index as int].lines.len()
                > 0 ==> {
                // Every filtered scene starting on the page is reported.
                &&& (forall|i: int|
                    #![trigger d.scenes[i]]
                    0 <= i < d.scenes.len() && d.scenes[i].start.page == page_index
                        && contains_scene_id(scenes_to_filter@, SceneID(i as u64)) ==> (
                    r matches Some(v) && contains_scene_id(v@, SceneID(i as u64))))
                // So is the filtered scene active at the page top.
                &&& (scene_for_coordinate_spec(
                    d,
                    ScreenplayCoordinate { page: page_index, line: 0, element: None },
                ) matches Some(sid) ==> (contains_scene_id(scenes_to_filter@, sid) ==> (
                r matches Some(v) && contains_scene_id(v@, sid))))
                // The result comes in document order.
                &&& (r matches Some(v) ==> (forall|k1: int, k2: int|
                    0 <= k1 < k2 < v@.len() ==> coord_lt(
                        d.scenes[((#[trigger] v@[k1]).0).0 as int].start,
                        d.scenes[((#[trigger] v@[k2]).0).0 as int].start,
                    )))
            })
            // Every reported scene is active somewhere on the page.
            &&& ((page_index as int) < d.pages.len() ==> match r {
                Some(v) => forall|k: int|
                    0 <= k < v@.len() ==> active_in_range(
                        d,
                        ScreenplayCoordinate { page: page_index, line: 0, element: None },
                        ScreenplayCoordinate {
                            page: page_index,
                            line: (d.pages[page_index as int].lines.len() - 1) as usize,
                            element: None,
                        },
                        (#[trigger] v@[k]).0,
                    ),
                None => true,
            })
        }),
{
    let ghost d = screenplay_document@;
    if page_index >= screenplay_document.pages.len() {
        return None;
    }
    proof {
        assert(d.pages[page_index as int] == screenplay_document.pages@[page_index as int]@);
    }
    let nl = screenplay_document.pages[page_index].lines.len();
    if nl == 0 {
        return None;
    }
    let start = ScreenplayCoordinate { page: page_index, line: 0, element: None };
    let end = ScreenplayCoordinate { page: page_index, line: nl - 1, element: None };
    let ghost hyp_order = d.wf() && d.valid_coordinate(start) && d.valid_coordinate(end)
        && coord_le(start, end);
    let range_result = get_scenes_from_range(screenplay_document, &start, &end);
    let scenes_on_page = match range_result {
        Some(v) => v,
        None => {
            proof {
                if d.wf() && d.pages[page_index as int].lines.len() > 0 {
                    assert forall|i: int|
                        #![trigger d.scenes[i]]
                        0 <= i < d.scenes.len() && d.scenes[i].start.page == page_index
                            && contains_scene_id(scenes_to_filter@, SceneID(i as u64)) implies
                        false by {
                        assert(d.scene_wf(i));
                        assert(coord_le(start, d.scenes[i].start));
                        assert(coord_le(d.scenes[i].start, end));
                    }
                    if scene_for_coordinate_spec(d, start) is Some {
                        assert(false);
                    }
                }
            }
            return None;
        },
    };
    let mut filtered: Vec<(SceneID, Scene)> = Vec::new();
    let n = scenes_on_page.len();
    let mut k: usize = 0;
    while k < n
        invariant
            k <= n,
            n == scenes_on_page@.len(),
            d == screenplay_document@,
            forall|k0: int|
                0 <= k0 < scenes_on_page@.len() ==> ((#[trigger] scenes_on_page@[k0]).0.0 as int)
                    < d.scenes.len() && (scenes_on_page@[k0].1)@
                    == d.scenes[scenes_on_page@[k0].0.0 as int],
            forall|k1: int, k2: int|
                0 <= k1 < k2 < scenes_on_page@.len() ==> (#[trigger] scenes_on_page@[k1]).0 != (
                #[trigger] scenes_on_page@[k2]).0,
            forall|k0: int|
                0 <= k0 < scenes_on_page@.len() ==> active_in_range(
                    d,
                    start,
                    end,
                    (#[trigger] scenes_on_page@[k0]).0,
                ),
            forall|k0: int|
                0 <= k0 < filtered@.len() ==> ((#[trigger] filtered@[k0]).0.0 as int)
                    < d.scenes.len() && (filtered@[k0].1)@ == d.scenes[filtered@[k0].0.0 as int]
                    && contains_scene_id(scenes_to_filter@, filtered@[k0].0),
            forall|k1: int, k2: int|
                0 <= k1 < k2 < filtered@.len() ==> (#[trigger] filtered@[k1]).0 != (
                #[trigger] filtered@[k2]).0,
            forall|k0: int|
                0 <= k0 < k ==> (contains_scene_id(
                    scenes_to_filter@,
                    (#[trigger] scenes_on_page@[k0]).0,
                ) ==> contains_scene_id(filtered@, scenes_on_page@[k0].0)),
            forall|k0: int|
                0 <= k0 < filtered@.len() ==> active_in_range(
                    d,
                    start,
                    end,
                    (#[trigger] filtered@[k0]).0,
                ),
            forall|k0: int|
                0 <= k0 < filtered@.len() ==> exists|k1: int|
                    0 <= k1 < k && (#[trigger] filtered@[k0]).0 == (
                    #[trigger] scenes_on_page@[k1]).0,
            hyp_order ==> (forall|k1: int, k2: int|
                0 <= k1 < k2 < scenes_on_page@.len() ==> coord_lt(
                    d.scenes[((#[trigger] scenes_on_page@[k1]).0).0 as int].start,
                    d.scenes[((#[trigger] scenes_on_page@[k2]).0).0 as int].start,
                )),
            hyp_order ==> (forall|k1: int, k2: int|
                0 <= k1 < k2 < filtered@.len() ==> coord_lt(
                    d.scenes[((#[trigger] filtered@[k1]).0).0 as int].start,
                    d.scenes[((#[trigger] filtered@[k2]).0).0 as int].start,
                )),
        decreases n - k,
    {
        let ghost old_f = filtered@;
        let sid = scenes_on_page[k].0;
        if scene_vec_contains(&scenes_to_filter, sid) {
            if !scene_vec_contains(&filtered, sid) {
                filtered.push((sid, clone_scene(&scenes_on_page[k].1)));
                proof {
                    assert(filtered@[old_f.len() as int].0 == sid);
                    assert(active_in_range(d, start, end, (scenes_on_page@[k as int]).0));
                    assert forall|k0: int|
                        0 <= k0 < filtered@.len() implies active_in_range(
                        d,
                        start,
                        end,
                        (#[trigger] filtered@[k0]).0,
                    ) by {
                        if k0 < old_f.len() {
                            assert(filtered@[k0] == old_f[k0]);
                            assert(active_in_range(d, start, end, old_f[k0].0));
                        } else {
                            assert(filtered@[k0].0 == scenes_on_page@[k as int].0);
                        }
                    }
                    if hyp_order {
                        // Earlier entries came from earlier range positions,
                        // whose starts lie strictly before this scene's.
                        assert forall|k1: int, k2: int|
                            0 <= k1 < k2 < filtered@.len() implies coord_lt(
                            d.scenes[((#[trigger] filtered@[k1]).0).0 as int].start,
                            d.scenes[((#[trigger] filtered@[k2]).0).0 as int].start,
                        ) by {
                            if k2 < old_f.len() {
                                assert(filtered@[k1] == old_f[k1]);
                                assert(filtered@[k2] == old_f[k2]);
                            } else {
                                assert(filtered@[k1] == old_f[k1]);
                                let w = choose|w: int|
                                    0 <= w < k && (#[trigger] old_f[k1]).0 == (
                                    #[trigger] scenes_on_page@[w]).0;
                                assert(coord_lt(
                                    d.scenes[(scenes_on_page@[w].0).0 as int].start,
                                    d.scenes[(scenes_on_page@[k as int].0).0 as int].start,
                                ));
                                assert(filtered@[k2].0 == scenes_on_page@[k as int].0);
                            }
                        }
                    }
                }
            }
        }
        proof {
            assert forall|sid0: SceneID|
                contains_scene_id(old_f, sid0) implies contains_scene_id(filtered@, sid0) by {
                let w = choose|w: int| 0 <= w < old_f.len() && (#[trigger] old_f[w]).0 == sid0;
                assert(filtered@[w].0 == sid0);
            }
            assert forall|k0: int|
                0 <= k0 < filtered@.len() implies exists|k1: int|
                0 <= k1 < k + 1 && (#[trigger] filtered@[k0]).0 == (
                #[trigger] scenes_on_page@[k1]).0 by {
                if k0 < old_f.len() {
                    assert(filtered@[k0] == old_f[k0]);
                    let w = choose|w: int|
                        0 <= w < k && (#[trigger] old_f[k0]).0 == (#[trigger] scenes_on_page@[w]).0;
                    assert(filtered@[k0].0 == scenes_on_page@[w].0);
                } else {
                    assert(filtered@[k0].0 == scenes_on_page@[k as int].0);
                }
            }
        }
        k += 1;
    }
    proof {
        if d.wf() && (page_index as int) < d.pages.len() && d.pages[page_index as int].lines.len()
            > 0 {
            assert forall|i: int|
                #![trigger d.scenes[i]]
                0 <= i < d.scenes.len() && d.scenes[i].start.page == page_index
                    && contains_scene_id(scenes_to_filter@, SceneID(i as u64)) implies
                contains_scene_id(filtered@, SceneID(i as u64)) by {
                assert(d.scene_wf(i));
                assert(coord_le(start, d.scenes[i].start));
                assert(coord_le(d.scenes[i].start, end));
                assert(contains_scene_id(scenes_on_page@, SceneID(i as u64)));
                let w = choose|w: int|
                    0 <= w < scenes_on_page@.len() && (#[trigger] scenes_on_page@[w]).0 == SceneID(
                        i as u64,
                    );
                assert(contains_scene_id(filtered@, scenes_on_page@[w].0));
            }
            match scene_for_coordinate_spec(d, start) {
                Some(sid) => {
                    if contains_scene_id(scenes_to_filter@, sid) {
                        assert(contains_scene_id(scenes_on_page@, sid));
                        let w = choose|w: int|
                            0 <= w < scenes_on_page@.len() && (#[trigger] scenes_on_page@[w]).0
                                == sid;
                        assert(contains_scene_id(filtered@, scenes_on_page@[w].0));
                    }
                },
                None => {},
            }
        }
    }
    if filtered.len() == 0 {
        return None;
    }
    Some(filtered)
}

/// Every scene the page's coordinate range yields: scenes starting on the
/// page, plus the scene active at its top.
pub fn get_all_scenes_on_page_by_index(
    screenplay_document: &ScreenplayDocument,
    page_index: usize,
) -> (r: Option<Vec<(SceneID, Scene)>>)
    ensures
        (page_index as int) >= screenplay_document@.pages.len() ==> r is None,
        match r {
            Some(v) => {
                &&& v@.len() > 0
                &&& (forall|k: int|
                    0 <= k < v@.len() ==> ((#[trigger] v@[k]).0.0 as int)
                        < screenplay_document@.scenes.len() && (v@[k].1)@
                        == screenplay_document@.scenes[v@[k].0.0 as int])
                &&& (forall|k1: int, k2: int|
                    0 <= k1 < k2 < v@.len() ==> (#[trigger] v@[k1]).0 != (#[trigger] v@[k2]).0)
            },
            None => true,
        },
        ({
            let d = screenplay_document@;
            &&& (d.wf() && (page_index as int) < d.pages.len() && d.pages[page_index as int].lines.len()
                > 0 ==> {
                // Every scene starting on the page is reported.
                &&& (forall|i: int|
                    #![trigger d.scenes[i]]
                    0 <= i < d.scenes.len() && d.scenes[i].start.page == page_index ==> (
                    r matches Some(v) && contains_scene_id(v@, SceneID(i as u64))))
                // So is the scene active at the page top.
                &&& (scene_for_coordinate_spec(
                    d,
                    ScreenplayCoordinate { page: page_index, line: 0, element: None },
                ) matches Some(sid) ==> (r matches Some(v) && contains_scene_id(v@, sid)))
                // The result comes in document order.
                &&& (r matches Some(v) ==> (forall|k1: int, k2: int|
                    0 <= k1 < k2 < v@.len() ==> coord_lt(
                        d.scenes[((#[trigger] v@[k1]).0).0 as int].start,
                        d.scenes[((#[trigger] v@[k2]).0).0 as int].start,
                    )))
            })
            // Every reported scene is active somewhere on the page.
            &&& ((page_index as int) < d.pages.len() ==> match r {
                Some(v) => forall|k: int|
                    0 <= k < v@.len() ==> active_in_range(
                        d,
                        ScreenplayCoordinate { page: page_index, line: 0, element: None },
                        ScreenplayCoordinate {
                            page: page_index,
                            line: (d.pages[page_index as int].lines.len() - 1) as usize,
                            element: None,
                        },
                        (#[trigger] v@[k]).0,
                    ),
                None => true,
            })
        }),
{
    let ghost d = screenplay_document@;
    let all_scenes_ordered = match get_all_scenes_ordered(screenplay_document) {
        Some(v) => v,
        None => {
            if page_index >= screenplay_document.pages.len() {
                return None;
            }
            proof {
                if d.wf() {
                    assert forall|i: int|
                        #![trigger d.scenes[i]]
                        0 <= i < d.scenes.len() && d.scenes[i].start.page == page_index implies
                        false by {}
                    if (page_index as int) < d.pages.len() && d.pages[page_index as int].lines.len()
                        > 0 {
                        match scene_for_coordinate_spec(
                            d,
                            ScreenplayCoordinate { page: page_index, line: 0, element: None },
                        ) {
                            Some(sid) => {
                                lemma_scene_scan_start(d, page_index as int, 0);
                                assert(scene_for_coordinate_spec(
                                    d,
                                    ScreenplayCoordinate {
                                        page: page_index,
                                        line: 0,
                                        element: None,
                                    },
                                ) == scene_scan(d, page_index as int, 0));
                                assert(false);
                            },
                            None => {},
                        }
                    }
                }
            }
            return None;
        },
    };
    let ns = screenplay_document.scenes.len();
    proof {
        assert(d.scenes.len() == ns as int);
    }
    let ghost ordered = all_scenes_ordered@;
    let r = filter_scenes_by_page_index(screenplay_document, all_scenes_ordered, page_index);
    proof {
        if d.wf() && (page_index as int) < d.pages.len() && d.pages[page_index as int].lines.len()
            > 0 {
            assert forall|i: int|
                #![trigger d.scenes[i]]
                0 <= i < d.scenes.len() && d.scenes[i].start.page == page_index implies (
            r matches Some(v) && contains_scene_id(v@, SceneID(i as u64))) by {
                assert(scene_index_covered(ordered, i));
                let k = choose|k: int|
                    0 <= k < ordered.len() && (#[trigger] ordered[k]).0 == SceneID(i as u64);
                assert(contains_scene_id(ordered, SceneID(i as u64)));
            }
            match scene_for_coordinate_spec(
                d,
                ScreenplayCoordinate { page: page_index, line: 0, element: None },
            ) {
                Some(sid) => {
                    assert((sid.0 as int) < d.scenes.len()) by {
                        lemma_scene_scan_start(d, page_index as int, 0);
                        assert(scene_for_coordinate_spec(
                            d,
                            ScreenplayCoordinate { page: page_index, line: 0, element: None },
                        ) == scene_scan(d, page_index as int, 0));
                    }
                    assert(scene_index_covered(ordered, sid.0 as int));
                    let k = choose|k: int|
                        0 <= k < ordered.len() && (#[trigger] ordered[k]).0 == SceneID(
                            sid.0 as u64,
                        );
                    assert(SceneID(sid.0 as u64) == sid);
                    assert(contains_scene_id(ordered, sid));
                },
                None => {},
            }
        }
    }
    r
}

// -------------------------------------------------------------- line joins

/// The views of a coordinate-and-line list.
pub open spec fn line_pairs_view(v: Seq<(ScreenplayCoordinate, Line)>) -> Seq<(
    ScreenplayCoordinate,
    LineV,
)> {
    Seq::new(v.len(), |i: int| (v[i].0, v[i].1@))
}

/// The coordinate's scene is one of the identifiers of `ids`.
pub open spec fn coordinate_in_scene_ids(
    d: ScreenplayDocumentV,
    c: ScreenplayCoordinate,
    ids: Seq<(SceneID, SceneV)>,
) -> bool {
    scene_for_coordinate_spec(d, c) matches Some(sid) && pair_ids_contain(ids, sid)
}

/// The line pairs (in input order, among the first `i`) whose coordinate
/// resolves to one of the given scenes.
pub open spec fn filter_line_pairs_at(
    d: ScreenplayDocumentV,
    lines: Seq<(ScreenplayCoordinate, LineV)>,
    ids: Seq<(SceneID, SceneV)>,
    i: int,
) -> Seq<(ScreenplayCoordinate, LineV)>
    decreases i,
{
    if i <= 0 {
        Seq::<(ScreenplayCoordinate, LineV)>::empty()
    } else {
        let pre = filter_line_pairs_at(d, lines, ids, i - 1);
        if coordinate_in_scene_ids(d, lines[i - 1].0, ids) {
            pre.push(lines[i - 1])
        } else {
            pre
        }
    }
}

/// The lines of `lines` whose coordinate resolves to one of the scenes of
/// `scenes_filter`, in input order; `None` when the filter list is empty
/// or nothing qualifies.
pub fn filter_lines_by_multiple_scenes(
    screenplay_document: &ScreenplayDocument,
    lines: &Vec<(ScreenplayCoordinate, Line)>,
    scenes_filter: Vec<(SceneID, Scene)>,
) -> (r: Option<Vec<(ScreenplayCoordinate, Line)>>)
    ensures
        scenes_filter@.len() == 0 ==> r is None,
        scenes_filter@.len() > 0 ==> ({
            let m = filter_line_pairs_at(
                screenplay_document@,
                line_pairs_view(lines@),
                scene_pairs_view(scenes_filter@),
                lines@.len() as int,
            );
            match r {
                Some(v) => line_pairs_view(v@) == m && m.len() > 0,
                None => m.len() == 0,
            }
        }),
{
    let ghost d = screenplay_document@;
    let ghost lv = line_pairs_view(lines@);
    let ghost ids = scene_pairs_view(scenes_filter@);
    if scenes_filter.len() == 0 {
        return None;
    }
    let mut out: Vec<(ScreenplayCoordinate, Line)> = Vec::new();
    let n = lines.len();
    let mut i: usize = 0;
    while i < n
        invariant
            i <= n,
            n == lines@.len(),
            d == screenplay_document@,
            lv == line_pairs_view(lines@),
            lv.len() == n,
            ids == scene_pairs_view(scenes_filter@),
            ids.len() == scenes_filter@.len(),
            line_pairs_view(out@) == filter_line_pairs_at(d, lv, ids, i as int),
        decreases n - i,
    {
        proof {
            assert(lv[i as int] == (lines@[i as int].0, lines@[i as int].1@));
        }
        let coord = lines[i].0;
        let mut keep = false;
        match get_scene_for_screenplay_coordinate(screenplay_document, &coord) {
            Some((sid, _scn)) => {
                let nf = scenes_filter.len();
                let mut j: usize = 0;
                while j < nf
                    invariant
                        j <= nf,
                        nf == scenes_filter@.len(),
                        ids == scene_pairs_view(scenes_filter@),
                        ids.len() == nf,
                        !keep ==> (forall|j2: int| 0 <= j2 < j ==> (#[trigger] ids[j2]).0 != sid),
                        keep ==> pair_ids_contain(ids, sid),
                    decreases nf - j,
                {
                    proof {
                        assert(ids[j as int] == (scenes_filter@[j as int].0, scenes_filter@[j as int].1@));
                    }
                    if scenes_filter[j].0 == sid {
                        keep = true;
                        proof {
                            assert(ids[j as int].0 == sid);
                        }
                    }
                    j += 1;
                }
            },
            None => {},
        }
        if keep {
            out.push((coord, clone_line(&lines[i].1)));
            proof {
                assert(line_pairs_view(out@) =~= filter_line_pairs_at(d, lv, ids, i as int).push(
                    lv[i as int],
                ));
            }
        } else {
            proof {
                assert(line_pairs_view(out@) =~= filter_line_pairs_at(d, lv, ids, i as int + 1));
            }
        }
        i += 1;
    }
    if out.len() == 0 {
        return None;
    }
    Some(out)
}

/// The coordinate's scene exists and its location path meets `locs`.
pub open spec fn coordinate_at_locations(
    d: ScreenplayDocumentV,
    c: ScreenplayCoordinate,
    locs: Seq<LocationID>,
) -> bool {
    scene_for_coordinate_spec(d, c) matches Some(sid) && (sid.0 as int) < d.scenes.len()
        && pair_matches_locations((sid, d.scenes[sid.0 as int]), locs)
}

/// The line pairs (in input order, among the first `i`) whose coordinate's
/// scene is set at one of the locations.
pub open spec fn filter_line_pairs_by_locations_at(
    d: ScreenplayDocumentV,
    lines: Seq<(ScreenplayCoordinate, LineV)>,
    locs: Seq<LocationID>,
    i: int,
) -> Seq<(ScreenplayCoordinate, LineV)>
    decreases i,
{
    if i <= 0 {
        Seq::<(ScreenplayCoordinate, LineV)>::empty()
    } else {
        let pre = filter_line_pairs_by_locations_at(d, lines, locs, i - 1);
        if coordinate_at_locations(d, lines[i - 1].0, locs) {
            pre.push(lines[i - 1])
        } else {
            pre
        }
    }
}

/// The lines of `lines` whose coordinate's scene is set at one of the
/// locations, in input order; `None` when nothing qualifies.
pub fn filter_lines_by_multiple_locations(
    screenplay_doc: &ScreenplayDocument,
    lines: &Vec<(ScreenplayCoordinate, Line)>,
    locations_filter: Vec<LocationID>,
) -> (r: Option<Vec<(ScreenplayCoordinate, Line)>>)
    ensures
        ({
            let m = filter_line_pairs_by_locations_at(
                screenplay_doc@,
                line_pairs_view(lines@),
                locations_filter@,
                lines@.len() as int,
            );
            match r {
                Some(v) => line_pairs_view(v@) == m && m.len() > 0,
                None => m.len() == 0,
            }
        }),
{
    let ghost d = screenplay_doc@;
    let ghost lv = line_pairs_view(lines@);
    let mut out: Vec<(ScreenplayCoordinate, Line)> = Vec::new();
    let n = lines.len();
    let mut i: usize = 0;
    while i < n
        invariant
            i <= n,
            n == lines@.len(),
            d == screenplay_doc@,
            lv == line_pairs_view(lines@),
            lv.len() == n,
            line_pairs_view(out@) == filter_line_pairs_by_locations_at(
                d,
                lv,
                locations_filter@,
                i as int,
            ),
        decreases n - i,
    {
        proof {
            assert(lv[i as int] == (lines@[i as int].0, lines@[i as int].1@));
        }
        let coord = lines[i].0;
        let mut keep = false;
        match get_scene_for_screenplay_coordinate(screenplay_doc, &coord) {
            Some((sid, scn)) => {
                if scene_matches_locations(scn, &locations_filter) {
                    keep = true;
                    proof {
                        assert(coordinate_at_locations(d, coord, locations_filter@));
                    }
                }
            },
            None => {},
        }
        if keep {
            out.push((coord, clone_line(&lines[i].1)));
            proof {
                assert(line_pairs_view(out@) =~= filter_line_pairs_by_locations_at(
                    d,
                    lv,
                    locations_filter@,
                    i as int,
                ).push(lv[i as int]));
            }
        } else {
            proof {
                assert(line_pairs_view(out@) =~= filter_line_pairs_by_locations_at(
                    d,
                    lv,
                    locations_filter@,
                    i as int + 1,
                ));
            }
        }
        i += 1;
    }
    if out.len() == 0 {
        return None;
    }
    Some(out)
}

// ----------------------------------------------------------- dialogue scan

/// State of the forward dialogue scan: whether the character's cue is the
/// most recent one, and the dialogue lines collected so far.
#[verifier::ext_equal]
pub struct DialogueScan {
    pub speaking: bool,
    pub found: Seq<(ScreenplayCoordinate, LineV)>,
}

/// One line of the forward scan: a character cue opens the speech when it
/// spells the name and closes it otherwise; dialogue while the speech is
/// open is collected; parenthetical and extension lines leave it open; any
/// other line type closes it.
pub open spec fn dialogue_line_step(
    st: DialogueScan,
    ln: LineV,
    p: int,
    l: int,
    name: Seq<char>,
) -> DialogueScan {
    if ln.line_type == Some(SPType::SP_CHARACTER) || ln.line_type == Some(
        SPType::SP_DUAL_CHARACTERS,
    ) {
        DialogueScan { speaking: is_line_spec(ln, name), ..st }
    } else if ln.line_type == Some(SPType::SP_DIALOGUE) || ln.line_type == Some(
        SPType::SP_DUAL_DIALOGUES,
    ) {
        if st.speaking {
            DialogueScan {
                found: st.found.push(
                    (
                        ScreenplayCoordinate { page: p as usize, line: l as usize, element: None },
                        ln,
                    ),
                ),
                ..st
            }
        } else {
            st
        }
    } else if ln.line_type == Some(SPType::SP_PARENTHETICAL) || ln.line_type == Some(
        SPType::SP_CHARACTER_EXTENSION,
    ) {
        st
    } else {
        DialogueScan { speaking: false, ..st }
    }
}

/// The scan state after the pages before `p` and the first `l` lines of
/// page `p`.
pub open spec fn dialogue_scan_at(
    d: ScreenplayDocumentV,
    name: Seq<char>,
    p: int,
    l: int,
) -> DialogueScan
    decreases p, l,
{
    if p <= 0 && l <= 0 {
        DialogueScan { speaking: false, found: Seq::<(ScreenplayCoordinate, LineV)>::empty() }
    } else if l <= 0 {
        dialogue_scan_at(d, name, p - 1, d.pages[p - 1].lines.len() as int)
    } else {
        dialogue_line_step(
            dialogue_scan_at(d, name, p, l - 1),
            d.pages[p].lines[l - 1],
            p,
            l - 1,
            name,
        )
    }
}

/// Every dialogue line spoken by the character: the dialogue lines that
/// follow its cue with nothing but dialogue, parenthetical or extension
/// lines in between, with their coordinates, in document order. `None`
/// when there is none.
pub fn get_all_lines_of_dialogue_for_character(
    screenplay_document: &ScreenplayDocument,
    character: &Character,
) -> (r: Option<Vec<(ScreenplayCoordinate, Line)>>)
    ensures
        ({
            let fin = dialogue_scan_at(
                screenplay_document@,
                character.name@,
                screenplay_document@.pages.len() as int,
                0,
            );
            match r {
                Some(v) => line_pairs_view(v@) == fin.found && fin.found.len() > 0,
                None => fin.found.len() == 0,
            }
        }),
{
    let ghost d = screenplay_document@;
    let ghost name = character.name@;
    let mut out: Vec<(ScreenplayCoordinate, Line)> = Vec::new();
    let mut speaking = false;
    let np = screenplay_document.pages.len();
    let mut p: usize = 0;
    while p < np
        invariant
            p <= np,
            np == screenplay_document.pages@.len(),
            d == screenplay_document@,
            d.pages.len() == np,
            name == character.name@,
            speaking == dialogue_scan_at(d, name, p as int, 0).speaking,
            line_pairs_view(out@) == dialogue_scan_at(d, name, p as int, 0).found,
        decreases np - p,
    {
        proof {
            assert(d.pages[p as int] == screenplay_document.pages@[p as int]@);
        }
        let nl = screenplay_document.pages[p].lines.len();
        let mut l: usize = 0;
        while l < nl
            invariant
                l <= nl,
                (p as int) < d.pages.len(),
                d == screenplay_document@,
                name == character.name@,
                nl == d.pages[p as int].lines.len(),
                speaking == dialogue_scan_at(d, name, p as int, l as int).speaking,
                line_pairs_view(out@) == dialogue_scan_at(d, name, p as int, l as int).found,
            decreases nl - l,
        {
            proof {
                assert(d.pages[p as int].lines[l as int]
                    == screenplay_document.pages@[p as int].lines@[l as int]@);
            }
            let ghost st = dialogue_scan_at(d, name, p as int, l as int);
            let ghost ln = d.pages[p as int].lines[l as int];
            let line = &screenplay_document.pages[p].lines[l];
            let lt = line.line_type;
            if lt == Some(SPType::SP_CHARACTER) || lt == Some(SPType::SP_DUAL_CHARACTERS) {
                speaking = character.is_line(line);
            } else if lt == Some(SPType::SP_DIALOGUE) || lt == Some(SPType::SP_DUAL_DIALOGUES) {
                if speaking {
                    let coord = ScreenplayCoordinate { page: p, line: l, element: None };
                    out.push((coord, clone_line(line)));
                    proof {
                        assert(line_pairs_view(out@) =~= st.found.push((coord, ln)));
                    }
                }
            } else if lt == Some(SPType::SP_PARENTHETICAL) || lt == Some(
                SPType::SP_CHARACTER_EXTENSION,
            ) {
            } else {
                speaking = false;
            }
            l += 1;
            proof {
                assert(dialogue_scan_at(d, name, p as int, l as int) == dialogue_line_step(
                    st,
                    ln,
                    p as int,
                    l - 1,
                    name,
                ));
                assert(line_pairs_view(out@) == dialogue_scan_at(
                    d,
                    name,
                    p as int,
                    l as int,
                ).found);
            }
        }
        p += 1;
        proof {
            assert(dialogue_scan_at(d, name, p as int, 0) == dialogue_scan_at(
                d,
                name,
                p - 1,
                d.pages[p - 1].lines.len() as int,
            ));
        }
    }
    if out.len() == 0 {
        return None;
    }
    Some(out)
}

// -------------------------------------------------------- location reports

/// The identifiers of every location node, in arena order.
pub open spec fn all_location_ids(n: int) -> Seq<LocationID> {
    Seq::new(n as nat, |i: int| LocationID(i as u64))
}

/// The identifiers (in input order, among the first `i`) of locations
/// where the character named `name` speaks.
pub open spec fn filter_location_ids_speaking_at(
    d: ScreenplayDocumentV,
    ids: Seq<LocationID>,
    name: Seq<char>,
    i: int,
) -> Seq<LocationID>
    decreases i,
{
    if i <= 0 {
        Seq::<LocationID>::empty()
    } else {
        let pre = filter_location_ids_speaking_at(d, ids, name, i - 1);
        if char_speaks_at_location(d, ids[i - 1], name) {
            pre.push(ids[i - 1])
        } else {
            pre
        }
    }
}

/// The locations among `locations_to_filter` where the character speaks in
/// some scene, in input order and without repeats; `None` when there is
/// none.
pub fn filter_locations_by_character_speaking(
    screenplay_document: &ScreenplayDocument,
    locations_to_filter: Vec<LocationID>,
    character: &Character,
) -> (r: Option<Vec<LocationID>>)
    ensures
        ({
            let m = filter_location_ids_speaking_at(
                screenplay_document@,
                locations_to_filter@,
                character.name@,
                locations_to_filter@.len() as int,
            );
            match r {
                Some(v) => {
                    &&& v@ == dedup_ids_at(m, m.len() as int)
                    &&& v@.len() > 0
                    &&& (forall|k1: int, k2: int|
                        0 <= k1 < k2 < v@.len() ==> (#[trigger] v@[k1]) != (#[trigger] v@[k2]))
                    &&& (forall|j: int| 0 <= j < m.len() ==> v@.contains(#[trigger] m[j]))
                    &&& (forall|k: int| 0 <= k < v@.len() ==> m.contains(#[trigger] v@[k]))
                },
                None => m.len() == 0,
            }
        }),
{
    let ghost d = screenplay_document@;
    let ghost ids = locations_to_filter@;
    let ghost name = character.name@;
    let mut out: Vec<LocationID> = Vec::new();
    let n = locations_to_filter.len();
    let mut i: usize = 0;
    while i < n
        invariant
            i <= n,
            n == locations_to_filter@.len(),
            d == screenplay_document@,
            ids == locations_to_filter@,
            name == character.name@,
            ({
                let fs = filter_location_ids_speaking_at(d, ids, name, i as int);
                &&& out@ == dedup_ids_at(fs, fs.len() as int)
                &&& (forall|j: int| 0 <= j < fs.len() ==> out@.contains(#[trigger] fs[j]))
                &&& (forall|k: int| 0 <= k < out@.len() ==> fs.contains(#[trigger] out@[k]))
            }),
            forall|k1: int, k2: int|
                0 <= k1 < k2 < out@.len() ==> (#[trigger] out@[k1]) != (#[trigger] out@[k2]),
        decreases n - i,
    {
        let ghost fs = filter_location_ids_speaking_at(d, ids, name, i as int);
        let ghost old_out = out@;
        if char_speaks_at_location_exec(
            screenplay_document,
            &locations_to_filter[i],
            character,
        ) {
            let id = locations_to_filter[i];
            let ghost fs2 = filter_location_ids_speaking_at(d, ids, name, i as int + 1);
            proof {
                assert(fs2 == fs.push(id));
                lemma_dedup_ids_prefix(fs2, fs, fs.len() as int);
                assert(dedup_ids_at(fs2, fs2.len() as int) == if dedup_ids_at(
                    fs,
                    fs.len() as int,
                ).contains(id) {
                    dedup_ids_at(fs, fs.len() as int)
                } else {
                    dedup_ids_at(fs, fs.len() as int).push(id)
                });
            }
            if !location_ids_contain(&out, id) {
                out.push(id);
                proof {
                    assert(out@[old_out.len() as int] == id);
                }
            }
            proof {
                assert forall|id0: LocationID| old_out.contains(id0) implies out@.contains(
                    id0,
                ) by {
                    let w = choose|w: int| 0 <= w < old_out.len() && old_out[w] == id0;
                    assert(out@[w] == id0);
                }
                assert(out@.contains(id));
                assert forall|j: int| 0 <= j < fs2.len() implies out@.contains(
                    #[trigger] fs2[j],
                ) by {
                    if j < fs.len() {
                        assert(fs2[j] == fs[j]);
                        assert(old_out.contains(fs[j]));
                    } else {
                        assert(fs2[j] == id);
                    }
                }
                assert forall|k: int| 0 <= k < out@.len() implies fs2.contains(
                    #[trigger] out@[k],
                ) by {
                    if k < old_out.len() {
                        assert(out@[k] == old_out[k]);
                        assert(fs.contains(old_out[k]));
                        let w = choose|w: int| 0 <= w < fs.len() && fs[w] == old_out[k];
                        assert(fs2[w] == old_out[k]);
                    } else {
                        assert(out@[k] == id);
                        assert(fs2.last() == id);
                    }
                }
            }
        }
        i += 1;
    }
    if out.len() == 0 {
        proof {
            let m = filter_location_ids_speaking_at(d, ids, name, n as int);
            if m.len() > 0 {
                assert(out@.contains(m[0]));
                assert(false);
            }
        }
        return None;
    }
    Some(out)
}

/// Every location where the character speaks in some scene, in arena
/// order and without repeats; `None` when there is none.
pub fn get_all_locations_with_character_speaking(
    screenplay_document: &ScreenplayDocument,
    character: &Character,
) -> (r: Option<Vec<LocationID>>)
    ensures
        ({
            let n = screenplay_document@.locations.len() as int;
            let m = filter_location_ids_speaking_at(
                screenplay_document@,
                all_location_ids(n),
                character.name@,
                n,
            );
            match r {
                Some(v) => {
                    &&& v@ == dedup_ids_at(m, m.len() as int)
                    &&& v@.len() > 0
                    &&& (forall|k1: int, k2: int|
                        0 <= k1 < k2 < v@.len() ==> (#[trigger] v@[k1]) != (#[trigger] v@[k2]))
                    &&& (forall|j: int| 0 <= j < m.len() ==> v@.contains(#[trigger] m[j]))
                    &&& (forall|k: int| 0 <= k < v@.len() ==> m.contains(#[trigger] v@[k]))
                },
                None => m.len() == 0,
            }
        }),
{
    let nl = screenplay_document.locations.len();
    let mut all_ids: Vec<LocationID> = Vec::new();
    let mut i: usize = 0;
    while i < nl
        invariant
            i <= nl,
            all_ids@.len() == i,
            forall|j: int| 0 <= j < i ==> all_ids@[j] == LocationID(j as u64),
        decreases nl - i,
    {
        all_ids.push(LocationID(i as u64));
        i += 1;
    }
    proof {
        assert(all_ids@ =~= all_location_ids(screenplay_document@.locations.len() as int));
    }
    filter_locations_by_character_speaking(screenplay_document, all_ids, character)
}

/// The location is named by some scene the page's range yields: a scene
/// starting on the page or active at its top.
pub open spec fn location_on_page_pred(d: ScreenplayDocumentV, loc: LocationID, page: int) -> bool {
    exists|i: int|
        0 <= i < d.scenes.len() && (#[trigger] d.scenes[i]).story_locations.contains(loc) && (
        d.scenes[i].start.page as int == page || scene_for_coordinate_spec(
            d,
            ScreenplayCoordinate { page: page as usize, line: 0, element: None },
        ) == Some(SceneID(i as u64)))
}

fn location_on_page_exec(
    screenplay_document: &ScreenplayDocument,
    loc: &LocationID,
    page: usize,
) -> (r: bool)
    ensures
        r == location_on_page_pred(screenplay_document@, *loc, page as int),
{
    let ghost d = screenplay_document@;
    let coord = ScreenplayCoordinate { page, line: 0, element: None };
    let active = get_scene_for_screenplay_coordinate(screenplay_document, &coord);
    let active_id: Option<SceneID> = match active {
        Some((sid, _)) => Some(sid),
        None => None,
    };
    let ns = screenplay_document.scenes.len();
    let mut i: usize = 0;
    while i < ns
        invariant
            i <= ns,
            ns == screenplay_document.scenes@.len(),
            d == screenplay_document@,
            active_id == scene_for_coordinate_spec(
                d,
                ScreenplayCoordinate { page, line: 0, element: None },
            ),
            forall|j: int|
                0 <= j < i ==> !((#[trigger] d.scenes[j]).story_locations.contains(*loc) && (
                d.scenes[j].start.page as int == page as int || scene_for_coordinate_spec(
                    d,
                    ScreenplayCoordinate { page, line: 0, element: None },
                ) == Some(SceneID(j as u64)))),
        decreases ns - i,
    {
        proof {
            assert(d.scenes[i as int] == screenplay_document.scenes@[i as int]@);
        }
        let scene = &screenplay_document.scenes[i];
        if location_ids_contain(&scene.story_locations, *loc) {
            if scene.start.page == page {
                return true;
            }
            match active_id {
                Some(sid) => {
                    if sid.0 == i as u64 {
                        return true;
                    }
                },
                None => {},
            }
        }
        i += 1;
    }
    false
}

/// The identifiers (in input order, among the first `i`) of locations
/// named by scenes the page yields.
pub open spec fn filter_location_ids_on_page_at(
    d: ScreenplayDocumentV,
    ids: Seq<LocationID>,
    page: int,
    i: int,
) -> Seq<LocationID>
    decreases i,
{
    if i <= 0 {
        Seq::<LocationID>::empty()
    } else {
        let pre = filter_location_ids_on_page_at(d, ids, page, i - 1);
        if location_on_page_pred(d, ids[i - 1], page) {
            pre.push(ids[i - 1])
        } else {
            pre
        }
    }
}

/// The locations among `locations` named by scenes the page yields, in
/// input order; `None` when the page does not exist or none qualifies.
pub fn filter_locations_by_page_idx(
    screenplay_document: &ScreenplayDocument,
    locations: Vec<LocationID>,
    page: usize,
) -> (r: Option<Vec<LocationID>>)
    ensures
        (page as int) >= screenplay_document@.pages.len() ==> r is None,
        (page as int) < screenplay_document@.pages.len() ==> ({
            let m = filter_location_ids_on_page_at(
                screenplay_document@,
                locations@,
                page as int,
                locations@.len() as int,
            );
            match r {
                Some(v) => v@ == m && m.len() > 0,
                None => m.len() == 0,
            }
        }),
{
    let ghost d = screenplay_document@;
    if page >= screenplay_document.pages.len() {
        return None;
    }
    let mut out: Vec<LocationID> = Vec::new();
    let n = locations.len();
    let mut i: usize = 0;
    while i < n
        invariant
            i <= n,
            n == locations@.len(),
            d == screenplay_document@,
            out@ == filter_location_ids_on_page_at(d, locations@, page as int, i as int),
        decreases n - i,
    {
        if location_on_page_exec(screenplay_document, &locations[i], page) {
            out.push(locations[i]);
        }
        i += 1;
    }
    if out.len() == 0 {
        return None;
    }
    Some(out)
}

/// Every location named by scenes the page yields, in arena order; `None`
/// when the page does not exist or none qualifies.
pub fn get_all_locations_on_page_by_index(
    screenplay_document: &ScreenplayDocument,
    page: usize,
) -> (r: Option<Vec<LocationID>>)
    ensures
        (page as int) >= screenplay_document@.pages.len() ==> r is None,
        (page as int) < screenplay_document@.pages.len() ==> ({
            let n = screenplay_document@.locations.len() as int;
            let m = filter_location_ids_on_page_at(
                screenplay_document@,
                all_location_ids(n),
                page as int,
                n,
            );
            match r {
                Some(v) => v@ == m && m.len() > 0,
                None => m.len() == 0,
            }
        }),
{
    let nl = screenplay_document.locations.len();
    let mut all_ids: Vec<LocationID> = Vec::new();
    let mut i: usize = 0;
    while i < nl
        invariant
            i <= nl,
            all_ids@.len() == i,
            forall|j: int| 0 <= j < i ==> all_ids@[j] == LocationID(j as u64),
        decreases nl - i,
    {
        all_ids.push(LocationID(i as u64));
        i += 1;
    }
    proof {
        assert(all_ids@ =~= all_location_ids(screenplay_document@.locations.len() as int));
    }
    filter_locations_by_page_idx(screenplay_document, all_ids, page)
}

// ------------------------------------------------------------ page reports

/// The views of an index-and-page list.
pub open spec fn page_pairs_view(v: Seq<(usize, Page)>) -> Seq<(int, PageV)> {
    Seq::new(v.len(), |i: int| (v[i].0 as int, v[i].1@))
}

/// Every entry names an existing page and carries its value.
pub open spec fn page_pairs_valid(d: ScreenplayDocumentV, v: Seq<(usize, Page)>) -> bool {
    forall|k: int|
        0 <= k < v.len() ==> ((#[trigger] v[k]).0 as int) < d.pages.len() && (v[k].1)@
            == d.pages[v[k].0 as int]
}

/// No page index repeats.
pub open spec fn page_indices_distinct(v: Seq<(usize, Page)>) -> bool {
    forall|k1: int, k2: int| 0 <= k1 < k2 < v.len() ==> (#[trigger] v[k1]).0 != (#[trigger] v[k2]).0
}

/// Some line of the page spells `name`.
pub open spec fn char_on_page(pg: PageV, name: Seq<char>) -> bool {
    exists|l: int| 0 <= l < pg.lines.len() && is_line_spec(#[trigger] pg.lines[l], name)
}

fn char_on_page_exec(page: &Page, character: &Character) -> (r: bool)
    ensures
        r == char_on_page(page@, character.name@),
{
    let n = page.lines.len();
    let mut l: usize = 0;
    while l < n
        invariant
            l <= n,
            n == page.lines@.len(),
            forall|l2: int| 0 <= l2 < l ==> !is_line_spec(#[trigger] page@.lines[l2], character.name@),
        decreases n - l,
    {
        proof {
            assert(page@.lines[l as int] == page.lines@[l as int]@);
        }
        if character.is_line(&page.lines[l]) {
            return true;
        }
        l += 1;
    }
    false
}

/// The pages among positions `lo .. lo + i` that exist and on which the
/// character's name is spelled, with their indices, in order.
pub open spec fn span_char_pages(
    d: ScreenplayDocumentV,
    name: Seq<char>,
    lo: int,
    i: int,
) -> Seq<(int, PageV)>
    decreases i,
{
    if i <= 0 {
        Seq::<(int, PageV)>::empty()
    } else {
        let pre = span_char_pages(d, name, lo, i - 1);
        let idx = lo + i - 1;
        if 0 <= idx < d.pages.len() && char_on_page(d.pages[idx], name) {
            pre.push((idx, d.pages[idx]))
        } else {
            pre
        }
    }
}

/// The pages among positions `lo .. lo + i` that exist and on which any of
/// the characters' names is spelled.
pub open spec fn span_chars_pages(
    d: ScreenplayDocumentV,
    chars: Seq<CharacterV>,
    lo: int,
    i: int,
) -> Seq<(int, PageV)>
    decreases i,
{
    if i <= 0 {
        Seq::<(int, PageV)>::empty()
    } else {
        let pre = span_chars_pages(d, chars, lo, i - 1);
        let idx = lo + i - 1;
        if 0 <= idx < d.pages.len() && chars_any_on_page(d.pages[idx], chars) {
            pre.push((idx, d.pages[idx]))
        } else {
            pre
        }
    }
}

/// The pages among positions `lo .. lo + i` that exist, with their
/// indices, in order.
pub open spec fn span_all_pages(d: ScreenplayDocumentV, lo: int, i: int) -> Seq<(int, PageV)>
    decreases i,
{
    if i <= 0 {
        Seq::<(int, PageV)>::empty()
    } else {
        let pre = span_all_pages(d, lo, i - 1);
        let idx = lo + i - 1;
        if 0 <= idx < d.pages.len() {
            pre.push((idx, d.pages[idx]))
        } else {
            pre
        }
    }
}

proof fn lemma_span_char_stops(d: ScreenplayDocumentV, name: Seq<char>, lo: int, i0: int, i: int)
    requires
        0 <= i0 <= i,
        lo + i0 >= d.pages.len(),
        lo >= 0,
    ensures
        span_char_pages(d, name, lo, i) == span_char_pages(d, name, lo, i0),
    decreases i,
{
    if i > i0 {
        lemma_span_char_stops(d, name, lo, i0, i - 1);
    }
}

proof fn lemma_span_chars_stops(
    d: ScreenplayDocumentV,
    chars: Seq<CharacterV>,
    lo: int,
    i0: int,
    i: int,
)
    requires
        0 <= i0 <= i,
        lo + i0 >= d.pages.len(),
        lo >= 0,
    ensures
        span_chars_pages(d, chars, lo, i) == span_chars_pages(d, chars, lo, i0),
    decreases i,
{
    if i > i0 {
        lemma_span_chars_stops(d, chars, lo, i0, i - 1);
    }
}

proof fn lemma_span_all_stops(d: ScreenplayDocumentV, lo: int, i0: int, i: int)
    requires
        0 <= i0 <= i,
        lo + i0 >= d.pages.len(),
        lo >= 0,
    ensures
        span_all_pages(d, lo, i) == span_all_pages(d, lo, i0),
    decreases i,
{
    if i > i0 {
        lemma_span_all_stops(d, lo, i0, i - 1);
    }
}

/// Every page on which the character's name is spelled by some line, with
/// its index, in order; `None` when there is none.
pub fn get_all_pages_for_character_speaking(
    screenplay_document: &ScreenplayDocument,
    character: &Character,
) -> (r: Option<Vec<(usize, Page)>>)
    ensures
        ({
            let d = screenplay_document@;
            let m = span_char_pages(d, character.name@, 0, d.pages.len() as int);
            match r {
                Some(v) => page_pairs_view(v@) == m && m.len() > 0,
                None => m.len() == 0,
            }
        }),
{
    filter_pages_by_character_speaking(
        screenplay_document,
        (0, screenplay_document.pages.len()),
        character,
    )
}

/// The pages of the inclusive index range on which the character's name is
/// spelled by some line; `None` when there is none.
pub fn filter_pages_by_character_speaking(
    screenplay_document: &ScreenplayDocument,
    pages_range: (usize, usize),
    character: &Character,
) -> (r: Option<Vec<(usize, Page)>>)
    ensures
        ({
            let d = screenplay_document@;
            let m = span_char_pages(
                d,
                character.name@,
                pages_range.0 as int,
                pages_range.1 as int + 1 - pages_range.0 as int,
            );
            match r {
                Some(v) => page_pairs_view(v@) == m && m.len() > 0,
                None => m.len() == 0,
            }
        }),
{
    let ghost d = screenplay_document@;
    let npages = screenplay_document.pages.len();
    let lo = pages_range.0;
    let hi = pages_range.1;
    let mut filtered_pages: Vec<(usize, Page)> = Vec::new();
    let mut i = lo;
    while i <= hi && i < npages
        invariant
            i >= lo,
            i as int <= hi as int + 1 || i == lo,
            npages == screenplay_document.pages@.len(),
            d == screenplay_document@,
            d.pages.len() == npages,
            page_pairs_view(filtered_pages@) == span_char_pages(
                d,
                character.name@,
                lo as int,
                i as int - lo as int,
            ),
        decreases hi + 1 - i,
    {
        proof {
            assert(d.pages[i as int] == screenplay_document.pages@[i as int]@);
        }
        if char_on_page_exec(&screenplay_document.pages[i], character) {
            filtered_pages.push((i, clone_page(&screenplay_document.pages[i])));
            proof {
                assert(page_pairs_view(filtered_pages@) =~= span_char_pages(
                    d,
                    character.name@,
                    lo as int,
                    i as int - lo as int,
                ).push((i as int, d.pages[i as int])));
            }
        } else {
            proof {
                assert(page_pairs_view(filtered_pages@) =~= span_char_pages(
                    d,
                    character.name@,
                    lo as int,
                    i as int + 1 - lo as int,
                ));
            }
        }
        i += 1;
    }
    proof {
        if i as int <= hi as int {
            lemma_span_char_stops(
                d,
                character.name@,
                lo as int,
                i as int - lo as int,
                hi as int + 1 - lo as int,
            );
        }
        if (hi as int) < lo as int {
            assert(span_char_pages(d, character.name@, lo as int, hi as int + 1 - lo as int)
                =~= Seq::<(int, PageV)>::empty());
        }
    }
    if filtered_pages.len() == 0 {
        return None;
    }
    Some(filtered_pages)
}

/// One of the characters' names is spelled by some line of the page.
pub open spec fn chars_any_on_page(pg: PageV, chars: Seq<CharacterV>) -> bool {
    exists|j: int| 0 <= j < chars.len() && char_on_page(pg, (#[trigger] chars[j]).name)
}

fn chars_any_on_page_exec(page: &Page, characters: &Vec<Character>) -> (r: bool)
    ensures
        r == chars_any_on_page(page@, character_list_view(characters@)),
{
    let ghost chars_v = character_list_view(characters@);
    let n = characters.len();
    let mut j: usize = 0;
    while j < n
        invariant
            j <= n,
            n == characters@.len(),
            chars_v == character_list_view(characters@),
            forall|j2: int| 0 <= j2 < j ==> !char_on_page(page@, (#[trigger] chars_v[j2]).name),
        decreases n - j,
    {
        proof {
            assert(chars_v[j as int] == characters@[j as int]@);
        }
        if char_on_page_exec(page, &characters[j]) {
            return true;
        }
        j += 1;
    }
    false
}

/// The pages of the inclusive index range on which any of the characters'
/// names is spelled; `None` when there is none.
pub fn filter_pages_by_multiple_characters_speaking(
    screenplay_document: &ScreenplayDocument,
    pages_range: (usize, usize),
    characters: Vec<Character>,
) -> (r: Option<Vec<(usize, Page)>>)
    ensures
        ({
            let d = screenplay_document@;
            let m = span_chars_pages(
                d,
                character_list_view(characters@),
                pages_range.0 as int,
                pages_range.1 as int + 1 - pages_range.0 as int,
            );
            match r {
                Some(v) => page_pairs_view(v@) == m && m.len() > 0,
                None => m.len() == 0,
            }
        }),
{
    let ghost d = screenplay_document@;
    let npages = screenplay_document.pages.len();
    let lo = pages_range.0;
    let hi = pages_range.1;
    let mut filtered_pages: Vec<(usize, Page)> = Vec::new();
    let mut i = lo;
    while i <= hi && i < npages
        invariant
            i >= lo,
            i as int <= hi as int + 1 || i == lo,
            npages == screenplay_document.pages@.len(),
            d == screenplay_document@,
            d.pages.len() == npages,
            page_pairs_view(filtered_pages@) == span_chars_pages(
                d,
                character_list_view(characters@),
                lo as int,
                i as int - lo as int,
            ),
        decreases hi + 1 - i,
    {
        proof {
            assert(d.pages[i as int] == screenplay_document.pages@[i as int]@);
        }
        if chars_any_on_page_exec(&screenplay_document.pages[i], &characters) {
            filtered_pages.push((i, clone_page(&screenplay_document.pages[i])));
            proof {
                assert(page_pairs_view(filtered_pages@) =~= span_chars_pages(
                    d,
                    character_list_view(characters@),
                    lo as int,
                    i as int - lo as int,
                ).push((i as int, d.pages[i as int])));
            }
        } else {
            proof {
                assert(page_pairs_view(filtered_pages@) =~= span_chars_pages(
                    d,
                    character_list_view(characters@),
                    lo as int,
                    i as int + 1 - lo as int,
                ));
            }
        }
        i += 1;
    }
    proof {
        if i as int <= hi as int {
            lemma_span_chars_stops(
                d,
                character_list_view(characters@),
                lo as int,
                i as int - lo as int,
                hi as int + 1 - lo as int,
            );
        }
        if (hi as int) < lo as int {
            assert(span_chars_pages(
                d,
                character_list_view(characters@),
                lo as int,
                hi as int + 1 - lo as int,
            ) =~= Seq::<(int, PageV)>::empty());
        }
    }
    if filtered_pages.len() == 0 {
        return None;
    }
    Some(filtered_pages)
}

/// The start is strictly before the other coordinate, by page then line.
pub open spec fn coord_lt(a: ScreenplayCoordinate, b: ScreenplayCoordinate) -> bool {
    a.page < b.page || (a.page == b.page && a.line < b.line)
}

/// The smallest start page among the first `i` scenes that start strictly
/// after `start`.
pub open spec fn min_next_start_page(
    scenes: Seq<SceneV>,
    start: ScreenplayCoordinate,
    i: int,
) -> Option<int>
    decreases i,
{
    if i <= 0 {
        None
    } else {
        let pre = min_next_start_page(scenes, start, i - 1);
        let s = scenes[i - 1].start;
        if coord_lt(start, s) {
            match pre {
                None => Some(s.page as int),
                Some(m) => if (s.page as int) < m {
                    Some(s.page as int)
                } else {
                    Some(m)
                },
            }
        } else {
            pre
        }
    }
}

/// The inclusive page span of the scene `scene_id` names: from its start
/// page to the start page of the next scene (its own start page when no
/// scene starts later). `None` when the identifier names no scene or no
/// page of the span exists.
pub fn get_all_pages_for_scene(
    screenplay_document: &ScreenplayDocument,
    scene_id: &SceneID,
) -> (r: Option<Vec<(usize, Page)>>)
    ensures
        (scene_id.0 as int) >= screenplay_document@.scenes.len() ==> r is None,
        (scene_id.0 as int) < screenplay_document@.scenes.len() ==> ({
            let d = screenplay_document@;
            let s = d.scenes[scene_id.0 as int];
            let hi = match min_next_start_page(d.scenes, s.start, d.scenes.len() as int) {
                Some(m) => m,
                None => s.start.page as int,
            };
            let m = span_all_pages(d, s.start.page as int, hi + 1 - s.start.page as int);
            match r {
                Some(v) => page_pairs_view(v@) == m && m.len() > 0,
                None => m.len() == 0,
            }
        }),
{
    let ghost d = screenplay_document@;
    let checked_scene = match screenplay_document.get_scene(scene_id) {
        Some(s) => s,
        None => {
            return None;
        },
    };
    let start = checked_scene.start;
    let ns = screenplay_document.scenes.len();
    let mut next: Option<usize> = None;
    let mut j: usize = 0;
    while j < ns
        invariant
            j <= ns,
            ns == screenplay_document.scenes@.len(),
            d == screenplay_document@,
            d.scenes.len() == ns as int,
            start == d.scenes[scene_id.0 as int].start,
            (match next {
                Some(m) => Some(m as int),
                None => None,
            }) == min_next_start_page(d.scenes, start, j as int),
        decreases ns - j,
    {
        proof {
            assert(d.scenes[j as int] == screenplay_document.scenes@[j as int]@);
        }
        let s = screenplay_document.scenes[j].start;
        if start.page < s.page || (start.page == s.page && start.line < s.line) {
            match next {
                None => {
                    next = Some(s.page);
                },
                Some(m) => {
                    if s.page < m {
                        next = Some(s.page);
                    }
                },
            }
        }
        j += 1;
    }
    let hi = match next {
        Some(m) => m,
        None => start.page,
    };
    let npages = screenplay_document.pages.len();
    let lo = start.page;
    let mut pages: Vec<(usize, Page)> = Vec::new();
    let mut i = lo;
    while i <= hi && i < npages
        invariant
            i >= lo,
            i as int <= hi as int + 1 || i == lo,
            npages == screenplay_document.pages@.len(),
            d == screenplay_document@,
            d.pages.len() == npages,
            page_pairs_view(pages@) == span_all_pages(d, lo as int, i as int - lo as int),
        decreases hi + 1 - i,
    {
        proof {
            assert(d.pages[i as int] == screenplay_document.pages@[i as int]@);
        }
        pages.push((i, clone_page(&screenplay_document.pages[i])));
        proof {
            assert(page_pairs_view(pages@) =~= span_all_pages(
                d,
                lo as int,
                i as int - lo as int,
            ).push((i as int, d.pages[i as int])));
        }
        i += 1;
    }
    proof {
        if i as int <= hi as int {
            lemma_span_all_stops(d, lo as int, i as int - lo as int, hi as int + 1 - lo as int);
        }
    }
    if pages.len() == 0 {
        return None;
    }
    Some(pages)
}

/// The list holds an entry for page index `idx`.
pub open spec fn page_index_present(v: Seq<(usize, Page)>, idx: int) -> bool {
    exists|k: int| 0 <= k < v.len() && ((#[trigger] v[k]).0 as int) == idx
}

fn page_index_contained(v: &Vec<(usize, Page)>, idx: usize) -> (r: bool)
    ensures
        r == page_index_present(v@, idx as int),
{
    let n = v.len();
    let mut k: usize = 0;
    while k < n
        invariant
            k <= n,
            n == v@.len(),
            forall|k2: int| 0 <= k2 < k ==> (#[trigger] v@[k2]).0 != idx,
        decreases n - k,
    {
        if v[k].0 == idx {
            proof {
                assert((v@[k as int].0 as int) == idx as int);
            }
            return true;
        }
        k += 1;
    }
    false
}

/// The last page of the span a scene starting at `start` occupies: the
/// smallest start page among scenes starting strictly later, or the
/// scene's own start page when none does.
pub open spec fn scene_span_end(d: ScreenplayDocumentV, start: ScreenplayCoordinate) -> int {
    match min_next_start_page(d.scenes, start, d.scenes.len() as int) {
        Some(m) => m,
        None => start.page as int,
    }
}

/// The page index lies in the span of one of the given scenes.
pub open spec fn index_in_some_span(
    d: ScreenplayDocumentV,
    scene_ids: Seq<(SceneID, Scene)>,
    idx: int,
) -> bool {
    exists|j: int|
        0 <= j < scene_ids.len() && ((#[trigger] scene_ids[j]).1.start.page as int) <= idx && idx
            <= scene_span_end(d, scene_ids[j].1.start)
}

/// Every existing page of the span of a scene starting at `start` is
/// listed.
pub open spec fn span_pages_present(
    d: ScreenplayDocumentV,
    v: Seq<(usize, Page)>,
    start: ScreenplayCoordinate,
) -> bool {
    forall|idx: int|
        (start.page as int) <= idx <= scene_span_end(d, start) && idx < d.pages.len()
            ==> #[trigger] page_index_present(v, idx)
}

/// The union, without repeats, of the page spans of the given scenes: for
/// each, every existing page from its start page through the next scene's
/// start page. `None` when nothing exists.
pub fn get_all_pages_for_multiple_scenes(
    screenplay_document: &ScreenplayDocument,
    scene_ids: Vec<(SceneID, Scene)>,
) -> (r: Option<Vec<(usize, Page)>>)
    ensures
        match r {
            Some(v) => {
                &&& v@.len() > 0
                &&& page_pairs_valid(screenplay_document@, v@)
                &&& page_indices_distinct(v@)
                &&& (forall|k: int|
                    0 <= k < v@.len() ==> index_in_some_span(
                        screenplay_document@,
                        scene_ids@,
                        ((#[trigger] v@[k]).0 as int),
                    ))
            },
            None => true,
        },
        forall|j: int|
            0 <= j < scene_ids@.len() && ((#[trigger] scene_ids@[j]).1.start.page as int)
                < screenplay_document@.pages.len() ==> (r matches Some(v) && page_index_present(
                v@,
                scene_ids@[j].1.start.page as int,
            )),
        r matches Some(v) ==> (forall|j: int|
            0 <= j < scene_ids@.len() ==> span_pages_present(
                screenplay_document@,
                v@,
                (#[trigger] scene_ids@[j]).1.start,
            )),
{
    let ghost d = screenplay_document@;
    let npages = screenplay_document.pages.len();
    let ns = screenplay_document.scenes.len();
    proof {
        assert(d.scenes.len() == ns as int);
    }
    let mut all_pages: Vec<(usize, Page)> = Vec::new();
    let nin = scene_ids.len();
    let mut jj: usize = 0;
    while jj < nin
        invariant
            jj <= nin,
            nin == scene_ids@.len(),
            npages == screenplay_document.pages@.len(),
            ns == screenplay_document.scenes@.len(),
            d == screenplay_document@,
            d.pages.len() == npages,
            d.scenes.len() == ns as int,
            page_pairs_valid(d, all_pages@),
            page_indices_distinct(all_pages@),
            forall|k: int|
                0 <= k < all_pages@.len() ==> index_in_some_span(
                    d,
                    scene_ids@,
                    ((#[trigger] all_pages@[k]).0 as int),
                ),
            forall|j: int|
                0 <= j < jj && ((#[trigger] scene_ids@[j]).1.start.page as int) < npages as int
                    ==> page_index_present(all_pages@, scene_ids@[j].1.start.page as int),
            forall|j: int|
                0 <= j < jj ==> span_pages_present(d, all_pages@, (#[trigger] scene_ids@[j]).1.start),
        decreases nin - jj,
    {
        let start = scene_ids[jj].1.start;
        proof {
            assert(start == scene_ids@[jj as int].1.start);
        }
        let mut next: Option<usize> = None;
        let mut j: usize = 0;
        while j < ns
            invariant
                j <= ns,
                ns == screenplay_document.scenes@.len(),
                d == screenplay_document@,
                d.scenes.len() == ns as int,
                (match next {
                    Some(m) => Some(m as int),
                    None => None,
                }) == min_next_start_page(d.scenes, start, j as int),
                match next {
                    Some(m) => m >= start.page,
                    None => true,
                },
            decreases ns - j,
        {
            proof {
                assert(d.scenes[j as int] == screenplay_document.scenes@[j as int]@);
            }
            let s = screenplay_document.scenes[j].start;
            if start.page < s.page || (start.page == s.page && start.line < s.line) {
                match next {
                    None => {
                        next = Some(s.page);
                    },
                    Some(m) => {
                        if s.page < m {
                            next = Some(s.page);
                        }
                    },
                }
            }
            j += 1;
        }
        let hi = match next {
            Some(m) => m,
            None => start.page,
        };
        proof {
            assert(hi as int == scene_span_end(d, start));
        }
        let mut i = start.page;
        while i <= hi && i < npages
            invariant
                i >= start.page,
                jj < nin,
                nin == scene_ids@.len(),
                start == scene_ids@[jj as int].1.start,
                hi as int == scene_span_end(d, start),
                hi >= start.page,
                npages == screenplay_document.pages@.len(),
                d == screenplay_document@,
                d.pages.len() == npages,
                page_pairs_valid(d, all_pages@),
                page_indices_distinct(all_pages@),
                forall|k: int|
                    0 <= k < all_pages@.len() ==> index_in_some_span(
                        d,
                        scene_ids@,
                        ((#[trigger] all_pages@[k]).0 as int),
                    ),
                forall|j0: int|
                    0 <= j0 < jj && ((#[trigger] scene_ids@[j0]).1.start.page as int)
                        < npages as int ==> page_index_present(
                        all_pages@,
                        scene_ids@[j0].1.start.page as int,
                    ),
                forall|j0: int|
                    0 <= j0 < jj ==> span_pages_present(
                        d,
                        all_pages@,
                        (#[trigger] scene_ids@[j0]).1.start,
                    ),
                forall|idx: int|
                    (start.page as int) <= idx < i as int && idx < npages as int
                        ==> #[trigger] page_index_present(all_pages@, idx),
            decreases hi + 1 - i,
        {
            let ghost prev = all_pages@;
            if !page_index_contained(&all_pages, i) {
                proof {
                    assert(d.pages[i as int] == screenplay_document.pages@[i as int]@);
                }
                all_pages.push((i, clone_page(&screenplay_document.pages[i])));
                proof {
                    assert(all_pages@[prev.len() as int].0 == i);
                    assert forall|k1: int, k2: int|
                        0 <= k1 < k2 < all_pages@.len() implies (#[trigger] all_pages@[k1]).0 != (
                    #[trigger] all_pages@[k2]).0 by {
                        if k2 < prev.len() {
                            assert(all_pages@[k1] == prev[k1]);
                            assert(all_pages@[k2] == prev[k2]);
                        } else {
                            assert(all_pages@[k1] == prev[k1]);
                            assert(all_pages@[k2].0 == i);
                        }
                    }
                    assert(index_in_some_span(d, scene_ids@, i as int));
                }
            }
            proof {
                // Whatever was present stays present.
                assert forall|idx: int| page_index_present(prev, idx) implies page_index_present(
                    all_pages@,
                    idx,
                ) by {
                    let k0 = choose|k0: int|
                        0 <= k0 < prev.len() && ((#[trigger] prev[k0]).0 as int) == idx;
                    assert(all_pages@[k0] == prev[k0]);
                }
                assert(page_index_present(all_pages@, i as int));
                assert forall|j0: int| 0 <= j0 < jj implies span_pages_present(
                    d,
                    all_pages@,
                    (#[trigger] scene_ids@[j0]).1.start,
                ) by {
                    assert(span_pages_present(d, prev, scene_ids@[j0].1.start));
                    assert forall|idx: int|
                        (scene_ids@[j0].1.start.page as int) <= idx <= scene_span_end(
                            d,
                            scene_ids@[j0].1.start,
                        ) && idx < d.pages.len() implies #[trigger] page_index_present(
                        all_pages@,
                        idx,
                    ) by {
                        assert(page_index_present(prev, idx));
                    }
                }
                assert forall|idx: int|
                    (start.page as int) <= idx < i as int + 1 && idx < npages as int implies
                    #[trigger] page_index_present(all_pages@, idx) by {
                    if idx < i as int {
                        assert(page_index_present(prev, idx));
                    }
                }
            }
            i += 1;
        }
        proof {
            assert forall|idx: int|
                (start.page as int) <= idx <= scene_span_end(d, start) && idx < d.pages.len()
                implies #[trigger] page_index_present(all_pages@, idx) by {
                assert(idx < i as int);
            }
            assert(span_pages_present(d, all_pages@, scene_ids@[jj as int].1.start));
            if (start.page as int) < npages as int {
                assert(page_index_present(all_pages@, start.page as int));
            }
        }
        jj += 1;
    }
    if all_pages.len() == 0 {
        return None;
    }
    Some(all_pages)
}

proof fn lemma_scenes_with_location_member(scenes: Seq<SceneV>, loc: LocationID, i: int, n: int)
    requires
        0 <= i < n <= scenes.len(),
        scenes[i].story_locations.contains(loc),
    ensures
        exists|k: int|
            0 <= k < scenes_with_location_at(scenes, loc, n).len()
                && #[trigger] scenes_with_location_at(scenes, loc, n)[k] == (
            SceneID(i as u64),
            scenes[i],
            ),
    decreases n,
{
    if i < n - 1 {
        lemma_scenes_with_location_member(scenes, loc, i, n - 1);
        let pre = scenes_with_location_at(scenes, loc, n - 1);
        let m = scenes_with_location_at(scenes, loc, n);
        let k = choose|k: int|
            0 <= k < pre.len() && #[trigger] pre[k] == (SceneID(i as u64), scenes[i]);
        assert(m[k] == (SceneID(i as u64), scenes[i]));
    } else {
        let m = scenes_with_location_at(scenes, loc, n);
        assert(m.last() == (SceneID(i as u64), scenes[i]));
    }
}

/// The pages of the scenes set at the location, without repeats; `None`
/// when no scene names the location or nothing exists. The start page of
/// every such scene is reported.
pub fn get_all_pages_for_location(
    screenplay_document: &ScreenplayDocument,
    location: &LocationID,
) -> (r: Option<Vec<(usize, Page)>>)
    ensures
        match r {
            Some(v) => v@.len() > 0 && page_pairs_valid(screenplay_document@, v@)
                && page_indices_distinct(v@),
            None => true,
        },
        forall|i: int|
            #![trigger screenplay_document@.scenes[i]]
            0 <= i < screenplay_document@.scenes.len()
                && screenplay_document@.scenes[i].story_locations.contains(*location) && (
            screenplay_document@.scenes[i].start.page as int) < screenplay_document@.pages.len()
                ==> (r matches Some(v) && page_index_present(
                v@,
                screenplay_document@.scenes[i].start.page as int,
            )),
{
    let ghost d = screenplay_document@;
    let scenes_result = get_scenes_with_location(screenplay_document, location);
    let scenes_for_loc = match scenes_result {
        Some(v) => v,
        None => {
            proof {
                assert forall|i: int|
                    #![trigger d.scenes[i]]
                    0 <= i < d.scenes.len() && d.scenes[i].story_locations.contains(*location)
                    implies false by {
                    lemma_scenes_with_location_member(
                        d.scenes,
                        *location,
                        i,
                        d.scenes.len() as int,
                    );
                }
            }
            return None;
        },
    };
    let ghost pairs = scene_pairs_view(scenes_for_loc@);
    let r = get_all_pages_for_multiple_scenes(screenplay_document, scenes_for_loc);
    proof {
        assert forall|i: int|
            #![trigger d.scenes[i]]
            0 <= i < d.scenes.len() && d.scenes[i].story_locations.contains(*location) && (
        d.scenes[i].start.page as int) < d.pages.len() implies (r matches Some(v)
            && page_index_present(v@, d.scenes[i].start.page as int)) by {
            lemma_scenes_with_location_member(d.scenes, *location, i, d.scenes.len() as int);
            let k = choose|k: int|
                0 <= k < pairs.len() && #[trigger] pairs[k] == (SceneID(i as u64), d.scenes[i]);
            assert(pairs[k] == (scenes_for_loc@[k].0, scenes_for_loc@[k].1@));
            assert((scenes_for_loc@[k].1.start.page as int) == (d.scenes[i].start.page as int));
        }
    }
    r
}

/// Every entry of `sub` is, by identifier and value, an entry of `sup`.
pub open spec fn scene_pairs_subset(sub: Seq<(SceneID, Scene)>, sup: Seq<(SceneID, Scene)>) -> bool {
    forall|k: int|
        0 <= k < sub.len() ==> exists|j: int|
            0 <= j < sup.len() && ((#[trigger] sub[k]).0, sub[k].1@) == (
            (#[trigger] sup[j]).0,
            sup[j].1@,
            )
}

/// The list holds an entry with this identifier and scene value.
pub open spec fn scene_pair_present(v: Seq<(SceneID, Scene)>, sid: SceneID, sv: SceneV) -> bool {
    exists|k: int| 0 <= k < v.len() && (#[trigger] v[k]).0 == sid && v[k].1@ == sv
}

fn filter_scene_pairs_to_strict_page_range(
    scenes: &Vec<(SceneID, Scene)>,
    lo: usize,
    hi: usize,
) -> (r: Vec<(SceneID, Scene)>)
    ensures
        scene_pairs_subset(r@, scenes@),
        forall|j: int|
            0 <= j < scenes@.len() && lo < (#[trigger] scenes@[j]).1.start.page
                && scenes@[j].1.start.page < hi ==> scene_pair_present(
                r@,
                scenes@[j].0,
                scenes@[j].1@,
            ),
{
    let mut out: Vec<(SceneID, Scene)> = Vec::new();
    let n = scenes.len();
    let mut i: usize = 0;
    while i < n
        invariant
            i <= n,
            n == scenes@.len(),
            scene_pairs_subset(out@, scenes@),
            forall|j: int|
                0 <= j < i && lo < (#[trigger] scenes@[j]).1.start.page && scenes@[j].1.start.page
                    < hi ==> scene_pair_present(out@, scenes@[j].0, scenes@[j].1@),
        decreases n - i,
    {
        let pg = scenes[i].1.start.page;
        let ghost oldv = out@;
        if lo < pg && pg < hi {
            out.push((scenes[i].0, clone_scene(&scenes[i].1)));
            proof {
                assert forall|k: int| 0 <= k < out@.len() implies exists|j: int|
                    0 <= j < scenes@.len() && ((#[trigger] out@[k]).0, out@[k].1@) == (
                    (#[trigger] scenes@[j]).0,
                    scenes@[j].1@,
                    ) by {
                    assert(scene_pairs_subset(oldv, scenes@));
                    if k < oldv.len() {
                        assert(out@[k] == oldv[k]);
                        let j0 = choose|j0: int|
                            0 <= j0 < scenes@.len() && ((#[trigger] oldv[k]).0, oldv[k].1@) == (
                            (#[trigger] scenes@[j0]).0,
                            scenes@[j0].1@,
                            );
                        assert((out@[k].0, out@[k].1@) == (scenes@[j0].0, scenes@[j0].1@));
                    } else {
                        assert((out@[k].0, out@[k].1@) == (scenes@[i as int].0, scenes@[i as int].1@));
                    }
                }
                assert(scene_pairs_subset(out@, scenes@));
                assert(out@[oldv.len() as int].0 == scenes@[i as int].0);
                assert(out@[oldv.len() as int].1@ == scenes@[i as int].1@);
                assert(scene_pair_present(out@, scenes@[i as int].0, scenes@[i as int].1@));
                assert forall|j: int|
                    0 <= j < i && lo < (#[trigger] scenes@[j]).1.start.page
                        && scenes@[j].1.start.page < hi implies scene_pair_present(
                    out@,
                    scenes@[j].0,
                    scenes@[j].1@,
                ) by {
                    assert(scene_pair_present(oldv, scenes@[j].0, scenes@[j].1@));
                    let k0 = choose|k0: int|
                        0 <= k0 < oldv.len() && (#[trigger] oldv[k0]).0 == scenes@[j].0
                            && oldv[k0].1@ == scenes@[j].1@;
                    assert(out@[k0] == oldv[k0]);
                }
            }
        }
        i += 1;
    }
    out
}

/// The pages of the scenes set at the location whose start page lies
/// strictly inside the index range; `None` when nothing qualifies. The
/// start page of every such scene is reported.
pub fn filter_pages_by_location(
    screenplay_document: &ScreenplayDocument,
    pages_range: (usize, usize),
    location: &LocationID,
) -> (r: Option<Vec<(usize, Page)>>)
    ensures
        match r {
            Some(v) => v@.len() > 0 && page_pairs_valid(screenplay_document@, v@)
                && page_indices_distinct(v@),
            None => true,
        },
        forall|i: int|
            #![trigger screenplay_document@.scenes[i]]
            0 <= i < screenplay_document@.scenes.len()
                && screenplay_document@.scenes[i].story_locations.contains(*location)
                && pages_range.0 < screenplay_document@.scenes[i].start.page
                && screenplay_document@.scenes[i].start.page < pages_range.1 && (
            screenplay_document@.scenes[i].start.page as int) < screenplay_document@.pages.len()
                ==> (r matches Some(v) && page_index_present(
                v@,
                screenplay_document@.scenes[i].start.page as int,
            )),
{
    let ghost d = screenplay_document@;
    let mut one_location: Vec<LocationID> = Vec::new();
    one_location.push(*location);
    let ghost locs = one_location@;
    let r = filter_pages_by_multiple_locations(screenplay_document, pages_range, one_location);
    proof {
        assert(locs[0] == *location);
        assert forall|i: int|
            #![trigger d.scenes[i]]
            0 <= i < d.scenes.len() && d.scenes[i].story_locations.contains(*location)
                && pages_range.0 < d.scenes[i].start.page && d.scenes[i].start.page
                < pages_range.1 && (d.scenes[i].start.page as int) < d.pages.len() implies (
        r matches Some(v) && page_index_present(v@, d.scenes[i].start.page as int)) by {
            assert(d.scenes[i].story_locations.contains(locs[0]));
        }
    }
    r
}

/// The pages of the scenes set at any of the locations whose start page
/// lies strictly inside the index range; `None` when nothing qualifies.
/// The start page of every such scene is reported.
pub fn filter_pages_by_multiple_locations(
    screenplay_document: &ScreenplayDocument,
    pages_range: (usize, usize),
    locations: Vec<LocationID>,
) -> (r: Option<Vec<(usize, Page)>>)
    ensures
        match r {
            Some(v) => v@.len() > 0 && page_pairs_valid(screenplay_document@, v@)
                && page_indices_distinct(v@),
            None => true,
        },
        forall|i: int|
            #![trigger screenplay_document@.scenes[i]]
            0 <= i < screenplay_document@.scenes.len() && (exists|j: int|
                0 <= j < locations@.len()
                    && screenplay_document@.scenes[i].story_locations.contains(
                    #[trigger] locations@[j],
                )) && pages_range.0 < screenplay_document@.scenes[i].start.page
                && screenplay_document@.scenes[i].start.page < pages_range.1 && (
            screenplay_document@.scenes[i].start.page as int) < screenplay_document@.pages.len()
                ==> (r matches Some(v) && page_index_present(
                v@,
                screenplay_document@.scenes[i].start.page as int,
            )),
{
    let ghost d = screenplay_document@;
    let ordered_result = get_all_scenes_ordered(screenplay_document);
    let scenes_ordered = match ordered_result {
        Some(v) => v,
        None => {
            return None;
        },
    };
    let ns = screenplay_document.scenes.len();
    proof {
        assert(d.scenes.len() == ns as int);
    }
    let ghost ordered = scenes_ordered@;
    let scenes_within = filter_scene_pairs_to_strict_page_range(
        &scenes_ordered,
        pages_range.0,
        pages_range.1,
    );
    let ghost within = scenes_within@;
    let ghost within_pairs = scene_pairs_view(scenes_within@);
    // Every qualifying scene of the document survives the strict range cut.
    proof {
        assert forall|i: int|
            #![trigger d.scenes[i]]
            0 <= i < d.scenes.len() && pages_range.0 < d.scenes[i].start.page
                && d.scenes[i].start.page < pages_range.1 implies scene_pair_present(
            within,
            SceneID(i as u64),
            d.scenes[i],
        ) by {
            assert(scene_index_covered(ordered, i));
            let k = choose|k: int|
                0 <= k < ordered.len() && (#[trigger] ordered[k]).0 == SceneID(i as u64);
            assert(scene_pair_valid(d, scene_pairs_view(ordered)[k]));
            assert(scene_pairs_view(ordered)[k] == (ordered[k].0, ordered[k].1@));
            assert(ordered[k].1@ == d.scenes[i]);
            assert(lo_strict(pages_range.0, ordered[k].1.start.page, pages_range.1));
            assert(scene_pair_present(within, ordered[k].0, ordered[k].1@));
        }
    }
    let filtered_result = filter_scenes_by_locations(
        screenplay_document,
        scenes_within,
        locations,
    );
    proof {
        lemma_filter_pairs_locations_complete(within_pairs, locations@, within_pairs.len() as int);
        assert forall|i: int|
            #![trigger d.scenes[i]]
            0 <= i < d.scenes.len() && (exists|j: int|
                0 <= j < locations@.len() && d.scenes[i].story_locations.contains(
                    #[trigger] locations@[j],
                )) && pages_range.0 < d.scenes[i].start.page && d.scenes[i].start.page
                < pages_range.1 implies (filtered_result matches Some(v) && scene_pair_present(
            v@,
            SceneID(i as u64),
            d.scenes[i],
        )) by {
            let k = choose|k: int|
                0 <= k < within.len() && (#[trigger] within[k]).0 == SceneID(i as u64)
                    && within[k].1@ == d.scenes[i];
            assert(within_pairs[k] == (within[k].0, within[k].1@));
            assert(pair_matches_locations(within_pairs[k], locations@));
            let m = filter_pairs_by_locations_at(
                within_pairs,
                locations@,
                within_pairs.len() as int,
            );
            assert(m.contains(within_pairs[k]));
            match filtered_result {
                Some(v) => {
                    let k2 = choose|k2: int| 0 <= k2 < m.len() && m[k2] == within_pairs[k];
                    assert(scene_pairs_view(v@)[k2] == (v@[k2].0, v@[k2].1@));
                    assert(scene_pair_present(v@, SceneID(i as u64), d.scenes[i]));
                },
                None => {
                    assert(false);
                },
            }
        }
    }
    let scenes_filtered = match filtered_result {
        Some(v) => v,
        None => {
            return None;
        },
    };
    let ghost filt = scenes_filtered@;
    let r = get_all_pages_for_multiple_scenes(screenplay_document, scenes_filtered);
    proof {
        assert forall|i: int|
            #![trigger d.scenes[i]]
            0 <= i < d.scenes.len() && (exists|j: int|
                0 <= j < locations@.len() && d.scenes[i].story_locations.contains(
                    #[trigger] locations@[j],
                )) && pages_range.0 < d.scenes[i].start.page && d.scenes[i].start.page
                < pages_range.1 && (d.scenes[i].start.page as int) < d.pages.len() implies (
        r matches Some(v) && page_index_present(v@, d.scenes[i].start.page as int)) by {
            let k = choose|k: int|
                0 <= k < filt.len() && (#[trigger] filt[k]).0 == SceneID(i as u64) && filt[k].1@
                    == d.scenes[i];
            assert((filt[k].1.start.page as int) == (d.scenes[i].start.page as int));
        }
    }
    r
}

/// The scene's start page lies strictly inside the range.
pub open spec fn lo_strict(lo: usize, page: usize, hi: usize) -> bool {
    lo < page && page < hi
}

} // verus!
