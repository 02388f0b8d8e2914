//! The GPX schema: which elements and attributes carry which fields, read
//! from an element tree and written back as XML text.
use vstd::prelude::*;
use crate::gpx::{Gpx, Metadata};
use crate::point::Point;
use crate::text::{chars_of, decimal_i64, decimal_text, parse_decimal, push_chars, push_decimal, push_str, string_of};
use crate::time::{rfc3339_instant, rfc3339_text, valid_instant, Timestamp};
use crate::track::{Track, TrackSegment};
use crate::waypoint::Waypoint;
use crate::time::leap_adjusted;
use crate::xml::{
    attrs_model, element_is, escape_text, is_space, node_is, parse_document, xml_escaped, xml_tree,
    Element, Node, XmlNode,
};

verus! {

/// Why a text could not be read as a GPX document.
#[derive(Clone, Copy, Debug, PartialEq, Eq)]
pub enum DecodeError {
    /// The text is not a well-formed XML document.
    Syntax,
    /// The root element is not `gpx`.
    Root,
    /// A point lacks `lat` or `lon`, or one is not a decimal number.
    Coordinate,
    /// An `ele` element does not hold a decimal number.
    Elevation,
    /// A point's `time` element does not hold an RFC 3339 instant of the years
    /// 0000 to 9999.
    Time,
}

impl DecodeError {
    /// A readable description of the failure.
    pub fn message(&self) -> (r: String)
        ensures
            r@.len() > 0,
    {
        let mut out: Vec<char> = Vec::new();
        match self {
            DecodeError::Syntax => push_str(&mut out, "malformed XML"),
            DecodeError::Root => push_str(&mut out, "the root element is not gpx"),
            DecodeError::Coordinate => push_str(&mut out, "a point has a missing or invalid lat or lon"),
            DecodeError::Elevation => push_str(&mut out, "an ele element is not a number"),
            DecodeError::Time => push_str(&mut out, "a time element is not an RFC 3339 instant"),
        }
        proof {
            reveal_strlit("malformed XML");
            reveal_strlit("the root element is not gpx");
            reveal_strlit("a point has a missing or invalid lat or lon");
            reveal_strlit("an ele element is not a number");
            reveal_strlit("a time element is not an RFC 3339 instant");
        }
        string_of(out.as_slice())
    }
}

/// The name, attributes and children of an element of the tree.
pub open spec fn name_of(m: XmlNode) -> Seq<char> {
    match m {
        XmlNode::Elem { name, .. } => name,
        XmlNode::Text { .. } => Seq::empty(),
    }
}

pub open spec fn attrs_of(m: XmlNode) -> Seq<(Seq<char>, Seq<char>)> {
    match m {
        XmlNode::Elem { attrs, .. } => attrs,
        XmlNode::Text { .. } => Seq::empty(),
    }
}

pub open spec fn kids_of(m: XmlNode) -> Seq<XmlNode> {
    match m {
        XmlNode::Elem { kids, .. } => kids,
        XmlNode::Text { .. } => Seq::empty(),
    }
}

/// The text children of an element, joined.
pub open spec fn joined_text(nodes: Seq<XmlNode>) -> Seq<char>
    decreases nodes.len(),
{
    if nodes.len() == 0 {
        Seq::empty()
    } else {
        joined_text(nodes.drop_last()) + match nodes.last() {
            XmlNode::Text { text } => text,
            XmlNode::Elem { .. } => Seq::empty(),
        }
    }
}

pub open spec fn trim_start(s: Seq<char>) -> Seq<char>
    decreases s.len(),
{
    if s.len() > 0 && is_space(s[0]) {
        trim_start(s.drop_first())
    } else {
        s
    }
}

pub open spec fn trim_end(s: Seq<char>) -> Seq<char>
    decreases s.len(),
{
    if s.len() > 0 && is_space(s.last()) {
        trim_end(s.drop_last())
    } else {
        s
    }
}

/// The text of an element, without surrounding white space.
pub open spec fn element_text(e: XmlNode) -> Seq<char> {
    trim_end(trim_start(joined_text(kids_of(e))))
}

pub open spec fn is_elem_named(n: XmlNode, name: Seq<char>) -> bool {
    n is Elem && name_of(n) == name
}

/// The first child element with that name.
pub open spec fn first_named(nodes: Seq<XmlNode>, name: Seq<char>) -> Option<XmlNode>
    decreases nodes.len(),
{
    if nodes.len() == 0 {
        None
    } else if is_elem_named(nodes[0], name) {
        Some(nodes[0])
    } else {
        first_named(nodes.drop_first(), name)
    }
}

/// The child elements with that name, in order.
pub open spec fn all_named(nodes: Seq<XmlNode>, name: Seq<char>) -> Seq<XmlNode>
    decreases nodes.len(),
{
    if nodes.len() == 0 {
        Seq::empty()
    } else {
        let rest = all_named(nodes.drop_last(), name);
        if is_elem_named(nodes.last(), name) {
            rest.push(nodes.last())
        } else {
            rest
        }
    }
}

/// The value of the first attribute with that name.
pub open spec fn attribute_value(attrs: Seq<(Seq<char>, Seq<char>)>, name: Seq<char>) -> Option<Seq<char>>
    decreases attrs.len(),
{
    if attrs.len() == 0 {
        None
    } else if attrs[0].0 == name {
        Some(attrs[0].1)
    } else {
        attribute_value(attrs.drop_first(), name)
    }
}

/// A coordinate attribute in nanodegrees, when present and a number.
pub open spec fn coordinate(e: XmlNode, name: Seq<char>) -> Option<i64> {
    match attribute_value(attrs_of(e), name) {
        Some(v) => decimal_i64(v, 9),
        None => None,
    }
}

/// The elevation child in millimetres: `Some(None)` when absent, `None` when
/// it is not a number.
pub open spec fn elevation_field(e: XmlNode) -> Option<Option<i64>> {
    match first_named(kids_of(e), "ele"@) {
        None => Some(None),
        Some(c) => match decimal_i64(element_text(c), 3) {
            Some(v) => Some(Some(v)),
            None => None,
        },
    }
}

/// The time child as seconds and nanoseconds (a leap second counted into the
/// next second): `Some(None)` when absent, `None` when it is not an instant
/// that a `Timestamp` holds.
pub open spec fn time_field(e: XmlNode) -> Option<Option<(i64, u32)>> {
    match first_named(kids_of(e), "time"@) {
        None => Some(None),
        Some(c) => match rfc3339_instant(element_text(c)) {
            Some((s, n)) => match leap_adjusted(s as int, n as int) {
                Some((a, b)) => Some(Some((a as i64, b as u32))),
                None => None,
            },
            None => None,
        },
    }
}

/// The name child's text, if there is a name child.
pub open spec fn name_field(e: XmlNode) -> Option<Seq<char>> {
    match first_named(kids_of(e), "name"@) {
        Some(c) => Some(element_text(c)),
        None => None,
    }
}

pub open spec fn point_valid(e: XmlNode) -> bool {
    &&& coordinate(e, "lat"@) is Some
    &&& coordinate(e, "lon"@) is Some
    &&& elevation_field(e) is Some
    &&& time_field(e) is Some
}

pub open spec fn time_matches(t: Option<Timestamp>, f: Option<(i64, u32)>) -> bool {
    match (t, f) {
        (None, None) => true,
        (Some(t), Some((s, n))) => t.unix_seconds() == s && t.subsec_nanos() == n,
        _ => false,
    }
}

pub open spec fn name_matches(n: Option<String>, f: Option<Seq<char>>) -> bool {
    match (n, f) {
        (None, None) => true,
        (Some(n), Some(f)) => n@ == f,
        _ => false,
    }
}

/// `p` is what the element `e` (a `trkpt`) describes.
pub open spec fn point_decodes(e: XmlNode, p: Point) -> bool {
    &&& point_valid(e)
    &&& p.lat == coordinate(e, "lat"@)->0
    &&& p.lon == coordinate(e, "lon"@)->0
    &&& p.elevation == elevation_field(e)->0
    &&& time_matches(p.time, time_field(e)->0)
}

pub open spec fn segment_valid(e: XmlNode) -> bool {
    forall|k: int|
        0 <= k < all_named(kids_of(e), "trkpt"@).len() ==> point_valid(
            #[trigger] all_named(kids_of(e), "trkpt"@)[k],
        )
}

pub open spec fn segment_decodes(e: XmlNode, s: TrackSegment) -> bool {
    let pts = all_named(kids_of(e), "trkpt"@);
    &&& s.points@.len() == pts.len()
    &&& forall|k: int| 0 <= k < pts.len() ==> point_decodes(#[trigger] pts[k], s.points@[k])
}

pub open spec fn track_valid(e: XmlNode) -> bool {
    forall|j: int|
        0 <= j < all_named(kids_of(e), "trkseg"@).len() ==> segment_valid(
            #[trigger] all_named(kids_of(e), "trkseg"@)[j],
        )
}

pub open spec fn track_decodes(e: XmlNode, t: Track) -> bool {
    let segs = all_named(kids_of(e), "trkseg"@);
    &&& name_matches(t.name, name_field(e))
    &&& t.segments@.len() == segs.len()
    &&& forall|j: int| 0 <= j < segs.len() ==> segment_decodes(#[trigger] segs[j], t.segments@[j])
}

pub open spec fn waypoint_decodes(e: XmlNode, w: Waypoint) -> bool {
    &&& point_valid(e)
    &&& w.lat == coordinate(e, "lat"@)->0
    &&& w.lon == coordinate(e, "lon"@)->0
    &&& w.elevation == elevation_field(e)->0
    &&& time_matches(w.time, time_field(e)->0)
    &&& name_matches(w.name, name_field(e))
}

pub open spec fn metadata_decodes(e: XmlNode, m: Option<Metadata>) -> bool {
    match first_named(kids_of(e), "metadata"@) {
        None => m is None,
        Some(c) => m matches Some(md) && name_matches(
            md.time,
            match first_named(kids_of(c), "time"@) {
                Some(t) => Some(element_text(t)),
                None => None,
            },
        ),
    }
}

/// Whether the tree is a GPX document whose every point can be read.
pub open spec fn gpx_valid(e: XmlNode) -> bool {
    let trks = all_named(kids_of(e), "trk"@);
    let wpts = all_named(kids_of(e), "wpt"@);
    &&& name_of(e) == "gpx"@
    &&& forall|j: int| 0 <= j < trks.len() ==> track_valid(#[trigger] trks[j])
    &&& forall|j: int| 0 <= j < wpts.len() ==> point_valid(#[trigger] wpts[j])
}

/// `g` is the document that the tree describes: its `trk`, `wpt` and
/// `metadata` children; other children are ignored.
pub open spec fn gpx_decodes(e: XmlNode, g: Gpx) -> bool {
    let trks = all_named(kids_of(e), "trk"@);
    let wpts = all_named(kids_of(e), "wpt"@);
    &&& g.tracks@.len() == trks.len()
    &&& forall|j: int| 0 <= j < trks.len() ==> track_decodes(#[trigger] trks[j], g.tracks@[j])
    &&& g.waypoints@.len() == wpts.len()
    &&& forall|j: int| 0 <= j < wpts.len() ==> waypoint_decodes(#[trigger] wpts[j], g.waypoints@[j])
    &&& metadata_decodes(e, g.metadata)
}

/// Whether the element is named `name`.
fn is_named(e: &Element, name: &str) -> (r: bool)
    ensures
        r == (e.name@ == name@),
{
    same_str(e.name.as_str(), name)
}

/// Whether two strings are equal.
fn same_str(x: &str, y: &str) -> (r: bool)
    ensures
        r == (x@ == y@),
{
    let a = chars_of(x);
    let b = chars_of(y);
    if a.len() != b.len() {
        return false;
    }
    let mut k: usize = 0;
    while k < a.len()
        invariant
            k <= a@.len() == b@.len(),
            a@ == x@,
            b@ == y@,
            forall|t: int| 0 <= t < k ==> a@[t] == b@[t],
        decreases a@.len() - k,
    {
        if a[k] != b[k] {
            return false;
        }
        k = k + 1;
    }
    assert(a@ =~= b@);
    true
}

proof fn lemma_element_parts(e: Element, m: XmlNode)
    requires
        element_is(e, m),
    ensures
        m is Elem,
        e.name@ == name_of(m),
        attrs_model(e.attributes@) == attrs_of(m),
        e.children@.len() == kids_of(m).len(),
        forall|k: int| 0 <= k < kids_of(m).len() ==> node_is(#[trigger] e.children@[k], kids_of(m)[k]),
{
}

/// The first child element named `name`.
fn first_child<'a>(e: &'a Element, name: &str, Ghost(m): Ghost<XmlNode>) -> (r: Option<&'a Element>)
    requires
        element_is(*e, m),
    ensures
        match r {
            Some(c) => first_named(kids_of(m), name@) matches Some(cm) && element_is(*c, cm),
            None => first_named(kids_of(m), name@) is None,
        },
{
    proof {
        lemma_element_parts(*e, m);
    }
    let nodes = &e.children;
    let ghost kids = kids_of(m);
    let mut i: usize = 0;
    assert(kids.skip(0) =~= kids);
    while i < nodes.len()
        invariant
            i <= nodes@.len(),
            nodes@ == e.children@,
            kids == kids_of(m),
            nodes@.len() == kids.len(),
            forall|k: int| 0 <= k < kids.len() ==> node_is(#[trigger] nodes@[k], kids[k]),
            first_named(kids, name@) == first_named(kids.skip(i as int), name@),
        decreases nodes@.len() - i,
    {
        assert(kids.skip(i as int).drop_first() =~= kids.skip(i + 1));
        assert(kids.skip(i as int)[0] == kids[i as int]);
        assert(node_is(nodes@[i as int], kids[i as int]));
        match &nodes[i] {
            Node::Element(c) => {
                if is_named(c, name) {
                    assert(element_is(*c, kids[i as int]));
                    assert(is_elem_named(kids[i as int], name@));
                    assert(first_named(kids.skip(i as int), name@) == Some(kids[i as int]));
                    return Some(c);
                }
            },
            Node::Text(_) => {},
        }
        i = i + 1;
    }
    None
}

/// The child elements named `name`, in order.
fn children_named<'a>(e: &'a Element, name: &str, Ghost(m): Ghost<XmlNode>) -> (r: Vec<&'a Element>)
    requires
        element_is(*e, m),
    ensures
        r@.len() == all_named(kids_of(m), name@).len(),
        forall|k: int| 0 <= k < r@.len() ==> element_is(*#[trigger] r@[k], all_named(kids_of(m), name@)[k]),
{
    proof {
        lemma_element_parts(*e, m);
    }
    let nodes = &e.children;
    let ghost kids = kids_of(m);
    let mut out: Vec<&'a Element> = Vec::new();
    let mut i: usize = 0;
    while i < nodes.len()
        invariant
            i <= nodes@.len(),
            nodes@.len() == kids.len(),
            forall|k: int| 0 <= k < kids.len() ==> node_is(#[trigger] nodes@[k], kids[k]),
            out@.len() == all_named(kids.take(i as int), name@).len(),
            forall|k: int|
                0 <= k < out@.len() ==> element_is(*#[trigger] out@[k], all_named(kids.take(i as int), name@)[k]),
        decreases nodes@.len() - i,
    {
        assert(kids.take(i + 1).drop_last() =~= kids.take(i as int));
        assert(kids.take(i + 1).last() == kids[i as int]);
        assert(node_is(nodes@[i as int], kids[i as int]));
        match &nodes[i] {
            Node::Element(c) => {
                if is_named(c, name) {
                    out.push(c);
                }
            },
            Node::Text(_) => {},
        }
        i = i + 1;
    }
    assert(kids.take(i as int) =~= kids);
    out
}

/// The value of the first attribute named `name`.
fn attribute<'a>(e: &'a Element, name: &str, Ghost(m): Ghost<XmlNode>) -> (r: Option<&'a str>)
    requires
        element_is(*e, m),
    ensures
        match r {
            Some(v) => attribute_value(attrs_of(m), name@) == Some(v@),
            None => attribute_value(attrs_of(m), name@) is None,
        },
{
    proof {
        lemma_element_parts(*e, m);
    }
    let attrs = &e.attributes;
    let ghost am = attrs_of(m);
    let mut i: usize = 0;
    assert(am.skip(0) =~= am);
    while i < attrs.len()
        invariant
            i <= attrs@.len(),
            am == attrs_model(attrs@),
            am == attrs_of(m),
            attribute_value(am, name@) == attribute_value(am.skip(i as int), name@),
        decreases attrs@.len() - i,
    {
        assert(am.skip(i as int).drop_first() =~= am.skip(i + 1));
        assert(am.skip(i as int)[0] == am[i as int]);
        assert(am[i as int] == (attrs@[i as int].name@, attrs@[i as int].value@));
        if same_str(attrs[i].name.as_str(), name) {
            assert(attribute_value(am.skip(i as int), name@) == Some(am[i as int].1));
            return Some(attrs[i].value.as_str());
        }
        i = i + 1;
    }
    None
}

/// The text of an element without surrounding white space.
fn text_of(e: &Element, Ghost(m): Ghost<XmlNode>) -> (r: String)
    requires
        element_is(*e, m),
    ensures
        r@ == element_text(m),
{
    proof {
        lemma_element_parts(*e, m);
    }
    let nodes = &e.children;
    let ghost kids = kids_of(m);
    let mut all: Vec<char> = Vec::new();
    let mut i: usize = 0;
    while i < nodes.len()
        invariant
            i <= nodes@.len(),
            nodes@.len() == kids.len(),
            forall|k: int| 0 <= k < kids.len() ==> node_is(#[trigger] nodes@[k], kids[k]),
            all@ == joined_text(kids.take(i as int)),
        decreases nodes@.len() - i,
    {
        assert(kids.take(i + 1).drop_last() =~= kids.take(i as int));
        assert(kids.take(i + 1).last() == kids[i as int]);
        assert(node_is(nodes@[i as int], kids[i as int]));
        match &nodes[i] {
            Node::Text(t) => {
                let cs = chars_of(t.as_str());
                push_chars(&mut all, cs.as_slice());
            },
            Node::Element(_) => {
                assert(all@ + Seq::<char>::empty() =~= all@);
            },
        }
        i = i + 1;
    }
    assert(kids.take(i as int) =~= kids);
    let n = all.len();
    let mut a: usize = 0;
    assert(all@.skip(0) =~= all@);
    while a < n && crate::xml::space_char(all[a])
        invariant
            a <= n == all@.len(),
            trim_start(all@) == trim_start(all@.skip(a as int)),
        decreases n - a,
    {
        assert(all@.skip(a as int).drop_first() =~= all@.skip(a + 1));
        a = a + 1;
    }
    let ghost t = all@.skip(a as int);
    assert(trim_start(t) == t);
    let mut b: usize = n;
    while b > a && crate::xml::space_char(all[b - 1])
        invariant
            a <= b <= n == all@.len(),
            t == all@.skip(a as int),
            trim_end(t) == trim_end(all@.subrange(a as int, b as int)),
        decreases b - a,
    {
        assert(all@.subrange(a as int, b as int).drop_last() =~= all@.subrange(a as int, b - 1));
        b = b - 1;
    }
    assert(t =~= all@.subrange(a as int, n as int));
    let ghost u = all@.subrange(a as int, b as int);
    assert(trim_end(u) == u);
    string_of(&all.as_slice()[a..b])
}

fn read_coordinate(e: &Element, name: &str, Ghost(m): Ghost<XmlNode>) -> (r: Option<i64>)
    requires
        element_is(*e, m),
    ensures
        r == coordinate(m, name@),
{
    match attribute(e, name, Ghost(m)) {
        Some(v) => {
            let cs = chars_of(v);
            parse_decimal(cs.as_slice(), 9)
        },
        None => None,
    }
}

fn read_elevation(e: &Element, Ghost(m): Ghost<XmlNode>) -> (r: Option<Option<i64>>)
    requires
        element_is(*e, m),
    ensures
        r == elevation_field(m),
{
    match first_child(e, "ele", Ghost(m)) {
        None => Some(None),
        Some(c) => {
            let ghost cm = first_named(kids_of(m), "ele"@)->0;
            let t = text_of(c, Ghost(cm));
            let cs = chars_of(t.as_str());
            match parse_decimal(cs.as_slice(), 3) {
                Some(v) => Some(Some(v)),
                None => None,
            }
        },
    }
}

fn read_time(e: &Element, Ghost(m): Ghost<XmlNode>) -> (r: Option<Option<Timestamp>>)
    requires
        element_is(*e, m),
    ensures
        r is Some <==> time_field(m) is Some,
        r matches Some(t) ==> time_matches(t, time_field(m)->0),
{
    match first_child(e, "time", Ghost(m)) {
        None => Some(None),
        Some(c) => {
            let ghost cm = first_named(kids_of(m), "time"@)->0;
            let t = text_of(c, Ghost(cm));
            match Timestamp::parse_rfc3339(t.as_str()) {
                Some(ts) => Some(Some(ts)),
                None => None,
            }
        },
    }
}

fn read_name(e: &Element, Ghost(m): Ghost<XmlNode>) -> (r: Option<String>)
    requires
        element_is(*e, m),
    ensures
        name_matches(r, name_field(m)),
{
    match first_child(e, "name", Ghost(m)) {
        Some(c) => {
            let ghost cm = first_named(kids_of(m), "name"@)->0;
            Some(text_of(c, Ghost(cm)))
        },
        None => None,
    }
}

/// Reads a track point element.
fn decode_point(e: &Element, Ghost(m): Ghost<XmlNode>) -> (r: Result<Point, DecodeError>)
    requires
        element_is(*e, m),
    ensures
        r is Ok <==> point_valid(m),
        r matches Ok(p) ==> point_decodes(m, p),
{
    let lat = match read_coordinate(e, "lat", Ghost(m)) {
        Some(v) => v,
        None => {
            return Err(DecodeError::Coordinate);
        },
    };
    let lon = match read_coordinate(e, "lon", Ghost(m)) {
        Some(v) => v,
        None => {
            return Err(DecodeError::Coordinate);
        },
    };
    let elevation = match read_elevation(e, Ghost(m)) {
        Some(v) => v,
        None => {
            return Err(DecodeError::Elevation);
        },
    };
    let time = match read_time(e, Ghost(m)) {
        Some(t) => t,
        None => {
            return Err(DecodeError::Time);
        },
    };
    Ok(Point { lat, lon, elevation, time })
}

/// Reads a waypoint element.
fn decode_waypoint(e: &Element, Ghost(m): Ghost<XmlNode>) -> (r: Result<Waypoint, DecodeError>)
    requires
        element_is(*e, m),
    ensures
        r is Ok <==> point_valid(m),
        r matches Ok(w) ==> waypoint_decodes(m, w),
{
    let p = match decode_point(e, Ghost(m)) {
        Ok(p) => p,
        Err(err) => {
            return Err(err);
        },
    };
    let name = read_name(e, Ghost(m));
    Ok(Waypoint { lat: p.lat, lon: p.lon, name, elevation: p.elevation, time: p.time })
}

/// Reads a track segment element: its `trkpt` children in order.
fn decode_segment(e: &Element, Ghost(m): Ghost<XmlNode>) -> (r: Result<TrackSegment, DecodeError>)
    requires
        element_is(*e, m),
    ensures
        r is Ok <==> segment_valid(m),
        r matches Ok(s) ==> segment_decodes(m, s),
{
    let ghost all = all_named(kids_of(m), "trkpt"@);
    let pts = children_named(e, "trkpt", Ghost(m));
    let mut points: Vec<Point> = Vec::new();
    let mut k: usize = 0;
    while k < pts.len()
        invariant
            k <= pts@.len(),
            pts@.len() == all.len(),
            all == all_named(kids_of(m), "trkpt"@),
            forall|t: int| 0 <= t < pts@.len() ==> element_is(*#[trigger] pts@[t], all[t]),
            points@.len() == k,
            forall|t: int| 0 <= t < k ==> point_decodes(#[trigger] all[t], points@[t]),
        decreases pts@.len() - k,
    {
        match decode_point(pts[k], Ghost(all[k as int])) {
            Ok(p) => points.push(p),
            Err(err) => {
                assert(!point_valid(all_named(kids_of(m), "trkpt"@)[k as int]));
                return Err(err);
            },
        }
        k = k + 1;
    }
    Ok(TrackSegment { points })
}

/// Reads a track element: its name and its `trkseg` children in order.
fn decode_track(e: &Element, Ghost(m): Ghost<XmlNode>) -> (r: Result<Track, DecodeError>)
    requires
        element_is(*e, m),
    ensures
        r is Ok <==> track_valid(m),
        r matches Ok(t) ==> track_decodes(m, t),
{
    let ghost all = all_named(kids_of(m), "trkseg"@);
    let segs = children_named(e, "trkseg", Ghost(m));
    let mut segments: Vec<TrackSegment> = Vec::new();
    let mut k: usize = 0;
    while k < segs.len()
        invariant
            k <= segs@.len(),
            segs@.len() == all.len(),
            all == all_named(kids_of(m), "trkseg"@),
            forall|t: int| 0 <= t < segs@.len() ==> element_is(*#[trigger] segs@[t], all[t]),
            segments@.len() == k,
            forall|t: int| 0 <= t < k ==> segment_decodes(#[trigger] all[t], segments@[t]),
            forall|t: int| 0 <= t < k ==> segment_valid(#[trigger] all[t]),
        decreases segs@.len() - k,
    {
        match decode_segment(segs[k], Ghost(all[k as int])) {
            Ok(s) => segments.push(s),
            Err(err) => {
                assert(!segment_valid(all_named(kids_of(m), "trkseg"@)[k as int]));
                return Err(err);
            },
        }
        k = k + 1;
    }
    let name = read_name(e, Ghost(m));
    Ok(Track { name, segments })
}

fn decode_metadata(e: &Element, Ghost(m): Ghost<XmlNode>) -> (r: Option<Metadata>)
    requires
        element_is(*e, m),
    ensures
        metadata_decodes(m, r),
{
    match first_child(e, "metadata", Ghost(m)) {
        None => None,
        Some(md) => {
            let ghost mm = first_named(kids_of(m), "metadata"@)->0;
            let time = match first_child(md, "time", Ghost(mm)) {
                Some(t) => {
                    let ghost tm = first_named(kids_of(mm), "time"@)->0;
                    Some(text_of(t, Ghost(tm)))
                },
                None => None,
            };
            Some(Metadata { time })
        },
    }
}

impl Gpx {
    /// Reads a document from the element holding the tree `m`.
    fn from_element(e: &Element, Ghost(m): Ghost<XmlNode>) -> (r: Result<Gpx, DecodeError>)
        requires
            element_is(*e, m),
        ensures
            r is Ok <==> gpx_valid(m),
            r matches Ok(g) ==> gpx_decodes(m, g),
            name_of(m) != "gpx"@ ==> r == Err::<Gpx, DecodeError>(DecodeError::Root),
    {
        proof {
            lemma_element_parts(*e, m);
        }
        if !is_named(e, "gpx") {
            return Err(DecodeError::Root);
        }
        let ghost trks = all_named(kids_of(m), "trk"@);
        let ts = children_named(e, "trk", Ghost(m));
        let mut tracks: Vec<Track> = Vec::new();
        let mut k: usize = 0;
        while k < ts.len()
            invariant
                name_of(m) == "gpx"@,
                k <= ts@.len(),
                ts@.len() == trks.len(),
                trks == all_named(kids_of(m), "trk"@),
                forall|t: int| 0 <= t < ts@.len() ==> element_is(*#[trigger] ts@[t], trks[t]),
                tracks@.len() == k,
                forall|t: int| 0 <= t < k ==> track_decodes(#[trigger] trks[t], tracks@[t]),
                forall|t: int| 0 <= t < k ==> track_valid(#[trigger] trks[t]),
            decreases ts@.len() - k,
        {
            match decode_track(ts[k], Ghost(trks[k as int])) {
                Ok(t) => tracks.push(t),
                Err(err) => {
                    assert(!track_valid(all_named(kids_of(m), "trk"@)[k as int]));
                    return Err(err);
                },
            }
            k = k + 1;
        }
        let ghost wpts = all_named(kids_of(m), "wpt"@);
        let ws = children_named(e, "wpt", Ghost(m));
        let mut waypoints: Vec<Waypoint> = Vec::new();
        let mut k: usize = 0;
        while k < ws.len()
            invariant
                name_of(m) == "gpx"@,
                k <= ws@.len(),
                ws@.len() == wpts.len(),
                wpts == all_named(kids_of(m), "wpt"@),
                trks == all_named(kids_of(m), "trk"@),
                forall|t: int| 0 <= t < trks.len() ==> track_valid(#[trigger] trks[t]),
                forall|t: int| 0 <= t < ws@.len() ==> element_is(*#[trigger] ws@[t], wpts[t]),
                waypoints@.len() == k,
                forall|t: int| 0 <= t < k ==> waypoint_decodes(#[trigger] wpts[t], waypoints@[t]),
                forall|t: int| 0 <= t < k ==> point_valid(#[trigger] wpts[t]),
            decreases ws@.len() - k,
        {
            match decode_waypoint(ws[k], Ghost(wpts[k as int])) {
                Ok(w) => waypoints.push(w),
                Err(err) => {
                    assert(!point_valid(all_named(kids_of(m), "wpt"@)[k as int]));
                    return Err(err);
                },
            }
            k = k + 1;
        }
        let metadata = decode_metadata(e, Ghost(m));
        Ok(Gpx { tracks, waypoints, metadata })
    }

    /// Reads a document from XML text: the `trk`, `wpt` and `metadata`
    /// children of a `gpx` root. Fails on text that is not XML, on another
    /// root and on a point that cannot be read; never yields a partial
    /// document.
    pub fn try_from_str(s: &str) -> (r: Result<Gpx, DecodeError>)
        ensures
            r is Ok <==> (xml_tree(s@) matches Some(m) && gpx_valid(m)),
            r matches Ok(g) ==> gpx_decodes(xml_tree(s@)->0, g),
            xml_tree(s@) is None ==> r == Err::<Gpx, DecodeError>(DecodeError::Syntax),
            xml_tree(s@) matches Some(m) && name_of(m) != "gpx"@ ==> r == Err::<Gpx, DecodeError>(
                DecodeError::Root,
            ),
    {
        let cs = chars_of(s);
        match parse_document(cs.as_slice()) {
            Some(root) => {
                let ghost m = xml_tree(cs@)->0;
                Gpx::from_element(&root, Ghost(m))
            },
            None => Err(DecodeError::Syntax),
        }
    }
}

impl<'a> TryFrom<&'a str> for Gpx {
    type Error = DecodeError;

    /// Reads a document from XML text; `Gpx::try_from_str` states what it
    /// gives.
    fn try_from(s: &'a str) -> Result<Gpx, DecodeError> {
        Gpx::try_from_str(s)
    }
}

// A document is not a value that spec code can build, so these conversions
// give no spec form of their result; `try_from_str` and `to_xml` carry the
// contracts.
impl<'a> vstd::std_specs::convert::TryFromSpecImpl<&'a str> for Gpx {
    open spec fn obeys_try_from_spec() -> bool {
        false
    }

    open spec fn try_from_spec(s: &'a str) -> Result<Gpx, DecodeError> {
        Err(DecodeError::Syntax)
    }
}

impl From<Gpx> for String {
    /// The XML text of the document, as `Gpx::to_xml` writes it.
    fn from(g: Gpx) -> String {
        g.to_xml()
    }
}

impl vstd::std_specs::convert::FromSpecImpl<Gpx> for String {
    open spec fn obeys_from_spec() -> bool {
        false
    }

    open spec fn from_spec(g: Gpx) -> String {
        vstd::pervasive::arbitrary()
    }
}

impl<'a> From<&'a Gpx> for String {
    /// The XML text of the document, as `Gpx::to_xml` writes it.
    fn from(g: &'a Gpx) -> String {
        g.to_xml()
    }
}

impl<'a> vstd::std_specs::convert::FromSpecImpl<&'a Gpx> for String {
    open spec fn obeys_from_spec() -> bool {
        false
    }

    open spec fn from_spec(g: &'a Gpx) -> String {
        vstd::pervasive::arbitrary()
    }
}

/// The `ele` element of an elevation, with three decimal places.
pub open spec fn ele_xml(e: Option<i64>) -> Seq<char> {
    match e {
        Some(v) => "<ele>"@ + decimal_text(v as int, 0, 3) + "</ele>"@,
        None => Seq::empty(),
    }
}

pub open spec fn time_xml(t: Option<Timestamp>) -> Seq<char> {
    match t {
        Some(t) => "<time>"@ + rfc3339_text(t.unix_seconds(), t.subsec_nanos()) + "</time>"@,
        None => Seq::empty(),
    }
}

pub open spec fn name_xml(n: Option<String>) -> Seq<char> {
    match n {
        Some(n) => "<name>"@ + xml_escaped(n@) + "</name>"@,
        None => Seq::empty(),
    }
}

/// The coordinate attributes and the end of the start tag.
pub open spec fn coords_xml(lat: i64, lon: i64) -> Seq<char> {
    " lat=\""@ + decimal_text(lat as int, 0, 9) + "\" lon=\""@ + decimal_text(lon as int, 0, 9)
        + "\">"@
}

pub open spec fn point_xml(p: Point) -> Seq<char> {
    "<trkpt"@ + coords_xml(p.lat, p.lon) + ele_xml(p.elevation) + time_xml(p.time) + "</trkpt>"@
}

pub open spec fn points_xml(ps: Seq<Point>) -> Seq<char>
    decreases ps.len(),
{
    if ps.len() == 0 {
        Seq::empty()
    } else {
        points_xml(ps.drop_last()) + point_xml(ps.last())
    }
}

pub open spec fn segments_xml(ss: Seq<TrackSegment>) -> Seq<char>
    decreases ss.len(),
{
    if ss.len() == 0 {
        Seq::empty()
    } else {
        segments_xml(ss.drop_last()) + "<trkseg>"@ + points_xml(ss.last().points@)
            + "</trkseg>"@
    }
}

pub open spec fn tracks_xml(ts: Seq<Track>) -> Seq<char>
    decreases ts.len(),
{
    if ts.len() == 0 {
        Seq::empty()
    } else {
        tracks_xml(ts.drop_last()) + "<trk>"@ + name_xml(ts.last().name) + segments_xml(
            ts.last().segments@,
        ) + "</trk>"@
    }
}

pub open spec fn waypoint_xml(w: Waypoint) -> Seq<char> {
    "<wpt"@ + coords_xml(w.lat, w.lon) + name_xml(w.name) + ele_xml(w.elevation) + time_xml(
        w.time,
    ) + "</wpt>"@
}

pub open spec fn waypoints_xml(ws: Seq<Waypoint>) -> Seq<char>
    decreases ws.len(),
{
    if ws.len() == 0 {
        Seq::empty()
    } else {
        waypoints_xml(ws.drop_last()) + waypoint_xml(ws.last())
    }
}

pub open spec fn metadata_xml(m: Option<Metadata>) -> Seq<char> {
    match m {
        Some(md) => "<metadata>"@ + match md.time {
            Some(t) => "<time>"@ + xml_escaped(t@) + "</time>"@,
            None => Seq::empty(),
        } + "</metadata>"@,
        None => Seq::empty(),
    }
}

/// The XML text of a document: the declaration, then the `gpx` root with
/// version and creator, metadata, tracks and waypoints; absent values are
/// left out.
pub open spec fn gpx_xml(g: Gpx) -> Seq<char> {
    "<?xml version=\"1.0\" encoding=\"UTF-8\"?>\n<gpx version=\""@ + "1.1"@ + "\" creator=\""@
        + "gpx-extractor"@ + "\">"@ + metadata_xml(g.metadata) + tracks_xml(g.tracks@) + waypoints_xml(g.waypoints@)
        + "</gpx>"@
}

/// The GPX version written on the root element.
pub fn default_version() -> (r: String)
    ensures
        r@ == "1.1"@,
{
    String::from_str("1.1")
}

/// The creator written on the root element.
pub fn default_creator() -> (r: String)
    ensures
        r@ == "gpx-extractor"@,
{
    String::from_str("gpx-extractor")
}

fn push_string(out: &mut Vec<char>, s: &String)
    ensures
        final(out)@ == old(out)@ + s@,
{
    let cs = chars_of(s.as_str());
    push_chars(out, cs.as_slice());
}

fn push_escaped(out: &mut Vec<char>, s: &String)
    ensures
        final(out)@ == old(out)@ + xml_escaped(s@),
{
    let e = escape_text(s.as_str());
    push_string(out, &e);
}

fn push_ele(out: &mut Vec<char>, e: Option<i64>)
    ensures
        final(out)@ == old(out)@ + ele_xml(e),
{
    if let Some(v) = e {
        push_str(out, "<ele>");
        push_decimal(out, v, 0, 3);
        push_str(out, "</ele>");
    }
    assert(final(out)@ =~= old(out)@ + ele_xml(e));
}

fn push_time(out: &mut Vec<char>, t: Option<Timestamp>)
    ensures
        final(out)@ == old(out)@ + time_xml(t),
{
    if let Some(t) = t {
        push_str(out, "<time>");
        let text = t.to_rfc3339();
        push_string(out, &text);
        push_str(out, "</time>");
    }
    assert(final(out)@ =~= old(out)@ + time_xml(t));
}

fn push_name(out: &mut Vec<char>, n: &Option<String>)
    ensures
        final(out)@ == old(out)@ + name_xml(*n),
{
    if let Some(n) = n {
        push_str(out, "<name>");
        push_escaped(out, n);
        push_str(out, "</name>");
    }
    assert(final(out)@ =~= old(out)@ + name_xml(*n));
}

fn push_coords(out: &mut Vec<char>, lat: i64, lon: i64)
    ensures
        final(out)@ == old(out)@ + coords_xml(lat, lon),
{
    push_str(out, " lat=\"");
    push_decimal(out, lat, 0, 9);
    push_str(out, "\" lon=\"");
    push_decimal(out, lon, 0, 9);
    push_str(out, "\">");
    assert(final(out)@ =~= old(out)@ + coords_xml(lat, lon));
}

fn push_point(out: &mut Vec<char>, p: Point)
    ensures
        final(out)@ == old(out)@ + point_xml(p),
{
    push_str(out, "<trkpt");
    push_coords(out, p.lat, p.lon);
    push_ele(out, p.elevation);
    push_time(out, p.time);
    push_str(out, "</trkpt>");
    assert(final(out)@ =~= old(out)@ + point_xml(p));
}

fn push_waypoint(out: &mut Vec<char>, w: &Waypoint)
    ensures
        final(out)@ == old(out)@ + waypoint_xml(*w),
{
    push_str(out, "<wpt");
    push_coords(out, w.lat, w.lon);
    push_name(out, &w.name);
    push_ele(out, w.elevation);
    push_time(out, w.time);
    push_str(out, "</wpt>");
    assert(final(out)@ =~= old(out)@ + waypoint_xml(*w));
}

fn push_points(out: &mut Vec<char>, ps: &[Point])
    ensures
        final(out)@ == old(out)@ + points_xml(ps@),
{
    let mut i: usize = 0;
    while i < ps.len()
        invariant
            i <= ps@.len(),
            out@ == old(out)@ + points_xml(ps@.take(i as int)),
        decreases ps@.len() - i,
    {
        assert(ps@.take(i + 1).drop_last() =~= ps@.take(i as int));
        push_point(out, ps[i]);
        i = i + 1;
        assert(out@ =~= old(out)@ + points_xml(ps@.take(i as int)));
    }
    assert(ps@.take(i as int) =~= ps@);
}

fn push_segments(out: &mut Vec<char>, ss: &[TrackSegment])
    ensures
        final(out)@ == old(out)@ + segments_xml(ss@),
{
    let mut i: usize = 0;
    while i < ss.len()
        invariant
            i <= ss@.len(),
            out@ == old(out)@ + segments_xml(ss@.take(i as int)),
        decreases ss@.len() - i,
    {
        assert(ss@.take(i + 1).drop_last() =~= ss@.take(i as int));
        push_str(out, "<trkseg>");
        push_points(out, ss[i].points.as_slice());
        push_str(out, "</trkseg>");
        i = i + 1;
        assert(out@ =~= old(out)@ + segments_xml(ss@.take(i as int)));
    }
    assert(ss@.take(i as int) =~= ss@);
}

fn push_track(out: &mut Vec<char>, t: &Track)
    ensures
        final(out)@ == old(out)@ + "<trk>"@ + name_xml(t.name) + segments_xml(t.segments@) + "</trk>"@,
{
    push_str(out, "<trk>");
    push_name(out, &t.name);
    push_segments(out, t.segments.as_slice());
    push_str(out, "</trk>");
}

fn push_tracks(out: &mut Vec<char>, ts: &[Track])
    ensures
        final(out)@ == old(out)@ + tracks_xml(ts@),
{
    let mut i: usize = 0;
    while i < ts.len()
        invariant
            i <= ts@.len(),
            out@ == old(out)@ + tracks_xml(ts@.take(i as int)),
        decreases ts@.len() - i,
    {
        assert(ts@.take(i + 1).drop_last() =~= ts@.take(i as int));
        push_track(out, &ts[i]);
        i = i + 1;
        assert(out@ =~= old(out)@ + tracks_xml(ts@.take(i as int)));
    }
    assert(ts@.take(i as int) =~= ts@);
}

fn push_waypoints(out: &mut Vec<char>, ws: &[Waypoint])
    ensures
        final(out)@ == old(out)@ + waypoints_xml(ws@),
{
    let mut i: usize = 0;
    while i < ws.len()
        invariant
            i <= ws@.len(),
            out@ == old(out)@ + waypoints_xml(ws@.take(i as int)),
        decreases ws@.len() - i,
    {
        assert(ws@.take(i + 1).drop_last() =~= ws@.take(i as int));
        push_waypoint(out, &ws[i]);
        i = i + 1;
        assert(out@ =~= old(out)@ + waypoints_xml(ws@.take(i as int)));
    }
    assert(ws@.take(i as int) =~= ws@);
}

impl Gpx {
    /// The document as XML text, after an XML declaration; values that are
    /// absent are left out.
    pub fn to_xml(&self) -> (r: String)
        ensures
            r@ == gpx_xml(*self),
    {
        let mut out: Vec<char> = Vec::new();
        push_str(&mut out, "<?xml version=\"1.0\" encoding=\"UTF-8\"?>\n<gpx version=\"");
        push_string(&mut out, &default_version());
        push_str(&mut out, "\" creator=\"");
        push_string(&mut out, &default_creator());
        push_str(&mut out, "\">");
        if let Some(m) = &self.metadata {
            push_str(&mut out, "<metadata>");
            if let Some(t) = &m.time {
                push_str(&mut out, "<time>");
                push_escaped(&mut out, t);
                push_str(&mut out, "</time>");
            }
            push_str(&mut out, "</metadata>");
        }
        assert(out@ =~= "<?xml version=\"1.0\" encoding=\"UTF-8\"?>\n<gpx version=\""@ + "1.1"@
            + "\" creator=\""@ + "gpx-extractor"@ + "\">"@ + metadata_xml(self.metadata));
        push_tracks(&mut out, self.tracks.as_slice());
        push_waypoints(&mut out, self.waypoints.as_slice());
        push_str(&mut out, "</gpx>");
        assert(out@ =~= gpx_xml(*self));
        string_of(out.as_slice())
    }
}

} // verus!
