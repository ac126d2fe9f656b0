//! GeoJSON line features: the administrative boundaries of the session cache
//! and the generic polylines and polygons of the per-cell layers. A feature
//! arrives as the plain values its reader found (each property and the
//! geometry as present or absent); the rules for which features are kept
//! and how missing values default are stated and proved here.
use crate::json::{json_document, parse_json, JsonValue};
use crate::polyline::PointBits;
use crate::wkb::RawPoint;
use crate::tiles::bytes_equal;
use vstd::prelude::*;

verus! {

/// The geometry of a decoded feature. `kind` is the `type` string when it is
/// one; `coordinates` lists the entries of the coordinate array, each a point
/// when it is an array of two numbers (longitude first) and `None` otherwise;
/// `first_ring` lists the entries of the first ring of a polygon likewise.
pub struct RawGeometry<P> {
    pub kind: Option<String>,
    pub coordinates: Option<Vec<Option<P>>>,
    pub first_ring: Option<Vec<Option<P>>>,
}

/// The properties and geometry of a decoded feature, each as found.
pub struct RawFeature<P> {
    pub relation_id: Option<i64>,
    pub way_id: Option<i64>,
    pub admin_level: Option<u64>,
    pub name: Option<String>,
    pub class: Option<String>,
    pub geometry: Option<RawGeometry<P>>,
}

/// An administrative boundary line.
pub struct LoadedAdminBoundary {
    pub relation_id: i64,
    pub admin_level: u8,
    pub name: Option<String>,
    pub points: Vec<PointBits>,
}

/// The value of a boundary: relation, level, name and points.
pub type AdminBoundaryView = (i64, u8, Option<Seq<char>>, Seq<PointBits>);

/// The value of an optional string.
pub open spec fn opt_text(s: Option<String>) -> Option<Seq<char>> {
    match s {
        None => None,
        Some(t) => Some(t@),
    }
}

impl View for LoadedAdminBoundary {
    type V = AdminBoundaryView;

    open spec fn view(&self) -> AdminBoundaryView {
        (self.relation_id, self.admin_level, opt_text(self.name), self.points@)
    }
}

/// A generic polyline or polygon feature of a cell layer.
pub struct LoadedPolyline {
    pub way_id: i64,
    pub class: String,
    pub name: Option<String>,
    pub points: Vec<PointBits>,
    pub is_polygon: bool,
}

/// The value of a polyline: way, class, name, points and whether it is a polygon.
pub type PolylineView = (i64, Seq<char>, Option<Seq<char>>, Seq<PointBits>, bool);

impl View for LoadedPolyline {
    type V = PolylineView;

    open spec fn view(&self) -> PolylineView {
        (self.way_id, self.class@, opt_text(self.name), self.points@, self.is_polygon)
    }
}

/// The well-formed points of a coordinate list, in order.
pub open spec fn present_points(s: Seq<Option<PointBits>>) -> Seq<PointBits>
    decreases s.len(),
{
    if s.len() == 0 {
        Seq::empty()
    } else {
        let r = present_points(s.drop_last());
        match s.last() {
            Some(p) => r.push(p),
            None => r,
        }
    }
}

/// A name is kept only when it is not empty.
pub open spec fn kept_name(n: Option<String>) -> Option<Seq<char>> {
    match n {
        Some(t) => if t@.len() > 0 { Some(t@) } else { None },
        None => None,
    }
}

/// The geometry type, or the empty text when it has none.
pub open spec fn kind_text(g: RawGeometry<PointBits>) -> Seq<char> {
    match g.kind {
        Some(k) => k@,
        None => Seq::empty(),
    }
}

/// The boundary a feature of the file of `level` gives: only a LineString
/// with a coordinate array of at least two well-formed points is kept; the
/// relation defaults to 0 and the level to the file's (cut to 8 bits).
pub open spec fn admin_boundary_of(level: u8, f: RawFeature<PointBits>) -> Option<AdminBoundaryView> {
    match f.geometry {
        None => None,
        Some(g) => if kind_text(g) != "LineString"@ {
            None
        } else {
            match g.coordinates {
                None => None,
                Some(cs) => {
                    let pts = present_points(cs@);
                    if pts.len() < 2 {
                        None
                    } else {
                        Some(
                            (
                                match f.relation_id {
                                    Some(id) => id,
                                    None => 0,
                                },
                                (match f.admin_level {
                                    Some(l) => l,
                                    None => level as u64,
                                }) as u8,
                                kept_name(f.name),
                                pts,
                            ),
                        )
                    }
                },
            }
        },
    }
}

/// The boundaries of a file's features, in order.
pub open spec fn admin_boundaries_of(level: u8, fs: Seq<RawFeature<PointBits>>) -> Seq<AdminBoundaryView>
    decreases fs.len(),
{
    if fs.len() == 0 {
        Seq::empty()
    } else {
        let r = admin_boundaries_of(level, fs.drop_last());
        match admin_boundary_of(level, fs.last()) {
            Some(b) => r.push(b),
            None => r,
        }
    }
}

/// The values of a list of boundaries.
pub open spec fn boundary_views(s: Seq<LoadedAdminBoundary>) -> Seq<AdminBoundaryView> {
    Seq::new(s.len(), |i: int| s[i]@)
}

/// The polyline a feature of a cell file gives: a LineString's coordinates or
/// a Polygon's first ring, when present, with at least two well-formed
/// points. The way defaults to 0 and the class to the empty text.
pub open spec fn polyline_of(f: RawFeature<PointBits>) -> Option<PolylineView> {
    match f.geometry {
        None => None,
        Some(g) => {
            let is_polygon = kind_text(g) == "Polygon"@;
            let pts = if kind_text(g) == "LineString"@ {
                g.coordinates
            } else if is_polygon {
                g.first_ring
            } else {
                None
            };
            match pts {
                None => None,
                Some(cs) => if present_points(cs@).len() < 2 {
                    None
                } else {
                    Some(
                        (
                            match f.way_id {
                                Some(id) => id,
                                None => 0,
                            },
                            match f.class {
                                Some(c) => c@,
                                None => Seq::empty(),
                            },
                            kept_name(f.name),
                            present_points(cs@),
                            is_polygon,
                        ),
                    )
                },
            }
        },
    }
}

/// The polylines of a cell file's features, in order.
pub open spec fn polylines_of(fs: Seq<RawFeature<PointBits>>) -> Seq<PolylineView>
    decreases fs.len(),
{
    if fs.len() == 0 {
        Seq::empty()
    } else {
        let r = polylines_of(fs.drop_last());
        match polyline_of(fs.last()) {
            Some(p) => r.push(p),
            None => r,
        }
    }
}

/// The values of a list of polylines.
pub open spec fn polyline_views(s: Seq<LoadedPolyline>) -> Seq<PolylineView> {
    Seq::new(s.len(), |i: int| s[i]@)
}

/// The well-formed points of a coordinate list, in order.
pub fn collect_points(cs: &Vec<Option<PointBits>>) -> (r: Vec<PointBits>)
    ensures
        r@ == present_points(cs@),
{
    let mut out: Vec<PointBits> = Vec::new();
    let mut i: usize = 0;
    while i < cs.len()
        invariant
            i <= cs@.len(),
            out@ == present_points(cs@.take(i as int)),
        decreases cs@.len() - i,
    {
        assert(cs@.take(i + 1).drop_last() =~= cs@.take(i as int));
        match cs[i] {
            Some(p) => out.push(p),
            None => {},
        }
        i = i + 1;
    }
    assert(cs@.take(cs@.len() as int) =~= cs@);
    out
}

fn copy_points(ps: &Vec<PointBits>) -> (r: Vec<PointBits>)
    ensures
        r@ == ps@,
{
    let mut out: Vec<PointBits> = Vec::new();
    let mut i: usize = 0;
    while i < ps.len()
        invariant
            i <= ps@.len(),
            out@ == ps@.take(i as int),
        decreases ps@.len() - i,
    {
        out.push(ps[i]);
        i = i + 1;
        assert(out@ =~= ps@.take(i as int));
    }
    assert(ps@.take(ps@.len() as int) =~= ps@);
    out
}

fn copy_text(s: &String) -> (r: String)
    ensures
        r@ == s@,
{
    s.clone()
}

/// The name when present and not empty.
fn keep_name(n: &Option<String>) -> (r: Option<String>)
    ensures
        opt_text(r) == kept_name(*n),
{
    match n {
        Some(t) => if t.as_str().is_empty() {
            None
        } else {
            Some(copy_text(t))
        },
        None => None,
    }
}

/// The geometry type, or the empty text when it has none.
fn kind_of(g: &RawGeometry<PointBits>) -> (r: String)
    ensures
        r@ == kind_text(*g),
{
    match &g.kind {
        Some(k) => copy_text(k),
        None => String::new(),
    }
}

fn is_text(s: &String, lit: &str) -> (r: bool)
    ensures
        r == (s@ == lit@),
{
    let t: String = lit.to_owned();
    *s == t
}

/// The boundary one feature of the file of `level` gives, if it is kept.
pub fn admin_boundary_from_feature(level: u8, f: &RawFeature<PointBits>) -> (r: Option<LoadedAdminBoundary>)
    ensures
        match r {
            None => admin_boundary_of(level, *f) is None,
            Some(b) => admin_boundary_of(level, *f) == Some(b@),
        },
{
    let g: &RawGeometry<PointBits> = match &f.geometry {
        None => return None,
        Some(g) => g,
    };
    let kind: String = kind_of(g);
    if !is_text(&kind, "LineString") {
        return None;
    }
    let cs: &Vec<Option<PointBits>> = match &g.coordinates {
        None => return None,
        Some(cs) => cs,
    };
    let points: Vec<PointBits> = collect_points(cs);
    if points.len() < 2 {
        return None;
    }
    let relation_id: i64 = match f.relation_id {
        Some(id) => id,
        None => 0,
    };
    let level_prop: u64 = match f.admin_level {
        Some(l) => l,
        None => level as u64,
    };
    Some(
        LoadedAdminBoundary {
            relation_id,
            admin_level: level_prop as u8,
            name: keep_name(&f.name),
            points,
        },
    )
}

/// The boundaries of one level's file, in feature order.
pub fn admin_boundaries_from_features(level: u8, features: &Vec<RawFeature<PointBits>>) -> (r: Vec<LoadedAdminBoundary>)
    ensures
        boundary_views(r@) == admin_boundaries_of(level, features@),
{
    let mut out: Vec<LoadedAdminBoundary> = Vec::new();
    let mut i: usize = 0;
    while i < features.len()
        invariant
            i <= features@.len(),
            boundary_views(out@) == admin_boundaries_of(level, features@.take(i as int)),
        decreases features@.len() - i,
    {
        assert(features@.take(i + 1).drop_last() =~= features@.take(i as int));
        let ghost before = out@;
        match admin_boundary_from_feature(level, &features[i]) {
            Some(b) => {
                out.push(b);
                assert(boundary_views(out@) =~= boundary_views(before).push(out@.last()@));
            },
            None => {},
        }
        i = i + 1;
    }
    assert(features@.take(features@.len() as int) =~= features@);
    out
}

/// The polyline one feature of a cell file gives, if it is kept.
pub fn polyline_from_feature(f: &RawFeature<PointBits>) -> (r: Option<LoadedPolyline>)
    ensures
        match r {
            None => polyline_of(*f) is None,
            Some(p) => polyline_of(*f) == Some(p@),
        },
{
    let g: &RawGeometry<PointBits> = match &f.geometry {
        None => return None,
        Some(g) => g,
    };
    let kind: String = kind_of(g);
    let is_polygon: bool = is_text(&kind, "Polygon");
    let cs: &Vec<Option<PointBits>> = if is_text(&kind, "LineString") {
        match &g.coordinates {
            None => return None,
            Some(cs) => cs,
        }
    } else if is_polygon {
        match &g.first_ring {
            None => return None,
            Some(cs) => cs,
        }
    } else {
        return None;
    };
    let points: Vec<PointBits> = collect_points(cs);
    if points.len() < 2 {
        return None;
    }
    let way_id: i64 = match f.way_id {
        Some(id) => id,
        None => 0,
    };
    let class: String = match &f.class {
        Some(c) => copy_text(c),
        None => String::new(),
    };
    Some(LoadedPolyline { way_id, class, name: keep_name(&f.name), points, is_polygon })
}

/// The polylines of one cell file, in feature order.
pub fn polylines_from_features(features: &Vec<RawFeature<PointBits>>) -> (r: Vec<LoadedPolyline>)
    ensures
        polyline_views(r@) == polylines_of(features@),
{
    let mut out: Vec<LoadedPolyline> = Vec::new();
    let mut i: usize = 0;
    while i < features.len()
        invariant
            i <= features@.len(),
            polyline_views(out@) == polylines_of(features@.take(i as int)),
        decreases features@.len() - i,
    {
        assert(features@.take(i + 1).drop_last() =~= features@.take(i as int));
        let ghost before = out@;
        match polyline_from_feature(&features[i]) {
            Some(p) => {
                out.push(p);
                assert(polyline_views(out@) =~= polyline_views(before).push(out@.last()@));
            },
            None => {},
        }
        i = i + 1;
    }
    assert(features@.take(features@.len() as int) =~= features@);
    out
}

/// A copy of a boundary with the same value.
pub fn copy_boundary(b: &LoadedAdminBoundary) -> (r: LoadedAdminBoundary)
    ensures
        r@ == b@,
{
    let name: Option<String> = match &b.name {
        Some(t) => Some(copy_text(t)),
        None => None,
    };
    LoadedAdminBoundary {
        relation_id: b.relation_id,
        admin_level: b.admin_level,
        name,
        points: copy_points(&b.points),
    }
}

/// The session cache of administrative boundaries and the data root they
/// were loaded from.
pub struct AdminCache {
    pub loaded_root: Option<Vec<u8>>,
    pub boundaries: Vec<LoadedAdminBoundary>,
}

/// The boundaries were not loaded from `root`.
pub open spec fn admin_needs_load(loaded_root: Option<Vec<u8>>, root: Seq<u8>) -> bool {
    match loaded_root {
        None => true,
        Some(r) => r@ != root,
    }
}

impl AdminCache {
    /// Nothing loaded.
    pub fn new() -> (r: AdminCache)
        ensures
            r.loaded_root is None,
            r.boundaries@.len() == 0,
    {
        AdminCache { loaded_root: None, boundaries: Vec::new() }
    }

    /// Whether the boundaries must be read from `cache_root` first (on the
    /// first call and whenever the root changes). Roots are compared as the
    /// bytes of their normal form, one separator between components, so two
    /// spellings of one path are one root.
    pub fn needs_load(&self, cache_root: &Vec<u8>) -> (r: bool)
        ensures
            r == admin_needs_load(self.loaded_root, cache_root@),
    {
        match &self.loaded_root {
            None => true,
            Some(r) => !bytes_equal(r, cache_root),
        }
    }

    /// All boundaries of `cache_root`, copied out of the cache. When the
    /// cache was not loaded from that root, the boundaries just read from it
    /// (`loaded`) replace the cache first.
    pub fn get_or_load_admin_boundaries(&mut self, cache_root: &Vec<u8>, loaded: Option<Vec<LoadedAdminBoundary>>) -> (r: Vec<LoadedAdminBoundary>)
        requires
            admin_needs_load(old(self).loaded_root, cache_root@) ==> loaded is Some,
        ensures
            admin_needs_load(old(self).loaded_root, cache_root@) ==> (final(self).boundaries
                == loaded->0 && (final(self).loaded_root matches Some(lr) && lr@ == cache_root@)),
            !admin_needs_load(old(self).loaded_root, cache_root@) ==> *final(self) == *old(self),
            boundary_views(r@) == boundary_views(final(self).boundaries@),
    {
        if self.needs_load(cache_root) {
            match loaded {
                Some(b) => {
                    self.boundaries = b;
                    self.loaded_root = Some(cache_root.clone());
                    assert(self.loaded_root->0@ =~= cache_root@);
                },
                None => {},
            }
        }
        let mut out: Vec<LoadedAdminBoundary> = Vec::new();
        let mut i: usize = 0;
        while i < self.boundaries.len()
            invariant
                i <= self.boundaries@.len(),
                out@.len() == i,
                boundary_views(out@) == boundary_views(self.boundaries@.take(i as int)),
            decreases self.boundaries@.len() - i,
        {
            let b: LoadedAdminBoundary = copy_boundary(&self.boundaries[i]);
            let ghost before = out@;
            out.push(b);
            proof {
                let all = self.boundaries@;
                assert forall|k: int| 0 <= k < out@.len() implies #[trigger] boundary_views(out@)[k]
                    == boundary_views(all.take(i + 1))[k] by {
                    if k < i {
                        assert(out@[k] == before[k]);
                        assert(boundary_views(before)[k] == boundary_views(all.take(i as int))[k]);
                    }
                }
                assert(boundary_views(out@) =~= boundary_views(all.take(i + 1)));
            }
            i = i + 1;
        }
        assert(self.boundaries@.take(self.boundaries@.len() as int) =~= self.boundaries@);
        out
    }
}


/// The value of a geometry: its type text and its two coordinate lists.
pub type GeometryView<P> = (Option<Seq<char>>, Option<Seq<Option<P>>>, Option<Seq<Option<P>>>);

/// The value of a feature: relation, way, level, name, class and geometry.
pub type FeatureView<P> = (Option<i64>, Option<i64>, Option<u64>, Option<Seq<char>>, Option<Seq<char>>, Option<
    GeometryView<P>,
>);

/// The value of an optional list.
pub open spec fn opt_seq<T>(o: Option<Vec<T>>) -> Option<Seq<T>> {
    match o {
        None => None,
        Some(v) => Some(v@),
    }
}

/// The value of a geometry.
pub open spec fn geometry_view<P>(g: RawGeometry<P>) -> GeometryView<P> {
    (opt_text(g.kind), opt_seq(g.coordinates), opt_seq(g.first_ring))
}

/// The value of a feature.
pub open spec fn feature_view<P>(f: RawFeature<P>) -> FeatureView<P> {
    (
        f.relation_id,
        f.way_id,
        f.admin_level,
        opt_text(f.name),
        opt_text(f.class),
        match f.geometry {
            None => None,
            Some(g) => Some(geometry_view(g)),
        },
    )
}

/// The values of a list of features.
pub open spec fn feature_views<P>(s: Seq<RawFeature<P>>) -> Seq<FeatureView<P>> {
    Seq::new(s.len(), |i: int| feature_view(s[i]))
}

/// The value of the first member of `m` named `key`.
pub open spec fn member(m: Seq<(String, JsonValue)>, key: Seq<char>) -> Option<JsonValue>
    decreases m.len(),
{
    if m.len() == 0 {
        None
    } else if m[0].0@ == key {
        Some(m[0].1)
    } else {
        member(m.drop_first(), key)
    }
}

/// The member `key` of an object (nothing for anything else).
pub open spec fn json_field(v: Option<JsonValue>, key: Seq<char>) -> Option<JsonValue> {
    match v {
        Some(JsonValue::Object(m)) => member(m@, key),
        _ => None,
    }
}

/// The elements of an array.
pub open spec fn json_items(v: Option<JsonValue>) -> Option<Seq<JsonValue>> {
    match v {
        Some(JsonValue::Array(a)) => Some(a@),
        _ => None,
    }
}

/// The first element of an array.
pub open spec fn json_first(v: Option<JsonValue>) -> Option<JsonValue> {
    match json_items(v) {
        Some(a) => if a.len() > 0 {
            Some(a[0])
        } else {
            None
        },
        None => None,
    }
}

/// A string's text.
pub open spec fn json_text(v: Option<JsonValue>) -> Option<Seq<char>> {
    match v {
        Some(JsonValue::Text(t)) => Some(t@),
        _ => None,
    }
}

/// A number as an `i64`, when it is one.
pub open spec fn json_i64(v: Option<JsonValue>) -> Option<i64> {
    match v {
        Some(JsonValue::Number(n)) => n.as_i64,
        _ => None,
    }
}

/// A number as a `u64`, when it is one.
pub open spec fn json_u64(v: Option<JsonValue>) -> Option<u64> {
    match v {
        Some(JsonValue::Number(n)) => n.as_u64,
        _ => None,
    }
}

/// The bits of the `f64` a number reads as.
pub open spec fn json_f64_bits(v: Option<JsonValue>) -> Option<u64> {
    match v {
        Some(JsonValue::Number(n)) => n.f64_bits,
        _ => None,
    }
}

/// A coordinate `[lon, lat, ...]`: an array whose first two elements are
/// numbers.
pub open spec fn json_point(v: JsonValue) -> Option<RawPoint> {
    match json_items(Some(v)) {
        Some(a) => if a.len() >= 2 {
            match (json_f64_bits(Some(a[0])), json_f64_bits(Some(a[1]))) {
                (Some(lon), Some(lat)) => Some(RawPoint { lon_bits: lon, lat_bits: lat }),
                _ => None,
            }
        } else {
            None
        },
        None => None,
    }
}

/// The entries of a coordinate array, each as a point when it is one.
pub open spec fn json_points(v: Option<JsonValue>) -> Option<Seq<Option<RawPoint>>> {
    match json_items(v) {
        Some(a) => Some(Seq::new(a.len(), |i: int| json_point(a[i]))),
        None => None,
    }
}

/// The geometry a GeoJSON geometry object gives: its `type` text, its
/// `coordinates` entries, and the entries of the first of them (a polygon's
/// outer ring).
pub open spec fn json_geometry(g: JsonValue) -> GeometryView<RawPoint> {
    let coordinates = json_field(Some(g), "coordinates"@);
    (json_text(json_field(Some(g), "type"@)), json_points(coordinates), json_points(json_first(coordinates)))
}

/// The feature a GeoJSON feature object gives: `relation_id`, `way_id`,
/// `admin_level`, `name` and `class` of its `properties` where they have the
/// right kind, and its `geometry` when it has one.
pub open spec fn json_feature(f: JsonValue) -> FeatureView<RawPoint> {
    let props = json_field(Some(f), "properties"@);
    (
        json_i64(json_field(props, "relation_id"@)),
        json_i64(json_field(props, "way_id"@)),
        json_u64(json_field(props, "admin_level"@)),
        json_text(json_field(props, "name"@)),
        json_text(json_field(props, "class"@)),
        match json_field(Some(f), "geometry"@) {
            Some(g) => Some(json_geometry(g)),
            None => None,
        },
    )
}

/// The features of a GeoJSON feature collection: each element of its
/// `features` array, or nothing when it has no such array.
pub open spec fn feature_collection(doc: JsonValue) -> Option<Seq<FeatureView<RawPoint>>> {
    match json_items(json_field(Some(doc), "features"@)) {
        Some(a) => Some(Seq::new(a.len(), |i: int| json_feature(a[i]))),
        None => None,
    }
}

/// The referenced value, if any.
pub open spec fn deref_value(o: Option<&JsonValue>) -> Option<JsonValue> {
    match o {
        Some(v) => Some(*v),
        None => None,
    }
}

/// The member `key` of `v`, when `v` is an object that has one.
pub fn field<'a>(v: Option<&'a JsonValue>, key: &str) -> (r: Option<&'a JsonValue>)
    ensures
        deref_value(r) == json_field(deref_value(v), key@),
{
    let m: &Vec<(String, JsonValue)> = match v {
        Some(JsonValue::Object(m)) => m,
        _ => return None,
    };
    assert(json_field(deref_value(v), key@) == member(m@, key@));
    let k: String = key.to_owned();
    let mut i: usize = 0;
    assert(m@.skip(0) =~= m@);
    while i < m.len()
        invariant
            i <= m@.len(),
            k@ == key@,
            json_field(deref_value(v), key@) == member(m@, key@),
            member(m@, key@) == member(m@.skip(i as int), key@),
        decreases m@.len() - i,
    {
        assert(m@.skip(i as int).drop_first() =~= m@.skip(i + 1));
        assert(m@.skip(i as int)[0] == m@[i as int]);
        if m[i].0 == k {
            assert(m@[i as int].0@ == key@);
            assert(member(m@.skip(i as int), key@) == Some(m@[i as int].1));
            return Some(&m[i].1);
        }
        i = i + 1;
    }
    None
}

fn items<'a>(v: Option<&'a JsonValue>) -> (r: Option<&'a Vec<JsonValue>>)
    ensures
        match r {
            None => json_items(deref_value(v)) is None,
            Some(a) => json_items(deref_value(v)) == Some(a@),
        },
{
    match v {
        Some(JsonValue::Array(a)) => Some(a),
        _ => None,
    }
}

fn text(v: Option<&JsonValue>) -> (r: Option<String>)
    ensures
        opt_text(r) == json_text(deref_value(v)),
{
    match v {
        Some(JsonValue::Text(t)) => Some(copy_text(t)),
        _ => None,
    }
}

fn number(v: Option<&JsonValue>) -> (r: (Option<i64>, Option<u64>, Option<u64>))
    ensures
        r == (json_i64(deref_value(v)), json_u64(deref_value(v)), json_f64_bits(deref_value(v))),
{
    match v {
        Some(JsonValue::Number(n)) => (n.as_i64, n.as_u64, n.f64_bits),
        _ => (None, None, None),
    }
}

fn point(v: &JsonValue) -> (r: Option<RawPoint>)
    ensures
        r == json_point(*v),
{
    let a: &Vec<JsonValue> = match items(Some(v)) {
        Some(a) => a,
        None => return None,
    };
    if a.len() < 2 {
        return None;
    }
    let lon: u64 = match number(Some(&a[0])).2 {
        Some(x) => x,
        None => return None,
    };
    let lat: u64 = match number(Some(&a[1])).2 {
        Some(x) => x,
        None => return None,
    };
    Some(RawPoint { lon_bits: lon, lat_bits: lat })
}

fn points(v: Option<&JsonValue>) -> (r: Option<Vec<Option<RawPoint>>>)
    ensures
        opt_seq(r) == json_points(deref_value(v)),
{
    let a: &Vec<JsonValue> = match items(v) {
        Some(a) => a,
        None => return None,
    };
    let mut out: Vec<Option<RawPoint>> = Vec::new();
    let mut i: usize = 0;
    while i < a.len()
        invariant
            i <= a@.len(),
            out@ =~= Seq::new(i as nat, |k: int| json_point(a@[k])),
        decreases a@.len() - i,
    {
        out.push(point(&a[i]));
        i = i + 1;
    }
    Some(out)
}

/// The geometry a GeoJSON geometry object gives (see [`json_geometry`]).
pub fn geometry_of_json(g: &JsonValue) -> (r: RawGeometry<RawPoint>)
    ensures
        geometry_view(r) == json_geometry(*g),
{
    let coordinates: Option<&JsonValue> = field(Some(g), "coordinates");
    let first: Option<&JsonValue> = match items(coordinates) {
        Some(a) => if a.len() > 0 {
            Some(&a[0])
        } else {
            None
        },
        None => None,
    };
    RawGeometry {
        kind: text(field(Some(g), "type")),
        coordinates: points(coordinates),
        first_ring: points(first),
    }
}

/// The feature a GeoJSON feature object gives (see [`json_feature`]).
pub fn feature_of_json(f: &JsonValue) -> (r: RawFeature<RawPoint>)
    ensures
        feature_view(r) == json_feature(*f),
{
    let props: Option<&JsonValue> = field(Some(f), "properties");
    let geometry: Option<RawGeometry<RawPoint>> = match field(Some(f), "geometry") {
        Some(g) => Some(geometry_of_json(g)),
        None => None,
    };
    RawFeature {
        relation_id: number(field(props, "relation_id")).0,
        way_id: number(field(props, "way_id")).0,
        admin_level: number(field(props, "admin_level")).1,
        name: text(field(props, "name")),
        class: text(field(props, "class")),
        geometry,
    }
}

/// The features of a parsed GeoJSON feature collection (see
/// [`feature_collection`]).
pub fn features_of_json(doc: &JsonValue) -> (r: Option<Vec<RawFeature<RawPoint>>>)
    ensures
        match r {
            None => feature_collection(*doc) is None,
            Some(fs) => feature_collection(*doc) == Some(feature_views(fs@)),
        },
{
    let a: &Vec<JsonValue> = match items(field(Some(doc), "features")) {
        Some(a) => a,
        None => return None,
    };
    let mut out: Vec<RawFeature<RawPoint>> = Vec::new();
    let mut i: usize = 0;
    while i < a.len()
        invariant
            i <= a@.len(),
            out@.len() == i,
            feature_views(out@) =~= Seq::new(i as nat, |k: int| json_feature(a@[k])),
        decreases a@.len() - i,
    {
        let f: RawFeature<RawPoint> = feature_of_json(&a[i]);
        let ghost before = out@;
        out.push(f);
        assert forall|k: int| 0 <= k < i + 1 implies #[trigger] feature_views(out@)[k] == json_feature(a@[k]) by {
            if k < i {
                assert(out@[k] == before[k]);
                assert(feature_views(before)[k] == json_feature(a@[k]));
            }
        }
        assert(feature_views(out@) =~= Seq::new((i + 1) as nat, |k: int| json_feature(a@[k])));
        i = i + 1;
    }
    Some(out)
}

/// The features of the text of a GeoJSON file: nothing when it does not
/// parse as JSON or has no `features` array, else each feature as found.
pub fn parse_feature_collection(text: &str) -> (r: Option<Vec<RawFeature<RawPoint>>>)
    ensures
        match json_document(text@) {
            None => r is None,
            Some(doc) => match r {
                None => feature_collection(doc) is None,
                Some(fs) => feature_collection(doc) == Some(feature_views(fs@)),
            },
        },
{
    match parse_json(text) {
        Some(doc) => features_of_json(&doc),
        None => None,
    }
}

} // verus!
