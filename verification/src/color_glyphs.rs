//! Splitting glyphs that are painted in several colors into one glyph per
//! color, and finding the paint of each.

use crate::glyphs_source;
use crate::glyphs_source::{
    AttributesView, Color, ColorStop, Font, Glyph, GlyphView, Gradient, Layer, LayerAttributes,
    LayerView, Shape, ShapeAttributes, ShapeView,
};
use crate::coords::Real;
use crate::instance::BadGlyph;
use crate::text;
use indexmap::IndexMap;
use vstd::prelude::*;
use vstd::string::*;

verus! {

/// The map of `indexmap` that keeps its keys in the order they came.
#[verifier::external_type_specification]
#[verifier::external_body]
#[verifier::reject_recursive_types(K)]
#[verifier::reject_recursive_types(V)]
#[verifier::reject_recursive_types(S)]
pub struct ExIndexMap<K, V, S>(indexmap::IndexMap<K, V, S>);

/// The keys of a map and their lists, in the order the keys came.
pub uninterp spec fn color_entries(map: IndexMap<String, Vec<String>>) -> Seq<
    (Seq<char>, Seq<Seq<char>>),
>;

/// The index of the first entry under a name.
pub open spec fn entry_at(
    entries: Seq<(Seq<char>, Seq<Seq<char>>)>,
    name: Seq<char>,
) -> Option<int>
    decreases entries.len(),
{
    if entries.len() == 0 {
        None
    } else {
        match entry_at(entries.drop_last(), name) {
            Some(i) => Some(i),
            None => if entries.last().0 == name {
                Some(entries.len() - 1)
            } else {
                None
            },
        }
    }
}

/// What stands under a name, nothing if there is no entry.
pub open spec fn listed_under(
    entries: Seq<(Seq<char>, Seq<Seq<char>>)>,
    name: Seq<char>,
) -> Seq<Seq<char>> {
    match entry_at(entries, name) {
        Some(i) => entries[i].1,
        None => seq![],
    }
}

/// Entries once one is set: in place of what stands there, or at the end.
pub open spec fn with_entry(
    entries: Seq<(Seq<char>, Seq<Seq<char>>)>,
    name: Seq<char>,
    list: Seq<Seq<char>>,
) -> Seq<(Seq<char>, Seq<Seq<char>>)> {
    match entry_at(entries, name) {
        Some(i) => entries.update(i, (name, list)),
        None => entries.push((name, list)),
    }
}

/// `IndexMap::new`: a map with no entries.
#[verifier::external_body]
fn no_entries() -> (r: IndexMap<String, Vec<String>>)
    ensures
        color_entries(r) == Seq::<(Seq<char>, Seq<Seq<char>>)>::empty(),
{
    IndexMap::new()
}

/// `IndexMap::entry`, then `Entry::or_default`: the list under a name, to be
/// changed in place. A name that has none yet gets an empty one, at the end.
#[verifier::external_body]
fn entry_or_default<'a>(map: &'a mut IndexMap<String, Vec<String>>, name: &String) -> (r:
    &'a mut Vec<String>)
    ensures
        text::texts(r@) == listed_under(color_entries(*old(map)), name@),
        color_entries(*final(map)) == with_entry(
            color_entries(*old(map)),
            name@,
            text::texts(final(r)@),
        ),
{
    map.entry(name.clone()).or_default()
}

/// Add names to the list of a glyph.
fn list_names(map: &mut IndexMap<String, Vec<String>>, glyph: &String, names: &mut Vec<String>)
    ensures
        color_entries(*final(map)) == with_entry(
            color_entries(*old(map)),
            glyph@,
            listed_under(color_entries(*old(map)), glyph@) + text::texts(old(names)@),
        ),
{
    let ghost more = names@;
    let list: &mut Vec<String> = entry_or_default(map, glyph);
    let ghost before = list@;
    list.append(names);
    assert(text::texts(list@) =~= text::texts(before) + text::texts(more));
}

/// What makes two paints the same. Where a gradient is matters; of its style,
/// only whether it is a circle.
pub enum PaintKey {
    NonColor,
    Solid(Color),
    Linear(Seq<Real>, Seq<Real>, Seq<ColorStop>),
    Radial(Seq<Real>, Seq<Real>, Seq<ColorStop>),
    Unknown,
}

/// The paint of a shape on a layer that has color or hasn't.
pub open spec fn key_for(color: bool, attributes: AttributesView) -> PaintKey {
    if !color {
        PaintKey::NonColor
    } else {
        match attributes.gradient {
            Some(gradient) => if gradient.style == "circle"@ {
                PaintKey::Radial(gradient.start, gradient.end, gradient.colors)
            } else {
                PaintKey::Linear(gradient.start, gradient.end, gradient.colors)
            },
            None => match attributes.fill_color {
                Some(fill) => PaintKey::Solid(fill),
                None => PaintKey::Unknown,
            },
        }
    }
}

/// How a shape is painted.
pub open spec fn paint_of(shape: ShapeView) -> AttributesView {
    match shape {
        ShapeView::Path { attributes, .. } => attributes,
        ShapeView::Component { attributes, .. } => attributes,
    }
}

/// The paints of the shapes of a layer.
pub open spec fn keys_of(layer: LayerView) -> Seq<PaintKey> {
    layer.shapes.map_values(|s: ShapeView| key_for(layer.attributes.color, paint_of(s)))
}

/// Runs of the same paint among the first `n` shapes, each from one index to
/// another.
pub open spec fn runs_of(keys: Seq<PaintKey>, n: int) -> Seq<(int, int)>
    decreases n,
{
    if n <= 0 {
        seq![]
    } else {
        let rest = runs_of(keys, n - 1);
        if rest.len() > 0 && keys[rest.last().0] == keys[n - 1] {
            rest.drop_last().push((rest.last().0, n))
        } else {
            rest.push((n - 1, n))
        }
    }
}

fn same_reals(a: &Vec<Real>, b: &Vec<Real>) -> (r: bool)
    ensures
        r == (a@ == b@),
{
    if a.len() != b.len() {
        return false;
    }
    let mut i: usize = 0;
    while i < a.len()
        invariant
            i <= a@.len(),
            a@.len() == b@.len(),
            forall|j: int| 0 <= j < i ==> a@[j] == b@[j],
        decreases a.len() - i,
    {
        if a[i] != b[i] {
            return false;
        }
        i = i + 1;
    }
    assert(a@ =~= b@);
    true
}

fn same_stops(a: &Vec<ColorStop>, b: &Vec<ColorStop>) -> (r: bool)
    ensures
        r == (a@ == b@),
{
    if a.len() != b.len() {
        return false;
    }
    let mut i: usize = 0;
    while i < a.len()
        invariant
            i <= a@.len(),
            a@.len() == b@.len(),
            forall|j: int| 0 <= j < i ==> a@[j] == b@[j],
        decreases a.len() - i,
    {
        if a[i] != b[i] {
            return false;
        }
        i = i + 1;
    }
    assert(a@ =~= b@);
    true
}

fn is_circle(gradient: &Gradient) -> (r: bool)
    ensures
        r == (gradient.style@ == "circle"@),
{
    text::same(gradient.style.as_str(), "circle")
}

/// Whether two shapes of one layer are painted alike.
fn same_paint(color: bool, a: &ShapeAttributes, b: &ShapeAttributes) -> (r: bool)
    ensures
        r == (key_for(color, a@) == key_for(color, b@)),
{
    if !color {
        return true;
    }
    match (&a.gradient, &b.gradient) {
        (Some(a), Some(b)) => is_circle(a) == is_circle(b) && same_reals(&a.start, &b.start)
            && same_reals(&a.end, &b.end) && same_stops(&a.colors, &b.colors),
        (None, None) => match (a.fill_color, b.fill_color) {
            (Some(a), Some(b)) => a == b,
            (None, None) => true,
            _ => false,
        },
        _ => false,
    }
}

/// Runs as numbers.
pub open spec fn run_ends(runs: Seq<(usize, usize)>) -> Seq<(int, int)> {
    runs.map_values(|r: (usize, usize)| (r.0 as int, r.1 as int))
}

/// Split the shapes of a layer into runs of the same paint.
fn find_runs(layer: &Layer) -> (r: Vec<(usize, usize)>)
    ensures
        run_ends(r@) == runs_of(keys_of(layer@), layer.shapes@.len() as int),
{
    let ghost keys = keys_of(layer@);
    let mut runs: Vec<(usize, usize)> = Vec::new();
    let mut i: usize = 0;
    assert(run_ends(runs@) =~= runs_of(keys, 0));
    while i < layer.shapes.len()
        invariant
            i <= layer.shapes@.len(),
            keys == keys_of(layer@),
            run_ends(runs@) == runs_of(keys, i as int),
            forall|k: int| 0 <= k < runs@.len() ==> (#[trigger] runs@[k]).0 < i,
        decreases layer.shapes.len() - i,
    {
        let count: usize = runs.len();
        let ghost before = runs@;
        assert(keys[i as int] == key_for(
            layer.attributes.color,
            layer.shapes@[i as int].paint(),
        ));
        let extends: bool = if count > 0 {
            let start: usize = runs[count - 1].0;
            assert(run_ends(runs@).last() == (
                runs@[count - 1].0 as int,
                runs@[count - 1].1 as int,
            ));
            assert(keys[start as int] == key_for(
                layer.attributes.color,
                layer.shapes@[start as int].paint(),
            ));
            same_paint(
                layer.attributes.color,
                layer.shapes[start].attributes(),
                layer.shapes[i].attributes(),
            )
        } else {
            false
        };
        if extends {
            let start: usize = runs[count - 1].0;
            runs.set(count - 1, (start, i + 1));
            assert(run_ends(runs@) =~= run_ends(before).drop_last().push((start as int, i + 1)));
        } else {
            runs.push((i, i + 1));
            assert(run_ends(runs@) =~= run_ends(before).push((i as int, i + 1)));
        }
        i = i + 1;
    }
    runs
}

/// The runs of a layer follow one another without a gap from the first shape to
/// the last, none of them empty.
pub proof fn law_runs_cover_all_shapes(keys: Seq<PaintKey>, n: int, i: int)
    requires
        0 <= n <= keys.len(),
    ensures
        n > 0 ==> runs_of(keys, n).len() > 0 && runs_of(keys, n)[0].0 == 0 && runs_of(keys, n).last().1
            == n,
        0 <= i < runs_of(keys, n).len() ==> 0 <= runs_of(keys, n)[i].0 < runs_of(keys, n)[i].1 <= n,
        0 <= i && i + 1 < runs_of(keys, n).len() ==> runs_of(keys, n)[i].1 == runs_of(
            keys,
            n,
        )[i + 1].0,
    decreases n,
{
    if n > 0 {
        let rest = runs_of(keys, n - 1);
        law_runs_cover_all_shapes(keys, n - 1, i);
        law_runs_cover_all_shapes(keys, n - 1, i - 1);
        law_runs_cover_all_shapes(keys, n - 1, rest.len() - 1);
    }
}

/// All shapes of a run are painted alike, and the first of the next run is
/// not.
pub proof fn law_runs_are_of_one_paint(keys: Seq<PaintKey>, n: int, i: int, k: int)
    requires
        0 <= n <= keys.len(),
        0 <= i < runs_of(keys, n).len(),
    ensures
        runs_of(keys, n)[i].0 <= k < runs_of(keys, n)[i].1 ==> keys[k] == keys[runs_of(
            keys,
            n,
        )[i].0],
        i + 1 < runs_of(keys, n).len() ==> keys[runs_of(keys, n)[i + 1].0] != keys[runs_of(
            keys,
            n,
        )[i].0],
    decreases n,
{
    if n > 0 {
        let rest = runs_of(keys, n - 1);
        law_runs_cover_all_shapes(keys, n - 1, i);
        if i < rest.len() {
            law_runs_are_of_one_paint(keys, n - 1, i, k);
        }
    }
}

/// The name of the glyph that the `n`th color of a glyph becomes.
pub open spec fn color_name(name: Seq<char>, n: nat) -> Seq<char> {
    name + ".color"@ + text::decimal(n)
}

/// The glyph that the `n`th color of a glyph becomes.
pub open spec fn color_glyph(original: GlyphView, n: nat, layers: Seq<LayerView>) -> GlyphView {
    GlyphView {
        name: color_name(original.name, n),
        production_name: match original.production_name {
            Some(name) => Some(color_name(name, n)),
            None => None,
        },
        export: original.export,
        layers,
    }
}

fn name_color(name: &String, n: usize) -> (r: String)
    ensures
        r@ == color_name(name@, n as nat),
{
    let mut r: String = name.clone();
    r.append(".color");
    r.append(text::decimal_of(n as u64).as_str());
    r
}

fn new_color_glyph(original: &Glyph, n: usize, layers: Vec<Layer>) -> (r: Glyph)
    ensures
        r@ == color_glyph(original@, n as nat, glyphs_source::layer_views(layers@)),
{
    Glyph {
        name: name_color(&original.name, n),
        production_name: match &original.production_name {
            Some(name) => Some(name_color(name, n)),
            None => None,
        },
        export: original.export,
        layers,
    }
}

/// No two colors of a glyph become glyphs of one name.
pub proof fn law_color_glyphs_have_names_of_their_own(name: Seq<char>, a: nat, b: nat)
    requires
        color_name(name, a) == color_name(name, b),
    ensures
        a == b,
{
    let stem = name + ".color"@;
    let x = color_name(name, a);
    let y = color_name(name, b);
    assert(x.skip(stem.len() as int) =~= text::decimal(a));
    assert(y.skip(stem.len() as int) =~= text::decimal(b));
    text::law_decimal_is_injective(a, b);
}

/// Whether a layer is a color of the palette on this master.
pub open spec fn is_palette_layer(layer: LayerView, master: Seq<char>) -> bool {
    layer.attributes.color_palette is Some && layer.associated_master_id == Some(master)
}

/// The layers that each become a glyph of their own, the master's id in place
/// of theirs.
pub open spec fn palette_layers(layers: Seq<LayerView>, master: Seq<char>) -> Seq<LayerView>
    decreases layers.len(),
{
    if layers.len() == 0 {
        seq![]
    } else {
        let rest = palette_layers(layers.drop_last(), master);
        let layer = layers.last();
        if is_palette_layer(layer, master) && layer.shapes.len() > 0 {
            rest.push(LayerView { layer_id: master, associated_master_id: None, ..layer })
        } else {
            rest
        }
    }
}

/// The glyphs that the palette layers of a glyph become.
pub open spec fn palette_glyphs(glyph: GlyphView, master: Seq<char>) -> Seq<GlyphView> {
    let layers = palette_layers(glyph.layers, master);
    Seq::new(layers.len(), |i: int| color_glyph(glyph, i as nat, seq![layers[i]]))
}

fn names_master(layer: &Layer, master: &String) -> (r: bool)
    ensures
        r == is_palette_layer(layer@, master@),
{
    if layer.attributes.color_palette.is_none() {
        return false;
    }
    match &layer.associated_master_id {
        Some(id) => *id == *master,
        None => false,
    }
}

/// Every layer of a master that has a palette index and anything to draw
/// becomes a new glyph.
pub fn split_colrv0_glyph(original: &Glyph, master: &String) -> (r: Vec<Glyph>)
    ensures
        glyphs_source::glyph_views(r@) == palette_glyphs(original@, master@),
{
    let ghost layers = glyphs_source::layer_views(original.layers@);
    let mut r: Vec<Glyph> = Vec::new();
    let mut i: usize = 0;
    assert(palette_layers(layers.take(0), master@) =~= seq![]);
    while i < original.layers.len()
        invariant
            i <= original.layers@.len(),
            r@.len() <= i,
            layers == glyphs_source::layer_views(original.layers@),
            r@.len() == palette_layers(layers.take(i as int), master@).len(),
            forall|k: int|
                0 <= k < r@.len() ==> #[trigger] glyphs_source::glyph_views(r@)[k] == color_glyph(
                    original@,
                    k as nat,
                    seq![palette_layers(layers.take(i as int), master@)[k]],
                ),
        decreases original.layers.len() - i,
    {
        let layer: &Layer = &original.layers[i];
        assert(layers.take(i + 1).drop_last() =~= layers.take(i as int));
        assert(layers.take(i + 1).last() == layer@);
        assert(glyphs_source::shape_views(layer.shapes@).len() == layer.shapes@.len());
        if layer.shapes.len() > 0 && names_master(layer, master) {
            let ghost before = r@;
            let made = Layer {
                layer_id: master.clone(),
                associated_master_id: None,
                shapes: glyphs_source::shapes_between(&layer.shapes, 0, layer.shapes.len()),
                attributes: layer.attributes,
                is_color: layer.is_color,
                rest: layer.rest,
            };
            proof {
                assert(glyphs_source::shape_views(made.shapes@) =~= layer@.shapes);
                assert(made@ == (LayerView {
                    layer_id: master@,
                    associated_master_id: None,
                    ..layer@
                }));
            }
            let mut made_layers: Vec<Layer> = Vec::new();
            made_layers.push(made);
            assert(glyphs_source::layer_views(made_layers@) =~= seq![made@]);
            let n: usize = r.len();
            r.push(new_color_glyph(original, n, made_layers));
            assert forall|k: int| 0 <= k < before.len() implies #[trigger] glyphs_source::glyph_views(
                r@,
            )[k] == glyphs_source::glyph_views(before)[k] by {}
        }
        i = i + 1;
    }
    assert(layers.take(i as int) =~= layers);
    assert(glyphs_source::glyph_views(r@) =~= palette_glyphs(original@, master@));
    r
}

/// A layer with the shapes of one run only.
pub open spec fn run_layer(layer: LayerView, run: (int, int), color: bool) -> LayerView {
    LayerView {
        shapes: layer.shapes.subrange(run.0, run.1),
        attributes: LayerAttributes { color, ..layer.attributes },
        ..layer
    }
}

/// The glyphs that the runs of a glyph become, none if there is only one run.
pub open spec fn run_glyphs(glyph: GlyphView, default_layer: LayerView) -> Seq<GlyphView> {
    let runs = runs_of(keys_of(default_layer), default_layer.shapes.len() as int);
    if runs.len() <= 1 {
        seq![]
    } else {
        Seq::new(
            runs.len(),
            |i: int|
                color_glyph(
                    glyph,
                    i as nat,
                    glyph.layers.map_values(
                        |l: LayerView| run_layer(l, runs[i], default_layer.attributes.color),
                    ),
                ),
        )
    }
}

/// Whether a layer is painted in more than one way, so that its glyph has to be
/// split.
pub open spec fn has_several_runs(layer: LayerView) -> bool {
    runs_of(keys_of(layer), layer.shapes.len() as int).len() > 1
}

/// Whether every layer has a shape wherever the default layer has one, if there
/// is anything to split.
pub open spec fn splits_evenly(glyph: GlyphView, default_layer: LayerView) -> bool {
    has_several_runs(default_layer) ==> forall|i: int|
        0 <= i < glyph.layers.len() ==> (#[trigger] glyph.layers[i]).shapes.len()
            >= default_layer.shapes.len()
}

/// Whether a glyph is to be split but has no layers, so that its parts have no
/// size in common.
pub open spec fn has_nothing_to_split(glyph: GlyphView, default_layer: LayerView) -> bool {
    has_several_runs(default_layer) && glyph.layers.len() == 0
}

/// Split a glyph into runs of the same paint, each a new glyph.
///
/// A glyph of one paint is left as it is. The shapes of every layer are taken
/// by the runs of the default one, so there must be as many of them. A glyph
/// without layers cannot be split, and its first part is what is bad.
pub fn split_colrv1_glyph(glyph: &Glyph, default_layer: &Layer) -> (r: Result<
    Vec<Glyph>,
    BadGlyph,
>)
    requires
        splits_evenly(glyph@, default_layer@),
    ensures
        r is Err <==> has_nothing_to_split(glyph@, default_layer@),
        match r {
            Ok(parts) => glyphs_source::glyph_views(parts@) == run_glyphs(glyph@, default_layer@),
            Err(bad) => bad.name@ == color_name(glyph.name@, 0) && bad.cause@
                == "Inconsistent layer sizes []"@,
        },
{
    let runs: Vec<(usize, usize)> = find_runs(default_layer);
    let ghost keys = keys_of(default_layer@);
    let ghost all = runs_of(keys, default_layer.shapes@.len() as int);
    let mut r: Vec<Glyph> = Vec::new();
    if runs.len() <= 1 {
        assert(glyphs_source::glyph_views(r@) =~= run_glyphs(glyph@, default_layer@));
        return Ok(r);
    }
    if glyph.layers.len() == 0 {
        return Err(
            BadGlyph {
                name: name_color(&glyph.name, 0),
                cause: "Inconsistent layer sizes []".to_string(),
            },
        );
    }
    let ghost layers = glyph@.layers;
    let ghost want = run_glyphs(glyph@, default_layer@);
    let color: bool = default_layer.attributes.color;
    let mut i: usize = 0;
    while i < runs.len()
        invariant
            i <= runs@.len(),
            runs@.len() > 1,
            r@.len() == i,
            color == default_layer.attributes.color,
            layers == glyph@.layers,
            keys == keys_of(default_layer@),
            all == runs_of(keys, default_layer.shapes@.len() as int),
            all == run_ends(runs@),
            want == run_glyphs(glyph@, default_layer@),
            splits_evenly(glyph@, default_layer@),
            forall|k: int|
                0 <= k < i ==> #[trigger] glyphs_source::glyph_views(r@)[k] == want[k],
        decreases runs.len() - i,
    {
        let start: usize = runs[i].0;
        let end: usize = runs[i].1;
        proof {
            assert(all[i as int] == (start as int, end as int));
            law_runs_cover_all_shapes(keys, default_layer.shapes@.len() as int, i as int);
        }
        let mut made: Vec<Layer> = Vec::new();
        let mut k: usize = 0;
        while k < glyph.layers.len()
            invariant
                k <= glyph.layers@.len(),
                start <= end <= default_layer.shapes@.len(),
                layers == glyph@.layers,
                has_several_runs(default_layer@),
                splits_evenly(glyph@, default_layer@),
                made@.len() == k,
                forall|m: int|
                    0 <= m < k ==> #[trigger] glyphs_source::layer_views(made@)[m] == run_layer(
                        layers[m],
                        (start as int, end as int),
                        color,
                    ),
            decreases glyph.layers.len() - k,
        {
            let layer: &Layer = &glyph.layers[k];
            assert(layers[k as int] == layer@);
            assert(layers[k as int].shapes.len() == layer.shapes@.len());
            let ghost before = made@;
            let shapes: Vec<Shape> = glyphs_source::shapes_between(&layer.shapes, start, end);
            let new_layer = Layer {
                layer_id: layer.layer_id.clone(),
                associated_master_id: glyphs_source::copy_text(&layer.associated_master_id),
                shapes,
                attributes: LayerAttributes {
                    color,
                    color_palette: layer.attributes.color_palette,
                },
                is_color: layer.is_color,
                rest: layer.rest,
            };
            made.push(new_layer);
            assert forall|m: int| 0 <= m < before.len() implies #[trigger] glyphs_source::layer_views(
                made@,
            )[m] == glyphs_source::layer_views(before)[m] by {}
            k = k + 1;
        }
        assert(glyphs_source::layer_views(made@) =~= layers.map_values(
            |l: LayerView| run_layer(l, all[i as int], color),
        ));
        let ghost before = r@;
        r.push(new_color_glyph(glyph, i, made));
        assert forall|m: int| 0 <= m < before.len() implies #[trigger] glyphs_source::glyph_views(
            r@,
        )[m] == glyphs_source::glyph_views(before)[m] by {}
        i = i + 1;
    }
    assert(glyphs_source::glyph_views(r@) =~= want);
    Ok(r)
}

/// The index of the first layer with an id.
pub open spec fn layer_called(layers: Seq<LayerView>, id: Seq<char>) -> Option<int>
    decreases layers.len(),
{
    if layers.len() == 0 {
        None
    } else {
        match layer_called(layers.drop_last(), id) {
            Some(i) => Some(i),
            None => if layers.last().layer_id == id {
                Some(layers.len() - 1)
            } else {
                None
            },
        }
    }
}

proof fn lemma_layer_called(layers: Seq<LayerView>, id: Seq<char>)
    ensures
        match layer_called(layers, id) {
            Some(i) => 0 <= i < layers.len() && layers[i].layer_id == id && forall|j: int|
                0 <= j < i ==> (#[trigger] layers[j]).layer_id != id,
            None => forall|j: int| 0 <= j < layers.len() ==> (#[trigger] layers[j]).layer_id != id,
        },
    decreases layers.len(),
{
    if layers.len() > 0 {
        let rest = layers.drop_last();
        lemma_layer_called(rest, id);
        assert(forall|j: int| 0 <= j < rest.len() ==> #[trigger] layers[j] == rest[j]);
    }
}

/// Whether a glyph has layers painted in colors of the palette.
pub open spec fn has_palette_layers(glyph: GlyphView, master: Seq<char>) -> bool {
    exists|i: int|
        0 <= i < glyph.layers.len() && is_palette_layer(#[trigger] glyph.layers[i], master)
}

/// The glyphs that the colors of a glyph become, or `None` if it has no color,
/// or no layer for the default master.
pub open spec fn color_parts(glyph: GlyphView, master: Seq<char>) -> Option<Seq<GlyphView>> {
    match layer_called(glyph.layers, master) {
        None => None,
        Some(i) => if has_palette_layers(glyph, master) {
            Some(palette_glyphs(glyph, master))
        } else if glyph.layers[i].is_color {
            Some(run_glyphs(glyph, glyph.layers[i]))
        } else {
            None
        },
    }
}

/// Whether a glyph can be split: one with several paints of its own has a shape
/// in every layer wherever the default layer has one.
pub open spec fn can_split(glyph: GlyphView, master: Seq<char>) -> bool {
    layer_called(glyph.layers, master) matches Some(i) ==> has_palette_layers(glyph, master)
        || !glyph.layers[i].is_color || splits_evenly(glyph, glyph.layers[i])
}

/// The names of some glyphs.
pub open spec fn names_of(glyphs: Seq<GlyphView>) -> Seq<Seq<char>> {
    glyphs.map_values(|g: GlyphView| g.name)
}

/// The color glyphs of a font after one more glyph. One that is of a single
/// paint has an entry with no glyphs in it, and one that draws nothing has
/// none.
pub open spec fn with_glyph(
    entries: Seq<(Seq<char>, Seq<Seq<char>>)>,
    glyph: GlyphView,
    master: Seq<char>,
) -> Seq<(Seq<char>, Seq<Seq<char>>)> {
    match color_parts(glyph, master) {
        None => entries,
        Some(parts) => if parts.len() == 0
            && glyph.layers[layer_called(glyph.layers, master)->0].shapes.len() == 0 {
            entries
        } else {
            with_entry(entries, glyph.name, listed_under(entries, glyph.name) + names_of(parts))
        },
    }
}

/// The color glyphs of a font, by the glyph they come from.
pub open spec fn all_color_entries(glyphs: Seq<GlyphView>, master: Seq<char>) -> Seq<
    (Seq<char>, Seq<Seq<char>>),
>
    decreases glyphs.len(),
{
    if glyphs.len() == 0 {
        seq![]
    } else {
        with_glyph(all_color_entries(glyphs.drop_last(), master), glyphs.last(), master)
    }
}

/// All glyphs that the colors of glyphs become.
pub open spec fn all_color_parts(glyphs: Seq<GlyphView>, master: Seq<char>) -> Seq<GlyphView>
    decreases glyphs.len(),
{
    if glyphs.len() == 0 {
        seq![]
    } else {
        let rest = all_color_parts(glyphs.drop_last(), master);
        match color_parts(glyphs.last(), master) {
            Some(parts) => rest + parts,
            None => rest,
        }
    }
}

/// Glyphs once one is set: in place of the one with its name, or at the end.
pub open spec fn put_glyph(glyphs: Seq<GlyphView>, glyph: GlyphView) -> Seq<GlyphView> {
    match glyph_named(glyphs, glyph.name) {
        Some(i) => glyphs.update(i, glyph),
        None => glyphs.push(glyph),
    }
}

/// The index of the first glyph with a name.
pub open spec fn glyph_named(glyphs: Seq<GlyphView>, name: Seq<char>) -> Option<int>
    decreases glyphs.len(),
{
    if glyphs.len() == 0 {
        None
    } else {
        match glyph_named(glyphs.drop_last(), name) {
            Some(i) => Some(i),
            None => if glyphs.last().name == name {
                Some(glyphs.len() - 1)
            } else {
                None
            },
        }
    }
}

proof fn lemma_glyph_named(glyphs: Seq<GlyphView>, name: Seq<char>)
    ensures
        match glyph_named(glyphs, name) {
            Some(i) => 0 <= i < glyphs.len() && glyphs[i].name == name && forall|j: int|
                0 <= j < i ==> (#[trigger] glyphs[j]).name != name,
            None => forall|j: int| 0 <= j < glyphs.len() ==> (#[trigger] glyphs[j]).name != name,
        },
    decreases glyphs.len(),
{
    if glyphs.len() > 0 {
        let rest = glyphs.drop_last();
        lemma_glyph_named(rest, name);
        assert(forall|j: int| 0 <= j < rest.len() ==> #[trigger] glyphs[j] == rest[j]);
    }
}

/// Glyphs once several are set, one after the other.
pub open spec fn put_glyphs(glyphs: Seq<GlyphView>, more: Seq<GlyphView>) -> Seq<GlyphView>
    decreases more.len(),
{
    if more.len() == 0 {
        glyphs
    } else {
        put_glyph(put_glyphs(glyphs, more.drop_last()), more.last())
    }
}

fn find_layer(layers: &Vec<Layer>, id: &String) -> (r: Option<usize>)
    ensures
        layer_called(glyphs_source::layer_views(layers@), id@) == (match r {
            Some(i) => Some(i as int),
            None => None,
        }),
        r is Some ==> r->0 < layers@.len(),
{
    let ghost all = glyphs_source::layer_views(layers@);
    proof {
        lemma_layer_called(all, id@);
    }
    let mut i: usize = 0;
    while i < layers.len()
        invariant
            i <= layers@.len(),
            all == glyphs_source::layer_views(layers@),
            forall|j: int| 0 <= j < i ==> (#[trigger] all[j]).layer_id != id@,
            match layer_called(all, id@) {
                Some(i) => 0 <= i < all.len() && all[i].layer_id == id@ && forall|j: int|
                    0 <= j < i ==> (#[trigger] all[j]).layer_id != id@,
                None => forall|j: int| 0 <= j < all.len() ==> (#[trigger] all[j]).layer_id != id@,
            },
        decreases layers.len() - i,
    {
        assert(all[i as int].layer_id == layers@[i as int].layer_id@);
        if layers[i].layer_id == *id {
            return Some(i);
        }
        i = i + 1;
    }
    None
}

fn finds_palette_layers(glyph: &Glyph, master: &String) -> (r: bool)
    ensures
        r == has_palette_layers(glyph@, master@),
{
    let mut i: usize = 0;
    while i < glyph.layers.len()
        invariant
            i <= glyph.layers@.len(),
            forall|j: int|
                0 <= j < i ==> !is_palette_layer(#[trigger] glyph@.layers[j], master@),
        decreases glyph.layers.len() - i,
    {
        assert(glyph@.layers[i as int] == glyph.layers@[i as int]@);
        if names_master(&glyph.layers[i], master) {
            return true;
        }
        i = i + 1;
    }
    false
}

/// The glyphs that the colors of a glyph become.
fn find_parts(glyph: &Glyph, master: &String) -> (r: Option<Vec<Glyph>>)
    requires
        can_split(glyph@, master@),
    ensures
        match r {
            Some(parts) => color_parts(glyph@, master@) == Some(
                glyphs_source::glyph_views(parts@),
            ),
            None => color_parts(glyph@, master@) is None,
        },
{
    match find_layer(&glyph.layers, master) {
        None => None,
        Some(i) => {
            assert(glyph@.layers[i as int] == glyph.layers@[i as int]@);
            if finds_palette_layers(glyph, master) {
                Some(split_colrv0_glyph(glyph, master))
            } else if glyph.layers[i].is_color {
                match split_colrv1_glyph(glyph, &glyph.layers[i]) {
                    Ok(parts) => Some(parts),
                    Err(_) => {
                        assert(false);
                        None
                    },
                }
            } else {
                None
            }
        },
    }
}

fn find_glyph(glyphs: &Vec<Glyph>, name: &String) -> (r: Option<usize>)
    ensures
        glyph_named(glyphs_source::glyph_views(glyphs@), name@) == (match r {
            Some(i) => Some(i as int),
            None => None,
        }),
        r is Some ==> r->0 < glyphs@.len(),
{
    let ghost all = glyphs_source::glyph_views(glyphs@);
    proof {
        lemma_glyph_named(all, name@);
    }
    let mut i: usize = 0;
    while i < glyphs.len()
        invariant
            i <= glyphs@.len(),
            all == glyphs_source::glyph_views(glyphs@),
            forall|j: int| 0 <= j < i ==> (#[trigger] all[j]).name != name@,
            match glyph_named(all, name@) {
                Some(i) => 0 <= i < all.len() && all[i].name == name@ && forall|j: int|
                    0 <= j < i ==> (#[trigger] all[j]).name != name@,
                None => forall|j: int| 0 <= j < all.len() ==> (#[trigger] all[j]).name != name@,
            },
        decreases glyphs.len() - i,
    {
        assert(all[i as int].name == glyphs@[i as int].name@);
        if glyphs[i].name == *name {
            return Some(i);
        }
        i = i + 1;
    }
    None
}

/// Add glyphs to a font's, each in place of one with its name if there is one.
fn add_glyphs(glyphs: &mut Vec<Glyph>, more: Vec<Glyph>)
    ensures
        glyphs_source::glyph_views(final(glyphs)@) == put_glyphs(
            glyphs_source::glyph_views(old(glyphs)@),
            glyphs_source::glyph_views(more@),
        ),
{
    let ghost start = glyphs_source::glyph_views(glyphs@);
    let ghost all = glyphs_source::glyph_views(more@);
    let mut waiting: Vec<Glyph> = more;
    assert(put_glyphs(start, all.take(0)) =~= start);
    let ghost mut done: int = 0;
    while waiting.len() > 0
        invariant
            0 <= done <= all.len(),
            glyphs_source::glyph_views(waiting@) == all.skip(done),
            glyphs_source::glyph_views(glyphs@) == put_glyphs(start, all.take(done)),
        decreases waiting.len(),
    {
        let ghost before = waiting@;
        let glyph: Glyph = waiting.remove(0);
        proof {
            assert(glyphs_source::glyph_views(before).len() == before.len());
            assert(glyph@ == glyphs_source::glyph_views(before)[0]);
            assert(glyphs_source::glyph_views(before)[0] == all[done]);
            assert(glyphs_source::glyph_views(waiting@) =~= all.skip(done + 1)) by {
                assert forall|k: int| 0 <= k < waiting@.len() implies glyphs_source::glyph_views(
                    waiting@,
                )[k] == all.skip(done + 1)[k] by {
                    assert(waiting@[k] == before[k + 1]);
                    assert(glyphs_source::glyph_views(before)[k + 1] == all.skip(done)[k + 1]);
                }
            }
            assert(all.take(done + 1).drop_last() =~= all.take(done));
            assert(all.take(done + 1).last() == glyph@);
        }
        let ghost was = glyphs@;
        match find_glyph(glyphs, &glyph.name) {
            Some(i) => {
                glyphs.set(i, glyph);
                assert(glyphs_source::glyph_views(glyphs@) =~= glyphs_source::glyph_views(
                    was,
                ).update(i as int, glyph@));
            },
            None => {
                glyphs.push(glyph);
                assert(glyphs_source::glyph_views(glyphs@) =~= glyphs_source::glyph_views(
                    was,
                ).push(glyph@));
            },
        }
        proof {
            done = done + 1;
        }
    }
    proof {
        assert(all.skip(done).len() == 0);
        assert(all.take(done) =~= all);
    }
}

/// Split every glyph that is painted in several colors, and tell which glyphs
/// come of which.
///
/// The glyphs that were split remain, uncolored.
pub fn split_color_glyphs(font: Font) -> (r: (Font, IndexMap<String, Vec<String>>))
    requires
        font.default_master_idx < font.masters@.len(),
        all_can_split(font),
    ensures
        ({
            let master = font.masters@[font.default_master_idx as int].id@;
            let glyphs = glyphs_source::glyph_views(font.glyphs@);
            let parts = all_color_parts(glyphs, master);
            &&& r.0 == (Font { glyphs: r.0.glyphs, glyph_order: r.0.glyph_order, ..font })
            &&& glyphs_source::glyph_views(r.0.glyphs@) == put_glyphs(glyphs, parts)
            &&& text::texts(r.0.glyph_order@) == text::texts(font.glyph_order@) + names_of(parts)
            &&& color_entries(r.1) == all_color_entries(glyphs, master)
        }),
{
    let mut font: Font = font;
    let master: String = font.masters[font.default_master_idx].id.clone();
    let ghost glyphs = glyphs_source::glyph_views(font.glyphs@);
    let mut color_glyphs: IndexMap<String, Vec<String>> = no_entries();
    let mut additions: Vec<Glyph> = Vec::new();
    let mut added: Vec<String> = Vec::new();
    let mut i: usize = 0;
    assert(all_color_parts(glyphs.take(0), master@) =~= seq![]);
    assert(glyphs_source::glyph_views(additions@) =~= seq![]);
    assert(text::texts(added@) =~= names_of(seq![]));
    while i < font.glyphs.len()
        invariant
            i <= font.glyphs@.len(),
            glyphs == glyphs_source::glyph_views(font.glyphs@),
            forall|k: int|
                0 <= k < font.glyphs@.len() ==> can_split(
                    (#[trigger] font.glyphs@[k])@,
                    master@,
                ),
            color_entries(color_glyphs) == all_color_entries(glyphs.take(i as int), master@),
            glyphs_source::glyph_views(additions@) == all_color_parts(
                glyphs.take(i as int),
                master@,
            ),
            text::texts(added@) == names_of(all_color_parts(glyphs.take(i as int), master@)),
        decreases font.glyphs.len() - i,
    {
        let glyph: &Glyph = &font.glyphs[i];
        proof {
            assert(glyphs.take(i + 1).drop_last() =~= glyphs.take(i as int));
            assert(glyphs.take(i + 1).last() == glyph@);
        }
        if let Some(found) = find_parts(glyph, &master) {
            let mut parts: Vec<Glyph> = found;
            let ghost made = parts@;
            let mut names: Vec<String> = part_names(&parts);
            let mut more: Vec<String> = part_names(&parts);
            let ghost name_list = more@;
            let draws: bool = match find_layer(&glyph.layers, &master) {
                Some(k) => {
                    assert(glyph@.layers[k as int] == glyph.layers@[k as int]@);
                    glyph.layers[k].shapes.len() > 0
                },
                None => false,
            };
            if parts.len() > 0 || draws {
                list_names(&mut color_glyphs, &glyph.name, &mut names);
            }
            let ghost old_additions = additions@;
            let ghost old_added = added@;
            additions.append(&mut parts);
            added.append(&mut more);
            proof {
                assert(additions@ =~= old_additions + made);
                assert(glyphs_source::glyph_views(additions@) =~= glyphs_source::glyph_views(
                    old_additions,
                ) + glyphs_source::glyph_views(made));
                assert(added@ =~= old_added + name_list);
                let before = all_color_parts(glyphs.take(i as int), master@);
                let now = glyphs_source::glyph_views(made);
                assert(names_of(before + now) =~= names_of(before) + names_of(now));
                assert(text::texts(added@) =~= text::texts(old_added) + names_of(now));
            }
        }
        i = i + 1;
    }
    assert(glyphs.take(i as int) =~= glyphs);
    let ghost order = font.glyph_order@;
    let ghost new_names = added@;
    font.glyph_order.append(&mut added);
    assert(text::texts(font.glyph_order@) =~= text::texts(order) + text::texts(new_names));
    add_glyphs(&mut font.glyphs, additions);
    (font, color_glyphs)
}

fn part_names(parts: &Vec<Glyph>) -> (r: Vec<String>)
    ensures
        text::texts(r@) == names_of(glyphs_source::glyph_views(parts@)),
{
    let ghost all = names_of(glyphs_source::glyph_views(parts@));
    let mut r: Vec<String> = Vec::new();
    let mut i: usize = 0;
    while i < parts.len()
        invariant
            i <= parts@.len(),
            all == names_of(glyphs_source::glyph_views(parts@)),
            text::texts(r@) =~= all.take(i as int),
        decreases parts.len() - i,
    {
        let ghost before = r@;
        r.push(parts[i].name.clone());
        assert(all[i as int] == parts@[i as int].name@);
        assert(text::texts(r@) =~= text::texts(before).push(parts@[i as int].name@));
        i = i + 1;
    }
    assert(text::texts(r@) =~= all);
    r
}

/// A glyph that draws nothing is no color glyph, however its layers are
/// painted.
pub proof fn law_empty_glyphs_are_no_color_glyphs(
    entries: Seq<(Seq<char>, Seq<Seq<char>>)>,
    glyph: GlyphView,
    master: Seq<char>,
)
    requires
        forall|i: int| 0 <= i < glyph.layers.len() ==> (#[trigger] glyph.layers[i]).shapes.len() == 0,
    ensures
        with_glyph(entries, glyph, master) == entries,
{
    lemma_layer_called(glyph.layers, master);
    lemma_no_palette_layers(glyph.layers, master);
}

proof fn lemma_no_palette_layers(layers: Seq<LayerView>, master: Seq<char>)
    requires
        forall|i: int| 0 <= i < layers.len() ==> (#[trigger] layers[i]).shapes.len() == 0,
    ensures
        palette_layers(layers, master).len() == 0,
    decreases layers.len(),
{
    if layers.len() > 0 {
        let rest = layers.drop_last();
        assert forall|i: int| 0 <= i < rest.len() implies (#[trigger] rest[i]).shapes.len() == 0 by {
            assert(rest[i] == layers[i]);
        }
        lemma_no_palette_layers(rest, master);
        assert(layers[layers.len() - 1].shapes.len() == 0);
    }
}

/// Whether every glyph of a font can be split.
pub open spec fn all_can_split(font: Font) -> bool {
    forall|i: int|
        0 <= i < font.glyphs@.len() ==> can_split(
            (#[trigger] font.glyphs@[i])@,
            font.masters@[font.default_master_idx as int].id@,
        )
}

fn has_shapes_for(glyph: &Glyph, default_layer: &Layer) -> (r: bool)
    ensures
        r == splits_evenly(glyph@, default_layer@),
{
    if find_runs(default_layer).len() <= 1 {
        return true;
    }
    let mut i: usize = 0;
    while i < glyph.layers.len()
        invariant
            i <= glyph.layers@.len(),
            has_several_runs(default_layer@),
            forall|k: int|
                0 <= k < i ==> (#[trigger] glyph@.layers[k]).shapes.len()
                    >= default_layer@.shapes.len(),
        decreases glyph.layers.len() - i,
    {
        assert(glyph@.layers[i as int] == glyph.layers@[i as int]@);
        if glyph.layers[i].shapes.len() < default_layer.shapes.len() {
            return false;
        }
        i = i + 1;
    }
    true
}

/// Whether every glyph of a font can be split: [`split_color_glyphs`] wants to
/// be sure of it.
pub fn can_split_glyphs(font: &Font) -> (r: bool)
    requires
        font.default_master_idx < font.masters@.len(),
    ensures
        r == all_can_split(*font),
{
    let master: &String = &font.masters[font.default_master_idx].id;
    let mut i: usize = 0;
    while i < font.glyphs.len()
        invariant
            i <= font.glyphs@.len(),
            font.default_master_idx < font.masters@.len(),
            *master == font.masters@[font.default_master_idx as int].id,
            forall|k: int|
                0 <= k < i ==> can_split((#[trigger] font.glyphs@[k])@, master@),
        decreases font.glyphs.len() - i,
    {
        let glyph: &Glyph = &font.glyphs[i];
        if let Some(k) = find_layer(&glyph.layers, master) {
            assert(glyph@.layers[k as int] == glyph.layers@[k as int]@);
            if !finds_palette_layers(glyph, master) && glyph.layers[k].is_color
                && !has_shapes_for(glyph, &glyph.layers[k]) {
                assert(!can_split(font.glyphs@[i as int]@, master@));
                return false;
            }
        }
        i = i + 1;
    }
    true
}

/// On a layer without color all shapes are painted alike.
pub proof fn law_without_color_all_shapes_are_alike(a: AttributesView, b: AttributesView)
    ensures
        key_for(false, a) == key_for(false, b),
{
}

/// Of two shapes with gradients, it is the gradients that count: they are alike
/// if they start and end at the same places, have the same stops and both are
/// circles or neither is.
pub proof fn law_gradients_count_before_fills(a: AttributesView, b: AttributesView)
    requires
        a.gradient is Some,
        b.gradient is Some,
    ensures
        key_for(true, a) == key_for(true, b) <==> a.gradient->0.start == b.gradient->0.start
            && a.gradient->0.end == b.gradient->0.end && a.gradient->0.colors
            == b.gradient->0.colors && (a.gradient->0.style == "circle"@ <==> b.gradient->0.style
            == "circle"@),
{
}

/// Without gradients, shapes are painted alike if they have the same fill, or
/// both have none. A gradient is never like a fill.
pub proof fn law_fills_count_without_gradients(a: AttributesView, b: AttributesView)
    requires
        a.gradient is None,
    ensures
        b.gradient is None ==> (key_for(true, a) == key_for(true, b) <==> a.fill_color
            == b.fill_color),
        b.gradient is Some ==> key_for(true, a) != key_for(true, b),
{
}

proof fn lemma_entry_at(entries: Seq<(Seq<char>, Seq<Seq<char>>)>, name: Seq<char>)
    ensures
        match entry_at(entries, name) {
            Some(i) => 0 <= i < entries.len() && entries[i].0 == name && forall|j: int|
                0 <= j < i ==> (#[trigger] entries[j]).0 != name,
            None => forall|j: int| 0 <= j < entries.len() ==> (#[trigger] entries[j]).0 != name,
        },
    decreases entries.len(),
{
    if entries.len() > 0 {
        let rest = entries.drop_last();
        lemma_entry_at(rest, name);
        assert(forall|j: int| 0 <= j < rest.len() ==> #[trigger] entries[j] == rest[j]);
    }
}

/// Setting an entry gives it its list, leaves all others as they are where they
/// are, and puts a new one at the end.
pub proof fn law_setting_an_entry_changes_that_entry(
    entries: Seq<(Seq<char>, Seq<Seq<char>>)>,
    name: Seq<char>,
    list: Seq<Seq<char>>,
    i: int,
)
    requires
        0 <= i < entries.len(),
        forall|a: int, b: int| 0 <= a < b < entries.len() ==> entries[a].0 != entries[b].0,
    ensures
        with_entry(entries, name, list)[i].0 == entries[i].0,
        with_entry(entries, name, list)[i].1 == if entries[i].0 == name {
            list
        } else {
            entries[i].1
        },
        (exists|k: int| 0 <= k < entries.len() && (#[trigger] entries[k]).0 == name) ==> with_entry(
            entries,
            name,
            list,
        ).len() == entries.len(),
        (forall|k: int| 0 <= k < entries.len() ==> (#[trigger] entries[k]).0 != name) ==> with_entry(
            entries,
            name,
            list,
        ) == entries.push((name, list)),
        entries[i].0 == name ==> listed_under(entries, name) == entries[i].1,
{
    lemma_entry_at(entries, name);
    if let Some(k) = entry_at(entries, name) {
        if i < k {
            assert(entries[i].0 != entries[k].0);
        } else if k < i {
            assert(entries[k].0 != entries[i].0);
        }
    }
}

/// What the parts of a glyph are: numbered from zero, and exported and named as
/// the glyph is.
pub proof fn law_parts_are_numbered_from_zero(glyph: GlyphView, master: Seq<char>, i: int)
    requires
        color_parts(glyph, master) is Some,
        0 <= i < color_parts(glyph, master)->0.len(),
    ensures
        color_parts(glyph, master)->0[i].name == glyph.name + ".color"@ + text::decimal(i as nat),
        color_parts(glyph, master)->0[i].export == glyph.export,
        color_parts(glyph, master)->0[i].production_name is Some <==> glyph.production_name is Some,
        glyph.production_name matches Some(name) ==> color_parts(
            glyph,
            master,
        )->0[i].production_name == Some(name + ".color"@ + text::decimal(i as nat)),
{
}

/// A layer becomes a glyph of its own exactly if it has a palette index,
/// belongs to the master and draws anything. It then is the master's layer.
pub proof fn law_palette_layers_become_glyphs(
    layers: Seq<LayerView>,
    layer: LayerView,
    master: Seq<char>,
)
    ensures
        palette_layers(Seq::empty(), master).len() == 0,
        layer.attributes.color_palette is Some && layer.associated_master_id == Some(master)
            && layer.shapes.len() > 0 ==> palette_layers(layers.push(layer), master)
            == palette_layers(layers, master).push(
            (LayerView {
                layer_id: master,
                associated_master_id: None,
                shapes: layer.shapes,
                attributes: layer.attributes,
                is_color: layer.is_color,
                rest: layer.rest,
            }),
        ),
        layer.attributes.color_palette is None || layer.associated_master_id != Some(master)
            || layer.shapes.len() == 0 ==> palette_layers(layers.push(layer), master)
            == palette_layers(layers, master),
{
    assert(layers.push(layer).drop_last() =~= layers);
}

/// A glyph with palette layers is split by them, each part with one layer.
pub proof fn law_glyphs_are_split_by_their_palette_layers(
    glyph: GlyphView,
    master: Seq<char>,
    d: int,
    p: int,
    i: int,
)
    requires
        0 <= d < glyph.layers.len(),
        glyph.layers[d].layer_id == master,
        0 <= p < glyph.layers.len(),
        glyph.layers[p].attributes.color_palette is Some,
        glyph.layers[p].associated_master_id == Some(master),
    ensures
        color_parts(glyph, master) is Some,
        color_parts(glyph, master)->0.len() == palette_layers(glyph.layers, master).len(),
        0 <= i < palette_layers(glyph.layers, master).len() ==> color_parts(
            glyph,
            master,
        )->0[i].layers == seq![palette_layers(glyph.layers, master)[i]],
{
    lemma_layer_called(glyph.layers, master);
    assert(is_palette_layer(glyph.layers[p], master));
    assert(has_palette_layers(glyph, master));
}

/// A glyph without a layer for the master has no parts, and neither has one
/// with no palette layers whose layer for the master has no color.
pub proof fn law_glyphs_without_color_have_no_parts(glyph: GlyphView, master: Seq<char>, d: int)
    requires
        forall|p: int|
            0 <= p < glyph.layers.len() ==> (#[trigger] glyph.layers[p]).attributes.color_palette
                is None || glyph.layers[p].associated_master_id != Some(master),
    ensures
        (forall|k: int| 0 <= k < glyph.layers.len() ==> (#[trigger] glyph.layers[k]).layer_id
            != master) ==> color_parts(glyph, master) is None,
        0 <= d < glyph.layers.len() && glyph.layers[d].layer_id == master && (forall|k: int|
            0 <= k < d ==> (#[trigger] glyph.layers[k]).layer_id != master) ==> (color_parts(
            glyph,
            master,
        ) is Some <==> glyph.layers[d].is_color),
{
    lemma_layer_called(glyph.layers, master);
    assert(!has_palette_layers(glyph, master));
}

/// A glyph of one paint has nothing to be split into; one of several has a part
/// for each run of its layer for the master. Part `i` has every layer of the
/// glyph, with the shapes of run `i` only, and in color if that layer is.
pub proof fn law_glyphs_are_split_by_their_runs(
    glyph: GlyphView,
    default_layer: LayerView,
    i: int,
    j: int,
)
    ensures
        ({
            let runs = runs_of(keys_of(default_layer), default_layer.shapes.len() as int);
            let parts = run_glyphs(glyph, default_layer);
            &&& runs.len() <= 1 ==> parts.len() == 0
            &&& runs.len() > 1 ==> parts.len() == runs.len()
            &&& runs.len() > 1 && 0 <= i < runs.len() ==> parts[i].layers.len()
                == glyph.layers.len()
            &&& runs.len() > 1 && 0 <= i < runs.len() && 0 <= j < glyph.layers.len() ==> {
                let layer = parts[i].layers[j];
                &&& layer.shapes == glyph.layers[j].shapes.subrange(runs[i].0, runs[i].1)
                &&& layer.attributes.color == default_layer.attributes.color
                &&& layer.attributes.color_palette == glyph.layers[j].attributes.color_palette
                &&& layer.layer_id == glyph.layers[j].layer_id
                &&& layer.associated_master_id == glyph.layers[j].associated_master_id
                &&& layer.is_color == glyph.layers[j].is_color
                &&& layer.rest == glyph.layers[j].rest
            }
        }),
{
}

/// Shapes `a` and `b` of a layer are painted alike exactly if what is known of
/// the paint of each is the same, whether it is a path or a component.
pub proof fn law_paths_and_components_are_painted_by_their_attributes(layer: LayerView, a: int)
    requires
        0 <= a < layer.shapes.len(),
    ensures
        keys_of(layer).len() == layer.shapes.len(),
        layer.shapes[a] matches ShapeView::Path { attributes, .. } ==> keys_of(layer)[a] == key_for(
            layer.attributes.color,
            attributes,
        ),
        layer.shapes[a] matches ShapeView::Component { attributes, .. } ==> keys_of(layer)[a]
            == key_for(layer.attributes.color, attributes),
{
}

/// Glyphs are split one by one, and parts come in the order of their glyphs.
pub proof fn law_glyphs_are_split_one_by_one(
    glyphs: Seq<GlyphView>,
    glyph: GlyphView,
    master: Seq<char>,
)
    ensures
        all_color_parts(Seq::empty(), master).len() == 0,
        all_color_entries(Seq::empty(), master).len() == 0,
        color_parts(glyph, master) is None ==> all_color_parts(glyphs.push(glyph), master)
            == all_color_parts(glyphs, master) && all_color_entries(glyphs.push(glyph), master)
            == all_color_entries(glyphs, master),
        color_parts(glyph, master) matches Some(parts) ==> all_color_parts(
            glyphs.push(glyph),
            master,
        ) == all_color_parts(glyphs, master) + parts,
        color_parts(glyph, master) matches Some(parts) && parts.len() > 0 ==> listed_under(
            all_color_entries(glyphs.push(glyph), master),
            glyph.name,
        ) == listed_under(all_color_entries(glyphs, master), glyph.name)
            + color_parts(glyph, master)->0.map_values(|g: GlyphView| g.name),
{
    assert(glyphs.push(glyph).drop_last() =~= glyphs);
    let entries = all_color_entries(glyphs, master);
    if let Some(parts) = color_parts(glyph, master) {
        if parts.len() > 0 {
            let list = listed_under(entries, glyph.name) + names_of(parts);
            let after = with_entry(entries, glyph.name, list);
            lemma_entry_at(entries, glyph.name);
            lemma_entry_at(after, glyph.name);
            match entry_at(entries, glyph.name) {
                Some(i) => {
                    assert(after[i].0 == glyph.name);
                    let k = entry_at(after, glyph.name)->0;
                    if k < i {
                        assert(after[k] == entries[k]);
                    }
                    assert(k == i);
                },
                None => {
                    assert(after[entries.len() as int].0 == glyph.name);
                    let k = entry_at(after, glyph.name)->0;
                    if k < entries.len() {
                        assert(after[k] == entries[k]);
                    }
                },
            }
        }
    }
}

/// Setting a glyph leaves all glyphs of other names as they are where they are,
/// and puts it in place of the first one of its name, or at the end.
pub proof fn law_setting_a_glyph_changes_that_glyph(
    glyphs: Seq<GlyphView>,
    glyph: GlyphView,
    i: int,
)
    requires
        0 <= i < glyphs.len(),
    ensures
        glyphs[i].name != glyph.name ==> put_glyph(glyphs, glyph)[i] == glyphs[i],
        glyphs[i].name == glyph.name && (forall|k: int|
            0 <= k < i ==> (#[trigger] glyphs[k]).name != glyph.name) ==> put_glyph(
            glyphs,
            glyph,
        ) == glyphs.update(i, glyph),
        (forall|k: int| 0 <= k < glyphs.len() ==> (#[trigger] glyphs[k]).name != glyph.name)
            ==> put_glyph(glyphs, glyph) == glyphs.push(glyph),
{
    lemma_glyph_named(glyphs, glyph.name);
}

/// Glyphs are set one after the other.
pub proof fn law_glyphs_are_set_one_by_one(
    glyphs: Seq<GlyphView>,
    more: Seq<GlyphView>,
    glyph: GlyphView,
)
    ensures
        put_glyphs(glyphs, Seq::empty()) == glyphs,
        put_glyphs(glyphs, more.push(glyph)) == put_glyph(put_glyphs(glyphs, more), glyph),
{
    assert(more.push(glyph).drop_last() =~= more);
}

/// A glyph cannot be split if it has no layers but its layer for the master has
/// several paints.
pub proof fn law_glyphs_without_layers_cannot_be_split(glyph: GlyphView, default_layer: LayerView)
    ensures
        has_nothing_to_split(glyph, default_layer) <==> glyph.layers.len() == 0 && runs_of(
            keys_of(default_layer),
            default_layer.shapes.len() as int,
        ).len() >= 2,
{
}

} // verus!
