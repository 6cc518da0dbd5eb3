//! DXF drawing entities (LINE, TEXT, CIRCLE, LWPOLYLINE) with numbers kept
//! as the literals of the drawing text.

use vstd::prelude::*;

use crate::number::{NumText, zero_text, one_text};

verus! {

/// Horizontal text alignment (DXF group code 72).
#[derive(Clone, Copy, Debug, PartialEq, Eq, Structural)]
pub enum HorizontalAlignment {
    Left,
    Center,
    Right,
}

/// Vertical text alignment (DXF group code 73).
#[derive(Clone, Copy, Debug, PartialEq, Eq, Structural)]
pub enum VerticalAlignment {
    Baseline,
    Bottom,
    Middle,
    Top,
}

/// The default layer name, `0`.
pub open spec fn default_layer() -> Seq<char> {
    seq!['0']
}

/// The default color, 7 (white).
pub open spec fn default_color() -> i32 {
    7
}

fn layer_zero() -> (s: String)
    ensures
        s@ == default_layer(),
{
    let s = crate::text::string_of(&['0']);
    assert(s@ =~= default_layer());
    s
}

/// A LINE entity.
#[derive(Clone, Debug)]
pub struct DxfLine {
    pub x1: NumText,
    pub y1: NumText,
    pub x2: NumText,
    pub y2: NumText,
    pub color: i32,
    pub layer: String,
}

/// What a LINE holds.
pub struct LineView {
    pub x1: Seq<char>,
    pub y1: Seq<char>,
    pub x2: Seq<char>,
    pub y2: Seq<char>,
    pub color: i32,
    pub layer: Seq<char>,
}

impl View for DxfLine {
    type V = LineView;

    open spec fn view(&self) -> LineView {
        LineView {
            x1: self.x1@,
            y1: self.y1@,
            x2: self.x2@,
            y2: self.y2@,
            color: self.color,
            layer: self.layer@,
        }
    }
}

/// A LINE with every attribute at its default.
pub open spec fn default_line() -> LineView {
    LineView {
        x1: zero_text(),
        y1: zero_text(),
        x2: zero_text(),
        y2: zero_text(),
        color: default_color(),
        layer: default_layer(),
    }
}

impl DxfLine {
    /// A line from (x1, y1) to (x2, y2) with the default color and layer.
    pub fn new(x1: NumText, y1: NumText, x2: NumText, y2: NumText) -> (r: DxfLine)
        ensures
            r@ == (LineView { x1: x1@, y1: y1@, x2: x2@, y2: y2@, ..default_line() }),
    {
        DxfLine { x1, y1, x2, y2, color: 7, layer: layer_zero() }
    }

    /// A line with the given color and layer.
    pub fn with_style(
        x1: NumText,
        y1: NumText,
        x2: NumText,
        y2: NumText,
        color: i32,
        layer: &str,
    ) -> (r: DxfLine)
        ensures
            r@ == (LineView { x1: x1@, y1: y1@, x2: x2@, y2: y2@, color, layer: layer@ }),
    {
        DxfLine { x1, y1, x2, y2, color, layer: String::from_str(layer) }
    }

    /// The same line in another color.
    pub fn color(self, color: i32) -> (r: DxfLine)
        ensures
            r@ == (LineView { color, ..self@ }),
    {
        DxfLine { color, ..self }
    }

    /// The same line on another layer.
    pub fn layer(self, layer: &str) -> (r: DxfLine)
        ensures
            r@ == (LineView { layer: layer@, ..self@ }),
    {
        DxfLine { layer: String::from_str(layer), ..self }
    }

    /// A line with every attribute at its default.
    pub fn default_entity() -> (r: DxfLine)
        ensures
            r@ == default_line(),
    {
        DxfLine {
            x1: NumText::zero(),
            y1: NumText::zero(),
            x2: NumText::zero(),
            y2: NumText::zero(),
            color: 7,
            layer: layer_zero(),
        }
    }

    pub fn copy(&self) -> (r: DxfLine)
        ensures
            r@ == self@,
    {
        DxfLine {
            x1: self.x1.copy(),
            y1: self.y1.copy(),
            x2: self.x2.copy(),
            y2: self.y2.copy(),
            color: self.color,
            layer: self.layer.clone(),
        }
    }
}

/// A TEXT entity.
#[derive(Clone, Debug)]
pub struct DxfText {
    pub x: NumText,
    pub y: NumText,
    pub text: String,
    pub height: NumText,
    pub rotation: NumText,
    pub color: i32,
    pub layer: String,
    pub align_h: HorizontalAlignment,
    pub align_v: VerticalAlignment,
}

/// What a TEXT holds.
pub struct TextView {
    pub x: Seq<char>,
    pub y: Seq<char>,
    pub text: Seq<char>,
    pub height: Seq<char>,
    pub rotation: Seq<char>,
    pub color: i32,
    pub layer: Seq<char>,
    pub align_h: HorizontalAlignment,
    pub align_v: VerticalAlignment,
}

impl View for DxfText {
    type V = TextView;

    open spec fn view(&self) -> TextView {
        TextView {
            x: self.x@,
            y: self.y@,
            text: self.text@,
            height: self.height@,
            rotation: self.rotation@,
            color: self.color,
            layer: self.layer@,
            align_h: self.align_h,
            align_v: self.align_v,
        }
    }
}

/// A TEXT with every attribute at its default: empty, height 1, left and
/// baseline aligned.
pub open spec fn default_text() -> TextView {
    TextView {
        x: zero_text(),
        y: zero_text(),
        text: Seq::empty(),
        height: one_text(),
        rotation: zero_text(),
        color: default_color(),
        layer: default_layer(),
        align_h: HorizontalAlignment::Left,
        align_v: VerticalAlignment::Baseline,
    }
}

impl DxfText {
    /// A text at (x, y) with the default attributes.
    pub fn new(x: NumText, y: NumText, text: &str) -> (r: DxfText)
        ensures
            r@ == (TextView { x: x@, y: y@, text: text@, ..default_text() }),
    {
        DxfText {
            x,
            y,
            text: String::from_str(text),
            height: NumText::one(),
            rotation: NumText::zero(),
            color: 7,
            layer: layer_zero(),
            align_h: HorizontalAlignment::Left,
            align_v: VerticalAlignment::Baseline,
        }
    }

    /// The same text with another height.
    pub fn height(self, height: NumText) -> (r: DxfText)
        ensures
            r@ == (TextView { height: height@, ..self@ }),
    {
        DxfText { height, ..self }
    }

    /// The same text with another rotation (degrees).
    pub fn rotation(self, rotation: NumText) -> (r: DxfText)
        ensures
            r@ == (TextView { rotation: rotation@, ..self@ }),
    {
        DxfText { rotation, ..self }
    }

    /// The same text in another color.
    pub fn color(self, color: i32) -> (r: DxfText)
        ensures
            r@ == (TextView { color, ..self@ }),
    {
        DxfText { color, ..self }
    }

    /// The same text with another horizontal alignment.
    pub fn align_h(self, align_h: HorizontalAlignment) -> (r: DxfText)
        ensures
            r@ == (TextView { align_h, ..self@ }),
    {
        DxfText { align_h, ..self }
    }

    /// The same text with another vertical alignment.
    pub fn align_v(self, align_v: VerticalAlignment) -> (r: DxfText)
        ensures
            r@ == (TextView { align_v, ..self@ }),
    {
        DxfText { align_v, ..self }
    }

    /// The same text on another layer.
    pub fn layer(self, layer: &str) -> (r: DxfText)
        ensures
            r@ == (TextView { layer: layer@, ..self@ }),
    {
        DxfText { layer: String::from_str(layer), ..self }
    }

    /// A text with every attribute at its default.
    pub fn default_entity() -> (r: DxfText)
        ensures
            r@ == default_text(),
    {
        let t = DxfText::new(NumText::zero(), NumText::zero(), "");
        proof {
            reveal_strlit("");
        }
        assert(t.text@ =~= Seq::<char>::empty());
        t
    }

    pub fn copy(&self) -> (r: DxfText)
        ensures
            r@ == self@,
    {
        DxfText {
            x: self.x.copy(),
            y: self.y.copy(),
            text: self.text.clone(),
            height: self.height.copy(),
            rotation: self.rotation.copy(),
            color: self.color,
            layer: self.layer.clone(),
            align_h: self.align_h,
            align_v: self.align_v,
        }
    }
}

/// A CIRCLE entity.
#[derive(Clone, Debug)]
pub struct DxfCircle {
    pub x: NumText,
    pub y: NumText,
    pub radius: NumText,
    pub color: i32,
    pub layer: String,
}

/// What a CIRCLE holds.
pub struct CircleView {
    pub x: Seq<char>,
    pub y: Seq<char>,
    pub radius: Seq<char>,
    pub color: i32,
    pub layer: Seq<char>,
}

impl View for DxfCircle {
    type V = CircleView;

    open spec fn view(&self) -> CircleView {
        CircleView {
            x: self.x@,
            y: self.y@,
            radius: self.radius@,
            color: self.color,
            layer: self.layer@,
        }
    }
}

/// A CIRCLE with every attribute at its default (radius 1).
pub open spec fn default_circle() -> CircleView {
    CircleView {
        x: zero_text(),
        y: zero_text(),
        radius: one_text(),
        color: default_color(),
        layer: default_layer(),
    }
}

impl DxfCircle {
    /// A circle at (x, y) with the default color and layer.
    pub fn new(x: NumText, y: NumText, radius: NumText) -> (r: DxfCircle)
        ensures
            r@ == (CircleView { x: x@, y: y@, radius: radius@, ..default_circle() }),
    {
        DxfCircle { x, y, radius, color: 7, layer: layer_zero() }
    }

    /// The same circle in another color.
    pub fn color(self, color: i32) -> (r: DxfCircle)
        ensures
            r@ == (CircleView { color, ..self@ }),
    {
        DxfCircle { color, ..self }
    }

    /// The same circle on another layer.
    pub fn layer(self, layer: &str) -> (r: DxfCircle)
        ensures
            r@ == (CircleView { layer: layer@, ..self@ }),
    {
        DxfCircle { layer: String::from_str(layer), ..self }
    }

    pub fn default_entity() -> (r: DxfCircle)
        ensures
            r@ == default_circle(),
    {
        DxfCircle {
            x: NumText::zero(),
            y: NumText::zero(),
            radius: NumText::one(),
            color: 7,
            layer: layer_zero(),
        }
    }
}

/// A LWPOLYLINE entity.
#[derive(Clone, Debug)]
pub struct DxfLwPolyline {
    pub vertices: Vec<(NumText, NumText)>,
    pub closed: bool,
    pub color: i32,
    pub layer: String,
}

/// What a LWPOLYLINE holds.
pub struct PolylineView {
    pub vertices: Seq<(Seq<char>, Seq<char>)>,
    pub closed: bool,
    pub color: i32,
    pub layer: Seq<char>,
}

pub open spec fn vertex_views(v: Seq<(NumText, NumText)>) -> Seq<(Seq<char>, Seq<char>)> {
    v.map_values(|p: (NumText, NumText)| (p.0@, p.1@))
}

impl View for DxfLwPolyline {
    type V = PolylineView;

    open spec fn view(&self) -> PolylineView {
        PolylineView {
            vertices: vertex_views(self.vertices@),
            closed: self.closed,
            color: self.color,
            layer: self.layer@,
        }
    }
}

/// An open LWPOLYLINE without vertices, default color and layer.
pub open spec fn default_polyline() -> PolylineView {
    PolylineView {
        vertices: Seq::empty(),
        closed: false,
        color: default_color(),
        layer: default_layer(),
    }
}

impl DxfLwPolyline {
    /// An open polyline through `vertices`, default color and layer.
    pub fn new(vertices: Vec<(NumText, NumText)>) -> (r: DxfLwPolyline)
        ensures
            r@ == (PolylineView { vertices: vertex_views(vertices@), ..default_polyline() }),
    {
        DxfLwPolyline { vertices, closed: false, color: 7, layer: layer_zero() }
    }

    /// A closed polyline through `vertices`, default color and layer.
    pub fn closed(vertices: Vec<(NumText, NumText)>) -> (r: DxfLwPolyline)
        ensures
            r@ == (PolylineView {
                vertices: vertex_views(vertices@),
                closed: true,
                ..default_polyline()
            }),
    {
        DxfLwPolyline { vertices, closed: true, color: 7, layer: layer_zero() }
    }

    /// The same polyline in another color.
    pub fn color(self, color: i32) -> (r: DxfLwPolyline)
        ensures
            r@ == (PolylineView { color, ..self@ }),
    {
        DxfLwPolyline { color, ..self }
    }

    /// The same polyline on another layer.
    pub fn layer(self, layer: &str) -> (r: DxfLwPolyline)
        ensures
            r@ == (PolylineView { layer: layer@, ..self@ }),
    {
        DxfLwPolyline { layer: String::from_str(layer), ..self }
    }

    pub fn default_entity() -> (r: DxfLwPolyline)
        ensures
            r@ == default_polyline(),
    {
        let r = DxfLwPolyline { vertices: Vec::new(), closed: false, color: 7, layer: layer_zero() };
        assert(vertex_views(r.vertices@) =~= Seq::<(Seq<char>, Seq<char>)>::empty());
        r
    }
}

} // verus!
