//! Layers and layer groups: named raster surfaces holding a pixel set, and
//! the ordered collection of them that makes up one canvas snapshot.

use vstd::prelude::*;
use vstd::pervasive::VecAdditionalExecFns;
use crate::color::Color;
use crate::geom::Point2D;
use crate::pixels::{contains_pt, extend_spec, index_of_pt, Pixel, Pixels};

verus! {

/// One named raster surface of the document.
pub struct Layer {
    pub name: String,
    pub content: Pixels,
    pub visible: bool,
}

impl Layer {
    /// Everything a layer holds, as mathematical values.
    pub open spec fn model(&self) -> (Seq<char>, Seq<Pixel>, bool) {
        (self.name@, self.content@, self.visible)
    }

    /// A layer is well formed when its pixel set is.
    pub open spec fn wf(&self) -> bool {
        self.content.wf()
    }

    /// A fresh, visible, empty layer.
    pub fn new(name: String) -> (r: Layer)
        ensures
            r.name@ == name@,
            r.content@ == Seq::<Pixel>::empty(),
            r.visible,
            r.wf(),
    {
        Layer { name, content: Pixels::new(), visible: true }
    }

    /// The same layer with its content replaced by a copy of `content`.
    pub fn with_pixels(self, content: &Pixels) -> (r: Layer)
        ensures
            r.name@ == self.name@,
            r.content@ == content@,
            r.visible == self.visible,
    {
        Layer { name: self.name, content: content.duplicate(), visible: self.visible }
    }

    /// Read access to the layer's pixels.
    pub fn pixels(&self) -> (r: &Pixels)
        ensures
            r@ == self.content@,
    {
        &self.content
    }

    /// Flip the visibility flag.
    pub fn toggle_visible(&mut self)
        ensures
            final(self).visible == !old(self).visible,
            final(self).name@ == old(self).name@,
            final(self).content@ == old(self).content@,
    {
        self.visible = !self.visible;
    }

    /// The color of this layer's pixel at `p`, when one is there.
    pub fn get_color(&self, p: Point2D) -> (r: Option<Color>)
        requires
            self.wf(),
        ensures
            r is Some <==> contains_pt(self.content@, p),
            r is Some ==> r->0 == self.content@[index_of_pt(self.content@, p)].color,
    {
        self.content.color_at(p)
    }

    /// Merge a pixel set into the layer's content; at a shared point the
    /// new color wins.
    pub fn extend_content(&mut self, pixs: &Pixels)
        requires
            old(self).wf(),
        ensures
            final(self).wf(),
            final(self).content@ == extend_spec(old(self).content@, pixs@),
            final(self).name@ == old(self).name@,
            final(self).visible == old(self).visible,
    {
        self.content.extend(pixs);
    }

    /// An independent copy of the layer.
    pub fn duplicate(&self) -> (r: Layer)
        ensures
            r.model() == self.model(),
    {
        Layer { name: self.name.clone(), content: self.content.duplicate(), visible: self.visible }
    }
}

/// What a layer group holds, as mathematical values: the layer models in
/// order, and the index of the selected layer.
pub type GroupModel = (Seq<(Seq<char>, Seq<Pixel>, bool)>, int);

/// One canvas snapshot: an ordered collection of layers plus the index of
/// the currently selected layer.
pub struct LayerGroup {
    layers: Vec<Layer>,
    selected: usize,
}

impl LayerGroup {
    /// The group as mathematical values.
    pub closed spec fn model(&self) -> GroupModel {
        (self.layers@.map_values(|l: Layer| l.model()), self.selected as int)
    }

    /// The selection is in range and every layer is well formed.
    pub closed spec fn wf(&self) -> bool {
        &&& self.selected < self.layers@.len()
        &&& forall|i: int| 0 <= i < self.layers@.len() ==> (#[trigger] self.layers@[i]).wf()
    }

    /// A well-formed snapshot's selection always points at a layer.
    pub proof fn lemma_selected_in_range(&self)
        requires
            self.wf(),
        ensures
            0 <= self.model().1 < self.model().0.len(),
    {
    }

    /// A fresh snapshot holding one empty visible layer, selected.
    pub fn new(name: String) -> (r: LayerGroup)
        ensures
            r.wf(),
            r.model().1 == 0,
            r.model().0.len() == 1,
            r.model().0[0] == (name@, Seq::<Pixel>::empty(), true),
    {
        let mut layers: Vec<Layer> = Vec::new();
        layers.push(Layer::new(name));
        let r = LayerGroup { layers, selected: 0 };
        assert(r.model().0 =~= seq![(name@, Seq::<Pixel>::empty(), true)]);
        r
    }

    /// How many layers the snapshot holds.
    pub fn layer_count(&self) -> (n: usize)
        ensures
            n == self.model().0.len(),
    {
        self.layers.len()
    }

    /// The index of the selected layer.
    pub fn selected_index(&self) -> (i: usize)
        ensures
            i == self.model().1,
    {
        self.selected
    }

    /// Read access to the layer at `i`.
    pub fn layer(&self, i: usize) -> (r: &Layer)
        requires
            i < self.model().0.len(),
        ensures
            r.model() == self.model().0[i as int],
            self.wf() ==> r.wf(),
    {
        &self.layers[i]
    }

    /// Read access to the selected layer.
    pub fn selected_layer(&self) -> (r: &Layer)
        requires
            self.wf(),
        ensures
            r.model() == self.model().0[self.model().1],
            r.wf(),
    {
        &self.layers[self.selected]
    }

    /// Select the layer at `i`.
    pub fn select(&mut self, i: usize)
        requires
            i < old(self).model().0.len(),
        ensures
            final(self).model().0 == old(self).model().0,
            final(self).model().1 == i,
            old(self).wf() ==> final(self).wf(),
    {
        self.selected = i;
    }

    /// Append a fresh empty layer at the end of the stack.
    pub fn add_layer(&mut self, name: String)
        ensures
            final(self).model().0 == old(self).model().0.push(
                (name@, Seq::<Pixel>::empty(), true),
            ),
            final(self).model().1 == old(self).model().1,
            old(self).wf() ==> final(self).wf(),
    {
        self.layers.push(Layer::new(name));
        assert(self.model().0 =~= old(self).model().0.push(
            (name@, Seq::<Pixel>::empty(), true),
        ));
    }

    /// Merge a pixel set into the selected layer; at a shared point the new
    /// color wins.
    pub fn extend_selected(&mut self, pixs: &Pixels)
        requires
            old(self).wf(),
        ensures
            final(self).wf(),
            final(self).model().1 == old(self).model().1,
            final(self).model().0 == old(self).model().0.update(
                old(self).model().1,
                (
                    old(self).model().0[old(self).model().1].0,
                    extend_spec(old(self).model().0[old(self).model().1].1, pixs@),
                    old(self).model().0[old(self).model().1].2,
                ),
            ),
    {
        let mut tmp = Layer::new(String::new());
        self.layers.set_and_swap(self.selected, &mut tmp);
        tmp.extend_content(pixs);
        self.layers.set_and_swap(self.selected, &mut tmp);
        assert(self.model().0 =~= old(self).model().0.update(
            old(self).model().1,
            (
                old(self).model().0[old(self).model().1].0,
                extend_spec(old(self).model().0[old(self).model().1].1, pixs@),
                old(self).model().0[old(self).model().1].2,
            ),
        ));
    }

    /// An independent copy of the whole snapshot.
    pub fn duplicate(&self) -> (r: LayerGroup)
        ensures
            r.model() == self.model(),
            self.wf() ==> r.wf(),
    {
        let mut layers: Vec<Layer> = Vec::new();
        let n = self.layers.len();
        let mut i: usize = 0;
        while i < n
            invariant
                n == self.layers@.len(),
                0 <= i <= n,
                layers@.len() == i,
                forall|j: int|
                    0 <= j < i ==> (#[trigger] layers@[j]).model() == self.layers@[j].model()
                        && (self.layers@[j].wf() ==> layers@[j].wf()),
            decreases n - i,
        {
            let l = self.layers[i].duplicate();
            proof {
                if self.layers@[i as int].wf() {
                    assert(l.content@ == self.layers@[i as int].content@);
                }
            }
            layers.push(l);
            i = i + 1;
        }
        let r = LayerGroup { layers, selected: self.selected };
        assert(r.model().0 =~= self.model().0);
        r
    }
}

} // verus!
