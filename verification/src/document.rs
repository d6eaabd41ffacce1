//! The document: what stands before the layers, the layers in their order, and
//! what stands after them; looking objects up by id and changing them.

use crate::error::{Error, ErrorView, MissingId, ParseLayer, ParseLayerView};
use crate::event::{
    closes_layer, copy_bytes, opens_layer, tag_content, without_key, Attribute, AttributeView,
    Element, ElementView, Event, EventView, DISPLAY_NONE, GROUP, IMAGE, STYLE,
};
use crate::object::{promoted, updated, EncodedImage, Object, ObjectView, ShapeView};
use crate::parse::{parse_document, segment, tokenize};
use crate::scan::readable;
use crate::xml::tokens;
use vstd::prelude::*;
use vstd::slice::slice_to_vec;

verus! {

/// A layer: one group of the document with an id and a name, and the objects
/// between its opening and its closing tag.
#[derive(Debug)]
pub struct Layer {
    id: String,
    name: String,
    header: Element,
    content: Vec<Object>,
    footer: Event,
}

/// Mathematical model of a [`Layer`].
pub struct LayerView {
    pub id: Seq<char>,
    pub name: Seq<char>,
    pub header: ElementView,
    pub content: Seq<ObjectView>,
    pub footer: EventView,
}

impl View for Layer {
    type V = LayerView;

    closed spec fn view(&self) -> LayerView {
        LayerView {
            id: self.id@,
            name: self.name@,
            header: self.header@,
            content: self.content.deep_view(),
            footer: self.footer@,
        }
    }
}

impl DeepView for Layer {
    type V = LayerView;

    open spec fn deep_view(&self) -> LayerView {
        self@
    }
}

/// The attributes of a header that hides its layer: those of `attributes` not
/// under `style`, in their order, then `style="display:none"`.
pub open spec fn hidden(attributes: Seq<AttributeView>) -> Seq<AttributeView> {
    without_key(attributes, STYLE@).push(AttributeView { key: STYLE@, value: DISPLAY_NONE@ })
}

/// The attributes of a header that shows its layer: those of `attributes` not
/// under `style`, in their order.
pub open spec fn visible(attributes: Seq<AttributeView>) -> Seq<AttributeView> {
    without_key(attributes, STYLE@)
}

/// The tag `element` with `attributes` in the place of its own, in canonical
/// form.
pub open spec fn with_attributes(element: ElementView, attributes: Seq<AttributeView>) -> ElementView {
    ElementView { name: element.name, attributes, content: tag_content(element.name, attributes) }
}

impl Layer {
    /// A layer made of its parts.
    pub fn new(id: String, name: String, header: Element, content: Vec<Object>, footer: Event) -> (layer:
        Layer)
        ensures
            layer@ == (LayerView {
                id: id@,
                name: name@,
                header: header@,
                content: content.deep_view(),
                footer: footer@,
            }),
    {
        Layer { id, name, header, content, footer }
    }

    /// The parts of the layer: id, name, opening tag, objects, closing tag.
    pub fn into_parts(self) -> (parts: (String, String, Element, Vec<Object>, Event))
        ensures
            self@ == (LayerView {
                id: parts.0@,
                name: parts.1@,
                header: parts.2@,
                content: parts.3.deep_view(),
                footer: parts.4@,
            }),
    {
        (self.id, self.name, self.header, self.content, self.footer)
    }

    /// The id of the layer.
    pub fn id(&self) -> (id: &str)
        ensures
            id@ == self@.id,
    {
        self.id.as_str()
    }

    /// The name of the layer.
    pub fn name(&self) -> (name: &str)
        ensures
            name@ == self@.name,
    {
        self.name.as_str()
    }

    /// The opening tag of the layer.
    pub fn header(&self) -> (header: &Element)
        ensures
            header@ == self@.header,
    {
        &self.header
    }

    /// The objects of the layer, in their order.
    pub fn content(&self) -> (content: &[Object])
        ensures
            content.deep_view() == self@.content,
    {
        self.content.as_slice()
    }

    /// The closing tag of the layer.
    pub fn footer(&self) -> (footer: &Event)
        ensures
            footer@ == self@.footer,
    {
        &self.footer
    }

    /// Makes the layer visible: its header loses every `style` attribute.
    pub fn set_visible(&mut self)
        ensures
            final(self)@ == (LayerView {
                header: with_attributes(old(self)@.header, visible(old(self)@.header.attributes)),
                ..old(self)@
            }),
    {
        let header = self.header.stripped(STYLE.as_slice());
        self.header = header;
    }

    /// Makes the layer hidden: its header loses every `style` attribute and
    /// gets `style="display:none"` as its last.
    pub fn set_hidden(&mut self)
        ensures
            final(self)@ == (LayerView {
                header: with_attributes(old(self)@.header, hidden(old(self)@.header.attributes)),
                ..old(self)@
            }),
    {
        let added = Attribute::new(
            slice_to_vec(STYLE.as_slice()),
            slice_to_vec(DISPLAY_NONE.as_slice()),
        );
        let header = self.header.replaced(copy_bytes(&self.header.name), STYLE.as_slice(), added);
        self.header = header;
    }
}

/// A parsed document.
#[derive(Debug)]
pub struct Inkscape {
    leading_events: Vec<Event>,
    layers: Vec<Layer>,
    trailing_events: Vec<Event>,
}

/// Mathematical model of an [`Inkscape`].
pub struct InkscapeView {
    pub leading_events: Seq<EventView>,
    pub layers: Seq<LayerView>,
    pub trailing_events: Seq<EventView>,
}

impl View for Inkscape {
    type V = InkscapeView;

    closed spec fn view(&self) -> InkscapeView {
        InkscapeView {
            leading_events: self.leading_events.deep_view(),
            layers: self.layers.deep_view(),
            trailing_events: self.trailing_events.deep_view(),
        }
    }
}

/// The events that the objects of a layer are written as, in order.
pub open spec fn object_events(content: Seq<ObjectView>) -> Seq<EventView> {
    content.map_values(|o: ObjectView| o.event())
}

impl LayerView {
    /// The events of the layer in the order in which they are written: the
    /// header, the objects, the footer.
    pub open spec fn events(self) -> Seq<EventView> {
        seq![EventView::Start(self.header)] + object_events(self.content) + seq![self.footer]
    }
}

/// The events of the layers in the order in which they are written.
pub open spec fn layer_events(layers: Seq<LayerView>) -> Seq<EventView>
    decreases layers.len(),
{
    if layers.len() == 0 {
        Seq::empty()
    } else {
        layer_events(layers.drop_last()) + layers.last().events()
    }
}

impl InkscapeView {
    /// Whether the document is as parsing leaves it: no event before the layers
    /// opens a layer, every layer is opened and closed by a tag of a group, and
    /// what stands behind the layers does not start with the opening of one.
    pub open spec fn well_formed(self) -> bool {
        &&& forall|i: int|
            0 <= i < self.leading_events.len() ==> !opens_layer(#[trigger] self.leading_events[i])
        &&& forall|l: int|
            0 <= l < self.layers.len() ==> {
                &&& (#[trigger] self.layers[l]).header.name == GROUP@
                &&& closes_layer(self.layers[l].footer)
            }
        &&& self.trailing_events.len() > 0 ==> !opens_layer(self.trailing_events[0])
    }

    /// The events of the document in the order in which they are written.
    pub open spec fn events(self) -> Seq<EventView> {
        self.leading_events + layer_events(self.layers) + self.trailing_events
    }
}

/// Whether the object is a rectangle or an image with this id.
pub open spec fn has_id(object: ObjectView, id: Seq<char>) -> bool {
    object.ident() matches Some(ident) && ident.id == id
}

/// The index of the first object with this id, if there is one.
pub open spec fn position(content: Seq<ObjectView>, id: Seq<char>) -> Option<int>
    decreases content.len(),
{
    if content.len() == 0 {
        None
    } else if has_id(content[0], id) {
        Some(0)
    } else {
        match position(content.skip(1), id) {
            Some(o) => Some(o + 1),
            None => None,
        }
    }
}

/// The place of the first object with this id in the order of the document:
/// the index of its layer and its index in the layer.
pub open spec fn locate(layers: Seq<LayerView>, id: Seq<char>) -> Option<(int, int)>
    decreases layers.len(),
{
    if layers.len() == 0 {
        None
    } else {
        match position(layers[0].content, id) {
            Some(o) => Some((0, o)),
            None => match locate(layers.skip(1), id) {
                Some((l, o)) => Some((l + 1, o)),
                None => None,
            },
        }
    }
}

/// The object that holds `payload` in the place of `object`: the image that a
/// rectangle is promoted to, the image with its payload exchanged; anything
/// else stays.
pub open spec fn assigned(object: ObjectView, payload: Seq<u8>) -> ObjectView {
    match object {
        ObjectView::Rectangle(r) => ObjectView::Image(
            ShapeView {
                ident: r.ident,
                element: ElementView {
                    name: IMAGE@,
                    attributes: promoted(r.element.attributes, payload),
                    content: tag_content(IMAGE@, promoted(r.element.attributes, payload)),
                },
            },
        ),
        ObjectView::Image(i) => ObjectView::Image(
            ShapeView {
                ident: i.ident,
                element: with_attributes(i.element, updated(i.element.attributes, payload)),
            },
        ),
        ObjectView::Other(e) => ObjectView::Other(e),
    }
}

/// The ids of the rectangles and images among `content`, in order.
pub open spec fn ids_of(content: Seq<ObjectView>) -> Seq<Seq<char>>
    decreases content.len(),
{
    if content.len() == 0 {
        Seq::empty()
    } else {
        match content[0].ident() {
            Some(ident) => seq![ident.id] + ids_of(content.skip(1)),
            None => ids_of(content.skip(1)),
        }
    }
}

/// The ids of the rectangles and images of all layers, in the order of the
/// document.
pub open spec fn all_ids(layers: Seq<LayerView>) -> Seq<Seq<char>>
    decreases layers.len(),
{
    if layers.len() == 0 {
        Seq::empty()
    } else {
        ids_of(layers[0].content) + all_ids(layers.skip(1))
    }
}

/// No object before index `o` has the id.
proof fn lemma_position_first(content: Seq<ObjectView>, id: Seq<char>, o: int)
    requires
        0 <= o <= content.len(),
        forall|j: int| 0 <= j < o ==> !has_id(#[trigger] content[j], id),
    ensures
        position(content, id) == match position(content.skip(o), id) {
            Some(k) => Some(k + o),
            None => None,
        },
    decreases o,
{
    if o == 0 {
        assert(content.skip(0) == content);
    } else {
        let rest = content.skip(1);
        assert forall|j: int| 0 <= j < o - 1 implies !has_id(#[trigger] rest[j], id) by {
            assert(rest[j] == content[j + 1]);
        }
        lemma_position_first(rest, id, o - 1);
        assert(rest.skip(o - 1) == content.skip(o));
    }
}

/// No layer before index `l` holds the id.
proof fn lemma_locate_first(layers: Seq<LayerView>, id: Seq<char>, l: int)
    requires
        0 <= l <= layers.len(),
        forall|k: int| 0 <= k < l ==> position((#[trigger] layers[k]).content, id) is None,
    ensures
        locate(layers, id) == match locate(layers.skip(l), id) {
            Some((k, o)) => Some((k + l, o)),
            None => None,
        },
    decreases l,
{
    if l == 0 {
        assert(layers.skip(0) == layers);
    } else {
        let rest = layers.skip(1);
        assert forall|k: int| 0 <= k < l - 1 implies position(
            (#[trigger] rest[k]).content,
            id,
        ) is None by {
            assert(rest[k] == layers[k + 1]);
        }
        lemma_locate_first(rest, id, l - 1);
        assert(rest.skip(l - 1) == layers.skip(l));
        assert(position(layers[0].content, id) is None);
    }
}

impl Inkscape {
    /// A document made of its parts.
    pub fn new(leading_events: Vec<Event>, layers: Vec<Layer>, trailing_events: Vec<Event>) -> (document:
        Inkscape)
        ensures
            document@ == (InkscapeView {
                leading_events: leading_events.deep_view(),
                layers: layers.deep_view(),
                trailing_events: trailing_events.deep_view(),
            }),
    {
        Inkscape { leading_events, layers, trailing_events }
    }

    /// The parts of the document: the events before the layers, the layers,
    /// the events behind them.
    pub fn into_parts(self) -> (parts: (Vec<Event>, Vec<Layer>, Vec<Event>))
        ensures
            self@ == (InkscapeView {
                leading_events: parts.0.deep_view(),
                layers: parts.1.deep_view(),
                trailing_events: parts.2.deep_view(),
            }),
    {
        (self.leading_events, self.layers, self.trailing_events)
    }

    /// Parses a document from the events of its stream.
    pub fn from_events(events: Vec<Event>) -> (parsed: Result<Inkscape, ParseLayer>)
        ensures
            match parsed {
                Ok(document) => parse_document(events.deep_view()) == Ok::<
                    InkscapeView,
                    ParseLayerView,
                >(document@) && document@.well_formed(),
                Err(e) => parse_document(events.deep_view()) == Err::<InkscapeView, ParseLayerView>(
                    e@,
                ),
            },
    {
        segment(events)
    }

    /// Parses a document from its bytes: the tokenizer splits them into events,
    /// as [`tokenize`] says, and the events are parsed as
    /// [`Inkscape::from_events`] does.
    pub fn parse_svg(bytes: &[u8]) -> (parsed: Result<Inkscape, Error>)
        ensures
            match parsed {
                Ok(document) => parse_document(tokens(readable(bytes@))) == Ok::<
                    InkscapeView,
                    ParseLayerView,
                >(document@) && document@.well_formed(),
                Err(e) => e@ matches ErrorView::ParseLayer(reason) && parse_document(
                    tokens(readable(bytes@)),
                ) == Err::<InkscapeView, ParseLayerView>(reason),
            },
    {
        match segment(tokenize(bytes)) {
            Ok(document) => Ok(document),
            Err(e) => Err(Error::ParseLayer(e)),
        }
    }

    /// The place of the first rectangle or image with this id, in the order of
    /// the document: layer by layer, object by object.
    fn place_of(&self, id: &String) -> (place: Option<(usize, usize)>)
        ensures
            match place {
                Some((l, o)) => {
                    &&& locate(self@.layers, id@) == Some((l as int, o as int))
                    &&& l < self.layers.len()
                    &&& o < self.layers[l as int].content.len()
                    &&& has_id(self@.layers[l as int].content[o as int], id@)
                },
                None => locate(self@.layers, id@) is None,
            },
    {
        let ghost layers = self@.layers;
        let mut l: usize = 0;
        while l < self.layers.len()
            invariant
                l <= self.layers.len(),
                layers == self@.layers,
                layers == self.layers.deep_view(),
                forall|k: int| 0 <= k < l ==> position((#[trigger] layers[k]).content, id@) is None,
            decreases self.layers.len() - l,
        {
            let layer = &self.layers[l];
            let ghost content = layers[l as int].content;
            assert(content == layer.content.deep_view());
            let mut o: usize = 0;
            while o < layer.content.len()
                invariant
                    o <= layer.content.len(),
                    l < self.layers.len(),
                    layers == self@.layers,
                    layers == self.layers.deep_view(),
                    layer == &self.layers[l as int],
                    content == layers[l as int].content,
                    content == layer.content.deep_view(),
                    forall|k: int|
                        0 <= k < l ==> position((#[trigger] layers[k]).content, id@) is None,
                    forall|j: int| 0 <= j < o ==> !has_id(#[trigger] content[j], id@),
                decreases layer.content.len() - o,
            {
                assert(content[o as int] == layer.content[o as int]@);
                if object_has_id(&layer.content[o], id) {
                    proof {
                        lemma_position_first(content, id@, o as int);
                        assert(content.skip(o as int)[0] == content[o as int]);
                        lemma_locate_first(layers, id@, l as int);
                        assert(layers.skip(l as int)[0] == layers[l as int]);
                    }
                    return Some((l, o));
                }
                o = o + 1;
            }
            proof {
                lemma_position_first(content, id@, content.len() as int);
                assert(content.skip(content.len() as int).len() == 0);
            }
            l = l + 1;
        }
        proof {
            lemma_locate_first(layers, id@, layers.len() as int);
            assert(layers.skip(layers.len() as int).len() == 0);
        }
        None
    }

    /// The first rectangle or image with this id, in the order of the
    /// document; other objects are passed over.
    pub fn find_by_id(&self, id: &str) -> (found: Option<&Object>)
        ensures
            match found {
                Some(object) => locate(self@.layers, id@) matches Some((l, o)) && object@
                    == self@.layers[l].content[o],
                None => locate(self@.layers, id@) is None,
            },
    {
        let wanted = id.to_owned();
        match self.place_of(&wanted) {
            Some((l, o)) => Some(&self.layers[l].content[o]),
            None => None,
        }
    }

    /// Puts `image` in the place of the first rectangle or image with this id:
    /// a rectangle becomes the image it is promoted to, an image gets the
    /// payload in the place of its own. Without such an object the document
    /// stays as it is.
    pub fn id_to_image(&mut self, id: &str, image: EncodedImage) -> (done: Result<(), MissingId>)
        ensures
            match done {
                Ok(_) => locate(old(self)@.layers, id@) matches Some((l, o)) && final(self)@ == (
                InkscapeView {
                    layers: old(self)@.layers.update(
                        l,
                        LayerView {
                            content: old(self)@.layers[l].content.update(
                                o,
                                assigned(old(self)@.layers[l].content[o], image.bytes()),
                            ),
                            ..old(self)@.layers[l]
                        },
                    ),
                    ..old(self)@
                }),
                Err(e) => locate(old(self)@.layers, id@) is None && e.id@ == id@ && final(self)@
                    == old(self)@,
            },
            old(self)@.well_formed() ==> final(self)@.well_formed(),
    {
        let wanted = id.to_owned();
        match self.place_of(&wanted) {
            None => Err(MissingId { id: wanted }),
            Some((l, o)) => {
                let mut layer = self.layers.remove(l);
                let ghost before = layer@;
                let object = layer.content.remove(o);
                let ghost was = object@;
                let made = match object {
                    Object::Rectangle(rect) => {
                        let mut rect = rect;
                        Object::Image(rect.set_image(image))
                    },
                    Object::Image(img) => {
                        let mut img = img;
                        img.update_image(image);
                        Object::Image(img)
                    },
                    Object::Other(event) => Object::Other(event),
                };
                assert(made@ == assigned(was, image.bytes()));
                layer.content.insert(o, made);
                assert(layer.content.deep_view() == before.content.update(o as int, made@));
                self.layers.insert(l, layer);
                assert(self.layers.deep_view() == old(self).layers.deep_view().update(
                    l as int,
                    layer@,
                ));
                Ok(())
            },
        }
    }

    /// The width and the height of the first rectangle or image with this id,
    /// as the document wrote them. The document stays as it is.
    pub fn dimensions(&mut self, id: &str) -> (found: Result<(String, String), MissingId>)
        ensures
            final(self)@ == old(self)@,
            match found {
                Ok((width, height)) => locate(old(self)@.layers, id@) matches Some((l, o)) && old(
                    self,
                )@.layers[l].content[o].ident() matches Some(ident) && width@ == ident.width
                    && height@ == ident.height,
                Err(e) => locate(old(self)@.layers, id@) is None && e.id@ == id@,
            },
    {
        let wanted = id.to_owned();
        match self.place_of(&wanted) {
            None => Err(MissingId { id: wanted }),
            Some((l, o)) => match &self.layers[l].content[o] {
                Object::Rectangle(rect) => Ok((rect.ident.width.clone(), rect.ident.height.clone())),
                Object::Image(img) => Ok((img.ident.width.clone(), img.ident.height.clone())),
                Object::Other(_) => Err(MissingId { id: wanted }),
            },
        }
    }

    /// An iterator over the ids of the rectangles and images, in the order of
    /// the document, from the start.
    pub fn object_ids(&self) -> (ids: IdIterator<'_>)
        ensures
            ids.remaining() == all_ids(self@.layers),
    {
        IdIterator::new(self.layers.as_slice())
    }

    /// The events before the first layer.
    pub fn leading_events(&self) -> (events: &[Event])
        ensures
            events.deep_view() == self@.leading_events,
    {
        self.leading_events.as_slice()
    }

    /// The events behind the last layer.
    pub fn trailing_events(&self) -> (events: &[Event])
        ensures
            events.deep_view() == self@.trailing_events,
    {
        self.trailing_events.as_slice()
    }

    /// The layers, in the order of the document.
    pub fn get_layers(&self) -> (layers: &[Layer])
        ensures
            layers.deep_view() == self@.layers,
    {
        self.layers.as_slice()
    }

    /// The layers, to change them.
    pub fn get_layers_mut(&mut self) -> (layers: &mut Vec<Layer>)
        ensures
            layers.deep_view() == old(self)@.layers,
            final(self)@ == (InkscapeView { layers: final(layers).deep_view(), ..old(self)@ }),
    {
        &mut self.layers
    }
}

/// Whether the object is a rectangle or an image with this id.
fn object_has_id(object: &Object, id: &String) -> (yes: bool)
    ensures
        yes == has_id(object@, id@),
{
    match object {
        Object::Rectangle(rect) => rect.ident.id == *id,
        Object::Image(img) => img.ident.id == *id,
        Object::Other(_) => false,
    }
}

/// An iterator over the ids of the rectangles and images of some layers, in
/// their order.
pub struct IdIterator<'a> {
    curr_group_idx: usize,
    curr_group_object_idx: usize,
    groups: &'a [Layer],
}

impl<'a> IdIterator<'a> {
    /// The ids that are still to come.
    pub closed spec fn remaining(&self) -> Seq<Seq<char>> {
        if self.curr_group_idx < self.groups.len() {
            ids_of(
                behind(
                    self.groups.deep_view()[self.curr_group_idx as int].content,
                    self.curr_group_object_idx as int,
                ),
            ) + all_ids(self.groups.deep_view().skip(self.curr_group_idx + 1))
        } else {
            Seq::empty()
        }
    }

    /// An iterator over the ids of `groups`, from the start.
    pub fn new(groups: &'a [Layer]) -> (ids: IdIterator<'a>)
        ensures
            ids.remaining() == all_ids(groups.deep_view()),
    {
        let ids = IdIterator { groups, curr_group_idx: 0, curr_group_object_idx: 0 };
        proof {
            let layers = groups.deep_view();
            if layers.len() > 0 {
                assert(layers[0].content.skip(0) == layers[0].content);
            }
        }
        ids
    }

    /// The next id, or `None` once every id has been handed out.
    pub fn next(&mut self) -> (id: Option<&'a str>)
        ensures
            match id {
                Some(id) => old(self).remaining().len() > 0 && id@ == old(self).remaining()[0]
                    && final(self).remaining() == old(self).remaining().skip(1),
                None => old(self).remaining().len() == 0 && final(self).remaining().len() == 0,
            },
    {
        let groups: &'a [Layer] = self.groups;
        let ghost layers = groups.deep_view();
        while self.curr_group_idx < groups.len()
            invariant
                self.groups == groups,
                layers == groups.deep_view(),
                self.remaining() == old(self).remaining(),
            decreases
                    groups.len() - self.curr_group_idx,
                    if self.curr_group_idx < groups.len() && self.curr_group_object_idx
                        <= groups[self.curr_group_idx as int].content.len() {
                        groups[self.curr_group_idx as int].content.len()
                            - self.curr_group_object_idx
                    } else {
                        0
                    },
        {
            let group: &'a Layer = &groups[self.curr_group_idx];
            let ghost content = layers[self.curr_group_idx as int].content;
            let ghost o = self.curr_group_object_idx as int;
            assert(content == group.content.deep_view());
            if self.curr_group_object_idx < group.content.len() {
                let object: &'a Object = &group.content[self.curr_group_object_idx];
                proof {
                    assert(content.skip(o)[0] == object@);
                    assert(content.skip(o).skip(1) == content.skip(o + 1));
                }
                self.curr_group_object_idx = self.curr_group_object_idx + 1;
                match object {
                    Object::Rectangle(rect) => {
                        proof {
                            let rest = ids_of(content.skip(o + 1)) + all_ids(
                                layers.skip(self.curr_group_idx + 1),
                            );
                            assert(old(self).remaining() == seq![rect.ident.id@] + rest);
                            assert((seq![rect.ident.id@] + rest).skip(1) == rest);
                        }
                        return Some(rect.ident.id.as_str());
                    },
                    Object::Image(image) => {
                        proof {
                            let rest = ids_of(content.skip(o + 1)) + all_ids(
                                layers.skip(self.curr_group_idx + 1),
                            );
                            assert(old(self).remaining() == seq![image.ident.id@] + rest);
                            assert((seq![image.ident.id@] + rest).skip(1) == rest);
                        }
                        return Some(image.ident.id.as_str());
                    },
                    Object::Other(_) => {},
                }
            } else {
                proof {
                    assert(behind(content, o).len() == 0);
                    let later = layers.skip(self.curr_group_idx + 1);
                    assert(Seq::<Seq<char>>::empty() + all_ids(later) == all_ids(later));
                    if self.curr_group_idx + 1 < groups.len() {
                        assert(later[0] == layers[self.curr_group_idx + 1]);
                        assert(later.skip(1) == layers.skip(self.curr_group_idx + 2));
                        assert(later[0].content.skip(0) == later[0].content);
                    } else {
                        assert(later.len() == 0);
                    }
                }
                self.curr_group_idx = self.curr_group_idx + 1;
                self.curr_group_object_idx = 0;
            }
        }
        None
    }
}

/// The objects of `content` from index `o` on; none where `o` lies behind the
/// last.
pub open spec fn behind(content: Seq<ObjectView>, o: int) -> Seq<ObjectView> {
    if 0 <= o <= content.len() {
        content.skip(o)
    } else {
        Seq::empty()
    }
}

} // verus!
