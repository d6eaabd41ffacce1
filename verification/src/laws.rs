//! What holds of the library as a whole: laws that relate several of its
//! operations, each proved from the definitions the contracts are stated in.

use crate::document::{
    all_ids, assigned, hidden, ids_of, layer_events, locate, object_events, position, visible,
    LayerView,
};
use crate::error::{IdentifierErrorView, ParseLayerView};
use crate::event::{
    closes_layer, has_key, lemma_without_key_clean, lemma_without_key_push, opens_layer,
    without_key, AttributeView, ElementView, EventView, DISPLAY_NONE, HEIGHT, ID, IMAGE, LABEL,
    RECT, STYLE, WIDTH,
};
use crate::object::{
    classify, fault, first_fault, identity, last_text, promoted, updated, ObjectView,
};
use crate::parse::{
    behind_close, first_close, first_open, lemma_first_open, object_of, objects, parse_document,
    parse_group, parse_layers, text_under, until_eof,
};
use crate::write::{events_of, render_all, replay, replay_carries_every_event};
use vstd::prelude::*;

verus! {

/// Hiding a layer twice gives the header attributes that hiding it once
/// gives.
pub proof fn hiding_is_idempotent(attributes: Seq<AttributeView>)
    ensures
        hidden(hidden(attributes)) == hidden(attributes),
{
    let style = AttributeView { key: STYLE@, value: DISPLAY_NONE@ };
    lemma_without_key_push(without_key(attributes, STYLE@), style, STYLE@);
    lemma_without_key_clean(attributes, STYLE@);
}

/// Showing a layer after hiding it leaves no `style` attribute at all: the
/// header has the attributes that showing alone gives, and none of them
/// stands under `style`. Showing twice gives what showing once gives.
pub proof fn showing_removes_style(attributes: Seq<AttributeView>)
    ensures
        visible(hidden(attributes)) == visible(attributes),
        !has_key(visible(hidden(attributes)), STYLE@),
        visible(visible(attributes)) == visible(attributes),
{
    let style = AttributeView { key: STYLE@, value: DISPLAY_NONE@ };
    lemma_without_key_push(without_key(attributes, STYLE@), style, STYLE@);
    lemma_without_key_clean(attributes, STYLE@);
}

/// Whether the attributes give an identity: an id, a width and a height are
/// there, and no attribute is at fault.
pub open spec fn gives_identity(attributes: Seq<AttributeView>) -> bool {
    &&& has_key(attributes, ID@)
    &&& has_key(attributes, WIDTH@)
    &&& has_key(attributes, HEIGHT@)
    &&& forall|i: int| 0 <= i < attributes.len() ==> fault(#[trigger] attributes[i]) is None
}

/// Some attribute stands under a key exactly if the last one under it has a
/// text.
proof fn lemma_last_text_has_key(attributes: Seq<AttributeView>, key: Seq<u8>)
    ensures
        last_text(attributes, key) is Some <==> has_key(attributes, key),
    decreases attributes.len(),
{
    if attributes.len() > 0 {
        let rest = attributes.drop_last();
        lemma_last_text_has_key(rest, key);
        if attributes.last().key == key {
            assert(attributes[attributes.len() - 1].key == key);
        } else {
            if has_key(attributes, key) {
                let i = choose|i: int|
                    0 <= i < attributes.len() && (#[trigger] attributes[i]).key == key;
                assert(rest[i].key == key);
            }
            if has_key(rest, key) {
                let i = choose|i: int| 0 <= i < rest.len() && (#[trigger] rest[i]).key == key;
                assert(attributes[i].key == key);
            }
        }
    }
}

/// No attribute has a first fault exactly if none is at fault.
proof fn lemma_first_fault_none(attributes: Seq<AttributeView>)
    ensures
        first_fault(attributes) is None <==> (forall|i: int|
            0 <= i < attributes.len() ==> fault(#[trigger] attributes[i]) is None),
    decreases attributes.len(),
{
    if attributes.len() > 0 {
        let rest = attributes.drop_last();
        lemma_first_fault_none(rest);
        if first_fault(attributes) is None {
            assert forall|i: int| 0 <= i < attributes.len() implies fault(
                #[trigger] attributes[i],
            ) is None by {
                if i < rest.len() {
                    assert(rest[i] == attributes[i]);
                }
            }
        } else {
            if first_fault(rest) is Some {
                let i = choose|i: int| 0 <= i < rest.len() && fault(#[trigger] rest[i]) is Some;
                assert(attributes[i] == rest[i]);
            } else {
                assert(fault(attributes[attributes.len() - 1]) is Some);
            }
        }
    }
}

/// An element named `rect` or `image` is never carried as something else: it
/// is a rectangle or an image respectively exactly if its attributes give an
/// identity, and fails otherwise, so also where an id, a width or a height is
/// missing.
pub proof fn classification_is_complete(element: ElementView)
    requires
        element.name == RECT@ || element.name == IMAGE@,
    ensures
        gives_identity(element.attributes) <==> classify(element) is Ok,
        classify(element) matches Ok(object) ==> {
            &&& !(object is Other)
            &&& object is Rectangle <==> element.name == RECT@
            &&& object is Image <==> element.name == IMAGE@
            &&& object.event() == EventView::Empty(element)
        },
        classify(element) is Err <==> identity(element) is Err,
{
    lemma_last_text_has_key(element.attributes, ID@);
    lemma_last_text_has_key(element.attributes, WIDTH@);
    lemma_last_text_has_key(element.attributes, HEIGHT@);
    lemma_first_fault_none(element.attributes);
    assert(RECT@.len() != IMAGE@.len());
}

/// An element named `rect` or `image` that lacks an id, a width or a height
/// fails, and where none of its attributes is at fault, as one whose
/// identifier is missing: the failure holds the element and what was found.
pub proof fn missing_part_is_reported(element: ElementView)
    requires
        element.name == RECT@ || element.name == IMAGE@,
        !has_key(element.attributes, ID@) || !has_key(element.attributes, WIDTH@) || !has_key(
            element.attributes,
            HEIGHT@,
        ),
    ensures
        classify(element) is Err,
        (forall|i: int|
            0 <= i < element.attributes.len() ==> fault(#[trigger] element.attributes[i]) is None)
            ==> classify(element) == Err::<ObjectView, IdentifierErrorView>(
            IdentifierErrorView::MissingObjectIdentifier {
                element,
                width: last_text(element.attributes, WIDTH@),
                height: last_text(element.attributes, HEIGHT@),
                id: last_text(element.attributes, ID@),
            },
        ),
{
    lemma_last_text_has_key(element.attributes, ID@);
    lemma_last_text_has_key(element.attributes, WIDTH@);
    lemma_last_text_has_key(element.attributes, HEIGHT@);
    lemma_first_fault_none(element.attributes);
}

/// An element with any other name is carried as it is and cannot fail.
pub proof fn other_elements_pass(element: ElementView)
    requires
        element.name != RECT@,
        element.name != IMAGE@,
    ensures
        classify(element) == Ok::<ObjectView, IdentifierErrorView>(
            ObjectView::Other(EventView::Empty(element)),
        ),
{
}

/// Assigning an image to an object keeps its identity. A rectangle and an
/// image are images afterwards; a rectangle that was promoted is updated, not
/// promoted again, by the next assignment.
pub proof fn assignment_keeps_identity(object: ObjectView, first: Seq<u8>, second: Seq<u8>)
    ensures
        assigned(object, first).ident() == object.ident(),
        object.ident() is Some ==> assigned(object, first) is Image,
        object matches ObjectView::Rectangle(r) ==> assigned(assigned(object, first), second)
            matches ObjectView::Image(i) && i.ident == r.ident && i.element.attributes == updated(
            promoted(r.element.attributes, first),
            second,
        ),
{
}

/// The layers with the object at place `(l, o)` assigned `payload`.
pub open spec fn assigned_at(layers: Seq<LayerView>, l: int, o: int, payload: Seq<u8>) -> Seq<
    LayerView,
> {
    layers.update(
        l,
        LayerView {
            content: layers[l].content.update(o, assigned(layers[l].content[o], payload)),
            ..layers[l]
        },
    )
}

/// Exchanging an object for one with the same identity moves no id.
proof fn lemma_same_identity(content: Seq<ObjectView>, o: int, object: ObjectView, id: Seq<char>)
    requires
        0 <= o < content.len(),
        object.ident() == content[o].ident(),
    ensures
        position(content.update(o, object), id) == position(content, id),
        ids_of(content.update(o, object)) == ids_of(content),
    decreases content.len(),
{
    let changed = content.update(o, object);
    if o == 0 {
        assert(changed.skip(1) == content.skip(1));
    } else {
        assert(changed.skip(1) == content.skip(1).update(o - 1, object));
        lemma_same_identity(content.skip(1), o - 1, object, id);
    }
}

/// Exchanging the objects of a layer for others with the same ids moves no id.
proof fn lemma_same_places(layers: Seq<LayerView>, l: int, layer: LayerView, id: Seq<char>)
    requires
        0 <= l < layers.len(),
        position(layer.content, id) == position(layers[l].content, id),
        ids_of(layer.content) == ids_of(layers[l].content),
    ensures
        locate(layers.update(l, layer), id) == locate(layers, id),
        all_ids(layers.update(l, layer)) == all_ids(layers),
    decreases layers.len(),
{
    let changed = layers.update(l, layer);
    if l == 0 {
        assert(changed.skip(1) == layers.skip(1));
    } else {
        assert(changed.skip(1) == layers.skip(1).update(l - 1, layer));
        lemma_same_places(layers.skip(1), l - 1, layer, id);
    }
}

/// Assigning an image to an object leaves every id where it was: each lookup
/// finds the place it found before, and the ids come in the same order.
pub proof fn assignment_keeps_places(
    layers: Seq<LayerView>,
    l: int,
    o: int,
    payload: Seq<u8>,
    id: Seq<char>,
)
    requires
        0 <= l < layers.len(),
        0 <= o < layers[l].content.len(),
    ensures
        locate(assigned_at(layers, l, o, payload), id) == locate(layers, id),
        all_ids(assigned_at(layers, l, o, payload)) == all_ids(layers),
        assigned_at(layers, l, o, payload)[l].content[o].ident() == layers[l].content[o].ident(),
{
    let object = assigned(layers[l].content[o], payload);
    let layer = LayerView { content: layers[l].content.update(o, object), ..layers[l] };
    lemma_same_identity(layers[l].content, o, object, id);
    lemma_same_places(layers, l, layer, id);
}

/// The objects that events become are written as those events.
proof fn lemma_objects_events(events: Seq<EventView>)
    requires
        objects(events) is Ok,
    ensures
        object_events(objects(events)->Ok_0) == events,
    decreases events.len(),
{
    if events.len() > 0 {
        lemma_objects_events(events.drop_last());
        let content = objects(events.drop_last())->Ok_0;
        let object = object_of(events.last())->Ok_0;
        assert(object.event() == events.last());
        assert(object_events(content.push(object)) == object_events(content).push(object.event()));
        assert(events == events.drop_last().push(events.last()));
    } else {
        assert(object_events(Seq::<ObjectView>::empty()) == Seq::<EventView>::empty());
    }
}

/// A layer is written as the events it was read from.
proof fn lemma_group_events(header: ElementView, body: Seq<EventView>)
    requires
        parse_group(header, body) is Ok,
    ensures
        first_close(body) < body.len(),
        parse_group(header, body)->Ok_0.events() == seq![EventView::Start(header)] + body.take(
            first_close(body) + 1 as int,
        ),
{
    let c = first_close(body) as int;
    lemma_objects_events(body.take(c));
    assert(body.take(c + 1) == body.take(c).push(body[c]));
    let layer = parse_group(header, body)->Ok_0;
    assert(layer.events() == seq![EventView::Start(header)] + body.take(c) + seq![body[c]]);
    assert(seq![EventView::Start(header)] + body.take(c) + seq![body[c]] == seq![
        EventView::Start(header),
    ] + body.take(c + 1));
}

/// The events of layers, the first layer taken apart.
proof fn lemma_layer_events_prepend(layer: LayerView, more: Seq<LayerView>)
    ensures
        layer_events(seq![layer] + more) == layer.events() + layer_events(more),
    decreases more.len(),
{
    let all = seq![layer] + more;
    if more.len() == 0 {
        assert(all.drop_last() == Seq::<LayerView>::empty());
        assert(layer_events(all.drop_last()) == Seq::<EventView>::empty());
        assert(all.last() == layer);
        assert(Seq::<EventView>::empty() + layer.events() == layer.events());
        assert(layer.events() + Seq::<EventView>::empty() == layer.events());
    } else {
        assert(all.drop_last() == seq![layer] + more.drop_last());
        assert(all.last() == more.last());
        lemma_layer_events_prepend(layer, more.drop_last());
        assert((layer.events() + layer_events(more.drop_last())) + more.last().events()
            == layer.events() + (layer_events(more.drop_last()) + more.last().events()));
    }
}

/// Layers are written as the events they were read from; what was left behind
/// them follows.
proof fn lemma_layers_events(t: Seq<EventView>)
    requires
        parse_layers(t) is Ok,
    ensures
        layer_events(parse_layers(t)->Ok_0.0) + parse_layers(t)->Ok_0.1 == t,
    decreases t.len(),
{
    if t.len() == 0 || !opens_layer(t[0]) {
        assert(Seq::<EventView>::empty() + t == t);
    } else {
        let body = t.skip(1);
        let c = first_close(body) as int;
        let layer = parse_group(t[0].tag(), body)->Ok_0;
        lemma_group_events(t[0].tag(), body);
        let rest = behind_close(body);
        lemma_layers_events(rest);
        let more = parse_layers(rest)->Ok_0.0;
        let left = parse_layers(rest)->Ok_0.1;
        lemma_layer_events_prepend(layer, more);
        assert(t[0] == EventView::Start(t[0].tag()));
        assert(t == seq![t[0]] + body.take(c + 1) + rest);
        assert((layer.events() + layer_events(more)) + left == layer.events() + (layer_events(
            more,
        ) + left));
    }
}

/// Parsing loses nothing: the events that a parsed document is written as are
/// the events it was parsed from, each as it was, up to the end of the stream.
pub proof fn parsing_keeps_every_event(stream: Seq<EventView>)
    requires
        parse_document(stream) is Ok,
    ensures
        parse_document(stream)->Ok_0.events() == until_eof(stream),
{
    let t = until_eof(stream);
    let p = first_open(t) as int;
    lemma_first_open(t);
    lemma_layers_events(t.skip(p));
    let layers = parse_layers(t.skip(p))->Ok_0.0;
    let left = parse_layers(t.skip(p))->Ok_0.1;
    assert(t == t.take(p) + t.skip(p));
    assert(t.take(p) + layer_events(layers) + left == t.take(p) + (layer_events(layers) + left));
}

/// A document that is parsed and written without a change in between comes
/// out as the bytes of the events it was read from, each as it was and in its
/// place.
pub proof fn writing_after_parsing_renders_the_stream(stream: Seq<EventView>)
    requires
        parse_document(stream) is Ok,
    ensures
        render_all(parse_document(stream)->Ok_0.events()) == render_all(until_eof(stream)),
        events_of(replay(parse_document(stream)->Ok_0)) == until_eof(stream),
{
    parsing_keeps_every_event(stream);
    replay_carries_every_event(parse_document(stream)->Ok_0);
}

/// A layer that is opened and not closed before the stream ends does not
/// parse: where its header gives an id and a label and its objects are in
/// order, the failure is that the layer is not terminated, and it names the
/// layer.
pub proof fn unterminated_layer_fails(header: ElementView, body: Seq<EventView>)
    requires
        forall|i: int| 0 <= i < body.len() ==> !closes_layer(#[trigger] body[i]),
    ensures
        parse_group(header, body) is Err,
        (text_under(header, ID@) is Some && text_under(header, LABEL@) is Some && objects(body) is Ok)
            ==> parse_group(header, body) == Err::<LayerView, ParseLayerView>(
            ParseLayerView::MissingLayerEnd { layer_name: text_under(header, LABEL@)->0 },
        ),
{
    lemma_no_close(body);
    assert(body.take(body.len() as int) == body);
}

/// Where no event closes a layer, all events stand before the first that
/// does.
proof fn lemma_no_close(body: Seq<EventView>)
    requires
        forall|i: int| 0 <= i < body.len() ==> !closes_layer(#[trigger] body[i]),
    ensures
        first_close(body) == body.len(),
    decreases body.len(),
{
    if body.len() > 0 {
        let rest = body.skip(1);
        assert forall|i: int| 0 <= i < rest.len() implies !closes_layer(
            #[trigger] rest[i],
        ) by {
            assert(rest[i] == body[i + 1]);
        }
        lemma_no_close(rest);
    }
}

} // verus!
