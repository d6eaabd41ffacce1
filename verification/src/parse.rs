//! Splitting the stream of events into what stands before the layers, the
//! layers, and what stands after them, in one pass.

use crate::document::{Inkscape, InkscapeView, Layer, LayerView};
use crate::error::{
    IdentifierErrorView, MissingLayerEnd, MissingLayerId, MissingLayerName, ParseLayer,
    ParseLayerView, ParseObject,
};
use crate::event::{
    bytes_eq, closes_layer, find_value, first_value, opens_layer, Attribute, Element,
    ElementView, Event, EventView, TokenKind, GROUP, ID, LABEL,
};
use crate::object::{classify, object, Object, ObjectView};
use crate::scan::{readable, readable_len};
use crate::xml::{open_reader, peek_tag, pending, read_token, source, tokens};
use vstd::pervasive::unreached;
use vstd::prelude::*;
use vstd::slice::slice_subrange;
use vstd::utf8::{decode_utf8, valid_utf8};

verus! {

/// How many events stand before the end of the stream: before the first
/// end-of-stream event, or all of them.
pub open spec fn first_eof(s: Seq<EventView>) -> nat
    decreases s.len(),
{
    if s.len() == 0 || s[0] is Eof {
        0
    } else {
        1 + first_eof(s.skip(1))
    }
}

/// The events of the stream up to its end.
pub open spec fn until_eof(s: Seq<EventView>) -> Seq<EventView> {
    s.take(first_eof(s) as int)
}

/// How many events stand before the first that opens a layer.
pub open spec fn first_open(t: Seq<EventView>) -> nat
    decreases t.len(),
{
    if t.len() == 0 || opens_layer(t[0]) {
        0
    } else {
        1 + first_open(t.skip(1))
    }
}

/// How many events stand before the first that closes a layer.
pub open spec fn first_close(t: Seq<EventView>) -> nat
    decreases t.len(),
{
    if t.len() == 0 || closes_layer(t[0]) {
        0
    } else {
        1 + first_close(t.skip(1))
    }
}

/// The events behind the first that closes a layer; none where no event
/// closes one.
pub open spec fn behind_close(t: Seq<EventView>) -> Seq<EventView> {
    if first_close(t) < t.len() {
        t.skip(first_close(t) + 1 as int)
    } else {
        Seq::empty()
    }
}

/// The text of the first attribute under `key`, where there is one and it is
/// UTF-8.
pub open spec fn text_under(header: ElementView, key: Seq<u8>) -> Option<Seq<char>> {
    match first_value(header.attributes, key) {
        Some(value) => if valid_utf8(value) {
            Some(decode_utf8(value))
        } else {
            None
        },
        None => None,
    }
}

/// What an event inside a layer is as an object: a self-closing element is
/// classified, anything else is carried as it is.
pub open spec fn object_of(e: EventView) -> Result<ObjectView, IdentifierErrorView> {
    match e {
        EventView::Empty(element) => classify(element),
        other => Ok(ObjectView::Other(other)),
    }
}

/// The objects that the events inside a layer are, in order, or the failure
/// of the first that fails.
pub open spec fn objects(events: Seq<EventView>) -> Result<Seq<ObjectView>, IdentifierErrorView>
    decreases events.len(),
{
    if events.len() == 0 {
        Ok(Seq::empty())
    } else {
        match objects(events.drop_last()) {
            Err(e) => Err(e),
            Ok(content) => match object_of(events.last()) {
                Ok(object) => Ok(content.push(object)),
                Err(e) => Err(e),
            },
        }
    }
}

/// The layer that `header` opens when `body` follows it. The header must give
/// an id and a label; the events up to the first closing tag of a layer are
/// its objects, and that tag is its footer. Without such a tag before the
/// stream ends the layer is not terminated.
pub open spec fn parse_group(header: ElementView, body: Seq<EventView>) -> Result<
    LayerView,
    ParseLayerView,
> {
    match text_under(header, ID@) {
        None => Err(ParseLayerView::MissingLayerId { element: header }),
        Some(id) => match text_under(header, LABEL@) {
            None => Err(ParseLayerView::MissingLayerName { event: header }),
            Some(name) => match objects(body.take(first_close(body) as int)) {
                Err(error) => Err(ParseLayerView::ParseObject { error, layer_name: name }),
                Ok(content) => if first_close(body) < body.len() {
                    Ok(LayerView { id, name, header, content, footer: body[first_close(body) as int] })
                } else {
                    Err(ParseLayerView::MissingLayerEnd { layer_name: name })
                },
            },
        },
    }
}

/// `done`, then the layers of `rest`.
pub open spec fn after(
    done: Seq<LayerView>,
    rest: Result<(Seq<LayerView>, Seq<EventView>), ParseLayerView>,
) -> Result<(Seq<LayerView>, Seq<EventView>), ParseLayerView> {
    match rest {
        Ok((more, left)) => Ok((done + more, left)),
        Err(e) => Err(e),
    }
}

/// The layers that `t` starts with, one directly after the other, and the
/// events that are left behind the last of them.
pub open spec fn parse_layers(t: Seq<EventView>) -> Result<
    (Seq<LayerView>, Seq<EventView>),
    ParseLayerView,
>
    decreases t.len(),
{
    if t.len() == 0 || !opens_layer(t[0]) {
        Ok((Seq::empty(), t))
    } else {
        match parse_group(t[0].tag(), t.skip(1)) {
            Err(e) => Err(e),
            Ok(layer) => after(seq![layer], parse_layers(behind_close(t.skip(1)))),
        }
    }
}

/// The document that a stream of events is: the events before the first layer,
/// the layers that follow one directly after the other, and the events behind
/// them, all up to the end of the stream.
pub open spec fn parse_document(s: Seq<EventView>) -> Result<InkscapeView, ParseLayerView> {
    let t = until_eof(s);
    match parse_layers(t.skip(first_open(t) as int)) {
        Err(e) => Err(e),
        Ok((layers, left)) => Ok(
            InkscapeView {
                leading_events: t.take(first_open(t) as int),
                layers,
                trailing_events: left,
            },
        ),
    }
}

/// No event before the first that opens a layer opens one.
pub proof fn lemma_first_open(t: Seq<EventView>)
    ensures
        first_open(t) <= t.len(),
        forall|i: int| 0 <= i < first_open(t) ==> !opens_layer(#[trigger] t[i]),
    decreases t.len(),
{
    if t.len() > 0 && !opens_layer(t[0]) {
        let rest = t.skip(1);
        lemma_first_open(rest);
        assert forall|i: int| 0 <= i < first_open(t) implies !opens_layer(#[trigger] t[i]) by {
            if i > 0 {
                assert(t[i] == rest[i - 1]);
            }
        }
    }
}

/// Every layer that is read is opened and closed by a tag of a group, and
/// what is left behind the layers does not start with the opening of one.
proof fn lemma_layers_shape(t: Seq<EventView>)
    requires
        parse_layers(t) is Ok,
    ensures
        forall|l: int|
            0 <= l < parse_layers(t)->Ok_0.0.len() ==> {
                &&& (#[trigger] parse_layers(t)->Ok_0.0[l]).header.name == GROUP@
                &&& closes_layer(parse_layers(t)->Ok_0.0[l].footer)
            },
        parse_layers(t)->Ok_0.1.len() > 0 ==> !opens_layer(parse_layers(t)->Ok_0.1[0]),
    decreases t.len(),
{
    if t.len() > 0 && opens_layer(t[0]) {
        let body = t.skip(1);
        let c = first_close(body) as int;
        let layer = parse_group(t[0].tag(), body)->Ok_0;
        let rest = behind_close(body);
        lemma_first_close_bound(body);
        lemma_first_close_closes(body);
        lemma_layers_shape(rest);
        let more = parse_layers(rest)->Ok_0.0;
        let found = parse_layers(t)->Ok_0.0;
        assert(found == seq![layer] + more);
        assert forall|l: int| 0 <= l < found.len() implies {
            &&& (#[trigger] found[l]).header.name == GROUP@
            &&& closes_layer(found[l].footer)
        } by {
            if l > 0 {
                assert(found[l] == more[l - 1]);
            }
        }
    }
}

/// The first event that closes a layer does close one.
proof fn lemma_first_close_closes(t: Seq<EventView>)
    ensures
        first_close(t) < t.len() ==> closes_layer(t[first_close(t) as int]),
    decreases t.len(),
{
    if t.len() > 0 && !closes_layer(t[0]) {
        let rest = t.skip(1);
        lemma_first_close_closes(rest);
        if first_close(t) < t.len() {
            assert(t[first_close(t) as int] == rest[first_close(rest) as int]);
        }
    }
}

/// A parsed document is well formed: no event before the layers opens a
/// layer, every layer is opened and closed by a tag of a group, and what
/// stands behind the layers does not start with the opening of one.
pub proof fn parsed_documents_are_well_formed(stream: Seq<EventView>)
    requires
        parse_document(stream) is Ok,
    ensures
        parse_document(stream)->Ok_0.well_formed(),
{
    let t = until_eof(stream);
    let p = first_open(t) as int;
    lemma_first_open(t);
    lemma_layers_shape(t.skip(p));
    let document = parse_document(stream)->Ok_0;
    assert forall|i: int| 0 <= i < document.leading_events.len() implies !opens_layer(
        #[trigger] document.leading_events[i],
    ) by {
        assert(document.leading_events[i] == t[i]);
    }
}

/// A failure among the first events is the failure of them all.
proof fn lemma_objects_prefix(events: Seq<EventView>, k: int)
    requires
        0 <= k <= events.len(),
        objects(events.take(k)) is Err,
    ensures
        objects(events) == objects(events.take(k)),
    decreases events.len() - k,
{
    if k < events.len() {
        assert(events.take(k + 1).drop_last() == events.take(k));
        lemma_objects_prefix(events, k + 1);
    } else {
        assert(events.take(k) == events);
    }
}

/// The events of a stream that are still to be read.
pub struct Tokens {
    /// In reverse: the next event is the last.
    rest: Vec<Event>,
}

impl Tokens {
    /// The events still to be read, the next one first.
    pub closed spec fn pending(&self) -> Seq<EventView> {
        self.rest.deep_view().reverse()
    }

    /// The events of `events` up to the end of the stream.
    #[verifier::loop_isolation(false)]
    pub fn new(events: Vec<Event>) -> (tokens: Tokens)
        ensures
            tokens.pending() == until_eof(events.deep_view()),
    {
        let mut events = events;
        let ghost s = events.deep_view();
        let mut n: usize = 0;
        assert(s.skip(0) == s);
        while n < events.len() && !is_eof(&events[n])
            invariant
                n <= events.len(),
                s == events.deep_view(),
                first_eof(s) == n + first_eof(s.skip(n as int)),
            decreases events.len() - n,
        {
            assert(s.skip(n as int).skip(1) == s.skip(n + 1));
            n = n + 1;
        }
        events.truncate(n);
        let ghost t = events.deep_view();
        assert(t == until_eof(s));
        let mut rest: Vec<Event> = Vec::new();
        loop
            invariant
                events.len() <= t.len(),
                events.deep_view() == t.take(events.len() as int),
                rest.deep_view() == t.skip(events.len() as int).reverse(),
            decreases events.len(),
        {
            let ghost k = events.len() as int;
            let ghost before = rest.deep_view();
            let ghost front = events.deep_view();
            proof {
                if k > 0 {
                    assert(front[k - 1] == events@[k - 1]@);
                }
            }
            match events.pop() {
                None => {
                    assert(t.skip(0) == t);
                    assert(t.reverse().reverse() == t);
                    return Tokens { rest };
                },
                Some(e) => {
                    assert(e@ == t[k - 1]);
                    rest.push(e);
                    assert(rest.deep_view() == before.push(e@));
                    assert(events.deep_view() == front.drop_last());
                    assert(events.deep_view() == t.take(k - 1));
                    assert(t.skip(k - 1).reverse() == t.skip(k).reverse().push(t[k - 1]));
                },
            }
        }
    }

    /// Takes the next event; `None` once none is left.
    pub fn next(&mut self) -> (event: Option<Event>)
        ensures
            match event {
                Some(e) => old(self).pending().len() > 0 && e@ == old(self).pending()[0]
                    && final(self).pending() == old(self).pending().skip(1),
                None => old(self).pending().len() == 0 && final(self).pending().len() == 0,
            },
    {
        let event = self.rest.pop();
        proof {
            if event is Some {
                assert(self.rest.deep_view() == old(self).rest.deep_view().drop_last());
                assert(self.pending() == old(self).pending().skip(1));
            }
        }
        event
    }
}

/// Whether the event is the end of the stream.
fn is_eof(event: &Event) -> (yes: bool)
    ensures
        yes == (event@ is Eof),
{
    match event {
        Event::Eof => true,
        _ => false,
    }
}

/// The event of this kind with this payload; a tag has the name and the
/// attributes of `tag`.
pub open spec fn assembled(kind: TokenKind, payload: Seq<u8>, tag: ElementView) -> EventView {
    match kind {
        TokenKind::Start => EventView::Start(
            ElementView { name: tag.name, attributes: tag.attributes, content: payload },
        ),
        TokenKind::End => EventView::End(payload),
        TokenKind::Empty => EventView::Empty(
            ElementView { name: tag.name, attributes: tag.attributes, content: payload },
        ),
        TokenKind::Text => EventView::Text(payload),
        TokenKind::Comment => EventView::Comment(payload),
        TokenKind::CData => EventView::CData(payload),
        TokenKind::Decl => EventView::Decl(payload),
        TokenKind::PI => EventView::PI(payload),
        TokenKind::DocType => EventView::DocType(payload),
        TokenKind::Eof => EventView::Eof,
    }
}

/// Puts an event together from its kind, its payload and, for a tag, its name
/// and attributes.
fn assemble(kind: TokenKind, payload: Vec<u8>, tag: Option<(Vec<u8>, Vec<Attribute>)>) -> (event:
    Event)
    requires
        (kind is Start || kind is Empty) ==> tag is Some,
    ensures
        event@ == assembled(
            kind,
            payload@,
            match tag {
                Some((name, attributes)) => ElementView {
                    name: name@,
                    attributes: attributes.deep_view(),
                    content: payload@,
                },
                None => arbitrary(),
            },
        ),
{
    match kind {
        TokenKind::Start => match tag {
            Some((name, attributes)) => Event::Start(Element { name, attributes, content: payload }),
            None => unreached(),
        },
        TokenKind::Empty => match tag {
            Some((name, attributes)) => Event::Empty(Element { name, attributes, content: payload }),
            None => unreached(),
        },
        TokenKind::End => Event::End(payload),
        TokenKind::Text => Event::Text(payload),
        TokenKind::Comment => Event::Comment(payload),
        TokenKind::CData => Event::CData(payload),
        TokenKind::Decl => Event::Decl(payload),
        TokenKind::PI => Event::PI(payload),
        TokenKind::DocType => Event::DocType(payload),
        TokenKind::Eof => Event::Eof,
    }
}

/// Splits a document into its events, up to the end of the input or to the
/// first place where the tokenizer fails. A `<!DOCTYPE` with nothing but
/// blanks before its `>` ends the input where it begins.
#[verifier::loop_isolation(false)]
pub fn tokenize(bytes: &[u8]) -> (events: Vec<Event>)
    ensures
        events.deep_view() == tokens(readable(bytes@)),
{
    let head = slice_subrange(bytes, 0, readable_len(bytes));
    assert(head@ == readable(bytes@));
    let mut reader = open_reader(head);
    let mut events: Vec<Event> = Vec::new();
    assert(events.deep_view() + pending(reader) == tokens(head@));
    loop
        invariant
            source(reader) == head@,
            events.deep_view() + pending(reader) == tokens(head@),
        decreases pending(reader).len(),
    {
        let ghost before = events.deep_view();
        let ghost waiting = pending(reader);
        let tag = peek_tag(&reader);
        match read_token(&mut reader) {
            None => {
                assert(before + waiting == before);
                return events;
            },
            Some((kind, payload)) => {
                let event = assemble(kind, payload, tag);
                assert(event@ == waiting[0]);
                events.push(event);
                assert(events.deep_view() == before.push(waiting[0]));
                assert(before.push(waiting[0]) + waiting.skip(1) == before + waiting);
            },
        }
    }
}

/// Reads the events before the first layer. The opening tag of that layer is
/// handed back apart; without one the stream is read to its end.
#[verifier::loop_isolation(false)]
pub(crate) fn leading_events(tokens: &mut Tokens) -> (found: (Vec<Event>, Option<Element>))
    ensures
        found.0.deep_view() == old(tokens).pending().take(first_open(old(tokens).pending()) as int),
        match found.1 {
            Some(header) => {
                &&& first_open(old(tokens).pending()) < old(tokens).pending().len()
                &&& old(tokens).pending()[first_open(old(tokens).pending()) as int]
                    == EventView::Start(header@)
                &&& header@.name == GROUP@
                &&& final(tokens).pending() == old(tokens).pending().skip(
                    first_open(old(tokens).pending()) + 1 as int,
                )
            },
            None => {
                &&& first_open(old(tokens).pending()) == old(tokens).pending().len()
                &&& final(tokens).pending().len() == 0
            },
        },
{
    let ghost t = tokens.pending();
    let mut out: Vec<Event> = Vec::new();
    assert(out.deep_view() + tokens.pending() == t);
    loop
        invariant
            out.deep_view() + tokens.pending() == t,
            first_open(t) == out.len() + first_open(tokens.pending()),
        decreases tokens.pending().len(),
    {
        let ghost before = out.deep_view();
        let ghost waiting = tokens.pending();
        match tokens.next() {
            None => {
                assert(before + waiting == before);
                assert(t.take(t.len() as int) == t);
                return (out, None);
            },
            Some(event) => {
                assert(before.push(waiting[0]) + waiting.skip(1) == before + waiting);
                assert(t.take(before.len() as int) == before);
                assert(t[before.len() as int] == waiting[0]);
                assert(t.skip(before.len() + 1 as int) == waiting.skip(1));
                match event {
                    Event::Start(element) => {
                        if element.is_named(GROUP.as_slice()) {
                            return (out, Some(element));
                        }
                        out.push(Event::Start(element));
                    },
                    other => {
                        out.push(other);
                    },
                }
                assert(out.deep_view() == before.push(waiting[0]));
            },
        }
    }
}

/// Reads the events behind the last layer, `first_trailing_event` being the
/// first of them.
#[verifier::loop_isolation(false)]
pub(crate) fn trailing_events(tokens: &mut Tokens, first_trailing_event: Event) -> (out: Vec<Event>)
    ensures
        out.deep_view() == seq![first_trailing_event@] + old(tokens).pending(),
        final(tokens).pending().len() == 0,
{
    let ghost t = tokens.pending();
    let mut out: Vec<Event> = Vec::new();
    out.push(first_trailing_event);
    assert(out.deep_view() == seq![first_trailing_event@]);
    loop
        invariant
            out.deep_view() + tokens.pending() == seq![first_trailing_event@] + t,
        decreases tokens.pending().len(),
    {
        let ghost before = out.deep_view();
        let ghost waiting = tokens.pending();
        match tokens.next() {
            None => {
                assert(before + waiting == before);
                return out;
            },
            Some(event) => {
                out.push(event);
                assert(out.deep_view() == before.push(waiting[0]));
                assert(before.push(waiting[0]) + waiting.skip(1) == before + waiting);
            },
        }
    }
}

/// The text of the first attribute under `key`, if it has one that is UTF-8.
fn text_of(element: &Element, key: &[u8]) -> (text: Option<String>)
    ensures
        match text {
            Some(s) => text_under(element@, key@) == Some(s@),
            None => text_under(element@, key@) is None,
        },
{
    match find_value(&element.attributes, key) {
        None => None,
        Some(value) => match String::from_utf8(value) {
            Ok(text) => Some(text),
            Err(_) => None,
        },
    }
}

/// The name of a layer, from the label on its opening tag.
pub(crate) fn layer_name(layer_start_event: &Element) -> (name: Result<String, MissingLayerName>)
    ensures
        match name {
            Ok(s) => text_under(layer_start_event@, LABEL@) == Some(s@),
            Err(e) => text_under(layer_start_event@, LABEL@) is None && e.event@
                == layer_start_event@,
        },
{
    match text_of(layer_start_event, LABEL.as_slice()) {
        Some(name) => Ok(name),
        None => Err(MissingLayerName { event: layer_start_event.duplicate() }),
    }
}

/// Whether the event closes a layer.
fn is_group_end(event: &Event) -> (yes: bool)
    ensures
        yes == closes_layer(event@),
{
    match event {
        Event::End(name) => bytes_eq(name.as_slice(), GROUP.as_slice()),
        _ => false,
    }
}

/// The count of events before the first that closes a layer, seen from the
/// event at index `k` when none before it closes one.
proof fn lemma_first_close_step(body: Seq<EventView>, k: int)
    requires
        0 <= k < body.len(),
        first_close(body) == k + first_close(body.skip(k)),
    ensures
        first_close(body) <= body.len(),
        body.skip(k)[0] == body[k],
        body.skip(k).skip(1) == body.skip(k + 1),
        body.take(k + 1).last() == body[k],
        closes_layer(body[k]) ==> first_close(body) == k,
        !closes_layer(body[k]) ==> first_close(body) == k + 1 + first_close(body.skip(k + 1)),
{
    lemma_first_close_bound(body);
    assert(body.skip(k).skip(1) == body.skip(k + 1));
}

/// No more events stand before the first that closes a layer than there are.
proof fn lemma_first_close_bound(t: Seq<EventView>)
    ensures
        first_close(t) <= t.len(),
    decreases t.len(),
{
    if t.len() > 0 && !closes_layer(t[0]) {
        lemma_first_close_bound(t.skip(1));
    }
}

/// Makes an event inside a layer into an object.
fn inner_object(event: Event) -> (made: Result<Object, crate::error::IdentifierError>)
    ensures
        match made {
            Ok(object) => object_of(event@) == Ok::<ObjectView, IdentifierErrorView>(object@),
            Err(error) => object_of(event@) == Err::<ObjectView, IdentifierErrorView>(error@),
        },
{
    match event {
        Event::Empty(xml_object) => object(xml_object),
        other_event => Ok(Object::Other(other_event)),
    }
}

/// Reads one layer: everything from behind its opening tag `start_event` to
/// its closing tag.
#[verifier::loop_isolation(false)]
pub(crate) fn group(start_event: Element, tokens: &mut Tokens) -> (parsed: Result<Layer, ParseLayer>)
    ensures
        match parsed {
            Ok(layer) => {
                &&& parse_group(start_event@, old(tokens).pending()) == Ok::<
                    LayerView,
                    ParseLayerView,
                >(layer@)
                &&& final(tokens).pending() == behind_close(old(tokens).pending())
            },
            Err(e) => {
                &&& parse_group(start_event@, old(tokens).pending()) == Err::<
                    LayerView,
                    ParseLayerView,
                >(e@)
                &&& (e is MissingLayerId || e is MissingLayerName) ==> final(tokens).pending()
                    == old(tokens).pending()
            },
        },
{
    let id = match text_of(&start_event, ID.as_slice()) {
        Some(id) => id,
        None => {
            return Err(ParseLayer::MissingLayerId(MissingLayerId { element: start_event }));
        },
    };
    let name = match layer_name(&start_event) {
        Ok(name) => name,
        Err(e) => {
            return Err(ParseLayer::MissingLayerName(e));
        },
    };
    let ghost body = tokens.pending();
    let mut content: Vec<Object> = Vec::new();
    assert(body.take(0) == Seq::<EventView>::empty());
    assert(body.skip(0) == body);
    assert(content.deep_view() == Seq::<ObjectView>::empty());
    loop
        invariant
            body == old(tokens).pending(),
            content.len() <= body.len(),
            tokens.pending() == body.skip(content.len() as int),
            first_close(body) == content.len() + first_close(tokens.pending()),
            objects(body.take(content.len() as int)) == Ok::<Seq<ObjectView>, IdentifierErrorView>(
                content.deep_view(),
            ),
            text_under(start_event@, ID@) == Some(id@),
            text_under(start_event@, LABEL@) == Some(name@),
        decreases tokens.pending().len(),
    {
        let ghost k = content.len() as int;
        let ghost before = content.deep_view();
        match tokens.next() {
            None => {
                assert(body.take(k) == body);
                return Err(ParseLayer::MissingLayerEnd(MissingLayerEnd { layer_name: name }));
            },
            Some(event) => {
                proof {
                    lemma_first_close_step(body, k);
                    assert(body.take(k + 1).drop_last() == body.take(k));
                }
                if is_group_end(&event) {
                    return Ok(Layer::new(id, name, start_event, content, event));
                }
                match inner_object(event) {
                    Err(error) => {
                        proof {
                            let c = first_close(body) as int;
                            assert(body.take(c).take(k + 1) == body.take(k + 1));
                            lemma_objects_prefix(body.take(c), k + 1);
                        }
                        return Err(
                            ParseLayer::ParseObject(ParseObject { error, layer_name: name }),
                        );
                    },
                    Ok(object) => {
                        content.push(object);
                        assert(content.deep_view() == before.push(object@));
                    },
                }
            },
        }
    }
}

/// Reads the layers that follow one directly after the other, the first of
/// them opened by `first_layer_start`. The first event that opens no layer is
/// handed back apart: with it the rest of the document begins.
#[verifier::loop_isolation(false)]
pub(crate) fn layers(tokens: &mut Tokens, first_layer_start: Element) -> (parsed: Result<
    (Vec<Layer>, Option<Event>),
    ParseLayer,
>)
    requires
        first_layer_start@.name == GROUP@,
    ensures
        match parsed {
            Ok((found, next)) => parse_layers(
                seq![EventView::Start(first_layer_start@)] + old(tokens).pending(),
            ) == Ok::<(Seq<LayerView>, Seq<EventView>), ParseLayerView>(
                (
                    found.deep_view(),
                    match next {
                        Some(e) => seq![e@] + final(tokens).pending(),
                        None => Seq::empty(),
                    },
                ),
            ) && (next is None ==> final(tokens).pending().len() == 0),
            Err(e) => parse_layers(
                seq![EventView::Start(first_layer_start@)] + old(tokens).pending(),
            ) == Err::<(Seq<LayerView>, Seq<EventView>), ParseLayerView>(e@),
        },
{
    let ghost whole = parse_layers(seq![EventView::Start(first_layer_start@)] + tokens.pending());
    let mut out: Vec<Layer> = Vec::new();
    let mut header = first_layer_start;
    proof {
        lemma_after_nothing(whole);
        assert(out.deep_view() == Seq::<LayerView>::empty());
    }
    loop
        invariant
            header@.name == GROUP@,
            whole == after(
                out.deep_view(),
                parse_layers(seq![EventView::Start(header@)] + tokens.pending()),
            ),
        decreases tokens.pending().len(),
    {
        let ghost done = out.deep_view();
        proof {
            lemma_layers_step(header@, tokens.pending(), done);
        }
        let layer = match group(header, tokens) {
            Ok(layer) => layer,
            Err(e) => {
                return Err(e);
            },
        };
        let ghost left = tokens.pending();
        out.push(layer);
        assert(out.deep_view() == done.push(layer@));
        match next_header(tokens) {
            Ok(element) => {
                header = element;
            },
            Err(next) => {
                proof {
                    lemma_layers_stop(out.deep_view(), left);
                }
                return Ok((out, next));
            },
        }
    }
}

/// Takes the next event. Where it opens a layer its tag is handed back as
/// `Ok`; any other event, or none at the end of the stream, as `Err`.
fn next_header(tokens: &mut Tokens) -> (next: Result<Element, Option<Event>>)
    ensures
        match next {
            Ok(element) => {
                &&& element@.name == GROUP@
                &&& old(tokens).pending() == seq![EventView::Start(element@)]
                    + final(tokens).pending()
            },
            Err(Some(event)) => {
                &&& !opens_layer(event@)
                &&& old(tokens).pending() == seq![event@] + final(tokens).pending()
                &&& old(tokens).pending()[0] == event@
            },
            Err(None) => old(tokens).pending().len() == 0 && final(tokens).pending().len() == 0,
        },
{
    let ghost left = tokens.pending();
    match tokens.next() {
        None => Err(None),
        Some(event) => {
            assert(left == seq![event@] + tokens.pending());
            match event {
                Event::Start(element) => {
                    if element.is_named(GROUP.as_slice()) {
                        Ok(element)
                    } else {
                        Err(Some(Event::Start(element)))
                    }
                },
                other => Err(Some(other)),
            }
        },
    }
}

/// Nothing, then the layers of `rest`, is `rest`.
proof fn lemma_after_nothing(rest: Result<(Seq<LayerView>, Seq<EventView>), ParseLayerView>)
    ensures
        after(Seq::empty(), rest) == rest,
{
    match rest {
        Ok((more, left)) => {
            assert(Seq::<LayerView>::empty() + more == more);
        },
        Err(_) => {},
    }
}

/// One step of reading layers: the layer that `header` opens fails, or it is
/// the next layer and reading goes on behind its closing tag.
proof fn lemma_layers_step(header: ElementView, body: Seq<EventView>, done: Seq<LayerView>)
    requires
        header.name == GROUP@,
    ensures
        match parse_group(header, body) {
            Err(e) => after(done, parse_layers(seq![EventView::Start(header)] + body)) == Err::<
                (Seq<LayerView>, Seq<EventView>),
                ParseLayerView,
            >(e),
            Ok(layer) => after(done, parse_layers(seq![EventView::Start(header)] + body)) == after(
                done.push(layer),
                parse_layers(behind_close(body)),
            ),
        },
{
    let t = seq![EventView::Start(header)] + body;
    assert(t.skip(1) == body);
    assert(t[0] == EventView::Start(header));
    match parse_group(header, body) {
        Err(_) => {},
        Ok(layer) => {
            let rest = parse_layers(behind_close(body));
            assert(parse_layers(t) == after(seq![layer], rest));
            match rest {
                Ok((more, behind)) => {
                    assert(done + (seq![layer] + more) == done.push(layer) + more);
                },
                Err(_) => {},
            }
        },
    }
}

/// Reading layers stops at an event that opens none, and at the end.
proof fn lemma_layers_stop(done: Seq<LayerView>, left: Seq<EventView>)
    requires
        left.len() == 0 || !opens_layer(left[0]),
    ensures
        after(done, parse_layers(left)) == Ok::<(Seq<LayerView>, Seq<EventView>), ParseLayerView>(
            (done, left),
        ),
{
    assert(done + Seq::<LayerView>::empty() == done);
}

/// Parses a document from the events of its stream.
pub fn segment(events: Vec<Event>) -> (parsed: Result<Inkscape, ParseLayer>)
    ensures
        match parsed {
            Ok(document) => parse_document(events.deep_view()) == Ok::<InkscapeView, ParseLayerView>(
                document@,
            ) && document@.well_formed(),
            Err(e) => parse_document(events.deep_view()) == Err::<InkscapeView, ParseLayerView>(e@),
        },
{
    proof {
        if parse_document(events.deep_view()) is Ok {
            parsed_documents_are_well_formed(events.deep_view());
        }
    }
    let mut tokens = Tokens::new(events);
    let ghost t = tokens.pending();
    let (leading, first_group) = leading_events(&mut tokens);
    match first_group {
        None => {
            let no_layers: Vec<Layer> = Vec::new();
            let no_events: Vec<Event> = Vec::new();
            proof {
                assert(t.skip(t.len() as int) == Seq::<EventView>::empty());
                assert(no_layers.deep_view() == Seq::<LayerView>::empty());
                assert(no_events.deep_view() == Seq::<EventView>::empty());
            }
            Ok(Inkscape::new(leading, no_layers, no_events))
        },
        Some(first_group) => {
            let ghost p = first_open(t) as int;
            assert(t.skip(p) == seq![EventView::Start(first_group@)] + tokens.pending());
            match layers(&mut tokens, first_group) {
                Err(e) => Err(e),
                Ok((found, next)) => {
                    let trailing = match next {
                        Some(first_trailing) => trailing_events(&mut tokens, first_trailing),
                        None => {
                            let no_events: Vec<Event> = Vec::new();
                            assert(no_events.deep_view() == Seq::<EventView>::empty());
                            no_events
                        },
                    };
                    Ok(Inkscape::new(leading, found, trailing))
                },
            }
        },
    }
}

} // verus!
