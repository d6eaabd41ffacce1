use figure_second::error::{IdentifierError, LayerError, Phase};
use figure_second::event::{Attribute, Element, Event, TokenKind};
use figure_second::object::{object, Object};
use figure_second::parse::tokenize;
use figure_second::scan::readable_len;
use figure_second::write::{write_steps, Step};
use figure_second::{EncodedImage, Error, Inkscape, Layer, ParseLayer};
use std::path::PathBuf;

const PNG: [u8; 74] = [
    137, 80, 78, 71, 13, 10, 26, 10, 0, 0, 0, 13, 73, 72, 68, 82, 0, 0, 0, 10, 0, 0, 0, 10, 8, 2,
    0, 0, 0, 2, 80, 88, 234, 0, 0, 0, 17, 73, 68, 65, 84, 120, 218, 99, 96, 248, 207, 128, 15, 141,
    74, 99, 67, 0, 84, 46, 99, 157, 2, 217, 240, 185, 0, 0, 0, 0, 73, 69, 78, 68, 174, 66, 96, 130,
];

const PNG_PAYLOAD: &str = "data:image/png;base64,iVBORw0KGgoAAAANSUhEUgAAAAoAAAAKCAIAAAACUFjqAAAAEUlEQVR42mNg+M+AD41KY0MAVC5jnQLZ8LkAAAAASUVORK5CYII=";

const DOCUMENT: &str = r##"<?xml version="1.0" encoding="UTF-8"?>
<!-- drawn by hand -->
<svg
   width="100"
   xmlns:inkscape="http://www.inkscape.org/namespaces/inkscape">
  <defs id="d"/>
  <g
     inkscape:label="Layer 1"
     inkscape:groupmode="layer"
     id="layer1"><rect
       style="fill:#ff0000"
       id="r1"
       width="10"
       height="20" />
    <text id="t1">hello &amp; goodbye</text>
    <image id="i1" width="1.5" height="2.5" xlink:href="data:old"/>
  </g><g inkscape:label="Layer 2" id="layer2" style="display:inline" z='1'></g>
  <g inkscape:label="Layer 3" id="layer3"/>
</svg>
"##;

fn payload() -> EncodedImage {
    EncodedImage::from_bytes(&PNG, PathBuf::from("green.png")).unwrap()
}

fn parse(document: &str) -> Inkscape {
    Inkscape::parse_svg(document.as_bytes()).unwrap()
}

fn parse_failure(document: &str) -> ParseLayer {
    match Inkscape::parse_svg(document.as_bytes()) {
        Err(Error::ParseLayer(e)) => e,
        Err(_) => panic!("parsing fails with a parse failure only"),
        Ok(_) => panic!("the document should not parse"),
    }
}

fn element(name: &str, attributes: &[(&str, &str)]) -> Element {
    Element::new(
        name.as_bytes().to_vec(),
        attributes
            .iter()
            .map(|(k, v)| Attribute::new(k.as_bytes().to_vec(), v.as_bytes().to_vec()))
            .collect(),
    )
}

fn keys(element: &Element) -> Vec<String> {
    element.attributes.iter().map(|a| String::from_utf8(a.key.clone()).unwrap()).collect()
}

fn value_of(element: &Element, key: &str) -> Option<String> {
    element
        .attributes
        .iter()
        .find(|a| a.key == key.as_bytes())
        .map(|a| String::from_utf8(a.value.clone()).unwrap())
}

fn text(bytes: &str) -> Event {
    Event::Text(bytes.as_bytes().to_vec())
}

fn rect(id: &str) -> Event {
    Event::Empty(element("rect", &[("id", id), ("width", "10"), ("height", "20")]))
}

fn group(id: &str, label: &str) -> Event {
    Event::Start(element("g", &[("id", id), ("inkscape:label", label)]))
}

fn group_end() -> Event {
    Event::End(b"g".to_vec())
}

fn ids(document: &Inkscape) -> Vec<String> {
    let mut out = Vec::new();
    let mut it = document.object_ids();
    while let Some(id) = it.next() {
        out.push(id.to_string());
    }
    out
}

#[test]
fn a_document_is_split_into_three_parts() {
    let document = parse(DOCUMENT);

    let leading: Vec<TokenKind> = document.leading_events().iter().map(|e| e.kind()).collect();
    assert_eq!(
        leading,
        vec![
            TokenKind::Decl,
            TokenKind::Text,
            TokenKind::Comment,
            TokenKind::Text,
            TokenKind::Start,
            TokenKind::Text,
            TokenKind::Empty,
            TokenKind::Text,
        ]
    );

    let layers = document.get_layers();
    assert_eq!(layers.len(), 2);
    assert_eq!(layers[0].id(), "layer1");
    assert_eq!(layers[0].name(), "Layer 1");
    assert_eq!(layers[1].id(), "layer2");
    assert_eq!(layers[1].name(), "Layer 2");
    assert_eq!(layers[0].header().name, b"g".to_vec());
    assert_eq!(keys(layers[0].header()), vec!["inkscape:label", "inkscape:groupmode", "id"]);
    assert_eq!(layers[0].footer(), &group_end());
    assert_eq!(layers[1].footer(), &group_end());
    assert_eq!(layers[1].content().len(), 0);

    let content = layers[0].content();
    assert_eq!(content.len(), 8);
    assert!(matches!(&content[0], Object::Rectangle(r) if r.ident.id == "r1"));
    assert_eq!(content[1], Object::Other(text("\n    ")));
    assert!(matches!(&content[2], Object::Other(Event::Start(e)) if e.name == b"text".to_vec()));
    assert_eq!(content[3], Object::Other(text("hello &amp; goodbye")));
    assert_eq!(content[4], Object::Other(Event::End(b"text".to_vec())));
    assert!(matches!(&content[6], Object::Image(i) if i.ident.id == "i1"
        && i.ident.width == "1.5" && i.ident.height == "2.5"));
    assert_eq!(content[7], Object::Other(text("\n  ")));

    let trailing: Vec<TokenKind> = document.trailing_events().iter().map(|e| e.kind()).collect();
    assert_eq!(
        trailing,
        vec![TokenKind::Text, TokenKind::Empty, TokenKind::Text, TokenKind::End, TokenKind::Text]
    );
    assert_eq!(document.trailing_events()[3], Event::End(b"svg".to_vec()));
}

#[test]
fn parsing_and_writing_gives_the_bytes_back() {
    let written = parse(DOCUMENT).write_svg();
    assert_eq!(String::from_utf8(written).unwrap(), DOCUMENT);

    for document in [
        "",
        "just text",
        "<svg/>",
        "<a><b>text</b><!-- c --><![CDATA[<raw>]]><?target do?></a>",
        "<!DOCTYPE svg><svg><g id='a' inkscape:label='b'><rect id='r' width='1' height='2'/></g></svg>",
        "<g id=\"a\" inkscape:label=\"b\"></g><g id=\"c\" inkscape:label=\"d\">x</g>",
    ] {
        let written = parse(document).write_svg();
        assert_eq!(String::from_utf8(written).unwrap(), document);
    }
}

#[test]
fn the_events_of_a_parsed_document_are_those_it_was_read_from() {
    let events = tokenize(DOCUMENT.as_bytes());
    let document = Inkscape::from_events(events.clone()).unwrap();
    let mut replayed: Vec<Event> = document.leading_events().to_vec();
    for layer in document.get_layers() {
        replayed.push(Event::Start(layer.header().clone()));
        for object in layer.content() {
            replayed.push(object.clone().into_event());
        }
        replayed.push(layer.footer().clone());
    }
    replayed.extend(document.trailing_events().iter().cloned());
    assert_eq!(replayed, events);
}

#[test]
fn a_document_without_layers_is_all_leading() {
    let document = parse("<svg><rect id='r' width='1' height='2'/></svg>");
    assert_eq!(document.leading_events().len(), 3);
    assert_eq!(document.get_layers().len(), 0);
    assert_eq!(document.trailing_events().len(), 0);
    assert_eq!(ids(&document), Vec::<String>::new());

    let empty = parse("");
    assert_eq!(empty.leading_events().len(), 0);
    assert_eq!(empty.write_svg(), Vec::<u8>::new());
}

#[test]
fn layers_end_at_the_first_event_that_opens_none() {
    let document = parse(
        "<svg><g id='a' inkscape:label='A'></g><g id='b' inkscape:label='B'></g> <g id='c' inkscape:label='C'></g></svg>",
    );
    let names: Vec<&str> = document.get_layers().iter().map(|l| l.name()).collect();
    assert_eq!(names, vec!["A", "B"]);
    assert_eq!(document.trailing_events().len(), 4);
    assert_eq!(document.trailing_events()[0], text(" "));
    assert!(matches!(&document.trailing_events()[1], Event::Start(e) if e.name == b"g".to_vec()));

    // a layer that ends the stream leaves nothing behind
    let document = parse("<g id='a' inkscape:label='A'></g>");
    assert_eq!(document.get_layers().len(), 1);
    assert_eq!(document.trailing_events().len(), 0);
}

#[test]
fn the_first_closing_tag_of_a_group_ends_the_layer() {
    let document =
        parse("<g id='a' inkscape:label='A'><g id='n'><rect id='r' width='1' height='2'/></g>rest</g>");
    let layers = document.get_layers();
    assert_eq!(layers.len(), 1);
    assert_eq!(layers[0].content().len(), 2);
    assert!(matches!(&layers[0].content()[0], Object::Other(Event::Start(e)) if e.name == b"g".to_vec()));
    assert_eq!(document.trailing_events(), &[text("rest"), group_end()][..]);
}

#[test]
fn the_end_of_the_stream_ends_the_document() {
    let events = vec![
        text("a"),
        group("l", "L"),
        rect("r1"),
        group_end(),
        text("b"),
        Event::Eof,
        rect("r2"),
        group("m", "M"),
    ];
    let document = Inkscape::from_events(events).unwrap();
    assert_eq!(document.leading_events(), &[text("a")][..]);
    assert_eq!(document.get_layers().len(), 1);
    assert_eq!(document.trailing_events(), &[text("b")][..]);

    let document = Inkscape::from_events(vec![Event::Eof, group("l", "L")]).unwrap();
    assert_eq!(document.leading_events().len(), 0);
    assert_eq!(document.get_layers().len(), 0);
}

#[test]
fn a_layer_that_is_not_closed_fails() {
    match parse_failure("<svg><g id=\"layer1\" inkscape:label=\"bg\"><rect id=\"r\" width=\"1\" height=\"2\"/>") {
        ParseLayer::MissingLayerEnd(e) => assert_eq!(e.layer_name, "bg"),
        _ => panic!("expected a layer that is not terminated"),
    }
    match Inkscape::from_events(vec![group("x", "bg"), text("t"), Event::End(b"svg".to_vec())]) {
        Err(ParseLayer::MissingLayerEnd(e)) => assert_eq!(e.layer_name, "bg"),
        _ => panic!("expected a layer that is not terminated"),
    }
    match Inkscape::from_events(vec![group("x", "bg"), Event::Eof, group_end()]) {
        Err(ParseLayer::MissingLayerEnd(e)) => assert_eq!(e.layer_name, "bg"),
        _ => panic!("expected a layer that is not terminated"),
    }
    // where the tokenizer gives up, the stream ends
    match parse_failure("<svg><g id=\"layer1\" inkscape:label=\"bg\"></svg></g>") {
        ParseLayer::MissingLayerEnd(e) => assert_eq!(e.layer_name, "bg"),
        _ => panic!("expected a layer that is not terminated"),
    }
}

#[test]
fn a_layer_needs_an_id_and_a_label() {
    match parse_failure("<g inkscape:label=\"bg\"></g>") {
        ParseLayer::MissingLayerId(e) => {
            assert_eq!(e.element.name, b"g".to_vec());
            assert_eq!(keys(&e.element), vec!["inkscape:label"]);
        }
        _ => panic!("expected a layer without id"),
    }
    match parse_failure("<g id=\"a\"></g>") {
        ParseLayer::MissingLayerName(e) => assert_eq!(keys(&e.event), vec!["id"]),
        _ => panic!("expected a layer without label"),
    }
    // the id is asked for first
    assert!(matches!(parse_failure("<g></g>"), ParseLayer::MissingLayerId(_)));
    // neither may be anything but UTF-8
    let header = Element::new(
        b"g".to_vec(),
        vec![
            Attribute::new(b"id".to_vec(), b"\xff".to_vec()),
            Attribute::new(b"inkscape:label".to_vec(), b"L".to_vec()),
        ],
    );
    assert!(matches!(
        Inkscape::from_events(vec![Event::Start(header), group_end()]),
        Err(ParseLayer::MissingLayerId(_))
    ));
    let header = Element::new(
        b"g".to_vec(),
        vec![
            Attribute::new(b"id".to_vec(), b"a".to_vec()),
            Attribute::new(b"inkscape:label".to_vec(), b"\xff".to_vec()),
        ],
    );
    assert!(matches!(
        Inkscape::from_events(vec![Event::Start(header), group_end()]),
        Err(ParseLayer::MissingLayerName(_))
    ));
}

#[test]
fn the_first_id_and_label_of_a_layer_count() {
    let header = element("g", &[("id", "a"), ("inkscape:label", "A"), ("id", "b"), ("inkscape:label", "B")]);
    let document = Inkscape::from_events(vec![Event::Start(header), group_end()]).unwrap();
    assert_eq!(document.get_layers()[0].id(), "a");
    assert_eq!(document.get_layers()[0].name(), "A");
}

#[test]
fn an_object_without_identity_fails_the_layer() {
    match parse_failure("<g id=\"a\" inkscape:label=\"bg\"><rect id=\"r\" width=\"1\"/></g>") {
        ParseLayer::ParseObject(e) => {
            assert_eq!(e.layer_name, "bg");
            assert!(matches!(e.error, IdentifierError::MissingObjectIdentifier(_)));
        }
        _ => panic!("expected an object that does not parse"),
    }
    // the object fails before the missing end is noticed
    match parse_failure("<g id=\"a\" inkscape:label=\"bg\"><image id=\"r\" width=\"1\" height=\"x\"/>") {
        ParseLayer::ParseObject(e) => {
            assert_eq!(e.layer_name, "bg");
            assert!(matches!(e.error, IdentifierError::DimensionParse(_)));
        }
        _ => panic!("expected an object that does not parse"),
    }
    // behind the end of the layer nothing is classified
    let document = parse("<g id=\"a\" inkscape:label=\"bg\"></g><rect/>");
    assert_eq!(document.trailing_events().len(), 1);
}

#[test]
fn hiding_and_showing_layers() {
    let mut document = parse(DOCUMENT);
    for layer in document.get_layers_mut().iter_mut() {
        if layer.name() == "Layer 1" {
            layer.set_hidden();
        }
        if layer.name() == "Layer 2" {
            layer.set_visible();
        }
    }
    let layers = document.get_layers();
    assert_eq!(
        keys(layers[0].header()),
        vec!["inkscape:label", "inkscape:groupmode", "id", "style"]
    );
    assert_eq!(value_of(layers[0].header(), "style"), Some("display:none".to_string()));
    assert_eq!(keys(layers[1].header()), vec!["inkscape:label", "id", "z"]);
    assert_eq!(layers[0].id(), "layer1");
    assert_eq!(layers[0].name(), "Layer 1");
    assert_eq!(layers[0].content().len(), 8);

    let written = String::from_utf8(document.write_svg()).unwrap();
    let expected = DOCUMENT
        .replace(
            "<g\n     inkscape:label=\"Layer 1\"\n     inkscape:groupmode=\"layer\"\n     id=\"layer1\">",
            "<g inkscape:label=\"Layer 1\" inkscape:groupmode=\"layer\" id=\"layer1\" style=\"display:none\">",
        )
        .replace(
            "<g inkscape:label=\"Layer 2\" id=\"layer2\" style=\"display:inline\" z='1'>",
            "<g inkscape:label=\"Layer 2\" id=\"layer2\" z=\"1\">",
        );
    assert_ne!(expected, DOCUMENT);
    assert_eq!(written, expected);
}

#[test]
fn hiding_twice_is_hiding_once() {
    let header = element("g", &[("style", "a"), ("id", "l"), ("style", "b"), ("inkscape:label", "L")]);
    let mut once = Layer::new("l".into(), "L".into(), header.clone(), vec![], group_end());
    let mut twice = Layer::new("l".into(), "L".into(), header, vec![], group_end());
    once.set_hidden();
    twice.set_hidden();
    twice.set_hidden();
    assert_eq!(once.header(), twice.header());
    assert_eq!(
        once.header(),
        &element("g", &[("id", "l"), ("inkscape:label", "L"), ("style", "display:none")])
    );
    assert_eq!(once.header().content, b"g id=\"l\" inkscape:label=\"L\" style=\"display:none\"".to_vec());

    twice.set_visible();
    assert_eq!(twice.header(), &element("g", &[("id", "l"), ("inkscape:label", "L")]));
    assert_eq!(value_of(twice.header(), "style"), None);
    twice.set_visible();
    assert_eq!(twice.header(), &element("g", &[("id", "l"), ("inkscape:label", "L")]));
}

#[test]
fn an_assigned_rectangle_becomes_an_image_and_keeps_its_identity() {
    let mut document = parse(DOCUMENT);
    let (width, height) = document.dimensions("r1").unwrap();
    assert_eq!((width.parse::<f64>().unwrap(), height.parse::<f64>().unwrap()), (10.0, 20.0));

    document.id_to_image("r1", payload()).unwrap();

    let (width, height) = document.dimensions("r1").unwrap();
    assert_eq!((width.as_str(), height.as_str()), ("10", "20"));
    assert_eq!((width.parse::<f64>().unwrap(), height.parse::<f64>().unwrap()), (10.0, 20.0));
    match document.find_by_id("r1") {
        Some(Object::Image(image)) => {
            assert_eq!(image.element.name, b"image".to_vec());
            assert_eq!(keys(&image.element), vec!["id", "width", "height", "xlink:href"]);
            assert_eq!(value_of(&image.element, "xlink:href"), Some(PNG_PAYLOAD.to_string()));
        }
        _ => panic!("the rectangle is an image now"),
    }
    assert_eq!(document.get_layers()[0].content().len(), 8);
    assert_eq!(ids(&document), vec!["r1", "i1"]);

    // once more: the image is updated, not promoted again
    let other = EncodedImage::from_bytes(&PNG[..8], PathBuf::from("p.png")).unwrap();
    document.id_to_image("r1", other).unwrap();
    match document.find_by_id("r1") {
        Some(Object::Image(image)) => {
            assert_eq!(keys(&image.element), vec!["id", "width", "height", "xlink:href"]);
            assert_eq!(
                value_of(&image.element, "xlink:href"),
                Some("data:image/png;base64,iVBORw0KGgo=".to_string())
            );
        }
        _ => panic!("the image stays an image"),
    }
    assert_eq!(document.dimensions("r1").unwrap(), ("10".to_string(), "20".to_string()));

    let written = String::from_utf8(document.write_svg()).unwrap();
    let expected = DOCUMENT.replace(
        "<rect\n       style=\"fill:#ff0000\"\n       id=\"r1\"\n       width=\"10\"\n       height=\"20\" />",
        "<image id=\"r1\" width=\"10\" height=\"20\" xlink:href=\"data:image/png;base64,iVBORw0KGgo=\"/>",
    );
    assert_ne!(expected, DOCUMENT);
    assert_eq!(written, expected);
}

#[test]
fn an_assigned_image_gets_the_payload() {
    let mut document = parse(DOCUMENT);
    document.id_to_image("i1", payload()).unwrap();
    match document.find_by_id("i1") {
        Some(Object::Image(image)) => {
            assert_eq!(keys(&image.element), vec!["id", "width", "height", "xlink:href"]);
            assert_eq!(value_of(&image.element, "xlink:href"), Some(PNG_PAYLOAD.to_string()));
        }
        _ => panic!("the image stays an image"),
    }
    assert_eq!(document.dimensions("i1").unwrap(), ("1.5".to_string(), "2.5".to_string()));
    assert!(matches!(document.find_by_id("r1"), Some(Object::Rectangle(_))));
}

#[test]
fn an_id_that_is_missing_changes_nothing() {
    let mut document = parse(DOCUMENT);
    let before = format!("{:?}", document);

    match document.dimensions("nonexistent") {
        Err(e) => assert_eq!(e.id, "nonexistent"),
        Ok(_) => panic!("no object has this id"),
    }
    match document.id_to_image("nonexistent", payload()) {
        Err(e) => assert_eq!(e.id, "nonexistent"),
        Ok(_) => panic!("no object has this id"),
    }
    // other objects have no id to find, nor have layers
    assert!(document.dimensions("t1").is_err());
    assert!(document.id_to_image("layer1", payload()).is_err());
    assert!(document.find_by_id("d").is_none());
    assert!(document.find_by_id("").is_none());

    assert_eq!(format!("{:?}", document), before);
    assert_eq!(String::from_utf8(document.write_svg()).unwrap(), DOCUMENT);
}

#[test]
fn the_first_object_with_an_id_is_found() {
    let events = vec![
        rect("r"),
        group("a", "A"),
        text("x"),
        Event::Empty(element("image", &[("id", "r"), ("width", "1"), ("height", "2")])),
        rect("r"),
        group_end(),
        group("b", "B"),
        Event::Empty(element("rect", &[("id", "r"), ("width", "3"), ("height", "4")])),
        rect("s"),
        group_end(),
    ];
    let mut document = Inkscape::from_events(events).unwrap();
    assert_eq!(ids(&document), vec!["r", "r", "r", "s"]);
    assert_eq!(document.dimensions("r").unwrap(), ("1".to_string(), "2".to_string()));
    assert_eq!(document.dimensions("s").unwrap(), ("10".to_string(), "20".to_string()));
    assert!(matches!(document.find_by_id("r"), Some(Object::Image(_))));

    document.id_to_image("r", payload()).unwrap();
    let layers = document.get_layers();
    assert!(matches!(&layers[0].content()[1], Object::Image(i)
        if value_of(&i.element, "xlink:href") == Some(PNG_PAYLOAD.to_string())));
    assert_eq!(layers[0].content()[2], object(element("rect", &[("id", "r"), ("width", "10"), ("height", "20")])).unwrap());
    assert!(matches!(&layers[1].content()[0], Object::Rectangle(_)));
    assert_eq!(ids(&document), vec!["r", "r", "r", "s"]);
}

#[test]
fn ids_come_in_the_order_of_the_document() {
    let document = parse(DOCUMENT);
    assert_eq!(ids(&document), vec!["r1", "i1"]);
    assert_eq!(ids(&document), vec!["r1", "i1"]);
}

fn bad() -> Event {
    Event::Text(vec![b'a', 0xff])
}

#[test]
fn every_kind_of_event_is_written_between_its_delimiters() {
    let tag = element("a", &[("k", "v")]);
    let events = vec![
        Event::Decl(b"xml version=\"1.0\"".to_vec()),
        Event::DocType(b"svg".to_vec()),
        Event::Start(tag.clone()),
        Event::Text(b"t &lt; u".to_vec()),
        Event::Comment(b" c ".to_vec()),
        Event::CData(b"<d>".to_vec()),
        Event::PI(b"p q".to_vec()),
        Event::Eof,
        Event::Empty(tag),
        Event::End(b"a".to_vec()),
    ];
    let written = Inkscape::new(events.clone(), vec![], events).write_svg();
    let once = "<?xml version=\"1.0\"?><!DOCTYPE svg><a k=\"v\">t &lt; u<!-- c --><![CDATA[<d>]]><?p q?><a k=\"v\"/></a>";
    assert_eq!(String::from_utf8(written).unwrap(), format!("{}{}", once, once));
}

#[test]
fn the_tokenizer_hands_out_every_kind_of_event() {
    let events = tokenize(
        b"<?xml version='1.0'?><!DOCTYPE svg><a k=\"v\" l = 'w'>t<!--c--><![CDATA[d]]><?p q?><b  m=\"\"/></a >",
    );
    let a = Element {
        name: b"a".to_vec(),
        attributes: vec![
            Attribute::new(b"k".to_vec(), b"v".to_vec()),
            Attribute::new(b"l".to_vec(), b"w".to_vec()),
        ],
        content: b"a k=\"v\" l = 'w'".to_vec(),
    };
    let b = Element {
        name: b"b".to_vec(),
        attributes: vec![Attribute::new(b"m".to_vec(), b"".to_vec())],
        content: b"b  m=\"\"".to_vec(),
    };
    assert_eq!(
        events,
        vec![
            Event::Decl(b"xml version='1.0'".to_vec()),
            Event::DocType(b"svg".to_vec()),
            Event::Start(a),
            Event::Text(b"t".to_vec()),
            Event::Comment(b"c".to_vec()),
            Event::CData(b"d".to_vec()),
            Event::PI(b"p q".to_vec()),
            Event::Empty(b),
            Event::End(b"a".to_vec()),
        ]
    );
    assert_eq!(tokenize(b""), Vec::<Event>::new());
    // a closing tag that closes nothing stops the tokenizer
    assert_eq!(tokenize(b"<a>x</b>y"), vec![Event::Start(Element::new(b"a".to_vec(), vec![])), text("x")]);
}

#[test]
fn events_know_their_kind_and_payload() {
    let tag = element("a", &[("k", "v")]);
    assert_eq!(Event::Start(tag.clone()).kind(), TokenKind::Start);
    assert_eq!(Event::Start(tag.clone()).payload(), b"a k=\"v\"");
    assert_eq!(Event::Empty(tag.clone()).kind(), TokenKind::Empty);
    assert_eq!(Event::End(b"a".to_vec()).payload(), b"a");
    assert_eq!(Event::Eof.kind(), TokenKind::Eof);
    assert_eq!(Event::Eof.payload(), b"");
    assert_eq!(Event::Comment(b"c".to_vec()).duplicate(), Event::Comment(b"c".to_vec()));
    assert_eq!(tag.duplicate(), tag);
    assert!(tag.is_named(b"a"));
    assert!(!tag.is_named(b"A"));
    assert_eq!(tag.stripped(b"k"), element("a", &[]));
}

#[test]
fn the_steps_of_writing_come_in_the_order_of_the_document() {
    let header = element("g", &[("id", "l")]);
    let layers = vec![
        Layer::new("l".into(), "L".into(), header.clone(), vec![], group_end()),
        Layer::new(
            "m".into(),
            "M".into(),
            header.clone(),
            vec![object(element("rect", &[("id", "r"), ("width", "1"), ("height", "2")])).unwrap(), Object::Other(text("o"))],
            text("odd"),
        ),
    ];
    let document = Inkscape::new(vec![text("a"), text("b")], layers, vec![text("z")]);
    let plan: Vec<(Phase, Event)> =
        document.replay().into_iter().map(|step| (step.phase, step.event)).collect();
    assert_eq!(
        plan,
        vec![
            (Phase::Leading, text("a")),
            (Phase::Leading, text("b")),
            (Phase::Header, Event::Start(header.clone())),
            (Phase::Footer, group_end()),
            (Phase::Header, Event::Start(header)),
            (Phase::Body, Event::Empty(element("rect", &[("id", "r"), ("width", "1"), ("height", "2")]))),
            (Phase::Body, text("o")),
            (Phase::Footer, text("odd")),
            (Phase::Trailing, text("z")),
        ]
    );
    assert_eq!(Inkscape::new(vec![], vec![], vec![]).replay(), Vec::<Step>::new());
}

#[test]
fn a_failure_of_the_writer_is_reported_with_its_phase() {
    let failure = || quick_xml::Error::UnexpectedToken("the sink is full".to_string());
    let told = |error: &quick_xml::Error| format!("{}", error);
    match Error::write(Phase::Leading, failure(), bad()) {
        Error::LeadingEvents(e) => {
            assert_eq!(e.event, bad());
            assert_eq!(told(&e.err), told(&failure()));
        }
        _ => panic!("expected a failure before the layers"),
    }
    match Error::write(Phase::Header, failure(), group("l", "L")) {
        Error::Layer(LayerError::Header(e)) => {
            assert_eq!(e.header, group("l", "L"));
            assert_eq!(told(&e.err), told(&failure()));
        }
        _ => panic!("expected a failure in a header"),
    }
    match Error::write(Phase::Body, failure(), rect("r")) {
        Error::Layer(LayerError::Body(e)) => {
            assert_eq!(e.object, rect("r"));
            assert_eq!(told(&e.err), told(&failure()));
        }
        _ => panic!("expected a failure in a body"),
    }
    match Error::write(Phase::Footer, failure(), group_end()) {
        Error::Layer(LayerError::Footer(e)) => {
            assert_eq!(e.footer, group_end());
            assert_eq!(told(&e.err), told(&failure()));
        }
        _ => panic!("expected a failure in a footer"),
    }
    match Error::write(Phase::Trailing, failure(), text("z")) {
        Error::TrailingEvents(e) => {
            assert_eq!(e.event, text("z"));
            assert_eq!(told(&e.err), told(&failure()));
        }
        _ => panic!("expected a failure behind the layers"),
    }
}

#[test]
fn bytes_that_are_not_utf8_are_written_as_they_came() {
    let source: &[u8] =
        b"<?xml version=\"1.0\" encoding=\"ISO-8859-1\"?><svg t=\"\xff\"><!--\xe9--><g id=\"a\" inkscape:label=\"b\" x='\xfc'>caf\xe9<rect id=\"r\" width=\"1\" height=\"2\" n=\"\xe4\"/></g>\xff</svg>";
    let document = Inkscape::parse_svg(source).unwrap();
    match &document.leading_events()[1] {
        Event::Start(e) => assert_eq!(e.attributes, vec![Attribute::new(b"t".to_vec(), vec![0xff])]),
        _ => panic!("an opening tag comes second"),
    }
    assert_eq!(document.get_layers().len(), 1);
    assert_eq!(document.write_svg(), source.to_vec());

    let document = Inkscape::new(vec![Event::Text(vec![0xff])], vec![], vec![]);
    assert_eq!(document.write_svg(), vec![0xff]);

    let header = Element { name: b"g".to_vec(), attributes: vec![], content: vec![b'g', 0xc0] };
    let layer = Layer::new(
        "l".into(),
        "L".into(),
        header,
        vec![Object::Other(bad()), Object::Other(Event::Comment(vec![0xfe]))],
        Event::End(vec![0xfd]),
    );
    let document = Inkscape::new(vec![bad()], vec![layer], vec![Event::CData(vec![0x80])]);
    assert_eq!(
        document.write_svg(),
        b"a\xff<g\xc0>a\xff<!--\xfe--></\xfd><![CDATA[\x80]]>".to_vec()
    );
}

#[test]
fn a_step_writes_behind_what_is_there() {
    let mut out = b"<a>".to_vec();
    text("x").render(&mut out);
    Event::Eof.render(&mut out);
    bad().render(&mut out);
    Event::End(b"a".to_vec()).render(&mut out);
    assert_eq!(out, b"<a>xa\xff</a>".to_vec());

    let steps = vec![
        Step { phase: Phase::Leading, event: text("1") },
        Step { phase: Phase::Trailing, event: bad() },
        Step { phase: Phase::Leading, event: Event::PI(b"p".to_vec()) },
    ];
    assert_eq!(write_steps(&steps), b"1a\xff<?p?>".to_vec());
    assert_eq!(write_steps(&vec![]), Vec::<u8>::new());
}

#[test]
fn a_doctype_without_a_name_ends_the_input() {
    assert_eq!(readable_len(b"<a/><!DOCTYPE>rest"), 4);
    assert_eq!(readable_len(b"<a/><!doctype \t\r\n>rest"), 4);
    assert_eq!(readable_len(b"<!DocType>"), 0);
    assert_eq!(readable_len(b"<!DOCTYPE svg>"), 14);
    assert_eq!(readable_len(b"<!DOCTYPE  "), 11);
    assert_eq!(readable_len(b"<!DOCTYPE x><!DOCTYPE >"), 12);
    assert_eq!(readable_len(b"< !DOCTYPE>"), 11);
    assert_eq!(readable_len(b"<!DOCTYP>"), 9);
    assert_eq!(readable_len(b"<!DOCTYPE\x0b>"), 11);
    assert_eq!(readable_len(b""), 0);

    let a = Event::Empty(Element { name: b"a".to_vec(), attributes: vec![], content: b"a".to_vec() });
    assert_eq!(tokenize(b"<a/><!DOCTYPE>rest"), vec![a.clone()]);
    assert_eq!(tokenize(b"<a/><!doctype  \n><b/>"), vec![a.clone()]);
    assert_eq!(tokenize(b"<!DOCTYPE ><a/>"), Vec::<Event>::new());
    assert_eq!(
        tokenize(b"<!DOCTYPE svg><a/>"),
        vec![Event::DocType(b"svg".to_vec()), a.clone()]
    );

    let document = parse("<svg><g id='a' inkscape:label='A'></g>x<!DOCTYPE >y</svg>");
    assert_eq!(document.get_layers().len(), 1);
    assert_eq!(document.trailing_events(), &[text("x")][..]);
    assert_eq!(document.write_svg(), b"<svg><g id='a' inkscape:label='A'></g>x".to_vec());

    match parse_failure("<g id=\"a\" inkscape:label=\"bg\"><!DOCTYPE></g>") {
        ParseLayer::MissingLayerEnd(e) => assert_eq!(e.layer_name, "bg"),
        _ => panic!("expected a layer that is not terminated"),
    }
}
