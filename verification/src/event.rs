//! Lexical events: the atomic tokens a document is made of, held as plain
//! bytes so that whatever is not rewritten is replayed exactly as captured.

use crate::xml::rebuild;
use vstd::prelude::*;

verus! {

/// One attribute of a tag: its key and its raw, still escaped, value.
#[derive(Debug, Clone, PartialEq, Eq)]
pub struct Attribute {
    pub key: Vec<u8>,
    pub value: Vec<u8>,
}

/// Mathematical model of an [`Attribute`].
pub struct AttributeView {
    pub key: Seq<u8>,
    pub value: Seq<u8>,
}

impl View for Attribute {
    type V = AttributeView;

    open spec fn view(&self) -> AttributeView {
        AttributeView { key: self.key@, value: self.value@ }
    }
}

impl DeepView for Attribute {
    type V = AttributeView;

    open spec fn deep_view(&self) -> AttributeView {
        self@
    }
}

/// A tag with attributes: an opening tag or a self-closing element.
///
/// `content` is the text that stands between the angle brackets when the tag is
/// written: the bytes captured from the document for a tag that was read, the
/// canonical form [`tag_content`] for one that was built or rewritten.
#[derive(Debug, Clone, PartialEq, Eq)]
pub struct Element {
    pub name: Vec<u8>,
    pub attributes: Vec<Attribute>,
    pub content: Vec<u8>,
}

/// Mathematical model of an [`Element`].
pub struct ElementView {
    pub name: Seq<u8>,
    pub attributes: Seq<AttributeView>,
    pub content: Seq<u8>,
}

impl View for Element {
    type V = ElementView;

    open spec fn view(&self) -> ElementView {
        ElementView {
            name: self.name@,
            attributes: self.attributes.deep_view(),
            content: self.content@,
        }
    }
}

impl DeepView for Element {
    type V = ElementView;

    open spec fn deep_view(&self) -> ElementView {
        self@
    }
}

/// A lexical event of the document.
#[derive(Debug, Clone, PartialEq, Eq)]
pub enum Event {
    /// Opening tag `<name ...>`.
    Start(Element),
    /// Closing tag `</name>`; holds the name.
    End(Vec<u8>),
    /// Self-closing element `<name ... />`.
    Empty(Element),
    /// Character data between tags.
    Text(Vec<u8>),
    /// Comment `<!-- ... -->`.
    Comment(Vec<u8>),
    /// `<![CDATA[...]]>`.
    CData(Vec<u8>),
    /// XML declaration `<?xml ...?>`.
    Decl(Vec<u8>),
    /// Processing instruction `<?...?>`.
    PI(Vec<u8>),
    /// `<!DOCTYPE ...>`.
    DocType(Vec<u8>),
    /// End of the stream.
    Eof,
}

/// Mathematical model of an [`Event`].
pub enum EventView {
    Start(ElementView),
    End(Seq<u8>),
    Empty(ElementView),
    Text(Seq<u8>),
    Comment(Seq<u8>),
    CData(Seq<u8>),
    Decl(Seq<u8>),
    PI(Seq<u8>),
    DocType(Seq<u8>),
    Eof,
}

impl View for Event {
    type V = EventView;

    open spec fn view(&self) -> EventView {
        match *self {
            Event::Start(e) => EventView::Start(e@),
            Event::End(n) => EventView::End(n@),
            Event::Empty(e) => EventView::Empty(e@),
            Event::Text(b) => EventView::Text(b@),
            Event::Comment(b) => EventView::Comment(b@),
            Event::CData(b) => EventView::CData(b@),
            Event::Decl(b) => EventView::Decl(b@),
            Event::PI(b) => EventView::PI(b@),
            Event::DocType(b) => EventView::DocType(b@),
            Event::Eof => EventView::Eof,
        }
    }
}

impl DeepView for Event {
    type V = EventView;

    open spec fn deep_view(&self) -> EventView {
        self@
    }
}

/// The kind of a lexical event, without its payload.
#[derive(Debug, Clone, Copy, PartialEq, Eq)]
pub enum TokenKind {
    Start,
    End,
    Empty,
    Text,
    Comment,
    CData,
    Decl,
    PI,
    DocType,
    Eof,
}

impl EventView {
    /// The kind of this event.
    pub open spec fn kind(self) -> TokenKind {
        match self {
            EventView::Start(_) => TokenKind::Start,
            EventView::End(_) => TokenKind::End,
            EventView::Empty(_) => TokenKind::Empty,
            EventView::Text(_) => TokenKind::Text,
            EventView::Comment(_) => TokenKind::Comment,
            EventView::CData(_) => TokenKind::CData,
            EventView::Decl(_) => TokenKind::Decl,
            EventView::PI(_) => TokenKind::PI,
            EventView::DocType(_) => TokenKind::DocType,
            EventView::Eof => TokenKind::Eof,
        }
    }

    /// The bytes this event carries: what stands between its delimiters.
    pub open spec fn payload(self) -> Seq<u8> {
        match self {
            EventView::Start(e) => e.content,
            EventView::End(n) => n,
            EventView::Empty(e) => e.content,
            EventView::Text(b) => b,
            EventView::Comment(b) => b,
            EventView::CData(b) => b,
            EventView::Decl(b) => b,
            EventView::PI(b) => b,
            EventView::DocType(b) => b,
            EventView::Eof => Seq::empty(),
        }
    }

    /// Whether this event is a tag that carries attributes.
    pub open spec fn is_tag(self) -> bool {
        self is Start || self is Empty
    }

    /// The tag of an opening or self-closing event.
    pub open spec fn tag(self) -> ElementView
        recommends
            self.is_tag(),
    {
        match self {
            EventView::Start(e) => e,
            EventView::Empty(e) => e,
            _ => arbitrary(),
        }
    }

    /// The bytes a writer emits for this event.
    pub open spec fn rendered(self) -> Seq<u8> {
        opening(self.kind()) + self.payload() + closing(self.kind())
    }
}

/// `<`, which opens a tag.
pub const TAG_OPEN: [u8; 1] = [0x3c];

/// `</`, which opens a closing tag.
pub const END_OPEN: [u8; 2] = [0x3c, 0x2f];

/// `>`, which closes a tag.
pub const TAG_CLOSE: [u8; 1] = [0x3e];

/// `/>`, which closes a self-closing element.
pub const EMPTY_CLOSE: [u8; 2] = [0x2f, 0x3e];

/// `<!--`, which opens a comment.
pub const COMMENT_OPEN: [u8; 4] = [0x3c, 0x21, 0x2d, 0x2d];

/// `-->`, which closes a comment.
pub const COMMENT_CLOSE: [u8; 3] = [0x2d, 0x2d, 0x3e];

/// `<![CDATA[`.
pub const CDATA_OPEN: [u8; 9] = [0x3c, 0x21, 0x5b, 0x43, 0x44, 0x41, 0x54, 0x41, 0x5b];

/// `]]>`.
pub const CDATA_CLOSE: [u8; 3] = [0x5d, 0x5d, 0x3e];

/// `<?`, which opens a declaration and a processing instruction.
pub const PI_OPEN: [u8; 2] = [0x3c, 0x3f];

/// `?>`, which closes a declaration and a processing instruction.
pub const PI_CLOSE: [u8; 2] = [0x3f, 0x3e];

/// `<!DOCTYPE `, with the space.
pub const DOCTYPE_OPEN: [u8; 10] = [0x3c, 0x21, 0x44, 0x4f, 0x43, 0x54, 0x59, 0x50, 0x45, 0x20];

/// The delimiter written before the payload of an event of this kind.
pub open spec fn opening(kind: TokenKind) -> Seq<u8> {
    match kind {
        TokenKind::Start => TAG_OPEN@,
        TokenKind::End => END_OPEN@,
        TokenKind::Empty => TAG_OPEN@,
        TokenKind::Text => Seq::empty(),
        TokenKind::Comment => COMMENT_OPEN@,
        TokenKind::CData => CDATA_OPEN@,
        TokenKind::Decl => PI_OPEN@,
        TokenKind::PI => PI_OPEN@,
        TokenKind::DocType => DOCTYPE_OPEN@,
        TokenKind::Eof => Seq::empty(),
    }
}

/// The delimiter written after the payload of an event of this kind.
pub open spec fn closing(kind: TokenKind) -> Seq<u8> {
    match kind {
        TokenKind::Start => TAG_CLOSE@,
        TokenKind::End => TAG_CLOSE@,
        TokenKind::Empty => EMPTY_CLOSE@,
        TokenKind::Text => Seq::empty(),
        TokenKind::Comment => COMMENT_CLOSE@,
        TokenKind::CData => CDATA_CLOSE@,
        TokenKind::Decl => PI_CLOSE@,
        TokenKind::PI => PI_CLOSE@,
        TokenKind::DocType => TAG_CLOSE@,
        TokenKind::Eof => Seq::empty(),
    }
}

/// The text of one attribute inside a rebuilt tag: a space, the key, `="`,
/// the value as it is, and `"`.
pub open spec fn attribute_text(a: AttributeView) -> Seq<u8> {
    seq![0x20u8] + a.key + seq![0x3du8, 0x22u8] + a.value + seq![0x22u8]
}

/// The text of a list of attributes inside a rebuilt tag, in order.
pub open spec fn attributes_text(attributes: Seq<AttributeView>) -> Seq<u8>
    decreases attributes.len(),
{
    if attributes.len() == 0 {
        Seq::empty()
    } else {
        attributes_text(attributes.drop_last()) + attribute_text(attributes.last())
    }
}

/// The canonical content of a tag with this name and these attributes.
pub open spec fn tag_content(name: Seq<u8>, attributes: Seq<AttributeView>) -> Seq<u8> {
    name + attributes_text(attributes)
}

/// Copies a byte vector.
pub fn copy_bytes(bytes: &Vec<u8>) -> (copy: Vec<u8>)
    ensures
        copy@ == bytes@,
{
    let mut copy: Vec<u8> = Vec::new();
    let mut i: usize = 0;
    while i < bytes.len()
        invariant
            i <= bytes.len(),
            copy@ == bytes@.take(i as int),
        decreases bytes.len() - i,
    {
        copy.push(bytes[i]);
        i = i + 1;
    }
    copy
}

/// Puts `bytes` behind what `out` holds.
pub fn append(out: &mut Vec<u8>, bytes: &[u8])
    ensures
        final(out)@ == old(out)@ + bytes@,
{
    let mut i: usize = 0;
    assert(old(out)@ + bytes@.take(0) == old(out)@);
    while i < bytes.len()
        invariant
            i <= bytes.len(),
            out@ == old(out)@ + bytes@.take(i as int),
        decreases bytes.len() - i,
    {
        out.push(bytes[i]);
        assert(bytes@.take(i + 1) == bytes@.take(i as int).push(bytes@[i as int]));
        assert(old(out)@ + bytes@.take(i as int).push(bytes@[i as int]) == (old(out)@ + bytes@.take(
            i as int,
        )).push(bytes@[i as int]));
        i = i + 1;
    }
    assert(bytes@.take(bytes.len() as int) == bytes@);
}

/// Whether two byte strings are equal.
pub fn bytes_eq(a: &[u8], b: &[u8]) -> (same: bool)
    ensures
        same == (a@ == b@),
{
    if a.len() != b.len() {
        return false;
    }
    let mut i: usize = 0;
    while i < a.len()
        invariant
            i <= a.len(),
            a.len() == b.len(),
            a@.take(i as int) == b@.take(i as int),
        decreases a.len() - i,
    {
        if a[i] != b[i] {
            return false;
        }
        assert(a@.take(i + 1) == a@.take(i as int).push(a@[i as int]));
        assert(b@.take(i + 1) == b@.take(i as int).push(b@[i as int]));
        i = i + 1;
    }
    assert(a@ == a@.take(a.len() as int));
    assert(b@ == b@.take(b.len() as int));
    true
}

impl Attribute {
    /// An attribute with this key and this raw value.
    pub fn new(key: Vec<u8>, value: Vec<u8>) -> (attribute: Attribute)
        ensures
            attribute@ == (AttributeView { key: key@, value: value@ }),
    {
        Attribute { key, value }
    }

    /// A copy of this attribute.
    pub fn duplicate(&self) -> (copy: Attribute)
        ensures
            copy@ == self@,
    {
        Attribute { key: copy_bytes(&self.key), value: copy_bytes(&self.value) }
    }
}

/// Copies a list of attributes.
pub fn copy_attributes(attributes: &Vec<Attribute>) -> (copy: Vec<Attribute>)
    ensures
        copy.deep_view() == attributes.deep_view(),
{
    let mut copy: Vec<Attribute> = Vec::new();
    let mut i: usize = 0;
    while i < attributes.len()
        invariant
            i <= attributes.len(),
            copy.deep_view() == attributes.deep_view().take(i as int),
        decreases attributes.len() - i,
    {
        let ghost before = copy.deep_view();
        copy.push(attributes[i].duplicate());
        assert(copy.deep_view() == before.push(attributes[i as int]@));
        assert(attributes.deep_view().take(i + 1) == attributes.deep_view().take(i as int).push(
            attributes[i as int]@,
        ));
        i = i + 1;
    }
    assert(attributes.deep_view().take(attributes.len() as int) == attributes.deep_view());
    copy
}

/// The name of the element that opens and closes a layer: `g`.
pub const GROUP: [u8; 1] = [0x67];

/// The name of an image element: `image`.
pub const IMAGE: [u8; 5] = [0x69, 0x6d, 0x61, 0x67, 0x65];

/// The name of a rectangle element: `rect`.
pub const RECT: [u8; 4] = [0x72, 0x65, 0x63, 0x74];

/// The attribute key `id`.
pub const ID: [u8; 2] = [0x69, 0x64];

/// The attribute key `width`.
pub const WIDTH: [u8; 5] = [0x77, 0x69, 0x64, 0x74, 0x68];

/// The attribute key `height`.
pub const HEIGHT: [u8; 6] = [0x68, 0x65, 0x69, 0x67, 0x68, 0x74];

/// The attribute key `style`.
pub const STYLE: [u8; 5] = [0x73, 0x74, 0x79, 0x6c, 0x65];

/// The attribute value `display:none`.
pub const DISPLAY_NONE: [u8; 12] = [
    0x64,
    0x69,
    0x73,
    0x70,
    0x6c,
    0x61,
    0x79,
    0x3a,
    0x6e,
    0x6f,
    0x6e,
    0x65,
];

/// The attribute key `xlink:href`.
pub const HREF: [u8; 10] = [0x78, 0x6c, 0x69, 0x6e, 0x6b, 0x3a, 0x68, 0x72, 0x65, 0x66];

/// The attribute key `inkscape:label`.
pub const LABEL: [u8; 14] = [
    0x69,
    0x6e,
    0x6b,
    0x73,
    0x63,
    0x61,
    0x70,
    0x65,
    0x3a,
    0x6c,
    0x61,
    0x62,
    0x65,
    0x6c,
];

/// Whether the event opens a layer: an opening tag named `g`.
pub open spec fn opens_layer(e: EventView) -> bool {
    e matches EventView::Start(element) && element.name == GROUP@
}

/// Whether the event closes a layer: a closing tag named `g`.
pub open spec fn closes_layer(e: EventView) -> bool {
    e matches EventView::End(name) && name == GROUP@
}

/// The attributes of `attributes` whose key is not `key`, in their order.
pub open spec fn without_key(attributes: Seq<AttributeView>, key: Seq<u8>) -> Seq<AttributeView> {
    attributes.filter(|a: AttributeView| a.key != key)
}

/// The value of the first attribute under `key`, if there is one.
pub open spec fn first_value(attributes: Seq<AttributeView>, key: Seq<u8>) -> Option<Seq<u8>>
    decreases attributes.len(),
{
    if attributes.len() == 0 {
        None
    } else if attributes[0].key == key {
        Some(attributes[0].value)
    } else {
        first_value(attributes.skip(1), key)
    }
}

/// Whether some attribute stands under `key`.
pub open spec fn has_key(attributes: Seq<AttributeView>, key: Seq<u8>) -> bool {
    exists|i: int| 0 <= i < attributes.len() && (#[trigger] attributes[i]).key == key
}

/// Removing the attributes under a key from a list and one more attribute is
/// removing them from the list and then deciding on the one.
pub proof fn lemma_without_key_push(attributes: Seq<AttributeView>, a: AttributeView, key: Seq<u8>)
    ensures
        without_key(attributes.push(a), key) == if a.key != key {
            without_key(attributes, key).push(a)
        } else {
            without_key(attributes, key)
        },
{
    reveal(Seq::filter);
    assert(attributes.push(a).drop_last() == attributes);
}

/// No attribute under `key` is left once they are removed, and removing them
/// again changes nothing.
pub proof fn lemma_without_key_clean(attributes: Seq<AttributeView>, key: Seq<u8>)
    ensures
        !has_key(without_key(attributes, key), key),
        without_key(without_key(attributes, key), key) == without_key(attributes, key),
    decreases attributes.len(),
{
    reveal(Seq::filter);
    if attributes.len() > 0 {
        let rest = attributes.drop_last();
        let last = attributes.last();
        lemma_without_key_clean(rest, key);
        assert(attributes == rest.push(last));
        lemma_without_key_push(rest, last, key);
        if last.key != key {
            lemma_without_key_push(without_key(rest, key), last, key);
            let kept = without_key(rest, key).push(last);
            assert forall|i: int| 0 <= i < kept.len() implies (#[trigger] kept[i]).key != key by {
                if i < kept.len() - 1 {
                    assert(kept[i] == without_key(rest, key)[i]);
                }
            }
        }
    }
}

/// The attributes of `attributes` that do not stand under `key`, copied.
pub fn remove_key(attributes: &Vec<Attribute>, key: &[u8]) -> (kept: Vec<Attribute>)
    ensures
        kept.deep_view() == without_key(attributes.deep_view(), key@),
{
    let mut kept: Vec<Attribute> = Vec::new();
    let mut i: usize = 0;
    proof {
        reveal(Seq::filter);
        assert(attributes.deep_view().take(0) == Seq::<AttributeView>::empty());
    }
    while i < attributes.len()
        invariant
            i <= attributes.len(),
            kept.deep_view() == without_key(attributes.deep_view().take(i as int), key@),
        decreases attributes.len() - i,
    {
        let ghost before = kept.deep_view();
        proof {
            lemma_without_key_push(
                attributes.deep_view().take(i as int),
                attributes[i as int]@,
                key@,
            );
            assert(attributes.deep_view().take(i + 1) == attributes.deep_view().take(
                i as int,
            ).push(attributes[i as int]@));
        }
        if !bytes_eq(attributes[i].key.as_slice(), key) {
            kept.push(attributes[i].duplicate());
            assert(kept.deep_view() == before.push(attributes[i as int]@));
        }
        i = i + 1;
    }
    assert(attributes.deep_view().take(attributes.len() as int) == attributes.deep_view());
    kept
}

/// The value of the first attribute under `key`, copied.
pub fn find_value(attributes: &Vec<Attribute>, key: &[u8]) -> (value: Option<Vec<u8>>)
    ensures
        match value {
            Some(v) => first_value(attributes.deep_view(), key@) == Some(v@),
            None => first_value(attributes.deep_view(), key@) is None,
        },
{
    let mut i: usize = 0;
    assert(attributes.deep_view().skip(0) == attributes.deep_view());
    while i < attributes.len()
        invariant
            i <= attributes.len(),
            first_value(attributes.deep_view(), key@) == first_value(
                attributes.deep_view().skip(i as int),
                key@,
            ),
        decreases attributes.len() - i,
    {
        let ghost rest = attributes.deep_view().skip(i as int);
        assert(rest[0] == attributes[i as int]@);
        assert(rest.skip(1) == attributes.deep_view().skip(i + 1));
        if bytes_eq(attributes[i].key.as_slice(), key) {
            return Some(copy_bytes(&attributes[i].value));
        }
        i = i + 1;
    }
    None
}

impl Element {
    /// A tag with this name and these attributes, in canonical form.
    pub fn new(name: Vec<u8>, attributes: Vec<Attribute>) -> (element: Element)
        ensures
            element@ == (ElementView {
                name: name@,
                attributes: attributes.deep_view(),
                content: tag_content(name@, attributes.deep_view()),
            }),
    {
        let content = rebuild(name.as_slice(), &attributes);
        Element { name, attributes, content }
    }

    /// A copy of this tag.
    pub fn duplicate(&self) -> (copy: Element)
        ensures
            copy@ == self@,
    {
        Element {
            name: copy_bytes(&self.name),
            attributes: copy_attributes(&self.attributes),
            content: copy_bytes(&self.content),
        }
    }

    /// Whether the tag has this name.
    pub fn is_named(&self, name: &[u8]) -> (yes: bool)
        ensures
            yes == (self@.name == name@),
    {
        bytes_eq(self.name.as_slice(), name)
    }

    /// The tag named `name` that keeps the attributes of this one except those
    /// under `key`, in their order, and has `added` as its last.
    pub fn replaced(&self, name: Vec<u8>, key: &[u8], added: Attribute) -> (element: Element)
        ensures
            element@.name == name@,
            element@.attributes == without_key(self@.attributes, key@).push(added@),
            element@.content == tag_content(element@.name, element@.attributes),
    {
        let mut attributes = remove_key(&self.attributes, key);
        let ghost kept = attributes.deep_view();
        attributes.push(added);
        assert(attributes.deep_view() == kept.push(added@));
        Element::new(name, attributes)
    }

    /// The tag with the same name that keeps the attributes of this one except
    /// those under `key`, in their order.
    pub fn stripped(&self, key: &[u8]) -> (element: Element)
        ensures
            element@.name == self@.name,
            element@.attributes == without_key(self@.attributes, key@),
            element@.content == tag_content(element@.name, element@.attributes),
    {
        Element::new(copy_bytes(&self.name), remove_key(&self.attributes, key))
    }
}

impl Event {
    /// A copy of this event.
    pub fn duplicate(&self) -> (copy: Event)
        ensures
            copy@ == self@,
    {
        match self {
            Event::Start(e) => Event::Start(e.duplicate()),
            Event::End(n) => Event::End(copy_bytes(n)),
            Event::Empty(e) => Event::Empty(e.duplicate()),
            Event::Text(b) => Event::Text(copy_bytes(b)),
            Event::Comment(b) => Event::Comment(copy_bytes(b)),
            Event::CData(b) => Event::CData(copy_bytes(b)),
            Event::Decl(b) => Event::Decl(copy_bytes(b)),
            Event::PI(b) => Event::PI(copy_bytes(b)),
            Event::DocType(b) => Event::DocType(copy_bytes(b)),
            Event::Eof => Event::Eof,
        }
    }

    /// The kind of this event.
    pub fn kind(&self) -> (kind: TokenKind)
        ensures
            kind == self@.kind(),
    {
        match self {
            Event::Start(_) => TokenKind::Start,
            Event::End(_) => TokenKind::End,
            Event::Empty(_) => TokenKind::Empty,
            Event::Text(_) => TokenKind::Text,
            Event::Comment(_) => TokenKind::Comment,
            Event::CData(_) => TokenKind::CData,
            Event::Decl(_) => TokenKind::Decl,
            Event::PI(_) => TokenKind::PI,
            Event::DocType(_) => TokenKind::DocType,
            Event::Eof => TokenKind::Eof,
        }
    }

    /// Writes the event behind what `out` holds: the delimiter that opens its
    /// kind, its payload as it is, the delimiter that closes its kind. The end
    /// of the stream writes nothing.
    pub fn render(&self, out: &mut Vec<u8>)
        ensures
            final(out)@ == old(out)@ + self@.rendered(),
    {
        let ghost start = out@;
        match self.kind() {
            TokenKind::Start | TokenKind::Empty => append(out, TAG_OPEN.as_slice()),
            TokenKind::End => append(out, END_OPEN.as_slice()),
            TokenKind::Comment => append(out, COMMENT_OPEN.as_slice()),
            TokenKind::CData => append(out, CDATA_OPEN.as_slice()),
            TokenKind::Decl | TokenKind::PI => append(out, PI_OPEN.as_slice()),
            TokenKind::DocType => append(out, DOCTYPE_OPEN.as_slice()),
            TokenKind::Text | TokenKind::Eof => {
                assert(start + Seq::<u8>::empty() == start);
            },
        }
        assert(out@ == start + opening(self@.kind()));
        append(out, self.payload());
        let ghost middle = out@;
        match self.kind() {
            TokenKind::Start | TokenKind::End | TokenKind::DocType => append(
                out,
                TAG_CLOSE.as_slice(),
            ),
            TokenKind::Empty => append(out, EMPTY_CLOSE.as_slice()),
            TokenKind::Comment => append(out, COMMENT_CLOSE.as_slice()),
            TokenKind::CData => append(out, CDATA_CLOSE.as_slice()),
            TokenKind::Decl | TokenKind::PI => append(out, PI_CLOSE.as_slice()),
            TokenKind::Text | TokenKind::Eof => {
                assert(middle + Seq::<u8>::empty() == middle);
            },
        }
        assert(out@ == start + opening(self@.kind()) + self@.payload() + closing(self@.kind()));
        assert(start + opening(self@.kind()) + self@.payload() + closing(self@.kind()) == start + (
        opening(self@.kind()) + self@.payload() + closing(self@.kind())));
    }

    /// The bytes this event carries.
    pub fn payload(&self) -> (payload: &[u8])
        ensures
            payload@ == self@.payload(),
    {
        match self {
            Event::Start(e) => e.content.as_slice(),
            Event::End(n) => n.as_slice(),
            Event::Empty(e) => e.content.as_slice(),
            Event::Text(b) => b.as_slice(),
            Event::Comment(b) => b.as_slice(),
            Event::CData(b) => b.as_slice(),
            Event::Decl(b) => b.as_slice(),
            Event::PI(b) => b.as_slice(),
            Event::DocType(b) => b.as_slice(),
            Event::Eof => {
                let nothing: &[u8] = &[];
                nothing
            },
        }
    }
}


} // verus!
