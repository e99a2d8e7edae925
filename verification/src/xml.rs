//! XML tokens, as the `quick-xml` reader produces them, in plain values.
use vstd::prelude::*;
use quick_xml::events::attributes::Attributes;
use quick_xml::events::Event;
use quick_xml::reader::Reader;

verus! {

#[verifier::external_type_specification]
#[verifier::external_body]
#[verifier::reject_recursive_types(R)]
pub struct ExXmlReader<R>(quick_xml::reader::Reader<R>);

/// One XML token: a start tag, an empty-element tag, an end tag (each by local name, with
/// attributes by local name and raw value), text with entities decoded, the end of input, or
/// anything else (comments, declarations, CDATA, errors).
#[derive(Debug)]
pub enum XmlEvent {
    Start { name: String, attrs: Vec<(String, String)> },
    Empty { name: String, attrs: Vec<(String, String)> },
    End { name: String },
    Text(String),
    Eof,
    Other,
}

/// The plain-value view of a token.
pub enum XmlToken {
    Start(Seq<char>, Seq<(Seq<char>, Seq<char>)>),
    Empty(Seq<char>, Seq<(Seq<char>, Seq<char>)>),
    End(Seq<char>),
    Text(Seq<char>),
    Eof,
    Other,
}

/// A token as the reader gives it: start and empty-element tags carry the raw text of their
/// attributes (everything after the name), which `attributes_of` reads.
pub enum RawXmlEvent {
    Start { name: String, attrs: String },
    Empty { name: String, attrs: String },
    End { name: String },
    Text(String),
    Eof,
    Other,
}

/// The attributes that `quick-xml` reads from the raw attribute text of a tag: each
/// well-formed attribute by local name and raw value, in order.
pub uninterp spec fn tag_attributes(raw: Seq<char>) -> Seq<(Seq<char>, Seq<char>)>;

/// The view of a raw token.
pub open spec fn raw_token_of(e: RawXmlEvent) -> XmlToken {
    match e {
        RawXmlEvent::Start { name, attrs } => XmlToken::Start(name@, tag_attributes(attrs@)),
        RawXmlEvent::Empty { name, attrs } => XmlToken::Empty(name@, tag_attributes(attrs@)),
        RawXmlEvent::End { name } => XmlToken::End(name@),
        RawXmlEvent::Text(t) => XmlToken::Text(t@),
        RawXmlEvent::Eof => XmlToken::Eof,
        RawXmlEvent::Other => XmlToken::Other,
    }
}

/// `quick_xml::events::attributes::Attributes::new` over a tag's raw attribute text, the
/// malformed or duplicated attributes (which it yields as errors) skipped: each attribute by
/// local name and raw value, both decoded lossily from UTF-8. The result depends on the text
/// alone, and is named.
#[verifier::external_body]
fn attributes_of(raw: &str) -> (res: Vec<(String, String)>)
    ensures
        attrs_view(res@) == tag_attributes(raw@),
{
    let text = |b: &[u8]| String::from_utf8_lossy(b).into_owned();
    Attributes::new(raw, 0).flatten().map(|a| (text(a.key.local_name().as_ref()), text(&a.value))).collect()
}

/// The views of attributes.
pub open spec fn attrs_view(a: Seq<(String, String)>) -> Seq<(Seq<char>, Seq<char>)> {
    a.map_values(|p: (String, String)| (p.0@, p.1@))
}

/// The view of a token.
pub open spec fn token_of(e: XmlEvent) -> XmlToken {
    match e {
        XmlEvent::Start { name, attrs } => XmlToken::Start(name@, attrs_view(attrs@)),
        XmlEvent::Empty { name, attrs } => XmlToken::Empty(name@, attrs_view(attrs@)),
        XmlEvent::End { name } => XmlToken::End(name@),
        XmlEvent::Text(t) => XmlToken::Text(t@),
        XmlEvent::Eof => XmlToken::Eof,
        XmlEvent::Other => XmlToken::Other,
    }
}

/// The tokens that `quick-xml` reads from `input` before its end.
pub uninterp spec fn xml_tokens(input: Seq<char>) -> Seq<XmlToken>;

/// The tokens a reader has still to give before the end of its input.
pub uninterp spec fn pending_tokens(r: Reader<&[u8]>) -> Seq<XmlToken>;

/// `Reader::from_str`. The contract claims that the new reader will give the tokens of `input`.
#[verifier::external_body]
pub(crate) fn xml_reader(input: &str) -> (res: Reader<&[u8]>)
    ensures
        pending_tokens(res) == xml_tokens(input@),
{
    Reader::from_str(input)
}

/// `Reader::read_event`, converted to a raw token. The contract claims that the reader gives
/// its pending tokens in order, each once, and the end of input after the last (the reader
/// stops for good after an error other than an ill-formed tag, and each token consumes input).
#[verifier::external_body]
pub(crate) fn next_token(reader: &mut Reader<&[u8]>) -> (res: RawXmlEvent)
    ensures
        pending_tokens(*old(reader)).len() > 0 ==> raw_token_of(res) == pending_tokens(*old(reader))[0]
            && pending_tokens(*final(reader)) == pending_tokens(*old(reader)).drop_first(),
        pending_tokens(*old(reader)).len() == 0 ==> res is Eof,
{
    let text = |b: &[u8]| String::from_utf8_lossy(b).into_owned();
    match reader.read_event() {
        Ok(Event::Start(e)) => RawXmlEvent::Start { name: text(e.local_name().as_ref()), attrs: text(e.attributes_raw()) },
        Ok(Event::Empty(e)) => RawXmlEvent::Empty { name: text(e.local_name().as_ref()), attrs: text(e.attributes_raw()) },
        Ok(Event::End(e)) => RawXmlEvent::End { name: text(e.local_name().as_ref()) },
        Ok(Event::Text(e)) => RawXmlEvent::Text(e.unescape().unwrap_or_default().into_owned()),
        Ok(Event::Eof) => RawXmlEvent::Eof,
        _ => RawXmlEvent::Other,
    }
}

/// A raw token with its attributes read.
pub fn with_attributes(ev: RawXmlEvent) -> (res: XmlEvent)
    ensures
        token_of(res) == raw_token_of(ev),
{
    match ev {
        RawXmlEvent::Start { name, attrs } => XmlEvent::Start { name, attrs: attributes_of(attrs.as_str()) },
        RawXmlEvent::Empty { name, attrs } => XmlEvent::Empty { name, attrs: attributes_of(attrs.as_str()) },
        RawXmlEvent::End { name } => XmlEvent::End { name },
        RawXmlEvent::Text(t) => XmlEvent::Text(t),
        RawXmlEvent::Eof => XmlEvent::Eof,
        RawXmlEvent::Other => XmlEvent::Other,
    }
}

/// The value of the last attribute with local name `key`, if any.
pub open spec fn attr_value(attrs: Seq<(Seq<char>, Seq<char>)>, key: Seq<char>) -> Option<Seq<char>>
    decreases attrs.len(),
{
    if attrs.len() == 0 {
        None
    } else if attrs.last().0 == key {
        Some(attrs.last().1)
    } else {
        attr_value(attrs.drop_last(), key)
    }
}

/// The value of the last attribute named `key`.
pub fn find_attr(attrs: &Vec<(String, String)>, key: &str) -> (res: Option<String>)
    ensures
        match attr_value(attrs_view(attrs@), key@) {
            Some(v) => res matches Some(r) && r@ == v,
            None => res is None,
        },
{
    let ghost av = attrs_view(attrs@);
    let mut i = attrs.len();
    assert(av.take(i as int) =~= av);
    while i > 0
        invariant
            i <= attrs@.len(),
            av == attrs_view(attrs@),
            attr_value(av, key@) == attr_value(av.take(i as int), key@),
        decreases i,
    {
        assert(av.take(i as int).drop_last() =~= av.take(i - 1));
        assert(av.take(i as int).last() == (attrs@[i - 1].0@, attrs@[i - 1].1@));
        if crate::text::str_eq(attrs[i - 1].0.as_str(), key) {
            return Some(crate::text::owned(attrs[i - 1].1.as_str()));
        }
        i = i - 1;
    }
    None
}

/// The value of the first attribute with local name `key`, or empty when there is none.
pub open spec fn first_attr(attrs: Seq<(Seq<char>, Seq<char>)>, key: Seq<char>) -> Seq<char>
    decreases attrs.len(),
{
    if attrs.len() == 0 {
        Seq::empty()
    } else if attrs[0].0 == key {
        attrs[0].1
    } else {
        first_attr(attrs.skip(1), key)
    }
}

/// The value of the first attribute named `key`, or an empty string.
pub fn attr_str(attrs: &Vec<(String, String)>, key: &str) -> (res: String)
    ensures
        res@ == first_attr(attrs_view(attrs@), key@),
{
    let ghost av = attrs_view(attrs@);
    let mut i: usize = 0;
    assert(av.skip(0) =~= av);
    while i < attrs.len()
        invariant
            i <= attrs@.len(),
            av == attrs_view(attrs@),
            first_attr(av, key@) == first_attr(av.skip(i as int), key@),
        decreases attrs@.len() - i,
    {
        assert(av.skip(i as int)[0] == (attrs@[i as int].0@, attrs@[i as int].1@));
        assert(av.skip(i as int).skip(1) =~= av.skip(i + 1));
        if crate::text::str_eq(attrs[i].0.as_str(), key) {
            return crate::text::owned(attrs[i].1.as_str());
        }
        i = i + 1;
    }
    String::new()
}

/// Once an end-of-input token occurs, later tokens change nothing: the tokens up to it.
pub open spec fn before_eof(toks: Seq<XmlToken>) -> Seq<XmlToken>
    decreases toks.len(),
{
    if toks.len() == 0 {
        toks
    } else if toks[0] is Eof {
        Seq::empty()
    } else {
        seq![toks[0]] + before_eof(toks.skip(1))
    }
}

/// The views of tokens.
pub open spec fn tokens_view(v: Seq<XmlEvent>) -> Seq<XmlToken> {
    v.map_values(|e: XmlEvent| token_of(e))
}

/// All tokens of `input` before its end, in order.
pub fn read_tokens(input: &str) -> (res: Vec<XmlEvent>)
    ensures
        tokens_view(res@) == before_eof(xml_tokens(input@)),
{
    let ghost toks = xml_tokens(input@);
    let mut reader = xml_reader(input);
    let mut res: Vec<XmlEvent> = Vec::new();
    loop
        invariant
            toks == xml_tokens(input@),
            tokens_view(res@) + before_eof(pending_tokens(reader)) == before_eof(toks),
        decreases pending_tokens(reader).len(),
    {
        let ghost pending = pending_tokens(reader);
        let ev = with_attributes(next_token(&mut reader));
        if let XmlEvent::Eof = ev {
            proof {
                if pending.len() > 0 {
                    assert(pending[0] is Eof);
                }
                assert(before_eof(pending) =~= Seq::<XmlToken>::empty());
                assert(tokens_view(res@) + before_eof(pending) =~= tokens_view(res@));
            }
            return res;
        }
        proof {
            assert(pending.len() > 0);
            assert(pending.skip(1) =~= pending.drop_first());
        }
        let ghost before = tokens_view(res@);
        let ghost t = token_of(ev);
        res.push(ev);
        assert(tokens_view(res@) =~= before.push(t));
        assert(before_eof(pending) == seq![t] + before_eof(pending.skip(1)));
        assert(tokens_view(res@) + before_eof(pending_tokens(reader)) =~= before + before_eof(pending));
    }
}

} // verus!
