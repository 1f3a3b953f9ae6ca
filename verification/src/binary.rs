//! The binary-mode shape of an event: its attributes as headers, its
//! payload as the body, byte for byte.
//!
//! A core attribute is the header `ce-` followed by its member name, an
//! extension the header `ce-` followed by its name, with the value as a
//! string. The content type is the header `content-type`.

use crate::bridge::{render_json, rendered_json, serde_form};
use crate::content_type::{as_text, option_text, text_of};
use crate::codec::{lemma_names_valid, lemma_valid_name_not_reserved, stamp_text};
use crate::entries::{has_key, keys_distinct, lemma_has_key_concat, lemma_upsert, lookup, upsert};
use crate::envelope::{
    valid_envelope,
    valid_extension_name,
    validate_model,
    EnvelopeDraft,
    EnvelopeModel,
    EventEnvelope,
};
use crate::error::{codec_error_of, CodecError, CodecErrorModel, CoreAttribute};
use crate::extension::{coerced_text, ExtensionMap, ExtensionModel, ExtensionValue};
use crate::names::NameMap;
use crate::payload::{copy_bytes, DataPayload, PayloadModel};
use crate::text::starts_with;
use crate::timestamp::{is_rfc3339, Timestamp};
use crate::version::{
    is_reserved,
    lemma_names,
    version_of_text,
    version_text,
    wire_name,
    SpecVersion,
};
use vstd::prelude::*;
use vstd::string::{StrSliceExecFns, StringExecFns};
use vstd::utf8::encode_utf8;

verus! {

/// The headers of a message: an ordered mapping from names to values.
pub type HeaderMap = NameMap<String>;

/// An event in binary mode.
#[derive(Debug, PartialEq, Eq)]
pub struct BinaryMessage {
    pub headers: HeaderMap,
    pub body: Vec<u8>,
}

/// What a [`BinaryMessage`] stands for.
pub struct MessageModel {
    pub headers: Seq<(Seq<char>, Seq<char>)>,
    pub body: Seq<u8>,
}

impl View for BinaryMessage {
    type V = MessageModel;

    open spec fn view(&self) -> MessageModel {
        MessageModel { headers: self.headers@, body: self.body@ }
    }
}

/// The header name of an attribute or extension named `name`.
pub open spec fn ce_name(name: Seq<char>) -> Seq<char> {
    "ce-"@ + name
}

/// The attribute or extension that a header name stands for, where it
/// stands for one.
pub open spec fn ce_attribute(header: Seq<char>) -> Option<Seq<char>> {
    if "ce-"@.is_prefix_of(header) {
        Some(header.skip(3))
    } else {
        None
    }
}

/// `headers` with the header of one attribute stored, where the version
/// has a name for the attribute and the attribute has a value.
pub open spec fn with_attribute(
    headers: Seq<(Seq<char>, Seq<char>)>,
    name: Option<Seq<char>>,
    value: Option<Seq<char>>,
) -> Seq<(Seq<char>, Seq<char>)> {
    if name is Some && value is Some {
        upsert(headers, ce_name(name->0), value->0)
    } else {
        headers
    }
}

/// `headers` with the headers of the extensions stored, in the order of
/// the mapping, each value in its string form.
pub open spec fn with_extensions(
    headers: Seq<(Seq<char>, Seq<char>)>,
    extensions: Seq<(Seq<char>, ExtensionModel)>,
) -> Seq<(Seq<char>, Seq<char>)>
    decreases extensions.len(),
{
    if extensions.len() == 0 {
        headers
    } else {
        upsert(
            with_extensions(headers, extensions.drop_last()),
            ce_name(extensions.last().0),
            coerced_text(extensions.last().1),
        )
    }
}

/// `headers` with the content type stored, where there is one.
pub open spec fn with_content_type(
    headers: Seq<(Seq<char>, Seq<char>)>,
    value: Option<Seq<char>>,
) -> Seq<(Seq<char>, Seq<char>)> {
    match value {
        Some(t) => upsert(headers, "content-type"@, t),
        None => headers,
    }
}

/// The headers of an envelope, stored in this order: `specversion`, `id`,
/// `type`, `source`, `subject`, `time`, the extensions, the content type,
/// `dataschema`.
pub open spec fn headers_model(e: EnvelopeModel) -> Seq<(Seq<char>, Seq<char>)> {
    let v = e.specversion;
    let h0 = with_attribute(
        Seq::empty(),
        wire_name(v, CoreAttribute::SpecVersion),
        Some(version_text(v)),
    );
    let h1 = with_attribute(h0, wire_name(v, CoreAttribute::Id), Some(e.id));
    let h2 = with_attribute(h1, wire_name(v, CoreAttribute::Type), Some(e.ty));
    let h3 = with_attribute(h2, wire_name(v, CoreAttribute::Source), Some(e.source));
    let h4 = with_attribute(h3, wire_name(v, CoreAttribute::Subject), e.subject);
    let h5 = with_attribute(h4, wire_name(v, CoreAttribute::Time), e.time);
    let h6 = with_extensions(h5, e.extensions);
    let h7 = with_content_type(h6, e.datacontenttype);
    with_attribute(h7, wire_name(v, CoreAttribute::DataSchema), e.dataschema)
}

/// The body of a payload: nothing, the UTF-8 bytes of the JSON text that
/// `serde_json` writes for a JSON value, the UTF-8 bytes of a text, or the
/// bytes themselves. A JSON value that `serde_json` cannot hold has no body.
pub open spec fn body_model(p: PayloadModel) -> Option<Seq<u8>> {
    match p {
        PayloadModel::Empty => Some(Seq::empty()),
        PayloadModel::Json(v) => match serde_form(v) {
            Some(tree) => Some(encode_utf8(rendered_json(tree))),
            None => None,
        },
        PayloadModel::Text(s) => Some(encode_utf8(s)),
        PayloadModel::Binary(b) => Some(b),
    }
}

/// The message of an envelope, or `DataEncodingError` where its payload
/// has no body.
pub open spec fn to_binary_model(e: EnvelopeModel) -> Result<MessageModel, CodecErrorModel> {
    match body_model(e.data) {
        Some(body) => Ok(MessageModel { headers: headers_model(e), body }),
        None => Err(CodecErrorModel::DataEncodingError),
    }
}

/// The value of the header of an attribute, where the version has a name
/// for it and the header is there.
pub open spec fn header_text(
    headers: Seq<(Seq<char>, Seq<char>)>,
    v: SpecVersion,
    a: CoreAttribute,
) -> Option<Seq<char>> {
    match wire_name(v, a) {
        Some(name) => lookup(headers, ce_name(name)),
        None => None,
    }
}

/// The extensions among the headers: each header `ce-` followed by a name
/// that the version does not keep for itself, stored in the order of the
/// headers, its value as a string.
pub open spec fn extensions_of_headers(headers: Seq<(Seq<char>, Seq<char>)>, v: SpecVersion) -> Seq<
    (Seq<char>, ExtensionModel),
>
    decreases headers.len(),
{
    if headers.len() == 0 {
        Seq::empty()
    } else {
        let before = extensions_of_headers(headers.drop_last(), v);
        match ce_attribute(headers.last().0) {
            Some(name) => if is_reserved(v, name) {
                before
            } else {
                upsert(before, name, ExtensionModel::String(headers.last().1))
            },
            None => before,
        }
    }
}

/// The attributes and the payload that a message holds, before they are
/// validated. `ce-specversion` selects the version; `id`, `type` and
/// `source` have to be there; the time has to be in the notation of
/// RFC 3339; a body that is not empty is a payload of bytes. Any other
/// header is no part of the event.
pub open spec fn draft_of_message(m: MessageModel) -> Result<EnvelopeModel, CodecErrorModel> {
    match lookup(m.headers, ce_name("specversion"@)) {
        None => Err(CodecErrorModel::MissingRequiredAttribute(CoreAttribute::SpecVersion)),
        Some(t) => match version_of_text(t) {
            None => Err(CodecErrorModel::UnsupportedSpecVersion(t)),
            Some(v) => {
                let id = header_text(m.headers, v, CoreAttribute::Id);
                let ty = header_text(m.headers, v, CoreAttribute::Type);
                let source = header_text(m.headers, v, CoreAttribute::Source);
                let time = header_text(m.headers, v, CoreAttribute::Time);
                if id is None {
                    Err(CodecErrorModel::MissingRequiredAttribute(CoreAttribute::Id))
                } else if ty is None {
                    Err(CodecErrorModel::MissingRequiredAttribute(CoreAttribute::Type))
                } else if source is None {
                    Err(CodecErrorModel::MissingRequiredAttribute(CoreAttribute::Source))
                } else if time is Some && !is_rfc3339(time->0) {
                    Err(
                        CodecErrorModel::InvalidExtensionValueType(
                            ce_name(wire_name(v, CoreAttribute::Time)->0),
                        ),
                    )
                } else {
                    Ok(
                        EnvelopeModel {
                            id: id->0,
                            source: source->0,
                            ty: ty->0,
                            specversion: v,
                            subject: header_text(m.headers, v, CoreAttribute::Subject),
                            time,
                            datacontenttype: lookup(m.headers, "content-type"@),
                            dataschema: header_text(m.headers, v, CoreAttribute::DataSchema),
                            extensions: extensions_of_headers(m.headers, v),
                            data: if m.body.len() == 0 {
                                PayloadModel::Empty
                            } else {
                                PayloadModel::Binary(m.body)
                            },
                        },
                    )
                }
            },
        },
    }
}

/// The envelope that a message holds, or why it holds none.
pub open spec fn from_binary_model(m: MessageModel) -> Result<EnvelopeModel, CodecErrorModel> {
    match draft_of_message(m) {
        Err(x) => Err(x),
        Ok(e) => match validate_model(e) {
            Err(x) => Err(codec_error_of(x)),
            Ok(()) => Ok(e),
        },
    }
}

/// The header name for `name`.
fn prefixed(name: &str) -> (r: String)
    ensures
        r@ == ce_name(name@),
{
    let mut out = "ce-".to_string();
    out.append(name);
    out
}

/// Stores the header of one attribute.
fn set_attribute(headers: &mut HeaderMap, name: Option<&str>, value: Option<&str>)
    ensures
        final(headers)@ == with_attribute(old(headers)@, option_text(name), option_text(value)),
{
    match name {
        Some(n) => match value {
            Some(t) => {
                headers.insert(prefixed(n), t.to_string());
            },
            None => {},
        },
        None => {},
    }
}

/// The body of `payload`, where it has one.
pub fn body_of(payload: &DataPayload) -> (r: Option<Vec<u8>>)
    ensures
        r is Some == body_model(payload@) is Some,
        r matches Some(b) ==> body_model(payload@) == Some(b@),
{
    match payload {
        DataPayload::Empty => Some(Vec::new()),
        DataPayload::Json(v) => match render_json(v) {
            Some(text) => Some(text.as_str().as_bytes_vec()),
            None => None,
        },
        DataPayload::Text(s) => Some(s.as_str().as_bytes_vec()),
        DataPayload::Binary(b) => Some(copy_bytes(b.as_slice())),
    }
}

/// The message of `envelope` in binary mode. Its headers stand in the
/// order in which they are stored, each under a name of its own.
pub fn to_binary(envelope: &EventEnvelope) -> (r: Result<BinaryMessage, CodecError>)
    ensures
        match r {
            Ok(m) => to_binary_model(envelope@) == Ok::<MessageModel, CodecErrorModel>(m@),
            Err(x) => to_binary_model(envelope@) == Err::<MessageModel, CodecErrorModel>(x@),
        },
        r matches Ok(m) ==> m@.headers == headers_in_order(envelope@),
{
    let d = envelope.draft();
    proof {
        lemma_headers_in_order(d@);
    }
    let body = match body_of(&d.data) {
        Some(b) => b,
        None => {
            return Err(CodecError::DataEncodingError);
        },
    };
    let v = d.specversion;
    let mut headers = HeaderMap::new();
    set_attribute(&mut headers, v.wire_name(CoreAttribute::SpecVersion), Some(v.text()));
    set_attribute(&mut headers, v.wire_name(CoreAttribute::Id), Some(d.id.as_str()));
    set_attribute(&mut headers, v.wire_name(CoreAttribute::Type), Some(d.ty.as_str()));
    set_attribute(&mut headers, v.wire_name(CoreAttribute::Source), Some(d.source.as_str()));
    set_attribute(&mut headers, v.wire_name(CoreAttribute::Subject), as_text(&d.subject));
    set_attribute(&mut headers, v.wire_name(CoreAttribute::Time), stamp_text(&d.time));
    let ghost h5 = headers@;
    let n: usize = d.extensions.len();
    let mut i: usize = 0;
    assert(d.extensions@.take(0) =~= Seq::<(Seq<char>, ExtensionModel)>::empty());
    while i < n
        invariant
            n == d.extensions@.len(),
            i <= n,
            headers@ == with_extensions(h5, d.extensions@.take(i as int)),
        decreases n - i,
    {
        proof {
            assert(d.extensions@.take(i + 1).drop_last() =~= d.extensions@.take(i as int));
            assert(d.extensions@.take(i + 1).last() == d.extensions@[i as int]);
        }
        match d.extensions.entry(i) {
            Some(x) => {
                headers.insert(prefixed(x.0.as_str()), x.1.coerced());
            },
            None => {},
        }
        i += 1;
    }
    assert(d.extensions@.take(n as int) =~= d.extensions@);
    match &d.datacontenttype {
        Some(t) => {
            headers.insert("content-type".to_string(), t.clone());
        },
        None => {},
    }
    set_attribute(&mut headers, v.wire_name(CoreAttribute::DataSchema), as_text(&d.dataschema));
    Ok(BinaryMessage { headers, body })
}

/// Reads the header of the attribute `a`.
fn read_header(headers: &HeaderMap, v: SpecVersion, a: CoreAttribute) -> (r: Option<String>)
    ensures
        text_of(r) == header_text(headers@, v, a),
{
    match v.wire_name(a) {
        Some(name) => match headers.get(prefixed(name).as_str()) {
            Some(t) => Some(t.clone()),
            None => None,
        },
        None => None,
    }
}

/// The attribute or extension that the header name `header` stands for.
fn attribute_of_header(header: &str) -> (r: Option<String>)
    ensures
        text_of(r) == ce_attribute(header@),
{
    if starts_with(header, "ce-") {
        proof {
            reveal_strlit("ce-");
        }
        let n: usize = header.unicode_len();
        Some(header.substring_char(3, n).to_string())
    } else {
        None
    }
}

/// Reads the extensions among the headers.
fn read_extension_headers(headers: &HeaderMap, v: SpecVersion) -> (r: ExtensionMap)
    ensures
        r@ == extensions_of_headers(headers@, v),
{
    let mut out = ExtensionMap::new();
    let n: usize = headers.len();
    let mut i: usize = 0;
    assert(headers@.take(0) =~= Seq::<(Seq<char>, Seq<char>)>::empty());
    while i < n
        invariant
            n == headers@.len(),
            i <= n,
            out@ == extensions_of_headers(headers@.take(i as int), v),
        decreases n - i,
    {
        proof {
            assert(headers@.take(i + 1).drop_last() =~= headers@.take(i as int));
            assert(headers@.take(i + 1).last() == headers@[i as int]);
        }
        match headers.entry(i) {
            Some(h) => match attribute_of_header(h.0.as_str()) {
                Some(name) => {
                    if !v.is_reserved(name.as_str()) {
                        out.insert(name, ExtensionValue::String(h.1.clone()));
                    }
                },
                None => {},
            },
            None => {},
        }
        i += 1;
    }
    assert(headers@.take(n as int) =~= headers@);
    out
}

/// Reads the attributes and the payload of a message. Nothing is
/// validated yet.
pub fn read_message(message: &BinaryMessage) -> (r: Result<EnvelopeDraft, CodecError>)
    ensures
        match r {
            Ok(d) => draft_of_message(message@) == Ok::<EnvelopeModel, CodecErrorModel>(d@),
            Err(x) => draft_of_message(message@) == Err::<EnvelopeModel, CodecErrorModel>(x@),
        },
{
    let headers = &message.headers;
    let v = match headers.get(prefixed("specversion").as_str()) {
        None => {
            return Err(CodecError::MissingRequiredAttribute(CoreAttribute::SpecVersion));
        },
        Some(t) => match SpecVersion::from_text(t.as_str()) {
            None => {
                return Err(CodecError::UnsupportedSpecVersion(t.clone()));
            },
            Some(v) => v,
        },
    };
    let id = match read_header(headers, v, CoreAttribute::Id) {
        Some(t) => t,
        None => {
            return Err(CodecError::MissingRequiredAttribute(CoreAttribute::Id));
        },
    };
    let ty = match read_header(headers, v, CoreAttribute::Type) {
        Some(t) => t,
        None => {
            return Err(CodecError::MissingRequiredAttribute(CoreAttribute::Type));
        },
    };
    let source = match read_header(headers, v, CoreAttribute::Source) {
        Some(t) => t,
        None => {
            return Err(CodecError::MissingRequiredAttribute(CoreAttribute::Source));
        },
    };
    let subject = read_header(headers, v, CoreAttribute::Subject);
    let time = match v.wire_name(CoreAttribute::Time) {
        None => None,
        Some(name) => match headers.get(prefixed(name).as_str()) {
            None => None,
            Some(t) => match Timestamp::parse(t.as_str()) {
                Some(stamp) => Some(stamp),
                None => {
                    return Err(CodecError::InvalidExtensionValueType(prefixed(name)));
                },
            },
        },
    };
    let datacontenttype = match headers.get("content-type") {
        Some(t) => Some(t.clone()),
        None => None,
    };
    let dataschema = read_header(headers, v, CoreAttribute::DataSchema);
    let extensions = read_extension_headers(headers, v);
    let data = if message.body.len() == 0 {
        DataPayload::Empty
    } else {
        DataPayload::Binary(copy_bytes(message.body.as_slice()))
    };
    Ok(
        EnvelopeDraft {
            id,
            source,
            ty,
            specversion: v,
            subject,
            time,
            datacontenttype,
            dataschema,
            extensions,
            data,
        },
    )
}

/// The envelope that `message` holds in binary mode.
pub fn from_binary(message: &BinaryMessage) -> (r: Result<EventEnvelope, CodecError>)
    ensures
        match r {
            Ok(e) => from_binary_model(message@) == Ok::<EnvelopeModel, CodecErrorModel>(e@),
            Err(x) => from_binary_model(message@) == Err::<EnvelopeModel, CodecErrorModel>(x@),
        },
{
    match read_message(message) {
        Err(x) => Err(x),
        Ok(draft) => EventEnvelope::new(draft),
    }
}

/// The header of one attribute: one header where the version has a name
/// for the attribute and the attribute has a value, else none.
pub open spec fn attribute_header(name: Option<Seq<char>>, value: Option<Seq<char>>) -> Seq<
    (Seq<char>, Seq<char>),
> {
    if name is Some && value is Some {
        seq![(ce_name(name->0), value->0)]
    } else {
        Seq::empty()
    }
}

/// The headers of the extensions, in the order of the mapping.
pub open spec fn extension_headers(extensions: Seq<(Seq<char>, ExtensionModel)>) -> Seq<
    (Seq<char>, Seq<char>),
> {
    Seq::new(
        extensions.len(),
        |i: int| (ce_name(extensions[i].0), coerced_text(extensions[i].1)),
    )
}

/// The header of the content type, where there is one.
pub open spec fn content_type_header(value: Option<Seq<char>>) -> Seq<(Seq<char>, Seq<char>)> {
    match value {
        Some(t) => seq![("content-type"@, t)],
        None => Seq::empty(),
    }
}

/// The headers of an envelope, one after the other: `specversion`, `id`,
/// `type`, `source`, `subject`, `time`, the extensions, the content type,
/// `dataschema`.
pub open spec fn headers_in_order(e: EnvelopeModel) -> Seq<(Seq<char>, Seq<char>)> {
    let v = e.specversion;
    attribute_header(wire_name(v, CoreAttribute::SpecVersion), Some(version_text(v)))
        + attribute_header(wire_name(v, CoreAttribute::Id), Some(e.id)) + attribute_header(
        wire_name(v, CoreAttribute::Type),
        Some(e.ty),
    ) + attribute_header(wire_name(v, CoreAttribute::Source), Some(e.source)) + attribute_header(
        wire_name(v, CoreAttribute::Subject),
        e.subject,
    ) + attribute_header(wire_name(v, CoreAttribute::Time), e.time) + extension_headers(
        e.extensions,
    ) + content_type_header(e.datacontenttype) + attribute_header(
        wire_name(v, CoreAttribute::DataSchema),
        e.dataschema,
    )
}

/// A header name made of a name stands for that name, and `content-type`
/// stands for none.
pub proof fn lemma_ce_name(name: Seq<char>)
    ensures
        ce_attribute(ce_name(name)) == Some(name),
        ce_attribute("content-type"@) is None,
        ce_name(name) != "content-type"@,
{
    reveal_strlit("ce-");
    reveal_strlit("content-type");
    assert("ce-"@ =~= ce_name(name).subrange(0, 3));
    assert(ce_name(name).skip(3) =~= name);
    assert("content-type"@[1] != "ce-"@[1]);
    assert("content-type"@.subrange(0, 3)[1] == "content-type"@[1]);
    if ce_name(name) == "content-type"@ {
        assert(ce_name(name)[1] == "ce-"@[1]);
    }
}

/// Storing a header under a name that is not there yet appends it.
proof fn lemma_store_new(headers: Seq<(Seq<char>, Seq<char>)>, name: Seq<char>, value: Seq<char>)
    requires
        !has_key(headers, name),
    ensures
        upsert(headers, name, value) == headers + seq![(name, value)],
{
    assert(headers.push((name, value)) =~= headers + seq![(name, value)]);
}

/// The header of an attribute of a version, stored behind headers that do
/// not hold it, is appended.
proof fn lemma_store_attribute(
    headers: Seq<(Seq<char>, Seq<char>)>,
    v: SpecVersion,
    a: CoreAttribute,
    value: Option<Seq<char>>,
)
    requires
        keys_distinct(headers),
        wire_name(v, a) matches Some(n) ==> !has_key(headers, ce_name(n)),
    ensures
        with_attribute(headers, wire_name(v, a), value) == headers + attribute_header(
            wire_name(v, a),
            value,
        ),
        keys_distinct(with_attribute(headers, wire_name(v, a), value)),
        forall|q: Seq<char>| #[trigger]
            has_key(with_attribute(headers, wire_name(v, a), value), q) <==> has_key(headers, q)
                || (value is Some && wire_name(v, a) is Some && q == ce_name(wire_name(v, a)->0)),
{
    let part = attribute_header(wire_name(v, a), value);
    lemma_has_key_concat(headers, part);
    if wire_name(v, a) is Some && value is Some {
        let n = wire_name(v, a)->0;
        lemma_store_new(headers, ce_name(n), value->0);
        lemma_upsert(headers, ce_name(n), value->0);
        assert(part[0].0 == ce_name(n));
        assert forall|q: Seq<char>| #[trigger] has_key(part, q) <==> q == ce_name(n) by {}
    } else {
        assert(headers + part =~= headers);
    }
}

/// The headers of valid extensions, stored behind headers of attributes
/// only, are appended in order.
proof fn lemma_store_extensions(
    headers: Seq<(Seq<char>, Seq<char>)>,
    extensions: Seq<(Seq<char>, ExtensionModel)>,
    v: SpecVersion,
)
    requires
        keys_distinct(headers),
        keys_distinct(extensions),
        forall|i: int| 0 <= i < extensions.len() ==> valid_extension_name(#[trigger] extensions[i].0),
        forall|q: Seq<char>| #[trigger]
            has_key(headers, q) ==> ce_attribute(q) is Some && is_reserved(v, ce_attribute(q)->0),
    ensures
        with_extensions(headers, extensions) == headers + extension_headers(extensions),
        keys_distinct(with_extensions(headers, extensions)),
        forall|q: Seq<char>| #[trigger]
            has_key(with_extensions(headers, extensions), q) ==> ce_attribute(q) is Some && (
            is_reserved(v, ce_attribute(q)->0) || valid_extension_name(ce_attribute(q)->0)),
        forall|q: Seq<char>| #[trigger]
            has_key(with_extensions(headers, extensions), q) ==> has_key(headers, q) || exists|
                i: int,
            | 0 <= i < extensions.len() && q == ce_name(#[trigger] extensions[i].0),
    decreases extensions.len(),
{
    if extensions.len() == 0 {
        assert(headers + extension_headers(extensions) =~= headers);
    } else {
        let before = extensions.drop_last();
        let last = extensions.last();
        assert forall|i: int| 0 <= i < before.len() implies valid_extension_name(
            #[trigger] before[i].0,
        ) by {
            assert(before[i] == extensions[i]);
        }
        assert(keys_distinct(before)) by {
            assert forall|i: int, j: int| 0 <= i < j < before.len() implies (#[trigger] before[i]).0
                != (#[trigger] before[j]).0 by {
                assert(before[i] == extensions[i] && before[j] == extensions[j]);
            }
        }
        lemma_store_extensions(headers, before, v);
        let stored = with_extensions(headers, before);
        let name = ce_name(last.0);
        lemma_ce_name(last.0);
        assert(last == extensions[extensions.len() - 1]);
        assert(valid_extension_name(last.0));
        lemma_valid_name_not_reserved(v, last.0);
        if has_key(stored, name) {
            if has_key(headers, name) {
                assert(false);
            } else {
                let i = choose|i: int| 0 <= i < before.len() && name == ce_name(#[trigger] before[i].0);
                lemma_ce_name(before[i].0);
                assert(before[i] == extensions[i]);
                assert(extensions[i].0 != extensions[extensions.len() - 1].0);
                assert(false);
            }
        }
        lemma_store_new(stored, name, coerced_text(last.1));
        lemma_upsert(stored, name, coerced_text(last.1));
        let after = with_extensions(headers, extensions);
        assert(after =~= headers + extension_headers(extensions));
        lemma_has_key_concat(stored, seq![(name, coerced_text(last.1))]);
        assert forall|q: Seq<char>| #[trigger] has_key(after, q) implies (has_key(headers, q)
            || exists|i: int| 0 <= i < extensions.len() && q == ce_name(#[trigger] extensions[i].0))
            && ce_attribute(q) is Some && (is_reserved(v, ce_attribute(q)->0)
            || valid_extension_name(ce_attribute(q)->0)) by {
            if has_key(stored, q) {
                if !has_key(headers, q) {
                    let i = choose|i: int|
                        0 <= i < before.len() && q == ce_name(#[trigger] before[i].0);
                    assert(before[i] == extensions[i]);
                }
            } else {
                let one = seq![(name, coerced_text(last.1))];
                assert(has_key(one, q));
                let k = crate::entries::index_of(one, q);
                assert(one[k].0 == name);
                assert(q == ce_name(extensions[extensions.len() - 1].0));
            }
        }
    }
}

/// For a valid envelope no header is stored twice: the headers stand one
/// after the other in the order in which they are stored, under distinct
/// names.
pub proof fn lemma_headers_in_order(e: EnvelopeModel)
    requires
        valid_envelope(e),
    ensures
        headers_model(e) == headers_in_order(e),
        keys_distinct(headers_model(e)),
{
    let v = e.specversion;
    lemma_names();
    lemma_names_valid(e.extensions);
    lemma_ce_name("specversion"@);
    lemma_ce_name("id"@);
    lemma_ce_name("source"@);
    lemma_ce_name("type"@);
    lemma_ce_name("eventType"@);
    lemma_ce_name("subject"@);
    lemma_ce_name("time"@);
    lemma_ce_name("eventTime"@);
    lemma_ce_name("dataschema"@);
    let empty = Seq::<(Seq<char>, Seq<char>)>::empty();
    lemma_store_attribute(empty, v, CoreAttribute::SpecVersion, Some(version_text(v)));
    let h0 = with_attribute(empty, wire_name(v, CoreAttribute::SpecVersion), Some(version_text(v)));
    lemma_store_attribute(h0, v, CoreAttribute::Id, Some(e.id));
    let h1 = with_attribute(h0, wire_name(v, CoreAttribute::Id), Some(e.id));
    lemma_store_attribute(h1, v, CoreAttribute::Type, Some(e.ty));
    let h2 = with_attribute(h1, wire_name(v, CoreAttribute::Type), Some(e.ty));
    lemma_store_attribute(h2, v, CoreAttribute::Source, Some(e.source));
    let h3 = with_attribute(h2, wire_name(v, CoreAttribute::Source), Some(e.source));
    lemma_store_attribute(h3, v, CoreAttribute::Subject, e.subject);
    let h4 = with_attribute(h3, wire_name(v, CoreAttribute::Subject), e.subject);
    lemma_store_attribute(h4, v, CoreAttribute::Time, e.time);
    let h5 = with_attribute(h4, wire_name(v, CoreAttribute::Time), e.time);
    assert forall|q: Seq<char>| #[trigger] has_key(h5, q) implies ce_attribute(q) is Some
        && is_reserved(v, ce_attribute(q)->0) by {}
    lemma_store_extensions(h5, e.extensions, v);
    let h6 = with_extensions(h5, e.extensions);
    assert(!has_key(h6, "content-type"@));
    let h7 = with_content_type(h6, e.datacontenttype);
    if let Some(t) = e.datacontenttype {
        lemma_store_new(h6, "content-type"@, t);
        lemma_upsert(h6, "content-type"@, t);
        lemma_has_key_concat(h6, seq![("content-type"@, t)]);
        assert(seq![("content-type"@, t)][0].0 == "content-type"@);
    } else {
        assert(h6 + content_type_header(e.datacontenttype) =~= h6);
    }
    assert(h7 == h6 + content_type_header(e.datacontenttype));
    if let Some(n) = wire_name(v, CoreAttribute::DataSchema) {
        if has_key(h7, ce_name(n)) {
            if has_key(h6, ce_name(n)) {
                if !has_key(h5, ce_name(n)) {
                    let i = choose|i: int|
                        0 <= i < e.extensions.len() && ce_name(n) == ce_name(
                            #[trigger] e.extensions[i].0,
                        );
                    lemma_ce_name(e.extensions[i].0);
                    lemma_valid_name_not_reserved(v, e.extensions[i].0);
                }
            }
            assert(false);
        }
    }
    lemma_store_attribute(h7, v, CoreAttribute::DataSchema, e.dataschema);
}

} // verus!
