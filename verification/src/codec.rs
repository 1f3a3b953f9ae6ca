//! The structured-mode JSON encoding of an event.
//!
//! [`serialize`] writes an envelope as a JSON object with the members in a
//! fixed order; [`deserialize`] reads such an object and validates what it
//! read.

use crate::bridge::{base64_bytes, base64_decode};
use crate::content_type::{as_text, class_of, content_class, option_text, text_of, ContentClass};
use crate::entries::{
    has_key,
    keys_distinct,
    lemma_distinct_concat,
    lemma_has_key_concat,
    lemma_lookup_at,
    lookup,
};
use crate::envelope::{
    first_invalid_name,
    stamp_of,
    is_lower_alnum,
    valid_envelope,
    valid_extension_name,
    validate_model,
    EnvelopeDraft,
    EnvelopeModel,
    EventEnvelope,
};
use crate::error::{codec_error_of, CodecError, CodecErrorModel, CoreAttribute};
use crate::extension::{
    extension_of_json,
    extension_to_json,
    ExtensionMap,
    ExtensionModel,
    ExtensionValue,
};
use crate::json::{JsonModel, JsonObject, JsonValue};
use crate::timestamp::{is_rfc3339, Timestamp};
use crate::payload::{
    payload_of_wire,
    payload_of_wire_model,
    wire_form,
    wire_model,
    DataPayload,
    PayloadModel,
    WireData,
    WireModel,
};
use crate::version::{
    dispatch,
    dispatch_model,
    is_reserved,
    lemma_names,
    version_text,
    wire_name,
    SpecVersion,
};
use crate::laws::{
    lemma_binary_as_base64,
    lemma_json_inline,
    lemma_payload_read,
    lemma_round_trip,
    round_trips,
};
use vstd::prelude::*;
use vstd::utf8::valid_utf8;

verus! {

/// The member that carries an attribute of text: one member where the
/// version has a name for the attribute and the attribute has a value,
/// else none.
pub open spec fn text_member(name: Option<Seq<char>>, value: Option<Seq<char>>) -> Seq<
    (Seq<char>, JsonModel),
> {
    if name is Some && value is Some {
        seq![(name->0, JsonModel::String(value->0))]
    } else {
        Seq::empty()
    }
}

/// The members that carry the extensions: each under its name, with its
/// typed JSON value, in the order of the mapping.
pub open spec fn extension_members(extensions: Seq<(Seq<char>, ExtensionModel)>) -> Seq<
    (Seq<char>, JsonModel),
> {
    Seq::new(extensions.len(), |i: int| (extensions[i].0, extension_to_json(extensions[i].1)))
}

/// The member that carries the payload: `data`, `data_base64`, or none.
pub open spec fn payload_members(wire: WireModel) -> Seq<(Seq<char>, JsonModel)> {
    match wire {
        WireModel::Absent => Seq::empty(),
        WireModel::Data(v) => seq![("data"@, v)],
        WireModel::Base64(t) => seq![("data_base64"@, JsonModel::String(t))],
    }
}

/// The document of an envelope whose payload takes the form `wire`. The
/// members stand in this order: `specversion`, `id`, `type`, `source`,
/// `subject`, `time`, the extensions, `datacontenttype`, `dataschema`, the
/// payload. The first four are always there; each of the others only where
/// the envelope has it.
pub open spec fn assemble_model(e: EnvelopeModel, wire: WireModel) -> Seq<(Seq<char>, JsonModel)> {
    let v = e.specversion;
    text_member(wire_name(v, CoreAttribute::SpecVersion), Some(version_text(v))) + text_member(
        wire_name(v, CoreAttribute::Id),
        Some(e.id),
    ) + text_member(wire_name(v, CoreAttribute::Type), Some(e.ty)) + text_member(
        wire_name(v, CoreAttribute::Source),
        Some(e.source),
    ) + text_member(wire_name(v, CoreAttribute::Subject), e.subject) + text_member(
        wire_name(v, CoreAttribute::Time),
        e.time,
    ) + extension_members(e.extensions) + text_member(
        wire_name(v, CoreAttribute::DataContentType),
        e.datacontenttype,
    ) + text_member(wire_name(v, CoreAttribute::DataSchema), e.dataschema) + payload_members(wire)
}

/// The document of an envelope.
pub open spec fn serialize_model(e: EnvelopeModel) -> Seq<(Seq<char>, JsonModel)> {
    assemble_model(e, wire_model(content_class(e.datacontenttype), e.data))
}

/// What a document holds for an attribute: nothing where the version has
/// no name for it or the document has no such member, the text of a JSON
/// string, and an error for any other JSON value.
pub open spec fn attribute_text(
    doc: Seq<(Seq<char>, JsonModel)>,
    v: SpecVersion,
    a: CoreAttribute,
) -> Result<Option<Seq<char>>, CodecErrorModel> {
    match wire_name(v, a) {
        None => Ok(None),
        Some(name) => match lookup(doc, name) {
            None => Ok(None),
            Some(JsonModel::String(t)) => Ok(Some(t)),
            Some(_) => Err(CodecErrorModel::InvalidExtensionValueType(name)),
        },
    }
}

/// What a document holds for an attribute that has to be there.
pub open spec fn required_text(
    doc: Seq<(Seq<char>, JsonModel)>,
    v: SpecVersion,
    a: CoreAttribute,
) -> Result<Seq<char>, CodecErrorModel> {
    match attribute_text(doc, v, a) {
        Err(e) => Err(e),
        Ok(None) => Err(CodecErrorModel::MissingRequiredAttribute(a)),
        Ok(Some(t)) => Ok(t),
    }
}

/// What a document holds for the time: a text in the notation of RFC 3339
/// where the member is there; any other text is an error.
pub open spec fn time_of(doc: Seq<(Seq<char>, JsonModel)>, v: SpecVersion) -> Result<
    Option<Seq<char>>,
    CodecErrorModel,
> {
    match attribute_text(doc, v, CoreAttribute::Time) {
        Ok(Some(t)) => if is_rfc3339(t) {
            Ok(Some(t))
        } else {
            Err(CodecErrorModel::InvalidExtensionValueType(wire_name(v, CoreAttribute::Time)->0))
        },
        other => other,
    }
}

/// The extensions of a document: its members under names that the version
/// does not keep for itself, in the order of the document. The first such
/// member whose value is no string, boolean or integer is an error.
pub open spec fn extensions_of(doc: Seq<(Seq<char>, JsonModel)>, v: SpecVersion) -> Result<
    Seq<(Seq<char>, ExtensionModel)>,
    CodecErrorModel,
>
    decreases doc.len(),
{
    if doc.len() == 0 {
        Ok(Seq::empty())
    } else {
        match extensions_of(doc.drop_last(), v) {
            Err(e) => Err(e),
            Ok(before) => if is_reserved(v, doc.last().0) {
                Ok(before)
            } else {
                match extension_of_json(doc.last().1) {
                    None => Err(CodecErrorModel::InvalidExtensionValueType(doc.last().0)),
                    Some(x) => Ok(before.push((doc.last().0, x))),
                }
            },
        }
    }
}

/// Whether a document holds both payload members.
pub open spec fn ambiguous(doc: Seq<(Seq<char>, JsonModel)>) -> bool {
    has_key(doc, "data"@) && has_key(doc, "data_base64"@)
}

/// The form in which a document carries its payload. `data_base64` has to
/// be a JSON string.
pub open spec fn wire_of(doc: Seq<(Seq<char>, JsonModel)>) -> Result<WireModel, CodecErrorModel> {
    match lookup(doc, "data"@) {
        Some(v) => Ok(WireModel::Data(v)),
        None => match lookup(doc, "data_base64"@) {
            None => Ok(WireModel::Absent),
            Some(JsonModel::String(t)) => Ok(WireModel::Base64(t)),
            Some(_) => Err(CodecErrorModel::InvalidBase64Payload),
        },
    }
}

/// What a document says, member by member, before its base64 text is
/// decoded and its attributes are validated: the attributes, with no
/// payload yet, and the form of the payload. The first failure in this
/// order decides the error: both payload members; `specversion`; `id`,
/// `type`, `source`; `subject`, `time`, `datacontenttype`, `dataschema`;
/// the extensions; the payload member.
pub open spec fn read_model(doc: Seq<(Seq<char>, JsonModel)>) -> Result<
    (EnvelopeModel, WireModel),
    CodecErrorModel,
> {
    let version = dispatch_model(doc);
    let v = version->Ok_0;
    let id = required_text(doc, v, CoreAttribute::Id);
    let ty = required_text(doc, v, CoreAttribute::Type);
    let source = required_text(doc, v, CoreAttribute::Source);
    let subject = attribute_text(doc, v, CoreAttribute::Subject);
    let time = time_of(doc, v);
    let datacontenttype = attribute_text(doc, v, CoreAttribute::DataContentType);
    let dataschema = attribute_text(doc, v, CoreAttribute::DataSchema);
    let extensions = extensions_of(doc, v);
    let wire = wire_of(doc);
    if ambiguous(doc) {
        Err(CodecErrorModel::AmbiguousPayloadEncoding)
    } else if version is Err {
        Err(version->Err_0)
    } else if id is Err {
        Err(id->Err_0)
    } else if ty is Err {
        Err(ty->Err_0)
    } else if source is Err {
        Err(source->Err_0)
    } else if subject is Err {
        Err(subject->Err_0)
    } else if time is Err {
        Err(time->Err_0)
    } else if datacontenttype is Err {
        Err(datacontenttype->Err_0)
    } else if dataschema is Err {
        Err(dataschema->Err_0)
    } else if extensions is Err {
        Err(extensions->Err_0)
    } else if wire is Err {
        Err(wire->Err_0)
    } else {
        Ok(
            (
                EnvelopeModel {
                    id: id->Ok_0,
                    source: source->Ok_0,
                    ty: ty->Ok_0,
                    specversion: v,
                    subject: subject->Ok_0,
                    time: time->Ok_0,
                    datacontenttype: datacontenttype->Ok_0,
                    dataschema: dataschema->Ok_0,
                    extensions: extensions->Ok_0,
                    data: PayloadModel::Empty,
                },
                wire->Ok_0,
            ),
        )
    }
}

/// The bytes that the payload member stands for, where it is base64 text
/// that decodes.
pub open spec fn decoded_of(wire: WireModel) -> Option<Seq<u8>> {
    match wire {
        WireModel::Base64(t) => base64_bytes(t),
        _ => None,
    }
}

/// The envelope of a document that was read: the payload is taken from
/// its wire form under the content type that was read, and the whole is
/// validated.
pub open spec fn finish_model(e: EnvelopeModel, wire: WireModel, decoded: Option<Seq<u8>>) -> Result<
    EnvelopeModel,
    CodecErrorModel,
> {
    match payload_of_wire_model(content_class(e.datacontenttype), wire, decoded) {
        Err(x) => Err(x),
        Ok(p) => {
            let whole = EnvelopeModel { data: p, ..e };
            match validate_model(whole) {
                Err(x) => Err(codec_error_of(x)),
                Ok(()) => Ok(whole),
            }
        },
    }
}

/// The envelope that a document holds, or why it holds none.
pub open spec fn deserialize_model(doc: Seq<(Seq<char>, JsonModel)>) -> Result<
    EnvelopeModel,
    CodecErrorModel,
> {
    match read_model(doc) {
        Err(e) => Err(e),
        Ok((e, wire)) => finish_model(e, wire, decoded_of(wire)),
    }
}

/// The member of an attribute of text: what it holds under which name.
pub proof fn lemma_text_member(name: Option<Seq<char>>, value: Option<Seq<char>>)
    ensures
        keys_distinct(text_member(name, value)),
        forall|q: Seq<char>| #[trigger]
            has_key(text_member(name, value), q) <==> (name == Some(q) && value is Some),
        forall|q: Seq<char>| #[trigger]
            lookup(text_member(name, value), q) == if name == Some(q) && value is Some {
                Some(JsonModel::String(value->0))
            } else {
                None
            },
{
    let m = text_member(name, value);
    assert forall|q: Seq<char>| #[trigger]
        has_key(m, q) <==> (name == Some(q) && value is Some) by {
        if name == Some(q) && value is Some {
            assert(m[0].0 == q);
        }
    }
    assert forall|q: Seq<char>| #[trigger]
        lookup(m, q) == if name == Some(q) && value is Some {
            Some(JsonModel::String(value->0))
        } else {
            None
        } by {
        if name == Some(q) && value is Some {
            lemma_lookup_at(m, 0);
        }
    }
}

/// The member of the payload: what it holds under which name.
pub proof fn lemma_payload_members(wire: WireModel)
    ensures
        keys_distinct(payload_members(wire)),
        forall|q: Seq<char>| #[trigger]
            has_key(payload_members(wire), q) <==> ((wire is Data && q == "data"@) || (wire
                is Base64 && q == "data_base64"@)),
        forall|q: Seq<char>| #[trigger]
            lookup(payload_members(wire), q) == match wire {
                WireModel::Absent => None,
                WireModel::Data(v) => if q == "data"@ {
                    Some(v)
                } else {
                    None
                },
                WireModel::Base64(t) => if q == "data_base64"@ {
                    Some(JsonModel::String(t))
                } else {
                    None
                },
            },
{
    let m = payload_members(wire);
    assert forall|q: Seq<char>| #[trigger]
        has_key(m, q) <==> ((wire is Data && q == "data"@) || (wire is Base64 && q
            == "data_base64"@)) by {
        if m.len() > 0 {
            assert(m[0].0 == m[0].0);
        }
    }
    assert forall|q: Seq<char>| #[trigger]
        lookup(m, q) == match wire {
            WireModel::Absent => None,
            WireModel::Data(v) => if q == "data"@ {
                Some(v)
            } else {
                None
            },
            WireModel::Base64(t) => if q == "data_base64"@ {
                Some(JsonModel::String(t))
            } else {
                None
            },
        } by {
        if has_key(m, q) {
            lemma_lookup_at(m, 0);
        }
    }
}

/// Where every name is valid, the name at every place is.
pub proof fn lemma_names_valid(extensions: Seq<(Seq<char>, ExtensionModel)>)
    requires
        first_invalid_name(extensions) is None,
    ensures
        forall|i: int| 0 <= i < extensions.len() ==> valid_extension_name(#[trigger] extensions[i].0),
    decreases extensions.len(),
{
    if extensions.len() > 0 {
        lemma_names_valid(extensions.drop_last());
        assert forall|i: int| 0 <= i < extensions.len() implies valid_extension_name(
            #[trigger] extensions[i].0,
        ) by {
            if i < extensions.len() - 1 {
                assert(extensions.drop_last()[i] == extensions[i]);
            }
        }
    }
}

/// A valid extension name is none of the names that a version keeps.
pub proof fn lemma_valid_name_not_reserved(v: SpecVersion, q: Seq<char>)
    requires
        valid_extension_name(q),
    ensures
        !is_reserved(v, q),
{
    lemma_names();
    assert(!is_lower_alnum('T'));
    if q == "eventType"@ || q == "eventTime"@ {
        assert(is_lower_alnum(q[5]));
    }
}

/// The members of valid extensions stand under distinct, valid names.
pub proof fn lemma_extension_members(extensions: Seq<(Seq<char>, ExtensionModel)>)
    requires
        keys_distinct(extensions),
        first_invalid_name(extensions) is None,
    ensures
        keys_distinct(extension_members(extensions)),
        forall|q: Seq<char>| #[trigger]
            has_key(extension_members(extensions), q) ==> valid_extension_name(q),
{
    let m = extension_members(extensions);
    lemma_names_valid(extensions);
    assert forall|i: int, j: int| 0 <= i < j < m.len() implies (#[trigger] m[i]).0 != (
    #[trigger] m[j]).0 by {
        assert(m[i].0 == extensions[i].0 && m[j].0 == extensions[j].0);
    }
    assert forall|q: Seq<char>| #[trigger] has_key(m, q) implies valid_extension_name(q) by {
        let i = crate::entries::index_of(m, q);
        assert(m[i].0 == extensions[i].0);
    }
}

/// The names of the document of a valid envelope are distinct.
pub proof fn lemma_members_distinct(e: EnvelopeModel, wire: WireModel)
    requires
        valid_envelope(e),
    ensures
        keys_distinct(assemble_model(e, wire)),
{
    let v = e.specversion;
    let p0 = text_member(wire_name(v, CoreAttribute::SpecVersion), Some(version_text(v)));
    let p1 = text_member(wire_name(v, CoreAttribute::Id), Some(e.id));
    let p2 = text_member(wire_name(v, CoreAttribute::Type), Some(e.ty));
    let p3 = text_member(wire_name(v, CoreAttribute::Source), Some(e.source));
    let p4 = text_member(wire_name(v, CoreAttribute::Subject), e.subject);
    let p5 = text_member(wire_name(v, CoreAttribute::Time), e.time);
    let p6 = extension_members(e.extensions);
    let p7 = text_member(wire_name(v, CoreAttribute::DataContentType), e.datacontenttype);
    let p8 = text_member(wire_name(v, CoreAttribute::DataSchema), e.dataschema);
    let p9 = payload_members(wire);
    lemma_names();
    lemma_text_member(wire_name(v, CoreAttribute::SpecVersion), Some(version_text(v)));
    lemma_text_member(wire_name(v, CoreAttribute::Id), Some(e.id));
    lemma_text_member(wire_name(v, CoreAttribute::Type), Some(e.ty));
    lemma_text_member(wire_name(v, CoreAttribute::Source), Some(e.source));
    lemma_text_member(wire_name(v, CoreAttribute::Subject), e.subject);
    lemma_text_member(wire_name(v, CoreAttribute::Time), e.time);
    lemma_extension_members(e.extensions);
    lemma_text_member(wire_name(v, CoreAttribute::DataContentType), e.datacontenttype);
    lemma_text_member(wire_name(v, CoreAttribute::DataSchema), e.dataschema);
    lemma_payload_members(wire);
    assert forall|q: Seq<char>| #[trigger] has_key(p6, q) implies !is_reserved(v, q) by {
        lemma_valid_name_not_reserved(v, q);
    }
    let a1 = p0 + p1;
    lemma_has_key_concat(p0, p1);
    lemma_distinct_concat(p0, p1);
    let a2 = a1 + p2;
    lemma_has_key_concat(a1, p2);
    lemma_distinct_concat(a1, p2);
    let a3 = a2 + p3;
    lemma_has_key_concat(a2, p3);
    lemma_distinct_concat(a2, p3);
    let a4 = a3 + p4;
    lemma_has_key_concat(a3, p4);
    lemma_distinct_concat(a3, p4);
    let a5 = a4 + p5;
    lemma_has_key_concat(a4, p5);
    lemma_distinct_concat(a4, p5);
    assert forall|q: Seq<char>| #[trigger] has_key(a5, q) implies is_reserved(v, q) by {}
    let a6 = a5 + p6;
    lemma_has_key_concat(a5, p6);
    lemma_distinct_concat(a5, p6);
    let a7 = a6 + p7;
    lemma_has_key_concat(a6, p7);
    lemma_distinct_concat(a6, p7);
    let a8 = a7 + p8;
    lemma_has_key_concat(a7, p8);
    lemma_distinct_concat(a7, p8);
    let a9 = a8 + p9;
    lemma_has_key_concat(a8, p9);
    lemma_distinct_concat(a8, p9);
}

/// What is read from a part of a document stays an error in the whole.
proof fn lemma_extensions_error_stays(doc: Seq<(Seq<char>, JsonModel)>, v: SpecVersion, k: int)
    requires
        0 <= k <= doc.len(),
        extensions_of(doc.take(k), v) is Err,
    ensures
        extensions_of(doc, v) == extensions_of(doc.take(k), v),
    decreases doc.len() - k,
{
    if k < doc.len() {
        assert(doc.take(k + 1).drop_last() =~= doc.take(k));
        lemma_extensions_error_stays(doc, v, k + 1);
    } else {
        assert(doc.take(k) =~= doc);
    }
}

/// Every extension that is read from a document stands under a name of
/// the document.
pub proof fn lemma_extension_keys(doc: Seq<(Seq<char>, JsonModel)>, v: SpecVersion)
    requires
        extensions_of(doc, v) is Ok,
    ensures
        forall|q: Seq<char>| #[trigger]
            has_key(extensions_of(doc, v)->Ok_0, q) ==> has_key(doc, q),
    decreases doc.len(),
{
    let x = extensions_of(doc, v)->Ok_0;
    if doc.len() > 0 {
        let before = extensions_of(doc.drop_last(), v)->Ok_0;
        lemma_extension_keys(doc.drop_last(), v);
        assert forall|q: Seq<char>| has_key(x, q) implies has_key(doc, q) by {
            let i = crate::entries::index_of(x, q);
            if i < before.len() {
                assert(x[i] == before[i]);
                assert(has_key(before, q));
                assert(has_key(doc.drop_last(), q));
                let j = crate::entries::index_of(doc.drop_last(), q);
                assert(doc[j] == doc.drop_last()[j]);
            } else {
                assert(doc[doc.len() - 1].0 == q);
            }
        }
    }
}

/// The view of optional bytes.
pub open spec fn bytes_of(o: Option<Vec<u8>>) -> Option<Seq<u8>> {
    match o {
        Some(b) => Some(b@),
        None => None,
    }
}

/// The text of an optional timestamp.
pub fn stamp_text(o: &Option<Timestamp>) -> (r: Option<&str>)
    ensures
        option_text(r) == stamp_of(*o),
{
    match o {
        Some(t) => Some(t.as_str()),
        None => None,
    }
}

/// Appends a member whose name the document does not hold yet.
fn put(
    doc: &mut JsonObject,
    name: &str,
    value: JsonValue,
    Ghost(whole): Ghost<Seq<(Seq<char>, JsonModel)>>,
)
    requires
        keys_distinct(whole),
        (old(doc)@ + seq![(name@, value@)]).is_prefix_of(whole),
    ensures
        final(doc)@ == old(doc)@ + seq![(name@, value@)],
{
    proof {
        let k = doc@.len() as int;
        let next = doc@ + seq![(name@, value@)];
        assert(whole.subrange(0, next.len() as int)[k] == next[k]);
        assert forall|i: int| 0 <= i < k implies (#[trigger] doc@[i]).0 != name@ by {
            assert(whole.subrange(0, next.len() as int)[i] == next[i]);
        }
        crate::entries::lemma_lookup_absent(doc@, name@);
    }
    doc.insert(name.to_string(), value);
    assert(doc@ =~= old(doc)@ + seq![(name@, value@)]);
}

/// Appends the member of an attribute of text, where there is one.
fn put_text(
    doc: &mut JsonObject,
    name: Option<&str>,
    value: Option<&str>,
    Ghost(whole): Ghost<Seq<(Seq<char>, JsonModel)>>,
)
    requires
        keys_distinct(whole),
        (old(doc)@ + text_member(option_text(name), option_text(value))).is_prefix_of(whole),
    ensures
        final(doc)@ == old(doc)@ + text_member(option_text(name), option_text(value)),
{
    match name {
        Some(n) => match value {
            Some(t) => {
                put(doc, n, JsonValue::String(t.to_string()), Ghost(whole));
            },
            None => {
                assert(doc@ + Seq::<(Seq<char>, JsonModel)>::empty() =~= doc@);
            },
        },
        None => {
            assert(doc@ + Seq::<(Seq<char>, JsonModel)>::empty() =~= doc@);
        },
    }
}

/// Writes the document of `envelope` whose payload takes the form `wire`.
pub fn assemble(envelope: &EventEnvelope, wire: WireData) -> (doc: JsonObject)
    ensures
        doc@ == assemble_model(envelope@, wire@),
{
    let d = envelope.draft();
    let v = d.specversion;
    let ghost e = d@;
    let ghost w = wire@;
    let ghost p0 = text_member(wire_name(v, CoreAttribute::SpecVersion), Some(version_text(v)));
    let ghost p1 = text_member(wire_name(v, CoreAttribute::Id), Some(e.id));
    let ghost p2 = text_member(wire_name(v, CoreAttribute::Type), Some(e.ty));
    let ghost p3 = text_member(wire_name(v, CoreAttribute::Source), Some(e.source));
    let ghost p4 = text_member(wire_name(v, CoreAttribute::Subject), e.subject);
    let ghost p5 = text_member(wire_name(v, CoreAttribute::Time), e.time);
    let ghost p6 = extension_members(e.extensions);
    let ghost p7 = text_member(wire_name(v, CoreAttribute::DataContentType), e.datacontenttype);
    let ghost p8 = text_member(wire_name(v, CoreAttribute::DataSchema), e.dataschema);
    let ghost p9 = payload_members(w);
    let ghost a1 = p0 + p1;
    let ghost a2 = a1 + p2;
    let ghost a3 = a2 + p3;
    let ghost a4 = a3 + p4;
    let ghost a5 = a4 + p5;
    let ghost a6 = a5 + p6;
    let ghost a7 = a6 + p7;
    let ghost a8 = a7 + p8;
    let ghost whole = a8 + p9;
    proof {
        lemma_members_distinct(e, w);
        assert(whole == assemble_model(e, w));
        assert(a8.is_prefix_of(whole));
        assert(a7.is_prefix_of(whole));
        assert(a6.is_prefix_of(whole));
        assert(a5.is_prefix_of(whole));
        assert(a4.is_prefix_of(whole));
        assert(a3.is_prefix_of(whole));
        assert(a2.is_prefix_of(whole));
        assert(a1.is_prefix_of(whole));
        assert(p0.is_prefix_of(whole));
    }
    let mut doc = JsonObject::new();
    assert(doc@ + p0 =~= p0);
    put_text(&mut doc, v.wire_name(CoreAttribute::SpecVersion), Some(v.text()), Ghost(whole));
    put_text(&mut doc, v.wire_name(CoreAttribute::Id), Some(d.id.as_str()), Ghost(whole));
    put_text(&mut doc, v.wire_name(CoreAttribute::Type), Some(d.ty.as_str()), Ghost(whole));
    put_text(&mut doc, v.wire_name(CoreAttribute::Source), Some(d.source.as_str()), Ghost(whole));
    put_text(&mut doc, v.wire_name(CoreAttribute::Subject), as_text(&d.subject), Ghost(whole));
    put_text(&mut doc, v.wire_name(CoreAttribute::Time), stamp_text(&d.time), Ghost(whole));
    let n: usize = d.extensions.len();
    let mut i: usize = 0;
    assert(doc@ =~= a5 + p6.take(0));
    while i < n
        invariant
            n == d.extensions@.len(),
            i <= n,
            p6 == extension_members(d.extensions@),
            a6 == a5 + p6,
            doc@ == a5 + p6.take(i as int),
            keys_distinct(whole),
            a6.is_prefix_of(whole),
        decreases n - i,
    {
        match d.extensions.entry(i) {
            Some(x) => {
                let value = x.1.to_json();
                proof {
                    let next = doc@ + seq![(x.0@, value@)];
                    assert(next =~= a5 + p6.take(i + 1));
                    assert(next =~= whole.subrange(0, next.len() as int));
                }
                put(&mut doc, x.0.as_str(), value, Ghost(whole));
            },
            None => {},
        }
        i += 1;
    }
    assert(doc@ =~= a6);
    put_text(
        &mut doc,
        v.wire_name(CoreAttribute::DataContentType),
        as_text(&d.datacontenttype),
        Ghost(whole),
    );
    put_text(&mut doc, v.wire_name(CoreAttribute::DataSchema), as_text(&d.dataschema), Ghost(whole));
    match wire {
        WireData::Absent => {
            assert(doc@ + p9 =~= doc@);
        },
        WireData::Data(value) => {
            assert(doc@ + p9 =~= whole.subrange(0, whole.len() as int));
            put(&mut doc, "data", value, Ghost(whole));
        },
        WireData::Base64(text) => {
            assert(doc@ + p9 =~= whole.subrange(0, whole.len() as int));
            put(&mut doc, "data_base64", JsonValue::String(text), Ghost(whole));
        },
    }
    doc
}

/// Writes `envelope` as a JSON document.
///
/// Reading the document gives the envelope back where its payload
/// survives under its content type. A JSON payload always stands under
/// `data`; bytes that are no valid UTF-8 always stand under `data_base64`;
/// a text stands under `data` unless its content type is neither textual
/// nor JSON.
pub fn serialize(envelope: &EventEnvelope) -> (doc: JsonObject)
    ensures
        doc@ == serialize_model(envelope@),
        round_trips(envelope@) ==> deserialize_model(doc@) == Ok::<EnvelopeModel, CodecErrorModel>(
            envelope@,
        ),
        envelope@.data is Json ==> has_key(doc@, "data"@) && !has_key(doc@, "data_base64"@),
        (envelope@.data matches PayloadModel::Binary(b) && !valid_utf8(b)) ==> has_key(
            doc@,
            "data_base64"@,
        ) && !has_key(doc@, "data"@),
        envelope@.data is Text && content_class(envelope@.datacontenttype) != ContentClass::Opaque
            ==> has_key(doc@, "data"@) && !has_key(doc@, "data_base64"@),
{
    let d = envelope.draft();
    let wire = wire_form(class_of(&d.datacontenttype), &d.data);
    proof {
        if round_trips(d@) {
            lemma_round_trip(d@);
        }
        if d@.data is Json {
            lemma_json_inline(d@);
        }
        if let PayloadModel::Binary(b) = d@.data {
            if !valid_utf8(b) {
                lemma_binary_as_base64(d@);
            }
        }
        if d@.data is Text {
            lemma_payload_read(d@, wire@);
        }
    }
    assemble(envelope, wire)
}

/// Reads the attribute `a` from a document of version `v`.
fn read_text(doc: &JsonObject, v: SpecVersion, a: CoreAttribute) -> (r: Result<
    Option<String>,
    CodecError,
>)
    ensures
        match r {
            Ok(t) => attribute_text(doc@, v, a) == Ok::<Option<Seq<char>>, CodecErrorModel>(
                text_of(t),
            ),
            Err(e) => attribute_text(doc@, v, a) == Err::<Option<Seq<char>>, CodecErrorModel>(e@),
        },
{
    match v.wire_name(a) {
        None => Ok(None),
        Some(name) => match doc.get(name) {
            None => Ok(None),
            Some(JsonValue::String(t)) => Ok(Some(t.clone())),
            Some(_) => Err(CodecError::InvalidExtensionValueType(name.to_string())),
        },
    }
}

/// Reads the attribute `a`, which has to be there.
fn read_required(doc: &JsonObject, v: SpecVersion, a: CoreAttribute) -> (r: Result<
    String,
    CodecError,
>)
    ensures
        match r {
            Ok(t) => required_text(doc@, v, a) == Ok::<Seq<char>, CodecErrorModel>(t@),
            Err(e) => required_text(doc@, v, a) == Err::<Seq<char>, CodecErrorModel>(e@),
        },
{
    match read_text(doc, v, a) {
        Err(e) => Err(e),
        Ok(None) => Err(CodecError::MissingRequiredAttribute(a)),
        Ok(Some(t)) => Ok(t),
    }
}

/// Reads the time from a document of version `v`.
fn read_time(doc: &JsonObject, v: SpecVersion) -> (r: Result<Option<Timestamp>, CodecError>)
    ensures
        match r {
            Ok(t) => time_of(doc@, v) == Ok::<Option<Seq<char>>, CodecErrorModel>(stamp_of(t)),
            Err(e) => time_of(doc@, v) == Err::<Option<Seq<char>>, CodecErrorModel>(e@),
        },
{
    match v.wire_name(CoreAttribute::Time) {
        None => Ok(None),
        Some(name) => match doc.get(name) {
            None => Ok(None),
            Some(JsonValue::String(t)) => match Timestamp::parse(t.as_str()) {
                Some(stamp) => Ok(Some(stamp)),
                None => Err(CodecError::InvalidExtensionValueType(name.to_string())),
            },
            Some(_) => Err(CodecError::InvalidExtensionValueType(name.to_string())),
        },
    }
}

/// Reads the extensions from a document of version `v`.
fn read_extensions(doc: &JsonObject, v: SpecVersion) -> (r: Result<ExtensionMap, CodecError>)
    ensures
        match r {
            Ok(x) => extensions_of(doc@, v) == Ok::<
                Seq<(Seq<char>, ExtensionModel)>,
                CodecErrorModel,
            >(x@),
            Err(e) => extensions_of(doc@, v) == Err::<
                Seq<(Seq<char>, ExtensionModel)>,
                CodecErrorModel,
            >(e@),
        },
{
    let mut out = ExtensionMap::new();
    let n: usize = doc.len();
    let mut i: usize = 0;
    assert(doc@.take(0) =~= Seq::<(Seq<char>, JsonModel)>::empty());
    while i < n
        invariant
            n == doc@.len(),
            i <= n,
            keys_distinct(doc@),
            extensions_of(doc@.take(i as int), v) == Ok::<
                Seq<(Seq<char>, ExtensionModel)>,
                CodecErrorModel,
            >(out@),
        decreases n - i,
    {
        proof {
            assert(doc@.take(i + 1).drop_last() =~= doc@.take(i as int));
            assert(doc@.take(i + 1).last() == doc@[i as int]);
        }
        match doc.entry(i) {
            Some(member) => {
                if !v.is_reserved(member.0.as_str()) {
                    match ExtensionValue::from_json(member.1) {
                        None => {
                            proof {
                                lemma_extensions_error_stays(doc@, v, i + 1);
                            }
                            return Err(CodecError::InvalidExtensionValueType(member.0.clone()));
                        },
                        Some(x) => {
                            proof {
                                lemma_extension_keys(doc@.take(i as int), v);
                                if has_key(out@, member.0@) {
                                    assert(has_key(
                                        extensions_of(doc@.take(i as int), v)->Ok_0,
                                        member.0@,
                                    ));
                                    assert(has_key(doc@.take(i as int), member.0@));
                                    let j = crate::entries::index_of(doc@.take(i as int), member.0@);
                                    assert(doc@[j] == doc@.take(i as int)[j]);
                                    assert(doc@[j].0 != doc@[i as int].0);
                                }
                            }
                            out.insert(member.0.clone(), x);
                        },
                    }
                }
            },
            None => {},
        }
        i += 1;
    }
    assert(doc@.take(n as int) =~= doc@);
    Ok(out)
}

/// Reads the form in which a document carries its payload.
fn read_wire(doc: &JsonObject) -> (r: Result<WireData, CodecError>)
    ensures
        match r {
            Ok(w) => wire_of(doc@) == Ok::<WireModel, CodecErrorModel>(w@),
            Err(e) => wire_of(doc@) == Err::<WireModel, CodecErrorModel>(e@),
        },
{
    match doc.get("data") {
        Some(v) => Ok(WireData::Data(v.duplicate())),
        None => match doc.get("data_base64") {
            None => Ok(WireData::Absent),
            Some(JsonValue::String(t)) => Ok(WireData::Base64(t.clone())),
            Some(_) => Err(CodecError::InvalidBase64Payload),
        },
    }
}

/// A document that was read member by member: its attributes, with no
/// payload yet, and the form in which it carries the payload.
#[derive(Debug, PartialEq, Eq)]
pub struct Reading {
    pub draft: EnvelopeDraft,
    pub wire: WireData,
}

/// Reads a document member by member. Nothing is decoded or validated
/// yet.
pub fn read_document(doc: &JsonObject) -> (r: Result<Reading, CodecError>)
    ensures
        match r {
            Ok(x) => read_model(doc@) == Ok::<(EnvelopeModel, WireModel), CodecErrorModel>(
                (x.draft@, x.wire@),
            ),
            Err(e) => read_model(doc@) == Err::<(EnvelopeModel, WireModel), CodecErrorModel>(e@),
        },
{
    if doc.contains_key("data") && doc.contains_key("data_base64") {
        return Err(CodecError::AmbiguousPayloadEncoding);
    }
    let v = match dispatch(doc) {
        Ok(v) => v,
        Err(e) => {
            return Err(e);
        },
    };
    let id = match read_required(doc, v, CoreAttribute::Id) {
        Ok(t) => t,
        Err(e) => {
            return Err(e);
        },
    };
    let ty = match read_required(doc, v, CoreAttribute::Type) {
        Ok(t) => t,
        Err(e) => {
            return Err(e);
        },
    };
    let source = match read_required(doc, v, CoreAttribute::Source) {
        Ok(t) => t,
        Err(e) => {
            return Err(e);
        },
    };
    let subject = match read_text(doc, v, CoreAttribute::Subject) {
        Ok(t) => t,
        Err(e) => {
            return Err(e);
        },
    };
    let time = match read_time(doc, v) {
        Ok(t) => t,
        Err(e) => {
            return Err(e);
        },
    };
    let datacontenttype = match read_text(doc, v, CoreAttribute::DataContentType) {
        Ok(t) => t,
        Err(e) => {
            return Err(e);
        },
    };
    let dataschema = match read_text(doc, v, CoreAttribute::DataSchema) {
        Ok(t) => t,
        Err(e) => {
            return Err(e);
        },
    };
    let extensions = match read_extensions(doc, v) {
        Ok(x) => x,
        Err(e) => {
            return Err(e);
        },
    };
    let wire = match read_wire(doc) {
        Ok(w) => w,
        Err(e) => {
            return Err(e);
        },
    };
    Ok(
        Reading {
            draft: EnvelopeDraft {
                id,
                source,
                ty,
                specversion: v,
                subject,
                time,
                datacontenttype,
                dataschema,
                extensions,
                data: DataPayload::Empty,
            },
            wire,
        },
    )
}

/// Makes the envelope of a document that was read; `decoded` holds the
/// bytes of its base64 text, where it carries one that decodes.
pub fn finish(reading: Reading, decoded: Option<Vec<u8>>) -> (r: Result<EventEnvelope, CodecError>)
    ensures
        match r {
            Ok(e) => finish_model(reading.draft@, reading.wire@, bytes_of(decoded)) == Ok::<
                EnvelopeModel,
                CodecErrorModel,
            >(e@),
            Err(x) => finish_model(reading.draft@, reading.wire@, bytes_of(decoded)) == Err::<
                EnvelopeModel,
                CodecErrorModel,
            >(x@),
        },
{
    let Reading { draft, wire } = reading;
    let class = class_of(&draft.datacontenttype);
    match payload_of_wire(class, wire, decoded) {
        Err(x) => Err(x),
        Ok(p) => {
            let mut whole = draft;
            whole.data = p;
            EventEnvelope::new(whole)
        },
    }
}

/// Reads an envelope from a JSON document. A document that holds both
/// `data` and `data_base64` is rejected as ambiguous before anything else
/// is looked at.
pub fn deserialize(doc: &JsonObject) -> (r: Result<EventEnvelope, CodecError>)
    ensures
        match r {
            Ok(e) => deserialize_model(doc@) == Ok::<EnvelopeModel, CodecErrorModel>(e@),
            Err(x) => deserialize_model(doc@) == Err::<EnvelopeModel, CodecErrorModel>(x@),
        },
        has_key(doc@, "data"@) && has_key(doc@, "data_base64"@) ==> r matches Err(
            CodecError::AmbiguousPayloadEncoding,
        ),
{
    match read_document(doc) {
        Err(e) => Err(e),
        Ok(reading) => {
            let decoded = match &reading.wire {
                WireData::Base64(t) => base64_decode(t.as_str()),
                _ => None,
            };
            finish(reading, decoded)
        },
    }
}

} // verus!
