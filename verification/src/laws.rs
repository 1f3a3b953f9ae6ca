//! What holds of the codec: which member a document has under which name,
//! and that reading what was written gives the envelope back.

use crate::bridge::base64_bytes;
use crate::codec::{
    ambiguous,
    assemble_model,
    attribute_text,
    decoded_of,
    deserialize_model,
    extension_members,
    extensions_of,
    finish_model,
    lemma_extension_members,
    lemma_names_valid,
    lemma_payload_members,
    lemma_text_member,
    lemma_valid_name_not_reserved,
    payload_members,
    read_model,
    serialize_model,
    text_member,
    time_of,
    wire_of,
};
use crate::content_type::{content_class, ContentClass};
use crate::entries::{
    has_key,
    keys_distinct,
    lemma_has_key_concat,
    lemma_lookup_concat,
    lookup,
};
use crate::envelope::{valid_envelope, valid_extension_name, EnvelopeModel};
use crate::error::{CodecErrorModel, CoreAttribute};
use crate::extension::{lemma_extension_round_trip, ExtensionModel};
use crate::json::JsonModel;
use crate::payload::{
    payload_bytes,
    payload_of_wire_model,
    survives,
    wire_model,
    PayloadModel,
    WireModel,
};
use crate::version::{
    dispatch_model,
    is_reserved,
    lemma_names,
    version_text,
    wire_name,
    SpecVersion,
};
use vstd::prelude::*;
use vstd::utf8::valid_utf8;

verus! {

/// The JSON string of an optional text.
pub open spec fn string_of(value: Option<Seq<char>>) -> Option<JsonModel> {
    match value {
        Some(t) => Some(JsonModel::String(t)),
        None => None,
    }
}

/// The value that the document of an envelope holds under the name `q`.
pub open spec fn member_of(e: EnvelopeModel, wire: WireModel, q: Seq<char>) -> Option<JsonModel> {
    let v = e.specversion;
    if wire_name(v, CoreAttribute::SpecVersion) == Some(q) {
        Some(JsonModel::String(version_text(v)))
    } else if wire_name(v, CoreAttribute::Id) == Some(q) {
        Some(JsonModel::String(e.id))
    } else if wire_name(v, CoreAttribute::Type) == Some(q) {
        Some(JsonModel::String(e.ty))
    } else if wire_name(v, CoreAttribute::Source) == Some(q) {
        Some(JsonModel::String(e.source))
    } else if wire_name(v, CoreAttribute::Subject) == Some(q) {
        string_of(e.subject)
    } else if wire_name(v, CoreAttribute::Time) == Some(q) {
        string_of(e.time)
    } else if wire_name(v, CoreAttribute::DataContentType) == Some(q) {
        string_of(e.datacontenttype)
    } else if wire_name(v, CoreAttribute::DataSchema) == Some(q) {
        string_of(e.dataschema)
    } else if q == "data"@ {
        match wire {
            WireModel::Data(x) => Some(x),
            _ => None,
        }
    } else if q == "data_base64"@ {
        match wire {
            WireModel::Base64(t) => Some(JsonModel::String(t)),
            _ => None,
        }
    } else {
        lookup(extension_members(e.extensions), q)
    }
}

/// The extensions of a concatenation are those of its parts, one after the
/// other; the first error is the error.
pub proof fn lemma_extensions_concat(
    a: Seq<(Seq<char>, JsonModel)>,
    b: Seq<(Seq<char>, JsonModel)>,
    v: SpecVersion,
)
    ensures
        extensions_of(a + b, v) == match extensions_of(a, v) {
            Err(x) => Err(x),
            Ok(xa) => match extensions_of(b, v) {
                Err(x) => Err(x),
                Ok(xb) => Ok(xa + xb),
            },
        },
    decreases b.len(),
{
    if b.len() == 0 {
        assert(a + b =~= a);
        if let Ok(xa) = extensions_of(a, v) {
            assert(xa + Seq::<(Seq<char>, ExtensionModel)>::empty() =~= xa);
        }
    } else {
        assert((a + b).drop_last() =~= a + b.drop_last());
        assert((a + b).last() == b.last());
        lemma_extensions_concat(a, b.drop_last(), v);
        if let Ok(xa) = extensions_of(a, v) {
            if let Ok(xb) = extensions_of(b.drop_last(), v) {
                if !is_reserved(v, b.last().0) {
                    if let Some(x) = crate::extension::extension_of_json(b.last().1) {
                        assert((xa + xb).push((b.last().0, x)) =~= xa + xb.push((b.last().0, x)));
                    }
                }
            }
        }
    }
}

/// Members under names that the version keeps are no extensions.
pub proof fn lemma_reserved_part(p: Seq<(Seq<char>, JsonModel)>, v: SpecVersion)
    requires
        forall|q: Seq<char>| #[trigger] has_key(p, q) ==> is_reserved(v, q),
    ensures
        extensions_of(p, v) == Ok::<Seq<(Seq<char>, ExtensionModel)>, CodecErrorModel>(
            Seq::empty(),
        ),
    decreases p.len(),
{
    if p.len() > 0 {
        assert forall|q: Seq<char>| #[trigger] has_key(p.drop_last(), q) implies is_reserved(
            v,
            q,
        ) by {
            let i = crate::entries::index_of(p.drop_last(), q);
            assert(p[i] == p.drop_last()[i]);
            assert(has_key(p, q));
        }
        lemma_reserved_part(p.drop_last(), v);
        assert(p[p.len() - 1] == p.last());
        assert(has_key(p, p.last().0));
    }
}

/// The members that carry valid extensions are read back as those
/// extensions.
pub proof fn lemma_extensions_of_members(x: Seq<(Seq<char>, ExtensionModel)>, v: SpecVersion)
    requires
        forall|i: int| 0 <= i < x.len() ==> valid_extension_name(#[trigger] x[i].0),
    ensures
        extensions_of(extension_members(x), v) == Ok::<
            Seq<(Seq<char>, ExtensionModel)>,
            CodecErrorModel,
        >(x),
    decreases x.len(),
{
    let m = extension_members(x);
    if x.len() == 0 {
        assert(x =~= Seq::<(Seq<char>, ExtensionModel)>::empty());
    } else {
        assert(m.drop_last() =~= extension_members(x.drop_last()));
        assert forall|i: int| 0 <= i < x.drop_last().len() implies valid_extension_name(
            #[trigger] x.drop_last()[i].0,
        ) by {
            assert(x.drop_last()[i] == x[i]);
        }
        lemma_extensions_of_members(x.drop_last(), v);
        assert(valid_extension_name(x[x.len() - 1].0));
        lemma_valid_name_not_reserved(v, x.last().0);
        lemma_extension_round_trip(x.last().1);
        assert(x.drop_last().push(x.last()) =~= x);
    }
}

/// The document of a valid envelope, name by name: its names are
/// distinct, each name finds the member that [`member_of`] gives, and its
/// extensions are read back as they are.
pub proof fn lemma_members(e: EnvelopeModel, wire: WireModel)
    requires
        valid_envelope(e),
    ensures
        keys_distinct(assemble_model(e, wire)),
        forall|q: Seq<char>| #[trigger]
            lookup(assemble_model(e, wire), q) == member_of(e, wire, q),
        forall|q: Seq<char>| #[trigger]
            has_key(assemble_model(e, wire), q) <==> member_of(e, wire, q) is Some,
        extensions_of(assemble_model(e, wire), e.specversion) == Ok::<
            Seq<(Seq<char>, ExtensionModel)>,
            CodecErrorModel,
        >(e.extensions),
{
    crate::codec::lemma_members_distinct(e, wire);
    assert forall|q: Seq<char>| #[trigger]
        has_key(assemble_model(e, wire), q) <==> member_of(e, wire, q) is Some by {
        lemma_member_in_parts(e, wire, q);
    }
    assert forall|q: Seq<char>| #[trigger]
        lookup(assemble_model(e, wire), q) == member_of(e, wire, q) by {
        lemma_member_in_parts(e, wire, q);
    }
    lemma_extensions_read(e, wire);
}

/// The extensions of a valid envelope are read back from its document as
/// they are: every other member stands under a name that the version keeps.
proof fn lemma_extensions_read(e: EnvelopeModel, wire: WireModel)
    requires
        valid_envelope(e),
    ensures
        extensions_of(assemble_model(e, wire), e.specversion) == Ok::<
            Seq<(Seq<char>, ExtensionModel)>,
            CodecErrorModel,
        >(e.extensions),
{
    let v = e.specversion;
    let p0 = text_member(wire_name(v, CoreAttribute::SpecVersion), Some(version_text(v)));
    let p1 = text_member(wire_name(v, CoreAttribute::Id), Some(e.id));
    let p2 = text_member(wire_name(v, CoreAttribute::Type), Some(e.ty));
    let p3 = text_member(wire_name(v, CoreAttribute::Source), Some(e.source));
    let p4 = text_member(wire_name(v, CoreAttribute::Subject), e.subject);
    let p5 = text_member(wire_name(v, CoreAttribute::Time), e.time);
    let p6 = extension_members(e.extensions);
    let p7 = text_member(wire_name(v, CoreAttribute::DataContentType), e.datacontenttype);
    let p8 = text_member(wire_name(v, CoreAttribute::DataSchema), e.dataschema);
    let p9 = payload_members(wire);
    lemma_text_member(wire_name(v, CoreAttribute::SpecVersion), Some(version_text(v)));
    lemma_text_member(wire_name(v, CoreAttribute::Id), Some(e.id));
    lemma_text_member(wire_name(v, CoreAttribute::Type), Some(e.ty));
    lemma_text_member(wire_name(v, CoreAttribute::Source), Some(e.source));
    lemma_text_member(wire_name(v, CoreAttribute::Subject), e.subject);
    lemma_text_member(wire_name(v, CoreAttribute::Time), e.time);
    lemma_text_member(wire_name(v, CoreAttribute::DataContentType), e.datacontenttype);
    lemma_text_member(wire_name(v, CoreAttribute::DataSchema), e.dataschema);
    lemma_payload_members(wire);
    let a1 = p0 + p1;
    let a2 = a1 + p2;
    let a3 = a2 + p3;
    let a4 = a3 + p4;
    let a5 = a4 + p5;
    let a6 = a5 + p6;
    let a7 = a6 + p7;
    let a8 = a7 + p8;
    lemma_has_key_concat(p0, p1);
    lemma_has_key_concat(a1, p2);
    lemma_has_key_concat(a2, p3);
    lemma_has_key_concat(a3, p4);
    lemma_has_key_concat(a4, p5);
    assert forall|q: Seq<char>| #[trigger] has_key(a5, q) implies is_reserved(v, q) by {}
    lemma_reserved_part(a5, v);
    lemma_names_valid(e.extensions);
    lemma_extensions_of_members(e.extensions, v);
    lemma_reserved_part(p7, v);
    lemma_reserved_part(p8, v);
    lemma_reserved_part(p9, v);
    lemma_extensions_concat(a5, p6, v);
    lemma_extensions_concat(a6, p7, v);
    lemma_extensions_concat(a7, p8, v);
    lemma_extensions_concat(a8, p9, v);
    assert(Seq::<(Seq<char>, ExtensionModel)>::empty() + e.extensions =~= e.extensions);
    assert(e.extensions + Seq::<(Seq<char>, ExtensionModel)>::empty() =~= e.extensions);
}

/// The member under one name, found part by part.
proof fn lemma_member_in_parts(e: EnvelopeModel, wire: WireModel, q: Seq<char>)
    requires
        valid_envelope(e),
    ensures
        lookup(assemble_model(e, wire), q) == member_of(e, wire, q),
        has_key(assemble_model(e, wire), q) <==> member_of(e, wire, q) is Some,
{
    let v = e.specversion;
    let p0 = text_member(wire_name(v, CoreAttribute::SpecVersion), Some(version_text(v)));
    let p1 = text_member(wire_name(v, CoreAttribute::Id), Some(e.id));
    let p2 = text_member(wire_name(v, CoreAttribute::Type), Some(e.ty));
    let p3 = text_member(wire_name(v, CoreAttribute::Source), Some(e.source));
    let p4 = text_member(wire_name(v, CoreAttribute::Subject), e.subject);
    let p5 = text_member(wire_name(v, CoreAttribute::Time), e.time);
    let p6 = extension_members(e.extensions);
    let p7 = text_member(wire_name(v, CoreAttribute::DataContentType), e.datacontenttype);
    let p8 = text_member(wire_name(v, CoreAttribute::DataSchema), e.dataschema);
    let p9 = payload_members(wire);
    lemma_names();
    lemma_text_member(wire_name(v, CoreAttribute::SpecVersion), Some(version_text(v)));
    lemma_text_member(wire_name(v, CoreAttribute::Id), Some(e.id));
    lemma_text_member(wire_name(v, CoreAttribute::Type), Some(e.ty));
    lemma_text_member(wire_name(v, CoreAttribute::Source), Some(e.source));
    lemma_text_member(wire_name(v, CoreAttribute::Subject), e.subject);
    lemma_text_member(wire_name(v, CoreAttribute::Time), e.time);
    lemma_extension_members(e.extensions);
    lemma_text_member(wire_name(v, CoreAttribute::DataContentType), e.datacontenttype);
    lemma_text_member(wire_name(v, CoreAttribute::DataSchema), e.dataschema);
    lemma_payload_members(wire);
    if has_key(p6, q) {
        lemma_valid_name_not_reserved(v, q);
    }
    crate::codec::lemma_members_distinct(e, wire);
    let a1 = p0 + p1;
    let a2 = a1 + p2;
    let a3 = a2 + p3;
    let a4 = a3 + p4;
    let a5 = a4 + p5;
    let a6 = a5 + p6;
    let a7 = a6 + p7;
    let a8 = a7 + p8;
    let a9 = a8 + p9;
    assert(a9 == assemble_model(e, wire));
    crate::entries::lemma_distinct_parts(a8, p9);
    crate::entries::lemma_distinct_parts(a7, p8);
    crate::entries::lemma_distinct_parts(a6, p7);
    crate::entries::lemma_distinct_parts(a5, p6);
    crate::entries::lemma_distinct_parts(a4, p5);
    crate::entries::lemma_distinct_parts(a3, p4);
    crate::entries::lemma_distinct_parts(a2, p3);
    crate::entries::lemma_distinct_parts(a1, p2);
    lemma_has_key_concat(p0, p1);
    lemma_has_key_concat(a1, p2);
    lemma_has_key_concat(a2, p3);
    lemma_has_key_concat(a3, p4);
    lemma_has_key_concat(a4, p5);
    lemma_has_key_concat(a5, p6);
    lemma_has_key_concat(a6, p7);
    lemma_has_key_concat(a7, p8);
    lemma_has_key_concat(a8, p9);
    lemma_lookup_concat(p0, p1);
    lemma_lookup_concat(a1, p2);
    lemma_lookup_concat(a2, p3);
    lemma_lookup_concat(a3, p4);
    lemma_lookup_concat(a4, p5);
    lemma_lookup_concat(a5, p6);
    lemma_lookup_concat(a6, p7);
    lemma_lookup_concat(a7, p8);
    lemma_lookup_concat(a8, p9);
}

/// The envelopes that come back from their document as they went in:
/// those whose payload survives under their content type. An envelope of
/// version 0.3 has to be without `subject` and `dataschema`, for which
/// that version has no member.
pub open spec fn round_trips(e: EnvelopeModel) -> bool {
    &&& survives(content_class(e.datacontenttype), e.data)
    &&& e.specversion == SpecVersion::V0_3 ==> e.subject is None && e.dataschema is None
}

/// A payload that survives is read back from its wire form, provided that
/// decoding its base64 text gives its bytes back.
pub proof fn lemma_payload_survives(class: ContentClass, p: PayloadModel)
    requires
        survives(class, p),
        wire_model(class, p) matches WireModel::Base64(t) ==> base64_bytes(t) == Some(
            payload_bytes(p),
        ),
    ensures
        payload_of_wire_model(class, wire_model(class, p), decoded_of(wire_model(class, p))) == Ok::<
            PayloadModel,
            CodecErrorModel,
        >(p),
{
}

/// What reading the document of an envelope gives for its attributes:
/// the attributes themselves, but for those that the version has no member
/// for. The payload is not read yet.
pub open spec fn read_back(e: EnvelopeModel) -> EnvelopeModel {
    EnvelopeModel {
        subject: if wire_name(e.specversion, CoreAttribute::Subject) is Some {
            e.subject
        } else {
            None
        },
        dataschema: if wire_name(e.specversion, CoreAttribute::DataSchema) is Some {
            e.dataschema
        } else {
            None
        },
        data: PayloadModel::Empty,
        ..e
    }
}

/// The document of a valid envelope is read, member by member, as the
/// attributes that [`read_back`] gives and the wire form that was written.
pub proof fn lemma_read_back(e: EnvelopeModel, wire: WireModel)
    requires
        valid_envelope(e),
    ensures
        read_model(assemble_model(e, wire)) == Ok::<(EnvelopeModel, WireModel), CodecErrorModel>(
            (read_back(e), wire),
        ),
{
    let v = e.specversion;
    let doc = assemble_model(e, wire);
    lemma_members(e, wire);
    lemma_names();
    assert(lookup(doc, "specversion"@) == member_of(e, wire, "specversion"@));
    assert(dispatch_model(doc) == Ok::<SpecVersion, CodecErrorModel>(v));
    lemma_attribute_read(e, wire, CoreAttribute::Id);
    lemma_attribute_read(e, wire, CoreAttribute::Type);
    lemma_attribute_read(e, wire, CoreAttribute::Source);
    lemma_attribute_read(e, wire, CoreAttribute::Subject);
    lemma_attribute_read(e, wire, CoreAttribute::Time);
    lemma_attribute_read(e, wire, CoreAttribute::DataContentType);
    lemma_attribute_read(e, wire, CoreAttribute::DataSchema);
    lemma_payload_read(e, wire);
    assert(time_of(doc, v) == Ok::<Option<Seq<char>>, CodecErrorModel>(e.time));
}

/// Round trip: reading the document of a valid envelope gives the
/// envelope back, attribute by attribute and with the same payload, where
/// the payload survives under the content type. The base64 decoder has to
/// give back the bytes that the encoder took, which it does for every text
/// that [`crate::codec::serialize`] writes.
pub proof fn lemma_round_trip(e: EnvelopeModel)
    requires
        valid_envelope(e),
        round_trips(e),
        wire_model(content_class(e.datacontenttype), e.data) matches WireModel::Base64(t)
            ==> base64_bytes(t) == Some(payload_bytes(e.data)),
    ensures
        deserialize_model(serialize_model(e)) == Ok::<EnvelopeModel, CodecErrorModel>(e),
{
    let class = content_class(e.datacontenttype);
    let wire = wire_model(class, e.data);
    lemma_read_back(e, wire);
    lemma_payload_survives(class, e.data);
    assert(EnvelopeModel { data: e.data, ..read_back(e) } == e);
    assert(finish_model(read_back(e), wire, decoded_of(wire)) == Ok::<
        EnvelopeModel,
        CodecErrorModel,
    >(e));
}

/// No other envelope comes back: where reading the document of a valid
/// envelope gives the envelope back, the envelope is one that
/// [`round_trips`].
pub proof fn lemma_round_trip_only(e: EnvelopeModel)
    requires
        valid_envelope(e),
        deserialize_model(serialize_model(e)) == Ok::<EnvelopeModel, CodecErrorModel>(e),
    ensures
        round_trips(e),
{
    let class = content_class(e.datacontenttype);
    let wire = wire_model(class, e.data);
    lemma_read_back(e, wire);
    let read = payload_of_wire_model(class, wire, decoded_of(wire));
    assert(read is Ok);
    assert(EnvelopeModel { data: read->Ok_0, ..read_back(e) } == e);
}

/// The value of an attribute as the document of a valid envelope holds
/// it.
pub open spec fn attribute_of(e: EnvelopeModel, a: CoreAttribute) -> Option<Seq<char>> {
    match a {
        CoreAttribute::SpecVersion => Some(version_text(e.specversion)),
        CoreAttribute::Id => Some(e.id),
        CoreAttribute::Source => Some(e.source),
        CoreAttribute::Type => Some(e.ty),
        CoreAttribute::Subject => e.subject,
        CoreAttribute::Time => e.time,
        CoreAttribute::DataContentType => e.datacontenttype,
        CoreAttribute::DataSchema => e.dataschema,
    }
}

/// An attribute is read from the document of a valid envelope as the
/// envelope has it, where the version has a member for it.
pub proof fn lemma_attribute_read(e: EnvelopeModel, wire: WireModel, a: CoreAttribute)
    requires
        valid_envelope(e),
    ensures
        attribute_text(assemble_model(e, wire), e.specversion, a) == Ok::<
            Option<Seq<char>>,
            CodecErrorModel,
        >(
            if wire_name(e.specversion, a) is Some {
                attribute_of(e, a)
            } else {
                None
            },
        ),
{
    lemma_members(e, wire);
    lemma_names();
    if let Some(name) = wire_name(e.specversion, a) {
        assert(lookup(assemble_model(e, wire), name) == member_of(e, wire, name));
    }
}

/// The payload member is read from the document of a valid envelope as
/// it was written, and the document is never ambiguous.
pub proof fn lemma_payload_read(e: EnvelopeModel, wire: WireModel)
    requires
        valid_envelope(e),
    ensures
        !ambiguous(assemble_model(e, wire)),
        wire_of(assemble_model(e, wire)) == Ok::<WireModel, CodecErrorModel>(wire),
        has_key(assemble_model(e, wire), "data"@) <==> wire is Data,
        has_key(assemble_model(e, wire), "data_base64"@) <==> wire is Base64,
{
    lemma_members(e, wire);
    lemma_names();
    assert(lookup(assemble_model(e, wire), "data"@) == member_of(e, wire, "data"@));
    assert(lookup(assemble_model(e, wire), "data_base64"@) == member_of(e, wire, "data_base64"@));
    assert(has_key(assemble_model(e, wire), "data"@) <==> member_of(e, wire, "data"@) is Some);
    assert(has_key(assemble_model(e, wire), "data_base64"@) <==> member_of(
        e,
        wire,
        "data_base64"@,
    ) is Some);
}

/// A payload of bytes that are no valid UTF-8 is written under
/// `data_base64`, never under `data`.
pub proof fn lemma_binary_as_base64(e: EnvelopeModel)
    requires
        valid_envelope(e),
        e.data matches PayloadModel::Binary(b) && !valid_utf8(b),
    ensures
        has_key(serialize_model(e), "data_base64"@),
        !has_key(serialize_model(e), "data"@),
{
    lemma_payload_read(e, wire_model(content_class(e.datacontenttype), e.data));
}

/// A JSON payload is written under `data`, never under `data_base64`,
/// whatever the content type.
pub proof fn lemma_json_inline(e: EnvelopeModel)
    requires
        valid_envelope(e),
        e.data is Json,
    ensures
        lookup(serialize_model(e), "data"@) == Some(e.data->Json_0),
        has_key(serialize_model(e), "data"@),
        !has_key(serialize_model(e), "data_base64"@),
{
    let wire = wire_model(content_class(e.datacontenttype), e.data);
    lemma_payload_read(e, wire);
    lemma_members(e, wire);
    lemma_names();
    assert(lookup(serialize_model(e), "data"@) == member_of(e, wire, "data"@));
}

/// The document of an envelope of version 1.0 that has the required
/// attributes only holds four members and no other: `specversion`, `id`,
/// `type` and `source`, in this order.
pub proof fn lemma_minimal_document(e: EnvelopeModel)
    requires
        e.specversion == SpecVersion::V1_0,
        e.subject is None,
        e.time is None,
        e.datacontenttype is None,
        e.dataschema is None,
        e.extensions.len() == 0,
        e.data is Empty,
    ensures
        serialize_model(e) == seq![
            ("specversion"@, JsonModel::String("1.0"@)),
            ("id"@, JsonModel::String(e.id)),
            ("type"@, JsonModel::String(e.ty)),
            ("source"@, JsonModel::String(e.source)),
        ],
{
    assert(serialize_model(e) =~= seq![
        ("specversion"@, JsonModel::String("1.0"@)),
        ("id"@, JsonModel::String(e.id)),
        ("type"@, JsonModel::String(e.ty)),
        ("source"@, JsonModel::String(e.source)),
    ]);
}

/// A document that holds both `data` and `data_base64` is rejected as
/// ambiguous, whatever else it holds.
pub proof fn lemma_ambiguous_rejected(doc: Seq<(Seq<char>, JsonModel)>)
    requires
        has_key(doc, "data"@),
        has_key(doc, "data_base64"@),
    ensures
        deserialize_model(doc) == Err::<EnvelopeModel, CodecErrorModel>(
            CodecErrorModel::AmbiguousPayloadEncoding,
        ),
{
}

} // verus!
