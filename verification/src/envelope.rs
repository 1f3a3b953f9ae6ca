//! The event: its attributes, their validation, and the validated envelope.

use crate::bridge::{parse_url_syntax, url_syntax, UrlSyntax};
use crate::content_type::{class_of, content_class, text_of};
use crate::entries::keys_distinct;
use crate::error::{
    codec_error_of,
    AttributeError,
    AttributeErrorModel,
    CodecError,
    CodecErrorModel,
    CoreAttribute,
};
use crate::extension::{duplicate_extensions, ExtensionMap, ExtensionModel};
use crate::payload::{check_shape, shape_fits, DataPayload, PayloadModel};
use crate::text::text_eq;
use crate::timestamp::{is_rfc3339, Timestamp};
use crate::version::SpecVersion;
use vstd::prelude::*;

verus! {

broadcast use vstd::string::group_string_axioms;

/// The attributes and the payload of an event, as a producer fills them
/// in. Nothing is checked until an [`EventEnvelope`] is made of it.
#[derive(Debug, PartialEq, Eq)]
pub struct EnvelopeDraft {
    pub id: String,
    pub source: String,
    pub ty: String,
    pub specversion: SpecVersion,
    pub subject: Option<String>,
    pub time: Option<Timestamp>,
    pub datacontenttype: Option<String>,
    pub dataschema: Option<String>,
    pub extensions: ExtensionMap,
    pub data: DataPayload,
}

/// What an event holds.
pub struct EnvelopeModel {
    pub id: Seq<char>,
    pub source: Seq<char>,
    pub ty: Seq<char>,
    pub specversion: SpecVersion,
    pub subject: Option<Seq<char>>,
    pub time: Option<Seq<char>>,
    pub datacontenttype: Option<Seq<char>>,
    pub dataschema: Option<Seq<char>>,
    pub extensions: Seq<(Seq<char>, ExtensionModel)>,
    pub data: PayloadModel,
}

impl View for EnvelopeDraft {
    type V = EnvelopeModel;

    open spec fn view(&self) -> EnvelopeModel {
        EnvelopeModel {
            id: self.id@,
            source: self.source@,
            ty: self.ty@,
            specversion: self.specversion,
            subject: text_of(self.subject),
            time: stamp_of(self.time),
            datacontenttype: text_of(self.datacontenttype),
            dataschema: text_of(self.dataschema),
            extensions: self.extensions@,
            data: self.data@,
        }
    }
}

/// The text of an optional timestamp.
pub open spec fn stamp_of(o: Option<Timestamp>) -> Option<Seq<char>> {
    match o {
        Some(t) => Some(t@),
        None => None,
    }
}

/// A copy of an optional string.
fn copy_text(o: &Option<String>) -> (r: Option<String>)
    ensures
        text_of(r) == text_of(*o),
{
    match o {
        Some(s) => Some(s.clone()),
        None => None,
    }
}

impl EnvelopeDraft {
    /// A copy of this draft.
    pub fn duplicate(&self) -> (r: EnvelopeDraft)
        ensures
            r@ == self@,
    {
        EnvelopeDraft {
            id: self.id.clone(),
            source: self.source.clone(),
            ty: self.ty.clone(),
            specversion: self.specversion,
            subject: copy_text(&self.subject),
            time: match &self.time {
                Some(t) => Some(t.duplicate()),
                None => None,
            },
            datacontenttype: copy_text(&self.datacontenttype),
            dataschema: copy_text(&self.dataschema),
            extensions: duplicate_extensions(&self.extensions),
            data: self.data.duplicate(),
        }
    }
}

/// The names that no extension may take.
pub open spec fn is_core_name(name: Seq<char>) -> bool {
    ||| name == "id"@
    ||| name == "source"@
    ||| name == "type"@
    ||| name == "specversion"@
    ||| name == "subject"@
    ||| name == "time"@
    ||| name == "datacontenttype"@
    ||| name == "dataschema"@
    ||| name == "data"@
    ||| name == "data_base64"@
}

/// One of the characters `a`-`z` and `0`-`9`.
pub open spec fn is_lower_alnum(c: char) -> bool {
    ('a' <= c && c <= 'z') || ('0' <= c && c <= '9')
}

/// An extension name is not empty, holds only the characters `a`-`z` and
/// `0`-`9`, and is not the name of a core attribute.
pub open spec fn valid_extension_name(name: Seq<char>) -> bool {
    &&& name.len() > 0
    &&& forall|i: int| 0 <= i < name.len() ==> is_lower_alnum(#[trigger] name[i])
    &&& !is_core_name(name)
}

/// The first name, in the order of the mapping, that is no valid extension
/// name.
pub open spec fn first_invalid_name(extensions: Seq<(Seq<char>, ExtensionModel)>) -> Option<
    Seq<char>,
>
    decreases extensions.len(),
{
    if extensions.len() == 0 {
        None
    } else {
        match first_invalid_name(extensions.drop_last()) {
            Some(name) => Some(name),
            None => if valid_extension_name(extensions.last().0) {
                None
            } else {
                Some(extensions.last().0)
            },
        }
    }
}

/// The rules of validation, given how `source` and `dataschema` read as
/// URI references. In this order:
/// - `id`, `source` and `type` are not empty;
/// - `source` is a URI reference: absolute or relative, not malformed;
/// - `dataschema`, where present, is an absolute URI;
/// - every extension name is valid.
pub open spec fn validate_given(
    e: EnvelopeModel,
    source_syntax: UrlSyntax,
    schema_syntax: Option<UrlSyntax>,
) -> Result<(), AttributeErrorModel> {
    if e.id.len() == 0 {
        Err(AttributeErrorModel::MissingRequiredAttribute(CoreAttribute::Id))
    } else if e.source.len() == 0 {
        Err(AttributeErrorModel::MissingRequiredAttribute(CoreAttribute::Source))
    } else if e.ty.len() == 0 {
        Err(AttributeErrorModel::MissingRequiredAttribute(CoreAttribute::Type))
    } else if source_syntax == UrlSyntax::Malformed {
        Err(AttributeErrorModel::InvalidUri(CoreAttribute::Source, e.source))
    } else if e.dataschema is Some && schema_syntax != Some(UrlSyntax::Absolute) {
        Err(AttributeErrorModel::InvalidUri(CoreAttribute::DataSchema, e.dataschema->0))
    } else {
        match first_invalid_name(e.extensions) {
            Some(name) => Err(AttributeErrorModel::InvalidExtensionName(name)),
            None => Ok(()),
        }
    }
}

/// How `dataschema` reads as a URI reference, where there is one.
pub open spec fn schema_syntax_of(e: EnvelopeModel) -> Option<UrlSyntax> {
    match e.dataschema {
        Some(u) => Some(url_syntax(u)),
        None => None,
    }
}

/// The outcome of validation.
pub open spec fn validate_model(e: EnvelopeModel) -> Result<(), AttributeErrorModel> {
    validate_given(e, url_syntax(e.source), schema_syntax_of(e))
}

/// A valid set of attributes: validation passes, no extension name
/// occurs twice, and the time, where there is one, is in the notation of
/// RFC 3339.
pub open spec fn valid_envelope(e: EnvelopeModel) -> bool {
    &&& validate_model(e) is Ok
    &&& keys_distinct(e.extensions)
    &&& e.time matches Some(t) ==> is_rfc3339(t)
}

/// The outcome of making an envelope of a draft: the error of validation,
/// or `DataEncodingError` where the content type rules out the shape of
/// the payload, or the envelope.
pub open spec fn build_model(e: EnvelopeModel) -> Result<EnvelopeModel, CodecErrorModel> {
    match validate_model(e) {
        Err(err) => Err(codec_error_of(err)),
        Ok(()) => if shape_fits(content_class(e.datacontenttype), e.data) {
            Ok(e)
        } else {
            Err(CodecErrorModel::DataEncodingError)
        },
    }
}

/// Whether `name` is the name of a core attribute.
pub fn core_name(name: &str) -> (r: bool)
    ensures
        r == is_core_name(name@),
{
    text_eq(name, "id") || text_eq(name, "source") || text_eq(name, "type") || text_eq(
        name,
        "specversion",
    ) || text_eq(name, "subject") || text_eq(name, "time") || text_eq(name, "datacontenttype")
        || text_eq(name, "dataschema") || text_eq(name, "data") || text_eq(name, "data_base64")
}

/// Whether `name` is a valid extension name.
pub fn extension_name_ok(name: &str) -> (r: bool)
    ensures
        r == valid_extension_name(name@),
{
    if name.is_empty() {
        return false;
    }
    let mut ok = true;
    for c in it: name.chars()
        invariant
            it.seq() == name@,
            ok == (forall|i: int| 0 <= i < it.index() ==> is_lower_alnum(#[trigger] name@[i])),
    {
        if !(('a' <= c && c <= 'z') || ('0' <= c && c <= '9')) {
            ok = false;
        }
    }
    ok && !core_name(name)
}

/// The first name of `extensions` that is no valid extension name.
fn find_invalid_name(extensions: &ExtensionMap) -> (r: Option<String>)
    ensures
        text_of(r) == first_invalid_name(extensions@),
{
    let n: usize = extensions.len();
    let mut i: usize = 0;
    assert(extensions@.take(0) =~= Seq::<(Seq<char>, ExtensionModel)>::empty());
    while i < n
        invariant
            n == extensions@.len(),
            i <= n,
            first_invalid_name(extensions@.take(i as int)) is None,
        decreases n - i,
    {
        proof {
            assert(extensions@.take(i + 1).drop_last() =~= extensions@.take(i as int));
            assert(extensions@.take(i + 1).last() == extensions@[i as int]);
        }
        match extensions.entry(i) {
            Some(e) => {
                if !extension_name_ok(e.0.as_str()) {
                    proof {
                        lemma_first_invalid_stays(extensions@, i + 1);
                    }
                    return Some(e.0.clone());
                }
            },
            None => {},
        }
        i += 1;
    }
    assert(extensions@.take(n as int) =~= extensions@);
    None
}

/// An invalid name found in a part of the mapping is the one found in the
/// whole.
proof fn lemma_first_invalid_stays(extensions: Seq<(Seq<char>, ExtensionModel)>, k: int)
    requires
        0 <= k <= extensions.len(),
        first_invalid_name(extensions.take(k)) is Some,
    ensures
        first_invalid_name(extensions) == first_invalid_name(extensions.take(k)),
    decreases extensions.len() - k,
{
    if k < extensions.len() {
        assert(extensions.take(k + 1).drop_last() =~= extensions.take(k));
        lemma_first_invalid_stays(extensions, k + 1);
    } else {
        assert(extensions.take(k) =~= extensions);
    }
}

/// Checks a draft by the rules of validation, given how its `source` and
/// its `dataschema` read as URI references.
pub fn validate_with(
    draft: &EnvelopeDraft,
    source_syntax: UrlSyntax,
    schema_syntax: Option<UrlSyntax>,
) -> (r: Result<(), AttributeError>)
    ensures
        match r {
            Ok(()) => validate_given(draft@, source_syntax, schema_syntax) is Ok,
            Err(e) => validate_given(draft@, source_syntax, schema_syntax) == Err::<
                (),
                AttributeErrorModel,
            >(e@),
        },
{
    if draft.id.as_str().is_empty() {
        return Err(AttributeError::MissingRequiredAttribute(CoreAttribute::Id));
    }
    if draft.source.as_str().is_empty() {
        return Err(AttributeError::MissingRequiredAttribute(CoreAttribute::Source));
    }
    if draft.ty.as_str().is_empty() {
        return Err(AttributeError::MissingRequiredAttribute(CoreAttribute::Type));
    }
    if source_syntax == UrlSyntax::Malformed {
        return Err(AttributeError::InvalidUri(CoreAttribute::Source, draft.source.clone()));
    }
    match &draft.dataschema {
        Some(schema) => {
            let absolute = match schema_syntax {
                Some(UrlSyntax::Absolute) => true,
                _ => false,
            };
            if !absolute {
                return Err(AttributeError::InvalidUri(CoreAttribute::DataSchema, schema.clone()));
            }
        },
        None => {},
    }
    match find_invalid_name(&draft.extensions) {
        Some(name) => Err(AttributeError::InvalidExtensionName(name)),
        None => Ok(()),
    }
}

/// Checks a draft by the rules of validation.
pub fn validate(draft: &EnvelopeDraft) -> (r: Result<(), AttributeError>)
    ensures
        match r {
            Ok(()) => validate_model(draft@) is Ok,
            Err(e) => validate_model(draft@) == Err::<(), AttributeErrorModel>(e@),
        },
{
    let source_syntax = parse_url_syntax(draft.source.as_str());
    let schema_syntax = match &draft.dataschema {
        Some(schema) => Some(parse_url_syntax(schema.as_str())),
        None => None,
    };
    validate_with(draft, source_syntax, schema_syntax)
}

/// A validated event: its attributes are valid, and its content type
/// does not rule out the shape of its payload. The attributes never change;
/// the payload changes only through [`EventEnvelope::set_data`] and
/// [`EventEnvelope::set_data_unchecked`].
#[derive(Debug, PartialEq, Eq)]
pub struct EventEnvelope {
    draft: EnvelopeDraft,
}

impl View for EventEnvelope {
    type V = EnvelopeModel;

    closed spec fn view(&self) -> EnvelopeModel {
        self.draft@
    }
}

impl EventEnvelope {
    #[verifier::type_invariant]
    closed spec fn validated(self) -> bool {
        validate_model(self@) is Ok && shape_fits(
            content_class(self@.datacontenttype),
            self@.data,
        )
    }

    /// Makes an envelope of a draft: validates the attributes once, then
    /// checks the shape of the payload against the content type.
    pub fn new(draft: EnvelopeDraft) -> (r: Result<EventEnvelope, CodecError>)
        ensures
            match r {
                Ok(e) => build_model(draft@) == Ok::<EnvelopeModel, CodecErrorModel>(e@),
                Err(err) => build_model(draft@) == Err::<EnvelopeModel, CodecErrorModel>(err@),
            },
    {
        match validate(&draft) {
            Err(e) => Err(CodecError::from_attribute(e)),
            Ok(()) => {
                if check_shape(class_of(&draft.datacontenttype), &draft.data) {
                    Ok(EventEnvelope { draft })
                } else {
                    Err(CodecError::DataEncodingError)
                }
            },
        }
    }

    /// The attributes and the payload, which are valid.
    pub fn draft(&self) -> (r: &EnvelopeDraft)
        ensures
            r@ == self@,
            valid_envelope(self@),
            shape_fits(content_class(self@.datacontenttype), self@.data),
    {
        proof {
            use_type_invariant(self);
        }
        let n: usize = self.draft.extensions.len();
        match &self.draft.time {
            Some(t) => {
                let text = t.as_str();
            },
            None => {},
        }
        &self.draft
    }

    /// The identifier of the event.
    pub fn id(&self) -> (r: &String)
        ensures
            r@ == self@.id,
    {
        &self.draft.id
    }

    /// The context in which the event happened.
    pub fn source(&self) -> (r: &String)
        ensures
            r@ == self@.source,
    {
        &self.draft.source
    }

    /// The type of the event.
    pub fn ty(&self) -> (r: &String)
        ensures
            r@ == self@.ty,
    {
        &self.draft.ty
    }

    /// The version of the attribute set.
    pub fn specversion(&self) -> (r: SpecVersion)
        ensures
            r == self@.specversion,
    {
        self.draft.specversion
    }

    /// The subject of the event, where it has one.
    pub fn subject(&self) -> (r: &Option<String>)
        ensures
            text_of(*r) == self@.subject,
    {
        &self.draft.subject
    }

    /// The time of the event, where it has one.
    pub fn time(&self) -> (r: &Option<Timestamp>)
        ensures
            stamp_of(*r) == self@.time,
    {
        &self.draft.time
    }

    /// The content type of the payload, where one is declared.
    pub fn datacontenttype(&self) -> (r: &Option<String>)
        ensures
            text_of(*r) == self@.datacontenttype,
    {
        &self.draft.datacontenttype
    }

    /// The schema of the payload, where one is declared.
    pub fn dataschema(&self) -> (r: &Option<String>)
        ensures
            text_of(*r) == self@.dataschema,
    {
        &self.draft.dataschema
    }

    /// The extension attributes.
    pub fn extensions(&self) -> (r: &ExtensionMap)
        ensures
            r@ == self@.extensions,
    {
        &self.draft.extensions
    }

    /// The payload.
    pub fn data(&self) -> (r: &DataPayload)
        ensures
            r@ == self@.data,
    {
        &self.draft.data
    }

    /// A copy of this envelope.
    pub fn duplicate(&self) -> (r: EventEnvelope)
        ensures
            r@ == self@,
    {
        proof {
            use_type_invariant(self);
        }
        EventEnvelope { draft: self.draft.duplicate() }
    }

    /// Gives the attributes and the payload back.
    pub fn into_draft(self) -> (r: EnvelopeDraft)
        ensures
            r@ == self@,
    {
        self.draft
    }

    /// Replaces the payload without a look at the content type. For a
    /// caller that knows the payload to be of the declared content type;
    /// [`EventEnvelope::set_data`] is for every other caller.
    pub fn set_data_unchecked(&mut self, data: DataPayload)
        requires
            shape_fits(content_class(old(self)@.datacontenttype), data@),
        ensures
            final(self)@ == (EnvelopeModel { data: data@, ..old(self)@ }),
    {
        proof {
            use_type_invariant(&*self);
        }
        self.draft.data = data;
    }

    /// Replaces the payload where the content type does not rule out its
    /// shape; else the envelope stays as it is.
    pub fn set_data(&mut self, data: DataPayload) -> (r: Result<(), CodecError>)
        ensures
            match r {
                Ok(()) => {
                    &&& shape_fits(content_class(old(self)@.datacontenttype), data@)
                    &&& final(self)@ == (EnvelopeModel { data: data@, ..old(self)@ })
                },
                Err(e) => {
                    &&& !shape_fits(content_class(old(self)@.datacontenttype), data@)
                    &&& final(self)@ == old(self)@
                    &&& e@ == CodecErrorModel::DataEncodingError
                },
            },
    {
        if check_shape(class_of(&self.draft.datacontenttype), &data) {
            self.set_data_unchecked(data);
            Ok(())
        } else {
            Err(CodecError::DataEncodingError)
        }
    }
}

} // verus!
