//! AST nodes: identifiers, kinds, metadata and recorded parse errors.

use crate::text::{decimal, str_eq};
use crate::types::ObjectId;
use vstd::prelude::*;

verus! {

/// Index of a node in its graph.
#[derive(Debug, Clone, Copy, PartialEq, Eq, Hash, Structural)]
pub struct NodeId(pub usize);

impl NodeId {
    pub fn new(id: usize) -> (r: Self)
        ensures
            r.0 == id,
    {
        NodeId(id)
    }

    /// Returns the underlying index value for this node ID.
    pub fn index(&self) -> (r: usize)
        ensures
            r == self.0,
    {
        self.0
    }
}

/// The kind of an AST node.
#[derive(Debug, Clone, Copy, PartialEq, Eq, Hash, Structural)]
pub enum NodeType {
    Root,
    Catalog,
    Pages,
    Page,
    Resource,
    Font,
    Image,
    ContentStream,
    Annotation,
    Action,
    Metadata,
    EmbeddedFile,
    Signature,
    Object(ObjectId),
    Unknown,
    Stream,
    FilteredStream,
    DecodedStream,
    XObject,
    FormXObject,
    ImageXObject,
    Type1Font,
    TrueTypeFont,
    Type3Font,
    CIDFont,
    JavaScriptAction,
    GoToAction,
    URIAction,
    LaunchAction,
    SubmitFormAction,
    AcroForm,
    Field,
    Encrypt,
    Permission,
    ContentOperator,
    TextOperator,
    GraphicsOperator,
    EmbeddedJS,
    SuspiciousAction,
    ExternalReference,
    EncodedContent,
    Outline,
    OutlineItem,
    NameTree,
    StructTreeRoot,
    StructElem,
    ColorSpace,
    ICCBased,
    Separation,
    DeviceN,
    Indexed,
    Pattern,
    Shading,
    ExtGState,
    Function,
    CMap,
    ToUnicode,
    Encoding,
    OCG,
    OCProperties,
    OCMD,
    RichMedia,
    Rendition,
    Screen,
    Sound,
    Movie,
    ThreeD,
    U3D,
    PRC,
    OutputIntent,
    LinkAnnotation,
    WidgetAnnotation,
    FileAttachmentAnnotation,
    InlineImage,
    Form,
    Structure,
    Multimedia,
    JavaScript,
    Encryption,
    Content,
    Other,
}

/// The name of a node kind: the variant's name, or `Object(n, g)` for an object node.
pub open spec fn node_type_name(t: NodeType) -> Seq<char> {
    match t {
        NodeType::Root => "Root"@,
        NodeType::Catalog => "Catalog"@,
        NodeType::Pages => "Pages"@,
        NodeType::Page => "Page"@,
        NodeType::Resource => "Resource"@,
        NodeType::Font => "Font"@,
        NodeType::Image => "Image"@,
        NodeType::ContentStream => "ContentStream"@,
        NodeType::Annotation => "Annotation"@,
        NodeType::Action => "Action"@,
        NodeType::Metadata => "Metadata"@,
        NodeType::EmbeddedFile => "EmbeddedFile"@,
        NodeType::Signature => "Signature"@,
        NodeType::Object(id) => object_node_name(id),
        NodeType::Unknown => "Unknown"@,
        NodeType::Stream => "Stream"@,
        NodeType::FilteredStream => "FilteredStream"@,
        NodeType::DecodedStream => "DecodedStream"@,
        NodeType::XObject => "XObject"@,
        NodeType::FormXObject => "FormXObject"@,
        NodeType::ImageXObject => "ImageXObject"@,
        NodeType::Type1Font => "Type1Font"@,
        NodeType::TrueTypeFont => "TrueTypeFont"@,
        NodeType::Type3Font => "Type3Font"@,
        NodeType::CIDFont => "CIDFont"@,
        NodeType::JavaScriptAction => "JavaScriptAction"@,
        NodeType::GoToAction => "GoToAction"@,
        NodeType::URIAction => "URIAction"@,
        NodeType::LaunchAction => "LaunchAction"@,
        NodeType::SubmitFormAction => "SubmitFormAction"@,
        NodeType::AcroForm => "AcroForm"@,
        NodeType::Field => "Field"@,
        NodeType::Encrypt => "Encrypt"@,
        NodeType::Permission => "Permission"@,
        NodeType::ContentOperator => "ContentOperator"@,
        NodeType::TextOperator => "TextOperator"@,
        NodeType::GraphicsOperator => "GraphicsOperator"@,
        NodeType::EmbeddedJS => "EmbeddedJS"@,
        NodeType::SuspiciousAction => "SuspiciousAction"@,
        NodeType::ExternalReference => "ExternalReference"@,
        NodeType::EncodedContent => "EncodedContent"@,
        NodeType::Outline => "Outline"@,
        NodeType::OutlineItem => "OutlineItem"@,
        NodeType::NameTree => "NameTree"@,
        NodeType::StructTreeRoot => "StructTreeRoot"@,
        NodeType::StructElem => "StructElem"@,
        NodeType::ColorSpace => "ColorSpace"@,
        NodeType::ICCBased => "ICCBased"@,
        NodeType::Separation => "Separation"@,
        NodeType::DeviceN => "DeviceN"@,
        NodeType::Indexed => "Indexed"@,
        NodeType::Pattern => "Pattern"@,
        NodeType::Shading => "Shading"@,
        NodeType::ExtGState => "ExtGState"@,
        NodeType::Function => "Function"@,
        NodeType::CMap => "CMap"@,
        NodeType::ToUnicode => "ToUnicode"@,
        NodeType::Encoding => "Encoding"@,
        NodeType::OCG => "OCG"@,
        NodeType::OCProperties => "OCProperties"@,
        NodeType::OCMD => "OCMD"@,
        NodeType::RichMedia => "RichMedia"@,
        NodeType::Rendition => "Rendition"@,
        NodeType::Screen => "Screen"@,
        NodeType::Sound => "Sound"@,
        NodeType::Movie => "Movie"@,
        NodeType::ThreeD => "ThreeD"@,
        NodeType::U3D => "U3D"@,
        NodeType::PRC => "PRC"@,
        NodeType::OutputIntent => "OutputIntent"@,
        NodeType::LinkAnnotation => "LinkAnnotation"@,
        NodeType::WidgetAnnotation => "WidgetAnnotation"@,
        NodeType::FileAttachmentAnnotation => "FileAttachmentAnnotation"@,
        NodeType::InlineImage => "InlineImage"@,
        NodeType::Form => "Form"@,
        NodeType::Structure => "Structure"@,
        NodeType::Multimedia => "Multimedia"@,
        NodeType::JavaScript => "JavaScript"@,
        NodeType::Encryption => "Encryption"@,
        NodeType::Content => "Content"@,
        NodeType::Other => "Other"@,
    }
}
/// The name of an object node: `Object(n, g)`.
pub open spec fn object_node_name(id: ObjectId) -> Seq<char> {
    "Object("@ + decimal(id.number as nat) + ", "@ + decimal(id.generation as nat) + ")"@
}

/// Metadata recorded for a node while parsing.
#[derive(Debug, Clone)]
pub struct NodeMetadata {
    pub offset: Option<u64>,
    pub size: Option<usize>,
    pub errors: Vec<ParseError>,
    pub warnings: Vec<String>,
    /// Named properties, each key at most once.
    pub properties: Vec<(String, String)>,
}

/// `i` is the first position of `key` among the property keys.
pub open spec fn first_key_index(p: Seq<(String, String)>, key: Seq<char>, i: int) -> bool {
    &&& 0 <= i < p.len()
    &&& p[i].0@ == key
    &&& forall|j: int| 0 <= j < i ==> p[j].0@ != key
}

/// Some property has the key `key`.
pub open spec fn has_key(p: Seq<(String, String)>, key: Seq<char>) -> bool {
    exists|i: int| 0 <= i < p.len() && p[i].0@ == key
}

/// No key occurs twice.
pub open spec fn keys_unique(p: Seq<(String, String)>) -> bool {
    forall|i: int, j: int| 0 <= i < j < p.len() ==> p[i].0@ != p[j].0@
}

/// Reading the property `key` of `p` gives `v`: the value of the first property with that
/// key, or `None` when no property has it.
pub open spec fn property_reads(p: Seq<(String, String)>, key: Seq<char>, v: Option<String>) -> bool {
    match v {
        Some(v) => exists|i: int| first_key_index(p, key, i) && v == p[i].1,
        None => !has_key(p, key),
    }
}

/// When some property has the key `key`, one of them is the first.
proof fn lemma_first_key_exists(p: Seq<(String, String)>, key: Seq<char>)
    requires
        has_key(p, key),
    ensures
        exists|i: int| first_key_index(p, key, i),
    decreases p.len(),
{
    let q = p.drop_last();
    if has_key(q, key) {
        lemma_first_key_exists(q, key);
        let i = choose|i: int| first_key_index(q, key, i);
        assert forall|j: int| 0 <= j < i implies p[j].0@ != key by {
            assert(q[j] == p[j]);
        }
        assert(q[i] == p[i]);
        assert(first_key_index(p, key, i));
    } else {
        assert(first_key_index(p, key, p.len() - 1)) by {
            assert forall|j: int| 0 <= j < p.len() - 1 implies p[j].0@ != key by {
                assert(q[j] == p[j]);
            }
        }
    }
}

/// Setting a property wins over what was there: reading its key afterwards gives the value
/// set, and reading any other key gives what it gave before. `after` is the property list
/// as [`NodeMetadata::set_property`] leaves `before`.
pub proof fn lemma_set_property_then_get(
    before: Seq<(String, String)>,
    after: Seq<(String, String)>,
    key: String,
    value: String,
    other: Seq<char>,
    v: Option<String>,
)
    requires
        forall|i: int| first_key_index(before, key@, i) ==> after == before.update(i, (key, value)),
        !has_key(before, key@) ==> after == before.push((key, value)),
    ensures
        property_reads(after, key@, Some(value)),
        other != key@ ==> (property_reads(after, other, v) <==> property_reads(before, other, v)),
{
    if has_key(before, key@) {
        lemma_first_key_exists(before, key@);
        let i0 = choose|i: int| first_key_index(before, key@, i);
        assert(after == before.update(i0, (key, value)));
        assert(first_key_index(after, key@, i0));
    } else {
        assert(after == before.push((key, value)));
        assert(first_key_index(after, key@, before.len() as int));
    }
    if other != key@ {
        // Where `before` has a key other than `key`, `after` holds the same entry.
        assert forall|j: int| 0 <= j < before.len() && before[j].0@ != key@ implies #[trigger] after[j]
            == before[j] by {
            if has_key(before, key@) {
                let i0 = choose|i: int| first_key_index(before, key@, i);
                assert(j != i0);
            }
        }
        assert forall|j: int| 0 <= j < after.len() && after[j].0@ == other implies j < before.len()
            && #[trigger] before[j].0@ == other by {
            if has_key(before, key@) {
                let i0 = choose|i: int| first_key_index(before, key@, i);
                if j != i0 {
                    assert(after[j] == before[j]);
                }
            }
        }
        assert forall|i: int| first_key_index(before, other, i) implies first_key_index(
            after,
            other,
            i,
        ) && after[i] == before[i] by {
            assert(after[i] == before[i]);
            assert forall|j: int| 0 <= j < i implies after[j].0@ != other by {
                if after[j].0@ == other {
                    assert(before[j].0@ == other);
                }
            }
        }
        assert forall|i: int| first_key_index(after, other, i) implies first_key_index(
            before,
            other,
            i,
        ) by {
            assert(before[i].0@ == other);
            assert forall|j: int| 0 <= j < i implies before[j].0@ != other by {
                if before[j].0@ == other {
                    assert(after[j] == before[j]);
                }
            }
        }
        match v {
            Some(w) => {
                if property_reads(before, other, v) {
                    let i = choose|i: int| first_key_index(before, other, i) && w == before[i].1;
                    assert(first_key_index(after, other, i) && w == after[i].1);
                }
                if property_reads(after, other, v) {
                    let i = choose|i: int| first_key_index(after, other, i) && w == after[i].1;
                    assert(first_key_index(before, other, i));
                    assert(after[i] == before[i]);
                }
            },
            None => {
                if has_key(before, other) {
                    lemma_first_key_exists(before, other);
                    let i = choose|i: int| first_key_index(before, other, i);
                    assert(first_key_index(after, other, i));
                }
                if has_key(after, other) {
                    let j = choose|j: int| 0 <= j < after.len() && after[j].0@ == other;
                    assert(before[j].0@ == other);
                }
            },
        }
    }
}

/// [`lemma_set_property_then_get`] for every other key and every value at once.
proof fn lemma_set_property_reads(
    before: Seq<(String, String)>,
    after: Seq<(String, String)>,
    key: String,
    value: String,
)
    requires
        forall|i: int| first_key_index(before, key@, i) ==> after == before.update(i, (key, value)),
        !has_key(before, key@) ==> after == before.push((key, value)),
    ensures
        property_reads(after, key@, Some(value)),
        forall|other: Seq<char>, v: Option<String>|
            other != key@ ==> (#[trigger] property_reads(after, other, v) <==> property_reads(
                before,
                other,
                v,
            )),
{
    lemma_set_property_then_get(before, after, key, value, key@, None);
    assert forall|other: Seq<char>, v: Option<String>| other != key@ implies (#[trigger] property_reads(
        after,
        other,
        v,
    ) <==> property_reads(before, other, v)) by {
        lemma_set_property_then_get(before, after, key, value, other, v);
    }
}

impl Default for NodeMetadata {
    fn default() -> (r: Self)
        ensures
            r.offset is None,
            r.size is None,
            r.errors@.len() == 0,
            r.warnings@.len() == 0,
            r.properties@.len() == 0,
            forall|k: Seq<char>| #[trigger] property_reads(r.properties@, k, None),
    {
        NodeMetadata {
            offset: None,
            size: None,
            errors: Vec::new(),
            warnings: Vec::new(),
            properties: Vec::new(),
        }
    }
}

impl NodeMetadata {
    pub fn new() -> (r: Self)
        ensures
            r.offset is None,
            r.size is None,
            r.errors@.len() == 0,
            r.warnings@.len() == 0,
            r.properties@.len() == 0,
            forall|k: Seq<char>| #[trigger] property_reads(r.properties@, k, None),
    {
        NodeMetadata::default()
    }

    pub fn with_offset(self, offset: u64) -> (r: Self)
        ensures
            r.offset == Some(offset),
            r.size == self.size,
            r.errors == self.errors,
            r.warnings == self.warnings,
            r.properties == self.properties,
    {
        let mut m = self;
        m.offset = Some(offset);
        m
    }

    pub fn with_size(self, size: usize) -> (r: Self)
        ensures
            r.size == Some(size),
            r.offset == self.offset,
            r.errors == self.errors,
            r.warnings == self.warnings,
            r.properties == self.properties,
    {
        let mut m = self;
        m.size = Some(size);
        m
    }

    pub fn add_error(&mut self, error: ParseError)
        ensures
            final(self).errors@ == old(self).errors@.push(error),
            final(self).offset == old(self).offset,
            final(self).size == old(self).size,
            final(self).warnings == old(self).warnings,
            final(self).properties == old(self).properties,
    {
        self.errors.push(error);
    }

    pub fn add_warning(&mut self, warning: String)
        ensures
            final(self).warnings@ == old(self).warnings@.push(warning),
            final(self).offset == old(self).offset,
            final(self).size == old(self).size,
            final(self).errors == old(self).errors,
            final(self).properties == old(self).properties,
    {
        self.warnings.push(warning);
    }

    /// Sets the property `key` to `value`, replacing an earlier value.
    pub fn set_property(&mut self, key: String, value: String)
        ensures
            forall|i: int|
                first_key_index(old(self).properties@, key@, i) ==> final(self).properties@
                    == old(self).properties@.update(i, (key, value)),
            !has_key(old(self).properties@, key@) ==> final(self).properties@
                == old(self).properties@.push((key, value)),
            keys_unique(old(self).properties@) ==> keys_unique(final(self).properties@),
            // What `get_property` reads afterwards: `value` under `key`, and under every other
            // key what it read before.
            property_reads(final(self).properties@, key@, Some(value)),
            forall|other: Seq<char>, v: Option<String>|
                other != key@ ==> (#[trigger] property_reads(final(self).properties@, other, v)
                    <==> property_reads(old(self).properties@, other, v)),
            final(self).offset == old(self).offset,
            final(self).size == old(self).size,
            final(self).errors == old(self).errors,
            final(self).warnings == old(self).warnings,
    {
        let ghost before = self.properties@;
        let ghost kv = (key, value);
        let n = self.properties.len();
        let mut i: usize = 0;
        while i < n
            invariant
                n == self.properties@.len(),
                i <= n,
                self.properties == old(self).properties,
                before == old(self).properties@,
                kv == (key, value),
                self.offset == old(self).offset,
                self.size == old(self).size,
                self.errors == old(self).errors,
                self.warnings == old(self).warnings,
                forall|j: int| 0 <= j < i ==> self.properties@[j].0@ != key@,
            decreases n - i,
        {
            if str_eq(self.properties[i].0.as_str(), key.as_str()) {
                assert(first_key_index(old(self).properties@, key@, i as int));
                self.properties.set(i, (key, value));
                proof {
                    lemma_set_property_reads(before, self.properties@, kv.0, kv.1);
                }
                return;
            }
            i += 1;
        }
        self.properties.push((key, value));
        proof {
            lemma_set_property_reads(before, self.properties@, kv.0, kv.1);
        }
    }

    /// The value of the property `key`, if it is set.
    pub fn get_property(&self, key: &str) -> (r: Option<&String>)
        ensures
            property_reads(
                self.properties@,
                key@,
                match r {
                    Some(v) => Some(*v),
                    None => None,
                },
            ),
    {
        let n = self.properties.len();
        let mut i: usize = 0;
        while i < n
            invariant
                n == self.properties@.len(),
                i <= n,
                forall|j: int| 0 <= j < i ==> self.properties@[j].0@ != key@,
            decreases n - i,
        {
            if str_eq(self.properties[i].0.as_str(), key) {
                assert(first_key_index(self.properties@, key@, i as int));
                return Some(&self.properties[i].1);
            }
            i += 1;
        }
        None
    }
}

/// An error recorded against a node.
#[derive(Debug, Clone)]
pub struct ParseError {
    pub code: ErrorCode,
    pub message: String,
    pub offset: Option<u64>,
    pub recoverable: bool,
}

/// The class of a recorded error.
#[derive(Debug, Clone, Copy, PartialEq, Eq, Structural)]
pub enum ErrorCode {
    InvalidSyntax,
    MissingObject,
    InvalidReference,
    CorruptedStream,
    InvalidFilter,
    UnsupportedFeature,
    MalformedStructure,
}

impl ParseError {
    pub fn new(code: ErrorCode, message: String) -> (r: Self)
        ensures
            r.code == code,
            r.message == message,
            r.offset is None,
            !r.recoverable,
    {
        ParseError { code, message, offset: None, recoverable: false }
    }

    pub fn recoverable(self) -> (r: Self)
        ensures
            r.recoverable,
            r.code == self.code,
            r.message == self.message,
            r.offset == self.offset,
    {
        let mut e = self;
        e.recoverable = true;
        e
    }

    pub fn at_offset(self, offset: u64) -> (r: Self)
        ensures
            r.offset == Some(offset),
            r.code == self.code,
            r.message == self.message,
            r.recoverable == self.recoverable,
    {
        let mut e = self;
        e.offset = Some(offset);
        e
    }
}

/// The kind of node that a dictionary's `/Type` and `/Subtype` names (without the slash)
/// give: the document structures by their type, an `XObject` as an image or a resource by
/// its subtype, anything else unknown.
pub open spec fn kind_from_names(dict_type: Option<Seq<char>>, subtype: Option<Seq<char>>) -> NodeType {
    match dict_type {
        None => NodeType::Unknown,
        Some(t) => if t == "Catalog"@ {
            NodeType::Catalog
        } else if t == "Pages"@ {
            NodeType::Pages
        } else if t == "Page"@ {
            NodeType::Page
        } else if t == "Font"@ {
            NodeType::Font
        } else if t == "XObject"@ {
            if subtype == Some("Image"@) {
                NodeType::Image
            } else {
                NodeType::Resource
            }
        } else if t == "Annot"@ {
            NodeType::Annotation
        } else if t == "Action"@ {
            NodeType::Action
        } else if t == "Metadata"@ {
            NodeType::Metadata
        } else if t == "Filespec"@ {
            NodeType::EmbeddedFile
        } else if t == "Sig"@ {
            NodeType::Signature
        } else {
            NodeType::Unknown
        },
    }
}

impl NodeType {
    /// The kind of node for a dictionary whose `/Type` and `/Subtype` are the given names
    /// (without the slash).
    pub fn from_dict(dict_type: Option<&str>, subtype: Option<&str>) -> (r: NodeType)
        ensures
            r == kind_from_names(
                match dict_type {
                    Some(t) => Some(t@),
                    None => None,
                },
                match subtype {
                    Some(s) => Some(s@),
                    None => None,
                },
            ),
    {
        let t = match dict_type {
            Some(t) => t,
            None => {
                return NodeType::Unknown;
            },
        };
        if str_eq(t, "Catalog") {
            NodeType::Catalog
        } else if str_eq(t, "Pages") {
            NodeType::Pages
        } else if str_eq(t, "Page") {
            NodeType::Page
        } else if str_eq(t, "Font") {
            NodeType::Font
        } else if str_eq(t, "XObject") {
            match subtype {
                Some(s) => if str_eq(s, "Image") {
                    NodeType::Image
                } else {
                    NodeType::Resource
                },
                None => NodeType::Resource,
            }
        } else if str_eq(t, "Annot") {
            NodeType::Annotation
        } else if str_eq(t, "Action") {
            NodeType::Action
        } else if str_eq(t, "Metadata") {
            NodeType::Metadata
        } else if str_eq(t, "Filespec") {
            NodeType::EmbeddedFile
        } else if str_eq(t, "Sig") {
            NodeType::Signature
        } else {
            NodeType::Unknown
        }
    }
}

} // verus!
