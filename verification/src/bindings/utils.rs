//! Conversions between node kinds and their names, shared by the language bindings.

use crate::ast::node::{node_type_name, object_node_name, NodeType};
use crate::text::{
    append_decimal, concat_str, decimal, is_digit, lemma_decimal_digits, lemma_trim_digits,
    parse_unsigned, parse_unsigned_range, str_eq, trim, trimmed_range,
};
use crate::types::ObjectId;
use vstd::prelude::*;

verus! {

/// `s` starts with `Object(`.
pub open spec fn has_object_prefix(s: Seq<char>) -> bool {
    &&& s.len() >= 7
    &&& s[0] == 'O'
    &&& s[1] == 'b'
    &&& s[2] == 'j'
    &&& s[3] == 'e'
    &&& s[4] == 'c'
    &&& s[5] == 't'
    &&& s[6] == '('
}

/// `k` is the position of the only comma in `s`.
pub open spec fn unique_comma_at(s: Seq<char>, k: int) -> bool {
    &&& 0 <= k < s.len()
    &&& s[k] == ','
    &&& forall|j: int| 0 <= j < s.len() && j != k ==> s[j] != ','
}

/// The identifier written as `Object(n, g)`: the text between the brackets holds exactly one
/// comma, and each side, trimmed of white space, is an unsigned number that fits its field.
pub open spec fn parse_object_id(s: Seq<char>) -> Option<ObjectId> {
    if s.len() >= 8 && has_object_prefix(s) && s.last() == ')' {
        let inner = s.subrange(7, s.len() - 1);
        if exists|k: int| unique_comma_at(inner, k) {
            let k = choose|k: int| unique_comma_at(inner, k);
            let number = parse_unsigned(trim(inner.subrange(0, k)), u32::MAX as nat);
            let generation = parse_unsigned(
                trim(inner.subrange(k + 1, inner.len() as int)),
                u16::MAX as nat,
            );
            match (number, generation) {
                (Some(n), Some(g)) => Some(ObjectId { number: n as u32, generation: g as u16 }),
                _ => None,
            }
        } else {
            None
        }
    } else {
        None
    }
}

/// The node kind named `s`, if any. Besides the names of the kinds, a few older names are
/// accepted for the kind that took their place.
pub open spec fn parse_node_type_spec(s: Seq<char>) -> Option<NodeType> {
    if s == "Root"@ {
        Some(NodeType::Root)
    } else if s == "Catalog"@ {
        Some(NodeType::Catalog)
    } else if s == "Pages"@ {
        Some(NodeType::Pages)
    } else if s == "Page"@ {
        Some(NodeType::Page)
    } else if s == "Resource"@ {
        Some(NodeType::Resource)
    } else if s == "Font"@ {
        Some(NodeType::Font)
    } else if s == "Image"@ {
        Some(NodeType::Image)
    } else if s == "ContentStream"@ {
        Some(NodeType::ContentStream)
    } else if s == "Annotation"@ {
        Some(NodeType::Annotation)
    } else if s == "Action"@ {
        Some(NodeType::Action)
    } else if s == "Metadata"@ {
        Some(NodeType::Metadata)
    } else if s == "EmbeddedFile"@ {
        Some(NodeType::EmbeddedFile)
    } else if s == "Signature"@ {
        Some(NodeType::Signature)
    } else if s == "Stream"@ {
        Some(NodeType::Stream)
    } else if s == "FilteredStream"@ {
        Some(NodeType::FilteredStream)
    } else if s == "DecodedStream"@ {
        Some(NodeType::DecodedStream)
    } else if s == "XObject"@ {
        Some(NodeType::XObject)
    } else if s == "FormXObject"@ {
        Some(NodeType::FormXObject)
    } else if s == "ImageXObject"@ {
        Some(NodeType::ImageXObject)
    } else if s == "Type1Font"@ {
        Some(NodeType::Type1Font)
    } else if s == "TrueTypeFont"@ {
        Some(NodeType::TrueTypeFont)
    } else if s == "Type3Font"@ {
        Some(NodeType::Type3Font)
    } else if s == "CIDFont"@ {
        Some(NodeType::CIDFont)
    } else if s == "JavaScriptAction"@ {
        Some(NodeType::JavaScriptAction)
    } else if s == "GoToAction"@ {
        Some(NodeType::GoToAction)
    } else if s == "URIAction"@ {
        Some(NodeType::URIAction)
    } else if s == "LaunchAction"@ {
        Some(NodeType::LaunchAction)
    } else if s == "SubmitFormAction"@ {
        Some(NodeType::SubmitFormAction)
    } else if s == "AcroForm"@ {
        Some(NodeType::AcroForm)
    } else if s == "Field"@ {
        Some(NodeType::Field)
    } else if s == "Encrypt"@ {
        Some(NodeType::Encrypt)
    } else if s == "Permission"@ {
        Some(NodeType::Permission)
    } else if s == "ContentOperator"@ {
        Some(NodeType::ContentOperator)
    } else if s == "TextOperator"@ {
        Some(NodeType::TextOperator)
    } else if s == "GraphicsOperator"@ {
        Some(NodeType::GraphicsOperator)
    } else if s == "EmbeddedJS"@ {
        Some(NodeType::EmbeddedJS)
    } else if s == "SuspiciousAction"@ {
        Some(NodeType::SuspiciousAction)
    } else if s == "ExternalReference"@ {
        Some(NodeType::ExternalReference)
    } else if s == "EncodedContent"@ {
        Some(NodeType::EncodedContent)
    } else if s == "Unknown"@ {
        Some(NodeType::Unknown)
    } else if s == "Outline"@ {
        Some(NodeType::Annotation)
    } else if s == "Encryption"@ {
        Some(NodeType::Encrypt)
    } else if s == "Structure"@ {
        Some(NodeType::Resource)
    } else if s == "Form"@ {
        Some(NodeType::AcroForm)
    } else if s == "JavaScript"@ {
        Some(NodeType::EmbeddedJS)
    } else if s == "Multimedia"@ {
        Some(NodeType::XObject)
    } else if s == "ColorSpace"@ {
        Some(NodeType::Resource)
    } else if s == "Pattern"@ {
        Some(NodeType::Resource)
    } else if s == "Shading"@ {
        Some(NodeType::Resource)
    } else if s == "Other"@ {
        Some(NodeType::Unknown)
    } else {
        match parse_object_id(s) {
            Some(id) => Some(NodeType::Object(id)),
            None => None,
        }
    }
}

/// The message of the error for an unknown name.
pub open spec fn unknown_node_type_message(s: Seq<char>) -> Seq<char> {
    "Unknown node type: "@ + s
}

/// The identifier in a name of the form `Object(n, g)`.
fn parse_object_node(type_str: &str) -> (r: Option<ObjectId>)
    ensures
        r == parse_object_id(type_str@),
{
    let ghost s = type_str@;
    let n = type_str.unicode_len();
    if n < 8 {
        return None;
    }
    if !(type_str.get_char(0) == 'O' && type_str.get_char(1) == 'b' && type_str.get_char(2) == 'j'
        && type_str.get_char(3) == 'e' && type_str.get_char(4) == 'c' && type_str.get_char(5)
        == 't' && type_str.get_char(6) == '(') {
        return None;
    }
    if type_str.get_char(n - 1) != ')' {
        return None;
    }
    let ghost inner = s.subrange(7, n - 1);
    let mut found = false;
    let mut pos: usize = 7;
    let mut i: usize = 7;
    while i < n - 1
        invariant
            n == s.len(),
            s == type_str@,
            inner == s.subrange(7, n - 1),
            n >= 8,
            7 <= i <= n - 1,
            !found ==> forall|j: int| 7 <= j < i ==> s[j] != ',',
            found ==> 7 <= pos < i && s[pos as int] == ',' && forall|j: int|
                7 <= j < i && j != pos ==> s[j] != ',',
        decreases n - 1 - i,
    {
        if type_str.get_char(i) == ',' {
            if found {
                assert(inner[pos - 7] == ',');
                assert(inner[i - 7] == ',');
                assert(!exists|k: int| unique_comma_at(inner, k));
                return None;
            }
            found = true;
            pos = i;
        }
        i += 1;
    }
    if !found {
        assert(!exists|k: int| unique_comma_at(inner, k));
        return None;
    }
    let ghost k = pos - 7;
    assert(unique_comma_at(inner, k));
    let ghost chosen = choose|k: int| unique_comma_at(inner, k);
    assert(inner[chosen] == ',');
    assert(chosen == k);
    assert(inner.subrange(0, k) =~= s.subrange(7, pos as int));
    assert(inner.subrange(k + 1, inner.len() as int) =~= s.subrange(pos + 1, n - 1));
    let (a0, a1) = trimmed_range(type_str, 7, pos);
    let (b0, b1) = trimmed_range(type_str, pos + 1, n - 1);
    let number = parse_unsigned_range(type_str, a0, a1, 0xffff_ffffu64);
    let generation = parse_unsigned_range(type_str, b0, b1, 0xffffu64);
    match (number, generation) {
        (Some(num), Some(gen)) => Some(ObjectId { number: num as u32, generation: gen as u16 }),
        _ => None,
    }
}

/// Convert string to NodeType with consistent mapping.
pub fn parse_node_type(type_str: &str) -> (r: Result<NodeType, String>)
    ensures
        match r {
            Ok(t) => parse_node_type_spec(type_str@) == Some(t),
            Err(m) => parse_node_type_spec(type_str@) is None && m@ == unknown_node_type_message(
                type_str@,
            ),
        },
{
    if str_eq(type_str, "Root") {
        return Ok(NodeType::Root);
    }
    if str_eq(type_str, "Catalog") {
        return Ok(NodeType::Catalog);
    }
    if str_eq(type_str, "Pages") {
        return Ok(NodeType::Pages);
    }
    if str_eq(type_str, "Page") {
        return Ok(NodeType::Page);
    }
    if str_eq(type_str, "Resource") {
        return Ok(NodeType::Resource);
    }
    if str_eq(type_str, "Font") {
        return Ok(NodeType::Font);
    }
    if str_eq(type_str, "Image") {
        return Ok(NodeType::Image);
    }
    if str_eq(type_str, "ContentStream") {
        return Ok(NodeType::ContentStream);
    }
    if str_eq(type_str, "Annotation") {
        return Ok(NodeType::Annotation);
    }
    if str_eq(type_str, "Action") {
        return Ok(NodeType::Action);
    }
    if str_eq(type_str, "Metadata") {
        return Ok(NodeType::Metadata);
    }
    if str_eq(type_str, "EmbeddedFile") {
        return Ok(NodeType::EmbeddedFile);
    }
    if str_eq(type_str, "Signature") {
        return Ok(NodeType::Signature);
    }
    if str_eq(type_str, "Stream") {
        return Ok(NodeType::Stream);
    }
    if str_eq(type_str, "FilteredStream") {
        return Ok(NodeType::FilteredStream);
    }
    if str_eq(type_str, "DecodedStream") {
        return Ok(NodeType::DecodedStream);
    }
    if str_eq(type_str, "XObject") {
        return Ok(NodeType::XObject);
    }
    if str_eq(type_str, "FormXObject") {
        return Ok(NodeType::FormXObject);
    }
    if str_eq(type_str, "ImageXObject") {
        return Ok(NodeType::ImageXObject);
    }
    if str_eq(type_str, "Type1Font") {
        return Ok(NodeType::Type1Font);
    }
    if str_eq(type_str, "TrueTypeFont") {
        return Ok(NodeType::TrueTypeFont);
    }
    if str_eq(type_str, "Type3Font") {
        return Ok(NodeType::Type3Font);
    }
    if str_eq(type_str, "CIDFont") {
        return Ok(NodeType::CIDFont);
    }
    if str_eq(type_str, "JavaScriptAction") {
        return Ok(NodeType::JavaScriptAction);
    }
    if str_eq(type_str, "GoToAction") {
        return Ok(NodeType::GoToAction);
    }
    if str_eq(type_str, "URIAction") {
        return Ok(NodeType::URIAction);
    }
    if str_eq(type_str, "LaunchAction") {
        return Ok(NodeType::LaunchAction);
    }
    if str_eq(type_str, "SubmitFormAction") {
        return Ok(NodeType::SubmitFormAction);
    }
    if str_eq(type_str, "AcroForm") {
        return Ok(NodeType::AcroForm);
    }
    if str_eq(type_str, "Field") {
        return Ok(NodeType::Field);
    }
    if str_eq(type_str, "Encrypt") {
        return Ok(NodeType::Encrypt);
    }
    if str_eq(type_str, "Permission") {
        return Ok(NodeType::Permission);
    }
    if str_eq(type_str, "ContentOperator") {
        return Ok(NodeType::ContentOperator);
    }
    if str_eq(type_str, "TextOperator") {
        return Ok(NodeType::TextOperator);
    }
    if str_eq(type_str, "GraphicsOperator") {
        return Ok(NodeType::GraphicsOperator);
    }
    if str_eq(type_str, "EmbeddedJS") {
        return Ok(NodeType::EmbeddedJS);
    }
    if str_eq(type_str, "SuspiciousAction") {
        return Ok(NodeType::SuspiciousAction);
    }
    if str_eq(type_str, "ExternalReference") {
        return Ok(NodeType::ExternalReference);
    }
    if str_eq(type_str, "EncodedContent") {
        return Ok(NodeType::EncodedContent);
    }
    if str_eq(type_str, "Unknown") {
        return Ok(NodeType::Unknown);
    }
    if str_eq(type_str, "Outline") {
        return Ok(NodeType::Annotation);
    }
    if str_eq(type_str, "Encryption") {
        return Ok(NodeType::Encrypt);
    }
    if str_eq(type_str, "Structure") {
        return Ok(NodeType::Resource);
    }
    if str_eq(type_str, "Form") {
        return Ok(NodeType::AcroForm);
    }
    if str_eq(type_str, "JavaScript") {
        return Ok(NodeType::EmbeddedJS);
    }
    if str_eq(type_str, "Multimedia") {
        return Ok(NodeType::XObject);
    }
    if str_eq(type_str, "ColorSpace") {
        return Ok(NodeType::Resource);
    }
    if str_eq(type_str, "Pattern") {
        return Ok(NodeType::Resource);
    }
    if str_eq(type_str, "Shading") {
        return Ok(NodeType::Resource);
    }
    if str_eq(type_str, "Other") {
        return Ok(NodeType::Unknown);
    }
    match parse_object_node(type_str) {
        Some(id) => Ok(NodeType::Object(id)),
        None => Err(concat_str("Unknown node type: ", type_str)),
    }
}

/// The name `Object(n, g)` of an object node.
fn object_node_string(id: ObjectId) -> (r: String)
    ensures
        r@ == object_node_name(id),
{
    let mut s = String::new();
    s.append("Object(");
    append_decimal(&mut s, id.number as u64);
    s.append(", ");
    append_decimal(&mut s, id.generation as u64);
    s.append(")");
    assert(s@ =~= object_node_name(id));
    s
}

/// Convert NodeType to string with consistent mapping.
pub fn node_type_to_string(node_type: &NodeType) -> (r: String)
    ensures
        r@ == node_type_name(*node_type),
{
    match node_type {
        NodeType::Root => "Root".to_string(),
        NodeType::Catalog => "Catalog".to_string(),
        NodeType::Pages => "Pages".to_string(),
        NodeType::Page => "Page".to_string(),
        NodeType::Resource => "Resource".to_string(),
        NodeType::Font => "Font".to_string(),
        NodeType::Image => "Image".to_string(),
        NodeType::ContentStream => "ContentStream".to_string(),
        NodeType::Annotation => "Annotation".to_string(),
        NodeType::Action => "Action".to_string(),
        NodeType::Metadata => "Metadata".to_string(),
        NodeType::EmbeddedFile => "EmbeddedFile".to_string(),
        NodeType::Signature => "Signature".to_string(),
        NodeType::Object(id) => object_node_string(*id),
        NodeType::Unknown => "Unknown".to_string(),
        NodeType::Stream => "Stream".to_string(),
        NodeType::FilteredStream => "FilteredStream".to_string(),
        NodeType::DecodedStream => "DecodedStream".to_string(),
        NodeType::XObject => "XObject".to_string(),
        NodeType::FormXObject => "FormXObject".to_string(),
        NodeType::ImageXObject => "ImageXObject".to_string(),
        NodeType::Type1Font => "Type1Font".to_string(),
        NodeType::TrueTypeFont => "TrueTypeFont".to_string(),
        NodeType::Type3Font => "Type3Font".to_string(),
        NodeType::CIDFont => "CIDFont".to_string(),
        NodeType::JavaScriptAction => "JavaScriptAction".to_string(),
        NodeType::GoToAction => "GoToAction".to_string(),
        NodeType::URIAction => "URIAction".to_string(),
        NodeType::LaunchAction => "LaunchAction".to_string(),
        NodeType::SubmitFormAction => "SubmitFormAction".to_string(),
        NodeType::AcroForm => "AcroForm".to_string(),
        NodeType::Field => "Field".to_string(),
        NodeType::Encrypt => "Encrypt".to_string(),
        NodeType::Permission => "Permission".to_string(),
        NodeType::ContentOperator => "ContentOperator".to_string(),
        NodeType::TextOperator => "TextOperator".to_string(),
        NodeType::GraphicsOperator => "GraphicsOperator".to_string(),
        NodeType::EmbeddedJS => "EmbeddedJS".to_string(),
        NodeType::SuspiciousAction => "SuspiciousAction".to_string(),
        NodeType::ExternalReference => "ExternalReference".to_string(),
        NodeType::EncodedContent => "EncodedContent".to_string(),
        NodeType::Outline => "Outline".to_string(),
        NodeType::OutlineItem => "OutlineItem".to_string(),
        NodeType::NameTree => "NameTree".to_string(),
        NodeType::StructTreeRoot => "StructTreeRoot".to_string(),
        NodeType::StructElem => "StructElem".to_string(),
        NodeType::ColorSpace => "ColorSpace".to_string(),
        NodeType::ICCBased => "ICCBased".to_string(),
        NodeType::Separation => "Separation".to_string(),
        NodeType::DeviceN => "DeviceN".to_string(),
        NodeType::Indexed => "Indexed".to_string(),
        NodeType::Pattern => "Pattern".to_string(),
        NodeType::Shading => "Shading".to_string(),
        NodeType::ExtGState => "ExtGState".to_string(),
        NodeType::Function => "Function".to_string(),
        NodeType::CMap => "CMap".to_string(),
        NodeType::ToUnicode => "ToUnicode".to_string(),
        NodeType::Encoding => "Encoding".to_string(),
        NodeType::OCG => "OCG".to_string(),
        NodeType::OCProperties => "OCProperties".to_string(),
        NodeType::OCMD => "OCMD".to_string(),
        NodeType::RichMedia => "RichMedia".to_string(),
        NodeType::Rendition => "Rendition".to_string(),
        NodeType::Screen => "Screen".to_string(),
        NodeType::Sound => "Sound".to_string(),
        NodeType::Movie => "Movie".to_string(),
        NodeType::ThreeD => "ThreeD".to_string(),
        NodeType::U3D => "U3D".to_string(),
        NodeType::PRC => "PRC".to_string(),
        NodeType::OutputIntent => "OutputIntent".to_string(),
        NodeType::LinkAnnotation => "LinkAnnotation".to_string(),
        NodeType::WidgetAnnotation => "WidgetAnnotation".to_string(),
        NodeType::FileAttachmentAnnotation => "FileAttachmentAnnotation".to_string(),
        NodeType::InlineImage => "InlineImage".to_string(),
        NodeType::Form => "Form".to_string(),
        NodeType::Structure => "Structure".to_string(),
        NodeType::Multimedia => "Multimedia".to_string(),
        NodeType::JavaScript => "JavaScript".to_string(),
        NodeType::Encryption => "Encryption".to_string(),
        NodeType::Content => "Content".to_string(),
        NodeType::Other => "Other".to_string(),
    }
}

/// The names that `list_node_types` gives, in order.
pub open spec fn listed_node_type_names() -> Seq<Seq<char>> {
    seq![
        "Root"@,
        "Catalog"@,
        "Pages"@,
        "Page"@,
        "Resource"@,
        "Font"@,
        "Image"@,
        "ContentStream"@,
        "Annotation"@,
        "Action"@,
        "Metadata"@,
        "EmbeddedFile"@,
        "Signature"@,
        "Unknown"@,
        "Stream"@,
        "FilteredStream"@,
        "DecodedStream"@,
        "XObject"@,
        "FormXObject"@,
        "ImageXObject"@,
        "Type1Font"@,
        "TrueTypeFont"@,
        "Type3Font"@,
        "CIDFont"@,
        "JavaScriptAction"@,
        "GoToAction"@,
        "URIAction"@,
        "LaunchAction"@,
        "SubmitFormAction"@,
        "AcroForm"@,
        "Field"@,
        "Encrypt"@,
        "Permission"@,
        "ContentOperator"@,
        "TextOperator"@,
        "GraphicsOperator"@,
        "EmbeddedJS"@,
        "SuspiciousAction"@,
        "ExternalReference"@,
        "EncodedContent"@,
        "Outline"@,
        "Encryption"@,
        "Structure"@,
        "Form"@,
        "JavaScript"@,
        "Multimedia"@,
        "ColorSpace"@,
        "Pattern"@,
        "Shading"@,
        "Other"@,
    ]
}

/// List all available node types for documentation.
pub fn list_node_types() -> (r: Vec<&'static str>)
    ensures
        r@.map_values(|s: &str| s@) == listed_node_type_names(),
{
    let mut v: Vec<&'static str> = Vec::new();
    v.push("Root");
    v.push("Catalog");
    v.push("Pages");
    v.push("Page");
    v.push("Resource");
    v.push("Font");
    v.push("Image");
    v.push("ContentStream");
    v.push("Annotation");
    v.push("Action");
    v.push("Metadata");
    v.push("EmbeddedFile");
    v.push("Signature");
    v.push("Unknown");
    v.push("Stream");
    v.push("FilteredStream");
    v.push("DecodedStream");
    v.push("XObject");
    v.push("FormXObject");
    v.push("ImageXObject");
    v.push("Type1Font");
    v.push("TrueTypeFont");
    v.push("Type3Font");
    v.push("CIDFont");
    v.push("JavaScriptAction");
    v.push("GoToAction");
    v.push("URIAction");
    v.push("LaunchAction");
    v.push("SubmitFormAction");
    v.push("AcroForm");
    v.push("Field");
    v.push("Encrypt");
    v.push("Permission");
    v.push("ContentOperator");
    v.push("TextOperator");
    v.push("GraphicsOperator");
    v.push("EmbeddedJS");
    v.push("SuspiciousAction");
    v.push("ExternalReference");
    v.push("EncodedContent");
    v.push("Outline");
    v.push("Encryption");
    v.push("Structure");
    v.push("Form");
    v.push("JavaScript");
    v.push("Multimedia");
    v.push("ColorSpace");
    v.push("Pattern");
    v.push("Shading");
    v.push("Other");
    assert(v@.map_values(|s: &str| s@) =~= listed_node_type_names());
    v
}

/// The node kinds whose name parses back to themselves: all but the kinds that exist only
/// in the tree and have no name of their own.
pub open spec fn is_canonical_node_type(t: NodeType) -> bool {
    match t {
        NodeType::Root => true,
        NodeType::Catalog => true,
        NodeType::Pages => true,
        NodeType::Page => true,
        NodeType::Resource => true,
        NodeType::Font => true,
        NodeType::Image => true,
        NodeType::ContentStream => true,
        NodeType::Annotation => true,
        NodeType::Action => true,
        NodeType::Metadata => true,
        NodeType::EmbeddedFile => true,
        NodeType::Signature => true,
        NodeType::Stream => true,
        NodeType::FilteredStream => true,
        NodeType::DecodedStream => true,
        NodeType::XObject => true,
        NodeType::FormXObject => true,
        NodeType::ImageXObject => true,
        NodeType::Type1Font => true,
        NodeType::TrueTypeFont => true,
        NodeType::Type3Font => true,
        NodeType::CIDFont => true,
        NodeType::JavaScriptAction => true,
        NodeType::GoToAction => true,
        NodeType::URIAction => true,
        NodeType::LaunchAction => true,
        NodeType::SubmitFormAction => true,
        NodeType::AcroForm => true,
        NodeType::Field => true,
        NodeType::Encrypt => true,
        NodeType::Permission => true,
        NodeType::ContentOperator => true,
        NodeType::TextOperator => true,
        NodeType::GraphicsOperator => true,
        NodeType::EmbeddedJS => true,
        NodeType::SuspiciousAction => true,
        NodeType::ExternalReference => true,
        NodeType::EncodedContent => true,
        NodeType::Unknown => true,
        NodeType::Object(_) => true,
        _ => false,
    }
}

/// The name of an object node parses back to its identifier.
pub proof fn lemma_object_node_name_parses(id: ObjectId)
    ensures
        parse_object_id(object_node_name(id)) == Some(id),
{
    reveal_strlit("Object(");
    reveal_strlit(", ");
    reveal_strlit(")");
    let dn = decimal(id.number as nat);
    let dg = decimal(id.generation as nat);
    lemma_decimal_digits(id.number as nat);
    lemma_decimal_digits(id.generation as nat);
    lemma_trim_digits(dn);
    lemma_trim_digits(dg);
    let s = object_node_name(id);
    assert(s =~= "Object("@ + dn + ", "@ + dg + ")"@);
    assert(has_object_prefix(s));
    let inner = s.subrange(7, s.len() - 1);
    assert(inner =~= dn + ", "@ + dg);
    let k = dn.len() as int;
    assert forall|j: int| 0 <= j < inner.len() && j != k implies inner[j] != ',' by {
        if j < k {
            assert(inner[j] == dn[j]);
            assert(is_digit(dn[j]));
        } else if j > k + 1 {
            assert(inner[j] == dg[j - k - 2]);
            assert(is_digit(dg[j - k - 2]));
        }
    }
    assert(unique_comma_at(inner, k));
    let chosen = choose|k: int| unique_comma_at(inner, k);
    assert(inner[chosen] == ',');
    assert(chosen == k);
    assert(inner.subrange(0, k) =~= dn);
    assert(inner.subrange(k + 1, inner.len() as int) =~= seq![' '] + dg);
    assert(!(dn[0] == '+')) by {
        assert(is_digit(dn[0]));
    }
    assert(!(dg[0] == '+')) by {
        assert(is_digit(dg[0]));
    }
}

/// Parsing the name of an object node gives that node kind back.
proof fn lemma_object_node_type_roundtrip(id: ObjectId)
    ensures
        parse_node_type_spec(node_type_name(NodeType::Object(id))) == Some(NodeType::Object(id)),
{
    lemma_object_node_name_parses(id);
    reveal_strlit("Object(");
    reveal_strlit("Root");
    reveal_strlit("Catalog");
    reveal_strlit("Pages");
    reveal_strlit("Page");
    reveal_strlit("Resource");
    reveal_strlit("Font");
    reveal_strlit("Image");
    reveal_strlit("ContentStream");
    reveal_strlit("Annotation");
    reveal_strlit("Action");
    reveal_strlit("Metadata");
    reveal_strlit("EmbeddedFile");
    reveal_strlit("Signature");
    reveal_strlit("Stream");
    reveal_strlit("FilteredStream");
    reveal_strlit("DecodedStream");
    reveal_strlit("XObject");
    reveal_strlit("FormXObject");
    reveal_strlit("ImageXObject");
    reveal_strlit("Type1Font");
    reveal_strlit("TrueTypeFont");
    reveal_strlit("Type3Font");
    reveal_strlit("CIDFont");
    reveal_strlit("JavaScriptAction");
    reveal_strlit("GoToAction");
    reveal_strlit("URIAction");
    reveal_strlit("LaunchAction");
    reveal_strlit("SubmitFormAction");
    reveal_strlit("AcroForm");
    reveal_strlit("Field");
    reveal_strlit("Encrypt");
    reveal_strlit("Permission");
    reveal_strlit("ContentOperator");
    reveal_strlit("TextOperator");
    reveal_strlit("GraphicsOperator");
    reveal_strlit("EmbeddedJS");
    reveal_strlit("SuspiciousAction");
    reveal_strlit("ExternalReference");
    reveal_strlit("EncodedContent");
    reveal_strlit("Unknown");
    reveal_strlit("Outline");
    reveal_strlit("Encryption");
    reveal_strlit("Structure");
    reveal_strlit("Form");
    reveal_strlit("JavaScript");
    reveal_strlit("Multimedia");
    reveal_strlit("ColorSpace");
    reveal_strlit("Pattern");
    reveal_strlit("Shading");
    reveal_strlit("Other");
    let s = object_node_name(id);
    assert(s[0] == 'O' && s[1] == 'b');
    assert(s != "Root"@) by {
        assert("Root"@[0] != 'O' || "Root"@[1] != 'b');
    }
    assert(s != "Catalog"@) by {
        assert("Catalog"@[0] != 'O' || "Catalog"@[1] != 'b');
    }
    assert(s != "Pages"@) by {
        assert("Pages"@[0] != 'O' || "Pages"@[1] != 'b');
    }
    assert(s != "Page"@) by {
        assert("Page"@[0] != 'O' || "Page"@[1] != 'b');
    }
    assert(s != "Resource"@) by {
        assert("Resource"@[0] != 'O' || "Resource"@[1] != 'b');
    }
    assert(s != "Font"@) by {
        assert("Font"@[0] != 'O' || "Font"@[1] != 'b');
    }
    assert(s != "Image"@) by {
        assert("Image"@[0] != 'O' || "Image"@[1] != 'b');
    }
    assert(s != "ContentStream"@) by {
        assert("ContentStream"@[0] != 'O' || "ContentStream"@[1] != 'b');
    }
    assert(s != "Annotation"@) by {
        assert("Annotation"@[0] != 'O' || "Annotation"@[1] != 'b');
    }
    assert(s != "Action"@) by {
        assert("Action"@[0] != 'O' || "Action"@[1] != 'b');
    }
    assert(s != "Metadata"@) by {
        assert("Metadata"@[0] != 'O' || "Metadata"@[1] != 'b');
    }
    assert(s != "EmbeddedFile"@) by {
        assert("EmbeddedFile"@[0] != 'O' || "EmbeddedFile"@[1] != 'b');
    }
    assert(s != "Signature"@) by {
        assert("Signature"@[0] != 'O' || "Signature"@[1] != 'b');
    }
    assert(s != "Stream"@) by {
        assert("Stream"@[0] != 'O' || "Stream"@[1] != 'b');
    }
    assert(s != "FilteredStream"@) by {
        assert("FilteredStream"@[0] != 'O' || "FilteredStream"@[1] != 'b');
    }
    assert(s != "DecodedStream"@) by {
        assert("DecodedStream"@[0] != 'O' || "DecodedStream"@[1] != 'b');
    }
    assert(s != "XObject"@) by {
        assert("XObject"@[0] != 'O' || "XObject"@[1] != 'b');
    }
    assert(s != "FormXObject"@) by {
        assert("FormXObject"@[0] != 'O' || "FormXObject"@[1] != 'b');
    }
    assert(s != "ImageXObject"@) by {
        assert("ImageXObject"@[0] != 'O' || "ImageXObject"@[1] != 'b');
    }
    assert(s != "Type1Font"@) by {
        assert("Type1Font"@[0] != 'O' || "Type1Font"@[1] != 'b');
    }
    assert(s != "TrueTypeFont"@) by {
        assert("TrueTypeFont"@[0] != 'O' || "TrueTypeFont"@[1] != 'b');
    }
    assert(s != "Type3Font"@) by {
        assert("Type3Font"@[0] != 'O' || "Type3Font"@[1] != 'b');
    }
    assert(s != "CIDFont"@) by {
        assert("CIDFont"@[0] != 'O' || "CIDFont"@[1] != 'b');
    }
    assert(s != "JavaScriptAction"@) by {
        assert("JavaScriptAction"@[0] != 'O' || "JavaScriptAction"@[1] != 'b');
    }
    assert(s != "GoToAction"@) by {
        assert("GoToAction"@[0] != 'O' || "GoToAction"@[1] != 'b');
    }
    assert(s != "URIAction"@) by {
        assert("URIAction"@[0] != 'O' || "URIAction"@[1] != 'b');
    }
    assert(s != "LaunchAction"@) by {
        assert("LaunchAction"@[0] != 'O' || "LaunchAction"@[1] != 'b');
    }
    assert(s != "SubmitFormAction"@) by {
        assert("SubmitFormAction"@[0] != 'O' || "SubmitFormAction"@[1] != 'b');
    }
    assert(s != "AcroForm"@) by {
        assert("AcroForm"@[0] != 'O' || "AcroForm"@[1] != 'b');
    }
    assert(s != "Field"@) by {
        assert("Field"@[0] != 'O' || "Field"@[1] != 'b');
    }
    assert(s != "Encrypt"@) by {
        assert("Encrypt"@[0] != 'O' || "Encrypt"@[1] != 'b');
    }
    assert(s != "Permission"@) by {
        assert("Permission"@[0] != 'O' || "Permission"@[1] != 'b');
    }
    assert(s != "ContentOperator"@) by {
        assert("ContentOperator"@[0] != 'O' || "ContentOperator"@[1] != 'b');
    }
    assert(s != "TextOperator"@) by {
        assert("TextOperator"@[0] != 'O' || "TextOperator"@[1] != 'b');
    }
    assert(s != "GraphicsOperator"@) by {
        assert("GraphicsOperator"@[0] != 'O' || "GraphicsOperator"@[1] != 'b');
    }
    assert(s != "EmbeddedJS"@) by {
        assert("EmbeddedJS"@[0] != 'O' || "EmbeddedJS"@[1] != 'b');
    }
    assert(s != "SuspiciousAction"@) by {
        assert("SuspiciousAction"@[0] != 'O' || "SuspiciousAction"@[1] != 'b');
    }
    assert(s != "ExternalReference"@) by {
        assert("ExternalReference"@[0] != 'O' || "ExternalReference"@[1] != 'b');
    }
    assert(s != "EncodedContent"@) by {
        assert("EncodedContent"@[0] != 'O' || "EncodedContent"@[1] != 'b');
    }
    assert(s != "Unknown"@) by {
        assert("Unknown"@[0] != 'O' || "Unknown"@[1] != 'b');
    }
    assert(s != "Outline"@) by {
        assert("Outline"@[0] != 'O' || "Outline"@[1] != 'b');
    }
    assert(s != "Encryption"@) by {
        assert("Encryption"@[0] != 'O' || "Encryption"@[1] != 'b');
    }
    assert(s != "Structure"@) by {
        assert("Structure"@[0] != 'O' || "Structure"@[1] != 'b');
    }
    assert(s != "Form"@) by {
        assert("Form"@[0] != 'O' || "Form"@[1] != 'b');
    }
    assert(s != "JavaScript"@) by {
        assert("JavaScript"@[0] != 'O' || "JavaScript"@[1] != 'b');
    }
    assert(s != "Multimedia"@) by {
        assert("Multimedia"@[0] != 'O' || "Multimedia"@[1] != 'b');
    }
    assert(s != "ColorSpace"@) by {
        assert("ColorSpace"@[0] != 'O' || "ColorSpace"@[1] != 'b');
    }
    assert(s != "Pattern"@) by {
        assert("Pattern"@[0] != 'O' || "Pattern"@[1] != 'b');
    }
    assert(s != "Shading"@) by {
        assert("Shading"@[0] != 'O' || "Shading"@[1] != 'b');
    }
    assert(s != "Other"@) by {
        assert("Other"@[0] != 'O' || "Other"@[1] != 'b');
    }
    assert(parse_node_type_spec(s) == Some(NodeType::Object(id)));
}

/// Parsing the name of a kind other than an object node gives that kind back.
proof fn lemma_named_node_type_roundtrip(t: NodeType)
    requires
        is_canonical_node_type(t),
        !(t is Object),
    ensures
        parse_node_type_spec(node_type_name(t)) == Some(t),
{
    reveal_strlit("Root");
    reveal_strlit("Catalog");
    reveal_strlit("Pages");
    reveal_strlit("Page");
    reveal_strlit("Resource");
    reveal_strlit("Font");
    reveal_strlit("Image");
    reveal_strlit("ContentStream");
    reveal_strlit("Annotation");
    reveal_strlit("Action");
    reveal_strlit("Metadata");
    reveal_strlit("EmbeddedFile");
    reveal_strlit("Signature");
    reveal_strlit("Stream");
    reveal_strlit("FilteredStream");
    reveal_strlit("DecodedStream");
    reveal_strlit("XObject");
    reveal_strlit("FormXObject");
    reveal_strlit("ImageXObject");
    reveal_strlit("Type1Font");
    reveal_strlit("TrueTypeFont");
    reveal_strlit("Type3Font");
    reveal_strlit("CIDFont");
    reveal_strlit("JavaScriptAction");
    reveal_strlit("GoToAction");
    reveal_strlit("URIAction");
    reveal_strlit("LaunchAction");
    reveal_strlit("SubmitFormAction");
    reveal_strlit("AcroForm");
    reveal_strlit("Field");
    reveal_strlit("Encrypt");
    reveal_strlit("Permission");
    reveal_strlit("ContentOperator");
    reveal_strlit("TextOperator");
    reveal_strlit("GraphicsOperator");
    reveal_strlit("EmbeddedJS");
    reveal_strlit("SuspiciousAction");
    reveal_strlit("ExternalReference");
    reveal_strlit("EncodedContent");
    reveal_strlit("Unknown");
    reveal_strlit("Outline");
    reveal_strlit("Encryption");
    reveal_strlit("Structure");
    reveal_strlit("Form");
    reveal_strlit("JavaScript");
    reveal_strlit("Multimedia");
    reveal_strlit("ColorSpace");
    reveal_strlit("Pattern");
    reveal_strlit("Shading");
    reveal_strlit("Other");
    assert("Page"@[0] != "Root"@[0]);
    assert("Font"@[0] != "Root"@[0]);
    assert("Font"@[0] != "Page"@[0]);
    assert("Image"@[0] != "Pages"@[0]);
    assert("Metadata"@[0] != "Resource"@[0]);
    assert("Stream"@[0] != "Action"@[0]);
    assert("DecodedStream"@[0] != "ContentStream"@[0]);
    assert("XObject"@[0] != "Catalog"@[0]);
    assert("ImageXObject"@[0] != "EmbeddedFile"@[0]);
    assert("Type1Font"@[0] != "Signature"@[0]);
    assert("TrueTypeFont"@[0] != "EmbeddedFile"@[0]);
    assert("TrueTypeFont"@[0] != "ImageXObject"@[0]);
    assert("Type3Font"@[0] != "Signature"@[0]);
    assert("Type3Font"@[4] != "Type1Font"@[4]);
    assert("CIDFont"@[1] != "Catalog"@[1]);
    assert("CIDFont"@[0] != "XObject"@[0]);
    assert("GoToAction"@[0] != "Annotation"@[0]);
    assert("URIAction"@[0] != "Signature"@[0]);
    assert("URIAction"@[0] != "Type1Font"@[0]);
    assert("URIAction"@[0] != "Type3Font"@[0]);
    assert("LaunchAction"@[0] != "EmbeddedFile"@[0]);
    assert("LaunchAction"@[0] != "ImageXObject"@[0]);
    assert("LaunchAction"@[0] != "TrueTypeFont"@[0]);
    assert("SubmitFormAction"@[0] != "JavaScriptAction"@[0]);
    assert("AcroForm"@[0] != "Resource"@[0]);
    assert("AcroForm"@[0] != "Metadata"@[0]);
    assert("Field"@[0] != "Pages"@[0]);
    assert("Field"@[0] != "Image"@[0]);
    assert("Encrypt"@[0] != "Catalog"@[0]);
    assert("Encrypt"@[0] != "XObject"@[0]);
    assert("Encrypt"@[0] != "CIDFont"@[0]);
    assert("Permission"@[0] != "Annotation"@[0]);
    assert("Permission"@[0] != "GoToAction"@[0]);
    assert("TextOperator"@[0] != "EmbeddedFile"@[0]);
    assert("TextOperator"@[0] != "ImageXObject"@[0]);
    assert("TextOperator"@[1] != "TrueTypeFont"@[1]);
    assert("TextOperator"@[0] != "LaunchAction"@[0]);
    assert("GraphicsOperator"@[0] != "JavaScriptAction"@[0]);
    assert("GraphicsOperator"@[0] != "SubmitFormAction"@[0]);
    assert("EmbeddedJS"@[0] != "Annotation"@[0]);
    assert("EmbeddedJS"@[0] != "GoToAction"@[0]);
    assert("EmbeddedJS"@[0] != "Permission"@[0]);
    assert("SuspiciousAction"@[0] != "JavaScriptAction"@[0]);
    assert("SuspiciousAction"@[2] != "SubmitFormAction"@[2]);
    assert("SuspiciousAction"@[0] != "GraphicsOperator"@[0]);
    assert("EncodedContent"@[0] != "FilteredStream"@[0]);
    assert("Unknown"@[0] != "Catalog"@[0]);
    assert("Unknown"@[0] != "XObject"@[0]);
    assert("Unknown"@[0] != "CIDFont"@[0]);
    assert("Unknown"@[0] != "Encrypt"@[0]);
}

/// Parsing the name of a node kind gives that kind back, for every kind that has a name of
/// its own.
pub proof fn lemma_node_type_name_roundtrip(t: NodeType)
    requires
        is_canonical_node_type(t),
    ensures
        parse_node_type_spec(node_type_name(t)) == Some(t),
{
    match t {
        NodeType::Object(id) => lemma_object_node_type_roundtrip(id),
        _ => lemma_named_node_type_roundtrip(t),
    }
}

/// Every name that `list_node_types` gives is accepted by `parse_node_type`.
pub proof fn lemma_listed_names_parse(i: int)
    requires
        0 <= i < listed_node_type_names().len(),
    ensures
        parse_node_type_spec(listed_node_type_names()[i]) is Some,
{
}

} // verus!
