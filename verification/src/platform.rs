//! What the library takes on trust: the functions of the standard library and of other
//! crates that it calls without proof.

use crate::adb::bytes_in;
use crate::http::{fields, Field, FieldView, Member, MemberView, Scalar};
use crate::u2::image_in;
use crate::xml::{document_in, XmlNode, XmlNodeView};
use vstd::prelude::*;
use vstd::utf8::*;

verus! {

/// `String::push`: appends one character at the end of the string.
pub assume_specification[ String::push ](s: &mut String, ch: char)
    ensures
        final(s)@ == old(s)@.push(ch),
;

/// Whether the standard library counts a character as alphanumeric.
pub uninterp spec fn alphanumeric(c: char) -> bool;

/// `char::is_alphanumeric`: the answer depends on the character alone. Which characters
/// are alphanumeric is a table of Unicode and is not stated.
pub assume_specification[ char::is_alphanumeric ](c: char) -> (b: bool)
    ensures
        b == alphanumeric(c),
;

/// The lower case form that the standard library gives to a text.
pub uninterp spec fn lowercase(s: Seq<char>) -> Seq<char>;

/// `str::to_lowercase`: the lower case form depends on the text alone. Unicode's case
/// tables are not stated.
pub assume_specification[ str::to_lowercase ](s: &str) -> (r: String)
    ensures
        r@ == lowercase(s@),
;

/// `==` on string slices: true for the same characters in the same order.
#[verifier::external_body]
pub(crate) fn same_text(a: &str, b: &str) -> (r: bool)
    ensures
        r == (a@ == b@),
{
    a == b
}

/// The text that the standard library makes of bytes, invalid sequences replaced.
pub uninterp spec fn utf8_lossy(bytes: Seq<u8>) -> Seq<char>;

/// `String::from_utf8_lossy`: the text depends on the bytes alone. Valid UTF-8 is decoded
/// as it stands. Where the replacement characters go in invalid input is not stated.
#[verifier::external_body]
pub(crate) fn text_lossy(bytes: &[u8]) -> (r: String)
    ensures
        r@ == utf8_lossy(bytes@),
        valid_utf8(bytes@) ==> encode_utf8(r@) == bytes@,
{
    String::from_utf8_lossy(bytes).into_owned()
}

/// `std::str::from_utf8`: succeeds on valid UTF-8 and nothing else, with the text whose
/// encoding the bytes are.
#[verifier::external_body]
pub(crate) fn text_strict(bytes: &[u8]) -> (r: Option<&str>)
    ensures
        r is Some <==> valid_utf8(bytes@),
        r matches Some(s) ==> encode_utf8(s@) == bytes@,
{
    std::str::from_utf8(bytes).ok()
}

/// A path of the file system, which the library carries but does not look into.
#[verifier::external_type_specification]
#[verifier::external_body]
pub struct ExPathBuf(std::path::PathBuf);

/// `PathBuf::clone`: a duplicate of the path.
pub assume_specification[ <std::path::PathBuf as Clone>::clone ](p: &std::path::PathBuf) -> (r:
    std::path::PathBuf)
    ensures
        r == *p,
;

/// The nodes that `roxmltree` makes of a text, none where it is no XML document.
pub uninterp spec fn xml_document(text: Seq<char>) -> Option<Seq<XmlNodeView>>;

/// `roxmltree::Document::parse` and `Document::descendants`: whether the text is an XML
/// document, and its nodes in document order, depend on the text alone. A node's number in
/// that order is its id, and its parent is given by id. An attribute is given by its local
/// name, by which `Node::attribute` finds it when no namespace is asked for. The grammar of
/// XML and the normalization of attribute values are not stated.
#[verifier::external_body]
pub(crate) fn xml_nodes(text: &str) -> (r: Option<Vec<XmlNode>>)
    ensures
        document_in(r) == xml_document(text@),
{
    let doc = roxmltree::Document::parse(text).ok()?;
    let node = |n: roxmltree::Node| XmlNode {
        parent: n.parent().map(|p| p.id().get_usize()),
        is_element: n.is_element(),
        name: n.tag_name().name().to_string(),
        attributes: n.attributes().map(|a| (a.name().to_string(), a.value().to_string())).collect(),
    };
    Some(doc.descendants().map(node).collect())
}

/// The text that `serde_json` writes for an object, as bytes.
pub uninterp spec fn json_bytes(object: Seq<(Seq<char>, FieldView)>) -> Result<Seq<u8>, Seq<char>>;

/// `serde_json::to_vec` on a map: the bytes depend on the members alone. The order of the
/// members and the escaping of texts are not stated.
#[verifier::external_body]
pub(crate) fn json_encode(object: &Vec<(String, Field)>) -> (r: Result<Vec<u8>, String>)
    ensures
        bytes_in(r) == json_bytes(fields(object@)),
{
    let scalar = |s: &Scalar| match s {
        Scalar::Text(t) => serde_json::Value::from(t.as_str()),
        Scalar::Number(n) => serde_json::Value::from(*n),
        Scalar::Flag(b) => serde_json::Value::from(*b),
    };
    let field = |f: &Field| match f {
        Field::One(s) => scalar(s),
        Field::List(l) => serde_json::Value::Array(l.iter().map(scalar).collect()),
    };
    let map: serde_json::Map<String, serde_json::Value> =
        object.iter().map(|m| (m.0.clone(), field(&m.1))).collect();
    serde_json::to_vec(&map).map_err(|e| e.to_string())
}

/// The complaint of `serde_json::from_slice` about a text, none where it is JSON.
pub uninterp spec fn json_complaint(bytes: Seq<u8>) -> Option<Seq<char>>;

/// What `Value::pointer` finds at a place of a JSON text. A place is a JSON pointer such as
/// `/error/message`.
pub uninterp spec fn json_member(bytes: Seq<u8>, place: Seq<char>) -> MemberView;

/// `serde_json::from_slice` and `Value::pointer`: the complaint about a text that is no JSON
/// depends on the bytes alone, and what stands at a place of one that is, on the bytes and the
/// place. There is an answer for each place, in their order. The grammar of JSON is not stated.
#[verifier::external_body]
pub(crate) fn json_lookup(bytes: &[u8], places: &Vec<&str>) -> (r: Result<Vec<Member>, String>)
    ensures
        match r {
            Ok(found) => json_complaint(bytes@) is None && found@.len() == places@.len() && (
            forall|i: int|
                0 <= i < found@.len() ==> (#[trigger] found@[i])@ == json_member(
                    bytes@,
                    places@[i]@,
                )),
            Err(e) => json_complaint(bytes@) == Some(e@),
        },
{
    let root: serde_json::Value = serde_json::from_slice(bytes).map_err(|e| e.to_string())?;
    let member = |v: Option<&serde_json::Value>| match v {
        None => Member::Missing,
        Some(serde_json::Value::String(s)) => Member::Text(s.clone()),
        Some(serde_json::Value::Null) => Member::Other,
        Some(serde_json::Value::Bool(_)) => Member::Other,
        Some(serde_json::Value::Number(_)) => Member::Other,
        Some(serde_json::Value::Array(_)) => Member::Other,
        Some(serde_json::Value::Object(_)) => Member::Other,
    };
    Ok(places.iter().map(|p| member(root.pointer(p))).collect())
}

/// The bytes that a text stands for in standard Base64, if it is well formed.
pub uninterp spec fn base64_decoded(text: Seq<char>) -> Option<Seq<u8>>;

/// `base64::Engine::decode` with the engine `STANDARD`: whether the text is well formed, and
/// the bytes it stands for, depend on the text alone. The alphabet and the padding are not
/// stated.
#[verifier::external_body]
pub(crate) fn base64_decode(text: &str) -> (r: Option<Vec<u8>>)
    ensures
        image_in(r) == base64_decoded(text@),
{
    base64::Engine::decode(&base64::engine::general_purpose::STANDARD, text).ok()
}

} // verus!
