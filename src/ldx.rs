use vstd::prelude::*;
use vstd::string::StringExecFns;
use vstd::utf8::{decode_utf8, valid_utf8};
use crate::error::{MotecError, Result};

verus! {

/// A workspace document with its defaults applied.
#[derive(Debug, Clone)]
pub struct LdxFile {
    pub workspace_name: String,
    pub project_name: Option<String>,
    pub car_name: Option<String>,
    pub channels: Vec<Channel>,
    pub worksheets: Vec<Worksheet>,
    pub metadata: Vec<MetadataItem>,
}

/// A channel definition of a workspace.
#[derive(Debug, Clone)]
pub struct Channel {
    pub name: String,
    pub units: Option<String>,
    pub source: Option<String>,
    pub scaling: Option<String>,
    pub math: Option<String>,
}

/// A worksheet: a named view that refers to channels by name.
#[derive(Debug, Clone)]
pub struct Worksheet {
    pub name: String,
    pub worksheet_type: Option<String>,
    pub channel_refs: Vec<ChannelRef>,
}

/// A reference from a worksheet to a channel.
#[derive(Debug, Clone)]
pub struct ChannelRef {
    pub name: String,
}

/// A key/value annotation of a workspace.
#[derive(Debug, Clone)]
pub struct MetadataItem {
    pub key: String,
    pub value: String,
}

/// The `Workspace` element as it stands in XML: every attribute and every
/// container optional.
#[derive(Debug, Clone)]
pub struct LdxWorkspace {
    pub workspace_name: Option<String>,
    pub project_name: Option<String>,
    pub car_name: Option<String>,
    pub channels: Option<Vec<Channel>>,
    pub worksheets: Option<Vec<Worksheet>>,
    pub metadata: Option<Vec<MetadataItem>>,
}

/// Name of a workspace whose `Name` attribute is absent.
pub open spec fn default_name() -> Seq<char> {
    seq!['D', 'e', 'f', 'a', 'u', 'l', 't']
}

/// Items of an optional container; an absent one holds none.
pub open spec fn items_or_empty<T>(c: Option<Vec<T>>) -> Seq<T> {
    match c {
        Some(v) => v@,
        None => Seq::empty(),
    }
}

/// `f` is the document that the element `ws` stands for.
pub open spec fn workspace_maps_to(ws: LdxWorkspace, f: LdxFile) -> bool {
    &&& f.workspace_name@ == match ws.workspace_name {
        Some(n) => n@,
        None => default_name(),
    }
    &&& f.project_name == ws.project_name
    &&& f.car_name == ws.car_name
    &&& f.channels@ == items_or_empty(ws.channels)
    &&& f.worksheets@ == items_or_empty(ws.worksheets)
    &&& f.metadata@ == items_or_empty(ws.metadata)
}

/// `ws` is the element written for the document `f`: every attribute
/// and every container present.
pub open spec fn file_maps_to(f: LdxFile, ws: LdxWorkspace) -> bool {
    &&& ws.workspace_name == Some(f.workspace_name)
    &&& ws.project_name == f.project_name
    &&& ws.car_name == f.car_name
    &&& ws.channels == Some(f.channels)
    &&& ws.worksheets == Some(f.worksheets)
    &&& ws.metadata == Some(f.metadata)
}

/// Two documents with the same content.
pub open spec fn same_document(a: LdxFile, b: LdxFile) -> bool {
    &&& a.workspace_name@ == b.workspace_name@
    &&& a.project_name == b.project_name
    &&& a.car_name == b.car_name
    &&& a.channels@ == b.channels@
    &&& a.worksheets@ == b.worksheets@
    &&& a.metadata@ == b.metadata@
}

fn items_or_empty_vec<T>(c: Option<Vec<T>>) -> (r: Vec<T>)
    ensures
        r@ == items_or_empty(c),
{
    match c {
        Some(v) => v,
        None => Vec::new(),
    }
}

impl LdxFile {
    /// Applies the defaults: an absent name becomes `"Default"`, an absent
    /// container an empty sequence; other absent attributes stay absent.
    pub fn from_workspace(ws: LdxWorkspace) -> (f: LdxFile)
        ensures
            workspace_maps_to(ws, f),
    {
        let workspace_name = match ws.workspace_name {
            Some(n) => n,
            None => {
                let n = String::from_str("Default");
                proof {
                    reveal_strlit("Default");
                    assert(n@ =~= default_name());
                }
                n
            },
        };
        LdxFile {
            workspace_name,
            project_name: ws.project_name,
            car_name: ws.car_name,
            channels: items_or_empty_vec(ws.channels),
            worksheets: items_or_empty_vec(ws.worksheets),
            metadata: items_or_empty_vec(ws.metadata),
        }
    }

    /// The element that stands for this document, with every attribute and
    /// container written out.
    pub fn to_workspace(self) -> (ws: LdxWorkspace)
        ensures
            file_maps_to(self, ws),
    {
        LdxWorkspace {
            workspace_name: Some(self.workspace_name),
            project_name: self.project_name,
            car_name: self.car_name,
            channels: Some(self.channels),
            worksheets: Some(self.worksheets),
            metadata: Some(self.metadata),
        }
    }
}

/// Writing a document out as an element and reading that element back
/// gives the same document.
pub proof fn lemma_round_trip(doc: LdxFile, ws: LdxWorkspace, back: LdxFile)
    requires
        file_maps_to(doc, ws),
        workspace_maps_to(ws, back),
    ensures
        same_document(doc, back),
{
}

/// Relies on `std::str::from_utf8`: fails exactly on bytes that are not
/// valid UTF-8, and otherwise gives the text they encode. The error is
/// handed on as its message.
#[verifier::external_body]
fn utf8_text(b: &[u8]) -> (r: core::result::Result<String, String>)
    ensures
        r is Ok <==> valid_utf8(b@),
        r matches Ok(s) ==> s@ == decode_utf8(b@),
{
    match std::str::from_utf8(b) {
        Ok(s) => Ok(s.to_string()),
        Err(e) => Err(e.to_string()),
    }
}

/// Decodes the bytes of a workspace file as text; fails with `Utf8`
/// exactly when they are not valid UTF-8.
pub fn decode_ldx_text(data: &[u8]) -> (r: Result<String>)
    ensures
        r is Ok <==> valid_utf8(data@),
        r matches Ok(s) ==> s@ == decode_utf8(data@),
        r matches Err(e) ==> e is Utf8,
{
    match utf8_text(data) {
        Ok(s) => Ok(s),
        Err(m) => Err(MotecError::Utf8(m)),
    }
}

} // verus!
