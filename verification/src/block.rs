//! Declaration blocks: the format-agnostic representation of one emitted
//! `variable` or `output` stanza, shared by both traversals.

use crate::scan::views_of;
use vstd::prelude::*;

verus! {

/// Which stanza a declaration block renders to.
#[derive(Debug, Clone, PartialEq, Eq)]
pub enum DeclKind {
    Variable,
    Output,
}

/// The value of one attribute of a declaration block.
#[derive(Debug, Clone, PartialEq, Eq)]
pub enum AttrValue {
    /// A bare symbolic reference: the components of a dotted address
    /// expression (`aws_instance.foo.id`), or a bare keyword such as
    /// `string` or `null` when there is exactly one component.
    Path(Vec<String>),
    /// A quoted string literal.
    Text(String),
}

/// One attribute of a declaration block.
#[derive(Debug, Clone, PartialEq, Eq)]
pub struct Attr {
    pub name: String,
    pub value: AttrValue,
}

/// A named declaration block with its ordered attributes.
#[derive(Debug, Clone, PartialEq, Eq)]
pub struct DeclarationBlock {
    pub kind: DeclKind,
    pub label: String,
    pub attrs: Vec<Attr>,
}

/// `v` is the bare symbolic reference whose components are `path`.
pub open spec fn is_path(v: AttrValue, path: Seq<Seq<char>>) -> bool {
    match v {
        AttrValue::Path(p) => views_of(p@) == path,
        AttrValue::Text(_) => false,
    }
}

/// `v` is the quoted string literal `text`.
pub open spec fn is_text(v: AttrValue, text: Seq<char>) -> bool {
    match v {
        AttrValue::Path(_) => false,
        AttrValue::Text(t) => t@ == text,
    }
}

/// `b` is the variable declaration for the name `name`: kind `variable`,
/// label the name, and the three attributes `type = string`, `default = null`,
/// `description = ""`, in that order.
pub open spec fn is_variable_block(b: DeclarationBlock, name: Seq<char>) -> bool {
    &&& b.kind == DeclKind::Variable
    &&& b.label@ == name
    &&& b.attrs@.len() == 3
    &&& b.attrs@[0].name@ == "type"@
    &&& is_path(b.attrs@[0].value, seq!["string"@])
    &&& b.attrs@[1].name@ == "default"@
    &&& is_path(b.attrs@[1].value, seq!["null"@])
    &&& b.attrs@[2].name@ == "description"@
    &&& is_text(b.attrs@[2].value, ""@)
}

/// `b` is the output declaration labelled `label` whose address expression
/// has the components `path`: kind `output`, and the two attributes
/// `value = <address>`, `description = ""`, in that order.
pub open spec fn is_output_block(b: DeclarationBlock, label: Seq<char>, path: Seq<Seq<char>>) -> bool {
    &&& b.kind == DeclKind::Output
    &&& b.label@ == label
    &&& b.attrs@.len() == 2
    &&& b.attrs@[0].name@ == "value"@
    &&& is_path(b.attrs@[0].value, path)
    &&& b.attrs@[1].name@ == "description"@
    &&& is_text(b.attrs@[1].value, ""@)
}

/// The variable declaration for the name `name`.
pub fn variable_block(name: String) -> (b: DeclarationBlock)
    ensures
        is_variable_block(b, name@),
{
    let mut type_path: Vec<String> = Vec::new();
    type_path.push("string".to_string());
    let mut default_path: Vec<String> = Vec::new();
    default_path.push("null".to_string());
    let mut attrs: Vec<Attr> = Vec::new();
    attrs.push(Attr { name: "type".to_string(), value: AttrValue::Path(type_path) });
    attrs.push(Attr { name: "default".to_string(), value: AttrValue::Path(default_path) });
    attrs.push(Attr { name: "description".to_string(), value: AttrValue::Text("".to_string()) });
    let b = DeclarationBlock { kind: DeclKind::Variable, label: name, attrs };
    proof {
        assert(is_path(b.attrs@[0].value, seq!["string"@])) by {
            assert(views_of(b.attrs@[0].value->Path_0@) =~= seq!["string"@]);
        }
        assert(is_path(b.attrs@[1].value, seq!["null"@])) by {
            assert(views_of(b.attrs@[1].value->Path_0@) =~= seq!["null"@]);
        }
    }
    b
}

/// The output declaration labelled `label` for the address whose components
/// are `path`.
pub fn output_block(label: String, path: Vec<String>) -> (b: DeclarationBlock)
    ensures
        is_output_block(b, label@, views_of(path@)),
{
    let ghost path_view = views_of(path@);
    let mut attrs: Vec<Attr> = Vec::new();
    attrs.push(Attr { name: "value".to_string(), value: AttrValue::Path(path) });
    attrs.push(Attr { name: "description".to_string(), value: AttrValue::Text("".to_string()) });
    DeclarationBlock { kind: DeclKind::Output, label, attrs }
}

} // verus!
