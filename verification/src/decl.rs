//! The declaration tree: the structural representation of one generated
//! source file.
//!
//! A file is an ordered list of top-level items; each item is a struct
//! declaration (name and ordered fields), an enum declaration (name and
//! ordered variants), or an opaque passthrough line (module headers, use
//! statements, closing braces, blank lines). Attribute and derive lists are
//! carried alongside so the transform rules can extend them.

use vstd::prelude::*;

use crate::text;

verus! {

/// Newline byte; every emitted line is terminated by one.
pub const NL: u8 = 10;

pub open spec fn is_ident_byte(c: u8) -> bool {
    (65 <= c <= 90) || (97 <= c <= 122) || (48 <= c <= 57) || c == 95
}

pub open spec fn is_digit_byte(c: u8) -> bool {
    48 <= c <= 57
}

pub open spec fn wf_ident(s: Seq<u8>) -> bool {
    &&& s.len() > 0
    &&& !is_digit_byte(s[0])
    &&& forall|i: int| 0 <= i < s.len() ==> is_ident_byte(#[trigger] s[i])
}

/// Executable test for `is_ident_byte`.
pub fn ident_byte(c: u8) -> (b: bool)
    ensures
        b == is_ident_byte(c),
{
    (65 <= c && c <= 90) || (97 <= c && c <= 122) || (48 <= c && c <= 57) || c == 95
}

/// Executable test for `is_digit_byte`.
pub fn digit_byte(c: u8) -> (b: bool)
    ensures
        b == is_digit_byte(c),
{
    48 <= c && c <= 57
}

// Byte constants of the canonical grammar, each as a spec sequence with an
// executable builder proved equal to it.
pub open spec fn bs_attr_start() -> Seq<u8> {
    seq![35u8, 91u8]
}

pub open spec fn bs_doc_start() -> Seq<u8> {
    seq![47u8, 47u8, 47u8]
}

pub open spec fn bs_derive_open() -> Seq<u8> {
    seq![35u8, 91u8, 100u8, 101u8, 114u8, 105u8, 118u8, 101u8, 40u8]
}

pub open spec fn bs_derive_close() -> Seq<u8> {
    seq![41u8, 93u8]
}

pub open spec fn bs_pub_struct() -> Seq<u8> {
    seq![112u8, 117u8, 98u8, 32u8, 115u8, 116u8, 114u8, 117u8, 99u8, 116u8, 32u8]
}

pub open spec fn bs_pub_enum() -> Seq<u8> {
    seq![112u8, 117u8, 98u8, 32u8, 101u8, 110u8, 117u8, 109u8, 32u8]
}

pub open spec fn bs_space_brace() -> Seq<u8> {
    seq![32u8, 123u8]
}

pub open spec fn bs_close_brace() -> Seq<u8> {
    seq![125u8]
}

pub open spec fn bs_indent() -> Seq<u8> {
    seq![32u8, 32u8, 32u8, 32u8]
}

pub open spec fn bs_pub_space() -> Seq<u8> {
    seq![112u8, 117u8, 98u8, 32u8]
}

pub open spec fn bs_colon_space() -> Seq<u8> {
    seq![58u8, 32u8]
}

pub open spec fn bs_comma_space() -> Seq<u8> {
    seq![44u8, 32u8]
}

pub open spec fn bs_eq_sep() -> Seq<u8> {
    seq![32u8, 61u8, 32u8]
}

pub fn lit_attr_start() -> (v: Vec<u8>)
    ensures
        v@ == bs_attr_start(),
{
    let v: Vec<u8> = vec![35u8, 91u8];
    proof {
        assert(v@ =~= bs_attr_start());
    }
    v
}

pub fn lit_doc_start() -> (v: Vec<u8>)
    ensures
        v@ == bs_doc_start(),
{
    let v: Vec<u8> = vec![47u8, 47u8, 47u8];
    proof {
        assert(v@ =~= bs_doc_start());
    }
    v
}

pub fn lit_derive_open() -> (v: Vec<u8>)
    ensures
        v@ == bs_derive_open(),
{
    let v: Vec<u8> = vec![35u8, 91u8, 100u8, 101u8, 114u8, 105u8, 118u8, 101u8, 40u8];
    proof {
        assert(v@ =~= bs_derive_open());
    }
    v
}

pub fn lit_derive_close() -> (v: Vec<u8>)
    ensures
        v@ == bs_derive_close(),
{
    let v: Vec<u8> = vec![41u8, 93u8];
    proof {
        assert(v@ =~= bs_derive_close());
    }
    v
}

pub fn lit_pub_struct() -> (v: Vec<u8>)
    ensures
        v@ == bs_pub_struct(),
{
    let v: Vec<u8> = vec![112u8, 117u8, 98u8, 32u8, 115u8, 116u8, 114u8, 117u8, 99u8, 116u8, 32u8];
    proof {
        assert(v@ =~= bs_pub_struct());
    }
    v
}

pub fn lit_pub_enum() -> (v: Vec<u8>)
    ensures
        v@ == bs_pub_enum(),
{
    let v: Vec<u8> = vec![112u8, 117u8, 98u8, 32u8, 101u8, 110u8, 117u8, 109u8, 32u8];
    proof {
        assert(v@ =~= bs_pub_enum());
    }
    v
}

pub fn lit_space_brace() -> (v: Vec<u8>)
    ensures
        v@ == bs_space_brace(),
{
    let v: Vec<u8> = vec![32u8, 123u8];
    proof {
        assert(v@ =~= bs_space_brace());
    }
    v
}

pub fn lit_close_brace() -> (v: Vec<u8>)
    ensures
        v@ == bs_close_brace(),
{
    let v: Vec<u8> = vec![125u8];
    proof {
        assert(v@ =~= bs_close_brace());
    }
    v
}

pub fn lit_indent() -> (v: Vec<u8>)
    ensures
        v@ == bs_indent(),
{
    let v: Vec<u8> = vec![32u8, 32u8, 32u8, 32u8];
    proof {
        assert(v@ =~= bs_indent());
    }
    v
}

pub fn lit_pub_space() -> (v: Vec<u8>)
    ensures
        v@ == bs_pub_space(),
{
    let v: Vec<u8> = vec![112u8, 117u8, 98u8, 32u8];
    proof {
        assert(v@ =~= bs_pub_space());
    }
    v
}

pub fn lit_colon_space() -> (v: Vec<u8>)
    ensures
        v@ == bs_colon_space(),
{
    let v: Vec<u8> = vec![58u8, 32u8];
    proof {
        assert(v@ =~= bs_colon_space());
    }
    v
}

pub fn lit_comma_space() -> (v: Vec<u8>)
    ensures
        v@ == bs_comma_space(),
{
    let v: Vec<u8> = vec![44u8, 32u8];
    proof {
        assert(v@ =~= bs_comma_space());
    }
    v
}

pub fn lit_eq_sep() -> (v: Vec<u8>)
    ensures
        v@ == bs_eq_sep(),
{
    let v: Vec<u8> = vec![32u8, 61u8, 32u8];
    proof {
        assert(v@ =~= bs_eq_sep());
    }
    v
}

/// One struct field: attributes (stored unindented), name and type text.
pub struct FieldDecl {
    pub attrs: Vec<Vec<u8>>,
    pub name: Vec<u8>,
    pub ty: Vec<u8>,
}

pub struct FieldDeclV {
    pub attrs: Seq<Seq<u8>>,
    pub name: Seq<u8>,
    pub ty: Seq<u8>,
}

impl View for FieldDecl {
    type V = FieldDeclV;

    open spec fn view(&self) -> FieldDeclV {
        FieldDeclV { attrs: text::view2(self.attrs@), name: self.name@, ty: self.ty@ }
    }
}

/// One enum variant: attributes, name and an optional numeric discriminant
/// kept as its digit bytes.
pub struct VariantDecl {
    pub attrs: Vec<Vec<u8>>,
    pub name: Vec<u8>,
    pub discr: Option<Vec<u8>>,
}

pub struct VariantDeclV {
    pub attrs: Seq<Seq<u8>>,
    pub name: Seq<u8>,
    pub discr: Option<Seq<u8>>,
}

impl View for VariantDecl {
    type V = VariantDeclV;

    open spec fn view(&self) -> VariantDeclV {
        VariantDeclV {
            attrs: text::view2(self.attrs@),
            name: self.name@,
            discr: match self.discr {
                Option::Some(d) => Option::Some(d@),
                Option::None => Option::None,
            },
        }
    }
}

pub struct StructDecl {
    pub derives: Vec<Vec<u8>>,
    pub attrs: Vec<Vec<u8>>,
    pub name: Vec<u8>,
    pub fields: Vec<FieldDecl>,
}

pub struct StructDeclV {
    pub derives: Seq<Seq<u8>>,
    pub attrs: Seq<Seq<u8>>,
    pub name: Seq<u8>,
    pub fields: Seq<FieldDeclV>,
}

impl View for StructDecl {
    type V = StructDeclV;

    open spec fn view(&self) -> StructDeclV {
        StructDeclV {
            derives: text::view2(self.derives@),
            attrs: text::view2(self.attrs@),
            name: self.name@,
            fields: Seq::new(self.fields@.len(), |i: int| self.fields@[i]@),
        }
    }
}

pub struct EnumDecl {
    pub derives: Vec<Vec<u8>>,
    pub attrs: Vec<Vec<u8>>,
    pub name: Vec<u8>,
    pub variants: Vec<VariantDecl>,
}

pub struct EnumDeclV {
    pub derives: Seq<Seq<u8>>,
    pub attrs: Seq<Seq<u8>>,
    pub name: Seq<u8>,
    pub variants: Seq<VariantDeclV>,
}

impl View for EnumDecl {
    type V = EnumDeclV;

    open spec fn view(&self) -> EnumDeclV {
        EnumDeclV {
            derives: text::view2(self.derives@),
            attrs: text::view2(self.attrs@),
            name: self.name@,
            variants: Seq::new(self.variants@.len(), |i: int| self.variants@[i]@),
        }
    }
}

/// One top-level item of a source file.
pub enum SourceItem {
    Struct(StructDecl),
    Enum(EnumDecl),
    Passthrough(Vec<u8>),
}

pub enum SourceItemV {
    Struct(StructDeclV),
    Enum(EnumDeclV),
    Passthrough(Seq<u8>),
}

impl View for SourceItem {
    type V = SourceItemV;

    open spec fn view(&self) -> SourceItemV {
        match self {
            SourceItem::Struct(s) => SourceItemV::Struct(s@),
            SourceItem::Enum(e) => SourceItemV::Enum(e@),
            SourceItem::Passthrough(l) => SourceItemV::Passthrough(l@),
        }
    }
}

/// View of an item list.
pub open spec fn items_view(items: Seq<SourceItem>) -> Seq<SourceItemV> {
    Seq::new(items.len(), |i: int| items[i]@)
}

/// View of a field list.
pub open spec fn fields_view(fs: Seq<FieldDecl>) -> Seq<FieldDeclV> {
    Seq::new(fs.len(), |i: int| fs[i]@)
}

/// View of a variant list.
pub open spec fn variants_view(vs: Seq<VariantDecl>) -> Seq<VariantDeclV> {
    Seq::new(vs.len(), |i: int| vs[i]@)
}

// Well-formedness: the conditions under which the canonical emitter's output
// parses back to the identical tree.
pub open spec fn wf_attr(a: Seq<u8>) -> bool {
    &&& text::has_prefix(a, bs_attr_start()) || text::has_prefix(a, bs_doc_start())
    &&& !a.contains(NL)
    &&& !text::has_prefix(a, bs_derive_open())
}

pub open spec fn wf_attrs(attrs: Seq<Seq<u8>>) -> bool {
    forall|i: int| 0 <= i < attrs.len() ==> wf_attr(#[trigger] attrs[i])
}

pub open spec fn wf_derive(d: Seq<u8>) -> bool {
    &&& d.len() > 0
    &&& forall|i: int| 0 <= i < d.len() ==> is_ident_byte(#[trigger] d[i]) || d[i] == 58u8
}

pub open spec fn wf_derives(ds: Seq<Seq<u8>>) -> bool {
    forall|i: int| 0 <= i < ds.len() ==> wf_derive(#[trigger] ds[i])
}

pub open spec fn wf_field(f: FieldDeclV) -> bool {
    &&& wf_ident(f.name)
    &&& f.ty.len() > 0
    &&& !f.ty.contains(NL)
    &&& wf_attrs(f.attrs)
}

pub open spec fn wf_variant(v: VariantDeclV) -> bool {
    &&& wf_ident(v.name)
    &&& wf_attrs(v.attrs)
    &&& match v.discr {
        Option::Some(d) => d.len() > 0 && forall|i: int|
            0 <= i < d.len() ==> is_digit_byte(#[trigger] d[i]),
        Option::None => true,
    }
}

pub open spec fn wf_struct(s: StructDeclV) -> bool {
    &&& wf_ident(s.name)
    &&& wf_derives(s.derives)
    &&& wf_attrs(s.attrs)
    &&& forall|i: int| 0 <= i < s.fields.len() ==> wf_field(#[trigger] s.fields[i])
}

pub open spec fn wf_enum(e: EnumDeclV) -> bool {
    &&& wf_ident(e.name)
    &&& wf_derives(e.derives)
    &&& wf_attrs(e.attrs)
    &&& forall|i: int| 0 <= i < e.variants.len() ==> wf_variant(#[trigger] e.variants[i])
}

pub open spec fn wf_passthrough(l: Seq<u8>) -> bool {
    &&& !l.contains(NL)
    &&& !text::has_prefix(l, bs_attr_start())
    &&& !text::has_prefix(l, bs_doc_start())
    &&& !text::has_prefix(l, bs_pub_struct())
    &&& !text::has_prefix(l, bs_pub_enum())
}

pub open spec fn wf_item(it: SourceItemV) -> bool {
    match it {
        SourceItemV::Struct(s) => wf_struct(s),
        SourceItemV::Enum(e) => wf_enum(e),
        SourceItemV::Passthrough(l) => wf_passthrough(l),
    }
}

pub open spec fn wf_items(items: Seq<SourceItemV>) -> bool {
    forall|i: int| 0 <= i < items.len() ==> wf_item(#[trigger] items[i])
}

} // verus!
