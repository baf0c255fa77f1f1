//! Transform rules: independent, composable rewrites applied to each
//! declaration of a parsed source file.
//!
//! Rule one injects the equality derive marker on every struct and enum.
//! Rule two injects metadata-driven serde attributes per field, resolved
//! against the schema index: 64-bit integer fields are serialized as numeric
//! strings, and enum-typed fields accept an uppercased string alias. A field
//! with no schema entry is skipped, non-fatally. Rule three renames symbols
//! listed in the clash-fix table and rewrites intra-module references. Rule
//! four prepends the standard import line.

use vstd::prelude::*;

use crate::decl;
use crate::decl::{FieldDecl, FieldDeclV, VariantDecl, VariantDeclV, StructDecl, StructDeclV,
    EnumDecl, EnumDeclV, SourceItem, SourceItemV};
use crate::schema;
use crate::schema::{SchemaSet, SchemaSetV};
use crate::text;

verus! {

/// The standard import line prepended to every file.
pub open spec fn spec_import_line() -> Seq<u8> {
    seq![117u8, 115u8, 101u8, 32u8, 111u8, 115u8, 109u8, 111u8, 115u8, 105u8, 115u8, 95u8, 115u8, 116u8, 100u8, 95u8, 100u8, 101u8, 114u8, 105u8, 118u8, 101u8, 58u8, 58u8, 67u8, 111u8, 115u8, 109u8, 119u8, 97u8, 115u8, 109u8, 69u8, 120u8, 116u8, 59u8]
}

pub fn import_line() -> (v: Vec<u8>)
    ensures
        v@ == spec_import_line(),
{
    let v: Vec<u8> = vec![117u8, 115u8, 101u8, 32u8, 111u8, 115u8, 109u8, 111u8, 115u8, 105u8, 115u8, 95u8, 115u8, 116u8, 100u8, 95u8, 100u8, 101u8, 114u8, 105u8, 118u8, 101u8, 58u8, 58u8, 67u8, 111u8, 115u8, 109u8, 119u8, 97u8, 115u8, 109u8, 69u8, 120u8, 116u8, 59u8];
    proof {
        assert(v@ =~= spec_import_line());
    }
    v
}

/// The equality derive marker.
pub open spec fn eq_derive() -> Seq<u8> {
    seq![69u8, 113u8]
}

pub fn eq_derive_bytes() -> (v: Vec<u8>)
    ensures
        v@ == eq_derive(),
{
    let v: Vec<u8> = vec![69u8, 113u8];
    proof {
        assert(v@ =~= eq_derive());
    }
    v
}

/// The attribute directing the serializer to encode a 64-bit integer field
/// as a numeric string.
pub open spec fn int64_attr() -> Seq<u8> {
    seq![35u8, 91u8, 115u8, 101u8, 114u8, 100u8, 101u8, 40u8, 115u8, 101u8, 114u8, 105u8, 97u8, 108u8, 105u8, 122u8, 101u8, 95u8, 119u8, 105u8, 116u8, 104u8, 32u8, 61u8, 32u8, 34u8, 99u8, 114u8, 97u8, 116u8, 101u8, 58u8, 58u8, 115u8, 101u8, 114u8, 100u8, 101u8, 58u8, 58u8, 97u8, 115u8, 95u8, 115u8, 116u8, 114u8, 58u8, 58u8, 115u8, 101u8, 114u8, 105u8, 97u8, 108u8, 105u8, 122u8, 101u8, 34u8, 44u8, 32u8, 100u8, 101u8, 115u8, 101u8, 114u8, 105u8, 97u8, 108u8, 105u8, 122u8, 101u8, 95u8, 119u8, 105u8, 116u8, 104u8, 32u8, 61u8, 32u8, 34u8, 99u8, 114u8, 97u8, 116u8, 101u8, 58u8, 58u8, 115u8, 101u8, 114u8, 100u8, 101u8, 58u8, 58u8, 97u8, 115u8, 95u8, 115u8, 116u8, 114u8, 58u8, 58u8, 100u8, 101u8, 115u8, 101u8, 114u8, 105u8, 97u8, 108u8, 105u8, 122u8, 101u8, 34u8, 41u8, 93u8]
}

pub fn int64_attr_bytes() -> (v: Vec<u8>)
    ensures
        v@ == int64_attr(),
{
    let v: Vec<u8> = vec![35u8, 91u8, 115u8, 101u8, 114u8, 100u8, 101u8, 40u8, 115u8, 101u8, 114u8, 105u8, 97u8, 108u8, 105u8, 122u8, 101u8, 95u8, 119u8, 105u8, 116u8, 104u8, 32u8, 61u8, 32u8, 34u8, 99u8, 114u8, 97u8, 116u8, 101u8, 58u8, 58u8, 115u8, 101u8, 114u8, 100u8, 101u8, 58u8, 58u8, 97u8, 115u8, 95u8, 115u8, 116u8, 114u8, 58u8, 58u8, 115u8, 101u8, 114u8, 105u8, 97u8, 108u8, 105u8, 122u8, 101u8, 34u8, 44u8, 32u8, 100u8, 101u8, 115u8, 101u8, 114u8, 105u8, 97u8, 108u8, 105u8, 122u8, 101u8, 95u8, 119u8, 105u8, 116u8, 104u8, 32u8, 61u8, 32u8, 34u8, 99u8, 114u8, 97u8, 116u8, 101u8, 58u8, 58u8, 115u8, 101u8, 114u8, 100u8, 101u8, 58u8, 58u8, 97u8, 115u8, 95u8, 115u8, 116u8, 114u8, 58u8, 58u8, 100u8, 101u8, 115u8, 101u8, 114u8, 105u8, 97u8, 108u8, 105u8, 122u8, 101u8, 34u8, 41u8, 93u8];
    proof {
        assert(v@ =~= int64_attr());
    }
    v
}

pub open spec fn alias_prefix() -> Seq<u8> {
    seq![35u8, 91u8, 115u8, 101u8, 114u8, 100u8, 101u8, 40u8, 97u8, 108u8, 105u8, 97u8, 115u8, 32u8, 61u8, 32u8, 34u8]
}

pub open spec fn alias_suffix() -> Seq<u8> {
    seq![34u8, 41u8, 93u8]
}

pub open spec fn to_upper(c: u8) -> u8 {
    if 97 <= c <= 122 {
        (c - 32) as u8
    } else {
        c
    }
}

pub open spec fn upper_of(s: Seq<u8>) -> Seq<u8> {
    Seq::new(s.len(), |i: int| to_upper(s[i]))
}

/// The attribute accepting an uppercased string alias during
/// deserialization.
pub open spec fn alias_attr(name: Seq<u8>) -> Seq<u8> {
    alias_prefix() + upper_of(name) + alias_suffix()
}

pub fn alias_attr_bytes(name: &Vec<u8>) -> (v: Vec<u8>)
    ensures
        v@ == alias_attr(name@),
{
    let mut v: Vec<u8> = vec![35u8, 91u8, 115u8, 101u8, 114u8, 100u8, 101u8, 40u8, 97u8, 108u8, 105u8, 97u8, 115u8, 32u8, 61u8, 32u8, 34u8];
    proof {
        assert(v@ =~= alias_prefix());
    }
    let mut i: usize = 0;
    while i < name.len()
        invariant
            0 <= i <= name@.len(),
            v@ == alias_prefix() + upper_of(name@).subrange(0, i as int),
        decreases name@.len() - i,
    {
        let c = name[i];
        let uc: u8 = if 97 <= c && c <= 122 {
            c - 32
        } else {
            c
        };
        proof {
            assert(uc == upper_of(name@)[i as int]);
            assert((alias_prefix() + upper_of(name@).subrange(0, i as int)).push(uc)
                =~= alias_prefix() + upper_of(name@).subrange(0, i + 1));
        }
        v.push(uc);
        i += 1;
    }
    proof {
        assert(upper_of(name@).subrange(0, upper_of(name@).len() as int) =~= upper_of(name@));
    }
    let suf: Vec<u8> = vec![34u8, 41u8, 93u8];
    proof {
        assert(suf@ =~= alias_suffix());
    }
    text::push_all(&mut v, &suf);
    v
}

/// Whether a list of byte strings contains the given one.
pub open spec fn contains_seq(ls: Seq<Seq<u8>>, x: Seq<u8>) -> bool {
    exists|i: int| 0 <= i < ls.len() && ls[i] == x
}

/// Derive injection: the equality marker is appended unless already
/// present.
pub open spec fn spec_add_eq_derive(ds: Seq<Seq<u8>>) -> Seq<Seq<u8>> {
    if contains_seq(ds, eq_derive()) {
        ds
    } else {
        ds.push(eq_derive())
    }
}

/// The metadata-driven attributes added to one struct field. A field with
/// no schema entry gets none.
pub open spec fn field_added_attrs(
    s: SchemaSetV,
    module: Seq<u8>,
    sname: Seq<u8>,
    fname: Seq<u8>,
) -> Seq<Seq<u8>> {
    match schema::spec_lookup_field(s, module, sname, fname) {
        Option::None => Seq::empty(),
        Option::Some(fs) => (if schema::is_int64_kind(fs.kind) {
            seq![int64_attr()]
        } else {
            Seq::<Seq<u8>>::empty()
        }) + (if fs.kind == schema::enum_kind() {
            seq![alias_attr(fname)]
        } else {
            Seq::<Seq<u8>>::empty()
        }),
    }
}

pub open spec fn spec_inject_field(
    s: SchemaSetV,
    module: Seq<u8>,
    sname: Seq<u8>,
    f: FieldDeclV,
) -> FieldDeclV {
    FieldDeclV {
        attrs: f.attrs + field_added_attrs(s, module, sname, f.name),
        name: f.name,
        ty: f.ty,
    }
}

pub open spec fn spec_inject_struct(s: SchemaSetV, module: Seq<u8>, st: StructDeclV) -> StructDeclV {
    StructDeclV {
        derives: spec_add_eq_derive(st.derives),
        attrs: st.attrs,
        name: st.name,
        fields: Seq::new(st.fields.len(), |i: int| spec_inject_field(s, module, st.name, st.fields[i])),
    }
}

/// The smaller rule set for enum variants: an uppercased alias where the
/// schema defines the variant with an explicit numeric discriminant.
pub open spec fn variant_added_attrs(
    s: SchemaSetV,
    module: Seq<u8>,
    ename: Seq<u8>,
    v: VariantDeclV,
) -> Seq<Seq<u8>> {
    if v.discr is Some && schema::spec_enum_has_value(s, module, ename, v.name) {
        seq![alias_attr(v.name)]
    } else {
        Seq::empty()
    }
}

pub open spec fn spec_inject_variant(
    s: SchemaSetV,
    module: Seq<u8>,
    ename: Seq<u8>,
    v: VariantDeclV,
) -> VariantDeclV {
    VariantDeclV {
        attrs: v.attrs + variant_added_attrs(s, module, ename, v),
        name: v.name,
        discr: v.discr,
    }
}

pub open spec fn spec_inject_enum(s: SchemaSetV, module: Seq<u8>, e: EnumDeclV) -> EnumDeclV {
    EnumDeclV {
        derives: spec_add_eq_derive(e.derives),
        attrs: e.attrs,
        name: e.name,
        variants: Seq::new(e.variants.len(), |i: int| spec_inject_variant(s, module, e.name, e.variants[i])),
    }
}

pub open spec fn spec_inject_item(s: SchemaSetV, module: Seq<u8>, it: SourceItemV) -> SourceItemV {
    match it {
        SourceItemV::Struct(st) => SourceItemV::Struct(spec_inject_struct(s, module, st)),
        SourceItemV::Enum(e) => SourceItemV::Enum(spec_inject_enum(s, module, e)),
        SourceItemV::Passthrough(l) => SourceItemV::Passthrough(l),
    }
}

/// One entry of the clash-fix table: inside the given module, the old
/// symbol name is replaced by the new one.
pub struct ClashFix {
    pub module: Vec<u8>,
    pub old_name: Vec<u8>,
    pub new_name: Vec<u8>,
}

pub struct ClashFixV {
    pub module: Seq<u8>,
    pub old_name: Seq<u8>,
    pub new_name: Seq<u8>,
}

impl View for ClashFix {
    type V = ClashFixV;

    open spec fn view(&self) -> ClashFixV {
        ClashFixV { module: self.module@, old_name: self.old_name@, new_name: self.new_name@ }
    }
}

pub open spec fn fixes_view(fs: Seq<ClashFix>) -> Seq<ClashFixV> {
    Seq::new(fs.len(), |i: int| fs[i]@)
}

/// An identifier occurrence of `old` at the front of `t`: the bytes match
/// and the following byte (if any) is not an identifier byte. The left
/// boundary is tracked by the caller.
pub open spec fn ident_match_front(t: Seq<u8>, old: Seq<u8>) -> bool {
    &&& t.len() >= old.len()
    &&& t.subrange(0, old.len() as int) == old
    &&& (t.len() == old.len() || !decl::is_ident_byte(t[old.len() as int]))
}

/// Replacement of whole-identifier occurrences of `old` by `new`, scanning
/// left to right; `prev` records whether the byte before the scan position
/// is an identifier byte.
pub open spec fn spec_replace_ident_aux(prev: bool, t: Seq<u8>, old: Seq<u8>, new: Seq<u8>) -> Seq<
    u8,
>
    decreases t.len(),
{
    if old.len() == 0 || t.len() == 0 {
        t
    } else if !prev && ident_match_front(t, old) {
        new + spec_replace_ident_aux(
            if new.len() > 0 {
                decl::is_ident_byte(new[new.len() - 1])
            } else {
                false
            },
            t.subrange(old.len() as int, t.len() as int),
            old,
            new,
        )
    } else {
        seq![t[0]] + spec_replace_ident_aux(
            decl::is_ident_byte(t[0]),
            t.subrange(1, t.len() as int),
            old,
            new,
        )
    }
}

pub open spec fn spec_replace_ident(t: Seq<u8>, old: Seq<u8>, new: Seq<u8>) -> Seq<u8> {
    spec_replace_ident_aux(false, t, old, new)
}

/// Replaces whole-identifier occurrences of `old` by `new`.
pub fn replace_ident(t: &Vec<u8>, old: &Vec<u8>, new: &Vec<u8>) -> (res: Vec<u8>)
    requires
        old@.len() > 0,
    ensures
        res@ == spec_replace_ident(t@, old@, new@),
{
    let mut out: Vec<u8> = Vec::new();
    let mut i: usize = 0;
    let mut prev: bool = false;
    proof {
        assert(t@.subrange(0, t@.len() as int) =~= t@);
        assert(Seq::<u8>::empty() + spec_replace_ident_aux(false, t@, old@, new@)
            =~= spec_replace_ident_aux(false, t@, old@, new@));
    }
    while i < t.len()
        invariant
            old@.len() > 0,
            0 <= i <= t@.len(),
            spec_replace_ident(t@, old@, new@) == out@ + spec_replace_ident_aux(
                prev,
                t@.subrange(i as int, t@.len() as int),
                old@,
                new@,
            ),
        decreases t@.len() - i,
    {
        let ghost rest = t@.subrange(i as int, t@.len() as int);
        let boundary_ok: bool = if text::is_match_at(t, old, i) {
            i + old.len() == t.len() || !decl::ident_byte(t[i + old.len()])
        } else {
            false
        };
        if !prev && boundary_ok {
            proof {
                assert(rest.subrange(0, old@.len() as int) =~= t@.subrange(
                    i as int,
                    i + old@.len(),
                ));
                assert(ident_match_front(rest, old@)) by {
                    if rest.len() > old@.len() {
                        assert(rest[old@.len() as int] == t@[i + old@.len()]);
                    }
                }
                assert(rest.subrange(old@.len() as int, rest.len() as int) =~= t@.subrange(
                    i + old@.len(),
                    t@.len() as int,
                ));
            }
            let ghost out0 = out@;
            text::push_all(&mut out, new);
            if new.len() > 0 {
                prev = decl::ident_byte(new[new.len() - 1]);
            } else {
                prev = false;
            }
            i = i + old.len();
            proof {
                let tail = spec_replace_ident_aux(
                    prev,
                    t@.subrange(i as int, t@.len() as int),
                    old@,
                    new@,
                );
                assert((out0 + new@) + tail =~= out0 + (new@ + tail));
            }
        } else {
            proof {
                assert(!(!prev && ident_match_front(rest, old@))) by {
                    if !prev && ident_match_front(rest, old@) {
                        assert(rest.subrange(0, old@.len() as int) =~= t@.subrange(
                            i as int,
                            i + old@.len(),
                        ));
                        assert(text::match_at(t@, old@, i as int));
                        if rest.len() > old@.len() {
                            assert(rest[old@.len() as int] == t@[i + old@.len()]);
                        }
                    }
                }
                assert(rest[0] == t@[i as int]);
                assert(rest.subrange(1, rest.len() as int) =~= t@.subrange(i + 1, t@.len() as int));
            }
            let ghost out0 = out@;
            let c = t[i];
            out.push(c);
            prev = decl::ident_byte(c);
            i += 1;
            proof {
                let tail = spec_replace_ident_aux(
                    prev,
                    t@.subrange(i as int, t@.len() as int),
                    old@,
                    new@,
                );
                assert(out0.push(c) + tail =~= out0 + (seq![c] + tail));
            }
        }
    }
    proof {
        assert(t@.subrange(i as int, t@.len() as int) =~= Seq::<u8>::empty());
        assert(out@ + spec_replace_ident_aux(prev, Seq::<u8>::empty(), old@, new@) =~= out@);
    }
    out
}

/// One clash fix applied to a struct declaration: the declaration is
/// renamed when it carries the old name, and every reference inside field
/// types is rewritten.
pub open spec fn spec_apply_fix_struct(fix: ClashFixV, st: StructDeclV) -> StructDeclV {
    StructDeclV {
        derives: st.derives,
        attrs: st.attrs,
        name: if st.name == fix.old_name {
            fix.new_name
        } else {
            st.name
        },
        fields: Seq::new(
            st.fields.len(),
            |i: int|
                FieldDeclV {
                    attrs: st.fields[i].attrs,
                    name: st.fields[i].name,
                    ty: spec_replace_ident(st.fields[i].ty, fix.old_name, fix.new_name),
                },
        ),
    }
}

pub open spec fn spec_apply_fix_enum(fix: ClashFixV, e: EnumDeclV) -> EnumDeclV {
    EnumDeclV {
        derives: e.derives,
        attrs: e.attrs,
        name: if e.name == fix.old_name {
            fix.new_name
        } else {
            e.name
        },
        variants: e.variants,
    }
}

/// One clash fix applied to an item: only fixes of this module apply, and
/// passthrough items are opaque.
pub open spec fn spec_apply_fix_item(fix: ClashFixV, module: Seq<u8>, it: SourceItemV) -> SourceItemV {
    if fix.module != module {
        it
    } else {
        match it {
            SourceItemV::Struct(st) => SourceItemV::Struct(spec_apply_fix_struct(fix, st)),
            SourceItemV::Enum(e) => SourceItemV::Enum(spec_apply_fix_enum(fix, e)),
            SourceItemV::Passthrough(l) => SourceItemV::Passthrough(l),
        }
    }
}

/// The whole clash-fix table applied in order.
pub open spec fn spec_apply_fixes_item(
    fixes: Seq<ClashFixV>,
    module: Seq<u8>,
    it: SourceItemV,
) -> SourceItemV
    decreases fixes.len(),
{
    if fixes.len() == 0 {
        it
    } else {
        spec_apply_fixes_item(
            fixes.subrange(1, fixes.len() as int),
            module,
            spec_apply_fix_item(fixes[0], module, it),
        )
    }
}

/// One declaration fully transformed: derive injection and attribute
/// injection first, then the clash-fix table.
pub open spec fn spec_transform_item(
    s: SchemaSetV,
    module: Seq<u8>,
    fixes: Seq<ClashFixV>,
    it: SourceItemV,
) -> SourceItemV {
    spec_apply_fixes_item(fixes, module, spec_inject_item(s, module, it))
}

/// A whole file's items transformed: the standard import line prepended,
/// and every item rewritten.
pub open spec fn spec_transform_items(
    s: SchemaSetV,
    module: Seq<u8>,
    fixes: Seq<ClashFixV>,
    items: Seq<SourceItemV>,
) -> Seq<SourceItemV> {
    seq![SourceItemV::Passthrough(spec_import_line())] + Seq::new(
        items.len(),
        |i: int| spec_transform_item(s, module, fixes, items[i]),
    )
}

/// Copies a list of byte strings.
pub fn clone_lines(v: &Vec<Vec<u8>>) -> (res: Vec<Vec<u8>>)
    ensures
        text::view2(res@) == text::view2(v@),
{
    let mut out: Vec<Vec<u8>> = Vec::new();
    let mut i: usize = 0;
    while i < v.len()
        invariant
            0 <= i <= v@.len(),
            out@.len() == i,
            forall|j: int| 0 <= j < i ==> (#[trigger] out@[j])@ == v@[j]@,
        decreases v@.len() - i,
    {
        out.push(crate::preprocess::clone_bytes(&v[i]));
        i += 1;
    }
    proof {
        assert(text::view2(out@) =~= text::view2(v@));
    }
    out
}

/// Appends the equality derive marker unless it is already present.
fn add_eq_derive(ds: &mut Vec<Vec<u8>>)
    ensures
        text::view2(final(ds)@) == spec_add_eq_derive(text::view2(old(ds)@)),
{
    let eqd = eq_derive_bytes();
    let ghost dv = text::view2(ds@);
    let mut i: usize = 0;
    while i < ds.len()
        invariant
            dv == text::view2(ds@),
            eqd@ == eq_derive(),
            0 <= i <= ds@.len(),
            forall|j: int| 0 <= j < i ==> (#[trigger] dv[j]) != eq_derive(),
        decreases ds@.len() - i,
    {
        if text::eq_bytes(&ds[i], &eqd) {
            proof {
                assert(dv[i as int] == eq_derive());
                assert(contains_seq(dv, eq_derive()));
            }
            return ;
        }
        i += 1;
    }
    proof {
        assert(!contains_seq(dv, eq_derive())) by {
            if contains_seq(dv, eq_derive()) {
                let j = choose|j: int| 0 <= j < dv.len() && dv[j] == eq_derive();
            }
        }
    }
    ds.push(eqd);
    proof {
        assert(text::view2(ds@) =~= dv.push(eq_derive()));
    }
}

/// Derive and attribute injection for one struct.
pub fn inject_struct(st: StructDecl, module: &Vec<u8>, s: &SchemaSet) -> (res: StructDecl)
    ensures
        res@ == spec_inject_struct(s@, module@, st@),
{
    let ghost stv = st@;
    let StructDecl { mut derives, attrs, name, fields } = st;
    add_eq_derive(&mut derives);
    let mut fsrc = fields;
    let mut out_fields: Vec<FieldDecl> = Vec::new();
    let total: usize = fsrc.len();
    let mut taken: usize = 0;
    while fsrc.len() > 0
        invariant
            total == stv.fields.len(),
            taken + fsrc@.len() == total,
            name@ == stv.name,
            forall|j: int|
                0 <= j < fsrc@.len() ==> (#[trigger] fsrc@[j])@ == stv.fields[taken + j],
            out_fields@.len() == taken,
            forall|j: int|
                0 <= j < taken ==> (#[trigger] out_fields@[j])@ == spec_inject_field(
                    s@,
                    module@,
                    stv.name,
                    stv.fields[j],
                ),
        decreases fsrc@.len(),
    {
        let ghost fsv = fsrc@;
        let f = fsrc.remove(0);
        proof {
            assert(f@ == stv.fields[taken as int]);
            assert(fsrc@ =~= fsv.subrange(1, fsv.len() as int));
        }
        let FieldDecl { attrs: mut fattrs, name: fname, ty } = f;
        let ghost fv = stv.fields[taken as int];
        let ghost fattrs0 = text::view2(fattrs@);
        match schema::field_kind(s, module, &name, &fname) {
            Option::None => {
                proof {
                    assert(field_added_attrs(s@, module@, stv.name, fv.name) =~= Seq::<
                        Seq<u8>,
                    >::empty());
                    assert(fattrs0 + Seq::<Seq<u8>>::empty() =~= fattrs0);
                }
            },
            Option::Some(k) => {
                let ghost added = field_added_attrs(s@, module@, stv.name, fv.name);
                if schema::int64_kind(k) {
                    let a = int64_attr_bytes();
                    fattrs.push(a);
                }
                if k == 14 {
                    let b = alias_attr_bytes(&fname);
                    fattrs.push(b);
                }
                proof {
                    assert(text::view2(fattrs@) =~= fattrs0 + added);
                }
            },
        }
        out_fields.push(FieldDecl { attrs: fattrs, name: fname, ty: ty });
        taken += 1;
        proof {
            assert(out_fields@[taken - 1]@ =~= spec_inject_field(
                s@,
                module@,
                stv.name,
                stv.fields[taken - 1],
            ));
        }
    }
    let res = StructDecl { derives: derives, attrs: attrs, name: name, fields: out_fields };
    proof {
        assert(res@ =~= spec_inject_struct(s@, module@, stv)) by {
            assert(res@.fields =~= spec_inject_struct(s@, module@, stv).fields);
            assert(res@.derives =~= spec_inject_struct(s@, module@, stv).derives);
            assert(res@.attrs =~= spec_inject_struct(s@, module@, stv).attrs);
        }
    }
    res
}

/// Derive and attribute injection for one enum.
pub fn inject_enum(e: EnumDecl, module: &Vec<u8>, s: &SchemaSet) -> (res: EnumDecl)
    ensures
        res@ == spec_inject_enum(s@, module@, e@),
{
    let ghost ev = e@;
    let EnumDecl { mut derives, attrs, name, variants } = e;
    add_eq_derive(&mut derives);
    let mut vsrc = variants;
    let mut out_variants: Vec<VariantDecl> = Vec::new();
    let total: usize = vsrc.len();
    let mut taken: usize = 0;
    while vsrc.len() > 0
        invariant
            total == ev.variants.len(),
            taken + vsrc@.len() == total,
            name@ == ev.name,
            forall|j: int|
                0 <= j < vsrc@.len() ==> (#[trigger] vsrc@[j])@ == ev.variants[taken + j],
            out_variants@.len() == taken,
            forall|j: int|
                0 <= j < taken ==> (#[trigger] out_variants@[j])@ == spec_inject_variant(
                    s@,
                    module@,
                    ev.name,
                    ev.variants[j],
                ),
        decreases vsrc@.len(),
    {
        let ghost vsv = vsrc@;
        let v = vsrc.remove(0);
        proof {
            assert(v@ == ev.variants[taken as int]);
            assert(vsrc@ =~= vsv.subrange(1, vsv.len() as int));
        }
        let VariantDecl { attrs: mut vattrs, name: vname, discr } = v;
        let ghost vv = ev.variants[taken as int];
        let ghost vattrs0 = text::view2(vattrs@);
        let has_discr = discr.is_some();
        if has_discr && schema::enum_value_defined(s, module, &name, &vname) {
            let b = alias_attr_bytes(&vname);
            vattrs.push(b);
            proof {
                assert(variant_added_attrs(s@, module@, ev.name, vv) =~= seq![alias_attr(vv.name)]);
                assert(text::view2(vattrs@) =~= vattrs0 + variant_added_attrs(
                    s@,
                    module@,
                    ev.name,
                    vv,
                ));
            }
        } else {
            proof {
                assert(variant_added_attrs(s@, module@, ev.name, vv) =~= Seq::<Seq<u8>>::empty());
                assert(vattrs0 + Seq::<Seq<u8>>::empty() =~= vattrs0);
            }
        }
        out_variants.push(VariantDecl { attrs: vattrs, name: vname, discr: discr });
        taken += 1;
        proof {
            assert(out_variants@[taken - 1]@ =~= spec_inject_variant(
                s@,
                module@,
                ev.name,
                ev.variants[taken - 1],
            ));
        }
    }
    let res = EnumDecl { derives: derives, attrs: attrs, name: name, variants: out_variants };
    proof {
        assert(res@ =~= spec_inject_enum(s@, module@, ev)) by {
            assert(res@.variants =~= spec_inject_enum(s@, module@, ev).variants);
            assert(res@.derives =~= spec_inject_enum(s@, module@, ev).derives);
            assert(res@.attrs =~= spec_inject_enum(s@, module@, ev).attrs);
        }
    }
    res
}

/// One clash fix applied to a struct.
fn apply_fix_struct(fix: &ClashFix, st: StructDecl) -> (res: StructDecl)
    ensures
        res@ == spec_apply_fix_struct(fix@, st@),
{
    let ghost stv = st@;
    let StructDecl { derives, attrs, name, fields } = st;
    let new_name: Vec<u8> = if text::eq_bytes(&name, &fix.old_name) {
        crate::preprocess::clone_bytes(&fix.new_name)
    } else {
        name
    };
    let mut fsrc = fields;
    let mut out_fields: Vec<FieldDecl> = Vec::new();
    let total: usize = fsrc.len();
    let mut taken: usize = 0;
    while fsrc.len() > 0
        invariant
            total == stv.fields.len(),
            taken + fsrc@.len() == total,
            forall|j: int|
                0 <= j < fsrc@.len() ==> (#[trigger] fsrc@[j])@ == stv.fields[taken + j],
            out_fields@.len() == taken,
            forall|j: int|
                0 <= j < taken ==> (#[trigger] out_fields@[j])@ == (FieldDeclV {
                    attrs: stv.fields[j].attrs,
                    name: stv.fields[j].name,
                    ty: spec_replace_ident(stv.fields[j].ty, fix@.old_name, fix@.new_name),
                }),
        decreases fsrc@.len(),
    {
        let ghost fsv = fsrc@;
        let f = fsrc.remove(0);
        proof {
            assert(f@ == stv.fields[taken as int]);
            assert(fsrc@ =~= fsv.subrange(1, fsv.len() as int));
        }
        let FieldDecl { attrs: fattrs, name: fname, ty } = f;
        let new_ty: Vec<u8> = if fix.old_name.len() > 0 {
            replace_ident(&ty, &fix.old_name, &fix.new_name)
        } else {
            ty
        };
        out_fields.push(FieldDecl { attrs: fattrs, name: fname, ty: new_ty });
        taken += 1;
    }
    let res = StructDecl { derives: derives, attrs: attrs, name: new_name, fields: out_fields };
    proof {
        assert(res@ =~= spec_apply_fix_struct(fix@, stv)) by {
            assert(res@.fields =~= spec_apply_fix_struct(fix@, stv).fields);
        }
    }
    res
}

/// One clash fix applied to an enum.
fn apply_fix_enum(fix: &ClashFix, e: EnumDecl) -> (res: EnumDecl)
    ensures
        res@ == spec_apply_fix_enum(fix@, e@),
{
    let EnumDecl { derives, attrs, name, variants } = e;
    let new_name: Vec<u8> = if text::eq_bytes(&name, &fix.old_name) {
        crate::preprocess::clone_bytes(&fix.new_name)
    } else {
        name
    };
    EnumDecl { derives: derives, attrs: attrs, name: new_name, variants: variants }
}

/// One clash fix applied to an item.
fn apply_fix_item(fix: &ClashFix, module: &Vec<u8>, it: SourceItem) -> (res: SourceItem)
    ensures
        res@ == spec_apply_fix_item(fix@, module@, it@),
{
    if !text::eq_bytes(&fix.module, module) {
        return it;
    }
    match it {
        SourceItem::Struct(st) => SourceItem::Struct(apply_fix_struct(fix, st)),
        SourceItem::Enum(e) => SourceItem::Enum(apply_fix_enum(fix, e)),
        SourceItem::Passthrough(l) => SourceItem::Passthrough(l),
    }
}

/// The whole clash-fix table applied in order to one item.
pub fn apply_fixes_item(fixes: &Vec<ClashFix>, module: &Vec<u8>, it: SourceItem) -> (res: SourceItem)
    ensures
        res@ == spec_apply_fixes_item(fixes_view(fixes@), module@, it@),
{
    let ghost fv = fixes_view(fixes@);
    let ghost it0 = it@;
    let mut cur = it;
    let mut i: usize = 0;
    proof {
        assert(fv.subrange(0, fv.len() as int) =~= fv);
    }
    while i < fixes.len()
        invariant
            fv == fixes_view(fixes@),
            0 <= i <= fixes@.len(),
            spec_apply_fixes_item(fv, module@, it0) == spec_apply_fixes_item(
                fv.subrange(i as int, fv.len() as int),
                module@,
                cur@,
            ),
        decreases fixes@.len() - i,
    {
        proof {
            let tail = fv.subrange(i as int, fv.len() as int);
            assert(tail[0] == fv[i as int]);
            assert(tail.subrange(1, tail.len() as int) =~= fv.subrange(i + 1, fv.len() as int));
        }
        cur = apply_fix_item(&fixes[i], module, cur);
        i += 1;
    }
    proof {
        assert(fv.subrange(i as int, fv.len() as int) =~= Seq::<ClashFixV>::empty());
    }
    cur
}

/// Injection rules applied to one item.
pub fn inject_item(it: SourceItem, module: &Vec<u8>, s: &SchemaSet) -> (res: SourceItem)
    ensures
        res@ == spec_inject_item(s@, module@, it@),
{
    match it {
        SourceItem::Struct(st) => SourceItem::Struct(inject_struct(st, module, s)),
        SourceItem::Enum(e) => SourceItem::Enum(inject_enum(e, module, s)),
        SourceItem::Passthrough(l) => SourceItem::Passthrough(l),
    }
}

/// One item fully transformed.
pub fn transform_item(it: SourceItem, module: &Vec<u8>, s: &SchemaSet, fixes: &Vec<ClashFix>) -> (res:
    SourceItem)
    ensures
        res@ == spec_transform_item(s@, module@, fixes_view(fixes@), it@),
{
    let injected = inject_item(it, module, s);
    apply_fixes_item(fixes, module, injected)
}

/// A whole file's items transformed: the ordered rules applied to every
/// declaration, and the standard import line prepended.
pub fn transform_items(
    items: Vec<SourceItem>,
    module: &Vec<u8>,
    s: &SchemaSet,
    fixes: &Vec<ClashFix>,
) -> (res: Vec<SourceItem>)
    ensures
        decl::items_view(res@) == spec_transform_items(
            s@,
            module@,
            fixes_view(fixes@),
            decl::items_view(items@),
        ),
{
    let ghost iv = decl::items_view(items@);
    let mut out: Vec<SourceItem> = Vec::new();
    out.push(SourceItem::Passthrough(import_line()));
    let mut src = items;
    let total: usize = src.len();
    let mut taken: usize = 0;
    while src.len() > 0
        invariant
            total == iv.len(),
            taken + src@.len() == total,
            forall|j: int| 0 <= j < src@.len() ==> (#[trigger] src@[j])@ == iv[taken + j],
            out@.len() == taken + 1,
            out@[0]@ == SourceItemV::Passthrough(spec_import_line()),
            forall|j: int|
                1 <= j < taken + 1 ==> (#[trigger] out@[j])@ == spec_transform_item(
                    s@,
                    module@,
                    fixes_view(fixes@),
                    iv[j - 1],
                ),
        decreases src@.len(),
    {
        let ghost sv = src@;
        let it = src.remove(0);
        proof {
            assert(it@ == iv[taken as int]);
            assert(src@ =~= sv.subrange(1, sv.len() as int));
        }
        let t = transform_item(it, module, s, fixes);
        out.push(t);
        taken += 1;
    }
    proof {
        assert(decl::items_view(out@) =~= spec_transform_items(
            s@,
            module@,
            fixes_view(fixes@),
            iv,
        ));
    }
    out
}

/// Descriptor-driven attribute correctness: after injection, a struct field
/// carries the string-encoding attribute exactly when the schema gives the
/// field one of the 64-bit integer wire kinds. (The raw generated field is
/// assumed not to carry the attribute already.)
pub proof fn lemma_int64_attr_iff(s: SchemaSetV, module: Seq<u8>, st: StructDeclV, i: int)
    requires
        0 <= i < st.fields.len(),
        !contains_seq(st.fields[i].attrs, int64_attr()),
    ensures
        contains_seq(spec_inject_struct(s, module, st).fields[i].attrs, int64_attr()) <==> (
        schema::spec_lookup_field(s, module, st.name, st.fields[i].name) is Some
            && schema::is_int64_kind(
            schema::spec_lookup_field(s, module, st.name, st.fields[i].name)->Some_0.kind,
        )),
{
    let f = st.fields[i];
    let added = field_added_attrs(s, module, st.name, f.name);
    assert(spec_inject_struct(s, module, st).fields[i] == spec_inject_field(
        s,
        module,
        st.name,
        f,
    ));
    let f2a = f.attrs + added;
    assert(alias_attr(f.name) != int64_attr()) by {
        assert(alias_attr(f.name)[8] == alias_prefix()[8]);
        assert(alias_prefix()[8] == 97u8);
        assert(int64_attr()[8] == 115u8);
    }
    match schema::spec_lookup_field(s, module, st.name, f.name) {
        Option::None => {
            assert(added =~= Seq::<Seq<u8>>::empty());
            assert(f2a =~= f.attrs);
        },
        Option::Some(fs) => {
            if schema::is_int64_kind(fs.kind) {
                assert(added[0] == int64_attr());
                assert(f2a[f.attrs.len() as int] == int64_attr());
                assert(contains_seq(f2a, int64_attr()));
            } else {
                assert(!contains_seq(f2a, int64_attr())) by {
                    if contains_seq(f2a, int64_attr()) {
                        let k = choose|k: int| 0 <= k < f2a.len() && f2a[k] == int64_attr();
                        if k < f.attrs.len() {
                            assert(f.attrs[k] == int64_attr());
                        } else {
                            assert(added[k - f.attrs.len()] == int64_attr());
                            assert(added.len() <= 1);
                            if added.len() == 1 {
                                assert(added[0] == alias_attr(f.name));
                            }
                        }
                    }
                }
            }
        },
    }
}

/// Descriptor-driven attribute correctness through the whole transform:
/// clash fixes touch no attribute list, so the equivalence holds of the
/// fully transformed declaration too.
pub proof fn lemma_transform_int64_attr(
    s: SchemaSetV,
    module: Seq<u8>,
    fixes: Seq<ClashFixV>,
    st: StructDeclV,
    i: int,
)
    requires
        0 <= i < st.fields.len(),
        !contains_seq(st.fields[i].attrs, int64_attr()),
    ensures
        contains_seq(
            spec_transform_item(s, module, fixes, SourceItemV::Struct(st))->Struct_0.fields[i].attrs,
            int64_attr(),
        ) <==> (schema::spec_lookup_field(s, module, st.name, st.fields[i].name) is Some
            && schema::is_int64_kind(
            schema::spec_lookup_field(s, module, st.name, st.fields[i].name)->Some_0.kind,
        )),
{
    lemma_int64_attr_iff(s, module, st, i);
    let mid = spec_inject_item(s, module, SourceItemV::Struct(st));
    lemma_fixes_keep_shape(fixes, module, mid);
    assert(spec_transform_item(s, module, fixes, SourceItemV::Struct(st))->Struct_0.fields[i].attrs
        == mid->Struct_0.fields[i].attrs);
}

/// The name a declaration ends with, for clash reasoning.
pub open spec fn item_name(it: SourceItemV) -> Seq<u8> {
    match it {
        SourceItemV::Struct(st) => st.name,
        SourceItemV::Enum(e) => e.name,
        SourceItemV::Passthrough(_l) => Seq::empty(),
    }
}

pub open spec fn fix_name_step(fix: ClashFixV, module: Seq<u8>, nm: Seq<u8>) -> Seq<u8> {
    if fix.module == module && nm == fix.old_name {
        fix.new_name
    } else {
        nm
    }
}

pub open spec fn spec_fold_name(fixes: Seq<ClashFixV>, module: Seq<u8>, nm: Seq<u8>) -> Seq<u8>
    decreases fixes.len(),
{
    if fixes.len() == 0 {
        nm
    } else {
        spec_fold_name(
            fixes.subrange(1, fixes.len() as int),
            module,
            fix_name_step(fixes[0], module, nm),
        )
    }
}

/// The clash-fix table renames a declaration exactly as the name fold says.
pub proof fn lemma_fold_name(fixes: Seq<ClashFixV>, module: Seq<u8>, it: SourceItemV)
    requires
        it is Struct || it is Enum,
    ensures
        item_name(spec_apply_fixes_item(fixes, module, it)) == spec_fold_name(
            fixes,
            module,
            item_name(it),
        ),
        spec_apply_fixes_item(fixes, module, it) is Struct <==> it is Struct,
        spec_apply_fixes_item(fixes, module, it) is Enum <==> it is Enum,
    decreases fixes.len(),
{
    if fixes.len() == 0 {
    } else {
        let it1 = spec_apply_fix_item(fixes[0], module, it);
        assert(item_name(it1) == fix_name_step(fixes[0], module, item_name(it)));
        lemma_fold_name(fixes.subrange(1, fixes.len() as int), module, it1);
    }
}

/// A name no table entry targets is left unchanged by the fold.
pub proof fn lemma_fold_name_stable(fixes: Seq<ClashFixV>, module: Seq<u8>, nm: Seq<u8>)
    requires
        forall|j: int|
            0 <= j < fixes.len() ==> !((#[trigger] fixes[j]).module == module && fixes[j].old_name
                == nm),
    ensures
        spec_fold_name(fixes, module, nm) == nm,
    decreases fixes.len(),
{
    if fixes.len() == 0 {
    } else {
        assert(fix_name_step(fixes[0], module, nm) == nm);
        let rest = fixes.subrange(1, fixes.len() as int);
        assert(forall|j: int| 0 <= j < rest.len() ==> rest[j] == fixes[j + 1]);
        lemma_fold_name_stable(rest, module, nm);
    }
}

/// With a single matching entry whose replacement no later entry targets,
/// the fold renames to exactly that replacement.
pub proof fn lemma_fold_name_unique(fixes: Seq<ClashFixV>, module: Seq<u8>, nm: Seq<u8>, i: int)
    requires
        0 <= i < fixes.len(),
        fixes[i].module == module,
        fixes[i].old_name == nm,
        forall|j: int|
            0 <= j < i ==> !((#[trigger] fixes[j]).module == module && fixes[j].old_name == nm),
        forall|j: int|
            i < j < fixes.len() ==> !((#[trigger] fixes[j]).module == module && fixes[j].old_name
                == fixes[i].new_name),
    ensures
        spec_fold_name(fixes, module, nm) == fixes[i].new_name,
    decreases fixes.len(),
{
    let rest = fixes.subrange(1, fixes.len() as int);
    assert(forall|j: int| 0 <= j < rest.len() ==> rest[j] == fixes[j + 1]);
    if i == 0 {
        assert(fix_name_step(fixes[0], module, nm) == fixes[0].new_name);
        lemma_fold_name_stable(rest, module, fixes[0].new_name);
    } else {
        assert(fix_name_step(fixes[0], module, nm) == nm);
        lemma_fold_name_unique(rest, module, nm, i - 1);
    }
}

/// Clash resolution closure: two modules that each declare a symbol with
/// the same name listed in the table (with distinct replacements, and no
/// other entry interfering) end up with distinct names after
/// transformation.
pub proof fn lemma_clash_resolution(
    fixes: Seq<ClashFixV>,
    m1: Seq<u8>,
    m2: Seq<u8>,
    nm: Seq<u8>,
    i1: int,
    i2: int,
    it1: SourceItemV,
    it2: SourceItemV,
)
    requires
        it1 is Struct || it1 is Enum,
        it2 is Struct || it2 is Enum,
        item_name(it1) == nm,
        item_name(it2) == nm,
        0 <= i1 < fixes.len(),
        fixes[i1].module == m1,
        fixes[i1].old_name == nm,
        0 <= i2 < fixes.len(),
        fixes[i2].module == m2,
        fixes[i2].old_name == nm,
        fixes[i1].new_name != fixes[i2].new_name,
        forall|j: int|
            0 <= j < i1 ==> !((#[trigger] fixes[j]).module == m1 && fixes[j].old_name == nm),
        forall|j: int|
            i1 < j < fixes.len() ==> !((#[trigger] fixes[j]).module == m1 && fixes[j].old_name
                == fixes[i1].new_name),
        forall|j: int|
            0 <= j < i2 ==> !((#[trigger] fixes[j]).module == m2 && fixes[j].old_name == nm),
        forall|j: int|
            i2 < j < fixes.len() ==> !((#[trigger] fixes[j]).module == m2 && fixes[j].old_name
                == fixes[i2].new_name),
    ensures
        item_name(spec_apply_fixes_item(fixes, m1, it1)) == fixes[i1].new_name,
        item_name(spec_apply_fixes_item(fixes, m2, it2)) == fixes[i2].new_name,
        item_name(spec_apply_fixes_item(fixes, m1, it1)) != item_name(
            spec_apply_fixes_item(fixes, m2, it2),
        ),
{
    lemma_fold_name(fixes, m1, it1);
    lemma_fold_name_unique(fixes, m1, nm, i1);
    lemma_fold_name(fixes, m2, it2);
    lemma_fold_name_unique(fixes, m2, nm, i2);
}

/// One byte-string list is a prefix of another.
pub open spec fn lines_prefix(a: Seq<Seq<u8>>, b: Seq<Seq<u8>>) -> bool {
    a.len() <= b.len() && a == b.subrange(0, a.len() as int)
}

/// What transformation may change about one declaration, and nothing else:
/// the kind is kept; fields and variants keep their count, order, names and
/// discriminants; attribute and derive lists only grow at the end; the
/// declared name becomes exactly what the clash-fix table folds it to; a
/// passthrough item is untouched.
pub open spec fn shape_preserved(
    fixes: Seq<ClashFixV>,
    module: Seq<u8>,
    a: SourceItemV,
    b: SourceItemV,
) -> bool {
    match a {
        SourceItemV::Passthrough(_l) => b == a,
        SourceItemV::Struct(sa) => {
            &&& b is Struct
            &&& b->Struct_0.name == spec_fold_name(fixes, module, sa.name)
            &&& b->Struct_0.attrs == sa.attrs
            &&& lines_prefix(sa.derives, b->Struct_0.derives)
            &&& b->Struct_0.fields.len() == sa.fields.len()
            &&& forall|j: int|
                0 <= j < sa.fields.len() ==> (#[trigger] b->Struct_0.fields[j]).name
                    == sa.fields[j].name
            &&& forall|j: int|
                0 <= j < sa.fields.len() ==> lines_prefix(
                    (#[trigger] sa.fields[j]).attrs,
                    b->Struct_0.fields[j].attrs,
                )
        },
        SourceItemV::Enum(ea) => {
            &&& b is Enum
            &&& b->Enum_0.name == spec_fold_name(fixes, module, ea.name)
            &&& b->Enum_0.attrs == ea.attrs
            &&& lines_prefix(ea.derives, b->Enum_0.derives)
            &&& b->Enum_0.variants.len() == ea.variants.len()
            &&& forall|j: int|
                0 <= j < ea.variants.len() ==> (#[trigger] b->Enum_0.variants[j]).name
                    == ea.variants[j].name && b->Enum_0.variants[j].discr == ea.variants[j].discr
            &&& forall|j: int|
                0 <= j < ea.variants.len() ==> lines_prefix(
                    (#[trigger] ea.variants[j]).attrs,
                    b->Enum_0.variants[j].attrs,
                )
        },
    }
}

/// The clash-fix table changes only names and type references: field and
/// variant attribute lists, derive lists and struct attributes stay equal,
/// and the name follows the fold.
pub proof fn lemma_fixes_keep_shape(fixes: Seq<ClashFixV>, module: Seq<u8>, it: SourceItemV)
    ensures
        shape_preserved(fixes, module, it, spec_apply_fixes_item(fixes, module, it)),
        it is Struct ==> forall|j: int|
            0 <= j < it->Struct_0.fields.len() ==> (#[trigger] spec_apply_fixes_item(
                fixes,
                module,
                it,
            )->Struct_0.fields[j]).attrs == it->Struct_0.fields[j].attrs,
        it is Struct ==> spec_apply_fixes_item(fixes, module, it)->Struct_0.derives
            == it->Struct_0.derives,
        it is Enum ==> spec_apply_fixes_item(fixes, module, it)->Enum_0.variants
            == it->Enum_0.variants,
        it is Enum ==> spec_apply_fixes_item(fixes, module, it)->Enum_0.derives
            == it->Enum_0.derives,
    decreases fixes.len(),
{
    if fixes.len() == 0 {
        match it {
            SourceItemV::Struct(sa) => {
                assert(lines_prefix(sa.derives, sa.derives)) by {
                    assert(sa.derives.subrange(0, sa.derives.len() as int) =~= sa.derives);
                }
                assert(forall|j: int|
                    0 <= j < sa.fields.len() ==> lines_prefix(
                        (#[trigger] sa.fields[j]).attrs,
                        sa.fields[j].attrs,
                    )) by {
                    assert forall|j: int| 0 <= j < sa.fields.len() implies lines_prefix(
                        (#[trigger] sa.fields[j]).attrs,
                        sa.fields[j].attrs,
                    ) by {
                        assert(sa.fields[j].attrs.subrange(0, sa.fields[j].attrs.len() as int)
                            =~= sa.fields[j].attrs);
                    }
                }
            },
            SourceItemV::Enum(ea) => {
                assert(lines_prefix(ea.derives, ea.derives)) by {
                    assert(ea.derives.subrange(0, ea.derives.len() as int) =~= ea.derives);
                }
                assert forall|j: int| 0 <= j < ea.variants.len() implies lines_prefix(
                    (#[trigger] ea.variants[j]).attrs,
                    ea.variants[j].attrs,
                ) by {
                    assert(ea.variants[j].attrs.subrange(0, ea.variants[j].attrs.len() as int)
                        =~= ea.variants[j].attrs);
                }
            },
            SourceItemV::Passthrough(_l) => {},
        }
    } else {
        let it1 = spec_apply_fix_item(fixes[0], module, it);
        let rest = fixes.subrange(1, fixes.len() as int);
        lemma_fixes_keep_shape(rest, module, it1);
        match it {
            SourceItemV::Struct(sa) => {
                assert(it1 is Struct);
                assert(it1->Struct_0.name == fix_name_step(fixes[0], module, sa.name));
                assert(it1->Struct_0.fields.len() == sa.fields.len());
                assert(forall|j: int|
                    0 <= j < sa.fields.len() ==> (#[trigger] it1->Struct_0.fields[j]).name
                        == sa.fields[j].name && it1->Struct_0.fields[j].attrs
                        == sa.fields[j].attrs);
            },
            SourceItemV::Enum(ea) => {
                assert(it1 is Enum);
                assert(it1->Enum_0.variants == ea.variants);
            },
            SourceItemV::Passthrough(_l) => {
                assert(it1 == it);
            },
        }
    }
}

/// Injection adds attributes and derives only at the end of the lists and
/// changes nothing else.
pub proof fn lemma_inject_keeps_shape(s: SchemaSetV, module: Seq<u8>, it: SourceItemV)
    ensures
        shape_preserved(Seq::empty(), module, it, spec_inject_item(s, module, it)),
{
    match it {
        SourceItemV::Struct(sa) => {
            let sb = spec_inject_struct(s, module, sa);
            assert(lines_prefix(sa.derives, sb.derives)) by {
                if contains_seq(sa.derives, eq_derive()) {
                    assert(sa.derives.subrange(0, sa.derives.len() as int) =~= sa.derives);
                } else {
                    assert(sa.derives.push(eq_derive()).subrange(0, sa.derives.len() as int)
                        =~= sa.derives);
                }
            }
            assert forall|j: int| 0 <= j < sa.fields.len() implies lines_prefix(
                (#[trigger] sa.fields[j]).attrs,
                sb.fields[j].attrs,
            ) by {
                assert(sb.fields[j] == spec_inject_field(s, module, sa.name, sa.fields[j]));
                let added = field_added_attrs(s, module, sa.name, sa.fields[j].name);
                assert((sa.fields[j].attrs + added).subrange(0, sa.fields[j].attrs.len() as int)
                    =~= sa.fields[j].attrs);
            }
        },
        SourceItemV::Enum(ea) => {
            let eb = spec_inject_enum(s, module, ea);
            assert(lines_prefix(ea.derives, eb.derives)) by {
                if contains_seq(ea.derives, eq_derive()) {
                    assert(ea.derives.subrange(0, ea.derives.len() as int) =~= ea.derives);
                } else {
                    assert(ea.derives.push(eq_derive()).subrange(0, ea.derives.len() as int)
                        =~= ea.derives);
                }
            }
            assert forall|j: int| 0 <= j < ea.variants.len() implies lines_prefix(
                (#[trigger] ea.variants[j]).attrs,
                eb.variants[j].attrs,
            ) && eb.variants[j].name == ea.variants[j].name && eb.variants[j].discr
                == ea.variants[j].discr by {
                assert(eb.variants[j] == spec_inject_variant(s, module, ea.name, ea.variants[j]));
                let added = variant_added_attrs(s, module, ea.name, ea.variants[j]);
                assert((ea.variants[j].attrs + added).subrange(
                    0,
                    ea.variants[j].attrs.len() as int,
                ) =~= ea.variants[j].attrs);
            }
        },
        SourceItemV::Passthrough(_l) => {},
    }
}

/// Round-trip structural fidelity, transforming half: the transformed item
/// list is the original with exactly one import line prepended, and each
/// declaration keeps its kind, its field and variant count, order, names
/// and discriminants; only attribute and derive lists grow (at the end),
/// and only names listed in the clash-fix table change.
pub proof fn lemma_transform_adds_only(
    s: SchemaSetV,
    module: Seq<u8>,
    fixes: Seq<ClashFixV>,
    items: Seq<SourceItemV>,
)
    ensures
        spec_transform_items(s, module, fixes, items).len() == items.len() + 1,
        spec_transform_items(s, module, fixes, items)[0] == SourceItemV::Passthrough(
            spec_import_line(),
        ),
        forall|i: int|
            0 <= i < items.len() ==> shape_preserved(
                fixes,
                module,
                #[trigger] items[i],
                spec_transform_items(s, module, fixes, items)[i + 1],
            ),
{
    let out = spec_transform_items(s, module, fixes, items);
    assert forall|i: int| 0 <= i < items.len() implies shape_preserved(
        fixes,
        module,
        #[trigger] items[i],
        out[i + 1],
    ) by {
        let it = items[i];
        let mid = spec_inject_item(s, module, it);
        assert(out[i + 1] == spec_transform_item(s, module, fixes, it));
        lemma_inject_keeps_shape(s, module, it);
        lemma_fixes_keep_shape(fixes, module, mid);
        match it {
            SourceItemV::Struct(sa) => {
                assert(mid is Struct);
                assert(mid->Struct_0.name == sa.name);
                let fin = spec_apply_fixes_item(fixes, module, mid);
                assert(fin->Struct_0.name == spec_fold_name(fixes, module, sa.name));
                assert(fin->Struct_0.derives == mid->Struct_0.derives);
                assert(lines_prefix(sa.derives, fin->Struct_0.derives));
                assert(fin->Struct_0.attrs == sa.attrs);
                assert(fin->Struct_0.fields.len() == sa.fields.len());
                assert forall|j: int| 0 <= j < sa.fields.len() implies lines_prefix(
                    (#[trigger] sa.fields[j]).attrs,
                    fin->Struct_0.fields[j].attrs,
                ) && fin->Struct_0.fields[j].name == sa.fields[j].name by {
                    assert(fin->Struct_0.fields[j].attrs == mid->Struct_0.fields[j].attrs);
                    assert(lines_prefix(sa.fields[j].attrs, mid->Struct_0.fields[j].attrs));
                    assert(mid->Struct_0.fields[j].name == sa.fields[j].name);
                }
            },
            SourceItemV::Enum(ea) => {
                assert(mid is Enum);
                assert(mid->Enum_0.name == ea.name);
                let fin = spec_apply_fixes_item(fixes, module, mid);
                assert(fin->Enum_0.name == spec_fold_name(fixes, module, ea.name));
                assert(fin->Enum_0.derives == mid->Enum_0.derives);
                assert(lines_prefix(ea.derives, fin->Enum_0.derives));
                assert(fin->Enum_0.attrs == ea.attrs);
                assert(fin->Enum_0.variants == mid->Enum_0.variants);
                assert forall|j: int| 0 <= j < ea.variants.len() implies lines_prefix(
                    (#[trigger] ea.variants[j]).attrs,
                    fin->Enum_0.variants[j].attrs,
                ) && fin->Enum_0.variants[j].name == ea.variants[j].name
                    && fin->Enum_0.variants[j].discr == ea.variants[j].discr by {
                    assert(fin->Enum_0.variants[j] == mid->Enum_0.variants[j]);
                    assert(lines_prefix(ea.variants[j].attrs, mid->Enum_0.variants[j].attrs));
                    assert(mid->Enum_0.variants[j].name == ea.variants[j].name);
                    assert(mid->Enum_0.variants[j].discr == ea.variants[j].discr);
                }
            },
            SourceItemV::Passthrough(_l) => {
                assert(mid == it);
            },
        }
    }
}

/// No entry of another module changes an item.
pub proof fn lemma_no_fix_identity(fixes: Seq<ClashFixV>, module: Seq<u8>, it: SourceItemV)
    requires
        forall|j: int| 0 <= j < fixes.len() ==> (#[trigger] fixes[j]).module != module,
    ensures
        spec_apply_fixes_item(fixes, module, it) == it,
    decreases fixes.len(),
{
    if fixes.len() == 0 {
    } else {
        assert(spec_apply_fix_item(fixes[0], module, it) == it);
        let rest = fixes.subrange(1, fixes.len() as int);
        assert(forall|j: int| 0 <= j < rest.len() ==> rest[j] == fixes[j + 1]);
        lemma_no_fix_identity(rest, module, it);
    }
}

/// With exactly one entry for this module, the table acts as that single
/// fix: the declaration is renamed and every intra-module reference in
/// field types is rewritten to match.
pub proof fn lemma_single_fix(fixes: Seq<ClashFixV>, module: Seq<u8>, i: int, it: SourceItemV)
    requires
        0 <= i < fixes.len(),
        fixes[i].module == module,
        forall|j: int|
            0 <= j < fixes.len() && j != i ==> (#[trigger] fixes[j]).module != module,
    ensures
        spec_apply_fixes_item(fixes, module, it) == spec_apply_fix_item(fixes[i], module, it),
    decreases fixes.len(),
{
    let rest = fixes.subrange(1, fixes.len() as int);
    assert(forall|j: int| 0 <= j < rest.len() ==> rest[j] == fixes[j + 1]);
    if i == 0 {
        lemma_no_fix_identity(rest, module, spec_apply_fix_item(fixes[0], module, it));
    } else {
        assert(spec_apply_fix_item(fixes[0], module, it) == it);
        lemma_single_fix(rest, module, i - 1, it);
    }
}

} // verus!
