//! Canonical emitter: converts a declaration tree back to text.
//!
//! Emission is deterministic by construction: the emitted text is a function
//! (`spec_emit_text`) of the tree alone, and the executable emitter is proved
//! to return exactly that text, so identical trees always produce
//! byte-identical output.

use vstd::prelude::*;

use crate::decl;
use crate::decl::{FieldDeclV, VariantDeclV, StructDeclV, EnumDeclV, SourceItem, SourceItemV};
use crate::text;

verus! {

/// The elements joined with a separator between neighbours.
pub open spec fn join_sep(xs: Seq<Seq<u8>>, sep: Seq<u8>) -> Seq<u8>
    decreases xs.len(),
{
    if xs.len() == 0 {
        Seq::empty()
    } else if xs.len() == 1 {
        xs[0]
    } else {
        xs[0] + sep + join_sep(xs.subrange(1, xs.len() as int), sep)
    }
}

pub proof fn lemma_join_sep_snoc(xs: Seq<Seq<u8>>, sep: Seq<u8>, x: Seq<u8>)
    ensures
        join_sep(xs.push(x), sep) == if xs.len() == 0 {
            x
        } else {
            join_sep(xs, sep) + sep + x
        },
    decreases xs.len(),
{
    let p = xs.push(x);
    if xs.len() == 0 {
        assert(p.len() == 1);
        assert(p[0] == x);
    } else if xs.len() == 1 {
        assert(p.subrange(1, p.len() as int) =~= seq![x]);
        assert(join_sep(seq![x], sep) == x);
        assert(p[0] == xs[0]);
    } else {
        let xs1 = xs.subrange(1, xs.len() as int);
        assert(p.subrange(1, p.len() as int) =~= xs1.push(x));
        lemma_join_sep_snoc(xs1, sep, x);
        assert(p[0] == xs[0]);
        assert(xs[0] + sep + (join_sep(xs1, sep) + sep + x) =~= (xs[0] + sep + join_sep(
            xs1,
            sep,
        )) + sep + x);
    }
}

/// The single derive line of a declaration.
pub open spec fn derive_line(ds: Seq<Seq<u8>>) -> Seq<u8> {
    decl::bs_derive_open() + join_sep(ds, decl::bs_comma_space()) + decl::bs_derive_close()
}

/// Attribute lines indented by one level.
pub open spec fn indent_lines(ls: Seq<Seq<u8>>) -> Seq<Seq<u8>> {
    Seq::new(ls.len(), |i: int| decl::bs_indent() + ls[i])
}

pub open spec fn field_line(f: FieldDeclV) -> Seq<u8> {
    decl::bs_indent() + decl::bs_pub_space() + f.name + decl::bs_colon_space() + f.ty + seq![44u8]
}

pub open spec fn field_lines(f: FieldDeclV) -> Seq<Seq<u8>> {
    indent_lines(f.attrs) + seq![field_line(f)]
}

pub open spec fn fields_lines(fs: Seq<FieldDeclV>) -> Seq<Seq<u8>>
    decreases fs.len(),
{
    if fs.len() == 0 {
        Seq::empty()
    } else {
        field_lines(fs[0]) + fields_lines(fs.subrange(1, fs.len() as int))
    }
}

pub open spec fn variant_line(v: VariantDeclV) -> Seq<u8> {
    decl::bs_indent() + v.name + (match v.discr {
        Option::Some(d) => decl::bs_eq_sep() + d,
        Option::None => Seq::<u8>::empty(),
    }) + seq![44u8]
}

pub open spec fn variant_lines(v: VariantDeclV) -> Seq<Seq<u8>> {
    indent_lines(v.attrs) + seq![variant_line(v)]
}

pub open spec fn variants_lines(vs: Seq<VariantDeclV>) -> Seq<Seq<u8>>
    decreases vs.len(),
{
    if vs.len() == 0 {
        Seq::empty()
    } else {
        variant_lines(vs[0]) + variants_lines(vs.subrange(1, vs.len() as int))
    }
}

pub open spec fn struct_header(name: Seq<u8>) -> Seq<u8> {
    decl::bs_pub_struct() + name + decl::bs_space_brace()
}

pub open spec fn enum_header(name: Seq<u8>) -> Seq<u8> {
    decl::bs_pub_enum() + name + decl::bs_space_brace()
}

pub open spec fn struct_lines(s: StructDeclV) -> Seq<Seq<u8>> {
    (if s.derives.len() > 0 {
        seq![derive_line(s.derives)]
    } else {
        Seq::<Seq<u8>>::empty()
    }) + s.attrs + seq![struct_header(s.name)] + fields_lines(s.fields) + seq![
        decl::bs_close_brace(),
    ]
}

pub open spec fn enum_lines(e: EnumDeclV) -> Seq<Seq<u8>> {
    (if e.derives.len() > 0 {
        seq![derive_line(e.derives)]
    } else {
        Seq::<Seq<u8>>::empty()
    }) + e.attrs + seq![enum_header(e.name)] + variants_lines(e.variants) + seq![
        decl::bs_close_brace(),
    ]
}

pub open spec fn item_lines(it: SourceItemV) -> Seq<Seq<u8>> {
    match it {
        SourceItemV::Struct(s) => struct_lines(s),
        SourceItemV::Enum(e) => enum_lines(e),
        SourceItemV::Passthrough(l) => seq![l],
    }
}

pub open spec fn items_lines(items: Seq<SourceItemV>) -> Seq<Seq<u8>>
    decreases items.len(),
{
    if items.len() == 0 {
        Seq::empty()
    } else {
        item_lines(items[0]) + items_lines(items.subrange(1, items.len() as int))
    }
}

/// The canonical text of a declaration tree.
pub open spec fn spec_emit_text(items: Seq<SourceItemV>) -> Seq<u8> {
    text::spec_join_lines(items_lines(items))
}

pub proof fn lemma_fields_lines_append(a: Seq<FieldDeclV>, b: Seq<FieldDeclV>)
    ensures
        fields_lines(a + b) == fields_lines(a) + fields_lines(b),
    decreases a.len(),
{
    if a.len() == 0 {
        assert(a + b =~= b);
        assert(Seq::<Seq<u8>>::empty() + fields_lines(b) =~= fields_lines(b));
    } else {
        let a1 = a.subrange(1, a.len() as int);
        lemma_fields_lines_append(a1, b);
        assert((a + b).subrange(1, (a + b).len() as int) =~= a1 + b);
        assert((a + b)[0] == a[0]);
        assert(field_lines(a[0]) + (fields_lines(a1) + fields_lines(b)) =~= (field_lines(a[0])
            + fields_lines(a1)) + fields_lines(b));
    }
}

pub proof fn lemma_variants_lines_append(a: Seq<VariantDeclV>, b: Seq<VariantDeclV>)
    ensures
        variants_lines(a + b) == variants_lines(a) + variants_lines(b),
    decreases a.len(),
{
    if a.len() == 0 {
        assert(a + b =~= b);
        assert(Seq::<Seq<u8>>::empty() + variants_lines(b) =~= variants_lines(b));
    } else {
        let a1 = a.subrange(1, a.len() as int);
        lemma_variants_lines_append(a1, b);
        assert((a + b).subrange(1, (a + b).len() as int) =~= a1 + b);
        assert((a + b)[0] == a[0]);
        assert(variant_lines(a[0]) + (variants_lines(a1) + variants_lines(b)) =~= (variant_lines(
            a[0],
        ) + variants_lines(a1)) + variants_lines(b));
    }
}

pub proof fn lemma_fields_lines_singleton(f: FieldDeclV)
    ensures
        fields_lines(seq![f]) == field_lines(f),
{
    let s = seq![f];
    assert(s.len() == 1);
    assert(s[0] == f);
    assert(s.subrange(1, 1) =~= Seq::<FieldDeclV>::empty());
    assert(fields_lines(s) == field_lines(f) + fields_lines(s.subrange(1, 1)));
    assert(field_lines(f) + Seq::<Seq<u8>>::empty() =~= field_lines(f));
}

pub proof fn lemma_variants_lines_singleton(v: VariantDeclV)
    ensures
        variants_lines(seq![v]) == variant_lines(v),
{
    let s = seq![v];
    assert(s.len() == 1);
    assert(s[0] == v);
    assert(s.subrange(1, 1) =~= Seq::<VariantDeclV>::empty());
    assert(variants_lines(s) == variant_lines(v) + variants_lines(s.subrange(1, 1)));
    assert(variant_lines(v) + Seq::<Seq<u8>>::empty() =~= variant_lines(v));
}

pub proof fn lemma_items_lines_singleton(it: SourceItemV)
    ensures
        items_lines(seq![it]) == item_lines(it),
{
    let s = seq![it];
    assert(s.len() == 1);
    assert(s[0] == it);
    assert(s.subrange(1, 1) =~= Seq::<SourceItemV>::empty());
    assert(items_lines(s) == item_lines(it) + items_lines(s.subrange(1, 1)));
    assert(item_lines(it) + Seq::<Seq<u8>>::empty() =~= item_lines(it));
}

pub proof fn lemma_items_lines_append(a: Seq<SourceItemV>, b: Seq<SourceItemV>)
    ensures
        items_lines(a + b) == items_lines(a) + items_lines(b),
    decreases a.len(),
{
    if a.len() == 0 {
        assert(a + b =~= b);
        assert(Seq::<Seq<u8>>::empty() + items_lines(b) =~= items_lines(b));
    } else {
        let a1 = a.subrange(1, a.len() as int);
        lemma_items_lines_append(a1, b);
        assert((a + b).subrange(1, (a + b).len() as int) =~= a1 + b);
        assert((a + b)[0] == a[0]);
        assert(item_lines(a[0]) + (items_lines(a1) + items_lines(b)) =~= (item_lines(a[0])
            + items_lines(a1)) + items_lines(b));
    }
}

/// Appends one line and its newline.
fn put_line(out: &mut Vec<u8>, line: &Vec<u8>)
    ensures
        final(out)@ == old(out)@ + line@ + seq![10u8],
{
    text::push_all(out, line);
    out.push(10u8);
    proof {
        assert((old(out)@ + line@).push(10u8) =~= old(out)@ + line@ + seq![10u8]);
    }
}

/// Joins parts with a separator; used for the derive list.
fn join_sep_exec(xs: &Vec<Vec<u8>>, sep: &Vec<u8>) -> (res: Vec<u8>)
    ensures
        res@ == join_sep(text::view2(xs@), sep@),
{
    let ghost xv = text::view2(xs@);
    let mut out: Vec<u8> = Vec::new();
    let mut i: usize = 0;
    proof {
        assert(xv.subrange(0, 0) =~= Seq::<Seq<u8>>::empty());
    }
    while i < xs.len()
        invariant
            xv == text::view2(xs@),
            0 <= i <= xs@.len(),
            out@ == join_sep(xv.subrange(0, i as int), sep@),
        decreases xs@.len() - i,
    {
        let ghost pre = xv.subrange(0, i as int);
        proof {
            lemma_join_sep_snoc(pre, sep@, xv[i as int]);
            assert(pre.push(xv[i as int]) =~= xv.subrange(0, i + 1));
        }
        if i > 0 {
            text::push_all(&mut out, sep);
        }
        text::push_all(&mut out, &xs[i]);
        i += 1;
    }
    proof {
        assert(xv.subrange(0, xv.len() as int) =~= xv);
    }
    out
}

/// Writes attribute lines, optionally indented by one level.
fn put_attr_lines(out: &mut Vec<u8>, attrs: &Vec<Vec<u8>>, indent: bool)
    ensures
        final(out)@ == old(out)@ + text::spec_join_lines(
            if indent {
                indent_lines(text::view2(attrs@))
            } else {
                text::view2(attrs@)
            },
        ),
{
    let ghost av = text::view2(attrs@);
    let ghost target = if indent { indent_lines(av) } else { av };
    let mut i: usize = 0;
    proof {
        assert(target.subrange(0, 0) =~= Seq::<Seq<u8>>::empty());
        assert(old(out)@ + Seq::<u8>::empty() =~= old(out)@);
    }
    while i < attrs.len()
        invariant
            av == text::view2(attrs@),
            target == (if indent {
                indent_lines(av)
            } else {
                av
            }),
            target.len() == attrs@.len(),
            0 <= i <= attrs@.len(),
            out@ == old(out)@ + text::spec_join_lines(target.subrange(0, i as int)),
        decreases attrs@.len() - i,
    {
        let ghost pre = target.subrange(0, i as int);
        let mut line: Vec<u8>;
        if indent {
            line = decl::lit_indent();
        } else {
            line = Vec::new();
        }
        text::push_all(&mut line, &attrs[i]);
        proof {
            assert(line@ =~= target[i as int]);
            text::lemma_join_lines_append(pre, seq![target[i as int]]);
            assert(pre.push(target[i as int]) =~= target.subrange(0, i + 1));
            assert(pre + seq![target[i as int]] =~= target.subrange(0, i + 1));
            text::lemma_join_lines_singleton(target[i as int]);
            assert((old(out)@ + text::spec_join_lines(pre)) + (target[i as int] + seq![10u8]) =~= old(
                out,
            )@ + (text::spec_join_lines(pre) + target[i as int] + seq![10u8]));
            assert(text::spec_join_lines(pre) + target[i as int] + seq![10u8]
                =~= text::spec_join_lines(pre) + (target[i as int] + seq![10u8]));
        }
        put_line(out, &line);
        i += 1;
    }
    proof {
        assert(target.subrange(0, target.len() as int) =~= target);
    }
}

/// Emits one field: its attribute lines, then the field line.
fn emit_field(out: &mut Vec<u8>, f: &crate::decl::FieldDecl)
    ensures
        final(out)@ == old(out)@ + text::spec_join_lines(field_lines(f@)),
{
    put_attr_lines(out, &f.attrs, true);
    let mut line = decl::lit_indent();
    let part = decl::lit_pub_space();
    text::push_all(&mut line, &part);
    text::push_all(&mut line, &f.name);
    let part = decl::lit_colon_space();
    text::push_all(&mut line, &part);
    text::push_all(&mut line, &f.ty);
    line.push(44u8);
    proof {
        assert(line@ =~= field_line(f@));
    }
    put_line(out, &line);
    proof {
        text::lemma_join_lines_append(indent_lines(f@.attrs), seq![field_line(f@)]);
        text::lemma_join_lines_singleton(field_line(f@));
        assert(out@ =~= old(out)@ + text::spec_join_lines(field_lines(f@)));
    }
}

/// Emits one variant: its attribute lines, then the variant line.
fn emit_variant(out: &mut Vec<u8>, v: &crate::decl::VariantDecl)
    ensures
        final(out)@ == old(out)@ + text::spec_join_lines(variant_lines(v@)),
{
    put_attr_lines(out, &v.attrs, true);
    let mut line = decl::lit_indent();
    text::push_all(&mut line, &v.name);
    match &v.discr {
        Option::Some(d) => {
            let part = decl::lit_eq_sep();
            text::push_all(&mut line, &part);
            text::push_all(&mut line, d);
        },
        Option::None => {},
    }
    line.push(44u8);
    proof {
        assert(line@ =~= variant_line(v@));
    }
    put_line(out, &line);
    proof {
        text::lemma_join_lines_append(indent_lines(v@.attrs), seq![variant_line(v@)]);
        text::lemma_join_lines_singleton(variant_line(v@));
        assert(out@ =~= old(out)@ + text::spec_join_lines(variant_lines(v@)));
    }
}

/// Emits a struct declaration.
fn emit_struct(out: &mut Vec<u8>, s: &crate::decl::StructDecl)
    ensures
        final(out)@ == old(out)@ + text::spec_join_lines(struct_lines(s@)),
{
    let ghost base = out@;
    let ghost dpart = if s@.derives.len() > 0 {
        seq![derive_line(s@.derives)]
    } else {
        Seq::<Seq<u8>>::empty()
    };
    if s.derives.len() > 0 {
        let mut dline = decl::lit_derive_open();
        let sep = decl::lit_comma_space();
        let joined = join_sep_exec(&s.derives, &sep);
        text::push_all(&mut dline, &joined);
        let part = decl::lit_derive_close();
        text::push_all(&mut dline, &part);
        proof {
            assert(dline@ =~= derive_line(s@.derives));
        }
        put_line(out, &dline);
        proof {
            text::lemma_join_lines_singleton(derive_line(s@.derives));
        }
    }
    proof {
        assert(out@ == base + text::spec_join_lines(dpart)) by {
            if s@.derives.len() == 0 {
                assert(base + Seq::<u8>::empty() =~= base);
            }
        }
    }
    put_attr_lines(out, &s.attrs, false);
    let mut hline = decl::lit_pub_struct();
    text::push_all(&mut hline, &s.name);
    let part = decl::lit_space_brace();
    text::push_all(&mut hline, &part);
    proof {
        assert(hline@ =~= struct_header(s@.name));
    }
    put_line(out, &hline);
    let ghost mid = out@;
    let mut i: usize = 0;
    proof {
        assert(s@.fields.subrange(0, 0) =~= Seq::<FieldDeclV>::empty());
        assert(mid + Seq::<u8>::empty() =~= mid);
    }
    while i < s.fields.len()
        invariant
            s@.fields.len() == s.fields@.len(),
            0 <= i <= s.fields@.len(),
            forall|k: int| 0 <= k < s.fields@.len() ==> s@.fields[k] == s.fields@[k]@,
            out@ == mid + text::spec_join_lines(fields_lines(s@.fields.subrange(0, i as int))),
        decreases s.fields@.len() - i,
    {
        let ghost pre = s@.fields.subrange(0, i as int);
        emit_field(out, &s.fields[i]);
        proof {
            lemma_fields_lines_append(pre, seq![s@.fields[i as int]]);
            assert(pre + seq![s@.fields[i as int]] =~= s@.fields.subrange(0, i + 1));
            lemma_fields_lines_singleton(s@.fields[i as int]);
            text::lemma_join_lines_append(fields_lines(pre), field_lines(s@.fields[i as int]));
            assert(out@ =~= mid + text::spec_join_lines(
                fields_lines(s@.fields.subrange(0, i + 1)),
            ));
        }
        i += 1;
    }
    proof {
        assert(s@.fields.subrange(0, s@.fields.len() as int) =~= s@.fields);
    }
    let cline = decl::lit_close_brace();
    put_line(out, &cline);
    proof {
        let l2 = s@.attrs;
        let l3 = seq![struct_header(s@.name)];
        let l4 = fields_lines(s@.fields);
        let l5 = seq![decl::bs_close_brace()];
        text::lemma_join_lines_singleton(struct_header(s@.name));
        text::lemma_join_lines_singleton(decl::bs_close_brace());
        text::lemma_join_lines_append(dpart, l2);
        text::lemma_join_lines_append(dpart + l2, l3);
        text::lemma_join_lines_append(dpart + l2 + l3, l4);
        text::lemma_join_lines_append(dpart + l2 + l3 + l4, l5);
        assert(dpart + l2 + l3 + l4 + l5 =~= struct_lines(s@));
        assert(out@ =~= base + text::spec_join_lines(struct_lines(s@)));
    }
}

/// Emits an enum declaration.
fn emit_enum(out: &mut Vec<u8>, e: &crate::decl::EnumDecl)
    ensures
        final(out)@ == old(out)@ + text::spec_join_lines(enum_lines(e@)),
{
    let ghost base = out@;
    let ghost dpart = if e@.derives.len() > 0 {
        seq![derive_line(e@.derives)]
    } else {
        Seq::<Seq<u8>>::empty()
    };
    if e.derives.len() > 0 {
        let mut dline = decl::lit_derive_open();
        let sep = decl::lit_comma_space();
        let joined = join_sep_exec(&e.derives, &sep);
        text::push_all(&mut dline, &joined);
        let part = decl::lit_derive_close();
        text::push_all(&mut dline, &part);
        proof {
            assert(dline@ =~= derive_line(e@.derives));
        }
        put_line(out, &dline);
        proof {
            text::lemma_join_lines_singleton(derive_line(e@.derives));
        }
    }
    proof {
        assert(out@ == base + text::spec_join_lines(dpart)) by {
            if e@.derives.len() == 0 {
                assert(base + Seq::<u8>::empty() =~= base);
            }
        }
    }
    put_attr_lines(out, &e.attrs, false);
    let mut hline = decl::lit_pub_enum();
    text::push_all(&mut hline, &e.name);
    let part = decl::lit_space_brace();
    text::push_all(&mut hline, &part);
    proof {
        assert(hline@ =~= enum_header(e@.name));
    }
    put_line(out, &hline);
    let ghost mid = out@;
    let mut i: usize = 0;
    proof {
        assert(e@.variants.subrange(0, 0) =~= Seq::<VariantDeclV>::empty());
        assert(mid + Seq::<u8>::empty() =~= mid);
    }
    while i < e.variants.len()
        invariant
            e@.variants.len() == e.variants@.len(),
            0 <= i <= e.variants@.len(),
            forall|k: int| 0 <= k < e.variants@.len() ==> e@.variants[k] == e.variants@[k]@,
            out@ == mid + text::spec_join_lines(variants_lines(e@.variants.subrange(0, i as int))),
        decreases e.variants@.len() - i,
    {
        let ghost pre = e@.variants.subrange(0, i as int);
        emit_variant(out, &e.variants[i]);
        proof {
            lemma_variants_lines_append(pre, seq![e@.variants[i as int]]);
            assert(pre + seq![e@.variants[i as int]] =~= e@.variants.subrange(0, i + 1));
            lemma_variants_lines_singleton(e@.variants[i as int]);
            text::lemma_join_lines_append(variants_lines(pre), variant_lines(e@.variants[i as int]));
            assert(out@ =~= mid + text::spec_join_lines(
                variants_lines(e@.variants.subrange(0, i + 1)),
            ));
        }
        i += 1;
    }
    proof {
        assert(e@.variants.subrange(0, e@.variants.len() as int) =~= e@.variants);
    }
    let cline = decl::lit_close_brace();
    put_line(out, &cline);
    proof {
        let l2 = e@.attrs;
        let l3 = seq![enum_header(e@.name)];
        let l4 = variants_lines(e@.variants);
        let l5 = seq![decl::bs_close_brace()];
        text::lemma_join_lines_singleton(enum_header(e@.name));
        text::lemma_join_lines_singleton(decl::bs_close_brace());
        text::lemma_join_lines_append(dpart, l2);
        text::lemma_join_lines_append(dpart + l2, l3);
        text::lemma_join_lines_append(dpart + l2 + l3, l4);
        text::lemma_join_lines_append(dpart + l2 + l3 + l4, l5);
        assert(dpart + l2 + l3 + l4 + l5 =~= enum_lines(e@));
        assert(out@ =~= base + text::spec_join_lines(enum_lines(e@)));
    }
}

/// Emits one item.
fn emit_item(out: &mut Vec<u8>, it: &SourceItem)
    ensures
        final(out)@ == old(out)@ + text::spec_join_lines(item_lines(it@)),
{
    match it {
        SourceItem::Struct(s) => emit_struct(out, s),
        SourceItem::Enum(e) => emit_enum(out, e),
        SourceItem::Passthrough(l) => {
            put_line(out, l);
            proof {
                text::lemma_join_lines_singleton(l@);
                assert(out@ =~= old(out)@ + text::spec_join_lines(item_lines(it@)));
            }
        },
    }
}

/// Emits a whole declaration tree as canonical text: every line of every
/// item, each terminated by a newline. Deterministic: the result is a
/// function of the tree alone.
pub fn emit_source(items: &Vec<SourceItem>) -> (res: Vec<u8>)
    ensures
        res@ == spec_emit_text(decl::items_view(items@)),
{
    let ghost iv = decl::items_view(items@);
    let mut out: Vec<u8> = Vec::new();
    let mut i: usize = 0;
    proof {
        assert(iv.subrange(0, 0) =~= Seq::<SourceItemV>::empty());
        assert(out@ =~= Seq::<u8>::empty() + text::spec_join_lines(
            items_lines(iv.subrange(0, 0)),
        ));
    }
    while i < items.len()
        invariant
            iv == decl::items_view(items@),
            0 <= i <= items@.len(),
            out@ == text::spec_join_lines(items_lines(iv.subrange(0, i as int))),
        decreases items@.len() - i,
    {
        let ghost pre = iv.subrange(0, i as int);
        emit_item(&mut out, &items[i]);
        proof {
            lemma_items_lines_append(pre, seq![iv[i as int]]);
            assert(pre + seq![iv[i as int]] =~= iv.subrange(0, i + 1));
            lemma_items_lines_singleton(iv[i as int]);
            text::lemma_join_lines_append(items_lines(pre), item_lines(iv[i as int]));
            assert(out@ =~= text::spec_join_lines(items_lines(iv.subrange(0, i + 1))));
        }
        i += 1;
    }
    proof {
        assert(iv.subrange(0, iv.len() as int) =~= iv);
    }
    out
}

} // verus!
