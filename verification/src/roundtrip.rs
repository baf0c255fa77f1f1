//! Round-trip structural fidelity: emitting a well-formed declaration tree
//! and parsing the result reproduces a tree structurally equal to the
//! original — same items, same fields, same order, same names.

use vstd::prelude::*;

use crate::decl;
use crate::decl::{FieldDeclV, VariantDeclV, StructDeclV, EnumDeclV, SourceItemV};
use crate::emit;
use crate::parse;
use crate::text;

verus! {

/// No byte of any element is a newline.
pub open spec fn all_no_nl(ls: Seq<Seq<u8>>) -> bool {
    forall|i: int| 0 <= i < ls.len() ==> !(#[trigger] ls[i]).contains(10u8)
}

pub proof fn lemma_concat_not_contains(a: Seq<u8>, b: Seq<u8>, c: u8)
    requires
        !a.contains(c),
        !b.contains(c),
    ensures
        !(a + b).contains(c),
{
    if (a + b).contains(c) {
        let k = choose|k: int| 0 <= k < (a + b).len() && (a + b)[k] == c;
        if k < a.len() {
            assert(a[k] == c);
        } else {
            assert(b[k - a.len()] == c);
        }
    }
}

pub proof fn lemma_all_no_nl_append(a: Seq<Seq<u8>>, b: Seq<Seq<u8>>)
    requires
        all_no_nl(a),
        all_no_nl(b),
    ensures
        all_no_nl(a + b),
{
    assert forall|i: int| 0 <= i < (a + b).len() implies !((a + b)[i]).contains(10u8) by {
        if i < a.len() {
            assert((a + b)[i] == a[i]);
        } else {
            assert((a + b)[i] == b[i - a.len()]);
        }
    }
}

pub proof fn lemma_ident_no_nl(s: Seq<u8>)
    requires
        forall|i: int| 0 <= i < s.len() ==> decl::is_ident_byte(#[trigger] s[i]) || s[i] == 58u8,
    ensures
        !s.contains(10u8),
{
    if s.contains(10u8) {
        let k = choose|k: int| 0 <= k < s.len() && s[k] == 10u8;
        assert(decl::is_ident_byte(s[k]) || s[k] == 58u8);
    }
}

pub proof fn lemma_join_sep_no_nl(names: Seq<Seq<u8>>)
    requires
        forall|i: int, j: int|
            #![trigger names[i][j]]
            0 <= i < names.len() && 0 <= j < names[i].len() ==> names[i][j] != 10u8,
    ensures
        !emit::join_sep(names, decl::bs_comma_space()).contains(10u8),
    decreases names.len(),
{
    let sep = decl::bs_comma_space();
    if names.len() == 0 {
    } else {
        assert(!names[0].contains(10u8)) by {
            if names[0].contains(10u8) {
                let k = choose|k: int| 0 <= k < names[0].len() && names[0][k] == 10u8;
                assert(names[0][k] != 10u8);
            }
        }
        if names.len() == 1 {
        } else {
            let rest = names.subrange(1, names.len() as int);
            assert(forall|i: int, j: int|
                #![trigger rest[i][j]]
                0 <= i < rest.len() && 0 <= j < rest[i].len() ==> rest[i] == names[i + 1]
                    && rest[i][j] != 10u8);
            lemma_join_sep_no_nl(rest);
            assert(!sep.contains(10u8)) by {
                if sep.contains(10u8) {
                    let k = choose|k: int| 0 <= k < sep.len() && sep[k] == 10u8;
                }
            }
            lemma_concat_not_contains(names[0], sep, 10u8);
            lemma_concat_not_contains(names[0] + sep, emit::join_sep(rest, sep), 10u8);
        }
    }
}

/// Every line the emitter produces for a well-formed item is newline-free.
pub proof fn lemma_item_lines_no_nl(it: SourceItemV)
    requires
        decl::wf_item(it),
    ensures
        all_no_nl(emit::item_lines(it)),
{
    assert(!decl::bs_indent().contains(10u8)) by {
        if decl::bs_indent().contains(10u8) {
            let k = choose|k: int| 0 <= k < decl::bs_indent().len() && decl::bs_indent()[k] == 10u8;
        }
    }
    match it {
        SourceItemV::Passthrough(l) => {
            assert(all_no_nl(seq![l])) by {
                assert(seq![l][0] == l);
            }
        },
        SourceItemV::Struct(s) => {
            lemma_struct_lines_no_nl(s);
        },
        SourceItemV::Enum(e) => {
            lemma_enum_lines_no_nl(e);
        },
    }
}

pub proof fn lemma_derive_line_no_nl(ds: Seq<Seq<u8>>)
    requires
        decl::wf_derives(ds),
    ensures
        !emit::derive_line(ds).contains(10u8),
{
    assert forall|i: int, j: int|
        #![trigger ds[i][j]]
        0 <= i < ds.len() && 0 <= j < ds[i].len() implies ds[i][j] != 10u8 by {
        assert(decl::wf_derive(ds[i]));
        assert(decl::is_ident_byte(ds[i][j]) || ds[i][j] == 58u8);
    }
    lemma_join_sep_no_nl(ds);
    assert(!decl::bs_derive_open().contains(10u8)) by {
        if decl::bs_derive_open().contains(10u8) {
            let k = choose|k: int|
                0 <= k < decl::bs_derive_open().len() && decl::bs_derive_open()[k] == 10u8;
        }
    }
    assert(!decl::bs_derive_close().contains(10u8)) by {
        if decl::bs_derive_close().contains(10u8) {
            let k = choose|k: int|
                0 <= k < decl::bs_derive_close().len() && decl::bs_derive_close()[k] == 10u8;
        }
    }
    lemma_concat_not_contains(
        decl::bs_derive_open(),
        emit::join_sep(ds, decl::bs_comma_space()),
        10u8,
    );
    lemma_concat_not_contains(
        decl::bs_derive_open() + emit::join_sep(ds, decl::bs_comma_space()),
        decl::bs_derive_close(),
        10u8,
    );
}

pub proof fn lemma_indent_lines_no_nl(attrs: Seq<Seq<u8>>)
    requires
        decl::wf_attrs(attrs),
    ensures
        all_no_nl(emit::indent_lines(attrs)),
        all_no_nl(attrs),
{
    assert(!decl::bs_indent().contains(10u8)) by {
        if decl::bs_indent().contains(10u8) {
            let k = choose|k: int| 0 <= k < decl::bs_indent().len() && decl::bs_indent()[k] == 10u8;
        }
    }
    assert forall|i: int| 0 <= i < attrs.len() implies !(#[trigger] attrs[i]).contains(10u8) by {
        assert(decl::wf_attr(attrs[i]));
    }
    assert forall|i: int|
        0 <= i < emit::indent_lines(attrs).len() implies !(#[trigger] emit::indent_lines(
        attrs,
    )[i]).contains(10u8) by {
        lemma_concat_not_contains(decl::bs_indent(), attrs[i], 10u8);
    }
}

pub proof fn lemma_field_lines_no_nl(f: FieldDeclV)
    requires
        decl::wf_field(f),
    ensures
        all_no_nl(emit::field_lines(f)),
    decreases 0int,
{
    lemma_indent_lines_no_nl(f.attrs);
    assert(!emit::field_line(f).contains(10u8)) by {
        if emit::field_line(f).contains(10u8) {
            let fl = emit::field_line(f);
            let k = choose|k: int| 0 <= k < fl.len() && fl[k] == 10u8;
            let a = decl::bs_indent() + decl::bs_pub_space();
            let b = a + f.name;
            let c = b + decl::bs_colon_space();
            let d = c + f.ty;
            assert(fl == d + seq![44u8]);
            if k < a.len() {
                assert(a[k] == 10u8);
            } else if k < b.len() {
                assert(f.name[k - a.len()] == 10u8);
                assert(decl::is_ident_byte(f.name[k - a.len()]));
            } else if k < c.len() {
                assert(decl::bs_colon_space()[k - b.len()] == 10u8);
            } else if k < d.len() {
                assert(f.ty[k - c.len()] == 10u8);
                assert(f.ty.contains(10u8));
            } else {
                assert(fl[k] == 44u8);
            }
        }
    }
    lemma_all_no_nl_append(emit::indent_lines(f.attrs), seq![emit::field_line(f)]);
    assert(all_no_nl(seq![emit::field_line(f)])) by {
        assert(seq![emit::field_line(f)][0] == emit::field_line(f));
    }
}

pub proof fn lemma_variant_lines_no_nl(v: VariantDeclV)
    requires
        decl::wf_variant(v),
    ensures
        all_no_nl(emit::variant_lines(v)),
{
    lemma_indent_lines_no_nl(v.attrs);
    assert(!emit::variant_line(v).contains(10u8)) by {
        if emit::variant_line(v).contains(10u8) {
            let vl = emit::variant_line(v);
            let k = choose|k: int| 0 <= k < vl.len() && vl[k] == 10u8;
            let mid = match v.discr {
                Option::Some(d) => decl::bs_eq_sep() + d,
                Option::None => Seq::<u8>::empty(),
            };
            let a = decl::bs_indent();
            let b = a + v.name;
            let c = b + mid;
            assert(vl == c + seq![44u8]);
            if k < a.len() {
                assert(a[k] == 10u8);
            } else if k < b.len() {
                assert(decl::is_ident_byte(v.name[k - a.len()]));
            } else if k < c.len() {
                match v.discr {
                    Option::Some(d) => {
                        let m = k - b.len();
                        assert(mid[m] == 10u8);
                        if m < 3 {
                            assert(decl::bs_eq_sep()[m] == 10u8);
                        } else {
                            assert(decl::is_digit_byte(d[m - 3]));
                        }
                    },
                    Option::None => {
                        assert(mid.len() == 0);
                    },
                }
            } else {
                assert(vl[k] == 44u8);
            }
        }
    }
    lemma_all_no_nl_append(emit::indent_lines(v.attrs), seq![emit::variant_line(v)]);
    assert(all_no_nl(seq![emit::variant_line(v)])) by {
        assert(seq![emit::variant_line(v)][0] == emit::variant_line(v));
    }
}

pub proof fn lemma_fields_lines_no_nl(fs: Seq<FieldDeclV>)
    requires
        forall|i: int| 0 <= i < fs.len() ==> decl::wf_field(#[trigger] fs[i]),
    ensures
        all_no_nl(emit::fields_lines(fs)),
    decreases fs.len(),
{
    if fs.len() == 0 {
    } else {
        lemma_field_lines_no_nl(fs[0]);
        let rest = fs.subrange(1, fs.len() as int);
        lemma_fields_lines_no_nl(rest);
        lemma_all_no_nl_append(emit::field_lines(fs[0]), emit::fields_lines(rest));
    }
}

pub proof fn lemma_variants_lines_no_nl(vs: Seq<VariantDeclV>)
    requires
        forall|i: int| 0 <= i < vs.len() ==> decl::wf_variant(#[trigger] vs[i]),
    ensures
        all_no_nl(emit::variants_lines(vs)),
    decreases vs.len(),
{
    if vs.len() == 0 {
    } else {
        lemma_variant_lines_no_nl(vs[0]);
        let rest = vs.subrange(1, vs.len() as int);
        lemma_variants_lines_no_nl(rest);
        lemma_all_no_nl_append(emit::variant_lines(vs[0]), emit::variants_lines(rest));
    }
}

pub proof fn lemma_header_no_nl(name: Seq<u8>)
    requires
        decl::wf_ident(name),
    ensures
        !emit::struct_header(name).contains(10u8),
        !emit::enum_header(name).contains(10u8),
{
    assert(!decl::bs_pub_struct().contains(10u8)) by {
        if decl::bs_pub_struct().contains(10u8) {
            let k = choose|k: int|
                0 <= k < decl::bs_pub_struct().len() && decl::bs_pub_struct()[k] == 10u8;
        }
    }
    assert(!decl::bs_pub_enum().contains(10u8)) by {
        if decl::bs_pub_enum().contains(10u8) {
            let k = choose|k: int|
                0 <= k < decl::bs_pub_enum().len() && decl::bs_pub_enum()[k] == 10u8;
        }
    }
    assert(!decl::bs_space_brace().contains(10u8)) by {
        if decl::bs_space_brace().contains(10u8) {
            let k = choose|k: int|
                0 <= k < decl::bs_space_brace().len() && decl::bs_space_brace()[k] == 10u8;
        }
    }
    assert forall|i: int|
        0 <= i < name.len() implies decl::is_ident_byte(#[trigger] name[i]) || name[i] == 58u8 by {}
    lemma_ident_no_nl(name);
    lemma_concat_not_contains(decl::bs_pub_struct(), name, 10u8);
    lemma_concat_not_contains(decl::bs_pub_struct() + name, decl::bs_space_brace(), 10u8);
    lemma_concat_not_contains(decl::bs_pub_enum(), name, 10u8);
    lemma_concat_not_contains(decl::bs_pub_enum() + name, decl::bs_space_brace(), 10u8);
}

pub proof fn lemma_struct_lines_no_nl(s: StructDeclV)
    requires
        decl::wf_struct(s),
    ensures
        all_no_nl(emit::struct_lines(s)),
{
    let dpart = if s.derives.len() > 0 {
        seq![emit::derive_line(s.derives)]
    } else {
        Seq::<Seq<u8>>::empty()
    };
    assert(all_no_nl(dpart)) by {
        if s.derives.len() > 0 {
            lemma_derive_line_no_nl(s.derives);
            assert(dpart[0] == emit::derive_line(s.derives));
        }
    }
    lemma_indent_lines_no_nl(s.attrs);
    lemma_header_no_nl(s.name);
    lemma_fields_lines_no_nl(s.fields);
    assert(!decl::bs_close_brace().contains(10u8)) by {
        if decl::bs_close_brace().contains(10u8) {
            let k = choose|k: int|
                0 <= k < decl::bs_close_brace().len() && decl::bs_close_brace()[k] == 10u8;
        }
    }
    assert(all_no_nl(seq![emit::struct_header(s.name)])) by {
        assert(seq![emit::struct_header(s.name)][0] == emit::struct_header(s.name));
    }
    assert(all_no_nl(seq![decl::bs_close_brace()])) by {
        assert(seq![decl::bs_close_brace()][0] == decl::bs_close_brace());
    }
    lemma_all_no_nl_append(dpart, s.attrs);
    lemma_all_no_nl_append(dpart + s.attrs, seq![emit::struct_header(s.name)]);
    lemma_all_no_nl_append(
        dpart + s.attrs + seq![emit::struct_header(s.name)],
        emit::fields_lines(s.fields),
    );
    lemma_all_no_nl_append(
        dpart + s.attrs + seq![emit::struct_header(s.name)] + emit::fields_lines(s.fields),
        seq![decl::bs_close_brace()],
    );
}

pub proof fn lemma_enum_lines_no_nl(e: EnumDeclV)
    requires
        decl::wf_enum(e),
    ensures
        all_no_nl(emit::enum_lines(e)),
{
    let dpart = if e.derives.len() > 0 {
        seq![emit::derive_line(e.derives)]
    } else {
        Seq::<Seq<u8>>::empty()
    };
    assert(all_no_nl(dpart)) by {
        if e.derives.len() > 0 {
            lemma_derive_line_no_nl(e.derives);
            assert(dpart[0] == emit::derive_line(e.derives));
        }
    }
    lemma_indent_lines_no_nl(e.attrs);
    lemma_header_no_nl(e.name);
    lemma_variants_lines_no_nl(e.variants);
    assert(!decl::bs_close_brace().contains(10u8)) by {
        if decl::bs_close_brace().contains(10u8) {
            let k = choose|k: int|
                0 <= k < decl::bs_close_brace().len() && decl::bs_close_brace()[k] == 10u8;
        }
    }
    assert(all_no_nl(seq![emit::enum_header(e.name)])) by {
        assert(seq![emit::enum_header(e.name)][0] == emit::enum_header(e.name));
    }
    assert(all_no_nl(seq![decl::bs_close_brace()])) by {
        assert(seq![decl::bs_close_brace()][0] == decl::bs_close_brace());
    }
    lemma_all_no_nl_append(dpart, e.attrs);
    lemma_all_no_nl_append(dpart + e.attrs, seq![emit::enum_header(e.name)]);
    lemma_all_no_nl_append(
        dpart + e.attrs + seq![emit::enum_header(e.name)],
        emit::variants_lines(e.variants),
    );
    lemma_all_no_nl_append(
        dpart + e.attrs + seq![emit::enum_header(e.name)] + emit::variants_lines(e.variants),
        seq![decl::bs_close_brace()],
    );
}

/// Every emitted line of a well-formed tree is newline-free.
pub proof fn lemma_items_lines_no_nl(items: Seq<SourceItemV>)
    requires
        decl::wf_items(items),
    ensures
        all_no_nl(emit::items_lines(items)),
    decreases items.len(),
{
    if items.len() == 0 {
    } else {
        lemma_item_lines_no_nl(items[0]);
        let rest = items.subrange(1, items.len() as int);
        lemma_items_lines_no_nl(rest);
        lemma_all_no_nl_append(emit::item_lines(items[0]), emit::items_lines(rest));
    }
}

pub proof fn lemma_wf_derive_no_comma(ds: Seq<Seq<u8>>)
    requires
        decl::wf_derives(ds),
    ensures
        forall|i: int, j: int|
            #![trigger ds[i][j]]
            0 <= i < ds.len() && 0 <= j < ds[i].len() ==> ds[i][j] != 44u8,
{
    assert forall|i: int, j: int|
        #![trigger ds[i][j]]
        0 <= i < ds.len() && 0 <= j < ds[i].len() implies ds[i][j] != 44u8 by {
        assert(decl::wf_derive(ds[i]));
        assert(decl::is_ident_byte(ds[i][j]) || ds[i][j] == 58u8);
    }
}

/// Splitting the joined derive list recovers the names.
pub proof fn lemma_split_join_derives(names: Seq<Seq<u8>>, cur: Seq<u8>)
    requires
        names.len() >= 1,
        forall|i: int, j: int|
            #![trigger names[i][j]]
            0 <= i < names.len() && 0 <= j < names[i].len() ==> names[i][j] != 44u8,
    ensures
        parse::split_sep_aux(
            emit::join_sep(names, decl::bs_comma_space()),
            decl::bs_comma_space(),
            cur,
        ) == seq![cur + names[0]] + names.subrange(1, names.len() as int),
    decreases names.len(), names[0].len(),
{
    let sep = decl::bs_comma_space();
    let s = emit::join_sep(names, sep);
    if names.len() == 1 {
        assert(s == names[0]);
        if names[0].len() == 0 {
            assert(parse::split_sep_aux(s, sep, cur) == seq![cur + s]);
            assert(seq![cur + names[0]] + names.subrange(1, 1) =~= seq![cur + names[0]]);
        } else {
            assert(s[0] == names[0][0]);
            assert(s[0] != 44u8);
            assert(!text::has_prefix(s, sep)) by {
                if text::has_prefix(s, sep) {
                    assert(s.subrange(0, 2)[0] == sep[0]);
                }
            }
            let names2 = names.update(0, names[0].subrange(1, names[0].len() as int));
            assert(names2.len() == 1);
            assert(emit::join_sep(names2, sep) == names2[0]);
            assert(names2[0] =~= s.subrange(1, s.len() as int));
            assert(forall|i: int, j: int|
                #![trigger names2[i][j]]
                0 <= i < names2.len() && 0 <= j < names2[i].len() ==> names2[i][j]
                    == names[0][j + 1] && names2[i][j] != 44u8);
            lemma_split_join_derives(names2, cur.push(s[0]));
            assert(cur.push(s[0]) + names2[0] =~= cur + names[0]);
            assert(seq![cur.push(s[0]) + names2[0]] + names2.subrange(1, 1) =~= seq![cur
                + names[0]]);
            assert(seq![cur + names[0]] + names.subrange(1, 1) =~= seq![cur + names[0]]);
        }
    } else {
        let rest = names.subrange(1, names.len() as int);
        assert(s == names[0] + sep + emit::join_sep(rest, sep));
        if names[0].len() == 0 {
            assert(text::has_prefix(s, sep)) by {
                assert(s.subrange(0, 2) =~= sep);
            }
            assert(s.subrange(2, s.len() as int) =~= emit::join_sep(rest, sep));
            assert(forall|i: int, j: int|
                #![trigger rest[i][j]]
                0 <= i < rest.len() && 0 <= j < rest[i].len() ==> rest[i] == names[i + 1]
                    && rest[i][j] != 44u8);
            lemma_split_join_derives(rest, Seq::empty());
            assert(Seq::<u8>::empty() + rest[0] =~= rest[0]);
            assert(seq![cur] + (seq![rest[0]] + rest.subrange(1, rest.len() as int)) =~= seq![cur
                + names[0]] + rest);
        } else {
            assert(s[0] == names[0][0]);
            assert(s[0] != 44u8);
            assert(!text::has_prefix(s, sep)) by {
                if text::has_prefix(s, sep) {
                    assert(s.subrange(0, 2)[0] == sep[0]);
                }
            }
            let names2 = names.update(0, names[0].subrange(1, names[0].len() as int));
            let rest2 = names2.subrange(1, names2.len() as int);
            assert(rest2 =~= rest);
            assert(emit::join_sep(names2, sep) == names2[0] + sep + emit::join_sep(rest, sep));
            assert(emit::join_sep(names2, sep) =~= s.subrange(1, s.len() as int));
            assert(forall|i: int, j: int|
                #![trigger names2[i][j]]
                0 <= i < names2.len() && 0 <= j < names2[i].len() ==> names2[i][j] != 44u8) by {
                assert(forall|i: int, j: int|
                    #![trigger names2[i][j]]
                    1 <= i < names2.len() && 0 <= j < names2[i].len() ==> names2[i] == names[i]
                        && names2[i][j] != 44u8);
                assert(forall|j: int|
                    0 <= j < names2[0].len() ==> #[trigger] names2[0][j] == names[0][j + 1]
                        && names2[0][j] != 44u8);
            }
            lemma_split_join_derives(names2, cur.push(s[0]));
            assert(cur.push(s[0]) + names2[0] =~= cur + names[0]);
            assert(seq![cur.push(s[0]) + names2[0]] + rest2 =~= seq![cur + names[0]] + rest);
        }
    }
}

/// Parsing the emitted derive line recovers the derive names.
pub proof fn lemma_parse_derive_line(ds: Seq<Seq<u8>>)
    requires
        decl::wf_derives(ds),
        ds.len() >= 1,
    ensures
        parse::spec_parse_derive_names(emit::derive_line(ds)) == Option::Some(ds),
{
    let sep = decl::bs_comma_space();
    let inner = emit::join_sep(ds, sep);
    let l = emit::derive_line(ds);
    assert(inner.len() > 0) by {
        if ds.len() == 1 {
            assert(inner == ds[0]);
            assert(decl::wf_derive(ds[0]));
        } else {
            assert(inner == ds[0] + sep + emit::join_sep(ds.subrange(1, ds.len() as int), sep));
        }
    }
    assert(text::has_prefix(l, decl::bs_derive_open())) by {
        assert(l.subrange(0, 9) =~= decl::bs_derive_open());
    }
    assert(l.subrange(l.len() - 2, l.len() as int) =~= decl::bs_derive_close());
    assert(l.subrange(9, l.len() - 2) =~= inner);
    lemma_wf_derive_no_comma(ds);
    lemma_split_join_derives(ds, Seq::empty());
    assert(Seq::<u8>::empty() + ds[0] =~= ds[0]);
    assert(seq![ds[0]] + ds.subrange(1, ds.len() as int) =~= ds);
}

/// Collecting the run over plain attribute lines consumes exactly them.
pub proof fn lemma_collect_run_attrs(attrs: Seq<Seq<u8>>, rest: Seq<Seq<u8>>)
    requires
        decl::wf_attrs(attrs),
        rest.len() >= 1,
        !parse::is_attr_start_line(rest[0]),
    ensures
        parse::spec_collect_run(attrs + rest) == Option::Some(
            (Seq::<Seq<u8>>::empty(), attrs, attrs.len() as int),
        ),
    decreases attrs.len(),
{
    let ls = attrs + rest;
    if attrs.len() == 0 {
        assert(ls =~= rest);
        assert(ls.len() > 0 && !parse::is_attr_start_line(ls[0]));
        assert(attrs =~= Seq::<Seq<u8>>::empty());
    } else {
        assert(ls[0] == attrs[0]);
        assert(decl::wf_attr(attrs[0]));
        assert(parse::is_attr_start_line(ls[0]));
        assert(!text::has_prefix(ls[0], decl::bs_derive_open()));
        let a1 = attrs.subrange(1, attrs.len() as int);
        assert(ls.subrange(1, ls.len() as int) =~= a1 + rest);
        assert(forall|i: int| 0 <= i < a1.len() ==> a1[i] == attrs[i + 1]);
        lemma_collect_run_attrs(a1, rest);
        assert(seq![attrs[0]] + a1 =~= attrs);
    }
}

/// Collecting the run over an emitted derive line and attribute lines.
pub proof fn lemma_collect_run_emitted(
    derives: Seq<Seq<u8>>,
    attrs: Seq<Seq<u8>>,
    rest: Seq<Seq<u8>>,
)
    requires
        decl::wf_derives(derives),
        decl::wf_attrs(attrs),
        rest.len() >= 1,
        !parse::is_attr_start_line(rest[0]),
    ensures
        parse::spec_collect_run(
            (if derives.len() > 0 {
                seq![emit::derive_line(derives)]
            } else {
                Seq::<Seq<u8>>::empty()
            }) + attrs + rest,
        ) == Option::Some(
            (
                derives,
                attrs,
                (if derives.len() > 0 {
                    1int
                } else {
                    0int
                }) + attrs.len(),
            ),
        ),
{
    if derives.len() == 0 {
        assert(Seq::<Seq<u8>>::empty() + attrs + rest =~= attrs + rest);
        lemma_collect_run_attrs(attrs, rest);
        assert(derives =~= Seq::<Seq<u8>>::empty());
    } else {
        let dl = emit::derive_line(derives);
        let ls = seq![dl] + attrs + rest;
        assert(ls[0] == dl);
        assert(text::has_prefix(dl, decl::bs_derive_open())) by {
            assert(dl.subrange(0, 9) =~= decl::bs_derive_open());
        }
        assert(text::has_prefix(dl, decl::bs_attr_start())) by {
            assert(dl.subrange(0, 2) =~= decl::bs_attr_start());
        }
        lemma_parse_derive_line(derives);
        assert(ls.subrange(1, ls.len() as int) =~= attrs + rest);
        lemma_collect_run_attrs(attrs, rest);
        assert(derives + Seq::<Seq<u8>>::empty() =~= derives);
    }
}

/// Parsing the unindented part of an emitted field line recovers name and
/// type.
pub proof fn lemma_parse_field_line_emitted(f: FieldDeclV)
    requires
        decl::wf_field(f),
    ensures
        parse::spec_parse_field_line(
            decl::bs_pub_space() + f.name + decl::bs_colon_space() + f.ty + seq![44u8],
        ) == Option::Some((f.name, f.ty)),
{
    let u = decl::bs_pub_space() + f.name + decl::bs_colon_space() + f.ty + seq![44u8];
    assert(text::has_prefix(u, decl::bs_pub_space())) by {
        assert(u.subrange(0, 4) =~= decl::bs_pub_space());
    }
    let v = u.subrange(4, u.len() as int);
    assert(v =~= f.name + decl::bs_colon_space() + f.ty + seq![44u8]);
    let n = f.name.len() as int;
    assert(forall|j: int| 0 <= j < n ==> v[j] == f.name[j]);
    assert(v[n] == 58u8);
    assert(!decl::is_ident_byte(58u8));
    parse::lemma_ident_run_at(v, n);
    assert(v.len() == n + 3 + f.ty.len());
    assert(v.subrange(n, n + 2) =~= decl::bs_colon_space());
    assert(v[v.len() - 1] == 44u8);
    assert(v.subrange(0, n) =~= f.name);
    assert(v.subrange(n + 2, v.len() - 1) =~= f.ty);
}

/// Parsing the unindented part of an emitted variant line recovers name and
/// discriminant.
pub proof fn lemma_parse_variant_line_emitted(v: VariantDeclV)
    requires
        decl::wf_variant(v),
    ensures
        parse::spec_parse_variant_line(
            v.name + (match v.discr {
                Option::Some(d) => decl::bs_eq_sep() + d,
                Option::None => Seq::<u8>::empty(),
            }) + seq![44u8],
        ) == Option::Some((v.name, v.discr)),
{
    let mid = match v.discr {
        Option::Some(d) => decl::bs_eq_sep() + d,
        Option::None => Seq::<u8>::empty(),
    };
    let u = v.name + mid + seq![44u8];
    let n = v.name.len() as int;
    assert(forall|j: int| 0 <= j < n ==> u[j] == v.name[j]);
    match v.discr {
        Option::Some(d) => {
            assert(u[n] == 32u8);
            assert(!decl::is_ident_byte(32u8));
            parse::lemma_ident_run_at(u, n);
            assert(u.len() == n + 4 + d.len());
            assert(d.len() >= 1);
            assert(u.len() != n + 1);
            assert(u.subrange(n, n + 3) =~= decl::bs_eq_sep());
            assert(u[u.len() - 1] == 44u8);
            let dd = u.subrange(n + 3, u.len() - 1);
            assert(dd =~= d);
            assert(u.subrange(0, n) =~= v.name);
        },
        Option::None => {
            assert(u[n] == 44u8);
            assert(!decl::is_ident_byte(44u8));
            parse::lemma_ident_run_at(u, n);
            assert(u.len() == n + 1);
            assert(u.subrange(0, n) =~= v.name);
        },
    }
}

/// Parsing emitted headers recovers the name.
pub proof fn lemma_parse_headers_emitted(name: Seq<u8>)
    requires
        decl::wf_ident(name),
    ensures
        parse::spec_parse_struct_header(emit::struct_header(name)) == Option::Some(name),
        parse::spec_parse_enum_header(emit::enum_header(name)) == Option::Some(name),
{
    let hs = emit::struct_header(name);
    assert(text::has_prefix(hs, decl::bs_pub_struct())) by {
        assert(hs.subrange(0, 11) =~= decl::bs_pub_struct());
    }
    assert(hs.len() == 13 + name.len());
    assert(hs.subrange(hs.len() - 2, hs.len() as int) =~= decl::bs_space_brace());
    assert(hs.subrange(11, hs.len() - 2) =~= name);
    let he = emit::enum_header(name);
    assert(text::has_prefix(he, decl::bs_pub_enum())) by {
        assert(he.subrange(0, 9) =~= decl::bs_pub_enum());
    }
    assert(he.len() == 11 + name.len());
    assert(he.subrange(he.len() - 2, he.len() as int) =~= decl::bs_space_brace());
    assert(he.subrange(9, he.len() - 2) =~= name);
}

/// Consuming indented attribute lines moves them into the pending list.
pub proof fn lemma_struct_body_consume_attrs(
    attrs: Seq<Seq<u8>>,
    rest: Seq<Seq<u8>>,
    pend: Seq<Seq<u8>>,
    acc: Seq<FieldDeclV>,
)
    requires
        decl::wf_attrs(attrs),
    ensures
        parse::spec_parse_struct_body(emit::indent_lines(attrs) + rest, pend, acc) == (
        match parse::spec_parse_struct_body(rest, pend + attrs, acc) {
            Option::None => Option::<(Seq<FieldDeclV>, int)>::None,
            Option::Some(r) => Option::Some((r.0, r.1 + attrs.len())),
        }),
    decreases attrs.len(),
{
    if attrs.len() == 0 {
        assert(emit::indent_lines(attrs) + rest =~= rest);
        assert(pend + attrs =~= pend);
    } else {
        let ls = emit::indent_lines(attrs) + rest;
        let l0 = decl::bs_indent() + attrs[0];
        assert(ls[0] == emit::indent_lines(attrs)[0]);
        assert(ls[0] == l0);
        assert(ls.len() > 0);
        assert(l0 != decl::bs_close_brace()) by {
            if l0 == decl::bs_close_brace() {
                assert(l0[0] == 125u8);
                assert(l0[0] == 32u8);
            }
        }
        assert(text::has_prefix(l0, decl::bs_indent())) by {
            assert(l0.subrange(0, 4) =~= decl::bs_indent());
        }
        let u = l0.subrange(4, l0.len() as int);
        assert(u =~= attrs[0]);
        assert(decl::wf_attr(attrs[0]));
        assert(parse::is_attr_start_line(u));
        let a1 = attrs.subrange(1, attrs.len() as int);
        assert(forall|i: int| 0 <= i < a1.len() ==> a1[i] == attrs[i + 1]);
        assert(ls.subrange(1, ls.len() as int) =~= emit::indent_lines(a1) + rest);
        lemma_struct_body_consume_attrs(a1, rest, pend.push(u), acc);
        assert(pend.push(u) + a1 =~= pend + attrs);
    }
}

/// Consuming indented attribute lines in an enum body.
pub proof fn lemma_enum_body_consume_attrs(
    attrs: Seq<Seq<u8>>,
    rest: Seq<Seq<u8>>,
    pend: Seq<Seq<u8>>,
    acc: Seq<VariantDeclV>,
)
    requires
        decl::wf_attrs(attrs),
    ensures
        parse::spec_parse_enum_body(emit::indent_lines(attrs) + rest, pend, acc) == (
        match parse::spec_parse_enum_body(rest, pend + attrs, acc) {
            Option::None => Option::<(Seq<VariantDeclV>, int)>::None,
            Option::Some(r) => Option::Some((r.0, r.1 + attrs.len())),
        }),
    decreases attrs.len(),
{
    if attrs.len() == 0 {
        assert(emit::indent_lines(attrs) + rest =~= rest);
        assert(pend + attrs =~= pend);
    } else {
        let ls = emit::indent_lines(attrs) + rest;
        let l0 = decl::bs_indent() + attrs[0];
        assert(ls[0] == emit::indent_lines(attrs)[0]);
        assert(ls[0] == l0);
        assert(l0 != decl::bs_close_brace()) by {
            if l0 == decl::bs_close_brace() {
                assert(l0[0] == 125u8);
                assert(l0[0] == 32u8);
            }
        }
        assert(text::has_prefix(l0, decl::bs_indent())) by {
            assert(l0.subrange(0, 4) =~= decl::bs_indent());
        }
        let u = l0.subrange(4, l0.len() as int);
        assert(u =~= attrs[0]);
        assert(decl::wf_attr(attrs[0]));
        assert(parse::is_attr_start_line(u));
        let a1 = attrs.subrange(1, attrs.len() as int);
        assert(forall|i: int| 0 <= i < a1.len() ==> a1[i] == attrs[i + 1]);
        assert(ls.subrange(1, ls.len() as int) =~= emit::indent_lines(a1) + rest);
        lemma_enum_body_consume_attrs(a1, rest, pend.push(u), acc);
        assert(pend.push(u) + a1 =~= pend + attrs);
    }
}

/// Parsing the emitted field lines and closing brace recovers the fields.
pub proof fn lemma_parse_emitted_fields(fs: Seq<FieldDeclV>, acc: Seq<FieldDeclV>, tail: Seq<Seq<u8>>)
    requires
        forall|i: int| 0 <= i < fs.len() ==> decl::wf_field(#[trigger] fs[i]),
    ensures
        parse::spec_parse_struct_body(
            emit::fields_lines(fs) + seq![decl::bs_close_brace()] + tail,
            Seq::empty(),
            acc,
        ) == Option::Some((acc + fs, emit::fields_lines(fs).len() as int + 1)),
    decreases fs.len(),
{
    if fs.len() == 0 {
        let ls = emit::fields_lines(fs) + seq![decl::bs_close_brace()] + tail;
        assert(ls[0] == decl::bs_close_brace());
        assert(acc + fs =~= acc);
    } else {
        let f = fs[0];
        assert(decl::wf_field(f));
        let rest = fs.subrange(1, fs.len() as int);
        assert(forall|i: int| 0 <= i < rest.len() ==> rest[i] == fs[i + 1]);
        let after = seq![emit::field_line(f)] + emit::fields_lines(rest) + seq![
            decl::bs_close_brace(),
        ] + tail;
        let ls = emit::fields_lines(fs) + seq![decl::bs_close_brace()] + tail;
        assert(ls =~= emit::indent_lines(f.attrs) + after);
        lemma_struct_body_consume_attrs(f.attrs, after, Seq::empty(), acc);
        assert(Seq::<Seq<u8>>::empty() + f.attrs =~= f.attrs);
        // One field line: parses to the field, with the pending attributes.
        let l0 = emit::field_line(f);
        assert(after[0] == l0);
        assert(l0 != decl::bs_close_brace()) by {
            if l0 == decl::bs_close_brace() {
                assert(l0[0] == 125u8);
                assert(l0[0] == 32u8);
            }
        }
        assert(text::has_prefix(l0, decl::bs_indent())) by {
            assert(l0.subrange(0, 4) =~= decl::bs_indent());
        }
        let u = l0.subrange(4, l0.len() as int);
        assert(u =~= decl::bs_pub_space() + f.name + decl::bs_colon_space() + f.ty + seq![44u8]);
        assert(!parse::is_attr_start_line(u)) by {
            assert(u[0] == 112u8);
            if text::has_prefix(u, decl::bs_attr_start()) {
                assert(u.subrange(0, 2)[0] == 35u8);
            }
            if text::has_prefix(u, decl::bs_doc_start()) {
                assert(u.subrange(0, 3)[0] == 47u8);
            }
        }
        lemma_parse_field_line_emitted(f);
        let fv = FieldDeclV { attrs: f.attrs, name: f.name, ty: f.ty };
        assert(fv == f);
        let after1 = emit::fields_lines(rest) + seq![decl::bs_close_brace()] + tail;
        assert(after.subrange(1, after.len() as int) =~= after1);
        lemma_parse_emitted_fields(rest, acc.push(f), tail);
        assert(acc.push(f) + rest =~= acc + fs);
        assert(emit::fields_lines(fs).len() == f.attrs.len() + 1 + emit::fields_lines(rest).len());
    }
}

/// Parsing the emitted variant lines and closing brace recovers the
/// variants.
pub proof fn lemma_parse_emitted_variants(
    vs: Seq<VariantDeclV>,
    acc: Seq<VariantDeclV>,
    tail: Seq<Seq<u8>>,
)
    requires
        forall|i: int| 0 <= i < vs.len() ==> decl::wf_variant(#[trigger] vs[i]),
    ensures
        parse::spec_parse_enum_body(
            emit::variants_lines(vs) + seq![decl::bs_close_brace()] + tail,
            Seq::empty(),
            acc,
        ) == Option::Some((acc + vs, emit::variants_lines(vs).len() as int + 1)),
    decreases vs.len(),
{
    if vs.len() == 0 {
        let ls = emit::variants_lines(vs) + seq![decl::bs_close_brace()] + tail;
        assert(ls[0] == decl::bs_close_brace());
        assert(acc + vs =~= acc);
    } else {
        let v = vs[0];
        assert(decl::wf_variant(v));
        let rest = vs.subrange(1, vs.len() as int);
        assert(forall|i: int| 0 <= i < rest.len() ==> rest[i] == vs[i + 1]);
        let after = seq![emit::variant_line(v)] + emit::variants_lines(rest) + seq![
            decl::bs_close_brace(),
        ] + tail;
        let ls = emit::variants_lines(vs) + seq![decl::bs_close_brace()] + tail;
        assert(ls =~= emit::indent_lines(v.attrs) + after);
        lemma_enum_body_consume_attrs(v.attrs, after, Seq::empty(), acc);
        assert(Seq::<Seq<u8>>::empty() + v.attrs =~= v.attrs);
        let l0 = emit::variant_line(v);
        assert(after[0] == l0);
        assert(l0 != decl::bs_close_brace()) by {
            if l0 == decl::bs_close_brace() {
                assert(l0[0] == 125u8);
                assert(l0[0] == 32u8);
            }
        }
        assert(text::has_prefix(l0, decl::bs_indent())) by {
            assert(l0.subrange(0, 4) =~= decl::bs_indent());
        }
        let u = l0.subrange(4, l0.len() as int);
        assert(u =~= v.name + (match v.discr {
            Option::Some(d) => decl::bs_eq_sep() + d,
            Option::None => Seq::<u8>::empty(),
        }) + seq![44u8]);
        assert(!parse::is_attr_start_line(u)) by {
            assert(u[0] == v.name[0]);
            assert(decl::is_ident_byte(u[0]));
            if text::has_prefix(u, decl::bs_attr_start()) {
                assert(u.subrange(0, 2)[0] == 35u8);
            }
            if text::has_prefix(u, decl::bs_doc_start()) {
                assert(u.subrange(0, 3)[0] == 47u8);
            }
        }
        lemma_parse_variant_line_emitted(v);
        let vv = VariantDeclV { attrs: v.attrs, name: v.name, discr: v.discr };
        assert(vv == v);
        let after1 = emit::variants_lines(rest) + seq![decl::bs_close_brace()] + tail;
        assert(after.subrange(1, after.len() as int) =~= after1);
        lemma_parse_emitted_variants(rest, acc.push(v), tail);
        assert(acc.push(v) + rest =~= acc + vs);
        assert(emit::variants_lines(vs).len() == v.attrs.len() + 1 + emit::variants_lines(
            rest,
        ).len());
    }
}

/// Parsing the emitted lines of one item (with anything following) yields
/// that item and consumes exactly its lines.
#[verifier::rlimit(60)]
pub proof fn lemma_parse_one_emitted(it: SourceItemV, tail: Seq<Seq<u8>>)
    requires
        decl::wf_item(it),
    ensures
        parse::spec_parse_one(emit::item_lines(it) + tail) == Option::Some(
            (it, emit::item_lines(it).len() as int),
        ),
        emit::item_lines(it).len() >= 1,
{
    let ls = emit::item_lines(it) + tail;
    match it {
        SourceItemV::Passthrough(l) => {
            assert(ls[0] == l);
            assert(!parse::is_attr_start_line(l));
            assert(!text::has_prefix(l, decl::bs_pub_struct()));
            assert(!text::has_prefix(l, decl::bs_pub_enum()));
        },
        SourceItemV::Struct(s) => {
            let dpart = if s.derives.len() > 0 {
                seq![emit::derive_line(s.derives)]
            } else {
                Seq::<Seq<u8>>::empty()
            };
            let hdr = emit::struct_header(s.name);
            let rest_h = seq![hdr] + emit::fields_lines(s.fields) + seq![decl::bs_close_brace()]
                + tail;
            assert(ls =~= dpart + s.attrs + rest_h);
            assert(rest_h[0] == hdr);
            assert(hdr[0] == 112u8);
            assert(!parse::is_attr_start_line(hdr)) by {
                if text::has_prefix(hdr, decl::bs_attr_start()) {
                    assert(hdr.subrange(0, 2)[0] == 35u8);
                }
                if text::has_prefix(hdr, decl::bs_doc_start()) {
                    assert(hdr.subrange(0, 3)[0] == 47u8);
                }
            }
            assert(text::has_prefix(hdr, decl::bs_pub_struct())) by {
                assert(hdr.subrange(0, 11) =~= decl::bs_pub_struct());
            }
            // The first line selects the declaration path.
            assert(parse::is_attr_start_line(ls[0]) || text::has_prefix(
                ls[0],
                decl::bs_pub_struct(),
            ) || text::has_prefix(ls[0], decl::bs_pub_enum())) by {
                if s.derives.len() > 0 {
                    assert(ls[0] == emit::derive_line(s.derives));
                    assert(text::has_prefix(ls[0], decl::bs_attr_start())) by {
                        assert(ls[0].subrange(0, 2) =~= decl::bs_attr_start());
                    }
                } else if s.attrs.len() > 0 {
                    assert(ls[0] == s.attrs[0]);
                    assert(decl::wf_attr(s.attrs[0]));
                } else {
                    assert(ls[0] == hdr);
                }
            }
            lemma_collect_run_emitted(s.derives, s.attrs, rest_h);
            let m = (if s.derives.len() > 0 {
                1int
            } else {
                0int
            }) + s.attrs.len();
            assert(m < ls.len());
            assert(ls[m] == rest_h[0]);
            lemma_parse_headers_emitted(s.name);
            assert(ls.subrange(m + 1, ls.len() as int) =~= emit::fields_lines(s.fields) + seq![
                decl::bs_close_brace(),
            ] + tail);
            lemma_parse_emitted_fields(s.fields, Seq::empty(), tail);
            assert(Seq::<FieldDeclV>::empty() + s.fields =~= s.fields);
            let sv = StructDeclV {
                derives: s.derives,
                attrs: s.attrs,
                name: s.name,
                fields: s.fields,
            };
            assert(sv == s);
            assert(emit::struct_lines(s).len() == m + 1 + emit::fields_lines(s.fields).len() + 1);
        },
        SourceItemV::Enum(e) => {
            let dpart = if e.derives.len() > 0 {
                seq![emit::derive_line(e.derives)]
            } else {
                Seq::<Seq<u8>>::empty()
            };
            let hdr = emit::enum_header(e.name);
            let rest_h = seq![hdr] + emit::variants_lines(e.variants) + seq![
                decl::bs_close_brace(),
            ] + tail;
            assert(ls =~= dpart + e.attrs + rest_h);
            assert(rest_h[0] == hdr);
            assert(hdr[0] == 112u8);
            assert(!parse::is_attr_start_line(hdr)) by {
                if text::has_prefix(hdr, decl::bs_attr_start()) {
                    assert(hdr.subrange(0, 2)[0] == 35u8);
                }
                if text::has_prefix(hdr, decl::bs_doc_start()) {
                    assert(hdr.subrange(0, 3)[0] == 47u8);
                }
            }
            assert(text::has_prefix(hdr, decl::bs_pub_enum())) by {
                assert(hdr.subrange(0, 9) =~= decl::bs_pub_enum());
            }
            assert(!text::has_prefix(hdr, decl::bs_pub_struct())) by {
                if text::has_prefix(hdr, decl::bs_pub_struct()) {
                    assert(hdr.subrange(0, 11)[4] == 115u8);
                    assert(hdr[4] == decl::bs_pub_enum()[4]);
                }
            }
            assert(parse::is_attr_start_line(ls[0]) || text::has_prefix(
                ls[0],
                decl::bs_pub_struct(),
            ) || text::has_prefix(ls[0], decl::bs_pub_enum())) by {
                if e.derives.len() > 0 {
                    assert(ls[0] == emit::derive_line(e.derives));
                    assert(text::has_prefix(ls[0], decl::bs_attr_start())) by {
                        assert(ls[0].subrange(0, 2) =~= decl::bs_attr_start());
                    }
                } else if e.attrs.len() > 0 {
                    assert(ls[0] == e.attrs[0]);
                    assert(decl::wf_attr(e.attrs[0]));
                } else {
                    assert(ls[0] == hdr);
                }
            }
            lemma_collect_run_emitted(e.derives, e.attrs, rest_h);
            let m = (if e.derives.len() > 0 {
                1int
            } else {
                0int
            }) + e.attrs.len();
            assert(m < ls.len());
            assert(ls[m] == rest_h[0]);
            lemma_parse_headers_emitted(e.name);
            assert(ls.subrange(m + 1, ls.len() as int) =~= emit::variants_lines(e.variants) + seq![
                decl::bs_close_brace(),
            ] + tail);
            lemma_parse_emitted_variants(e.variants, Seq::empty(), tail);
            assert(Seq::<VariantDeclV>::empty() + e.variants =~= e.variants);
            let ev = EnumDeclV {
                derives: e.derives,
                attrs: e.attrs,
                name: e.name,
                variants: e.variants,
            };
            assert(ev == e);
            assert(emit::enum_lines(e).len() == m + 1 + emit::variants_lines(e.variants).len()
                + 1);
        },
    }
}

/// Parsing the emitted lines of a well-formed tree recovers the tree.
pub proof fn lemma_round_trip_items(items: Seq<SourceItemV>)
    requires
        decl::wf_items(items),
    ensures
        parse::spec_parse_items(emit::items_lines(items)) == Option::Some(items),
    decreases items.len(),
{
    if items.len() == 0 {
        assert(items =~= Seq::<SourceItemV>::empty());
    } else {
        let rest = items.subrange(1, items.len() as int);
        assert(forall|i: int| 0 <= i < rest.len() ==> rest[i] == items[i + 1]);
        let ls = emit::items_lines(items);
        assert(ls == emit::item_lines(items[0]) + emit::items_lines(rest));
        lemma_parse_one_emitted(items[0], emit::items_lines(rest));
        let k0 = emit::item_lines(items[0]).len() as int;
        assert(ls.subrange(k0, ls.len() as int) =~= emit::items_lines(rest));
        lemma_round_trip_items(rest);
        assert(seq![items[0]] + rest =~= items);
    }
}

/// Round-trip structural fidelity: emitting a well-formed declaration tree
/// as text and parsing that text yields the identical tree.
pub proof fn lemma_emit_parse_round_trip(items: Seq<SourceItemV>)
    requires
        decl::wf_items(items),
    ensures
        parse::spec_parse_source(emit::spec_emit_text(items)) == Option::Some(items),
{
    lemma_items_lines_no_nl(items);
    text::lemma_split_join_lines(emit::items_lines(items));
    lemma_round_trip_items(items);
}

} // verus!
